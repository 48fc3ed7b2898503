//! HTTP/3 control plane: the control stream, QPACK streams, and the
//! connection-level state that governs them (RFC 9114 Section 6).
//!
//! This is the connection driver's control half, as a state machine: it holds
//! no transport streams but names them by the handles that the driver gave
//! them, asks for one transport operation at a time, and is told how it went.
//! It owns:
//!
//! - the three outbound unidirectional streams this endpoint must open
//!   (control, QPACK encoder, QPACK decoder) via [`ControlStreams::poll_init`],
//!   the SETTINGS frame that must be its control stream's first frame, and the
//!   GOAWAY/CANCEL_PUSH/MAX_PUSH_ID frames the driver queues with the `send_*`
//!   methods and writes with [`ControlStreams::poll_flush`];
//! - the peer's inbound unidirectional streams, classified by stream type, and
//!   the peer's control stream, validated frame by frame
//!   ([`ControlStreams::poll_read`]);
//! - what becomes of the peer's QPACK streams: its encoder stream goes to the
//!   decoder, whose acknowledgements flow out on the QPACK decoder stream, and
//!   its decoder stream is validated and tells the encoder what it may evict.
//!
//! Rules enforced here, all from RFC 9114 Section 6.2: a second control stream,
//! a push stream (server side), or a duplicate QPACK stream is
//! `H3_STREAM_CREATION_ERROR`; an unknown (including reserved/grease) stream
//! type is ignored, its data drained and discarded (never a connection error);
//! the first frame of the control stream must be SETTINGS
//! (`H3_MISSING_SETTINGS` otherwise); a second SETTINGS or any
//! DATA/HEADERS/PUSH_PROMISE on the control stream is `H3_FRAME_UNEXPECTED`; a
//! CANCEL_PUSH for a push this endpoint never promised is `H3_ID_ERROR`; a
//! reduced MAX_PUSH_ID is `H3_ID_ERROR`; the peer closing or resetting any
//! critical stream is `H3_CLOSED_CRITICAL_STREAM` (a control stream that ends
//! before SETTINGS is `H3_MISSING_SETTINGS`).

use super::codecs;
use super::codecs::{CodecsState, SharedCodecs};
use super::error::{H3Error, TransportError};
use super::frame;
use super::frame::{Frame, FrameDecoder, FrameError, FrameValue, Varint, MAX_VARINT};
use super::qpack::QpackError;
use super::settings;
use super::settings::{LocalSettings, PeerSettings, PeerValues};
use crate::octets;
use crate::octets::as_slice;
use bytes::{Bytes, BytesMut};
use std::collections::VecDeque;
use vstd::prelude::*;
use vstd::slice::*;
use vstd::std_specs::convert::FromSpecImpl;

verus! {

/// Uni stream type: control stream (RFC 9114 Section 6.2.1).
pub const STREAM_TYPE_CONTROL: u64 = 0x0;

/// Uni stream type: push stream (RFC 9114 Section 6.2.2).
pub const STREAM_TYPE_PUSH: u64 = 0x1;

/// Uni stream type: QPACK encoder stream (RFC 9204 Section 4.2).
pub const STREAM_TYPE_QPACK_ENCODER: u64 = 0x2;

/// Uni stream type: QPACK decoder stream (RFC 9204 Section 4.4).
pub const STREAM_TYPE_QPACK_DECODER: u64 = 0x3;

/// A control-plane failure, each mapped to the connection error code the driver
/// closes with (see [`ControlError::h3_code`]).
#[derive(Debug, Clone, Copy, PartialEq, Eq)]
pub enum ControlError {
    /// The transport failed.
    Transport(TransportError),
    /// A critical stream (control, QPACK encoder or decoder) was closed or
    /// reset by the peer (`H3_CLOSED_CRITICAL_STREAM`).
    ClosedCriticalStream,
    /// The control stream's first frame was not SETTINGS, or the control
    /// stream ended without any (`H3_MISSING_SETTINGS`).
    MissingSettings,
    /// A stream that ended before its type, a duplicate control/QPACK stream,
    /// or a push stream on the server (`H3_STREAM_CREATION_ERROR`).
    StreamCreation,
    /// A second SETTINGS, or a frame that is not permitted on the control
    /// stream (`H3_FRAME_UNEXPECTED`).
    FrameUnexpected,
    /// A malformed frame payload (`H3_FRAME_ERROR`).
    Frame,
    /// Reserved or duplicate setting identifiers (`H3_SETTINGS_ERROR`).
    Settings,
    /// A CANCEL_PUSH for a never-promised push, or a reduced MAX_PUSH_ID
    /// (`H3_ID_ERROR`).
    Id,
    /// A QPACK stream of the peer was malformed (RFC 9204 Section 6 error
    /// family `0x02xx`).
    Qpack(QpackError),
}

impl ControlError {
    /// The code that [`ControlError::h3_code`] returns.
    pub open spec fn code_spec(self) -> u64 {
        match self {
            ControlError::Transport(_) => H3Error::GeneralProtocol.code_spec(),
            ControlError::ClosedCriticalStream => H3Error::ClosedCriticalStream.code_spec(),
            ControlError::MissingSettings => H3Error::MissingSettings.code_spec(),
            ControlError::StreamCreation => H3Error::StreamCreation.code_spec(),
            ControlError::FrameUnexpected => H3Error::FrameUnexpected.code_spec(),
            ControlError::Frame => H3Error::FrameError.code_spec(),
            ControlError::Settings => H3Error::Settings.code_spec(),
            ControlError::Id => H3Error::Id.code_spec(),
            ControlError::Qpack(err) => err.code_spec() as u64,
        }
    }

    /// The connection error code to close with.
    pub fn h3_code(&self) -> (r: u64)
        ensures
            r == self.code_spec(),
    {
        match self {
            ControlError::Transport(_) => H3Error::GeneralProtocol.code(),
            ControlError::ClosedCriticalStream => H3Error::ClosedCriticalStream.code(),
            ControlError::MissingSettings => H3Error::MissingSettings.code(),
            ControlError::StreamCreation => H3Error::StreamCreation.code(),
            ControlError::FrameUnexpected => H3Error::FrameUnexpected.code(),
            ControlError::Frame => H3Error::FrameError.code(),
            ControlError::Settings => H3Error::Settings.code(),
            ControlError::Id => H3Error::Id.code(),
            ControlError::Qpack(err) => err.code() as u64,
        }
    }
}

impl From<TransportError> for ControlError {
    fn from(err: TransportError) -> (r: ControlError) {
        ControlError::Transport(err)
    }
}

impl FromSpecImpl<TransportError> for ControlError {
    open spec fn obeys_from_spec() -> bool {
        true
    }

    open spec fn from_spec(err: TransportError) -> ControlError {
        ControlError::Transport(err)
    }
}

/// The control-plane failure that a malformed frame is.
pub open spec fn frame_failure(err: FrameError) -> ControlError {
    match err {
        FrameError::Frame => ControlError::Frame,
        FrameError::Unexpected(_) => ControlError::FrameUnexpected,
        FrameError::Settings => ControlError::Settings,
    }
}

fn map_frame_error(err: FrameError) -> (r: ControlError)
    ensures
        r == frame_failure(err),
{
    match err {
        FrameError::Frame => ControlError::Frame,
        FrameError::Unexpected(_) => ControlError::FrameUnexpected,
        FrameError::Settings => ControlError::Settings,
    }
}

/// A control-plane event for the connection driver.
#[derive(Debug, Clone, Copy, PartialEq, Eq)]
pub enum ControlEvent {
    /// The peer's SETTINGS, the first frame of its control stream.
    Settings(PeerSettings),
    /// The peer's GOAWAY. In the server-to-client direction `id` is a stream
    /// ID; in the client-to-server direction a push ID.
    Goaway { id: u64 },
    /// The peer's MAX_PUSH_ID (client to server; a server never sends it).
    MaxPushId { id: u64 },
    /// The peer's CANCEL_PUSH (client to server; it is `H3_ID_ERROR` for a
    /// server that never promised the push).
    CancelPush { push_id: u64 },
}

/// A control-plane event as a value.
pub enum EventValue {
    Settings(PeerValues),
    Goaway { id: u64 },
    MaxPushId { id: u64 },
    CancelPush { push_id: u64 },
}

impl View for ControlEvent {
    type V = EventValue;

    open spec fn view(&self) -> EventValue {
        match *self {
            ControlEvent::Settings(peer) => EventValue::Settings(peer@),
            ControlEvent::Goaway { id } => EventValue::Goaway { id },
            ControlEvent::MaxPushId { id } => EventValue::MaxPushId { id },
            ControlEvent::CancelPush { push_id } => EventValue::CancelPush { push_id },
        }
    }
}

/// Events as values.
pub open spec fn event_values(queue: Seq<ControlEvent>) -> Seq<EventValue> {
    queue.map_values(|e: ControlEvent| e@)
}

/// One of the three streams that this endpoint opens.
#[derive(Debug, Clone, Copy, PartialEq, Eq, Structural)]
pub enum Outbound {
    Control,
    QpackEncoder,
    QpackDecoder,
}

/// What a reading poll asks of the driver, or how it ends.
#[derive(Debug, Clone, Copy, PartialEq, Eq)]
pub enum ReadStep {
    /// Accept a peer unidirectional stream, if one is waiting.
    Accept,
    /// Receive from the stream with this handle.
    Receive(u64),
    /// The poll is over: an event for the driver.
    Event(ControlEvent),
    /// The poll is over: all inbound inputs are idle.
    Pending,
}

/// A [`ReadStep`] as a value.
pub enum StepValue {
    Accept,
    Receive(u64),
    Event(EventValue),
    Pending,
}

impl View for ReadStep {
    type V = StepValue;

    open spec fn view(&self) -> StepValue {
        match *self {
            ReadStep::Accept => StepValue::Accept,
            ReadStep::Receive(handle) => StepValue::Receive(handle),
            ReadStep::Event(e) => StepValue::Event(e@),
            ReadStep::Pending => StepValue::Pending,
        }
    }
}

/// What the driver tells a reading poll.
#[derive(Debug, Clone)]
pub enum ReadReply {
    /// A new poll begins.
    Start,
    /// Nothing is there yet: no stream to accept, or no data to receive.
    Nothing,
    /// A stream was accepted; the driver calls it by this handle.
    Accepted(u64),
    /// Data was received.
    Chunk(Bytes),
    /// The peer finished the stream.
    End,
    /// The transport failed.
    Failed(TransportError),
}

/// A [`ReadReply`] as a value.
pub enum ReplyValue {
    Start,
    Nothing,
    Accepted(u64),
    Chunk(Seq<u8>),
    End,
    Failed(TransportError),
}

impl View for ReadReply {
    type V = ReplyValue;

    open spec fn view(&self) -> ReplyValue {
        match *self {
            ReadReply::Start => ReplyValue::Start,
            ReadReply::Nothing => ReplyValue::Nothing,
            ReadReply::Accepted(handle) => ReplyValue::Accepted(handle),
            ReadReply::Chunk(b) => ReplyValue::Chunk(octets::content(b)),
            ReadReply::End => ReplyValue::End,
            ReadReply::Failed(e) => ReplyValue::Failed(e),
        }
    }
}

/// The question of a reading poll that the driver has not answered yet.
#[derive(Debug, Clone, Copy, PartialEq, Eq, Structural)]
pub enum Turn {
    /// None: a poll has not begun, or is over.
    Rest,
    /// Whether a stream can be accepted.
    Accept,
    /// What the stream whose type is being read received.
    Classify,
    /// What the peer's control stream received.
    Control,
    /// What the peer's QPACK encoder stream received.
    Encoder,
    /// What the peer's QPACK decoder stream received.
    Decoder,
    /// What the stream that is being discarded received.
    Discard,
}

/// What a control plane holds.
#[verifier::ext_equal]
pub struct ControlState {
    pub local: LocalSettings,
    pub peer: PeerValues,
    /// The outbound streams' handles and what they have yet to send.
    pub out_control: Option<u64>,
    /// The octets being written on the control stream, and those behind them.
    pub control_out: Option<Seq<u8>>,
    pub control_buf: Seq<u8>,
    pub out_encoder: Option<u64>,
    pub out_decoder: Option<u64>,
    pub encoder_pending: Seq<Seq<u8>>,
    pub decoder_pending: Seq<Seq<u8>>,
    /// The peer's control stream and what of it is not a whole frame yet.
    pub in_control: Option<(u64, Seq<u8>)>,
    pub in_encoder: Option<u64>,
    pub in_decoder: Option<u64>,
    /// The stream whose type is being read, and what of it has arrived.
    pub pending_uni: Option<(u64, Seq<u8>)>,
    pub in_discard: Option<u64>,
    pub settings_received: bool,
    pub max_push_id: Option<u64>,
    pub goaway_sent: Option<u64>,
    pub events: Seq<EventValue>,
    pub turn: Turn,
    /// Whether the current round over the inputs found something.
    pub progressed: bool,
}

/// A control plane and the codecs it shares with the request streams.
#[verifier::ext_equal]
pub struct Plane {
    pub control: ControlState,
    pub codecs: CodecsState,
}

impl ControlState {
    /// A control plane that has opened and received nothing.
    pub open spec fn initial(local: LocalSettings) -> ControlState {
        ControlState {
            local,
            peer: PeerValues::initial(),
            out_control: None,
            control_out: None,
            control_buf: Seq::empty(),
            out_encoder: None,
            out_decoder: None,
            encoder_pending: Seq::empty(),
            decoder_pending: Seq::empty(),
            in_control: None,
            in_encoder: None,
            in_decoder: None,
            pending_uni: None,
            in_discard: None,
            settings_received: false,
            max_push_id: None,
            goaway_sent: None,
            events: Seq::empty(),
            turn: Turn::Rest,
            progressed: false,
        }
    }

    /// The outbound stream to open next.
    pub open spec fn unopened(self) -> Option<Outbound> {
        if self.out_control is None {
            Some(Outbound::Control)
        } else if self.out_encoder is None {
            Some(Outbound::QpackEncoder)
        } else if self.out_decoder is None {
            Some(Outbound::QpackDecoder)
        } else {
            None
        }
    }

    /// The control plane once the stream to open next is open. Each stream
    /// starts with its type, and the control stream goes on with SETTINGS.
    pub open spec fn opened(self, handle: u64) -> ControlState {
        match self.unopened() {
            Some(Outbound::Control) => ControlState {
                out_control: Some(handle),
                control_buf: self.control_buf + greeting(self.local),
                ..self
            },
            Some(Outbound::QpackEncoder) => ControlState {
                out_encoder: Some(handle),
                encoder_pending: self.encoder_pending.push(seq![STREAM_TYPE_QPACK_ENCODER as u8]),
                ..self
            },
            Some(Outbound::QpackDecoder) => ControlState {
                out_decoder: Some(handle),
                decoder_pending: self.decoder_pending.push(seq![STREAM_TYPE_QPACK_DECODER as u8]),
                ..self
            },
            None => self,
        }
    }

    /// What is queued on opened streams, in the order in which it is written:
    /// the handle of the stream and the octets.
    pub open spec fn writes(self) -> Seq<(u64, Seq<u8>)> {
        let control = match self.out_control {
            Some(handle) => (match self.control_out {
                Some(b) => seq![(handle, b)],
                None => Seq::empty(),
            }) + (if self.control_buf.len() > 0 {
                seq![(handle, self.control_buf)]
            } else {
                Seq::empty()
            }),
            None => Seq::empty(),
        };
        let encoder = match self.out_encoder {
            Some(handle) => self.encoder_pending.map_values(|b: Seq<u8>| (handle, b)),
            None => Seq::empty(),
        };
        let decoder = match self.out_decoder {
            Some(handle) => self.decoder_pending.map_values(|b: Seq<u8>| (handle, b)),
            None => Seq::empty(),
        };
        control + encoder + decoder
    }

    /// The control plane once the first of its writes is done.
    pub open spec fn written(self) -> ControlState {
        if self.out_control is Some && self.control_out is Some {
            ControlState { control_out: None, ..self }
        } else if self.out_control is Some && self.control_buf.len() > 0 {
            ControlState { control_buf: Seq::empty(), ..self }
        } else if self.out_encoder is Some && self.encoder_pending.len() > 0 {
            ControlState { encoder_pending: self.encoder_pending.skip(1), ..self }
        } else if self.out_decoder is Some && self.decoder_pending.len() > 0 {
            ControlState { decoder_pending: self.decoder_pending.skip(1), ..self }
        } else {
            self
        }
    }

    /// The control plane once a write is offered: what is written on the control
    /// stream does not change before it is done.
    pub open spec fn offered(self) -> ControlState {
        if self.out_control is Some && self.control_out is None && self.control_buf.len() > 0 {
            ControlState {
                control_out: Some(self.control_buf),
                control_buf: Seq::empty(),
                ..self
            }
        } else {
            self
        }
    }

    /// The control plane with a frame queued on its control stream.
    pub open spec fn queued(self, f: FrameValue) -> ControlState {
        ControlState { control_buf: self.control_buf + frame::frame_octets(f), ..self }
    }

    /// The control plane once it was told to send GOAWAY.
    pub open spec fn leaving(self, id: u64) -> ControlState {
        if self.goaway_sent is Some {
            self
        } else {
            ControlState { goaway_sent: Some(id), ..self }.queued(FrameValue::Goaway(id))
        }
    }

    /// The control plane once `acks`, if any, are queued on its QPACK decoder
    /// stream.
    pub open spec fn acknowledging(self, acks: Seq<u8>) -> ControlState {
        if acks.len() == 0 {
            self
        } else {
            ControlState { decoder_pending: self.decoder_pending.push(acks), ..self }
        }
    }

    /// Whether a stream is in use.
    pub open spec fn holds(self, handle: u64) -> bool {
        ||| self.out_control == Some(handle)
        ||| self.out_encoder == Some(handle)
        ||| self.out_decoder == Some(handle)
        ||| self.in_encoder == Some(handle)
        ||| self.in_decoder == Some(handle)
        ||| self.in_discard == Some(handle)
        ||| self.in_control matches Some(c) && c.0 == handle
        ||| self.pending_uni matches Some(p) && p.0 == handle
    }

    pub open spec fn found(self) -> ControlState {
        ControlState { progressed: true, ..self }
    }

    pub open spec fn at(self, turn: Turn) -> ControlState {
        ControlState { turn, ..self }
    }

    pub open spec fn noting(self, e: EventValue) -> ControlState {
        ControlState { events: self.events.push(e), ..self }
    }
}

/// What a control stream starts with: its type and the SETTINGS frame.
pub open spec fn greeting(local: LocalSettings) -> Seq<u8> {
    frame::varint_octets(STREAM_TYPE_CONTROL as nat) + frame::frame_octets(
        FrameValue::Settings(local.parameters()),
    )
}

impl Plane {
    /// The plane after a frame on the peer's control stream, and the error
    /// that the frame is, if any.
    pub open spec fn control_frame(self, f: FrameValue) -> (Plane, Result<(), ControlError>) {
        let c = self.control;
        if !c.settings_received && !(f is Settings) {
            // RFC 9114 Section 6.2.1: the first frame must be SETTINGS.
            (self, Err(ControlError::MissingSettings))
        } else {
            match f {
                FrameValue::Settings(list) => if c.settings_received {
                    // RFC 9114 Section 7.2.4.
                    (self, Err(ControlError::FrameUnexpected))
                } else {
                    let peer = c.peer.with_all(list);
                    (
                        Plane {
                            control: ControlState { peer, settings_received: true, ..c }.noting(
                                EventValue::Settings(peer),
                            ),
                            codecs: self.codecs.settled(peer),
                        },
                        Ok(()),
                    )
                },
                FrameValue::Goaway(id) => (
                    Plane { control: c.noting(EventValue::Goaway { id }), ..self },
                    Ok(()),
                ),
                FrameValue::MaxPushId(id) => if c.max_push_id matches Some(prev) && id < prev {
                    // RFC 9114 Section 7.2.7.
                    (self, Err(ControlError::Id))
                } else {
                    (
                        Plane {
                            control: ControlState { max_push_id: Some(id), ..c }.noting(
                                EventValue::MaxPushId { id },
                            ),
                            ..self
                        },
                        Ok(()),
                    )
                },
                // RFC 9114 Section 7.2.3: no push was ever promised.
                FrameValue::CancelPush(_) => (self, Err(ControlError::Id)),
                // RFC 9114 Sections 7.2.1, 7.2.2 and 7.2.5.
                FrameValue::Data(_)
                | FrameValue::Headers(_)
                | FrameValue::PushPromise { .. } => (self, Err(ControlError::FrameUnexpected)),
            }
        }
    }

    /// The plane after every whole frame that the peer's control stream holds,
    /// up to the first that is an error.
    pub open spec fn frames(self) -> (Plane, Result<(), ControlError>)
        decreases
                match self.control.in_control {
                    Some((_, buf)) => buf.len(),
                    None => 0,
                },
    {
        match self.control.in_control {
            None => (self, Ok(())),
            Some((handle, buf)) => {
                let (next, rest) = frame::next_frame(buf);
                let read = Plane {
                    control: ControlState { in_control: Some((handle, rest)), ..self.control },
                    ..self
                };
                match next {
                    Err(e) => (read, Err(frame_failure(e))),
                    Ok(None) => (read, Ok(())),
                    Ok(Some(f)) => {
                        let seen = Plane { control: read.control.found(), ..read };
                        match seen.control_frame(f) {
                            (p, Ok(())) => if p.control.in_control matches Some((_, b)) && b.len()
                                < buf.len() {
                                p.frames()
                            } else {
                                (p, Ok(()))
                            },
                            (p, Err(e)) => (p, Err(e)),
                        }
                    },
                }
            },
        }
    }

    /// The plane after the stream `handle` turned out to be of type `ty`, with
    /// `left` behind its type.
    pub open spec fn classified(self, handle: u64, ty: nat, left: Seq<u8>) -> (
        Plane,
        Result<(), ControlError>,
    ) {
        let c = self.control;
        if ty == STREAM_TYPE_CONTROL {
            if c.in_control is Some {
                (self, Err(ControlError::StreamCreation))
            } else {
                (
                    Plane {
                        control: ControlState { in_control: Some((handle, left)), ..c },
                        ..self
                    },
                    Ok(()),
                )
            }
        } else if ty == STREAM_TYPE_PUSH {
            (self, Err(ControlError::StreamCreation))
        } else if ty == STREAM_TYPE_QPACK_ENCODER {
            if c.in_encoder is Some {
                (self, Err(ControlError::StreamCreation))
            } else {
                let fed = if left.len() == 0 {
                    (self, Ok(()))
                } else {
                    self.encoder_chunk(left)
                };
                match fed {
                    (p, Ok(())) => (
                        Plane {
                            control: ControlState { in_encoder: Some(handle), ..p.control },
                            ..p
                        },
                        Ok(()),
                    ),
                    (p, Err(e)) => (p, Err(e)),
                }
            }
        } else if ty == STREAM_TYPE_QPACK_DECODER {
            if c.in_decoder is Some {
                (self, Err(ControlError::StreamCreation))
            } else {
                let fed = if left.len() == 0 {
                    (self.codecs, Ok(()))
                } else {
                    self.codecs.feed_decoder(left)
                };
                match fed {
                    (codecs, Ok(())) => (
                        Plane { control: ControlState { in_decoder: Some(handle), ..c }, codecs },
                        Ok(()),
                    ),
                    (codecs, Err(e)) => (Plane { codecs, ..self }, Err(ControlError::Qpack(e))),
                }
            }
        } else {
            // Unknown or reserved (grease): never a connection error.
            (Plane { control: ControlState { in_discard: Some(handle), ..c }, ..self }, Ok(()))
        }
    }

    /// The plane after `chunk` arrived on the peer's QPACK encoder stream.
    pub open spec fn encoder_chunk(self, chunk: Seq<u8>) -> (Plane, Result<(), ControlError>) {
        match self.codecs.feed_encoder(chunk) {
            (codecs, Ok(acks)) => (
                Plane { control: self.control.acknowledging(acks), codecs },
                Ok(()),
            ),
            (codecs, Err(e)) => (Plane { codecs, ..self }, Err(ControlError::Qpack(e))),
        }
    }

    /// A poll begins, or goes on with another round: an event that is queued,
    /// or the first question of a round.
    pub open spec fn begin(self) -> (Plane, Result<StepValue, ControlError>) {
        let c = self.control;
        if c.events.len() > 0 {
            (
                Plane {
                    control: ControlState { events: c.events.skip(1), turn: Turn::Rest, ..c },
                    ..self
                },
                Ok(StepValue::Event(c.events[0])),
            )
        } else {
            let p = Plane { control: ControlState { progressed: false, ..c }, ..self };
            match c.pending_uni {
                None => (
                    Plane { control: p.control.at(Turn::Accept), ..p },
                    Ok(StepValue::Accept),
                ),
                Some((handle, _)) => (
                    Plane { control: p.control.at(Turn::Classify), ..p },
                    Ok(StepValue::Receive(handle)),
                ),
            }
        }
    }

    pub open spec fn at_classify(self) -> (Plane, Result<StepValue, ControlError>) {
        match self.control.pending_uni {
            Some((handle, _)) => (
                Plane { control: self.control.at(Turn::Classify), ..self },
                Ok(StepValue::Receive(handle)),
            ),
            None => self.at_control(),
        }
    }

    pub open spec fn at_control(self) -> (Plane, Result<StepValue, ControlError>) {
        match self.control.in_control {
            Some((handle, _)) => (
                Plane { control: self.control.at(Turn::Control), ..self },
                Ok(StepValue::Receive(handle)),
            ),
            None => self.at_encoder(),
        }
    }

    /// The frames of the control stream are dealt with, and the round goes on.
    pub open spec fn past_control(self) -> (Plane, Result<StepValue, ControlError>) {
        match self.frames() {
            (p, Ok(())) => p.at_encoder(),
            (p, Err(e)) => p.fail(e),
        }
    }

    pub open spec fn at_encoder(self) -> (Plane, Result<StepValue, ControlError>) {
        match self.control.in_encoder {
            Some(handle) => (
                Plane { control: self.control.at(Turn::Encoder), ..self },
                Ok(StepValue::Receive(handle)),
            ),
            None => self.at_decoder(),
        }
    }

    pub open spec fn at_decoder(self) -> (Plane, Result<StepValue, ControlError>) {
        match self.control.in_decoder {
            Some(handle) => (
                Plane { control: self.control.at(Turn::Decoder), ..self },
                Ok(StepValue::Receive(handle)),
            ),
            None => self.at_discard(),
        }
    }

    pub open spec fn at_discard(self) -> (Plane, Result<StepValue, ControlError>) {
        match self.control.in_discard {
            Some(handle) => (
                Plane { control: self.control.at(Turn::Discard), ..self },
                Ok(StepValue::Receive(handle)),
            ),
            None => self.end_round(),
        }
    }

    /// A round is over: another begins where this one found something.
    pub open spec fn end_round(self) -> (Plane, Result<StepValue, ControlError>) {
        if self.control.progressed {
            self.begin()
        } else {
            (Plane { control: self.control.at(Turn::Rest), ..self }, Ok(StepValue::Pending))
        }
    }

    pub open spec fn fail(self, e: ControlError) -> (Plane, Result<StepValue, ControlError>) {
        (Plane { control: self.control.at(Turn::Rest), ..self }, Err(e))
    }

    /// Whether `reply` answers the open question, and what it brings can be
    /// counted and buffered.
    pub open spec fn accepts(self, reply: ReplyValue) -> bool {
        let c = self.control;
        match reply {
            ReplyValue::Start => true,
            ReplyValue::Nothing | ReplyValue::Failed(_) => !(c.turn is Rest),
            ReplyValue::Accepted(_) => c.turn is Accept,
            ReplyValue::End => !(c.turn is Rest) && !(c.turn is Accept),
            ReplyValue::Chunk(b) => match c.turn {
                Turn::Rest | Turn::Accept => false,
                Turn::Classify => held(c.pending_uni) + b.len() <= usize::MAX
                    && self.codecs.room_to_feed(held(c.pending_uni) + b.len()),
                Turn::Control => held(c.in_control) + b.len() <= usize::MAX,
                Turn::Encoder => self.codecs.room_to_feed(b.len()),
                Turn::Decoder | Turn::Discard => true,
            },
        }
    }

    /// The plane after `reply`, and what the poll asks next or how it ends.
    pub open spec fn answer(self, reply: ReplyValue) -> (Plane, Result<StepValue, ControlError>) {
        match reply {
            ReplyValue::Start => self.begin(),
            ReplyValue::Failed(e) => self.failed(e),
            ReplyValue::Nothing => self.idle(),
            ReplyValue::Accepted(handle) => Plane {
                control: ControlState {
                    pending_uni: Some((handle, Seq::empty())),
                    ..self.control
                }.found(),
                ..self
            }.at_classify(),
            ReplyValue::Chunk(b) => self.chunk(b),
            ReplyValue::End => self.ended(),
        }
    }

    /// The input that was asked about has nothing.
    pub open spec fn idle(self) -> (Plane, Result<StepValue, ControlError>) {
        match self.control.turn {
            Turn::Rest => self.begin(),
            Turn::Accept => self.at_classify(),
            Turn::Classify => self.at_control(),
            Turn::Control => self.past_control(),
            Turn::Encoder => self.at_decoder(),
            Turn::Decoder => self.at_discard(),
            Turn::Discard => self.end_round(),
        }
    }

    /// The transport failed on the input that was asked about. The reset of a
    /// critical stream closes it, and that of a stream that is being discarded
    /// ends it.
    pub open spec fn failed(self, e: TransportError) -> (Plane, Result<StepValue, ControlError>) {
        match (self.control.turn, e) {
            (Turn::Control | Turn::Encoder | Turn::Decoder, TransportError::Reset { .. }) => {
                self.fail(ControlError::ClosedCriticalStream)
            },
            (Turn::Discard, TransportError::Reset { .. }) => self.discarded(),
            _ => self.fail(ControlError::Transport(e)),
        }
    }

    /// The stream that is being discarded is over, and so is the round.
    pub open spec fn discarded(self) -> (Plane, Result<StepValue, ControlError>) {
        Plane {
            control: ControlState { in_discard: None, ..self.control }.found(),
            ..self
        }.end_round()
    }

    /// The control stream is over. The frames that it still holds are dealt
    /// with first.
    pub open spec fn control_ended(self) -> (Plane, Result<StepValue, ControlError>) {
        match self.frames() {
            (p, Ok(())) => p.fail(
                if p.control.settings_received {
                    ControlError::ClosedCriticalStream
                } else {
                    ControlError::MissingSettings
                },
            ),
            (p, Err(e)) => p.fail(e),
        }
    }

    /// The input that was asked about has ended.
    pub open spec fn ended(self) -> (Plane, Result<StepValue, ControlError>) {
        let c = self.control;
        match c.turn {
            // The stream ended without a complete type (RFC 9114 Section 6.2).
            Turn::Classify => Plane {
                control: ControlState { pending_uni: None, ..c },
                ..self
            }.fail(ControlError::StreamCreation),
            Turn::Control => self.control_ended(),
            Turn::Discard => self.discarded(),
            _ => self.fail(ControlError::ClosedCriticalStream),
        }
    }

    /// The input that was asked about has data.
    pub open spec fn chunk(self, b: Seq<u8>) -> (Plane, Result<StepValue, ControlError>) {
        let c = self.control;
        match c.turn {
            Turn::Classify => match c.pending_uni {
                Some((handle, buf)) => {
                    let p = Plane {
                        control: ControlState { pending_uni: Some((handle, buf + b)), ..c },
                        ..self
                    };
                    match frame::read_varint(buf + b) {
                        Varint::More => (p, Ok(StepValue::Receive(handle))),
                        Varint::Redundant => p.fail(ControlError::Frame),
                        Varint::Value { value: ty, len } => {
                            let q = Plane {
                                control: ControlState { pending_uni: None, ..c },
                                ..self
                            };
                            match q.classified(handle, ty, (buf + b).skip(len as int)) {
                                (r, Ok(())) => Plane {
                                    control: r.control.found(),
                                    ..r
                                }.at_control(),
                                (r, Err(e)) => r.fail(e),
                            }
                        },
                    }
                },
                None => self.at_control(),
            },
            Turn::Control => match c.in_control {
                Some((handle, buf)) => Plane {
                    control: ControlState { in_control: Some((handle, buf + b)), ..c }.found(),
                    ..self
                }.past_control(),
                None => self.at_encoder(),
            },
            Turn::Encoder => match self.encoder_chunk(b) {
                (p, Ok(())) => Plane { control: p.control.found(), ..p }.at_decoder(),
                (p, Err(e)) => p.fail(e),
            },
            Turn::Decoder => match self.codecs.feed_decoder(b) {
                (codecs, Ok(())) => Plane { control: c.found(), codecs }.at_discard(),
                (codecs, Err(e)) => Plane { codecs, ..self }.fail(ControlError::Qpack(e)),
            },
            Turn::Discard => Plane { control: c.found(), ..self }.end_round(),
            Turn::Rest | Turn::Accept => self.begin(),
        }
    }
}

/// The octets held of a stream.
pub open spec fn held(stream: Option<(u64, Seq<u8>)>) -> nat {
    match stream {
        Some((_, buf)) => buf.len(),
        None => 0,
    }
}


/// A [`ControlStreams::poll_read`] result as a value.
pub open spec fn step_value(r: Result<ReadStep, ControlError>) -> Result<StepValue, ControlError> {
    match r {
        Ok(step) => Ok(step@),
        Err(e) => Err(e),
    }
}

/// The peer's control stream plus its frame decoder.
#[derive(Debug)]
struct PeerControl {
    stream: u64,
    decoder: FrameDecoder,
}

/// A freshly accepted uni stream whose type varint is still being read.
#[derive(Debug)]
struct PendingUni {
    stream: u64,
    buf: Vec<u8>,
}

/// The connection's control plane (RFC 9114 Section 6).
///
/// Owned by the connection driver on its single task: `poll_init` opens and
/// primes the outbound streams, `poll_read` accepts and services the peer's
/// streams and yields [`ControlEvent`]s, `poll_flush` writes everything queued
/// on the outbound streams.
#[derive(Debug)]
pub struct ControlStreams {
    local: LocalSettings,
    peer: PeerSettings,
    // Outbound streams and their pending bytes.
    out_control: Option<u64>,
    // The octets being written, which stay the same allocation until the
    // transport has taken them, and those queued behind them.
    control_out: Option<Bytes>,
    control_buf: Vec<u8>,
    out_encoder: Option<u64>,
    out_decoder: Option<u64>,
    encoder_pending: VecDeque<Bytes>,
    decoder_pending: VecDeque<Bytes>,
    // Inbound streams.
    in_control: Option<PeerControl>,
    in_encoder: Option<u64>,
    in_decoder: Option<u64>,
    pending_uni: Option<PendingUni>,
    // A uni stream of unknown (or reserved, i.e. grease) type: drained and
    // discarded (RFC 9114 Section 6.2: recipients of unknown stream types MUST
    // discard the data or abort reading, and MUST NOT treat them as a
    // connection error of any kind).
    in_discard: Option<u64>,
    settings_received: bool,
    max_push_id: Option<u64>,
    goaway_sent: Option<u64>,
    events: VecDeque<ControlEvent>,
    turn: Turn,
    progressed: bool,
}

impl View for ControlStreams {
    type V = ControlState;

    closed spec fn view(&self) -> ControlState {
        ControlState {
            local: self.local,
            peer: self.peer@,
            out_control: self.out_control,
            control_out: match self.control_out {
                Some(b) => Some(octets::content(b)),
                None => None,
            },
            control_buf: self.control_buf@,
            out_encoder: self.out_encoder,
            out_decoder: self.out_decoder,
            encoder_pending: codecs::contents(self.encoder_pending@),
            decoder_pending: codecs::contents(self.decoder_pending@),
            in_control: match self.in_control {
                Some(c) => Some((c.stream, c.decoder@)),
                None => None,
            },
            in_encoder: self.in_encoder,
            in_decoder: self.in_decoder,
            pending_uni: match self.pending_uni {
                Some(p) => Some((p.stream, p.buf@)),
                None => None,
            },
            in_discard: self.in_discard,
            settings_received: self.settings_received,
            max_push_id: self.max_push_id,
            goaway_sent: self.goaway_sent,
            events: event_values(self.events@),
            turn: self.turn,
            progressed: self.progressed,
        }
    }
}

/// Whether a slot holds that handle.
fn held_in(slot: Option<u64>, handle: u64) -> (r: bool)
    ensures
        r == (slot == Some(handle)),
{
    match slot {
        Some(h) => h == handle,
        None => false,
    }
}

proof fn lemma_frame_len(f: FrameValue)
    requires
        frame::frame_fits(f),
    ensures
        frame::frame_octets(f).len() <= 16 + frame::payload_octets(f).len(),
{
    frame::lemma_varint_round_trip(frame::frame_type(f) as nat, Seq::empty());
    frame::lemma_varint_round_trip(frame::payload_octets(f).len(), Seq::empty());
}

impl ControlStreams {
    /// The announced settings are variable-length integers, and a question
    /// about a stream is open only while there is such a stream.
    pub closed spec fn wf(&self) -> bool {
        &&& self.local.fits()
        &&& self.turn is Classify ==> self.pending_uni is Some
        &&& self.turn is Control ==> self.in_control is Some
    }

    /// The plane that this is part of.
    pub open spec fn plane(&self, codecs: &SharedCodecs) -> Plane {
        Plane { control: self@, codecs: codecs@ }
    }

    /// Creates the control plane for a connection with the given local
    /// settings. Nothing is sent until [`ControlStreams::poll_init`].
    pub fn new(local: LocalSettings) -> (r: Self)
        requires
            local.fits(),
        ensures
            r.wf(),
            r@ == ControlState::initial(local),
    {
        let r = ControlStreams {
            local,
            peer: PeerSettings::default(),
            out_control: None,
            control_out: None,
            control_buf: Vec::new(),
            out_encoder: None,
            out_decoder: None,
            encoder_pending: VecDeque::new(),
            decoder_pending: VecDeque::new(),
            in_control: None,
            in_encoder: None,
            in_decoder: None,
            pending_uni: None,
            in_discard: None,
            settings_received: false,
            max_push_id: None,
            goaway_sent: None,
            events: VecDeque::new(),
            turn: Turn::Rest,
            progressed: false,
        };
        assert(r@ =~= ControlState::initial(local));
        r
    }

    /// The peer's settings once its SETTINGS frame arrived (defaults before
    /// that).
    pub fn peer_settings(&self) -> (r: &PeerSettings)
        ensures
            r@ == self@.peer,
    {
        &self.peer
    }

    /// Whether the peer's SETTINGS frame was received.
    pub fn settings_received(&self) -> (r: bool)
        ensures
            r == self@.settings_received,
    {
        self.settings_received
    }

    /// The peer's MAX_PUSH_ID, once received.
    pub fn max_push_id(&self) -> (r: Option<u64>)
        ensures
            r == self@.max_push_id,
    {
        self.max_push_id
    }

    /// The ID this endpoint announced in its GOAWAY, once sent.
    pub fn goaway_sent(&self) -> (r: Option<u64>)
        ensures
            r == self@.goaway_sent,
    {
        self.goaway_sent
    }

    /// Whether a GOAWAY has been sent; the driver then rejects request streams
    /// above the announced ID and closes with `H3_NO_ERROR` once they drain.
    pub fn shutting_down(&self) -> (r: bool)
        ensures
            r == self@.goaway_sent is Some,
    {
        self.goaway_sent.is_some()
    }

    /// Whether a stream is still in use. The driver may let go of the others.
    pub fn holds(&self, handle: u64) -> (r: bool)
        ensures
            r == self@.holds(handle),
    {
        let classifying: bool = match &self.pending_uni {
            Some(p) => p.stream == handle,
            None => false,
        };
        let control: bool = match &self.in_control {
            Some(c) => c.stream == handle,
            None => false,
        };
        classifying || control || held_in(self.out_control, handle) || held_in(self.out_encoder, handle)
            || held_in(self.out_decoder, handle) || held_in(self.in_encoder, handle) || held_in(
            self.in_decoder,
            handle,
        ) || held_in(self.in_discard, handle)
    }

    /// Whether a peer stream's type is still being read.
    pub fn is_classifying(&self) -> (r: bool)
        ensures
            r == self@.pending_uni is Some,
    {
        self.pending_uni.is_some()
    }

    /// Whether a peer stream of unknown type is being drained.
    pub fn is_discarding(&self) -> (r: bool)
        ensures
            r == self@.in_discard is Some,
    {
        self.in_discard.is_some()
    }

    /// Opens the control, QPACK encoder, and QPACK decoder streams and queues
    /// the SETTINGS frame that must open the control stream.
    ///
    /// `opened` is the handle of a stream that the driver opened because the
    /// last call asked for it. Returns the stream to open next, or `None` once
    /// all are open.
    pub fn poll_init(&mut self, opened: Option<u64>) -> (r: Option<Outbound>)
        requires
            old(self).wf(),
        ensures
            final(self).wf(),
            final(self)@ == match opened {
                Some(handle) => old(self)@.opened(handle),
                None => old(self)@,
            },
            r == final(self)@.unopened(),
    {
        let ghost start = self@;
        if let Some(handle) = opened {
            if self.out_control.is_none() {
                self.out_control = Some(handle);
                // RFC 9114 Section 6.2.1: the control stream's first byte is
                // its type; the SETTINGS frame that opens it comes right after.
                let ghost f = FrameValue::Settings(self.local.parameters());
                proof {
                    settings::lemma_settings_frame(self.local, Seq::empty());
                    settings::lemma_payload_bound(self.local.parameters());
                    lemma_frame_len(f);
                    frame::lemma_varint_round_trip(STREAM_TYPE_CONTROL as nat, Seq::empty());
                }
                let mut greeting_buf = BytesMut::new();
                frame::write_varint(STREAM_TYPE_CONTROL, &mut greeting_buf);
                Frame::Settings(self.local.to_frame()).encode(&mut greeting_buf);
                assert(octets::buffered(greeting_buf) =~= greeting(self.local));
                self.control_buf.extend_from_slice(octets::as_slice_mut(&greeting_buf));
                assert(self@ =~= start.opened(handle));
            } else if self.out_encoder.is_none() {
                self.out_encoder = Some(handle);
                // RFC 9204 Section 4.2: the encoder stream starts with its
                // type byte before any instruction.
                let first = Bytes::copy_from_slice(&[STREAM_TYPE_QPACK_ENCODER as u8]);
                proof {
                    codecs::lemma_contents_push(self.encoder_pending@, first);
                    assert(octets::content(first) =~= seq![STREAM_TYPE_QPACK_ENCODER as u8]);
                }
                self.encoder_pending.push_back(first);
                assert(self@ =~= start.opened(handle));
            } else if self.out_decoder.is_none() {
                self.out_decoder = Some(handle);
                // RFC 9204 Section 4.4: the decoder stream starts with its
                // type byte before any instruction.
                let first = Bytes::copy_from_slice(&[STREAM_TYPE_QPACK_DECODER as u8]);
                proof {
                    codecs::lemma_contents_push(self.decoder_pending@, first);
                    assert(octets::content(first) =~= seq![STREAM_TYPE_QPACK_DECODER as u8]);
                }
                self.decoder_pending.push_back(first);
                assert(self@ =~= start.opened(handle));
            }
        }
        if self.out_control.is_none() {
            Some(Outbound::Control)
        } else if self.out_encoder.is_none() {
            Some(Outbound::QpackEncoder)
        } else if self.out_decoder.is_none() {
            Some(Outbound::QpackDecoder)
        } else {
            None
        }
    }

    /// Writes everything queued on the outbound control and QPACK streams.
    ///
    /// `written` says that the first of the writes, which the last call asked
    /// for, is done. Octets that are asked for again are the same allocation.
    /// Returns the next write, the handle of its stream and the octets, or
    /// `None` once nothing is queued on an open stream.
    pub fn poll_flush(&mut self, written: bool) -> (r: Option<(u64, Bytes)>)
        requires
            old(self).wf(),
            written ==> old(self)@.writes().len() > 0,
        ensures
            final(self).wf(),
            final(self)@ == (if written {
                old(self)@.written()
            } else {
                old(self)@
            }).offered(),
            match r {
                Some((handle, b)) => {
                    let queue = final(self)@.writes();
                    &&& queue.len() > 0
                    &&& (handle, octets::content(b)) == queue[0]
                },
                None => final(self)@.writes().len() == 0,
            },
    {
        if written {
            self.mark_written();
        }
        if let Some(handle) = self.out_control {
            if self.control_out.is_none() && self.control_buf.len() > 0 {
                let ghost start = self@;
                let mut whole: Vec<u8> = Vec::new();
                std::mem::swap(&mut whole, &mut self.control_buf);
                self.control_out = Some(octets::from_vec(whole));
                assert(self@ =~= start.offered());
            }
            if let Some(b) = &self.control_out {
                return Some((handle, b.clone()));
            }
        }
        if let Some(handle) = self.out_encoder {
            if self.encoder_pending.len() > 0 {
                return Some((handle, self.encoder_pending[0].clone()));
            }
        }
        if let Some(handle) = self.out_decoder {
            if self.decoder_pending.len() > 0 {
                return Some((handle, self.decoder_pending[0].clone()));
            }
        }
        None
    }

    /// Drops the first write.
    fn mark_written(&mut self)
        requires
            old(self).wf(),
        ensures
            final(self).wf(),
            final(self)@ == old(self)@.written(),
    {
        let ghost start = self@;
        if self.out_control.is_some() && self.control_out.is_some() {
            self.control_out = None;
            assert(self@ =~= start.written());
        } else if self.out_control.is_some() && self.control_buf.len() > 0 {
            self.control_buf.clear();
            assert(self@ =~= start.written());
        } else if self.out_encoder.is_some() && self.encoder_pending.len() > 0 {
            let ghost queue = self.encoder_pending@;
            let _ = self.encoder_pending.pop_front();
            assert(codecs::contents(self.encoder_pending@) =~= codecs::contents(queue).skip(1));
            assert(self@ =~= start.written());
        } else if self.out_decoder.is_some() && self.decoder_pending.len() > 0 {
            let ghost queue = self.decoder_pending@;
            let _ = self.decoder_pending.pop_front();
            assert(codecs::contents(self.decoder_pending@) =~= codecs::contents(queue).skip(1));
            assert(self@ =~= start.written());
        }
    }

    /// Queues a frame that carries one varint.
    fn queue_frame(&mut self, f: Frame)
        requires
            old(self).wf(),
            frame::frame_fits(f@),
            frame::payload_octets(f@).len() <= 8,
        ensures
            final(self).wf(),
            final(self)@ == old(self)@.queued(f@),
    {
        let ghost start = self@;
        proof {
            lemma_frame_len(f@);
        }
        let mut buf = BytesMut::new();
        f.encode(&mut buf);
        assert(octets::buffered(buf) =~= frame::frame_octets(f@));
        self.control_buf.extend_from_slice(octets::as_slice_mut(&buf));
        assert(self@ =~= start.queued(f@));
    }

    /// Queues a GOAWAY frame for the control stream and remembers `id` as the
    /// last request stream this endpoint will process. Only the first GOAWAY
    /// is sent; later calls are no-ops.
    pub fn send_goaway(&mut self, id: u64)
        requires
            old(self).wf(),
            old(self)@.goaway_sent is None ==> id <= MAX_VARINT,
        ensures
            final(self).wf(),
            final(self)@ == old(self)@.leaving(id),
    {
        if self.goaway_sent.is_some() {
            return;
        }
        proof {
            frame::lemma_varint_round_trip(id as nat, Seq::empty());
        }
        self.queue_frame(Frame::Goaway(id));
        self.goaway_sent = Some(id);
    }

    /// Queues a MAX_PUSH_ID frame (client side only).
    pub fn send_max_push_id(&mut self, id: u64)
        requires
            old(self).wf(),
            id <= MAX_VARINT,
        ensures
            final(self).wf(),
            final(self)@ == old(self)@.queued(FrameValue::MaxPushId(id)),
    {
        proof {
            frame::lemma_varint_round_trip(id as nat, Seq::empty());
        }
        self.queue_frame(Frame::MaxPushId(id));
    }

    /// Queues a CANCEL_PUSH frame (client side only).
    pub fn send_cancel_push(&mut self, push_id: u64)
        requires
            old(self).wf(),
            push_id <= MAX_VARINT,
        ensures
            final(self).wf(),
            final(self)@ == old(self)@.queued(FrameValue::CancelPush(push_id)),
    {
        proof {
            frame::lemma_varint_round_trip(push_id as nat, Seq::empty());
        }
        self.queue_frame(Frame::CancelPush(push_id));
    }

    /// Queues encoder stream instructions for the QPACK encoder stream;
    /// [`ControlStreams::poll_flush`] writes them.
    pub fn queue_encoder_stream(&mut self, bytes: Bytes)
        requires
            old(self).wf(),
        ensures
            final(self).wf(),
            final(self)@ == if octets::content(bytes).len() == 0 {
                old(self)@
            } else {
                ControlState {
                    encoder_pending: old(self)@.encoder_pending.push(octets::content(bytes)),
                    ..old(self)@
                }
            },
    {
        let ghost start = self@;
        if bytes.len() > 0 {
            proof {
                codecs::lemma_contents_push(self.encoder_pending@, bytes);
            }
            self.encoder_pending.push_back(bytes);
            assert(self@ =~= (ControlState {
                encoder_pending: start.encoder_pending.push(octets::content(bytes)),
                ..start
            }));
        }
    }

    /// Moves a queue of QPACK encoder instructions to the QPACK encoder
    /// stream.
    pub fn queue_encoder_streams(&mut self, bytes: &mut VecDeque<Bytes>)
        requires
            old(self).wf(),
        ensures
            final(self).wf(),
            final(bytes)@.len() == 0,
            final(self)@ == (ControlState {
                encoder_pending: old(self)@.encoder_pending + codecs::contents(old(bytes)@),
                ..old(self)@
            }),
    {
        let ghost start = self@;
        let ghost before = self.encoder_pending@;
        let ghost added = bytes@;
        self.encoder_pending.append(bytes);
        assert(codecs::contents(before + added) =~= codecs::contents(before) + codecs::contents(
            added,
        ));
        assert(self@ =~= (ControlState {
            encoder_pending: start.encoder_pending + codecs::contents(added),
            ..start
        }));
    }

    /// Moves the QPACK encoder instructions that the request streams queued to
    /// the QPACK encoder stream.
    pub fn queue_encoder_streams_from_shared(&mut self, codecs: &mut SharedCodecs)
        requires
            old(self).wf(),
            old(codecs).wf(),
        ensures
            final(self).wf(),
            final(codecs).wf(),
            final(self)@ == (ControlState {
                encoder_pending: old(self)@.encoder_pending + old(codecs)@.encoder_stream,
                ..old(self)@
            }),
            final(codecs)@ == (CodecsState { encoder_stream: Seq::empty(), ..old(codecs)@ }),
    {
        let mut pending = codecs.take_encoder_streams();
        self.queue_encoder_streams(&mut pending);
    }

    /// Queues decoder stream instructions, if there are any.
    fn acknowledge(&mut self, acks: Bytes)
        requires
            old(self).wf(),
        ensures
            final(self).wf(),
            final(self)@ == old(self)@.acknowledging(octets::content(acks)),
    {
        let ghost start = self@;
        if acks.len() > 0 {
            proof {
                codecs::lemma_contents_push(self.decoder_pending@, acks);
            }
            self.decoder_pending.push_back(acks);
            assert(self@ =~= start.acknowledging(octets::content(acks)));
        }
    }

    /// Moves the QPACK decoder's accumulated acknowledgements (Section
    /// Acknowledgment, Insert Count Increment) to the outbound decoder stream
    /// queue.
    pub fn queue_decoder_acks(&mut self, codecs: &mut SharedCodecs)
        requires
            old(self).wf(),
            old(codecs).wf(),
        ensures
            final(self).wf(),
            final(codecs).wf(),
            final(self)@ == old(self)@.acknowledging(old(codecs)@.decoder.outgoing),
            final(codecs)@ == old(codecs)@.drained(),
    {
        let acks = codecs.take_decoder_stream();
        self.acknowledge(acks);
    }

    /// Whether `reply` answers the question that [`ControlStreams::poll_read`]
    /// asked last, and what it brings can be counted and buffered.
    pub fn accepts(&self, codecs: &SharedCodecs, reply: &ReadReply) -> (r: bool)
        requires
            self.wf(),
            codecs.wf(),
        ensures
            r == (Plane { control: self@, codecs: codecs@ }).accepts(reply@),
    {
        match reply {
            ReadReply::Start => true,
            ReadReply::Nothing | ReadReply::Failed(_) => self.turn != Turn::Rest,
            ReadReply::Accepted(_) => self.turn == Turn::Accept,
            ReadReply::End => self.turn != Turn::Rest && self.turn != Turn::Accept,
            ReadReply::Chunk(b) => match self.turn {
                Turn::Rest | Turn::Accept => false,
                Turn::Classify => {
                    let held: usize = match &self.pending_uni {
                        Some(p) => p.buf.len(),
                        None => 0,
                    };
                    b.len() <= usize::MAX - held && codecs.can_feed(held + b.len())
                },
                Turn::Control => {
                    let held: usize = match &self.in_control {
                        Some(c) => c.decoder.buffered(),
                        None => 0,
                    };
                    b.len() <= usize::MAX - held
                },
                Turn::Encoder => codecs.can_feed(b.len()),
                Turn::Decoder | Turn::Discard => true,
            },
        }
    }

    /// Accepts and services the peer's unidirectional streams and reads its
    /// control stream, yielding at most one event per poll.
    ///
    /// A poll begins with [`ReadReply::Start`]. As long as the result is
    /// [`ReadStep::Accept`] or [`ReadStep::Receive`], the driver does what it
    /// asks and hands in the outcome. Polling in a loop drains everything the
    /// peer sent; [`ReadStep::Pending`] means that all inbound inputs are idle.
    pub fn poll_read(&mut self, codecs: &mut SharedCodecs, reply: ReadReply) -> (r: Result<
        ReadStep,
        ControlError,
    >)
        requires
            old(self).wf(),
            old(codecs).wf(),
            (Plane { control: old(self)@, codecs: old(codecs)@ }).accepts(reply@),
        ensures
            final(self).wf(),
            final(codecs).wf(),
            (Plane { control: final(self)@, codecs: final(codecs)@ }, step_value(r)) == (Plane {
                control: old(self)@,
                codecs: old(codecs)@,
            }).answer(reply@),
    {
        match reply {
            ReadReply::Start => Ok(self.begin(Ghost(codecs@))),
            ReadReply::Failed(e) => match (self.turn, e) {
                (Turn::Control | Turn::Encoder | Turn::Decoder, TransportError::Reset { .. }) => {
                    self.fail(ControlError::ClosedCriticalStream)
                },
                (Turn::Discard, TransportError::Reset { .. }) => {
                    self.in_discard = None;
                    self.progressed = true;
                    Ok(self.end_round(Ghost(codecs@)))
                },
                _ => self.fail(ControlError::from(e)),
            },
            ReadReply::Nothing => self.idle(codecs),
            ReadReply::Accepted(handle) => {
                let ghost start = self@;
                self.pending_uni = Some(PendingUni { stream: handle, buf: Vec::new() });
                self.progressed = true;
                assert(self@ =~= ControlState {
                    pending_uni: Some((handle, Seq::empty())),
                    ..start
                }.found());
                Ok(self.at_classify(Ghost(codecs@)))
            },
            ReadReply::Chunk(b) => match self.turn {
                Turn::Classify => self.classify_uni(codecs, b),
                Turn::Control => self.control_chunk(codecs, b),
                Turn::Encoder => match self.encoder_chunk(codecs, as_slice(&b)) {
                    Ok(()) => {
                        self.progressed = true;
                        Ok(self.at_decoder(Ghost(codecs@)))
                    },
                    Err(e) => self.fail(e),
                },
                Turn::Decoder => match codecs.feed_decoder_stream(as_slice(&b)) {
                    Ok(()) => {
                        self.progressed = true;
                        Ok(self.at_discard(Ghost(codecs@)))
                    },
                    Err(e) => self.fail(ControlError::Qpack(e)),
                },
                // Its semantics are unknown, so every byte is discarded until
                // it ends or is reset (RFC 9114 Section 6.2).
                Turn::Discard => {
                    self.progressed = true;
                    Ok(self.end_round(Ghost(codecs@)))
                },
                Turn::Rest | Turn::Accept => Ok(self.begin(Ghost(codecs@))),
            },
            ReadReply::End => match self.turn {
                Turn::Classify => {
                    // The stream ended without a complete type: an unknown
                    // stream type (RFC 9114 Section 6.2).
                    self.pending_uni = None;
                    self.fail(ControlError::StreamCreation)
                },
                Turn::Control => match self.read_frames(codecs) {
                    // Closing the control stream (a critical stream) is always
                    // a connection error (RFC 9114 Section 6.2).
                    Ok(()) => if self.settings_received {
                        self.fail(ControlError::ClosedCriticalStream)
                    } else {
                        self.fail(ControlError::MissingSettings)
                    },
                    Err(e) => self.fail(e),
                },
                Turn::Discard => {
                    self.in_discard = None;
                    self.progressed = true;
                    Ok(self.end_round(Ghost(codecs@)))
                },
                _ => self.fail(ControlError::ClosedCriticalStream),
            },
        }
    }

    /// Ends a poll with an error.
    fn fail(&mut self, e: ControlError) -> (r: Result<ReadStep, ControlError>)
        requires
            old(self).local.fits(),
        ensures
            final(self).wf(),
            final(self)@ == old(self)@.at(Turn::Rest),
            r == Err::<ReadStep, ControlError>(e),
    {
        self.turn = Turn::Rest;
        Err(e)
    }

    /// The input that was asked about has nothing.
    fn idle(&mut self, codecs: &mut SharedCodecs) -> (r: Result<ReadStep, ControlError>)
        requires
            old(self).wf(),
            old(codecs).wf(),
        ensures
            final(self).wf(),
            final(codecs).wf(),
            (Plane { control: final(self)@, codecs: final(codecs)@ }, step_value(r)) == (Plane {
                control: old(self)@,
                codecs: old(codecs)@,
            }).idle(),
    {
        match self.turn {
            Turn::Rest => Ok(self.begin(Ghost(codecs@))),
            Turn::Accept => Ok(self.at_classify(Ghost(codecs@))),
            Turn::Classify => Ok(self.at_control(Ghost(codecs@))),
            Turn::Control => self.past_control(codecs),
            Turn::Encoder => Ok(self.at_decoder(Ghost(codecs@))),
            Turn::Decoder => Ok(self.at_discard(Ghost(codecs@))),
            Turn::Discard => Ok(self.end_round(Ghost(codecs@))),
        }
    }

    /// Begins a poll, or another round of one.
    fn begin(&mut self, Ghost(codecs): Ghost<CodecsState>) -> (r: ReadStep)
        requires
            old(self).local.fits(),
        ensures
            final(self).wf(),
            (Plane { control: final(self)@, codecs }, Ok::<StepValue, ControlError>(r@)) == (
            Plane { control: old(self)@, codecs }).begin(),
    {
        let ghost start = self@;
        let ghost queue = self.events@;
        if let Some(event) = self.events.pop_front() {
            self.turn = Turn::Rest;
            proof {
                assert(event_values(self.events@) =~= event_values(queue).skip(1));
                assert(self@ =~= ControlState {
                    events: start.events.skip(1),
                    turn: Turn::Rest,
                    ..start
                });
            }
            return ReadStep::Event(event);
        }
        self.progressed = false;
        // Accept one new peer uni stream; only when the previous one has been
        // classified (the transport delivers in order).
        match &self.pending_uni {
            Some(p) => {
                let handle: u64 = p.stream;
                self.turn = Turn::Classify;
                ReadStep::Receive(handle)
            },
            None => {
                self.turn = Turn::Accept;
                ReadStep::Accept
            },
        }
    }

    fn at_classify(&mut self, Ghost(codecs): Ghost<CodecsState>) -> (r: ReadStep)
        requires
            old(self).local.fits(),
        ensures
            final(self).wf(),
            (Plane { control: final(self)@, codecs }, Ok::<StepValue, ControlError>(r@)) == (
            Plane { control: old(self)@, codecs }).at_classify(),
    {
        match &self.pending_uni {
            Some(p) => {
                let handle: u64 = p.stream;
                self.turn = Turn::Classify;
                ReadStep::Receive(handle)
            },
            None => self.at_control(Ghost(codecs)),
        }
    }

    fn at_control(&mut self, Ghost(codecs): Ghost<CodecsState>) -> (r: ReadStep)
        requires
            old(self).local.fits(),
        ensures
            final(self).wf(),
            (Plane { control: final(self)@, codecs }, Ok::<StepValue, ControlError>(r@)) == (
            Plane { control: old(self)@, codecs }).at_control(),
    {
        match &self.in_control {
            Some(c) => {
                let handle: u64 = c.stream;
                self.turn = Turn::Control;
                ReadStep::Receive(handle)
            },
            None => self.at_encoder(Ghost(codecs)),
        }
    }

    fn at_encoder(&mut self, Ghost(codecs): Ghost<CodecsState>) -> (r: ReadStep)
        requires
            old(self).local.fits(),
        ensures
            final(self).wf(),
            (Plane { control: final(self)@, codecs }, Ok::<StepValue, ControlError>(r@)) == (
            Plane { control: old(self)@, codecs }).at_encoder(),
    {
        match self.in_encoder {
            Some(handle) => {
                self.turn = Turn::Encoder;
                ReadStep::Receive(handle)
            },
            None => self.at_decoder(Ghost(codecs)),
        }
    }

    fn at_decoder(&mut self, Ghost(codecs): Ghost<CodecsState>) -> (r: ReadStep)
        requires
            old(self).local.fits(),
        ensures
            final(self).wf(),
            (Plane { control: final(self)@, codecs }, Ok::<StepValue, ControlError>(r@)) == (
            Plane { control: old(self)@, codecs }).at_decoder(),
    {
        match self.in_decoder {
            Some(handle) => {
                self.turn = Turn::Decoder;
                ReadStep::Receive(handle)
            },
            None => self.at_discard(Ghost(codecs)),
        }
    }

    fn at_discard(&mut self, Ghost(codecs): Ghost<CodecsState>) -> (r: ReadStep)
        requires
            old(self).local.fits(),
        ensures
            final(self).wf(),
            (Plane { control: final(self)@, codecs }, Ok::<StepValue, ControlError>(r@)) == (
            Plane { control: old(self)@, codecs }).at_discard(),
    {
        match self.in_discard {
            Some(handle) => {
                self.turn = Turn::Discard;
                ReadStep::Receive(handle)
            },
            None => self.end_round(Ghost(codecs)),
        }
    }

    fn end_round(&mut self, Ghost(codecs): Ghost<CodecsState>) -> (r: ReadStep)
        requires
            old(self).local.fits(),
        ensures
            final(self).wf(),
            (Plane { control: final(self)@, codecs }, Ok::<StepValue, ControlError>(r@)) == (
            Plane { control: old(self)@, codecs }).end_round(),
    {
        if self.progressed {
            self.begin(Ghost(codecs))
        } else {
            self.turn = Turn::Rest;
            ReadStep::Pending
        }
    }

    /// Feeds a chunk of the peer's QPACK encoder stream to the decoder.
    fn encoder_chunk(&mut self, codecs: &mut SharedCodecs, chunk: &[u8]) -> (r: Result<
        (),
        ControlError,
    >)
        requires
            old(self).wf(),
            old(codecs).wf(),
            old(codecs)@.room_to_feed(chunk@.len()),
        ensures
            final(self).wf(),
            final(codecs).wf(),
            (Plane { control: final(self)@, codecs: final(codecs)@ }, r) == (Plane {
                control: old(self)@,
                codecs: old(codecs)@,
            }).encoder_chunk(chunk@),
    {
        match codecs.feed_encoder_stream(chunk) {
            Ok(acks) => {
                self.acknowledge(acks);
                Ok(())
            },
            Err(e) => Err(ControlError::Qpack(e)),
        }
    }

    /// Buffers a chunk of the peer's control stream and validates its frames.
    fn control_chunk(&mut self, codecs: &mut SharedCodecs, b: Bytes) -> (r: Result<
        ReadStep,
        ControlError,
    >)
        requires
            old(self).wf(),
            old(codecs).wf(),
            old(self)@.turn is Control,
            held(old(self)@.in_control) + octets::content(b).len() <= usize::MAX,
        ensures
            final(self).wf(),
            final(codecs).wf(),
            (Plane { control: final(self)@, codecs: final(codecs)@ }, step_value(r)) == (Plane {
                control: old(self)@,
                codecs: old(codecs)@,
            }).chunk(octets::content(b)),
    {
        let ghost start = self@;
        let taken = self.in_control.take();
        match taken {
            Some(mut control) => {
                control.decoder.extend(b);
                self.in_control = Some(control);
                self.progressed = true;
                assert(self@ =~= ControlState {
                    in_control: Some(
                        (start.in_control.unwrap().0, start.in_control.unwrap().1 + octets::content(b)),
                    ),
                    ..start
                }.found());
                self.past_control(codecs)
            },
            None => Ok(self.at_encoder(Ghost(codecs@))),
        }
    }

    fn past_control(&mut self, codecs: &mut SharedCodecs) -> (r: Result<ReadStep, ControlError>)
        requires
            old(self).wf(),
            old(codecs).wf(),
        ensures
            final(self).wf(),
            final(codecs).wf(),
            (Plane { control: final(self)@, codecs: final(codecs)@ }, step_value(r)) == (Plane {
                control: old(self)@,
                codecs: old(codecs)@,
            }).past_control(),
    {
        match self.read_frames(codecs) {
            Ok(()) => Ok(self.at_encoder(Ghost(codecs@))),
            Err(e) => self.fail(e),
        }
    }

    /// Validates every whole frame that the peer's control stream holds.
    fn read_frames(&mut self, codecs: &mut SharedCodecs) -> (r: Result<(), ControlError>)
        requires
            old(self).wf(),
            old(codecs).wf(),
        ensures
            final(self).wf(),
            final(codecs).wf(),
            (Plane { control: final(self)@, codecs: final(codecs)@ }, r) == (Plane {
                control: old(self)@,
                codecs: old(codecs)@,
            }).frames(),
    {
        let ghost begun = Plane { control: self@, codecs: codecs@ };
        loop
            invariant
                self.wf(),
                codecs.wf(),
                begun == (Plane { control: old(self)@, codecs: old(codecs)@ }),
                begun.frames() == (Plane { control: self@, codecs: codecs@ }).frames(),
            decreases held(self@.in_control),
        {
            let ghost here = Plane { control: self@, codecs: codecs@ };
            let taken = self.in_control.take();
            // The peer may open and send on its QPACK streams before its
            // control stream exists.
            let mut control = match taken {
                Some(control) => control,
                None => {
                    assert(self@ =~= here.control);
                    return Ok(());
                },
            };
            let ghost buf = control.decoder@;
            let next = control.decoder.next_frame();
            self.in_control = Some(control);
            let ghost read = ControlState {
                in_control: Some((control.stream, frame::next_frame(buf).1)),
                ..here.control
            };
            assert(self@ =~= read);
            match next {
                Err(e) => {
                    return Err(map_frame_error(e));
                },
                Ok(None) => {
                    return Ok(());
                },
                Ok(Some(f)) => {
                    self.progressed = true;
                    proof {
                        frame::lemma_next_frame_consumes(buf);
                    }
                    assert(self@ =~= read.found());
                    match self.handle_control_frame(codecs, f) {
                        Ok(()) => {},
                        Err(e) => {
                            return Err(e);
                        },
                    }
                },
            }
        }
    }

    /// Validates one frame read from the peer's control stream.
    fn handle_control_frame(&mut self, codecs: &mut SharedCodecs, f: Frame) -> (r: Result<
        (),
        ControlError,
    >)
        requires
            old(self).wf(),
            old(codecs).wf(),
        ensures
            final(self).wf(),
            final(codecs).wf(),
            final(self)@.in_control == old(self)@.in_control,
            (Plane { control: final(self)@, codecs: final(codecs)@ }, r) == (Plane {
                control: old(self)@,
                codecs: old(codecs)@,
            }).control_frame(f@),
    {
        // RFC 9114 Section 6.2.1: the first frame must be SETTINGS; any other
        // first frame is H3_MISSING_SETTINGS.
        if !self.settings_received && !matches!(f, Frame::Settings(_)) {
            return Err(ControlError::MissingSettings);
        }
        let ghost start = self@;
        match f {
            Frame::Settings(settings) => {
                if self.settings_received {
                    // RFC 9114 Section 7.2.4: a second SETTINGS frame is
                    // H3_FRAME_UNEXPECTED.
                    return Err(ControlError::FrameUnexpected);
                }
                self.settings_received = true;
                self.peer.apply(&settings);
                codecs.settle(&self.peer);
                self.note(ControlEvent::Settings(self.peer));
                Ok(())
            },
            Frame::Goaway(id) => {
                self.note(ControlEvent::Goaway { id });
                Ok(())
            },
            Frame::MaxPushId(id) => {
                // RFC 9114 Section 7.2.7: the maximum push ID must not be
                // reduced.
                if let Some(prev) = self.max_push_id {
                    if id < prev {
                        return Err(ControlError::Id);
                    }
                }
                self.max_push_id = Some(id);
                self.note(ControlEvent::MaxPushId { id });
                Ok(())
            },
            // RFC 9114 Section 7.2.3: a server that never sends PUSH_PROMISE
            // treats any CANCEL_PUSH as referencing a push ID it never
            // mentioned, i.e. H3_ID_ERROR.
            Frame::CancelPush(_) => Err(ControlError::Id),
            // RFC 9114 Sections 7.2.1, 7.2.2 and 7.2.5: not permitted on the
            // control stream.
            Frame::Data(_) | Frame::Headers(_) | Frame::PushPromise { .. } => Err(
                ControlError::FrameUnexpected,
            ),
        }
    }

    /// Queues an event.
    fn note(&mut self, e: ControlEvent)
        requires
            old(self).wf(),
        ensures
            final(self).wf(),
            final(self)@ == old(self)@.noting(e@),
    {
        let ghost start = self@;
        let ghost queue = self.events@;
        self.events.push_back(e);
        assert(event_values(queue.push(e)) =~= event_values(queue).push(e@));
        assert(self@ =~= start.noting(e@));
    }

    /// Reads the type varint of the stream under classification and wires it
    /// to its handler. The stream stays pending while the varint is
    /// incomplete.
    fn classify_uni(&mut self, codecs: &mut SharedCodecs, b: Bytes) -> (r: Result<
        ReadStep,
        ControlError,
    >)
        requires
            old(self).wf(),
            old(codecs).wf(),
            old(self)@.turn is Classify,
            old(codecs)@.room_to_feed(held(old(self)@.pending_uni) + octets::content(b).len()),
        ensures
            final(self).wf(),
            final(codecs).wf(),
            (Plane { control: final(self)@, codecs: final(codecs)@ }, step_value(r)) == (Plane {
                control: old(self)@,
                codecs: old(codecs)@,
            }).chunk(octets::content(b)),
    {
        let ghost start = self@;
        let taken = self.pending_uni.take();
        let mut pending = match taken {
            Some(pending) => pending,
            None => {
                return Ok(self.at_control(Ghost(codecs@)));
            },
        };
        let handle: u64 = pending.stream;
        pending.buf.extend_from_slice(as_slice(&b));
        let ghost data = start.pending_uni.unwrap().1 + octets::content(b);
        assert(pending.buf@ =~= data);
        match frame::parse_varint(pending.buf.as_slice()) {
            Err(e) => {
                self.pending_uni = Some(pending);
                assert(self@ =~= ControlState { pending_uni: Some((handle, data)), ..start });
                self.fail(map_frame_error(e))
            },
            Ok(None) => {
                self.pending_uni = Some(pending);
                assert(self@ =~= ControlState { pending_uni: Some((handle, data)), ..start });
                Ok(ReadStep::Receive(handle))
            },
            Ok(Some((ty, used))) => {
                let left = slice_subrange(pending.buf.as_slice(), used, pending.buf.len());
                assert(left@ =~= data.skip(used as int));
                self.turn = Turn::Rest;
                let ghost here = Plane { control: self@, codecs: codecs@ };
                assert(here.control =~= ControlState { pending_uni: None, ..start }.at(Turn::Rest));
                match self.assign(codecs, handle, ty, left) {
                    Ok(()) => {
                        self.progressed = true;
                        let r = self.at_control(Ghost(codecs@));
                        Ok(r)
                    },
                    Err(e) => self.fail(e),
                }
            },
        }
    }

    /// Wires the stream `handle` of type `ty` to its handler, which gets what
    /// arrived behind the type.
    fn assign(&mut self, codecs: &mut SharedCodecs, handle: u64, ty: u64, left: &[u8]) -> (r:
        Result<(), ControlError>)
        requires
            old(self).wf(),
            old(codecs).wf(),
            old(codecs)@.room_to_feed(left@.len()),
        ensures
            final(self).wf(),
            final(codecs).wf(),
            (Plane { control: final(self)@, codecs: final(codecs)@ }, r) == (Plane {
                control: old(self)@,
                codecs: old(codecs)@,
            }).classified(handle, ty as nat, left@),
    {
        let ghost start = self@;
        if ty == STREAM_TYPE_CONTROL {
            if self.in_control.is_some() {
                return Err(ControlError::StreamCreation);
            }
            let mut decoder = FrameDecoder::new();
            if left.len() > 0 {
                decoder.extend(Bytes::copy_from_slice(left));
            }
            self.in_control = Some(PeerControl { stream: handle, decoder });
            assert(decoder@ =~= left@);
            assert(self@ =~= ControlState { in_control: Some((handle, left@)), ..start });
            Ok(())
        } else if ty == STREAM_TYPE_PUSH {
            Err(ControlError::StreamCreation)
        } else if ty == STREAM_TYPE_QPACK_ENCODER {
            if self.in_encoder.is_some() {
                return Err(ControlError::StreamCreation);
            }
            if left.len() > 0 {
                match self.encoder_chunk(codecs, left) {
                    Ok(()) => {},
                    Err(e) => {
                        return Err(e);
                    },
                }
            }
            self.in_encoder = Some(handle);
            Ok(())
        } else if ty == STREAM_TYPE_QPACK_DECODER {
            if self.in_decoder.is_some() {
                return Err(ControlError::StreamCreation);
            }
            if left.len() > 0 {
                match codecs.feed_decoder_stream(left) {
                    Ok(()) => {},
                    Err(e) => {
                        return Err(ControlError::Qpack(e));
                    },
                }
            }
            self.in_decoder = Some(handle);
            Ok(())
        } else {
            // Unknown or reserved (grease) stream type: its data has no
            // meaning to us, so it is discarded as it arrives (RFC 9114
            // Section 6.2). This is never a connection error.
            self.in_discard = Some(handle);
            Ok(())
        }
    }
}


/// Opening the three streams queues, in this order, the greeting on the control
/// stream and the type of each QPACK stream on that stream, and nothing is left
/// to open.
pub proof fn lemma_init(local: LocalSettings, control: u64, encoder: u64, decoder: u64)
    ensures
        ({
            let first = ControlState::initial(local);
            let second = first.opened(control);
            let third = second.opened(encoder);
            let last = third.opened(decoder);
            &&& first.unopened() == Some(Outbound::Control)
            &&& second.unopened() == Some(Outbound::QpackEncoder)
            &&& third.unopened() == Some(Outbound::QpackDecoder)
            &&& last.unopened() is None
            &&& last.opened(control) == last
            &&& last.writes() == seq![
                (control, greeting(local)),
                (encoder, seq![0x2u8]),
                (decoder, seq![0x3u8]),
            ]
        }),
{
    let last = ControlState::initial(local).opened(control).opened(encoder).opened(decoder);
    frame::lemma_varint_round_trip(0, Seq::empty());
    assert(last.control_buf =~= greeting(local));
    assert(last.encoder_pending =~= seq![seq![0x2u8]]);
    assert(last.decoder_pending =~= seq![seq![0x3u8]]);
    assert(last.writes() =~= seq![
        (control, greeting(local)),
        (encoder, seq![0x2u8]),
        (decoder, seq![0x3u8]),
    ]);
}

/// Each write is asked for once and in order: finishing one takes it, and
/// nothing else, off the writes. Offering one changes no write, and what is
/// queued on the control stream while it is written there leaves it as it is.
pub proof fn lemma_flush(c: ControlState, f: FrameValue)
    ensures
        c.writes().len() > 0 ==> c.written().writes() == c.writes().skip(1),
        c.writes().len() == 0 ==> c.written() == c,
        c.offered().writes() == c.writes(),
        c.out_control is Some && c.offered().control_out is Some ==> c.offered().queued(
            f,
        ).writes()[0] == c.writes()[0],
{
    assert(c.offered().writes() =~= c.writes());
    if c.writes().len() > 0 {
        assert(c.written().writes() =~= c.writes().skip(1));
    } else {
        assert(c.written() =~= c);
    }
}

/// Only the first GOAWAY is sent.
pub proof fn lemma_goaway_once(c: ControlState, first: u64, later: u64)
    ensures
        c.leaving(first).leaving(later) == c.leaving(first),
        c.goaway_sent is None ==> c.leaving(first).goaway_sent == Some(first),
{
}

/// What an endpoint's control stream starts with is, at its peer, a control
/// stream whose first frame tells the peer the endpoint's settings.
pub proof fn lemma_settings_exchange(p: Plane, handle: u64, local: LocalSettings)
    requires
        local.fits(),
        p.control.turn is Classify,
        p.control.pending_uni == Some((handle, Seq::<u8>::empty())),
        p.control.in_control is None,
        !p.control.settings_received,
        p.control.peer == PeerValues::initial(),
    ensures
        ({
            let (q, asked) = p.chunk(greeting(local));
            let (z, r) = q.frames();
            &&& asked == Ok::<StepValue, ControlError>(StepValue::Receive(handle))
            &&& r == Ok::<(), ControlError>(())
            &&& z.control.in_control == Some((handle, Seq::<u8>::empty()))
            &&& z.control.settings_received
            &&& z.control.peer == settings::announced(local)
            &&& z.control.events == p.control.events.push(
                EventValue::Settings(settings::announced(local)),
            )
            &&& z.codecs == p.codecs.settled(settings::announced(local))
        }),
{
    let f = FrameValue::Settings(local.parameters());
    let kept = FrameValue::Settings(frame::kept_settings(local.parameters()));
    let o = frame::frame_octets(f);
    let ty = frame::varint_octets(STREAM_TYPE_CONTROL as nat);
    let data = Seq::<u8>::empty() + greeting(local);
    frame::lemma_varint_round_trip(STREAM_TYPE_CONTROL as nat, o);
    assert(data =~= ty + o);
    assert(data.skip(ty.len() as int) =~= o);
    settings::lemma_settings_frame(local, Seq::empty());
    settings::lemma_settings_round_trip(local);
    assert(o + Seq::<u8>::empty() =~= o);
    let (q, asked) = p.chunk(greeting(local));
    assert(q.control.in_control == Some((handle, o)));
    let read = Plane {
        control: ControlState {
            in_control: Some((handle, Seq::<u8>::empty())),
            ..q.control
        }.found(),
        ..q
    };
    let after = read.control_frame(kept).0;
    frame::lemma_next_frame_consumes(o);
    frame::lemma_next_frame_empty();
    assert(after.frames() == (after, Ok::<(), ControlError>(()))) by {
        assert(after.control.in_control == Some((handle, Seq::<u8>::empty())));
    }
    assert(q.frames() == after.frames());
}

/// What a frame on the control stream may be: SETTINGS first and only first,
/// no request or push frame, no cancellation of a push that was never promised,
/// and no reduced push limit.
pub proof fn lemma_control_frame_rules(p: Plane, f: FrameValue)
    ensures
        ({
            let (q, r) = p.control_frame(f);
            let c = p.control;
            &&& r is Err ==> q == p
            &&& r == Err::<(), ControlError>(ControlError::MissingSettings) <==> (
            !c.settings_received && !(f is Settings))
            &&& r == Err::<(), ControlError>(ControlError::FrameUnexpected) <==> (
            c.settings_received && (f is Settings || f is Data || f is Headers
                || f is PushPromise))
            &&& r == Err::<(), ControlError>(ControlError::Id) <==> (c.settings_received && (
            f is CancelPush || (f matches FrameValue::MaxPushId(id) && (
            c.max_push_id matches Some(prev) && id < prev))))
            &&& r is Ok ==> q.control.settings_received
        }),
{
}

/// A stream of an unknown or reserved type is never an error: it is only
/// drained.
pub proof fn lemma_unknown_stream_is_discarded(p: Plane, handle: u64, ty: nat, left: Seq<u8>)
    requires
        ty > STREAM_TYPE_QPACK_DECODER,
    ensures
        p.classified(handle, ty, left) == (
            Plane { control: ControlState { in_discard: Some(handle), ..p.control }, ..p },
            Ok::<(), ControlError>(()),
        ),
{
}

/// A push stream, and a second control or QPACK stream, is refused.
pub proof fn lemma_second_stream_is_refused(p: Plane, handle: u64, ty: nat, left: Seq<u8>)
    requires
        ty == STREAM_TYPE_PUSH || (ty == STREAM_TYPE_CONTROL && p.control.in_control is Some) || (ty
            == STREAM_TYPE_QPACK_ENCODER && p.control.in_encoder is Some) || (ty
            == STREAM_TYPE_QPACK_DECODER && p.control.in_decoder is Some),
    ensures
        p.classified(handle, ty, left) == (
            p,
            Err::<(), ControlError>(ControlError::StreamCreation),
        ),
{
}

/// The end of a critical stream ends the connection, with
/// `H3_MISSING_SETTINGS` where it is a control stream that never carried
/// SETTINGS. What such a control stream carried is everything that arrived on
/// it: frames that were not looked at yet are looked at first, and one that is
/// an error is that error. The reset of a critical stream ends the connection
/// too.
pub proof fn lemma_critical_streams_stay_open(p: Plane, code: u64)
    requires
        p.control.turn is Control || p.control.turn is Encoder || p.control.turn is Decoder,
    ensures
        p.ended().1 == Err::<StepValue, ControlError>(
            if p.control.turn is Control && p.frames().1 is Err {
                p.frames().1->Err_0
            } else if p.control.turn is Control && !p.frames().0.control.settings_received {
                ControlError::MissingSettings
            } else {
                ControlError::ClosedCriticalStream
            },
        ),
        p.answer(ReplyValue::Failed(TransportError::Reset { code })).1 == Err::<
            StepValue,
            ControlError,
        >(ControlError::ClosedCriticalStream),
{
}

/// A stream of an unknown or reserved type goes on being no error: whatever
/// arrives on it, and whether it ends or is reset, the poll goes on, and the
/// codecs and the other streams are as they were.
pub proof fn lemma_discarding_is_no_error(p: Plane, reply: ReplyValue)
    requires
        p.control.turn is Discard,
        p.accepts(reply),
        reply matches ReplyValue::Failed(e) ==> e is Reset,
    ensures
        ({
            let (q, r) = p.answer(reply);
            &&& r is Ok
            &&& q.codecs == p.codecs
            &&& q.control.in_control == p.control.in_control
            &&& q.control.in_encoder == p.control.in_encoder
            &&& q.control.in_decoder == p.control.in_decoder
            &&& reply is End || reply is Failed ==> q.control.in_discard is None
        }),
{
}

/// Whether the push limit of `c` is at least that of `before`, and the peer's
/// settings are as they were once known.
pub open spec fn carries_on(before: ControlState, c: ControlState) -> bool {
    &&& before.settings_received ==> c.settings_received && c.peer == before.peer
    &&& before.max_push_id matches Some(id) ==> (c.max_push_id matches Some(next) && id <= next)
    &&& before.goaway_sent == c.goaway_sent
}

proof fn lemma_frames_carry_on(p: Plane)
    ensures
        carries_on(p.control, p.frames().0.control),
    decreases held(p.control.in_control),
{
    if let Some((handle, buf)) = p.control.in_control {
        let (next, rest) = frame::next_frame(buf);
        if let Ok(Some(f)) = next {
            let seen = Plane {
                control: ControlState { in_control: Some((handle, rest)), ..p.control }.found(),
                ..p
            };
            let (q, r) = seen.control_frame(f);
            frame::lemma_next_frame_consumes(buf);
            if r is Ok {
                lemma_frames_carry_on(q);
            }
        }
    }
}

/// Going on to the next question changes none of it.
proof fn lemma_questions_carry_on(p: Plane)
    ensures
        carries_on(p.control, p.begin().0.control),
        carries_on(p.control, p.end_round().0.control),
        carries_on(p.control, p.at_discard().0.control),
        carries_on(p.control, p.at_decoder().0.control),
        carries_on(p.control, p.at_encoder().0.control),
        carries_on(p.control, p.at_control().0.control),
        carries_on(p.control, p.at_classify().0.control),
{
    assert(carries_on(p.control, p.begin().0.control));
    assert(carries_on(p.control, p.end_round().0.control));
    assert(carries_on(p.control, p.at_discard().0.control));
    assert(carries_on(p.control, p.at_decoder().0.control));
    assert(carries_on(p.control, p.at_encoder().0.control));
    assert(carries_on(p.control, p.at_control().0.control));
}

proof fn lemma_past_control_carries_on(p: Plane)
    ensures
        carries_on(p.control, p.past_control().0.control),
{
    lemma_frames_carry_on(p);
    lemma_questions_carry_on(p.frames().0);
}

proof fn lemma_chunk_carries_on(p: Plane, b: Seq<u8>)
    ensures
        carries_on(p.control, p.chunk(b).0.control),
{
    let c = p.control;
    match c.turn {
        Turn::Classify => {
            lemma_questions_carry_on(p);
            if let Some((handle, buf)) = c.pending_uni {
                if let Varint::Value { value: ty, len } = frame::read_varint(buf + b) {
                    let q = Plane { control: ControlState { pending_uni: None, ..c }, ..p };
                    let (r, _) = q.classified(handle, ty, (buf + b).skip(len as int));
                    assert(carries_on(c, r.control));
                    lemma_questions_carry_on(Plane { control: r.control.found(), ..r });
                }
            }
        },
        Turn::Control => {
            lemma_questions_carry_on(p);
            if let Some((handle, buf)) = c.in_control {
                lemma_past_control_carries_on(
                    Plane {
                        control: ControlState { in_control: Some((handle, buf + b)), ..c }.found(),
                        ..p
                    },
                );
            }
        },
        Turn::Encoder => {
            let (q, _) = p.encoder_chunk(b);
            lemma_questions_carry_on(Plane { control: q.control.found(), ..q });
        },
        Turn::Decoder => {
            let (codecs, _) = p.codecs.feed_decoder(b);
            lemma_questions_carry_on(Plane { control: c.found(), codecs });
        },
        Turn::Discard => {
            lemma_questions_carry_on(Plane { control: c.found(), ..p });
        },
        _ => {
            lemma_questions_carry_on(p);
        },
    }
}

/// Whatever is read, the peer's settings do not change once they arrived, and
/// the peer's push limit never falls.
pub proof fn lemma_reading_carries_on(p: Plane, reply: ReplyValue)
    ensures
        carries_on(p.control, p.answer(reply).0.control),
{
    let c = p.control;
    match reply {
        ReplyValue::Chunk(b) => {
            lemma_chunk_carries_on(p, b);
        },
        ReplyValue::Accepted(handle) => {
            lemma_questions_carry_on(
                Plane {
                    control: ControlState { pending_uni: Some((handle, Seq::empty())), ..c }.found(),
                    ..p
                },
            );
        },
        ReplyValue::End | ReplyValue::Failed(_) => {
            lemma_frames_carry_on(p);
            lemma_questions_carry_on(
                Plane { control: ControlState { in_discard: None, ..c }.found(), ..p },
            );
        },
        _ => {
            lemma_questions_carry_on(p);
            lemma_past_control_carries_on(p);
        },
    }
}

/// What a poll asks and is told stands for itself.
pub proof fn lemma_steps_stand_for_themselves(
    handle: u64,
    data: Bytes,
    peer: PeerSettings,
    e: TransportError,
)
    ensures
        ReadStep::Accept@ == StepValue::Accept,
        ReadStep::Receive(handle)@ == StepValue::Receive(handle),
        ReadStep::Pending@ == StepValue::Pending,
        ReadStep::Event(ControlEvent::Goaway { id: handle })@ == StepValue::Event(
            EventValue::Goaway { id: handle },
        ),
        ReadStep::Event(ControlEvent::MaxPushId { id: handle })@ == StepValue::Event(
            EventValue::MaxPushId { id: handle },
        ),
        ReadStep::Event(ControlEvent::CancelPush { push_id: handle })@ == StepValue::Event(
            EventValue::CancelPush { push_id: handle },
        ),
        ReadStep::Event(ControlEvent::Settings(peer))@ == StepValue::Event(
            EventValue::Settings(peer@),
        ),
        ReadReply::Start@ == ReplyValue::Start,
        ReadReply::Nothing@ == ReplyValue::Nothing,
        ReadReply::Accepted(handle)@ == ReplyValue::Accepted(handle),
        ReadReply::Chunk(data)@ == ReplyValue::Chunk(octets::content(data)),
        ReadReply::End@ == ReplyValue::End,
        ReadReply::Failed(e)@ == ReplyValue::Failed(e),
{
}

} // verus!
