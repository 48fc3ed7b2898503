//! HTTP/3 request stream handling (RFC 9114 Sections 4.1, 4.2 and 6.1).
//!
//! A request stream is a bidirectional QUIC stream that carries a single HTTP
//! message exchange: the client's request HEADERS, body DATA and trailers, then
//! the server's response HEADERS, DATA and trailers. [`RequestStream`] is the
//! state machine of such a stream: it holds no transport stream but asks its
//! driver for data and hands it what to write. It owns the frame decoder,
//! decodes and encodes field sections with the connection's shared QPACK codecs,
//! and abides by the RFC 9114 frame ordering rules:
//!
//! - the first frame must be HEADERS (anything else is `H3_FRAME_UNEXPECTED`);
//!   the field section must form a valid request with exactly the RFC 9114
//!   Section 4.1 pseudo-headers, appearing before any regular field
//!   (`H3_MESSAGE_ERROR` otherwise);
//! - DATA frames follow; then at most one trailing HEADERS frame, after which
//!   only unknown frames may still appear (`H3_FRAME_UNEXPECTED` otherwise);
//! - control-plane frames (SETTINGS, GOAWAY, MAX_PUSH_ID, PUSH_PROMISE,
//!   CANCEL_PUSH) are `H3_FRAME_UNEXPECTED` on a request stream.
//!
//! The response side encodes the response field section with the shared encoder
//! (queuing its encoder-stream instructions for the control plane) and respects
//! the peer's `SETTINGS_MAX_FIELD_SECTION_SIZE`.

use super::codecs;
use super::codecs::{CodecsState, SharedCodecs};
use super::frame;
use super::frame::{
    Frame, FrameDecoder, FrameError, FrameValue, FRAME_CANCEL_PUSH, FRAME_DATA, FRAME_GOAWAY,
    FRAME_HEADERS, FRAME_MAX_PUSH_ID, FRAME_PUSH_PROMISE, FRAME_SETTINGS, MAX_VARINT,
};
use super::message;
use super::message::{build_request, header_map, RequestHead, RequestValue};
use super::qpack::decoder;
use super::qpack::decoder::DecoderState;
use super::qpack::{laws, QpackError};
use crate::octets;
use crate::octets::{as_slice, Field};
use bytes::{Bytes, BytesMut};
use std::collections::VecDeque;
use vstd::prelude::*;

pub use super::message::StreamError;

verus! {

/// The largest combined size for which a frame's header and payload are
/// coalesced into a single contiguous buffer. Coalescing turns two writes into
/// one at the cost of copying the payload; beyond this size the copy is not
/// worth it and the payload is written on its own.
pub const WRITE_INLINE_LIMIT: usize = 16384;

/// The stream failure that a malformed frame is. A malformed frame payload
/// anywhere is H3_FRAME_ERROR; any control-plane frame on a request stream is
/// H3_FRAME_UNEXPECTED (RFC 9114 Sections 7.2.3-7.2.7).
pub open spec fn frame_failure(err: FrameError) -> StreamError {
    match err {
        FrameError::Frame => StreamError::Frame,
        FrameError::Unexpected(_) | FrameError::Settings => StreamError::FrameUnexpected,
    }
}

fn map_frame_error(err: FrameError) -> (r: StreamError)
    ensures
        r == frame_failure(err),
{
    match err {
        FrameError::Frame => StreamError::Frame,
        FrameError::Unexpected(_) | FrameError::Settings => StreamError::FrameUnexpected,
    }
}

/// The frame types of the control plane, which a request stream never carries.
pub open spec fn control_plane_type(ty: nat) -> bool {
    ||| ty == FRAME_CANCEL_PUSH
    ||| ty == FRAME_SETTINGS
    ||| ty == FRAME_PUSH_PROMISE
    ||| ty == FRAME_GOAWAY
    ||| ty == FRAME_MAX_PUSH_ID
}

/// What the transport had when the driver received from the stream.
#[derive(Debug, Clone)]
pub enum Received {
    /// The driver has not asked it yet.
    Nothing,
    /// A chunk of data.
    Chunk(Bytes),
    /// The end of the stream.
    End,
}

impl Received {
    /// The data that arrived.
    pub open spec fn data(self) -> Seq<u8> {
        match self {
            Received::Chunk(b) => octets::content(b),
            _ => Seq::empty(),
        }
    }
}

/// How far a poll got.
#[derive(Debug, Clone, PartialEq, Eq)]
pub enum Polled<T> {
    /// It is done.
    Ready(T),
    /// It needs what the transport has next.
    Receive,
    /// It waits for a field section of this stream to be unblocked.
    Parked,
    /// It waits for an earlier part of the message, which is polled for on its
    /// own.
    Pending,
}

/// The next thing that a poll to send asks of the driver.
#[derive(Debug, Clone, PartialEq, Eq)]
pub enum SendStep {
    /// Write this.
    Write(Bytes),
    /// Everything queued is written.
    Done,
}

/// A [`SendStep`] as a value.
pub enum SendValue {
    Write(Seq<u8>),
    Done,
}

impl View for SendStep {
    type V = SendValue;

    open spec fn view(&self) -> SendValue {
        match *self {
            SendStep::Write(b) => SendValue::Write(octets::content(b)),
            SendStep::Done => SendValue::Done,
        }
    }
}

/// The write in progress, so that a poll after a stalled write drains what is
/// queued instead of encoding again, which would duplicate it.
#[derive(Debug, Clone, Copy, PartialEq, Eq, Structural)]
pub enum PendingSend {
    Idle,
    ResponseHeaders(u16),
    Data,
    Trailers,
}

/// What reading for a frame found.
pub enum FramePoll {
    /// A frame.
    Frame(FrameValue),
    /// The end of the stream.
    End,
    /// The buffer ends before the frame does.
    More,
}

/// An informational status (1xx), which may precede the final response.
pub open spec fn informational(status: u16) -> bool {
    100 <= status < 200
}

/// The three digits of a status.
pub open spec fn status_octets(status: u16) -> Seq<u8> {
    seq![
        (0x30 + status / 100) as u8,
        (0x30 + status / 10 % 10) as u8,
        (0x30 + status % 10) as u8,
    ]
}

/// The field lines of a response.
pub open spec fn response_fields(status: u16, headers: Seq<Field>) -> Seq<Field> {
    seq![(message::spelled(":status"), status_octets(status))] + headers
}

/// Whether a list of field lines has no pseudo-headers.
pub open spec fn all_regular(list: Seq<Field>) -> bool {
    forall|i: int| 0 <= i < list.len() ==> !message::is_pseudo(#[trigger] list[i])
}

/// The size above which an encoded field section is not sent: the peer's limit,
/// and what a frame can carry.
pub open spec fn section_limit(peer: Option<u64>) -> u64 {
    match peer {
        Some(limit) if limit < MAX_VARINT => limit,
        _ => MAX_VARINT,
    }
}

/// What a request stream holds.
#[verifier::ext_equal]
pub struct StreamState {
    pub stream_id: u64,
    /// What arrived and is not a whole frame yet.
    pub buf: Seq<u8>,
    pub awaiting_headers: bool,
    pub headers_blocked: bool,
    /// A trailer section that arrived while the body was read.
    pub trailers_lines: Option<Seq<Field>>,
    pub trailers_blocked: bool,
    pub trailers_done: bool,
    pub recv_finished: bool,
    pub sent_headers: bool,
    pub sent_trailers: bool,
    pub pending_send: PendingSend,
    /// What is to be written, in order.
    pub send_buf: Seq<Seq<u8>>,
}

/// A request stream and the codecs it shares with its connection.
#[verifier::ext_equal]
pub struct Exchange {
    pub stream: StreamState,
    pub codecs: CodecsState,
}

impl StreamState {
    /// A stream on which nothing was received or sent.
    pub open spec fn initial(stream_id: u64) -> StreamState {
        StreamState {
            stream_id,
            buf: Seq::empty(),
            awaiting_headers: true,
            headers_blocked: false,
            trailers_lines: None,
            trailers_blocked: false,
            trailers_done: false,
            recv_finished: false,
            sent_headers: false,
            sent_trailers: false,
            pending_send: PendingSend::Idle,
            send_buf: Seq::empty(),
        }
    }

    /// The stream with received data in its buffer.
    pub open spec fn fed(self, data: Seq<u8>) -> StreamState {
        StreamState { buf: self.buf + data, ..self }
    }

    /// The next frame in the buffer, where `ended` says whether the stream ends
    /// behind it. A stream that ends mid-frame is `H3_FRAME_ERROR`.
    pub open spec fn next(self, ended: bool) -> (StreamState, Result<FramePoll, StreamError>) {
        if frame::peek_type(self.buf) matches Some(ty) && control_plane_type(ty) {
            // Even when malformed: the type decides.
            (self, Err(StreamError::FrameUnexpected))
        } else {
            let (r, rest) = frame::next_frame(self.buf);
            let read = StreamState { buf: rest, ..self };
            match r {
                Ok(Some(f)) => (read, Ok(FramePoll::Frame(f))),
                Ok(None) => if !ended {
                    (read, Ok(FramePoll::More))
                } else if rest.len() > 0 {
                    (read, Err(StreamError::Frame))
                } else {
                    (StreamState { recv_finished: true, ..read }, Ok(FramePoll::End))
                },
                Err(e) => (read, Err(frame_failure(e))),
            }
        }
    }

    /// The stream with two adjacent octet strings queued, as one write where
    /// they are small.
    pub open spec fn queued(self, first: Seq<u8>, second: Seq<u8>) -> StreamState {
        StreamState {
            send_buf: if second.len() == 0 {
                self.send_buf.push(first)
            } else if first.len() + second.len() <= WRITE_INLINE_LIMIT {
                self.send_buf.push(first + second)
            } else {
                self.send_buf.push(first).push(second)
            },
            ..self
        }
    }

    /// The stream once the first write is done, where `written` says so.
    pub open spec fn after_write(self, written: bool) -> StreamState {
        if written {
            StreamState { send_buf: self.send_buf.skip(1), ..self }
        } else {
            self
        }
    }

    /// The stream once the write in progress is complete.
    pub open spec fn completed(self) -> StreamState {
        StreamState {
            sent_headers: self.sent_headers || (self.pending_send matches PendingSend::ResponseHeaders(
                status,
            ) && !informational(status)),
            sent_trailers: self.sent_trailers || self.pending_send is Trailers,
            pending_send: PendingSend::Idle,
            ..self
        }
    }

    /// The next write, or the end of the write in progress.
    pub open spec fn drained(self) -> (StreamState, SendValue) {
        if self.send_buf.len() > 0 {
            (self, SendValue::Write(self.send_buf[0]))
        } else {
            (self.completed(), SendValue::Done)
        }
    }

    /// A poll to send a DATA frame. None may follow the trailers.
    pub open spec fn send_data(self, data: Seq<u8>) -> (
        StreamState,
        Result<SendValue, StreamError>,
    ) {
        if self.pending_send is Data || (self.pending_send is Idle && !self.sent_trailers) {
            let s = if self.pending_send is Data {
                self
            } else {
                StreamState { pending_send: PendingSend::Data, ..self }.queued(
                    frame_header(FRAME_DATA, data.len()),
                    data,
                )
            };
            let (next, step) = s.drained();
            (next, Ok(step))
        } else {
            (self, Err(StreamError::Message))
        }
    }
}

impl Exchange {
    /// The receive side is complete: no further field sections can arrive, so
    /// the decoder's budget for the stream is released.
    pub open spec fn finish_recv(self) -> Exchange {
        Exchange {
            stream: StreamState { recv_finished: true, ..self.stream },
            codecs: self.codecs.finished(self.stream.stream_id),
        }
    }

    /// A poll for the request.
    pub open spec fn headers(self, ended: bool, now: u64) -> (
        Exchange,
        Result<Polled<Option<RequestValue>>, StreamError>,
    ) {
        let s = self.stream;
        if s.headers_blocked {
            match self.codecs.take_unblocked_for(s.stream_id) {
                (codecs, Some(list)) => (
                    Exchange {
                        stream: StreamState {
                            headers_blocked: false,
                            awaiting_headers: false,
                            ..s
                        },
                        codecs,
                    },
                    match message::request_of(list) {
                        Some(request) => Ok(Polled::Ready(Some(request))),
                        None => Err(StreamError::Message),
                    },
                ),
                (codecs, None) => (Exchange { codecs, ..self }, Ok(Polled::Parked)),
            }
        } else if !s.awaiting_headers {
            (self, Ok(Polled::Ready(None)))
        } else {
            let (next, r) = s.next(ended);
            let read = Exchange { stream: next, ..self };
            match r {
                Err(e) => (read, Err(e)),
                Ok(FramePoll::More) => (read, Ok(Polled::Receive)),
                Ok(FramePoll::End) => (
                    Exchange {
                        stream: StreamState { awaiting_headers: false, ..next },
                        ..self
                    }.finish_recv(),
                    Ok(Polled::Ready(None)),
                ),
                Ok(FramePoll::Frame(FrameValue::Headers(block))) => {
                    let (codecs, decoded) = self.codecs.decode(block, s.stream_id, now);
                    match decoded {
                        Err(e) => (Exchange { codecs, ..read }, Err(StreamError::Qpack(e))),
                        Ok(None) => (
                            Exchange {
                                stream: StreamState { headers_blocked: true, ..next },
                                codecs,
                            },
                            Ok(Polled::Parked),
                        ),
                        Ok(Some(list)) => match message::request_of(list) {
                            Some(request) => (
                                Exchange {
                                    stream: StreamState { awaiting_headers: false, ..next },
                                    codecs,
                                },
                                Ok(Polled::Ready(Some(request))),
                            ),
                            None => (Exchange { codecs, ..read }, Err(StreamError::Message)),
                        },
                    }
                },
                // RFC 9114 Section 4.1: the first frame must be HEADERS.
                Ok(FramePoll::Frame(_)) => (read, Err(StreamError::FrameUnexpected)),
            }
        }
    }

    /// A poll behind the trailers, where only unknown frames may appear. It is
    /// ready when the stream has ended.
    pub open spec fn after_trailers<T>(self, ended: bool) -> (
        Exchange,
        Result<Polled<Option<T>>, StreamError>,
    ) {
        let (next, r) = self.stream.next(ended);
        let read = Exchange { stream: next, ..self };
        match r {
            Err(e) => (read, Err(e)),
            Ok(FramePoll::More) => (read, Ok(Polled::Receive)),
            Ok(FramePoll::End) => (read.finish_recv(), Ok(Polled::Ready(None))),
            Ok(FramePoll::Frame(_)) => (read, Err(StreamError::FrameUnexpected)),
        }
    }

    /// A poll for the next chunk of the body.
    pub open spec fn recv_data(self, ended: bool, now: u64) -> (
        Exchange,
        Result<Polled<Option<Seq<u8>>>, StreamError>,
    ) {
        let s = self.stream;
        if s.recv_finished {
            (self, Ok(Polled::Ready(None)))
        } else if s.awaiting_headers || s.headers_blocked || s.trailers_blocked {
            (self, Ok(Polled::Pending))
        } else if s.trailers_done {
            self.after_trailers(ended)
        } else {
            let (next, r) = s.next(ended);
            let read = Exchange { stream: next, ..self };
            match r {
                Err(e) => (read, Err(e)),
                Ok(FramePoll::More) => (read, Ok(Polled::Receive)),
                Ok(FramePoll::End) => (read.finish_recv(), Ok(Polled::Ready(None))),
                Ok(FramePoll::Frame(FrameValue::Data(data))) => (
                    read,
                    Ok(Polled::Ready(Some(data))),
                ),
                Ok(FramePoll::Frame(FrameValue::Headers(block))) => {
                    // Trailers: the body is over.
                    let (codecs, decoded) = self.codecs.decode(block, s.stream_id, now);
                    match decoded {
                        Err(e) => (Exchange { codecs, ..read }, Err(StreamError::Qpack(e))),
                        Ok(None) => (
                            Exchange {
                                stream: StreamState { trailers_blocked: true, ..next },
                                codecs,
                            },
                            Ok(Polled::Ready(None)),
                        ),
                        Ok(Some(list)) => (
                            Exchange {
                                stream: StreamState {
                                    trailers_done: true,
                                    trailers_lines: Some(list),
                                    ..next
                                },
                                codecs,
                            },
                            Ok(Polled::Ready(None)),
                        ),
                    }
                },
                Ok(FramePoll::Frame(_)) => (read, Err(StreamError::FrameUnexpected)),
            }
        }
    }

    /// The trailers of a decoded section, or the failure that it is.
    pub open spec fn trailers_from(list: Seq<Field>) -> Result<
        Polled<Option<Seq<Field>>>,
        StreamError,
    > {
        match message::trailers_of(list) {
            Some(trailers) => Ok(Polled::Ready(Some(trailers))),
            None => Err(StreamError::Message),
        }
    }

    /// A poll for the trailers.
    pub open spec fn recv_trailers(self, ended: bool, now: u64) -> (
        Exchange,
        Result<Polled<Option<Seq<Field>>>, StreamError>,
    ) {
        let s = self.stream;
        if s.trailers_lines is Some {
            (
                Exchange { stream: StreamState { trailers_lines: None, ..s }, ..self },
                Exchange::trailers_from(s.trailers_lines.unwrap()),
            )
        } else if s.trailers_blocked {
            match self.codecs.take_unblocked_for(s.stream_id) {
                (codecs, Some(list)) => (
                    Exchange {
                        stream: StreamState {
                            trailers_blocked: false,
                            trailers_done: true,
                            ..s
                        },
                        codecs,
                    },
                    Exchange::trailers_from(list),
                ),
                (codecs, None) => (Exchange { codecs, ..self }, Ok(Polled::Parked)),
            }
        } else if s.recv_finished {
            (self, Ok(Polled::Ready(None)))
        } else if s.awaiting_headers || s.headers_blocked {
            (self, Ok(Polled::Pending))
        } else if s.trailers_done {
            self.after_trailers(ended)
        } else {
            let (next, r) = s.next(ended);
            let read = Exchange { stream: next, ..self };
            match r {
                Err(e) => (read, Err(e)),
                Ok(FramePoll::More) => (read, Ok(Polled::Receive)),
                Ok(FramePoll::End) => (read.finish_recv(), Ok(Polled::Ready(None))),
                Ok(FramePoll::Frame(FrameValue::Headers(block))) => {
                    let (codecs, decoded) = self.codecs.decode(block, s.stream_id, now);
                    match decoded {
                        Err(e) => (Exchange { codecs, ..read }, Err(StreamError::Qpack(e))),
                        Ok(None) => (
                            Exchange {
                                stream: StreamState { trailers_blocked: true, ..next },
                                codecs,
                            },
                            Ok(Polled::Parked),
                        ),
                        Ok(Some(list)) => (
                            Exchange {
                                stream: StreamState { trailers_done: true, ..next },
                                codecs,
                            },
                            Exchange::trailers_from(list),
                        ),
                    }
                },
                // DATA too: the body was reported over.
                Ok(FramePoll::Frame(_)) => (read, Err(StreamError::FrameUnexpected)),
            }
        }
    }

    /// A HEADERS frame is queued: the field section is encoded, and the
    /// instructions that go with it are queued for the encoder stream.
    pub open spec fn send_headers(self, list: Seq<Field>, kind: PendingSend) -> (
        Exchange,
        Result<(), StreamError>,
    ) {
        let s = self.stream;
        match self.codecs.encode(s.stream_id, list) {
            (codecs, None) => (Exchange { codecs, ..self }, Err(StreamError::Message)),
            (codecs, Some(block)) => {
                let limit = section_limit(codecs.peer_limit);
                if block.len() > limit {
                    (
                        Exchange { codecs, ..self },
                        Err(StreamError::HeadersTooBig { size: block.len() as u64, limit }),
                    )
                } else {
                    (
                        Exchange {
                            stream: StreamState { pending_send: kind, ..s }.queued(
                                frame_header(FRAME_HEADERS, block.len()),
                                block,
                            ),
                            codecs,
                        },
                        Ok(()),
                    )
                }
            },
        }
    }

    pub open spec fn drained(self) -> (Exchange, Result<SendValue, StreamError>) {
        let (stream, step) = self.stream.drained();
        (Exchange { stream, ..self }, Ok(step))
    }

    /// A poll to send a response. Informational responses may precede the final
    /// one; only one final response may be sent.
    pub open spec fn send_response(self, status: u16, headers: Seq<Field>) -> (
        Exchange,
        Result<SendValue, StreamError>,
    ) {
        let s = self.stream;
        if s.sent_headers && !informational(status) {
            (self, Err(StreamError::Message))
        } else if s.pending_send is ResponseHeaders {
            self.drained()
        } else if s.pending_send is Idle && all_regular(headers) {
            match self.send_headers(
                response_fields(status, headers),
                PendingSend::ResponseHeaders(status),
            ) {
                (e, Ok(())) => e.drained(),
                (e, Err(err)) => (e, Err(err)),
            }
        } else {
            (self, Err(StreamError::Message))
        }
    }

    /// A poll to send the trailers.
    pub open spec fn send_trailers(self, trailers: Seq<Field>) -> (
        Exchange,
        Result<SendValue, StreamError>,
    ) {
        let s = self.stream;
        if !s.sent_headers {
            (self, Err(StreamError::Message))
        } else if s.pending_send is Trailers {
            self.drained()
        } else if s.pending_send is Idle && all_regular(trailers) {
            match self.send_headers(trailers, PendingSend::Trailers) {
                (e, Ok(())) => e.drained(),
                (e, Err(err)) => (e, Err(err)),
            }
        } else {
            (self, Err(StreamError::Message))
        }
    }
}

/// The type and the length that a frame starts with.
pub open spec fn frame_header(ty: u64, len: nat) -> Seq<u8> {
    frame::varint_octets(ty as nat) + frame::varint_octets(len)
}


/// A frame read from the stream.
enum FrameRead {
    Frame(Frame),
    End,
    More,
}

impl FrameRead {
    spec fn value(self) -> FramePoll {
        match self {
            FrameRead::Frame(f) => FramePoll::Frame(f@),
            FrameRead::End => FramePoll::End,
            FrameRead::More => FramePoll::More,
        }
    }
}

/// A result of [`RequestStream::poll_headers`] as a value.
pub open spec fn request_value(r: Result<Polled<Option<RequestHead>>, StreamError>) -> Result<
    Polled<Option<RequestValue>>,
    StreamError,
> {
    match r {
        Ok(Polled::Ready(Some(head))) => Ok(Polled::Ready(Some(head@))),
        Ok(Polled::Ready(None)) => Ok(Polled::Ready(None)),
        Ok(Polled::Receive) => Ok(Polled::Receive),
        Ok(Polled::Parked) => Ok(Polled::Parked),
        Ok(Polled::Pending) => Ok(Polled::Pending),
        Err(e) => Err(e),
    }
}

/// A result of [`RequestStream::poll_recv_data`] as a value.
pub open spec fn data_value(r: Result<Polled<Option<Bytes>>, StreamError>) -> Result<
    Polled<Option<Seq<u8>>>,
    StreamError,
> {
    match r {
        Ok(Polled::Ready(Some(b))) => Ok(Polled::Ready(Some(octets::content(b)))),
        Ok(Polled::Ready(None)) => Ok(Polled::Ready(None)),
        Ok(Polled::Receive) => Ok(Polled::Receive),
        Ok(Polled::Parked) => Ok(Polled::Parked),
        Ok(Polled::Pending) => Ok(Polled::Pending),
        Err(e) => Err(e),
    }
}

/// A result of [`RequestStream::poll_recv_trailers`] as a value.
pub open spec fn trailers_value(
    r: Result<Polled<Option<Vec<(Bytes, Bytes)>>>, StreamError>,
) -> Result<Polled<Option<Seq<Field>>>, StreamError> {
    match r {
        Ok(Polled::Ready(Some(v))) => Ok(Polled::Ready(Some(octets::fields(v@)))),
        Ok(Polled::Ready(None)) => Ok(Polled::Ready(None)),
        Ok(Polled::Receive) => Ok(Polled::Receive),
        Ok(Polled::Parked) => Ok(Polled::Parked),
        Ok(Polled::Pending) => Ok(Polled::Pending),
        Err(e) => Err(e),
    }
}

/// A result of a poll to send as a value.
pub open spec fn send_value(r: Result<SendStep, StreamError>) -> Result<SendValue, StreamError> {
    match r {
        Ok(step) => Ok(step@),
        Err(e) => Err(e),
    }
}

/// A bidirectional HTTP/3 request stream.
///
/// Implements the HTTP/3 framing layer of one QUIC bidirectional stream:
/// reading the request ([`RequestStream::poll_headers`]), streaming the body
/// ([`RequestStream::poll_recv_data`], [`RequestStream::poll_recv_trailers`])
/// and writing the response ([`RequestStream::poll_send_response`],
/// [`RequestStream::poll_send_data`], [`RequestStream::poll_send_trailers`],
/// [`RequestStream::poll_finish`]).
///
/// A poll to receive that ends in [`Polled::Receive`] is repeated with what the
/// transport had; a poll to send that ends in [`SendStep::Write`] is repeated
/// once that is written.
#[derive(Debug)]
pub struct RequestStream {
    stream_id: u64,
    frame_decoder: FrameDecoder,
    // Receive state.
    awaiting_headers: bool,
    headers_blocked: bool,
    trailers_lines: Option<Vec<(Bytes, Bytes)>>,
    trailers_blocked: bool,
    trailers_done: bool,
    recv_finished: bool,
    // Send state.
    sent_headers: bool,
    sent_trailers: bool,
    pending_send: PendingSend,
    send_buf: VecDeque<Bytes>,
}

impl View for RequestStream {
    type V = StreamState;

    closed spec fn view(&self) -> StreamState {
        StreamState {
            stream_id: self.stream_id,
            buf: self.frame_decoder@,
            awaiting_headers: self.awaiting_headers,
            headers_blocked: self.headers_blocked,
            trailers_lines: match self.trailers_lines {
                Some(v) => Some(octets::fields(v@)),
                None => None,
            },
            trailers_blocked: self.trailers_blocked,
            trailers_done: self.trailers_done,
            recv_finished: self.recv_finished,
            sent_headers: self.sent_headers,
            sent_trailers: self.sent_trailers,
            pending_send: self.pending_send,
            send_buf: codecs::contents(self.send_buf@),
        }
    }
}

/// Whether the peer finished the stream.
fn is_end(received: &Received) -> (r: bool)
    ensures
        r == received is End,
{
    match received {
        Received::End => true,
        _ => false,
    }
}

impl RequestStream {
    /// The state machine of an accepted request stream. `stream_id` is its QUIC
    /// stream ID, used to correlate QPACK state (blocked field sections,
    /// section acknowledgements).
    pub fn new(stream_id: u64) -> (r: Self)
        ensures
            r@ == StreamState::initial(stream_id),
    {
        let r = RequestStream {
            stream_id,
            frame_decoder: FrameDecoder::new(),
            awaiting_headers: true,
            headers_blocked: false,
            trailers_lines: None,
            trailers_blocked: false,
            trailers_done: false,
            recv_finished: false,
            sent_headers: false,
            sent_trailers: false,
            pending_send: PendingSend::Idle,
            send_buf: VecDeque::new(),
        };
        assert(r@ =~= StreamState::initial(stream_id));
        r
    }

    /// The QUIC stream ID of this request stream.
    pub fn id(&self) -> (r: u64)
        ensures
            r == self@.stream_id,
    {
        self.stream_id
    }

    /// Whether what was received fits the buffer.
    pub fn accepts(&self, received: &Received) -> (r: bool)
        ensures
            r == (self@.buf.len() + received.data().len() <= usize::MAX),
    {
        match received {
            Received::Chunk(b) => b.len() <= usize::MAX - self.frame_decoder.buffered(),
            _ => {
                let held: usize = self.frame_decoder.buffered();
                held <= usize::MAX
            },
        }
    }

    /// Buffers what was received.
    fn feed(&mut self, received: Received)
        requires
            old(self)@.buf.len() + received.data().len() <= usize::MAX,
        ensures
            final(self)@ == old(self)@.fed(received.data()),
    {
        let ghost start = self@;
        match received {
            Received::Chunk(b) => {
                self.frame_decoder.extend(b);
            },
            _ => {},
        }
        assert(self@ =~= start.fed(received.data()));
    }

    /// Reads the next frame. A stream that ends mid-frame is `H3_FRAME_ERROR`.
    fn poll_frame(&mut self, ended: bool) -> (r: Result<FrameRead, StreamError>)
        ensures
            final(self)@ == old(self)@.next(ended).0,
            match old(self)@.next(ended).1 {
                Ok(v) => r matches Ok(f) && f.value() == v,
                Err(e) => r == Err::<FrameRead, StreamError>(e),
            },
    {
        let ghost start = self@;
        // RFC 9114 Sections 7.2.3-7.2.7: control-plane frames (CANCEL_PUSH,
        // SETTINGS, PUSH_PROMISE, GOAWAY, MAX_PUSH_ID) MUST NOT appear on a
        // request stream and are H3_FRAME_UNEXPECTED, even when malformed, so
        // reject them at the type level before the decoder parses them.
        if let Some(ty) = self.frame_decoder.peek_frame_type() {
            if ty == FRAME_CANCEL_PUSH || ty == FRAME_SETTINGS || ty == FRAME_PUSH_PROMISE || ty
                == FRAME_GOAWAY || ty == FRAME_MAX_PUSH_ID {
                return Err(StreamError::FrameUnexpected);
            }
        }
        let next = self.frame_decoder.next_frame();
        assert(self@ =~= (StreamState { buf: frame::next_frame(start.buf).1, ..start }));
        match next {
            Ok(Some(f)) => Ok(FrameRead::Frame(f)),
            Ok(None) => {
                if !ended {
                    return Ok(FrameRead::More);
                }
                if self.frame_decoder.buffered() != 0 {
                    return Err(StreamError::Frame);
                }
                self.recv_finished = true;
                Ok(FrameRead::End)
            },
            Err(e) => Err(map_frame_error(e)),
        }
    }

    /// Marks the stream's receive side complete: the peer ended its send side,
    /// so no further field sections can arrive on this stream. The decoder's
    /// per-stream field-section budget for it is released.
    fn finish_recv(&mut self, codecs: &mut SharedCodecs)
        requires
            old(codecs).wf(),
        ensures
            final(codecs).wf(),
            (Exchange { stream: final(self)@, codecs: final(codecs)@ }) == (Exchange {
                stream: old(self)@,
                codecs: old(codecs)@,
            }).finish_recv(),
    {
        self.recv_finished = true;
        codecs.stream_finished(self.stream_id);
    }

    /// Polls for the initial HEADERS frame and decodes it into the request.
    /// `Ready(None)` when the stream ended without one.
    ///
    /// While the field section is blocked on a QPACK dynamic table entry, the
    /// poll is parked; it returns once the control plane's processing of the
    /// peer's encoder stream unblocks it. `now` is the time at which a blocked
    /// section arrived.
    pub fn poll_headers(
        &mut self,
        codecs: &mut SharedCodecs,
        received: Received,
        now: u64,
    ) -> (r: Result<Polled<Option<RequestHead>>, StreamError>)
        requires
            old(codecs).wf(),
            old(self)@.buf.len() + received.data().len() <= usize::MAX,
        ensures
            final(codecs).wf(),
            (Exchange { stream: final(self)@, codecs: final(codecs)@ }, request_value(r)) == (
            Exchange {
                stream: old(self)@.fed(received.data()),
                codecs: old(codecs)@,
            }).headers(received is End, now),
    {
        let ended: bool = is_end(&received);
        self.feed(received);
        let ghost start = self@;
        if self.headers_blocked {
            return match codecs.take_unblocked_for(self.stream_id) {
                Some(section) => {
                    self.headers_blocked = false;
                    self.awaiting_headers = false;
                    match build_request(section.headers.as_slice()) {
                        Ok(request) => Ok(Polled::Ready(Some(request))),
                        Err(e) => Err(e),
                    }
                },
                None => Ok(Polled::Parked),
            };
        }
        if !self.awaiting_headers {
            return Ok(Polled::Ready(None));
        }
        match self.poll_frame(ended) {
            Err(e) => Err(e),
            Ok(FrameRead::More) => Ok(Polled::Receive),
            Ok(FrameRead::End) => {
                self.awaiting_headers = false;
                self.finish_recv(codecs);
                Ok(Polled::Ready(None))
            },
            Ok(FrameRead::Frame(Frame::Headers(block))) => {
                match codecs.decode_block(as_slice(&block), self.stream_id, now) {
                    Err(e) => Err(StreamError::Qpack(e)),
                    Ok(None) => {
                        self.headers_blocked = true;
                        Ok(Polled::Parked)
                    },
                    Ok(Some(headers)) => match build_request(headers.as_slice()) {
                        Ok(request) => {
                            self.awaiting_headers = false;
                            Ok(Polled::Ready(Some(request)))
                        },
                        Err(e) => Err(e),
                    },
                }
            },
            // RFC 9114 Section 4.1: the first frame on a request stream must be
            // HEADERS.
            Ok(FrameRead::Frame(_)) => Err(StreamError::FrameUnexpected),
        }
    }

    /// After the trailers, a frame that is read is one of a known type, since
    /// unknown frames are skipped, and `H3_FRAME_UNEXPECTED` (RFC 9114
    /// Section 4.1). Ready when the stream ended cleanly.
    fn poll_after_trailers<T>(&mut self, codecs: &mut SharedCodecs, ended: bool) -> (r: Result<
        Polled<Option<T>>,
        StreamError,
    >)
        requires
            old(codecs).wf(),
        ensures
            final(codecs).wf(),
            forall|x: T| r != Ok::<Polled<Option<T>>, StreamError>(Polled::Ready(Some(x))),
            ({
                let (e, v) = (Exchange {
                    stream: old(self)@,
                    codecs: old(codecs)@,
                }).after_trailers::<T>(ended);
                &&& (Exchange { stream: final(self)@, codecs: final(codecs)@ }) == e
                &&& r == v
            }),
    {
        match self.poll_frame(ended) {
            Err(e) => Err(e),
            Ok(FrameRead::More) => Ok(Polled::Receive),
            Ok(FrameRead::End) => {
                self.finish_recv(codecs);
                Ok(Polled::Ready(None))
            },
            Ok(FrameRead::Frame(_)) => Err(StreamError::FrameUnexpected),
        }
    }

    /// Polls for the next chunk of the request body.
    ///
    /// `Ready(None)` when the body is complete (the stream ended or the
    /// trailers HEADERS frame arrived); any buffered trailers are then
    /// available via [`RequestStream::poll_recv_trailers`]. A frame after the
    /// trailers is `H3_FRAME_UNEXPECTED`. The poll is pending while the request
    /// is not past its HEADERS yet: the driver must poll headers first.
    pub fn poll_recv_data(
        &mut self,
        codecs: &mut SharedCodecs,
        received: Received,
        now: u64,
    ) -> (r: Result<Polled<Option<Bytes>>, StreamError>)
        requires
            old(codecs).wf(),
            old(self)@.buf.len() + received.data().len() <= usize::MAX,
        ensures
            final(codecs).wf(),
            (Exchange { stream: final(self)@, codecs: final(codecs)@ }, data_value(r)) == (
            Exchange {
                stream: old(self)@.fed(received.data()),
                codecs: old(codecs)@,
            }).recv_data(received is End, now),
    {
        let ended: bool = is_end(&received);
        self.feed(received);
        if self.recv_finished {
            return Ok(Polled::Ready(None));
        }
        if self.awaiting_headers || self.headers_blocked || self.trailers_blocked {
            return Ok(Polled::Pending);
        }
        if self.trailers_done {
            return self.poll_after_trailers(codecs, ended);
        }
        match self.poll_frame(ended) {
            Err(e) => Err(e),
            Ok(FrameRead::More) => Ok(Polled::Receive),
            Ok(FrameRead::End) => {
                self.finish_recv(codecs);
                Ok(Polled::Ready(None))
            },
            Ok(FrameRead::Frame(Frame::Data(data))) => Ok(Polled::Ready(Some(data))),
            Ok(FrameRead::Frame(Frame::Headers(block))) => {
                // Trailers: the body is over. The field section is buffered and
                // validated by poll_recv_trailers.
                match codecs.decode_block(as_slice(&block), self.stream_id, now) {
                    Err(e) => Err(StreamError::Qpack(e)),
                    Ok(None) => {
                        self.trailers_blocked = true;
                        Ok(Polled::Ready(None))
                    },
                    Ok(Some(headers)) => {
                        self.trailers_done = true;
                        self.trailers_lines = Some(headers);
                        Ok(Polled::Ready(None))
                    },
                }
            },
            Ok(FrameRead::Frame(_)) => Err(StreamError::FrameUnexpected),
        }
    }

    /// Polls for the request's trailers.
    ///
    /// `Ready(None)` when there were none. Any known frame after the trailers
    /// is `H3_FRAME_UNEXPECTED` (RFC 9114 Section 4.1).
    pub fn poll_recv_trailers(
        &mut self,
        codecs: &mut SharedCodecs,
        received: Received,
        now: u64,
    ) -> (r: Result<Polled<Option<Vec<(Bytes, Bytes)>>>, StreamError>)
        requires
            old(codecs).wf(),
            old(self)@.buf.len() + received.data().len() <= usize::MAX,
        ensures
            final(codecs).wf(),
            (Exchange { stream: final(self)@, codecs: final(codecs)@ }, trailers_value(r)) == (
            Exchange {
                stream: old(self)@.fed(received.data()),
                codecs: old(codecs)@,
            }).recv_trailers(received is End, now),
    {
        let ended: bool = is_end(&received);
        self.feed(received);
        let ghost start = self@;
        let lines = self.trailers_lines.take();
        if let Some(lines) = lines {
            assert(self@ =~= (StreamState { trailers_lines: None, ..start }));
            return trailers(lines.as_slice());
        }
        assert(self@ =~= start);
        if self.trailers_blocked {
            return match codecs.take_unblocked_for(self.stream_id) {
                Some(section) => {
                    self.trailers_blocked = false;
                    self.trailers_done = true;
                    trailers(section.headers.as_slice())
                },
                None => Ok(Polled::Parked),
            };
        }
        if self.recv_finished {
            return Ok(Polled::Ready(None));
        }
        if self.awaiting_headers || self.headers_blocked {
            return Ok(Polled::Pending);
        }
        if self.trailers_done {
            return self.poll_after_trailers(codecs, ended);
        }
        match self.poll_frame(ended) {
            Err(e) => Err(e),
            Ok(FrameRead::More) => Ok(Polled::Receive),
            Ok(FrameRead::End) => {
                self.finish_recv(codecs);
                Ok(Polled::Ready(None))
            },
            Ok(FrameRead::Frame(Frame::Headers(block))) => {
                match codecs.decode_block(as_slice(&block), self.stream_id, now) {
                    Err(e) => Err(StreamError::Qpack(e)),
                    Ok(None) => {
                        self.trailers_blocked = true;
                        Ok(Polled::Parked)
                    },
                    Ok(Some(headers)) => {
                        self.trailers_done = true;
                        trailers(headers.as_slice())
                    },
                }
            },
            // DATA too: the body was reported over, so the caller polled
            // trailers before the body was done, or the peer violated the frame
            // ordering.
            Ok(FrameRead::Frame(_)) => Err(StreamError::FrameUnexpected),
        }
    }
}

/// The trailers of a decoded section.
fn trailers(headers: &[(Bytes, Bytes)]) -> (r: Result<
    Polled<Option<Vec<(Bytes, Bytes)>>>,
    StreamError,
>)
    ensures
        trailers_value(r) == Exchange::trailers_from(octets::fields(headers@)),
{
    match header_map(headers) {
        Ok(map) => Ok(Polled::Ready(Some(map))),
        Err(e) => Err(e),
    }
}


/// Writes the three digits of a status.
fn status_digits(status: u16) -> (r: Bytes)
    requires
        100 <= status <= 999,
    ensures
        octets::content(r) == status_octets(status),
{
    let digits: [u8; 3] = [
        (0x30 + status / 100) as u8,
        (0x30 + status / 10 % 10) as u8,
        (0x30 + status % 10) as u8,
    ];
    let r = Bytes::copy_from_slice(&digits);
    assert(octets::content(r) =~= status_octets(status));
    r
}

/// Whether a list of field lines has no pseudo-headers.
fn no_pseudo(headers: &[(Bytes, Bytes)]) -> (r: bool)
    ensures
        r == all_regular(octets::fields(headers@)),
{
    let ghost list = octets::fields(headers@);
    let mut i: usize = 0;
    while i < headers.len()
        invariant
            list == octets::fields(headers@),
            i <= list.len(),
            forall|j: int| 0 <= j < i ==> !message::is_pseudo(#[trigger] list[j]),
        decreases list.len() - i,
    {
        let name = as_slice(&headers[i].0);
        if name.len() > 0 && name[0] == 0x3a {
            assert(message::is_pseudo(list[i as int]));
            return false;
        }
        assert(!message::is_pseudo(list[i as int]));
        i = i + 1;
    }
    true
}

/// The type and the length that a frame starts with.
fn header_of(ty: u64, len: u64) -> (r: Bytes)
    requires
        ty <= MAX_VARINT,
        len <= MAX_VARINT,
    ensures
        octets::content(r) == frame_header(ty, len as nat),
        2 <= octets::content(r).len() <= 16,
{
    proof {
        frame::lemma_varint_round_trip(ty as nat, Seq::empty());
        frame::lemma_varint_round_trip(len as nat, Seq::empty());
    }
    let mut header = BytesMut::new();
    frame::write_varint(ty, &mut header);
    frame::write_varint(len, &mut header);
    assert(octets::buffered(header) =~= frame_header(ty, len as nat));
    header.freeze()
}

impl RequestStream {
    /// Queues two adjacent byte ranges. HTTP/3 frame headers are tiny while
    /// DATA and QPACK field sections can be large. A small pair is coalesced
    /// into one contiguous buffer so the transport sees a single write; a large
    /// payload stays separate to avoid copying it.
    fn queue_parts(&mut self, first: Bytes, second: Bytes)
        requires
            octets::content(first).len() <= 16,
        ensures
            final(self)@ == old(self)@.queued(octets::content(first), octets::content(second)),
    {
        let ghost start = self@;
        let ghost queue = self.send_buf@;
        if second.len() == 0 {
            proof {
                codecs::lemma_contents_push(queue, first);
            }
            self.send_buf.push_back(first);
        } else if second.len() <= WRITE_INLINE_LIMIT && first.len() + second.len()
            <= WRITE_INLINE_LIMIT {
            let mut combined = BytesMut::new();
            combined.extend_from_slice(as_slice(&first));
            combined.extend_from_slice(as_slice(&second));
            let whole = combined.freeze();
            proof {
                assert(octets::content(whole) =~= octets::content(first) + octets::content(second));
                codecs::lemma_contents_push(queue, whole);
            }
            self.send_buf.push_back(whole);
        } else {
            proof {
                codecs::lemma_contents_push(queue, first);
                codecs::lemma_contents_push(queue.push(first), second);
            }
            self.send_buf.push_back(first);
            self.send_buf.push_back(second);
        }
        assert(self@ =~= start.queued(octets::content(first), octets::content(second)));
    }

    /// Drops the first write where it is done.
    fn mark_written(&mut self, written: bool)
        requires
            written ==> old(self)@.send_buf.len() > 0,
        ensures
            final(self)@ == old(self)@.after_write(written),
    {
        let ghost start = self@;
        if written {
            let ghost queue = self.send_buf@;
            let _ = self.send_buf.pop_front();
            assert(codecs::contents(self.send_buf@) =~= codecs::contents(queue).skip(1));
            assert(self@ =~= start.after_write(true));
        }
    }

    /// The next write, or the end of the write in progress.
    fn poll_write(&mut self) -> (r: SendStep)
        ensures
            (final(self)@, r@) == old(self)@.drained(),
    {
        if self.send_buf.len() > 0 {
            return SendStep::Write(self.send_buf[0].clone());
        }
        match self.pending_send {
            PendingSend::ResponseHeaders(status) => {
                if !(100 <= status && status < 200) {
                    self.sent_headers = true;
                }
            },
            PendingSend::Trailers => {
                self.sent_trailers = true;
            },
            _ => {},
        }
        self.pending_send = PendingSend::Idle;
        SendStep::Done
    }

    /// Encodes a field section with the shared encoder, enforces the peer's
    /// field-section size limit, and queues the HEADERS frame.
    fn send_headers(
        &mut self,
        codecs: &mut SharedCodecs,
        lines: &[(Bytes, Bytes)],
        kind: PendingSend,
    ) -> (r: Result<(), StreamError>)
        requires
            old(codecs).wf(),
            old(codecs)@.room_to_encode(lines@.len()),
        ensures
            final(codecs).wf(),
            (Exchange { stream: final(self)@, codecs: final(codecs)@ }, r) == (Exchange {
                stream: old(self)@,
                codecs: old(codecs)@,
            }).send_headers(octets::fields(lines@), kind),
    {
        let block = match codecs.encode_section(self.stream_id, lines) {
            Some(block) => block,
            None => {
                return Err(StreamError::Message);
            },
        };
        let size: u64 = block.len() as u64;
        let limit: u64 = match codecs.peer_max_field_section_size() {
            Some(limit) => if limit < MAX_VARINT {
                limit
            } else {
                MAX_VARINT
            },
            None => MAX_VARINT,
        };
        if size > limit {
            return Err(StreamError::HeadersTooBig { size, limit });
        }
        self.pending_send = kind;
        self.queue_parts(header_of(FRAME_HEADERS, size), block);
        Ok(())
    }

    /// Writes the response: the HEADERS frame for `status` and `headers`.
    ///
    /// The field section is encoded with the shared encoder (queuing its
    /// encoder-stream instructions) and must fit the peer's
    /// `SETTINGS_MAX_FIELD_SECTION_SIZE`. Informational responses (1xx: 100
    /// Continue, 103 Early Hints) may precede the final one; only one final
    /// response may be sent.
    ///
    /// `written` says that the write that the last call asked for is done.
    pub fn poll_send_response(
        &mut self,
        codecs: &mut SharedCodecs,
        status: u16,
        headers: &[(Bytes, Bytes)],
        written: bool,
    ) -> (r: Result<SendStep, StreamError>)
        requires
            old(codecs).wf(),
            100 <= status <= 999,
            old(codecs)@.room_to_encode(headers@.len() + 1),
            written ==> old(self)@.send_buf.len() > 0,
        ensures
            final(codecs).wf(),
            (Exchange { stream: final(self)@, codecs: final(codecs)@ }, send_value(r)) == (
            Exchange {
                stream: old(self)@.after_write(written),
                codecs: old(codecs)@,
            }).send_response(status, octets::fields(headers@)),
    {
        self.mark_written(written);
        if self.sent_headers && !(100 <= status && status < 200) {
            // RFC 9114 Section 4.1: a second response on the same stream is
            // invalid; the server resets it.
            return Err(StreamError::Message);
        }
        match self.pending_send {
            // A poll after a stalled write: just drain what is queued.
            PendingSend::ResponseHeaders(_) => Ok(self.poll_write()),
            PendingSend::Idle => {
                if !no_pseudo(headers) {
                    return Err(StreamError::Message);
                }
                let mut lines: Vec<(Bytes, Bytes)> = Vec::new();
                let name = Bytes::copy_from_slice(":status".as_bytes());
                lines.push((name, status_digits(status)));
                let mut i: usize = 0;
                let ghost given = octets::fields(headers@);
                assert(octets::fields(lines@) =~= response_fields(status, given.take(0)));
                while i < headers.len()
                    invariant
                        i <= headers@.len(),
                        given == octets::fields(headers@),
                        lines@.len() == i + 1,
                        octets::fields(lines@) == response_fields(status, given.take(i as int)),
                    decreases headers@.len() - i,
                {
                    let line = (headers[i].0.clone(), headers[i].1.clone());
                    proof {
                        octets::lemma_fields_push(lines@, line);
                        assert(given.take(i + 1) =~= given.take(i as int).push(given[i as int]));
                        assert(octets::field(line) == given[i as int]);
                        assert(response_fields(status, given.take(i + 1)) =~= response_fields(
                            status,
                            given.take(i as int),
                        ).push(given[i as int]));
                    }
                    lines.push(line);
                    i = i + 1;
                }
                assert(given.take(i as int) =~= given);
                match self.send_headers(
                    codecs,
                    lines.as_slice(),
                    PendingSend::ResponseHeaders(status),
                ) {
                    Ok(()) => Ok(self.poll_write()),
                    Err(e) => Err(e),
                }
            },
            _ => Err(StreamError::Message),
        }
    }

    /// Writes one DATA frame with `data`. None may follow the trailers.
    ///
    /// `written` says that the write that the last call asked for is done.
    pub fn poll_send_data(&mut self, data: Bytes, written: bool) -> (r: Result<
        SendStep,
        StreamError,
    >)
        requires
            octets::content(data).len() <= MAX_VARINT,
            written ==> old(self)@.send_buf.len() > 0,
        ensures
            (final(self)@, send_value(r)) == old(self)@.after_write(written).send_data(
                octets::content(data),
            ),
    {
        self.mark_written(written);
        match self.pending_send {
            // A poll after a stalled write: just drain what is queued.
            PendingSend::Data => Ok(self.poll_write()),
            PendingSend::Idle => {
                if self.sent_trailers {
                    return Err(StreamError::Message);
                }
                self.pending_send = PendingSend::Data;
                self.queue_parts(header_of(FRAME_DATA, data.len() as u64), data);
                Ok(self.poll_write())
            },
            _ => Err(StreamError::Message),
        }
    }

    /// Writes the trailers HEADERS frame. No DATA may follow.
    ///
    /// `written` says that the write that the last call asked for is done.
    pub fn poll_send_trailers(
        &mut self,
        codecs: &mut SharedCodecs,
        trailers: &[(Bytes, Bytes)],
        written: bool,
    ) -> (r: Result<SendStep, StreamError>)
        requires
            old(codecs).wf(),
            old(codecs)@.room_to_encode(trailers@.len()),
            written ==> old(self)@.send_buf.len() > 0,
        ensures
            final(codecs).wf(),
            (Exchange { stream: final(self)@, codecs: final(codecs)@ }, send_value(r)) == (
            Exchange {
                stream: old(self)@.after_write(written),
                codecs: old(codecs)@,
            }).send_trailers(octets::fields(trailers@)),
    {
        self.mark_written(written);
        if !self.sent_headers {
            return Err(StreamError::Message);
        }
        match self.pending_send {
            // A poll after a stalled write: just drain what is queued.
            PendingSend::Trailers => Ok(self.poll_write()),
            PendingSend::Idle => {
                if !no_pseudo(trailers) {
                    return Err(StreamError::Message);
                }
                match self.send_headers(codecs, trailers, PendingSend::Trailers) {
                    Ok(()) => Ok(self.poll_write()),
                    Err(e) => Err(e),
                }
            },
            _ => Err(StreamError::Message),
        }
    }

    /// Finishes the response: everything queued is written, and then the driver
    /// finishes the sending side of the stream (`FIN`). `None` says that it is
    /// time for that.
    ///
    /// `written` says that the write that the last call asked for is done.
    pub fn poll_finish(&mut self, written: bool) -> (r: Option<Bytes>)
        requires
            written ==> old(self)@.send_buf.len() > 0,
        ensures
            final(self)@ == old(self)@.after_write(written),
            match r {
                Some(b) => final(self)@.send_buf.len() > 0 && octets::content(b)
                    == final(self)@.send_buf[0],
                None => final(self)@.send_buf.len() == 0,
            },
    {
        self.mark_written(written);
        if self.send_buf.len() > 0 {
            Some(self.send_buf[0].clone())
        } else {
            None
        }
    }
}


/// All the octets of a queue, in order.
pub open spec fn joined(queue: Seq<Seq<u8>>) -> Seq<u8>
    decreases queue.len(),
{
    if queue.len() == 0 {
        Seq::empty()
    } else {
        joined(queue.drop_last()) + queue.last()
    }
}

proof fn lemma_joined_push(queue: Seq<Seq<u8>>, b: Seq<u8>)
    ensures
        joined(queue.push(b)) == joined(queue) + b,
{
    assert(queue.push(b).drop_last() =~= queue);
}

/// Coalescing changes how octets are written, not which: what is queued are the
/// two octet strings, one behind the other.
pub proof fn lemma_queued_octets(s: StreamState, first: Seq<u8>, second: Seq<u8>)
    ensures
        joined(s.queued(first, second).send_buf) == joined(s.send_buf) + first + second,
{
    let q = s.send_buf;
    lemma_joined_push(q, first);
    lemma_joined_push(q, first + second);
    lemma_joined_push(q.push(first), second);
    assert(joined(q) + first + second =~= joined(q) + (first + second));
    if second.len() == 0 {
        assert(joined(q) + first + second =~= joined(q) + first);
    }
}

/// What a poll to send DATA queues on an idle stream is that DATA frame.
pub proof fn lemma_data_is_a_frame(s: StreamState, data: Seq<u8>)
    requires
        s.pending_send is Idle,
        !s.sent_trailers,
    ensures
        s.send_data(data).1 is Ok,
        joined(s.send_data(data).0.send_buf) == joined(s.send_buf) + frame::frame_octets(
            FrameValue::Data(data),
        ),
{
    let start = StreamState { pending_send: PendingSend::Data, ..s };
    let header = frame_header(FRAME_DATA, data.len());
    lemma_queued_octets(start, header, data);
    let f = frame::frame_octets(FrameValue::Data(data));
    assert(f =~= header + data);
    assert(joined(s.send_buf) + header + data =~= joined(s.send_buf) + f);
}

/// Once the trailers are sent, no DATA follows.
pub proof fn lemma_no_data_after_trailers(s: StreamState, data: Seq<u8>)
    requires
        s.sent_trailers,
        s.pending_send is Idle,
    ensures
        s.send_data(data) == (s, Err::<SendValue, StreamError>(StreamError::Message)),
{
}

/// Only one final response is sent.
pub proof fn lemma_one_final_response(e: Exchange, status: u16, headers: Seq<Field>)
    requires
        e.stream.sent_headers,
        !informational(status),
    ensures
        e.send_response(status, headers) == (
            e,
            Err::<SendValue, StreamError>(StreamError::Message),
        ),
{
}

/// A response or a trailer section that is sent reaches the peer. The octets
/// queued on the stream are a HEADERS frame; a peer whose decoder mirrors this
/// encoder, once it was fed the instructions queued for the encoder stream,
/// reads that frame and decodes it to the field lines that were sent, where the
/// stream's budget allows it; and it mirrors the encoder again.
pub proof fn lemma_headers_reach_the_peer(
    e: Exchange,
    peer: Exchange,
    list: Seq<Field>,
    kind: PendingSend,
    now: u64,
)
    requires
        e.codecs.encoder is Some,
        e.codecs.encoder.unwrap().valid(),
        e.codecs.encoder.unwrap().max_capacity <= u64::MAX,
        e.codecs.encoder.unwrap().table.inserted + list.len() <= u64::MAX,
        laws::list_fits(list),
        e.send_headers(list, kind).1 is Ok,
        peer.codecs.decoder.valid(),
        laws::mirrors(peer.codecs.decoder, e.codecs.encoder.unwrap()),
        peer.codecs.decoder.blocked.len() == 0,
        peer.stream.stream_id == e.stream.stream_id,
        peer.stream.buf.len() == 0,
    ensures
        ({
            let enc = e.codecs.encoder.unwrap();
            let base = enc.known_received;
            let block = enc.section_block(list, base);
            let sent = e.send_headers(list, kind).0;
            let f = FrameValue::Headers(block);
            let d = peer.codecs.decoder;
            let (fed, answered) = peer.codecs.feed_encoder(enc.section_stream(list, base));
            &&& joined(sent.stream.send_buf) == joined(e.stream.send_buf) + frame::frame_octets(f)
            &&& peer.stream.fed(frame::frame_octets(f)).next(false) == (
                peer.stream,
                Ok::<FramePoll, StreamError>(FramePoll::Frame(f)),
            )
            &&& answered is Ok
            &&& fed.unblocked == peer.codecs.unblocked
            &&& laws::mirrors(fed.decoder, sent.codecs.encoder.unwrap())
            &&& decoder::saturated(
                d.charged_to(e.stream.stream_id) + decoder::list_size(list),
            ) <= d.max_field_section_size ==> fed.decode(block, e.stream.stream_id, now).1 == Ok::<
                Option<Seq<Field>>,
                QpackError,
            >(Some(list))
        }),
{
    let enc = e.codecs.encoder.unwrap();
    let base = enc.known_received;
    let block = enc.section_block(list, base);
    let f = FrameValue::Headers(block);
    let header = frame_header(FRAME_HEADERS, block.len());
    let start = StreamState { pending_send: kind, ..e.stream };
    lemma_queued_octets(start, header, block);
    assert(frame::frame_octets(f) =~= header + block);
    assert(joined(start.send_buf) + header + block =~= joined(start.send_buf)
        + frame::frame_octets(f));
    frame::lemma_frame_round_trip(f, Seq::empty());
    let o = frame::frame_octets(f);
    assert(o + Seq::<u8>::empty() =~= o);
    assert(peer.stream.buf + o =~= o);
    frame::lemma_varint_round_trip(FRAME_HEADERS as nat, o.skip(1));
    assert(frame::peek_type(o) == Some(FRAME_HEADERS as nat)) by {
        let ty = frame::varint_octets(FRAME_HEADERS as nat);
        assert(o =~= ty + o.skip(1));
    }
    let (got, r) = peer.stream.fed(o).next(false);
    assert(got =~= peer.stream);
    laws::lemma_end_to_end(enc, peer.codecs.decoder, e.stream.stream_id, list, base, now);
    let (d2, l) = peer.codecs.decoder.feed_encoder(enc.section_stream(list, base));
    let (fed, _) = peer.codecs.feed_encoder(enc.section_stream(list, base));
    assert(fed.unblocked =~= peer.codecs.unblocked);
    let drained = DecoderState { outgoing: Seq::empty(), ..d2 };
    assert(fed.decoder == drained);
    laws::lemma_decode_ignores_outgoing(d2, drained, block, e.stream.stream_id, now);
}

/// The first frame on a request stream is HEADERS, or the stream fails.
pub proof fn lemma_first_frame(e: Exchange, now: u64)
    requires
        e.stream.awaiting_headers,
        !e.stream.headers_blocked,
        e.stream.next(false).1 matches Ok(FramePoll::Frame(f)) && !(f is Headers),
    ensures
        e.headers(false, now).1 == Err::<Polled<Option<RequestValue>>, StreamError>(
            StreamError::FrameUnexpected,
        ),
{
}

/// A control-plane frame on a request stream fails it by its type alone, in
/// every state in which frames are read.
pub proof fn lemma_control_plane_frames_are_refused(e: Exchange, now: u64)
    requires
        frame::peek_type(e.stream.buf) matches Some(ty) && control_plane_type(ty),
        !e.stream.headers_blocked,
    ensures
        e.stream.awaiting_headers ==> e.headers(false, now).1 == Err::<
            Polled<Option<RequestValue>>,
            StreamError,
        >(StreamError::FrameUnexpected),
        !e.stream.awaiting_headers && !e.stream.trailers_blocked && !e.stream.recv_finished
            ==> e.recv_data(false, now).1 == Err::<Polled<Option<Seq<u8>>>, StreamError>(
            StreamError::FrameUnexpected,
        ),
        !e.stream.awaiting_headers && !e.stream.trailers_blocked && !e.stream.recv_finished
            && e.stream.trailers_lines is None ==> e.recv_trailers(false, now).1 == Err::<
            Polled<Option<Seq<Field>>>,
            StreamError,
        >(StreamError::FrameUnexpected),
{
}

/// Behind the trailers only unknown frames may appear: any frame that is read
/// fails the stream.
pub proof fn lemma_nothing_follows_trailers(e: Exchange, now: u64)
    requires
        e.stream.trailers_done,
        e.stream.trailers_lines is None,
        !e.stream.awaiting_headers,
        !e.stream.headers_blocked,
        !e.stream.trailers_blocked,
        !e.stream.recv_finished,
        e.stream.next(false).1 matches Ok(FramePoll::Frame(_)),
    ensures
        e.recv_data(false, now).1 == Err::<Polled<Option<Seq<u8>>>, StreamError>(
            StreamError::FrameUnexpected,
        ),
        e.recv_trailers(false, now).1 == Err::<Polled<Option<Seq<Field>>>, StreamError>(
            StreamError::FrameUnexpected,
        ),
{
}

/// How the transport cuts the stream into chunks does not matter: where a first
/// chunk completes no frame, what the next one completes is what both together
/// would.
pub proof fn lemma_chunks_do_not_matter(s: StreamState, a: Seq<u8>, b: Seq<u8>)
    requires
        s.fed(a).next(false).1 matches Ok(FramePoll::More),
    ensures
        s.fed(a).next(false).0.fed(b).next(false) == s.fed(a + b).next(false) || ({
            let (x, r) = s.fed(a).next(false).0.fed(b).next(false);
            let (y, t) = s.fed(a + b).next(false);
            &&& r == Err::<FramePoll, StreamError>(StreamError::FrameUnexpected)
            &&& t == r
        }),
{
    let whole = s.buf + a;
    frame::lemma_next_frame_split(whole, b);
    frame::lemma_peek_type_split(whole, b);
    assert(s.buf + (a + b) =~= whole + b);
}

/// What a poll yields stands for itself: octets for octets, fields for fields, and
/// a write for the octets to be written.
pub proof fn lemma_results_stand_for_themselves(
    head: RequestHead,
    data: Bytes,
    list: Vec<(Bytes, Bytes)>,
    e: StreamError,
)
    ensures
        request_value(Ok(Polled::Ready(Some(head)))) == Ok::<
            Polled<Option<RequestValue>>,
            StreamError,
        >(Polled::Ready(Some(head@))),
        request_value(Ok(Polled::Ready(None))) == Ok::<Polled<Option<RequestValue>>, StreamError>(
            Polled::Ready(None),
        ),
        request_value(Err(e)) == Err::<Polled<Option<RequestValue>>, StreamError>(e),
        data_value(Ok(Polled::Ready(Some(data)))) == Ok::<Polled<Option<Seq<u8>>>, StreamError>(
            Polled::Ready(Some(octets::content(data))),
        ),
        data_value(Ok(Polled::Ready(None))) == Ok::<Polled<Option<Seq<u8>>>, StreamError>(
            Polled::Ready(None),
        ),
        data_value(Err(e)) == Err::<Polled<Option<Seq<u8>>>, StreamError>(e),
        trailers_value(Ok(Polled::Ready(Some(list)))) == Ok::<
            Polled<Option<Seq<Field>>>,
            StreamError,
        >(Polled::Ready(Some(octets::fields(list@)))),
        trailers_value(Ok(Polled::Ready(None))) == Ok::<Polled<Option<Seq<Field>>>, StreamError>(
            Polled::Ready(None),
        ),
        trailers_value(Err(e)) == Err::<Polled<Option<Seq<Field>>>, StreamError>(e),
        send_value(Ok(SendStep::Write(data))) == Ok::<SendValue, StreamError>(
            SendValue::Write(octets::content(data)),
        ),
        send_value(Ok(SendStep::Done)) == Ok::<SendValue, StreamError>(SendValue::Done),
        send_value(Err(e)) == Err::<SendValue, StreamError>(e),
        Received::Chunk(data).data() == octets::content(data),
        Received::Nothing.data().len() == 0,
        Received::End.data().len() == 0,
{
}

} // verus!
