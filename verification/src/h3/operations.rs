//! What the operations of an HTTP/3 endpoint do to whoever calls them.
//!
//! Each law takes the arguments, the result and the states around a call that was
//! made, or around a run of such calls, and says how they relate.

use super::codecs;
use super::codecs::{CodecsState, SharedCodecs};
use super::control;
use super::control::{
    ControlError, ControlState, ControlStreams, Outbound, Plane, ReadReply, ReadStep, Turn,
};
use super::error;
use super::error::{H3Error, IoKind, TransportError};
use super::frame;
use super::frame::{Frame, FrameDecoder, FrameError, FrameValue, Setting, Settings};
use super::handler;
use super::handler::{
    AcceptOutcome, BodyFrame, ConnectionAction, ConnectionEvent, RequestPlan, ServeAction,
    ServeEvent, Serving,
};
use super::message;
use super::message::{RequestHead, StreamError};
use super::options;
use super::options::Http3Options;
use super::qpack::conduct;
use super::qpack::decoder;
use super::qpack::decoder::{DecoderState, UnblockedSection};
use super::qpack::laws;
use super::qpack::QpackError;
use super::reading;
use super::sending;
use super::settings::{LocalSettings, PeerSettings, PeerValues};
use super::signalling;
use super::stream::{joined, Exchange, Polled, Received, RequestStream, SendStep, StreamState};
use super::transport;
use super::transport::{ConnectionFailure, ReadFailure, SendStage, WriteFailure};
use super::upgrade::{ReadAction, ReadBuffer, SendTask};
use crate::octets;
use crate::octets::Field;
use bytes::{Bytes, BytesMut};
use http::HeaderMap;
use rustc_hash::FxHashMap;
use std::collections::VecDeque;
use std::time::Duration;
use vstd::prelude::*;

verus! {

/// A request carries every field behind its pseudo-header fields, in order, under
/// its name in lower case and with its value.
pub proof fn lemma_built_requests_keep_their_headers(
    headers: &[(Bytes, Bytes)],
    r: Result<RequestHead, StreamError>,
    k: int,
)
    requires
        call_ensures(message::build_request, (headers,), r),
        r is Ok,
        message::opens_with(octets::fields(headers@), k),
    ensures
        ({
            let kept = r->Ok_0@.headers;
            &&& kept.len() == headers@.len() - k
            &&& forall|i: int|
                0 <= i < kept.len() ==> {
                    &&& (#[trigger] kept[i]).0 == message::lower(
                        octets::content(headers@[k + i].0),
                    )
                    &&& kept[i].1 == octets::content(headers@[k + i].1)
                }
        }),
{
    let list = octets::fields(headers@);
    octets::lemma_fields_stand_for_themselves(headers@);
    message::lemma_request_headers(list, message::pseudo_of(list).target().uri(), k);
}

/// Trailers carry every field, in order, under its name in lower case and with
/// its value.
pub proof fn lemma_built_trailers_keep_their_fields(
    headers: &[(Bytes, Bytes)],
    r: Result<Vec<(Bytes, Bytes)>, StreamError>,
)
    requires
        call_ensures(message::header_map, (headers,), r),
    ensures
        r matches Ok(v) ==> {
            &&& v@.len() == headers@.len()
            &&& forall|i: int|
                0 <= i < v@.len() ==> {
                    &&& octets::content((#[trigger] v@[i]).0) == message::lower(
                        octets::content(headers@[i].0),
                    )
                    &&& octets::content(v@[i].1) == octets::content(headers@[i].1)
                }
        },
        r is Ok <==> forall|i: int|
            0 <= i < headers@.len() ==> {
                let name = octets::content((#[trigger] headers@[i]).0);
                &&& !message::colon_first(name)
                &&& message::name_valid(name)
                &&& message::value_valid(octets::content(headers@[i].1))
            },
        r is Err ==> r->Err_0 is Message,
{
    let list = octets::fields(headers@);
    octets::lemma_fields_stand_for_themselves(headers@);
    message::lemma_trailers(list);
    if message::trailers_of(list) is Some {
        assert forall|i: int| 0 <= i < headers@.len() implies {
            let name = octets::content((#[trigger] headers@[i]).0);
            &&& !message::colon_first(name)
            &&& message::name_valid(name)
            &&& message::value_valid(octets::content(headers@[i].1))
        } by {
            assert(list[i].0 == octets::content(headers@[i].0));
        }
        let v = r->Ok_0;
        octets::lemma_fields_stand_for_themselves(v@);
        assert forall|i: int| 0 <= i < v@.len() implies {
            &&& octets::content((#[trigger] v@[i]).0) == message::lower(
                octets::content(headers@[i].0),
            )
            &&& octets::content(v@[i].1) == octets::content(headers@[i].1)
        } by {
            assert(octets::fields(v@)[i].0 == octets::content(v@[i].0));
            assert(list[i].0 == octets::content(headers@[i].0));
        }
    } else {
        let i = choose|i: int|
            0 <= i < list.len() && !(!message::colon_first((#[trigger] list[i]).0)
                && message::name_valid(list[i].0) && message::value_valid(list[i].1));
        assert(list[i].0 == octets::content(headers@[i].0));
    }
}

/// Whether the task of a request went through `states`, one for each event of
/// `events` behind the first.
pub open spec fn served(states: Seq<Serving>, events: Seq<ServeEvent>) -> bool {
    &&& states.len() == events.len() + 1
    &&& forall|i: int|
        0 <= i < events.len() ==> call_ensures(
            Serving::advance,
            (states[i], #[trigger] events[i]),
            states[i + 1],
        )
}

/// How many of the steps lead to that action from another one.
pub open spec fn started(states: Seq<Serving>, action: ServeAction) -> nat
    decreases states.len(),
{
    if states.len() <= 1 {
        0
    } else {
        let n = states.len() - 1;
        started(states.drop_last(), action) + if states[n - 1].doing != action && states[n].doing
            == action {
            1nat
        } else {
            0nat
        }
    }
}

/// How many of the events come while the task does that.
pub open spec fn brought_while(
    states: Seq<Serving>,
    events: Seq<ServeEvent>,
    action: ServeAction,
    event: ServeEvent,
) -> nat
    decreases events.len(),
{
    if events.len() == 0 {
        0
    } else {
        let n = events.len() - 1;
        brought_while(states, events.drop_last(), action, event) + if states[n].doing == action
            && events[n] == event {
            1nat
        } else {
            0nat
        }
    }
}

/// Whatever happens to a request, its task sends each chunk of the body that its
/// handler hands over, and the trailers, and each interim response, once.
pub proof fn lemma_task_sends_everything(states: Seq<Serving>, events: Seq<ServeEvent>)
    requires
        served(states, events),
    ensures
        started(states, ServeAction::SendData) == brought_while(
            states,
            events,
            ServeAction::NextFrame,
            ServeEvent::Frame(BodyFrame::Data),
        ),
        started(states, ServeAction::SendTrailers) == brought_while(
            states,
            events,
            ServeAction::NextFrame,
            ServeEvent::Frame(BodyFrame::Trailers),
        ),
        started(states, ServeAction::SendHints) == brought_while(
            states,
            events,
            ServeAction::Handle { hints: true },
            ServeEvent::Hint,
        ),
    decreases events.len(),
{
    if events.len() > 0 {
        let n = events.len() - 1;
        let before = states.drop_last();
        let fewer = events.drop_last();
        assert forall|i: int| 0 <= i < fewer.len() implies call_ensures(
            Serving::advance,
            (before[i], #[trigger] fewer[i]),
            before[i + 1],
        ) by {
            assert(fewer[i] == events[i]);
        }
        lemma_task_sends_everything(before, fewer);
        lemma_counted_before(before, states, fewer);
        assert(call_ensures(Serving::advance, (states[n], events[n]), states[n + 1]));
        assert(states[n + 1] == states[n].next(events[n]));
    }
}

/// The last state does not matter to what the events before it bring.
proof fn lemma_counted_before(a: Seq<Serving>, b: Seq<Serving>, events: Seq<ServeEvent>)
    requires
        a.len() > events.len(),
        b.len() >= a.len(),
        forall|i: int| 0 <= i < a.len() ==> a[i] == b[i],
    ensures
        forall|action: ServeAction, event: ServeEvent| #[trigger]
            brought_while(a, events, action, event) == brought_while(b, events, action, event),
    decreases events.len(),
{
    if events.len() > 0 {
        let fewer = events.drop_last();
        lemma_counted_before(a, b, fewer);
        assert forall|action: ServeAction, event: ServeEvent| #[trigger]
            brought_while(a, events, action, event) == brought_while(
            b,
            events,
            action,
            event,
        ) by {
            assert(brought_while(a, fewer, action, event) == brought_while(
                b,
                fewer,
                action,
                event,
            ));
        }
    }
}

/// The state of a request stream before it queues anything: without the chunk
/// that the transport took, if it took one.
pub open spec fn rested(s: StreamState, written: bool) -> StreamState {
    if written {
        StreamState { send_buf: s.send_buf.skip(1), ..s }
    } else {
        s
    }
}

/// A response that is sent arrives: what the call queues, a peer that follows
/// reads as the status in three digits and as all of the fields.
pub proof fn lemma_sent_responses_arrive(
    s: &mut RequestStream,
    c: &mut SharedCodecs,
    status: u16,
    headers: &[(Bytes, Bytes)],
    written: bool,
    r: Result<SendStep, StreamError>,
    peer: CodecsState,
    now: u64,
)
    requires
        call_ensures(RequestStream::poll_send_response, (s, c, status, headers, written), r),
        r is Ok,
        100 <= status <= 999,
        written ==> old(s)@.send_buf.len() > 0,
        old(s)@.pending_send is Idle,
        old(c)@.encoder is Some,
        old(c)@.encoder.unwrap().table.inserted + headers@.len() + 1 <= u64::MAX,
        laws::list_fits(octets::fields(headers@)),
        sending::can_follow(
            (Exchange { stream: old(s)@, codecs: old(c)@ }),
            peer,
            sending::lines_size(octets::fields(headers@)) + 10,
        ),
    ensures
        ({
            let before = Exchange { stream: rested(old(s)@, written), codecs: old(c)@ };
            let after = Exchange { stream: final(s)@, codecs: final(c)@ };
            &&& sending::only_adds(before, after)
            &&& sending::received(before, after, peer, now) matches Some(list) && {
                &&& list.len() == headers@.len() + 1
                &&& list[0].0 == sending::status_name()
                &&& sending::spells(list[0].1, status)
                &&& forall|i: int|
                    0 <= i < headers@.len() ==> {
                        &&& (#[trigger] list[i + 1]).0 == octets::content(headers@[i].0)
                        &&& list[i + 1].1 == octets::content(headers@[i].1)
                    }
            }
            &&& r matches Ok(SendStep::Write(b)) && octets::content(b) == final(s)@.send_buf[0]
        }),
{
    let before = Exchange { stream: rested(old(s)@, written), codecs: old(c)@ };
    let after = Exchange { stream: final(s)@, codecs: final(c)@ };
    let list = octets::fields(headers@);
    octets::lemma_fields_stand_for_themselves(headers@);
    if written {
        sending::lemma_writes_are_taken_in_order(old(s)@);
    }
    assert(before.stream == old(s)@.after_write(written));
    sending::lemma_response_arrives(before, peer, status, list, now);
    let got = sending::received(before, after, peer, now).unwrap();
    assert forall|i: int| 0 <= i < headers@.len() implies {
        &&& (#[trigger] got[i + 1]).0 == octets::content(headers@[i].0)
        &&& got[i + 1].1 == octets::content(headers@[i].1)
    } by {
        assert(got[i + 1] == list[i]);
    }
}

/// Trailers that are sent arrive: what the call queues, a peer that follows reads
/// as all of the fields.
pub proof fn lemma_sent_trailers_arrive(
    s: &mut RequestStream,
    c: &mut SharedCodecs,
    trailers: &[(Bytes, Bytes)],
    written: bool,
    r: Result<SendStep, StreamError>,
    peer: CodecsState,
    now: u64,
)
    requires
        call_ensures(RequestStream::poll_send_trailers, (s, c, trailers, written), r),
        r is Ok,
        written ==> old(s)@.send_buf.len() > 0,
        old(s)@.pending_send is Idle,
        old(c)@.encoder is Some,
        old(c)@.encoder.unwrap().table.inserted + trailers@.len() <= u64::MAX,
        laws::list_fits(octets::fields(trailers@)),
        sending::can_follow(
            (Exchange { stream: old(s)@, codecs: old(c)@ }),
            peer,
            sending::lines_size(octets::fields(trailers@)),
        ),
    ensures
        ({
            let before = Exchange { stream: rested(old(s)@, written), codecs: old(c)@ };
            let after = Exchange { stream: final(s)@, codecs: final(c)@ };
            &&& sending::only_adds(before, after)
            &&& sending::received(before, after, peer, now) matches Some(list) && {
                &&& list.len() == trailers@.len()
                &&& forall|i: int|
                    0 <= i < trailers@.len() ==> {
                        &&& (#[trigger] list[i]).0 == octets::content(trailers@[i].0)
                        &&& list[i].1 == octets::content(trailers@[i].1)
                    }
            }
            &&& r matches Ok(SendStep::Write(b)) && octets::content(b) == final(s)@.send_buf[0]
        }),
{
    let before = Exchange { stream: rested(old(s)@, written), codecs: old(c)@ };
    octets::lemma_fields_stand_for_themselves(trailers@);
    if written {
        sending::lemma_writes_are_taken_in_order(old(s)@);
    }
    assert(before.stream == old(s)@.after_write(written));
    sending::lemma_trailers_arrive(before, peer, octets::fields(trailers@), now);
}

/// Data that is sent arrives: what the call queues is one DATA frame that holds
/// all of it.
pub proof fn lemma_sent_data_arrives(
    s: &mut RequestStream,
    data: Bytes,
    written: bool,
    r: Result<SendStep, StreamError>,
)
    requires
        call_ensures(RequestStream::poll_send_data, (s, data, written), r),
        octets::content(data).len() <= 0x3fff_ffff_ffff_ffff,
        written ==> old(s)@.send_buf.len() > 0,
        old(s)@.pending_send is Idle,
    ensures
        old(s)@.sent_trailers <==> r is Err,
        r is Err ==> r->Err_0 is Message && final(s)@ == rested(old(s)@, written),
        r is Ok ==> {
            &&& frame::next_frame(sending::queued_since(rested(old(s)@, written), final(s)@)) == (
                Ok::<Option<FrameValue>, FrameError>(Some(FrameValue::Data(octets::content(data)))),
                Seq::<u8>::empty(),
            )
            &&& r matches Ok(SendStep::Write(b)) && octets::content(b) == final(s)@.send_buf[0]
        },
{
    if written {
        sending::lemma_writes_are_taken_in_order(old(s)@);
    }
    assert(rested(old(s)@, written) == old(s)@.after_write(written));
    sending::lemma_data_arrives(rested(old(s)@, written), octets::content(data));
}

/// The first GOAWAY is put on the control stream with the ID that it was called
/// with, and that ID is what [`ControlStreams::goaway_sent`] says; a later one
/// changes nothing.
pub proof fn lemma_goaway_names_its_stream(
    c: &mut ControlStreams,
    id: u64,
    later: &ControlStreams,
    sent: Option<u64>,
)
    requires
        call_ensures(ControlStreams::send_goaway, (c, id), ()),
        id <= 0x3fff_ffff_ffff_ffff,
        later@ == final(c)@,
        call_ensures(ControlStreams::goaway_sent, (later,), sent),
    ensures
        old(c)@.goaway_sent is None ==> {
            &&& signalling::says(old(c)@, final(c)@, FrameValue::Goaway(id))
            &&& sent == Some(id)
        },
        old(c)@.goaway_sent is Some ==> final(c)@ == old(c)@ && sent == old(c)@.goaway_sent,
        final(c)@ == (ControlState {
            goaway_sent: sent,
            control_buf: final(c)@.control_buf,
            ..old(c)@
        }),
{
    signalling::lemma_goaway_is_said(old(c)@, id);
}

/// A MAX_PUSH_ID or CANCEL_PUSH frame is put on the control stream with the ID
/// that it was called with.
pub proof fn lemma_push_frames_name_their_push(c: &mut ControlStreams, id: u64)
    requires
        id <= 0x3fff_ffff_ffff_ffff,
    ensures
        call_ensures(ControlStreams::send_max_push_id, (c, id), ()) ==> {
            &&& signalling::says(old(c)@, final(c)@, FrameValue::MaxPushId(id))
            &&& final(c)@ == (ControlState { control_buf: final(c)@.control_buf, ..old(c)@ })
        },
        call_ensures(ControlStreams::send_cancel_push, (c, id), ()) ==> {
            &&& signalling::says(old(c)@, final(c)@, FrameValue::CancelPush(id))
            &&& final(c)@ == (ControlState { control_buf: final(c)@.control_buf, ..old(c)@ })
        },
{
    frame::lemma_varint_round_trip(id as nat, Seq::empty());
    signalling::lemma_queued_frames_are_said(old(c)@, FrameValue::MaxPushId(id));
    signalling::lemma_queued_frames_are_said(old(c)@, FrameValue::CancelPush(id));
}

/// What is queued for the encoder stream goes out behind what is queued already,
/// and nothing else changes.
pub proof fn lemma_instructions_are_queued(c: &mut ControlStreams, bytes: Bytes)
    requires
        call_ensures(ControlStreams::queue_encoder_stream, (c, bytes), ()),
    ensures
        joined(final(c)@.encoder_pending) == joined(old(c)@.encoder_pending) + octets::content(
            bytes,
        ),
        final(c)@ == (ControlState { encoder_pending: final(c)@.encoder_pending, ..old(c)@ }),
{
    let data = octets::content(bytes);
    if data.len() == 0 {
        assert(joined(old(c)@.encoder_pending) + data =~= joined(old(c)@.encoder_pending));
    } else {
        assert(old(c)@.encoder_pending.push(data).drop_last() =~= old(c)@.encoder_pending);
    }
}

/// What the codecs have for the encoder stream moves to it, once and in order.
pub proof fn lemma_instructions_move(
    c: &mut ControlStreams,
    bytes: &mut VecDeque<Bytes>,
    codecs: &mut SharedCodecs,
)
    ensures
        call_ensures(ControlStreams::queue_encoder_streams, (c, bytes), ()) ==> {
            &&& final(bytes)@.len() == 0
            &&& final(c)@.encoder_pending == old(c)@.encoder_pending + codecs::contents(old(bytes)@)
            &&& final(c)@ == (ControlState {
                encoder_pending: final(c)@.encoder_pending,
                ..old(c)@
            })
        },
        call_ensures(ControlStreams::queue_encoder_streams_from_shared, (c, codecs), ()) ==> {
            &&& final(codecs)@.encoder_stream.len() == 0
            &&& final(c)@.encoder_pending == old(c)@.encoder_pending + old(codecs)@.encoder_stream
            &&& final(c)@ == (ControlState {
                encoder_pending: final(c)@.encoder_pending,
                ..old(c)@
            })
            &&& final(codecs)@ == (CodecsState {
                encoder_stream: final(codecs)@.encoder_stream,
                ..old(codecs)@
            })
        },
{
}

/// What the decoder has to acknowledge moves to the decoder stream, once.
pub proof fn lemma_acknowledgments_move(c: &mut ControlStreams, codecs: &mut SharedCodecs)
    requires
        call_ensures(ControlStreams::queue_decoder_acks, (c, codecs), ()),
    ensures
        joined(final(c)@.decoder_pending) == joined(old(c)@.decoder_pending)
            + old(codecs)@.decoder.outgoing,
        final(codecs)@.decoder.outgoing.len() == 0,
        final(c)@ == (ControlState { decoder_pending: final(c)@.decoder_pending, ..old(c)@ }),
        final(codecs)@ == (CodecsState { decoder: final(codecs)@.decoder, ..old(codecs)@ }),
        final(codecs)@.decoder == (DecoderState {
            outgoing: final(codecs)@.decoder.outgoing,
            ..old(codecs)@.decoder
        }),
{
    signalling::lemma_acknowledgments_go_out(old(c)@, old(codecs)@.decoder.outgoing);
}

/// A flush offers the first write, and drops it once it was written: no write is
/// lost, none comes twice, and nothing but the queues changes.
pub proof fn lemma_flushes_take_writes_in_order(
    c: &mut ControlStreams,
    written: bool,
    r: Option<(u64, Bytes)>,
)
    requires
        call_ensures(ControlStreams::poll_flush, (c, written), r),
        written ==> old(c)@.writes().len() > 0,
    ensures
        ({
            let queue = if written {
                old(c)@.writes().skip(1)
            } else {
                old(c)@.writes()
            };
            &&& final(c)@.writes() == queue
            &&& r is None <==> queue.len() == 0
            &&& r matches Some((to, b)) ==> queue[0] == (to, octets::content(b))
            &&& final(c)@ == (ControlState {
                control_out: final(c)@.control_out,
                control_buf: final(c)@.control_buf,
                encoder_pending: final(c)@.encoder_pending,
                decoder_pending: final(c)@.decoder_pending,
                ..old(c)@
            })
        }),
{
    let c0 = if written {
        old(c)@.written()
    } else {
        old(c)@
    };
    control::lemma_flush(old(c)@, FrameValue::Goaway(0));
    control::lemma_flush(c0, FrameValue::Goaway(0));
}

/// The control, encoder and decoder streams are opened in that order; each is
/// given its type, and the control stream the SETTINGS behind it.
pub proof fn lemma_streams_are_opened(
    c: &mut ControlStreams,
    opened: Option<u64>,
    r: Option<Outbound>,
)
    requires
        call_ensures(ControlStreams::poll_init, (c, opened), r),
    ensures
        opened is None ==> final(c)@ == old(c)@,
        r is None <==> final(c)@.out_control is Some && final(c)@.out_encoder is Some
            && final(c)@.out_decoder is Some,
        r is Some ==> match r.unwrap() {
            Outbound::Control => final(c)@.out_control is None,
            Outbound::QpackEncoder => final(c)@.out_control is Some
                && final(c)@.out_encoder is None,
            Outbound::QpackDecoder => final(c)@.out_control is Some && final(c)@.out_encoder is Some
                && final(c)@.out_decoder is None,
        },
        opened is Some && old(c)@.out_control is None ==> {
            &&& final(c)@.out_control == opened
            &&& final(c)@.out_encoder == old(c)@.out_encoder
            &&& final(c)@.out_decoder == old(c)@.out_decoder
            &&& final(c)@.control_buf == old(c)@.control_buf + seq![0x00u8] + frame::frame_octets(
                FrameValue::Settings(old(c)@.local.parameters()),
            )
            &&& final(c)@.encoder_pending == old(c)@.encoder_pending
            &&& final(c)@.decoder_pending == old(c)@.decoder_pending
        },
        opened is Some && old(c)@.out_control is Some && old(c)@.out_encoder is None ==> final(c)@
            == (ControlState {
            out_encoder: opened,
            encoder_pending: old(c)@.encoder_pending.push(seq![0x02u8]),
            ..old(c)@
        }),
        opened is Some && old(c)@.out_control is Some && old(c)@.out_encoder is Some
            && old(c)@.out_decoder is None ==> final(c)@ == (ControlState {
            out_decoder: opened,
            decoder_pending: old(c)@.decoder_pending.push(seq![0x03u8]),
            ..old(c)@
        }),
{
    frame::lemma_varint_layout(0);
    let settings = frame::frame_octets(FrameValue::Settings(old(c)@.local.parameters()));
    assert(old(c)@.control_buf + (seq![0x00u8] + settings) =~= old(c)@.control_buf + seq![0x00u8]
        + settings);
}

/// The codes of the HTTP/3 errors.
pub proof fn lemma_registered_codes(e: H3Error, code: u64)
    requires
        call_ensures(H3Error::code, (e,), code),
    ensures
        code == match e {
            H3Error::NoError => 0x0100u64,
            H3Error::GeneralProtocol => 0x0101u64,
            H3Error::Internal => 0x0102u64,
            H3Error::StreamCreation => 0x0103u64,
            H3Error::ClosedCriticalStream => 0x0104u64,
            H3Error::FrameUnexpected => 0x0105u64,
            H3Error::FrameError => 0x0106u64,
            H3Error::ExcessiveLoad => 0x0107u64,
            H3Error::Id => 0x0108u64,
            H3Error::Settings => 0x0109u64,
            H3Error::MissingSettings => 0x010au64,
            H3Error::RequestRejected => 0x010bu64,
            H3Error::RequestCancelled => 0x010cu64,
            H3Error::RequestIncomplete => 0x010du64,
            H3Error::Message => 0x010eu64,
            H3Error::Connect => 0x010fu64,
            H3Error::VersionFallback => 0x0110u64,
        },
{
}

/// What an HTTP/3 error is called.
pub proof fn lemma_registered_names(e: H3Error, text: String)
    requires
        call_ensures(H3Error::message, (e,), text),
    ensures
        text@ == (match e {
            H3Error::NoError => "NoError"@,
            H3Error::GeneralProtocol => "GeneralProtocol"@,
            H3Error::Internal => "Internal"@,
            H3Error::StreamCreation => "StreamCreation"@,
            H3Error::ClosedCriticalStream => "ClosedCriticalStream"@,
            H3Error::FrameUnexpected => "FrameUnexpected"@,
            H3Error::FrameError => "FrameError"@,
            H3Error::ExcessiveLoad => "ExcessiveLoad"@,
            H3Error::Id => "Id"@,
            H3Error::Settings => "Settings"@,
            H3Error::MissingSettings => "MissingSettings"@,
            H3Error::RequestRejected => "RequestRejected"@,
            H3Error::RequestCancelled => "RequestCancelled"@,
            H3Error::RequestIncomplete => "RequestIncomplete"@,
            H3Error::Message => "Message"@,
            H3Error::Connect => "Connect"@,
            H3Error::VersionFallback => "VersionFallback"@,
        }) + " ("@ + (seq!['0', 'x'] + error::hex_digits(e.code_spec() as nat, 4)) + ")"@,
{
}

/// The codes of the QPACK errors.
pub proof fn lemma_qpack_codes(e: QpackError, code: u16)
    requires
        call_ensures(QpackError::code, (e,), code),
    ensures
        e is DecompressionFailed ==> code == 0x0200,
        e is EncoderStream ==> code == 0x0201,
        e is DecoderStream ==> code == 0x0202,
{
}

/// The codes that a failure of a request, of a frame or of the control plane is
/// answered with.
pub proof fn lemma_failure_codes(
    stream: &StreamError,
    frame: FrameError,
    control: &ControlError,
    a: u64,
    b: u64,
    c: u64,
    scoped: bool,
)
    requires
        call_ensures(StreamError::h3_code, (stream,), a),
        call_ensures(FrameError::h3_code, (frame,), b),
        call_ensures(ControlError::h3_code, (control,), c),
        call_ensures(StreamError::is_stream_scoped, (stream,), scoped),
    ensures
        a == match *stream {
            StreamError::Transport(TransportError::Closed { code }) => code,
            StreamError::Transport(_) => 0x0102u64,
            StreamError::Frame => 0x0106u64,
            StreamError::FrameUnexpected => 0x0105u64,
            StreamError::Message => 0x010eu64,
            StreamError::HeadersTooBig { .. } => 0x010eu64,
            StreamError::Qpack(QpackError::DecompressionFailed) => 0x0200u64,
            StreamError::Qpack(QpackError::EncoderStream) => 0x0201u64,
            StreamError::Qpack(QpackError::DecoderStream) => 0x0202u64,
        },
        b == match frame {
            FrameError::Frame => 0x0106u64,
            FrameError::Unexpected(_) => 0x0105u64,
            FrameError::Settings => 0x0109u64,
        },
        c == match *control {
            ControlError::Transport(_) => 0x0101u64,
            ControlError::StreamCreation => 0x0103u64,
            ControlError::ClosedCriticalStream => 0x0104u64,
            ControlError::FrameUnexpected => 0x0105u64,
            ControlError::Frame => 0x0106u64,
            ControlError::Id => 0x0108u64,
            ControlError::Settings => 0x0109u64,
            ControlError::MissingSettings => 0x010au64,
            ControlError::Qpack(QpackError::DecompressionFailed) => 0x0200u64,
            ControlError::Qpack(QpackError::EncoderStream) => 0x0201u64,
            ControlError::Qpack(QpackError::DecoderStream) => 0x0202u64,
        },
        scoped <==> (stream matches StreamError::Transport(e) && (e is Reset || e is Stopped)),
{
}

/// What a transport reports keeps its code: a reset or a stop is one of the
/// stream, a close and a timeout are those of the connection, and what carries no
/// code is no more than a failure.
pub proof fn lemma_transport_failures(
    read: ReadFailure,
    write: WriteFailure,
    lost: ConnectionFailure,
    a: TransportError,
    b: TransportError,
    c: TransportError,
)
    requires
        call_ensures(transport::map_read_error, (read,), a),
        call_ensures(transport::map_write_error, (write,), b),
        call_ensures(transport::map_connection_error, (lost,), c),
    ensures
        read matches ReadFailure::Reset(code) ==> a == (TransportError::Reset { code }),
        write matches WriteFailure::Stopped(code) ==> b == (TransportError::Stopped { code }),
        lost matches ConnectionFailure::ApplicationClosed(code) ==> c == (TransportError::Closed {
            code,
        }),
        lost is TimedOut ==> c is Timeout,
        lost is Lost ==> c is Transport,
        read == ReadFailure::ConnectionLost(lost) ==> a == c,
        write == WriteFailure::ConnectionLost(lost) ==> b == c,
        read is ClosedStream ==> a == (TransportError::Closed { code: 0 }),
        write is ClosedStream ==> b == (TransportError::Closed { code: 0 }),
        read is IllegalOrderedRead || read is ZeroRttRejected ==> a is Transport,
        write is ZeroRttRejected ==> b is Transport,
{
    match lost {
        ConnectionFailure::ApplicationClosed(code) => transport::lemma_lost_connections(code),
        _ => transport::lemma_lost_connections(0),
    }
}

/// The control stream of an endpoint is its first unidirectional one.
pub proof fn lemma_control_streams(server: u64, client: u64)
    requires
        call_ensures(transport::control_stream_id, (true,), server),
        call_ensures(transport::control_stream_id, (false,), client),
    ensures
        server == 3,
        client == 2,
{
}

/// What a caller offers is written: a fresh slice joins what is to be written, and
/// what is to be written is what the transport is shown.
pub proof fn lemma_offers_are_written(
    s: &mut SendStage,
    at: usize,
    data: &[u8],
    later: &SendStage,
    shown: &[u8],
)
    requires
        call_ensures(SendStage::offer, (s, at, data), ()),
        later@ == final(s)@,
        call_ensures(SendStage::pending, (later,), shown),
    ensures
        data@.len() > 0 && old(s)@.in_flight != Some((at, data@.len() as usize)) ==> {
            &&& shown@ == old(s)@.buf + data@
            &&& final(s)@.in_flight == Some((at, data@.len() as usize))
        },
        data@.len() == 0 || old(s)@.in_flight == Some((at, data@.len() as usize)) ==> {
            &&& shown@ == old(s)@.buf
            &&& final(s)@.in_flight == old(s)@.in_flight
        },
{
}

/// What the transport takes leaves the front, and nothing else does.
pub proof fn lemma_taken_octets_leave(s: &mut SendStage, n: usize)
    requires
        call_ensures(SendStage::took, (s, n), ()),
        n <= old(s)@.buf.len(),
    ensures
        old(s)@.buf.take(n as int) + final(s)@.buf == old(s)@.buf,
        final(s)@.buf.len() == old(s)@.buf.len() - n,
        final(s)@.in_flight == old(s)@.in_flight,
{
    transport::lemma_every_octet_is_staged(old(s)@, 0, Seq::empty(), n as nat);
}

/// A stage is flushed once nothing is left in it, and then takes any slice as a
/// fresh one.
pub proof fn lemma_flushed_stages_start_over(s: &mut SendStage, r: bool)
    requires
        call_ensures(SendStage::is_flushed, (s,), r),
    ensures
        r <==> old(s)@.buf.len() == 0,
        final(s)@.buf == old(s)@.buf,
        r ==> final(s)@.in_flight is None,
        !r ==> final(s)@.in_flight == old(s)@.in_flight,
{
}

/// What is read of an upgraded stream is what arrived, in order: a read takes as
/// much of it as there is room for, and leaves the rest.
pub proof fn lemma_upgraded_reads(b: &mut ReadBuffer, room: usize, r: Bytes)
    requires
        call_ensures(ReadBuffer::read, (b, room), r),
    ensures
        octets::content(r) + final(b)@ == old(b)@,
        octets::content(r).len() <= room,
        final(b)@.len() > 0 ==> octets::content(r).len() == room,
{
    assert(octets::content(r) + final(b)@ =~= old(b)@);
}

/// A chunk that arrived is delivered, all of it; an empty one is passed over, and
/// the end is told.
pub proof fn lemma_upgraded_chunks(b: &mut ReadBuffer, chunk: Option<Bytes>, r: ReadAction)
    requires
        call_ensures(ReadBuffer::fill, (b, chunk), r),
        old(b)@.len() == 0,
    ensures
        chunk is None <==> r is End,
        chunk matches Some(data) ==> final(b)@ == octets::content(data),
        chunk is None ==> final(b)@.len() == 0,
        r is Deliver <==> final(b)@.len() > 0,
{
}

/// The send task of an upgraded stream sends what it receives, finishes once the
/// application closed its side, and ends at the first failure.
pub proof fn lemma_upgraded_writes(a: &mut SendTask, open: bool, b: &mut SendTask, ok: bool)
    requires
        call_ensures(SendTask::on_received, (a, open), ()),
        call_ensures(SendTask::on_done, (b, ok), ()),
    ensures
        *old(a) is Waiting && open ==> *final(a) is Sending,
        *old(a) is Waiting && !open ==> *final(a) is Finishing,
        !(*old(a) is Waiting) ==> *final(a) == *old(a),
        *old(b) is Sending && ok ==> *final(b) is Waiting,
        *old(b) is Sending && !ok ==> *final(b) == (SendTask::Over { failed: true }),
        *old(b) is Finishing ==> *final(b) == (SendTask::Over { failed: !ok }),
        *old(b) is Waiting || *old(b) is Over ==> *final(b) == *old(b),
{
}

/// What the parameters of a SETTINGS frame are after one more is put in: the same,
/// with that one behind them; the first of an identifier is the one that is found.
pub proof fn lemma_parameters_are_kept(
    s: &mut Settings,
    id: u64,
    value: u64,
    later: &Settings,
    wanted: u64,
    found: Option<u64>,
    all: &[Setting],
)
    requires
        call_ensures(Settings::insert, (s, id, value), ()),
        later@ == final(s)@,
        call_ensures(Settings::get, (later, wanted), found),
        call_ensures(Settings::iter, (later,), all),
    ensures
        all@.len() == old(s)@.len() + 1,
        all@[old(s)@.len() as int] == (id, value),
        forall|i: int| 0 <= i < old(s)@.len() ==> #[trigger] all@[i] == old(s)@[i],
        found is Some <==> exists|i: int| 0 <= i < all@.len() && (#[trigger] all@[i]).0 == wanted,
        found matches Some(v) ==> exists|i: int|
            {
                &&& 0 <= i < all@.len()
                &&& #[trigger] all@[i] == (wanted, v)
                &&& forall|j: int| 0 <= j < i ==> (#[trigger] all@[j]).0 != wanted
            },
{
    lemma_first_parameter(all@, wanted);
}

/// The parameter that is found is the first of its identifier.
proof fn lemma_first_parameter(list: Seq<Setting>, wanted: u64)
    ensures
        frame::setting_of(list, wanted) is Some <==> exists|i: int|
            0 <= i < list.len() && (#[trigger] list[i]).0 == wanted,
        frame::setting_of(list, wanted) matches Some(v) ==> exists|i: int|
            {
                &&& 0 <= i < list.len()
                &&& #[trigger] list[i] == (wanted, v)
                &&& forall|j: int| 0 <= j < i ==> (#[trigger] list[j]).0 != wanted
            },
    decreases list.len(),
{
    if list.len() > 0 && list[0].0 != wanted {
        let rest = list.skip(1);
        lemma_first_parameter(rest, wanted);
        if frame::setting_of(list, wanted) is Some {
            let v = frame::setting_of(list, wanted).unwrap();
            let i = choose|i: int|
                {
                    &&& 0 <= i < rest.len()
                    &&& #[trigger] rest[i] == (wanted, v)
                    &&& forall|j: int| 0 <= j < i ==> (#[trigger] rest[j]).0 != wanted
                };
            assert(list[i + 1] == (wanted, v));
            assert forall|j: int| 0 <= j < i + 1 implies (#[trigger] list[j]).0 != wanted by {
                if j > 0 {
                    assert(list[j] == rest[j - 1]);
                }
            }
        } else {
            assert forall|i: int| 0 <= i < list.len() implies (#[trigger] list[i]).0 != wanted by {
                if i > 0 {
                    assert(list[i] == rest[i - 1]);
                }
            }
        }
    } else if list.len() > 0 {
        assert(list[0] == (wanted, list[0].1));
    }
}

/// Whether a connection handler went through `states`, one for each event of
/// `events` behind the first.
pub open spec fn handled(states: Seq<ConnectionAction>, events: Seq<ConnectionEvent>) -> bool {
    &&& states.len() == events.len() + 1
    &&& forall|i: int|
        0 <= i < events.len() ==> call_ensures(
            ConnectionAction::advance,
            (states[i], #[trigger] events[i]),
            states[i + 1],
        )
}

/// Whatever happens to a connection, its handler serves a request exactly where
/// one arrives while it waits for one, and goes back to waiting behind it; once it
/// returned, nothing changes any more.
pub proof fn lemma_handler_serves_every_request(
    states: Seq<ConnectionAction>,
    events: Seq<ConnectionEvent>,
    i: int,
)
    requires
        handled(states, events),
        0 <= i < events.len(),
    ensures
        states[i] is Accept && events[i] == ConnectionEvent::Accept(AcceptOutcome::Request)
            ==> states[i + 1] is Serve,
        states[i] is Serve && events[i] is Served ==> states[i + 1] is Accept,
        states[i + 1] is Serve && !(states[i] is Serve) ==> states[i] is Accept && events[i]
            == ConnectionEvent::Accept(AcceptOutcome::Request),
        states[i] is Serve && !(events[i] is Served) ==> states[i + 1] is Serve,
        states[i] is Return ==> states[i + 1] == states[i],
        states[i + 1] is Return && !(states[i] is Return) ==> states[i] is Handshake || states[i]
            is Accept || states[i] is Shutdown || states[i] is Drain,
{
    assert(call_ensures(ConnectionAction::advance, (states[i], events[i]), states[i + 1]));
    assert(states[i + 1] == states[i].next(events[i]));
    handler::lemma_connection_life(true);
}

/// A request is planned by its method and by its `expect` field: CONNECT alone
/// can be taken over, and `100 Continue` is sent where the peer waits for it and
/// the endpoint may send it.
pub proof fn lemma_requests_are_planned(
    method: &[u8],
    headers: &HeaderMap,
    allowed: bool,
    r: RequestPlan,
    s: Serving,
)
    requires
        call_ensures(handler::plan_request, (method, headers, allowed), r),
        call_ensures(Serving::new, (r,), s),
    ensures
        r.upgradable <==> method@ == seq![0x43u8, 0x4f, 0x4e, 0x4e, 0x45, 0x43, 0x54],
        r.send_continue <==> allowed && handler::expects_continue(handler::held_fields(*headers)),
        s.upgradable == r.upgradable,
        s.doing is SendContinue <==> r.send_continue,
        !r.send_continue ==> s.doing == (ServeAction::Handle { hints: true }),
{
    message::lemma_names_spelled();
    handler::lemma_before_the_response(r, s, true, true);
}

/// A response loses no field but those that HTTP/3 forbids, and keeps the values of
/// the others in order.
pub proof fn lemma_clean_responses(headers: &mut HeaderMap, name: Seq<u8>)
    requires
        call_ensures(handler::remove_invalid_http3_headers, (headers,), ()),
    ensures
        ({
            let before = handler::held_fields(*old(headers));
            let after = handler::held_fields(*final(headers));
            let te = seq![0x74u8, 0x65];
            &&& name != te ==> (after.contains_key(name) <==> before.contains_key(name)
                && !handler::connection_specific(name))
            &&& after.contains_key(te) <==> before.contains_key(te) && handler::te_allowed(before)
            &&& after.contains_key(name) ==> after[name] == before[name]
        }),
{
    handler::lemma_forbidden_fields(name, handler::held_fields(*old(headers)));
    reveal_strlit("te");
    message::lemma_spelled("te");
    assert(message::spelled("te") =~= seq![0x74u8, 0x65]);
}

/// A response that is prepared keeps the values of its fields, gets the date and
/// the length of its body where it has none, and no other field.
pub proof fn lemma_prepared_responses(
    headers: &mut HeaderMap,
    date: Option<Bytes>,
    end_stream: bool,
    body_length: Option<u64>,
    r: bool,
    name: Seq<u8>,
)
    requires
        call_ensures(handler::prepare_response, (headers, date, end_stream, body_length), r),
    ensures
        ({
            let before = handler::held_fields(*old(headers));
            let sent = handler::held_fields(*final(headers));
            r ==> {
                &&& before.contains_key(name) && !handler::connection_specific(name) && name
                    != seq![0x74u8, 0x65] ==> sent.contains_key(name) && sent[name] == before[name]
                &&& sent.contains_key(name) && !before.contains_key(name) ==> {
                    ||| name == handler::date_name() && date is Some && sent[name] == seq![
                        octets::content(date.unwrap()),
                    ]
                    ||| {
                        &&& name == handler::content_length_name()
                        &&& !end_stream
                        &&& body_length is Some
                        &&& sent[name].len() == 1
                        &&& handler::digits_value(sent[name][0]) == body_length.unwrap()
                    }
                }
                &&& date is Some ==> sent.contains_key(handler::date_name())
                &&& !end_stream && body_length is Some ==> sent.contains_key(
                    handler::content_length_name(),
                )
            }
        }),
        handler::held_fields(*old(headers)).dom().len() < 6_553 ==> r,
{
    handler::lemma_response_is_complete(
        handler::held_fields(*old(headers)),
        message::held(date),
        end_stream,
        body_length,
        name,
    );
}

/// What a request stream has once a poll took in what the transport had.
pub open spec fn with(s: StreamState, received: Received) -> Seq<u8> {
    match received {
        Received::Chunk(b) => s.buf + octets::content(b),
        _ => s.buf,
    }
}

/// A request that arrived whole is the request that its lines make, and what
/// follows its frame is kept.
pub proof fn lemma_polled_requests(
    s: &mut RequestStream,
    c: &mut SharedCodecs,
    received: Received,
    now: u64,
    r: Result<Polled<Option<RequestHead>>, StreamError>,
    block: Seq<u8>,
    list: Seq<Field>,
    tail: Seq<u8>,
)
    requires
        call_ensures(RequestStream::poll_headers, (s, c, received, now), r),
        old(s)@.awaiting_headers,
        !old(s)@.headers_blocked,
        !(received is End),
        frame::next_frame(with(old(s)@, received)) == (
            Ok::<Option<FrameValue>, FrameError>(Some(FrameValue::Headers(block))),
            tail,
        ),
        old(c)@.decode(block, old(s)@.stream_id, now).1 == Ok::<Option<Seq<Field>>, QpackError>(
            Some(list),
        ),
    ensures
        final(s)@.buf == tail,
        match message::request_of(list) {
            Some(v) => r matches Ok(Polled::Ready(Some(head))) && head@ == v,
            None => r == Err::<Polled<Option<RequestHead>>, StreamError>(StreamError::Message),
        },
        message::request_of(list) is Some ==> final(s)@ == (StreamState {
            buf: tail,
            awaiting_headers: false,
            ..old(s)@
        }),
{
    let e = Exchange { stream: old(s)@.fed(received.data()), codecs: old(c)@ };
    assert(e.stream.buf =~= with(old(s)@, received));
    assert(reading::ahead(e, Seq::empty()) =~= e.stream.buf);
    reading::lemma_request_arrives(e, Seq::empty(), block, list, tail, now);
    let (x, left, v) = reading::read_request(e, Seq::empty(), now);
    assert(reading::ahead(x, Seq::empty()) =~= x.stream.buf);
}

/// A DATA frame that arrived whole is handed on, all of it, and what follows it is
/// kept.
pub proof fn lemma_polled_data(
    s: &mut RequestStream,
    c: &mut SharedCodecs,
    received: Received,
    now: u64,
    r: Result<Polled<Option<Bytes>>, StreamError>,
    data: Seq<u8>,
    tail: Seq<u8>,
)
    requires
        call_ensures(RequestStream::poll_recv_data, (s, c, received, now), r),
        reading::in_body(old(s)@),
        !(received is End),
        frame::next_frame(with(old(s)@, received)) == (
            Ok::<Option<FrameValue>, FrameError>(Some(FrameValue::Data(data))),
            tail,
        ),
    ensures
        r matches Ok(Polled::Ready(Some(b))) && octets::content(b) == data,
        final(s)@ == (StreamState { buf: tail, ..old(s)@ }),
        final(c)@ == old(c)@,
{
    let e = Exchange { stream: old(s)@.fed(received.data()), codecs: old(c)@ };
    assert(e.stream.buf =~= with(old(s)@, received));
    assert(e.stream.buf + reading::joined(Seq::empty()) =~= e.stream.buf);
    reading::lemma_frame_arrives(e.stream, Seq::empty());
    let (t, left, ended) = reading::waited(e.stream, Seq::empty());
    assert(t == e.stream);
    let next = e.stream.next(false).0;
    assert(next.buf + reading::joined(left) =~= next.buf);
}

/// Trailers that arrived whole are the fields of their section, all of them.
pub proof fn lemma_polled_trailers(
    s: &mut RequestStream,
    c: &mut SharedCodecs,
    received: Received,
    now: u64,
    r: Result<Polled<Option<Vec<(Bytes, Bytes)>>>, StreamError>,
    block: Seq<u8>,
    list: Seq<Field>,
    tail: Seq<u8>,
)
    requires
        call_ensures(RequestStream::poll_recv_trailers, (s, c, received, now), r),
        reading::in_body(old(s)@),
        !(received is End),
        frame::next_frame(with(old(s)@, received)) == (
            Ok::<Option<FrameValue>, FrameError>(Some(FrameValue::Headers(block))),
            tail,
        ),
        old(c)@.decode(block, old(s)@.stream_id, now).1 == Ok::<Option<Seq<Field>>, QpackError>(
            Some(list),
        ),
    ensures
        final(s)@.buf == tail,
        match message::trailers_of(list) {
            Some(t) => r matches Ok(Polled::Ready(Some(v))) && octets::fields(v@) == t,
            None => r == Err::<Polled<Option<Vec<(Bytes, Bytes)>>>, StreamError>(
                StreamError::Message,
            ),
        },
{
    let e = Exchange { stream: old(s)@.fed(received.data()), codecs: old(c)@ };
    assert(e.stream.buf =~= with(old(s)@, received));
    assert(e.stream.buf + reading::joined(Seq::empty()) =~= e.stream.buf);
    reading::lemma_frame_arrives(e.stream, Seq::empty());
    let (t, left, ended) = reading::waited(e.stream, Seq::empty());
    assert(t == e.stream);
    let next = e.stream.next(false).0;
    assert(next.buf + reading::joined(left) =~= next.buf);
}

/// A stream is finished once everything that was queued on it was written, in
/// order.
pub proof fn lemma_finished_streams(s: &mut RequestStream, written: bool, r: Option<Bytes>)
    requires
        call_ensures(RequestStream::poll_finish, (s, written), r),
        written ==> old(s)@.send_buf.len() > 0,
    ensures
        final(s)@ == rested(old(s)@, written),
        r is None <==> rested(old(s)@, written).send_buf.len() == 0,
        r matches Some(b) ==> octets::content(b) == rested(old(s)@, written).send_buf[0],
{
    if written {
        sending::lemma_writes_are_taken_in_order(old(s)@);
    }
}

/// A frame that is written behind anything is read back, and nothing is left of
/// it.
pub proof fn lemma_written_frames_are_read(
    f: &Frame,
    dst: &mut BytesMut,
    d: &mut FrameDecoder,
    r: Result<Option<Frame>, FrameError>,
    rest: Seq<u8>,
)
    requires
        call_ensures(Frame::encode, (f, dst), ()),
        frame::frame_fits(f@),
        !(f is Settings),
        octets::buffered(*old(dst)).len() == 0,
        call_ensures(FrameDecoder::next_frame, (d,), r),
        old(d)@ == octets::buffered(*final(dst)) + rest,
    ensures
        r matches Ok(Some(g)) && g@ == f@,
        final(d)@ == rest,
{
    frame::lemma_frame_round_trip(f@, rest);
    assert(octets::buffered(*old(dst)) + frame::frame_octets(f@) =~= frame::frame_octets(f@));
}

/// A number that is written is read back, in as many octets as its size says.
pub proof fn lemma_written_numbers_are_read(
    value: u64,
    dst: &mut BytesMut,
    buf: &[u8],
    r: Result<Option<(u64, usize)>, FrameError>,
    size: usize,
    rest: Seq<u8>,
)
    requires
        value <= 0x3fff_ffff_ffff_ffff,
        call_ensures(frame::write_varint, (value, dst), ()),
        call_ensures(frame::varint_size, (value,), size),
        octets::buffered(*old(dst)).len() == 0,
        buf@ == octets::buffered(*final(dst)) + rest,
        call_ensures(frame::parse_varint, (buf,), r),
    ensures
        r == Ok::<Option<(u64, usize)>, FrameError>(Some((value, size))),
        octets::buffered(*final(dst)).len() == size,
        size == if value < 0x40 {
            1
        } else if value < 0x4000 {
            2
        } else if value < 0x4000_0000 {
            4
        } else {
            8int
        },
{
    assert(octets::buffered(*old(dst)) + frame::varint_octets(value as nat)
        =~= frame::varint_octets(value as nat));
    frame::lemma_varint_round_trip(value as nat, rest);
    frame::lemma_varint_layout(value as nat);
}

/// What a decoder is given joins what it holds.
pub proof fn lemma_decoders_keep_octets(
    d: &mut FrameDecoder,
    data: Bytes,
    later: &FrameDecoder,
    n: usize,
)
    requires
        call_ensures(FrameDecoder::extend, (d, data), ()),
        later@ == final(d)@,
        call_ensures(FrameDecoder::buffered, (later,), n),
    ensures
        final(d)@ == old(d)@ + octets::content(data),
        n == old(d)@.len() + octets::content(data).len(),
{
}

/// What an endpoint encodes, the peer that is fed its instructions decodes to the
/// same list.
pub proof fn lemma_codecs_understand_each_other(
    c: &mut SharedCodecs,
    stream_id: u64,
    lines: &[(Bytes, Bytes)],
    block: Option<Bytes>,
    peer: &mut SharedCodecs,
    instructions: &[u8],
    acks: Result<Bytes, QpackError>,
    later: &mut SharedCodecs,
    section: &[u8],
    now: u64,
    r: Result<Option<Vec<(Bytes, Bytes)>>, QpackError>,
)
    requires
        call_ensures(SharedCodecs::encode_section, (c, stream_id, lines), block),
        call_ensures(SharedCodecs::feed_encoder_stream, (peer, instructions), acks),
        call_ensures(SharedCodecs::decode_block, (later, section, stream_id, now), r),
        old(c)@.encoder is Some,
        old(c)@.encoder.unwrap().valid(),
        old(c)@.encoder.unwrap().max_capacity <= u64::MAX,
        old(c)@.encoder.unwrap().table.inserted + lines@.len() <= u64::MAX,
        laws::list_fits(octets::fields(lines@)),
        old(peer)@.decoder.valid(),
        old(peer)@.decoder.blocked.len() == 0,
        laws::mirrors(old(peer)@.decoder, old(c)@.encoder.unwrap()),
        codecs::queued_octets(final(c)@.encoder_stream) == codecs::queued_octets(
            old(c)@.encoder_stream,
        ) + instructions@,
        later@ == final(peer)@,
        block matches Some(b) ==> section@ == octets::content(b),
        decoder::saturated(
            old(peer)@.decoder.charged_to(stream_id) + decoder::list_size(octets::fields(lines@)),
        ) <= old(peer)@.decoder.max_field_section_size,
    ensures
        block is Some,
        acks is Ok,
        r matches Ok(Some(v)) && octets::fields(v@) == octets::fields(lines@),
{
    let list = octets::fields(lines@);
    let e = old(c)@.encoder.unwrap();
    let d = old(peer)@.decoder;
    codecs::lemma_sections_are_encoded(old(c)@, stream_id, list);
    let sent = e.section_stream(list, e.known_received);
    let queued = codecs::queued_octets(old(c)@.encoder_stream);
    assert(instructions@ =~= (queued + instructions@).skip(queued.len() as int));
    assert(sent =~= (queued + sent).skip(queued.len() as int));
    assert(d.blocked =~= Seq::empty());
    laws::lemma_end_to_end(e, d, stream_id, list, e.known_received, now);
    let fed = d.feed_encoder(sent).0;
    laws::lemma_decode_ignores_outgoing(
        fed,
        (DecoderState { outgoing: Seq::empty(), ..fed }),
        e.section_block(list, e.known_received),
        stream_id,
        now,
    );
}

/// An endpoint without the peer's SETTINGS cannot encode.
pub proof fn lemma_encoding_needs_settings(
    c: &mut SharedCodecs,
    stream_id: u64,
    lines: &[(Bytes, Bytes)],
    block: Option<Bytes>,
)
    requires
        call_ensures(SharedCodecs::encode_section, (c, stream_id, lines), block),
    ensures
        block is Some <==> old(c)@.encoder is Some,
        old(c)@.encoder is None ==> final(c)@ == old(c)@,
{
    codecs::lemma_sections_are_encoded(old(c)@, stream_id, octets::fields(lines@));
}

/// What is queued for the peer is handed out once, all of it and in order.
pub proof fn lemma_queues_are_handed_out(
    c: &mut SharedCodecs,
    instructions: VecDeque<Bytes>,
    d: &mut SharedCodecs,
    replies: Bytes,
)
    requires
        call_ensures(SharedCodecs::take_encoder_streams, (c,), instructions),
        call_ensures(SharedCodecs::take_decoder_stream, (d,), replies),
    ensures
        instructions@.len() == old(c)@.encoder_stream.len(),
        forall|i: int|
            0 <= i < instructions@.len() ==> octets::content(#[trigger] instructions@[i])
                == old(c)@.encoder_stream[i],
        final(c)@.encoder_stream.len() == 0,
        octets::content(replies) == old(d)@.decoder.outgoing,
        final(d)@.decoder.outgoing.len() == 0,
{
    codecs::lemma_queues_stand_for_themselves(Map::empty(), instructions@, 0);
    codecs::lemma_streams_are_over(old(d)@, 0, 0);
    assert forall|i: int| 0 <= i < instructions@.len() implies octets::content(
        #[trigger] instructions@[i],
    ) == old(c)@.encoder_stream[i] by {
        assert(codecs::contents(instructions@)[i] == octets::content(instructions@[i]));
    }
}

/// A section that was unblocked goes to its stream, the oldest first, once.
pub proof fn lemma_unblocked_sections_are_handed_out(
    c: &mut SharedCodecs,
    stream_id: u64,
    r: Option<UnblockedSection>,
    other: u64,
)
    requires
        call_ensures(SharedCodecs::take_unblocked_for, (c, stream_id), r),
    ensures
        ({
            let mine = codecs::queue_of(old(c)@.unblocked, stream_id);
            let left = codecs::queue_of(final(c)@.unblocked, stream_id);
            &&& r is Some <==> mine.len() > 0
            &&& r matches Some(s) ==> s.stream_id == stream_id && octets::fields(s.headers@)
                == mine[0] && left == mine.skip(1)
            &&& r is None ==> left == mine
            &&& other != stream_id ==> codecs::queue_of(final(c)@.unblocked, other)
                == codecs::queue_of(old(c)@.unblocked, other)
        }),
{
    codecs::lemma_unblocked_in_order(old(c)@, Seq::empty(), stream_id, other);
}

/// What an endpoint may be fed or asked to encode: as long as the insertions can be
/// counted, up to 2^62.
pub proof fn lemma_room(c: &SharedCodecs, n: usize, feed: bool, encode: bool)
    requires
        call_ensures(SharedCodecs::can_feed, (c, n), feed),
        call_ensures(SharedCodecs::can_encode, (c, n), encode),
    ensures
        feed <==> c@.decoder.table.inserted + c@.decoder.encoder_pending.len() + n
            <= 0x4000_0000_0000_0000,
        encode <==> c@.encoder is None || c@.encoder.unwrap().table.inserted + n
            <= 0x4000_0000_0000_0000,
{
}

/// What a peer announces is what is known of it: the last value of each identifier,
/// and what was known before where it announces none.
pub proof fn lemma_announcements_are_known(
    p: &mut PeerSettings,
    announced: &Settings,
    later: &PeerSettings,
    capacity: u64,
    size: Option<u64>,
    streams: u64,
    connect: bool,
)
    requires
        call_ensures(PeerSettings::apply, (p, announced), ()),
        later@ == final(p)@,
        call_ensures(PeerSettings::qpack_max_table_capacity, (later,), capacity),
        call_ensures(PeerSettings::max_field_section_size, (later,), size),
        call_ensures(PeerSettings::qpack_blocked_streams, (later,), streams),
        call_ensures(PeerSettings::enable_connect_protocol, (later,), connect),
    ensures
        capacity == match signalling::last_of(announced@, 0x01) {
            Some(n) => n,
            None => old(p)@.qpack_max_table_capacity,
        },
        size == match signalling::last_of(announced@, 0x06) {
            Some(n) => Some(n),
            None => old(p)@.max_field_section_size,
        },
        streams == match signalling::last_of(announced@, 0x07) {
            Some(n) => n,
            None => old(p)@.qpack_blocked_streams,
        },
        connect == match signalling::last_of(announced@, 0x08) {
            Some(n) => n != 0,
            None => old(p)@.enable_connect_protocol,
        },
{
    signalling::lemma_parameters_are_heard(old(p)@, announced@);
}

/// What an endpoint announces is what it is set to; what it does not announce has
/// the value that a peer takes for granted.
pub proof fn lemma_settings_are_told(
    local: &LocalSettings,
    r: Settings,
    valid: bool,
    fresh: PeerValues,
)
    requires
        call_ensures(LocalSettings::to_frame, (local,), r),
        call_ensures(LocalSettings::is_valid, (local,), valid),
        fresh == PeerValues::initial(),
    ensures
        signalling::last_of(r@, 0x01) == Some(local.qpack_max_table_capacity),
        signalling::last_of(r@, 0x07) == Some(local.qpack_blocked_streams),
        signalling::last_of(r@, 0x06) == local.max_field_section_size,
        signalling::last_of(r@, 0x08) == if local.enable_connect_protocol {
            Some(1u64)
        } else {
            None
        },
        valid <==> local.qpack_max_table_capacity <= 0x3fff_ffff && local.qpack_blocked_streams
            <= 0x3fff_ffff_ffff_ffff && (local.max_field_section_size is None
            || local.max_field_section_size.unwrap() <= 0x3fff_ffff_ffff_ffff),
        fresh.qpack_max_table_capacity == 0,
        fresh.max_field_section_size is None,
        fresh.qpack_blocked_streams == 0,
        !fresh.enable_connect_protocol,
{
    signalling::lemma_settings_are_announced(*local);
}

/// What a poll of the control plane makes of a frame of the peer's control stream
/// that arrived whole: it is heard, and the poll goes on behind it.
pub proof fn lemma_polled_control_frames(
    c: &mut ControlStreams,
    codecs: &mut SharedCodecs,
    data: Bytes,
    r: Result<ReadStep, ControlError>,
    handle: u64,
    buf: Seq<u8>,
    f: FrameValue,
)
    requires
        call_ensures(ControlStreams::poll_read, (c, codecs, ReadReply::Chunk(data)), r),
        old(c)@.turn is Control,
        old(c)@.in_control == Some((handle, buf)),
        frame::next_frame(buf + octets::content(data)) == (
            Ok::<Option<FrameValue>, FrameError>(Some(f)),
            Seq::<u8>::empty(),
        ),
    ensures
        ({
            let p = Plane {
                control: ControlState { progressed: true, ..old(c)@ },
                codecs: old(codecs)@,
            };
            let q = signalling::holding(p, handle, Seq::empty());
            let heard = q.control_frame(f);
            &&& heard.1 matches Err(e) ==> r == Err::<ReadStep, ControlError>(e)
            &&& heard.1 is Ok ==> signalling::goes_on(
                heard.0,
                Turn::Control,
                (Plane { control: final(c)@, codecs: final(codecs)@ }, control::step_value(r)),
            )
        }),
{
    let chunk = octets::content(data);
    let before = Plane { control: old(c)@, codecs: old(codecs)@ };
    let p = Plane { control: ControlState { progressed: true, ..old(c)@ }, codecs: old(codecs)@ };
    let q = signalling::holding(p, handle, Seq::empty());
    let fed = signalling::holding(p, handle, buf + chunk);
    signalling::lemma_control_chunks_are_heard(before, handle, buf, chunk);
    frame::lemma_varint_layout(0);
    frame::lemma_unfinished_frames_are_kept(0, Seq::empty(), 0);
    assert(frame::shaped(0, Seq::empty()).take(0) =~= Seq::empty());
    let (after, said) = q.control_frame(f);
    if said is Ok {
        assert(after.frames() == (after, Ok::<(), ControlError>(())));
    }
    assert(fed.frames() == (after, said));
}

/// Which streams of the peer and of the endpoint the control plane holds.
pub proof fn lemma_held_streams(c: &ControlStreams, handle: u64, r: bool)
    requires
        call_ensures(ControlStreams::holds, (c, handle), r),
    ensures
        r <==> {
            ||| c@.out_control == Some(handle)
            ||| c@.out_encoder == Some(handle)
            ||| c@.out_decoder == Some(handle)
            ||| signalling::subject(c@, Turn::Classify) == Some(handle)
            ||| signalling::subject(c@, Turn::Control) == Some(handle)
            ||| signalling::subject(c@, Turn::Encoder) == Some(handle)
            ||| signalling::subject(c@, Turn::Decoder) == Some(handle)
            ||| signalling::subject(c@, Turn::Discard) == Some(handle)
        },
{
}

/// Each option is set to what it is called with, and the others stay.
pub proof fn lemma_options_are_set(
    o: Http3Options,
    capacity: u64,
    streams: u64,
    size: Option<u64>,
    connect: bool,
    time: Option<Duration>,
    send: bool,
    r: Http3Options,
)
    ensures
        call_ensures(Http3Options::qpack_max_table_capacity, (o, capacity), r) ==> {
            &&& r.local_settings.qpack_max_table_capacity == capacity
            &&& r.local_settings.qpack_blocked_streams == o.local_settings.qpack_blocked_streams
            &&& r.local_settings.max_field_section_size == o.local_settings.max_field_section_size
            &&& r.local_settings.enable_connect_protocol == o.local_settings.enable_connect_protocol
            &&& r == (Http3Options { local_settings: r.local_settings, ..o })
        },
        call_ensures(Http3Options::qpack_blocked_streams, (o, streams), r) ==> {
            &&& r.local_settings.qpack_blocked_streams == streams
            &&& r.local_settings.qpack_max_table_capacity
                == o.local_settings.qpack_max_table_capacity
            &&& r.local_settings.max_field_section_size == o.local_settings.max_field_section_size
            &&& r.local_settings.enable_connect_protocol == o.local_settings.enable_connect_protocol
            &&& r == (Http3Options { local_settings: r.local_settings, ..o })
        },
        call_ensures(Http3Options::max_field_section_size, (o, size), r) ==> {
            &&& r.local_settings.max_field_section_size == size
            &&& r.local_settings.qpack_max_table_capacity
                == o.local_settings.qpack_max_table_capacity
            &&& r.local_settings.qpack_blocked_streams == o.local_settings.qpack_blocked_streams
            &&& r.local_settings.enable_connect_protocol == o.local_settings.enable_connect_protocol
            &&& r == (Http3Options { local_settings: r.local_settings, ..o })
        },
        call_ensures(Http3Options::enable_connect_protocol, (o, connect), r) ==> {
            &&& r.local_settings.enable_connect_protocol == connect
            &&& r.local_settings.qpack_max_table_capacity
                == o.local_settings.qpack_max_table_capacity
            &&& r.local_settings.qpack_blocked_streams == o.local_settings.qpack_blocked_streams
            &&& r.local_settings.max_field_section_size == o.local_settings.max_field_section_size
            &&& r == (Http3Options { local_settings: r.local_settings, ..o })
        },
        call_ensures(Http3Options::accept_timeout, (o, time), r) ==> r == (Http3Options {
            accept_timeout: time,
            ..o
        }),
        call_ensures(Http3Options::handshake_timeout, (o, time), r) ==> r == (Http3Options {
            handshake_timeout: time,
            ..o
        }),
        call_ensures(Http3Options::send_continue_response, (o, send), r) ==> r == (Http3Options {
            send_continue_response: send,
            ..o
        }),
        call_ensures(Http3Options::send_date_header, (o, send), r) ==> r == (Http3Options {
            send_date_header: send,
            ..o
        }),
        call_ensures(Http3Options::new, (), r) ==> {
            &&& r.accept_timeout == Some(options::seconds(30))
            &&& r.handshake_timeout == Some(options::seconds(30))
            &&& r.send_continue_response
            &&& r.send_date_header
            &&& r.local_settings.qpack_max_table_capacity == 0
            &&& r.local_settings.qpack_blocked_streams == 0
            &&& r.local_settings.max_field_section_size is None
            &&& !r.local_settings.enable_connect_protocol
        },
{
}

/// What a control plane tells of itself: the peer's settings as they were heard,
/// the push ID that the peer allowed last, the GOAWAY that was sent, if any, and what
/// it is busy with.
pub proof fn lemma_control_plane_tells(
    c: &ControlStreams,
    settled: bool,
    push: Option<u64>,
    goaway: Option<u64>,
    leaving: bool,
    classifying: bool,
    discarding: bool,
    peer: &PeerSettings,
)
    requires
        call_ensures(ControlStreams::settings_received, (c,), settled),
        call_ensures(ControlStreams::max_push_id, (c,), push),
        call_ensures(ControlStreams::goaway_sent, (c,), goaway),
        call_ensures(ControlStreams::shutting_down, (c,), leaving),
        call_ensures(ControlStreams::is_classifying, (c,), classifying),
        call_ensures(ControlStreams::is_discarding, (c,), discarding),
        call_ensures(ControlStreams::peer_settings, (c,), peer),
    ensures
        settled == c@.settings_received,
        push == c@.max_push_id,
        goaway == c@.goaway_sent,
        leaving <==> goaway is Some,
        classifying <==> signalling::subject(c@, Turn::Classify) is Some,
        discarding <==> signalling::subject(c@, Turn::Discard) is Some,
        peer@ == c@.peer,
{
}

/// A control plane starts with its own settings and nothing else: no stream is open,
/// nothing is queued, and nothing is known of the peer.
pub proof fn lemma_new_control_planes(local: LocalSettings, c: ControlStreams)
    requires
        call_ensures(ControlStreams::new, (local,), c),
    ensures
        c@.local == local,
        c@.unopened() == Some(Outbound::Control),
        c@.writes().len() == 0,
        c@.encoder_pending.len() == 0 && c@.decoder_pending.len() == 0,
        forall|turn: Turn| #[trigger] signalling::subject(c@, turn) is None,
        !c@.settings_received && c@.max_push_id is None && c@.goaway_sent is None,
        c@.events.len() == 0,
{
    signalling::lemma_new_plane(local);
}

/// The codecs start as the endpoint's own settings say, and cannot encode before the
/// peer's settings are there; then they encode as those say.
pub proof fn lemma_codecs_are_settled(
    local: &LocalSettings,
    fresh: SharedCodecs,
    c: &mut SharedCodecs,
    peer: &PeerSettings,
    later: &SharedCodecs,
    ready: bool,
    limit: Option<u64>,
    capacity: u64,
    size: Option<u64>,
)
    requires
        call_ensures(SharedCodecs::new, (local,), fresh),
        call_ensures(SharedCodecs::settle, (c, peer), ()),
        later@ == final(c)@,
        call_ensures(SharedCodecs::has_encoder, (later,), ready),
        call_ensures(SharedCodecs::peer_max_field_section_size, (later,), limit),
        call_ensures(PeerSettings::qpack_max_table_capacity, (peer,), capacity),
        call_ensures(PeerSettings::max_field_section_size, (peer,), size),
    ensures
        fresh@.encoder is None,
        fresh@.decoder.max_capacity == local.qpack_max_table_capacity,
        fresh@.decoder.table.inserted == 0,
        ready,
        limit == size,
        final(c)@.encoder matches Some(e) && {
            &&& e.max_capacity == capacity
            &&& e.table.inserted == 0
            &&& e.known_received == 0
            &&& e.compress
        },
        final(c)@ == (CodecsState {
            encoder: final(c)@.encoder,
            peer_limit: final(c)@.peer_limit,
            ..old(c)@
        }),
{
    codecs::lemma_new_codecs(*local);
    conduct::lemma_new_codecs(capacity as nat, true, 0);
}

/// What arrives on the peer's decoder stream goes to the encoder, if there is one,
/// and is checked; and a stream that is over is not charged for any more.
pub proof fn lemma_replies_are_heard(
    c: &mut SharedCodecs,
    chunk: &[u8],
    r: Result<(), QpackError>,
    d: &mut SharedCodecs,
    stream_id: u64,
)
    requires
        call_ensures(SharedCodecs::feed_decoder_stream, (c, chunk), r),
        call_ensures(SharedCodecs::stream_finished, (d, stream_id), ()),
    ensures
        old(c)@.encoder matches Some(e) ==> {
            &&& final(c)@.encoder == Some(e.feed_decoder(chunk@).0)
            &&& e.feed_decoder(chunk@).1 is Err ==> r == e.feed_decoder(chunk@).1
            &&& e.feed_decoder(chunk@).1 is Ok ==> r == old(c)@.decoder.feed_decoder(chunk@).1
        },
        old(c)@.encoder is None ==> r == old(c)@.decoder.feed_decoder(chunk@).1,
        final(d)@.decoder.charged_to(stream_id) == 0,
        final(d)@.encoder == old(d)@.encoder,
        final(d)@.unblocked == old(d)@.unblocked,
{
    codecs::lemma_decoder_stream_is_fed(old(c)@, chunk@);
    codecs::lemma_streams_are_over(old(d)@, stream_id, stream_id);
}

/// Everything that was unblocked is handed out at once, each section under its
/// stream, and nothing is left.
pub proof fn lemma_all_unblocked_sections_are_handed_out(
    c: &mut SharedCodecs,
    r: FxHashMap<u64, VecDeque<UnblockedSection>>,
    id: u64,
)
    requires
        call_ensures(SharedCodecs::take_unblocked, (c,), r),
    ensures
        final(c)@.unblocked == Map::<u64, Seq<Seq<Field>>>::empty(),
        r@.contains_key(id) <==> old(c)@.unblocked.contains_key(id),
        r@.contains_key(id) ==> r@[id]@.len() == old(c)@.unblocked[id].len(),
        r@.contains_key(id) ==> forall|i: int|
            0 <= i < r@[id]@.len() ==> octets::fields((#[trigger] r@[id]@[i]).headers@)
                == old(c)@.unblocked[id][i],
        final(c)@ == (CodecsState { unblocked: final(c)@.unblocked, ..old(c)@ }),
{
    codecs::lemma_queues_stand_for_themselves(r@, Seq::empty(), id);
    if r@.contains_key(id) {
        assert forall|i: int| 0 <= i < r@[id]@.len() implies octets::fields(
            (#[trigger] r@[id]@[i]).headers@,
        ) == old(c)@.unblocked[id][i] by {
            assert(codecs::queues(r@)[id][i] == octets::fields(r@[id]@[i].headers@));
        }
    }
}

/// A request stream starts with its ID, waiting for its request, and takes what fits
/// into memory.
pub proof fn lemma_new_request_streams(
    id: u64,
    s: RequestStream,
    t: &RequestStream,
    told: u64,
    received: &Received,
    fits: bool,
)
    requires
        call_ensures(RequestStream::new, (id,), s),
        call_ensures(RequestStream::id, (t,), told),
        call_ensures(RequestStream::accepts, (t, received), fits),
    ensures
        s@.stream_id == id,
        s@.awaiting_headers,
        s@.buf.len() == 0 && s@.send_buf.len() == 0,
        s@.pending_send is Idle,
        !s@.sent_headers && !s@.sent_trailers && !s@.recv_finished,
        told == t@.stream_id,
        fits <==> with(t@, *received).len() <= usize::MAX,
{
    reading::lemma_new_stream(id);
}

/// What a transport error is called, and of which kind of I/O error it is.
pub proof fn lemma_transport_errors_are_told(
    e: TransportError,
    text: String,
    kind: IoKind,
    code: u64,
)
    requires
        call_ensures(TransportError::message, (e,), text),
        call_ensures(TransportError::io_kind, (e,), kind),
    ensures
        ({
            let digits = seq!['0', 'x'] + error::hex_digits(code as nat, 1);
            &&& e == (TransportError::Closed { code }) ==> text@ == "connection closed with code "@
                + digits && kind is ConnectionAborted
            &&& e == (TransportError::Reset { code }) ==> text@ == "stream reset with code "@
                + digits && kind is ConnectionReset
            &&& e == (TransportError::Stopped { code }) ==> text@ == "stream stopped with code "@
                + digits && kind is ConnectionReset
        }),
        e is Timeout ==> kind is TimedOut,
        e is Transport || e is Other ==> kind is Other,
{
    error::lemma_transport_messages(code);
}

/// The type of the next frame is told as soon as it is there; a whole frame of an
/// unknown type is passed over.
pub proof fn lemma_peeked_types(
    d: &FrameDecoder,
    r: Option<u64>,
    ty: u64,
    unknown: nat,
    p: Seq<u8>,
    rest: Seq<u8>,
)
    requires
        call_ensures(FrameDecoder::peek_frame_type, (d,), r),
        ty == 0x00 || ty == 0x01 || ty == 0x03 || ty == 0x04 || ty == 0x05 || ty == 0x07 || ty
            == 0x0d,
        unknown <= 0x3fff_ffff_ffff_ffff,
        !frame::known_type(unknown),
        !frame::http2_only(unknown),
        p.len() <= 0x3fff_ffff_ffff_ffff,
        d@ == frame::varint_octets(ty as nat) + rest || d@ == frame::shaped(unknown, p) + (
        frame::varint_octets(ty as nat) + rest),
    ensures
        r == Some(ty),
{
    let a = frame::varint_octets(ty as nat);
    frame::lemma_varint_layout(ty as nat);
    frame::lemma_varint_round_trip(ty as nat, Seq::empty());
    frame::lemma_varint_round_trip(unknown, Seq::empty());
    frame::lemma_varint_round_trip(p.len(), Seq::empty());
    frame::lemma_varint_round_trip(0, Seq::empty());
    frame::lemma_types_are_peeked(ty as nat, Seq::empty(), rest, a.len() as int);
    frame::lemma_types_are_peeked(unknown, p, a + rest, frame::varint_octets(unknown).len() as int);
}

/// Which field sections make a request, with a URI that was given: those that are
/// well formed, and no others. Its method is that of its `:method` line, and its
/// headers are all of the fields behind the pseudo-header fields.
pub proof fn lemma_built_requests(
    headers: &[(Bytes, Bytes)],
    uri: Option<String>,
    r: Result<RequestHead, StreamError>,
    k: int,
)
    requires
        call_ensures(message::build_request_with_uri, (headers, uri), r),
        message::opens_with(octets::fields(headers@), k),
    ensures
        ({
            let list = octets::fields(headers@);
            &&& r is Ok <==> {
                &&& uri is Some
                &&& message::well_shaped(list, k)
                &&& exists|i: int|
                    0 <= i < k && (#[trigger] list[i]).0 == message::method_name()
                        && message::token(list[i].1) && message::well_formed(list, list[i].1)
            }
            &&& r is Err ==> r->Err_0 is Message
            &&& r matches Ok(head) ==> {
                &&& head@.uri == uri.unwrap()@
                &&& head@.headers.len() == list.len() - k
                &&& forall|i: int|
                    0 <= i < head@.headers.len() ==> (#[trigger] head@.headers[i]).0
                        == message::lower(list[k + i].0) && head@.headers[i].1 == list[k + i].1
            }
        }),
{
    let list = octets::fields(headers@);
    let text = match uri {
        Some(t) => Some(t@),
        None => None,
    };
    message::lemma_requests(list, text, k);
    if r is Ok {
        message::lemma_request_headers(list, text, k);
    }
}

} // verus!
