//! What a request stream sends, as its peer sees it.
//!
//! A response and its trailers arrive as they were given: the octets that a poll
//! queues are a HEADERS frame, and a peer that was fed the instructions queued
//! with it decodes that frame to the status and to all of the fields. What is
//! queued is written once and in order, and a poll that is repeated queues
//! nothing again.

use super::codecs::CodecsState;
use super::frame;
use super::frame::{FrameError, FrameValue, FRAME_HEADERS, MAX_VARINT};
use super::message;
use super::message::StreamError;
use super::qpack::decoder;
use super::qpack::{laws, QpackError};
use super::stream;
use super::stream::{joined, Exchange, PendingSend, SendValue, StreamState};
use crate::octets::Field;
use vstd::prelude::*;

verus! {

/// The octets of `:status`.
pub open spec fn status_name() -> Seq<u8> {
    seq![0x3au8, 0x73, 0x74, 0x61, 0x74, 0x75, 0x73]
}

/// Whether `value` is `status` in three decimal digits.
pub open spec fn spells(value: Seq<u8>, status: u16) -> bool {
    &&& value.len() == 3
    &&& forall|i: int| 0 <= i < 3 ==> 0x30 <= #[trigger] value[i] <= 0x39
    &&& 100 * (value[0] - 0x30) + 10 * (value[1] - 0x30) + (value[2] - 0x30) == status
}

/// Whether `list` is a status line and all of `headers` behind it, in order.
pub open spec fn is_response(list: Seq<Field>, status: u16, headers: Seq<Field>) -> bool {
    &&& list.len() == headers.len() + 1
    &&& list[0].0 == status_name()
    &&& spells(list[0].1, status)
    &&& forall|i: int| 0 <= i < headers.len() ==> #[trigger] list[i + 1] == headers[i]
}

/// A status is spelled in the three digits that make it up.
pub proof fn lemma_status_digits(status: u16)
    requires
        100 <= status <= 999,
    ensures
        spells(stream::status_octets(status), status),
{
    let o = stream::status_octets(status);
    assert(o[0] == 0x30 + status / 100);
    assert(o[1] == 0x30 + status / 10 % 10);
    assert(o[2] == 0x30 + status % 10);
    assert(100 * (status as int / 100) + 10 * (status as int / 10 % 10) + status as int % 10
        == status) by (nonlinear_arith)
        requires
            100 <= status <= 999,
    ;
}

/// The lines of a response are its status and its headers.
pub proof fn lemma_response_lines(status: u16, headers: Seq<Field>)
    requires
        100 <= status <= 999,
    ensures
        is_response(stream::response_fields(status, headers), status, headers),
{
    lemma_status_digits(status);
    reveal_strlit(":status");
    message::lemma_spelled(":status");
    assert(message::spelled(":status") =~= status_name());
    let list = stream::response_fields(status, headers);
    assert forall|i: int| 0 <= i < headers.len() implies #[trigger] list[i + 1] == headers[i] by {}
}

/// What was queued on a stream since `before`.
pub open spec fn queued_since(before: StreamState, after: StreamState) -> Seq<u8> {
    joined(after.send_buf).skip(joined(before.send_buf).len() as int)
}

/// The instructions that were queued for the encoder stream since `before`.
pub open spec fn instructed_since(before: CodecsState, after: CodecsState) -> Seq<u8> {
    joined(after.encoder_stream.skip(before.encoder_stream.len() as int))
}

/// Whether nothing that was queued before is touched.
pub open spec fn only_adds(before: Exchange, after: Exchange) -> bool {
    &&& joined(after.stream.send_buf).len() >= joined(before.stream.send_buf).len()
    &&& joined(after.stream.send_buf).take(joined(before.stream.send_buf).len() as int) == joined(
        before.stream.send_buf,
    )
    &&& after.codecs.encoder_stream.len() >= before.codecs.encoder_stream.len()
    &&& after.codecs.encoder_stream.take(before.codecs.encoder_stream.len() as int)
        == before.codecs.encoder_stream
}

/// The list of field lines that a peer gets of what an exchange queued: it is fed
/// the instructions, reads one HEADERS frame off the stream, with nothing behind
/// it, and decodes its section.
pub open spec fn received(before: Exchange, after: Exchange, peer: CodecsState, now: u64) -> Option<
    Seq<Field>,
> {
    let (fed, answer) = peer.feed_encoder(instructed_since(before.codecs, after.codecs));
    match frame::next_frame(queued_since(before.stream, after.stream)) {
        (Ok(Some(FrameValue::Headers(block))), rest) => if rest.len() == 0 && answer is Ok {
            match fed.decode(block, after.stream.stream_id, now).1 {
                Ok(Some(list)) => Some(list),
                _ => None,
            }
        } else {
            None
        },
        _ => None,
    }
}

/// Whether a peer can follow: its decoder mirrors the encoder, has nothing
/// waiting, and has a budget for the lines.
pub open spec fn can_follow(e: Exchange, peer: CodecsState, size: nat) -> bool {
    &&& e.codecs.encoder is Some
    &&& e.codecs.encoder.unwrap().valid()
    &&& e.codecs.encoder.unwrap().max_capacity <= u64::MAX
    &&& peer.decoder.valid()
    &&& laws::mirrors(peer.decoder, e.codecs.encoder.unwrap())
    &&& peer.decoder.blocked.len() == 0
    &&& decoder::saturated(peer.decoder.charged_to(e.stream.stream_id) + size)
        <= peer.decoder.max_field_section_size
}

/// The octets of the lines of a list.
pub open spec fn lines_size(list: Seq<Field>) -> nat
    decreases list.len(),
{
    if list.len() == 0 {
        0
    } else {
        lines_size(list.drop_last()) + list.last().0.len() + list.last().1.len()
    }
}

proof fn lemma_lines_size(list: Seq<Field>)
    ensures
        lines_size(list) == decoder::list_size(list),
    decreases list.len(),
{
    if list.len() > 0 {
        lemma_lines_size(list.drop_last());
    }
}

/// What a section that was queued is to a peer.
proof fn lemma_section_arrives(
    e: Exchange,
    peer: CodecsState,
    list: Seq<Field>,
    kind: PendingSend,
    now: u64,
)
    requires
        can_follow(e, peer, lines_size(list)),
        e.codecs.encoder.unwrap().table.inserted + list.len() <= u64::MAX,
        laws::list_fits(list),
        e.send_headers(list, kind).1 is Ok,
    ensures
        ({
            let sent = e.send_headers(list, kind).0;
            &&& only_adds(e, sent)
            &&& received(e, sent, peer, now) == Some(list)
            &&& sent.stream.send_buf.len() > e.stream.send_buf.len()
            &&& sent.stream.send_buf.take(e.stream.send_buf.len() as int) == e.stream.send_buf
            &&& sent.stream == (StreamState {
                send_buf: sent.stream.send_buf,
                pending_send: kind,
                ..e.stream
            })
            &&& sent.codecs == (CodecsState {
                encoder: sent.codecs.encoder,
                encoder_stream: sent.codecs.encoder_stream,
                ..e.codecs
            })
        }),
{
    let reader = Exchange { stream: StreamState::initial(e.stream.stream_id), codecs: peer };
    lemma_lines_size(list);
    stream::lemma_headers_reach_the_peer(e, reader, list, kind, now);
    let enc = e.codecs.encoder.unwrap();
    let base = enc.known_received;
    let block = enc.section_block(list, base);
    let instructions = enc.section_stream(list, base);
    let sent = e.send_headers(list, kind).0;
    let f = FrameValue::Headers(block);
    let o = frame::frame_octets(f);
    let n = joined(e.stream.send_buf).len() as int;
    assert(joined(sent.stream.send_buf).skip(n) =~= o);
    assert(joined(sent.stream.send_buf).take(n) =~= joined(e.stream.send_buf));
    frame::lemma_frame_round_trip(f, Seq::empty());
    assert(o + Seq::<u8>::empty() =~= o);
    let m = e.codecs.encoder_stream.len() as int;
    let added = sent.codecs.encoder_stream.skip(m);
    assert(sent.codecs.encoder_stream.take(m) =~= e.codecs.encoder_stream);
    if instructions.len() == 0 {
        assert(added =~= Seq::empty());
        assert(joined(added) =~= instructions);
    } else {
        assert(added =~= seq![instructions]);
        assert(seq![instructions].drop_last() =~= Seq::empty());
        assert(joined(seq![instructions]) =~= instructions) by {
            assert(joined(Seq::<Seq<u8>>::empty()) =~= Seq::empty());
        }
    }
    assert(instructed_since(e.codecs, sent.codecs) == instructions);
    assert(sent.stream.send_buf.take(e.stream.send_buf.len() as int) =~= e.stream.send_buf);
}

/// A response arrives as it was given: its status, and behind it every header,
/// in order. It is queued behind what was queued before, and the next write is
/// asked for.
pub proof fn lemma_response_arrives(
    e: Exchange,
    peer: CodecsState,
    status: u16,
    headers: Seq<Field>,
    now: u64,
)
    requires
        100 <= status <= 999,
        e.stream.pending_send is Idle,
        e.send_response(status, headers).1 is Ok,
        can_follow(e, peer, lines_size(headers) + 10),
        e.codecs.encoder.unwrap().table.inserted + headers.len() + 1 <= u64::MAX,
        laws::list_fits(headers),
    ensures
        ({
            let (sent, r) = e.send_response(status, headers);
            &&& only_adds(e, sent)
            &&& received(e, sent, peer, now) matches Some(list) && is_response(
                list,
                status,
                headers,
            )
            &&& r == Ok::<SendValue, StreamError>(SendValue::Write(sent.stream.send_buf[0]))
            &&& sent.stream == (StreamState {
                send_buf: sent.stream.send_buf,
                pending_send: PendingSend::ResponseHeaders(status),
                ..e.stream
            })
        }),
{
    let list = stream::response_fields(status, headers);
    lemma_response_lines(status, headers);
    lemma_response_size(list, status, headers);
    lemma_lines_size(list);
    assert(laws::list_fits(list)) by {
        assert forall|i: int| 0 <= i < list.len() implies (#[trigger] list[i]).0.len() <= u64::MAX
            && list[i].1.len() <= u64::MAX by {
            if i > 0 {
                assert(list[(i - 1) + 1] == headers[i - 1]);
            }
        }
    }
    lemma_section_arrives(e, peer, list, PendingSend::ResponseHeaders(status), now);
}

proof fn lemma_response_size(list: Seq<Field>, status: u16, headers: Seq<Field>)
    requires
        is_response(list, status, headers),
    ensures
        lines_size(list) == lines_size(headers) + 10,
    decreases headers.len(),
{
    if headers.len() == 0 {
        assert(list.drop_last() =~= Seq::empty());
        assert(lines_size(list.drop_last()) == 0);
    } else {
        let less = headers.drop_last();
        let short = list.drop_last();
        assert forall|i: int| 0 <= i < less.len() implies #[trigger] short[i + 1] == less[i] by {
            assert(list[i + 1] == headers[i]);
        }
        lemma_response_size(short, status, less);
        assert(list[(headers.len() - 1) + 1] == headers[headers.len() - 1]);
    }
}

/// Trailers arrive as they were given, every one of them and in order. They are
/// queued behind what was queued before, and the next write is asked for.
pub proof fn lemma_trailers_arrive(
    e: Exchange,
    peer: CodecsState,
    trailers: Seq<Field>,
    now: u64,
)
    requires
        e.stream.pending_send is Idle,
        e.send_trailers(trailers).1 is Ok,
        can_follow(e, peer, lines_size(trailers)),
        e.codecs.encoder.unwrap().table.inserted + trailers.len() <= u64::MAX,
        laws::list_fits(trailers),
    ensures
        ({
            let (sent, r) = e.send_trailers(trailers);
            &&& only_adds(e, sent)
            &&& received(e, sent, peer, now) == Some(trailers)
            &&& r == Ok::<SendValue, StreamError>(SendValue::Write(sent.stream.send_buf[0]))
            &&& sent.stream == (StreamState {
                send_buf: sent.stream.send_buf,
                pending_send: PendingSend::Trailers,
                ..e.stream
            })
        }),
{
    lemma_section_arrives(e, peer, trailers, PendingSend::Trailers, now);
}

/// When a response is sent: on a stream that sends nothing else, where no final
/// one was sent or this one is not final, with headers that are no
/// pseudo-headers, once the peer's settings are known. Then only its size can
/// stand against it. Otherwise it is `H3_MESSAGE_ERROR`, and nothing changes.
pub proof fn lemma_when_responses_are_sent(e: Exchange, status: u16, headers: Seq<Field>)
    requires
        !(e.stream.pending_send is ResponseHeaders),
    ensures
        ({
            let due = {
                &&& e.stream.pending_send is Idle
                &&& e.stream.sent_headers ==> 100 <= status < 200
                &&& forall|i: int|
                    0 <= i < headers.len() ==> !message::colon_first((#[trigger] headers[i]).0)
                &&& e.codecs.encoder is Some
            };
            let (sent, r) = e.send_response(status, headers);
            &&& due ==> r is Ok || (r is Err && r->Err_0 is HeadersTooBig)
            &&& !due ==> r == Err::<SendValue, StreamError>(StreamError::Message) && sent == e
        }),
{
    lemma_all_regular(headers);
}

/// When trailers are sent: behind a final response, on a stream that sends
/// nothing else, with fields that are no pseudo-headers. Then only their size can
/// stand against them. Otherwise it is `H3_MESSAGE_ERROR`, and nothing changes.
pub proof fn lemma_when_trailers_are_sent(e: Exchange, trailers: Seq<Field>)
    requires
        !(e.stream.pending_send is Trailers),
    ensures
        ({
            let due = {
                &&& e.stream.pending_send is Idle
                &&& e.stream.sent_headers
                &&& forall|i: int|
                    0 <= i < trailers.len() ==> !message::colon_first((#[trigger] trailers[i]).0)
                &&& e.codecs.encoder is Some
            };
            let (sent, r) = e.send_trailers(trailers);
            &&& due ==> r is Ok || (r is Err && r->Err_0 is HeadersTooBig)
            &&& !due ==> r == Err::<SendValue, StreamError>(StreamError::Message) && sent == e
        }),
{
    lemma_all_regular(trailers);
}

proof fn lemma_all_regular(list: Seq<Field>)
    ensures
        stream::all_regular(list) <==> forall|i: int|
            0 <= i < list.len() ==> !message::colon_first((#[trigger] list[i]).0),
{
    if stream::all_regular(list) {
        assert forall|i: int| 0 <= i < list.len() implies !message::colon_first(
            (#[trigger] list[i]).0,
        ) by {
            assert(!message::is_pseudo(list[i]));
        }
    }
    if forall|i: int| 0 <= i < list.len() ==> !message::colon_first((#[trigger] list[i]).0) {
        assert forall|i: int| 0 <= i < list.len() implies !message::is_pseudo(#[trigger] list[i]) by {
            assert(!message::colon_first(list[i].0));
        }
    }
}

/// The exchange with a peer that announced no limit.
pub open spec fn unlimited(e: Exchange) -> Exchange {
    Exchange { codecs: CodecsState { peer_limit: None, ..e.codecs }, ..e }
}

/// The size of the one HEADERS frame's section that was queued since `before`.
pub open spec fn section_size(before: Exchange, after: Exchange) -> nat {
    match frame::next_frame(queued_since(before.stream, after.stream)).0 {
        Ok(Some(FrameValue::Headers(block))) => block.len(),
        _ => 0,
    }
}

/// What a limit of the peer does: a response or trailers whose section is larger
/// are not sent, and the error names its size and the limit; one that is not
/// larger is sent as it would be without the limit. Either way the encoder goes
/// on as if it were sent, and its instructions are queued, so that its table and
/// the peer's stay the same.
pub proof fn lemma_limit(e: Exchange, status: u16, list: Seq<Field>, limit: u64)
    requires
        e.codecs.peer_limit == Some(limit),
        limit <= MAX_VARINT,
        e.stream.pending_send is Idle,
    ensures
        unlimited(e).send_trailers(list).1 is Ok ==> limited(
            e,
            unlimited(e).send_trailers(list),
            e.send_trailers(list),
            limit,
        ),
        unlimited(e).send_response(status, list).1 is Ok ==> limited(
            e,
            unlimited(e).send_response(status, list),
            e.send_response(status, list),
            limit,
        ),
{
    if unlimited(e).send_trailers(list).1 is Ok {
        lemma_limited(e, list, PendingSend::Trailers, limit);
    }
    if unlimited(e).send_response(status, list).1 is Ok {
        lemma_limited(
            e,
            stream::response_fields(status, list),
            PendingSend::ResponseHeaders(status),
            limit,
        );
    }
}

/// Whether a poll did what it would do without the limit, where that is within
/// it, and refused otherwise.
pub open spec fn limited(
    e: Exchange,
    free: (Exchange, Result<SendValue, StreamError>),
    held: (Exchange, Result<SendValue, StreamError>),
    limit: u64,
) -> bool {
    let size = section_size(unlimited(e), free.0);
    &&& held.0.codecs.encoder == free.0.codecs.encoder
    &&& held.0.codecs.encoder_stream == free.0.codecs.encoder_stream
    &&& size <= limit ==> held.1 == free.1 && held.0.stream == free.0.stream
    &&& size > limit ==> held.0.stream == e.stream && held.1 == Err::<SendValue, StreamError>(
        StreamError::HeadersTooBig { size: size as u64, limit },
    )
}

proof fn lemma_limited(e: Exchange, list: Seq<Field>, kind: PendingSend, limit: u64)
    requires
        e.codecs.peer_limit == Some(limit),
        limit <= MAX_VARINT,
        unlimited(e).send_headers(list, kind).1 is Ok,
    ensures
        ({
            let free = unlimited(e).send_headers(list, kind);
            let held = e.send_headers(list, kind);
            let size = section_size(unlimited(e), free.0);
            &&& held.0.codecs.encoder == free.0.codecs.encoder
            &&& held.0.codecs.encoder_stream == free.0.codecs.encoder_stream
            &&& size <= limit ==> held.1 is Ok && held.0.stream == free.0.stream
            &&& size > limit ==> held.0.stream == e.stream && held.1 == Err::<(), StreamError>(
                StreamError::HeadersTooBig { size: size as u64, limit },
            )
        }),
{
    let enc = e.codecs.encoder.unwrap();
    let block = enc.section_block(list, enc.known_received);
    let free = unlimited(e).send_headers(list, kind).0;
    let start = StreamState { pending_send: kind, ..e.stream };
    let header = stream::frame_header(FRAME_HEADERS, block.len());
    stream::lemma_queued_octets(start, header, block);
    let f = FrameValue::Headers(block);
    let o = frame::frame_octets(f);
    assert(o =~= header + block);
    let n = joined(e.stream.send_buf).len() as int;
    assert(joined(free.stream.send_buf) =~= joined(e.stream.send_buf) + o);
    assert(joined(free.stream.send_buf).skip(n) =~= o);
    frame::lemma_frame_round_trip(f, Seq::empty());
    assert(o + Seq::<u8>::empty() =~= o);
}

/// A section that no peer could read, since a frame cannot hold it, is refused
/// whatever the peer announced; so that what is sent always fits a frame.
pub proof fn lemma_sections_fit_frames(peer: Option<u64>)
    ensures
        stream::section_limit(peer) <= 0x3fff_ffff_ffff_ffff,
        peer matches Some(limit) ==> stream::section_limit(peer) <= limit,
        peer matches Some(limit) ==> limit <= 0x3fff_ffff_ffff_ffff ==> stream::section_limit(peer)
            == limit,
        peer is None ==> stream::section_limit(peer) == 0x3fff_ffff_ffff_ffff,
{
}

/// A poll that is repeated while its write is in progress queues nothing again,
/// whatever it is given: it asks for the next write, or says that it is done.
pub proof fn lemma_repeated_polls_queue_nothing(
    e: Exchange,
    status: u16,
    list: Seq<Field>,
    data: Seq<u8>,
)
    ensures
        e.stream.pending_send is ResponseHeaders && (e.stream.sent_headers ==> 100 <= status < 200)
            ==> carries_on(e, e.send_response(status, list)),
        e.stream.pending_send is Trailers && e.stream.sent_headers ==> carries_on(
            e,
            e.send_trailers(list),
        ),
        e.stream.pending_send is Data ==> carries_on(
            e,
            (Exchange { stream: e.stream.send_data(data).0, ..e }, e.stream.send_data(data).1),
        ),
{
}

/// Whether a poll only went on with the write in progress. Once nothing is left
/// to write it is done: a final response then counts as sent, an informational
/// one does not, and trailers count as sent.
pub open spec fn carries_on(e: Exchange, polled: (Exchange, Result<SendValue, StreamError>)) -> bool {
    let (after, r) = polled;
    let s = e.stream;
    &&& after.codecs == e.codecs
    &&& s.send_buf.len() > 0 ==> after == e && r == Ok::<SendValue, StreamError>(
        SendValue::Write(s.send_buf[0]),
    )
    &&& s.send_buf.len() == 0 ==> {
        &&& r == Ok::<SendValue, StreamError>(SendValue::Done)
        &&& after.stream.send_buf == s.send_buf
        &&& after.stream.pending_send is Idle
        &&& after.stream.sent_trailers == (s.sent_trailers || s.pending_send is Trailers)
        &&& after.stream.sent_headers == (s.sent_headers || (s.pending_send
            matches PendingSend::ResponseHeaders(status) && !(100 <= status < 200)))
        &&& after.stream == (StreamState {
            pending_send: after.stream.pending_send,
            sent_headers: after.stream.sent_headers,
            sent_trailers: after.stream.sent_trailers,
            ..s
        })
    }
}

/// A write that is done is taken off what is to be written, and nothing else
/// changes.
pub proof fn lemma_writes_are_taken_in_order(s: StreamState)
    requires
        s.send_buf.len() > 0,
    ensures
        s.after_write(true) == (StreamState { send_buf: s.send_buf.skip(1), ..s }),
        s.after_write(false) == s,
        s.send_buf[0] + joined(s.send_buf.skip(1)) == joined(s.send_buf),
{
    lemma_joined_first(s.send_buf);
}

proof fn lemma_joined_first(queue: Seq<Seq<u8>>)
    requires
        queue.len() > 0,
    ensures
        queue[0] + joined(queue.skip(1)) == joined(queue),
    decreases queue.len(),
{
    if queue.len() == 1 {
        assert(queue.skip(1) =~= Seq::empty());
        assert(queue.drop_last() =~= Seq::empty());
        assert(joined(Seq::<Seq<u8>>::empty()) =~= Seq::empty());
        assert(queue[0] + joined(queue.skip(1)) =~= joined(queue));
    } else {
        lemma_joined_first(queue.drop_last());
        assert(queue.skip(1).drop_last() =~= queue.drop_last().skip(1));
        assert(queue[0] + joined(queue.skip(1)) =~= joined(queue));
    }
}

/// What a poll to send DATA queues is one DATA frame with that payload, behind
/// what was queued before; and while another kind of write is in progress, or
/// once the trailers are sent, it queues nothing and is `H3_MESSAGE_ERROR`.
pub proof fn lemma_data_arrives(s: StreamState, data: Seq<u8>)
    requires
        data.len() <= MAX_VARINT,
        !(s.pending_send is Data),
    ensures
        ({
            let (sent, r) = s.send_data(data);
            &&& s.pending_send is Idle && !s.sent_trailers ==> {
                &&& joined(sent.send_buf).len() >= joined(s.send_buf).len()
                &&& joined(sent.send_buf).take(joined(s.send_buf).len() as int) == joined(
                    s.send_buf,
                )
                &&& frame::next_frame(queued_since(s, sent)) == (
                    Ok::<Option<FrameValue>, FrameError>(Some(FrameValue::Data(data))),
                    Seq::<u8>::empty(),
                )
                &&& r == Ok::<SendValue, StreamError>(SendValue::Write(sent.send_buf[0]))
                &&& sent == (StreamState {
                    send_buf: sent.send_buf,
                    pending_send: PendingSend::Data,
                    ..s
                })
            }
            &&& !(s.pending_send is Idle) || s.sent_trailers ==> sent == s && r == Err::<
                SendValue,
                StreamError,
            >(StreamError::Message)
        }),
{
    if s.pending_send is Idle && !s.sent_trailers {
        stream::lemma_data_is_a_frame(s, data);
        let f = FrameValue::Data(data);
        let o = frame::frame_octets(f);
        let sent = s.send_data(data).0;
        let n = joined(s.send_buf).len() as int;
        assert(joined(sent.send_buf).skip(n) =~= o);
        assert(joined(sent.send_buf).take(n) =~= joined(s.send_buf));
        frame::lemma_frame_round_trip(f, Seq::empty());
        assert(o + Seq::<u8>::empty() =~= o);
    }
}

} // verus!
