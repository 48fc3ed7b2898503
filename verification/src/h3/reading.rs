//! What a request stream reads over its whole life.
//!
//! A poll to receive is repeated with what the transport has next until it is
//! done. However the transport cuts the stream into chunks, the polls then yield
//! the body's DATA frames in order, the end of the body, and the trailers; behind
//! them unknown frames are passed over and any other fails the stream.

use super::codecs;
use super::codecs::CodecsState;
use super::frame;
use super::frame::{FrameError, FrameValue, MAX_VARINT};
use super::message;
use super::message::{RequestValue, StreamError};
use super::qpack::QpackError;
use super::stream;
use super::stream::{Exchange, FramePoll, Polled, StreamState};
use crate::octets::Field;
use vstd::prelude::*;

verus! {

/// The octets of a run of chunks.
pub open spec fn joined(chunks: Seq<Seq<u8>>) -> Seq<u8>
    decreases chunks.len(),
{
    if chunks.len() == 0 {
        Seq::empty()
    } else {
        chunks[0] + joined(chunks.skip(1))
    }
}

/// Everything that is still to be read: what is buffered, and what arrives in
/// chunks until the stream ends.
pub open spec fn ahead(e: Exchange, chunks: Seq<Seq<u8>>) -> Seq<u8> {
    e.stream.buf + joined(chunks)
}

/// The exchange once more data arrived.
pub open spec fn fed(e: Exchange, data: Seq<u8>) -> Exchange {
    Exchange { stream: e.stream.fed(data), ..e }
}

/// A poll for the next chunk of the body, repeated with what the transport has
/// until it is done: the exchange, the chunks not received yet, and the result.
pub open spec fn read_data(e: Exchange, chunks: Seq<Seq<u8>>, now: u64) -> (
    Exchange,
    Seq<Seq<u8>>,
    Result<Polled<Option<Seq<u8>>>, StreamError>,
)
    decreases chunks.len(),
{
    let (next, r) = e.recv_data(false, now);
    if !(r matches Ok(Polled::Receive)) {
        (next, chunks, r)
    } else if chunks.len() == 0 {
        let (last, r) = next.recv_data(true, now);
        (last, chunks, r)
    } else {
        read_data(fed(next, chunks[0]), chunks.skip(1), now)
    }
}

/// A poll for the trailers, repeated in the same way.
pub open spec fn read_trailers(e: Exchange, chunks: Seq<Seq<u8>>, now: u64) -> (
    Exchange,
    Seq<Seq<u8>>,
    Result<Polled<Option<Seq<Field>>>, StreamError>,
)
    decreases chunks.len(),
{
    let (next, r) = e.recv_trailers(false, now);
    if !(r matches Ok(Polled::Receive)) {
        (next, chunks, r)
    } else if chunks.len() == 0 {
        let (last, r) = next.recv_trailers(true, now);
        (last, chunks, r)
    } else {
        read_trailers(fed(next, chunks[0]), chunks.skip(1), now)
    }
}

/// The exchange and the chunks left once the body was polled for `n` times.
pub open spec fn read_times(e: Exchange, chunks: Seq<Seq<u8>>, n: nat, now: u64) -> (
    Exchange,
    Seq<Seq<u8>>,
)
    decreases n,
{
    if n == 0 {
        (e, chunks)
    } else {
        let (x, c) = read_times(e, chunks, (n - 1) as nat, now);
        let (y, d, _) = read_data(x, c, now);
        (y, d)
    }
}

/// What is left of `s` behind the frames `list`, with unknown frames passed over,
/// or `None` where `s` does not start with these frames.
pub open spec fn behind(s: Seq<u8>, list: Seq<FrameValue>) -> Option<Seq<u8>>
    decreases list.len(),
{
    if list.len() == 0 {
        Some(s)
    } else {
        match behind(s, list.drop_last()) {
            Some(rest) => match frame::next_frame(rest) {
                (Ok(Some(f)), after) => if f == list.last() {
                    Some(after)
                } else {
                    None
                },
                _ => None,
            },
            None => None,
        }
    }
}

/// The DATA frames of a body.
pub open spec fn data_frames(body: Seq<Seq<u8>>) -> Seq<FrameValue> {
    body.map_values(|d: Seq<u8>| FrameValue::Data(d))
}

/// Whether a stream is past its request and reads its body.
pub open spec fn in_body(s: StreamState) -> bool {
    &&& !s.awaiting_headers
    &&& !s.headers_blocked
    &&& s.trailers_lines is None
    &&& !s.trailers_blocked
    &&& !s.trailers_done
    &&& !s.recv_finished
}

/// Where a request was read, the stream reads its body.
pub proof fn lemma_request_opens_the_body(e: Exchange, ended: bool, now: u64)
    requires
        e.stream.trailers_lines is None,
        !e.stream.trailers_blocked,
        !e.stream.trailers_done,
        !e.stream.recv_finished,
        e.headers(ended, now).1 matches Ok(Polled::Ready(Some(_))),
    ensures
        in_body(e.headers(ended, now).0.stream),
{
}

/// Whether a stream is past its trailers.
pub open spec fn past_trailers(s: StreamState) -> bool {
    &&& !s.awaiting_headers
    &&& !s.headers_blocked
    &&& s.trailers_lines is None
    &&& !s.trailers_blocked
    &&& s.trailers_done
    &&& !s.recv_finished
}

/// The stream that has waited for a frame: it has one, or a failure, in its
/// buffer, or everything has arrived and the stream has ended.
pub open spec fn waited(s: StreamState, chunks: Seq<Seq<u8>>) -> (
    StreamState,
    Seq<Seq<u8>>,
    bool,
)
    decreases chunks.len(),
{
    let (next, r) = s.next(false);
    if !(r matches Ok(FramePoll::More)) {
        (s, chunks, false)
    } else if chunks.len() == 0 {
        (next, chunks, true)
    } else {
        waited(next.fed(chunks[0]), chunks.skip(1))
    }
}

/// Waiting changes nothing but the buffer, and loses nothing that matters: the
/// next frame is the one that everything ahead starts with.
proof fn lemma_waited(s: StreamState, chunks: Seq<Seq<u8>>)
    ensures
        ({
            let (t, left, ended) = waited(s, chunks);
            let all = s.buf + joined(chunks);
            &&& t == (StreamState { buf: t.buf, ..s })
            &&& frame::next_frame(t.buf + joined(left)) == frame::next_frame(all)
            &&& ended ==> left.len() == 0 && frame::next_frame(all) == (
                Ok::<Option<FrameValue>, FrameError>(None),
                t.buf,
            )
            &&& !ended ==> !(t.next(false).1 matches Ok(FramePoll::More))
        }),
    decreases chunks.len(),
{
    let (next, r) = s.next(false);
    let all = s.buf + joined(chunks);
    if r matches Ok(FramePoll::More) {
        frame::lemma_next_frame_split(s.buf, joined(chunks));
        if chunks.len() == 0 {
            assert(all =~= s.buf);
            assert(next.buf + joined(chunks) =~= next.buf);
        } else {
            lemma_waited(next.fed(chunks[0]), chunks.skip(1));
            assert(next.buf + chunks[0] + joined(chunks.skip(1)) =~= next.buf + joined(chunks));
        }
    }
}

/// A poll for the body waits for a frame, and then reads it.
proof fn lemma_read_data_waits(e: Exchange, chunks: Seq<Seq<u8>>, now: u64)
    requires
        in_body(e.stream) || past_trailers(e.stream),
    ensures
        ({
            let (t, left, ended) = waited(e.stream, chunks);
            let (x, r) = Exchange { stream: t, ..e }.recv_data(ended, now);
            read_data(e, chunks, now) == (x, left, r)
        }),
    decreases chunks.len(),
{
    let (next, r) = e.stream.next(false);
    if r matches Ok(FramePoll::More) {
        let n = Exchange { stream: next, ..e };
        if chunks.len() > 0 {
            lemma_read_data_waits(fed(n, chunks[0]), chunks.skip(1), now);
        }
    }
}

/// A poll for the trailers waits for a frame, and then reads it.
proof fn lemma_read_trailers_waits(e: Exchange, chunks: Seq<Seq<u8>>, now: u64)
    requires
        in_body(e.stream) || past_trailers(e.stream),
    ensures
        ({
            let (t, left, ended) = waited(e.stream, chunks);
            let (x, r) = Exchange { stream: t, ..e }.recv_trailers(ended, now);
            read_trailers(e, chunks, now) == (x, left, r)
        }),
    decreases chunks.len(),
{
    let (next, r) = e.stream.next(false);
    if r matches Ok(FramePoll::More) {
        let n = Exchange { stream: next, ..e };
        if chunks.len() > 0 {
            lemma_read_trailers_waits(fed(n, chunks[0]), chunks.skip(1), now);
        }
    }
}

/// A stream that waited for a frame of a request stream has it.
pub(crate) proof fn lemma_frame_arrives(s: StreamState, chunks: Seq<Seq<u8>>)
    requires
        frame::next_frame(s.buf + joined(chunks)).0 matches Ok(Some(_)),
    ensures
        ({
            let (t, left, ended) = waited(s, chunks);
            let (r, rest) = frame::next_frame(s.buf + joined(chunks));
            let f = r->Ok_0.unwrap();
            &&& !ended
            &&& f is Data || f is Headers ==> t.next(false).1 == Ok::<FramePoll, StreamError>(
                FramePoll::Frame(f),
            ) && t.next(false).0.buf + joined(left) == rest
            &&& !(f is Data || f is Headers) ==> t.next(false).1 == Err::<FramePoll, StreamError>(
                StreamError::FrameUnexpected,
            ) || t.next(false).1 == Ok::<FramePoll, StreamError>(FramePoll::Frame(f))
        }),
{
    lemma_waited(s, chunks);
    let (t, left, ended) = waited(s, chunks);
    let all = t.buf + joined(left);
    frame::lemma_peek_of_frame(all);
    frame::lemma_next_frame_split(t.buf, joined(left));
    if frame::peek_type(t.buf) matches Some(ty) && stream::control_plane_type(ty) {
        frame::lemma_peek_known_stays(t.buf, joined(left));
    }
}

/// The next DATA frame of a body is what the next poll yields.
proof fn lemma_body_frame(e: Exchange, chunks: Seq<Seq<u8>>, now: u64, data: Seq<u8>)
    requires
        in_body(e.stream),
        frame::next_frame(ahead(e, chunks)).0 == Ok::<Option<FrameValue>, FrameError>(
            Some(FrameValue::Data(data)),
        ),
    ensures
        ({
            let (x, left, r) = read_data(e, chunks, now);
            &&& r == Ok::<Polled<Option<Seq<u8>>>, StreamError>(Polled::Ready(Some(data)))
            &&& in_body(x.stream)
            &&& x.codecs == e.codecs
            &&& x.stream.stream_id == e.stream.stream_id
            &&& ahead(x, left) == frame::next_frame(ahead(e, chunks)).1
        }),
{
    lemma_read_data_waits(e, chunks, now);
    lemma_waited(e.stream, chunks);
    lemma_frame_arrives(e.stream, chunks);
}

/// A body arrives whole and in order: each poll yields the next of its DATA
/// frames.
proof fn lemma_body(e: Exchange, chunks: Seq<Seq<u8>>, body: Seq<Seq<u8>>, now: u64)
    requires
        in_body(e.stream),
        behind(ahead(e, chunks), data_frames(body)) is Some,
    ensures
        ({
            let (x, left) = read_times(e, chunks, body.len(), now);
            &&& in_body(x.stream)
            &&& x.codecs == e.codecs
            &&& x.stream.stream_id == e.stream.stream_id
            &&& behind(ahead(e, chunks), data_frames(body)) == Some(ahead(x, left))
        }),
        forall|i: int|
            0 <= i < body.len() ==> ({
                let (x, left) = #[trigger] read_times(e, chunks, i as nat, now);
                read_data(x, left, now).2 == Ok::<Polled<Option<Seq<u8>>>, StreamError>(
                    Polled::Ready(Some(body[i])),
                )
            }),
    decreases body.len(),
{
    if body.len() > 0 {
        let less = body.drop_last();
        let n = (body.len() - 1) as nat;
        assert(data_frames(body).drop_last() =~= data_frames(less));
        assert(data_frames(body).last() == FrameValue::Data(body.last()));
        lemma_body(e, chunks, less, now);
        let (x, left) = read_times(e, chunks, n, now);
        lemma_body_frame(x, left, now, body.last());
        assert forall|i: int| 0 <= i < body.len() implies ({
            let (x, left) = #[trigger] read_times(e, chunks, i as nat, now);
            read_data(x, left, now).2 == Ok::<Polled<Option<Seq<u8>>>, StreamError>(
                Polled::Ready(Some(body[i])),
            )
        }) by {
            if i < n {
                assert(body[i] == less[i]);
            }
        }
    }
}

/// Behind the trailers, in every poll and however the stream is cut into chunks:
/// a known frame fails the stream, and unknown frames are passed over until the
/// stream ends, which the poll reports. A failed poll leaves the stream behind
/// its trailers, where the same holds of the next.
pub proof fn lemma_behind_trailers(e: Exchange, chunks: Seq<Seq<u8>>, now: u64)
    requires
        past_trailers(e.stream),
    ensures
        ({
            let tail = frame::next_frame(ahead(e, chunks));
            let (x, _, data) = read_data(e, chunks, now);
            let (y, _, trailers) = read_trailers(e, chunks, now);
            &&& tail.0 matches Ok(Some(_)) ==> {
                &&& data == Err::<Polled<Option<Seq<u8>>>, StreamError>(
                    StreamError::FrameUnexpected,
                )
                &&& trailers == Err::<Polled<Option<Seq<Field>>>, StreamError>(
                    StreamError::FrameUnexpected,
                )
                &&& past_trailers(x.stream)
                &&& past_trailers(y.stream)
            }
            &&& tail == (Ok::<Option<FrameValue>, FrameError>(None), Seq::<u8>::empty()) ==> {
                &&& data == Ok::<Polled<Option<Seq<u8>>>, StreamError>(Polled::Ready(None))
                &&& trailers == Ok::<Polled<Option<Seq<Field>>>, StreamError>(Polled::Ready(None))
                &&& x.stream.recv_finished
                &&& y.stream.recv_finished
            }
        }),
{
    lemma_read_data_waits(e, chunks, now);
    lemma_read_trailers_waits(e, chunks, now);
    lemma_waited(e.stream, chunks);
    let (t, left, ended) = waited(e.stream, chunks);
    let tail = frame::next_frame(ahead(e, chunks));
    if tail.0 matches Ok(Some(_)) {
        lemma_frame_arrives(e.stream, chunks);
    }
    if tail == (Ok::<Option<FrameValue>, FrameError>(None), Seq::<u8>::empty()) {
        lemma_unknown_only(e.stream, chunks);
        assert(t.buf =~= Seq::empty());
        frame::lemma_next_frame_empty();
        frame::lemma_nothing_left_to_see(t.buf);
    }
}

/// A stream that carries nothing but unknown frames is waited for until it ends.
proof fn lemma_unknown_only(s: StreamState, chunks: Seq<Seq<u8>>)
    requires
        frame::next_frame(s.buf + joined(chunks)) == (
            Ok::<Option<FrameValue>, FrameError>(None),
            Seq::<u8>::empty(),
        ),
    ensures
        waited(s, chunks).2,
        waited(s, chunks).0.buf.len() == 0,
{
    lemma_waited(s, chunks);
    let (t, left, ended) = waited(s, chunks);
    let all = t.buf + joined(left);
    if !ended {
        frame::lemma_next_frame_split(t.buf, joined(left));
        if frame::peek_type(t.buf) matches Some(ty) && stream::control_plane_type(ty) {
            frame::lemma_peek_known_stays(t.buf, joined(left));
            frame::lemma_nothing_left_to_see(all);
        }
    }
}

/// The order of a message. Where a stream that is past its request carries the
/// DATA frames of `body`, then a HEADERS frame that decodes to trailers, and then
/// `tail`, with unknown frames anywhere and in whatever chunks: each poll for the
/// body yields one DATA frame, the next says that the body is over, and the poll
/// for the trailers yields them. What then follows is read as behind trailers: a
/// known frame in `tail` fails the polls and is never handed out, and where
/// `tail` holds unknown frames only they end cleanly.
pub proof fn lemma_message_order(
    e: Exchange,
    chunks: Seq<Seq<u8>>,
    body: Seq<Seq<u8>>,
    block: Seq<u8>,
    list: Seq<Field>,
    trailers: Seq<Field>,
    tail: Seq<u8>,
    now: u64,
)
    requires
        in_body(e.stream),
        behind(ahead(e, chunks), data_frames(body).push(FrameValue::Headers(block))) == Some(tail),
        e.codecs.decode(block, e.stream.stream_id, now).1 == Ok::<
            Option<Seq<Field>>,
            QpackError,
        >(Some(list)),
        message::trailers_of(list) == Some(trailers),
    ensures
        forall|i: int|
            0 <= i < body.len() ==> ({
                let (x, left) = #[trigger] read_times(e, chunks, i as nat, now);
                read_data(x, left, now).2 == Ok::<Polled<Option<Seq<u8>>>, StreamError>(
                    Polled::Ready(Some(body[i])),
                )
            }),
        ({
            let (x, c) = read_times(e, chunks, body.len(), now);
            let (y, d, over) = read_data(x, c, now);
            let (z, left, got) = read_trailers(y, d, now);
            let (_, _, data) = read_data(z, left, now);
            let (_, _, more) = read_trailers(z, left, now);
            &&& over == Ok::<Polled<Option<Seq<u8>>>, StreamError>(Polled::Ready(None))
            &&& got == Ok::<Polled<Option<Seq<Field>>>, StreamError>(Polled::Ready(Some(trailers)))
            &&& past_trailers(z.stream)
            &&& ahead(z, left) == tail
            &&& frame::next_frame(tail).0 matches Ok(Some(_)) ==> {
                &&& data == Err::<Polled<Option<Seq<u8>>>, StreamError>(
                    StreamError::FrameUnexpected,
                )
                &&& more == Err::<Polled<Option<Seq<Field>>>, StreamError>(
                    StreamError::FrameUnexpected,
                )
            }
            &&& frame::next_frame(tail) == (
                Ok::<Option<FrameValue>, FrameError>(None),
                Seq::<u8>::empty(),
            ) ==> {
                &&& data == Ok::<Polled<Option<Seq<u8>>>, StreamError>(Polled::Ready(None))
                &&& more == Ok::<Polled<Option<Seq<Field>>>, StreamError>(Polled::Ready(None))
            }
        }),
{
    let frames = data_frames(body).push(FrameValue::Headers(block));
    assert(frames.drop_last() =~= data_frames(body));
    lemma_body(e, chunks, body, now);
    let (x, c) = read_times(e, chunks, body.len(), now);
    lemma_read_data_waits(x, c, now);
    lemma_waited(x.stream, c);
    lemma_frame_arrives(x.stream, c);
    let (y, d, over) = read_data(x, c, now);
    let (z, left, got) = read_trailers(y, d, now);
    lemma_behind_trailers(z, left, now);
}

/// The frames of a message, written one behind the other, are what the stream
/// carries.
pub proof fn lemma_written_frames(list: Seq<FrameValue>, tail: Seq<u8>)
    requires
        forall|i: int|
            0 <= i < list.len() ==> frame::frame_fits(#[trigger] list[i]) && (list[i] is Data
                || list[i] is Headers),
    ensures
        behind(written(list) + tail, list) == Some(tail),
    decreases list.len(),
{
    if list.len() == 0 {
        assert(written(list) + tail =~= tail);
    } else {
        let less = list.drop_last();
        assert forall|i: int| 0 <= i < less.len() implies frame::frame_fits(#[trigger] less[i]) && (
        less[i] is Data || less[i] is Headers) by {
            assert(less[i] == list[i]);
        }
        let last = list[list.len() - 1];
        lemma_written_frames(less, frame::frame_octets(last) + tail);
        assert(written(list) + tail =~= written(less) + (frame::frame_octets(last) + tail));
        frame::lemma_frame_round_trip(last, tail);
    }
}

/// Frames written one behind the other.
pub open spec fn written(list: Seq<FrameValue>) -> Seq<u8>
    decreases list.len(),
{
    if list.len() == 0 {
        Seq::empty()
    } else {
        written(list.drop_last()) + frame::frame_octets(list.last())
    }
}

/// A poll for the request, repeated with what the transport has until it is done:
/// the exchange, the chunks not received yet, and the result.
pub open spec fn read_request(e: Exchange, chunks: Seq<Seq<u8>>, now: u64) -> (
    Exchange,
    Seq<Seq<u8>>,
    Result<Polled<Option<RequestValue>>, StreamError>,
)
    decreases chunks.len(),
{
    let (next, r) = e.headers(false, now);
    if !(r matches Ok(Polled::Receive)) {
        (next, chunks, r)
    } else if chunks.len() == 0 {
        let (last, r) = next.headers(true, now);
        (last, chunks, r)
    } else {
        read_request(fed(next, chunks[0]), chunks.skip(1), now)
    }
}

/// A poll for the request waits for a frame, and then reads it.
proof fn lemma_read_request_waits(e: Exchange, chunks: Seq<Seq<u8>>, now: u64)
    requires
        e.stream.awaiting_headers,
        !e.stream.headers_blocked,
    ensures
        ({
            let (t, left, ended) = waited(e.stream, chunks);
            let (x, r) = Exchange { stream: t, ..e }.headers(ended, now);
            read_request(e, chunks, now) == (x, left, r)
        }),
    decreases chunks.len(),
{
    let (next, r) = e.stream.next(false);
    if r matches Ok(FramePoll::More) {
        let n = Exchange { stream: next, ..e };
        if chunks.len() > 0 {
            lemma_read_request_waits(fed(n, chunks[0]), chunks.skip(1), now);
        }
    }
}

/// A request is read off the first frame of its stream, however that is cut into
/// chunks, with unknown frames in front of it passed over: it is the request that
/// the lines of its section are, and `H3_MESSAGE_ERROR` where they are none. What
/// is behind the frame is left for the body.
pub proof fn lemma_request_arrives(
    e: Exchange,
    chunks: Seq<Seq<u8>>,
    block: Seq<u8>,
    list: Seq<Field>,
    tail: Seq<u8>,
    now: u64,
)
    requires
        e.stream.awaiting_headers,
        !e.stream.headers_blocked,
        frame::next_frame(ahead(e, chunks)) == (
            Ok::<Option<FrameValue>, FrameError>(Some(FrameValue::Headers(block))),
            tail,
        ),
        e.codecs.decode(block, e.stream.stream_id, now).1 == Ok::<
            Option<Seq<Field>>,
            QpackError,
        >(Some(list)),
    ensures
        ({
            let (x, left, r) = read_request(e, chunks, now);
            &&& ahead(x, left) == tail
            &&& x.codecs == e.codecs.decode(block, e.stream.stream_id, now).0
            &&& message::request_of(list) is None ==> r == Err::<
                Polled<Option<RequestValue>>,
                StreamError,
            >(StreamError::Message)
            &&& message::request_of(list) is Some ==> {
                &&& r == Ok::<Polled<Option<RequestValue>>, StreamError>(
                    Polled::Ready(message::request_of(list)),
                )
                &&& x.stream == (StreamState {
                    buf: x.stream.buf,
                    awaiting_headers: false,
                    ..e.stream
                })
            }
        }),
{
    lemma_read_request_waits(e, chunks, now);
    lemma_waited(e.stream, chunks);
    lemma_frame_arrives(e.stream, chunks);
}

/// A first frame that is not HEADERS fails the stream, and so does a section that
/// cannot be decoded.
pub proof fn lemma_request_refused(e: Exchange, chunks: Seq<Seq<u8>>, now: u64, err: QpackError)
    requires
        e.stream.awaiting_headers,
        !e.stream.headers_blocked,
        frame::next_frame(ahead(e, chunks)).0 matches Ok(Some(f)),
    ensures
        ({
            let f = frame::next_frame(ahead(e, chunks)).0->Ok_0.unwrap();
            let r = read_request(e, chunks, now).2;
            &&& !(f is Headers) ==> r == Err::<Polled<Option<RequestValue>>, StreamError>(
                StreamError::FrameUnexpected,
            )
            &&& f matches FrameValue::Headers(block) ==> e.codecs.decode(
                block,
                e.stream.stream_id,
                now,
            ).1 == Err::<Option<Seq<Field>>, QpackError>(err) ==> r == Err::<
                Polled<Option<RequestValue>>,
                StreamError,
            >(StreamError::Qpack(err))
        }),
{
    lemma_read_request_waits(e, chunks, now);
    lemma_waited(e.stream, chunks);
    lemma_frame_arrives(e.stream, chunks);
}

/// A request whose section waits for insertions is parked, and is read as soon as
/// the section is there: then it is the request that the lines are, or
/// `H3_MESSAGE_ERROR`, and the section is taken out of its queue.
pub proof fn lemma_blocked_request(
    e: Exchange,
    chunks: Seq<Seq<u8>>,
    block: Seq<u8>,
    tail: Seq<u8>,
    later: CodecsState,
    ended: bool,
    now: u64,
)
    requires
        e.stream.awaiting_headers,
        !e.stream.headers_blocked,
        frame::next_frame(ahead(e, chunks)) == (
            Ok::<Option<FrameValue>, FrameError>(Some(FrameValue::Headers(block))),
            tail,
        ),
        e.codecs.decode(block, e.stream.stream_id, now).1 == Ok::<
            Option<Seq<Field>>,
            QpackError,
        >(None),
    ensures
        ({
            let (x, left, r) = read_request(e, chunks, now);
            let resumed = Exchange { stream: x.stream, codecs: later };
            let (y, again) = resumed.headers(ended, now);
            let queue = codecs::queue_of(later.unblocked, e.stream.stream_id);
            &&& r == Ok::<Polled<Option<RequestValue>>, StreamError>(Polled::Parked)
            &&& ahead(x, left) == tail
            &&& x.codecs == e.codecs.decode(block, e.stream.stream_id, now).0
            &&& queue.len() == 0 ==> y == resumed && again == Ok::<
                Polled<Option<RequestValue>>,
                StreamError,
            >(Polled::Parked)
            &&& queue.len() > 0 ==> {
                &&& again == match message::request_of(queue[0]) {
                    Some(v) => Ok::<Polled<Option<RequestValue>>, StreamError>(
                        Polled::Ready(Some(v)),
                    ),
                    None => Err::<Polled<Option<RequestValue>>, StreamError>(StreamError::Message),
                }
                &&& codecs::queue_of(y.codecs.unblocked, e.stream.stream_id) == queue.skip(1)
                &&& y.stream == (StreamState {
                    headers_blocked: false,
                    awaiting_headers: false,
                    ..x.stream
                })
                &&& y.stream.buf == x.stream.buf
            }
        }),
{
    lemma_read_request_waits(e, chunks, now);
    lemma_waited(e.stream, chunks);
    lemma_frame_arrives(e.stream, chunks);
    let queue = codecs::queue_of(later.unblocked, e.stream.stream_id);
    if queue.len() == 1 {
        assert(queue.skip(1) =~= Seq::empty());
    }
}

/// What is left of a stream that ends before a known frame does.
proof fn lemma_cut(s: StreamState, chunks: Seq<Seq<u8>>)
    requires
        frame::next_frame(s.buf + joined(chunks)).0 == Ok::<Option<FrameValue>, FrameError>(None),
    ensures
        ({
            let (t, left, ended) = waited(s, chunks);
            let rest = frame::next_frame(s.buf + joined(chunks)).1;
            &&& t == (StreamState { buf: t.buf, ..s })
            &&& ended ==> left.len() == 0 && t.buf == rest
            &&& !ended ==> t.next(false).1 == Err::<FramePoll, StreamError>(
                StreamError::FrameUnexpected,
            ) && rest.len() > 0
        }),
{
    lemma_waited(s, chunks);
    let (t, left, ended) = waited(s, chunks);
    if !ended {
        frame::lemma_next_frame_split(t.buf, joined(left));
        if frame::next_frame(s.buf + joined(chunks)).1.len() == 0 {
            assert(frame::next_frame(s.buf + joined(chunks)).1 =~= Seq::empty());
            lemma_unknown_only(s, chunks);
        }
    }
}

/// A stream that ends is over where nothing is left of it, and its share of the
/// decoder's budget is released; a stream that ends in the middle of a frame
/// fails, with `H3_FRAME_ERROR` unless the frame's type alone is an error.
pub proof fn lemma_end_of_stream(e: Exchange, chunks: Seq<Seq<u8>>, now: u64)
    requires
        e.stream.awaiting_headers && !e.stream.headers_blocked || in_body(e.stream)
            || past_trailers(e.stream),
        frame::next_frame(ahead(e, chunks)).0 == Ok::<Option<FrameValue>, FrameError>(None),
    ensures
        ({
            let over = frame::next_frame(ahead(e, chunks)).1.len() == 0;
            let (x, _, request) = read_request(e, chunks, now);
            let (y, _, data) = read_data(e, chunks, now);
            let (z, _, trailers) = read_trailers(e, chunks, now);
            &&& e.stream.awaiting_headers ==> {
                &&& over ==> request == Ok::<Polled<Option<RequestValue>>, StreamError>(
                    Polled::Ready(None),
                ) && ends(e, x)
                &&& !over ==> request is Err && (request->Err_0 is Frame || request->Err_0
                    is FrameUnexpected)
            }
            &&& in_body(e.stream) || past_trailers(e.stream) ==> {
                &&& over ==> data == Ok::<Polled<Option<Seq<u8>>>, StreamError>(
                    Polled::Ready(None),
                ) && ends(e, y)
                &&& over ==> trailers == Ok::<Polled<Option<Seq<Field>>>, StreamError>(
                    Polled::Ready(None),
                ) && ends(e, z)
                &&& !over ==> data is Err && (data->Err_0 is Frame || data->Err_0
                    is FrameUnexpected)
                &&& !over ==> trailers is Err && (trailers->Err_0 is Frame || trailers->Err_0
                    is FrameUnexpected)
            }
        }),
{
    lemma_cut(e.stream, chunks);
    let (t, left, ended) = waited(e.stream, chunks);
    if e.stream.awaiting_headers {
        lemma_read_request_waits(e, chunks, now);
    } else {
        lemma_read_data_waits(e, chunks, now);
        lemma_read_trailers_waits(e, chunks, now);
    }
    if ended {
        lemma_waited(e.stream, chunks);
        lemma_at_rest(e.stream, chunks);
    }
}

/// Once a stream has been waited for to its end, reading it again finds nothing
/// new.
proof fn lemma_at_rest(s: StreamState, chunks: Seq<Seq<u8>>)
    requires
        waited(s, chunks).2,
    ensures
        ({
            let t = waited(s, chunks).0;
            &&& frame::next_frame(t.buf) == (Ok::<Option<FrameValue>, FrameError>(None), t.buf)
            &&& frame::peek_type(t.buf) matches Some(ty) ==> !stream::control_plane_type(ty)
        }),
    decreases chunks.len(),
{
    let (next, r) = s.next(false);
    if chunks.len() == 0 {
        let none = Seq::<u8>::empty();
        frame::lemma_next_frame_split(s.buf, none);
        frame::lemma_peek_type_split(s.buf, none);
        assert(s.buf + none =~= s.buf);
        assert(next.buf + none =~= next.buf);
    } else {
        lemma_at_rest(next.fed(chunks[0]), chunks.skip(1));
    }
}

/// Whether the receiving side of a stream is over and its budget released.
pub open spec fn ends(before: Exchange, after: Exchange) -> bool {
    &&& after.stream.recv_finished
    &&& after.codecs.decoder.charged_to(before.stream.stream_id) == 0
    &&& after.codecs.encoder == before.codecs.encoder
    &&& after.codecs.unblocked == before.codecs.unblocked
    &&& after.codecs.decoder.table == before.codecs.decoder.table
    &&& after.codecs.decoder.blocked == before.codecs.decoder.blocked
}

/// A frame that is malformed fails a stream that reads its body, with
/// `H3_FRAME_ERROR` or `H3_FRAME_UNEXPECTED`, and one of a type that only HTTP/2
/// knows is unexpected.
pub proof fn lemma_malformed_frames(e: Exchange, chunks: Seq<Seq<u8>>, now: u64)
    requires
        in_body(e.stream) || past_trailers(e.stream),
        frame::next_frame(ahead(e, chunks)).0 is Err,
    ensures
        ({
            let err = frame::next_frame(ahead(e, chunks)).0->Err_0;
            let data = read_data(e, chunks, now).2;
            &&& data is Err
            &&& err is Unexpected ==> data->Err_0 is FrameUnexpected
            &&& err is Frame ==> data->Err_0 is Frame || data->Err_0 is FrameUnexpected
        }),
{
    lemma_read_data_waits(e, chunks, now);
    lemma_waited(e.stream, chunks);
    let (t, left, ended) = waited(e.stream, chunks);
    frame::lemma_next_frame_split(t.buf, joined(left));
}

/// A HEADERS frame behind the body ends the body: a poll for the trailers yields
/// the fields of its section, or `H3_MESSAGE_ERROR` where they are no trailers,
/// also where the end of the body was not polled for. A section that waits is
/// parked until it is there.
pub proof fn lemma_trailers_arrive(
    e: Exchange,
    chunks: Seq<Seq<u8>>,
    block: Seq<u8>,
    tail: Seq<u8>,
    later: CodecsState,
    ended: bool,
    now: u64,
)
    requires
        in_body(e.stream),
        frame::next_frame(ahead(e, chunks)) == (
            Ok::<Option<FrameValue>, FrameError>(Some(FrameValue::Headers(block))),
            tail,
        ),
    ensures
        ({
            let decoded = e.codecs.decode(block, e.stream.stream_id, now).1;
            let (x, left, r) = read_trailers(e, chunks, now);
            let (b, _, over) = read_data(e, chunks, now);
            let resumed = Exchange { stream: x.stream, codecs: later };
            let (y, again) = resumed.recv_trailers(ended, now);
            let queue = codecs::queue_of(later.unblocked, e.stream.stream_id);
            &&& decoded matches Ok(Some(list)) ==> r == match message::trailers_of(list) {
                Some(t) => Ok::<Polled<Option<Seq<Field>>>, StreamError>(Polled::Ready(Some(t))),
                None => Err::<Polled<Option<Seq<Field>>>, StreamError>(StreamError::Message),
            } && past_trailers(x.stream) && ahead(x, left) == tail
            &&& decoded matches Err(err) ==> r == Err::<
                Polled<Option<Seq<Field>>>,
                StreamError,
            >(StreamError::Qpack(err))
            &&& decoded is Ok ==> over == Ok::<Polled<Option<Seq<u8>>>, StreamError>(
                Polled::Ready(None),
            )
            &&& decoded is Ok && decoded->Ok_0 is None ==> {
                &&& r == Ok::<Polled<Option<Seq<Field>>>, StreamError>(Polled::Parked)
                &&& b.stream == x.stream
                &&& b.codecs == x.codecs
                &&& queue.len() == 0 ==> y == resumed && again == r
                &&& queue.len() > 0 ==> {
                    &&& again == match message::trailers_of(queue[0]) {
                        Some(t) => Ok::<Polled<Option<Seq<Field>>>, StreamError>(
                            Polled::Ready(Some(t)),
                        ),
                        None => Err::<Polled<Option<Seq<Field>>>, StreamError>(
                            StreamError::Message,
                        ),
                    }
                    &&& past_trailers(y.stream)
                    &&& codecs::queue_of(y.codecs.unblocked, e.stream.stream_id) == queue.skip(1)
                }
            }
        }),
{
    lemma_read_data_waits(e, chunks, now);
    lemma_read_trailers_waits(e, chunks, now);
    lemma_waited(e.stream, chunks);
    lemma_frame_arrives(e.stream, chunks);
    let queue = codecs::queue_of(later.unblocked, e.stream.stream_id);
    if queue.len() == 1 {
        assert(queue.skip(1) =~= Seq::empty());
    }
}

/// A poll for a part of the message that is not due waits, and changes nothing:
/// the body and the trailers wait for the request, and the body for trailers that
/// are on their way. A poll for the request behind it finds none.
pub proof fn lemma_polls_wait_their_turn(e: Exchange, ended: bool, now: u64)
    ensures
        (e.stream.awaiting_headers || e.stream.headers_blocked || e.stream.trailers_blocked)
            && !e.stream.recv_finished ==> e.recv_data(ended, now) == (
            e,
            Ok::<Polled<Option<Seq<u8>>>, StreamError>(Polled::Pending),
        ),
        e.stream.recv_finished ==> e.recv_data(ended, now) == (
            e,
            Ok::<Polled<Option<Seq<u8>>>, StreamError>(Polled::Ready(None)),
        ),
        (e.stream.awaiting_headers || e.stream.headers_blocked) && !e.stream.recv_finished
            && e.stream.trailers_lines is None && !e.stream.trailers_blocked ==> e.recv_trailers(
            ended,
            now,
        ) == (e, Ok::<Polled<Option<Seq<Field>>>, StreamError>(Polled::Pending)),
        e.stream.recv_finished && e.stream.trailers_lines is None && !e.stream.trailers_blocked
            ==> e.recv_trailers(ended, now) == (
            e,
            Ok::<Polled<Option<Seq<Field>>>, StreamError>(Polled::Ready(None)),
        ),
        !e.stream.awaiting_headers && !e.stream.headers_blocked ==> e.headers(ended, now) == (
            e,
            Ok::<Polled<Option<RequestValue>>, StreamError>(Polled::Ready(None)),
        ),
{
}

/// The types of frames that a request stream never carries.
pub proof fn lemma_control_plane_types(ty: nat)
    ensures
        stream::control_plane_type(ty) <==> ty == 0x03 || ty == 0x04 || ty == 0x05 || ty == 0x07
            || ty == 0x0d,
{
}

/// A new stream is in the middle of nothing.
pub proof fn lemma_new_stream(stream_id: u64)
    ensures
        ({
            let s = StreamState::initial(stream_id);
            &&& s.stream_id == stream_id
            &&& s.buf.len() == 0
            &&& s.awaiting_headers
            &&& !s.headers_blocked && s.trailers_lines is None && !s.trailers_blocked
            &&& !s.trailers_done && !s.recv_finished
            &&& !s.sent_headers && !s.sent_trailers
            &&& s.pending_send is Idle
            &&& s.send_buf.len() == 0
        }),
{
}

/// A frame of the control plane on a request stream is an error as soon as its type
/// is there, whatever follows it, and also behind frames of unknown types.
pub proof fn lemma_foreign_frames(
    s: StreamState,
    ty: nat,
    rest: Seq<u8>,
    ended: bool,
    unknown: nat,
    p: Seq<u8>,
)
    requires
        ty == 0x03 || ty == 0x04 || ty == 0x05 || ty == 0x07 || ty == 0x0d,
        unknown <= MAX_VARINT,
        !frame::known_type(unknown),
        !frame::http2_only(unknown),
        p.len() <= MAX_VARINT,
        s.buf == frame::varint_octets(ty) + rest || s.buf == frame::shaped(unknown, p) + (
        frame::varint_octets(ty) + rest),
    ensures
        s.next(ended) == (s, Err::<FramePoll, StreamError>(StreamError::FrameUnexpected)),
{
    frame::lemma_varint_layout(ty);
    frame::lemma_varint_round_trip(ty, Seq::empty());
    frame::lemma_varint_round_trip(unknown, Seq::empty());
    frame::lemma_varint_round_trip(p.len(), Seq::empty());
    frame::lemma_varint_round_trip(0, Seq::empty());
    frame::lemma_types_are_peeked(ty, Seq::empty(), rest, frame::varint_octets(ty).len() as int);
    frame::lemma_types_are_peeked(
        unknown,
        p,
        frame::varint_octets(ty) + rest,
        frame::varint_octets(unknown).len() as int,
    );
}

/// Behind a body that was reported over only trailers may come: any other frame is
/// an error, and so is anything but DATA and HEADERS within the body.
pub proof fn lemma_only_trailers_follow_the_body(e: Exchange, chunks: Seq<Seq<u8>>, now: u64)
    requires
        in_body(e.stream),
        frame::next_frame(ahead(e, chunks)).0 matches Ok(Some(_)),
    ensures
        ({
            let f = frame::next_frame(ahead(e, chunks)).0->Ok_0.unwrap();
            &&& !(f is Headers) ==> read_trailers(e, chunks, now).2 == Err::<
                Polled<Option<Seq<Field>>>,
                StreamError,
            >(StreamError::FrameUnexpected)
            &&& !(f is Data || f is Headers) ==> read_data(e, chunks, now).2 == Err::<
                Polled<Option<Seq<u8>>>,
                StreamError,
            >(StreamError::FrameUnexpected)
        }),
{
    lemma_read_data_waits(e, chunks, now);
    lemma_read_trailers_waits(e, chunks, now);
    lemma_waited(e.stream, chunks);
    lemma_frame_arrives(e.stream, chunks);
}

} // verus!
