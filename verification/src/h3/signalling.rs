//! What a control plane says to its peer, and what it makes of what the peer
//! says.
//!
//! Every frame that is queued reaches the control stream as that frame, behind
//! what was queued before; what is queued for a stream is written to that stream,
//! once and in order; every frame that the peer's control stream carries is heard
//! once and in order, however the stream is cut into chunks; and a poll passes no
//! input over.

use super::codecs::CodecsState;
use super::control;
use super::control::{
    ControlError, ControlState, EventValue, Outbound, Plane, ReplyValue, StepValue, Turn,
};
use super::error::TransportError;
use super::frame;
use super::frame::{FrameError, FrameValue, Setting, Varint, MAX_VARINT};
use super::qpack::QpackError;
use super::reading;
use super::settings;
use super::settings::{LocalSettings, PeerValues};
use super::stream::joined;
use vstd::prelude::*;

verus! {

/// Everything that is to be written on the control stream.
pub open spec fn control_octets(c: ControlState) -> Seq<u8> {
    (match c.control_out {
        Some(b) => b,
        None => Seq::empty(),
    }) + c.control_buf
}

/// Whether `after` has one frame more to write on its control stream, behind what
/// was there before: its octets are read as that frame, with nothing left over.
pub open spec fn says(before: ControlState, after: ControlState, f: FrameValue) -> bool {
    let n = control_octets(before).len() as int;
    &&& control_octets(after).len() >= n
    &&& control_octets(after).take(n) == control_octets(before)
    &&& frame::next_frame(control_octets(after).skip(n)) == (
        Ok::<Option<FrameValue>, FrameError>(Some(f)),
        Seq::<u8>::empty(),
    )
    &&& after.control_out == before.control_out
}

/// A frame that is queued is said to the peer, and nothing else changes.
pub proof fn lemma_queued_frames_are_said(c: ControlState, f: FrameValue)
    requires
        frame::frame_fits(f),
        !(f is Settings),
    ensures
        says(c, c.queued(f), f),
        c.queued(f) == (ControlState { control_buf: c.queued(f).control_buf, ..c }),
{
    let o = frame::frame_octets(f);
    let n = control_octets(c).len() as int;
    let d = c.queued(f);
    assert(control_octets(d) =~= control_octets(c) + o);
    assert(control_octets(d).take(n) =~= control_octets(c));
    assert(control_octets(d).skip(n) =~= o);
    frame::lemma_frame_round_trip(f, Seq::empty());
    assert(o + Seq::<u8>::empty() =~= o);
}

/// Being told to leave says GOAWAY to the peer with the very ID that is then
/// reported as sent; being told again changes nothing.
pub proof fn lemma_goaway_is_said(c: ControlState, id: u64)
    requires
        id <= MAX_VARINT,
    ensures
        c.goaway_sent is None ==> {
            &&& c.leaving(id).goaway_sent == Some(id)
            &&& says(c, c.leaving(id), FrameValue::Goaway(id))
            &&& c.leaving(id) == (ControlState {
                goaway_sent: Some(id),
                control_buf: c.leaving(id).control_buf,
                ..c
            })
        },
        c.goaway_sent is Some ==> c.leaving(id) == c,
{
    frame::lemma_varint_round_trip(id as nat, Seq::empty());
    if c.goaway_sent is None {
        let d = ControlState { goaway_sent: Some(id), ..c };
        lemma_queued_frames_are_said(d, FrameValue::Goaway(id));
        assert(control_octets(d) == control_octets(c));
    }
}

/// The octets that a run of writes brings to a stream.
pub open spec fn brought(writes: Seq<(u64, Seq<u8>)>, handle: u64) -> Seq<u8>
    decreases writes.len(),
{
    if writes.len() == 0 {
        Seq::empty()
    } else if writes.last().0 == handle {
        brought(writes.drop_last(), handle) + writes.last().1
    } else {
        brought(writes.drop_last(), handle)
    }
}

proof fn lemma_brought_add(a: Seq<(u64, Seq<u8>)>, b: Seq<(u64, Seq<u8>)>, handle: u64)
    ensures
        brought(a + b, handle) == brought(a, handle) + brought(b, handle),
    decreases b.len(),
{
    if b.len() == 0 {
        assert(a + b =~= a);
        assert(brought(a, handle) + brought(b, handle) =~= brought(a, handle));
    } else {
        lemma_brought_add(a, b.drop_last(), handle);
        assert((a + b).drop_last() =~= a + b.drop_last());
        assert((a + b).last() == b.last());
        assert(brought(a + b, handle) =~= brought(a, handle) + brought(b, handle));
    }
}

proof fn lemma_brought_queue(queue: Seq<Seq<u8>>, to: u64, handle: u64)
    ensures
        brought(queue.map_values(|b: Seq<u8>| (to, b)), handle) == if to == handle {
            joined(queue)
        } else {
            Seq::empty()
        },
    decreases queue.len(),
{
    let w = queue.map_values(|b: Seq<u8>| (to, b));
    if queue.len() > 0 {
        lemma_brought_queue(queue.drop_last(), to, handle);
        assert(w.drop_last() =~= queue.drop_last().map_values(|b: Seq<u8>| (to, b)));
        assert(w.last() == (to, queue.last()));
    } else {
        assert(w =~= Seq::empty());
    }
}

proof fn lemma_brought_one(to: u64, b: Seq<u8>, handle: u64)
    ensures
        brought(seq![(to, b)], handle) == if to == handle {
            b
        } else {
            Seq::empty()
        },
{
    let w = seq![(to, b)];
    assert(w.drop_last() =~= Seq::empty());
    assert(brought(w.drop_last(), handle) =~= Seq::empty());
    assert(Seq::<u8>::empty() + b =~= b);
}

/// What is to be written brings to each open stream what is queued for it, all of
/// it and in order, and nothing to any other. Nothing is written to a stream that
/// is not open.
pub proof fn lemma_writes_reach_their_streams(c: ControlState, handle: u64)
    requires
        c.out_control is Some && c.out_encoder is Some ==> c.out_control != c.out_encoder,
        c.out_control is Some && c.out_decoder is Some ==> c.out_control != c.out_decoder,
        c.out_encoder is Some && c.out_decoder is Some ==> c.out_encoder != c.out_decoder,
    ensures
        c.out_control == Some(handle) ==> brought(c.writes(), handle) == control_octets(c),
        c.out_encoder == Some(handle) ==> brought(c.writes(), handle) == joined(
            c.encoder_pending,
        ),
        c.out_decoder == Some(handle) ==> brought(c.writes(), handle) == joined(
            c.decoder_pending,
        ),
        c.out_control != Some(handle) && c.out_encoder != Some(handle) && c.out_decoder != Some(
            handle,
        ) ==> brought(c.writes(), handle).len() == 0,
        c.out_control is None && c.out_encoder is None && c.out_decoder is None ==> c.writes().len()
            == 0,
{
    let none = Seq::<(u64, Seq<u8>)>::empty();
    let first = match (c.out_control, c.control_out) {
        (Some(h), Some(b)) => seq![(h, b)],
        _ => none,
    };
    let second = match c.out_control {
        Some(h) if c.control_buf.len() > 0 => seq![(h, c.control_buf)],
        _ => none,
    };
    let encoder = match c.out_encoder {
        Some(h) => c.encoder_pending.map_values(|b: Seq<u8>| (h, b)),
        None => none,
    };
    let decoder = match c.out_decoder {
        Some(h) => c.decoder_pending.map_values(|b: Seq<u8>| (h, b)),
        None => none,
    };
    assert(c.writes() =~= first + second + encoder + decoder);
    lemma_brought_add(first + second + encoder, decoder, handle);
    lemma_brought_add(first + second, encoder, handle);
    lemma_brought_add(first, second, handle);
    if let Some(h) = c.out_control {
        if let Some(b) = c.control_out {
            lemma_brought_one(h, b, handle);
        }
        lemma_brought_one(h, c.control_buf, handle);
        assert(c.control_buf.len() == 0 ==> c.control_buf =~= Seq::empty());
    }
    if let Some(h) = c.out_encoder {
        lemma_brought_queue(c.encoder_pending, h, handle);
    }
    if let Some(h) = c.out_decoder {
        lemma_brought_queue(c.decoder_pending, h, handle);
    }
    let a = brought(first, handle);
    let b = brought(second, handle);
    let e = brought(encoder, handle);
    let d = brought(decoder, handle);
    assert(brought(c.writes(), handle) == a + b + e + d);
    assert(brought(none, handle) =~= Seq::empty());
    if c.out_control == Some(handle) {
        assert(a + b + e + d =~= control_octets(c));
    } else if c.out_encoder == Some(handle) {
        assert(a + b + e + d =~= joined(c.encoder_pending));
    } else if c.out_decoder == Some(handle) {
        assert(a + b + e + d =~= joined(c.decoder_pending));
    }
}

/// Acknowledgments go out on the QPACK decoder stream behind those before them,
/// all of them.
pub proof fn lemma_acknowledgments_go_out(c: ControlState, acks: Seq<u8>)
    ensures
        joined(c.acknowledging(acks).decoder_pending) == joined(c.decoder_pending) + acks,
        c.acknowledging(acks) == (ControlState {
            decoder_pending: c.acknowledging(acks).decoder_pending,
            ..c
        }),
{
    if acks.len() == 0 {
        assert(joined(c.decoder_pending) + acks =~= joined(c.decoder_pending));
    } else {
        assert(c.decoder_pending.push(acks).drop_last() =~= c.decoder_pending);
    }
}

/// A new control plane has opened, said and heard nothing.
pub proof fn lemma_new_plane(local: LocalSettings)
    ensures
        ({
            let c = ControlState::initial(local);
            &&& c.local == local
            &&& c.unopened() == Some(Outbound::Control)
            &&& c.writes().len() == 0
            &&& control_octets(c).len() == 0
            &&& c.encoder_pending.len() == 0 && c.decoder_pending.len() == 0
            &&& c.in_control is None && c.in_encoder is None && c.in_decoder is None
            &&& c.pending_uni is None && c.in_discard is None
            &&& !c.settings_received && c.max_push_id is None && c.goaway_sent is None
            &&& c.events.len() == 0
            &&& c.turn is Rest
            &&& c.peer == PeerValues::initial()
        }),
{
}

/// The value of the last parameter with that identifier.
pub open spec fn last_of(list: Seq<Setting>, id: u64) -> Option<u64>
    decreases list.len(),
{
    if list.len() == 0 {
        None
    } else if list.last().0 == id {
        Some(list.last().1)
    } else {
        last_of(list.drop_last(), id)
    }
}

/// What a peer's parameters say: each setting is what the parameter with its
/// identifier says, and as it was before where there is none; other parameters
/// say nothing.
pub proof fn lemma_parameters_are_heard(v: PeerValues, list: Seq<Setting>)
    ensures
        ({
            let after = v.with_all(list);
            &&& after.qpack_max_table_capacity == match last_of(list, 0x01) {
                Some(n) => n,
                None => v.qpack_max_table_capacity,
            }
            &&& after.max_field_section_size == match last_of(list, 0x06) {
                Some(n) => Some(n),
                None => v.max_field_section_size,
            }
            &&& after.qpack_blocked_streams == match last_of(list, 0x07) {
                Some(n) => n,
                None => v.qpack_blocked_streams,
            }
            &&& after.enable_connect_protocol == match last_of(list, 0x08) {
                Some(n) => n != 0,
                None => v.enable_connect_protocol,
            }
        }),
    decreases list.len(),
{
    if list.len() > 0 {
        lemma_parameters_are_heard(v, list.drop_last());
    }
}

/// What an endpoint announces: each of its settings under its identifier, and an
/// identifier that means nothing.
pub proof fn lemma_settings_are_announced(local: LocalSettings)
    ensures
        ({
            let list = local.parameters();
            &&& last_of(list, 0x01) == Some(local.qpack_max_table_capacity)
            &&& last_of(list, 0x07) == Some(local.qpack_blocked_streams)
            &&& last_of(list, 0x06) == local.max_field_section_size
            &&& last_of(list, 0x08) == if local.enable_connect_protocol {
                Some(1u64)
            } else {
                None
            }
            &&& forall|i: int|
                0 <= i < list.len() ==> (#[trigger] list[i]).0 == 0x01 || list[i].0 == 0x06
                    || list[i].0 == 0x07 || list[i].0 == 0x08 || list[i].0 == 0x21
            &&& forall|i: int, j: int|
                0 <= i < j < list.len() ==> (#[trigger] list[i]).0 != (#[trigger] list[j]).0
        }),
        settings::announced(local).qpack_max_table_capacity == local.qpack_max_table_capacity,
        settings::announced(local).max_field_section_size == local.max_field_section_size,
        settings::announced(local).qpack_blocked_streams == local.qpack_blocked_streams,
        settings::announced(local).enable_connect_protocol == local.enable_connect_protocol,
{
    let list = local.parameters();
    lemma_last_of_distinct(list, 0x01);
    lemma_last_of_distinct(list, 0x06);
    lemma_last_of_distinct(list, 0x07);
    lemma_last_of_distinct(list, 0x08);
    assert(list[0] == (0x01u64, local.qpack_max_table_capacity));
    assert(list[1] == (0x07u64, local.qpack_blocked_streams));
    if let Some(size) = local.max_field_section_size {
        assert(list[2] == (0x06u64, size));
    }
    if local.enable_connect_protocol {
        assert(list[list.len() - 2] == (0x08u64, 1u64));
    }
}

proof fn lemma_last_of_distinct(list: Seq<Setting>, id: u64)
    requires
        forall|i: int, j: int|
            0 <= i < j < list.len() ==> (#[trigger] list[i]).0 != (#[trigger] list[j]).0,
    ensures
        forall|i: int|
            0 <= i < list.len() && (#[trigger] list[i]).0 == id ==> last_of(list, id) == Some(
                list[i].1,
            ),
        (forall|i: int| 0 <= i < list.len() ==> (#[trigger] list[i]).0 != id) ==> last_of(list, id)
            is None,
    decreases list.len(),
{
    if list.len() > 0 {
        let less = list.drop_last();
        assert forall|i: int, j: int| 0 <= i < j < less.len() implies (#[trigger] less[i]).0 != (
        #[trigger] less[j]).0 by {
            assert(less[i] == list[i] && less[j] == list[j]);
        }
        lemma_last_of_distinct(less, id);
        assert forall|i: int| 0 <= i < list.len() && (#[trigger] list[i]).0 == id implies last_of(
            list,
            id,
        ) == Some(list[i].1) by {
            if i < less.len() {
                assert(less[i] == list[i]);
                assert(list[i].0 != list[list.len() - 1].0);
            }
        }
        assert(list[list.len() - 1] == list.last());
        if forall|i: int| 0 <= i < list.len() ==> (#[trigger] list[i]).0 != id {
            assert forall|i: int| 0 <= i < less.len() implies (#[trigger] less[i]).0 != id by {
                assert(less[i] == list[i]);
            }
        }
    }
}

/// What a frame on the control stream does where it is no error: the driver hears
/// of it, with the ID it carries; a push limit is kept; and settings are taken
/// over and shape the encoder, which may then use as much of the peer's table as
/// the peer allows. Nothing else changes.
pub proof fn lemma_control_frames_are_heard(p: Plane, f: FrameValue)
    requires
        p.control_frame(f).1 is Ok,
    ensures
        ({
            let q = p.control_frame(f).0;
            &&& f matches FrameValue::Goaway(id) ==> q == (Plane {
                control: ControlState {
                    events: p.control.events.push(EventValue::Goaway { id }),
                    ..p.control
                },
                ..p
            })
            &&& f matches FrameValue::MaxPushId(id) ==> q == (Plane {
                control: ControlState {
                    events: p.control.events.push(EventValue::MaxPushId { id }),
                    max_push_id: Some(id),
                    ..p.control
                },
                ..p
            })
            &&& f matches FrameValue::Settings(list) ==> {
                let peer = p.control.peer.with_all(list);
                &&& q.control == (ControlState {
                    events: p.control.events.push(EventValue::Settings(peer)),
                    peer,
                    settings_received: true,
                    ..p.control
                })
                &&& q.codecs.peer_limit == peer.max_field_section_size
                &&& q.codecs.encoder is Some
                &&& ({
                    let e = q.codecs.encoder.unwrap();
                    &&& e.max_capacity == peer.qpack_max_table_capacity
                    &&& e.table.inserted == 0 && e.table.entries.len() == 0
                    &&& e.known_received == 0 && e.pending.len() == 0
                    &&& e.decoder_pending.len() == 0 && e.compress
                })
                &&& q.codecs == (CodecsState {
                    encoder: q.codecs.encoder,
                    peer_limit: q.codecs.peer_limit,
                    ..p.codecs
                })
            }
            &&& f is Goaway || f is MaxPushId || f is Settings
        }),
{
}

/// The plane with that much of its peer's control stream in its buffer.
pub open spec fn holding(p: Plane, handle: u64, buf: Seq<u8>) -> Plane {
    Plane { control: ControlState { in_control: Some((handle, buf)), ..p.control }, ..p }
}

/// The plane after a list of frames, each heard in its turn, up to the first that
/// is an error.
pub open spec fn heard(p: Plane, list: Seq<FrameValue>) -> (Plane, Result<(), ControlError>)
    decreases list.len(),
{
    if list.len() == 0 {
        (p, Ok(()))
    } else {
        match heard(p, list.drop_last()) {
            (q, Ok(())) => q.control_frame(list.last()),
            (q, Err(e)) => (q, Err(e)),
        }
    }
}

/// Every frame that the peer's control stream carries is heard, once and in
/// order, with unknown frames between them passed over; what is behind the last
/// of them stays buffered.
pub proof fn lemma_control_stream_is_heard(
    p: Plane,
    handle: u64,
    buf: Seq<u8>,
    list: Seq<FrameValue>,
    rest: Seq<u8>,
)
    requires
        p.control.progressed,
        reading::behind(buf, list) == Some(rest),
        heard(p, list).1 is Ok,
    ensures
        holding(p, handle, buf).frames() == holding(heard(p, list).0, handle, rest).frames(),
        frame::next_frame(rest) == (Ok::<Option<FrameValue>, FrameError>(None), rest) ==> holding(
            p,
            handle,
            buf,
        ).frames() == (holding(heard(p, list).0, handle, rest), Ok::<(), ControlError>(())),
    decreases list.len(),
{
    if list.len() > 0 {
        let less = list.drop_last();
        let mid = reading::behind(buf, less).unwrap();
        lemma_control_stream_is_heard(p, handle, buf, less, mid);
        lemma_heard_keeps(p, less);
        let q = heard(p, less).0;
        frame::lemma_next_frame_consumes(mid);
        let here = holding(q, handle, mid);
        let read = holding(q, handle, rest);
        assert(Plane { control: read.control.found(), ..read } =~= read);
        let (a, r) = read.control_frame(list.last());
        let (b, t) = q.control_frame(list.last());
        assert(a =~= holding(b, handle, rest));
        assert(here.frames() == a.frames());
    }
    let end = holding(heard(p, list).0, handle, rest);
    if frame::next_frame(rest) == (Ok::<Option<FrameValue>, FrameError>(None), rest) {
        assert(holding(end, handle, rest) =~= end);
    }
}

/// Hearing frames leaves the streams alone.
proof fn lemma_heard_keeps(p: Plane, list: Seq<FrameValue>)
    ensures
        heard(p, list).0.control.progressed == p.control.progressed,
        heard(p, list).0.control.in_control == p.control.in_control,
    decreases list.len(),
{
    if list.len() > 0 {
        lemma_heard_keeps(p, list.drop_last());
    }
}

/// How the transport cuts the peer's control stream into chunks does not matter:
/// hearing what one chunk brought and then what the next one did is hearing both
/// at once.
pub proof fn lemma_control_chunks_do_not_matter(
    p: Plane,
    handle: u64,
    buf: Seq<u8>,
    more: Seq<u8>,
)
    requires
        p.control.progressed,
        holding(p, handle, buf).frames().1 is Ok,
    ensures
        ({
            let first = holding(p, handle, buf).frames().0;
            &&& first.control.in_control is Some
            &&& first.control.in_control.unwrap().0 == handle
            &&& holding(first, handle, first.control.in_control.unwrap().1 + more).frames()
                == holding(p, handle, buf + more).frames()
        }),
    decreases buf.len(),
{
    let here = holding(p, handle, buf);
    let there = holding(p, handle, buf + more);
    let (next, rest) = frame::next_frame(buf);
    frame::lemma_next_frame_split(buf, more);
    frame::lemma_next_frame_consumes(buf);
    match next {
        Ok(Some(f)) => {
            let read = holding(p, handle, rest);
            assert(Plane { control: read.control.found(), ..read } =~= read);
            let far = holding(p, handle, rest + more);
            assert(Plane { control: far.control.found(), ..far } =~= far);
            frame::lemma_next_frame_consumes(buf + more);
            let (q, r) = read.control_frame(f);
            let (g, t) = far.control_frame(f);
            assert(q =~= holding(q, handle, rest));
            assert(g =~= holding(q, handle, rest + more));
            assert(here.frames() == q.frames());
            assert(there.frames() == g.frames());
            lemma_control_chunks_do_not_matter(q, handle, rest, more);
        },
        Ok(None) => {
            let first = here.frames().0;
            assert(first == holding(p, handle, rest));
            assert(holding(first, handle, rest + more) =~= holding(p, handle, rest + more));
            lemma_frames_by_next(p, handle, buf + more, rest + more);
        },
        Err(_) => {},
    }
}

/// The frames of a buffer depend on what is read off it alone.
proof fn lemma_frames_by_next(p: Plane, handle: u64, a: Seq<u8>, b: Seq<u8>)
    requires
        p.control.progressed,
        frame::next_frame(a) == frame::next_frame(b),
    ensures
        holding(p, handle, a).frames() == holding(p, handle, b).frames(),
{
    frame::lemma_next_frame_consumes(a);
    frame::lemma_next_frame_consumes(b);
    let (next, rest) = frame::next_frame(a);
    let read = holding(p, handle, rest);
    let x = holding(p, handle, a);
    let y = holding(p, handle, b);
    assert(Plane {
        control: ControlState { in_control: Some((handle, rest)), ..x.control },
        ..x
    } =~= read);
    assert(Plane {
        control: ControlState { in_control: Some((handle, rest)), ..y.control },
        ..y
    } =~= read);
}

/// What the types of streams are: a control stream is read from then on, with
/// what came behind its type; the octets behind the type of a QPACK stream are
/// handled like those of any later chunk; and any other stream that is not a push
/// stream is drained. Nothing else changes.
pub proof fn lemma_stream_types(p: Plane, handle: u64, left: Seq<u8>)
    ensures
        p.control.in_control is None ==> p.classified(handle, 0x00, left) == (
            holding(p, handle, left),
            Ok::<(), ControlError>(()),
        ),
        p.classified(handle, 0x01, left) == (
            p,
            Err::<(), ControlError>(ControlError::StreamCreation),
        ),
        p.control.in_encoder is None && left.len() > 0 ==> ({
            let (fed, r) = p.encoder_chunk(left);
            p.classified(handle, 0x02, left) == (
                if r is Ok {
                    Plane {
                        control: ControlState { in_encoder: Some(handle), ..fed.control },
                        ..fed
                    }
                } else {
                    fed
                },
                r,
            )
        }),
        p.control.in_encoder is None && left.len() == 0 ==> p.classified(handle, 0x02, left) == (
            Plane { control: ControlState { in_encoder: Some(handle), ..p.control }, ..p },
            Ok::<(), ControlError>(()),
        ),
        p.control.in_decoder is None && left.len() == 0 ==> p.classified(handle, 0x03, left) == (
            Plane { control: ControlState { in_decoder: Some(handle), ..p.control }, ..p },
            Ok::<(), ControlError>(()),
        ),
        p.control.in_decoder is None && left.len() > 0 ==> ({
            let (codecs, r) = p.codecs.feed_decoder(left);
            &&& r is Ok ==> p.classified(handle, 0x03, left) == (
                Plane { control: ControlState { in_decoder: Some(handle), ..p.control }, codecs },
                Ok::<(), ControlError>(()),
            )
            &&& r is Err ==> p.classified(handle, 0x03, left) == (
                Plane { codecs, ..p },
                Err::<(), ControlError>(ControlError::Qpack(r->Err_0)),
            )
        }),
{
}

/// A new stream is drained, read or refused by its type however that is cut into
/// chunks: as long as the type is unfinished more is asked for, and what arrived
/// is kept.
pub proof fn lemma_types_may_be_split(p: Plane, handle: u64, buf: Seq<u8>, b: Seq<u8>)
    requires
        p.control.turn is Classify,
        p.control.pending_uni == Some((handle, buf)),
    ensures
        frame::read_varint(buf + b) is More ==> p.chunk(b) == (
            Plane {
                control: ControlState { pending_uni: Some((handle, buf + b)), ..p.control },
                ..p
            },
            Ok::<StepValue, ControlError>(StepValue::Receive(handle)),
        ),
        frame::read_varint(buf + b) is Redundant ==> p.chunk(b).1 == Err::<StepValue, ControlError>(
            ControlError::Frame,
        ),
        frame::read_varint(buf + b) matches Varint::Value { value, len } ==> ({
            let open = Plane { control: ControlState { pending_uni: None, ..p.control }, ..p };
            let (q, r) = open.classified(handle, value, (buf + b).skip(len as int));
            &&& r is Err ==> p.chunk(b).1 == Err::<StepValue, ControlError>(r->Err_0)
            &&& r is Ok ==> p.chunk(b) == (Plane {
                control: ControlState { progressed: true, ..q.control },
                ..q
            }).at_control()
        }),
{
}

/// What arrives on the peer's encoder stream is fed to the decoder, and the
/// answer goes out; a failure is the connection's.
pub proof fn lemma_encoder_stream_is_fed(p: Plane, chunk: Seq<u8>)
    ensures
        ({
            let (codecs, answer) = p.codecs.feed_encoder(chunk);
            let (q, r) = p.encoder_chunk(chunk);
            &&& q.codecs == codecs
            &&& answer matches Ok(acks) ==> r is Ok && q.control == p.control.acknowledging(acks)
            &&& answer matches Err(e) ==> r == Err::<(), ControlError>(ControlError::Qpack(e))
                && q.control == p.control
        }),
{
}

/// The order in which a round asks.
pub open spec fn rank(turn: Turn) -> int {
    match turn {
        Turn::Rest => 0,
        Turn::Accept => 1,
        Turn::Classify => 2,
        Turn::Control => 3,
        Turn::Encoder => 4,
        Turn::Decoder => 5,
        Turn::Discard => 6,
    }
}

/// The stream that a turn is about, where there is one.
pub open spec fn subject(c: ControlState, turn: Turn) -> Option<u64> {
    match turn {
        Turn::Rest | Turn::Accept => None,
        Turn::Classify => match c.pending_uni {
            Some((h, _)) => Some(h),
            None => None,
        },
        Turn::Control => match c.in_control {
            Some((h, _)) => Some(h),
            None => None,
        },
        Turn::Encoder => c.in_encoder,
        Turn::Decoder => c.in_decoder,
        Turn::Discard => c.in_discard,
    }
}

/// Whether a poll goes on behind `turn` with nothing passed over: with the first
/// of the later inputs that there is; or, where there is none, with another round
/// if this one found something, and else it is over.
pub open spec fn goes_on(
    p: Plane,
    turn: Turn,
    step: (Plane, Result<StepValue, ControlError>),
) -> bool {
    let (q, r) = step;
    ||| exists|next: Turn|
        {
            &&& rank(next) > rank(turn)
            &&& #[trigger] subject(p.control, next) is Some
            &&& forall|other: Turn|
                rank(turn) < rank(other) < rank(next) ==> #[trigger] subject(p.control, other) is None
            &&& q == (Plane { control: ControlState { turn: next, ..p.control }, ..p })
            &&& r == Ok::<StepValue, ControlError>(
                StepValue::Receive(subject(p.control, next).unwrap()),
            )
        }
    ||| {
        &&& forall|other: Turn|
            rank(turn) < rank(other) ==> #[trigger] subject(p.control, other) is None
        &&& p.control.progressed ==> step == p.begin()
        &&& !p.control.progressed ==> r == Ok::<StepValue, ControlError>(StepValue::Pending) && q
            == (Plane { control: ControlState { turn: Turn::Rest, ..p.control }, ..p })
    }
}

proof fn lemma_goes_on(p: Plane)
    ensures
        goes_on(p, Turn::Accept, p.at_classify()),
        goes_on(p, Turn::Classify, p.at_control()),
        goes_on(p, Turn::Control, p.at_encoder()),
        goes_on(p, Turn::Encoder, p.at_decoder()),
        goes_on(p, Turn::Decoder, p.at_discard()),
        goes_on(p, Turn::Discard, p.end_round()),
{
    let c = p.control;
    assert(subject(c, Turn::Discard) is Some ==> goes_on(p, Turn::Decoder, p.at_discard()));
    assert(goes_on(p, Turn::Discard, p.end_round()));
    assert(goes_on(p, Turn::Decoder, p.at_discard()));
    if subject(c, Turn::Decoder) is Some {
        assert(goes_on(p, Turn::Encoder, p.at_decoder()));
    }
    assert(goes_on(p, Turn::Encoder, p.at_decoder()));
    if subject(c, Turn::Encoder) is Some {
        assert(goes_on(p, Turn::Control, p.at_encoder()));
    }
    assert(goes_on(p, Turn::Control, p.at_encoder()));
    if subject(c, Turn::Control) is Some {
        assert(goes_on(p, Turn::Classify, p.at_control()));
    }
    assert(goes_on(p, Turn::Classify, p.at_control()));
    if subject(c, Turn::Classify) is Some {
        assert(goes_on(p, Turn::Accept, p.at_classify()));
    }
}

/// A poll passes no input over. It begins with the oldest event that is not told
/// yet, and else asks for a new stream, or for the type of one; an input that has
/// nothing leads to the next; and an input that has something leads to the next
/// too, and to another round at the end. The frames of the control stream are
/// heard before the poll goes on behind it.
pub proof fn lemma_no_input_is_passed_over(p: Plane, chunk: Seq<u8>)
    ensures
        p.control.events.len() > 0 ==> p.begin() == (
            Plane {
                control: ControlState {
                    events: p.control.events.skip(1),
                    turn: Turn::Rest,
                    ..p.control
                },
                ..p
            },
            Ok::<StepValue, ControlError>(StepValue::Event(p.control.events[0])),
        ),
        p.control.events.len() == 0 && p.control.pending_uni is None ==> p.begin() == (
            Plane {
                control: ControlState { progressed: false, turn: Turn::Accept, ..p.control },
                ..p
            },
            Ok::<StepValue, ControlError>(StepValue::Accept),
        ),
        p.control.events.len() == 0 && p.control.pending_uni is Some ==> p.begin() == (
            Plane {
                control: ControlState { progressed: false, turn: Turn::Classify, ..p.control },
                ..p
            },
            Ok::<StepValue, ControlError>(StepValue::Receive(p.control.pending_uni.unwrap().0)),
        ),
        !(p.control.turn is Rest) && !(p.control.turn is Control) ==> goes_on(
            p,
            p.control.turn,
            p.answer(ReplyValue::Nothing),
        ),
        p.control.turn is Control && p.frames().1 is Ok ==> goes_on(
            p.frames().0,
            Turn::Control,
            p.answer(ReplyValue::Nothing),
        ),
        p.control.turn is Control && p.frames().1 is Err ==> p.answer(ReplyValue::Nothing).1
            == Err::<StepValue, ControlError>(p.frames().1->Err_0),
        p.control.turn is Encoder && p.encoder_chunk(chunk).1 is Ok ==> ({
            let q = p.encoder_chunk(chunk).0;
            let found = Plane { control: ControlState { progressed: true, ..q.control }, ..q };
            goes_on(found, Turn::Encoder, p.answer(ReplyValue::Chunk(chunk)))
        }),
        p.control.turn is Decoder && p.codecs.feed_decoder(chunk).1 is Ok ==> ({
            let found = Plane {
                control: ControlState { progressed: true, ..p.control },
                codecs: p.codecs.feed_decoder(chunk).0,
            };
            goes_on(found, Turn::Decoder, p.answer(ReplyValue::Chunk(chunk)))
        }),
        p.control.turn is Discard ==> ({
            let found = Plane { control: ControlState { progressed: true, ..p.control }, ..p };
            goes_on(found, Turn::Discard, p.answer(ReplyValue::Chunk(chunk)))
        }),
{
    lemma_goes_on(p);
    lemma_goes_on(p.frames().0);
    let q = p.encoder_chunk(chunk).0;
    lemma_goes_on(Plane { control: ControlState { progressed: true, ..q.control }, ..q });
    lemma_goes_on(
        Plane {
            control: ControlState { progressed: true, ..p.control },
            codecs: p.codecs.feed_decoder(chunk).0,
        },
    );
    lemma_goes_on(Plane { control: ControlState { progressed: true, ..p.control }, ..p });
}

/// What arrives on the peer's control stream joins what is not a whole frame yet,
/// and is heard before the poll goes on; a stream that is accepted is asked for
/// its type.
pub proof fn lemma_control_chunks_are_heard(p: Plane, handle: u64, buf: Seq<u8>, chunk: Seq<u8>)
    requires
        p.control.turn is Control,
        p.control.in_control == Some((handle, buf)),
    ensures
        ({
            let fed = Plane {
                control: ControlState {
                    in_control: Some((handle, buf + chunk)),
                    progressed: true,
                    ..p.control
                },
                ..p
            };
            &&& fed.frames().1 is Ok ==> goes_on(
                fed.frames().0,
                Turn::Control,
                p.answer(ReplyValue::Chunk(chunk)),
            )
            &&& fed.frames().1 is Err ==> p.answer(ReplyValue::Chunk(chunk)).1 == Err::<
                StepValue,
                ControlError,
            >(fed.frames().1->Err_0)
        }),
{
    let fed = Plane {
        control: ControlState {
            in_control: Some((handle, buf + chunk)),
            progressed: true,
            ..p.control
        },
        ..p
    };
    lemma_goes_on(fed.frames().0);
}

/// A stream that is accepted is asked for its type next.
pub proof fn lemma_accepted_streams_are_classified(p: Plane, handle: u64)
    requires
        p.control.turn is Accept,
    ensures
        p.answer(ReplyValue::Accepted(handle)) == (
            Plane {
                control: ControlState {
                    pending_uni: Some((handle, Seq::<u8>::empty())),
                    progressed: true,
                    turn: Turn::Classify,
                    ..p.control
                },
                ..p
            },
            Ok::<StepValue, ControlError>(StepValue::Receive(handle)),
        ),
{
}

/// A stream that ends before its type is known is refused and let go; and a
/// failure of the transport that is not the reset of a stream in use is the
/// connection's.
pub proof fn lemma_failures_are_told(p: Plane, e: TransportError)
    ensures
        p.control.turn is Classify ==> {
            &&& p.answer(ReplyValue::End).1 == Err::<StepValue, ControlError>(
                ControlError::StreamCreation,
            )
            &&& p.answer(ReplyValue::End).0.control.pending_uni is None
        },
        !(e is Reset) || p.control.turn is Accept || p.control.turn is Classify ==> p.answer(
            ReplyValue::Failed(e),
        ).1 == Err::<StepValue, ControlError>(ControlError::Transport(e)),
{
}

/// The codes that a failure of the control plane closes the connection with.
pub proof fn lemma_control_error_codes(e: TransportError)
    ensures
        ControlError::Transport(e).code_spec() == 0x0101,
        ControlError::StreamCreation.code_spec() == 0x0103,
        ControlError::ClosedCriticalStream.code_spec() == 0x0104,
        ControlError::FrameUnexpected.code_spec() == 0x0105,
        ControlError::Frame.code_spec() == 0x0106,
        ControlError::Id.code_spec() == 0x0108,
        ControlError::Settings.code_spec() == 0x0109,
        ControlError::MissingSettings.code_spec() == 0x010a,
        ControlError::Qpack(QpackError::DecompressionFailed).code_spec() == 0x0200,
        ControlError::Qpack(QpackError::EncoderStream).code_spec() == 0x0201,
        ControlError::Qpack(QpackError::DecoderStream).code_spec() == 0x0202,
        control::frame_failure(FrameError::Frame) is Frame,
        control::frame_failure(FrameError::Settings) is Settings,
        forall|ty: u64| #[trigger]
            control::frame_failure(FrameError::Unexpected(ty)) is FrameUnexpected,
{
}

} // verus!
