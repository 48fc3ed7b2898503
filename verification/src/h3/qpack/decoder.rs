//! QPACK decoder (RFC 9204 Sections 2.2, 4.3 and 4.5).
//!
//! The decoder materializes the shared dynamic table (Section 4.2) from the
//! encoder stream (Section 4.3): every instruction is parsed and mirrored as a
//! table insertion or capacity change. Field sections (Section 4.5) are decoded
//! against the table; a section whose Required Insert Count exceeds the
//! decoder's insert count is buffered as blocked (Section 2.2.1) until a later
//! encoder stream update makes it decodable.
//!
//! The decoder emits decoder stream instructions (Section 4.4): a Section
//! Acknowledgment for every decoded field section with a positive Required
//! Insert Count (Section 2.2.2.1), a Stream Cancellation for abandoned or
//! timed-out blocked streams (Section 2.2.2.2), and coalesced Insert Count
//! Increment instructions (Section 2.2.2.3).
//!
//! Validation is strict: malformed instructions are
//! `QPACK_ENCODER_STREAM_ERROR`, malformed field sections are
//! `QPACK_DECOMPRESSION_FAILED`, a Required Insert Count that does not equal
//! the largest referenced absolute index plus one is rejected (Sections 2.1.2
//! and 2.2.1), evictions that touch entries with an absolute index at or above
//! the Known Received Count are rejected (Sections 2.1.1 and 3.2.2), and field
//! sections that push a stream's cumulative decoded size over the advertised
//! `SETTINGS_MAX_FIELD_SECTION_SIZE` are rejected (RFC 9114 Section 7.2.4.1).

use super::error::QpackError;
use super::static_table;
use super::table;
use super::table::{DynamicTable, Table, MAX_INSERTIONS};
use super::wire;
use super::wire::MAX_DECODER_STREAM_PENDING;
use crate::hpack::{integer, string};
use crate::octets;
use crate::octets::Field;
use bytes::Bytes;
use std::collections::{HashMap, HashSet, VecDeque};
use vstd::prelude::*;
use vstd::slice::*;

verus! {

broadcast use vstd::std_specs::hash::group_hash_axioms;

/// A field section that was buffered as blocked and has since been decoded
/// after an encoder stream update.
#[derive(Debug, Clone, PartialEq, Eq)]
pub struct UnblockedSection {
    /// The stream the encoded field section was received on.
    pub stream_id: u64,
    /// The decoded header list.
    pub headers: Vec<(Bytes, Bytes)>,
}

/// A blocked field section as a value: its stream, its encoded form, its
/// Required Insert Count, and when it arrived.
pub struct Blocked {
    pub stream_id: u64,
    pub block: Seq<u8>,
    pub ric: nat,
    pub since: u64,
}

/// The number of sections of `stream_id` in `queue`.
pub open spec fn tally(queue: Seq<Blocked>, stream_id: u64) -> nat
    decreases queue.len(),
{
    if queue.len() == 0 {
        0
    } else {
        tally(queue.drop_last(), stream_id) + if queue.last().stream_id == stream_id {
            1nat
        } else {
            0nat
        }
    }
}

/// The streams that have sections in `queue`.
pub open spec fn streams(queue: Seq<Blocked>) -> Set<u64> {
    queue.map_values(|b: Blocked| b.stream_id).to_set()
}

/// `queue` without the sections of the streams in `gone`.
pub open spec fn without(queue: Seq<Blocked>, gone: Set<u64>) -> Seq<Blocked>
    decreases queue.len(),
{
    if queue.len() == 0 {
        Seq::empty()
    } else if gone.contains(queue.last().stream_id) {
        without(queue.drop_last(), gone)
    } else {
        without(queue.drop_last(), gone).push(queue.last())
    }
}

/// The octets of the names and values of a header list.
pub open spec fn list_size(list: Seq<Field>) -> nat
    decreases list.len(),
{
    if list.len() == 0 {
        0
    } else {
        list_size(list.drop_last()) + list.last().0.len() + list.last().1.len()
    }
}

/// `n`, or the largest `usize` where that is smaller.
pub open spec fn saturated(n: nat) -> nat {
    if n <= usize::MAX {
        n
    } else {
        usize::MAX as nat
    }
}

/// What is left of the decoder stream octets `s` behind its complete
/// instructions, or `None` where one is malformed or increments by nothing.
pub open spec fn check_acks(s: Seq<u8>) -> Option<Seq<u8>>
    decreases s.len(),
{
    match wire::ack_length(s) {
        Some(n) => if 1 <= n <= s.len() {
            match wire::parse_ack(s.take(n as int)) {
                Some(a) => if a == (wire::Ack::Increment { count: 0 }) {
                    None
                } else {
                    check_acks(s.skip(n as int))
                },
                None => None,
            }
        } else {
            Some(s)
        },
        None => Some(s),
    }
}

/// What a decoder holds.
#[verifier::ext_equal]
pub struct DecoderState {
    pub table: Table,
    pub max_capacity: nat,
    pub known_received: nat,
    /// Blocked field sections, in arrival order.
    pub blocked: Seq<Blocked>,
    /// Decoded field-section octets per stream.
    pub charged: Map<u64, nat>,
    pub max_blocked_streams: nat,
    pub max_field_section_size: nat,
    /// Decoder stream instructions awaiting transmission.
    pub outgoing: Seq<u8>,
    /// The unfinished instruction at the end of the peer's encoder stream.
    pub encoder_pending: Seq<u8>,
    /// The unfinished instruction at the end of the peer's decoder stream.
    pub decoder_pending: Seq<u8>,
}

impl DecoderState {
    /// A decoder that has received nothing.
    pub open spec fn initial(max_capacity: nat, max_blocked_streams: nat) -> DecoderState {
        DecoderState {
            table: Table::empty(0),
            max_capacity,
            known_received: 0,
            blocked: Seq::empty(),
            charged: Map::empty(),
            max_blocked_streams,
            max_field_section_size: usize::MAX as nat,
            outgoing: Seq::empty(),
            encoder_pending: Seq::empty(),
            decoder_pending: Seq::empty(),
        }
    }

    /// What every operation keeps: the table is valid and within the
    /// advertised capacity, only acknowledged entries were evicted, and no
    /// more was acknowledged than received.
    pub open spec fn valid(self) -> bool {
        &&& self.table.valid()
        &&& self.table.capacity <= self.max_capacity
        &&& self.table.dropped() <= self.known_received <= self.table.inserted
    }

    /// The octets charged to a stream so far.
    pub open spec fn charged_to(self, stream_id: u64) -> nat {
        if self.charged.contains_key(stream_id) {
            self.charged[stream_id]
        } else {
            0
        }
    }

    /// Hands out a decoded header list: its size is charged to the stream's
    /// budget and, where the section has dynamic references, it is
    /// acknowledged.
    pub open spec fn deliver(self, stream_id: u64, ric: nat, list: Seq<Field>) -> (
        DecoderState,
        bool,
    ) {
        let total = saturated(self.charged_to(stream_id) + list_size(list));
        let paid = DecoderState { charged: self.charged.insert(stream_id, total), ..self };
        if total > self.max_field_section_size {
            (paid, false)
        } else if ric > 0 {
            (
                DecoderState {
                    known_received: wire::larger(self.known_received, ric),
                    outgoing: self.outgoing + wire::ack_octets(wire::Ack::Section { stream_id }),
                    ..paid
                },
                true,
            )
        } else {
            (paid, true)
        }
    }

    /// Decodes, in arrival order, every blocked section whose Required Insert
    /// Count has been reached and that no earlier section of its stream holds
    /// back. `kept` are the sections already found to stay blocked. The second
    /// component lists what was decoded, and is `None` on failure.
    pub open spec fn unblock(self, kept: Seq<Blocked>) -> (
        DecoderState,
        Option<Seq<(u64, Seq<Field>)>>,
    )
        decreases self.blocked.len(),
    {
        if self.blocked.len() == 0 {
            (DecoderState { blocked: kept, ..self }, Some(Seq::empty()))
        } else {
            let b = self.blocked[0];
            let rest = DecoderState { blocked: self.blocked.skip(1), ..self };
            if b.ric > self.table.inserted || streams(kept).contains(b.stream_id) {
                rest.unblock(kept.push(b))
            } else {
                match wire::decode_section(self.table, self.max_capacity, b.block) {
                    None => (DecoderState { blocked: kept + rest.blocked, ..rest }, None),
                    Some(list) => {
                        let (next, ok) = rest.deliver(b.stream_id, b.ric, list);
                        if ok {
                            let (end, more) = next.unblock(kept);
                            (
                                end,
                                match more {
                                    Some(l) => Some(seq![(b.stream_id, list)] + l),
                                    None => None,
                                },
                            )
                        } else {
                            (DecoderState { blocked: kept + next.blocked, ..next }, None)
                        }
                    },
                }
            }
        }
    }

    /// Acknowledges the insertions not acknowledged yet (RFC 9204
    /// Section 2.2.2.3).
    pub open spec fn increment(self) -> DecoderState {
        if self.table.inserted > self.known_received {
            DecoderState {
                known_received: self.table.inserted,
                outgoing: self.outgoing + wire::ack_octets(
                    wire::Ack::Increment {
                        count: (self.table.inserted - self.known_received) as u64,
                    },
                ),
                ..self
            }
        } else {
            self
        }
    }

    /// The decoder after `buf` arrived on the peer's encoder stream, and the
    /// sections that this unblocked. What is left behind the complete
    /// instructions is kept, unless it is too long to become one; a complete one
    /// that is too long fails too, so that chunk boundaries do not matter.
    pub open spec fn feed_encoder(self, buf: Seq<u8>) -> (
        DecoderState,
        Result<Seq<(u64, Seq<Field>)>, QpackError>,
    ) {
        let data = self.encoder_pending + buf;
        let run = wire::run(self.table, self.max_capacity, self.known_received, data);
        if run.failed {
            (
                DecoderState { table: run.table, encoder_pending: data, ..self },
                Err(QpackError::EncoderStream),
            )
        } else {
            let fed = DecoderState { table: run.table, encoder_pending: run.rest, ..self };
            if run.rest.len() > wire::longest_instruction(self.max_capacity) {
                (fed, Err(QpackError::EncoderStream))
            } else {
                match fed.unblock(Seq::empty()) {
                    (next, Some(list)) => (next.increment(), Ok(list)),
                    (next, None) => (next, Err(QpackError::DecompressionFailed)),
                }
            }
        }
    }

    /// The decoder after `buf` arrived on the peer's decoder stream. What is
    /// left behind the complete instructions is kept, unless it is too long to
    /// become one.
    pub open spec fn feed_decoder(self, buf: Seq<u8>) -> (DecoderState, Result<(), QpackError>) {
        let data = self.decoder_pending + buf;
        match check_acks(data) {
            Some(rest) => (
                DecoderState { decoder_pending: rest, ..self },
                if rest.len() > MAX_DECODER_STREAM_PENDING {
                    Err(QpackError::DecoderStream)
                } else {
                    Ok(())
                },
            ),
            None => (
                DecoderState { decoder_pending: data, ..self },
                Err(QpackError::DecoderStream),
            ),
        }
    }

    /// The decoder after the encoded field section `block` arrived on
    /// `stream_id`, and its header list, or `None` where it was buffered as
    /// blocked.
    pub open spec fn decode(self, block: Seq<u8>, stream_id: u64, now: u64) -> (
        DecoderState,
        Result<Option<Seq<Field>>, QpackError>,
    ) {
        match wire::parse_prefix(block, self.max_capacity, self.table.inserted) {
            None => (self, Err(QpackError::DecompressionFailed)),
            Some((ric, _, _)) => {
                let waits = streams(self.blocked).contains(stream_id);
                if ric > self.table.inserted || waits {
                    if !waits && streams(self.blocked).len() >= self.max_blocked_streams {
                        (self, Err(QpackError::DecompressionFailed))
                    } else {
                        (
                            DecoderState {
                                blocked: self.blocked.push(
                                    Blocked { stream_id, block, ric, since: now },
                                ),
                                ..self
                            },
                            Ok(None),
                        )
                    }
                } else {
                    match wire::decode_section(self.table, self.max_capacity, block) {
                        None => (self, Err(QpackError::DecompressionFailed)),
                        Some(list) => match self.deliver(stream_id, ric, list) {
                            (next, true) => (next, Ok(Some(list))),
                            (next, false) => (next, Err(QpackError::DecompressionFailed)),
                        },
                    }
                }
            },
        }
    }

    /// The decoder once the streams in `gone` are abandoned: their blocked
    /// sections are dropped and their budgets released.
    pub open spec fn abandon(self, gone: Set<u64>) -> DecoderState {
        DecoderState {
            blocked: without(self.blocked, gone),
            charged: self.charged.remove_keys(gone),
            ..self
        }
    }
}

/// The streams with a section in `queue` that is older than `max_age`, in the
/// order of their first such section.
pub open spec fn expired(queue: Seq<Blocked>, now: u64, max_age: u64) -> Seq<u64>
    decreases queue.len(),
{
    if queue.len() == 0 {
        Seq::empty()
    } else {
        let before = expired(queue.drop_last(), now, max_age);
        let b = queue.last();
        if now - b.since > max_age && !before.contains(b.stream_id) {
            before.push(b.stream_id)
        } else {
            before
        }
    }
}

/// One Stream Cancellation for each of `ids`.
pub open spec fn cancellations(ids: Seq<u64>) -> Seq<u8>
    decreases ids.len(),
{
    if ids.len() == 0 {
        Seq::empty()
    } else {
        cancellations(ids.drop_last()) + wire::ack_octets(
            wire::Ack::Cancel { stream_id: ids.last() },
        )
    }
}

/// A field section buffered because its Required Insert Count had not been
/// reached yet (RFC 9204 Section 2.2.1).
#[derive(Debug)]
struct BlockedSection {
    stream_id: u64,
    buf: Bytes,
    ric: u64,
    since: u64,
}

impl BlockedSection {
    spec fn value(self) -> Blocked {
        Blocked {
            stream_id: self.stream_id,
            block: octets::content(self.buf),
            ric: self.ric as nat,
            since: self.since,
        }
    }
}

spec fn queue_of(queue: Seq<BlockedSection>) -> Seq<Blocked> {
    queue.map_values(|b: BlockedSection| b.value())
}

/// Whether `counts` holds the number of sections in `queue` of every stream
/// that has any, and nothing else.
spec fn lockstep(counts: Map<u64, usize>, queue: Seq<Blocked>) -> bool {
    forall|id: u64|
        {
            &&& #[trigger] counts.contains_key(id) <==> tally(queue, id) > 0
            &&& counts.contains_key(id) ==> counts[id] == tally(queue, id)
        }
}

/// QPACK decoder: dynamic table mirror and field section decoder.
#[derive(Debug)]
pub struct Decoder {
    dynamic: DynamicTable,
    /// The maximum dynamic table capacity advertised by this decoder in
    /// SETTINGS_QPACK_MAX_TABLE_CAPACITY (RFC 9204 Section 3.2.3).
    max_capacity: u64,
    /// Insertions and duplications acknowledged so far (RFC 9204
    /// Section 2.1.4).
    known_received: u64,
    /// Blocked field sections, in arrival order.
    blocked: VecDeque<BlockedSection>,
    /// Number of blocked sections per stream, so that admission does not
    /// rescan the queue.
    blocked_by_stream: HashMap<u64, usize>,
    /// Decoded field-section size per stream. The budget applies across a
    /// stream's field sections (request headers, trailers), not per section.
    section_size_by_stream: HashMap<u64, usize>,
    /// The maximum number of streams that may be blocked at once,
    /// SETTINGS_QPACK_BLOCKED_STREAMS (RFC 9204 Section 5).
    max_blocked_streams: usize,
    /// Cap on the decoded field-section size of a stream, the locally
    /// advertised `SETTINGS_MAX_FIELD_SECTION_SIZE` (RFC 9114
    /// Section 7.2.4.1).
    max_field_section_size: usize,
    /// Decoder stream instructions awaiting transmission.
    decoder_stream: Vec<u8>,
    /// Octets of the peer's encoder stream that do not form a complete
    /// instruction yet.
    encoder_stream_pending: Vec<u8>,
    /// Octets of the peer's decoder stream that do not form a complete
    /// instruction yet.
    decoder_stream_pending: Vec<u8>,
}

impl View for Decoder {
    type V = DecoderState;

    closed spec fn view(&self) -> DecoderState {
        DecoderState {
            table: self.dynamic@,
            max_capacity: self.max_capacity as nat,
            known_received: self.known_received as nat,
            blocked: queue_of(self.blocked@),
            charged: self.section_size_by_stream@.map_values(|n: usize| n as nat),
            max_blocked_streams: self.max_blocked_streams as nat,
            max_field_section_size: self.max_field_section_size as nat,
            outgoing: self.decoder_stream@,
            encoder_pending: self.encoder_stream_pending@,
            decoder_pending: self.decoder_stream_pending@,
        }
    }
}

proof fn lemma_tally_push(queue: Seq<Blocked>, b: Blocked, id: u64)
    ensures
        tally(queue.push(b), id) == tally(queue, id) + if b.stream_id == id {
            1nat
        } else {
            0nat
        },
{
    assert(queue.push(b).drop_last() =~= queue);
}

proof fn lemma_tally_add(a: Seq<Blocked>, b: Seq<Blocked>, id: u64)
    ensures
        tally(a + b, id) == tally(a, id) + tally(b, id),
    decreases b.len(),
{
    if b.len() == 0 {
        assert(a + b =~= a);
    } else {
        lemma_tally_add(a, b.drop_last(), id);
        assert((a + b).drop_last() =~= a + b.drop_last());
        assert((a + b).last() == b.last());
    }
}

proof fn lemma_tally_bound(queue: Seq<Blocked>, id: u64)
    ensures
        tally(queue, id) <= queue.len(),
    decreases queue.len(),
{
    if queue.len() > 0 {
        lemma_tally_bound(queue.drop_last(), id);
    }
}

/// A stream is among the streams of a queue where it has sections in it.
pub proof fn lemma_streams(queue: Seq<Blocked>, id: u64)
    ensures
        streams(queue).contains(id) == (tally(queue, id) > 0),
    decreases queue.len(),
{
    let ids = queue.map_values(|b: Blocked| b.stream_id);
    if queue.len() > 0 {
        lemma_streams(queue.drop_last(), id);
        let less = queue.drop_last().map_values(|b: Blocked| b.stream_id);
        assert(less =~= ids.drop_last());
        if streams(queue).contains(id) {
            let k = choose|k: int| 0 <= k < ids.len() && ids[k] == id;
            assert(k == ids.len() - 1 || less[k] == id);
        }
        if tally(queue, id) > 0 {
            if queue.last().stream_id == id {
                assert(ids[ids.len() - 1] == id);
            } else {
                let k = choose|k: int| 0 <= k < less.len() && less[k] == id;
                assert(ids[k] == id);
            }
        }
    }
}

proof fn lemma_streams_domain(counts: Map<u64, usize>, queue: Seq<Blocked>)
    requires
        lockstep(counts, queue),
    ensures
        counts.dom() == streams(queue),
{
    assert forall|id: u64| counts.dom().contains(id) == streams(queue).contains(id) by {
        lemma_streams(queue, id);
    }
    assert(counts.dom() =~= streams(queue));
}

/// Byte length of a string literal with a `prefix_bits`-bit prefix at the start
/// of `buf`, or `None` when `buf` is too short to hold its length integer or
/// its advertised content.
fn string_len(buf: &[u8], prefix_bits: u8) -> (r: Option<usize>)
    requires
        2 <= prefix_bits <= 8,
    ensures
        match wire::string_length(buf@, prefix_bits) {
            Some(n) => r == Some(n as usize) && 1 <= n <= buf@.len(),
            None => r is None,
        },
{
    let mut off: usize = 0;
    assert(buf@.skip(0) =~= buf@);
    match integer::decode(buf, &mut off, prefix_bits - 1) {
        Ok(len) => {
            if len > (buf.len() - off) as u64 {
                None
            } else {
                Some(off + len as usize)
            }
        },
        Err(_) => None,
    }
}

/// Byte length of one encoder-stream instruction (RFC 9204 Section 4.3)
/// starting at the beginning of `buf`, or `None` when `buf` is too short to
/// contain the whole instruction.
fn encoder_instruction_len(buf: &[u8]) -> (r: Option<usize>)
    ensures
        match wire::instruction_length(buf@) {
            Some(n) => r == Some(n as usize) && 1 <= n <= buf@.len(),
            None => r is None,
        },
{
    if buf.len() == 0 {
        return None;
    }
    let header: u8 = buf[0];
    if header >= 0x80 {
        match integer::encoded_len(buf, 6) {
            Some(index_len) => {
                let tail = slice_subrange(buf, index_len, buf.len());
                assert(tail@ =~= buf@.skip(index_len as int));
                match string_len(tail, 8) {
                    Some(value_len) => Some(index_len + value_len),
                    None => None,
                }
            },
            None => None,
        }
    } else if header >= 0x40 {
        match string_len(buf, 6) {
            Some(name_len) => {
                let tail = slice_subrange(buf, name_len, buf.len());
                assert(tail@ =~= buf@.skip(name_len as int));
                match string_len(tail, 8) {
                    Some(value_len) => Some(name_len + value_len),
                    None => None,
                }
            },
            None => None,
        }
    } else {
        integer::encoded_len(buf, 5)
    }
}

/// Byte length of one decoder-stream instruction (RFC 9204 Section 4.4)
/// starting at the beginning of `buf`, or `None` when `buf` is too short.
pub(crate) fn decoder_instruction_len(buf: &[u8]) -> (r: Option<usize>)
    ensures
        match wire::ack_length(buf@) {
            Some(n) => r == Some(n as usize) && 1 <= n <= buf@.len(),
            None => r is None,
        },
{
    if buf.len() == 0 {
        return None;
    }
    let prefix_bits: u8 = if buf[0] >= 0x80 {
        7
    } else {
        6
    };
    integer::encoded_len(buf, prefix_bits)
}

/// The decoded sections as values.
pub open spec fn unblocked(list: Seq<UnblockedSection>) -> Seq<(u64, Seq<Field>)> {
    list.map_values(|s: UnblockedSection| (s.stream_id, octets::fields(s.headers@)))
}

/// The octets of the names and values of `headers`.
fn section_size(headers: &Vec<(Bytes, Bytes)>) -> (r: usize)
    ensures
        r == saturated(list_size(octets::fields(headers@))),
{
    let mut total: usize = 0;
    let mut i: usize = 0;
    let ghost list = octets::fields(headers@);
    assert(list.take(0) =~= Seq::empty());
    while i < headers.len()
        invariant
            i <= headers@.len(),
            list == octets::fields(headers@),
            total == saturated(list_size(list.take(i as int))),
        decreases headers@.len() - i,
    {
        let line = &headers[i];
        proof {
            assert(list.take(i + 1).drop_last() =~= list.take(i as int));
            assert(list.take(i + 1).last() == octets::field(*line));
        }
        total = saturating_sum(saturating_sum(total, line.0.len()), line.1.len());
        i = i + 1;
    }
    assert(list.take(i as int) =~= list);
    total
}

fn saturating_sum(a: usize, b: usize) -> (r: usize)
    ensures
        r == saturated((a + b) as nat),
{
    if a > usize::MAX - b {
        usize::MAX
    } else {
        a + b
    }
}

impl Decoder {
    /// The dynamic table and the state are valid, and the per-stream counts
    /// are in lockstep with the queue of blocked sections.
    pub closed spec fn wf(&self) -> bool {
        &&& self.dynamic.wf()
        &&& self@.valid()
        &&& self@.table.inserted <= MAX_INSERTIONS
        &&& lockstep(self.blocked_by_stream@, queue_of(self.blocked@))
    }

    /// What well-formedness says of the view.
    pub proof fn lemma_wf(&self)
        requires
            self.wf(),
        ensures
            self@.valid(),
            self@.table.inserted <= MAX_INSERTIONS,
            self@.max_capacity <= u64::MAX,
    {
    }

    /// Creates a decoder that advertised `max_capacity` in
    /// SETTINGS_QPACK_MAX_TABLE_CAPACITY and `max_blocked_streams` in
    /// SETTINGS_QPACK_BLOCKED_STREAMS.
    pub fn new(max_capacity: u64, max_blocked_streams: usize) -> (r: Self)
        ensures
            r.wf(),
            r@ == DecoderState::initial(max_capacity as nat, max_blocked_streams as nat),
    {
        let r = Decoder {
            dynamic: DynamicTable::new(0),
            max_capacity,
            known_received: 0,
            blocked: VecDeque::new(),
            blocked_by_stream: HashMap::new(),
            section_size_by_stream: HashMap::new(),
            max_blocked_streams,
            max_field_section_size: usize::MAX,
            decoder_stream: Vec::new(),
            encoder_stream_pending: Vec::new(),
            decoder_stream_pending: Vec::new(),
        };
        assert(r@ =~= DecoderState::initial(max_capacity as nat, max_blocked_streams as nat));
        r
    }

    /// Sets the maximum size of a decoded field section: the locally
    /// advertised `SETTINGS_MAX_FIELD_SECTION_SIZE` (RFC 9114
    /// Section 7.2.4.1). The budget is per stream and accumulates across its
    /// field sections (request headers and trailers); a section that pushes a
    /// stream's cumulative name and value octets over this is rejected with
    /// `QPACK_DECOMPRESSION_FAILED`.
    pub fn set_max_field_section_size(&mut self, size: usize)
        requires
            old(self).wf(),
        ensures
            final(self).wf(),
            final(self)@ == (DecoderState {
                max_field_section_size: size as nat,
                ..old(self)@
            }),
    {
        self.max_field_section_size = size;
    }

    /// The total number of insertions and duplications materialized from the
    /// encoder stream so far; the decoder's Insert Count (RFC 9204
    /// Section 2.1.1).
    pub fn inserted(&self) -> (r: u64)
        ensures
            r == self@.table.inserted,
    {
        self.dynamic.inserted()
    }

    /// The Known Received Count: insertions and duplications the decoder has
    /// acknowledged or incremented (RFC 9204 Section 2.1.4).
    pub fn known_received(&self) -> (r: u64)
        ensures
            r == self@.known_received,
    {
        self.known_received
    }

    /// The number of field sections currently buffered as blocked.
    pub fn pending_blocked(&self) -> (r: usize)
        ensures
            r == self@.blocked.len(),
    {
        self.blocked.len()
    }

    /// The dynamic table as materialized from the encoder stream.
    pub fn dynamic(&self) -> (r: &DynamicTable)
        ensures
            r@ == self@.table,
    {
        &self.dynamic
    }

    /// The octets of the unfinished instruction at the end of the peer's
    /// encoder stream.
    pub(crate) fn encoder_stream_pending(&self) -> (r: usize)
        ensures
            r == self@.encoder_pending.len(),
    {
        self.encoder_stream_pending.len()
    }

    /// Takes the accumulated decoder stream instructions.
    pub fn take_decoder_stream(&mut self) -> (r: Bytes)
        requires
            old(self).wf(),
        ensures
            final(self).wf(),
            octets::content(r) == old(self)@.outgoing,
            final(self)@ == (DecoderState { outgoing: Seq::empty(), ..old(self)@ }),
    {
        let mut out: Vec<u8> = Vec::new();
        std::mem::swap(&mut out, &mut self.decoder_stream);
        assert(self@ =~= (DecoderState { outgoing: Seq::empty(), ..old(self)@ }));
        octets::from_vec(out)
    }

    /// Parses the Encoded Field Section Prefix (RFC 9204 Section 4.5.1): the
    /// Required Insert Count and the Base. Returns both and the number of
    /// octets consumed.
    pub fn read_prefix(&self, buf: &[u8]) -> (r: Result<(u64, u64, usize), QpackError>)
        requires
            self@.table.inserted <= MAX_INSERTIONS,
        ensures
            match wire::parse_prefix(buf@, self@.max_capacity, self@.table.inserted) {
                Some((ric, base, n)) => r matches Ok((a, b, c)) && a == ric && b == base && c == n
                    && n <= buf@.len(),
                None => r == Err::<(u64, u64, usize), QpackError>(QpackError::DecompressionFailed),
            },
    {
        let mut off: usize = 0;
        assert(buf@.skip(0) =~= buf@);
        let enc_ric: u64 = match integer::decode(buf, &mut off, 8) {
            Ok(v) => v,
            Err(_) => {
                return Err(QpackError::DecompressionFailed);
            },
        };
        let max_entries: u64 = self.max_capacity / 32;
        let ric: u64 = if enc_ric == 0 || max_entries == 0 {
            0
        } else {
            let full_range: u64 = 2 * max_entries;
            if enc_ric > full_range {
                return Err(QpackError::DecompressionFailed);
            }
            let max_value: u64 = self.dynamic.inserted() + max_entries;
            let wrapped: u64 = max_value % full_range;
            assert(wrapped <= max_value && wrapped < full_range) by (nonlinear_arith)
                requires
                    full_range > 0,
                    wrapped == max_value % full_range,
            ;
            let guess: u64 = max_value - wrapped + (enc_ric - 1);
            if guess > max_value {
                if guess <= full_range {
                    return Err(QpackError::DecompressionFailed);
                }
                guess - full_range
            } else {
                if guess == 0 {
                    return Err(QpackError::DecompressionFailed);
                }
                guess
            }
        };
        if off >= buf.len() {
            proof {
                assert(buf@.skip(off as int).len() == 0);
                reveal(integer::parse);
                reveal(integer::read);
            }
            return Err(QpackError::DecompressionFailed);
        }
        let header: u8 = buf[off];
        let delta: u64 = match integer::decode(buf, &mut off, 7) {
            Ok(v) => v,
            Err(_) => {
                return Err(QpackError::DecompressionFailed);
            },
        };
        let base: u64 = if header >= 0x80 {
            if delta >= ric {
                return Err(QpackError::DecompressionFailed);
            }
            ric - delta - 1
        } else {
            match ric.checked_add(delta) {
                Some(base) => base,
                None => {
                    return Err(QpackError::DecompressionFailed);
                },
            }
        };
        Ok((ric, base, off))
    }

    /// Reads the field line at `off` (RFC 9204 Section 4.5) and resolves its
    /// references. Returns the line and the insert count it takes.
    fn read_line(&self, buf: &[u8], off: &mut usize, base: u64) -> (r: Result<
        ((Bytes, Bytes), u64),
        QpackError,
    >)
        requires
            self.dynamic.wf(),
            self.dynamic@.inserted <= MAX_INSERTIONS,
            *old(off) < buf@.len(),
        ensures
            *final(off) <= buf@.len(),
            match wire::parse_line(buf@.skip(*old(off) as int)) {
                Some((l, n)) => match wire::resolve(self.dynamic@, base as nat, l) {
                    Some((f, need)) => r matches Ok((p, m)) && octets::field(p) == f && m == need
                        && n >= 1 && *final(off) == *old(off) + n,
                    None => r == Err::<((Bytes, Bytes), u64), QpackError>(
                        QpackError::DecompressionFailed,
                    ),
                },
                None => r == Err::<((Bytes, Bytes), u64), QpackError>(
                    QpackError::DecompressionFailed,
                ),
            },
    {
        proof {
            self.dynamic.lemma_wf();
        }
        let header: u8 = buf[*off];
        let ghost s = buf@.skip(*off as int);
        let start: usize = *off;
        assert(s[0] == header);
        if header >= 0x80 {
            // Indexed Field Line (4.5.2).
            let index: u64 = match integer::decode(buf, off, 6) {
                Ok(v) => v,
                Err(_) => {
                    return Err(QpackError::DecompressionFailed);
                },
            };
            if header >= 0xC0 {
                match static_entry(index) {
                    Some((name, value)) => Ok(
                        ((Bytes::from_static(name), Bytes::from_static(value)), 0),
                    ),
                    None => Err(QpackError::DecompressionFailed),
                }
            } else {
                match self.dynamic.get_base_relative_bytes(base, index) {
                    Some(line) => Ok((line, base - index)),
                    None => Err(QpackError::DecompressionFailed),
                }
            }
        } else if header >= 0x40 {
            // Literal Field Line with Name Reference (4.5.4).
            let index: u64 = match integer::decode(buf, off, 4) {
                Ok(v) => v,
                Err(_) => {
                    return Err(QpackError::DecompressionFailed);
                },
            };
            assert(buf@.skip(*off as int) =~= s.skip(*off - start));
            let value: Bytes = match string::decode(buf, off, 8) {
                Ok(v) => v,
                Err(_) => {
                    return Err(QpackError::DecompressionFailed);
                },
            };
            if header % 32 >= 16 {
                match static_entry(index) {
                    Some((name, _)) => Ok(((Bytes::from_static(name), value), 0)),
                    None => Err(QpackError::DecompressionFailed),
                }
            } else {
                match self.dynamic.get_base_relative_bytes(base, index) {
                    Some((name, _)) => Ok(((name, value), base - index)),
                    None => Err(QpackError::DecompressionFailed),
                }
            }
        } else if header >= 0x20 {
            // Literal Field Line with Literal Name (4.5.6): the N bit asks
            // peers not to index the line; it does not affect decoding.
            let name: Bytes = match string::decode(buf, off, 4) {
                Ok(v) => v,
                Err(_) => {
                    return Err(QpackError::DecompressionFailed);
                },
            };
            assert(buf@.skip(*off as int) =~= s.skip(*off - start));
            match string::decode(buf, off, 8) {
                Ok(value) => Ok(((name, value), 0)),
                Err(_) => Err(QpackError::DecompressionFailed),
            }
        } else if header >= 0x10 {
            // Indexed Field Line with Post-Base Index (4.5.3).
            let index: u64 = match integer::decode(buf, off, 4) {
                Ok(v) => v,
                Err(_) => {
                    return Err(QpackError::DecompressionFailed);
                },
            };
            match self.dynamic.get_post_base_bytes(base, index) {
                Some(line) => Ok((line, base + index + 1)),
                None => Err(QpackError::DecompressionFailed),
            }
        } else {
            // Literal Field Line with Post-Base Name Reference (4.5.5).
            let index: u64 = match integer::decode(buf, off, 3) {
                Ok(v) => v,
                Err(_) => {
                    return Err(QpackError::DecompressionFailed);
                },
            };
            assert(buf@.skip(*off as int) =~= s.skip(*off - start));
            let value: Bytes = match string::decode(buf, off, 8) {
                Ok(v) => v,
                Err(_) => {
                    return Err(QpackError::DecompressionFailed);
                },
            };
            match self.dynamic.get_post_base_bytes(base, index) {
                Some((name, _)) => Ok(((name, value), base + index + 1)),
                None => Err(QpackError::DecompressionFailed),
            }
        }
    }

    /// Decodes a field section whose Required Insert Count has been reached
    /// (immediate or retried from the blocked queue), validating that the
    /// announced Required Insert Count equals the largest referenced absolute
    /// index plus one (RFC 9204 Section 2.1.2).
    fn decode_ready(&self, buf: &[u8]) -> (r: Result<Vec<(Bytes, Bytes)>, QpackError>)
        requires
            self.dynamic.wf(),
            self.dynamic@.inserted <= MAX_INSERTIONS,
        ensures
            match wire::decode_section(self.dynamic@, self.max_capacity as nat, buf@) {
                Some(list) => r matches Ok(v) && octets::fields(v@) == list,
                None => r == Err::<Vec<(Bytes, Bytes)>, QpackError>(
                    QpackError::DecompressionFailed,
                ),
            },
    {
        let (ric, base, start) = match self.read_prefix(buf) {
            Ok(p) => p,
            Err(e) => {
                return Err(e);
            },
        };
        let ghost t = self.dynamic@;
        let ghost all = wire::decode_lines(t, base as nat, buf@.skip(start as int));
        let mut off: usize = start;
        let mut headers: Vec<(Bytes, Bytes)> = Vec::new();
        let mut needed: u64 = 0;
        proof {
            assert(octets::fields(headers@) =~= Seq::empty());
            if all is Some {
                assert(Seq::<Field>::empty() + all.unwrap().0 =~= all.unwrap().0);
            }
        }
        while off < buf.len()
            invariant
                self.dynamic.wf(),
                self.dynamic@.inserted <= MAX_INSERTIONS,
                t == self.dynamic@,
                off <= buf@.len(),
                start <= buf@.len(),
                wire::parse_prefix(buf@, self.max_capacity as nat, t.inserted) == Some(
                    (ric as nat, base as nat, start as nat),
                ),
                all == wire::decode_lines(t, base as nat, buf@.skip(start as int)),
                match wire::decode_lines(t, base as nat, buf@.skip(off as int)) {
                    Some((rest, need)) => all == Some(
                        (octets::fields(headers@) + rest, wire::larger(needed as nat, need)),
                    ),
                    None => all is None,
                },
            decreases buf@.len() - off,
        {
            let ghost s = buf@.skip(off as int);
            let ghost before = octets::fields(headers@);
            let ghost off_before = off as int;
            let (line, need) = match self.read_line(buf, &mut off, base) {
                Ok(p) => p,
                Err(e) => {
                    return Err(e);
                },
            };
            proof {
                let (l, n) = wire::parse_line(s).unwrap();
                assert(s.skip(n as int) =~= buf@.skip(off as int));
                octets::lemma_fields_push(headers@, line);
                match wire::decode_lines(t, base as nat, buf@.skip(off as int)) {
                    Some((rest, more)) => {
                        assert(before + (seq![octets::field(line)] + rest) =~= before.push(
                            octets::field(line),
                        ) + rest);
                    },
                    None => {},
                }
            }
            if need > needed {
                needed = need;
            }
            headers.push(line);
        }
        proof {
            assert(buf@.skip(off as int).len() == 0);
            assert(octets::fields(headers@) + Seq::<Field>::empty() =~= octets::fields(headers@));
        }
        if ric != needed {
            return Err(QpackError::DecompressionFailed);
        }
        Ok(headers)
    }
}

/// The static table entry at a 64-bit index.
fn static_entry(index: u64) -> (r: Option<(&'static [u8], &'static [u8])>)
    ensures
        match r {
            Some((name, value)) => index < static_table::STATIC_TABLE_SIZE && (name@, value@)
                == static_table::entry(index as nat),
            None => index >= static_table::STATIC_TABLE_SIZE,
        },
{
    if index >= static_table::STATIC_TABLE_SIZE as u64 {
        return None;
    }
    static_table::get(index as usize)
}

proof fn lemma_charged_insert(m: Map<u64, usize>, id: u64, n: usize)
    ensures
        m.insert(id, n).map_values(|n: usize| n as nat) == m.map_values(
            |n: usize| n as nat,
        ).insert(id, n as nat),
{
    assert(m.insert(id, n).map_values(|n: usize| n as nat) =~= m.map_values(
        |n: usize| n as nat,
    ).insert(id, n as nat));
}

proof fn lemma_lockstep_push(
    counts: Map<u64, usize>,
    queue: Seq<Blocked>,
    b: Blocked,
    after: Map<u64, usize>,
)
    requires
        lockstep(counts, queue),
        after == counts.insert(b.stream_id, (tally(queue, b.stream_id) + 1) as usize),
        tally(queue, b.stream_id) + 1 <= usize::MAX,
    ensures
        lockstep(after, queue.push(b)),
{
    assert forall|id: u64|
        {
            &&& #[trigger] after.contains_key(id) <==> tally(queue.push(b), id) > 0
            &&& after.contains_key(id) ==> after[id] == tally(queue.push(b), id)
        } by {
        lemma_tally_push(queue, b, id);
        assert(counts.contains_key(id) <==> tally(queue, id) > 0);
    }
}

proof fn lemma_tally_first(queue: Seq<Blocked>, id: u64)
    requires
        queue.len() > 0,
    ensures
        tally(queue, id) == tally(queue.skip(1), id) + if queue[0].stream_id == id {
            1nat
        } else {
            0nat
        },
{
    let one = queue.take(1);
    assert(queue =~= one + queue.skip(1));
    lemma_tally_add(one, queue.skip(1), id);
    assert(one.drop_last() =~= Seq::empty());
    assert(tally(Seq::<Blocked>::empty(), id) == 0);
    assert(one.last() == queue[0]);
}

proof fn lemma_streams_push(queue: Seq<Blocked>, b: Blocked)
    ensures
        streams(queue.push(b)) == streams(queue).insert(b.stream_id),
{
    assert forall|id: u64|
        streams(queue.push(b)).contains(id) == streams(queue).insert(b.stream_id).contains(id) by {
        lemma_streams(queue.push(b), id);
        lemma_streams(queue, id);
        lemma_tally_push(queue, b, id);
    }
    assert(streams(queue.push(b)) =~= streams(queue).insert(b.stream_id));
}

/// What the sections decoded so far and the rest of the queue come to.
spec fn joined(
    done: Seq<(u64, Seq<Field>)>,
    rest: (DecoderState, Option<Seq<(u64, Seq<Field>)>>),
) -> (DecoderState, Option<Seq<(u64, Seq<Field>)>>) {
    (
        rest.0,
        match rest.1 {
            Some(l) => Some(done + l),
            None => None,
        },
    )
}

proof fn lemma_joined_push(
    done: Seq<(u64, Seq<Field>)>,
    one: (u64, Seq<Field>),
    end: DecoderState,
    more: Option<Seq<(u64, Seq<Field>)>>,
)
    ensures
        joined(
            done,
            (
                end,
                match more {
                    Some(l) => Some(seq![one] + l),
                    None => None,
                },
            ),
        ) == joined(done.push(one), (end, more)),
{
    if more is Some {
        assert(done + (seq![one] + more.unwrap()) =~= done.push(one) + more.unwrap());
    }
}

impl Decoder {
    /// Parses the peer's QPACK decoder stream instructions (RFC 9204
    /// Section 4.4): Section Acknowledgments, Stream Cancellations, and Insert
    /// Count Increments. An instruction split across calls is buffered.
    ///
    /// An Insert Count Increment with a zero value is a decoder stream error
    /// (Section 4.4.3); any malformed instruction is too. The instructions are
    /// not otherwise acted upon.
    pub fn feed_decoder_stream(&mut self, buf: &[u8]) -> (r: Result<(), QpackError>)
        requires
            old(self).wf(),
        ensures
            final(self).wf(),
            (final(self)@, r) == old(self)@.feed_decoder(buf@),
    {
        let ghost data = self@.decoder_pending + buf@;
        self.decoder_stream_pending.extend_from_slice(buf);
        assert(self.decoder_stream_pending@ =~= data);
        let mut consumed: usize = 0;
        let mut more: bool = true;
        assert(data.skip(0) =~= data);
        while more
            invariant
                self.wf(),
                data == old(self)@.decoder_pending + buf@,
                self.decoder_stream_pending@ == data,
                self@ == (DecoderState { decoder_pending: data, ..old(self)@ }),
                consumed <= data.len(),
                check_acks(data) == check_acks(data.skip(consumed as int)),
                !more ==> check_acks(data.skip(consumed as int)) == Some(
                    data.skip(consumed as int),
                ),
            decreases data.len() - consumed + if more {
                1int
            } else {
                0int
            },
        {
            let rest = slice_subrange(
                self.decoder_stream_pending.as_slice(),
                consumed,
                self.decoder_stream_pending.len(),
            );
            assert(rest@ =~= data.skip(consumed as int));
            match decoder_instruction_len(rest) {
                None => {
                    more = false;
                },
                Some(len) => {
                    let instr = slice_subrange(rest, 0, len);
                    assert(instr@ =~= rest@.take(len as int));
                    match decode_ack(instr) {
                        None => {
                            return Err(QpackError::DecoderStream);
                        },
                        Some(value) => {
                            if instr[0] < 0x40 && value == 0 {
                                return Err(QpackError::DecoderStream);
                            }
                        },
                    }
                    assert(rest@.skip(len as int) =~= data.skip(consumed + len));
                    consumed = consumed + len;
                },
            }
        }
        let rest: Vec<u8> = self.decoder_stream_pending.split_off(consumed);
        assert(rest@ =~= data.skip(consumed as int));
        let too_long: bool = rest.len() > MAX_DECODER_STREAM_PENDING;
        self.decoder_stream_pending = rest;
        assert(self@ =~= (DecoderState {
            decoder_pending: data.skip(consumed as int),
            ..old(self)@
        }));
        // A complete instruction is one prefixed integer, so that a much larger
        // unfinished one can never become valid.
        if too_long {
            return Err(QpackError::DecoderStream);
        }
        Ok(())
    }

    /// Inserts an entry named `name` with `value`, enforcing the eviction
    /// rules of RFC 9204 Sections 2.1.1 and 3.2.2: entries with an absolute
    /// index at or above the Known Received Count are not evictable, so an
    /// insert that would evict them is an encoder error.
    fn insert_entry(&mut self, name: Bytes, value: Bytes) -> (r: Result<(), QpackError>)
        requires
            old(self).dynamic.wf(),
            old(self).dynamic@.inserted < MAX_INSERTIONS,
        ensures
            final(self).dynamic.wf(),
            *final(self) == (Decoder { dynamic: final(self).dynamic, ..*old(self) }),
            match wire::checked_insert(
                old(self).dynamic@,
                old(self).known_received as nat,
                octets::field((name, value)),
            ) {
                Some(t) => r is Ok && final(self).dynamic@ == t,
                None => r == Err::<(), QpackError>(QpackError::EncoderStream)
                    && final(self).dynamic@ == old(self).dynamic@,
            },
    {
        proof {
            self.dynamic.lemma_wf();
        }
        let n: u64 = name.len() as u64;
        let v: u64 = value.len() as u64;
        let capacity: u64 = self.dynamic.capacity();
        if capacity < 32 || n > capacity - 32 || v > capacity - 32 - n {
            return Err(QpackError::EncoderStream);
        }
        let size: u64 = n + v + 32;
        let evicted: u64 = self.dynamic.would_evict(size);
        if self.dynamic.dropped() + evicted > self.known_received {
            return Err(QpackError::EncoderStream);
        }
        match self.dynamic.insert(name, value) {
            Ok(()) => Ok(()),
            Err(_) => Err(QpackError::EncoderStream),
        }
    }

    /// Parses a single *complete* encoder-stream instruction (RFC 9204
    /// Section 4.3) from `instr` and materializes its dynamic-table update.
    fn parse_encoder_instruction(&mut self, instr: &[u8]) -> (r: Result<(), QpackError>)
        requires
            old(self).dynamic.wf(),
            old(self).dynamic@.inserted < MAX_INSERTIONS,
            instr@.len() > 0,
        ensures
            final(self).dynamic.wf(),
            *final(self) == (Decoder { dynamic: final(self).dynamic, ..*old(self) }),
            ({
                let next = match wire::parse_instruction(instr@) {
                    Some(i) => wire::apply(
                        old(self).dynamic@,
                        old(self).max_capacity as nat,
                        old(self).known_received as nat,
                        i,
                    ),
                    None => None,
                };
                match next {
                    Some(t) => r is Ok && final(self).dynamic@ == t,
                    None => r == Err::<(), QpackError>(QpackError::EncoderStream)
                        && final(self).dynamic@ == old(self).dynamic@,
                }
            }),
    {
        proof {
            self.dynamic.lemma_wf();
            assert(instr@.skip(0) =~= instr@);
        }
        let header: u8 = instr[0];
        let mut off: usize = 0;
        if header >= 0x80 {
            // Insert with Name Reference (4.3.2).
            let index: u64 = match integer::decode(instr, &mut off, 6) {
                Ok(v) => v,
                Err(_) => {
                    return Err(QpackError::EncoderStream);
                },
            };
            let value: Bytes = match string::decode(instr, &mut off, 8) {
                Ok(v) => v,
                Err(_) => {
                    return Err(QpackError::EncoderStream);
                },
            };
            let name: Bytes = if header >= 0xC0 {
                match static_entry(index) {
                    Some((name, _)) => Bytes::from_static(name),
                    None => {
                        return Err(QpackError::EncoderStream);
                    },
                }
            } else {
                match self.dynamic.get_relative_bytes(index) {
                    Some((name, _)) => name,
                    None => {
                        return Err(QpackError::EncoderStream);
                    },
                }
            };
            self.insert_entry(name, value)
        } else if header >= 0x40 {
            // Insert with Literal Name (4.3.3).
            let name: Bytes = match string::decode(instr, &mut off, 6) {
                Ok(v) => v,
                Err(_) => {
                    return Err(QpackError::EncoderStream);
                },
            };
            let value: Bytes = match string::decode(instr, &mut off, 8) {
                Ok(v) => v,
                Err(_) => {
                    return Err(QpackError::EncoderStream);
                },
            };
            self.insert_entry(name, value)
        } else {
            let v: u64 = match integer::decode(instr, &mut off, 5) {
                Ok(v) => v,
                Err(_) => {
                    return Err(QpackError::EncoderStream);
                },
            };
            if header >= 0x20 {
                // Set Dynamic Table Capacity (4.3.1).
                if v > self.max_capacity {
                    return Err(QpackError::EncoderStream);
                }
                let evicted: u64 = self.dynamic.evict_for_capacity(v);
                if self.dynamic.dropped() + evicted > self.known_received {
                    return Err(QpackError::EncoderStream);
                }
                self.dynamic.set_capacity(v);
                Ok(())
            } else {
                // Duplicate (4.3.4).
                match self.dynamic.get_relative_bytes(v) {
                    Some((name, value)) => self.insert_entry(name, value),
                    None => Err(QpackError::EncoderStream),
                }
            }
        }
    }

    /// Charges the size of `headers` to `stream_id`'s field-section budget and
    /// acknowledges the section where it has dynamic references. Returns
    /// whether the stream is within its budget.
    ///
    /// The size is that of the decoded name and value octets, not of the
    /// encoded block: Huffman encoding and index references make the two
    /// diverge arbitrarily (RFC 9114 Section 7.2.4.1).
    fn deliver(&mut self, stream_id: u64, ric: u64, headers: &Vec<(Bytes, Bytes)>) -> (r: bool)
        ensures
            (final(self)@, r) == old(self)@.deliver(
                stream_id,
                ric as nat,
                octets::fields(headers@),
            ),
            final(self).dynamic == old(self).dynamic,
            final(self).blocked == old(self).blocked,
            final(self).blocked_by_stream == old(self).blocked_by_stream,
    {
        let size: usize = section_size(headers);
        let before: usize = match self.section_size_by_stream.get(&stream_id) {
            Some(n) => *n,
            None => 0,
        };
        let total: usize = saturating_sum(before, size);
        let ghost charged = self.section_size_by_stream@;
        self.section_size_by_stream.insert(stream_id, total);
        proof {
            lemma_charged_insert(charged, stream_id, total);
        }
        let ghost paid = DecoderState {
            charged: old(self)@.charged.insert(stream_id, total as nat),
            ..old(self)@
        };
        assert(self@ =~= paid);
        if total > self.max_field_section_size {
            return false;
        }
        if ric > 0 {
            if ric > self.known_received {
                self.known_received = ric;
            }
            integer::encode(&mut self.decoder_stream, stream_id, 7, wire::SECTION_ACK);
            assert(self@ =~= old(self)@.deliver(
                stream_id,
                ric as nat,
                octets::fields(headers@),
            ).0);
        }
        true
    }

    /// Records a newly buffered field section without rescanning the queue.
    fn add_blocked_section(&mut self, section: BlockedSection)
        requires
            lockstep(old(self).blocked_by_stream@, queue_of(old(self).blocked@)),
        ensures
            lockstep(final(self).blocked_by_stream@, queue_of(final(self).blocked@)),
            final(self)@ == (DecoderState {
                blocked: old(self)@.blocked.push(section.value()),
                ..old(self)@
            }),
            final(self).dynamic == old(self).dynamic,
    {
        let stream_id: u64 = section.stream_id;
        let ghost before = queue_of(self.blocked@);
        let ghost counts = self.blocked_by_stream@;
        let ghost list = self.blocked@;
        self.blocked.push_back(section);
        proof {
            assert(queue_of(self.blocked@) =~= before.push(section.value()));
            lemma_tally_bound(queue_of(self.blocked@), stream_id);
            lemma_tally_push(before, section.value(), stream_id);
            assert(self.blocked@.len() == self.blocked.len());
            assert(counts.contains_key(stream_id) <==> tally(before, stream_id) > 0);
        }
        let count: usize = match self.blocked_by_stream.get(&stream_id) {
            Some(n) => *n,
            None => 0,
        };
        self.blocked_by_stream.insert(stream_id, count + 1);
        proof {
            lemma_lockstep_push(counts, before, section.value(), self.blocked_by_stream@);
            assert(self@ =~= (DecoderState {
                blocked: old(self)@.blocked.push(section.value()),
                ..old(self)@
            }));
        }
    }

    /// Removes one section of `stream_id` from the per-stream counts.
    fn remove_blocked_section(&mut self, stream_id: u64)
        requires
            old(self).blocked_by_stream@.contains_key(stream_id),
            old(self).blocked_by_stream@[stream_id] > 0,
        ensures
            final(self).blocked_by_stream@ == ({
                let n = old(self).blocked_by_stream@[stream_id];
                if n == 1 {
                    old(self).blocked_by_stream@.remove(stream_id)
                } else {
                    old(self).blocked_by_stream@.insert(stream_id, (n - 1) as usize)
                }
            }),
            *final(self) == (Decoder {
                blocked_by_stream: final(self).blocked_by_stream,
                ..*old(self)
            }),
    {
        let count: usize = match self.blocked_by_stream.get(&stream_id) {
            Some(n) => *n,
            None => 1,
        };
        if count == 1 {
            self.blocked_by_stream.remove(&stream_id);
        } else {
            self.blocked_by_stream.insert(stream_id, count - 1);
        }
    }
}

/// The value of the complete decoder stream instruction `instr`.
pub(crate) fn decode_ack(instr: &[u8]) -> (r: Option<u64>)
    requires
        instr@.len() > 0,
    ensures
        match wire::parse_ack(instr@) {
            Some(wire::Ack::Section { stream_id }) => r == Some(stream_id) && instr@[0] >= 0x80,
            Some(wire::Ack::Cancel { stream_id }) => r == Some(stream_id) && 0x40 <= instr@[0]
                < 0x80,
            Some(wire::Ack::Increment { count }) => r == Some(count) && instr@[0] < 0x40,
            None => r is None,
        },
{
    let prefix_bits: u8 = if instr[0] >= 0x80 {
        7
    } else {
        6
    };
    let mut off: usize = 0;
    assert(instr@.skip(0) =~= instr@);
    match integer::decode(instr, &mut off, prefix_bits) {
        Ok(v) => Some(v),
        Err(_) => None,
    }
}

proof fn lemma_lockstep_remove(
    counts: Map<u64, usize>,
    before: Seq<Blocked>,
    after: Seq<Blocked>,
    stream_id: u64,
    left: Map<u64, usize>,
)
    requires
        lockstep(counts, before),
        counts.contains_key(stream_id),
        forall|id: u64|
            #[trigger] tally(before, id) == tally(after, id) + if id == stream_id {
                1nat
            } else {
                0nat
            },
        left == if counts[stream_id] == 1 {
            counts.remove(stream_id)
        } else {
            counts.insert(stream_id, (counts[stream_id] - 1) as usize)
        },
    ensures
        lockstep(left, after),
{
    assert forall|id: u64|
        {
            &&& #[trigger] left.contains_key(id) <==> tally(after, id) > 0
            &&& left.contains_key(id) ==> left[id] == tally(after, id)
        } by {
        assert(counts.contains_key(id) <==> tally(before, id) > 0);
        assert(counts.contains_key(stream_id) <==> tally(before, stream_id) > 0);
    }
}

proof fn lemma_without_push(queue: Seq<Blocked>, b: Blocked, gone: Set<u64>)
    ensures
        without(queue.push(b), gone) == if gone.contains(b.stream_id) {
            without(queue, gone)
        } else {
            without(queue, gone).push(b)
        },
{
    assert(queue.push(b).drop_last() =~= queue);
}

/// Abandoning streams drops all their sections and none of the others.
pub proof fn lemma_without(queue: Seq<Blocked>, gone: Set<u64>, id: u64)
    ensures
        tally(without(queue, gone), id) == if gone.contains(id) {
            0
        } else {
            tally(queue, id)
        },
    decreases queue.len(),
{
    if queue.len() > 0 {
        lemma_without(queue.drop_last(), gone, id);
        if !gone.contains(queue.last().stream_id) {
            lemma_tally_push(without(queue.drop_last(), gone), queue.last(), id);
        }
    }
}

impl Decoder {
    /// Decodes every blocked field section whose Required Insert Count has
    /// been reached, in arrival order. A section waits for the earlier blocked
    /// sections of its stream.
    fn unblock(&mut self) -> (r: Result<Vec<UnblockedSection>, QpackError>)
        requires
            old(self).wf(),
        ensures
            final(self).wf(),
            match old(self)@.unblock(Seq::empty()) {
                (end, Some(list)) => (r matches Ok(v) && unblocked(v@) == list) && final(self)@
                    == end,
                (end, None) => final(self)@ == end && r == Err::<Vec<UnblockedSection>, QpackError>(
                    QpackError::DecompressionFailed,
                ),
            },
    {
        let ghost target = old(self)@.unblock(Seq::empty());
        let mut queue: VecDeque<BlockedSection> = VecDeque::new();
        std::mem::swap(&mut queue, &mut self.blocked);
        let mut kept: VecDeque<BlockedSection> = VecDeque::new();
        // The streams of the sections in `kept`.
        let mut held: HashSet<u64> = HashSet::new();
        let mut sections: Vec<UnblockedSection> = Vec::new();
        proof {
            let q = queue_of(queue@);
            assert(queue_of(kept@) =~= Seq::empty());
            assert(streams(Seq::<Blocked>::empty()) =~= Set::empty());
            assert(unblocked(sections@) =~= Seq::empty());
            assert(DecoderState { blocked: q, ..self@ } =~= old(self)@);
            if target.1 is Some {
                assert(Seq::<(u64, Seq<Field>)>::empty() + target.1.unwrap()
                    =~= target.1.unwrap());
            }
            assert(queue_of(kept@) + q =~= q);
        }
        while queue.len() > 0
            invariant
                self.dynamic.wf(),
                self@.valid(),
                self@.table.inserted <= MAX_INSERTIONS,
                lockstep(self.blocked_by_stream@, queue_of(kept@) + queue_of(queue@)),
                held@ == streams(queue_of(kept@)),
                target == old(self)@.unblock(Seq::empty()),
                target == joined(
                    unblocked(sections@),
                    (DecoderState { blocked: queue_of(queue@), ..self@ }).unblock(queue_of(kept@)),
                ),
            decreases queue@.len(),
        {
            let ghost q = queue_of(queue@);
            let ghost k = queue_of(kept@);
            let ghost here = DecoderState { blocked: q, ..self@ };
            match queue.pop_front() {
                None => {
                    assert(false);
                },
                Some(front) => {
                    let ghost b = front.value();
                    proof {
                        assert(b == q[0]);
                        assert(queue_of(queue@) =~= q.skip(1));
                        assert(DecoderState { blocked: q.skip(1), ..self@ } =~= (DecoderState {
                            blocked: here.blocked.skip(1),
                            ..here
                        }));
                    }
                    if front.ric > self.dynamic.inserted() || held.contains(&front.stream_id) {
                        held.insert(front.stream_id);
                        let ghost list = kept@;
                        kept.push_back(front);
                        proof {
                            assert(queue_of(kept@) =~= k.push(b));
                            lemma_streams_push(k, b);
                            assert(k.push(b) + q.skip(1) =~= k + q);
                        }
                    } else {
                        proof {
                            lemma_tally_first(q, b.stream_id);
                            lemma_tally_add(k, q, b.stream_id);
                            let counts = self.blocked_by_stream@;
                            assert(counts.contains_key(b.stream_id) <==> tally(
                                k + q,
                                b.stream_id,
                            ) > 0);
                        }
                        let ghost counts = self.blocked_by_stream@;
                        let ghost state = self@;
                        self.remove_blocked_section(front.stream_id);
                        proof {
                            assert forall|id: u64| #[trigger]
                                tally(k + q, id) == tally(k + q.skip(1), id) + if id
                                    == b.stream_id {
                                    1nat
                                } else {
                                    0nat
                                } by {
                                lemma_tally_first(q, id);
                                lemma_tally_add(k, q, id);
                                lemma_tally_add(k, q.skip(1), id);
                            }
                            lemma_lockstep_remove(
                                counts,
                                k + q,
                                k + q.skip(1),
                                b.stream_id,
                                self.blocked_by_stream@,
                            );
                            assert(self@ =~= state);
                        }
                        match self.decode_ready(octets::as_slice(&front.buf)) {
                            Err(e) => {
                                let ghost rest = queue_of(queue@);
                                let ghost tail = queue@;
                                let ghost head = kept@;
                                kept.append(&mut queue);
                                self.blocked = kept;
                                proof {
                                    assert(queue_of(self.blocked@) =~= k + rest);
                                    assert(self@ =~= target.0);
                                }
                                return Err(e);
                            },
                            Ok(headers) => {
                                let ghost list = octets::fields(headers@);
                                let ghost next = (DecoderState {
                                    blocked: q.skip(1),
                                    ..self@
                                }).deliver(b.stream_id, b.ric, list);
                                let ok: bool = self.deliver(front.stream_id, front.ric, &headers);
                                assert(DecoderState { blocked: q.skip(1), ..self@ } =~= next.0);
                                if !ok {
                                    let ghost rest = queue_of(queue@);
                                    let ghost tail = queue@;
                                    let ghost head = kept@;
                                    kept.append(&mut queue);
                                    self.blocked = kept;
                                    proof {
                                        assert(queue_of(self.blocked@) =~= k + rest);
                                        assert(self@ =~= target.0);
                                    }
                                    return Err(QpackError::DecompressionFailed);
                                }
                                let ghost done = unblocked(sections@);
                                let section = UnblockedSection {
                                    stream_id: front.stream_id,
                                    headers,
                                };
                                sections.push(section);
                                proof {
                                    assert(unblocked(sections@) =~= done.push(
                                        (b.stream_id, list),
                                    ));
                                    let (end, more) = next.0.unblock(k);
                                    lemma_joined_push(done, (b.stream_id, list), end, more);
                                }
                            },
                        }
                    }
                },
            }
        }
        self.blocked = kept;
        proof {
            let k = queue_of(kept@);
            assert(queue_of(queue@) =~= Seq::empty());
            assert(k + queue_of(queue@) =~= k);
            assert(unblocked(sections@) + Seq::<(u64, Seq<Field>)>::empty() =~= unblocked(
                sections@,
            ));
            assert(self@ =~= target.0);
        }
        Ok(sections)
    }

    /// Processes the encoder stream instructions in `buf`, materializing
    /// dynamic table updates. An instruction split across calls is buffered.
    ///
    /// Returns the field sections that were blocked and can now be decoded, in
    /// arrival order. The Section Acknowledgment for each is queued in the
    /// decoder stream, together with a coalesced Insert Count Increment when
    /// the table grew beyond the acknowledged count.
    pub fn feed_encoder_stream(&mut self, buf: &[u8]) -> (r: Result<
        Vec<UnblockedSection>,
        QpackError,
    >)
        requires
            old(self).wf(),
            old(self)@.table.inserted + old(self)@.encoder_pending.len() + buf@.len()
                <= MAX_INSERTIONS,
        ensures
            final(self).wf(),
            final(self)@ == old(self)@.feed_encoder(buf@).0,
            match old(self)@.feed_encoder(buf@).1 {
                Ok(list) => r matches Ok(v) && unblocked(v@) == list,
                Err(e) => r == Err::<Vec<UnblockedSection>, QpackError>(e),
            },
    {
        let ghost data = self@.encoder_pending + buf@;
        let ghost start = self@;
        self.encoder_stream_pending.extend_from_slice(buf);
        assert(self.encoder_stream_pending@ =~= data);
        // An instruction is bounded by the dynamic table capacity: a much larger
        // one, finished or not, is refused.
        let bound: u64 = if self.max_capacity > u64::MAX - wire::ENCODER_STREAM_SLACK {
            u64::MAX
        } else {
            self.max_capacity + wire::ENCODER_STREAM_SLACK
        };
        let mut pending: Vec<u8> = Vec::new();
        std::mem::swap(&mut pending, &mut self.encoder_stream_pending);
        let mut consumed: usize = 0;
        let mut more: bool = true;
        let ghost whole = wire::run(
            start.table,
            start.max_capacity,
            start.known_received,
            data,
        );
        proof {
            assert(data.skip(0) =~= data);
            assert(self@ =~= (DecoderState { encoder_pending: Seq::empty(), ..start }));
        }
        while more
            invariant
                self.wf(),
                start == old(self)@,
                data == start.encoder_pending + buf@,
                bound == wire::longest_instruction(start.max_capacity),
                pending@ == data,
                consumed <= data.len(),
                self@.table.inserted + (data.len() - consumed) <= MAX_INSERTIONS,
                self@ == (DecoderState {
                    table: self@.table,
                    encoder_pending: Seq::empty(),
                    ..start
                }),
                whole == wire::run(
                    start.table,
                    start.max_capacity,
                    start.known_received,
                    data,
                ),
                whole == wire::run(
                    self@.table,
                    start.max_capacity,
                    start.known_received,
                    data.skip(consumed as int),
                ),
                !more ==> whole == (wire::Run {
                    table: self@.table,
                    rest: data.skip(consumed as int),
                    failed: false,
                }),
            decreases data.len() - consumed + if more {
                1int
            } else {
                0int
            },
        {
            let rest = slice_subrange(pending.as_slice(), consumed, pending.len());
            assert(rest@ =~= data.skip(consumed as int));
            match encoder_instruction_len(rest) {
                None => {
                    more = false;
                },
                Some(len) => {
                    if len as u64 > bound {
                        self.encoder_stream_pending = pending;
                        assert(self@ =~= (DecoderState {
                            table: whole.table,
                            encoder_pending: data,
                            ..start
                        }));
                        return Err(QpackError::EncoderStream);
                    }
                    let instr = slice_subrange(rest, 0, len);
                    assert(instr@ =~= rest@.take(len as int));
                    let ghost before = self@;
                    match self.parse_encoder_instruction(instr) {
                        Err(e) => {
                            self.encoder_stream_pending = pending;
                            assert(self@ =~= (DecoderState {
                                table: whole.table,
                                encoder_pending: data,
                                ..start
                            }));
                            return Err(e);
                        },
                        Ok(()) => {
                            proof {
                                let i = wire::parse_instruction(instr@).unwrap();
                                wire::lemma_apply(
                                    before.table,
                                    before.max_capacity,
                                    before.known_received,
                                    i,
                                );
                                assert(rest@.skip(len as int) =~= data.skip(consumed + len));
                                assert(self@ =~= (DecoderState {
                                    table: self@.table,
                                    encoder_pending: Seq::empty(),
                                    ..start
                                }));
                            }
                            consumed = consumed + len;
                        },
                    }
                },
            }
        }
        let rest: Vec<u8> = pending.split_off(consumed);
        assert(rest@ =~= data.skip(consumed as int));
        let too_long: bool = rest.len() as u64 > bound;
        self.encoder_stream_pending = rest;
        assert(self@ =~= (DecoderState {
            table: whole.table,
            encoder_pending: whole.rest,
            ..start
        }));
        if too_long {
            return Err(QpackError::EncoderStream);
        }
        match self.unblock() {
            Err(e) => Err(e),
            Ok(sections) => {
                let ghost before = self@;
                let inserted: u64 = self.dynamic.inserted();
                if inserted > self.known_received {
                    integer::encode(
                        &mut self.decoder_stream,
                        inserted - self.known_received,
                        6,
                        wire::INSERT_COUNT_INCREMENT,
                    );
                    self.known_received = inserted;
                }
                assert(self@ =~= before.increment());
                Ok(sections)
            },
        }
    }

    /// Decodes an encoded field section received on `stream_id`.
    ///
    /// Returns the decoded header list, or `None` when the section was
    /// buffered as blocked (it is returned by a later
    /// [`Decoder::feed_encoder_stream`] call).
    ///
    /// `now` is the caller's monotonic clock (any unit); it is recorded for
    /// [`Decoder::expire_blocked`]. Sections that cannot be processed in order
    /// are never decoded early: a section on a stream with buffered blocked
    /// sections joins the queue even when it could be decoded already
    /// (RFC 9204 Section 2.2.1 requires in-order processing).
    pub fn decode_block(&mut self, buf: &[u8], stream_id: u64, now: u64) -> (r: Result<
        Option<Vec<(Bytes, Bytes)>>,
        QpackError,
    >)
        requires
            old(self).wf(),
        ensures
            final(self).wf(),
            final(self)@ == old(self)@.decode(buf@, stream_id, now).0,
            match old(self)@.decode(buf@, stream_id, now).1 {
                Ok(Some(list)) => r matches Ok(Some(v)) && octets::fields(v@) == list,
                Ok(None) => r matches Ok(None),
                Err(e) => r == Err::<Option<Vec<(Bytes, Bytes)>>, QpackError>(e),
            },
    {
        let (ric, _, _) = match self.read_prefix(buf) {
            Ok(p) => p,
            Err(e) => {
                return Err(e);
            },
        };
        let waits: bool = self.blocked_by_stream.contains_key(&stream_id);
        proof {
            lemma_streams_domain(self.blocked_by_stream@, queue_of(self.blocked@));
        }
        if ric > self.dynamic.inserted() || waits {
            if !waits && self.blocked_by_stream.len() >= self.max_blocked_streams {
                return Err(QpackError::DecompressionFailed);
            }
            let section = BlockedSection {
                stream_id,
                buf: Bytes::copy_from_slice(buf),
                ric,
                since: now,
            };
            self.add_blocked_section(section);
            return Ok(None);
        }
        match self.decode_ready(buf) {
            Err(e) => Err(e),
            Ok(headers) => {
                if !self.deliver(stream_id, ric, &headers) {
                    return Err(QpackError::DecompressionFailed);
                }
                Ok(Some(headers))
            },
        }
    }

    /// Notifies that `stream_id` finished receiving (the peer closed its send
    /// side): no further field sections can arrive on it, so its field-section
    /// size budget is released. Safe to call when the stream never carried a
    /// field section.
    ///
    /// Must only be called when no field section of the stream remains
    /// buffered as blocked: a buffered section is decoded later by
    /// [`Decoder::feed_encoder_stream`], which would then restart the stream's
    /// budget from scratch.
    pub fn stream_finished(&mut self, stream_id: u64)
        requires
            old(self).wf(),
        ensures
            final(self).wf(),
            final(self)@ == (DecoderState {
                charged: old(self)@.charged.remove(stream_id),
                ..old(self)@
            }),
    {
        self.section_size_by_stream.remove(&stream_id);
        assert(self@.charged =~= old(self)@.charged.remove(stream_id));
        assert(self@ =~= (DecoderState {
            charged: old(self)@.charged.remove(stream_id),
            ..old(self)@
        }));
    }

    /// Drops the blocked sections and the budgets of the streams in `gone`.
    fn abandon(&mut self, gone: &Vec<u64>)
        requires
            old(self).wf(),
        ensures
            final(self).wf(),
            final(self)@ == old(self)@.abandon(gone@.to_set()),
    {
        let ghost ids = gone@.to_set();
        let ghost start = self@;
        let mut queue: VecDeque<BlockedSection> = VecDeque::new();
        std::mem::swap(&mut queue, &mut self.blocked);
        let mut kept: VecDeque<BlockedSection> = VecDeque::new();
        let ghost all = queue@;
        let ghost mut n: nat = 0;
        proof {
            assert(queue_of(all.take(0)) =~= Seq::empty());
            assert(queue_of(kept@) =~= Seq::empty());
            assert(all.skip(0) =~= all);
        }
        while queue.len() > 0
            invariant
                ids == gone@.to_set(),
                n <= all.len(),
                queue@ == all.skip(n as int),
                queue_of(kept@) == without(queue_of(all.take(n as int)), ids),
            decreases queue@.len(),
        {
            match queue.pop_front() {
                None => {
                    assert(false);
                },
                Some(front) => {
                    proof {
                        assert(front == all[n as int]);
                        assert(queue@ =~= all.skip((n + 1) as int));
                        assert(queue_of(all.take((n + 1) as int)) =~= queue_of(
                            all.take(n as int),
                        ).push(front.value()));
                        lemma_without_push(queue_of(all.take(n as int)), front.value(), ids);
                        n = n + 1;
                    }
                    if !listed(gone, front.stream_id) {
                        let ghost before = queue_of(kept@);
                        kept.push_back(front);
                        assert(queue_of(kept@) =~= before.push(front.value()));
                    }
                },
            }
        }
        proof {
            assert(all.take(n as int) =~= all);
        }
        self.blocked = kept;
        let ghost counts = self.blocked_by_stream@;
        let ghost charged = self.section_size_by_stream@;
        let mut i: usize = 0;
        proof {
            assert(counts.remove_keys(Set::<u64>::empty()) =~= counts);
            assert(charged.remove_keys(Set::<u64>::empty()) =~= charged);
            assert(gone@.take(0).to_set() =~= Set::<u64>::empty());
        }
        while i < gone.len()
            invariant
                i <= gone@.len(),
                self.blocked_by_stream@ == counts.remove_keys(gone@.take(i as int).to_set()),
                self.section_size_by_stream@ == charged.remove_keys(
                    gone@.take(i as int).to_set(),
                ),
                self.dynamic == old(self).dynamic,
                self.max_capacity == old(self).max_capacity,
                self.known_received == old(self).known_received,
                self.blocked@ == kept@,
                self.max_blocked_streams == old(self).max_blocked_streams,
                self.max_field_section_size == old(self).max_field_section_size,
                self.decoder_stream == old(self).decoder_stream,
                self.encoder_stream_pending == old(self).encoder_stream_pending,
                self.decoder_stream_pending == old(self).decoder_stream_pending,
            decreases gone@.len() - i,
        {
            let id: u64 = gone[i];
            proof {
                lemma_take_set(gone@, i as int);
                let a = gone@.take(i as int).to_set();
                assert(counts.remove_keys(a).remove(id) =~= counts.remove_keys(a.insert(id)));
                assert(charged.remove_keys(a).remove(id) =~= charged.remove_keys(a.insert(id)));
            }
            self.blocked_by_stream.remove(&id);
            self.section_size_by_stream.remove(&id);
            i = i + 1;
        }
        proof {
            assert(gone@.take(i as int) =~= gone@);
            assert(self@.charged =~= start.charged.remove_keys(ids));
            assert(self@ =~= start.abandon(ids));
            let left = self.blocked_by_stream@;
            assert forall|id: u64|
                {
                    &&& #[trigger] left.contains_key(id) <==> tally(self@.blocked, id) > 0
                    &&& left.contains_key(id) ==> left[id] == tally(self@.blocked, id)
                } by {
                lemma_without(start.blocked, ids, id);
                assert(counts.contains_key(id) <==> tally(start.blocked, id) > 0);
            }
        }
    }

    /// Notifies that `stream_id` was reset or abandoned: buffered blocked
    /// sections for it are dropped and a Stream Cancellation instruction is
    /// queued (RFC 9204 Section 2.2.2.2). Returns the instruction.
    pub fn stream_cancelled(&mut self, stream_id: u64) -> (r: Bytes)
        requires
            old(self).wf(),
        ensures
            final(self).wf(),
            octets::content(r) == wire::ack_octets(wire::Ack::Cancel { stream_id }),
            final(self)@ == ({
                let left = old(self)@.abandon(set![stream_id]);
                DecoderState { outgoing: left.outgoing + octets::content(r), ..left }
            }),
    {
        let mut gone: Vec<u64> = Vec::new();
        gone.push(stream_id);
        proof {
            assert(gone@.to_set() =~= set![stream_id]) by {
                assert(gone@[0] == stream_id);
            }
        }
        self.abandon(&gone);
        let ghost left = self@;
        let mut out: Vec<u8> = Vec::new();
        integer::encode(&mut out, stream_id, 6, wire::STREAM_CANCELLATION);
        assert(out@ =~= wire::ack_octets(wire::Ack::Cancel { stream_id }));
        self.decoder_stream.extend_from_slice(out.as_slice());
        assert(self@ =~= (DecoderState { outgoing: left.outgoing + out@, ..left }));
        octets::from_vec(out)
    }

    /// Drops blocked sections older than `max_age` in the caller's clock
    /// units, queueing one Stream Cancellation per affected stream. Returns
    /// the instructions.
    ///
    /// Cancelling a stream abandons every queued section on it, not merely the
    /// one whose timer fired.
    pub fn expire_blocked(&mut self, now: u64, max_age: u64) -> (r: Bytes)
        requires
            old(self).wf(),
        ensures
            final(self).wf(),
            octets::content(r) == cancellations(expired(old(self)@.blocked, now, max_age)),
            final(self)@ == ({
                let left = old(self)@.abandon(
                    expired(old(self)@.blocked, now, max_age).to_set(),
                );
                DecoderState { outgoing: left.outgoing + octets::content(r), ..left }
            }),
    {
        let ghost queue = self@.blocked;
        let mut out: Vec<u8> = Vec::new();
        let mut cancelled: Vec<u64> = Vec::new();
        let mut i: usize = 0;
        proof {
            assert(queue.take(0) =~= Seq::empty());
            assert(expired(queue.take(0), now, max_age) =~= cancelled@);
            assert(cancellations(cancelled@) =~= out@);
        }
        while i < self.blocked.len()
            invariant
                self.wf(),
                *self == *old(self),
                queue == self@.blocked,
                i <= queue.len(),
                cancelled@ == expired(queue.take(i as int), now, max_age),
                out@ == cancellations(cancelled@),
            decreases queue.len() - i,
        {
            let section = &self.blocked[i];
            proof {
                assert(queue.take(i + 1).drop_last() =~= queue.take(i as int));
                assert(queue.take(i + 1).last() == section.value());
            }
            if section.since <= now && now - section.since > max_age && !listed(
                &cancelled,
                section.stream_id,
            ) {
                let ghost before = cancelled@;
                cancelled.push(section.stream_id);
                integer::encode(&mut out, section.stream_id, 6, wire::STREAM_CANCELLATION);
                assert(cancelled@.drop_last() =~= before);
            }
            i = i + 1;
        }
        assert(queue.take(i as int) =~= queue);
        self.abandon(&cancelled);
        let ghost left = self@;
        self.decoder_stream.extend_from_slice(out.as_slice());
        assert(self@ =~= (DecoderState { outgoing: left.outgoing + out@, ..left }));
        octets::from_vec(out)
    }
}

proof fn lemma_take_set(s: Seq<u64>, i: int)
    requires
        0 <= i < s.len(),
    ensures
        s.take(i + 1).to_set() == s.take(i).to_set().insert(s[i]),
{
    let a = s.take(i + 1);
    let b = s.take(i);
    assert forall|x: u64| a.to_set().contains(x) == b.to_set().insert(s[i]).contains(x) by {
        if a.to_set().contains(x) {
            let k = choose|k: int| 0 <= k < a.len() && a[k] == x;
            if k < i {
                assert(b[k] == x);
            }
        }
        if b.to_set().contains(x) {
            let k = choose|k: int| 0 <= k < b.len() && b[k] == x;
            assert(a[k] == x);
        }
        if x == s[i] {
            assert(a[i] == x);
        }
    }
    assert(a.to_set() =~= b.to_set().insert(s[i]));
}

/// Whether `ids` lists `id`.
fn listed(ids: &Vec<u64>, id: u64) -> (r: bool)
    ensures
        r == ids@.contains(id),
        r == ids@.to_set().contains(id),
{
    let mut i: usize = 0;
    while i < ids.len()
        invariant
            i <= ids@.len(),
            forall|k: int| 0 <= k < i ==> ids@[k] != id,
        decreases ids@.len() - i,
    {
        if ids[i] == id {
            return true;
        }
        i = i + 1;
    }
    false
}

} // verus!
