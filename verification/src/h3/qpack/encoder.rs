//! QPACK encoder (RFC 9204 Sections 4.3 and 4.5).
//!
//! The encoder owns the shared dynamic table (Section 4.2): it alone adds
//! entries, and it emits an unframed sequence of instructions on the encoder
//! stream (Section 4.3) describing every mutation. Field sections are encoded
//! as a Required Insert Count, a Base, and one or more field line
//! representations (Section 4.5).
//!
//! The Base is fixed before a section is encoded: entries below it are
//! referenced by relative indices, and entries at or above it, such as those
//! inserted while encoding the section, by post-Base indices.
//!
//! Inserts are speculative but bounded: an entry is only inserted when it fits
//! and when the eviction it would cause cannot invalidate an index already
//! referenced by the section being encoded, nor remove an entry the decoder
//! still needs. The decoder's acknowledgments (Section 4.4 instructions on its
//! decoder stream) raise a Known Received Count and free the references of
//! acknowledged field sections; an entry is evictable only below the lower of
//! the Known Received Count and the smallest reference still outstanding
//! (RFC 9204 Sections 2.1.1 and 2.1.4). The encoder never evicts above that
//! floor, so the peer's decoder never has to reject an insert as a
//! QPACK_ENCODER_STREAM_ERROR.
//!
//! Huffman encoding follows RFC 9204 Section 4.1.2: a string is Huffman encoded
//! when that is shorter.

use super::decoder;
use super::static_table;
use super::table;
use super::table::{DynamicTable, Table, MAX_INSERTIONS};
use super::wire;
use super::wire::{Ack, Instruction, Line, MAX_DECODER_STREAM_PENDING};
use super::QpackError;
use crate::hpack::{integer, string};
use crate::octets;
use crate::octets::{as_slice, same, Field};
use bytes::Bytes;
use std::collections::VecDeque;
use vstd::prelude::*;
use vstd::slice::*;

verus! {

/// Result of encoding one field section: the encoded field section carried on
/// the request/response stream, and any encoder stream instructions queued
/// while encoding it.
#[derive(Debug, Clone, PartialEq, Eq)]
pub struct EncodedSection {
    /// Encoded field section prefix plus field lines (RFC 9204 Section 4.5.1).
    pub block: Bytes,
    /// Encoder stream instructions (RFC 9204 Section 4.3).
    pub encoder_stream: Bytes,
}

/// Field names that must never be added to the dynamic table and must always
/// be sent as literal field lines with the N bit set (RFC 9204 Section 7.1).
pub open spec fn sensitive(name: Seq<u8>) -> bool {
    ||| name == vstd::utf8::encode_utf8("authorization"@)
    ||| name == vstd::utf8::encode_utf8("proxy-authorization"@)
    ||| name == vstd::utf8::encode_utf8("cookie"@)
}

/// The lower of `known` and the smallest reference in `pending`.
pub open spec fn lowest(pending: Seq<(u64, u64)>, known: nat) -> nat
    decreases pending.len(),
{
    if pending.len() == 0 {
        known
    } else {
        let rest = lowest(pending.drop_last(), known);
        if pending.last().1 < rest {
            pending.last().1 as nat
        } else {
            rest
        }
    }
}

/// The field section references of streams other than `stream_id`.
pub open spec fn others(pending: Seq<(u64, u64)>, stream_id: u64) -> Seq<(u64, u64)>
    decreases pending.len(),
{
    if pending.len() == 0 {
        Seq::empty()
    } else if pending.last().0 == stream_id {
        others(pending.drop_last(), stream_id)
    } else {
        others(pending.drop_last(), stream_id).push(pending.last())
    }
}

/// The references without those of the oldest field section of `stream_id`.
pub open spec fn acknowledged(pending: Seq<(u64, u64)>, stream_id: u64) -> Seq<(u64, u64)>
    decreases pending.len(),
{
    if pending.len() == 0 {
        Seq::empty()
    } else if pending[0].0 == stream_id {
        pending.skip(1)
    } else {
        seq![pending[0]] + acknowledged(pending.skip(1), stream_id)
    }
}

/// A field section while it is encoded: the dynamic table, the field lines and
/// the encoder stream instructions so far, the Required Insert Count, and the
/// smallest absolute index referenced.
#[verifier::ext_equal]
pub struct Section {
    pub table: Table,
    pub lines: Seq<u8>,
    pub stream: Seq<u8>,
    pub ric: nat,
    pub low: Option<nat>,
}

impl Section {
    /// The section with a field line that references nothing dynamic.
    pub open spec fn plain(self, l: Line, never: bool, compress: bool) -> Section {
        Section { lines: self.lines + wire::line_octets(l, never, compress), ..self }
    }

    /// The section with a field line that references the entry `abs`.
    pub open spec fn refer(self, abs: nat, l: Line, compress: bool) -> Section {
        Section {
            lines: self.lines + wire::line_octets(l, false, compress),
            ric: wire::larger(self.ric, abs + 1),
            low: match self.low {
                Some(m) => if m <= abs {
                    Some(m)
                } else {
                    Some(abs)
                },
                None => Some(abs),
            },
            ..self
        }
    }
}

/// An indexed reference to the dynamic table entry `abs`.
pub open spec fn indexed(abs: nat, base: nat) -> Line {
    if abs >= base {
        Line::PostBase { index: (abs - base) as nat }
    } else {
        Line::Indexed { fixed: false, index: (base - abs - 1) as nat }
    }
}

/// A literal with a reference to the name of the dynamic table entry `abs`.
pub open spec fn named(abs: nat, base: nat, value: Seq<u8>) -> Line {
    if abs >= base {
        Line::PostBaseNameRef { index: (abs - base) as nat, value }
    } else {
        Line::NameRef { fixed: false, index: (base - abs - 1) as nat, value }
    }
}

/// A literal, with a reference to a static name where there is one.
pub open spec fn literal(f: Field) -> Line {
    match static_table::index_of_name(f.0, 0) {
        Some(i) => Line::NameRef { fixed: true, index: i, value: f.1 },
        None => Line::Literal { name: f.0, value: f.1 },
    }
}

/// What an encoder holds.
#[verifier::ext_equal]
pub struct EncoderState {
    pub table: Table,
    pub max_capacity: nat,
    /// Whether strings are Huffman encoded when that is shorter.
    pub compress: bool,
    pub known_received: nat,
    /// For each unacknowledged field section with dynamic references, in send
    /// order, its stream and the smallest absolute index it references.
    pub pending: Seq<(u64, u64)>,
    /// The unfinished instruction at the end of the peer's decoder stream.
    pub decoder_pending: Seq<u8>,
    /// The Required Insert Count of the most recently encoded section.
    pub last_required: nat,
}

impl EncoderState {
    /// An encoder that has sent nothing.
    pub open spec fn initial(max_capacity: nat, compress: bool) -> EncoderState {
        EncoderState {
            table: Table::empty(0),
            max_capacity,
            compress,
            known_received: 0,
            pending: Seq::empty(),
            decoder_pending: Seq::empty(),
            last_required: 0,
        }
    }

    /// The lowest absolute index at or above which entries are not evictable:
    /// the lower of the Known Received Count and the smallest reference of any
    /// unacknowledged field section.
    pub open spec fn floor(self) -> nat {
        lowest(self.pending, self.known_received)
    }

    /// What every operation keeps: the table is valid and within the capacity
    /// that the decoder allows, nothing at or above the floor was evicted, and
    /// no more was acknowledged than inserted.
    pub open spec fn valid(self) -> bool {
        &&& self.table.valid()
        &&& self.table.capacity <= self.max_capacity
        &&& self.table.dropped() <= self.floor()
        &&& self.known_received <= self.table.inserted
    }

    /// Whether the decoder allows a dynamic table that can hold an entry.
    pub open spec fn usable(self) -> bool {
        self.max_capacity >= 32
    }

    /// Whether the insertion of an entry of `size` evicts nothing at or above
    /// the floor.
    pub open spec fn insert_is_safe(self, size: nat) -> bool {
        self.table.dropped() + self.table.evicted_by_insert(size) <= self.floor()
    }

    /// Whether `f` may be inserted while encoding the section `s`: it fits,
    /// and its insertion evicts nothing that the section references or that
    /// the decoder may still need.
    pub open spec fn may_insert(self, s: Section, f: Field) -> bool {
        let first = s.table.dropped() + s.table.evicted_by_insert(table::size_of(f));
        &&& self.usable()
        &&& table::size_of(f) <= self.max_capacity
        &&& first <= self.floor()
        &&& s.low matches Some(m) ==> first <= m
    }

    /// The section with `f` inserted and referenced.
    pub open spec fn insert_and_refer(self, s: Section, f: Field, base: nat) -> Section {
        let opened = if s.table.capacity != self.max_capacity {
            wire::instruction_octets(
                Instruction::SetCapacity { capacity: self.max_capacity },
                self.compress,
            )
        } else {
            Seq::empty()
        };
        let inserted = Section {
            table: s.table.with_capacity(self.max_capacity).insert(f),
            stream: s.stream + opened + wire::instruction_octets(
                Instruction::InsertLiteral { name: f.0, value: f.1 },
                self.compress,
            ),
            ..s
        };
        inserted.refer(s.table.inserted, indexed(s.table.inserted, base), self.compress)
    }

    /// The section with the field line `f` encoded.
    pub open spec fn encode_field(self, s: Section, f: Field, base: nat) -> Section {
        let full = s.table.find(f);
        let name = s.table.find_named(f.0);
        if sensitive(f.0) {
            s.plain(literal(f), true, self.compress)
        } else if self.usable() && full is Some {
            s.refer(full.unwrap() as nat, indexed(full.unwrap() as nat, base), self.compress)
        } else if static_table::index_of(f.0, f.1, 0) is Some {
            let i = static_table::index_of(f.0, f.1, 0).unwrap();
            s.plain(Line::Indexed { fixed: true, index: i }, false, self.compress)
        } else if self.usable() && name is Some {
            s.refer(name.unwrap() as nat, named(name.unwrap() as nat, base, f.1), self.compress)
        } else if static_table::index_of_name(f.0, 0) is Some {
            s.plain(literal(f), false, self.compress)
        } else if self.may_insert(s, f) {
            self.insert_and_refer(s, f, base)
        } else {
            s.plain(literal(f), false, self.compress)
        }
    }

    /// A section before its first field line.
    pub open spec fn opened(self) -> Section {
        Section {
            table: self.table,
            lines: Seq::empty(),
            stream: Seq::empty(),
            ric: 0,
            low: None,
        }
    }

    /// The section with the field lines `list` encoded.
    pub open spec fn encode_fields(self, list: Seq<Field>, base: nat) -> Section
        decreases list.len(),
    {
        if list.len() == 0 {
            self.opened()
        } else {
            self.encode_field(self.encode_fields(list.drop_last(), base), list.last(), base)
        }
    }

    /// The encoder after the field section `list` on `stream_id`. A section
    /// with dynamic references pins them until the decoder acknowledges it.
    pub open spec fn after_section(self, stream_id: u64, list: Seq<Field>, base: nat) -> EncoderState {
        let s = self.encode_fields(list, base);
        EncoderState {
            table: s.table,
            pending: if s.ric > 0 {
                self.pending.push(
                    (
                        stream_id,
                        match s.low {
                            Some(m) => m as u64,
                            None => 0,
                        },
                    ),
                )
            } else {
                self.pending
            },
            last_required: s.ric,
            ..self
        }
    }

    /// The encoded field section for `list`.
    pub open spec fn section_block(self, list: Seq<Field>, base: nat) -> Seq<u8> {
        let s = self.encode_fields(list, base);
        wire::prefix_octets(s.ric, base, self.max_capacity) + s.lines
    }

    /// The encoder stream instructions that go with the field section.
    pub open spec fn section_stream(self, list: Seq<Field>, base: nat) -> Seq<u8> {
        self.encode_fields(list, base).stream
    }

    /// The encoder after a decoder stream instruction, or `None` where the
    /// instruction is an error: an increment by nothing, or past the
    /// insertions made (RFC 9204 Section 4.4.3). An acknowledgment or a
    /// cancellation that matches no outstanding section changes nothing.
    pub open spec fn absorb(self, a: Ack) -> Option<EncoderState> {
        match a {
            Ack::Section { stream_id } => Some(
                EncoderState { pending: acknowledged(self.pending, stream_id), ..self },
            ),
            Ack::Cancel { stream_id } => Some(
                EncoderState { pending: others(self.pending, stream_id), ..self },
            ),
            Ack::Increment { count } => if count == 0 || self.known_received + count
                > self.table.inserted {
                None
            } else {
                Some(EncoderState { known_received: self.known_received + count as nat, ..self })
            },
        }
    }

    /// Applies the complete decoder stream instructions that `s` starts with,
    /// up to the first that fails. The second component is what is left of
    /// `s`, and `None` on failure.
    pub open spec fn absorb_all(self, s: Seq<u8>) -> (EncoderState, Option<Seq<u8>>)
        decreases s.len(),
    {
        match wire::ack_length(s) {
            Some(n) => if 1 <= n <= s.len() {
                match wire::parse_ack(s.take(n as int)) {
                    Some(a) => match self.absorb(a) {
                        Some(next) => next.absorb_all(s.skip(n as int)),
                        None => (self, None),
                    },
                    None => (self, None),
                }
            } else {
                (self, Some(s))
            },
            None => (self, Some(s)),
        }
    }

    /// The encoder after `buf` arrived on the peer's decoder stream. What is
    /// left behind the complete instructions is kept, unless it is too long to
    /// become one.
    pub open spec fn feed_decoder(self, buf: Seq<u8>) -> (EncoderState, Result<(), QpackError>) {
        let data = self.decoder_pending + buf;
        match self.absorb_all(data) {
            (next, Some(rest)) => (
                EncoderState { decoder_pending: rest, ..next },
                if rest.len() > MAX_DECODER_STREAM_PENDING {
                    Err(QpackError::DecoderStream)
                } else {
                    Ok(())
                },
            ),
            (next, None) => (
                EncoderState { decoder_pending: data, ..next },
                Err(QpackError::DecoderStream),
            ),
        }
    }
}

/// No outstanding reference is below the floor, and the floor is at most the
/// Known Received Count.
pub proof fn lemma_lowest(pending: Seq<(u64, u64)>, known: nat)
    ensures
        lowest(pending, known) <= known,
        forall|i: int| 0 <= i < pending.len() ==> lowest(pending, known) <= (#[trigger] pending[i]).1,
    decreases pending.len(),
{
    if pending.len() > 0 {
        lemma_lowest(pending.drop_last(), known);
        assert forall|i: int| 0 <= i < pending.len() implies lowest(pending, known) <= (
        #[trigger] pending[i]).1 by {
            if i < pending.len() - 1 {
                assert(pending.drop_last()[i] == pending[i]);
            }
        }
    }
}

/// A bound on the Known Received Count and on every reference bounds the
/// floor.
pub proof fn lemma_lowest_bound(pending: Seq<(u64, u64)>, known: nat, bound: int)
    requires
        bound <= known,
        forall|i: int| 0 <= i < pending.len() ==> bound <= (#[trigger] pending[i]).1,
    ensures
        bound <= lowest(pending, known),
    decreases pending.len(),
{
    if pending.len() > 0 {
        assert forall|i: int| 0 <= i < pending.len() - 1 implies bound <= (
        #[trigger] pending.drop_last()[i]).1 by {
            assert(pending.drop_last()[i] == pending[i]);
        }
        lemma_lowest_bound(pending.drop_last(), known, bound);
    }
}

proof fn lemma_others_subset(pending: Seq<(u64, u64)>, stream_id: u64, i: int)
    requires
        0 <= i < others(pending, stream_id).len(),
    ensures
        exists|k: int|
            0 <= k < pending.len() && #[trigger] pending[k] == others(pending, stream_id)[i],
    decreases pending.len(),
{
    let d = pending.drop_last();
    if pending.last().0 == stream_id {
        lemma_others_subset(d, stream_id, i);
        let k = choose|k: int| 0 <= k < d.len() && #[trigger] d[k] == others(d, stream_id)[i];
        assert(pending[k] == d[k]);
    } else if i < others(d, stream_id).len() {
        lemma_others_subset(d, stream_id, i);
        let k = choose|k: int| 0 <= k < d.len() && #[trigger] d[k] == others(d, stream_id)[i];
        assert(pending[k] == d[k]);
    } else {
        assert(pending[pending.len() - 1] == others(pending, stream_id)[i]);
    }
}

proof fn lemma_acknowledged_subset(pending: Seq<(u64, u64)>, stream_id: u64, i: int)
    requires
        0 <= i < acknowledged(pending, stream_id).len(),
    ensures
        exists|k: int|
            0 <= k < pending.len() && #[trigger] pending[k] == acknowledged(pending, stream_id)[i],
    decreases pending.len(),
{
    let d = pending.skip(1);
    if pending[0].0 == stream_id {
        assert(pending[i + 1] == acknowledged(pending, stream_id)[i]);
    } else if i == 0 {
        assert(pending[0] == acknowledged(pending, stream_id)[i]);
    } else {
        lemma_acknowledged_subset(d, stream_id, i - 1);
        let k = choose|k: int|
            0 <= k < d.len() && #[trigger] d[k] == acknowledged(d, stream_id)[i - 1];
        assert(pending[k + 1] == d[k]);
    }
}

/// A decoder stream instruction keeps the encoder valid: acknowledgments only
/// raise the floor.
pub proof fn lemma_absorb(e: EncoderState, a: Ack)
    requires
        e.valid(),
        e.absorb(a) is Some,
    ensures
        e.absorb(a).unwrap().valid(),
        e.absorb(a).unwrap().floor() >= e.floor(),
{
    let next = e.absorb(a).unwrap();
    lemma_lowest(e.pending, e.known_received);
    assert forall|i: int| 0 <= i < next.pending.len() implies e.floor() <= (
    #[trigger] next.pending[i]).1 by {
        match a {
            Ack::Section { stream_id } => {
                lemma_acknowledged_subset(e.pending, stream_id, i);
            },
            Ack::Cancel { stream_id } => {
                lemma_others_subset(e.pending, stream_id, i);
            },
            Ack::Increment { .. } => {},
        }
    }
    lemma_lowest_bound(next.pending, next.known_received, e.floor() as int);
}

/// What holds of a section while it is encoded: the table is valid, nothing at
/// or above the floor was evicted, nothing that the section references was,
/// and the Required Insert Count is within what was inserted.
pub open spec fn section_valid(e: EncoderState, s: Section) -> bool {
    &&& s.table.valid()
    &&& s.table.capacity <= e.max_capacity
    &&& e.table.dropped() <= s.table.dropped() <= e.floor()
    &&& e.table.inserted <= s.table.inserted
    &&& s.ric <= s.table.inserted
    &&& s.ric > 0 ==> e.usable()
    &&& s.low is Some <==> s.ric > 0
    &&& s.low matches Some(m) ==> s.table.dropped() <= m < s.ric
}

/// Inserting an entry while encoding evicts no more than was found safe.
proof fn lemma_insert_and_refer(e: EncoderState, s: Section, f: Field, base: nat)
    requires
        e.valid(),
        section_valid(e, s),
        e.may_insert(s, f),
    ensures
        section_valid(e, e.insert_and_refer(s, f, base)),
        e.insert_and_refer(s, f, base).table.inserted == s.table.inserted + 1,
        s.table.with_capacity(e.max_capacity) == (Table { capacity: e.max_capacity, ..s.table }),
        e.insert_and_refer(s, f, base).table.dropped() <= s.table.dropped()
            + s.table.evicted_by_insert(table::size_of(f)),
{
    let size = table::size_of(f);
    let wide = s.table.with_capacity(e.max_capacity);
    table::lemma_with_capacity(s.table, e.max_capacity);
    table::lemma_insert(wide, f);
    let tight: nat = if size <= s.table.capacity {
        (s.table.capacity - size) as nat
    } else {
        0
    };
    table::lemma_evictions_monotone(s.table.entries, tight, (e.max_capacity - size) as nat);
}

/// Encoding a field line keeps the section valid and inserts at most one
/// entry.
pub proof fn lemma_encode_field(e: EncoderState, s: Section, f: Field, base: nat)
    requires
        e.valid(),
        section_valid(e, s),
    ensures
        section_valid(e, e.encode_field(s, f, base)),
        s.table.inserted <= e.encode_field(s, f, base).table.inserted <= s.table.inserted + 1,
{
    table::lemma_find(s.table, f);
    table::lemma_find_named(s.table, f.0);
    if e.may_insert(s, f) {
        lemma_insert_and_refer(e, s, f, base);
    }
}

/// QPACK encoder: dynamic table owner and field section encoder.
#[derive(Debug)]
pub struct Encoder {
    dynamic: DynamicTable,
    /// Upper bound on the dynamic table capacity allowed by the decoder's
    /// SETTINGS_QPACK_MAX_TABLE_CAPACITY (RFC 9204 Section 5).
    max_capacity: u64,
    /// Whether string literals are Huffman encoded when that is shorter.
    huffman: bool,
    /// Number of dynamic table insertions and duplications acknowledged by the
    /// decoder (RFC 9204 Section 2.1.4). Absolute indexes below it are
    /// acknowledged and can be evicted.
    known_received: u64,
    /// Smallest absolute index referenced by each unacknowledged field section
    /// that has dynamic references, in send order (RFC 9204 Sections 2.1.1 and
    /// 4.4.1). A section is freed by a Section Acknowledgment for its stream
    /// or by a Stream Cancellation.
    pending_refs: VecDeque<(u64, u64)>,
    /// Octets of the peer's decoder stream that do not form a complete
    /// instruction yet.
    decoder_stream_pending: Vec<u8>,
    /// The Required Insert Count of the most recently encoded section.
    last_required: u64,
}

impl View for Encoder {
    type V = EncoderState;

    closed spec fn view(&self) -> EncoderState {
        EncoderState {
            table: self.dynamic@,
            max_capacity: self.max_capacity as nat,
            compress: self.huffman,
            known_received: self.known_received as nat,
            pending: self.pending_refs@,
            decoder_pending: self.decoder_stream_pending@,
            last_required: self.last_required as nat,
        }
    }
}

/// The field section being encoded, without the dynamic table.
struct Draft {
    lines: Vec<u8>,
    stream: Vec<u8>,
    ric: u64,
    low: Option<u64>,
}

impl Draft {
    spec fn section(self, t: Table) -> Section {
        Section {
            table: t,
            lines: self.lines@,
            stream: self.stream@,
            ric: self.ric as nat,
            low: match self.low {
                Some(m) => Some(m as nat),
                None => None,
            },
        }
    }

    /// Records a reference to the dynamic table entry `abs`.
    fn note(&mut self, abs: u64)
        requires
            abs < u64::MAX,
        ensures
            final(self).lines == old(self).lines,
            final(self).stream == old(self).stream,
            final(self).ric == wire::larger(old(self).ric as nat, (abs + 1) as nat),
            final(self).low == match old(self).low {
                Some(m) => if m <= abs {
                    Some(m)
                } else {
                    Some(abs)
                },
                None => Some(abs),
            },
    {
        if abs + 1 > self.ric {
            self.ric = abs + 1;
        }
        self.low = match self.low {
            Some(m) => if m <= abs {
                Some(m)
            } else {
                Some(abs)
            },
            None => Some(abs),
        };
    }
}

fn is_sensitive(name: &[u8]) -> (r: bool)
    ensures
        r == sensitive(name@),
{
    same(name, "authorization".as_bytes()) || same(name, "proxy-authorization".as_bytes()) || same(
        name,
        "cookie".as_bytes(),
    )
}

impl Encoder {
    /// The dynamic table and the state are valid.
    pub closed spec fn wf(&self) -> bool {
        &&& self.dynamic.wf()
        &&& self@.valid()
        &&& self@.table.inserted <= MAX_INSERTIONS
    }

    /// What well-formedness says of the view.
    pub proof fn lemma_wf(&self)
        requires
            self.wf(),
        ensures
            self@.valid(),
            self@.table.inserted <= MAX_INSERTIONS,
            self@.max_capacity <= u64::MAX,
    {
    }

    /// Creates an encoder bound to a decoder that advertised the given
    /// `max_capacity` in SETTINGS_QPACK_MAX_TABLE_CAPACITY.
    pub fn new(max_capacity: u64, huffman: bool) -> (r: Self)
        ensures
            r.wf(),
            r@ == EncoderState::initial(max_capacity as nat, huffman),
    {
        let r = Encoder {
            dynamic: DynamicTable::new(0),
            max_capacity,
            huffman,
            known_received: 0,
            pending_refs: VecDeque::new(),
            decoder_stream_pending: Vec::new(),
            last_required: 0,
        };
        assert(r@ =~= EncoderState::initial(max_capacity as nat, huffman));
        r
    }

    /// The maximum dynamic table capacity permitted by the decoder.
    pub fn max_capacity(&self) -> (r: u64)
        ensures
            r == self@.max_capacity,
    {
        self.max_capacity
    }

    /// The insert count a decoder must have reached to process the most
    /// recently encoded section.
    pub fn required_insert_count(&self) -> (r: u64)
        ensures
            r == self@.last_required,
    {
        self.last_required
    }

    /// The dynamic table as the encoder has built it.
    pub fn dynamic(&self) -> (r: &DynamicTable)
        ensures
            r@ == self@.table,
    {
        &self.dynamic
    }

    /// The Known Received Count: insertions and duplications that the decoder
    /// has acknowledged (RFC 9204 Section 2.1.4).
    pub fn known_received(&self) -> (r: u64)
        ensures
            r == self@.known_received,
    {
        self.known_received
    }

    /// For each unacknowledged field section with dynamic references, in send
    /// order, its stream and the smallest absolute index it references.
    pub fn pending_refs(&self) -> (r: &VecDeque<(u64, u64)>)
        ensures
            r@ == self@.pending,
    {
        &self.pending_refs
    }

    /// The lowest absolute index at or above which entries are NOT evictable:
    /// the lower of the Known Received Count and the smallest reference of any
    /// unacknowledged field section (RFC 9204 Sections 2.1.1 and 2.1.4).
    fn evictable_floor(&self) -> (r: u64)
        ensures
            r == self@.floor(),
    {
        let mut floor: u64 = self.known_received;
        let mut i: usize = 0;
        let ghost all = self.pending_refs@;
        assert(all.take(0) =~= Seq::empty());
        while i < self.pending_refs.len()
            invariant
                all == self.pending_refs@,
                i <= all.len(),
                floor == lowest(all.take(i as int), self.known_received as nat),
            decreases all.len() - i,
        {
            proof {
                assert(all.take(i + 1).drop_last() =~= all.take(i as int));
                assert(all.take(i + 1).last() == all[i as int]);
            }
            let low: u64 = self.pending_refs[i].1;
            if low < floor {
                floor = low;
            }
            i = i + 1;
        }
        assert(all.take(i as int) =~= all);
        floor
    }

    /// Encodes `headers` for the field section on `stream_id` into an encoded
    /// field section plus the encoder stream instructions the decoder needs to
    /// process it. The Base is the insert count.
    ///
    /// The dynamic table is used only when the decoder allows a capacity of at
    /// least one entry (RFC 9204 Section 3.2.3): a maximum capacity below 32
    /// octets cannot hold any entry and disables the dynamic table.
    pub fn encode_section(&mut self, stream_id: u64, headers: &[(Bytes, Bytes)]) -> (r:
        EncodedSection)
        requires
            old(self).wf(),
            old(self)@.table.inserted + headers@.len() <= MAX_INSERTIONS,
        ensures
            final(self).wf(),
            ({
                let e = old(self)@;
                let list = octets::fields(headers@);
                let base = e.table.inserted;
                &&& final(self)@ == e.after_section(stream_id, list, base)
                &&& octets::content(r.block) == e.section_block(list, base)
                &&& octets::content(r.encoder_stream) == e.section_stream(list, base)
            }),
    {
        self.encode_section_with_base(stream_id, headers, self.dynamic.inserted())
    }

    /// Encodes `headers` using the decoder's **acknowledged** insert count
    /// (`known_received`) as the Base.
    ///
    /// Entries that the decoder has not acknowledged yet are then referenced
    /// by post-Base indices, so a strict decoder that lags on its
    /// acknowledgments still decodes the section (RFC 9204 Section 2.1.2).
    pub fn encode_section_with_ack_base(
        &mut self,
        stream_id: u64,
        headers: &[(Bytes, Bytes)],
    ) -> (r: EncodedSection)
        requires
            old(self).wf(),
            old(self)@.table.inserted + headers@.len() <= MAX_INSERTIONS,
        ensures
            final(self).wf(),
            ({
                let e = old(self)@;
                let list = octets::fields(headers@);
                let base = e.known_received;
                &&& final(self)@ == e.after_section(stream_id, list, base)
                &&& octets::content(r.block) == e.section_block(list, base)
                &&& octets::content(r.encoder_stream) == e.section_stream(list, base)
            }),
    {
        self.encode_section_with_base(stream_id, headers, self.known_received)
    }

    /// Encodes `headers` with the given Base. Entries at or above it are
    /// referenced by post-Base indices.
    pub fn encode_section_with_base(
        &mut self,
        stream_id: u64,
        headers: &[(Bytes, Bytes)],
        base: u64,
    ) -> (r: EncodedSection)
        requires
            old(self).wf(),
            old(self)@.table.inserted + headers@.len() <= MAX_INSERTIONS,
        ensures
            final(self).wf(),
            ({
                let e = old(self)@;
                let list = octets::fields(headers@);
                &&& final(self)@ == e.after_section(stream_id, list, base as nat)
                &&& octets::content(r.block) == e.section_block(list, base as nat)
                &&& octets::content(r.encoder_stream) == e.section_stream(list, base as nat)
            }),
    {
        let ghost e = self@;
        let ghost list = octets::fields(headers@);
        let mut draft = Draft { lines: Vec::new(), stream: Vec::new(), ric: 0, low: None };
        let mut i: usize = 0;
        proof {
            assert(list.take(0) =~= Seq::empty());
            assert(draft.section(self@.table) =~= e.opened());
        }
        while i < headers.len()
            invariant
                e == old(self)@,
                e.valid(),
                list == octets::fields(headers@),
                i <= headers@.len(),
                self.dynamic.wf(),
                self@ == (EncoderState { table: self@.table, ..e }),
                self.pending_refs == old(self).pending_refs,
                draft.section(self@.table) == e.encode_fields(list.take(i as int), base as nat),
                section_valid(e, draft.section(self@.table)),
                self@.table.inserted + (headers@.len() - i) <= MAX_INSERTIONS,
            decreases headers@.len() - i,
        {
            let line = &headers[i];
            proof {
                assert(list.take(i + 1).drop_last() =~= list.take(i as int));
                assert(list.take(i + 1).last() == octets::field(*line));
                lemma_encode_field(
                    e,
                    draft.section(self@.table),
                    octets::field(*line),
                    base as nat,
                );
            }
            self.encode_field(Ghost(e), &mut draft, &line.0, &line.1, base);
            i = i + 1;
        }
        assert(list.take(i as int) =~= list);
        let ghost s = draft.section(self@.table);
        // A section with dynamic references pins the referenced entries until
        // the decoder acknowledges it (Section 4.4.1).
        if draft.ric > 0 {
            let low: u64 = match draft.low {
                Some(m) => m,
                None => 0,
            };
            self.pending_refs.push_back((stream_id, low));
            proof {
                assert(self@.pending.drop_last() =~= e.pending);
                assert(self@.floor() == lowest(self@.pending, e.known_received));
            }
        }
        self.last_required = draft.ric;
        assert(self@ =~= e.after_section(stream_id, list, base as nat));
        let mut prefix: Vec<u8> = Vec::new();
        self.encode_prefix(&mut prefix, draft.ric, base);
        prefix.extend_from_slice(draft.lines.as_slice());
        assert(prefix@ =~= e.section_block(list, base as nat));
        EncodedSection {
            block: octets::from_vec(prefix),
            encoder_stream: octets::from_vec(draft.stream),
        }
    }

    /// Encodes one field line into `draft`.
    fn encode_field(
        &mut self,
        Ghost(e): Ghost<EncoderState>,
        draft: &mut Draft,
        name: &Bytes,
        value: &Bytes,
        base: u64,
    )
        requires
            e.valid(),
            old(self).dynamic.wf(),
            old(self)@ == (EncoderState { table: old(self)@.table, ..e }),
            section_valid(e, old(draft).section(old(self)@.table)),
            old(self)@.table.inserted < MAX_INSERTIONS,
        ensures
            final(self).dynamic.wf(),
            final(self)@ == (EncoderState { table: final(self)@.table, ..e }),
            final(self).pending_refs == old(self).pending_refs,
            final(draft).section(final(self)@.table) == e.encode_field(
                old(draft).section(old(self)@.table),
                octets::field((*name, *value)),
                base as nat,
            ),
    {
        let ghost s = draft.section(self@.table);
        let ghost f = octets::field((*name, *value));
        proof {
            self.dynamic.lemma_wf();
            table::lemma_find(s.table, f);
            table::lemma_find_named(s.table, f.0);
            static_table::lemma_index_of(f.0, f.1, 0);
            static_table::lemma_index_of_name(f.0, 0);
        }
        let name_octets = as_slice(name);
        let value_octets = as_slice(value);
        if is_sensitive(name_octets) {
            self.encode_literal(name_octets, value_octets, true, &mut draft.lines);
            assert(draft.section(self@.table) =~= s.plain(literal(f), true, e.compress));
            return;
        }
        let usable: bool = self.max_capacity >= 32;
        // Full match, dynamic table first (newest first), then static. The
        // name matches are kept so that the literal path below does not repeat
        // either table scan.
        let dynamic_match: (Option<u64>, Option<u64>) = if usable {
            self.dynamic.find_full_or_name(name_octets, value_octets)
        } else {
            (None, None)
        };
        if let Some(abs) = dynamic_match.0 {
            self.encode_indexed(abs, base, draft);
            assert(draft.section(self@.table) =~= s.refer(
                abs as nat,
                indexed(abs as nat, base as nat),
                e.compress,
            ));
            return;
        }
        let static_match = static_table::find_full_or_name(name_octets, value_octets);
        if let Some(index) = static_match.0 {
            // Indexed Field Line, static table (T=1).
            integer::encode(&mut draft.lines, index as u64, 6, wire::INDEXED + 0x40);
            assert(draft.section(self@.table) =~= s.plain(
                Line::Indexed { fixed: true, index: index as nat },
                false,
                e.compress,
            ));
            return;
        }
        if let Some(abs) = dynamic_match.1 {
            if abs >= base {
                self.encode_literal_post_base_name_ref(abs, base, value_octets, draft);
            } else {
                self.encode_literal_with_name_ref(abs, base, value_octets, draft);
            }
            assert(draft.section(self@.table) =~= s.refer(
                abs as nat,
                named(abs as nat, base as nat, f.1),
                e.compress,
            ));
            return;
        }
        if let Some(index) = static_match.1 {
            self.encode_literal_with_static_name_ref(index, value_octets, &mut draft.lines);
            assert(draft.section(self@.table) =~= s.plain(literal(f), false, e.compress));
            return;
        }
        // No name match anywhere: insert the entry so that this and later
        // sections can reference it, or emit a literal name.
        if self.may_insert(name_octets.len(), value_octets.len(), draft.low) {
            let abs: u64 = self.dynamic.next_absolute();
            proof {
                lemma_insert_and_refer(e, s, f, base as nat);
            }
            // Set Dynamic Table Capacity (4.3.1), emitted lazily right before
            // the first insert.
            if self.dynamic.capacity() != self.max_capacity {
                integer::encode(&mut draft.stream, self.max_capacity, 5, wire::SET_CAPACITY);
                self.dynamic.set_capacity(self.max_capacity);
            } else {
                assert(draft.stream@ + Seq::<u8>::empty() =~= draft.stream@);
                assert(s.table.with_capacity(e.max_capacity) =~= s.table);
            }
            // Insert with Literal Name (4.3.3).
            string::encode(
                &mut draft.stream,
                name_octets,
                6,
                wire::INSERT_WITH_LITERAL_NAME,
                self.huffman,
            );
            string::encode(&mut draft.stream, value_octets, 8, 0, self.huffman);
            let inserted = self.dynamic.insert(name.clone(), value.clone());
            self.encode_indexed(abs, base, draft);
            assert(draft.section(self@.table) =~= e.insert_and_refer(s, f, base as nat));
        } else {
            self.encode_literal(name_octets, value_octets, false, &mut draft.lines);
            assert(draft.section(self@.table) =~= s.plain(literal(f), false, e.compress));
        }
    }

    /// Whether an entry with a name and a value of the given lengths may be
    /// inserted while encoding a section whose smallest reference is `low`.
    ///
    /// An insert only evicts the oldest entries, so it is allowed when the
    /// first surviving entry sits at or below every entry the section
    /// references and everything the decoder still needs (RFC 9204
    /// Section 2.1.1).
    fn may_insert(&self, name_len: usize, value_len: usize, low: Option<u64>) -> (r: bool)
        requires
            self.dynamic.wf(),
        ensures
            r == ({
                let size = name_len + value_len + 32;
                let first = self@.table.dropped() + self@.table.evicted_by_insert(size as nat);
                &&& self@.usable()
                &&& size <= self@.max_capacity
                &&& first <= self@.floor()
                &&& low matches Some(m) ==> first <= m
            }),
    {
        let n: u64 = name_len as u64;
        let v: u64 = value_len as u64;
        let max: u64 = self.max_capacity;
        if max < 32 || n > max - 32 || v > max - 32 - n {
            return false;
        }
        proof {
            self.dynamic.lemma_wf();
        }
        let size: u64 = n + v + 32;
        let first: u64 = self.dynamic.dropped() + self.dynamic.would_evict(size);
        let floor: u64 = self.evictable_floor();
        first <= floor && match low {
            Some(m) => first <= m,
            None => true,
        }
    }

    /// Encodes the Required Insert Count and the Base (RFC 9204 4.5.1).
    pub fn encode_prefix(&self, out: &mut Vec<u8>, ric: u64, base: u64)
        ensures
            final(out)@ == old(out)@ + wire::prefix_octets(
                ric as nat,
                base as nat,
                self@.max_capacity,
            ),
    {
        let max_entries: u64 = self.max_capacity / 32;
        let enc_ric: u64 = if ric == 0 || max_entries == 0 {
            0
        } else {
            let wrapped: u64 = ric % (2 * max_entries);
            assert(wrapped < 2 * max_entries) by (nonlinear_arith)
                requires
                    max_entries > 0,
                    wrapped == ric % (2 * max_entries) as u64,
            ;
            wrapped + 1
        };
        integer::encode(out, enc_ric, 8, 0);
        if base >= ric {
            integer::encode(out, base - ric, 7, 0);
        } else {
            integer::encode(out, ric - base - 1, 7, 0x80);
        }
        assert(out@ =~= old(out)@ + wire::prefix_octets(
            ric as nat,
            base as nat,
            self@.max_capacity,
        ));
    }

    /// Encodes an indexed reference to a dynamic table entry.
    fn encode_indexed(&self, abs: u64, base: u64, draft: &mut Draft)
        requires
            abs < u64::MAX,
        ensures
            forall|t: Table| #[trigger]
                final(draft).section(t) == old(draft).section(t).refer(
                    abs as nat,
                    indexed(abs as nat, base as nat),
                    self@.compress,
                ),
    {
        if abs >= base {
            // Post-Base index (4.5.3).
            integer::encode(&mut draft.lines, abs - base, 4, wire::INDEXED_POST_BASE);
        } else {
            // Relative index (4.5.2): Base - Absolute - 1.
            integer::encode(&mut draft.lines, base - abs - 1, 6, wire::INDEXED);
        }
        draft.note(abs);
        assert forall|t: Table| #[trigger]
            draft.section(t) == old(draft).section(t).refer(
                abs as nat,
                indexed(abs as nat, base as nat),
                self@.compress,
            ) by {
            assert(draft.section(t) =~= old(draft).section(t).refer(
                abs as nat,
                indexed(abs as nat, base as nat),
                self@.compress,
            ));
        }
    }

    /// Encodes a literal field line with a dynamic name reference (T=0).
    fn encode_literal_with_name_ref(&self, abs: u64, base: u64, value: &[u8], draft: &mut Draft)
        requires
            abs < base,
        ensures
            forall|t: Table| #[trigger]
                final(draft).section(t) == old(draft).section(t).refer(
                    abs as nat,
                    named(abs as nat, base as nat, value@),
                    self@.compress,
                ),
    {
        integer::encode(&mut draft.lines, base - abs - 1, 4, wire::LITERAL_NAME_REF);
        string::encode(&mut draft.lines, value, 8, 0, self.huffman);
        draft.note(abs);
        assert forall|t: Table| #[trigger]
            draft.section(t) == old(draft).section(t).refer(
                abs as nat,
                named(abs as nat, base as nat, value@),
                self@.compress,
            ) by {
            assert(draft.section(t) =~= old(draft).section(t).refer(
                abs as nat,
                named(abs as nat, base as nat, value@),
                self@.compress,
            ));
        }
    }

    /// Encodes a literal field line with a post-Base name reference (4.5.5).
    fn encode_literal_post_base_name_ref(
        &self,
        abs: u64,
        base: u64,
        value: &[u8],
        draft: &mut Draft,
    )
        requires
            base <= abs < u64::MAX,
        ensures
            forall|t: Table| #[trigger]
                final(draft).section(t) == old(draft).section(t).refer(
                    abs as nat,
                    named(abs as nat, base as nat, value@),
                    self@.compress,
                ),
    {
        integer::encode(&mut draft.lines, abs - base, 3, wire::LITERAL_POST_BASE_NAME_REF);
        string::encode(&mut draft.lines, value, 8, 0, self.huffman);
        draft.note(abs);
        assert forall|t: Table| #[trigger]
            draft.section(t) == old(draft).section(t).refer(
                abs as nat,
                named(abs as nat, base as nat, value@),
                self@.compress,
            ) by {
            assert(draft.section(t) =~= old(draft).section(t).refer(
                abs as nat,
                named(abs as nat, base as nat, value@),
                self@.compress,
            ));
        }
    }

    /// Encodes a literal field line with a static name reference (T=1).
    fn encode_literal_with_static_name_ref(&self, index: usize, value: &[u8], block: &mut Vec<u8>)
        ensures
            final(block)@ == old(block)@ + wire::line_octets(
                Line::NameRef { fixed: true, index: index as nat, value: value@ },
                false,
                self@.compress,
            ),
    {
        integer::encode(block, index as u64, 4, wire::LITERAL_NAME_REF + 0x10);
        string::encode(block, value, 8, 0, self.huffman);
        assert(block@ =~= old(block)@ + wire::line_octets(
            Line::NameRef { fixed: true, index: index as nat, value: value@ },
            false,
            self@.compress,
        ));
    }

    /// Encodes a literal field line with a literal name (4.5.6), preferring a
    /// static name reference when one exists. A sensitive line carries the N
    /// bit.
    fn encode_literal(&self, name: &[u8], value: &[u8], sensitive: bool, block: &mut Vec<u8>)
        ensures
            final(block)@ == old(block)@ + wire::line_octets(
                literal((name@, value@)),
                sensitive,
                self@.compress,
            ),
    {
        match static_table::find_name(name) {
            Some(index) => {
                let never: u8 = if sensitive {
                    0x20
                } else {
                    0
                };
                integer::encode(block, index as u64, 4, wire::LITERAL_NAME_REF + never + 0x10);
            },
            None => {
                let never: u8 = if sensitive {
                    0x10
                } else {
                    0
                };
                string::encode(
                    block,
                    name,
                    4,
                    wire::LITERAL_LITERAL_NAME + never,
                    self.huffman,
                );
            },
        }
        string::encode(block, value, 8, 0, self.huffman);
        assert(block@ =~= old(block)@ + wire::line_octets(
            literal((name@, value@)),
            sensitive,
            self@.compress,
        ));
    }
}

impl EncoderState {
    /// Whether `f` can be inserted on its own: it fits the current capacity
    /// and evicts nothing that the decoder still needs.
    pub open spec fn insertable(self, f: Field) -> bool {
        table::size_of(f) <= self.table.capacity && self.insert_is_safe(table::size_of(f))
    }

    /// The encoder with `f` inserted.
    pub open spec fn inserting(self, f: Field) -> EncoderState {
        EncoderState { table: self.table.insert(f), ..self }
    }

    /// The instruction that inserts `f` by a reference to its name, preferring
    /// the dynamic table, where the name is indexed at all.
    pub open spec fn name_reference(self, f: Field) -> Option<Instruction> {
        match self.table.find_named(f.0) {
            Some(abs) => Some(
                Instruction::InsertNameRef {
                    fixed: false,
                    index: (self.table.inserted - abs - 1) as nat,
                    value: f.1,
                },
            ),
            None => match static_table::index_of_name(f.0, 0) {
                Some(i) => Some(Instruction::InsertNameRef { fixed: true, index: i, value: f.1 }),
                None => None,
            },
        }
    }

    /// Whether the capacity can be changed to `capacity`: it differs, the
    /// decoder allows it, and it evicts nothing that the decoder still needs.
    pub open spec fn resizable(self, capacity: nat) -> bool {
        &&& capacity <= self.max_capacity
        &&& capacity != self.table.capacity
        &&& capacity < self.table.capacity ==> self.table.dropped()
            + self.table.evicted_by_capacity(capacity) <= self.floor()
    }
}

proof fn lemma_others_push(pending: Seq<(u64, u64)>, p: (u64, u64), stream_id: u64)
    ensures
        others(pending.push(p), stream_id) == if p.0 == stream_id {
            others(pending, stream_id)
        } else {
            others(pending, stream_id).push(p)
        },
{
    assert(pending.push(p).drop_last() =~= pending);
}

proof fn lemma_acknowledged_at(pending: Seq<(u64, u64)>, stream_id: u64, k: int)
    requires
        0 <= k < pending.len(),
        pending[k].0 == stream_id,
        forall|i: int| 0 <= i < k ==> (#[trigger] pending[i]).0 != stream_id,
    ensures
        acknowledged(pending, stream_id) == pending.remove(k),
    decreases k,
{
    if k == 0 {
        assert(pending.remove(0) =~= pending.skip(1));
    } else {
        let d = pending.skip(1);
        assert forall|i: int| 0 <= i < k - 1 implies (#[trigger] d[i]).0 != stream_id by {
            assert(d[i] == pending[i + 1]);
        }
        lemma_acknowledged_at(d, stream_id, k - 1);
        assert(seq![pending[0]] + d.remove(k - 1) =~= pending.remove(k));
    }
}

/// An acknowledgment frees the first section of its stream.
pub(crate) proof fn lemma_acknowledged_first(pending: Seq<(u64, u64)>, stream_id: u64, k: int)
    requires
        0 <= k < pending.len(),
        pending[k].0 == stream_id,
        forall|i: int| 0 <= i < k ==> (#[trigger] pending[i]).0 != stream_id,
    ensures
        acknowledged(pending, stream_id) == pending.remove(k),
{
    lemma_acknowledged_at(pending, stream_id, k);
}

pub(crate) proof fn lemma_acknowledged_none(pending: Seq<(u64, u64)>, stream_id: u64)
    requires
        forall|i: int| 0 <= i < pending.len() ==> (#[trigger] pending[i]).0 != stream_id,
    ensures
        acknowledged(pending, stream_id) == pending,
    decreases pending.len(),
{
    if pending.len() > 0 {
        let d = pending.skip(1);
        assert forall|i: int| 0 <= i < d.len() implies (#[trigger] d[i]).0 != stream_id by {
            assert(d[i] == pending[i + 1]);
        }
        lemma_acknowledged_none(d, stream_id);
        assert(seq![pending[0]] + d =~= pending);
    } else {
        assert(acknowledged(pending, stream_id) =~= pending);
    }
}

pub(crate) proof fn lemma_others_none(pending: Seq<(u64, u64)>, stream_id: u64)
    requires
        forall|i: int| 0 <= i < pending.len() ==> (#[trigger] pending[i]).0 != stream_id,
    ensures
        others(pending, stream_id) == pending,
    decreases pending.len(),
{
    if pending.len() > 0 {
        let d = pending.drop_last();
        assert forall|i: int| 0 <= i < d.len() implies (#[trigger] d[i]).0 != stream_id by {
            assert(d[i] == pending[i]);
        }
        lemma_others_none(d, stream_id);
        assert(pending[pending.len() - 1].0 != stream_id);
        assert(d.push(pending.last()) =~= pending);
    } else {
        assert(others(pending, stream_id) =~= pending);
    }
}

impl Encoder {
    /// The size of an entry with a name and a value of the given lengths,
    /// where it can be inserted on its own.
    fn insertable_size(&self, name_len: usize, value_len: usize) -> (r: Option<u64>)
        requires
            self.dynamic.wf(),
        ensures
            ({
                let size = (name_len + value_len + 32) as nat;
                match r {
                    Some(n) => n == size && size <= self@.table.capacity && self@.insert_is_safe(
                        size,
                    ),
                    None => !(size <= self@.table.capacity && self@.insert_is_safe(size)),
                }
            }),
    {
        let n: u64 = name_len as u64;
        let v: u64 = value_len as u64;
        let capacity: u64 = self.dynamic.capacity();
        if capacity < 32 || n > capacity - 32 || v > capacity - 32 - n {
            return None;
        }
        let size: u64 = n + v + 32;
        if self.insert_would_evict_needed(size) {
            return None;
        }
        Some(size)
    }

    /// Whether inserting an entry of `size` octets would evict an entry the
    /// decoder still needs (RFC 9204 Section 2.1.1): one that is not yet
    /// acknowledged or is referenced by an unacknowledged field section.
    fn insert_would_evict_needed(&self, size: u64) -> (r: bool)
        requires
            self.dynamic.wf(),
        ensures
            r == !self@.insert_is_safe(size as nat),
    {
        proof {
            self.dynamic.lemma_wf();
        }
        self.dynamic.dropped() + self.dynamic.would_evict(size) > self.evictable_floor()
    }

    /// Inserts an entry with a literal name on the encoder stream (4.3.3) and
    /// mirrors it in the local table. Returns the instruction, or `None` when
    /// the entry does not fit in the dynamic table.
    pub fn insert_literal(&mut self, name: &[u8], value: &[u8]) -> (r: Option<Bytes>)
        requires
            old(self).wf(),
            old(self)@.table.inserted < MAX_INSERTIONS,
        ensures
            final(self).wf(),
            ({
                let f = (name@, value@);
                if old(self)@.insertable(f) {
                    &&& final(self)@ == old(self)@.inserting(f)
                    &&& r matches Some(b) && octets::content(b) == wire::instruction_octets(
                        Instruction::InsertLiteral { name: f.0, value: f.1 },
                        old(self)@.compress,
                    )
                } else {
                    r is None && final(self)@ == old(self)@
                }
            }),
    {
        let ghost f = (name@, value@);
        match self.insertable_size(name.len(), value.len()) {
            None => None,
            Some(_) => {
                proof {
                    table::lemma_insert(self@.table, f);
                }
                let mut out: Vec<u8> = Vec::new();
                string::encode(&mut out, name, 6, wire::INSERT_WITH_LITERAL_NAME, self.huffman);
                string::encode(&mut out, value, 8, 0, self.huffman);
                let inserted = self.dynamic.insert(
                    Bytes::copy_from_slice(name),
                    Bytes::copy_from_slice(value),
                );
                assert(self@ =~= old(self)@.inserting(f));
                assert(out@ =~= wire::instruction_octets(
                    Instruction::InsertLiteral { name: f.0, value: f.1 },
                    old(self)@.compress,
                ));
                Some(octets::from_vec(out))
            },
        }
    }

    /// Inserts an entry with a name reference on the encoder stream (4.3.2),
    /// preferring the dynamic table (T=0) then the static table (T=1), and
    /// mirrors it in the local table. Returns the instruction, or `None` when
    /// the name is not indexed anywhere or the entry does not fit.
    pub fn insert_with_name_ref(&mut self, name: &[u8], value: &[u8]) -> (r: Option<Bytes>)
        requires
            old(self).wf(),
            old(self)@.table.inserted < MAX_INSERTIONS,
        ensures
            final(self).wf(),
            ({
                let f = (name@, value@);
                let e = old(self)@;
                if e.insertable(f) && e.name_reference(f) is Some {
                    &&& final(self)@ == e.inserting(f)
                    &&& r matches Some(b) && octets::content(b) == wire::instruction_octets(
                        e.name_reference(f).unwrap(),
                        e.compress,
                    )
                } else {
                    r is None && final(self)@ == e
                }
            }),
    {
        let ghost f = (name@, value@);
        proof {
            self.dynamic.lemma_wf();
            table::lemma_find_named(self@.table, f.0);
        }
        match self.insertable_size(name.len(), value.len()) {
            None => None,
            Some(_) => {
                proof {
                    table::lemma_insert(self@.table, f);
                }
                let mut out: Vec<u8> = Vec::new();
                match self.dynamic.find_name(name) {
                    Some(abs) => {
                        integer::encode(
                            &mut out,
                            self.dynamic.inserted() - abs - 1,
                            6,
                            wire::INSERT_WITH_NAME_REF,
                        );
                    },
                    None => match static_table::find_name(name) {
                        Some(index) => {
                            integer::encode(
                                &mut out,
                                index as u64,
                                6,
                                wire::INSERT_WITH_NAME_REF + 0x40,
                            );
                        },
                        None => {
                            return None;
                        },
                    },
                }
                string::encode(&mut out, value, 8, 0, self.huffman);
                let inserted = self.dynamic.insert(
                    Bytes::copy_from_slice(name),
                    Bytes::copy_from_slice(value),
                );
                assert(self@ =~= old(self)@.inserting(f));
                assert(out@ =~= wire::instruction_octets(
                    old(self)@.name_reference(f).unwrap(),
                    old(self)@.compress,
                ));
                Some(octets::from_vec(out))
            },
        }
    }

    /// Duplicates the entry at the given relative index (4.3.4) and mirrors it
    /// in the local table. Returns the instruction, or `None` when the index
    /// is out of range or the copy does not fit.
    pub fn duplicate(&mut self, relative: u64) -> (r: Option<Bytes>)
        requires
            old(self).wf(),
            old(self)@.table.inserted < MAX_INSERTIONS,
        ensures
            final(self).wf(),
            ({
                let e = old(self)@;
                let f = e.table.lookup(e.table.inserted - 1 - relative);
                if f is Some && e.insertable(f.unwrap()) {
                    &&& final(self)@ == e.inserting(f.unwrap())
                    &&& r matches Some(b) && octets::content(b) == wire::instruction_octets(
                        Instruction::Duplicate { index: relative as nat },
                        e.compress,
                    )
                } else {
                    r is None && final(self)@ == e
                }
            }),
    {
        match self.dynamic.get_relative_bytes(relative) {
            None => None,
            Some((name, value)) => match self.insertable_size(name.len(), value.len()) {
                None => None,
                Some(_) => {
                    let ghost f = octets::field((name, value));
                    proof {
                        table::lemma_insert(self@.table, f);
                    }
                    let mut out: Vec<u8> = Vec::new();
                    integer::encode(&mut out, relative, 5, wire::DUPLICATE);
                    let inserted = self.dynamic.insert(name, value);
                    assert(self@ =~= old(self)@.inserting(f));
                    assert(out@ =~= wire::instruction_octets(
                        Instruction::Duplicate { index: relative as nat },
                        old(self)@.compress,
                    ));
                    Some(octets::from_vec(out))
                },
            },
        }
    }

    /// Sets the dynamic table capacity (4.3.1), evicting as needed. Returns
    /// the instruction, or `None` when the capacity is unchanged, exceeds the
    /// decoder's maximum, or the reduction would evict entries the decoder
    /// still needs (RFC 9204 Section 2.1.1).
    pub fn set_capacity(&mut self, capacity: u64) -> (r: Option<Bytes>)
        requires
            old(self).wf(),
        ensures
            final(self).wf(),
            ({
                let e = old(self)@;
                if e.resizable(capacity as nat) {
                    &&& final(self)@ == (EncoderState {
                        table: e.table.with_capacity(capacity as nat),
                        ..e
                    })
                    &&& r matches Some(b) && octets::content(b) == wire::instruction_octets(
                        Instruction::SetCapacity { capacity: capacity as nat },
                        e.compress,
                    )
                } else {
                    r is None && final(self)@ == e
                }
            }),
    {
        proof {
            self.dynamic.lemma_wf();
            table::lemma_with_capacity(self@.table, capacity as nat);
        }
        let current: u64 = self.dynamic.capacity();
        if capacity > self.max_capacity || capacity == current {
            return None;
        }
        if capacity < current {
            let evicted: u64 = self.dynamic.evict_for_capacity(capacity);
            if self.dynamic.dropped() + evicted > self.evictable_floor() {
                return None;
            }
        }
        let mut out: Vec<u8> = Vec::new();
        integer::encode(&mut out, capacity, 5, wire::SET_CAPACITY);
        self.dynamic.set_capacity(capacity);
        assert(self@ =~= (EncoderState {
            table: old(self)@.table.with_capacity(capacity as nat),
            ..old(self)@
        }));
        assert(out@ =~= wire::instruction_octets(
            Instruction::SetCapacity { capacity: capacity as nat },
            old(self)@.compress,
        ));
        Some(octets::from_vec(out))
    }

    /// Processes the decoder stream instructions in `buf`. Section
    /// Acknowledgments (4.4.1) free a field section's references, Stream
    /// Cancellations (4.4.2) free every reference of a cancelled stream, and
    /// Insert Count Increments (4.4.3) raise the Known Received Count. An
    /// instruction split across calls is buffered.
    ///
    /// Only an Insert Count Increment (4.4.3) is a connection error: a zero
    /// increment, or one that advances past the number of inserts sent
    /// (RFC 9204 Section 2.1.4). A Section Acknowledgment or Stream
    /// Cancellation that matches no outstanding field section is benign and
    /// ignored.
    pub fn feed_decoder_stream(&mut self, buf: &[u8]) -> (r: Result<(), QpackError>)
        requires
            old(self).wf(),
        ensures
            final(self).wf(),
            (final(self)@, r) == old(self)@.feed_decoder(buf@),
    {
        let ghost start = self@;
        let ghost data = start.decoder_pending + buf@;
        self.decoder_stream_pending.extend_from_slice(buf);
        assert(self.decoder_stream_pending@ =~= data);
        let mut pending: Vec<u8> = Vec::new();
        std::mem::swap(&mut pending, &mut self.decoder_stream_pending);
        let mut consumed: usize = 0;
        let mut more: bool = true;
        // The state with the octets that were pending at the start, which
        // processing the instructions does not touch.
        let ghost mut here = start;
        proof {
            assert(data.skip(0) =~= data);
        }
        while more
            invariant
                self.wf(),
                start == old(self)@,
                data == start.decoder_pending + buf@,
                pending@ == data,
                consumed <= data.len(),
                here == (EncoderState { decoder_pending: start.decoder_pending, ..self@ }),
                start.absorb_all(data) == here.absorb_all(data.skip(consumed as int)),
                !more ==> start.absorb_all(data) == (here, Some(data.skip(consumed as int))),
            decreases data.len() - consumed + if more {
                1int
            } else {
                0int
            },
        {
            let rest = slice_subrange(pending.as_slice(), consumed, pending.len());
            assert(rest@ =~= data.skip(consumed as int));
            match decoder::decoder_instruction_len(rest) {
                None => {
                    more = false;
                },
                Some(len) => {
                    let instr = slice_subrange(rest, 0, len);
                    assert(instr@ =~= rest@.take(len as int));
                    let ghost before = here;
                    match decoder::decode_ack(instr) {
                        None => {
                            self.decoder_stream_pending = pending;
                            assert(self@ =~= (EncoderState { decoder_pending: data, ..here }));
                            return Err(QpackError::DecoderStream);
                        },
                        Some(value) => {
                            let ghost a = wire::parse_ack(instr@).unwrap();
                            if instr[0] >= 0x80 {
                                self.free_section(value);
                            } else if instr[0] >= 0x40 {
                                self.free_stream(value);
                            } else {
                                if value == 0 || value > self.dynamic.inserted()
                                    - self.known_received {
                                    self.decoder_stream_pending = pending;
                                    assert(self@ =~= (EncoderState {
                                        decoder_pending: data,
                                        ..here
                                    }));
                                    return Err(QpackError::DecoderStream);
                                }
                                self.known_received = self.known_received + value;
                            }
                            proof {
                                here =
                                EncoderState { decoder_pending: start.decoder_pending, ..self@ };
                                assert(here =~= before.absorb(a).unwrap());
                                lemma_absorb(before, a);
                                assert(rest@.skip(len as int) =~= data.skip(consumed + len));
                            }
                        },
                    }
                    consumed = consumed + len;
                },
            }
        }
        let rest: Vec<u8> = pending.split_off(consumed);
        assert(rest@ =~= data.skip(consumed as int));
        let too_long: bool = rest.len() > MAX_DECODER_STREAM_PENDING;
        self.decoder_stream_pending = rest;
        assert(self@ =~= (EncoderState {
            decoder_pending: data.skip(consumed as int),
            ..here
        }));
        // A complete instruction is one prefixed integer, so that a much larger
        // unfinished one can never become valid.
        if too_long {
            return Err(QpackError::DecoderStream);
        }
        Ok(())
    }

    /// Frees the references of the oldest unacknowledged field section of
    /// `stream_id`, where there is one.
    fn free_section(&mut self, stream_id: u64)
        ensures
            final(self)@ == (EncoderState {
                pending: acknowledged(old(self)@.pending, stream_id),
                ..old(self)@
            }),
            final(self).dynamic == old(self).dynamic,
    {
        let ghost all = self.pending_refs@;
        let mut i: usize = 0;
        while i < self.pending_refs.len()
            invariant
                *self == *old(self),
                all == self.pending_refs@,
                i <= all.len(),
                forall|k: int| 0 <= k < i ==> (#[trigger] all[k]).0 != stream_id,
            decreases all.len() - i,
        {
            if self.pending_refs[i].0 == stream_id {
                proof {
                    lemma_acknowledged_at(all, stream_id, i as int);
                }
                let freed = self.pending_refs.remove(i);
                assert(self@ =~= (EncoderState {
                    pending: acknowledged(old(self)@.pending, stream_id),
                    ..old(self)@
                }));
                return;
            }
            i = i + 1;
        }
        proof {
            lemma_acknowledged_none(all, stream_id);
        }
    }

    /// Frees every reference of `stream_id`.
    fn free_stream(&mut self, stream_id: u64)
        ensures
            final(self)@ == (EncoderState {
                pending: others(old(self)@.pending, stream_id),
                ..old(self)@
            }),
            final(self).dynamic == old(self).dynamic,
    {
        let ghost all = self.pending_refs@;
        let mut kept: VecDeque<(u64, u64)> = VecDeque::new();
        let mut i: usize = 0;
        proof {
            assert(all.take(0) =~= Seq::empty());
            assert(others(all.take(0), stream_id) =~= kept@);
        }
        while i < self.pending_refs.len()
            invariant
                *self == *old(self),
                all == self.pending_refs@,
                i <= all.len(),
                kept@ == others(all.take(i as int), stream_id),
            decreases all.len() - i,
        {
            let p: (u64, u64) = self.pending_refs[i];
            proof {
                lemma_others_push(all.take(i as int), p, stream_id);
                assert(all.take(i + 1) =~= all.take(i as int).push(p));
            }
            if p.0 != stream_id {
                kept.push_back(p);
            }
            i = i + 1;
        }
        assert(all.take(i as int) =~= all);
        self.pending_refs = kept;
        assert(self@ =~= (EncoderState {
            pending: others(old(self)@.pending, stream_id),
            ..old(self)@
        }));
    }
}

} // verus!
