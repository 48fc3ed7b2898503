//! What a QPACK encoder chooses and what a QPACK decoder answers.
//!
//! Which representation an encoder picks for a field, what it may evict and what
//! acknowledgments free; and what a decoder charges, blocks, acknowledges and gives
//! up.

use super::decoder;
use super::decoder::{Blocked, DecoderState};
use super::encoder;
use super::encoder::{EncoderState, Section};
use super::laws;
use super::layout;
use super::static_table;
use super::table;
use super::table::Table;
use super::wire;
use super::wire::{Ack, Instruction, Line, Run};
use super::QpackError;
use crate::h3::message;
use crate::octets::Field;
use vstd::prelude::*;

verus! {

/// The names whose fields are never indexed, octet by octet.
pub proof fn lemma_sensitive_names(name: Seq<u8>)
    ensures
        encoder::sensitive(name) <==> {
            ||| name == seq![
                0x61u8, 0x75, 0x74, 0x68, 0x6f, 0x72, 0x69, 0x7a, 0x61, 0x74, 0x69, 0x6f, 0x6e,
            ]
            ||| name == seq![
                0x70u8, 0x72, 0x6f, 0x78, 0x79, 0x2d, 0x61, 0x75, 0x74, 0x68, 0x6f, 0x72, 0x69,
                0x7a, 0x61, 0x74, 0x69, 0x6f, 0x6e,
            ]
            ||| name == seq![0x63u8, 0x6f, 0x6f, 0x6b, 0x69, 0x65]
        },
{
    reveal_strlit("authorization");
    reveal_strlit("proxy-authorization");
    reveal_strlit("cookie");
    message::lemma_spelled("authorization");
    message::lemma_spelled("proxy-authorization");
    message::lemma_spelled("cookie");
    assert(message::spelled("authorization") =~= seq![
        0x61u8, 0x75, 0x74, 0x68, 0x6f, 0x72, 0x69, 0x7a, 0x61, 0x74, 0x69, 0x6f, 0x6e,
    ]);
    assert(message::spelled("proxy-authorization") =~= seq![
        0x70u8, 0x72, 0x6f, 0x78, 0x79, 0x2d, 0x61, 0x75, 0x74, 0x68, 0x6f, 0x72, 0x69, 0x7a, 0x61,
        0x74, 0x69, 0x6f, 0x6e,
    ]);
    assert(message::spelled("cookie") =~= seq![0x63u8, 0x6f, 0x6f, 0x6b, 0x69, 0x65]);
}

/// Whether an entry of the dynamic table is that field.
pub open spec fn holds(s: Section, f: Field) -> bool {
    exists|i: int| 0 <= i < s.table.entries.len() && #[trigger] s.table.entries[i] == f
}

/// Whether an entry of the dynamic table has that name.
pub open spec fn holds_name(s: Section, name: Seq<u8>) -> bool {
    exists|i: int| 0 <= i < s.table.entries.len() && (#[trigger] s.table.entries[i]).0 == name
}

/// Whether an entry of the static table is that field.
pub open spec fn is_static(f: Field) -> bool {
    exists|i: nat| i < 99 && #[trigger] static_table::entry(i) == f
}

/// Whether an entry of the static table has that name.
pub open spec fn is_static_name(name: Seq<u8>) -> bool {
    exists|i: nat| i < 99 && (#[trigger] static_table::entry(i)).0 == name
}

/// Whether the last line of `after` is a reference to the entry `abs` of the
/// dynamic table, as the whole field or as its name.
pub open spec fn refers(
    e: EncoderState,
    before: Section,
    after: Section,
    abs: int,
    base: nat,
    value: Option<Seq<u8>>,
) -> bool {
    let l = match value {
        None => if abs >= base {
            Line::PostBase { index: (abs - base) as nat }
        } else {
            Line::Indexed { fixed: false, index: (base - abs - 1) as nat }
        },
        Some(v) => if abs >= base {
            Line::PostBaseNameRef { index: (abs - base) as nat, value: v }
        } else {
            Line::NameRef { fixed: false, index: (base - abs - 1) as nat, value: v }
        },
    };
    &&& after.lines == before.lines + wire::line_octets(l, false, e.compress)
    &&& after.ric >= before.ric && after.ric >= abs + 1
    &&& after.ric == before.ric || after.ric == abs + 1
    &&& after.low matches Some(m) && m <= abs && (before.low matches Some(k) ==> m <= k) && (m == abs
        || before.low == Some(m))
}

/// How a field is encoded where the decoder allows a dynamic table. A sensitive
/// one is a literal that is never indexed. Any other is a reference to the newest
/// equal entry of the dynamic table; else to the static one; else a literal with
/// the name of the newest entry of that name; else with the name of the first
/// static entry of that name; else it is inserted and referenced, where it may be;
/// and else a literal.
pub proof fn lemma_choices(e: EncoderState, s: Section, f: Field, base: nat)
    requires
        e.max_capacity >= 32,
        s.table.entries.len() <= s.table.inserted,
    ensures
        ({
            let after = e.encode_field(s, f, base);
            let same_table = after.table == s.table && after.stream == s.stream;
            let plain = after.ric == s.ric && after.low == s.low && same_table;
            &&& encoder::sensitive(f.0) ==> plain
            &&& !encoder::sensitive(f.0) && holds(s, f) ==> same_table && exists|i: int|
                {
                    &&& 0 <= i < s.table.entries.len()
                    &&& #[trigger] s.table.entries[i] == f
                    &&& forall|j: int|
                        i < j < s.table.entries.len() ==> #[trigger] s.table.entries[j] != f
                    &&& refers(
                        e,
                        s,
                        after,
                        s.table.inserted - s.table.entries.len() + i,
                        base,
                        None,
                    )
                }
            &&& !encoder::sensitive(f.0) && !holds(s, f) && is_static(f) ==> plain && exists|i: nat|
                i < 99 && #[trigger] static_table::entry(i) == f && after.lines == s.lines
                    + wire::line_octets(Line::Indexed { fixed: true, index: i }, false, e.compress)
            &&& !encoder::sensitive(f.0) && !holds(s, f) && !is_static(f) && holds_name(s, f.0)
                ==> same_table && exists|i: int|
                {
                    &&& 0 <= i < s.table.entries.len()
                    &&& (#[trigger] s.table.entries[i]).0 == f.0
                    &&& forall|j: int|
                        i < j < s.table.entries.len() ==> (#[trigger] s.table.entries[j]).0 != f.0
                    &&& refers(
                        e,
                        s,
                        after,
                        s.table.inserted - s.table.entries.len() + i,
                        base,
                        Some(f.1),
                    )
                }
            &&& !encoder::sensitive(f.0) && !holds_name(s, f.0) && !is_static(f) && is_static_name(
                f.0,
            ) ==> plain && exists|i: nat|
                {
                    &&& i < 99
                    &&& (#[trigger] static_table::entry(i)).0 == f.0
                    &&& forall|j: nat| j < i ==> (#[trigger] static_table::entry(j)).0 != f.0
                    &&& after.lines == s.lines + wire::line_octets(
                        Line::NameRef { fixed: true, index: i, value: f.1 },
                        false,
                        e.compress,
                    )
                }
        }),
{
    layout::lemma_searches(s.table, f);
    lemma_static(f);
    let after = e.encode_field(s, f, base);
    let dropped = s.table.inserted - s.table.entries.len();
    if holds(s, f) {
        let k = choose|i: int| 0 <= i < s.table.entries.len() && #[trigger] s.table.entries[i] == f;
        assert(s.table.find(f) is Some);
        let abs = s.table.find(f).unwrap();
        assert(s.table.entries[abs - dropped] == f);
        if !encoder::sensitive(f.0) {
            assert(refers(e, s, after, dropped + (abs - dropped), base, None));
        }
    } else {
        if s.table.find(f) is Some {
            assert(s.table.entries[s.table.find(f).unwrap() - dropped] == f);
        }
        if is_static(f) {
            let i = static_table::index_of(f.0, f.1, 0).unwrap();
            assert(static_table::entry(i) == f);
        }
    }
    if holds_name(s, f.0) {
        let k = choose|i: int|
            0 <= i < s.table.entries.len() && (#[trigger] s.table.entries[i]).0 == f.0;
        assert(s.table.find_named(f.0) is Some);
        let abs = s.table.find_named(f.0).unwrap();
        assert(s.table.entries[abs - dropped].0 == f.0);
        if !encoder::sensitive(f.0) && !holds(s, f) && !is_static(f) {
            assert(refers(e, s, after, dropped + (abs - dropped), base, Some(f.1)));
        }
    } else {
        if holds(s, f) {
            let k = choose|i: int|
                0 <= i < s.table.entries.len() && #[trigger] s.table.entries[i] == f;
            assert(s.table.entries[k].0 == f.0);
        }
        if s.table.find_named(f.0) is Some {
            assert(s.table.entries[s.table.find_named(f.0).unwrap() - dropped].0 == f.0);
        }
        if is_static_name(f.0) {
            let i = static_table::index_of_name(f.0, 0).unwrap();
            assert(static_table::entry(i).0 == f.0);
        }
    }
}

/// What the searches of the static table find.
proof fn lemma_static(f: Field)
    ensures
        static_table::index_of(f.0, f.1, 0) is Some <==> is_static(f),
        static_table::index_of(f.0, f.1, 0) matches Some(i) ==> i < 99 && static_table::entry(i)
            == f,
        static_table::index_of_name(f.0, 0) is Some <==> is_static_name(f.0),
        static_table::index_of_name(f.0, 0) matches Some(i) ==> i < 99 && static_table::entry(i).0
            == f.0 && forall|j: nat| j < i ==> (#[trigger] static_table::entry(j)).0 != f.0,
{
    static_table::lemma_index_of(f.0, f.1, 0);
    static_table::lemma_index_of_name(f.0, 0);
    if let Some(i) = static_table::index_of(f.0, f.1, 0) {
        assert(static_table::entry(i) == f);
    }
    if let Some(i) = static_table::index_of_name(f.0, 0) {
        static_table::lemma_searches(f.0, f.1, i);
        assert(static_table::entry(i).0 == f.0);
    }
    if is_static(f) {
        let i = choose|i: nat| i < 99 && #[trigger] static_table::entry(i) == f;
        static_table::lemma_searches(f.0, f.1, i);
    }
    if is_static_name(f.0) {
        let i = choose|i: nat| i < 99 && (#[trigger] static_table::entry(i)).0 == f.0;
        static_table::lemma_searches(f.0, f.1, i);
    }
}

/// When a field whose name is nowhere yet is inserted: where it fits the table that
/// the decoder allows, and nothing would be evicted that the decoder has not
/// acknowledged, that an unacknowledged section refers to, or that this section
/// refers to. It is then the newest entry, its insertion is spelled out behind the
/// capacity where that has to be announced, and the line refers to it. Otherwise
/// the line is a literal, and nothing is inserted.
pub proof fn lemma_insertions_while_encoding(e: EncoderState, s: Section, f: Field, base: nat)
    requires
        !encoder::sensitive(f.0),
        s.table.entries.len() <= s.table.inserted,
        !holds_name(s, f.0),
        !is_static_name(f.0),
    ensures
        ({
            let size = f.0.len() + f.1.len() + 32;
            let room = if size <= s.table.capacity {
                (s.table.capacity - size) as nat
            } else {
                0
            };
            let first = s.table.inserted - s.table.entries.len() + table::evictions(
                s.table.entries,
                room,
            );
            let due = {
                &&& e.max_capacity >= 32
                &&& size <= e.max_capacity
                &&& first <= e.known_received
                &&& forall|i: int| 0 <= i < e.pending.len() ==> first <= (#[trigger] e.pending[i]).1
                &&& s.low matches Some(m) ==> first <= m
            };
            let after = e.encode_field(s, f, base);
            let announced = if s.table.capacity == e.max_capacity {
                Seq::empty()
            } else {
                wire::instruction_octets(
                    Instruction::SetCapacity { capacity: e.max_capacity },
                    e.compress,
                )
            };
            &&& due ==> {
                &&& after.table == s.table.with_capacity(e.max_capacity).insert(f)
                &&& after.stream == s.stream + announced + wire::instruction_octets(
                    Instruction::InsertLiteral { name: f.0, value: f.1 },
                    e.compress,
                )
                &&& refers(e, s, after, s.table.inserted as int, base, None)
            }
            &&& !due ==> after == (Section {
                lines: s.lines + wire::line_octets(
                    Line::Literal { name: f.0, value: f.1 },
                    false,
                    e.compress,
                ),
                ..s
            })
        }),
{
    layout::lemma_searches(s.table, f);
    lemma_static(f);
    let dropped = s.table.inserted - s.table.entries.len();
    if s.table.find_named(f.0) is Some {
        assert(s.table.entries[s.table.find_named(f.0).unwrap() - dropped].0 == f.0);
    }
    if s.table.find(f) is Some {
        assert(s.table.entries[s.table.find(f).unwrap() - dropped].0 == f.0);
    }
    if is_static(f) {
        let i = choose|i: nat| i < 99 && #[trigger] static_table::entry(i) == f;
        assert(static_table::entry(i).0 == f.0);
    }
    let size = table::size_of(f);
    let first = s.table.dropped() + s.table.evicted_by_insert(size);
    encoder::lemma_lowest(e.pending, e.known_received);
    if first <= e.known_received && forall|i: int|
        0 <= i < e.pending.len() ==> first <= (#[trigger] e.pending[i]).1 {
        encoder::lemma_lowest_bound(e.pending, e.known_received, first);
    }
    let after = e.encode_field(s, f, base);
    if !e.may_insert(s, f) {
        assert(after =~= (Section {
            lines: s.lines + wire::line_octets(
                Line::Literal { name: f.0, value: f.1 },
                false,
                e.compress,
            ),
            ..s
        }));
    }
}

/// A section is its fields, one behind the other, each encoded with what those
/// before it left; and a section that refers to entries pins the oldest of them for
/// its stream until it is acknowledged. Its Required Insert Count is remembered.
pub proof fn lemma_sections(e: EncoderState, stream_id: u64, list: Seq<Field>, f: Field, base: nat)
    ensures
        e.encode_fields(Seq::empty(), base) == (Section {
            table: e.table,
            lines: Seq::empty(),
            stream: Seq::empty(),
            ric: 0,
            low: None,
        }),
        e.encode_fields(list.push(f), base) == e.encode_field(
            e.encode_fields(list, base),
            f,
            base,
        ),
        ({
            let s = e.encode_fields(list, base);
            let after = e.after_section(stream_id, list, base);
            &&& e.section_block(list, base) == wire::prefix_octets(s.ric, base, e.max_capacity)
                + s.lines
            &&& e.section_stream(list, base) == s.stream
            &&& after.table == s.table
            &&& after.last_required == s.ric
            &&& s.ric == 0 ==> after.pending == e.pending
            &&& s.ric > 0 && s.low is Some ==> after.pending == e.pending.push(
                (stream_id, s.low.unwrap() as u64),
            )
            &&& after == (EncoderState {
                table: after.table,
                pending: after.pending,
                last_required: after.last_required,
                ..e
            })
        }),
{
    assert(list.push(f).drop_last() =~= list);
    assert(list.push(f).last() == f);
}

/// What may not be evicted: nothing at or above the floor, which is the count that
/// the decoder has acknowledged, or the oldest entry that an unacknowledged section
/// refers to, whichever is lower.
pub proof fn lemma_floor(e: EncoderState)
    ensures
        e.floor() <= e.known_received,
        forall|i: int| 0 <= i < e.pending.len() ==> e.floor() <= (#[trigger] e.pending[i]).1,
        e.floor() == e.known_received || exists|i: int|
            0 <= i < e.pending.len() && (#[trigger] e.pending[i]).1 == e.floor(),
{
    encoder::lemma_lowest(e.pending, e.known_received);
    lemma_floor_is_met(e.pending, e.known_received);
}

proof fn lemma_floor_is_met(pending: Seq<(u64, u64)>, known: nat)
    ensures
        encoder::lowest(pending, known) == known || exists|i: int|
            0 <= i < pending.len() && (#[trigger] pending[i]).1 == encoder::lowest(pending, known),
    decreases pending.len(),
{
    if pending.len() > 0 {
        let less = pending.drop_last();
        lemma_floor_is_met(less, known);
        let low = encoder::lowest(pending, known);
        if low == pending.last().1 {
            assert(pending[pending.len() - 1].1 == low);
        } else if exists|i: int| 0 <= i < less.len() && (#[trigger] less[i]).1 == low {
            let i = choose|i: int| 0 <= i < less.len() && (#[trigger] less[i]).1 == low;
            assert(pending[i].1 == low);
        }
    }
}

/// What acknowledgments free. One for a section frees the oldest of its stream and
/// no other; a cancellation frees all of its stream and no other; an increment
/// raises what is acknowledged by what it says, and is an error where it says
/// nothing or more than was inserted.
pub proof fn lemma_acknowledgments(e: EncoderState, id: u64, k: int)
    ensures
        0 <= k < e.pending.len() && e.pending[k].0 == id && (forall|i: int|
            0 <= i < k ==> (#[trigger] e.pending[i]).0 != id) ==> e.absorb(
            Ack::Section { stream_id: id },
        ) == Some(EncoderState { pending: e.pending.remove(k), ..e }),
        (forall|i: int| 0 <= i < e.pending.len() ==> (#[trigger] e.pending[i]).0 != id)
            ==> e.absorb(Ack::Section { stream_id: id }) == Some(e) && e.absorb(
            Ack::Cancel { stream_id: id },
        ) == Some(e),
        e.absorb(Ack::Cancel { stream_id: id }) == Some(
            EncoderState { pending: e.pending.filter(|p: (u64, u64)| p.0 != id), ..e },
        ),
        e.absorb(Ack::Increment { count: id }) == if id == 0 || e.known_received + id
            > e.table.inserted {
            None
        } else {
            Some(EncoderState { known_received: e.known_received + id as nat, ..e })
        },
{
    if 0 <= k < e.pending.len() && e.pending[k].0 == id && (forall|i: int|
        0 <= i < k ==> (#[trigger] e.pending[i]).0 != id) {
        encoder::lemma_acknowledged_first(e.pending, id, k);
    }
    if forall|i: int| 0 <= i < e.pending.len() ==> (#[trigger] e.pending[i]).0 != id {
        encoder::lemma_acknowledged_none(e.pending, id);
        encoder::lemma_others_none(e.pending, id);
    }
    lemma_others_filter(e.pending, id);
}

proof fn lemma_others_filter(pending: Seq<(u64, u64)>, id: u64)
    ensures
        encoder::others(pending, id) == pending.filter(|p: (u64, u64)| p.0 != id),
    decreases pending.len(),
{
    reveal(Seq::filter);
    if pending.len() > 0 {
        lemma_others_filter(pending.drop_last(), id);
    }
}

/// When an entry can be inserted on its own, and when the capacity can be changed:
/// where it fits, and nothing is evicted at or above the floor. Nothing else about
/// the encoder changes.
pub proof fn lemma_what_can_be_changed(e: EncoderState, f: Field, capacity: nat)
    requires
        e.table.valid(),
    ensures
        e.insertable(f) <==> f.0.len() + f.1.len() + 32 <= e.table.capacity && e.table.insert(
            f,
        ).dropped() <= e.floor(),
        e.inserting(f) == (EncoderState { table: e.table.insert(f), ..e }),
        e.resizable(capacity) <==> capacity <= e.max_capacity && capacity != e.table.capacity && (
        capacity > e.table.capacity || e.table.with_capacity(capacity).dropped() <= e.floor()),
        e.name_reference(f) matches Some(i) ==> ({
            &&& i matches Instruction::InsertNameRef { fixed, index, value }
            &&& value == f.1
            &&& fixed ==> index < 99 && static_table::entry(index).0 == f.0
            &&& !fixed ==> index < e.table.entries.len() && e.table.entries[e.table.entries.len() - 1
                - index].0 == f.0
        }),
        e.name_reference(f) is None <==> !is_static_name(f.0) && forall|i: int|
            0 <= i < e.table.entries.len() ==> (#[trigger] e.table.entries[i]).0 != f.0,
{
    if table::size_of(f) <= e.table.capacity {
        table::lemma_insert(e.table, f);
    }
    table::lemma_with_capacity(e.table, capacity);
    layout::lemma_searches(e.table, f);
    lemma_static(f);
    let dropped = e.table.inserted - e.table.entries.len();
    if let Some(abs) = e.table.find_named(f.0) {
        assert(e.table.entries[abs - dropped].0 == f.0);
        assert(e.table.entries.len() - 1 - (e.table.inserted - abs - 1) == abs - dropped);
    }
}

/// The size of a header list is that of its names and its values; it is counted as
/// far as it can be.
pub proof fn lemma_list_sizes(a: Seq<Field>, b: Seq<Field>, f: Field, n: nat)
    ensures
        decoder::list_size(Seq::empty()) == 0,
        decoder::list_size(seq![f]) == f.0.len() + f.1.len(),
        decoder::list_size(a + b) == decoder::list_size(a) + decoder::list_size(b),
        decoder::saturated(n) == if n <= usize::MAX {
            n
        } else {
            usize::MAX as nat
        },
    decreases b.len(),
{
    assert(seq![f].drop_last() =~= Seq::empty());
    assert(decoder::list_size(seq![f].drop_last()) == 0);
    if b.len() == 0 {
        assert(a + b =~= a);
    } else {
        lemma_list_sizes(a, b.drop_last(), f, n);
        assert((a + b).drop_last() =~= a + b.drop_last());
        assert((a + b).last() == b.last());
    }
}

/// What a stream is charged for the sections that are decoded for it: their sizes,
/// which may not exceed the limit together. A section that referred to entries is
/// acknowledged, and with it the insertions that it needed. Nothing else changes.
pub proof fn lemma_deliveries(d: DecoderState, id: u64, other: u64, ric: nat, list: Seq<Field>)
    ensures
        ({
            let (after, ok) = d.deliver(id, ric, list);
            let total = decoder::saturated(d.charged_to(id) + decoder::list_size(list));
            &&& ok <==> total <= d.max_field_section_size
            &&& after.charged_to(id) == total
            &&& other != id ==> after.charged_to(other) == d.charged_to(other)
            &&& ok && ric > 0 ==> {
                &&& after.outgoing == d.outgoing + wire::ack_octets(Ack::Section { stream_id: id })
                &&& after.known_received >= d.known_received
                &&& after.known_received >= ric
                &&& after.known_received == d.known_received || after.known_received == ric
            }
            &&& !ok || ric == 0 ==> after.outgoing == d.outgoing && after.known_received
                == d.known_received
            &&& after == (DecoderState {
                charged: after.charged,
                outgoing: after.outgoing,
                known_received: after.known_received,
                ..d
            })
        }),
{
}

/// Whether a stream has a section that waits.
pub open spec fn waits(d: DecoderState, id: u64) -> bool {
    exists|i: int| 0 <= i < d.blocked.len() && (#[trigger] d.blocked[i]).stream_id == id
}

proof fn lemma_waits(d: DecoderState, id: u64)
    ensures
        decoder::streams(d.blocked).contains(id) <==> waits(d, id),
{
    let ids = d.blocked.map_values(|b: Blocked| b.stream_id);
    if decoder::streams(d.blocked).contains(id) {
        assert(ids.contains(id));
        let i = choose|i: int| 0 <= i < ids.len() && ids[i] == id;
        assert(d.blocked[i].stream_id == id);
    }
    if waits(d, id) {
        let i = choose|i: int| 0 <= i < d.blocked.len() && (#[trigger] d.blocked[i]).stream_id == id;
        assert(ids[i] == id);
    }
}

/// What becomes of a section that arrives. One whose prefix cannot be read is an
/// error. One that needs more insertions than there were, or whose stream has one
/// waiting, waits behind the others, as long as no more streams wait than may. Any
/// other is decoded and handed out, unless it cannot be, or is too large.
pub proof fn lemma_sections_arrive(d: DecoderState, block: Seq<u8>, id: u64, now: u64)
    ensures
        ({
            let (after, r) = d.decode(block, id, now);
            let failed = Err::<Option<Seq<Field>>, QpackError>(QpackError::DecompressionFailed);
            match wire::parse_prefix(block, d.max_capacity, d.table.inserted) {
                None => after == d && r == failed,
                Some((ric, _, _)) => {
                    &&& ric > d.table.inserted || waits(d, id) ==> {
                        let room = waits(d, id) || decoder::streams(d.blocked).len()
                            < d.max_blocked_streams;
                        &&& room ==> r == Ok::<Option<Seq<Field>>, QpackError>(None) && after == (
                        DecoderState {
                            blocked: d.blocked.push(
                                Blocked { stream_id: id, block, ric, since: now },
                            ),
                            ..d
                        })
                        &&& !room ==> after == d && r == failed
                    }
                    &&& ric <= d.table.inserted && !waits(d, id) ==> match wire::decode_section(
                        d.table,
                        d.max_capacity,
                        block,
                    ) {
                        None => after == d && r == failed,
                        Some(list) => {
                            &&& after == d.deliver(id, ric, list).0
                            &&& r == if d.deliver(id, ric, list).1 {
                                Ok::<Option<Seq<Field>>, QpackError>(Some(list))
                            } else {
                                failed
                            }
                        },
                    }
                },
            }
        }),
{
    lemma_waits(d, id);
}

/// A section is decoded only where what it says it needs is what its references
/// take.
pub proof fn lemma_sections_need_what_they_say(d: DecoderState, block: Seq<u8>)
    requires
        wire::decode_section(d.table, d.max_capacity, block) is Some,
    ensures
        ({
            let (ric, base, n) = wire::parse_prefix(
                block,
                d.max_capacity,
                d.table.inserted,
            ).unwrap();
            wire::decode_lines(d.table, base, block.skip(n as int)) == Some(
                (wire::decode_section(d.table, d.max_capacity, block).unwrap(), ric),
            )
        }),
{
}

/// What is received and not acknowledged yet is acknowledged by one increment.
pub proof fn lemma_increments(d: DecoderState)
    requires
        d.known_received <= d.table.inserted <= u64::MAX,
    ensures
        d.increment().known_received == d.table.inserted,
        d.table.inserted == d.known_received ==> d.increment() == d,
        d.table.inserted > d.known_received ==> d.increment().outgoing == d.outgoing
            + wire::ack_octets(
            Ack::Increment { count: (d.table.inserted - d.known_received) as u64 },
        ),
        d.increment() == (DecoderState {
            known_received: d.increment().known_received,
            outgoing: d.increment().outgoing,
            ..d
        }),
{
}

/// What is given up with streams: their waiting sections, and those only, and what
/// they were charged.
pub proof fn lemma_streams_are_given_up(d: DecoderState, gone: Set<u64>, id: u64)
    ensures
        ({
            let after = d.abandon(gone);
            &&& after.blocked == d.blocked.filter(|b: Blocked| !gone.contains(b.stream_id))
            &&& gone.contains(id) ==> after.charged_to(id) == 0
            &&& !gone.contains(id) ==> after.charged_to(id) == d.charged_to(id)
            &&& after == (DecoderState { blocked: after.blocked, charged: after.charged, ..d })
        }),
{
    lemma_without_filter(d.blocked, gone);
}

proof fn lemma_without_filter(queue: Seq<Blocked>, gone: Set<u64>)
    ensures
        decoder::without(queue, gone) == queue.filter(|b: Blocked| !gone.contains(b.stream_id)),
    decreases queue.len(),
{
    reveal(Seq::filter);
    if queue.len() > 0 {
        lemma_without_filter(queue.drop_last(), gone);
    }
}

/// Which streams are given up for age: each that has a section waiting for longer
/// than it may, once; and each of them is cancelled.
pub proof fn lemma_old_streams(queue: Seq<Blocked>, now: u64, max_age: u64, id: u64)
    ensures
        decoder::expired(queue, now, max_age).contains(id) <==> exists|i: int|
            0 <= i < queue.len() && (#[trigger] queue[i]).stream_id == id && now - queue[i].since
                > max_age,
        decoder::expired(queue, now, max_age).no_duplicates(),
    decreases queue.len(),
{
    let ids = decoder::expired(queue, now, max_age);
    if queue.len() > 0 {
        let less = queue.drop_last();
        let n = queue.len() - 1;
        let before = decoder::expired(less, now, max_age);
        lemma_old_streams(less, now, max_age, id);
        assert(queue[n] == queue.last());
        if before.contains(id) {
            let k = choose|k: int| 0 <= k < before.len() && before[k] == id;
            assert(ids[k] == id);
            let i = choose|i: int|
                0 <= i < less.len() && (#[trigger] less[i]).stream_id == id && now - less[i].since
                    > max_age;
            assert(queue[i] == less[i]);
        }
        if ids.contains(id) && !before.contains(id) {
            let k = choose|k: int| 0 <= k < ids.len() && ids[k] == id;
            if k < before.len() {
                assert(before[k] == id);
            }
            assert(queue[n].stream_id == id && now - queue[n].since > max_age);
        }
        if exists|i: int|
            0 <= i < queue.len() && (#[trigger] queue[i]).stream_id == id && now - queue[i].since
                > max_age {
            let i = choose|i: int|
                0 <= i < queue.len() && (#[trigger] queue[i]).stream_id == id && now
                    - queue[i].since > max_age;
            if i < n {
                assert(less[i] == queue[i]);
                assert(before.contains(id));
            } else if !before.contains(id) {
                assert(ids[ids.len() - 1] == id);
            }
        }
    }
}

/// Cancellations are spelled one behind the other.
pub proof fn lemma_cancellations(a: Seq<u64>, b: Seq<u64>, id: u64)
    ensures
        decoder::cancellations(Seq::empty()).len() == 0,
        decoder::cancellations(seq![id]) == wire::ack_octets(Ack::Cancel { stream_id: id }),
        decoder::cancellations(a + b) == decoder::cancellations(a) + decoder::cancellations(b),
    decreases b.len(),
{
    assert(seq![id].drop_last() =~= Seq::empty());
    assert(decoder::cancellations(seq![id].drop_last()) =~= Seq::empty());
    assert(decoder::cancellations(seq![id]) =~= wire::ack_octets(Ack::Cancel { stream_id: id }));
    if b.len() == 0 {
        assert(a + b =~= a);
        assert(decoder::cancellations(a) + decoder::cancellations(b) =~= decoder::cancellations(a));
    } else {
        lemma_cancellations(a, b.drop_last(), id);
        assert((a + b).drop_last() =~= a + b.drop_last());
        assert((a + b).last() == b.last());
        assert(decoder::cancellations(a + b) =~= decoder::cancellations(a)
            + decoder::cancellations(b));
    }
}

/// A decoder only checks what arrives on its peer's decoder stream: any run of
/// acknowledgments, cancellations and increments is fine, unless one increments by
/// nothing.
pub proof fn lemma_decoder_streams_are_checked(a: Ack, rest: Seq<u8>)
    ensures
        decoder::check_acks(wire::ack_octets(a) + rest) == if a == (Ack::Increment { count: 0 }) {
            None
        } else {
            decoder::check_acks(rest)
        },
        decoder::check_acks(Seq::empty()) == Some(Seq::<u8>::empty()),
{
    let o = wire::ack_octets(a);
    wire::lemma_ack_round_trip(a, rest);
    assert((o + rest).take(o.len() as int) =~= o);
    assert((o + rest).skip(o.len() as int) =~= rest);
}

/// A new encoder and a new decoder have done nothing.
pub proof fn lemma_new_codecs(capacity: nat, compress: bool, streams: nat)
    ensures
        ({
            let e = EncoderState::initial(capacity, compress);
            let d = DecoderState::initial(capacity, streams);
            &&& e.max_capacity == capacity && e.compress == compress
            &&& e.table.capacity == 0 && e.table.entries.len() == 0 && e.table.inserted == 0
            &&& e.known_received == 0 && e.pending.len() == 0 && e.decoder_pending.len() == 0
            &&& e.last_required == 0
            &&& d.max_capacity == capacity && d.max_blocked_streams == streams
            &&& d.table.capacity == 0 && d.table.entries.len() == 0 && d.table.inserted == 0
            &&& d.known_received == 0 && d.blocked.len() == 0
            &&& d.charged == Map::<u64, nat>::empty()
            &&& d.max_field_section_size == usize::MAX
            &&& d.outgoing.len() == 0 && d.encoder_pending.len() == 0
            &&& d.decoder_pending.len() == 0
        }),
{
}

/// Instructions of the encoder stream are applied one after the other; the first
/// that the table does not accept, or that is longer than the table's capacity and
/// 1024 octets, fails.
pub proof fn lemma_encoder_streams_are_applied(
    t: Table,
    max_capacity: nat,
    known: nat,
    i: Instruction,
    c: bool,
    rest: Seq<u8>,
)
    requires
        wire::instruction_fits(i),
        t.capacity <= max_capacity,
        max_capacity + 1024 <= u64::MAX,
    ensures
        ({
            let o = wire::instruction_octets(i, c);
            let r = wire::run(t, max_capacity, known, o + rest);
            &&& wire::apply(t, max_capacity, known, i) is None || o.len() > max_capacity + 1024
                ==> r.failed && r.table == t
            &&& wire::apply(t, max_capacity, known, i) is Some ==> o.len() <= max_capacity + 1024
                && r == wire::run(
                wire::apply(t, max_capacity, known, i).unwrap(),
                max_capacity,
                known,
                rest,
            )
        }),
        wire::run(t, max_capacity, known, Seq::empty()) == (Run {
            table: t,
            rest: Seq::empty(),
            failed: false,
        }),
{
    let o = wire::instruction_octets(i, c);
    wire::lemma_instruction_round_trip(i, c, rest);
    assert((o + rest).take(o.len() as int) =~= o);
    assert((o + rest).skip(o.len() as int) =~= rest);
    if wire::apply(t, max_capacity, known, i) is Some {
        laws::lemma_instruction_len(t, max_capacity, known, i, c);
        laws::lemma_run_step(t, max_capacity, known, i, c, rest);
    }
}

/// What an encoder makes of the decoder stream: the instructions one after the
/// other, up to the first that it cannot absorb. What is no whole instruction is
/// kept, up to 64 octets of it.
pub proof fn lemma_decoder_streams_are_absorbed(e: EncoderState, a: Ack, rest: Seq<u8>)
    ensures
        e.absorb(a) is Some ==> e.absorb_all(wire::ack_octets(a) + rest) == e.absorb(
            a,
        ).unwrap().absorb_all(rest),
        e.absorb(a) is None ==> e.absorb_all(wire::ack_octets(a) + rest) == (
            e,
            None::<Seq<u8>>,
        ),
        e.absorb_all(Seq::empty()) == (e, Some(Seq::<u8>::empty())),
        ({
            let data = e.decoder_pending + rest;
            let (after, left) = e.absorb_all(data);
            let (fed, r) = e.feed_decoder(rest);
            &&& left is None ==> r == Err::<(), QpackError>(QpackError::DecoderStream)
            &&& left matches Some(l) ==> {
                &&& fed == (EncoderState { decoder_pending: l, ..after })
                &&& r is Ok <==> l.len() <= 64
                &&& r is Err ==> r->Err_0 is DecoderStream
            }
        }),
{
    let o = wire::ack_octets(a);
    wire::lemma_ack_round_trip(a, rest);
    assert((o + rest).take(o.len() as int) =~= o);
    assert((o + rest).skip(o.len() as int) =~= rest);
}

/// Whether a section of `queue`, or one of its stream before it, needs more than
/// was inserted.
pub open spec fn held_back(queue: Seq<Blocked>, i: int, inserted: nat) -> bool {
    exists|j: int|
        0 <= j <= i && (#[trigger] queue[j]).stream_id == queue[i].stream_id && queue[j].ric
            > inserted
}

/// No section waits longer than it has to: what still waits once the encoder stream
/// brought something is held back, by what it needs or by one of its stream before
/// it. And every insertion is acknowledged by then.
pub proof fn lemma_ready_sections_do_not_wait(d: DecoderState, buf: Seq<u8>, i: int)
    requires
        d.known_received <= d.table.inserted,
        d.feed_encoder(buf).1 is Ok,
        d.feed_encoder(buf).0.table.inserted >= d.table.inserted,
    ensures
        ({
            let after = d.feed_encoder(buf).0;
            &&& 0 <= i < after.blocked.len() ==> held_back(
                after.blocked,
                i,
                after.table.inserted,
            )
            &&& after.known_received >= after.table.inserted
            &&& d.blocked.len() == after.blocked.len() + d.feed_encoder(buf).1->Ok_0.len()
        }),
{
    let data = d.encoder_pending + buf;
    let run = wire::run(d.table, d.max_capacity, d.known_received, data);
    let fed = DecoderState { table: run.table, encoder_pending: run.rest, ..d };
    lemma_unblock_leaves_the_held_back(fed, Seq::empty());
}

proof fn lemma_unblock_leaves_the_held_back(d: DecoderState, kept: Seq<Blocked>)
    requires
        forall|i: int| 0 <= i < kept.len() ==> held_back(kept, i, d.table.inserted),
        d.unblock(kept).1 is Some,
    ensures
        ({
            let (after, list) = d.unblock(kept);
            &&& after.table == d.table
            &&& after.blocked.len() + list.unwrap().len() == kept.len() + d.blocked.len()
            &&& forall|i: int|
                0 <= i < after.blocked.len() ==> held_back(after.blocked, i, d.table.inserted)
        }),
    decreases d.blocked.len(),
{
    if d.blocked.len() > 0 {
        let b = d.blocked[0];
        let rest = DecoderState { blocked: d.blocked.skip(1), ..d };
        if b.ric > d.table.inserted || decoder::streams(kept).contains(b.stream_id) {
            let more = kept.push(b);
            assert forall|i: int| 0 <= i < more.len() implies held_back(
                more,
                i,
                d.table.inserted,
            ) by {
                if i < kept.len() {
                    assert(held_back(kept, i, d.table.inserted));
                    let j = choose|j: int|
                        0 <= j <= i && (#[trigger] kept[j]).stream_id == kept[i].stream_id
                            && kept[j].ric > d.table.inserted;
                    assert(more[j] == kept[j]);
                } else if b.ric > d.table.inserted {
                    assert(more[i] == b);
                } else {
                    decoder::lemma_streams(kept, b.stream_id);
                    let k = choose|k: int|
                        0 <= k < kept.len() && (#[trigger] kept[k]).stream_id == b.stream_id;
                    assert(held_back(kept, k, d.table.inserted));
                    let j = choose|j: int|
                        0 <= j <= k && (#[trigger] kept[j]).stream_id == kept[k].stream_id
                            && kept[j].ric > d.table.inserted;
                    assert(more[j] == kept[j]);
                }
            }
            lemma_unblock_leaves_the_held_back(rest, more);
        } else {
            let list = wire::decode_section(d.table, d.max_capacity, b.block).unwrap();
            let next = rest.deliver(b.stream_id, b.ric, list).0;
            lemma_unblock_leaves_the_held_back(next, kept);
        }
    }
}

/// The acknowledgments of sections, one each, but none of one that needs no
/// insertion.
pub open spec fn section_acks(done: Seq<Blocked>) -> Seq<u8>
    decreases done.len(),
{
    if done.len() == 0 {
        Seq::empty()
    } else {
        (if done[0].ric > 0 {
            wire::ack_octets(Ack::Section { stream_id: done[0].stream_id })
        } else {
            Seq::empty()
        }) + section_acks(done.skip(1))
    }
}

/// Whether `done` are the sections of `queue` that `list` was decoded from.
pub open spec fn decoded_from(
    d: DecoderState,
    queue: Seq<Blocked>,
    list: Seq<(u64, Seq<Field>)>,
    done: Seq<Blocked>,
) -> bool {
    &&& done.len() == list.len()
    &&& forall|i: int|
        0 <= i < done.len() ==> {
            &&& queue.contains(#[trigger] done[i])
            &&& done[i].ric <= d.table.inserted
            &&& done[i].stream_id == list[i].0
            &&& wire::decode_section(d.table, d.max_capacity, done[i].block) == Some(list[i].1)
        }
}

/// A section that waited is acknowledged as it decodes, and what those do not
/// acknowledge of the insertions is acknowledged behind them.
pub proof fn lemma_unblocked_sections_are_acknowledged(d: DecoderState, buf: Seq<u8>)
    requires
        d.feed_encoder(buf).1 is Ok,
        d.feed_encoder(buf).0.table.inserted <= u64::MAX,
    ensures
        ({
            let (after, r) = d.feed_encoder(buf);
            exists|done: Seq<Blocked>|
                {
                    &&& #[trigger] decoded_from(after, d.blocked, r->Ok_0, done)
                    &&& after.outgoing == d.outgoing + section_acks(done) || exists|count: u64|
                        {
                            &&& 0 < count <= after.table.inserted
                            &&& after.outgoing == d.outgoing + section_acks(done)
                                + #[trigger] wire::ack_octets(Ack::Increment { count })
                        }
                }
        }),
{
    let data = d.encoder_pending + buf;
    let run = wire::run(d.table, d.max_capacity, d.known_received, data);
    let fed = DecoderState { table: run.table, encoder_pending: run.rest, ..d };
    let done = lemma_unblock_acknowledges(fed, Seq::empty());
    let (after, r) = d.feed_encoder(buf);
    assert(decoded_from(after, d.blocked, r->Ok_0, done));
    let next = fed.unblock(Seq::empty()).0;
    if next.table.inserted > next.known_received {
        let count = (next.table.inserted - next.known_received) as u64;
        assert(after.outgoing == d.outgoing + section_acks(done) + wire::ack_octets(
            Ack::Increment { count },
        ));
    }
}

proof fn lemma_unblock_acknowledges(d: DecoderState, kept: Seq<Blocked>) -> (done: Seq<Blocked>)
    requires
        d.unblock(kept).1 is Some,
    ensures
        ({
            let (after, list) = d.unblock(kept);
            &&& after.table == d.table
            &&& after.max_capacity == d.max_capacity
            &&& decoded_from(d, d.blocked, list.unwrap(), done)
            &&& after.outgoing == d.outgoing + section_acks(done)
        }),
    decreases d.blocked.len(),
{
    if d.blocked.len() == 0 {
        assert(d.outgoing + section_acks(Seq::empty()) =~= d.outgoing);
        Seq::empty()
    } else {
        let b = d.blocked[0];
        let rest = DecoderState { blocked: d.blocked.skip(1), ..d };
        assert forall|x: Blocked| rest.blocked.contains(x) implies d.blocked.contains(x) by {
            let i = choose|i: int| 0 <= i < rest.blocked.len() && rest.blocked[i] == x;
            assert(d.blocked[i + 1] == x);
        }
        if b.ric > d.table.inserted || decoder::streams(kept).contains(b.stream_id) {
            lemma_unblock_acknowledges(rest, kept.push(b))
        } else {
            let list = wire::decode_section(d.table, d.max_capacity, b.block).unwrap();
            let next = rest.deliver(b.stream_id, b.ric, list).0;
            let more = lemma_unblock_acknowledges(next, kept);
            let done = seq![b] + more;
            assert(done.skip(1) =~= more);
            assert(d.blocked.contains(b));
            let all = d.unblock(kept).1.unwrap();
            assert forall|i: int| 0 <= i < done.len() implies {
                &&& d.blocked.contains(#[trigger] done[i])
                &&& done[i].ric <= d.table.inserted
                &&& done[i].stream_id == all[i].0
                &&& wire::decode_section(d.table, d.max_capacity, done[i].block) == Some(all[i].1)
            } by {
                if i > 0 {
                    assert(done[i] == more[i - 1]);
                    assert(all[i] == next.unblock(kept).1.unwrap()[i - 1]);
                }
            }
            assert(d.unblock(kept).0.outgoing =~= d.outgoing + section_acks(done));
            done
        }
    }
}

} // verus!
