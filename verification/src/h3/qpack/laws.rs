//! What holds of an encoder and a decoder together.
//!
//! The encoder's instructions rebuild its dynamic table at the decoder, the
//! decoder never has to reject them, and a field section decodes to the header
//! list it was encoded from. Instructions and acknowledgments may be split
//! anywhere.

use super::decoder::{Blocked, DecoderState};
use super::encoder;
use super::encoder::{EncoderState, Section};
use super::static_table;
use super::table;
use super::table::Table;
use super::wire;
use super::wire::{Ack, Instruction, Line, Run};
use super::QpackError;
use crate::hpack::{integer, string};
use crate::octets::Field;
use vstd::prelude::*;

verus! {

/// Octets behind a complete field line do not change what is read.
pub proof fn lemma_parse_line_prefix(s: Seq<u8>, rest: Seq<u8>)
    requires
        wire::parse_line(s) is Some,
    ensures
        wire::parse_line(s + rest) == wire::parse_line(s),
        1 <= wire::parse_line(s).unwrap().1 <= s.len(),
{
    assert((s + rest)[0] == s[0]);
    let bits: u8 = if s[0] >= 0x80 {
        6
    } else if s[0] >= 0x10 {
        4
    } else {
        3
    };
    if 0x20 <= s[0] < 0x40 {
        string::lemma_parse_prefix(s, rest, 4);
        let n = string::parse(s, 4).unwrap().1 as int;
        string::lemma_parse_prefix(s.skip(n), rest, 8);
        assert((s + rest).skip(n) =~= s.skip(n) + rest);
    } else {
        integer::lemma_parse_read(s, bits);
        integer::lemma_read_prefix(s, rest, bits);
        let n = integer::parse(s, bits).unwrap().1 as int;
        if s[0] < 0x10 || 0x40 <= s[0] < 0x80 {
            string::lemma_parse_prefix(s.skip(n), rest, 8);
            assert((s + rest).skip(n) =~= s.skip(n) + rest);
        }
    }
}

/// Field lines decode one after the other.
#[verifier::spinoff_prover]
#[verifier::rlimit(60)]
pub proof fn lemma_decode_lines_append(t: Table, base: nat, a: Seq<u8>, b: Seq<u8>)
    requires
        wire::decode_lines(t, base, a) is Some,
        wire::decode_lines(t, base, b) is Some,
    ensures
        ({
            let (x, m) = wire::decode_lines(t, base, a).unwrap();
            let (y, n) = wire::decode_lines(t, base, b).unwrap();
            wire::decode_lines(t, base, a + b) == Some((x + y, wire::larger(m, n)))
        }),
    decreases a.len(),
{
    let (x, m) = wire::decode_lines(t, base, a).unwrap();
    let (y, n) = wire::decode_lines(t, base, b).unwrap();
    if a.len() == 0 {
        assert(a + b =~= b);
        assert(x + y =~= y);
    } else {
        lemma_parse_line_prefix(a, b);
        let (l, k) = wire::parse_line(a).unwrap();
        let (f, need) = wire::resolve(t, base, l).unwrap();
        lemma_decode_lines_append(t, base, a.skip(k as int), b);
        assert((a + b).skip(k as int) =~= a.skip(k as int) + b);
        let (z, o) = wire::decode_lines(t, base, a.skip(k as int)).unwrap();
        assert(seq![f] + (z + y) =~= x + y);
    }
}

/// One more field line that resolves to `f` decodes to one more field line.
proof fn lemma_decode_one_more(
    t: Table,
    base: nat,
    lines: Seq<u8>,
    l: Line,
    never: bool,
    compress: bool,
)
    requires
        wire::decode_lines(t, base, lines) is Some,
        wire::line_fits(l),
        wire::resolve(t, base, l) is Some,
    ensures
        ({
            let (x, m) = wire::decode_lines(t, base, lines).unwrap();
            let (f, need) = wire::resolve(t, base, l).unwrap();
            wire::decode_lines(t, base, lines + wire::line_octets(l, never, compress)) == Some(
                (x.push(f), wire::larger(m, need)),
            )
        }),
{
    let o = wire::line_octets(l, never, compress);
    let (x, m) = wire::decode_lines(t, base, lines).unwrap();
    let (f, need) = wire::resolve(t, base, l).unwrap();
    wire::lemma_line_round_trip(l, never, compress, Seq::empty());
    assert(o + Seq::<u8>::empty() =~= o);
    assert(o.skip(o.len() as int) =~= Seq::empty());
    assert(wire::decode_lines(t, base, Seq::empty()) == Some((Seq::<Field>::empty(), 0nat)));
    assert(seq![f] + Seq::<Field>::empty() =~= seq![f]);
    assert(wire::decode_lines(t, base, o) == Some((seq![f], need)));
    lemma_decode_lines_append(t, base, lines, o);
    assert(x + seq![f] =~= x.push(f));
}

/// Encoding a field line moves no table entry that stays, and lowers neither
/// the dropping point nor raises the smallest reference.
proof fn lemma_encode_field_stable(e: EncoderState, s: Section, f: Field, base: nat)
    requires
        e.valid(),
        encoder::section_valid(e, s),
    ensures
        ({
            let next = e.encode_field(s, f, base);
            &&& s.table.dropped() <= next.table.dropped()
            &&& s.table.inserted <= next.table.inserted
            &&& forall|abs: int|
                next.table.dropped() <= abs < s.table.inserted ==> #[trigger] next.table.lookup(abs)
                    == s.table.lookup(abs)
            &&& s.low matches Some(m) ==> next.low matches Some(n) && n <= m
        }),
{
    if e.may_insert(s, f) {
        let wide = s.table.with_capacity(e.max_capacity);
        table::lemma_with_capacity(s.table, e.max_capacity);
        table::lemma_insert(wide, f);
        assert forall|abs: int|
            wide.insert(f).dropped() <= abs < s.table.inserted implies #[trigger] wide.insert(
            f,
        ).lookup(abs) == s.table.lookup(abs) by {
            assert(wide.lookup(abs) == s.table.lookup(abs));
        }
    }
}

/// A header list whose names and values have 64-bit lengths.
pub open spec fn list_fits(list: Seq<Field>) -> bool {
    forall|i: int|
        0 <= i < list.len() ==> (#[trigger] list[i]).0.len() <= u64::MAX && list[i].1.len()
            <= u64::MAX
}

/// Whether `t` still holds what the section `s` references.
spec fn keeps(t: Table, s: Section) -> bool {
    &&& s.table.dropped() <= t.dropped()
    &&& s.low matches Some(m) ==> t.dropped() <= m
    &&& forall|abs: int|
        t.dropped() <= abs < s.table.inserted ==> #[trigger] t.lookup(abs) == s.table.lookup(abs)
}

pub(crate) proof fn lemma_encode_fields_valid(e: EncoderState, list: Seq<Field>, base: nat)
    requires
        e.valid(),
    ensures
        encoder::section_valid(e, e.encode_fields(list, base)),
        e.encode_fields(list, base).table.inserted <= e.table.inserted + list.len(),
    decreases list.len(),
{
    if list.len() > 0 {
        lemma_encode_fields_valid(e, list.drop_last(), base);
        encoder::lemma_encode_field(
            e,
            e.encode_fields(list.drop_last(), base),
            list.last(),
            base,
        );
    }
}

/// The field lines of a section decode to its header list against any table
/// that still holds what they reference.
proof fn lemma_lines_decode(e: EncoderState, list: Seq<Field>, base: nat, t: Table)
    requires
        e.valid(),
        list_fits(list),
        base <= u64::MAX,
        e.table.inserted + list.len() <= u64::MAX,
        t.entries.len() <= t.inserted,
        keeps(t, e.encode_fields(list, base)),
    ensures
        wire::decode_lines(t, base, e.encode_fields(list, base).lines) == Some(
            (list, e.encode_fields(list, base).ric),
        ),
    decreases list.len(),
{
    let next = e.encode_fields(list, base);
    if list.len() == 0 {
        assert(list =~= Seq::empty());
    } else {
        let less = list.drop_last();
        let f = list.last();
        let s = e.encode_fields(less, base);
        assert(list[list.len() - 1] == f);
        lemma_encode_fields_valid(e, less, base);
        lemma_encode_field_stable(e, s, f, base);
        assert forall|i: int| 0 <= i < less.len() implies (#[trigger] less[i]).0.len() <= u64::MAX
            && less[i].1.len() <= u64::MAX by {
            assert(less[i] == list[i]);
        }
        assert(keeps(t, s)) by {
            assert forall|abs: int| t.dropped() <= abs < s.table.inserted implies #[trigger] t.lookup(
                abs,
            ) == s.table.lookup(abs) by {
                assert(next.table.lookup(abs) == s.table.lookup(abs));
            }
        }
        lemma_lines_decode(e, less, base, t);
        assert(less.push(f) =~= list);
        lemma_field_decodes(e, s, f, base, t);
        lemma_line_of(e, s, f, base);
        let l = line_of(e, s, f, base);
        lemma_decode_one_more(t, base, s.lines, l, encoder::sensitive(f.0), e.compress);
    }
}

/// The field line that the encoder picks for `f`.
spec fn line_of(e: EncoderState, s: Section, f: Field, base: nat) -> Line {
    let full = s.table.find(f);
    let name = s.table.find_named(f.0);
    if encoder::sensitive(f.0) {
        encoder::literal(f)
    } else if e.usable() && full is Some {
        encoder::indexed(full.unwrap() as nat, base)
    } else if static_table::index_of(f.0, f.1, 0) is Some {
        Line::Indexed { fixed: true, index: static_table::index_of(f.0, f.1, 0).unwrap() }
    } else if e.usable() && name is Some {
        encoder::named(name.unwrap() as nat, base, f.1)
    } else if static_table::index_of_name(f.0, 0) is Some {
        encoder::literal(f)
    } else if e.may_insert(s, f) {
        encoder::indexed(s.table.inserted, base)
    } else {
        encoder::literal(f)
    }
}

proof fn lemma_line_of(e: EncoderState, s: Section, f: Field, base: nat)
    ensures
        e.encode_field(s, f, base).lines == s.lines + wire::line_octets(
            line_of(e, s, f, base),
            encoder::sensitive(f.0),
            e.compress,
        ),
{
}

proof fn lemma_reference_resolves(t: Table, base: nat, abs: nat, f: Field)
    requires
        t.lookup(abs as int) == Some(f),
        t.entries.len() <= t.inserted,
    ensures
        wire::resolve(t, base, encoder::indexed(abs, base)) == Some((f, abs + 1)),
        forall|value: Seq<u8>|
            wire::resolve(t, base, #[trigger] encoder::named(abs, base, value)) == Some(
                ((f.0, value), abs + 1),
            ),
{
}

proof fn lemma_literal_resolves(t: Table, base: nat, f: Field)
    requires
        f.0.len() <= u64::MAX,
        f.1.len() <= u64::MAX,
    ensures
        wire::resolve(t, base, encoder::literal(f)) == Some((f, 0nat)),
        wire::line_fits(encoder::literal(f)),
{
    static_table::lemma_index_of_name(f.0, 0);
}

/// The line that the encoder picks for `f` resolves to `f`.
proof fn lemma_field_decodes(e: EncoderState, s: Section, f: Field, base: nat, t: Table)
    requires
        e.valid(),
        encoder::section_valid(e, s),
        f.0.len() <= u64::MAX,
        f.1.len() <= u64::MAX,
        base <= u64::MAX,
        s.table.inserted < u64::MAX,
        t.entries.len() <= t.inserted,
        keeps(t, e.encode_field(s, f, base)),
    ensures
        ({
            let l = line_of(e, s, f, base);
            &&& wire::line_fits(l)
            &&& wire::resolve(t, base, l) matches Some((g, need)) && g == f && wire::larger(
                s.ric,
                need,
            ) == e.encode_field(s, f, base).ric
        }),
{
    let next = e.encode_field(s, f, base);
    table::lemma_find(s.table, f);
    table::lemma_find_named(s.table, f.0);
    static_table::lemma_index_of(f.0, f.1, 0);
    lemma_encode_field_stable(e, s, f, base);
    let full = s.table.find(f);
    let name = s.table.find_named(f.0);
    if encoder::sensitive(f.0) {
        lemma_literal_resolves(t, base, f);
    } else if e.usable() && full is Some {
        let abs = full.unwrap() as nat;
        assert(next.table.lookup(abs as int) == s.table.lookup(abs as int));
        assert(t.lookup(abs as int) == next.table.lookup(abs as int));
        lemma_reference_resolves(t, base, abs, f);
    } else if static_table::index_of(f.0, f.1, 0) is Some {
    } else if e.usable() && name is Some {
        let abs = name.unwrap() as nat;
        assert(next.table.lookup(abs as int) == s.table.lookup(abs as int));
        assert(t.lookup(abs as int) == next.table.lookup(abs as int));
        lemma_reference_resolves(t, base, abs, s.table.at(abs as int));
        assert(wire::resolve(t, base, encoder::named(abs, base, f.1)) == Some((f, abs + 1)));
    } else if static_table::index_of_name(f.0, 0) is Some {
        lemma_literal_resolves(t, base, f);
    } else if e.may_insert(s, f) {
        let abs = s.table.inserted;
        let wide = s.table.with_capacity(e.max_capacity);
        table::lemma_with_capacity(s.table, e.max_capacity);
        table::lemma_insert(wide, f);
        assert(next.table.lookup(abs as int) == Some(f));
        assert(t.lookup(abs as int) == next.table.lookup(abs as int));
        lemma_reference_resolves(t, base, abs, f);
    } else {
        lemma_literal_resolves(t, base, f);
    }
}

/// A field section decodes to the header list it was encoded from, at a
/// decoder whose table is the encoder's after the section.
pub proof fn lemma_section_round_trip(e: EncoderState, list: Seq<Field>, base: nat)
    requires
        e.valid(),
        e.max_capacity <= u64::MAX,
        list_fits(list),
        base <= u64::MAX,
        e.table.inserted + list.len() <= u64::MAX,
    ensures
        wire::decode_section(
            e.encode_fields(list, base).table,
            e.max_capacity,
            e.section_block(list, base),
        ) == Some(list),
{
    let s = e.encode_fields(list, base);
    let t = s.table;
    lemma_encode_fields_valid(e, list, base);
    lemma_lines_decode(e, list, base, t);
    if s.ric > 0 {
        table::lemma_entry_count(t.entries);
        assert(t.entries.len() <= wire::max_entries(e.max_capacity));
    }
    wire::lemma_prefix_round_trip(s.ric, base, e.max_capacity, t.inserted, s.lines);
    let p = wire::prefix_octets(s.ric, base, e.max_capacity);
    assert((p + s.lines).skip(p.len() as int) =~= s.lines);
}

/// Octets behind a complete encoder stream instruction do not change its
/// length.
pub proof fn lemma_instruction_length_prefix(s: Seq<u8>, rest: Seq<u8>)
    requires
        wire::instruction_length(s) is Some,
    ensures
        wire::instruction_length(s + rest) == wire::instruction_length(s),
        1 <= wire::instruction_length(s).unwrap() <= s.len(),
{
    assert((s + rest)[0] == s[0]);
    if s[0] >= 0x80 {
        integer::lemma_read_prefix(s, rest, 6);
        let n = integer::read(s, 6).unwrap().1 as int;
        lemma_string_length_prefix(s.skip(n), rest, 8);
        assert((s + rest).skip(n) =~= s.skip(n) + rest);
    } else if s[0] >= 0x40 {
        lemma_string_length_prefix(s, rest, 6);
        let n = wire::string_length(s, 6).unwrap() as int;
        lemma_string_length_prefix(s.skip(n), rest, 8);
        assert((s + rest).skip(n) =~= s.skip(n) + rest);
    } else {
        integer::lemma_read_prefix(s, rest, 5);
    }
}

proof fn lemma_string_length_prefix(s: Seq<u8>, rest: Seq<u8>, bits: u8)
    requires
        2 <= bits <= 8,
        wire::string_length(s, bits) is Some,
    ensures
        wire::string_length(s + rest, bits) == wire::string_length(s, bits),
        1 <= wire::string_length(s, bits).unwrap() <= s.len(),
{
    integer::lemma_parse_read(s, (bits - 1) as u8);
    integer::lemma_read_prefix(s, rest, (bits - 1) as u8);
}

/// Encoder stream octets may be split anywhere: what the first part leaves
/// unprocessed is completed by the second.
pub proof fn lemma_run_split(t: Table, max_capacity: nat, known: nat, a: Seq<u8>, b: Seq<u8>)
    requires
        !wire::run(t, max_capacity, known, a).failed,
    ensures
        ({
            let first = wire::run(t, max_capacity, known, a);
            wire::run(t, max_capacity, known, a + b) == wire::run(
                first.table,
                max_capacity,
                known,
                first.rest + b,
            )
        }),
    decreases a.len(),
{
    if wire::instruction_length(a) is Some {
        lemma_instruction_length_prefix(a, b);
        let n = wire::instruction_length(a).unwrap() as int;
        let i = wire::parse_instruction(a.take(n)).unwrap();
        let t2 = wire::apply(t, max_capacity, known, i).unwrap();
        assert((a + b).take(n) =~= a.take(n));
        assert((a + b).skip(n) =~= a.skip(n) + b);
        lemma_run_split(t2, max_capacity, known, a.skip(n), b);
    }
}

/// A decoder that has acknowledged more accepts at least as much.
pub proof fn lemma_run_known(t: Table, max_capacity: nat, known: nat, more: nat, s: Seq<u8>)
    requires
        known <= more,
        !wire::run(t, max_capacity, known, s).failed,
    ensures
        wire::run(t, max_capacity, more, s) == wire::run(t, max_capacity, known, s),
    decreases s.len(),
{
    if wire::instruction_length(s) is Some {
        lemma_instruction_length_prefix(s, Seq::empty());
        let n = wire::instruction_length(s).unwrap() as int;
        let i = wire::parse_instruction(s.take(n)).unwrap();
        let t2 = wire::apply(t, max_capacity, known, i).unwrap();
        assert(wire::apply(t, max_capacity, more, i) == Some(t2));
        lemma_run_known(t2, max_capacity, known, more, s.skip(n));
    }
}

/// A spelled instruction that the table accepts is one step of a run.
pub proof fn lemma_run_step(
    t: Table,
    max_capacity: nat,
    known: nat,
    i: Instruction,
    compress: bool,
    rest: Seq<u8>,
)
    requires
        wire::instruction_fits(i),
        wire::apply(t, max_capacity, known, i) is Some,
        t.capacity <= max_capacity <= u64::MAX,
    ensures
        wire::run(t, max_capacity, known, wire::instruction_octets(i, compress) + rest)
            == wire::run(
            wire::apply(t, max_capacity, known, i).unwrap(),
            max_capacity,
            known,
            rest,
        ),
{
    let o = wire::instruction_octets(i, compress);
    wire::lemma_instruction_round_trip(i, compress, rest);
    lemma_instruction_len(t, max_capacity, known, i, compress);
    assert((o + rest).take(o.len() as int) =~= o);
    assert((o + rest).skip(o.len() as int) =~= rest);
}

/// An instruction that the table accepts is never spelled too long: its strings
/// fit the table, and compression is used only where it pays.
pub proof fn lemma_instruction_len(
    t: Table,
    max_capacity: nat,
    known: nat,
    i: Instruction,
    compress: bool,
)
    requires
        wire::instruction_fits(i),
        wire::apply(t, max_capacity, known, i) is Some,
        t.capacity <= max_capacity <= u64::MAX,
    ensures
        wire::instruction_octets(i, compress).len() <= wire::longest_instruction(max_capacity),
{
    match i {
        Instruction::SetCapacity { capacity } => {
            integer::lemma_encoded_len(capacity as u64, 5, wire::SET_CAPACITY);
        },
        Instruction::InsertNameRef { fixed, index, value } => {
            let h = (wire::INSERT_WITH_NAME_REF + wire::flag(fixed, 0x40)) as u8;
            integer::lemma_encoded_len(index as u64, 6, h);
            string::lemma_literal_len(value, 8, 0, compress);
        },
        Instruction::InsertLiteral { name, value } => {
            string::lemma_literal_len(name, 6, wire::INSERT_WITH_LITERAL_NAME, compress);
            string::lemma_literal_len(value, 8, 0, compress);
        },
        Instruction::Duplicate { index } => {
            integer::lemma_encoded_len(index as u64, 5, wire::DUPLICATE);
        },
    }
}

pub(crate) proof fn lemma_run_nothing(t: Table, max_capacity: nat, known: nat)
    ensures
        wire::run(t, max_capacity, known, Seq::empty()) == (Run {
            table: t,
            rest: Seq::empty(),
            failed: false,
        }),
{
}

/// Running instructions that leave nothing over, and then one more.
pub(crate) proof fn lemma_run_push(
    t: Table,
    max_capacity: nat,
    known: nat,
    s: Seq<u8>,
    mid: Table,
    i: Instruction,
    compress: bool,
)
    requires
        wire::run(t, max_capacity, known, s) == (Run {
            table: mid,
            rest: Seq::empty(),
            failed: false,
        }),
        wire::instruction_fits(i),
        wire::apply(mid, max_capacity, known, i) is Some,
        mid.capacity <= max_capacity <= u64::MAX,
    ensures
        wire::run(t, max_capacity, known, s + wire::instruction_octets(i, compress)) == (Run {
            table: wire::apply(mid, max_capacity, known, i).unwrap(),
            rest: Seq::empty(),
            failed: false,
        }),
{
    let o = wire::instruction_octets(i, compress);
    lemma_run_split(t, max_capacity, known, s, o);
    assert(Seq::<u8>::empty() + o =~= o);
    lemma_run_step(mid, max_capacity, known, i, compress, Seq::empty());
    assert(o + Seq::<u8>::empty() =~= o);
    lemma_run_nothing(
        wire::apply(mid, max_capacity, known, i).unwrap(),
        max_capacity,
        known,
    );
}

/// The encoder stream of a field section rebuilds the encoder's table: a
/// decoder with the encoder's table that has acknowledged at least what the
/// encoder knows of never has to reject it.
pub proof fn lemma_section_stream_replays(
    e: EncoderState,
    list: Seq<Field>,
    base: nat,
    known: nat,
)
    requires
        e.valid(),
        e.max_capacity <= u64::MAX,
        list_fits(list),
        known >= e.known_received,
    ensures
        wire::run(e.table, e.max_capacity, known, e.section_stream(list, base)) == (Run {
            table: e.encode_fields(list, base).table,
            rest: Seq::empty(),
            failed: false,
        }),
    decreases list.len(),
{
    if list.len() == 0 {
        lemma_run_nothing(e.table, e.max_capacity, known);
    } else {
        let less = list.drop_last();
        let f = list.last();
        let s = e.encode_fields(less, base);
        let next = e.encode_fields(list, base);
        assert(list[list.len() - 1] == f);
        assert forall|i: int| 0 <= i < less.len() implies (#[trigger] less[i]).0.len() <= u64::MAX
            && less[i].1.len() <= u64::MAX by {
            assert(less[i] == list[i]);
        }
        lemma_section_stream_replays(e, less, base, known);
        lemma_encode_fields_valid(e, less, base);
        encoder::lemma_lowest(e.pending, e.known_received);
        if next.table != s.table || next.stream != s.stream {
            let wide = s.table.with_capacity(e.max_capacity);
            let open = Instruction::SetCapacity { capacity: e.max_capacity };
            let add = Instruction::InsertLiteral { name: f.0, value: f.1 };
            let size = table::size_of(f);
            table::lemma_with_capacity(s.table, e.max_capacity);
            table::lemma_evictions_monotone(
                s.table.entries,
                if size <= s.table.capacity {
                    (s.table.capacity - size) as nat
                } else {
                    0
                },
                (e.max_capacity - size) as nat,
            );
            if s.table.capacity != e.max_capacity {
                assert(s.table.evicted_by_capacity(e.max_capacity) == 0);
                lemma_run_push(
                    e.table,
                    e.max_capacity,
                    known,
                    s.stream,
                    s.table,
                    open,
                    e.compress,
                );
                let o = wire::instruction_octets(open, e.compress);
                lemma_run_push(
                    e.table,
                    e.max_capacity,
                    known,
                    s.stream + o,
                    wide,
                    add,
                    e.compress,
                );
            } else {
                assert(wide =~= s.table);
                assert(s.stream + Seq::<u8>::empty() =~= s.stream);
                lemma_run_push(
                    e.table,
                    e.max_capacity,
                    known,
                    s.stream,
                    s.table,
                    add,
                    e.compress,
                );
            }
        }
    }
}

/// An instruction that the encoder issues on its own is accepted by a decoder
/// with the encoder's table that has acknowledged at least what the encoder
/// knows of, and has the same effect there: an insertion with a literal name,
/// an insertion with a name reference, a duplication, or a change of capacity.
pub proof fn lemma_instruction_replays(e: EncoderState, f: Field, relative: nat, capacity: nat, known: nat)
    requires
        e.valid(),
        known >= e.known_received,
    ensures
        e.insertable(f) ==> wire::apply(
            e.table,
            e.max_capacity,
            known,
            Instruction::InsertLiteral { name: f.0, value: f.1 },
        ) == Some(e.inserting(f).table),
        e.insertable(f) && e.name_reference(f) is Some ==> wire::apply(
            e.table,
            e.max_capacity,
            known,
            e.name_reference(f).unwrap(),
        ) == Some(e.inserting(f).table),
        e.table.lookup(e.table.inserted - 1 - relative) matches Some(g) ==> e.insertable(g)
            ==> wire::apply(
            e.table,
            e.max_capacity,
            known,
            Instruction::Duplicate { index: relative },
        ) == Some(e.inserting(g).table),
        e.resizable(capacity) ==> wire::apply(
            e.table,
            e.max_capacity,
            known,
            Instruction::SetCapacity { capacity },
        ) == Some(e.table.with_capacity(capacity)),
{
    encoder::lemma_lowest(e.pending, e.known_received);
    table::lemma_find_named(e.table, f.0);
    static_table::lemma_index_of_name(f.0, 0);
    if capacity > e.table.capacity {
        table::lemma_with_capacity(e.table, capacity);
    }
}

/// Whether a decoder mirrors an encoder: the same table and the same maximum
/// capacity, at least as much acknowledged as the encoder knows of, and
/// nothing of the encoder stream outstanding.
pub open spec fn mirrors(d: DecoderState, e: EncoderState) -> bool {
    &&& d.table == e.table
    &&& d.max_capacity == e.max_capacity
    &&& e.known_received <= d.known_received
    &&& d.encoder_pending.len() == 0
}

/// End to end: what an encoder sends is what a decoder that mirrors it
/// receives. The decoder takes the encoder stream of a section without error
/// and mirrors the encoder again, and the section then decodes to the header
/// list, where the stream's budget allows it. Sections of other streams may be
/// waiting at the decoder, as long as those that the insertions complete decode.
pub proof fn lemma_end_to_end(
    e: EncoderState,
    d: DecoderState,
    stream_id: u64,
    list: Seq<Field>,
    base: nat,
    now: u64,
)
    requires
        e.valid(),
        d.valid(),
        mirrors(d, e),
        !super::decoder::streams(d.blocked).contains(stream_id),
        (DecoderState { table: e.after_section(stream_id, list, base).table, ..d }).unblock(
            Seq::empty(),
        ).1 is Some,
        e.max_capacity <= u64::MAX,
        list_fits(list),
        base <= u64::MAX,
        e.table.inserted + list.len() <= u64::MAX,
    ensures
        ({
            let after = e.after_section(stream_id, list, base);
            let (fed, result) = d.feed_encoder(e.section_stream(list, base));
            &&& result is Ok
            &&& d.blocked.len() == 0 ==> result->Ok_0.len() == 0 && fed.blocked.len() == 0
            &&& mirrors(fed, after)
            &&& fed.known_received >= after.table.inserted
            &&& fed.charged_to(stream_id) == d.charged_to(stream_id)
            &&& fed.max_field_section_size == d.max_field_section_size
            &&& super::decoder::saturated(
                d.charged_to(stream_id) + super::decoder::list_size(list),
            ) <= d.max_field_section_size ==> fed.decode(
                e.section_block(list, base),
                stream_id,
                now,
            ).1 == Ok::<Option<Seq<Field>>, QpackError>(Some(list))
        }),
{
    let stream = e.section_stream(list, base);
    let after = e.after_section(stream_id, list, base);
    assert(d.encoder_pending + stream =~= stream);
    lemma_section_stream_replays(e, list, base, d.known_received);
    lemma_encode_fields_valid(e, list, base);
    let mid = DecoderState { table: after.table, encoder_pending: Seq::empty(), ..d };
    assert(mid =~= DecoderState { table: after.table, ..d });
    let none = Seq::<Blocked>::empty();
    lemma_unblock_others(mid, none, stream_id);
    let (next, out) = mid.unblock(none);
    let (fed, result) = d.feed_encoder(stream);
    assert(fed == next.increment());
    lemma_section_round_trip(e, list, base);
    let s = e.encode_fields(list, base);
    let p = wire::prefix_octets(s.ric, base, e.max_capacity);
    if s.ric > 0 {
        table::lemma_entry_count(s.table.entries);
    }
    wire::lemma_prefix_round_trip(s.ric, base, e.max_capacity, s.table.inserted, s.lines);
    assert(p + s.lines == e.section_block(list, base));
}

/// Decoding what no longer has to wait leaves a stream alone that has nothing
/// waiting.
proof fn lemma_unblock_others(d: DecoderState, kept: Seq<Blocked>, id: u64)
    requires
        d.unblock(kept).1 is Some,
        !super::decoder::streams(kept).contains(id),
        !super::decoder::streams(d.blocked).contains(id),
        d.known_received <= d.table.inserted,
    ensures
        ({
            let end = d.unblock(kept).0;
            &&& end == (DecoderState {
                known_received: end.known_received,
                blocked: end.blocked,
                charged: end.charged,
                outgoing: end.outgoing,
                ..d
            })
            &&& d.known_received <= end.known_received <= d.table.inserted
            &&& !super::decoder::streams(end.blocked).contains(id)
            &&& end.charged_to(id) == d.charged_to(id)
        }),
    decreases d.blocked.len(),
{
    if d.blocked.len() > 0 {
        let b = d.blocked[0];
        let rest = DecoderState { blocked: d.blocked.skip(1), ..d };
        assert(d.blocked =~= seq![b] + rest.blocked);
        lemma_blocks_add(seq![b], rest.blocked, id);
        lemma_no_blocks(d.blocked, id);
        lemma_no_blocks(rest.blocked, id);
        lemma_no_blocks(kept, id);
        lemma_no_blocks(kept.push(b), id);
        assert(kept.push(b).drop_last() =~= kept);
        assert(seq![b].drop_last() =~= Seq::empty());
        reveal_with_fuel(blocks_of, 2);
        assert(b.stream_id != id);
        if b.ric > d.table.inserted || super::decoder::streams(kept).contains(b.stream_id) {
            lemma_unblock_others(rest, kept.push(b), id);
        } else {
            let list = wire::decode_section(d.table, d.max_capacity, b.block).unwrap();
            lemma_unblock_others(rest.deliver(b.stream_id, b.ric, list).0, kept, id);
        }
    }
}

/// The other order: a section that reaches the decoder before the insertions it
/// references waits for them, and is decoded to its header list as soon as the
/// encoder stream brings them, where the stream's budget allows it.
pub proof fn lemma_blocked_end_to_end(
    e: EncoderState,
    d: DecoderState,
    stream_id: u64,
    list: Seq<Field>,
    base: nat,
    now: u64,
)
    requires
        e.valid(),
        d.valid(),
        mirrors(d, e),
        d.blocked.len() == 0,
        d.max_blocked_streams > 0,
        e.max_capacity <= u64::MAX,
        list_fits(list),
        base <= u64::MAX,
        e.table.inserted + list.len() <= u64::MAX,
        e.encode_fields(list, base).ric > e.table.inserted,
        super::decoder::saturated(d.charged_to(stream_id) + super::decoder::list_size(list))
            <= d.max_field_section_size,
    ensures
        ({
            let (waiting, first) = d.decode(e.section_block(list, base), stream_id, now);
            let (fed, result) = waiting.feed_encoder(e.section_stream(list, base));
            &&& first == Ok::<Option<Seq<Field>>, QpackError>(None)
            &&& result == Ok::<Seq<(u64, Seq<Field>)>, QpackError>(seq![(stream_id, list)])
            &&& fed.blocked.len() == 0
            &&& mirrors(fed, e.after_section(stream_id, list, base))
        }),
{
    let stream = e.section_stream(list, base);
    let block = e.section_block(list, base);
    let s = e.encode_fields(list, base);
    let p = wire::prefix_octets(s.ric, base, e.max_capacity);
    lemma_encode_fields_valid(e, list, base);
    table::lemma_entry_count(s.table.entries);
    encoder::lemma_lowest(e.pending, e.known_received);
    assert(s.table.entries.len() <= wire::max_entries(e.max_capacity));
    wire::lemma_prefix_round_trip(s.ric, base, e.max_capacity, d.table.inserted, s.lines);
    wire::lemma_prefix_round_trip(s.ric, base, e.max_capacity, s.table.inserted, s.lines);
    assert(p + s.lines == block);
    assert(super::decoder::streams(d.blocked) =~= Set::empty());
    let (waiting, first) = d.decode(block, stream_id, now);
    let b = super::decoder::Blocked { stream_id, block, ric: s.ric, since: now };
    assert(waiting =~= DecoderState { blocked: seq![b], ..d });
    assert(d.encoder_pending + stream =~= stream);
    lemma_section_stream_replays(e, list, base, d.known_received);
    let mid = DecoderState { table: s.table, encoder_pending: Seq::empty(), ..waiting };
    lemma_section_round_trip(e, list, base);
    let rest = DecoderState { blocked: Seq::empty(), ..mid };
    assert(mid.blocked.skip(1) =~= Seq::empty());
    let none = Seq::<super::decoder::Blocked>::empty();
    assert(!super::decoder::streams(none).contains(stream_id));
    let (next, ok) = rest.deliver(stream_id, s.ric, list);
    assert(ok);
    assert(next.unblock(none).1 == Some(Seq::<(u64, Seq<Field>)>::empty()));
    assert(seq![(stream_id, list)] + Seq::<(u64, Seq<Field>)>::empty() =~= seq![(stream_id, list)]);
    assert(mid.unblock(none).1 == Some(seq![(stream_id, list)]));
    let (fed, result) = waiting.feed_encoder(stream);
    assert(fed == mid.unblock(none).0.increment());
}

/// The encoded sections of `stream_id` in a queue, in order.
pub open spec fn blocks_of(queue: Seq<Blocked>, stream_id: u64) -> Seq<Seq<u8>>
    decreases queue.len(),
{
    if queue.len() == 0 {
        Seq::empty()
    } else if queue.last().stream_id == stream_id {
        blocks_of(queue.drop_last(), stream_id).push(queue.last().block)
    } else {
        blocks_of(queue.drop_last(), stream_id)
    }
}

/// The header lists of `stream_id` among those that were decoded, in order.
pub open spec fn lists_of(list: Seq<(u64, Seq<Field>)>, stream_id: u64) -> Seq<Seq<Field>>
    decreases list.len(),
{
    if list.len() == 0 {
        Seq::empty()
    } else if list.last().0 == stream_id {
        lists_of(list.drop_last(), stream_id).push(list.last().1)
    } else {
        lists_of(list.drop_last(), stream_id)
    }
}

proof fn lemma_blocks_add(a: Seq<Blocked>, b: Seq<Blocked>, id: u64)
    ensures
        blocks_of(a + b, id) == blocks_of(a, id) + blocks_of(b, id),
    decreases b.len(),
{
    if b.len() == 0 {
        assert(a + b =~= a);
        assert(blocks_of(a, id) + blocks_of(b, id) =~= blocks_of(a, id));
    } else {
        lemma_blocks_add(a, b.drop_last(), id);
        assert((a + b).drop_last() =~= a + b.drop_last());
        assert((a + b).last() == b.last());
        assert(blocks_of(a + b, id) =~= blocks_of(a, id) + blocks_of(b, id));
    }
}

proof fn lemma_lists_add(a: Seq<(u64, Seq<Field>)>, b: Seq<(u64, Seq<Field>)>, id: u64)
    ensures
        lists_of(a + b, id) == lists_of(a, id) + lists_of(b, id),
    decreases b.len(),
{
    if b.len() == 0 {
        assert(a + b =~= a);
        assert(lists_of(a, id) + lists_of(b, id) =~= lists_of(a, id));
    } else {
        lemma_lists_add(a, b.drop_last(), id);
        assert((a + b).drop_last() =~= a + b.drop_last());
        assert((a + b).last() == b.last());
        assert(lists_of(a + b, id) =~= lists_of(a, id) + lists_of(b, id));
    }
}

proof fn lemma_no_blocks(queue: Seq<Blocked>, id: u64)
    ensures
        super::decoder::streams(queue).contains(id) <==> blocks_of(queue, id).len() > 0,
    decreases queue.len(),
{
    let ids = queue.map_values(|b: Blocked| b.stream_id);
    if queue.len() > 0 {
        let less = queue.drop_last();
        lemma_no_blocks(less, id);
        let before = less.map_values(|b: Blocked| b.stream_id);
        assert(ids =~= before.push(queue.last().stream_id));
        if ids.contains(id) && queue.last().stream_id != id {
            let k = choose|k: int| 0 <= k < ids.len() && ids[k] == id;
            assert(before[k] == id);
        }
        if before.contains(id) {
            let k = choose|k: int| 0 <= k < before.len() && before[k] == id;
            assert(ids[k] == id);
        }
        if queue.last().stream_id == id {
            assert(ids[ids.len() - 1] == id);
        }
    }
}

proof fn lemma_unblock_order(d: DecoderState, kept: Seq<Blocked>, id: u64)
    requires
        d.unblock(kept).1 is Some,
    ensures
        ({
            let (end, more) = d.unblock(kept);
            let before = blocks_of(kept + d.blocked, id);
            let out = lists_of(more.unwrap(), id);
            &&& out.len() <= before.len()
            &&& blocks_of(end.blocked, id) == before.skip(out.len() as int)
            &&& blocks_of(kept, id).len() > 0 ==> out.len() == 0
            &&& forall|i: int|
                0 <= i < out.len() ==> wire::decode_section(d.table, d.max_capacity, before[i])
                    == Some(#[trigger] out[i])
        }),
    decreases d.blocked.len(),
{
    let before = blocks_of(kept + d.blocked, id);
    if d.blocked.len() == 0 {
        assert(kept + d.blocked =~= kept);
        assert(before.skip(0) =~= before);
    } else {
        let b = d.blocked[0];
        let rest = DecoderState { blocked: d.blocked.skip(1), ..d };
        lemma_no_blocks(kept, b.stream_id);
        if b.ric > d.table.inserted || super::decoder::streams(kept).contains(b.stream_id) {
            lemma_unblock_order(rest, kept.push(b), id);
            assert(kept.push(b) + rest.blocked =~= kept + d.blocked);
            assert(kept.push(b).drop_last() =~= kept);
        } else {
            let list = wire::decode_section(d.table, d.max_capacity, b.block).unwrap();
            let (next, ok) = rest.deliver(b.stream_id, b.ric, list);
            lemma_unblock_order(next, kept, id);
            let (end, more) = next.unblock(kept);
            let l = more.unwrap();
            let one = seq![(b.stream_id, list)];
            lemma_lists_add(one, l, id);
            assert(one.drop_last() =~= Seq::empty());
            lemma_blocks_add(kept, d.blocked, id);
            lemma_blocks_add(kept, rest.blocked, id);
            assert(d.blocked =~= seq![b] + rest.blocked);
            lemma_blocks_add(seq![b], rest.blocked, id);
            assert(seq![b].drop_last() =~= Seq::empty());
            let later = blocks_of(kept + rest.blocked, id);
            let out = lists_of(one + l, id);
            reveal_with_fuel(blocks_of, 2);
            reveal_with_fuel(lists_of, 2);
            if b.stream_id == id {
                assert(blocks_of(seq![b], id) =~= seq![b.block]);
                assert(lists_of(one, id) =~= seq![list]);
                assert(blocks_of(kept, id) =~= Seq::empty());
                assert(before =~= seq![b.block] + later);
                assert(out =~= seq![list] + lists_of(l, id));
                assert(before.skip(out.len() as int) =~= later.skip(lists_of(l, id).len() as int));
                assert forall|i: int| 0 <= i < out.len() implies wire::decode_section(
                    d.table,
                    d.max_capacity,
                    before[i],
                ) == Some(#[trigger] out[i]) by {
                    if i > 0 {
                        assert(out[i] == lists_of(l, id)[i - 1]);
                        assert(before[i] == later[i - 1]);
                    }
                }
            } else {
                assert(blocks_of(seq![b], id) =~= Seq::empty());
                assert(lists_of(one, id) =~= Seq::empty());
                assert(before =~= later);
                assert(out =~= lists_of(l, id));
            }
        }
    }
}

/// Blocked sections of a stream are decoded in the order in which they arrived:
/// what an encoder stream update decodes are the oldest ones that were waiting,
/// none is passed over, and the others go on waiting.
pub proof fn lemma_unblocked_in_arrival_order(d: DecoderState, buf: Seq<u8>, stream_id: u64)
    requires
        d.feed_encoder(buf).1 is Ok,
    ensures
        ({
            let (next, result) = d.feed_encoder(buf);
            let before = blocks_of(d.blocked, stream_id);
            let out = lists_of(result->Ok_0, stream_id);
            &&& out.len() <= before.len()
            &&& blocks_of(next.blocked, stream_id) == before.skip(out.len() as int)
            &&& forall|i: int|
                0 <= i < out.len() ==> wire::decode_section(
                    next.table,
                    d.max_capacity,
                    before[i],
                ) == Some(#[trigger] out[i])
        }),
{
    let data = d.encoder_pending + buf;
    let run = wire::run(d.table, d.max_capacity, d.known_received, data);
    let fed = DecoderState { table: run.table, encoder_pending: run.rest, ..d };
    let none = Seq::<Blocked>::empty();
    lemma_unblock_order(fed, none, stream_id);
    assert(none + d.blocked =~= d.blocked);
    lemma_unblock_table(fed, none);
}

proof fn lemma_unblock_table(d: DecoderState, kept: Seq<Blocked>)
    ensures
        d.unblock(kept).0.table == d.table,
    decreases d.blocked.len(),
{
    if d.blocked.len() > 0 {
        let b = d.blocked[0];
        let rest = DecoderState { blocked: d.blocked.skip(1), ..d };
        lemma_unblock_table(rest, kept.push(b));
        if let Some(list) = wire::decode_section(d.table, d.max_capacity, b.block) {
            lemma_unblock_table(rest.deliver(b.stream_id, b.ric, list).0, kept);
        }
    }
}

/// The Insert Count Increment that a decoder sends is accepted by the encoder
/// it mirrors, which then still knows of no more than was acknowledged.
pub proof fn lemma_increment_accepted(e: EncoderState, d: DecoderState)
    requires
        e.valid(),
        d.valid(),
        d.table.inserted <= e.table.inserted,
        e.known_received <= d.known_received < d.table.inserted,
        d.table.inserted <= u64::MAX,
    ensures
        ({
            let count = (d.table.inserted - d.known_received) as u64;
            e.absorb(Ack::Increment { count }) matches Some(next) && next.known_received
                <= d.increment().known_received
        }),
{
}

/// A sensitive field line leaves the dynamic table and the encoder stream
/// alone and is sent as a literal with the N bit set.
pub proof fn lemma_sensitive_never_indexed(e: EncoderState, s: Section, f: Field, base: nat)
    requires
        encoder::sensitive(f.0),
    ensures
        ({
            let next = e.encode_field(s, f, base);
            &&& next.table == s.table
            &&& next.stream == s.stream
            &&& next.ric == s.ric
            &&& exists|l: Line|
                next.lines == s.lines + #[trigger] wire::line_octets(l, true, e.compress) && (l
                    is Literal || (l matches Line::NameRef { fixed, .. } && fixed))
        }),
{
    let l = encoder::literal(f);
    assert(e.encode_field(s, f, base).lines == s.lines + wire::line_octets(l, true, e.compress));
}

/// A maximum capacity below 32 octets disables the dynamic table: nothing is
/// inserted, and no section requires an insertion.
pub proof fn lemma_small_capacity_disables_table(e: EncoderState, list: Seq<Field>, base: nat)
    requires
        e.max_capacity < 32,
    ensures
        e.encode_fields(list, base).table == e.table,
        e.encode_fields(list, base).stream.len() == 0,
        e.encode_fields(list, base).ric == 0,
    decreases list.len(),
{
    if list.len() > 0 {
        lemma_small_capacity_disables_table(e, list.drop_last(), base);
    }
}

/// Decoder stream octets may be split anywhere: what the first part leaves
/// unprocessed is completed by the second.
pub proof fn lemma_absorb_split(e: EncoderState, a: Seq<u8>, b: Seq<u8>)
    requires
        e.absorb_all(a).1 is Some,
    ensures
        e.absorb_all(a + b) == e.absorb_all(a).0.absorb_all(e.absorb_all(a).1.unwrap() + b),
    decreases a.len(),
{
    if wire::ack_length(a) is Some {
        assert((a + b)[0] == a[0]);
        integer::lemma_read_prefix(a, b, wire::ack_bits(a[0]));
        let n = wire::ack_length(a).unwrap() as int;
        assert((a + b).take(n) =~= a.take(n));
        assert((a + b).skip(n) =~= a.skip(n) + b);
        let next = e.absorb(wire::parse_ack(a.take(n)).unwrap()).unwrap();
        lemma_absorb_split(next, a.skip(n), b);
    }
}

/// Feeding decoder stream octets to an encoder in two pieces is feeding them
/// at once: where the first piece fails both together do, and where it does
/// not the result is the same, and so is the encoder where it is a success.
pub proof fn lemma_feed_decoder_split(e: EncoderState, a: Seq<u8>, b: Seq<u8>)
    ensures
        e.feed_decoder(a).1 is Err ==> e.feed_decoder(a + b).1 is Err,
        e.feed_decoder(a).1 is Ok ==> ({
            let (x, r) = e.feed_decoder(a + b);
            let (y, q) = e.feed_decoder(a).0.feed_decoder(b);
            r == q && (r is Ok ==> x == y)
        }),
{
    let data = e.decoder_pending + a;
    if e.absorb_all(data).1 is None {
        lemma_absorb_failure(e, data, b);
        assert(data + b =~= e.decoder_pending + (a + b));
        return;
    }
    lemma_absorb_split(e, data, b);
    assert(data + b =~= e.decoder_pending + (a + b));
    let (mid, rest) = e.absorb_all(data);
    let first = e.feed_decoder(a).0;
    lemma_absorb_pending(mid, first.decoder_pending, rest.unwrap() + b);
    lemma_absorb_rest(e, data);
    if rest.unwrap().len() > wire::MAX_DECODER_STREAM_PENDING {
        lemma_too_long(rest.unwrap(), b);
    }
    assert(e.feed_decoder(a + b).0 =~= first.feed_decoder(b).0 || e.feed_decoder(a + b).1 is Err);
}

/// Octets that fail, fail whatever follows them.
proof fn lemma_absorb_failure(e: EncoderState, a: Seq<u8>, b: Seq<u8>)
    requires
        e.absorb_all(a).1 is None,
    ensures
        e.absorb_all(a + b).1 is None,
    decreases a.len(),
{
    assert((a + b)[0] == a[0]);
    integer::lemma_read_prefix(a, b, wire::ack_bits(a[0]));
    let n = wire::ack_length(a).unwrap() as int;
    assert((a + b).take(n) =~= a.take(n));
    assert((a + b).skip(n) =~= a.skip(n) + b);
    if let Some(x) = wire::parse_ack(a.take(n)) {
        if let Some(next) = e.absorb(x) {
            lemma_absorb_failure(next, a.skip(n), b);
        }
    }
}

/// What is left behind complete instructions is not a complete one.
proof fn lemma_absorb_rest(e: EncoderState, s: Seq<u8>)
    ensures
        e.absorb_all(s).1 matches Some(r) ==> wire::ack_length(r) is None,
    decreases s.len(),
{
    if s.len() > 0 && wire::ack_length(s) is Some {
        integer::lemma_read_prefix(s, Seq::empty(), wire::ack_bits(s[0]));
        let n = wire::ack_length(s).unwrap();
        if let Some(a) = wire::parse_ack(s.take(n as int)) {
            if let Some(next) = e.absorb(a) {
                lemma_absorb_rest(next, s.skip(n as int));
            }
        }
    }
}

/// An unfinished decoder stream instruction that is too long never becomes a
/// valid one: it stays unfinished, or ends up malformed.
proof fn lemma_too_long(a: Seq<u8>, b: Seq<u8>)
    requires
        wire::ack_length(a) is None,
        a.len() > wire::MAX_DECODER_STREAM_PENDING,
    ensures
        wire::ack_length(a + b) matches Some(n) ==> 1 <= n <= (a + b).len() && wire::parse_ack(
            (a + b).take(n as int),
        ) is None,
{
    let s = a + b;
    assert(s[0] == a[0]);
    let bits = wire::ack_bits(s[0]);
    if wire::ack_length(s) is Some {
        let n = wire::ack_length(s).unwrap();
        integer::lemma_read_prefix(s, Seq::empty(), bits);
        integer::lemma_read_take(s, bits);
        if n <= a.len() {
            integer::lemma_read_prefix(s.take(n as int), a.skip(n as int), bits);
            assert(s.take(n as int) + a.skip(n as int) =~= a);
        }
        assert(s.take(n as int)[0] == s[0]);
        reveal(integer::parse);
    }
}

/// Feeding decoder stream octets to a decoder, which only checks them, in two
/// pieces is feeding them at once.
pub proof fn lemma_check_decoder_split(d: DecoderState, a: Seq<u8>, b: Seq<u8>)
    ensures
        d.feed_decoder(a).1 is Err ==> d.feed_decoder(a + b).1 is Err,
        d.feed_decoder(a).1 is Ok ==> ({
            let (x, r) = d.feed_decoder(a + b);
            let (y, q) = d.feed_decoder(a).0.feed_decoder(b);
            r == q && (r is Ok ==> x == y)
        }),
{
    let data = d.decoder_pending + a;
    assert(data + b =~= d.decoder_pending + (a + b));
    lemma_check_acks(data, b);
    if let Some(rest) = super::decoder::check_acks(data) {
        if rest.len() > wire::MAX_DECODER_STREAM_PENDING {
            lemma_too_long(rest, b);
        }
    }
}

/// Acknowledgments may be split anywhere: what the first part leaves is not a
/// complete one, and is completed by the second.
proof fn lemma_check_acks(a: Seq<u8>, b: Seq<u8>)
    ensures
        match super::decoder::check_acks(a) {
            Some(rest) => wire::ack_length(rest) is None && super::decoder::check_acks(a + b)
                == super::decoder::check_acks(rest + b),
            None => super::decoder::check_acks(a + b) is None,
        },
    decreases a.len(),
{
    if wire::ack_length(a) is Some {
        assert((a + b)[0] == a[0]);
        integer::lemma_read_prefix(a, b, wire::ack_bits(a[0]));
        let n = wire::ack_length(a).unwrap() as int;
        assert((a + b).take(n) =~= a.take(n));
        assert((a + b).skip(n) =~= a.skip(n) + b);
        lemma_check_acks(a.skip(n), b);
    }
}

/// What is pending does not affect how instructions are absorbed.
proof fn lemma_absorb_pending(e: EncoderState, pending: Seq<u8>, s: Seq<u8>)
    ensures
        ({
            let (x, r) = e.absorb_all(s);
            (EncoderState { decoder_pending: pending, ..e }).absorb_all(s) == (
                EncoderState { decoder_pending: pending, ..x },
                r,
            )
        }),
    decreases s.len(),
{
    if wire::ack_length(s) is Some {
        let n = wire::ack_length(s).unwrap();
        let other = EncoderState { decoder_pending: pending, ..e };
        if 1 <= n <= s.len() && wire::parse_ack(s.take(n as int)) is Some {
            let a = wire::parse_ack(s.take(n as int)).unwrap();
            if e.absorb(a) is Some {
                let next = e.absorb(a).unwrap();
                assert(other.absorb(a).unwrap() =~= (EncoderState {
                    decoder_pending: pending,
                    ..next
                }));
                lemma_absorb_pending(next, pending, s.skip(n as int));
            }
        }
    }
}

/// Encoder stream octets that a decoder takes at once, with nothing blocked, it
/// also takes in any two pieces. Both end in the same decoder, but for what it
/// has to send, and decode every section alike.
pub proof fn lemma_feed_encoder_split(d: DecoderState, a: Seq<u8>, b: Seq<u8>)
    requires
        d.valid(),
        d.blocked.len() == 0,
        d.feed_encoder(a + b).1 is Ok,
    ensures
        ({
            let whole = d.feed_encoder(a + b).0;
            let (first, r) = d.feed_encoder(a);
            let (second, q) = first.feed_encoder(b);
            &&& r == Ok::<Seq<(u64, Seq<Field>)>, QpackError>(Seq::empty())
            &&& q == Ok::<Seq<(u64, Seq<Field>)>, QpackError>(Seq::empty())
            &&& second == (DecoderState { outgoing: second.outgoing, ..whole })
            &&& whole.known_received == whole.table.inserted
            &&& forall|block: Seq<u8>, stream_id: u64, now: u64|
                (#[trigger] second.decode(block, stream_id, now)).1 == whole.decode(
                    block,
                    stream_id,
                    now,
                ).1
        }),
{
    let m = d.max_capacity;
    let k = d.known_received;
    let data = d.encoder_pending + a;
    assert(data + b =~= d.encoder_pending + (a + b));
    let whole_run = wire::run(d.table, m, k, data + b);
    lemma_run_prefix_ok(d.table, m, k, data, b);
    lemma_run_split(d.table, m, k, data, b);
    let run = wire::run(d.table, m, k, data);
    lemma_run_rest(d.table, m, k, data);
    lemma_unfinished_len(run.table, m, k, run.rest, b);
    lemma_run_inserted(d.table, m, k, data);
    lemma_run_inserted(d.table, m, k, data + b);
    let mid = DecoderState { table: run.table, encoder_pending: run.rest, ..d };
    assert(DecoderState { blocked: Seq::empty(), ..mid } =~= mid);
    let (first, r) = d.feed_encoder(a);
    assert(first =~= mid.increment());
    lemma_run_known(run.table, m, k, first.known_received, run.rest + b);
    let end = DecoderState {
        table: whole_run.table,
        encoder_pending: whole_run.rest,
        ..first
    };
    assert(DecoderState { blocked: Seq::empty(), ..end } =~= end);
    let all = DecoderState { table: whole_run.table, encoder_pending: whole_run.rest, ..d };
    assert(DecoderState { blocked: Seq::empty(), ..all } =~= all);
    lemma_run_inserted(run.table, m, first.known_received, run.rest + b);
    let whole = d.feed_encoder(a + b).0;
    let second = first.feed_encoder(b).0;
    assert(whole =~= all.increment());
    assert(second =~= end.increment());
    assert(second =~= (DecoderState { outgoing: second.outgoing, ..whole }));
    assert forall|block: Seq<u8>, stream_id: u64, now: u64|
        (#[trigger] second.decode(block, stream_id, now)).1 == whole.decode(
            block,
            stream_id,
            now,
        ).1 by {
        lemma_decode_ignores_outgoing(whole, second, block, stream_id, now);
    }
}

/// What is decoded does not depend on what is to be sent.
pub proof fn lemma_decode_ignores_outgoing(
    a: DecoderState,
    b: DecoderState,
    block: Seq<u8>,
    stream_id: u64,
    now: u64,
)
    requires
        b == (DecoderState { outgoing: b.outgoing, ..a }),
    ensures
        a.decode(block, stream_id, now).1 == b.decode(block, stream_id, now).1,
{
}

/// What a run leaves behind is not a complete instruction.
proof fn lemma_run_rest(t: Table, max_capacity: nat, known: nat, s: Seq<u8>)
    requires
        !wire::run(t, max_capacity, known, s).failed,
    ensures
        wire::instruction_length(wire::run(t, max_capacity, known, s).rest) is None,
    decreases s.len(),
{
    if wire::instruction_length(s) is Some {
        lemma_instruction_length_prefix(s, Seq::empty());
        let n = wire::instruction_length(s).unwrap() as int;
        let i = wire::parse_instruction(s.take(n)).unwrap();
        let t2 = wire::apply(t, max_capacity, known, i).unwrap();
        lemma_run_rest(t2, max_capacity, known, s.skip(n));
    }
}

/// An unfinished instruction is no longer than what it becomes.
proof fn lemma_unfinished_len(t: Table, max_capacity: nat, known: nat, s: Seq<u8>, more: Seq<u8>)
    requires
        wire::instruction_length(s) is None,
        ({
            let run = wire::run(t, max_capacity, known, s + more);
            !run.failed && run.rest.len() <= wire::longest_instruction(max_capacity)
        }),
    ensures
        s.len() <= wire::longest_instruction(max_capacity),
{
    if wire::instruction_length(s + more) is Some {
        let n = wire::instruction_length(s + more).unwrap();
        lemma_instruction_length_take(s + more);
        if n <= s.len() {
            let o = (s + more).take(n as int);
            lemma_instruction_length_prefix(o, s.skip(n as int));
            assert(o + s.skip(n as int) =~= s);
        }
    }
}

/// The length of a string is read from its own octets.
proof fn lemma_string_length_take(s: Seq<u8>, bits: u8)
    requires
        2 <= bits <= 8,
        wire::string_length(s, bits) is Some,
    ensures
        1 <= wire::string_length(s, bits).unwrap() <= s.len(),
        wire::string_length(s.take(wire::string_length(s, bits).unwrap() as int), bits)
            == wire::string_length(s, bits),
{
    let b = (bits - 1) as u8;
    let m = wire::string_length(s, bits).unwrap() as int;
    reveal(integer::parse);
    integer::lemma_read_take(s, b);
    let n = integer::read(s, b).unwrap().1 as int;
    integer::lemma_read_prefix(s.take(n), s.take(m).skip(n), b);
    assert(s.take(n) + s.take(m).skip(n) =~= s.take(m));
}

/// The length of an instruction is read from its own octets.
proof fn lemma_instruction_length_take(s: Seq<u8>)
    requires
        wire::instruction_length(s) is Some,
    ensures
        1 <= wire::instruction_length(s).unwrap() <= s.len(),
        wire::instruction_length(s.take(wire::instruction_length(s).unwrap() as int))
            == wire::instruction_length(s),
{
    lemma_instruction_length_prefix(s, Seq::empty());
    let m = wire::instruction_length(s).unwrap() as int;
    let o = s.take(m);
    assert(o[0] == s[0]);
    if s[0] >= 0x80 {
        integer::lemma_read_take(s, 6);
        let n = integer::read(s, 6).unwrap().1 as int;
        integer::lemma_read_prefix(s.take(n), o.skip(n), 6);
        assert(s.take(n) + o.skip(n) =~= o);
        lemma_string_length_take(s.skip(n), 8);
        assert(s.skip(n).take(m - n) =~= o.skip(n));
    } else if s[0] >= 0x40 {
        lemma_string_length_take(s, 6);
        let n = wire::string_length(s, 6).unwrap() as int;
        lemma_string_length_prefix(s.take(n), o.skip(n), 6);
        assert(s.take(n) + o.skip(n) =~= o);
        lemma_string_length_take(s.skip(n), 8);
        assert(s.skip(n).take(m - n) =~= o.skip(n));
    } else {
        integer::lemma_read_take(s, 5);
    }
}

/// A run inserts and never takes back.
proof fn lemma_run_inserted(t: Table, max_capacity: nat, known: nat, s: Seq<u8>)
    requires
        t.valid(),
        t.capacity <= max_capacity,
        t.dropped() <= known,
    ensures
        ({
            let r = wire::run(t, max_capacity, known, s);
            &&& r.table.valid()
            &&& r.table.capacity <= max_capacity
            &&& r.table.dropped() <= known
            &&& r.table.inserted >= t.inserted
        }),
    decreases s.len(),
{
    if wire::instruction_length(s) is Some {
        let n = wire::instruction_length(s).unwrap();
        if 1 <= n <= s.len() && wire::parse_instruction(s.take(n as int)) is Some {
            let i = wire::parse_instruction(s.take(n as int)).unwrap();
            if wire::apply(t, max_capacity, known, i) is Some {
                wire::lemma_apply(t, max_capacity, known, i);
                lemma_run_inserted(
                    wire::apply(t, max_capacity, known, i).unwrap(),
                    max_capacity,
                    known,
                    s.skip(n as int),
                );
            }
        }
    }
}

/// Where a run takes all of `a + b`, it takes `a`.
proof fn lemma_run_prefix_ok(t: Table, max_capacity: nat, known: nat, a: Seq<u8>, b: Seq<u8>)
    requires
        !wire::run(t, max_capacity, known, a + b).failed,
    ensures
        !wire::run(t, max_capacity, known, a).failed,
    decreases a.len(),
{
    if wire::instruction_length(a) is Some {
        lemma_instruction_length_prefix(a, b);
        let n = wire::instruction_length(a).unwrap() as int;
        assert((a + b).take(n) =~= a.take(n));
        assert((a + b).skip(n) =~= a.skip(n) + b);
        if wire::parse_instruction(a.take(n)) is Some {
            let i = wire::parse_instruction(a.take(n)).unwrap();
            if wire::apply(t, max_capacity, known, i) is Some {
                lemma_run_prefix_ok(
                    wire::apply(t, max_capacity, known, i).unwrap(),
                    max_capacity,
                    known,
                    a.skip(n),
                    b,
                );
            }
        }
    }
}

} // verus!
