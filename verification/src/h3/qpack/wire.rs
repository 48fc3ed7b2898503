//! The QPACK representations as values: field lines (RFC 9204 Section 4.5),
//! encoder stream instructions (Section 4.3), decoder stream instructions
//! (Section 4.4), and the field section prefix (Section 4.5.1).
//!
//! Each representation has a spelling and a reading. Reading a spelling gives
//! the representation back, whatever octets follow it.

use super::static_table;
use super::table;
use super::table::Table;
use crate::hpack::{integer, string};
use crate::octets::Field;
use vstd::prelude::*;

verus! {

/// `001` + 5-bit capacity: Set Dynamic Table Capacity (RFC 9204 4.3.1).
pub const SET_CAPACITY: u8 = 0x20;

/// `1 T` + 6-bit name index: Insert with Name Reference (RFC 9204 4.3.2).
pub const INSERT_WITH_NAME_REF: u8 = 0x80;

/// `01` + H + 5-bit name length: Insert with Literal Name (RFC 9204 4.3.3).
pub const INSERT_WITH_LITERAL_NAME: u8 = 0x40;

/// `000` + 5-bit relative index: Duplicate (RFC 9204 4.3.4).
pub const DUPLICATE: u8 = 0x00;

/// `1` + 7-bit stream ID: Section Acknowledgment (RFC 9204 4.4.1).
pub const SECTION_ACK: u8 = 0x80;

/// `01` + 6-bit stream ID: Stream Cancellation (RFC 9204 4.4.2).
pub const STREAM_CANCELLATION: u8 = 0x40;

/// `00` + 6-bit increment: Insert Count Increment (RFC 9204 4.4.3).
pub const INSERT_COUNT_INCREMENT: u8 = 0x00;

/// `1 T` + 6-bit index: Indexed Field Line (RFC 9204 4.5.2).
pub const INDEXED: u8 = 0x80;

/// `0001` + 4-bit post-Base index: Indexed Field Line with Post-Base Index
/// (RFC 9204 4.5.3).
pub const INDEXED_POST_BASE: u8 = 0x10;

/// `01 N T` + 4-bit name index: Literal Field Line with Name Reference
/// (RFC 9204 4.5.4).
pub const LITERAL_NAME_REF: u8 = 0x40;

/// `0000 N` + 3-bit post-Base name index: Literal Field Line with Post-Base
/// Name Reference (RFC 9204 4.5.5).
pub const LITERAL_POST_BASE_NAME_REF: u8 = 0x00;

/// `001 N` + H + 3-bit name length: Literal Field Line with Literal Name
/// (RFC 9204 4.5.6).
pub const LITERAL_LITERAL_NAME: u8 = 0x20;

/// How much longer than the table capacity an encoder stream instruction may be.
pub const ENCODER_STREAM_SLACK: u64 = 1024;

/// Upper bound on the buffered prefix of a peer's decoder stream. A complete
/// decoder stream instruction is a single prefixed integer, so a buffered
/// prefix far larger than one can never become one.
pub const MAX_DECODER_STREAM_PENDING: usize = 64;

/// A field line representation (RFC 9204 Section 4.5). `fixed` tells a
/// reference to the static table from one to the dynamic table.
pub enum Line {
    Indexed { fixed: bool, index: nat },
    PostBase { index: nat },
    NameRef { fixed: bool, index: nat, value: Seq<u8> },
    PostBaseNameRef { index: nat, value: Seq<u8> },
    Literal { name: Seq<u8>, value: Seq<u8> },
}

/// A field line that a 64-bit index and 64-bit lengths can represent.
pub open spec fn line_fits(l: Line) -> bool {
    match l {
        Line::Indexed { index, .. } => index <= u64::MAX,
        Line::PostBase { index } => index <= u64::MAX,
        Line::NameRef { index, value, .. } => index <= u64::MAX && value.len() <= u64::MAX,
        Line::PostBaseNameRef { index, value } => index <= u64::MAX && value.len() <= u64::MAX,
        Line::Literal { name, value } => name.len() <= u64::MAX && value.len() <= u64::MAX,
    }
}

/// `bit` where `set`, and nothing otherwise.
pub open spec fn flag(set: bool, bit: u8) -> nat {
    if set {
        bit as nat
    } else {
        0
    }
}

/// The spelling of a field line. `never` sets the N bit, which asks that the
/// line never be indexed; `compress` allows Huffman encoding.
pub open spec fn line_octets(l: Line, never: bool, compress: bool) -> Seq<u8> {
    match l {
        Line::Indexed { fixed, index } => integer::encoded(
            index,
            6,
            (INDEXED + flag(fixed, 0x40)) as u8,
        ),
        Line::PostBase { index } => integer::encoded(index, 4, INDEXED_POST_BASE),
        Line::NameRef { fixed, index, value } => integer::encoded(
            index,
            4,
            (LITERAL_NAME_REF + flag(never, 0x20) + flag(fixed, 0x10)) as u8,
        ) + string::literal(value, 8, 0, compress),
        Line::PostBaseNameRef { index, value } => integer::encoded(
            index,
            3,
            (LITERAL_POST_BASE_NAME_REF + flag(never, 0x08)) as u8,
        ) + string::literal(value, 8, 0, compress),
        Line::Literal { name, value } => string::literal(
            name,
            4,
            (LITERAL_LITERAL_NAME + flag(never, 0x10)) as u8,
            compress,
        ) + string::literal(value, 8, 0, compress),
    }
}

/// The field line that `s` starts with, and its length.
pub open spec fn parse_line(s: Seq<u8>) -> Option<(Line, nat)> {
    if s.len() == 0 {
        None
    } else if s[0] >= 0x80 {
        match integer::parse(s, 6) {
            Some((index, n)) => Some(
                (Line::Indexed { fixed: s[0] >= 0xC0, index: index as nat }, n),
            ),
            None => None,
        }
    } else if s[0] >= 0x40 {
        match integer::parse(s, 4) {
            Some((index, n)) => match string::parse(s.skip(n as int), 8) {
                Some((value, m)) => Some(
                    (
                        Line::NameRef { fixed: s[0] % 32 >= 16, index: index as nat, value },
                        n + m,
                    ),
                ),
                None => None,
            },
            None => None,
        }
    } else if s[0] >= 0x20 {
        match string::parse(s, 4) {
            Some((name, n)) => match string::parse(s.skip(n as int), 8) {
                Some((value, m)) => Some((Line::Literal { name, value }, n + m)),
                None => None,
            },
            None => None,
        }
    } else if s[0] >= 0x10 {
        match integer::parse(s, 4) {
            Some((index, n)) => Some((Line::PostBase { index: index as nat }, n)),
            None => None,
        }
    } else {
        match integer::parse(s, 3) {
            Some((index, n)) => match string::parse(s.skip(n as int), 8) {
                Some((value, m)) => Some(
                    (Line::PostBaseNameRef { index: index as nat, value }, n + m),
                ),
                None => None,
            },
            None => None,
        }
    }
}

/// The field line that `l` stands for with the given Base, and the insert
/// count that the reference takes (0 where it takes none).
pub open spec fn resolve(t: Table, base: nat, l: Line) -> Option<(Field, nat)> {
    match l {
        Line::Indexed { fixed, index } => if fixed {
            if index < static_table::STATIC_TABLE_SIZE {
                Some((static_table::entry(index), 0))
            } else {
                None
            }
        } else {
            match t.lookup(base - 1 - index) {
                Some(f) => Some((f, (base - index) as nat)),
                None => None,
            }
        },
        Line::PostBase { index } => match t.lookup((base + index) as int) {
            Some(f) => Some((f, base + index + 1)),
            None => None,
        },
        Line::NameRef { fixed, index, value } => if fixed {
            if index < static_table::STATIC_TABLE_SIZE {
                Some(((static_table::entry(index).0, value), 0))
            } else {
                None
            }
        } else {
            match t.lookup(base - 1 - index) {
                Some(f) => Some(((f.0, value), (base - index) as nat)),
                None => None,
            }
        },
        Line::PostBaseNameRef { index, value } => match t.lookup((base + index) as int) {
            Some(f) => Some(((f.0, value), base + index + 1)),
            None => None,
        },
        Line::Literal { name, value } => Some(((name, value), 0)),
    }
}

/// The larger of two numbers.
pub open spec fn larger(a: nat, b: nat) -> nat {
    if a >= b {
        a
    } else {
        b
    }
}

/// The field lines that `s` holds with the given Base, and the insert count
/// that their references take.
pub open spec fn decode_lines(t: Table, base: nat, s: Seq<u8>) -> Option<(Seq<Field>, nat)>
    decreases s.len(),
{
    if s.len() == 0 {
        Some((Seq::empty(), 0))
    } else {
        match parse_line(s) {
            Some((l, n)) => match resolve(t, base, l) {
                Some((f, need)) => if 1 <= n <= s.len() {
                    match decode_lines(t, base, s.skip(n as int)) {
                        Some((rest, more)) => Some((seq![f] + rest, larger(need, more))),
                        None => None,
                    }
                } else {
                    None
                },
                None => None,
            },
            None => None,
        }
    }
}

/// The most entries a table of the given capacity can hold (RFC 9204
/// Section 4.5.1.1).
pub open spec fn max_entries(max_capacity: nat) -> nat {
    max_capacity / 32
}

/// The wire form of a Required Insert Count (RFC 9204 Section 4.5.1.1).
pub open spec fn wrap_count(ric: nat, max_capacity: nat) -> nat {
    if ric == 0 || max_entries(max_capacity) == 0 {
        0
    } else {
        ric % (2 * max_entries(max_capacity)) + 1
    }
}

/// The Required Insert Count that the wire form `wrapped` stands for to a
/// decoder that has seen `inserted` insertions (RFC 9204 Section 4.5.1.1).
pub open spec fn unwrap_count(wrapped: nat, max_capacity: nat, inserted: nat) -> Option<nat> {
    let full_range = 2 * max_entries(max_capacity);
    if wrapped == 0 || full_range == 0 {
        Some(0)
    } else if wrapped > full_range {
        None
    } else {
        let max_value = inserted + max_entries(max_capacity);
        let guess = max_value - max_value % full_range + wrapped - 1;
        let ric = if guess > max_value {
            guess - full_range
        } else {
            guess
        };
        if ric > 0 {
            Some(ric as nat)
        } else {
            None
        }
    }
}

/// The spelling of the field section prefix (RFC 9204 Section 4.5.1).
pub open spec fn prefix_octets(ric: nat, base: nat, max_capacity: nat) -> Seq<u8> {
    integer::encoded(wrap_count(ric, max_capacity), 8, 0) + if base >= ric {
        integer::encoded((base - ric) as nat, 7, 0)
    } else {
        integer::encoded((ric - base - 1) as nat, 7, 0x80)
    }
}

/// The Required Insert Count, the Base and the length of the field section
/// prefix that `s` starts with.
pub open spec fn parse_prefix(s: Seq<u8>, max_capacity: nat, inserted: nat) -> Option<
    (nat, nat, nat),
> {
    match integer::parse(s, 8) {
        Some((wrapped, n)) => match unwrap_count(wrapped as nat, max_capacity, inserted) {
            Some(ric) => match integer::parse(s.skip(n as int), 7) {
                Some((delta, m)) => {
                    let base = if s[n as int] >= 0x80 {
                        ric - delta - 1
                    } else {
                        ric + delta
                    };
                    if 0 <= base <= u64::MAX {
                        Some((ric, base as nat, n + m))
                    } else {
                        None
                    }
                },
                None => None,
            },
            None => None,
        },
        None => None,
    }
}

/// The field lines of an encoded field section whose Required Insert Count has
/// been reached: that count must be what the references take (RFC 9204
/// Section 2.1.2).
pub open spec fn decode_section(t: Table, max_capacity: nat, s: Seq<u8>) -> Option<Seq<Field>> {
    match parse_prefix(s, max_capacity, t.inserted) {
        Some((ric, base, n)) => match decode_lines(t, base, s.skip(n as int)) {
            Some((list, need)) => if need == ric {
                Some(list)
            } else {
                None
            },
            None => None,
        },
        None => None,
    }
}

/// An encoder stream instruction (RFC 9204 Section 4.3).
pub enum Instruction {
    SetCapacity { capacity: nat },
    InsertNameRef { fixed: bool, index: nat, value: Seq<u8> },
    InsertLiteral { name: Seq<u8>, value: Seq<u8> },
    Duplicate { index: nat },
}

/// An instruction that 64-bit indices and lengths can represent.
pub open spec fn instruction_fits(i: Instruction) -> bool {
    match i {
        Instruction::SetCapacity { capacity } => capacity <= u64::MAX,
        Instruction::InsertNameRef { index, value, .. } => index <= u64::MAX && value.len()
            <= u64::MAX,
        Instruction::InsertLiteral { name, value } => name.len() <= u64::MAX && value.len()
            <= u64::MAX,
        Instruction::Duplicate { index } => index <= u64::MAX,
    }
}

/// The spelling of an encoder stream instruction.
pub open spec fn instruction_octets(i: Instruction, compress: bool) -> Seq<u8> {
    match i {
        Instruction::SetCapacity { capacity } => integer::encoded(capacity, 5, SET_CAPACITY),
        Instruction::InsertNameRef { fixed, index, value } => integer::encoded(
            index,
            6,
            (INSERT_WITH_NAME_REF + flag(fixed, 0x40)) as u8,
        ) + string::literal(value, 8, 0, compress),
        Instruction::InsertLiteral { name, value } => string::literal(
            name,
            6,
            INSERT_WITH_LITERAL_NAME,
            compress,
        ) + string::literal(value, 8, 0, compress),
        Instruction::Duplicate { index } => integer::encoded(index, 5, DUPLICATE),
    }
}

/// The encoder stream instruction that `s` starts with.
pub open spec fn parse_instruction(s: Seq<u8>) -> Option<Instruction> {
    if s.len() == 0 {
        None
    } else if s[0] >= 0x80 {
        match integer::parse(s, 6) {
            Some((index, n)) => match string::parse(s.skip(n as int), 8) {
                Some((value, _)) => Some(
                    Instruction::InsertNameRef {
                        fixed: s[0] >= 0xC0,
                        index: index as nat,
                        value,
                    },
                ),
                None => None,
            },
            None => None,
        }
    } else if s[0] >= 0x40 {
        match string::parse(s, 6) {
            Some((name, n)) => match string::parse(s.skip(n as int), 8) {
                Some((value, _)) => Some(Instruction::InsertLiteral { name, value }),
                None => None,
            },
            None => None,
        }
    } else {
        match integer::parse(s, 5) {
            Some((v, _)) => if s[0] >= 0x20 {
                Some(Instruction::SetCapacity { capacity: v as nat })
            } else {
                Some(Instruction::Duplicate { index: v as nat })
            },
            None => None,
        }
    }
}

/// The length of the string literal that `s` starts with, where `s` holds all
/// of it.
pub open spec fn string_length(s: Seq<u8>, bits: u8) -> Option<nat> {
    match integer::parse(s, (bits - 1) as u8) {
        Some((len, n)) => if n + len <= s.len() {
            Some((n + len) as nat)
        } else {
            None
        },
        None => None,
    }
}

/// The length of the encoder stream instruction that `s` starts with, where
/// `s` holds all of it.
pub open spec fn instruction_length(s: Seq<u8>) -> Option<nat> {
    if s.len() == 0 {
        None
    } else if s[0] >= 0x80 {
        match integer::read(s, 6) {
            Some((_, n)) => match string_length(s.skip(n as int), 8) {
                Some(m) => Some(n + m),
                None => None,
            },
            None => None,
        }
    } else if s[0] >= 0x40 {
        match string_length(s, 6) {
            Some(n) => match string_length(s.skip(n as int), 8) {
                Some(m) => Some(n + m),
                None => None,
            },
            None => None,
        }
    } else {
        match integer::read(s, 5) {
            Some((_, n)) => Some(n),
            None => None,
        }
    }
}

/// The table with `f` inserted, unless `f` does not fit or an entry at or
/// above the Known Received Count `known` would be evicted (RFC 9204
/// Sections 2.1.1 and 3.2.2).
pub open spec fn checked_insert(t: Table, known: nat, f: Field) -> Option<Table> {
    if table::size_of(f) <= t.capacity && t.dropped() + t.evicted_by_insert(table::size_of(f)) <= known {
        Some(t.insert(f))
    } else {
        None
    }
}

/// The table after an encoder stream instruction, or `None` where the
/// instruction breaks a table constraint.
pub open spec fn apply(t: Table, max_capacity: nat, known: nat, i: Instruction) -> Option<Table> {
    match i {
        Instruction::SetCapacity { capacity } => if capacity <= max_capacity && t.dropped()
            + t.evicted_by_capacity(capacity) <= known {
            Some(t.with_capacity(capacity))
        } else {
            None
        },
        Instruction::InsertNameRef { fixed, index, value } => if fixed {
            if index < static_table::STATIC_TABLE_SIZE {
                checked_insert(t, known, (static_table::entry(index).0, value))
            } else {
                None
            }
        } else {
            match t.lookup(t.inserted - 1 - index) {
                Some(f) => checked_insert(t, known, (f.0, value)),
                None => None,
            }
        },
        Instruction::InsertLiteral { name, value } => checked_insert(t, known, (name, value)),
        Instruction::Duplicate { index } => match t.lookup(t.inserted - 1 - index) {
            Some(f) => checked_insert(t, known, f),
            None => None,
        },
    }
}

/// Where a run of encoder stream instructions ends: the table, the octets
/// behind the last complete instruction, and whether an instruction failed.
pub struct Run {
    pub table: Table,
    pub rest: Seq<u8>,
    pub failed: bool,
}

/// A bound on the length of an encoder stream instruction: what the table can
/// hold, and some more.
pub open spec fn longest_instruction(max_capacity: nat) -> nat {
    if max_capacity + ENCODER_STREAM_SLACK <= u64::MAX {
        max_capacity + ENCODER_STREAM_SLACK as nat
    } else {
        u64::MAX as nat
    }
}

/// Applies the complete instructions that `s` starts with, up to the first
/// that fails. One that is too long fails.
pub open spec fn run(t: Table, max_capacity: nat, known: nat, s: Seq<u8>) -> Run
    decreases s.len(),
{
    match instruction_length(s) {
        Some(n) => if n > longest_instruction(max_capacity) {
            Run { table: t, rest: s, failed: true }
        } else if 1 <= n <= s.len() {
            match parse_instruction(s.take(n as int)) {
                Some(i) => match apply(t, max_capacity, known, i) {
                    Some(t2) => run(t2, max_capacity, known, s.skip(n as int)),
                    None => Run { table: t, rest: s, failed: true },
                },
                None => Run { table: t, rest: s, failed: true },
            }
        } else {
            Run { table: t, rest: s, failed: false }
        },
        None => Run { table: t, rest: s, failed: false },
    }
}

/// A decoder stream instruction (RFC 9204 Section 4.4).
pub enum Ack {
    Section { stream_id: u64 },
    Cancel { stream_id: u64 },
    Increment { count: u64 },
}

/// The spelling of a decoder stream instruction.
pub open spec fn ack_octets(a: Ack) -> Seq<u8> {
    match a {
        Ack::Section { stream_id } => integer::encoded(stream_id as nat, 7, SECTION_ACK),
        Ack::Cancel { stream_id } => integer::encoded(stream_id as nat, 6, STREAM_CANCELLATION),
        Ack::Increment { count } => integer::encoded(count as nat, 6, INSERT_COUNT_INCREMENT),
    }
}

/// The prefix size of the decoder stream instruction that starts with `octet`.
pub open spec fn ack_bits(octet: u8) -> u8 {
    if octet >= 0x80 {
        7
    } else {
        6
    }
}

/// The decoder stream instruction that `s` starts with.
pub open spec fn parse_ack(s: Seq<u8>) -> Option<Ack> {
    if s.len() == 0 {
        None
    } else {
        match integer::parse(s, ack_bits(s[0])) {
            Some((v, _)) => Some(
                if s[0] >= 0x80 {
                    Ack::Section { stream_id: v }
                } else if s[0] >= 0x40 {
                    Ack::Cancel { stream_id: v }
                } else {
                    Ack::Increment { count: v }
                },
            ),
            None => None,
        }
    }
}

/// The length of the decoder stream instruction that `s` starts with, where
/// `s` holds all of it.
pub open spec fn ack_length(s: Seq<u8>) -> Option<nat> {
    if s.len() == 0 {
        None
    } else {
        match integer::read(s, ack_bits(s[0])) {
            Some((_, n)) => Some(n),
            None => None,
        }
    }
}

/// An accepted instruction keeps the table valid, within the advertised
/// capacity, and free of evictions at or above the Known Received Count; it
/// inserts at most one entry.
pub proof fn lemma_apply(t: Table, max_capacity: nat, known: nat, i: Instruction)
    requires
        t.valid(),
        t.capacity <= max_capacity,
        t.dropped() <= known,
        apply(t, max_capacity, known, i) is Some,
    ensures
        ({
            let t2 = apply(t, max_capacity, known, i).unwrap();
            &&& t2.valid()
            &&& t2.capacity <= max_capacity
            &&& t.dropped() <= t2.dropped() <= known
            &&& t.inserted <= t2.inserted <= t.inserted + 1
        }),
{
    match i {
        Instruction::SetCapacity { capacity } => {
            table::lemma_with_capacity(t, capacity);
        },
        Instruction::InsertNameRef { fixed, index, value } => {
            if fixed {
                table::lemma_insert(t, (static_table::entry(index).0, value));
            } else {
                table::lemma_insert(t, (t.at(t.inserted - 1 - index).0, value));
            }
        },
        Instruction::InsertLiteral { name, value } => {
            table::lemma_insert(t, (name, value));
        },
        Instruction::Duplicate { index } => {
            table::lemma_insert(t, t.at(t.inserted - 1 - index));
        },
    }
}

/// Reading a spelled field line gives the field line back.
pub proof fn lemma_line_round_trip(l: Line, never: bool, compress: bool, rest: Seq<u8>)
    requires
        line_fits(l),
    ensures
        parse_line(line_octets(l, never, compress) + rest) == Some(
            (l, line_octets(l, never, compress).len()),
        ),
        line_octets(l, never, compress).len() >= 1,
{
    let s = line_octets(l, never, compress) + rest;
    match l {
        Line::Indexed { fixed, index } => {
            integer::lemma_integer_round_trip(
                index as u64,
                6,
                (INDEXED + flag(fixed, 0x40)) as u8,
                rest,
            );
        },
        Line::PostBase { index } => {
            integer::lemma_integer_round_trip(index as u64, 4, INDEXED_POST_BASE, rest);
        },
        Line::NameRef { fixed, index, value } => {
            let h = (LITERAL_NAME_REF + flag(never, 0x20) + flag(fixed, 0x10)) as u8;
            let e = integer::encoded(index, 4, h);
            let v = string::literal(value, 8, 0, compress);
            integer::lemma_integer_round_trip(index as u64, 4, h, v + rest);
            string::lemma_string_round_trip(value, 8, 0, compress, rest);
            assert(s =~= e + (v + rest));
            assert(s.skip(e.len() as int) =~= v + rest);
        },
        Line::PostBaseNameRef { index, value } => {
            let h = (LITERAL_POST_BASE_NAME_REF + flag(never, 0x08)) as u8;
            let e = integer::encoded(index, 3, h);
            let v = string::literal(value, 8, 0, compress);
            integer::lemma_integer_round_trip(index as u64, 3, h, v + rest);
            string::lemma_string_round_trip(value, 8, 0, compress, rest);
            assert(s =~= e + (v + rest));
            assert(s.skip(e.len() as int) =~= v + rest);
        },
        Line::Literal { name, value } => {
            let h = (LITERAL_LITERAL_NAME + flag(never, 0x10)) as u8;
            let e = string::literal(name, 4, h, compress);
            let v = string::literal(value, 8, 0, compress);
            string::lemma_string_round_trip(name, 4, h, compress, v + rest);
            string::lemma_string_round_trip(value, 8, 0, compress, rest);
            assert(s =~= e + (v + rest));
            assert(s.skip(e.len() as int) =~= v + rest);
        },
    }
}

proof fn lemma_string_length(s: Seq<u8>, bits: u8)
    requires
        2 <= bits <= 8,
        string::parse(s, bits) is Some,
    ensures
        string_length(s, bits) == Some(string::parse(s, bits).unwrap().1),
        1 <= string_length(s, bits).unwrap() <= s.len(),
{
    reveal(string::parse);
    reveal(integer::parse);
    integer::lemma_read_prefix(s, Seq::empty(), (bits - 1) as u8);
}

/// Reading a spelled encoder stream instruction gives the instruction back,
/// and its length.
pub proof fn lemma_instruction_round_trip(i: Instruction, compress: bool, rest: Seq<u8>)
    requires
        instruction_fits(i),
    ensures
        parse_instruction(instruction_octets(i, compress)) == Some(i),
        instruction_length(instruction_octets(i, compress) + rest) == Some(
            instruction_octets(i, compress).len(),
        ),
        instruction_octets(i, compress).len() >= 1,
{
    let o = instruction_octets(i, compress);
    let s = o + rest;
    assert(o + Seq::<u8>::empty() =~= o);
    match i {
        Instruction::SetCapacity { capacity } => {
            integer::lemma_integer_round_trip(capacity as u64, 5, SET_CAPACITY, rest);
            integer::lemma_integer_round_trip(capacity as u64, 5, SET_CAPACITY, Seq::empty());
        },
        Instruction::InsertNameRef { fixed, index, value } => {
            let h = (INSERT_WITH_NAME_REF + flag(fixed, 0x40)) as u8;
            let e = integer::encoded(index, 6, h);
            let v = string::literal(value, 8, 0, compress);
            integer::lemma_integer_round_trip(index as u64, 6, h, v + rest);
            integer::lemma_integer_round_trip(index as u64, 6, h, v);
            string::lemma_string_round_trip(value, 8, 0, compress, rest);
            string::lemma_string_round_trip(value, 8, 0, compress, Seq::empty());
            assert(v + Seq::<u8>::empty() =~= v);
            assert(s =~= e + (v + rest));
            assert(s.skip(e.len() as int) =~= v + rest);
            assert(o.skip(e.len() as int) =~= v);
            lemma_string_length(v + rest, 8);
        },
        Instruction::InsertLiteral { name, value } => {
            let e = string::literal(name, 6, INSERT_WITH_LITERAL_NAME, compress);
            let v = string::literal(value, 8, 0, compress);
            string::lemma_string_round_trip(
                name,
                6,
                INSERT_WITH_LITERAL_NAME,
                compress,
                v + rest,
            );
            string::lemma_string_round_trip(name, 6, INSERT_WITH_LITERAL_NAME, compress, v);
            string::lemma_string_round_trip(value, 8, 0, compress, rest);
            string::lemma_string_round_trip(value, 8, 0, compress, Seq::empty());
            assert(v + Seq::<u8>::empty() =~= v);
            assert(s =~= e + (v + rest));
            assert(s.skip(e.len() as int) =~= v + rest);
            assert(o.skip(e.len() as int) =~= v);
            lemma_string_length(e + (v + rest), 6);
            lemma_string_length(v + rest, 8);
        },
        Instruction::Duplicate { index } => {
            integer::lemma_integer_round_trip(index as u64, 5, DUPLICATE, rest);
            integer::lemma_integer_round_trip(index as u64, 5, DUPLICATE, Seq::empty());
        },
    }
}

/// Reading a spelled decoder stream instruction gives the instruction back,
/// and its length.
pub proof fn lemma_ack_round_trip(a: Ack, rest: Seq<u8>)
    ensures
        parse_ack(ack_octets(a)) == Some(a),
        ack_length(ack_octets(a) + rest) == Some(ack_octets(a).len()),
        ack_octets(a).len() >= 1,
{
    let o = ack_octets(a);
    assert(o + Seq::<u8>::empty() =~= o);
    match a {
        Ack::Section { stream_id } => {
            integer::lemma_integer_round_trip(stream_id, 7, SECTION_ACK, rest);
            integer::lemma_integer_round_trip(stream_id, 7, SECTION_ACK, Seq::empty());
        },
        Ack::Cancel { stream_id } => {
            integer::lemma_integer_round_trip(stream_id, 6, STREAM_CANCELLATION, rest);
            integer::lemma_integer_round_trip(stream_id, 6, STREAM_CANCELLATION, Seq::empty());
        },
        Ack::Increment { count } => {
            integer::lemma_integer_round_trip(count, 6, INSERT_COUNT_INCREMENT, rest);
            integer::lemma_integer_round_trip(count, 6, INSERT_COUNT_INCREMENT, Seq::empty());
        },
    }
}

/// A wrapped Required Insert Count is recovered by a decoder whose insert
/// count is within `MaxEntries` of it (RFC 9204 Section 4.5.1.1).
pub proof fn lemma_count_round_trip(ric: nat, max_capacity: nat, inserted: nat)
    requires
        max_capacity >= 32,
        ric > 0 ==> inserted - max_entries(max_capacity) < ric <= inserted + max_entries(
            max_capacity,
        ),
    ensures
        unwrap_count(wrap_count(ric, max_capacity), max_capacity, inserted) == Some(ric),
{
    let m = max_entries(max_capacity);
    let full = 2 * m;
    if ric > 0 {
        let max_value = inserted + m;
        let w = wrap_count(ric, max_capacity);
        let rem = max_value % full;
        let r = ric % full;
        assert(0 <= rem < full && 0 <= r < full) by (nonlinear_arith)
            requires
                full > 0,
                rem == max_value % full,
                r == ric % full,
        ;
        let d = max_value - ric;
        let guess = max_value - rem + r;
        assert(rem >= r ==> rem - r == d) by (nonlinear_arith)
            requires
                0 <= d < full,
                d == max_value - ric,
                full > 0,
                rem == max_value % full,
                r == ric % full,
        ;
        assert(rem < r ==> rem + full - r == d) by (nonlinear_arith)
            requires
                0 <= d < full,
                d == max_value - ric,
                full > 0,
                rem == max_value % full,
                r == ric % full,
        ;
    }
}

/// Reading a spelled field section prefix gives the Required Insert Count and
/// the Base back.
pub proof fn lemma_prefix_round_trip(
    ric: nat,
    base: nat,
    max_capacity: nat,
    inserted: nat,
    rest: Seq<u8>,
)
    requires
        max_capacity <= u64::MAX,
        ric <= u64::MAX,
        base <= u64::MAX,
        ric > 0 ==> max_capacity >= 32,
        ric > 0 ==> inserted - max_entries(max_capacity) < ric <= inserted + max_entries(
            max_capacity,
        ),
    ensures
        parse_prefix(prefix_octets(ric, base, max_capacity) + rest, max_capacity, inserted)
            == Some((ric, base, prefix_octets(ric, base, max_capacity).len())),
{
    let s = prefix_octets(ric, base, max_capacity) + rest;
    let w = wrap_count(ric, max_capacity);
    let m = max_entries(max_capacity);
    if ric > 0 {
        lemma_count_round_trip(ric, max_capacity, inserted);
        assert(0 <= ric % (2 * m) < 2 * m) by (nonlinear_arith)
            requires
                m > 0,
        ;
    }
    assert(w <= u64::MAX);
    let a = integer::encoded(w, 8, 0);
    let h: u8 = if base >= ric {
        0
    } else {
        0x80
    };
    let delta = if base >= ric {
        (base - ric) as nat
    } else {
        (ric - base - 1) as nat
    };
    let b = integer::encoded(delta, 7, h);
    integer::lemma_integer_round_trip(w as u64, 8, 0, b + rest);
    integer::lemma_integer_round_trip(delta as u64, 7, h, rest);
    assert(s =~= a + (b + rest));
    assert(s.skip(a.len() as int) =~= b + rest);
    assert(s[a.len() as int] == b[0]);
}

} // verus!
