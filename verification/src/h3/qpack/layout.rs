//! What QPACK looks like on the wire, and what the dynamic table does.
//!
//! The representations of RFC 9204 Sections 4.3 to 4.5 bit by bit, what the
//! references in them stand for, and the size, the order and the eviction of the
//! entries of a dynamic table.

use super::static_table;
use super::table;
use super::table::Table;
use super::wire;
use super::wire::{Ack, Instruction, Line};
use crate::hpack::{integer, string};
use crate::octets::Field;
use vstd::prelude::*;

verus! {

/// The five representations of a field line: their leading bits, their indices and
/// their strings (RFC 9204 Section 4.5).
pub proof fn lemma_line_layout(index: nat, name: Seq<u8>, value: Seq<u8>, never: bool, c: bool)
    ensures
        ({
            let v = string::literal(value, 8, 0, c);
            &&& wire::line_octets(Line::Indexed { fixed: true, index }, never, c)
                == integer::encoded(index, 6, 0xc0)
            &&& wire::line_octets(Line::Indexed { fixed: false, index }, never, c)
                == integer::encoded(index, 6, 0x80)
            &&& wire::line_octets(Line::PostBase { index }, never, c) == integer::encoded(
                index,
                4,
                0x10,
            )
            &&& wire::line_octets(Line::NameRef { fixed: true, index, value }, never, c)
                == integer::encoded(
                index,
                4,
                if never {
                    0x70
                } else {
                    0x50
                },
            ) + v
            &&& wire::line_octets(Line::NameRef { fixed: false, index, value }, never, c)
                == integer::encoded(
                index,
                4,
                if never {
                    0x60
                } else {
                    0x40
                },
            ) + v
            &&& wire::line_octets(Line::PostBaseNameRef { index, value }, never, c)
                == integer::encoded(
                index,
                3,
                if never {
                    0x08
                } else {
                    0x00
                },
            ) + v
            &&& wire::line_octets(Line::Literal { name, value }, never, c) == string::literal(
                name,
                4,
                if never {
                    0x30
                } else {
                    0x20
                },
                c,
            ) + v
        }),
{
}

/// The instructions of the encoder stream and of the decoder stream: their leading
/// bits, their numbers and their strings (RFC 9204 Sections 4.3 and 4.4).
pub proof fn lemma_instruction_layout(n: nat, id: u64, name: Seq<u8>, value: Seq<u8>, c: bool)
    ensures
        wire::instruction_octets(Instruction::SetCapacity { capacity: n }, c) == integer::encoded(
            n,
            5,
            0x20,
        ),
        wire::instruction_octets(Instruction::InsertNameRef { fixed: true, index: n, value }, c)
            == integer::encoded(n, 6, 0xc0) + string::literal(value, 8, 0, c),
        wire::instruction_octets(Instruction::InsertNameRef { fixed: false, index: n, value }, c)
            == integer::encoded(n, 6, 0x80) + string::literal(value, 8, 0, c),
        wire::instruction_octets(Instruction::InsertLiteral { name, value }, c) == string::literal(
            name,
            6,
            0x40,
            c,
        ) + string::literal(value, 8, 0, c),
        wire::instruction_octets(Instruction::Duplicate { index: n }, c) == integer::encoded(
            n,
            5,
            0x00,
        ),
        wire::ack_octets(Ack::Section { stream_id: id }) == integer::encoded(id as nat, 7, 0x80),
        wire::ack_octets(Ack::Cancel { stream_id: id }) == integer::encoded(id as nat, 6, 0x40),
        wire::ack_octets(Ack::Increment { count: id }) == integer::encoded(id as nat, 6, 0x00),
{
}

/// The prefix of a section (RFC 9204 Section 4.5.1): the Required Insert Count
/// modulo twice the number of entries that the table can hold, plus one, or zero;
/// and the distance of the Base from it, with its sign.
pub proof fn lemma_prefix_layout(ric: nat, base: nat, max_capacity: nat)
    ensures
        ({
            let most = max_capacity / 32;
            let count = if ric == 0 || most == 0 {
                0
            } else {
                ric % (2 * most) + 1
            };
            wire::prefix_octets(ric, base, max_capacity) == integer::encoded(count, 8, 0x00)
                + if base >= ric {
                integer::encoded((base - ric) as nat, 7, 0x00)
            } else {
                integer::encoded((ric - base - 1) as nat, 7, 0x80)
            }
        }),
{
}

/// What a Required Insert Count on the wire stands for: the one count that has that
/// remainder and lies within the entries that a table can hold of what was
/// inserted; and it is refused where there is none above zero.
pub proof fn lemma_counts_are_unwrapped(wrapped: nat, max_capacity: nat, inserted: nat)
    ensures
        ({
            let most = max_capacity / 32;
            let r = wire::unwrap_count(wrapped, max_capacity, inserted);
            &&& wrapped == 0 || most == 0 ==> r == Some(0nat)
            &&& most > 0 && wrapped > 2 * most ==> r is None
            &&& most > 0 && 0 < wrapped <= 2 * most ==> {
                &&& r matches Some(ric) ==> ric > 0 && ric % (2 * most) == wrapped - 1 && ric
                    <= inserted + most && ric + most > inserted
                &&& r is None ==> forall|ric: nat|
                    0 < ric <= inserted + most && ric + most > inserted ==> #[trigger] (ric % (2
                        * most)) != wrapped - 1
            }
        }),
{
    let most = max_capacity / 32;
    if most > 0 && 0 < wrapped <= 2 * most {
        let full: int = 2 * most as int;
        let top: int = inserted as int + most as int;
        let floor = top - top % full;
        let guess = floor + wrapped - 1;
        assert(floor == full * (top / full)) by (nonlinear_arith)
            requires
                full > 0,
                floor == top - top % full,
        ;
        assert(0 <= top % full < full) by (nonlinear_arith)
            requires
                full > 0,
        ;
        let ric = if guess > top {
            guess - full
        } else {
            guess
        };
        let q = if guess > top {
            top / full - 1
        } else {
            top / full
        };
        assert(ric == full * q + (wrapped - 1)) by (nonlinear_arith)
            requires
                floor == full * (top / full),
                guess == floor + wrapped - 1,
                ric == if guess > top {
                    guess - full
                } else {
                    guess
                },
                q == if guess > top {
                    top / full - 1
                } else {
                    top / full
                },
        ;
        lemma_remainder(ric, full, q, wrapped - 1);
        if ric <= 0 {
            assert forall|other: nat|
                0 < other <= inserted + most && other + most > inserted implies #[trigger] (other % (
            2 * most)) != wrapped - 1 by {
                if other as int % full == wrapped - 1 {
                    let p = other as int / full;
                    assert(other == full * p + (wrapped - 1)) by (nonlinear_arith)
                        requires
                            full > 0,
                            p == other as int / full,
                            other as int % full == wrapped - 1,
                    ;
                    assert(p == q) by (nonlinear_arith)
                        requires
                            full > 0,
                            other == full * p + (wrapped - 1),
                            ric == full * q + (wrapped - 1),
                            top - full < other <= top,
                            top - full < ric <= top,
                    ;
                }
            }
        }
    }
}

proof fn lemma_remainder(x: int, m: int, q: int, r: int)
    requires
        m > 0,
        x == m * q + r,
        0 <= r < m,
    ensures
        x % m == r,
{
    assert(m * q == q * m) by (nonlinear_arith);
    vstd::arithmetic::div_mod::lemma_fundamental_div_mod_converse(x, m, q, r);
}

/// What the references in field lines stand for: an index counts back from the
/// Base, a post-Base index counts on from it, and a static one is an index into the
/// static table; the field is the entry there, with its own value or the one given.
/// A section needs as many insertions as take the entry in.
pub proof fn lemma_references(t: Table, base: nat, index: nat, name: Seq<u8>, value: Seq<u8>)
    ensures
        ({
            let back = base - 1 - index;
            let on = base + index;
            let there = |abs: int| t.inserted - t.entries.len() <= abs < t.inserted;
            let entry = |abs: int| t.entries[abs - (t.inserted - t.entries.len())];
            &&& wire::resolve(t, base, Line::Indexed { fixed: false, index }) == if there(back) {
                Some((entry(back), (back + 1) as nat))
            } else {
                None
            }
            &&& wire::resolve(t, base, Line::NameRef { fixed: false, index, value }) == if there(
                back,
            ) {
                Some(((entry(back).0, value), (back + 1) as nat))
            } else {
                None
            }
            &&& wire::resolve(t, base, Line::PostBase { index }) == if there(on as int) {
                Some((entry(on as int), on + 1))
            } else {
                None
            }
            &&& wire::resolve(t, base, Line::PostBaseNameRef { index, value }) == if there(
                on as int,
            ) {
                Some(((entry(on as int).0, value), on + 1))
            } else {
                None
            }
            &&& wire::resolve(t, base, Line::Indexed { fixed: true, index }) == if index < 99 {
                Some((static_table::entry(index), 0nat))
            } else {
                None
            }
            &&& wire::resolve(t, base, Line::NameRef { fixed: true, index, value }) == if index
                < 99 {
                Some(((static_table::entry(index).0, value), 0nat))
            } else {
                None
            }
            &&& wire::resolve(t, base, Line::Literal { name, value }) == Some(((name, value), 0nat))
        }),
{
}

/// What the instructions of the encoder stream do: a capacity that is allowed is
/// set, and a field is inserted as it is given, or with the name, or both, of the
/// entry that the index counts back to from the newest, or of the static entry;
/// unless it does not fit, or the entry is not there, or something would be evicted
/// that is not acknowledged.
pub proof fn lemma_instructions_are_applied(
    t: Table,
    max_capacity: nat,
    known: nat,
    n: nat,
    name: Seq<u8>,
    value: Seq<u8>,
)
    ensures
        ({
            let newest_back = t.inserted - 1 - n;
            let there = t.inserted - t.entries.len() <= newest_back < t.inserted;
            let entry = t.entries[t.entries.len() - 1 - n];
            let put = |f: Field|
                if f.0.len() + f.1.len() + 32 <= t.capacity && t.insert(f).dropped() <= known {
                    Some(t.insert(f))
                } else {
                    None
                };
            let run = |i: Instruction| wire::apply(t, max_capacity, known, i);
            t.valid() ==> {
                &&& run(Instruction::InsertLiteral { name, value }) == put((name, value))
                &&& run(Instruction::InsertNameRef { fixed: false, index: n, value }) == if there {
                    put((entry.0, value))
                } else {
                    None
                }
                &&& run(Instruction::Duplicate { index: n }) == if there {
                    put(entry)
                } else {
                    None
                }
                &&& run(Instruction::InsertNameRef { fixed: true, index: n, value }) == if n < 99 {
                    put((static_table::entry(n).0, value))
                } else {
                    None
                }
                &&& run(Instruction::SetCapacity { capacity: n }) == if n <= max_capacity
                    && t.with_capacity(n).dropped() <= known {
                    Some(t.with_capacity(n))
                } else {
                    None
                }
            }
        }),
{
    if t.valid() {
        table::lemma_with_capacity(t, n);
        let a = (name, value);
        if table::size_of(a) <= t.capacity {
            table::lemma_insert(t, a);
        }
        let entry = t.entries[t.entries.len() - 1 - n];
        let b = (entry.0, value);
        if table::size_of(b) <= t.capacity {
            table::lemma_insert(t, b);
        }
        if table::size_of(entry) <= t.capacity {
            table::lemma_insert(t, entry);
        }
        let c = (static_table::entry(n).0, value);
        if table::size_of(c) <= t.capacity {
            table::lemma_insert(t, c);
        }
    }
}

/// The size of entries: 32 octets and those of its name and its value for each.
pub proof fn lemma_sizes(a: Seq<Field>, b: Seq<Field>, f: Field)
    ensures
        table::size_of(f) == f.0.len() + f.1.len() + 32,
        table::total_size(Seq::empty()) == 0,
        table::total_size(seq![f]) == f.0.len() + f.1.len() + 32,
        table::total_size(a + b) == table::total_size(a) + table::total_size(b),
    decreases a.len(),
{
    assert(seq![f].skip(1) =~= Seq::empty());
    assert(table::total_size(seq![f].skip(1)) == 0);
    if a.len() == 0 {
        assert(a + b =~= b);
    } else {
        lemma_sizes(a.skip(1), b, f);
        assert((a + b).skip(1) =~= a.skip(1) + b);
        assert((a + b)[0] == a[0]);
    }
}

/// As few entries are evicted as will do, the oldest first.
pub proof fn lemma_evictions_are_fewest(entries: Seq<Field>, max: nat)
    ensures
        ({
            let n = table::evictions(entries, max);
            &&& n <= entries.len()
            &&& table::total_size(entries.skip(n as int)) <= max
            &&& forall|k: int|
                0 <= k < n ==> table::total_size(#[trigger] entries.skip(k)) > max
        }),
    decreases entries.len(),
{
    if entries.len() == 0 || table::total_size(entries) <= max {
        assert(entries.skip(0) =~= entries);
    } else {
        let rest = entries.skip(1);
        lemma_evictions_are_fewest(rest, max);
        let n = table::evictions(rest, max);
        assert(entries.skip(n as int + 1) =~= rest.skip(n as int));
        assert forall|k: int| 0 <= k < n + 1 implies table::total_size(#[trigger] entries.skip(k))
            > max by {
            if k == 0 {
                assert(entries.skip(0) =~= entries);
            } else {
                assert(entries.skip(k) =~= rest.skip(k - 1));
            }
        }
    }
}

/// What an insertion does: the entry joins as the newest, as few of the oldest as
/// will do make room for it, the others stay as they are, and one more is counted.
pub proof fn lemma_insertions(t: Table, f: Field)
    requires
        t.valid(),
        f.0.len() + f.1.len() + 32 <= t.capacity,
    ensures
        ({
            let after = t.insert(f);
            let n = t.entries.len() + 1 - after.entries.len();
            &&& 0 <= n <= t.entries.len()
            &&& after.entries == t.entries.skip(n).push(f)
            &&& after.inserted == t.inserted + 1
            &&& after.capacity == t.capacity
            &&& table::total_size(after.entries) <= t.capacity
            &&& n > 0 ==> table::total_size(t.entries.skip(n - 1).push(f)) > t.capacity
        }),
{
    let size = table::size_of(f);
    let room = (t.capacity - size) as nat;
    lemma_evictions_are_fewest(t.entries, room);
    let n = table::evictions(t.entries, room) as int;
    lemma_sizes(t.entries.skip(n), seq![f], f);
    assert(t.entries.skip(n) + seq![f] =~= t.entries.skip(n).push(f));
    if n > 0 {
        lemma_sizes(t.entries.skip(n - 1), seq![f], f);
        assert(t.entries.skip(n - 1) + seq![f] =~= t.entries.skip(n - 1).push(f));
    }
}

/// What a change of capacity does: as few of the oldest entries as will do go, and
/// nothing is counted.
pub proof fn lemma_capacities(t: Table, capacity: nat)
    ensures
        ({
            let after = t.with_capacity(capacity);
            let n = t.entries.len() - after.entries.len();
            &&& 0 <= n <= t.entries.len()
            &&& after.entries == t.entries.skip(n)
            &&& after.inserted == t.inserted
            &&& after.capacity == capacity
            &&& table::total_size(after.entries) <= capacity
            &&& n > 0 ==> table::total_size(t.entries.skip(n - 1)) > capacity
        }),
{
    lemma_evictions_are_fewest(t.entries, capacity);
}

/// A search finds the newest entry that matches, and one wherever there is one.
pub proof fn lemma_searches(t: Table, f: Field)
    ensures
        match t.find(f) {
            Some(abs) => {
                &&& t.inserted - t.entries.len() <= abs < t.inserted
                &&& t.entries[abs - (t.inserted - t.entries.len())] == f
                &&& forall|i: int|
                    abs - (t.inserted - t.entries.len()) < i < t.entries.len()
                        ==> #[trigger] t.entries[i] != f
            },
            None => forall|i: int| 0 <= i < t.entries.len() ==> #[trigger] t.entries[i] != f,
        },
        match t.find_named(f.0) {
            Some(abs) => {
                &&& t.inserted - t.entries.len() <= abs < t.inserted
                &&& t.entries[abs - (t.inserted - t.entries.len())].0 == f.0
                &&& forall|i: int|
                    abs - (t.inserted - t.entries.len()) < i < t.entries.len() ==> (
                    #[trigger] t.entries[i]).0 != f.0
            },
            None => forall|i: int| 0 <= i < t.entries.len() ==> (#[trigger] t.entries[i]).0 != f.0,
        },
{
    lemma_newest(t.entries, f);
    lemma_newest_named(t.entries, f.0);
}

proof fn lemma_newest(entries: Seq<Field>, f: Field)
    ensures
        match table::newest(entries, f) {
            Some(k) => k < entries.len() && entries[k as int] == f && forall|i: int|
                k < i < entries.len() ==> #[trigger] entries[i] != f,
            None => forall|i: int| 0 <= i < entries.len() ==> #[trigger] entries[i] != f,
        },
    decreases entries.len(),
{
    if entries.len() > 0 && entries.last() != f {
        let less = entries.drop_last();
        lemma_newest(less, f);
        assert forall|i: int|
            (match table::newest(entries, f) {
                Some(k) => k as int,
                None => -1,
            }) < i < entries.len() implies #[trigger] entries[i] != f by {
            if i < less.len() {
                assert(less[i] == entries[i]);
            }
        }
    }
}

proof fn lemma_newest_named(entries: Seq<Field>, name: Seq<u8>)
    ensures
        match table::newest_named(entries, name) {
            Some(k) => k < entries.len() && entries[k as int].0 == name && forall|i: int|
                k < i < entries.len() ==> (#[trigger] entries[i]).0 != name,
            None => forall|i: int| 0 <= i < entries.len() ==> (#[trigger] entries[i]).0 != name,
        },
    decreases entries.len(),
{
    if entries.len() > 0 && entries.last().0 != name {
        let less = entries.drop_last();
        lemma_newest_named(less, name);
        assert forall|i: int|
            (match table::newest_named(entries, name) {
                Some(k) => k as int,
                None => -1,
            }) < i < entries.len() implies (#[trigger] entries[i]).0 != name by {
            if i < less.len() {
                assert(less[i] == entries[i]);
            }
        }
    }
}

/// A lookup by absolute index finds the entry that was inserted as that one, as
/// long as it is there; and an empty table has none.
pub proof fn lemma_lookups(t: Table, abs: int, capacity: nat)
    ensures
        t.lookup(abs) == if t.inserted - t.entries.len() <= abs < t.inserted {
            Some(t.entries[abs - (t.inserted - t.entries.len())])
        } else {
            None
        },
        Table::empty(capacity).entries.len() == 0,
        Table::empty(capacity).inserted == 0,
        Table::empty(capacity).capacity == capacity,
{
}

} // verus!
