//! QPACK dynamic table (RFC 9204 Section 3.2).
//!
//! The dynamic table is a FIFO list of field lines shared between the encoder
//! and the decoder. Entries are added at the insertion point and evicted from
//! the dropping point (oldest first) to keep the table size within its
//! capacity. The size of an entry is the sum of its name length, its value
//! length, and 32 additional octets (Section 3.2.1).
//!
//! Absolute indices are fixed for the lifetime of an entry; relative and
//! post-base indices are computed from the context (most-recent insertion for
//! encoder-stream instructions, the field section's Base for field line
//! representations). The table itself is context-free: callers translate
//! indices via the lookup helpers.
//!
//! The dynamic table can contain duplicate entries, and entries can have empty
//! values; neither is an error (Section 3.2).

use crate::octets::{as_slice, same, Field};
use bytes::Bytes;
use std::collections::VecDeque;
use vstd::prelude::*;

verus! {

/// A bound on the insertions a dynamic table sees: an encoder stream carries
/// fewer than 2^62 octets (RFC 9000 Section 4.5), and an insertion takes at
/// least one.
pub const MAX_INSERTIONS: u64 = 0x4000_0000_0000_0000;

/// Error returned when an entry cannot be inserted.
#[derive(Debug, Clone, Copy, PartialEq, Eq, Structural)]
pub enum InsertError {
    /// The entry (name + value + 32) is larger than the table capacity.
    EntryTooLarge,
}

/// The size of an entry (RFC 9204 Section 3.2.1).
pub open spec fn size_of(f: Field) -> nat {
    f.0.len() + f.1.len() + 32
}

/// The size of a list of entries.
pub open spec fn total_size(entries: Seq<Field>) -> nat
    decreases entries.len(),
{
    if entries.len() == 0 {
        0
    } else {
        size_of(entries[0]) + total_size(entries.skip(1))
    }
}

/// The number of entries to drop, oldest first, until the rest takes at most
/// `max`.
pub open spec fn evictions(entries: Seq<Field>, max: nat) -> nat
    decreases entries.len(),
{
    if entries.len() == 0 || total_size(entries) <= max {
        0
    } else {
        1 + evictions(entries.skip(1), max)
    }
}

/// The position of the newest of `entries` that is `f`.
pub open spec fn newest(entries: Seq<Field>, f: Field) -> Option<nat>
    decreases entries.len(),
{
    if entries.len() == 0 {
        None
    } else if entries.last() == f {
        Some((entries.len() - 1) as nat)
    } else {
        newest(entries.drop_last(), f)
    }
}

/// The position of the newest of `entries` that is named `name`.
pub open spec fn newest_named(entries: Seq<Field>, name: Seq<u8>) -> Option<nat>
    decreases entries.len(),
{
    if entries.len() == 0 {
        None
    } else if entries.last().0 == name {
        Some((entries.len() - 1) as nat)
    } else {
        newest_named(entries.drop_last(), name)
    }
}

/// What a dynamic table holds: its entries, oldest first, its capacity, and
/// the number of entries ever inserted.
#[verifier::ext_equal]
pub struct Table {
    pub entries: Seq<Field>,
    pub capacity: nat,
    pub inserted: nat,
}

impl Table {
    /// A table that holds nothing.
    pub open spec fn empty(capacity: nat) -> Table {
        Table { entries: Seq::empty(), capacity, inserted: 0 }
    }

    /// The entries fit in the capacity, and no more are held than inserted.
    pub open spec fn valid(self) -> bool {
        total_size(self.entries) <= self.capacity && self.entries.len() <= self.inserted
    }

    /// The absolute index of the oldest entry: the number of entries evicted.
    pub open spec fn dropped(self) -> int {
        self.inserted - self.entries.len()
    }

    /// Whether the entry with absolute index `abs` is in the table.
    pub open spec fn has(self, abs: int) -> bool {
        self.dropped() <= abs < self.inserted
    }

    /// The entry with absolute index `abs`.
    pub open spec fn at(self, abs: int) -> Field {
        self.entries[abs - self.dropped()]
    }

    /// The entry with absolute index `abs`, where the table holds it.
    pub open spec fn lookup(self, abs: int) -> Option<Field> {
        if self.has(abs) {
            Some(self.at(abs))
        } else {
            None
        }
    }

    /// The table after dropping its `n` oldest entries.
    pub open spec fn drop_oldest(self, n: nat) -> Table {
        Table { entries: self.entries.skip(n as int), ..self }
    }

    /// The number of entries that a capacity of `capacity` evicts.
    pub open spec fn evicted_by_capacity(self, capacity: nat) -> nat {
        evictions(self.entries, capacity)
    }

    /// The number of entries that the insertion of an entry of `size` evicts;
    /// all of them where the entry does not fit.
    pub open spec fn evicted_by_insert(self, size: nat) -> nat {
        evictions(
            self.entries,
            if size <= self.capacity {
                (self.capacity - size) as nat
            } else {
                0
            },
        )
    }

    /// The table with capacity `capacity`.
    pub open spec fn with_capacity(self, capacity: nat) -> Table {
        Table { capacity, ..self.drop_oldest(self.evicted_by_capacity(capacity)) }
    }

    /// The table with `f` inserted, where `f` fits the capacity.
    pub open spec fn insert(self, f: Field) -> Table {
        let kept = self.drop_oldest(self.evicted_by_insert(size_of(f)));
        Table { entries: kept.entries.push(f), inserted: self.inserted + 1, ..self }
    }

    /// The absolute index of the newest entry that is `f`.
    pub open spec fn find(self, f: Field) -> Option<int> {
        match newest(self.entries, f) {
            Some(i) => Some(self.dropped() + i),
            None => None,
        }
    }

    /// The absolute index of the newest entry named `name`.
    pub open spec fn find_named(self, name: Seq<u8>) -> Option<int> {
        match newest_named(self.entries, name) {
            Some(i) => Some(self.dropped() + i),
            None => None,
        }
    }
}

proof fn lemma_total_size_push(entries: Seq<Field>, f: Field)
    ensures
        total_size(entries.push(f)) == total_size(entries) + size_of(f),
    decreases entries.len(),
{
    let p = entries.push(f);
    if entries.len() == 0 {
        assert(p.skip(1) =~= entries);
    } else {
        lemma_total_size_push(entries.skip(1), f);
        assert(p.skip(1) =~= entries.skip(1).push(f));
        assert(p[0] == entries[0]);
    }
}

/// Eviction drops as few entries as it takes, and never more than there are.
pub proof fn lemma_evictions(entries: Seq<Field>, max: nat)
    ensures
        evictions(entries, max) <= entries.len(),
        total_size(entries.skip(evictions(entries, max) as int)) <= max,
        forall|k: int|
            0 <= k < evictions(entries, max) ==> total_size(#[trigger] entries.skip(k)) > max,
    decreases entries.len(),
{
    if entries.len() == 0 || total_size(entries) <= max {
        assert(entries.skip(0) =~= entries);
    } else {
        let n = evictions(entries, max);
        lemma_evictions(entries.skip(1), max);
        assert(entries.skip(1).skip(n - 1) =~= entries.skip(n as int));
        assert forall|k: int| 0 <= k < n implies total_size(#[trigger] entries.skip(k)) > max by {
            if k == 0 {
                assert(entries.skip(0) =~= entries);
            } else {
                assert(entries.skip(1).skip(k - 1) =~= entries.skip(k));
            }
        }
    }
}

/// A tighter bound evicts at least as many entries.
pub proof fn lemma_evictions_monotone(entries: Seq<Field>, a: nat, b: nat)
    requires
        a <= b,
    ensures
        evictions(entries, b) <= evictions(entries, a),
    decreases entries.len(),
{
    if entries.len() > 0 && total_size(entries) > b {
        lemma_evictions_monotone(entries.skip(1), a, b);
    }
}

/// Each entry takes at least 32 octets of the capacity.
pub proof fn lemma_entry_count(entries: Seq<Field>)
    ensures
        32 * entries.len() <= total_size(entries),
    decreases entries.len(),
{
    if entries.len() > 0 {
        lemma_entry_count(entries.skip(1));
    }
}

/// An insertion keeps the table valid, gives the entry the next absolute
/// index, and moves no entry that stays.
pub proof fn lemma_insert(t: Table, f: Field)
    requires
        t.valid(),
        size_of(f) <= t.capacity,
    ensures
        t.insert(f).valid(),
        t.insert(f).dropped() == t.dropped() + t.evicted_by_insert(size_of(f)),
        t.insert(f).lookup(t.inserted as int) == Some(f),
        forall|abs: int|
            t.insert(f).dropped() <= abs < t.inserted ==> #[trigger] t.insert(f).lookup(abs)
                == t.lookup(abs),
        t.insert(f).dropped() >= t.dropped(),
{
    let max = (t.capacity - size_of(f)) as nat;
    let n = t.evicted_by_insert(size_of(f));
    lemma_evictions(t.entries, max);
    lemma_total_size_push(t.entries.skip(n as int), f);
}

/// A change of capacity keeps the table valid and moves no entry that stays.
pub proof fn lemma_with_capacity(t: Table, capacity: nat)
    requires
        t.valid(),
    ensures
        t.with_capacity(capacity).valid(),
        t.with_capacity(capacity).dropped() == t.dropped() + t.evicted_by_capacity(capacity),
        forall|abs: int|
            t.with_capacity(capacity).dropped() <= abs ==> #[trigger] t.with_capacity(
                capacity,
            ).lookup(abs) == t.lookup(abs),
        capacity >= t.capacity ==> t.with_capacity(capacity) == (Table { capacity, ..t }),
{
    lemma_evictions(t.entries, capacity);
    if capacity >= t.capacity {
        assert(t.entries.skip(0) =~= t.entries);
    }
}

/// What a search finds is an entry of the table.
pub proof fn lemma_find(t: Table, f: Field)
    ensures
        t.find(f) matches Some(abs) ==> t.has(abs) && t.at(abs) == f,
{
    lemma_newest(t.entries, f);
}

proof fn lemma_newest(entries: Seq<Field>, f: Field)
    ensures
        newest(entries, f) matches Some(i) ==> i < entries.len() && entries[i as int] == f,
    decreases entries.len(),
{
    if entries.len() > 0 && entries.last() != f {
        lemma_newest(entries.drop_last(), f);
    }
}

/// What a search by name finds is an entry with that name.
pub proof fn lemma_find_named(t: Table, name: Seq<u8>)
    ensures
        t.find_named(name) matches Some(abs) ==> t.has(abs) && t.at(abs).0 == name,
{
    lemma_newest_named(t.entries, name);
}

proof fn lemma_newest_named(entries: Seq<Field>, name: Seq<u8>)
    ensures
        newest_named(entries, name) matches Some(i) ==> i < entries.len() && entries[i as int].0
            == name,
    decreases entries.len(),
{
    if entries.len() > 0 && entries.last().0 != name {
        lemma_newest_named(entries.drop_last(), name);
    }
}

/// FIFO dynamic table.
#[derive(Debug)]
pub struct DynamicTable {
    /// The entries, oldest first.
    entries: VecDeque<(Bytes, Bytes)>,
    capacity: u64,
    size: u64,
    inserted: u64,
}

impl View for DynamicTable {
    type V = Table;

    closed spec fn view(&self) -> Table {
        Table {
            entries: crate::octets::fields(self.entries@),
            capacity: self.capacity as nat,
            inserted: self.inserted as nat,
        }
    }
}

impl DynamicTable {
    /// The recorded size is that of the entries, it is within the capacity,
    /// and `inserted` counts every entry ever inserted.
    pub closed spec fn wf(&self) -> bool {
        &&& self@.valid()
        &&& self.size == total_size(self@.entries)
    }

    /// What well-formedness says of the view.
    pub proof fn lemma_wf(&self)
        requires
            self.wf(),
        ensures
            self@.valid(),
            self@.capacity <= u64::MAX,
            self@.inserted <= u64::MAX,
    {
    }

    /// Creates an empty table with the given initial `capacity`.
    pub fn new(capacity: u64) -> (r: Self)
        ensures
            r.wf(),
            r@ == Table::empty(capacity as nat),
    {
        let r = DynamicTable { entries: VecDeque::new(), capacity, size: 0, inserted: 0 };
        assert(r@.entries =~= Seq::empty());
        r
    }

    /// The current dynamic table capacity.
    pub fn capacity(&self) -> (r: u64)
        ensures
            r == self@.capacity,
    {
        self.capacity
    }

    /// The current sum of entry sizes.
    pub fn size(&self) -> (r: u64)
        requires
            self.wf(),
        ensures
            r == total_size(self@.entries),
    {
        self.size
    }

    /// Number of entries currently in the table.
    pub fn len(&self) -> (r: usize)
        ensures
            r == self@.entries.len(),
    {
        self.entries.len()
    }

    /// Whether the table is empty.
    pub fn is_empty(&self) -> (r: bool)
        ensures
            r == (self@.entries.len() == 0),
    {
        self.entries.len() == 0
    }

    /// Absolute index of the most recently inserted entry, or `0` when the
    /// table is empty.
    pub fn last_absolute(&self) -> (r: u64)
        requires
            self.wf(),
        ensures
            r == if self@.entries.len() == 0 {
                0
            } else {
                self@.inserted - 1
            },
    {
        if self.entries.len() == 0 {
            0
        } else {
            self.inserted - 1
        }
    }

    /// The number of entries inserted over the table's lifetime.
    pub fn inserted(&self) -> (r: u64)
        ensures
            r == self@.inserted,
    {
        self.inserted
    }

    /// The absolute index a newly inserted entry will receive.
    pub fn next_absolute(&self) -> (r: u64)
        ensures
            r == self@.inserted,
    {
        self.inserted
    }

    /// The number of entries evicted so far: the absolute index of the oldest
    /// entry.
    pub fn dropped(&self) -> (r: u64)
        requires
            self.wf(),
        ensures
            r == self@.dropped(),
    {
        self.inserted - self.entries.len() as u64
    }

    /// The size contribution of an entry: name + value + 32 (RFC 9204
    /// Section 3.2.1).
    pub fn entry_size(name: &[u8], value: &[u8]) -> (r: u64)
        requires
            name@.len() + value@.len() + 32 <= u64::MAX,
        ensures
            r == size_of((name@, value@)),
    {
        name.len() as u64 + value.len() as u64 + 32
    }

    /// Changes the table capacity, evicting entries from the dropping point
    /// (oldest first) until the table fits.
    ///
    /// Setting the capacity to 0 clears the table; a later increase restores
    /// normal operation with an empty table (RFC 9204 Section 3.2.2).
    pub fn set_capacity(&mut self, capacity: u64)
        requires
            old(self).wf(),
        ensures
            final(self).wf(),
            final(self)@ == old(self)@.with_capacity(capacity as nat),
            capacity == 0 ==> final(self)@.entries.len() == 0,
    {
        let ghost before = self@;
        self.evict_to_fit(capacity);
        self.capacity = capacity;
        proof {
            lemma_with_capacity(before, capacity as nat);
            assert(self@ =~= before.with_capacity(capacity as nat));
            lemma_entry_count(self@.entries);
        }
    }

    /// Inserts a new entry at the insertion point, evicting oldest entries as
    /// needed.
    ///
    /// Returns [`InsertError::EntryTooLarge`] if the entry does not fit in the
    /// table capacity at all; on success the entry receives absolute index
    /// `inserted()`.
    pub fn insert(&mut self, name: Bytes, value: Bytes) -> (r: Result<(), InsertError>)
        requires
            old(self).wf(),
            old(self)@.inserted < u64::MAX,
        ensures
            final(self).wf(),
            ({
                let f = crate::octets::field((name, value));
                if size_of(f) <= old(self)@.capacity {
                    r is Ok && final(self)@ == old(self)@.insert(f)
                } else {
                    r == Err::<(), InsertError>(InsertError::EntryTooLarge) && *final(self)
                        == *old(self)
                }
            }),
    {
        let ghost f = crate::octets::field((name, value));
        let ghost before = self@;
        let n: u64 = name.len() as u64;
        let v: u64 = value.len() as u64;
        if self.capacity < 32 || n > self.capacity - 32 || v > self.capacity - 32 - n {
            return Err(InsertError::EntryTooLarge);
        }
        let entry_size: u64 = n + v + 32;
        self.evict_to_fit(self.capacity - entry_size);
        let ghost kept = self@.entries;
        let ghost list = self.entries@;
        self.entries.push_back((name, value));
        proof {
            crate::octets::lemma_fields_push(list, (name, value));
            lemma_total_size_push(kept, f);
            lemma_insert(before, f);
        }
        self.size = self.size + entry_size;
        self.inserted = self.inserted + 1;
        assert(self@ =~= before.insert(f));
        Ok(())
    }

    /// Returns the (name, value) pair with the given absolute index.
    pub fn get_absolute(&self, abs: u64) -> (r: Option<(&[u8], &[u8])>)
        requires
            self.wf(),
        ensures
            match self@.lookup(abs as int) {
                Some(f) => r matches Some(p) && (p.0@, p.1@) == f,
                None => r is None,
            },
    {
        match self.entry_absolute(abs) {
            Some(e) => Some((as_slice(&e.0), as_slice(&e.1))),
            None => None,
        }
    }

    /// Returns the (name, value) pair referenced by an encoder-stream relative
    /// index: 0 is the most recently inserted entry.
    pub fn get_relative(&self, index: u64) -> (r: Option<(&[u8], &[u8])>)
        requires
            self.wf(),
        ensures
            match self@.lookup(self@.inserted - 1 - index) {
                Some(f) => r matches Some(p) && (p.0@, p.1@) == f,
                None => r is None,
            },
    {
        match self.entry_at(index) {
            Some(e) => Some((as_slice(&e.0), as_slice(&e.1))),
            None => None,
        }
    }

    /// Like [`DynamicTable::get_relative`], sharing the entry's octets.
    pub fn get_relative_bytes(&self, index: u64) -> (r: Option<(Bytes, Bytes)>)
        requires
            self.wf(),
        ensures
            match self@.lookup(self@.inserted - 1 - index) {
                Some(f) => r matches Some(p) && crate::octets::field(p) == f,
                None => r is None,
            },
    {
        match self.entry_at(index) {
            Some(e) => Some((e.0.clone(), e.1.clone())),
            None => None,
        }
    }

    /// Returns the (name, value) pair referenced by a field line
    /// representation relative index: index 0 is the entry with absolute index
    /// `base - 1`.
    pub fn get_base_relative(&self, base: u64, index: u64) -> (r: Option<(&[u8], &[u8])>)
        requires
            self.wf(),
        ensures
            match self@.lookup(base - 1 - index) {
                Some(f) => r matches Some(p) && (p.0@, p.1@) == f,
                None => r is None,
            },
    {
        if index >= base {
            return None;
        }
        self.get_absolute(base - 1 - index)
    }

    /// Like [`DynamicTable::get_base_relative`], sharing the entry's octets.
    pub fn get_base_relative_bytes(&self, base: u64, index: u64) -> (r: Option<(Bytes, Bytes)>)
        requires
            self.wf(),
        ensures
            match self@.lookup(base - 1 - index) {
                Some(f) => r matches Some(p) && crate::octets::field(p) == f,
                None => r is None,
            },
    {
        if index >= base {
            return None;
        }
        match self.entry_absolute(base - 1 - index) {
            Some(e) => Some((e.0.clone(), e.1.clone())),
            None => None,
        }
    }

    /// Returns the (name, value) pair referenced by a post-base index: index 0
    /// is the entry with absolute index `base`.
    pub fn get_post_base(&self, base: u64, index: u64) -> (r: Option<(&[u8], &[u8])>)
        requires
            self.wf(),
        ensures
            match self@.lookup(base + index) {
                Some(f) => r matches Some(p) && (p.0@, p.1@) == f,
                None => r is None,
            },
    {
        match base.checked_add(index) {
            Some(abs) => self.get_absolute(abs),
            None => None,
        }
    }

    /// Like [`DynamicTable::get_post_base`], sharing the entry's octets.
    pub fn get_post_base_bytes(&self, base: u64, index: u64) -> (r: Option<(Bytes, Bytes)>)
        requires
            self.wf(),
        ensures
            match self@.lookup(base + index) {
                Some(f) => r matches Some(p) && crate::octets::field(p) == f,
                None => r is None,
            },
    {
        match base.checked_add(index) {
            Some(abs) => match self.entry_absolute(abs) {
                Some(e) => Some((e.0.clone(), e.1.clone())),
                None => None,
            },
            None => None,
        }
    }

    fn entry_absolute(&self, abs: u64) -> (r: Option<&(Bytes, Bytes)>)
        requires
            self.wf(),
        ensures
            match self@.lookup(abs as int) {
                Some(f) => r matches Some(e) && crate::octets::field(*e) == f,
                None => r is None,
            },
    {
        if abs >= self.inserted {
            return None;
        }
        self.entry_at(self.inserted - 1 - abs)
    }

    /// The entry at position `i` from the newest.
    fn entry_at(&self, i: u64) -> (r: Option<&(Bytes, Bytes)>)
        requires
            self.wf(),
        ensures
            match self@.lookup(self@.inserted - 1 - i) {
                Some(f) => r matches Some(e) && crate::octets::field(*e) == f,
                None => r is None,
            },
    {
        if i >= self.entries.len() as u64 {
            return None;
        }
        let position: usize = self.entries.len() - 1 - i as usize;
        Some(&self.entries[position])
    }

    /// Absolute indices of the newest entry that matches `name` and `value`
    /// and of the newest entry that matches `name`.
    pub fn find_full_or_name(&self, name: &[u8], value: &[u8]) -> (r: (Option<u64>, Option<u64>))
        requires
            self.wf(),
        ensures
            match self@.find((name@, value@)) {
                Some(abs) => r.0 matches Some(a) && a == abs,
                None => r.0 is None,
            },
            match self@.find_named(name@) {
                Some(abs) => r.1 matches Some(a) && a == abs,
                None => r.1 is None,
            },
    {
        let dropped: u64 = self.dropped();
        let mut named: Option<u64> = None;
        let mut i: usize = self.entries.len();
        let ghost all = self@.entries;
        assert(all.take(i as int) =~= all);
        while i > 0
            invariant
                self.wf(),
                all == self@.entries,
                i <= all.len(),
                dropped == self@.dropped(),
                newest(all, (name@, value@)) == newest(all.take(i as int), (name@, value@)),
                match named {
                    Some(a) => self@.find_named(name@) matches Some(abs) && a == abs,
                    None => newest_named(all, name@) == newest_named(all.take(i as int), name@),
                },
            decreases i,
        {
            let e = &self.entries[i - 1];
            proof {
                assert(all.take(i as int).last() == crate::octets::field(*e));
                assert(all.take(i as int).drop_last() =~= all.take(i - 1));
            }
            i = i - 1;
            if same(as_slice(&e.0), name) {
                if named.is_none() {
                    named = Some(dropped + i as u64);
                }
                if same(as_slice(&e.1), value) {
                    return (Some(dropped + i as u64), named);
                }
            }
        }
        (None, named)
    }

    /// Absolute index of the newest entry that matches `name`.
    pub fn find_name(&self, name: &[u8]) -> (r: Option<u64>)
        requires
            self.wf(),
        ensures
            match self@.find_named(name@) {
                Some(abs) => r matches Some(a) && a == abs,
                None => r is None,
            },
    {
        let dropped: u64 = self.dropped();
        let mut i: usize = self.entries.len();
        let ghost all = self@.entries;
        assert(all.take(i as int) =~= all);
        while i > 0
            invariant
                self.wf(),
                all == self@.entries,
                i <= all.len(),
                dropped == self@.dropped(),
                newest_named(all, name@) == newest_named(all.take(i as int), name@),
            decreases i,
        {
            let e = &self.entries[i - 1];
            proof {
                assert(all.take(i as int).last() == crate::octets::field(*e));
                assert(all.take(i as int).drop_last() =~= all.take(i - 1));
            }
            i = i - 1;
            if same(as_slice(&e.0), name) {
                return Some(dropped + i as u64);
            }
        }
        None
    }

    /// The number of entries that inserting an entry of `size` would evict;
    /// all of them where it does not fit.
    pub fn would_evict(&self, size: u64) -> (r: u64)
        requires
            self.wf(),
        ensures
            r == self@.evicted_by_insert(size as nat),
            r <= self@.entries.len(),
    {
        let max: u64 = if size <= self.capacity {
            self.capacity - size
        } else {
            0
        };
        self.evict_for_capacity(max)
    }

    /// The number of entries that a capacity of `capacity` would evict.
    pub fn evict_for_capacity(&self, capacity: u64) -> (r: u64)
        requires
            self.wf(),
        ensures
            r == self@.evicted_by_capacity(capacity as nat),
            r <= self@.entries.len(),
    {
        let ghost all = self@.entries;
        let mut size: u64 = self.size;
        let mut n: usize = 0;
        assert(all.skip(0) =~= all);
        while n < self.entries.len() && size > capacity
            invariant
                self.wf(),
                all == self@.entries,
                n <= all.len(),
                size == total_size(all.skip(n as int)),
                evictions(all, capacity as nat) == n + evictions(
                    all.skip(n as int),
                    capacity as nat,
                ),
            decreases all.len() - n,
        {
            let e = &self.entries[n];
            proof {
                assert(all.skip(n as int)[0] == crate::octets::field(*e));
                assert(all.skip(n as int).skip(1) =~= all.skip((n + 1) as int));
            }
            size = size - (e.0.len() as u64) - (e.1.len() as u64) - 32;
            n = n + 1;
        }
        n as u64
    }

    /// Evicts entries from the dropping point until `size <= max_size`.
    fn evict_to_fit(&mut self, max_size: u64)
        requires
            old(self).wf(),
        ensures
            final(self).wf(),
            final(self)@ == old(self)@.drop_oldest(
                evictions(old(self)@.entries, max_size as nat),
            ),
            total_size(final(self)@.entries) <= max_size,
    {
        let ghost all = self@.entries;
        let ghost list = self.entries@;
        let ghost mut n: nat = 0;
        assert(all.skip(0) =~= all);
        assert(list.skip(0) =~= list);
        while self.size > max_size
            invariant
                self.wf(),
                old(self).wf(),
                all == old(self)@.entries,
                list == old(self).entries@,
                n <= all.len(),
                self.entries@ == list.skip(n as int),
                self@.entries == all.skip(n as int),
                self.capacity == old(self).capacity,
                self.inserted == old(self).inserted,
                evictions(all, max_size as nat) == n + evictions(
                    all.skip(n as int),
                    max_size as nat,
                ),
            decreases all.len() - n,
        {
            let ghost rest = all.skip(n as int);
            match self.entries.pop_front() {
                Some((name, value)) => {
                    proof {
                        assert(rest[0] == crate::octets::field((name, value)));
                        assert(rest.skip(1) =~= all.skip((n + 1) as int));
                        assert(self.entries@ =~= list.skip((n + 1) as int));
                        assert(self@.entries =~= all.skip((n + 1) as int));
                        n = n + 1;
                    }
                    self.size = self.size - (name.len() as u64) - (value.len() as u64) - 32;
                },
                None => {
                    assert(false);
                },
            }
        }
        assert(self@ =~= old(self)@.drop_oldest(n));
    }
}

} // verus!
