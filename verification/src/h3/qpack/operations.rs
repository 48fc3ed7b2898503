//! What the operations of the QPACK codecs do to whoever calls them.
//!
//! Each law takes the arguments, the result and the states around calls that were
//! made, and says how they relate: an encoder's to a decoder's, or a table's to the
//! entries that went in.

use super::conduct;
use super::decoder;
use super::decoder::{Blocked, Decoder, DecoderState, UnblockedSection};
use super::encoder::{EncodedSection, Encoder, EncoderState};
use super::laws;
use super::layout;
use super::static_table;
use super::table;
use super::table::{DynamicTable, InsertError};
use super::wire;
use super::wire::Ack;
use super::QpackError;
use crate::octets;
use bytes::Bytes;
use vstd::prelude::*;

verus! {

/// What an encoder makes of a header list, a decoder with its table that is fed the
/// instructions and then the section makes the same list of, line by line.
pub proof fn lemma_encoded_sections_are_decoded(
    e: &mut Encoder,
    stream_id: u64,
    headers: &[(Bytes, Bytes)],
    base: u64,
    sent: EncodedSection,
    d: &mut Decoder,
    instructions: &[u8],
    unblocked: Result<Vec<UnblockedSection>, QpackError>,
    later: &mut Decoder,
    block: &[u8],
    now: u64,
    r: Result<Option<Vec<(Bytes, Bytes)>>, QpackError>,
)
    requires
        call_ensures(Encoder::encode_section_with_base, (e, stream_id, headers, base), sent),
        call_ensures(Decoder::feed_encoder_stream, (d, instructions), unblocked),
        call_ensures(Decoder::decode_block, (later, block, stream_id, now), r),
        old(e)@.valid(),
        old(d)@.valid(),
        old(d)@.blocked.len() == 0,
        old(e)@.max_capacity <= u64::MAX,
        old(e)@.table.inserted + headers@.len() <= u64::MAX,
        laws::list_fits(octets::fields(headers@)),
        laws::mirrors(old(d)@, old(e)@),
        instructions@ == octets::content(sent.encoder_stream),
        later@ == final(d)@,
        block@ == octets::content(sent.block),
        decoder::saturated(
            old(d)@.charged_to(stream_id) + decoder::list_size(octets::fields(headers@)),
        ) <= old(d)@.max_field_section_size,
    ensures
        unblocked is Ok,
        laws::mirrors(final(d)@, final(e)@),
        r matches Ok(Some(v)) && {
            &&& v@.len() == headers@.len()
            &&& forall|i: int|
                0 <= i < v@.len() ==> {
                    &&& octets::content((#[trigger] v@[i]).0) == octets::content(headers@[i].0)
                    &&& octets::content(v@[i].1) == octets::content(headers@[i].1)
                }
        },
{
    let list = octets::fields(headers@);
    octets::lemma_fields_stand_for_themselves(headers@);
    let shown = old(d)@;
    assert(shown.blocked =~= Seq::empty());
    laws::lemma_end_to_end(old(e)@, shown, stream_id, list, base as nat, now);
    let v = r->Ok_0.unwrap();
    octets::lemma_fields_stand_for_themselves(v@);
    assert forall|i: int| 0 <= i < v@.len() implies {
        &&& octets::content((#[trigger] v@[i]).0) == octets::content(headers@[i].0)
        &&& octets::content(v@[i].1) == octets::content(headers@[i].1)
    } by {
        assert(octets::fields(v@)[i].0 == octets::content(v@[i].0));
        assert(list[i].0 == octets::content(headers@[i].0));
    }
}

/// The Base of a section is the number of insertions, or of those that were
/// acknowledged, unless it is given: the three ways to encode differ in nothing
/// else.
pub proof fn lemma_sections_by_base(
    a: &mut Encoder,
    b: &mut Encoder,
    c: &mut Encoder,
    stream_id: u64,
    headers: &[(Bytes, Bytes)],
    base: u64,
    x: EncodedSection,
    y: EncodedSection,
    z: EncodedSection,
)
    requires
        call_ensures(Encoder::encode_section, (a, stream_id, headers), x),
        call_ensures(Encoder::encode_section_with_ack_base, (b, stream_id, headers), y),
        call_ensures(Encoder::encode_section_with_base, (c, stream_id, headers, base), z),
        old(a)@ == old(c)@,
        old(b)@ == old(c)@,
    ensures
        base == old(c)@.table.inserted ==> {
            &&& final(a)@ == final(c)@
            &&& octets::content(x.block) == octets::content(z.block)
            &&& octets::content(x.encoder_stream) == octets::content(z.encoder_stream)
        },
        base == old(c)@.known_received ==> {
            &&& final(b)@ == final(c)@
            &&& octets::content(y.block) == octets::content(z.block)
            &&& octets::content(y.encoder_stream) == octets::content(z.encoder_stream)
        },
{
}

/// An insertion that an encoder announces happens at the encoder, as the newest
/// entry, and at every decoder with its table that knows as much.
pub proof fn lemma_announced_insertions(
    e: &mut Encoder,
    name: &[u8],
    value: &[u8],
    r: Option<Bytes>,
    known: nat,
)
    requires
        old(e)@.valid(),
        known >= old(e)@.known_received,
        name@.len() <= u64::MAX,
        value@.len() <= u64::MAX,
        call_ensures(Encoder::insert_literal, (e, name, value), r) || call_ensures(
            Encoder::insert_with_name_ref,
            (e, name, value),
            r,
        ),
    ensures
        r is None ==> final(e)@ == old(e)@,
        r matches Some(b) ==> {
            &&& final(e)@ == (EncoderState { table: final(e)@.table, ..old(e)@ })
            &&& final(e)@.table.inserted == old(e)@.table.inserted + 1
            &&& final(e)@.table.entries.last() == (name@, value@)
            &&& final(e)@.table.capacity == old(e)@.table.capacity
            &&& exists|i: wire::Instruction|
                {
                    &&& #[trigger] wire::instruction_octets(i, old(e)@.compress) == octets::content(
                        b,
                    )
                    &&& wire::apply(old(e)@.table, old(e)@.max_capacity, known, i) == Some(
                        final(e)@.table,
                    )
                }
        },
{
    let f = (name@, value@);
    laws::lemma_instruction_replays(old(e)@, f, 0, 0, known);
    conduct::lemma_what_can_be_changed(old(e)@, f, 0);
    if r is Some {
        layout::lemma_insertions(old(e)@.table, f);
        let literal = wire::Instruction::InsertLiteral { name: f.0, value: f.1 };
        let b = octets::content(r.unwrap());
        if call_ensures(Encoder::insert_literal, (e, name, value), r) {
            assert(wire::instruction_octets(literal, old(e)@.compress) == b);
        } else {
            let named = old(e)@.name_reference(f).unwrap();
            assert(wire::instruction_octets(named, old(e)@.compress) == b);
        }
    }
}

/// A duplicate that an encoder announces is the entry that the index counts back
/// to, once more, as the newest.
pub proof fn lemma_announced_duplicates(e: &mut Encoder, relative: u64, r: Option<Bytes>)
    requires
        old(e)@.valid(),
        call_ensures(Encoder::duplicate, (e, relative), r),
    ensures
        r is None ==> final(e)@ == old(e)@,
        r matches Some(b) ==> {
            let n = old(e)@.table.entries.len();
            &&& relative < n
            &&& final(e)@ == (EncoderState { table: final(e)@.table, ..old(e)@ })
            &&& final(e)@.table.inserted == old(e)@.table.inserted + 1
            &&& final(e)@.table.entries.last() == old(e)@.table.entries[n - 1 - relative]
            &&& octets::content(b) == wire::instruction_octets(
                wire::Instruction::Duplicate { index: relative as nat },
                old(e)@.compress,
            )
        },
{
    let t = old(e)@.table;
    layout::lemma_lookups(t, t.inserted - 1 - relative, 0);
    if r is Some {
        let f = t.lookup(t.inserted - 1 - relative).unwrap();
        conduct::lemma_what_can_be_changed(old(e)@, f, 0);
        layout::lemma_insertions(t, f);
    }
}

/// A capacity that an encoder announces is the one that it was called with, and
/// only what no longer fits goes.
pub proof fn lemma_announced_capacities(e: &mut Encoder, capacity: u64, r: Option<Bytes>)
    requires
        old(e)@.valid(),
        call_ensures(Encoder::set_capacity, (e, capacity), r),
    ensures
        r is None ==> final(e)@ == old(e)@,
        r matches Some(b) ==> {
            let n = old(e)@.table.entries.len() - final(e)@.table.entries.len();
            &&& capacity <= old(e)@.max_capacity
            &&& final(e)@ == (EncoderState { table: final(e)@.table, ..old(e)@ })
            &&& final(e)@.table.capacity == capacity
            &&& final(e)@.table.inserted == old(e)@.table.inserted
            &&& 0 <= n <= old(e)@.table.entries.len()
            &&& final(e)@.table.entries == old(e)@.table.entries.skip(n)
            &&& n > 0 ==> table::total_size(old(e)@.table.entries.skip(n - 1)) > capacity
            &&& octets::content(b) == wire::instruction_octets(
                wire::Instruction::SetCapacity { capacity: capacity as nat },
                old(e)@.compress,
            )
        },
        r is None <==> capacity > old(e)@.max_capacity || capacity == old(e)@.table.capacity || (
        capacity < old(e)@.table.capacity && old(e)@.table.with_capacity(capacity as nat).dropped()
            > old(e)@.floor()),
{
    layout::lemma_capacities(old(e)@.table, capacity as nat);
    conduct::lemma_what_can_be_changed(old(e)@, (Seq::empty(), Seq::empty()), capacity as nat);
}

/// What a decoder has to send is handed out once, all of it.
pub proof fn lemma_replies_are_handed_out(d: &mut Decoder, r: Bytes)
    requires
        call_ensures(Decoder::take_decoder_stream, (d,), r),
    ensures
        octets::content(r) == old(d)@.outgoing,
        final(d)@.outgoing.len() == 0,
        final(d)@ == (DecoderState { outgoing: final(d)@.outgoing, ..old(d)@ }),
{
}

/// A stream that is given up leaves nothing behind: its sections stop waiting, its
/// budget is free again, and the peer is told, once; the other streams go on.
pub proof fn lemma_cancelled_streams(d: &mut Decoder, stream_id: u64, r: Bytes, other: u64)
    requires
        call_ensures(Decoder::stream_cancelled, (d, stream_id), r),
    ensures
        octets::content(r) == wire::ack_octets(Ack::Cancel { stream_id }),
        final(d)@.outgoing == old(d)@.outgoing + octets::content(r),
        final(d)@.blocked == old(d)@.blocked.filter(|b: Blocked| b.stream_id != stream_id),
        final(d)@.charged_to(stream_id) == 0,
        other != stream_id ==> final(d)@.charged_to(other) == old(d)@.charged_to(other),
        final(d)@ == (DecoderState {
            blocked: final(d)@.blocked,
            charged: final(d)@.charged,
            outgoing: final(d)@.outgoing,
            ..old(d)@
        }),
{
    let gone = set![stream_id];
    conduct::lemma_streams_are_given_up(old(d)@, gone, stream_id);
    conduct::lemma_streams_are_given_up(old(d)@, gone, other);
    let f = |b: Blocked| !gone.contains(b.stream_id);
    let g = |b: Blocked| b.stream_id != stream_id;
    lemma_same_filter(old(d)@.blocked, f, g);
}

proof fn lemma_same_filter(
    queue: Seq<Blocked>,
    f: spec_fn(Blocked) -> bool,
    g: spec_fn(Blocked) -> bool,
)
    requires
        forall|b: Blocked| #[trigger] f(b) == g(b),
    ensures
        queue.filter(f) == queue.filter(g),
    decreases queue.len(),
{
    reveal(Seq::filter);
    if queue.len() > 0 {
        lemma_same_filter(queue.drop_last(), f, g);
        assert(f(queue.last()) == g(queue.last()));
    }
}

/// A stream is given up where a section of it waits for longer than allowed, and
/// only there; the peer is told of each once.
pub proof fn lemma_expired_streams(d: &mut Decoder, now: u64, max_age: u64, r: Bytes, id: u64)
    requires
        call_ensures(Decoder::expire_blocked, (d, now, max_age), r),
    ensures
        ({
            let old_ones = decoder::expired(old(d)@.blocked, now, max_age);
            &&& old_ones.contains(id) <==> exists|i: int|
                0 <= i < old(d)@.blocked.len() && (#[trigger] old(d)@.blocked[i]).stream_id == id
                    && now - old(d)@.blocked[i].since > max_age
            &&& old_ones.no_duplicates()
            &&& octets::content(r) == decoder::cancellations(old_ones)
            &&& final(d)@.outgoing == old(d)@.outgoing + octets::content(r)
            &&& old_ones.contains(id) ==> final(d)@.charged_to(id) == 0
            &&& !old_ones.contains(id) ==> final(d)@.charged_to(id) == old(d)@.charged_to(id)
            &&& final(d)@.table == old(d)@.table
        }),
{
    let gone = decoder::expired(old(d)@.blocked, now, max_age);
    conduct::lemma_old_streams(old(d)@.blocked, now, max_age, id);
    conduct::lemma_streams_are_given_up(old(d)@, gone.to_set(), id);
    if gone.contains(id) {
        let i = choose|i: int| 0 <= i < gone.len() && gone[i] == id;
        assert(gone.to_set().contains(gone[i]));
    }
}

/// A stream that is over is not charged for any more, and nothing else changes.
pub proof fn lemma_finished_streams(d: &mut Decoder, stream_id: u64, other: u64)
    requires
        call_ensures(Decoder::stream_finished, (d, stream_id), ()),
    ensures
        final(d)@.charged_to(stream_id) == 0,
        other != stream_id ==> final(d)@.charged_to(other) == old(d)@.charged_to(other),
        final(d)@ == (DecoderState { charged: final(d)@.charged, ..old(d)@ }),
{
}

/// An entry that is inserted is the newest and is found by every index; only what
/// no longer fits goes, and an entry that never fits is refused.
pub proof fn lemma_inserted_entries(
    t: &mut DynamicTable,
    name: Bytes,
    value: Bytes,
    r: Result<(), InsertError>,
    later: &DynamicTable,
    found: Option<(Bytes, Bytes)>,
)
    requires
        old(t)@.valid(),
        call_ensures(DynamicTable::insert, (t, name, value), r),
        later@ == final(t)@,
        call_ensures(DynamicTable::get_relative_bytes, (later, 0), found),
    ensures
        ({
            let size = octets::content(name).len() + octets::content(value).len() + 32;
            &&& r is Ok <==> size <= old(t)@.capacity
            &&& r is Err ==> r->Err_0 is EntryTooLarge && final(t)@ == old(t)@
            &&& r is Ok ==> {
                let n = old(t)@.entries.len() + 1 - final(t)@.entries.len();
                &&& found matches Some(p) && octets::content(p.0) == octets::content(name)
                    && octets::content(p.1) == octets::content(value)
                &&& 0 <= n <= old(t)@.entries.len()
                &&& final(t)@.entries == old(t)@.entries.skip(n).push(
                    (octets::content(name), octets::content(value)),
                )
                &&& final(t)@.inserted == old(t)@.inserted + 1
                &&& final(t)@.capacity == old(t)@.capacity
                &&& table::total_size(final(t)@.entries) <= old(t)@.capacity
            }
        }),
{
    let f = octets::field((name, value));
    if r is Ok {
        layout::lemma_insertions(old(t)@, f);
        layout::lemma_lookups(final(t)@, final(t)@.inserted - 1, 0);
    }
}

/// A lookup finds the entry that its index counts to: from the first insertion, back
/// from the newest, back from the Base, or on from it.
pub proof fn lemma_found_entries(
    t: &DynamicTable,
    base: u64,
    index: u64,
    a: Option<(&[u8], &[u8])>,
    b: Option<(&[u8], &[u8])>,
    c: Option<(&[u8], &[u8])>,
    d: Option<(&[u8], &[u8])>,
)
    requires
        call_ensures(DynamicTable::get_absolute, (t, index), a),
        call_ensures(DynamicTable::get_relative, (t, index), b),
        call_ensures(DynamicTable::get_base_relative, (t, base, index), c),
        call_ensures(DynamicTable::get_post_base, (t, base, index), d),
    ensures
        is_entry(t, index as int, a),
        is_entry(t, t@.inserted - 1 - index, b),
        is_entry(t, base - 1 - index, c),
        is_entry(t, base + index, d),
{
    layout::lemma_lookups(t@, index as int, 0);
    layout::lemma_lookups(t@, t@.inserted - 1 - index, 0);
    layout::lemma_lookups(t@, base - 1 - index, 0);
    layout::lemma_lookups(t@, base + index, 0);
}

/// Whether `r` is the entry of a table that was inserted as number `abs`, if it is
/// still there.
pub open spec fn is_entry(t: &DynamicTable, abs: int, r: Option<(&[u8], &[u8])>) -> bool {
    let first = t@.inserted - t@.entries.len();
    &&& r is Some <==> first <= abs < t@.inserted
    &&& r matches Some(p) ==> (p.0@, p.1@) == t@.entries[abs - first]
}

/// The size of a table is that of its entries, each 32 octets more than its name and
/// its value; the counts are those of what was inserted and of what is gone.
pub proof fn lemma_table_counts(
    t: &DynamicTable,
    len: usize,
    inserted: u64,
    next: u64,
    dropped: u64,
    size: u64,
    name: &[u8],
    value: &[u8],
    one: u64,
)
    requires
        t@.valid(),
        call_ensures(DynamicTable::len, (t,), len),
        call_ensures(DynamicTable::inserted, (t,), inserted),
        call_ensures(DynamicTable::next_absolute, (t,), next),
        call_ensures(DynamicTable::dropped, (t,), dropped),
        call_ensures(DynamicTable::size, (t,), size),
        call_ensures(DynamicTable::entry_size, (name, value), one),
    ensures
        len == t@.entries.len(),
        next == inserted == t@.inserted,
        dropped + len == inserted,
        one == name@.len() + value@.len() + 32,
        t@.entries.len() == 0 ==> size == 0,
        t@.entries == seq![(name@, value@)] ==> size == one,
        size <= t@.capacity,
{
    layout::lemma_sizes(Seq::empty(), Seq::empty(), (name@, value@));
}

/// A search of the static table finds the first entry that matches, and one wherever
/// there is one.
pub proof fn lemma_static_searches(
    name: &[u8],
    value: &[u8],
    full: Option<usize>,
    named: Option<usize>,
    both: (Option<usize>, Option<usize>),
    i: usize,
    at: Option<(&'static [u8], &'static [u8])>,
)
    requires
        call_ensures(static_table::find, (name, value), full),
        call_ensures(static_table::find_name, (name,), named),
        call_ensures(static_table::find_full_or_name, (name, value), both),
        call_ensures(static_table::get, (i,), at),
    ensures
        both == (full, named),
        at is Some <==> i < 99,
        full == Some(i) ==> (at matches Some(p) && p.0@ == name@ && p.1@ == value@),
        named == Some(i) ==> (at matches Some(p) && p.0@ == name@),
        at matches Some(p) ==> p.0@ == name@ ==> named is Some && named.unwrap() <= i,
        at matches Some(p) ==> p.0@ == name@ && p.1@ == value@ ==> full is Some && full.unwrap()
            <= i,
{
    if i < 99 {
        static_table::lemma_searches(name@, value@, i as nat);
    }
    if full is Some {
        static_table::lemma_searches(name@, value@, full.unwrap() as nat);
    }
    if named is Some {
        static_table::lemma_searches(name@, value@, named.unwrap() as nat);
    }
}

/// A search of a table finds the newest entry that matches, by its absolute index,
/// and one wherever there is one.
pub proof fn lemma_table_searches(
    t: &DynamicTable,
    name: &[u8],
    value: &[u8],
    both: (Option<u64>, Option<u64>),
    named: Option<u64>,
    i: int,
)
    requires
        call_ensures(DynamicTable::find_full_or_name, (t, name, value), both),
        call_ensures(DynamicTable::find_name, (t, name), named),
        0 <= i < t@.entries.len(),
    ensures
        both.1 == named,
        ({
            let first = t@.inserted - t@.entries.len();
            &&& both.0 matches Some(abs) ==> first <= abs < t@.inserted && t@.entries[abs - first]
                == (name@, value@)
            &&& named matches Some(abs) ==> first <= abs < t@.inserted && t@.entries[abs
                - first].0 == name@
            &&& t@.entries[i] == (name@, value@) ==> both.0 is Some && both.0.unwrap() >= first + i
            &&& t@.entries[i].0 == name@ ==> named is Some && named.unwrap() >= first + i
        }),
{
    layout::lemma_searches(t@, (name@, value@));
}

/// A change of capacity lets go of as few of the oldest entries as will do, as many
/// as is foretold.
pub proof fn lemma_table_capacities(
    t: &mut DynamicTable,
    before: &DynamicTable,
    capacity: u64,
    foretold: u64,
)
    requires
        call_ensures(DynamicTable::set_capacity, (t, capacity), ()),
        before@ == old(t)@,
        call_ensures(DynamicTable::evict_for_capacity, (before, capacity), foretold),
    ensures
        foretold <= old(t)@.entries.len(),
        final(t)@.entries == old(t)@.entries.skip(foretold as int),
        final(t)@.inserted == old(t)@.inserted,
        final(t)@.capacity == capacity,
        table::total_size(final(t)@.entries) <= capacity,
        foretold > 0 ==> table::total_size(old(t)@.entries.skip(foretold - 1)) > capacity,
{
    layout::lemma_capacities(old(t)@, capacity as nat);
    layout::lemma_evictions_are_fewest(old(t)@.entries, capacity as nat);
}

/// An insertion lets go of as many entries as is foretold.
pub proof fn lemma_table_evictions(
    t: &mut DynamicTable,
    before: &DynamicTable,
    name: Bytes,
    value: Bytes,
    r: Result<(), InsertError>,
    size: u64,
    foretold: u64,
)
    requires
        old(t)@.valid(),
        call_ensures(DynamicTable::insert, (t, name, value), r),
        before@ == old(t)@,
        size == octets::content(name).len() + octets::content(value).len() + 32,
        call_ensures(DynamicTable::would_evict, (before, size), foretold),
        r is Ok,
    ensures
        final(t)@.entries.len() + foretold == old(t)@.entries.len() + 1,
{
    let f = octets::field((name, value));
    layout::lemma_insertions(old(t)@, f);
}

/// The prefix that an encoder writes is the one that a decoder with as many
/// insertions reads: the Required Insert Count, the Base and the length.
pub proof fn lemma_prefixes_are_read(
    e: &Encoder,
    out: &mut Vec<u8>,
    ric: u64,
    base: u64,
    d: &Decoder,
    buf: &[u8],
    rest: Seq<u8>,
    r: Result<(u64, u64, usize), QpackError>,
)
    requires
        call_ensures(Encoder::encode_prefix, (e, out, ric, base), ()),
        old(out)@.len() == 0,
        buf@ == final(out)@ + rest,
        call_ensures(Decoder::read_prefix, (d, buf), r),
        d@.max_capacity == e@.max_capacity,
        d@.max_capacity <= u64::MAX,
        d@.table.inserted == ric,
        ric > 0 ==> d@.max_capacity >= 32,
    ensures
        r matches Ok((a, b, n)) && a == ric && b == base && n == final(out)@.len(),
{
    assert(final(out)@ =~= wire::prefix_octets(ric as nat, base as nat, e@.max_capacity));
    wire::lemma_prefix_round_trip(
        ric as nat,
        base as nat,
        e@.max_capacity,
        d@.table.inserted,
        rest,
    );
}

/// What the codecs tell of themselves.
pub proof fn lemma_codecs_tell(
    e: &Encoder,
    d: &Decoder,
    capacity: u64,
    required: u64,
    known: u64,
    inserted: u64,
    acknowledged: u64,
    waiting: usize,
)
    requires
        call_ensures(Encoder::max_capacity, (e,), capacity),
        call_ensures(Encoder::required_insert_count, (e,), required),
        call_ensures(Encoder::known_received, (e,), known),
        call_ensures(Decoder::inserted, (d,), inserted),
        call_ensures(Decoder::known_received, (d,), acknowledged),
        call_ensures(Decoder::pending_blocked, (d,), waiting),
    ensures
        capacity == e@.max_capacity,
        required == e@.last_required,
        known == e@.known_received,
        inserted == d@.table.inserted,
        acknowledged == d@.known_received,
        waiting == d@.blocked.len(),
{
}

/// What arrives on a decoder stream is absorbed by an encoder, and checked by a
/// decoder: each instruction in turn, up to the first that is an error.
pub proof fn lemma_fed_decoder_streams(
    e: &mut Encoder,
    buf: &[u8],
    a: Ack,
    r: Result<(), QpackError>,
    d: &mut Decoder,
    checked: Result<(), QpackError>,
)
    requires
        call_ensures(Encoder::feed_decoder_stream, (e, buf), r),
        call_ensures(Decoder::feed_decoder_stream, (d, buf), checked),
        old(e)@.decoder_pending.len() == 0,
        old(d)@.decoder_pending.len() == 0,
        buf@ == wire::ack_octets(a),
    ensures
        r is Ok <==> old(e)@.absorb(a) is Some,
        r is Ok ==> final(e)@ == (EncoderState {
            decoder_pending: final(e)@.decoder_pending,
            ..old(e)@.absorb(a).unwrap()
        }),
        r is Ok ==> final(e)@.decoder_pending.len() == 0,
        checked is Ok <==> a != (Ack::Increment { count: 0 }),
        final(d)@ == (DecoderState { decoder_pending: final(d)@.decoder_pending, ..old(d)@ }),
{
    conduct::lemma_decoder_streams_are_absorbed(old(e)@, a, Seq::empty());
    conduct::lemma_decoder_streams_are_absorbed(old(e)@, a, buf@);
    conduct::lemma_decoder_streams_are_checked(a, Seq::empty());
    assert(wire::ack_octets(a) + Seq::<u8>::empty() =~= buf@);
    assert(old(e)@.decoder_pending + buf@ =~= buf@);
    assert(old(d)@.decoder_pending + buf@ =~= buf@);
    if old(e)@.absorb(a) is Some {
        let next = old(e)@.absorb(a).unwrap();
        conduct::lemma_decoder_streams_are_absorbed(next, a, Seq::empty());
    }
}

} // verus!
