//! What holds of an encoder and a decoder over the life of a connection.
//!
//! However an encoder is used, a decoder that was fed, in order, every
//! instruction that the encoder emitted stays in step with it and decodes every
//! field section to its header list. And whatever acknowledgments the encoder
//! hears, only an Insert Count Increment can be an error.

use super::decoder;
use super::decoder::DecoderState;
use super::encoder;
use super::encoder::EncoderState;
use super::laws;
use super::static_table;
use super::table;
use super::wire;
use super::wire::{Ack, Instruction};
use super::QpackError;
use crate::octets::Field;
use vstd::prelude::*;

verus! {

/// One use of an encoder.
pub enum Use {
    /// An insertion with a literal name.
    Literal { field: Field },
    /// An insertion with a name reference.
    NameRef { field: Field },
    /// A duplication.
    Duplicate { relative: nat },
    /// A change of capacity.
    Capacity { capacity: nat },
    /// A field section.
    Section { stream_id: u64, list: Seq<Field>, base: nat },
    /// Octets of the peer's decoder stream.
    Heard { octets: Seq<u8> },
}

/// The encoder after a use, and what goes out on the encoder stream.
pub open spec fn used(e: EncoderState, u: Use) -> (EncoderState, Seq<u8>) {
    match u {
        Use::Literal { field } => if e.insertable(field) {
            (
                e.inserting(field),
                wire::instruction_octets(
                    Instruction::InsertLiteral { name: field.0, value: field.1 },
                    e.compress,
                ),
            )
        } else {
            (e, Seq::empty())
        },
        Use::NameRef { field } => if e.insertable(field) && e.name_reference(field) is Some {
            (
                e.inserting(field),
                wire::instruction_octets(e.name_reference(field).unwrap(), e.compress),
            )
        } else {
            (e, Seq::empty())
        },
        Use::Duplicate { relative } => match e.table.lookup(e.table.inserted - 1 - relative) {
            Some(f) if e.insertable(f) => (
                e.inserting(f),
                wire::instruction_octets(Instruction::Duplicate { index: relative }, e.compress),
            ),
            _ => (e, Seq::empty()),
        },
        Use::Capacity { capacity } => if e.resizable(capacity) {
            (
                EncoderState { table: e.table.with_capacity(capacity), ..e },
                wire::instruction_octets(Instruction::SetCapacity { capacity }, e.compress),
            )
        } else {
            (e, Seq::empty())
        },
        Use::Section { stream_id, list, base } => (
            e.after_section(stream_id, list, base),
            e.section_stream(list, base),
        ),
        Use::Heard { octets } => (e.feed_decoder(octets).0, Seq::empty()),
    }
}

/// Whether what a use brings, and what it counts, are 64-bit numbers.
pub open spec fn use_fits(e: EncoderState, u: Use) -> bool {
    match u {
        Use::Literal { field } | Use::NameRef { field } => field.0.len() <= u64::MAX
            && field.1.len() <= u64::MAX && e.table.inserted < u64::MAX,
        Use::Duplicate { relative } => relative <= u64::MAX && e.table.inserted < u64::MAX,
        Use::Capacity { .. } => true,
        Use::Section { list, base, .. } => laws::list_fits(list) && base <= u64::MAX
            && e.table.inserted + list.len() <= u64::MAX,
        Use::Heard { .. } => true,
    }
}

/// The decoder after the encoder was used: it is fed what goes out on the
/// encoder stream, and then receives the field section, where there is one.
pub open spec fn followed(d: DecoderState, e: EncoderState, u: Use) -> DecoderState {
    let fed = d.feed_encoder(used(e, u).1).0;
    match u {
        Use::Section { stream_id, list, base } => fed.decode(
            e.section_block(list, base),
            stream_id,
            0,
        ).0,
        _ => fed,
    }
}

/// Whether a decoder is in step with an encoder: it mirrors it, has
/// acknowledged every insertion, and has nothing waiting.
pub open spec fn in_step(d: DecoderState, e: EncoderState) -> bool {
    &&& laws::mirrors(d, e)
    &&& d.known_received == d.table.inserted
    &&& d.blocked.len() == 0
    &&& d.max_field_section_size == usize::MAX
}

/// Each use of an encoder keeps it valid and the decoder that follows it in
/// step. The decoder takes the instructions without error, and a field section
/// decodes to its header list.
pub proof fn lemma_use_keeps_step(d: DecoderState, e: EncoderState, u: Use)
    requires
        e.valid(),
        d.valid(),
        in_step(d, e),
        e.max_capacity <= u64::MAX,
        use_fits(e, u),
    ensures
        ({
            let (next, out) = used(e, u);
            let after = followed(d, e, u);
            &&& next.valid()
            &&& next.max_capacity == e.max_capacity
            &&& after.valid()
            &&& in_step(after, next)
            &&& d.feed_encoder(out).1 == Ok::<Seq<(u64, Seq<Field>)>, QpackError>(Seq::empty())
            &&& u matches Use::Section { stream_id, list, base } ==> d.feed_encoder(
                out,
            ).0.decode(e.section_block(list, base), stream_id, 0).1 == Ok::<
                Option<Seq<Field>>,
                QpackError,
            >(Some(list))
        }),
{
    encoder::lemma_lowest(e.pending, e.known_received);
    match u {
        Use::Literal { field } => {
            if e.insertable(field) {
                lemma_insertion(e, field);
                let i = Instruction::InsertLiteral { name: field.0, value: field.1 };
                laws::lemma_instruction_replays(e, field, 0, 0, d.known_received);
                lemma_instruction_followed(d, e, i);
            } else {
                lemma_nothing_followed(d);
            }
        },
        Use::NameRef { field } => {
            if e.insertable(field) && e.name_reference(field) is Some {
                lemma_insertion(e, field);
                table::lemma_find_named(e.table, field.0);
                static_table::lemma_index_of_name(field.0, 0);
                laws::lemma_instruction_replays(e, field, 0, 0, d.known_received);
                lemma_instruction_followed(d, e, e.name_reference(field).unwrap());
            } else {
                lemma_nothing_followed(d);
            }
        },
        Use::Duplicate { relative } => {
            let found = e.table.lookup(e.table.inserted - 1 - relative);
            if found is Some && e.insertable(found.unwrap()) {
                let f = found.unwrap();
                lemma_insertion(e, f);
                laws::lemma_instruction_replays(e, f, relative, 0, d.known_received);
                lemma_instruction_followed(d, e, Instruction::Duplicate { index: relative });
            } else {
                lemma_nothing_followed(d);
            }
        },
        Use::Capacity { capacity } => {
            if e.resizable(capacity) {
                table::lemma_with_capacity(e.table, capacity);
                let f = (Seq::<u8>::empty(), Seq::<u8>::empty());
                laws::lemma_instruction_replays(e, f, 0, capacity, d.known_received);
                lemma_instruction_followed(d, e, Instruction::SetCapacity { capacity });
            } else {
                lemma_nothing_followed(d);
            }
        },
        Use::Section { stream_id, list, base } => {
            lemma_section_followed(d, e, stream_id, list, base);
        },
        Use::Heard { octets } => {
            lemma_nothing_followed(d);
            lemma_absorb_all(e, e.decoder_pending + octets);
        },
    }
}

/// An insertion keeps the encoder valid.
proof fn lemma_insertion(e: EncoderState, f: Field)
    requires
        e.valid(),
        e.insertable(f),
    ensures
        e.inserting(f).valid(),
{
    table::lemma_insert(e.table, f);
}

/// A decoder in step takes an instruction that applies.
proof fn lemma_instruction_followed(d: DecoderState, e: EncoderState, i: Instruction)
    requires
        e.valid(),
        d.valid(),
        in_step(d, e),
        e.max_capacity <= u64::MAX,
        wire::instruction_fits(i),
        wire::apply(e.table, e.max_capacity, d.known_received, i) is Some,
    ensures
        ({
            let (fed, result) = d.feed_encoder(wire::instruction_octets(i, e.compress));
            let t = wire::apply(e.table, e.max_capacity, d.known_received, i).unwrap();
            &&& result == Ok::<Seq<(u64, Seq<Field>)>, QpackError>(Seq::empty())
            &&& fed == (DecoderState {
                table: t,
                known_received: t.inserted,
                outgoing: fed.outgoing,
                ..d
            })
            &&& fed.valid()
        }),
{
    let o = wire::instruction_octets(i, e.compress);
    laws::lemma_run_nothing(e.table, e.max_capacity, d.known_received);
    laws::lemma_run_push(
        e.table,
        e.max_capacity,
        d.known_received,
        Seq::empty(),
        e.table,
        i,
        e.compress,
    );
    assert(Seq::<u8>::empty() + o =~= o);
    assert(d.encoder_pending + o =~= o);
    let t = wire::apply(e.table, e.max_capacity, d.known_received, i).unwrap();
    wire::lemma_apply(e.table, e.max_capacity, d.known_received, i);
    let mid = DecoderState { table: t, encoder_pending: Seq::empty(), ..d };
    assert(DecoderState { blocked: Seq::empty(), ..mid } =~= mid);
    let fed = d.feed_encoder(o).0;
    assert(fed =~= mid.increment());
    assert(fed =~= (DecoderState {
        table: t,
        known_received: t.inserted,
        outgoing: fed.outgoing,
        ..d
    }));
}

/// A decoder in step takes nothing, and stays as it is.
proof fn lemma_nothing_followed(d: DecoderState)
    requires
        d.encoder_pending.len() == 0,
        d.known_received == d.table.inserted,
        d.blocked.len() == 0,
    ensures
        d.feed_encoder(Seq::empty()) == (
            d,
            Ok::<Seq<(u64, Seq<Field>)>, QpackError>(Seq::empty()),
        ),
{
    assert(d.encoder_pending + Seq::<u8>::empty() =~= Seq::<u8>::empty());
    laws::lemma_run_nothing(d.table, d.max_capacity, d.known_received);
    let mid = DecoderState { encoder_pending: Seq::empty(), ..d };
    assert(DecoderState { blocked: Seq::empty(), ..mid } =~= d);
}

/// A decoder in step takes a field section.
proof fn lemma_section_followed(
    d: DecoderState,
    e: EncoderState,
    stream_id: u64,
    list: Seq<Field>,
    base: nat,
)
    requires
        e.valid(),
        d.valid(),
        in_step(d, e),
        e.max_capacity <= u64::MAX,
        laws::list_fits(list),
        base <= u64::MAX,
        e.table.inserted + list.len() <= u64::MAX,
    ensures
        ({
            let next = e.after_section(stream_id, list, base);
            let (fed, result) = d.feed_encoder(e.section_stream(list, base));
            let (after, decoded) = fed.decode(e.section_block(list, base), stream_id, 0);
            &&& next.valid()
            &&& after.valid()
            &&& in_step(after, next)
            &&& result == Ok::<Seq<(u64, Seq<Field>)>, QpackError>(Seq::empty())
            &&& decoded == Ok::<Option<Seq<Field>>, QpackError>(Some(list))
        }),
{
    let next = e.after_section(stream_id, list, base);
    let s = e.encode_fields(list, base);
    laws::lemma_encode_fields_valid(e, list, base);
    encoder::lemma_lowest(e.pending, e.known_received);
    assert(next.valid()) by {
        if s.ric > 0 {
            assert(next.pending.drop_last() =~= e.pending);
        }
    }
    assert(decoder::streams(d.blocked) =~= Set::empty());
    laws::lemma_end_to_end(e, d, stream_id, list, base, 0);
    let (fed, result) = d.feed_encoder(e.section_stream(list, base));
    assert(result->Ok_0 =~= Seq::empty());
    laws::lemma_section_stream_replays(e, list, base, d.known_received);
    let stream = e.section_stream(list, base);
    assert(d.encoder_pending + stream =~= stream);
    let mid = DecoderState { table: next.table, encoder_pending: Seq::empty(), ..d };
    assert(DecoderState { blocked: Seq::empty(), ..mid } =~= mid);
    assert(fed =~= mid.increment());
}

/// What is heard leaves the dynamic table alone and the encoder valid.
proof fn lemma_absorb_all(e: EncoderState, s: Seq<u8>)
    requires
        e.valid(),
    ensures
        ({
            let next = e.absorb_all(s).0;
            &&& next.valid()
            &&& next.table == e.table
            &&& next.max_capacity == e.max_capacity
        }),
    decreases s.len(),
{
    if let Some(n) = wire::ack_length(s) {
        if 1 <= n <= s.len() {
            if let Some(a) = wire::parse_ack(s.take(n as int)) {
                if e.absorb(a) is Some {
                    encoder::lemma_absorb(e, a);
                    lemma_absorb_all(e.absorb(a).unwrap(), s.skip(n as int));
                }
            }
        }
    }
}

/// An encoder after a history, and the decoder that followed it.
pub open spec fn after(e: EncoderState, d: DecoderState, uses: Seq<Use>) -> (
    EncoderState,
    DecoderState,
)
    decreases uses.len(),
{
    if uses.len() == 0 {
        (e, d)
    } else {
        let (x, y) = after(e, d, uses.drop_last());
        (used(x, uses.last()).0, followed(y, x, uses.last()))
    }
}

/// Whether each use of a history fits.
pub open spec fn history_fits(e: EncoderState, d: DecoderState, uses: Seq<Use>) -> bool {
    forall|i: int|
        0 <= i < uses.len() ==> use_fits(#[trigger] after(e, d, uses.take(i)).0, uses[i])
}

/// Whatever an encoder was used for, and whether its strings are compressed or
/// not: a decoder with the same maximum capacity that was fed, in order, every
/// instruction that the encoder emitted, and received its sections, takes the
/// instructions of the next section without error and decodes the section to its
/// header list, the same names and values in the same order.
pub proof fn lemma_every_history_round_trips(
    max_capacity: nat,
    compress: bool,
    max_blocked_streams: nat,
    uses: Seq<Use>,
    stream_id: u64,
    list: Seq<Field>,
    base: nat,
)
    requires
        max_capacity <= u64::MAX,
        ({
            let e = EncoderState::initial(max_capacity, compress);
            let d = DecoderState::initial(max_capacity, max_blocked_streams);
            &&& history_fits(e, d, uses)
            &&& use_fits(after(e, d, uses).0, Use::Section { stream_id, list, base })
        }),
    ensures
        ({
            let start = EncoderState::initial(max_capacity, compress);
            let (e, d) = after(
                start,
                DecoderState::initial(max_capacity, max_blocked_streams),
                uses,
            );
            let (fed, result) = d.feed_encoder(e.section_stream(list, base));
            &&& e.valid()
            &&& in_step(d, e)
            &&& result == Ok::<Seq<(u64, Seq<Field>)>, QpackError>(Seq::empty())
            &&& fed.decode(e.section_block(list, base), stream_id, 0).1 == Ok::<
                Option<Seq<Field>>,
                QpackError,
            >(Some(list))
        }),
{
    let start = EncoderState::initial(max_capacity, compress);
    let first = DecoderState::initial(max_capacity, max_blocked_streams);
    assert(table::total_size(start.table.entries) == 0);
    lemma_history(start, first, uses);
    let (e, d) = after(start, first, uses);
    lemma_use_keeps_step(d, e, Use::Section { stream_id, list, base });
}

proof fn lemma_history(e: EncoderState, d: DecoderState, uses: Seq<Use>)
    requires
        e.valid(),
        d.valid(),
        in_step(d, e),
        e.max_capacity <= u64::MAX,
        history_fits(e, d, uses),
    ensures
        ({
            let (x, y) = after(e, d, uses);
            &&& x.valid()
            &&& y.valid()
            &&& in_step(y, x)
            &&& x.max_capacity == e.max_capacity
        }),
    decreases uses.len(),
{
    if uses.len() > 0 {
        let less = uses.drop_last();
        assert forall|i: int| 0 <= i < less.len() implies use_fits(
            #[trigger] after(e, d, less.take(i)).0,
            less[i],
        ) by {
            assert(less.take(i) =~= uses.take(i));
        }
        lemma_history(e, d, less);
        let n = uses.len() - 1;
        assert(uses.take(n) =~= less);
        assert(use_fits(after(e, d, uses.take(n)).0, uses[n]));
        let (x, y) = after(e, d, less);
        lemma_use_keeps_step(y, x, uses.last());
    }
}

/// The spelling of decoder stream instructions, in order.
pub open spec fn spelled(acks: Seq<Ack>) -> Seq<u8>
    decreases acks.len(),
{
    if acks.len() == 0 {
        Seq::empty()
    } else {
        wire::ack_octets(acks[0]) + spelled(acks.skip(1))
    }
}

/// Whether an instruction is an acknowledgment or a cancellation that matches no
/// outstanding section.
pub open spec fn stray(e: EncoderState, a: Ack) -> bool {
    match a {
        Ack::Section { stream_id } | Ack::Cancel { stream_id } => forall|k: int|
            0 <= k < e.pending.len() ==> (#[trigger] e.pending[k]).0 != stream_id,
        Ack::Increment { .. } => false,
    }
}

/// Only an Insert Count Increment can be an error: acknowledgments and
/// cancellations never are, however many arrive at once, and stray ones change
/// nothing.
pub proof fn lemma_only_increments_fail(e: EncoderState, acks: Seq<Ack>)
    requires
        e.decoder_pending.len() == 0,
        forall|i: int| 0 <= i < acks.len() ==> !((#[trigger] acks[i]) is Increment),
    ensures
        e.feed_decoder(spelled(acks)).1 is Ok,
        e.feed_decoder(spelled(acks)).0.table == e.table,
        e.feed_decoder(spelled(acks)).0.known_received == e.known_received,
        e.feed_decoder(spelled(acks)).0.decoder_pending.len() == 0,
        (forall|i: int| 0 <= i < acks.len() ==> stray(e, #[trigger] acks[i])) ==> e.feed_decoder(
            spelled(acks),
        ).0 == e,
{
    let s = spelled(acks);
    assert(e.decoder_pending + s =~= s);
    lemma_absorb_spelled(e, acks);
    if forall|i: int| 0 <= i < acks.len() ==> stray(e, #[trigger] acks[i]) {
        assert(e.feed_decoder(s).0 =~= e);
    }
}

proof fn lemma_absorb_spelled(e: EncoderState, acks: Seq<Ack>)
    requires
        forall|i: int| 0 <= i < acks.len() ==> !((#[trigger] acks[i]) is Increment),
    ensures
        ({
            let (next, rest) = e.absorb_all(spelled(acks));
            &&& rest == Some(Seq::<u8>::empty())
            &&& next == (EncoderState { pending: next.pending, ..e })
            &&& (forall|i: int| 0 <= i < acks.len() ==> stray(e, #[trigger] acks[i])) ==> next == e
        }),
    decreases acks.len(),
{
    if acks.len() == 0 {
        assert(e =~= (EncoderState { pending: e.pending, ..e }));
    } else {
        let a = acks[0];
        let tail = acks.skip(1);
        let o = wire::ack_octets(a);
        wire::lemma_ack_round_trip(a, spelled(tail));
        assert((o + spelled(tail)).take(o.len() as int) =~= o);
        assert((o + spelled(tail)).skip(o.len() as int) =~= spelled(tail));
        assert forall|i: int| 0 <= i < tail.len() implies !((#[trigger] tail[i]) is Increment) by {
            assert(tail[i] == acks[i + 1]);
        }
        let next = e.absorb(a).unwrap();
        lemma_absorb_spelled(next, tail);
        if forall|i: int| 0 <= i < acks.len() ==> stray(e, #[trigger] acks[i]) {
            assert(stray(e, acks[0]));
            match a {
                Ack::Section { stream_id } => {
                    encoder::lemma_acknowledged_none(e.pending, stream_id);
                },
                Ack::Cancel { stream_id } => {
                    encoder::lemma_others_none(e.pending, stream_id);
                },
                Ack::Increment { .. } => {},
            }
            assert(next =~= e);
            assert forall|i: int| 0 <= i < tail.len() implies stray(next, #[trigger] tail[i]) by {
                assert(tail[i] == acks[i + 1]);
            }
        }
    }
}

} // verus!
