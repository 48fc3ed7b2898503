//! The QPACK codecs of a connection and the state they exchange with the
//! control plane and the request streams.
//!
//! There is one [`SharedCodecs`] per connection. The control plane feeds the
//! peer's encoder stream into the decoder and drains the queued encoder stream
//! instructions onto the QPACK encoder stream; every request stream decodes and
//! encodes through the same instance, so dynamic table state stays coherent
//! across the connection.

use super::qpack::decoder;
use super::qpack::decoder::DecoderState;
use super::qpack::encoder::EncoderState;
use super::qpack::table::MAX_INSERTIONS;
use super::qpack::{laws, Decoder, Encoder, QpackError, UnblockedSection};
use super::settings::{LocalSettings, PeerSettings, PeerValues};
use crate::octets;
use crate::octets::Field;
use bytes::Bytes;
use rustc_hash::FxHashMap;
use std::collections::VecDeque;
use vstd::prelude::*;

verus! {

/// The octets of each of a queue of buffers.
pub open spec fn contents(queue: Seq<Bytes>) -> Seq<Seq<u8>> {
    queue.map_values(|b: Bytes| octets::content(b))
}

pub proof fn lemma_contents_push(queue: Seq<Bytes>, b: Bytes)
    ensures
        contents(queue.push(b)) == contents(queue).push(octets::content(b)),
{
    assert(contents(queue.push(b)) =~= contents(queue).push(octets::content(b)));
}

/// `rustc_hash::FxBuildHasher`, which makes the hashers of an `FxHashMap`.
#[verifier::external_type_specification]
#[verifier::external_body]
pub struct ExFxBuildHasher(rustc_hash::FxBuildHasher);

/// `rustc_hash::FxHashMap::default`: a map without entries.
#[verifier::external_body]
fn no_queues() -> (r: FxHashMap<u64, VecDeque<UnblockedSection>>)
    ensures
        (forall|stream_id: u64| !r@.contains_key(stream_id)),
{
    FxHashMap::default()
}

/// `HashMap::remove` on a `rustc_hash::FxHashMap` takes the entry of a key out,
/// and hands its value back where there was one. Integer keys hash and compare
/// by their value.
#[verifier::external_body]
fn take_queue(m: &mut FxHashMap<u64, VecDeque<UnblockedSection>>, stream_id: u64) -> (r: Option<
    VecDeque<UnblockedSection>,
>)
    ensures
        final(m)@ == old(m)@.remove(stream_id),
        match r {
            Some(q) => old(m)@.contains_key(stream_id) && q == old(m)@[stream_id],
            None => !old(m)@.contains_key(stream_id),
        },
{
    m.remove(&stream_id)
}

/// `HashMap::insert` on a `rustc_hash::FxHashMap` sets the entry of a key, and
/// leaves the others as they are.
#[verifier::external_body]
fn put_queue(
    m: &mut FxHashMap<u64, VecDeque<UnblockedSection>>,
    stream_id: u64,
    queue: VecDeque<UnblockedSection>,
)
    ensures
        final(m)@ == old(m)@.insert(stream_id, queue),
{
    let _ = m.insert(stream_id, queue);
}

/// The header lists of a queue of sections, in order.
pub open spec fn lists(queue: Seq<UnblockedSection>) -> Seq<Seq<Field>> {
    queue.map_values(|s: UnblockedSection| octets::fields(s.headers@))
}

/// The header lists of each of the queues.
pub open spec fn queues(m: Map<u64, VecDeque<UnblockedSection>>) -> Map<u64, Seq<Seq<Field>>> {
    m.map_values(|q: VecDeque<UnblockedSection>| lists(q@))
}

/// Whether each queued section is of the stream in whose queue it is.
pub open spec fn sorted_out(m: Map<u64, VecDeque<UnblockedSection>>) -> bool {
    forall|stream_id: u64, i: int|
        m.contains_key(stream_id) && 0 <= i < m[stream_id]@.len() ==> (
        #[trigger] m[stream_id]@[i]).stream_id == stream_id
}

/// The queue of a stream, which is empty where it has none.
pub open spec fn queue_of(m: Map<u64, Seq<Seq<Field>>>, stream_id: u64) -> Seq<Seq<Field>> {
    if m.contains_key(stream_id) {
        m[stream_id]
    } else {
        Seq::empty()
    }
}

/// The queues once each of the decoded sections joined that of its stream.
pub open spec fn joined(m: Map<u64, Seq<Seq<Field>>>, list: Seq<(u64, Seq<Field>)>) -> Map<
    u64,
    Seq<Seq<Field>>,
>
    decreases list.len(),
{
    if list.len() == 0 {
        m
    } else {
        let before = joined(m, list.drop_last());
        let (stream_id, fields) = list.last();
        before.insert(stream_id, queue_of(before, stream_id).push(fields))
    }
}

/// What the codecs of a connection hold.
#[verifier::ext_equal]
pub struct CodecsState {
    pub decoder: DecoderState,
    /// `None` until the peer's SETTINGS bound the dynamic table.
    pub encoder: Option<EncoderState>,
    /// Encoder stream instructions awaiting transmission.
    pub encoder_stream: Seq<Seq<u8>>,
    /// Field sections that the peer's encoder stream unblocked: for each
    /// stream, in the order in which they were decoded.
    pub unblocked: Map<u64, Seq<Seq<Field>>>,
    /// The peer's `SETTINGS_MAX_FIELD_SECTION_SIZE`.
    pub peer_limit: Option<u64>,
}

impl CodecsState {
    /// The codecs of an endpoint with these settings, before anything arrived.
    pub open spec fn initial(local: LocalSettings) -> CodecsState {
        CodecsState {
            decoder: DecoderState {
                max_field_section_size: match local.max_field_section_size {
                    Some(size) => decoder::saturated(size as nat),
                    None => usize::MAX as nat,
                },
                ..DecoderState::initial(
                    local.qpack_max_table_capacity as nat,
                    decoder::saturated(local.qpack_blocked_streams as nat),
                )
            },
            encoder: None,
            encoder_stream: Seq::empty(),
            unblocked: Map::empty(),
            peer_limit: None,
        }
    }

    /// The codecs once the peer's settings are known.
    pub open spec fn settled(self, peer: PeerValues) -> CodecsState {
        CodecsState {
            encoder: Some(EncoderState::initial(peer.qpack_max_table_capacity as nat, true)),
            peer_limit: peer.max_field_section_size,
            ..self
        }
    }

    /// The codecs after `buf` arrived on the peer's encoder stream, and the
    /// decoder stream instructions that answer it.
    pub open spec fn feed_encoder(self, buf: Seq<u8>) -> (
        CodecsState,
        Result<Seq<u8>, QpackError>,
    ) {
        match self.decoder.feed_encoder(buf) {
            (d, Ok(list)) => (
                CodecsState {
                    decoder: DecoderState { outgoing: Seq::empty(), ..d },
                    unblocked: joined(self.unblocked, list),
                    ..self
                },
                Ok(d.outgoing),
            ),
            (d, Err(e)) => (CodecsState { decoder: d, ..self }, Err(e)),
        }
    }

    /// The codecs after the decoder has checked `buf` from the peer's decoder
    /// stream.
    pub open spec fn check_decoder(self, buf: Seq<u8>) -> (CodecsState, Result<(), QpackError>) {
        let (d, r) = self.decoder.feed_decoder(buf);
        (CodecsState { decoder: d, ..self }, r)
    }

    /// The codecs after `buf` arrived on the peer's decoder stream: the encoder
    /// tracks what it frees, and the decoder checks it.
    pub open spec fn feed_decoder(self, buf: Seq<u8>) -> (CodecsState, Result<(), QpackError>) {
        match self.encoder {
            Some(e) => match e.feed_decoder(buf) {
                (next, Ok(())) => CodecsState { encoder: Some(next), ..self }.check_decoder(buf),
                (next, Err(err)) => (CodecsState { encoder: Some(next), ..self }, Err(err)),
            },
            None => self.check_decoder(buf),
        }
    }

    /// The codecs after a field section was encoded for `stream_id`, and the
    /// encoded section; `None` before the peer's settings are known.
    pub open spec fn encode(self, stream_id: u64, list: Seq<Field>) -> (
        CodecsState,
        Option<Seq<u8>>,
    ) {
        match self.encoder {
            Some(e) => {
                let base = e.known_received;
                let stream = e.section_stream(list, base);
                (
                    CodecsState {
                        encoder: Some(e.after_section(stream_id, list, base)),
                        encoder_stream: if stream.len() == 0 {
                            self.encoder_stream
                        } else {
                            self.encoder_stream.push(stream)
                        },
                        ..self
                    },
                    Some(e.section_block(list, base)),
                )
            },
            None => (self, None),
        }
    }

    /// The codecs after the encoded field section `block` arrived on
    /// `stream_id`, and its header list, or `None` where it is blocked.
    pub open spec fn decode(self, block: Seq<u8>, stream_id: u64, now: u64) -> (
        CodecsState,
        Result<Option<Seq<Field>>, QpackError>,
    ) {
        let (d, r) = self.decoder.decode(block, stream_id, now);
        (CodecsState { decoder: d, ..self }, r)
    }

    /// The codecs without the oldest unblocked section of `stream_id`, and
    /// that section.
    pub open spec fn take_unblocked_for(self, stream_id: u64) -> (CodecsState, Option<Seq<Field>>) {
        let queue = queue_of(self.unblocked, stream_id);
        if queue.len() > 0 {
            (
                CodecsState {
                    unblocked: if queue.len() == 1 {
                        self.unblocked.remove(stream_id)
                    } else {
                        self.unblocked.insert(stream_id, queue.skip(1))
                    },
                    ..self
                },
                Some(queue[0]),
            )
        } else {
            (self, None)
        }
    }

    /// The codecs once the accumulated decoder stream instructions are taken.
    pub open spec fn drained(self) -> CodecsState {
        CodecsState { decoder: DecoderState { outgoing: Seq::empty(), ..self.decoder }, ..self }
    }

    /// The codecs once no further field section can arrive on `stream_id`.
    pub open spec fn finished(self, stream_id: u64) -> CodecsState {
        CodecsState {
            decoder: DecoderState {
                charged: self.decoder.charged.remove(stream_id),
                ..self.decoder
            },
            ..self
        }
    }

    /// Whether the insertion counter has room for what `n` more octets of the
    /// peer's encoder stream can insert.
    pub open spec fn room_to_feed(self, n: nat) -> bool {
        self.decoder.table.inserted + self.decoder.encoder_pending.len() + n <= MAX_INSERTIONS
    }

    /// Whether the insertion counter has room for a field section of `n`
    /// lines.
    pub open spec fn room_to_encode(self, n: nat) -> bool {
        self.encoder matches Some(e) ==> e.table.inserted + n <= MAX_INSERTIONS
    }
}

/// The connection's QPACK codecs plus the state they exchange with the control
/// plane and the request streams.
#[derive(Debug)]
pub struct SharedCodecs {
    /// Decoder for the peer's field sections, sized by our own SETTINGS.
    decoder: Decoder,
    /// Encoder for our field sections, created once the peer's SETTINGS bound
    /// its dynamic table; `None` before that (RFC 9204 Section 5).
    encoder: Option<Encoder>,
    /// Encoder stream instructions (RFC 9204 Section 4.2) queued by the send
    /// path; the control plane writes them on the QPACK encoder stream.
    encoder_stream: VecDeque<Bytes>,
    /// Field sections the peer's encoder stream unblocked, per stream. Each
    /// stream's sections are queued in arrival order.
    unblocked: FxHashMap<u64, VecDeque<UnblockedSection>>,
    /// The peer's `SETTINGS_MAX_FIELD_SECTION_SIZE` once its SETTINGS frame
    /// arrived; `None` means unlimited.
    peer_max_field_section_size: Option<u64>,
}

impl View for SharedCodecs {
    type V = CodecsState;

    closed spec fn view(&self) -> CodecsState {
        CodecsState {
            decoder: self.decoder@,
            encoder: match self.encoder {
                Some(e) => Some(e@),
                None => None,
            },
            encoder_stream: contents(self.encoder_stream@),
            unblocked: queues(self.unblocked@),
            peer_limit: self.peer_max_field_section_size,
        }
    }
}

/// `v`, or the largest `usize` where that is smaller.
fn saturating(v: u64) -> (r: usize)
    ensures
        r == decoder::saturated(v as nat),
{
    if v > usize::MAX as u64 {
        usize::MAX
    } else {
        v as usize
    }
}

impl SharedCodecs {
    /// Both codecs are well formed, and each section waits in the queue of its
    /// stream.
    pub closed spec fn wf(&self) -> bool {
        &&& self.decoder.wf()
        &&& self.encoder matches Some(e) ==> e.wf()
        &&& sorted_out(self.unblocked@)
    }

    /// What well-formedness says of the view.
    pub proof fn lemma_wf(&self)
        requires
            self.wf(),
        ensures
            self@.decoder.valid(),
            self@.decoder.table.inserted <= MAX_INSERTIONS,
            self@.decoder.max_capacity <= u64::MAX,
            self@.encoder matches Some(e) ==> e.valid() && e.table.inserted <= MAX_INSERTIONS
                && e.max_capacity <= u64::MAX,
    {
        self.decoder.lemma_wf();
        if let Some(e) = self.encoder {
            e.lemma_wf();
        }
    }

    /// Creates the codecs for a connection with the given local settings.
    pub fn new(local: &LocalSettings) -> (r: Self)
        ensures
            r.wf(),
            r@ == CodecsState::initial(*local),
    {
        let mut decoder = Decoder::new(
            local.qpack_max_table_capacity,
            saturating(local.qpack_blocked_streams),
        );
        // The decoder rejects inbound field sections larger than the limit
        // this endpoint advertised (RFC 9114 Section 7.2.4.1).
        let limit: usize = match local.max_field_section_size {
            Some(size) => saturating(size),
            None => usize::MAX,
        };
        decoder.set_max_field_section_size(limit);
        let r = SharedCodecs {
            decoder,
            encoder: None,
            encoder_stream: VecDeque::new(),
            unblocked: no_queues(),
            peer_max_field_section_size: None,
        };
        assert(r@.unblocked =~= Map::empty());
        assert(r@ =~= CodecsState::initial(*local));
        r
    }

    /// The decoder for the peer's field sections.
    pub fn decoder(&self) -> (r: &Decoder)
        ensures
            r@ == self@.decoder,
    {
        &self.decoder
    }

    /// The encoder for our field sections; `None` before the peer's SETTINGS
    /// arrived.
    pub fn encoder(&self) -> (r: Option<&Encoder>)
        ensures
            match self@.encoder {
                Some(state) => r matches Some(e) && e@ == state,
                None => r is None,
            },
    {
        self.encoder.as_ref()
    }

    /// The peer's `SETTINGS_MAX_FIELD_SECTION_SIZE` once its SETTINGS frame
    /// arrived; `None` means unlimited.
    pub fn peer_max_field_section_size(&self) -> (r: Option<u64>)
        ensures
            r == self@.peer_limit,
    {
        self.peer_max_field_section_size
    }

    /// Whether the peer's SETTINGS frame arrived, so that field sections can
    /// be encoded.
    pub fn has_encoder(&self) -> (r: bool)
        ensures
            r == self@.encoder is Some,
    {
        self.encoder.is_some()
    }

    /// Whether `n` more octets of the peer's encoder stream can be fed.
    pub fn can_feed(&self, n: usize) -> (r: bool)
        requires
            self.wf(),
        ensures
            r == self@.room_to_feed(n as nat),
    {
        proof {
            self.lemma_wf();
        }
        let pending: usize = self.decoder.encoder_stream_pending();
        let room: u64 = MAX_INSERTIONS - self.decoder.inserted();
        pending as u64 <= room && n as u64 <= room - pending as u64
    }

    /// Whether a field section of `n` lines can be encoded.
    pub fn can_encode(&self, n: usize) -> (r: bool)
        requires
            self.wf(),
        ensures
            r == self@.room_to_encode(n as nat),
    {
        proof {
            self.lemma_wf();
        }
        match &self.encoder {
            Some(e) => n as u64 <= MAX_INSERTIONS - e.dynamic().inserted(),
            None => true,
        }
    }

    /// Creates the encoder within the bounds of the peer's settings.
    pub fn settle(&mut self, peer: &PeerSettings)
        requires
            old(self).wf(),
        ensures
            final(self).wf(),
            final(self)@ == old(self)@.settled(peer@),
    {
        self.encoder = Some(Encoder::new(peer.qpack_max_table_capacity(), true));
        self.peer_max_field_section_size = peer.max_field_section_size();
        assert(self@ =~= old(self)@.settled(peer@));
    }

    /// Processes a chunk of the peer's encoder stream. Field sections that it
    /// unblocks are queued for the request streams; the decoder stream
    /// instructions that answer it are returned.
    pub fn feed_encoder_stream(&mut self, chunk: &[u8]) -> (r: Result<Bytes, QpackError>)
        requires
            old(self).wf(),
            old(self)@.room_to_feed(chunk@.len()),
        ensures
            final(self).wf(),
            final(self)@ == old(self)@.feed_encoder(chunk@).0,
            match old(self)@.feed_encoder(chunk@).1 {
                Ok(acks) => r matches Ok(b) && octets::content(b) == acks,
                Err(e) => r == Err::<Bytes, QpackError>(e),
            },
    {
        let ghost start = self@;
        match self.decoder.feed_encoder_stream(chunk) {
            Ok(list) => {
                let acks = self.decoder.take_decoder_stream();
                self.queue_unblocked(list);
                assert(self@ =~= start.feed_encoder(chunk@).0);
                Ok(acks)
            },
            Err(e) => {
                assert(self@ =~= start.feed_encoder(chunk@).0);
                Err(e)
            },
        }
    }

    /// Checks a chunk of the peer's decoder stream without handing it to the
    /// encoder.
    fn check_decoder_stream(&mut self, chunk: &[u8]) -> (r: Result<(), QpackError>)
        requires
            old(self).wf(),
        ensures
            final(self).wf(),
            (final(self)@, r) == old(self)@.check_decoder(chunk@),
    {
        let ghost start = self@;
        let r = self.decoder.feed_decoder_stream(chunk);
        assert(self@ =~= start.check_decoder(chunk@).0);
        r
    }

    /// Processes a chunk of the peer's decoder stream. Its instructions
    /// (Section Acknowledgments, Stream Cancellations, Insert Count
    /// Increments) acknowledge our encoder's output: the encoder tracks what
    /// they free, and the decoder validates them (RFC 9204 Sections 2.1.1 and
    /// 4.4).
    pub fn feed_decoder_stream(&mut self, chunk: &[u8]) -> (r: Result<(), QpackError>)
        requires
            old(self).wf(),
        ensures
            final(self).wf(),
            (final(self)@, r) == old(self)@.feed_decoder(chunk@),
    {
        let ghost start = self@;
        let encoder = self.encoder.take();
        if let Some(mut encoder) = encoder {
            let fed = encoder.feed_decoder_stream(chunk);
            self.encoder = Some(encoder);
            assert(self@ =~= (CodecsState {
                encoder: Some(start.encoder.unwrap().feed_decoder(chunk@).0),
                ..start
            }));
            if let Err(e) = fed {
                return Err(e);
            }
        } else {
            assert(self@ =~= start);
        }
        self.check_decoder_stream(chunk)
    }

    /// Encodes a field section for `stream_id`, with the acknowledged insert
    /// count as its Base, and queues the encoder stream instructions that go
    /// with it. `None` before the peer's SETTINGS arrived.
    pub fn encode_section(&mut self, stream_id: u64, lines: &[(Bytes, Bytes)]) -> (r: Option<Bytes>)
        requires
            old(self).wf(),
            old(self)@.room_to_encode(lines@.len()),
        ensures
            final(self).wf(),
            final(self)@ == old(self)@.encode(stream_id, octets::fields(lines@)).0,
            match old(self)@.encode(stream_id, octets::fields(lines@)).1 {
                Some(block) => r matches Some(b) && octets::content(b) == block,
                None => r is None,
            },
    {
        let ghost start = self@;
        let encoder = self.encoder.take();
        match encoder {
            Some(mut encoder) => {
                let section = encoder.encode_section_with_ack_base(stream_id, lines);
                self.encoder = Some(encoder);
                if section.encoder_stream.len() > 0 {
                    proof {
                        lemma_contents_push(self.encoder_stream@, section.encoder_stream);
                    }
                    self.encoder_stream.push_back(section.encoder_stream);
                }
                assert(self@ =~= start.encode(stream_id, octets::fields(lines@)).0);
                Some(section.block)
            },
            None => {
                assert(self@ =~= start);
                None
            },
        }
    }

    /// Takes the queued encoder stream instructions, oldest first.
    pub fn take_encoder_streams(&mut self) -> (r: VecDeque<Bytes>)
        requires
            old(self).wf(),
        ensures
            final(self).wf(),
            contents(r@) == old(self)@.encoder_stream,
            final(self)@ == (CodecsState { encoder_stream: Seq::empty(), ..old(self)@ }),
    {
        let ghost start = self@;
        let mut out: VecDeque<Bytes> = VecDeque::new();
        std::mem::swap(&mut out, &mut self.encoder_stream);
        assert(self@ =~= (CodecsState { encoder_stream: Seq::empty(), ..start }));
        out
    }

    /// Takes the decoder stream instructions accumulated so far.
    pub fn take_decoder_stream(&mut self) -> (r: Bytes)
        requires
            old(self).wf(),
        ensures
            final(self).wf(),
            octets::content(r) == old(self)@.decoder.outgoing,
            final(self)@ == old(self)@.drained(),
    {
        let ghost start = self@;
        let r = self.decoder.take_decoder_stream();
        assert(self@ =~= start.drained());
        r
    }

    /// Decodes one encoded field section. `Ok(None)` means that it is blocked
    /// on a dynamic table entry.
    pub fn decode_block(&mut self, block: &[u8], stream_id: u64, now: u64) -> (r: Result<
        Option<Vec<(Bytes, Bytes)>>,
        QpackError,
    >)
        requires
            old(self).wf(),
        ensures
            final(self).wf(),
            final(self)@ == old(self)@.decode(block@, stream_id, now).0,
            match old(self)@.decode(block@, stream_id, now).1 {
                Ok(Some(list)) => r matches Ok(Some(v)) && octets::fields(v@) == list,
                Ok(None) => r matches Ok(None),
                Err(e) => r == Err::<Option<Vec<(Bytes, Bytes)>>, QpackError>(e),
            },
    {
        let ghost start = self@;
        let r = self.decoder.decode_block(block, stream_id, now);
        assert(self@ =~= start.decode(block@, stream_id, now).0);
        r
    }

    /// Releases the decoder's field-section budget for a stream on which no
    /// further field section can arrive.
    pub fn stream_finished(&mut self, stream_id: u64)
        requires
            old(self).wf(),
        ensures
            final(self).wf(),
            final(self)@ == old(self)@.finished(stream_id),
    {
        let ghost start = self@;
        self.decoder.stream_finished(stream_id);
        assert(self@ =~= start.finished(stream_id));
    }

    /// Queues decoded sections for their streams.
    fn queue_unblocked(&mut self, list: Vec<UnblockedSection>)
        requires
            old(self).wf(),
        ensures
            final(self).wf(),
            final(self)@ == (CodecsState {
                unblocked: joined(old(self)@.unblocked, decoder::unblocked(list@)),
                ..old(self)@
            }),
    {
        let ghost start = self@;
        let ghost all = decoder::unblocked(list@);
        let ghost given = list@;
        assert(all.take(0) =~= Seq::empty());
        for section in it: list
            invariant
                self.wf(),
                it.seq() == given,
                all == decoder::unblocked(given),
                self@ == (CodecsState {
                    unblocked: joined(start.unblocked, all.take(it.index() as int)),
                    ..start
                }),
        {
            let ghost n = it.index() as int;
            let ghost before = self@.unblocked;
            let ghost f = octets::fields(section.headers@);
            let stream_id: u64 = section.stream_id;
            let mut queue: VecDeque<UnblockedSection> = match take_queue(
                &mut self.unblocked,
                stream_id,
            ) {
                Some(queue) => queue,
                None => VecDeque::new(),
            };
            let ghost old_queue = queue@;
            queue.push_back(section);
            proof {
                assert(lists(old_queue) =~= queue_of(before, stream_id));
                assert(lists(old_queue.push(section)) =~= lists(old_queue).push(f));
            }
            put_queue(&mut self.unblocked, stream_id, queue);
            proof {
                assert(all.take(n + 1).drop_last() =~= all.take(n));
                assert(all.take(n + 1).last() == (stream_id, f));
                assert(self@.unblocked =~= before.insert(
                    stream_id,
                    queue_of(before, stream_id).push(f),
                ));
                assert(self@ =~= (CodecsState {
                    unblocked: joined(start.unblocked, all.take(n + 1)),
                    ..start
                }));
            }
        }
        assert(all.take(all.len() as int) =~= all);
    }

    /// Takes the oldest unblocked field section for `stream_id`.
    pub fn take_unblocked_for(&mut self, stream_id: u64) -> (r: Option<UnblockedSection>)
        requires
            old(self).wf(),
        ensures
            final(self).wf(),
            final(self)@ == old(self)@.take_unblocked_for(stream_id).0,
            match old(self)@.take_unblocked_for(stream_id).1 {
                Some(list) => r matches Some(s) && s.stream_id == stream_id && octets::fields(
                    s.headers@,
                ) == list,
                None => r is None,
            },
    {
        let ghost start = self@;
        let mut queue = match take_queue(&mut self.unblocked, stream_id) {
            Some(queue) => queue,
            None => {
                assert(self@.unblocked =~= start.unblocked);
                assert(self@ =~= start);
                return None;
            },
        };
        let ghost before = queue@;
        assert(lists(before) == start.unblocked[stream_id]);
        let section = queue.pop_front();
        proof {
            if before.len() > 0 {
                assert(lists(before.skip(1)) =~= lists(before).skip(1));
                assert(queue@ =~= before.skip(1));
            }
        }
        if queue.len() > 0 || section.is_none() {
            put_queue(&mut self.unblocked, stream_id, queue);
        }
        proof {
            if before.len() > 0 {
                assert(self@.unblocked =~= start.take_unblocked_for(stream_id).0.unblocked);
            } else {
                assert(self@.unblocked =~= start.unblocked);
            }
            assert(self@ =~= start.take_unblocked_for(stream_id).0);
        }
        section
    }

    /// Takes every unblocked field section, by stream.
    pub fn take_unblocked(&mut self) -> (r: FxHashMap<u64, VecDeque<UnblockedSection>>)
        requires
            old(self).wf(),
        ensures
            final(self).wf(),
            queues(r@) == old(self)@.unblocked,
            sorted_out(r@),
            final(self)@ == (CodecsState { unblocked: Map::empty(), ..old(self)@ }),
    {
        let ghost start = self@;
        let mut out = no_queues();
        std::mem::swap(&mut out, &mut self.unblocked);
        assert(self@.unblocked =~= Map::empty());
        assert(self@ =~= (CodecsState { unblocked: Map::empty(), ..start }));
        out
    }
}

/// Sections come to a stream in the order in which they were decoded: a decoded
/// section joins the end of its stream's queue, taking one hands out the first,
/// and neither touches what is queued for other streams.
pub proof fn lemma_unblocked_in_order(
    c: CodecsState,
    list: Seq<(u64, Seq<Field>)>,
    stream_id: u64,
    other: u64,
)
    ensures
        queue_of(joined(c.unblocked, list), stream_id) == queue_of(c.unblocked, stream_id)
            + laws::lists_of(list, stream_id),
        ({
            let mine = queue_of(c.unblocked, stream_id);
            let (next, r) = c.take_unblocked_for(stream_id);
            &&& r == if mine.len() > 0 {
                Some(mine[0])
            } else {
                None
            }
            &&& queue_of(next.unblocked, stream_id) == if mine.len() > 0 {
                mine.skip(1)
            } else {
                mine
            }
            &&& other != stream_id ==> queue_of(next.unblocked, other) == queue_of(
                c.unblocked,
                other,
            )
        }),
    decreases list.len(),
{
    let mine = queue_of(c.unblocked, stream_id);
    if mine.len() == 1 {
        assert(mine.skip(1) =~= Seq::empty());
    }
    if list.len() > 0 {
        lemma_unblocked_in_order(c, list.drop_last(), stream_id, other);
        assert(queue_of(joined(c.unblocked, list), stream_id) =~= mine + laws::lists_of(
            list,
            stream_id,
        ));
    } else {
        assert(mine + laws::lists_of(list, stream_id) =~= mine);
    }
}

/// The codecs of a new connection: a decoder as large as was announced, and no
/// encoder yet.
pub proof fn lemma_new_codecs(local: LocalSettings)
    ensures
        ({
            let c = CodecsState::initial(local);
            &&& c.decoder.max_capacity == local.qpack_max_table_capacity
            &&& local.qpack_blocked_streams <= usize::MAX ==> c.decoder.max_blocked_streams
                == local.qpack_blocked_streams
            &&& local.max_field_section_size matches Some(n) ==> n <= usize::MAX
                ==> c.decoder.max_field_section_size == n
            &&& local.max_field_section_size is None ==> c.decoder.max_field_section_size
                == usize::MAX
            &&& c.decoder.table.inserted == 0 && c.decoder.blocked.len() == 0
            &&& c.decoder.outgoing.len() == 0 && c.decoder.encoder_pending.len() == 0
            &&& c.encoder is None
            &&& c.encoder_stream.len() == 0
            &&& c.unblocked == Map::<u64, Seq<Seq<Field>>>::empty()
            &&& c.peer_limit is None
        }),
{
}

/// All the octets of a queue, in order.
pub open spec fn queued_octets(queue: Seq<Seq<u8>>) -> Seq<u8>
    decreases queue.len(),
{
    if queue.len() == 0 {
        Seq::empty()
    } else {
        queued_octets(queue.drop_last()) + queue.last()
    }
}

/// Encoding a section hands out its block and queues its instructions behind those
/// before them, all of them; without an encoder there is neither. The Base is what
/// the peer has acknowledged.
pub proof fn lemma_sections_are_encoded(c: CodecsState, stream_id: u64, list: Seq<Field>)
    ensures
        ({
            let (after, block) = c.encode(stream_id, list);
            match c.encoder {
                None => after == c && block is None,
                Some(e) => {
                    &&& block == Some(e.section_block(list, e.known_received))
                    &&& after.encoder == Some(e.after_section(stream_id, list, e.known_received))
                    &&& queued_octets(after.encoder_stream) == queued_octets(c.encoder_stream)
                        + e.section_stream(list, e.known_received)
                    &&& after == (CodecsState {
                        encoder: after.encoder,
                        encoder_stream: after.encoder_stream,
                        ..c
                    })
                },
            }
        }),
{
    if let Some(e) = c.encoder {
        let stream = e.section_stream(list, e.known_received);
        if stream.len() == 0 {
            assert(queued_octets(c.encoder_stream) + stream =~= queued_octets(c.encoder_stream));
        } else {
            assert(c.encoder_stream.push(stream).drop_last() =~= c.encoder_stream);
        }
    }
}

/// What the peer's encoder stream brings goes to the decoder: what it has to say is
/// handed out, all of it, and every section that it decodes joins the queue of its
/// stream.
pub proof fn lemma_encoder_stream_is_fed(c: CodecsState, buf: Seq<u8>, stream_id: u64)
    ensures
        ({
            let (d, answer) = c.decoder.feed_encoder(buf);
            let (after, r) = c.feed_encoder(buf);
            &&& answer matches Ok(list) ==> {
                &&& r == Ok::<Seq<u8>, QpackError>(d.outgoing)
                &&& after.decoder == (DecoderState { outgoing: Seq::empty(), ..d })
                &&& queue_of(after.unblocked, stream_id) == queue_of(c.unblocked, stream_id)
                    + laws::lists_of(list, stream_id)
            }
            &&& answer matches Err(e) ==> r == Err::<Seq<u8>, QpackError>(e) && after.decoder == d
                && after.unblocked == c.unblocked
            &&& after == (CodecsState {
                decoder: after.decoder,
                unblocked: after.unblocked,
                ..c
            })
        }),
{
    if let Ok(list) = c.decoder.feed_encoder(buf).1 {
        lemma_unblocked_in_order(c, list, stream_id, stream_id);
    }
}

/// What the peer's decoder stream brings goes to the encoder and to the decoder,
/// and is refused where either refuses it.
pub proof fn lemma_decoder_stream_is_fed(c: CodecsState, buf: Seq<u8>)
    ensures
        ({
            let (after, r) = c.feed_decoder(buf);
            let (d, checked) = c.decoder.feed_decoder(buf);
            &&& c.encoder is None ==> after == (CodecsState { decoder: d, ..c }) && r == checked
            &&& c.encoder matches Some(e) ==> {
                let (next, heard) = e.feed_decoder(buf);
                &&& after.encoder == Some(next)
                &&& heard is Err ==> r == heard && after.decoder == c.decoder
                &&& heard is Ok ==> r == checked && after.decoder == d
                &&& after == (CodecsState { encoder: Some(next), decoder: after.decoder, ..c })
            }
        }),
{
}

/// A stream that is over is charged nothing any more, and no other stream changes;
/// and what is taken to be sent is gone, and nothing else.
pub proof fn lemma_streams_are_over(c: CodecsState, stream_id: u64, other: u64)
    ensures
        c.finished(stream_id).decoder.charged_to(stream_id) == 0,
        other != stream_id ==> c.finished(stream_id).decoder.charged_to(other)
            == c.decoder.charged_to(other),
        c.finished(stream_id) == (CodecsState {
            decoder: DecoderState {
                charged: c.finished(stream_id).decoder.charged,
                ..c.decoder
            },
            ..c
        }),
        c.drained().decoder.outgoing.len() == 0,
        c.drained() == (CodecsState {
            decoder: DecoderState { outgoing: c.drained().decoder.outgoing, ..c.decoder },
            ..c
        }),
{
}

/// The queues stand for the sections that they hold.
pub proof fn lemma_queues_stand_for_themselves(
    m: Map<u64, VecDeque<UnblockedSection>>,
    queue: Seq<Bytes>,
    id: u64,
)
    ensures
        queues(m).contains_key(id) <==> m.contains_key(id),
        m.contains_key(id) ==> queues(m)[id].len() == m[id]@.len() && forall|i: int|
            0 <= i < m[id]@.len() ==> #[trigger] queues(m)[id][i] == octets::fields(
                m[id]@[i].headers@,
            ),
        contents(queue).len() == queue.len(),
        forall|i: int|
            0 <= i < queue.len() ==> #[trigger] contents(queue)[i] == octets::content(queue[i]),
{
}

} // verus!
