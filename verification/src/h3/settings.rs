//! HTTP/3 connection settings (RFC 9114 Section 7.2.4).
//!
//! Each endpoint advertises its own limits in the SETTINGS frame that opens its
//! control stream; the driver interprets the peer's values from here. The values
//! that shape our own codecs (the QPACK decoder's capacity and blocked-stream
//! budget in [`LocalSettings`], and the QPACK encoder's bound on the peer's
//! dynamic table in [`PeerSettings`]) are the settings each side understands.
//!
//! Validation of the SETTINGS *frame* (reserved identifiers, duplicates) is the
//! frame codec's job; this module only extracts values.

use crate::h3::frame;
use crate::h3::frame::{
    Setting, Settings as FrameSettings, SETTINGS_ENABLE_CONNECT_PROTOCOL,
    SETTINGS_MAX_FIELD_SECTION_SIZE, SETTINGS_QPACK_BLOCKED_STREAMS,
    SETTINGS_QPACK_MAX_TABLE_CAPACITY,
};
use vstd::prelude::*;

verus! {

/// The peer's settings as negotiated by its SETTINGS frame, with the
/// RFC-default values for everything it did not send.
///
/// The default for `max_field_section_size` is unlimited (RFC 9114
/// Section 7.2.4.1); the QPACK settings default to 0 (RFC 9204 Section 5).
#[derive(Debug, Clone, Copy, PartialEq, Eq)]
pub struct PeerSettings {
    qpack_max_table_capacity: u64,
    max_field_section_size: Option<u64>,
    qpack_blocked_streams: u64,
    enable_connect_protocol: bool,
}

/// The peer's settings as a value.
pub struct PeerValues {
    pub qpack_max_table_capacity: u64,
    pub max_field_section_size: Option<u64>,
    pub qpack_blocked_streams: u64,
    pub enable_connect_protocol: bool,
}

impl PeerValues {
    /// What holds of a peer that sent no settings.
    pub open spec fn initial() -> PeerValues {
        PeerValues {
            qpack_max_table_capacity: 0,
            max_field_section_size: None,
            qpack_blocked_streams: 0,
            enable_connect_protocol: false,
        }
    }

    /// The settings with one received parameter. Unknown identifiers are
    /// ignored.
    pub open spec fn with(self, p: Setting) -> PeerValues {
        if p.0 == SETTINGS_QPACK_MAX_TABLE_CAPACITY {
            PeerValues { qpack_max_table_capacity: p.1, ..self }
        } else if p.0 == SETTINGS_MAX_FIELD_SECTION_SIZE {
            PeerValues { max_field_section_size: Some(p.1), ..self }
        } else if p.0 == SETTINGS_QPACK_BLOCKED_STREAMS {
            PeerValues { qpack_blocked_streams: p.1, ..self }
        } else if p.0 == SETTINGS_ENABLE_CONNECT_PROTOCOL {
            PeerValues { enable_connect_protocol: p.1 != 0, ..self }
        } else {
            self
        }
    }

    /// The settings with all the parameters of `list`, in order.
    pub open spec fn with_all(self, list: Seq<Setting>) -> PeerValues
        decreases list.len(),
    {
        if list.len() == 0 {
            self
        } else {
            self.with_all(list.drop_last()).with(list.last())
        }
    }
}

impl View for PeerSettings {
    type V = PeerValues;

    closed spec fn view(&self) -> PeerValues {
        PeerValues {
            qpack_max_table_capacity: self.qpack_max_table_capacity,
            max_field_section_size: self.max_field_section_size,
            qpack_blocked_streams: self.qpack_blocked_streams,
            enable_connect_protocol: self.enable_connect_protocol,
        }
    }
}

impl Default for PeerSettings {
    fn default() -> (r: Self)
        ensures
            r@ == PeerValues::initial(),
    {
        PeerSettings {
            qpack_max_table_capacity: 0,
            max_field_section_size: None,
            qpack_blocked_streams: 0,
            enable_connect_protocol: false,
        }
    }
}

impl PeerSettings {
    /// The peer's `SETTINGS_QPACK_MAX_TABLE_CAPACITY`: the dynamic table
    /// capacity our encoder may use on its encoder stream (RFC 9204
    /// Section 5).
    pub fn qpack_max_table_capacity(&self) -> (r: u64)
        ensures
            r == self@.qpack_max_table_capacity,
    {
        self.qpack_max_table_capacity
    }

    /// The peer's `SETTINGS_MAX_FIELD_SECTION_SIZE`: the largest field section
    /// it will accept, or `None` when unlimited.
    pub fn max_field_section_size(&self) -> (r: Option<u64>)
        ensures
            r == self@.max_field_section_size,
    {
        self.max_field_section_size
    }

    /// The peer's `SETTINGS_QPACK_BLOCKED_STREAMS`: how many of its field
    /// sections may block waiting for dynamic table entries.
    pub fn qpack_blocked_streams(&self) -> (r: u64)
        ensures
            r == self@.qpack_blocked_streams,
    {
        self.qpack_blocked_streams
    }

    /// The peer's `SETTINGS_ENABLE_CONNECT_PROTOCOL`.
    pub fn enable_connect_protocol(&self) -> (r: bool)
        ensures
            r == self@.enable_connect_protocol,
    {
        self.enable_connect_protocol
    }

    /// Overlays the values of a received SETTINGS frame onto these settings.
    /// Unknown identifiers are ignored (their grease handling is the frame
    /// codec's); known ones replace the previous values.
    pub fn apply(&mut self, settings: &FrameSettings)
        ensures
            final(self)@ == old(self)@.with_all(settings@),
    {
        let entries = settings.iter();
        let ghost start = self@;
        let mut i: usize = 0;
        assert(entries@.take(0) =~= Seq::empty());
        while i < entries.len()
            invariant
                i <= entries@.len(),
                self@ == start.with_all(entries@.take(i as int)),
            decreases entries@.len() - i,
        {
            let (id, value) = entries[i];
            proof {
                assert(entries@.take(i + 1).drop_last() =~= entries@.take(i as int));
                assert(entries@.take(i + 1).last() == (id, value));
            }
            if id == SETTINGS_QPACK_MAX_TABLE_CAPACITY {
                self.qpack_max_table_capacity = value;
            } else if id == SETTINGS_MAX_FIELD_SECTION_SIZE {
                self.max_field_section_size = Some(value);
            } else if id == SETTINGS_QPACK_BLOCKED_STREAMS {
                self.qpack_blocked_streams = value;
            } else if id == SETTINGS_ENABLE_CONNECT_PROTOCOL {
                self.enable_connect_protocol = value != 0;
            }
            i = i + 1;
        }
        assert(entries@.take(i as int) =~= entries@);
    }
}

/// The settings this endpoint advertises in its SETTINGS frame.
///
/// The values bound this endpoint's own codecs: the decoder's table capacity and
/// blocked-stream budget come from `qpack_max_table_capacity` and
/// `qpack_blocked_streams`; the peer's encoder is limited by them in turn.
/// `max_field_section_size` bounds how large a field section this endpoint will
/// accept.
#[derive(Debug, Clone, Copy, PartialEq, Eq)]
pub struct LocalSettings {
    /// `SETTINGS_QPACK_MAX_TABLE_CAPACITY`; must not exceed 2^30 - 1 (RFC 9204
    /// Section 5).
    pub qpack_max_table_capacity: u64,
    /// `SETTINGS_QPACK_BLOCKED_STREAMS`.
    pub qpack_blocked_streams: u64,
    /// `SETTINGS_MAX_FIELD_SECTION_SIZE`; `None` means unlimited (the RFC
    /// default).
    pub max_field_section_size: Option<u64>,
    /// `SETTINGS_ENABLE_CONNECT_PROTOCOL`.
    pub enable_connect_protocol: bool,
}

impl Default for LocalSettings {
    fn default() -> (r: Self)
        ensures
            r == (LocalSettings {
                qpack_max_table_capacity: 0,
                qpack_blocked_streams: 0,
                max_field_section_size: Some(65_536),
                enable_connect_protocol: false,
            }),
    {
        LocalSettings {
            qpack_max_table_capacity: 0,
            qpack_blocked_streams: 0,
            max_field_section_size: Some(65_536),
            enable_connect_protocol: false,
        }
    }
}

impl LocalSettings {
    /// Whether the advertised table capacity is within the limit of RFC 9204
    /// Section 5.
    pub open spec fn capacity_allowed(self) -> bool {
        self.qpack_max_table_capacity < 0x4000_0000
    }

    /// Whether the values are variable-length integers.
    pub open spec fn fits(self) -> bool {
        &&& self.capacity_allowed()
        &&& self.qpack_blocked_streams <= frame::MAX_VARINT
        &&& self.max_field_section_size matches Some(size) ==> size <= frame::MAX_VARINT
    }

    /// Whether these settings can be announced.
    pub fn is_valid(&self) -> (r: bool)
        ensures
            r == self.fits(),
    {
        let sized: bool = match self.max_field_section_size {
            Some(size) => size <= frame::MAX_VARINT,
            None => true,
        };
        self.qpack_max_table_capacity < 0x4000_0000 && self.qpack_blocked_streams
            <= frame::MAX_VARINT && sized
    }

    /// The parameters that [`LocalSettings::to_frame`] announces.
    pub open spec fn parameters(self) -> Seq<Setting> {
        let base = seq![
            (SETTINGS_QPACK_MAX_TABLE_CAPACITY, self.qpack_max_table_capacity),
            (SETTINGS_QPACK_BLOCKED_STREAMS, self.qpack_blocked_streams),
        ];
        let sized = match self.max_field_section_size {
            Some(size) => base.push((SETTINGS_MAX_FIELD_SECTION_SIZE, size)),
            None => base,
        };
        let connect = if self.enable_connect_protocol {
            sized.push((SETTINGS_ENABLE_CONNECT_PROTOCOL, 1))
        } else {
            sized
        };
        connect.push((0x21, 0))
    }

    /// The SETTINGS frame payload this endpoint sends as the first frame of its
    /// control stream.
    ///
    /// Includes a reserved (grease) identifier, as RFC 9114 Section 7.2.4.1
    /// recommends; receivers must ignore it.
    pub fn to_frame(&self) -> (r: FrameSettings)
        requires
            self.capacity_allowed(),
        ensures
            r@ == self.parameters(),
    {
        let mut frame: FrameSettings = FrameSettings::new();
        frame.insert(SETTINGS_QPACK_MAX_TABLE_CAPACITY, self.qpack_max_table_capacity);
        frame.insert(SETTINGS_QPACK_BLOCKED_STREAMS, self.qpack_blocked_streams);
        if let Some(size) = self.max_field_section_size {
            frame.insert(SETTINGS_MAX_FIELD_SECTION_SIZE, size);
        }
        if self.enable_connect_protocol {
            frame.insert(SETTINGS_ENABLE_CONNECT_PROTOCOL, 1);
        }
        frame.insert(0x21, 0);
        assert(frame@ =~= self.parameters());
        frame
    }
}

/// What the peer of an endpoint with these settings comes to know.
pub open spec fn announced(local: LocalSettings) -> PeerValues {
    PeerValues {
        qpack_max_table_capacity: local.qpack_max_table_capacity,
        max_field_section_size: local.max_field_section_size,
        qpack_blocked_streams: local.qpack_blocked_streams,
        enable_connect_protocol: local.enable_connect_protocol,
    }
}

proof fn lemma_with_all_push(v: PeerValues, list: Seq<Setting>, p: Setting)
    ensures
        v.with_all(list.push(p)) == v.with_all(list).with(p),
{
    assert(list.push(p).drop_last() =~= list);
}

proof fn lemma_kept_push(list: Seq<Setting>, p: Setting)
    ensures
        frame::kept_settings(list.push(p)) == if frame::grease(p.0 as nat) {
            frame::kept_settings(list)
        } else {
            frame::kept_settings(list).push(p)
        },
{
    assert(list.push(p).drop_last() =~= list);
}

/// What an endpoint advertises is what its peer learns, from the parameters
/// themselves and from what is left of them after a trip over the wire.
pub proof fn lemma_settings_round_trip(local: LocalSettings)
    ensures
        PeerValues::initial().with_all(local.parameters()) == announced(local),
        PeerValues::initial().with_all(frame::kept_settings(local.parameters())) == announced(
            local,
        ),
{
    let v = PeerValues::initial();
    let e = Seq::<Setting>::empty();
    let a = (SETTINGS_QPACK_MAX_TABLE_CAPACITY, local.qpack_max_table_capacity);
    let b = (SETTINGS_QPACK_BLOCKED_STREAMS, local.qpack_blocked_streams);
    let base = seq![a, b];
    assert(base =~= e.push(a).push(b));
    assert(v.with_all(e) == v);
    assert(frame::kept_settings(e) =~= e);
    lemma_with_all_push(v, e, a);
    lemma_with_all_push(v, e.push(a), b);
    lemma_kept_push(e, a);
    lemma_kept_push(e.push(a), b);
    let sized = match local.max_field_section_size {
        Some(size) => base.push((SETTINGS_MAX_FIELD_SECTION_SIZE, size)),
        None => base,
    };
    if let Some(size) = local.max_field_section_size {
        lemma_with_all_push(v, base, (SETTINGS_MAX_FIELD_SECTION_SIZE, size));
        lemma_kept_push(base, (SETTINGS_MAX_FIELD_SECTION_SIZE, size));
    }
    let connect = if local.enable_connect_protocol {
        sized.push((SETTINGS_ENABLE_CONNECT_PROTOCOL, 1))
    } else {
        sized
    };
    if local.enable_connect_protocol {
        lemma_with_all_push(v, sized, (SETTINGS_ENABLE_CONNECT_PROTOCOL, 1));
        lemma_kept_push(sized, (SETTINGS_ENABLE_CONNECT_PROTOCOL, 1));
    }
    lemma_with_all_push(v, connect, (0x21, 0));
    lemma_kept_push(connect, (0x21, 0));
    assert(frame::grease(0x21));
    assert(frame::kept_settings(local.parameters()) =~= connect);
}

/// The SETTINGS frame an endpoint sends is legal, always carries the reserved
/// identifier, and decodes to what its peer has to learn.
pub proof fn lemma_settings_frame(local: LocalSettings, rest: Seq<u8>)
    requires
        local.fits(),
    ensures
        frame::settings_legal(local.parameters()),
        frame::settings_fit(local.parameters()),
        local.parameters().contains((0x21, 0)),
        ({
            let f = frame::FrameValue::Settings(local.parameters());
            &&& frame::frame_fits(f)
            &&& frame::next_frame(frame::frame_octets(f) + rest) == (
                Ok::<Option<frame::FrameValue>, frame::FrameError>(
                    Some(frame::FrameValue::Settings(frame::kept_settings(local.parameters()))),
                ),
                rest,
            )
        }),
{
    let list = local.parameters();
    assert(list[list.len() - 1] == (0x21u64, 0u64));
    lemma_payload_bound(list);
    frame::lemma_frame_round_trip(frame::FrameValue::Settings(list), rest);
}

/// Each parameter takes at most sixteen octets.
pub proof fn lemma_payload_bound(list: Seq<Setting>)
    requires
        frame::settings_fit(list),
    ensures
        frame::settings_octets(list).len() <= 16 * list.len(),
    decreases list.len(),
{
    if list.len() > 0 {
        let d = list.drop_last();
        assert forall|i: int| 0 <= i < d.len() implies (#[trigger] d[i]).0 <= frame::MAX_VARINT
            && d[i].1 <= frame::MAX_VARINT by {
            assert(d[i] == list[i]);
        }
        lemma_payload_bound(d);
        assert(list[list.len() - 1] == list.last());
        frame::lemma_varint_round_trip(list.last().0 as nat, Seq::empty());
        frame::lemma_varint_round_trip(list.last().1 as nat, Seq::empty());
    }
}

} // verus!
