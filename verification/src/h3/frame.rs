//! HTTP/3 frame codec (RFC 9114 Section 7).
//!
//! Frames on HTTP/3 streams have the layout `Type (i), Length (i), Frame
//! Payload (..)` where `Type` and `Length` are QUIC variable-length integers
//! (RFC 9000 Section 16). This module provides:
//!
//! - [`FrameDecoder`]: an incremental, buffer-owning decoder. The driver feeds
//!   received bytes in and pulls completed [`Frame`]s out; `Ok(None)` means more
//!   input is needed. Unknown and reserved (grease) frame types are skipped
//!   without surfacing, per RFC 9114 Section 7.2.8.
//! - [`Frame::encode`]: the corresponding serializer.
//!
//! Parse-level validation follows RFC 9114 Section 7.1: a frame payload must
//! contain exactly the fields identified for its type; extra bytes and truncated
//! fields are `H3_FRAME_ERROR`, as are redundant (non-minimal) variable-length
//! integer encodings (Section 10.8, RFC 9000 Section 16). HTTP/2 frame types
//! without an HTTP/3 equivalent (PRIORITY, PING, WINDOW_UPDATE, CONTINUATION)
//! are `H3_FRAME_UNEXPECTED` (Section 7.2.8).
//!
//! What this module deliberately does *not* enforce is the driver's
//! (connection-state) job:
//!
//! - stream-type rules (which frame types are legal on which stream, and that
//!   SETTINGS is first on the control stream),
//! - `SETTINGS_MAX_FIELD_SECTION_SIZE` limits on HEADERS/PUSH_PROMISE payloads,
//! - push ID / stream ID semantics (`H3_ID_ERROR`).
//!
//! A clean end of stream (FIN) with `buffered() != 0` means the last frame was
//! truncated; RFC 9114 Section 7.1 requires that be treated as `H3_FRAME_ERROR`
//! by the driver.

use crate::h3::error::H3Error;
use crate::octets;
use crate::octets::{advance, as_slice, as_slice_mut, put_u16, put_u32, put_u64, put_u8};
use bytes::{Bytes, BytesMut};
use vstd::prelude::*;
use vstd::slice::*;

verus! {

/// The largest value a QUIC variable-length integer can carry.
pub const MAX_VARINT: u64 = 0x3fff_ffff_ffff_ffff;

/// `DATA` frame type (RFC 9114 Section 7.2.1).
pub const FRAME_DATA: u64 = 0x0;

/// `HEADERS` frame type (RFC 9114 Section 7.2.2).
pub const FRAME_HEADERS: u64 = 0x1;

/// `CANCEL_PUSH` frame type (RFC 9114 Section 7.2.3).
pub const FRAME_CANCEL_PUSH: u64 = 0x3;

/// `SETTINGS` frame type (RFC 9114 Section 7.2.4).
pub const FRAME_SETTINGS: u64 = 0x4;

/// `PUSH_PROMISE` frame type (RFC 9114 Section 7.2.5).
pub const FRAME_PUSH_PROMISE: u64 = 0x5;

/// `GOAWAY` frame type (RFC 9114 Section 7.2.6).
pub const FRAME_GOAWAY: u64 = 0x7;

/// `MAX_PUSH_ID` frame type (RFC 9114 Section 7.2.7).
pub const FRAME_MAX_PUSH_ID: u64 = 0xd;

/// `SETTINGS_QPACK_MAX_TABLE_CAPACITY` (RFC 9204 Section 5).
pub const SETTINGS_QPACK_MAX_TABLE_CAPACITY: u64 = 0x1;

/// `SETTINGS_MAX_FIELD_SECTION_SIZE` (RFC 9114 Section 7.2.4.1).
pub const SETTINGS_MAX_FIELD_SECTION_SIZE: u64 = 0x6;

/// `SETTINGS_QPACK_BLOCKED_STREAMS` (RFC 9204 Section 5).
pub const SETTINGS_QPACK_BLOCKED_STREAMS: u64 = 0x7;

/// `SETTINGS_ENABLE_CONNECT_PROTOCOL` (RFC 9114 Section 7.2.4.1).
pub const SETTINGS_ENABLE_CONNECT_PROTOCOL: u64 = 0x8;

/// `SETTINGS_H3_DATAGRAM` (RFC 9297 Section 3.1).
pub const SETTINGS_H3_DATAGRAM: u64 = 0x33;

/// A single SETTINGS parameter: `(identifier, value)`.
pub type Setting = (u64, u64);

// ---------------------------------------------------------------------------
// Variable-length integers
// ---------------------------------------------------------------------------

/// The number of octets that `v` takes as a variable-length integer.
pub open spec fn varint_len(v: nat) -> nat {
    if v < 0x40 {
        1
    } else if v < 0x4000 {
        2
    } else if v < 0x4000_0000 {
        4
    } else {
        8
    }
}

/// What the two length bits add to the value of a variable-length integer of
/// `n` octets.
pub open spec fn varint_tag(n: nat) -> nat {
    if n == 1 {
        0
    } else if n == 2 {
        0x4000
    } else if n == 4 {
        0x8000_0000
    } else {
        0xC000_0000_0000_0000
    }
}

/// The variable-length integer for `v` (RFC 9000 Section 16).
#[verifier::opaque]
pub open spec fn varint_octets(v: nat) -> Seq<u8> {
    octets::big_endian(v + varint_tag(varint_len(v)), varint_len(v))
}

/// The length that the first octet of a variable-length integer announces.
pub open spec fn announced_len(first: u8) -> nat {
    if first < 0x40 {
        1
    } else if first < 0x80 {
        2
    } else if first < 0xC0 {
        4
    } else {
        8
    }
}

/// The number that `s` spells, most significant octet first.
pub open spec fn be_value(s: Seq<u8>) -> nat
    decreases s.len(),
{
    if s.len() == 0 {
        0
    } else {
        256 * be_value(s.drop_last()) + s.last() as nat
    }
}

/// What the start of a buffer holds as a variable-length integer.
pub enum Varint {
    /// The buffer ends before the integer does.
    More,
    /// The integer is not encoded in the fewest octets.
    Redundant,
    /// An integer and its length.
    Value { value: nat, len: nat },
}

/// The variable-length integer that `s` starts with.
#[verifier::opaque]
pub open spec fn read_varint(s: Seq<u8>) -> Varint {
    if s.len() == 0 {
        Varint::More
    } else {
        let n = announced_len(s[0]);
        if s.len() < n {
            Varint::More
        } else {
            let v = (be_value(s.take(n as int)) - varint_tag(n)) as nat;
            if varint_len(v) != n {
                Varint::Redundant
            } else {
                Varint::Value { value: v, len: n }
            }
        }
    }
}

proof fn lemma_be_round_trip(v: nat, n: nat)
    requires
        v < pow256(n),
    ensures
        be_value(octets::big_endian(v, n)) == v,
        octets::big_endian(v, n).len() == n,
    decreases n,
{
    if n > 0 {
        lemma_be_round_trip(v / 256, (n - 1) as nat);
        assert(octets::big_endian(v, n).drop_last() =~= octets::big_endian(
            v / 256,
            (n - 1) as nat,
        ));
    }
}

spec fn pow256(n: nat) -> nat
    decreases n,
{
    if n == 0 {
        1
    } else {
        256 * pow256((n - 1) as nat)
    }
}

proof fn lemma_be_bound(s: Seq<u8>)
    ensures
        be_value(s) < pow256(s.len()),
    decreases s.len(),
{
    if s.len() > 0 {
        lemma_be_bound(s.drop_last());
    }
}

/// `x` followed by `k` zero octets.
spec fn scaled(x: nat, k: nat) -> nat
    decreases k,
{
    if k == 0 {
        x
    } else {
        256 * scaled(x, (k - 1) as nat)
    }
}

/// The first octet is the most significant.
proof fn lemma_be_first(s: Seq<u8>, low: nat, high: nat)
    requires
        s.len() > 0,
        low <= s[0] < high,
    ensures
        scaled(low, (s.len() - 1) as nat) <= be_value(s) < scaled(high, (s.len() - 1) as nat),
    decreases s.len(),
{
    let d = s.drop_last();
    if s.len() == 1 {
        assert(be_value(d) == 0);
        assert(s.last() == s[0]);
    } else {
        assert(d[0] == s[0]);
        lemma_be_first(d, low, high);
    }
}

proof fn lemma_scaled_values()
    ensures
        scaled(0x40, 0) == 0x40,
        scaled(0x40, 1) == 0x4000,
        scaled(0x80, 1) == 0x8000,
        scaled(0x80, 3) == 0x8000_0000,
        scaled(0xC0, 3) == 0xC000_0000,
        scaled(0xC0, 7) == 0xC000_0000_0000_0000,
        scaled(0x100, 7) == 0x1_0000_0000_0000_0000,
{
    reveal_with_fuel(scaled, 8);
}

proof fn lemma_pow256_values()
    ensures
        pow256(0) == 1,
        pow256(1) == 0x100,
        pow256(2) == 0x1_0000,
        pow256(3) == 0x100_0000,
        pow256(4) == 0x1_0000_0000,
        pow256(7) == 0x100_0000_0000_0000,
        pow256(8) == 0x1_0000_0000_0000_0000,
{
    reveal_with_fuel(pow256, 9);
}

/// The first octet of an encoded integer announces its length.
proof fn lemma_announced(s: Seq<u8>, n: nat, v: nat)
    requires
        n == 1 || n == 2 || n == 4 || n == 8,
        s.len() == n,
        be_value(s) == v + varint_tag(n),
        v <= MAX_VARINT,
        n >= varint_len(v),
    ensures
        announced_len(s[0]) == n,
{
    lemma_scaled_values();
    let b = s[0];
    if b < 0x40 {
        lemma_be_first(s, 0, 0x40);
    } else if b < 0x80 {
        lemma_be_first(s, 0x40, 0x80);
    } else if b < 0xC0 {
        lemma_be_first(s, 0x80, 0xC0);
    } else {
        lemma_be_first(s, 0xC0, 0x100);
    }
    lemma_scaled_more();
}

proof fn lemma_scaled_more()
    ensures
        scaled(0, 0) == 0,
        scaled(0, 1) == 0,
        scaled(0, 3) == 0,
        scaled(0, 7) == 0,
        scaled(0x40, 3) == 0x4000_0000,
        scaled(0x40, 7) == 0x4000_0000_0000_0000,
        scaled(0x80, 0) == 0x80,
        scaled(0x80, 7) == 0x8000_0000_0000_0000,
        scaled(0xC0, 0) == 0xC0,
        scaled(0xC0, 1) == 0xC000,
        scaled(0x100, 0) == 0x100,
        scaled(0x100, 1) == 0x1_0000,
        scaled(0x100, 3) == 0x1_0000_0000,
{
    reveal_with_fuel(scaled, 8);
}

/// Reading back an encoded integer gives the integer and the length of the
/// encoding, whatever octets follow it.
pub proof fn lemma_varint_round_trip(v: nat, rest: Seq<u8>)
    requires
        v <= MAX_VARINT,
    ensures
        read_varint(varint_octets(v) + rest) == (Varint::Value { value: v, len: varint_len(v) }),
        varint_octets(v).len() == varint_len(v),
{
    reveal(varint_octets);
    reveal(read_varint);
    let n = varint_len(v);
    let o = varint_octets(v);
    lemma_pow256_values();
    lemma_be_round_trip(v + varint_tag(n), n);
    lemma_announced(o, n, v);
    let s = o + rest;
    assert(s[0] == o[0]);
    assert(s.take(n as int) =~= o);
}

/// Octets behind a complete integer do not change what is read.
pub proof fn lemma_read_varint_prefix(s: Seq<u8>, rest: Seq<u8>)
    requires
        !(read_varint(s) is More),
    ensures
        read_varint(s + rest) == read_varint(s),
        read_varint(s) matches Varint::Value { value, len } ==> 1 <= len <= s.len() && value
            <= MAX_VARINT,
{
    reveal(read_varint);
    let n = announced_len(s[0]);
    assert((s + rest)[0] == s[0]);
    assert((s + rest).take(n as int) =~= s.take(n as int));
    lemma_varint_range(s);
}

/// A complete integer is at most [`MAX_VARINT`].
proof fn lemma_varint_range(s: Seq<u8>)
    requires
        s.len() > 0,
        s.len() >= announced_len(s[0]),
    ensures
        ({
            let n = announced_len(s[0]);
            let full = be_value(s.take(n as int));
            &&& varint_tag(n) <= full <= varint_tag(n) + MAX_VARINT
            &&& full < pow256(n)
        }),
{
    let n = announced_len(s[0]);
    let t = s.take(n as int);
    lemma_be_bound(t);
    lemma_scaled_values();
    let b = s[0];
    assert(t[0] == b);
    if n == 1 {
        lemma_be_first(t, 0, 0x40);
    } else if n == 2 {
        lemma_be_first(t, 0x40, 0x80);
    } else if n == 4 {
        lemma_be_first(t, 0x80, 0xC0);
    } else {
        lemma_be_first(t, 0xC0, 0x100);
    }
}

/// Parses a QUIC variable-length integer (RFC 9000 Section 16) from the front
/// of `buf`.
///
/// Returns `Ok(None)` when `buf` is shorter than the encoding; `Err` when the
/// encoding is non-minimal (a protocol violation, per RFC 9000 Section 16,
/// surfaced as `H3_FRAME_ERROR`).
pub fn parse_varint(buf: &[u8]) -> (r: Result<Option<(u64, usize)>, FrameError>)
    ensures
        match read_varint(buf@) {
            Varint::More => r == Ok::<Option<(u64, usize)>, FrameError>(None),
            Varint::Redundant => r == Err::<Option<(u64, usize)>, FrameError>(FrameError::Frame),
            Varint::Value { value, len } => r matches Ok(Some((v, n))) && v == value && n == len
                && 1 <= n <= buf@.len() && n <= 8 && v <= MAX_VARINT,
        },
{
    proof {
        reveal(read_varint);
    }
    if buf.len() == 0 {
        return Ok(None);
    }
    let first: u8 = buf[0];
    let (len, tag): (usize, u64) = if first < 0x40 {
        (1, 0)
    } else if first < 0x80 {
        (2, 0x4000)
    } else if first < 0xC0 {
        (4, 0x8000_0000)
    } else {
        (8, 0xC000_0000_0000_0000)
    };
    if buf.len() < len {
        return Ok(None);
    }
    let mut full: u64 = 0;
    let mut i: usize = 0;
    assert(buf@.take(0) =~= Seq::empty());
    while i < len
        invariant
            i <= len <= 8,
            len <= buf@.len(),
            full == be_value(buf@.take(i as int)),
        decreases len - i,
    {
        proof {
            let t = buf@.take(i + 1);
            assert(t.drop_last() =~= buf@.take(i as int));
            lemma_be_bound(t);
            lemma_pow256_monotone((i + 1) as nat, 8);
            lemma_pow256_values();
        }
        full = full * 256 + buf[i] as u64;
        i = i + 1;
    }
    proof {
        lemma_varint_range(buf@);
    }
    let value: u64 = full - tag;
    if varint_size(value) != len {
        return Err(FrameError::Frame);
    }
    Ok(Some((value, len)))
}

proof fn lemma_pow256_monotone(a: nat, b: nat)
    requires
        a <= b,
    ensures
        1 <= pow256(a) <= pow256(b),
    decreases b,
{
    if a < b {
        lemma_pow256_monotone(a, (b - 1) as nat);
    } else if a > 0 {
        lemma_pow256_monotone((a - 1) as nat, (b - 1) as nat);
    }
}

/// The encoded length of `value` as a QUIC variable-length integer.
pub fn varint_size(value: u64) -> (r: usize)
    ensures
        r == varint_len(value as nat),
{
    if value < 0x40 {
        1
    } else if value < 0x4000 {
        2
    } else if value < 0x4000_0000 {
        4
    } else {
        8
    }
}

/// Encodes `value` as a QUIC variable-length integer (RFC 9000 Section 16).
pub fn write_varint(value: u64, dst: &mut BytesMut)
    requires
        value <= MAX_VARINT,
        octets::buffered(*old(dst)).len() + varint_len(value as nat) <= usize::MAX,
    ensures
        octets::buffered(*final(dst)) == octets::buffered(*old(dst)) + varint_octets(
            value as nat,
        ),
{
    proof {
        reveal(varint_octets);
    }
    if value < 0x40 {
        put_u8(dst, value as u8);
        proof {
            let o = varint_octets(value as nat);
            reveal_with_fuel(octets::big_endian, 2);
            assert(octets::buffered(*dst) =~= octets::buffered(*old(dst)) + o);
        }
    } else if value < 0x4000 {
        put_u16(dst, 0x4000 + value as u16);
    } else if value < 0x4000_0000 {
        put_u32(dst, 0x8000_0000 + value as u32);
    } else {
        put_u64(dst, 0xC000_0000_0000_0000 + value);
    }
}

// ---------------------------------------------------------------------------
// Errors
// ---------------------------------------------------------------------------

/// Errors raised by [`FrameDecoder::next_frame`].
///
/// Each variant corresponds to a distinct RFC 9114 connection error code (see
/// [`FrameError::h3_code`]).
#[derive(Debug, Clone, Copy, PartialEq, Eq, Structural)]
pub enum FrameError {
    /// `H3_FRAME_ERROR` (0x0106): the frame payload does not exactly match the
    /// fields identified for its type, or a variable-length integer is encoded
    /// non-minimally (RFC 9114 Sections 7.1 and 10.8).
    Frame,
    /// `H3_FRAME_UNEXPECTED` (0x0105): an HTTP/2 frame type with no HTTP/3
    /// equivalent (PRIORITY, PING, WINDOW_UPDATE, CONTINUATION; RFC 9114
    /// Section 7.2.8).
    Unexpected(u64),
    /// `H3_SETTINGS_ERROR` (0x0109): a reserved setting identifier (0x02-0x05)
    /// or a duplicate identifier in one SETTINGS frame (RFC 9114
    /// Section 7.2.4).
    Settings,
}

impl FrameError {
    /// The error that this is sent as.
    pub open spec fn h3_error(self) -> H3Error {
        match self {
            FrameError::Frame => H3Error::FrameError,
            FrameError::Unexpected(_) => H3Error::FrameUnexpected,
            FrameError::Settings => H3Error::Settings,
        }
    }

    /// The RFC 9114 connection error code for this error.
    pub fn h3_code(self) -> (r: u64)
        ensures
            r == self.h3_error().code_spec(),
    {
        match self {
            FrameError::Frame => H3Error::FrameError.code(),
            FrameError::Unexpected(_) => H3Error::FrameUnexpected.code(),
            FrameError::Settings => H3Error::Settings.code(),
        }
    }
}

// ---------------------------------------------------------------------------
// Frames
// ---------------------------------------------------------------------------

/// A parsed `SETTINGS` frame payload (RFC 9114 Section 7.2.4).
///
/// Settings are kept in wire order. Reserved (grease) identifiers are dropped
/// on decode and may be added for encoding; unknown identifiers are preserved
/// and ignored by the driver.
#[derive(Debug, Clone, PartialEq, Eq)]
pub struct Settings {
    entries: Vec<Setting>,
}

impl View for Settings {
    type V = Seq<Setting>;

    closed spec fn view(&self) -> Seq<Setting> {
        self.entries@
    }
}

/// The value of the first parameter with `id`.
pub open spec fn setting_of(list: Seq<Setting>, id: u64) -> Option<u64>
    decreases list.len(),
{
    if list.len() == 0 {
        None
    } else if list[0].0 == id {
        Some(list[0].1)
    } else {
        setting_of(list.skip(1), id)
    }
}

impl Default for Settings {
    fn default() -> (r: Self)
        ensures
            r@ == Seq::<Setting>::empty(),
    {
        Settings { entries: Vec::new() }
    }
}

impl Settings {
    /// An empty SETTINGS payload.
    pub fn new() -> (r: Self)
        ensures
            r@ == Seq::<Setting>::empty(),
    {
        Settings { entries: Vec::new() }
    }

    /// Appends a `(identifier, value)` parameter in wire order.
    pub fn insert(&mut self, id: u64, value: u64)
        ensures
            final(self)@ == old(self)@.push((id, value)),
    {
        self.entries.push((id, value));
    }

    /// The value of the first parameter with `id`, if any.
    pub fn get(&self, id: u64) -> (r: Option<u64>)
        ensures
            r == setting_of(self@, id),
    {
        let mut i: usize = 0;
        assert(self@.skip(0) =~= self@);
        while i < self.entries.len()
            invariant
                i <= self@.len(),
                setting_of(self@, id) == setting_of(self@.skip(i as int), id),
            decreases self@.len() - i,
        {
            assert(self@.skip(i as int).skip(1) =~= self@.skip(i + 1));
            let (entry_id, value) = self.entries[i];
            if entry_id == id {
                return Some(value);
            }
            i = i + 1;
        }
        None
    }

    /// The parameters in wire order.
    pub fn iter(&self) -> (r: &[Setting])
        ensures
            r@ == self@,
    {
        self.entries.as_slice()
    }
}

/// An HTTP/3 frame (RFC 9114 Section 7.2).
///
/// `Data` and `Headers` payloads are opaque byte ranges. `Data` is the streamed
/// body chunk (the driver may hand it to the body reader without copying);
/// `Headers` and `PushPromise` field sections are QPACK-encoded and decoded by
/// the driver.
#[derive(Debug, Clone, PartialEq, Eq)]
pub enum Frame {
    /// `DATA`: a chunk of the request or response body.
    Data(Bytes),
    /// `HEADERS`: the QPACK-encoded field section.
    Headers(Bytes),
    /// `SETTINGS`: connection parameters (first frame of a control stream).
    Settings(Settings),
    /// `CANCEL_PUSH`: push ID whose push the peer should abandon.
    CancelPush(u64),
    /// `PUSH_PROMISE`: push ID plus the promised request's QPACK-encoded field
    /// section.
    PushPromise { push_id: u64, field_section: Bytes },
    /// `GOAWAY`: the highest stream ID (server) or push ID (client) the sender
    /// will process.
    Goaway(u64),
    /// `MAX_PUSH_ID`: the highest push ID the server may use.
    MaxPushId(u64),
}

/// A frame as a value.
pub enum FrameValue {
    Data(Seq<u8>),
    Headers(Seq<u8>),
    Settings(Seq<Setting>),
    CancelPush(u64),
    PushPromise { push_id: u64, field_section: Seq<u8> },
    Goaway(u64),
    MaxPushId(u64),
}

impl View for Frame {
    type V = FrameValue;

    open spec fn view(&self) -> FrameValue {
        match *self {
            Frame::Data(b) => FrameValue::Data(octets::content(b)),
            Frame::Headers(b) => FrameValue::Headers(octets::content(b)),
            Frame::Settings(s) => FrameValue::Settings(s@),
            Frame::CancelPush(id) => FrameValue::CancelPush(id),
            Frame::PushPromise { push_id, field_section } => FrameValue::PushPromise {
                push_id,
                field_section: octets::content(field_section),
            },
            Frame::Goaway(id) => FrameValue::Goaway(id),
            Frame::MaxPushId(id) => FrameValue::MaxPushId(id),
        }
    }
}

/// The type of a frame.
pub open spec fn frame_type(f: FrameValue) -> u64 {
    match f {
        FrameValue::Data(_) => FRAME_DATA,
        FrameValue::Headers(_) => FRAME_HEADERS,
        FrameValue::Settings(_) => FRAME_SETTINGS,
        FrameValue::CancelPush(_) => FRAME_CANCEL_PUSH,
        FrameValue::PushPromise { .. } => FRAME_PUSH_PROMISE,
        FrameValue::Goaway(_) => FRAME_GOAWAY,
        FrameValue::MaxPushId(_) => FRAME_MAX_PUSH_ID,
    }
}

/// The payload of a SETTINGS frame.
pub open spec fn settings_octets(list: Seq<Setting>) -> Seq<u8>
    decreases list.len(),
{
    if list.len() == 0 {
        Seq::empty()
    } else {
        settings_octets(list.drop_last()) + varint_octets(list.last().0 as nat) + varint_octets(
            list.last().1 as nat,
        )
    }
}

/// The payload of a frame.
pub open spec fn payload_octets(f: FrameValue) -> Seq<u8> {
    match f {
        FrameValue::Data(b) => b,
        FrameValue::Headers(b) => b,
        FrameValue::Settings(list) => settings_octets(list),
        FrameValue::CancelPush(id) => varint_octets(id as nat),
        FrameValue::PushPromise { push_id, field_section } => varint_octets(push_id as nat)
            + field_section,
        FrameValue::Goaway(id) => varint_octets(id as nat),
        FrameValue::MaxPushId(id) => varint_octets(id as nat),
    }
}

/// A frame on the wire: type, length, payload.
pub open spec fn frame_octets(f: FrameValue) -> Seq<u8> {
    varint_octets(frame_type(f) as nat) + varint_octets(payload_octets(f).len())
        + payload_octets(f)
}

/// Whether every identifier and value of `list` is a variable-length integer.
pub open spec fn settings_fit(list: Seq<Setting>) -> bool {
    forall|i: int|
        0 <= i < list.len() ==> (#[trigger] list[i]).0 <= MAX_VARINT && list[i].1 <= MAX_VARINT
}

/// Whether the fields and the payload length of a frame are variable-length
/// integers.
pub open spec fn frame_fits(f: FrameValue) -> bool {
    &&& payload_octets(f).len() <= MAX_VARINT
    &&& match f {
        FrameValue::Data(_) | FrameValue::Headers(_) => true,
        FrameValue::Settings(list) => settings_fit(list),
        FrameValue::CancelPush(id) => id <= MAX_VARINT,
        FrameValue::PushPromise { push_id, .. } => push_id <= MAX_VARINT,
        FrameValue::Goaway(id) => id <= MAX_VARINT,
        FrameValue::MaxPushId(id) => id <= MAX_VARINT,
    }
}

/// HTTP/2 frame types without an HTTP/3 equivalent (RFC 9114 Section 7.2.8).
pub open spec fn http2_only(ty: nat) -> bool {
    ty == 0x02 || ty == 0x06 || ty == 0x08 || ty == 0x09
}

/// The frame types of RFC 9114 Section 7.2.
pub open spec fn known_type(ty: nat) -> bool {
    ||| ty == FRAME_DATA
    ||| ty == FRAME_HEADERS
    ||| ty == FRAME_CANCEL_PUSH
    ||| ty == FRAME_SETTINGS
    ||| ty == FRAME_PUSH_PROMISE
    ||| ty == FRAME_GOAWAY
    ||| ty == FRAME_MAX_PUSH_ID
}

/// Reserved grease identifiers: `0x1f * N + 0x21` (RFC 9114 Sections 7.2.8 and
/// 7.2.4.1); they must be ignored, never interpreted.
pub open spec fn grease(v: nat) -> bool {
    v >= 0x21 && (v - 0x21) % 0x1f == 0
}

/// Setting identifiers that HTTP/2 used (RFC 9114 Section 7.2.4.1).
pub open spec fn reserved_setting(id: nat) -> bool {
    0x02 <= id <= 0x05
}

/// The parameters that a SETTINGS payload holds behind those in `before`.
pub open spec fn read_settings(s: Seq<u8>, before: Seq<Setting>) -> Result<
    Seq<Setting>,
    FrameError,
>
    decreases s.len(),
{
    if s.len() == 0 {
        Ok(before)
    } else {
        match read_varint(s) {
            Varint::Value { value: id, len: n } => match read_varint(s.skip(n as int)) {
                Varint::Value { value, len: m } => if reserved_setting(id) || setting_of(
                    before,
                    id as u64,
                ) is Some {
                    Err(FrameError::Settings)
                } else if 1 <= n + m <= s.len() {
                    read_settings(
                        s.skip((n + m) as int),
                        if grease(id) {
                            before
                        } else {
                            before.push((id as u64, value as u64))
                        },
                    )
                } else {
                    Err(FrameError::Frame)
                },
                _ => Err(FrameError::Frame),
            },
            _ => Err(FrameError::Frame),
        }
    }
}

/// The integer that fills `s` exactly.
pub open spec fn sole_varint(s: Seq<u8>) -> Result<u64, FrameError> {
    match read_varint(s) {
        Varint::Value { value, len } => if len == s.len() {
            Ok(value as u64)
        } else {
            Err(FrameError::Frame)
        },
        _ => Err(FrameError::Frame),
    }
}

/// The frame of a known type with the payload `s`.
pub open spec fn read_payload(ty: nat, s: Seq<u8>) -> Result<FrameValue, FrameError> {
    if ty == FRAME_DATA {
        Ok(FrameValue::Data(s))
    } else if ty == FRAME_HEADERS {
        Ok(FrameValue::Headers(s))
    } else if ty == FRAME_CANCEL_PUSH {
        match sole_varint(s) {
            Ok(id) => Ok(FrameValue::CancelPush(id)),
            Err(e) => Err(e),
        }
    } else if ty == FRAME_SETTINGS {
        match read_settings(s, Seq::empty()) {
            Ok(list) => Ok(FrameValue::Settings(list)),
            Err(e) => Err(e),
        }
    } else if ty == FRAME_PUSH_PROMISE {
        match read_varint(s) {
            Varint::Value { value, len } => Ok(
                FrameValue::PushPromise {
                    push_id: value as u64,
                    field_section: s.skip(len as int),
                },
            ),
            _ => Err(FrameError::Frame),
        }
    } else if ty == FRAME_GOAWAY {
        match sole_varint(s) {
            Ok(id) => Ok(FrameValue::Goaway(id)),
            Err(e) => Err(e),
        }
    } else {
        match sole_varint(s) {
            Ok(id) => Ok(FrameValue::MaxPushId(id)),
            Err(e) => Err(e),
        }
    }
}

/// The next frame of a known type in `s`, with the unknown frames before it
/// skipped, and what is left of `s`. `Ok(None)` means that `s` ends first.
pub open spec fn next_frame(s: Seq<u8>) -> (Result<Option<FrameValue>, FrameError>, Seq<u8>)
    decreases s.len(),
{
    match read_varint(s) {
        Varint::More => (Ok(None), s),
        Varint::Redundant => (Err(FrameError::Frame), s),
        Varint::Value { value: ty, len: n } => if http2_only(ty) {
            (Err(FrameError::Unexpected(ty as u64)), s)
        } else {
            match read_varint(s.skip(n as int)) {
                Varint::More => (Ok(None), s),
                Varint::Redundant => (Err(FrameError::Frame), s),
                Varint::Value { value: len, len: m } => {
                    let total = n + m + len;
                    if total > s.len() || total == 0 {
                        (Ok(None), s)
                    } else if !known_type(ty) {
                        next_frame(s.skip(total as int))
                    } else {
                        match read_payload(ty, s.subrange((n + m) as int, total as int)) {
                            Ok(f) => (Ok(Some(f)), s.skip(total as int)),
                            Err(e) => (Err(e), s.skip(total as int)),
                        }
                    }
                },
            }
        },
    }
}

/// The type of the first frame in `s` that is not an unknown frame held
/// completely, where `s` holds its type.
pub open spec fn peek_type(s: Seq<u8>) -> Option<nat>
    decreases s.len(),
{
    match read_varint(s) {
        Varint::Value { value: ty, len: n } => if known_type(ty) || http2_only(ty) {
            Some(ty)
        } else {
            match read_varint(s.skip(n as int)) {
                Varint::Value { value: len, len: m } => {
                    let total = n + m + len;
                    if total > s.len() || total == 0 {
                        Some(ty)
                    } else {
                        peek_type(s.skip(total as int))
                    }
                },
                _ => Some(ty),
            }
        },
        _ => None,
    }
}

/// An empty buffer holds no frame.
pub proof fn lemma_next_frame_empty()
    ensures
        next_frame(Seq::empty()) == (Ok::<Option<FrameValue>, FrameError>(None), Seq::<u8>::empty()),
{
    reveal(read_varint);
}

/// A frame that is read is taken off the buffer.
pub proof fn lemma_next_frame_consumes(s: Seq<u8>)
    ensures
        next_frame(s).1.len() <= s.len(),
        next_frame(s).0 matches Ok(Some(_)) ==> next_frame(s).1.len() < s.len(),
    decreases s.len(),
{
    if let Varint::Value { value: ty, len: n } = read_varint(s) {
        if let Varint::Value { value: len, len: m } = read_varint(s.skip(n as int)) {
            let total = n + m + len;
            if !http2_only(ty) && 0 < total <= s.len() && !known_type(ty) {
                lemma_next_frame_consumes(s.skip(total as int));
            }
        }
    }
}

impl Frame {
    /// Whether this is one of the known HTTP/3 frame types (RFC 9114
    /// Section 7.2).
    ///
    /// The decoder never surfaces unknown or reserved (grease) frame types, so
    /// every frame it returns is by construction a known type. This method
    /// documents the request-stream rule (Section 4.1) that after the trailers
    /// only unknown frames may still appear.
    pub fn is_known(&self) -> (r: bool)
        ensures
            r == known_type(frame_type(self@) as nat),
            r,
    {
        match self {
            Frame::Data(_)
            | Frame::Headers(_)
            | Frame::Settings(_)
            | Frame::CancelPush(_)
            | Frame::PushPromise { .. }
            | Frame::Goaway(_)
            | Frame::MaxPushId(_) => true,
        }
    }

    /// Serializes this frame (type, length, payload) into `dst`.
    pub fn encode(&self, dst: &mut BytesMut)
        requires
            frame_fits(self@),
            octets::buffered(*old(dst)).len() + frame_octets(self@).len() <= usize::MAX,
        ensures
            octets::buffered(*final(dst)) == octets::buffered(*old(dst)) + frame_octets(self@),
    {
        let ghost start = octets::buffered(*dst);
        proof {
            lemma_varint_round_trip(frame_type(self@) as nat, Seq::empty());
            lemma_varint_round_trip(payload_octets(self@).len(), Seq::empty());
        }
        match self {
            Frame::Data(payload) => {
                write_varint(FRAME_DATA, dst);
                write_varint(payload.len() as u64, dst);
                dst.extend_from_slice(as_slice(payload));
            },
            Frame::Headers(payload) => {
                write_varint(FRAME_HEADERS, dst);
                write_varint(payload.len() as u64, dst);
                dst.extend_from_slice(as_slice(payload));
            },
            Frame::Settings(settings) => {
                write_varint(FRAME_SETTINGS, dst);
                settings.encode_payload(dst);
            },
            Frame::CancelPush(push_id) => {
                proof {
                    lemma_varint_round_trip(*push_id as nat, Seq::empty());
                }
                write_varint(FRAME_CANCEL_PUSH, dst);
                write_sole(*push_id, dst);
            },
            Frame::PushPromise { push_id, field_section } => {
                proof {
                    lemma_varint_round_trip(*push_id as nat, Seq::empty());
                }
                write_varint(FRAME_PUSH_PROMISE, dst);
                write_varint((varint_size(*push_id) + field_section.len()) as u64, dst);
                write_varint(*push_id, dst);
                dst.extend_from_slice(as_slice(field_section));
            },
            Frame::Goaway(stream_id) => {
                proof {
                    lemma_varint_round_trip(*stream_id as nat, Seq::empty());
                }
                write_varint(FRAME_GOAWAY, dst);
                write_sole(*stream_id, dst);
            },
            Frame::MaxPushId(push_id) => {
                proof {
                    lemma_varint_round_trip(*push_id as nat, Seq::empty());
                }
                write_varint(FRAME_MAX_PUSH_ID, dst);
                write_sole(*push_id, dst);
            },
        }
        assert(octets::buffered(*dst) =~= start + frame_octets(self@));
    }
}

/// Writes the length and the payload of a frame that carries one integer.
fn write_sole(value: u64, dst: &mut BytesMut)
    requires
        value <= MAX_VARINT,
        octets::buffered(*old(dst)).len() + varint_len(value as nat) + 1 <= usize::MAX,
    ensures
        octets::buffered(*final(dst)) == octets::buffered(*old(dst)) + varint_octets(
            varint_octets(value as nat).len(),
        ) + varint_octets(value as nat),
{
    proof {
        lemma_varint_round_trip(value as nat, Seq::empty());
        lemma_varint_round_trip(varint_len(value as nat), Seq::empty());
    }
    write_varint(varint_size(value) as u64, dst);
    write_varint(value, dst);
}

proof fn lemma_settings_octets_len(list: Seq<Setting>, i: int)
    requires
        0 <= i < list.len(),
    ensures
        settings_octets(list.take(i + 1)) == settings_octets(list.take(i)) + varint_octets(
            list[i].0 as nat,
        ) + varint_octets(list[i].1 as nat),
{
    assert(list.take(i + 1).drop_last() =~= list.take(i));
    assert(list.take(i + 1).last() == list[i]);
}

proof fn lemma_settings_octets_monotone(list: Seq<Setting>, i: int)
    requires
        0 <= i <= list.len(),
    ensures
        settings_octets(list.take(i)).len() <= settings_octets(list).len(),
    decreases list.len() - i,
{
    if i < list.len() {
        lemma_settings_octets_len(list, i);
        lemma_settings_octets_monotone(list, i + 1);
    } else {
        assert(list.take(i) =~= list);
    }
}

impl Settings {
    /// Writes the length and the parameters of a SETTINGS payload.
    fn encode_payload(&self, dst: &mut BytesMut)
        requires
            settings_fit(self@),
            settings_octets(self@).len() <= MAX_VARINT,
            octets::buffered(*old(dst)).len() + varint_len(settings_octets(self@).len())
                + settings_octets(self@).len() <= usize::MAX,
        ensures
            octets::buffered(*final(dst)) == octets::buffered(*old(dst)) + varint_octets(
                settings_octets(self@).len(),
            ) + settings_octets(self@),
    {
        let ghost list = self@;
        let ghost start = octets::buffered(*dst);
        let mut len: usize = 0;
        let mut i: usize = 0;
        assert(list.take(0) =~= Seq::empty());
        while i < self.entries.len()
            invariant
                list == self@,
                settings_fit(list),
                i <= list.len(),
                settings_octets(list).len() <= usize::MAX,
                len == settings_octets(list.take(i as int)).len(),
            decreases list.len() - i,
        {
            let (id, value) = self.entries[i];
            proof {
                lemma_settings_octets_len(list, i as int);
                lemma_settings_octets_monotone(list, i + 1);
                lemma_varint_round_trip(id as nat, Seq::empty());
                lemma_varint_round_trip(value as nat, Seq::empty());
            }
            len = len + varint_size(id) + varint_size(value);
            i = i + 1;
        }
        assert(list.take(i as int) =~= list);
        write_varint(len as u64, dst);
        let ghost head = start + varint_octets(len as nat);
        proof {
            lemma_varint_round_trip(len as nat, Seq::empty());
        }
        let mut k: usize = 0;
        assert(head + settings_octets(list.take(0)) =~= head);
        while k < self.entries.len()
            invariant
                list == self@,
                settings_fit(list),
                k <= list.len(),
                head.len() + settings_octets(list).len() <= usize::MAX,
                octets::buffered(*dst) == head + settings_octets(list.take(k as int)),
            decreases list.len() - k,
        {
            let (id, value) = self.entries[k];
            proof {
                lemma_settings_octets_len(list, k as int);
                lemma_settings_octets_monotone(list, k + 1);
                lemma_varint_round_trip(id as nat, Seq::empty());
                lemma_varint_round_trip(value as nat, Seq::empty());
            }
            write_varint(id, dst);
            write_varint(value, dst);
            assert(octets::buffered(*dst) =~= head + settings_octets(list.take(k + 1)));
            k = k + 1;
        }
        assert(list.take(k as int) =~= list);
    }
}

/// Incremental HTTP/3 frame decoder.
///
/// The decoder owns its buffer: the driver calls [`FrameDecoder::extend`] with
/// every received chunk and [`FrameDecoder::next_frame`] once per event-loop
/// turn, draining as many complete frames as are buffered.
#[derive(Debug)]
pub struct FrameDecoder {
    buf: BytesMut,
}

impl View for FrameDecoder {
    type V = Seq<u8>;

    closed spec fn view(&self) -> Seq<u8> {
        octets::buffered(self.buf)
    }
}

impl Default for FrameDecoder {
    fn default() -> (r: Self)
        ensures
            r@ == Seq::<u8>::empty(),
    {
        FrameDecoder { buf: BytesMut::new() }
    }
}

impl FrameDecoder {
    /// A decoder with an empty buffer.
    pub fn new() -> (r: Self)
        ensures
            r@ == Seq::<u8>::empty(),
    {
        FrameDecoder { buf: BytesMut::new() }
    }

    /// Appends received bytes to the input buffer.
    pub fn extend(&mut self, data: Bytes)
        requires
            old(self)@.len() + octets::content(data).len() <= usize::MAX,
        ensures
            final(self)@ == old(self)@ + octets::content(data),
    {
        self.buf.extend_from_slice(as_slice(&data));
    }

    /// Bytes buffered but not yet consumed by a frame.
    pub fn buffered(&self) -> (r: usize)
        ensures
            r == self@.len(),
    {
        self.buf.len()
    }

    /// The type of the frame that [`FrameDecoder::next_frame`] turns to once
    /// the complete unknown frames before it are skipped, where the buffer
    /// holds that type.
    pub fn peek_frame_type(&self) -> (r: Option<u64>)
        ensures
            match peek_type(self@) {
                Some(ty) => r matches Some(t) && t == ty,
                None => r is None,
            },
    {
        let buf = as_slice_mut(&self.buf);
        let mut off: usize = 0;
        assert(buf@.skip(0) =~= buf@);
        loop
            invariant
                buf@ == self@,
                off <= buf@.len(),
                peek_type(self@) == peek_type(buf@.skip(off as int)),
            decreases buf@.len() - off,
        {
            let ghost s = buf@.skip(off as int);
            let rest = slice_subrange(buf, off, buf.len());
            assert(rest@ =~= s);
            let (ty, type_len) = match parse_varint(rest) {
                Ok(Some(p)) => p,
                _ => {
                    return None;
                },
            };
            if is_known_frame_type(ty) || is_http2_frame_type(ty) {
                return Some(ty);
            }
            let behind = slice_subrange(rest, type_len, rest.len());
            assert(behind@ =~= s.skip(type_len as int));
            let (len, len_len) = match parse_varint(behind) {
                Ok(Some(p)) => p,
                _ => {
                    return Some(ty);
                },
            };
            let header_len: usize = type_len + len_len;
            if len > (rest.len() - header_len) as u64 {
                return Some(ty);
            }
            let total: usize = header_len + len as usize;
            assert(s.skip(total as int) =~= buf@.skip(off + total));
            off = off + total;
        }
    }

    /// Pops the next complete frame, if any.
    ///
    /// Returns `Ok(None)` when the buffer does not yet hold a complete frame;
    /// callers must extend the buffer and poll again. Unknown and reserved
    /// frame types are consumed and skipped (RFC 9114 Section 7.2.8); a known
    /// frame behind them is still returned.
    pub fn next_frame(&mut self) -> (r: Result<Option<Frame>, FrameError>)
        ensures
            final(self)@ == next_frame(old(self)@).1,
            match next_frame(old(self)@).0 {
                Ok(Some(f)) => r matches Ok(Some(g)) && g@ == f,
                Ok(None) => r matches Ok(None),
                Err(e) => r == Err::<Option<Frame>, FrameError>(e),
            },
    {
        loop
            invariant
                next_frame(old(self)@) == next_frame(self@),
            decreases self@.len(),
        {
            let ghost s = self@;
            let buf = as_slice_mut(&self.buf);
            let (ty, type_len) = match parse_varint(buf) {
                Ok(Some(p)) => p,
                Ok(None) => {
                    return Ok(None);
                },
                Err(e) => {
                    return Err(e);
                },
            };
            if is_http2_frame_type(ty) {
                return Err(FrameError::Unexpected(ty));
            }
            let behind = slice_subrange(buf, type_len, buf.len());
            assert(behind@ =~= s.skip(type_len as int));
            let (len, len_len) = match parse_varint(behind) {
                Ok(Some(p)) => p,
                Ok(None) => {
                    return Ok(None);
                },
                Err(e) => {
                    return Err(e);
                },
            };
            let header_len: usize = type_len + len_len;
            if len > (buf.len() - header_len) as u64 {
                return Ok(None);
            }
            let total: usize = header_len + len as usize;
            if !is_known_frame_type(ty) {
                advance(&mut self.buf, total);
            } else {
                let mut payload: BytesMut = self.buf.split_to(total);
                advance(&mut payload, header_len);
                assert(octets::buffered(payload) =~= s.subrange(header_len as int, total as int));
                match payload_frame(ty, payload) {
                    Ok(frame) => {
                        return Ok(Some(frame));
                    },
                    Err(e) => {
                        return Err(e);
                    },
                }
            }
        }
    }
}

fn is_http2_frame_type(ty: u64) -> (r: bool)
    ensures
        r == http2_only(ty as nat),
{
    ty == 0x02 || ty == 0x06 || ty == 0x08 || ty == 0x09
}

fn is_known_frame_type(ty: u64) -> (r: bool)
    ensures
        r == known_type(ty as nat),
{
    ty == FRAME_DATA || ty == FRAME_HEADERS || ty == FRAME_CANCEL_PUSH || ty == FRAME_SETTINGS || ty
        == FRAME_PUSH_PROMISE || ty == FRAME_GOAWAY || ty == FRAME_MAX_PUSH_ID
}

fn is_grease(v: u64) -> (r: bool)
    ensures
        r == grease(v as nat),
{
    v >= 0x21 && (v - 0x21) % 0x1f == 0
}

fn is_reserved_setting(id: u64) -> (r: bool)
    ensures
        r == reserved_setting(id as nat),
{
    0x02 <= id && id <= 0x05
}

/// Parses the payload of a frame of a known type.
fn payload_frame(ty: u64, payload: BytesMut) -> (r: Result<Frame, FrameError>)
    requires
        known_type(ty as nat),
    ensures
        match read_payload(ty as nat, octets::buffered(payload)) {
            Ok(f) => r matches Ok(g) && g@ == f,
            Err(e) => r == Err::<Frame, FrameError>(e),
        },
{
    if ty == FRAME_DATA {
        Ok(Frame::Data(payload.freeze()))
    } else if ty == FRAME_HEADERS {
        Ok(Frame::Headers(payload.freeze()))
    } else if ty == FRAME_CANCEL_PUSH {
        match take_varint(as_slice_mut(&payload)) {
            Ok(id) => Ok(Frame::CancelPush(id)),
            Err(e) => Err(e),
        }
    } else if ty == FRAME_SETTINGS {
        match parse_settings(as_slice_mut(&payload)) {
            Ok(settings) => Ok(Frame::Settings(settings)),
            Err(e) => Err(e),
        }
    } else if ty == FRAME_PUSH_PROMISE {
        let (push_id, id_len) = match parse_varint(as_slice_mut(&payload)) {
            Ok(Some(p)) => p,
            Ok(None) => {
                return Err(FrameError::Frame);
            },
            Err(e) => {
                return Err(e);
            },
        };
        let mut section: BytesMut = payload;
        advance(&mut section, id_len);
        Ok(Frame::PushPromise { push_id, field_section: section.freeze() })
    } else if ty == FRAME_GOAWAY {
        match take_varint(as_slice_mut(&payload)) {
            Ok(id) => Ok(Frame::Goaway(id)),
            Err(e) => Err(e),
        }
    } else {
        match take_varint(as_slice_mut(&payload)) {
            Ok(id) => Ok(Frame::MaxPushId(id)),
            Err(e) => Err(e),
        }
    }
}

fn parse_settings(payload: &[u8]) -> (r: Result<Settings, FrameError>)
    ensures
        match read_settings(payload@, Seq::empty()) {
            Ok(list) => r matches Ok(s) && s@ == list,
            Err(e) => r == Err::<Settings, FrameError>(e),
        },
{
    let mut settings: Settings = Settings::new();
    let mut off: usize = 0;
    assert(payload@.skip(0) =~= payload@);
    while off < payload.len()
        invariant
            off <= payload@.len(),
            read_settings(payload@, Seq::empty()) == read_settings(
                payload@.skip(off as int),
                settings@,
            ),
        decreases payload@.len() - off,
    {
        let ghost s = payload@.skip(off as int);
        let rest = slice_subrange(payload, off, payload.len());
        assert(rest@ =~= s);
        let (id, id_len) = match parse_varint(rest) {
            Ok(Some(p)) => p,
            Ok(None) => {
                return Err(FrameError::Frame);
            },
            Err(e) => {
                return Err(e);
            },
        };
        let behind = slice_subrange(rest, id_len, rest.len());
        assert(behind@ =~= s.skip(id_len as int));
        let (value, value_len) = match parse_varint(behind) {
            Ok(Some(p)) => p,
            Ok(None) => {
                return Err(FrameError::Frame);
            },
            Err(e) => {
                return Err(e);
            },
        };
        if is_reserved_setting(id) {
            return Err(FrameError::Settings);
        }
        if settings.get(id).is_some() {
            return Err(FrameError::Settings);
        }
        if !is_grease(id) {
            settings.insert(id, value);
        }
        assert(s.skip((id_len + value_len) as int) =~= payload@.skip(off + id_len + value_len));
        off = off + id_len + value_len;
    }
    assert(payload@.skip(off as int).len() == 0);
    Ok(settings)
}

/// Parses the single variable-length integer that must fill `buf` exactly (used
/// for CANCEL_PUSH, GOAWAY and MAX_PUSH_ID). A truncated or non-minimal integer,
/// or trailing bytes, is `H3_FRAME_ERROR` (RFC 9114 Sections 7.1 and 10.8).
fn take_varint(buf: &[u8]) -> (r: Result<u64, FrameError>)
    ensures
        r == sole_varint(buf@),
{
    match parse_varint(buf) {
        Ok(Some((value, n))) => if n != buf.len() {
            Err(FrameError::Frame)
        } else {
            Ok(value)
        },
        Ok(None) => Err(FrameError::Frame),
        Err(e) => Err(e),
    }
}

// ---------------------------------------------------------------------------
// Laws
// ---------------------------------------------------------------------------

/// A frame without the grease parameters of a SETTINGS frame.
pub open spec fn without_grease(f: FrameValue) -> FrameValue {
    match f {
        FrameValue::Settings(list) => FrameValue::Settings(kept_settings(list)),
        _ => f,
    }
}

/// The parameters that are not grease.
pub open spec fn kept_settings(list: Seq<Setting>) -> Seq<Setting>
    decreases list.len(),
{
    if list.len() == 0 {
        Seq::empty()
    } else if grease(list.last().0 as nat) {
        kept_settings(list.drop_last())
    } else {
        kept_settings(list.drop_last()).push(list.last())
    }
}

/// Whether a SETTINGS frame is legal: no reserved and no repeated identifier.
pub open spec fn settings_legal(list: Seq<Setting>) -> bool {
    &&& forall|i: int| 0 <= i < list.len() ==> !reserved_setting((#[trigger] list[i]).0 as nat)
    &&& forall|i: int, j: int|
        0 <= i < j < list.len() ==> (#[trigger] list[i]).0 != (#[trigger] list[j]).0
}

proof fn lemma_setting_of_none(list: Seq<Setting>, id: u64)
    requires
        forall|i: int| 0 <= i < list.len() ==> (#[trigger] list[i]).0 != id,
    ensures
        setting_of(list, id) is None,
    decreases list.len(),
{
    if list.len() > 0 {
        let rest = list.skip(1);
        assert forall|i: int| 0 <= i < rest.len() implies (#[trigger] rest[i]).0 != id by {
            assert(rest[i] == list[i + 1]);
        }
        lemma_setting_of_none(rest, id);
    }
}

proof fn lemma_kept_subset(list: Seq<Setting>, k: int)
    requires
        0 <= k < kept_settings(list).len(),
    ensures
        exists|i: int| 0 <= i < list.len() && #[trigger] list[i] == kept_settings(list)[k],
    decreases list.len(),
{
    let d = list.drop_last();
    if k < kept_settings(d).len() {
        lemma_kept_subset(d, k);
        let i = choose|i: int| 0 <= i < d.len() && #[trigger] d[i] == kept_settings(d)[k];
        assert(list[i] == kept_settings(list)[k]);
    } else {
        assert(list[list.len() - 1] == kept_settings(list)[k]);
    }
}

/// Reading the parameters from the `i`-th on gives the rest.
proof fn lemma_settings_read(list: Seq<Setting>, i: int)
    requires
        settings_legal(list),
        settings_fit(list),
        0 <= i <= list.len(),
    ensures
        settings_octets(list.take(i)).len() <= settings_octets(list).len(),
        read_settings(
            settings_octets(list).skip(settings_octets(list.take(i)).len() as int),
            kept_settings(list.take(i)),
        ) == Ok::<Seq<Setting>, FrameError>(kept_settings(list)),
        settings_octets(list).take(settings_octets(list.take(i)).len() as int) == settings_octets(
            list.take(i),
        ),
    decreases list.len() - i,
{
    let o = settings_octets(list);
    let before = settings_octets(list.take(i));
    if i == list.len() {
        assert(list.take(i) =~= list);
        assert(o.skip(o.len() as int) =~= Seq::empty());
        assert(o.take(o.len() as int) =~= o);
    } else {
        let (id, value) = list[i];
        lemma_settings_octets_len(list, i);
        lemma_settings_read(list, i + 1);
        let after = settings_octets(list.take(i + 1));
        let a = varint_octets(id as nat);
        let b = varint_octets(value as nat);
        let tail = o.skip(after.len() as int);
        assert(o =~= after + tail);
        let s = o.skip(before.len() as int);
        assert(s =~= a + (b + tail));
        lemma_varint_round_trip(id as nat, b + tail);
        lemma_varint_round_trip(value as nat, tail);
        assert(s.skip(a.len() as int) =~= b + tail);
        assert(s.skip((a.len() + b.len()) as int) =~= tail);
        let kept = kept_settings(list.take(i));
        assert forall|k: int| 0 <= k < kept.len() implies (#[trigger] kept[k]).0 != id by {
            lemma_kept_subset(list.take(i), k);
            let j = choose|j: int|
                0 <= j < list.take(i).len() && #[trigger] list.take(i)[j] == kept[k];
            assert(list[j] == kept[k]);
        }
        lemma_setting_of_none(kept, id);
        assert(list.take(i + 1).drop_last() =~= list.take(i));
        assert(list.take(i + 1).last() == list[i]);
        assert(o.take(before.len() as int) =~= before);
    }
}

/// A frame that is encoded and then decoded is the same frame, but for the
/// grease parameters of a SETTINGS frame, whatever octets follow it.
pub proof fn lemma_frame_round_trip(f: FrameValue, rest: Seq<u8>)
    requires
        frame_fits(f),
        f matches FrameValue::Settings(list) ==> settings_legal(list),
    ensures
        next_frame(frame_octets(f) + rest) == (
            Ok::<Option<FrameValue>, FrameError>(Some(without_grease(f))),
            rest,
        ),
{
    let ty = frame_type(f) as nat;
    let p = payload_octets(f);
    let a = varint_octets(ty);
    let b = varint_octets(p.len());
    let s = frame_octets(f) + rest;
    lemma_varint_round_trip(ty, b + p + rest);
    lemma_varint_round_trip(p.len(), p + rest);
    assert(s =~= a + (b + p + rest));
    assert(s.skip(a.len() as int) =~= b + (p + rest));
    let h = (a.len() + b.len()) as int;
    assert(s.subrange(h, h + p.len()) =~= p);
    assert(s.skip(h + p.len()) =~= rest);
    match f {
        FrameValue::Settings(list) => {
            lemma_settings_read(list, 0);
            assert(list.take(0) =~= Seq::empty());
            assert(p.skip(0) =~= p);
        },
        FrameValue::CancelPush(id) => {
            lemma_varint_round_trip(id as nat, Seq::empty());
            assert(p + Seq::<u8>::empty() =~= p);
        },
        FrameValue::Goaway(id) => {
            lemma_varint_round_trip(id as nat, Seq::empty());
            assert(p + Seq::<u8>::empty() =~= p);
        },
        FrameValue::MaxPushId(id) => {
            lemma_varint_round_trip(id as nat, Seq::empty());
            assert(p + Seq::<u8>::empty() =~= p);
        },
        FrameValue::PushPromise { push_id, field_section } => {
            lemma_varint_round_trip(push_id as nat, field_section);
            assert(p.skip(varint_len(push_id as nat) as int) =~= field_section);
        },
        _ => {},
    }
}

/// An unknown frame type is skipped: whatever follows a complete frame of a
/// type that is neither known nor an HTTP/2 leftover is read as if the frame
/// were not there.
pub proof fn lemma_unknown_frame_is_skipped(ty: nat, payload: Seq<u8>, rest: Seq<u8>)
    requires
        ty <= MAX_VARINT,
        payload.len() <= MAX_VARINT,
        !known_type(ty),
        !http2_only(ty),
    ensures
        next_frame(varint_octets(ty) + varint_octets(payload.len()) + payload + rest)
            == next_frame(rest),
{
    let a = varint_octets(ty);
    let b = varint_octets(payload.len());
    let s = a + b + payload + rest;
    lemma_varint_round_trip(ty, b + payload + rest);
    lemma_varint_round_trip(payload.len(), payload + rest);
    assert(s =~= a + (b + payload + rest));
    assert(s.skip(a.len() as int) =~= b + (payload + rest));
    assert(s.skip((a.len() + b.len() + payload.len()) as int) =~= rest);
}

/// Received octets may be split anywhere: a frame or an error found in the
/// first part is found at once, and otherwise the second part continues where
/// the first was left.
pub proof fn lemma_next_frame_split(s: Seq<u8>, more: Seq<u8>)
    ensures
        ({
            let (r, rest) = next_frame(s);
            if r == Ok::<Option<FrameValue>, FrameError>(None) {
                next_frame(s + more) == next_frame(rest + more)
            } else {
                next_frame(s + more) == (r, rest + more)
            }
        }),
    decreases s.len(),
{
    let (r, rest) = next_frame(s);
    match read_varint(s) {
        Varint::More => {},
        Varint::Redundant => {
            lemma_read_varint_prefix(s, more);
        },
        Varint::Value { value: ty, len: n } => {
            lemma_read_varint_prefix(s, more);
            if !http2_only(ty) {
                let t = s.skip(n as int);
                assert((s + more).skip(n as int) =~= t + more);
                match read_varint(t) {
                    Varint::More => {},
                    Varint::Redundant => {
                        lemma_read_varint_prefix(t, more);
                    },
                    Varint::Value { value: len, len: m } => {
                        lemma_read_varint_prefix(t, more);
                        let total = (n + m + len) as int;
                        if total <= s.len() {
                            assert((s + more).skip(total) =~= s.skip(total) + more);
                            assert((s + more).subrange((n + m) as int, total) =~= s.subrange(
                                (n + m) as int,
                                total,
                            ));
                            if !known_type(ty) {
                                lemma_next_frame_split(s.skip(total), more);
                            }
                        }
                    },
                }
            }
        },
    }
}


/// The type of a frame that can be read is the one that is seen first.
pub proof fn lemma_peek_of_frame(s: Seq<u8>)
    ensures
        next_frame(s).0 matches Ok(Some(f)) ==> peek_type(s) == Some(frame_type(f) as nat),
    decreases s.len(),
{
    if let Varint::Value { value: ty, len: n } = read_varint(s) {
        if let Varint::Value { value: len, len: m } = read_varint(s.skip(n as int)) {
            let total = n + m + len;
            if !http2_only(ty) && 0 < total <= s.len() && !known_type(ty) {
                lemma_peek_of_frame(s.skip(total as int));
            }
        }
    }
}

/// Where nothing but unknown frames was read and nothing is left, there is no
/// type to be seen.
pub proof fn lemma_nothing_left_to_see(s: Seq<u8>)
    requires
        next_frame(s) == (Ok::<Option<FrameValue>, FrameError>(None), Seq::<u8>::empty()),
    ensures
        peek_type(s) is None,
    decreases s.len(),
{
    if s.len() == 0 {
        reveal(read_varint);
    }
    if let Varint::Value { value: ty, len: n } = read_varint(s) {
        if let Varint::Value { value: len, len: m } = read_varint(s.skip(n as int)) {
            let total = n + m + len;
            if !http2_only(ty) && 0 < total <= s.len() && !known_type(ty) {
                lemma_nothing_left_to_see(s.skip(total as int));
            }
        }
    }
}

/// The type of a known frame stays the first, whatever follows.
pub proof fn lemma_peek_known_stays(s: Seq<u8>, more: Seq<u8>)
    requires
        peek_type(s) matches Some(ty) && known_type(ty),
    ensures
        peek_type(s + more) == peek_type(s),
    decreases s.len(),
{
    if let Varint::Value { value: ty, len: n } = read_varint(s) {
        lemma_read_varint_prefix(s, more);
        let t = s.skip(n as int);
        assert((s + more).skip(n as int) =~= t + more);
        if let Varint::Value { value: len, len: m } = read_varint(t) {
            lemma_read_varint_prefix(t, more);
            let total = (n + m + len) as int;
            if !http2_only(ty) && 0 < total <= s.len() && !known_type(ty) {
                assert((s + more).skip(total) =~= s.skip(total) + more);
                lemma_peek_known_stays(s.skip(total), more);
            }
        }
    }
}

/// The type that is found does not depend on where the received octets are
/// split, once the unknown frames in the first part were skipped.
pub proof fn lemma_peek_type_split(s: Seq<u8>, more: Seq<u8>)
    requires
        next_frame(s).0 == Ok::<Option<FrameValue>, FrameError>(None),
    ensures
        peek_type(s + more) == peek_type(next_frame(s).1 + more),
    decreases s.len(),
{
    if let Varint::Value { value: ty, len: n } = read_varint(s) {
        lemma_read_varint_prefix(s, more);
        let t = s.skip(n as int);
        assert((s + more).skip(n as int) =~= t + more);
        if let Varint::Value { value: len, len: m } = read_varint(t) {
            lemma_read_varint_prefix(t, more);
            let total = (n + m + len) as int;
            if !http2_only(ty) && 0 < total <= s.len() && !known_type(ty) {
                assert((s + more).skip(total) =~= s.skip(total) + more);
                lemma_peek_type_split(s.skip(total), more);
            }
        }
    }
}

/// A quotient without its last octet.
proof fn lemma_octet_off(v: nat, k: nat)
    requires
        k > 0,
    ensures
        v / k == 256 * (v / (256 * k)) + v / k % 256,
{
    vstd::arithmetic::div_mod::lemma_div_denominator(v as int, k as int, 256);
    assert(k * 256 == 256 * k);
    vstd::arithmetic::div_mod::lemma_fundamental_div_mod((v / k) as int, 256);
}

proof fn lemma_varint_layout_eight(v: nat)
    requires
        0x4000_0000 <= v <= 0x3fff_ffff_ffff_ffff,
    ensures
        varint_octets(v) == seq![
            (0xc0 + v / 0x100_0000_0000_0000) as u8,
            (v / 0x1_0000_0000_0000 % 0x100) as u8,
            (v / 0x100_0000_0000 % 0x100) as u8,
            (v / 0x1_0000_0000 % 0x100) as u8,
            (v / 0x100_0000 % 0x100) as u8,
            (v / 0x1_0000 % 0x100) as u8,
            (v / 0x100 % 0x100) as u8,
            (v % 0x100) as u8,
        ],
{
    reveal(varint_octets);
    let t = seq![
        (0xc0 + v / 0x100_0000_0000_0000) as u8,
        (v / 0x1_0000_0000_0000 % 0x100) as u8,
        (v / 0x100_0000_0000 % 0x100) as u8,
        (v / 0x1_0000_0000 % 0x100) as u8,
        (v / 0x100_0000 % 0x100) as u8,
        (v / 0x1_0000 % 0x100) as u8,
        (v / 0x100 % 0x100) as u8,
        (v % 0x100) as u8,
    ];
    lemma_be_inverse(t);
    let e = Seq::<u8>::empty();
    let t1 = e.push(t[0]);
    let t2 = t1.push(t[1]);
    let t3 = t2.push(t[2]);
    let t4 = t3.push(t[3]);
    let t5 = t4.push(t[4]);
    let t6 = t5.push(t[5]);
    let t7 = t6.push(t[6]);
    lemma_be_two(e, t[0]);
    lemma_be_two(t1, t[1]);
    lemma_be_two(t2, t[2]);
    lemma_be_two(t3, t[3]);
    lemma_be_two(t4, t[4]);
    lemma_be_two(t5, t[5]);
    lemma_be_two(t6, t[6]);
    lemma_be_two(t7, t[7]);
    assert(t7.push(t[7]) =~= t);
    lemma_octet_off(v, 0x1_0000_0000_0000);
    lemma_octet_off(v, 0x100_0000_0000);
    lemma_octet_off(v, 0x1_0000_0000);
    lemma_octet_off(v, 0x100_0000);
    lemma_octet_off(v, 0x1_0000);
    lemma_octet_off(v, 0x100);
    lemma_octet_off(v, 1);
    assert(v / 0x100_0000_0000_0000 < 0x40);
    assert(be_value(t1) == 0xc0 + v / 0x100_0000_0000_0000);
    assert(be_value(t2) == 0xc000 + v / 0x1_0000_0000_0000);
    assert(be_value(t3) == 0xc0_0000 + v / 0x100_0000_0000);
    assert(be_value(t4) == 0xc000_0000 + v / 0x1_0000_0000);
    assert(be_value(t5) == 0xc0_0000_0000 + v / 0x100_0000);
    assert(be_value(t6) == 0xc000_0000_0000 + v / 0x1_0000);
    assert(be_value(t7) == 0xc0_0000_0000_0000 + v / 0x100);
    assert(be_value(t) == 0xc000_0000_0000_0000 + v);
}

/// The octets of a variable-length integer (RFC 9000 Section 16): one, two, four or
/// eight of them, the fewest that hold the value, most significant first, with
/// the length in the two highest bits.
pub proof fn lemma_varint_layout(v: nat)
    requires
        v <= 0x3fff_ffff_ffff_ffff,
    ensures
        v < 0x40 ==> varint_octets(v) == seq![v as u8],
        0x40 <= v < 0x4000 ==> varint_octets(v) == seq![
            (0x40 + v / 0x100) as u8,
            (v % 0x100) as u8,
        ],
        0x4000 <= v < 0x4000_0000 ==> varint_octets(v) == seq![
            (0x80 + v / 0x100_0000) as u8,
            (v / 0x1_0000 % 0x100) as u8,
            (v / 0x100 % 0x100) as u8,
            (v % 0x100) as u8,
        ],
        0x4000_0000 <= v ==> varint_octets(v) == seq![
            (0xc0 + v / 0x100_0000_0000_0000) as u8,
            (v / 0x1_0000_0000_0000 % 0x100) as u8,
            (v / 0x100_0000_0000 % 0x100) as u8,
            (v / 0x1_0000_0000 % 0x100) as u8,
            (v / 0x100_0000 % 0x100) as u8,
            (v / 0x1_0000 % 0x100) as u8,
            (v / 0x100 % 0x100) as u8,
            (v % 0x100) as u8,
        ],
{
    reveal(varint_octets);
    if v < 0x40 {
        lemma_be_inverse(seq![v as u8]);
        lemma_be_two(Seq::empty(), v as u8);
        assert(Seq::<u8>::empty().push(v as u8) =~= seq![v as u8]);
    } else if v < 0x4000 {
        let t = seq![(0x40 + v / 0x100) as u8, (v % 0x100) as u8];
        lemma_be_inverse(t);
        lemma_be_two(Seq::empty(), t[0]);
        lemma_be_two(Seq::empty().push(t[0]), t[1]);
        assert(Seq::<u8>::empty().push(t[0]).push(t[1]) =~= t);
    } else if v < 0x4000_0000 {
        let t = seq![
            (0x80 + v / 0x100_0000) as u8,
            (v / 0x1_0000 % 0x100) as u8,
            (v / 0x100 % 0x100) as u8,
            (v % 0x100) as u8,
        ];
        lemma_be_inverse(t);
        let e = Seq::<u8>::empty();
        lemma_be_two(e, t[0]);
        lemma_be_two(e.push(t[0]), t[1]);
        lemma_be_two(e.push(t[0]).push(t[1]), t[2]);
        lemma_be_two(e.push(t[0]).push(t[1]).push(t[2]), t[3]);
        assert(e.push(t[0]).push(t[1]).push(t[2]).push(t[3]) =~= t);
    } else {
        lemma_varint_layout_eight(v);
    }
}

proof fn lemma_be_two(s: Seq<u8>, b: u8)
    ensures
        be_value(s.push(b)) == 256 * be_value(s) + b,
        be_value(Seq::empty()) == 0,
{
    assert(s.push(b).drop_last() =~= s);
}

/// Spelling the number that octets spell gives them back.
proof fn lemma_be_inverse(s: Seq<u8>)
    ensures
        octets::big_endian(be_value(s), s.len()) == s,
    decreases s.len(),
{
    if s.len() > 0 {
        lemma_be_inverse(s.drop_last());
        let v = be_value(s);
        assert(v / 256 == be_value(s.drop_last()));
        assert(v % 256 == s.last());
        assert(octets::big_endian(v, s.len()) =~= s);
    } else {
        assert(octets::big_endian(be_value(s), 0) =~= s);
    }
}

/// What is read as an integer is that integer's encoding, and nothing else is:
/// an integer is read exactly where the octets start with its encoding.
pub proof fn lemma_varint_reads_its_own_encoding(s: Seq<u8>)
    ensures
        read_varint(s) matches Varint::Value { value, len } ==> value <= 0x3fff_ffff_ffff_ffff
            && len == varint_octets(value).len() && len <= s.len() && s.take(len as int)
            == varint_octets(value),
        !(read_varint(s) is Value) ==> forall|v: nat|
            v <= 0x3fff_ffff_ffff_ffff ==> !(#[trigger] varint_octets(v)).is_prefix_of(s),
        read_varint(s) is More <==> s.len() == 0 || s.len() < 1 || (s[0] >= 0x40 && s.len() < 2)
            || (s[0] >= 0x80 && s.len() < 4) || (s[0] >= 0xc0 && s.len() < 8),
{
    if let Varint::Value { value, len } = read_varint(s) {
        lemma_read_varint_prefix(s, Seq::empty());
        lemma_varint_round_trip(value, Seq::empty());
        reveal(read_varint);
        reveal(varint_octets);
        let t = s.take(len as int);
        lemma_varint_range(s);
        lemma_be_inverse(t);
        assert(be_value(t) == value + varint_tag(len));
    } else {
        assert forall|v: nat| v <= 0x3fff_ffff_ffff_ffff implies !(
        #[trigger] varint_octets(v)).is_prefix_of(s) by {
            let o = varint_octets(v);
            if o.is_prefix_of(s) {
                let rest = s.skip(o.len() as int);
                lemma_varint_round_trip(v, rest);
                assert(o + rest =~= s);
            }
        }
    }
    reveal(read_varint);
}

/// The beginning of an integer is not an integer.
proof fn lemma_varint_cut(v: nat, k: int)
    requires
        v <= MAX_VARINT,
        0 <= k < varint_octets(v).len(),
    ensures
        read_varint(varint_octets(v).take(k)) is More,
{
    let o = varint_octets(v);
    lemma_varint_round_trip(v, Seq::empty());
    assert(o + Seq::<u8>::empty() =~= o);
    reveal(read_varint);
    if k > 0 {
        assert(o.take(k)[0] == o[0]);
    }
}

/// A frame on the wire: the octet of its type, the length of its payload, and its
/// payload, which is the data or the section itself, or one integer, or an integer
/// in front of a section.
pub proof fn lemma_frame_layout(f: FrameValue)
    ensures
        f matches FrameValue::Data(b) ==> frame_octets(f) == seq![0x00u8] + varint_octets(b.len())
            + b,
        f matches FrameValue::Headers(b) ==> frame_octets(f) == seq![0x01u8] + varint_octets(
            b.len(),
        ) + b,
        f matches FrameValue::CancelPush(id) ==> frame_octets(f) == seq![0x03u8] + varint_octets(
            varint_octets(id as nat).len(),
        ) + varint_octets(id as nat),
        f matches FrameValue::Settings(list) ==> frame_octets(f) == seq![0x04u8] + varint_octets(
            settings_octets(list).len(),
        ) + settings_octets(list),
        f matches FrameValue::PushPromise { push_id, field_section } ==> frame_octets(f) == seq![
            0x05u8,
        ] + varint_octets(varint_octets(push_id as nat).len() + field_section.len()) + (
        varint_octets(push_id as nat) + field_section),
        f matches FrameValue::Goaway(id) ==> frame_octets(f) == seq![0x07u8] + varint_octets(
            varint_octets(id as nat).len(),
        ) + varint_octets(id as nat),
        f matches FrameValue::MaxPushId(id) ==> frame_octets(f) == seq![0x0du8] + varint_octets(
            varint_octets(id as nat).len(),
        ) + varint_octets(id as nat),
{
    lemma_varint_layout(0x00);
    lemma_varint_layout(0x01);
    lemma_varint_layout(0x03);
    lemma_varint_layout(0x04);
    lemma_varint_layout(0x05);
    lemma_varint_layout(0x07);
    lemma_varint_layout(0x0d);
}

/// The payload of a SETTINGS frame is made of its parameters, one behind the
/// other, each an identifier and a value.
pub proof fn lemma_settings_layout(a: Seq<Setting>, b: Seq<Setting>, p: Setting)
    ensures
        settings_octets(Seq::empty()).len() == 0,
        settings_octets(seq![p]) == varint_octets(p.0 as nat) + varint_octets(p.1 as nat),
        settings_octets(a + b) == settings_octets(a) + settings_octets(b),
    decreases b.len(),
{
    assert(seq![p].drop_last() =~= Seq::empty());
    assert(settings_octets(Seq::empty()) =~= Seq::empty());
    assert(settings_octets(seq![p]) =~= varint_octets(p.0 as nat) + varint_octets(p.1 as nat));
    if b.len() > 0 {
        lemma_settings_layout(a, b.drop_last(), p);
        assert((a + b).drop_last() =~= a + b.drop_last());
        assert((a + b).last() == b.last());
        assert(settings_octets(a + b) =~= settings_octets(a) + settings_octets(b));
    } else {
        assert(a + b =~= a);
        assert(settings_octets(a) + settings_octets(b) =~= settings_octets(a));
    }
}

/// The types of frames: seven that are known, four of HTTP/2 that are errors.
pub proof fn lemma_frame_types(ty: nat)
    ensures
        known_type(ty) <==> ty == 0x00 || ty == 0x01 || ty == 0x03 || ty == 0x04 || ty == 0x05
            || ty == 0x07 || ty == 0x0d,
        http2_only(ty) <==> ty == 0x02 || ty == 0x06 || ty == 0x08 || ty == 0x09,
{
}

/// Octets in the shape of a frame of type `ty` with the payload `p`.
pub open spec fn shaped(ty: nat, p: Seq<u8>) -> Seq<u8> {
    varint_octets(ty) + varint_octets(p.len()) + p
}

/// What is read off octets in the shape of a frame, whatever follows them: a
/// frame of that type with that payload; an error, where the payload does not
/// exactly fit the type, or the type is one of HTTP/2; and what follows, where the
/// type is unknown.
pub proof fn lemma_frames_are_read(ty: nat, p: Seq<u8>, rest: Seq<u8>)
    requires
        ty <= MAX_VARINT,
        p.len() <= MAX_VARINT,
    ensures
        ({
            let s = shaped(ty, p) + rest;
            let one = |f: FrameValue| (Ok::<Option<FrameValue>, FrameError>(Some(f)), rest);
            let bad = (Err::<Option<FrameValue>, FrameError>(FrameError::Frame), rest);
            &&& ty == 0x00 ==> next_frame(s) == one(FrameValue::Data(p))
            &&& ty == 0x01 ==> next_frame(s) == one(FrameValue::Headers(p))
            &&& ty == 0x02 || ty == 0x06 || ty == 0x08 || ty == 0x09 ==> next_frame(s) == (
                Err::<Option<FrameValue>, FrameError>(FrameError::Unexpected(ty as u64)),
                s,
            )
            &&& forall|id: u64|
                #![trigger varint_octets(id as nat)]
                id <= MAX_VARINT && p == varint_octets(id as nat) ==> {
                    &&& ty == 0x03 ==> next_frame(s) == one(FrameValue::CancelPush(id))
                    &&& ty == 0x07 ==> next_frame(s) == one(FrameValue::Goaway(id))
                    &&& ty == 0x0d ==> next_frame(s) == one(FrameValue::MaxPushId(id))
                }
            &&& (ty == 0x03 || ty == 0x07 || ty == 0x0d) && (forall|id: nat|
                id <= MAX_VARINT ==> p != #[trigger] varint_octets(id)) ==> next_frame(s) == bad
            &&& forall|id: u64, section: Seq<u8>|
                #![trigger varint_octets(id as nat) + section]
                ty == 0x05 && id <= MAX_VARINT && p == varint_octets(id as nat) + section
                    ==> next_frame(s) == one(
                    FrameValue::PushPromise { push_id: id, field_section: section },
                )
            &&& ty == 0x05 && (forall|id: nat|
                id <= MAX_VARINT ==> !(#[trigger] varint_octets(id)).is_prefix_of(p))
                ==> next_frame(s) == bad
            &&& ty == 0x04 ==> next_frame(s) == (
                match read_settings(p, Seq::empty()) {
                    Ok(list) => Ok::<Option<FrameValue>, FrameError>(
                        Some(FrameValue::Settings(list)),
                    ),
                    Err(e) => Err(e),
                },
                rest,
            )
            &&& !known_type(ty) && !http2_only(ty) ==> next_frame(s) == next_frame(rest)
        }),
{
    let a = varint_octets(ty);
    let b = varint_octets(p.len());
    let s = shaped(ty, p) + rest;
    lemma_varint_round_trip(ty, b + p + rest);
    lemma_varint_round_trip(p.len(), p + rest);
    assert(s =~= a + (b + p + rest));
    assert(s.skip(a.len() as int) =~= b + (p + rest));
    let h = (a.len() + b.len()) as int;
    assert(s.subrange(h, h + p.len()) =~= p);
    assert(s.skip(h + p.len()) =~= rest);
    assert forall|id: u64|
        #![trigger varint_octets(id as nat)]
        id <= MAX_VARINT && p == varint_octets(id as nat) implies sole_varint(p) == Ok::<
        u64,
        FrameError,
    >(id) by {
        lemma_varint_round_trip(id as nat, Seq::empty());
        assert(p + Seq::<u8>::empty() =~= p);
    }
    lemma_varint_reads_its_own_encoding(p);
    if forall|id: nat| id <= MAX_VARINT ==> p != #[trigger] varint_octets(id) {
        if let Varint::Value { value, len } = read_varint(p) {
            if len == p.len() {
                assert(p.take(len as int) =~= p);
                assert(p == varint_octets(value));
            }
        }
        assert(sole_varint(p) == Err::<u64, FrameError>(FrameError::Frame));
    }
    assert forall|id: u64, section: Seq<u8>|
        #![trigger varint_octets(id as nat) + section]
        ty == 0x05 && id <= MAX_VARINT && p == varint_octets(id as nat) + section implies next_frame(
        s,
    ) == (
        Ok::<Option<FrameValue>, FrameError>(
            Some(FrameValue::PushPromise { push_id: id, field_section: section }),
        ),
        rest,
    ) by {
        lemma_varint_round_trip(id as nat, section);
        assert(p.skip(varint_len(id as nat) as int) =~= section);
    }
    if forall|id: nat| id <= MAX_VARINT ==> !(#[trigger] varint_octets(id)).is_prefix_of(p) {
        if let Varint::Value { value, len } = read_varint(p) {
            assert(varint_octets(value).is_prefix_of(p)) by {
                assert(p.take(len as int) =~= varint_octets(value));
            }
        }
    }
}

/// A frame is not read before all of it has arrived, and nothing is lost of it:
/// of a frame that is cut off anywhere there is no frame yet, and everything is
/// kept.
pub proof fn lemma_unfinished_frames_are_kept(ty: nat, p: Seq<u8>, n: int)
    requires
        ty <= MAX_VARINT,
        p.len() <= MAX_VARINT,
        ty != 0x02 && ty != 0x06 && ty != 0x08 && ty != 0x09,
        0 <= n < shaped(ty, p).len(),
    ensures
        next_frame(shaped(ty, p).take(n)) == (
            Ok::<Option<FrameValue>, FrameError>(None),
            shaped(ty, p).take(n),
        ),
{
    let a = varint_octets(ty);
    let b = varint_octets(p.len());
    let s = shaped(ty, p).take(n);
    lemma_varint_round_trip(ty, Seq::empty());
    lemma_varint_round_trip(p.len(), Seq::empty());
    if n < a.len() {
        lemma_varint_cut(ty, n);
        assert(s =~= a.take(n));
    } else {
        let t = s.skip(a.len() as int);
        lemma_varint_round_trip(ty, t);
        assert(s =~= a + t);
        if n < a.len() + b.len() {
            lemma_varint_cut(p.len(), n - a.len());
            assert(t =~= b.take(n - a.len()));
        } else {
            let u = t.skip(b.len() as int);
            lemma_varint_round_trip(p.len(), u);
            assert(t =~= b + u);
        }
    }
}

/// The identifiers that mean nothing and are to be ignored, by number.
pub open spec fn grease_id(n: nat) -> nat {
    0x1f * n + 0x21
}

/// An identifier that means nothing and is to be ignored.
pub open spec fn is_grease_id(id: u64) -> bool {
    exists|n: nat| id == #[trigger] grease_id(n)
}

proof fn lemma_grease_ids(id: u64)
    ensures
        grease(id as nat) <==> is_grease_id(id),
{
    if grease(id as nat) {
        let n = ((id - 0x21) / 0x1f) as nat;
        assert(id == grease_id(n));
    }
    if is_grease_id(id) {
        let n = choose|n: nat| id == #[trigger] grease_id(n);
        assert((0x1f * n) % 0x1f == 0) by (nonlinear_arith);
    }
}

/// The parameters that are kept of a SETTINGS frame are those that mean
/// something, in order and as they came.
pub proof fn lemma_kept_parameters(list: Seq<Setting>)
    ensures
        kept_settings(list) == list.filter(|p: Setting| !is_grease_id(p.0)),
    decreases list.len(),
{
    reveal(Seq::filter);
    if list.len() > 0 {
        lemma_kept_parameters(list.drop_last());
        lemma_grease_ids(list.last().0);
    }
}

/// Whether the first `n` parameters of a list are fine: no identifier of HTTP/2,
/// and none twice but those that mean nothing.
pub open spec fn fine_up_to(list: Seq<Setting>, n: int) -> bool {
    &&& forall|i: int| 0 <= i < n ==> !(0x02 <= (#[trigger] list[i]).0 <= 0x05)
    &&& forall|i: int, j: int|
        0 <= i < j < n && !is_grease_id(list[i].0) ==> (#[trigger] list[i]).0 != (
        #[trigger] list[j]).0
}

/// What is read of a SETTINGS payload: the parameters that mean something, where
/// all of them are fine; and `H3_SETTINGS_ERROR` where one is not.
pub proof fn lemma_settings_are_read(list: Seq<Setting>)
    requires
        settings_fit(list),
    ensures
        fine_up_to(list, list.len() as int) ==> read_settings(settings_octets(list), Seq::empty())
            == Ok::<Seq<Setting>, FrameError>(list.filter(|p: Setting| !is_grease_id(p.0))),
        !fine_up_to(list, list.len() as int) ==> read_settings(
            settings_octets(list),
            Seq::empty(),
        ) == Err::<Seq<Setting>, FrameError>(FrameError::Settings),
{
    let none = Seq::<Setting>::empty();
    lemma_kept_parameters(list);
    assert(list.take(0) =~= none);
    assert(list.skip(0) =~= list);
    assert(kept_settings(none) =~= none);
    lemma_settings_read_on(list, 0);
}

proof fn lemma_settings_read_on(list: Seq<Setting>, i: int)
    requires
        settings_fit(list),
        0 <= i <= list.len(),
        fine_up_to(list, i),
    ensures
        read_settings(settings_octets(list.skip(i)), kept_settings(list.take(i)))
            == if fine_up_to(list, list.len() as int) {
            Ok::<Seq<Setting>, FrameError>(kept_settings(list))
        } else {
            Err(FrameError::Settings)
        },
    decreases list.len() - i,
{
    let s = settings_octets(list.skip(i));
    if i == list.len() {
        assert(list.skip(i) =~= Seq::empty());
        assert(list.take(i) =~= list);
        assert(s.len() == 0);
    } else {
        let (id, value) = list[i];
        let tail = settings_octets(list.skip(i + 1));
        lemma_settings_layout(seq![list[i]], list.skip(i + 1), list[i]);
        assert(seq![list[i]] + list.skip(i + 1) =~= list.skip(i));
        let a = varint_octets(id as nat);
        let b = varint_octets(value as nat);
        assert(s =~= a + (b + tail));
        lemma_varint_round_trip(id as nat, b + tail);
        lemma_varint_round_trip(value as nat, tail);
        assert(s.skip(a.len() as int) =~= b + tail);
        assert(s.skip((a.len() + b.len()) as int) =~= tail);
        let kept = kept_settings(list.take(i));
        lemma_grease_ids(id);
        assert(list.take(i + 1).drop_last() =~= list.take(i));
        assert(list.take(i + 1).last() == list[i]);
        lemma_kept_has(list.take(i), id);
        lemma_setting_of_iff(kept, id);
        if reserved_setting(id as nat) {
            assert(!fine_up_to(list, list.len() as int)) by {
                assert(0x02 <= list[i].0 <= 0x05);
            }
        } else if setting_of(kept, id) is Some {
            let j = choose|j: int|
                0 <= j < list.take(i).len() && (#[trigger] list.take(i)[j]).0 == id
                    && !is_grease_id(id);
            assert(list[j].0 == list[i].0);
            assert(!fine_up_to(list, list.len() as int));
        } else {
            assert(fine_up_to(list, i + 1)) by {
                assert forall|x: int, y: int|
                    0 <= x < y < i + 1 && !is_grease_id(list[x].0) implies (#[trigger] list[x]).0
                    != (#[trigger] list[y]).0 by {
                    if y == i && list[x].0 == id {
                        assert(list.take(i)[x].0 == id);
                    }
                }
            }
            lemma_settings_read_on(list, i + 1);
        }
    }
}

/// Which identifiers are among the kept parameters.
proof fn lemma_kept_has(list: Seq<Setting>, id: u64)
    ensures
        (exists|k: int| 0 <= k < kept_settings(list).len() && (#[trigger] kept_settings(list)[k]).0
            == id) <==> (exists|j: int|
            0 <= j < list.len() && (#[trigger] list[j]).0 == id && !is_grease_id(id)),
    decreases list.len(),
{
    if list.len() > 0 {
        let less = list.drop_last();
        let n = list.len() - 1;
        lemma_kept_has(less, id);
        lemma_grease_ids(list.last().0);
        assert(list[n] == list.last());
        let kept = kept_settings(list);
        let before = kept_settings(less);
        if exists|k: int| 0 <= k < kept.len() && (#[trigger] kept[k]).0 == id {
            let k = choose|k: int| 0 <= k < kept.len() && (#[trigger] kept[k]).0 == id;
            if k < before.len() {
                assert(before[k].0 == id);
                let j = choose|j: int|
                    0 <= j < less.len() && (#[trigger] less[j]).0 == id && !is_grease_id(id);
                assert(list[j].0 == id);
            } else {
                assert(list[n].0 == id && !is_grease_id(id));
            }
        }
        if exists|j: int| 0 <= j < list.len() && (#[trigger] list[j]).0 == id && !is_grease_id(id) {
            let j = choose|j: int|
                0 <= j < list.len() && (#[trigger] list[j]).0 == id && !is_grease_id(id);
            if j < n {
                assert(less[j].0 == id);
                let k = choose|k: int| 0 <= k < before.len() && (#[trigger] before[k]).0 == id;
                assert(kept[k].0 == id);
            } else {
                assert(kept[kept.len() - 1].0 == id);
            }
        }
    }
}

/// A lookup finds the first parameter with that identifier, and one where there
/// is one.
pub proof fn lemma_setting_lookup(list: Seq<Setting>, id: u64, i: int)
    requires
        0 <= i < list.len(),
        list[i].0 == id,
        forall|j: int| 0 <= j < i ==> (#[trigger] list[j]).0 != id,
    ensures
        setting_of(list, id) == Some(list[i].1),
    decreases i,
{
    if i > 0 {
        assert(list[0].0 != id);
        let rest = list.skip(1);
        assert forall|j: int| 0 <= j < i - 1 implies (#[trigger] rest[j]).0 != id by {
            assert(rest[j] == list[j + 1]);
        }
        lemma_setting_lookup(rest, id, i - 1);
    }
}

proof fn lemma_setting_of_iff(list: Seq<Setting>, id: u64)
    ensures
        setting_of(list, id) is Some <==> exists|k: int|
            0 <= k < list.len() && (#[trigger] list[k]).0 == id,
    decreases list.len(),
{
    if list.len() > 0 {
        let rest = list.skip(1);
        lemma_setting_of_iff(rest, id);
        if exists|k: int| 0 <= k < list.len() && (#[trigger] list[k]).0 == id {
            let k = choose|k: int| 0 <= k < list.len() && (#[trigger] list[k]).0 == id;
            if k > 0 {
                assert(rest[k - 1].0 == id);
            }
        }
        if exists|k: int| 0 <= k < rest.len() && (#[trigger] rest[k]).0 == id {
            let k = choose|k: int| 0 <= k < rest.len() && (#[trigger] rest[k]).0 == id;
            assert(list[k + 1].0 == id);
        }
    }
}

/// The codes that malformed frames close the connection with.
pub proof fn lemma_frame_error_codes(ty: u64)
    ensures
        FrameError::Frame.h3_error().code_spec() == 0x0106,
        FrameError::Unexpected(ty).h3_error().code_spec() == 0x0105,
        FrameError::Settings.h3_error().code_spec() == 0x0109,
{
}

/// A frame stands for its own payload.
pub proof fn lemma_frame_stands_for_itself(f: Frame)
    ensures
        f matches Frame::Data(b) ==> f@ == FrameValue::Data(octets::content(b)),
        f matches Frame::Headers(b) ==> f@ == FrameValue::Headers(octets::content(b)),
        f matches Frame::Settings(s) ==> f@ == FrameValue::Settings(s@),
        f matches Frame::CancelPush(id) ==> f@ == FrameValue::CancelPush(id),
        f matches Frame::Goaway(id) ==> f@ == FrameValue::Goaway(id),
        f matches Frame::MaxPushId(id) ==> f@ == FrameValue::MaxPushId(id),
        f matches Frame::PushPromise { push_id, field_section } ==> f@
            == (FrameValue::PushPromise {
            push_id,
            field_section: octets::content(field_section),
        }),
{
}

/// A known type, or one of HTTP/2, is seen as soon as it is there, whatever follows
/// it; a whole frame of an unknown type is passed over, and the type of one that is
/// not whole is seen.
pub proof fn lemma_types_are_peeked(ty: nat, p: Seq<u8>, rest: Seq<u8>, n: int)
    requires
        ty <= MAX_VARINT,
        p.len() <= MAX_VARINT,
        varint_octets(ty).len() <= n < shaped(ty, p).len(),
    ensures
        known_type(ty) || http2_only(ty) ==> peek_type(varint_octets(ty) + rest) == Some(ty),
        !known_type(ty) && !http2_only(ty) ==> peek_type(shaped(ty, p) + rest) == peek_type(rest),
        peek_type(shaped(ty, p).take(n)) == Some(ty),
        peek_type(Seq::empty()) is None,
{
    let a = varint_octets(ty);
    let b = varint_octets(p.len());
    let s = shaped(ty, p) + rest;
    lemma_varint_round_trip(ty, rest);
    lemma_varint_round_trip(ty, b + p + rest);
    lemma_varint_round_trip(p.len(), p + rest);
    assert(s =~= a + (b + p + rest));
    assert(s.skip(a.len() as int) =~= b + (p + rest));
    assert(s.skip((a.len() + b.len() + p.len()) as int) =~= rest);
    let t = shaped(ty, p).take(n);
    lemma_varint_round_trip(ty, t.skip(a.len() as int));
    assert(t =~= a + t.skip(a.len() as int));
    let tail = t.skip(a.len() as int);
    if tail.len() >= b.len() {
        lemma_varint_round_trip(p.len(), tail.skip(b.len() as int));
        assert(tail =~= b + tail.skip(b.len() as int));
    } else {
        lemma_varint_cut(p.len(), tail.len() as int);
        assert(tail =~= b.take(tail.len() as int));
    }
    reveal(read_varint);
}

} // verus!
