//! Prefixed integers (RFC 7541 Section 5.1).
//!
//! A value below `2^N - 1` is carried in the low `N` bits of the first octet.
//! Any other value fills those bits with ones and continues with the
//! difference in groups of seven bits, least significant group first, the
//! high bit of every octet but the last being set.

use super::HpackError;
use vstd::prelude::*;
use vstd::slice::*;

verus! {

/// The number of continuation octets a 64-bit value can take.
pub const MAX_CONTINUATION: usize = 10;

/// `2^bits - 1`: the value that marks a continued integer.
pub open spec fn prefix_max(bits: u8) -> nat {
    match bits {
        1 => 1,
        2 => 3,
        3 => 7,
        4 => 15,
        5 => 31,
        6 => 63,
        7 => 127,
        _ => 255,
    }
}

/// The low `bits` bits of `octet`.
pub open spec fn low_bits(octet: u8, bits: u8) -> nat {
    match bits {
        1 => octet as nat % 2,
        2 => octet as nat % 4,
        3 => octet as nat % 8,
        4 => octet as nat % 16,
        5 => octet as nat % 32,
        6 => octet as nat % 64,
        7 => octet as nat % 128,
        _ => octet as nat,
    }
}

/// Whether `header` leaves the low `bits` bits of the first octet free.
pub open spec fn header_fits(header: u8, bits: u8) -> bool {
    1 <= bits <= 8 && low_bits(header, bits) == 0
}

/// The continuation octets of `v`.
pub open spec fn continuation(v: nat) -> Seq<u8>
    decreases v,
{
    if v < 128 {
        seq![v as u8]
    } else {
        seq![(v % 128 + 128) as u8] + continuation(v / 128)
    }
}

/// The encoding of `value` behind the leading bits `header`.
#[verifier::opaque]
pub open spec fn encoded(value: nat, bits: u8, header: u8) -> Seq<u8> {
    if value < prefix_max(bits) {
        seq![(header + value) as u8]
    } else {
        seq![(header + prefix_max(bits)) as u8] + continuation((value - prefix_max(bits)) as nat)
    }
}

/// The value and the length of the continuation octets that `s` starts with,
/// or `None` when none of its octets ends them.
pub open spec fn read_continuation(s: Seq<u8>) -> Option<(nat, nat)>
    decreases s.len(),
{
    if s.len() == 0 {
        None
    } else if s[0] < 128 {
        Some((s[0] as nat, 1))
    } else {
        match read_continuation(s.skip(1)) {
            Some((v, n)) => Some(((s[0] - 128 + 128 * v) as nat, n + 1)),
            None => None,
        }
    }
}

/// The value and the length of the prefixed integer that `s` starts with.
#[verifier::opaque]
pub open spec fn read(s: Seq<u8>, bits: u8) -> Option<(nat, nat)> {
    if s.len() == 0 {
        None
    } else {
        let low = low_bits(s[0], bits);
        if low < prefix_max(bits) {
            Some((low, 1))
        } else {
            match read_continuation(s.skip(1)) {
                Some((v, n)) => Some((prefix_max(bits) + v, n + 1)),
                None => None,
            }
        }
    }
}

/// The 64-bit value and the length of the prefixed integer that `s` starts
/// with: `None` when it is truncated, takes more octets than a 64-bit value
/// can, or exceeds 64 bits.
#[verifier::opaque]
pub open spec fn parse(s: Seq<u8>, bits: u8) -> Option<(u64, nat)> {
    match read(s, bits) {
        Some((v, n)) => if v <= u64::MAX && n <= MAX_CONTINUATION + 1 {
            Some((v as u64, n))
        } else {
            None
        },
        None => None,
    }
}

spec fn pow128(k: nat) -> nat
    decreases k,
{
    if k == 0 {
        1
    } else {
        128 * pow128((k - 1) as nat)
    }
}

proof fn lemma_continuation_len(v: nat, k: nat)
    requires
        v < pow128(k),
        k >= 1,
    ensures
        1 <= continuation(v).len() <= k,
    decreases k,
{
    if v >= 128 {
        if k == 1 {
            reveal_with_fuel(pow128, 2);
        } else {
            lemma_continuation_len(v / 128, (k - 1) as nat);
        }
    }
}

proof fn lemma_continuation_round_trip(v: nat, rest: Seq<u8>)
    ensures
        read_continuation(continuation(v) + rest) == Some((v, continuation(v).len())),
    decreases v,
{
    let s = continuation(v) + rest;
    if v < 128 {
        assert(s[0] == v);
    } else {
        lemma_continuation_round_trip(v / 128, rest);
        assert(s.skip(1) =~= continuation(v / 128) + rest);
        assert(s[0] == v % 128 + 128);
    }
}

proof fn lemma_low(h: int, v: int, m: int)
    requires
        0 <= v < m,
        h % m == 0,
    ensures
        (h + v) % m == v,
{
    let q = h / m;
    vstd::arithmetic::div_mod::lemma_fundamental_div_mod(h, m);
    vstd::arithmetic::mul::lemma_mul_is_commutative(q, m);
    vstd::arithmetic::div_mod::lemma_fundamental_div_mod_converse_mod(h + v, m, q, v);
}

/// An octet made of leading bits and a value holds the value in its low bits.
#[verifier::spinoff_prover]
pub proof fn lemma_header(header: u8, bits: u8, v: nat)
    requires
        header_fits(header, bits),
        v <= prefix_max(bits),
    ensures
        header + v <= 255,
        low_bits((header + v) as u8, bits) == v,
{
    if bits == 1 {
        lemma_low(header as int, v as int, 2);
    } else if bits == 2 {
        lemma_low(header as int, v as int, 4);
    } else if bits == 3 {
        lemma_low(header as int, v as int, 8);
    } else if bits == 4 {
        lemma_low(header as int, v as int, 16);
    } else if bits == 5 {
        lemma_low(header as int, v as int, 32);
    } else if bits == 6 {
        lemma_low(header as int, v as int, 64);
    } else if bits == 7 {
        lemma_low(header as int, v as int, 128);
    }
}

/// Reading back an encoded 64-bit value gives the value and the length of the
/// encoding, whatever octets follow it.
pub proof fn lemma_integer_round_trip(value: u64, bits: u8, header: u8, rest: Seq<u8>)
    requires
        header_fits(header, bits),
    ensures
        parse(encoded(value as nat, bits, header) + rest, bits) == Some(
            (value, encoded(value as nat, bits, header).len()),
        ),
        read(encoded(value as nat, bits, header) + rest, bits) == Some(
            (value as nat, encoded(value as nat, bits, header).len()),
        ),
        encoded(value as nat, bits, header).len() >= 1,
        header <= encoded(value as nat, bits, header)[0] <= header + prefix_max(bits),
{
    reveal(encoded);
    reveal(read);
    reveal(parse);
    let e = encoded(value as nat, bits, header);
    let s = e + rest;
    lemma_header(header, bits, prefix_max(bits));
    if value < prefix_max(bits) {
        lemma_header(header, bits, value as nat);
        assert(s[0] == header + value);
        assert(low_bits(s[0], bits) == value);
    } else {
        let d = (value - prefix_max(bits)) as nat;
        assert(s[0] == header + prefix_max(bits));
        assert(low_bits(s[0], bits) == prefix_max(bits));
        assert(s.skip(1) =~= continuation(d) + rest);
        lemma_continuation_round_trip(d, rest);
        assert(d < pow128(10)) by {
            reveal_with_fuel(pow128, 11);
        }
        lemma_continuation_len(d, 10);
    }
}

/// A 64-bit integer is read as such.
pub proof fn lemma_parse_read(s: Seq<u8>, bits: u8)
    requires
        parse(s, bits) is Some,
    ensures
        read(s, bits) == Some((parse(s, bits).unwrap().0 as nat, parse(s, bits).unwrap().1)),
        1 <= parse(s, bits).unwrap().1 <= s.len(),
{
    reveal(parse);
    lemma_read_prefix(s, Seq::empty(), bits);
}

/// An integer takes at most this many octets.
pub proof fn lemma_encoded_len(value: u64, bits: u8, header: u8)
    requires
        header_fits(header, bits),
    ensures
        encoded(value as nat, bits, header).len() <= MAX_CONTINUATION + 1,
{
    lemma_integer_round_trip(value, bits, header, Seq::empty());
    reveal(parse);
}

/// Octets behind a complete integer do not change what is read.
pub proof fn lemma_read_prefix(s: Seq<u8>, rest: Seq<u8>, bits: u8)
    requires
        read(s, bits) is Some,
    ensures
        read(s + rest, bits) == read(s, bits),
        parse(s + rest, bits) == parse(s, bits),
        read(s, bits).unwrap().1 <= s.len(),
        read(s, bits).unwrap().1 >= 1,
{
    reveal(read);
    reveal(parse);
    if low_bits(s[0], bits) >= prefix_max(bits) {
        lemma_read_continuation_prefix(s.skip(1), rest);
        assert((s + rest).skip(1) =~= s.skip(1) + rest);
    }
}

proof fn lemma_read_continuation_take(s: Seq<u8>)
    requires
        read_continuation(s) is Some,
    ensures
        1 <= read_continuation(s).unwrap().1 <= s.len(),
        read_continuation(s.take(read_continuation(s).unwrap().1 as int)) == read_continuation(s),
    decreases s.len(),
{
    lemma_read_continuation_prefix(s, Seq::empty());
    let n = read_continuation(s).unwrap().1 as int;
    if s[0] >= 128 {
        lemma_read_continuation_take(s.skip(1));
        assert(s.take(n).skip(1) =~= s.skip(1).take(n - 1));
    }
}

/// A complete integer is read from its own octets alone.
pub proof fn lemma_read_take(s: Seq<u8>, bits: u8)
    requires
        read(s, bits) is Some,
    ensures
        read(s, bits).unwrap().1 <= s.len(),
        read(s, bits).unwrap().1 >= 1,
        read(s.take(read(s, bits).unwrap().1 as int), bits) == read(s, bits),
{
    reveal(read);
    lemma_read_prefix(s, Seq::empty(), bits);
    let n = read(s, bits).unwrap().1 as int;
    if low_bits(s[0], bits) >= prefix_max(bits) {
        lemma_read_continuation_take(s.skip(1));
        assert(s.take(n).skip(1) =~= s.skip(1).take(n - 1));
    }
}

proof fn lemma_read_continuation_prefix(s: Seq<u8>, rest: Seq<u8>)
    requires
        read_continuation(s) is Some,
    ensures
        read_continuation(s + rest) == read_continuation(s),
        1 <= read_continuation(s).unwrap().1 <= s.len(),
    decreases s.len(),
{
    if s[0] >= 128 {
        lemma_read_continuation_prefix(s.skip(1), rest);
        assert((s + rest).skip(1) =~= s.skip(1) + rest);
    }
}

fn prefix_max_of(bits: u8) -> (m: u8)
    requires
        1 <= bits <= 8,
    ensures
        m == prefix_max(bits),
{
    match bits {
        1 => 1,
        2 => 3,
        3 => 7,
        4 => 15,
        5 => 31,
        6 => 63,
        7 => 127,
        _ => 255,
    }
}

fn low_bits_of(octet: u8, bits: u8) -> (low: u8)
    requires
        1 <= bits <= 8,
    ensures
        low == low_bits(octet, bits),
        low <= prefix_max(bits),
{
    match bits {
        1 => octet % 2,
        2 => octet % 4,
        3 => octet % 8,
        4 => octet % 16,
        5 => octet % 32,
        6 => octet % 64,
        7 => octet % 128,
        _ => octet,
    }
}

/// Appends the encoding of `value` with a `prefix_bits`-bit prefix; `header`
/// holds the bits in front of the prefix.
pub fn encode(out: &mut Vec<u8>, value: u64, prefix_bits: u8, header: u8)
    requires
        header_fits(header, prefix_bits),
    ensures
        final(out)@ == old(out)@ + encoded(value as nat, prefix_bits, header),
{
    proof {
        reveal(encoded);
    }
    let max: u8 = prefix_max_of(prefix_bits);
    proof {
        lemma_header(header, prefix_bits, max as nat);
    }
    if value < max as u64 {
        out.push(header + value as u8);
        assert(out@ =~= old(out)@ + encoded(value as nat, prefix_bits, header));
        return;
    }
    out.push(header + max);
    let ghost total = (value - max) as nat;
    let ghost first = old(out)@.push((header + max) as u8);
    let mut v: u64 = value - max as u64;
    assert(first + continuation(total) =~= out@ + continuation(v as nat));
    while v >= 128
        invariant
            out@ + continuation(v as nat) == first + continuation(total),
        decreases v,
    {
        let ghost before = out@;
        let ghost was = v as nat;
        out.push((v % 128) as u8 + 128);
        v = v / 128;
        assert(out@ + continuation(v as nat) =~= before + continuation(was));
    }
    out.push(v as u8);
    assert(out@ =~= first + continuation(total));
    assert(out@ =~= old(out)@ + encoded(value as nat, prefix_bits, header));
}

/// Decodes the prefixed integer at `off`. On success `off` is moved past it; on
/// failure it stays.
pub fn decode(buf: &[u8], off: &mut usize, prefix_bits: u8) -> (r: Result<u64, HpackError>)
    requires
        1 <= prefix_bits <= 8,
        *old(off) <= buf@.len(),
    ensures
        match parse(buf@.skip(*old(off) as int), prefix_bits) {
            Some((v, n)) => r == Ok::<u64, HpackError>(v) && *final(off) == *old(off) + n && n >= 1,
            None => r == Err::<u64, HpackError>(HpackError::InvalidInteger) && *final(off) == *old(
                off,
            ),
        },
        *old(off) <= *final(off) <= buf@.len(),
{
    proof {
        reveal(read);
        reveal(parse);
    }
    if *off >= buf.len() {
        return Err(HpackError::InvalidInteger);
    }
    let header: u8 = buf[*off];
    let max: u8 = prefix_max_of(prefix_bits);
    let ghost s = buf@.skip(*off as int);
    assert(s[0] == header);
    assert(s.skip(1) =~= buf@.skip(*off + 1));
    let low: u8 = low_bits_of(header, prefix_bits);
    if low < max {
        *off = *off + 1;
        return Ok(low as u64);
    }
    let start: usize = *off + 1;
    let mut i: usize = start;
    let mut value: u128 = 0;
    let mut scale: u128 = 1;
    let mut n: usize = 0;
    while i < buf.len() && n < MAX_CONTINUATION
        invariant
            start <= i <= buf@.len(),
            i == start + n,
            n <= MAX_CONTINUATION,
            scale == pow128(n as nat),
            value < scale,
            max == prefix_max(prefix_bits),
            *off + 1 == start,
            *old(off) + 1 == start,
            s == buf@.skip(*old(off) as int),
            s.len() > 0,
            s.skip(1) == buf@.skip(start as int),
            low_bits(s[0], prefix_bits) == max,
            match read_continuation(buf@.skip(i as int)) {
                Some((v, k)) => read_continuation(buf@.skip(start as int)) == Some(
                    ((value + scale * v) as nat, n as nat + k),
                ),
                None => read_continuation(buf@.skip(start as int)) is None,
            },
        decreases buf@.len() - i,
    {
        proof {
            reveal(read);
            reveal(parse);
        }
        let b: u8 = buf[i];
        let ghost tail = buf@.skip(i as int);
        assert(tail[0] == b);
        assert(tail.skip(1) =~= buf@.skip(i + 1));
        assert(scale <= pow128(9)) by {
            lemma_pow128_monotone(n as nat, 9);
        }
        assert(pow128(9) == 0x8000_0000_0000_0000) by {
            reveal_with_fuel(pow128, 10);
        }
        assert((b as nat % 128) * scale <= 127 * scale && (b as nat % 128) * scale >= 0)
            by (nonlinear_arith)
            requires
                scale >= 0,
        ;
        let group: u128 = (b % 128) as u128 * scale;
        if b < 128 {
            let total: u128 = value + group + max as u128;
            assert(scale * (b as nat) == group) by (nonlinear_arith)
                requires
                    b < 128,
                    group == (b % 128) * scale,
            ;
            if total > u64::MAX as u128 {
                return Err(HpackError::InvalidInteger);
            }
            *off = i + 1;
            return Ok(total as u64);
        }
        proof {
            match read_continuation(tail.skip(1)) {
                Some((v, k)) => {
                    assert(value + scale * (b - 128 + 128 * v) == value + group + (scale * 128)
                        * v) by (nonlinear_arith)
                        requires
                            128 <= b <= 255,
                            group == (b % 128) * scale,
                    ;
                },
                None => {},
            }
            assert(pow128((n + 1) as nat) == 128 * scale);
        }
        value = value + group;
        scale = scale * 128;
        i = i + 1;
        n = n + 1;
    }
    proof {
        match read_continuation(buf@.skip(i as int)) {
            Some((v, k)) => {
                lemma_read_continuation_prefix(buf@.skip(i as int), Seq::empty());
            },
            None => {},
        }
    }
    Err(HpackError::InvalidInteger)
}

proof fn lemma_pow128_monotone(a: nat, b: nat)
    requires
        a <= b,
    ensures
        1 <= pow128(a) <= pow128(b),
    decreases b,
{
    if a < b {
        lemma_pow128_monotone(a, (b - 1) as nat);
    } else if a > 0 {
        lemma_pow128_monotone((a - 1) as nat, (b - 1) as nat);
    }
}

/// The length of the prefixed integer at the start of `buf`, or `None` when
/// `buf` does not hold all of it.
pub fn encoded_len(buf: &[u8], prefix_bits: u8) -> (r: Option<usize>)
    requires
        1 <= prefix_bits <= 8,
    ensures
        match read(buf@, prefix_bits) {
            Some((_, n)) => r == Some(n as usize) && 1 <= n <= buf@.len(),
            None => r is None,
        },
{
    proof {
        reveal(read);
    }
    if buf.len() == 0 {
        return None;
    }
    let max: u8 = prefix_max_of(prefix_bits);
    let low: u8 = low_bits_of(buf[0], prefix_bits);
    if low < max {
        return Some(1);
    }
    let mut i: usize = 1;
    while i < buf.len()
        invariant
            1 <= i <= buf@.len(),
            max == prefix_max(prefix_bits),
            low_bits(buf@[0], prefix_bits) == max,
            match read_continuation(buf@.skip(i as int)) {
                Some((_, k)) => read_continuation(buf@.skip(1)) matches Some(p) && p.1 == i - 1 + k,
                None => read_continuation(buf@.skip(1)) is None,
            },
        decreases buf@.len() - i,
    {
        proof {
            reveal(read);
        }
        let ghost tail = buf@.skip(i as int);
        assert(tail[0] == buf@[i as int]);
        assert(tail.skip(1) =~= buf@.skip(i + 1));
        if buf[i] < 128 {
            return Some(i + 1);
        }
        i = i + 1;
    }
    None
}

} // verus!
