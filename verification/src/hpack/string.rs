//! String literals (RFC 7541 Section 5.2) with an `N`-bit prefix, as QPACK
//! uses them (RFC 9204 Section 4.1.2): a Huffman flag, the length with an
//! `N - 1`-bit prefix, and the octets, Huffman-encoded where the flag is set.

use super::{huffman, integer, HpackError};
use crate::octets;
use bytes::Bytes;
use vstd::prelude::*;
use vstd::slice::*;

verus! {

/// The value of the Huffman flag in front of a `bits - 1`-bit length.
pub open spec fn huffman_flag(bits: u8) -> nat {
    integer::prefix_max((bits - 1) as u8) + 1
}

/// Whether the Huffman flag is set in `octet`.
pub open spec fn is_huffman(octet: u8, bits: u8) -> bool {
    integer::low_bits(octet, bits) >= huffman_flag(bits)
}

/// Whether the Huffman encoding of `text` is shorter than `text`.
pub open spec fn huffman_pays(text: Seq<u8>) -> bool {
    huffman::text_bits(text).len() < 8 * text.len()
}

/// The literal for `text` behind the leading bits `header`; `compress` allows
/// Huffman encoding where that is shorter.
#[verifier::opaque]
pub open spec fn literal(text: Seq<u8>, bits: u8, header: u8, compress: bool) -> Seq<u8> {
    if compress && huffman_pays(text) {
        integer::encoded(
            huffman::encoded(text).len(),
            (bits - 1) as u8,
            (header + huffman_flag(bits)) as u8,
        ) + huffman::encoded(text)
    } else {
        integer::encoded(text.len(), (bits - 1) as u8, header) + text
    }
}

/// The string and the length of the literal that `s` starts with, or `None`
/// when `s` does not start with a complete, valid one.
#[verifier::opaque]
pub open spec fn parse(s: Seq<u8>, bits: u8) -> Option<(Seq<u8>, nat)> {
    match integer::parse(s, (bits - 1) as u8) {
        Some((len, n)) => if n + len > s.len() {
            None
        } else {
            let src = s.subrange(n as int, (n + len) as int);
            if is_huffman(s[0], bits) {
                match huffman::decoded(src) {
                    Some(text) => Some((text, (n + len) as nat)),
                    None => None,
                }
            } else {
                Some((src, (n + len) as nat))
            }
        },
        None => None,
    }
}

/// Whether `header` leaves the flag and the length bits of a `bits`-bit prefix
/// free.
pub open spec fn header_fits(header: u8, bits: u8) -> bool {
    2 <= bits <= 8 && integer::header_fits(header, bits)
}

proof fn lemma_flag(header: u8, bits: u8)
    requires
        header_fits(header, bits),
    ensures
        header + huffman_flag(bits) <= 255,
        integer::header_fits(header, (bits - 1) as u8),
        integer::header_fits((header + huffman_flag(bits)) as u8, (bits - 1) as u8),
{
    if bits == 2 {
    } else if bits == 3 {
    } else if bits == 4 {
    } else if bits == 5 {
    } else if bits == 6 {
    } else if bits == 7 {
    }
}

proof fn lemma_is_huffman(header: u8, bits: u8, octet: u8)
    requires
        header_fits(header, bits),
        header <= octet <= header + integer::prefix_max(bits),
    ensures
        is_huffman(octet, bits) == (octet >= header + huffman_flag(bits)),
{
    integer::lemma_header(header, bits, (octet - header) as nat);
}

/// The leading bits leave room for the flag, with it and without.
pub(crate) proof fn lemma_flags(header: u8, bits: u8)
    requires
        header_fits(header, bits),
    ensures
        header + huffman_flag(bits) <= 255,
        integer::header_fits(header, (bits - 1) as u8),
        integer::header_fits((header + huffman_flag(bits)) as u8, (bits - 1) as u8),
{
    lemma_flag(header, bits);
}

/// The flag is read off the first octet.
pub(crate) proof fn lemma_flag_is_read(header: u8, bits: u8, octet: u8)
    requires
        header_fits(header, bits),
        header <= octet <= header + integer::prefix_max(bits),
    ensures
        is_huffman(octet, bits) == (octet >= header + huffman_flag(bits)),
{
    lemma_is_huffman(header, bits, octet);
}

proof fn lemma_prefix_sizes(bits: u8)
    requires
        2 <= bits <= 8,
    ensures
        integer::prefix_max(bits) + 1 == 2 * huffman_flag(bits),
        integer::prefix_max((bits - 1) as u8) + 1 == huffman_flag(bits),
{
}

/// Reading back a literal gives the string and the length of the literal,
/// whatever octets follow it.
pub proof fn lemma_string_round_trip(
    text: Seq<u8>,
    bits: u8,
    header: u8,
    compress: bool,
    rest: Seq<u8>,
)
    requires
        header_fits(header, bits),
        text.len() <= u64::MAX,
    ensures
        parse(literal(text, bits, header, compress) + rest, bits) == Some(
            (text, literal(text, bits, header, compress).len()),
        ),
        literal(text, bits, header, compress).len() >= 1,
        header <= literal(text, bits, header, compress)[0] <= header + integer::prefix_max(bits),
{
    reveal(literal);
    reveal(parse);
    let l = literal(text, bits, header, compress);
    let s = l + rest;
    let b = (bits - 1) as u8;
    lemma_flag(header, bits);
    lemma_prefix_sizes(bits);
    if compress && huffman_pays(text) {
        let e = huffman::encoded(text);
        lemma_encoded_len(text);
        let h = (header + huffman_flag(bits)) as u8;
        let i = integer::encoded(e.len(), b, h);
        integer::lemma_integer_round_trip(e.len() as u64, b, h, e + rest);
        lemma_is_huffman(header, bits, i[0]);
        assert(s =~= i + (e + rest));
        assert(s[0] == i[0]);
        assert(s.subrange(i.len() as int, (i.len() + e.len()) as int) =~= e);
        huffman::lemma_huffman_round_trip(text);
    } else {
        let i = integer::encoded(text.len(), b, header);
        integer::lemma_integer_round_trip(text.len() as u64, b, header, text + rest);
        lemma_is_huffman(header, bits, i[0]);
        assert(s =~= i + (text + rest));
        assert(s[0] == i[0]);
        assert(s.subrange(i.len() as int, (i.len() + text.len()) as int) =~= text);
    }
}

proof fn lemma_packed_len(b: Seq<bool>)
    ensures
        huffman::packed(b).len() == b.len() / 8,
    decreases b.len(),
{
    if b.len() >= 8 {
        lemma_packed_len(b.skip(8));
    }
}

proof fn lemma_encoded_len(text: Seq<u8>)
    ensures
        huffman::encoded(text).len() == (huffman::text_bits(text).len() + 7) / 8,
{
    let n = huffman::text_bits(text).len();
    lemma_packed_len(huffman::text_bits(text) + huffman::ones(huffman::padding(n)));
}

/// A literal is not much longer than its string.
pub proof fn lemma_literal_len(text: Seq<u8>, bits: u8, header: u8, compress: bool)
    requires
        header_fits(header, bits),
        text.len() <= u64::MAX,
    ensures
        literal(text, bits, header, compress).len() <= text.len() + integer::MAX_CONTINUATION + 1,
{
    reveal(literal);
    let b = (bits - 1) as u8;
    lemma_flag(header, bits);
    if compress && huffman_pays(text) {
        lemma_encoded_len(text);
        let h = (header + huffman_flag(bits)) as u8;
        integer::lemma_encoded_len(huffman::encoded(text).len() as u64, b, h);
    } else {
        integer::lemma_encoded_len(text.len() as u64, b, header);
    }
}

/// Octets behind a complete literal do not change what is read.
pub proof fn lemma_parse_prefix(s: Seq<u8>, rest: Seq<u8>, bits: u8)
    requires
        2 <= bits <= 8,
        parse(s, bits) is Some,
    ensures
        parse(s + rest, bits) == parse(s, bits),
        1 <= parse(s, bits).unwrap().1 <= s.len(),
{
    reveal(parse);
    reveal(integer::parse);
    let b = (bits - 1) as u8;
    integer::lemma_read_prefix(s, rest, b);
    let (len, n) = integer::parse(s, b).unwrap();
    assert((s + rest).subrange(n as int, (n + len) as int) =~= s.subrange(
        n as int,
        (n + len) as int,
    ));
}

fn huffman_flag_of(bits: u8) -> (r: u8)
    requires
        2 <= bits <= 8,
    ensures
        r == huffman_flag(bits),
{
    match bits {
        2 => 2,
        3 => 4,
        4 => 8,
        5 => 16,
        6 => 32,
        7 => 64,
        _ => 128,
    }
}

fn is_huffman_at(octet: u8, bits: u8) -> (r: bool)
    requires
        2 <= bits <= 8,
    ensures
        r == is_huffman(octet, bits),
{
    match bits {
        2 => octet % 4 >= 2,
        3 => octet % 8 >= 4,
        4 => octet % 16 >= 8,
        5 => octet % 32 >= 16,
        6 => octet % 64 >= 32,
        7 => octet % 128 >= 64,
        _ => octet >= 128,
    }
}

/// Appends the literal for `text` with a `prefix`-bit prefix; `header` holds
/// the bits in front of it.
pub fn encode(out: &mut Vec<u8>, text: &[u8], prefix: u8, header: u8, compress: bool)
    requires
        header_fits(header, prefix),
    ensures
        final(out)@ == old(out)@ + literal(text@, prefix, header, compress),
{
    proof {
        reveal(literal);
    }
    proof {
        lemma_flag(header, prefix);
        lemma_encoded_len(text@);
    }
    if compress {
        let n: u128 = huffman::encoded_len(text);
        if n < text.len() as u128 * 8 {
            let len: u64 = ((n + 7) / 8) as u64;
            integer::encode(out, len, prefix - 1, header + huffman_flag_of(prefix));
            huffman::encode(text, out);
            assert(out@ =~= old(out)@ + literal(text@, prefix, header, compress));
            return;
        }
    }
    integer::encode(out, text.len() as u64, prefix - 1, header);
    out.extend_from_slice(text);
    assert(out@ =~= old(out)@ + literal(text@, prefix, header, compress));
}

/// Reads the literal at `off`. On success `off` is moved past it; on failure it
/// stays within `buf`.
pub fn decode(buf: &[u8], off: &mut usize, prefix_bits: u8) -> (r: Result<Bytes, HpackError>)
    requires
        2 <= prefix_bits <= 8,
        *old(off) <= buf@.len(),
    ensures
        *old(off) <= *final(off) <= buf@.len(),
        match parse(buf@.skip(*old(off) as int), prefix_bits) {
            Some((text, n)) => r matches Ok(b) && octets::content(b) == text && *final(off) == *old(
                off,
            ) + n && n >= 1,
            None => r is Err,
        },
{
    proof {
        reveal(parse);
    }
    let start: usize = *off;
    let ghost s = buf@.skip(start as int);
    match integer::decode(buf, off, prefix_bits - 1) {
        Err(e) => Err(e),
        Ok(len) => {
            if len > (buf.len() - *off) as u64 {
                return Err(HpackError::InvalidString);
            }
            let end: usize = *off + len as usize;
            let src = slice_subrange(buf, *off, end);
            assert(src@ =~= s.subrange(*off - start, end - start));
            *off = end;
            if is_huffman_at(buf[start], prefix_bits) {
                match huffman::decode(src) {
                    Ok(v) => Ok(octets::from_vec(v)),
                    Err(e) => Err(e),
                }
            } else {
                Ok(Bytes::copy_from_slice(src))
            }
        },
    }
}

} // verus!
