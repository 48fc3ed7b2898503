//! What is written is what is read: the operations on prefixed integers, strings
//! and Huffman codes.

use super::huffman;
use super::integer;
use super::string;
use super::HpackError;
use crate::octets;
use bytes::Bytes;
use vstd::prelude::*;

verus! {

/// An integer that is written behind anything is read back, and the offset moves to
/// what follows it.
pub proof fn lemma_written_integers_are_read(
    out: &mut Vec<u8>,
    value: u64,
    bits: u8,
    header: u8,
    buf: &[u8],
    off: &mut usize,
    rest: Seq<u8>,
    r: Result<u64, HpackError>,
)
    requires
        integer::header_fits(header, bits),
        call_ensures(integer::encode, (out, value, bits, header), ()),
        buf@ == final(out)@ + rest,
        *old(off) == old(out)@.len(),
        call_ensures(integer::decode, (buf, off, bits), r),
    ensures
        r == Ok::<u64, HpackError>(value),
        *final(off) == final(out)@.len(),
        final(out)@.take(old(out)@.len() as int) == old(out)@,
{
    let o = integer::encoded(value as nat, bits, header);
    assert(buf@.skip(*old(off) as int) =~= o + rest);
    integer::lemma_integer_round_trip(value, bits, header, rest);
    assert(final(out)@.take(old(out)@.len() as int) =~= old(out)@);
}

/// A string that is written behind anything is read back, compressed or not, and the
/// offset moves to what follows it.
pub proof fn lemma_written_strings_are_read(
    out: &mut Vec<u8>,
    text: &[u8],
    bits: u8,
    header: u8,
    compress: bool,
    buf: &[u8],
    off: &mut usize,
    rest: Seq<u8>,
    r: Result<Bytes, HpackError>,
)
    requires
        string::header_fits(header, bits),
        text@.len() <= u64::MAX,
        call_ensures(string::encode, (out, text, bits, header, compress), ()),
        buf@ == final(out)@ + rest,
        *old(off) == old(out)@.len(),
        call_ensures(string::decode, (buf, off, bits), r),
    ensures
        r matches Ok(b) && octets::content(b) == text@,
        *final(off) == final(out)@.len(),
        final(out)@.take(old(out)@.len() as int) == old(out)@,
{
    let o = string::literal(text@, bits, header, compress);
    assert(buf@.skip(*old(off) as int) =~= o + rest);
    string::lemma_string_round_trip(text@, bits, header, compress, rest);
    assert(final(out)@.take(old(out)@.len() as int) =~= old(out)@);
}

/// What is compressed is decompressed to the same octets, and its length is foretold
/// to the bit.
pub proof fn lemma_compressed_texts_are_read(
    text: &[u8],
    out: &mut Vec<u8>,
    bits: u128,
    src: &[u8],
    r: Result<Vec<u8>, HpackError>,
)
    requires
        call_ensures(huffman::encode, (text, out), ()),
        call_ensures(huffman::encoded_len, (text,), bits),
        src@ == final(out)@.skip(old(out)@.len() as int),
        call_ensures(huffman::decode, (src,), r),
    ensures
        r matches Ok(v) && v@ == text@,
        final(out)@.take(old(out)@.len() as int) == old(out)@,
        8 * src@.len() - 8 < bits <= 8 * src@.len(),
{
    assert(src@ =~= huffman::encoded(text@));
    huffman::lemma_huffman_round_trip(text@);
    assert(final(out)@.take(old(out)@.len() as int) =~= old(out)@);
    let b = huffman::text_bits(text@);
    let all = b + huffman::ones(huffman::padding(b.len()));
    assert(all.len() % 8 == 0);
    huffman::lemma_octet_bits_packed(all);
    huffman::lemma_packed_octet_bits(src@);
}

} // verus!
