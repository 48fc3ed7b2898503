//! What the HPACK primitives look like on the wire.
//!
//! Prefixed integers are weighed octet by octet, strings are taken apart into
//! their flag, their length and their octets, and the Huffman code is laid out by
//! its lengths: it is canonical, so that these and the order of the symbols fix
//! every code.

use super::huffman;
use super::huffman_table as table;
use super::integer;
use super::string;
use vstd::prelude::*;

verus! {

/// The number that groups of seven bits spell, the least significant first.
pub open spec fn weight(s: Seq<u8>) -> nat
    decreases s.len(),
{
    if s.len() == 0 {
        0
    } else {
        s[0] as nat % 128 + 128 * weight(s.skip(1))
    }
}

/// Whether `s` is a run of groups: each but the last says that more follow.
pub open spec fn is_run(s: Seq<u8>) -> bool {
    &&& s.len() > 0
    &&& s.last() < 128
    &&& forall|i: int| 0 <= i < s.len() - 1 ==> #[trigger] s[i] >= 128
}

/// The largest number that `bits` bits hold, by doubling.
pub proof fn lemma_prefix_doubles(bits: u8)
    requires
        1 <= bits <= 8,
    ensures
        bits == 1 ==> integer::prefix_max(bits) == 1,
        bits > 1 ==> integer::prefix_max(bits) == 2 * integer::prefix_max((bits - 1) as u8) + 1,
        forall|octet: u8| #[trigger]
            integer::low_bits(octet, bits) == octet as nat % (integer::prefix_max(bits) + 1),
{
    assert forall|octet: u8| #[trigger]
        integer::low_bits(octet, bits) == octet as nat % (integer::prefix_max(bits) + 1) by {
        let n = octet as nat;
        if bits == 1 {
            assert(integer::low_bits(octet, 1) == n % 2);
        } else if bits == 2 {
            assert(integer::low_bits(octet, 2) == n % 4);
        } else if bits == 3 {
            assert(integer::low_bits(octet, 3) == n % 8);
        } else if bits == 4 {
            assert(integer::low_bits(octet, 4) == n % 16);
        } else if bits == 5 {
            assert(integer::low_bits(octet, 5) == n % 32);
        } else if bits == 6 {
            assert(integer::low_bits(octet, 6) == n % 64);
        } else if bits == 7 {
            assert(integer::low_bits(octet, 7) == n % 128);
        } else {
            assert(n % 256 == n);
        }
    }
}

proof fn lemma_continuation_weight(v: nat)
    ensures
        is_run(integer::continuation(v)),
        weight(integer::continuation(v)) == v,
        integer::continuation(v).last() == 0 ==> integer::continuation(v).len() == 1,
    decreases v,
{
    let c = integer::continuation(v);
    if v < 128 {
        assert(c.skip(1) =~= Seq::empty());
        assert(weight(c.skip(1)) == 0);
    } else {
        let rest = integer::continuation(v / 128);
        lemma_continuation_weight(v / 128);
        assert(c.skip(1) =~= rest);
        assert(c.last() == rest.last());
        assert forall|i: int| 0 <= i < c.len() - 1 implies #[trigger] c[i] >= 128 by {
            if i > 0 {
                assert(c[i] == rest[i - 1]);
            }
        }
        if rest.len() == 1 && rest.last() == 0 {
            assert(rest.skip(1) =~= Seq::empty());
            assert(weight(rest.skip(1)) == 0);
            assert(weight(rest) == 0);
        }
    }
}

/// The octets of a prefixed integer. A small one is in the first octet, behind the
/// leading bits; any other fills its bits of that octet with ones and goes on in
/// the fewest groups of seven bits that hold the rest.
pub proof fn lemma_integer_layout(value: nat, bits: u8, header: u8)
    requires
        integer::header_fits(header, bits),
    ensures
        ({
            let o = integer::encoded(value, bits, header);
            let most = integer::prefix_max(bits);
            &&& value < most ==> o == seq![(header + value) as u8] && header + value <= 255
            &&& value >= most ==> {
                &&& o.len() >= 2
                &&& o[0] == header + most
                &&& is_run(o.skip(1))
                &&& most + weight(o.skip(1)) == value
                &&& o.last() == 0 ==> o.len() == 2
            }
        }),
{
    reveal(integer::encoded);
    integer::lemma_header(header, bits, integer::prefix_max(bits));
    if value < integer::prefix_max(bits) {
        integer::lemma_header(header, bits, value);
    } else {
        let c = integer::continuation((value - integer::prefix_max(bits)) as nat);
        lemma_continuation_weight((value - integer::prefix_max(bits)) as nat);
        assert(integer::encoded(value, bits, header).skip(1) =~= c);
    }
}

proof fn lemma_read_continuation_weight(s: Seq<u8>)
    ensures
        integer::read_continuation(s) matches Some((v, n)) ==> 1 <= n <= s.len() && is_run(
            s.take(n as int),
        ) && weight(s.take(n as int)) == v,
        integer::read_continuation(s) is None <==> forall|i: int|
            0 <= i < s.len() ==> #[trigger] s[i] >= 128,
    decreases s.len(),
{
    if s.len() > 0 {
        let rest = s.skip(1);
        if s[0] < 128 {
            assert(s.take(1).skip(1) =~= Seq::empty());
            assert(weight(s.take(1).skip(1)) == 0);
        } else {
            lemma_read_continuation_weight(rest);
            if let Some((v, n)) = integer::read_continuation(rest) {
                let t = s.take((n + 1) as int);
                assert(t.skip(1) =~= rest.take(n as int));
                assert(t.last() == rest.take(n as int).last());
                assert forall|i: int| 0 <= i < t.len() - 1 implies #[trigger] t[i] >= 128 by {
                    if i > 0 {
                        assert(t[i] == rest.take(n as int)[i - 1]);
                    }
                }
                assert(rest.take(n as int).last() == s[n as int]);
            } else {
                assert forall|i: int| 0 <= i < s.len() implies #[trigger] s[i] >= 128 by {
                    if i > 0 {
                        assert(s[i] == rest[i - 1]);
                    }
                }
            }
            if forall|i: int| 0 <= i < s.len() ==> #[trigger] s[i] >= 128 {
                assert forall|i: int| 0 <= i < rest.len() implies #[trigger] rest[i] >= 128 by {
                    assert(rest[i] == s[i + 1]);
                }
            }
        }
    }
}

/// What is read as a prefixed integer: the bits of the first octet, unless they are
/// all ones; then these and the groups behind it up to the first that ends them.
/// There is none where nothing ends them. What does not fit 64 bits, or takes more
/// than ten groups, is refused.
pub proof fn lemma_integers_are_read(s: Seq<u8>, bits: u8)
    requires
        1 <= bits <= 8,
    ensures
        ({
            let most = integer::prefix_max(bits);
            let low = s[0] as nat % (most + 1);
            &&& s.len() == 0 ==> integer::read(s, bits) is None
            &&& s.len() > 0 && low < most ==> integer::read(s, bits) == Some((low, 1nat))
            &&& s.len() > 0 && low == most ==> {
                &&& integer::read(s, bits) matches Some((v, n)) ==> 2 <= n <= s.len() && is_run(
                    s.subrange(1, n as int),
                ) && v == most + weight(s.subrange(1, n as int))
                &&& integer::read(s, bits) is None <==> forall|i: int|
                    1 <= i < s.len() ==> #[trigger] s[i] >= 128
            }
            &&& match integer::read(s, bits) {
                Some((v, n)) => integer::parse(s, bits) == if v <= 0xffff_ffff_ffff_ffff && n <= 11 {
                    Some((v as u64, n))
                } else {
                    None
                },
                None => integer::parse(s, bits) is None,
            }
        }),
{
    reveal(integer::read);
    reveal(integer::parse);
    lemma_prefix_doubles(bits);
    if s.len() > 0 {
        assert(integer::low_bits(s[0], bits) == s[0] as nat % (integer::prefix_max(bits) + 1));
        let rest = s.skip(1);
        lemma_read_continuation_weight(rest);
        if let Some((v, n)) = integer::read_continuation(rest) {
            assert(s.subrange(1, (n + 1) as int) =~= rest.take(n as int));
        }
        if forall|i: int| 0 <= i < rest.len() ==> #[trigger] rest[i] >= 128 {
            assert forall|i: int| 1 <= i < s.len() implies #[trigger] s[i] >= 128 by {
                assert(s[i] == rest[i - 1]);
            }
        }
        if forall|i: int| 1 <= i < s.len() ==> #[trigger] s[i] >= 128 {
            assert forall|i: int| 0 <= i < rest.len() implies #[trigger] rest[i] >= 128 by {
                assert(rest[i] == s[i + 1]);
            }
        }
    }
}

/// A string literal on the wire: a flag, a length and that many octets, which are
/// the string itself, or its Huffman encoding where that is allowed and takes fewer
/// bits.
pub proof fn lemma_string_layout(text: Seq<u8>, bits: u8, header: u8, compress: bool)
    requires
        string::header_fits(header, bits),
    ensures
        ({
            let o = string::literal(text, bits, header, compress);
            let flag = integer::prefix_max((bits - 1) as u8) + 1;
            let packed = huffman::encoded(text);
            if compress && huffman::text_bits(text).len() < 8 * text.len() {
                o == integer::encoded(packed.len(), (bits - 1) as u8, (header + flag) as u8)
                    + packed
            } else {
                o == integer::encoded(text.len(), (bits - 1) as u8, header) + text
            }
        }),
{
    reveal(string::literal);
}

/// What is read as a string literal: the octets that its length counts, as they are
/// or decoded, by its flag; and none where there are fewer, or where they decode to
/// nothing.
pub proof fn lemma_strings_are_read(
    src: Seq<u8>,
    bits: u8,
    header: u8,
    coded: bool,
    rest: Seq<u8>,
)
    requires
        string::header_fits(header, bits),
        src.len() <= u64::MAX,
    ensures
        ({
            let flag = if coded {
                integer::prefix_max((bits - 1) as u8) + 1
            } else {
                0
            };
            let front = integer::encoded(src.len(), (bits - 1) as u8, (header + flag) as u8);
            let text = if coded {
                huffman::decoded(src)
            } else {
                Some(src)
            };
            &&& string::parse(front + src + rest, bits) == match text {
                Some(t) => Some((t, front.len() + src.len())),
                None => None,
            }
            &&& forall|k: int|
                0 <= k < src.len() ==> string::parse(front + #[trigger] src.take(k), bits) is None
        }),
{
    reveal(string::parse);
    let b = (bits - 1) as u8;
    let flag = if coded {
        integer::prefix_max(b) + 1
    } else {
        0
    };
    string::lemma_flags(header, bits);
    let h = (header + flag) as u8;
    let front = integer::encoded(src.len(), b, h);
    let s = front + src + rest;
    integer::lemma_integer_round_trip(src.len() as u64, b, h, src + rest);
    assert(s =~= front + (src + rest));
    assert(s[0] == front[0]);
    assert(s.subrange(front.len() as int, (front.len() + src.len()) as int) =~= src);
    string::lemma_flag_is_read(header, bits, front[0]);
    assert forall|k: int| 0 <= k < src.len() implies string::parse(
        front + #[trigger] src.take(k),
        bits,
    ) is None by {
        integer::lemma_integer_round_trip(src.len() as u64, b, h, src.take(k));
    }
}

/// The bits of a Huffman-encoded string are the codes of its octets, one behind
/// the other, and ones up to the end of the last octet, fewer than eight of them.
pub proof fn lemma_huffman_layout(text: Seq<u8>)
    ensures
        ({
            let all = huffman::octet_bits(huffman::encoded(text));
            let codes = huffman::text_bits(text);
            &&& all.len() >= codes.len()
            &&& all.len() - codes.len() < 8
            &&& all.take(codes.len() as int) == codes
            &&& forall|i: int| codes.len() <= i < all.len() ==> #[trigger] all[i]
        }),
{
    let codes = huffman::text_bits(text);
    let b = codes + huffman::ones(huffman::padding(codes.len()));
    huffman::lemma_octet_bits_packed(b);
    assert(b.take(codes.len() as int) =~= codes);
}

/// The codes of a string are those of its parts.
pub proof fn lemma_codes_join(a: Seq<u8>, b: Seq<u8>, s: u8)
    ensures
        huffman::text_bits(a + b) == huffman::text_bits(a) + huffman::text_bits(b),
        huffman::text_bits(seq![s]) == huffman::symbol_bits(s),
        huffman::symbol_bits(s).len() == table::code_len(s),
    decreases a.len(),
{
    huffman::lemma_bits_len(table::code(s) as nat, table::code_len(s) as nat);
    assert(seq![s].skip(1) =~= Seq::empty());
    assert(huffman::text_bits(Seq::empty()) =~= Seq::empty());
    assert(huffman::text_bits(seq![s]) =~= huffman::symbol_bits(s));
    if a.len() == 0 {
        assert(a + b =~= b);
        assert(huffman::text_bits(a) + huffman::text_bits(b) =~= huffman::text_bits(b));
    } else {
        lemma_codes_join(a.skip(1), b, s);
        assert((a + b).skip(1) =~= a.skip(1) + b);
        assert((a + b)[0] == a[0]);
        assert(huffman::text_bits(a + b) =~= huffman::text_bits(a) + huffman::text_bits(b));
    }
}

/// The bits of a number spell it.
pub proof fn lemma_bits_spell(v: nat, n: nat, limit: nat)
    requires
        limit == doubled(n),
        v < limit,
    ensures
        huffman::bits(v, n).len() == n,
        huffman::value(huffman::bits(v, n)) == v,
    decreases n,
{
    huffman::lemma_bits_len(v, n);
    if n > 0 {
        lemma_bits_spell(v / 2, (n - 1) as nat, doubled((n - 1) as nat));
        let b = huffman::bits(v, n);
        assert(b.drop_last() =~= huffman::bits(v / 2, (n - 1) as nat));
    }
}

/// One, doubled `n` times.
pub open spec fn doubled(n: nat) -> nat
    decreases n,
{
    if n == 0 {
        1
    } else {
        2 * doubled((n - 1) as nat)
    }
}

} // verus!
