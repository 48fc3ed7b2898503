//! Huffman-encoded string literals (RFC 7541 Section 5.2).
//!
//! The codes of a string's octets are concatenated, most significant bit
//! first, and the last octet is filled up with ones. A decoder accepts at most
//! seven bits of padding, all of them ones, and no code that runs out of the
//! table.

use super::huffman_table as table;
use super::HpackError;
use vstd::prelude::*;

verus! {

/// The low `n` bits of `v`, most significant first.
pub open spec fn bits(v: nat, n: nat) -> Seq<bool>
    decreases n,
{
    if n == 0 {
        Seq::empty()
    } else {
        bits(v / 2, (n - 1) as nat).push(v % 2 == 1)
    }
}

/// The number that the bits `b` spell, most significant first.
pub open spec fn value(b: Seq<bool>) -> nat
    decreases b.len(),
{
    if b.len() == 0 {
        0
    } else {
        2 * value(b.drop_last()) + if b.last() {
            1nat
        } else {
            0nat
        }
    }
}

/// `n` ones.
pub open spec fn ones(n: nat) -> Seq<bool> {
    Seq::new(n, |i: int| true)
}

/// The code of one symbol.
pub open spec fn symbol_bits(s: u8) -> Seq<bool> {
    bits(table::code(s) as nat, table::code_len(s) as nat)
}

/// The codes of the octets of `text`, one after the other.
pub open spec fn text_bits(text: Seq<u8>) -> Seq<bool>
    decreases text.len(),
{
    if text.len() == 0 {
        Seq::empty()
    } else {
        symbol_bits(text[0]) + text_bits(text.skip(1))
    }
}

/// The bits of `octets`, one octet after the other.
pub open spec fn octet_bits(octets: Seq<u8>) -> Seq<bool>
    decreases octets.len(),
{
    if octets.len() == 0 {
        Seq::empty()
    } else {
        bits(octets[0] as nat, 8) + octet_bits(octets.skip(1))
    }
}

/// The octets that the bits `b` fill.
pub open spec fn packed(b: Seq<bool>) -> Seq<u8>
    decreases b.len(),
{
    if b.len() < 8 {
        Seq::empty()
    } else {
        seq![value(b.take(8)) as u8] + packed(b.skip(8))
    }
}

/// The padding behind `n` bits.
pub open spec fn padding(n: nat) -> nat {
    ((8 - n % 8) % 8) as nat
}

/// The Huffman encoding of `text`.
pub open spec fn encoded(text: Seq<u8>) -> Seq<u8> {
    packed(text_bits(text) + ones(padding(text_bits(text).len())))
}

/// Whether `b` starts with the bits `p`.
pub open spec fn starts_with(b: Seq<bool>, p: Seq<bool>) -> bool {
    p.len() <= b.len() && b.take(p.len() as int) == p
}

/// The symbol whose code `b` starts with.
pub open spec fn leading(b: Seq<bool>) -> Option<u8> {
    if exists|s: u8| starts_with(b, #[trigger] symbol_bits(s)) {
        Some(choose|s: u8| starts_with(b, #[trigger] symbol_bits(s)))
    } else {
        None
    }
}

/// The string whose codes `b` holds, with at most seven ones behind them.
pub open spec fn decoded_bits(b: Seq<bool>) -> Option<Seq<u8>>
    decreases b.len(),
{
    match leading(b) {
        Some(s) => if 0 < symbol_bits(s).len() <= b.len() {
            match decoded_bits(b.skip(symbol_bits(s).len() as int)) {
                Some(t) => Some(seq![s] + t),
                None => None,
            }
        } else {
            None
        },
        None => if b.len() < 8 && b == ones(b.len()) {
            Some(Seq::empty())
        } else {
            None
        },
    }
}

/// The string that the Huffman-encoded `src` holds, or `None` when `src` is
/// not the encoding of a string.
pub open spec fn decoded(src: Seq<u8>) -> Option<Seq<u8>> {
    decoded_bits(octet_bits(src))
}

pub proof fn lemma_bits_len(v: nat, n: nat)
    ensures
        bits(v, n).len() == n,
    decreases n,
{
    if n > 0 {
        lemma_bits_len(v / 2, (n - 1) as nat);
    }
}

spec fn halve(v: nat, d: nat) -> nat
    decreases d,
{
    if d == 0 {
        v
    } else {
        halve(v / 2, (d - 1) as nat)
    }
}

proof fn lemma_halve_shift(v: u32, d: u32)
    requires
        d < 32,
    ensures
        halve(v as nat, d as nat) == v >> d,
    decreases d,
{
    if d == 0 {
        assert(v >> 0u32 == v) by (bit_vector);
    } else {
        lemma_halve_shift(v / 2, (d - 1) as u32);
        assert((v / 2) >> ((d - 1) as u32) == v >> d) by (bit_vector)
            requires
                1 <= d < 32,
        ;
    }
}

proof fn lemma_bits_index(v: nat, n: nat, j: int)
    requires
        0 <= j < n,
    ensures
        bits(v, n).len() == n,
        bits(v, n)[j] == (halve(v, (n - 1 - j) as nat) % 2 == 1),
    decreases n,
{
    lemma_bits_len(v, n);
    lemma_bits_len(v / 2, (n - 1) as nat);
    if j < n - 1 {
        lemma_bits_index(v / 2, (n - 1) as nat, j);
    }
}

proof fn lemma_bits_take(v: nat, n: nat, k: nat)
    requires
        k <= n,
    ensures
        bits(v, n).len() == n,
        bits(v, n).take(k as int) == bits(halve(v, (n - k) as nat), k),
    decreases n,
{
    lemma_bits_len(v, n);
    if k == n {
        assert(bits(v, n).take(k as int) =~= bits(v, n));
    } else {
        lemma_bits_len(v / 2, (n - 1) as nat);
        lemma_bits_take(v / 2, (n - 1) as nat, k);
        assert(bits(v, n).take(k as int) =~= bits(v / 2, (n - 1) as nat).take(k as int));
    }
}

proof fn lemma_bits_injective(v: nat, w: nat, n: nat)
    requires
        bits(v, n) == bits(w, n),
        halve(v, n) == halve(w, n),
    ensures
        v == w,
    decreases n,
{
    if n > 0 {
        let a = bits(v / 2, (n - 1) as nat);
        let b = bits(w / 2, (n - 1) as nat);
        lemma_bits_len(v / 2, (n - 1) as nat);
        lemma_bits_len(w / 2, (n - 1) as nat);
        assert(bits(v, n).drop_last() =~= a);
        assert(bits(w, n).drop_last() =~= b);
        lemma_bits_injective(v / 2, w / 2, (n - 1) as nat);
        assert(bits(v, n).last() == (v % 2 == 1));
        assert(bits(w, n).last() == (w % 2 == 1));
    }
}

proof fn lemma_value_of_bits(v: nat, n: nat)
    requires
        halve(v, n) == 0,
    ensures
        value(bits(v, n)) == v,
    decreases n,
{
    if n > 0 {
        lemma_value_of_bits(v / 2, (n - 1) as nat);
        assert(bits(v, n).drop_last() =~= bits(v / 2, (n - 1) as nat));
    }
}

proof fn lemma_bits_of_value(b: Seq<bool>)
    ensures
        bits(value(b), b.len()) == b,
        halve(value(b), b.len()) == 0,
    decreases b.len(),
{
    if b.len() > 0 {
        lemma_bits_of_value(b.drop_last());
        assert(value(b) / 2 == value(b.drop_last()));
        assert(bits(value(b), b.len()) =~= b);
    }
}

proof fn lemma_octet_halve(o: nat)
    requires
        o < 256,
    ensures
        halve(o, 8) == 0,
{
    reveal_with_fuel(halve, 9);
}

proof fn lemma_value_bound(b: Seq<bool>)
    requires
        b.len() == 8,
    ensures
        value(b) < 256,
{
    lemma_bits_of_value(b);
    reveal_with_fuel(halve, 9);
}

/// Packing the bits of whole octets gives the octets back.
pub proof fn lemma_packed_octet_bits(o: Seq<u8>)
    ensures
        packed(octet_bits(o)) == o,
        octet_bits(o).len() == 8 * o.len(),
    decreases o.len(),
{
    if o.len() > 0 {
        lemma_packed_octet_bits(o.skip(1));
        lemma_bits_len(o[0] as nat, 8);
        lemma_octet_halve(o[0] as nat);
        lemma_value_of_bits(o[0] as nat, 8);
        let b = octet_bits(o);
        assert(b.take(8) =~= bits(o[0] as nat, 8));
        assert(b.skip(8) =~= octet_bits(o.skip(1)));
        assert(packed(b) =~= o);
    } else {
        assert(packed(octet_bits(o)) =~= o);
    }
}

/// Unpacking packed bits gives the bits back.
pub proof fn lemma_octet_bits_packed(b: Seq<bool>)
    requires
        b.len() % 8 == 0,
    ensures
        octet_bits(packed(b)) == b,
    decreases b.len(),
{
    if b.len() >= 8 {
        lemma_octet_bits_packed(b.skip(8));
        lemma_value_bound(b.take(8));
        lemma_bits_of_value(b.take(8));
        let o = packed(b);
        assert(o[0] == value(b.take(8)));
        assert(o.skip(1) =~= packed(b.skip(8)));
        assert(octet_bits(o) =~= b);
    } else {
        assert(octet_bits(packed(b)) =~= b);
    }
}

proof fn lemma_octet_bits_push(o: Seq<u8>, x: u8)
    ensures
        octet_bits(o.push(x)) == octet_bits(o) + bits(x as nat, 8),
    decreases o.len(),
{
    let p = o.push(x);
    if o.len() == 0 {
        assert(p.skip(1) =~= o);
        assert(octet_bits(o) =~= Seq::empty());
        assert(octet_bits(p) =~= octet_bits(o) + bits(x as nat, 8));
    } else {
        lemma_octet_bits_push(o.skip(1), x);
        assert(p.skip(1) =~= o.skip(1).push(x));
        assert(p[0] == o[0]);
        assert(octet_bits(p) =~= octet_bits(o) + bits(x as nat, 8));
    }
}

proof fn lemma_octet_bits_index(o: Seq<u8>, i: int, k: int)
    requires
        0 <= i < o.len(),
        0 <= k < 8,
    ensures
        octet_bits(o).len() == 8 * o.len(),
        octet_bits(o)[8 * i + k] == bits(o[i] as nat, 8)[k],
    decreases o.len(),
{
    lemma_packed_octet_bits(o);
    lemma_bits_len(o[0] as nat, 8);
    if i > 0 {
        lemma_octet_bits_index(o.skip(1), i - 1, k);
        assert(octet_bits(o)[8 * i + k] == octet_bits(o.skip(1))[8 * (i - 1) + k]);
    }
}

proof fn lemma_text_bits_push(t: Seq<u8>, x: u8)
    ensures
        text_bits(t.push(x)) == text_bits(t) + symbol_bits(x),
    decreases t.len(),
{
    let p = t.push(x);
    if t.len() == 0 {
        assert(p.skip(1) =~= t);
        assert(text_bits(t) =~= Seq::empty());
        assert(text_bits(p) =~= text_bits(t) + symbol_bits(x));
    } else {
        lemma_text_bits_push(t.skip(1), x);
        assert(p.skip(1) =~= t.skip(1).push(x));
        assert(p[0] == t[0]);
        assert(text_bits(p) =~= text_bits(t) + symbol_bits(x));
    }
}

proof fn lemma_symbol_bits_len(s: u8)
    ensures
        5 <= symbol_bits(s).len() <= 30,
        symbol_bits(s).len() == table::code_len(s),
{
    table::lemma_code_level(s, table::code_len(s), table::code(s));
    lemma_bits_len(table::code(s) as nat, table::code_len(s) as nat);
}

/// At most one symbol's code starts a sequence of bits.
pub proof fn lemma_leading_unique(b: Seq<bool>, x: u8, y: u8)
    requires
        starts_with(b, symbol_bits(x)),
        starts_with(b, symbol_bits(y)),
    ensures
        x == y,
{
    lemma_symbol_bits_len(x);
    lemma_symbol_bits_len(y);
    if table::code_len(x) <= table::code_len(y) {
        lemma_leading_unique_ordered(b, x, y);
    } else {
        lemma_leading_unique_ordered(b, y, x);
    }
}

proof fn lemma_leading_unique_ordered(b: Seq<bool>, x: u8, y: u8)
    requires
        starts_with(b, symbol_bits(x)),
        starts_with(b, symbol_bits(y)),
        table::code_len(x) <= table::code_len(y),
    ensures
        x == y,
{
    lemma_symbol_bits_len(x);
    lemma_symbol_bits_len(y);
    let n = table::code_len(x);
    let m = table::code_len(y);
    let d = (m - n) as u32;
    table::lemma_code_level(x, n, table::code(x));
    table::lemma_code_level(y, m, table::code(y));
    // The first `n` bits of y's code are x's code.
    assert(symbol_bits(y).take(n as int) =~= symbol_bits(x));
    lemma_bits_take(table::code(y) as nat, m as nat, n as nat);
    lemma_halve_shift(table::code(y), d);
    let h = table::code(y) >> d;
    assert(bits(h as nat, n as nat) == bits(table::code(x) as nat, n as nat));
    table::lemma_code_range(x, n, table::code(x));
    table::lemma_code_range(y, m, table::code(y));
    lemma_halve_shift(table::code(x), n);
    lemma_halve_shift(h, n);
    let cy = table::code(y);
    assert(h >> n == 0) by (bit_vector)
        requires
            h == cy >> d,
            cy >> m == 0,
            n + d == m,
            5 <= n <= m <= 30,
    ;
    lemma_bits_injective(h as nat, table::code(x) as nat, n as nat);
    assert(h == table::code(x));
    if n < m {
        table::lemma_level_order(n, m);
        let f = table::first_code(m);
        assert(cy >> d >= f >> d) by (bit_vector)
            requires
                cy >= f,
        ;
        assert(false);
    } else {
        assert(d == 0);
        assert(cy >> 0u32 == cy) by (bit_vector);
        let r = (table::first_rank(n) + (table::code(x) - table::first_code(n))) as u8;
        table::lemma_symbol_rank(x, n, table::code(x), r);
        table::lemma_symbol_rank(y, n, table::code(x), r);
    }
}

proof fn lemma_no_code_in_ones(n: nat, s: u8)
    requires
        n < 8,
    ensures
        !starts_with(ones(n), symbol_bits(s)),
{
    lemma_symbol_bits_len(s);
    if starts_with(ones(n), symbol_bits(s)) {
        let k = table::code_len(s);
        let c = table::code(s);
        assert(symbol_bits(s) =~= ones(k as nat));
        let all = ((1u32 << k) - 1) as u32;
        lemma_bits_of_all_ones(k);
        table::lemma_code_range(s, k, c);
        lemma_halve_shift(c, k);
        lemma_halve_shift(all, k);
        assert(all >> k == 0) by (bit_vector)
            requires
                all == ((1u32 << k) - 1) as u32,
                k < 8,
        ;
        lemma_bits_injective(c as nat, all as nat, k as nat);
    }
}

proof fn lemma_bits_of_all_ones(k: u32)
    requires
        k < 8,
    ensures
        bits(((1u32 << k) - 1) as u32 as nat, k as nat) == ones(k as nat),
    decreases k,
{
    let all = ((1u32 << k) - 1) as u32;
    if k == 0 {
        assert(bits(all as nat, 0) =~= ones(0));
    } else {
        let less = ((1u32 << ((k - 1) as u32)) - 1) as u32;
        lemma_bits_of_all_ones((k - 1) as u32);
        assert(all / 2 == less && all % 2 == 1) by (bit_vector)
            requires
                all == ((1u32 << k) - 1) as u32,
                less == ((1u32 << ((k - 1) as u32)) - 1) as u32,
                1 <= k < 8,
        ;
        assert(bits(all as nat, k as nat) =~= ones(k as nat));
    }
}

proof fn lemma_decode_text_bits(t: Seq<u8>, n: nat)
    requires
        n < 8,
    ensures
        decoded_bits(text_bits(t) + ones(n)) == Some(t),
    decreases t.len(),
{
    let b = text_bits(t) + ones(n);
    if t.len() == 0 {
        assert(b =~= ones(n));
        assert forall|s: u8| !starts_with(b, #[trigger] symbol_bits(s)) by {
            lemma_no_code_in_ones(n, s);
        }
        assert(decoded_bits(b).unwrap() =~= t);
    } else {
        let x = t[0];
        lemma_symbol_bits_len(x);
        let k = symbol_bits(x).len() as int;
        assert(b.take(k) =~= symbol_bits(x));
        assert(starts_with(b, symbol_bits(x)));
        let s = leading(b).unwrap();
        lemma_leading_unique(b, x, s);
        assert(b.skip(k) =~= text_bits(t.skip(1)) + ones(n));
        lemma_decode_text_bits(t.skip(1), n);
        assert(seq![x] + t.skip(1) =~= t);
    }
}

proof fn lemma_decoded_bits_sound(b: Seq<bool>)
    requires
        decoded_bits(b) is Some,
    ensures
        text_bits(decoded_bits(b).unwrap()).len() <= b.len() < text_bits(
            decoded_bits(b).unwrap(),
        ).len() + 8,
        b == text_bits(decoded_bits(b).unwrap()) + ones(
            (b.len() - text_bits(decoded_bits(b).unwrap()).len()) as nat,
        ),
    decreases b.len(),
{
    let t = decoded_bits(b).unwrap();
    match leading(b) {
        Some(s) => {
            let k = symbol_bits(s).len() as int;
            let u = decoded_bits(b.skip(k)).unwrap();
            lemma_decoded_bits_sound(b.skip(k));
            assert(t.skip(1) =~= u);
            assert(b =~= b.take(k) + b.skip(k));
            assert(b =~= text_bits(t) + ones((b.len() - text_bits(t).len()) as nat));
        },
        None => {
            assert(b =~= text_bits(t) + ones(b.len()));
        },
    }
}

/// Decoding an encoded string gives the string back.
pub proof fn lemma_huffman_round_trip(text: Seq<u8>)
    ensures
        decoded(encoded(text)) == Some(text),
{
    let b = text_bits(text) + ones(padding(text_bits(text).len()));
    lemma_octet_bits_packed(b);
    lemma_decode_text_bits(text, padding(text_bits(text).len()));
}

/// Only the encoding of a string decodes to it.
pub proof fn lemma_huffman_unique(src: Seq<u8>, text: Seq<u8>)
    requires
        decoded(src) == Some(text),
    ensures
        src == encoded(text),
{
    let b = octet_bits(src);
    lemma_decoded_bits_sound(b);
    lemma_packed_octet_bits(src);
    let n = text_bits(text).len();
    assert((b.len() - n) as nat == padding(n));
}

/// The symbol whose code is `c` with `n` bits.
fn symbol_of(c: u32, n: u32) -> (r: Option<u8>)
    ensures
        match r {
            Some(s) => table::code(s) == c && table::code_len(s) == n,
            None => forall|s: u8| !(table::code(s) == c && #[trigger] table::code_len(s) == n),
        },
{
    let first: u32 = table::first_code_of(n);
    let count: u32 = table::code_count_of(n);
    if c >= first && c - first < count {
        let rank: u32 = table::first_rank_of(n);
        proof {
            lemma_level_size(n);
        }
        let r: u8 = (rank + (c - first)) as u8;
        let s: u8 = table::symbol_at_of(r);
        proof {
            table::lemma_rank_symbol(n, (c - first) as u32, r, s);
        }
        Some(s)
    } else {
        proof {
            assert forall|s: u8| !(table::code(s) == c && #[trigger] table::code_len(s) == n) by {
                table::lemma_code_level(s, table::code_len(s), table::code(s));
            }
        }
        None
    }
}

proof fn lemma_level_size(n: u32)
    ensures
        table::first_rank(n) + table::code_count(n) <= 256,
{
}

/// The number of bits that the codes of `text` take.
pub fn encoded_len(text: &[u8]) -> (n: u128)
    ensures
        n == text_bits(text@).len(),
{
    let mut n: u128 = 0;
    let mut i: usize = 0;
    assert(text@.take(0) =~= Seq::empty());
    while i < text.len()
        invariant
            0 <= i <= text@.len(),
            n == text_bits(text@.take(i as int)).len(),
            n <= 30 * i,
        decreases text@.len() - i,
    {
        let ghost x = text@[i as int];
        proof {
            lemma_text_bits_push(text@.take(i as int), x);
            lemma_symbol_bits_len(x);
            assert(text@.take(i + 1) =~= text@.take(i as int).push(x));
        }
        n = n + table::code_len_of(text[i]) as u128;
        i = i + 1;
    }
    assert(text@.take(i as int) =~= text@);
    n
}

/// Appends the Huffman encoding of `text`.
pub fn encode(text: &[u8], out: &mut Vec<u8>)
    ensures
        final(out)@ == old(out)@ + encoded(text@),
{
    let ghost start = old(out)@;
    // The bits of the last, unfinished octet and their number.
    let mut cur: u8 = 0;
    let mut n: u32 = 0;
    let mut i: usize = 0;
    let ghost mut done: Seq<u8> = Seq::empty();
    proof {
        assert(text@.take(0) =~= Seq::empty());
        assert(out@ =~= start + done);
        assert(octet_bits(done) + bits(0, 0) =~= text_bits(text@.take(0)));
    }
    while i < text.len()
        invariant
            0 <= i <= text@.len(),
            n < 8,
            halve(cur as nat, n as nat) == 0,
            out@ == start + done,
            octet_bits(done) + bits(cur as nat, n as nat) == text_bits(text@.take(i as int)),
        decreases text@.len() - i,
    {
        let x: u8 = text[i];
        let c: u32 = table::code_of(x);
        let len: u32 = table::code_len_of(x);
        let ghost before = text_bits(text@.take(i as int));
        let mut j: u32 = 0;
        proof {
            lemma_symbol_bits_len(x);
            assert(symbol_bits(x).take(0) =~= Seq::empty());
            assert(before + symbol_bits(x).take(0) =~= before);
        }
        while j < len
            invariant
                0 <= j <= len <= 30,
                n < 8,
                halve(cur as nat, n as nat) == 0,
                c == table::code(x),
                len == table::code_len(x),
                symbol_bits(x).len() == len,
                out@ == start + done,
                octet_bits(done) + bits(cur as nat, n as nat) == before + symbol_bits(x).take(
                    j as int,
                ),
            decreases len - j,
        {
            let shift: u32 = len - 1 - j;
            let bit: u8 = ((c >> shift) % 2) as u8;
            let ghost was = octet_bits(done) + bits(cur as nat, n as nat);
            proof {
                lemma_bits_index(c as nat, len as nat, j as int);
                lemma_halve_shift(c, shift);
                lemma_halve_bound(cur as nat, n as nat);
                assert(symbol_bits(x).take(j + 1) =~= symbol_bits(x).take(j as int).push(
                    bit == 1,
                ));
            }
            let ghost old_cur = cur as nat;
            let ghost old_n = n as nat;
            cur = cur * 2 + bit;
            n = n + 1;
            proof {
                assert(cur as nat / 2 == old_cur);
                assert(bits(cur as nat, n as nat) =~= bits(old_cur, old_n).push(bit == 1));
                assert(octet_bits(done) + bits(cur as nat, n as nat) =~= was.push(bit == 1));
                assert(was.push(bit == 1) =~= before + symbol_bits(x).take(j + 1));
            }
            if n == 8 {
                out.push(cur);
                proof {
                    lemma_octet_bits_push(done, cur);
                    done = done.push(cur);
                    assert(out@ =~= start + done);
                    assert(octet_bits(done) + bits(0, 0) =~= before + symbol_bits(x).take(j + 1));
                }
                cur = 0;
                n = 0;
            }
            j = j + 1;
        }
        proof {
            assert(symbol_bits(x).take(j as int) =~= symbol_bits(x));
            lemma_text_bits_push(text@.take(i as int), x);
            assert(text@.take(i + 1) =~= text@.take(i as int).push(x));
        }
        i = i + 1;
    }
    assert(text@.take(i as int) =~= text@);
    let ghost total = text_bits(text@);
    let ghost filled = n as nat;
    proof {
        lemma_packed_octet_bits(done);
        lemma_bits_len(cur as nat, n as nat);
        assert(total + ones(0) =~= total);
    }
    if n > 0 {
        let ghost mut k: nat = 0;
        while n < 8
            invariant
                0 < filled <= n <= 8,
                k == n - filled,
                halve(cur as nat, n as nat) == 0,
                out@ == start + done,
                octet_bits(done) + bits(cur as nat, n as nat) == total + ones(k),
            decreases 8 - n,
        {
            let ghost was = octet_bits(done) + bits(cur as nat, n as nat);
            let ghost old_cur = cur as nat;
            let ghost old_n = n as nat;
            proof {
                lemma_halve_bound(cur as nat, n as nat);
            }
            cur = cur * 2 + 1;
            n = n + 1;
            proof {
                assert(cur as nat / 2 == old_cur);
                assert(bits(cur as nat, n as nat) =~= bits(old_cur, old_n).push(true));
                assert(octet_bits(done) + bits(cur as nat, n as nat) =~= was.push(true));
                assert(was.push(true) =~= total + ones(k + 1));
                k = k + 1;
            }
        }
        out.push(cur);
        proof {
            lemma_octet_bits_push(done, cur);
            done = done.push(cur);
            assert(out@ =~= start + done);
            assert(k == padding(total.len()));
        }
    } else {
        assert(octet_bits(done) =~= total + ones(0));
    }
    proof {
        lemma_packed_octet_bits(done);
        assert(octet_bits(done) == total + ones(padding(total.len())));
    }
}

proof fn lemma_halve_bound(v: nat, n: nat)
    requires
        halve(v, n) == 0,
        n < 8,
    ensures
        v < 128,
{
    reveal_with_fuel(halve, 8);
}

/// Decodes the Huffman-encoded string `src`.
pub fn decode(src: &[u8]) -> (r: Result<Vec<u8>, HpackError>)
    ensures
        match decoded(src@) {
            Some(t) => r matches Ok(v) && v@ == t,
            None => r == Err::<Vec<u8>, HpackError>(HpackError::InvalidHuffman),
        },
{
    let mut dst: Vec<u8> = Vec::new();
    let ghost b = octet_bits(src@);
    // The bits of the current code, their number, and whether all are ones.
    let mut cur: u32 = 0;
    let mut n: u32 = 0;
    let mut filler: bool = true;
    let mut i: usize = 0;
    let ghost mut start: int = 0;
    proof {
        lemma_packed_octet_bits(src@);
        assert(b.skip(0) =~= b);
        lemma_prepend_nothing(decoded_bits(b));
        assert(bits(0, 0) =~= b.subrange(0, 0));
        assert(b.subrange(0, 0) =~= ones(0));
    }
    while i < src.len()
        invariant
            0 <= i <= src@.len(),
            b == octet_bits(src@),
            b.len() == 8 * src@.len(),
            0 <= start,
            start + n == 8 * i,
            n < 30,
            halve(cur as nat, n as nat) == 0,
            bits(cur as nat, n as nat) == b.subrange(start, start + n),
            filler == (b.subrange(start, start + n) == ones(n as nat)),
            forall|s: u8|
                table::code_len(s) <= n ==> !starts_with(b.skip(start), #[trigger] symbol_bits(s)),
            decoded_bits(b) == prepend(dst@, decoded_bits(b.skip(start))),
        decreases src@.len() - i,
    {
        let octet: u8 = src[i];
        let mut k: u32 = 0;
        while k < 8
            invariant
                0 <= k <= 8,
                0 <= i < src@.len(),
                octet == src@[i as int],
                b == octet_bits(src@),
                b.len() == 8 * src@.len(),
                0 <= start,
                start + n == 8 * i + k,
                n < 30,
                halve(cur as nat, n as nat) == 0,
                bits(cur as nat, n as nat) == b.subrange(start, start + n),
                filler == (b.subrange(start, start + n) == ones(n as nat)),
                forall|s: u8|
                    table::code_len(s) <= n ==> !starts_with(b.skip(start), #[trigger] symbol_bits(s)),
                decoded_bits(b) == prepend(dst@, decoded_bits(b.skip(start))),
            decreases 8 - k,
        {
            let shift: u32 = 7 - k;
            let bit: u32 = (octet as u32 >> shift) % 2;
            proof {
                lemma_octet_bits_index(src@, i as int, k as int);
                lemma_bits_index(octet as nat, 8, k as int);
                lemma_halve_shift(octet as u32, shift);
                lemma_halve_bound_30(cur as nat, n as nat);
            }
            let ghost old_cur = cur as nat;
            let ghost old_n = n as nat;
            cur = cur * 2 + bit;
            n = n + 1;
            filler = filler && bit == 1;
            proof {
                assert(b[8 * i + k] == (bit == 1));
                assert(cur as nat / 2 == old_cur);
                assert(bits(cur as nat, n as nat) =~= b.subrange(start, start + n));
                lemma_ones_push(b.subrange(start, start + old_n), bit == 1);
                assert(b.subrange(start, start + n) =~= b.subrange(start, start + old_n).push(
                    bit == 1,
                ));
            }
            match symbol_of(cur, n) {
                Some(s) => {
                    proof {
                        lemma_symbol_bits_len(s);
                        let rest = b.skip(start);
                        assert(rest.take(n as int) =~= b.subrange(start, start + n));
                        assert(starts_with(rest, symbol_bits(s)));
                        lemma_leading_unique(rest, s, leading(rest).unwrap());
                        assert(rest.skip(n as int) =~= b.skip(start + n));
                        lemma_prepend_push(dst@, s, decoded_bits(b.skip(start + n)));
                        start = start + n;
                        assert(bits(0, 0) =~= b.subrange(start, start));
                        assert(b.subrange(start, start) =~= ones(0));
                        assert forall|s: u8| table::code_len(s) <= 0 implies !starts_with(
                            b.skip(start),
                            #[trigger] symbol_bits(s),
                        ) by {
                            lemma_symbol_bits_len(s);
                        }
                    }
                    dst.push(s);
                    cur = 0;
                    n = 0;
                    filler = true;
                },
                None => {
                    proof {
                        assert(b.skip(start).take(n as int) =~= b.subrange(start, start + n));
                        assert forall|s: u8| table::code_len(s) <= n implies !starts_with(
                            b.skip(start),
                            #[trigger] symbol_bits(s),
                        ) by {
                            lemma_no_other_code(b.skip(start), cur, n, s);
                        }
                    }
                    if n == 30 {
                        proof {
                            assert forall|s: u8| !starts_with(
                                b.skip(start),
                                #[trigger] symbol_bits(s),
                            ) by {
                                lemma_symbol_bits_len(s);
                            }
                        }
                        return Err(HpackError::InvalidHuffman);
                    }
                },
            }
            k = k + 1;
        }
        i = i + 1;
    }
    proof {
        let rest = b.skip(start);
        assert(rest =~= b.subrange(start, start + n));
        assert forall|s: u8| !starts_with(rest, #[trigger] symbol_bits(s)) by {
            lemma_symbol_bits_len(s);
        }
        lemma_append_nothing(dst@);
    }
    if n < 8 && filler {
        Ok(dst)
    } else {
        Err(HpackError::InvalidHuffman)
    }
}

spec fn prepend(head: Seq<u8>, tail: Option<Seq<u8>>) -> Option<Seq<u8>> {
    match tail {
        Some(t) => Some(head + t),
        None => None,
    }
}

proof fn lemma_prepend_nothing(t: Option<Seq<u8>>)
    ensures
        prepend(Seq::empty(), t) == t,
{
    if t is Some {
        assert(Seq::<u8>::empty() + t.unwrap() =~= t.unwrap());
    }
}

proof fn lemma_append_nothing(head: Seq<u8>)
    ensures
        prepend(head, Some(Seq::empty())) == Some(head),
{
    assert(head + Seq::<u8>::empty() =~= head);
}

proof fn lemma_prepend_push(head: Seq<u8>, s: u8, t: Option<Seq<u8>>)
    ensures
        prepend(head, prepend(seq![s], t)) == prepend(head.push(s), t),
{
    if t is Some {
        assert(head + (seq![s] + t.unwrap()) =~= head.push(s) + t.unwrap());
    }
}

proof fn lemma_ones_push(a: Seq<bool>, x: bool)
    ensures
        (a.push(x) == ones(a.len() + 1)) == (a == ones(a.len()) && x),
{
    if a == ones(a.len()) && x {
        assert(a.push(x) =~= ones(a.len() + 1));
    }
    if a.push(x) == ones(a.len() + 1) {
        let o = ones(a.len() + 1);
        assert(a.push(x)[a.len() as int] == o[a.len() as int]);
        assert forall|i: int| 0 <= i < a.len() implies a[i] by {
            assert(a.push(x)[i] == o[i]);
        }
        assert(a =~= ones(a.len()));
    }
}

proof fn lemma_halve_bound_30(v: nat, n: nat)
    requires
        halve(v, n) == 0,
        n < 30,
    ensures
        v < 0x2000_0000,
{
    reveal_with_fuel(halve, 30);
}

/// Where the bits `(cur, n)` that `rest` starts with are no code, no code of
/// length `n` starts `rest`.
proof fn lemma_no_other_code(rest: Seq<bool>, cur: u32, n: u32, s: u8)
    requires
        n <= rest.len(),
        1 <= n <= 30,
        rest.take(n as int) == bits(cur as nat, n as nat),
        halve(cur as nat, n as nat) == 0,
        table::code_len(s) <= n,
        !(table::code(s) == cur && table::code_len(s) == n),
        table::code_len(s) < n ==> !starts_with(rest, symbol_bits(s)),
    ensures
        !starts_with(rest, symbol_bits(s)),
{
    lemma_symbol_bits_len(s);
    if table::code_len(s) == n && starts_with(rest, symbol_bits(s)) {
        table::lemma_code_range(s, n, table::code(s));
        lemma_halve_shift(table::code(s), n);
        lemma_bits_injective(table::code(s) as nat, cur as nat, n as nat);
    }
}

} // verus!
