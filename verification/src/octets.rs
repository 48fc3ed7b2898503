//! The octet buffers of the `bytes` crate.
//!
//! Payloads, field names and field values are carried as [`bytes::Bytes`], and
//! data in flight is gathered in [`bytes::BytesMut`]. Both stand for the octets
//! they hold: [`content`] and [`buffered`]. What the crate's functions do to
//! those octets is stated here, and not proved.

use bytes::{Buf, BufMut, Bytes, BytesMut};
use vstd::prelude::*;

verus! {

/// [`bytes::Bytes`], an immutable run of octets.
#[verifier::external_type_specification]
#[verifier::external_body]
pub struct ExBytes(bytes::Bytes);

/// [`bytes::BytesMut`], a growing buffer of octets.
#[verifier::external_type_specification]
#[verifier::external_body]
pub struct ExBytesMut(bytes::BytesMut);

/// The octets that a `Bytes` holds.
pub uninterp spec fn content(b: bytes::Bytes) -> Seq<u8>;

/// The octets that a `BytesMut` holds.
pub uninterp spec fn buffered(b: bytes::BytesMut) -> Seq<u8>;

/// `Bytes::copy_from_slice` holds a copy of the slice.
pub assume_specification[ bytes::Bytes::copy_from_slice ](data: &[u8]) -> (r: bytes::Bytes)
    ensures
        content(r) == data@,
;

/// `Bytes::from_static` holds the octets of the slice.
pub assume_specification[ bytes::Bytes::from_static ](bytes: &'static [u8]) -> (r: bytes::Bytes)
    ensures
        content(r) == bytes@,
;

/// `Bytes::len` counts the octets.
pub assume_specification[ bytes::Bytes::len ](b: &bytes::Bytes) -> (n: usize)
    ensures
        n == content(*b).len(),
;

/// `Bytes::clone` holds the same octets.
pub assume_specification[ <bytes::Bytes as Clone>::clone ](b: &bytes::Bytes) -> (r: bytes::Bytes)
    ensures
        content(r) == content(*b),
;

/// `Bytes::new` holds nothing.
pub assume_specification[ bytes::Bytes::new ]() -> (r: bytes::Bytes)
    ensures
        content(r) == Seq::<u8>::empty(),
;

/// `Bytes::split_to` takes the first `at` octets out. It panics where fewer are
/// held.
pub assume_specification[ bytes::Bytes::split_to ](b: &mut bytes::Bytes, at: usize) -> (r:
    bytes::Bytes)
    requires
        at <= content(*old(b)).len(),
    ensures
        content(r) == content(*old(b)).take(at as int),
        content(*final(b)) == content(*old(b)).skip(at as int),
;

/// `BytesMut::new` holds nothing.
pub assume_specification[ bytes::BytesMut::new ]() -> (r: bytes::BytesMut)
    ensures
        buffered(r) == Seq::<u8>::empty(),
;

/// `BytesMut::len` counts the octets.
pub assume_specification[ bytes::BytesMut::len ](b: &bytes::BytesMut) -> (n: usize)
    ensures
        n == buffered(*b).len(),
;

/// `BytesMut::extend_from_slice` appends the slice. It panics where the length
/// would exceed `usize`.
pub assume_specification[ bytes::BytesMut::extend_from_slice ](
    b: &mut bytes::BytesMut,
    extend: &[u8],
)
    requires
        buffered(*old(b)).len() + extend@.len() <= usize::MAX,
    ensures
        buffered(*final(b)) == buffered(*old(b)) + extend@,
;

/// `BytesMut::split_to` takes the first `at` octets out. It panics where fewer
/// are held.
pub assume_specification[ bytes::BytesMut::split_to ](b: &mut bytes::BytesMut, at: usize) -> (r:
    bytes::BytesMut)
    requires
        at <= buffered(*old(b)).len(),
    ensures
        buffered(r) == buffered(*old(b)).take(at as int),
        buffered(*final(b)) == buffered(*old(b)).skip(at as int),
;

/// `BytesMut::freeze` keeps the octets.
pub assume_specification[ bytes::BytesMut::freeze ](b: bytes::BytesMut) -> (r: bytes::Bytes)
    ensures
        content(r) == buffered(b),
;

/// `Bytes::from` on a vector holds the vector's octets.
#[verifier::external_body]
pub(crate) fn from_vec(v: Vec<u8>) -> (r: Bytes)
    ensures
        content(r) == v@,
{
    Bytes::from(v)
}

/// `Bytes::as_ref`: the octets as a slice.
#[verifier::external_body]
pub(crate) fn as_slice(b: &Bytes) -> (r: &[u8])
    ensures
        r@ == content(*b),
{
    b.as_ref()
}

/// `BytesMut::as_ref`: the octets as a slice.
#[verifier::external_body]
pub(crate) fn as_slice_mut(b: &BytesMut) -> (r: &[u8])
    ensures
        r@ == buffered(*b),
{
    b.as_ref()
}

/// `Buf::advance` on a `BytesMut` drops the first `n` octets. It panics where
/// fewer are held.
#[verifier::external_body]
pub(crate) fn advance(b: &mut BytesMut, n: usize)
    requires
        n <= buffered(*old(b)).len(),
    ensures
        buffered(*final(b)) == buffered(*old(b)).skip(n as int),
{
    b.advance(n)
}

/// `BufMut::put_u8` on a `BytesMut` appends one octet. It panics where the
/// length would exceed `usize`.
#[verifier::external_body]
pub(crate) fn put_u8(b: &mut BytesMut, x: u8)
    requires
        buffered(*old(b)).len() < usize::MAX,
    ensures
        buffered(*final(b)) == buffered(*old(b)).push(x),
{
    b.put_u8(x)
}

/// `v` in `n` octets, most significant first.
pub open spec fn big_endian(v: nat, n: nat) -> Seq<u8>
    decreases n,
{
    if n == 0 {
        Seq::empty()
    } else {
        big_endian(v / 256, (n - 1) as nat).push((v % 256) as u8)
    }
}

/// `BufMut::put_u16` on a `BytesMut` appends the two octets of `x`, most
/// significant first. It panics where the length would exceed `usize`.
#[verifier::external_body]
pub(crate) fn put_u16(b: &mut BytesMut, x: u16)
    requires
        buffered(*old(b)).len() + 2 <= usize::MAX,
    ensures
        buffered(*final(b)) == buffered(*old(b)) + big_endian(x as nat, 2),
{
    b.put_u16(x)
}

/// `BufMut::put_u32` on a `BytesMut` appends the four octets of `x`, most
/// significant first. It panics where the length would exceed `usize`.
#[verifier::external_body]
pub(crate) fn put_u32(b: &mut BytesMut, x: u32)
    requires
        buffered(*old(b)).len() + 4 <= usize::MAX,
    ensures
        buffered(*final(b)) == buffered(*old(b)) + big_endian(x as nat, 4),
{
    b.put_u32(x)
}

/// `BufMut::put_u64` on a `BytesMut` appends the eight octets of `x`, most
/// significant first. It panics where the length would exceed `usize`.
#[verifier::external_body]
pub(crate) fn put_u64(b: &mut BytesMut, x: u64)
    requires
        buffered(*old(b)).len() + 8 <= usize::MAX,
    ensures
        buffered(*final(b)) == buffered(*old(b)) + big_endian(x as nat, 8),
{
    b.put_u64(x)
}

/// A field line: its name and its value.
pub type Field = (Seq<u8>, Seq<u8>);

/// The field line that a pair of `Bytes` holds.
pub open spec fn field(f: (Bytes, Bytes)) -> Field {
    (content(f.0), content(f.1))
}

/// The field lines that a list of pairs holds.
pub open spec fn fields(list: Seq<(Bytes, Bytes)>) -> Seq<Field> {
    list.map_values(|f: (Bytes, Bytes)| field(f))
}

pub proof fn lemma_fields_push(list: Seq<(Bytes, Bytes)>, f: (Bytes, Bytes))
    ensures
        fields(list.push(f)) == fields(list).push(field(f)),
{
    assert(fields(list.push(f)) =~= fields(list).push(field(f)));
}

/// Whether two slices hold the same octets.
pub(crate) fn same(a: &[u8], b: &[u8]) -> (r: bool)
    ensures
        r == (a@ == b@),
{
    if a.len() != b.len() {
        return false;
    }
    let mut i: usize = 0;
    while i < a.len()
        invariant
            a@.len() == b@.len(),
            i <= a@.len(),
            forall|k: int| 0 <= k < i ==> a@[k] == b@[k],
        decreases a@.len() - i,
    {
        if a[i] != b[i] {
            return false;
        }
        i = i + 1;
    }
    assert(a@ =~= b@);
    true
}

/// Field lines stand for the octets of their names and their values.
pub proof fn lemma_fields_stand_for_themselves(list: Seq<(Bytes, Bytes)>)
    ensures
        fields(list).len() == list.len(),
        forall|i: int|
            0 <= i < list.len() ==> (#[trigger] fields(list)[i]).0 == content(list[i].0)
                && fields(list)[i].1 == content(list[i].1),
{
}

/// The octets of a number, most significant first.
pub proof fn lemma_big_endian(v: nat, n: nat)
    ensures
        big_endian(v, n).len() == n,
        n > 0 ==> big_endian(v, n).last() == v % 256,
        n > 0 ==> big_endian(v, n).drop_last() == big_endian(v / 256, (n - 1) as nat),
    decreases n,
{
    if n > 0 {
        lemma_big_endian(v / 256, (n - 1) as nat);
        assert(big_endian(v, n).drop_last() =~= big_endian(v / 256, (n - 1) as nat));
    }
}

} // verus!
