//! Primitives shared by HPACK (RFC 7541) and QPACK (RFC 9204): the prefixed
//! integer representation and the static Huffman code.

use vstd::prelude::*;

pub mod huffman;
pub mod huffman_table;
pub mod integer;
pub mod layout;
pub mod operations;
pub mod string;

verus! {

/// Errors raised while decoding an HPACK primitive.
#[derive(Debug, Clone, Copy, PartialEq, Eq, Structural)]
pub enum HpackError {
    /// A prefixed integer is truncated or does not fit in 64 bits.
    InvalidInteger,
    /// A string literal is truncated or its length is out of range.
    InvalidString,
    /// A Huffman-encoded string holds no valid sequence of codes.
    InvalidHuffman,
}

} // verus!
