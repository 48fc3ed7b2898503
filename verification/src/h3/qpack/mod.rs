//! QPACK (RFC 9204) field compression for HTTP/3.
//!
//! Encoder and decoder with full dynamic-table support, encoder and decoder
//! streams, and blocked-stream handling. The Huffman code and the prefixed
//! integer are shared with HPACK via [`crate::hpack`].

pub mod conduct;
pub mod decoder;
pub mod encoder;
pub mod error;
pub mod history;
pub mod laws;
pub mod layout;
pub mod operations;
pub mod static_table;
pub mod table;
pub mod wire;

pub use decoder::{Decoder, UnblockedSection};
pub use encoder::{EncodedSection, Encoder};
pub use error::QpackError;
