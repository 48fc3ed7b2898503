//! QPACK error codes (RFC 9204 Section 6).
//!
//! The QPACK error family is `0x02xx`: these codes are carried in
//! CONNECTION_CLOSE frames by the HTTP/3 layer.

use vstd::prelude::*;

verus! {

/// Errors raised while QPACK state is inconsistent or a representation is
/// malformed.
///
/// `DecompressionFailed` is produced by field section decoding, the other two
/// by processing of the peer's respective QPACK stream. All three are fatal
/// for the connection: there is no way to resynchronize.
#[derive(Debug, Clone, Copy, PartialEq, Eq, Structural)]
pub enum QpackError {
    /// `QPACK_DECOMPRESSION_FAILED` (0x0200): a field section could not be
    /// decoded, or references an entry that is evicted or out of range.
    DecompressionFailed,
    /// `QPACK_ENCODER_STREAM_ERROR` (0x0201): an encoder stream instruction
    /// was malformed or violated table constraints.
    EncoderStream,
    /// `QPACK_DECODER_STREAM_ERROR` (0x0202): a decoder stream instruction was
    /// malformed.
    DecoderStream,
}

impl QpackError {
    /// The code that [`QpackError::code`] returns.
    pub open spec fn code_spec(self) -> u16 {
        match self {
            QpackError::DecompressionFailed => 0x0200,
            QpackError::EncoderStream => 0x0201,
            QpackError::DecoderStream => 0x0202,
        }
    }

    /// The HTTP/3 CONNECTION_CLOSE error code (RFC 9204 Section 6).
    pub fn code(self) -> (r: u16)
        ensures
            r == self.code_spec(),
    {
        match self {
            QpackError::DecompressionFailed => 0x0200,
            QpackError::EncoderStream => 0x0201,
            QpackError::DecoderStream => 0x0202,
        }
    }
}

} // verus!
