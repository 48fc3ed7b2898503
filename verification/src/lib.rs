//! HTTP/3 server protocol core: framing, QPACK field compression, the control
//! plane and the request-stream state machine, all without I/O.

pub mod h3;
pub mod h3_legacy;
pub mod hpack;
pub mod octets;
