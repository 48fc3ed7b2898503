//! HTTP/3 (RFC 9114).

pub mod codecs;
pub mod control;
pub mod error;
pub mod frame;
pub mod handler;
pub mod message;
pub mod operations;
pub mod options;
pub mod qpack;
pub mod reading;
pub mod sending;
pub mod settings;
pub mod signalling;
pub mod stream;
pub mod transport;
pub mod upgrade;

pub use error::{H3Error, TransportError};
pub use options::Http3Options;
