//! HTTP/3 by way of the `h3` crate.

pub mod options;

pub use options::Http3Options;
