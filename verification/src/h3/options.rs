//! Configuration options for the native HTTP/3 connection driver.

use super::settings::LocalSettings;
use std::time::Duration;
use vstd::prelude::*;

verus! {

/// The `Duration` of a number of whole seconds.
pub uninterp spec fn seconds(secs: u64) -> std::time::Duration;

/// `Duration::from_secs`: the duration is a function of the number of seconds.
pub assume_specification[ std::time::Duration::from_secs ](secs: u64) -> (r: std::time::Duration)
    ensures
        r == seconds(secs),
;

/// Configuration options for the HTTP/3 connection handler.
///
/// Use the builder-style methods to customise behaviour, then hand the finished
/// value to the connection handler.
#[derive(Debug, Clone)]
pub struct Http3Options {
    pub local_settings: LocalSettings,
    pub accept_timeout: Option<Duration>,
    pub handshake_timeout: Option<Duration>,
    pub send_continue_response: bool,
    pub send_date_header: bool,
}

impl Http3Options {
    /// The options that [`Http3Options::new`] returns.
    pub open spec fn initial() -> Http3Options {
        Http3Options {
            local_settings: LocalSettings {
                qpack_max_table_capacity: 0,
                qpack_blocked_streams: 0,
                max_field_section_size: None,
                enable_connect_protocol: false,
            },
            accept_timeout: Some(seconds(30)),
            handshake_timeout: Some(seconds(30)),
            send_continue_response: true,
            send_date_header: true,
        }
    }

    /// Creates a new `Http3Options` with the following defaults:
    ///
    /// | Option | Default |
    /// |---|---|
    /// | `accept_timeout` | 30 seconds |
    /// | `handshake_timeout` | 30 seconds |
    /// | `send_continue_response` | `true` |
    /// | `send_date_header` | `true` |
    /// | `qpack_max_table_capacity` | `0` (RFC 9204 default) |
    /// | `qpack_blocked_streams` | `0` (RFC 9204 default) |
    /// | `max_field_section_size` | unlimited (RFC 9114 default) |
    /// | `enable_connect_protocol` | `false` |
    ///
    /// The QPACK/limit settings are advertised to the peer in this endpoint's
    /// SETTINGS frame and bound its codecs: the decoder's dynamic-table capacity
    /// and blocked-stream budget come from `qpack_max_table_capacity` and
    /// `qpack_blocked_streams`; the peer's encoder is limited by them in turn.
    /// `max_field_section_size` bounds how large a field section this endpoint
    /// will accept.
    pub fn new() -> (r: Self)
        ensures
            r == Http3Options::initial(),
    {
        Http3Options {
            local_settings: LocalSettings {
                qpack_max_table_capacity: 0,
                qpack_blocked_streams: 0,
                max_field_section_size: None,
                enable_connect_protocol: false,
            },
            accept_timeout: Some(Duration::from_secs(30)),
            handshake_timeout: Some(Duration::from_secs(30)),
            send_continue_response: true,
            send_date_header: true,
        }
    }

    /// Sets the maximum dynamic-table capacity this endpoint will grant the
    /// peer's QPACK encoder via `SETTINGS_QPACK_MAX_TABLE_CAPACITY` (RFC 9204
    /// Section 5).
    ///
    /// This is also the capacity this endpoint's own QPACK decoder uses. It must
    /// not exceed 2^30 - 1. Defaults to **`0`** (no dynamic table).
    pub fn qpack_max_table_capacity(self, capacity: u64) -> (r: Self)
        ensures
            r == (Http3Options {
                local_settings: LocalSettings {
                    qpack_max_table_capacity: capacity,
                    ..self.local_settings
                },
                ..self
            }),
    {
        let mut r = self;
        r.local_settings.qpack_max_table_capacity = capacity;
        r
    }

    /// Sets how many field sections this endpoint will keep blocked while
    /// waiting for dynamic-table entries via `SETTINGS_QPACK_BLOCKED_STREAMS`
    /// (RFC 9204 Section 5).
    ///
    /// Defaults to **`0`**.
    pub fn qpack_blocked_streams(self, max: u64) -> (r: Self)
        ensures
            r == (Http3Options {
                local_settings: LocalSettings { qpack_blocked_streams: max, ..self.local_settings },
                ..self
            }),
    {
        let mut r = self;
        r.local_settings.qpack_blocked_streams = max;
        r
    }

    /// Sets the maximum field-section size this endpoint will accept via
    /// `SETTINGS_MAX_FIELD_SECTION_SIZE` (RFC 9114 Section 7.2.4.1).
    ///
    /// Pass `None` for unlimited (the RFC default).
    pub fn max_field_section_size(self, max: Option<u64>) -> (r: Self)
        ensures
            r == (Http3Options {
                local_settings: LocalSettings { max_field_section_size: max, ..self.local_settings },
                ..self
            }),
    {
        let mut r = self;
        r.local_settings.max_field_section_size = max;
        r
    }

    /// Advertises support for the Extended CONNECT method via
    /// `SETTINGS_ENABLE_CONNECT_PROTOCOL` (RFC 9114 Section 7.2.4.1).
    ///
    /// Defaults to **`false`**.
    pub fn enable_connect_protocol(self, enable: bool) -> (r: Self)
        ensures
            r == (Http3Options {
                local_settings: LocalSettings {
                    enable_connect_protocol: enable,
                    ..self.local_settings
                },
                ..self
            }),
    {
        let mut r = self;
        r.local_settings.enable_connect_protocol = enable;
        r
    }

    /// Sets the timeout for waiting on the next accepted HTTP/3 request
    /// resolver.
    ///
    /// If no new request arrives before this duration, the connection is
    /// gracefully shut down and the handler returns a timeout error. Pass `None`
    /// to disable this timeout. Defaults to **30 seconds**.
    pub fn accept_timeout(self, timeout: Option<Duration>) -> (r: Self)
        ensures
            r == (Http3Options { accept_timeout: timeout, ..self }),
    {
        let mut r = self;
        r.accept_timeout = timeout;
        r
    }

    /// Sets the timeout for the initial HTTP/3 connection setup (QUIC handshake
    /// and stream setup).
    ///
    /// If the setup does not complete within this duration, the handler returns
    /// an I/O timeout error. Pass `None` to disable this timeout. Defaults to
    /// **30 seconds**.
    pub fn handshake_timeout(self, timeout: Option<Duration>) -> (r: Self)
        ensures
            r == (Http3Options { handshake_timeout: timeout, ..self }),
    {
        let mut r = self;
        r.handshake_timeout = timeout;
        r
    }

    /// Controls whether a `100 Continue` interim response is sent when a request
    /// contains an `Expect: 100-continue` header.
    ///
    /// Defaults to **`true`**.
    pub fn send_continue_response(self, send: bool) -> (r: Self)
        ensures
            r == (Http3Options { send_continue_response: send, ..self }),
    {
        let mut r = self;
        r.send_continue_response = send;
        r
    }

    /// Controls whether a `Date` header is automatically added to every
    /// response.
    ///
    /// The value is cached and refreshed at most once per second. Defaults to
    /// **`true`**.
    pub fn send_date_header(self, send: bool) -> (r: Self)
        ensures
            r == (Http3Options { send_date_header: send, ..self }),
    {
        let mut r = self;
        r.send_date_header = send;
        r
    }
}

impl Default for Http3Options {
    fn default() -> (r: Self)
        ensures
            r == Http3Options::initial(),
    {
        Http3Options::new()
    }
}

} // verus!
