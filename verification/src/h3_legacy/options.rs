//! Configuration options for the connection handler that drives the `h3` crate.

use std::time::Duration;
use vstd::prelude::*;

verus! {

/// Configuration options for the HTTP/3 connection handler.
///
/// Use the builder-style methods to customise behaviour, then hand the finished
/// value to the connection handler. `B` is the server builder of the `h3` crate,
/// which holds the HTTP/3 protocol settings.
///
/// > **Note:** The underlying `h3` crate is still experimental. The API may
/// > change in future releases and there may be occasional bugs. Use with care
/// > in production environments.
pub struct Http3Options<B> {
    pub h3: B,
    pub accept_timeout: Option<Duration>,
    pub handshake_timeout: Option<Duration>,
    pub send_continue_response: bool,
    pub send_date_header: bool,
}

impl<B> Http3Options<B> {
    /// The options that [`Http3Options::new`] returns.
    pub open spec fn initial(h3: B) -> Http3Options<B> {
        Http3Options {
            h3,
            accept_timeout: Some(crate::h3::options::seconds(30)),
            handshake_timeout: Some(crate::h3::options::seconds(30)),
            send_continue_response: true,
            send_date_header: true,
        }
    }

    /// Creates a new `Http3Options` from an `h3` server builder with the
    /// following defaults:
    ///
    /// | Option | Default |
    /// |---|---|
    /// | `accept_timeout` | 30 seconds |
    /// | `handshake_timeout` | 30 seconds |
    /// | `send_continue_response` | `true` |
    /// | `send_date_header` | `true` |
    ///
    /// The `h3` builder is used as-is and is not modified by this method.
    pub fn new(h3: B) -> (r: Self)
        ensures
            r == Http3Options::initial(h3),
    {
        Http3Options {
            h3,
            accept_timeout: Some(Duration::from_secs(30)),
            handshake_timeout: Some(Duration::from_secs(30)),
            send_continue_response: true,
            send_date_header: true,
        }
    }

    /// Returns a mutable reference to the underlying `h3` server builder.
    ///
    /// Use this to tune HTTP/3 protocol settings exposed by the `h3` crate.
    ///
    /// > **Note:** The `h3` crate is still experimental and its builder API may
    /// > change in future releases.
    pub fn h3_builder(&mut self) -> (r: &mut B)
        ensures
            *r == old(self).h3,
            *final(self) == (Http3Options { h3: *final(r), ..*old(self) }),
    {
        &mut self.h3
    }

    /// Sets the timeout for waiting on the next accepted HTTP/3 request
    /// resolver.
    ///
    /// If no new request arrives before this duration, the connection is
    /// gracefully shut down and the handler returns a timeout error. Pass `None`
    /// to disable this timeout. Defaults to **30 seconds**.
    pub fn accept_timeout(self, timeout: Option<Duration>) -> (r: Self)
        ensures
            r == (Http3Options { accept_timeout: timeout, ..self }),
    {
        let mut r = self;
        r.accept_timeout = timeout;
        r
    }

    /// Sets the timeout for the initial HTTP/3 connection setup (QUIC handshake
    /// and `h3` connection build).
    ///
    /// If the setup does not complete within this duration, the handler returns
    /// an I/O timeout error. Pass `None` to disable this timeout. Defaults to
    /// **30 seconds**.
    pub fn handshake_timeout(self, timeout: Option<Duration>) -> (r: Self)
        ensures
            r == (Http3Options { handshake_timeout: timeout, ..self }),
    {
        let mut r = self;
        r.handshake_timeout = timeout;
        r
    }

    /// Controls whether a `100 Continue` interim response is sent when a request
    /// contains an `Expect: 100-continue` header.
    ///
    /// Defaults to **`true`**.
    pub fn send_continue_response(self, send: bool) -> (r: Self)
        ensures
            r == (Http3Options { send_continue_response: send, ..self }),
    {
        let mut r = self;
        r.send_continue_response = send;
        r
    }

    /// Controls whether a `Date` header is automatically added to every
    /// response.
    ///
    /// The value is cached and refreshed at most once per second. Defaults to
    /// **`true`**.
    pub fn send_date_header(self, send: bool) -> (r: Self)
        ensures
            r == (Http3Options { send_date_header: send, ..self }),
    {
        let mut r = self;
        r.send_date_header = send;
        r
    }
}

/// Each option is set to what it is called with, and the others stay.
pub proof fn lemma_options_are_set<B>(
    o: Http3Options<B>,
    h3: B,
    time: Option<Duration>,
    send: bool,
    r: Http3Options<B>,
)
    ensures
        call_ensures(Http3Options::<B>::accept_timeout, (o, time), r) ==> r == (Http3Options {
            accept_timeout: time,
            ..o
        }),
        call_ensures(Http3Options::<B>::handshake_timeout, (o, time), r) ==> r == (Http3Options {
            handshake_timeout: time,
            ..o
        }),
        call_ensures(Http3Options::<B>::send_continue_response, (o, send), r) ==> r
            == (Http3Options { send_continue_response: send, ..o }),
        call_ensures(Http3Options::<B>::send_date_header, (o, send), r) ==> r == (Http3Options {
            send_date_header: send,
            ..o
        }),
        call_ensures(Http3Options::<B>::new, (h3,), r) ==> {
            &&& r.h3 == h3
            &&& r.accept_timeout == Some(crate::h3::options::seconds(30))
            &&& r.handshake_timeout == Some(crate::h3::options::seconds(30))
            &&& r.send_continue_response
            &&& r.send_date_header
        },
{
}

} // verus!
