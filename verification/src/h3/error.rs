//! HTTP/3 error types and the QUIC transport error abstraction.
//!
//! Two families of errors exist in the HTTP/3 stack:
//!
//! - [`TransportError`]: failures surfaced by the QUIC transport. The HTTP/3
//!   layer translates these into connection closes and stream resets with
//!   typed HTTP/3 codes, and into `io::Error` at its boundary.
//! - [`H3Error`]: the typed application errors of RFC 9114 Section 8.1, each
//!   with its wire code. QPACK errors ([`crate::h3::qpack::QpackError`]) form
//!   the RFC 9204 Section 6 family (codes `0x200`-`0x202`).
//!
//! Error codes of the format `0x1f * N + 0x21` are reserved; per RFC 9114
//! Section 8.1 they are treated as equivalent to `H3_NO_ERROR`.

use crate::h3::qpack::QpackError;
use vstd::prelude::*;
use vstd::std_specs::convert::FromSpecImpl;
use vstd::string::*;

verus! {

/// [`std::io::Error`].
#[verifier::external_type_specification]
#[verifier::external_body]
pub struct ExIoError(std::io::Error);

/// The kinds of `io::Error` that HTTP/3 errors surface as.
#[derive(Debug, Clone, Copy, PartialEq, Eq, Structural)]
pub enum IoKind {
    ConnectionAborted,
    ConnectionReset,
    TimedOut,
    Other,
}

/// The `io::Error` that `io::Error::new` makes of a kind and a message.
pub uninterp spec fn io_error_of(kind: IoKind, message: Seq<char>) -> std::io::Error;

/// A hexadecimal digit, in lower case.
pub open spec fn hex_digit(n: nat) -> char {
    seq!['0', '1', '2', '3', '4', '5', '6', '7', '8', '9', 'a', 'b', 'c', 'd', 'e', 'f'][n as int]
}

/// A number in hexadecimal digits, with zeros in front where it has fewer than
/// `width`.
pub open spec fn hex_digits(n: nat, width: nat) -> Seq<char>
    decreases n, width,
{
    if n < 16 && width <= 1 {
        seq![hex_digit(n)]
    } else {
        hex_digits(
            n / 16,
            if width == 0 {
                0
            } else {
                (width - 1) as nat
            },
        ).push(hex_digit(n % 16))
    }
}

/// A number in hexadecimal digits behind `0x`.
pub open spec fn hex_text(code: u64) -> Seq<char> {
    seq!['0', 'x'] + hex_digits(code as nat, 1)
}

/// A number in at least four hexadecimal digits behind `0x`.
pub open spec fn padded_hex_text(code: u64) -> Seq<char> {
    seq!['0', 'x'] + hex_digits(code as nat, 4)
}

/// `io::Error::new` with the kind's counterpart in `io::ErrorKind`: the error is
/// a function of the kind and the message.
#[verifier::external_body]
fn io_error(kind: IoKind, message: String) -> (r: std::io::Error)
    ensures
        r == io_error_of(kind, message@),
{
    let kind = match kind {
        IoKind::ConnectionAborted => std::io::ErrorKind::ConnectionAborted,
        IoKind::ConnectionReset => std::io::ErrorKind::ConnectionReset,
        IoKind::TimedOut => std::io::ErrorKind::TimedOut,
        IoKind::Other => std::io::ErrorKind::Other,
    };
    std::io::Error::new(kind, message)
}

/// One hexadecimal digit.
fn digit(n: u64) -> (r: &'static str)
    requires
        n < 16,
    ensures
        r@ == seq![hex_digit(n as nat)],
{
    proof {
        reveal_strlit("0");
        reveal_strlit("1");
        reveal_strlit("2");
        reveal_strlit("3");
        reveal_strlit("4");
        reveal_strlit("5");
        reveal_strlit("6");
        reveal_strlit("7");
        reveal_strlit("8");
        reveal_strlit("9");
        reveal_strlit("a");
        reveal_strlit("b");
        reveal_strlit("c");
        reveal_strlit("d");
        reveal_strlit("e");
        reveal_strlit("f");
    }
    let r: &'static str = match n {
        0 => "0",
        1 => "1",
        2 => "2",
        3 => "3",
        4 => "4",
        5 => "5",
        6 => "6",
        7 => "7",
        8 => "8",
        9 => "9",
        10 => "a",
        11 => "b",
        12 => "c",
        13 => "d",
        14 => "e",
        _ => "f",
    };
    assert(r@ =~= seq![hex_digit(n as nat)]);
    r
}

/// A number in hexadecimal digits.
fn digits(n: u64, width: u64) -> (r: String)
    ensures
        r@ == hex_digits(n as nat, width as nat),
    decreases n, width,
{
    if n < 16 && width <= 1 {
        digit(n).to_string()
    } else {
        let narrower: u64 = if width == 0 {
            0
        } else {
            width - 1
        };
        let r = digits(n / 16, narrower).concat(digit(n % 16));
        assert(r@ =~= hex_digits(n as nat, width as nat));
        r
    }
}

/// Writes a number in hexadecimal digits behind `0x`.
fn hex(code: u64) -> (r: String)
    ensures
        r@ == hex_text(code),
{
    proof {
        reveal_strlit("0x");
    }
    let r = "0x".to_string().concat(digits(code, 1).as_str());
    assert(r@ =~= hex_text(code));
    r
}

/// Writes a number in at least four hexadecimal digits behind `0x`.
fn padded_hex(code: u64) -> (r: String)
    ensures
        r@ == padded_hex_text(code),
{
    proof {
        reveal_strlit("0x");
    }
    let r = "0x".to_string().concat(digits(code, 4).as_str());
    assert(r@ =~= padded_hex_text(code));
    r
}

/// Errors surfaced by the QUIC transport abstraction.
///
/// Adapters translate their stack's error types into these variants; the
/// HTTP/3 layer never inspects stack-specific errors.
#[derive(Debug, Clone, Copy, PartialEq, Eq, Structural)]
pub enum TransportError {
    /// The connection was closed by the peer with an application error `code`
    /// (an HTTP/3 error code, or 0 for `H3_NO_ERROR`).
    Closed { code: u64 },
    /// The connection was closed by transport-level events (for example a
    /// transport error, idle timeout, or a local close) without an application
    /// error code.
    Transport,
    /// The connection timed out.
    Timeout,
    /// The peer reset the stream (`RESET_STREAM`) with the given error `code`;
    /// the read side of the stream is terminated.
    Reset { code: u64 },
    /// The peer sent `STOP_SENDING` with the given error `code`; the write side
    /// of the stream is terminated.
    Stopped { code: u64 },
    /// Any other transport-level failure.
    Other,
}

impl TransportError {
    /// The kind that [`TransportError::io_kind`] returns.
    pub open spec fn io_kind_spec(self) -> IoKind {
        match self {
            TransportError::Closed { .. } => IoKind::ConnectionAborted,
            TransportError::Reset { .. } | TransportError::Stopped { .. } => IoKind::ConnectionReset,
            TransportError::Timeout => IoKind::TimedOut,
            TransportError::Transport | TransportError::Other => IoKind::Other,
        }
    }

    /// The text that [`TransportError::message`] returns.
    pub open spec fn message_spec(self) -> Seq<char> {
        match self {
            TransportError::Closed { code } => "connection closed with code "@ + hex_text(code),
            TransportError::Transport => "transport closed the connection"@,
            TransportError::Timeout => "transport timed out"@,
            TransportError::Reset { code } => "stream reset with code "@ + hex_text(code),
            TransportError::Stopped { code } => "stream stopped with code "@ + hex_text(code),
            TransportError::Other => "transport error"@,
        }
    }

    /// The kind of `io::Error` that this error surfaces as.
    pub fn io_kind(self) -> (r: IoKind)
        ensures
            r == self.io_kind_spec(),
    {
        match self {
            TransportError::Closed { .. } => IoKind::ConnectionAborted,
            TransportError::Reset { .. } | TransportError::Stopped { .. } => IoKind::ConnectionReset,
            TransportError::Timeout => IoKind::TimedOut,
            TransportError::Transport | TransportError::Other => IoKind::Other,
        }
    }

    /// The error in words.
    pub fn message(self) -> (r: String)
        ensures
            r@ == self.message_spec(),
    {
        match self {
            TransportError::Closed { code } => "connection closed with code ".to_string().concat(
                hex(code).as_str(),
            ),
            TransportError::Transport => "transport closed the connection".to_string(),
            TransportError::Timeout => "transport timed out".to_string(),
            TransportError::Reset { code } => "stream reset with code ".to_string().concat(
                hex(code).as_str(),
            ),
            TransportError::Stopped { code } => "stream stopped with code ".to_string().concat(
                hex(code).as_str(),
            ),
            TransportError::Other => "transport error".to_string(),
        }
    }
}

impl From<TransportError> for std::io::Error {
    fn from(err: TransportError) -> (r: std::io::Error) {
        io_error(err.io_kind(), err.message())
    }
}

impl FromSpecImpl<TransportError> for std::io::Error {
    open spec fn obeys_from_spec() -> bool {
        true
    }

    open spec fn from_spec(err: TransportError) -> std::io::Error {
        io_error_of(err.io_kind_spec(), err.message_spec())
    }
}

/// Typed HTTP/3 application errors (RFC 9114 Section 8.1).
///
/// Each variant carries the error code it is sent as in `RESET_STREAM`,
/// `STOP_SENDING`, and `CONNECTION_CLOSE` frames.
#[derive(Debug, Clone, Copy, PartialEq, Eq, Structural)]
pub enum H3Error {
    /// `H3_NO_ERROR` (0x0100): no error; used to close cleanly.
    NoError,
    /// `H3_GENERAL_PROTOCOL_ERROR` (0x0101): a protocol violation that no more
    /// specific code covers.
    GeneralProtocol,
    /// `H3_INTERNAL_ERROR` (0x0102): an internal error in the HTTP stack.
    Internal,
    /// `H3_STREAM_CREATION_ERROR` (0x0103): the peer created a stream this
    /// endpoint will not accept.
    StreamCreation,
    /// `H3_CLOSED_CRITICAL_STREAM` (0x0104): a stream required by the
    /// connection (control, QPACK encoder or decoder) was closed or reset.
    ClosedCriticalStream,
    /// `H3_FRAME_UNEXPECTED` (0x0105): a frame that is not permitted in the
    /// current state or on the current stream.
    FrameUnexpected,
    /// `H3_FRAME_ERROR` (0x0106): a frame that violates layout requirements or
    /// has an invalid size.
    FrameError,
    /// `H3_EXCESSIVE_LOAD` (0x0107): the peer is generating excessive load.
    ExcessiveLoad,
    /// `H3_ID_ERROR` (0x0108): a stream ID or push ID used incorrectly.
    Id,
    /// `H3_SETTINGS_ERROR` (0x0109): an error in the payload of a SETTINGS
    /// frame.
    Settings,
    /// `H3_MISSING_SETTINGS` (0x010a): no SETTINGS frame at the start of the
    /// control stream.
    MissingSettings,
    /// `H3_REQUEST_REJECTED` (0x010b): a server rejected a request without
    /// application processing.
    RequestRejected,
    /// `H3_REQUEST_CANCELLED` (0x010c): the request or its response was
    /// cancelled.
    RequestCancelled,
    /// `H3_REQUEST_INCOMPLETE` (0x010d): a stream terminated without a fully
    /// formed request.
    RequestIncomplete,
    /// `H3_MESSAGE_ERROR` (0x010e): an HTTP message was malformed.
    Message,
    /// `H3_CONNECT_ERROR` (0x010f): the TCP connection behind a CONNECT request
    /// was reset or abnormally closed.
    Connect,
    /// `H3_VERSION_FALLBACK` (0x0110): the requested operation cannot be served
    /// over HTTP/3; the peer should retry over HTTP/1.1.
    VersionFallback,
}

impl H3Error {
    /// The code that [`H3Error::code`] returns.
    pub open spec fn code_spec(self) -> u64 {
        match self {
            H3Error::NoError => 0x0100,
            H3Error::GeneralProtocol => 0x0101,
            H3Error::Internal => 0x0102,
            H3Error::StreamCreation => 0x0103,
            H3Error::ClosedCriticalStream => 0x0104,
            H3Error::FrameUnexpected => 0x0105,
            H3Error::FrameError => 0x0106,
            H3Error::ExcessiveLoad => 0x0107,
            H3Error::Id => 0x0108,
            H3Error::Settings => 0x0109,
            H3Error::MissingSettings => 0x010a,
            H3Error::RequestRejected => 0x010b,
            H3Error::RequestCancelled => 0x010c,
            H3Error::RequestIncomplete => 0x010d,
            H3Error::Message => 0x010e,
            H3Error::Connect => 0x010f,
            H3Error::VersionFallback => 0x0110,
        }
    }

    /// The variant's name.
    pub open spec fn name_spec(self) -> Seq<char> {
        match self {
            H3Error::NoError => "NoError"@,
            H3Error::GeneralProtocol => "GeneralProtocol"@,
            H3Error::Internal => "Internal"@,
            H3Error::StreamCreation => "StreamCreation"@,
            H3Error::ClosedCriticalStream => "ClosedCriticalStream"@,
            H3Error::FrameUnexpected => "FrameUnexpected"@,
            H3Error::FrameError => "FrameError"@,
            H3Error::ExcessiveLoad => "ExcessiveLoad"@,
            H3Error::Id => "Id"@,
            H3Error::Settings => "Settings"@,
            H3Error::MissingSettings => "MissingSettings"@,
            H3Error::RequestRejected => "RequestRejected"@,
            H3Error::RequestCancelled => "RequestCancelled"@,
            H3Error::RequestIncomplete => "RequestIncomplete"@,
            H3Error::Message => "Message"@,
            H3Error::Connect => "Connect"@,
            H3Error::VersionFallback => "VersionFallback"@,
        }
    }

    /// The text that [`H3Error::message`] returns.
    pub open spec fn message_spec(self) -> Seq<char> {
        self.name_spec() + " ("@ + padded_hex_text(self.code_spec()) + ")"@
    }

    /// The RFC 9114 Section 8.1 error code for this error.
    pub fn code(self) -> (r: u64)
        ensures
            r == self.code_spec(),
    {
        match self {
            H3Error::NoError => 0x0100,
            H3Error::GeneralProtocol => 0x0101,
            H3Error::Internal => 0x0102,
            H3Error::StreamCreation => 0x0103,
            H3Error::ClosedCriticalStream => 0x0104,
            H3Error::FrameUnexpected => 0x0105,
            H3Error::FrameError => 0x0106,
            H3Error::ExcessiveLoad => 0x0107,
            H3Error::Id => 0x0108,
            H3Error::Settings => 0x0109,
            H3Error::MissingSettings => 0x010a,
            H3Error::RequestRejected => 0x010b,
            H3Error::RequestCancelled => 0x010c,
            H3Error::RequestIncomplete => 0x010d,
            H3Error::Message => 0x010e,
            H3Error::Connect => 0x010f,
            H3Error::VersionFallback => 0x0110,
        }
    }

    /// Looks up a known HTTP/3 error by its RFC 9114 Section 8.1 code.
    ///
    /// Returns `None` for unknown codes. Per RFC 9114 Section 8.1, unknown
    /// codes, including the reserved `0x1f * N + 0x21` family, are treated as
    /// equivalent to [`H3Error::NoError`] by the wire protocol.
    pub fn from_code(code: u64) -> (r: Option<H3Error>)
        ensures
            match r {
                Some(e) => e.code_spec() == code,
                None => forall|e: H3Error| (#[trigger] e.code_spec()) != code,
            },
    {
        match code {
            0x0100 => Some(H3Error::NoError),
            0x0101 => Some(H3Error::GeneralProtocol),
            0x0102 => Some(H3Error::Internal),
            0x0103 => Some(H3Error::StreamCreation),
            0x0104 => Some(H3Error::ClosedCriticalStream),
            0x0105 => Some(H3Error::FrameUnexpected),
            0x0106 => Some(H3Error::FrameError),
            0x0107 => Some(H3Error::ExcessiveLoad),
            0x0108 => Some(H3Error::Id),
            0x0109 => Some(H3Error::Settings),
            0x010a => Some(H3Error::MissingSettings),
            0x010b => Some(H3Error::RequestRejected),
            0x010c => Some(H3Error::RequestCancelled),
            0x010d => Some(H3Error::RequestIncomplete),
            0x010e => Some(H3Error::Message),
            0x010f => Some(H3Error::Connect),
            0x0110 => Some(H3Error::VersionFallback),
            _ => None,
        }
    }

    fn name(self) -> (r: &'static str)
        ensures
            r@ == self.name_spec(),
    {
        match self {
            H3Error::NoError => "NoError",
            H3Error::GeneralProtocol => "GeneralProtocol",
            H3Error::Internal => "Internal",
            H3Error::StreamCreation => "StreamCreation",
            H3Error::ClosedCriticalStream => "ClosedCriticalStream",
            H3Error::FrameUnexpected => "FrameUnexpected",
            H3Error::FrameError => "FrameError",
            H3Error::ExcessiveLoad => "ExcessiveLoad",
            H3Error::Id => "Id",
            H3Error::Settings => "Settings",
            H3Error::MissingSettings => "MissingSettings",
            H3Error::RequestRejected => "RequestRejected",
            H3Error::RequestCancelled => "RequestCancelled",
            H3Error::RequestIncomplete => "RequestIncomplete",
            H3Error::Message => "Message",
            H3Error::Connect => "Connect",
            H3Error::VersionFallback => "VersionFallback",
        }
    }

    /// The error in words: its name and its code.
    pub fn message(self) -> (r: String)
        ensures
            r@ == self.message_spec(),
    {
        self.name().to_string().concat(" (").concat(padded_hex(self.code()).as_str()).concat(")")
    }
}

impl From<H3Error> for std::io::Error {
    fn from(err: H3Error) -> (r: std::io::Error) {
        io_error(IoKind::Other, err.message())
    }
}

impl FromSpecImpl<H3Error> for std::io::Error {
    open spec fn obeys_from_spec() -> bool {
        true
    }

    open spec fn from_spec(err: H3Error) -> std::io::Error {
        io_error_of(IoKind::Other, err.message_spec())
    }
}

/// Distinct errors have distinct codes, so an error is recovered from its code.
pub proof fn lemma_codes_are_distinct(a: H3Error, b: H3Error)
    ensures
        a.code_spec() == b.code_spec() ==> a == b,
{
}

/// QPACK error codes never collide with the HTTP/3 family, nor with each
/// other, so the two families can be distinguished by code alone.
pub proof fn lemma_qpack_family_is_separate(e: H3Error, q: QpackError, r: QpackError)
    ensures
        e.code_spec() != q.code_spec(),
        q.code_spec() == r.code_spec() ==> q == r,
{
}

/// The number that hexadecimal digits spell.
pub open spec fn hex_value(s: Seq<char>) -> nat
    decreases s.len(),
{
    if s.len() == 0 {
        0
    } else {
        16 * hex_value(s.drop_last()) + if '0' <= s.last() <= '9' {
            (s.last() as nat - '0' as nat) as nat
        } else {
            (s.last() as nat - 'a' as nat + 10) as nat
        }
    }
}

/// A code is written in hexadecimal digits, in lower case, that spell it; in as few
/// as will do, or filled up to the width with zeros in front.
pub proof fn lemma_hex_digits(n: nat, width: nat)
    ensures
        ({
            let s = hex_digits(n, width);
            &&& s.len() > 0
            &&& s.len() >= width
            &&& hex_value(s) == n
            &&& s.len() > width && s.len() > 1 ==> s[0] != '0'
            &&& forall|i: int|
                0 <= i < s.len() ==> '0' <= #[trigger] s[i] <= '9' || 'a' <= s[i] <= 'f'
        }),
    decreases n, width,
{
    lemma_hex_digit(n % 16);
    let s = hex_digits(n, width);
    if n < 16 && width <= 1 {
        assert(s.drop_last() =~= Seq::empty());
        assert(hex_value(s.drop_last()) == 0);
        assert(n % 16 == n);
    } else {
        let less = if width == 0 {
            0
        } else {
            (width - 1) as nat
        };
        lemma_hex_digits(n / 16, less);
        let front = hex_digits(n / 16, less);
        assert(s.drop_last() =~= front);
        assert(s[0] == front[0]);
        if s.len() > width && s.len() > 1 && front.len() == 1 {
            assert(front.drop_last() =~= Seq::empty());
            assert(hex_value(front.drop_last()) == 0);
            if n < 16 {
                assert(width >= 2);
                assert(s.len() == 2);
            }
            assert(n / 16 > 0);
        }
    }
}

proof fn lemma_hex_digit(n: nat)
    requires
        n < 16,
    ensures
        '0' <= hex_digit(n) <= '9' || 'a' <= hex_digit(n) <= 'f',
        n == if '0' <= hex_digit(n) <= '9' {
            hex_digit(n) as nat - '0' as nat
        } else {
            hex_digit(n) as nat - 'a' as nat + 10
        },
{
    let s = seq!['0', '1', '2', '3', '4', '5', '6', '7', '8', '9', 'a', 'b', 'c', 'd', 'e', 'f'];
    assert(s[0] == '0' && s[1] == '1' && s[2] == '2' && s[3] == '3');
    assert(s[4] == '4' && s[5] == '5' && s[6] == '6' && s[7] == '7');
    assert(s[8] == '8' && s[9] == '9' && s[10] == 'a' && s[11] == 'b');
    assert(s[12] == 'c' && s[13] == 'd' && s[14] == 'e' && s[15] == 'f');
}

/// What a transport error says: its code, where it has one, behind words that tell
/// it from the others; and the kind of error that it surfaces as.
pub proof fn lemma_transport_messages(code: u64)
    ensures
        ({
            let text = seq!['0', 'x'] + hex_digits(code as nat, 1);
            &&& (TransportError::Closed { code }).message_spec() == "connection closed with code "@
                + text
            &&& (TransportError::Reset { code }).message_spec() == "stream reset with code "@ + text
            &&& (TransportError::Stopped { code }).message_spec() == "stream stopped with code "@
                + text
        }),
        (TransportError::Closed { code }).io_kind_spec() == IoKind::ConnectionAborted,
        (TransportError::Reset { code }).io_kind_spec() == IoKind::ConnectionReset,
        (TransportError::Stopped { code }).io_kind_spec() == IoKind::ConnectionReset,
        TransportError::Timeout.io_kind_spec() == IoKind::TimedOut,
        TransportError::Transport.io_kind_spec() == IoKind::Other,
        TransportError::Other.io_kind_spec() == IoKind::Other,
{
}

} // verus!
