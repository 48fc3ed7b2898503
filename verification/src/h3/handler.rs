//! The decisions of an HTTP/3 connection handler.
//!
//! The handler accepts requests until the connection ends, the accept timeout
//! expires or it is told to stop, and serves each: an optional `100 Continue`,
//! the response with the fields that HTTP/3 wants and without those it forbids
//! (RFC 9114 Section 4.2), then the body and the trailers, or the raw stream
//! where the request was a CONNECT and the application took it over. What is
//! done at each point is decided here; the driver does it and reports how it
//! went.

use super::message;
use crate::octets;
use crate::octets::{as_slice, same};
use bytes::Bytes;
use http::HeaderMap;
use vstd::prelude::*;

verus! {

/// How the connection setup went.
#[derive(Debug, Clone, Copy, PartialEq, Eq, Structural)]
pub enum HandshakeOutcome {
    Ready,
    Failed,
    TimedOut,
}

/// How waiting for a request went.
#[derive(Debug, Clone, Copy, PartialEq, Eq, Structural)]
pub enum AcceptOutcome {
    /// A request arrived.
    Request,
    /// No more requests will arrive.
    Exhausted,
    /// The connection failed, with `H3_NO_ERROR` or with an error.
    Failed { no_error: bool },
    /// The handler was told to stop.
    Cancelled,
    /// No request arrived in time.
    TimedOut,
}

/// How the graceful shutdown went.
#[derive(Debug, Clone, Copy, PartialEq, Eq, Structural)]
pub enum ShutdownOutcome {
    Done,
    Failed { no_error: bool },
}

/// How a connection handler ends.
#[derive(Debug, Clone, Copy, PartialEq, Eq, Structural)]
pub enum HandlerEnd {
    /// Cleanly.
    Finished,
    /// With the connection's error.
    ConnectionError,
    /// With the I/O timeout error "handshake timeout".
    HandshakeTimeout,
    /// With the I/O timeout error "accept timeout".
    AcceptTimeout,
}

/// What a connection handler does.
#[derive(Debug, Clone, Copy, PartialEq, Eq, Structural)]
pub enum ConnectionAction {
    /// Set the connection up.
    Handshake,
    /// Wait for a request.
    Accept,
    /// Serve the request on a task of its own.
    Serve,
    /// Shut the connection down, gracefully where the handler was told to stop.
    Shutdown { graceful: bool },
    /// Wait once more, for the connection to drain.
    Drain { graceful: bool },
    /// Return.
    Return(HandlerEnd),
}

/// What came of what a connection handler did.
#[derive(Debug, Clone, Copy, PartialEq, Eq, Structural)]
pub enum ConnectionEvent {
    Handshake(HandshakeOutcome),
    Accept(AcceptOutcome),
    /// The request has its task.
    Served,
    Shutdown(ShutdownOutcome),
    /// The drain is over, however it went.
    Drained,
}

impl ConnectionAction {
    /// What follows. A request is served while the next one is waited for. The
    /// connection ends cleanly where no more requests arrive; being told to stop
    /// or waiting too long shuts it down first. `H3_NO_ERROR` is not an error.
    /// An event that is not about what is being done changes nothing.
    pub open spec fn next(self, event: ConnectionEvent) -> ConnectionAction {
        match (self, event) {
            (ConnectionAction::Handshake, ConnectionEvent::Handshake(outcome)) => match outcome {
                HandshakeOutcome::Ready => ConnectionAction::Accept,
                HandshakeOutcome::Failed => ConnectionAction::Return(HandlerEnd::ConnectionError),
                HandshakeOutcome::TimedOut => ConnectionAction::Return(
                    HandlerEnd::HandshakeTimeout,
                ),
            },
            (ConnectionAction::Accept, ConnectionEvent::Accept(outcome)) => match outcome {
                AcceptOutcome::Request => ConnectionAction::Serve,
                AcceptOutcome::Exhausted => ConnectionAction::Return(HandlerEnd::Finished),
                AcceptOutcome::Failed { no_error } => ConnectionAction::Return(
                    if no_error {
                        HandlerEnd::Finished
                    } else {
                        HandlerEnd::ConnectionError
                    },
                ),
                AcceptOutcome::Cancelled => ConnectionAction::Shutdown { graceful: true },
                AcceptOutcome::TimedOut => ConnectionAction::Shutdown { graceful: false },
            },
            (ConnectionAction::Serve, ConnectionEvent::Served) => ConnectionAction::Accept,
            (ConnectionAction::Shutdown { graceful }, ConnectionEvent::Shutdown(outcome)) => if outcome
                == (ShutdownOutcome::Failed { no_error: false }) {
                ConnectionAction::Return(HandlerEnd::ConnectionError)
            } else {
                ConnectionAction::Drain { graceful }
            },
            (ConnectionAction::Drain { graceful }, ConnectionEvent::Drained) => {
                ConnectionAction::Return(
                    if graceful {
                        HandlerEnd::Finished
                    } else {
                        HandlerEnd::AcceptTimeout
                    },
                )
            },
            _ => self,
        }
    }

    /// What is done after all of the events.
    pub open spec fn after(self, events: Seq<ConnectionEvent>) -> ConnectionAction
        decreases events.len(),
    {
        if events.len() == 0 {
            self
        } else {
            self.after(events.drop_last()).next(events.last())
        }
    }

    /// What follows, once it is known what came of what was done.
    pub fn advance(self, event: ConnectionEvent) -> (r: ConnectionAction)
        ensures
            r == self.next(event),
    {
        match (self, event) {
            (ConnectionAction::Handshake, ConnectionEvent::Handshake(outcome)) => match outcome {
                HandshakeOutcome::Ready => ConnectionAction::Accept,
                HandshakeOutcome::Failed => ConnectionAction::Return(HandlerEnd::ConnectionError),
                HandshakeOutcome::TimedOut => ConnectionAction::Return(
                    HandlerEnd::HandshakeTimeout,
                ),
            },
            (ConnectionAction::Accept, ConnectionEvent::Accept(outcome)) => match outcome {
                AcceptOutcome::Request => ConnectionAction::Serve,
                AcceptOutcome::Exhausted => ConnectionAction::Return(HandlerEnd::Finished),
                AcceptOutcome::Failed { no_error } => if no_error {
                    ConnectionAction::Return(HandlerEnd::Finished)
                } else {
                    ConnectionAction::Return(HandlerEnd::ConnectionError)
                },
                AcceptOutcome::Cancelled => ConnectionAction::Shutdown { graceful: true },
                AcceptOutcome::TimedOut => ConnectionAction::Shutdown { graceful: false },
            },
            (ConnectionAction::Serve, ConnectionEvent::Served) => ConnectionAction::Accept,
            (ConnectionAction::Shutdown { graceful }, ConnectionEvent::Shutdown(outcome)) => {
                match outcome {
                    ShutdownOutcome::Done => ConnectionAction::Drain { graceful },
                    ShutdownOutcome::Failed { no_error } => if no_error {
                        ConnectionAction::Drain { graceful }
                    } else {
                        ConnectionAction::Return(HandlerEnd::ConnectionError)
                    },
                }
            },
            (ConnectionAction::Drain { graceful }, ConnectionEvent::Drained) => if graceful {
                ConnectionAction::Return(HandlerEnd::Finished)
            } else {
                ConnectionAction::Return(HandlerEnd::AcceptTimeout)
            },
            _ => self,
        }
    }
}

/// A handler that stops accepts nothing more, whatever happens. It ends cleanly
/// where it was told to stop, with the accept timeout where it waited too long,
/// and with the connection's error where the shutdown fails.
pub proof fn lemma_stopping(graceful: bool, events: Seq<ConnectionEvent>)
    ensures
        match (ConnectionAction::Shutdown { graceful }).after(events) {
            ConnectionAction::Shutdown { graceful: g } => g == graceful,
            ConnectionAction::Drain { graceful: g } => g == graceful,
            ConnectionAction::Return(HandlerEnd::Finished) => graceful,
            ConnectionAction::Return(HandlerEnd::AcceptTimeout) => !graceful,
            ConnectionAction::Return(HandlerEnd::ConnectionError) => events.contains(
                ConnectionEvent::Shutdown(ShutdownOutcome::Failed { no_error: false }),
            ),
            _ => false,
        },
    decreases events.len(),
{
    if events.len() > 0 {
        let less = events.drop_last();
        lemma_stopping(graceful, less);
        let failure = ConnectionEvent::Shutdown(ShutdownOutcome::Failed { no_error: false });
        if less.contains(failure) {
            let i = choose|i: int| 0 <= i < less.len() && less[i] == failure;
            assert(events[i] == failure);
        }
        assert(events[events.len() - 1] == events.last());
    }
}

/// A handler that returned does nothing more.
pub proof fn lemma_returned(end: HandlerEnd, events: Seq<ConnectionEvent>)
    ensures
        ConnectionAction::Return(end).after(events) == ConnectionAction::Return(end),
    decreases events.len(),
{
    if events.len() > 0 {
        lemma_returned(end, events.drop_last());
    }
}

/// [`http::HeaderMap`], a map from field names to their values.
#[verifier::external_type_specification]
#[verifier::external_body]
#[verifier::reject_recursive_types(T)]
pub struct ExHeaderMap<T>(http::HeaderMap<T>);

/// [`http::HeaderValue`].
#[verifier::external_type_specification]
#[verifier::external_body]
pub struct ExHeaderValue(http::HeaderValue);

/// The fields that a header map holds: each name, in lower case, with its values
/// in order.
pub uninterp spec fn held_fields(m: http::HeaderMap) -> Map<Seq<u8>, Seq<Seq<u8>>>;

/// The number of names up to which a header map always takes one more.
pub const MAX_FIELD_NAMES: usize = 6_553;

/// `http::HeaderMap::get`: the first value of a field, whose name is a token in
/// any case.
#[verifier::external_body]
fn first_value(m: &HeaderMap, name: &str) -> (r: Option<Bytes>)
    requires
        message::name_valid(message::spelled(name)),
    ensures
        ({
            let key = message::lower(message::spelled(name));
            match r {
                Some(b) => {
                    &&& held_fields(*m).contains_key(key)
                    &&& held_fields(*m)[key].len() > 0
                    &&& octets::content(b) == held_fields(*m)[key][0]
                },
                None => !held_fields(*m).contains_key(key),
            }
        }),
{
    match m.get(name) {
        Some(value) => Some(Bytes::copy_from_slice(value.as_bytes())),
        None => None,
    }
}

/// `http::HeaderMap::remove` takes a field, whose name is a token in any case,
/// with all of its values out.
#[verifier::external_body]
fn remove_field(m: &mut HeaderMap, name: &str)
    requires
        message::name_valid(message::spelled(name)),
    ensures
        held_fields(*final(m)) == held_fields(*old(m)).remove(
            message::lower(message::spelled(name)),
        ),
        held_fields(*final(m)).dom().len() <= held_fields(*old(m)).dom().len(),
{
    let _ = m.remove(name);
}

/// `http::HeaderMap::try_insert` sets the one value of a field, or refuses and
/// leaves the fields as they are, which it does only where there are many names
/// already. The conversion of the name, `http::HeaderName::from_bytes`, takes
/// tokens, and that of the value, `http::HeaderValue::from_maybe_shared`, takes
/// what is no control character.
#[verifier::external_body]
fn set_field(m: &mut HeaderMap, name: &str, value: Bytes) -> (r: bool)
    requires
        message::name_valid(message::spelled(name)),
        message::value_valid(octets::content(value)),
    ensures
        r ==> held_fields(*final(m)) == held_fields(*old(m)).insert(
            message::lower(message::spelled(name)),
            seq![octets::content(value)],
        ),
        r ==> held_fields(*final(m)).dom().len() <= held_fields(*old(m)).dom().len() + 1,
        !r ==> held_fields(*final(m)) == held_fields(*old(m)),
        !r ==> held_fields(*old(m)).dom().len() > MAX_FIELD_NAMES,
{
    let name = http::HeaderName::from_bytes(name.as_bytes()).expect("a token");
    let value = http::HeaderValue::from_maybe_shared(value).expect("no control character");
    m.try_insert(name, value).is_ok()
}

/// What a request asks for before it is handled.
#[derive(Debug, Clone, Copy, PartialEq, Eq, Structural)]
pub struct RequestPlan {
    /// Whether the application may take the stream over: then the request has
    /// no body.
    pub upgradable: bool,
    /// Whether a `100 Continue` is sent first.
    pub send_continue: bool,
}

/// The first value of a field.
pub open spec fn first(fields: Map<Seq<u8>, Seq<Seq<u8>>>, name: Seq<u8>) -> Option<Seq<u8>> {
    if fields.contains_key(name) {
        Some(fields[name][0])
    } else {
        None
    }
}

/// Whether a request waits for a `100 Continue`.
pub open spec fn expects_continue(fields: Map<Seq<u8>, Seq<Seq<u8>>>) -> bool {
    first(fields, message::spelled("expect")) matches Some(v) && message::lower(v)
        == message::spelled("100-continue")
}

/// Plans a request. The application may take over a CONNECT request's stream; a
/// request with `Expect: 100-continue` gets a `100 Continue` where the options
/// say so.
pub fn plan_request(method: &[u8], headers: &HeaderMap, send_continue_response: bool) -> (r:
    RequestPlan)
    ensures
        r == (RequestPlan {
            upgradable: method@ == message::spelled("CONNECT"),
            send_continue: send_continue_response && expects_continue(held_fields(*headers)),
        }),
{
    let upgradable: bool = same(method, "CONNECT".as_bytes());
    let mut send_continue: bool = false;
    if send_continue_response {
        proof {
            lemma_names();
        }
        if let Some(value) = first_value(headers, "expect") {
            send_continue = same_in_lower(as_slice(&value), "100-continue".as_bytes());
        }
    }
    RequestPlan { upgradable, send_continue }
}

/// Whether `a` with its letters in lower case is `b`.
fn same_in_lower(a: &[u8], b: &[u8]) -> (r: bool)
    ensures
        r == (message::lower(a@) == b@),
{
    if a.len() != b.len() {
        return false;
    }
    let mut i: usize = 0;
    while i < a.len()
        invariant
            a@.len() == b@.len(),
            i <= a@.len(),
            forall|k: int| 0 <= k < i ==> message::lower_byte(a@[k]) == b@[k],
        decreases a@.len() - i,
    {
        let x: u8 = a[i];
        let y: u8 = if x >= 0x41 && x <= 0x5a {
            x + 0x20
        } else {
            x
        };
        if y != b[i] {
            assert(message::lower(a@)[i as int] != b@[i as int]);
            return false;
        }
        i = i + 1;
    }
    assert(message::lower(a@) =~= b@);
    true
}

/// The fields that are specific to a connection, which HTTP/3 does not carry
/// (RFC 9114 Section 4.2).
pub open spec fn connection_specific(name: Seq<u8>) -> bool {
    ||| name == message::spelled("keep-alive")
    ||| name == message::spelled("proxy-connection")
    ||| name == message::spelled("connection")
    ||| name == message::spelled("transfer-encoding")
    ||| name == message::spelled("upgrade")
}

/// Whether the TE field may stay: it says nothing but "trailers".
pub open spec fn te_allowed(fields: Map<Seq<u8>, Seq<Seq<u8>>>) -> bool {
    match first(fields, message::spelled("te")) {
        Some(v) => v == message::spelled("trailers"),
        None => true,
    }
}

/// The fields of a message without those that HTTP/3 forbids.
pub open spec fn cleaned(fields: Map<Seq<u8>, Seq<Seq<u8>>>) -> Map<Seq<u8>, Seq<Seq<u8>>> {
    fields.restrict(
        Set::new(
            |name: Seq<u8>|
                !connection_specific(name) && (name == message::spelled("te") ==> te_allowed(fields)),
        ),
    )
}

/// Removes the fields that HTTP/3 forbids.
pub fn remove_invalid_http3_headers(headers: &mut HeaderMap)
    ensures
        held_fields(*final(headers)) == cleaned(held_fields(*old(headers))),
        held_fields(*final(headers)).dom().len() <= held_fields(*old(headers)).dom().len(),
{
    let ghost fields = held_fields(*headers);
    proof {
        lemma_names();
    }
    remove_field(headers, "keep-alive");
    remove_field(headers, "proxy-connection");
    remove_field(headers, "connection");
    remove_field(headers, "transfer-encoding");
    remove_field(headers, "upgrade");
    let ghost rest = held_fields(*headers);
    assert(first(rest, message::spelled("te")) == first(fields, message::spelled("te")));
    if let Some(value) = first_value(headers, "te") {
        if !same(as_slice(&value), "trailers".as_bytes()) {
            remove_field(headers, "te");
        }
    }
    assert(held_fields(*headers) =~= cleaned(fields));
}

/// A number in decimal digits.
pub open spec fn decimal(n: nat) -> Seq<u8>
    decreases n,
{
    if n < 10 {
        seq![(0x30 + n) as u8]
    } else {
        decimal(n / 10).push((0x30 + n % 10) as u8)
    }
}

/// Writes a number in decimal digits.
fn decimal_digits(n: u64) -> (r: Vec<u8>)
    ensures
        r@ == decimal(n as nat),
    decreases n,
{
    if n < 10 {
        let mut out: Vec<u8> = Vec::new();
        out.push(0x30 + n as u8);
        assert(out@ =~= decimal(n as nat));
        out
    } else {
        let mut out = decimal_digits(n / 10);
        out.push(0x30 + (n % 10) as u8);
        out
    }
}

/// The fields with one more where its name is not among them.
pub open spec fn with_default(
    fields: Map<Seq<u8>, Seq<Seq<u8>>>,
    name: Seq<u8>,
    value: Option<Seq<u8>>,
) -> Map<Seq<u8>, Seq<Seq<u8>>> {
    match value {
        Some(v) if !fields.contains_key(name) => fields.insert(name, seq![v]),
        _ => fields,
    }
}

/// The fields of a response: a date, where one is given, and a content length,
/// where a body with a known length follows, unless the application gave its
/// own; and none that HTTP/3 forbids.
pub open spec fn response_fields(
    fields: Map<Seq<u8>, Seq<Seq<u8>>>,
    date: Option<Seq<u8>>,
    end_stream: bool,
    body_length: Option<u64>,
) -> Map<Seq<u8>, Seq<Seq<u8>>> {
    with_default(
        cleaned(with_default(fields, message::spelled("date"), date)),
        message::spelled("content-length"),
        match body_length {
            Some(n) if !end_stream => Some(decimal(n as nat)),
            _ => None,
        },
    )
}

/// Adds a field to a map that has none with that name. Says whether the map had
/// room for it.
fn add_default(headers: &mut HeaderMap, name: &str, value: Bytes) -> (r: bool)
    requires
        message::lower(message::spelled(name)) == message::spelled(name),
        message::name_valid(message::spelled(name)),
        message::value_valid(octets::content(value)),
    ensures
        r ==> held_fields(*final(headers)) == with_default(
            held_fields(*old(headers)),
            message::spelled(name),
            Some(octets::content(value)),
        ),
        r ==> held_fields(*final(headers)).dom().len() <= held_fields(*old(headers)).dom().len()
            + 1,
        !r ==> held_fields(*final(headers)) == held_fields(*old(headers)),
        !r ==> held_fields(*old(headers)).dom().len() > MAX_FIELD_NAMES,
{
    if first_value(headers, name).is_some() {
        return true;
    }
    set_field(headers, name, value)
}

/// Prepares the fields of a response.
///
/// `date` is the value of the `Date` field, where one is to be sent;
/// `end_stream` says that no body follows, and `body_length` is the length of
/// the body, where it is known. A map holds only so many names: the result says
/// whether there was room for what is added, as there is in any map with fewer
/// than [`MAX_FIELD_NAMES`]. Where there was none, the response is not to be
/// sent.
pub fn prepare_response(
    headers: &mut HeaderMap,
    date: Option<Bytes>,
    end_stream: bool,
    body_length: Option<u64>,
) -> (r: bool)
    requires
        date matches Some(b) ==> message::value_valid(octets::content(b)),
    ensures
        r ==> held_fields(*final(headers)) == response_fields(
            held_fields(*old(headers)),
            message::held(date),
            end_stream,
            body_length,
        ),
        !r ==> held_fields(*old(headers)).dom().len() >= MAX_FIELD_NAMES,
        !r ==> held_fields(*final(headers)) == held_fields(*old(headers)) || held_fields(
            *final(headers),
        ) == response_fields(held_fields(*old(headers)), message::held(date), true, None),
{
    proof {
        lemma_names();
    }
    if let Some(date) = date {
        if !add_default(headers, "date", date) {
            return false;
        }
    }
    remove_invalid_http3_headers(headers);
    if !end_stream {
        if let Some(n) = body_length {
            proof {
                lemma_decimal(n as nat);
            }
            return add_default(
                headers,
                "content-length",
                octets::from_vec(decimal_digits(n)),
            );
        }
    }
    true
}

/// A number in digits is a field value.
proof fn lemma_decimal(n: nat)
    ensures
        message::value_valid(decimal(n)),
    decreases n,
{
    if n >= 10 {
        lemma_decimal(n / 10);
    }
}

/// What the task of a request does.
#[derive(Debug, Clone, Copy, PartialEq, Eq, Structural)]
pub enum ServeAction {
    /// Send a `100 Continue`.
    SendContinue,
    /// Wait for the application's response and, while `hints` says so, for early
    /// hints.
    Handle { hints: bool },
    /// Send the early hints as a `103` and tell the application how it went.
    SendHints,
    /// Send the response, with the fields of [`prepare_response`].
    SendResponse,
    /// Hand the stream over to the application and carry its data.
    TakeOver,
    /// Wait for the next frame of the response's body.
    NextFrame,
    /// Send the frame as DATA.
    SendData,
    /// Send the frame as trailers, with the fields of
    /// [`remove_invalid_http3_headers`].
    SendTrailers,
    /// Finish the stream.
    Finish,
    /// Leave the stream as it is.
    Stop,
}

/// The next frame of a response body.
#[derive(Debug, Clone, Copy, PartialEq, Eq, Structural)]
pub enum BodyFrame {
    Data,
    Trailers,
    /// Neither of the two.
    Unknown,
    /// The body is over.
    End,
    /// The body failed.
    Failed,
}

/// What came of what the task of a request did.
#[derive(Debug, Clone, Copy, PartialEq, Eq, Structural)]
pub enum ServeEvent {
    /// What was to be sent went out, or the stream failed.
    Sent { ok: bool },
    /// Early hints came from the application.
    Hint,
    /// No more early hints will come.
    HintsClosed,
    /// The application responded; `end_stream` says that no body follows.
    Response { end_stream: bool },
    /// The application failed.
    HandlerFailed,
    /// The response went out, or the stream failed; `upgraded` says that the
    /// application wants the stream.
    ResponseSent { ok: bool, upgraded: bool },
    /// The body gave a frame.
    Frame(BodyFrame),
    /// The stream that was taken over is done.
    Released,
}

/// The task of a request.
#[derive(Debug, Clone, Copy, PartialEq, Eq, Structural)]
pub struct Serving {
    /// What it does.
    pub doing: ServeAction,
    /// Whether the application may take the stream over.
    pub upgradable: bool,
    /// Whether the response has no body.
    pub end_stream: bool,
}

impl Serving {
    /// The task of a request with that plan.
    pub open spec fn begin(plan: RequestPlan) -> Serving {
        Serving {
            doing: if plan.send_continue {
                ServeAction::SendContinue
            } else {
                ServeAction::Handle { hints: true }
            },
            upgradable: plan.upgradable,
            end_stream: false,
        }
    }

    /// What follows. Early hints are sent until the response comes. Behind the
    /// response comes the takeover of the stream, where the application wants it
    /// and may have it, or the body; the trailers end it. A stream that fails, a
    /// body that fails and an application that fails leave the stream as it is;
    /// early hints that were not sent do not. An event that is not about what is
    /// being done changes nothing.
    pub open spec fn next(self, event: ServeEvent) -> Serving {
        let doing = match (self.doing, event) {
            (ServeAction::SendContinue, ServeEvent::Sent { ok }) => if ok {
                ServeAction::Handle { hints: true }
            } else {
                ServeAction::Stop
            },
            (ServeAction::Handle { hints: true }, ServeEvent::Hint) => ServeAction::SendHints,
            (ServeAction::Handle { hints: true }, ServeEvent::HintsClosed) => {
                ServeAction::Handle { hints: false }
            },
            (ServeAction::Handle { .. }, ServeEvent::Response { .. }) => ServeAction::SendResponse,
            (ServeAction::Handle { .. }, ServeEvent::HandlerFailed) => ServeAction::Stop,
            (ServeAction::SendHints, ServeEvent::Sent { .. }) => {
                ServeAction::Handle { hints: true }
            },
            (ServeAction::SendResponse, ServeEvent::ResponseSent { ok, upgraded }) => if !ok {
                ServeAction::Stop
            } else if self.upgradable && upgraded {
                ServeAction::TakeOver
            } else if self.end_stream {
                ServeAction::Finish
            } else {
                ServeAction::NextFrame
            },
            (ServeAction::TakeOver, ServeEvent::Released) => ServeAction::Stop,
            (ServeAction::NextFrame, ServeEvent::Frame(frame)) => match frame {
                BodyFrame::Data => ServeAction::SendData,
                BodyFrame::Trailers => ServeAction::SendTrailers,
                BodyFrame::Unknown => ServeAction::NextFrame,
                BodyFrame::End => ServeAction::Finish,
                BodyFrame::Failed => ServeAction::Stop,
            },
            (ServeAction::SendData, ServeEvent::Sent { ok }) => if ok {
                ServeAction::NextFrame
            } else {
                ServeAction::Stop
            },
            (ServeAction::SendTrailers, ServeEvent::Sent { ok }) => if ok {
                ServeAction::Finish
            } else {
                ServeAction::Stop
            },
            (ServeAction::Finish, ServeEvent::Sent { .. }) => ServeAction::Stop,
            _ => self.doing,
        };
        let end_stream = match (self.doing, event) {
            (ServeAction::Handle { .. }, ServeEvent::Response { end_stream }) => end_stream,
            _ => self.end_stream,
        };
        Serving { doing, end_stream, ..self }
    }

    /// The task after all of the events.
    pub open spec fn after(self, events: Seq<ServeEvent>) -> Serving
        decreases events.len(),
    {
        if events.len() == 0 {
            self
        } else {
            self.after(events.drop_last()).next(events.last())
        }
    }

    /// Starts the task of a request.
    pub fn new(plan: RequestPlan) -> (r: Serving)
        ensures
            r == Serving::begin(plan),
    {
        let doing = if plan.send_continue {
            ServeAction::SendContinue
        } else {
            ServeAction::Handle { hints: true }
        };
        Serving { doing, upgradable: plan.upgradable, end_stream: false }
    }

    /// What follows, once it is known what came of what was done.
    pub fn advance(self, event: ServeEvent) -> (r: Serving)
        ensures
            r == self.next(event),
    {
        let mut r = self;
        match (self.doing, event) {
            (ServeAction::SendContinue, ServeEvent::Sent { ok }) => {
                r.doing = if ok {
                    ServeAction::Handle { hints: true }
                } else {
                    ServeAction::Stop
                };
            },
            (ServeAction::Handle { hints }, ServeEvent::Hint) => {
                if hints {
                    r.doing = ServeAction::SendHints;
                }
            },
            (ServeAction::Handle { .. }, ServeEvent::HintsClosed) => {
                r.doing = ServeAction::Handle { hints: false };
            },
            (ServeAction::Handle { .. }, ServeEvent::Response { end_stream }) => {
                r.doing = ServeAction::SendResponse;
                r.end_stream = end_stream;
            },
            (ServeAction::Handle { .. }, ServeEvent::HandlerFailed) => {
                r.doing = ServeAction::Stop;
            },
            (ServeAction::SendHints, ServeEvent::Sent { .. }) => {
                r.doing = ServeAction::Handle { hints: true };
            },
            (ServeAction::SendResponse, ServeEvent::ResponseSent { ok, upgraded }) => {
                r.doing = if !ok {
                    ServeAction::Stop
                } else if self.upgradable && upgraded {
                    ServeAction::TakeOver
                } else if self.end_stream {
                    ServeAction::Finish
                } else {
                    ServeAction::NextFrame
                };
            },
            (ServeAction::TakeOver, ServeEvent::Released) => {
                r.doing = ServeAction::Stop;
            },
            (ServeAction::NextFrame, ServeEvent::Frame(frame)) => {
                r.doing = match frame {
                    BodyFrame::Data => ServeAction::SendData,
                    BodyFrame::Trailers => ServeAction::SendTrailers,
                    BodyFrame::Unknown => ServeAction::NextFrame,
                    BodyFrame::End => ServeAction::Finish,
                    BodyFrame::Failed => ServeAction::Stop,
                };
            },
            (ServeAction::SendData, ServeEvent::Sent { ok }) => {
                r.doing = if ok {
                    ServeAction::NextFrame
                } else {
                    ServeAction::Stop
                };
            },
            (ServeAction::SendTrailers, ServeEvent::Sent { ok }) => {
                r.doing = if ok {
                    ServeAction::Finish
                } else {
                    ServeAction::Stop
                };
            },
            (ServeAction::Finish, ServeEvent::Sent { .. }) => {
                r.doing = ServeAction::Stop;
            },
            _ => {},
        }
        r
    }
}

/// How far an exchange has come: what is sent before the response, the response,
/// the body, the trailers, the end.
pub open spec fn progress(doing: ServeAction) -> int {
    match doing {
        ServeAction::SendContinue => 0,
        ServeAction::Handle { .. } => 1,
        ServeAction::SendHints => 1,
        ServeAction::SendResponse => 2,
        ServeAction::NextFrame => 3,
        ServeAction::SendData => 3,
        ServeAction::SendTrailers => 4,
        ServeAction::TakeOver => 4,
        ServeAction::Finish => 5,
        ServeAction::Stop => 6,
    }
}

/// An exchange never goes back: whatever happens, no interim response follows
/// the response, no data follows the trailers, and nothing follows the end. Each
/// of the `100 Continue`, the response, the trailers and the end is sent once:
/// what follows it is further on.
pub proof fn lemma_serving_goes_on(s: Serving, events: Seq<ServeEvent>)
    ensures
        progress(s.after(events).doing) >= progress(s.doing),
        s.after(events).doing != s.doing && (s.doing is SendContinue || s.doing is SendResponse
            || s.doing is SendTrailers || s.doing is TakeOver || s.doing is Finish) ==> progress(
            s.after(events).doing,
        ) > progress(s.doing),
        s.doing is Stop ==> s.after(events).doing is Stop,
    decreases events.len(),
{
    if events.len() > 0 {
        lemma_serving_goes_on(s, events.drop_last());
    }
}

/// A stream is taken over only where the request was a CONNECT, and it is
/// finished only behind a response that went out whole: the response was
/// without a body, its body ended, or its trailers went out.
pub proof fn lemma_serving_ends(plan: RequestPlan, events: Seq<ServeEvent>, event: ServeEvent)
    ensures
        ({
            let before = Serving::begin(plan).after(events);
            let now = before.next(event);
            &&& now.doing is TakeOver ==> plan.upgradable
            &&& now.doing is Finish && !(before.doing is Finish) ==> {
                ||| before.doing is SendResponse && before.end_stream && event
                    is ResponseSent && event->ResponseSent_ok
                ||| before.doing is NextFrame && event == ServeEvent::Frame(BodyFrame::End)
                ||| before.doing is SendTrailers && event == (ServeEvent::Sent { ok: true })
            }
        }),
{
    lemma_upgradable_stays(plan, events);
}

proof fn lemma_upgradable_stays(plan: RequestPlan, events: Seq<ServeEvent>)
    ensures
        Serving::begin(plan).after(events).upgradable == plan.upgradable,
        Serving::begin(plan).after(events).doing is TakeOver ==> plan.upgradable,
    decreases events.len(),
{
    if events.len() > 0 {
        lemma_upgradable_stays(plan, events.drop_last());
    }
}

/// What the fields that are carried have in common: none is forbidden, each
/// keeps its values, and every other field is there. Cleaning twice is cleaning
/// once.
pub proof fn lemma_cleaned(fields: Map<Seq<u8>, Seq<Seq<u8>>>, name: Seq<u8>)
    ensures
        cleaned(fields).contains_key(name) <==> fields.contains_key(name) && !connection_specific(
            name,
        ) && (name == message::spelled("te") ==> te_allowed(fields)),
        cleaned(fields).contains_key(name) ==> cleaned(fields)[name] == fields[name],
        te_allowed(cleaned(fields)),
        cleaned(cleaned(fields)) == cleaned(fields),
{
    lemma_names();
    assert(te_allowed(cleaned(fields)));
    assert(cleaned(cleaned(fields)) =~= cleaned(fields));
}

/// What an application's response is sent with: none of the fields that are
/// specific to a connection; the application's own date and content length where
/// it gave them, or else those of the handler; and every other field that it
/// gave.
pub proof fn lemma_response_fields(
    fields: Map<Seq<u8>, Seq<Seq<u8>>>,
    date: Option<Seq<u8>>,
    end_stream: bool,
    body_length: Option<u64>,
    name: Seq<u8>,
)
    ensures
        ({
            let sent = response_fields(fields, date, end_stream, body_length);
            let date_name = message::spelled("date");
            let length_name = message::spelled("content-length");
            &&& connection_specific(name) ==> !sent.contains_key(name)
            &&& first(sent, date_name) == if fields.contains_key(date_name) {
                first(fields, date_name)
            } else {
                date
            }
            &&& first(sent, length_name) == if fields.contains_key(length_name) {
                first(fields, length_name)
            } else {
                match body_length {
                    Some(n) if !end_stream => Some(decimal(n as nat)),
                    _ => None,
                }
            }
            &&& fields.contains_key(name) && !connection_specific(name) && name
                != message::spelled("te") ==> sent.contains_key(name) && sent[name] == fields[name]
        }),
{
    lemma_names();
}

/// The names that the handler speaks of are tokens in lower case; those that it
/// adds or looks at are not specific to a connection, and they differ.
proof fn lemma_names()
    ensures
        !connection_specific(message::spelled("te")),
        !connection_specific(message::spelled("date")),
        !connection_specific(message::spelled("content-length")),
        message::spelled("date") != message::spelled("content-length"),
        message::spelled("date") != message::spelled("te"),
        message::spelled("content-length") != message::spelled("te"),
        message::name_valid(message::spelled("te")),
        message::name_valid(message::spelled("date")),
        message::name_valid(message::spelled("expect")),
        message::name_valid(message::spelled("upgrade")),
        message::name_valid(message::spelled("keep-alive")),
        message::name_valid(message::spelled("connection")),
        message::name_valid(message::spelled("proxy-connection")),
        message::name_valid(message::spelled("transfer-encoding")),
        message::name_valid(message::spelled("content-length")),
        message::lower(message::spelled("te")) == message::spelled("te"),
        message::lower(message::spelled("date")) == message::spelled("date"),
        message::lower(message::spelled("expect")) == message::spelled("expect"),
        message::lower(message::spelled("upgrade")) == message::spelled("upgrade"),
        message::lower(message::spelled("keep-alive")) == message::spelled("keep-alive"),
        message::lower(message::spelled("connection")) == message::spelled("connection"),
        message::lower(message::spelled("content-length")) == message::spelled("content-length"),
        message::lower(message::spelled("proxy-connection")) == message::spelled(
            "proxy-connection",
        ),
        message::lower(message::spelled("transfer-encoding")) == message::spelled(
            "transfer-encoding",
        ),
{
    reveal_strlit("te");
    reveal_strlit("date");
    reveal_strlit("expect");
    reveal_strlit("content-length");
    reveal_strlit("keep-alive");
    reveal_strlit("proxy-connection");
    reveal_strlit("connection");
    reveal_strlit("transfer-encoding");
    reveal_strlit("upgrade");
    vstd::utf8::is_ascii_chars_encode_utf8("te"@);
    vstd::utf8::is_ascii_chars_encode_utf8("date"@);
    vstd::utf8::is_ascii_chars_encode_utf8("expect"@);
    vstd::utf8::is_ascii_chars_encode_utf8("content-length"@);
    vstd::utf8::is_ascii_chars_encode_utf8("keep-alive"@);
    vstd::utf8::is_ascii_chars_encode_utf8("proxy-connection"@);
    vstd::utf8::is_ascii_chars_encode_utf8("connection"@);
    vstd::utf8::is_ascii_chars_encode_utf8("transfer-encoding"@);
    vstd::utf8::is_ascii_chars_encode_utf8("upgrade"@);
    lemma_lower("te");
    lemma_lower("date");
    lemma_lower("expect");
    lemma_lower("content-length");
    lemma_lower("keep-alive");
    lemma_lower("proxy-connection");
    lemma_lower("connection");
    lemma_lower("transfer-encoding");
    lemma_lower("upgrade");
}

/// A text without capital letters is in lower case.
proof fn lemma_lower(text: &str)
    requires
        forall|i: int|
            0 <= i < message::spelled(text).len() ==> !(0x41 <= #[trigger] message::spelled(text)[i]
                <= 0x5a),
    ensures
        message::lower(message::spelled(text)) == message::spelled(text),
{
    assert(message::lower(message::spelled(text)) =~= message::spelled(text));
}

/// How often a run of events brings a task to an action from another one.
pub open spec fn entered(s: Serving, events: Seq<ServeEvent>, action: ServeAction) -> nat
    decreases events.len(),
{
    if events.len() == 0 {
        0
    } else {
        let before = s.after(events.drop_last());
        let now = s.after(events);
        entered(s, events.drop_last(), action) + if before.doing != action && now.doing == action {
            1nat
        } else {
            0nat
        }
    }
}

/// How often an event of a run comes while the task does that.
pub open spec fn met(s: Serving, events: Seq<ServeEvent>, doing: ServeAction, event: ServeEvent) -> nat
    decreases events.len(),
{
    if events.len() == 0 {
        0
    } else {
        met(s, events.drop_last(), doing, event) + if s.after(events.drop_last()).doing == doing
            && events.last() == event {
            1nat
        } else {
            0nat
        }
    }
}

/// Nothing of a response is dropped and nothing is made up, over any run of
/// events and whatever else the task holds: DATA is sent as often as the body
/// gave data while its next frame was waited for, trailers as often as it gave
/// trailers, and early hints as often as the application gave hints while they
/// were waited for.
pub proof fn lemma_everything_is_sent(s: Serving, events: Seq<ServeEvent>)
    ensures
        entered(s, events, ServeAction::SendData) == met(
            s,
            events,
            ServeAction::NextFrame,
            ServeEvent::Frame(BodyFrame::Data),
        ),
        entered(s, events, ServeAction::SendTrailers) == met(
            s,
            events,
            ServeAction::NextFrame,
            ServeEvent::Frame(BodyFrame::Trailers),
        ),
        entered(s, events, ServeAction::SendHints) == met(
            s,
            events,
            ServeAction::Handle { hints: true },
            ServeEvent::Hint,
        ),
    decreases events.len(),
{
    if events.len() > 0 {
        lemma_everything_is_sent(s, events.drop_last());
    }
}

/// A frame of the body is dealt with by its kind alone, whatever came before it
/// and whatever else the task holds; and once it is out, the next one is waited
/// for.
pub proof fn lemma_every_frame_counts(s: Serving)
    requires
        s.doing is NextFrame,
    ensures
        s.next(ServeEvent::Frame(BodyFrame::Data)).doing is SendData,
        s.next(ServeEvent::Frame(BodyFrame::Data)).next(
            ServeEvent::Sent { ok: true },
        ).doing is NextFrame,
        s.next(ServeEvent::Frame(BodyFrame::Trailers)).doing is SendTrailers,
        s.next(ServeEvent::Frame(BodyFrame::Trailers)).next(
            ServeEvent::Sent { ok: true },
        ).doing is Finish,
        s.next(ServeEvent::Frame(BodyFrame::Unknown)).doing is NextFrame,
        s.next(ServeEvent::Frame(BodyFrame::End)).doing is Finish,
        s.next(ServeEvent::Frame(BodyFrame::Failed)).doing is Stop,
{
}

/// `n` frames of data, each of them sent.
pub open spec fn data_frames(n: nat) -> Seq<ServeEvent>
    decreases n,
{
    if n == 0 {
        Seq::empty()
    } else {
        data_frames((n - 1) as nat).push(ServeEvent::Frame(BodyFrame::Data)).push(
            ServeEvent::Sent { ok: true },
        )
    }
}

proof fn lemma_after_push(s: Serving, events: Seq<ServeEvent>, event: ServeEvent)
    ensures
        s.after(events.push(event)) == s.after(events).next(event),
{
    assert(events.push(event).drop_last() =~= events);
}

proof fn lemma_after_nothing(s: Serving)
    ensures
        s.after(Seq::empty()) == s,
{
}

/// A body of any length is sent whole: while its frames come and go out, the task
/// comes back to waiting for the next, and it has sent as many as there were.
pub proof fn lemma_bodies_are_sent(s: Serving, n: nat)
    requires
        s.doing is NextFrame,
    ensures
        s.after(data_frames(n)).doing is NextFrame,
        entered(s, data_frames(n), ServeAction::SendData) == n,
    decreases n,
{
    if n > 0 {
        let less = data_frames((n - 1) as nat);
        let mid = less.push(ServeEvent::Frame(BodyFrame::Data));
        let all = mid.push(ServeEvent::Sent { ok: true });
        lemma_bodies_are_sent(s, (n - 1) as nat);
        lemma_every_frame_counts(s.after(less));
        lemma_after_push(s, less, ServeEvent::Frame(BodyFrame::Data));
        lemma_after_push(s, mid, ServeEvent::Sent { ok: true });
        assert(mid.drop_last() =~= less);
        assert(all.drop_last() =~= mid);
        assert(entered(s, mid, ServeAction::SendData) == n);
        assert(entered(s, all, ServeAction::SendData) == entered(s, mid, ServeAction::SendData));
    } else {
        lemma_after_nothing(s);
    }
}

/// A request that goes well: its response is sent, then all of its body, then its
/// trailers where it has some, and then the stream is finished; a response
/// without a body is finished at once, and a CONNECT request whose stream the
/// application wants is handed over.
pub proof fn lemma_exchange_goes_well(s: Serving, end_stream: bool, upgraded: bool, n: nat)
    requires
        s.doing is Handle,
    ensures
        ({
            let responded = s.next(ServeEvent::Response { end_stream });
            let sent = responded.next(ServeEvent::ResponseSent { ok: true, upgraded });
            let body = sent.after(data_frames(n));
            let ended = body.next(ServeEvent::Frame(BodyFrame::End));
            let trailed = body.next(ServeEvent::Frame(BodyFrame::Trailers)).next(
                ServeEvent::Sent { ok: true },
            );
            &&& responded.doing is SendResponse
            &&& responded.end_stream == end_stream
            &&& s.upgradable && upgraded ==> sent.doing is TakeOver
            &&& !(s.upgradable && upgraded) && end_stream ==> sent.doing is Finish
            &&& !(s.upgradable && upgraded) && !end_stream ==> {
                &&& sent.doing is NextFrame
                &&& body.doing is NextFrame
                &&& entered(sent, data_frames(n), ServeAction::SendData) == n
                &&& ended.doing is Finish
                &&& trailed.doing is Finish
            }
        }),
{
    let responded = s.next(ServeEvent::Response { end_stream });
    let sent = responded.next(ServeEvent::ResponseSent { ok: true, upgraded });
    if sent.doing is NextFrame {
        lemma_bodies_are_sent(sent, n);
        lemma_every_frame_counts(sent.after(data_frames(n)));
    }
}

/// Before the response: a request that waits for it gets a `100 Continue` first
/// and no other does; each hint is sent, after which the response is waited for
/// as before; no hint is waited for once they are over; and the response is sent
/// whenever it comes.
pub proof fn lemma_before_the_response(plan: RequestPlan, s: Serving, ok: bool, end_stream: bool)
    ensures
        Serving::begin(plan).doing is SendContinue <==> plan.send_continue,
        !plan.send_continue ==> Serving::begin(plan).doing == (ServeAction::Handle {
            hints: true,
        }),
        Serving::begin(plan).upgradable == plan.upgradable,
        s.doing is SendContinue ==> s.next(ServeEvent::Sent { ok: true }).doing == (
        ServeAction::Handle { hints: true }),
        s.doing == (ServeAction::Handle { hints: true }) ==> {
            &&& s.next(ServeEvent::Hint).doing is SendHints
            &&& s.next(ServeEvent::Hint).next(ServeEvent::Sent { ok }).doing == s.doing
            &&& s.next(ServeEvent::HintsClosed).doing == (ServeAction::Handle { hints: false })
        },
        s.doing is Handle ==> {
            &&& s.next(ServeEvent::Response { end_stream }).doing is SendResponse
            &&& s.next(ServeEvent::HandlerFailed).doing is Stop
        },
        s.doing == (ServeAction::Handle { hints: false }) ==> s.next(ServeEvent::Hint) == s,
{
}

/// What a failure does: one to send a `100 Continue`, the response, DATA or
/// trailers leaves the stream as it is; and the task is over once the stream is
/// finished, or released by the application.
pub proof fn lemma_failures_stop(s: Serving, ok: bool, upgraded: bool)
    ensures
        s.doing is SendContinue || s.doing is SendData || s.doing is SendTrailers ==> s.next(
            ServeEvent::Sent { ok: false },
        ).doing is Stop,
        s.doing is SendResponse ==> s.next(
            ServeEvent::ResponseSent { ok: false, upgraded },
        ).doing is Stop,
        s.doing is Finish ==> s.next(ServeEvent::Sent { ok }).doing is Stop,
        s.doing is TakeOver ==> s.next(ServeEvent::Released).doing is Stop,
{
}

/// What a task knows of its request and its response stays as it was told: the
/// plan decides who may have the stream, and the response whether it has a body.
pub proof fn lemma_task_keeps_what_it_knows(s: Serving, event: ServeEvent)
    ensures
        s.next(event).upgradable == s.upgradable,
        !(s.doing is Handle && event is Response) ==> s.next(event).end_stream == s.end_stream,
{
}

/// An event that is not about what a task is doing changes nothing.
pub proof fn lemma_other_events_change_nothing(s: Serving, event: ServeEvent)
    requires
        match event {
            ServeEvent::Sent { .. } => !(s.doing is SendContinue || s.doing is SendHints || s.doing
                is SendData || s.doing is SendTrailers || s.doing is Finish),
            ServeEvent::Hint | ServeEvent::HintsClosed => s.doing != (ServeAction::Handle {
                hints: true,
            }),
            ServeEvent::Response { .. } | ServeEvent::HandlerFailed => !(s.doing is Handle),
            ServeEvent::ResponseSent { .. } => !(s.doing is SendResponse),
            ServeEvent::Frame(_) => !(s.doing is NextFrame),
            ServeEvent::Released => !(s.doing is TakeOver),
        },
    ensures
        s.next(event) == s,
{
}

/// `n` requests, each given a task.
pub open spec fn requests(n: nat) -> Seq<ConnectionEvent>
    decreases n,
{
    if n == 0 {
        Seq::empty()
    } else {
        requests((n - 1) as nat).push(ConnectionEvent::Accept(AcceptOutcome::Request)).push(
            ConnectionEvent::Served,
        )
    }
}

/// How often a run of events brings a handler to serving a request.
pub open spec fn served(a: ConnectionAction, events: Seq<ConnectionEvent>) -> nat
    decreases events.len(),
{
    if events.len() == 0 {
        0
    } else {
        let before = a.after(events.drop_last());
        served(a, events.drop_last()) + if !(before is Serve) && a.after(events) is Serve {
            1nat
        } else {
            0nat
        }
    }
}

/// Every request that a handler accepts is served, and then the next one is
/// waited for.
pub proof fn lemma_every_request_is_served(n: nat)
    ensures
        ConnectionAction::Accept.after(requests(n)) is Accept,
        served(ConnectionAction::Accept, requests(n)) == n,
    decreases n,
{
    if n > 0 {
        let less = requests((n - 1) as nat);
        let mid = less.push(ConnectionEvent::Accept(AcceptOutcome::Request));
        let all = mid.push(ConnectionEvent::Served);
        let a = ConnectionAction::Accept;
        lemma_every_request_is_served((n - 1) as nat);
        assert(mid.drop_last() =~= less);
        assert(all.drop_last() =~= mid);
        assert(a.after(mid) == a.after(less).next(mid.last()));
        assert(a.after(all) == a.after(mid).next(all.last()));
        assert(served(a, mid) == n);
        assert(served(a, all) == served(a, mid));
    }
}

/// How often a request arrives while a handler waits for one.
pub open spec fn arrived(a: ConnectionAction, events: Seq<ConnectionEvent>) -> nat
    decreases events.len(),
{
    if events.len() == 0 {
        0
    } else {
        arrived(a, events.drop_last()) + if a.after(events.drop_last()) is Accept && events.last()
            == ConnectionEvent::Accept(AcceptOutcome::Request) {
            1nat
        } else {
            0nat
        }
    }
}

/// Over any run of events, as many requests are served as arrived.
pub proof fn lemma_no_request_is_dropped(a: ConnectionAction, events: Seq<ConnectionEvent>)
    ensures
        served(a, events) == arrived(a, events),
    decreases events.len(),
{
    if events.len() > 0 {
        lemma_no_request_is_dropped(a, events.drop_last());
    }
}

/// How a connection begins and ends: a handshake that is done, and only that,
/// lets requests in. No more requests, or a connection closed without an error,
/// end it cleanly; an error ends it with that error. Being told to stop shuts it
/// down gracefully and waiting too long does not, and both let it drain before
/// they return, unless the shutdown fails with an error.
pub proof fn lemma_connection_life(graceful: bool)
    ensures
        ({
            let h = ConnectionAction::Handshake;
            let a = ConnectionAction::Accept;
            let s = ConnectionAction::Shutdown { graceful };
            let d = ConnectionAction::Drain { graceful };
            let end = |e: HandlerEnd| ConnectionAction::Return(e);
            &&& h.next(ConnectionEvent::Handshake(HandshakeOutcome::Ready)) == a
            &&& h.next(ConnectionEvent::Handshake(HandshakeOutcome::Failed)) == end(
                HandlerEnd::ConnectionError,
            )
            &&& h.next(ConnectionEvent::Handshake(HandshakeOutcome::TimedOut)) == end(
                HandlerEnd::HandshakeTimeout,
            )
            &&& a.next(ConnectionEvent::Accept(AcceptOutcome::Exhausted)) == end(
                HandlerEnd::Finished,
            )
            &&& a.next(ConnectionEvent::Accept(AcceptOutcome::Failed { no_error: true })) == end(
                HandlerEnd::Finished,
            )
            &&& a.next(ConnectionEvent::Accept(AcceptOutcome::Failed { no_error: false })) == end(
                HandlerEnd::ConnectionError,
            )
            &&& a.next(ConnectionEvent::Accept(AcceptOutcome::Cancelled)) == (
            ConnectionAction::Shutdown { graceful: true })
            &&& a.next(ConnectionEvent::Accept(AcceptOutcome::TimedOut)) == (
            ConnectionAction::Shutdown { graceful: false })
            &&& s.next(ConnectionEvent::Shutdown(ShutdownOutcome::Done)) == d
            &&& s.next(ConnectionEvent::Shutdown(ShutdownOutcome::Failed { no_error: true })) == d
            &&& s.next(ConnectionEvent::Shutdown(ShutdownOutcome::Failed { no_error: false }))
                == end(HandlerEnd::ConnectionError)
            &&& d.next(ConnectionEvent::Drained) == end(
                if graceful {
                    HandlerEnd::Finished
                } else {
                    HandlerEnd::AcceptTimeout
                },
            )
        }),
{
}

/// A connection event that is not about what a handler is doing changes nothing.
pub proof fn lemma_other_connection_events(a: ConnectionAction, event: ConnectionEvent)
    requires
        match event {
            ConnectionEvent::Handshake(_) => !(a is Handshake),
            ConnectionEvent::Accept(_) => !(a is Accept),
            ConnectionEvent::Served => !(a is Serve),
            ConnectionEvent::Shutdown(_) => !(a is Shutdown),
            ConnectionEvent::Drained => !(a is Drain),
        },
    ensures
        a.next(event) == a,
{
}

/// A request waits for a `100 Continue` exactly where the first value of its
/// `expect` field, in whatever case, says so.
pub proof fn lemma_expectation(fields: Map<Seq<u8>, Seq<Seq<u8>>>)
    ensures
        ({
            let name = seq![0x65u8, 0x78, 0x70, 0x65, 0x63, 0x74];
            let wanted = seq![
                0x31u8, 0x30, 0x30, 0x2d, 0x63, 0x6f, 0x6e, 0x74, 0x69, 0x6e, 0x75, 0x65,
            ];
            expects_continue(fields) <==> fields.contains_key(name) && fields[name][0].len() == 12
                && forall|i: int|
                0 <= i < 12 ==> (#[trigger] fields[name][0][i] == wanted[i] || (0x41
                    <= fields[name][0][i] <= 0x5a && fields[name][0][i] + 0x20 == wanted[i]))
        }),
{
    let name = seq![0x65u8, 0x78, 0x70, 0x65, 0x63, 0x74];
    let wanted = seq![0x31u8, 0x30, 0x30, 0x2d, 0x63, 0x6f, 0x6e, 0x74, 0x69, 0x6e, 0x75, 0x65];
    reveal_strlit("expect");
    reveal_strlit("100-continue");
    message::lemma_spelled("expect");
    message::lemma_spelled("100-continue");
    assert(message::spelled("expect") =~= name);
    assert(message::spelled("100-continue") =~= wanted);
    if fields.contains_key(name) {
        let v = fields[name][0];
        message::lemma_lower_case(v);
        if v.len() == 12 && forall|i: int|
            0 <= i < 12 ==> (#[trigger] v[i] == wanted[i] || (0x41 <= v[i] <= 0x5a && v[i] + 0x20
                == wanted[i])) {
            assert forall|i: int| 0 <= i < 12 implies message::lower(v)[i] == wanted[i] by {
                assert(v[i] == wanted[i] || (0x41 <= v[i] <= 0x5a && v[i] + 0x20 == wanted[i]));
            }
            assert(message::lower(v) =~= wanted);
        }
        if message::lower(v) == wanted {
            assert forall|i: int| 0 <= i < 12 implies (#[trigger] v[i] == wanted[i] || (0x41 <= v[i]
                <= 0x5a && v[i] + 0x20 == wanted[i])) by {
                assert(message::lower(v)[i] == wanted[i]);
            }
        }
    }
}

/// The five fields that are specific to a connection, and when TE may stay.
pub proof fn lemma_forbidden_fields(name: Seq<u8>, fields: Map<Seq<u8>, Seq<Seq<u8>>>)
    ensures
        connection_specific(name) <==> {
            ||| name == seq![0x6bu8, 0x65, 0x65, 0x70, 0x2d, 0x61, 0x6c, 0x69, 0x76, 0x65]
            ||| name == seq![
                0x70u8, 0x72, 0x6f, 0x78, 0x79, 0x2d, 0x63, 0x6f, 0x6e, 0x6e, 0x65, 0x63, 0x74,
                0x69, 0x6f, 0x6e,
            ]
            ||| name == seq![0x63u8, 0x6f, 0x6e, 0x6e, 0x65, 0x63, 0x74, 0x69, 0x6f, 0x6e]
            ||| name == seq![
                0x74u8, 0x72, 0x61, 0x6e, 0x73, 0x66, 0x65, 0x72, 0x2d, 0x65, 0x6e, 0x63, 0x6f,
                0x64, 0x69, 0x6e, 0x67,
            ]
            ||| name == seq![0x75u8, 0x70, 0x67, 0x72, 0x61, 0x64, 0x65]
        },
        te_allowed(fields) <==> (fields.contains_key(seq![0x74u8, 0x65])
            ==> fields[seq![0x74u8, 0x65]][0] == seq![
            0x74u8, 0x72, 0x61, 0x69, 0x6c, 0x65, 0x72, 0x73,
        ]),
        cleaned(fields).contains_key(seq![0x74u8, 0x65]) <==> fields.contains_key(
            seq![0x74u8, 0x65],
        ) && te_allowed(fields),
{
    reveal_strlit("keep-alive");
    reveal_strlit("proxy-connection");
    reveal_strlit("connection");
    reveal_strlit("transfer-encoding");
    reveal_strlit("upgrade");
    reveal_strlit("te");
    reveal_strlit("trailers");
    message::lemma_spelled("keep-alive");
    message::lemma_spelled("proxy-connection");
    message::lemma_spelled("connection");
    message::lemma_spelled("transfer-encoding");
    message::lemma_spelled("upgrade");
    message::lemma_spelled("te");
    message::lemma_spelled("trailers");
    assert(message::spelled("keep-alive") =~= seq![
        0x6bu8, 0x65, 0x65, 0x70, 0x2d, 0x61, 0x6c, 0x69, 0x76, 0x65,
    ]);
    assert(message::spelled("proxy-connection") =~= seq![
        0x70u8, 0x72, 0x6f, 0x78, 0x79, 0x2d, 0x63, 0x6f, 0x6e, 0x6e, 0x65, 0x63, 0x74, 0x69, 0x6f,
        0x6e,
    ]);
    assert(message::spelled("connection") =~= seq![
        0x63u8, 0x6f, 0x6e, 0x6e, 0x65, 0x63, 0x74, 0x69, 0x6f, 0x6e,
    ]);
    assert(message::spelled("transfer-encoding") =~= seq![
        0x74u8, 0x72, 0x61, 0x6e, 0x73, 0x66, 0x65, 0x72, 0x2d, 0x65, 0x6e, 0x63, 0x6f, 0x64, 0x69,
        0x6e, 0x67,
    ]);
    assert(message::spelled("upgrade") =~= seq![0x75u8, 0x70, 0x67, 0x72, 0x61, 0x64, 0x65]);
    assert(message::spelled("te") =~= seq![0x74u8, 0x65]);
    assert(message::spelled("trailers") =~= seq![
        0x74u8, 0x72, 0x61, 0x69, 0x6c, 0x65, 0x72, 0x73,
    ]);
    lemma_names();
}

/// The number that decimal digits spell.
pub open spec fn digits_value(s: Seq<u8>) -> int
    decreases s.len(),
{
    if s.len() == 0 {
        0
    } else {
        10 * digits_value(s.drop_last()) + (s.last() - 0x30)
    }
}

/// A length is written in decimal digits that spell it, the first of which is not
/// zero unless it is the only one.
pub proof fn lemma_decimal_digits(n: nat)
    ensures
        digits_value(decimal(n)) == n,
        decimal(n).len() > 0,
        forall|i: int| 0 <= i < decimal(n).len() ==> 0x30 <= #[trigger] decimal(n)[i] <= 0x39,
        decimal(n)[0] == 0x30 ==> decimal(n).len() == 1,
    decreases n,
{
    if n >= 10 {
        lemma_decimal_digits(n / 10);
        assert(decimal(n).drop_last() =~= decimal(n / 10));
        assert(decimal(n)[0] == decimal(n / 10)[0]);
        if decimal(n)[0] == 0x30 {
            assert(decimal(n / 10) =~= seq![decimal(n / 10)[0]]);
            assert(digits_value(decimal(n / 10)) == 0) by {
                assert(decimal(n / 10).drop_last() =~= Seq::empty());
                assert(digits_value(Seq::<u8>::empty()) == 0);
            }
        }
    } else {
        assert(decimal(n).drop_last() =~= Seq::empty());
        assert(digits_value(Seq::<u8>::empty()) == 0);
    }
}

/// The names of the fields that a handler adds, octet by octet.
pub open spec fn date_name() -> Seq<u8> {
    seq![0x64u8, 0x61, 0x74, 0x65]
}

pub open spec fn content_length_name() -> Seq<u8> {
    seq![
        0x63u8, 0x6f, 0x6e, 0x74, 0x65, 0x6e, 0x74, 0x2d, 0x6c, 0x65, 0x6e, 0x67, 0x74, 0x68,
    ]
}

/// A response is sent with what the application gave it and what is added, each
/// with all of its values, and with nothing else. Added are the date, where one
/// is at hand, and the length of the body, where a body follows whose length is
/// known; and neither where the application gave its own.
pub proof fn lemma_response_is_complete(
    fields: Map<Seq<u8>, Seq<Seq<u8>>>,
    date: Option<Seq<u8>>,
    end_stream: bool,
    body_length: Option<u64>,
    name: Seq<u8>,
)
    ensures
        ({
            let sent = response_fields(fields, date, end_stream, body_length);
            &&& fields.contains_key(name) && !connection_specific(name) && name != seq![
                0x74u8, 0x65,
            ] ==> sent.contains_key(name) && sent[name] == fields[name]
            &&& sent.contains_key(name) && !fields.contains_key(name) ==> {
                ||| name == date_name() && date is Some && sent[name] == seq![date.unwrap()]
                ||| {
                    &&& name == content_length_name()
                    &&& !end_stream
                    &&& body_length is Some
                    &&& sent[name].len() == 1
                    &&& digits_value(sent[name][0]) == body_length.unwrap()
                }
            }
            &&& sent.contains_key(name) && fields.contains_key(name) ==> sent[name] == fields[name]
            &&& date is Some ==> sent.contains_key(date_name())
            &&& !end_stream && body_length is Some ==> sent.contains_key(content_length_name())
        }),
{
    reveal_strlit("date");
    reveal_strlit("content-length");
    reveal_strlit("te");
    message::lemma_spelled("date");
    message::lemma_spelled("content-length");
    message::lemma_spelled("te");
    assert(message::spelled("date") =~= date_name());
    assert(message::spelled("content-length") =~= content_length_name());
    assert(message::spelled("te") =~= seq![0x74u8, 0x65]);
    lemma_names();
    if body_length is Some {
        lemma_decimal_digits(body_length.unwrap() as nat);
    }
}

} // verus!
