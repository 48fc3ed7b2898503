//! QUIC transport abstraction for the HTTP/3 implementation.
//!
//! The HTTP/3 layer (RFC 9114) is written against these traits instead of a
//! concrete QUIC stack, so any QUIC implementation can be adapted. The shape
//! mirrors the `h3` crate's `quic` module so adapters are mechanical: polling
//! only, `Unpin`, fallible operations returning [`TransportError`].
//!
//! What an adapter decides by itself is here too: which [`TransportError`] a
//! failure of the QUIC stack is, and what a send half has to hold back while the
//! stack takes a write piece by piece ([`SendStage`]).
//!
//! Error mapping follows RFC 9114 Section 8.1 semantics: application close codes
//! and stream errors carry their wire `u64` codes, everything else degenerates
//! to [`TransportError::Transport`].

use super::error::TransportError;
use crate::octets;
use crate::octets::{advance, as_slice_mut};
use bytes::{Bytes, BytesMut};
use std::task::{Context, Poll};
use vstd::prelude::*;

verus! {

/// [`std::task::Context`].
#[verifier::external_type_specification]
#[verifier::external_body]
pub struct ExContext<'a>(std::task::Context<'a>);

/// [`std::task::Poll`].
#[verifier::external_type_specification]
#[verifier::external_body]
#[verifier::reject_recursive_types(T)]
pub struct ExPoll<T>(std::task::Poll<T>);

/// The receive half of a QUIC stream.
///
/// Polls for the next chunk of received bytes; the stream is finished when
/// `Ok(None)` is returned (the peer closed its sending side with `FIN`). A
/// `TransportError::Reset` is returned when the peer resets the stream instead.
pub trait RecvStream: Unpin {
    /// Polls for the next chunk of data on the stream.
    fn poll_recv(&mut self, cx: &mut Context<'_>) -> Poll<Result<Option<Bytes>, TransportError>>;

    /// The QUIC stream ID.
    fn id(&self) -> u64;
}

/// The send half of a QUIC stream.
pub trait SendStream: Unpin {
    /// Polls to send `data` on the stream, consuming it entirely.
    ///
    /// `Poll::Pending` means the stream's flow-control window is exhausted; the
    /// caller must poll again later. A `TransportError::Stopped` is returned
    /// when the peer sends `STOP_SENDING`.
    fn poll_send(&mut self, cx: &mut Context<'_>, data: &[u8]) -> Poll<Result<(), TransportError>>;

    /// Polls to finish the sending side of the stream (`FIN`). The peer then
    /// observes `Ok(None)` from its receive side when all data is delivered.
    fn poll_finish(&mut self, cx: &mut Context<'_>) -> Poll<Result<(), TransportError>>;

    /// Polls to reset the sending side of the stream with an application error
    /// `code` (RFC 9114 error codes), discarding buffered data.
    fn poll_reset(&mut self, cx: &mut Context<'_>, code: u64) -> Poll<Result<(), TransportError>>;

    /// Polls to stop the peer from sending on the stream (`STOP_SENDING`) with
    /// an application error `code`.
    fn poll_stop_sending(&mut self, cx: &mut Context<'_>, code: u64) -> Poll<
        Result<(), TransportError>,
    >;
}

/// A bidirectional QUIC stream: an HTTP/3 request stream.
pub trait BidiStream: RecvStream + SendStream {

}

/// A unidirectional QUIC stream: the control stream, the QPACK encoder and
/// decoder streams, and any extension stream types.
pub trait UniStream: RecvStream + SendStream {

}

/// How a QUIC stack lost a connection.
#[derive(Debug, Clone, Copy, PartialEq, Eq, Structural)]
pub enum ConnectionFailure {
    /// The peer's application closed it with this code.
    ApplicationClosed(u64),
    /// It timed out.
    TimedOut,
    /// Any other way, which carries no application error code.
    Lost,
}

/// How a QUIC stack failed to read from a stream.
#[derive(Debug, Clone, Copy, PartialEq, Eq, Structural)]
pub enum ReadFailure {
    /// The peer reset the stream with this code.
    Reset(u64),
    /// The connection was lost.
    ConnectionLost(ConnectionFailure),
    /// The stream was stopped, finished, or reset before any read.
    ClosedStream,
    /// An ordered read behind an unordered one.
    IllegalOrderedRead,
    /// The stream was opened early, and the peer rejected that.
    ZeroRttRejected,
}

/// How a QUIC stack failed to write to a stream.
#[derive(Debug, Clone, Copy, PartialEq, Eq, Structural)]
pub enum WriteFailure {
    /// The peer stopped the stream with this code.
    Stopped(u64),
    /// The connection was lost.
    ConnectionLost(ConnectionFailure),
    /// The stream was finished or reset locally before the write.
    ClosedStream,
    /// The stream was opened early, and the peer rejected that.
    ZeroRttRejected,
}

/// The error that [`map_connection_error`] returns.
pub open spec fn connection_error(err: ConnectionFailure) -> TransportError {
    match err {
        ConnectionFailure::ApplicationClosed(code) => TransportError::Closed { code },
        ConnectionFailure::TimedOut => TransportError::Timeout,
        ConnectionFailure::Lost => TransportError::Transport,
    }
}

/// The transport error that a lost connection is.
pub fn map_connection_error(err: ConnectionFailure) -> (r: TransportError)
    ensures
        r == connection_error(err),
{
    match err {
        ConnectionFailure::ApplicationClosed(code) => TransportError::Closed { code },
        ConnectionFailure::TimedOut => TransportError::Timeout,
        ConnectionFailure::Lost => TransportError::Transport,
    }
}

/// The transport error that a failed read is.
pub fn map_read_error(err: ReadFailure) -> (r: TransportError)
    ensures
        r == match err {
            ReadFailure::Reset(code) => TransportError::Reset { code },
            ReadFailure::ConnectionLost(lost) => connection_error(lost),
            ReadFailure::ClosedStream => TransportError::Closed { code: 0 },
            ReadFailure::IllegalOrderedRead
            | ReadFailure::ZeroRttRejected => TransportError::Transport,
        },
{
    match err {
        ReadFailure::Reset(code) => TransportError::Reset { code },
        ReadFailure::ConnectionLost(lost) => map_connection_error(lost),
        ReadFailure::ClosedStream => TransportError::Closed { code: 0 },
        ReadFailure::IllegalOrderedRead => TransportError::Transport,
        ReadFailure::ZeroRttRejected => TransportError::Transport,
    }
}

/// The transport error that a failed write is.
pub fn map_write_error(err: WriteFailure) -> (r: TransportError)
    ensures
        r == match err {
            WriteFailure::Stopped(code) => TransportError::Stopped { code },
            WriteFailure::ConnectionLost(lost) => connection_error(lost),
            WriteFailure::ClosedStream => TransportError::Closed { code: 0 },
            WriteFailure::ZeroRttRejected => TransportError::Transport,
        },
{
    match err {
        WriteFailure::Stopped(code) => TransportError::Stopped { code },
        WriteFailure::ConnectionLost(lost) => map_connection_error(lost),
        WriteFailure::ClosedStream => TransportError::Closed { code: 0 },
        WriteFailure::ZeroRttRejected => TransportError::Transport,
    }
}

/// The stream ID of an endpoint's control stream: the first unidirectional
/// stream that it initiates.
///
/// RFC 9000 Section 2.1: the least significant bits encode the initiator and
/// directionality; the first client-initiated unidirectional stream is 2, the
/// first server-initiated one is 3.
pub fn control_stream_id(server: bool) -> (r: u64)
    ensures
        r == if server {
            3u64
        } else {
            2u64
        },
{
    if server {
        3
    } else {
        2
    }
}

/// What a send half holds back.
#[verifier::ext_equal]
pub struct StageState {
    pub buf: Seq<u8>,
    /// The address and the length of the slice that is still, in part, in
    /// `buf`.
    pub in_flight: Option<(usize, usize)>,
}

impl StageState {
    /// The state once the slice of `data` at the address `at` was offered. Only
    /// a fresh slice is buffered.
    pub open spec fn offered(self, at: usize, data: Seq<u8>) -> StageState {
        if data.len() == 0 || self.in_flight == Some((at, data.len() as usize)) {
            self
        } else {
            StageState {
                buf: self.buf + data,
                in_flight: Some((at, data.len() as usize)),
            }
        }
    }

    /// The state once the transport took `n` octets.
    pub open spec fn taken(self, n: nat) -> StageState {
        StageState { buf: self.buf.skip(n as int), ..self }
    }
}

/// What a send half holds back: bytes queued for transmission but not yet
/// consumed by the transport, which may only accept a prefix before the
/// stream's flow-control window is exhausted.
///
/// Callers re-pass the same slice on every re-poll after a flow-control stall
/// (their own queues keep the unsent bytes and are only popped once it is
/// through). So the address and the length of the slice that is still buffered
/// are kept: without them each re-poll would append the same bytes again.
#[derive(Debug)]
pub struct SendStage {
    buf: BytesMut,
    in_flight: Option<(usize, usize)>,
}

impl View for SendStage {
    type V = StageState;

    closed spec fn view(&self) -> StageState {
        StageState { buf: octets::buffered(self.buf), in_flight: self.in_flight }
    }
}

impl Default for SendStage {
    fn default() -> (r: Self)
        ensures
            r@ == (StageState { buf: Seq::empty(), in_flight: None }),
    {
        SendStage { buf: BytesMut::new(), in_flight: None }
    }
}

impl SendStage {
    /// Nothing is held back.
    pub fn new() -> (r: Self)
        ensures
            r@ == (StageState { buf: Seq::empty(), in_flight: None }),
    {
        SendStage { buf: BytesMut::new(), in_flight: None }
    }

    /// Buffers `data`, a slice at the address `at`, unless it is the one that is
    /// in flight.
    pub fn offer(&mut self, at: usize, data: &[u8])
        requires
            old(self)@.buf.len() + data@.len() <= usize::MAX,
        ensures
            final(self)@ == old(self)@.offered(at, data@),
    {
        let len: usize = data.len();
        let fresh: bool = match self.in_flight {
            Some((a, n)) => a != at || n != len,
            None => true,
        };
        if len > 0 && fresh {
            self.buf.extend_from_slice(data);
            self.in_flight = Some((at, len));
        }
    }

    /// How much is held back.
    pub fn len(&self) -> (r: usize)
        ensures
            r == self@.buf.len(),
    {
        self.buf.len()
    }

    /// Whether nothing is held back. Then no slice is in flight any more.
    pub fn is_flushed(&mut self) -> (r: bool)
        ensures
            r == (old(self)@.buf.len() == 0),
            final(self)@ == if r {
                StageState { in_flight: None, ..old(self)@ }
            } else {
                old(self)@
            },
    {
        if self.buf.len() == 0 {
            self.in_flight = None;
            true
        } else {
            false
        }
    }

    /// What to write next.
    pub fn pending(&self) -> (r: &[u8])
        ensures
            r@ == self@.buf,
    {
        as_slice_mut(&self.buf)
    }

    /// The transport took the first `n` octets.
    pub fn took(&mut self, n: usize)
        requires
            n <= old(self)@.buf.len(),
        ensures
            final(self)@ == old(self)@.taken(n as nat),
    {
        advance(&mut self.buf, n);
    }
}

/// A slice that is offered again while it is in flight is not sent twice: with
/// `n` of its octets taken in between, what is left to write is what was left
/// before it was offered again.
pub proof fn lemma_no_duplicate_octets(s: StageState, at: usize, data: Seq<u8>, n: nat)
    requires
        0 < data.len() <= usize::MAX,
        n <= s.offered(at, data).buf.len(),
    ensures
        ({
            let stalled = s.offered(at, data).taken(n);
            stalled.offered(at, data) == stalled
        }),
{
}

/// What a lost connection is: closed with the peer's code, timed out, or lost.
pub proof fn lemma_lost_connections(code: u64)
    ensures
        connection_error(ConnectionFailure::ApplicationClosed(code)) == (TransportError::Closed {
            code,
        }),
        connection_error(ConnectionFailure::TimedOut) == TransportError::Timeout,
        connection_error(ConnectionFailure::Lost) == TransportError::Transport,
{
}

/// Every octet that is offered is written once and in order: a slice that is not in
/// flight joins what is to be written, all of it; an empty one changes nothing; and
/// what the transport takes is taken off the front, and nothing else.
pub proof fn lemma_every_octet_is_staged(s: StageState, at: usize, data: Seq<u8>, n: nat)
    requires
        data.len() <= usize::MAX,
        n <= s.buf.len(),
    ensures
        data.len() > 0 && s.in_flight != Some((at, data.len() as usize)) ==> s.offered(at, data).buf
            == s.buf + data && s.offered(at, data).in_flight == Some((at, data.len() as usize)),
        data.len() == 0 || s.in_flight == Some((at, data.len() as usize)) ==> s.offered(at, data)
            == s,
        s.buf.take(n as int) + s.taken(n).buf == s.buf,
        s.taken(n).in_flight == s.in_flight,
{
    assert(s.buf.take(n as int) + s.taken(n).buf =~= s.buf);
}

} // verus!
