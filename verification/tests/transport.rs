//! The transport traits as trait objects.

use bytes::Bytes;
use futures_util::task::noop_waker_ref;
use std::task::{Context, Poll};
use vibeio_http::h3::transport::{
    control_stream_id, map_connection_error, map_read_error, map_write_error, BidiStream,
    ConnectionFailure, ReadFailure, RecvStream, SendStage, SendStream, UniStream, WriteFailure,
};
use vibeio_http::h3::TransportError;


fn cx() -> Context<'static> {
    Context::from_waker(noop_waker_ref())
}

/// Minimal mock streams proving the traits are object-safe and usable
/// through `Box<dyn ...>` the way the connection driver consumes them.
struct Mock {
    data: Option<Bytes>,
}

impl RecvStream for Mock {
    fn poll_recv(
        &mut self,
        _cx: &mut Context<'_>,
    ) -> Poll<Result<Option<Bytes>, TransportError>> {
        Poll::Ready(Ok(self.data.take()))
    }

    fn id(&self) -> u64 {
        0
    }
}

impl SendStream for Mock {
    fn poll_send(
        &mut self,
        _cx: &mut Context<'_>,
        _data: &[u8],
    ) -> Poll<Result<(), TransportError>> {
        Poll::Ready(Ok(()))
    }

    fn poll_finish(&mut self, _cx: &mut Context<'_>) -> Poll<Result<(), TransportError>> {
        Poll::Ready(Ok(()))
    }

    fn poll_reset(
        &mut self,
        _cx: &mut Context<'_>,
        _code: u64,
    ) -> Poll<Result<(), TransportError>> {
        Poll::Ready(Ok(()))
    }

    fn poll_stop_sending(
        &mut self,
        _cx: &mut Context<'_>,
        _code: u64,
    ) -> Poll<Result<(), TransportError>> {
        Poll::Ready(Ok(()))
    }
}

impl BidiStream for Mock {}
impl UniStream for Mock {}

#[test]
fn bidi_stream_object_drains() {
    let mut stream: Box<dyn BidiStream> = Box::new(Mock {
        data: Some(Bytes::from_static(b"hi")),
    });
    let mut cx = cx();
    assert_eq!(
        stream.poll_recv(&mut cx),
        Poll::Ready(Ok(Some(Bytes::from_static(b"hi"))))
    );
    assert_eq!(stream.poll_recv(&mut cx), Poll::Ready(Ok(None)));
    assert!(stream.poll_send(&mut cx, b"x").is_ready());
    assert!(stream.poll_finish(&mut cx).is_ready());
    assert!(stream.poll_reset(&mut cx, 0x10c).is_ready());
    assert!(stream.poll_stop_sending(&mut cx, 0x10c).is_ready());
}

#[test]
fn uni_stream_object_drains() {
    let mut stream: Box<dyn UniStream> = Box::new(Mock { data: None });
    let mut cx = cx();
    assert_eq!(stream.poll_recv(&mut cx), Poll::Ready(Ok(None)));
    assert!(stream.poll_send(&mut cx, b"y").is_ready());
    assert!(stream.poll_finish(&mut cx).is_ready());
}

#[test]
fn failures_map_to_transport_errors() {
    assert_eq!(
        map_connection_error(ConnectionFailure::ApplicationClosed(0x0100)),
        TransportError::Closed { code: 0x0100 }
    );
    assert_eq!(
        map_connection_error(ConnectionFailure::TimedOut),
        TransportError::Timeout
    );
    assert_eq!(
        map_read_error(ReadFailure::Reset(0x010c)),
        TransportError::Reset { code: 0x010c }
    );
    assert_eq!(
        map_read_error(ReadFailure::ConnectionLost(ConnectionFailure::Lost)),
        TransportError::Transport
    );
    assert_eq!(
        map_read_error(ReadFailure::ClosedStream),
        TransportError::Closed { code: 0 }
    );
    assert_eq!(
        map_read_error(ReadFailure::IllegalOrderedRead),
        TransportError::Transport
    );
    assert_eq!(
        map_read_error(ReadFailure::ZeroRttRejected),
        TransportError::Transport
    );
    assert_eq!(
        map_write_error(WriteFailure::Stopped(0x010c)),
        TransportError::Stopped { code: 0x010c }
    );
    assert_eq!(
        map_write_error(WriteFailure::ConnectionLost(ConnectionFailure::TimedOut)),
        TransportError::Timeout
    );
    assert_eq!(
        map_write_error(WriteFailure::ClosedStream),
        TransportError::Closed { code: 0 }
    );
    assert_eq!(
        map_write_error(WriteFailure::ZeroRttRejected),
        TransportError::Transport
    );
}

#[test]
fn control_stream_ids_have_the_initiator_in_them() {
    assert_eq!(control_stream_id(false), 2);
    assert_eq!(control_stream_id(true), 3);
}

#[test]
fn stalled_slice_is_staged_once() {
    let mut stage = SendStage::new();
    stage.offer(0x1000, b"abcdef");
    assert!(!stage.is_flushed());
    stage.took(2);
    stage.offer(0x1000, b"abcdef");
    assert_eq!(stage.pending(), b"cdef");
    stage.offer(0x2000, b"gh");
    assert_eq!(stage.pending(), b"cdefgh");
    stage.took(6);
    assert_eq!(stage.len(), 0);
    assert!(stage.is_flushed());
    // Once it is through, the same slice is a fresh one.
    stage.offer(0x2000, b"gh");
    assert_eq!(stage.pending(), b"gh");
}
