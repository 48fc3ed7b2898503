//! Request streams, driven over in-memory streams.

use bytes::{Bytes, BytesMut};
use std::cell::RefCell;
use std::collections::VecDeque;
use std::rc::Rc;
use std::task::Poll;
use vibeio_http::h3::codecs::SharedCodecs;
use vibeio_http::h3::frame::{
    write_varint, Frame, FrameDecoder, Settings as FrameSettings, SETTINGS_MAX_FIELD_SECTION_SIZE,
    SETTINGS_QPACK_MAX_TABLE_CAPACITY,
};
use vibeio_http::h3::message::RequestHead;
use vibeio_http::h3::qpack::{Encoder, QpackError};
use vibeio_http::h3::settings::{LocalSettings, PeerSettings};
use vibeio_http::h3::stream::{
    Polled, Received, RequestStream, SendStep, StreamError, WRITE_INLINE_LIMIT,
};
use vibeio_http::h3::{H3Error, TransportError};

type Codecs = Rc<RefCell<SharedCodecs>>;
type Fields = Vec<(Bytes, Bytes)>;

/// In-memory bidirectional stream for a request exchange. An empty inbound
/// queue reads as nothing; a `None` marker means the peer finished the stream.
struct MockBidi {
    inbound: VecDeque<Option<Bytes>>,
    outbound: Vec<Bytes>,
    id: u64,
    /// How many writes the flow-control window still takes.
    window: usize,
    finished: bool,
}

impl MockBidi {
    fn new(id: u64) -> Self {
        Self {
            inbound: VecDeque::new(),
            outbound: Vec::new(),
            id,
            window: usize::MAX,
            finished: false,
        }
    }

    fn feed(&mut self, bytes: &[u8]) {
        self.inbound.push_back(Some(Bytes::copy_from_slice(bytes)));
    }

    fn finish(&mut self) {
        self.inbound.push_back(None);
    }

    fn poll_recv(&mut self) -> Poll<Received> {
        match self.inbound.pop_front() {
            Some(Some(chunk)) => Poll::Ready(Received::Chunk(chunk)),
            Some(None) => Poll::Ready(Received::End),
            None => Poll::Pending,
        }
    }

    fn poll_send(&mut self, data: Bytes) -> Poll<()> {
        if self.window == 0 {
            return Poll::Pending;
        }
        self.window -= 1;
        self.outbound.push(data);
        Poll::Ready(())
    }
}

/// A request stream on an in-memory transport.
struct Request {
    stream: RequestStream,
    bidi: MockBidi,
    codecs: Codecs,
}

impl Request {
    fn new(bidi: MockBidi, codecs: Codecs) -> Self {
        Self {
            stream: RequestStream::new(bidi.id),
            bidi,
            codecs,
        }
    }

    fn poll_receiving<T>(
        &mut self,
        mut poll: impl FnMut(
            &mut RequestStream,
            &mut SharedCodecs,
            Received,
        ) -> Result<Polled<T>, StreamError>,
    ) -> Poll<Result<T, StreamError>> {
        let mut received = Received::Nothing;
        loop {
            assert!(self.stream.accepts(&received));
            match poll(&mut self.stream, &mut self.codecs.borrow_mut(), received) {
                Err(err) => return Poll::Ready(Err(err)),
                Ok(Polled::Ready(value)) => return Poll::Ready(Ok(value)),
                Ok(Polled::Parked) | Ok(Polled::Pending) => return Poll::Pending,
                Ok(Polled::Receive) => match self.bidi.poll_recv() {
                    Poll::Ready(next) => received = next,
                    Poll::Pending => return Poll::Pending,
                },
            }
        }
    }

    fn poll_headers(&mut self) -> Poll<Result<Option<RequestHead>, StreamError>> {
        self.poll_receiving(|stream, codecs, received| stream.poll_headers(codecs, received, 0))
    }

    fn poll_recv_data(&mut self) -> Poll<Result<Option<Bytes>, StreamError>> {
        self.poll_receiving(|stream, codecs, received| stream.poll_recv_data(codecs, received, 0))
    }

    fn poll_recv_trailers(&mut self) -> Poll<Result<Option<Fields>, StreamError>> {
        self.poll_receiving(|stream, codecs, received| {
            stream.poll_recv_trailers(codecs, received, 0)
        })
    }

    fn poll_sending(
        &mut self,
        mut poll: impl FnMut(
            &mut RequestStream,
            &mut SharedCodecs,
            bool,
        ) -> Result<SendStep, StreamError>,
    ) -> Poll<Result<(), StreamError>> {
        let mut written = false;
        loop {
            match poll(&mut self.stream, &mut self.codecs.borrow_mut(), written) {
                Err(err) => return Poll::Ready(Err(err)),
                Ok(SendStep::Done) => return Poll::Ready(Ok(())),
                Ok(SendStep::Write(bytes)) => match self.bidi.poll_send(bytes) {
                    Poll::Ready(()) => written = true,
                    Poll::Pending => return Poll::Pending,
                },
            }
        }
    }

    fn poll_send_response(
        &mut self,
        status: u16,
        headers: &Fields,
    ) -> Poll<Result<(), StreamError>> {
        self.poll_sending(|stream, codecs, written| {
            assert!(codecs.can_encode(headers.len() + 1));
            stream.poll_send_response(codecs, status, headers, written)
        })
    }

    fn poll_send_data(&mut self, data: Bytes) -> Poll<Result<(), StreamError>> {
        self.poll_sending(|stream, _, written| stream.poll_send_data(data.clone(), written))
    }

    fn poll_send_trailers(&mut self, trailers: &Fields) -> Poll<Result<(), StreamError>> {
        self.poll_sending(|stream, codecs, written| {
            assert!(codecs.can_encode(trailers.len()));
            stream.poll_send_trailers(codecs, trailers, written)
        })
    }

    fn poll_finish(&mut self) -> Poll<Result<(), StreamError>> {
        let mut written = false;
        while let Some(bytes) = self.stream.poll_finish(written) {
            if self.bidi.poll_send(bytes).is_pending() {
                return Poll::Pending;
            }
            written = true;
        }
        self.bidi.finished = true;
        Poll::Ready(Ok(()))
    }

    /// Everything written so far.
    fn sent(&self) -> Bytes {
        let mut joined = BytesMut::new();
        for chunk in &self.bidi.outbound {
            joined.extend_from_slice(chunk);
        }
        joined.freeze()
    }
}

fn local_settings() -> LocalSettings {
    LocalSettings {
        qpack_max_table_capacity: 4096,
        qpack_blocked_streams: 16,
        ..LocalSettings::default()
    }
}

/// Codecs whose encoder is already usable (the peer's SETTINGS arrived).
fn shared_with(capacity: u64, limit: Option<u64>) -> Codecs {
    let mut frame = FrameSettings::new();
    frame.insert(SETTINGS_QPACK_MAX_TABLE_CAPACITY, capacity);
    if let Some(limit) = limit {
        frame.insert(SETTINGS_MAX_FIELD_SECTION_SIZE, limit);
    }
    let mut peer = PeerSettings::default();
    peer.apply(&frame);
    let mut shared = SharedCodecs::new(&local_settings());
    shared.settle(&peer);
    Rc::new(RefCell::new(shared))
}

fn shared_with_encoder() -> Codecs {
    shared_with(4096, None)
}

/// Returns the encoder for hand-encoding wire blocks, plus the shared codecs.
fn shared_and_peer_encoder() -> (Codecs, Encoder) {
    (shared_with_encoder(), Encoder::new(4096, true))
}

fn hdr(name: &str, value: &str) -> (Bytes, Bytes) {
    (
        Bytes::copy_from_slice(name.as_bytes()),
        Bytes::copy_from_slice(value.as_bytes()),
    )
}

/// The value of the field with that name.
fn field<'a>(fields: &'a Fields, name: &str) -> Option<&'a str> {
    fields
        .iter()
        .find(|(n, _)| &n[..] == name.as_bytes())
        .map(|(_, v)| std::str::from_utf8(v).unwrap())
}

fn uri_of(head: &RequestHead) -> http::Uri {
    head.uri.parse().expect("a URI")
}

fn request_lines(method: &str, path: &str) -> Fields {
    vec![
        hdr(":method", method),
        hdr(":scheme", "https"),
        hdr(":authority", "example.com"),
        hdr(":path", path),
    ]
}

#[test]
fn full_request_exchange() {
    let (shared, mut enc) = shared_and_peer_encoder();
    let mut wire = BytesMut::new();
    let section = enc.encode_section(0, &request_lines("POST", "/submit"));
    shared.borrow_mut().feed_encoder_stream(&section.encoder_stream)
        .expect("valid");
    Frame::Headers(section.block).encode(&mut wire);
    Frame::Data(Bytes::from_static(b"hello")).encode(&mut wire);
    let body2 = Bytes::from_static(b"world");
    Frame::Data(body2).encode(&mut wire);
    let section = enc.encode_section(
        0,
        &[(
            Bytes::from_static(b"x-checksum"),
            Bytes::from_static(b"sum"),
        )],
    );
    shared.borrow_mut().feed_encoder_stream(&section.encoder_stream)
        .expect("valid");
    Frame::Headers(section.block).encode(&mut wire);

    let mut stream = MockBidi::new(11);
    stream.feed(&wire);
    stream.finish();
    let mut request = Request::new(stream, shared.clone());

    let req = match request.poll_headers() {
        Poll::Ready(Ok(Some(request))) => request,
        other => panic!("expected request, got {other:?}"),
    };
    assert_eq!(&req.method[..], b"POST");
    assert_eq!(uri_of(&req).path(), "/submit");
    assert_eq!(uri_of(&req).scheme_str(), Some("https"));
    assert_eq!(
        uri_of(&req).authority().map(|a| a.as_str()),
        Some("example.com")
    );

    assert_eq!(
        request.poll_recv_data(),
        Poll::Ready(Ok(Some(Bytes::from_static(b"hello"))))
    );
    assert_eq!(
        request.poll_recv_data(),
        Poll::Ready(Ok(Some(Bytes::from_static(b"world"))))
    );
    assert_eq!(request.poll_recv_data(), Poll::Ready(Ok(None)));

    let trailers = match request.poll_recv_trailers() {
        Poll::Ready(Ok(Some(trailers))) => trailers,
        other => panic!("expected trailers, got {other:?}"),
    };
    assert_eq!(
        field(&trailers, "x-checksum"),
        Some("sum")
    );
}

#[test]
fn request_without_body_is_finished_by_fin() {
    let (shared, mut enc) = shared_and_peer_encoder();
    let mut wire = BytesMut::new();
    let section = enc.encode_section(0, &request_lines("GET", "/index"));
    shared.borrow_mut().feed_encoder_stream(&section.encoder_stream)
        .expect("valid");
    Frame::Headers(section.block).encode(&mut wire);

    let mut stream = MockBidi::new(13);
    stream.feed(&wire);
    stream.finish();
    let mut request = Request::new(stream, shared);

    let req = match request.poll_headers() {
        Poll::Ready(Ok(Some(request))) => request,
        other => panic!("expected request, got {other:?}"),
    };
    assert_eq!(&req.method[..], b"GET");
    assert_eq!(request.poll_recv_data(), Poll::Ready(Ok(None)));
}

#[test]
fn data_before_headers_is_frame_unexpected() {
    let shared = shared_with_encoder();
    let mut wire = BytesMut::new();
    Frame::Data(Bytes::from_static(b"x")).encode(&mut wire);
    let mut stream = MockBidi::new(15);
    stream.feed(&wire);
    let mut request = Request::new(stream, shared);

    let result = request.poll_headers();
    assert!(matches!(
        result,
        Poll::Ready(Err(StreamError::FrameUnexpected))
    ));
    // The error is not cached as a completion: a re-poll waits for more
    // input.
    assert!(request.poll_headers().is_pending());
}

#[test]
fn control_frames_on_request_stream_are_frame_unexpected() {
    for frame in [
        Frame::Settings(FrameSettings::new()),
        Frame::Goaway(0),
        Frame::MaxPushId(3),
        Frame::CancelPush(0),
    ] {
        let shared = shared_with_encoder();
        let mut wire = BytesMut::new();
        frame.encode(&mut wire);
        let mut stream = MockBidi::new(17);
        stream.feed(&wire);
        let mut request = Request::new(stream, shared.clone());
            let result = request.poll_headers();
        assert!(
            matches!(result, Poll::Ready(Err(StreamError::FrameUnexpected))),
            "{frame:?}: {result:?}"
        );
    }
}

#[test]
fn truncated_frame_is_frame_error() {
    let shared = shared_with_encoder();
    let mut stream = MockBidi::new(19);
    // HEADERS frame with length 5 but no payload.
    stream.feed(&[0x01, 0x05]);
    stream.finish();
    let mut request = Request::new(stream, shared);

    let result = request.poll_headers();
    assert!(matches!(result, Poll::Ready(Err(StreamError::Frame))));
    // The truncated frame is still buffered: a re-poll waits rather
    // than fabricating a request.
    assert!(request.poll_headers().is_pending());
}

#[test]
fn empty_body_with_trailers() {
    let (shared, mut enc) = shared_and_peer_encoder();
    let mut wire = BytesMut::new();
    let section = enc.encode_section(0, &request_lines("PUT", "/x"));
    shared.borrow_mut().feed_encoder_stream(&section.encoder_stream)
        .expect("valid");
    Frame::Headers(section.block).encode(&mut wire);
    let section = enc.encode_section(0, &[(Bytes::from_static(b"x-a"), Bytes::from_static(b"1"))]);
    shared.borrow_mut().feed_encoder_stream(&section.encoder_stream)
        .expect("valid");
    Frame::Headers(section.block).encode(&mut wire);
    let mut stream = MockBidi::new(21);
    stream.feed(&wire);
    stream.finish();
    let mut request = Request::new(stream, shared);

    assert!(request.poll_headers().is_ready());
    assert_eq!(request.poll_recv_data(), Poll::Ready(Ok(None)));
    let trailers = match request.poll_recv_trailers() {
        Poll::Ready(Ok(Some(trailers))) => trailers,
        other => panic!("expected trailers, got {other:?}"),
    };
    assert_eq!(field(&trailers, "x-a"), Some("1"));
}

#[test]
fn trailers_with_pseudo_headers_are_message_error() {
    let (shared, mut enc) = shared_and_peer_encoder();
    let mut wire = BytesMut::new();
    let section = enc.encode_section(0, &request_lines("GET", "/x"));
    shared.borrow_mut().feed_encoder_stream(&section.encoder_stream)
        .expect("valid");
    Frame::Headers(section.block).encode(&mut wire);
    let section = enc.encode_section(
        0,
        &[(Bytes::from_static(b":status"), Bytes::from_static(b"200"))],
    );
    shared.borrow_mut().feed_encoder_stream(&section.encoder_stream)
        .expect("valid");
    Frame::Headers(section.block).encode(&mut wire);
    let mut stream = MockBidi::new(23);
    stream.feed(&wire);
    stream.finish();
    let mut request = Request::new(stream, shared);

    assert!(request.poll_headers().is_ready());
    assert_eq!(request.poll_recv_data(), Poll::Ready(Ok(None)));
    let result = request.poll_recv_trailers();
    assert!(matches!(result, Poll::Ready(Err(StreamError::Message))));
}

#[test]
fn known_frame_after_trailers_is_frame_unexpected() {
    let (shared, mut enc) = shared_and_peer_encoder();
    let mut wire = BytesMut::new();
    let section = enc.encode_section(0, &request_lines("GET", "/x"));
    shared.borrow_mut().feed_encoder_stream(&section.encoder_stream)
        .expect("valid");
    Frame::Headers(section.block).encode(&mut wire);
    let section = enc.encode_section(0, &[]);
    shared.borrow_mut().feed_encoder_stream(&section.encoder_stream)
        .expect("valid");
    Frame::Headers(section.block).encode(&mut wire);
    // A DATA frame after the trailers is invalid.
    Frame::Data(Bytes::from_static(b"late")).encode(&mut wire);
    let mut stream = MockBidi::new(25);
    stream.feed(&wire);
    stream.finish();
    let mut request = Request::new(stream, shared);

    assert!(request.poll_headers().is_ready());
    assert_eq!(request.poll_recv_data(), Poll::Ready(Ok(None)));
    let _ = request.poll_recv_trailers();
    let result = request.poll_recv_data();
    assert!(matches!(
        result,
        Poll::Ready(Err(StreamError::FrameUnexpected))
    ));
}

#[test]
fn unknown_frames_after_trailers_are_ignored() {
    let (shared, mut enc) = shared_and_peer_encoder();
    let mut wire = BytesMut::new();
    let section = enc.encode_section(0, &request_lines("GET", "/x"));
    shared.borrow_mut().feed_encoder_stream(&section.encoder_stream)
        .expect("valid");
    Frame::Headers(section.block).encode(&mut wire);
    let section = enc.encode_section(0, &[]);
    shared.borrow_mut().feed_encoder_stream(&section.encoder_stream)
        .expect("valid");
    Frame::Headers(section.block).encode(&mut wire);
    // An unknown frame type 0x42 (grease-shaped but fine) after the
    // trailers is skipped.
    write_varint(0x42, &mut wire);
    write_varint(1, &mut wire);
    wire.extend_from_slice(b"z");
    let mut stream = MockBidi::new(27);
    stream.feed(&wire);
    stream.finish();
    let mut request = Request::new(stream, shared);

    assert!(request.poll_headers().is_ready());
    assert_eq!(request.poll_recv_data(), Poll::Ready(Ok(None)));
    let _ = request.poll_recv_trailers();
    assert_eq!(request.poll_recv_data(), Poll::Ready(Ok(None)));
}

#[test]
fn headers_blocked_then_unblocked_by_encoder_stream() {
    let shared = shared_with_encoder();
    // A request whose field section references a dynamic table entry:
    // `x-warmup` is absent from the static table, so the peer's
    // encoder inserts it and the section carries a non-zero Required
    // Insert Count.
    let mut lines = request_lines("GET", "/blocked");
    lines.push((
        Bytes::from_static(b"x-warmup"),
        Bytes::from_static(b"wednesday"),
    ));
    let mut peer_enc = Encoder::new(64, true);
    let section = peer_enc.encode_section(0, &lines);
    assert!(!section.encoder_stream.is_empty());

    let mut wire = BytesMut::new();
    Frame::Headers(section.block).encode(&mut wire);
    let mut stream = MockBidi::new(33);
    stream.feed(&wire);
    stream.finish();
    let mut request = Request::new(stream, shared.clone());

    // The encoder stream instructions have not arrived yet: the
    // section is blocked.
    let result = request.poll_headers();
    assert!(result.is_pending(), "expected blocked, got {result:?}");

    // The control plane feeds the peer's encoder stream (as it would
    // on the QPACK encoder stream).
    assert_eq!(shared.borrow().decoder().pending_blocked(), 1);
    shared
        .borrow_mut()
        .feed_encoder_stream(&section.encoder_stream)
        .expect("valid encoder stream");
    assert_eq!(shared.borrow().decoder().pending_blocked(), 0);

    let req = match request.poll_headers() {
        Poll::Ready(Ok(Some(request))) => request,
        other => panic!("expected unblocked request, got {other:?}"),
    };
    assert_eq!(uri_of(&req).path(), "/blocked");
    assert_eq!(
        field(&req.headers, "x-warmup"),
        Some("wednesday")
    );
    // The body was buffered behind the blocked section and is still
    // read in order.
    assert_eq!(request.poll_recv_data(), Poll::Ready(Ok(None)));
}

#[test]
fn send_response_encodes_headers_and_queue_encoder_stream() {
    let shared = shared_with_encoder();
    let mut request = Request::new(MockBidi::new(41), shared.clone());

    let mut headers = Vec::new();
    headers.push(hdr("content-type", "text/plain"));
    headers.push(hdr("x-server", "vibeio"));
    assert!(matches!(
        request.poll_send_response(200, &headers),
        Poll::Ready(Ok(()))
    ));

    // The encoder produced encoder-stream instructions for the control
    // plane.
    assert!(!shared.borrow_mut().take_encoder_streams().is_empty());

    // The wire carries one HEADERS frame with a QPACK-encoded field
    // section (never empty: it encodes `:status` and the headers).
    let mut outbound = BytesMut::new();
    for chunk in &request.bidi.outbound {
        outbound.extend_from_slice(chunk);
    }
    let mut decoder = FrameDecoder::new();
    decoder.extend(outbound.freeze());
    match decoder.next_frame().expect("valid frame").expect("a frame") {
        Frame::Headers(block) => assert!(!block.is_empty()),
        other => panic!("expected HEADERS frame, got {other:?}"),
    }
    assert!(decoder.next_frame().expect("valid frame").is_none());
}

#[test]
fn send_data_writes_data_frame() {
    let shared = shared_with_encoder();
    let stream = MockBidi::new(43);
    let mut request = Request::new(stream, shared);
    let result = request.poll_send_data(Bytes::from_static(b"abc"));
    assert!(result.is_ready());
    assert!(matches!(result, Poll::Ready(Ok(()))));
}

#[test]
fn send_trailers_after_response() {
    let shared = shared_with_encoder();
    let stream = MockBidi::new(45);
    let mut request = Request::new(stream, shared.clone());

    let mut headers = Vec::new();
    headers.push(hdr("x-a", "1"));
    assert!(matches!(
        request.poll_send_response(204, &headers),
        Poll::Ready(Ok(()))
    ));

    let mut trailers = Vec::new();
    trailers.push(hdr("x-sum", "7"));
    assert!(matches!(
        request.poll_send_trailers(&trailers),
        Poll::Ready(Ok(()))
    ));
    assert!(matches!(request.poll_finish(), Poll::Ready(Ok(()))));
}

#[test]
fn response_before_peer_settings_is_message_error() {
    let shared = Rc::new(RefCell::new(SharedCodecs::new(&local_settings())));
    let stream = MockBidi::new(47);
    let mut request = Request::new(stream, shared);
    let headers = Vec::new();
    let result = request.poll_send_response(200, &headers);
    assert!(matches!(result, Poll::Ready(Err(StreamError::Message))));
}

#[test]
fn response_over_peer_field_section_limit() {
    // Capacity 0 disables the dynamic table (RFC 9204 Section 3.2.3),
    // so the field section is encoded inline as literal lines instead
    // of shrinking to a dynamic-table reference.
    let shared = shared_with(0, Some(10));
    let stream = MockBidi::new(49);
    let mut request = Request::new(stream, shared);

    let mut headers = Vec::new();
    headers.push(hdr("x-long-header", "something bigger than ten bytes"));
    let result = request.poll_send_response(200, &headers);
    assert!(matches!(
        result,
        Poll::Ready(Err(StreamError::HeadersTooBig { .. }))
    ));
}

#[test]
fn duplicate_response_is_message_error() {
    let shared = shared_with_encoder();
    let stream = MockBidi::new(51);
    let mut request = Request::new(stream, shared);
    let headers = Vec::new();
    assert!(matches!(
        request.poll_send_response(200, &headers),
        Poll::Ready(Ok(()))
    ));
    assert!(matches!(
        request.poll_send_response(200, &headers),
        Poll::Ready(Err(StreamError::Message))
    ));
}

#[test]
fn missing_method_is_message_error() {
    let shared = shared_with_encoder();
    let mut peer_enc = Encoder::new(4096, true);
    let section = peer_enc.encode_section(
        0,
        &[
            (Bytes::from_static(b":scheme"), Bytes::from_static(b"https")),
            (Bytes::from_static(b":authority"), Bytes::from_static(b"x")),
            (Bytes::from_static(b":path"), Bytes::from_static(b"/")),
        ],
    );
    shared.borrow_mut().feed_encoder_stream(&section.encoder_stream)
        .expect("valid");
    let mut wire = BytesMut::new();
    Frame::Headers(section.block).encode(&mut wire);
    let mut stream = MockBidi::new(53);
    stream.feed(&wire);
    let mut request = Request::new(stream, shared);

    let result = request.poll_headers();
    match result {
        Poll::Ready(Err(err)) => assert_eq!(err.h3_code(), H3Error::Message.code()),
        other => panic!("expected message error, got {other:?}"),
    }
}

#[test]
fn unknown_pseudo_header_is_message_error() {
    let shared = shared_with_encoder();
    let mut peer_enc = Encoder::new(4096, true);
    let section = peer_enc.encode_section(
        0,
        &[
            (Bytes::from_static(b":method"), Bytes::from_static(b"GET")),
            (Bytes::from_static(b":scheme"), Bytes::from_static(b"https")),
            (Bytes::from_static(b":authority"), Bytes::from_static(b"x")),
            (Bytes::from_static(b":path"), Bytes::from_static(b"/")),
            (Bytes::from_static(b":frobnicate"), Bytes::from_static(b"1")),
        ],
    );
    shared.borrow_mut().feed_encoder_stream(&section.encoder_stream)
        .expect("valid");
    let mut wire = BytesMut::new();
    Frame::Headers(section.block).encode(&mut wire);
    let mut stream = MockBidi::new(55);
    stream.feed(&wire);
    let mut request = Request::new(stream, shared);

    let result = request.poll_headers();
    assert!(matches!(result, Poll::Ready(Err(StreamError::Message))));
}

#[test]
fn pseudo_header_after_regular_is_message_error() {
    let shared = shared_with_encoder();
    let mut peer_enc = Encoder::new(4096, true);
    let section = peer_enc.encode_section(
        0,
        &[
            (Bytes::from_static(b":method"), Bytes::from_static(b"GET")),
            (Bytes::from_static(b":scheme"), Bytes::from_static(b"https")),
            (Bytes::from_static(b":authority"), Bytes::from_static(b"x")),
            (Bytes::from_static(b":path"), Bytes::from_static(b"/")),
            (Bytes::from_static(b"host"), Bytes::from_static(b"x")),
            (
                Bytes::from_static(b":trailer-late"),
                Bytes::from_static(b"1"),
            ),
        ],
    );
    shared.borrow_mut().feed_encoder_stream(&section.encoder_stream)
        .expect("valid");
    let mut wire = BytesMut::new();
    Frame::Headers(section.block).encode(&mut wire);
    let mut stream = MockBidi::new(57);
    stream.feed(&wire);
    let mut request = Request::new(stream, shared);

    let result = request.poll_headers();
    assert!(matches!(result, Poll::Ready(Err(StreamError::Message))));
}

#[test]
fn connect_request_shape() {
    // Plain CONNECT: only :method and :authority.
    let shared = shared_with_encoder();
    let mut peer_enc = Encoder::new(4096, true);
    let section = peer_enc.encode_section(
        0,
        &[
            (
                Bytes::from_static(b":method"),
                Bytes::from_static(b"CONNECT"),
            ),
            (
                Bytes::from_static(b":authority"),
                Bytes::from_static(b"example.com:443"),
            ),
        ],
    );
    shared.borrow_mut().feed_encoder_stream(&section.encoder_stream)
        .expect("valid");
    let mut wire = BytesMut::new();
    Frame::Headers(section.block).encode(&mut wire);
    let mut stream = MockBidi::new(59);
    stream.feed(&wire);
    let mut request = Request::new(stream, shared);

    let req = match request.poll_headers() {
        Poll::Ready(Ok(Some(request))) => request,
        other => panic!("expected CONNECT request, got {other:?}"),
    };
    assert_eq!(&req.method[..], b"CONNECT");
    assert_eq!(
        uri_of(&req).authority().map(|a| a.as_str()),
        Some("example.com:443")
    );

    // Extended CONNECT: adds :scheme and :protocol, never :path.
    let shared = shared_with_encoder();
    let mut peer_enc = Encoder::new(4096, true);
    let section = peer_enc.encode_section(
        0,
        &[
            (
                Bytes::from_static(b":method"),
                Bytes::from_static(b"CONNECT"),
            ),
            (Bytes::from_static(b":scheme"), Bytes::from_static(b"https")),
            (
                Bytes::from_static(b":authority"),
                Bytes::from_static(b"example.com"),
            ),
            (
                Bytes::from_static(b":protocol"),
                Bytes::from_static(b"webtransport"),
            ),
        ],
    );
    shared.borrow_mut().feed_encoder_stream(&section.encoder_stream)
        .expect("valid");
    let mut wire = BytesMut::new();
    Frame::Headers(section.block).encode(&mut wire);
    let mut stream = MockBidi::new(61);
    stream.feed(&wire);
    let mut request = Request::new(stream, shared.clone());
    let req2 = match request.poll_headers() {
        Poll::Ready(Ok(Some(request))) => request,
        other => panic!("expected extended CONNECT, got {other:?}"),
    };
    assert_eq!(&req2.method[..], b"CONNECT");
    assert_eq!(field(&req2.headers, ":protocol"), None);
}

#[test]
fn connect_with_path_is_message_error() {
    let shared = shared_with_encoder();
    let mut peer_enc = Encoder::new(4096, true);
    let section = peer_enc.encode_section(
        0,
        &[
            (
                Bytes::from_static(b":method"),
                Bytes::from_static(b"CONNECT"),
            ),
            (Bytes::from_static(b":scheme"), Bytes::from_static(b"https")),
            (Bytes::from_static(b":authority"), Bytes::from_static(b"x")),
            (Bytes::from_static(b":path"), Bytes::from_static(b"/")),
        ],
    );
    shared.borrow_mut().feed_encoder_stream(&section.encoder_stream)
        .expect("valid");
    let mut wire = BytesMut::new();
    Frame::Headers(section.block).encode(&mut wire);
    let mut stream = MockBidi::new(63);
    stream.feed(&wire);
    let mut request = Request::new(stream, shared);

    let result = request.poll_headers();
    assert!(matches!(result, Poll::Ready(Err(StreamError::Message))));
}

#[test]
fn stream_reset_by_peer_is_stream_scoped() {
    // A reset surfaces through the transport; the stream scope is
    // detected by the driver.
    let err = StreamError::Transport(TransportError::Reset { code: 0x010c });
    assert!(err.is_stream_scoped());
    let err = StreamError::Transport(TransportError::Stopped { code: 0x010c });
    assert!(err.is_stream_scoped());
    assert!(!StreamError::Frame.is_stream_scoped());
}

#[test]
fn tests_reset_by_peer_is_stream_scoped() {
    // A reset surfaces through the transport; the stream scope is
    // detected by the driver.
    let err = StreamError::Transport(TransportError::Reset { code: 0x010c });
    assert!(err.is_stream_scoped());
    let err = StreamError::Transport(TransportError::Stopped { code: 0x010c });
    assert!(err.is_stream_scoped());
    assert!(!StreamError::Frame.is_stream_scoped());
}

#[test]
fn stream_connection_codes_map_per_rfc() {
    assert_eq!(StreamError::Frame.h3_code(), 0x0106);
    assert_eq!(StreamError::Message.h3_code(), 0x010e);
    assert_eq!(StreamError::FrameUnexpected.h3_code(), 0x0105);
    assert_eq!(
        StreamError::Qpack(QpackError::DecompressionFailed).h3_code(),
        0x0200
    );
    assert_eq!(
        StreamError::HeadersTooBig { size: 5, limit: 3 }.h3_code(),
        0x010e
    );
}

#[test]
fn tests_connection_codes_map_per_rfc() {
    assert_eq!(StreamError::Frame.h3_code(), 0x0106);
    assert_eq!(StreamError::Message.h3_code(), 0x010e);
    assert_eq!(StreamError::FrameUnexpected.h3_code(), 0x0105);
    assert_eq!(
        StreamError::Qpack(QpackError::DecompressionFailed).h3_code(),
        0x0200
    );
    assert_eq!(
        StreamError::HeadersTooBig { size: 5, limit: 3 }.h3_code(),
        0x010e
    );
}

/// The first outcome of polling for the headers of a field section.
fn headers_of(lines: &[(Bytes, Bytes)]) -> Result<Option<RequestHead>, StreamError> {
    let (shared, mut enc) = shared_and_peer_encoder();
    let section = enc.encode_section(0, lines);
    shared
        .borrow_mut()
        .feed_encoder_stream(&section.encoder_stream)
        .expect("valid");
    let mut wire = BytesMut::new();
    Frame::Headers(section.block).encode(&mut wire);
    let mut stream = MockBidi::new(1);
    stream.feed(&wire);
    match Request::new(stream, shared).poll_headers() {
        Poll::Ready(result) => result,
        Poll::Pending => panic!("the section is whole"),
    }
}

#[test]
fn names_come_out_in_lower_case() {
    let mut lines = request_lines("GET", "/");
    lines.push(hdr("X-Mixed", "Value"));
    let head = headers_of(&lines).unwrap().unwrap();
    assert_eq!(head.headers, vec![hdr("x-mixed", "Value")]);
    assert_eq!(head.uri, "https://example.com/");
    assert_eq!(head.target.scheme.as_deref(), Some("https"));
    assert_eq!(head.target.path, "/");
}

#[test]
fn request_without_authority_has_a_path_uri() {
    let head = headers_of(&[
        hdr(":method", "GET"),
        hdr(":scheme", "https"),
        hdr(":path", "/only?q=1"),
    ])
    .unwrap()
    .unwrap();
    assert_eq!(head.uri, "/only?q=1");
    assert_eq!(head.target.authority, None);
}

#[test]
fn plain_connect_targets_the_authority() {
    let head = headers_of(&[
        hdr(":method", "CONNECT"),
        hdr(":authority", "example.com:443"),
    ])
    .unwrap()
    .unwrap();
    assert_eq!(head.target.scheme.as_deref(), Some("http"));
    assert_eq!(head.target.authority.as_deref(), Some("example.com:443"));
    assert_eq!(head.uri, "http://example.com:443/");
}

#[test]
fn malformed_requests_are_message_errors() {
    let cases = [
        // A duplicate pseudo-header.
        vec![
            hdr(":method", "GET"),
            hdr(":method", "GET"),
            hdr(":scheme", "https"),
            hdr(":path", "/"),
        ],
        // `:protocol` without CONNECT.
        vec![
            hdr(":method", "GET"),
            hdr(":scheme", "https"),
            hdr(":path", "/"),
            hdr(":protocol", "websocket"),
        ],
        // CONNECT without `:authority`, and a plain one with `:scheme`.
        vec![hdr(":method", "CONNECT")],
        vec![
            hdr(":method", "CONNECT"),
            hdr(":scheme", "https"),
            hdr(":authority", "x"),
        ],
        // An extended CONNECT without `:scheme`.
        vec![
            hdr(":method", "CONNECT"),
            hdr(":authority", "x"),
            hdr(":protocol", "websocket"),
        ],
        // No `:scheme`, no `:path`.
        vec![hdr(":method", "GET"), hdr(":path", "/")],
        vec![hdr(":method", "GET"), hdr(":scheme", "https")],
        // Not a method, not a field name, not a field value, not a URI.
        request_lines("GE T", "/"),
        [request_lines("GET", "/"), vec![hdr("b@d", "1")]].concat(),
        [request_lines("GET", "/"), vec![hdr("x", "a\u{1}b")]].concat(),
        request_lines("GET", "no slash and spaces"),
    ];
    for lines in cases {
        assert_eq!(headers_of(&lines), Err(StreamError::Message), "{lines:?}");
    }
}

#[test]
fn headers_that_do_not_decode_are_qpack_errors() {
    let shared = shared_with_encoder();
    let mut stream = MockBidi::new(1);
    // A static index beyond the table.
    stream.feed(&[0x01, 0x04, 0x00, 0x00, 0xff, 0x24]);
    let mut request = Request::new(stream, shared);
    assert_eq!(
        request.poll_headers(),
        Poll::Ready(Err(StreamError::Qpack(QpackError::DecompressionFailed)))
    );
}

#[test]
fn stream_that_ends_without_headers_has_no_request() {
    let mut stream = MockBidi::new(1);
    stream.finish();
    let mut request = Request::new(stream, shared_with_encoder());
    assert_eq!(request.stream.id(), 1);
    assert!(request.poll_recv_data().is_pending());
    assert_eq!(request.poll_headers(), Poll::Ready(Ok(None)));
    assert_eq!(request.poll_headers(), Poll::Ready(Ok(None)));
    assert_eq!(request.poll_recv_data(), Poll::Ready(Ok(None)));
    assert_eq!(request.poll_recv_trailers(), Poll::Ready(Ok(None)));
}

#[test]
fn chunk_boundaries_do_not_matter() {
    let (shared, mut enc) = shared_and_peer_encoder();
    let section = enc.encode_section(0, &request_lines("POST", "/cut"));
    shared
        .borrow_mut()
        .feed_encoder_stream(&section.encoder_stream)
        .expect("valid");
    let mut wire = BytesMut::new();
    write_varint(0x42, &mut wire);
    write_varint(2, &mut wire);
    wire.extend_from_slice(b"zz");
    Frame::Headers(section.block).encode(&mut wire);
    Frame::Data(Bytes::from_static(b"body")).encode(&mut wire);
    let mut stream = MockBidi::new(1);
    for byte in &wire {
        stream.feed(&[*byte]);
    }
    stream.finish();
    let mut request = Request::new(stream, shared);
    match request.poll_headers() {
        Poll::Ready(Ok(Some(head))) => assert_eq!(head.target.path, "/cut"),
        other => panic!("expected request, got {other:?}"),
    }
    assert_eq!(
        request.poll_recv_data(),
        Poll::Ready(Ok(Some(Bytes::from_static(b"body"))))
    );
    assert_eq!(request.poll_recv_data(), Poll::Ready(Ok(None)));
}

#[test]
fn malformed_control_frames_are_still_unexpected() {
    // SETTINGS with a reserved identifier, behind an unknown frame.
    let mut stream = MockBidi::new(1);
    stream.feed(&[0x21, 0x00, 0x04, 0x02, 0x02, 0x00]);
    let mut request = Request::new(stream, shared_with_encoder());
    assert_eq!(
        request.poll_headers(),
        Poll::Ready(Err(StreamError::FrameUnexpected))
    );
}

#[test]
fn blocked_trailers_are_read_once_unblocked() {
    let (shared, mut enc) = shared_and_peer_encoder();
    let section = enc.encode_section(0, &request_lines("GET", "/t"));
    shared
        .borrow_mut()
        .feed_encoder_stream(&section.encoder_stream)
        .expect("valid");
    let mut wire = BytesMut::new();
    Frame::Headers(section.block).encode(&mut wire);
    let trailer = enc.encode_section(0, &[hdr("x-late", "1")]);
    Frame::Headers(trailer.block).encode(&mut wire);
    let mut stream = MockBidi::new(7);
    stream.feed(&wire);
    stream.finish();
    let mut request = Request::new(stream, shared.clone());
    assert!(request.poll_headers().is_ready());
    assert_eq!(request.poll_recv_data(), Poll::Ready(Ok(None)));
    assert!(request.poll_recv_trailers().is_pending());
    shared
        .borrow_mut()
        .feed_encoder_stream(&trailer.encoder_stream)
        .expect("valid");
    assert_eq!(
        request.poll_recv_trailers(),
        Poll::Ready(Ok(Some(vec![hdr("x-late", "1")])))
    );
}

#[test]
fn small_frames_are_written_at_once_and_large_ones_are_not() {
    let mut request = Request::new(MockBidi::new(1), shared_with_encoder());
    assert!(request
        .poll_send_data(Bytes::from_static(b"abc"))
        .is_ready());
    assert_eq!(
        request.bidi.outbound,
        vec![Bytes::from_static(&[0x00, 0x03, b'a', b'b', b'c'])]
    );

    let large = Bytes::from(vec![7u8; WRITE_INLINE_LIMIT]);
    assert!(request.poll_send_data(large.clone()).is_ready());
    assert_eq!(request.bidi.outbound.len(), 3);
    assert_eq!(request.bidi.outbound[1].len(), 5);
    assert_eq!(request.bidi.outbound[2], large);

    assert!(request.poll_send_data(Bytes::new()).is_ready());
    assert_eq!(
        request.bidi.outbound[3],
        Bytes::from_static(&[0x00, 0x00])
    );
}

#[test]
fn stalled_write_is_not_encoded_again() {
    let mut request = Request::new(MockBidi::new(1), shared_with_encoder());
    request.bidi.window = 0;
    let headers = vec![hdr("x-a", "1")];
    assert!(request.poll_send_response(200, &headers).is_pending());
    // Another kind of write has to wait its turn.
    assert_eq!(
        request.poll_send_data(Bytes::from_static(b"x")),
        Poll::Ready(Err(StreamError::Message))
    );
    assert!(request.poll_send_response(200, &headers).is_pending());
    request.bidi.window = usize::MAX;
    assert_eq!(
        request.poll_send_response(200, &headers),
        Poll::Ready(Ok(()))
    );
    let mut decoder = FrameDecoder::new();
    decoder.extend(request.sent());
    assert!(matches!(decoder.next_frame(), Ok(Some(Frame::Headers(_)))));
    assert_eq!(decoder.next_frame(), Ok(None));
    assert_eq!(decoder.buffered(), 0);
}

#[test]
fn informational_responses_precede_the_final_one() {
    let mut request = Request::new(MockBidi::new(1), shared_with_encoder());
    let headers = Vec::new();
    assert_eq!(
        request.poll_send_response(100, &headers),
        Poll::Ready(Ok(()))
    );
    assert_eq!(
        request.poll_send_response(103, &headers),
        Poll::Ready(Ok(()))
    );
    assert_eq!(
        request.poll_send_response(404, &headers),
        Poll::Ready(Ok(()))
    );
    assert_eq!(
        request.poll_send_response(200, &headers),
        Poll::Ready(Err(StreamError::Message))
    );
}

#[test]
fn pseudo_headers_are_not_sent_twice() {
    let mut request = Request::new(MockBidi::new(1), shared_with_encoder());
    assert_eq!(
        request.poll_send_response(200, &vec![hdr(":status", "200")]),
        Poll::Ready(Err(StreamError::Message))
    );
    assert!(request.poll_send_response(200, &Vec::new()).is_ready());
    assert_eq!(
        request.poll_send_trailers(&vec![hdr(":path", "/")]),
        Poll::Ready(Err(StreamError::Message))
    );
}

#[test]
fn no_data_follows_the_trailers() {
    let mut request = Request::new(MockBidi::new(1), shared_with_encoder());
    assert_eq!(
        request.poll_send_trailers(&Vec::new()),
        Poll::Ready(Err(StreamError::Message))
    );
    assert!(request.poll_send_response(200, &Vec::new()).is_ready());
    assert!(request
        .poll_send_trailers(&vec![hdr("x-sum", "7")])
        .is_ready());
    assert_eq!(
        request.poll_send_data(Bytes::from_static(b"late")),
        Poll::Ready(Err(StreamError::Message))
    );
    assert!(request.poll_finish().is_ready());
    assert!(request.bidi.finished);
}

#[test]
fn response_reaches_the_peer() {
    let shared = shared_with_encoder();
    let mut request = Request::new(MockBidi::new(9), shared.clone());
    let headers = vec![hdr("content-type", "text/plain"), hdr("x-server", "vibeio")];
    assert!(request.poll_send_response(418, &headers).is_ready());

    let mut peer = SharedCodecs::new(&local_settings());
    for bytes in shared.borrow_mut().take_encoder_streams() {
        assert!(peer.can_feed(bytes.len()));
        peer.feed_encoder_stream(&bytes).expect("valid");
    }
    let mut decoder = FrameDecoder::new();
    decoder.extend(request.sent());
    match decoder.next_frame() {
        Ok(Some(Frame::Headers(block))) => {
            let list = peer.decode_block(&block, 9, 0).unwrap().unwrap();
            assert_eq!(
                list,
                vec![
                    hdr(":status", "418"),
                    hdr("content-type", "text/plain"),
                    hdr("x-server", "vibeio"),
                ]
            );
        }
        other => panic!("expected HEADERS frame, got {other:?}"),
    }
    // The peer acknowledges the section and the insertions.
    let acks = peer.take_decoder_stream();
    assert!(!acks.is_empty());
    shared.borrow_mut().feed_decoder_stream(&acks).unwrap();
    assert!(shared.borrow().encoder().unwrap().pending_refs().is_empty());
}

#[test]
fn rejected_response_leaves_the_tables_coherent() {
    let shared = shared_with(4096, Some(3));
    let mut request = Request::new(MockBidi::new(1), shared.clone());
    let result = request.poll_send_response(200, &vec![hdr("x-first", "1"), hdr("x-two", "2")]);
    assert!(matches!(
        result,
        Poll::Ready(Err(StreamError::HeadersTooBig { limit: 3, .. }))
    ));
    // What the encoder inserted is on its way to the peer all the same.
    let mut peer = SharedCodecs::new(&local_settings());
    for bytes in shared.borrow_mut().take_encoder_streams() {
        peer.feed_encoder_stream(&bytes).expect("valid");
    }
    let inserted = shared.borrow().encoder().unwrap().dynamic().inserted();
    assert_eq!(peer.decoder().inserted(), inserted);
}

#[test]
fn transport_errors_keep_their_codes() {
    let err = StreamError::from(TransportError::Closed { code: 0x42 });
    assert_eq!(err.h3_code(), 0x42);
    assert!(!err.is_stream_scoped());
    let err = StreamError::from(TransportError::Timeout);
    assert_eq!(err.h3_code(), 0x0102);
    assert!(!StreamError::Message.is_stream_scoped());
}

#[test]
fn whole_frames_are_read_before_the_end() {
    let shared = shared_with_encoder();
    let mut codecs = shared.borrow_mut();
    let section = Encoder::new(0, false).encode_section(0, &request_lines("GET", "/"));
    let mut wire = BytesMut::new();
    Frame::Headers(section.block).encode(&mut wire);
    Frame::Data(Bytes::from_static(b"one")).encode(&mut wire);
    Frame::Data(Bytes::from_static(b"two")).encode(&mut wire);
    let mut stream = RequestStream::new(0);
    let received = Received::Chunk(wire.freeze());
    assert!(matches!(
        stream.poll_headers(&mut codecs, received, 0),
        Ok(Polled::Ready(Some(_)))
    ));
    for body in [Some("one"), Some("two"), None] {
        let body = body.map(|body| Bytes::from_static(body.as_bytes()));
        assert_eq!(
            stream.poll_recv_data(&mut codecs, Received::End, 0),
            Ok(Polled::Ready(body))
        );
    }
}
