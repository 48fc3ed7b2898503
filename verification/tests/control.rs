//! The control plane, driven over in-memory streams.

use bytes::{Bytes, BytesMut};
use std::cell::RefCell;
use std::collections::VecDeque;
use std::rc::Rc;
use vibeio_http::h3::codecs::SharedCodecs;
use vibeio_http::h3::control::{
    ControlError, ControlEvent, ControlStreams, ReadReply, ReadStep, STREAM_TYPE_CONTROL,
    STREAM_TYPE_PUSH, STREAM_TYPE_QPACK_DECODER, STREAM_TYPE_QPACK_ENCODER,
};
use vibeio_http::h3::frame::{
    write_varint, Frame, Settings as FrameSettings, SETTINGS_QPACK_MAX_TABLE_CAPACITY,
};
use vibeio_http::h3::qpack::QpackError;
use vibeio_http::h3::settings::LocalSettings;
use vibeio_http::h3::TransportError;

type Inbound = Rc<RefCell<VecDeque<Option<Bytes>>>>;

/// In-memory uni stream: the test feeds peer data into `inbound`. An empty
/// inbound queue reads as nothing; a `None` marker means the peer finished the
/// stream. `inbound` is shared so a stream can be fed after it was accepted.
struct MockStream {
    inbound: Inbound,
}

impl MockStream {
    fn new() -> Self {
        Self {
            inbound: Rc::new(RefCell::new(VecDeque::new())),
        }
    }

    fn feed(&mut self, bytes: &[u8]) {
        self.inbound
            .borrow_mut()
            .push_back(Some(Bytes::copy_from_slice(bytes)));
    }

    fn finish(&mut self) {
        self.inbound.borrow_mut().push_back(None);
    }

    /// A handle to the inbound queue.
    fn sink(&self) -> Inbound {
        self.inbound.clone()
    }
}

/// In-memory QUIC connection: queues the peer's uni streams, counts this
/// endpoint's opens and logs its writes in order.
struct MockConn {
    peer_unis: VecDeque<MockStream>,
    opened: usize,
    log: Vec<Bytes>,
}

impl MockConn {
    fn new() -> Self {
        Self {
            peer_unis: VecDeque::new(),
            opened: 0,
            log: Vec::new(),
        }
    }
}

/// The control plane, its codecs and the streams it knows by their handles.
struct Plane {
    control: ControlStreams,
    codecs: SharedCodecs,
    streams: Vec<MockStream>,
}

impl Plane {
    fn new(local: LocalSettings) -> Self {
        Self {
            control: ControlStreams::new(local),
            codecs: SharedCodecs::new(&local),
            streams: Vec::new(),
        }
    }

    fn init(&mut self, conn: &mut MockConn) {
        let mut handle = None;
        while self.control.poll_init(handle).is_some() {
            conn.opened += 1;
            handle = Some(1000 + conn.opened as u64);
        }
    }

    fn flush(&mut self, conn: &mut MockConn) -> bool {
        let mut written = false;
        while let Some((_, bytes)) = self.control.poll_flush(written) {
            conn.log.push(bytes);
            written = true;
        }
        true
    }

    /// One poll: `Ok(None)` when all inputs are idle.
    fn poll_read(&mut self, conn: &mut MockConn) -> Result<Option<ControlEvent>, ControlError> {
        let mut reply = ReadReply::Start;
        loop {
            assert!(self.control.accepts(&self.codecs, &reply));
            reply = match self.control.poll_read(&mut self.codecs, reply)? {
                ReadStep::Event(event) => return Ok(Some(event)),
                ReadStep::Pending => return Ok(None),
                ReadStep::Accept => match conn.peer_unis.pop_front() {
                    Some(stream) => {
                        self.streams.push(stream);
                        ReadReply::Accepted(self.streams.len() as u64 - 1)
                    }
                    None => ReadReply::Nothing,
                },
                ReadStep::Receive(handle) => {
                    let chunk = self.streams[handle as usize].inbound.borrow_mut().pop_front();
                    match chunk {
                        Some(Some(bytes)) => ReadReply::Chunk(bytes),
                        Some(None) => ReadReply::End,
                        None => ReadReply::Nothing,
                    }
                }
            };
        }
    }
}

fn encode_frames(frames: &[Frame]) -> Bytes {
    let mut buf = BytesMut::new();
    for frame in frames {
        frame.encode(&mut buf);
    }
    buf.freeze()
}

fn settings_frame(settings: &FrameSettings) -> Frame {
    Frame::Settings(settings.clone())
}

/// Bytes for a peer control stream: the control stream type byte then the
/// frames.
fn control_wire(frames: &[Frame]) -> Bytes {
    let mut buf = BytesMut::from(&[STREAM_TYPE_CONTROL as u8][..]);
    for frame in frames {
        frame.encode(&mut buf);
    }
    buf.freeze()
}

/// Polls until all inputs are idle, collecting every event yielded.
fn drain_events(plane: &mut Plane, conn: &mut MockConn) -> Result<Vec<ControlEvent>, ControlError> {
    let mut events = Vec::new();
    while let Some(event) = plane.poll_read(conn)? {
        events.push(event);
    }
    Ok(events)
}

fn init_with(plane: &mut Plane, conn: &mut MockConn) {
    plane.init(conn);
    assert!(plane.flush(conn));
}

#[test]
fn init_opens_three_streams_and_sends_settings_first() {
    let mut plane = Plane::new(LocalSettings::default());
    let mut conn = MockConn::new();
    init_with(&mut plane, &mut conn);

    assert_eq!(conn.opened, 3);
    let log = &conn.log;
    assert_eq!(
        log.len(),
        3,
        "stream preludes and SETTINGS are written at init"
    );
    // RFC 9114 Section 6.2.1 / RFC 9204 Sections 4.2 and 4.4: every
    // unidirectional stream must open with its type byte.
    assert_eq!(log[0][0], STREAM_TYPE_CONTROL as u8);
    assert_eq!(log[1][0], STREAM_TYPE_QPACK_ENCODER as u8);
    assert_eq!(log[2][0], STREAM_TYPE_QPACK_DECODER as u8);
    // The control stream's first frame is SETTINGS.
    assert_eq!(
        &log[0][1..],
        &encode_frames(&[settings_frame(&LocalSettings::default().to_frame())])[..]
    );
}

#[test]
fn peer_settings_then_goaway_events() {
    let mut plane = Plane::new(LocalSettings::default());
    let mut conn = MockConn::new();
    let mut peer = MockStream::new();
    let mut settings = FrameSettings::new();
    settings.insert(SETTINGS_QPACK_MAX_TABLE_CAPACITY, 4096);
    peer.feed(&control_wire(&[
        settings_frame(&settings),
        Frame::Goaway(7),
    ]));
    conn.peer_unis.push_back(peer);

    let events = drain_events(&mut plane, &mut conn).expect("control stream is valid");
    assert_eq!(events.len(), 2);
    match &events[0] {
        ControlEvent::Settings(peer_settings) => {
            assert_eq!(peer_settings.qpack_max_table_capacity(), 4096);
        }
        other => panic!("expected Settings, got {other:?}"),
    }
    assert!(matches!(events[1], ControlEvent::Goaway { id: 7 }));
    assert!(plane.control.settings_received());
    // The encoder is created once the peer's SETTINGS bound its table.
    assert_eq!(
        plane.codecs.encoder().expect("encoder").max_capacity(),
        4096
    );
}

#[test]
fn unknown_frames_on_control_stream_are_skipped() {
    let mut plane = Plane::new(LocalSettings::default());
    let mut conn = MockConn::new();
    let mut peer = MockStream::new();
    let mut wire = BytesMut::from(&[STREAM_TYPE_CONTROL as u8][..]);
    settings_frame(&LocalSettings::default().to_frame()).encode(&mut wire);
    // Unknown frame type 0x42 with payload, between SETTINGS and GOAWAY.
    write_varint(0x42, &mut wire);
    write_varint(3, &mut wire);
    wire.extend_from_slice(b"xyz");
    Frame::Goaway(1).encode(&mut wire);
    peer.feed(&wire);
    conn.peer_unis.push_back(peer);

    let events = drain_events(&mut plane, &mut conn).expect("unknown frames are skipped");
    assert_eq!(events.len(), 2);
    assert!(matches!(&events[1], ControlEvent::Goaway { id: 1 }));
}

#[test]
fn second_settings_is_frame_unexpected() {
    let mut plane = Plane::new(LocalSettings::default());
    let mut conn = MockConn::new();
    let mut peer = MockStream::new();
    let settings = settings_frame(&LocalSettings::default().to_frame());
    peer.feed(&control_wire(&[settings.clone(), settings]));
    conn.peer_unis.push_back(peer);

    let err = drain_events(&mut plane, &mut conn).unwrap_err();
    assert!(matches!(err, ControlError::FrameUnexpected));
    assert_eq!(err.h3_code(), 0x0105);
}

#[test]
fn non_settings_first_frame_is_missing_settings() {
    let mut plane = Plane::new(LocalSettings::default());
    let mut conn = MockConn::new();
    let mut peer = MockStream::new();
    peer.feed(&control_wire(&[Frame::Goaway(0)]));
    conn.peer_unis.push_back(peer);

    let err = drain_events(&mut plane, &mut conn).unwrap_err();
    assert!(matches!(err, ControlError::MissingSettings));
    assert_eq!(err.h3_code(), 0x010a);
}

#[test]
fn data_and_push_promise_on_control_stream_are_frame_unexpected() {
    for frame in [
        Frame::Data(Bytes::from_static(b"x")),
        Frame::PushPromise {
            push_id: 0,
            field_section: Bytes::new(),
        },
    ] {
        let mut plane = Plane::new(LocalSettings::default());
        let mut conn = MockConn::new();
        let mut peer = MockStream::new();
        peer.feed(&control_wire(&[
            settings_frame(&LocalSettings::default().to_frame()),
            frame,
        ]));
        conn.peer_unis.push_back(peer);
        let err = drain_events(&mut plane, &mut conn).unwrap_err();
        assert!(matches!(err, ControlError::FrameUnexpected));
    }
}

#[test]
fn cancel_push_for_never_promised_push_is_id_error() {
    let mut plane = Plane::new(LocalSettings::default());
    let mut conn = MockConn::new();
    let mut peer = MockStream::new();
    peer.feed(&control_wire(&[
        settings_frame(&LocalSettings::default().to_frame()),
        Frame::CancelPush(0),
    ]));
    conn.peer_unis.push_back(peer);

    let err = drain_events(&mut plane, &mut conn).unwrap_err();
    assert!(matches!(err, ControlError::Id));
    assert_eq!(err.h3_code(), 0x0108);
}

#[test]
fn max_push_id_must_not_decrease() {
    let mut plane = Plane::new(LocalSettings::default());
    let mut conn = MockConn::new();
    let mut peer = MockStream::new();
    peer.feed(&control_wire(&[
        settings_frame(&LocalSettings::default().to_frame()),
        Frame::MaxPushId(5),
        Frame::MaxPushId(7),
    ]));
    conn.peer_unis.push_back(peer);

    let events = drain_events(&mut plane, &mut conn).expect("growing MAX_PUSH_ID is fine");
    assert_eq!(events.len(), 3);
    assert!(matches!(events[1], ControlEvent::MaxPushId { id: 5 }));
    assert!(matches!(events[2], ControlEvent::MaxPushId { id: 7 }));
    assert_eq!(plane.control.max_push_id(), Some(7));

    // A reduction is H3_ID_ERROR.
    let mut plane = Plane::new(LocalSettings::default());
    let mut conn = MockConn::new();
    let mut peer = MockStream::new();
    peer.feed(&control_wire(&[
        settings_frame(&LocalSettings::default().to_frame()),
        Frame::MaxPushId(5),
        Frame::MaxPushId(3),
    ]));
    conn.peer_unis.push_back(peer);
    let err = drain_events(&mut plane, &mut conn).unwrap_err();
    assert!(matches!(err, ControlError::Id));
}

#[test]
fn control_stream_fin_after_settings_is_closed_critical_stream() {
    let mut plane = Plane::new(LocalSettings::default());
    let mut conn = MockConn::new();
    let mut peer = MockStream::new();
    // The type byte arrives in its own chunk, as it does on a real
    // stream: classification consumes it, then the frame bytes come
    // through the wired control stream.
    peer.feed(&[STREAM_TYPE_CONTROL as u8]);
    peer.feed(&encode_frames(&[settings_frame(
        &LocalSettings::default().to_frame(),
    )]));
    peer.finish();
    conn.peer_unis.push_back(peer);

    let first = plane.poll_read(&mut conn);
    assert!(matches!(
        &first,
        Ok(Some(ControlEvent::Settings(_)))
    ));
    let then = plane.poll_read(&mut conn);
    assert!(matches!(
        then,
        Err(ControlError::ClosedCriticalStream)
    ));
}

#[test]
fn unknown_uni_stream_type_is_discarded() {
    let mut plane = Plane::new(LocalSettings::default());
    let mut conn = MockConn::new();
    let mut unknown = MockStream::new();
    unknown.feed(&[0x42, 0x01, 0x00]);
    unknown.finish();
    conn.peer_unis.push_back(unknown);
    let mut control = MockStream::new();
    control.feed(&control_wire(&[settings_frame(
        &LocalSettings::default().to_frame(),
    )]));
    conn.peer_unis.push_back(control);

    let events = drain_events(&mut plane, &mut conn).expect("no error");
    assert!(matches!(events.first(), Some(ControlEvent::Settings(_))));
    assert!(!plane.control.is_discarding(), "discard stream drained");
}

#[test]
fn push_uni_stream_is_stream_creation_error() {
    let mut plane = Plane::new(LocalSettings::default());
    let mut conn = MockConn::new();
    let mut peer = MockStream::new();
    peer.feed(&[STREAM_TYPE_PUSH as u8, 0x01, 0x00]);
    conn.peer_unis.push_back(peer);

    let err = drain_events(&mut plane, &mut conn).unwrap_err();
    assert!(matches!(err, ControlError::StreamCreation));
    assert_eq!(err.h3_code(), 0x0103);
}

#[test]
fn duplicate_control_stream_is_stream_creation_error() {
    let mut plane = Plane::new(LocalSettings::default());
    let mut conn = MockConn::new();
    let settings = settings_frame(&LocalSettings::default().to_frame());
    let mut peer1 = MockStream::new();
    peer1.feed(&control_wire(std::slice::from_ref(&settings)));
    let mut peer2 = MockStream::new();
    peer2.feed(&control_wire(&[settings]));
    conn.peer_unis.push_back(peer1);
    conn.peer_unis.push_back(peer2);

    let err = drain_events(&mut plane, &mut conn).unwrap_err();
    assert!(matches!(err, ControlError::StreamCreation));
}

#[test]
fn multi_byte_uni_stream_type_is_classified_incrementally() {
    let mut plane = Plane::new(LocalSettings::default());
    let mut conn = MockConn::new();
    let mut peer = MockStream::new();
    let sink = peer.sink();
    peer.feed(&[0x7f]); // first byte of a 2-byte type (0x7f00 = 16128)
    conn.peer_unis.push_back(peer);

    // Type varint incomplete: classification is still pending, and the
    // stream stays queued for the rest of its type byte.
    assert!(matches!(plane.poll_read(&mut conn), Ok(None)));
    assert!(plane.control.is_classifying());

    // The second byte completes type 16128, which is unknown: the
    // stream is discarded, not a connection error (RFC 9114 Section
    // 6.2).
    sink.borrow_mut().push_back(Some(Bytes::from_static(&[0x00])));
    sink.borrow_mut().push_back(None);
    let events = drain_events(&mut plane, &mut conn).expect("no error");
    assert!(events.is_empty());
    assert!(!plane.control.is_discarding(), "discard stream drained");
}

#[test]
fn non_minimal_uni_stream_type_is_frame_error() {
    let mut plane = Plane::new(LocalSettings::default());
    let mut conn = MockConn::new();
    let mut peer = MockStream::new();
    peer.feed(&[0x40, 0x00]); // 0 encoded in 2 bytes: redundant
    conn.peer_unis.push_back(peer);

    let err = drain_events(&mut plane, &mut conn).unwrap_err();
    assert!(matches!(err, ControlError::Frame));
    assert_eq!(err.h3_code(), 0x0106);
}

#[test]
fn peer_encoder_stream_feeds_the_qpack_decoder() {
    let mut plane = Plane::new(LocalSettings {
        qpack_max_table_capacity: 4096,
        ..LocalSettings::default()
    });
    let mut conn = MockConn::new();
    let mut peer = MockStream::new();
    // Type byte + a Set Capacity (0x3f 0x45 = 100) + Insert with
    // Literal Name "foo"="bar" in one chunk: leftover bytes after the
    // type must be fed to the decoder. Capacity 100 is big enough for
    // the 38-byte entry (RFC 9204 Section 3.2.1).
    peer.feed(&[
        STREAM_TYPE_QPACK_ENCODER as u8,
        0x3f,
        0x45,
        0x43,
        b'f',
        b'o',
        b'o',
        0x03,
        b'b',
        b'a',
        b'r',
    ]);
    conn.peer_unis.push_back(peer);

    let events = drain_events(&mut plane, &mut conn).expect("encoder stream is valid");
    assert!(events.is_empty());
    assert_eq!(plane.codecs.decoder().inserted(), 1);
    // Nothing was blocked, so nothing was unblocked, and a plain insert
    // needs no acknowledgement yet.
    assert!(plane.codecs.take_unblocked().is_empty());
}

#[test]
fn malformed_encoder_stream_is_qpack_error() {
    let mut plane = Plane::new(LocalSettings::default());
    let mut conn = MockConn::new();
    let mut peer = MockStream::new();
    // Duplicate instruction (index 0) on an empty table.
    peer.feed(&[STREAM_TYPE_QPACK_ENCODER as u8, 0x00]);
    conn.peer_unis.push_back(peer);

    let err = drain_events(&mut plane, &mut conn).unwrap_err();
    assert!(matches!(err, ControlError::Qpack(_)));
    assert_eq!(err.h3_code(), 0x0201);
}

#[test]
fn peer_encoder_stream_fin_is_closed_critical_stream() {
    let mut plane = Plane::new(LocalSettings {
        qpack_max_table_capacity: 4096,
        ..LocalSettings::default()
    });
    let mut conn = MockConn::new();
    let mut peer = MockStream::new();
    peer.feed(&[STREAM_TYPE_QPACK_ENCODER as u8, 0x2a]);
    peer.finish();
    conn.peer_unis.push_back(peer);

    let err = drain_events(&mut plane, &mut conn).unwrap_err();
    assert!(matches!(err, ControlError::ClosedCriticalStream));
}

#[test]
fn peer_decoder_stream_zero_insert_count_increment_is_decoder_stream_error() {
    // h3spec QPACK 4.4.3: a single 0x00 byte on the peer's decoder
    // stream is an Insert Count Increment of 0 -> QPACK_DECODER_STREAM_ERROR.
    let mut plane = Plane::new(LocalSettings::default());
    let mut conn = MockConn::new();
    let mut peer = MockStream::new();
    peer.feed(&[STREAM_TYPE_QPACK_DECODER as u8, 0x00]);
    conn.peer_unis.push_back(peer);

    let err = drain_events(&mut plane, &mut conn).unwrap_err();
    match err {
        ControlError::Qpack(QpackError::DecoderStream) => {}
        other => panic!("expected DecoderStream, got {:?}", other),
    }
}

#[test]
fn send_goaway_queues_the_frame_and_marks_shutdown() {
    let mut plane = Plane::new(LocalSettings::default());
    let mut conn = MockConn::new();
    init_with(&mut plane, &mut conn);

    plane.control.send_goaway(7);
    assert!(plane.control.shutting_down());
    assert_eq!(plane.control.goaway_sent(), Some(7));
    assert!(plane.flush(&mut conn));

    assert_eq!(conn.log.len(), 4);
    assert_eq!(conn.log[3], encode_frames(&[Frame::Goaway(7)]));

    // Only one GOAWAY is ever sent.
    plane.control.send_goaway(9);
    assert_eq!(plane.control.goaway_sent(), Some(7));

    // Client-only frames queue for the control stream too; the flush
    // coalesces them into a single write.
    plane.control.send_max_push_id(2);
    plane.control.send_cancel_push(1);
    assert!(plane.flush(&mut conn));
    assert_eq!(conn.log.len(), 5);
    assert_eq!(
        conn.log[4],
        encode_frames(&[Frame::MaxPushId(2), Frame::CancelPush(1)])
    );
}

#[test]
fn control_stream_fin_without_settings_is_missing_settings() {
    let mut plane = Plane::new(LocalSettings::default());
    let mut conn = MockConn::new();
    let mut peer = MockStream::new();
    peer.feed(&[STREAM_TYPE_CONTROL as u8]);
    peer.finish();
    conn.peer_unis.push_back(peer);

    let err = drain_events(&mut plane, &mut conn).unwrap_err();
    assert!(matches!(err, ControlError::MissingSettings));
    assert_eq!(err.h3_code(), 0x010a);
}

#[test]
fn peer_decoder_stream_fin_is_closed_critical_stream() {
    let mut plane = Plane::new(LocalSettings::default());
    let mut conn = MockConn::new();
    let mut peer = MockStream::new();
    peer.feed(&[STREAM_TYPE_QPACK_DECODER as u8]);
    peer.finish();
    conn.peer_unis.push_back(peer);

    let err = drain_events(&mut plane, &mut conn).unwrap_err();
    assert_eq!(err, ControlError::ClosedCriticalStream);
    assert_eq!(err.h3_code(), 0x0104);
}

#[test]
fn stream_that_ends_without_a_type_is_stream_creation_error() {
    let mut plane = Plane::new(LocalSettings::default());
    let mut conn = MockConn::new();
    let mut peer = MockStream::new();
    peer.feed(&[0x7f]);
    peer.finish();
    conn.peer_unis.push_back(peer);

    let err = drain_events(&mut plane, &mut conn).unwrap_err();
    assert_eq!(err, ControlError::StreamCreation);
}

#[test]
fn duplicate_qpack_streams_are_stream_creation_errors() {
    for ty in [STREAM_TYPE_QPACK_ENCODER, STREAM_TYPE_QPACK_DECODER] {
        let mut plane = Plane::new(LocalSettings::default());
        let mut conn = MockConn::new();
        for _ in 0..2 {
            let mut peer = MockStream::new();
            peer.feed(&[ty as u8]);
            conn.peer_unis.push_back(peer);
        }
        let err = drain_events(&mut plane, &mut conn).unwrap_err();
        assert_eq!(err, ControlError::StreamCreation);
    }
}

#[test]
fn control_stream_with_reserved_setting_is_settings_error() {
    let mut plane = Plane::new(LocalSettings::default());
    let mut conn = MockConn::new();
    let mut peer = MockStream::new();
    peer.feed(&[STREAM_TYPE_CONTROL as u8, 0x04, 0x02, 0x02, 0x00]);
    conn.peer_unis.push_back(peer);

    let err = drain_events(&mut plane, &mut conn).unwrap_err();
    assert_eq!(err, ControlError::Settings);
    assert_eq!(err.h3_code(), 0x0109);
}

#[test]
fn transport_failures_end_the_poll() {
    let mut plane = Plane::new(LocalSettings::default());
    assert_eq!(
        plane.control.poll_read(&mut plane.codecs, ReadReply::Start),
        Ok(ReadStep::Accept)
    );
    let err = plane
        .control
        .poll_read(
            &mut plane.codecs,
            ReadReply::Failed(TransportError::Timeout),
        )
        .unwrap_err();
    assert_eq!(err, ControlError::Transport(TransportError::Timeout));
    assert_eq!(err, ControlError::from(TransportError::Timeout));
    assert_eq!(err.h3_code(), 0x0101);
}

#[test]
fn replies_must_answer_the_question() {
    let plane = Plane::new(LocalSettings::default());
    for reply in [
        ReadReply::Nothing,
        ReadReply::Accepted(1),
        ReadReply::Chunk(Bytes::from_static(b"x")),
        ReadReply::End,
    ] {
        assert!(!plane.control.accepts(&plane.codecs, &reply));
    }
    assert!(plane.control.accepts(&plane.codecs, &ReadReply::Start));
}

#[test]
fn encoder_instructions_and_acks_are_flushed_in_order() {
    let mut plane = Plane::new(LocalSettings {
        qpack_max_table_capacity: 4096,
        ..LocalSettings::default()
    });
    let mut conn = MockConn::new();
    init_with(&mut plane, &mut conn);
    let mut peer = MockStream::new();
    peer.feed(&[STREAM_TYPE_QPACK_ENCODER as u8]);
    peer.feed(&[0x3f, 0x45, 0x41, b'a', 0x01, b'b']);
    conn.peer_unis.push_back(peer);
    drain_events(&mut plane, &mut conn).expect("encoder stream is valid");

    plane
        .control
        .queue_encoder_stream(Bytes::from_static(&[0x20]));
    plane.control.queue_encoder_stream(Bytes::new());
    let mut more = VecDeque::new();
    more.push_back(Bytes::from_static(&[0x21]));
    plane.control.queue_encoder_streams(&mut more);
    assert!(more.is_empty());
    plane
        .control
        .queue_encoder_streams_from_shared(&mut plane.codecs);
    assert!(plane.flush(&mut conn));
    // Behind the three of the start: the encoder stream, then the decoder
    // stream with an Insert Count Increment of one.
    assert_eq!(
        conn.log[3..],
        [
            Bytes::from_static(&[0x20]),
            Bytes::from_static(&[0x21]),
            Bytes::from_static(&[0x01]),
        ]
    );
}

#[test]
fn settings_reach_the_peer() {
    let local = LocalSettings {
        qpack_max_table_capacity: 4096,
        qpack_blocked_streams: 16,
        max_field_section_size: Some(100),
        enable_connect_protocol: true,
    };
    let mut sender = Plane::new(local);
    let mut conn = MockConn::new();
    init_with(&mut sender, &mut conn);
    let mut control = MockStream::new();
    control.feed(&conn.log[0]);

    let mut receiver = Plane::new(LocalSettings::default());
    let mut conn = MockConn::new();
    conn.peer_unis.push_back(control);
    let events = drain_events(&mut receiver, &mut conn).expect("control stream is valid");
    assert_eq!(events.len(), 1);
    let peer = receiver.control.peer_settings();
    assert_eq!(peer.qpack_max_table_capacity(), 4096);
    assert_eq!(peer.qpack_blocked_streams(), 16);
    assert_eq!(peer.max_field_section_size(), Some(100));
    assert!(peer.enable_connect_protocol());
    assert_eq!(receiver.codecs.peer_max_field_section_size(), Some(100));
    assert!(receiver.codecs.has_encoder());
}

/// Polls until the plane asks for the stream `handle`, and answers that it was
/// reset.
fn reset_stream(
    plane: &mut Plane,
    conn: &mut MockConn,
    target: u64,
) -> Result<ReadStep, ControlError> {
    let mut reply = ReadReply::Start;
    loop {
        reply = match plane.control.poll_read(&mut plane.codecs, reply)? {
            ReadStep::Receive(handle) if handle == target => break,
            ReadStep::Receive(_) | ReadStep::Accept => ReadReply::Nothing,
            other => panic!("stream {target} was not asked for: {other:?}"),
        };
    }
    assert!(conn.peer_unis.is_empty());
    let failed = ReadReply::Failed(TransportError::Reset { code: 0x10c });
    plane.control.poll_read(&mut plane.codecs, failed)
}

#[test]
fn reset_of_a_critical_stream_closes_the_connection() {
    for (ty, rest) in [
        (
            STREAM_TYPE_CONTROL,
            encode_frames(&[settings_frame(&FrameSettings::new())]),
        ),
        (STREAM_TYPE_QPACK_ENCODER, Bytes::new()),
        (STREAM_TYPE_QPACK_DECODER, Bytes::new()),
    ] {
        let mut conn = MockConn::new();
        let mut plane = Plane::new(LocalSettings::default());
        let mut peer = MockStream::new();
        peer.feed(&[ty as u8]);
        peer.feed(&rest);
        conn.peer_unis.push_back(peer);
        while plane.poll_read(&mut conn).expect("valid").is_some() {}
        assert!(plane.control.holds(0));
        let result = reset_stream(&mut plane, &mut conn, 0);
        assert_eq!(result, Err(ControlError::ClosedCriticalStream));
    }
}

#[test]
fn reset_of_an_unknown_stream_is_no_error() {
    let mut conn = MockConn::new();
    let mut plane = Plane::new(LocalSettings::default());
    let mut peer = MockStream::new();
    peer.feed(&[0x21, 0xff, 0xff]);
    conn.peer_unis.push_back(peer);
    assert_eq!(plane.poll_read(&mut conn), Ok(None));
    assert!(plane.control.is_discarding());
    assert!(reset_stream(&mut plane, &mut conn, 0).is_ok());
    assert!(!plane.control.is_discarding());
    assert_eq!(plane.poll_read(&mut conn), Ok(None));
}

#[test]
fn settings_in_the_first_chunk_are_seen_before_the_end() {
    let mut conn = MockConn::new();
    let mut plane = Plane::new(LocalSettings::default());
    let mut peer = MockStream::new();
    let mut first = vec![STREAM_TYPE_CONTROL as u8];
    first.extend_from_slice(&encode_frames(&[settings_frame(&FrameSettings::new())]));
    peer.feed(&first);
    peer.finish();
    conn.peer_unis.push_back(peer);
    assert_eq!(
        plane.poll_read(&mut conn),
        Err(ControlError::ClosedCriticalStream)
    );
    assert!(plane.control.settings_received());
}

#[test]
fn acknowledgment_in_the_first_chunk_reaches_the_encoder() {
    let mut conn = MockConn::new();
    let mut plane = Plane::new(LocalSettings::default());
    let mut settings = FrameSettings::new();
    settings.insert(SETTINGS_QPACK_MAX_TABLE_CAPACITY, 4096);
    let mut control = MockStream::new();
    control.feed(&[STREAM_TYPE_CONTROL as u8]);
    control.feed(&encode_frames(&[settings_frame(&settings)]));
    conn.peer_unis.push_back(control);
    while plane.poll_read(&mut conn).expect("valid").is_some() {}
    let line = (Bytes::from_static(b"x-name"), Bytes::from_static(b"value"));
    assert!(plane.codecs.can_encode(1));
    plane.codecs.encode_section(0, &[line]).unwrap();
    assert_eq!(plane.codecs.encoder().unwrap().pending_refs().len(), 1);
    let mut decoder = MockStream::new();
    decoder.feed(&[STREAM_TYPE_QPACK_DECODER as u8, 0x80, 0x01]);
    conn.peer_unis.push_back(decoder);
    assert_eq!(plane.poll_read(&mut conn), Ok(None));
    assert_eq!(plane.codecs.encoder().unwrap().pending_refs().len(), 0);
    assert_eq!(plane.codecs.encoder().unwrap().known_received(), 1);
}

#[test]
fn stalled_control_write_is_offered_again_as_it_was() {
    let mut conn = MockConn::new();
    let mut plane = Plane::new(LocalSettings::default());
    plane.init(&mut conn);
    let (handle, first) = plane.control.poll_flush(false).unwrap();
    plane.control.send_goaway(8);
    let (again, second) = plane.control.poll_flush(false).unwrap();
    assert_eq!(handle, again);
    assert_eq!(first.as_ptr(), second.as_ptr());
    assert_eq!(first.len(), second.len());
    let (_, goaway) = plane.control.poll_flush(true).unwrap();
    assert_eq!(goaway, encode_frames(&[Frame::Goaway(8)]));
}
