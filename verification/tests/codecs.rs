//! The queues of unblocked field sections.

use bytes::Bytes;
use vibeio_http::h3::codecs::SharedCodecs;
use vibeio_http::h3::qpack::Encoder;
use vibeio_http::h3::settings::LocalSettings;

fn hdr(name: &str, value: &str) -> (Bytes, Bytes) {
    (
        Bytes::copy_from_slice(name.as_bytes()),
        Bytes::copy_from_slice(value.as_bytes()),
    )
}

/// Codecs with two blocked sections on stream 0 and one on stream 4, all of
/// which the returned octets unblock.
fn blocked() -> (SharedCodecs, Vec<u8>) {
    let mut codecs = SharedCodecs::new(&LocalSettings {
        qpack_max_table_capacity: 4096,
        qpack_blocked_streams: 16,
        ..LocalSettings::default()
    });
    let mut peer = Encoder::new(4096, true);
    let mut encoder_stream: Vec<u8> = Vec::new();
    for (stream_id, name) in [(0u64, "x-first"), (4, "x-second"), (0, "x-third")] {
        let section = peer.encode_section(stream_id, &[hdr(name, "value")]);
        encoder_stream.extend_from_slice(&section.encoder_stream);
        assert!(matches!(
            codecs.decode_block(&section.block, stream_id, 0),
            Ok(None)
        ));
    }
    (codecs, encoder_stream)
}

#[test]
fn each_stream_takes_its_sections_in_arrival_order() {
    let (mut codecs, encoder_stream) = blocked();
    assert!(codecs.take_unblocked_for(0).is_none());
    assert!(codecs.can_feed(encoder_stream.len()));
    let acks = codecs.feed_encoder_stream(&encoder_stream).unwrap();
    assert!(!acks.is_empty());

    let first = codecs.take_unblocked_for(0).unwrap();
    assert_eq!(first.stream_id, 0);
    assert_eq!(first.headers, vec![hdr("x-first", "value")]);
    let third = codecs.take_unblocked_for(0).unwrap();
    assert_eq!(third.headers, vec![hdr("x-third", "value")]);
    assert!(codecs.take_unblocked_for(0).is_none());

    assert!(codecs.take_unblocked_for(8).is_none());
    let second = codecs.take_unblocked_for(4).unwrap();
    assert_eq!(second.headers, vec![hdr("x-second", "value")]);
    assert!(codecs.take_unblocked_for(4).is_none());
    assert!(codecs.take_unblocked().is_empty());
}

#[test]
fn all_queues_are_taken_at_once() {
    let (mut codecs, encoder_stream) = blocked();
    assert!(codecs.can_feed(encoder_stream.len()));
    codecs.feed_encoder_stream(&encoder_stream).unwrap();

    let queues = codecs.take_unblocked();
    assert_eq!(queues.len(), 2);
    assert_eq!(queues[&0].len(), 2);
    assert_eq!(queues[&0][0].headers, vec![hdr("x-first", "value")]);
    assert_eq!(queues[&0][1].headers, vec![hdr("x-third", "value")]);
    assert_eq!(queues[&4].len(), 1);
    assert!(codecs.take_unblocked().is_empty());
    assert!(codecs.take_unblocked_for(0).is_none());
}
