//! Settings: defaults, overlays, and the SETTINGS frame.

use vibeio_http::h3::frame::Settings as FrameSettings;
use vibeio_http::h3::frame::{
    SETTINGS_ENABLE_CONNECT_PROTOCOL, SETTINGS_MAX_FIELD_SECTION_SIZE,
    SETTINGS_QPACK_BLOCKED_STREAMS, SETTINGS_QPACK_MAX_TABLE_CAPACITY,
};
use vibeio_http::h3::settings::{LocalSettings, PeerSettings};

#[test]
fn peer_settings_defaults_match_rfc() {
    let peer = PeerSettings::default();
    assert_eq!(peer.qpack_max_table_capacity(), 0);
    assert_eq!(peer.max_field_section_size(), None);
    assert_eq!(peer.qpack_blocked_streams(), 0);
    assert!(!peer.enable_connect_protocol());
}

#[test]
fn apply_overlays_received_values() {
    let mut peer = PeerSettings::default();
    let mut frame = FrameSettings::new();
    frame.insert(SETTINGS_QPACK_MAX_TABLE_CAPACITY, 4096);
    frame.insert(SETTINGS_MAX_FIELD_SECTION_SIZE, 16384);
    frame.insert(SETTINGS_QPACK_BLOCKED_STREAMS, 16);
    frame.insert(SETTINGS_ENABLE_CONNECT_PROTOCOL, 1);
    peer.apply(&frame);

    assert_eq!(peer.qpack_max_table_capacity(), 4096);
    assert_eq!(peer.max_field_section_size(), Some(16384));
    assert_eq!(peer.qpack_blocked_streams(), 16);
    assert!(peer.enable_connect_protocol());

    // Partial frames only overlay what they carry.
    let mut partial = FrameSettings::new();
    partial.insert(SETTINGS_MAX_FIELD_SECTION_SIZE, 0);
    peer.apply(&partial);
    assert_eq!(peer.qpack_max_table_capacity(), 4096);
    assert_eq!(peer.max_field_section_size(), Some(0));
    assert_eq!(peer.qpack_blocked_streams(), 16);
}

#[test]
fn local_settings_round_trip_through_frame() {
    let local = LocalSettings {
        qpack_max_table_capacity: 4096,
        qpack_blocked_streams: 16,
        max_field_section_size: Some(100),
        enable_connect_protocol: true,
    };
    let mut peer = PeerSettings::default();
    peer.apply(&local.to_frame());

    assert_eq!(peer.qpack_max_table_capacity(), 4096);
    assert_eq!(peer.qpack_blocked_streams(), 16);
    assert_eq!(peer.max_field_section_size(), Some(100));
    assert!(peer.enable_connect_protocol());
}

#[test]
fn local_settings_frame_always_carries_grease() {
    let frame = LocalSettings::default().to_frame();
    // The reserved identifier must be present; its value is ignored.
    assert_eq!(frame.get(0x21), Some(0));
    // Defaults need not be re-announced, but sending them is legal.
    assert_eq!(frame.get(SETTINGS_QPACK_MAX_TABLE_CAPACITY), Some(0));
}
