//! The options and their defaults.

use std::time::Duration;
use vibeio_http::h3::settings::LocalSettings;
use vibeio_http::{h3, h3_legacy};

#[test]
fn options_have_the_documented_defaults() {
    let options = h3::Http3Options::default();
    assert_eq!(options.accept_timeout, Some(Duration::from_secs(30)));
    assert_eq!(options.handshake_timeout, Some(Duration::from_secs(30)));
    assert!(options.send_continue_response);
    assert!(options.send_date_header);
    assert_eq!(
        options.local_settings,
        LocalSettings {
            qpack_max_table_capacity: 0,
            qpack_blocked_streams: 0,
            max_field_section_size: None,
            enable_connect_protocol: false,
        }
    );
}

#[test]
fn options_are_set_one_by_one() {
    let options = h3::Http3Options::new()
        .qpack_max_table_capacity(4096)
        .qpack_blocked_streams(16)
        .max_field_section_size(Some(1000))
        .enable_connect_protocol(true)
        .accept_timeout(None)
        .handshake_timeout(Some(Duration::from_secs(10)))
        .send_continue_response(false)
        .send_date_header(false);
    assert_eq!(
        options.local_settings,
        LocalSettings {
            qpack_max_table_capacity: 4096,
            qpack_blocked_streams: 16,
            max_field_section_size: Some(1000),
            enable_connect_protocol: true,
        }
    );
    assert_eq!(options.accept_timeout, None);
    assert_eq!(options.handshake_timeout, Some(Duration::from_secs(10)));
    assert!(!options.send_continue_response);
    assert!(!options.send_date_header);
}

#[test]
fn legacy_options_carry_the_builder() {
    let mut options = h3_legacy::Http3Options::new("builder".to_string())
        .accept_timeout(None)
        .send_date_header(false);
    options.h3_builder().push('!');
    assert_eq!(options.h3, "builder!");
    assert_eq!(options.accept_timeout, None);
    assert_eq!(options.handshake_timeout, Some(Duration::from_secs(30)));
    assert!(options.send_continue_response);
    assert!(!options.send_date_header);
    let options = options
        .handshake_timeout(Some(Duration::from_secs(5)))
        .send_continue_response(false);
    assert_eq!(options.handshake_timeout, Some(Duration::from_secs(5)));
    assert!(!options.send_continue_response);
}
