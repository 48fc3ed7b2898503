//! Field sections as requests and trailers.

use bytes::Bytes;
use vibeio_http::h3::message::{
    build_request, build_request_with_uri, build_uri, header_map, StreamError, Target,
};

fn hdr(name: &str, value: &str) -> (Bytes, Bytes) {
    (
        Bytes::copy_from_slice(name.as_bytes()),
        Bytes::copy_from_slice(value.as_bytes()),
    )
}

fn get(path: &[u8]) -> Vec<(Bytes, Bytes)> {
    vec![
        hdr(":method", "GET"),
        hdr(":scheme", "https"),
        hdr(":authority", "example.com"),
        (
            Bytes::from_static(b":path"),
            Bytes::copy_from_slice(path),
        ),
    ]
}

#[test]
fn request_takes_the_uri_it_is_given() {
    let lines = get(b"/a");
    let head = build_request_with_uri(&lines, Some("https://example.com/a".to_string())).unwrap();
    assert_eq!(head, build_request(&lines).unwrap());
    assert_eq!(&head.method[..], b"GET");
    assert_eq!(
        build_request_with_uri(&lines, None),
        Err(StreamError::Message)
    );
    assert_eq!(
        build_request_with_uri(&lines[1..], Some("https://example.com/a".to_string())),
        Err(StreamError::Message)
    );
}

#[test]
fn octets_that_are_no_text_are_replaced() {
    let head = build_request_with_uri(&get(b"/\xff"), Some("/".to_string())).unwrap();
    assert_eq!(head.target.path, "/\u{fffd}");
}

#[test]
fn uri_needs_valid_parts() {
    let target = Target {
        scheme: Some("https".to_string()),
        authority: Some("example.com:8443".to_string()),
        path: "/p?q".to_string(),
    };
    assert_eq!(
        build_uri(&target),
        Ok("https://example.com:8443/p?q".to_string())
    );
    let bad = Target {
        scheme: Some("ht tp".to_string()),
        ..target.clone()
    };
    assert_eq!(build_uri(&bad), Err(StreamError::Message));
    let path_only = Target {
        scheme: None,
        authority: None,
        path: "/p".to_string(),
    };
    assert_eq!(build_uri(&path_only), Ok("/p".to_string()));
}

#[test]
fn trailers_keep_order_and_values() {
    assert_eq!(
        header_map(&[hdr("X-B", "2"), hdr("x-a", "one two"), hdr("x-b", "3")]),
        Ok(vec![
            hdr("x-b", "2"),
            hdr("x-a", "one two"),
            hdr("x-b", "3")
        ])
    );
    assert_eq!(header_map(&[]), Ok(vec![]));
    assert_eq!(header_map(&[hdr("", "x")]), Err(StreamError::Message));
    assert_eq!(
        header_map(&[hdr("x", "a\r\nb")]),
        Err(StreamError::Message)
    );
    assert_eq!(header_map(&[hdr(":x", "1")]), Err(StreamError::Message));
    // A tab is fine, and so are octets beyond ASCII.
    assert!(header_map(&[hdr("x", "a\tb\u{e9}")]).is_ok());
}

#[test]
fn names_have_a_largest_length() {
    let longest = "a".repeat(65_535);
    assert!(header_map(&[hdr(&longest, "1")]).is_ok());
    let longer = "a".repeat(65_536);
    assert_eq!(
        header_map(&[hdr(&longer, "1")]),
        Err(StreamError::Message)
    );
}

#[test]
fn every_octet_is_judged_as_a_name_and_a_value() {
    for octet in 0..=255u8 {
        let token = octet.is_ascii_alphanumeric() || b"!#$%&'*+-.^_`|~".contains(&octet);
        let name = (Bytes::copy_from_slice(&[b'x', octet]), Bytes::new());
        assert_eq!(header_map(&[name]).is_ok(), token, "name octet {octet}");
        let visible = octet == b'\t' || (octet >= 0x20 && octet != 0x7f);
        let value = (Bytes::from_static(b"x"), Bytes::copy_from_slice(&[octet]));
        assert_eq!(header_map(&[value]).is_ok(), visible, "value octet {octet}");
        let mut lines = get(b"/");
        lines[0].1 = Bytes::copy_from_slice(&[b'G', octet]);
        assert_eq!(build_request(&lines).is_ok(), token, "method octet {octet}");
    }
}
