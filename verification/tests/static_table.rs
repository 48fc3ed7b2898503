//! The QPACK static table.

use vibeio_http::h3::qpack::static_table::{find, find_name, get, STATIC_TABLE_SIZE};

#[test]
fn table_has_99_entries() {
    assert_eq!(STATIC_TABLE_SIZE, 99);
}

#[test]
fn every_entry_is_reachable_by_index() {
    for index in 0..STATIC_TABLE_SIZE {
        let (name, _) = get(index).expect("entry within range");
        assert!(!name.is_empty(), "entry {index} has an empty name");
    }
    assert!(get(STATIC_TABLE_SIZE).is_none());
}

#[test]
fn boundary_entries_match_the_rfc() {
    // First entry.
    assert_eq!(get(0), Some((&b":authority"[..], &b""[..])));
    // Last entry.
    assert_eq!(get(98), Some((&b"x-frame-options"[..], &b"sameorigin"[..])));
    // Multi-line values from the RFC table (Appendix A).
    assert_eq!(
        get(44),
        Some((&b"content-type"[..], &b"application/dns-message"[..]))
    );
    assert_eq!(
        get(58),
        Some((
            &b"strict-transport-security"[..],
            &b"max-age=31536000; includesubdomains; preload"[..]
        ))
    );
    assert_eq!(
        get(85),
        Some((
            &b"content-security-policy"[..],
            &b"script-src 'none'; object-src 'none'; base-uri 'none'"[..]
        ))
    );
}

#[test]
fn find_matches_exact_name_and_value() {
    assert_eq!(find(b":status", b"200"), Some(25));
    assert_eq!(find(b":method", b"GET"), Some(17));
    assert_eq!(find(b":method", b"get"), None);
    assert_eq!(find(b":status", b"201"), None);
    assert_eq!(find(b"user-agent", b""), Some(95));
    assert_eq!(find(b"x-frame-options", b"deny"), Some(97));
}

#[test]
fn find_name_returns_lowest_index() {
    assert_eq!(find_name(b":authority"), Some(0));
    assert_eq!(find_name(b"content-type"), Some(44));
    assert_eq!(find_name(b"cache-control"), Some(36));
    assert_eq!(find_name(b"no-such-header"), None);
}

#[test]
fn every_entry_round_trips_through_find() {
    // Guards against transcription errors: each entry must be found by
    // its own name/value pair, and no two entries may share a pair
    // (find must return the entry's own index).
    for index in 0..STATIC_TABLE_SIZE {
        let (name, value) = get(index).expect("entry within range");
        assert_eq!(
            find(name, value),
            Some(index),
            "static table entry {index} is not uniquely findable"
        );
    }
}
