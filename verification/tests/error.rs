//! HTTP/3 error codes and their `io::Error` counterparts.

use vibeio_http::h3::qpack::QpackError;
use vibeio_http::h3::{H3Error, TransportError};

#[test]
fn rfc_9114_codes_round_trip() {
    let table = [
        (H3Error::NoError, 0x0100),
        (H3Error::GeneralProtocol, 0x0101),
        (H3Error::Internal, 0x0102),
        (H3Error::StreamCreation, 0x0103),
        (H3Error::ClosedCriticalStream, 0x0104),
        (H3Error::FrameUnexpected, 0x0105),
        (H3Error::FrameError, 0x0106),
        (H3Error::ExcessiveLoad, 0x0107),
        (H3Error::Id, 0x0108),
        (H3Error::Settings, 0x0109),
        (H3Error::MissingSettings, 0x010a),
        (H3Error::RequestRejected, 0x010b),
        (H3Error::RequestCancelled, 0x010c),
        (H3Error::RequestIncomplete, 0x010d),
        (H3Error::Message, 0x010e),
        (H3Error::Connect, 0x010f),
        (H3Error::VersionFallback, 0x0110),
    ];
    for (err, code) in table {
        assert_eq!(err.code(), code, "{err:?} code");
        assert_eq!(H3Error::from_code(code), Some(err));
    }
    assert_eq!(H3Error::from_code(0x00ff), None);
    assert_eq!(H3Error::from_code(0x0111), None);
    assert_eq!(H3Error::from_code(0x0200), None); // QPACK family is separate
}

#[test]
fn qpack_family_is_separate() {
    // QPACK error codes (RFC 9204 Section 6) must never collide with
    // the HTTP/3 family, so the two families can be distinguished by
    // code alone.
    assert_eq!(
        QpackError::DecompressionFailed.code(),
        0x0200
    );
    assert_eq!(QpackError::EncoderStream.code(), 0x0201);
    assert_eq!(QpackError::DecoderStream.code(), 0x0202);
}

#[test]
fn transport_error_to_io_kinds() {
    let err: std::io::Error = TransportError::Closed { code: 0x0100 }.into();
    assert_eq!(err.kind(), std::io::ErrorKind::ConnectionAborted);
    let err: std::io::Error = TransportError::Reset { code: 0x010c }.into();
    assert_eq!(err.kind(), std::io::ErrorKind::ConnectionReset);
    let err: std::io::Error = TransportError::Stopped { code: 0x010c }.into();
    assert_eq!(err.kind(), std::io::ErrorKind::ConnectionReset);
    let err: std::io::Error = TransportError::Timeout.into();
    assert_eq!(err.kind(), std::io::ErrorKind::TimedOut);
    let err: std::io::Error = TransportError::Transport.into();
    assert_eq!(err.kind(), std::io::ErrorKind::Other);
    let err: std::io::Error = TransportError::Other.into();
    assert_eq!(err.kind(), std::io::ErrorKind::Other);
}

#[test]
fn h3_error_to_io_mentions_code() {
    let err: std::io::Error = H3Error::FrameUnexpected.into();
    let text = err.to_string();
    assert!(text.contains("0x0105"), "got: {text}");
    assert!(text.contains("FrameUnexpected"), "got: {text}");
}

#[test]
fn errors_say_what_they_are() {
    assert_eq!(
        TransportError::Closed { code: 0x0100 }.message(),
        "connection closed with code 0x100"
    );
    assert_eq!(
        TransportError::Reset { code: 0x010c }.message(),
        "stream reset with code 0x10c"
    );
    assert_eq!(TransportError::Timeout.message(), "transport timed out");
    let err: std::io::Error = TransportError::Stopped { code: 1 }.into();
    assert_eq!(err.to_string(), "stream stopped with code 0x1");
    let err: std::io::Error = H3Error::NoError.into();
    assert_eq!(err.to_string(), H3Error::NoError.message());
}

#[test]
fn error_codes_are_distinct() {
    let mut codes: Vec<u64> = (0x0100..=0x0110)
        .filter_map(H3Error::from_code)
        .map(|err| err.code())
        .collect();
    assert_eq!(codes.len(), 17);
    codes.dedup();
    assert_eq!(codes.len(), 17);
}

#[test]
fn codes_are_written_in_hexadecimal() {
    for (code, text) in [
        (0, "stream reset with code 0x0"),
        (0x10c, "stream reset with code 0x10c"),
        (u64::MAX, "stream reset with code 0xffffffffffffffff"),
    ] {
        assert_eq!(TransportError::Reset { code }.message(), text);
    }
    assert_eq!(H3Error::Message.message(), "Message (0x010e)");
}
