//! Prefixed integers, the Huffman code and string literals.

use vibeio_http::hpack::{huffman, integer, string, HpackError};

#[test]
fn integer_examples() {
    // RFC 7541 Appendix C.1.
    let mut out = Vec::new();
    integer::encode(&mut out, 10, 5, 0);
    assert_eq!(out, [0x0a]);
    let mut out = Vec::new();
    integer::encode(&mut out, 1337, 5, 0);
    assert_eq!(out, [0x1f, 0x9a, 0x0a]);
    let mut out = Vec::new();
    integer::encode(&mut out, 42, 8, 0);
    assert_eq!(out, [0x2a]);
}

#[test]
fn integers_round_trip() {
    for bits in 1..=8u8 {
        for value in [0, 1, 30, 31, 127, 128, 255, 256, 1 << 32, u64::MAX] {
            let mut out = Vec::new();
            integer::encode(&mut out, value, bits, 0);
            out.push(0xff);
            let mut off = 0;
            assert_eq!(integer::decode(&out, &mut off, bits), Ok(value));
            assert_eq!(off, out.len() - 1);
        }
    }
}

#[test]
fn integers_that_do_not_fit_are_refused() {
    let mut off = 0;
    assert_eq!(
        integer::decode(&[0x1f, 0x9a], &mut off, 5),
        Err(HpackError::InvalidInteger)
    );
    let mut off = 0;
    let long = [0xff; 12];
    assert_eq!(
        integer::decode(&long, &mut off, 8),
        Err(HpackError::InvalidInteger)
    );
}

#[test]
fn huffman_examples() {
    // RFC 7541 Appendix C.4.
    let mut out = Vec::new();
    huffman::encode(b"www.example.com", &mut out);
    assert_eq!(
        out,
        [0xf1, 0xe3, 0xc2, 0xe5, 0xf2, 0x3a, 0x6b, 0xa0, 0xab, 0x90, 0xf4, 0xff]
    );
    // In bits.
    assert_eq!(huffman::encoded_len(b"www.example.com"), 89);
    assert_eq!(huffman::decode(&out), Ok(b"www.example.com".to_vec()));
}

#[test]
fn huffman_round_trips_every_octet() {
    let all: Vec<u8> = (0..=255u8).collect();
    let mut out = Vec::new();
    huffman::encode(&all, &mut out);
    assert_eq!(huffman::decode(&out), Ok(all));
}

#[test]
fn huffman_padding_is_checked() {
    // 'a' is 00011; the padding must be ones.
    assert_eq!(huffman::decode(&[0x1f]), Ok(b"a".to_vec()));
    assert_eq!(huffman::decode(&[0x18]), Err(HpackError::InvalidHuffman));
    // A whole octet of padding.
    assert_eq!(
        huffman::decode(&[0x1f, 0xff]),
        Err(HpackError::InvalidHuffman)
    );
}

#[test]
fn strings_round_trip() {
    for compress in [false, true] {
        let mut out = Vec::new();
        string::encode(&mut out, b"custom-key", 8, 0, compress);
        let mut off = 0;
        let text = string::decode(&out, &mut off, 8).expect("a string");
        assert_eq!(&text[..], b"custom-key");
        assert_eq!(off, out.len());
        assert_eq!(out[0] & 0x80 != 0, compress);
    }
    let mut off = 0;
    assert_eq!(
        string::decode(&[0x05, b'a'], &mut off, 8),
        Err(HpackError::InvalidString)
    );
}
