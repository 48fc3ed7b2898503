//! QPACK static table (RFC 9204 Appendix A).
//!
//! The static table is the same for every connection and never changes: 99
//! field lines, indexed from 0. Names are lowercase ASCII, values keep their
//! exact case, and an entry stands for a field line only where both match
//! octet for octet.

use crate::octets::same;
use vstd::prelude::*;

verus! {

/// Number of entries in the static table (indices `0..99`).
pub const STATIC_TABLE_SIZE: usize = 99;

/// The name and the value of the entry at `index`.
pub open spec fn text(index: usize) -> (&'static str, &'static str) {
    match index {
        0 => (":authority", ""),
        1 => (":path", "/"),
        2 => ("age", "0"),
        3 => ("content-disposition", ""),
        4 => ("content-length", "0"),
        5 => ("cookie", ""),
        6 => ("date", ""),
        7 => ("etag", ""),
        8 => ("if-modified-since", ""),
        9 => ("if-none-match", ""),
        10 => ("last-modified", ""),
        11 => ("link", ""),
        12 => ("location", ""),
        13 => ("referer", ""),
        14 => ("set-cookie", ""),
        15 => (":method", "CONNECT"),
        16 => (":method", "DELETE"),
        17 => (":method", "GET"),
        18 => (":method", "HEAD"),
        19 => (":method", "OPTIONS"),
        20 => (":method", "POST"),
        21 => (":method", "PUT"),
        22 => (":scheme", "http"),
        23 => (":scheme", "https"),
        24 => (":status", "103"),
        25 => (":status", "200"),
        26 => (":status", "304"),
        27 => (":status", "404"),
        28 => (":status", "503"),
        29 => ("accept", "*/*"),
        30 => ("accept", "application/dns-message"),
        31 => ("accept-encoding", "gzip, deflate, br"),
        32 => ("accept-ranges", "bytes"),
        33 => ("access-control-allow-headers", "cache-control"),
        34 => ("access-control-allow-headers", "content-type"),
        35 => ("access-control-allow-origin", "*"),
        36 => ("cache-control", "max-age=0"),
        37 => ("cache-control", "max-age=2592000"),
        38 => ("cache-control", "max-age=604800"),
        39 => ("cache-control", "no-cache"),
        40 => ("cache-control", "no-store"),
        41 => ("cache-control", "public, max-age=31536000"),
        42 => ("content-encoding", "br"),
        43 => ("content-encoding", "gzip"),
        44 => ("content-type", "application/dns-message"),
        45 => ("content-type", "application/javascript"),
        46 => ("content-type", "application/json"),
        47 => ("content-type", "application/x-www-form-urlencoded"),
        48 => ("content-type", "image/gif"),
        49 => ("content-type", "image/jpeg"),
        50 => ("content-type", "image/png"),
        51 => ("content-type", "text/css"),
        52 => ("content-type", "text/html; charset=utf-8"),
        53 => ("content-type", "text/plain"),
        54 => ("content-type", "text/plain;charset=utf-8"),
        55 => ("range", "bytes=0-"),
        56 => ("strict-transport-security", "max-age=31536000"),
        57 => ("strict-transport-security", "max-age=31536000; includesubdomains"),
        58 => ("strict-transport-security", "max-age=31536000; includesubdomains; preload"),
        59 => ("vary", "accept-encoding"),
        60 => ("vary", "origin"),
        61 => ("x-content-type-options", "nosniff"),
        62 => ("x-xss-protection", "1; mode=block"),
        63 => (":status", "100"),
        64 => (":status", "204"),
        65 => (":status", "206"),
        66 => (":status", "302"),
        67 => (":status", "400"),
        68 => (":status", "403"),
        69 => (":status", "421"),
        70 => (":status", "425"),
        71 => (":status", "500"),
        72 => ("accept-language", ""),
        73 => ("access-control-allow-credentials", "FALSE"),
        74 => ("access-control-allow-credentials", "TRUE"),
        75 => ("access-control-allow-headers", "*"),
        76 => ("access-control-allow-methods", "get"),
        77 => ("access-control-allow-methods", "get, post, options"),
        78 => ("access-control-allow-methods", "options"),
        79 => ("access-control-expose-headers", "content-length"),
        80 => ("access-control-request-headers", "content-type"),
        81 => ("access-control-request-method", "get"),
        82 => ("access-control-request-method", "post"),
        83 => ("alt-svc", "clear"),
        84 => ("authorization", ""),
        85 => ("content-security-policy", "script-src 'none'; object-src 'none'; base-uri 'none'"),
        86 => ("early-data", "1"),
        87 => ("expect-ct", ""),
        88 => ("forwarded", ""),
        89 => ("if-range", ""),
        90 => ("origin", ""),
        91 => ("purpose", "prefetch"),
        92 => ("server", ""),
        93 => ("timing-allow-origin", "*"),
        94 => ("upgrade-insecure-requests", "1"),
        95 => ("user-agent", ""),
        96 => ("x-forwarded-for", ""),
        97 => ("x-frame-options", "deny"),
        _ => ("x-frame-options", "sameorigin"),
    }
}

/// The entry at `index`, as octets.
pub open spec fn entry(index: nat) -> (Seq<u8>, Seq<u8>) {
    (
        vstd::utf8::encode_utf8(text(index as usize).0@),
        vstd::utf8::encode_utf8(text(index as usize).1@),
    )
}

/// The lowest index from `from` on whose entry is the field line
/// `(name, value)`.
pub open spec fn index_of(name: Seq<u8>, value: Seq<u8>, from: nat) -> Option<nat>
    decreases STATIC_TABLE_SIZE - from,
{
    if from >= STATIC_TABLE_SIZE {
        None
    } else if entry(from) == (name, value) {
        Some(from)
    } else {
        index_of(name, value, from + 1)
    }
}

/// The lowest index from `from` on whose entry is named `name`.
pub open spec fn index_of_name(name: Seq<u8>, from: nat) -> Option<nat>
    decreases STATIC_TABLE_SIZE - from,
{
    if from >= STATIC_TABLE_SIZE {
        None
    } else if entry(from).0 == name {
        Some(from)
    } else {
        index_of_name(name, from + 1)
    }
}

/// What a search finds is an entry of the table.
pub proof fn lemma_index_of(name: Seq<u8>, value: Seq<u8>, from: nat)
    ensures
        index_of(name, value, from) matches Some(i) ==> from <= i < STATIC_TABLE_SIZE && entry(i)
            == (name, value),
    decreases STATIC_TABLE_SIZE - from,
{
    if from < STATIC_TABLE_SIZE && entry(from) != (name, value) {
        lemma_index_of(name, value, from + 1);
    }
}

/// What a search by name finds is an entry with that name.
pub proof fn lemma_index_of_name(name: Seq<u8>, from: nat)
    ensures
        index_of_name(name, from) matches Some(i) ==> from <= i < STATIC_TABLE_SIZE && entry(i).0
            == name,
    decreases STATIC_TABLE_SIZE - from,
{
    if from < STATIC_TABLE_SIZE && entry(from).0 != name {
        lemma_index_of_name(name, from + 1);
    }
}

fn text_at(index: usize) -> (r: (&'static str, &'static str))
    ensures
        r == text(index),
{
    match index {
        0 => (":authority", ""),
        1 => (":path", "/"),
        2 => ("age", "0"),
        3 => ("content-disposition", ""),
        4 => ("content-length", "0"),
        5 => ("cookie", ""),
        6 => ("date", ""),
        7 => ("etag", ""),
        8 => ("if-modified-since", ""),
        9 => ("if-none-match", ""),
        10 => ("last-modified", ""),
        11 => ("link", ""),
        12 => ("location", ""),
        13 => ("referer", ""),
        14 => ("set-cookie", ""),
        15 => (":method", "CONNECT"),
        16 => (":method", "DELETE"),
        17 => (":method", "GET"),
        18 => (":method", "HEAD"),
        19 => (":method", "OPTIONS"),
        20 => (":method", "POST"),
        21 => (":method", "PUT"),
        22 => (":scheme", "http"),
        23 => (":scheme", "https"),
        24 => (":status", "103"),
        25 => (":status", "200"),
        26 => (":status", "304"),
        27 => (":status", "404"),
        28 => (":status", "503"),
        29 => ("accept", "*/*"),
        30 => ("accept", "application/dns-message"),
        31 => ("accept-encoding", "gzip, deflate, br"),
        32 => ("accept-ranges", "bytes"),
        33 => ("access-control-allow-headers", "cache-control"),
        34 => ("access-control-allow-headers", "content-type"),
        35 => ("access-control-allow-origin", "*"),
        36 => ("cache-control", "max-age=0"),
        37 => ("cache-control", "max-age=2592000"),
        38 => ("cache-control", "max-age=604800"),
        39 => ("cache-control", "no-cache"),
        40 => ("cache-control", "no-store"),
        41 => ("cache-control", "public, max-age=31536000"),
        42 => ("content-encoding", "br"),
        43 => ("content-encoding", "gzip"),
        44 => ("content-type", "application/dns-message"),
        45 => ("content-type", "application/javascript"),
        46 => ("content-type", "application/json"),
        47 => ("content-type", "application/x-www-form-urlencoded"),
        48 => ("content-type", "image/gif"),
        49 => ("content-type", "image/jpeg"),
        50 => ("content-type", "image/png"),
        51 => ("content-type", "text/css"),
        52 => ("content-type", "text/html; charset=utf-8"),
        53 => ("content-type", "text/plain"),
        54 => ("content-type", "text/plain;charset=utf-8"),
        55 => ("range", "bytes=0-"),
        56 => ("strict-transport-security", "max-age=31536000"),
        57 => ("strict-transport-security", "max-age=31536000; includesubdomains"),
        58 => ("strict-transport-security", "max-age=31536000; includesubdomains; preload"),
        59 => ("vary", "accept-encoding"),
        60 => ("vary", "origin"),
        61 => ("x-content-type-options", "nosniff"),
        62 => ("x-xss-protection", "1; mode=block"),
        63 => (":status", "100"),
        64 => (":status", "204"),
        65 => (":status", "206"),
        66 => (":status", "302"),
        67 => (":status", "400"),
        68 => (":status", "403"),
        69 => (":status", "421"),
        70 => (":status", "425"),
        71 => (":status", "500"),
        72 => ("accept-language", ""),
        73 => ("access-control-allow-credentials", "FALSE"),
        74 => ("access-control-allow-credentials", "TRUE"),
        75 => ("access-control-allow-headers", "*"),
        76 => ("access-control-allow-methods", "get"),
        77 => ("access-control-allow-methods", "get, post, options"),
        78 => ("access-control-allow-methods", "options"),
        79 => ("access-control-expose-headers", "content-length"),
        80 => ("access-control-request-headers", "content-type"),
        81 => ("access-control-request-method", "get"),
        82 => ("access-control-request-method", "post"),
        83 => ("alt-svc", "clear"),
        84 => ("authorization", ""),
        85 => ("content-security-policy", "script-src 'none'; object-src 'none'; base-uri 'none'"),
        86 => ("early-data", "1"),
        87 => ("expect-ct", ""),
        88 => ("forwarded", ""),
        89 => ("if-range", ""),
        90 => ("origin", ""),
        91 => ("purpose", "prefetch"),
        92 => ("server", ""),
        93 => ("timing-allow-origin", "*"),
        94 => ("upgrade-insecure-requests", "1"),
        95 => ("user-agent", ""),
        96 => ("x-forwarded-for", ""),
        97 => ("x-frame-options", "deny"),
        _ => ("x-frame-options", "sameorigin"),
    }
}

/// Returns the `(name, value)` pair of the static table entry at `index`, or
/// `None` when `index` is out of range (>= 99).
pub fn get(index: usize) -> (r: Option<(&'static [u8], &'static [u8])>)
    ensures
        match r {
            Some((name, value)) => index < STATIC_TABLE_SIZE && (name@, value@) == entry(
                index as nat,
            ),
            None => index >= STATIC_TABLE_SIZE,
        },
{
    if index >= STATIC_TABLE_SIZE {
        return None;
    }
    let (name, value) = text_at(index);
    Some((name.as_bytes(), value.as_bytes()))
}

/// Returns the index of the first entry whose name **and** value match `name`
/// and `value` exactly.
pub fn find(name: &[u8], value: &[u8]) -> (r: Option<usize>)
    ensures
        match index_of(name@, value@, 0) {
            Some(i) => r == Some(i as usize) && i < STATIC_TABLE_SIZE,
            None => r is None,
        },
{
    find_full_or_name(name, value).0
}

/// Returns the index of the first entry whose name matches `name`.
pub fn find_name(name: &[u8]) -> (r: Option<usize>)
    ensures
        match index_of_name(name@, 0) {
            Some(i) => r == Some(i as usize) && i < STATIC_TABLE_SIZE,
            None => r is None,
        },
{
    let mut i: usize = 0;
    while i < STATIC_TABLE_SIZE
        invariant
            i <= STATIC_TABLE_SIZE,
            index_of_name(name@, 0) == index_of_name(name@, i as nat),
        decreases STATIC_TABLE_SIZE - i,
    {
        let (entry_name, _) = text_at(i);
        if same(entry_name.as_bytes(), name) {
            return Some(i);
        }
        i = i + 1;
    }
    None
}

/// Returns, from one scan, the index of the first entry that matches `name`
/// and `value` and the index of the first entry that matches `name`.
pub fn find_full_or_name(name: &[u8], value: &[u8]) -> (r: (Option<usize>, Option<usize>))
    ensures
        match index_of(name@, value@, 0) {
            Some(i) => r.0 == Some(i as usize) && i < STATIC_TABLE_SIZE,
            None => r.0 is None,
        },
        match index_of_name(name@, 0) {
            Some(i) => r.1 == Some(i as usize) && i < STATIC_TABLE_SIZE,
            None => r.1 is None,
        },
{
    let mut named: Option<usize> = None;
    let mut i: usize = 0;
    while i < STATIC_TABLE_SIZE
        invariant
            i <= STATIC_TABLE_SIZE,
            index_of(name@, value@, 0) == index_of(name@, value@, i as nat),
            match named {
                Some(k) => index_of_name(name@, 0) == Some(k as nat) && k < STATIC_TABLE_SIZE,
                None => index_of_name(name@, 0) == index_of_name(name@, i as nat),
            },
        decreases STATIC_TABLE_SIZE - i,
    {
        let (entry_name, entry_value) = text_at(i);
        if same(entry_name.as_bytes(), name) {
            if named.is_none() {
                named = Some(i);
            }
            if same(entry_value.as_bytes(), value) {
                return (Some(i), named);
            }
        }
        i = i + 1;
    }
    (None, named)
}

/// The character at `k`, or 0 behind the end.
spec fn char_at(s: Seq<char>, k: int) -> int {
    if k < s.len() {
        s[k] as int
    } else {
        0
    }
}

/// A number that tells the entries of the table apart: it mixes the lengths of
/// the name and the value with a few of their characters.
spec fn mark(name: Seq<char>, value: Seq<char>) -> int {
    name.len() + 319 * value.len() + 131 * char_at(name, 1) + 380 * char_at(name, 7) + 184 * char_at(
        value,
        0,
    ) + 354 * char_at(value, 1) + 379 * char_at(value, 2) + 334 * char_at(value, 6)
}

/// The entry that a mark belongs to.
spec fn marked(m: int) -> int {
    if m == 52617 {
        0
    } else if m == 23644 {
        1
    } else if m == 22647 {
        2
    } else if m == 31660 {
        3
    } else if m == 40806 {
        4
    } else if m == 14547 {
        5
    } else if m == 12711 {
        6
    } else if m == 15200 {
        7
    } else if m == 52139 {
        8
    } else if m == 30475 {
        9
    } else if m == 50720 {
        10
    } else if m == 13759 {
        11
    } else if m == 56349 {
        12
    } else if m == 13238 {
        13
    } else if m == 53901 {
        14
    } else if m == 114431 {
        15
    } else if m == 81942 {
        16
    } else if m == 84569 {
        17
    } else if m == 77871 {
        18
    } else if m == 118933 {
        19
    } else if m == 89705 {
        20
    } else if m == 91889 {
        21
    } else if m == 120512 {
        22
    } else if m == 120831 {
        23
    } else if m == 61366 {
        24
    } else if m == 60413 {
        25
    } else if m == 62113 {
        26
    } else if m == 62297 {
        27
    } else if m == 62102 {
        28
    } else if m == 54216 {
        29
    } else if m == 152654 {
        30
    } else if m == 192122 {
        31
    } else if m == 162727 {
        32
    } else if m == 177905 {
        33
    } else if m == 192389 {
        34
    } else if m == 58663 {
        35
    } else if m == 191379 {
        36
    } else if m == 193293 {
        37
    } else if m == 192974 {
        38
    } else if m == 168777 {
        39
    } else if m == 172117 {
        40
    } else if m == 176420 {
        41
    } else if m == 90683 {
        42
    } else if m == 134868 {
        43
    } else if m == 171332 {
        44
    } else if m == 171013 {
        45
    } else if m == 169099 {
        46
    } else if m == 174522 {
        47
    } else if m == 163595 {
        48
    } else if m == 164916 {
        49
    } else if m == 166601 {
        50
    } else if m == 175193 {
        51
    } else if m == 180631 {
        52
    } else if m == 173493 {
        53
    } else if m == 177959 {
        54
    } else if m == 136126 {
        55
    } else if m == 198013 {
        56
    } else if m == 204074 {
        57
    } else if m == 206945 {
        58
    } else if m == 122941 {
        59
    } else if m == 115200 {
        60
    } else if m == 187137 {
        61
    } else if m == 129142 {
        62
    } else if m == 60229 {
        63
    } else if m == 61929 {
        64
    } else if m == 62687 {
        65
    } else if m == 61355 {
        66
    } else if m == 60781 {
        67
    } else if m == 61918 {
        68
    } else if m == 61868 {
        69
    } else if m == 63384 {
        70
    } else if m == 60965 {
        71
    } else if m == 54024 {
        72
    } else if m == 116910 {
        73
    } else if m == 128596 {
        74
    } else if m == 58664 {
        75
    } else if m == 150244 {
        76
    } else if m == 192103 {
        77
    } else if m == 195296 {
        78
    } else if m == 193028 {
        79
    } else if m == 192391 {
        80
    } else if m == 150245 {
        81
    } else if m == 155381 {
        82
    } else if m == 110477 {
        83
    } else if m == 61700 {
        84
    } else if m == 163013 {
        85
    } else if m == 58912 {
        86
    } else if m == 53349 {
        87
    } else if m == 52930 {
        88
    } else if m == 51750 {
        89
    } else if m == 14940 {
        90
    } else if m == 150195 {
        91
    } else if m == 13237 {
        92
    } else if m == 58681 {
        93
    } else if m == 41132 {
        94
    } else if m == 53455 {
        95
    } else if m == 49230 {
        96
    } else if m == 120130 {
        97
    } else if m == 158079 {
        98
    } else {
        99
    }
}

proof fn lemma_mark_0(i: usize)
    requires
        0 <= i < 11,
    ensures
        marked(mark(text(i).0@, text(i).1@)) == i,
{
    if i == 0 {
        reveal_strlit(":authority");
        reveal_strlit("");
        assert(mark(":authority"@, ""@) == 52617);
    } else if i == 1 {
        reveal_strlit(":path");
        reveal_strlit("/");
        assert(mark(":path"@, "/"@) == 23644);
    } else if i == 2 {
        reveal_strlit("age");
        reveal_strlit("0");
        assert(mark("age"@, "0"@) == 22647);
    } else if i == 3 {
        reveal_strlit("content-disposition");
        reveal_strlit("");
        assert(mark("content-disposition"@, ""@) == 31660);
    } else if i == 4 {
        reveal_strlit("content-length");
        reveal_strlit("0");
        assert(mark("content-length"@, "0"@) == 40806);
    } else if i == 5 {
        reveal_strlit("cookie");
        reveal_strlit("");
        assert(mark("cookie"@, ""@) == 14547);
    } else if i == 6 {
        reveal_strlit("date");
        reveal_strlit("");
        assert(mark("date"@, ""@) == 12711);
    } else if i == 7 {
        reveal_strlit("etag");
        reveal_strlit("");
        assert(mark("etag"@, ""@) == 15200);
    } else if i == 8 {
        reveal_strlit("if-modified-since");
        reveal_strlit("");
        assert(mark("if-modified-since"@, ""@) == 52139);
    } else if i == 9 {
        reveal_strlit("if-none-match");
        reveal_strlit("");
        assert(mark("if-none-match"@, ""@) == 30475);
    } else {
        reveal_strlit("last-modified");
        reveal_strlit("");
        assert(mark("last-modified"@, ""@) == 50720);
    }
}

proof fn lemma_mark_1(i: usize)
    requires
        11 <= i < 22,
    ensures
        marked(mark(text(i).0@, text(i).1@)) == i,
{
    if i == 11 {
        reveal_strlit("link");
        reveal_strlit("");
        assert(mark("link"@, ""@) == 13759);
    } else if i == 12 {
        reveal_strlit("location");
        reveal_strlit("");
        assert(mark("location"@, ""@) == 56349);
    } else if i == 13 {
        reveal_strlit("referer");
        reveal_strlit("");
        assert(mark("referer"@, ""@) == 13238);
    } else if i == 14 {
        reveal_strlit("set-cookie");
        reveal_strlit("");
        assert(mark("set-cookie"@, ""@) == 53901);
    } else if i == 15 {
        reveal_strlit(":method");
        reveal_strlit("CONNECT");
        assert(mark(":method"@, "CONNECT"@) == 114431);
    } else if i == 16 {
        reveal_strlit(":method");
        reveal_strlit("DELETE");
        assert(mark(":method"@, "DELETE"@) == 81942);
    } else if i == 17 {
        reveal_strlit(":method");
        reveal_strlit("GET");
        assert(mark(":method"@, "GET"@) == 84569);
    } else if i == 18 {
        reveal_strlit(":method");
        reveal_strlit("HEAD");
        assert(mark(":method"@, "HEAD"@) == 77871);
    } else if i == 19 {
        reveal_strlit(":method");
        reveal_strlit("OPTIONS");
        assert(mark(":method"@, "OPTIONS"@) == 118933);
    } else if i == 20 {
        reveal_strlit(":method");
        reveal_strlit("POST");
        assert(mark(":method"@, "POST"@) == 89705);
    } else {
        reveal_strlit(":method");
        reveal_strlit("PUT");
        assert(mark(":method"@, "PUT"@) == 91889);
    }
}

proof fn lemma_mark_2(i: usize)
    requires
        22 <= i < 33,
    ensures
        marked(mark(text(i).0@, text(i).1@)) == i,
{
    if i == 22 {
        reveal_strlit(":scheme");
        reveal_strlit("http");
        assert(mark(":scheme"@, "http"@) == 120512);
    } else if i == 23 {
        reveal_strlit(":scheme");
        reveal_strlit("https");
        assert(mark(":scheme"@, "https"@) == 120831);
    } else if i == 24 {
        reveal_strlit(":status");
        reveal_strlit("103");
        assert(mark(":status"@, "103"@) == 61366);
    } else if i == 25 {
        reveal_strlit(":status");
        reveal_strlit("200");
        assert(mark(":status"@, "200"@) == 60413);
    } else if i == 26 {
        reveal_strlit(":status");
        reveal_strlit("304");
        assert(mark(":status"@, "304"@) == 62113);
    } else if i == 27 {
        reveal_strlit(":status");
        reveal_strlit("404");
        assert(mark(":status"@, "404"@) == 62297);
    } else if i == 28 {
        reveal_strlit(":status");
        reveal_strlit("503");
        assert(mark(":status"@, "503"@) == 62102);
    } else if i == 29 {
        reveal_strlit("accept");
        reveal_strlit("*/*");
        assert(mark("accept"@, "*/*"@) == 54216);
    } else if i == 30 {
        reveal_strlit("accept");
        reveal_strlit("application/dns-message");
        assert(mark("accept"@, "application/dns-message"@) == 152654);
    } else if i == 31 {
        reveal_strlit("accept-encoding");
        reveal_strlit("gzip, deflate, br");
        assert(mark("accept-encoding"@, "gzip, deflate, br"@) == 192122);
    } else {
        reveal_strlit("accept-ranges");
        reveal_strlit("bytes");
        assert(mark("accept-ranges"@, "bytes"@) == 162727);
    }
}

proof fn lemma_mark_3(i: usize)
    requires
        33 <= i < 44,
    ensures
        marked(mark(text(i).0@, text(i).1@)) == i,
{
    if i == 33 {
        reveal_strlit("access-control-allow-headers");
        reveal_strlit("cache-control");
        assert(mark("access-control-allow-headers"@, "cache-control"@) == 177905);
    } else if i == 34 {
        reveal_strlit("access-control-allow-headers");
        reveal_strlit("content-type");
        assert(mark("access-control-allow-headers"@, "content-type"@) == 192389);
    } else if i == 35 {
        reveal_strlit("access-control-allow-origin");
        reveal_strlit("*");
        assert(mark("access-control-allow-origin"@, "*"@) == 58663);
    } else if i == 36 {
        reveal_strlit("cache-control");
        reveal_strlit("max-age=0");
        assert(mark("cache-control"@, "max-age=0"@) == 191379);
    } else if i == 37 {
        reveal_strlit("cache-control");
        reveal_strlit("max-age=2592000");
        assert(mark("cache-control"@, "max-age=2592000"@) == 193293);
    } else if i == 38 {
        reveal_strlit("cache-control");
        reveal_strlit("max-age=604800");
        assert(mark("cache-control"@, "max-age=604800"@) == 192974);
    } else if i == 39 {
        reveal_strlit("cache-control");
        reveal_strlit("no-cache");
        assert(mark("cache-control"@, "no-cache"@) == 168777);
    } else if i == 40 {
        reveal_strlit("cache-control");
        reveal_strlit("no-store");
        assert(mark("cache-control"@, "no-store"@) == 172117);
    } else if i == 41 {
        reveal_strlit("cache-control");
        reveal_strlit("public, max-age=31536000");
        assert(mark("cache-control"@, "public, max-age=31536000"@) == 176420);
    } else if i == 42 {
        reveal_strlit("content-encoding");
        reveal_strlit("br");
        assert(mark("content-encoding"@, "br"@) == 90683);
    } else {
        reveal_strlit("content-encoding");
        reveal_strlit("gzip");
        assert(mark("content-encoding"@, "gzip"@) == 134868);
    }
}

proof fn lemma_mark_4(i: usize)
    requires
        44 <= i < 55,
    ensures
        marked(mark(text(i).0@, text(i).1@)) == i,
{
    if i == 44 {
        reveal_strlit("content-type");
        reveal_strlit("application/dns-message");
        assert(mark("content-type"@, "application/dns-message"@) == 171332);
    } else if i == 45 {
        reveal_strlit("content-type");
        reveal_strlit("application/javascript");
        assert(mark("content-type"@, "application/javascript"@) == 171013);
    } else if i == 46 {
        reveal_strlit("content-type");
        reveal_strlit("application/json");
        assert(mark("content-type"@, "application/json"@) == 169099);
    } else if i == 47 {
        reveal_strlit("content-type");
        reveal_strlit("application/x-www-form-urlencoded");
        assert(mark("content-type"@, "application/x-www-form-urlencoded"@) == 174522);
    } else if i == 48 {
        reveal_strlit("content-type");
        reveal_strlit("image/gif");
        assert(mark("content-type"@, "image/gif"@) == 163595);
    } else if i == 49 {
        reveal_strlit("content-type");
        reveal_strlit("image/jpeg");
        assert(mark("content-type"@, "image/jpeg"@) == 164916);
    } else if i == 50 {
        reveal_strlit("content-type");
        reveal_strlit("image/png");
        assert(mark("content-type"@, "image/png"@) == 166601);
    } else if i == 51 {
        reveal_strlit("content-type");
        reveal_strlit("text/css");
        assert(mark("content-type"@, "text/css"@) == 175193);
    } else if i == 52 {
        reveal_strlit("content-type");
        reveal_strlit("text/html; charset=utf-8");
        assert(mark("content-type"@, "text/html; charset=utf-8"@) == 180631);
    } else if i == 53 {
        reveal_strlit("content-type");
        reveal_strlit("text/plain");
        assert(mark("content-type"@, "text/plain"@) == 173493);
    } else {
        reveal_strlit("content-type");
        reveal_strlit("text/plain;charset=utf-8");
        assert(mark("content-type"@, "text/plain;charset=utf-8"@) == 177959);
    }
}

proof fn lemma_mark_5(i: usize)
    requires
        55 <= i < 66,
    ensures
        marked(mark(text(i).0@, text(i).1@)) == i,
{
    if i == 55 {
        reveal_strlit("range");
        reveal_strlit("bytes=0-");
        assert(mark("range"@, "bytes=0-"@) == 136126);
    } else if i == 56 {
        reveal_strlit("strict-transport-security");
        reveal_strlit("max-age=31536000");
        assert(mark("strict-transport-security"@, "max-age=31536000"@) == 198013);
    } else if i == 57 {
        reveal_strlit("strict-transport-security");
        reveal_strlit("max-age=31536000; includesubdomains");
        assert(mark("strict-transport-security"@, "max-age=31536000; includesubdomains"@) == 204074);
    } else if i == 58 {
        reveal_strlit("strict-transport-security");
        reveal_strlit("max-age=31536000; includesubdomains; preload");
        assert(mark("strict-transport-security"@, "max-age=31536000; includesubdomains; preload"@) == 206945);
    } else if i == 59 {
        reveal_strlit("vary");
        reveal_strlit("accept-encoding");
        assert(mark("vary"@, "accept-encoding"@) == 122941);
    } else if i == 60 {
        reveal_strlit("vary");
        reveal_strlit("origin");
        assert(mark("vary"@, "origin"@) == 115200);
    } else if i == 61 {
        reveal_strlit("x-content-type-options");
        reveal_strlit("nosniff");
        assert(mark("x-content-type-options"@, "nosniff"@) == 187137);
    } else if i == 62 {
        reveal_strlit("x-xss-protection");
        reveal_strlit("1; mode=block");
        assert(mark("x-xss-protection"@, "1; mode=block"@) == 129142);
    } else if i == 63 {
        reveal_strlit(":status");
        reveal_strlit("100");
        assert(mark(":status"@, "100"@) == 60229);
    } else if i == 64 {
        reveal_strlit(":status");
        reveal_strlit("204");
        assert(mark(":status"@, "204"@) == 61929);
    } else {
        reveal_strlit(":status");
        reveal_strlit("206");
        assert(mark(":status"@, "206"@) == 62687);
    }
}

proof fn lemma_mark_6(i: usize)
    requires
        66 <= i < 77,
    ensures
        marked(mark(text(i).0@, text(i).1@)) == i,
{
    if i == 66 {
        reveal_strlit(":status");
        reveal_strlit("302");
        assert(mark(":status"@, "302"@) == 61355);
    } else if i == 67 {
        reveal_strlit(":status");
        reveal_strlit("400");
        assert(mark(":status"@, "400"@) == 60781);
    } else if i == 68 {
        reveal_strlit(":status");
        reveal_strlit("403");
        assert(mark(":status"@, "403"@) == 61918);
    } else if i == 69 {
        reveal_strlit(":status");
        reveal_strlit("421");
        assert(mark(":status"@, "421"@) == 61868);
    } else if i == 70 {
        reveal_strlit(":status");
        reveal_strlit("425");
        assert(mark(":status"@, "425"@) == 63384);
    } else if i == 71 {
        reveal_strlit(":status");
        reveal_strlit("500");
        assert(mark(":status"@, "500"@) == 60965);
    } else if i == 72 {
        reveal_strlit("accept-language");
        reveal_strlit("");
        assert(mark("accept-language"@, ""@) == 54024);
    } else if i == 73 {
        reveal_strlit("access-control-allow-credentials");
        reveal_strlit("FALSE");
        assert(mark("access-control-allow-credentials"@, "FALSE"@) == 116910);
    } else if i == 74 {
        reveal_strlit("access-control-allow-credentials");
        reveal_strlit("TRUE");
        assert(mark("access-control-allow-credentials"@, "TRUE"@) == 128596);
    } else if i == 75 {
        reveal_strlit("access-control-allow-headers");
        reveal_strlit("*");
        assert(mark("access-control-allow-headers"@, "*"@) == 58664);
    } else {
        reveal_strlit("access-control-allow-methods");
        reveal_strlit("get");
        assert(mark("access-control-allow-methods"@, "get"@) == 150244);
    }
}

proof fn lemma_mark_7(i: usize)
    requires
        77 <= i < 88,
    ensures
        marked(mark(text(i).0@, text(i).1@)) == i,
{
    if i == 77 {
        reveal_strlit("access-control-allow-methods");
        reveal_strlit("get, post, options");
        assert(mark("access-control-allow-methods"@, "get, post, options"@) == 192103);
    } else if i == 78 {
        reveal_strlit("access-control-allow-methods");
        reveal_strlit("options");
        assert(mark("access-control-allow-methods"@, "options"@) == 195296);
    } else if i == 79 {
        reveal_strlit("access-control-expose-headers");
        reveal_strlit("content-length");
        assert(mark("access-control-expose-headers"@, "content-length"@) == 193028);
    } else if i == 80 {
        reveal_strlit("access-control-request-headers");
        reveal_strlit("content-type");
        assert(mark("access-control-request-headers"@, "content-type"@) == 192391);
    } else if i == 81 {
        reveal_strlit("access-control-request-method");
        reveal_strlit("get");
        assert(mark("access-control-request-method"@, "get"@) == 150245);
    } else if i == 82 {
        reveal_strlit("access-control-request-method");
        reveal_strlit("post");
        assert(mark("access-control-request-method"@, "post"@) == 155381);
    } else if i == 83 {
        reveal_strlit("alt-svc");
        reveal_strlit("clear");
        assert(mark("alt-svc"@, "clear"@) == 110477);
    } else if i == 84 {
        reveal_strlit("authorization");
        reveal_strlit("");
        assert(mark("authorization"@, ""@) == 61700);
    } else if i == 85 {
        reveal_strlit("content-security-policy");
        reveal_strlit("script-src 'none'; object-src 'none'; base-uri 'none'");
        assert(mark("content-security-policy"@, "script-src 'none'; object-src 'none'; base-uri 'none'"@) == 163013);
    } else if i == 86 {
        reveal_strlit("early-data");
        reveal_strlit("1");
        assert(mark("early-data"@, "1"@) == 58912);
    } else {
        reveal_strlit("expect-ct");
        reveal_strlit("");
        assert(mark("expect-ct"@, ""@) == 53349);
    }
}

proof fn lemma_mark_8(i: usize)
    requires
        88 <= i < 99,
    ensures
        marked(mark(text(i).0@, text(i).1@)) == i,
{
    if i == 88 {
        reveal_strlit("forwarded");
        reveal_strlit("");
        assert(mark("forwarded"@, ""@) == 52930);
    } else if i == 89 {
        reveal_strlit("if-range");
        reveal_strlit("");
        assert(mark("if-range"@, ""@) == 51750);
    } else if i == 90 {
        reveal_strlit("origin");
        reveal_strlit("");
        assert(mark("origin"@, ""@) == 14940);
    } else if i == 91 {
        reveal_strlit("purpose");
        reveal_strlit("prefetch");
        assert(mark("purpose"@, "prefetch"@) == 150195);
    } else if i == 92 {
        reveal_strlit("server");
        reveal_strlit("");
        assert(mark("server"@, ""@) == 13237);
    } else if i == 93 {
        reveal_strlit("timing-allow-origin");
        reveal_strlit("*");
        assert(mark("timing-allow-origin"@, "*"@) == 58681);
    } else if i == 94 {
        reveal_strlit("upgrade-insecure-requests");
        reveal_strlit("1");
        assert(mark("upgrade-insecure-requests"@, "1"@) == 41132);
    } else if i == 95 {
        reveal_strlit("user-agent");
        reveal_strlit("");
        assert(mark("user-agent"@, ""@) == 53455);
    } else if i == 96 {
        reveal_strlit("x-forwarded-for");
        reveal_strlit("");
        assert(mark("x-forwarded-for"@, ""@) == 49230);
    } else if i == 97 {
        reveal_strlit("x-frame-options");
        reveal_strlit("deny");
        assert(mark("x-frame-options"@, "deny"@) == 120130);
    } else {
        reveal_strlit("x-frame-options");
        reveal_strlit("sameorigin");
        assert(mark("x-frame-options"@, "sameorigin"@) == 158079);
    }
}

proof fn lemma_mark(i: usize)
    requires
        i < STATIC_TABLE_SIZE,
    ensures
        marked(mark(text(i).0@, text(i).1@)) == i,
{
    if i < 11 {
        lemma_mark_0(i);
    } else if i < 22 {
        lemma_mark_1(i);
    } else if i < 33 {
        lemma_mark_2(i);
    } else if i < 44 {
        lemma_mark_3(i);
    } else if i < 55 {
        lemma_mark_4(i);
    } else if i < 66 {
        lemma_mark_5(i);
    } else if i < 77 {
        lemma_mark_6(i);
    } else if i < 88 {
        lemma_mark_7(i);
    } else {
        lemma_mark_8(i);
    }
}

/// No two entries are the same field line.
pub proof fn lemma_entries_are_distinct(i: nat, j: nat)
    requires
        i < STATIC_TABLE_SIZE,
        j < STATIC_TABLE_SIZE,
        entry(i) == entry(j),
    ensures
        i == j,
{
    let a = text(i as usize);
    let b = text(j as usize);
    vstd::utf8::encode_utf8_decode_utf8(a.0@);
    vstd::utf8::encode_utf8_decode_utf8(b.0@);
    vstd::utf8::encode_utf8_decode_utf8(a.1@);
    vstd::utf8::encode_utf8_decode_utf8(b.1@);
    lemma_mark(i as usize);
    lemma_mark(j as usize);
}

/// Every entry is found under its own index by its name and its value.
pub proof fn lemma_every_entry_is_found(i: nat)
    requires
        i < STATIC_TABLE_SIZE,
    ensures
        index_of(entry(i).0, entry(i).1, 0) == Some(i),
{
    lemma_found_from(i, 0);
}

proof fn lemma_found_from(i: nat, from: nat)
    requires
        from <= i < STATIC_TABLE_SIZE,
    ensures
        index_of(entry(i).0, entry(i).1, from) == Some(i),
    decreases i - from,
{
    if entry(from) == entry(i) {
        lemma_entries_are_distinct(from, i);
    } else {
        lemma_found_from(i, from + 1);
    }
}

/// Whether the entries from `from` on are the field `name` with these values.
pub open spec fn lists(from: nat, name: &str, values: Seq<&str>) -> bool {
    forall|i: int|
        0 <= i < values.len() ==> text((from + i) as usize).0 == name && text(
            (from + i) as usize,
        ).1 == #[trigger] values[i]
}

/// The table, field by field (RFC 9204 Appendix A).
pub proof fn lemma_published_table()
    ensures
        lists(0, ":authority", seq![""]),
        lists(1, ":path", seq!["/"]),
        lists(2, "age", seq!["0"]),
        lists(3, "content-disposition", seq![""]),
        lists(4, "content-length", seq!["0"]),
        lists(5, "cookie", seq![""]),
        lists(6, "date", seq![""]),
        lists(7, "etag", seq![""]),
        lists(8, "if-modified-since", seq![""]),
        lists(9, "if-none-match", seq![""]),
        lists(10, "last-modified", seq![""]),
        lists(11, "link", seq![""]),
        lists(12, "location", seq![""]),
        lists(13, "referer", seq![""]),
        lists(14, "set-cookie", seq![""]),
        lists(15, ":method", seq!["CONNECT", "DELETE", "GET", "HEAD", "OPTIONS", "POST", "PUT"]),
        lists(22, ":scheme", seq!["http", "https"]),
        lists(24, ":status", seq!["103", "200", "304", "404", "503"]),
        lists(29, "accept", seq!["*/*", "application/dns-message"]),
        lists(31, "accept-encoding", seq!["gzip, deflate, br"]),
        lists(32, "accept-ranges", seq!["bytes"]),
        lists(33, "access-control-allow-headers", seq!["cache-control", "content-type"]),
        lists(35, "access-control-allow-origin", seq!["*"]),
        lists(36, "cache-control", seq!["max-age=0", "max-age=2592000", "max-age=604800", "no-cache", "no-store", "public, max-age=31536000"]),
        lists(42, "content-encoding", seq!["br", "gzip"]),
        lists(44, "content-type", seq!["application/dns-message", "application/javascript", "application/json", "application/x-www-form-urlencoded", "image/gif", "image/jpeg", "image/png", "text/css", "text/html; charset=utf-8", "text/plain", "text/plain;charset=utf-8"]),
        lists(55, "range", seq!["bytes=0-"]),
        lists(56, "strict-transport-security", seq!["max-age=31536000", "max-age=31536000; includesubdomains", "max-age=31536000; includesubdomains; preload"]),
        lists(59, "vary", seq!["accept-encoding", "origin"]),
        lists(61, "x-content-type-options", seq!["nosniff"]),
        lists(62, "x-xss-protection", seq!["1; mode=block"]),
        lists(63, ":status", seq!["100", "204", "206", "302", "400", "403", "421", "425", "500"]),
        lists(72, "accept-language", seq![""]),
        lists(73, "access-control-allow-credentials", seq!["FALSE", "TRUE"]),
        lists(75, "access-control-allow-headers", seq!["*"]),
        lists(76, "access-control-allow-methods", seq!["get", "get, post, options", "options"]),
        lists(79, "access-control-expose-headers", seq!["content-length"]),
        lists(80, "access-control-request-headers", seq!["content-type"]),
        lists(81, "access-control-request-method", seq!["get", "post"]),
        lists(83, "alt-svc", seq!["clear"]),
        lists(84, "authorization", seq![""]),
        lists(85, "content-security-policy", seq!["script-src 'none'; object-src 'none'; base-uri 'none'"]),
        lists(86, "early-data", seq!["1"]),
        lists(87, "expect-ct", seq![""]),
        lists(88, "forwarded", seq![""]),
        lists(89, "if-range", seq![""]),
        lists(90, "origin", seq![""]),
        lists(91, "purpose", seq!["prefetch"]),
        lists(92, "server", seq![""]),
        lists(93, "timing-allow-origin", seq!["*"]),
        lists(94, "upgrade-insecure-requests", seq!["1"]),
        lists(95, "user-agent", seq![""]),
        lists(96, "x-forwarded-for", seq![""]),
        lists(97, "x-frame-options", seq!["deny", "sameorigin"]),
{
}

/// An entry is its text in octets; a search finds the first entry that matches,
/// and one wherever there is one.
pub proof fn lemma_searches(name: Seq<u8>, value: Seq<u8>, i: nat)
    requires
        i < STATIC_TABLE_SIZE,
    ensures
        entry(i).0 == vstd::utf8::encode_utf8(text(i as usize).0@),
        entry(i).1 == vstd::utf8::encode_utf8(text(i as usize).1@),
        index_of(name, value, 0) == Some(i) <==> entry(i) == (name, value) && forall|j: nat|
            j < i ==> #[trigger] entry(j) != (name, value),
        index_of_name(name, 0) == Some(i) <==> entry(i).0 == name && forall|j: nat|
            j < i ==> (#[trigger] entry(j)).0 != name,
        index_of(name, value, 0) is None ==> entry(i) != (name, value),
        index_of_name(name, 0) is None ==> entry(i).0 != name,
{
    lemma_search_from(name, value, i, 0);
    lemma_search_name_from(name, i, 0);
}

proof fn lemma_search_from(name: Seq<u8>, value: Seq<u8>, i: nat, from: nat)
    requires
        from <= i < STATIC_TABLE_SIZE,
    ensures
        index_of(name, value, from) == Some(i) <==> entry(i) == (name, value) && forall|j: nat|
            from <= j < i ==> #[trigger] entry(j) != (name, value),
        index_of(name, value, from) is None ==> entry(i) != (name, value),
    decreases i - from,
{
    if from < i {
        lemma_search_from(name, value, i, from + 1);
    } else {
        lemma_index_of(name, value, from + 1);
    }
}

proof fn lemma_search_name_from(name: Seq<u8>, i: nat, from: nat)
    requires
        from <= i < STATIC_TABLE_SIZE,
    ensures
        index_of_name(name, from) == Some(i) <==> entry(i).0 == name && forall|j: nat|
            from <= j < i ==> (#[trigger] entry(j)).0 != name,
        index_of_name(name, from) is None ==> entry(i).0 != name,
    decreases i - from,
{
    if from < i {
        lemma_search_name_from(name, i, from + 1);
    } else {
        lemma_index_of_name(name, from + 1);
    }
}

} // verus!
