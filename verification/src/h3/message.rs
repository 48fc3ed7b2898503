//! HTTP messages as field sections (RFC 9114 Sections 4.1 to 4.3).
//!
//! A request's field section starts with its pseudo-headers and goes on with
//! its regular fields; [`build_request`] enforces what RFC 9114 Section 4.1 and
//! RFC 9220 ask of both and makes a [`RequestHead`] of them. A trailer section
//! has regular fields only ([`header_map`]). Whether an octet string is a
//! method, a field name or a field value, and what URI the pseudo-headers form,
//! is for the `http` crate to say.

use super::error::{H3Error, TransportError};
use super::qpack::QpackError;
use crate::octets;
use crate::octets::{as_slice, same, Field};
use bytes::Bytes;
use vstd::prelude::*;
use vstd::std_specs::convert::FromSpecImpl;

verus! {

/// A failure on a request stream.
///
/// [`StreamError::Transport`] with a `Reset`/`Stopped` error is stream-scoped:
/// the driver abandons the stream (counting it against the connection's reset
/// budgets). The other variants are connection-scoped protocol errors: the
/// driver closes the connection with [`StreamError::h3_code`].
#[derive(Debug, Clone, Copy, PartialEq, Eq)]
pub enum StreamError {
    /// The transport failed: the stream was reset by the peer
    /// (`TransportError::Reset`), it stopped our sending side (`Stopped`), or
    /// the connection closed underneath the stream.
    Transport(TransportError),
    /// A malformed frame or payload (`H3_FRAME_ERROR`).
    Frame,
    /// An invalid message: malformed, duplicated or missing pseudo-headers, a
    /// field section that violates RFC 9114 Section 4.1, or trailers with
    /// pseudo-headers (`H3_MESSAGE_ERROR`).
    Message,
    /// A frame that is not permitted on a request stream
    /// (`H3_FRAME_UNEXPECTED`).
    FrameUnexpected,
    /// The peer's QPACK encoder stream state made a field section undecodable
    /// (RFC 9204 Section 6).
    Qpack(QpackError),
    /// An encoded field section larger than the peer's announced
    /// `SETTINGS_MAX_FIELD_SECTION_SIZE`; the peer will likely refuse it
    /// (RFC 9114 Sections 4.2.2 and 7.2.4.1).
    HeadersTooBig { size: u64, limit: u64 },
}

impl StreamError {
    /// The code that [`StreamError::h3_code`] returns.
    pub open spec fn code_spec(self) -> u64 {
        match self {
            StreamError::Transport(TransportError::Closed { code }) => code,
            StreamError::Transport(_) => H3Error::Internal.code_spec(),
            StreamError::Frame => H3Error::FrameError.code_spec(),
            StreamError::Message => H3Error::Message.code_spec(),
            StreamError::FrameUnexpected => H3Error::FrameUnexpected.code_spec(),
            StreamError::Qpack(err) => err.code_spec() as u64,
            StreamError::HeadersTooBig { .. } => H3Error::Message.code_spec(),
        }
    }

    /// The connection error code to close with, when the error is
    /// connection-scoped.
    pub fn h3_code(&self) -> (r: u64)
        ensures
            r == self.code_spec(),
    {
        match self {
            StreamError::Transport(TransportError::Closed { code }) => *code,
            StreamError::Transport(_) => H3Error::Internal.code(),
            StreamError::Frame => H3Error::FrameError.code(),
            StreamError::Message => H3Error::Message.code(),
            StreamError::FrameUnexpected => H3Error::FrameUnexpected.code(),
            StreamError::Qpack(err) => err.code() as u64,
            StreamError::HeadersTooBig { .. } => H3Error::Message.code(),
        }
    }

    /// Whether the failure is stream-scoped (a reset or stop-sending from the
    /// peer), rather than a connection error.
    pub fn is_stream_scoped(&self) -> (r: bool)
        ensures
            r == (self matches StreamError::Transport(e) && (e is Reset || e is Stopped)),
    {
        match self {
            StreamError::Transport(TransportError::Reset { .. }) => true,
            StreamError::Transport(TransportError::Stopped { .. }) => true,
            _ => false,
        }
    }
}

impl From<TransportError> for StreamError {
    fn from(err: TransportError) -> (r: StreamError) {
        StreamError::Transport(err)
    }
}

impl FromSpecImpl<TransportError> for StreamError {
    open spec fn obeys_from_spec() -> bool {
        true
    }

    open spec fn from_spec(err: TransportError) -> StreamError {
        StreamError::Transport(err)
    }
}

/// A character of a token (RFC 9110 Section 5.6.2).
pub open spec fn token_char(b: u8) -> bool {
    ||| 0x30 <= b <= 0x39
    ||| 0x41 <= b <= 0x5a
    ||| 0x5e <= b <= 0x7a
    ||| b == 0x21
    ||| 0x23 <= b <= 0x27
    ||| b == 0x2a
    ||| b == 0x2b
    ||| b == 0x2d
    ||| b == 0x2e
    ||| b == 0x7c
    ||| b == 0x7e
}

/// A token: at least one character, and token characters only.
pub open spec fn token(s: Seq<u8>) -> bool {
    &&& s.len() > 0
    &&& forall|i: int| 0 <= i < s.len() ==> token_char(#[trigger] s[i])
}

/// The longest field name.
pub const MAX_NAME_LEN: usize = 65_535;

/// A field name: a token that is not too long.
pub open spec fn name_valid(s: Seq<u8>) -> bool {
    token(s) && s.len() <= MAX_NAME_LEN
}

/// A field value: no control characters but the tab.
pub open spec fn value_valid(s: Seq<u8>) -> bool {
    forall|i: int|
        0 <= i < s.len() ==> (#[trigger] s[i] == 0x09 || (s[i] >= 0x20 && s[i] != 0x7f))
}

/// A letter in lower case.
pub open spec fn lower_byte(b: u8) -> u8 {
    if 0x41 <= b <= 0x5a {
        (b + 0x20) as u8
    } else {
        b
    }
}

/// An octet string with its letters in lower case.
pub open spec fn lower(s: Seq<u8>) -> Seq<u8> {
    s.map_values(|b: u8| lower_byte(b))
}

/// The text that `String::from_utf8_lossy` makes of octets.
pub uninterp spec fn lossy_text(s: Seq<u8>) -> Seq<char>;

/// The text of the URI that `http::uri::Builder` makes of a scheme, an
/// authority and a path and query, or `None` where it refuses them.
pub uninterp spec fn full_uri_text(
    scheme: Seq<char>,
    authority: Seq<char>,
    path: Seq<char>,
) -> Option<Seq<char>>;

/// The text of the URI that `http::uri::Builder` makes of a path and query
/// alone, or `None` where it refuses them.
pub uninterp spec fn path_uri_text(path: Seq<char>) -> Option<Seq<char>>;

/// `http::Method::from_bytes` accepts tokens, and keeps their octets.
#[verifier::external_body]
fn method_octets(src: &[u8]) -> (r: Option<Bytes>)
    ensures
        r is Some <==> token(src@),
        r matches Some(b) ==> octets::content(b) == src@,
{
    match http::Method::from_bytes(src) {
        Ok(method) => Some(Bytes::copy_from_slice(method.as_str().as_bytes())),
        Err(_) => None,
    }
}

/// `http::HeaderName::from_bytes` accepts tokens of up to 65535 octets, and
/// brings their letters to lower case.
#[verifier::external_body]
fn name_octets(src: &[u8]) -> (r: Option<Bytes>)
    ensures
        r is Some <==> name_valid(src@),
        r matches Some(b) ==> octets::content(b) == lower(src@),
{
    match http::HeaderName::from_bytes(src) {
        Ok(name) => Some(Bytes::copy_from_slice(name.as_str().as_bytes())),
        Err(_) => None,
    }
}

/// `http::HeaderValue::from_maybe_shared` accepts octets that are not control
/// characters, and the tab, and keeps them.
#[verifier::external_body]
fn value_octets(src: Bytes) -> (r: Option<Bytes>)
    ensures
        r is Some <==> value_valid(octets::content(src)),
        r matches Some(b) ==> octets::content(b) == octets::content(src),
{
    match http::HeaderValue::from_maybe_shared(src) {
        Ok(value) => Some(Bytes::copy_from_slice(value.as_bytes())),
        Err(_) => None,
    }
}

/// `String::from_utf8_lossy`: the result is a function of the octets, and is
/// the text that they encode where they are UTF-8.
#[verifier::external_body]
fn lossy(src: &[u8]) -> (r: String)
    ensures
        r@ == lossy_text(src@),
        vstd::utf8::valid_utf8(src@) ==> vstd::utf8::encode_utf8(r@) == src@,
{
    String::from_utf8_lossy(src).into_owned()
}

/// `http::uri::Builder` on a scheme, an authority and a path and query: the
/// text of the URI, or the refusal, is a function of the three.
#[verifier::external_body]
fn full_uri(scheme: &str, authority: &str, path: &str) -> (r: Option<String>)
    ensures
        match full_uri_text(scheme@, authority@, path@) {
            Some(text) => r matches Some(s) && s@ == text,
            None => r is None,
        },
{
    let parts = http::Uri::builder().scheme(scheme).authority(authority).path_and_query(path);
    match parts.build() {
        Ok(uri) => Some(uri.to_string()),
        Err(_) => None,
    }
}

/// `http::uri::Builder` on a path and query alone: the text of the URI, or the
/// refusal, is a function of them.
#[verifier::external_body]
fn path_uri(path: &str) -> (r: Option<String>)
    ensures
        match path_uri_text(path@) {
            Some(text) => r matches Some(s) && s@ == text,
            None => r is None,
        },
{
    match http::Uri::builder().path_and_query(path).build() {
        Ok(uri) => Some(uri.to_string()),
        Err(_) => None,
    }
}

/// The octets of a text.
pub open spec fn spelled(text: &str) -> Seq<u8> {
    vstd::utf8::encode_utf8(text@)
}

/// Whether a field line is a pseudo-header: its name starts with a colon.
pub open spec fn is_pseudo(f: Field) -> bool {
    f.0.len() > 0 && f.0[0] == 0x3a
}

/// The pseudo-headers of a request.
pub open spec fn known_pseudo(name: Seq<u8>) -> bool {
    ||| name == spelled(":method")
    ||| name == spelled(":scheme")
    ||| name == spelled(":authority")
    ||| name == spelled(":path")
    ||| name == spelled(":protocol")
}

/// The value of the field line with that name, where there is one.
pub open spec fn value_of(list: Seq<Field>, name: Seq<u8>) -> Option<Seq<u8>>
    decreases list.len(),
{
    if list.len() == 0 {
        None
    } else if list.last().0 == name {
        Some(list.last().1)
    } else {
        value_of(list.drop_last(), name)
    }
}

/// The regular field lines, in order, with their names in lower case.
pub open spec fn regular(list: Seq<Field>) -> Seq<Field>
    decreases list.len(),
{
    if list.len() == 0 {
        Seq::empty()
    } else if is_pseudo(list.last()) {
        regular(list.drop_last())
    } else {
        regular(list.drop_last()).push((lower(list.last().0), list.last().1))
    }
}

/// Whether the regular field lines have valid names and values.
pub open spec fn fields_valid(list: Seq<Field>) -> bool {
    forall|i: int|
        0 <= i < list.len() && !is_pseudo(#[trigger] list[i]) ==> name_valid(list[i].0)
            && value_valid(list[i].1)
}

/// Whether a request's field section is in order: known pseudo-headers, each at
/// most once and before every regular field, and valid regular fields.
pub open spec fn section_valid(list: Seq<Field>) -> bool {
    &&& forall|i: int|
        0 <= i < list.len() && is_pseudo(#[trigger] list[i]) ==> known_pseudo(list[i].0)
    &&& forall|i: int, j: int|
        0 <= i < j < list.len() && is_pseudo(#[trigger] list[j]) ==> is_pseudo(#[trigger] list[i])
            && list[i].0 != list[j].0
    &&& fields_valid(list)
}

/// A request's pseudo-headers.
pub struct Pseudo {
    pub method: Option<Seq<u8>>,
    pub scheme: Option<Seq<u8>>,
    pub authority: Option<Seq<u8>>,
    pub path: Option<Seq<u8>>,
    pub protocol: Option<Seq<u8>>,
}

/// The pseudo-headers in a field section.
pub open spec fn pseudo_of(list: Seq<Field>) -> Pseudo {
    Pseudo {
        method: value_of(list, spelled(":method")),
        scheme: value_of(list, spelled(":scheme")),
        authority: value_of(list, spelled(":authority")),
        path: value_of(list, spelled(":path")),
        protocol: value_of(list, spelled(":protocol")),
    }
}

impl Pseudo {
    /// Whether this is a CONNECT request.
    pub open spec fn connect(self) -> bool {
        self.method == Some(spelled("CONNECT"))
    }

    /// Whether the pseudo-headers that the request has are the ones it must
    /// have: `:method`, `:scheme` and `:path`, except that a CONNECT request
    /// has `:authority` alone, plus `:scheme` where it is an extended one
    /// (RFC 9114 Section 4.1, RFC 9220 Section 3).
    pub open spec fn complete(self) -> bool {
        &&& self.method matches Some(m) && token(m)
        &&& if self.connect() {
            &&& self.authority is Some
            &&& self.path is None
            &&& self.scheme is Some <==> self.protocol is Some
        } else {
            &&& self.scheme is Some
            &&& self.path is Some
            &&& self.protocol is None
        }
    }

    /// What the request is for.
    pub open spec fn target(self) -> TargetValue {
        if self.connect() {
            TargetValue {
                scheme: match self.scheme {
                    Some(s) => Some(lossy_text(s)),
                    None => Some("http"@),
                },
                authority: match self.authority {
                    Some(a) => Some(lossy_text(a)),
                    None => None,
                },
                path: ""@,
            }
        } else {
            let path = match self.path {
                Some(p) => lossy_text(p),
                None => ""@,
            };
            match (self.scheme, self.authority) {
                (Some(s), Some(a)) => TargetValue {
                    scheme: Some(lossy_text(s)),
                    authority: Some(lossy_text(a)),
                    path,
                },
                _ => TargetValue { scheme: None, authority: None, path },
            }
        }
    }
}

/// What a request is for, as a value.
pub struct TargetValue {
    pub scheme: Option<Seq<char>>,
    pub authority: Option<Seq<char>>,
    pub path: Seq<char>,
}

impl TargetValue {
    /// The text of the URI that the target forms.
    pub open spec fn uri(self) -> Option<Seq<char>> {
        match (self.scheme, self.authority) {
            (Some(scheme), Some(authority)) => full_uri_text(scheme, authority, self.path),
            _ => path_uri_text(self.path),
        }
    }
}

/// What a request is for: the parts of its URI.
#[derive(Debug, Clone, PartialEq, Eq)]
pub struct Target {
    pub scheme: Option<String>,
    pub authority: Option<String>,
    pub path: String,
}

impl View for Target {
    type V = TargetValue;

    open spec fn view(&self) -> TargetValue {
        TargetValue {
            scheme: match self.scheme {
                Some(s) => Some(s@),
                None => None,
            },
            authority: match self.authority {
                Some(s) => Some(s@),
                None => None,
            },
            path: self.path@,
        }
    }
}

/// The head of an HTTP/3 request.
#[derive(Debug, Clone, PartialEq, Eq)]
pub struct RequestHead {
    /// The method.
    pub method: Bytes,
    /// The parts of the request URI. Those of a CONNECT request name the tunnel
    /// target.
    pub target: Target,
    /// The request URI.
    pub uri: String,
    /// The regular fields, in order, with their names in lower case.
    pub headers: Vec<(Bytes, Bytes)>,
}

/// The head of a request as a value.
pub struct RequestValue {
    pub method: Seq<u8>,
    pub target: TargetValue,
    pub uri: Seq<char>,
    pub headers: Seq<Field>,
}

impl View for RequestHead {
    type V = RequestValue;

    open spec fn view(&self) -> RequestValue {
        RequestValue {
            method: octets::content(self.method),
            target: self.target@,
            uri: self.uri@,
            headers: octets::fields(self.headers@),
        }
    }
}

/// The request that a field section is, where its target forms the URI `uri`.
pub open spec fn request_with_uri(list: Seq<Field>, uri: Option<Seq<char>>) -> Option<RequestValue> {
    let p = pseudo_of(list);
    if section_valid(list) && p.complete() && uri is Some {
        Some(
            RequestValue {
                method: p.method.unwrap(),
                target: p.target(),
                uri: uri.unwrap(),
                headers: regular(list),
            },
        )
    } else {
        None
    }
}

/// The request that a field section is.
pub open spec fn request_of(list: Seq<Field>) -> Option<RequestValue> {
    request_with_uri(list, pseudo_of(list).target().uri())
}

/// The trailers that a field section is: regular fields only.
pub open spec fn trailers_of(list: Seq<Field>) -> Option<Seq<Field>> {
    if fields_valid(list) && (forall|i: int| 0 <= i < list.len() ==> !is_pseudo(#[trigger] list[i])) {
        Some(regular(list))
    } else {
        None
    }
}


/// The names of the pseudo-headers are different, and start with a colon.
proof fn lemma_pseudo_names()
    ensures
        spelled(":method").len() == 7 && spelled(":method")[0] == 0x3a && spelled(":method")[1]
            == 0x6d,
        spelled(":scheme").len() == 7 && spelled(":scheme")[0] == 0x3a && spelled(":scheme")[1]
            == 0x73,
        spelled(":authority").len() == 10 && spelled(":authority")[0] == 0x3a,
        spelled(":path").len() == 5 && spelled(":path")[0] == 0x3a,
        spelled(":protocol").len() == 9 && spelled(":protocol")[0] == 0x3a,
{
    reveal_strlit(":method");
    reveal_strlit(":scheme");
    reveal_strlit(":authority");
    reveal_strlit(":path");
    reveal_strlit(":protocol");
    vstd::utf8::is_ascii_chars_encode_utf8(":method"@);
    vstd::utf8::is_ascii_chars_encode_utf8(":scheme"@);
    vstd::utf8::is_ascii_chars_encode_utf8(":authority"@);
    vstd::utf8::is_ascii_chars_encode_utf8(":path"@);
    vstd::utf8::is_ascii_chars_encode_utf8(":protocol"@);
    assert(":method"@[1] as u8 == 0x6d);
    assert(":scheme"@[1] as u8 == 0x73);
}

proof fn lemma_value_of(list: Seq<Field>, name: Seq<u8>)
    ensures
        value_of(list, name) is Some <==> exists|j: int|
            0 <= j < list.len() && (#[trigger] list[j]).0 == name,
    decreases list.len(),
{
    if list.len() > 0 {
        let less = list.drop_last();
        lemma_value_of(less, name);
        if list.last().0 == name {
            assert(list[list.len() - 1].0 == name);
        } else {
            assert forall|j: int| 0 <= j < list.len() && (#[trigger] list[j]).0 == name implies 0
                <= j < less.len() && less[j].0 == name by {}
            if exists|j: int| 0 <= j < less.len() && (#[trigger] less[j]).0 == name {
                let j = choose|j: int| 0 <= j < less.len() && (#[trigger] less[j]).0 == name;
                assert(list[j].0 == name);
            }
        }
    }
}

/// The octets of an optional value.
pub open spec fn held(slot: Option<Bytes>) -> Option<Seq<u8>> {
    match slot {
        Some(b) => Some(octets::content(b)),
        None => None,
    }
}

/// A request's pseudo-headers and its regular fields.
struct Parts {
    method: Option<Bytes>,
    scheme: Option<Bytes>,
    authority: Option<Bytes>,
    path: Option<Bytes>,
    protocol: Option<Bytes>,
    regular: Vec<(Bytes, Bytes)>,
}

impl Parts {
    spec fn pseudo(&self) -> Pseudo {
        Pseudo {
            method: held(self.method),
            scheme: held(self.scheme),
            authority: held(self.authority),
            path: held(self.path),
            protocol: held(self.protocol),
        }
    }
}

/// Fills the slot of a pseudo-header, which must be empty: duplicate
/// pseudo-headers are invalid (RFC 9114 Section 4.1).
fn take_pseudo(slot: &mut Option<Bytes>, value: &Bytes) -> (r: Result<(), StreamError>)
    ensures
        match *old(slot) {
            Some(_) => r == Err::<(), StreamError>(StreamError::Message) && *final(slot) == *old(
                slot,
            ),
            None => r is Ok && held(*final(slot)) == Some(octets::content(*value)),
        },
{
    if slot.is_some() {
        return Err(StreamError::Message);
    }
    *slot = Some(value.clone());
    Ok(())
}

/// Sorts a field section into pseudo-headers and regular fields.
fn gather(headers: &[(Bytes, Bytes)]) -> (r: Result<Parts, StreamError>)
    ensures
        ({
            let list = octets::fields(headers@);
            match r {
                Ok(p) => section_valid(list) && p.pseudo() == pseudo_of(list) && octets::fields(
                    p.regular@,
                ) == regular(list),
                Err(e) => !section_valid(list) && e == StreamError::Message,
            }
        }),
{
    let ghost list = octets::fields(headers@);
    let mut p = Parts {
        method: None,
        scheme: None,
        authority: None,
        path: None,
        protocol: None,
        regular: Vec::new(),
    };
    let mut pseudo_done: bool = false;
    let mut i: usize = 0;
    proof {
        assert(list.take(0) =~= Seq::empty());
        assert(octets::fields(p.regular@) =~= Seq::empty());
        lemma_pseudo_names();
    }
    while i < headers.len()
        invariant
            list == octets::fields(headers@),
            i <= list.len(),
            section_valid(list.take(i as int)),
            p.pseudo() == pseudo_of(list.take(i as int)),
            octets::fields(p.regular@) == regular(list.take(i as int)),
            pseudo_done <==> exists|j: int| 0 <= j < i && !is_pseudo(#[trigger] list[j]),
        decreases list.len() - i,
    {
        let name = &headers[i].0;
        let value = &headers[i].1;
        let octets_of_name = as_slice(name);
        let ghost f = list[i as int];
        let ghost before = list.take(i as int);
        let ghost now = list.take(i + 1);
        proof {
            assert(f == octets::field(headers@[i as int]));
            assert(now.drop_last() =~= before);
            assert(now.last() == f);
            lemma_pseudo_names();
            lemma_value_of(before, f.0);
            assert(list[i as int] == f);
        }
        if octets_of_name.len() > 0 && octets_of_name[0] == 0x3a {
            assert(is_pseudo(f));
            if pseudo_done {
                // RFC 9114 Section 4.1: pseudo-headers must precede regular
                // fields.
                proof {
                    let j = choose|j: int| 0 <= j < i && !is_pseudo(#[trigger] list[j]);
                    assert(!is_pseudo(list[j]));
                }
                return Err(StreamError::Message);
            }
            let taken = if same(octets_of_name, ":method".as_bytes()) {
                take_pseudo(&mut p.method, value)
            } else if same(octets_of_name, ":scheme".as_bytes()) {
                take_pseudo(&mut p.scheme, value)
            } else if same(octets_of_name, ":authority".as_bytes()) {
                take_pseudo(&mut p.authority, value)
            } else if same(octets_of_name, ":path".as_bytes()) {
                take_pseudo(&mut p.path, value)
            } else if same(octets_of_name, ":protocol".as_bytes()) {
                take_pseudo(&mut p.protocol, value)
            } else {
                Err(StreamError::Message)
            };
            match taken {
                Ok(()) => {
                    proof {
                        assert forall|j: int| 0 <= j < i implies is_pseudo(#[trigger] now[j])
                            && now[j].0 != f.0 by {
                            assert(now[j] == list[j]);
                            assert(before[j] == list[j]);
                        }
                        assert forall|k: int| 0 <= k < now.len() && is_pseudo(
                            #[trigger] now[k],
                        ) implies known_pseudo(now[k].0) by {
                            if k < i {
                                assert(before[k] == now[k]);
                            }
                        }
                        assert forall|j: int, k: int|
                            0 <= j < k < now.len() && is_pseudo(#[trigger] now[k]) implies is_pseudo(
                            #[trigger] now[j],
                        ) && now[j].0 != now[k].0 by {
                            if k < i {
                                assert(before[k] == now[k]);
                                assert(before[j] == now[j]);
                            }
                        }
                        assert forall|k: int| 0 <= k < now.len() && !is_pseudo(
                            #[trigger] now[k],
                        ) implies name_valid(now[k].0) && value_valid(now[k].1) by {
                            assert(before[k] == now[k]);
                        }
                    }
                },
                Err(e) => {
                    proof {
                        if known_pseudo(f.0) {
                            let j = choose|j: int|
                                0 <= j < before.len() && (#[trigger] before[j]).0 == f.0;
                            assert(list[j] == before[j]);
                        }
                    }
                    return Err(e);
                },
            }
        } else {
            pseudo_done = true;
            assert(!is_pseudo(f));
            let checked_name = name_octets(octets_of_name);
            let checked_value = value_octets(value.clone());
            match (checked_name, checked_value) {
                (Some(n), Some(v)) => {
                    proof {
                        octets::lemma_fields_push(p.regular@, (n, v));
                        assert forall|k: int| 0 <= k < now.len() && is_pseudo(
                            #[trigger] now[k],
                        ) implies known_pseudo(now[k].0) by {
                            assert(before[k] == now[k]);
                        }
                        assert forall|j: int, k: int|
                            0 <= j < k < now.len() && is_pseudo(#[trigger] now[k]) implies is_pseudo(
                            #[trigger] now[j],
                        ) && now[j].0 != now[k].0 by {
                            assert(before[k] == now[k]);
                            assert(before[j] == now[j]);
                        }
                        assert forall|k: int| 0 <= k < now.len() && !is_pseudo(
                            #[trigger] now[k],
                        ) implies name_valid(now[k].0) && value_valid(now[k].1) by {
                            if k < i {
                                assert(before[k] == now[k]);
                            }
                        }
                    }
                    p.regular.push((n, v));
                },
                _ => {
                    return Err(StreamError::Message);
                },
            }
        }
        i = i + 1;
    }
    assert(list.take(i as int) =~= list);
    Ok(p)
}


/// Decodes an optional pseudo-header into text.
fn text_of(slot: &Option<Bytes>) -> (r: Option<String>)
    ensures
        match held(*slot) {
            Some(b) => r matches Some(s) && s@ == lossy_text(b),
            None => r is None,
        },
{
    match slot {
        Some(b) => Some(lossy(as_slice(b))),
        None => None,
    }
}

/// A request head but for its URI.
struct Draft {
    method: Bytes,
    target: Target,
    headers: Vec<(Bytes, Bytes)>,
}

/// Checks a request's field section, all but whether its target forms a URI.
fn prepare(headers: &[(Bytes, Bytes)]) -> (r: Result<Draft, StreamError>)
    ensures
        ({
            let list = octets::fields(headers@);
            let p = pseudo_of(list);
            match r {
                Ok(d) => {
                    &&& section_valid(list)
                    &&& p.complete()
                    &&& octets::content(d.method) == p.method.unwrap()
                    &&& d.target@ == p.target()
                    &&& octets::fields(d.headers@) == regular(list)
                },
                Err(e) => !(section_valid(list) && p.complete()) && e == StreamError::Message,
            }
        }),
{
    let parts = match gather(headers) {
        Ok(parts) => parts,
        Err(e) => {
            return Err(e);
        },
    };
    let ghost p = parts.pseudo();
    let method = match &parts.method {
        Some(octets_given) => match method_octets(as_slice(octets_given)) {
            Some(method) => method,
            None => {
                return Err(StreamError::Message);
            },
        },
        None => {
            return Err(StreamError::Message);
        },
    };
    let connect: bool = same(as_slice(&method), "CONNECT".as_bytes());
    let extended: bool = parts.protocol.is_some();
    if extended && !connect {
        // RFC 9220 Section 3: `:protocol` only in CONNECT requests.
        return Err(StreamError::Message);
    }
    if connect {
        if extended {
            // RFC 9220 Section 3: an extended CONNECT carries `:scheme`,
            // `:authority`, `:method` and `:protocol`, never `:path`.
            if parts.scheme.is_none() || parts.authority.is_none() || parts.path.is_some() {
                return Err(StreamError::Message);
            }
        } else {
            // RFC 9114 Section 4.1: a plain CONNECT carries only `:method` and
            // `:authority`; `:scheme` and `:path` must be omitted.
            if parts.authority.is_none() || parts.scheme.is_some() || parts.path.is_some() {
                return Err(StreamError::Message);
            }
        }
    } else if parts.scheme.is_none() || parts.path.is_none() {
        return Err(StreamError::Message);
    }
    let target = find_target(connect, &parts.scheme, &parts.authority, &parts.path);
    Ok(Draft { method, target, headers: parts.regular })
}

/// The parts of the request URI. For a CONNECT request they are the tunnel
/// target: its scheme, or `http`, and its authority (RFC 9220).
fn find_target(
    connect: bool,
    scheme: &Option<Bytes>,
    authority: &Option<Bytes>,
    path: &Option<Bytes>,
) -> (r: Target)
    ensures
        forall|p: Pseudo|
            p.connect() == connect && p.scheme == held(*scheme) && p.authority == held(*authority)
                && p.path == held(*path) ==> #[trigger] p.target() == r@,
{
    if connect {
        let scheme = match text_of(scheme) {
            Some(s) => s,
            None => "http".to_string(),
        };
        return Target {
            scheme: Some(scheme),
            authority: text_of(authority),
            path: "".to_string(),
        };
    }
    let path = match text_of(path) {
        Some(p) => p,
        None => "".to_string(),
    };
    match (text_of(scheme), text_of(authority)) {
        (Some(s), Some(a)) => Target { scheme: Some(s), authority: Some(a), path },
        _ => Target { scheme: None, authority: None, path },
    }
}

/// The text of the request URI that `target` forms.
pub fn build_uri(target: &Target) -> (r: Result<String, StreamError>)
    ensures
        match target@.uri() {
            Some(text) => r matches Ok(s) && s@ == text,
            None => r == Err::<String, StreamError>(StreamError::Message),
        },
{
    let built = match (&target.scheme, &target.authority) {
        (Some(scheme), Some(authority)) => full_uri(
            scheme.as_str(),
            authority.as_str(),
            target.path.as_str(),
        ),
        _ => path_uri(target.path.as_str()),
    };
    match built {
        Some(uri) => Ok(uri),
        None => Err(StreamError::Message),
    }
}

/// Builds a request head from a decoded field section, enforcing the RFC 9114
/// Section 4.1 pseudo-header rules:
///
/// - pseudo-headers must precede all regular fields;
/// - duplicate pseudo-headers and unknown ones are `H3_MESSAGE_ERROR`;
/// - `:method`, `:scheme` and `:path` are required (except CONNECT, which
///   requires only `:authority`, plus `:scheme` and `:protocol` for an extended
///   CONNECT; a plain CONNECT must not carry `:scheme`/`:path`);
/// - `:protocol` is only valid on CONNECT requests (RFC 9220).
pub fn build_request(headers: &[(Bytes, Bytes)]) -> (r: Result<RequestHead, StreamError>)
    ensures
        match request_of(octets::fields(headers@)) {
            Some(v) => r matches Ok(head) && head@ == v,
            None => r == Err::<RequestHead, StreamError>(StreamError::Message),
        },
{
    let draft = match prepare(headers) {
        Ok(draft) => draft,
        Err(e) => {
            return Err(e);
        },
    };
    match build_uri(&draft.target) {
        Ok(uri) => Ok(
            RequestHead { method: draft.method, target: draft.target, uri, headers: draft.headers },
        ),
        Err(e) => Err(e),
    }
}

/// Builds a request head from a decoded field section whose target was found to
/// form the URI `uri`, or none.
pub fn build_request_with_uri(headers: &[(Bytes, Bytes)], uri: Option<String>) -> (r: Result<
    RequestHead,
    StreamError,
>)
    ensures
        match request_with_uri(
            octets::fields(headers@),
            match uri {
                Some(text) => Some(text@),
                None => None,
            },
        ) {
            Some(v) => r matches Ok(head) && head@ == v,
            None => r == Err::<RequestHead, StreamError>(StreamError::Message),
        },
{
    let draft = match prepare(headers) {
        Ok(draft) => draft,
        Err(e) => {
            return Err(e);
        },
    };
    match uri {
        Some(uri) => Ok(
            RequestHead { method: draft.method, target: draft.target, uri, headers: draft.headers },
        ),
        None => Err(StreamError::Message),
    }
}

/// Converts a decoded trailer section into its fields, with their names in
/// lower case; pseudo-headers are invalid in it (RFC 9114 Section 4.1).
pub fn header_map(headers: &[(Bytes, Bytes)]) -> (r: Result<Vec<(Bytes, Bytes)>, StreamError>)
    ensures
        match trailers_of(octets::fields(headers@)) {
            Some(list) => r matches Ok(v) && octets::fields(v@) == list,
            None => r == Err::<Vec<(Bytes, Bytes)>, StreamError>(StreamError::Message),
        },
{
    let ghost list = octets::fields(headers@);
    let mut map: Vec<(Bytes, Bytes)> = Vec::new();
    let mut i: usize = 0;
    proof {
        assert(list.take(0) =~= Seq::empty());
        assert(octets::fields(map@) =~= Seq::empty());
    }
    while i < headers.len()
        invariant
            list == octets::fields(headers@),
            i <= list.len(),
            octets::fields(map@) == regular(list.take(i as int)),
            forall|j: int|
                0 <= j < i ==> !is_pseudo(#[trigger] list[j]) && name_valid(list[j].0)
                    && value_valid(list[j].1),
        decreases list.len() - i,
    {
        let name = as_slice(&headers[i].0);
        let ghost f = list[i as int];
        proof {
            assert(f == octets::field(headers@[i as int]));
            assert(list.take(i + 1).drop_last() =~= list.take(i as int));
            assert(list.take(i + 1).last() == f);
        }
        if name.len() > 0 && name[0] == 0x3a {
            assert(is_pseudo(list[i as int]));
            return Err(StreamError::Message);
        }
        match (name_octets(name), value_octets(headers[i].1.clone())) {
            (Some(n), Some(v)) => {
                proof {
                    octets::lemma_fields_push(map@, (n, v));
                }
                map.push((n, v));
            },
            _ => {
                assert(!is_pseudo(list[i as int]));
                return Err(StreamError::Message);
            },
        }
        i = i + 1;
    }
    assert(list.take(i as int) =~= list);
    Ok(map)
}

/// A field section that is a request has known pseudo-headers only, each once
/// and before every regular field; has a `:method`, and either the `:scheme` and
/// `:path` of an ordinary request or the `:authority` of a CONNECT request; and
/// has `:protocol` on CONNECT requests only.
pub proof fn lemma_request_rules(list: Seq<Field>)
    requires
        request_of(list) is Some,
    ensures
        ({
            let p = pseudo_of(list);
            &&& forall|i: int|
                0 <= i < list.len() && is_pseudo(#[trigger] list[i]) ==> known_pseudo(list[i].0)
            &&& forall|i: int, j: int|
                0 <= i < j < list.len() && is_pseudo(#[trigger] list[j]) ==> is_pseudo(
                    #[trigger] list[i],
                ) && list[i].0 != list[j].0
            &&& p.method is Some
            &&& p.connect() ==> p.authority is Some && p.path is None
            &&& p.connect() && p.protocol is None ==> p.scheme is None
            &&& p.connect() && p.protocol is Some ==> p.scheme is Some
            &&& !p.connect() ==> p.scheme is Some && p.path is Some && p.protocol is None
        }),
{
}

/// The fields of a trailer section come out as they went in, but for the case of
/// their names, and none of them is a pseudo-header.
pub proof fn lemma_trailer_rules(list: Seq<Field>)
    requires
        trailers_of(list) is Some,
    ensures
        ({
            let t = trailers_of(list).unwrap();
            &&& t.len() == list.len()
            &&& forall|i: int|
                0 <= i < list.len() ==> !is_pseudo(list[i]) && #[trigger] t[i] == (
                    lower(list[i].0),
                    list[i].1,
                )
        }),
{
    lemma_regular(list);
}

proof fn lemma_regular(list: Seq<Field>)
    requires
        forall|i: int| 0 <= i < list.len() ==> !is_pseudo(#[trigger] list[i]),
    ensures
        regular(list).len() == list.len(),
        forall|i: int|
            0 <= i < list.len() ==> #[trigger] regular(list)[i] == (lower(list[i].0), list[i].1),
    decreases list.len(),
{
    if list.len() > 0 {
        let less = list.drop_last();
        assert forall|i: int| 0 <= i < less.len() implies !is_pseudo(#[trigger] less[i]) by {
            assert(less[i] == list[i]);
        }
        assert(!is_pseudo(list[list.len() - 1]));
        lemma_regular(less);
    }
}

/// Whether a name starts with a colon.
pub open spec fn colon_first(name: Seq<u8>) -> bool {
    name.len() > 0 && name[0] == 0x3a
}

/// Whether a section opens with `k` pseudo-headers, which are all it has.
pub open spec fn opens_with(list: Seq<Field>, k: int) -> bool {
    &&& 0 <= k <= list.len()
    &&& forall|i: int| 0 <= i < k ==> colon_first((#[trigger] list[i]).0)
    &&& forall|i: int| k <= i < list.len() ==> !colon_first((#[trigger] list[i]).0)
}

/// Whether a section has a line with that name.
pub open spec fn has_line(list: Seq<Field>, name: Seq<u8>) -> bool {
    exists|i: int| 0 <= i < list.len() && (#[trigger] list[i]).0 == name
}

/// Whether `value` is the value of every line with that name, and there is one.
pub open spec fn line_is(list: Seq<Field>, name: Seq<u8>, value: Seq<u8>) -> bool {
    &&& has_line(list, name)
    &&& forall|i: int| 0 <= i < list.len() && (#[trigger] list[i]).0 == name ==> list[i].1 == value
}

/// The octets of `:method`.
pub open spec fn method_name() -> Seq<u8> {
    seq![0x3au8, 0x6d, 0x65, 0x74, 0x68, 0x6f, 0x64]
}

/// The octets of `:scheme`.
pub open spec fn scheme_name() -> Seq<u8> {
    seq![0x3au8, 0x73, 0x63, 0x68, 0x65, 0x6d, 0x65]
}

/// The octets of `:authority`.
pub open spec fn authority_name() -> Seq<u8> {
    seq![0x3au8, 0x61, 0x75, 0x74, 0x68, 0x6f, 0x72, 0x69, 0x74, 0x79]
}

/// The octets of `:path`.
pub open spec fn path_name() -> Seq<u8> {
    seq![0x3au8, 0x70, 0x61, 0x74, 0x68]
}

/// The octets of `:protocol`.
pub open spec fn protocol_name() -> Seq<u8> {
    seq![0x3au8, 0x70, 0x72, 0x6f, 0x74, 0x6f, 0x63, 0x6f, 0x6c]
}

/// The octets of `CONNECT`.
pub open spec fn connect_method() -> Seq<u8> {
    seq![0x43u8, 0x4f, 0x4e, 0x4e, 0x45, 0x43, 0x54]
}

/// The names of the pseudo-headers, octet by octet.
pub proof fn lemma_names_spelled()
    ensures
        spelled(":method") == method_name(),
        spelled(":scheme") == scheme_name(),
        spelled(":authority") == authority_name(),
        spelled(":path") == path_name(),
        spelled(":protocol") == protocol_name(),
        spelled("CONNECT") == connect_method(),
{
    reveal_strlit(":method");
    reveal_strlit(":scheme");
    reveal_strlit(":authority");
    reveal_strlit(":path");
    reveal_strlit(":protocol");
    reveal_strlit("CONNECT");
    lemma_spelled(":method");
    lemma_spelled(":scheme");
    lemma_spelled(":authority");
    lemma_spelled(":path");
    lemma_spelled(":protocol");
    lemma_spelled("CONNECT");
    assert(spelled(":method") =~= method_name());
    assert(spelled(":scheme") =~= scheme_name());
    assert(spelled(":authority") =~= authority_name());
    assert(spelled(":path") =~= path_name());
    assert(spelled(":protocol") =~= protocol_name());
    assert(spelled("CONNECT") =~= connect_method());
}

/// A text of ASCII characters is spelled in one octet each.
pub proof fn lemma_spelled(text: &str)
    requires
        vstd::utf8::is_ascii_chars(text@),
    ensures
        spelled(text).len() == text@.len(),
        forall|i: int| 0 <= i < text@.len() ==> #[trigger] spelled(text)[i] == text@[i] as u8,
{
    vstd::utf8::is_ascii_chars_encode_utf8(text@);
}

/// Lower case changes the letters `A` to `Z`, each to the letter 32 behind it,
/// and nothing else.
pub proof fn lemma_lower_case(s: Seq<u8>)
    ensures
        lower(s).len() == s.len(),
        forall|i: int|
            0 <= i < s.len() ==> #[trigger] lower(s)[i] == (if 0x41 <= s[i] <= 0x5a {
                s[i] + 0x20
            } else {
                s[i] as int
            }),
        lower(lower(s)) == lower(s),
{
    assert(lower(lower(s)) =~= lower(s));
}

/// What a token is made of: letters, digits and fifteen marks.
pub proof fn lemma_token_characters(s: Seq<u8>)
    ensures
        token(s) <==> s.len() > 0 && forall|i: int|
            0 <= i < s.len() ==> ({
                let b = #[trigger] s[i];
                ||| 0x30 <= b <= 0x39
                ||| 0x41 <= b <= 0x5a
                ||| 0x61 <= b <= 0x7a
                ||| seq![
                    0x21u8, 0x23, 0x24, 0x25, 0x26, 0x27, 0x2a, 0x2b, 0x2d, 0x2e, 0x5e, 0x5f, 0x60,
                    0x7c, 0x7e,
                ].contains(b)
            }),
{
    let marks = seq![
        0x21u8, 0x23, 0x24, 0x25, 0x26, 0x27, 0x2a, 0x2b, 0x2d, 0x2e, 0x5e, 0x5f, 0x60, 0x7c, 0x7e,
    ];
    assert forall|b: u8| #[trigger] token_char(b) <==> ({
        ||| 0x30 <= b <= 0x39
        ||| 0x41 <= b <= 0x5a
        ||| 0x61 <= b <= 0x7a
        ||| marks.contains(b)
    }) by {
        assert(marks[0] == 0x21 && marks[1] == 0x23 && marks[2] == 0x24 && marks[3] == 0x25);
        assert(marks[4] == 0x26 && marks[5] == 0x27 && marks[6] == 0x2a && marks[7] == 0x2b);
        assert(marks[8] == 0x2d && marks[9] == 0x2e && marks[10] == 0x5e && marks[11] == 0x5f);
        assert(marks[12] == 0x60 && marks[13] == 0x7c && marks[14] == 0x7e);
    }
}

/// What a field name and a field value are made of.
pub proof fn lemma_field_characters(name: Seq<u8>, value: Seq<u8>)
    ensures
        name_valid(name) <==> token(name) && name.len() <= 65535,
        value_valid(value) <==> forall|i: int|
            0 <= i < value.len() ==> #[trigger] value[i] == 9 || 32 <= value[i] <= 126 || value[i]
                >= 128,
{
}

/// The headers of a request are its regular fields, all of them and in order:
/// behind `k` pseudo-headers, the field at `k + i` is the header at `i`, with the
/// value it came with and its name in lower case.
pub proof fn lemma_request_headers(list: Seq<Field>, uri: Option<Seq<char>>, k: int)
    requires
        opens_with(list, k),
        request_with_uri(list, uri) is Some,
    ensures
        ({
            let headers = request_with_uri(list, uri).unwrap().headers;
            &&& headers.len() == list.len() - k
            &&& forall|i: int|
                0 <= i < headers.len() ==> (#[trigger] headers[i]).0 == lower(list[k + i].0)
                    && headers[i].1 == list[k + i].1
        }),
{
    lemma_regular_behind(list, k);
}

proof fn lemma_regular_behind(list: Seq<Field>, k: int)
    requires
        opens_with(list, k),
    ensures
        regular(list).len() == list.len() - k,
        forall|i: int|
            0 <= i < list.len() - k ==> (#[trigger] regular(list)[i]).0 == lower(list[k + i].0)
                && regular(list)[i].1 == list[k + i].1,
    decreases list.len(),
{
    if list.len() > 0 {
        let less = list.drop_last();
        let n = list.len() - 1;
        assert(list[n] == list.last());
        if k == list.len() {
            assert(opens_with(less, k - 1)) by {
                assert forall|i: int| 0 <= i < k - 1 implies colon_first((#[trigger] less[i]).0) by {
                    assert(less[i] == list[i]);
                }
            }
            lemma_regular_behind(less, k - 1);
            assert(is_pseudo(list.last()));
        } else {
            assert(opens_with(less, k)) by {
                assert forall|i: int| 0 <= i < k implies colon_first((#[trigger] less[i]).0) by {
                    assert(less[i] == list[i]);
                }
                assert forall|i: int| k <= i < less.len() implies !colon_first(
                    (#[trigger] less[i]).0,
                ) by {
                    assert(less[i] == list[i]);
                }
            }
            lemma_regular_behind(less, k);
            assert(!is_pseudo(list.last()));
        }
    }
}

/// What a lookup finds, where a name occurs once at most.
proof fn lemma_value_is(list: Seq<Field>, name: Seq<u8>)
    requires
        forall|i: int, j: int|
            0 <= i < j < list.len() ==> !((#[trigger] list[i]).0 == name && (
            #[trigger] list[j]).0 == name),
    ensures
        value_of(list, name) is Some <==> has_line(list, name),
        value_of(list, name) matches Some(v) ==> line_is(list, name, v),
    decreases list.len(),
{
    lemma_value_of(list, name);
    if list.len() > 0 {
        let less = list.drop_last();
        let n = list.len() - 1;
        assert(list[n] == list.last());
        assert forall|i: int, j: int| 0 <= i < j < less.len() implies !((#[trigger] less[i]).0 == name
            && (#[trigger] less[j]).0 == name) by {
            assert(less[i] == list[i] && less[j] == list[j]);
        }
        lemma_value_is(less, name);
        if value_of(list, name) is Some {
            let v = value_of(list, name).unwrap();
            assert forall|i: int| 0 <= i < list.len() && (#[trigger] list[i]).0 == name implies list[i].1
                == v by {
                if i < n {
                    assert(less[i] == list[i]);
                    if list[n].0 == name {
                        assert(!(list[i].0 == name && list[n].0 == name));
                    }
                }
            }
        }
    }
}

/// The shape that the lines of a request have: nothing but pseudo-headers of
/// requests in front, none of them twice, and valid fields behind.
pub open spec fn well_shaped(list: Seq<Field>, k: int) -> bool {
    &&& opens_with(list, k)
    &&& forall|i: int|
        0 <= i < k ==> {
            ||| (#[trigger] list[i]).0 == method_name()
            ||| list[i].0 == scheme_name()
            ||| list[i].0 == authority_name()
            ||| list[i].0 == path_name()
            ||| list[i].0 == protocol_name()
        }
    &&& forall|i: int, j: int|
        0 <= i < j < k ==> (#[trigger] list[i]).0 != (#[trigger] list[j]).0
    &&& forall|i: int|
        k <= i < list.len() ==> name_valid((#[trigger] list[i]).0) && value_valid(list[i].1)
}

/// Which pseudo-headers a request with that method has: an ordinary one its
/// scheme and its path, and no protocol; a CONNECT request its authority and no
/// path, and a scheme exactly where it has a protocol.
pub open spec fn well_formed(list: Seq<Field>, method: Seq<u8>) -> bool {
    if method == connect_method() {
        &&& has_line(list, authority_name())
        &&& !has_line(list, path_name())
        &&& has_line(list, scheme_name()) <==> has_line(list, protocol_name())
    } else {
        &&& has_line(list, scheme_name())
        &&& has_line(list, path_name())
        &&& !has_line(list, protocol_name())
    }
}

/// The names differ, so that no line of a shaped section answers to two.
proof fn lemma_shape(list: Seq<Field>, k: int)
    requires
        opens_with(list, k),
    ensures
        section_valid(list) <==> well_shaped(list, k),
{
    lemma_names_spelled();
    if section_valid(list) {
        assert forall|i: int| 0 <= i < k implies {
            ||| (#[trigger] list[i]).0 == method_name()
            ||| list[i].0 == scheme_name()
            ||| list[i].0 == authority_name()
            ||| list[i].0 == path_name()
            ||| list[i].0 == protocol_name()
        } by {
            assert(is_pseudo(list[i]));
        }
        assert forall|i: int, j: int| 0 <= i < j < k implies (#[trigger] list[i]).0 != (
        #[trigger] list[j]).0 by {
            assert(is_pseudo(list[j]));
            assert(is_pseudo(list[i]));
        }
        assert forall|i: int| k <= i < list.len() implies name_valid((#[trigger] list[i]).0)
            && value_valid(list[i].1) by {
            assert(!is_pseudo(list[i]));
        }
    }
    if well_shaped(list, k) {
        assert forall|i: int| 0 <= i < list.len() && is_pseudo(#[trigger] list[i]) implies known_pseudo(
            list[i].0,
        ) by {
            if i >= k {
                assert(!colon_first(list[i].0));
            }
        }
        assert forall|i: int, j: int|
            0 <= i < j < list.len() && is_pseudo(#[trigger] list[j]) implies is_pseudo(
            #[trigger] list[i],
        ) && list[i].0 != list[j].0 by {
            if j >= k {
                assert(!colon_first(list[j].0));
            }
            assert(colon_first(list[i].0));
        }
        assert forall|i: int| 0 <= i < list.len() && !is_pseudo(#[trigger] list[i]) implies name_valid(
            list[i].0,
        ) && value_valid(list[i].1) by {
            if i < k {
                assert(colon_first(list[i].0));
            }
        }
    }
}

/// A name with a colon in front occurs once at most in a shaped section.
proof fn lemma_once(list: Seq<Field>, k: int, name: Seq<u8>)
    requires
        well_shaped(list, k),
        colon_first(name),
    ensures
        forall|i: int, j: int|
            0 <= i < j < list.len() ==> !((#[trigger] list[i]).0 == name && (
            #[trigger] list[j]).0 == name),
{
    assert forall|i: int, j: int| 0 <= i < j < list.len() implies !((#[trigger] list[i]).0 == name
        && (#[trigger] list[j]).0 == name) by {
        if list[i].0 == name && list[j].0 == name {
            assert(colon_first(list[j].0));
            assert(j < k);
            assert(list[i].0 != list[j].0);
        }
    }
}

/// Which field sections are requests. One that opens with `k` pseudo-headers is
/// a request, given that its target forms a URI, exactly where its lines are in
/// shape, one of them is its method, which is a token, and it has the
/// pseudo-headers that this method asks for.
pub proof fn lemma_requests(list: Seq<Field>, uri: Option<Seq<char>>, k: int)
    requires
        opens_with(list, k),
    ensures
        request_with_uri(list, uri) is Some <==> {
            &&& uri is Some
            &&& well_shaped(list, k)
            &&& exists|i: int|
                0 <= i < k && (#[trigger] list[i]).0 == method_name() && token(list[i].1)
                    && well_formed(list, list[i].1)
        },
{
    lemma_names_spelled();
    lemma_shape(list, k);
    if well_shaped(list, k) {
        lemma_lookups(list, k);
        let p = pseudo_of(list);
        if p.method is Some && token(p.method.unwrap()) {
            let i = choose|i: int| 0 <= i < list.len() && (#[trigger] list[i]).0 == method_name();
            assert(list[i].1 == p.method.unwrap());
            assert(colon_first(list[i].0));
            assert(i < k);
        }
    }
}

/// What the lookups in a shaped section find.
proof fn lemma_lookups(list: Seq<Field>, k: int)
    requires
        well_shaped(list, k),
    ensures
        ({
            let p = pseudo_of(list);
            &&& p.method is Some <==> has_line(list, method_name())
            &&& p.scheme is Some <==> has_line(list, scheme_name())
            &&& p.authority is Some <==> has_line(list, authority_name())
            &&& p.path is Some <==> has_line(list, path_name())
            &&& p.protocol is Some <==> has_line(list, protocol_name())
            &&& p.method matches Some(v) ==> line_is(list, method_name(), v)
            &&& p.scheme matches Some(v) ==> line_is(list, scheme_name(), v)
            &&& p.authority matches Some(v) ==> line_is(list, authority_name(), v)
            &&& p.path matches Some(v) ==> line_is(list, path_name(), v)
            &&& p.protocol matches Some(v) ==> line_is(list, protocol_name(), v)
        }),
{
    lemma_names_spelled();
    lemma_once(list, k, method_name());
    lemma_once(list, k, scheme_name());
    lemma_once(list, k, authority_name());
    lemma_once(list, k, path_name());
    lemma_once(list, k, protocol_name());
    lemma_value_is(list, method_name());
    lemma_value_is(list, scheme_name());
    lemma_value_is(list, authority_name());
    lemma_value_is(list, path_name());
    lemma_value_is(list, protocol_name());
}

/// A section without that shape is no request: one with a pseudo-header behind a
/// regular field.
pub proof fn lemma_pseudo_behind_field_is_refused(
    list: Seq<Field>,
    uri: Option<Seq<char>>,
    i: int,
    j: int,
)
    requires
        0 <= i < j < list.len(),
        !colon_first(list[i].0),
        colon_first(list[j].0),
    ensures
        request_with_uri(list, uri) is None,
{
    assert(is_pseudo(list[j]) && !is_pseudo(list[i]));
}

/// What a request says is what its lines say: its method is the value of its
/// `:method` line, and its target is the text of its `:scheme`, `:authority` and
/// `:path` lines. A target without an authority is the path alone. A CONNECT
/// request is for its authority, with no path, and with the scheme `http` where
/// it has none of its own.
pub proof fn lemma_request_says_what_its_lines_say(
    list: Seq<Field>,
    uri: Option<Seq<char>>,
    k: int,
    scheme: Seq<u8>,
    authority: Seq<u8>,
    path: Seq<u8>,
)
    requires
        opens_with(list, k),
        request_with_uri(list, uri) is Some,
        has_line(list, scheme_name()) ==> line_is(list, scheme_name(), scheme),
        has_line(list, authority_name()) ==> line_is(list, authority_name(), authority),
        has_line(list, path_name()) ==> line_is(list, path_name(), path),
    ensures
        ({
            let v = request_with_uri(list, uri).unwrap();
            &&& Some(v.uri) == uri
            &&& line_is(list, method_name(), v.method)
            &&& v.method == connect_method() ==> {
                &&& v.target.scheme == Some(
                    if has_line(list, scheme_name()) {
                        lossy_text(scheme)
                    } else {
                        seq!['h', 't', 't', 'p']
                    },
                )
                &&& v.target.authority == Some(lossy_text(authority))
                &&& v.target.path.len() == 0
            }
            &&& v.method != connect_method() ==> {
                &&& v.target.path == lossy_text(path)
                &&& has_line(list, authority_name()) ==> v.target.scheme == Some(
                    lossy_text(scheme),
                ) && v.target.authority == Some(lossy_text(authority))
                &&& !has_line(list, authority_name()) ==> v.target.scheme is None
                    && v.target.authority is None
            }
        }),
{
    lemma_names_spelled();
    lemma_shape(list, k);
    lemma_lookups(list, k);
    reveal_strlit("http");
    reveal_strlit("");
    assert("http"@ =~= seq!['h', 't', 't', 'p']);
    assert(""@.len() == 0);
    let p = pseudo_of(list);
    lemma_same_line(list, scheme_name(), p.scheme, scheme);
    lemma_same_line(list, authority_name(), p.authority, authority);
    lemma_same_line(list, path_name(), p.path, path);
}

proof fn lemma_same_line(list: Seq<Field>, name: Seq<u8>, found: Option<Seq<u8>>, value: Seq<u8>)
    requires
        found is Some <==> has_line(list, name),
        found matches Some(v) ==> line_is(list, name, v),
        has_line(list, name) ==> line_is(list, name, value),
    ensures
        found is Some ==> found == Some(value),
{
    if found is Some {
        let i = choose|i: int| 0 <= i < list.len() && (#[trigger] list[i]).0 == name;
        assert(list[i].1 == value);
    }
}

/// The URI of a request is the one that its scheme, its authority and its path
/// form together, or its path alone where it has no authority; and a request
/// whose target forms no URI is none.
pub proof fn lemma_request_uri(list: Seq<Field>, uri: Option<Seq<char>>)
    requires
        request_with_uri(list, uri) is Some,
    ensures
        ({
            let v = request_with_uri(list, uri).unwrap();
            let text = match (v.target.scheme, v.target.authority) {
                (Some(scheme), Some(authority)) => full_uri_text(
                    scheme,
                    authority,
                    v.target.path,
                ),
                _ => path_uri_text(v.target.path),
            };
            &&& request_of(list) is Some <==> text is Some
            &&& request_of(list) is Some ==> request_of(list) == Some(
                RequestValue { uri: text.unwrap(), ..v },
            )
        }),
{
}

/// Which sections are trailers: those without a line whose name starts with a
/// colon, and with valid names and values.
pub proof fn lemma_trailers(list: Seq<Field>)
    ensures
        trailers_of(list) is Some <==> forall|i: int|
            0 <= i < list.len() ==> !colon_first((#[trigger] list[i]).0) && name_valid(list[i].0)
                && value_valid(list[i].1),
        trailers_of(list) matches Some(t) ==> t.len() == list.len() && forall|i: int|
            0 <= i < list.len() ==> (#[trigger] t[i]).0 == lower(list[i].0) && t[i].1 == list[i].1,
{
    if trailers_of(list) is Some {
        lemma_trailer_rules(list);
    }
    if forall|i: int|
        0 <= i < list.len() ==> !colon_first((#[trigger] list[i]).0) && name_valid(list[i].0)
            && value_valid(list[i].1) {
        assert forall|i: int| 0 <= i < list.len() implies !is_pseudo(#[trigger] list[i]) by {
            assert(!colon_first(list[i].0));
        }
    }
}

/// A request head stands for its own method, target, URI and headers.
pub proof fn lemma_head_stands_for_itself(head: RequestHead)
    ensures
        head@.method == octets::content(head.method),
        head@.uri == head.uri@,
        head@.target.path == head.target.path@,
        head@.target.scheme matches Some(s) ==> head.target.scheme is Some && s
            == head.target.scheme.unwrap()@,
        head@.target.scheme is None ==> head.target.scheme is None,
        head@.target.authority matches Some(s) ==> head.target.authority is Some && s
            == head.target.authority.unwrap()@,
        head@.target.authority is None ==> head.target.authority is None,
        head@.headers.len() == head.headers@.len(),
        forall|i: int|
            0 <= i < head.headers@.len() ==> (#[trigger] head@.headers[i]).0 == octets::content(
                head.headers@[i].0,
            ) && head@.headers[i].1 == octets::content(head.headers@[i].1),
{
}

/// The codes that failures of a stream close the connection with.
pub proof fn lemma_stream_error_codes(e: StreamError, code: u64)
    ensures
        StreamError::Transport(TransportError::Closed { code }).code_spec() == code,
        e matches StreamError::Transport(t) && !(t is Closed) ==> e.code_spec() == 0x0102,
        StreamError::Frame.code_spec() == 0x0106,
        StreamError::FrameUnexpected.code_spec() == 0x0105,
        StreamError::Message.code_spec() == 0x010e,
        e is HeadersTooBig ==> e.code_spec() == 0x010e,
        StreamError::Qpack(QpackError::DecompressionFailed).code_spec() == 0x0200,
        StreamError::Qpack(QpackError::EncoderStream).code_spec() == 0x0201,
        StreamError::Qpack(QpackError::DecoderStream).code_spec() == 0x0202,
{
}

} // verus!
