//! The response envelope: what a handler wrapper hands back across the
//! FFI boundary. A wrapper decodes the request (a malformed one
//! short-circuits to a 400 envelope), invokes the handler, and encodes
//! the response: binary content types are carried base64-encoded, a body
//! that is valid UTF-8 and parses as JSON is embedded as the document
//! itself, other text is embedded as a string, and non-UTF-8 bytes fall
//! back to base64. A handler fault becomes a fixed 500 JSON payload
//! instead of a crash.
use vstd::prelude::*;
use vstd::string::StringExecFns;
use vstd::string::StrSliceExecFns;
use vstd::utf8::{valid_utf8, decode_utf8};
use crate::text::{str_eq, push_char, chars_of};

verus! {

/// A handler's raw response: status, headers, and raw body bytes.
pub struct WireResponse {
    pub status: u16,
    pub headers: Vec<(String, String)>,
    pub body: Vec<u8>,
}

/// Model of a response's headers.
pub open spec fn headers_view(h: Seq<(String, String)>) -> Seq<(Seq<char>, Seq<char>)> {
    h.map_values(|p: (String, String)| (p.0@, p.1@))
}

/// The envelope's body: a JSON document embedded directly, plain text
/// embedded as a string, or bytes carried base64-encoded. The base64
/// variant is the envelope's `bodyBase64` field; the others are `body`.
pub enum EnvelopeBody {
    Json(String),
    Text(String),
    Base64(String),
}

/// Model of an envelope body.
#[verifier::ext_equal]
pub ghost enum BodyModel {
    Json(Seq<char>),
    Text(Seq<char>),
    Base64(Seq<char>),
}

impl View for EnvelopeBody {
    type V = BodyModel;

    open spec fn view(&self) -> BodyModel {
        match self {
            EnvelopeBody::Json(s) => BodyModel::Json(s@),
            EnvelopeBody::Text(s) => BodyModel::Text(s@),
            EnvelopeBody::Base64(s) => BodyModel::Base64(s@),
        }
    }
}

/// The response envelope carried back over the FFI boundary: always
/// `{status, headers, body | bodyBase64}`.
pub struct Envelope {
    pub status: u16,
    pub headers: Vec<(String, String)>,
    pub body: EnvelopeBody,
}

/// Whether the text is a JSON document.
pub uninterp spec fn json_valid(s: Seq<char>) -> bool;

/// Relies on serde_json's parser: whether the text parses as a JSON
/// document, a function of the text alone.
#[verifier::external_body]
fn json_is_valid(s: &str) -> (r: bool)
    ensures
        r == json_valid(s@),
{
    serde_json::from_str::<serde_json::Value>(s).is_ok()
}

/// Relies on the standard library's `str::from_utf8`: yields the decoded
/// text exactly when the bytes are valid UTF-8.
#[verifier::external_body]
fn utf8_to_string(bytes: &[u8]) -> (r: Option<String>)
    ensures
        match r {
            Some(s) => valid_utf8(bytes@) && s@ == decode_utf8(bytes@),
            None => !valid_utf8(bytes@),
        },
{
    match core::str::from_utf8(bytes) {
        Ok(s) => Some(s.to_string()),
        Err(_) => None,
    }
}

/// The base64 character for a 6-bit value.
pub open spec fn b64_char(v: u8) -> char {
    if v < 26 {
        (('A' as u8) + v) as char
    } else if v < 52 {
        (('a' as u8) + (v - 26)) as char
    } else if v < 62 {
        (('0' as u8) + (v - 52)) as char
    } else if v == 62 {
        '+'
    } else {
        '/'
    }
}

/// Standard base64 text of a byte string, padded with `=`.
pub open spec fn base64_of(b: Seq<u8>) -> Seq<char>
    decreases b.len(),
{
    if b.len() == 0 {
        Seq::empty()
    } else if b.len() == 1 {
        seq![
            b64_char(b[0] >> 2),
            b64_char((b[0] & 3) << 4),
            '=',
            '=',
        ]
    } else if b.len() == 2 {
        seq![
            b64_char(b[0] >> 2),
            b64_char(((b[0] & 3) << 4) | (b[1] >> 4)),
            b64_char((b[1] & 15) << 2),
            '=',
        ]
    } else {
        seq![
            b64_char(b[0] >> 2),
            b64_char(((b[0] & 3) << 4) | (b[1] >> 4)),
            b64_char(((b[1] & 15) << 2) | (b[2] >> 6)),
            b64_char(b[2] & 63),
        ] + base64_of(b.skip(3))
    }
}

/// Writes a byte string as standard padded base64 text.
pub fn base64_encode(b: &[u8]) -> (r: String)
    ensures
        r@ == base64_of(b@),
{
    let mut out: String = String::new();
    let n: usize = b.len();
    let mut i: usize = 0;
    proof {
        assert(b@.skip(0) =~= b@);
    }
    while n - i >= 3
        invariant
            n == b@.len(),
            0 <= i <= n,
            base64_of(b@) == out@ + base64_of(b@.skip(i as int)),
        decreases n - i,
    {
        let x: u8 = b[i];
        let y: u8 = b[i + 1];
        let z: u8 = b[i + 2];
        proof {
            assert(b@.skip(i as int).len() >= 3);
            assert(b@.skip(i as int)[0] == x);
            assert(b@.skip(i as int)[1] == y);
            assert(b@.skip(i as int)[2] == z);
            assert(b@.skip(i as int).skip(3) =~= b@.skip(i as int + 3));
            assert(x >> 2 < 64 && ((x & 3) << 4) | (y >> 4) < 64 && ((y & 15) << 2) | (z >> 6)
                < 64 && z & 63 < 64) by (bit_vector);
        }
        push_b64(&mut out, x >> 2);
        push_b64(&mut out, ((x & 3) << 4) | (y >> 4));
        push_b64(&mut out, ((y & 15) << 2) | (z >> 6));
        push_b64(&mut out, z & 63);
        proof {
            assert(base64_of(b@) =~= out@ + base64_of(b@.skip(i as int + 3)));
        }
        i += 3;
    }
    if n - i == 1 {
        let x: u8 = b[i];
        proof {
            assert(b@.skip(i as int).len() == 1);
            assert(b@.skip(i as int)[0] == x);
            assert(x >> 2 < 64 && (x & 3) << 4 < 64) by (bit_vector);
        }
        push_b64(&mut out, x >> 2);
        push_b64(&mut out, (x & 3) << 4);
        push_char(&mut out, '=');
        push_char(&mut out, '=');
    } else if n - i == 2 {
        let x: u8 = b[i];
        let y: u8 = b[i + 1];
        proof {
            assert(b@.skip(i as int).len() == 2);
            assert(b@.skip(i as int)[0] == x);
            assert(b@.skip(i as int)[1] == y);
            assert(x >> 2 < 64 && ((x & 3) << 4) | (y >> 4) < 64 && (y & 15) << 2 < 64)
                by (bit_vector);
        }
        push_b64(&mut out, x >> 2);
        push_b64(&mut out, ((x & 3) << 4) | (y >> 4));
        push_b64(&mut out, (y & 15) << 2);
        push_char(&mut out, '=');
    } else {
        proof {
            assert(b@.skip(i as int).len() == 0);
            assert(base64_of(b@.skip(i as int)) =~= Seq::<char>::empty());
        }
    }
    proof {
        assert(out@ =~= base64_of(b@));
    }
    out
}

/// Appends the base64 character of a 6-bit value.
fn push_b64(out: &mut String, v: u8)
    requires
        v < 64,
    ensures
        final(out)@ == old(out)@.push(b64_char(v)),
{
    let c: char = if v < 26 {
        (('A' as u8) + v) as char
    } else if v < 52 {
        (('a' as u8) + (v - 26)) as char
    } else if v < 62 {
        (('0' as u8) + (v - 52)) as char
    } else if v == 62 {
        '+'
    } else {
        '/'
    };
    push_char(out, c);
}

/// ASCII lower-casing of header text.
pub open spec fn lower_chars(s: Seq<char>) -> Seq<char> {
    s.map_values(
        |c: char|
            if 'A' <= c <= 'Z' {
                ((c as u8) + 32) as char
            } else {
                c
            },
    )
}

/// The first value recorded under the key, if any.
pub open spec fn header_value(h: Seq<(Seq<char>, Seq<char>)>, key: Seq<char>) -> Option<Seq<char>>
    decreases h.len(),
{
    if h.len() == 0 {
        None
    } else if h[0].0 == key {
        Some(h[0].1)
    } else {
        header_value(h.drop_first(), key)
    }
}

/// The response's content type, lower-cased: the `content-type` header,
/// else the `Content-Type` header, else empty.
pub open spec fn content_type_of(h: Seq<(Seq<char>, Seq<char>)>) -> Seq<char> {
    match header_value(h, "content-type"@) {
        Some(v) => lower_chars(v),
        None => match header_value(h, "Content-Type"@) {
            Some(v) => lower_chars(v),
            None => Seq::empty(),
        },
    }
}

/// Whether a lower-cased content type is carried as binary: it starts
/// with `image/` or is exactly `application/octet-stream`.
pub open spec fn is_binary_content_type(ct: Seq<char>) -> bool {
    (ct.len() >= 6 && ct.take(6) == "image/"@) || ct == "application/octet-stream"@
}

/// How a response body is embedded in the envelope, given the response's
/// lower-cased content type: base64 for binary content types, the parsed
/// document for JSON text, a string for other text, base64 for bytes that
/// are not UTF-8.
pub open spec fn encode_body_spec(ct: Seq<char>, body: Seq<u8>) -> BodyModel {
    if is_binary_content_type(ct) {
        BodyModel::Base64(base64_of(body))
    } else if valid_utf8(body) {
        if json_valid(decode_utf8(body)) {
            BodyModel::Json(decode_utf8(body))
        } else {
            BodyModel::Text(decode_utf8(body))
        }
    } else {
        BodyModel::Base64(base64_of(body))
    }
}

/// The first value recorded under the key, if any.
fn find_header<'a>(h: &'a Vec<(String, String)>, key: &str) -> (r: Option<&'a String>)
    ensures
        match r {
            Some(v) => header_value(headers_view(h@), key@) == Some(v@),
            None => header_value(headers_view(h@), key@) is None,
        },
{
    let n: usize = h.len();
    let mut i: usize = 0;
    while i < n
        invariant
            n == h@.len(),
            0 <= i <= n,
            forall|k: int| 0 <= k < i ==> (#[trigger] headers_view(h@)[k]).0 != key@,
        decreases n - i,
    {
        if str_eq(h[i].0.as_str(), key) {
            proof {
                lemma_header_value_skip(headers_view(h@), key@, i as int);
                assert(headers_view(h@).skip(i as int)[0] == headers_view(h@)[i as int]);
            }
            return Some(&h[i].1);
        }
        i += 1;
    }
    proof {
        lemma_header_value_skip(headers_view(h@), key@, n as int);
        assert(headers_view(h@).skip(n as int) =~= Seq::<(Seq<char>, Seq<char>)>::empty());
    }
    None
}

/// A header lookup passes over a prefix without the key.
proof fn lemma_header_value_skip(h: Seq<(Seq<char>, Seq<char>)>, key: Seq<char>, m: int)
    requires
        0 <= m <= h.len(),
        forall|k: int| 0 <= k < m ==> (#[trigger] h[k]).0 != key,
    ensures
        header_value(h, key) == header_value(h.skip(m), key),
    decreases m,
{
    if m > 0 {
        assert(h.drop_first() =~= h.skip(1));
        lemma_header_value_skip(h.skip(1), key, m - 1);
        assert(h.skip(1).skip(m - 1) =~= h.skip(m));
    } else {
        assert(h.skip(0) =~= h);
    }
}

/// Lower-cases header text, mapping only the ASCII range.
fn lower_exec(s: &str) -> (r: String)
    ensures
        r@ == lower_chars(s@),
{
    let cs = chars_of(s);
    let mut out: String = String::new();
    let n: usize = cs.len();
    let mut i: usize = 0;
    while i < n
        invariant
            n == cs@.len(),
            cs@ == s@,
            0 <= i <= n,
            out@ =~= lower_chars(s@.take(i as int)),
        decreases n - i,
    {
        let c: char = cs[i];
        if 'A' <= c && c <= 'Z' {
            push_char(&mut out, ((c as u8) + 32) as char);
        } else {
            push_char(&mut out, c);
        }
        proof {
            assert(out@ =~= lower_chars(s@.take(i as int + 1))) by {
                assert(s@.take(i as int + 1).drop_last() =~= s@.take(i as int));
                assert forall|k: int| 0 <= k < i + 1 implies lower_chars(s@.take(i as int + 1))[k]
                    == out@[k] by {
                    if k < i {
                        assert(lower_chars(s@.take(i as int))[k] == out@[k]);
                    }
                }
            }
        }
        i += 1;
    }
    proof {
        assert(s@.take(n as int) =~= s@);
    }
    out
}

/// The response's lower-cased content type.
fn content_type_exec(h: &Vec<(String, String)>) -> (r: String)
    ensures
        r@ == content_type_of(headers_view(h@)),
{
    match find_header(h, "content-type") {
        Some(v) => lower_exec(v.as_str()),
        None => match find_header(h, "Content-Type") {
            Some(v) => lower_exec(v.as_str()),
            None => {
                let out = String::new();
                proof {
                    assert(out@ =~= Seq::<char>::empty());
                }
                out
            },
        },
    }
}

/// Whether the lower-cased content type is carried as binary.
fn is_binary_exec(ct: &str) -> (r: bool)
    ensures
        r == is_binary_content_type(ct@),
{
    let n: usize = ct.unicode_len();
    let img: bool = if n >= 6 {
        let prefix: &str = ct.substring_char(0, 6);
        proof {
            assert(prefix@ =~= ct@.take(6));
        }
        str_eq(prefix, "image/")
    } else {
        false
    };
    img || str_eq(ct, "application/octet-stream")
}

/// Encodes a handler's response into the envelope, keeping its status and
/// headers and embedding its body by the encoding rules: base64 for
/// binary content types and non-UTF-8 bytes, the document itself for JSON
/// text, a string for other text.
pub fn encode_response(resp: WireResponse) -> (r: Envelope)
    ensures
        r.status == resp.status,
        r.headers@ == resp.headers@,
        r.body@ == encode_body_spec(content_type_of(headers_view(resp.headers@)), resp.body@),
{
    let ct = content_type_exec(&resp.headers);
    let body: EnvelopeBody = if is_binary_exec(ct.as_str()) {
        EnvelopeBody::Base64(base64_encode(resp.body.as_slice()))
    } else {
        match utf8_to_string(resp.body.as_slice()) {
            Some(text) => {
                if json_is_valid(text.as_str()) {
                    EnvelopeBody::Json(text)
                } else {
                    EnvelopeBody::Text(text)
                }
            },
            None => EnvelopeBody::Base64(base64_encode(resp.body.as_slice())),
        }
    };
    Envelope { status: resp.status, headers: resp.headers, body }
}

/// What a handler invocation came to: a response, or a runtime fault.
pub enum HandlerOutcome {
    Completed(WireResponse),
    Panicked,
}

/// The fixed body of the fault envelope.
pub open spec fn panic_body_text() -> Seq<char> {
    "{\"error\":\"Handler panicked\"}"@
}

/// What a wrapper hands back once the handler was invoked: a completed
/// response is encoded by the encoding rules; a runtime fault yields the
/// fixed envelope of status 500 with a JSON error body, never a crash.
pub fn wrapper_envelope(outcome: HandlerOutcome) -> (r: Envelope)
    ensures
        match outcome {
            HandlerOutcome::Completed(resp) => r.status == resp.status && r.headers@
                == resp.headers@ && r.body@ == encode_body_spec(
                content_type_of(headers_view(resp.headers@)),
                resp.body@,
            ),
            HandlerOutcome::Panicked => r.status == 500 && r.body@ == BodyModel::Json(
                panic_body_text(),
            ) && headers_view(r.headers@) == seq![("Content-Type"@, "application/json"@)],
        },
{
    match outcome {
        HandlerOutcome::Completed(resp) => encode_response(resp),
        HandlerOutcome::Panicked => {
            let mut headers: Vec<(String, String)> = Vec::new();
            headers.push(("Content-Type".to_owned(), "application/json".to_owned()));
            proof {
                assert(headers_view(headers@) =~= seq![("Content-Type"@, "application/json"@)]);
            }
            Envelope {
                status: 500,
                headers,
                body: EnvelopeBody::Json("{\"error\":\"Handler panicked\"}".to_owned()),
            }
        },
    }
}

/// The envelope for a request that could not be decoded: the wrapper
/// short-circuits to status 400 before any handler runs.
pub fn bad_request_envelope(error_json: String) -> (r: Envelope)
    ensures
        r.status == 400,
        r.body@ == BodyModel::Json(error_json@),
{
    Envelope { status: 400, headers: Vec::new(), body: EnvelopeBody::Json(error_json) }
}

/// A response with an image content type is enveloped with `bodyBase64`
/// set and `body` absent: the base64 variant is the only body.
pub proof fn lemma_image_body_is_base64(h: Seq<(Seq<char>, Seq<char>)>, body: Seq<u8>)
    requires
        content_type_of(h).len() >= 6,
        content_type_of(h).take(6) == "image/"@,
    ensures
        encode_body_spec(content_type_of(h), body) == BodyModel::Base64(base64_of(body)),
{
}

/// A response whose body is JSON text under a non-binary content type is
/// enveloped with the parsed document embedded directly, not as an
/// escaped string.
pub proof fn lemma_json_body_embedded(h: Seq<(Seq<char>, Seq<char>)>, body: Seq<u8>)
    requires
        !is_binary_content_type(content_type_of(h)),
        valid_utf8(body),
        json_valid(decode_utf8(body)),
    ensures
        encode_body_spec(content_type_of(h), body) == BodyModel::Json(decode_utf8(body)),
{
}

} // verus!
