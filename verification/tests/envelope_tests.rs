use webarcade::envelope::{
    base64_encode, bad_request_envelope, encode_response, wrapper_envelope, EnvelopeBody,
    HandlerOutcome, WireResponse,
};

fn resp(status: u16, headers: Vec<(&str, &str)>, body: &[u8]) -> WireResponse {
    WireResponse {
        status,
        headers: headers.iter().map(|(k, v)| (k.to_string(), v.to_string())).collect(),
        body: body.to_vec(),
    }
}

#[test]
fn base64_known_values() {
    assert_eq!(base64_encode(b""), "");
    assert_eq!(base64_encode(b"a"), "YQ==");
    assert_eq!(base64_encode(b"ab"), "YWI=");
    assert_eq!(base64_encode(b"abc"), "YWJj");
    assert_eq!(base64_encode(b"hello"), "aGVsbG8=");
    assert_eq!(base64_encode(&[0xff, 0x00, 0x10]), "/wAQ");
}

#[test]
fn image_body_goes_base64() {
    let e = encode_response(resp(200, vec![("content-type", "image/png")], b"hello"));
    assert_eq!(e.status, 200);
    match e.body {
        EnvelopeBody::Base64(s) => assert_eq!(s, "aGVsbG8="),
        _ => panic!("expected a base64 body"),
    }
}

#[test]
fn octet_stream_goes_base64() {
    let e = encode_response(resp(200, vec![("content-type", "application/octet-stream")], b"a"));
    assert!(matches!(e.body, EnvelopeBody::Base64(_)));
}

#[test]
fn content_type_is_case_insensitive_and_both_spellings_count() {
    let a = encode_response(resp(200, vec![("content-type", "IMAGE/PNG")], b"x"));
    assert!(matches!(a.body, EnvelopeBody::Base64(_)));
    let b = encode_response(resp(200, vec![("Content-Type", "image/gif")], b"x"));
    assert!(matches!(b.body, EnvelopeBody::Base64(_)));
}

#[test]
fn json_body_is_embedded_as_document() {
    let e = encode_response(resp(200, vec![("content-type", "application/json")], b"{\"a\":1}"));
    match e.body {
        EnvelopeBody::Json(s) => assert_eq!(s, "{\"a\":1}"),
        _ => panic!("expected the parsed document, not an escaped string"),
    }
}

#[test]
fn plain_text_is_embedded_as_string() {
    let e = encode_response(resp(200, vec![("content-type", "text/plain")], b"not json {"));
    match e.body {
        EnvelopeBody::Text(s) => assert_eq!(s, "not json {"),
        _ => panic!("expected a string body"),
    }
}

#[test]
fn invalid_utf8_falls_back_to_base64() {
    let e = encode_response(resp(200, vec![("content-type", "text/plain")], &[0xff, 0xfe]));
    assert!(matches!(e.body, EnvelopeBody::Base64(_)));
}

#[test]
fn missing_content_type_still_encodes() {
    let e = encode_response(resp(204, vec![], b"[1,2]"));
    match e.body {
        EnvelopeBody::Json(s) => assert_eq!(s, "[1,2]"),
        _ => panic!("expected a document body"),
    }
}

#[test]
fn panic_becomes_fixed_500_envelope() {
    let e = wrapper_envelope(HandlerOutcome::Panicked);
    assert_eq!(e.status, 500);
    assert_eq!(e.headers.len(), 1);
    assert_eq!(e.headers[0].0, "Content-Type");
    assert_eq!(e.headers[0].1, "application/json");
    match e.body {
        EnvelopeBody::Json(s) => {
            assert!(s.contains("\"error\""));
            assert_eq!(s, "{\"error\":\"Handler panicked\"}");
        },
        _ => panic!("expected a JSON error body"),
    }
}

#[test]
fn completed_outcome_is_encoded() {
    let e = wrapper_envelope(HandlerOutcome::Completed(resp(
        201,
        vec![("content-type", "application/json")],
        b"true",
    )));
    assert_eq!(e.status, 201);
    assert!(matches!(e.body, EnvelopeBody::Json(_)));
}

#[test]
fn undecodable_request_short_circuits_to_400() {
    let e = bad_request_envelope("{\"error\":\"bad request\"}".to_string());
    assert_eq!(e.status, 400);
    assert!(matches!(e.body, EnvelopeBody::Json(_)));
}
