use retrieval::client::{build_embed_request, EmbedConfig, EmbedError};

fn cfg(limit: usize) -> EmbedConfig {
    EmbedConfig::new("models/gemini-embedding-001".to_string(), limit)
}

fn expected_body(text_escaped: &str) -> String {
    format!(
        "{{\"model\":\"models/gemini-embedding-001\",\"content\":{{\"parts\":[{{\"text\":\"{}\"}}]}}}}",
        text_escaped
    )
}

#[test]
fn builds_the_exact_request_envelope() {
    let body = build_embed_request(&cfg(10000), "hello world").unwrap();
    assert_eq!(body, expected_body("hello world"));
}

#[test]
fn escapes_quotes_backslashes_and_newlines() {
    let body = build_embed_request(&cfg(10000), "a\"b\\c\nd\te\re").unwrap();
    assert_eq!(body, expected_body("a\\\"b\\\\c\\nd\\te\\re"));
}

#[test]
fn escapes_control_characters_as_hex() {
    let body = build_embed_request(&cfg(10000), "x\u{01}y\u{1f}z").unwrap();
    assert_eq!(body, expected_body("x\\u0001y\\u001fz"));
}

#[test]
fn keeps_non_ascii_text_unescaped() {
    let body = build_embed_request(&cfg(10000), "caf\u{e9}").unwrap();
    assert_eq!(body, expected_body("caf\u{e9}"));
}

#[test]
fn oversized_payload_is_rejected_with_its_exact_size() {
    let text = "a".repeat(200);
    let expected = expected_body(&text);
    match build_embed_request(&cfg(100), &text) {
        Err(EmbedError::PayloadTooLarge { size, limit }) => {
            assert_eq!(limit, 100);
            assert_eq!(size, expected.len());
        },
        _ => panic!("expected the payload guard to fire"),
    }
}

#[test]
fn payload_exactly_at_the_ceiling_is_allowed() {
    let text = "abc";
    let exact = expected_body(text).len();
    assert!(build_embed_request(&cfg(exact), text).is_ok());
    assert!(build_embed_request(&cfg(exact - 1), text).is_err());
}

#[test]
fn payload_size_counts_utf8_bytes() {
    let text = "\u{e9}\u{e9}";
    let expected = expected_body(text);
    match build_embed_request(&cfg(1), text) {
        Err(EmbedError::PayloadTooLarge { size, .. }) => {
            assert_eq!(size, expected.len());
            assert!(size > expected.chars().count());
        },
        _ => panic!("expected the payload guard to fire"),
    }
}
