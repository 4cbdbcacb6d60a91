use retrieval::identity::{download_decision, find_hex_token, generate_filename_from_url,
    hash_url, is_likely_api_endpoint, secret_token_filename, DownloadDecision, FilenameDecision};

#[test]
fn hash_of_the_empty_string_is_the_offset_basis() {
    assert_eq!(hash_url(""), "cbf29ce484222325");
}

#[test]
fn hash_matches_the_known_fnv1a_value() {
    // FNV-1a of the single byte 'a'
    assert_eq!(hash_url("a"), "af63dc4c8601ec8c");
}

#[test]
fn hashing_is_stable_and_separates_inputs() {
    let u = "https://example.com/docs/policy.pdf";
    assert_eq!(hash_url(u), hash_url(u));
    assert_ne!(hash_url(u), hash_url("https://example.com/docs/policy2.pdf"));
}

fn filename_of(url: &str) -> String {
    match generate_filename_from_url(url) {
        FilenameDecision::Filename(name) => name,
        other => panic!("expected a file name, got {:?}", kind_name(&other)),
    }
}

fn kind_name(d: &FilenameDecision) -> &'static str {
    match d {
        FilenameDecision::Invalid => "Invalid",
        FilenameDecision::Unsupported => "Unsupported",
        FilenameDecision::SecretToken => "SecretToken",
        FilenameDecision::Filename(_) => "Filename",
    }
}

#[test]
fn a_recognized_extension_keeps_the_segment() {
    assert_eq!(filename_of("https://example.com/docs/policy.pdf"), "policy.pdf");
    assert_eq!(filename_of("https://example.com/a/b/scan.JPEG"), "scan.JPEG");
}

#[test]
fn the_query_string_is_cut_off() {
    assert_eq!(filename_of("https://example.com/docs/policy.pdf?sig=abc&x=1"), "policy.pdf");
}

#[test]
fn archives_are_refused() {
    assert!(matches!(
        generate_filename_from_url("https://example.com/bundle.zip"),
        FilenameDecision::Unsupported
    ));
    assert!(matches!(
        generate_filename_from_url("https://example.com/blob.BIN"),
        FilenameDecision::Unsupported
    ));
}

#[test]
fn the_token_endpoint_is_special_cased() {
    assert!(matches!(
        generate_filename_from_url("https://example.com/get-secret-token"),
        FilenameDecision::SecretToken
    ));
}

#[test]
fn endpoint_looking_segments_get_a_json_name() {
    assert_eq!(filename_of("https://example.com/fetchData"), "fetchData.json");
}

#[test]
fn other_long_segments_default_to_pdf() {
    assert_eq!(filename_of("https://example.com/policies"), "policies.pdf");
}

#[test]
fn short_or_empty_paths_fall_back_to_the_hash() {
    let url = "https://example.com/ab";
    let expected = format!("document_{}.pdf", hash_url(url));
    assert_eq!(filename_of(url), expected);
}

#[test]
fn unsafe_characters_are_replaced() {
    assert_eq!(filename_of("https://example.com/my%20file.pdf"), "my_20file.pdf");
}

#[test]
fn unparsable_urls_are_invalid() {
    assert!(matches!(
        generate_filename_from_url("not a url at all"),
        FilenameDecision::Invalid
    ));
}

#[test]
fn api_endpoint_heuristic() {
    assert!(is_likely_api_endpoint("getUser"));
    assert!(is_likely_api_endpoint("SECRET"));
    assert!(is_likely_api_endpoint("has-dash"));
    assert!(is_likely_api_endpoint("has_underscore"));
    assert!(!is_likely_api_endpoint("plain"));
    assert!(!is_likely_api_endpoint("files"));
}

#[test]
fn download_gate_by_extension() {
    assert_eq!(download_decision("bundle.zip"), DownloadDecision::Skip);
    assert_eq!(download_decision("raw.BIN"), DownloadDecision::Skip);
    assert_eq!(download_decision("doc.pdf"), DownloadDecision::Fetch);
    assert_eq!(download_decision("slides.pptx"), DownloadDecision::Fetch);
    assert_eq!(download_decision("notes.txt"), DownloadDecision::Unsupported);
    assert_eq!(download_decision("noextension"), DownloadDecision::Unsupported);
}

#[test]
fn a_long_hex_run_is_recognized_as_a_token() {
    let token = "0123456789abcdef0123456789ABCDEF";
    let page = format!("<html><body>token: {token} </body></html>");
    assert_eq!(find_hex_token(&page).as_deref(), Some(token));
}

#[test]
fn short_hex_runs_are_not_tokens() {
    assert!(find_hex_token("deadbeef is only eight digits").is_none());
    assert!(find_hex_token("no token here").is_none());
}

#[test]
fn the_whole_run_is_taken_even_past_32_digits() {
    let token = "a".repeat(40);
    let text = format!("x {token} y");
    assert_eq!(find_hex_token(&text).as_deref(), Some(token.as_str()));
}

#[test]
fn secret_token_files_are_named_from_the_hash() {
    let url = "https://example.com/get-secret-token";
    assert_eq!(
        secret_token_filename(url),
        format!("secret_token_{}.txt", hash_url(url))
    );
}
