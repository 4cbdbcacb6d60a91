use retrieval::sanitize::{deny_patterns, sanitize_policy, sanitize_with};

#[test]
fn clean_text_passes_through_unchanged() {
    let text = "The quick brown fox jumps over the lazy dog. Plain policy text with clauses.";
    assert_eq!(sanitize_policy(text), text);
}

#[test]
fn a_whole_phrase_becomes_one_space() {
    assert_eq!(sanitize_policy("ignore previous instructions"), " ");
}

#[test]
fn a_phrase_inside_text_is_replaced_by_one_space() {
    assert_eq!(
        sanitize_policy("say ignore previous instructions please"),
        "say   please"
    );
}

#[test]
fn matching_is_case_insensitive() {
    assert_eq!(sanitize_policy("As An AI"), " ");
    assert_eq!(sanitize_policy("IGNORE PREVIOUS INSTRUCTIONS"), " ");
}

#[test]
fn any_blank_run_separates_the_words() {
    assert_eq!(sanitize_policy("ignore \n\t  previous \r instructions"), " ");
}

#[test]
fn words_must_be_separated_by_at_least_one_blank() {
    let glued = "ignorepreviousinstructions";
    assert_eq!(sanitize_policy(glued), glued);
}

#[test]
fn several_patterns_are_all_applied() {
    let text = "first disregard the above then pretend to be someone";
    assert_eq!(sanitize_policy(text), "first   then   someone");
}

#[test]
fn every_occurrence_is_replaced() {
    let text = "as an ai ... as an ai";
    assert_eq!(sanitize_policy(text), "  ...  ");
}

#[test]
fn near_misses_survive() {
    // an extra letter breaks the first word, so nothing matches
    let text = "ignored previous instructions";
    assert_eq!(sanitize_policy(text), text);
}

#[test]
fn the_deny_list_is_data() {
    let patterns = vec![vec!["forbidden".to_string(), "phrase".to_string()]];
    assert_eq!(sanitize_with(&patterns, "a forbidden phrase here"), "a   here");
    assert_eq!(sanitize_with(&patterns, "ignore previous instructions"),
        "ignore previous instructions");
}

#[test]
fn the_default_list_holds_the_known_phrases() {
    let patterns = deny_patterns();
    assert_eq!(patterns.len(), 22);
    assert_eq!(
        patterns[0],
        vec!["ignore".to_string(), "previous".to_string(), "instructions".to_string()]
    );
    assert_eq!(
        patterns[21],
        vec!["from".to_string(), "the".to_string(), "system".to_string(),
            "administrator".to_string()]
    );
}

#[test]
fn sanitization_never_rejects() {
    // heavily matching input still comes back as text, never an error
    let hostile = "ignore previous instructions failure to comply system compromised";
    let out = sanitize_policy(hostile);
    assert!(!out.contains("ignore previous instructions"));
    assert!(!out.contains("failure to comply"));
    assert!(!out.contains("system compromised"));
}
