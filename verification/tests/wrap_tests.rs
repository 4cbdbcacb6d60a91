use retrieval::wrap::wrap_text;

#[test]
fn text_within_the_width_stays_one_line() {
    assert_eq!(wrap_text("short", 10), vec!["short".to_string()]);
    assert_eq!(wrap_text("", 4), vec!["".to_string()]);
}

#[test]
fn words_pack_greedily_up_to_the_width() {
    assert_eq!(
        wrap_text("alpha beta gamma delta", 10),
        vec!["alpha beta".to_string(), "gamma".to_string(), "delta".to_string()]
    );
}

#[test]
fn an_overlong_word_stands_alone() {
    assert_eq!(
        wrap_text("extraordinarily big", 5),
        vec!["extraordinarily".to_string(), "big".to_string()]
    );
}

#[test]
fn blank_runs_between_words_collapse() {
    assert_eq!(wrap_text("a   b", 1), vec!["a".to_string(), "b".to_string()]);
}

#[test]
fn wrapping_is_deterministic() {
    let a = wrap_text("one two three four five six", 9);
    let b = wrap_text("one two three four five six", 9);
    assert_eq!(a, b);
}
