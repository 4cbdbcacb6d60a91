use retrieval::assemble::assemble;

#[test]
fn empty_selection_yields_the_sentinel() {
    let out = assemble(&Vec::new());
    assert_eq!(out, "No highly relevant context found for these questions.\n\n");
}

#[test]
fn the_sentinel_is_never_the_empty_string() {
    let out = assemble(&Vec::new());
    assert!(!out.is_empty());
}

#[test]
fn a_single_chunk_gets_the_trailing_blank_line() {
    let out = assemble(&vec!["only chunk".to_string()]);
    assert_eq!(out, "only chunk\n\n");
}

#[test]
fn chunks_are_joined_by_the_separator() {
    let out = assemble(&vec!["first".to_string(), "second".to_string(), "third".to_string()]);
    assert_eq!(out, "first\n\n---\n\nsecond\n\n---\n\nthird\n\n");
}

#[test]
fn the_context_can_be_resplit_on_the_separator() {
    let chunks = vec!["alpha".to_string(), "beta".to_string()];
    let out = assemble(&chunks);
    let trimmed = out.strip_suffix("\n\n").unwrap();
    let parts: Vec<&str> = trimmed.split("\n\n---\n\n").collect();
    assert_eq!(parts, vec!["alpha", "beta"]);
}
