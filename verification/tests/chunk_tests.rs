use retrieval::chunk::{chunk_document, chunk_text};

#[test]
fn splits_into_exact_windows() {
    let chunks = chunk_text("abcdefgh", 3);
    assert_eq!(chunks, vec!["abc".to_string(), "def".to_string(), "gh".to_string()]);
}

#[test]
fn short_text_yields_one_chunk() {
    let chunks = chunk_text("hello", 100);
    assert_eq!(chunks, vec!["hello".to_string()]);
}

#[test]
fn empty_text_yields_no_chunks() {
    let chunks = chunk_text("", 5);
    assert!(chunks.is_empty());
}

#[test]
fn blank_windows_are_dropped() {
    let chunks = chunk_text("ab    cd", 2);
    assert_eq!(chunks, vec!["ab".to_string(), "cd".to_string()]);
}

#[test]
fn whitespace_only_text_yields_no_chunks() {
    let chunks = chunk_text(" \t\n  ", 2);
    assert!(chunks.is_empty());
}

#[test]
fn reconstruction_joins_back_to_the_text() {
    let text = "abcdef";
    let chunks = chunk_text(text, 4);
    let joined: String = chunks.concat();
    assert_eq!(joined, text);
}

#[test]
fn reconstruction_keeps_non_blank_content() {
    let text = "ab    cd";
    let chunks = chunk_text(text, 2);
    let joined: String = chunks.concat();
    let visible = |s: &str| s.chars().filter(|c| !c.is_whitespace()).collect::<String>();
    assert_eq!(visible(&joined), visible(text));
}

#[test]
fn chunking_is_deterministic() {
    let a = chunk_text("some document text to cut apart", 7);
    let b = chunk_text("some document text to cut apart", 7);
    assert_eq!(a, b);
}

#[test]
fn document_chunks_are_indexed_in_order() {
    let chunks = chunk_document("abcdefgh", 3);
    assert_eq!(chunks.len(), 3);
    for (i, c) in chunks.iter().enumerate() {
        assert_eq!(c.index, i);
    }
    assert_eq!(chunks[0].text, "abc");
    assert_eq!(chunks[2].text, "gh");
}
