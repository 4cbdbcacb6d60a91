use retrieval::xmltext::extract_text_from_xml;

#[test]
fn tags_are_stripped_and_text_kept() {
    let xml = "<w:p><w:t>Hello world</w:t></w:p>";
    assert_eq!(extract_text_from_xml(xml), "Hello world");
}

#[test]
fn text_across_tags_runs_together() {
    let xml = "<a>first</a><b> second</b>";
    assert_eq!(extract_text_from_xml(xml), "first second");
}

#[test]
fn blank_lines_are_dropped_and_lines_trimmed() {
    let xml = "  one  \n\n<t/>\n   two   \n";
    assert_eq!(extract_text_from_xml(xml), "one\ntwo");
}

#[test]
fn a_document_of_only_tags_yields_nothing() {
    assert_eq!(extract_text_from_xml("<a><b/></a>"), "");
}

#[test]
fn attribute_text_stays_inside_the_tag() {
    let xml = "<t attr=\"hidden\">visible</t>";
    assert_eq!(extract_text_from_xml(xml), "visible");
}
