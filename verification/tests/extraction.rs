use claude_chat::artifacts::ArtifactManager;

#[test]
fn single_block_verbatim_body() {
    let m = ArtifactManager::new();
    let text = "intro text\n<artifact identifier=\"a1\" title=\"My Doc\" type=\"text/html\">\nline one\nline two\n</artifact>\ntrailer";
    let arts = m.extract_artifacts(text);
    assert_eq!(arts.len(), 1);
    assert_eq!(arts[0].id, "a1");
    assert_eq!(arts[0].title, "My Doc");
    assert_eq!(arts[0].content_type, "text/html");
    assert_eq!(arts[0].content, "line one\nline two");
}

#[test]
fn missing_attributes_take_defaults() {
    let m = ArtifactManager::new();
    let text = "<artifact>\nbody\n</artifact>";
    let arts = m.extract_artifacts(text);
    assert_eq!(arts.len(), 1);
    // A generated identifier is a fresh 36-character token, not source text.
    assert_eq!(arts[0].id.chars().count(), 36);
    assert_eq!(arts[0].title, "Untitled");
    assert_eq!(arts[0].content_type, "text/plain");
    assert_eq!(arts[0].content, "body");
}

#[test]
fn generated_identifiers_are_distinct() {
    let m = ArtifactManager::new();
    let text = "<artifact>\nx\n</artifact>\n<artifact>\ny\n</artifact>";
    let arts = m.extract_artifacts(text);
    assert_eq!(arts.len(), 2);
    assert_ne!(arts[0].id, arts[1].id);
}

#[test]
fn unterminated_block_yields_nothing() {
    let m = ArtifactManager::new();
    let text = "before\n<artifact identifier=\"x\">\nsome body\nmore body";
    let arts = m.extract_artifacts(text);
    assert_eq!(arts.len(), 0);
}

#[test]
fn two_blocks_in_source_order() {
    let m = ArtifactManager::new();
    let text = "a\n<artifact identifier=\"first\">\none\n</artifact>\nbetween\n<artifact identifier=\"second\">\ntwo\nthree\n</artifact>\nend";
    let arts = m.extract_artifacts(text);
    assert_eq!(arts.len(), 2);
    assert_eq!(arts[0].id, "first");
    assert_eq!(arts[0].content, "one");
    assert_eq!(arts[1].id, "second");
    assert_eq!(arts[1].content, "two\nthree");
}

#[test]
fn second_open_abandons_block_in_progress() {
    let m = ArtifactManager::new();
    let text = "<artifact identifier=\"lost\">\nabandoned\n<artifact identifier=\"kept\">\nreal body\n</artifact>";
    let arts = m.extract_artifacts(text);
    assert_eq!(arts.len(), 1);
    assert_eq!(arts[0].id, "kept");
    assert_eq!(arts[0].content, "real body");
}

#[test]
fn close_without_open_is_ignored() {
    let m = ArtifactManager::new();
    let text = "hello\n</artifact>\nworld";
    let arts = m.extract_artifacts(text);
    assert_eq!(arts.len(), 0);
}

#[test]
fn empty_body_block() {
    let m = ArtifactManager::new();
    let text = "<artifact identifier=\"e\">\n</artifact>";
    let arts = m.extract_artifacts(text);
    assert_eq!(arts.len(), 1);
    assert_eq!(arts[0].content, "");
}

#[test]
fn attribute_takes_first_occurrence() {
    let m = ArtifactManager::new();
    let text = "<artifact title=\"one\" title=\"two\">\nb\n</artifact>";
    let arts = m.extract_artifacts(text);
    assert_eq!(arts.len(), 1);
    assert_eq!(arts[0].title, "one");
}

#[test]
fn crlf_line_endings_are_stripped() {
    let m = ArtifactManager::new();
    let text = "<artifact identifier=\"w\">\r\nalpha\r\nbeta\r\n</artifact>\r\n";
    let arts = m.extract_artifacts(text);
    assert_eq!(arts.len(), 1);
    assert_eq!(arts[0].content, "alpha\nbeta");
}
