use papercut::commands::new_cut;
use papercut::record::{make_cut_id, Cut, Record, Resolved};

#[test]
fn cut_id_is_prefix_of_sha256_hex() {
    // SHA-256("hello") = 2cf24dba5fb0a30e26e83b2ac5b9e29e...
    assert_eq!(make_cut_id("hello"), "pc_2cf24dba5f");
    // SHA-256("") = e3b0c44298fc1c149afbf4c8996fb924...
    assert_eq!(make_cut_id(""), "pc_e3b0c44298");
}

#[test]
fn cut_id_hashes_utf8_bytes() {
    // SHA-256 of the two UTF-8 bytes of "é" (c3 a9).
    let id = make_cut_id("é");
    assert_eq!(id.len(), 13);
    assert!(id.starts_with("pc_"));
    assert_ne!(id, make_cut_id("e"));
}

#[test]
fn same_text_same_id() {
    assert_eq!(make_cut_id("same complaint"), make_cut_id("same complaint"));
    assert_ne!(make_cut_id("same complaint"), make_cut_id("same complaint!"));
}

#[test]
fn record_id_names_cut_and_resolution() {
    let c = Record::Cut(Cut {
        id: "pc_a".to_string(),
        ts: "t".to_string(),
        model: None,
        user: None,
        harness: None,
        tags: vec![],
        severity: None,
        text: "x".to_string(),
    });
    let r = Record::Resolved(Resolved {
        id: "pc_b".to_string(),
        ts: "t".to_string(),
        by: None,
        note: Some("fixed".to_string()),
    });
    assert_eq!(c.id(), "pc_a");
    assert_eq!(r.id(), "pc_b");
}

#[test]
fn new_cut_uses_content_address() {
    let c = new_cut(
        "hello".to_string(),
        "2026-01-01T00:00:00Z".to_string(),
        "gpt-5".to_string(),
        Some("me".to_string()),
        Some("test-harness".to_string()),
        vec!["tooling".to_string()],
        "major".to_string(),
    );
    assert_eq!(c.id, "pc_2cf24dba5f");
    assert_eq!(c.id.len(), 13);
    assert_eq!(c.severity.as_deref(), Some("major"));
    assert_eq!(c.model.as_deref(), Some("gpt-5"));
    assert_eq!(c.harness.as_deref(), Some("test-harness"));
    assert_eq!(c.tags, vec!["tooling".to_string()]);
    assert_eq!(c.text, "hello");
}
