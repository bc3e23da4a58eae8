use papercut::error::Error;
use papercut::listing::{list_format, render_markdown, render_text, wrap, ListFormat};
use papercut::record::Cut;
use papercut::timestamp::{format_ts, timestamp_override};

fn cut(id: &str, user: Option<&str>, text: &str) -> Cut {
    Cut {
        id: id.to_string(),
        ts: "2026-01-01T00:00:00Z".to_string(),
        model: Some("test-model".to_string()),
        user: user.map(|u| u.to_string()),
        harness: None,
        tags: vec![],
        severity: None,
        text: text.to_string(),
    }
}

#[test]
fn wrap_is_greedy() {
    assert_eq!(wrap("aaa bbb ccc", 7), "aaa bbb\nccc");
    assert_eq!(wrap("  aaa   bbb\tccc  ", 80), "aaa bbb ccc");
    assert_eq!(wrap("a verylongword b", 4), "a\nverylongword\nb");
    assert_eq!(wrap("", 80), "");
    assert_eq!(wrap("   ", 80), "");
}

#[test]
fn wrap_counts_bytes() {
    // "ééé" is six bytes and "é" two: "ééé é" is nine bytes.
    assert_eq!(wrap("ééé é", 8), "ééé\né");
    assert_eq!(wrap("ééé é", 9), "ééé é");
}

#[test]
fn timestamps_are_shown_with_milliseconds() {
    assert_eq!(format_ts("2026-01-01T00:00:00Z"), "2026-01-01T00:00:00.000Z");
    assert_eq!(format_ts("2026-07-08T21:13:30.864123Z"), "2026-07-08T21:13:30.864Z");
    assert_eq!(format_ts("not a time"), "not a time");
}

#[test]
fn timestamp_override_is_canonical_or_config_error() {
    assert_eq!(timestamp_override("2026-01-01T00:00:00.000Z").ok(), Some("2026-01-01T00:00:00Z".to_string()));
    match timestamp_override("yesterday") {
        Err(Error::Config(m)) => assert!(m.starts_with("invalid PAPERCUTS_NOW 'yesterday': "), "{m}"),
        _ => panic!("expected a configuration error"),
    }
}

#[test]
fn list_formats() {
    assert!(matches!(list_format(None), Ok(ListFormat::Text)));
    assert!(matches!(list_format(Some("table".to_string())), Ok(ListFormat::Text)));
    assert!(matches!(list_format(Some("md".to_string())), Ok(ListFormat::Markdown)));
    assert!(matches!(list_format(Some("markdown".to_string())), Ok(ListFormat::Markdown)));
    assert!(matches!(list_format(Some("json".to_string())), Ok(ListFormat::Json)));
    match list_format(Some("xml".to_string())) {
        Err(e) => {
            assert_eq!(e.exit(), 2);
            assert_eq!(e.message(), "invalid --format 'xml' (expected text | json | md)");
        }
        Ok(_) => panic!("expected a usage error"),
    }
}

#[test]
fn text_listing() {
    assert_eq!(render_text(&vec![], &vec![]), "No open papercuts.\n");
    let a = cut("pc_a", Some("tester@example.com"), "a doc footgun");
    let b = cut("pc_b", None, "second");
    let one = render_text(&vec![&a], &vec![]);
    assert_eq!(
        one,
        "1 open papercut\n\n2026-01-01T00:00:00.000Z - test-model - tester@example.com\n\na doc footgun\n"
    );
    assert!(!one.trim_start().starts_with('{'));
    assert!(one.contains("a doc footgun"));
    assert!(one.contains("open papercut"));
    assert_eq!(
        render_text(&vec![&a, &b], &vec![]),
        "2 open papercuts\n\n2026-01-01T00:00:00.000Z - test-model - tester@example.com\n\na doc footgun\n\n---\n\n2026-01-01T00:00:00.000Z - test-model\n\nsecond\n"
    );
    assert!(render_text(&vec![&a, &b], &vec!["pc_a".to_string()]).starts_with("1 open papercut\n\n"));
    assert!(render_text(&vec![&a], &vec!["pc_a".to_string()]).starts_with("0 open papercuts\n\n"));
}

#[test]
fn markdown_listing() {
    assert_eq!(render_markdown(&vec![], &vec![]), "# Papercuts\n\n_No open papercuts._\n");
    let a = cut("pc_a", Some("me"), "a doc footgun");
    let b = cut("pc_b", None, "other");
    let md = render_markdown(&vec![&a, &b], &vec!["pc_b".to_string()]);
    assert_eq!(
        md,
        "# Papercuts\n\n## Open (2)\n\n- [ ] `pc_a` — 2026-01-01T00:00:00.000Z — test-model — me\n  a doc footgun\n- [x] `pc_b` — 2026-01-01T00:00:00.000Z — test-model — \n  other\n"
    );
    assert!(md.contains("a doc footgun"));
    assert!(md.contains("## Open"));
}

#[test]
fn markdown_digest_is_severity_first() {
    let mut a = cut("pc_a", None, "minor one");
    a.severity = Some("minor".to_string());
    let b = cut("pc_b", None, "no severity");
    let mut c = cut("pc_c", None, "blocking one");
    c.severity = Some("blocker".to_string());
    let mut d = cut("pc_d", None, "major one");
    d.severity = Some("major".to_string());
    let md = render_markdown(&vec![&a, &b, &c, &d], &vec![]);
    let order: Vec<usize> = ["pc_c", "pc_d", "pc_a", "pc_b"].iter().map(|id| md.find(id).unwrap()).collect();
    assert!(order.windows(2).all(|w| w[0] < w[1]), "{md}");
    assert!(md.contains("## Open (4)"));
}

#[test]
fn wrapped_lines_are_single_spaced() {
    let out = wrap("  one   two\tthree  four five  ", 9);
    assert_eq!(out, "one two\nthree\nfour five");
    for line in out.split('\n') {
        assert!(!line.is_empty());
        assert!(!line.starts_with(' ') && !line.ends_with(' '));
        assert!(!line.contains("  "));
    }
}
