use papercut::error::Error;
use papercut::query::{diagnose, is_resolved, match_id, resolution_for, resolved_ids, select_cuts};
use papercut::record::{Cut, Record, Resolved};

fn cut_at(id: &str, ts: &str, text: &str) -> Record {
    Record::Cut(Cut {
        id: id.to_string(),
        ts: ts.to_string(),
        model: Some("m".to_string()),
        user: None,
        harness: None,
        tags: vec![],
        severity: None,
        text: text.to_string(),
    })
}

fn cut(id: &str) -> Record {
    cut_at(id, "2026-01-01T00:00:00.000Z", id)
}

fn resolution(id: &str) -> Record {
    Record::Resolved(Resolved {
        id: id.to_string(),
        ts: "2026-01-02T00:00:00.000Z".to_string(),
        by: None,
        note: None,
    })
}

fn ids(rs: &Vec<Record>, all: bool) -> Vec<String> {
    select_cuts(rs, all).iter().map(|c| c.id.clone()).collect()
}

#[test]
fn full_id_and_unique_prefix_match() {
    let rs = vec![cut("pc_9f2c41d0a8"), cut("pc_1234567890"), resolution("pc_9f2c41d0a8")];
    assert_eq!(match_id(&rs, "pc_9f2c41d0a8").ok(), Some("pc_9f2c41d0a8".to_string()));
    assert_eq!(match_id(&rs, "pc_9f2").ok(), Some("pc_9f2c41d0a8".to_string()));
}

#[test]
fn unknown_id_is_not_found() {
    let rs = vec![cut("pc_a1")];
    assert!(matches!(match_id(&rs, "pc_doesnotexist"), Err(Error::NotFound(q)) if q == "pc_doesnotexist"));
    assert!(matches!(match_id(&Vec::new(), "pc_"), Err(Error::NotFound(_))));
}

#[test]
fn ambiguous_prefix_is_bad_input() {
    let rs = vec![cut("pc_a1"), cut("pc_a2"), resolution("pc_a1"), cut("pc_b")];
    match match_id(&rs, "pc_a") {
        Err(Error::BadInput(m)) => assert_eq!(
            m,
            "id 'pc_a' is ambiguous; matches 2 records. Use a longer prefix or the full id."
        ),
        _ => panic!("expected an ambiguity error"),
    }
}

#[test]
fn resolved_ids_are_distinct() {
    let rs = vec![cut("a"), resolution("a"), resolution("b"), resolution("a")];
    assert_eq!(resolved_ids(&rs), vec!["a".to_string(), "b".to_string()]);
    assert!(is_resolved(&rs, "a"));
    assert!(!is_resolved(&rs, "c"));
}

#[test]
fn listing_hides_resolved_unless_all() {
    let rs = vec![cut("a"), cut("b"), resolution("a")];
    assert_eq!(ids(&rs, false), vec!["b"]);
    assert_eq!(ids(&rs, true), vec!["b", "a"]);
}

#[test]
fn listing_all_puts_open_cuts_first() {
    let rs = vec![
        cut_at("open", "2026-01-01T00:00:00Z", "x"),
        cut_at("fixed", "2026-02-01T00:00:00Z", "y"),
        resolution("fixed"),
        cut_at("fixed_old", "2025-12-01T00:00:00Z", "z"),
        resolution("fixed_old"),
        cut_at("newer_open", "2026-03-01T00:00:00Z", "w"),
    ];
    assert_eq!(ids(&rs, true), vec!["newer_open", "open", "fixed", "fixed_old"]);
    assert_eq!(ids(&rs, false), vec!["newer_open", "open"]);
}

#[test]
fn resolving_appends_once() {
    let rs = vec![cut("pc_a")];
    let first = resolution_for(
        &rs,
        "pc_a".to_string(),
        "2026-01-02T00:00:00Z".to_string(),
        Some("me".to_string()),
        Some("fixed".to_string()),
    );
    match &first {
        Some(Record::Resolved(r)) => {
            assert_eq!(r.id, "pc_a");
            assert_eq!(r.ts, "2026-01-02T00:00:00Z");
            assert_eq!(r.by.as_deref(), Some("me"));
            assert_eq!(r.note.as_deref(), Some("fixed"));
        }
        _ => panic!("expected a resolution"),
    }
    let mut rs = rs;
    rs.push(first.unwrap());
    let second = resolution_for(&rs, "pc_a".to_string(), "2026-01-03T00:00:00Z".to_string(), None, None);
    assert!(second.is_none());
}

#[test]
fn listing_is_newest_first_and_stable() {
    let rs = vec![
        cut_at("old", "2026-01-01T00:00:00Z", "x"),
        cut_at("new", "2026-03-01T00:00:00Z", "x"),
        cut_at("mid1", "2026-02-01T00:00:00Z", "x"),
        cut_at("mid2", "2026-02-01T00:00:00Z", "x"),
    ];
    assert_eq!(ids(&rs, true), vec!["new", "mid1", "mid2", "old"]);
}

#[test]
fn doctor_reports_ok_on_clean_journal() {
    let rs = vec![cut("a")];
    let d = diagnose(&rs, 0, true);
    assert!(d.ok);
    assert_eq!(d.records, 1);
    assert_eq!(d.open, 1);
    assert_eq!(d.torn, 0);
}

#[test]
fn doctor_counts_and_reports_issues() {
    let rs = vec![cut("a"), cut("b"), resolution("a"), cut("a"), cut("a")];
    let d = diagnose(&rs, 3, true);
    assert!(!d.ok);
    assert_eq!(d.records, 5);
    assert_eq!(d.cuts, 4);
    assert_eq!(d.open, 1);
    assert_eq!(d.resolved, 3);
    assert_eq!(
        d.issues,
        vec![
            "3 torn/partial line(s) healed (skipped)".to_string(),
            "duplicate cut id a".to_string(),
            "duplicate cut id a".to_string(),
        ]
    );
}

#[test]
fn doctor_on_missing_journal_is_all_zero() {
    let d = diagnose(&vec![], 0, false);
    assert!(d.ok);
    assert!(!d.file_exists);
    assert_eq!((d.records, d.cuts, d.open, d.resolved, d.torn), (0, 0, 0, 0, 0));
    assert!(d.issues.is_empty());
}
