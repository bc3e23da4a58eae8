use papercut::error::Error;
use papercut::journal::{
    collect_records, journal_place, line_content, lock_err, lock_step, plan_removal, should_append,
    split_lines, JournalLine, JournalPlace, LockStep, LOCK_RETRY_MS, LOCK_TIMEOUT_MS,
};
use papercut::record::{Cut, Record, Resolved};

fn cut(id: &str, text: &str) -> Record {
    Record::Cut(Cut {
        id: id.to_string(),
        ts: "2026-01-01T00:00:00.000Z".to_string(),
        model: None,
        user: None,
        harness: None,
        tags: vec![],
        severity: None,
        text: text.to_string(),
    })
}

fn resolution(id: &str) -> Record {
    Record::Resolved(Resolved {
        id: id.to_string(),
        ts: "2026-01-01T00:00:00.000Z".to_string(),
        by: None,
        note: None,
    })
}

/// Appends as the store does: only when the library admits it.
fn append(journal: &mut Vec<Option<Record>>, record: Record) -> bool {
    let existing = collect_records(journal.iter().map(|r| r.as_ref().map(copy)).collect()).records;
    if should_append(&existing, &record) {
        journal.push(Some(record));
        true
    } else {
        false
    }
}

fn copy(r: &Record) -> Record {
    match r {
        Record::Cut(c) => Record::Cut(Cut {
            id: c.id.clone(),
            ts: c.ts.clone(),
            model: c.model.clone(),
            user: c.user.clone(),
            harness: c.harness.clone(),
            tags: c.tags.clone(),
            severity: c.severity.clone(),
            text: c.text.clone(),
        }),
        Record::Resolved(x) => Record::Resolved(Resolved {
            id: x.id.clone(),
            ts: x.ts.clone(),
            by: x.by.clone(),
            note: x.note.clone(),
        }),
    }
}

#[test]
fn append_and_read_roundtrip() {
    let mut journal: Vec<Option<Record>> = Vec::new();
    assert!(append(&mut journal, cut("pc_a", "hello")));
    assert!(!append(&mut journal, cut("pc_a", "hello")), "duplicate suppressed");
    assert!(append(&mut journal, cut("pc_b", "world")));
    let res = collect_records(journal);
    assert_eq!(res.records.len(), 2);
    assert_eq!(res.torn, 0);
    assert_eq!(res.records[0].id(), "pc_a");
    assert_eq!(res.records[1].id(), "pc_b");
}

#[test]
fn missing_file_reads_empty() {
    let res = collect_records(Vec::new());
    assert!(res.records.is_empty());
    assert_eq!(res.torn, 0);
}

#[test]
fn resolutions_always_append() {
    let mut journal: Vec<Option<Record>> = Vec::new();
    assert!(append(&mut journal, cut("pc_a", "one")));
    assert!(append(&mut journal, resolution("pc_a")));
    assert!(append(&mut journal, resolution("pc_a")));
    assert_eq!(journal.len(), 3);
}

#[test]
fn torn_lines_are_counted_and_skipped() {
    let res = collect_records(vec![Some(cut("pc_a", "one")), None, Some(resolution("pc_a")), None]);
    assert_eq!(res.records.len(), 2);
    assert_eq!(res.records[1].id(), "pc_a");
    assert_eq!(res.torn, 2);
}

fn line(text: &str, id: Option<&str>) -> JournalLine {
    JournalLine { text: text.to_string(), id: id.map(|s| s.to_string()) }
}

#[test]
fn remove_drops_matching_records_only() {
    let lines = vec![
        line("{cut a}", Some("pc_a")),
        line("{cut b}", Some("pc_b")),
        line("{resolved a}", Some("pc_a")),
    ];
    // Removing pc_a also removes its resolution event, not pc_b.
    let plan = plan_removal(&lines, "pc_a");
    assert_eq!(plan.removed, 2);
    assert_eq!(plan.kept, "{cut b}\n");

    // Missing id is a no-op.
    let plan = plan_removal(&lines, "pc_missing");
    assert_eq!(plan.removed, 0);
    assert_eq!(plan.kept, "{cut a}\n{cut b}\n{resolved a}\n");
}

#[test]
fn removal_keeps_torn_and_blank_lines() {
    let lines = vec![line("{torn", None), line("", None), line("{cut a}", Some("pc_a"))];
    let plan = plan_removal(&lines, "pc_a");
    assert_eq!(plan.removed, 1);
    assert_eq!(plan.kept, "{torn\n\n");
}

#[test]
fn lines_split_like_str_lines() {
    assert_eq!(split_lines("a\r\nb\nc"), vec!["a", "b", "c"]);
    assert_eq!(split_lines("a\n"), vec!["a"]);
    assert_eq!(split_lines("a\r"), vec!["a\r"]);
    assert_eq!(split_lines("\n\n"), vec!["", ""]);
    assert!(split_lines("").is_empty());
    for s in ["x\ny\r\n\r\nz\r", "\r\n", "only"] {
        let expected: Vec<&str> = s.lines().collect();
        assert_eq!(split_lines(s), expected);
    }
}

#[test]
fn line_content_trims_and_skips_blank() {
    assert_eq!(line_content("  {\"a\":1}\t").as_deref(), Some("{\"a\":1}"));
    assert_eq!(line_content(" \u{3000} "), None);
    assert_eq!(line_content(""), None);
}

#[test]
fn journal_place_precedence() {
    let s = |v: &str| Some(v.to_string());
    assert!(matches!(
        journal_place(s("/j.jsonl"), s("/repo"), s("/home"), None),
        Ok(JournalPlace::Explicit(p)) if p == "/j.jsonl"
    ));
    assert!(matches!(
        journal_place(s(""), s("/repo"), s("/home"), None),
        Ok(JournalPlace::InRepo(p)) if p == "/repo"
    ));
    assert!(matches!(
        journal_place(None, None, s("/home"), s("/profile")),
        Ok(JournalPlace::Home(p)) if p == "/home"
    ));
    assert!(matches!(
        journal_place(None, None, None, s("/profile")),
        Ok(JournalPlace::Home(p)) if p == "/profile"
    ));
    assert!(matches!(
        journal_place(None, None, None, None),
        Err(Error::Config(m)) if m == "cannot determine home directory"
    ));
}

#[test]
fn lock_error_names_the_path() {
    let e = lock_err("/tmp/log.jsonl");
    assert_eq!(e.exit(), 75);
    assert_eq!(e.code(), "E_LOCK_TIMEOUT");
    assert!(matches!(e, Error::LockTimeout(p) if p == "/tmp/log.jsonl"));
}

#[test]
fn lock_is_retried_for_two_seconds() {
    assert_eq!(LOCK_RETRY_MS, 50);
    assert_eq!(LOCK_TIMEOUT_MS, 2000);
    assert!(matches!(lock_step(true, 0), LockStep::Acquired));
    assert!(matches!(lock_step(true, 5000), LockStep::Acquired));
    assert!(matches!(lock_step(false, 0), LockStep::Retry));
    assert!(matches!(lock_step(false, 2000), LockStep::Retry));
    assert!(matches!(lock_step(false, 2001), LockStep::GiveUp));
}
