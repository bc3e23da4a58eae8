use papercut::error::{bad_input, config, internal, not_found, usage, Error, ErrorEnvelope};

fn all() -> Vec<Error> {
    vec![
        Error::Usage("u".to_string()),
        Error::BadInput("b".to_string()),
        Error::NotFound("pc_x".to_string()),
        Error::Internal("i".to_string()),
        Error::Io("disk full".to_string()),
        Error::LockTimeout("/tmp/log.jsonl".to_string()),
        Error::PermDenied("p".to_string()),
        Error::Config("c".to_string()),
    ]
}

#[test]
fn codes_and_exit_statuses_are_the_documented_ones() {
    let codes: Vec<&str> = all().iter().map(|e| e.code()).collect();
    assert_eq!(
        codes,
        vec![
            "E_USAGE",
            "E_BAD_INPUT",
            "E_NOT_FOUND",
            "E_INTERNAL",
            "E_IO",
            "E_LOCK_TIMEOUT",
            "E_PERM_DENIED",
            "E_CONFIG"
        ]
    );
    let exits: Vec<i32> = all().iter().map(|e| e.exit()).collect();
    assert_eq!(exits, vec![2, 65, 66, 70, 74, 75, 77, 78]);
}

#[test]
fn messages() {
    assert_eq!(Error::NotFound("pc_x".to_string()).message(), "record pc_x not found");
    assert_eq!(
        Error::LockTimeout("/tmp/log.jsonl".to_string()).message(),
        "timed out acquiring lock on /tmp/log.jsonl (another writer holds it)"
    );
    assert_eq!(Error::Io("disk full".to_string()).message(), "disk full");
    assert_eq!(Error::Config("c".to_string()).message(), "c");
}

#[test]
fn suggested_fixes() {
    assert_eq!(
        Error::NotFound("pc_x".to_string()).suggested_fix(),
        "No record matched 'pc_x'. Use `papercuts list` to see current open IDs, then retry with a full or unique-prefix ID."
    );
    assert_eq!(
        Error::LockTimeout("/j".to_string()).suggested_fix(),
        "Another process is writing to /j. Retry the command in a moment (this error is retryable)."
    );
    assert_eq!(
        Error::Usage("u".to_string()).suggested_fix(),
        "Check `papercuts --help` for the correct arguments and flags."
    );
    assert_eq!(
        Error::PermDenied("p".to_string()).suggested_fix(),
        "Permission was denied. Check file and directory permissions."
    );
}

#[test]
fn constructors_pick_the_variant() {
    assert!(matches!(usage("a".to_string()), Error::Usage(m) if m == "a"));
    assert!(matches!(bad_input("a".to_string()), Error::BadInput(m) if m == "a"));
    assert!(matches!(internal("a".to_string()), Error::Internal(m) if m == "a"));
    assert!(matches!(not_found("a".to_string()), Error::NotFound(m) if m == "a"));
    assert!(matches!(config("a".to_string()), Error::Config(m) if m == "a"));
}

#[test]
fn envelope_reports_the_error() {
    let e = ErrorEnvelope::of(&Error::NotFound("pc_x".to_string()));
    assert!(!e.ok);
    assert_eq!(e.error.code, "E_NOT_FOUND");
    assert_eq!(e.error.exit, 66);
    assert_eq!(e.error.message, "record pc_x not found");
}
