use papercut::error::Error;
use papercut::output::CONTRACT_VERSION;
use papercut::schema::contract;

#[test]
fn contract_documents_every_error_code() {
    let c = contract();
    assert_eq!(c.contract, CONTRACT_VERSION);
    assert_eq!(c.tool, "papercut");
    let errors = vec![
        Error::Usage(String::new()),
        Error::BadInput(String::new()),
        Error::NotFound(String::new()),
        Error::Internal(String::new()),
        Error::Io(String::new()),
        Error::LockTimeout(String::new()),
        Error::PermDenied(String::new()),
        Error::Config(String::new()),
    ];
    assert_eq!(c.error_codes.len(), errors.len());
    for e in &errors {
        assert!(c.error_codes.contains(&(e.code().to_string(), e.exit())));
        assert!(c.exit_codes.iter().any(|(k, _)| *k == e.exit().to_string()));
    }
    assert!(c.error_codes.contains(&("E_NOT_FOUND".to_string(), 66)));
    let keys: Vec<&str> = c.exit_codes.iter().map(|(k, _)| k.as_str()).collect();
    assert_eq!(keys, vec!["0", "2", "65", "66", "70", "74", "75", "77", "78"]);
}

#[test]
fn contract_lists_commands_and_env() {
    let c = contract();
    let names: Vec<&str> = c.commands.iter().map(|d| d.name.as_str()).collect();
    assert_eq!(names, vec!["add", "list", "resolve", "delete", "schema", "doctor"]);
    let add = &c.commands[0];
    assert_eq!(add.alias.as_deref(), Some("log"));
    assert!(add.write && !add.read);
    assert!(c.commands[3].destructive);
    let env: Vec<&str> = c.env.iter().map(|v| v.name.as_str()).collect();
    assert_eq!(
        env,
        vec!["PAPERCUTS_FILE", "PAPERCUTS_MODEL", "PAPERCUTS_USER", "PAPERCUTS_HARNESS", "PAPERCUTS_NOW"]
    );
    let flags: Vec<(bool, bool, bool)> = c.commands.iter().map(|d| (d.read, d.write, d.destructive)).collect();
    assert_eq!(
        flags,
        vec![
            (false, true, false),
            (true, false, false),
            (false, true, false),
            (false, true, true),
            (true, false, false),
            (true, false, false),
        ]
    );
    assert_eq!(c.record[0].name, "kind_cut");
    assert!(c.record[0].fields.iter().any(|(k, _)| k == "severity"));
    assert!(c.env.iter().all(|v| v.read && !v.write));
}
