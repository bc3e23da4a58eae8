use papercut::context::{command_value, detect_model, detect_user, env_var, resolve, resolve_harness, Ambient};

fn ambient(vars: &[(&str, &str)]) -> Ambient {
    Ambient {
        vars: vars.iter().map(|(k, v)| (k.to_string(), v.to_string())).collect(),
        git_email: None,
        git_name: None,
    }
}

#[test]
fn flag_beats_env_beats_detection() {
    let a = ambient(&[("PAPERCUTS_USER", "env@example.com")]);
    let ctx = resolve(None, Some("flag@example.com"), &a);
    assert_eq!(ctx.user.as_deref(), Some("flag@example.com"));
    let ctx = resolve(None, None, &a);
    assert_eq!(ctx.user.as_deref(), Some("env@example.com"));
}

#[test]
fn model_precedence() {
    let a = ambient(&[("MODEL", "plain"), ("OPENAI_MODEL", "gpt"), ("PAPERCUTS_MODEL", "over")]);
    assert_eq!(resolve(Some("flag"), None, &a).model.as_deref(), Some("flag"));
    assert_eq!(resolve(None, None, &a).model.as_deref(), Some("over"));
    let a = ambient(&[("MODEL", "plain"), ("OPENAI_MODEL", "gpt"), ("PAPERCUTS_MODEL", "  ")]);
    assert_eq!(resolve(None, None, &a).model.as_deref(), Some("gpt"));
    assert_eq!(detect_model(&ambient(&[("MODEL", "plain")])).as_deref(), Some("plain"));
    assert_eq!(detect_model(&ambient(&[])), None);
}

#[test]
fn blank_variables_are_unset() {
    let a = ambient(&[("X", " \t "), ("Y", " y ")]);
    assert_eq!(env_var(&a, "X"), None);
    assert_eq!(env_var(&a, "Y").as_deref(), Some(" y "));
    assert_eq!(env_var(&a, "Z"), None);
}

#[test]
fn user_detection_order() {
    let mut a = ambient(&[("USER", "u"), ("LOGNAME", "l")]);
    assert_eq!(detect_user(&a).as_deref(), Some("u"));
    a.git_name = Some("name".to_string());
    assert_eq!(detect_user(&a).as_deref(), Some("name"));
    a.git_email = Some("mail@example.com".to_string());
    assert_eq!(detect_user(&a).as_deref(), Some("mail@example.com"));
    assert_eq!(detect_user(&ambient(&[("LOGNAME", "l")])).as_deref(), Some("l"));
    assert_eq!(detect_user(&ambient(&[])).as_deref(), Some("unknown"));
}

#[test]
fn harness_comes_from_flag_or_env() {
    let a = ambient(&[("PAPERCUTS_HARNESS", "test-harness")]);
    assert_eq!(resolve_harness(None, &a).as_deref(), Some("test-harness"));
    assert_eq!(resolve_harness(Some("cli"), &a).as_deref(), Some("cli"));
    assert_eq!(resolve_harness(None, &ambient(&[])), None);
}

#[test]
fn command_output_is_trimmed_text() {
    assert_eq!(command_value(true, b"/repo/root\n".to_vec()).as_deref(), Some("/repo/root"));
    assert_eq!(command_value(false, b"/repo/root\n".to_vec()), None);
    assert_eq!(command_value(true, b" \n".to_vec()), None);
    assert_eq!(command_value(true, vec![0xff, 0xfe]), None);
    assert_eq!(command_value(true, "ü@x\n".as_bytes().to_vec()).as_deref(), Some("ü@x"));
}
