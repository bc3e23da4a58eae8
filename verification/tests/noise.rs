use papercut::noise::strip_model_flag_noise;

#[test]
fn strips_appended_model_flag_noise() {
    assert_eq!(
        strip_model_flag_noise("issue A, and -m was a problem too"),
        "issue A,"
    );
}

#[test]
fn keeps_legit_model_behavior_gripes() {
    assert_eq!(
        strip_model_flag_noise("the model gave a wrong answer"),
        "the model gave a wrong answer"
    );
}

#[test]
fn strips_whole_gripe_if_only_flag_noise() {
    assert_eq!(strip_model_flag_noise("-m was a problem"), "");
}

#[test]
fn strips_papercuts_model_env_mention() {
    assert_eq!(
        strip_model_flag_noise("docs are stale. PAPERCUTS_MODEL was rejected"),
        "docs are stale."
    );
}

#[test]
fn strips_each_flagged_clause_case_insensitively() {
    assert_eq!(
        strip_model_flag_noise("first; the --MODEL flag failed; Model Argument missing. last"),
        "first; last"
    );
}

#[test]
fn keeps_whitespace_only_tail_out() {
    assert_eq!(strip_model_flag_noise("  keep this.   \n  "), "keep this.");
}

#[test]
fn stripping_twice_changes_nothing() {
    for text in [
        "issue A, and -m was a problem too",
        "  docs are stale. PAPERCUTS_MODEL was rejected  ",
        "first; the --model flag broke, second\n",
        "plain gripe",
    ] {
        let once = strip_model_flag_noise(text);
        assert_eq!(strip_model_flag_noise(&once), once);
        assert_eq!(once.trim(), once);
        assert!(!once.to_lowercase().contains("-m"));
    }
}
