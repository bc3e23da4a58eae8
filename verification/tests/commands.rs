use papercut::commands::{complaint_text, explicit_body, plan_args, require_model, with_tag, ArgPlan};
use papercut::error::Error;
use papercut::record::Cut;

#[test]
fn implicit_add() {
    assert!(matches!(plan_args(1, ""), ArgPlan::ShowHelp));
    assert!(matches!(plan_args(2, "list"), ArgPlan::AsGiven));
    assert!(matches!(plan_args(3, "--help"), ArgPlan::AsGiven));
    assert!(matches!(plan_args(2, "log"), ArgPlan::AsGiven));
    assert!(matches!(plan_args(2, "bare message"), ArgPlan::InsertAdd));
    assert!(matches!(plan_args(4, "-m"), ArgPlan::InsertAdd));
    assert!(matches!(plan_args(2, ""), ArgPlan::InsertAdd));
}

#[test]
fn body_from_argument_or_stdin() {
    assert_eq!(explicit_body(&Some("text".to_string())).as_deref(), Some("text"));
    assert_eq!(explicit_body(&Some("-".to_string())), None);
    assert_eq!(explicit_body(&None), None);
}

#[test]
fn empty_body_is_rejected() {
    match complaint_text("   ") {
        Err(e) => {
            assert_eq!(e.exit(), 65);
            assert_eq!(e.code(), "E_BAD_INPUT");
            assert_eq!(e.message(), "complaint body is empty");
        }
        Ok(_) => panic!("expected bad input"),
    }
}

#[test]
fn body_is_cleaned_unless_only_noise() {
    assert_eq!(complaint_text("  yarn web:test finds no files \n").ok().as_deref(), Some("yarn web:test finds no files"));
    assert_eq!(complaint_text("issue A, and -m was a problem too").ok().as_deref(), Some("issue A,"));
    // A standalone "footgun via -m" is a legitimate papercut and is kept.
    assert_eq!(complaint_text(" footgun via -m ").ok().as_deref(), Some("footgun via -m"));
}

#[test]
fn model_is_required() {
    assert_eq!(require_model(Some("gpt-5".to_string())).ok().as_deref(), Some("gpt-5"));
    match require_model(None) {
        Err(Error::BadInput(m)) => assert!(m.starts_with("could not determine the model.")),
        _ => panic!("expected bad input"),
    }
}

fn tagged(id: &str, tags: &[&str]) -> Cut {
    Cut {
        id: id.to_string(),
        ts: "t".to_string(),
        model: None,
        user: None,
        harness: None,
        tags: tags.iter().map(|t| t.to_string()).collect(),
        severity: None,
        text: "x".to_string(),
    }
}

#[test]
fn tag_filter_keeps_order() {
    let a = tagged("a", &["docs"]);
    let b = tagged("b", &["tooling"]);
    let c = tagged("c", &["tooling", "docs"]);
    let kept: Vec<String> = with_tag(vec![&a, &b, &c], &Some("docs".to_string())).iter().map(|c| c.id.clone()).collect();
    assert_eq!(kept, vec!["a", "c"]);
    assert_eq!(with_tag(vec![&a, &b, &c], &None).len(), 3);
}
