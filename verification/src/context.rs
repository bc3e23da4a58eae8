//! Who filed a papercut: the model and the user of a new record.
//!
//! Precedence is always: explicit flag, then the `PAPERCUTS_*` environment
//! override, then detection. Detection is best-effort: a missing field is
//! `None`, never an error. The environment and the git configuration are
//! read by the program around the library and handed over as `Ambient`.

use vstd::prelude::*;
use crate::text::{trim, trim_str};

verus! {

broadcast use vstd::string::group_string_axioms;

/// The model and user of a new record.
pub struct Context {
    pub model: Option<String>,
    pub user: Option<String>,
}

/// What detection reads: the environment's variables, and the values that
/// `git config --get user.email` and `git config --get user.name` printed
/// (already trimmed, `None` when git failed or printed nothing).
pub struct Ambient {
    pub vars: Vec<(String, String)>,
    pub git_email: Option<String>,
    pub git_name: Option<String>,
}

/// The view of an optional string.
pub open spec fn opt_view(o: Option<String>) -> Option<Seq<char>> {
    match o {
        Some(s) => Some(s@),
        None => None,
    }
}

/// The value of the first variable with the given name.
pub open spec fn lookup(vars: Seq<(String, String)>, name: Seq<char>) -> Option<Seq<char>>
    decreases vars.len(),
{
    if vars.len() == 0 {
        None
    } else if vars[0].0@ == name {
        Some(vars[0].1@)
    } else {
        lookup(vars.drop_first(), name)
    }
}

/// A variable's value, unless it is unset or only whitespace.
pub open spec fn env_value(vars: Seq<(String, String)>, name: Seq<char>) -> Option<Seq<char>> {
    match lookup(vars, name) {
        Some(v) => if trim(v).len() > 0 {
            Some(v)
        } else {
            None
        },
        None => None,
    }
}

/// The value of the first of `names` that `env_value` finds.
pub open spec fn first_env(vars: Seq<(String, String)>, names: Seq<Seq<char>>) -> Option<Seq<char>>
    decreases names.len(),
{
    if names.len() == 0 {
        None
    } else {
        match env_value(vars, names[0]) {
            Some(v) => Some(v),
            None => first_env(vars, names.drop_first()),
        }
    }
}

/// The variables that agent harnesses set to the model's name, in the order
/// they are consulted.
pub open spec fn model_keys() -> Seq<Seq<char>> {
    seq![
        "ANTHROPIC_MODEL"@,
        "ANTHROPIC_SMALL_FAST_MODEL"@,
        "OPENAI_MODEL"@,
        "OPENROUTER_MODEL"@,
        "GEMINI_MODEL"@,
        "CODEX_MODEL"@,
        "MODEL"@,
    ]
}

/// The detected model.
pub open spec fn detected_model(a: Ambient) -> Option<Seq<char>> {
    first_env(a.vars@, model_keys())
}

/// Model detection consults, in order, `ANTHROPIC_MODEL`,
/// `ANTHROPIC_SMALL_FAST_MODEL`, `OPENAI_MODEL`, `OPENROUTER_MODEL`,
/// `GEMINI_MODEL`, `CODEX_MODEL` and `MODEL`, and takes the first that is
/// set and not blank.
pub proof fn law_model_detection_order(a: Ambient)
    ensures
        detected_model(a) == match env_value(a.vars@, "ANTHROPIC_MODEL"@) {
            Some(v) => Some(v),
            None => match env_value(a.vars@, "ANTHROPIC_SMALL_FAST_MODEL"@) {
                Some(v) => Some(v),
                None => match env_value(a.vars@, "OPENAI_MODEL"@) {
                    Some(v) => Some(v),
                    None => match env_value(a.vars@, "OPENROUTER_MODEL"@) {
                        Some(v) => Some(v),
                        None => match env_value(a.vars@, "GEMINI_MODEL"@) {
                            Some(v) => Some(v),
                            None => match env_value(a.vars@, "CODEX_MODEL"@) {
                                Some(v) => Some(v),
                                None => env_value(a.vars@, "MODEL"@),
                            },
                        },
                    },
                },
            },
        },
{
    let v = a.vars@;
    let n0 = model_keys();
    let n1 = n0.drop_first();
    let n2 = n1.drop_first();
    let n3 = n2.drop_first();
    let n4 = n3.drop_first();
    let n5 = n4.drop_first();
    let n6 = n5.drop_first();
    let n7 = n6.drop_first();
    assert(n0[0] == "ANTHROPIC_MODEL"@);
    assert(n1[0] == "ANTHROPIC_SMALL_FAST_MODEL"@);
    assert(n2[0] == "OPENAI_MODEL"@);
    assert(n3[0] == "OPENROUTER_MODEL"@);
    assert(n4[0] == "GEMINI_MODEL"@);
    assert(n5[0] == "CODEX_MODEL"@);
    assert(n6[0] == "MODEL"@);
    assert(n7.len() == 0);
    assert(first_env(v, n7) == None::<Seq<char>>);
    assert(first_env(v, n6) == env_value(v, "MODEL"@));
    assert(n0.len() == 7);
    assert(first_env(v, n5) == match env_value(v, n5[0]) {
        Some(x) => Some(x),
        None => first_env(v, n6),
    });
    assert(first_env(v, n4) == match env_value(v, n4[0]) {
        Some(x) => Some(x),
        None => first_env(v, n5),
    });
    assert(first_env(v, n3) == match env_value(v, n3[0]) {
        Some(x) => Some(x),
        None => first_env(v, n4),
    });
    assert(first_env(v, n2) == match env_value(v, n2[0]) {
        Some(x) => Some(x),
        None => first_env(v, n3),
    });
    assert(first_env(v, n1) == match env_value(v, n1[0]) {
        Some(x) => Some(x),
        None => first_env(v, n2),
    });
    assert(first_env(v, n0) == match env_value(v, n0[0]) {
        Some(x) => Some(x),
        None => first_env(v, n1),
    });
}

/// The detected user: the git identity (email, then name), else `USER`,
/// else `LOGNAME`, else `unknown`.
pub open spec fn detected_user(a: Ambient) -> Seq<char> {
    match a.git_email {
        Some(e) => e@,
        None => match a.git_name {
            Some(n) => n@,
            None => match env_value(a.vars@, "USER"@) {
                Some(u) => u,
                None => match env_value(a.vars@, "LOGNAME"@) {
                    Some(l) => l,
                    None => "unknown"@,
                },
            },
        },
    }
}

/// Reads a variable, treating a blank value as unset.
pub fn env_var(a: &Ambient, name: &str) -> (res: Option<String>)
    ensures
        opt_view(res) == env_value(a.vars@, name@),
{
    let target = name.to_string();
    let mut i: usize = 0;
    assert(a.vars@.skip(0) == a.vars@);
    while i < a.vars.len()
        invariant
            target@ == name@,
            i <= a.vars@.len(),
            lookup(a.vars@, name@) == lookup(a.vars@.skip(i as int), name@),
        decreases a.vars.len() - i,
    {
        assert(a.vars@.skip(i as int)[0] == a.vars@[i as int]);
        assert(a.vars@.skip(i as int).drop_first() == a.vars@.skip(i + 1));
        if a.vars[i].0 == target {
            let v = &a.vars[i].1;
            let t = trim_str(v.as_str());
            if t.as_str().is_empty() {
                return None;
            } else {
                return Some(v.clone());
            }
        }
        i = i + 1;
    }
    None
}

/// Best-effort model name from common agent environment variables.
pub fn detect_model(a: &Ambient) -> (res: Option<String>)
    ensures
        opt_view(res) == detected_model(*a),
{
    let keys: Vec<&str> = vec![
        "ANTHROPIC_MODEL",
        "ANTHROPIC_SMALL_FAST_MODEL",
        "OPENAI_MODEL",
        "OPENROUTER_MODEL",
        "GEMINI_MODEL",
        "CODEX_MODEL",
        "MODEL",
    ];
    let ghost names = model_keys();
    assert(forall|k: int| 0 <= k < keys@.len() ==> #[trigger] keys@[k]@ == names[k]);
    let mut i: usize = 0;
    assert(names.skip(0) == names);
    while i < keys.len()
        invariant
            names == model_keys(),
            keys@.len() == names.len() == 7,
            i <= keys@.len(),
            forall|k: int| 0 <= k < keys@.len() ==> #[trigger] keys@[k]@ == names[k],
            first_env(a.vars@, names) == first_env(a.vars@, names.skip(i as int)),
        decreases keys.len() - i,
    {
        assert(names.skip(i as int)[0] == names[i as int]);
        assert(names.skip(i as int).drop_first() == names.skip(i + 1));
        let key = keys[i];
        assert(key@ == names[i as int]);
        let v = env_var(a, key);
        if v.is_some() {
            assert(names.skip(i as int).len() > 0);
            assert(first_env(a.vars@, names.skip(i as int)) == env_value(a.vars@, names[i as int]));
            return v;
        }
        i = i + 1;
    }
    None
}

/// Resolves the filing user: git identity (email, then name), else `USER`,
/// else `LOGNAME`, else `unknown`.
pub fn detect_user(a: &Ambient) -> (res: Option<String>)
    ensures
        res matches Some(u) && u@ == detected_user(*a),
{
    match &a.git_email {
        Some(e) => Some(e.clone()),
        None => match &a.git_name {
            Some(n) => Some(n.clone()),
            None => match env_var(a, "USER") {
                Some(u) => Some(u),
                None => match env_var(a, "LOGNAME") {
                    Some(l) => Some(l),
                    None => Some("unknown".to_string()),
                },
            },
        },
    }
}

/// The optional flag's string.
fn flag_value(flag: Option<&str>) -> (res: Option<String>)
    ensures
        opt_view(res) == match flag {
            Some(f) => Some(f@),
            None => None::<Seq<char>>,
        },
{
    match flag {
        Some(f) => Some(f.to_string()),
        None => None,
    }
}

/// Resolves the context of a new record from explicit flags, environment
/// overrides and detection.
pub fn resolve(flag_model: Option<&str>, flag_user: Option<&str>, a: &Ambient) -> (res: Context)
    ensures
        opt_view(res.model) == match flag_model {
            Some(m) => Some(m@),
            None => match env_value(a.vars@, "PAPERCUTS_MODEL"@) {
                Some(v) => Some(v),
                None => detected_model(*a),
            },
        },
        opt_view(res.user) == match flag_user {
            Some(u) => Some(u@),
            None => match env_value(a.vars@, "PAPERCUTS_USER"@) {
                Some(v) => Some(v),
                None => Some(detected_user(*a)),
            },
        },
{
    let model = match flag_value(flag_model) {
        Some(m) => Some(m),
        None => match env_var(a, "PAPERCUTS_MODEL") {
            Some(v) => Some(v),
            None => detect_model(a),
        },
    };
    let user = match flag_value(flag_user) {
        Some(u) => Some(u),
        None => match env_var(a, "PAPERCUTS_USER") {
            Some(v) => Some(v),
            None => detect_user(a),
        },
    };
    Context { model, user }
}

/// Calls `String::from_utf8`. The contract claims, as its documentation
/// says, a string exactly when the bytes are valid UTF-8, and then the
/// characters they encode (vstd's `valid_utf8` and `decode_utf8`).
#[verifier::external_body]
fn utf8_string(bytes: Vec<u8>) -> (res: Option<String>)
    ensures
        match res {
            Some(s) => vstd::utf8::valid_utf8(bytes@) && s@ == vstd::utf8::decode_utf8(bytes@),
            None => !vstd::utf8::valid_utf8(bytes@),
        },
{
    String::from_utf8(bytes).ok()
}

/// The value a command printed: its standard output as text, trimmed, when
/// it succeeded, printed valid UTF-8 and printed more than whitespace.
pub fn command_value(success: bool, stdout: Vec<u8>) -> (res: Option<String>)
    ensures
        !success ==> res is None,
        success && !vstd::utf8::valid_utf8(stdout@) ==> res is None,
        success && vstd::utf8::valid_utf8(stdout@) ==> opt_view(res) == ({
            let t = trim(vstd::utf8::decode_utf8(stdout@));
            if t.len() > 0 {
                Some(t)
            } else {
                None
            }
        }),
{
    if !success {
        return None;
    }
    match utf8_string(stdout) {
        None => None,
        Some(s) => {
            let t = trim_str(s.as_str());
            if t.as_str().is_empty() {
                None
            } else {
                Some(t)
            }
        },
    }
}

/// Resolves the harness of a new record: the explicit flag, else
/// `PAPERCUTS_HARNESS` (unless blank). No detection is attempted.
pub fn resolve_harness(flag_harness: Option<&str>, a: &Ambient) -> (res: Option<String>)
    ensures
        opt_view(res) == match flag_harness {
            Some(h) => Some(h@),
            None => env_value(a.vars@, "PAPERCUTS_HARNESS"@),
        },
{
    match flag_value(flag_harness) {
        Some(h) => Some(h),
        None => env_var(a, "PAPERCUTS_HARNESS"),
    }
}

} // verus!
