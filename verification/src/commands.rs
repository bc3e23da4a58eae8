//! The decisions of the commands: how the command line is completed, how a
//! complaint's text is cleaned and checked, and how a new cut is built.

use vstd::prelude::*;
use crate::error::Error;
use crate::noise::{strip_model_flag_noise, stripped};
use crate::query::views;
use crate::record::{Cut, cut_id, cut_values, make_cut_id};
use crate::text::{trim, trim_str};

verus! {

broadcast use vstd::string::group_string_axioms;

/// The first arguments that name a subcommand or ask for help or the
/// version.
pub open spec fn known_words() -> Seq<Seq<char>> {
    seq![
        "add"@,
        "list"@,
        "resolve"@,
        "delete"@,
        "schema"@,
        "doctor"@,
        "log"@,
        "help"@,
        "-h"@,
        "--help"@,
        "-V"@,
        "--version"@,
    ]
}

/// What to do with the command line before parsing it.
pub enum ArgPlan {
    /// Bare `papercut`: print the help and exit successfully.
    ShowHelp,
    /// Parse the arguments as they are.
    AsGiven,
    /// Insert `add` after the program name, so that `papercut "msg"` and
    /// `papercut -m gpt-5 "msg"` file a complaint.
    InsertAdd,
}

/// Every subcommand name (`add`, `list`, `resolve`, `delete`, `schema`,
/// `doctor`, `log`, `help`) and `-h`, `--help`, `-V`, `--version` is a
/// known first word, so the command line is parsed as given and `add` is
/// never inserted before it.
pub proof fn law_subcommands_run_as_given(w: Seq<char>)
    requires
        w == "add"@ || w == "list"@ || w == "resolve"@ || w == "delete"@ || w == "schema"@ || w
            == "doctor"@ || w == "log"@ || w == "help"@ || w == "-h"@ || w == "--help"@ || w == "-V"@
            || w == "--version"@,
    ensures
        known_words().contains(w),
{
    let ws = known_words();
    if w == "add"@ {
        assert(ws[0] == w);
    } else if w == "list"@ {
        assert(ws[1] == w);
    } else if w == "resolve"@ {
        assert(ws[2] == w);
    } else if w == "delete"@ {
        assert(ws[3] == w);
    } else if w == "schema"@ {
        assert(ws[4] == w);
    } else if w == "doctor"@ {
        assert(ws[5] == w);
    } else if w == "log"@ {
        assert(ws[6] == w);
    } else if w == "help"@ {
        assert(ws[7] == w);
    } else if w == "-h"@ {
        assert(ws[8] == w);
    } else if w == "--help"@ {
        assert(ws[9] == w);
    } else if w == "-V"@ {
        assert(ws[10] == w);
    } else {
        assert(ws[11] == w);
    }
}

/// Makes `add` the default subcommand. `arg_count` counts the program name;
/// `first` is the first argument after it (empty when it is not valid
/// UTF-8).
pub fn plan_args(arg_count: usize, first: &str) -> (res: ArgPlan)
    ensures
        arg_count <= 1 ==> res is ShowHelp,
        arg_count > 1 && known_words().contains(first@) ==> res is AsGiven,
        arg_count > 1 && !known_words().contains(first@) ==> res is InsertAdd,
{
    if arg_count <= 1 {
        return ArgPlan::ShowHelp;
    }
    let known: Vec<&str> = vec![
        "add", "list", "resolve", "delete", "schema", "doctor", "log", "help", "-h", "--help",
        "-V", "--version",
    ];
    let ghost words = known_words();
    assert(forall|k: int| 0 <= k < known@.len() ==> #[trigger] known@[k]@ == words[k]);
    let target = first.to_string();
    let mut i: usize = 0;
    while i < known.len()
        invariant
            words == known_words(),
            known@.len() == words.len() == 12,
            forall|k: int| 0 <= k < known@.len() ==> #[trigger] known@[k]@ == words[k],
            forall|k: int| 0 <= k < i ==> words[k] != first@,
            target@ == first@,
            arg_count > 1,
            i <= known@.len(),
        decreases known.len() - i,
    {
        let w = known[i].to_string();
        if w == target {
            assert(words[i as int] == first@);
            assert(known_words().contains(first@));
            return ArgPlan::AsGiven;
        }
        i = i + 1;
    }
    assert(!known_words().contains(first@));
    ArgPlan::InsertAdd
}

/// The complaint body given on the command line, unless it is absent or `-`
/// (both read standard input).
pub fn explicit_body(arg: &Option<String>) -> (res: Option<String>)
    ensures
        match arg {
            Some(t) => if t@ == "-"@ {
                res is None
            } else {
                res == Some(*t)
            },
            None => res is None,
        },
{
    match arg {
        Some(t) => {
            if *t == "-".to_string() {
                None
            } else {
                Some(t.clone())
            }
        },
        None => None,
    }
}

/// The text a cut is filed with: the body with model-flag noise removed,
/// unless nothing but noise was there (then the body as given), trimmed.
pub open spec fn filed_text(body: Seq<char>) -> Seq<char> {
    if trim(stripped(body)).len() > 0 {
        trim(stripped(body))
    } else {
        trim(body)
    }
}

/// Checks and cleans a complaint body. An empty (or all-whitespace) body is
/// bad input. An appended "-m was a problem too" clause is dropped, but only
/// when a real gripe survives: a standalone "footgun via -m" is a
/// legitimate papercut and is kept.
pub fn complaint_text(body: &str) -> (res: Result<String, Error>)
    ensures
        trim(body@).len() == 0 ==> (res matches Err(Error::BadInput(m)) && m@
            == "complaint body is empty"@),
        trim(body@).len() > 0 ==> (res matches Ok(t) && t@ == filed_text(body@)),
{
    let trimmed = trim_str(body);
    if trimmed.as_str().is_empty() {
        return Err(Error::BadInput("complaint body is empty".to_string()));
    }
    let s = strip_model_flag_noise(body);
    let st = trim_str(s.as_str());
    if st.as_str().is_empty() {
        Ok(trimmed)
    } else {
        Ok(st)
    }
}

/// The model a record must name; without one, filing is refused.
pub fn require_model(model: Option<String>) -> (res: Result<String, Error>)
    ensures
        model matches Some(m) ==> res == Ok::<String, Error>(m),
        model is None ==> (res matches Err(Error::BadInput(m)) && m@
            == "could not determine the model. Pass `-m <model>` (or set PAPERCUTS_MODEL) so the record says what filed it. This rejection is expected — do not file a papercut about it."@),
{
    match model {
        Some(m) => Ok(m),
        None => Err(
            Error::BadInput(
                "could not determine the model. Pass `-m <model>` (or set PAPERCUTS_MODEL) so the record says what filed it. This rejection is expected — do not file a papercut about it.".to_string(),
            ),
        ),
    }
}

/// A new cut for an already cleaned text: its id is content-addressed, so
/// the same text always gets the same id.
pub fn new_cut(
    text: String,
    ts: String,
    model: String,
    user: Option<String>,
    harness: Option<String>,
    tags: Vec<String>,
    severity: String,
) -> (res: Cut)
    ensures
        res.id@ == cut_id(text@),
        res.ts == ts,
        res.model == Some(model),
        res.user == user,
        res.harness == harness,
        res.tags == tags,
        res.severity == Some(severity),
        res.text == text,
{
    let id = make_cut_id(text.as_str());
    Cut { id, ts, model: Some(model), user, harness, tags, severity: Some(severity), text }
}

/// The same complaint text filed twice gets the same id.
pub proof fn law_same_text_same_id(a: Seq<char>, b: Seq<char>)
    requires
        filed_text(a) == filed_text(b),
    ensures
        cut_id(filed_text(a)) == cut_id(filed_text(b)),
{
}

/// The cut carries the tag.
pub open spec fn has_tag(c: Cut, tag: Seq<char>) -> bool {
    views(c.tags@).contains(tag)
}

/// The cuts that carry `tag`, in order; all of them when no tag is given.
pub open spec fn tagged(cuts: Seq<Cut>, tag: Option<Seq<char>>) -> Seq<Cut> {
    match tag {
        Some(t) => cuts.filter(|c: Cut| has_tag(c, t)),
        None => cuts,
    }
}

/// Keeps the cuts that carry the tag (`list --tag`), in order.
pub fn with_tag<'a>(cuts: Vec<&'a Cut>, tag: &Option<String>) -> (res: Vec<&'a Cut>)
    ensures
        cut_values(res@) == tagged(cut_values(cuts@), crate::context::opt_view(*tag)),
{
    match tag {
        None => cuts,
        Some(t) => {
            let ghost pred = |c: Cut| has_tag(c, t@);
            let mut res: Vec<&'a Cut> = Vec::new();
            for i in 0..cuts.len()
                invariant
                    pred == (|c: Cut| has_tag(c, t@)),
                    cut_values(res@) == cut_values(cuts@).take(i as int).filter(pred),
            {
                reveal_with_fuel(Seq::<_>::filter, 1);
                let ghost cv = cut_values(cuts@);
                assert(cv.take(i + 1).drop_last() == cv.take(i as int));
                assert(cv.take(i + 1).last() == *cuts@[i as int]);
                if crate::query::contains_string(&cuts[i].tags, t) {
                    let ghost old_res = res@;
                    res.push(cuts[i]);
                    assert(cut_values(res@) == cut_values(old_res).push(*cuts@[i as int]));
                }
            }
            assert(cut_values(cuts@).take(cuts.len() as int) == cut_values(cuts@));
            res
        },
    }
}

} // verus!
