//! `papercut schema`: the machine contract, so that agents can orient
//! themselves without reading prose. Its error and exit code tables are built
//! from the error type itself.

use vstd::prelude::*;
use crate::error::{Error, error_code, exit_status};
use crate::output::CONTRACT_VERSION;
use crate::context::opt_view;
use crate::text::decimal;

verus! {

broadcast use vstd::string::group_string_axioms;

/// An environment variable the tool reads or writes.
pub struct EnvVarDoc {
    pub name: String,
    pub read: bool,
    pub write: bool,
    pub desc: String,
}

/// One command: its alias, what it does by default, whether it reads,
/// writes or destroys, its arguments and its outcomes.
pub struct CommandDoc {
    pub name: String,
    pub alias: Option<String>,
    pub default_mode: Option<String>,
    pub desc: Option<String>,
    pub read: bool,
    pub write: bool,
    pub destructive: bool,
    pub args: Vec<(String, String)>,
    pub exit: Vec<(String, String)>,
}

/// One kind of journal record and the meaning of its fields.
pub struct RecordDoc {
    pub name: String,
    pub fields: Vec<(String, String)>,
}

/// The whole machine contract.
pub struct MachineContract {
    pub contract: u32,
    pub tool: String,
    pub journal: Vec<(String, String)>,
    pub env: Vec<EnvVarDoc>,
    pub commands: Vec<CommandDoc>,
    pub record: Vec<RecordDoc>,
    pub error_codes: Vec<(String, i32)>,
    pub exit_codes: Vec<(String, String)>,
    pub stdout: String,
    pub stderr: String,
}

/// The keys of a table.
pub open spec fn keys(t: Seq<(String, String)>) -> Seq<Seq<char>> {
    t.map_values(|p: (String, String)| p.0@)
}

/// The documented exit statuses, as their numerals.
pub open spec fn exit_code_keys() -> Seq<Seq<char>> {
    seq!["0"@, "2"@, "65"@, "66"@, "70"@, "74"@, "75"@, "77"@, "78"@]
}

/// A table as pairs of character sequences.
pub open spec fn table(t: Seq<(String, String)>) -> Seq<(Seq<char>, Seq<char>)> {
    t.map_values(|p: (String, String)| (p.0@, p.1@))
}

/// `c` documents the command `name` with exactly these entries.
pub open spec fn describes(
    c: CommandDoc,
    name: Seq<char>,
    alias: Option<Seq<char>>,
    default_mode: Option<Seq<char>>,
    desc: Option<Seq<char>>,
    read: bool,
    write: bool,
    destructive: bool,
    args: Seq<(Seq<char>, Seq<char>)>,
    exit: Seq<(Seq<char>, Seq<char>)>,
) -> bool {
    &&& c.name@ == name
    &&& opt_view(c.alias) == alias
    &&& opt_view(c.default_mode) == default_mode
    &&& opt_view(c.desc) == desc
    &&& c.read == read
    &&& c.write == write
    &&& c.destructive == destructive
    &&& table(c.args@) == args
    &&& table(c.exit@) == exit
}

/// The journal's place and format.
pub open spec fn journal_doc() -> Seq<(Seq<char>, Seq<char>)> {
    seq![
        ("default"@, "<repo-root>/.papercuts.jsonl"@),
        ("env_override"@, "PAPERCUTS_FILE"@),
        ("outside_git"@, "~/.papercuts/log.jsonl"@),
        ("format"@, "append-only JSONL, one record per line"@),
        ("history"@, "append-only journal; resolve appends an event; delete rewrites to remove a papercut entirely"@),
    ]
}

/// The tool's own environment variables: name, read, written, meaning.
pub open spec fn env_doc() -> Seq<(Seq<char>, bool, bool, Seq<char>)> {
    seq![
        ("PAPERCUTS_FILE"@, true, false, "Override journal path"@),
        ("PAPERCUTS_MODEL"@, true, false, "Override detected model"@),
        ("PAPERCUTS_USER"@, true, false, "Override detected user"@),
        ("PAPERCUTS_HARNESS"@, true, false, "Override detected harness"@),
        ("PAPERCUTS_NOW"@, true, false, "Deterministic RFC3339 timestamp override for tests"@),
    ]
}

/// The arguments of `add`.
pub open spec fn add_args() -> Seq<(Seq<char>, Seq<char>)> {
    seq![
        ("text"@, "positional; '-' or omitted reads stdin"@),
        ("-m/--model, --user"@, "override detected context"@),
        ("--harness"@, "override detected harness"@),
        ("-t/--tag"@, "area tag, repeatable"@),
        ("--severity"@, "minor (default) | major | blocker"@),
    ]
}

/// The outcomes of `add`.
pub open spec fn add_exit() -> Seq<(Seq<char>, Seq<char>)> {
    seq![("0"@, "appended"@), ("no-op"@, "duplicate suppressed (first-wins)"@)]
}

/// The arguments of `list`.
pub open spec fn list_args() -> Seq<(Seq<char>, Seq<char>)> {
    seq![
        ("--format"@, "text (default) | json | md (severity-first digest)"@),
        ("--all"@, "include resolved records"@),
        ("--tag"@, "only records carrying this tag"@),
    ]
}

/// The arguments of `resolve`.
pub open spec fn resolve_args() -> Seq<(Seq<char>, Seq<char>)> {
    seq![("id"@, "full or unique-prefix id"@), ("--note"@, "how it was fixed"@)]
}

/// The arguments of `delete`.
pub open spec fn delete_args() -> Seq<(Seq<char>, Seq<char>)> {
    seq![("id"@, "full or unique-prefix id"@)]
}

/// The outcomes of `delete`.
pub open spec fn delete_exit() -> Seq<(Seq<char>, Seq<char>)> {
    seq![("0"@, "removed"@), ("no-op"@, "id already absent"@)]
}

/// The fields of a cut record.
pub open spec fn cut_fields() -> Seq<(Seq<char>, Seq<char>)> {
    seq![
        ("kind"@, "cut"@),
        ("id"@, "pc_<sha256-hex-10> content-addressed"@),
        ("ts"@, "RFC3339 UTC, PAPERCUTS_NOW override"@),
        ("model"@, "string|null, detected/override"@),
        ("user"@, "string|null, git config or env"@),
        ("harness"@, "string|null, detected/override"@),
        ("tags"@, "array of strings"@),
        ("severity"@, "string|null, minor | major | blocker"@),
        ("text"@, "string, unbounded"@),
    ]
}

/// The fields of a resolution record.
pub open spec fn resolved_fields() -> Seq<(Seq<char>, Seq<char>)> {
    seq![
        ("kind"@, "resolved"@),
        ("id"@, "pc_... target id"@),
        ("ts"@, "RFC3339 UTC"@),
        ("by"@, "string|null"@),
        ("note"@, "string|null"@),
    ]
}

/// The meaning of each exit status.
pub open spec fn exit_code_doc() -> Seq<(Seq<char>, Seq<char>)> {
    seq![
        ("0"@, "success (incl. empty results)"@),
        ("2"@, "usage"@),
        ("65"@, "bad input"@),
        ("66"@, "not found"@),
        ("70"@, "internal"@),
        ("74"@, "I/O"@),
        ("75"@, "lock timeout (retryable)"@),
        ("77"@, "permission denied"@),
        ("78"@, "config"@),
    ]
}

/// What goes to standard output.
pub open spec fn stdout_doc() -> Seq<char> {
    "list defaults to human-readable text; --format json is data-only. Other commands emit one JSON envelope"@
}

/// What goes to standard error.
pub open spec fn stderr_doc() -> Seq<char> {
    "errors only; one JSON envelope with code, exit, message, suggested_fix"@
}

/// The table has an entry with the code and the exit status of `e`.
pub open spec fn lists_error(t: Seq<(String, i32)>, e: Error) -> bool {
    exists|i: int| 0 <= i < t.len() && (#[trigger] t[i]).0@ == error_code(e) && t[i].1 == exit_status(e)
}

/// The entry at `i` is the code and exit status of some error.
pub open spec fn entry_of_some_error(t: Seq<(String, i32)>, i: int) -> bool {
    exists|e: Error| #![trigger error_code(e)] t[i].0@ == error_code(e) && t[i].1 == exit_status(e)
}

/// The error code table names every kind of error with its exit status, and
/// nothing else.
pub open spec fn error_table(t: Seq<(String, i32)>) -> bool {
    &&& forall|e: Error| #[trigger] lists_error(t, e)
    &&& forall|i: int| 0 <= i < t.len() ==> #[trigger] entry_of_some_error(t, i)
}

fn pair(a: &str, b: &str) -> (res: (String, String))
    ensures
        res.0@ == a@,
        res.1@ == b@,
{
    (a.to_string(), b.to_string())
}

fn env_doc_entry(name: &str, desc: &str) -> (res: EnvVarDoc)
    ensures
        res.name@ == name@,
        res.read,
        !res.write,
        res.desc@ == desc@,
{
    EnvVarDoc { name: name.to_string(), read: true, write: false, desc: desc.to_string() }
}

fn command_doc(name: &str, read: bool, write: bool) -> (res: CommandDoc)
    ensures
        res.name@ == name@,
        res.alias is None,
        res.default_mode is None,
        res.desc is None,
        res.read == read,
        res.write == write,
        !res.destructive,
        res.args@.len() == 0,
        res.exit@.len() == 0,
{
    CommandDoc {
        name: name.to_string(),
        alias: None,
        default_mode: None,
        desc: None,
        read,
        write,
        destructive: false,
        args: Vec::new(),
        exit: Vec::new(),
    }
}

/// One kind of each error, in the order of their exit statuses.
fn error_kinds() -> (res: Vec<Error>)
    ensures
        res@.len() == 8,
        forall|e: Error|
        #![trigger error_code(e)]
            exists|i: int| 0 <= i < 8 && error_code(#[trigger] res@[i]) == error_code(e) && exit_status(
                res@[i],
            ) == exit_status(e),
{
    let res = vec![
        Error::Usage(String::new()),
        Error::BadInput(String::new()),
        Error::NotFound(String::new()),
        Error::Internal(String::new()),
        Error::Io(String::new()),
        Error::LockTimeout(String::new()),
        Error::PermDenied(String::new()),
        Error::Config(String::new()),
    ];
    assert forall|e: Error|
        #![trigger error_code(e)]
        exists|i: int| 0 <= i < 8 && error_code(#[trigger] res@[i]) == error_code(e) && exit_status(
            res@[i],
        ) == exit_status(e) by {
        let i: int = match e {
            Error::Usage(_) => 0,
            Error::BadInput(_) => 1,
            Error::NotFound(_) => 2,
            Error::Internal(_) => 3,
            Error::Io(_) => 4,
            Error::LockTimeout(_) => 5,
            Error::PermDenied(_) => 6,
            Error::Config(_) => 7,
        };
        assert(error_code(res@[i]) == error_code(e) && exit_status(res@[i]) == exit_status(e));
    }
    res
}

/// The error code table, built from the errors' own codes and statuses.
fn error_code_table() -> (res: Vec<(String, i32)>)
    ensures
        res@.len() == 8,
        error_table(res@),
{
    let kinds = error_kinds();
    let mut res: Vec<(String, i32)> = Vec::new();
    for i in 0..kinds.len()
        invariant
            kinds@.len() == 8,
            res@.len() == i,
            forall|k: int|
                0 <= k < i ==> (#[trigger] res@[k]).0@ == error_code(kinds@[k]) && res@[k].1
                    == exit_status(kinds@[k]),
    {
        let e = &kinds[i];
        res.push((e.code().to_string(), e.exit()));
    }
    assert forall|e: Error| #[trigger] lists_error(res@, e) by {
        let i = choose|i: int|
            0 <= i < 8 && error_code(#[trigger] kinds@[i]) == error_code(e) && exit_status(kinds@[i])
                == exit_status(e);
        assert(res@[i].0@ == error_code(e));
    }
    assert forall|i: int| 0 <= i < res@.len() implies #[trigger] entry_of_some_error(res@, i) by {
        assert(res@[i].0@ == error_code(kinds@[i]));
    }
    res
}

/// The exit status table.
fn exit_code_table() -> (res: Vec<(String, String)>)
    ensures
        keys(res@) == exit_code_keys(),
        table(res@) == exit_code_doc(),
{
    let res = vec![
        pair("0", "success (incl. empty results)"),
        pair("2", "usage"),
        pair("65", "bad input"),
        pair("66", "not found"),
        pair("70", "internal"),
        pair("74", "I/O"),
        pair("75", "lock timeout (retryable)"),
        pair("77", "permission denied"),
        pair("78", "config"),
    ];
    assert(keys(res@) =~= exit_code_keys());
    assert(table(res@) =~= exit_code_doc());
    res
}

/// The complete machine contract: the contract version, the journal's
/// place and format, the environment variables, the commands, the record
/// shapes, every error code with its exit status, and the exit statuses.
pub fn contract() -> (res: MachineContract)
    ensures
        res.contract == CONTRACT_VERSION,
        res.tool@ == "papercut"@,
        table(res.journal@) == journal_doc(),
        res.env@.map_values(|v: EnvVarDoc| (v.name@, v.read, v.write, v.desc@)) == env_doc(),
        res.commands@.len() == 6,
        describes(
            res.commands@[0],
            "add"@,
            Some("log"@),
            Some("implicit when the first arg is a message or a flag (-m/--model)"@),
            None,
            false,
            true,
            false,
            add_args(),
            add_exit(),
        ),
        describes(
            res.commands@[1],
            "list"@,
            None,
            Some("human-readable text digest, open first then newest"@),
            None,
            true,
            false,
            false,
            list_args(),
            seq![],
        ),
        describes(res.commands@[2], "resolve"@, None, None, None, false, true, false, resolve_args(), seq![]),
        describes(
            res.commands@[3],
            "delete"@,
            None,
            None,
            None,
            false,
            true,
            true,
            delete_args(),
            delete_exit(),
        ),
        describes(res.commands@[4], "schema"@, None, None, Some("this contract"@), true, false, false, seq![], seq![]),
        describes(
            res.commands@[5],
            "doctor"@,
            None,
            None,
            Some("validate the journal"@),
            true,
            false,
            false,
            seq![],
            seq![],
        ),
        res.record@.len() == 2,
        res.record@[0].name@ == "kind_cut"@,
        table(res.record@[0].fields@) == cut_fields(),
        res.record@[1].name@ == "kind_resolved"@,
        table(res.record@[1].fields@) == resolved_fields(),
        res.error_codes@.len() == 8,
        error_table(res.error_codes@),
        keys(res.exit_codes@) == exit_code_keys(),
        table(res.exit_codes@) == exit_code_doc(),
        res.stdout@ == stdout_doc(),
        res.stderr@ == stderr_doc(),
{
    let journal = vec![
        pair("default", "<repo-root>/.papercuts.jsonl"),
        pair("env_override", "PAPERCUTS_FILE"),
        pair("outside_git", "~/.papercuts/log.jsonl"),
        pair("format", "append-only JSONL, one record per line"),
        pair(
            "history",
            "append-only journal; resolve appends an event; delete rewrites to remove a papercut entirely",
        ),
    ];
    assert(table(journal@) =~= journal_doc());
    let env = vec![
        env_doc_entry("PAPERCUTS_FILE", "Override journal path"),
        env_doc_entry("PAPERCUTS_MODEL", "Override detected model"),
        env_doc_entry("PAPERCUTS_USER", "Override detected user"),
        env_doc_entry("PAPERCUTS_HARNESS", "Override detected harness"),
        env_doc_entry("PAPERCUTS_NOW", "Deterministic RFC3339 timestamp override for tests"),
    ];
    assert(env@.map_values(|v: EnvVarDoc| (v.name@, v.read, v.write, v.desc@)) =~= env_doc());

    let mut add = command_doc("add", false, true);
    add.alias = Some("log".to_string());
    add.default_mode = Some("implicit when the first arg is a message or a flag (-m/--model)".to_string());
    add.args = vec![
        pair("text", "positional; '-' or omitted reads stdin"),
        pair("-m/--model, --user", "override detected context"),
        pair("--harness", "override detected harness"),
        pair("-t/--tag", "area tag, repeatable"),
        pair("--severity", "minor (default) | major | blocker"),
    ];
    add.exit = vec![pair("0", "appended"), pair("no-op", "duplicate suppressed (first-wins)")];
    assert(table(add.args@) =~= add_args());
    assert(table(add.exit@) =~= add_exit());
    let mut list = command_doc("list", true, false);
    list.default_mode = Some("human-readable text digest, open first then newest".to_string());
    list.args = vec![
        pair("--format", "text (default) | json | md (severity-first digest)"),
        pair("--all", "include resolved records"),
        pair("--tag", "only records carrying this tag"),
    ];
    assert(table(list.args@) =~= list_args());
    assert(table(list.exit@) =~= seq![]);
    let mut resolve = command_doc("resolve", false, true);
    resolve.args = vec![pair("id", "full or unique-prefix id"), pair("--note", "how it was fixed")];
    assert(table(resolve.args@) =~= resolve_args());
    assert(table(resolve.exit@) =~= seq![]);
    let mut delete = command_doc("delete", false, true);
    delete.destructive = true;
    delete.args = vec![pair("id", "full or unique-prefix id")];
    delete.exit = vec![pair("0", "removed"), pair("no-op", "id already absent")];
    assert(table(delete.args@) =~= delete_args());
    assert(table(delete.exit@) =~= delete_exit());
    let mut schema = command_doc("schema", true, false);
    schema.desc = Some("this contract".to_string());
    assert(table(schema.args@) =~= seq![]);
    assert(table(schema.exit@) =~= seq![]);
    let mut doctor = command_doc("doctor", true, false);
    doctor.desc = Some("validate the journal".to_string());
    assert(table(doctor.args@) =~= seq![]);
    assert(table(doctor.exit@) =~= seq![]);
    let commands = vec![add, list, resolve, delete, schema, doctor];

    let cut = RecordDoc {
        name: "kind_cut".to_string(),
        fields: vec![
            pair("kind", "cut"),
            pair("id", "pc_<sha256-hex-10> content-addressed"),
            pair("ts", "RFC3339 UTC, PAPERCUTS_NOW override"),
            pair("model", "string|null, detected/override"),
            pair("user", "string|null, git config or env"),
            pair("harness", "string|null, detected/override"),
            pair("tags", "array of strings"),
            pair("severity", "string|null, minor | major | blocker"),
            pair("text", "string, unbounded"),
        ],
    };
    assert(table(cut.fields@) =~= cut_fields());
    let resolved = RecordDoc {
        name: "kind_resolved".to_string(),
        fields: vec![
            pair("kind", "resolved"),
            pair("id", "pc_... target id"),
            pair("ts", "RFC3339 UTC"),
            pair("by", "string|null"),
            pair("note", "string|null"),
        ],
    };
    assert(table(resolved.fields@) =~= resolved_fields());
    let record = vec![cut, resolved];

    MachineContract {
        contract: CONTRACT_VERSION,
        tool: "papercut".to_string(),
        journal,
        env,
        commands,
        record,
        error_codes: error_code_table(),
        exit_codes: exit_code_table(),
        stdout: "list defaults to human-readable text; --format json is data-only. Other commands emit one JSON envelope".to_string(),
        stderr: "errors only; one JSON envelope with code, exit, message, suggested_fix".to_string(),
    }
}

/// Every error's exit status is documented in the exit status table, by
/// its numeral.
pub proof fn law_every_error_exit_is_documented(e: Error)
    ensures
        exit_code_keys().contains(decimal(exit_status(e) as nat)),
{
    reveal_with_fuel(decimal, 3);
    reveal_strlit("0");
    reveal_strlit("2");
    reveal_strlit("65");
    reveal_strlit("66");
    reveal_strlit("70");
    reveal_strlit("74");
    reveal_strlit("75");
    reveal_strlit("77");
    reveal_strlit("78");
    let k: int = match e {
        Error::Usage(_) => 1,
        Error::BadInput(_) => 2,
        Error::NotFound(_) => 3,
        Error::Internal(_) => 4,
        Error::Io(_) => 5,
        Error::LockTimeout(_) => 6,
        Error::PermDenied(_) => 7,
        Error::Config(_) => 8,
    };
    assert(exit_code_keys()[k] =~= decimal(exit_status(e) as nat));
}

} // verus!
