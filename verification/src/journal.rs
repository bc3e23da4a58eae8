//! The journal file's logic: where it lives, how its lines are read and
//! healed, when an append is a no-op, and what a deletion keeps.
//!
//! The journal is append-only JSONL, one record per line. Reading skips blank
//! lines and counts lines that do not parse (torn or partial writes) instead
//! of failing. Opening, locking, reading and writing the file, and parsing
//! and printing JSON, are done by the program around the library.

use vstd::prelude::*;
use crate::error::Error;
use crate::query::{cut_ids, duplicate_cuts, views};
use crate::record::{Record, record_id};
use crate::text::{chars_of, extend_chars, string_of, trim, trim_str};

verus! {

broadcast use vstd::string::group_string_axioms;

/// The journal's file name inside a repository.
pub const DEFAULT_FILE_NAME: &'static str = ".papercuts.jsonl";

/// The journal of a store.
pub struct Store {
    pub path: String,
}

/// The result of reading the journal.
pub struct ReadResult {
    pub records: Vec<Record>,
    /// The number of malformed (torn) lines skipped while healing.
    pub torn: usize,
}

/// The lock error for the journal at `path`.
pub fn lock_err(path: &str) -> (res: Error)
    ensures
        res matches Error::LockTimeout(p) && p@ == path@,
{
    Error::LockTimeout(path.to_string())
}

/// How long a writer waits between two attempts to lock the journal.
pub const LOCK_RETRY_MS: u64 = 50;

/// How long a writer keeps trying to lock the journal before it gives up.
pub const LOCK_TIMEOUT_MS: u64 = 2000;

/// What a writer does after one attempt to take the journal's lock.
pub enum LockStep {
    /// The lock is held: go on.
    Acquired,
    /// Wait `LOCK_RETRY_MS` and try again.
    Retry,
    /// Fail with a lock timeout.
    GiveUp,
}

/// The decision after an attempt to lock the journal, `elapsed_ms` after the
/// first attempt: a held lock goes on; a refused one is retried until more
/// than `LOCK_TIMEOUT_MS` have passed, and then given up.
pub fn lock_step(acquired: bool, elapsed_ms: u64) -> (res: LockStep)
    ensures
        acquired ==> res is Acquired,
        !acquired && elapsed_ms > LOCK_TIMEOUT_MS ==> res is GiveUp,
        !acquired && elapsed_ms <= LOCK_TIMEOUT_MS ==> res is Retry,
{
    if acquired {
        LockStep::Acquired
    } else if elapsed_ms > LOCK_TIMEOUT_MS {
        LockStep::GiveUp
    } else {
        LockStep::Retry
    }
}

/// The content of a journal line: the line trimmed, or nothing for a blank
/// line.
pub fn line_content(line: &str) -> (res: Option<String>)
    ensures
        trim(line@).len() == 0 ==> res is None,
        trim(line@).len() > 0 ==> (res matches Some(c) && c@ == trim(line@)),
{
    let t = trim_str(line);
    if t.as_str().is_empty() {
        None
    } else {
        Some(t)
    }
}

/// The records among parsed lines, in order.
pub open spec fn parsed_records(p: Seq<Option<Record>>) -> Seq<Record>
    decreases p.len(),
{
    if p.len() == 0 {
        seq![]
    } else {
        match p.last() {
            Some(r) => parsed_records(p.drop_last()).push(r),
            None => parsed_records(p.drop_last()),
        }
    }
}

/// The number of lines that did not parse.
pub open spec fn torn_count(p: Seq<Option<Record>>) -> nat
    decreases p.len(),
{
    if p.len() == 0 {
        0
    } else {
        torn_count(p.drop_last()) + if p.last() is None {
            1nat
        } else {
            0nat
        }
    }
}

/// Heals the journal: keeps the records of the lines that parsed, in order,
/// and counts the lines that did not (`None`), which are skipped.
pub fn collect_records(parsed: Vec<Option<Record>>) -> (res: ReadResult)
    ensures
        res.records@ == parsed_records(parsed@),
        res.torn == torn_count(parsed@),
{
    let ghost all = parsed@;
    let total = parsed.len();
    let mut rest = parsed;
    let mut backwards: Vec<Option<Record>> = Vec::new();
    while rest.len() > 0
        invariant
            rest@ + backwards@.reverse() == all,
        decreases rest.len(),
    {
        let ghost before = rest@;
        let p = rest.pop().unwrap();
        let ghost bw = backwards@;
        backwards.push(p);
        assert(backwards@.reverse() == seq![p] + bw.reverse());
        assert(before == rest@.push(p));
        assert(rest@ + backwards@.reverse() == before + bw.reverse());
    }
    let mut records: Vec<Record> = Vec::new();
    let mut torn: usize = 0;
    let ghost n = all.len();
    while backwards.len() > 0
        invariant
            all == all.take(n - backwards@.len()) + backwards@.reverse(),
            backwards@.len() <= n == all.len() == total,
            records@ == parsed_records(all.take(n - backwards@.len())),
            torn == torn_count(all.take(n - backwards@.len())),
            torn <= n - backwards@.len(),
        decreases backwards.len(),
    {
        let ghost k = n - backwards@.len();
        let ghost bw = backwards@;
        let p = backwards.pop().unwrap();
        assert(bw.reverse() == seq![p] + backwards@.reverse());
        assert(all[k] == p) by {
            assert(all == all.take(k) + bw.reverse());
        }
        assert(all.take(k + 1).drop_last() == all.take(k));
        assert(all.take(k + 1).last() == p);
        assert(all == all.take(k + 1) + backwards@.reverse()) by {
            assert(all.take(k) + (seq![p] + backwards@.reverse()) == all.take(k + 1)
                + backwards@.reverse());
        }
        match p {
            Some(r) => records.push(r),
            None => {
                torn = torn + 1;
            },
        }
    }
    assert(all.take(n as int) == all);
    ReadResult { records, torn }
}

/// Whether appending `record` changes the journal. An identical cut (one
/// with the same content-addressed id) is a no-op: the first one wins.
/// A resolution always appends; callers handle idempotent resolves.
pub open spec fn appends(existing: Seq<Record>, record: Record) -> bool {
    match record {
        Record::Cut(c) => !cut_ids(existing).contains(c.id@),
        Record::Resolved(_) => true,
    }
}

/// Executable `appends`.
pub fn should_append(existing: &Vec<Record>, record: &Record) -> (res: bool)
    ensures
        res == appends(existing@, *record),
{
    match record {
        Record::Cut(c) => {
            let mut ids: Vec<String> = Vec::new();
            for i in 0..existing.len()
                invariant
                    views(ids@) == cut_ids(existing@.take(i as int)),
            {
                assert(existing@.take(i + 1).drop_last() == existing@.take(i as int));
                assert(existing@.take(i + 1).last() == existing@[i as int]);
                if let Record::Cut(e) = &existing[i] {
                    let ghost old_ids = views(ids@);
                    ids.push(e.id.clone());
                    assert(views(ids@) == old_ids.push(e.id@));
                }
            }
            assert(existing@.take(existing.len() as int) == existing@);
            !crate::query::contains_string(&ids, &c.id)
        },
        Record::Resolved(_) => true,
    }
}

/// Filing a complaint whose cut is already in the journal changes nothing,
/// and a resolution is always appended.
pub proof fn law_duplicate_cut_is_noop(existing: Seq<Record>, first: Record, again: Record)
    requires
        first is Cut,
        again is Cut,
        record_id(first) == record_id(again),
    ensures
        !appends(existing.push(first), again),
{
    let rs = existing.push(first);
    assert(rs.drop_last() == existing);
    assert(cut_ids(rs) == cut_ids(existing).push(record_id(first)));
    assert(cut_ids(rs)[cut_ids(existing).len() as int] == record_id(again));
}

/// Appending only what `appends` admits keeps the journal free of repeated
/// cut ids.
pub proof fn law_appends_keep_cut_ids_unique(existing: Seq<Record>, record: Record)
    requires
        duplicate_cuts(existing).len() == 0,
        appends(existing, record),
    ensures
        duplicate_cuts(existing.push(record)).len() == 0,
{
    assert(existing.push(record).drop_last() == existing);
}

/// A line of the journal and the id of the record it holds, if it parses.
pub struct JournalLine {
    pub text: String,
    pub id: Option<String>,
}

/// The line holds a record with the given id.
pub open spec fn holds_id(l: JournalLine, id: Seq<char>) -> bool {
    l.id matches Some(i) && i@ == id
}

/// What a deletion keeps: every line that does not hold a record with the
/// id, each followed by a newline.
pub open spec fn kept_text(lines: Seq<JournalLine>, id: Seq<char>) -> Seq<char>
    decreases lines.len(),
{
    if lines.len() == 0 {
        seq![]
    } else if holds_id(lines.last(), id) {
        kept_text(lines.drop_last(), id)
    } else {
        kept_text(lines.drop_last(), id) + lines.last().text@ + seq!['\n']
    }
}

/// The number of lines that hold a record with the id.
pub open spec fn removed_count(lines: Seq<JournalLine>, id: Seq<char>) -> nat
    decreases lines.len(),
{
    if lines.len() == 0 {
        0
    } else {
        removed_count(lines.drop_last(), id) + if holds_id(lines.last(), id) {
            1nat
        } else {
            0nat
        }
    }
}

/// The journal after a deletion, and how many records it removed.
pub struct Removal {
    pub kept: String,
    pub removed: usize,
}

/// Plans the permanent deletion of every record with the given id: the
/// journal is rewritten without those lines (torn and blank lines are kept).
/// This is the one destructive operation; the rest of the journal stays
/// append-only.
pub fn plan_removal(lines: &Vec<JournalLine>, id: &str) -> (res: Removal)
    ensures
        res.kept@ == kept_text(lines@, id@),
        res.removed == removed_count(lines@, id@),
{
    let target = id.to_string();
    let mut kept: Vec<char> = Vec::new();
    let mut removed: usize = 0;
    for i in 0..lines.len()
        invariant
            target@ == id@,
            kept@ == kept_text(lines@.take(i as int), id@),
            removed == removed_count(lines@.take(i as int), id@),
            removed <= i,
    {
        assert(lines@.take(i + 1).drop_last() == lines@.take(i as int));
        assert(lines@.take(i + 1).last() == lines@[i as int]);
        let line = &lines[i];
        let drop = match &line.id {
            Some(rid) => *rid == target,
            None => false,
        };
        if drop {
            removed = removed + 1;
        } else {
            let t = chars_of(line.text.as_str());
            extend_chars(&mut kept, &t);
            kept.push('\n');
        }
    }
    assert(lines@.take(lines.len() as int) == lines@);
    Removal { kept: string_of(&kept), removed }
}

/// A deletion that removes nothing leaves every line, and one that removes
/// some lines removes exactly those that hold the id.
pub proof fn law_removal_counts(lines: Seq<JournalLine>, id: Seq<char>)
    ensures
        removed_count(lines, id) <= lines.len(),
        removed_count(lines, id) == 0 <==> forall|i: int|
            0 <= i < lines.len() ==> !holds_id(#[trigger] lines[i], id),
    decreases lines.len(),
{
    if lines.len() > 0 {
        let prev = lines.drop_last();
        law_removal_counts(prev, id);
        if removed_count(lines, id) == 0 {
            assert forall|i: int| 0 <= i < lines.len() implies !holds_id(#[trigger] lines[i], id) by {
                if i < lines.len() - 1 {
                    assert(lines[i] == prev[i]);
                }
            }
        } else if holds_id(lines.last(), id) {
            assert(lines[lines.len() - 1] == lines.last());
        } else {
            let i = choose|i: int| 0 <= i < prev.len() && holds_id(#[trigger] prev[i], id);
            assert(lines[i] == prev[i]);
        }
    }
}

/// `l` without a final carriage return.
pub open spec fn strip_cr(l: Seq<char>) -> Seq<char> {
    if l.len() > 0 && l.last() == '\r' {
        l.drop_last()
    } else {
        l
    }
}

/// The finished lines of `s`, each ended by a newline (with a `\r` before
/// the newline dropped), and the unfinished rest.
pub open spec fn line_split(s: Seq<char>) -> (Seq<Seq<char>>, Seq<char>)
    decreases s.len(),
{
    if s.len() == 0 {
        (seq![], seq![])
    } else {
        let (done, cur) = line_split(s.drop_last());
        if s.last() == '\n' {
            (done.push(strip_cr(cur)), seq![])
        } else {
            (done, cur.push(s.last()))
        }
    }
}

/// Rust's `str::lines`: lines end at `\n` or `\r\n`, and the final line
/// ending is optional.
pub open spec fn lines_of(s: Seq<char>) -> Seq<Seq<char>> {
    let (done, cur) = line_split(s);
    if cur.len() > 0 {
        done.push(cur)
    } else {
        done
    }
}

/// Splits the journal's content into lines, as `str::lines` does.
pub fn split_lines(content: &str) -> (res: Vec<String>)
    ensures
        views(res@) == lines_of(content@),
{
    let s = chars_of(content);
    let mut done: Vec<String> = Vec::new();
    let mut cur: Vec<char> = Vec::new();
    for i in 0..s.len()
        invariant
            line_split(s@.take(i as int)) == (views(done@), cur@),
    {
        assert(s@.take(i + 1).drop_last() == s@.take(i as int));
        assert(s@.take(i + 1).last() == s@[i as int]);
        if s[i] == '\n' {
            if cur.len() > 0 && cur[cur.len() - 1] == '\r' {
                cur.pop();
            }
            let ghost old_done = views(done@);
            done.push(string_of(&cur));
            assert(views(done@) == old_done.push(cur@));
            cur = Vec::new();
        } else {
            cur.push(s[i]);
        }
    }
    assert(s@.take(s.len() as int) == s@);
    if cur.len() > 0 {
        let ghost old_done = views(done@);
        done.push(string_of(&cur));
        assert(views(done@) == old_done.push(cur@));
    }
    done
}

/// Where the journal lives.
pub enum JournalPlace {
    /// The path named by `PAPERCUTS_FILE`.
    Explicit(String),
    /// `.papercuts.jsonl` at the root of this git repository.
    InRepo(String),
    /// `log.jsonl` in the `.papercuts` directory under this home directory.
    Home(String),
}

/// `PAPERCUTS_FILE` is set and not empty.
pub open spec fn names_file(file_override: Option<String>) -> bool {
    file_override matches Some(f) && f@.len() > 0
}

/// Chooses the journal: `PAPERCUTS_FILE` (when set and not empty), else the
/// git repository's root, else the home directory (`HOME`, then
/// `USERPROFILE`); with none of these, a configuration error.
pub fn journal_place(
    file_override: Option<String>,
    git_root: Option<String>,
    home: Option<String>,
    user_profile: Option<String>,
) -> (res: Result<JournalPlace, Error>)
    ensures
        names_file(file_override) ==> res == Ok::<JournalPlace, Error>(
            JournalPlace::Explicit(file_override->0),
        ),
        !names_file(file_override) && git_root is Some ==> res == Ok::<JournalPlace, Error>(
            JournalPlace::InRepo(git_root->0),
        ),
        !names_file(file_override) && git_root is None && home is Some ==> res == Ok::<
            JournalPlace,
            Error,
        >(JournalPlace::Home(home->0)),
        !names_file(file_override) && git_root is None && home is None && user_profile is Some
            ==> res == Ok::<JournalPlace, Error>(JournalPlace::Home(user_profile->0)),
        !names_file(file_override) && git_root is None && home is None && user_profile is None
            ==> (res matches Err(Error::Config(m)) && m@ == "cannot determine home directory"@),
{
    if let Some(f) = file_override {
        if !f.as_str().is_empty() {
            return Ok(JournalPlace::Explicit(f));
        }
    }
    if let Some(root) = git_root {
        return Ok(JournalPlace::InRepo(root));
    }
    match home {
        Some(h) => Ok(JournalPlace::Home(h)),
        None => match user_profile {
            Some(p) => Ok(JournalPlace::Home(p)),
            None => Err(Error::Config("cannot determine home directory".to_string())),
        },
    }
}

} // verus!
