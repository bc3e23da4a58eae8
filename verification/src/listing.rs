//! The `list` command's logic: the output format, the greedy word wrap of
//! complaint bodies, and the human-readable and Markdown listings.

use vstd::prelude::*;
use crate::error::Error;
use crate::query::{views, contains_string};
use crate::record::{Cut, cut_values};
use crate::text::{
    byte_len, chars_of, lemma_byte_len_push, lemma_encode_concat, decimal, decimal_chars, extend_chars, extend_str, is_ws,
    is_whitespace, join, join_chars, starts_with, string_of, utf8_len, vviews,
};
use crate::timestamp::{format_ts, shown_ts};

verus! {

broadcast use vstd::string::group_string_axioms;

/// The words of `s` so far and the unfinished word, splitting at whitespace.
pub open spec fn word_split(s: Seq<char>) -> (Seq<Seq<char>>, Seq<char>)
    decreases s.len(),
{
    if s.len() == 0 {
        (seq![], seq![])
    } else {
        let (done, cur) = word_split(s.drop_last());
        if is_ws(s.last()) {
            if cur.len() > 0 {
                (done.push(cur), seq![])
            } else {
                (done, cur)
            }
        } else {
            (done, cur.push(s.last()))
        }
    }
}

/// Rust's `str::split_whitespace`: the non-empty runs of non-whitespace.
pub open spec fn words(s: Seq<char>) -> Seq<Seq<char>> {
    let (done, cur) = word_split(s);
    if cur.len() > 0 {
        done.push(cur)
    } else {
        done
    }
}

/// The words of `s`.
pub fn split_words(s: &Vec<char>) -> (res: Vec<Vec<char>>)
    ensures
        vviews(res@) == words(s@),
{
    let mut done: Vec<Vec<char>> = Vec::new();
    let mut cur: Vec<char> = Vec::new();
    for i in 0..s.len()
        invariant
            word_split(s@.take(i as int)) == (vviews(done@), cur@),
    {
        assert(s@.take(i + 1).drop_last() == s@.take(i as int));
        assert(s@.take(i + 1).last() == s@[i as int]);
        if is_whitespace(s[i]) {
            if cur.len() > 0 {
                let ghost old_done = vviews(done@);
                done.push(cur);
                assert(vviews(done@) == old_done.push(cur@));
                cur = Vec::new();
            }
        } else {
            cur.push(s[i]);
        }
    }
    assert(s@.take(s.len() as int) == s@);
    if cur.len() > 0 {
        let ghost old_done = vviews(done@);
        done.push(cur);
        assert(vviews(done@) == old_done.push(cur@));
    }
    done
}

/// Greedy filling of lines with words: a word starts a new line when the
/// current line, a space and the word would exceed `width` bytes. Gives the
/// finished lines and the current one.
pub open spec fn wrap_fold(ws: Seq<Seq<char>>, width: nat) -> (Seq<Seq<char>>, Seq<char>)
    decreases ws.len(),
{
    if ws.len() == 0 {
        (seq![], seq![])
    } else {
        let (lines, line) = wrap_fold(ws.drop_last(), width);
        let word = ws.last();
        let (lines, line) = if line.len() > 0 && byte_len(line) + 1 + byte_len(word) > width {
            (lines.push(line), seq![])
        } else {
            (lines, line)
        };
        if line.len() == 0 {
            (lines, word)
        } else {
            (lines, line + seq![' '] + word)
        }
    }
}

/// The lines of the greedy word wrap of `text` to `width` bytes.
pub open spec fn wrapped_lines(text: Seq<char>, width: nat) -> Seq<Seq<char>> {
    let (lines, line) = wrap_fold(words(text), width);
    if line.len() > 0 {
        lines.push(line)
    } else {
        lines
    }
}

/// The greedy word wrap of `text` to `width` bytes, lines joined by
/// newlines.
pub open spec fn wrapped(text: Seq<char>, width: nat) -> Seq<char> {
    join(wrapped_lines(text, width), seq!['\n'])
}

/// Greedy word-wrap to `width` columns (counted in UTF-8 bytes, as
/// `str::len` counts): words are separated by single spaces, and a word that
/// would overflow the line starts a new one.
pub fn wrap(text: &str, width: usize) -> (res: String)
    ensures
        res@ == wrapped(text@, width as nat),
{
    let cs = chars_of(text);
    let ws = split_words(&cs);
    let mut lines: Vec<Vec<char>> = Vec::new();
    let mut line: Vec<char> = Vec::new();
    for i in 0..ws.len()
        invariant
            wrap_fold(vviews(ws@).take(i as int), width as nat) == (vviews(lines@), line@),
    {
        let ghost wv = vviews(ws@);
        assert(wv.take(i + 1).drop_last() == wv.take(i as int));
        assert(wv.take(i + 1).last() == ws@[i as int]@);
        let word = &ws[i];
        let line_bytes = utf8_len(&line);
        let word_bytes = utf8_len(word);
        let line_len = line.len();
        let word_len = word.len();
        assert(line_bytes <= 4 * line_len && word_bytes <= 4 * word_len);
        if line.len() > 0 && line_bytes + 1 + word_bytes > width as u128 {
            let ghost old_lines = vviews(lines@);
            lines.push(line);
            assert(vviews(lines@) == old_lines.push(line@));
            line = Vec::new();
        }
        if line.len() == 0 {
            line = word.clone();
        } else {
            line.push(' ');
            extend_chars(&mut line, word);
        }
    }
    assert(vviews(ws@).take(ws.len() as int) == vviews(ws@));
    if line.len() > 0 {
        let ghost old_lines = vviews(lines@);
        lines.push(line);
        assert(vviews(lines@) == old_lines.push(line@));
    }
    let nl: Vec<char> = vec!['\n'];
    assert(nl@ == seq!['\n']);
    let joined = join_chars(&lines, &nl);
    string_of(&joined)
}

/// The formats of the `list` command.
pub enum ListFormat {
    /// Human-readable text, the default (also `table`).
    Text,
    /// A Markdown digest (also `markdown`).
    Markdown,
    /// The data-only JSON envelope.
    Json,
}

/// Chooses the `list` format: `text` (the default) or `table`, `md` or
/// `markdown`, `json`; any other name is a usage error.
pub fn list_format(format: Option<String>) -> (res: Result<ListFormat, Error>)
    ensures
        ({
            let f = match format {
                Some(f) => f@,
                None => "text"@,
            };
            &&& (f == "text"@ || f == "table"@) ==> (res matches Ok(ListFormat::Text))
            &&& (f == "md"@ || f == "markdown"@) ==> (res matches Ok(ListFormat::Markdown))
            &&& f == "json"@ ==> (res matches Ok(ListFormat::Json))
            &&& !(f == "text"@ || f == "table"@ || f == "md"@ || f == "markdown"@ || f == "json"@)
                ==> (res matches Err(Error::Usage(m)) && m@ == "invalid --format '"@ + f
                + "' (expected text | json | md)"@)
        }),
{
    proof {
        reveal_strlit("text");
        reveal_strlit("table");
        reveal_strlit("md");
        reveal_strlit("markdown");
        reveal_strlit("json");
        assert("md"@.len() == 2 && "text"@.len() == 4 && "table"@.len() == 5);
        assert("markdown"@.len() == 8 && "json"@.len() == 4);
        assert("json"@[0] != "text"@[0]);
    }
    let f = match format {
        Some(f) => f,
        None => "text".to_string(),
    };
    if f == "text".to_string() || f == "table".to_string() {
        Ok(ListFormat::Text)
    } else if f == "md".to_string() || f == "markdown".to_string() {
        Ok(ListFormat::Markdown)
    } else if f == "json".to_string() {
        Ok(ListFormat::Json)
    } else {
        let mut m: Vec<char> = Vec::new();
        extend_str(&mut m, "invalid --format '");
        extend_str(&mut m, f.as_str());
        extend_str(&mut m, "' (expected text | json | md)");
        Err(Error::Usage(string_of(&m)))
    }
}

/// An optional string, or nothing.
pub open spec fn or_empty(o: Option<String>) -> Seq<char> {
    match o {
        Some(s) => s@,
        None => seq![],
    }
}

/// The header line of a listed cut: `ts - model`, then ` - user` when the
/// user is known.
pub open spec fn text_header(c: Cut) -> Seq<char> {
    shown_ts(c.ts@) + " - "@ + or_empty(c.model) + match c.user {
        Some(u) => " - "@ + u@,
        None => seq![],
    }
}

/// A listed cut: its header, a blank line, and its wrapped body.
pub open spec fn text_entry(c: Cut) -> Seq<char> {
    text_header(c) + "\n\n"@ + wrapped(c.text@, 80)
}

/// The number of `cuts` whose id is not among the `resolved` ids.
pub open spec fn open_among(cuts: Seq<Cut>, resolved: Seq<Seq<char>>) -> nat
    decreases cuts.len(),
{
    if cuts.len() == 0 {
        0
    } else {
        open_among(cuts.drop_last(), resolved) + if resolved.contains(cuts.last().id@) {
            0nat
        } else {
            1nat
        }
    }
}

/// The line that counts the open papercuts, and a blank line:
/// `1 open papercut`, `3 open papercuts`.
pub open spec fn count_line(n: nat) -> Seq<char> {
    decimal(n) + " open papercut"@ + (if n == 1 {
        seq![]
    } else {
        "s"@
    }) + "\n\n"@
}

/// The human-readable listing: the count of open papercuts among the listed
/// cuts, then the entries separated by `---` lines.
pub open spec fn text_listing(cuts: Seq<Cut>, resolved: Seq<Seq<char>>) -> Seq<char> {
    if cuts.len() == 0 {
        "No open papercuts.\n"@
    } else {
        count_line(open_among(cuts, resolved)) + join(
            cuts.map_values(|c: Cut| text_entry(c)),
            "\n\n---\n\n"@,
        ) + "\n"@
    }
}

fn extend_opt(v: &mut Vec<char>, o: &Option<String>)
    ensures
        final(v)@ == old(v)@ + or_empty(*o),
{
    match o {
        Some(s) => extend_str(v, s.as_str()),
        None => {
            assert(old(v)@ + seq![] == old(v)@);
        },
    }
}

/// Human-readable `list`: a line counting the open papercuts among the
/// listed cuts (those whose id is not in `resolved`), then per cut a header
/// line (`ts - model - user`), a blank line and the body wrapped to 80
/// columns; cuts are separated by a `---` line.
pub fn render_text(cuts: &Vec<&Cut>, resolved: &Vec<String>) -> (res: String)
    ensures
        res@ == text_listing(cut_values(cuts@), views(resolved@)),
{
    if cuts.len() == 0 {
        return "No open papercuts.\n".to_string();
    }
    let mut entries: Vec<Vec<char>> = Vec::new();
    let mut open: usize = 0;
    for i in 0..cuts.len()
        invariant
            vviews(entries@) == cut_values(cuts@).take(i as int).map_values(|c: Cut| text_entry(c)),
            open == open_among(cut_values(cuts@).take(i as int), views(resolved@)),
            open <= i,
    {
        let c = &cuts[i];
        assert(cut_values(cuts@).take(i + 1).drop_last() == cut_values(cuts@).take(i as int));
        assert(cut_values(cuts@).take(i + 1).last() == **c);
        if !contains_string(resolved, &c.id) {
            open = open + 1;
        }
        let mut e = chars_of(format_ts(c.ts.as_str()).as_str());
        extend_str(&mut e, " - ");
        extend_opt(&mut e, &c.model);
        match &c.user {
            Some(u) => {
                extend_str(&mut e, " - ");
                extend_str(&mut e, u.as_str());
            },
            None => {},
        }
        assert(e@ == text_header(**c));
        extend_str(&mut e, "\n\n");
        let body = wrap(c.text.as_str(), 80);
        extend_str(&mut e, body.as_str());
        let ghost old_entries = vviews(entries@);
        entries.push(e);
        assert(vviews(entries@) == old_entries.push(text_entry(**c)));
        assert(cut_values(cuts@).take(i + 1) == cut_values(cuts@).take(i as int).push(**c));
    }
    assert(cut_values(cuts@).take(cuts.len() as int) == cut_values(cuts@));
    let mut out = decimal_chars(open);
    extend_str(&mut out, " open papercut");
    if open != 1 {
        extend_str(&mut out, "s");
    } else {
        assert(out@ + seq![] == out@);
    }
    extend_str(&mut out, "\n\n");
    let sep = chars_of("\n\n---\n\n");
    let joined = join_chars(&entries, &sep);
    extend_chars(&mut out, &joined);
    extend_str(&mut out, "\n");
    string_of(&out)
}

/// A Markdown digest entry: a checkbox (ticked when resolved), the id in
/// code, the timestamp, model and user, and the body on the next line.
pub open spec fn md_entry(c: Cut, resolved: Seq<Seq<char>>) -> Seq<char> {
    "- "@ + (if resolved.contains(c.id@) {
        "[x]"@
    } else {
        "[ ]"@
    }) + " `"@ + c.id@ + "` — "@ + shown_ts(c.ts@) + " — "@ + or_empty(c.model) + " — "@
        + or_empty(c.user) + "\n  "@ + c.text@ + "\n"@
}

/// The entries of a Markdown digest, joined.
pub open spec fn md_entries(cuts: Seq<Cut>, resolved: Seq<Seq<char>>) -> Seq<char>
    decreases cuts.len(),
{
    if cuts.len() == 0 {
        seq![]
    } else {
        md_entries(cuts.drop_last(), resolved) + md_entry(cuts.last(), resolved)
    }
}

/// The Markdown digest.
pub open spec fn md_listing(cuts: Seq<Cut>, resolved: Seq<Seq<char>>) -> Seq<char> {
    "# Papercuts\n\n"@ + if cuts.len() == 0 {
        "_No open papercuts._\n"@
    } else {
        "## Open ("@ + decimal(cuts.len()) + ")\n\n"@ + md_entries(cuts, resolved)
    }
}

/// One Markdown digest entry.
fn md_entry_chars(c: &Cut, resolved: &Vec<String>) -> (res: Vec<char>)
    ensures
        res@ == md_entry(*c, views(resolved@)),
{
    let mut e: Vec<char> = chars_of("- ");
    if contains_string(resolved, &c.id) {
        extend_str(&mut e, "[x]");
    } else {
        extend_str(&mut e, "[ ]");
    }
    extend_str(&mut e, " `");
    extend_str(&mut e, c.id.as_str());
    extend_str(&mut e, "` — ");
    let ts = format_ts(c.ts.as_str());
    extend_str(&mut e, ts.as_str());
    extend_str(&mut e, " — ");
    extend_opt(&mut e, &c.model);
    extend_str(&mut e, " — ");
    extend_opt(&mut e, &c.user);
    extend_str(&mut e, "\n  ");
    extend_str(&mut e, c.text.as_str());
    extend_str(&mut e, "\n");
    e
}

/// Where a cut stands in the Markdown digest: blockers first, then major
/// ones, then the rest (minor, or filed without a severity).
pub open spec fn severity_rank(c: Cut) -> nat {
    match c.severity {
        Some(s) => if s@ == "blocker"@ {
            0
        } else if s@ == "major"@ {
            1
        } else {
            2
        },
        None => 2,
    }
}

/// The cuts of rank `r`, in order.
pub open spec fn of_rank(cuts: Seq<Cut>, r: nat) -> Seq<Cut>
    decreases cuts.len(),
{
    if cuts.len() == 0 {
        seq![]
    } else if severity_rank(cuts.last()) == r {
        of_rank(cuts.drop_last(), r).push(cuts.last())
    } else {
        of_rank(cuts.drop_last(), r)
    }
}

/// The cuts ordered severity first: blockers, then major, then the rest,
/// each group in the order given.
pub open spec fn severity_first(cuts: Seq<Cut>) -> Seq<Cut> {
    of_rank(cuts, 0) + of_rank(cuts, 1) + of_rank(cuts, 2)
}

/// Whether two character sequences are the same.
fn same_chars(a: &Vec<char>, b: &Vec<char>) -> (res: bool)
    ensures
        res == (a@ == b@),
{
    if a.len() != b.len() {
        return false;
    }
    let res = starts_with(a, b);
    assert(a@.take(a@.len() as int) == a@);
    res
}

/// Executable `severity_rank`.
fn rank_of(c: &Cut) -> (r: usize)
    ensures
        r == severity_rank(*c),
{
    match &c.severity {
        Some(s) => {
            let cs = chars_of(s.as_str());
            let blocker = chars_of("blocker");
            let major = chars_of("major");
            if same_chars(&cs, &blocker) {
                0
            } else if same_chars(&cs, &major) {
                1
            } else {
                2
            }
        },
        None => 2,
    }
}

/// The cuts reordered severity first.
fn order_by_severity<'a>(cuts: &Vec<&'a Cut>) -> (res: Vec<&'a Cut>)
    ensures
        cut_values(res@) == severity_first(cut_values(cuts@)),
{
    let ghost cv = cut_values(cuts@);
    let mut res: Vec<&'a Cut> = Vec::new();
    let mut r: usize = 0;
    while r < 3
        invariant
            cv == cut_values(cuts@),
            r <= 3,
            r == 0 ==> cut_values(res@) == Seq::<Cut>::empty(),
            r == 1 ==> cut_values(res@) == of_rank(cv, 0),
            r == 2 ==> cut_values(res@) == of_rank(cv, 0) + of_rank(cv, 1),
            r == 3 ==> cut_values(res@) == severity_first(cv),
        decreases 3 - r,
    {
        let ghost before = cut_values(res@);
        for i in 0..cuts.len()
            invariant
                cv == cut_values(cuts@),
                r < 3,
                cut_values(res@) == before + of_rank(cv.take(i as int), r as nat),
        {
            assert(cv.take(i + 1).drop_last() == cv.take(i as int));
            assert(cv.take(i + 1).last() == *cuts@[i as int]);
            if rank_of(cuts[i]) == r {
                let ghost old_res = res@;
                res.push(cuts[i]);
                assert(cut_values(res@) == cut_values(old_res).push(*cuts@[i as int]));
            }
        }
        assert(cv.take(cuts.len() as int) == cv);
        proof {
            if r == 0 {
                assert(before + of_rank(cv, 0) == of_rank(cv, 0));
            }
        }
        r = r + 1;
    }
    res
}

/// Markdown `list`: a title, the number of listed cuts, and one checklist
/// entry per cut, severity first.
pub fn render_markdown(cuts: &Vec<&Cut>, resolved: &Vec<String>) -> (res: String)
    ensures
        res@ == md_listing(severity_first(cut_values(cuts@)), views(resolved@)),
{
    let cuts = order_by_severity(cuts);
    let mut out: Vec<char> = Vec::new();
    extend_str(&mut out, "# Papercuts\n\n");
    if cuts.len() == 0 {
        extend_str(&mut out, "_No open papercuts._\n");
        return string_of(&out);
    }
    let mut body: Vec<char> = Vec::new();
    extend_str(&mut body, "## Open (");
    let n = decimal_chars(cuts.len());
    extend_chars(&mut body, &n);
    extend_str(&mut body, ")\n\n");
    let mut entries: Vec<char> = Vec::new();
    for i in 0..cuts.len()
        invariant
            entries@ == md_entries(cut_values(cuts@).take(i as int), views(resolved@)),
    {
        assert(cut_values(cuts@).take(i + 1).drop_last() == cut_values(cuts@).take(i as int));
        assert(cut_values(cuts@).take(i + 1).last() == *cuts@[i as int]);
        let e = md_entry_chars(&cuts[i], resolved);
        extend_chars(&mut entries, &e);
    }
    assert(cut_values(cuts@).take(cuts.len() as int) == cut_values(cuts@));
    extend_chars(&mut body, &entries);
    extend_chars(&mut out, &body);
    string_of(&out)
}

/// Every cut of rank `r` among `cuts` has rank `r`.
proof fn lemma_of_rank_ranks(cuts: Seq<Cut>, r: nat)
    ensures
        forall|k: int| 0 <= k < of_rank(cuts, r).len() ==> severity_rank(#[trigger] of_rank(cuts, r)[k]) == r,
    decreases cuts.len(),
{
    if cuts.len() > 0 {
        let prev = of_rank(cuts.drop_last(), r);
        lemma_of_rank_ranks(cuts.drop_last(), r);
        assert forall|k: int| 0 <= k < of_rank(cuts, r).len() implies severity_rank(
            #[trigger] of_rank(cuts, r)[k],
        ) == r by {
            if k < prev.len() {
                assert(of_rank(cuts, r)[k] == prev[k]);
            }
        }
    }
}

/// The three rank groups together hold every cut.
proof fn lemma_of_rank_multiset(cuts: Seq<Cut>)
    ensures
        severity_first(cuts).to_multiset() == cuts.to_multiset(),
    decreases cuts.len(),
{
    broadcast use vstd::seq_lib::to_multiset_build, vstd::seq_lib::lemma_multiset_commutative;
    broadcast use vstd::multiset::group_multiset_axioms;
    if cuts.len() == 0 {
        broadcast use vstd::seq_lib::to_multiset_len, vstd::multiset::lemma_multiset_empty_len;
        assert(severity_first(cuts).to_multiset().len() == 0);
        assert(cuts.to_multiset().len() == 0);
    } else {
        let prev = cuts.drop_last();
        let c = cuts.last();
        lemma_of_rank_multiset(prev);
        assert(cuts == prev.push(c));
        let (a, b, d) = (of_rank(prev, 0), of_rank(prev, 1), of_rank(prev, 2));
        assert(severity_first(prev).to_multiset() =~= a.to_multiset().add(b.to_multiset()).add(d.to_multiset()));
        if severity_rank(c) == 0 {
            assert(severity_first(cuts).to_multiset() =~= a.push(c).to_multiset().add(b.to_multiset()).add(d.to_multiset()));
        } else if severity_rank(c) == 1 {
            assert(severity_first(cuts).to_multiset() =~= a.to_multiset().add(b.push(c).to_multiset()).add(d.to_multiset()));
        } else {
            assert(severity_first(cuts).to_multiset() =~= a.to_multiset().add(b.to_multiset()).add(d.push(c).to_multiset()));
        }
    }
}

/// The Markdown digest lists every cut it is given, as often as given, and
/// no cut of a lesser severity before a graver one.
pub proof fn law_digest_is_severity_first(cuts: Seq<Cut>)
    ensures
        severity_first(cuts).to_multiset() == cuts.to_multiset(),
        forall|i: int, j: int|
            0 <= i < j < severity_first(cuts).len() ==> severity_rank(#[trigger] severity_first(cuts)[i])
                <= severity_rank(#[trigger] severity_first(cuts)[j]),
{
    lemma_of_rank_multiset(cuts);
    lemma_of_rank_ranks(cuts, 0);
    lemma_of_rank_ranks(cuts, 1);
    lemma_of_rank_ranks(cuts, 2);
    let (a, b, d) = (of_rank(cuts, 0), of_rank(cuts, 1), of_rank(cuts, 2));
    let f = severity_first(cuts);
    assert forall|i: int, j: int| 0 <= i < j < f.len() implies severity_rank(#[trigger] f[i])
        <= severity_rank(#[trigger] f[j]) by {
        assert forall|k: int| 0 <= k < f.len() implies severity_rank(#[trigger] f[k]) == (if k < a.len() {
            0nat
        } else if k < a.len() + b.len() {
            1nat
        } else {
            2nat
        }) by {
            if k < a.len() {
                assert(f[k] == a[k]);
            } else if k < a.len() + b.len() {
                assert(f[k] == b[k - a.len()]);
            } else {
                assert(f[k] == d[k - a.len() - b.len()]);
            }
        }
    }
}

/// `s` holds no whitespace.
pub open spec fn no_ws(s: Seq<char>) -> bool {
    forall|k: int| 0 <= k < s.len() ==> !is_ws(#[trigger] s[k])
}

/// Words are non-empty and hold no whitespace.
proof fn lemma_word_split_shape(s: Seq<char>)
    ensures
        forall|i: int|
            0 <= i < word_split(s).0.len() ==> (#[trigger] word_split(s).0[i]).len() > 0 && no_ws(
                word_split(s).0[i],
            ),
        no_ws(word_split(s).1),
    decreases s.len(),
{
    if s.len() > 0 {
        lemma_word_split_shape(s.drop_last());
        let (done, cur) = word_split(s.drop_last());
        if !is_ws(s.last()) {
            let c2 = cur.push(s.last());
            assert forall|k: int| 0 <= k < c2.len() implies !is_ws(#[trigger] c2[k]) by {
                if k < cur.len() {
                    assert(c2[k] == cur[k]);
                }
            }
        }
    }
}

/// The words of a text are non-empty and hold no whitespace.
proof fn lemma_words_shape(s: Seq<char>)
    ensures
        forall|i: int|
            0 <= i < words(s).len() ==> (#[trigger] words(s)[i]).len() > 0 && no_ws(words(s)[i]),
{
    lemma_word_split_shape(s);
}

/// A wrapped line fits the width, or holds a single word.
pub open spec fn fits(line: Seq<char>, width: nat) -> bool {
    byte_len(line) <= width || no_ws(line)
}

proof fn lemma_wrap_fold_fits(ws: Seq<Seq<char>>, width: nat)
    requires
        forall|i: int| 0 <= i < ws.len() ==> no_ws(#[trigger] ws[i]),
    ensures
        forall|i: int|
            0 <= i < wrap_fold(ws, width).0.len() ==> fits(#[trigger] wrap_fold(ws, width).0[i], width),
        fits(wrap_fold(ws, width).1, width),
    decreases ws.len(),
{
    if ws.len() == 0 {
        assert(byte_len(Seq::<char>::empty()) == 0) by {
            assert(vstd::utf8::encode_utf8(Seq::<char>::empty()) == Seq::<u8>::empty());
        }
    } else {
        let prev = ws.drop_last();
        assert forall|i: int| 0 <= i < prev.len() implies no_ws(#[trigger] prev[i]) by {
            assert(prev[i] == ws[i]);
        }
        lemma_wrap_fold_fits(prev, width);
        let (lines0, line0) = wrap_fold(prev, width);
        let word = ws.last();
        assert(no_ws(ws[ws.len() - 1]));
        if line0.len() > 0 && byte_len(line0) + 1 + byte_len(word) > width {
            let lines1 = lines0.push(line0);
            assert forall|i: int| 0 <= i < lines1.len() implies fits(#[trigger] lines1[i], width) by {
                if i < lines0.len() {
                    assert(lines1[i] == lines0[i]);
                }
            }
        } else if line0.len() > 0 {
            let nl = line0 + seq![' '] + word;
            lemma_encode_concat(line0 + seq![' '], word);
            lemma_byte_len_push(line0, ' ');
            assert(line0 + seq![' '] == line0.push(' '));
            assert(byte_len(nl) == byte_len(line0) + 1 + byte_len(word));
        }
    }
}

/// Every line of a wrapped text fits the width, unless it is a single word
/// longer than the width.
pub proof fn law_wrapped_lines_fit(text: Seq<char>, width: nat)
    ensures
        forall|i: int|
            0 <= i < wrapped_lines(text, width).len() ==> fits(
                #[trigger] wrapped_lines(text, width)[i],
                width,
            ),
{
    lemma_words_shape(text);
    let ws = words(text);
    lemma_wrap_fold_fits(ws, width);
    let (lines, line) = wrap_fold(ws, width);
    if line.len() > 0 {
        let all = lines.push(line);
        assert forall|i: int| 0 <= i < all.len() implies fits(#[trigger] all[i], width) by {
            if i < lines.len() {
                assert(all[i] == lines[i]);
            }
        }
    }
}

/// The first word of a line: everything before its first space.
pub open spec fn first_word(s: Seq<char>) -> Seq<char>
    decreases s.len(),
{
    if s.len() == 0 || s[0] == ' ' {
        seq![]
    } else {
        seq![s[0]] + first_word(s.drop_first())
    }
}

/// A word without whitespace is its own first word.
proof fn lemma_first_word_of_word(w: Seq<char>)
    requires
        no_ws(w),
    ensures
        first_word(w) == w,
    decreases w.len(),
{
    if w.len() > 0 {
        assert(is_ws(' '));
        assert(!is_ws(w[0]));
        assert forall|k: int| 0 <= k < w.drop_first().len() implies !is_ws(#[trigger] w.drop_first()[k]) by {
            assert(w.drop_first()[k] == w[k + 1]);
        }
        lemma_first_word_of_word(w.drop_first());
        assert(w == seq![w[0]] + w.drop_first());
    }
}

/// Appending a space and more text keeps a line's first word.
proof fn lemma_first_word_append(l: Seq<char>, w: Seq<char>)
    ensures
        first_word(l + seq![' '] + w) == first_word(l),
    decreases l.len(),
{
    let x = l + seq![' '] + w;
    if l.len() == 0 {
        assert(x[0] == ' ');
    } else {
        assert(x[0] == l[0]);
        if l[0] != ' ' {
            assert(x.drop_first() == l.drop_first() + seq![' '] + w);
            lemma_first_word_append(l.drop_first(), w);
        }
    }
}

proof fn lemma_wrap_fold_greedy(ws: Seq<Seq<char>>, width: nat)
    requires
        forall|i: int| 0 <= i < ws.len() ==> (#[trigger] ws[i]).len() > 0 && no_ws(ws[i]),
    ensures
        ({
            let (lines, line) = wrap_fold(ws, width);
            &&& line.len() == 0 ==> lines.len() == 0
            &&& forall|i: int|
                0 <= i < lines.len() - 1 ==> byte_len(#[trigger] lines[i]) + 1 + byte_len(
                    first_word(lines[i + 1]),
                ) > width
            &&& lines.len() > 0 ==> byte_len(lines.last()) + 1 + byte_len(first_word(line)) > width
        }),
    decreases ws.len(),
{
    if ws.len() > 0 {
        let prev = ws.drop_last();
        assert forall|i: int| 0 <= i < prev.len() implies (#[trigger] prev[i]).len() > 0 && no_ws(prev[i]) by {
            assert(prev[i] == ws[i]);
        }
        lemma_wrap_fold_greedy(prev, width);
        let (lines0, line0) = wrap_fold(prev, width);
        let word = ws.last();
        assert(word.len() > 0 && no_ws(ws[ws.len() - 1]));
        lemma_first_word_of_word(word);
        if line0.len() > 0 && byte_len(line0) + 1 + byte_len(word) > width {
            let lines1 = lines0.push(line0);
            assert forall|i: int| 0 <= i < lines1.len() - 1 implies byte_len(#[trigger] lines1[i]) + 1
                + byte_len(first_word(lines1[i + 1])) > width by {
                assert(lines1[i] == lines0[i]);
                if i + 1 < lines0.len() {
                    assert(lines1[i + 1] == lines0[i + 1]);
                } else {
                    assert(lines1[i + 1] == line0);
                }
            }
        } else if line0.len() > 0 {
            lemma_first_word_append(line0, word);
        }
    }
}

/// The wrap is greedy: no line could have taken the first word of the line
/// after it, since that word, after a space, would overflow the width.
pub proof fn law_wrap_is_greedy(text: Seq<char>, width: nat)
    ensures
        forall|i: int|
            0 <= i < wrapped_lines(text, width).len() - 1 ==> byte_len(
                #[trigger] wrapped_lines(text, width)[i],
            ) + 1 + byte_len(first_word(wrapped_lines(text, width)[i + 1])) > width,
{
    lemma_words_shape(text);
    let ws = words(text);
    lemma_wrap_fold_greedy(ws, width);
    let (lines, line) = wrap_fold(ws, width);
    let all = wrapped_lines(text, width);
    if line.len() > 0 {
        assert forall|i: int| 0 <= i < all.len() - 1 implies byte_len(#[trigger] all[i]) + 1 + byte_len(
            first_word(all[i + 1]),
        ) > width by {
            assert(all[i] == lines[i]);
            if i + 1 < lines.len() {
                assert(all[i + 1] == lines[i + 1]);
            } else {
                assert(all[i + 1] == line);
            }
        }
    }
}

/// `line` is non-empty words joined by single spaces: it neither starts
/// nor ends with whitespace, and its only whitespace is single spaces.
pub open spec fn single_spaced(line: Seq<char>) -> bool {
    &&& line.len() > 0
    &&& !is_ws(line[0])
    &&& !is_ws(line.last())
    &&& forall|k: int|
        0 <= k < line.len() && is_ws(#[trigger] line[k]) ==> line[k] == ' ' && k + 1 < line.len()
            && !is_ws(line[k + 1])
}

proof fn lemma_wrap_fold_spaced(ws: Seq<Seq<char>>, width: nat)
    requires
        forall|i: int| 0 <= i < ws.len() ==> (#[trigger] ws[i]).len() > 0 && no_ws(ws[i]),
    ensures
        forall|i: int| 0 <= i < wrap_fold(ws, width).0.len() ==> single_spaced(#[trigger] wrap_fold(ws, width).0[i]),
        wrap_fold(ws, width).1.len() > 0 ==> single_spaced(wrap_fold(ws, width).1),
    decreases ws.len(),
{
    if ws.len() > 0 {
        let prev = ws.drop_last();
        assert forall|i: int| 0 <= i < prev.len() implies (#[trigger] prev[i]).len() > 0 && no_ws(prev[i]) by {
            assert(prev[i] == ws[i]);
        }
        lemma_wrap_fold_spaced(prev, width);
        let (lines0, line0) = wrap_fold(prev, width);
        let word = ws.last();
        assert(word.len() > 0 && no_ws(ws[ws.len() - 1]));
        assert(!is_ws(word[0]) && !is_ws(word.last()));
        if line0.len() > 0 && byte_len(line0) + 1 + byte_len(word) > width {
            let lines1 = lines0.push(line0);
            assert forall|i: int| 0 <= i < lines1.len() implies single_spaced(#[trigger] lines1[i]) by {
                if i < lines0.len() {
                    assert(lines1[i] == lines0[i]);
                }
            }
        } else if line0.len() > 0 {
            let nl = line0 + seq![' '] + word;
            let n = line0.len();
            assert(nl[0] == line0[0]);
            assert(nl.last() == word.last());
            assert forall|k: int| 0 <= k < nl.len() && is_ws(#[trigger] nl[k]) implies nl[k] == ' ' && k + 1
                < nl.len() && !is_ws(nl[k + 1]) by {
                if k < n {
                    assert(nl[k] == line0[k]);
                    if k + 1 < n {
                        assert(nl[k + 1] == line0[k + 1]);
                    } else {
                        assert(line0[k] == line0.last());
                    }
                } else if k == n {
                    assert(nl[k + 1] == word[0]);
                } else {
                    assert(nl[k] == word[k - n - 1]);
                }
            }
        }
    }
}

/// Every line of a wrapped text is words joined by single spaces.
pub proof fn law_wrapped_lines_single_spaced(text: Seq<char>, width: nat)
    ensures
        forall|i: int|
            0 <= i < wrapped_lines(text, width).len() ==> single_spaced(
                #[trigger] wrapped_lines(text, width)[i],
            ),
{
    lemma_words_shape(text);
    let ws = words(text);
    lemma_wrap_fold_spaced(ws, width);
    let (lines, line) = wrap_fold(ws, width);
    let all = wrapped_lines(text, width);
    if line.len() > 0 {
        assert forall|i: int| 0 <= i < all.len() implies single_spaced(#[trigger] all[i]) by {
            if i < lines.len() {
                assert(all[i] == lines[i]);
            }
        }
    }
}

/// A whitespace character ends the current word.
proof fn lemma_word_split_ws(a: Seq<char>, c: char)
    requires
        is_ws(c),
    ensures
        word_split(a.push(c)) == (words(a), Seq::<char>::empty()),
{
    assert(a.push(c).drop_last() == a);
}

/// After a completed word, splitting goes on independently.
proof fn lemma_word_split_concat(x: Seq<char>, y: Seq<char>)
    requires
        word_split(x).1.len() == 0,
    ensures
        word_split(x + y) == (word_split(x).0 + word_split(y).0, word_split(y).1),
    decreases y.len(),
{
    if y.len() == 0 {
        assert(x + y == x);
        assert(word_split(x).0 + Seq::<Seq<char>>::empty() == word_split(x).0);
    } else {
        lemma_word_split_concat(x, y.drop_last());
        assert((x + y).drop_last() == x + y.drop_last());
        assert((x + y).last() == y.last());
        let (d0, c0) = word_split(y.drop_last());
        if is_ws(y.last()) && c0.len() > 0 {
            assert(word_split(x).0 + d0.push(c0) == (word_split(x).0 + d0).push(c0));
        }
    }
}

/// A single word splits into itself.
proof fn lemma_words_of_word(w: Seq<char>)
    requires
        no_ws(w),
    ensures
        word_split(w) == (Seq::<Seq<char>>::empty(), w),
    decreases w.len(),
{
    if w.len() > 0 {
        let p = w.drop_last();
        assert forall|k: int| 0 <= k < p.len() implies !is_ws(#[trigger] p[k]) by {
            assert(p[k] == w[k]);
        }
        lemma_words_of_word(p);
        assert(!is_ws(w[w.len() - 1]));
        assert(p.push(w.last()) == w);
    }
}

/// Whitespace and a word appended to a text add that word to its words.
proof fn lemma_words_append_word(j: Seq<char>, c: char, w: Seq<char>)
    requires
        is_ws(c),
        w.len() > 0,
        no_ws(w),
    ensures
        words(j + seq![c] + w) == words(j).push(w),
{
    lemma_word_split_ws(j, c);
    assert(j + seq![c] == j.push(c));
    lemma_word_split_concat(j.push(c), w);
    lemma_words_of_word(w);
    assert(words(j) + Seq::<Seq<char>>::empty() == words(j));
}

/// The lines of a wrap in progress, joined.
pub open spec fn wrap_text(lines: Seq<Seq<char>>, line: Seq<char>) -> Seq<char> {
    join(
        if line.len() > 0 {
            lines.push(line)
        } else {
            lines
        },
        seq!['\n'],
    )
}

proof fn lemma_wrap_fold_words(ws: Seq<Seq<char>>, width: nat)
    requires
        forall|i: int| 0 <= i < ws.len() ==> (#[trigger] ws[i]).len() > 0 && no_ws(ws[i]),
    ensures
        words(wrap_text(wrap_fold(ws, width).0, wrap_fold(ws, width).1)) == ws,
        wrap_fold(ws, width).0.len() > 0 ==> wrap_fold(ws, width).1.len() > 0,
    decreases ws.len(),
{
    if ws.len() == 0 {
        assert(words(Seq::<char>::empty()) == Seq::<Seq<char>>::empty());
        assert(ws =~= Seq::<Seq<char>>::empty());
    } else {
        let prev = ws.drop_last();
        assert forall|i: int| 0 <= i < prev.len() implies (#[trigger] prev[i]).len() > 0 && no_ws(
            prev[i],
        ) by {
            assert(prev[i] == ws[i]);
        }
        lemma_wrap_fold_words(prev, width);
        let (lines0, line0) = wrap_fold(prev, width);
        let word = ws.last();
        assert(word.len() > 0 && no_ws(word)) by {
            assert(ws[ws.len() - 1] == word);
        }
        let j0 = wrap_text(lines0, line0);
        assert(ws == prev.push(word));
        if line0.len() > 0 && byte_len(line0) + 1 + byte_len(word) > width {
            let full = lines0.push(line0);
            assert(full.push(word).drop_last() == full);
            lemma_words_append_word(j0, '\n', word);
        } else if line0.len() == 0 {
            if lines0.len() == 0 {
                assert(j0 == Seq::<char>::empty());
                lemma_words_of_word(word);
                assert(seq![word][0] == word);
            } else {
                assert(lines0.push(word).drop_last() == lines0);
                lemma_words_append_word(j0, '\n', word);
            }
        } else {
            let nl = line0 + seq![' '] + word;
            lemma_words_append_word(j0, ' ', word);
            if lines0.len() == 0 {
                assert(seq![line0][0] == line0);
                assert(seq![nl][0] == nl);
                assert(j0 + seq![' '] + word == nl);
            } else {
                assert(lines0.push(line0).drop_last() == lines0);
                assert(lines0.push(nl).drop_last() == lines0);
                let jl = join(lines0, seq!['\n']);
                assert(jl + seq!['\n'] + line0 + seq![' '] + word == jl + seq!['\n'] + nl);
            }
        }
    }
}

/// Wrapping loses, adds and reorders no word: the words of the wrapped text
/// are the words of the text.
pub proof fn law_wrap_keeps_words(text: Seq<char>, width: nat)
    ensures
        words(wrapped(text, width)) == words(text),
{
    lemma_words_shape(text);
    lemma_wrap_fold_words(words(text), width);
}

} // verus!
