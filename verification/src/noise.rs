//! Removal of model-flag noise from a complaint's text.
//!
//! Agents sometimes append "and -m was a problem too" to a gripe after the
//! required-model rejection. Such clauses are tooling noise, not papercuts.

use vstd::prelude::*;
use crate::text::{
    chars_of, contains_folded, extend_chars, folded_contains, folded_match_at, lemma_trim_empty_all_ws,
    lemma_trim_part, lemma_trim_ws_suffix, lower_code, string_of, trim, trim_chars,
};

verus! {

/// A character that ends a clause.
pub open spec fn is_clause_end(c: char) -> bool {
    c == '.' || c == '!' || c == '?' || c == ';' || c == ',' || c == '\n'
}

/// The tokens that name the model flag, in lower case.
pub open spec fn flag_tokens() -> Seq<Seq<char>> {
    seq![
        seq!['-', 'm'],
        seq!['-', '-', 'm', 'o', 'd', 'e', 'l'],
        seq!['p', 'a', 'p', 'e', 'r', 'c', 'u', 't', 's', '_', 'm', 'o', 'd', 'e', 'l'],
        seq!['m', 'o', 'd', 'e', 'l', ' ', 'f', 'l', 'a', 'g'],
        seq!['m', 'o', 'd', 'e', 'l', ' ', 'a', 'r', 'g', 'u', 'm', 'e', 'n', 't'],
    ]
}

/// The lowercased clause mentions the model flag: `-m`, `--model`,
/// `papercuts_model`, `model flag` or `model argument`.
pub open spec fn mentions_flag(clause: Seq<char>) -> bool {
    exists|t: int| 0 <= t < flag_tokens().len() && folded_contains(clause, #[trigger] flag_tokens()[t])
}

/// The clauses of `s`: the complete ones, each ending in a clause end, and the
/// unfinished tail.
pub open spec fn clause_split(s: Seq<char>) -> (Seq<Seq<char>>, Seq<char>)
    decreases s.len(),
{
    if s.len() == 0 {
        (seq![], seq![])
    } else {
        let (done, cur) = clause_split(s.drop_last());
        let cur = cur.push(s.last());
        if is_clause_end(s.last()) {
            (done.push(cur), seq![])
        } else {
            (done, cur)
        }
    }
}

/// The complete clauses that do not mention the model flag, joined.
pub open spec fn kept_clauses(done: Seq<Seq<char>>) -> Seq<char>
    decreases done.len(),
{
    if done.len() == 0 {
        seq![]
    } else if mentions_flag(done.last()) {
        kept_clauses(done.drop_last())
    } else {
        kept_clauses(done.drop_last()) + done.last()
    }
}

/// All clauses joined.
pub open spec fn joined(done: Seq<Seq<char>>) -> Seq<char>
    decreases done.len(),
{
    if done.len() == 0 {
        seq![]
    } else {
        joined(done.drop_last()) + done.last()
    }
}

/// The tail is kept when it holds more than whitespace and does not mention
/// the flag.
pub open spec fn kept_tail(tail: Seq<char>) -> Seq<char> {
    if trim(tail).len() > 0 && !mentions_flag(tail) {
        tail
    } else {
        seq![]
    }
}

/// The complaint text with every clause that mentions the model flag
/// removed, then trimmed.
pub open spec fn stripped(s: Seq<char>) -> Seq<char> {
    let (done, tail) = clause_split(s);
    trim(kept_clauses(done) + kept_tail(tail))
}

/// Splitting into clauses loses nothing: the complete clauses and the tail,
/// joined, give back the text.
pub proof fn lemma_clauses_rejoin(s: Seq<char>)
    ensures
        joined(clause_split(s).0) + clause_split(s).1 == s,
    decreases s.len(),
{
    if s.len() > 0 {
        let (done, cur) = clause_split(s.drop_last());
        lemma_clauses_rejoin(s.drop_last());
        assert(s == s.drop_last().push(s.last()));
        if is_clause_end(s.last()) {
            assert(done.push(cur.push(s.last())).drop_last() == done);
        }
    }
}

/// With no clause mentioning the flag, every complete clause is kept.
proof fn lemma_all_kept(done: Seq<Seq<char>>)
    requires
        forall|i: int| 0 <= i < done.len() ==> !mentions_flag(#[trigger] done[i]),
    ensures
        kept_clauses(done) == joined(done),
    decreases done.len(),
{
    if done.len() > 0 {
        lemma_all_kept(done.drop_last());
    }
}

/// A complaint in which no clause mentions the model flag is only trimmed:
/// "the model gave a wrong answer" stays as it is.
pub proof fn law_no_flag_only_trims(text: Seq<char>)
    requires
        forall|i: int|
            0 <= i < clause_split(text).0.len() ==> !mentions_flag(#[trigger] clause_split(text).0[i]),
        !mentions_flag(clause_split(text).1),
    ensures
        stripped(text) == trim(text),
{
    let (done, tail) = clause_split(text);
    lemma_clauses_rejoin(text);
    lemma_all_kept(done);
    if trim(tail).len() == 0 {
        lemma_trim_empty_all_ws(tail);
        lemma_trim_ws_suffix(joined(done), tail);
        assert(joined(done) + seq![] == joined(done));
    }
}

/// A character that can occur in a flag token.
spec fn token_char(c: char) -> bool {
    c == '-' || c == '_' || c == ' ' || ('a' <= c && c <= 'z')
}

/// No flag token holds a clause end: every character of every token is a
/// lower-case letter, `-`, `_` or a space.
proof fn lemma_token_chars()
    ensures
        forall|t: int, k: int|
            0 <= t < flag_tokens().len() && 0 <= k < flag_tokens()[t].len() ==> token_char(
                #[trigger] flag_tokens()[t][k],
            ),
{
    assert forall|t: int, k: int|
        0 <= t < flag_tokens().len() && 0 <= k < flag_tokens()[t].len() implies token_char(
        #[trigger] flag_tokens()[t][k],
    ) by {
        if t == 0 {
            assert(flag_tokens()[0] =~= seq!['-', 'm']);
        } else if t == 1 {
            assert(flag_tokens()[1] =~= seq!['-', '-', 'm', 'o', 'd', 'e', 'l']);
        } else if t == 2 {
            assert(flag_tokens()[2] =~= seq![
                'p', 'a', 'p', 'e', 'r', 'c', 'u', 't', 's', '_', 'm', 'o', 'd', 'e', 'l',
            ]);
        } else if t == 3 {
            assert(flag_tokens()[3] =~= seq!['m', 'o', 'd', 'e', 'l', ' ', 'f', 'l', 'a', 'g']);
        } else {
            assert(flag_tokens()[4] =~= seq![
                'm', 'o', 'd', 'e', 'l', ' ', 'a', 'r', 'g', 'u', 'm', 'e', 'n', 't',
            ]);
        }
    }
}

/// A part of a text that does not mention the flag does not mention it
/// either.
proof fn lemma_part_quiet(s: Seq<char>, a: int, b: int)
    requires
        0 <= a <= b <= s.len(),
        !mentions_flag(s),
    ensures
        !mentions_flag(s.subrange(a, b)),
{
    let p = s.subrange(a, b);
    if mentions_flag(p) {
        let t = choose|t: int| 0 <= t < flag_tokens().len() && folded_contains(p, #[trigger] flag_tokens()[t]);
        let tok = flag_tokens()[t];
        let i = choose|i: int| folded_match_at(p, tok, i);
        assert forall|k: int| 0 <= k < tok.len() implies lower_code(#[trigger] s[i + a + k]) == tok[k] as u32 by {
            assert(s[i + a + k] == p[i + k]);
        }
        assert(folded_match_at(s, tok, i + a));
        assert(folded_contains(s, tok));
    }
}

/// Joining a text that is empty or ends a clause with another, neither
/// mentioning the flag, mentions it nowhere: no token spans a clause end.
proof fn lemma_concat_quiet(a: Seq<char>, b: Seq<char>)
    requires
        a.len() == 0 || is_clause_end(a.last()),
        !mentions_flag(a),
        !mentions_flag(b),
    ensures
        !mentions_flag(a + b),
{
    let s = a + b;
    if mentions_flag(s) {
        let t = choose|t: int| 0 <= t < flag_tokens().len() && folded_contains(s, #[trigger] flag_tokens()[t]);
        let tok = flag_tokens()[t];
        let i = choose|i: int| folded_match_at(s, tok, i);
        if i >= a.len() {
            assert forall|k: int| 0 <= k < tok.len() implies lower_code(#[trigger] b[i - a.len() + k]) == tok[k] as u32 by {
                assert(s[i + k] == b[i - a.len() + k]);
            }
            assert(folded_match_at(b, tok, i - a.len()));
            assert(folded_contains(b, tok));
        } else if i + tok.len() <= a.len() {
            assert forall|k: int| 0 <= k < tok.len() implies lower_code(#[trigger] a[i + k]) == tok[k] as u32 by {
                assert(s[i + k] == a[i + k]);
            }
            assert(folded_match_at(a, tok, i));
            assert(folded_contains(a, tok));
        } else {
            let k = a.len() - 1 - i;
            lemma_token_chars();
            assert(token_char(flag_tokens()[t][k]));
            assert(s[i + k] == a.last());
            assert(lower_code(s[i + k]) == tok[k] as u32);
        }
    }
}

/// Every complete clause ends with a clause end.
proof fn lemma_clauses_end(s: Seq<char>)
    ensures
        forall|i: int|
            0 <= i < clause_split(s).0.len() ==> (#[trigger] clause_split(s).0[i]).len() > 0
                && is_clause_end(clause_split(s).0[i].last()),
    decreases s.len(),
{
    if s.len() > 0 {
        lemma_clauses_end(s.drop_last());
        let (pd, pc) = clause_split(s.drop_last());
        if is_clause_end(s.last()) {
            let done = clause_split(s).0;
            assert(done == pd.push(pc.push(s.last())));
            assert forall|i: int| 0 <= i < done.len() implies (#[trigger] done[i]).len() > 0
                && is_clause_end(done[i].last()) by {
                if i < pd.len() {
                    assert(done[i] == pd[i]);
                }
            }
        }
    }
}

/// In a text that does not mention the flag, no clause does.
proof fn lemma_quiet_clauses(s: Seq<char>)
    requires
        !mentions_flag(s),
    ensures
        forall|i: int| 0 <= i < clause_split(s).0.len() ==> !mentions_flag(#[trigger] clause_split(s).0[i]),
        !mentions_flag(clause_split(s).1),
    decreases s.len(),
{
    if s.len() > 0 {
        let prev = s.drop_last();
        lemma_part_quiet(s, 0, s.len() - 1);
        assert(s.subrange(0, s.len() - 1) == prev);
        lemma_quiet_clauses(prev);
        lemma_clauses_rejoin(s);
        let (done, cur) = clause_split(s);
        let (pd, pc) = clause_split(prev);
        let last = pc.push(s.last());
        lemma_clauses_rejoin(prev);
        assert(s == prev.push(s.last()));
        assert(s =~= joined(pd) + last);
        lemma_part_quiet(s, s.len() - last.len(), s.len() as int);
        assert(s.subrange(s.len() - last.len(), s.len() as int) == last);
        if is_clause_end(s.last()) {
            assert(done == pd.push(last));
            assert forall|i: int| 0 <= i < done.len() implies !mentions_flag(#[trigger] done[i]) by {
                if i < pd.len() {
                    assert(done[i] == pd[i]);
                }
            }
            assert(!folded_contains(seq![], flag_tokens()[0]));
            assert forall|t: int| 0 <= t < flag_tokens().len() implies !folded_contains(
                cur,
                #[trigger] flag_tokens()[t],
            ) by {
                if folded_contains(cur, flag_tokens()[t]) {
                    let i = choose|i: int| folded_match_at(cur, flag_tokens()[t], i);
                    lemma_token_chars();
                    assert(flag_tokens()[t].len() > 0);
                }
            }
        }
    }
}

/// What the clauses keep mentions the flag nowhere, and is empty or ends a
/// clause.
proof fn lemma_kept_quiet(done: Seq<Seq<char>>)
    requires
        forall|i: int| 0 <= i < done.len() ==> (#[trigger] done[i]).len() > 0 && is_clause_end(done[i].last()),
    ensures
        !mentions_flag(kept_clauses(done)),
        kept_clauses(done).len() == 0 || is_clause_end(kept_clauses(done).last()),
    decreases done.len(),
{
    if done.len() == 0 {
        assert forall|t: int| 0 <= t < flag_tokens().len() implies !folded_contains(
            kept_clauses(done),
            #[trigger] flag_tokens()[t],
        ) by {
            if folded_contains(kept_clauses(done), flag_tokens()[t]) {
                let i = choose|i: int| folded_match_at(kept_clauses(done), flag_tokens()[t], i);
                lemma_token_chars();
                assert(flag_tokens()[t].len() > 0);
            }
        }
    } else {
        lemma_kept_quiet(done.drop_last());
        assert(done.drop_last().len() < done.len());
        if !mentions_flag(done.last()) {
            lemma_concat_quiet(kept_clauses(done.drop_last()), done.last());
            assert((kept_clauses(done.drop_last()) + done.last()).last() == done.last().last());
        }
    }
}

/// Stripping removes every mention of the model flag and every surrounding
/// whitespace, and stripping again changes nothing.
pub proof fn law_stripped_is_clean(text: Seq<char>)
    ensures
        !mentions_flag(stripped(text)),
        trim(stripped(text)) == stripped(text),
        stripped(stripped(text)) == stripped(text),
{
    let (done, tail) = clause_split(text);
    lemma_clauses_end(text);
    lemma_kept_quiet(done);
    let kept = kept_clauses(done) + kept_tail(tail);
    if kept_tail(tail).len() == 0 {
        assert(kept == kept_clauses(done));
    } else {
        lemma_concat_quiet(kept_clauses(done), tail);
    }
    let k = lemma_trim_part(kept);
    lemma_part_quiet(kept, k, k + trim(kept).len());
    let out = stripped(text);
    lemma_quiet_clauses(out);
    law_no_flag_only_trims(out);
}

/// Text without a clause end only extends the unfinished clause.
proof fn lemma_split_open_tail(c: Seq<char>, d: Seq<char>)
    requires
        forall|k: int| 0 <= k < d.len() ==> !is_clause_end(#[trigger] d[k]),
    ensures
        clause_split(c + d) == (clause_split(c).0, clause_split(c).1 + d),
    decreases d.len(),
{
    if d.len() == 0 {
        assert(c + d == c);
        assert(clause_split(c).1 + d == clause_split(c).1);
    } else {
        let d0 = d.drop_last();
        assert forall|k: int| 0 <= k < d0.len() implies !is_clause_end(#[trigger] d0[k]) by {
            assert(d0[k] == d[k]);
        }
        lemma_split_open_tail(c, d0);
        assert((c + d).drop_last() == c + d0);
        assert((c + d).last() == d[d.len() - 1]);
        assert((clause_split(c).1 + d0).push(d.last()) == clause_split(c).1 + d);
    }
}

/// A clause that ends in `.`, `!`, `?`, `;`, `,` or a newline and does not
/// mention the flag is kept when a clause that does follows it: stripping
/// `c + d` gives `c` trimmed. So "Why? -m was rejected" strips to "Why?".
pub proof fn law_clause_end_keeps_what_came_before(c: Seq<char>, d: Seq<char>)
    requires
        c.len() > 0,
        c.last() == '.' || c.last() == '!' || c.last() == '?' || c.last() == ';' || c.last() == ','
            || c.last() == '\n',
        forall|k: int|
            0 <= k < d.len() ==> {
                let x = #[trigger] d[k];
                x != '.' && x != '!' && x != '?' && x != ';' && x != ',' && x != '\n'
            },
        !mentions_flag(c),
        mentions_flag(d),
    ensures
        stripped(c + d) == trim(c),
{
    assert forall|k: int| 0 <= k < d.len() implies !is_clause_end(#[trigger] d[k]) by {}
    lemma_split_open_tail(c, d);
    assert(c == c.drop_last().push(c.last()));
    let (done, tail) = clause_split(c);
    assert(tail.len() == 0);
    assert(tail + d == d);
    lemma_quiet_clauses(c);
    lemma_all_kept(done);
    lemma_clauses_rejoin(c);
    assert(joined(done) + tail == joined(done));
    assert(kept_clauses(done) + kept_tail(d) == c);
}

/// Executable `mentions_flag`.
fn clause_mentions_flag(clause: &Vec<char>) -> (res: bool)
    ensures
        res == mentions_flag(clause@),
{
    let tokens: Vec<Vec<char>> = vec![
        vec!['-', 'm'],
        vec!['-', '-', 'm', 'o', 'd', 'e', 'l'],
        vec!['p', 'a', 'p', 'e', 'r', 'c', 'u', 't', 's', '_', 'm', 'o', 'd', 'e', 'l'],
        vec!['m', 'o', 'd', 'e', 'l', ' ', 'f', 'l', 'a', 'g'],
        vec!['m', 'o', 'd', 'e', 'l', ' ', 'a', 'r', 'g', 'u', 'm', 'e', 'n', 't'],
    ];
    assert(tokens@.len() == flag_tokens().len());
    assert forall|t: int| 0 <= t < tokens@.len() implies #[trigger] tokens@[t]@ == flag_tokens()[t] by {
        if t == 0 {
            assert(tokens@[0]@ == flag_tokens()[0]);
        } else if t == 1 {
            assert(tokens@[1]@ == flag_tokens()[1]);
        } else if t == 2 {
            assert(tokens@[2]@ == flag_tokens()[2]);
        } else if t == 3 {
            assert(tokens@[3]@ == flag_tokens()[3]);
        } else {
            assert(tokens@[4]@ == flag_tokens()[4]);
        }
    }
    let mut t: usize = 0;
    while t < tokens.len()
        invariant
            tokens@.len() == flag_tokens().len(),
            forall|u: int| 0 <= u < tokens@.len() ==> #[trigger] tokens@[u]@ == flag_tokens()[u],
            forall|u: int| 0 <= u < t ==> !folded_contains(clause@, #[trigger] flag_tokens()[u]),
        decreases tokens.len() - t,
    {
        if contains_folded(clause, &tokens[t]) {
            assert(folded_contains(clause@, flag_tokens()[t as int]));
            return true;
        }
        t = t + 1;
    }
    false
}

/// Drops model-flag rejection noise from a complaint body: every clause (a
/// run of text up to and including `.`, `!`, `?`, `;`, `,` or a newline)
/// whose lowercase form mentions `-m`, `--model`, `papercuts_model`,
/// `model flag` or `model argument` is removed, and the rest is trimmed.
/// A bare "model" is left alone.
pub fn strip_model_flag_noise(text: &str) -> (res: String)
    ensures
        res@ == stripped(text@),
{
    let s = chars_of(text);
    let mut out: Vec<char> = Vec::new();
    let mut clause: Vec<char> = Vec::new();
    for i in 0..s.len()
        invariant
            clause_split(s@.take(i as int)) == (clause_split(s@.take(i as int)).0, clause@),
            out@ == kept_clauses(clause_split(s@.take(i as int)).0),
    {
        let ghost prev = s@.take(i as int);
        let ch = s[i];
        clause.push(ch);
        proof {
            let next = s@.take(i + 1);
            assert(next.drop_last() == prev);
            assert(next.last() == ch);
        }
        let ghost done = clause_split(prev).0;
        if ch == '.' || ch == '!' || ch == '?' || ch == ';' || ch == ',' || ch == '\n' {
            assert(clause_split(s@.take(i + 1)).0 == done.push(clause@));
            assert(done.push(clause@).drop_last() == done);
            if !clause_mentions_flag(&clause) {
                extend_chars(&mut out, &clause);
            }
            clause = Vec::new();
        } else {
            assert(clause_split(s@.take(i + 1)).0 == done);
        }
    }
    assert(s@.take(s.len() as int) == s@);
    let tail = trim_chars(&clause);
    if tail.len() > 0 && !clause_mentions_flag(&clause) {
        extend_chars(&mut out, &clause);
    }
    let res = trim_chars(&out);
    string_of(&res)
}

} // verus!
