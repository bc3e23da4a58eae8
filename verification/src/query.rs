//! Questions asked of the journal's records: which ids are resolved, which
//! record an id or unique prefix names, which cuts a listing shows and in
//! which order, and what a health check reports.

use vstd::prelude::*;
use crate::error::Error;
use crate::record::{Cut, Record, Resolved, cut_values, record_id};
use crate::text::{
    chars_lt, chars_of, decimal, decimal_chars, extend_chars, extend_str, is_prefix, law_seq_lt_is_lexicographic,
    lemma_seq_lt_order,
    seq_lt, starts_with, string_of,
};

verus! {

broadcast use vstd::string::group_string_axioms;

/// The record is a resolution of the given id.
pub open spec fn is_resolution_of(r: Record, id: Seq<char>) -> bool {
    r is Resolved && record_id(r) == id
}

/// Some record resolves the given id.
pub open spec fn resolved_in(rs: Seq<Record>, id: Seq<char>) -> bool {
    exists|i: int| 0 <= i < rs.len() && is_resolution_of(#[trigger] rs[i], id)
}

/// The views of a sequence of strings.
pub open spec fn views(v: Seq<String>) -> Seq<Seq<char>> {
    v.map_values(|s: String| s@)
}

/// Whether `v` holds a string equal to `s`.
pub fn contains_string(v: &Vec<String>, s: &String) -> (res: bool)
    ensures
        res == views(v@).contains(s@),
{
    let mut i: usize = 0;
    while i < v.len()
        invariant
            i <= v.len(),
            forall|k: int| 0 <= k < i ==> v@[k]@ != s@,
        decreases v.len() - i,
    {
        if v[i] == *s {
            assert(views(v@)[i as int] == s@);
            return true;
        }
        i = i + 1;
    }
    assert forall|k: int| 0 <= k < views(v@).len() implies views(v@)[k] != s@ by {
        assert(views(v@)[k] == v@[k]@);
    }
    false
}

/// The ids that some resolution names, each once.
pub fn resolved_ids(records: &Vec<Record>) -> (res: Vec<String>)
    ensures
        forall|k: int| 0 <= k < res@.len() ==> resolved_in(records@, #[trigger] res@[k]@),
        forall|id: Seq<char>| resolved_in(records@, id) ==> views(res@).contains(id),
        views(res@).no_duplicates(),
{
    let mut res: Vec<String> = Vec::new();
    for i in 0..records.len()
        invariant
            forall|k: int| 0 <= k < res@.len() ==> resolved_in(records@, #[trigger] res@[k]@),
            forall|j: int|
                0 <= j < i && (#[trigger] records@[j]) is Resolved ==> views(res@).contains(
                    record_id(records@[j]),
                ),
            views(res@).no_duplicates(),
    {
        if let Record::Resolved(r) = &records[i] {
            assert(is_resolution_of(records@[i as int], r.id@));
            if !contains_string(&res, &r.id) {
                let ghost old_res = res@;
                res.push(r.id.clone());
                assert(views(res@) == views(old_res).push(r.id@));
                assert forall|j: int|
                    0 <= j < i + 1 && (#[trigger] records@[j]) is Resolved implies views(
                    res@,
                ).contains(record_id(records@[j])) by {
                    if j < i {
                        let k = choose|k: int|
                            0 <= k < views(old_res).len() && views(old_res)[k] == record_id(
                                records@[j],
                            );
                        assert(views(res@)[k] == views(old_res)[k]);
                    } else {
                        assert(views(res@)[old_res.len() as int] == r.id@);
                    }
                }
            }
        }
    }
    assert forall|id: Seq<char>| resolved_in(records@, id) implies views(res@).contains(id) by {
        let j = choose|j: int| 0 <= j < records@.len() && is_resolution_of(#[trigger] records@[j], id);
    }
    res
}

/// Whether some record resolves `id`.
pub fn is_resolved(records: &Vec<Record>, id: &str) -> (res: bool)
    ensures
        res == resolved_in(records@, id@),
{
    let target = id.to_string();
    let mut i: usize = 0;
    while i < records.len()
        invariant
            target@ == id@,
            i <= records.len(),
            forall|j: int| 0 <= j < i ==> !is_resolution_of(#[trigger] records@[j], id@),
        decreases records.len() - i,
    {
        if let Record::Resolved(r) = &records[i] {
            if r.id == target {
                assert(is_resolution_of(records@[i as int], id@));
                return true;
            }
        }
        i = i + 1;
    }
    false
}

/// The distinct ids of `rs` that start with `q`, in order of first
/// appearance.
pub open spec fn distinct_matches(rs: Seq<Record>, q: Seq<char>) -> Seq<Seq<char>>
    decreases rs.len(),
{
    if rs.len() == 0 {
        seq![]
    } else {
        let d = distinct_matches(rs.drop_last(), q);
        let id = record_id(rs.last());
        if is_prefix(q, id) && !d.contains(id) {
            d.push(id)
        } else {
            d
        }
    }
}

/// The message for a query that more than one id starts with.
pub open spec fn ambiguity_message(q: Seq<char>, n: nat) -> Seq<char> {
    "id '"@ + q + "' is ambiguous; matches "@ + decimal(n)
        + " records. Use a longer prefix or the full id."@
}

/// Finds the one complaint id that equals `query` or starts with it. A
/// complaint id may appear in several records (the cut and its
/// resolutions), so the distinct ids are counted.
pub fn match_id(records: &Vec<Record>, query: &str) -> (res: Result<String, Error>)
    ensures
        ({
            let d = distinct_matches(records@, query@);
            &&& d.len() == 0 ==> (res matches Err(Error::NotFound(q)) && q@ == query@)
            &&& d.len() == 1 ==> (res matches Ok(t) && t@ == d[0])
            &&& d.len() > 1 ==> (res matches Err(Error::BadInput(m)) && m@ == ambiguity_message(
                query@,
                d.len(),
            ))
        }),
{
    let q = chars_of(query);
    let mut matched: Vec<String> = Vec::new();
    for i in 0..records.len()
        invariant
            q@ == query@,
            views(matched@) == distinct_matches(records@.take(i as int), query@),
    {
        let ghost prev = records@.take(i as int);
        assert(records@.take(i + 1).drop_last() == prev);
        assert(records@.take(i + 1).last() == records@[i as int]);
        let rid = records[i].id();
        let rid_chars = chars_of(rid);
        let rid_string = rid.to_string();
        if starts_with(&rid_chars, &q) && !contains_string(&matched, &rid_string) {
            let ghost old_matched = matched@;
            matched.push(rid_string);
            assert(views(matched@) == views(old_matched).push(rid@));
        }
    }
    assert(records@.take(records.len() as int) == records@);
    let n = matched.len();
    if n == 0 {
        Err(Error::NotFound(query.to_string()))
    } else if n > 1 {
        let mut m: Vec<char> = Vec::new();
        extend_str(&mut m, "id '");
        extend_chars(&mut m, &q);
        extend_str(&mut m, "' is ambiguous; matches ");
        let count = decimal_chars(n);
        extend_chars(&mut m, &count);
        extend_str(&mut m, " records. Use a longer prefix or the full id.");
        Err(Error::BadInput(string_of(&m)))
    } else {
        assert(views(matched@)[0] == matched@[0]@);
        Ok(matched[0].clone())
    }
}

/// What `distinct_matches` holds: each id that starts with the query, once.
pub proof fn lemma_distinct_matches(rs: Seq<Record>, q: Seq<char>)
    ensures
        forall|k: int|
            0 <= k < distinct_matches(rs, q).len() ==> is_prefix(
                q,
                #[trigger] distinct_matches(rs, q)[k],
            ),
        forall|k: int|
            #![trigger distinct_matches(rs, q)[k]]
            0 <= k < distinct_matches(rs, q).len() ==> exists|i: int|
                0 <= i < rs.len() && record_id(#[trigger] rs[i]) == distinct_matches(rs, q)[k],
        forall|i: int|
            0 <= i < rs.len() && is_prefix(q, record_id(#[trigger] rs[i])) ==> distinct_matches(
                rs,
                q,
            ).contains(record_id(rs[i])),
        distinct_matches(rs, q).no_duplicates(),
    decreases rs.len(),
{
    if rs.len() > 0 {
        let prev = rs.drop_last();
        lemma_distinct_matches(prev, q);
        let d0 = distinct_matches(prev, q);
        let d = distinct_matches(rs, q);
        assert forall|k: int| #![trigger d[k]] 0 <= k < d.len() implies exists|i: int|
            0 <= i < rs.len() && record_id(#[trigger] rs[i]) == d[k] by {
            if k < d0.len() {
                let i = choose|i: int| 0 <= i < prev.len() && record_id(#[trigger] prev[i]) == d0[k];
                assert(rs[i] == prev[i]);
            } else {
                assert(rs[rs.len() - 1] == rs.last());
            }
        }
        assert forall|i: int| 0 <= i < rs.len() && is_prefix(q, record_id(#[trigger] rs[i])) implies d.contains(
            record_id(rs[i]),
        ) by {
            if i < rs.len() - 1 {
                assert(prev[i] == rs[i]);
                let k = choose|k: int| 0 <= k < d0.len() && d0[k] == record_id(prev[i]);
                assert(d[k] == d0[k]);
            } else {
                if !d0.contains(record_id(rs.last())) {
                    assert(d[d0.len() as int] == record_id(rs.last()));
                }
            }
        }
    }
}

/// A query that exactly one id starts with (the full id, or a prefix that
/// no other id shares) finds that id.
pub proof fn law_unique_prefix_finds_id(rs: Seq<Record>, q: Seq<char>, i: int)
    requires
        0 <= i < rs.len(),
        is_prefix(q, record_id(rs[i])),
        forall|j: int|
            0 <= j < rs.len() && is_prefix(q, record_id(#[trigger] rs[j])) ==> record_id(rs[j])
                == record_id(rs[i]),
    ensures
        distinct_matches(rs, q) == seq![record_id(rs[i])],
{
    lemma_distinct_matches(rs, q);
    let d = distinct_matches(rs, q);
    assert(d.contains(record_id(rs[i])));
    assert forall|k: int| 0 <= k < d.len() implies d[k] == record_id(rs[i]) by {
        let j = choose|j: int| 0 <= j < rs.len() && record_id(#[trigger] rs[j]) == d[k];
        assert(is_prefix(q, d[k]));
    }
    if d.len() > 1 {
        assert(d[0] == d[1]);
    }
    assert(d =~= seq![record_id(rs[i])]);
}

/// A query that no id starts with finds nothing.
pub proof fn law_unknown_id_not_found(rs: Seq<Record>, q: Seq<char>)
    requires
        forall|j: int| 0 <= j < rs.len() ==> !is_prefix(q, record_id(#[trigger] rs[j])),
    ensures
        distinct_matches(rs, q).len() == 0,
{
    lemma_distinct_matches(rs, q);
    let d = distinct_matches(rs, q);
    if d.len() > 0 {
        let j = choose|j: int| 0 <= j < rs.len() && record_id(#[trigger] rs[j]) == d[0];
        assert(is_prefix(q, d[0]));
    }
}


/// The cuts of `rs`, in journal order.
pub open spec fn all_cuts(rs: Seq<Record>) -> Seq<Cut>
    decreases rs.len(),
{
    if rs.len() == 0 {
        seq![]
    } else {
        match rs.last() {
            Record::Cut(c) => all_cuts(rs.drop_last()).push(c),
            Record::Resolved(_) => all_cuts(rs.drop_last()),
        }
    }
}

/// The cuts of `rs`, in journal order, that some record of `whole` resolves
/// (`resolved`) or that none does (`!resolved`).
pub open spec fn cuts_in(rs: Seq<Record>, whole: Seq<Record>, resolved: bool) -> Seq<Cut>
    decreases rs.len(),
{
    if rs.len() == 0 {
        seq![]
    } else {
        let prev = cuts_in(rs.drop_last(), whole, resolved);
        match rs.last() {
            Record::Cut(c) => if resolved_in(whole, c.id@) == resolved {
                prev.push(c)
            } else {
                prev
            },
            Record::Resolved(_) => prev,
        }
    }
}

/// What a listing of the journal `rs` shows: the open cuts newest first,
/// then, with `all`, the resolved ones newest first.
pub open spec fn listed_cuts(rs: Seq<Record>, all: bool) -> Seq<Cut> {
    let open = newest_first(cuts_in(rs, rs, false));
    if all {
        open + newest_first(cuts_in(rs, rs, true))
    } else {
        open
    }
}

/// Where a stable insertion puts `c` into `s`, newest first: after every
/// cut whose timestamp is not older than `c`'s.
pub open spec fn insert_pos(s: Seq<Cut>, c: Cut) -> int
    decreases s.len(),
{
    if s.len() > 0 && seq_lt(s.last().ts@, c.ts@) {
        insert_pos(s.drop_last(), c)
    } else {
        s.len() as int
    }
}

/// The cuts ordered newest first by timestamp; cuts with equal timestamps
/// keep their order (a stable sort).
pub open spec fn newest_first(s: Seq<Cut>) -> Seq<Cut>
    decreases s.len(),
{
    if s.len() == 0 {
        seq![]
    } else {
        let t = newest_first(s.drop_last());
        t.insert(insert_pos(t, s.last()), s.last())
    }
}

/// The cuts of `records` that are open (`!resolved`) or resolved
/// (`resolved`), in journal order.
fn gather<'a>(records: &'a Vec<Record>, ids: &Vec<String>, resolved: bool) -> (res: Vec<&'a Cut>)
    requires
        forall|k: int| 0 <= k < ids@.len() ==> resolved_in(records@, #[trigger] ids@[k]@),
        forall|id: Seq<char>| resolved_in(records@, id) ==> views(ids@).contains(id),
    ensures
        cut_values(res@) == cuts_in(records@, records@, resolved),
{
    let mut shown: Vec<&'a Cut> = Vec::new();
    for i in 0..records.len()
        invariant
            cut_values(shown@) == cuts_in(records@.take(i as int), records@, resolved),
            forall|k: int| 0 <= k < ids@.len() ==> resolved_in(records@, #[trigger] ids@[k]@),
            forall|id: Seq<char>| resolved_in(records@, id) ==> views(ids@).contains(id),
    {
        assert(records@.take(i + 1).drop_last() == records@.take(i as int));
        assert(records@.take(i + 1).last() == records@[i as int]);
        if let Record::Cut(c) = &records[i] {
            let found = contains_string(ids, &c.id);
            proof {
                if found {
                    let k = choose|k: int| 0 <= k < views(ids@).len() && views(ids@)[k] == c.id@;
                    assert(resolved_in(records@, ids@[k]@));
                }
            }
            if found == resolved {
                let ghost old_shown = shown@;
                shown.push(c);
                assert(cut_values(shown@) == cut_values(old_shown).push(*c));
            }
        }
    }
    assert(records@.take(records.len() as int) == records@);
    shown
}

/// The cuts ordered newest first, ties kept in their order.
fn sort_newest_first<'a>(shown: Vec<&'a Cut>) -> (res: Vec<&'a Cut>)
    ensures
        cut_values(res@) == newest_first(cut_values(shown@)),
{
    let ghost sv = cut_values(shown@);
    let mut sorted: Vec<&'a Cut> = Vec::new();
    for i in 0..shown.len()
        invariant
            sv == cut_values(shown@),
            cut_values(sorted@) == newest_first(sv.take(i as int)),
    {
        let c: &'a Cut = shown[i];
        assert(sv[i as int] == *c);
        let cts = chars_of(c.ts.as_str());
        let ghost so = cut_values(sorted@);
        let mut j: usize = sorted.len();
        assert(so.take(j as int) == so);
        while j > 0 && chars_lt(&chars_of(sorted[j - 1].ts.as_str()), &cts)
            invariant
                j <= sorted.len(),
                so == cut_values(sorted@),
                cts@ == c.ts@,
                insert_pos(so, *c) == insert_pos(so.take(j as int), *c),
            decreases j,
        {
            assert(so.take(j as int).drop_last() == so.take(j - 1));
            assert(so.take(j as int).last() == *sorted@[j - 1]);
            j = j - 1;
        }
        assert(insert_pos(so, *c) == j) by {
            assert(so.take(j as int).len() == j);
            if j > 0 {
                assert(so.take(j as int).last() == *sorted@[j - 1]);
            }
        }
        assert(sv.take(i + 1).drop_last() == sv.take(i as int));
        assert(sv.take(i + 1).last() == *c);
        let ghost old_sorted = sorted@;
        sorted.insert(j, c);
        assert(cut_values(sorted@) =~= cut_values(old_sorted).insert(j as int, *c));
    }
    assert(sv.take(shown.len() as int) == sv);
    sorted
}

/// The cuts to list: the open ones newest first, then, with `all`, the
/// resolved ones newest first.
pub fn select_cuts<'a>(records: &'a Vec<Record>, all: bool) -> (res: Vec<&'a Cut>)
    ensures
        cut_values(res@) == listed_cuts(records@, all),
{
    let resolved = resolved_ids(records);
    let mut listed = sort_newest_first(gather(records, &resolved, false));
    if all {
        let mut closed = sort_newest_first(gather(records, &resolved, true));
        let ghost first = listed@;
        let ghost second = closed@;
        listed.append(&mut closed);
        assert(cut_values(listed@) =~= cut_values(first) + cut_values(second));
    }
    listed
}

/// `insert_pos` puts `c` after the cuts not older than it and before the
/// older ones.
proof fn lemma_insert_pos(t: Seq<Cut>, c: Cut)
    ensures
        0 <= insert_pos(t, c) <= t.len(),
        forall|k: int| insert_pos(t, c) <= k < t.len() ==> seq_lt((#[trigger] t[k]).ts@, c.ts@),
        insert_pos(t, c) > 0 ==> !seq_lt(t[insert_pos(t, c) - 1].ts@, c.ts@),
    decreases t.len(),
{
    if t.len() > 0 && seq_lt(t.last().ts@, c.ts@) {
        lemma_insert_pos(t.drop_last(), c);
        let p = insert_pos(t, c);
        assert forall|k: int| p <= k < t.len() implies seq_lt((#[trigger] t[k]).ts@, c.ts@) by {
            if k < t.len() - 1 {
                assert(t[k] == t.drop_last()[k]);
            }
        }
    }
}

/// No cut is listed before a newer one.
pub open spec fn is_newest_first(s: Seq<Cut>) -> bool {
    forall|i: int, j: int| 0 <= i < j < s.len() ==> !seq_lt(s[i].ts@, s[j].ts@)
}

/// A stable newest-first ordering is ordered newest first.
proof fn lemma_newest_first_sorted(s: Seq<Cut>)
    ensures
        is_newest_first(newest_first(s)),
    decreases s.len(),
{
    if s.len() > 0 {
        let t = newest_first(s.drop_last());
        let c = s.last();
        lemma_newest_first_sorted(s.drop_last());
        lemma_insert_pos(t, c);
        let p = insert_pos(t, c);
        let r = t.insert(p, c);
        assert forall|i: int, j: int| 0 <= i < j < r.len() implies !seq_lt(r[i].ts@, r[j].ts@) by {
            if j < p {
                assert(r[i] == t[i] && r[j] == t[j]);
            } else if j == p {
                assert(r[i] == t[i]);
                assert(!seq_lt(t[p - 1].ts@, c.ts@));
                if i < p - 1 {
                    assert(!seq_lt(t[i].ts@, t[p - 1].ts@));
                    lemma_seq_lt_order(t[i].ts@, t[p - 1].ts@, c.ts@);
                    lemma_seq_lt_order(c.ts@, t[p - 1].ts@, t[i].ts@);
                    lemma_seq_lt_order(t[p - 1].ts@, t[i].ts@, c.ts@);
                    lemma_seq_lt_order(t[p - 1].ts@, c.ts@, t[i].ts@);
                }
            } else if i > p {
                assert(r[i] == t[i - 1] && r[j] == t[j - 1]);
            } else if i == p {
                assert(r[j] == t[j - 1]);
                assert(seq_lt(t[j - 1].ts@, c.ts@));
                lemma_seq_lt_order(t[j - 1].ts@, c.ts@, c.ts@);
            } else {
                assert(r[i] == t[i] && r[j] == t[j - 1]);
            }
        }
    }
}

/// Ordering newest first adds and loses no cut.
proof fn lemma_newest_first_multiset(s: Seq<Cut>)
    ensures
        newest_first(s).to_multiset() == s.to_multiset(),
    decreases s.len(),
{
    broadcast use vstd::seq_lib::to_multiset_insert, vstd::seq_lib::to_multiset_build;
    if s.len() > 0 {
        let t = newest_first(s.drop_last());
        lemma_newest_first_multiset(s.drop_last());
        lemma_insert_pos(t, s.last());
        let p = insert_pos(t, s.last());
        assert(t.insert(p, s.last()).to_multiset() == t.to_multiset().insert(s.last()));
        assert(s.drop_last().push(s.last()).to_multiset() == s.drop_last().to_multiset().insert(
            s.last(),
        ));
        assert(s == s.drop_last().push(s.last()));
    } else {
        assert(s =~= seq![]);
    }
}


/// The cuts of `s` stamped `t`, in order.
pub open spec fn stamped(s: Seq<Cut>, t: Seq<char>) -> Seq<Cut>
    decreases s.len(),
{
    if s.len() == 0 {
        seq![]
    } else if s.last().ts@ == t {
        stamped(s.drop_last(), t).push(s.last())
    } else {
        stamped(s.drop_last(), t)
    }
}

proof fn lemma_stamped_concat(a: Seq<Cut>, b: Seq<Cut>, t: Seq<char>)
    ensures
        stamped(a + b, t) == stamped(a, t) + stamped(b, t),
    decreases b.len(),
{
    if b.len() == 0 {
        assert(a + b == a);
        assert(stamped(a, t) + stamped(b, t) == stamped(a, t));
    } else {
        assert((a + b).drop_last() == a + b.drop_last());
        assert((a + b).last() == b.last());
        lemma_stamped_concat(a, b.drop_last(), t);
        if b.last().ts@ == t {
            assert(stamped(a, t) + stamped(b.drop_last(), t).push(b.last()) == (stamped(a, t)
                + stamped(b.drop_last(), t)).push(b.last()));
        }
    }
}

proof fn lemma_stamped_none(b: Seq<Cut>, t: Seq<char>)
    requires
        forall|k: int| 0 <= k < b.len() ==> (#[trigger] b[k]).ts@ != t,
    ensures
        stamped(b, t) == Seq::<Cut>::empty(),
    decreases b.len(),
{
    if b.len() > 0 {
        assert(b.last() == b[b.len() - 1]);
        lemma_stamped_none(b.drop_last(), t);
    }
}

/// Ordering newest first is stable: the cuts stamped with any one time
/// keep the order they had.
pub proof fn law_listing_is_stable(s: Seq<Cut>, t: Seq<char>)
    ensures
        stamped(newest_first(s), t) == stamped(s, t),
    decreases s.len(),
{
    if s.len() > 0 {
        let tt = newest_first(s.drop_last());
        let c = s.last();
        let p = insert_pos(tt, c);
        law_listing_is_stable(s.drop_last(), t);
        lemma_insert_pos(tt, c);
        assert(newest_first(s) == tt.insert(p, c));
        assert(tt.insert(p, c) =~= tt.take(p) + seq![c] + tt.skip(p));
        assert(tt =~= tt.take(p) + tt.skip(p));
        lemma_stamped_concat(tt.take(p) + seq![c], tt.skip(p), t);
        lemma_stamped_concat(tt.take(p), seq![c], t);
        lemma_stamped_concat(tt.take(p), tt.skip(p), t);
        assert(seq![c].drop_last() =~= Seq::<Cut>::empty());
        assert(seq![c].last() == c);
        assert(stamped(Seq::<Cut>::empty(), t) == Seq::<Cut>::empty());
        assert(stamped(seq![c].drop_last(), t) == Seq::<Cut>::empty());
        if c.ts@ == t {
            assert forall|k: int| 0 <= k < tt.skip(p).len() implies (#[trigger] tt.skip(p)[k]).ts@ != t by {
                assert(tt.skip(p)[k] == tt[p + k]);
                lemma_seq_lt_order(tt[p + k].ts@, c.ts@, c.ts@);
            }
            lemma_stamped_none(tt.skip(p), t);
            assert(stamped(tt.take(p), t) + stamped(seq![c], t) + Seq::<Cut>::empty() == stamped(tt.take(p), t)
                + stamped(seq![c], t));
            assert(stamped(seq![c], t) =~= seq![c]);
            assert(stamped(tt, t) == stamped(tt.take(p), t) + stamped(tt.skip(p), t));
            assert(stamped(tt.take(p), t) + Seq::<Cut>::empty() == stamped(tt.take(p), t));
            assert(stamped(s, t) == stamped(s.drop_last(), t).push(c));
            assert(stamped(tt.take(p), t) + seq![c] == stamped(tt.take(p), t).push(c));
        } else {
            assert(stamped(seq![c], t) == Seq::<Cut>::empty());
            assert(stamped(tt.take(p), t) + Seq::<Cut>::empty() == stamped(tt.take(p), t));
        }
    }
}

/// Each cut of `rs` falls in exactly one of the two groups, by whether
/// `whole` resolves it, and the two groups together hold every cut.
proof fn lemma_cuts_in(rs: Seq<Record>, whole: Seq<Record>)
    ensures
        forall|b: bool, c: Cut|
            #[trigger] cuts_in(rs, whole, b).contains(c) <==> (all_cuts(rs).contains(c)
                && resolved_in(whole, c.id@) == b),
        cuts_in(rs, whole, false).to_multiset().add(cuts_in(rs, whole, true).to_multiset())
            == all_cuts(rs).to_multiset(),
    decreases rs.len(),
{
    broadcast use vstd::seq_lib::to_multiset_build, vstd::seq_lib::lemma_seq_contains_after_push;
    broadcast use vstd::multiset::group_multiset_axioms;
    if rs.len() == 0 {
        broadcast use vstd::seq_lib::to_multiset_len, vstd::multiset::lemma_multiset_empty_len;
        assert(all_cuts(rs).to_multiset().len() == 0);
        assert(cuts_in(rs, whole, false).to_multiset().len() == 0);
        assert(cuts_in(rs, whole, true).to_multiset().len() == 0);
    } else {
        lemma_cuts_in(rs.drop_last(), whole);
        let of = cuts_in(rs.drop_last(), whole, false);
        let ot = cuts_in(rs.drop_last(), whole, true);
        let oa = all_cuts(rs.drop_last());
        if let Record::Cut(c) = rs.last() {
            if resolved_in(whole, c.id@) {
                assert(of.to_multiset().add(ot.push(c).to_multiset()) =~= oa.push(c).to_multiset());
            } else {
                assert(of.push(c).to_multiset().add(ot.to_multiset()) =~= oa.push(c).to_multiset());
            }
        }
    }
}

/// The listing shows the open cuts before the resolved ones, and within
/// each group no cut before a newer one.
pub proof fn law_listing_is_open_first_then_newest(rs: Seq<Record>, all: bool)
    ensures
        forall|i: int, j: int|
            0 <= i < j < listed_cuts(rs, all).len() ==> {
                let a = #[trigger] listed_cuts(rs, all)[i];
                let b = #[trigger] listed_cuts(rs, all)[j];
                (resolved_in(rs, a.id@) ==> resolved_in(rs, b.id@)) && (resolved_in(rs, a.id@)
                    == resolved_in(rs, b.id@) ==> !seq_lt(a.ts@, b.ts@))
            },
{
    broadcast use vstd::seq_lib::to_multiset_contains;
    let o = newest_first(cuts_in(rs, rs, false));
    let r = newest_first(cuts_in(rs, rs, true));
    let l = listed_cuts(rs, all);
    lemma_cuts_in(rs, rs);
    lemma_newest_first_sorted(cuts_in(rs, rs, false));
    lemma_newest_first_sorted(cuts_in(rs, rs, true));
    lemma_newest_first_multiset(cuts_in(rs, rs, false));
    lemma_newest_first_multiset(cuts_in(rs, rs, true));
    assert forall|k: int| 0 <= k < o.len() implies !resolved_in(rs, (#[trigger] o[k]).id@) by {
        assert(o.to_multiset().count(o[k]) > 0);
        assert(cuts_in(rs, rs, false).contains(o[k]));
    }
    assert forall|k: int| 0 <= k < r.len() implies resolved_in(rs, (#[trigger] r[k]).id@) by {
        assert(r.to_multiset().count(r[k]) > 0);
        assert(cuts_in(rs, rs, true).contains(r[k]));
    }
    assert forall|i: int, j: int| 0 <= i < j < l.len() implies {
        let a = #[trigger] l[i];
        let b = #[trigger] l[j];
        (resolved_in(rs, a.id@) ==> resolved_in(rs, b.id@)) && (resolved_in(rs, a.id@)
            == resolved_in(rs, b.id@) ==> !seq_lt(a.ts@, b.ts@))
    } by {
        if j < o.len() {
            assert(l[i] == o[i] && l[j] == o[j]);
        } else if i < o.len() {
            assert(l[i] == o[i] && l[j] == r[j - o.len()]);
        } else {
            assert(l[i] == r[i - o.len()] && l[j] == r[j - o.len()]);
        }
    }
}

/// Within each group, a cut listed before another has the later stamp in
/// `String` order: where the two stamps first differ, the earlier-listed one
/// has the greater code point, whatever their lengths, and its stamp is no
/// proper prefix of the other's.
pub proof fn law_listing_descends_by_stamp(rs: Seq<Record>, all: bool, i: int, j: int)
    requires
        0 <= i < j < listed_cuts(rs, all).len(),
        resolved_in(rs, listed_cuts(rs, all)[i].id@) == resolved_in(rs, listed_cuts(rs, all)[j].id@),
    ensures
        ({
            let a = listed_cuts(rs, all)[i].ts@;
            let b = listed_cuts(rs, all)[j].ts@;
            &&& forall|k: int|
                0 <= k < a.len() && k < b.len() && a.take(k) == b.take(k) ==> (b[k] as u32) <= (
                #[trigger] a[k] as u32)
            &&& !(a.len() < b.len() && b.take(a.len() as int) == a)
        }),
{
    law_listing_is_open_first_then_newest(rs, all);
    let l = listed_cuts(rs, all);
    let a = l[i].ts@;
    let b = l[j].ts@;
    assert(!seq_lt(a, b));
    law_seq_lt_is_lexicographic(a, b);
}

/// The listing holds each shown cut exactly as often as the journal does:
/// with `all` every cut, else every open cut.
pub proof fn law_listing_keeps_every_cut(rs: Seq<Record>)
    ensures
        listed_cuts(rs, true).to_multiset() == all_cuts(rs).to_multiset(),
        listed_cuts(rs, false).to_multiset() == cuts_in(rs, rs, false).to_multiset(),
{
    broadcast use vstd::seq_lib::lemma_multiset_commutative;
    lemma_cuts_in(rs, rs);
    lemma_newest_first_multiset(cuts_in(rs, rs, false));
    lemma_newest_first_multiset(cuts_in(rs, rs, true));
}

/// A complaint that some record resolves leaves the default listing, an
/// open one stays in it, and with `all` every complaint is listed.
pub proof fn law_resolution_hides_from_default_listing(rs: Seq<Record>)
    ensures
        forall|c: Cut|
            #[trigger] listed_cuts(rs, false).contains(c) <==> (all_cuts(rs).contains(c)
                && !resolved_in(rs, c.id@)),
        forall|c: Cut| #[trigger] listed_cuts(rs, true).contains(c) <==> all_cuts(rs).contains(c),
{
    broadcast use vstd::seq_lib::to_multiset_contains;
    broadcast use vstd::multiset::group_multiset_axioms;
    law_listing_keeps_every_cut(rs);
    lemma_cuts_in(rs, rs);
    assert forall|c: Cut| #[trigger] listed_cuts(rs, false).contains(c) <==> (all_cuts(rs).contains(c)
        && !resolved_in(rs, c.id@)) by {
        assert(listed_cuts(rs, false).to_multiset().count(c) == cuts_in(rs, rs, false).to_multiset().count(c));
        assert(cuts_in(rs, rs, false).contains(c) <==> (all_cuts(rs).contains(c) && resolved_in(rs, c.id@) == false));
    }
    assert forall|c: Cut| #[trigger] listed_cuts(rs, true).contains(c) <==> all_cuts(rs).contains(c) by {
        assert(listed_cuts(rs, true).to_multiset().count(c) == all_cuts(rs).to_multiset().count(c));
    }
}

/// The ids of the cut records, in order.
pub open spec fn cut_ids(rs: Seq<Record>) -> Seq<Seq<char>>
    decreases rs.len(),
{
    if rs.len() == 0 {
        seq![]
    } else {
        match rs.last() {
            Record::Cut(c) => cut_ids(rs.drop_last()).push(c.id@),
            Record::Resolved(_) => cut_ids(rs.drop_last()),
        }
    }
}

/// The number of cuts among `rs` that no record of `whole` resolves.
pub open spec fn open_count(rs: Seq<Record>, whole: Seq<Record>) -> nat
    decreases rs.len(),
{
    if rs.len() == 0 {
        0
    } else {
        match rs.last() {
            Record::Cut(c) => open_count(rs.drop_last(), whole) + if resolved_in(whole, c.id@) {
                0nat
            } else {
                1nat
            },
            Record::Resolved(_) => open_count(rs.drop_last(), whole),
        }
    }
}

/// The id of every cut that repeats the id of an earlier cut, in order.
pub open spec fn duplicate_cuts(rs: Seq<Record>) -> Seq<Seq<char>>
    decreases rs.len(),
{
    if rs.len() == 0 {
        seq![]
    } else {
        let prev = duplicate_cuts(rs.drop_last());
        match rs.last() {
            Record::Cut(c) => if cut_ids(rs.drop_last()).contains(c.id@) {
                prev.push(c.id@)
            } else {
                prev
            },
            Record::Resolved(_) => prev,
        }
    }
}

/// The issue reported for torn lines.
pub open spec fn torn_issue(torn: nat) -> Seq<char> {
    decimal(torn) + " torn/partial line(s) healed (skipped)"@
}

/// The issue reported for a repeated cut id.
pub open spec fn duplicate_issue(id: Seq<char>) -> Seq<char> {
    "duplicate cut id "@ + id
}

/// Every issue a health check reports: torn lines first, then each repeated
/// cut id.
pub open spec fn issues_of(rs: Seq<Record>, torn: nat) -> Seq<Seq<char>> {
    (if torn > 0 {
        seq![torn_issue(torn)]
    } else {
        seq![]
    }) + duplicate_cuts(rs).map_values(|id: Seq<char>| duplicate_issue(id))
}

/// The result of a health check of the journal.
pub struct Diagnosis {
    pub ok: bool,
    pub file_exists: bool,
    pub records: usize,
    pub cuts: usize,
    pub open: usize,
    pub resolved: usize,
    pub torn: usize,
    pub issues: Vec<String>,
}

/// Validates the journal's records: counts cuts, open and resolved ones, and
/// reports torn lines and repeated cut ids, which deduplication should have
/// prevented.
pub fn diagnose(records: &Vec<Record>, torn: usize, file_exists: bool) -> (res: Diagnosis)
    ensures
        res.records == records@.len(),
        res.cuts == cut_ids(records@).len(),
        res.open == open_count(records@, records@),
        res.resolved == res.cuts - res.open,
        res.torn == torn,
        res.file_exists == file_exists,
        views(res.issues@) == issues_of(records@, torn as nat),
        res.ok == (res.issues@.len() == 0),
{
    let resolved = resolved_ids(records);
    let mut issues: Vec<String> = Vec::new();
    if torn > 0 {
        let mut m = decimal_chars(torn);
        extend_str(&mut m, " torn/partial line(s) healed (skipped)");
        issues.push(string_of(&m));
    }
    let ghost head = views(issues@);
    assert(head == (if torn > 0 { seq![torn_issue(torn as nat)] } else { seq![] }));
    let mut seen: Vec<String> = Vec::new();
    let mut cuts: usize = 0;
    let mut open: usize = 0;
    for i in 0..records.len()
        invariant
            forall|k: int| 0 <= k < resolved@.len() ==> resolved_in(records@, #[trigger] resolved@[k]@),
            forall|id: Seq<char>| resolved_in(records@, id) ==> views(resolved@).contains(id),
            views(seen@) == cut_ids(records@.take(i as int)),
            cuts == cut_ids(records@.take(i as int)).len(),
            open == open_count(records@.take(i as int), records@),
            open <= cuts <= i,
            views(issues@) == head + duplicate_cuts(records@.take(i as int)).map_values(
                |id: Seq<char>| duplicate_issue(id),
            ),
    {
        let ghost prev = records@.take(i as int);
        assert(records@.take(i + 1).drop_last() == prev);
        assert(records@.take(i + 1).last() == records@[i as int]);
        if let Record::Cut(c) = &records[i] {
            let ghost old_issues = views(issues@);
            if contains_string(&seen, &c.id) {
                let mut m: Vec<char> = Vec::new();
                extend_str(&mut m, "duplicate cut id ");
                let idc = chars_of(c.id.as_str());
                extend_chars(&mut m, &idc);
                issues.push(string_of(&m));
                assert(views(issues@) == old_issues.push(duplicate_issue(c.id@)));
                assert(duplicate_cuts(records@.take(i + 1)) == duplicate_cuts(prev).push(c.id@));
                assert(duplicate_cuts(prev).push(c.id@).map_values(|id: Seq<char>| duplicate_issue(id))
                    == duplicate_cuts(prev).map_values(|id: Seq<char>| duplicate_issue(id)).push(
                    duplicate_issue(c.id@),
                ));
            }
            let ghost old_seen = views(seen@);
            seen.push(c.id.clone());
            assert(views(seen@) == old_seen.push(c.id@));
            cuts = cuts + 1;
            let hidden = contains_string(&resolved, &c.id);
            proof {
                if hidden {
                    let k = choose|k: int| 0 <= k < views(resolved@).len() && views(resolved@)[k] == c.id@;
                    assert(resolved_in(records@, resolved@[k]@));
                }
            }
            if !hidden {
                open = open + 1;
            }
        }
    }
    assert(records@.take(records.len() as int) == records@);
    let ok = issues.len() == 0;
    Diagnosis {
        ok,
        file_exists,
        records: records.len(),
        cuts,
        open,
        resolved: cuts - open,
        torn,
        issues,
    }
}

/// A health check is clean exactly when no line was torn and no cut id
/// repeats; the resolved and open counts add up to the cuts.
pub proof fn law_doctor_ok_iff_clean(rs: Seq<Record>, torn: nat)
    ensures
        (issues_of(rs, torn).len() == 0) == (torn == 0 && duplicate_cuts(rs).len() == 0),
        open_count(rs, rs) <= cut_ids(rs).len(),
{
    lemma_open_le_cuts(rs, rs);
}

proof fn lemma_open_le_cuts(rs: Seq<Record>, whole: Seq<Record>)
    ensures
        open_count(rs, whole) <= cut_ids(rs).len(),
    decreases rs.len(),
{
    if rs.len() > 0 {
        lemma_open_le_cuts(rs.drop_last(), whole);
    }
}

/// What resolving `id` appends to the journal `rs`: nothing when some
/// record already resolves it, else a resolution with the given stamp,
/// resolver and note.
pub open spec fn resolution_of(
    rs: Seq<Record>,
    id: String,
    ts: String,
    by: Option<String>,
    note: Option<String>,
) -> Option<Record> {
    if resolved_in(rs, id@) {
        None
    } else {
        Some(Record::Resolved(Resolved { id, ts, by, note }))
    }
}

/// The journal after appending what a command decided to append.
pub open spec fn appended(rs: Seq<Record>, rec: Option<Record>) -> Seq<Record> {
    match rec {
        Some(r) => rs.push(r),
        None => rs,
    }
}

/// The record that resolving `id` appends, if any: resolving an id that is
/// already resolved changes nothing.
pub fn resolution_for(
    records: &Vec<Record>,
    id: String,
    ts: String,
    by: Option<String>,
    note: Option<String>,
) -> (res: Option<Record>)
    ensures
        res == resolution_of(records@, id, ts, by, note),
{
    if is_resolved(records, id.as_str()) {
        None
    } else {
        Some(Record::Resolved(Resolved { id, ts, by, note }))
    }
}

/// Resolving appends a resolution exactly when no resolution of that same
/// id is in the journal, whatever resolutions of other ids there are.
pub proof fn law_resolution_only_when_unresolved(
    rs: Seq<Record>,
    id: String,
    ts: String,
    by: Option<String>,
    note: Option<String>,
)
    ensures
        (forall|i: int| 0 <= i < rs.len() && (#[trigger] rs[i]) is Resolved ==> rs[i]->Resolved_0.id@ != id@)
            ==> resolution_of(rs, id, ts, by, note) == Some(
            Record::Resolved(Resolved { id, ts, by, note }),
        ),
        (exists|i: int| 0 <= i < rs.len() && (#[trigger] rs[i]) is Resolved && rs[i]->Resolved_0.id@ == id@)
            ==> resolution_of(rs, id, ts, by, note) is None,
{
    if exists|i: int| 0 <= i < rs.len() && (#[trigger] rs[i]) is Resolved && rs[i]->Resolved_0.id@ == id@ {
        let i = choose|i: int| 0 <= i < rs.len() && (#[trigger] rs[i]) is Resolved && rs[i]->Resolved_0.id@ == id@;
        assert(is_resolution_of(rs[i], id@));
    }
    if resolved_in(rs, id@) {
        let i = choose|i: int| 0 <= i < rs.len() && is_resolution_of(#[trigger] rs[i], id@);
        assert(rs[i] is Resolved);
    }
}

/// Resolving an id twice is a no-op: whatever the first resolve appended,
/// the second appends nothing, whatever its stamp, resolver and note.
pub proof fn law_resolving_twice_is_noop(
    rs: Seq<Record>,
    id: String,
    ts1: String,
    by1: Option<String>,
    note1: Option<String>,
    ts2: String,
    by2: Option<String>,
    note2: Option<String>,
)
    ensures
        resolution_of(appended(rs, resolution_of(rs, id, ts1, by1, note1)), id, ts2, by2, note2)
            is None,
{
    let once = appended(rs, resolution_of(rs, id, ts1, by1, note1));
    if !resolved_in(rs, id@) {
        assert(is_resolution_of(once[rs.len() as int], id@));
    }
}

/// The distinct cut ids of `rs`.
pub open spec fn distinct_cut_ids(rs: Seq<Record>) -> Set<Seq<char>> {
    cut_ids(rs).to_set()
}

/// Each repeated cut id adds one issue, torn lines add one more: the issues
/// number one for torn lines, if any, and one per cut beyond the first with
/// its id.
pub proof fn law_doctor_issue_count(rs: Seq<Record>, torn: nat)
    ensures
        issues_of(rs, torn).len() == (if torn > 0 { 1int } else { 0int }) + cut_ids(rs).len()
            - distinct_cut_ids(rs).len(),
{
    lemma_duplicates_count(rs);
}

proof fn lemma_duplicates_count(rs: Seq<Record>)
    ensures
        duplicate_cuts(rs).len() + distinct_cut_ids(rs).len() == cut_ids(rs).len(),
        distinct_cut_ids(rs).finite(),
    decreases rs.len(),
{
    broadcast use vstd::seq_lib::seq_to_set_is_finite;
    broadcast use vstd::set::group_set_axioms;
    if rs.len() == 0 {
        assert(distinct_cut_ids(rs) =~= Set::empty());
    } else {
        let prev = rs.drop_last();
        lemma_duplicates_count(prev);
        if let Record::Cut(c) = rs.last() {
            assert(cut_ids(rs) == cut_ids(prev).push(c.id@));
            assert(distinct_cut_ids(rs) =~= distinct_cut_ids(prev).insert(c.id@)) by {
                assert forall|x: Seq<char>| cut_ids(rs).contains(x) <==> (cut_ids(prev).contains(x) || x == c.id@) by {
                    if cut_ids(rs).contains(x) {
                        let k = choose|k: int| 0 <= k < cut_ids(rs).len() && cut_ids(rs)[k] == x;
                        if k < cut_ids(prev).len() {
                            assert(cut_ids(prev)[k] == x);
                        }
                    }
                    if cut_ids(prev).contains(x) {
                        let k = choose|k: int| 0 <= k < cut_ids(prev).len() && cut_ids(prev)[k] == x;
                        assert(cut_ids(rs)[k] == x);
                    }
                    if x == c.id@ {
                        assert(cut_ids(rs)[cut_ids(prev).len() as int] == x);
                    }
                }
            }
        } else {
            assert(distinct_cut_ids(rs) =~= distinct_cut_ids(prev));
        }
    }
}

} // verus!
