//! Character-level helpers over `Vec<char>` and `String`, with their
//! mathematical models over `Seq<char>`: whitespace and trimming as Rust's
//! `char::is_whitespace` and `str::trim` define them, ASCII case folding,
//! substring search, and decimal numerals.

use vstd::prelude::*;

verus! {

broadcast use vstd::string::group_string_axioms;

/// Calls `String::push`. The contract claims that the string's characters
/// afterwards are those before, followed by `c`.
#[verifier::external_body]
pub(crate) fn push_char(s: &mut String, c: char)
    ensures
        final(s)@ == old(s)@.push(c),
{
    s.push(c);
}

/// The characters of a string, in order.
pub fn chars_of(s: &str) -> (res: Vec<char>)
    ensures
        res@ == s@,
{
    let mut res: Vec<char> = Vec::new();
    for c in it: s.chars()
        invariant
            res@ == it.seq().take(it.index() as int),
    {
        res.push(c);
    }
    res
}

/// The string made of the given characters.
pub fn string_of(cs: &Vec<char>) -> (res: String)
    ensures
        res@ == cs@,
{
    let mut res = String::new();
    for i in 0..cs.len()
        invariant
            res@ == cs@.take(i as int),
    {
        push_char(&mut res, cs[i]);
        assert(cs@.take(i + 1) == cs@.take(i as int).push(cs@[i as int]));
    }
    assert(cs@.take(cs.len() as int) == cs@);
    res
}

/// Appends the characters of `tail` to `v`.
pub fn extend_chars(v: &mut Vec<char>, tail: &Vec<char>)
    ensures
        final(v)@ == old(v)@ + tail@,
{
    for i in 0..tail.len()
        invariant
            v@ == old(v)@ + tail@.take(i as int),
    {
        v.push(tail[i]);
        assert(tail@.take(i + 1) == tail@.take(i as int).push(tail@[i as int]));
    }
    assert(tail@.take(tail.len() as int) == tail@);
}

/// Appends the characters of a string to `v`.
pub fn extend_str(v: &mut Vec<char>, tail: &str)
    ensures
        final(v)@ == old(v)@ + tail@,
{
    let cs = chars_of(tail);
    extend_chars(v, &cs);
}

/// Rust's `char::is_whitespace`: the Unicode `White_Space` property.
pub open spec fn is_ws(c: char) -> bool {
    let u = c as u32;
    ||| u == 0x20
    ||| 0x09 <= u <= 0x0d
    ||| u == 0x85
    ||| u == 0xa0
    ||| u == 0x1680
    ||| 0x2000 <= u <= 0x200a
    ||| u == 0x2028
    ||| u == 0x2029
    ||| u == 0x202f
    ||| u == 0x205f
    ||| u == 0x3000
}

/// Executable `is_ws`.
pub fn is_whitespace(c: char) -> (res: bool)
    ensures
        res == is_ws(c),
{
    let u = c as u32;
    u == 0x20 || (0x09 <= u && u <= 0x0d) || u == 0x85 || u == 0xa0 || u == 0x1680 || (0x2000
        <= u && u <= 0x200a) || u == 0x2028 || u == 0x2029 || u == 0x202f || u == 0x205f || u
        == 0x3000
}

/// `s` without its leading whitespace.
pub open spec fn trim_start(s: Seq<char>) -> Seq<char>
    decreases s.len(),
{
    if s.len() > 0 && is_ws(s[0]) {
        trim_start(s.drop_first())
    } else {
        s
    }
}

/// `s` without its trailing whitespace.
pub open spec fn trim_end(s: Seq<char>) -> Seq<char>
    decreases s.len(),
{
    if s.len() > 0 && is_ws(s.last()) {
        trim_end(s.drop_last())
    } else {
        s
    }
}

/// Rust's `str::trim`: `s` without leading and trailing whitespace.
pub open spec fn trim(s: Seq<char>) -> Seq<char> {
    trim_end(trim_start(s))
}

/// Whitespace before index `i` does not change what `trim_start` leaves.
proof fn lemma_trim_start_skip(s: Seq<char>, i: int)
    requires
        0 <= i <= s.len(),
        forall|k: int| 0 <= k < i ==> is_ws(#[trigger] s[k]),
    ensures
        trim_start(s) == trim_start(s.skip(i)),
    decreases i,
{
    if i > 0 {
        assert(s.drop_first().skip(i - 1) == s.skip(i));
        lemma_trim_start_skip(s.drop_first(), i - 1);
    } else {
        assert(s.skip(0) == s);
    }
}

/// Whitespace from index `j` on does not change what `trim_end` leaves.
proof fn lemma_trim_end_take(s: Seq<char>, j: int)
    requires
        0 <= j <= s.len(),
        forall|k: int| j <= k < s.len() ==> is_ws(#[trigger] s[k]),
    ensures
        trim_end(s) == trim_end(s.take(j)),
    decreases s.len() - j,
{
    if j < s.len() {
        assert(s.drop_last().take(j) == s.take(j));
        lemma_trim_end_take(s.drop_last(), j);
    } else {
        assert(s.take(j) == s);
    }
}

/// `trim_start` of a sequence that starts with a non-whitespace character.
proof fn lemma_trim_start_stops(s: Seq<char>)
    requires
        s.len() > 0 ==> !is_ws(s[0]),
    ensures
        trim_start(s) == s,
{
}

/// `trim_start` drops a whitespace prefix and keeps the rest.
pub proof fn lemma_trim_start_index(s: Seq<char>) -> (k: int)
    ensures
        0 <= k <= s.len(),
        trim_start(s) == s.skip(k),
        forall|i: int| 0 <= i < k ==> is_ws(#[trigger] s[i]),
        k < s.len() ==> !is_ws(s[k]),
    decreases s.len(),
{
    if s.len() > 0 && is_ws(s[0]) {
        let k1 = lemma_trim_start_index(s.drop_first());
        assert(s.drop_first().skip(k1) == s.skip(k1 + 1));
        assert forall|i: int| 0 <= i < k1 + 1 implies is_ws(#[trigger] s[i]) by {
            if i > 0 {
                assert(s[i] == s.drop_first()[i - 1]);
            }
        }
        k1 + 1
    } else {
        assert(s.skip(0) == s);
        0
    }
}

/// `trim_end` drops a whitespace suffix and keeps the rest.
pub proof fn lemma_trim_end_index(s: Seq<char>) -> (j: int)
    ensures
        0 <= j <= s.len(),
        trim_end(s) == s.take(j),
        forall|i: int| j <= i < s.len() ==> is_ws(#[trigger] s[i]),
        j > 0 ==> !is_ws(s[j - 1]),
    decreases s.len(),
{
    if s.len() > 0 && is_ws(s.last()) {
        let j1 = lemma_trim_end_index(s.drop_last());
        assert(s.drop_last().take(j1) == s.take(j1));
        assert forall|i: int| j1 <= i < s.len() implies is_ws(#[trigger] s[i]) by {
            if i < s.len() - 1 {
                assert(s[i] == s.drop_last()[i]);
            }
        }
        j1
    } else {
        assert(s.take(s.len() as int) == s);
        s.len() as int
    }
}

/// A sequence that trims to nothing is all whitespace.
pub proof fn lemma_trim_empty_all_ws(s: Seq<char>)
    requires
        trim(s).len() == 0,
    ensures
        forall|i: int| 0 <= i < s.len() ==> is_ws(#[trigger] s[i]),
{
    let k = lemma_trim_start_index(s);
    let t = s.skip(k);
    let j = lemma_trim_end_index(t);
    assert(j == 0);
    assert forall|i: int| 0 <= i < s.len() implies is_ws(#[trigger] s[i]) by {
        if i >= k {
            assert(s[i] == t[i - k]);
        }
    }
}

/// Trailing whitespace does not change what `trim` leaves.
pub proof fn lemma_trim_ws_suffix(x: Seq<char>, w: Seq<char>)
    requires
        forall|i: int| 0 <= i < w.len() ==> is_ws(#[trigger] w[i]),
    ensures
        trim(x + w) == trim(x),
{
    let k = lemma_trim_start_index(x);
    if k < x.len() {
        let k2 = lemma_trim_start_index(x + w);
        assert((x + w)[k] == x[k]);
        assert forall|i: int| 0 <= i < k implies is_ws(#[trigger] (x + w)[i]) by {
            assert((x + w)[i] == x[i]);
        }
        assert(k2 == k) by {
            if k2 < k {
                assert(!is_ws((x + w)[k2]));
                assert((x + w)[k2] == x[k2]);
            }
        }
        assert((x + w).skip(k) == x.skip(k) + w);
        lemma_trim_end_ws_suffix(x.skip(k), w);
    } else {
        assert forall|i: int| 0 <= i < x.len() + w.len() implies is_ws(#[trigger] (x + w)[i]) by {
            if i < x.len() {
                assert((x + w)[i] == x[i]);
            } else {
                assert((x + w)[i] == w[i - x.len()]);
            }
        }
        lemma_trim_start_skip(x + w, (x + w).len() as int);
        assert((x + w).skip((x + w).len() as int).len() == 0);
        assert(x.skip(k).len() == 0);
    }
}

/// Trailing whitespace does not change what `trim_end` leaves.
pub proof fn lemma_trim_end_ws_suffix(y: Seq<char>, w: Seq<char>)
    requires
        forall|i: int| 0 <= i < w.len() ==> is_ws(#[trigger] w[i]),
    ensures
        trim_end(y + w) == trim_end(y),
    decreases w.len(),
{
    if w.len() == 0 {
        assert(y + w == y);
    } else {
        assert((y + w).last() == w.last());
        assert((y + w).drop_last() == y + w.drop_last());
        lemma_trim_end_ws_suffix(y, w.drop_last());
    }
}

/// `trim` leaves a contiguous part of `s`, and trimming again changes
/// nothing.
pub proof fn lemma_trim_part(s: Seq<char>) -> (k: int)
    ensures
        0 <= k <= k + trim(s).len() <= s.len(),
        trim(s) == s.subrange(k, k + trim(s).len()),
        trim(trim(s)) == trim(s),
{
    let k = lemma_trim_start_index(s);
    let t = s.skip(k);
    let j = lemma_trim_end_index(t);
    let r = t.take(j);
    assert(r == s.subrange(k, k + j));
    if r.len() > 0 {
        assert(r[0] == t[0]);
        lemma_trim_start_stops(r);
        assert(r.last() == t[j - 1]);
    } else {
        assert(trim_start(r) == r);
    }
    k
}

/// Rust's `str::trim` on a sequence of characters.
pub fn trim_chars(s: &Vec<char>) -> (res: Vec<char>)
    ensures
        res@ == trim(s@),
{
    let n = s.len();
    let mut i: usize = 0;
    while i < n && is_whitespace(s[i])
        invariant
            i <= n == s.len(),
            forall|k: int| 0 <= k < i ==> is_ws(#[trigger] s@[k]),
        decreases n - i,
    {
        i = i + 1;
    }
    let mut j: usize = n;
    while j > i && is_whitespace(s[j - 1])
        invariant
            i <= j <= n == s.len(),
            forall|k: int| j <= k < n ==> is_ws(#[trigger] s@[k]),
        decreases j,
    {
        j = j - 1;
    }
    let mut res: Vec<char> = Vec::new();
    let mut k: usize = i;
    while k < j
        invariant
            i <= k <= j <= n == s.len(),
            res@ == s@.subrange(i as int, k as int),
        decreases j - k,
    {
        res.push(s[k]);
        k = k + 1;
        assert(s@.subrange(i as int, k as int) == s@.subrange(i as int, k - 1).push(s@[k - 1]));
    }
    proof {
        lemma_trim_start_skip(s@, i as int);
        let t = s@.skip(i as int);
        lemma_trim_start_stops(t);
        assert forall|m: int| j - i <= m < t.len() implies is_ws(#[trigger] t[m]) by {
            assert(t[m] == s@[i + m]);
        }
        lemma_trim_end_take(t, j - i);
        assert(t.take(j - i) == s@.subrange(i as int, j as int));
        let r = t.take(j - i);
        assert(r.len() > 0 ==> !is_ws(r.last())) by {
            if r.len() > 0 {
                assert(r.last() == s@[j - 1]);
            }
        }
    }
    res
}

/// Rust's `str::trim` on a string.
pub fn trim_str(s: &str) -> (res: String)
    ensures
        res@ == trim(s@),
{
    let cs = chars_of(s);
    let t = trim_chars(&cs);
    string_of(&t)
}

/// The code of `c` after ASCII lowercasing: `A`..`Z` become `a`..`z`, every
/// other character keeps its code.
pub open spec fn lower_code(c: char) -> int {
    if 0x41 <= c as u32 <= 0x5a {
        c as u32 + 32
    } else {
        c as u32 as int
    }
}

/// The lowercased `s` holds `t` (an ASCII string) at position `i`.
pub open spec fn folded_match_at(s: Seq<char>, t: Seq<char>, i: int) -> bool {
    &&& 0 <= i
    &&& i + t.len() <= s.len()
    &&& forall|k: int| 0 <= k < t.len() ==> lower_code(#[trigger] s[i + k]) == t[k] as u32
}

/// The lowercased `s` contains `t` (an ASCII string in lower case).
///
/// For a token made only of ASCII characters other than `i` and `k`, this is
/// what `s.to_lowercase().contains(t)` computes: the only characters outside
/// ASCII whose Unicode lowercase form holds an ASCII character are `U+0130`
/// (to `i` and a combining dot) and `U+212A` (to `k`).
pub open spec fn folded_contains(s: Seq<char>, t: Seq<char>) -> bool {
    exists|i: int| folded_match_at(s, t, i)
}

/// Executable `folded_contains`.
pub fn contains_folded(s: &Vec<char>, t: &Vec<char>) -> (res: bool)
    ensures
        res == folded_contains(s@, t@),
{
    if t.len() > s.len() {
        assert forall|i: int| !folded_match_at(s@, t@, i) by {}
        return false;
    }
    let last = s.len() - t.len();
    let mut i: usize = 0;
    while i <= last
        invariant
            last == s.len() - t.len(),
            t.len() <= s.len(),
            forall|p: int| 0 <= p < i ==> !folded_match_at(s@, t@, p),
        decreases last + 1 - i,
    {
        let mut k: usize = 0;
        let mut ok = true;
        while k < t.len() && ok
            invariant
                i <= last,
                last == s.len() - t.len(),
                k <= t.len(),
                ok ==> forall|q: int| 0 <= q < k ==> lower_code(#[trigger] s@[i + q]) == t@[q] as u32,
                !ok ==> !folded_match_at(s@, t@, i as int),
            decreases t.len() - k + (if ok { 1int } else { 0int }),
        {
            let c = s[i + k] as u32;
            let lc: u32 = if 0x41 <= c && c <= 0x5a { c + 32 } else { c };
            if lc != t[k] as u32 {
                ok = false;
                assert(lower_code(s@[i + k]) != t@[k as int] as u32);
            } else {
                k = k + 1;
            }
        }
        if ok {
            assert(folded_match_at(s@, t@, i as int));
            return true;
        }
        if i == last {
            assert forall|p: int| !folded_match_at(s@, t@, p) by {}
            return false;
        }
        i = i + 1;
    }
    false
}

/// The decimal digit for `d` in `0..10`.
pub open spec fn digit_char(d: int) -> char {
    if d == 0 {
        '0'
    } else if d == 1 {
        '1'
    } else if d == 2 {
        '2'
    } else if d == 3 {
        '3'
    } else if d == 4 {
        '4'
    } else if d == 5 {
        '5'
    } else if d == 6 {
        '6'
    } else if d == 7 {
        '7'
    } else if d == 8 {
        '8'
    } else {
        '9'
    }
}

/// The decimal numeral of `n`, as `usize`'s `Display` writes it.
pub open spec fn decimal(n: nat) -> Seq<char>
    decreases n,
{
    if n < 10 {
        seq![digit_char(n as int)]
    } else {
        decimal(n / 10).push(digit_char((n % 10) as int))
    }
}

fn digit(d: usize) -> (c: char)
    requires
        d < 10,
    ensures
        c == digit_char(d as int),
{
    if d == 0 {
        '0'
    } else if d == 1 {
        '1'
    } else if d == 2 {
        '2'
    } else if d == 3 {
        '3'
    } else if d == 4 {
        '4'
    } else if d == 5 {
        '5'
    } else if d == 6 {
        '6'
    } else if d == 7 {
        '7'
    } else if d == 8 {
        '8'
    } else {
        '9'
    }
}

/// The decimal numeral of `n`.
pub fn decimal_chars(n: usize) -> (res: Vec<char>)
    ensures
        res@ == decimal(n as nat),
    decreases n,
{
    if n < 10 {
        let mut v: Vec<char> = Vec::new();
        v.push(digit(n));
        assert(v@ == seq![digit_char(n as int)]);
        v
    } else {
        let mut v = decimal_chars(n / 10);
        v.push(digit(n % 10));
        v
    }
}

} // verus!

verus! {

/// `p` is a prefix of `s`.
pub open spec fn is_prefix(p: Seq<char>, s: Seq<char>) -> bool {
    p.len() <= s.len() && s.take(p.len() as int) == p
}

/// Executable `is_prefix`.
pub fn starts_with(s: &Vec<char>, p: &Vec<char>) -> (res: bool)
    ensures
        res == is_prefix(p@, s@),
{
    if p.len() > s.len() {
        return false;
    }
    let mut i: usize = 0;
    while i < p.len()
        invariant
            p.len() <= s.len(),
            i <= p.len(),
            forall|k: int| 0 <= k < i ==> s@[k] == p@[k],
        decreases p.len() - i,
    {
        if s[i] != p[i] {
            assert(s@.take(p.len() as int)[i as int] != p@[i as int]);
            return false;
        }
        i = i + 1;
    }
    assert(s@.take(p.len() as int) == p@);
    true
}

/// Lexicographic order on character sequences by code point: the order of
/// `String`'s `Ord`, which compares UTF-8 bytes, an order that UTF-8 keeps.
pub open spec fn seq_lt(a: Seq<char>, b: Seq<char>) -> bool
    decreases a.len(),
{
    if a.len() == 0 {
        b.len() > 0
    } else if b.len() == 0 {
        false
    } else if a[0] != b[0] {
        (a[0] as u32) < (b[0] as u32)
    } else {
        seq_lt(a.drop_first(), b.drop_first())
    }
}

/// `seq_lt` is irreflexive and asymmetric.
proof fn lemma_seq_lt_asym(a: Seq<char>, b: Seq<char>)
    ensures
        !seq_lt(a, a),
        seq_lt(a, b) ==> !seq_lt(b, a),
    decreases a.len(),
{
    if a.len() > 0 && b.len() > 0 {
        lemma_seq_lt_asym(a.drop_first(), b.drop_first());
    }
    if a.len() > 0 {
        lemma_seq_lt_asym(a.drop_first(), a.drop_first());
    }
}

/// Two different sequences are ordered one way or the other.
proof fn lemma_seq_lt_total(a: Seq<char>, b: Seq<char>)
    ensures
        a != b ==> seq_lt(a, b) || seq_lt(b, a),
    decreases a.len(),
{
    if a.len() > 0 && b.len() > 0 {
        lemma_seq_lt_total(a.drop_first(), b.drop_first());
        if a[0] == b[0] && a.drop_first() == b.drop_first() {
            assert(a == seq![a[0]] + a.drop_first());
            assert(b == seq![b[0]] + b.drop_first());
        }
        if a[0] != b[0] {
            vstd::utf8::char_u32_cast(a[0], a[0] as u32);
            vstd::utf8::char_u32_cast(b[0], b[0] as u32);
        }
    } else if a.len() == 0 && b.len() == 0 {
        assert(a == b);
    }
}

/// `seq_lt` is transitive.
proof fn lemma_seq_lt_trans(a: Seq<char>, b: Seq<char>, c: Seq<char>)
    requires
        seq_lt(a, b),
        seq_lt(b, c),
    ensures
        seq_lt(a, c),
    decreases a.len(),
{
    if a.len() > 0 && b.len() > 0 && c.len() > 0 && a[0] == b[0] && b[0] == c[0] {
        lemma_seq_lt_trans(a.drop_first(), b.drop_first(), c.drop_first());
    }
}

/// `seq_lt` is a strict total order.
pub proof fn lemma_seq_lt_order(a: Seq<char>, b: Seq<char>, c: Seq<char>)
    ensures
        !seq_lt(a, a),
        seq_lt(a, b) ==> !seq_lt(b, a),
        a != b ==> seq_lt(a, b) || seq_lt(b, a),
        seq_lt(a, b) && seq_lt(b, c) ==> seq_lt(a, c),
{
    lemma_seq_lt_asym(a, b);
    lemma_seq_lt_total(a, b);
    if seq_lt(a, b) && seq_lt(b, c) {
        lemma_seq_lt_trans(a, b, c);
    }
}

proof fn lemma_seq_lt_at(a: Seq<char>, b: Seq<char>, k: int)
    requires
        0 <= k < a.len(),
        k < b.len(),
        a.take(k) == b.take(k),
        (a[k] as u32) < (b[k] as u32),
    ensures
        seq_lt(a, b),
    decreases k,
{
    if k > 0 {
        assert(a[0] == a.take(k)[0] && b[0] == b.take(k)[0]);
        assert(a.drop_first().take(k - 1) =~= a.take(k).drop_first());
        assert(b.drop_first().take(k - 1) =~= b.take(k).drop_first());
        lemma_seq_lt_at(a.drop_first(), b.drop_first(), k - 1);
    }
}

proof fn lemma_seq_lt_prefix(a: Seq<char>, b: Seq<char>)
    requires
        a.len() < b.len(),
        b.take(a.len() as int) == a,
    ensures
        seq_lt(a, b),
    decreases a.len(),
{
    if a.len() > 0 {
        assert(b[0] == b.take(a.len() as int)[0]);
        assert(b.drop_first().take(a.len() - 1) =~= a.drop_first());
        lemma_seq_lt_prefix(a.drop_first(), b.drop_first());
    }
}

/// `seq_lt` is `String`'s order: at the first position where two texts
/// differ, the one with the smaller code point comes first, whatever their
/// lengths; and a proper prefix comes before the longer text.
pub proof fn law_seq_lt_is_lexicographic(a: Seq<char>, b: Seq<char>)
    ensures
        forall|k: int|
            0 <= k < a.len() && k < b.len() && a.take(k) == b.take(k) && (#[trigger] a[k] as u32) < (
            b[k] as u32) ==> seq_lt(a, b),
        a.len() < b.len() && b.take(a.len() as int) == a ==> seq_lt(a, b),
{
    assert forall|k: int|
        0 <= k < a.len() && k < b.len() && a.take(k) == b.take(k) && (#[trigger] a[k] as u32) < (
        b[k] as u32) implies seq_lt(a, b) by {
        lemma_seq_lt_at(a, b, k);
    }
    if a.len() < b.len() && b.take(a.len() as int) == a {
        lemma_seq_lt_prefix(a, b);
    }
}

/// Executable `seq_lt`.
pub fn chars_lt(a: &Vec<char>, b: &Vec<char>) -> (res: bool)
    ensures
        res == seq_lt(a@, b@),
{
    let mut i: usize = 0;
    assert(a@.skip(0) == a@);
    assert(b@.skip(0) == b@);
    while i < a.len() && i < b.len() && a[i] == b[i]
        invariant
            i <= a.len(),
            i <= b.len(),
            forall|k: int| 0 <= k < i ==> a@[k] == b@[k],
            seq_lt(a@, b@) == seq_lt(a@.skip(i as int), b@.skip(i as int)),
        decreases a.len() - i,
    {
        let ghost sa = a@.skip(i as int);
        let ghost sb = b@.skip(i as int);
        assert(sa.drop_first() == a@.skip(i + 1));
        assert(sb.drop_first() == b@.skip(i + 1));
        i = i + 1;
    }
    if i == a.len() {
        i < b.len()
    } else if i == b.len() {
        false
    } else {
        assert(a@.skip(i as int)[0] == a@[i as int]);
        assert(b@.skip(i as int)[0] == b@[i as int]);
        (a[i] as u32) < (b[i] as u32)
    }
}

} // verus!

verus! {

/// The number of bytes of the UTF-8 encoding of `s` (`str::len`).
pub open spec fn byte_len(s: Seq<char>) -> nat {
    vstd::utf8::encode_utf8(s).len()
}

/// The number of bytes of the UTF-8 encoding of `c` (`char::len_utf8`).
pub open spec fn char_width(c: char) -> nat {
    let u = c as u32;
    if u <= 0x7f {
        1
    } else if u <= 0x7ff {
        2
    } else if u <= 0xffff {
        3
    } else {
        4
    }
}

/// UTF-8 encodes a concatenation piece by piece.
pub proof fn lemma_encode_concat(a: Seq<char>, b: Seq<char>)
    ensures
        vstd::utf8::encode_utf8(a + b) == vstd::utf8::encode_utf8(a) + vstd::utf8::encode_utf8(b),
    decreases a.len(),
{
    if a.len() == 0 {
        assert(a + b == b);
        assert(vstd::utf8::encode_utf8(a) == Seq::<u8>::empty());
    } else {
        assert((a + b)[0] == a[0]);
        assert((a + b).drop_first() == a.drop_first() + b);
        lemma_encode_concat(a.drop_first(), b);
    }
}

/// Appending a character adds its width to the byte length.
pub proof fn lemma_byte_len_push(s: Seq<char>, c: char)
    ensures
        byte_len(s.push(c)) == byte_len(s) + char_width(c),
{
    broadcast use vstd::utf8::char_is_scalar;
    lemma_encode_concat(s, seq![c]);
    assert(s.push(c) == s + seq![c]);
    assert(seq![c].drop_first() == Seq::<char>::empty());
    assert(vstd::utf8::is_scalar(c as u32));
    let u = c as u32;
    assert(vstd::utf8::encode_utf8(Seq::<char>::empty()) == Seq::<u8>::empty());
    assert(vstd::utf8::encode_utf8(seq![c]) == vstd::utf8::encode_scalar(u) + vstd::utf8::encode_utf8(
        seq![c].drop_first(),
    ));
    assert(vstd::utf8::encode_scalar(u).len() == char_width(c));
}

/// The byte length of the UTF-8 encoding of `v`.
pub fn utf8_len(v: &Vec<char>) -> (n: u128)
    ensures
        n == byte_len(v@),
        n <= 4 * v@.len(),
{
    let mut n: u128 = 0;
    assert(v@.take(0) == Seq::<char>::empty());
    assert(vstd::utf8::encode_utf8(Seq::<char>::empty()) == Seq::<u8>::empty());
    for i in 0..v.len()
        invariant
            n == byte_len(v@.take(i as int)),
            n <= 4 * i,
            v@.len() <= usize::MAX,
    {
        let u = v[i] as u32;
        let w: u128 = if u <= 0x7f {
            1
        } else if u <= 0x7ff {
            2
        } else if u <= 0xffff {
            3
        } else {
            4
        };
        proof {
            lemma_byte_len_push(v@.take(i as int), v@[i as int]);
            assert(v@.take(i + 1) == v@.take(i as int).push(v@[i as int]));
        }
        n = n + w;
    }
    assert(v@.take(v.len() as int) == v@);
    n
}

/// The parts joined with `sep` between each two.
pub open spec fn join(parts: Seq<Seq<char>>, sep: Seq<char>) -> Seq<char>
    decreases parts.len(),
{
    if parts.len() == 0 {
        seq![]
    } else if parts.len() == 1 {
        parts[0]
    } else {
        join(parts.drop_last(), sep) + sep + parts.last()
    }
}

/// The views of a sequence of character vectors.
pub open spec fn vviews(v: Seq<Vec<char>>) -> Seq<Seq<char>> {
    v.map_values(|w: Vec<char>| w@)
}

/// Executable `join`.
pub fn join_chars(parts: &Vec<Vec<char>>, sep: &Vec<char>) -> (res: Vec<char>)
    ensures
        res@ == join(vviews(parts@), sep@),
{
    let mut res: Vec<char> = Vec::new();
    for i in 0..parts.len()
        invariant
            res@ == join(vviews(parts@).take(i as int), sep@),
    {
        let ghost pv = vviews(parts@);
        assert(pv.take(i + 1).drop_last() == pv.take(i as int));
        assert(pv.take(i + 1).last() == parts@[i as int]@);
        if i > 0 {
            extend_chars(&mut res, sep);
        } else {
            assert(pv.take(1)[0] == parts@[0]@);
        }
        extend_chars(&mut res, &parts[i]);
    }
    assert(vviews(parts@).take(parts.len() as int) == vviews(parts@));
    res
}

} // verus!
