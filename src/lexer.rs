//! Splitting CUE text into lines, and lines into tokens. A token is either a
//! bare run of non-blank characters or a double-quoted string, whose quotes
//! are stripped and whose inner blanks are kept.

use vstd::prelude::*;
use vstd::std_specs::iter::IteratorSpec;

verus! {

/// Blank characters between tokens.
pub open spec fn is_blank(c: char) -> bool {
    c == ' ' || c == '\t' || c == '\r'
}

/// The first position at or after `i` that holds no blank (or the end).
pub open spec fn skip_blanks(l: Seq<char>, i: int) -> int
    decreases l.len() - i,
{
    if 0 <= i < l.len() && is_blank(l[i]) {
        skip_blanks(l, i + 1)
    } else {
        i
    }
}

/// The end of a bare token that starts at or before `i`.
pub open spec fn bare_end(l: Seq<char>, i: int) -> int
    decreases l.len() - i,
{
    if 0 <= i < l.len() && !is_blank(l[i]) {
        bare_end(l, i + 1)
    } else {
        i
    }
}

/// The first position at or after `i` holding the character `c` (or the end).
pub open spec fn find_char(l: Seq<char>, i: int, c: char) -> int
    decreases l.len() - i,
{
    if 0 <= i < l.len() && l[i] != c {
        find_char(l, i + 1, c)
    } else {
        i
    }
}

/// The token that starts at position `i`, with the position just after it;
/// `None` for a quoted string that is never closed.
pub open spec fn token_at(l: Seq<char>, i: int) -> Option<(Seq<char>, int)> {
    if 0 <= i < l.len() && l[i] == '"' {
        let q = find_char(l, i + 1, '"');
        if q < l.len() {
            Some((l.subrange(i + 1, q), q + 1))
        } else {
            None
        }
    } else {
        let e = bare_end(l, i);
        Some((l.subrange(i, e), e))
    }
}

/// The tokens of `l` from position `i` on; `None` where a quote is left open.
/// (A token always ends past `i` and within `l`; the test of that below only
/// makes termination evident.)
pub open spec fn tokens_from(l: Seq<char>, i: int) -> Option<Seq<Seq<char>>>
    decreases l.len() - i,
{
    let j = skip_blanks(l, i);
    if j < 0 || j >= l.len() {
        Some(Seq::empty())
    } else {
        match token_at(l, j) {
            None => None,
            Some((t, k)) => {
                if i < k <= l.len() {
                    match tokens_from(l, k) {
                        None => None,
                        Some(rest) => Some(seq![t] + rest),
                    }
                } else {
                    None
                }
            },
        }
    }
}

/// Trailing blanks removed.
pub open spec fn trim_end(s: Seq<char>) -> Seq<char>
    decreases s.len(),
{
    if s.len() > 0 && is_blank(s.last()) {
        trim_end(s.drop_last())
    } else {
        s
    }
}

pub proof fn lemma_skip_blanks_bounds(l: Seq<char>, i: int)
    requires
        0 <= i <= l.len(),
    ensures
        i <= skip_blanks(l, i) <= l.len(),
        skip_blanks(l, i) < l.len() ==> !is_blank(l[skip_blanks(l, i)]),
    decreases l.len() - i,
{
    if i < l.len() && is_blank(l[i]) {
        lemma_skip_blanks_bounds(l, i + 1);
    }
}

pub proof fn lemma_bare_end_bounds(l: Seq<char>, i: int)
    requires
        0 <= i <= l.len(),
    ensures
        i <= bare_end(l, i) <= l.len(),
    decreases l.len() - i,
{
    if i < l.len() && !is_blank(l[i]) {
        lemma_bare_end_bounds(l, i + 1);
    }
}

pub proof fn lemma_find_char_bounds(l: Seq<char>, i: int, c: char)
    requires
        0 <= i <= l.len(),
    ensures
        i <= find_char(l, i, c) <= l.len(),
    decreases l.len() - i,
{
    if i < l.len() && l[i] != c {
        lemma_find_char_bounds(l, i + 1, c);
    }
}

/// Position of the first blank-free character at or after `i`.
pub fn skip_blanks_exec(l: &Vec<char>, i: usize) -> (r: usize)
    requires
        i <= l@.len(),
    ensures
        r as int == skip_blanks(l@, i as int),
{
    let mut k = i;
    while k < l.len() && (l[k] == ' ' || l[k] == '\t' || l[k] == '\r')
        invariant
            i <= k <= l@.len(),
            skip_blanks(l@, k as int) == skip_blanks(l@, i as int),
        decreases l@.len() - k,
    {
        k = k + 1;
    }
    k
}

/// End of the bare token starting at `i`.
fn bare_end_exec(l: &Vec<char>, i: usize) -> (r: usize)
    requires
        i <= l@.len(),
    ensures
        r as int == bare_end(l@, i as int),
{
    let mut k = i;
    while k < l.len() && !(l[k] == ' ' || l[k] == '\t' || l[k] == '\r')
        invariant
            i <= k <= l@.len(),
            bare_end(l@, k as int) == bare_end(l@, i as int),
        decreases l@.len() - k,
    {
        k = k + 1;
    }
    k
}

/// Position of the first `c` at or after `i`.
pub fn find_char_exec(l: &Vec<char>, i: usize, c: char) -> (r: usize)
    requires
        i <= l@.len(),
    ensures
        r as int == find_char(l@, i as int, c),
{
    let mut k = i;
    while k < l.len() && l[k] != c
        invariant
            i <= k <= l@.len(),
            find_char(l@, k as int, c) == find_char(l@, i as int, c),
        decreases l@.len() - k,
    {
        k = k + 1;
    }
    k
}

/// A copy of the characters from `a` up to `b`.
pub fn copy_range(l: &Vec<char>, a: usize, b: usize) -> (r: Vec<char>)
    requires
        a <= b <= l@.len(),
    ensures
        r@ == l@.subrange(a as int, b as int),
{
    let mut r: Vec<char> = Vec::new();
    let mut k = a;
    while k < b
        invariant
            a <= k <= b <= l@.len(),
            r@ == l@.subrange(a as int, k as int),
        decreases b - k,
    {
        r.push(l[k]);
        k = k + 1;
        assert(r@ =~= l@.subrange(a as int, k as int));
    }
    r
}

/// The token starting at `i`, which holds no blank, and the position after it.
pub fn token_at_exec(l: &Vec<char>, i: usize) -> (r: Option<(Vec<char>, usize)>)
    requires
        i < l@.len(),
        !is_blank(l@[i as int]),
    ensures
        match r {
            None => token_at(l@, i as int) is None,
            Some((t, k)) => token_at(l@, i as int) == Some((t@, k as int)),
        },
        r matches Some((t, k)) ==> i < k <= l@.len(),
{
    let n = l.len();
    if l[i] == '"' {
        let q = find_char_exec(l, i + 1, '"');
        proof { lemma_find_char_bounds(l@, i + 1, '"'); }
        if q < l.len() {
            Some((copy_range(l, i + 1, q), q + 1))
        } else {
            None
        }
    } else {
        let e = bare_end_exec(l, i);
        proof {
            lemma_bare_end_bounds(l@, i as int);
            lemma_bare_end_bounds(l@, i + 1);
            assert(l@[i as int] != '"');
        }
        Some((copy_range(l, i, e), e))
    }
}

/// The characters of each token.
pub open spec fn words(v: Seq<Vec<char>>) -> Seq<Seq<char>> {
    v.map_values(|t: Vec<char>| t@)
}

/// The tokens of `l` from position `i` on; `None` where a quote is left open.
pub fn tokenize(l: &Vec<char>, i: usize) -> (r: Option<Vec<Vec<char>>>)
    requires
        i <= l@.len(),
    ensures
        match r {
            None => tokens_from(l@, i as int) is None,
            Some(v) => tokens_from(l@, i as int) == Some(words(v@)),
        },
{
    let n = l.len();
    let mut acc: Vec<Vec<char>> = Vec::new();
    let mut k = i;
    proof {
        assert(words(acc@) + Seq::<Seq<char>>::empty() =~= Seq::<Seq<char>>::empty());
        match tokens_from(l@, i as int) {
            None => {},
            Some(rest) => { assert(words(acc@) + rest =~= rest); },
        }
    }
    loop
        invariant
            i <= k <= n,
            n == l@.len(),
            tokens_from(l@, i as int) == match tokens_from(l@, k as int) {
                None => None,
                Some(rest) => Some(words(acc@) + rest),
            },
        decreases n - k,
    {
        let j = skip_blanks_exec(l, k);
        proof { lemma_skip_blanks_bounds(l@, k as int); }
        if j >= n {
            proof { assert(words(acc@) + Seq::<Seq<char>>::empty() =~= words(acc@)); }
            return Some(acc);
        }
        match token_at_exec(l, j) {
            None => {
                return None;
            },
            Some((t, e)) => {
                let ghost before = words(acc@);
                let ghost tv = t@;
                acc.push(t);
                proof {
                    assert(words(acc@) =~= before.push(tv));
                    match tokens_from(l@, e as int) {
                        None => {},
                        Some(rest) => {
                            assert(before + (seq![tv] + rest) =~= words(acc@) + rest);
                        },
                    }
                }
                k = e;
            },
        }
    }
}

/// `s` without its trailing blanks.
pub fn trim_end_exec(s: Vec<char>) -> (r: Vec<char>)
    ensures
        r@ == trim_end(s@),
{
    let mut r = s;
    while r.len() > 0 && (r[r.len() - 1] == ' ' || r[r.len() - 1] == '\t' || r[r.len() - 1] == '\r')
        invariant
            trim_end(r@) == trim_end(s@),
        decreases r@.len(),
    {
        let ghost before = r@;
        r.pop();
        proof { assert(r@ =~= before.drop_last()); }
    }
    r
}

/// Whether the characters of `t` are exactly those of `w`.
pub fn is_word(t: &Vec<char>, w: &str) -> (r: bool)
    ensures
        r == (t@ == w@),
{
    let n = w.unicode_len();
    if t.len() != n {
        return false;
    }
    let mut k: usize = 0;
    while k < n
        invariant
            k <= n,
            n == t@.len(),
            n == w@.len(),
            t@.subrange(0, k as int) == w@.subrange(0, k as int),
        decreases n - k,
    {
        if t[k] != w.get_char(k) {
            return false;
        }
        proof {
            assert(t@.subrange(0, k + 1) =~= t@.subrange(0, k as int).push(t@[k as int]));
            assert(w@.subrange(0, k + 1) =~= w@.subrange(0, k as int).push(w@[k as int]));
        }
        k = k + 1;
    }
    proof {
        assert(t@ =~= t@.subrange(0, n as int));
        assert(w@ =~= w@.subrange(0, n as int));
    }
    true
}

/// Relies on `String::push`: the character is appended at the end.
#[verifier::external_body]
fn push_char(s: &mut String, c: char)
    ensures
        final(s)@ == old(s)@.push(c),
{
    s.push(c)
}

/// The string made of the characters of `v`.
pub fn string_from(v: &Vec<char>) -> (r: String)
    ensures
        r@ == v@,
{
    let mut r = String::new();
    let mut k: usize = 0;
    while k < v.len()
        invariant
            k <= v@.len(),
            r@ == v@.subrange(0, k as int),
        decreases v@.len() - k,
    {
        push_char(&mut r, v[k]);
        k = k + 1;
        proof { assert(r@ =~= v@.subrange(0, k as int)); }
    }
    proof { assert(v@ =~= v@.subrange(0, v@.len() as int)); }
    r
}

/// The characters of `s`, in order.
pub fn chars_of(s: &str) -> (r: Vec<char>)
    ensures
        r@ == s@,
{
    broadcast use vstd::string::group_string_axioms;
    let mut it = s.chars();
    let mut r: Vec<char> = Vec::new();
    loop
        invariant
            r@ + IteratorSpec::remaining(&it) == s@,
            it.obeys_prophetic_iter_laws(),
            IteratorSpec::decrease(&it) is Some,
        ensures
            r@ == s@,
        decreases IteratorSpec::decrease(&it)->0,
    {
        let ghost before = IteratorSpec::remaining(&it);
        match it.next() {
            Some(c) => {
                r.push(c);
                assert(r@ + IteratorSpec::remaining(&it) =~= s@) by {
                    assert(before == seq![c] + before.drop_first());
                }
            },
            None => {
                assert(r@ =~= s@);
                break;
            },
        }
    }
    r
}

} // verus!
