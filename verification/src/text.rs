//! Verified primitives over character sequences: conversion between `String`
//! and `Vec<char>`, literal substring matching, and the global literal
//! replacement that the rewriting passes rely on.
use vstd::prelude::*;

verus! {

use vstd::string::StrSliceExecFns;

/// The six whitespace characters recognised between tokens in stylesheet
/// directives: space, tab, line feed, carriage return, form feed and
/// vertical tab. The set is deliberately ASCII-only — CSS itself defines
/// whitespace over ASCII, so a directive separated by exotic Unicode spacing
/// is not matched.
pub open spec fn is_space(c: char) -> bool {
    c == ' ' || c == '\t' || c == '\n' || c == '\r' || c == '\u{c}' || c == '\u{b}'
}

/// The pattern `p` occurs in `t` starting at index `i`.
pub open spec fn matches_at(t: Seq<char>, p: Seq<char>, i: int) -> bool {
    0 <= i && i + p.len() <= t.len() && t.subrange(i, i + p.len()) == p
}

/// ASCII-case-insensitive character equality.
pub open spec fn eq_nocase(a: char, b: char) -> bool {
    ||| a == b
    ||| ('A' <= a && a <= 'Z' && b as u32 == a as u32 + 32)
    ||| ('A' <= b && b <= 'Z' && a as u32 == b as u32 + 32)
}

/// The pattern `p` occurs at index `i` of `t` up to ASCII case.
pub open spec fn matches_nocase_at(t: Seq<char>, p: Seq<char>, i: int) -> bool {
    &&& 0 <= i
    &&& i + p.len() <= t.len()
    &&& forall|k: int| 0 <= k < p.len() ==> eq_nocase(t[i + k], p[k])
}

/// The index of the first non-whitespace character at or after `i`
/// (`t.len()` when only whitespace remains).
pub open spec fn skip_ws_idx(t: Seq<char>, i: int) -> int
    decreases t.len() - i,
{
    if i < 0 || i >= t.len() {
        i
    } else if is_space(t[i]) {
        skip_ws_idx(t, i + 1)
    } else {
        i
    }
}

/// The index of the first occurrence of the character `c` at or after `i`.
pub open spec fn first_char_from(t: Seq<char>, c: char, i: int) -> Option<int>
    decreases t.len() - i,
{
    if i < 0 || i >= t.len() {
        None
    } else if t[i] == c {
        Some(i)
    } else {
        first_char_from(t, c, i + 1)
    }
}

/// The index of the last occurrence of the character `c` at or before `i`.
pub open spec fn last_char_before(t: Seq<char>, c: char, i: int) -> Option<int>
    decreases i + 1,
{
    if i < 0 || i >= t.len() {
        None
    } else if t[i] == c {
        Some(i)
    } else {
        last_char_before(t, c, i - 1)
    }
}

/// Every occurrence of the non-empty pattern `p` in `t`, scanned left to
/// right without overlap, replaced by `r`.
pub open spec fn spec_replace(t: Seq<char>, p: Seq<char>, r: Seq<char>) -> Seq<char>
    decreases t.len(),
{
    if p.len() == 0 || t.len() < p.len() {
        t
    } else if t.subrange(0, p.len() as int) == p {
        r + spec_replace(t.skip(p.len() as int), p, r)
    } else {
        seq![t[0]] + spec_replace(t.skip(1), p, r)
    }
}

/// The characters of `s`, in order.
pub fn chars_of(s: &str) -> (r: Vec<char>)
    ensures
        r@ == s@,
{
    let n = s.unicode_len();
    let mut r: Vec<char> = Vec::new();
    let mut i: usize = 0;
    while i < n
        invariant
            i <= n,
            n == s@.len(),
            r@ == s@.subrange(0, i as int),
        decreases n - i,
    {
        let c = s.get_char(i);
        r.push(c);
        proof {
            assert(r@ =~= s@.subrange(0, i + 1 as int));
        }
        i = i + 1;
    }
    proof {
        assert(r@ =~= s@);
    }
    r
}

/// The string whose characters are exactly `cs`, in order.
///
/// Relies on `String: FromIterator<char>`: collecting an iterator of
/// characters yields the string of those characters in order.
#[verifier::external_body]
pub fn string_of(cs: &Vec<char>) -> (r: String)
    ensures
        r@ == cs@,
{
    cs.iter().collect()
}

/// Appends every character of `src` to `out`.
pub fn push_all(out: &mut Vec<char>, src: &Vec<char>)
    ensures
        final(out)@ == old(out)@ + src@,
{
    let mut i: usize = 0;
    while i < src.len()
        invariant
            i <= src@.len(),
            out@ == old(out)@ + src@.subrange(0, i as int),
        decreases src@.len() - i,
    {
        let c = src[i];
        out.push(c);
        proof {
            assert(out@ =~= old(out)@ + src@.subrange(0, i + 1 as int));
        }
        i = i + 1;
    }
    proof {
        assert(out@ =~= old(out)@ + src@);
    }
}

/// The characters of `t` from `from` (inclusive) to `to` (exclusive).
pub fn sub_vec(t: &Vec<char>, from: usize, to: usize) -> (r: Vec<char>)
    requires
        from <= to <= t@.len(),
    ensures
        r@ == t@.subrange(from as int, to as int),
{
    let mut r: Vec<char> = Vec::new();
    let mut i: usize = from;
    while i < to
        invariant
            from <= i <= to <= t@.len(),
            r@ == t@.subrange(from as int, i as int),
        decreases to - i,
    {
        let c = t[i];
        r.push(c);
        proof {
            assert(r@ =~= t@.subrange(from as int, i + 1 as int));
        }
        i = i + 1;
    }
    r
}

/// Whether the two character vectors hold the same characters.
pub fn vec_eq(a: &Vec<char>, b: &Vec<char>) -> (r: bool)
    ensures
        r == (a@ == b@),
{
    if a.len() != b.len() {
        proof {
            assert(a@ != b@);
        }
        return false;
    }
    let mut i: usize = 0;
    while i < a.len()
        invariant
            i <= a@.len(),
            a@.len() == b@.len(),
            forall|k: int| 0 <= k < i ==> a@[k] == b@[k],
        decreases a@.len() - i,
    {
        if a[i] != b[i] {
            proof {
                assert(a@ != b@);
            }
            return false;
        }
        i = i + 1;
    }
    proof {
        assert(a@ =~= b@);
    }
    true
}

/// Whether `p` occurs in `t` at index `i`.
pub fn match_at(t: &Vec<char>, p: &Vec<char>, i: usize) -> (r: bool)
    ensures
        r == matches_at(t@, p@, i as int),
{
    if i > t.len() || p.len() > t.len() - i {
        return false;
    }
    let mut k: usize = 0;
    while k < p.len()
        invariant
            k <= p@.len(),
            i + p@.len() <= t@.len(),
            t@.len() <= usize::MAX,
            forall|j: int| 0 <= j < k ==> t@[i + j] == p@[j],
        decreases p@.len() - k,
    {
        proof {
            assert(i + k < t@.len());
        }
        if t[i + k] != p[k] {
            proof {
                assert(t@.subrange(i as int, i + p@.len())[k as int] == t@[i + k]);
            }
            return false;
        }
        k = k + 1;
    }
    proof {
        assert(t@.subrange(i as int, i + p@.len()) =~= p@);
    }
    true
}

/// Whether `p` occurs at index `i` of `t` up to ASCII case.
pub fn match_at_nocase(t: &Vec<char>, p: &Vec<char>, i: usize) -> (r: bool)
    ensures
        r == matches_nocase_at(t@, p@, i as int),
{
    if i > t.len() || p.len() > t.len() - i {
        return false;
    }
    let mut k: usize = 0;
    while k < p.len()
        invariant
            k <= p@.len(),
            i + p@.len() <= t@.len(),
            t@.len() <= usize::MAX,
            forall|j: int| 0 <= j < k ==> eq_nocase(t@[i + j], p@[j]),
        decreases p@.len() - k,
    {
        proof {
            assert(i + k < t@.len());
        }
        let a = t[i + k];
        let b = p[k];
        let same = a == b || ('A' <= a && a <= 'Z' && b as u32 == a as u32 + 32) || ('A' <= b
            && b <= 'Z' && a as u32 == b as u32 + 32);
        if !same {
            return false;
        }
        k = k + 1;
    }
    true
}

/// The index of the first non-whitespace character at or after `i`.
pub fn skip_ws(t: &Vec<char>, i: usize) -> (r: usize)
    requires
        i <= t@.len(),
    ensures
        r == skip_ws_idx(t@, i as int),
        i <= r <= t@.len(),
{
    let mut j: usize = i;
    while j < t.len()
        invariant
            i <= j <= t@.len(),
            skip_ws_idx(t@, i as int) == skip_ws_idx(t@, j as int),
        decreases t@.len() - j,
    {
        let c = t[j];
        if !(c == ' ' || c == '\t' || c == '\n' || c == '\r' || c == '\u{c}' || c == '\u{b}') {
            return j;
        }
        j = j + 1;
    }
    j
}

/// The index of the first occurrence of `c` at or after `i`.
pub fn find_char(t: &Vec<char>, c: char, i: usize) -> (r: Option<usize>)
    requires
        i <= t@.len(),
    ensures
        match r {
            Some(e) => first_char_from(t@, c, i as int) == Some(e as int) && i <= e < t@.len()
                && t@[e as int] == c,
            None => first_char_from(t@, c, i as int) is None,
        },
{
    let mut j: usize = i;
    while j < t.len()
        invariant
            i <= j <= t@.len(),
            first_char_from(t@, c, i as int) == first_char_from(t@, c, j as int),
        decreases t@.len() - j,
    {
        if t[j] == c {
            return Some(j);
        }
        j = j + 1;
    }
    None
}

/// The index of the last occurrence of `c` in `t`.
pub fn find_last_char(t: &Vec<char>, c: char) -> (r: Option<usize>)
    ensures
        match r {
            Some(e) => last_char_before(t@, c, t@.len() - 1) == Some(e as int) && e < t@.len()
                && t@[e as int] == c,
            None => last_char_before(t@, c, t@.len() - 1) is None,
        },
{
    if t.len() == 0 {
        return None;
    }
    let mut j: usize = t.len() - 1;
    loop
        invariant
            j < t@.len(),
            last_char_before(t@, c, t@.len() - 1) == last_char_before(t@, c, j as int),
        decreases j,
    {
        if t[j] == c {
            return Some(j);
        }
        if j == 0 {
            return None;
        }
        j = j - 1;
    }
}

/// Replaces, left to right and without overlap, every occurrence of the
/// non-empty pattern `p` in `t` by `r`.
pub fn replace_all(t: &Vec<char>, p: &Vec<char>, r: &Vec<char>) -> (out: Vec<char>)
    requires
        p@.len() > 0,
    ensures
        out@ == spec_replace(t@, p@, r@),
{
    let mut out: Vec<char> = Vec::new();
    let mut i: usize = 0;
    proof {
        assert(t@.skip(0) =~= t@);
        assert(Seq::<char>::empty() + spec_replace(t@, p@, r@) =~= spec_replace(t@, p@, r@));
    }
    while i < t.len()
        invariant
            i <= t@.len(),
            p@.len() > 0,
            spec_replace(t@, p@, r@) == out@ + spec_replace(t@.skip(i as int), p@, r@),
        decreases t@.len() - i,
    {
        let ghost rest = t@.skip(i as int);
        if match_at(t, p, i) {
            push_all(&mut out, r);
            proof {
                assert(rest.subrange(0, p@.len() as int) =~= t@.subrange(
                    i as int,
                    i + p@.len(),
                ));
                assert(rest.skip(p@.len() as int) =~= t@.skip(i + p@.len()));
                assert(spec_replace(rest, p@, r@) == r@ + spec_replace(
                    t@.skip(i + p@.len()),
                    p@,
                    r@,
                ));
                assert(out@ + spec_replace(t@.skip(i + p@.len()), p@, r@) =~= spec_replace(
                    t@,
                    p@,
                    r@,
                ));
            }
            i = i + p.len();
        } else {
            let c = t[i];
            out.push(c);
            proof {
                assert(!matches_at(t@, p@, i as int));
                if rest.len() >= p@.len() {
                    assert(rest.subrange(0, p@.len() as int) =~= t@.subrange(
                        i as int,
                        i + p@.len(),
                    ));
                    assert(rest.subrange(0, p@.len() as int) != p@);
                    assert(rest[0] == t@[i as int]);
                    assert(rest.skip(1) =~= t@.skip(i + 1));
                    assert(spec_replace(rest, p@, r@) == seq![t@[i as int]] + spec_replace(
                        t@.skip(i + 1),
                        p@,
                        r@,
                    ));
                } else {
                    // the tail is shorter than the pattern: it is returned
                    // unchanged, and so is its own tail
                    assert(spec_replace(rest, p@, r@) == rest);
                    assert(t@.skip(i + 1).len() < p@.len());
                    assert(spec_replace(t@.skip(i + 1), p@, r@) == t@.skip(i + 1));
                    assert(rest =~= seq![t@[i as int]] + t@.skip(i + 1));
                }
                assert(out@ + spec_replace(t@.skip(i + 1), p@, r@) =~= spec_replace(
                    t@,
                    p@,
                    r@,
                ));
            }
            i = i + 1;
        }
    }
    proof {
        assert(t@.skip(i as int) =~= Seq::<char>::empty());
        assert(spec_replace(t@.skip(i as int), p@, r@) =~= Seq::<char>::empty());
        assert(out@ =~= spec_replace(t@, p@, r@));
    }
    out
}

/// Occurrences shift with `skip`: `p` occurs in the tail of `t` after `n`
/// at `i` exactly when it occurs in `t` at `n + i`.
pub proof fn lemma_matches_at_skip(t: Seq<char>, p: Seq<char>, n: int, i: int)
    requires
        0 <= n <= t.len(),
        0 <= i,
    ensures
        matches_at(t.skip(n), p, i) == matches_at(t, p, n + i),
{
    if i + p.len() <= t.skip(n).len() {
        assert(t.skip(n).subrange(i, i + p.len() as int) =~= t.subrange(
            n + i,
            n + i + p.len(),
        ));
    }
}

/// A text with no occurrence of the pattern is left unchanged.
pub proof fn lemma_replace_no_match(t: Seq<char>, p: Seq<char>, r: Seq<char>)
    requires
        p.len() > 0,
        forall|i: int| !matches_at(t, p, i),
    ensures
        spec_replace(t, p, r) == t,
    decreases t.len(),
{
    if t.len() < p.len() {
    } else {
        assert(!matches_at(t, p, 0));
        assert(t.subrange(0, p.len() as int) != p);
        assert forall|i: int| !matches_at(t.skip(1), p, i) by {
            if 0 <= i {
                lemma_matches_at_skip(t, p, 1, i);
            }
        }
        lemma_replace_no_match(t.skip(1), p, r);
        assert(seq![t[0]] + t.skip(1) =~= t);
    }
}

/// The replacement rewrites the text around each occurrence: if `p` first
/// occurs right after the prefix `x`, the output is `x`, then `r`, then the
/// replacement applied to the rest.
pub proof fn lemma_replace_first(x: Seq<char>, p: Seq<char>, y: Seq<char>, r: Seq<char>)
    requires
        p.len() > 0,
        forall|i: int| i < x.len() ==> !matches_at(x + p + y, p, i),
    ensures
        spec_replace(x + p + y, p, r) == x + r + spec_replace(y, p, r),
    decreases x.len(),
{
    let t = x + p + y;
    if x.len() == 0 {
        assert(t.subrange(0, p.len() as int) =~= p);
        assert(t.skip(p.len() as int) =~= y);
        assert(x + r + spec_replace(y, p, r) =~= r + spec_replace(y, p, r));
    } else {
        assert(!matches_at(t, p, 0));
        assert(t.len() >= p.len());
        assert(t.subrange(0, p.len() as int) != p);
        let x1 = x.skip(1);
        let t1 = x1 + p + y;
        assert(t1 =~= t.skip(1));
        assert forall|i: int| i < x1.len() implies !matches_at(t1, p, i) by {
            if 0 <= i {
                lemma_matches_at_skip(t, p, 1, i);
            }
        }
        lemma_replace_first(x1, p, y, r);
        assert(t[0] == x[0]);
        assert(seq![x[0]] + (x1 + r + spec_replace(y, p, r)) =~= x + r + spec_replace(
            y,
            p,
            r,
        ));
    }
}

/// A text holding exactly one occurrence of the pattern has exactly that
/// occurrence substituted.
pub proof fn lemma_replace_single(x: Seq<char>, p: Seq<char>, y: Seq<char>, r: Seq<char>)
    requires
        p.len() > 0,
        forall|i: int| i < x.len() ==> !matches_at(x + p + y, p, i),
        forall|i: int| !matches_at(y, p, i),
    ensures
        spec_replace(x + p + y, p, r) == x + r + y,
{
    lemma_replace_first(x, p, y, r);
    lemma_replace_no_match(y, p, r);
    assert(x + r + spec_replace(y, p, r) =~= x + r + y);
}

} // verus!
