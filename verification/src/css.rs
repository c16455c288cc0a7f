//! Verified scanners for the stylesheet grammar: `@font-face { ... }`
//! blocks, `url(...)` references, and `@import url(...);` directives
//! (the directive keywords matched without regard to ASCII case), plus the
//! quote- and query-stripping applied to `url(...)` sources.
use crate::text::{
    find_char, first_char_from, match_at, match_at_nocase, matches_at, matches_nocase_at, skip_ws,
    skip_ws_idx, sub_vec,
};
use vstd::prelude::*;

verus! {

/// The opener of a `url(...)` reference (matched case-sensitively).
pub open spec fn url_open() -> Seq<char> {
    "url("@
}

/// The `@font-face` keyword (matched case-sensitively).
pub open spec fn font_face_kw() -> Seq<char> {
    "@font-face"@
}

/// The `@import` keyword (matched without regard to ASCII case).
pub open spec fn import_kw() -> Seq<char> {
    "@import"@
}

/// The `url` keyword of an import directive (matched without regard to
/// ASCII case).
pub open spec fn url_kw() -> Seq<char> {
    "url"@
}

/// A `url(...)` reference starting at `i`: `url(`, then at least one
/// character other than `)`, then the first `)`. Yields the capture bounds
/// (the characters between the parentheses) and the index one past the
/// match.
pub open spec fn url_at(t: Seq<char>, i: int) -> Option<(int, int, int)> {
    if matches_at(t, url_open(), i) {
        let cs = i + url_open().len();
        match first_char_from(t, ')', cs) {
            Some(e) => if e > cs {
                Some((cs, e, e + 1))
            } else {
                None
            },
            None => None,
        }
    } else {
        None
    }
}

/// Every `url(...)` capture in `t` from index `i` on, scanned left to right,
/// each scan resuming one past the previous match.
pub open spec fn scan_urls(t: Seq<char>, i: int) -> Seq<Seq<char>>
    decreases t.len() - i,
{
    if i < 0 || i >= t.len() {
        Seq::empty()
    } else {
        match url_at(t, i) {
            Some((cs, ce, end)) => if i < end <= t.len() {
                seq![t.subrange(cs, ce)] + scan_urls(t, end)
            } else {
                Seq::empty()
            },
            None => scan_urls(t, i + 1),
        }
    }
}

/// A `@font-face` block starting at `i`: the keyword, optional whitespace,
/// `{`, at least one character other than `}`, then the first `}`. Yields
/// the index one past the closing brace.
pub open spec fn block_at(t: Seq<char>, i: int) -> Option<int> {
    if matches_at(t, font_face_kw(), i) {
        let j = skip_ws_idx(t, i + font_face_kw().len());
        if 0 <= j < t.len() && t[j] == '{' {
            match first_char_from(t, '}', j + 1) {
                Some(e) => if e > j + 1 {
                    Some(e + 1)
                } else {
                    None
                },
                None => None,
            }
        } else {
            None
        }
    } else {
        None
    }
}

/// Every `@font-face { ... }` block of `t` from index `i` on (the whole
/// matched block text), scanned left to right.
pub open spec fn scan_font_blocks(t: Seq<char>, i: int) -> Seq<Seq<char>>
    decreases t.len() - i,
{
    if i < 0 || i >= t.len() {
        Seq::empty()
    } else {
        match block_at(t, i) {
            Some(end) => if i < end <= t.len() {
                seq![t.subrange(i, end)] + scan_font_blocks(t, end)
            } else {
                Seq::empty()
            },
            None => scan_font_blocks(t, i + 1),
        }
    }
}

/// After optional whitespace at `k` expects `)`, then after optional
/// whitespace `;`; yields the index one past the `;`.
pub open spec fn close_paren_semi(t: Seq<char>, k: int) -> Option<int> {
    let a = skip_ws_idx(t, k);
    if 0 <= a < t.len() && t[a] == ')' {
        semi_after(t, a + 1)
    } else {
        None
    }
}

/// After optional whitespace at `k` expects `;`; yields the index one past
/// it.
pub open spec fn semi_after(t: Seq<char>, k: int) -> Option<int> {
    let b = skip_ws_idx(t, k);
    if 0 <= b < t.len() && t[b] == ';' {
        Some(b + 1)
    } else {
        None
    }
}

/// An `@import url(...);` directive starting at `i`: `@import`, whitespace,
/// `url`, optional whitespace, `(`, optional whitespace, then either a
/// quoted target (`"..."` or `'...'`) or a bare target running to the
/// closing `)`, then `)` (for a quoted target) and `;`, each after optional
/// whitespace. Yields the target capture bounds and the index one past the
/// `;`.
pub open spec fn import_at(t: Seq<char>, i: int) -> Option<(int, int, int)> {
    if !matches_nocase_at(t, import_kw(), i) {
        None
    } else {
        let j0 = i + import_kw().len();
        let j1 = skip_ws_idx(t, j0);
        if j1 <= j0 || !matches_nocase_at(t, url_kw(), j1) {
            None
        } else {
            let j2 = skip_ws_idx(t, j1 + url_kw().len());
            if !(0 <= j2 < t.len() && t[j2] == '(') {
                None
            } else {
                let j3 = skip_ws_idx(t, j2 + 1);
                if 0 <= j3 < t.len() && (t[j3] == '"' || t[j3] == '\'') {
                    match first_char_from(t, t[j3], j3 + 1) {
                        Some(q) => if q > j3 + 1 {
                            match close_paren_semi(t, q + 1) {
                                Some(end) => Some((j3 + 1, q, end)),
                                None => None,
                            }
                        } else {
                            None
                        },
                        None => None,
                    }
                } else if 0 <= j3 < t.len() {
                    match first_char_from(t, ')', j3) {
                        Some(e) => if e > j3 {
                            match semi_after(t, e + 1) {
                                Some(end) => Some((j3, e, end)),
                                None => None,
                            }
                        } else {
                            None
                        },
                        None => None,
                    }
                } else {
                    None
                }
            }
        }
    }
}

/// Every `@import url(...);` directive of `t` from index `i` on, as a pair
/// of the whole matched statement and the captured target.
pub open spec fn scan_imports(t: Seq<char>, i: int) -> Seq<(Seq<char>, Seq<char>)>
    decreases t.len() - i,
{
    if i < 0 || i >= t.len() {
        Seq::empty()
    } else {
        match import_at(t, i) {
            Some((cs, ce, end)) => if i < end <= t.len() && 0 <= cs <= ce <= t.len() {
                seq![(t.subrange(i, end), t.subrange(cs, ce))] + scan_imports(t, end)
            } else {
                Seq::empty()
            },
            None => scan_imports(t, i + 1),
        }
    }
}

/// Finds a `url(...)` reference at `i`, returning capture bounds and match
/// end.
fn url_match_at(t: &Vec<char>, kw: &Vec<char>, i: usize) -> (r: Option<(usize, usize, usize)>)
    requires
        kw@ == url_open(),
    ensures
        match r {
            Some((cs, ce, end)) => url_at(t@, i as int) == Some((cs as int, ce as int, end as int))
                && i < end <= t@.len() && 0 <= cs <= ce <= t@.len(),
            None => url_at(t@, i as int) is None,
        },
{
    let _n: usize = t.len();
    if !match_at(t, kw, i) {
        return None;
    }
    let cs = i + kw.len();
    match find_char(t, ')', cs) {
        Some(e) => if e > cs {
            Some((cs, e, e + 1))
        } else {
            None
        },
        None => None,
    }
}

/// Finds a `@font-face { ... }` block at `i`, returning the match end.
fn block_match_at(t: &Vec<char>, kw: &Vec<char>, i: usize) -> (r: Option<usize>)
    requires
        kw@ == font_face_kw(),
    ensures
        match r {
            Some(end) => block_at(t@, i as int) == Some(end as int) && i < end <= t@.len(),
            None => block_at(t@, i as int) is None,
        },
{
    let _n: usize = t.len();
    if !match_at(t, kw, i) {
        return None;
    }
    let j = skip_ws(t, i + kw.len());
    if j < t.len() && t[j] == '{' {
        match find_char(t, '}', j + 1) {
            Some(e) => if e > j + 1 {
                Some(e + 1)
            } else {
                None
            },
            None => None,
        }
    } else {
        None
    }
}

/// Finds an `@import url(...);` directive at `i`, returning the target
/// capture bounds and the match end.
fn import_match_at(t: &Vec<char>, ikw: &Vec<char>, ukw: &Vec<char>, i: usize) -> (r: Option<
    (usize, usize, usize),
>)
    requires
        ikw@ == import_kw(),
        ukw@ == url_kw(),
    ensures
        match r {
            Some((cs, ce, end)) => import_at(t@, i as int) == Some(
                (cs as int, ce as int, end as int),
            ) && i < end <= t@.len() && 0 <= cs <= ce <= t@.len(),
            None => import_at(t@, i as int) is None,
        },
{
    let _n: usize = t.len();
    if !match_at_nocase(t, ikw, i) {
        return None;
    }
    let j0 = i + ikw.len();
    let j1 = skip_ws(t, j0);
    if j1 <= j0 || !match_at_nocase(t, ukw, j1) {
        return None;
    }
    let j2 = skip_ws(t, j1 + ukw.len());
    if !(j2 < t.len() && t[j2] == '(') {
        return None;
    }
    let j3 = skip_ws(t, j2 + 1);
    if j3 < t.len() && (t[j3] == '"' || t[j3] == '\'') {
        let qc = t[j3];
        match find_char(t, qc, j3 + 1) {
            Some(q) => {
                if q > j3 + 1 {
                    let a = skip_ws(t, q + 1);
                    if a < t.len() && t[a] == ')' {
                        let b = skip_ws(t, a + 1);
                        if b < t.len() && t[b] == ';' {
                            Some((j3 + 1, q, b + 1))
                        } else {
                            None
                        }
                    } else {
                        None
                    }
                } else {
                    None
                }
            },
            None => None,
        }
    } else if j3 < t.len() {
        match find_char(t, ')', j3) {
            Some(e) => {
                if e > j3 {
                    let b = skip_ws(t, e + 1);
                    if b < t.len() && t[b] == ';' {
                        Some((j3, e, b + 1))
                    } else {
                        None
                    }
                } else {
                    None
                }
            },
            None => None,
        }
    } else {
        None
    }
}

/// Every `url(...)` capture of `t`, in scan order.
pub fn css_urls(t: &Vec<char>) -> (r: Vec<Vec<char>>)
    ensures
        r.deep_view() == scan_urls(t@, 0),
{
    let kw = crate::text::chars_of("url(");
    let mut out: Vec<Vec<char>> = Vec::new();
    let mut i: usize = 0;
    proof {
        assert(out.deep_view() =~~= Seq::<Seq<char>>::empty());
        assert(out.deep_view() + scan_urls(t@, 0) =~~= scan_urls(t@, 0));
    }
    while i < t.len()
        invariant
            i <= t@.len(),
            kw@ == url_open(),
            scan_urls(t@, 0) == out.deep_view() + scan_urls(t@, i as int),
        decreases t@.len() - i,
    {
        let ghost prev = out.deep_view();
        match url_match_at(t, &kw, i) {
            Some((cs, ce, end)) => {
                let cap = sub_vec(t, cs, ce);
                out.push(cap);
                proof {
                    assert(out.deep_view() =~~= prev.push(cap@));
                    assert(scan_urls(t@, i as int) == seq![t@.subrange(cs as int, ce as int)]
                        + scan_urls(t@, end as int));
                    assert(out.deep_view() + scan_urls(t@, end as int) =~~= prev + scan_urls(
                        t@,
                        i as int,
                    ));
                }
                i = end;
            },
            None => {
                proof {
                    assert(scan_urls(t@, i as int) == scan_urls(t@, i + 1));
                }
                i = i + 1;
            },
        }
    }
    proof {
        assert(scan_urls(t@, i as int) =~= Seq::<Seq<char>>::empty());
        assert(out.deep_view() =~~= scan_urls(t@, 0));
    }
    out
}

/// Every `@font-face { ... }` block of `t` (the whole block text), in scan
/// order.
pub fn font_face_blocks(t: &Vec<char>) -> (r: Vec<Vec<char>>)
    ensures
        r.deep_view() == scan_font_blocks(t@, 0),
{
    let kw = crate::text::chars_of("@font-face");
    let mut out: Vec<Vec<char>> = Vec::new();
    let mut i: usize = 0;
    proof {
        assert(out.deep_view() =~~= Seq::<Seq<char>>::empty());
        assert(out.deep_view() + scan_font_blocks(t@, 0) =~~= scan_font_blocks(t@, 0));
    }
    while i < t.len()
        invariant
            i <= t@.len(),
            kw@ == font_face_kw(),
            scan_font_blocks(t@, 0) == out.deep_view() + scan_font_blocks(t@, i as int),
        decreases t@.len() - i,
    {
        let ghost prev = out.deep_view();
        match block_match_at(t, &kw, i) {
            Some(end) => {
                let cap = sub_vec(t, i, end);
                out.push(cap);
                proof {
                    assert(out.deep_view() =~~= prev.push(cap@));
                    assert(scan_font_blocks(t@, i as int) == seq![t@.subrange(i as int, end as int)]
                        + scan_font_blocks(t@, end as int));
                    assert(out.deep_view() + scan_font_blocks(t@, end as int) =~~= prev
                        + scan_font_blocks(t@, i as int));
                }
                i = end;
            },
            None => {
                proof {
                    assert(scan_font_blocks(t@, i as int) == scan_font_blocks(t@, i + 1));
                }
                i = i + 1;
            },
        }
    }
    proof {
        assert(scan_font_blocks(t@, i as int) =~= Seq::<Seq<char>>::empty());
        assert(out.deep_view() =~~= scan_font_blocks(t@, 0));
    }
    out
}

/// One matched `@import url(...);` directive: the whole statement text and
/// the captured import target.
pub struct ImportMatch {
    pub full: Vec<char>,
    pub target: Vec<char>,
}

impl View for ImportMatch {
    type V = (Seq<char>, Seq<char>);

    open spec fn view(&self) -> (Seq<char>, Seq<char>) {
        (self.full@, self.target@)
    }
}

/// Every `@import url(...);` directive of `t`, in scan order, as the whole
/// statement and the captured target. Every returned statement is
/// non-empty.
pub fn css_imports(t: &Vec<char>) -> (r: Vec<ImportMatch>)
    ensures
        r@.map_values(|m: ImportMatch| m@) == scan_imports(t@, 0),
        forall|k: int| 0 <= k < r@.len() ==> (#[trigger] r@[k]).full@.len() > 0,
{
    let ikw = crate::text::chars_of("@import");
    let ukw = crate::text::chars_of("url");
    let mut out: Vec<ImportMatch> = Vec::new();
    let mut i: usize = 0;
    proof {
        assert(out@.map_values(|m: ImportMatch| m@) =~= Seq::<(Seq<char>, Seq<char>)>::empty());
        assert(out@.map_values(|m: ImportMatch| m@) + scan_imports(t@, 0) =~= scan_imports(
            t@,
            0,
        ));
    }
    while i < t.len()
        invariant
            i <= t@.len(),
            ikw@ == import_kw(),
            ukw@ == url_kw(),
            scan_imports(t@, 0) == out@.map_values(|m: ImportMatch| m@) + scan_imports(
                t@,
                i as int,
            ),
            forall|k: int| 0 <= k < out@.len() ==> (#[trigger] out@[k]).full@.len() > 0,
        decreases t@.len() - i,
    {
        let ghost prev = out@.map_values(|m: ImportMatch| m@);
        match import_match_at(t, &ikw, &ukw, i) {
            Some((cs, ce, end)) => {
                let full = sub_vec(t, i, end);
                let target = sub_vec(t, cs, ce);
                let m = ImportMatch { full, target };
                out.push(m);
                proof {
                    assert(out@.map_values(|m: ImportMatch| m@) =~= prev.push(m@));
                    assert(scan_imports(t@, i as int) == seq![
                        (t@.subrange(i as int, end as int), t@.subrange(cs as int, ce as int)),
                    ] + scan_imports(t@, end as int));
                    assert(out@.map_values(|m: ImportMatch| m@) + scan_imports(t@, end as int)
                        =~= prev + scan_imports(t@, i as int));
                }
                i = end;
            },
            None => {
                proof {
                    assert(scan_imports(t@, i as int) == scan_imports(t@, i + 1));
                }
                i = i + 1;
            },
        }
    }
    proof {
        assert(scan_imports(t@, i as int) =~= Seq::<(Seq<char>, Seq<char>)>::empty());
        assert(out@.map_values(|m: ImportMatch| m@) =~= scan_imports(t@, 0));
    }
    out
}

/// The source with one pair of surrounding quotes (`"` or `'`) removed, when
/// present.
pub open spec fn spec_strip_quotes(s: Seq<char>) -> Seq<char> {
    if s.len() >= 2 && ((s[0] == '"' && s[s.len() - 1] == '"') || (s[0] == '\'' && s[s.len()
        - 1] == '\'')) {
        s.subrange(1, s.len() - 1)
    } else {
        s
    }
}

/// Strips one pair of surrounding quotes, when present.
pub fn strip_quotes(v: &Vec<char>) -> (r: Vec<char>)
    ensures
        r@ == spec_strip_quotes(v@),
{
    let n = v.len();
    if n >= 2 {
        let a = v[0];
        let b = v[n - 1];
        if (a == '"' && b == '"') || (a == '\'' && b == '\'') {
            return sub_vec(v, 1, n - 1);
        }
    }
    let r = sub_vec(v, 0, n);
    proof {
        assert(r@ =~= v@);
    }
    r
}

/// The prefix of `s` before the first occurrence of `c` (all of `s` when
/// `c` does not occur).
pub open spec fn spec_before_char(s: Seq<char>, c: char) -> Seq<char> {
    match first_char_from(s, c, 0) {
        Some(k) => s.subrange(0, k),
        None => s,
    }
}

/// A `url(...)` source with any trailing `?query` and `#fragment` removed:
/// the prefix before the first `?`, then before the first `#`.
pub open spec fn spec_strip_query(s: Seq<char>) -> Seq<char> {
    spec_before_char(spec_before_char(s, '?'), '#')
}

/// Strips any trailing `?query` or `#fragment` from a `url(...)` source.
pub fn strip_query_fragment(v: &Vec<char>) -> (r: Vec<char>)
    ensures
        r@ == spec_strip_query(v@),
{
    let a = match find_char(v, '?', 0) {
        Some(k) => sub_vec(v, 0, k),
        None => {
            let n = v.len();
            let c = sub_vec(v, 0, n);
            proof {
                assert(c@ =~= v@);
            }
            c
        },
    };
    match find_char(&a, '#', 0) {
        Some(k) => sub_vec(&a, 0, k),
        None => {
            let n = a.len();
            let c = sub_vec(&a, 0, n);
            proof {
                assert(c@ =~= a@);
            }
            c
        },
    }
}

} // verus!
