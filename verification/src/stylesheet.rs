//! The stylesheet processor: fetching a stylesheet, rewriting the
//! `@font-face` `url(...)` sources it holds to local font paths, expanding
//! its `@import` directives recursively within a depth budget, and
//! flattening the resulting tree in pre-order for persistence.
use crate::css::{
    css_imports, css_urls, font_face_blocks, scan_font_blocks, scan_imports, scan_urls,
    spec_strip_query, spec_strip_quotes, strip_query_fragment, strip_quotes, ImportMatch,
};
use crate::fetch::fetch_bytes_same_origin;
use crate::text::{chars_of, push_all, replace_all, spec_replace, string_of};
use crate::types::{css_view, css_views, lemma_css_views, lemma_css_views_pointwise, raw_views,
    CssView, Fetcher, RawView, ScrapedCss, ScrapedFileRaw};
use crate::urls::{local_name, parse_parts, parse_url, plan_reference, spec_local_name,
    spec_plan, string_eq, UrlParts, UrlPartsView};
use vstd::prelude::*;

verus! {

/// The height of a stylesheet tree: 0 for a leaf, one more than the tallest
/// child otherwise. Each `@import` expansion consumes one unit of the depth
/// budget, so a tree scraped with budget `d` has height at most `d`.
pub open spec fn css_depth(c: CssView) -> nat
    decreases c,
{
    css_seq_depth(c.imports, 0)
}

/// The largest `1 + css_depth` over the elements of `s` from `i` on
/// (0 when there are none).
pub open spec fn css_seq_depth(s: Seq<CssView>, i: int) -> nat
    decreases s, s.len() - i,
{
    if i < 0 || i >= s.len() {
        0
    } else {
        let d = 1 + css_depth(s[i]);
        let rest = css_seq_depth(s, i + 1);
        if d > rest {
            d
        } else {
            rest
        }
    }
}

/// A sequence whose every element has height below `d` has
/// `css_seq_depth` at most `d`.
pub proof fn lemma_seq_depth_bound(s: Seq<CssView>, i: int, d: nat)
    requires
        forall|k: int| 0 <= k < s.len() ==> css_depth(#[trigger] s[k]) < d,
    ensures
        css_seq_depth(s, i) <= d,
    decreases s.len() - i,
{
    if 0 <= i < s.len() {
        lemma_seq_depth_bound(s, i + 1, d);
    }
}

/// The number of nodes of a stylesheet tree (at least 1).
pub open spec fn css_size(c: CssView) -> nat
    decreases c,
{
    1 + css_seq_size(c.imports, 0)
}

/// The total node count of the trees `s[i]`, `s[i + 1]`, ...
pub open spec fn css_seq_size(s: Seq<CssView>, i: int) -> nat
    decreases s, s.len() - i,
{
    if i < 0 || i >= s.len() {
        0
    } else {
        css_size(s[i]) + css_seq_size(s, i + 1)
    }
}

/// Each tree of a sequence counts no more nodes than the whole sequence.
pub proof fn lemma_css_seq_size_elem(s: Seq<CssView>, j: int, i: int)
    requires
        0 <= j <= i < s.len(),
    ensures
        css_size(s[i]) <= css_seq_size(s, j),
    decreases i - j,
{
    if j < i {
        lemma_css_seq_size_elem(s, j + 1, i);
    }
}

/// Pre-order flattening of a stylesheet tree: the node itself, then each
/// child's flattened subtree in child order. Every node keeps its own font
/// list and its own (still nested) children.
pub open spec fn spec_flatten(c: CssView) -> Seq<CssView>
    decreases c,
{
    seq![c] + flatten_seq(c.imports, 0)
}

/// The concatenated pre-order flattenings of `s[i]`, `s[i + 1]`, ...
pub open spec fn flatten_seq(s: Seq<CssView>, i: int) -> Seq<CssView>
    decreases s, s.len() - i,
{
    if i < 0 || i >= s.len() {
        Seq::empty()
    } else {
        spec_flatten(s[i]) + flatten_seq(s, i + 1)
    }
}

/// A copy of a byte vector.
pub fn copy_bytes(v: &Vec<u8>) -> (r: Vec<u8>)
    ensures
        r@ == v@,
{
    let mut r: Vec<u8> = Vec::new();
    let mut i: usize = 0;
    while i < v.len()
        invariant
            i <= v@.len(),
            r@ == v@.subrange(0, i as int),
        decreases v@.len() - i,
    {
        let b = v[i];
        r.push(b);
        proof {
            assert(r@ =~= v@.subrange(0, i + 1 as int));
        }
        i = i + 1;
    }
    proof {
        assert(r@ =~= v@);
    }
    r
}

/// A copy of a binary asset.
pub fn clone_raw(f: &ScrapedFileRaw) -> (r: ScrapedFileRaw)
    ensures
        r@ == f@,
{
    ScrapedFileRaw { name: f.name.clone(), content: copy_bytes(&f.content) }
}

/// A copy of a stylesheet tree, equal in value to the tree it copies.
pub fn clone_css(c: &ScrapedCss) -> (r: ScrapedCss)
    ensures
        css_view(r) == css_view(*c),
    decreases css_size(css_view(*c)),
{
    let mut fonts: Vec<ScrapedFileRaw> = Vec::new();
    let mut i: usize = 0;
    while i < c.fonts.len()
        invariant
            i <= c.fonts@.len(),
            fonts@.len() == i,
            forall|k: int| 0 <= k < i ==> fonts@[k]@ == #[trigger] c.fonts@[k]@,
        decreases c.fonts@.len() - i,
    {
        let f = clone_raw(&c.fonts[i]);
        fonts.push(f);
        i = i + 1;
    }
    let mut imports: Vec<ScrapedCss> = Vec::new();
    let mut j: usize = 0;
    while j < c.imported_stylesheets.len()
        invariant
            j <= c.imported_stylesheets@.len(),
            imports@.len() == j,
            forall|k: int|
                0 <= k < j ==> css_view(#[trigger] imports@[k]) == css_view(
                    c.imported_stylesheets@[k],
                ),
        decreases c.imported_stylesheets@.len() - j,
    {
        proof {
            lemma_css_views(c.imported_stylesheets, 0);
            lemma_css_seq_size_elem(
                css_views(c.imported_stylesheets, 0),
                0,
                j as int,
            );
        }
        let child = clone_css(&c.imported_stylesheets[j]);
        imports.push(child);
        j = j + 1;
    }
    let r = ScrapedCss {
        name: c.name.clone(),
        content: c.content.clone(),
        fonts,
        imported_stylesheets: imports,
    };
    proof {
        lemma_css_views_pointwise(r.imported_stylesheets, c.imported_stylesheets);
        assert(css_view(r).fonts =~= css_view(*c).fonts);
        assert(css_view(r) == css_view(*c));
    }
    r
}

/// Flattens a stylesheet tree in pre-order: the root first, then each
/// child's flattened subtree in child order.
#[verifier::loop_isolation(false)]
pub fn scraped_css_tree_to_vec(scraped_css: ScrapedCss) -> (r: Vec<ScrapedCss>)
    ensures
        css_views(r, 0) == spec_flatten(css_view(scraped_css)),
    decreases css_size(css_view(scraped_css)),
{
    let ghost v0 = css_view(scraped_css);
    let mut children: Vec<ScrapedCss> = Vec::new();
    let mut j: usize = 0;
    while j < scraped_css.imported_stylesheets.len()
        invariant
            j <= scraped_css.imported_stylesheets@.len(),
            children@.len() == j,
            forall|k: int|
                0 <= k < j ==> css_view(#[trigger] children@[k]) == css_view(
                    scraped_css.imported_stylesheets@[k],
                ),
        decreases scraped_css.imported_stylesheets@.len() - j,
    {
        let child = clone_css(&scraped_css.imported_stylesheets[j]);
        children.push(child);
        j = j + 1;
    }
    let ghost kids = css_views(scraped_css.imported_stylesheets, 0);
    proof {
        lemma_css_views(scraped_css.imported_stylesheets, 0);
        lemma_css_views_pointwise(children, scraped_css.imported_stylesheets);
        assert(v0.imports == kids);
    }
    let n = children.len();
    let mut out: Vec<ScrapedCss> = Vec::new();
    out.push(scraped_css);
    proof {
        lemma_css_views(out, 0);
        assert(css_views(out, 0) =~= seq![v0]);
        assert(css_views(out, 0) + flatten_seq(kids, 0) =~= spec_flatten(v0));
    }
    let mut i: usize = 0;
    while i < n
        invariant
            i <= n,
            n == children@.len(),
            kids.len() == n,
            v0.imports == kids,
            forall|k: int| 0 <= k < n ==> css_view(#[trigger] children@[k]) == kids[k],
            css_views(out, 0) + flatten_seq(kids, i as int) == spec_flatten(v0),
        decreases n - i,
    {
        let ghost out_pre = css_views(out, 0);
        let child = clone_css(&children[i]);
        proof {
            lemma_css_seq_size_elem(kids, 0, i as int);
            assert(css_size(v0) == 1 + css_seq_size(kids, 0));
            assert(css_size(css_view(child)) < css_size(v0));
        }
        let mut sub = scraped_css_tree_to_vec(child);
        let ghost sub_views = css_views(sub, 0);
        let ghost out_vec_pre = out@;
        let ghost sub_vec_pre = sub@;
        proof {
            lemma_css_views(out, 0);
            lemma_css_views(sub, 0);
            assert(forall|k: int|
                0 <= k < out_vec_pre.len() ==> out_pre[k] == css_view(
                    #[trigger] out_vec_pre[k],
                ));
            assert(forall|k: int|
                0 <= k < sub_vec_pre.len() ==> sub_views[k] == css_view(
                    #[trigger] sub_vec_pre[k],
                ));
        }
        out.append(&mut sub);
        proof {
            lemma_css_views(out, 0);
            assert(out@ == out_vec_pre + sub_vec_pre);
            assert forall|k: int|
                0 <= k < css_views(out, 0).len() implies css_views(out, 0)[k] == (out_pre
                + sub_views)[k] by {
                assert(css_views(out, 0)[k] == css_view(out@[k]));
                if k < out_pre.len() {
                    assert(out@[k] == out_vec_pre[k]);
                } else {
                    assert(out@[k] == sub_vec_pre[k - out_vec_pre.len()]);
                }
            }
            assert(css_views(out, 0) =~= out_pre + sub_views);
            assert(sub_views == spec_flatten(kids[i as int]));
            assert(flatten_seq(kids, i as int) == spec_flatten(kids[i as int]) + flatten_seq(
                kids,
                i + 1,
            ));
            assert(css_views(out, 0) + flatten_seq(kids, i + 1) =~= out_pre + flatten_seq(
                kids,
                i as int,
            ));
        }
        i = i + 1;
    }
    proof {
        assert(flatten_seq(kids, i as int) =~= Seq::<CssView>::empty());
        assert(css_views(out, 0) =~= spec_flatten(v0));
    }
    out
}

/// The flat list of `url(...)` sources over all `@font-face` blocks of the
/// sheets `bs[i]`, `bs[i + 1]`, ..., in scan order.
pub open spec fn sources_in_blocks(bs: Seq<Seq<char>>, i: int) -> Seq<Seq<char>>
    decreases bs.len() - i,
{
    if i < 0 || i >= bs.len() {
        Seq::empty()
    } else {
        scan_urls(bs[i], 0) + sources_in_blocks(bs, i + 1)
    }
}

/// Every `@font-face` `url(...)` source of a stylesheet text, block by
/// block, in scan order.
pub open spec fn font_source_list(t: Seq<char>) -> Seq<Seq<char>> {
    sources_in_blocks(scan_font_blocks(t, 0), 0)
}

/// The `@font-face` `url(...)` sources of `t`, in scan order.
pub fn font_sources(t: &Vec<char>) -> (r: Vec<Vec<char>>)
    ensures
        r.deep_view() == font_source_list(t@),
{
    let blocks = font_face_blocks(t);
    let ghost bs = blocks.deep_view();
    let mut out: Vec<Vec<char>> = Vec::new();
    let mut bi: usize = 0;
    proof {
        assert(out.deep_view() + sources_in_blocks(bs, 0) =~~= sources_in_blocks(bs, 0));
    }
    while bi < blocks.len()
        invariant
            bi <= blocks@.len(),
            blocks.deep_view() == bs,
            bs.len() == blocks@.len(),
            sources_in_blocks(bs, 0) == out.deep_view() + sources_in_blocks(bs, bi as int),
        decreases blocks@.len() - bi,
    {
        let ghost out_pre = out.deep_view();
        let mut urls = css_urls(&blocks[bi]);
        let ghost uv = urls.deep_view();
        proof {
            assert(bs[bi as int] == blocks@[bi as int]@);
            assert(uv == scan_urls(bs[bi as int], 0));
        }
        out.append(&mut urls);
        proof {
            assert(out.deep_view() =~~= out_pre + uv);
            assert(sources_in_blocks(bs, bi as int) == scan_urls(bs[bi as int], 0)
                + sources_in_blocks(bs, bi + 1));
            assert(out.deep_view() + sources_in_blocks(bs, bi + 1) =~~= out_pre
                + sources_in_blocks(bs, bi as int));
        }
        bi = bi + 1;
    }
    proof {
        assert(sources_in_blocks(bs, bi as int) =~~= Seq::<Seq<char>>::empty());
        assert(out.deep_view() =~~= font_source_list(t@));
    }
    out
}

/// What one `@font-face` source does to the stylesheet: either it is
/// skipped — not admitted, or its font could not be fetched — and the text
/// is unchanged, or a font named by its admitted plan is collected and
/// every literal occurrence of the unquoted source is replaced by
/// `../font/<name>`. Admission resolves the source with quotes and any
/// `?query`/`#fragment` stripped.
pub open spec fn font_step(
    base: UrlPartsView,
    src: Seq<char>,
    t0: Seq<char>,
    t1: Seq<char>,
    a: Option<RawView>,
) -> bool {
    match a {
        None => t1 == t0,
        Some(f) => {
            let unq = spec_strip_quotes(src);
            &&& unq.len() > 0
            &&& (spec_plan(base, spec_strip_query(unq)) matches Some((t, n)) && f.name == n
                && t1 == spec_replace(t0, unq, "../font/"@ + n))
        },
    }
}

/// The first `i` font sources, processed in order, turn `t0` into `t1` and
/// collect exactly `fonts`.
pub open spec fn font_chain_to(
    base: UrlPartsView,
    srcs: Seq<Seq<char>>,
    i: int,
    t0: Seq<char>,
    t1: Seq<char>,
    fonts: Seq<RawView>,
) -> bool
    decreases i,
{
    if i <= 0 {
        t1 == t0 && fonts.len() == 0
    } else if i > srcs.len() {
        false
    } else {
        exists|mid: Seq<char>, a: Option<RawView>|
            {
                &&& #[trigger] font_step(base, srcs[i - 1], mid, t1, a)
                &&& match a {
                    None => font_chain_to(base, srcs, i - 1, t0, mid, fonts),
                    Some(f) => fonts.len() > 0 && fonts.last() == f && font_chain_to(
                        base,
                        srcs,
                        i - 1,
                        t0,
                        mid,
                        fonts.drop_last(),
                    ),
                }
            }
    }
}

/// What one `@import url(...);` directive does: either it is skipped — not
/// admitted, a self-import (same resolved path as the sheet itself), or its
/// recursive resolution failed — and the text is unchanged with no child
/// attached, or a child named by the directive's admitted plan is appended
/// and the entire matched statement is replaced by that bare name.
pub open spec fn import_step(
    base: UrlPartsView,
    m: (Seq<char>, Seq<char>),
    t0: Seq<char>,
    t1: Seq<char>,
    a: Option<CssView>,
) -> bool {
    match a {
        None => t1 == t0,
        Some(c) => spec_plan(base, m.1) matches Some((t, n)) && t.path != base.path && c.name
            == n && t1 == spec_replace(t0, m.0, n),
    }
}

/// The first `i` import directives, processed in order, turn `t0` into `t1`
/// and attach exactly the children `kids`.
pub open spec fn import_chain_to(
    base: UrlPartsView,
    ms: Seq<(Seq<char>, Seq<char>)>,
    i: int,
    t0: Seq<char>,
    t1: Seq<char>,
    kids: Seq<CssView>,
) -> bool
    decreases i,
{
    if i <= 0 {
        t1 == t0 && kids.len() == 0
    } else if i > ms.len() {
        false
    } else {
        exists|mid: Seq<char>, a: Option<CssView>|
            {
                &&& #[trigger] import_step(base, ms[i - 1], mid, t1, a)
                &&& match a {
                    None => import_chain_to(base, ms, i - 1, t0, mid, kids),
                    Some(c) => kids.len() > 0 && kids.last() == c && import_chain_to(
                        base,
                        ms,
                        i - 1,
                        t0,
                        mid,
                        kids.drop_last(),
                    ),
                }
            }
    }
}

/// How a returned node relates to the stylesheet text it was processed
/// from: its fonts and a mid text arise from the font pass over the text's
/// `@font-face` sources in scan order, and its content and children arise
/// from the import pass over the mid text's directives — or, with no budget
/// left, its content is the mid text itself and it has no children.
pub open spec fn stylesheet_processing_ok(
    base: UrlPartsView,
    text: Seq<char>,
    depth: nat,
    c: CssView,
) -> bool {
    exists|tf: Seq<char>|
        {
            &&& #[trigger] font_chain_to(
                base,
                font_source_list(text),
                font_source_list(text).len() as int,
                text,
                tf,
                c.fonts,
            )
            &&& if depth == 0 {
                c.content == tf && c.imports.len() == 0
            } else {
                import_chain_to(
                    base,
                    scan_imports(tf, 0),
                    scan_imports(tf, 0).len() as int,
                    tf,
                    c.content,
                    c.imports,
                )
            }
        }
}

/// Processes a fetched stylesheet text: rewrites each admitted `@font-face`
/// `url(...)` source whose font could be fetched to `../font/<name>` and
/// collects the font bytes, and — while the depth budget lasts — expands
/// each admitted, non-self `@import url(...);` directive into a child
/// stylesheet, replacing the directive text by the child's local file name.
/// A failure on any one font or import skips that reference alone and
/// leaves its text untouched. Yields `None` exactly when the sheet's own
/// URL has no final path segment.
pub fn process_stylesheet<T: Fetcher>(
    fetcher: &mut T,
    base: &UrlParts,
    css_text: &str,
    depth: usize,
) -> (r: Option<ScrapedCss>)
    ensures
        r is None <==> spec_local_name(base@.url) is None,
        match r {
            Some(c) => {
                &&& spec_local_name(base@.url) == Some(c.name@)
                &&& css_depth(css_view(c)) <= depth
                &&& (depth == 0 ==> c.imported_stylesheets@.len() == 0)
                &&& stylesheet_processing_ok(base@, css_text@, depth as nat, css_view(c))
            },
            None => true,
        },
    decreases depth, 0int,
{
    let name = match local_name(base.url.as_str()) {
        Some(n) => n,
        None => return None,
    };
    let mut text = chars_of(css_text);
    let ghost t0v = text@;
    let mut fonts: Vec<ScrapedFileRaw> = Vec::new();

    let srcs = font_sources(&text);
    let ghost srcs_v = font_source_list(t0v);
    let mut fi: usize = 0;
    proof {
        assert(raw_views(fonts@) =~= Seq::<RawView>::empty());
    }
    while fi < srcs.len()
        invariant
            fi <= srcs@.len(),
            srcs.deep_view() == srcs_v,
            srcs_v.len() == srcs@.len(),
            font_chain_to(base@, srcs_v, fi as int, t0v, text@, raw_views(fonts@)),
        decreases srcs@.len() - fi,
    {
        let ghost mid = text@;
        let ghost fonts_pre = raw_views(fonts@);
        proof {
            assert(srcs_v[fi as int] == srcs@[fi as int]@);
        }
        let unquoted = strip_quotes(&srcs[fi]);
        if unquoted.len() > 0 {
            let normal = strip_query_fragment(&unquoted);
            let target = string_of(&normal);
            if let Some(plan) = plan_reference(base, target.as_str()) {
                if let Some(content) = fetch_bytes_same_origin(fetcher, base, &plan.target) {
                    let mut repl = chars_of("../font/");
                    let fname_cs = chars_of(plan.name.as_str());
                    push_all(&mut repl, &fname_cs);
                    text = replace_all(&text, &unquoted, &repl);
                    let f = ScrapedFileRaw { name: plan.name, content };
                    let ghost fv = f@;
                    fonts.push(f);
                    proof {
                        assert(raw_views(fonts@) =~= fonts_pre.push(fv));
                        assert(raw_views(fonts@).drop_last() =~= fonts_pre);
                        assert(font_step(
                            base@,
                            srcs_v[fi as int + 1 - 1],
                            mid,
                            text@,
                            Some(fv),
                        ));
                        assert(font_chain_to(
                            base@,
                            srcs_v,
                            fi as int + 1,
                            t0v,
                            text@,
                            raw_views(fonts@),
                        ));
                    }
                }
            }
        }
        proof {
            if text@ == mid && raw_views(fonts@) == fonts_pre {
                assert(font_step(
                    base@,
                    srcs_v[fi as int + 1 - 1],
                    mid,
                    text@,
                    None::<RawView>,
                ));
                assert(font_chain_to(
                    base@,
                    srcs_v,
                    fi as int + 1,
                    t0v,
                    text@,
                    raw_views(fonts@),
                ));
            }
        }
        fi = fi + 1;
    }
    let ghost tf = text@;
    proof {
        assert(font_chain_to(base@, srcs_v, srcs_v.len() as int, t0v, tf, raw_views(fonts@)));
    }

    let mut imported_stylesheets: Vec<ScrapedCss> = Vec::new();
    if depth > 0 {
        let imports = css_imports(&text);
        let ghost ms = scan_imports(tf, 0);
        let mut ii: usize = 0;
        proof {
            lemma_css_views(imported_stylesheets, 0);
        }
        while ii < imports.len()
            invariant
                ii <= imports@.len(),
                depth >= 1,
                imports@.map_values(|m: ImportMatch| m@) == ms,
                ms.len() == imports@.len(),
                forall|k: int|
                    0 <= k < imports@.len() ==> (#[trigger] imports@[k]).full@.len() > 0,
                forall|k: int|
                    0 <= k < imported_stylesheets@.len() ==> css_depth(
                        css_view(#[trigger] imported_stylesheets@[k]),
                    ) < depth,
                import_chain_to(
                    base@,
                    ms,
                    ii as int,
                    tf,
                    text@,
                    css_views(imported_stylesheets, 0),
                ),
            decreases imports@.len() - ii,
        {
            let ghost mid = text@;
            let ghost pre_vec = imported_stylesheets;
            let ghost kids_pre = css_views(imported_stylesheets, 0);
            proof {
                lemma_css_views(imported_stylesheets, 0);
                assert(ms[ii as int] == imports@[ii as int]@);
            }
            let target = string_of(&imports[ii].target);
            if let Some(plan) = plan_reference(base, target.as_str()) {
                let self_import = string_eq(plan.target.path.as_str(), base.path.as_str());
                if !self_import {
                    match scrap_css_at(fetcher, &plan.target, depth - 1) {
                        Some(child) => {
                            let fname_cs = chars_of(plan.name.as_str());
                            text = replace_all(&text, &imports[ii].full, &fname_cs);
                            let ghost cv = css_view(child);
                            imported_stylesheets.push(child);
                            proof {
                                lemma_css_views(pre_vec, 0);
                                lemma_css_views(imported_stylesheets, 0);
                                assert(kids_pre == css_views(pre_vec, 0));
                                assert(imported_stylesheets@ == pre_vec@.push(child));
                                assert forall|k: int|
                                    0 <= k < css_views(imported_stylesheets, 0).len()
                                        implies css_views(imported_stylesheets, 0)[k]
                                        == kids_pre.push(cv)[k] by {
                                    assert(css_views(imported_stylesheets, 0)[k] == css_view(
                                        imported_stylesheets@[k],
                                    ));
                                    if k < pre_vec@.len() {
                                        assert(imported_stylesheets@[k] == pre_vec@[k]);
                                        assert(css_views(pre_vec, 0)[k] == css_view(
                                            pre_vec@[k],
                                        ));
                                    } else {
                                        assert(imported_stylesheets@[k] == child);
                                    }
                                }
                                assert(css_views(imported_stylesheets, 0) =~= kids_pre.push(
                                    cv,
                                ));
                                assert(css_views(imported_stylesheets, 0).drop_last()
                                    =~= kids_pre);
                                assert(import_step(
                                    base@,
                                    ms[ii as int + 1 - 1],
                                    mid,
                                    text@,
                                    Some(cv),
                                ));
                                assert(import_chain_to(
                                    base@,
                                    ms,
                                    ii as int + 1,
                                    tf,
                                    text@,
                                    css_views(imported_stylesheets, 0),
                                ));
                            }
                        },
                        None => {},
                    }
                }
            }
            proof {
                if text@ == mid && css_views(imported_stylesheets, 0) == kids_pre {
                    assert(import_step(
                        base@,
                        ms[ii as int + 1 - 1],
                        mid,
                        text@,
                        None::<CssView>,
                    ));
                    assert(import_chain_to(
                        base@,
                        ms,
                        ii as int + 1,
                        tf,
                        text@,
                        css_views(imported_stylesheets, 0),
                    ));
                }
            }
            ii = ii + 1;
        }
    }

    let r = ScrapedCss {
        name,
        content: string_of(&text),
        fonts,
        imported_stylesheets,
    };
    proof {
        lemma_css_views(r.imported_stylesheets, 0);
        let s = css_views(r.imported_stylesheets, 0);
        if depth > 0 {
            assert forall|k: int| 0 <= k < s.len() implies css_depth(#[trigger] s[k])
                < depth as nat by {
                assert(s[k] == css_view(r.imported_stylesheets@[k]));
            }
            lemma_seq_depth_bound(s, 0, depth as nat);
        } else {
            assert(s.len() == 0);
            lemma_seq_depth_bound(s, 0, 0);
        }
        assert(css_depth(css_view(r)) == css_seq_depth(s, 0));
        assert(css_view(r).fonts =~= raw_views(r.fonts@));
        assert(css_view(r).imports == s);
        assert(stylesheet_processing_ok(base@, css_text@, depth as nat, css_view(r)));
    }
    Some(r)
}

/// Resolves the stylesheet at `base`: fetches its text and processes it as
/// [`process_stylesheet`] says. `None` when the base URL is malformed, its
/// URL has no final path segment, or the sheet itself cannot be fetched;
/// the returned tree's height is at most `depth`, and with budget 0 no
/// import is expanded.
pub fn scrap_css<T: Fetcher>(fetcher: &mut T, base: &str, depth: usize) -> (r: Option<ScrapedCss>)
    ensures
        match r {
            Some(c) => {
                &&& css_depth(css_view(c)) <= depth
                &&& (parse_parts(base@) matches Some(b) && spec_local_name(b.url) == Some(
                    c.name@,
                ) && exists|src_text: Seq<char>|
                    stylesheet_processing_ok(b, src_text, depth as nat, css_view(c)))
            },
            None => true,
        },
        parse_parts(base@) is None ==> r is None,
        (parse_parts(base@) matches Some(b) && spec_local_name(b.url) is None) ==> r is None,
        depth == 0 ==> match r {
            Some(c) => c.imported_stylesheets@.len() == 0,
            None => true,
        },
{
    let parts = match parse_url(base) {
        Some(p) => p,
        None => return None,
    };
    scrap_css_at(fetcher, &parts, depth)
}

/// [`scrap_css`] for a base URL already resolved to its parts.
pub(crate) fn scrap_css_at<T: Fetcher>(fetcher: &mut T, base: &UrlParts, depth: usize) -> (r:
    Option<ScrapedCss>)
    ensures
        match r {
            Some(c) => {
                &&& css_depth(css_view(c)) <= depth
                &&& spec_local_name(base@.url) == Some(c.name@)
                &&& exists|src_text: Seq<char>|
                    stylesheet_processing_ok(base@, src_text, depth as nat, css_view(c))
            },
            None => true,
        },
        spec_local_name(base@.url) is None ==> r is None,
        depth == 0 ==> match r {
            Some(c) => c.imported_stylesheets@.len() == 0,
            None => true,
        },
    decreases depth, 1int,
{
    let text_s = match fetcher.get_text(base.url.as_str()) {
        Some(t) => t,
        None => return None,
    };
    let r = process_stylesheet(fetcher, base, text_s.as_str(), depth);
    proof {
        if r is Some {
            assert(stylesheet_processing_ok(
                base@,
                text_s@,
                depth as nat,
                css_view(r->Some_0),
            ));
        }
    }
    r
}

} // verus!
