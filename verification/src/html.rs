//! The page extractor: fetches a page, then runs the ordered passes —
//! icon (with its fallback chain), shortcut icon, stylesheets, scripts,
//! images, anchors, inline-style `url(...)` references — each pass resolving
//! references against the page URL, fetching what lies on the page's origin,
//! rewriting the running page text by literal substring replacement, and
//! collecting the downloaded assets into their buckets.
//!
//! Element and attribute queries go through the `scraper` crate behind one
//! trusted wrapper. [`extraction_ok`] pins the result to the page text it
//! was computed from: the final content is the page transformed by the
//! per-pass substitution chains over exactly the attribute values the
//! document query returned — every step either records its asset and
//! performs its substitution, or skips both, and the anchor substitutions,
//! which involve no fetch, are forced outright.
use crate::css::{css_urls, scan_urls, spec_strip_quotes, strip_quotes};
use crate::fetch::{fetch_bytes_same_origin, fetch_text_same_origin};
use crate::stylesheet::{
    clone_raw, css_depth, scrap_css_at, scraped_css_tree_to_vec, spec_flatten,
    stylesheet_processing_ok,
};
use crate::text::{chars_of, push_all, replace_all, spec_replace, string_of};
use crate::types::{
    css_view, css_views, file_views, lemma_css_views, pair_views, raw_views, CssView, Fetcher,
    FileView, HtmlView, RawView, ScrapeError, ScrapedFile, ScrapedFileRaw, ScrapedHtml,
};
use crate::urls::{
    classify, extension, is_same_origin, origin_parts, parse_parts, parse_url, plan_reference,
    resolve_reference, spec_classify, spec_extension, spec_plan, ResourceKind, UrlParts,
    UrlPartsView,
};
use vstd::prelude::*;

verus! {

use vstd::string::StringExecFns;

/// What the document query yields: the values of `attr`, in document order,
/// over the elements of `html` matching `selector` that carry that
/// attribute.
pub uninterp spec fn attr_values_of(html: Seq<char>, selector: Seq<char>, attr: Seq<char>) -> Seq<
    Seq<char>,
>;

/// Relies on `scraper::Html::parse_document` and `scraper::Selector`: the
/// values of the given attribute on the elements matching the given
/// selector, in document order, keeping only elements that carry the
/// attribute. Parsing and matching depend on the three strings alone.
#[verifier::external_body]
fn select_attr_values(html: &str, selector: &str, attr: &str) -> (r: Vec<String>)
    ensures
        r.deep_view() == attr_values_of(html@, selector@, attr@),
{
    let mut out = Vec::new();
    if let Ok(sel) = scraper::Selector::parse(selector) {
        let doc = scraper::Html::parse_document(html);
        for element in doc.select(&sel) {
            if let Some(value) = element.value().attr(attr) {
                out.push(value.to_string());
            }
        }
    }
    out
}

/// What one `a[href]` value contributes to the anchor list: nothing for a
/// fragment-only or empty reference or one that is not admitted; otherwise
/// the pair of its resolved absolute URL and its local name.
pub open spec fn anchor_step(base: UrlPartsView, r: Seq<char>) -> Seq<(Seq<char>, Seq<char>)> {
    match spec_plan(base, r) {
        Some((t, n)) => if r.len() > 0 && r[0] != '#' {
            seq![(t.url, n)]
        } else {
            Seq::empty()
        },
        None => Seq::empty(),
    }
}

/// The anchor pairs contributed by `refs[i]`, `refs[i + 1]`, ..., in
/// document order.
pub open spec fn anchor_plans(base: UrlPartsView, refs: Seq<Seq<char>>, i: int) -> Seq<
    (Seq<char>, Seq<char>),
>
    decreases refs.len() - i,
{
    if i < 0 || i >= refs.len() {
        Seq::empty()
    } else {
        anchor_step(base, refs[i]) + anchor_plans(base, refs, i + 1)
    }
}

/// What one `a[href]` value does to the page text, with no fetch involved:
/// an admitted, non-fragment, non-empty reference has every literal
/// occurrence replaced by `/<name>`; anything else leaves the text
/// unchanged.
pub open spec fn anchor_text_step(base: UrlPartsView, r: Seq<char>, t0: Seq<char>, t1: Seq<char>) -> bool {
    match spec_plan(base, r) {
        Some((t, n)) => if r.len() > 0 && r[0] != '#' {
            t1 == spec_replace(t0, r, "/"@ + n)
        } else {
            t1 == t0
        },
        None => t1 == t0,
    }
}

/// The first `i` anchor references, in order, turn `t0` into `t1`; each
/// step is forced, since anchors are never fetched.
pub open spec fn anchor_chain_to(
    base: UrlPartsView,
    refs: Seq<Seq<char>>,
    i: int,
    t0: Seq<char>,
    t1: Seq<char>,
) -> bool
    decreases i,
{
    if i <= 0 {
        t1 == t0
    } else if i > refs.len() {
        false
    } else {
        exists|mid: Seq<char>|
            #[trigger] anchor_text_step(base, refs[i - 1], mid, t1) && anchor_chain_to(
                base,
                refs,
                i - 1,
                t0,
                mid,
            )
    }
}

/// What one `script[src]` value does: either skipped — not admitted or its
/// fetch failed — with the text unchanged, or a script named by its admitted
/// plan is recorded and every literal occurrence of the value is replaced by
/// `src/<name>`.
pub open spec fn script_step(
    base: UrlPartsView,
    r: Seq<char>,
    t0: Seq<char>,
    t1: Seq<char>,
    a: Option<FileView>,
) -> bool {
    match a {
        None => t1 == t0,
        Some(f) => r.len() > 0 && (spec_plan(base, r) matches Some((t, n)) && f.name == n && t1
            == spec_replace(t0, r, "src/"@ + n)),
    }
}

/// The first `i` script references, in order, turn `t0` into `t1` and
/// record exactly `out`.
pub open spec fn script_chain_to(
    base: UrlPartsView,
    refs: Seq<Seq<char>>,
    i: int,
    t0: Seq<char>,
    t1: Seq<char>,
    out: Seq<FileView>,
) -> bool
    decreases i,
{
    if i <= 0 {
        t1 == t0 && out.len() == 0
    } else if i > refs.len() {
        false
    } else {
        exists|mid: Seq<char>, a: Option<FileView>|
            {
                &&& #[trigger] script_step(base, refs[i - 1], mid, t1, a)
                &&& match a {
                    None => script_chain_to(base, refs, i - 1, t0, mid, out),
                    Some(f) => out.len() > 0 && out.last() == f && script_chain_to(
                        base,
                        refs,
                        i - 1,
                        t0,
                        mid,
                        out.drop_last(),
                    ),
                }
            }
    }
}

/// The step of [`script_step`] for an `img[src]` value, filed under
/// `img/<name>`.
pub open spec fn image_step(
    base: UrlPartsView,
    r: Seq<char>,
    t0: Seq<char>,
    t1: Seq<char>,
    a: Option<RawView>,
) -> bool {
    match a {
        None => t1 == t0,
        Some(f) => r.len() > 0 && (spec_plan(base, r) matches Some((t, n)) && f.name == n && t1
            == spec_replace(t0, r, "img/"@ + n)),
    }
}

/// The first `i` image references, in order, turn `t0` into `t1` and record
/// exactly `out`.
pub open spec fn image_chain_to(
    base: UrlPartsView,
    refs: Seq<Seq<char>>,
    i: int,
    t0: Seq<char>,
    t1: Seq<char>,
    out: Seq<RawView>,
) -> bool
    decreases i,
{
    if i <= 0 {
        t1 == t0 && out.len() == 0
    } else if i > refs.len() {
        false
    } else {
        exists|mid: Seq<char>, a: Option<RawView>|
            {
                &&& #[trigger] image_step(base, refs[i - 1], mid, t1, a)
                &&& match a {
                    None => image_chain_to(base, refs, i - 1, t0, mid, out),
                    Some(f) => out.len() > 0 && out.last() == f && image_chain_to(
                        base,
                        refs,
                        i - 1,
                        t0,
                        mid,
                        out.drop_last(),
                    ),
                }
            }
    }
}

/// The (name, rewritten content) entries of the flattened nodes
/// `fl[i]`, `fl[i + 1]`, ..., in flatten order.
pub open spec fn flat_files(fl: Seq<CssView>, i: int) -> Seq<FileView>
    decreases fl.len() - i,
{
    if i < 0 || i >= fl.len() {
        Seq::empty()
    } else {
        seq![FileView { name: fl[i].name, content: fl[i].content }] + flat_files(fl, i + 1)
    }
}

/// The font assets of the flattened nodes `fl[i]`, `fl[i + 1]`, ...,
/// node by node in flatten order, without deduplication.
pub open spec fn flat_fonts(fl: Seq<CssView>, i: int) -> Seq<RawView>
    decreases fl.len() - i,
{
    if i < 0 || i >= fl.len() {
        Seq::empty()
    } else {
        fl[i].fonts + flat_fonts(fl, i + 1)
    }
}

/// What one `link[rel=stylesheet]` href does: either skipped — not admitted,
/// or the stylesheet could not be resolved — with nothing appended and the
/// text unchanged; or, for an admitted link, a tree `c` named by the plan,
/// bounded by the budget and related to some fetched text exactly as
/// [`stylesheet_processing_ok`] says, has its pre-order flattening appended:
/// the (name, content) of every node to the stylesheet bucket and every
/// node's fonts to the font bucket, and every literal occurrence of the href
/// is replaced by `css/<name>`.
pub open spec fn stylesheet_step(
    base: UrlPartsView,
    depth: nat,
    r: Seq<char>,
    t0: Seq<char>,
    t1: Seq<char>,
    sh0: Seq<FileView>,
    sh1: Seq<FileView>,
    f0: Seq<RawView>,
    f1: Seq<RawView>,
) -> bool {
    ||| (t1 == t0 && sh1 == sh0 && f1 == f0)
    ||| (spec_plan(base, r) matches Some((t, n)) && exists|c: CssView|
        {
            &&& #[trigger] css_depth(c) <= depth
            &&& c.name == n
            &&& (exists|src: Seq<char>| stylesheet_processing_ok(t, src, depth, c))
            &&& sh1 == sh0 + flat_files(spec_flatten(c), 0)
            &&& f1 == f0 + flat_fonts(spec_flatten(c), 0)
            &&& (r.len() > 0 ==> t1 == spec_replace(t0, r, "css/"@ + n))
            &&& (r.len() == 0 ==> t1 == t0)
        })
}

/// The first `i` stylesheet links, in order, turn `t0` into `t1` and append
/// exactly `sh` to the stylesheet bucket and `fonts` to the font bucket.
pub open spec fn stylesheet_chain_to(
    base: UrlPartsView,
    depth: nat,
    refs: Seq<Seq<char>>,
    i: int,
    t0: Seq<char>,
    t1: Seq<char>,
    sh: Seq<FileView>,
    fonts: Seq<RawView>,
) -> bool
    decreases i,
{
    if i <= 0 {
        t1 == t0 && sh.len() == 0 && fonts.len() == 0
    } else if i > refs.len() {
        false
    } else {
        exists|mid: Seq<char>, shm: Seq<FileView>, fm: Seq<RawView>|
            {
                &&& stylesheet_chain_to(base, depth, refs, i - 1, t0, mid, shm, fm)
                &&& #[trigger] stylesheet_step(base, depth, refs[i - 1], mid, t1, shm, sh, fm, fonts)
            }
    }
}

/// Every inline-style `url(...)` source of the style attribute values
/// `styles[i]`, `styles[i + 1]`, ..., in document and scan order.
pub open spec fn inline_source_list(styles: Seq<Seq<char>>, i: int) -> Seq<Seq<char>>
    decreases styles.len() - i,
{
    if i < 0 || i >= styles.len() {
        Seq::empty()
    } else {
        scan_urls(styles[i], 0) + inline_source_list(styles, i + 1)
    }
}

/// What one inline-style `url(...)` source does: skipped — empty once
/// unquoted, not admitted, classified `Other`, or its fetch failed — with
/// the text unchanged and nothing recorded; or, for an admitted source whose
/// local name classifies as an image (or font), an image (or font) named by
/// the plan is recorded and every literal occurrence of the unquoted source
/// is replaced by `img/<name>` (or `fonts/<name>`). An `Other` extension can
/// take only the skip branch: it is neither fetched nor rewritten.
pub open spec fn inline_step(
    base: UrlPartsView,
    src: Seq<char>,
    t0: Seq<char>,
    t1: Seq<char>,
    img: Option<RawView>,
    font: Option<RawView>,
) -> bool {
    let unq = spec_strip_quotes(src);
    match (img, font) {
        (None, None) => t1 == t0,
        (Some(f), None) => unq.len() > 0 && (spec_plan(base, unq) matches Some((t, n))
            && f.name == n && spec_classify(spec_extension(n)) == ResourceKind::Image && t1
            == spec_replace(t0, unq, "img/"@ + n)),
        (None, Some(f)) => unq.len() > 0 && (spec_plan(base, unq) matches Some((t, n))
            && f.name == n && spec_classify(spec_extension(n)) == ResourceKind::Font && t1
            == spec_replace(t0, unq, "fonts/"@ + n)),
        (Some(_), Some(_)) => false,
    }
}

/// The first `i` inline sources, in order, turn `t0` into `t1` and record
/// exactly `imgs` into the image bucket and `fnts` into the font bucket.
pub open spec fn inline_chain_to(
    base: UrlPartsView,
    srcs: Seq<Seq<char>>,
    i: int,
    t0: Seq<char>,
    t1: Seq<char>,
    imgs: Seq<RawView>,
    fnts: Seq<RawView>,
) -> bool
    decreases i,
{
    if i <= 0 {
        t1 == t0 && imgs.len() == 0 && fnts.len() == 0
    } else if i > srcs.len() {
        false
    } else {
        exists|mid: Seq<char>, a: Option<RawView>, b: Option<RawView>|
            {
                &&& #[trigger] inline_step(base, srcs[i - 1], mid, t1, a, b)
                &&& match (a, b) {
                    (None, None) => inline_chain_to(base, srcs, i - 1, t0, mid, imgs, fnts),
                    (Some(f), None) => imgs.len() > 0 && imgs.last() == f && inline_chain_to(
                        base,
                        srcs,
                        i - 1,
                        t0,
                        mid,
                        imgs.drop_last(),
                        fnts,
                    ),
                    (None, Some(f)) => fnts.len() > 0 && fnts.last() == f && inline_chain_to(
                        base,
                        srcs,
                        i - 1,
                        t0,
                        mid,
                        imgs,
                        fnts.drop_last(),
                    ),
                    (Some(_), Some(_)) => false,
                }
            }
    }
}

/// What the icon pass does to the text and the icon slot: when a
/// `link[rel=icon]` element with an `href` exists, only its first href is a
/// candidate — a recorded icon is named by that href's admitted plan and
/// every literal occurrence of the href is replaced by that name, and a
/// skipped or failed candidate leaves the text unchanged with no icon. When
/// no such element exists the text is never rewritten and a recorded icon is
/// a fallback named `favicon.ico`.
pub open spec fn icon_pass_ok(
    base: UrlPartsView,
    irefs: Seq<Seq<char>>,
    t0: Seq<char>,
    t1: Seq<char>,
    icon: Option<RawView>,
) -> bool {
    if irefs.len() > 0 {
        match icon {
            Some(f) => irefs[0].len() > 0 && (spec_plan(base, irefs[0]) matches Some((t, n))
                && f.name == n && t1 == spec_replace(t0, irefs[0], n)),
            None => t1 == t0,
        }
    } else {
        t1 == t0 && match icon {
            Some(f) => f.name == "favicon.ico"@,
            None => true,
        }
    }
}

/// The icon pass rule for the shortcut icon: first admitted
/// `link[rel="shortcut icon"]` href, no fallback chain.
pub open spec fn shortcut_pass_ok(
    base: UrlPartsView,
    screfs: Seq<Seq<char>>,
    t0: Seq<char>,
    t1: Seq<char>,
    icon: Option<RawView>,
) -> bool {
    if screfs.len() > 0 {
        match icon {
            Some(f) => screfs[0].len() > 0 && (spec_plan(base, screfs[0]) matches Some((t, n))
                && f.name == n && t1 == spec_replace(t0, screfs[0], n)),
            None => t1 == t0,
        }
    } else {
        t1 == t0 && icon is None
    }
}

/// The passes from the anchor pass on: the forced anchor substitutions turn
/// `t0` into some text whose inline pass yields the final content and the
/// inline-recorded image and font suffixes.
pub open spec fn passes_from_anchors(
    base: UrlPartsView,
    page: Seq<char>,
    t0: Seq<char>,
    h: HtmlView,
    nimg: int,
    nfont: int,
) -> bool {
    let arefs = attr_values_of(page, "a"@, "href"@);
    let styles = attr_values_of(page, "[style]"@, "style"@);
    exists|t1: Seq<char>|
        {
            &&& #[trigger] anchor_chain_to(base, arefs, arefs.len() as int, t0, t1)
            &&& inline_chain_to(
                base,
                inline_source_list(styles, 0),
                inline_source_list(styles, 0).len() as int,
                t1,
                h.content,
                h.images.skip(nimg),
                h.fonts.skip(nfont),
            )
        }
}

/// The passes from the image pass on.
pub open spec fn passes_from_images(
    base: UrlPartsView,
    page: Seq<char>,
    t0: Seq<char>,
    h: HtmlView,
    nfont: int,
) -> bool {
    let mrefs = attr_values_of(page, "img"@, "src"@);
    exists|t1: Seq<char>, nimg: int|
        {
            &&& 0 <= nimg <= h.images.len()
            &&& #[trigger] image_chain_to(
                base,
                mrefs,
                mrefs.len() as int,
                t0,
                t1,
                h.images.take(nimg),
            )
            &&& passes_from_anchors(base, page, t1, h, nimg, nfont)
        }
}

/// The passes from the script pass on.
pub open spec fn passes_from_scripts(
    base: UrlPartsView,
    page: Seq<char>,
    t0: Seq<char>,
    h: HtmlView,
    nfont: int,
) -> bool {
    let srefs = attr_values_of(page, "script"@, "src"@);
    exists|t1: Seq<char>|
        {
            &&& #[trigger] script_chain_to(base, srefs, srefs.len() as int, t0, t1, h.scripts)
            &&& passes_from_images(base, page, t1, h, nfont)
        }
}

/// The passes from the stylesheet pass on.
pub open spec fn passes_from_stylesheets(
    base: UrlPartsView,
    page: Seq<char>,
    depth: nat,
    t0: Seq<char>,
    h: HtmlView,
) -> bool {
    let crefs = attr_values_of(page, "link[rel=stylesheet]"@, "href"@);
    exists|t1: Seq<char>, nfont: int|
        {
            &&& 0 <= nfont <= h.fonts.len()
            &&& #[trigger] stylesheet_chain_to(
                base,
                depth,
                crefs,
                crefs.len() as int,
                t0,
                t1,
                h.stylesheets,
                h.fonts.take(nfont),
            )
            &&& passes_from_scripts(base, page, t1, h, nfont)
        }
}

/// The passes from the shortcut-icon pass on.
pub open spec fn passes_from_shortcut(
    base: UrlPartsView,
    page: Seq<char>,
    depth: nat,
    t0: Seq<char>,
    h: HtmlView,
) -> bool {
    let screfs = attr_values_of(page, "link[rel=\"shortcut icon\"]"@, "href"@);
    exists|t1: Seq<char>|
        {
            &&& #[trigger] shortcut_pass_ok(base, screfs, t0, t1, h.shortcut_icon)
            &&& passes_from_stylesheets(base, page, depth, t1, h)
        }
}

/// How an extraction result relates to the page text it was computed from:
/// the anchor list is exactly the admitted, non-fragment `a[href]` plans in
/// document order, and the content and buckets arise from the page text by
/// the per-pass substitution chains, in pass order, over exactly the
/// attribute values the document query returned — so nothing but those
/// passes touches the text, every recorded asset's substitution was
/// performed, and the fetch-free anchor substitutions are forced.
pub open spec fn extraction_ok(
    base: UrlPartsView,
    page: Seq<char>,
    depth: nat,
    h: HtmlView,
) -> bool {
    let irefs = attr_values_of(page, "link[rel=icon]"@, "href"@);
    let arefs = attr_values_of(page, "a"@, "href"@);
    &&& h.anchors == anchor_plans(base, arefs, 0)
    &&& exists|t1: Seq<char>|
        {
            &&& #[trigger] icon_pass_ok(base, irefs, page, t1, h.icon)
            &&& passes_from_shortcut(base, page, depth, t1, h)
        }
}

/// The local path `prefix + name`, as characters.
fn prefixed(prefix: &str, name: &str) -> (r: Vec<char>)
    ensures
        r@ == prefix@ + name@,
{
    let mut r = chars_of(prefix);
    let ncs = chars_of(name);
    push_all(&mut r, &ncs);
    r
}

/// One resolve → origin-check → fetch → rewrite step for a text resource
/// found in attribute value `attr`: when the reference is admitted and its
/// text could be fetched, every literal occurrence of `attr` in the page
/// text is replaced by `prefix` + the local name, and the asset is returned;
/// otherwise the text is returned unchanged and no asset arises. An
/// off-origin or unresolvable reference is never fetched and leaves the text
/// untouched.
pub fn mirror_text_ref<T: Fetcher>(
    fetcher: &mut T,
    base: &UrlParts,
    attr: &str,
    prefix: &str,
    text: Vec<char>,
) -> (r: (Vec<char>, Option<ScrapedFile>))
    ensures
        spec_plan(base@, attr@) is None ==> r.0@ == text@ && r.1 is None,
        match r.1 {
            Some(f) => attr@.len() > 0 && (spec_plan(base@, attr@) matches Some((t, n))
                && f.name@ == n && r.0@ == spec_replace(text@, attr@, prefix@ + n)),
            None => r.0@ == text@,
        },
{
    let attr_cs = chars_of(attr);
    if attr_cs.len() == 0 {
        return (text, None);
    }
    match plan_reference(base, attr) {
        Some(plan) => match fetch_text_same_origin(fetcher, base, &plan.target) {
            Some(content) => {
                let repl = prefixed(prefix, plan.name.as_str());
                let new_text = replace_all(&text, &attr_cs, &repl);
                (new_text, Some(ScrapedFile { name: plan.name, content }))
            },
            None => (text, None),
        },
        None => (text, None),
    }
}

/// The step of [`mirror_text_ref`] for a binary resource.
pub fn mirror_raw_ref<T: Fetcher>(
    fetcher: &mut T,
    base: &UrlParts,
    attr: &str,
    prefix: &str,
    text: Vec<char>,
) -> (r: (Vec<char>, Option<ScrapedFileRaw>))
    ensures
        spec_plan(base@, attr@) is None ==> r.0@ == text@ && r.1 is None,
        match r.1 {
            Some(f) => attr@.len() > 0 && (spec_plan(base@, attr@) matches Some((t, n))
                && f.name@ == n && r.0@ == spec_replace(text@, attr@, prefix@ + n)),
            None => r.0@ == text@,
        },
{
    let attr_cs = chars_of(attr);
    if attr_cs.len() == 0 {
        return (text, None);
    }
    match plan_reference(base, attr) {
        Some(plan) => match fetch_bytes_same_origin(fetcher, base, &plan.target) {
            Some(content) => {
                let repl = prefixed(prefix, plan.name.as_str());
                let new_text = replace_all(&text, &attr_cs, &repl);
                (new_text, Some(ScrapedFileRaw { name: plan.name, content }))
            },
            None => (text, None),
        },
        None => (text, None),
    }
}

/// Every inline-style `url(...)` source over the given style attribute
/// values, in document and scan order.
fn inline_sources(styles: &Vec<String>) -> (r: Vec<Vec<char>>)
    ensures
        r.deep_view() == inline_source_list(styles.deep_view(), 0),
{
    let ghost sv = styles.deep_view();
    let mut out: Vec<Vec<char>> = Vec::new();
    let mut yi: usize = 0;
    proof {
        assert(out.deep_view() + inline_source_list(sv, 0) =~~= inline_source_list(sv, 0));
    }
    while yi < styles.len()
        invariant
            yi <= styles@.len(),
            styles.deep_view() == sv,
            sv.len() == styles@.len(),
            inline_source_list(sv, 0) == out.deep_view() + inline_source_list(sv, yi as int),
        decreases styles@.len() - yi,
    {
        let ghost out_pre = out.deep_view();
        let style_cs = chars_of(styles[yi].as_str());
        let mut urls = css_urls(&style_cs);
        let ghost uv = urls.deep_view();
        proof {
            assert(sv[yi as int] == styles@[yi as int]@);
            assert(uv == scan_urls(sv[yi as int], 0));
        }
        out.append(&mut urls);
        proof {
            assert(out.deep_view() =~~= out_pre + uv);
            assert(inline_source_list(sv, yi as int) == scan_urls(sv[yi as int], 0)
                + inline_source_list(sv, yi + 1));
            assert(out.deep_view() + inline_source_list(sv, yi + 1) =~~= out_pre
                + inline_source_list(sv, yi as int));
        }
        yi = yi + 1;
    }
    proof {
        assert(inline_source_list(sv, yi as int) =~~= Seq::<Seq<char>>::empty());
        assert(out.deep_view() =~~= inline_source_list(sv, 0));
    }
    out
}

/// Extracts the resources of a fetched page text, exactly as
/// [`extraction_ok`] relates the result to that text: the ordered passes
/// over icon, shortcut icon, stylesheets (expanded with budget `depth`),
/// scripts, images, anchors and inline styles. A failure on any one
/// resource skips that resource alone.
#[verifier::loop_isolation(false)]
#[verifier::rlimit(60)]
pub fn extract_page<T: Fetcher>(
    fetcher: &mut T,
    base: &UrlParts,
    page: &str,
    depth: usize,
) -> (h: ScrapedHtml)
    ensures
        extraction_ok(base@, page@, depth as nat, h@),
{
    let ghost page0 = page@;
    let mut text = chars_of(page);
    let mut stylesheets: Vec<ScrapedFile> = Vec::new();
    let mut scripts: Vec<ScrapedFile> = Vec::new();
    let mut images: Vec<ScrapedFileRaw> = Vec::new();
    let mut fonts: Vec<ScrapedFileRaw> = Vec::new();
    let mut anchors: Vec<(String, String)> = Vec::new();

    // icon pass
    let mut icon: Option<ScrapedFileRaw> = None;
    let icon_hrefs = select_attr_values(page, "link[rel=icon]", "href");
    let ghost irefs = attr_values_of(page0, "link[rel=icon]"@, "href"@);
    proof {
        assert(irefs.len() == icon_hrefs@.len());
    }
    if icon_hrefs.len() > 0 {
        let ghost pre = text@;
        let (t2, asset) = mirror_raw_ref(fetcher, base, icon_hrefs[0].as_str(), "", text);
        text = t2;
        proof {
            assert(irefs[0] == icon_hrefs@[0]@);
            if asset is Some {
                let nm = asset->Some_0@.name;
                reveal_strlit("");
                assert(""@ + nm =~= nm);
                assert(text@ == spec_replace(pre, irefs[0], nm));
            }
        }
        icon = asset;
    }
    let ghost t_icon = text@;
    proof {
        assert(icon_pass_ok(base@, irefs, page0, t_icon, match icon {
            Some(f) => Some(f@),
            None => None,
        }));
    }

    // the fallback chain runs only when no rel=icon element with an href
    // exists; it never rewrites the text
    if icon_hrefs.len() == 0 {
        if let Some(resolved) = resolve_reference(base.url.as_str(), "favicon.ico") {
            if is_same_origin(&resolved, base) {
                if let Some(content) = fetch_bytes_same_origin(fetcher, base, &resolved) {
                    icon = Some(
                        ScrapedFileRaw { name: String::from_str("favicon.ico"), content },
                    );
                }
            }
        }
        if icon.is_none() {
            if let Some((scheme, host, port)) = origin_parts(base.url.as_str()) {
                let mut root = chars_of(scheme.as_str());
                let sep = chars_of("://");
                push_all(&mut root, &sep);
                let host_cs = chars_of(host.as_str());
                push_all(&mut root, &host_cs);
                let colon = chars_of(":");
                push_all(&mut root, &colon);
                let port_cs = chars_of(port.as_str());
                push_all(&mut root, &port_cs);
                let fav = chars_of("/favicon.ico");
                push_all(&mut root, &fav);
                let root_s = string_of(&root);
                if let Some(resolved) = parse_url(root_s.as_str()) {
                    if is_same_origin(&resolved, base) {
                        if let Some(content) = fetch_bytes_same_origin(fetcher, base, &resolved)
                            {
                            icon = Some(
                                ScrapedFileRaw {
                                    name: String::from_str("favicon.ico"),
                                    content,
                                },
                            );
                        }
                    }
                }
            }
        }
    }
    proof {
        assert(icon_pass_ok(base@, irefs, page0, t_icon, match icon {
            Some(f) => Some(f@),
            None => None,
        }));
    }

    // shortcut icon pass
    let mut shortcut_icon: Option<ScrapedFileRaw> = None;
    let shortcut_hrefs = select_attr_values(page, "link[rel=\"shortcut icon\"]", "href");
    let ghost screfs = attr_values_of(page0, "link[rel=\"shortcut icon\"]"@, "href"@);
    proof {
        assert(screfs.len() == shortcut_hrefs@.len());
    }
    if shortcut_hrefs.len() > 0 {
        let ghost pre = text@;
        let (t2, asset) = mirror_raw_ref(fetcher, base, shortcut_hrefs[0].as_str(), "", text);
        text = t2;
        proof {
            assert(screfs[0] == shortcut_hrefs@[0]@);
            if asset is Some {
                let nm = asset->Some_0@.name;
                reveal_strlit("");
                assert(""@ + nm =~= nm);
                assert(text@ == spec_replace(pre, screfs[0], nm));
            }
        }
        shortcut_icon = asset;
    }
    let ghost t_sc = text@;
    proof {
        assert(shortcut_pass_ok(base@, screfs, t_icon, t_sc, match shortcut_icon {
            Some(f) => Some(f@),
            None => None,
        }));
    }

    // stylesheet pass
    let css_hrefs = select_attr_values(page, "link[rel=stylesheet]", "href");
    let ghost crefs = attr_values_of(page0, "link[rel=stylesheet]"@, "href"@);
    let mut hi: usize = 0;
    proof {
        assert(crefs.len() == css_hrefs@.len());
        assert(file_views(stylesheets@) =~= Seq::<FileView>::empty());
        assert(raw_views(fonts@) =~= Seq::<RawView>::empty());
    }
    while hi < css_hrefs.len()
        invariant
            hi <= css_hrefs@.len(),
            stylesheet_chain_to(
                base@,
                depth as nat,
                crefs,
                hi as int,
                t_sc,
                text@,
                file_views(stylesheets@),
                raw_views(fonts@),
            ),
        decreases css_hrefs@.len() - hi,
    {
        let ghost mid = text@;
        let ghost sh_pre = file_views(stylesheets@);
        let ghost f_pre = raw_views(fonts@);
        proof {
            assert(crefs[hi as int] == css_hrefs@[hi as int]@);
        }
        let attr = css_hrefs[hi].as_str();
        if let Some(plan) = plan_reference(base, attr) {
            if let Some(css) = scrap_css_at(fetcher, &plan.target, depth) {
                let ghost cv = css_view(css);
                let flat = scraped_css_tree_to_vec(css);
                let ghost fviews = css_views(flat, 0);
                proof {
                    assert(fviews == spec_flatten(cv));
                    lemma_css_views(flat, 0);
                    assert(sh_pre + flat_files(fviews, 0) =~= sh_pre + flat_files(fviews, 0));
                }
                let mut fi: usize = 0;
                while fi < flat.len()
                    invariant
                        fi <= flat@.len(),
                        fviews.len() == flat@.len(),
                        file_views(stylesheets@) + flat_files(fviews, fi as int) =~= sh_pre
                            + flat_files(fviews, 0),
                        raw_views(fonts@) + flat_fonts(fviews, fi as int) =~= f_pre
                            + flat_fonts(fviews, 0),
                    decreases flat@.len() - fi,
                {
                    let ghost sh_mid = file_views(stylesheets@);
                    let ghost f_mid = raw_views(fonts@);
                    let node = &flat[fi];
                    proof {
                        lemma_css_views(flat, 0);
                        assert(fviews[fi as int] == css_view(flat@[fi as int]));
                        assert(css_view(*node).fonts =~= raw_views(node.fonts@));
                    }
                    let mut gi: usize = 0;
                    while gi < node.fonts.len()
                        invariant
                            gi <= node.fonts@.len(),
                            raw_views(fonts@) =~= f_mid + raw_views(
                                node.fonts@.subrange(0, gi as int),
                            ),
                        decreases node.fonts@.len() - gi,
                    {
                        let font = clone_raw(&node.fonts[gi]);
                        let ghost fv2 = font@;
                        fonts.push(font);
                        proof {
                            assert(raw_views(fonts@) =~= (f_mid + raw_views(
                                node.fonts@.subrange(0, gi as int),
                            )).push(fv2));
                            assert(raw_views(node.fonts@.subrange(0, gi + 1 as int))
                                =~= raw_views(node.fonts@.subrange(0, gi as int)).push(
                                node.fonts@[gi as int]@,
                            ));
                            assert(raw_views(fonts@) =~= f_mid + raw_views(
                                node.fonts@.subrange(0, gi + 1 as int),
                            ));
                        }
                        gi = gi + 1;
                    }
                    proof {
                        assert(node.fonts@.subrange(0, node.fonts@.len() as int)
                            =~= node.fonts@);
                        assert(raw_views(node.fonts@) =~= fviews[fi as int].fonts);
                        assert(flat_fonts(fviews, fi as int) == fviews[fi as int].fonts
                            + flat_fonts(fviews, fi + 1));
                        assert(raw_views(fonts@) + flat_fonts(fviews, fi + 1) =~= f_pre
                            + flat_fonts(fviews, 0));
                    }
                    let entry = ScrapedFile {
                        name: node.name.clone(),
                        content: node.content.clone(),
                    };
                    let ghost ev = entry@;
                    stylesheets.push(entry);
                    proof {
                        assert(file_views(stylesheets@) =~= sh_mid.push(ev));
                        assert(ev == FileView {
                            name: fviews[fi as int].name,
                            content: fviews[fi as int].content,
                        });
                        assert(flat_files(fviews, fi as int) == seq![
                            FileView {
                                name: fviews[fi as int].name,
                                content: fviews[fi as int].content,
                            },
                        ] + flat_files(fviews, fi + 1));
                        assert(file_views(stylesheets@) + flat_files(fviews, fi + 1) =~= sh_pre
                            + flat_files(fviews, 0));
                    }
                    fi = fi + 1;
                }
                proof {
                    assert(flat_files(fviews, fi as int) =~= Seq::<FileView>::empty());
                    assert(flat_fonts(fviews, fi as int) =~= Seq::<RawView>::empty());
                    assert(file_views(stylesheets@) =~= sh_pre + flat_files(fviews, 0));
                    assert(raw_views(fonts@) =~= f_pre + flat_fonts(fviews, 0));
                }
                let attr_cs = chars_of(attr);
                if attr_cs.len() > 0 {
                    let ghost pre2 = text@;
                    let repl = prefixed("css/", plan.name.as_str());
                    text = replace_all(&text, &attr_cs, &repl);
                    proof {
                        assert(text@ == spec_replace(pre2, crefs[hi as int], "css/"@
                            + plan.name@));
                    }
                }
                proof {
                    assert(css_depth(cv) <= depth as nat);
                    assert(cv.name == plan.name@);
                    assert(stylesheet_chain_to(
                        base@,
                        depth as nat,
                        crefs,
                        hi as int + 1 - 1,
                        t_sc,
                        mid,
                        sh_pre,
                        f_pre,
                    ));
                    assert(stylesheet_step(
                        base@,
                        depth as nat,
                        crefs[hi as int + 1 - 1],
                        mid,
                        text@,
                        sh_pre,
                        file_views(stylesheets@),
                        f_pre,
                        raw_views(fonts@),
                    ));
                    assert(stylesheet_chain_to(
                        base@,
                        depth as nat,
                        crefs,
                        hi as int + 1,
                        t_sc,
                        text@,
                        file_views(stylesheets@),
                        raw_views(fonts@),
                    ));
                }
            }
        }
        proof {
            if text@ == mid && file_views(stylesheets@) == sh_pre && raw_views(fonts@)
                == f_pre {
                assert(stylesheet_chain_to(
                    base@,
                    depth as nat,
                    crefs,
                    hi as int + 1 - 1,
                    t_sc,
                    mid,
                    sh_pre,
                    f_pre,
                ));
                assert(stylesheet_step(
                    base@,
                    depth as nat,
                    crefs[hi as int + 1 - 1],
                    mid,
                    text@,
                    sh_pre,
                    file_views(stylesheets@),
                    f_pre,
                    raw_views(fonts@),
                ));
                assert(stylesheet_chain_to(
                    base@,
                    depth as nat,
                    crefs,
                    hi as int + 1,
                    t_sc,
                    text@,
                    file_views(stylesheets@),
                    raw_views(fonts@),
                ));
            }
        }
        hi = hi + 1;
    }
    let ghost t_css = text@;
    let ghost sh_all = file_views(stylesheets@);
    let ghost fonts_css = raw_views(fonts@);
    let ghost nfont = fonts@.len() as int;
    proof {
        assert(stylesheet_chain_to(
            base@,
            depth as nat,
            crefs,
            crefs.len() as int,
            t_sc,
            t_css,
            sh_all,
            fonts_css,
        ));
    }

    // script pass
    let script_srcs = select_attr_values(page, "script", "src");
    let ghost srefs = attr_values_of(page0, "script"@, "src"@);
    let mut si: usize = 0;
    proof {
        assert(srefs.len() == script_srcs@.len());
        assert(file_views(scripts@) =~= Seq::<FileView>::empty());
    }
    while si < script_srcs.len()
        invariant
            si <= script_srcs@.len(),
            script_chain_to(base@, srefs, si as int, t_css, text@, file_views(scripts@)),
        decreases script_srcs@.len() - si,
    {
        let ghost mid = text@;
        let ghost s_pre = file_views(scripts@);
        proof {
            assert(srefs[si as int] == script_srcs@[si as int]@);
        }
        let (t2, asset) = mirror_text_ref(fetcher, base, script_srcs[si].as_str(), "src/", text);
        text = t2;
        if let Some(f) = asset {
            let ghost fv2 = f@;
            scripts.push(f);
            proof {
                assert(file_views(scripts@) =~= s_pre.push(fv2));
                assert(file_views(scripts@).drop_last() =~= s_pre);
                assert(script_step(base@, srefs[si as int + 1 - 1], mid, text@, Some(fv2)));
                assert(script_chain_to(
                    base@,
                    srefs,
                    si as int + 1,
                    t_css,
                    text@,
                    file_views(scripts@),
                ));
            }
        } else {
            proof {
                assert(script_step(
                    base@,
                    srefs[si as int + 1 - 1],
                    mid,
                    text@,
                    None::<FileView>,
                ));
                assert(script_chain_to(
                    base@,
                    srefs,
                    si as int + 1,
                    t_css,
                    text@,
                    file_views(scripts@),
                ));
            }
        }
        si = si + 1;
    }
    let ghost t_scr = text@;

    // image pass
    let img_srcs = select_attr_values(page, "img", "src");
    let ghost mrefs = attr_values_of(page0, "img"@, "src"@);
    let mut mi: usize = 0;
    proof {
        assert(mrefs.len() == img_srcs@.len());
        assert(raw_views(images@) =~= Seq::<RawView>::empty());
    }
    while mi < img_srcs.len()
        invariant
            mi <= img_srcs@.len(),
            image_chain_to(base@, mrefs, mi as int, t_scr, text@, raw_views(images@)),
        decreases img_srcs@.len() - mi,
    {
        let ghost mid = text@;
        let ghost m_pre = raw_views(images@);
        proof {
            assert(mrefs[mi as int] == img_srcs@[mi as int]@);
        }
        let (t2, asset) = mirror_raw_ref(fetcher, base, img_srcs[mi].as_str(), "img/", text);
        text = t2;
        if let Some(f) = asset {
            let ghost fv2 = f@;
            images.push(f);
            proof {
                assert(raw_views(images@) =~= m_pre.push(fv2));
                assert(raw_views(images@).drop_last() =~= m_pre);
                assert(image_step(base@, mrefs[mi as int + 1 - 1], mid, text@, Some(fv2)));
                assert(image_chain_to(
                    base@,
                    mrefs,
                    mi as int + 1,
                    t_scr,
                    text@,
                    raw_views(images@),
                ));
            }
        } else {
            proof {
                assert(image_step(
                    base@,
                    mrefs[mi as int + 1 - 1],
                    mid,
                    text@,
                    None::<RawView>,
                ));
                assert(image_chain_to(
                    base@,
                    mrefs,
                    mi as int + 1,
                    t_scr,
                    text@,
                    raw_views(images@),
                ));
            }
        }
        mi = mi + 1;
    }
    let ghost t_img = text@;
    let ghost imgs_pass = raw_views(images@);
    let ghost nimg = images@.len() as int;

    // anchor pass: never fetches; every admitted, non-fragment reference is
    // rewritten unconditionally
    let anchor_hrefs = select_attr_values(page, "a", "href");
    let ghost arefs = attr_values_of(page0, "a"@, "href"@);
    let mut ai: usize = 0;
    proof {
        assert(arefs.len() == anchor_hrefs@.len());
        assert(pair_views(anchors@) + anchor_plans(base@, arefs, 0) =~= anchor_plans(
            base@,
            arefs,
            0,
        ));
    }
    while ai < anchor_hrefs.len()
        invariant
            ai <= anchor_hrefs@.len(),
            anchor_chain_to(base@, arefs, ai as int, t_img, text@),
            anchor_plans(base@, arefs, 0) == pair_views(anchors@) + anchor_plans(
                base@,
                arefs,
                ai as int,
            ),
        decreases anchor_hrefs@.len() - ai,
    {
        let ghost mid = text@;
        let ghost views_pre = pair_views(anchors@);
        let attr = anchor_hrefs[ai].as_str();
        let attr_cs = chars_of(attr);
        proof {
            assert(arefs[ai as int] == anchor_hrefs@[ai as int]@);
        }
        let fragment_only = attr_cs.len() > 0 && attr_cs[0] == '#';
        let mut stepped = false;
        if !fragment_only && attr_cs.len() > 0 {
            if let Some(plan) = plan_reference(base, attr) {
                let repl = prefixed("/", plan.name.as_str());
                text = replace_all(&text, &attr_cs, &repl);
                let ghost pr = (plan.target@.url, plan.name@);
                anchors.push((plan.target.url, plan.name));
                stepped = true;
                proof {
                    assert(anchor_text_step(base@, arefs[ai as int + 1 - 1], mid, text@));
                    assert(anchor_chain_to(base@, arefs, ai as int + 1, t_img, text@));
                    assert(pair_views(anchors@) =~= views_pre.push(pr));
                    assert(anchor_step(base@, arefs[ai as int]) =~= seq![pr]);
                    assert(views_pre.push(pr) =~= views_pre + seq![pr]);
                    assert(pair_views(anchors@) + anchor_plans(base@, arefs, ai + 1)
                        =~= views_pre + anchor_plans(base@, arefs, ai as int));
                }
            }
        }
        proof {
            if !stepped {
                assert(text@ == mid);
                assert(anchor_text_step(base@, arefs[ai as int + 1 - 1], mid, text@));
                assert(anchor_chain_to(base@, arefs, ai as int + 1, t_img, text@));
                assert(anchor_step(base@, arefs[ai as int]) =~= Seq::<(Seq<char>, Seq<
                    char,
                >)>::empty());
                assert(pair_views(anchors@) + anchor_plans(base@, arefs, ai + 1) =~= views_pre
                    + anchor_plans(base@, arefs, ai as int));
            }
        }
        ai = ai + 1;
    }
    let ghost t_anch = text@;
    proof {
        assert(anchor_plans(base@, arefs, ai as int) =~= Seq::<(Seq<char>, Seq<char>)>::empty());
        assert(pair_views(anchors@) =~= anchor_plans(base@, arefs, 0));
        assert(anchor_chain_to(base@, arefs, arefs.len() as int, t_img, t_anch));
    }

    // inline-style pass, over the flattened source list
    let styles = select_attr_values(page, "[style]", "style");
    let ghost styles_v = attr_values_of(page0, "[style]"@, "style"@);
    let srcs = inline_sources(&styles);
    let ghost isrcs = inline_source_list(styles_v, 0);
    let mut ui: usize = 0;
    proof {
        assert(isrcs.len() == srcs@.len());
    }
    while ui < srcs.len()
        invariant
            ui <= srcs@.len(),
            nimg <= images@.len(),
            nfont <= fonts@.len(),
            raw_views(images@).take(nimg) == imgs_pass,
            raw_views(fonts@).take(nfont) == fonts_css,
            inline_chain_to(
                base@,
                isrcs,
                ui as int,
                t_anch,
                text@,
                raw_views(images@).skip(nimg),
                raw_views(fonts@).skip(nfont),
            ),
        decreases srcs@.len() - ui,
    {
        let ghost mid = text@;
        let ghost mi_pre = raw_views(images@).skip(nimg);
        let ghost fi_pre = raw_views(fonts@).skip(nfont);
        proof {
            assert(isrcs[ui as int] == srcs@[ui as int]@);
        }
        let unquoted = strip_quotes(&srcs[ui]);
        let mut stepped = false;
        if unquoted.len() > 0 {
            let target_s = string_of(&unquoted);
            if let Some(plan) = plan_reference(base, target_s.as_str()) {
                if let Some(ext) = extension(plan.name.as_str()) {
                    let kind = classify(ext.as_str());
                    match kind {
                        ResourceKind::Image => {
                            if let Some(content) = fetch_bytes_same_origin(
                                fetcher,
                                base,
                                &plan.target,
                            ) {
                                let ghost nm = plan.name@;
                                let repl = prefixed("img/", plan.name.as_str());
                                text = replace_all(&text, &unquoted, &repl);
                                let asset = ScrapedFileRaw { name: plan.name, content };
                                let ghost av = asset@;
                                images.push(asset);
                                stepped = true;
                                proof {
                                    assert(raw_views(images@) =~= (imgs_pass
                                        + mi_pre).push(av));
                                    assert(raw_views(images@).take(nimg) =~= imgs_pass);
                                    assert(raw_views(images@).skip(nimg) =~= mi_pre.push(av));
                                    assert(raw_views(images@).skip(nimg).drop_last()
                                        =~= mi_pre);
                                    assert(inline_step(
                                        base@,
                                        isrcs[ui as int + 1 - 1],
                                        mid,
                                        text@,
                                        Some(av),
                                        None::<RawView>,
                                    ));
                                    assert(inline_chain_to(
                                        base@,
                                        isrcs,
                                        ui as int + 1,
                                        t_anch,
                                        text@,
                                        raw_views(images@).skip(nimg),
                                        raw_views(fonts@).skip(nfont),
                                    ));
                                }
                            }
                        },
                        ResourceKind::Font => {
                            if let Some(content) = fetch_bytes_same_origin(
                                fetcher,
                                base,
                                &plan.target,
                            ) {
                                let ghost nm = plan.name@;
                                let repl = prefixed("fonts/", plan.name.as_str());
                                text = replace_all(&text, &unquoted, &repl);
                                let asset = ScrapedFileRaw { name: plan.name, content };
                                let ghost av = asset@;
                                fonts.push(asset);
                                stepped = true;
                                proof {
                                    assert(raw_views(fonts@) =~= (fonts_css
                                        + fi_pre).push(av));
                                    assert(raw_views(fonts@).take(nfont) =~= fonts_css);
                                    assert(raw_views(fonts@).skip(nfont) =~= fi_pre.push(av));
                                    assert(raw_views(fonts@).skip(nfont).drop_last()
                                        =~= fi_pre);
                                    assert(inline_step(
                                        base@,
                                        isrcs[ui as int + 1 - 1],
                                        mid,
                                        text@,
                                        None::<RawView>,
                                        Some(av),
                                    ));
                                    assert(inline_chain_to(
                                        base@,
                                        isrcs,
                                        ui as int + 1,
                                        t_anch,
                                        text@,
                                        raw_views(images@).skip(nimg),
                                        raw_views(fonts@).skip(nfont),
                                    ));
                                }
                            }
                        },
                        ResourceKind::Other => {},
                    }
                }
            }
        }
        proof {
            if !stepped {
                assert(text@ == mid);
                assert(inline_step(
                    base@,
                    isrcs[ui as int + 1 - 1],
                    mid,
                    text@,
                    None::<RawView>,
                    None::<RawView>,
                ));
                assert(inline_chain_to(
                    base@,
                    isrcs,
                    ui as int + 1,
                    t_anch,
                    text@,
                    raw_views(images@).skip(nimg),
                    raw_views(fonts@).skip(nfont),
                ));
            }
        }
        ui = ui + 1;
    }

    let h = ScrapedHtml {
        content: string_of(&text),
        icon,
        shortcut_icon,
        stylesheets,
        scripts,
        images,
        fonts,
        anchors,
    };
    proof {
        assert(h@.anchors =~= anchor_plans(base@, arefs, 0));
        assert(h@.images.take(nimg) == imgs_pass);
        assert(h@.fonts.take(nfont) == fonts_css);
        assert(inline_chain_to(
            base@,
            isrcs,
            isrcs.len() as int,
            t_anch,
            h@.content,
            h@.images.skip(nimg),
            h@.fonts.skip(nfont),
        ));
        assert(passes_from_anchors(base@, page0, t_img, h@, nimg, nfont));
        assert(image_chain_to(base@, mrefs, mrefs.len() as int, t_scr, t_img, h@.images.take(
            nimg,
        )));
        assert(passes_from_images(base@, page0, t_scr, h@, nfont));
        assert(script_chain_to(base@, srefs, srefs.len() as int, t_css, t_scr, h@.scripts));
        assert(passes_from_scripts(base@, page0, t_css, h@, nfont));
        assert(stylesheet_chain_to(
            base@,
            depth as nat,
            crefs,
            crefs.len() as int,
            t_sc,
            t_css,
            h@.stylesheets,
            h@.fonts.take(nfont),
        ));
        assert(passes_from_stylesheets(base@, page0, depth as nat, t_sc, h@));
        assert(shortcut_pass_ok(base@, screfs, t_icon, t_sc, h@.shortcut_icon));
        assert(passes_from_shortcut(base@, page0, depth as nat, t_icon, h@));
        assert(icon_pass_ok(base@, irefs, page0, t_icon, h@.icon));
        assert(extraction_ok(base@, page0, depth as nat, h@));
    }
    h
}

/// Scrapes the page at `file_url`: fetches its text and extracts it as
/// [`extract_page`] says, with stylesheet budget `depth`. A malformed page
/// URL yields `Err(InvalidUrl)` — exactly then — and a failure fetching the
/// page itself yields `Err(FetchFailed)`; every failure on an individual
/// resource skips that resource alone. A returned page relates to the page
/// text that was fetched as [`extraction_ok`] states.
pub fn scrap_html<T: Fetcher>(fetcher: &mut T, file_url: &str, depth: usize) -> (r: Result<
    ScrapedHtml,
    ScrapeError,
>)
    ensures
        parse_parts(file_url@) is None <==> r == Err::<ScrapedHtml, ScrapeError>(
            ScrapeError::InvalidUrl,
        ),
        match r {
            Ok(h) => parse_parts(file_url@) matches Some(b) && exists|page: Seq<char>|
                extraction_ok(b, page, depth as nat, h@),
            Err(_) => true,
        },
{
    let base = match parse_url(file_url) {
        Some(b) => b,
        None => return Err(ScrapeError::InvalidUrl),
    };
    let page = match fetcher.get_text(base.url.as_str()) {
        Some(t) => t,
        None => return Err(ScrapeError::FetchFailed),
    };
    let h = extract_page(fetcher, &base, page.as_str(), depth);
    proof {
        assert(extraction_ok(base@, page@, depth as nat, h@));
    }
    Ok(h)
}

} // verus!
