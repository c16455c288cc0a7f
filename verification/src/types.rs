//! The data model: text and binary assets, the stylesheet tree, the result
//! of scraping a page, and the capability through which all HTTP traffic
//! flows.
use vstd::prelude::*;

verus! {

/// A text resource under its local file name (stylesheets, scripts).
#[derive(Debug, Clone)]
pub struct ScrapedFile {
    pub name: String,
    pub content: String,
}

/// A binary resource under its local file name (images, fonts, icons).
/// The payload is never decoded.
#[derive(Debug, Clone)]
pub struct ScrapedFileRaw {
    pub name: String,
    pub content: Vec<u8>,
}

/// Mathematical value of a [`ScrapedFile`].
pub struct FileView {
    pub name: Seq<char>,
    pub content: Seq<char>,
}

/// Mathematical value of a [`ScrapedFileRaw`].
pub struct RawView {
    pub name: Seq<char>,
    pub content: Seq<u8>,
}

impl View for ScrapedFile {
    type V = FileView;

    open spec fn view(&self) -> FileView {
        FileView { name: self.name@, content: self.content@ }
    }
}

impl View for ScrapedFileRaw {
    type V = RawView;

    open spec fn view(&self) -> RawView {
        RawView { name: self.name@, content: self.content@ }
    }
}

/// One stylesheet: its local file name, its rewritten text, the font assets
/// found in its `@font-face` blocks, and the stylesheets its `@import`
/// directives were expanded to. Forms a tree rooted at the top-level
/// stylesheet. A deep copy is taken with `stylesheet::clone_css`, which is
/// verified to preserve the tree's value (a derived `Clone` cannot stand on
/// this recursive type).
#[derive(Debug)]
pub struct ScrapedCss {
    pub name: String,
    pub content: String,
    pub fonts: Vec<ScrapedFileRaw>,
    pub imported_stylesheets: Vec<ScrapedCss>,
}

/// Mathematical value of a [`ScrapedCss`] tree.
pub struct CssView {
    pub name: Seq<char>,
    pub content: Seq<char>,
    pub fonts: Seq<RawView>,
    pub imports: Seq<CssView>,
}

/// The mathematical value of a stylesheet tree.
pub open spec fn css_view(c: ScrapedCss) -> CssView
    decreases c,
{
    CssView {
        name: c.name@,
        content: c.content@,
        fonts: Seq::new(c.fonts@.len(), |i: int| c.fonts@[i]@),
        imports: css_views(c.imported_stylesheets, 0),
    }
}

/// The mathematical values of the trees `v[i]`, `v[i + 1]`, ..., in order.
pub open spec fn css_views(v: Vec<ScrapedCss>, i: int) -> Seq<CssView>
    decreases v, v@.len() - i,
    via css_views_dec
{
    if i < 0 || i >= v@.len() {
        Seq::empty()
    } else {
        seq![css_view(v@[i])] + css_views(v, i + 1)
    }
}

#[via_fn]
proof fn css_views_dec(v: Vec<ScrapedCss>, i: int) {
    broadcast use vstd::std_specs::vec::axiom_vec_decreases_to_view;
    broadcast use vstd::seq::axiom_seq_index_decreases;

    if 0 <= i < v@.len() {
        assert(decreases_to!(v => v@));
        assert(decreases_to!(v@ => v@[i]));
    }
}

impl View for ScrapedCss {
    type V = CssView;

    open spec fn view(&self) -> CssView {
        css_view(*self)
    }
}

/// `css_views(v, i)` lists exactly the values of the elements of `v` from
/// index `i` on.
pub proof fn lemma_css_views(v: Vec<ScrapedCss>, i: int)
    requires
        0 <= i <= v@.len(),
    ensures
        css_views(v, i).len() == v@.len() - i,
        forall|k: int|
            i <= k < v@.len() ==> css_views(v, i)[k - i] == css_view(#[trigger] v@[k]),
    decreases v@.len() - i,
{
    if i < v@.len() {
        lemma_css_views(v, i + 1);
    }
}

/// The values of a sequence of binary assets, in order.
pub open spec fn raw_views(s: Seq<ScrapedFileRaw>) -> Seq<RawView> {
    s.map_values(|f: ScrapedFileRaw| f@)
}

/// Two vectors of stylesheet trees with pointwise equal values have equal
/// value sequences.
pub proof fn lemma_css_views_pointwise(a: Vec<ScrapedCss>, b: Vec<ScrapedCss>)
    requires
        a@.len() == b@.len(),
        forall|k: int| 0 <= k < a@.len() ==> css_view(#[trigger] a@[k]) == css_view(b@[k]),
    ensures
        css_views(a, 0) == css_views(b, 0),
{
    lemma_css_views(a, 0);
    lemma_css_views(b, 0);
    assert forall|k: int|
        0 <= k < css_views(a, 0).len() implies css_views(a, 0)[k] == css_views(b, 0)[k] by {
        assert(css_views(a, 0)[k] == css_view(a@[k]));
        assert(css_views(b, 0)[k] == css_view(b@[k]));
    }
    assert(css_views(a, 0) =~= css_views(b, 0));
}

/// Everything a page scrape produces: the rewritten page text, the optional
/// icons, and the ordered buckets of downloaded resources. Anchors are
/// recorded as (absolute URL, local file name) pairs and never fetched.
#[derive(Debug, Clone)]
pub struct ScrapedHtml {
    pub content: String,
    pub icon: Option<ScrapedFileRaw>,
    pub shortcut_icon: Option<ScrapedFileRaw>,
    pub stylesheets: Vec<ScrapedFile>,
    pub scripts: Vec<ScrapedFile>,
    pub images: Vec<ScrapedFileRaw>,
    pub fonts: Vec<ScrapedFileRaw>,
    pub anchors: Vec<(String, String)>,
}

/// The values of a sequence of text assets, in order.
pub open spec fn file_views(s: Seq<ScrapedFile>) -> Seq<FileView> {
    s.map_values(|f: ScrapedFile| f@)
}

/// The values of a sequence of string pairs, in order.
pub open spec fn pair_views(s: Seq<(String, String)>) -> Seq<(Seq<char>, Seq<char>)> {
    s.map_values(|p: (String, String)| (p.0@, p.1@))
}

/// Mathematical value of a [`ScrapedHtml`].
pub struct HtmlView {
    pub content: Seq<char>,
    pub icon: Option<RawView>,
    pub shortcut_icon: Option<RawView>,
    pub stylesheets: Seq<FileView>,
    pub scripts: Seq<FileView>,
    pub images: Seq<RawView>,
    pub fonts: Seq<RawView>,
    pub anchors: Seq<(Seq<char>, Seq<char>)>,
}

impl View for ScrapedHtml {
    type V = HtmlView;

    open spec fn view(&self) -> HtmlView {
        HtmlView {
            content: self.content@,
            icon: match self.icon {
                Some(f) => Some(f@),
                None => None,
            },
            shortcut_icon: match self.shortcut_icon {
                Some(f) => Some(f@),
                None => None,
            },
            stylesheets: file_views(self.stylesheets@),
            scripts: file_views(self.scripts@),
            images: raw_views(self.images@),
            fonts: raw_views(self.fonts@),
            anchors: pair_views(self.anchors@),
        }
    }
}

/// The single fatal failure mode of a page scrape: the page URL itself does
/// not parse, or the page itself cannot be fetched. Every failure on an
/// individual referenced resource is skipped silently instead.
#[derive(Debug, Clone, Copy, PartialEq, Eq)]
pub enum ScrapeError {
    InvalidUrl,
    FetchFailed,
}

/// The HTTP fetch capability. `get_text` and `get_bytes` return the decoded
/// body of a successful response and `None` on a transport failure or a
/// non-success status; nothing more is assumed of them, so everything proved
/// of the engine holds whatever a transport returns. Each resource is
/// requested at most once, in document order.
pub trait Fetcher {
    /// Fetches `url` and decodes the body as text.
    fn get_text(&mut self, url: &str) -> Option<String>;

    /// Fetches `url` and returns the raw body bytes.
    fn get_bytes(&mut self, url: &str) -> Option<Vec<u8>>;
}

} // verus!
