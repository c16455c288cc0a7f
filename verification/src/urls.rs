//! URL resolution and classification: joining references against a base,
//! the same-origin test, local file names, and extension classification.
//!
//! Joining and parsing are done by the `url` crate behind trusted wrappers;
//! everything downstream of them is verified.
use crate::text::{chars_of, find_last_char, last_char_before, string_of, sub_vec, vec_eq};
use vstd::prelude::*;

verus! {

/// An absolute URL as the engine reads it: its full string form, its host
/// component (absent for URLs that carry none), and its path component.
#[derive(Debug, Clone)]
pub struct UrlParts {
    pub url: String,
    pub host: Option<String>,
    pub path: String,
}

/// Mathematical value of a [`UrlParts`].
pub struct UrlPartsView {
    pub url: Seq<char>,
    pub host: Option<Seq<char>>,
    pub path: Seq<char>,
}

impl View for UrlParts {
    type V = UrlPartsView;

    open spec fn view(&self) -> UrlPartsView {
        UrlPartsView {
            url: self.url@,
            host: match self.host {
                Some(h) => Some(h@),
                None => None,
            },
            path: self.path@,
        }
    }
}

/// What parsing an absolute URL string yields: its string form, host and
/// path, or nothing for a malformed URL.
pub uninterp spec fn parse_parts(url: Seq<char>) -> Option<UrlPartsView>;

/// What joining a reference against an absolute base URL yields, under
/// standard URL-join semantics, or nothing for a malformed reference.
pub uninterp spec fn join_parts(base: Seq<char>, reference: Seq<char>) -> Option<UrlPartsView>;

/// The (scheme, host, decimal port) origin triple of an absolute URL, or
/// nothing when its origin is opaque.
pub uninterp spec fn origin_triple(url: Seq<char>) -> Option<(Seq<char>, Seq<char>, Seq<char>)>;

/// Relies on `url::Url::parse`, with `Url::as_str`, `Url::host_str` and
/// `Url::path` reading the parsed value back; the outcome depends on the
/// input string alone.
#[verifier::external_body]
pub(crate) fn parse_url(url: &str) -> (r: Option<UrlParts>)
    ensures
        match r {
            Some(p) => parse_parts(url@) == Some(p@),
            None => parse_parts(url@) is None,
        },
{
    match url::Url::parse(url) {
        Ok(u) => Some(
            UrlParts {
                host: u.host_str().map(|h| h.to_string()),
                path: u.path().to_string(),
                url: u.to_string(),
            },
        ),
        Err(_) => None,
    }
}

/// Relies on `url::Url::join` (with `url::Url::parse` for the base):
/// standard URL-join of a possibly relative reference against an absolute
/// base; the outcome depends on the two strings alone.
#[verifier::external_body]
pub(crate) fn resolve_reference(base: &str, reference: &str) -> (r: Option<UrlParts>)
    ensures
        match r {
            Some(p) => join_parts(base@, reference@) == Some(p@),
            None => join_parts(base@, reference@) is None,
        },
{
    let b = match url::Url::parse(base) {
        Ok(b) => b,
        Err(_) => return None,
    };
    match b.join(reference) {
        Ok(u) => Some(
            UrlParts {
                host: u.host_str().map(|h| h.to_string()),
                path: u.path().to_string(),
                url: u.to_string(),
            },
        ),
        Err(_) => None,
    }
}

/// Relies on `url::Url::origin`: for a URL whose origin is a
/// (scheme, host, port) tuple it yields those components, the port written
/// in decimal; for an opaque origin it yields nothing. Depends on the URL
/// string alone.
#[verifier::external_body]
pub(crate) fn origin_parts(url: &str) -> (r: Option<(String, String, String)>)
    ensures
        match r {
            Some(t) => origin_triple(url@) == Some((t.0@, t.1@, t.2@)),
            None => origin_triple(url@) is None,
        },
{
    let u = match url::Url::parse(url) {
        Ok(u) => u,
        Err(_) => return None,
    };
    match u.origin() {
        url::Origin::Tuple(scheme, host, port) => Some(
            (scheme, format!("{}", host), format!("{}", port)),
        ),
        url::Origin::Opaque(_) => None,
    }
}

/// Two URLs belong to the same origin exactly when their host components
/// are equal; scheme and port are not compared.
pub open spec fn same_origin(a: UrlPartsView, b: UrlPartsView) -> bool {
    a.host == b.host
}

/// Whether the two strings hold the same characters.
pub fn string_eq(a: &str, b: &str) -> (r: bool)
    ensures
        r == (a@ == b@),
{
    let av = chars_of(a);
    let bv = chars_of(b);
    vec_eq(&av, &bv)
}

/// Whether `a` and `b` share their host component.
pub fn is_same_origin(a: &UrlParts, b: &UrlParts) -> (r: bool)
    ensures
        r == same_origin(a@, b@),
{
    match (&a.host, &b.host) {
        (Some(x), Some(y)) => string_eq(x.as_str(), y.as_str()),
        (None, None) => true,
        _ => false,
    }
}

/// The final `/`-delimited segment of a URL string (the whole string when
/// it has no `/`).
pub open spec fn spec_last_segment(s: Seq<char>) -> Seq<char> {
    match last_char_before(s, '/', s.len() - 1) {
        Some(k) => s.subrange(k + 1, s.len() as int),
        None => s,
    }
}

/// The local file name a resolved URL is stored under: its final path
/// segment, or nothing when that segment is empty.
pub open spec fn spec_local_name(s: Seq<char>) -> Option<Seq<char>> {
    if spec_last_segment(s).len() > 0 {
        Some(spec_last_segment(s))
    } else {
        None
    }
}

/// The local file name of a resolved URL: the segment after the last `/`
/// (`None` when that segment is empty, and the resource is skipped).
pub fn local_name(url: &str) -> (r: Option<String>)
    ensures
        match r {
            Some(n) => spec_local_name(url@) == Some(n@) && n@.len() > 0,
            None => spec_local_name(url@) is None,
        },
{
    let cs = chars_of(url);
    let n = cs.len();
    let seg = match find_last_char(&cs, '/') {
        Some(k) => sub_vec(&cs, k + 1, n),
        None => cs,
    };
    if seg.len() > 0 {
        Some(string_of(&seg))
    } else {
        None
    }
}

/// The substring after the last `.` of a name (the whole name when it has
/// no `.`).
pub open spec fn spec_extension(s: Seq<char>) -> Seq<char> {
    match last_char_before(s, '.', s.len() - 1) {
        Some(k) => s.subrange(k + 1, s.len() as int),
        None => s,
    }
}

/// The extension of a file name: everything after its last `.`, or the
/// whole name when it holds no `.` (matching the classification table,
/// which sends such names to `Other`).
pub fn extension(name: &str) -> (r: Option<String>)
    ensures
        match r {
            Some(e) => e@ == spec_extension(name@),
            None => false,
        },
{
    let cs = chars_of(name);
    let n = cs.len();
    let seg = match find_last_char(&cs, '.') {
        Some(k) => sub_vec(&cs, k + 1, n),
        None => cs,
    };
    Some(string_of(&seg))
}

/// How an extension classifies a resource found in an inline style.
#[derive(Debug, Clone, Copy, PartialEq, Eq, Structural)]
pub enum ResourceKind {
    Image,
    Font,
    Other,
}

/// The classification table: `png`, `jpg`, `jpeg`, `webp`, `gif`, `svg` are
/// images; `ttf`, `eot`, `woff`, `woff2` are fonts; anything else —
/// case-sensitively — is other.
pub open spec fn spec_classify(ext: Seq<char>) -> ResourceKind {
    if ext == "png"@ || ext == "jpg"@ || ext == "jpeg"@ || ext == "webp"@ || ext == "gif"@
        || ext == "svg"@ {
        ResourceKind::Image
    } else if ext == "ttf"@ || ext == "eot"@ || ext == "woff"@ || ext == "woff2"@ {
        ResourceKind::Font
    } else {
        ResourceKind::Other
    }
}

/// Classifies an extension as image, font or other, by the literal table.
pub fn classify(ext: &str) -> (k: ResourceKind)
    ensures
        k == spec_classify(ext@),
{
    if string_eq(ext, "png") || string_eq(ext, "jpg") || string_eq(ext, "jpeg") || string_eq(
        ext,
        "webp",
    ) || string_eq(ext, "gif") || string_eq(ext, "svg") {
        ResourceKind::Image
    } else if string_eq(ext, "ttf") || string_eq(ext, "eot") || string_eq(ext, "woff")
        || string_eq(ext, "woff2") {
        ResourceKind::Font
    } else {
        ResourceKind::Other
    }
}

/// The per-reference admission rule shared by the resource passes: the
/// reference joined against the base is admitted only when it resolves, its
/// resolved URL has a final path segment, and its host equals the base
/// host. Anything else is skipped, unfetched.
pub open spec fn spec_plan(base: UrlPartsView, reference: Seq<char>) -> Option<
    (UrlPartsView, Seq<char>),
> {
    match join_parts(base.url, reference) {
        Some(t) => match spec_local_name(t.url) {
            Some(n) => if t.host == base.host {
                Some((t, n))
            } else {
                None
            },
            None => None,
        },
        None => None,
    }
}

/// A reference admitted for mirroring: its resolved URL and the local file
/// name it maps to.
pub struct PlannedRef {
    pub target: UrlParts,
    pub name: String,
}

/// Resolves a reference against the base and applies the admission rule of
/// [`spec_plan`]: a malformed reference, a URL without a final path segment,
/// or an off-origin host yields `None` and the resource is skipped.
pub fn plan_reference(base: &UrlParts, reference: &str) -> (r: Option<PlannedRef>)
    ensures
        match r {
            Some(p) => spec_plan(base@, reference@) == Some((p.target@, p.name@))
                && p.target@.host == base@.host && p.name@.len() > 0,
            None => spec_plan(base@, reference@) is None,
        },
{
    let resolved = match resolve_reference(base.url.as_str(), reference) {
        Some(t) => t,
        None => return None,
    };
    let name = match local_name(resolved.url.as_str()) {
        Some(n) => n,
        None => return None,
    };
    if is_same_origin(&resolved, base) {
        Some(PlannedRef { target: resolved, name })
    } else {
        None
    }
}

} // verus!
