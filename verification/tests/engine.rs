use html_template_scraper::html::{extract_page, scrap_html};
use html_template_scraper::stylesheet::{process_stylesheet, scrap_css};
use html_template_scraper::types::{Fetcher, ScrapeError};
use html_template_scraper::urls::UrlParts;

/// An in-memory transport: URL → text or bytes, recording every request.
/// URLs listed in `fail_first` fail their first request and succeed after.
struct MapFetcher {
    text: Vec<(String, String)>,
    bytes: Vec<(String, Vec<u8>)>,
    fail_first: Vec<String>,
    log: Vec<String>,
}

impl MapFetcher {
    fn new() -> MapFetcher {
        MapFetcher { text: Vec::new(), bytes: Vec::new(), fail_first: Vec::new(), log: Vec::new() }
    }

    fn with_text(mut self, url: &str, body: &str) -> MapFetcher {
        self.text.push((url.to_string(), body.to_string()));
        self
    }

    fn with_bytes(mut self, url: &str, body: &[u8]) -> MapFetcher {
        self.bytes.push((url.to_string(), body.to_vec()));
        self
    }

    fn failing_first(mut self, url: &str) -> MapFetcher {
        self.fail_first.push(url.to_string());
        self
    }

    fn fails_now(&mut self, url: &str) -> bool {
        if let Some(pos) = self.fail_first.iter().position(|u| u == url) {
            self.fail_first.remove(pos);
            true
        } else {
            false
        }
    }
}

impl Fetcher for MapFetcher {
    fn get_text(&mut self, url: &str) -> Option<String> {
        self.log.push(url.to_string());
        if self.fails_now(url) {
            return None;
        }
        self.text.iter().find(|(u, _)| u == url).map(|(_, b)| b.clone())
    }

    fn get_bytes(&mut self, url: &str) -> Option<Vec<u8>> {
        self.log.push(url.to_string());
        if self.fails_now(url) {
            return None;
        }
        self.bytes.iter().find(|(u, _)| u == url).map(|(_, b)| b.clone())
    }
}

#[test]
fn stylesheet_with_import_depth_one() {
    // page at http://ex.com/ links /s.css, which imports f.css; depth 1
    // yields two stylesheet entries and the link rewritten to css/s.css
    let page = r#"<html><head><link rel="stylesheet" href="/s.css"></head><body></body></html>"#;
    let mut f = MapFetcher::new()
        .with_text("http://ex.com/", page)
        .with_text("http://ex.com/s.css", "@import url(\"f.css\");")
        .with_text("http://ex.com/f.css", "body { margin: 0; }");
    let out = scrap_html(&mut f, "http://ex.com/", 1).unwrap();
    assert_eq!(out.stylesheets.len(), 2);
    assert_eq!(out.stylesheets[0].name, "s.css");
    assert_eq!(out.stylesheets[0].content, "f.css");
    assert_eq!(out.stylesheets[1].name, "f.css");
    assert_eq!(out.stylesheets[1].content, "body { margin: 0; }");
    assert!(out.content.contains("href=\"css/s.css\""));
}

#[test]
fn off_origin_image_is_not_fetched() {
    // an image on another host produces no asset, no request, and leaves the
    // reference unchanged
    let page = r#"<html><body><img src="https://other.com/a.png"></body></html>"#;
    let mut f = MapFetcher::new()
        .with_text("http://ex.com/", page)
        .with_bytes("https://other.com/a.png", &[1, 2, 3]);
    let out = scrap_html(&mut f, "http://ex.com/", 5).unwrap();
    assert_eq!(out.images.len(), 0);
    assert_eq!(out.content, page);
    assert!(!f.log.iter().any(|u| u.contains("other.com")));
}

#[test]
fn same_origin_image_rewritten_with_identical_payload() {
    let page = r#"<html><body><img src="/pics/logo.png"></body></html>"#;
    let payload: Vec<u8> = vec![137, 80, 78, 71, 0, 255];
    let mut f = MapFetcher::new()
        .with_text("http://ex.com/", page)
        .with_bytes("http://ex.com/pics/logo.png", &payload);
    let out = scrap_html(&mut f, "http://ex.com/", 5).unwrap();
    assert_eq!(out.images.len(), 1);
    assert_eq!(out.images[0].name, "logo.png");
    assert_eq!(out.images[0].content, payload);
    assert!(out.content.contains("src=\"img/logo.png\""));
    assert!(!out.content.contains("/pics/logo.png"));
}

#[test]
fn script_rewritten_once_per_occurrence() {
    let page = r#"<html><head><script src="app.js"></script></head></html>"#;
    let mut f = MapFetcher::new()
        .with_text("http://ex.com/", page)
        .with_text("http://ex.com/app.js", "console.log(1);");
    let out = scrap_html(&mut f, "http://ex.com/", 5).unwrap();
    assert_eq!(out.scripts.len(), 1);
    assert_eq!(out.scripts[0].name, "app.js");
    assert_eq!(out.scripts[0].content, "console.log(1);");
    assert_eq!(out.content.matches("src/app.js").count(), 1);
}

#[test]
fn icon_fallback_tries_page_dir_then_origin_root() {
    // no link[rel=icon]: favicon.ico beside the page fails, the origin-root
    // one succeeds and is recorded under the name favicon.ico
    let page = "<html><body>hi</body></html>";
    let mut f = MapFetcher::new()
        .with_text("http://ex.com/sub/index.html", page)
        .with_bytes("http://ex.com/favicon.ico", &[4, 5]);
    let out = scrap_html(&mut f, "http://ex.com/sub/index.html", 5).unwrap();
    let icon = out.icon.expect("icon expected");
    assert_eq!(icon.name, "favicon.ico");
    assert_eq!(icon.content, vec![4, 5]);
    assert!(f.log.iter().any(|u| u == "http://ex.com/sub/favicon.ico"));
}

#[test]
fn icon_fallback_retries_same_candidate_at_origin_root() {
    // the first favicon request gets a failure status, the second succeeds
    let page = "<html><body>hi</body></html>";
    let mut f = MapFetcher::new()
        .with_text("http://ex.com/", page)
        .with_bytes("http://ex.com/favicon.ico", &[9])
        .failing_first("http://ex.com/favicon.ico");
    let out = scrap_html(&mut f, "http://ex.com/", 5).unwrap();
    let icon = out.icon.expect("icon expected");
    assert_eq!(icon.name, "favicon.ico");
    assert_eq!(icon.content, vec![9]);
    assert_eq!(f.log.iter().filter(|u| u.ends_with("favicon.ico")).count(), 2);
}

#[test]
fn icon_element_wins_over_fallback() {
    let page = r#"<html><head><link rel="icon" href="/icons/fav.png"></head></html>"#;
    let mut f = MapFetcher::new()
        .with_text("http://ex.com/", page)
        .with_bytes("http://ex.com/icons/fav.png", &[1]);
    let out = scrap_html(&mut f, "http://ex.com/", 5).unwrap();
    assert_eq!(out.icon.unwrap().name, "fav.png");
    assert!(out.content.contains("href=\"fav.png\""));
    assert!(!f.log.iter().any(|u| u.ends_with("favicon.ico")));
}

#[test]
fn failing_icon_element_leaves_no_icon() {
    let page = r#"<html><head><link rel="icon" href="/fav.png"></head></html>"#;
    let mut f = MapFetcher::new().with_text("http://ex.com/", page);
    let out = scrap_html(&mut f, "http://ex.com/", 5).unwrap();
    assert!(out.icon.is_none());
}

#[test]
fn shortcut_icon_recorded_without_fallback() {
    let page = r#"<html><head><link rel="shortcut icon" href="/si.ico"></head></html>"#;
    let mut f = MapFetcher::new()
        .with_text("http://ex.com/", page)
        .with_bytes("http://ex.com/si.ico", &[8, 8]);
    let out = scrap_html(&mut f, "http://ex.com/", 5).unwrap();
    let si = out.shortcut_icon.expect("shortcut icon expected");
    assert_eq!(si.name, "si.ico");
    assert_eq!(si.content, vec![8, 8]);
}

#[test]
fn inline_style_image_rewritten_and_recorded() {
    // a same-origin url('i.png') in a style attribute becomes an image asset
    // and the reference in the style text becomes img/i.png
    let page = r#"<html><body><div style="background:url('i.png')"></div></body></html>"#;
    let mut f = MapFetcher::new()
        .with_text("http://ex.com/", page)
        .with_bytes("http://ex.com/i.png", &[3, 1, 4]);
    let out = scrap_html(&mut f, "http://ex.com/", 5).unwrap();
    assert_eq!(out.images.len(), 1);
    assert_eq!(out.images[0].name, "i.png");
    assert_eq!(out.images[0].content, vec![3, 1, 4]);
    assert!(out.content.contains("url('img/i.png')"));
}

#[test]
fn inline_style_font_goes_to_fonts_bucket() {
    let page = r#"<html><body><p style="src:url(t.woff2)">x</p></body></html>"#;
    let mut f = MapFetcher::new()
        .with_text("http://ex.com/", page)
        .with_bytes("http://ex.com/t.woff2", &[6]);
    let out = scrap_html(&mut f, "http://ex.com/", 5).unwrap();
    assert_eq!(out.fonts.len(), 1);
    assert_eq!(out.fonts[0].name, "t.woff2");
    assert!(out.content.contains("url(fonts/t.woff2)"));
}

#[test]
fn inline_style_other_extension_ignored() {
    let page = r#"<html><body><div style="background:url('page.html')"></div></body></html>"#;
    let mut f = MapFetcher::new()
        .with_text("http://ex.com/", page)
        .with_bytes("http://ex.com/page.html", &[1]);
    let out = scrap_html(&mut f, "http://ex.com/", 5).unwrap();
    assert_eq!(out.images.len(), 0);
    assert_eq!(out.fonts.len(), 0);
    assert!(out.content.contains("url('page.html')"));
    assert!(!f.log.iter().any(|u| u.ends_with("page.html")));
}

#[test]
fn anchors_rewritten_never_fetched() {
    let page = r##"<html><body><a href="/about/team.html">t</a><a href="#top">up</a></body></html>"##;
    let mut f = MapFetcher::new().with_text("http://ex.com/", page);
    let out = scrap_html(&mut f, "http://ex.com/", 5).unwrap();
    assert_eq!(out.anchors.len(), 1);
    assert_eq!(out.anchors[0].0, "http://ex.com/about/team.html");
    assert_eq!(out.anchors[0].1, "team.html");
    assert!(out.content.contains("href=\"/team.html\""));
    assert!(out.content.contains("href=\"#top\""));
    assert!(!f.log.iter().any(|u| u.contains("team")));
}

#[test]
fn import_chain_expands_min_of_chain_and_depth() {
    // a -> b -> c -> d with depth 2: a and b expand, c keeps its import
    // statement as literal text
    let base = String::from("http://ex.com/a.css");
    let mut f = MapFetcher::new()
        .with_text("http://ex.com/a.css", "@import url(\"b.css\");")
        .with_text("http://ex.com/b.css", "@import url(\"c.css\");")
        .with_text("http://ex.com/c.css", "@import url(\"d.css\");")
        .with_text("http://ex.com/d.css", "d");
    let a = scrap_css(&mut f, base.as_str(), 2).unwrap();
    assert_eq!(a.content, "b.css");
    assert_eq!(a.imported_stylesheets.len(), 1);
    let b = &a.imported_stylesheets[0];
    assert_eq!(b.content, "c.css");
    assert_eq!(b.imported_stylesheets.len(), 1);
    let c = &b.imported_stylesheets[0];
    assert_eq!(c.content, "@import url(\"d.css\");");
    assert_eq!(c.imported_stylesheets.len(), 0);
    assert!(!f.log.iter().any(|u| u.ends_with("d.css")));
}

#[test]
fn depth_zero_expands_no_import() {
    let base = String::from("http://ex.com/a.css");
    let mut f = MapFetcher::new()
        .with_text("http://ex.com/a.css", "@import url(\"b.css\");")
        .with_text("http://ex.com/b.css", "b");
    let a = scrap_css(&mut f, base.as_str(), 0).unwrap();
    assert_eq!(a.content, "@import url(\"b.css\");");
    assert_eq!(a.imported_stylesheets.len(), 0);
}

#[test]
fn import_of_own_path_is_not_expanded() {
    let base = String::from("http://ex.com/self.css");
    let mut f = MapFetcher::new().with_text("http://ex.com/self.css", "@import url(\"self.css\");");
    let a = scrap_css(&mut f, base.as_str(), 3).unwrap();
    assert_eq!(a.imported_stylesheets.len(), 0);
    assert_eq!(a.content, "@import url(\"self.css\");");
}

#[test]
fn off_origin_import_is_skipped() {
    let base = String::from("http://ex.com/a.css");
    let mut f = MapFetcher::new()
        .with_text("http://ex.com/a.css", "@import url(\"http://other.com/b.css\");")
        .with_text("http://other.com/b.css", "b");
    let a = scrap_css(&mut f, base.as_str(), 3).unwrap();
    assert_eq!(a.imported_stylesheets.len(), 0);
    assert!(!f.log.iter().any(|u| u.contains("other.com")));
}

#[test]
fn font_face_source_rewritten_and_query_stripped() {
    // the font URL is resolved with its query stripped, while the rewrite
    // targets the unquoted, query-keeping source text
    let base = String::from("http://ex.com/css/s.css");
    let css = "@font-face { src: url(\"fnt.woff2?v=1\"); }";
    let mut f = MapFetcher::new()
        .with_text("http://ex.com/css/s.css", css)
        .with_bytes("http://ex.com/css/fnt.woff2", &[0, 1]);
    let a = scrap_css(&mut f, base.as_str(), 1).unwrap();
    assert_eq!(a.fonts.len(), 1);
    assert_eq!(a.fonts[0].name, "fnt.woff2");
    assert_eq!(a.fonts[0].content, vec![0, 1]);
    assert_eq!(a.content, "@font-face { src: url(\"../font/fnt.woff2\"); }");
}

#[test]
fn failing_font_leaves_reference_unchanged() {
    let base = String::from("http://ex.com/s.css");
    let css = "@font-face { src: url(gone.ttf); }";
    let mut f = MapFetcher::new().with_text("http://ex.com/s.css", css);
    let a = scrap_css(&mut f, base.as_str(), 1).unwrap();
    assert_eq!(a.fonts.len(), 0);
    assert_eq!(a.content, css);
}

#[test]
fn import_keyword_matches_any_case() {
    let base = String::from("http://ex.com/a.css");
    let mut f = MapFetcher::new()
        .with_text("http://ex.com/a.css", "@IMPORT URL('b.css');")
        .with_text("http://ex.com/b.css", "b");
    let a = scrap_css(&mut f, base.as_str(), 1).unwrap();
    assert_eq!(a.imported_stylesheets.len(), 1);
    assert_eq!(a.content, "b.css");
}

#[test]
fn bare_import_target_is_accepted() {
    let base = String::from("http://ex.com/a.css");
    let mut f = MapFetcher::new()
        .with_text("http://ex.com/a.css", "@import url( b.css );")
        .with_text("http://ex.com/b.css", "b");
    let a = scrap_css(&mut f, base.as_str(), 1).unwrap();
    assert_eq!(a.imported_stylesheets.len(), 1);
}

#[test]
fn invalid_page_url_is_the_fatal_invalid_error() {
    let mut f = MapFetcher::new();
    assert_eq!(scrap_html(&mut f, "not a url", 5).unwrap_err(), ScrapeError::InvalidUrl);
}

#[test]
fn unfetchable_page_is_the_fatal_fetch_error() {
    let mut f = MapFetcher::new();
    assert_eq!(
        scrap_html(&mut f, "http://ex.com/", 5).unwrap_err(),
        ScrapeError::FetchFailed
    );
}

#[test]
fn failing_stylesheet_skips_only_that_link() {
    let page = r#"<link rel="stylesheet" href="/gone.css"><link rel="stylesheet" href="/here.css">"#;
    let mut f = MapFetcher::new()
        .with_text("http://ex.com/", page)
        .with_text("http://ex.com/here.css", "h");
    let out = scrap_html(&mut f, "http://ex.com/", 1).unwrap();
    assert_eq!(out.stylesheets.len(), 1);
    assert_eq!(out.stylesheets[0].name, "here.css");
    assert!(out.content.contains("href=\"/gone.css\""));
    assert!(out.content.contains("href=\"css/here.css\""));
}

#[test]
fn replacement_is_global_over_the_page_text() {
    // literal replacement is a global find of the matched value: an equal
    // substring outside the attribute is rewritten too
    let page = r#"<p>see a.png here</p><img src="a.png">"#;
    let mut f = MapFetcher::new()
        .with_text("http://ex.com/", page)
        .with_bytes("http://ex.com/a.png", &[1]);
    let out = scrap_html(&mut f, "http://ex.com/", 5).unwrap();
    assert_eq!(out.content.matches("img/a.png").count(), 2);
}

#[test]
fn off_origin_font_in_stylesheet_is_not_fetched() {
    let base = String::from("http://ex.com/s.css");
    let css = "@font-face { src: url(http://other.com/f.woff); }";
    let mut f = MapFetcher::new()
        .with_text("http://ex.com/s.css", css)
        .with_bytes("http://other.com/f.woff", &[1]);
    let a = scrap_css(&mut f, base.as_str(), 1).unwrap();
    assert_eq!(a.fonts.len(), 0);
    assert_eq!(a.content, css);
    assert!(!f.log.iter().any(|u| u.contains("other.com")));
}

#[test]
fn origin_compares_host_only_not_scheme_or_port() {
    let page = r#"<html><body><img src="https://ex.com:8443/a.png"></body></html>"#;
    let mut f = MapFetcher::new()
        .with_text("http://ex.com/", page)
        .with_bytes("https://ex.com:8443/a.png", &[2]);
    let out = scrap_html(&mut f, "http://ex.com/", 5).unwrap();
    assert_eq!(out.images.len(), 1);
    assert_eq!(out.images[0].name, "a.png");
    assert!(out.content.contains("src=\"img/a.png\""));
}

#[test]
fn extract_page_on_given_text_records_admitted_anchors() {
    let base = UrlParts {
        url: "http://ex.com/".to_string(),
        host: Some("ex.com".to_string()),
        path: "/".to_string(),
    };
    let page = r##"<a href="/a/x.html">x</a><a href="#f">f</a><a href="https://other.com/y.html">y</a>"##;
    let mut f = MapFetcher::new();
    let out = extract_page(&mut f, &base, page, 1);
    assert_eq!(out.anchors.len(), 1);
    assert_eq!(out.anchors[0].0, "http://ex.com/a/x.html");
    assert_eq!(out.anchors[0].1, "x.html");
    assert!(out.content.contains("href=\"/x.html\""));
}

#[test]
fn process_stylesheet_on_given_text_rewrites_fonts() {
    let base = UrlParts {
        url: "http://ex.com/s.css".to_string(),
        host: Some("ex.com".to_string()),
        path: "/s.css".to_string(),
    };
    let mut f = MapFetcher::new().with_bytes("http://ex.com/w.woff", &[5, 6]);
    let css = "@font-face { src: url('w.woff'); }";
    let node = process_stylesheet(&mut f, &base, css, 0).unwrap();
    assert_eq!(node.name, "s.css");
    assert_eq!(node.fonts.len(), 1);
    assert_eq!(node.fonts[0].name, "w.woff");
    assert_eq!(node.fonts[0].content, vec![5, 6]);
    assert_eq!(node.content, "@font-face { src: url('../font/w.woff'); }");
    assert!(node.imported_stylesheets.is_empty());
}

#[test]
fn only_first_icon_element_is_considered() {
    // the first link[rel=icon] carrying an href is the only candidate: when
    // its fetch fails, a second element is not tried, nor the fallbacks
    let page = r#"<html><head><link rel="icon" href="/one.png"><link rel="icon" href="/two.png"></head></html>"#;
    let mut f = MapFetcher::new()
        .with_text("http://ex.com/", page)
        .with_bytes("http://ex.com/two.png", &[2]);
    let out = scrap_html(&mut f, "http://ex.com/", 5).unwrap();
    assert!(out.icon.is_none());
    assert!(!f.log.iter().any(|u| u.ends_with("two.png")));
    assert!(!f.log.iter().any(|u| u.ends_with("favicon.ico")));
}
