use html_template_scraper::stylesheet::scraped_css_tree_to_vec;
use html_template_scraper::types::{ScrapedCss, ScrapedFileRaw};
use html_template_scraper::urls::{classify, extension, local_name, ResourceKind};

fn leaf(name: &str, content: &str) -> ScrapedCss {
    ScrapedCss {
        name: name.to_string(),
        content: content.to_string(),
        fonts: Vec::new(),
        imported_stylesheets: Vec::new(),
    }
}

#[test]
fn classification_table_images() {
    for ext in ["png", "jpg", "jpeg", "webp", "gif", "svg"] {
        assert_eq!(classify(ext), ResourceKind::Image);
    }
}

#[test]
fn classification_table_fonts() {
    for ext in ["ttf", "eot", "woff", "woff2"] {
        assert_eq!(classify(ext), ResourceKind::Font);
    }
}

#[test]
fn classification_table_other() {
    for ext in ["html", "js", "css", "PNG", "Png", "woff3", ""] {
        assert_eq!(classify(ext), ResourceKind::Other);
    }
}

#[test]
fn classification_is_case_sensitive() {
    let upper = extension("a.PNG").unwrap();
    let lower = extension("a.png").unwrap();
    assert_eq!(upper, "PNG");
    assert_eq!(lower, "png");
    assert_eq!(classify(&upper), ResourceKind::Other);
    assert_eq!(classify(&lower), ResourceKind::Image);
}

#[test]
fn extension_is_last_dot_segment() {
    assert_eq!(extension("archive.tar.gz").unwrap(), "gz");
    assert_eq!(extension("name").unwrap(), "name");
    assert_eq!(extension("name.").unwrap(), "");
}

#[test]
fn local_name_is_last_segment() {
    assert_eq!(local_name("http://ex.com/a/b/logo.png").unwrap(), "logo.png");
    assert_eq!(local_name("plain").unwrap(), "plain");
    assert!(local_name("http://ex.com/a/b/").is_none());
}

#[test]
fn flatten_is_preorder() {
    // root -> [A, B], A -> [C] flattens to [root, A, C, B]
    let c = leaf("c.css", "c");
    let a = ScrapedCss {
        name: "a.css".to_string(),
        content: "a".to_string(),
        fonts: Vec::new(),
        imported_stylesheets: vec![c],
    };
    let b = leaf("b.css", "b");
    let root = ScrapedCss {
        name: "root.css".to_string(),
        content: "r".to_string(),
        fonts: Vec::new(),
        imported_stylesheets: vec![a, b],
    };
    let flat = scraped_css_tree_to_vec(root);
    let names: Vec<&str> = flat.iter().map(|n| n.name.as_str()).collect();
    assert_eq!(names, ["root.css", "a.css", "c.css", "b.css"]);
}

#[test]
fn flatten_keeps_fonts_per_node() {
    let child = ScrapedCss {
        name: "child.css".to_string(),
        content: "x".to_string(),
        fonts: vec![ScrapedFileRaw { name: "f.woff".to_string(), content: vec![7u8] }],
        imported_stylesheets: Vec::new(),
    };
    let root = ScrapedCss {
        name: "root.css".to_string(),
        content: "r".to_string(),
        fonts: vec![ScrapedFileRaw { name: "g.ttf".to_string(), content: vec![9u8] }],
        imported_stylesheets: vec![child],
    };
    let flat = scraped_css_tree_to_vec(root);
    assert_eq!(flat.len(), 2);
    assert_eq!(flat[0].fonts.len(), 1);
    assert_eq!(flat[0].fonts[0].name, "g.ttf");
    assert_eq!(flat[1].fonts.len(), 1);
    assert_eq!(flat[1].fonts[0].name, "f.woff");
}
