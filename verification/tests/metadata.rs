use mars::front_matter::parse_document;
use mars::metadata::{normalize_css_url, sakura_css_url, Metadata, RenderOptions};
use mars::serialize::to_front_matter;

fn options() -> RenderOptions {
    RenderOptions::new()
}

#[test]
fn test_front_matter_parse_basic() {
    let source = "---\ntitle: Hello\nlang: en\nhard_breaks: true\ncss:\n- a.css\n- b.css\n---\n\nBody text.";
    let (md, body) = parse_document(source);
    assert_eq!(md.title, Some("Hello".to_string()));
    assert_eq!(md.lang, Some("en".to_string()));
    assert_eq!(md.hard_breaks, Some(true));
    assert_eq!(md.css_list(), vec!["a.css".to_string(), "b.css".to_string()]);
    assert_eq!(body, "Body text.");
}

#[test]
fn test_front_matter_absent() {
    let (md, body) = parse_document("  \n\nJust text, no block.\n");
    assert_eq!(md.title, None);
    assert_eq!(md.lang, None);
    assert_eq!(md.hard_breaks, None);
    assert!(md.css_list().is_empty());
    assert_eq!(body, "Just text, no block.");
}

#[test]
fn test_front_matter_fail_open() {
    // A malformed block is treated as absent: the whole trimmed text is the
    // body.
    let source = "---\ntitle: A\ntitle: B\n---\nBody";
    let (md, body) = parse_document(source);
    assert_eq!(md.title, None);
    assert_eq!(body, source);
    // A list item with no open list is malformed too.
    let source2 = "---\n- stray\n---\nBody";
    let (md2, body2) = parse_document(source2);
    assert_eq!(md2.title, None);
    assert_eq!(body2, source2);
}

#[test]
fn test_front_matter_parse_is_idempotent() {
    // Re-parsing a body that has no front matter yields itself unchanged.
    let source = "---\ntitle: T\n---\nThe body.";
    let (_, body) = parse_document(source);
    let (md2, body2) = parse_document(&body);
    assert_eq!(md2.title, None);
    assert_eq!(body2, body);
}

#[test]
fn test_front_matter_quotes_and_unknown_keys() {
    let source = "---\ntitle: \"Quoted Title\"\nauthor: somebody\nhead: '<meta x>'\n---\nB";
    let (md, body) = parse_document(source);
    assert_eq!(md.title, Some("Quoted Title".to_string()));
    assert_eq!(md.head, "<meta x>");
    assert_eq!(body, "B");
}

#[test]
fn test_front_matter_round_trip() {
    let mut md = Metadata::new();
    md.title = Some("A Title".to_string());
    md.lang = Some("de".to_string());
    md.head = "<meta name=\"x\" content=\"y\">".to_string();
    md.hard_breaks = Some(false);
    let mut opts = options();
    opts.css = vec!["one.css".to_string(), "two.css".to_string()];
    opts.script = vec!["s.js".to_string()];
    md.merge(&opts);
    let text = to_front_matter(&md);
    let (back, body) = parse_document(&text);
    assert_eq!(body, "");
    assert_eq!(back.title, md.title);
    assert_eq!(back.lang, md.lang);
    assert_eq!(back.head, md.head);
    assert_eq!(back.hard_breaks, md.hard_breaks);
    assert_eq!(back.css_list(), md.css_list());
    assert_eq!(back.script_list(), md.script_list());
}

#[test]
fn test_front_matter_round_trip_empty() {
    let md = Metadata::new();
    let text = to_front_matter(&md);
    assert_eq!(text, "---\n---");
    let (back, body) = parse_document(&text);
    assert_eq!(body, "");
    assert_eq!(back.title, None);
    assert_eq!(back.lang, None);
    assert_eq!(back.head, "");
    assert_eq!(back.hard_breaks, None);
    assert!(back.css_list().is_empty());
    assert!(back.script_list().is_empty());
}

#[test]
fn test_css_merge_ordering() {
    // With normalize and sakura both enabled, one document stylesheet and
    // one global stylesheet, the merged order is exactly: normalize,
    // document, global, sakura.
    let source = "---\ncss:\n- doc.css\n---\nBody";
    let (mut md, _) = parse_document(source);
    let mut opts = options();
    opts.normalize_css = true;
    opts.sakura_css = true;
    opts.css = vec!["global.css".to_string()];
    md.merge(&opts);
    assert_eq!(
        md.css_list(),
        vec![
            normalize_css_url().to_string(),
            "doc.css".to_string(),
            "global.css".to_string(),
            sakura_css_url().to_string(),
        ]
    );
}

#[test]
fn test_merge_fallbacks_and_duplicates() {
    let source = "---\nlang: fr\ncss:\n- a.css\n---\nBody";
    let (mut md, _) = parse_document(source);
    let mut opts = options();
    opts.lang = Some("en".to_string());
    opts.head = "<meta>".to_string();
    opts.css = vec!["a.css".to_string(), "b.css".to_string()];
    opts.hard_breaks = true;
    md.merge(&opts);
    // The document language wins; the head falls back; duplicate URLs are
    // no-ops that keep the first position.
    assert_eq!(md.lang, Some("fr".to_string()));
    assert_eq!(md.head, "<meta>");
    assert_eq!(md.css_list(), vec!["a.css".to_string(), "b.css".to_string()]);
    assert_eq!(md.hard_breaks, Some(true));
}

#[test]
fn test_normalize_relocated_to_front() {
    // A document that already lists the normalize stylesheet sees it moved
    // to the front, not duplicated.
    let source = format!(
        "---\ncss:\n- first.css\n- {}\n---\nBody",
        normalize_css_url()
    );
    let (mut md, _) = parse_document(&source);
    let mut opts = options();
    opts.normalize_css = true;
    md.merge(&opts);
    assert_eq!(
        md.css_list(),
        vec![normalize_css_url().to_string(), "first.css".to_string()]
    );
}
