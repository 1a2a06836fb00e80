use mars::driver::{choose_mode, render_document, render_markdown, Buffer, Mode};
use mars::error::ConvertError;
use mars::front_matter::parse_document;
use mars::logger::{init, LogLevel};
use mars::metadata::RenderOptions;

#[test]
fn test_choose_mode() {
    assert_eq!(choose_mode(1, true, true), Ok(Mode::DirectoryTree));
    assert_eq!(choose_mode(1, false, true), Ok(Mode::FlattenList));
    assert_eq!(choose_mode(3, false, true), Ok(Mode::FlattenList));
    assert_eq!(choose_mode(1, false, false), Ok(Mode::SingleDocument));
    let err = choose_mode(2, false, false).unwrap_err();
    match err {
        ConvertError::Usage(m) => {
            assert_eq!(
                m,
                "cannot write multiple files into one; use the --out-dir option instead"
            );
        }
        _ => panic!("expected a usage error"),
    }
}

#[test]
fn test_render_markdown_breaks() {
    let soft = render_markdown("a\nb", false);
    let hard = render_markdown("a\nb", true);
    assert!(hard.contains("<br"));
    assert!(!soft.contains("<br"));
    assert!(soft.contains("<p>"));
}

#[test]
fn test_render_document_shape() {
    let (mut md, body) = parse_document("---\ntitle: T\nlang: en\ncss:\n- a.css\n---\nHello");
    let opts = RenderOptions::new();
    md.merge(&opts);
    let html_body = render_markdown(&body, false);
    let page = render_document(&md, html_body.trim());
    assert!(page.starts_with("<!DOCTYPE html>\n<html lang=\"en\">\n<head>\n"));
    assert!(page.contains("<meta charset=\"utf-8\">\n"));
    assert!(page.contains("<title>T</title>\n"));
    assert!(page.contains("<link rel=\"stylesheet\" href=\"a.css\">\n"));
    assert!(page.contains("<body>\n<p>Hello</p>\n</body>\n</html>\n"));
}

#[test]
fn test_buffer_render_pipeline() {
    let mut buf = Buffer::new();
    buf.buf = "---\ntitle: Page\nhard_breaks: true\n---\nline one\nline two".to_string();
    let opts = RenderOptions::new();
    buf.render(&opts);
    assert!(buf.rendered.contains("<title>Page</title>"));
    assert!(buf.rendered.contains("<br"));
    // The input buffer is untouched, so it can be reused.
    assert!(buf.buf.starts_with("---"));
}

#[test]
fn test_buffer_render_in_tree_rewrites_nothing_outside_root() {
    let mut buf = Buffer::new();
    buf.buf = "[x](no-such-target.md) and [y](https://example.com/a.md)".to_string();
    let opts = RenderOptions::new();
    buf.render_in_tree(
        &opts,
        "/tmp/a.md",
        "/tmp",
        true,
        mars::policy::CaseFolding::Sensitive,
    );
    // Neither link target resolves to a regular file inside the root, so
    // both pass through unchanged.
    assert!(buf.rendered.contains("href=\"no-such-target.md\""));
    assert!(buf.rendered.contains("href=\"https://example.com/a.md\""));
}

#[test]
fn test_logger_routing() {
    let logger = init(LogLevel::Warn);
    assert!(logger.enabled(LogLevel::Error));
    assert!(logger.enabled(LogLevel::Warn));
    assert!(!logger.enabled(LogLevel::Info));
    let (to_stderr, line) = logger.format_line(LogLevel::Error, "boom").unwrap();
    assert!(to_stderr);
    assert_eq!(line, "error: boom");
    let (to_stderr, line) = logger.format_line(LogLevel::Warn, "careful").unwrap();
    assert!(to_stderr);
    assert_eq!(line, "warning: careful");
    assert!(logger.format_line(LogLevel::Info, "quiet").is_none());
    let verbose = init(LogLevel::Info);
    let (to_stderr, line) = verbose.format_line(LogLevel::Info, "written x").unwrap();
    assert!(!to_stderr);
    assert_eq!(line, "written x");
}

#[test]
fn test_config_args() {
    let text = "  --lang\n en \n\n# a comment\n--css\nx.css\n";
    let args = mars::args::config_args(text);
    assert_eq!(
        args,
        vec![
            "--lang".to_string(),
            "en".to_string(),
            "--css".to_string(),
            "x.css".to_string(),
        ]
    );
    assert!(mars::args::config_args("").is_empty());
    assert_eq!(mars::args::config_arg("# nope"), None);
    assert_eq!(mars::args::config_arg("  keep "), Some("keep"));
}
