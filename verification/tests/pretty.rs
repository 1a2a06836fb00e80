use mars::pretty::{error, FormatArg, FormatConfig, IndentStyle, LineEnding};

#[test]
fn test_parse_format_args() {
    assert_eq!(FormatArg::parse("indent=tabs"), Ok(FormatArg::Indent(IndentStyle::Tabs)));
    assert_eq!(FormatArg::parse("indent:tab"), Ok(FormatArg::Indent(IndentStyle::Tabs)));
    assert_eq!(FormatArg::parse("indent"), Ok(FormatArg::Indent(IndentStyle::Spaces(4))));
    assert_eq!(
        FormatArg::parse("indent=spaces"),
        Ok(FormatArg::Indent(IndentStyle::Spaces(4)))
    );
    assert_eq!(FormatArg::parse("indent=2"), Ok(FormatArg::Indent(IndentStyle::Spaces(2))));
    assert_eq!(FormatArg::parse("indent=+2"), Ok(FormatArg::Indent(IndentStyle::Spaces(2))));
    assert_eq!(FormatArg::parse(" INDENT = 3 "), Ok(FormatArg::Indent(IndentStyle::Spaces(3))));
    assert_eq!(FormatArg::parse("wrap=100"), Ok(FormatArg::Wrap(100)));
    assert_eq!(FormatArg::parse("wrap=0"), Ok(FormatArg::Wrap(0)));
    assert_eq!(FormatArg::parse("eol=crlf"), Ok(FormatArg::Eol(LineEnding::CrLf)));
    assert_eq!(FormatArg::parse("newline:cr"), Ok(FormatArg::Eol(LineEnding::Cr)));
    assert_eq!(FormatArg::parse("join-classes"), Ok(FormatArg::JoinClasses(true)));
    assert_eq!(FormatArg::parse("join-classes=off"), Ok(FormatArg::JoinClasses(false)));
    assert_eq!(FormatArg::parse("merge-divs=1"), Ok(FormatArg::MergeDivs(true)));
    assert_eq!(FormatArg::parse("newline-after-br=YES"), Ok(FormatArg::NewlineAfterBr(true)));
    assert_eq!(FormatArg::parse("remove-comments=f"), Ok(FormatArg::RemoveComments(false)));
}

#[test]
fn test_parse_format_errors() {
    assert_eq!(
        FormatArg::parse("indent=x"),
        Err(error(
            "indent",
            "x",
            "value must be 'tabs', 'spaces' or a non-negative integer"
        ))
    );
    assert_eq!(
        FormatArg::parse("wrap=-1"),
        Err(error("wrap", "-1", "value must be a non-negative integer"))
    );
    assert_eq!(
        FormatArg::parse("wrap=99999999999999"),
        Err(error(
            "wrap",
            "99999999999999",
            "value must be a non-negative integer"
        ))
    );
    assert_eq!(
        FormatArg::parse("eol=mac"),
        Err(error("eol", "mac", "value must be one of 'lf', 'crlf' and 'cr'"))
    );
    assert_eq!(
        FormatArg::parse("merge-spans=perhaps"),
        Err(error("merge-spans", "perhaps", "value must be boolean"))
    );
    assert_eq!(
        FormatArg::parse("no-such-option=1"),
        Err("unknown format option `no-such-option`".to_string())
    );
    // The unknown-option message quotes the original spelling.
    assert_eq!(
        FormatArg::parse("Banana"),
        Err("unknown format option `Banana`".to_string())
    );
}

#[test]
fn test_error_message_shape() {
    assert_eq!(
        error("wrap", "x", "value must be a non-negative integer"),
        "invalid value 'x' for `wrap`: value must be a non-negative integer"
    );
}

#[test]
fn test_apply_format_args() {
    let mut cfg = FormatConfig::new();
    assert_eq!(cfg.indent_size, 4);
    assert!(!cfg.tabs);
    assert_eq!(cfg.wrap, 80);
    assert!(cfg.join_styles);
    FormatArg::Indent(IndentStyle::Tabs).apply(&mut cfg);
    assert!(cfg.tabs);
    assert_eq!(cfg.indent_size, 8);
    FormatArg::Indent(IndentStyle::Spaces(2)).apply(&mut cfg);
    assert!(!cfg.tabs);
    assert_eq!(cfg.indent_size, 2);
    FormatArg::Wrap(120).apply(&mut cfg);
    assert_eq!(cfg.wrap, 120);
    FormatArg::Eol(LineEnding::CrLf).apply(&mut cfg);
    assert_eq!(cfg.eol, LineEnding::CrLf);
    FormatArg::JoinStyles(false).apply(&mut cfg);
    assert!(!cfg.join_styles);
    FormatArg::IndentAttributes(true).apply(&mut cfg);
    assert!(cfg.indent_attributes);
    FormatArg::IndentCdata(true).apply(&mut cfg);
    assert!(cfg.indent_cdata);
    FormatArg::RemoveComments(true).apply(&mut cfg);
    assert!(cfg.strip_comments);
    FormatArg::MergeDivs(true).apply(&mut cfg);
    assert!(cfg.merge_divs);
    FormatArg::MergeSpans(true).apply(&mut cfg);
    assert!(cfg.merge_spans);
    FormatArg::NewlineAfterBr(true).apply(&mut cfg);
    assert!(cfg.br_newline);
}
