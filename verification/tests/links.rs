use mars::links::decide_rewrite;
use mars::links::rewrite_link;
use mars::policy::CaseFolding;
use mars::{has_hidden, is_illegal_filepath, split_url};

#[test]
fn test_split_url() {
    let tests = [
        ("a/b", "a/b", ""),
        ("a/b#c", "a/b", "#c"),
        ("a/b?c", "a/b", "?c"),
        ("a/b?c#d", "a/b", "?c#d"),
        ("a/b#c?d", "a/b", "#c?d"),
        ("a/b?c/d", "a/b?c/d", ""),
        ("a/b#c#d/e#g", "a/b", "#c#d/e#g"),
        // Without separators
        ("a", "a", ""),
        ("a#b", "a", "#b"),
        ("a?b", "a", "?b"),
        ("a?b#c", "a", "?b#c"),
        ("a#b?c", "a", "#b?c"),
        ("a#b#c", "a", "#b#c"),
    ];

    for (s, a, b) in tests {
        let got = split_url(s);
        assert_eq!((a, b), got, "\ninput: {s}");
    }
}

#[test]
fn test_has_hidden() {
    let test_no = [
        "",
        ".",
        "..",
        "/",
        "a",
        "a/b",
        "./a",
        "./a/..",
        "../a",
        ".././a",
        "a.b/c..d/",
        "a/../b/./c",
        "./../..",
    ];

    let test_yes = [".a", "..a", "./.a", "../.a", "a.b/.c", "/.a"];

    for s in test_no {
        assert!(
            !has_hidden(s),
            "\nisn't hidden but found to be hidden:\ninput: {s}"
        );
    }
    for s in test_yes {
        assert!(
            has_hidden(s),
            "\nis hidden but found to be not:\ninput: {s}"
        );
    }
}

#[test]
fn test_illegal_filepath_chars() {
    assert!(is_illegal_filepath("a:b"));
    assert!(is_illegal_filepath("we?ird"));
    assert!(is_illegal_filepath("back\\slash"));
    assert!(is_illegal_filepath("bell\u{7}"));
    assert!(!is_illegal_filepath("plain/name.md"));
    assert!(!is_illegal_filepath(""));
}

#[test]
fn test_decide_rewrite_basics() {
    // A target found inside the root is rewritten, keeping the trailing part.
    assert_eq!(
        decide_rewrite("b.md", true, CaseFolding::Sensitive, true),
        Some("b.html".to_string())
    );
    assert_eq!(
        decide_rewrite("notes/b.md#top", true, CaseFolding::Sensitive, true),
        Some("notes/b.html#top".to_string())
    );
    assert_eq!(
        decide_rewrite("b.md?x=1", true, CaseFolding::Sensitive, true),
        Some("b.html?x=1".to_string())
    );
    // A target that was not found inside the root is never rewritten.
    assert_eq!(decide_rewrite("b.md", true, CaseFolding::Sensitive, false), None);
    // A destination that does not end in `.md` passes through.
    assert_eq!(decide_rewrite("b.html", true, CaseFolding::Sensitive, true), None);
    // A scheme-introducing colon blocks rewriting.
    assert_eq!(
        decide_rewrite("https://example.com/a.md", true, CaseFolding::Sensitive, true),
        None
    );
    // Hidden segments block rewriting while hidden entries are skipped.
    assert_eq!(decide_rewrite(".hidden/a.md", true, CaseFolding::Sensitive, true), None);
    assert_eq!(
        decide_rewrite(".hidden/a.md", false, CaseFolding::Sensitive, true),
        Some(".hidden/a.html".to_string())
    );
    // The aggressive filter also rejects reserved characters.
    assert_eq!(
        decide_rewrite("we|ird.md", true, CaseFolding::Insensitive, true),
        None
    );
    assert_eq!(decide_rewrite("we|ird.md", true, CaseFolding::Sensitive, true),
        Some("we|ird.html".to_string())
    );
}

#[test]
fn test_rewrite_is_idempotent() {
    // Feeding a rewritten destination back through the decision never
    // matches the `.md` rule again.
    let cases = ["b.md", "notes/b.md#top", "b.md?x=1", "a/b?c/d.md", "x.md?q#f"];
    for dest in cases {
        if let Some(once) = decide_rewrite(dest, true, CaseFolding::Sensitive, true) {
            assert_eq!(
                decide_rewrite(&once, true, CaseFolding::Sensitive, true),
                None,
                "\ninput: {dest}"
            );
        } else {
            panic!("expected a rewrite for {dest}");
        }
    }
}

#[test]
fn test_rewrite_link_never_escapes_root() {
    // The resolved target exists but lies outside the conversion root, so
    // the link passes through unchanged.
    let r = rewrite_link(
        "../../../../../../etc/passwd.md",
        "/tmp/a.md",
        "/tmp",
        true,
        CaseFolding::Sensitive,
    );
    assert_eq!(r, None);
    // A missing target inside the root also passes through.
    let r = rewrite_link(
        "no-such-file-here.md",
        "/tmp/a.md",
        "/tmp",
        true,
        CaseFolding::Sensitive,
    );
    assert_eq!(r, None);
}
