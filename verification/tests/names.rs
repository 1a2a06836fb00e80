use mars::error::ConvertError;
use mars::names::{FileName, OutputNameTable};
use mars::paths::{html_output_path, join_path, relative_to};
use mars::policy::CaseFolding;

#[test]
fn test_file_name_extraction() {
    let f = FileName::new("docs/guide/intro.md", CaseFolding::Sensitive).unwrap();
    assert_eq!(f.name().as_str(), "intro.md");
    let f = FileName::new("intro.md", CaseFolding::Sensitive).unwrap();
    assert_eq!(f.name().as_str(), "intro.md");
    let f = FileName::new("docs/trailing/", CaseFolding::Sensitive).unwrap();
    assert_eq!(f.name().as_str(), "trailing");
    assert!(FileName::new("", CaseFolding::Sensitive).is_err());
    assert!(FileName::new("/", CaseFolding::Sensitive).is_err());
    assert!(FileName::new("a/..", CaseFolding::Sensitive).is_err());
    assert!(FileName::new(".", CaseFolding::Sensitive).is_err());
}

#[test]
fn test_file_name_error_message() {
    let e = FileName::new("..", CaseFolding::Sensitive).unwrap_err();
    assert_eq!(e.message(), "failed to determine the file name for ..");
}

#[test]
fn test_file_name_keys() {
    let f = FileName::new("Read-Me.md", CaseFolding::Insensitive).unwrap();
    assert_eq!(f.key().as_str(), "READ-ME.MD");
    assert_eq!(f.name().as_str(), "Read-Me.md");
    let f = FileName::new("Read-Me.md", CaseFolding::Sensitive).unwrap();
    assert_eq!(f.key().as_str(), "Read-Me.md");
}

#[test]
fn test_duplicate_names_case_insensitive() {
    // Two distinct inputs whose names differ only by letter case collide on
    // a case-insensitive target.
    let mut table = OutputNameTable::new();
    let a = FileName::new("one/Readme.md", CaseFolding::Insensitive).unwrap();
    let b = FileName::new("two/README.md", CaseFolding::Insensitive).unwrap();
    assert!(table.claim(&a, &"/abs/one/Readme.md".to_string()).is_ok());
    let err = table.claim(&b, &"/abs/two/README.md".to_string()).unwrap_err();
    match err {
        ConvertError::DuplicateName(first, second) => {
            assert_eq!(first, "/abs/one/Readme.md");
            assert_eq!(second, "/abs/two/README.md");
        }
        _ => panic!("expected a duplicate-name error"),
    }
    assert_eq!(
        ConvertError::DuplicateName("/a".to_string(), "/b".to_string()).message(),
        "duplicate file names:\n- /a\n- /b"
    );
}

#[test]
fn test_duplicate_names_case_sensitive() {
    // The same two names succeed independently on a case-sensitive target.
    let mut table = OutputNameTable::new();
    let a = FileName::new("one/Readme.md", CaseFolding::Sensitive).unwrap();
    let b = FileName::new("two/README.md", CaseFolding::Sensitive).unwrap();
    assert!(table.claim(&a, &"/abs/one/Readme.md".to_string()).is_ok());
    assert!(table.claim(&b, &"/abs/two/README.md".to_string()).is_ok());
    assert_eq!(table.len(), 2);
}

#[test]
fn test_same_file_listed_twice_is_no_op() {
    let mut table = OutputNameTable::new();
    let a = FileName::new("one/a.md", CaseFolding::Sensitive).unwrap();
    assert!(table.claim(&a, &"/abs/one/a.md".to_string()).is_ok());
    assert!(table.claim(&a, &"/abs/one/a.md".to_string()).is_ok());
    assert_eq!(table.len(), 1);
}

#[test]
fn test_html_output_path() {
    assert_eq!(html_output_path("a.md"), "a.html");
    assert_eq!(html_output_path("docs/a.md"), "docs/a.html");
    assert_eq!(html_output_path("a"), "a.html");
    assert_eq!(html_output_path("archive.tar.gz"), "archive.tar.html");
    assert_eq!(html_output_path(".hidden"), ".hidden.html");
    assert_eq!(html_output_path("dir.v2/plain"), "dir.v2/plain.html");
}

#[test]
fn test_relative_and_join() {
    assert_eq!(relative_to("/root/docs/a.md", "/root"), Some("docs/a.md"));
    assert_eq!(relative_to("/root/a.md", "/other"), None);
    assert_eq!(relative_to("/root", "/root"), None);
    assert_eq!(join_path("/out", "docs/a.html"), "/out/docs/a.html");
    assert_eq!(join_path("/out/", "a.html"), "/out/a.html");
    assert_eq!(join_path("", "a.html"), "a.html");
}
