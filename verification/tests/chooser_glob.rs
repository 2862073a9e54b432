use arca::lantern::glob::glob_match;

#[test]
fn glob_matching() {
    assert!(glob_match("*.png", "image.png"));
    assert!(glob_match("*.png", "IMAGE.PNG"));
    assert!(glob_match("*.jpg", "photo.JPG"));
    assert!(glob_match("*.tar.gz", "archive.tar.gz"));
    assert!(!glob_match("*.png", "photo.jpg"));
    assert!(glob_match("file-?.txt", "file-1.txt"));
    assert!(!glob_match("file-?.txt", "file-12.txt"));
    assert!(glob_match("[a-z]*.txt", "alpha.txt"));
    assert!(!glob_match("[!a-z]*.txt", "alpha.txt"));
}

#[test]
fn glob_unterminated_class_is_literal() {
    assert!(glob_match("[ab", "[ab"));
    assert!(!glob_match("[ab", "a"));
    assert!(glob_match("[]", "[]"));
}

use arca::lantern::chooser::{mime_matches, FileFilter, FilterRule, FilterRuleKind};

#[test]
fn mime_matching() {
    assert!(mime_matches("image/png", "pic.png"));
    assert!(mime_matches("image/*", "pic.png"));
    assert!(mime_matches("image/*", "pic.jpg"));
    assert!(!mime_matches("video/*", "pic.png"));
    assert!(mime_matches("text/plain", "notes.txt"));
    assert!(mime_matches("application/pdf", "doc.pdf"));
}

#[test]
fn filter_rule_allows() {
    let filter = FileFilter::new(
        "Images".to_string(),
        vec![
            FilterRule {
                kind: FilterRuleKind::Glob,
                value: "*.png".into(),
            },
            FilterRule {
                kind: FilterRuleKind::Mime,
                value: "image/jpeg".into(),
            },
        ],
    );
    assert!(filter.allows("photo.png", "/tmp/photo.png"));
    assert!(filter.allows("photo.jpg", "/tmp/photo.jpg"));
    assert!(!filter.allows("doc.pdf", "/tmp/doc.pdf"));
}

#[test]
fn filter_without_rules_allows_everything() {
    let filter = FileFilter::new("All".to_string(), Vec::new());
    assert!(filter.allows("anything.bin", "/tmp/anything.bin"));
}
