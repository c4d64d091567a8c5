use py_interop::text::{contains_text, has_prefix, list_has, same_text};

#[test]
fn prefixes() {
    assert!(has_prefix("mailto:x", "mailto:"));
    assert!(has_prefix("abc", ""));
    assert!(!has_prefix("ab", "abc"));
    assert!(!has_prefix("xbc", "abc"));
    assert!(has_prefix("héllo", "hé"));
}

#[test]
fn equal_texts() {
    assert!(same_text("", ""));
    assert!(same_text("abc", "abc"));
    assert!(!same_text("abc", "abd"));
    assert!(!same_text("abc", "ab"));
}

#[test]
fn runs_inside_texts() {
    assert!(contains_text("text/html; charset=utf-8", "text/html"));
    assert!(contains_text("application/xhtml+xml, text/html", "text/html"));
    assert!(contains_text("anything", ""));
    assert!(!contains_text("text/htm", "text/html"));
    assert!(!contains_text("", "x"));
}

#[test]
fn membership_in_lists() {
    let list = vec!["a".to_string(), "bc".to_string()];
    assert!(list_has(&list, "bc"));
    assert!(!list_has(&list, "b"));
    assert!(!list_has(&Vec::new(), ""));
}
