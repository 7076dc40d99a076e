use tasky::text::{chars_of, contains, decimal_string, join, same_text};

#[test]
fn decimal_numbers() {
    assert_eq!(decimal_string(0), "0");
    assert_eq!(decimal_string(7), "7");
    assert_eq!(decimal_string(10), "10");
    assert_eq!(decimal_string(1203), "1203");
    assert_eq!(decimal_string(u32::MAX), "4294967295");
}

#[test]
fn joining() {
    let parts = vec!["a".to_string(), "bc".to_string(), "".to_string(), "d".to_string()];
    assert_eq!(join(&parts, "/"), "a/bc//d");
    assert_eq!(join(&parts, ""), "abcd");
    assert_eq!(join(&parts, ", "), "a, bc, , d");
    assert_eq!(join(&vec!["only".to_string()], "/"), "only");
    assert_eq!(join(&Vec::new(), "/"), "");
}

#[test]
fn substring_search() {
    assert!(contains("写周报给老板", "周报"));
    assert!(contains("abc", ""));
    assert!(contains("", ""));
    assert!(contains("abc", "abc"));
    assert!(contains("abc", "c"));
    assert!(!contains("abc", "abcd"));
    assert!(!contains("abc", "ac"));
    assert!(!contains("", "a"));
}

#[test]
fn text_equality() {
    assert!(same_text("priority", "priority"));
    assert!(!same_text("priority", "Priority"));
    assert!(!same_text("a", "ab"));
    assert!(same_text("", ""));
}

#[test]
fn characters() {
    assert_eq!(chars_of("a买b"), vec!['a', '买', 'b']);
    assert!(chars_of("").is_empty());
}
