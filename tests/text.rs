use runrunrun::error::RrrError;
use runrunrun::rule_set::{fill_captures, fill_input};
use runrunrun::text::{contains, push_decimal, quote, replace, split_chars, unquote};

fn chars(s: &str) -> Vec<char> {
    s.chars().collect()
}

#[test]
fn replace_is_left_to_right_without_overlap() {
    let r = replace(&chars("aaa-aa"), &chars("aa"), &chars("b"));
    assert_eq!(r.iter().collect::<String>(), "ba-b");
    let r = replace(&chars("xyz"), &chars("q"), &chars("b"));
    assert_eq!(r.iter().collect::<String>(), "xyz");
}

#[test]
fn contains_finds_pattern() {
    assert!(contains(&chars("run %s now"), &chars("%s")));
    assert!(!contains(&chars("run %"), &chars("%s")));
    assert!(contains(&chars(""), &chars("")));
}

#[test]
fn decimal_rendering() {
    let mut out = vec!['%'];
    push_decimal(&mut out, 120);
    assert_eq!(out.iter().collect::<String>(), "%120");
    let mut zero = Vec::new();
    push_decimal(&mut zero, 0);
    assert_eq!(zero, vec!['0']);
}

#[test]
fn split_keeps_empty_fields() {
    let f = split_chars(&chars("a;;b;"), ';');
    let f: Vec<String> = f.iter().map(|v| v.iter().collect()).collect();
    assert_eq!(f, vec!["a", "", "b", ""]);
}

#[test]
fn quote_for_shell() {
    assert_eq!(quote("plain-word").unwrap(), "plain-word");
    assert_eq!(quote("a b").unwrap(), "'a b'");
    assert_eq!(quote("").unwrap(), "''");
    assert!(matches!(quote("a\0b"), Err(RrrError::UnquotableText)));
}

#[test]
fn unquote_single_word() {
    assert_eq!(unquote("\"hello world\"").unwrap(), "hello world");
    assert!(matches!(unquote("two words"), Err(RrrError::InvalidQuotedString(_))));
    assert!(matches!(unquote("\"open"), Err(RrrError::InvalidQuotedString(_))));
}

#[test]
fn fill_captures_in_order() {
    let caps = vec!["'a b'".to_string(), "c".to_string()];
    assert_eq!(fill_captures("x %2 %1 %3", &caps), "x c 'a b' %3");
    let many: Vec<String> = (1..=10).map(|i| format!("v{}", i)).collect();
    assert_eq!(fill_captures("%10", &many), "v10");
}

#[test]
fn fill_input_appends_when_absent() {
    assert_eq!(fill_input("open", "'a b'"), "open 'a b'");
    assert_eq!(fill_input("cp %s %s.bak", "f"), "cp f f.bak");
}
