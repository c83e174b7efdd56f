use tred::runtime::{capture, choice_fail, fail_at, match_regex, match_str};

#[test]
fn runtime_match_str() {
    assert_eq!(match_str("hello", 0, "he").unwrap(), 2);
    let e = match_str("hello", 1, "he").unwrap_err();
    assert_eq!(e.at, 1);
    assert_eq!(e.msg.as_deref(), Some("String \"he\" did not match"));
    assert!(e.cause.is_empty());
    assert_eq!(match_str("héllo", 1, "é").unwrap(), 3);
}

#[test]
fn runtime_match_regex() {
    assert_eq!(match_regex("ab12cd", 2, "^[0-9]+").unwrap(), 4);
    let e = match_regex("ab12cd", 0, "^[0-9]+").unwrap_err();
    assert_eq!(e.at, 0);
    assert_eq!(e.msg.as_deref(), Some("Regex did not match"));
    assert_eq!(match_regex("  x", 0, "^\\s*").unwrap(), 2);
}

#[test]
fn runtime_capture_and_failures() {
    assert_eq!(capture("hello world", 6, 11), "world");
    let f = fail_at(7);
    assert_eq!(f.at, 7);
    assert!(f.msg.is_none());
    let c = choice_fail(2, vec![fail_at(2), fail_at(2)]);
    assert_eq!(c.at, 2);
    assert_eq!(c.cause.len(), 2);
}

#[test]
fn runtime_invalid_regex_does_not_match() {
    let e = match_regex("abc", 0, "(").unwrap_err();
    assert_eq!(e.at, 0);
    assert_eq!(e.msg.as_deref(), Some("Regex did not match"));
}
