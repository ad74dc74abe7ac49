use yfb::text::{bool_to_text, i64_to_text, parse_bool, parse_char, parse_i64, parse_u64, str_eq,
    u64_to_text};

#[test]
fn test_u64_text_exact() {
    assert_eq!(u64_to_text(0).as_str(), "0");
    assert_eq!(u64_to_text(42).as_str(), "42");
    assert_eq!(u64_to_text(18446744073709551615).as_str(), "18446744073709551615");
}

#[test]
fn test_parse_u64_bounds() {
    assert_eq!(parse_u64("0"), Some(0));
    assert_eq!(parse_u64("007"), Some(7));
    assert_eq!(parse_u64("18446744073709551615"), Some(u64::MAX));
    assert_eq!(parse_u64("18446744073709551616"), None);
    assert_eq!(parse_u64(""), None);
    assert_eq!(parse_u64("-1"), None);
    assert_eq!(parse_u64("1x"), None);
    assert_eq!(parse_u64(" 1"), None);
}

#[test]
fn test_i64_text_exact() {
    assert_eq!(i64_to_text(0).as_str(), "0");
    assert_eq!(i64_to_text(-1).as_str(), "-1");
    assert_eq!(i64_to_text(i64::MIN).as_str(), "-9223372036854775808");
    assert_eq!(i64_to_text(i64::MAX).as_str(), "9223372036854775807");
}

#[test]
fn test_parse_i64_bounds() {
    assert_eq!(parse_i64("-9223372036854775808"), Some(i64::MIN));
    assert_eq!(parse_i64("9223372036854775807"), Some(i64::MAX));
    assert_eq!(parse_i64("-9223372036854775809"), None);
    assert_eq!(parse_i64("9223372036854775808"), None);
    assert_eq!(parse_i64("-"), None);
    assert_eq!(parse_i64("--1"), None);
    assert_eq!(parse_i64("12"), Some(12));
}

#[test]
fn test_bool_text() {
    assert_eq!(bool_to_text(true).as_str(), "true");
    assert_eq!(bool_to_text(false).as_str(), "false");
    assert_eq!(parse_bool("true"), Some(true));
    assert_eq!(parse_bool("false"), Some(false));
    assert_eq!(parse_bool("True"), None);
    assert_eq!(parse_bool(""), None);
}

#[test]
fn test_parse_char_single() {
    assert_eq!(parse_char("a"), Some('a'));
    assert_eq!(parse_char("ab"), None);
    assert_eq!(parse_char(""), None);
    assert_eq!(parse_char("é"), Some('é'));
}

#[test]
fn test_str_eq_unicode() {
    assert!(str_eq("héllo", "héllo"));
    assert!(!str_eq("héllo", "hello"));
    assert!(str_eq("", ""));
    assert!(!str_eq("a", ""));
}
