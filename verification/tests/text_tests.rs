use open_feature_flagd::text::{ends_with, i32_text, parse_i32, parse_unsigned, split_once, starts_with, trim_start_char, u64_text};

#[test]
fn prefixes_and_suffixes() {
    assert!(starts_with("hello", "he"));
    assert!(starts_with("hello", ""));
    assert!(!starts_with("he", "hello"));
    assert!(ends_with("hello", "llo"));
    assert!(!ends_with("hello", "hel"));
}

#[test]
fn splitting_and_trimming() {
    assert_eq!(split_once("a:b:c", ':'), Some(("a".to_string(), "b:c".to_string())));
    assert_eq!(split_once("abc", ':'), None);
    assert_eq!(trim_start_char("//x/y", '/'), "x/y");
    assert_eq!(trim_start_char("", '/'), "");
}

#[test]
fn decimal_numbers() {
    assert_eq!(parse_unsigned("+42", u64::MAX), Some(42));
    assert_eq!(parse_unsigned("65536", 65535), None);
    assert_eq!(parse_unsigned("-1", 100), None);
    assert_eq!(parse_unsigned("", 100), None);
    assert_eq!(parse_unsigned("18446744073709551615", u64::MAX), Some(u64::MAX));
    assert_eq!(parse_unsigned("18446744073709551616", u64::MAX), None);
    assert_eq!(parse_i32("-2147483648"), Some(i32::MIN));
    assert_eq!(parse_i32("2147483648"), None);
    assert_eq!(parse_i32("-"), None);
    assert_eq!(parse_i32("+7"), Some(7));
    assert_eq!(u64_text(0), "0");
    assert_eq!(u64_text(9211), "9211");
    assert_eq!(i32_text(-5), "-5");
    assert_eq!(i32_text(i32::MIN), "-2147483648");
}
