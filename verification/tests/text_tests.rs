use gateway_core::text::{
    chars_of, str_concat, decimal, ends_with, eq_ignore_ascii_case, parse_bool, parse_u16, parse_u64,
    starts_with, str_eq,
};

#[test]
fn parse_u64_reads_plain_and_plus_signed_digits() {
    assert_eq!(parse_u64("123"), Some(123));
    assert_eq!(parse_u64("+5"), Some(5));
    assert_eq!(parse_u64("007"), Some(7));
    assert_eq!(parse_u64("18446744073709551615"), Some(u64::MAX));
}

#[test]
fn parse_u64_rejects_what_str_parse_rejects() {
    assert_eq!(parse_u64(""), None);
    assert_eq!(parse_u64("+"), None);
    assert_eq!(parse_u64("-1"), None);
    assert_eq!(parse_u64("12a"), None);
    assert_eq!(parse_u64(" 1"), None);
    assert_eq!(parse_u64("18446744073709551616"), None);
    for s in ["", "+", "-1", "12a", "99999999999999999999", "+0", "0"] {
        assert_eq!(parse_u64(s), s.parse::<u64>().ok(), "{}", s);
    }
}

#[test]
fn parse_u16_bounds() {
    assert_eq!(parse_u16("65535"), Some(65535));
    assert_eq!(parse_u16("65536"), None);
    assert_eq!(parse_u16("0"), Some(0));
}

#[test]
fn parse_bool_exact_words() {
    assert_eq!(parse_bool("true"), Some(true));
    assert_eq!(parse_bool("false"), Some(false));
    assert_eq!(parse_bool("True"), None);
    assert_eq!(parse_bool("nil"), None);
}

#[test]
fn decimal_renders_like_to_string() {
    assert_eq!(decimal(0), "0");
    assert_eq!(decimal(9), "9");
    assert_eq!(decimal(10), "10");
    assert_eq!(decimal(1234567890), "1234567890");
    assert_eq!(decimal(u64::MAX), u64::MAX.to_string());
}

#[test]
fn decimal_reads_back_through_parse() {
    for n in [0u64, 1, 42, 4096, 126462, u64::MAX] {
        assert_eq!(parse_u64(&decimal(n)), Some(n));
    }
}

#[test]
fn concat_and_chars() {
    assert_eq!(str_concat("ab", "cd"), "abcd");
    assert_eq!(chars_of("h\u{e9}!"), vec!['h', '\u{e9}', '!']);
}

#[test]
fn starts_and_ends_with() {
    assert!(starts_with("a_hash", "a_"));
    assert!(!starts_with("hash", "a_"));
    assert!(!starts_with("a", "a_"));
    assert!(ends_with("clip.mp4", ".mp4"));
    assert!(!ends_with("clip.mp4", ".mov"));
    assert!(!ends_with("4", ".mp4"));
}

#[test]
fn ignore_ascii_case_only_folds_ascii() {
    assert!(eq_ignore_ascii_case("HeLLo", "hello"));
    assert!(!eq_ignore_ascii_case("h\u{e9}llo", "H\u{c9}LLO"));
    assert!(!eq_ignore_ascii_case("abc", "abcd"));
    assert!(str_eq("same", "same"));
    assert!(!str_eq("same", "Same"));
}
