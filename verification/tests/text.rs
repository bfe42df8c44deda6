use imagekit::text::parse_i64;
use imagekit::text::dec_u64_string;
use imagekit::text::dec_i64_string;
use imagekit::text::ct_str_eq;
use imagekit::text::str_lex_le;
use imagekit::text::str_lex_lt;
use imagekit::text::is_blank;
use imagekit::crypto::hex_encode;

#[test]
fn test_parse_i64_values() {
    assert_eq!(parse_i64("0"), Some(0));
    assert_eq!(parse_i64("42"), Some(42));
    assert_eq!(parse_i64("+42"), Some(42));
    assert_eq!(parse_i64("-42"), Some(-42));
    assert_eq!(parse_i64("9223372036854775807"), Some(i64::MAX));
    assert_eq!(parse_i64("-9223372036854775808"), Some(i64::MIN));
    assert_eq!(parse_i64("9223372036854775808"), None);
    assert_eq!(parse_i64("-9223372036854775809"), None);
    assert_eq!(parse_i64(""), None);
    assert_eq!(parse_i64("-"), None);
    assert_eq!(parse_i64("+"), None);
    assert_eq!(parse_i64("12a"), None);
    assert_eq!(parse_i64(" 12"), None);
    assert_eq!(parse_i64("007"), Some(7));
}

#[test]
fn test_decimal_rendering() {
    assert_eq!(dec_u64_string(0), "0");
    assert_eq!(dec_u64_string(7), "7");
    assert_eq!(dec_u64_string(31536000), "31536000");
    assert_eq!(dec_u64_string(u64::MAX), "18446744073709551615");
    assert_eq!(dec_i64_string(-1), "-1");
    assert_eq!(dec_i64_string(i64::MIN), "-9223372036854775808");
    assert_eq!(dec_i64_string(1000000000), "1000000000");
}

#[test]
fn test_constant_time_equality() {
    assert!(ct_str_eq("abc", "abc"));
    assert!(!ct_str_eq("abc", "abd"));
    assert!(!ct_str_eq("abc", "abcd"));
    assert!(ct_str_eq("", ""));
}

#[test]
fn test_lexicographic_order() {
    assert!(str_lex_le("a", "b"));
    assert!(str_lex_le("a", "a"));
    assert!(!str_lex_le("b", "a"));
    assert!(str_lex_le("a", "ab"));
    assert!(str_lex_lt("abc", "abd"));
    assert!(!str_lex_lt("abc", "abc"));
    assert!(str_lex_le("h", "url"));
}

#[test]
fn test_blankness() {
    assert!(is_blank(""));
    assert!(is_blank("   \t\n"));
    assert!(!is_blank("  x "));
}

#[test]
fn test_hex_encoding() {
    assert_eq!(hex_encode(&[]), "");
    assert_eq!(hex_encode(&[0x00, 0xff, 0x10, 0xab]), "00ff10ab");
}
