use blog_core::text::{contains_substr, parse_i64, parse_u128, str_eq, u128_to_dec};

#[test]
fn str_eq_compares_by_characters() {
    assert!(str_eq("", ""));
    assert!(str_eq("abc", "abc"));
    assert!(!str_eq("abc", "abd"));
    assert!(!str_eq("abc", "abcd"));
    assert!(str_eq("héllo", "héllo"));
}

#[test]
fn substring_search_finds_infixes() {
    assert!(contains_substr("rust,systems", "rust"));
    assert!(contains_substr("rust,systems", "systems"));
    assert!(contains_substr("rust,systems", ","));
    assert!(contains_substr("rust,systems", ""));
    assert!(!contains_substr("rust,systems", "python"));
    assert!(!contains_substr("", "x"));
    assert!(contains_substr("", ""));
    assert!(contains_substr("aaab", "aab"));
}

#[test]
fn parse_u128_reads_decimal() {
    assert_eq!(parse_u128("0"), Some(0));
    assert_eq!(parse_u128("123"), Some(123));
    assert_eq!(parse_u128("+5"), Some(5));
    assert_eq!(
        parse_u128("340282366920938463463374607431768211455"),
        Some(u128::MAX)
    );
    assert_eq!(parse_u128("340282366920938463463374607431768211456"), None);
    assert_eq!(parse_u128(""), None);
    assert_eq!(parse_u128("+"), None);
    assert_eq!(parse_u128("-1"), None);
    assert_eq!(parse_u128("12a"), None);
    assert_eq!(parse_u128(" 12"), None);
}

#[test]
fn parse_u128_agrees_with_std() {
    for s in ["0", "99", "+7", "x", "", "18446744073709551616"] {
        assert_eq!(parse_u128(s), s.parse::<u128>().ok(), "input {:?}", s);
    }
}

#[test]
fn parse_i64_reads_signed_decimal() {
    assert_eq!(parse_i64("0"), Some(0));
    assert_eq!(parse_i64("-5"), Some(-5));
    assert_eq!(parse_i64("+5"), Some(5));
    assert_eq!(parse_i64("9223372036854775807"), Some(i64::MAX));
    assert_eq!(parse_i64("-9223372036854775808"), Some(i64::MIN));
    assert_eq!(parse_i64("9223372036854775808"), None);
    assert_eq!(parse_i64("-9223372036854775809"), None);
    assert_eq!(parse_i64("-"), None);
    assert_eq!(parse_i64("1.5"), None);
}

#[test]
fn parse_i64_agrees_with_std() {
    for s in ["42", "-42", "+0", "--1", "abc", ""] {
        assert_eq!(parse_i64(s), s.parse::<i64>().ok(), "input {:?}", s);
    }
}

#[test]
fn decimal_rendering_round_trips() {
    for n in [0u128, 1, 9, 10, 12345, u64::MAX as u128, u128::MAX] {
        let s = u128_to_dec(n);
        assert_eq!(s, n.to_string());
        assert_eq!(parse_u128(&s), Some(n));
    }
}
