use fontsource_downloader::text::{
    decimal_string, join_strings, parse_u64, str_eq_ignore_ascii_case, str_has_prefix,
    to_forward_slashes, trim_str,
};

#[test]
fn trimming() {
    assert_eq!(trim_str("  a b \t\n"), "a b");
    assert_eq!(trim_str("\u{2003}x\u{85}"), "x");
    assert_eq!(trim_str("   "), "");
    assert_eq!(trim_str(""), "");
    let s = " \u{a0}mixed\u{200b} ";
    assert_eq!(trim_str(s), s.trim());
}

#[test]
fn decimal_formatting_and_parsing() {
    for n in [0u64, 7, 10, 400, 65535, u64::MAX] {
        assert_eq!(decimal_string(n), n.to_string());
        assert_eq!(parse_u64(&n.to_string()), Some(n));
    }
    assert_eq!(parse_u64("+12"), Some(12));
    assert_eq!(parse_u64("007"), Some(7));
    assert_eq!(parse_u64("+"), None);
    assert_eq!(parse_u64(""), None);
    assert_eq!(parse_u64("1a"), None);
    assert_eq!(parse_u64("99999999999999999999"), None);
}

#[test]
fn case_insensitive_comparison() {
    assert!(str_eq_ignore_ascii_case("ItAlIc", "italic"));
    assert!(!str_eq_ignore_ascii_case("italics", "italic"));
    assert!(!str_eq_ignore_ascii_case("ïtalic", "italic"));
}

#[test]
fn prefixes_joins_and_slashes() {
    assert!(str_has_prefix("max-age=5", "max-age="));
    assert!(!str_has_prefix("max", "max-age="));
    let parts = vec!["a".to_string(), "b".to_string(), "c".to_string()];
    assert_eq!(join_strings(&parts, ", "), "a, b, c");
    assert_eq!(join_strings(&[], ", "), "");
    assert_eq!(to_forward_slashes("a\\b\\\\c"), "a/b//c");
}
