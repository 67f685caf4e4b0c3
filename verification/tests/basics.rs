use iedb::decimal::{format_i64, format_padded, format_u64, parse_i64, parse_u32, parse_u64};
use iedb::http::{content_length, parse_query};
use iedb::text;
use iedb::time::{formatted_or_number, iso_or_number, ms_to_iso, ms_to_iso8601};

fn names(list: &[&str]) -> Vec<String> {
    list.iter().map(|n| n.to_string()).collect()
}

#[test]
fn numerals() {
    assert_eq!(format_u64(0), "0");
    assert_eq!(format_u64(u64::MAX), "18446744073709551615");
    assert_eq!(format_i64(i64::MIN), "-9223372036854775808");
    assert_eq!(format_padded(42), "00000000000000000042");
    assert_eq!(parse_u64("+7"), Some(7));
    assert_eq!(parse_u64("18446744073709551616"), None);
    assert_eq!(parse_u64(""), None);
    assert_eq!(parse_u64("+"), None);
    assert_eq!(parse_u32("4294967296"), None);
    assert_eq!(parse_i64("-9223372036854775808"), Some(i64::MIN));
    assert_eq!(parse_i64("9223372036854775808"), None);
    assert_eq!(parse_i64("--1"), None);
    for n in [i64::MIN, -10, -1, 0, 9, 10, i64::MAX] {
        assert_eq!(parse_i64(&format_i64(n)), Some(n));
        assert_eq!(format_i64(n), n.to_string());
    }
}

#[test]
fn texts() {
    assert_eq!(text::trim(" \t a b \u{3000}\n"), "a b");
    assert_eq!(text::trim_end_matches("a//", '/'), "a");
    assert_eq!(text::trim_start_matches("//a/", '/'), "a/");
    assert_eq!(text::split_whitespace("  a \t b\n"), names(&["a", "b"]));
    assert_eq!(text::split("a,,b", ','), names(&["a", "", "b"]));
    assert!(text::contains("abcabd", "abd"));
    assert!(!text::contains("abc", "abcd"));
    assert!(text::contains("abc", ""));
    assert_eq!(text::strip_suffix("a.wal", ".wal").as_deref(), Some("a"));
    assert!(text::starts_with("abc", "ab"));
    assert_eq!(text::join_path("/data", "wal"), "/data/wal");
    assert_eq!(text::join_path("/data", "/abs"), "/abs");
    assert_eq!(text::join_path("/data", ""), "/data/");
    assert_eq!(text::sort_names(&names(&["b", "a", "ab", "b"])), names(&["a", "ab", "b", "b"]));
}

#[test]
fn query_strings() {
    assert_eq!(
        parse_query(Some("a=1+2&b=%C3%A9&c")),
        vec![
            ("a".to_string(), "1 2".to_string()),
            ("b".to_string(), "\u{e9}".to_string()),
            ("c".to_string(), String::new()),
        ]
    );
    assert!(parse_query(None).is_empty());
    assert_eq!(content_length(Some("12")), 12);
    assert_eq!(content_length(Some("x")), 0);
    assert_eq!(content_length(None), 0);
}

#[test]
fn times() {
    assert_eq!(ms_to_iso(0), "1970-01-01T00:00:00Z");
    assert_eq!(ms_to_iso(-5), "1970-01-01T00:00:00Z");
    assert_eq!(ms_to_iso(1_700_000_000_123), "2023-11-14T22:13:20.123+00:00");
    assert_eq!(ms_to_iso(i64::MAX), i64::MAX.to_string());
    assert_eq!(ms_to_iso8601(0), "1970-01-01T00:00:00+00:00");
    assert_eq!(ms_to_iso8601(1_500), "1970-01-01T00:00:01.500+00:00");
    assert_eq!(ms_to_iso8601(-1_500), "-1500");
    assert_eq!(ms_to_iso8601(-1_000), "1969-12-31T23:59:59+00:00");
    assert_eq!(iso_or_number(5, None), "5");
    assert_eq!(formatted_or_number(5, Some("x".to_string())), "x");
}
