use ops_console::real64::{nearest_real, Real64};
use ops_console::text;

fn bits_of(x: f64) -> Real64 {
    Real64 { bits: x.to_bits() }
}

#[test]
fn splitting_and_joining() {
    assert_eq!(text::split_text("a,,b", ','), vec!["a", "", "b"]);
    assert_eq!(text::split_text("", ','), vec![""]);
    let v = text::split_text("x&y&z", '&');
    assert_eq!(text::join_strings(&v, "&"), "x&y&z");
    assert_eq!(text::join_strings(&vec![], ", "), "");
}

#[test]
fn trimming_matches_std() {
    for s in ["", "  ", " a ", "\t中 文\u{3000}", "\u{200b}x", "\u{a0}\u{85}y\u{2028}"] {
        assert_eq!(text::trim_text(s), s.trim());
    }
}

#[test]
fn searching() {
    assert!(text::text_contains("abcabd", "abd"));
    assert!(!text::text_contains("abcab", "abd"));
    assert!(text::text_contains("abc", ""));
    assert!(!text::text_contains("", "a"));
    assert_eq!(text::text_strip_prefix("Bearer tok", "Bearer ").as_deref(), Some("tok"));
    assert_eq!(text::text_strip_prefix("Bear", "Bearer "), None);
    assert_eq!(text::text_rsplit_once("0/a/b", '/'), Some(("0/a".to_string(), "b".to_string())));
    assert_eq!(text::text_rsplit_once("ab", '/'), None);
}

#[test]
fn order_matches_std() {
    let words = ["", "a", "aa", "b", "中", "é", "z", "\u{10ffff}", "\u{ffff}"];
    for a in words {
        for b in words {
            assert_eq!(text::at_most(a, b), a <= b, "{a} {b}");
        }
    }
}

#[test]
fn numbers_in_decimal() {
    for n in [0u64, 9, 10, 12345, u64::MAX] {
        assert_eq!(text::print_u64(n), n.to_string());
    }
    for n in [0i64, -1, 42, i64::MIN, i64::MAX] {
        assert_eq!(text::print_i64(n), n.to_string());
        assert_eq!(text::parse_i64(&text::print_i64(n)), Some(n));
    }
    for s in ["", "+", "-", "+5", "-5", "5a", " 5", "9223372036854775807", "9223372036854775808",
        "-9223372036854775808", "-9223372036854775809", "00012", "+-3", "99999999999999999999"]
    {
        assert_eq!(text::parse_i64(s), s.parse::<i64>().ok(), "{s}");
        assert_eq!(text::parse_usize(s), s.parse::<usize>().ok(), "{s}");
    }
}

#[test]
fn lines_match_std() {
    for s in ["", "a", "a\n", "a\nb", "a\r\nb\r\n", "\n\n", "a\r", "\r\n", "a\n\r\nb\r"] {
        let want: Vec<String> = s.lines().map(|l| l.to_string()).collect();
        assert_eq!(text::lines_of(s), want, "{s:?}");
    }
}

#[test]
fn padding_counts_characters() {
    assert_eq!(text::padded_left("5", '0', 2), format!("{:0>2}", "5"));
    assert_eq!(text::padded_left("123", '0', 2), "123");
    assert_eq!(text::padded_right("中文", 5), format!("{:<5}", "中文"));
    assert_eq!(text::first_chars("中文字", 2), "中文");
}

#[test]
fn case_is_ignored_for_ascii_only() {
    assert!(text::same_ignore_case("GLObal", "global"));
    assert!(!text::same_ignore_case("É", "é"));
    assert!(!text::same_ignore_case("ab", "abc"));
}

#[test]
fn one_decimal_matches_std() {
    let values = [
        0.0, -0.0, 0.04, 0.05, 0.06, 0.25, 0.35, 0.75, 0.95, 1.25, 2.25, 2.35, 9.95, 30.1, 88.0, 89.9, 90.0,
        91.2, 99.52, 99.95, 100.0, -0.04, -12.35, 1e15, 4503599627370497.5, 9007199254740993.0, 1e22, 1e100,
        1.7976931348623157e308, 5e-324, 2.2250738585072014e-308, f64::INFINITY, f64::NEG_INFINITY, f64::NAN,
    ];
    for x in values {
        assert_eq!(bits_of(x).print_one_decimal(), format!("{x:.1}"), "{x}");
    }
    let mut x = 0.0;
    for _ in 0..4000 {
        assert_eq!(bits_of(x).print_one_decimal(), format!("{x:.1}"), "{x}");
        x += 0.03125;
    }
}

#[test]
fn bits_are_ordered_as_values() {
    let values = [
        0.0, -0.0, 5e-324, -5e-324, 1.0, -1.0, 90.0, 89.9, 91.2, 1e300, -1e300, f64::INFINITY,
        f64::NEG_INFINITY, f64::NAN,
    ];
    for a in values {
        for b in values {
            assert_eq!(bits_of(a).at_least(&bits_of(b)), a >= b, "{a} {b}");
        }
    }
}

#[test]
fn nearest_matches_std() {
    for n in [0u64, 1, (1 << 53) - 1, 1 << 53, (1 << 53) + 1, (1 << 53) + 3, (1 << 54) + 2, (1 << 54) + 6,
        u64::MAX, u64::MAX - 1023, u64::MAX - 1024, 0x8000_0000_0000_0400, 0x8000_0000_0000_0c00]
    {
        assert_eq!(nearest_real(n), n as f64 as u128, "{n}");
    }
}

#[test]
fn joining_and_splitting() {
    let parts: Vec<String> = ["a", "", "中文", "b"].iter().map(|s| s.to_string()).collect();
    assert_eq!(text::split_text(&text::join_strings(&parts, ","), ','), parts);
    assert_ne!(text::print_i64(12), text::print_i64(-12));
}

#[test]
fn thresholds_are_read_as_they_were_written() {
    let v = vec![30, -1, 0, i64::MAX, i64::MIN];
    let list: Vec<String> = v.iter().map(|n: &i64| text::print_i64(*n)).collect();
    assert_eq!(ops_console::cli::parse_thresholds(&text::join_strings(&list, ",")).unwrap(), v);
}

#[test]
fn percent_encoding_loses_nothing() {
    let texts = ["", "a b", "%20", "中文/+", "~-_.", "a%2520b", "\u{10ffff}\0"];
    for a in texts {
        let e = ops_console::codec::percent_encode(a);
        assert!(e.chars().all(|c| c.is_ascii_alphanumeric() || "-_.~%".contains(c)), "{e}");
        for b in texts {
            assert_eq!(ops_console::codec::percent_encode(b) == e, a == b);
        }
    }
}
