use guided_review::text::{decimal_text, is_blank_text, line_count, parse_u64, text_lines};

#[test]
fn decimal_text_writes_plain_digits() {
    assert_eq!(decimal_text(0), "0");
    assert_eq!(decimal_text(7), "7");
    assert_eq!(decimal_text(144), "144");
    assert_eq!(decimal_text(u64::MAX), u64::MAX.to_string());
}

#[test]
fn parse_u64_matches_std() {
    for value in ["", "+", "-", "0", "+7", "-7", "007", "18446744073709551615", "18446744073709551616", "1a", " 1"] {
        assert_eq!(parse_u64(value), value.parse::<u64>().ok(), "{value:?}");
    }
}

#[test]
fn lines_match_str_lines() {
    for value in ["", "a", "a\n", "\n", "a\r\nb", "a\rb\n", "a\r", "\n\n", "let first = 1;\nlet second = 2;"] {
        let expected: Vec<String> = value.lines().map(str::to_owned).collect();
        assert_eq!(text_lines(value), expected, "{value:?}");
        assert_eq!(line_count(value), expected.len(), "{value:?}");
    }
}

#[test]
fn blank_means_only_whitespace() {
    assert!(is_blank_text(""));
    assert!(is_blank_text(" \t\n\u{a0}\u{3000}"));
    assert!(!is_blank_text(" x "));
}
