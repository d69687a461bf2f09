use cortex::text::{contains_text, decimal, is_blank, parse_u64, split_lines, strip_prefix};

#[test]
fn decimal_text_of_numbers() {
    assert_eq!(decimal(0), "0");
    assert_eq!(decimal(7), "7");
    assert_eq!(decimal(10), "10");
    assert_eq!(decimal(1234567890), "1234567890");
    assert_eq!(decimal(u64::MAX), "18446744073709551615");
}

#[test]
fn reading_u64_like_std() {
    for s in ["0", "42", "+42", "18446744073709551615", "", "+", "-1", "4a", "18446744073709551616", " 1"] {
        assert_eq!(parse_u64(s), s.parse::<u64>().ok(), "reading {s:?}");
    }
}

#[test]
fn blank_means_only_white_space() {
    assert!(is_blank(""));
    assert!(is_blank(" \t\r\n\u{a0}\u{3000}"));
    assert!(!is_blank(" x "));
}

#[test]
fn lines_split_like_std() {
    for s in ["", "a", "a\n", "a\nb", "a\r\nb\r\n", "\n\n", "a\rb", "x\r", "one\ntwo\n\nthree"] {
        let expected: Vec<String> = s.lines().map(String::from).collect();
        assert_eq!(split_lines(s), expected, "splitting {s:?}");
    }
}

#[test]
fn prefixes_and_substrings() {
    assert_eq!(strip_prefix("cortex-job-x", "cortex-job-"), Some("x"));
    assert_eq!(strip_prefix("cortex", "cortex-job-"), None);
    assert!(contains_text("SELECT 1 FORMAT CSV", "FORMAT "));
    assert!(!contains_text("SELECT 1", "FORMAT "));
    assert!(contains_text("abc", ""));
}
