use async_bash_mcp::text::{decimal_text, is_blank_str, last_n_lines};

#[test]
fn test_last_n_lines_basic() {
    assert_eq!(last_n_lines("a\nb\nc\nd\ne\nf", 3), "d\ne\nf");
}

#[test]
fn test_last_n_lines_fewer_than_n() {
    assert_eq!(last_n_lines("a\nb", 5), "a\nb");
}

#[test]
fn test_last_n_lines_empty() {
    assert_eq!(last_n_lines("", 5), "");
}

#[test]
fn last_n_lines_zero_keeps_everything() {
    assert_eq!(last_n_lines("a\nb\nc", 0), "a\nb\nc");
}

#[test]
fn last_n_lines_counts_trailing_line_feed() {
    // The trailing line feed is the first one counted from the end.
    assert_eq!(last_n_lines("a\nb\nc\n", 2), "c\n");
    assert_eq!(last_n_lines("a\nb\nc\n", 1), "");
}

#[test]
fn last_n_lines_exactly_n_line_feeds() {
    assert_eq!(last_n_lines("x\ny\nz", 2), "y\nz");
    assert_eq!(last_n_lines("\nq", 1), "q");
}

#[test]
fn last_n_lines_non_ascii() {
    assert_eq!(last_n_lines("é\nü\nß", 1), "ß");
}

#[test]
fn decimal_text_values() {
    assert_eq!(decimal_text(0), "0");
    assert_eq!(decimal_text(7), "7");
    assert_eq!(decimal_text(10), "10");
    assert_eq!(decimal_text(999999), "999999");
    assert_eq!(decimal_text(u64::MAX), "18446744073709551615");
}

#[test]
fn blank_detection_uses_unicode_white_space() {
    assert!(is_blank_str(""));
    assert!(is_blank_str(" \t\n\r"));
    assert!(is_blank_str("\u{00A0}\u{3000}\u{2028}"));
    assert!(!is_blank_str(" a "));
    assert!(!is_blank_str("\u{200B}"));
}
