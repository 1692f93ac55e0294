use phenix::identity::{char_is_white_space, is_blank_str, validate_identity};
use phenix::lines::split_lines;
use phenix::text::{bytes_less, decimal_string, numbered, str_less};

#[test]
fn blank_means_only_white_space() {
    assert!(is_blank_str(""));
    assert!(is_blank_str(" \t\n\u{a0}"));
    assert!(!is_blank_str(" x "));
    assert!(char_is_white_space('\u{2028}'));
    assert!(!char_is_white_space('_'));
    assert!(validate_identity("execution id", "exec-1").is_ok());
    assert_eq!(
        validate_identity("execution id", "  "),
        Err("execution id must not be empty".to_string())
    );
}

#[test]
fn numerals_and_order() {
    assert_eq!(decimal_string(0), "0");
    assert_eq!(decimal_string(u64::MAX), u64::MAX.to_string());
    assert_eq!(numbered("attempt-", 42), "attempt-42");
    assert!(bytes_less(b"ab", b"b"));
    assert!(bytes_less(b"a", b"ab"));
    assert!(!bytes_less(b"ab", b"ab"));
    assert!(str_less("a", "é"));
    assert!(!str_less("b", "a"));
}

#[test]
fn lines_split_as_str_lines_does() {
    for text in ["", "a", "a\n", "a\r\nb", "a\n\nb\n", "\n", "x\ry\n"] {
        let expected: Vec<String> = text.lines().map(str::to_owned).collect();
        assert_eq!(split_lines(text), expected, "{text:?}");
    }
}
