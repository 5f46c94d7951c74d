use liaozhai::text::{
    chars_of, decimal_string, eq_ignore_ascii_case, is_whitespace_char, lower_char, parse_usize,
    same_text, trim,
};

#[test]
fn trim_matches_std() {
    for s in ["", "  ", " a ", "\t\r\nab c\u{3000}", "x", "\u{a0}y\u{a0}", "  multi word  "] {
        assert_eq!(trim(s), s.trim(), "trim of {s:?}");
    }
}

#[test]
fn whitespace_matches_std() {
    for c in [' ', '\t', '\n', '\r', '\u{b}', '\u{c}', '\u{85}', '\u{a0}', '\u{2028}', '\u{3000}', 'a', '0', '\u{200b}'] {
        assert_eq!(is_whitespace_char(c), c.is_whitespace(), "{c:?}");
    }
}

#[test]
fn lower_char_only_touches_ascii() {
    assert_eq!(lower_char('Q'), 'q');
    assert_eq!(lower_char('q'), 'q');
    assert_eq!(lower_char('\u{c9}'), '\u{c9}');
    assert_eq!(lower_char('1'), '1');
}

#[test]
fn case_insensitive_word_match() {
    assert!(eq_ignore_ascii_case(&chars_of("QuIt"), "quit"));
    assert!(!eq_ignore_ascii_case(&chars_of("quitting"), "quit"));
    assert!(!eq_ignore_ascii_case(&chars_of("qui"), "quit"));
}

#[test]
fn same_text_is_equality() {
    assert!(same_text("abc", "abc"));
    assert!(!same_text("abc", "abd"));
    assert!(!same_text("abc", "ab"));
    assert!(same_text("", ""));
}

#[test]
fn decimals() {
    assert_eq!(decimal_string(0), "0");
    assert_eq!(decimal_string(7), "7");
    assert_eq!(decimal_string(4096), "4096");
    assert_eq!(decimal_string(usize::MAX), usize::MAX.to_string());
}

#[test]
fn parse_usize_matches_std() {
    for s in ["0", "1", "3", "+3", "007", "", "+", "-1", "abc", "1a", "18446744073709551615", "18446744073709551616", " 1"] {
        assert_eq!(parse_usize(s), s.parse::<usize>().ok(), "parse of {s:?}");
    }
}
