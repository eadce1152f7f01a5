use raytracer::text::{
    decimal_text, has_prefix, parse_unsigned_text, same_text, split_lines, split_words, trim_text,
    unsigned_or_zero_text,
};

#[test]
fn decimal_text_writes_digits() {
    assert_eq!(decimal_text(0), "0");
    assert_eq!(decimal_text(7), "7");
    assert_eq!(decimal_text(10), "10");
    assert_eq!(decimal_text(255), "255");
    assert_eq!(decimal_text(u64::MAX), "18446744073709551615");
}

#[test]
fn parse_unsigned_accepts_plus_and_digits() {
    assert_eq!(parse_unsigned_text("42", 100), Some(42));
    assert_eq!(parse_unsigned_text("+42", 100), Some(42));
    assert_eq!(parse_unsigned_text("007", 100), Some(7));
    assert_eq!(parse_unsigned_text("100", 100), Some(100));
}

#[test]
fn parse_unsigned_rejects_other_text() {
    assert_eq!(parse_unsigned_text("", 100), None);
    assert_eq!(parse_unsigned_text("+", 100), None);
    assert_eq!(parse_unsigned_text("-1", 100), None);
    assert_eq!(parse_unsigned_text("101", 100), None);
    assert_eq!(parse_unsigned_text("1x", 100), None);
    assert_eq!(parse_unsigned_text(" 1", 100), None);
    assert_eq!(parse_unsigned_text("18446744073709551616", u64::MAX), None);
}

#[test]
fn parse_unsigned_matches_std_for_usize() {
    for s in ["0", "12", "+3", "-3", "", "abc", "4294967296", "18446744073709551615"] {
        let expected = s.parse::<u64>().ok();
        assert_eq!(parse_unsigned_text(s, u64::MAX), expected, "{s}");
    }
}

#[test]
fn unsigned_or_zero_falls_back_to_zero() {
    assert_eq!(unsigned_or_zero_text("12", 1000), 12);
    assert_eq!(unsigned_or_zero_text("x", 1000), 0);
    assert_eq!(unsigned_or_zero_text("5000", 1000), 0);
}

#[test]
fn split_words_matches_split_whitespace() {
    for s in ["", "   ", "a", " a  b\tc\n", "TASK 1 2 3 4 5\n", "x\u{3000}y\u{85}z", "\r\nv 1 2 3\r"] {
        let expected: Vec<String> = s.split_whitespace().map(|w| w.to_string()).collect();
        assert_eq!(split_words(s), expected, "{s:?}");
    }
}

#[test]
fn trim_text_matches_trim() {
    for s in ["", "  ", " a ", "\tTASK 1\n", "a b", "\u{2003}x\u{2003}"] {
        assert_eq!(trim_text(s), s.trim(), "{s:?}");
    }
}

#[test]
fn split_lines_cuts_at_newlines() {
    assert_eq!(split_lines("a\nb\n"), vec!["a", "b", ""]);
    assert_eq!(split_lines(""), vec![""]);
    assert_eq!(split_lines("one"), vec!["one"]);
}

#[test]
fn same_text_and_prefix() {
    assert!(same_text("abc", "abc"));
    assert!(!same_text("abc", "abd"));
    assert!(!same_text("ab", "abc"));
    assert!(has_prefix("TASKS", "TASK"));
    assert!(!has_prefix("TAS", "TASK"));
    assert!(has_prefix("x", ""));
}
