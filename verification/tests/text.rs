use caucus::names::{lines, trim};
use caucus::text::{chars_of, is_white_space, split_whitespace};

fn owned(v: Vec<&str>) -> Vec<String> {
    v.into_iter().map(|s| s.to_string()).collect()
}

#[test]
fn trim_removes_unicode_white_space_at_both_ends() {
    assert_eq!(trim("  a b \t\n"), "a b");
    assert_eq!(trim("\u{3000}x\u{a0}"), "x");
    assert_eq!(trim(" \r\n "), "");
    for s in ["", "abc", " a ", "\u{2028}q\u{85}", "x\u{200b}"] {
        assert_eq!(trim(s), s.trim());
    }
}

#[test]
fn lines_split_at_line_feeds_and_drop_carriage_returns_before_them() {
    assert_eq!(lines("foo\r\nbar\n\nbaz\r"), owned(vec!["foo", "bar", "", "baz\r"]));
    assert_eq!(lines("a\n"), owned(vec!["a"]));
    assert!(lines("").is_empty());
    assert_eq!(lines("\n"), owned(vec![""]));
    for s in ["x\r\ny", "\r\n", "a\n\nb\n", "one"] {
        assert_eq!(lines(s), s.lines().map(|l| l.to_string()).collect::<Vec<String>>());
    }
}

#[test]
fn words_are_split_at_any_white_space() {
    assert_eq!(split_whitespace(" a  b\u{a0}c \n"), owned(vec!["a", "b", "c"]));
    assert!(split_whitespace("   ").is_empty());
    for s in ["", "x", "p\tq\u{2003}r", "  lead and trail  "] {
        assert_eq!(split_whitespace(s), s.split_whitespace().map(|w| w.to_string()).collect::<Vec<String>>());
    }
    assert!(is_white_space('\u{205f}'));
    assert!(!is_white_space('\u{200b}'));
    assert_eq!(chars_of("héllo"), vec!['h', 'é', 'l', 'l', 'o']);
}
