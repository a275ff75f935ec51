use bwoc_chat::text::{
    chars_of, contains_char, decimal_string, eq_ignore_ascii_case, is_white_space, join, not_after,
    replace_char, same, skip_chars, split_word, starts_with, string_of, to_one_line, trim,
    trim_start_of,
};

const SAMPLES: [&str; 14] = [
    "",
    " ",
    "a",
    "  a",
    "a  ",
    " a b ",
    "one\ttwo\nthree",
    "\u{a0}x\u{3000}",
    "ราชา ไทย",
    "a\u{2003}b\u{2029}c",
    "é e E É",
    "…",
    "zebra",
    "zebrb",
];

/// The verified table agrees with the standard library on every character.
#[test]
fn white_space_is_unicodes() {
    for n in 0..=0x10FFFFu32 {
        if let Some(c) = char::from_u32(n) {
            assert_eq!(is_white_space(c), c.is_whitespace(), "U+{:04X}", n);
        }
    }
}

#[test]
fn cutting_agrees_with_std() {
    for s in SAMPLES {
        assert_eq!(trim(s), s.trim());
        let mut parts = s.splitn(2, char::is_whitespace);
        let (word, rest) = split_word(s);
        assert_eq!(word, parts.next().unwrap_or(""));
        assert_eq!(rest, parts.next().unwrap_or(""));
        assert_eq!(to_one_line(s), s.split_whitespace().collect::<Vec<_>>().join(" "));
        assert_eq!(chars_of(s), s.chars().collect::<Vec<char>>());
        assert_eq!(contains_char(s, 'a'), s.contains('a'));
        assert_eq!(replace_char(s, 'a', '_'), s.replace('a', "_"));
        assert_eq!(trim_start_of(s, 'z'), s.trim_start_matches('z'));
        assert_eq!(skip_chars(s, 0), s);
    }
    assert_eq!(string_of(&chars_of("abcdef"), 1, 4), "bcd");
    assert_eq!(trim_start_of("//quit", '/'), "quit");
}

#[test]
fn comparing_agrees_with_std() {
    for a in SAMPLES {
        for b in SAMPLES {
            assert_eq!(same(a, b), a == b);
            assert_eq!(eq_ignore_ascii_case(a, b), a.eq_ignore_ascii_case(b));
            assert_eq!(starts_with(a, b), a.starts_with(b));
            assert_eq!(not_after(a, b), a <= b);
        }
    }
    assert!(eq_ignore_ascii_case("AdA", "aDa"));
    assert!(!eq_ignore_ascii_case("É", "é"));
}

#[test]
fn numbers_and_lists() {
    for n in [0u64, 7, 9, 10, 99, 100, 4096, u64::MAX] {
        assert_eq!(decimal_string(n), n.to_string());
    }
    let parts: Vec<String> = vec!["a".to_string(), "".to_string(), "c".to_string()];
    assert_eq!(join(&parts, ", "), "a, , c");
    assert_eq!(join(&Vec::new(), ", "), "");
}
