use canari::text;

#[test]
fn white_space_is_trimmed() {
    assert_eq!(text::trim(" \t\u{a0}x y\u{2003}\n"), "x y");
    assert_eq!(text::trim(" \n "), "");
    assert_eq!(text::trim_end_char("a///", '/'), "a");
    for code in 0..=0x3100u32 {
        if let Some(c) = char::from_u32(code) {
            assert_eq!(text::white(c), c.is_whitespace(), "U+{code:04X}");
        }
    }
}

#[test]
fn numbers_are_read_and_written() {
    for s in ["0", "+7", "-9223372036854775808", "9223372036854775807", "9223372036854775808", "-", "+", "", "1a", "٣"] {
        assert_eq!(text::parse_i64(s), s.parse::<i64>().ok(), "{s}");
    }
    for s in ["0", "+255", "255", "256", "-1", "-0", "", "0000000000000000000000000012"] {
        assert_eq!(text::parse_uint(s, 255), s.parse::<u8>().ok().map(u64::from), "{s}");
    }
    for n in [0, 7, -7, i64::MIN, i64::MAX] {
        assert_eq!(text::int_text(n), n.to_string());
    }
}

#[test]
fn texts_are_searched_and_replaced() {
    assert!(text::contains("haystack", "sta"));
    assert!(text::contains("x", ""));
    assert!(!text::contains("x", "xy"));
    assert!(text::starts_with("https://x", "https://"));
    for (s, pat, with) in [("aaa", "aa", "b"), ("$N$NA", "$NA", "x"), ("", "a", "b"), ("abc", "b", "")] {
        assert_eq!(text::replace(s, pat, with), s.replace(pat, with));
    }
}

#[test]
fn texts_are_split() {
    for s in ["", "a", "a;b", ";", "a;;b;"] {
        assert_eq!(text::split_on(s, ';'), s.split(';').collect::<Vec<_>>());
        assert_eq!(
            text::split_once(s, ';'),
            s.split_once(';').map(|(a, b)| (a.to_string(), b.to_string()))
        );
    }
    for s in ["", "a\n", "a\r\nb", "\n\n", "a\rb", "x\r\n\r\ny\r"] {
        assert_eq!(text::split_lines(s), s.lines().collect::<Vec<_>>());
    }
    for s in ["", "  ", " a  b ", "a\u{a0}b"] {
        assert_eq!(text::split_words(s), s.split_whitespace().collect::<Vec<_>>());
    }
    let parts = vec!["a".to_string(), "b".to_string()];
    assert_eq!(text::join(&parts, ", "), "a, b");
}
