use atomic_core::strmap::StrMap;
use atomic_core::text::{
    bytes_in, chars_of, decimal_of, find_char, find_str, glue, hex_of, is_blank, is_whitespace,
    join, line_feeds_to_blanks, lines, parse_unsigned, pieces, signed_decimal_of, starts_with,
    string_of_range, text_before, text_eq, text_in, trim, trim_end_of, truncate_on_char_boundary,
};

const SAMPLES: [&str; 16] = [
    "",
    " ",
    "abc",
    "  abc  ",
    "\u{a0}a b\u{3000}",
    "é\u{1f600}z",
    "a\nb\r\nc",
    "a\n",
    "\n\n",
    "a\r",
    "a\r\n\r\n",
    "\u{200b}x",
    "abd",
    "ab",
    "Z",
    "\u{ffff}",
];

#[test]
fn white_space_is_that_of_char() {
    let mut c = 0u32;
    while c <= 0x10ffff {
        if let Some(ch) = char::from_u32(c) {
            assert_eq!(is_whitespace(ch), ch.is_whitespace(), "{c:x}");
        }
        c += 1;
    }
}

#[test]
fn trimming_is_that_of_str() {
    for s in SAMPLES {
        assert_eq!(trim(s), s.trim());
        assert_eq!(trim_end_of(s), s.trim_end());
        assert_eq!(is_blank(s), s.trim().is_empty());
    }
}

#[test]
fn lines_and_pieces_are_those_of_str() {
    for s in SAMPLES {
        let expected: Vec<&str> = s.lines().collect();
        assert_eq!(lines(s), expected, "{s:?}");
    }
    for s in ["", "&", "a&b", "a&&b&", "&a"] {
        let expected: Vec<&str> = s.split('&').collect();
        assert_eq!(pieces(s, '&'), expected, "{s:?}");
    }
}

#[test]
fn order_is_that_of_str() {
    for a in SAMPLES {
        assert_eq!(bytes_in(a), a.len());
        for b in SAMPLES {
            assert_eq!(text_before(a, b), a < b, "{a:?} {b:?}");
            assert_eq!(text_eq(a, b), a == b);
            assert_eq!(starts_with(a, b), a.starts_with(b));
            assert_eq!(glue(a, b), format!("{a}{b}"));
        }
    }
}

#[test]
fn numbers_are_written_in_decimals() {
    for n in [0u128, 7, 10, 4096, u128::MAX] {
        assert_eq!(decimal_of(n), n.to_string());
    }
    for n in [0i64, -1, 42, -100, i64::MIN, i64::MAX] {
        assert_eq!(signed_decimal_of(n), n.to_string());
    }
}

#[test]
fn numbers_are_read_as_parse_reads_them() {
    for s in ["0", "7", "+7", "007", "", "+", "-0", "1a", " 1", "18446744073709551615",
        "18446744073709551616", "٣", "++1"]
    {
        assert_eq!(parse_unsigned(s, u64::MAX), s.parse::<u64>().ok(), "{s:?}");
        assert_eq!(
            parse_unsigned(s, i32::MAX as u64),
            s.parse::<u64>().ok().filter(|n| *n <= i32::MAX as u64),
            "{s:?}"
        );
    }
}

#[test]
fn texts_are_searched() {
    let cs = chars_of("añab");
    assert_eq!(find_char(&cs, 1, 'a'), 2);
    assert_eq!(find_char(&cs, 0, 'x'), 4);
    assert_eq!(find_str(&cs, &chars_of("ab")), Some(2));
    assert_eq!(find_str(&cs, &chars_of("")), Some(0));
    assert_eq!(find_str(&cs, &chars_of("b ")), None);
    assert_eq!(string_of_range(&cs, 1, 3), "ña");
    let list = vec!["x".to_string(), "y".to_string()];
    assert!(text_in(&list, "y") && !text_in(&list, "z"));
}

#[test]
fn texts_are_joined_and_cut() {
    let list: Vec<String> = ["a", "b", "c"].iter().map(|s| s.to_string()).collect();
    assert_eq!(join(&list, 0, 3, ", "), "a, b, c");
    assert_eq!(join(&list, 1, 2, ", "), "b");
    assert_eq!(join(&list, 1, 1, ", "), "");
    assert_eq!(line_feeds_to_blanks("a\nb\r\n"), "a b\r ");
    assert_eq!(truncate_on_char_boundary("abc", 3), "abc");
    assert_eq!(truncate_on_char_boundary("abcd", 3), "abc...");
    assert_eq!(hex_of(&[0, 10, 255]), "000aff");
}

#[test]
fn map_holds_the_latest_value_of_each_key() {
    let mut m: StrMap<i32> = StrMap::new();
    assert_eq!(m.len(), 0);
    m.insert("a".to_string(), 1);
    m.insert("b".to_string(), 2);
    m.insert("a".to_string(), 3);
    assert_eq!((m.len(), m.get("a"), m.get("b"), m.get("c")), (2, Some(&3), Some(&2), None));
    let keys: Vec<&str> = (0..2).map(|i| m.entry(i).0).collect();
    assert!(keys.contains(&"a") && keys.contains(&"b"));
    assert_eq!(m.remove("a"), Some(3));
    assert_eq!(m.remove("a"), None);
    assert!(!m.contains_key("a") && m.contains_key("b"));
}
