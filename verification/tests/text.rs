//! Text helpers, held against those of the standard library.

use rdmatop::text::{
    ascii_uppercase, contains, decimal_i64, decimal_u128, decimal_u64, drop_empty, ends_with,
    hexadecimal_u64, join, pad_left, pad_right, parse_i32, parse_unsigned, repeat_char,
    replace_char, same, split_lines, split_pieces, split_words, starts_with, trim, whitespace,
};

const SAMPLES: [&str; 12] = [
    "",
    " ",
    "a",
    " a b  c ",
    "a\r\nb\nc\r",
    "\n\na\n",
    "x\u{85}y\u{2003}z",
    "\t\u{3000}mixed é 中\u{a0}",
    "a,b,,c",
    "\r\n",
    "tail\n",
    "UTF-8 utf8 Ä",
];

#[test]
fn white_space_is_that_of_unicode() {
    for c in '\0'..=char::MAX {
        assert_eq!(whitespace(c), c.is_whitespace(), "{c:?}");
    }
}

#[test]
fn splitting_and_trimming_agree() {
    for s in SAMPLES {
        assert_eq!(split_words(s), s.split_whitespace().collect::<Vec<_>>(), "{s:?}");
        assert_eq!(split_lines(s), s.lines().collect::<Vec<_>>(), "{s:?}");
        assert_eq!(split_pieces(s, Some(',')), s.split(',').collect::<Vec<_>>(), "{s:?}");
        assert_eq!(trim(s), s.trim(), "{s:?}");
        assert_eq!(ascii_uppercase(s), s.to_ascii_uppercase(), "{s:?}");
        assert_eq!(replace_char(s, 'a', ' '), s.replace('a', " "), "{s:?}");
        for p in ["", "a", " ", "é 中", "\n", "8"] {
            assert_eq!(starts_with(s, p), s.starts_with(p));
            assert_eq!(ends_with(s, p), s.ends_with(p));
            assert_eq!(contains(s, p), s.contains(p));
            assert_eq!(same(s, p), s == p);
        }
    }
    assert_eq!(drop_empty(vec![String::new(), "a".to_string()]), vec!["a"]);
    assert_eq!(join(&["a".to_string(), "b".to_string()], ", "), "a, b");
    assert_eq!(join(&[], ", "), "");
}

#[test]
fn numbers_are_written_as_the_standard_library_does() {
    for n in [0u64, 1, 9, 10, 99, 100, 12_345, u64::MAX] {
        assert_eq!(decimal_u64(n), n.to_string());
        assert_eq!(hexadecimal_u64(n), format!("{n:x}"));
    }
    assert_eq!(decimal_u128(u128::MAX), u128::MAX.to_string());
    for n in [0i64, -1, 7, -20, i64::MIN, i64::MAX] {
        assert_eq!(decimal_i64(n), n.to_string());
    }
    assert_eq!(pad_right("é", 3), format!("{:<3}", "é"));
    assert_eq!(pad_right("long", 3), "long");
    assert_eq!(pad_left("7", '0', 2), format!("{:02}", 7));
    assert_eq!(pad_left("abc", ' ', 2), "abc");
    assert_eq!(repeat_char('x', 3), "xxx");
}

#[test]
fn numbers_are_read_as_the_standard_library_does() {
    for s in [
        "", "0", "7", "+7", "-7", "+", "-", "++1", "-+1", "007", "4294967295", "4294967296",
        "18446744073709551615", "18446744073709551616", "1 ", " 1", "1e3", "0x10", "-0", "٣",
    ] {
        assert_eq!(parse_unsigned(s, u64::MAX), parse_as_u64(s), "{s:?}");
        assert_eq!(
            parse_unsigned(s, u32::MAX as u64),
            s.parse::<u32>().ok().map(u64::from),
            "{s:?}"
        );
        assert_eq!(parse_i32(s), s.parse::<i32>().ok(), "{s:?}");
    }
    for n in [i32::MIN, i32::MAX] {
        assert_eq!(parse_i32(&n.to_string()), Some(n));
    }
    assert_eq!(parse_i32("2147483648"), None);
    assert_eq!(parse_i32("-2147483649"), None);
}

fn parse_as_u64(s: &str) -> Option<u64> {
    s.parse().ok()
}
