use axon::decimal::{decimal_string, parse_usize, signed_string};
use axon::text::{
    begins_with, chars_of, is_white_space, lowered, position_from, split_lines, split_words,
    string_of, strip_prefix, strip_suffix, trimmed_string,
};

fn text(lists: Vec<Vec<char>>) -> Vec<String> {
    lists.iter().map(|l| string_of(l)).collect()
}

#[test]
fn white_space_agrees_with_std() {
    for n in 0..=0x10ffffu32 {
        if let Some(c) = char::from_u32(n) {
            assert_eq!(is_white_space(c), c.is_whitespace(), "{n:x}");
        }
    }
}

const SAMPLES: [&str; 12] = [
    "",
    "a",
    " a b ",
    "a\nb",
    "a\r\nb\r\n",
    "\n\n",
    "\r",
    "a\r",
    "\u{3000}x\u{85}y\u{2028}",
    "é  è\tÉ\n",
    "a\n\r\nb\r",
    " \t\n",
];

#[test]
fn splitting_and_trimming_agree_with_std() {
    for s in SAMPLES {
        assert_eq!(text(split_lines(&chars_of(s))), s.lines().collect::<Vec<_>>(), "{s:?}");
        assert_eq!(text(split_words(&chars_of(s))), s.split_whitespace().collect::<Vec<_>>());
        assert_eq!(trimmed_string(s), s.trim());
        assert_eq!(string_of(&lowered(&chars_of(s))), s.to_ascii_lowercase());
    }
    assert_eq!(string_of(&lowered(&chars_of("ÀAZ[@az"))), "Àaz[@az");
}

#[test]
fn finding_and_stripping_agree_with_std() {
    let s = chars_of("abcabc");
    assert_eq!(position_from(&s, &chars_of("bc"), 0), Some(1));
    assert_eq!(position_from(&s, &chars_of("bc"), 2), Some(4));
    assert_eq!(position_from(&s, &chars_of("bc"), 5), None);
    assert_eq!(position_from(&s, &chars_of(""), 6), Some(6));
    assert_eq!(position_from(&s, &chars_of("abcabcd"), 0), None);
    assert!(begins_with(&s, &chars_of("abc")));
    assert_eq!(string_of(&strip_prefix(s.clone(), "abc")), "abc");
    assert_eq!(string_of(&strip_prefix(s.clone(), "x")), "abcabc");
    assert_eq!(string_of(&strip_suffix(s.clone(), "bc")), "abca");
    assert_eq!(string_of(&strip_suffix(s, "abcabcd")), "abcabc");
}

#[test]
fn numbers_agree_with_std() {
    for n in [0u64, 1, 9, 10, 99, 100, 12345, u64::MAX] {
        assert_eq!(decimal_string(n), n.to_string());
        assert_eq!(parse_usize(&chars_of(&decimal_string(n))), Some(n as usize));
    }
    for n in [0i32, -1, 7, i32::MIN, i32::MAX] {
        assert_eq!(signed_string(n), n.to_string());
    }
    for s in ["", "+", "-1", "+7", "007", "1a", " 1", "18446744073709551616", "٣"] {
        assert_eq!(parse_usize(&chars_of(s)), s.parse::<usize>().ok(), "{s:?}");
    }
}
