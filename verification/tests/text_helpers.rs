use eos_installer::text::{
    is_whitespace, parse_usize, sort_and_dedup, split, split_words, starts_with, to_decimal,
    to_signed_decimal, trim, trim_leading,
};

#[test]
fn white_space_is_that_of_unicode() {
    for n in 0..=0x10ffffu32 {
        if let Some(c) = char::from_u32(n) {
            assert_eq!(is_whitespace(c), c.is_whitespace(), "{:x}", n);
        }
    }
}

#[test]
fn trimming_and_words() {
    for s in ["", " ", "a", " a ", "\u{a0}a b\u{3000}\n", "\n\r\t", "a\u{200b} "] {
        assert_eq!(trim(s), s.trim());
        let words: Vec<String> = s.split_whitespace().map(|w| w.to_string()).collect();
        assert_eq!(split_words(s), words);
    }
}

#[test]
fn splitting() {
    for s in ["", "/", "a/b", "/a//b/", "é/ü"] {
        let pieces: Vec<String> = s.split('/').map(|w| w.to_string()).collect();
        assert_eq!(split(s, '/'), pieces);
        assert_eq!(trim_leading(s, '/'), s.trim_start_matches('/'));
        assert_eq!(starts_with(s, "/"), s.starts_with("/"));
    }
}

#[test]
fn numbers_are_read_and_written() {
    for s in [
        "", "+", "-", "0", "+0", "-0", "00012", "12a", "a", " 1", "1 ", "18446744073709551615",
        "18446744073709551616", "99999999999999999999999999", "+18446744073709551615", "++1", "١",
    ] {
        assert_eq!(parse_usize(s), s.parse::<usize>().ok(), "{:?}", s);
    }
    for n in [0, 1, 9, 10, 99, 1234567890, u64::MAX] {
        assert_eq!(to_decimal(n), n.to_string());
    }
    for n in [0, 1, -1, -10, i32::MAX, i32::MIN] {
        assert_eq!(to_signed_decimal(n), n.to_string());
    }
}

#[test]
fn a_list_is_put_in_order_each_once() {
    let list: Vec<String> = ["b", "a", "", "b", "aa", "é", "Z", "a"]
        .iter()
        .map(|s| s.to_string())
        .collect();
    let mut expected = list.clone();
    expected.sort();
    expected.dedup();
    assert_eq!(sort_and_dedup(list), expected);
    assert_eq!(expected, vec!["", "Z", "a", "aa", "b", "é"]);
}
