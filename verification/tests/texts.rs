use beatport::number::{int_to_text, nat_to_text, parse_i32, parse_i64};
use beatport::text::{
    contains, first_chars, replace, same, space, split_at_char, split_words, trim,
};

#[test]
fn replace_takes_occurrences_from_the_left() {
    assert_eq!(replace("aaa", "aa", "b"), "ba");
    assert_eq!(replace("a (b) (c)", "(", " "), "a  b)  c)");
    assert_eq!(replace("abc", "x", "y"), "abc");
    assert_eq!(replace("", "x", "y"), "");
    assert_eq!(replace("xx", "x", ""), "");
    assert_eq!(replace("a   b", "  ", " "), "a  b");
}

#[test]
fn replace_agrees_with_the_standard_library() {
    let texts = ["", "a", "aXa", "aaaa", "feat. x feat. y", "\u{e9}\u{e9}a", " ft  ft "];
    let patterns = ["a", "aa", "feat. ", "\u{e9}", " ft ", "X"];
    for text in texts {
        for pattern in patterns {
            assert_eq!(replace(text, pattern, "-"), text.replace(pattern, "-"));
            assert_eq!(contains(text, pattern), text.contains(pattern));
        }
    }
}

#[test]
fn contains_finds_the_empty_text() {
    assert!(contains("", ""));
    assert!(contains("abc", ""));
    assert!(contains("abc", "bc"));
    assert!(!contains("abc", "abcd"));
}

#[test]
fn white_space_is_that_of_the_standard_library() {
    for n in 0..0x110000u32 {
        if let Some(c) = char::from_u32(n) {
            assert_eq!(space(c), c.is_whitespace());
        }
    }
}

#[test]
fn trim_takes_off_both_ends() {
    for text in ["", " ", " a ", "\t\na b\u{a0}", "a", "\u{2003}x\u{3000} "] {
        assert_eq!(trim(text), text.trim());
    }
    assert_eq!(trim(trim("  x  ").as_str()), "x");
}

#[test]
fn words_are_runs_without_white_space() {
    for text in ["", "  ", "one", " one  two ", "a\tb\nc\u{a0}d"] {
        let expected: Vec<String> = text.split_whitespace().map(|w| w.to_string()).collect();
        assert_eq!(split_words(text), expected);
    }
}

#[test]
fn pieces_stand_between_separators() {
    for text in ["", ",", "a", "a,b", ",a,,b,"] {
        let expected: Vec<String> = text.split(',').map(|w| w.to_string()).collect();
        assert_eq!(split_at_char(text, ','), expected);
    }
}

#[test]
fn first_characters() {
    assert_eq!(first_chars("2024-05-01", 4), "2024");
    assert_eq!(first_chars("20", 4), "20");
    assert_eq!(first_chars("\u{e9}\u{e9}\u{e9}\u{e9}\u{e9}", 4), "\u{e9}\u{e9}\u{e9}\u{e9}");
}

#[test]
fn equality_of_texts() {
    assert!(same("", ""));
    assert!(same("ab", "ab"));
    assert!(!same("ab", "abc"));
    assert!(!same("ab", "ac"));
}

#[test]
fn integers_are_written_in_decimal() {
    for n in [0, 7, 10, 99, 100, -1, -10, i64::MAX, i64::MIN] {
        assert_eq!(int_to_text(n), n.to_string());
        assert_eq!(parse_i64(int_to_text(n).as_str()), Some(n));
    }
    assert_eq!(nat_to_text(1600), "1600");
    assert_eq!(nat_to_text(u128::MAX), u128::MAX.to_string());
}

#[test]
fn integers_are_read_from_decimal() {
    let texts = [
        "", "+", "-", "0", "-0", "+5", "007", "12a", " 1", "1 ", "1_000", "--1",
        "9223372036854775807", "9223372036854775808", "-9223372036854775808",
        "-9223372036854775809", "00000000000000000000000000000000000000000000000000001",
        "99999999999999999999999999999999999999999999999999999", "\u{0661}",
        "2147483647", "2147483648", "-2147483648", "-2147483649",
    ];
    for text in texts {
        assert_eq!(parse_i64(text), text.parse::<i64>().ok(), "{}", text);
        assert_eq!(parse_i32(text), text.parse::<i32>().ok(), "{}", text);
    }
}
