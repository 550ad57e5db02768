use maki::classify::is_identifier_char;
use maki::makefile::content_lines;
use maki::order::precedes;
use maki::text::{
    chars_of, is_whitespace, join_strings, same_chars, same_text, string_of, trimmed,
};

#[test]
fn white_space_is_what_the_standard_library_calls_so() {
    for code in 0..=0x10FFFFu32 {
        if let Some(c) = char::from_u32(code) {
            assert_eq!(is_whitespace(c), c.is_whitespace(), "U+{:04X}", code);
        }
    }
}

#[test]
fn identifier_characters_are_ascii_letters_digits_and_underscore() {
    for code in 0..=0x10FFFFu32 {
        if let Some(c) = char::from_u32(code) {
            assert_eq!(is_identifier_char(c), c.is_ascii_alphanumeric() || c == '_');
        }
    }
}

#[test]
fn trimmed_agrees_with_the_standard_library() {
    for s in ["", " ", "a", "  a b \t", "\u{a0}x\u{3000}", "\n\r x \r\n", "é ", " \u{200b} "] {
        assert_eq!(trimmed(s), s.trim());
    }
}

#[test]
fn lines_agree_with_the_standard_library() {
    for s in [
        "",
        "\n",
        "a",
        "a\n",
        "a\nb",
        "a\n\nb\n",
        "a\r\nb\r\n",
        "a\rb\n",
        "a\r",
        "\r\n",
        "\r\r\n",
        "a\n\r",
        "\n\n\n",
        "é\nü",
    ] {
        let expected: Vec<String> = s.lines().map(|l| l.to_string()).collect();
        assert_eq!(content_lines(s), expected, "{:?}", s);
    }
}

#[test]
fn characters_and_strings_convert_both_ways() {
    for s in ["", "abc", "é✓\u{10FFFF}"] {
        let chars = chars_of(s);
        assert_eq!(chars, s.chars().collect::<Vec<char>>());
        assert_eq!(string_of(&chars), s);
    }
}

#[test]
fn join_puts_the_separator_between() {
    let parts = |v: &[&str]| v.iter().map(|s| s.to_string()).collect::<Vec<String>>();
    assert_eq!(join_strings(&parts(&[]), ", "), "");
    assert_eq!(join_strings(&parts(&["a"]), ", "), "a");
    assert_eq!(join_strings(&parts(&["a", "", "b"]), ", "), "a, , b");
}

#[test]
fn order_is_that_of_strings() {
    let words = ["", "a", "A", "ab", "b", "a b", "é", "z", "\u{10FFFF}", "aa", "a\u{0}"];
    for x in words {
        for y in words {
            let a = chars_of(x);
            let b = chars_of(y);
            assert_eq!(precedes(&a, &b), x < y, "{:?} {:?}", x, y);
            assert_eq!(same_chars(&a, &b), x == y);
            assert_eq!(same_text(x, y), x == y);
        }
    }
}
