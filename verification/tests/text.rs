use tinyproxy::text::{
    chars_of, find_char, find_last_char, has_prefix, has_substring, has_suffix, is_word,
    number_text, split, split_lines, split_words, str_eq, text_of, to_lower, trimmed,
};

fn c(s: &str) -> Vec<char> {
    s.chars().collect()
}

fn texts(parts: Vec<Vec<char>>) -> Vec<String> {
    parts.iter().map(|p| p.iter().collect()).collect()
}

#[test]
fn lines_as_the_standard_library_splits_them() {
    for text in [
        "",
        "\n",
        "\r\n",
        "a",
        "a\n",
        "a\r\n",
        "a\r",
        "a\r\nb",
        "a\n\nb\n",
        "\n\na",
        "a\r\r\nb\r",
        "\r",
        "a\n\r\nb\r\n\r\n",
        "\u{e9}\u{2028}x\ny",
    ] {
        let expected: Vec<String> = text.lines().map(|l| l.to_string()).collect();
        assert_eq!(texts(split_lines(&c(text))), expected, "{:?}", text);
    }
}

#[test]
fn words_as_the_standard_library_splits_them() {
    for text in ["", " ", "a", " a ", "a b", "  a \t b\r\nc  ", "a\u{a0}b", "\u{3000}x\u{2003}"] {
        let expected: Vec<String> = text.split_whitespace().map(|l| l.to_string()).collect();
        assert_eq!(texts(split_words(&c(text))), expected, "{:?}", text);
        assert_eq!(text_of(&trimmed(&c(text))), text.trim(), "{:?}", text);
    }
}

#[test]
fn pieces() {
    for (text, sep) in [("", ':'), ("a", ':'), (":", ':'), ("a:b", ':'), ("a::b:", ':'), ("1.2.3.4", '.')] {
        let expected: Vec<String> = text.split(sep).map(|l| l.to_string()).collect();
        assert_eq!(texts(split(&c(text), sep)), expected, "{:?}", text);
        assert_eq!(find_char(&c(text), sep), text.find(sep).unwrap_or(text.len()));
        assert_eq!(find_last_char(&c(text), sep), text.rfind(sep));
    }
}

#[test]
fn searches() {
    for (hay, needle) in [
        ("", ""),
        ("abc", ""),
        ("abc", "abc"),
        ("abc", "bc"),
        ("abc", "ab"),
        ("abc", "abcd"),
        ("aab", "ab"),
        ("abab", "bab"),
        ("abc", "ac"),
        ("", "a"),
    ] {
        assert_eq!(has_substring(&c(hay), &c(needle)), hay.contains(needle), "{} {}", hay, needle);
        assert_eq!(has_prefix(&c(hay), &c(needle)), hay.starts_with(needle), "{} {}", hay, needle);
        assert_eq!(has_suffix(&c(hay), &c(needle)), hay.ends_with(needle), "{} {}", hay, needle);
        assert_eq!(str_eq(hay, needle), hay == needle);
        assert_eq!(is_word(&c(hay), needle), hay == needle);
    }
}

#[test]
fn conversions() {
    assert_eq!(text_of(&chars_of("h\u{e9}llo")), "h\u{e9}llo");
    assert_eq!(text_of(&to_lower(&c("HeLLo \u{c9}"))), "hello \u{e9}");
    assert_eq!(number_text(0), "0");
    assert_eq!(number_text(10), "10");
    assert_eq!(number_text(u64::MAX), "18446744073709551615");
}

#[test]
fn whitespace_is_the_white_space_property() {
    let spaces: Vec<u32> = vec![
        0x09, 0x0a, 0x0b, 0x0c, 0x0d, 0x20, 0x85, 0xa0, 0x1680, 0x2000, 0x2001, 0x2002, 0x2003,
        0x2004, 0x2005, 0x2006, 0x2007, 0x2008, 0x2009, 0x200a, 0x2028, 0x2029, 0x202f, 0x205f,
        0x3000,
    ];
    let mut seen = 0;
    for n in 0..=0x10ffffu32 {
        if let Some(ch) = char::from_u32(n) {
            let blank = split_words(&[ch]).is_empty();
            assert_eq!(blank, spaces.contains(&n), "U+{:04X}", n);
            assert_eq!(trimmed(&['a', ch, 'b', ch]).len(), if blank { 3 } else { 4 });
            seen += 1;
        }
    }
    assert_eq!(seen, 0x110000 - 0x800);
}

#[test]
fn lowercase_of_ascii() {
    for n in 0..128u8 {
        let ch = n as char;
        let expected = if ch.is_ascii_uppercase() { (n + 32) as char } else { ch };
        assert_eq!(to_lower(&[ch]), vec![expected], "{:?}", ch);
        assert_eq!(to_lower(&['X', ch, 'y']), vec!['x', expected, 'y'], "{:?}", ch);
    }
    assert_eq!(text_of(&to_lower(&c("Content-LENGTH: 42 [Z]@`{"))), "content-length: 42 [z]@`{");
    assert_eq!(text_of(&to_lower(&c(""))), "");
    // beyond ASCII one character may become several
    assert_eq!(text_of(&to_lower(&c("\u{130}A"))), "i\u{307}a");
}
