use xpde::text::{
    chars_of, decimal_chars, lex_le_chars, lines_of, split_nonempty_chars, string_of, strip_prefix_ignore_ascii_case,
    trim_chars, words_of,
};

fn strings(v: Vec<Vec<char>>) -> Vec<String> {
    v.iter().map(|c| string_of(c)).collect()
}

#[test]
fn prefixes_are_stripped_up_to_ascii_case() {
    assert_eq!(strip_prefix_ignore_ascii_case("SiteMap: x", "sitemap:"), Some(" x"));
    assert_eq!(strip_prefix_ignore_ascii_case("sitemap", "sitemap:"), None);
    assert_eq!(strip_prefix_ignore_ascii_case("Sitem\u{e4}p:x", "sitemap:"), None);
    assert_eq!(strip_prefix_ignore_ascii_case("\u{c4}bc", "\u{c4}"), Some("bc"));
}

#[test]
fn lines_words_and_pieces() {
    assert_eq!(strings(lines_of(&chars_of("a\r\nb\n\nc\r"))), vec!["a", "b", "", "c\r"]);
    assert_eq!(strings(lines_of(&chars_of("x\n"))), vec!["x"]);
    assert_eq!(strings(words_of(&chars_of("  wiki\u{a0}rust \t lang "), true)), vec!["wiki\u{a0}rust", "lang"]);
    assert_eq!(strings(words_of(&chars_of("  wiki\u{a0}rust \t lang "), false)), vec!["wiki", "rust", "lang"]);
    assert_eq!(strings(split_nonempty_chars(&chars_of(":a::b:"), ':')), vec!["a", "b"]);
    assert_eq!(string_of(&trim_chars(&chars_of("\u{3000} x y \n"))), "x y");
}

#[test]
fn numbers_and_order() {
    assert_eq!(string_of(&decimal_chars(0)), "0");
    assert_eq!(string_of(&decimal_chars(40912)), "40912");
    assert!(lex_le_chars(&chars_of("abc"), &chars_of("abd")));
    assert!(lex_le_chars(&chars_of("ab"), &chars_of("abc")));
    assert!(!lex_le_chars(&chars_of("b"), &chars_of("abc")));
}
