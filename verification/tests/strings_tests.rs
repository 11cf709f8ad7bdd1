use gptcli::strings::{
    chars_lt, chars_of, contains, ends_with, find_from, join_strings, likes_end, likes_somewhere,
    rfind, skip_spaces, split_char, starts_with, str_eq, str_lt, string_of, to_lower, trim, words,
};

fn chars(s: &str) -> Vec<char> {
    s.chars().collect()
}

#[test]
fn chars_and_back() {
    let text = "a\u{e9}\u{4e16}z";
    assert_eq!(chars_of(text), chars(text));
    assert_eq!(string_of(&chars(text)), text);
    assert!(chars_of("").is_empty());
}

#[test]
fn prefix_suffix_substring() {
    let s = chars("hello world");
    assert!(starts_with(&s, &chars("hello")));
    assert!(starts_with(&s, &chars("")));
    assert!(!starts_with(&s, &chars("world")));
    assert!(ends_with(&s, &chars("world")));
    assert!(!ends_with(&s, &chars("hello world!")));
    assert!(contains(&s, &chars("o w")));
    assert!(contains(&s, &chars("")));
    assert!(!contains(&s, &chars("ow")));
}

#[test]
fn find_first_and_last() {
    let s = chars("a::b::c");
    let sep = chars("::");
    assert_eq!(find_from(&s, &sep, 0), Some(1));
    assert_eq!(find_from(&s, &sep, 2), Some(4));
    assert_eq!(find_from(&s, &sep, 5), None);
    assert_eq!(rfind(&s, &sep), Some(4));
    assert_eq!(rfind(&chars("abc"), &sep), None);
    assert_eq!(rfind(&chars("a:::b"), &sep), Some(2));
}

#[test]
fn lower_case_of_ascii_only() {
    assert_eq!(to_lower(&chars("AbC.HPP")), chars("abc.hpp"));
    assert_eq!(to_lower(&chars("\u{c9}Z")), chars("\u{c9}z"));
}

#[test]
fn order_of_texts_is_that_of_std() {
    let samples = ["", "a", "A", "ab", "b", "a/b", "a.b", "z", "\u{e9}", "a\u{0}"];
    for x in samples {
        for y in samples {
            assert_eq!(str_lt(x, y), x < y);
            assert_eq!(chars_lt(&chars(x), &chars(y)), x < y);
            assert_eq!(str_eq(x, y), x == y);
        }
    }
}

#[test]
fn like_matching_ignores_ascii_case_and_takes_underscore_for_any() {
    assert!(likes_somewhere(&chars("// todo: later"), "TODO"));
    assert!(!likes_somewhere(&chars("// tod"), "TODO"));
    assert!(likes_end(&chars("x TEST_CASE("), "TEST_CASE("));
    assert!(likes_end(&chars("x testXcase("), "TEST_CASE("));
    assert!(!likes_end(&chars("TEST_CASE(x"), "TEST_CASE("));
}

#[test]
fn white_space_is_trimmed() {
    assert_eq!(skip_spaces(&chars("  \t x ")), 4);
    assert_eq!(skip_spaces(&chars("\u{a0}\u{3000}x")), 2);
    assert_eq!(trim("  a b \n"), "a b");
    assert_eq!(trim(" \t "), "");
    assert_eq!(trim(""), "");
    assert_eq!(trim("x"), "x");
}

#[test]
fn words_and_parts() {
    assert_eq!(words(&chars("  add_library( foo\t bar ) ")), vec!["add_library(", "foo", "bar", ")"]);
    assert!(words(&chars(" \n ")).is_empty());
    assert_eq!(split_char(&chars("a/b//c"), '/'), vec!["a", "b", "", "c"]);
    assert_eq!(split_char(&chars(""), '/'), vec![""]);
    assert_eq!(split_char(&chars("/"), '/'), vec!["", ""]);
}

#[test]
fn joining() {
    let parts = vec!["a".to_string(), "b".to_string(), "c".to_string()];
    assert_eq!(join_strings(&parts, ", "), "a, b, c");
    assert_eq!(join_strings(&parts[..1], ", "), "a");
    assert_eq!(join_strings(&[], ", "), "");
}
