use forecast_judge::text::{
    chars_of, contains_str, is_all_ascii_digits, replace_str, split_str, str_equal, trim_str,
};

#[test]
fn chars_of_keeps_order() {
    assert_eq!(chars_of("a预b"), vec!['a', '预', 'b']);
}

#[test]
fn str_equal_compares_characters() {
    assert!(str_equal("加息", "加息"));
    assert!(!str_equal("加息", "降息"));
    assert!(!str_equal("ab", "abc"));
}

#[test]
fn contains_str_finds_substrings() {
    assert!(contains_str("美联储宣布加息", "加息"));
    assert!(!contains_str("美联储宣布加息", "降息"));
    assert!(contains_str("anything", ""));
    assert!(!contains_str("ab", "abc"));
}

#[test]
fn trim_str_strips_unicode_whitespace() {
    assert_eq!(trim_str("  A3=x \t"), "A3=x");
    assert_eq!(trim_str("\u{3000}text\u{a0}"), "text");
    assert_eq!(trim_str(" \n "), "");
}

#[test]
fn replace_str_replaces_every_occurrence() {
    assert_eq!(replace_str("Wed, 18 Feb 2015 23:16:09 GMT", "GMT", "+0000"), "Wed, 18 Feb 2015 23:16:09 +0000");
    assert_eq!(replace_str("GMTGMT x GM", "GMT", "+0000"), "+0000+0000 x GM");
    assert_eq!(replace_str("aaa", "aa", "b"), "ba");
    // An empty pattern matches at every character boundary, as with str::replace.
    assert_eq!(replace_str("abc", "", "x"), "abc".replace("", "x"));
    assert_eq!(replace_str("abc", "", "x"), "xaxbxcx");
    assert_eq!(replace_str("", "", "x"), "x");
    assert_eq!(replace_str("预测", "", "-"), "-预-测-");
}

#[test]
fn split_str_keeps_empty_pieces() {
    assert_eq!(split_str("a;b;;c", ';'), vec!["a", "b", "", "c"]);
    assert_eq!(split_str("", ';'), vec![""]);
    assert_eq!(split_str("x;", ';'), vec!["x", ""]);
}

#[test]
fn ascii_digit_check() {
    assert!(is_all_ascii_digits("2024"));
    assert!(!is_all_ascii_digits("20a4"));
    assert!(is_all_ascii_digits(""));
}
