use semcache::paths::{contains_segment, path_segments, relative_path, rooted, starts_with};
use semcache::text::{
    blank, bytes_eq, chars_of, decimal_string, is_whitespace, join_range, lines_of, push_decimal,
    str_eq, string_of, trim, trim_chars,
};

#[test]
fn chars_and_strings_convert_both_ways() {
    let text = "h\u{e9}llo \u{4e2d}\u{1F600}";
    let chars = chars_of(text);
    assert_eq!(chars, text.chars().collect::<Vec<char>>());
    assert_eq!(string_of(&chars), text);
    assert_eq!(chars_of(""), Vec::<char>::new());
    assert_eq!(string_of(&['a', 'b']), "ab");
}

#[test]
fn equality_is_by_content() {
    assert!(str_eq("abc", "abc"));
    assert!(!str_eq("abc", "abd"));
    assert!(!str_eq("abc", "ab"));
    assert!(str_eq("", ""));
    assert!(bytes_eq(b"\x00\x01", b"\x00\x01"));
    assert!(!bytes_eq(b"\x00\x01", b"\x00\x02"));
}

#[test]
fn white_space_is_what_std_takes_for_it() {
    let mut code: u32 = 0;
    while code <= 0x3100 {
        if let Some(c) = char::from_u32(code) {
            assert_eq!(is_whitespace(c), c.is_whitespace(), "U+{code:04X}");
        }
        code += 1;
    }
    assert!(!is_whitespace('\u{FEFF}'));
    assert!(!is_whitespace('\u{10FFFF}'));
}

#[test]
fn trim_drops_white_space_at_both_ends() {
    for text in ["", " ", "  a b  ", "\t\n x\u{3000}", "x", " \u{a0}\u{2003}", "a  ", "  a"] {
        assert_eq!(trim(text), text.trim(), "{text:?}");
        assert_eq!(blank(&chars_of(text)), text.trim().is_empty(), "{text:?}");
    }
    assert_eq!(trim_chars(&[' ', 'a', ' ', 'b', '\n']), vec!['a', ' ', 'b']);
}

#[test]
fn lines_are_split_as_std_splits_them() {
    for text in [
        "",
        "\n",
        "a",
        "a\n",
        "a\nb",
        "a\r\nb\r\n",
        "a\r",
        "a\rb\n",
        "\n\n",
        "a\n\nb\n",
        "\r\n",
        "one\ntwo\nthree\n",
        "x\r\r\ny",
    ] {
        let expected: Vec<String> = text.lines().map(|l| l.to_string()).collect();
        assert_eq!(lines_of(text), expected, "{text:?}");
    }
}

#[test]
fn decimal_writes_numbers_without_leading_zeros() {
    assert_eq!(decimal_string(0), "0");
    assert_eq!(decimal_string(7), "7");
    assert_eq!(decimal_string(10), "10");
    assert_eq!(decimal_string(1234567890), "1234567890");
    assert_eq!(decimal_string(u128::MAX), u128::MAX.to_string());
    let mut out = "n=".to_string();
    push_decimal(&mut out, 405);
    assert_eq!(out, "n=405");
}

#[test]
fn join_range_puts_newlines_between_lines() {
    let lines = vec!["a".to_string(), "b".to_string(), "".to_string(), "c".to_string()];
    assert_eq!(join_range(&lines, 0, 4), "a\nb\n\nc");
    assert_eq!(join_range(&lines, 1, 2), "b");
    assert_eq!(join_range(&lines, 2, 2), "");
    assert_eq!(join_range(&lines, 2, 4), "\nc");
}

#[test]
fn paths_are_compared_by_their_segments() {
    assert_eq!(path_segments("/a//b/c/"), vec!["a".to_string(), "b".to_string(), "c".to_string()]);
    assert_eq!(path_segments(""), Vec::<String>::new());
    assert_eq!(path_segments("a"), vec!["a".to_string()]);
    assert!(rooted("/a"));
    assert!(!rooted("a"));
    assert!(!rooted(""));
    assert!(starts_with("/a/b/c", "/a/b"));
    assert!(starts_with("/a/b", "/a/b"));
    assert!(!starts_with("/a/bc", "/a/b"));
    assert!(!starts_with("a/b", "/a"));
    assert!(!starts_with("/a", "/a/b"));
    assert_eq!(relative_path("/a/b/c/d.rs", "/a/b"), "c/d.rs");
    assert_eq!(relative_path("/x/y", "/a/b"), "/x/y");
    assert_eq!(relative_path("/a/b", "/a/b"), "");
    assert!(contains_segment("src/.git/config", ".git"));
    assert!(!contains_segment("src/.gitignore", ".git"));
    assert!(!contains_segment("", ".git"));
}
