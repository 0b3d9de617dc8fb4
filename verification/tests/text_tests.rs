use paper_scan::text::{
    char_is_whitespace, contains_chars, copy_range, decimal_chars, join_range, last_index_of,
    lines_of, matches_at, push_all, remove_char, repeat_char, replace_chars, same_chars,
    same_ignoring_ascii_case, split_chars, to_chars, trim_chars,
};

fn chars(s: &str) -> Vec<char> {
    s.chars().collect()
}

fn text(v: &Vec<char>) -> String {
    v.iter().collect()
}

fn texts(v: &Vec<Vec<char>>) -> Vec<String> {
    v.iter().map(text).collect()
}

#[test]
fn to_chars_gives_the_characters_in_order() {
    assert_eq!(to_chars("aé日"), vec!['a', 'é', '日']);
    assert!(to_chars("").is_empty());
}

#[test]
fn whitespace_is_the_unicode_set() {
    for c in [' ', '\t', '\n', '\r', '\u{0B}', '\u{0C}', '\u{85}', '\u{A0}', '\u{1680}', '\u{2003}', '\u{2028}', '\u{2029}', '\u{202F}', '\u{205F}', '\u{3000}'] {
        assert!(char_is_whitespace(c), "{:?}", c);
    }
    for c in ['a', '0', '\u{200B}', '\u{FEFF}', '\u{1C}', '_'] {
        assert!(!char_is_whitespace(c), "{:?}", c);
    }
}

#[test]
fn whitespace_agrees_with_the_standard_library_on_every_character() {
    let mut code: u32 = 0;
    while code <= 0x10FFFF {
        if let Some(c) = char::from_u32(code) {
            assert_eq!(char_is_whitespace(c), c.is_whitespace(), "{:x}", code);
        }
        code += 1;
    }
}

#[test]
fn trim_takes_whitespace_off_both_ends_only() {
    assert_eq!(text(&trim_chars(&chars("  a b \n"))), "a b");
    assert_eq!(text(&trim_chars(&chars("\u{3000}x\u{A0}"))), "x");
    assert_eq!(text(&trim_chars(&chars(" \t\n"))), "");
    assert_eq!(text(&trim_chars(&chars(""))), "");
    assert_eq!(text(&trim_chars(&chars("ab"))), "ab");
}

#[test]
fn split_gives_every_piece_between_separators() {
    assert_eq!(texts(&split_chars(&chars("a,b,,c"), ',')), vec!["a", "b", "", "c"]);
    assert_eq!(texts(&split_chars(&chars(""), ',')), vec![""]);
    assert_eq!(texts(&split_chars(&chars(","), ',')), vec!["", ""]);
    assert_eq!(texts(&split_chars(&chars("abc"), ',')), vec!["abc"]);
}

#[test]
fn remove_char_takes_every_occurrence_out() {
    assert_eq!(text(&remove_char(&chars("\\a\\\\b\\"), '\\')), "ab");
    assert_eq!(text(&remove_char(&chars("abc"), 'x')), "abc");
}

#[test]
fn replace_works_from_left_to_right_without_overlap() {
    assert_eq!(text(&replace_chars(&chars("aaa"), &chars("aa"), &chars("b"))), "ba");
    assert_eq!(text(&replace_chars(&chars("a  b   c"), &chars("  "), &chars(" "))), "a b  c");
    assert_eq!(text(&replace_chars(&chars("abc"), &chars("x"), &chars("y"))), "abc");
    assert_eq!(text(&replace_chars(&chars("abc"), &chars(""), &chars("y"))), "abc");
    assert_eq!(text(&replace_chars(&chars("{output/a} {output/b}"), &chars("{output/"), &chars("{../../output/"))), "{../../output/a} {../../output/b}");
    assert_eq!(text(&replace_chars(&chars("ab"), &chars("abc"), &chars("y"))), "ab");
}

#[test]
fn contains_finds_a_piece_anywhere() {
    assert!(contains_chars(&chars("x\\documentclass{a}"), &chars("\\documentclass")));
    assert!(contains_chars(&chars("abc"), &chars("")));
    assert!(contains_chars(&chars("abc"), &chars("bc")));
    assert!(!contains_chars(&chars("abc"), &chars("cb")));
    assert!(!contains_chars(&chars("ab"), &chars("abc")));
    assert!(contains_chars(&chars(""), &chars("")));
}

#[test]
fn matches_at_looks_at_one_place() {
    assert!(matches_at(&chars("abc"), 1, &chars("bc")));
    assert!(!matches_at(&chars("abc"), 2, &chars("bc")));
    assert!(!matches_at(&chars("abc"), 7, &chars("")));
    assert!(matches_at(&chars("abc"), 3, &chars("")));
}

#[test]
fn comparison_without_case_only_folds_ascii_letters() {
    assert!(same_ignoring_ascii_case(&chars("Main.TeX"), &chars("main.tex")));
    assert!(!same_ignoring_ascii_case(&chars("main.tex"), &chars("main.text")));
    assert!(!same_ignoring_ascii_case(&chars("É"), &chars("é")));
    assert!(!same_ignoring_ascii_case(&chars("@"), &chars("`")));
    assert!(!same_ignoring_ascii_case(&chars("["), &chars("{")));
    assert!(same_chars(&chars("abc"), &chars("abc")));
    assert!(!same_chars(&chars("abc"), &chars("abC")));
}

#[test]
fn last_index_finds_the_last_occurrence() {
    assert_eq!(last_index_of(&chars("a.b.c"), '.'), Some(3));
    assert_eq!(last_index_of(&chars("abc"), '.'), None);
    assert_eq!(last_index_of(&chars(".abc"), '.'), Some(0));
}

#[test]
fn lines_end_at_line_feeds() {
    assert_eq!(texts(&lines_of(&chars("a\nb\r\nc"))), vec!["a", "b", "c"]);
    assert_eq!(texts(&lines_of(&chars("a\n"))), vec!["a"]);
    assert_eq!(texts(&lines_of(&chars("a\n\n"))), vec!["a", ""]);
    assert!(lines_of(&chars("")).is_empty());
    assert_eq!(texts(&lines_of(&chars("\n"))), vec![""]);
    assert_eq!(texts(&lines_of(&chars("a\rb\r"))), vec!["a\rb\r"]);
}

#[test]
fn lines_agree_with_the_standard_library() {
    for s in ["", "a", "a\n", "a\r\n", "a\n\nb", "\r\n\r\n", "x\r", "a\r\r\nb", "\n\r", "one\ntwo\nthree\n"] {
        let expected: Vec<String> = s.lines().map(|l| l.to_string()).collect();
        assert_eq!(texts(&lines_of(&chars(s))), expected, "{:?}", s);
    }
}

#[test]
fn join_puts_the_separator_between_pieces() {
    let pieces = vec![chars("a"), chars("b"), chars("c")];
    assert_eq!(text(&join_range(&pieces, 0, 3, &chars(", "))), "a, b, c");
    assert_eq!(text(&join_range(&pieces, 1, 2, &chars(", "))), "b");
    assert_eq!(text(&join_range(&pieces, 2, 2, &chars(", "))), "");
}

#[test]
fn decimal_writes_numbers_in_digits() {
    assert_eq!(text(&decimal_chars(0)), "0");
    assert_eq!(text(&decimal_chars(7)), "7");
    assert_eq!(text(&decimal_chars(10)), "10");
    assert_eq!(text(&decimal_chars(4096)), "4096");
    assert_eq!(text(&decimal_chars(usize::MAX)), usize::MAX.to_string());
}

#[test]
fn small_helpers_copy_and_repeat() {
    assert_eq!(text(&copy_range(&chars("abcdef"), 2, 4)), "cd");
    assert_eq!(text(&repeat_char('#', 3)), "###");
    assert_eq!(text(&repeat_char('#', 0)), "");
    let mut v = chars("ab");
    push_all(&mut v, &chars("cd"));
    assert_eq!(text(&v), "abcd");
}

#[test]
fn trim_agrees_with_the_standard_library() {
    for s in ["", " ", "a", " a", "a ", "\t a b \r\n", "\u{2003}x y\u{3000}", "\u{200B} x", "  \n  "] {
        assert_eq!(text(&trim_chars(&chars(s))), s.trim(), "{:?}", s);
    }
}

#[test]
fn replace_agrees_with_the_standard_library() {
    let cases = [
        ("a    b", "  ", " "),
        ("\n\n\n\n\n", "\n\n\n", "\n\n"),
        ("aaaa", "aa", "a"),
        ("abcabc", "bc", ""),
        ("", "a", "b"),
        ("{output/{output/", "{output/", "{../../output/"),
        ("xyz", "xyz", "q"),
    ];
    for (s, from, to) in cases {
        assert_eq!(text(&replace_chars(&chars(s), &chars(from), &chars(to))), s.replace(from, to), "{:?}", s);
    }
}

#[test]
fn split_and_contains_agree_with_the_standard_library() {
    for s in ["", ",", "a", "a,b", ",a,,b,", "no commas", ",,,"] {
        let expected: Vec<String> = s.split(',').map(|p| p.to_string()).collect();
        assert_eq!(texts(&split_chars(&chars(s), ',')), expected, "{:?}", s);
    }
    for (s, p) in [("abc", "b"), ("abc", "d"), ("", ""), ("abc", ""), ("aab", "ab"), ("ab", "abc")] {
        assert_eq!(contains_chars(&chars(s), &chars(p)), s.contains(p), "{:?} {:?}", s, p);
    }
    for (a, b) in [("Main.tex", "MAIN.TEX"), ("a", "b"), ("K", "\u{212A}"), ("é", "É"), ("", "")] {
        assert_eq!(same_ignoring_ascii_case(&chars(a), &chars(b)), a.eq_ignore_ascii_case(b));
    }
}
