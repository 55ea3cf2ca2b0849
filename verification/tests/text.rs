use dagger::text::{bool_string, chars_of, contains_string, decimal_string, lex_le_chars, lines_of, string_of, trim_string};

#[test]
fn lines_split_like_str_lines() {
    assert_eq!(lines_of("a\nb\r\nc"), vec!["a", "b", "c"]);
    assert_eq!(lines_of("a\n"), vec!["a"]);
    assert_eq!(lines_of(""), Vec::<String>::new());
    assert_eq!(lines_of("\n\nx"), vec!["", "", "x"]);
    assert_eq!(lines_of("a\r"), vec!["a\r"]);
    let text = "one\r\ntwo\n\nthree\r";
    let expected: Vec<String> = text.lines().map(|l| l.to_string()).collect();
    assert_eq!(lines_of(text), expected);
}

#[test]
fn trimming_removes_unicode_white_space_at_both_ends() {
    assert_eq!(trim_string("  hi there \t\n"), "hi there");
    assert_eq!(trim_string("\u{a0}\u{3000}x\u{2029}"), "x");
    assert_eq!(trim_string(" \r\n "), "");
    assert_eq!(trim_string("inner  space"), "inner  space");
    for s in ["", "a", " a ", "\u{85}b\u{85}", "x\u{200b}"] {
        assert_eq!(trim_string(s), s.trim());
    }
}

#[test]
fn numbers_and_booleans_are_written_as_display_writes_them() {
    assert_eq!(decimal_string(0), "0");
    assert_eq!(decimal_string(42), "42");
    assert_eq!(decimal_string(1_000_007), "1000007");
    assert_eq!(decimal_string(usize::MAX), usize::MAX.to_string());
    assert_eq!(bool_string(true), "true");
    assert_eq!(bool_string(false), "false");
}

#[test]
fn character_helpers() {
    assert_eq!(chars_of("héllo"), vec!['h', 'é', 'l', 'l', 'o']);
    assert_eq!(string_of(&vec!['a', 'ß']), "aß");
    assert!(contains_string(&vec!["a".to_string(), "b".to_string()], &"b".to_string()));
    assert!(!contains_string(&vec!["a".to_string()], &"c".to_string()));
    let a: Vec<char> = "abc".chars().collect();
    let b: Vec<char> = "abd".chars().collect();
    let p: Vec<char> = "ab".chars().collect();
    assert!(lex_le_chars(&a, &b));
    assert!(!lex_le_chars(&b, &a));
    assert!(lex_le_chars(&p, &a));
    assert!(!lex_le_chars(&a, &p));
    assert!(lex_le_chars(&a, &a));
}
