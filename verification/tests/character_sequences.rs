use quake_infostring::chars::{
    chars_of, collapse_doubled, is_whitespace, remove_all, split_at_each, string_of,
    trim_end_matches, trim_end_pairs, trim_matches, trim_whitespace,
};

fn chars(s: &str) -> Vec<char> {
    s.chars().collect()
}

#[test]
fn whitespace_is_what_std_calls_whitespace() {
    for n in 0..=0x10FFFFu32 {
        if let Some(c) = char::from_u32(n) {
            assert_eq!(is_whitespace(c), c.is_whitespace(), "U+{:04X}", n);
        }
    }
}

#[test]
fn whitespace_examples() {
    for c in [' ', '\t', '\n', '\u{b}', '\u{c}', '\r', '\u{85}', '\u{a0}', '\u{1680}'] {
        assert!(is_whitespace(c), "{:?}", c);
    }
    for c in ['\u{2000}', '\u{200a}', '\u{2028}', '\u{2029}', '\u{202f}', '\u{205f}', '\u{3000}'] {
        assert!(is_whitespace(c), "{:?}", c);
    }
    for c in ['a', '\\', '"', '\0', '\u{8}', '\u{e}', '\u{1f}', '!', '\u{200b}', '\u{180e}'] {
        assert!(!is_whitespace(c), "{:?}", c);
    }
}

#[test]
fn text_to_characters_and_back() {
    assert_eq!(chars_of(""), Vec::<char>::new());
    assert_eq!(chars_of("a\\ż\u{1F600}"), vec!['a', '\\', 'ż', '\u{1F600}']);
    assert_eq!(string_of(&[]), "");
    assert_eq!(string_of(&['a', '\\', 'ż', '\u{1F600}']), "a\\ż\u{1F600}");
    assert_eq!(string_of(&chars_of("zasadzka Qtv (2)")), "zasadzka Qtv (2)");
}

#[test]
fn trim_whitespace_at_both_ends() {
    assert_eq!(trim_whitespace(&chars(" \t a b \r\n")), &chars("a b")[..]);
    assert_eq!(trim_whitespace(&chars("a b")), &chars("a b")[..]);
    assert_eq!(trim_whitespace(&chars("\u{2003}x\u{3000}")), &chars("x")[..]);
    assert_eq!(trim_whitespace(&chars(" \n ")), &chars("")[..]);
    assert_eq!(trim_whitespace(&chars("")), &chars("")[..]);
    assert_eq!(trim_whitespace(&chars(" \u{200b} ")), &chars("\u{200b}")[..]);
}

#[test]
fn trim_runs_of_one_character() {
    assert_eq!(trim_end_matches(&chars(r#"\a\b\\\"#), '\\'), &chars(r#"\a\b"#)[..]);
    assert_eq!(trim_end_matches(&chars(r#"\\\"#), '\\'), &chars("")[..]);
    assert_eq!(trim_end_matches(&chars("ab"), '\\'), &chars("ab")[..]);
    assert_eq!(trim_end_matches(&chars(""), '\\'), &chars("")[..]);
    assert_eq!(trim_matches(&chars(r#"\\a\b\\\"#), '\\'), &chars(r#"a\b"#)[..]);
    assert_eq!(trim_matches(&chars(r#"\\"#), '\\'), &chars("")[..]);
    assert_eq!(trim_matches(&chars(r#"a\b"#), '\\'), &chars(r#"a\b"#)[..]);
    assert_eq!(trim_matches(&chars("xxaxx"), 'x'), &chars("a")[..]);
}

#[test]
fn trim_trailing_pairs() {
    assert_eq!(trim_end_pairs(&chars(r#"a\n"#), '\\', 'n'), &chars("a")[..]);
    assert_eq!(trim_end_pairs(&chars(r#"a\n\n\n"#), '\\', 'n'), &chars("a")[..]);
    assert_eq!(trim_end_pairs(&chars(r#"\n"#), '\\', 'n'), &chars("")[..]);
    assert_eq!(trim_end_pairs(&chars(r#"a\nn"#), '\\', 'n'), &chars(r#"a\nn"#)[..]);
    assert_eq!(trim_end_pairs(&chars(r#"a\n\"#), '\\', 'n'), &chars(r#"a\n\"#)[..]);
    assert_eq!(trim_end_pairs(&chars(r#"\n a"#), '\\', 'n'), &chars(r#"\n a"#)[..]);
    assert_eq!(trim_end_pairs(&chars("n"), '\\', 'n'), &chars("n")[..]);
    assert_eq!(trim_end_pairs(&chars("aaa"), 'a', 'a'), &chars("a")[..]);
}

#[test]
fn collapse_doubled_from_the_left() {
    assert_eq!(collapse_doubled(&chars(r#"\\a\\b"#), '\\'), chars(r#"\a\b"#));
    assert_eq!(collapse_doubled(&chars(r#"\a\b"#), '\\'), chars(r#"\a\b"#));
    assert_eq!(collapse_doubled(&chars(r#"\\\"#), '\\'), chars(r#"\\"#));
    assert_eq!(collapse_doubled(&chars(r#"\\\\"#), '\\'), chars(r#"\\"#));
    assert_eq!(collapse_doubled(&chars(r#"\\\\\"#), '\\'), chars(r#"\\\"#));
    assert_eq!(collapse_doubled(&chars("aab"), '\\'), chars("aab"));
    assert_eq!(collapse_doubled(&chars(""), '\\'), chars(""));
}

#[test]
fn remove_every_occurrence() {
    assert_eq!(remove_all(&chars(r#""a"b"""#), '"'), chars("ab"));
    assert_eq!(remove_all(&chars(r#""""#), '"'), chars(""));
    assert_eq!(remove_all(&chars("ab"), '"'), chars("ab"));
}

#[test]
fn split_at_every_occurrence() {
    assert_eq!(split_at_each(&chars(r#"a\b\c"#), '\\'), vec![chars("a"), chars("b"), chars("c")]);
    assert_eq!(split_at_each(&chars(""), '\\'), vec![chars("")]);
    assert_eq!(split_at_each(&chars("abc"), '\\'), vec![chars("abc")]);
    assert_eq!(split_at_each(&chars(r#"\"#), '\\'), vec![chars(""), chars("")]);
    assert_eq!(
        split_at_each(&chars(r#"\a\\b\"#), '\\'),
        vec![chars(""), chars("a"), chars(""), chars("b"), chars("")]
    );
    for text in ["", "a", r#"\"#, r#"a\\b\c\"#, r#"\\\"#] {
        let expected: Vec<Vec<char>> = text.split('\\').map(chars).collect();
        assert_eq!(split_at_each(&chars(text), '\\'), expected, "{:?}", text);
    }
}
