use quake_infostring::parse_fields;

#[test]
fn test_parse_fields() {
    assert_eq!(
        parse_fields(r#"qtv 1 "zasadzka Qtv (2)" "2@zasadzka.pl:28000" 2"#),
        vec![
            "qtv".to_string(),
            "1".to_string(),
            "zasadzka Qtv (2)".to_string(),
            "2@zasadzka.pl:28000".to_string(),
            "2".to_string(),
        ]
    );
    assert_eq!(
        parse_fields(r#"24 S 0 667 "[ServeMe]" "" 12 11 "lqwc" """#),
        vec![
            "24".to_string(),
            "S".to_string(),
            "0".to_string(),
            "667".to_string(),
            "[ServeMe]".to_string(),
            "".to_string(),
            "12".to_string(),
            "11".to_string(),
            "lqwc".to_string(),
            "".to_string(),
        ]
    );
}

#[test]
fn fields_of_empty_line() {
    assert_eq!(parse_fields(""), vec!["".to_string()]);
}

#[test]
fn fields_with_open_quote() {
    assert_eq!(parse_fields(r#"a "b c"#), vec!["a".to_string(), "b c".to_string()]);
    assert_eq!(parse_fields(r#"""#), vec!["".to_string()]);
    assert_eq!(parse_fields(r#"a" b"#), vec!["a b".to_string()]);
    assert_eq!(parse_fields(r#"a b" "#), vec!["a".to_string(), "b ".to_string()]);
}

#[test]
fn every_separator_closes_a_field() {
    assert_eq!(parse_fields(" "), vec!["".to_string(), "".to_string()]);
    assert_eq!(
        parse_fields("a  b "),
        vec!["a".to_string(), "".to_string(), "b".to_string(), "".to_string()]
    );
    assert_eq!(parse_fields(" a"), vec!["".to_string(), "a".to_string()]);
}

#[test]
fn quotes_join_without_separating() {
    assert_eq!(parse_fields(r#"ab"cd"ef"#), vec!["abcdef".to_string()]);
    assert_eq!(parse_fields(r#""a b""c d""#), vec!["a bc d".to_string()]);
    assert_eq!(parse_fields(r#""" """#), vec!["".to_string(), "".to_string()]);
}

#[test]
fn only_the_space_separates() {
    assert_eq!(parse_fields("a\tb\nc"), vec!["a\tb\nc".to_string()]);
    assert_eq!(parse_fields("a\u{a0}b c"), vec!["a\u{a0}b".to_string(), "c".to_string()]);
    assert_eq!(parse_fields(r#"a\b c"#), vec![r#"a\b"#.to_string(), "c".to_string()]);
}

#[test]
fn one_field_more_than_separators_outside_quotes() {
    // Spaces: two outside quotes, three inside.
    let line = r#"say "gg wp all" now "x y"#;
    let outside = 3;
    assert_eq!(parse_fields(line).len(), outside + 1);
    assert_eq!(
        parse_fields(line),
        vec!["say".to_string(), "gg wp all".to_string(), "now".to_string(), "x y".to_string()]
    );
    for line in ["", " ", "  ", "a b c", r#"" ""#, r#"" " "#, r#"a "b c" d "e f"#] {
        let mut quoted = false;
        let mut separators = 0;
        for c in line.chars() {
            if c == '"' {
                quoted = !quoted;
            } else if c == ' ' && !quoted {
                separators += 1;
            }
        }
        assert_eq!(parse_fields(line).len(), separators + 1, "{:?}", line);
    }
}
