use seatbelt_rs::StrExt;

#[test]
fn escapes_quotes_and_backslashes() {
    assert_eq!(r#"/odd"path\here"#.escape(), r#"/odd\"path\\here"#);
}

#[test]
fn leaves_normal_strings_untouched() {
    assert_eq!("/usr/local/bin".escape(), "/usr/local/bin");
}

#[test]
fn empty_string_stays_empty() {
    assert_eq!("".escape(), "");
}

#[test]
fn lone_backslash_is_doubled() {
    assert_eq!("\\".escape(), "\\\\");
}

#[test]
fn lone_quote_gets_a_backslash() {
    assert_eq!("\"".escape(), "\\\"");
}

#[test]
fn runs_of_specials_are_each_escaped() {
    assert_eq!(r#"\\""\"#.escape(), r#"\\\\\"\"\\"#);
}

#[test]
fn non_ascii_text_is_kept() {
    assert_eq!("/Üsers/jürgen \"ü\"".escape(), "/Üsers/jürgen \\\"ü\\\"");
}

#[test]
fn other_escape_like_characters_are_kept() {
    assert_eq!("a'b\nc\td".escape(), "a'b\nc\td");
}

#[test]
fn escaping_concatenation_is_concatenation_of_escapes() {
    let a = r#"x"y"#;
    let b = r#"\z"#;
    let joined = format!("{a}{b}");
    assert_eq!(joined.as_str().escape(), format!("{}{}", a.escape(), b.escape()));
}

#[test]
fn escaped_length_grows_by_one_per_special() {
    let s = r#"a"b\c"d"#;
    let escaped = s.escape();
    assert_eq!(escaped.chars().count(), s.chars().count() + 3);
}

#[test]
fn escaped_text_reads_back_as_original() {
    let s = r#"/odd"path\here\\"""#;
    let escaped = s.escape();
    let mut back = String::new();
    let mut chars = escaped.chars();
    while let Some(c) = chars.next() {
        if c == '\\' {
            let next = chars.next().unwrap();
            assert!(next == '\\' || next == '"');
            back.push(next);
        } else {
            assert_ne!(c, '"');
            back.push(c);
        }
    }
    assert_eq!(back, s);
}
