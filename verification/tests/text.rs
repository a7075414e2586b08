use vit::text::{chars_of, push_decimal, push_signed_decimal, remove_all, strip_quotes};
use vit::Config;

#[test]
fn decimal_numerals() {
    for (n, expected) in [
        (0u64, "0"),
        (7, "7"),
        (10, "10"),
        (909, "909"),
        (4294967295, "4294967295"),
        (18446744073709551615, "18446744073709551615"),
    ] {
        let mut out = String::from("#");
        push_decimal(&mut out, n);
        assert_eq!(out, format!("#{expected}"));
    }
}

#[test]
fn signed_decimal_numerals() {
    for n in [0i64, 5, -5, 2147483647, -2147483648] {
        let mut out = String::new();
        push_signed_decimal(&mut out, n);
        assert_eq!(out, n.to_string());
    }
}

#[test]
fn chars_of_keeps_every_character() {
    assert_eq!(chars_of("añ'x"), vec!['a', 'ñ', '\'', 'x']);
    assert!(chars_of("").is_empty());
}

#[test]
fn strip_quotes_takes_the_delimiters_only() {
    assert_eq!(strip_quotes("'abc'", '\''), "abc");
    assert_eq!(strip_quotes("'it's'", '\''), "it's");
    assert_eq!(strip_quotes("''", '\''), "");
    assert_eq!(strip_quotes("'", '\''), "'");
    assert_eq!(strip_quotes("abc", '\''), "abc");
    assert_eq!(strip_quotes("'abc", '\''), "'abc");
    assert_eq!(strip_quotes("", '\''), "");
    assert_eq!(strip_quotes("'é'", '\''), "é");
}

#[test]
fn remove_all_agrees_with_replace() {
    for (s, pattern) in [
        ("program.vit", ".vit"),
        ("a.vit.vit", ".vit"),
        (".vit", ".vit"),
        ("vit", ".vit"),
        ("", ".vit"),
        ("aaa", "aa"),
        ("ababab", "ab"),
        ("x.vi.vit.v", ".vit"),
        ("abc", ""),
        ("ñ.vitñ", ".vit"),
    ] {
        assert_eq!(remove_all(s, pattern), s.replace(pattern, ""));
    }
}

#[test]
fn config_needs_a_file_name() {
    assert!(matches!(Config::build(vec![]), Err("No input file name given.")));
    assert!(matches!(
        Config::build(vec!["vit".to_string()]),
        Err("No input file name given.")
    ));
}

#[test]
fn config_derives_the_target() {
    let config = Config::build(vec!["vit".to_string(), "even.vit".to_string()]).unwrap();
    assert_eq!(config.file_name, "even.vit");
    assert_eq!(config.target_name, "even");
}

#[test]
fn config_takes_the_target() {
    let config = Config::build(vec![
        "vit".to_string(),
        "even.vit".to_string(),
        "out.p".to_string(),
        "ignored".to_string(),
    ])
    .unwrap();
    assert_eq!(config.file_name, "even.vit");
    assert_eq!(config.target_name, "out.p");
}
