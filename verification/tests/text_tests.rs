use aldrava::json::JsonValue;
use aldrava::text::{quote_debug, split_words, trim_chars, trim_start_chars, push_char, push_decimal};

#[test]
fn debug_quoting_matches_format() {
    assert_eq!(quote_debug("a\"b\\c\nd"), format!("{:?}", "a\"b\\c\nd"));
    assert_eq!(quote_debug("plain"), "\"plain\"");
}

#[test]
fn pushing_characters_and_numbers() {
    let mut s = String::from("x");
    push_char(&mut s, 'é');
    push_decimal(&mut s, 0);
    push_decimal(&mut s, 18446744073709551615);
    assert_eq!(s, "xé018446744073709551615");
}

#[test]
fn unicode_whitespace_trimming_and_splitting() {
    let v: Vec<char> = "\u{a0} a\u{3000}b \t".chars().collect();
    assert_eq!(trim_chars(&v), "a\u{3000}b");
    let words = split_words(&v, 0);
    assert_eq!(words, vec!["a".to_string(), "b".to_string()]);
    assert_eq!(trim_start_chars("\n x y"), vec!['x', ' ', 'y']);
    assert_eq!(trim_chars(&[' ', ' ']), "");
}

#[test]
fn json_paths_and_duplicates() {
    let v = JsonValue::Object(vec![
        ("a".into(), JsonValue::Object(vec![("b".into(), JsonValue::String("x".into()))])),
        ("a".into(), JsonValue::Null),
        ("n".into(), JsonValue::Number(Some(5))),
    ]);
    assert_eq!(v.path_str(&["a", "b"]).map(String::as_str), Some("x"));
    assert_eq!(v.path(&["a", "c"]), None);
    assert_eq!(v.get("n").and_then(|n| n.as_u64()), Some(5));
    assert_eq!(v.get("zz"), None);
    assert_eq!(v.duplicate(), v);
}
