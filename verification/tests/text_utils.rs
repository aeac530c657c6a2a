use cdenv::text::{quote, split_str, sq_escape, str_eq, str_le, str_lt, trim_end, trim_end_char,
    u64_to_dec};

#[test]
fn trim_end_removes_trailing_whitespace_only() {
    assert_eq!(trim_end("  a b \t "), String::from("  a b"));
    assert_eq!(trim_end(""), String::new());
    assert_eq!(trim_end("x"), String::from("x"));
}

#[test]
fn trim_end_char_strips_one_character() {
    assert_eq!(trim_end_char("a:b::", ':'), String::from("a:b"));
    assert_eq!(trim_end_char("///", '/'), String::new());
}

#[test]
fn split_keeps_empty_segments() {
    assert_eq!(split_str("a:b", ':'), vec![String::from("a"), String::from("b")]);
    assert_eq!(
        split_str(":a::", ':'),
        vec![String::new(), String::from("a"), String::new(), String::new()]
    );
    assert_eq!(split_str("", ':'), vec![String::new()]);
}

#[test]
fn lexicographic_comparison_matches_byte_order() {
    assert!(str_lt("abc", "abd"));
    assert!(str_lt("ab", "abc"));
    assert!(!str_lt("abc", "abc"));
    assert!(str_le("abc", "abc"));
    assert!(!str_le("b", "a"));
    assert!(str_eq("same", "same"));
    assert!(!str_eq("same", "Same"));
}

#[test]
fn single_quote_escaping_closes_and_reopens() {
    assert_eq!(sq_escape("it's"), String::from("it'\\''s"));
    assert_eq!(sq_escape("a\\b"), String::from("a\\\\b"));
    assert_eq!(sq_escape("plain"), String::from("plain"));
}

#[test]
fn double_quote_rendering_escapes_quotes_and_backslashes() {
    assert_eq!(quote("a\"b"), String::from("\"a\\\"b\""));
    assert_eq!(quote("a\\b"), String::from("\"a\\\\b\""));
    assert_eq!(quote(""), String::from("\"\""));
}

#[test]
fn decimal_rendering_is_exact() {
    assert_eq!(u64_to_dec(0), String::from("0"));
    assert_eq!(u64_to_dec(7), String::from("7"));
    assert_eq!(u64_to_dec(1024), String::from("1024"));
    assert_eq!(u64_to_dec(18446744073709551615), String::from("18446744073709551615"));
}
