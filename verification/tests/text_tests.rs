use lib::text::{
    append_str, chars_of, contains_str, escape_newlines_of, is_whitespace, owned, parse_i32,
    parse_u64, split_on, starts_with, str_eq, string_from_chars, string_from_range, u128_to_hex, u64_to_string, unescape_newlines_of, utf8_len,
};

#[test]
fn whitespace_matches_char_is_whitespace() {
    for c in [' ', '\t', '\n', '\r', '\u{b}', '\u{c}', '\u{85}', '\u{a0}', '\u{1680}', '\u{2000}',
        '\u{200a}', '\u{2028}', '\u{2029}', '\u{202f}', '\u{205f}', '\u{3000}', 'a', '"', '\u{200b}', '0']
    {
        assert_eq!(is_whitespace(c), c.is_whitespace(), "{c:?}");
    }
}

#[test]
fn string_building_helpers() {
    let mut s = owned("abé");
    append_str(&mut s, "cd");
    assert_eq!(s, "abécd");
    assert_eq!(utf8_len(&s), 6);
    let v = chars_of("héllo");
    assert_eq!(v, vec!['h', 'é', 'l', 'l', 'o']);
    assert_eq!(string_from_range(&v, 1, 3), "él");
    assert_eq!(string_from_range(&v, 2, 2), "");
    assert_eq!(string_from_chars(&v), "héllo");
    assert!(str_eq("x", "x"));
    assert!(!str_eq("x", "y"));
}

#[test]
fn decimal_and_hexadecimal_formatting() {
    assert_eq!(u64_to_string(0), "0");
    assert_eq!(u64_to_string(1234567890), "1234567890");
    assert_eq!(u64_to_string(u64::MAX), u64::MAX.to_string());
    assert_eq!(u128_to_hex(0), "0");
    assert_eq!(u128_to_hex(255), "ff");
    assert_eq!(u128_to_hex(0x1a2b3c), "1a2b3c");
    assert_eq!(u128_to_hex(u128::MAX), format!("{:x}", u128::MAX));
}

#[test]
fn parsing_numbers_as_str_parse_does() {
    for s in ["0", "42", "+7", "18446744073709551615", "18446744073709551616", "", "+", "-1", "1a", " 1"] {
        assert_eq!(parse_u64(s), s.parse::<u64>().ok(), "{s:?}");
    }
    for s in ["0", "-0", "+5", "-2147483648", "2147483647", "2147483648", "-2147483649", "", "-", "x"] {
        assert_eq!(parse_i32(s), s.parse::<i32>().ok(), "{s:?}");
    }
}

#[test]
fn splitting_on_a_separator() {
    assert_eq!(split_on("a|b||c", '|'), vec!["a", "b", "", "c"]);
    assert_eq!(split_on("", '|'), vec![""]);
    assert_eq!(split_on("|", '|'), vec!["", ""]);
    assert_eq!(split_on("abc", ':'), vec!["abc"]);
}

#[test]
fn newline_escaping() {
    assert_eq!(escape_newlines_of("a\nb\n"), "a\\nb\\n");
    assert_eq!(unescape_newlines_of("a\\nb\\n"), "a\nb\n");
    assert_eq!(unescape_newlines_of("\\\\n"), "\\\n");
    assert_eq!(unescape_newlines_of("\\"), "\\");
    assert_eq!(unescape_newlines_of(&escape_newlines_of("x\ny")), "x\ny");
}

#[test]
fn prefix_and_infix() {
    assert!(starts_with("200 Login OK", "200"));
    assert!(starts_with("abc", ""));
    assert!(!starts_with("ab", "abc"));
    assert!(contains_str("404 Not Found: User", "User"));
    assert!(!contains_str("404 Not Found", "Team"));
    assert!(contains_str("x", ""));
}
