use cloud_drive::text::{
    chars_of, decimal_text, is_white_space, parse_u128, push_decimal, push_signed_decimal,
    push_wide_decimal, same_text, trimmed_len,
};

#[test]
fn the_characters_of_a_text_come_in_order() {
    assert_eq!(chars_of(""), Vec::<char>::new());
    assert_eq!(chars_of("aé\u{1f600}"), vec!['a', 'é', '\u{1f600}']);
}

#[test]
fn texts_are_the_same_when_their_characters_are() {
    assert!(same_text("", ""));
    assert!(same_text("abc", "abc"));
    assert!(!same_text("abc", "abd"));
    assert!(!same_text("abc", "ab"));
    assert!(!same_text("ab", "abc"));
    assert!(!same_text("é", "e"));
}

#[test]
fn white_space_is_what_unicode_calls_so() {
    for c in ['\t', '\n', '\u{b}', '\u{c}', '\r', ' ', '\u{85}', '\u{a0}', '\u{1680}',
        '\u{2000}', '\u{2005}', '\u{200a}', '\u{2028}', '\u{2029}', '\u{202f}', '\u{205f}',
        '\u{3000}']
    {
        assert!(is_white_space(c), "{:?}", c);
    }
    for c in ['a', '0', '\u{8}', '\u{e}', '\u{1f}', '\u{200b}', '\u{feff}', '\u{180e}',
        '\u{2060}', '\u{3001}']
    {
        assert!(!is_white_space(c), "{:?}", c);
    }
}

#[test]
fn trimming_counts_what_lies_between_the_white_space() {
    assert_eq!(trimmed_len(""), 0);
    assert_eq!(trimmed_len("   "), 0);
    assert_eq!(trimmed_len(" a b  "), 3);
    assert_eq!(trimmed_len("ab"), 2);
    assert_eq!(trimmed_len("\n\u{3000}é\t"), 1);
}

#[test]
fn numbers_are_written_in_decimal() {
    assert_eq!(decimal_text(0), "0");
    assert_eq!(decimal_text(9), "9");
    assert_eq!(decimal_text(10), "10");
    assert_eq!(decimal_text(1234567890), "1234567890");
    assert_eq!(decimal_text(u128::MAX), "340282366920938463463374607431768211455");
    let mut s = String::from("n=");
    push_decimal(&mut s, 407);
    assert_eq!(s, "n=407");
    push_signed_decimal(&mut s, -5);
    push_signed_decimal(&mut s, 60);
    push_signed_decimal(&mut s, i32::MIN);
    assert_eq!(s, "n=407-560-2147483648");
    let mut w = String::new();
    push_wide_decimal(&mut w, i128::MIN);
    assert_eq!(w, i128::MIN.to_string());
    let mut w = String::new();
    push_wide_decimal(&mut w, -1);
    push_wide_decimal(&mut w, 0);
    push_wide_decimal(&mut w, i128::MAX);
    assert_eq!(w, format!("-10{}", i128::MAX));
}

#[test]
fn numbers_are_read_from_decimal() {
    assert_eq!(parse_u128("0"), Some(0));
    assert_eq!(parse_u128("007"), Some(7));
    assert_eq!(parse_u128("+42"), Some(42));
    assert_eq!(parse_u128("340282366920938463463374607431768211455"), Some(u128::MAX));
    assert_eq!(parse_u128("340282366920938463463374607431768211456"), None);
    assert_eq!(parse_u128("3402823669209384634633746074317682114550"), None);
    assert_eq!(parse_u128("999999999999999999999999999999999999999"), None);
    for bad in ["", "+", "-", "-1", "++1", "1+", "1 ", " 1", "12a", "a12", "1_000", "٣", "0x10"] {
        assert_eq!(parse_u128(bad), None, "{:?}", bad);
        assert_eq!(bad.parse::<u128>().ok(), None, "{:?}", bad);
    }
}

#[test]
fn what_was_written_in_decimal_is_read_back() {
    for n in [0u128, 1, 9, 10, 99, 100, 12345, u64::MAX as u128, u128::MAX - 1, u128::MAX] {
        assert_eq!(parse_u128(&decimal_text(n)), Some(n));
        assert_eq!(decimal_text(n), n.to_string());
    }
}
