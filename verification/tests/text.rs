use aether_cache::text::{decimal_bytes, eq_ignore_ascii_case, parse_i64, push_decimal, push_hex_byte, same_bytes};

#[test]
fn decimals_are_written() {
    assert_eq!(decimal_bytes(0), b"0");
    assert_eq!(decimal_bytes(1024), b"1024");
    assert_eq!(decimal_bytes(u64::MAX), b"18446744073709551615");
}

#[test]
fn decimals_read_back() {
    for n in [0i64, 1, -1, 42, -130, i64::MAX, i64::MIN] {
        let mut text = String::new();
        push_decimal(&mut text, n);
        assert_eq!(text, format!("{n}"));
        assert_eq!(parse_i64(text.as_bytes()), Some(n));
    }
}

#[test]
fn integers_are_read_as_the_standard_library_does() {
    for text in ["", "+", "-", "0", "-0", "+7", "007", "1_0", "--1", "0x1", " 1", "9223372036854775807", "9223372036854775808", "-9223372036854775808", "-9223372036854775809", "00000000000000000000000000001"] {
        assert_eq!(parse_i64(text.as_bytes()), text.parse::<i64>().ok());
    }
}

#[test]
fn bytes_are_written_in_hexadecimal() {
    let mut text = "0x".to_owned();
    push_hex_byte(&mut text, 0xa0);
    push_hex_byte(&mut text, 0x0f);
    assert_eq!(text, "0xa00f");
}

#[test]
fn words_are_compared_up_to_case() {
    assert!(eq_ignore_ascii_case(b"sEt", b"SET"));
    assert!(!eq_ignore_ascii_case(b"SET", b"SETS"));
    assert!(!eq_ignore_ascii_case(b"@", b"`"));
    assert!(!eq_ignore_ascii_case(b"[", b"{"));
    assert!(eq_ignore_ascii_case(b"", b""));
}

#[test]
fn byte_strings_are_compared() {
    assert!(same_bytes(b"", b""));
    assert!(same_bytes(b"a\x00", b"a\x00"));
    assert!(!same_bytes(b"a", b"A"));
    assert!(!same_bytes(b"a", b"ab"));
}
