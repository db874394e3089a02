use a76xx::bytes::{equals, find_byte, find_crlf, find_non_digit, parse_signed_len, starts_with};
use a76xx::{parse_len, trim_ascii_whitespace};

#[test]
fn trim_takes_whitespace_from_both_ends() {
    assert_eq!(trim_ascii_whitespace(b" \t\r\n\x0c+CPIN: READY \r\n"), b"+CPIN: READY");
    assert_eq!(trim_ascii_whitespace(b"a b"), b"a b");
    assert_eq!(trim_ascii_whitespace(b"x"), b"x");
}

#[test]
fn trim_leaves_nothing_of_blank_bytes() {
    assert_eq!(trim_ascii_whitespace(b""), b"");
    assert_eq!(trim_ascii_whitespace(b" \r\n\t "), b"");
}

#[test]
fn trim_keeps_the_vertical_tab() {
    assert_eq!(trim_ascii_whitespace(b"\x0b1 "), b"\x0b1");
}

#[test]
fn trim_twice_is_trim_once() {
    let once = trim_ascii_whitespace(b"  67 ");
    assert_eq!(trim_ascii_whitespace(once), once);
}

#[test]
fn parse_len_reads_digits_only() {
    assert_eq!(parse_len(b"0"), Ok(0));
    assert_eq!(parse_len(b"67"), Ok(67));
    assert_eq!(parse_len(b"007"), Ok(7));
    assert_eq!(parse_len(b""), Err(()));
    assert_eq!(parse_len(b"+5"), Err(()));
    assert_eq!(parse_len(b"-5"), Err(()));
    assert_eq!(parse_len(b" 5"), Err(()));
    assert_eq!(parse_len(b"5a"), Err(()));
    assert_eq!(parse_len(&[0xff, 0xfe]), Err(()));
}

#[test]
fn parse_len_refuses_what_does_not_fit() {
    let max = usize::MAX.to_string();
    assert_eq!(parse_len(max.as_bytes()), Ok(usize::MAX));
    assert_eq!(parse_len(b"99999999999999999999999999"), Err(()));
    assert_eq!(parse_len(b"18446744073709551616"), Err(()));
}

#[test]
fn parse_signed_len_takes_one_plus_sign() {
    assert_eq!(parse_signed_len(b"+12"), Ok(12));
    assert_eq!(parse_signed_len(b"12"), Ok(12));
    assert_eq!(parse_signed_len(b"++12"), Err(()));
    assert_eq!(parse_signed_len(b"+"), Err(()));
    assert_eq!(parse_signed_len(b"-12"), Err(()));
}

#[test]
fn searches_find_the_first_place() {
    assert_eq!(find_byte(b"+HTTPHEAD: 67", b' '), Some(10));
    assert_eq!(find_byte(b"abc", b'x'), None);
    assert_eq!(find_non_digit(b"67,x"), Some(2));
    assert_eq!(find_non_digit(b"67"), None);
    assert_eq!(find_crlf(b"a\rb\r\n\r\n"), Some(3));
    assert_eq!(find_crlf(b"\n\r"), None);
    assert_eq!(find_crlf(b"\r"), None);
}

#[test]
fn words_are_compared_byte_by_byte() {
    assert!(starts_with(b"CONNECT 115200", "CONNECT"));
    assert!(!starts_with(b"CONNEC", "CONNECT"));
    assert!(!starts_with(b"CONNECX", "CONNECT"));
    assert!(equals(b"LTE", "LTE"));
    assert!(!equals(b"LTE ", "LTE"));
    assert!(!equals(b"LT", "LTE"));
}
