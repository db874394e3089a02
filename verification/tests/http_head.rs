use a76xx::http_head::ErrorKind;
use a76xx::{can_read_http_head, parse_http_head, HttpHeadError};

#[test]
fn it_parses_httphead_urc() {
    let original_input = "\r\n+HTTPHEAD: 67\r\nHTTP/1.1 301 Moved Permanently\r\nLocation: https://www.example.com\r\n";

    let (input, (output, len)) = parse_http_head(original_input.as_bytes()).unwrap();
    assert_eq!(
        std::str::from_utf8(output).unwrap(),
        "+HTTPHEAD: 67\r\nHTTP/1.1 301 Moved Permanently\r\nLocation: https://www.example.com"
    );
    assert_eq!(std::str::from_utf8(input).unwrap(), "");
    assert_eq!(len, 84);
}

#[test]
fn what_follows_the_message_is_handed_back() {
    let (rest, (urc, len)) = parse_http_head(b"\r\n+HTTPHEAD: 3\r\nab\nOK\r\n").unwrap();
    assert_eq!(rest, b"OK\r\n");
    assert_eq!(urc, b"+HTTPHEAD: 3\r\nab");
    assert_eq!(len, 19);
}

#[test]
fn more_input_does_not_change_a_message() {
    let (_, (first, first_len)) = parse_http_head(b"\n+HTTPHEAD: 2\r\nab").unwrap();
    let (rest, (second, second_len)) = parse_http_head(b"\n+HTTPHEAD: 2\r\nab\r\n+CPIN").unwrap();
    assert_eq!(first, second);
    assert_eq!(first_len, second_len);
    assert_eq!(rest, b"\r\n+CPIN");
}

#[test]
fn no_message_is_found_before_its_end() {
    let whole = b"\r\n+HTTPHEAD: 4\r\nabcd";
    for n in 0..whole.len() {
        assert!(can_read_http_head(&whole[..n]));
        assert!(parse_http_head(&whole[..n]).is_err());
    }
    assert!(parse_http_head(whole).is_ok());
}

#[test]
fn a_message_may_be_empty() {
    let (rest, (urc, len)) = parse_http_head(b"\r\n+HTTPHEAD: 0\r\nrest").unwrap();
    assert_eq!(rest, b"rest");
    assert_eq!(urc, b"+HTTPHEAD: 0");
    assert_eq!(len, 16);
}

#[test]
fn a_plus_sign_before_the_length_is_taken() {
    let (_, (urc, len)) = parse_http_head(b"\r\n+HTTPHEAD: +1\r\nx").unwrap();
    assert_eq!(urc, b"+HTTPHEAD: +1\r\nx");
    assert_eq!(len, 18);
}

#[test]
fn a_short_body_is_refused_at_the_body() {
    match parse_http_head(b"\r\n+HTTPHEAD: 5\r\nabc") {
        Err(HttpHeadError::Mismatch { input, code }) => {
            assert_eq!(input, b"abc");
            assert_eq!(code, ErrorKind::Eof);
        }
        other => panic!("{:?}", other),
    }
}

#[test]
fn a_missing_line_break_is_refused_at_the_start() {
    match parse_http_head(b"+HTTPHEAD: 5\r\nabcde") {
        Err(HttpHeadError::Mismatch { input, code }) => {
            assert_eq!(input, b"+HTTPHEAD: 5\r\nabcde");
            assert_eq!(code, ErrorKind::CrLf);
        }
        other => panic!("{:?}", other),
    }
    assert!(matches!(
        parse_http_head(b""),
        Err(HttpHeadError::Mismatch { input: b"", code: ErrorKind::CrLf })
    ));
}

#[test]
fn another_message_is_refused_behind_the_line_break() {
    match parse_http_head(b"\r\n+HTTPACTION: 0\r\n") {
        Err(HttpHeadError::Mismatch { input, code }) => {
            assert_eq!(input, b"+HTTPACTION: 0\r\n");
            assert_eq!(code, ErrorKind::Tag);
        }
        other => panic!("{:?}", other),
    }
}

#[test]
fn the_start_of_the_words_asks_for_the_rest() {
    assert!(matches!(parse_http_head(b"\r\n+HTT"), Err(HttpHeadError::Incomplete(5))));
    assert!(matches!(parse_http_head(b"\r\n+HTTPHEAD"), Err(HttpHeadError::Incomplete(1))));
    assert!(matches!(parse_http_head(b"\r\n"), Err(HttpHeadError::Incomplete(9))));
}

#[test]
fn an_open_first_line_is_refused() {
    match parse_http_head(b"\r\n+HTTPHEAD: 67") {
        Err(HttpHeadError::Mismatch { input, code }) => {
            assert_eq!(input, b" 67");
            assert_eq!(code, ErrorKind::TakeUntil);
        }
        other => panic!("{:?}", other),
    }
}

#[test]
fn a_line_without_a_length_cannot_be_read() {
    assert!(can_read_http_head(b"\r\n+HTTPHEAD: 67\r\n"));
    assert!(can_read_http_head(b"\r\n+CPIN"));
    assert!(!can_read_http_head(b"\r\n+HTTPHEAD:67\r\n"));
    assert!(!can_read_http_head(b"\r\n+HTTPHEAD: ab\r\n"));
    assert!(!can_read_http_head(b"\r\n+HTTPHEAD: \r\n"));
    assert!(!can_read_http_head(b"\r\n+HTTPHEAD: 99999999999999999999999\r\n"));
}

#[test]
fn either_line_break_starts_a_message() {
    let (rest, (urc, len)) = parse_http_head(b"\n+HTTPHEAD: 3\r\nabc\r\n").unwrap();
    assert_eq!(rest, b"\r\n");
    assert_eq!(urc, b"+HTTPHEAD: 3\r\nabc");
    assert_eq!(len, 18);
    let (_, (same, len)) = parse_http_head(b"\r\n+HTTPHEAD: 3\r\nabc\r\n").unwrap();
    assert_eq!(same, urc);
    assert_eq!(len, 19);
}
