use std::fmt;

use a76xx::{
    parse_http_head, CPSIResponse, HttpHeadResponse, IncorrectMode, LengthDelimited,
    LengthDelimitedError, LengthDelimitedVisitor, ModeVisitor, RawResponse, SystemMode, Urc,
};
use atat::serde_at::serde::de::{Error, SeqAccess, Visitor};
use atat::serde_at::serde::{Deserialize, Deserializer};

struct Mode(SystemMode);

struct ModeReader;

impl<'de> Visitor<'de> for ModeReader {
    type Value = Mode;

    fn expecting(&self, formatter: &mut fmt::Formatter<'_>) -> fmt::Result {
        formatter.write_str(ModeVisitor.expecting())
    }

    fn visit_bytes<E: Error>(self, v: &[u8]) -> Result<Mode, E> {
        ModeVisitor
            .visit_bytes(v)
            .map(Mode)
            .map_err(|e| E::custom(e.message()))
    }
}

impl<'de> Deserialize<'de> for Mode {
    fn deserialize<D: Deserializer<'de>>(deserializer: D) -> Result<Self, D::Error> {
        deserializer.deserialize_bytes(ModeReader)
    }
}

struct Body(LengthDelimited<512, 2>);

struct BodyReader;

impl<'de> Visitor<'de> for BodyReader {
    type Value = Body;

    fn expecting(&self, formatter: &mut fmt::Formatter<'_>) -> fmt::Result {
        formatter.write_str(LengthDelimitedVisitor::<512, 2>.expecting())
    }

    fn visit_bytes<E: Error>(self, v: &[u8]) -> Result<Body, E> {
        let visitor = LengthDelimitedVisitor::<512, 2>;
        assert!(visitor.can_visit(v));
        visitor
            .visit_bytes(v)
            .map(Body)
            .map_err(|e| E::custom(e.message()))
    }
}

impl<'de> Deserialize<'de> for Body {
    fn deserialize<D: Deserializer<'de>>(deserializer: D) -> Result<Self, D::Error> {
        deserializer.deserialize_tuple(2, BodyReader)
    }
}

struct Report(CPSIResponse);

struct ReportReader;

impl<'de> Visitor<'de> for ReportReader {
    type Value = Report;

    fn expecting(&self, formatter: &mut fmt::Formatter<'_>) -> fmt::Result {
        formatter.write_str("a report")
    }

    fn visit_seq<A: SeqAccess<'de>>(self, mut seq: A) -> Result<Report, A::Error> {
        let Mode(system_mode) = seq.next_element()?.ok_or_else(|| A::Error::custom("mode"))?;
        let operation_mode = seq.next_element()?.ok_or_else(|| A::Error::custom("operation"))?;
        Ok(Report(CPSIResponse { system_mode, operation_mode }))
    }
}

impl<'de> Deserialize<'de> for Report {
    fn deserialize<D: Deserializer<'de>>(deserializer: D) -> Result<Self, D::Error> {
        deserializer.deserialize_struct("Report", &["system_mode", "operation_mode"], ReportReader)
    }
}

struct Head(HttpHeadResponse);

struct HeadReader;

impl<'de> Visitor<'de> for HeadReader {
    type Value = Head;

    fn expecting(&self, formatter: &mut fmt::Formatter<'_>) -> fmt::Result {
        formatter.write_str("a head")
    }

    fn visit_seq<A: SeqAccess<'de>>(self, mut seq: A) -> Result<Head, A::Error> {
        let Body(body) = seq.next_element()?.ok_or_else(|| A::Error::custom("body"))?;
        Ok(Head(HttpHeadResponse { body }))
    }
}

impl<'de> Deserialize<'de> for Head {
    fn deserialize<D: Deserializer<'de>>(deserializer: D) -> Result<Self, D::Error> {
        deserializer.deserialize_struct("Head", &["body"], HeadReader)
    }
}

#[test]
fn it_deserializes_httphead_urc() {
    let urc =
        b"+HTTPHEAD: 67\r\nHTTP/1.1 301 Moved Permanently\r\nLocation: https://www.example.com";
    let Head(result) = atat::serde_at::from_slice(urc).unwrap();
    assert_eq!(result.body.len, 65);
    assert_eq!(
        &result.body.bytes[..],
        &b"HTTP/1.1 301 Moved Permanently\r\nLocation: https://www.example.com"[..]
    );
}

#[test]
fn it_deserializes_cpsi_urc() {
    let urc = b"+CPSI: LTE,Online";
    let Report(result) = atat::serde_at::from_slice(urc).unwrap();
    assert_eq!(result.system_mode, SystemMode::LTE);
    assert_eq!(result.operation_mode.as_str(), "Online");
}

#[test]
fn an_unknown_mode_is_not_deserialized() {
    let result: Result<Report, _> = atat::serde_at::from_slice(b"+CPSI: NR5G,Online");
    assert!(result.is_err());
}

#[test]
fn every_mode_is_read_by_its_name() {
    assert_eq!(ModeVisitor.visit_bytes(b"NO SERVICE"), Ok(SystemMode::NoService));
    assert_eq!(ModeVisitor.visit_bytes(b"GSM"), Ok(SystemMode::GSM));
    assert_eq!(ModeVisitor.visit_bytes(b"WCDMA"), Ok(SystemMode::WCDMA));
    assert_eq!(ModeVisitor.visit_bytes(b"LTE"), Ok(SystemMode::LTE));
}

#[test]
fn other_names_are_no_modes() {
    assert_eq!(ModeVisitor.visit_bytes(b""), Err(IncorrectMode));
    assert_eq!(ModeVisitor.visit_bytes(b"lte"), Err(IncorrectMode));
    assert_eq!(ModeVisitor.visit_bytes(b"LTE "), Err(IncorrectMode));
    assert_eq!(ModeVisitor.visit_bytes(b"NO"), Err(IncorrectMode));
    assert_eq!(IncorrectMode.message(), "incorrect mode");
    assert_eq!(ModeVisitor.expecting(), "system mode string");
}

#[test]
fn a_payload_is_read_behind_its_length() {
    let read = LengthDelimitedVisitor::<8, 1>.visit_bytes(b"4,ABCD").unwrap();
    assert_eq!(read.len, 4);
    assert_eq!(&read.bytes[..], b"ABCD");
    let read = LengthDelimitedVisitor::<8, 1>.visit_bytes(b"4,ABCDEF").unwrap();
    assert_eq!(read.len, 4);
    assert_eq!(&read.bytes[..], b"ABCD");
}

#[test]
fn a_payload_may_be_empty() {
    let read = LengthDelimitedVisitor::<8, 1>.visit_bytes(b"0,").unwrap();
    assert_eq!(read.len, 0);
    assert_eq!(&read.bytes[..], b"");
    let read = LengthDelimitedVisitor::<8, 1>.visit_bytes(b"0,\"\"").unwrap();
    assert_eq!(read.len, 0);
    assert_eq!(&read.bytes[..], b"");
}

#[test]
fn a_line_break_before_the_payload_is_counted() {
    let read = LengthDelimitedVisitor::<8, 2>.visit_bytes(b"6\r\nABCD").unwrap();
    assert_eq!(read.len, 4);
    assert_eq!(&read.bytes[..], b"ABCD");
    let read = LengthDelimitedVisitor::<8, 2>.visit_bytes(b"2\r\n").unwrap();
    assert_eq!(read.len, 0);
    assert!(!LengthDelimitedVisitor::<8, 2>.can_visit(b"1\r\nABCD"));
    assert!(!LengthDelimitedVisitor::<8, 2>.can_visit(b"7\r\nABCD"));
}

#[test]
fn quotes_around_a_payload_are_left_out() {
    let read = LengthDelimitedVisitor::<8, 1>.visit_bytes(b"4,\"ABCD\"").unwrap();
    assert_eq!(read.len, 4);
    assert_eq!(&read.bytes[..], b"ABCD");
    let read = LengthDelimitedVisitor::<8, 1>.visit_bytes(b"4,\"ABCD\"more").unwrap();
    assert_eq!(&read.bytes[..], b"ABCD");
    let read = LengthDelimitedVisitor::<8, 1>.visit_bytes(b"4,\"ABCDE").unwrap();
    assert_eq!(&read.bytes[..], b"\"ABC");
}

#[test]
fn digits_alone_are_no_payload() {
    let read = LengthDelimitedVisitor::<8, 1>.visit_bytes(b"44");
    assert_eq!(read.unwrap_err(), LengthDelimitedError::ExpectedComma);
    let read = LengthDelimitedVisitor::<8, 1>.visit_bytes(b"");
    assert_eq!(read.unwrap_err(), LengthDelimitedError::ExpectedComma);
    assert_eq!(LengthDelimitedError::ExpectedComma.message(), "expected a comma");
}

#[test]
fn a_payload_needs_a_length() {
    let read = LengthDelimitedVisitor::<8, 1>.visit_bytes(b",ABCD");
    assert_eq!(read.unwrap_err(), LengthDelimitedError::ExpectedUnsignedInt);
    let read = LengthDelimitedVisitor::<8, 1>.visit_bytes(b"99999999999999999999999,A");
    assert_eq!(read.unwrap_err(), LengthDelimitedError::ExpectedUnsignedInt);
    assert_eq!(
        LengthDelimitedError::ExpectedUnsignedInt.message(),
        "expected an unsigned int"
    );
}

#[test]
fn a_payload_needs_room() {
    let read = LengthDelimitedVisitor::<4, 1>.visit_bytes(b"4,ABCD").unwrap();
    assert_eq!(&read.bytes[..], b"ABCD");
    let read = LengthDelimitedVisitor::<3, 1>.visit_bytes(b"4,ABCD");
    assert_eq!(read.unwrap_err(), LengthDelimitedError::IncorrectSliceSize);
    assert_eq!(LengthDelimitedError::IncorrectSliceSize.message(), "incorrect slice size");
}

#[test]
fn a_payload_lies_within_its_bytes() {
    let visitor = LengthDelimitedVisitor::<8, 1>;
    assert!(visitor.can_visit(b"4,ABCD"));
    assert!(visitor.can_visit(b"0,"));
    assert!(visitor.can_visit(b"0,ABCD"));
    assert!(!visitor.can_visit(b"1,"));
    assert!(!visitor.can_visit(b"5,ABCD"));
    assert!(visitor.can_visit(b"44"));
    assert!(visitor.can_visit(b",ABCD"));
    assert_eq!(visitor.expecting(), "length delimited bytes, e.g.: \"4,ABCD\"");
}

#[test]
fn the_body_of_a_head_is_read_from_the_line() {
    let (_, (urc, _)) = parse_http_head(b"\r\n+HTTPHEAD: 9\r\nHTTP 200\n\r\nOK\r\n").unwrap();
    assert_eq!(urc, b"+HTTPHEAD: 9\r\nHTTP 200");
    let (_, (urc, _)) = parse_http_head(b"\r\n+HTTPHEAD: 10\r\nHTTP 200\r\nOK\r\n").unwrap();
    let Head(head) = atat::serde_at::from_slice(urc).unwrap();
    assert_eq!(head.body.len, 8);
    assert_eq!(&head.body.bytes[..], b"HTTP 200");
}

#[test]
fn copies_of_messages_are_equal() {
    let raw = RawResponse { resp: heapless::String::try_from("READY").unwrap() };
    assert_eq!(raw.clone().resp.as_str(), "READY");

    let report = CPSIResponse {
        system_mode: SystemMode::GSM,
        operation_mode: heapless::String::try_from("Online").unwrap(),
    };
    let copy = report.clone();
    assert_eq!(copy.system_mode, SystemMode::GSM);
    assert_eq!(copy.operation_mode.as_str(), "Online");

    let body = LengthDelimitedVisitor::<512, 2>.visit_bytes(b"6::ABCD").unwrap();
    let head = HttpHeadResponse { body }.clone();
    assert_eq!(head.body.len, 4);
    assert_eq!(&head.body.bytes[..], b"ABCD");

    match Urc::HTTPHEAD(head).clone() {
        Urc::HTTPHEAD(copy) => assert_eq!(&copy.body.bytes[..], b"ABCD"),
        other => panic!("{:?}", other),
    }
    match Urc::CPSI(report).clone() {
        Urc::CPSI(copy) => assert_eq!(copy.operation_mode.as_str(), "Online"),
        other => panic!("{:?}", other),
    }
    assert!(matches!(Urc::SMSDONE(raw.clone()).clone(), Urc::SMSDONE(_)));
    assert!(matches!(Urc::CPIN(raw).clone(), Urc::CPIN(_)));
}
