use a76xx::{
    parse_connect_success, DataMode, Mode, NoMatch, RxEvent, RxPump, TxEvent, TxPump, AT_MODE,
    AT_TX_BUF_SIZE, AT_TX_PIPE_SIZE, DATA_MODE, INGRESS_BUF_SIZE, URC_CAPACITY, URC_SUBSCRIBERS,
};

#[test]
fn a_connection_is_noticed() {
    assert_eq!(
        parse_connect_success(b"\r\nCONNECT 115200\r\n"),
        Ok((&b"\r\nCONNECT 115200\r\n"[..], 18))
    );
    assert_eq!(parse_connect_success(b"\r\nCONNECT\r\n"), Ok((&b"\r\nCONNECT\r\n"[..], 11)));
}

#[test]
fn what_stands_around_the_connection_is_told_apart() {
    let (found, len) = parse_connect_success(b"ATD*99#\r\nCONNECT\r\n~\xff}").unwrap();
    assert_eq!(found, b"ATD*99#\r\nCONNECT\r\n");
    assert_eq!(len, 18);
}

#[test]
fn a_noticed_connection_stays() {
    let (first, first_len) = parse_connect_success(b"\r\nCONNECT\r\n").unwrap();
    let (second, second_len) = parse_connect_success(b"\r\nCONNECT\r\n\r\nCONNECT\r\n").unwrap();
    assert_eq!((first, first_len), (second, second_len));
}

#[test]
fn other_lines_are_no_connection() {
    assert_eq!(parse_connect_success(b""), Err(NoMatch));
    assert_eq!(parse_connect_success(b"CONNECT\r\n"), Err(NoMatch));
    assert_eq!(parse_connect_success(b"\r\nCONNECT"), Err(NoMatch));
    assert_eq!(parse_connect_success(b"\r\nCONNECT\r"), Err(NoMatch));
    assert_eq!(parse_connect_success(b"\r\nNO CARRIER\r\n"), Err(NoMatch));
    assert_eq!(parse_connect_success(b"\r\nOK\r\n\r\nCONNECT\r\n"), Err(NoMatch));
}

#[test]
fn modes_have_their_numbers() {
    assert_eq!(Mode::AT.code(), 0);
    assert_eq!(Mode::Data.code(), 1);
    assert_eq!((AT_MODE, DATA_MODE), (0, 1));
    assert!(!DataMode { code: AT_MODE }.is_data_mode());
    assert!(DataMode { code: DATA_MODE }.is_data_mode());
    assert!(!DataMode { code: 7 }.is_data_mode());
}

#[test]
fn the_mode_changes_once() {
    let mut mode = DataMode::new_at();
    assert_eq!(mode.code, AT_MODE);
    assert!(!mode.is_data_mode());
    assert!(!mode.is_data_mode());
    for _ in 0..3 {
        mode.enter_data_mode();
        assert!(mode.is_data_mode());
        assert_eq!(mode.code, DATA_MODE);
        assert!(mode.is_data_mode());
    }
}

#[test]
fn a_change_of_the_mode_wakes_the_outgoing_pump() {
    let mut mode = DataMode::new_at();
    let turn = TxPump::run(mode);
    assert_eq!(turn.source, Mode::AT);
    mode.enter_data_mode();
    assert_eq!(turn.outgoing(b"", TxEvent::ModeChanged), None);
    let turn = TxPump::run(mode);
    assert_eq!(turn.source, Mode::Data);
    assert_eq!(turn.outgoing(b"~ppp~", TxEvent::Dequeued(5)), Some(&b"~ppp~"[..]));
}

#[test]
fn the_outgoing_pump_reads_the_pipe_of_the_mode() {
    assert_eq!(TxPump::run(DataMode { code: AT_MODE }).source, Mode::AT);
    assert_eq!(TxPump::run(DataMode { code: DATA_MODE }).source, Mode::Data);
}

#[test]
fn the_outgoing_pump_writes_what_it_read() {
    let buf = *b"AT+CPIN?\r......";
    let turn = TxPump::run(DataMode { code: AT_MODE });
    assert_eq!(turn.outgoing(&buf, TxEvent::Dequeued(9)), Some(&b"AT+CPIN?\r"[..]));
    assert_eq!(turn.outgoing(&buf, TxEvent::Dequeued(0)), Some(&b""[..]));
    assert_eq!(turn.outgoing(&buf, TxEvent::ModeChanged), None);
}

#[test]
fn commands_go_out_before_data() {
    let at = b"ATD*99#\r";
    let data = b"~ppp~";
    let mut line = Vec::new();
    for (code, n) in [(0u8, 3usize), (0, 5), (1, 1), (1, 4)] {
        let turn = TxPump::run(DataMode { code });
        let (pipe, done) = match turn.source {
            Mode::AT => (&at[..], line.len()),
            Mode::Data => (&data[..], line.len() - at.len()),
        };
        let chunk = turn.outgoing(&pipe[done..], TxEvent::Dequeued(n)).unwrap();
        line.extend_from_slice(chunk);
    }
    assert_eq!(line, b"ATD*99#\r~ppp~");
}

#[test]
fn the_incoming_pump_serves_the_users_of_the_mode() {
    assert_eq!(RxPump::run(DataMode { code: AT_MODE }).sink, Mode::AT);
    assert_eq!(RxPump::run(DataMode { code: DATA_MODE }).sink, Mode::Data);
}

#[test]
fn the_incoming_pump_hands_on_what_it_read() {
    let buf = *b"\r\nOK\r\n....";
    let turn = RxPump::run(DataMode { code: DATA_MODE });
    assert_eq!(turn.incoming(&buf, RxEvent::Received(6)), Some(&b"\r\nOK\r\n"[..]));
    assert_eq!(turn.incoming(&buf, RxEvent::Received(0)), None);
    assert_eq!(turn.incoming(&buf, RxEvent::Failed), None);
    assert_eq!(turn.incoming(&buf, RxEvent::ModeChanged), None);
    assert_eq!(turn.received(RxEvent::Received(6)), Some(6));
    assert_eq!(turn.received(RxEvent::Received(0)), None);
    assert_eq!(turn.received(RxEvent::Failed), None);
    assert_eq!(turn.received(RxEvent::ModeChanged), None);
}

#[test]
fn answers_come_in_before_data() {
    let line = b"CONNECT\r\n~ppp~";
    let (mut at, mut data) = (Vec::new(), Vec::new());
    let mut read = 0;
    let turns = [
        (0u8, RxEvent::Received(4)),
        (0, RxEvent::Failed),
        (0, RxEvent::Received(5)),
        (0, RxEvent::ModeChanged),
        (1, RxEvent::Received(0)),
        (1, RxEvent::Received(5)),
    ];
    for (code, event) in turns {
        let turn = RxPump::run(DataMode { code });
        if let Some(chunk) = turn.incoming(&line[read..], event) {
            read += chunk.len();
            match turn.sink {
                Mode::AT => at.extend_from_slice(chunk),
                Mode::Data => data.extend_from_slice(chunk),
            }
        }
    }
    assert_eq!(at, b"CONNECT\r\n");
    assert_eq!(data, b"~ppp~");
}

#[test]
fn buffers_have_their_sizes() {
    assert_eq!(AT_TX_PIPE_SIZE, 128);
    assert_eq!(AT_TX_BUF_SIZE, 128);
    assert_eq!(INGRESS_BUF_SIZE, 128);
    assert_eq!(URC_CAPACITY, 128);
    assert_eq!(URC_SUBSCRIBERS, 3);
}
