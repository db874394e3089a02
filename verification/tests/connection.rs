use a76xx::modem::{pick_report, wait_for_urc};
use a76xx::{
    send_cmd, CPSIResponse, Command, Error, HttpAction, Modem, NoResponse, PppIoError, RawResponse,
    Step, SystemMode, Urc, UrcEvent,
};

fn modem() -> Modem<&'static str, u32> {
    Modem::new("power", 7)
}

fn report(system_mode: SystemMode) -> UrcEvent {
    UrcEvent::Message(Urc::CPSI(CPSIResponse {
        system_mode,
        operation_mode: heapless::String::try_from("Online").unwrap(),
    }))
}

fn other_message() -> UrcEvent {
    UrcEvent::Message(Urc::CGEV(RawResponse {
        resp: heapless::String::try_from("EPS PDN ACT 1").unwrap(),
    }))
}

fn text(command: Command<'_>) -> String {
    match command {
        Command::AT(_) => "AT".to_string(),
        Command::E0(_) => "ATE0".to_string(),
        Command::CPINQuery(_) => "AT+CPIN?".to_string(),
        Command::CPIN(c) => format!("AT+CPIN={}", c.pin),
        Command::CEREGQuery(_) => "AT+CEREG?".to_string(),
        Command::CPSIQuery(_) => "AT+CPSI?".to_string(),
        Command::CGDCONT(c) => format!("AT+CGDCONT={},{},{}", c.cid, c.pdp_type, c.apn),
        Command::ATD(c) => format!("ATD{}", c.number),
    }
}

/// Runs the steps with a modem that refuses the commands of `refused`, each once for
/// every time that it is named there, and sends the reports of `reports`.
fn drive<T>(
    mut step: Step<'_, T>,
    refused: &[&str],
    reports: Vec<UrcEvent>,
) -> (Result<T, Error>, Vec<String>) {
    let mut refused = refused.to_vec();
    let mut reports = reports.into_iter();
    let mut log = Vec::new();
    loop {
        step = match step {
            Step::Send(sending) => {
                let sent = text(sending.command());
                log.push(sent.clone());
                match refused.iter().position(|r| *r == sent) {
                    Some(i) => {
                        refused.remove(i);
                        sending.answered::<NoResponse>("Cmd", Err(atat::Error::Timeout))
                    }
                    None => sending.answered("Cmd", Ok(NoResponse)),
                }
            }
            Step::Sleep(sleeping) => {
                log.push(format!("{} ms", sleeping.millis()));
                sleeping.slept()
            }
            Step::Await(awaiting) => {
                assert_eq!(awaiting.seconds(), 60);
                awaiting.heard(reports.next().unwrap_or(UrcEvent::TimedOut))
            }
            Step::EnterDataMode(entering) => {
                log.push("data".to_string());
                entering.entered()
            }
            Step::Done(result) => return (result, log),
        };
    }
}

#[test]
fn a_willing_modem_is_connected() {
    let mut modem = modem();
    let step = modem.connect_ppp("1234", "internet", "*99#");
    let (result, log) = drive(step, &[], vec![report(SystemMode::LTE)]);
    assert_eq!(result.unwrap(), 7);
    assert_eq!(
        log,
        vec![
            "AT",
            "ATE0",
            "AT+CPIN?",
            "AT+CPIN=1234",
            "AT+CEREG?",
            "AT+CPSI?",
            "AT+CGDCONT=1,IP,internet",
            "ATD*99#",
            "data",
        ]
    );
}

#[test]
fn a_slow_modem_is_connected_too() {
    let mut modem = modem();
    let step = modem.connect_ppp("1234", "internet", "*99#");
    let (result, log) = drive(
        step,
        &["AT", "AT", "AT+CPIN?", "AT+CEREG?"],
        vec![
            other_message(),
            report(SystemMode::NoService),
            UrcEvent::Lagged(3),
            report(SystemMode::GSM),
        ],
    );
    assert_eq!(result.unwrap(), 7);
    assert_eq!(
        log,
        vec![
            "AT",
            "100 ms",
            "AT",
            "100 ms",
            "AT",
            "ATE0",
            "AT+CPIN?",
            "100 ms",
            "AT+CPIN?",
            "AT+CPIN=1234",
            "AT+CEREG?",
            "100 ms",
            "AT+CEREG?",
            "AT+CPSI?",
            "AT+CPSI?",
            "AT+CGDCONT=1,IP,internet",
            "ATD*99#",
            "data",
        ]
    );
}

#[test]
fn a_refused_command_ends_the_attempt() {
    for refused in ["ATE0", "AT+CPIN=1234", "AT+CPSI?", "AT+CGDCONT=1,IP,internet", "ATD*99#"] {
        let mut modem = modem();
        let step = modem.connect_ppp("1234", "internet", "*99#");
        let (result, log) = drive(step, &[refused], vec![report(SystemMode::LTE)]);
        assert!(matches!(
            result,
            Err(Error::AtCommandError { cmd: "Cmd", source: atat::Error::Timeout })
        ));
        assert_eq!(log.last().unwrap(), refused);
    }
}

#[test]
fn a_missing_report_ends_the_attempt() {
    let mut modem = modem();
    let step = modem.connect_ppp("1234", "internet", "*99#");
    let (result, log) = drive(step, &[], vec![other_message()]);
    assert!(matches!(result, Err(Error::WaitForUrcError)));
    assert_eq!(log.last().unwrap(), "AT+CPSI?");
}

#[test]
fn the_data_stream_is_handed_out_once() {
    let mut modem = modem();
    let first = modem.connect_ppp("1234", "internet", "*99#");
    let (result, _) = drive(first, &["ATE0"], vec![]);
    assert!(result.is_err());
    let again = modem.connect_ppp("1234", "internet", "*99#");
    let (result, log) = drive(again, &[], vec![report(SystemMode::LTE)]);
    assert!(matches!(result, Err(Error::PppAlreadyTaken)));
    assert!(log.is_empty());
}

#[test]
fn preparing_ends_before_the_call() {
    let modem = modem();
    let (result, log) = drive(modem.prepare_ppp("0000", "apn"), &[], vec![report(SystemMode::LTE)]);
    assert!(result.is_ok());
    assert_eq!(log.last().unwrap(), "AT+CGDCONT=1,IP,apn");
    assert_eq!(log.len(), 7);
}

#[test]
fn each_wait_sends_its_own_command() {
    let modem = modem();
    let (result, log) = drive(modem.wait_for_connection(), &["AT"], vec![]);
    assert!(result.is_ok());
    assert_eq!(log, vec!["AT", "100 ms", "AT"]);
    let (result, log) = drive(modem.wait_for_sim(), &["AT+CPIN?"], vec![]);
    assert!(result.is_ok());
    assert_eq!(log, vec!["AT+CPIN?", "100 ms", "AT+CPIN?"]);
    let (result, log) = drive(modem.wait_for_registration(), &["AT+CEREG?"], vec![]);
    assert!(result.is_ok());
    assert_eq!(log, vec!["AT+CEREG?", "100 ms", "AT+CEREG?"]);
}

#[test]
fn service_is_waited_for() {
    let modem = modem();
    let (result, log) = drive(
        modem.wait_for_service(),
        &[],
        vec![report(SystemMode::NoService), report(SystemMode::WCDMA)],
    );
    assert!(result.is_ok());
    assert_eq!(log, vec!["AT+CPSI?", "AT+CPSI?"]);
    let (result, _) = drive(modem.wait_for_service(), &["AT+CPSI?"], vec![]);
    assert!(matches!(result, Err(Error::AtCommandError { .. })));
    let (result, _) = drive(modem.wait_for_service(), &[], vec![report(SystemMode::NoService)]);
    assert!(matches!(result, Err(Error::WaitForUrcError)));
}

#[test]
fn a_wait_for_a_message_goes_on_until_it_is_picked() {
    assert!(wait_for_urc(pick_report, other_message()).is_none());
    assert!(wait_for_urc(pick_report, UrcEvent::Lagged(1)).is_none());
    assert!(matches!(
        wait_for_urc(pick_report, report(SystemMode::LTE)),
        Some(Ok(CPSIResponse { system_mode: SystemMode::LTE, .. }))
    ));
    assert!(matches!(
        wait_for_urc(pick_report, UrcEvent::TimedOut),
        Some(Err(Error::WaitForUrcError))
    ));
}

#[test]
fn answers_keep_the_name_of_their_command() {
    assert!(matches!(send_cmd("E0", Ok(3)), Ok(3)));
    assert!(matches!(
        send_cmd::<u8>("E0", Err(atat::Error::Parse)),
        Err(Error::AtCommandError { cmd: "E0", source: atat::Error::Parse })
    ));
}

#[test]
fn commands_carry_their_arguments() {
    let modem = modem();
    assert_eq!(modem.set_pin("1234").pin, "1234");
    assert_eq!(modem.request_baudrate(115200).rate, 115200);
    assert_eq!(modem.set_http_action(HttpAction::Get).action, HttpAction::Get);
    let param = modem.set_http_param("URL", "http://example.com");
    assert_eq!((param.param_name, param.param_value), ("URL", "http://example.com"));
    let flow = modem.set_flow_control(2, 1);
    assert_eq!((flow.by_te, flow.by_dce), (2, 1));
    assert_eq!(modem.dial("*99#").number, "*99#");
    let context = modem.define_pdp_context(1, "IP", "internet");
    assert_eq!((context.cid, context.pdp_type, context.apn), (1, "IP", "internet"));
}

#[test]
fn what_switches_the_modem_on_can_be_used() {
    let mut modem = modem();
    assert_eq!(*modem.power_on(), "power");
    *modem.power_on() = "used";
    assert_eq!(modem.power, "used");
    assert_eq!(modem.ppp_io, Some(7));
}

#[test]
fn stream_errors_have_a_text() {
    assert_eq!(PppIoError.message(), "ppp io error");
}

#[test]
fn refusals_for_any_reason_are_outlasted() {
    let mut step = modem().wait_for_sim();
    for source in [atat::Error::Timeout, atat::Error::Parse, atat::Error::Error] {
        step = match step {
            Step::Send(sending) => {
                assert_eq!(text(sending.command()), "AT+CPIN?");
                match sending.answered::<NoResponse>("Cmd", Err(source)) {
                    Step::Sleep(sleeping) => sleeping.slept(),
                    other => panic!("{:?}", other),
                }
            }
            other => panic!("{:?}", other),
        };
    }
    let (result, log) = drive(step, &[], vec![]);
    assert!(result.is_ok());
    assert_eq!(log, vec!["AT+CPIN?"]);
}

#[test]
fn a_refused_pin_is_not_tried_again() {
    let mut modem = modem();
    let step = modem.connect_ppp("1234", "internet", "*99#");
    let (result, log) = drive(step, &["AT+CPIN?", "AT+CPIN=1234"], vec![]);
    assert!(matches!(result, Err(Error::AtCommandError { .. })));
    assert_eq!(log, vec!["AT", "ATE0", "AT+CPIN?", "100 ms", "AT+CPIN?", "AT+CPIN=1234"]);
}
