//! Bringing up the data connection, command by command.
use atat::Error as ClientError;
use vstd::prelude::*;

use crate::command::{
    Command, HttpAction, AT, ATD, CEREGQuery, CGDCONT, CPIN, CPINQuery, CPSIQuery, E0, HTTPACTION,
    HTTPHEAD, HTTPINIT, HTTPPARA, IFC, IPR, NETOPEN,
};
use crate::error::{send_cmd, Error};
use crate::message::{CPSIResponse, SystemMode, Urc};

verus! {

/// How long to wait before a command is repeated, in milliseconds.
pub const RETRY_MILLIS: u64 = 100;

/// How long to wait for the report on the network, in seconds.
pub const REPORT_SECONDS: u64 = 60;

/// What the modem has to agree to next.
#[derive(Clone, Copy, Debug)]
pub enum Stage<'s> {
    /// It answers at all.
    Connection,
    /// It does not repeat the commands that it gets.
    Echo,
    /// It has a SIM card.
    Sim,
    /// The SIM card takes this PIN.
    Pin(&'s str),
    /// It is registered with a network.
    Registration,
    /// The network serves it.
    Service,
    /// It knows the context of the data connection, which goes to this access point.
    Context(&'s str),
    /// The network takes the call to this number.
    Dial(&'s str),
}

impl<'s> Stage<'s> {
    /// The command of the stage.
    pub open spec fn request(self) -> Command<'s> {
        match self {
            Stage::Connection => Command::AT(AT),
            Stage::Echo => Command::E0(E0),
            Stage::Sim => Command::CPINQuery(CPINQuery),
            Stage::Pin(pin) => Command::CPIN(CPIN { pin }),
            Stage::Registration => Command::CEREGQuery(CEREGQuery),
            Stage::Service => Command::CPSIQuery(CPSIQuery),
            Stage::Context(apn) => Command::CGDCONT(CGDCONT { cid: 1, pdp_type: "IP", apn }),
            Stage::Dial(number) => Command::ATD(ATD { number }),
        }
    }

    /// The command of the stage.
    pub fn command(self) -> (r: Command<'s>)
        ensures
            r == self.request(),
    {
        match self {
            Stage::Connection => Command::AT(AT),
            Stage::Echo => Command::E0(E0),
            Stage::Sim => Command::CPINQuery(CPINQuery),
            Stage::Pin(pin) => Command::CPIN(CPIN { pin }),
            Stage::Registration => Command::CEREGQuery(CEREGQuery),
            Stage::Service => Command::CPSIQuery(CPSIQuery),
            Stage::Context(apn) => Command::CGDCONT(CGDCONT { cid: 1, pdp_type: "IP", apn }),
            Stage::Dial(number) => Command::ATD(ATD { number }),
        }
    }

    /// Whether the command is repeated until it is accepted.
    pub open spec fn is_repeated(self) -> bool {
        match self {
            Stage::Connection => true,
            Stage::Sim => true,
            Stage::Registration => true,
            _ => false,
        }
    }

    /// How many stages come before this one.
    pub open spec fn rank(self) -> nat {
        match self {
            Stage::Connection => 0,
            Stage::Echo => 1,
            Stage::Sim => 2,
            Stage::Pin(_) => 3,
            Stage::Registration => 4,
            Stage::Service => 5,
            Stage::Context(_) => 6,
            Stage::Dial(_) => 7,
        }
    }
}

/// How far to go.
#[derive(Clone, Copy, Debug)]
pub enum Goal<'s> {
    /// To the end of the stage.
    Stage,
    /// Until the modem is ready to dial.
    Prepare { pin: &'s str, apn: &'s str },
    /// Until the line carries the data stream.
    Connect { pin: &'s str, apn: &'s str, number: &'s str },
}

impl<'s> Goal<'s> {
    /// The stage behind `stage` on the way to the goal.
    pub open spec fn next(self, stage: Stage<'s>) -> Option<Stage<'s>> {
        match self {
            Goal::Stage => None,
            Goal::Prepare { pin, apn } => next_to_prepare(pin, apn, stage),
            Goal::Connect { pin, apn, number } => match stage {
                Stage::Context(_) => Some(Stage::Dial(number)),
                _ => next_to_prepare(pin, apn, stage),
            },
        }
    }
}

/// The stage behind `stage` on the way to a modem that is ready to dial.
pub open spec fn next_to_prepare<'s>(pin: &'s str, apn: &'s str, stage: Stage<'s>) -> Option<
    Stage<'s>,
> {
    match stage {
        Stage::Connection => Some(Stage::Echo),
        Stage::Echo => Some(Stage::Sim),
        Stage::Sim => Some(Stage::Pin(pin)),
        Stage::Pin(_) => Some(Stage::Registration),
        Stage::Registration => Some(Stage::Service),
        Stage::Service => Some(Stage::Context(apn)),
        Stage::Context(_) => None,
        Stage::Dial(_) => None,
    }
}

/// A way to a goal, and what is handed out at its end.
#[derive(Debug)]
pub struct Session<'s, T> {
    /// What the modem has to agree to next.
    pub stage: Stage<'s>,
    /// How far to go.
    pub goal: Goal<'s>,
    /// What is handed out at the end.
    pub outcome: T,
}

impl<'s, T> Session<'s, T> {
    /// What to do when the modem has agreed to the stage.
    pub open spec fn agreed(self) -> Step<'s, T> {
        match self.goal.next(self.stage) {
            Some(stage) => Step::Send(Sending { session: Session { stage, ..self } }),
            None => match self.goal {
                Goal::Connect { .. } => Step::EnterDataMode(Entering { session: self }),
                _ => Step::Done(Ok(self.outcome)),
            },
        }
    }

    /// What to do when the command of the stage was accepted.
    pub open spec fn accepted(self) -> Step<'s, T> {
        match self.stage {
            Stage::Service => Step::Await(Awaiting { session: self }),
            _ => self.agreed(),
        }
    }

    /// What to do when the command of the stage, of the given name, was refused.
    pub open spec fn refused(self, cmd: &'static str, source: ClientError) -> Step<'s, T> {
        if self.stage.is_repeated() {
            Step::Sleep(Sleeping { session: self })
        } else {
            Step::Done(Err(Error::AtCommandError { cmd, source }))
        }
    }

    /// What to do when the network was reported on.
    pub open spec fn reported(self, mode: SystemMode) -> Step<'s, T> {
        if mode == SystemMode::NoService {
            Step::Send(Sending { session: self })
        } else {
            self.agreed()
        }
    }

    /// What to do when something happened while the report was waited for.
    pub open spec fn heard(self, event: UrcEvent) -> Step<'s, T> {
        match event {
            UrcEvent::Message(Urc::CPSI(report)) => self.reported(report.system_mode),
            UrcEvent::TimedOut => Step::Done(Err(Error::WaitForUrcError)),
            _ => Step::Await(Awaiting { session: self }),
        }
    }

    /// Goes on to the next stage.
    fn advance(self) -> (r: Step<'s, T>)
        ensures
            r == self.agreed(),
    {
        let (stage, goal) = (self.stage, self.goal);
        let next = match (goal, stage) {
            (Goal::Stage, _) => None,
            (_, Stage::Connection) => Some(Stage::Echo),
            (_, Stage::Echo) => Some(Stage::Sim),
            (Goal::Prepare { pin, .. }, Stage::Sim) => Some(Stage::Pin(pin)),
            (Goal::Connect { pin, .. }, Stage::Sim) => Some(Stage::Pin(pin)),
            (_, Stage::Pin(_)) => Some(Stage::Registration),
            (_, Stage::Registration) => Some(Stage::Service),
            (Goal::Prepare { apn, .. }, Stage::Service) => Some(Stage::Context(apn)),
            (Goal::Connect { apn, .. }, Stage::Service) => Some(Stage::Context(apn)),
            (Goal::Connect { number, .. }, Stage::Context(_)) => Some(Stage::Dial(number)),
            _ => None,
        };
        match next {
            Some(stage) => Step::Send(
                Sending { session: Session { stage, goal, outcome: self.outcome } },
            ),
            None => match goal {
                Goal::Connect { .. } => Step::EnterDataMode(Entering { session: self }),
                _ => Step::Done(Ok(self.outcome)),
            },
        }
    }
}

/// What to do next.
#[derive(Debug)]
pub enum Step<'s, T> {
    /// Send a command, and say how it was answered.
    Send(Sending<'s, T>),
    /// Wait before the command is repeated.
    Sleep(Sleeping<'s, T>),
    /// Wait for the report on the network.
    Await(Awaiting<'s, T>),
    /// Let the line carry the data stream.
    EnterDataMode(Entering<'s, T>),
    /// Nothing is left to do.
    Done(Result<T, Error>),
}

/// A command is to be sent.
#[derive(Debug)]
pub struct Sending<'s, T> {
    pub session: Session<'s, T>,
}

impl<'s, T> Sending<'s, T> {
    /// The command.
    pub fn command(&self) -> (r: Command<'s>)
        ensures
            r == self.session.stage.request(),
    {
        self.session.stage.command()
    }

    /// Takes the client's answer to the command, whose name is `cmd`.
    pub fn answered<R>(self, cmd: &'static str, answer: Result<R, ClientError>) -> (r: Step<'s, T>)
        ensures
            match answer {
                Ok(_) => r == self.session.accepted(),
                Err(source) => r == self.session.refused(cmd, source),
            },
    {
        match send_cmd(cmd, answer) {
            Ok(_) => match self.session.stage {
                Stage::Service => Step::Await(Awaiting { session: self.session }),
                _ => self.session.advance(),
            },
            Err(e) => match self.session.stage {
                Stage::Connection => Step::Sleep(Sleeping { session: self.session }),
                Stage::Sim => Step::Sleep(Sleeping { session: self.session }),
                Stage::Registration => Step::Sleep(Sleeping { session: self.session }),
                _ => Step::Done(Err(e)),
            },
        }
    }
}

/// A command was refused and is to be repeated.
#[derive(Debug)]
pub struct Sleeping<'s, T> {
    pub session: Session<'s, T>,
}

impl<'s, T> Sleeping<'s, T> {
    /// How long to wait, in milliseconds.
    pub fn millis(&self) -> (r: u64)
        ensures
            r == RETRY_MILLIS,
    {
        RETRY_MILLIS
    }

    /// The wait is over.
    pub fn slept(self) -> (r: Step<'s, T>)
        ensures
            r == Step::Send(Sending { session: self.session }),
    {
        Step::Send(Sending { session: self.session })
    }
}

/// What can happen while a message is waited for.
#[derive(Debug)]
pub enum UrcEvent {
    /// A message came.
    Message(Urc),
    /// So many messages were missed.
    Lagged(u64),
    /// The time is over.
    TimedOut,
}

/// Decides what an event is to somebody who waits for a message that `f` picks.
///
/// `None` means that the wait goes on.
pub fn wait_for_urc<T, F: FnOnce(Urc) -> Option<T>>(f: F, event: UrcEvent) -> (r: Option<
    Result<T, Error>,
>)
    requires
        event matches UrcEvent::Message(urc) ==> f.requires((urc,)),
    ensures
        match event {
            UrcEvent::Message(urc) => match r {
                Some(Ok(picked)) => f.ensures((urc,), Some(picked)),
                Some(Err(_)) => false,
                None => f.ensures((urc,), None),
            },
            UrcEvent::Lagged(_) => r is None,
            UrcEvent::TimedOut => r == Some(Err::<T, Error>(Error::WaitForUrcError)),
        },
{
    match event {
        UrcEvent::Message(urc) => match f(urc) {
            Some(picked) => Some(Ok(picked)),
            None => None,
        },
        UrcEvent::Lagged(_) => None,
        UrcEvent::TimedOut => Some(Err(Error::WaitForUrcError)),
    }
}

/// Picks the report on the network.
pub fn pick_report(urc: Urc) -> (r: Option<CPSIResponse>)
    ensures
        r == match urc {
            Urc::CPSI(report) => Some(report),
            _ => None::<CPSIResponse>,
        },
{
    match urc {
        Urc::CPSI(report) => Some(report),
        _ => None,
    }
}

/// The report on the network is to be waited for.
#[derive(Debug)]
pub struct Awaiting<'s, T> {
    pub session: Session<'s, T>,
}

impl<'s, T> Awaiting<'s, T> {
    /// How long to wait in all, in seconds.
    pub fn seconds(&self) -> (r: u64)
        ensures
            r == REPORT_SECONDS,
    {
        REPORT_SECONDS
    }

    /// Takes what happened while the report was waited for.
    pub fn heard(self, event: UrcEvent) -> (r: Step<'s, T>)
        ensures
            r == self.session.heard(event),
    {
        match wait_for_urc(pick_report, event) {
            Some(Ok(report)) => if report.system_mode != SystemMode::NoService {
                self.session.advance()
            } else {
                Step::Send(Sending { session: self.session })
            },
            Some(Err(e)) => Step::Done(Err(e)),
            None => Step::Await(self),
        }
    }
}

/// The line is to carry the data stream from now on.
#[derive(Debug)]
pub struct Entering<'s, T> {
    pub session: Session<'s, T>,
}

impl<'s, T> Entering<'s, T> {
    /// The line carries the data stream.
    pub fn entered(self) -> (r: Step<'s, T>)
        ensures
            r == Step::<'s, T>::Done(Ok(self.session.outcome)),
    {
        Step::Done(Ok(self.session.outcome))
    }
}

/// The modem, as far as it decides anything: `P` switches it on, and `Io` is the data
/// stream.
#[derive(Debug)]
pub struct Modem<P, Io> {
    /// What switches the modem on.
    pub power: P,
    /// The data stream, until it is handed out.
    pub ppp_io: Option<Io>,
}

/// The first step to a goal.
pub open spec fn first_step<'s, T>(stage: Stage<'s>, goal: Goal<'s>, outcome: T) -> Step<'s, T> {
    Step::Send(Sending { session: Session { stage, goal, outcome } })
}

impl<P, Io> Modem<P, Io> {
    /// A modem whose data stream was not handed out yet.
    pub fn new(power: P, ppp_io: Io) -> (r: Self)
        ensures
            r.power == power,
            r.ppp_io == Some(ppp_io),
    {
        Modem { power, ppp_io: Some(ppp_io) }
    }

    /// What switches the modem on, to be used.
    pub fn power_on(&mut self) -> (r: &mut P)
        ensures
            *r == old(self).power,
            final(self).power == *final(r),
            final(self).ppp_io == old(self).ppp_io,
    {
        &mut self.power
    }

    /// The command that asks for the state of the SIM card.
    pub fn sim_status(&self) -> (r: CPINQuery)
        ensures
            r == CPINQuery,
    {
        CPINQuery
    }

    /// The command that gives the PIN of the SIM card.
    pub fn set_pin<'s>(&self, pin: &'s str) -> (r: CPIN<'s>)
        ensures
            r == (CPIN { pin }),
    {
        CPIN { pin }
    }

    /// Repeats an empty command until the modem accepts it.
    pub fn wait_for_connection(&self) -> (r: Step<'static, ()>)
        ensures
            r == first_step(Stage::Connection, Goal::Stage, ()),
    {
        Step::Send(
            Sending {
                session: Session { stage: Stage::Connection, goal: Goal::Stage, outcome: () },
            },
        )
    }

    /// The command that sets the speed of the serial line.
    pub fn request_baudrate(&self, rate: u32) -> (r: IPR)
        ensures
            r == (IPR { rate }),
    {
        IPR { rate }
    }

    /// The command that makes the modem stop to repeat commands.
    pub fn disable_echo(&self) -> (r: E0)
        ensures
            r == E0,
    {
        E0
    }

    /// The command that opens the network.
    pub fn open_network(&self) -> (r: NETOPEN)
        ensures
            r == NETOPEN,
    {
        NETOPEN
    }

    /// The command that asks whether the modem is registered.
    pub fn check_registration(&self) -> (r: CEREGQuery)
        ensures
            r == CEREGQuery,
    {
        CEREGQuery
    }

    /// The command that asks for a report on the network.
    pub fn check_cpsi(&self) -> (r: CPSIQuery)
        ensures
            r == CPSIQuery,
    {
        CPSIQuery
    }

    /// The command that makes an HTTP request.
    pub fn set_http_action(&self, action: HttpAction) -> (r: HTTPACTION)
        ensures
            r == (HTTPACTION { action }),
    {
        HTTPACTION { action }
    }

    /// The command that starts the HTTP service.
    pub fn init_http(&self) -> (r: HTTPINIT)
        ensures
            r == HTTPINIT,
    {
        HTTPINIT
    }

    /// The command that sets a parameter of HTTP requests.
    pub fn set_http_param<'s>(&self, param_name: &'s str, param_value: &'s str) -> (r: HTTPPARA<'s>)
        ensures
            r == (HTTPPARA { param_name, param_value }),
    {
        HTTPPARA { param_name, param_value }
    }

    /// The command that asks for the head of the HTTP response.
    pub fn head_http(&self) -> (r: HTTPHEAD)
        ensures
            r == HTTPHEAD,
    {
        HTTPHEAD
    }

    /// The command that sets the flow control of both sides.
    pub fn set_flow_control(&self, by_te: u8, by_dce: u8) -> (r: IFC)
        ensures
            r == (IFC { by_te, by_dce }),
    {
        IFC { by_te, by_dce }
    }

    /// The command that dials a number.
    pub fn dial<'s>(&self, number: &'s str) -> (r: ATD<'s>)
        ensures
            r == (ATD { number }),
    {
        ATD { number }
    }

    /// The command that defines the context of a data connection.
    pub fn define_pdp_context<'s>(&self, cid: u8, pdp_type: &'s str, apn: &'s str) -> (r: CGDCONT<
        's,
    >)
        ensures
            r == (CGDCONT { cid, pdp_type, apn }),
    {
        CGDCONT { cid, pdp_type, apn }
    }

    /// Asks for the state of the SIM card until the modem has one.
    pub fn wait_for_sim(&self) -> (r: Step<'static, ()>)
        ensures
            r == first_step(Stage::Sim, Goal::Stage, ()),
    {
        Step::Send(
            Sending { session: Session { stage: Stage::Sim, goal: Goal::Stage, outcome: () } },
        )
    }

    /// Asks for the registration until the modem is registered.
    pub fn wait_for_registration(&self) -> (r: Step<'static, ()>)
        ensures
            r == first_step(Stage::Registration, Goal::Stage, ()),
    {
        Step::Send(
            Sending {
                session: Session { stage: Stage::Registration, goal: Goal::Stage, outcome: () },
            },
        )
    }

    /// Asks for reports on the network until it serves the modem.
    pub fn wait_for_service(&self) -> (r: Step<'static, ()>)
        ensures
            r == first_step(Stage::Service, Goal::Stage, ()),
    {
        Step::Send(
            Sending { session: Session { stage: Stage::Service, goal: Goal::Stage, outcome: () } },
        )
    }

    /// Makes the modem ready to dial.
    pub fn prepare_ppp<'s>(&self, pin: &'s str, apn: &'s str) -> (r: Step<'s, ()>)
        ensures
            r == first_step(Stage::Connection, Goal::Prepare { pin, apn }, ()),
    {
        Step::Send(
            Sending {
                session: Session {
                    stage: Stage::Connection,
                    goal: Goal::Prepare { pin, apn },
                    outcome: (),
                },
            },
        )
    }

    /// The first step to a data connection, and what it leaves of the modem.
    pub open spec fn connecting<'s>(self, pin: &'s str, apn: &'s str, number: &'s str) -> (
        Modem<P, Io>,
        Step<'s, Io>,
    ) {
        (
            Modem { ppp_io: None, ..self },
            match self.ppp_io {
                Some(io) => first_step(
                    Stage::Connection,
                    Goal::Connect { pin, apn, number },
                    io,
                ),
                None => Step::Done(Err(Error::PppAlreadyTaken)),
            },
        )
    }

    /// Makes the modem ready, dials the number, and hands out the data stream.
    ///
    /// The data stream is taken at once: whatever becomes of this attempt, there is
    /// none for another.
    pub fn connect_ppp<'s>(&mut self, pin: &'s str, apn: &'s str, number: &'s str) -> (r: Step<
        's,
        Io,
    >)
        ensures
            (*final(self), r) == old(self).connecting(pin, apn, number),
            final(self).power == old(self).power,
            final(self).ppp_io is None,
            match old(self).ppp_io {
                Some(io) => r == Step::Send(
                    Sending {
                        session: Session {
                            stage: Stage::Connection,
                            goal: Goal::Connect { pin, apn, number },
                            outcome: io,
                        },
                    },
                ),
                None => r == Step::<'s, Io>::Done(Err(Error::PppAlreadyTaken)),
            },
    {
        match self.ppp_io.take() {
            Some(io) => Step::Send(
                Sending {
                    session: Session {
                        stage: Stage::Connection,
                        goal: Goal::Connect { pin, apn, number },
                        outcome: io,
                    },
                },
            ),
            None => Step::Done(Err(Error::PppAlreadyTaken)),
        }
    }
}

/// Each stage has its command, with the stage's own argument.
pub proof fn law_stage_has_its_command<'s>(stage: Stage<'s>, r: Command<'s>)
    requires
        call_ensures(Stage::<'s>::command, (stage,), r),
    ensures
        stage is Connection ==> r is AT,
        stage is Echo ==> r is E0,
        stage is Sim ==> r is CPINQuery,
        stage matches Stage::Pin(pin) ==> r matches Command::CPIN(c) && c.pin == pin,
        stage is Registration ==> r is CEREGQuery,
        stage is Service ==> r is CPSIQuery,
        stage matches Stage::Context(apn) ==> r matches Command::CGDCONT(c) && c.cid == 1
            && c.pdp_type == "IP" && c.apn == apn,
        stage matches Stage::Dial(number) ==> r matches Command::ATD(c) && c.number == number,
{
}

/// A command is built from what it was asked for, and from nothing else.
pub proof fn law_commands_carry_their_arguments<'s, P, Io>(
    modem: Modem<P, Io>,
    pin: &'s str,
    number: &'s str,
    name: &'s str,
    value: &'s str,
    rate: u32,
    by_te: u8,
    by_dce: u8,
    cid: u8,
    action: HttpAction,
    set_pin: CPIN<'s>,
    dial: ATD<'s>,
    param: HTTPPARA<'s>,
    baudrate: IPR,
    flow: IFC,
    context: CGDCONT<'s>,
    http: HTTPACTION,
)
    requires
        call_ensures(Modem::<P, Io>::set_pin, (&modem, pin), set_pin),
        call_ensures(Modem::<P, Io>::dial, (&modem, number), dial),
        call_ensures(Modem::<P, Io>::set_http_param, (&modem, name, value), param),
        call_ensures(Modem::<P, Io>::request_baudrate, (&modem, rate), baudrate),
        call_ensures(Modem::<P, Io>::set_flow_control, (&modem, by_te, by_dce), flow),
        call_ensures(Modem::<P, Io>::define_pdp_context, (&modem, cid, name, value), context),
        call_ensures(Modem::<P, Io>::set_http_action, (&modem, action), http),
    ensures
        set_pin.pin == pin,
        dial.number == number,
        param.param_name == name,
        param.param_value == value,
        baudrate.rate == rate,
        flow.by_te == by_te,
        flow.by_dce == by_dce,
        context.cid == cid,
        context.pdp_type == name,
        context.apn == value,
        http.action == action,
{
}

/// A new modem has what switches it on and the data stream that it was given.
pub proof fn law_new_modem<P, Io>(power: P, io: Io, r: Modem<P, Io>)
    requires
        call_ensures(Modem::<P, Io>::new, (power, io), r),
    ensures
        r.power == power,
        r.ppp_io == Some(io),
{
}

/// An attempt to connect takes the data stream, and leaves what switches the modem on. It
/// starts with the first stage and goes for a connection with the PIN, the access point and
/// the number that were given, at whose end the data stream is handed out; without a data
/// stream it is over at once.
pub proof fn law_attempt_is_for_what_was_given<'s, P, Io>(
    modem: Modem<P, Io>,
    pin: &'s str,
    apn: &'s str,
    number: &'s str,
)
    ensures
        modem.connecting(pin, apn, number).0.power == modem.power,
        modem.connecting(pin, apn, number).0.ppp_io is None,
        modem.ppp_io is None ==> modem.connecting(pin, apn, number).1 == Step::<'s, Io>::Done(
            Err(Error::PppAlreadyTaken),
        ),
        modem.ppp_io matches Some(io) ==> {
            &&& modem.connecting(pin, apn, number).1 matches Step::Send(s)
            &&& s.session.stage is Connection
            &&& s.session.outcome == io
            &&& s.session.goal matches Goal::Connect { pin: p, apn: a, number: n }
            &&& p == pin
            &&& a == apn
            &&& n == number
        },
{
}

/// Each wait starts with its own stage and ends with it; a preparation starts with the
/// first stage and has the PIN and the access point that were given.
pub proof fn law_waits_start_at_their_stages<'s, P, Io>(
    modem: Modem<P, Io>,
    pin: &'s str,
    apn: &'s str,
    connection: Step<'static, ()>,
    sim: Step<'static, ()>,
    registration: Step<'static, ()>,
    service: Step<'static, ()>,
    prepare: Step<'s, ()>,
)
    requires
        call_ensures(Modem::<P, Io>::wait_for_connection, (&modem,), connection),
        call_ensures(Modem::<P, Io>::wait_for_sim, (&modem,), sim),
        call_ensures(Modem::<P, Io>::wait_for_registration, (&modem,), registration),
        call_ensures(Modem::<P, Io>::wait_for_service, (&modem,), service),
        call_ensures(Modem::<P, Io>::prepare_ppp, (&modem, pin, apn), prepare),
    ensures
        connection matches Step::Send(s) && s.session.stage is Connection && s.session.goal
            is Stage,
        sim matches Step::Send(s) && s.session.stage is Sim && s.session.goal is Stage,
        registration matches Step::Send(s) && s.session.stage is Registration && s.session.goal
            is Stage,
        service matches Step::Send(s) && s.session.stage is Service && s.session.goal is Stage,
        prepare matches Step::Send(s) && s.session.stage is Connection && s.session.goal == (
        Goal::Prepare { pin, apn }),
{
}

/// A step begins where it is told to.
pub proof fn law_first_step<'s, T>(stage: Stage<'s>, goal: Goal<'s>, outcome: T)
    ensures
        first_step(stage, goal, outcome) matches Step::Send(s) && s.session.stage == stage
            && s.session.goal == goal && s.session.outcome == outcome,
{
}

/// The commands that ask whether the modem is there, has a SIM card or is registered are
/// repeated, and no others.
pub proof fn law_repeated_stages<'s>(stage: Stage<'s>)
    ensures
        stage.is_repeated() <==> stage is Connection || stage is Sim || stage is Registration,
{
}

/// A report is picked from a message about the network, as it came, and from no other.
pub proof fn law_report_is_picked(urc: Urc, r: Option<CPSIResponse>)
    requires
        call_ensures(pick_report, (urc,), r),
    ensures
        r is Some <==> urc is CPSI,
        r matches Some(report) ==> urc->CPSI_0 == report,
{
}

/// Waits have their lengths, whatever is waited for.
pub proof fn law_waits_have_their_lengths<'s, T>(
    sleeping: Sleeping<'s, T>,
    awaiting: Awaiting<'s, T>,
    millis: u64,
    seconds: u64,
)
    requires
        call_ensures(Sleeping::<'s, T>::millis, (&sleeping,), millis),
        call_ensures(Awaiting::<'s, T>::seconds, (&awaiting,), seconds),
    ensures
        millis == 100,
        seconds == 60,
{
}

/// A wait for a message ends with the first message that is picked, and with what was picked
/// from it; it fails when the time is over, and on nothing else.
pub proof fn law_wait_ends_with_the_picked_message<T, F: FnOnce(Urc) -> Option<T>>(
    f: F,
    event: UrcEvent,
    r: Option<Result<T, Error>>,
)
    requires
        call_ensures(wait_for_urc::<T, F>, (f, event), r),
    ensures
        r matches Some(Err(_)) <==> event is TimedOut,
        r matches Some(Err(e)) ==> e is WaitForUrcError,
        r matches Some(Ok(picked)) ==> event matches UrcEvent::Message(urc) && f.ensures(
            (urc,),
            Some(picked),
        ),
        r is None && event is Message ==> f.ensures((event->Message_0,), None),
{
}

} // verus!
