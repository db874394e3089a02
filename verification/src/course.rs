//! What holds of every course that the way to a data connection can take.
use atat::Error as ClientError;
use vstd::prelude::*;

use crate::command::{
    Command, AT, ATD, CEREGQuery, CGDCONT, CPIN, CPINQuery, CPSIQuery, E0,
};
use crate::error::Error;
use crate::message::{SystemMode, Urc};
use crate::modem;
use crate::modem::{Awaiting, Goal, Modem, Sending, Session, Sleeping, Stage, Step, UrcEvent};

verus! {

/// What can happen to a step.
pub ghost enum Event {
    /// The command was accepted.
    Accepted,
    /// The command of this name was refused.
    Refused { cmd: &'static str, source: ClientError },
    /// The wait before the command is repeated is over.
    Slept,
    /// Something happened while the report was waited for.
    Heard(UrcEvent),
    /// The line carries the data stream.
    Entered,
}

/// The step behind `step` when `event` happened, if that can happen to it.
pub open spec fn after<'s, T>(step: Step<'s, T>, event: Event) -> Option<Step<'s, T>> {
    match (step, event) {
        (Step::Send(s), Event::Accepted) => Some(s.session.accepted()),
        (Step::Send(s), Event::Refused { cmd, source }) => Some(s.session.refused(cmd, source)),
        (Step::Sleep(s), Event::Slept) => Some(Step::Send(Sending { session: s.session })),
        (Step::Await(s), Event::Heard(e)) => Some(s.session.heard(e)),
        (Step::EnterDataMode(s), Event::Entered) => Some(Step::Done(Ok(s.session.outcome))),
        _ => None,
    }
}

/// The step behind `step` when all of `events` happened in turn, if they can.
pub open spec fn run<'s, T>(step: Step<'s, T>, events: Seq<Event>) -> Option<Step<'s, T>>
    decreases events.len(),
{
    if events.len() == 0 {
        Some(step)
    } else {
        match after(step, events.first()) {
            Some(next) => run(next, events.drop_first()),
            None => None,
        }
    }
}

/// The commands that were accepted, in their order.
pub open spec fn accepted<'s, T>(step: Step<'s, T>, events: Seq<Event>) -> Seq<Command<'s>>
    decreases events.len(),
{
    if events.len() == 0 {
        Seq::empty()
    } else {
        let now = match (step, events.first()) {
            (Step::Send(s), Event::Accepted) => seq![s.session.stage.request()],
            _ => Seq::empty(),
        };
        match after(step, events.first()) {
            Some(next) => now + accepted(next, events.drop_first()),
            None => Seq::empty(),
        }
    }
}

/// The event brings a report on the network.
pub open spec fn is_report(event: Event) -> bool {
    match event {
        Event::Heard(UrcEvent::Message(Urc::CPSI(_))) => true,
        _ => false,
    }
}

/// How many reports the events bring.
pub open spec fn reports(events: Seq<Event>) -> nat
    decreases events.len(),
{
    if events.len() == 0 {
        0
    } else {
        reports(events.drop_first()) + (if is_report(events.first()) {
            1nat
        } else {
            0
        })
    }
}

/// The commands from `stage` on to the goal, where the network is asked about
/// `asked` times.
pub open spec fn plan<'s>(stage: Stage<'s>, goal: Goal<'s>, asked: nat) -> Seq<Command<'s>>
    decreases 8 - stage.rank(),
{
    let here = match stage {
        Stage::Service => Seq::new(asked, |i: int| stage.request()),
        _ => seq![stage.request()],
    };
    match goal.next(stage) {
        Some(next) => here + plan(next, goal, asked),
        None => here,
    }
}

/// The commands behind `stage` on the way to the goal.
pub open spec fn plan_behind<'s>(stage: Stage<'s>, goal: Goal<'s>, asked: nat) -> Seq<Command<'s>> {
    match goal.next(stage) {
        Some(next) => plan(next, goal, asked),
        None => Seq::empty(),
    }
}

/// The session that a step is about.
pub open spec fn session_of<'s, T>(step: Step<'s, T>) -> Option<Session<'s, T>> {
    match step {
        Step::Send(s) => Some(s.session),
        Step::Sleep(s) => Some(s.session),
        Step::Await(s) => Some(s.session),
        Step::EnterDataMode(s) => Some(s.session),
        Step::Done(_) => None,
    }
}

/// Steps come in this form only: the network's report is waited for at the stage that
/// asks for it, only commands that are repeated are slept on, and the line changes to
/// data at the end of a connection.
pub open spec fn is_sound<'s, T>(step: Step<'s, T>) -> bool {
    match step {
        Step::Send(_) => true,
        Step::Sleep(s) => s.session.stage.is_repeated(),
        Step::Await(s) => s.session.stage is Service,
        Step::EnterDataMode(s) => s.session.goal is Connect && s.session.goal.next(
            s.session.stage,
        ) is None,
        Step::Done(_) => true,
    }
}

/// No event leads out of the sound steps, and none changes what a session is for.
pub proof fn law_steps_stay_sound<'s, T>(step: Step<'s, T>, event: Event)
    requires
        is_sound(step),
        after(step, event) is Some,
    ensures
        is_sound(after(step, event)->0),
        session_of(after(step, event)->0) matches Some(next) ==> {
            &&& session_of(step) is Some
            &&& next.goal == session_of(step)->0.goal
            &&& next.outcome == session_of(step)->0.outcome
            &&& next.stage.rank() >= session_of(step)->0.stage.rank()
        },
{
}

/// The commands that a step still has to get accepted, where `asked` more reports on the
/// network are to come.
pub open spec fn still_planned<'s, T>(step: Step<'s, T>, asked: nat) -> Seq<Command<'s>> {
    match step {
        Step::Send(s) => plan(s.session.stage, s.session.goal, asked),
        Step::Sleep(s) => plan(s.session.stage, s.session.goal, asked),
        Step::Await(s) => Seq::new((asked - 1) as nat, |i: int| s.session.stage.request())
            + plan_behind(s.session.stage, s.session.goal, asked),
        Step::EnterDataMode(_) => Seq::empty(),
        Step::Done(_) => Seq::empty(),
    }
}

/// So many reports on the network can come yet: at least one while one is waited for, and
/// none behind that stage.
pub open spec fn can_come<'s, T>(step: Step<'s, T>, asked: nat) -> bool {
    &&& step is Await ==> asked > 0
    &&& asked > 0 ==> (session_of(step) matches Some(s) && s.stage.rank() <= 5)
}

/// The number of questions about the network does not matter behind that stage.
proof fn lemma_plan_later<'s>(stage: Stage<'s>, goal: Goal<'s>, a: nat, b: nat)
    requires
        stage.rank() > 5,
    ensures
        plan(stage, goal, a) == plan(stage, goal, b),
    decreases 8 - stage.rank(),
{
    if let Some(next) = goal.next(stage) {
        lemma_plan_later(next, goal, a, b);
    }
}

/// A plan goes on with the commands behind its first stage.
proof fn lemma_plan_starts<'s>(stage: Stage<'s>, goal: Goal<'s>, asked: nat)
    ensures
        plan(stage, goal, asked) == (match stage {
            Stage::Service => Seq::new(asked, |i: int| stage.request()),
            _ => seq![stage.request()],
        }) + plan_behind(stage, goal, asked),
{
    if goal.next(stage) is None {
        let here = match stage {
            Stage::Service => Seq::new(asked, |i: int| stage.request()),
            _ => seq![stage.request()],
        };
        assert(here + Seq::<Command<'s>>::empty() =~= here);
    }
}

/// At any time, the commands that were accepted and those that are still planned are the
/// commands of the plan, in its order: none was left out, repeated or sent too early.
pub proof fn law_accepted_as_planned<'s, T>(step: Step<'s, T>, events: Seq<Event>, asked: nat)
    requires
        is_sound(step),
        run(step, events) matches Some(end) && !(end matches Step::Done(Err(_))) && can_come(
            end,
            asked,
        ),
    ensures
        can_come(step, reports(events) + asked),
        accepted(step, events) + still_planned(run(step, events)->0, asked) == still_planned(
            step,
            reports(events) + asked,
        ),
    decreases events.len(),
{
    let end = run(step, events)->0;
    if events.len() == 0 {
        assert(accepted(step, events) + still_planned(end, asked) =~= still_planned(end, asked));
    } else {
        let event = events.first();
        let rest = events.drop_first();
        let next = after(step, event)->0;
        law_steps_stay_sound(step, event);
        law_accepted_as_planned(next, rest, asked);
        let all = reports(events) + asked;
        let later = reports(rest) + asked;
        let now = match (step, event) {
            (Step::Send(s), Event::Accepted) => seq![s.session.stage.request()],
            _ => Seq::empty(),
        };
        assert(accepted(step, events) + still_planned(end, asked) =~= now + (accepted(next, rest)
            + still_planned(end, asked)));
        if let Some(session) = session_of(step) {
            let stage = session.stage;
            let goal = session.goal;
            lemma_plan_starts(stage, goal, all);
            lemma_plan_starts(stage, goal, later);
            if step is Await && goal.next(stage) is Some {
                lemma_plan_later(goal.next(stage)->0, goal, all, later);
            }
        }
        assert(now + still_planned(next, later) =~= still_planned(step, all));
    }
}

/// A data connection is made in one order only.
///
/// When the data stream is handed out, the modem has accepted these commands and no
/// others, in this order: it is there, it repeats no commands, it has a SIM card, the
/// PIN, it is registered, one question about the network for each report that came
/// and at least one, the context with the access point, and the call.
pub proof fn law_connection_order<'s, T>(
    pin: &'s str,
    apn: &'s str,
    number: &'s str,
    io: T,
    events: Seq<Event>,
)
    requires
        run(
            modem::first_step(Stage::Connection, Goal::Connect { pin, apn, number }, io),
            events,
        ) matches Some(Step::Done(Ok(_))),
    ensures
        reports(events) > 0,
        accepted(
            modem::first_step(Stage::Connection, Goal::Connect { pin, apn, number }, io),
            events,
        ) == seq![
            Command::AT(AT),
            Command::E0(E0),
            Command::CPINQuery(CPINQuery),
            Command::CPIN(CPIN { pin }),
            Command::CEREGQuery(CEREGQuery),
        ] + Seq::new(reports(events), |i: int| Command::CPSIQuery(CPSIQuery)) + seq![
            Command::CGDCONT(CGDCONT { cid: 1, pdp_type: "IP", apn }),
            Command::ATD(ATD { number }),
        ],
{
    let goal = Goal::Connect { pin, apn, number };
    let start = modem::first_step(Stage::Connection, goal, io);
    let k = reports(events);
    law_accepted_as_planned(start, events, 0);
    lemma_report_comes(start, events);
    assert(accepted(start, events) + Seq::<Command<'s>>::empty() =~= accepted(start, events));
    let asked = Seq::new(k, |i: int| Command::<'s>::CPSIQuery(CPSIQuery));
    let dial = seq![Stage::Dial(number).request()];
    let context = seq![Stage::Context(apn).request()];
    assert(plan(Stage::Dial(number), goal, k) == dial);
    assert(plan(Stage::Context(apn), goal, k) == context + dial);
    assert(plan(Stage::Service, goal, k) =~= asked + (context + dial));
    let tail = asked + (context + dial);
    assert(plan(Stage::Registration, goal, k) == seq![Stage::Registration.request()] + tail);
    assert(plan(Stage::Pin(pin), goal, k) == seq![Stage::Pin(pin).request()] + (seq![
        Stage::Registration.request(),
    ] + tail));
    assert(plan(Stage::Sim, goal, k) == seq![Stage::Sim.request()] + plan(
        Stage::Pin(pin),
        goal,
        k,
    ));
    assert(plan(Stage::Echo, goal, k) == seq![Stage::Echo.request()] + plan(
        Stage::Sim,
        goal,
        k,
    ));
    assert(plan(Stage::Connection, goal, k) == seq![Stage::Connection.request()] + plan(
        Stage::Echo,
        goal,
        k,
    ));
}

/// A way that passes the question about the network and ends well brings a report.
proof fn lemma_report_comes<'s, T>(step: Step<'s, T>, events: Seq<Event>)
    requires
        is_sound(step),
        run(step, events) matches Some(Step::Done(Ok(_))),
        session_of(step) matches Some(s) && s.stage.rank() <= 5 && s.goal !is Stage,
    ensures
        reports(events) > 0,
    decreases events.len(),
{
    let next = after(step, events.first())->0;
    law_steps_stay_sound(step, events.first());
    if !is_report(events.first()) {
        if next is Done {
            if events.drop_first().len() > 0 {
                assert(after(next, events.drop_first().first()) is None);
            }
        } else {
            lemma_report_comes(next, events.drop_first());
        }
    }
}

/// The commands that were sent, in their order, whether they were accepted, refused or
/// not answered yet.
pub open spec fn sent<'s, T>(step: Step<'s, T>, events: Seq<Event>) -> Seq<Command<'s>>
    decreases events.len(),
{
    let now = match step {
        Step::Send(s) => seq![s.session.stage.request()],
        _ => Seq::empty(),
    };
    if events.len() == 0 {
        now
    } else {
        match after(step, events.first()) {
            Some(next) => now + sent(next, events.drop_first()),
            None => now,
        }
    }
}

/// How many commands come before this one on the way to a data connection.
pub open spec fn place(command: Command<'_>) -> nat {
    match command {
        Command::AT(_) => 0,
        Command::E0(_) => 1,
        Command::CPINQuery(_) => 2,
        Command::CPIN(_) => 3,
        Command::CEREGQuery(_) => 4,
        Command::CPSIQuery(_) => 5,
        Command::CGDCONT(_) => 6,
        Command::ATD(_) => 7,
    }
}

/// The command may be sent more than once: it only asks for something.
pub open spec fn is_question(command: Command<'_>) -> bool {
    match command {
        Command::AT(_) => true,
        Command::CPINQuery(_) => true,
        Command::CEREGQuery(_) => true,
        Command::CPSIQuery(_) => true,
        _ => false,
    }
}

/// No command is sent that comes before the stage of the session.
proof fn lemma_sent_from_here<'s, T>(step: Step<'s, T>, events: Seq<Event>)
    requires
        is_sound(step),
    ensures
        forall|i: int|
            0 <= i < sent(step, events).len() ==> (session_of(step) matches Some(s) && s.stage.rank()
                <= place(#[trigger] sent(step, events)[i])),
        step is EnterDataMode || step is Done ==> sent(step, events).len() == 0,
    decreases events.len(),
{
    if events.len() > 0 && after(step, events.first()) is Some {
        let next = after(step, events.first())->0;
        let rest = events.drop_first();
        let all = sent(step, events);
        let later = sent(next, rest);
        law_steps_stay_sound(step, events.first());
        lemma_sent_from_here(next, rest);
        let n: int = if step is Send {
            1
        } else {
            0
        };
        assert forall|i: int| 0 <= i < all.len() implies (session_of(step) matches Some(s)
            && s.stage.rank() <= place(#[trigger] all[i])) by {
            if i >= n {
                assert(all[i] == later[i - n]);
            }
        }
    }
}

/// On any course, whatever is accepted, refused or reported, commands are sent in the
/// order of the plan, and only questions are sent more than once.
pub proof fn law_sent_in_order<'s, T>(step: Step<'s, T>, events: Seq<Event>)
    requires
        is_sound(step),
    ensures
        forall|i: int, j: int|
            0 <= i < j < sent(step, events).len() ==> {
                ||| place(#[trigger] sent(step, events)[i]) < place(
                    #[trigger] sent(step, events)[j],
                )
                ||| place(sent(step, events)[i]) == place(sent(step, events)[j]) && is_question(
                    sent(step, events)[i],
                )
            },
    decreases events.len(),
{
    if events.len() > 0 && after(step, events.first()) is Some {
        let next = after(step, events.first())->0;
        let rest = events.drop_first();
        let all = sent(step, events);
        let later = sent(next, rest);
        law_steps_stay_sound(step, events.first());
        law_sent_in_order(next, rest);
        lemma_sent_from_here(next, rest);
        let n: int = if step is Send {
            1
        } else {
            0
        };
        assert(forall|j: int| n <= j < all.len() ==> #[trigger] all[j] == later[j - n]);
        assert forall|i: int, j: int| 0 <= i < j < all.len() implies {
            ||| place(#[trigger] all[i]) < place(#[trigger] all[j])
            ||| place(all[i]) == place(all[j]) && is_question(all[i])
        } by {
            assert(all[j] == later[j - n]);
            if i >= n {
                assert(all[i] == later[i - n]);
            } else {
                assert(all[i] == session_of(step)->0.stage.request());
                assert(session_of(next)->0.stage.rank() <= place(later[j - n]));
            }
        }
    }
}

/// The PIN, and everything else that changes the state of the modem, is sent at most once
/// on any course, refused or not; and once the number was dialled, nothing is sent any
/// more.
pub proof fn law_changes_are_sent_once<'s, T>(step: Step<'s, T>, events: Seq<Event>)
    requires
        is_sound(step),
    ensures
        forall|i: int, j: int|
            0 <= i < sent(step, events).len() && 0 <= j < sent(step, events).len() && place(
                #[trigger] sent(step, events)[i],
            ) == place(#[trigger] sent(step, events)[j]) && !is_question(sent(step, events)[i])
                ==> i == j,
        forall|i: int|
            0 <= i < sent(step, events).len() && #[trigger] sent(step, events)[i] is ATD ==> i
                == sent(step, events).len() - 1,
{
    law_sent_in_order(step, events);
    let all = sent(step, events);
    assert forall|i: int, j: int|
        0 <= i < all.len() && 0 <= j < all.len() && place(#[trigger] all[i]) == place(
            #[trigger] all[j],
        ) && !is_question(all[i]) implies i == j by {
        if i < j {
            assert(place(all[i]) < place(all[j]));
        } else if j < i {
            assert(place(all[j]) < place(all[i]));
        }
    }
    assert forall|i: int| 0 <= i < all.len() && #[trigger] all[i] is ATD implies i == all.len()
        - 1 by {
        if i < all.len() - 1 {
            assert(place(all[i]) < place(all[all.len() - 1]));
        }
    }
}

/// A refused command that is not repeated ends the way with its error: a PIN that was
/// refused is not tried again, and nothing else is sent.
pub proof fn law_refusal_ends_the_way<'s, T>(
    session: Session<'s, T>,
    cmd: &'static str,
    source: ClientError,
    events: Seq<Event>,
)
    requires
        !session.stage.is_repeated(),
    ensures
        ({
            let step = Step::Send(Sending { session });
            let refused = seq![Event::Refused { cmd, source }] + events;
            &&& run(step, refused) is Some ==> events.len() == 0 && run(step, refused) == Some(
                Step::<'s, T>::Done(Err(Error::AtCommandError { cmd, source })),
            )
            &&& sent(step, refused) == seq![session.stage.request()]
        }),
{
    let step = Step::Send(Sending { session });
    let refused = seq![Event::Refused { cmd, source }] + events;
    let end = Step::<'s, T>::Done(Err(Error::AtCommandError { cmd, source }));
    assert(refused.first() == (Event::Refused { cmd, source }));
    assert(refused.drop_first() =~= events);
    assert(after(step, refused.first()) == Some(end));
    if run(step, refused) is Some {
        lemma_done_is_the_end(end, events);
    }
    lemma_sent_from_here(end, events);
    assert(sent(end, events) =~= Seq::<Command<'s>>::empty());
    assert(seq![session.stage.request()] + sent(end, events) =~= seq![session.stage.request()]);
}

/// A command that carries a PIN, an access point or a number carries the given one.
pub open spec fn is_for<'s>(
    command: Command<'s>,
    pin: &'s str,
    apn: &'s str,
    number: &'s str,
) -> bool {
    match command {
        Command::CPIN(c) => c == (CPIN { pin }),
        Command::CGDCONT(c) => c == (CGDCONT { cid: 1, pdp_type: "IP", apn }),
        Command::ATD(c) => c == (ATD { number }),
        _ => true,
    }
}

/// What is sent belongs to the connection that was asked for.
proof fn lemma_sent_is_for<'s, T>(
    step: Step<'s, T>,
    events: Seq<Event>,
    pin: &'s str,
    apn: &'s str,
    number: &'s str,
)
    requires
        session_of(step) matches Some(s) ==> s.goal == (Goal::Connect { pin, apn, number })
            && is_for(s.stage.request(), pin, apn, number),
    ensures
        forall|i: int|
            0 <= i < sent(step, events).len() ==> is_for(
                #[trigger] sent(step, events)[i],
                pin,
                apn,
                number,
            ),
    decreases events.len(),
{
    if events.len() > 0 && after(step, events.first()) is Some {
        let next = after(step, events.first())->0;
        let rest = events.drop_first();
        let all = sent(step, events);
        let later = sent(next, rest);
        lemma_sent_is_for(next, rest, pin, apn, number);
        let n: int = if step is Send {
            1
        } else {
            0
        };
        assert forall|i: int| 0 <= i < all.len() implies is_for(
            #[trigger] all[i],
            pin,
            apn,
            number,
        ) by {
            if i >= n {
                assert(all[i] == later[i - n]);
            }
        }
    }
}

/// Whatever becomes of an attempt to connect, the modem is first asked whether it is there,
/// and is never sent another PIN, access point or number than those that were given.
pub proof fn law_connection_sends_what_was_given<'s, T>(
    pin: &'s str,
    apn: &'s str,
    number: &'s str,
    io: T,
    events: Seq<Event>,
)
    ensures
        ({
            let start = modem::first_step(
                Stage::Connection,
                Goal::Connect { pin, apn, number },
                io,
            );
            let all = sent(start, events);
            &&& all.len() > 0
            &&& all.first() == Command::<'s>::AT(AT)
            &&& forall|i: int|
                0 <= i < all.len() ==> is_for(#[trigger] all[i], pin, apn, number)
        }),
{
    let start = modem::first_step(Stage::Connection, Goal::Connect { pin, apn, number }, io);
    lemma_sent_is_for(start, events, pin, apn, number);
}

/// Once nothing is left to do, nothing happens any more.
proof fn lemma_done_is_the_end<'s, T>(step: Step<'s, T>, events: Seq<Event>)
    requires
        step is Done,
        run(step, events) is Some,
    ensures
        events.len() == 0,
{
    if events.len() > 0 {
        assert(after(step, events.first()) is None);
    }
}

/// Whether the line was changed to data.
pub open spec fn entered(events: Seq<Event>) -> bool {
    exists|i: int| 0 <= i < events.len() && #[trigger] events[i] is Entered
}

/// The line is changed to data when a connection succeeds, as the last thing of all and
/// once, and on no other way: not when anything fails, and not for another goal.
pub proof fn law_data_mode_is_last<'s, T>(step: Step<'s, T>, events: Seq<Event>)
    requires
        is_sound(step),
        step !is Done,
        run(step, events) matches Some(Step::Done(_)),
    ensures
        entered(events) <==> session_of(step)->0.goal is Connect && run(step, events)->0->Done_0
            is Ok,
        forall|i: int|
            0 <= i < events.len() && #[trigger] events[i] is Entered ==> i == events.len() - 1,
    decreases events.len(),
{
    let event = events.first();
    let rest = events.drop_first();
    let next = after(step, event)->0;
    law_steps_stay_sound(step, event);
    assert(forall|i: int| 0 <= i < rest.len() ==> #[trigger] rest[i] == events[i + 1]);
    if next is Done {
        lemma_done_is_the_end(next, rest);
        if event is Entered {
            assert(events[0] is Entered);
        }
    } else {
        law_data_mode_is_last(next, rest);
        if entered(rest) {
            let i = choose|i: int| 0 <= i < rest.len() && #[trigger] rest[i] is Entered;
            assert(events[i + 1] is Entered);
        }
        assert forall|i: int|
            0 <= i < events.len() && #[trigger] events[i] is Entered implies i == events.len()
            - 1 by {
            assert(i != 0);
            assert(rest[i - 1] is Entered);
        }
        if entered(events) {
            let i = choose|i: int| 0 <= i < events.len() && #[trigger] events[i] is Entered;
            assert(rest[i - 1] is Entered);
        }
    }
}

/// A way ends well with what its session was to hand out, and ends badly for one of two
/// reasons: the last command was refused, and the error names it and says why; or the
/// report on the network did not come in time.
pub proof fn law_end_has_its_cause<'s, T>(step: Step<'s, T>, events: Seq<Event>)
    requires
        step !is Done,
        run(step, events) matches Some(Step::Done(_)),
    ensures
        match run(step, events)->0->Done_0 {
            Ok(outcome) => outcome == session_of(step)->0.outcome,
            Err(e) => match events.last() {
                Event::Refused { cmd, source } => e == (Error::AtCommandError { cmd, source }),
                Event::Heard(UrcEvent::TimedOut) => e == Error::WaitForUrcError,
                _ => false,
            },
        },
    decreases events.len(),
{
    let rest = events.drop_first();
    let next = after(step, events.first())->0;
    if next is Done {
        lemma_done_is_the_end(next, rest);
    } else {
        law_end_has_its_cause(next, rest);
        assert(rest.last() == events.last());
    }
}

/// Waiting for the modem, for its SIM card or for its registration does not fail: it
/// ends when the command is accepted, and not before.
pub proof fn law_repeated_command_does_not_fail<'s, T>(
    stage: Stage<'s>,
    outcome: T,
    events: Seq<Event>,
)
    requires
        stage.is_repeated(),
        run(modem::first_step(stage, Goal::Stage, outcome), events) is Some,
    ensures
        run(modem::first_step(stage, Goal::Stage, outcome), events) == Some(
            Step::<'s, T>::Done(Ok(outcome)),
        ) <==> events.len() > 0 && events.last() is Accepted,
        !(run(modem::first_step(stage, Goal::Stage, outcome), events) matches Some(
            Step::Done(Err(_)),
        )),
    decreases events.len(),
{
    let start = modem::first_step(stage, Goal::Stage, outcome);
    if events.len() > 0 {
        let rest = events.drop_first();
        let next = after(start, events.first())->0;
        if next is Done {
            lemma_done_is_the_end(next, rest);
        } else if rest.len() > 0 {
            let again = after(next, rest.first())->0;
            assert(again == start);
            law_repeated_command_does_not_fail(stage, outcome, rest.drop_first());
            if rest.drop_first().len() > 0 {
                assert(rest.drop_first().last() == events.last());
            } else {
                assert(events.last() == rest.first());
            }
        }
    }
}

/// The refusals, each with the name of the command and what the client says of it, and
/// each with the wait behind it.
pub open spec fn refusals(answers: Seq<(&'static str, ClientError)>) -> Seq<Event>
    decreases answers.len(),
{
    if answers.len() == 0 {
        Seq::empty()
    } else {
        seq![
            Event::Refused { cmd: answers.first().0, source: answers.first().1 },
            Event::Slept,
        ] + refusals(answers.drop_first())
    }
}

/// However often and for whatever reasons a command that is repeated was refused, the
/// way goes on as if it had not been: the same command is sent again.
pub proof fn law_refusals_are_outlasted<'s, T>(
    session: Session<'s, T>,
    answers: Seq<(&'static str, ClientError)>,
    events: Seq<Event>,
)
    requires
        session.stage.is_repeated(),
    ensures
        run(Step::Send(Sending { session }), refusals(answers) + events) == run(
            Step::Send(Sending { session }),
            events,
        ),
    decreases answers.len(),
{
    if answers.len() == 0 {
        assert(refusals(answers) + events =~= events);
    } else {
        law_refusals_are_outlasted(session, answers.drop_first(), events);
        let all = refusals(answers) + events;
        let rest = refusals(answers.drop_first()) + events;
        assert(all.first() == (Event::Refused {
            cmd: answers.first().0,
            source: answers.first().1,
        }));
        assert(all.drop_first().first() == Event::Slept);
        assert(all.drop_first().drop_first() =~= rest);
        let step = Step::Send(Sending { session });
        let asleep = Step::Sleep(Sleeping { session });
        assert(after(step, all.first()) == Some(asleep));
        assert(after(asleep, all.drop_first().first()) == Some(step));
        assert(run(asleep, all.drop_first()) == run(step, rest));
    }
}

/// The event brings a report that the network serves the modem.
pub open spec fn is_good_report(event: Event) -> bool {
    match event {
        Event::Heard(UrcEvent::Message(Urc::CPSI(report))) => report.system_mode
            != SystemMode::NoService,
        _ => false,
    }
}

/// The wait for service ends well with the first report that the network serves the
/// modem, and with nothing else: other messages, lost messages and reports of no
/// service do not end it.
pub proof fn law_service_is_reported<'s, T>(step: Step<'s, T>, events: Seq<Event>)
    requires
        is_sound(step),
        session_of(step) matches Some(s) && s.stage is Service && s.goal is Stage,
        run(step, events) is Some,
    ensures
        run(step, events)->0 matches Step::Done(Ok(_)) <==> events.len() > 0 && is_good_report(
            events.last(),
        ),
        forall|i: int| 0 <= i < events.len() - 1 ==> !is_good_report(#[trigger] events[i]),
    decreases events.len(),
{
    if events.len() > 0 {
        let event = events.first();
        let rest = events.drop_first();
        let next = after(step, event)->0;
        law_steps_stay_sound(step, event);
        assert(forall|i: int| 0 <= i < rest.len() ==> #[trigger] rest[i] == events[i + 1]);
        if next is Done {
            lemma_done_is_the_end(next, rest);
        } else {
            law_service_is_reported(next, rest);
            assert(!is_good_report(event));
            assert forall|i: int| 0 <= i < events.len() - 1 implies !is_good_report(
                #[trigger] events[i],
            ) by {
                if i > 0 {
                    assert(!is_good_report(rest[i - 1]));
                }
            }
            if rest.len() > 0 {
                assert(rest.last() == events.last());
            }
        }
    }
}

/// Behind the stage that asks for it, no report on the network is waited for.
proof fn lemma_no_report_later<'s, T>(step: Step<'s, T>, events: Seq<Event>)
    requires
        is_sound(step),
        run(step, events) is Some,
        session_of(step) matches Some(s) ==> s.stage.rank() > 5,
    ensures
        forall|i: int| 0 <= i < events.len() ==> !is_report(#[trigger] events[i]),
    decreases events.len(),
{
    if events.len() > 0 {
        law_steps_stay_sound(step, events.first());
        lemma_no_report_later(after(step, events.first())->0, events.drop_first());
        assert forall|i: int| 0 <= i < events.len() implies !is_report(#[trigger] events[i]) by {
            if i > 0 {
                assert(events[i] == events.drop_first()[i - 1]);
            }
        }
    }
}

/// The reports among the events end with one that the network serves the modem, and all
/// before it say that it does not.
pub open spec fn service_came(events: Seq<Event>) -> bool {
    exists|i: int|
        {
            &&& 0 <= i < events.len()
            &&& is_good_report(#[trigger] events[i])
            &&& forall|j: int|
                0 <= j < events.len() && is_report(#[trigger] events[j]) && j != i ==> j < i
                    && !is_good_report(events[j])
        }
}

/// No modem is made ready or connected that the network does not serve, and the first
/// report of service is enough.
pub proof fn law_connection_needs_service<'s, T>(step: Step<'s, T>, events: Seq<Event>)
    requires
        is_sound(step),
        session_of(step) matches Some(s) && s.stage.rank() <= 5 && s.goal !is Stage,
        run(step, events) matches Some(Step::Done(Ok(_))),
    ensures
        service_came(events),
    decreases events.len(),
{
    let event = events.first();
    let rest = events.drop_first();
    let next = after(step, event)->0;
    law_steps_stay_sound(step, event);
    assert(forall|i: int| 0 <= i < rest.len() ==> #[trigger] rest[i] == events[i + 1]);
    if next is Done {
        lemma_done_is_the_end(next, rest);
    }
    if is_good_report(event) {
        lemma_no_report_later(next, rest);
        assert(is_good_report(events[0]));
        assert forall|j: int|
            0 <= j < events.len() && is_report(#[trigger] events[j]) && j != 0 implies j < 0
            && !is_good_report(events[j]) by {
            assert(!is_report(rest[j - 1]));
        }
    } else {
        law_connection_needs_service(next, rest);
        let k = choose|i: int|
            {
                &&& 0 <= i < rest.len()
                &&& is_good_report(#[trigger] rest[i])
                &&& forall|j: int|
                    0 <= j < rest.len() && is_report(#[trigger] rest[j]) && j != i ==> j < i
                        && !is_good_report(rest[j])
            };
        assert(is_good_report(events[k + 1]));
        assert forall|j: int|
            0 <= j < events.len() && is_report(#[trigger] events[j]) && j != k + 1 implies j < k
            + 1 && !is_good_report(events[j]) by {
            if j > 0 {
                assert(is_report(rest[j - 1]));
            }
        }
    }
}

/// A modem that accepts every command and has service is connected, and the data stream
/// is handed out.
pub proof fn law_willing_modem_is_connected<'s, T>(
    pin: &'s str,
    apn: &'s str,
    number: &'s str,
    io: T,
    report: UrcEvent,
)
    requires
        is_good_report(Event::Heard(report)),
    ensures
        run(
            modem::first_step(Stage::Connection, Goal::Connect { pin, apn, number }, io),
            seq![
                Event::Accepted,
                Event::Accepted,
                Event::Accepted,
                Event::Accepted,
                Event::Accepted,
                Event::Accepted,
                Event::Heard(report),
                Event::Accepted,
                Event::Accepted,
                Event::Entered,
            ],
        ) == Some(Step::<'s, T>::Done(Ok(io))),
{
    let goal = Goal::Connect { pin, apn, number };
    let service = Session { stage: Stage::Service, goal, outcome: io };
    let e10 = seq![Event::Entered];
    let e9 = seq![Event::Accepted] + e10;
    let e8 = seq![Event::Accepted] + e9;
    let e7 = seq![Event::Heard(report)] + e8;
    let e6 = seq![Event::Accepted] + e7;
    let e5 = seq![Event::Accepted] + e6;
    let e4 = seq![Event::Accepted] + e5;
    let e3 = seq![Event::Accepted] + e4;
    let e2 = seq![Event::Accepted] + e3;
    let e1 = seq![Event::Accepted] + e2;
    assert(e10.drop_first() =~= Seq::<Event>::empty());
    assert(e9.drop_first() =~= e10);
    assert(e8.drop_first() =~= e9);
    assert(e7.drop_first() =~= e8);
    assert(e6.drop_first() =~= e7);
    assert(e5.drop_first() =~= e6);
    assert(e4.drop_first() =~= e5);
    assert(e3.drop_first() =~= e4);
    assert(e2.drop_first() =~= e3);
    assert(e1.drop_first() =~= e2);
    let dialled = Session { stage: Stage::Dial(number), goal, outcome: io };
    let entering = Step::EnterDataMode(modem::Entering { session: dialled });
    assert(run(Step::<'s, T>::Done(Ok(io)), e10.drop_first()) == Some(
        Step::<'s, T>::Done(Ok(io)),
    ));
    assert(run(entering, e10) == Some(Step::<'s, T>::Done(Ok(io))));
    assert(run(modem::first_step(Stage::Dial(number), goal, io), e9) == run(entering, e10));
    assert(run(modem::first_step(Stage::Context(apn), goal, io), e8) == run(
        modem::first_step(Stage::Dial(number), goal, io),
        e9,
    ));
    assert(run(Step::Await(Awaiting { session: service }), e7) == run(
        modem::first_step(Stage::Context(apn), goal, io),
        e8,
    ));
    assert(run(modem::first_step(Stage::Service, goal, io), e6) == run(
        Step::Await(Awaiting { session: service }),
        e7,
    ));
    assert(run(modem::first_step(Stage::Registration, goal, io), e5) == run(
        modem::first_step(Stage::Service, goal, io),
        e6,
    ));
    assert(run(modem::first_step(Stage::Pin(pin), goal, io), e4) == run(
        modem::first_step(Stage::Registration, goal, io),
        e5,
    ));
    assert(run(modem::first_step(Stage::Sim, goal, io), e3) == run(
        modem::first_step(Stage::Pin(pin), goal, io),
        e4,
    ));
    assert(run(modem::first_step(Stage::Echo, goal, io), e2) == run(
        modem::first_step(Stage::Sim, goal, io),
        e3,
    ));
    assert(run(modem::first_step(Stage::Connection, goal, io), e1) == run(
        modem::first_step(Stage::Echo, goal, io),
        e2,
    ));
    assert(e1 =~= seq![
        Event::Accepted,
        Event::Accepted,
        Event::Accepted,
        Event::Accepted,
        Event::Accepted,
        Event::Accepted,
        Event::Heard(report),
        Event::Accepted,
        Event::Accepted,
        Event::Entered,
    ]);
}

/// The data stream is handed out once: when a connection was tried, with whatever
/// success, any other attempt fails at once, sends nothing, and says why.
pub proof fn law_data_stream_is_handed_out_once<'s, P, Io>(
    modem: Modem<P, Io>,
    pin: &'s str,
    apn: &'s str,
    number: &'s str,
    other_pin: &'s str,
    other_apn: &'s str,
    other_number: &'s str,
)
    ensures
        modem.connecting(pin, apn, number).0.connecting(other_pin, other_apn, other_number) == (
            modem.connecting(pin, apn, number).0,
            Step::<'s, Io>::Done(Err(Error::PppAlreadyTaken)),
        ),
{
}

/// What a call returns is the next step of the course: an answer to a command is an
/// acceptance or a refusal with the client's error and the name that was given, the command
/// is that of the stage, and waits and the change of the line lead on as they do there.
pub proof fn law_calls_follow_the_course<'s, T, R>(
    sending: Sending<'s, T>,
    cmd: &'static str,
    answer: Result<R, ClientError>,
    command: Command<'s>,
    answered: Step<'s, T>,
    sleeping: Sleeping<'s, T>,
    slept: Step<'s, T>,
    awaiting: Awaiting<'s, T>,
    urc: UrcEvent,
    heard: Step<'s, T>,
    entering: modem::Entering<'s, T>,
    entered: Step<'s, T>,
)
    requires
        call_ensures(Sending::<'s, T>::command, (&sending,), command),
        call_ensures(Sending::<'s, T>::answered::<R>, (sending, cmd, answer), answered),
        call_ensures(Sleeping::<'s, T>::slept, (sleeping,), slept),
        call_ensures(Awaiting::<'s, T>::heard, (awaiting, urc), heard),
        call_ensures(modem::Entering::<'s, T>::entered, (entering,), entered),
    ensures
        command == sending.session.stage.request(),
        after(
            Step::Send(sending),
            match answer {
                Ok(_) => Event::Accepted,
                Err(source) => Event::Refused { cmd, source },
            },
        ) == Some(answered),
        after(Step::Sleep(sleeping), Event::Slept) == Some(slept),
        after(Step::Await(awaiting), Event::Heard(urc)) == Some(heard),
        after(Step::EnterDataMode(entering), Event::Entered) == Some(entered),
        entered == Step::<'s, T>::Done(Ok(entering.session.outcome)),
{
}

/// A wait for a report that runs out of time fails, whatever was waited for; while it has
/// time, other messages and lost ones do not end it.
pub proof fn law_report_comes_in_time<'s, T>(
    awaiting: Awaiting<'s, T>,
    urc: UrcEvent,
    heard: Step<'s, T>,
)
    requires
        call_ensures(Awaiting::<'s, T>::heard, (awaiting, urc), heard),
    ensures
        urc is TimedOut <==> heard == Step::<'s, T>::Done(Err(Error::WaitForUrcError)),
        !(urc matches UrcEvent::Message(Urc::CPSI(_))) && urc !is TimedOut ==> heard == Step::Await(
            awaiting,
        ),
        urc matches UrcEvent::Message(Urc::CPSI(report)) && report.system_mode
            == SystemMode::NoService ==> heard == Step::Send(Sending { session: awaiting.session }),
{
}

/// Every attempt of a modem that still has its data stream, however it goes, sends the PIN,
/// the access point and the number that were given, and none but these.
pub proof fn law_attempt_sends_what_was_given<'s, P, Io>(
    modem: Modem<P, Io>,
    pin: &'s str,
    apn: &'s str,
    number: &'s str,
    events: Seq<Event>,
    i: int,
)
    requires
        modem.ppp_io is Some,
        0 <= i < sent(modem.connecting(pin, apn, number).1, events).len(),
    ensures
        ({
            let command = sent(modem.connecting(pin, apn, number).1, events)[i];
            &&& command matches Command::CPIN(c) ==> c.pin == pin
            &&& command matches Command::CGDCONT(c) ==> c.cid == 1 && c.pdp_type == "IP" && c.apn
                == apn
            &&& command matches Command::ATD(c) ==> c.number == number
        }),
{
    let step = modem.connecting(pin, apn, number).1;
    modem::law_attempt_is_for_what_was_given(modem, pin, apn, number);
    lemma_sent_is_for(step, events, pin, apn, number);
    assert(is_for(sent(step, events)[i], pin, apn, number));
}

/// An attempt that succeeds has had these commands accepted and no others, in this order,
/// and hands out the data stream of the modem.
pub proof fn law_attempt_order<'s, P, Io>(
    modem: Modem<P, Io>,
    pin: &'s str,
    apn: &'s str,
    number: &'s str,
    events: Seq<Event>,
)
    requires
        modem.ppp_io is Some,
        run(modem.connecting(pin, apn, number).1, events) matches Some(Step::Done(Ok(_))),
    ensures
        run(modem.connecting(pin, apn, number).1, events)->0->Done_0->Ok_0 == modem.ppp_io->0,
        reports(events) > 0,
        accepted(modem.connecting(pin, apn, number).1, events) == seq![
            Command::AT(AT),
            Command::E0(E0),
            Command::CPINQuery(CPINQuery),
            Command::CPIN(CPIN { pin }),
            Command::CEREGQuery(CEREGQuery),
        ] + Seq::new(reports(events), |i: int| Command::CPSIQuery(CPSIQuery)) + seq![
            Command::CGDCONT(CGDCONT { cid: 1, pdp_type: "IP", apn }),
            Command::ATD(ATD { number }),
        ],
{
    let io = modem.ppp_io->0;
    let step = modem.connecting(pin, apn, number).1;
    modem::law_attempt_is_for_what_was_given(modem, pin, apn, number);
    modem::law_first_step(Stage::Connection, Goal::Connect { pin, apn, number }, io);
    assert(step == modem::first_step(Stage::Connection, Goal::Connect { pin, apn, number }, io));
    law_connection_order(pin, apn, number, io, events);
    law_end_has_its_cause(step, events);
}

/// A preparation that succeeds has had these commands accepted and no others, in this
/// order.
pub proof fn law_preparation_order<'s, T>(
    pin: &'s str,
    apn: &'s str,
    outcome: T,
    events: Seq<Event>,
)
    requires
        run(
            modem::first_step(Stage::Connection, Goal::Prepare { pin, apn }, outcome),
            events,
        ) matches Some(Step::Done(Ok(_))),
    ensures
        reports(events) > 0,
        accepted(
            modem::first_step(Stage::Connection, Goal::Prepare { pin, apn }, outcome),
            events,
        ) == seq![
            Command::AT(AT),
            Command::E0(E0),
            Command::CPINQuery(CPINQuery),
            Command::CPIN(CPIN { pin }),
            Command::CEREGQuery(CEREGQuery),
        ] + Seq::new(reports(events), |i: int| Command::CPSIQuery(CPSIQuery)) + seq![
            Command::CGDCONT(CGDCONT { cid: 1, pdp_type: "IP", apn }),
        ],
{
    let goal = Goal::Prepare { pin, apn };
    let start = modem::first_step(Stage::Connection, goal, outcome);
    let k = reports(events);
    law_accepted_as_planned(start, events, 0);
    lemma_report_comes(start, events);
    assert(accepted(start, events) + Seq::<Command<'s>>::empty() =~= accepted(start, events));
    let asked = Seq::new(k, |i: int| Command::<'s>::CPSIQuery(CPSIQuery));
    let context = seq![Stage::Context(apn).request()];
    assert(plan(Stage::Context(apn), goal, k) == context);
    assert(plan(Stage::Service, goal, k) =~= asked + context);
    let tail = asked + context;
    assert(plan(Stage::Registration, goal, k) == seq![Stage::Registration.request()] + tail);
    assert(plan(Stage::Pin(pin), goal, k) == seq![Stage::Pin(pin).request()] + (seq![
        Stage::Registration.request(),
    ] + tail));
    assert(plan(Stage::Sim, goal, k) == seq![Stage::Sim.request()] + plan(
        Stage::Pin(pin),
        goal,
        k,
    ));
    assert(plan(Stage::Echo, goal, k) == seq![Stage::Echo.request()] + plan(Stage::Sim, goal, k));
    assert(plan(Stage::Connection, goal, k) == seq![Stage::Connection.request()] + plan(
        Stage::Echo,
        goal,
        k,
    ));
}

/// A preparation succeeds with a modem that accepts every command and has service.
pub proof fn law_willing_modem_is_prepared<'s, T>(
    pin: &'s str,
    apn: &'s str,
    outcome: T,
    report: UrcEvent,
)
    requires
        report matches UrcEvent::Message(Urc::CPSI(r)) && r.system_mode != SystemMode::NoService,
    ensures
        run(
            modem::first_step(Stage::Connection, Goal::Prepare { pin, apn }, outcome),
            seq![
                Event::Accepted,
                Event::Accepted,
                Event::Accepted,
                Event::Accepted,
                Event::Accepted,
                Event::Accepted,
                Event::Heard(report),
                Event::Accepted,
            ],
        ) == Some(Step::<'s, T>::Done(Ok(outcome))),
{
    let goal = Goal::Prepare { pin, apn };
    let service = Session { stage: Stage::Service, goal, outcome };
    let done = Step::<'s, T>::Done(Ok(outcome));
    let e8 = seq![Event::Accepted];
    let e7 = seq![Event::Heard(report)] + e8;
    let e6 = seq![Event::Accepted] + e7;
    let e5 = seq![Event::Accepted] + e6;
    let e4 = seq![Event::Accepted] + e5;
    let e3 = seq![Event::Accepted] + e4;
    let e2 = seq![Event::Accepted] + e3;
    let e1 = seq![Event::Accepted] + e2;
    assert(e8.drop_first() =~= Seq::<Event>::empty());
    assert(e7.drop_first() =~= e8);
    assert(e6.drop_first() =~= e7);
    assert(e5.drop_first() =~= e6);
    assert(e4.drop_first() =~= e5);
    assert(e3.drop_first() =~= e4);
    assert(e2.drop_first() =~= e3);
    assert(e1.drop_first() =~= e2);
    assert(run(done, e8.drop_first()) == Some(done));
    assert(run(modem::first_step(Stage::Context(apn), goal, outcome), e8) == Some(done));
    assert(run(Step::Await(Awaiting { session: service }), e7) == Some(done));
    assert(run(modem::first_step(Stage::Service, goal, outcome), e6) == Some(done));
    assert(run(modem::first_step(Stage::Registration, goal, outcome), e5) == Some(done));
    assert(run(modem::first_step(Stage::Pin(pin), goal, outcome), e4) == Some(done));
    assert(run(modem::first_step(Stage::Sim, goal, outcome), e3) == Some(done));
    assert(run(modem::first_step(Stage::Echo, goal, outcome), e2) == Some(done));
    assert(run(modem::first_step(Stage::Connection, goal, outcome), e1) == Some(done));
    assert(e1 =~= seq![
        Event::Accepted,
        Event::Accepted,
        Event::Accepted,
        Event::Accepted,
        Event::Accepted,
        Event::Accepted,
        Event::Heard(report),
        Event::Accepted,
    ]);
}

/// A way of one stage ends well when its command is accepted; only the stage that asks about
/// the network waits for the report as well.
pub proof fn law_one_stage_ends_when_accepted<'s, T>(stage: Stage<'s>, outcome: T)
    ensures
        ({
            let session = Session { stage, goal: Goal::<'s>::Stage, outcome };
            after(Step::Send(Sending { session }), Event::Accepted) == Some(
                if stage is Service {
                    Step::Await(Awaiting { session })
                } else {
                    Step::<'s, T>::Done(Ok(outcome))
                },
            )
        }),
{
}

} // verus!
