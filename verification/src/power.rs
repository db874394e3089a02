//! Switching the modem on.
use vstd::prelude::*;

verus! {

/// The pins that switch the modem on.
pub struct PowerPins<P> {
    pub power_control: P,
    pub reset: P,
    pub dtr: P,
    pub power_on: P,
}

/// One of the pins.
#[derive(Clone, Copy, Debug, PartialEq, Eq, Structural)]
pub enum PowerPin {
    PowerControl,
    Reset,
    Dtr,
    PowerOn,
}

/// What a pin is driven to.
#[derive(Clone, Copy, Debug, PartialEq, Eq, Structural)]
pub enum Level {
    Low,
    High,
}

/// One action of those that switch the modem on.
#[derive(Clone, Copy, Debug, PartialEq, Eq, Structural)]
pub enum PowerAction {
    /// Drive a pin to a level.
    Drive(PowerPin, Level),
    /// Wait so many milliseconds.
    Wait(u64),
}

/// The actions that switch the modem on: the supply, a pulse on the reset pin, the
/// terminal ready pin, and a pulse on the power key.
pub open spec fn power_on_actions() -> Seq<PowerAction> {
    seq![
        PowerAction::Drive(PowerPin::PowerControl, Level::High),
        PowerAction::Drive(PowerPin::Reset, Level::Low),
        PowerAction::Wait(100),
        PowerAction::Drive(PowerPin::Reset, Level::High),
        PowerAction::Wait(2600),
        PowerAction::Drive(PowerPin::Reset, Level::Low),
        PowerAction::Drive(PowerPin::Dtr, Level::Low),
        PowerAction::Drive(PowerPin::PowerOn, Level::Low),
        PowerAction::Wait(100),
        PowerAction::Drive(PowerPin::PowerOn, Level::High),
        PowerAction::Wait(100),
        PowerAction::Drive(PowerPin::PowerOn, Level::Low),
    ]
}

impl<P> PowerPins<P> {
    /// The pin of the given name.
    pub open spec fn named(self, pin: PowerPin) -> P {
        match pin {
            PowerPin::PowerControl => self.power_control,
            PowerPin::Reset => self.reset,
            PowerPin::Dtr => self.dtr,
            PowerPin::PowerOn => self.power_on,
        }
    }

    /// The pins with another in the place of the named one.
    pub open spec fn with(self, pin: PowerPin, p: P) -> PowerPins<P> {
        match pin {
            PowerPin::PowerControl => PowerPins { power_control: p, ..self },
            PowerPin::Reset => PowerPins { reset: p, ..self },
            PowerPin::Dtr => PowerPins { dtr: p, ..self },
            PowerPin::PowerOn => PowerPins { power_on: p, ..self },
        }
    }

    /// The pin of the given name, to be driven.
    pub fn pin(&mut self, pin: PowerPin) -> (r: &mut P)
        ensures
            *r == old(self).named(pin),
            *final(self) == old(self).with(pin, *final(r)),
    {
        match pin {
            PowerPin::PowerControl => &mut self.power_control,
            PowerPin::Reset => &mut self.reset,
            PowerPin::Dtr => &mut self.dtr,
            PowerPin::PowerOn => &mut self.power_on,
        }
    }

    /// Starts to switch the modem on.
    pub fn power_on(&mut self) -> (r: PowerOn)
        ensures
            r.done == 0,
            *final(self) == *old(self),
    {
        PowerOn { done: 0 }
    }
}

/// How far the modem was switched on.
#[derive(Clone, Copy, Debug)]
pub struct PowerOn {
    /// How many actions were taken.
    pub done: usize,
}

impl PowerOn {
    /// The next action to be taken, if any is left.
    pub fn next(&mut self) -> (r: Option<PowerAction>)
        ensures
            ({
                let n = old(self).done as int;
                if n < power_on_actions().len() {
                    r == Some(power_on_actions()[n]) && final(self).done == n + 1
                } else {
                    r is None && *final(self) == *old(self)
                }
            }),
    {
        let action = match self.done {
            0 => PowerAction::Drive(PowerPin::PowerControl, Level::High),
            1 => PowerAction::Drive(PowerPin::Reset, Level::Low),
            2 => PowerAction::Wait(100),
            3 => PowerAction::Drive(PowerPin::Reset, Level::High),
            4 => PowerAction::Wait(2600),
            5 => PowerAction::Drive(PowerPin::Reset, Level::Low),
            6 => PowerAction::Drive(PowerPin::Dtr, Level::Low),
            7 => PowerAction::Drive(PowerPin::PowerOn, Level::Low),
            8 => PowerAction::Wait(100),
            9 => PowerAction::Drive(PowerPin::PowerOn, Level::High),
            10 => PowerAction::Wait(100),
            11 => PowerAction::Drive(PowerPin::PowerOn, Level::Low),
            _ => return None,
        };
        self.done = self.done + 1;
        Some(action)
    }
}

/// The levels of the pins after the first `n` actions, from the given levels on.
pub open spec fn levels_after(start: PowerPins<Level>, n: nat) -> PowerPins<Level>
    decreases n,
{
    if n == 0 {
        start
    } else {
        let before = levels_after(start, (n - 1) as nat);
        match power_on_actions()[n - 1] {
            PowerAction::Drive(pin, level) => before.with(pin, level),
            PowerAction::Wait(_) => before,
        }
    }
}

/// How many milliseconds the first `n` actions wait.
pub open spec fn millis_after(n: nat) -> nat
    decreases n,
{
    if n == 0 {
        0
    } else {
        let before = millis_after((n - 1) as nat);
        match power_on_actions()[n - 1] {
            PowerAction::Drive(_, _) => before,
            PowerAction::Wait(millis) => before + millis as nat,
        }
    }
}

/// Whatever the pins were driven to before, in the end the supply is on, and the reset
/// pin, the terminal ready pin and the power key are low.
pub proof fn law_power_on_levels(start: PowerPins<Level>)
    ensures
        levels_after(start, power_on_actions().len()) == (PowerPins {
            power_control: Level::High,
            reset: Level::Low,
            dtr: Level::Low,
            power_on: Level::Low,
        }),
{
    reveal_with_fuel(levels_after, 13);
}

/// The supply is on before any other pin is driven, and stays on.
pub proof fn law_supply_comes_first(start: PowerPins<Level>, n: nat)
    requires
        n <= power_on_actions().len(),
    ensures
        n > 0 ==> levels_after(start, n).power_control == Level::High,
        n <= 1 ==> levels_after(start, n).reset == start.reset,
        n <= 1 ==> levels_after(start, n).dtr == start.dtr,
        n <= 1 ==> levels_after(start, n).power_on == start.power_on,
    decreases n,
{
    reveal_with_fuel(levels_after, 2);
    if n > 1 {
        law_supply_comes_first(start, (n - 1) as nat);
    }
}

/// Switching the modem on waits 2.9 s in all, and the power key is not touched before
/// 2.7 s have passed, when the reset pulse is over.
pub proof fn law_power_on_takes(start: PowerPins<Level>, n: nat)
    requires
        n <= power_on_actions().len(),
    ensures
        millis_after(power_on_actions().len()) == 2900,
        millis_after(n) < 2700 ==> levels_after(start, n).power_on == start.power_on,
        millis_after(n) >= 2700 <==> n >= 5,
    decreases n,
{
    assert(millis_after(power_on_actions().len()) == 2900) by {
        reveal_with_fuel(millis_after, 13);
    }
    assert(millis_after(5) == 2700 && millis_after(4) == 100) by {
        reveal_with_fuel(millis_after, 6);
    }
    if n > 0 {
        law_power_on_takes(start, (n - 1) as nat);
    }
}

/// To drive a pin changes that pin, and no other.
pub proof fn law_pins_are_apart<P>(pins: PowerPins<P>, pin: PowerPin, other: PowerPin, p: P)
    ensures
        pins.with(pin, p).named(pin) == p,
        other != pin ==> pins.with(pin, p).named(other) == pins.named(other),
        pins.named(PowerPin::PowerControl) == pins.power_control,
        pins.named(PowerPin::Reset) == pins.reset,
        pins.named(PowerPin::Dtr) == pins.dtr,
        pins.named(PowerPin::PowerOn) == pins.power_on,
{
}

/// Each pin that is pulsed is held for its time: the reset pin is low for 100 ms and then
/// high for 2600 ms, the power key low for 100 ms and then high for 100 ms, whatever the
/// levels were before.
pub proof fn law_pulses_have_their_lengths(start: PowerPins<Level>)
    ensures
        levels_after(start, 2).reset == Level::Low,
        millis_after(3) - millis_after(2) == 100,
        levels_after(start, 4).reset == Level::High,
        millis_after(5) - millis_after(4) == 2600,
        levels_after(start, 8).power_on == Level::Low,
        millis_after(9) - millis_after(8) == 100,
        levels_after(start, 10).power_on == Level::High,
        millis_after(11) - millis_after(10) == 100,
{
    assert(levels_after(start, 2).reset == Level::Low) by {
        reveal_with_fuel(levels_after, 3);
    }
    assert(levels_after(start, 4).reset == Level::High) by {
        reveal_with_fuel(levels_after, 5);
    }
    assert(levels_after(start, 8).power_on == Level::Low) by {
        reveal_with_fuel(levels_after, 9);
    }
    assert(levels_after(start, 10).power_on == Level::High) by {
        reveal_with_fuel(levels_after, 11);
    }
    reveal_with_fuel(millis_after, 12);
}

} // verus!
