use a76xx::{Level, PowerAction, PowerPin, PowerPins};

#[test]
fn the_modem_is_switched_on_in_order() {
    let mut pins = PowerPins { power_control: (), reset: (), dtr: (), power_on: () };
    let mut on = pins.power_on();
    let mut actions = Vec::new();
    while let Some(action) = on.next() {
        actions.push(action);
    }
    assert_eq!(
        actions,
        vec![
            PowerAction::Drive(PowerPin::PowerControl, Level::High),
            PowerAction::Drive(PowerPin::Reset, Level::Low),
            PowerAction::Wait(100),
            PowerAction::Drive(PowerPin::Reset, Level::High),
            PowerAction::Wait(2600),
            PowerAction::Drive(PowerPin::Reset, Level::Low),
            PowerAction::Drive(PowerPin::Dtr, Level::Low),
            PowerAction::Drive(PowerPin::PowerOn, Level::Low),
            PowerAction::Wait(100),
            PowerAction::Drive(PowerPin::PowerOn, Level::High),
            PowerAction::Wait(100),
            PowerAction::Drive(PowerPin::PowerOn, Level::Low),
        ]
    );
    assert_eq!(on.next(), None);
}

#[test]
fn the_pins_end_at_their_levels() {
    let mut pins = PowerPins {
        power_control: Level::Low,
        reset: Level::High,
        dtr: Level::High,
        power_on: Level::High,
    };
    let mut waited = 0;
    let mut on = pins.power_on();
    while let Some(action) = on.next() {
        match action {
            PowerAction::Drive(pin, level) => *pins.pin(pin) = level,
            PowerAction::Wait(millis) => waited += millis,
        }
        assert_eq!(pins.power_control, Level::High);
        if waited < 2700 {
            assert_eq!(pins.power_on, Level::High);
        }
    }
    assert_eq!(pins.reset, Level::Low);
    assert_eq!(pins.dtr, Level::Low);
    assert_eq!(pins.power_on, Level::Low);
    assert_eq!(waited, 2900);
}

#[test]
fn each_pin_has_its_name() {
    let mut pins = PowerPins { power_control: 1, reset: 2, dtr: 3, power_on: 4 };
    assert_eq!(*pins.pin(PowerPin::PowerControl), 1);
    assert_eq!(*pins.pin(PowerPin::Reset), 2);
    assert_eq!(*pins.pin(PowerPin::Dtr), 3);
    assert_eq!(*pins.pin(PowerPin::PowerOn), 4);
}
