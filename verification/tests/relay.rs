use relay_control::clock::{LocalTime, TimeOfDay, Times};
use relay_control::relay::{channel_of, Condition, LightAmount, Relay, RelayNumber, Relays};
use relay_control::schedule::{DaysOffTheWeek, Month};

fn at(hour: u8, minute: u8, second: u8) -> TimeOfDay {
    TimeOfDay { hour, minute, second }
}

fn local(hour: u8, minute: u8, month: u32, weekday: u32) -> LocalTime {
    LocalTime { time: at(hour, minute, 0), month, weekday }
}

fn always_on(number: RelayNumber) -> Relay {
    Relay {
        number,
        condition: Condition::Time(Some(None)),
        days_off_the_week: DaysOffTheWeek::all(),
        operating_months: Month::all(),
        exclude_times: None,
    }
}

#[test]
fn pins_of_outputs() {
    assert_eq!(RelayNumber::Relay1.get_pin_i32(), 21);
    assert_eq!(RelayNumber::Relay2.get_pin_i32(), 19);
    assert_eq!(RelayNumber::Relay3.get_pin_i32(), 18);
    assert_eq!(RelayNumber::Relay4.get_pin_i32(), 5);
    assert_eq!(RelayNumber::StatusLed.get_pin_i32(), 25);
    assert_eq!(Relay::new(RelayNumber::Relay4).get_pin_i32(), 5);
    assert_eq!(always_on(RelayNumber::StatusLed).get_pin_i32(), 25);
}

#[test]
fn names_of_outputs() {
    assert_eq!(RelayNumber::Relay1.get_name(), "Relay1");
    assert_eq!(RelayNumber::Relay2.get_name(), "Relay2");
    assert_eq!(RelayNumber::Relay3.get_name(), "Relay3");
    assert_eq!(RelayNumber::Relay4.get_name(), "Relay4");
    assert_eq!(RelayNumber::StatusLed.get_name(), "StatusLed");
}

#[test]
fn new_relay_has_default_settings() {
    let r = Relay::new(RelayNumber::Relay2);
    assert_eq!(r.number, RelayNumber::Relay2);
    assert_eq!(r.condition, Condition::Time(None));
    assert_eq!(r.days_off_the_week.days, 0xff);
    assert_eq!(r.operating_months.months, 0x0fff);
    assert_eq!(r.exclude_times, None);
}

#[test]
fn new_relay_stays_off() {
    let r = Relay::new(RelayNumber::Relay1);
    for h in 0..24u8 {
        for wd in 0..7u32 {
            assert!(!r.pin_state(local(h, 15, 6, wd)));
        }
    }
    assert_eq!(r.pin_state_at(1_719_835_200), Some(false));
}

#[test]
fn init_prefers_stored_settings() {
    assert_eq!(Relay::init(RelayNumber::Relay3, None), Relay::new(RelayNumber::Relay3));
    let stored = always_on(RelayNumber::Relay1);
    assert_eq!(Relay::init(RelayNumber::Relay3, Some(stored.clone())), stored);
}

#[test]
fn relays_init_fills_each_output() {
    let stored = always_on(RelayNumber::Relay2);
    let relays = Relays::init(None, Some(stored.clone()), None, None, None);
    assert_eq!(relays.relay_1, Relay::new(RelayNumber::Relay1));
    assert_eq!(relays.relay_2, stored);
    assert_eq!(relays.relay_3, Relay::new(RelayNumber::Relay3));
    assert_eq!(relays.relay_4, Relay::new(RelayNumber::Relay4));
    assert_eq!(relays.status_led, Relay::new(RelayNumber::StatusLed));
}

#[test]
fn time_conditions() {
    let now = at(12, 0, 0);
    assert!(!Condition::Time(None).on_or_off(now));
    assert!(Condition::Time(Some(None)).on_or_off(now));
    let morning = Times { start_time: at(6, 0, 0), end_time: at(11, 0, 0) };
    let noon = Times { start_time: at(11, 0, 0), end_time: at(13, 0, 0) };
    assert!(!Condition::Time(Some(Some(morning))).on_or_off(now));
    assert!(Condition::Time(Some(Some(noon))).on_or_off(now));
}

#[test]
fn filters_keep_the_pin_low() {
    let on = always_on(RelayNumber::Relay1);
    assert!(on.pin_state(local(12, 0, 7, 3)));

    let mut summer_off = on.clone();
    summer_off.operating_months = Month { months: 0b1111_0001_1111 };
    assert!(!summer_off.pin_state(local(12, 0, 7, 3)));
    assert!(summer_off.pin_state(local(12, 0, 1, 3)));

    let mut windowed = on.clone();
    windowed.exclude_times = Some(Times { start_time: at(8, 0, 0), end_time: at(20, 0, 0) });
    assert!(windowed.pin_state(local(12, 0, 7, 3)));
    assert!(!windowed.pin_state(local(21, 0, 7, 3)));
}

#[test]
fn weekday_selection_counts_sunday_as_zero() {
    let mut mondays = always_on(RelayNumber::Relay1);
    mondays.days_off_the_week = DaysOffTheWeek::days_to_struct(vec![1]);
    assert!(mondays.pin_state(local(12, 0, 1, 1)));
    assert!(!mondays.pin_state(local(12, 0, 1, 0)));
    assert!(!mondays.pin_state(local(12, 0, 1, 2)));
    // 2024-01-15 12:00 UTC is a Monday in Amsterdam; 2024-03-31 is a Sunday.
    assert_eq!(mondays.pin_state_at(1_705_320_000), Some(true));
    assert_eq!(mondays.pin_state_at(1_711_846_800), Some(false));

    let mut sundays = always_on(RelayNumber::Relay2);
    sundays.days_off_the_week = DaysOffTheWeek::days_to_struct(vec![0]);
    assert!(sundays.pin_state(local(12, 0, 5, 0)));
    assert!(!sundays.pin_state(local(12, 0, 5, 6)));
    assert_eq!(sundays.pin_state_at(1_711_846_800), Some(true));
    assert_eq!(sundays.pin_state_at(1_705_320_000), Some(false));
}

#[test]
fn channels_of_outputs() {
    assert_eq!(channel_of(RelayNumber::Relay1), 0);
    assert_eq!(channel_of(RelayNumber::Relay2), 1);
    assert_eq!(channel_of(RelayNumber::Relay3), 2);
    assert_eq!(channel_of(RelayNumber::Relay4), 3);
    assert_eq!(channel_of(RelayNumber::StatusLed), 4);
}

#[test]
fn pin_state_at_reads_the_local_clock() {
    let mut r = always_on(RelayNumber::Relay4);
    r.condition = Condition::Time(Some(Some(Times {
        start_time: at(13, 30, 0),
        end_time: at(14, 30, 0),
    })));
    // 2024-07-01 12:00 UTC is 14:00 in Amsterdam.
    assert_eq!(r.pin_state_at(1_719_835_200), Some(true));
    // 2024-01-15 12:00 UTC is 13:00 in Amsterdam.
    assert_eq!(r.pin_state_at(1_705_320_000), Some(false));
    assert_eq!(r.pin_state_at(i64::MAX), None);
    assert!(r.pin_state_at(-8_000_000_000_000).is_some());
    assert!(r.pin_state_at(8_000_000_000_000).is_some());
}

#[test]
fn light_conditions_are_not_decided() {
    let light = LightAmount { greater_or_less: true, value: 300 };
    let mut r = always_on(RelayNumber::Relay1);
    r.condition = Condition::LightAmount(light);
    assert_eq!(r.pin_state_at(1_719_835_200), None);
    r.condition = Condition::LightAmountTimeLimited(
        light,
        Times { start_time: at(1, 0, 0), end_time: at(2, 0, 0) },
    );
    assert_eq!(r.pin_state_at(1_719_835_200), None);
    // Where the month keeps the relay off, the light condition is never asked.
    r.operating_months = Month { months: 0 };
    assert_eq!(r.pin_state_at(1_719_835_200), Some(false));
    assert!(!r.pin_state(local(12, 0, 7, 0)));
}
