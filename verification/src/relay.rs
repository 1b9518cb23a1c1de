//! Relays, their switching conditions, and the decision whether a relay's pin
//! is driven high.

use vstd::prelude::*;

use crate::clock::{
    amsterdam_clock, clock_range, local_time_at, local_time_of, LocalTime, TimeOfDay, Times,
};
use crate::schedule::{DaysOffTheWeek, Month};

verus! {

/// The outputs of the controller.
#[derive(Debug, Clone, Copy, PartialEq, Eq)]
pub enum RelayNumber {
    Relay1,
    Relay2,
    Relay3,
    Relay4,
    StatusLed,
}

/// The GPIO pin that drives an output.
pub open spec fn pin_of(number: RelayNumber) -> i32 {
    match number {
        RelayNumber::Relay1 => 21,
        RelayNumber::Relay2 => 19,
        RelayNumber::Relay3 => 18,
        RelayNumber::Relay4 => 5,
        RelayNumber::StatusLed => 25,
    }
}

/// The name under which an output's settings are stored.
pub open spec fn name_of(number: RelayNumber) -> Seq<char> {
    match number {
        RelayNumber::Relay1 => "Relay1"@,
        RelayNumber::Relay2 => "Relay2"@,
        RelayNumber::Relay3 => "Relay3"@,
        RelayNumber::Relay4 => "Relay4"@,
        RelayNumber::StatusLed => "StatusLed"@,
    }
}

impl RelayNumber {
    /// The GPIO pin that drives this output.
    pub fn get_pin_i32(self) -> (r: i32)
        ensures
            r == pin_of(self),
    {
        match self {
            RelayNumber::Relay1 => 21,
            RelayNumber::Relay2 => 19,
            RelayNumber::Relay3 => 18,
            RelayNumber::Relay4 => 5,
            RelayNumber::StatusLed => 25,
        }
    }

    /// The name under which this output's settings are stored.
    pub fn get_name(&self) -> (r: &str)
        ensures
            r@ == name_of(*self),
    {
        match self {
            RelayNumber::Relay1 => "Relay1",
            RelayNumber::Relay2 => "Relay2",
            RelayNumber::Relay3 => "Relay3",
            RelayNumber::Relay4 => "Relay4",
            RelayNumber::StatusLed => "StatusLed",
        }
    }
}

/// The position of an output among the controller's channels, in the order
/// relay 1 to 4, then the status LED.
pub open spec fn channel_index(number: RelayNumber) -> usize {
    match number {
        RelayNumber::Relay1 => 0,
        RelayNumber::Relay2 => 1,
        RelayNumber::Relay3 => 2,
        RelayNumber::Relay4 => 3,
        RelayNumber::StatusLed => 4,
    }
}

/// The channel that carries new settings for an output.
pub fn channel_of(number: RelayNumber) -> (i: usize)
    ensures
        i == channel_index(number),
        i < 5,
{
    match number {
        RelayNumber::Relay1 => 0,
        RelayNumber::Relay2 => 1,
        RelayNumber::Relay3 => 2,
        RelayNumber::Relay4 => 3,
        RelayNumber::StatusLed => 4,
    }
}

/// Two different outputs get their settings on two different channels.
pub proof fn law_channels_distinct(a: RelayNumber, b: RelayNumber)
    requires
        a != b,
    ensures
        channel_index(a) != channel_index(b),
{
}

/// Two different outputs are driven by two different pins.
pub proof fn law_pins_distinct(a: RelayNumber, b: RelayNumber)
    requires
        a != b,
    ensures
        pin_of(a) != pin_of(b),
{
}

/// Two different outputs store their settings under two different names.
pub proof fn law_names_distinct(a: RelayNumber, b: RelayNumber)
    requires
        a != b,
    ensures
        name_of(a) != name_of(b),
{
    reveal_strlit("Relay1");
    reveal_strlit("Relay2");
    reveal_strlit("Relay3");
    reveal_strlit("Relay4");
    reveal_strlit("StatusLed");
    if name_of(a) == name_of(b) {
        assert(name_of(a).len() == name_of(b).len());
        assert(name_of(a)[5] == name_of(b)[5]);
        assert(false);
    }
}

/// A threshold on the light level.
#[derive(Debug, Clone, Copy, PartialEq)]
pub struct LightAmount {
    pub greater_or_less: bool,
    pub value: u32,
}

/// When a relay is on. With `Time`, `None` means never, `Some(None)` means
/// always, and `Some(Some(window))` means inside the daily window. With a light
/// amount, the relay is on when the light level is above or below the
/// threshold, in `LightAmountTimeLimited` only inside the window.
#[derive(Debug, Clone, PartialEq)]
pub enum Condition {
    Time(Option<Option<Times>>),
    LightAmount(LightAmount),
    LightAmountTimeLimited(LightAmount, Times),
}

impl Condition {
    /// Whether the condition holds at `now`, where it is decided by the time of
    /// day alone; `None` for the light conditions, which the controller does
    /// not evaluate.
    pub open spec fn decides(&self, now: TimeOfDay) -> Option<bool> {
        match self {
            Condition::Time(None) => Some(false),
            Condition::Time(Some(None)) => Some(true),
            Condition::Time(Some(Some(window))) => Some(window.contains(now)),
            _ => None,
        }
    }

    /// Whether the condition holds at `current_time`. The light conditions have
    /// no evaluation, so only a time condition may be asked.
    pub fn on_or_off(&self, current_time: TimeOfDay) -> (r: bool)
        requires
            self is Time,
        ensures
            self.decides(current_time) == Some(r),
    {
        match self {
            Condition::Time(option_times) => {
                if let Some(times) = option_times {
                    if let Some(on_or_off) = times {
                        on_or_off.on_or_off(current_time)
                    } else {
                        true
                    }
                } else {
                    false
                }
            },
            _ => false,
        }
    }
}

/// The settings of one output.
#[derive(Debug, Clone, PartialEq)]
pub struct Relay {
    pub number: RelayNumber,
    pub condition: Condition,
    pub days_off_the_week: DaysOffTheWeek,
    pub operating_months: Month,
    /// A daily window outside of which the relay stays off.
    pub exclude_times: Option<Times>,
}

/// The settings that an output has before any are stored: never on, on every
/// weekday of every month.
pub open spec fn default_relay(number: RelayNumber) -> Relay {
    Relay {
        number,
        condition: Condition::Time(None),
        days_off_the_week: DaysOffTheWeek { days: 0xff },
        operating_months: Month { months: 0x0fff },
        exclude_times: None,
    }
}

impl Relay {
    /// Whether the month, the weekday and the window of `exclude_times` all let
    /// the relay on at `now`.
    pub open spec fn passes_filters(&self, now: LocalTime) -> bool {
        &&& self.operating_months@.contains(now.month as int)
        &&& self.days_off_the_week@.contains(now.weekday as int)
        &&& match self.exclude_times {
            Some(window) => window.contains(now.time),
            None => true,
        }
    }

    /// Whether the relay's pin is driven high at `now`.
    pub open spec fn pin_high(&self, now: LocalTime) -> bool {
        self.passes_filters(now) && self.condition.decides(now.time) == Some(true)
    }

    /// The settings of an output before any are stored.
    pub fn new(number: RelayNumber) -> (r: Relay)
        ensures
            r == default_relay(number),
    {
        Relay {
            condition: Condition::Time(None),
            number: number,
            days_off_the_week: DaysOffTheWeek::all(),
            operating_months: Month::all(),
            exclude_times: None,
        }
    }

    /// The settings that an output starts with: those that were stored, where
    /// some could be read back, else the defaults.
    pub fn init(number: RelayNumber, stored: Option<Relay>) -> (r: Relay)
        ensures
            r == match stored {
                Some(relay) => relay,
                None => default_relay(number),
            },
    {
        match stored {
            Some(relay) => relay,
            None => Relay::new(number),
        }
    }

    /// The GPIO pin of this relay's output.
    pub fn get_pin_i32(&self) -> (r: i32)
        ensures
            r == pin_of(self.number),
    {
        match self.number {
            RelayNumber::Relay1 => 21,
            RelayNumber::Relay2 => 19,
            RelayNumber::Relay3 => 18,
            RelayNumber::Relay4 => 5,
            RelayNumber::StatusLed => 25,
        }
    }

    /// Whether the relay's pin is driven high at `now`. Once the month, weekday
    /// and window let the relay on, its condition must be one of time.
    pub fn pin_state(&self, now: LocalTime) -> (r: bool)
        requires
            self.passes_filters(now) ==> self.condition is Time,
        ensures
            r == self.pin_high(now),
    {
        if !self.operating_months.is_current_month(now.month) {
            return false;
        }
        if !self.days_off_the_week.is_current_day(now.weekday) {
            return false;
        }
        if let Some(exclude_times) = &self.exclude_times {
            if !exclude_times.on_or_off(now.time) {
                return false;
            }
        }
        self.condition.on_or_off(now.time)
    }

    /// Whether the relay's pin is driven high at a UNIX time, read on the wall
    /// clock of the controller's site. `None` where the clock cannot show that
    /// time, or where the decision would rest on a light condition.
    pub fn pin_state_at(&self, unix_secs: i64) -> (r: Option<bool>)
        ensures
            r == match amsterdam_clock(unix_secs) {
                Some(f) => {
                    let now = local_time_of(f);
                    if self.passes_filters(now) && !(self.condition is Time) {
                        None
                    } else {
                        Some(self.pin_high(now))
                    }
                },
                None => None,
            },
            clock_range(unix_secs) && self.condition is Time ==> r is Some,
    {
        match local_time_at(unix_secs) {
            Some(now) => {
                let decided_by_time = match self.condition {
                    Condition::Time(_) => true,
                    _ => false,
                };
                if decided_by_time || !self.lets_on(now) {
                    Some(self.pin_state(now))
                } else {
                    None
                }
            },
            None => None,
        }
    }

    /// Whether the month, the weekday and the window of `exclude_times` all let
    /// the relay on at `now`.
    fn lets_on(&self, now: LocalTime) -> (r: bool)
        ensures
            r == self.passes_filters(now),
    {
        self.operating_months.is_current_month(now.month) && self.days_off_the_week.is_current_day(
            now.weekday,
        ) && match &self.exclude_times {
            Some(window) => window.on_or_off(now.time),
            None => true,
        }
    }
}

/// A time condition is never on with no window, always on with an open one,
/// and with a window on exactly strictly between its start and its end; a
/// window whose start is after its end runs over midnight, so every valid time
/// after its start or before its end is inside it.
pub proof fn law_time_condition(window: Times, now: TimeOfDay)
    requires
        window.start_time.is_valid(),
        window.end_time.is_valid(),
        now.is_valid(),
    ensures
        Condition::Time(None).decides(now) == Some(false),
        Condition::Time(Some(None)).decides(now) == Some(true),
        ({
            let start = window.start_time.hour * 3600 + window.start_time.minute * 60
                + window.start_time.second;
            let end = window.end_time.hour * 3600 + window.end_time.minute * 60
                + window.end_time.second;
            let t = now.hour * 3600 + now.minute * 60 + now.second;
            Condition::Time(Some(Some(window))).decides(now) == Some(
                if start <= end {
                    start < t && t < end
                } else {
                    start < t || t < end
                },
            )
        }),
{
}

/// Whatever its condition, a relay keeps its pin low outside its months, on a
/// weekday it does not select, and outside the window of `exclude_times`; its
/// pin is high only where its condition holds, and a relay that is always on
/// drives its pin high wherever month, weekday and window allow.
pub proof fn law_filters_keep_pin_low(relay: Relay, now: LocalTime)
    ensures
        relay.pin_high(now) ==> relay.operating_months.months & crate::schedule::month_mask(
            now.month as int,
        ) != 0,
        relay.pin_high(now) ==> 0 <= now.weekday <= 6 && relay.days_off_the_week.days
            & crate::schedule::weekday_mask(now.weekday as int) != 0,
        relay.pin_high(now) ==> match relay.exclude_times {
            Some(window) => window.contains(now.time),
            None => true,
        },
        relay.pin_high(now) ==> relay.condition.decides(now.time) == Some(true),
        relay.condition == Condition::Time(Some(None)) ==> (relay.pin_high(now) == (
        relay.operating_months@.contains(now.month as int) && relay.days_off_the_week@.contains(
            now.weekday as int,
        ) && match relay.exclude_times {
            Some(window) => window.contains(now.time),
            None => true,
        })),
{
}

/// A relay with the default settings keeps its pin low at every time.
pub proof fn law_default_relay_stays_off(number: RelayNumber, now: LocalTime)
    ensures
        !default_relay(number).pin_high(now),
{
}

/// The settings of all outputs.
#[derive(Debug, Clone, PartialEq)]
pub struct Relays {
    pub relay_1: Relay,
    pub relay_2: Relay,
    pub relay_3: Relay,
    pub relay_4: Relay,
    pub status_led: Relay,
}

impl Relays {
    /// The settings that the outputs start with, each from what was stored for
    /// it, where anything could be read back.
    pub fn init(
        relay_1: Option<Relay>,
        relay_2: Option<Relay>,
        relay_3: Option<Relay>,
        relay_4: Option<Relay>,
        status_led: Option<Relay>,
    ) -> (r: Relays)
        ensures
            r.relay_1 == (match relay_1 {
                Some(x) => x,
                None => default_relay(RelayNumber::Relay1),
            }),
            r.relay_2 == (match relay_2 {
                Some(x) => x,
                None => default_relay(RelayNumber::Relay2),
            }),
            r.relay_3 == (match relay_3 {
                Some(x) => x,
                None => default_relay(RelayNumber::Relay3),
            }),
            r.relay_4 == (match relay_4 {
                Some(x) => x,
                None => default_relay(RelayNumber::Relay4),
            }),
            r.status_led == (match status_led {
                Some(x) => x,
                None => default_relay(RelayNumber::StatusLed),
            }),
    {
        Relays {
            relay_1: Relay::init(RelayNumber::Relay1, relay_1),
            relay_2: Relay::init(RelayNumber::Relay2, relay_2),
            relay_3: Relay::init(RelayNumber::Relay3, relay_3),
            relay_4: Relay::init(RelayNumber::Relay4, relay_4),
            status_led: Relay::init(RelayNumber::StatusLed, status_led),
        }
    }
}

} // verus!
