//! Times of day, daily windows, and the wall clock of the controller's site.

use chrono::{Datelike, Timelike};
use vstd::prelude::*;

verus! {

/// Seconds in a day.
pub const SECONDS_PER_DAY: u32 = 86400;

/// A time of day.
#[derive(Debug, Clone, Copy, PartialEq)]
pub struct TimeOfDay {
    pub hour: u8,
    pub minute: u8,
    pub second: u8,
}

impl TimeOfDay {
    /// Seconds since midnight, counted from the fields as they are.
    pub open spec fn seconds(&self) -> int {
        self.hour * 3600 + self.minute * 60 + self.second
    }

    /// A time that a clock can show: hour below 24, minute and second below 60.
    pub open spec fn is_valid(&self) -> bool {
        self.hour < 24 && self.minute < 60 && self.second < 60
    }

    /// Seconds since midnight.
    pub fn to_sec(&self) -> (r: u32)
        ensures
            r == self.seconds(),
    {
        (self.hour as u32) * 3600 + (self.minute as u32) * 60 + (self.second as u32)
    }
}

/// Seconds since midnight order valid times of day as their hour, then minute,
/// then second do.
pub proof fn law_seconds_follow_clock_order(a: TimeOfDay, b: TimeOfDay)
    requires
        a.is_valid(),
        b.is_valid(),
    ensures
        (a.seconds() < b.seconds()) == (a.hour < b.hour || (a.hour == b.hour && (a.minute
            < b.minute || (a.minute == b.minute && a.second < b.second)))),
        (a.seconds() == b.seconds()) == (a.hour == b.hour && a.minute == b.minute && a.second
            == b.second),
{
}

/// Whether `now` lies strictly inside the daily window from `start` to `end`,
/// all three counted in seconds since midnight. A window whose start is later
/// than its end runs over midnight: its end, and a time before its end, are
/// taken on the next day.
pub open spec fn window_contains(start: int, end: int, now: int) -> bool {
    if start > end {
        let now_shifted = if now < end {
            now + SECONDS_PER_DAY
        } else {
            now
        };
        start < now_shifted && now_shifted < end + SECONDS_PER_DAY
    } else {
        start < now && now < end
    }
}

/// A daily window between two times of day.
#[derive(Debug, Clone, PartialEq)]
pub struct Times {
    pub start_time: TimeOfDay,
    pub end_time: TimeOfDay,
}

impl Times {
    /// Whether `now` lies strictly inside this window.
    pub open spec fn contains(&self, now: TimeOfDay) -> bool {
        window_contains(self.start_time.seconds(), self.end_time.seconds(), now.seconds())
    }

    /// Whether `current_time` lies strictly inside this window.
    pub fn on_or_off(&self, current_time: TimeOfDay) -> (r: bool)
        ensures
            r == self.contains(current_time),
    {
        let mut secs_current_time = current_time.to_sec();
        let secs_time_start = self.start_time.to_sec();
        let mut secs_end_time = self.end_time.to_sec();
        if secs_time_start > secs_end_time && secs_current_time < secs_end_time {
            secs_current_time += SECONDS_PER_DAY;
        }
        if secs_time_start > secs_end_time {
            secs_end_time += SECONDS_PER_DAY;
        }
        secs_time_start < secs_current_time && secs_current_time < secs_end_time
    }
}

/// A window that runs over midnight holds the times after its start and the
/// times before its end.
pub proof fn law_overnight_window(window: Times, now: TimeOfDay)
    requires
        window.start_time.is_valid(),
        window.end_time.is_valid(),
        now.is_valid(),
        window.start_time.seconds() > window.end_time.seconds(),
    ensures
        window.contains(now) == (now.seconds() > window.start_time.seconds() || now.seconds()
            < window.end_time.seconds()),
{
}

/// A window that starts where it ends holds no time at all.
pub proof fn law_empty_window(window: Times, now: TimeOfDay)
    requires
        window.start_time.seconds() == window.end_time.seconds(),
    ensures
        !window.contains(now),
{
}

/// Swapping the start and the end of a window gives its complement: every
/// valid time other than the two ends lies in exactly one of the two windows.
pub proof fn law_swapped_window_complement(start: TimeOfDay, end: TimeOfDay, now: TimeOfDay)
    requires
        start.is_valid(),
        end.is_valid(),
        now.is_valid(),
        now.seconds() != start.seconds(),
        now.seconds() != end.seconds(),
        start.seconds() != end.seconds(),
    ensures
        (Times { start_time: start, end_time: end }).contains(now) != (Times {
            start_time: end,
            end_time: start,
        }).contains(now),
{
}

/// The local time at the controller's site, as the schedule reads it.
#[derive(Debug, Clone, Copy, PartialEq)]
pub struct LocalTime {
    pub time: TimeOfDay,
    /// The month, January being 1.
    pub month: u32,
    /// The weekday, counted in days from Sunday (Sunday is 0, Saturday is 6).
    pub weekday: u32,
}

impl LocalTime {
    /// A time that a clock can show.
    pub open spec fn is_valid(&self) -> bool {
        self.time.is_valid() && 1 <= self.month <= 12 && self.weekday < 7
    }
}

/// The wall clock of Europe/Amsterdam at a UNIX time, as hour, minute, second,
/// month (January is 1) and weekday counted from Sunday; `None` where the time
/// lies outside the range of dates that the calendar library represents.
pub uninterp spec fn amsterdam_clock(unix_secs: i64) -> Option<(u32, u32, u32, u32, u32)>;

/// The fields of a wall-clock reading, as a `LocalTime`.
pub open spec fn local_time_of(fields: (u32, u32, u32, u32, u32)) -> LocalTime {
    LocalTime {
        time: TimeOfDay {
            hour: fields.0 as u8,
            minute: fields.1 as u8,
            second: fields.2 as u8,
        },
        month: fields.3,
        weekday: fields.4,
    }
}

/// The UNIX times (in seconds) that surely fall within the years that chrono
/// represents (from 262143 BCE to 262142 CE): about 253,000 years either way
/// of 1970.
pub open spec fn clock_range(unix_secs: i64) -> bool {
    -8_000_000_000_000 <= unix_secs <= 8_000_000_000_000
}

/// The month (January is 1) of the day `day` days after 1970-01-01 in the
/// proleptic Gregorian calendar, by the days-to-civil conversion in 400-year
/// eras (146097 days each, starting on March 1).
pub open spec fn civil_month(day: int) -> int {
    let z = day + 719468;
    let era = z / 146097;
    let doe = z - era * 146097;
    let yoe = (doe - doe / 1460 + doe / 36524 - doe / 146096) / 365;
    let doy = doe - (365 * yoe + yoe / 4 - yoe / 100);
    let mp = (5 * doy + 2) / 153;
    if mp < 10 {
        mp + 3
    } else {
        mp - 9
    }
}

/// The weekday (Sunday is 0) of the day `day` days after 1970-01-01, a Thursday.
pub open spec fn civil_weekday(day: int) -> int {
    (day + 4) % 7
}

/// The wall-clock fields (hour, minute, second, month, weekday counted from
/// Sunday) at UNIX time `utc` on a clock that runs `offset` seconds ahead of
/// UTC: all five read from one and the same local date and time.
pub open spec fn wall_clock_fields(utc: int, offset: int) -> (u32, u32, u32, u32, u32) {
    let local = utc + offset;
    (
        ((local % 86400) / 3600) as u32,
        ((local % 3600) / 60) as u32,
        (local % 60) as u32,
        civil_month(local / 86400) as u32,
        civil_weekday(local / 86400) as u32,
    )
}

/// Calls `chrono::DateTime::from_timestamp` (whole seconds, no fraction), converts
/// the result with `with_timezone` to `chrono_tz::Europe::Amsterdam`, and reads
/// `hour`, `minute`, `second`, `month` and `weekday().num_days_from_sunday()`.
/// Trusted: that the result is `amsterdam_clock` of the argument; that the
/// fields lie in the ranges that chrono documents for them (hour 0 to 23,
/// minute and second 0 to 59, month 1 to 12, weekday 0 to 6); and that there is
/// a reading for every time in `clock_range` (`from_timestamp` fails only for a
/// date outside chrono's years, and the conversion and field reads cannot fail);
/// and that, in that range, all five fields are read from the one local date and
/// time that lies between 0 and 2 hours after UTC. chrono counts in the
/// proleptic Gregorian calendar from 1970-01-01, and the zone data in chrono-tz
/// (`Europe/Amsterdam`, a link to `Europe/Brussels`) only has offsets of
/// +0:17:30, 0, +1:00 and +2:00; which of them applies at a time is left unsaid.
#[verifier::external_body]
fn amsterdam_wall_clock(unix_secs: i64) -> (r: Option<(u32, u32, u32, u32, u32)>)
    ensures
        r == amsterdam_clock(unix_secs),
        r matches Some(f) ==> f.0 < 24 && f.1 < 60 && f.2 < 60 && 1 <= f.3 <= 12 && f.4 < 7,
        clock_range(unix_secs) ==> r is Some,
        r matches Some(f) ==> (clock_range(unix_secs) ==> exists|offset: int|
            0 <= offset <= 7200 && f == #[trigger] wall_clock_fields(unix_secs as int, offset)),
{
    match chrono::DateTime::from_timestamp(unix_secs, 0) {
        Some(utc) => {
            let local = utc.with_timezone(&chrono_tz::Europe::Amsterdam);
            let weekday = local.weekday().num_days_from_sunday();
            Some((local.hour(), local.minute(), local.second(), local.month(), weekday))
        },
        None => None,
    }
}

/// The local time at the controller's site at a UNIX time (whole seconds).
pub fn local_time_at(unix_secs: i64) -> (r: Option<LocalTime>)
    ensures
        r == match amsterdam_clock(unix_secs) {
            Some(f) => Some(local_time_of(f)),
            None => None,
        },
        r matches Some(t) ==> t.is_valid(),
        clock_range(unix_secs) ==> r is Some,
        clock_range(unix_secs) ==> exists|offset: int|
            0 <= offset <= 7200 && r == Some(
                local_time_of(#[trigger] wall_clock_fields(unix_secs as int, offset)),
            ),
{
    match amsterdam_wall_clock(unix_secs) {
        Some((hour, minute, second, month, weekday)) => {
            let time = TimeOfDay { hour: hour as u8, minute: minute as u8, second: second as u8 };
            Some(LocalTime { time, month, weekday })
        },
        None => None,
    }
}

/// The local date at the controller's site is the UTC date, or the next day
/// exactly when the local time of day is earlier than the UTC time of day; the
/// month and weekday of a reading are those of that local date, and the local
/// time of day lies at most two hours after the UTC time of day.
pub proof fn law_local_date_follows_local_time(unix_secs: i64, t: LocalTime)
    requires
        clock_range(unix_secs),
        exists|offset: int|
            0 <= offset <= 7200 && t == local_time_of(
                #[trigger] wall_clock_fields(unix_secs as int, offset),
            ),
    ensures
        ({
            let utc_day = unix_secs / 86400;
            let utc_seconds = unix_secs % 86400;
            let local_day = if t.time.seconds() < utc_seconds {
                utc_day + 1
            } else {
                utc_day
            };
            &&& t.weekday == civil_weekday(local_day)
            &&& t.month == civil_month(local_day)
            &&& (t.time.seconds() - utc_seconds + 86400) % 86400 <= 7200
        }),
{
    let offset = choose|offset: int|
        0 <= offset <= 7200 && t == local_time_of(
            #[trigger] wall_clock_fields(unix_secs as int, offset),
        );
    let local = unix_secs + offset;
    let utc_day = unix_secs / 86400;
    let utc_seconds = unix_secs % 86400;
    assert(unix_secs == utc_day * 86400 + utc_seconds);
    let ls = local % 86400;
    assert(local == (local / 86400) * 86400 + ls);
    assert(0 <= ls < 86400);
    assert(((ls / 3600) * 3600 + ((local % 3600) / 60) * 60 + local % 60) == ls) by {
        assert(local % 3600 == ls % 3600) by {
            assert(local == (local / 86400) * 24 * 3600 + ls);
            vstd::arithmetic::div_mod::lemma_mod_multiples_vanish(
                (local / 86400) * 24,
                ls,
                3600,
            );
        }
        assert(local % 60 == ls % 60) by {
            assert(local == (local / 86400) * 1440 * 60 + ls);
            vstd::arithmetic::div_mod::lemma_mod_multiples_vanish((local / 86400) * 1440, ls, 60);
        }
        assert(ls % 3600 == ((ls % 3600) / 60) * 60 + ls % 60);
    }
    assert(t.time.seconds() == ls);
    if utc_seconds + offset < 86400 {
        assert(local / 86400 == utc_day && ls == utc_seconds + offset) by {
            vstd::arithmetic::div_mod::lemma_fundamental_div_mod_converse(
                local,
                86400,
                utc_day,
                utc_seconds + offset,
            );
        }
    } else {
        assert(local / 86400 == utc_day + 1 && ls == utc_seconds + offset - 86400) by {
            vstd::arithmetic::div_mod::lemma_fundamental_div_mod_converse(
                local,
                86400,
                utc_day + 1,
                utc_seconds + offset - 86400,
            );
        }
    }
}

} // verus!
