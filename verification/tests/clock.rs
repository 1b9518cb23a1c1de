use relay_control::clock::{local_time_at, LocalTime, TimeOfDay, Times};

fn at(hour: u8, minute: u8, second: u8) -> TimeOfDay {
    TimeOfDay { hour, minute, second }
}

fn window(start: TimeOfDay, end: TimeOfDay) -> Times {
    Times { start_time: start, end_time: end }
}

#[test]
fn seconds_since_midnight() {
    assert_eq!(at(0, 0, 0).to_sec(), 0);
    assert_eq!(at(1, 2, 3).to_sec(), 3723);
    assert_eq!(at(23, 59, 59).to_sec(), 86399);
    assert_eq!(at(255, 255, 255).to_sec(), 933555);
}

#[test]
fn daytime_window_is_open_inside_only() {
    let w = window(at(8, 0, 0), at(17, 0, 0));
    assert!(w.on_or_off(at(12, 0, 0)));
    assert!(w.on_or_off(at(8, 0, 1)));
    assert!(!w.on_or_off(at(8, 0, 0)));
    assert!(!w.on_or_off(at(17, 0, 0)));
    assert!(!w.on_or_off(at(7, 59, 59)));
    assert!(!w.on_or_off(at(23, 0, 0)));
}

#[test]
fn overnight_window_spans_midnight() {
    let w = window(at(22, 0, 0), at(6, 0, 0));
    assert!(w.on_or_off(at(23, 0, 0)));
    assert!(w.on_or_off(at(0, 0, 0)));
    assert!(w.on_or_off(at(3, 0, 0)));
    assert!(w.on_or_off(at(5, 59, 59)));
    assert!(!w.on_or_off(at(6, 0, 0)));
    assert!(!w.on_or_off(at(12, 0, 0)));
    assert!(!w.on_or_off(at(22, 0, 0)));
}

#[test]
fn window_that_ends_where_it_starts_is_closed() {
    let w = window(at(10, 0, 0), at(10, 0, 0));
    for h in 0..24u8 {
        assert!(!w.on_or_off(at(h, 0, 0)));
        assert!(!w.on_or_off(at(h, 30, 0)));
    }
}

#[test]
fn swapped_windows_are_complements() {
    let a = window(at(9, 0, 0), at(18, 0, 0));
    let b = window(at(18, 0, 0), at(9, 0, 0));
    for h in 0..24u8 {
        let now = at(h, 30, 0);
        assert_ne!(a.on_or_off(now), b.on_or_off(now));
    }
}

#[test]
fn amsterdam_summer_time() {
    // 2024-07-01 12:00:00 UTC, a Monday.
    let t = local_time_at(1_719_835_200).unwrap();
    assert_eq!(
        t,
        LocalTime { time: at(14, 0, 0), month: 7, weekday: 1 }
    );
}

#[test]
fn amsterdam_winter_time() {
    // 2024-01-15 12:00:00 UTC, a Monday.
    let t = local_time_at(1_705_320_000).unwrap();
    assert_eq!(t, LocalTime { time: at(13, 0, 0), month: 1, weekday: 1 });
}

#[test]
fn amsterdam_switch_to_summer_time() {
    // The clocks move from 02:00 to 03:00 on 2024-03-31, a Sunday.
    let before = local_time_at(1_711_846_799).unwrap();
    assert_eq!(before, LocalTime { time: at(1, 59, 59), month: 3, weekday: 0 });
    let after = local_time_at(1_711_846_800).unwrap();
    assert_eq!(after, LocalTime { time: at(3, 0, 0), month: 3, weekday: 0 });
}

#[test]
fn unrepresentable_time_has_no_reading() {
    assert_eq!(local_time_at(i64::MAX), None);
    assert_eq!(local_time_at(i64::MIN), None);
}

#[test]
fn seconds_follow_clock_order() {
    let times = [at(0, 0, 0), at(0, 0, 59), at(0, 1, 0), at(9, 59, 59), at(10, 0, 0), at(23, 59, 59)];
    for a in times {
        for b in times {
            let by_fields = (a.hour, a.minute, a.second) < (b.hour, b.minute, b.second);
            assert_eq!(a.to_sec() < b.to_sec(), by_fields);
        }
    }
}
