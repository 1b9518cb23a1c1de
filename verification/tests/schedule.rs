use relay_control::schedule::{DaysOffTheWeek, DaysOffTheWeek_depricated, Month, Month_depricated};

#[test]
fn all_months_accepts_every_month() {
    let all = Month::all();
    assert_eq!(all.months, 0x0fff);
    for m in 1..=12u32 {
        assert!(all.is_current_month(m), "month {m}");
    }
    assert!(!all.is_current_month(0));
    assert!(!all.is_current_month(13));
    assert!(!all.is_current_month(u32::MAX));
}

#[test]
fn months_to_mask_gives_one_bit_per_month() {
    assert_eq!(Month::months_to_mask(1), 0b0000_0000_0000_0001);
    assert_eq!(Month::months_to_mask(2), 0b0000_0000_0000_0010);
    assert_eq!(Month::months_to_mask(9), 0b0000_0001_0000_0000);
    assert_eq!(Month::months_to_mask(12), 0b0000_1000_0000_0000);
    assert_eq!(Month::months_to_mask(0), 0);
    assert_eq!(Month::months_to_mask(13), 0);
    assert_eq!(Month::months_to_mask(65537), 0);
}

#[test]
fn selected_months_only() {
    let winter = Month { months: 0b1000_0000_0011 };
    assert!(winter.is_current_month(1));
    assert!(winter.is_current_month(2));
    assert!(!winter.is_current_month(3));
    assert!(!winter.is_current_month(11));
    assert!(winter.is_current_month(12));
    let high_bits_only = Month { months: 0xf000 };
    for m in 0..=16u32 {
        assert!(!high_bits_only.is_current_month(m));
    }
}

#[test]
fn day_to_mask_counts_sunday_as_zero() {
    assert_eq!(DaysOffTheWeek::day_to_mask(1), 0b0000_0001);
    assert_eq!(DaysOffTheWeek::day_to_mask(5), 0b0001_0000);
    assert_eq!(DaysOffTheWeek::day_to_mask(6), 0b0010_0000);
    assert_eq!(DaysOffTheWeek::day_to_mask(0), 0b0100_0000);
    assert_eq!(DaysOffTheWeek::day_to_mask(7), 0);
    assert_eq!(DaysOffTheWeek::day_to_mask(255), 0);
    assert_eq!(DaysOffTheWeek::day_to_mask(256), 0);
    assert_eq!(DaysOffTheWeek::day_to_mask(u32::MAX), 0);
}

#[test]
fn all_days_accepts_every_weekday() {
    let all = DaysOffTheWeek::all();
    assert_eq!(all.days, u8::MAX);
    for d in 0..=6u32 {
        assert!(all.is_current_day(d));
    }
    assert!(!all.is_current_day(7));
    assert!(!all.is_current_day(200));
    assert!(!all.is_current_day(256));
    assert!(!all.is_current_day(1000));
}

#[test]
fn days_to_struct_selects_listed_weekdays() {
    let selection = DaysOffTheWeek::days_to_struct(vec![1, 3, 9, 3]);
    assert_eq!(selection.days, 0b0000_0101);
    assert!(selection.is_current_day(1));
    assert!(!selection.is_current_day(2));
    assert!(selection.is_current_day(3));
    assert!(!selection.is_current_day(0));
    assert!(!selection.is_current_day(9));

    let weekend = DaysOffTheWeek::days_to_struct(vec![6, 0]);
    assert_eq!(weekend.days, 0b0110_0000);
    assert!(weekend.is_current_day(0));
    assert!(weekend.is_current_day(6));
    assert!(!weekend.is_current_day(5));

    assert_eq!(DaysOffTheWeek::days_to_struct(vec![]).days, 0);
    assert_eq!(DaysOffTheWeek::days_to_struct(vec![0, 1, 2, 3, 4, 5, 6]).days, 0b0111_1111);
}

#[test]
fn flag_months() {
    let all = Month_depricated::all();
    for m in 1..=12u32 {
        assert!(all.is_current_month(m));
    }
    assert!(!all.is_current_month(0));
    assert!(!all.is_current_month(13));
    let only_feb = Month_depricated {
        jan: false,
        feb: true,
        mar: false,
        apr: false,
        may: false,
        jun: false,
        jul: false,
        aug: false,
        sep: false,
        oct: false,
        nov: false,
        dec: false,
    };
    assert!(only_feb.is_current_month(2));
    assert!(!only_feb.is_current_month(1));
    assert!(!only_feb.is_current_month(3));
}

#[test]
fn flag_days() {
    let all = DaysOffTheWeek_depricated::all();
    for d in 0..=6u32 {
        assert!(all.is_current_day(d));
    }
    assert!(!all.is_current_day(7));
    assert!(!all.is_current_day(1000));
    let sunday = DaysOffTheWeek_depricated {
        mon: false,
        tue: false,
        wed: false,
        thu: false,
        fri: false,
        sat: false,
        sun: true,
    };
    assert!(sunday.is_current_day(0));
    assert!(!sunday.is_current_day(1));
    assert!(!sunday.is_current_day(6));
}

#[test]
fn both_full_selections_agree() {
    let bits = Month::all();
    let flags = Month_depricated::all();
    for m in 0..40u32 {
        assert_eq!(bits.is_current_month(m), flags.is_current_month(m));
    }
    let bits = DaysOffTheWeek::all();
    let flags = DaysOffTheWeek_depricated::all();
    for d in (0..300u32).chain([65536, u32::MAX]) {
        assert_eq!(bits.is_current_day(d), flags.is_current_day(d));
    }
}
