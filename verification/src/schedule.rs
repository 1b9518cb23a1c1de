//! Month and weekday selections, stored as bit masks.

use vstd::prelude::*;

verus! {

/// The bit that stands for month `m` (January is 1); zero for anything that
/// is not a month.
pub open spec fn month_mask(m: int) -> u16 {
    if 1 <= m <= 12 {
        1u16 << ((m - 1) as u16)
    } else {
        0u16
    }
}

proof fn lemma_month_bits()
    by (bit_vector)
    ensures
        1u16 << 0u16 == 0x0001u16,
        1u16 << 1u16 == 0x0002u16,
        1u16 << 2u16 == 0x0004u16,
        1u16 << 3u16 == 0x0008u16,
        1u16 << 4u16 == 0x0010u16,
        1u16 << 5u16 == 0x0020u16,
        1u16 << 6u16 == 0x0040u16,
        1u16 << 7u16 == 0x0080u16,
        1u16 << 8u16 == 0x0100u16,
        1u16 << 9u16 == 0x0200u16,
        1u16 << 10u16 == 0x0400u16,
        1u16 << 11u16 == 0x0800u16,
{
}

/// The months in which a relay may switch on, one bit per month.
#[derive(Debug, Clone, Copy, PartialEq)]
pub struct Month {
    pub months: u16,
}

impl View for Month {
    type V = Set<int>;

    /// The months (1 to 12) whose bit is set.
    open spec fn view(&self) -> Set<int> {
        Set::new(|m: int| 1 <= m <= 12 && self.months & month_mask(m) != 0)
    }
}

impl Month {
    /// Every month.
    pub fn all() -> (r: Self)
        ensures
            r == all_months(),
            r@ == Set::new(|m: int| 1 <= m <= 12),
    {
        let r = Month { months: 0b00001111_11111111 };
        proof {
            lemma_month_bits();
            assert forall|m: int| 1 <= m <= 12 implies r.months & month_mask(m) != 0 by {
                let k = (m - 1) as u16;
                assert(k < 12);
                assert(0x0fffu16 & (1u16 << k) != 0) by (bit_vector)
                    requires k < 12u16;
            }
            assert(r@ =~= Set::new(|m: int| 1 <= m <= 12));
        }
        r
    }

    /// Whether `other_month` (January is 1) is one of the selected months.
    pub fn is_current_month(&self, other_month: u32) -> (r: bool)
        ensures
            r == (self.months & month_mask(other_month as int) != 0),
            r == self@.contains(other_month as int),
    {
        let other = Month::months_to_mask(other_month);
        let months = self.months;
        assert(other & months == months & other) by (bit_vector);
        assert(months & 0u16 == 0u16) by (bit_vector);
        (other & self.months) != 0
    }

    /// The bit of a month, where January is 1; zero when `month` is not a month.
    pub fn months_to_mask(month: u32) -> (r: u16)
        ensures
            r == month_mask(month as int),
    {
        proof {
            lemma_month_bits();
        }
        let month: u16 = if month <= 0xffff { month as u16 } else { 0 };
        match month {
            1 => 0b00000000_00000001,
            2 => 0b00000000_00000010,
            3 => 0b00000000_00000100,
            4 => 0b00000000_00001000,
            5 => 0b00000000_00010000,
            6 => 0b00000000_00100000,
            7 => 0b00000000_01000000,
            8 => 0b00000000_10000000,
            9 => 0b00000001_00000000,
            10 => 0b00000010_00000000,
            11 => 0b00000100_00000000,
            12 => 0b00001000_00000000,
            _ => 0b00000000,
        }
    }
}

/// The bit position of a weekday, where Sunday is 0 and Monday is 1: Monday
/// to Saturday take bits 0 to 5 and Sunday takes bit 6.
pub open spec fn weekday_bit_index(d: int) -> int {
    if d == 0 {
        6
    } else {
        d - 1
    }
}

/// The bit of weekday `d` (Sunday is 0, Monday is 1, Saturday is 6); zero for
/// anything that is not a weekday.
pub open spec fn weekday_mask(d: int) -> u8 {
    if 0 <= d <= 6 {
        1u8 << (weekday_bit_index(d) as u8)
    } else {
        0u8
    }
}

proof fn lemma_weekday_bits()
    by (bit_vector)
    ensures
        1u8 << 0u8 == 0x01u8,
        1u8 << 1u8 == 0x02u8,
        1u8 << 2u8 == 0x04u8,
        1u8 << 3u8 == 0x08u8,
        1u8 << 4u8 == 0x10u8,
        1u8 << 5u8 == 0x20u8,
        1u8 << 6u8 == 0x40u8,
{
}

proof fn lemma_weekday_masks_disjoint(d: int, e: int)
    requires
        0 <= d <= 6,
        0 <= e <= 6,
    ensures
        (weekday_mask(d) & weekday_mask(e) != 0) == (d == e),
        weekday_mask(d) < 128,
        weekday_mask(d) != 0,
{
    let i = weekday_bit_index(d) as u8;
    let j = weekday_bit_index(e) as u8;
    assert(((1u8 << i) & (1u8 << j) != 0) == (i == j) && (1u8 << i) < 128 && (1u8 << i) != 0)
        by (bit_vector)
        requires
            i < 7u8,
            j < 7u8,
    ;
}

proof fn lemma_or_and(a: u8, b: u8, c: u8)
    by (bit_vector)
    ensures
        ((a | b) & c != 0) == ((a & c != 0) || (b & c != 0)),
        a < 128u8 && b < 128u8 ==> (a | b) < 128u8,
        a & 0u8 == 0u8,
        a & b == b & a,
{
}

/// The weekdays on which a relay may switch on, one bit per weekday.
#[derive(Debug, Clone, Copy, PartialEq)]
pub struct DaysOffTheWeek {
    pub days: u8,
}

impl View for DaysOffTheWeek {
    type V = Set<int>;

    /// The weekdays (Sunday is 0, Saturday is 6) whose bit is set.
    open spec fn view(&self) -> Set<int> {
        Set::new(|d: int| 0 <= d <= 6 && self.days & weekday_mask(d) != 0)
    }
}

impl DaysOffTheWeek {
    /// Every weekday.
    pub fn all() -> (r: Self)
        ensures
            r == all_days(),
            r@ == Set::new(|d: int| 0 <= d <= 6),
    {
        let r = DaysOffTheWeek { days: u8::MAX };
        proof {
            assert forall|d: int| 0 <= d <= 6 implies r.days & weekday_mask(d) != 0 by {
                lemma_weekday_masks_disjoint(d, d);
                let m = weekday_mask(d);
                assert(0xffu8 & m == m) by (bit_vector);
            }
            assert(r@ =~= Set::new(|d: int| 0 <= d <= 6));
        }
        r
    }

    /// The selection that holds exactly the weekdays listed in `days`
    /// (Sunday is 0, Saturday is 6); numbers that are not weekdays add nothing.
    pub fn days_to_struct(days: Vec<u8>) -> (r: DaysOffTheWeek)
        ensures
            r.days < 128,
            r@ == Set::new(|d: int| 0 <= d <= 6 && days@.contains(d as u8)),
    {
        let mut mask: u8 = 0;
        let mut k: usize = 0;
        proof {
            assert forall|d: int| 0 <= d <= 6 implies ((mask & #[trigger] weekday_mask(d) != 0)
                == days@.take(0).contains(d as u8)) by {
                lemma_or_and(weekday_mask(d), 0u8, 0u8);
                lemma_or_and(0u8, weekday_mask(d), 0u8);
            }
        }
        while k < days.len()
            invariant
                k <= days.len(),
                mask < 128,
                forall|d: int|
                    0 <= d <= 6 ==> ((mask & #[trigger] weekday_mask(d) != 0) == days@.take(
                        k as int,
                    ).contains(d as u8)),
            decreases days.len() - k,
        {
            let day = days[k];
            let bit = DaysOffTheWeek::day_to_mask(day as u32);
            proof {
                assert forall|d: int| 0 <= d <= 6 implies ((mask | bit) & #[trigger] weekday_mask(d)
                    != 0) == days@.take(k + 1).contains(d as u8) by {
                    lemma_or_and(mask, bit, weekday_mask(d));
                    let prev = days@.take(k as int);
                    assert(days@.take(k + 1) =~= prev.push(day));
                    assert(prev.push(day).contains(d as u8) == (prev.contains(d as u8) || day
                        == d as u8)) by {
                        if day == d as u8 {
                            assert(prev.push(day)[prev.len() as int] == day);
                        }
                        if prev.push(day).contains(d as u8) {
                            let w = choose|w: int|
                                0 <= w < prev.len() + 1 && prev.push(day)[w] == d as u8;
                            if w < prev.len() {
                                assert(prev[w] == d as u8);
                            }
                        }
                        if prev.contains(d as u8) {
                            let w = choose|w: int| 0 <= w < prev.len() && prev[w] == d as u8;
                            assert(prev.push(day)[w] == d as u8);
                        }
                    }
                    if 0 <= day <= 6 {
                        lemma_weekday_masks_disjoint(day as int, d);
                        assert((bit & weekday_mask(d) != 0) == (day == d as u8));
                    } else {
                        lemma_or_and(weekday_mask(d), 0u8, 0u8);
                        lemma_or_and(0u8, weekday_mask(d), 0u8);
                        assert(bit == 0);
                        assert(day != d as u8);
                    }
                }
                if 0 <= day <= 6 {
                    lemma_weekday_masks_disjoint(day as int, day as int);
                }
                lemma_or_and(mask, bit, 0);
            }
            mask = mask | bit;
            k = k + 1;
        }
        let r = DaysOffTheWeek { days: mask };
        proof {
            assert(days@.take(days.len() as int) =~= days@);
            assert(r@ =~= Set::new(|d: int| 0 <= d <= 6 && days@.contains(d as u8)));
        }
        r
    }

    /// The bit of a weekday, where Sunday is 0 and Monday is 1; a number that is
    /// not a weekday (above 6) is an unknown day and gives zero.
    pub fn day_to_mask(day: u32) -> (r: u8)
        ensures
            r == weekday_mask(day as int),
    {
        proof {
            lemma_weekday_bits();
        }
        match day {
            1 => 0b00000001,
            2 => 0b00000010,
            3 => 0b00000100,
            4 => 0b00001000,
            5 => 0b00010000,
            6 => 0b00100000,
            0 => 0b01000000,
            _ => 0b00000000,
        }
    }

    /// Whether weekday `other_day` (Sunday is 0) is one of the selected days; a
    /// number above 6 is no weekday and never selected.
    pub fn is_current_day(&self, other_day: u32) -> (r: bool)
        ensures
            r == (self.days & weekday_mask(other_day as int) != 0),
            r == self@.contains(other_day as int),
    {
        let other = DaysOffTheWeek::day_to_mask(other_day);
        proof {
            lemma_or_and(other, self.days, 0);
            lemma_or_and(self.days, 0, 0);
        }
        (other & self.days) != 0
    }
}

/// The earlier month selection: one flag per month.
#[allow(non_camel_case_types)]
#[derive(Debug, Clone, PartialEq)]
pub struct Month_depricated {
    pub jan: bool,
    pub feb: bool,
    pub mar: bool,
    pub apr: bool,
    pub may: bool,
    pub jun: bool,
    pub jul: bool,
    pub aug: bool,
    pub sep: bool,
    pub oct: bool,
    pub nov: bool,
    pub dec: bool,
}

impl Month_depricated {
    /// The flag of month `m` (January is 1); false for anything that is not a month.
    pub open spec fn flag(&self, m: int) -> bool {
        if m == 1 {
            self.jan
        } else if m == 2 {
            self.feb
        } else if m == 3 {
            self.mar
        } else if m == 4 {
            self.apr
        } else if m == 5 {
            self.may
        } else if m == 6 {
            self.jun
        } else if m == 7 {
            self.jul
        } else if m == 8 {
            self.aug
        } else if m == 9 {
            self.sep
        } else if m == 10 {
            self.oct
        } else if m == 11 {
            self.nov
        } else if m == 12 {
            self.dec
        } else {
            false
        }
    }

    /// Every month.
    pub fn all() -> (r: Self)
        ensures
            r == all_month_flags(),
            forall|m: int| 1 <= m <= 12 ==> #[trigger] r.flag(m),
    {
        Month_depricated {
            jan: true,
            feb: true,
            mar: true,
            apr: true,
            may: true,
            jun: true,
            jul: true,
            aug: true,
            sep: true,
            oct: true,
            nov: true,
            dec: true,
        }
    }

    /// Whether month `current_month` (January is 1) is flagged.
    pub fn is_current_month(&self, current_month: u32) -> (r: bool)
        ensures
            r == self.flag(current_month as int),
    {
        match current_month {
            1 => self.jan,
            2 => self.feb,
            3 => self.mar,
            4 => self.apr,
            5 => self.may,
            6 => self.jun,
            7 => self.jul,
            8 => self.aug,
            9 => self.sep,
            10 => self.oct,
            11 => self.nov,
            12 => self.dec,
            _ => false,
        }
    }
}

/// The earlier weekday selection: one flag per weekday.
#[allow(non_camel_case_types)]
#[derive(Debug, Clone, PartialEq)]
pub struct DaysOffTheWeek_depricated {
    pub mon: bool,
    pub tue: bool,
    pub wed: bool,
    pub thu: bool,
    pub fri: bool,
    pub sat: bool,
    pub sun: bool,
}

impl DaysOffTheWeek_depricated {
    /// The flag of weekday `d` (Sunday is 0, Saturday is 6); false for anything
    /// that is not a weekday.
    pub open spec fn flag(&self, d: int) -> bool {
        if d == 0 {
            self.sun
        } else if d == 1 {
            self.mon
        } else if d == 2 {
            self.tue
        } else if d == 3 {
            self.wed
        } else if d == 4 {
            self.thu
        } else if d == 5 {
            self.fri
        } else if d == 6 {
            self.sat
        } else {
            false
        }
    }

    /// Every weekday.
    pub fn all() -> (r: Self)
        ensures
            r == all_day_flags(),
            forall|d: int| 0 <= d <= 6 ==> #[trigger] r.flag(d),
    {
        DaysOffTheWeek_depricated {
            mon: true,
            tue: true,
            wed: true,
            thu: true,
            fri: true,
            sat: true,
            sun: true,
        }
    }

    /// Whether weekday `other_day` (Sunday is 0) is flagged.
    pub fn is_current_day(&self, other_day: u32) -> (r: bool)
        ensures
            r == self.flag(other_day as int),
    {
        match other_day {
            0 => self.sun,
            1 => self.mon,
            2 => self.tue,
            3 => self.wed,
            4 => self.thu,
            5 => self.fri,
            6 => self.sat,
            _ => false,
        }
    }
}

/// Each month number reads its own flag: 1 is January and 12 is December, and
/// any other number reads no flag; so a selection with one month flagged
/// accepts that month and no other.
pub proof fn law_month_flags(sel: Month_depricated, m: int)
    ensures
        sel.flag(1) == sel.jan,
        sel.flag(2) == sel.feb,
        sel.flag(3) == sel.mar,
        sel.flag(4) == sel.apr,
        sel.flag(5) == sel.may,
        sel.flag(6) == sel.jun,
        sel.flag(7) == sel.jul,
        sel.flag(8) == sel.aug,
        sel.flag(9) == sel.sep,
        sel.flag(10) == sel.oct,
        sel.flag(11) == sel.nov,
        sel.flag(12) == sel.dec,
        !(1 <= m <= 12) ==> !sel.flag(m),
{
}

/// Each weekday number reads its own flag: 0 is Sunday, 1 Monday and 6
/// Saturday, and any other number reads no flag; so a selection with one
/// weekday flagged accepts that weekday and no other.
pub proof fn law_day_flags(sel: DaysOffTheWeek_depricated, d: int)
    ensures
        sel.flag(0) == sel.sun,
        sel.flag(1) == sel.mon,
        sel.flag(2) == sel.tue,
        sel.flag(3) == sel.wed,
        sel.flag(4) == sel.thu,
        sel.flag(5) == sel.fri,
        sel.flag(6) == sel.sat,
        !(0 <= d <= 6) ==> !sel.flag(d),
{
}

/// The selection of every month, as `Month::all` builds it.
pub open spec fn all_months() -> Month {
    Month { months: 0x0fff }
}

/// The selection of every weekday, as `DaysOffTheWeek::all` builds it.
pub open spec fn all_days() -> DaysOffTheWeek {
    DaysOffTheWeek { days: 0xff }
}

/// The flags of every month, as `Month_depricated::all` builds them.
pub open spec fn all_month_flags() -> Month_depricated {
    Month_depricated {
        jan: true,
        feb: true,
        mar: true,
        apr: true,
        may: true,
        jun: true,
        jul: true,
        aug: true,
        sep: true,
        oct: true,
        nov: true,
        dec: true,
    }
}

/// The flags of every weekday, as `DaysOffTheWeek_depricated::all` builds them.
pub open spec fn all_day_flags() -> DaysOffTheWeek_depricated {
    DaysOffTheWeek_depricated {
        mon: true,
        tue: true,
        wed: true,
        thu: true,
        fri: true,
        sat: true,
        sun: true,
    }
}

/// The bit-mask month selection that takes every month accepts exactly the
/// month numbers that the flag selection that takes every month accepts.
pub proof fn law_all_months_agree(m: u32)
    ensures
        (all_months().months & month_mask(m as int) != 0) == all_month_flags().flag(m as int),
{
    lemma_month_bits();
    if 1 <= m <= 12 {
        let k = (m - 1) as u16;
        assert(0x0fffu16 & (1u16 << k) != 0) by (bit_vector)
            requires
                k < 12u16,
        ;
    } else {
        assert(0x0fffu16 & 0u16 == 0u16) by (bit_vector);
    }
}

/// The bit-mask weekday selection that takes every weekday accepts exactly the
/// day numbers that the flag selection that takes every weekday accepts: both
/// accept 0 to 6 and refuse every other number.
pub proof fn law_all_days_agree(d: u32)
    ensures
        (all_days().days & weekday_mask(d as int) != 0) == all_day_flags().flag(d as int),
{
    if 0 <= d <= 6 {
        lemma_weekday_masks_disjoint(d as int, d as int);
        let m = weekday_mask(d as int);
        assert(0xffu8 & m == m) by (bit_vector);
    } else {
        assert(0xffu8 & 0u8 == 0u8) by (bit_vector);
    }
}

} // verus!
