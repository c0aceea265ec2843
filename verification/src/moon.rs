//! Calendar days and phases of the Moon.

use vstd::prelude::*;
use crate::launch::SimpleDate;

verus! {

/// Whether a year has a leap day.
pub open spec fn is_leap(year: int) -> bool {
    year % 4 == 0 && (year % 100 != 0 || year % 400 == 0)
}

/// The number of days of a month.
pub open spec fn days_in_month(year: int, month: int) -> int {
    if month == 2 {
        if is_leap(year) {
            29
        } else {
            28
        }
    } else if month == 4 || month == 6 || month == 9 || month == 11 {
        30
    } else {
        31
    }
}

/// Whether year, month and day are a date of the calendar.
pub open spec fn is_date(year: int, month: int, day: int) -> bool {
    1 <= month <= 12 && 1 <= day <= days_in_month(year, month)
}

/// The number of a day, counted from the first of January 1970.
///
/// The year is taken to begin in March, so that the leap day comes last.
pub open spec fn day_number(year: int, month: int, day: int) -> int {
    let y = if month <= 2 {
        year - 1
    } else {
        year
    };
    let m = if month <= 2 {
        month + 9
    } else {
        month - 3
    };
    365 * y + y / 4 - y / 100 + y / 400 + (153 * m + 2) / 5 + day - 1 - 719468
}

/// The number of the first of January 2000.
pub const J2000_UNIX_DAYS: i64 = 10957;

/// Converts a calendar date to days since the first of January 1970.
pub fn date_to_unix_days(date: SimpleDate) -> (days: i64)
    requires
        date.month <= 2 ==> date.year > i32::MIN,
    ensures
        days == day_number(date.year as int, date.month as int, date.day as int),
{
    let y: i64 = if date.month <= 2 {
        (date.year - 1) as i64
    } else {
        date.year as i64
    };
    let m: i64 = if date.month <= 2 {
        date.month as i64 + 9
    } else {
        date.month as i64 - 3
    };
    let shifted: i64 = if y >= 0 {
        y
    } else {
        y - 399
    };
    let era: i64 = if shifted >= 0 {
        shifted / 400
    } else {
        -((-shifted) / 400)
    };
    proof {
        assert(era == y as int / 400);
    }
    let yoe: i64 = y - era * 400;
    let doy: i64 = (153 * m + 2) / 5 + date.day as i64 - 1;
    let doe: i64 = yoe * 365 + yoe / 4 - yoe / 100 + doy;
    era * 146097 + doe - 719468
}

/// A day in nanoseconds.
pub const DAY_NS: u64 = 86_400_000_000_000;

/// Half a day in nanoseconds.
pub const NOON_NS: u64 = 43_200_000_000_000;

/// The time since noon of the first of January 2000, in nanoseconds; negative before.
pub fn time_since_j2000(date: SimpleDate, time_of_day: u64) -> (time: i128)
    requires
        date.month <= 2 ==> date.year > i32::MIN,
    ensures
        time == (day_number(date.year as int, date.month as int, date.day as int) - day_number(
            2000,
            1,
            1,
        )) * DAY_NS + time_of_day - NOON_NS,
{
    let days: i64 = date_to_unix_days(date) - J2000_UNIX_DAYS;
    days as i128 * DAY_NS as i128 + time_of_day as i128 - NOON_NS as i128
}

/// The date after a date.
pub open spec fn next_date(year: int, month: int, day: int) -> (int, int, int) {
    if day < days_in_month(year, month) {
        (year, month, day + 1)
    } else if month < 12 {
        (year, month + 1, 1)
    } else {
        (year + 1, 1, 1)
    }
}

/// The count starts on the first of January 1970.
pub proof fn lemma_epoch_is_day_zero()
    ensures
        day_number(1970, 1, 1) == 0,
{
}

proof fn lemma_quotient_step(year: int, d: int)
    requires
        d == 4 || d == 100 || d == 400,
    ensures
        year / d - (year - 1) / d == if year % d == 0 {
            1int
        } else {
            0int
        },
{
}

/// The days of March-based months before month `m`.
proof fn lemma_month_starts()
    ensures
        (153 * 0int + 2) / 5 == 0,
        (153 * 1int + 2) / 5 == 31,
        (153 * 2int + 2) / 5 == 61,
        (153 * 3int + 2) / 5 == 92,
        (153 * 4int + 2) / 5 == 122,
        (153 * 5int + 2) / 5 == 153,
        (153 * 6int + 2) / 5 == 184,
        (153 * 7int + 2) / 5 == 214,
        (153 * 8int + 2) / 5 == 245,
        (153 * 9int + 2) / 5 == 275,
        (153 * 10int + 2) / 5 == 306,
        (153 * 11int + 2) / 5 == 337,
{
}

proof fn lemma_end_of_february(year: int)
    ensures
        day_number(year, 3, 1) == day_number(year, 2, days_in_month(year, 2)) + 1,
{
    lemma_month_starts();
    lemma_quotient_step(year, 4);
    lemma_quotient_step(year, 100);
    lemma_quotient_step(year, 400);
    assert(year % 400 == 0 ==> year % 100 == 0);
    assert(year % 100 == 0 ==> year % 4 == 0);
}

/// Day numbers follow the calendar: each date counts one more than the date before it.
pub proof fn lemma_days_follow_the_calendar(year: int, month: int, day: int)
    requires
        is_date(year, month, day),
    ensures
        ({
            let (y, m, d) = next_date(year, month, day);
            is_date(y, m, d) && day_number(y, m, d) == day_number(year, month, day) + 1
        }),
{
    if day == days_in_month(year, month) {
        lemma_month_starts();
        if month == 2 {
            lemma_end_of_february(year);
        } else if month == 1 {
        } else if month == 3 {
        } else if month == 4 {
        } else if month == 5 {
        } else if month == 6 {
        } else if month == 7 {
        } else if month == 8 {
        } else if month == 9 {
        } else if month == 10 {
        } else if month == 11 {
        } else {
            assert(month == 12);
        }
    }
}

/// The calendar repeats every four centuries.
pub proof fn lemma_four_centuries(year: int, month: int, day: int)
    ensures
        day_number(year + 400, month, day) == day_number(year, month, day) + 146097,
{
    let y = if month <= 2 {
        year - 1
    } else {
        year
    };
    assert((y + 400) / 4 == y / 4 + 100);
    assert((y + 400) / 100 == y / 100 + 4);
    assert((y + 400) / 400 == y / 400 + 1);
}

/// How much of the Moon's disk is lit, and whether it is growing.
#[derive(Clone, Copy, Debug, PartialEq, Eq, Structural)]
pub struct MoonState {
    /// The lit part of the disk in millionths: 0 at new moon, 1000000 at full moon.
    pub illuminated_ppm: u32,
    /// The lit part is growing.
    pub waxing: bool,
}

impl MoonState {
    /// The name of the phase: within two percent of a cardinal phase that phase, else what lies
    /// between.
    pub open spec fn phase_text(self) -> Seq<char> {
        let f = self.illuminated_ppm;
        if f < 20000 {
            "New"@
        } else if f > 980000 {
            "Full"@
        } else if 480000 < f < 520000 {
            if self.waxing {
                "First Quarter"@
            } else {
                "Last Quarter"@
            }
        } else if f < 500000 {
            if self.waxing {
                "Waxing Crescent"@
            } else {
                "Waning Crescent"@
            }
        } else if self.waxing {
            "Waxing Gibbous"@
        } else {
            "Waning Gibbous"@
        }
    }

    /// The name of the phase.
    pub fn phase_name(&self) -> (name: &'static str)
        ensures
            name@ == self.phase_text(),
    {
        let f: u32 = self.illuminated_ppm;
        if f < 20000 {
            "New"
        } else if f > 980000 {
            "Full"
        } else if 480000 < f && f < 520000 {
            if self.waxing {
                "First Quarter"
            } else {
                "Last Quarter"
            }
        } else if f < 500000 {
            if self.waxing {
                "Waxing Crescent"
            } else {
                "Waning Crescent"
            }
        } else if self.waxing {
            "Waxing Gibbous"
        } else {
            "Waning Gibbous"
        }
    }
}

/// The count of days starts with the first of January 1970, and each day counts one more than the
/// day before it.
pub proof fn lemma_days_are_counted_from_the_epoch(
    date: SimpleDate,
    next: SimpleDate,
    days: i64,
    following: i64,
)
    requires
        is_date(date.year as int, date.month as int, date.day as int),
        i32::MIN < date.year < i32::MAX,
        call_ensures(date_to_unix_days, (date,), days),
        call_ensures(date_to_unix_days, (next,), following),
        call_ensures(crate::calendar::next_day, (date,), next),
    ensures
        date.year == 1970 && date.month == 1 && date.day == 1 ==> days == 0,
        following == days + 1,
{
    lemma_days_follow_the_calendar(date.year as int, date.month as int, date.day as int);
}

/// The time since noon of the first of January 2000 counts the days in between, of twenty-four hours
/// each, and the time of the day.
pub proof fn lemma_times_count_from_noon(
    date: SimpleDate,
    time_of_day: u64,
    days: i64,
    time: i128,
)
    requires
        date.month <= 2 ==> date.year > i32::MIN,
        call_ensures(date_to_unix_days, (date,), days),
        call_ensures(time_since_j2000, (date, time_of_day), time),
    ensures
        time == (days - 10957) * 86_400_000_000_000 + time_of_day - 43_200_000_000_000,
        date.year == 2000 && date.month == 1 && date.day == 1 && time_of_day == 43_200_000_000_000
            ==> time == 0,
{
}

/// The Moon is new or full within two percent of it, at a quarter within two percent of half, and
/// otherwise a crescent below half and gibbous above; it waxes while its lit part grows.
pub proof fn lemma_phases_have_their_names(moon: MoonState, name: &'static str)
    requires
        call_ensures(MoonState::phase_name, (&moon,), name),
    ensures
        ({
            let f = moon.illuminated_ppm;
            let w = moon.waxing;
            &&& f < 20000 ==> name@ == "New"@
            &&& f > 980000 ==> name@ == "Full"@
            &&& 480000 < f < 520000 && w ==> name@ == "First Quarter"@
            &&& 480000 < f < 520000 && !w ==> name@ == "Last Quarter"@
            &&& 20000 <= f <= 480000 && w ==> name@ == "Waxing Crescent"@
            &&& 20000 <= f <= 480000 && !w ==> name@ == "Waning Crescent"@
            &&& 520000 <= f <= 980000 && w ==> name@ == "Waxing Gibbous"@
            &&& 520000 <= f <= 980000 && !w ==> name@ == "Waning Gibbous"@
        }),
{
}

} // verus!
