//! Days of the calendar, one after the other.

use vstd::prelude::*;
use crate::launch::{DateTimeOverride, SimpleDate};
use crate::moon::{day_number, days_in_month, is_date, lemma_days_follow_the_calendar, next_date};

verus! {

/// The seconds of a day.
pub const DAY_SECONDS: u32 = 86_400;

impl SimpleDate {
    /// Whether this is a date of the calendar.
    pub open spec fn is_valid(self) -> bool {
        is_date(self.year as int, self.month as int, self.day as int)
    }

    /// The number of the day.
    pub open spec fn number(self) -> int {
        day_number(self.year as int, self.month as int, self.day as int)
    }
}

/// The number of days of a month.
pub fn month_days(year: i32, month: u32) -> (days: u32)
    ensures
        days == days_in_month(year as int, month as int),
        28 <= days <= 31,
{
    if month == 2 {
        // A remainder below zero belongs to a year that is no multiple either.
        if year % 4 == 0 && (year % 100 != 0 || year % 400 == 0) {
            29
        } else {
            28
        }
    } else if month == 4 || month == 6 || month == 9 || month == 11 {
        30
    } else {
        31
    }
}

/// Whether a date is one of the calendar.
pub fn is_calendar_date(date: SimpleDate) -> (valid: bool)
    ensures
        valid == date.is_valid(),
{
    1 <= date.month && date.month <= 12 && 1 <= date.day && date.day <= month_days(
        date.year,
        date.month,
    )
}

/// The day after a day.
pub fn next_day(date: SimpleDate) -> (next: SimpleDate)
    requires
        date.is_valid(),
        date.year < i32::MAX,
    ensures
        (next.year as int, next.month as int, next.day as int) == next_date(
            date.year as int,
            date.month as int,
            date.day as int,
        ),
        next.is_valid(),
        next.number() == date.number() + 1,
{
    proof {
        lemma_days_follow_the_calendar(date.year as int, date.month as int, date.day as int);
    }
    if date.day < month_days(date.year, date.month) {
        SimpleDate { day: date.day + 1, ..date }
    } else if date.month < 12 {
        SimpleDate { month: date.month + 1, day: 1, ..date }
    } else {
        SimpleDate { year: date.year + 1, month: 1, day: 1 }
    }
}

/// The day before a day.
pub fn previous_day(date: SimpleDate) -> (previous: SimpleDate)
    requires
        date.is_valid(),
        date.year > i32::MIN,
    ensures
        (date.year as int, date.month as int, date.day as int) == next_date(
            previous.year as int,
            previous.month as int,
            previous.day as int,
        ),
        previous.is_valid(),
        previous.number() == date.number() - 1,
{
    let previous = if date.day > 1 {
        SimpleDate { day: date.day - 1, ..date }
    } else if date.month > 1 {
        let month: u32 = date.month - 1;
        SimpleDate { month, day: month_days(date.year, month), ..date }
    } else {
        SimpleDate { year: date.year - 1, month: 12, day: 31 }
    };
    proof {
        lemma_days_follow_the_calendar(
            previous.year as int,
            previous.month as int,
            previous.day as int,
        );
    }
    previous
}

/// The number of a day within its year, from one on.
pub fn day_of_year(date: SimpleDate) -> (day: u32)
    requires
        date.is_valid(),
    ensures
        day == date.number() - day_number(date.year as int, 1, 1) + 1,
        1 <= day <= 366,
{
    let mut days: u32 = 0;
    let mut month: u32 = 1;
    while month < date.month
        invariant
            date.is_valid(),
            1 <= month <= date.month <= 12,
            days == day_number(date.year as int, month as int, 1) - day_number(
                date.year as int,
                1,
                1,
            ),
            days <= 31 * (month - 1),
        decreases date.month - month,
    {
        let long: u32 = month_days(date.year, month);
        proof {
            lemma_days_follow_the_calendar(date.year as int, month as int, long as int);
        }
        days = days + long;
        month = month + 1;
    }
    proof {
        lemma_year_is_short(date.year as int, date.month as int, date.day as int);
    }
    days + date.day
}

/// The last day of a year is at most the 366th.
proof fn lemma_year_is_short(year: int, month: int, day: int)
    requires
        is_date(year, month, day),
    ensures
        day_number(year, month, day) - day_number(year, 1, 1) <= 365,
    decreases 12 - month,
{
    if month < 12 {
        lemma_days_follow_the_calendar(year, month, days_in_month(year, month));
        lemma_year_is_short(year, month + 1, 1);
    } else {
        let y = year - 1;
        assert(year / 4 - y / 4 <= 1);
        assert(year / 400 - y / 400 <= 1);
        assert(year / 100 - y / 100 >= 0);
        assert(year % 400 == 0 ==> year % 100 == 0);
        assert(year / 400 - y / 400 == 1 ==> year % 400 == 0);
        assert(year % 100 == 0 ==> year / 100 - y / 100 == 1);
    }
}

impl DateTimeOverride {
    /// Whether date and time exist.
    pub open spec fn is_valid(self) -> bool {
        self.date.is_valid() && self.seconds < DAY_SECONDS
    }

    /// The seconds since the count of days starts.
    pub open spec fn instant(self) -> int {
        self.date.number() * DAY_SECONDS + self.seconds
    }

    /// The moment `seconds` later, or earlier if that is negative; no more than a day.
    pub fn later(self, seconds: i32) -> (moment: DateTimeOverride)
        requires
            self.is_valid(),
            i32::MIN < self.date.year < i32::MAX,
            -(DAY_SECONDS as int) <= seconds <= DAY_SECONDS,
        ensures
            moment.is_valid(),
            moment.instant() == self.instant() + seconds,
    {
        let total: i32 = self.seconds as i32 + seconds;
        if total < 0 {
            let seconds: u32 = (total + DAY_SECONDS as i32) as u32;
            DateTimeOverride { date: previous_day(self.date), seconds }
        } else if total >= DAY_SECONDS as i32 {
            let seconds: u32 = (total - DAY_SECONDS as i32) as u32;
            DateTimeOverride { date: next_day(self.date), seconds }
        } else {
            DateTimeOverride { date: self.date, seconds: total as u32 }
        }
    }
}

/// Thirty days have four months, February has twenty-eight, or twenty-nine every fourth year but not
/// in three of four centuries, and all others have thirty-one.
pub proof fn lemma_lengths_of_months(year: i32, month: u32, days: u32)
    requires
        1 <= month <= 12,
        call_ensures(month_days, (year, month), days),
    ensures
        days == 30 <==> month == 4 || month == 6 || month == 9 || month == 11,
        days == 31 <==> month == 1 || month == 3 || month == 5 || month == 7 || month == 8 || month
            == 10 || month == 12,
        month == 2 && (year % 4 != 0 || (year % 100 == 0 && year % 400 != 0)) ==> days == 28,
        month == 2 && year % 4 == 0 && (year % 100 != 0 || year % 400 == 0) ==> days == 29,
{
}

/// A date is one of the calendar if its month and its day in that month exist.
pub proof fn lemma_dates_of_the_calendar(date: SimpleDate, days: u32, valid: bool)
    requires
        call_ensures(month_days, (date.year, date.month), days),
        call_ensures(is_calendar_date, (date,), valid),
    ensures
        valid <==> 1 <= date.month <= 12 && 1 <= date.day <= days,
{
}

/// The day after the last one of a month is the first one of the next, and after the last one of a
/// year comes the next year; else only the day counts on.
pub proof fn lemma_days_come_one_after_the_other(date: SimpleDate, days: u32, next: SimpleDate)
    requires
        date.is_valid(),
        date.year < i32::MAX,
        call_ensures(month_days, (date.year, date.month), days),
        call_ensures(next_day, (date,), next),
    ensures
        date.day < days ==> next == (SimpleDate {
            year: date.year,
            month: date.month,
            day: (date.day + 1) as u32,
        }),
        date.day == days && date.month < 12 ==> next == (SimpleDate {
            year: date.year,
            month: (date.month + 1) as u32,
            day: 1,
        }),
        date.day == days && date.month == 12 ==> next == (SimpleDate {
            year: (date.year + 1) as i32,
            month: 1,
            day: 1,
        }),
{
}

/// The day before the day after is the day itself.
pub proof fn lemma_days_go_back(date: SimpleDate, next: SimpleDate, back: SimpleDate)
    requires
        date.is_valid(),
        date.year < i32::MAX,
        call_ensures(next_day, (date,), next),
        call_ensures(previous_day, (next,), back),
    ensures
        back == date,
{
    lemma_one_day_before(
        date.year as int,
        date.month as int,
        date.day as int,
        back.year as int,
        back.month as int,
        back.day as int,
    );
}

proof fn lemma_one_day_before(y: int, m: int, d: int, v: int, n: int, e: int)
    requires
        is_date(y, m, d),
        is_date(v, n, e),
        next_date(y, m, d) == next_date(v, n, e),
    ensures
        y == v && m == n && d == e,
{
}

/// The first of January is the first day of its year, and each day of the year counts one more than
/// the day before it.
pub proof fn lemma_days_of_the_year_count_on(
    date: SimpleDate,
    next: SimpleDate,
    day: u32,
    following: u32,
)
    requires
        date.is_valid(),
        date.year < i32::MAX,
        call_ensures(next_day, (date,), next),
        call_ensures(day_of_year, (date,), day),
        call_ensures(day_of_year, (next,), following),
    ensures
        date.month == 1 && date.day == 1 ==> day == 1,
        next.year == date.year ==> following == day + 1,
        next.year != date.year ==> following == 1,
{
}

/// A moment that stays within the day keeps its date; one past midnight falls on the next or the
/// previous day, and its seconds start over.
pub proof fn lemma_moments_pass_midnight(
    moment: DateTimeOverride,
    seconds: i32,
    then: DateTimeOverride,
)
    requires
        moment.is_valid(),
        i32::MIN < moment.date.year < i32::MAX,
        -86_400 <= seconds <= 86_400,
        call_ensures(DateTimeOverride::later, (moment, seconds), then),
    ensures
        ({
            let total = moment.seconds + seconds;
            &&& 0 <= total < 86_400 ==> then.seconds == total && then.date.number()
                == moment.date.number()
            &&& total < 0 ==> then.seconds == total + 86_400 && then.date.number()
                == moment.date.number() - 1
            &&& total >= 86_400 ==> then.seconds == total - 86_400 && then.date.number()
                == moment.date.number() + 1
        }),
{
    let days = then.date.number() - moment.date.number();
    assert(then.date.number() * 86_400 - moment.date.number() * 86_400 == days * 86_400);
    assert(days * 86_400 == moment.seconds + seconds - then.seconds);
}

} // verus!
