use veldera::calendar::{day_of_year, is_calendar_date, month_days, next_day, previous_day};
use veldera::launch::{DateTimeOverride, SimpleDate};

fn date(year: i32, month: u32, day: u32) -> SimpleDate {
    SimpleDate { year, month, day }
}

#[test]
fn days_follow_each_other() {
    let pairs = [
        (date(2024, 2, 28), date(2024, 2, 29)),
        (date(2023, 2, 28), date(2023, 3, 1)),
        (date(1900, 2, 28), date(1900, 3, 1)),
        (date(2000, 2, 29), date(2000, 3, 1)),
        (date(2024, 12, 31), date(2025, 1, 1)),
        (date(-1, 12, 31), date(0, 1, 1)),
    ];
    for (before, after) in pairs {
        assert_eq!(next_day(before), after);
        assert_eq!(previous_day(after), before);
    }
}

#[test]
fn days_of_the_year_are_counted() {
    assert_eq!(day_of_year(date(2023, 1, 1)), 1);
    assert_eq!(day_of_year(date(2023, 3, 1)), 60);
    assert_eq!(day_of_year(date(2024, 3, 1)), 61);
    assert_eq!(day_of_year(date(2024, 12, 31)), 366);
    assert_eq!(day_of_year(date(2100, 12, 31)), 365);
}

#[test]
fn dates_of_the_calendar_are_known() {
    assert!(is_calendar_date(date(2024, 2, 29)));
    assert!(!is_calendar_date(date(2023, 2, 29)));
    assert!(!is_calendar_date(date(2023, 13, 1)));
    assert!(!is_calendar_date(date(2023, 0, 1)));
    assert!(!is_calendar_date(date(2023, 4, 31)));
    assert_eq!(month_days(-4, 2), 29);
    assert_eq!(month_days(-100, 2), 28);
}

#[test]
fn moments_cross_midnight() {
    let late = DateTimeOverride { date: date(2024, 12, 31), seconds: 86_000 };
    assert_eq!(
        late.later(1000),
        DateTimeOverride { date: date(2025, 1, 1), seconds: 600 }
    );
    assert_eq!(late.later(1000).later(-1000), late);
    assert_eq!(late.later(-86_400).date, date(2024, 12, 30));
    assert_eq!(late.later(0), late);
}
