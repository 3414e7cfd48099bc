//! Calendar arithmetic on `YYYY-MM-DD` dates.

use int_tasks::dates::{civil_date, civil_days, days_before, days_between, local_date, weekday};

#[test]
fn the_epoch_is_day_zero() {
    assert_eq!(civil_days("1970-01-01"), Some(0));
    assert_eq!(civil_date(0), "1970-01-01");
}

#[test]
fn dates_round_trip() {
    for date in ["2026-07-31", "2000-02-29", "1999-12-31", "2024-02-29", "2100-03-01"] {
        let days = civil_days(date).expect(date);
        assert_eq!(civil_date(days), date, "round trip failed for {date}");
    }
}

#[test]
fn leap_years_are_handled() {
    // 2000 is a leap year, 1900 and 2100 are not.
    assert_eq!(days_between("2000-02-28", "2000-03-01"), Some(2));
    assert_eq!(days_between("2100-02-28", "2100-03-01"), Some(1));
}

#[test]
fn differences_cross_month_and_year_boundaries() {
    assert_eq!(days_between("2026-07-31", "2026-08-01"), Some(1));
    assert_eq!(days_between("2026-12-31", "2027-01-01"), Some(1));
    assert_eq!(days_between("2026-08-01", "2026-07-31"), Some(-1));
}

#[test]
fn malformed_dates_are_rejected() {
    assert!(civil_days("not-a-date").is_none());
    assert!(civil_days("2026-13-01").is_none());
    assert!(civil_days("2026-07").is_none());
    assert!(civil_days("2026-07-31-01").is_none());
}

#[test]
fn local_dates_respect_the_offset() {
    // 2026-07-31T23:30:00Z
    let millis = 1_785_540_600_000;
    assert_eq!(local_date(millis, 0), "2026-07-31");
    // Two hours ahead: already the next day locally.
    assert_eq!(local_date(millis, 2 * 3600), "2026-08-01");
    // Behind UTC: still the same day.
    assert_eq!(local_date(millis, -5 * 3600), "2026-07-31");
}

#[test]
fn stepping_back_crosses_boundaries() {
    assert_eq!(days_before("2026-01-01", 1).as_deref(), Some("2025-12-31"));
    assert_eq!(days_before("2026-03-01", 1).as_deref(), Some("2026-02-28"));
}

#[test]
fn days_round_trip_far_from_the_epoch() {
    for days in [-719_528i64, -719_468, -1, 1, 20_000, 2_932_896, 1_000_000_000_000] {
        let date = civil_date(days);
        assert_eq!(civil_days(&date), Some(days), "round trip failed for {days} ({date})");
    }
}

#[test]
fn weekdays_count_from_sunday() {
    // 1970-01-01 was a Thursday.
    assert_eq!(weekday("1970-01-01"), Some(4));
    assert_eq!(weekday("2026-08-02"), Some(0));
    assert_eq!(weekday("not a date"), None);
}

#[test]
fn year_zero_is_the_first_that_reads_back() {
    assert_eq!(civil_date(-719_528), "0000-01-01");
    // The day before is in year -1, whose sign the reader takes for a separator.
    assert_eq!(civil_date(-719_529), "-001-12-31");
    assert_eq!(civil_days(&civil_date(-719_529)), None);
}

#[test]
fn a_day_that_does_not_exist_is_not_a_date() {
    assert_eq!(civil_days("2026-02-31"), None);
    assert_eq!(civil_days("2026-02-29"), None, "2026 is not a leap year");
    assert_eq!(civil_days("2100-02-29"), None, "nor is 2100");
    assert_eq!(civil_days("2026-04-31"), None);
    assert_eq!(civil_date(civil_days("2024-02-29").unwrap()), "2024-02-29");
    assert_eq!(civil_date(civil_days("2000-02-29").unwrap()), "2000-02-29");
}

#[test]
fn stepping_back_past_the_range_of_a_day_count_is_refused() {
    assert_eq!(days_before("2026-01-01", i64::MIN), None);
    assert_eq!(days_before("2026-01-01", 0).as_deref(), Some("2026-01-01"));
    assert_eq!(days_before("2026-02-30", 1), None);
}
