use chrono::{Datelike, NaiveDate};
use tp_updater::calendar::{Day, FIRST_DAY, LAST_DAY, WINDOW_DAYS};

fn day(number: i32) -> Day {
    Day::from_number(number).unwrap()
}

#[test]
fn day_range_is_the_range_of_dates() {
    assert_eq!(NaiveDate::MIN.num_days_from_ce(), FIRST_DAY);
    assert_eq!(NaiveDate::MAX.num_days_from_ce(), LAST_DAY);
    assert!(NaiveDate::from_num_days_from_ce_opt(FIRST_DAY).is_some());
    assert!(NaiveDate::from_num_days_from_ce_opt(FIRST_DAY - 1).is_none());
    assert!(NaiveDate::from_num_days_from_ce_opt(LAST_DAY).is_some());
    assert!(NaiveDate::from_num_days_from_ce_opt(LAST_DAY + 1).is_none());
}

#[test]
fn day_from_number_accepts_the_range_only() {
    assert_eq!(Day::from_number(FIRST_DAY).map(|d| d.number()), Some(FIRST_DAY));
    assert_eq!(Day::from_number(LAST_DAY).map(|d| d.number()), Some(LAST_DAY));
    assert_eq!(Day::from_number(0).map(|d| d.number()), Some(0));
    assert!(Day::from_number(FIRST_DAY - 1).is_none());
    assert!(Day::from_number(LAST_DAY + 1).is_none());
    assert!(Day::from_number(i32::MIN).is_none());
    assert!(Day::from_number(i32::MAX).is_none());
}

#[test]
fn window_is_thirty_days() {
    assert_eq!(WINDOW_DAYS, 30);
}

#[test]
fn window_start_is_thirty_days_earlier() {
    assert_eq!(day(730_000).window_start().map(|d| d.number()), Some(729_970));
    assert_eq!(day(30).window_start().map(|d| d.number()), Some(0));
    assert_eq!(day(0).window_start().map(|d| d.number()), Some(-30));
    assert_eq!(day(LAST_DAY).window_start().map(|d| d.number()), Some(LAST_DAY - 30));
}

#[test]
fn window_start_agrees_with_the_calendar() {
    let today = NaiveDate::from_ymd_opt(2024, 3, 15).unwrap();
    let start = day(today.num_days_from_ce()).window_start().unwrap();
    let expected = NaiveDate::from_ymd_opt(2024, 2, 14).unwrap();
    assert_eq!(start.number(), expected.num_days_from_ce());
    // Across the end of a year.
    let today = NaiveDate::from_ymd_opt(2023, 1, 10).unwrap();
    let start = day(today.num_days_from_ce()).window_start().unwrap();
    let expected = NaiveDate::from_ymd_opt(2022, 12, 11).unwrap();
    assert_eq!(start.number(), expected.num_days_from_ce());
}

#[test]
fn window_start_stops_at_the_first_day() {
    assert_eq!(day(FIRST_DAY + 30).window_start().map(|d| d.number()), Some(FIRST_DAY));
    assert!(day(FIRST_DAY + 29).window_start().is_none());
    assert!(day(FIRST_DAY).window_start().is_none());
}

#[test]
fn mark_shows_up_to_the_edge_of_the_window() {
    let today = day(738_000);
    assert!(day(738_000).shows_on(today));
    assert!(day(737_999).shows_on(today));
    assert!(day(737_971).shows_on(today));
    assert!(day(737_970).shows_on(today));
    assert!(!day(737_969).shows_on(today));
    assert!(!day(700_000).shows_on(today));
    // A mark made after `today` shows too.
    assert!(day(738_001).shows_on(today));
}

#[test]
fn every_mark_shows_where_the_window_starts_before_the_first_day() {
    let today = day(FIRST_DAY + 10);
    assert!(day(FIRST_DAY).shows_on(today));
    assert!(day(FIRST_DAY + 10).shows_on(today));
}

#[test]
fn days_compare_by_number() {
    assert_eq!(day(5), day(5));
    assert_ne!(day(5), day(6));
}
