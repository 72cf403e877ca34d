use isochron::expression::CronSchedule;
use isochron::DateTime;

fn utc(year: i32, month: u8, day: u8, hour: u8, minute: u8, second: u8) -> DateTime {
    DateTime::utc(year, month, day, hour, minute, second).expect("valid")
}

#[test]
fn next_after_is_strictly_after() {
    let schedule = CronSchedule::parse("0 0 * * *").expect("valid");
    let next = schedule.next_after(&utc(2026, 1, 1, 0, 0, 0)).expect("exists");
    assert_eq!(next, utc(2026, 1, 2, 0, 0, 0));
}

#[test]
fn next_after_within_the_same_day() {
    let schedule = CronSchedule::parse("30 9 * * *").expect("valid");
    let next = schedule.next_after(&utc(2026, 1, 1, 8, 0, 0)).expect("exists");
    assert_eq!(next, utc(2026, 1, 1, 9, 30, 0));
}

#[test]
fn next_after_crosses_month_boundary() {
    let schedule = CronSchedule::parse("0 0 1 * *").expect("valid");
    let next = schedule.next_after(&utc(2026, 1, 15, 12, 0, 0)).expect("exists");
    assert_eq!(next, utc(2026, 2, 1, 0, 0, 0));
}

#[test]
fn next_after_handles_leap_day() {
    let schedule = CronSchedule::parse("0 0 29 2 *").expect("valid");
    let next = schedule.next_after(&utc(2026, 3, 1, 0, 0, 0)).expect("exists");
    assert_eq!(next, utc(2028, 2, 29, 0, 0, 0));
}

#[test]
fn impossible_expression_returns_none() {
    let schedule = CronSchedule::parse("0 0 30 2 *").expect("valid");
    assert!(schedule.next_after(&utc(2026, 1, 1, 0, 0, 0)).is_none());
}

#[test]
fn misfire_collapse_returns_first_after_anchor() {
    let schedule = CronSchedule::parse("0 * * * *").expect("valid");
    let next = schedule.next_after(&utc(2026, 1, 1, 10, 30, 0)).expect("exists");
    assert_eq!(next, utc(2026, 1, 1, 11, 0, 0));
}

#[test]
fn dom_or_dow_union_picks_earliest() {
    let schedule = CronSchedule::parse("0 0 1 * 1").expect("valid");
    let next = schedule.next_after(&utc(2026, 6, 10, 0, 0, 0)).expect("exists");
    assert_eq!(next, utc(2026, 6, 15, 0, 0, 0));
}

#[test]
fn seconds_resolution_advances_by_second() {
    let schedule = CronSchedule::parse("*/30 * * * * *").expect("valid");
    let next = schedule.next_after(&utc(2026, 1, 1, 0, 0, 5)).expect("exists");
    assert_eq!(next, utc(2026, 1, 1, 0, 0, 30));
}

#[test]
fn prev_before_is_strictly_before() {
    let schedule = CronSchedule::parse("0 0 * * *").expect("valid");
    let prev = schedule.prev_before(&utc(2026, 1, 2, 0, 0, 0)).expect("exists");
    assert_eq!(prev, utc(2026, 1, 1, 0, 0, 0));
}

#[test]
fn prev_before_within_the_same_day() {
    let schedule = CronSchedule::parse("30 9 * * *").expect("valid");
    let prev = schedule.prev_before(&utc(2026, 1, 1, 12, 0, 0)).expect("exists");
    assert_eq!(prev, utc(2026, 1, 1, 9, 30, 0));
}

#[test]
fn prev_before_crosses_month_boundary() {
    let schedule = CronSchedule::parse("0 0 1 * *").expect("valid");
    let prev = schedule.prev_before(&utc(2026, 2, 15, 0, 0, 0)).expect("exists");
    assert_eq!(prev, utc(2026, 2, 1, 0, 0, 0));
}

#[test]
fn prev_before_handles_leap_day() {
    let schedule = CronSchedule::parse("0 0 29 2 *").expect("valid");
    let prev = schedule.prev_before(&utc(2026, 6, 1, 0, 0, 0)).expect("exists");
    assert_eq!(prev, utc(2024, 2, 29, 0, 0, 0));
}

#[test]
fn next_after_reads_the_offset_in_utc() {
    let schedule = CronSchedule::parse("0 0 * * *").expect("valid");
    let eastern = DateTime::new(2026, 1, 1, 23, 30, 0, 0, -3600).expect("valid");
    let next = schedule.next_after(&eastern).expect("exists");
    // 23:30 at -01:00 is 00:30 UTC on 2 January.
    assert_eq!(next, utc(2026, 1, 3, 0, 0, 0));
}

#[test]
fn next_after_crosses_the_year_end_with_seconds() {
    let schedule = CronSchedule::parse("15 0 0 1 1 *").expect("valid");
    let next = schedule.next_after(&utc(2026, 12, 31, 23, 59, 59)).expect("exists");
    assert_eq!(next, utc(2027, 1, 1, 0, 0, 15));
}

#[test]
fn prev_before_with_seconds_at_a_subsecond_instant() {
    let schedule = CronSchedule::parse("* * * * * *").expect("valid");
    let instant = DateTime::new(2026, 3, 1, 0, 0, 0, 5, 0).expect("valid");
    let prev = schedule.prev_before(&instant).expect("exists");
    assert_eq!(prev, utc(2026, 3, 1, 0, 0, 0));
    let prev = schedule.prev_before(&utc(2026, 3, 1, 0, 0, 0)).expect("exists");
    assert_eq!(prev, utc(2026, 2, 28, 23, 59, 59));
}

#[test]
fn searches_stop_at_the_horizon() {
    // 29 February 2100 does not exist; from 2097 the next leap day within
    // five years would be 2104, beyond the horizon.
    let schedule = CronSchedule::parse("0 0 29 2 *").expect("valid");
    assert!(schedule.next_after(&utc(2097, 3, 1, 0, 0, 0)).is_none());
    assert_eq!(
        schedule.next_after(&utc(2099, 3, 1, 0, 0, 0)),
        Some(utc(2104, 2, 29, 0, 0, 0))
    );
}

#[test]
fn search_ends_at_the_last_representable_instant() {
    let schedule = CronSchedule::parse("0 0 1 1 *").expect("valid");
    assert!(schedule.next_after(&utc(9999, 6, 1, 0, 0, 0)).is_none());
    let first = CronSchedule::parse("* * * * *").expect("valid");
    assert!(first.prev_before(&utc(-9999, 1, 1, 0, 0, 0)).is_none());
}

#[test]
fn equal_schedules_search_alike() {
    let sunday_alias = CronSchedule::parse("15 6 * * 7").expect("valid");
    let sunday = CronSchedule::parse("15 6 * * 0").expect("valid");
    assert_eq!(sunday_alias, sunday);
    let from = utc(2026, 3, 4, 12, 0, 0);
    assert_eq!(sunday_alias.next_after(&from), sunday.next_after(&from));
    assert_eq!(sunday_alias.prev_before(&from), sunday.prev_before(&from));
    assert_eq!(sunday.next_after(&from), Some(utc(2026, 3, 8, 6, 15, 0)));
}

#[test]
fn the_next_occurrence_follows_the_previous_one() {
    let schedule = CronSchedule::parse("*/20 * * * *").expect("valid");
    let at = utc(2026, 5, 1, 10, 40, 0);
    let before = schedule.prev_before(&at).expect("exists");
    assert_eq!(before, utc(2026, 5, 1, 10, 20, 0));
    assert_eq!(schedule.next_after(&before), Some(at));
}
