use isochron::day_filter::DayFilter;
use isochron::field::{self, FieldSchedule};
use isochron::DateTime;

fn day_of_month(token: &str) -> FieldSchedule {
    FieldSchedule::parse(token, field::DAY_OF_MONTH).expect("valid")
}

fn day_of_week(token: &str) -> FieldSchedule {
    FieldSchedule::parse(token, field::DAY_OF_WEEK).expect("valid")
}

fn utc(year: i32, month: u8, day: u8, hour: u8, minute: u8, second: u8) -> DateTime {
    DateTime::utc(year, month, day, hour, minute, second).expect("valid")
}

#[test]
fn no_restriction_accepts_every_day() {
    assert_eq!(DayFilter::new(None, None), DayFilter::EveryDay);
}

#[test]
fn full_day_of_month_alone_folds() {
    assert_eq!(
        DayFilter::new(Some(day_of_month("1-31")), None),
        DayFilter::EveryDay
    );
}

#[test]
fn partial_day_of_month_alone_is_kept() {
    let days = day_of_month("13");
    assert_eq!(DayFilter::new(Some(days), None), DayFilter::DayOfMonth(days));
}

#[test]
fn full_day_of_week_alone_folds() {
    assert_eq!(
        DayFilter::new(None, Some(day_of_week("0-6"))),
        DayFilter::EveryDay
    );
}

#[test]
fn partial_day_of_week_alone_is_kept() {
    let days = day_of_week("1");
    assert_eq!(DayFilter::new(None, Some(days)), DayFilter::DayOfWeek(days));
}

#[test]
fn full_day_of_week_absorbs_a_restricted_day_of_month() {
    assert_eq!(
        DayFilter::new(Some(day_of_month("13")), Some(day_of_week("0-6"))),
        DayFilter::EveryDay
    );
}

#[test]
fn full_day_of_month_absorbs_a_restricted_day_of_week() {
    assert_eq!(
        DayFilter::new(Some(day_of_month("1-31")), Some(day_of_week("1"))),
        DayFilter::EveryDay
    );
}

#[test]
fn two_partial_fields_keep_the_union() {
    let dom = day_of_month("1");
    let dow = day_of_week("1");
    assert_eq!(
        DayFilter::new(Some(dom), Some(dow)),
        DayFilter::Union {
            day_of_month: dom,
            day_of_week: dow,
        }
    );
}

#[test]
fn every_day_matches_any_date() {
    assert!(DayFilter::EveryDay.matches(&utc(2026, 6, 16, 0, 0, 0)));
}

#[test]
fn union_matches_when_either_field_matches() {
    let filter = DayFilter::Union {
        day_of_month: day_of_month("1"),
        day_of_week: day_of_week("1"),
    };
    assert!(filter.matches(&utc(2026, 6, 1, 0, 0, 0)));
    assert!(filter.matches(&utc(2026, 6, 15, 0, 0, 0)));
    assert!(filter.matches(&utc(2026, 7, 1, 0, 0, 0)));
    assert!(!filter.matches(&utc(2026, 6, 16, 0, 0, 0)));
}

#[test]
fn day_of_month_filter_ignores_the_weekday() {
    let filter = DayFilter::DayOfMonth(day_of_month("15"));
    assert!(filter.matches(&utc(2026, 6, 15, 0, 0, 0)));
    assert!(!filter.matches(&utc(2026, 6, 16, 0, 0, 0)));
}

#[test]
fn day_of_week_filter_ignores_the_day_of_month() {
    let filter = DayFilter::DayOfWeek(day_of_week("1"));
    assert!(filter.matches(&utc(2026, 6, 15, 0, 0, 0)));
    assert!(filter.matches(&utc(2026, 6, 22, 0, 0, 0)));
    assert!(!filter.matches(&utc(2026, 6, 16, 0, 0, 0)));
}

#[test]
fn matching_is_evaluated_in_utc() {
    let filter = DayFilter::DayOfMonth(day_of_month("15"));
    let plus_two = |day: u8| DateTime::new(2026, 6, day, 1, 0, 0, 0, 7200).expect("valid");
    assert!(!filter.matches(&plus_two(15)));
    assert!(filter.matches(&plus_two(16)));
}
