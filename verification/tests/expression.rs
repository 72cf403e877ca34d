use isochron::day_filter::DayFilter;
use isochron::expression::CronSchedule;
use isochron::{CronError, DateTime};
use std::collections::HashSet;

fn utc(year: i32, month: u8, day: u8, hour: u8, minute: u8, second: u8) -> DateTime {
    DateTime::utc(year, month, day, hour, minute, second).expect("valid")
}

fn utc_nanos(year: i32, month: u8, day: u8, hour: u8, minute: u8, second: u8, nanosecond: u32) -> DateTime {
    DateTime::new(year, month, day, hour, minute, second, nanosecond, 0).expect("valid")
}

fn minus_one_nanosecond(t: &DateTime) -> DateTime {
    let month = time::Month::try_from(t.month).expect("month");
    let date = time::Date::from_calendar_date(t.year, month, t.day).expect("date");
    let clock = time::Time::from_hms_nano(t.hour, t.minute, t.second, t.nanosecond).expect("time");
    let offset = time::UtcOffset::from_whole_seconds(t.offset).expect("offset");
    let p = time::PrimitiveDateTime::new(date, clock).assume_offset(offset) - time::Duration::nanoseconds(1);
    DateTime::new(
        p.year(),
        u8::from(p.month()),
        p.day(),
        p.hour(),
        p.minute(),
        p.second(),
        p.nanosecond(),
        p.offset().whole_seconds(),
    )
    .expect("valid")
}

#[test]
fn five_fields_parse() {
    let schedule = CronSchedule::parse("0 0 * * *").expect("valid");
    assert!(!schedule.has_seconds());
}

#[test]
fn six_fields_parse_with_seconds() {
    let schedule = CronSchedule::parse("30 0 0 * * *").expect("valid");
    assert!(schedule.has_seconds());
    assert!(schedule.second().contains(30));
}

#[test]
fn wrong_field_count_is_rejected() {
    let error = CronSchedule::parse("* * *").unwrap_err();
    assert!(matches!(error, CronError::WrongFieldCount { found: 3 }));
}

#[test]
fn empty_is_rejected() {
    assert_eq!(
        CronSchedule::parse("   ").unwrap_err(),
        CronError::EmptyExpression
    );
}

#[test]
fn daily_macro_expands() {
    let from_macro = CronSchedule::parse("@daily").expect("valid");
    let explicit = CronSchedule::parse("0 0 * * *").expect("valid");
    assert_eq!(from_macro, explicit);
}

#[test]
fn parse_builds_the_effective_day_filter() {
    let union = CronSchedule::parse("0 0 1 * 1").expect("valid");
    assert!(matches!(union.days(), DayFilter::Union { .. }));
    let loose = CronSchedule::parse("0 0 * * *").expect("valid");
    assert_eq!(loose.days(), DayFilter::EveryDay);
    let day_only = CronSchedule::parse("0 0 1 * *").expect("valid");
    assert!(matches!(day_only.days(), DayFilter::DayOfMonth(_)));
    let weekday_only = CronSchedule::parse("0 0 * * 1").expect("valid");
    assert!(matches!(weekday_only.days(), DayFilter::DayOfWeek(_)));
}

#[test]
fn matches_respects_dom_or_dow_union() {
    let schedule = CronSchedule::parse("0 0 1 * 1").expect("valid");
    assert!(schedule.is_match(&utc(2026, 6, 15, 0, 0, 0)));
    assert!(schedule.is_match(&utc(2026, 7, 1, 0, 0, 0)));
    assert!(!schedule.is_match(&utc(2026, 6, 16, 0, 0, 0)));
}

#[test]
fn matches_with_single_day_constraint() {
    let schedule = CronSchedule::parse("0 0 15 * *").expect("valid");
    assert!(schedule.is_match(&utc(2026, 6, 15, 0, 0, 0)));
    assert!(!schedule.is_match(&utc(2026, 6, 16, 0, 0, 0)));
}

#[test]
fn display_round_trips() {
    let schedule = CronSchedule::parse("  0   0 1,15 * MON  ").expect("valid");
    let rendered = schedule.to_string();
    let reparsed = CronSchedule::parse(&rendered).expect("valid");
    assert_eq!(schedule, reparsed);
}

#[test]
fn display_normalises_spacing_and_expands_macros() {
    let schedule = CronSchedule::parse("  0   0 1,15 * MON  ").expect("valid");
    assert_eq!(schedule.to_string(), "0 0 1,15 * MON");
    let yearly = CronSchedule::parse("@YEARLY").expect("valid");
    assert_eq!(yearly.to_string(), "0 0 1 1 *");
}

#[test]
fn eq_ignores_sunday_alias() {
    let a = CronSchedule::parse("0 0 * * 0").expect("valid");
    let b = CronSchedule::parse("0 0 * * 7").expect("valid");
    assert_eq!(a, b);
}

#[test]
fn eq_ignores_name_vs_number() {
    let a = CronSchedule::parse("0 0 * * MON").expect("valid");
    let b = CronSchedule::parse("0 0 * * 1").expect("valid");
    assert_eq!(a, b);
}

#[test]
fn eq_macro_matches_expanded() {
    let a = CronSchedule::parse("@yearly").expect("valid");
    let b = CronSchedule::parse("0 0 1 1 *").expect("valid");
    assert_eq!(a, b);
}

#[test]
fn hash_agrees_with_eq() {
    let mut set = HashSet::new();
    set.insert(CronSchedule::parse("0 0 * * 0").expect("valid"));
    set.insert(CronSchedule::parse("0 0 * * 7").expect("valid"));
    assert_eq!(set.len(), 1);
}

#[test]
fn eq_distinguishes_real_differences() {
    let a = CronSchedule::parse("0 0 * * 1").expect("valid");
    let b = CronSchedule::parse("0 0 * * 2").expect("valid");
    assert_ne!(a, b);
}

#[test]
fn parse_rejects_step_from_sunday_alias() {
    let error = CronSchedule::parse("0 0 * * 7/2").unwrap_err();
    assert_eq!(
        error.to_string(),
        "invalid day-of-week field, token \"7/2\": a step cannot start from the alias 7; start from 0 instead"
    );
}

#[test]
fn is_match_rejects_subsecond_instant_five_fields() {
    let schedule = CronSchedule::parse("0 0 * * *").expect("valid");
    assert!(schedule.is_match(&utc(2026, 1, 1, 0, 0, 0)));
    assert!(!schedule.is_match(&utc_nanos(2026, 1, 1, 0, 0, 0, 500_000_000)));
    assert!(!schedule.is_match(&utc_nanos(2026, 1, 1, 0, 0, 0, 1)));
}

#[test]
fn is_match_rejects_subsecond_instant_six_fields() {
    let schedule = CronSchedule::parse("30 0 0 * * *").expect("valid");
    assert!(schedule.is_match(&utc(2026, 1, 1, 0, 0, 30)));
    assert!(!schedule.is_match(&utc_nanos(2026, 1, 1, 0, 0, 30, 500_000_000)));
    assert!(!schedule.is_match(&utc_nanos(2026, 1, 1, 0, 0, 30, 1)));
}

#[test]
fn is_match_normalises_offset_and_still_rejects_nanoseconds() {
    let schedule = CronSchedule::parse("0 0 * * *").expect("valid");
    let plus_two = DateTime::new(2026, 1, 1, 2, 0, 0, 0, 7200).expect("valid");
    let plus_two_nano = DateTime::new(2026, 1, 1, 2, 0, 0, 1, 7200).expect("valid");
    assert!(schedule.is_match(&plus_two));
    assert!(!schedule.is_match(&plus_two_nano));
}

#[test]
fn is_match_agrees_with_next_after_on_sampled_instants() {
    let cases: Vec<(&str, DateTime)> = vec![
        ("0 0 * * *", utc(2026, 1, 1, 0, 0, 0)),
        ("0 0 * * *", utc_nanos(2026, 1, 1, 0, 0, 0, 1)),
        ("0 0 * * *", utc_nanos(2026, 1, 1, 0, 0, 0, 500_000_000)),
        ("0 0 * * *", utc_nanos(2025, 12, 31, 23, 59, 59, 999_999_999)),
        ("0 0 * * *", utc(2026, 1, 1, 12, 0, 0)),
        ("30 0 0 * * *", utc(2026, 1, 1, 0, 0, 30)),
        ("30 0 0 * * *", utc_nanos(2026, 1, 1, 0, 0, 30, 1)),
        ("30 0 0 * * *", utc_nanos(2026, 1, 1, 0, 0, 30, 500_000_000)),
        ("30 0 0 * * *", utc_nanos(2026, 1, 1, 0, 0, 29, 999_999_999)),
        ("30 0 0 * * *", utc(2026, 1, 1, 0, 0, 31)),
        ("0 0 1 * MON", utc(2026, 6, 1, 0, 0, 0)),
        ("0 0 1 * MON", utc_nanos(2026, 6, 1, 0, 0, 0, 1)),
        ("0 0 1 * MON", utc(2026, 6, 15, 0, 0, 0)),
        ("0 0 1 * MON", utc(2026, 6, 16, 0, 0, 0)),
        ("*/15 * * * *", utc(2026, 1, 1, 0, 15, 0)),
        ("*/15 * * * *", utc_nanos(2026, 1, 1, 0, 15, 0, 1)),
        ("*/15 * * * *", utc_nanos(2026, 1, 1, 0, 15, 0, 500_000_000)),
        ("*/15 * * * *", utc(2026, 1, 1, 0, 20, 0)),
    ];

    for (expression, instant) in cases {
        let schedule = CronSchedule::parse(expression).expect("valid");
        let previous = minus_one_nanosecond(&instant);
        let expected_match = schedule.next_after(&previous) == Some(instant);
        assert_eq!(
            schedule.is_match(&instant),
            expected_match,
            "expression {expression} disagreed with next_after at {instant:?}"
        );
    }
}

const EQUIVALENT_TO_DAILY_MIDNIGHT: [&str; 6] = [
    "0 0 0 * * *",
    "0 0 */1 * *",
    "0 0 1-31 * *",
    "0 0 * * 0-6",
    "0 0 13 * 0-6",
    "@daily",
];

#[test]
fn eq_ignores_implicit_versus_explicit_zero_seconds() {
    let five_fields = CronSchedule::parse("0 0 * * *").expect("valid");
    let six_fields = CronSchedule::parse("0 0 0 * * *").expect("valid");
    assert_eq!(five_fields, six_fields);
}

#[test]
fn eq_distinguishes_a_real_seconds_field() {
    let midnight = CronSchedule::parse("0 0 * * *").expect("valid");
    let half_past = CronSchedule::parse("30 0 0 * * *").expect("valid");
    assert_ne!(midnight, half_past);
}

#[test]
fn eq_ignores_a_day_restriction_that_restricts_nothing() {
    let daily = CronSchedule::parse("0 0 * * *").expect("valid");
    for expression in EQUIVALENT_TO_DAILY_MIDNIGHT {
        let equivalent = CronSchedule::parse(expression).expect("valid");
        assert_eq!(daily, equivalent, "{expression} should equal 0 0 * * *");
    }
}

#[test]
fn eq_keeps_a_day_of_month_that_alone_restricts() {
    let daily = CronSchedule::parse("0 0 * * *").expect("valid");
    let thirteenth = CronSchedule::parse("0 0 13 * *").expect("valid");
    assert_ne!(daily, thirteenth);
}

#[test]
fn eq_keeps_a_union_of_two_partial_fields() {
    let union = CronSchedule::parse("0 0 1 * 1").expect("valid");
    let day_only = CronSchedule::parse("0 0 1 * *").expect("valid");
    assert_ne!(union, day_only);
}

#[test]
fn hash_deduplicates_semantically_equal_schedules() {
    let mut set = HashSet::new();
    set.insert(CronSchedule::parse("0 0 * * *").expect("valid"));
    for expression in EQUIVALENT_TO_DAILY_MIDNIGHT {
        set.insert(CronSchedule::parse(expression).expect("valid"));
    }
    assert_eq!(set.len(), 1);
}

#[test]
fn hash_keeps_distinct_schedules_apart() {
    let distinct = ["0 0 * * *", "30 0 0 * * *", "0 0 13 * *", "0 0 1 * 1"];
    let set: HashSet<CronSchedule> = distinct
        .iter()
        .map(|expression| CronSchedule::parse(expression).expect("valid"))
        .collect();
    assert_eq!(set.len(), distinct.len());
}

#[test]
fn eq_does_not_decide_extensional_equivalence() {
    let never_thirty = CronSchedule::parse("0 0 30 2 *").expect("valid");
    let never_thirty_one = CronSchedule::parse("0 0 31 2 *").expect("valid");
    assert_ne!(never_thirty, never_thirty_one);
}
