use isochron::expression::CronSchedule;

fn describe(expression: &str) -> String {
    CronSchedule::parse(expression).expect("valid").describe()
}

#[test]
fn daily_midnight() {
    assert_eq!(describe("0 0 * * *"), "at 00:00 every day");
}

#[test]
fn day_of_month() {
    assert_eq!(describe("0 0 1 * *"), "at 00:00 on day 1 of the month");
}

#[test]
fn weekday() {
    assert_eq!(describe("0 0 * * 1"), "at 00:00 on Monday");
}

#[test]
fn dom_or_dow_union() {
    assert_eq!(
        describe("0 0 1 * 1"),
        "at 00:00 on day 1 of the month or on Monday"
    );
}

#[test]
fn step_minutes() {
    assert_eq!(
        describe("*/15 * * * *"),
        "at minute 0, 15, 30 and 45 of every hour every day"
    );
}

#[test]
fn month_restricted() {
    assert_eq!(
        describe("0 0 1 1 *"),
        "at 00:00 on day 1 of the month in January"
    );
}

#[test]
fn every_minute() {
    assert_eq!(describe("* * * * *"), "every minute every day");
}

#[test]
fn workdays_are_spelled_out() {
    assert_eq!(
        describe("0 9 * * MON-FRI"),
        "at 09:00 on Monday, Tuesday, Wednesday, Thursday and Friday"
    );
}

#[test]
fn every_minute_past_listed_hours_in_two_months() {
    assert_eq!(
        describe("* 9,17 * JAN,DEC *"),
        "every minute past hour 9 and 17 every day in January and December"
    );
}

#[test]
fn minutes_past_hours() {
    assert_eq!(
        describe("0,30 8-9 * * *"),
        "at minute 0 and 30 past hour 8 and 9 every day"
    );
}

#[test]
fn equal_schedules_are_described_alike() {
    let named = CronSchedule::parse("0 9 * * MON-FRI").expect("valid");
    let numbered = CronSchedule::parse("0 9 * * 1-5").expect("valid");
    assert_eq!(named, numbered);
    assert_eq!(named.describe(), numbered.describe());
}
