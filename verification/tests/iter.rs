use isochron::expression::CronSchedule;
use isochron::DateTime;

fn utc(year: i32, month: u8, day: u8, hour: u8, minute: u8, second: u8) -> DateTime {
    DateTime::utc(year, month, day, hour, minute, second).expect("valid")
}

#[test]
fn upcoming_yields_increasing_occurrences() {
    let schedule = CronSchedule::parse("0 0 * * *").expect("valid");
    let mut upcoming = schedule.upcoming(&utc(2026, 1, 1, 12, 0, 0));
    let occurrences: Vec<DateTime> = (0..3).filter_map(|_| upcoming.next()).collect();
    assert_eq!(
        occurrences,
        vec![
            utc(2026, 1, 2, 0, 0, 0),
            utc(2026, 1, 3, 0, 0, 0),
            utc(2026, 1, 4, 0, 0, 0),
        ]
    );
}

#[test]
fn time_until_next_measures_the_gap() {
    let schedule = CronSchedule::parse("0 0 * * *").expect("valid");
    let gap = schedule
        .time_until_next(&utc(2026, 1, 1, 23, 0, 0))
        .expect("exists");
    assert_eq!(gap, 3_600_000_000_000);
}

#[test]
fn time_until_next_counts_from_the_offset_instant() {
    let schedule = CronSchedule::parse("0 * * * *").expect("valid");
    let from = DateTime::new(2026, 1, 1, 0, 0, 0, 250, 3600).expect("valid");
    let gap = schedule.time_until_next(&from).expect("exists");
    assert_eq!(gap, 3_600_000_000_000 - 250);
}

#[test]
fn upcoming_ends_with_the_horizon() {
    let schedule = CronSchedule::parse("0 0 30 2 *").expect("valid");
    let mut upcoming = schedule.upcoming(&utc(2026, 1, 1, 0, 0, 0));
    assert_eq!(upcoming.next(), None);
    assert_eq!(upcoming.next(), None);
}
