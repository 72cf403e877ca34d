use isochron::field::{FieldSchedule, DAY_OF_WEEK, HOUR, MINUTE, MONTH};
use isochron::CronError;

#[test]
fn weekday_range_five_to_seven_is_fri_sat_sun() {
    let field = FieldSchedule::parse("5-7", DAY_OF_WEEK).expect("valid");
    assert_eq!(field.values(), vec![0, 5, 6]);
}

#[test]
fn weekday_range_zero_to_seven_is_all_days() {
    let field = FieldSchedule::parse("0-7", DAY_OF_WEEK).expect("valid");
    assert_eq!(field.values(), vec![0, 1, 2, 3, 4, 5, 6]);
}

#[test]
fn wildcard_fills_the_whole_range() {
    let field = FieldSchedule::parse("*", MINUTE).expect("valid");
    assert!(field.is_full());
    assert_eq!(field.values().len(), 60);
}

#[test]
fn single_value_holds_only_that_value() {
    let field = FieldSchedule::parse("30", MINUTE).expect("valid");
    assert_eq!(field.values(), vec![30]);
}

#[test]
fn range_is_inclusive() {
    let field = FieldSchedule::parse("9-11", HOUR).expect("valid");
    assert_eq!(field.values(), vec![9, 10, 11]);
}

#[test]
fn step_over_wildcard() {
    let field = FieldSchedule::parse("*/15", MINUTE).expect("valid");
    assert_eq!(field.values(), vec![0, 15, 30, 45]);
}

#[test]
fn step_over_range() {
    let field = FieldSchedule::parse("0-10/5", MINUTE).expect("valid");
    assert_eq!(field.values(), vec![0, 5, 10]);
}

#[test]
fn value_slash_step_runs_to_max() {
    let field = FieldSchedule::parse("5/10", HOUR).expect("valid");
    assert_eq!(field.values(), vec![5, 15]);
}

#[test]
fn comma_list_unions_entries() {
    let field = FieldSchedule::parse("1,15,30", MINUTE).expect("valid");
    assert_eq!(field.values(), vec![1, 15, 30]);
}

#[test]
fn month_names_are_case_insensitive() {
    let field = FieldSchedule::parse("jan-mar", MONTH).expect("valid");
    assert_eq!(field.values(), vec![1, 2, 3]);
}

#[test]
fn weekday_seven_is_sunday() {
    let field = FieldSchedule::parse("7", DAY_OF_WEEK).expect("valid");
    assert_eq!(field.values(), vec![0]);
}

#[test]
fn weekday_names_resolve() {
    let field = FieldSchedule::parse("MON,FRI", DAY_OF_WEEK).expect("valid");
    assert_eq!(field.values(), vec![1, 5]);
}

#[test]
fn out_of_range_value_is_reported() {
    let error = FieldSchedule::parse("99", MINUTE).unwrap_err();
    assert!(matches!(
        error,
        CronError::ValueOutOfRange {
            field: "minute",
            value: 99,
            ..
        }
    ));
}

#[test]
fn zero_step_is_rejected() {
    let error = FieldSchedule::parse("*/0", MINUTE).unwrap_err();
    assert!(matches!(
        error,
        CronError::InvalidField {
            field: "minute",
            ..
        }
    ));
}

#[test]
fn reversed_range_is_rejected() {
    let error = FieldSchedule::parse("10-5", HOUR).unwrap_err();
    assert!(matches!(
        error,
        CronError::InvalidField { field: "hour", .. }
    ));
}

#[test]
fn leading_plus_numeric_is_rejected() {
    let error = FieldSchedule::parse("+5", MINUTE).unwrap_err();
    assert!(matches!(
        error,
        CronError::InvalidField {
            field: "minute",
            ..
        }
    ));
}

#[test]
fn zero_padded_numeric_is_rejected() {
    for token in ["007", "00"] {
        let error = FieldSchedule::parse(token, MINUTE).unwrap_err();
        assert!(matches!(
            error,
            CronError::InvalidField {
                field: "minute",
                ..
            }
        ));
    }
}

#[test]
fn bare_zero_stays_valid() {
    let field = FieldSchedule::parse("0", MINUTE).expect("valid");
    assert_eq!(field.values(), vec![0]);
}

#[test]
fn weekday_non_canonical_numeric_is_rejected() {
    for token in ["007", "+0"] {
        let error = FieldSchedule::parse(token, DAY_OF_WEEK).unwrap_err();
        assert!(matches!(
            error,
            CronError::InvalidField {
                field: "day-of-week",
                ..
            }
        ));
    }
}

#[test]
fn weekday_bare_zero_is_sunday() {
    let field = FieldSchedule::parse("0", DAY_OF_WEEK).expect("valid");
    assert_eq!(field.values(), vec![0]);
}

#[test]
fn non_canonical_step_is_rejected() {
    for token in ["*/+5", "*/007", "*/05"] {
        let error = FieldSchedule::parse(token, MINUTE).unwrap_err();
        assert!(matches!(
            error,
            CronError::InvalidField {
                field: "minute",
                ..
            }
        ));
    }
}

#[test]
fn canonical_step_stays_valid() {
    let field = FieldSchedule::parse("*/20", MINUTE).expect("valid");
    assert_eq!(field.values(), vec![0, 20, 40]);
}

#[test]
fn zero_step_still_reports_zero_error() {
    let error = FieldSchedule::parse("*/0", MINUTE).unwrap_err();
    assert!(matches!(
        error,
        CronError::InvalidField { field: "minute", reason, .. } if reason.contains("greater than zero")
    ));
}

#[test]
fn non_canonical_error_message_mentions_canonical() {
    for token in ["+5", "*/+5"] {
        let error = FieldSchedule::parse(token, MINUTE).unwrap_err();
        assert!(matches!(
            error,
            CronError::InvalidField { reason, .. } if reason.contains("canonical")
        ));
    }
}

#[test]
fn day_of_week_out_of_range_reports_the_alias_bound() {
    let error = FieldSchedule::parse("8", DAY_OF_WEEK).unwrap_err();
    assert_eq!(
        error,
        CronError::ValueOutOfRange {
            field: "day-of-week",
            value: 8,
            min: 0,
            max: 7,
        }
    );
}

#[test]
fn step_from_sunday_alias_is_rejected_in_the_field() {
    let error = FieldSchedule::parse("7/2", DAY_OF_WEEK).unwrap_err();
    assert_eq!(
        error,
        CronError::InvalidField {
            field: "day-of-week",
            token: "7/2".to_owned(),
            reason: "a step cannot start from the alias 7; start from 0 instead".to_owned(),
        }
    );
}

#[test]
fn empty_list_entry_is_rejected() {
    let error = FieldSchedule::parse("1,,2", MINUTE).unwrap_err();
    assert_eq!(
        error,
        CronError::InvalidField {
            field: "minute",
            token: "".to_owned(),
            reason: "empty list entry".to_owned(),
        }
    );
}

#[test]
fn oversized_number_is_not_a_number() {
    let error = FieldSchedule::parse("99999999999", MINUTE).unwrap_err();
    assert!(matches!(
        error,
        CronError::InvalidField { reason, .. } if reason == "not a number"
    ));
}
