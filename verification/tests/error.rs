use isochron::CronError;

#[test]
fn wrong_field_count_message_mentions_the_count() {
    let error = CronError::WrongFieldCount { found: 3 };
    assert_eq!(
        error.to_string(),
        "cron expression must carry five or six fields, found 3"
    );
}

#[test]
fn invalid_field_message_mentions_field_and_token() {
    let error = CronError::InvalidField {
        field: "minute",
        token: "99".to_owned(),
        reason: "value out of range".to_owned(),
    };
    assert_eq!(
        error.to_string(),
        "invalid minute field, token \"99\": value out of range"
    );
}

#[test]
fn out_of_range_message_mentions_bounds() {
    let error = CronError::ValueOutOfRange {
        field: "hour",
        value: 24,
        min: 0,
        max: 23,
    };
    assert_eq!(error.to_string(), "hour value 24 is out of range 0..=23");
}

#[test]
fn empty_expression_message() {
    assert_eq!(
        CronError::EmptyExpression.to_string(),
        "cron expression must not be empty"
    );
}
