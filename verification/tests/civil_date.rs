use isochron::release::civil_date::civil_date_from_unix_seconds;

#[test]
fn formats_the_unix_epoch() {
    assert_eq!(civil_date_from_unix_seconds(0), "1970-01-01");
}

#[test]
fn formats_a_leap_day() {
    assert_eq!(civil_date_from_unix_seconds(951_782_400), "2000-02-29");
}

#[test]
fn formats_the_day_after_a_leap_day() {
    assert_eq!(civil_date_from_unix_seconds(951_868_800), "2000-03-01");
}

#[test]
fn formats_an_arbitrary_timestamp() {
    assert_eq!(civil_date_from_unix_seconds(1_782_000_000), "2026-06-21");
}

#[test]
fn formats_the_turn_of_the_twenty_second_century() {
    assert_eq!(civil_date_from_unix_seconds(4_102_444_800), "2100-01-01");
}

#[test]
fn formats_the_last_second_of_a_day() {
    assert_eq!(civil_date_from_unix_seconds(86_399), "1970-01-01");
    assert_eq!(civil_date_from_unix_seconds(86_400), "1970-01-02");
}

#[test]
fn formats_the_largest_timestamp() {
    assert_eq!(civil_date_from_unix_seconds(u64::MAX), "584554051223-11-09");
}
