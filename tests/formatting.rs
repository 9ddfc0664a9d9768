use kapt::utils::{
    decimal_string, file_date_string, get_current_time, get_file_date_string, time_to_string,
    LocalDateTime,
};

#[test]
fn time_string_splits_hours_minutes_seconds() {
    assert_eq!(time_to_string(3723004), "01:02:03.004");
    assert_eq!(time_to_string(0), "00:00:00.000");
}

#[test]
fn time_string_wraps_minutes_and_seconds() {
    assert_eq!(time_to_string(75000), "00:01:15.000");
    assert_eq!(time_to_string(360000000), "100:00:00.000");
}

#[test]
fn decimal_notation() {
    assert_eq!(decimal_string(0), "0");
    assert_eq!(decimal_string(1234567890), "1234567890");
    assert_eq!(decimal_string(u128::MAX), u128::MAX.to_string());
}

#[test]
fn date_string_pads_fields() {
    let d = LocalDateTime { year: 2023, month: 1, day: 5, hour: 7, minute: 8, second: 9 };
    assert_eq!(file_date_string(&d), "2023-01-05--07-08-09");
}

#[test]
fn date_string_keeps_year_sign() {
    let d = LocalDateTime { year: -44, month: 3, day: 15, hour: 12, minute: 0, second: 0 };
    assert_eq!(file_date_string(&d), "-44-03-15--12-00-00");
}

#[test]
fn current_date_string_has_the_date_shape() {
    let s = get_file_date_string();
    let parts: Vec<&str> = s.split("--").collect();
    assert_eq!(parts.len(), 2);
    assert_eq!(parts[1].len(), 8);
    assert!(parts[0].len() >= 10);
}

#[test]
fn current_time_is_after_2020() {
    assert!(get_current_time() > 1_577_836_800_000);
}
