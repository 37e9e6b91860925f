use simple_sentry::errors::CoreError;
use simple_sentry::json::JsonValue;
use simple_sentry::tstamp::{format_rfc3339, resolve};

fn num(s: &str) -> JsonValue {
    JsonValue::Num(s.to_string())
}

fn st(s: &str) -> JsonValue {
    JsonValue::Str(s.to_string())
}

#[test]
fn equivalent_forms_resolve_to_same_epoch() {
    let expected = 1704164645i64;
    assert_eq!(resolve(&st("2024-01-02T03:04:05Z")), Ok(expected));
    assert_eq!(resolve(&st("2024-01-02T03:04:05.000")), Ok(expected));
    assert_eq!(resolve(&num("1704164645")), Ok(expected));
    assert_eq!(resolve(&num("1704164645.0")), Ok(expected));
}

#[test]
fn unresolvable_string_fails() {
    assert_eq!(
        resolve(&st("not-a-date")),
        Err(CoreError::UnresolvableTimestamp)
    );
}

#[test]
fn fractional_number_truncates_toward_zero() {
    assert_eq!(resolve(&num("1704164645.9")), Ok(1704164645));
    assert_eq!(resolve(&num("-5.9")), Ok(-5));
}

#[test]
fn explicit_offset_is_applied() {
    // the same wall-clock reading, two hours east of UTC
    assert_eq!(resolve(&st("2024-01-02T03:04:05+02:00")), Ok(1704157445));
    assert_eq!(resolve(&st("2024-01-02T03:04:05-02:00")), Ok(1704171845));
}

#[test]
fn fractional_part_with_zone_is_truncated() {
    assert_eq!(resolve(&st("2024-01-02T03:04:05.999Z")), Ok(1704164645));
}

#[test]
fn datetime_without_zone_or_fraction_fails() {
    assert_eq!(
        resolve(&st("2024-01-02T03:04:05")),
        Err(CoreError::UnresolvableTimestamp)
    );
}

#[test]
fn numeric_text_in_a_string_is_not_a_datetime() {
    assert_eq!(
        resolve(&st("1704164645")),
        Err(CoreError::UnresolvableTimestamp)
    );
}

#[test]
fn non_scalar_timestamps_fail() {
    assert_eq!(
        resolve(&JsonValue::Null),
        Err(CoreError::UnresolvableTimestamp)
    );
    assert_eq!(
        resolve(&JsonValue::Bool(true)),
        Err(CoreError::UnresolvableTimestamp)
    );
    assert_eq!(
        resolve(&JsonValue::Arr(vec![])),
        Err(CoreError::UnresolvableTimestamp)
    );
}

#[test]
fn out_of_window_numbers_fail() {
    assert_eq!(resolve(&num("253402300799")), Ok(253402300799));
    assert_eq!(
        resolve(&num("253402300800")),
        Err(CoreError::UnresolvableTimestamp)
    );
    assert_eq!(
        resolve(&num("999999999999999999999")),
        Err(CoreError::UnresolvableTimestamp)
    );
}

#[test]
fn negative_epochs_resolve_and_format() {
    assert_eq!(resolve(&num("-305164800")), Ok(-305164800));
    assert_eq!(format_rfc3339(-305164800), "1960-05-01T00:00:00Z");
}

#[test]
fn invalid_calendar_dates_fail() {
    assert_eq!(
        resolve(&st("2023-02-29T00:00:00Z")),
        Err(CoreError::UnresolvableTimestamp)
    );
    assert_eq!(resolve(&st("2024-02-29T00:00:00Z")), Ok(1709164800));
    assert_eq!(
        resolve(&st("2024-13-01T00:00:00Z")),
        Err(CoreError::UnresolvableTimestamp)
    );
    assert_eq!(
        resolve(&st("2024-01-02T24:00:00Z")),
        Err(CoreError::UnresolvableTimestamp)
    );
}

#[test]
fn format_round_trips_through_resolve() {
    for ts in [0i64, 1704164645, -305164800, 253402300799, 86399] {
        let text = format_rfc3339(ts);
        assert_eq!(resolve(&st(&text)), Ok(ts));
    }
    assert_eq!(format_rfc3339(0), "1970-01-01T00:00:00Z");
    assert_eq!(format_rfc3339(1704164645), "2024-01-02T03:04:05Z");
}
