use dashstream::duration::{parse_duration, DurationError, DurationMs};

#[test]
fn parses_hours_minutes_seconds() {
    assert_eq!(parse_duration("1:02:03"), Ok(DurationMs { millis: 3_723_000 }));
}

#[test]
fn parses_minutes_seconds() {
    assert_eq!(parse_duration("02:03"), Ok(DurationMs { millis: 123_000 }));
}

#[test]
fn parses_fractional_seconds() {
    assert_eq!(parse_duration("5.5"), Ok(DurationMs { millis: 5_500 }));
}

#[test]
fn parses_plain_seconds() {
    assert_eq!(parse_duration("90"), Ok(DurationMs { millis: 90_000 }));
}

#[test]
fn parses_unpadded_minutes_seconds() {
    assert_eq!(parse_duration("1:2"), Ok(DurationMs { millis: 62_000 }));
}

#[test]
fn parses_bare_fraction() {
    assert_eq!(parse_duration(".5"), Ok(DurationMs { millis: 500 }));
    assert_eq!(parse_duration("5."), Ok(DurationMs { millis: 5_000 }));
}

#[test]
fn parses_fraction_in_hours_form() {
    assert_eq!(parse_duration("1:02:03.25"), Ok(DurationMs { millis: 3_723_250 }));
}

#[test]
fn keeps_millisecond_precision_only() {
    assert_eq!(parse_duration("0.1234"), Ok(DurationMs { millis: 123 }));
    assert_eq!(parse_duration("0.05"), Ok(DurationMs { millis: 50 }));
}

#[test]
fn rejects_letters() {
    assert_eq!(parse_duration("abc"), Err(DurationError::Malformed));
}

#[test]
fn rejects_empty_input() {
    assert_eq!(parse_duration(""), Err(DurationError::Malformed));
}

#[test]
fn rejects_extra_components() {
    assert_eq!(parse_duration("1:2:3:4"), Err(DurationError::Malformed));
}

#[test]
fn rejects_lone_colon_and_dot() {
    assert_eq!(parse_duration(":"), Err(DurationError::Malformed));
    assert_eq!(parse_duration("."), Err(DurationError::Malformed));
    assert_eq!(parse_duration("1:"), Err(DurationError::Malformed));
    assert_eq!(parse_duration(":30"), Err(DurationError::Malformed));
}

#[test]
fn rejects_two_dots() {
    assert_eq!(parse_duration("1.2.3"), Err(DurationError::Malformed));
}

#[test]
fn rejects_oversized_values() {
    assert_eq!(
        parse_duration("99999999999999999999:0:0"),
        Err(DurationError::TooLarge)
    );
}

#[test]
fn renders_whole_seconds_without_fraction() {
    assert_eq!(DurationMs { millis: 90_000 }.to_secs_string(), "90");
}

#[test]
fn renders_fraction_trimmed() {
    assert_eq!(DurationMs { millis: 5_500 }.to_secs_string(), "5.5");
    assert_eq!(DurationMs { millis: 5_550 }.to_secs_string(), "5.55");
    assert_eq!(DurationMs { millis: 5_555 }.to_secs_string(), "5.555");
    assert_eq!(DurationMs { millis: 5_050 }.to_secs_string(), "5.05");
    assert_eq!(DurationMs { millis: 5_005 }.to_secs_string(), "5.005");
}

#[test]
fn round_trips_through_rendering() {
    let d = parse_duration("1:30").unwrap();
    assert_eq!(d.to_secs_string(), "90");
    let d = parse_duration("5.5").unwrap();
    assert_eq!(parse_duration(&d.to_secs_string()).unwrap(), d);
}
