use aw_server::timeinterval::TimeInterval;
use aw_server::timeinterval::TimeIntervalError;

const NS: i64 = 1_000_000_000;

#[test]
fn test_interval_round_trip() {
    let text = "2000-01-01T00:00:00+01:00/2001-02-02T01:01:01+01:00";
    let ti = TimeInterval::new_from_string(text).unwrap();
    let rendered = ti.format();
    let back = TimeInterval::new_from_string(&rendered).unwrap();
    assert_eq!(ti.start(), back.start());
    assert_eq!(ti.end(), back.end());
    assert_eq!(ti.duration(), back.duration());
}

#[test]
fn test_interval_parse_values() {
    // 2000-01-01T00:00:00Z is 946684800 seconds from the epoch; the +01:00
    // form one hour earlier denotes the same instant.
    let ti = TimeInterval::new_from_string("2000-01-01T00:00:00Z/2000-01-01T01:00:00Z").unwrap();
    assert_eq!(ti.start(), 946_684_800 * NS);
    assert_eq!(ti.end(), 946_684_800 * NS + 3_600 * NS);
    assert_eq!(ti.duration(), 3_600 * NS);
    let offset = TimeInterval::new_from_string(
        "2000-01-01T01:00:00+01:00/2000-01-01T02:00:00+01:00",
    )
    .unwrap();
    assert_eq!(offset.start(), ti.start());
    assert_eq!(offset.end(), ti.end());
}

#[test]
fn test_interval_format_text() {
    let ti = TimeInterval::new(946_684_800 * NS, 946_684_800 * NS + 3_600 * NS);
    assert_eq!(
        ti.format(),
        "2000-01-01T00:00:00+00:00/2000-01-01T01:00:00+00:00"
    );
}

#[test]
fn test_interval_subsecond_round_trip() {
    let start: i64 = 946_684_800 * NS + 123_456_789;
    let end: i64 = 946_684_800 * NS + 999_999_999;
    let ti = TimeInterval::new(start, end);
    let back = TimeInterval::new_from_string(&ti.format()).unwrap();
    assert_eq!(back.start(), start);
    assert_eq!(back.end(), end);
}

#[test]
fn test_interval_malformed() {
    assert!(TimeInterval::new_from_string("2000-01-01T00:00:00Z").is_err());
    assert!(TimeInterval::new_from_string(
        "2000-01-01T00:00:00Z/2000-01-01T01:00:00Z/2000-01-01T02:00:00Z"
    )
    .is_err());
    assert!(TimeInterval::new_from_string("2000-01-01T00:00:00Z/notadate").is_err());
    assert!(TimeInterval::new_from_string("notadate/2000-01-01T00:00:00Z").is_err());
    assert!(matches!(
        TimeInterval::new_from_string(""),
        Err(TimeIntervalError::ParseError())
    ));
}

#[test]
fn test_interval_backwards_duration() {
    // Construction performs no ordering validation; the span is negative.
    let ti = TimeInterval::new(10 * NS, 4 * NS);
    assert_eq!(ti.duration(), -6 * NS);
}
