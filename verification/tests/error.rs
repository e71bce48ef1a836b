use tzcraft::{Error, ErrorKind};

#[test]
fn display_carries_context() {
    assert_eq!(Error::out_of_range("month").to_string(), "month is out of range");
    assert_eq!(
        Error::parse("expected digits", 7).to_string(),
        "parse error: expected digits at byte 7"
    );
    assert!(Error::overflow().to_string().contains("overflow"));
    assert_eq!(Error::invalid_offset().kind(), ErrorKind::InvalidOffset);
}

// Further cases: one input per error kind.

#[test]
fn every_error_kind_has_a_message() {
    assert_eq!(Error::invalid("bad").to_string(), "invalid input: bad");
    assert_eq!(Error::invalid_offset().to_string(), "timezone offset must be within \u{b1}24 hours");
    assert_eq!(Error::overflow().to_string(), "arithmetic overflow");
    assert_eq!(Error::parse("x", 0).offset(), Some(0));
    assert_eq!(Error::buffer_overflow().kind(), ErrorKind::OutOfRange("output buffer"));
    assert_eq!(
        tzcraft::Date::from_iso("2024-13-01").unwrap_err().kind(),
        ErrorKind::OutOfRange("month")
    );
    assert_eq!(
        tzcraft::Offset::from_seconds(90_000).unwrap_err().kind(),
        ErrorKind::InvalidOffset
    );
    assert!(matches!(
        tzcraft::Ticks::from_rfc3339("x").unwrap_err().kind(),
        ErrorKind::Parse(_)
    ));
}
