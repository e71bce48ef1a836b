use tzcraft::calendar::{NS_PER_DAY, NS_PER_HOUR, NS_PER_MIN};
use tzcraft::Duration;

#[test]
fn units() {
    assert_eq!(Duration::from_minutes(2), Duration::from_seconds(120));
    assert_eq!(Duration::from_hours(1), Duration::from_seconds(3600));
    assert_eq!(Duration::from_days(1), Duration::from_seconds(86_400));
    assert_eq!(Duration::from_millis(1500).as_micros(), 1_500_000);
    assert_eq!(Duration::from_seconds(5).as_nanos(), 5_000_000_000);
    assert_eq!(Duration::from_nanos(-1).as_seconds(), 0);
}

#[test]
fn constructors_never_overflow() {
    assert_eq!(Duration::from_days(i64::MAX).as_nanos(), i64::MAX as i128 * NS_PER_DAY);
    assert_eq!(Duration::from_minutes(i64::MAX).as_nanos(), i64::MAX as i128 * NS_PER_MIN);
    assert_eq!(Duration::from_hours(i64::MAX).as_nanos(), i64::MAX as i128 * NS_PER_HOUR);
    assert_eq!(Duration::weeks(i64::MAX).as_nanos(), i64::MAX as i128 * 7 * NS_PER_DAY);
    assert_eq!(Duration::minutes(i64::MAX), Duration::from_minutes(i64::MAX));
    assert_eq!(Duration::hours(i64::MAX), Duration::from_hours(i64::MAX));
    assert_eq!(Duration::days(i64::MAX), Duration::from_days(i64::MAX));
    assert_eq!(Duration::from_days(-1).as_nanos(), -NS_PER_DAY);
    assert_eq!(Duration::from_minutes(-1).as_nanos(), -NS_PER_MIN);
}

#[test]
fn std_bridge() {
    let d = Duration::from_std(core::time::Duration::new(1, 500));
    assert_eq!(d, Duration::from_nanos(1_000_000_500));
    assert_eq!(d.to_std().unwrap(), core::time::Duration::new(1, 500));
    assert!(Duration::from_nanos(-1).to_std().is_err());
}

#[test]
fn duration_iso_round_trips() {
    for text in [
        "PT0S",
        "PT1S",
        "PT1.5S",
        "PT0.5S",
        "PT1M30S",
        "PT1H",
        "P1D",
        "P1DT2H3M4.5S",
        "-PT1S",
        "P1DT0.25S",
    ] {
        let d = Duration::from_iso8601(text).unwrap_or_else(|e| panic!("{text}: {e:?}"));
        assert_eq!(d.to_iso8601(), text, "{text}");
    }
    assert_eq!(Duration::from_iso8601("P2W").unwrap().as_nanos(), 1_209_600_000_000_000);
    assert_eq!(Duration::from_iso8601("P2W").unwrap().to_iso8601(), "P14D");
    assert_eq!(Duration::from_iso8601("P1W").unwrap().to_iso8601(), "P7D");
}

#[test]
fn iso_rejects_calendar_ambiguous() {
    for s in ["P1Y", "P1M", "P", "PT", "P1S", "P1DT", "P1DT5", "abc", "PT1H2D"] {
        assert!(Duration::from_iso8601(s).is_err(), "{s} should fail");
    }
}

// Further cases.

#[test]
fn duration_std_parts_and_errors() {
    assert_eq!(Duration::from_std_parts(2, 5), Duration::from_nanos(2_000_000_005));
    assert_eq!(Duration::from_nanos(3_000_000_007).to_std_parts().unwrap(), (3, 7));
    assert!(Duration::from_nanos(-5).to_std_parts().is_err());
}

#[test]
fn duration_checked_math() {
    assert!(Duration::from_nanos(i128::MAX).checked_add(Duration::from_nanos(1)).is_err());
    assert_eq!(
        Duration::from_seconds(7).checked_div(2).unwrap(),
        Duration::from_millis(3500)
    );
    assert!(Duration::from_seconds(7).checked_div(0).is_err());
    assert_eq!(Duration::from_seconds(-7).num_seconds().unwrap(), -7);
    assert_eq!(Duration::from_nanos(i128::MAX).saturating_add(Duration::from_nanos(1)).as_nanos(), i128::MAX);
    assert_eq!(Duration::from_seconds(90).to_string(), "PT1M30S");
    assert_eq!("PT1S".parse::<Duration>().unwrap(), Duration::from_seconds(1));
}

#[test]
fn duration_write_iso8601_buffer() {
    let mut out = [0u8; 16];
    let n = Duration::from_seconds(90).write_iso8601(&mut out).unwrap();
    assert_eq!(&out[..n], b"PT1M30S");
    let mut tiny = [0u8; 2];
    assert!(Duration::from_seconds(90).write_iso8601(&mut tiny).is_err());
}

#[test]
fn duration_text_round_trips_over_the_whole_range() {
    for n in [
        0i128,
        1,
        -1,
        999_999_999,
        86_400_000_000_000 * 400 + 5,
        -3_723_000_000_001,
        86_400_000_000_000 * 1_000_000_000_000_000_000,
        i128::MAX,
        i128::MIN,
        i128::MIN + 1,
    ] {
        let d = Duration::from_nanos(n);
        assert_eq!(Duration::from_iso8601(&d.to_iso8601()).unwrap(), d, "{n}");
    }
}

#[test]
fn duration_components_of_any_length() {
    let leading_zeros = format!("P{}1D", "0".repeat(60));
    assert_eq!(Duration::from_iso8601(&leading_zeros).unwrap(), Duration::from_days(1));
    let too_big = format!("P{}D", "9".repeat(60));
    assert_eq!(
        Duration::from_iso8601(&too_big).unwrap_err().kind(),
        tzcraft::ErrorKind::Overflow
    );
    // The unit is checked before the size of the number.
    let no_unit = format!("P{}", "9".repeat(60));
    assert!(matches!(
        Duration::from_iso8601(&no_unit).unwrap_err().kind(),
        tzcraft::ErrorKind::Parse(_)
    ));
    // 2^127 nanoseconds is in range only with a minus sign.
    let min_text = Duration::from_nanos(i128::MIN).to_iso8601();
    assert_eq!(Duration::from_iso8601(&min_text).unwrap().as_nanos(), i128::MIN);
    assert_eq!(
        Duration::from_iso8601(&min_text[1..]).unwrap_err().kind(),
        tzcraft::ErrorKind::Overflow
    );
}

#[test]
fn std_spans_keep_their_nanoseconds() {
    assert_eq!(Duration::from_std(core::time::Duration::new(5, 7)).as_nanos(), 5_000_000_007);
    let s = Duration::from_nanos(3_000_000_042).to_std().unwrap();
    assert_eq!((s.as_secs(), s.subsec_nanos()), (3, 42));
    assert_eq!(Duration::from_nanos(0).to_std().unwrap(), core::time::Duration::ZERO);
}
