use tzcraft::format::{format_date_into, format_offset_into, format_rfc3339_into, format_time_into, parse_rfc3339};
use tzcraft::write::Buf;
use tzcraft::{Duration, FractionDigits, Months, Ticks, Weekday};

#[test]
fn epoch_parts() {
    let t = Ticks::epoch();
    assert_eq!(t.to_unix_seconds().unwrap(), (0, 0));
    let dt = t.to_civil_utc().unwrap();
    assert_eq!((dt.year(), dt.month(), dt.day()), (1970, 1, 1));
    assert_eq!(dt.hour(), 0);
}

#[test]
fn add_duration_crosses_midnight() {
    let t = Ticks::from_unix_seconds(86_399, 500_000_000).unwrap();
    let next = t.checked_add(Duration::from_seconds(1)).unwrap().to_civil_utc().unwrap();
    assert_eq!((next.year(), next.month(), next.day()), (1970, 1, 2));
    assert_eq!(next.time().hour(), 0);
}

#[test]
fn sub_seconds_floor() {
    let t = Ticks::from_unix_seconds(0, 0).unwrap().checked_sub(Duration::from_nanos(1)).unwrap();
    assert_eq!(t.to_unix_seconds().unwrap(), (-1, 999_999_999));
    let (y, m, d) = t.to_civil_utc().unwrap().date().parts();
    assert_eq!((y, m, d), (1969, 12, 31));
}

#[test]
fn calendar_months_clamp() {
    let jan31 = Ticks::from_rfc3339("2023-01-31T12:00:00Z").unwrap();
    let feb = jan31.checked_add_months(Months::new(1)).unwrap();
    assert_eq!(feb.to_rfc3339(FractionDigits::Omit), "2023-02-28T12:00:00Z");
    let leap = Ticks::from_rfc3339("2024-01-31T12:00:00Z").unwrap();
    assert_eq!(
        leap.checked_add_months(Months::new(1)).unwrap().to_rfc3339(FractionDigits::Omit),
        "2024-02-29T12:00:00Z"
    );
    assert_eq!(
        jan31.checked_add_years(2).unwrap().to_rfc3339(FractionDigits::Omit),
        "2025-01-31T12:00:00Z"
    );
}

#[test]
fn timestamp_helpers() {
    let t = Ticks::from_timestamp(1_700_000_000, 123_456_789).unwrap();
    assert_eq!(t.timestamp().unwrap(), 1_700_000_000);
    assert_eq!(t.timestamp_millis().unwrap(), 1_700_000_000_123);
    assert_eq!(t.timestamp_micros().unwrap(), 1_700_000_000_123_456);
    assert_eq!(t.timestamp_nanos().unwrap(), 1_700_000_000_123_456_789);
    assert_eq!(
        Ticks::from_timestamp_millis(1_700_000_000_123).unwrap(),
        Ticks::from_unix_nanos(1_700_000_000_123_000_000)
    );
    assert_eq!(
        Ticks::from_timestamp_micros(1_700_000_000_123_456).unwrap(),
        Ticks::from_unix_nanos(1_700_000_000_123_456_000)
    );
    assert_eq!(Ticks::from_timestamp_nanos(1_700_000_000_123_456_789), t);
    let before = Ticks::epoch().checked_sub(Duration::from_millis(500)).unwrap();
    assert_eq!(before.timestamp().unwrap(), -1);
    assert!(Ticks::from_timestamp(0, 1_000_000_000).is_err());
}

#[test]
fn ticks_rfc3339_round_trips() {
    for s in [
        "1970-01-01T00:00:00Z",
        "2024-02-29T23:59:59.5Z",
        "2024-02-29T23:59:59.123456789Z",
        "2024-06-15T08:30:00+08:00",
        "2024-06-15T00:30:00+08:00",
        "2024-06-14T20:30:00-04:00",
        "2024-06-15T08:30:00+0530",
        "2024-06-15T08:30:00+05",
        "1969-12-31T23:59:59Z",
        "2021-01-01t00:00:00z",
    ] {
        let t = Ticks::from_rfc3339(s).unwrap_or_else(|e| panic!("{s}: {e:?}"));
        let (date, time, off) = parse_rfc3339(s).unwrap();
        let shifted = t.checked_add(Duration::from_seconds(off.as_seconds() as i64)).unwrap();
        let mut storage_a = [0u8; 64];
        let mut storage_b = [0u8; 64];
        let mut expect = Buf::new(&mut storage_a);
        format_rfc3339_into(&mut expect, date, time, off, FractionDigits::Auto).unwrap();
        let mut got = Buf::new(&mut storage_b);
        format_rfc3339_into(
            &mut got,
            shifted.to_civil_utc().unwrap().date(),
            shifted.to_civil_utc().unwrap().time(),
            off,
            FractionDigits::Auto,
        )
        .unwrap();
        assert_eq!(got.as_str(), expect.as_str(), "{s}");
    }
}

#[test]
fn rfc3339_rejects_garbage() {
    for s in [
        "",
        "2024",
        "2024-01-01",
        "2024-01-01T12:00:00",
        "2024-13-01T00:00:00Z",
        "2024-01-32T00:00:00Z",
        "2024-01-01T24:00:00Z",
        "2024-01-01T12:00:00+24:00",
        "2024-01-01T12:00:00.1234567890Z",
        "2024-01-01T12:00:00Z trailing",
        "abcd-01-01T00:00:00Z",
    ] {
        assert!(Ticks::from_rfc3339(s).is_err(), "{s} should fail");
    }
}

#[test]
fn duration_since_sign() {
    let a = Ticks::from_unix_seconds(10, 0).unwrap();
    let b = Ticks::from_unix_seconds(20, 0).unwrap();
    assert_eq!(b.duration_since(a), Duration::from_seconds(10));
    assert_eq!(a.duration_since(b), Duration::from_seconds(-10));
}

#[test]
fn now_is_sane() {
    let now = Ticks::now().unwrap();
    let year = now.to_civil_utc().unwrap().year();
    assert!((2000..=3000).contains(&year));
    // Platform clock ranges are narrower than `Ticks`: an error, never a panic.
    let _ = Ticks::max_instant().to_std_time();
}

// Further cases.

#[test]
fn ticks_render_and_parse_helpers() {
    assert_eq!(Ticks::epoch().to_string(), "1970-01-01T00:00:00Z");
    assert_eq!(
        "2024-06-15T08:30:00Z".parse::<Ticks>().unwrap(),
        Ticks::from_rfc3339("2024-06-15T08:30:00Z").unwrap()
    );
    // No civil reading: the raw count and `s`.
    assert_eq!(Ticks::max_instant().to_string(), format!("{}s", i128::MAX));
    let t = Ticks::from_unix_seconds(1_718_409_600, 0).unwrap();
    assert_eq!(t.weekday_utc().unwrap(), Weekday::Saturday);
    let mut out = [0u8; 8];
    assert!(t.write_rfc3339(&mut out, FractionDigits::Omit).is_err());
    assert_eq!(out, [0u8; 8]);
}

#[test]
fn ticks_shift_inverse_and_months() {
    let t = Ticks::from_rfc3339("2024-03-31T10:00:00Z").unwrap();
    let d = Duration::from_nanos(-123_456_789_012);
    assert_eq!(t.checked_add(d).unwrap().checked_sub(d).unwrap(), t);
    assert_eq!(
        t.checked_sub_months(Months::new(1)).unwrap().to_rfc3339(FractionDigits::Omit),
        "2024-02-29T10:00:00Z"
    );
    assert!(Ticks::max_instant().checked_add(Duration::from_nanos(1)).is_err());
    assert_eq!(Ticks::max_instant().saturating_add(Duration::from_nanos(1)), Ticks::max_instant());
}

#[test]
fn format_pieces_render_into_vectors() {
    let mut out: Vec<u8> = Vec::new();
    format_date_into(&mut out, 2024, 2, 29);
    out.push(b'T');
    format_time_into(&mut out, 1, 2, 3, 4_000_000, FractionDigits::Auto);
    format_offset_into(&mut out, -3600);
    assert_eq!(out, b"2024-02-29T01:02:03.004-01:00");
}
