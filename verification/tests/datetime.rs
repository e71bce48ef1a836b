use tzcraft::{CivilDateTime, Date, Duration, Months, TimeOfDay, Weekday};

#[test]
fn parts_and_projection() {
    let dt = CivilDateTime::from_ymd_hms_nano(2024, 1, 2, 3, 4, 5, 6).unwrap();
    assert_eq!(dt.year(), 2024);
    assert_eq!(dt.month(), 1);
    assert_eq!(dt.day(), 2);
    assert_eq!(dt.hour(), 3);
    assert_eq!(dt.minute(), 4);
    assert_eq!(dt.second(), 5);
    assert_eq!(dt.nanosecond(), 6);
    assert_eq!(dt.weekday(), Weekday::Tuesday);

    let t = dt.to_ticks_utc().unwrap();
    let back = t.to_civil_utc().unwrap();
    assert_eq!(back, dt);
}

#[test]
fn arithmetic_carries_across_days() {
    let dt = CivilDateTime::from_ymd_hms(2024, 12, 31, 23, 59, 59).unwrap();
    let next = dt.checked_add(Duration::from_seconds(2)).unwrap();
    assert_eq!(next.to_iso(), "2025-01-01T00:00:01");
    let back = dt.checked_sub(Duration::from_seconds(2)).unwrap();
    assert_eq!(back.to_iso(), "2024-12-31T23:59:57");
}

#[test]
fn months_keep_time() {
    let dt = CivilDateTime::from_ymd_hms(2024, 1, 31, 12, 30, 0).unwrap();
    let next = dt.checked_add_months(Months::new(1)).unwrap();
    assert_eq!(next.to_iso(), "2024-02-29T12:30:00");
    assert_eq!(next.time(), TimeOfDay::from_hms(12, 30, 0).unwrap());
}

#[test]
fn datetime_iso_round_trips() {
    for s in ["2024-01-01T00:00:00", "2024-02-29T23:59:59.123", "2024-06-15T08:30:00.123456789"] {
        let dt = CivilDateTime::from_iso(s).unwrap_or_else(|e| panic!("{s}: {e:?}"));
        assert_eq!(dt.to_iso(), s, "{s}");
    }
    assert!(CivilDateTime::from_iso("2024-01-01T00:00:00Z").is_err());
    assert!(CivilDateTime::from_iso("2024-01-01").is_err());
}

// Further cases.

#[test]
fn datetime_add_then_sub_is_identity() {
    let dt = CivilDateTime::from_ymd_hms_nano(2023, 3, 1, 0, 0, 0, 5).unwrap();
    let d = Duration::from_nanos(-86_400_000_000_006);
    let moved = dt.checked_add(d).unwrap();
    assert_eq!(moved.to_iso(), "2023-02-27T23:59:59.999999999");
    assert_eq!(moved.checked_sub(d).unwrap(), dt);
}

#[test]
fn datetime_write_and_parse_text() {
    let dt = Date::from_ymd(2024, 2, 29).unwrap().and_hms(23, 59, 59).unwrap();
    let mut out = [0u8; 32];
    let n = dt.write_iso(&mut out).unwrap();
    assert_eq!(&out[..n], b"2024-02-29T23:59:59");
    assert_eq!(dt.to_string(), "2024-02-29T23:59:59");
    assert_eq!("2024-02-29T23:59:59".parse::<CivilDateTime>().unwrap(), dt);
    assert_eq!(dt.format("%Y-%m-%d %H:%M:%S").unwrap(), "2024-02-29 23:59:59");
    assert_eq!(
        CivilDateTime::parse_from_str("2024-02-29 23:59:59", "%Y-%m-%d %H:%M:%S").unwrap(),
        dt
    );
    let mut tiny = [0u8; 3];
    assert!(dt.write_iso(&mut tiny).is_err());
}
