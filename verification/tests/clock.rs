use tzcraft::{CivilDateTime, Date, Duration, Error, ErrorKind, Ticks, Zone, Zoned};

#[test]
fn clock_reads_a_sane_present() {
    let now = Ticks::now().unwrap();
    let year = now.to_civil_utc().unwrap().year();
    assert!((2000..=3000).contains(&year));
    assert!(Date::today().unwrap().year() >= 2000);
    let z = Zoned::now_utc().unwrap();
    assert_eq!(z.zone(), Zone::Utc);
    assert!(Zoned::now().unwrap().ticks() >= now);
}

#[test]
fn clock_readings_become_instants() {
    assert_eq!(
        Ticks::from_clock_reading(Some((1_700_000_000, 5))).unwrap(),
        Ticks::from_unix_nanos(1_700_000_000_000_000_005)
    );
    assert_eq!(
        Ticks::from_clock_reading(None),
        Err(Error::invalid("system clock precedes the unix epoch"))
    );
}

#[test]
fn instants_to_platform_clock_values() {
    let t = Ticks::from_unix_seconds(1_700_000_000, 250).unwrap();
    let st = t.to_std_time().unwrap();
    let back = st.duration_since(std::time::UNIX_EPOCH).unwrap();
    assert_eq!((back.as_secs(), back.subsec_nanos()), (1_700_000_000, 250));
    let before = Ticks::epoch().checked_sub(Duration::from_nanos(1)).unwrap();
    assert_eq!(before.to_std_time().unwrap_err().kind(), ErrorKind::OutOfRange("instant (before 1970)"));
    assert_eq!(Ticks::max_instant().to_std_time().unwrap_err().kind(), ErrorKind::OutOfRange("instant"));
}

#[test]
fn packed_civil_round_trip() {
    let dt = CivilDateTime::from_ymd_hms_nano(1969, 12, 31, 23, 59, 59, 1).unwrap();
    let packed = dt.to_packed();
    assert_eq!(packed, -999_999_999);
    assert_eq!(CivilDateTime::from_packed(packed).unwrap(), dt);
    assert_eq!(
        CivilDateTime::from_packed(i128::MAX).unwrap_err().kind(),
        ErrorKind::OutOfRange("civil date-time")
    );
}
