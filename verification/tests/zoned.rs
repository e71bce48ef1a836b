use tzcraft::{CivilDateTime, Duration, Error, FractionDigits, Months, Offset, Ticks, Zone, Zoned};

#[test]
fn civil_anchor_and_projection() {
    let zone = Zone::fixed(Offset::from_hms(8, 0, 0).unwrap());
    let civil = CivilDateTime::from_ymd_hms(2024, 6, 15, 12, 0, 0).unwrap();
    let zoned = Zoned::from_civil(civil, zone).unwrap();
    assert_eq!(zoned.to_utc().to_rfc3339(FractionDigits::Omit), "2024-06-15T04:00:00Z");
    assert_eq!(zoned.civil().unwrap(), civil);
    assert_eq!(zoned.date().unwrap(), civil.date());
    assert_eq!(zoned.time().unwrap(), civil.time());
}

#[test]
fn zone_aware_month_math() {
    let zone = Zone::fixed(Offset::from_hms(-5, 0, 0).unwrap());
    let zoned =
        Zoned::from_civil(CivilDateTime::from_ymd_hms(2024, 1, 31, 12, 0, 0).unwrap(), zone).unwrap();
    let next = zoned.checked_add_months(Months::new(1)).unwrap();
    assert_eq!(next.civil().unwrap().to_iso(), "2024-02-29T12:00:00");
    assert_eq!(
        zoned.checked_sub_months(Months::new(1)).unwrap().civil().unwrap().to_iso(),
        "2023-12-31T12:00:00"
    );
}

#[test]
fn zoned_strftime_round_trips() {
    let z = Zoned::from_rfc3339("2024-06-15T07:00:00+08:00").unwrap();
    assert_eq!(z.format("%Y-%m-%d %H:%M:%S %z").unwrap(), "2024-06-15 07:00:00 +0800");
    assert_eq!(z.format("%A %e %B %Y %I:%M %p").unwrap(), "Saturday 15 June 2024 07:00 AM");
    assert_eq!(
        Zoned::parse_from_str("2024-06-15 07:00:00 +0800", "%Y-%m-%d %H:%M:%S %z").unwrap(),
        z
    );
    assert_eq!(
        z.timestamp().unwrap(),
        Ticks::from_rfc3339("2024-06-14T23:00:00Z").unwrap().timestamp().unwrap()
    );
}

#[test]
fn zoned_rfc3339_round_trips() {
    for s in [
        "2024-06-15T12:00:00Z",
        "2024-06-15T12:00:00+08:00",
        "2024-06-15T12:00:00.5-05:30",
        "2024-06-15T12:00:00-04:00",
    ] {
        let z = Zoned::from_rfc3339(s).unwrap_or_else(|e| panic!("{s}: {e:?}"));
        assert_eq!(z.to_rfc3339(FractionDigits::Auto), s, "{s}");
    }
    let z = Zoned::from_rfc3339("2024-06-15T12:00:00+00:00").unwrap();
    assert_eq!(z.zone(), Zone::Utc);
    assert_eq!(z.to_rfc3339(FractionDigits::Omit), "2024-06-15T12:00:00Z");
    assert_eq!(
        Zoned::from_rfc3339("2024-06-15T12:00:00"),
        Err(Error::parse("expected a timezone offset", 19))
    );
}

#[test]
fn with_zone_keeps_instant() {
    let z1 = Zoned::from_rfc3339("2024-06-15T12:00:00+08:00").unwrap();
    let z2 = z1.with_zone(Zone::Utc);
    assert_eq!(z1.to_utc(), z2.to_utc());
    assert_eq!(z2.to_rfc3339(FractionDigits::Omit), "2024-06-15T04:00:00Z");
}

// Further cases.

#[test]
fn zoned_anchor_then_read_gives_back_civil() {
    let zone = Zone::fixed(Offset::from_hms(-9, 30, 0).unwrap());
    let civil = CivilDateTime::from_ymd_hms_nano(1999, 12, 31, 23, 59, 59, 999_999_999).unwrap();
    let z = Zoned::from_civil(civil, zone).unwrap();
    assert_eq!(z.civil().unwrap(), civil);
    assert_eq!(z.to_string(), "1999-12-31T23:59:59.999999999-09:30");
    assert_eq!("1999-12-31T23:59:59.999999999-09:30".parse::<Zoned>().unwrap(), z);
    let later = z.checked_add(Duration::from_nanos(1)).unwrap();
    assert_eq!(later.civil().unwrap().to_iso(), "2000-01-01T00:00:00");
    let mut out = [0u8; 8];
    assert!(z.write_rfc3339(&mut out, FractionDigits::Auto).is_err());
}

#[test]
fn rfc2822_round_trip_needs_whole_minute_offsets() {
    let z = Zoned::from_rfc3339("2003-07-01T10:52:37+02:00").unwrap();
    assert_eq!(z.to_rfc2822(), "Tue,  1 Jul 2003 10:52:37 +0200");
    assert_eq!(Zoned::from_rfc2822(&z.to_rfc2822()).unwrap(), z);
    // Offset seconds are written but RFC 2822 cannot carry them back.
    let odd = Zoned::from_rfc3339("2003-07-01T10:52:37-04:30:15").unwrap();
    assert!(Zoned::from_rfc2822(&odd.to_rfc2822()).is_err());
    // Fractions are not carried either.
    let frac = Zoned::from_rfc3339("2003-07-01T10:52:37.5Z").unwrap();
    assert_ne!(Zoned::from_rfc2822(&frac.to_rfc2822()).unwrap(), frac);
}
