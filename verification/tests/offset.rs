use tzcraft::Offset;

#[test]
fn construction_and_parts() {
    let o = Offset::from_hms(-8, 30, 15).unwrap();
    assert_eq!(o.as_seconds(), -(8 * 3600 + 30 * 60 + 15));
    assert_eq!(o.as_hms(), (-8, 30, 15));
    assert!(Offset::from_hms(24, 0, 0).is_err());
    assert!(Offset::from_hms(0, 60, 0).is_err());
    assert!(Offset::from_seconds(0).unwrap().is_utc());
    assert_eq!(Offset::from_seconds(86_399).unwrap().as_seconds(), 86_399);
    assert!(Offset::from_seconds(86_400).is_err());
    assert!(Offset::from_seconds(-86_400).is_err());
}

#[test]
fn offset_iso_round_trips() {
    for s in ["Z", "+08:00", "-05:30", "-04:30:15"] {
        let o = Offset::from_iso(s).unwrap_or_else(|e| panic!("{s}: {e:?}"));
        assert_eq!(o.to_iso(), s, "{s}");
    }
    assert_eq!(Offset::from_iso("+0530").unwrap().as_seconds(), 5 * 3600 + 30 * 60);
    assert_eq!(Offset::from_iso("+05").unwrap().as_seconds(), 5 * 3600);
    assert_eq!(Offset::from_iso("+00:00").unwrap(), Offset::utc());
    assert!(Offset::from_iso("+24:00").is_err());
    assert!(Offset::from_iso("abc").is_err());
    assert!(Offset::from_iso("+08:60").is_err());
}

// Further cases.

#[test]
fn offset_negate_and_text() {
    let o = Offset::from_hms(5, 45, 0).unwrap();
    assert_eq!(o.negate().to_string(), "-05:45");
    assert_eq!(o.negate().negate(), o);
    assert_eq!("+05:45".parse::<Offset>().unwrap(), o);
    let mut out = [0u8; 3];
    assert!(o.write_iso(&mut out).is_err());
    assert_eq!(Offset::from_seconds_opt(86_400), None);
}
