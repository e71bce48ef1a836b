use std::collections::hash_map::DefaultHasher;
use std::hash::{Hash, Hasher};

use tzcraft::{Offset, Zone};

#[test]
fn normalization_and_equality() {
    assert_eq!(Zone::fixed(Offset::utc()), Zone::Utc);
    assert_eq!(Zone::Fixed(Offset::utc()), Zone::Utc);
    assert_eq!(Zone::from_name("UTC"), Some(Zone::Utc));
    assert_eq!(Zone::from_name("CST"), None);
    let z = Zone::fixed(Offset::from_hms(8, 0, 0).unwrap());
    assert_eq!(z.offset().as_seconds(), 8 * 3600);
}

#[test]
fn zone_iso_round_trips() {
    for s in ["UTC", "+08:00", "-05:30"] {
        let z = Zone::from_iso(s).unwrap_or_else(|e| panic!("{s}: {e:?}"));
        assert_eq!(z.to_iso(), s, "{s}");
    }
    assert_eq!(Zone::from_iso("Z").unwrap(), Zone::Utc);
    assert_eq!(Zone::Fixed(Offset::utc()).to_iso(), "UTC");
    assert!(Zone::from_iso("+24:00").is_err());
}

#[test]
fn ordering() {
    assert!(Zone::Utc < Zone::fixed(Offset::from_hms(1, 0, 0).unwrap()));
    assert!(Zone::fixed(Offset::from_hms(-1, 0, 0).unwrap()) < Zone::Utc);
}

// Further cases.

#[test]
fn zone_text_helpers() {
    let z = Zone::fixed(Offset::from_hms(-5, 30, 0).unwrap());
    assert_eq!(z.to_string(), "-05:30");
    assert_eq!(Zone::Utc.to_string(), "UTC");
    assert_eq!("-05:30".parse::<Zone>().unwrap(), z);
    let mut out = [0u8; 10];
    let n = z.write_iso(&mut out).unwrap();
    assert_eq!(&out[..n], b"-05:30");
    let mut tiny = [0u8; 2];
    assert!(Zone::Utc.write_iso(&mut tiny).is_err());
    assert!(Zone::Utc <= Zone::Fixed(Offset::utc()));
    assert!(Zone::Utc >= Zone::Fixed(Offset::utc()));
}

#[test]
fn zone_hash_follows_offset() {
    let h = |z: Zone| {
        let mut s = DefaultHasher::new();
        z.hash(&mut s);
        s.finish()
    };
    assert_eq!(h(Zone::Utc), h(Zone::Fixed(Offset::utc())));
}

#[test]
fn zone_tagged_shape_round_trips() {
    let z = Zone::fixed(Offset::from_hms(8, 0, 0).unwrap());
    assert_eq!(z.to_tagged(), (1, Some(28_800)));
    assert_eq!(Zone::Utc.to_tagged(), (0, None));
    assert_eq!(Zone::from_tagged(1, Some(28_800), 2).unwrap(), z);
    assert_eq!(Zone::from_tagged(0, None, 1).unwrap(), Zone::Utc);
    assert!(Zone::from_tagged(1, Some(86_400), 2).is_err());
    assert!(Zone::from_tagged(2, None, 1).is_err());
    assert!(Zone::from_tagged(0, Some(5), 2).is_err());
}
