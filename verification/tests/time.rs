use tzcraft::calendar::NS_PER_DAY;
use tzcraft::{Duration, TimeOfDay};

#[test]
fn time_components() {
    let t = TimeOfDay::from_hms_nano(23, 59, 59, 123_456_789).unwrap();
    assert_eq!((t.hour(), t.minute(), t.second(), t.nanosecond()), (23, 59, 59, 123_456_789));
    assert_eq!(t.millisecond(), 123);
    assert_eq!(t.microsecond(), 123_456);
    assert_eq!(TimeOfDay::noon().hour(), 12);
    assert_eq!(TimeOfDay::max_time().nanosecond(), 999_999_999);
}

#[test]
fn time_validation() {
    assert!(TimeOfDay::from_hms(24, 0, 0).is_err());
    assert!(TimeOfDay::from_hms(0, 60, 0).is_err());
    assert!(TimeOfDay::from_hms(0, 0, 60).is_err());
    assert!(TimeOfDay::from_hms_nano(0, 0, 0, 1_000_000_000).is_err());
    assert!(TimeOfDay::from_nanos_since_midnight(NS_PER_DAY as u64).is_err());
    assert!(TimeOfDay::from_nanos_since_midnight(NS_PER_DAY as u64 - 1).is_ok());
}

#[test]
fn arithmetic() {
    let t = TimeOfDay::from_hms(23, 30, 0).unwrap();
    assert!(t.checked_add(Duration::from_minutes(30)).is_err());
    assert_eq!(t.checked_add(Duration::from_minutes(29)).unwrap(), TimeOfDay::from_hms(23, 59, 0).unwrap());
    assert_eq!(t.checked_sub(Duration::from_minutes(31)).unwrap(), TimeOfDay::from_hms(22, 59, 0).unwrap());
    let (t2, carry) = t.overflowing_add(Duration::from_hours(25));
    assert_eq!(carry, 2);
    assert_eq!(t2, TimeOfDay::from_hms(0, 30, 0).unwrap());
    assert_eq!(
        TimeOfDay::from_hms(1, 0, 0).unwrap().duration_since(TimeOfDay::from_hms(0, 30, 0).unwrap()),
        Duration::from_minutes(30)
    );
}

#[test]
fn time_iso_round_trips() {
    for s in ["00:00:00", "23:59:59", "12:00:00.5", "12:00:00.123456789"] {
        let t = TimeOfDay::from_iso(s).unwrap_or_else(|e| panic!("{s}: {e:?}"));
        assert_eq!(t.to_iso(), s, "{s}");
    }
    assert!(TimeOfDay::from_iso("24:00:00").is_err());
    assert!(TimeOfDay::from_iso("12:00").is_err());
    assert!(TimeOfDay::from_iso("12:00:00Z").is_err());
}

// Further cases.

#[test]
fn time_overflowing_add_negative_carry() {
    let t = TimeOfDay::from_hms(0, 30, 0).unwrap();
    let (t2, carry) = t.overflowing_add(Duration::from_hours(-1));
    assert_eq!(carry, -1);
    assert_eq!(t2, TimeOfDay::from_hms(23, 30, 0).unwrap());
    assert_eq!(TimeOfDay::midnight().to_string(), "00:00:00");
    assert_eq!("12:00:00.5".parse::<TimeOfDay>().unwrap().nanosecond(), 500_000_000);
    assert_eq!(t.format("%I:%M %p").unwrap(), "12:30 AM");
}
