use tzcraft::{Date, IsoWeek, Weekday};

#[test]
fn iso_week_monday() {
    let w = IsoWeek::new(2021, 1);
    assert_eq!(w.monday().unwrap(), Date::from_ymd(2021, 1, 4).unwrap());
    let w = IsoWeek::new(2020, 53);
    assert_eq!(w.monday().unwrap(), Date::from_ymd(2020, 12, 28).unwrap());
    let w = IsoWeek::new(2026, 1);
    assert_eq!(w.monday().unwrap(), Date::from_ymd(2025, 12, 29).unwrap());
    assert_eq!(w.to_string(), "2026-W01");
    assert!(IsoWeek::new(2024, 54).monday().is_err());
    assert!(IsoWeek::new(2021, 53).monday().is_err());
}

// Further cases.

#[test]
fn iso_week_round_trip_through_date() {
    let d = Date::from_ymd(2021, 1, 1).unwrap();
    let w = d.iso_week();
    assert_eq!(w.parts(), (2020, 53));
    assert_eq!(w.monday().unwrap(), Date::from_ymd(2020, 12, 28).unwrap());
    assert_eq!(w.first_weekday(), Weekday::Monday);
    assert_eq!(IsoWeek::new(-5, 3).to_string(), "-5-W03");
    assert!(IsoWeek::new(2024, 0).monday().is_err());
}
