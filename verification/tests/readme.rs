use tzcraft::{Date, Duration, Months, Offset, Ticks, Weekday, Zone};

#[test]
fn readme_const_calendar() {
    let new_year_2025 = Date::from_days_since_epoch(20_089);
    let wd = new_year_2025.weekday();
    assert_eq!(wd, Weekday::Wednesday);
}

#[test]
fn readme_custom_zone_const() {
    let tokyo = Zone::fixed(Offset::from_seconds_opt(9 * 3600).unwrap());
    assert_eq!(tokyo.offset().as_seconds(), 9 * 3600);
}

#[test]
fn readme_quick_start() {
    let launch = Ticks::from_rfc3339("2024-06-15T08:30:00Z").unwrap();
    let local = launch.to_zoned(Zone::fixed(Offset::from_hms(8, 0, 0).unwrap()));
    assert_eq!(local.to_rfc3339(tzcraft::FractionDigits::Omit), "2024-06-15T16:30:00+08:00");
    assert_eq!(local.date().unwrap().weekday(), Weekday::Saturday);

    let jan = Date::from_ymd(2023, 1, 31).unwrap();
    assert_eq!(jan.checked_add_months(Months::new(1)).unwrap(), Date::from_ymd(2023, 2, 28).unwrap());
    assert_eq!(jan.checked_add_months(Months::new(13)).unwrap(), Date::from_ymd(2024, 2, 29).unwrap());

    let span = Duration::from_iso8601("P1DT2H3M4.5S").unwrap();
    assert_eq!(span.to_iso8601(), "P1DT2H3M4.5S");
}
