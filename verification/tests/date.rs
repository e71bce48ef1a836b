use tzcraft::{Date, Duration, Month, Months, Weekday};

#[test]
fn date_components() {
    let d = Date::from_ymd(2024, 2, 29).unwrap();
    assert_eq!((d.year(), d.month(), d.day()), (2024, 2, 29));
    assert_eq!(d.month_enum(), Month::February);
    assert_eq!(d.weekday(), Weekday::Thursday);
    assert_eq!(d.day_of_year(), 60);
    assert_eq!(d.days_in_month(), 29);
    assert_eq!(d.days_in_year(), 366);
    assert!(d.is_leap_year());
    assert_eq!(d.iso_week().parts(), (2024, 9));
    assert_eq!(d.ordinal(), 60);
    assert_eq!(d.num_days_from_ce(), 738_944);
}

#[test]
fn alternative_constructors() {
    let d = Date::from_yo(2024, 60).unwrap();
    assert_eq!(d, Date::from_ymd(2024, 2, 29).unwrap());
    assert!(Date::from_yo(2024, 367).is_err());
    assert!(Date::from_yo(2023, 366).is_err());

    let iso = Date::from_isoywd(2021, 1, Weekday::Monday).unwrap();
    assert_eq!(iso, Date::from_ymd(2021, 1, 4).unwrap());
    let iso = Date::from_isoywd(2020, 53, Weekday::Friday).unwrap();
    assert_eq!(iso, Date::from_ymd(2021, 1, 1).unwrap());

    assert_eq!(Date::from_num_days_from_ce(0).unwrap(), Date::from_ymd(1, 1, 1).unwrap());
    assert_eq!(
        Date::from_num_days_from_ce(719_162).unwrap(),
        Date::from_ymd(1970, 1, 1).unwrap()
    );
}

#[test]
fn with_component_builders() {
    let d = Date::from_ymd(2024, 2, 29).unwrap();
    assert!(d.with_year(2023).is_err());
    assert_eq!(d.with_year(2028).unwrap(), Date::from_ymd(2028, 2, 29).unwrap());
    assert_eq!(d.with_month(3).unwrap(), Date::from_ymd(2024, 3, 29).unwrap());
    assert_eq!(d.with_day(1).unwrap(), Date::from_ymd(2024, 2, 1).unwrap());
    assert!(d.with_day(30).is_err());
}

#[test]
fn date_validation() {
    assert!(Date::from_ymd(2024, 0, 1).is_err());
    assert!(Date::from_ymd(2024, 13, 1).is_err());
    assert!(Date::from_ymd(2023, 2, 29).is_err());
    assert!(Date::from_ymd(2024, 2, 30).is_err());
    assert!(Date::from_ymd(2024, 4, 31).is_err());
    assert!(Date::from_ymd(2024, 12, 32).is_err());
    assert!(Date::from_ymd(2024, 1, 0).is_err());
    assert!(Date::from_ymd(-400, 2, 29).is_ok());
}

#[test]
fn month_clamping() {
    let jan31 = Date::from_ymd(2023, 1, 31).unwrap();
    assert_eq!(
        jan31.checked_add_months(Months::new(1)).unwrap(),
        Date::from_ymd(2023, 2, 28).unwrap()
    );
    assert_eq!(
        jan31.checked_add_months(Months::new(2)).unwrap(),
        Date::from_ymd(2023, 3, 31).unwrap()
    );
    assert_eq!(
        jan31.checked_add_months(Months::new(13)).unwrap(),
        Date::from_ymd(2024, 2, 29).unwrap()
    );
    assert_eq!(
        jan31.checked_sub_months(Months::new(13)).unwrap(),
        Date::from_ymd(2021, 12, 31).unwrap()
    );
    let mar31 = Date::from_ymd(2023, 3, 31).unwrap();
    assert_eq!(
        mar31.checked_sub_months(Months::new(1)).unwrap(),
        Date::from_ymd(2023, 2, 28).unwrap()
    );
}

#[test]
fn signed_duration_math() {
    let d = Date::from_ymd(2024, 1, 1).unwrap();
    assert_eq!(
        d.signed_duration_since(Date::from_ymd(2023, 12, 31).unwrap()),
        Duration::from_days(1)
    );
    assert_eq!(
        d.checked_add_signed(Duration::from_days(10)).unwrap(),
        Date::from_ymd(2024, 1, 11).unwrap()
    );
    assert_eq!(
        d.checked_sub_signed(Duration::from_days(1)).unwrap(),
        Date::from_ymd(2023, 12, 31).unwrap()
    );
}

#[test]
fn date_strftime_round_trips() {
    let d = Date::from_ymd(2024, 2, 29).unwrap();
    assert_eq!(d.format("%Y-%m-%d").unwrap(), "2024-02-29");
    assert_eq!(d.format("%a %b %d %Y").unwrap(), "Thu Feb 29 2024");
    assert_eq!(d.format("%j").unwrap(), "060");
    assert_eq!(d.format("%G-W%V").unwrap(), "2024-W09");
    assert_eq!(d.format("%u").unwrap(), "4");
    assert_eq!(d.format("%e %-d").unwrap(), "29 29");
    assert!(d.format("%Q").is_err());
    assert_eq!(Date::parse_from_str("2024-02-29", "%Y-%m-%d").unwrap(), d);
    assert_eq!(Date::parse_from_str("Thu Feb 29 2024", "%a %b %d %Y").unwrap(), d);
    assert_eq!(Date::parse_from_str("29.02.2024", "%d.%m.%Y").unwrap(), d);
    assert_eq!(Date::parse_from_str("24-060", "%y-%j").unwrap(), d);
    assert_eq!(Date::parse_from_str("2024-W09-4", "%G-W%V-%u").unwrap(), d);
    assert!(Date::parse_from_str("2024-02-30", "%Y-%m-%d").is_err());
    assert!(Date::parse_from_str("Mon Feb 29 2024", "%a %b %d %Y").is_err());
}

#[test]
fn occurrence_math() {
    let d = Date::from_ymd(2024, 1, 1).unwrap();
    assert_eq!(d.next_occurrence(Weekday::Monday).unwrap(), Date::from_ymd(2024, 1, 8).unwrap());
    assert_eq!(d.next_or_same(Weekday::Monday).unwrap(), d);
    assert_eq!(
        d.previous_occurrence(Weekday::Monday).unwrap(),
        Date::from_ymd(2023, 12, 25).unwrap()
    );
    assert_eq!(d.next_occurrence(Weekday::Friday).unwrap(), Date::from_ymd(2024, 1, 5).unwrap());
    assert_eq!(d.previous_or_same(Weekday::Monday).unwrap(), d);
}

#[test]
fn month_bounds() {
    let d = Date::from_ymd(2024, 2, 15).unwrap();
    assert_eq!(d.first_day_of_month(), Date::from_ymd(2024, 2, 1).unwrap());
    assert_eq!(d.last_day_of_month(), Date::from_ymd(2024, 2, 29).unwrap());
}

#[test]
fn date_iso_round_trips() {
    for s in ["1970-01-01", "2024-02-29", "0000-01-01", "9999-12-31", "-0001-12-31"] {
        let d = Date::from_iso(s).unwrap_or_else(|e| panic!("{s}: {e:?}"));
        assert_eq!(d.to_iso(), s, "{s}");
    }
    assert!(Date::from_iso("2024-02-30").is_err());
    assert!(Date::from_iso("2024-1-01").is_err());
    assert!(Date::from_iso("2024-01-01T00:00:00").is_err());
    assert!(Date::from_iso("2024-01-01Z").is_err());
}

#[test]
fn day_range_saturates() {
    let max = Date::max_date();
    assert!(max.checked_succ().is_err());
    assert_eq!(max.saturating_add_days(5), Date::max_date());
    assert!(Date::min_date().checked_pred().is_err());
}

// Further cases.

#[test]
fn date_write_iso_fills_buffer_or_fails_untouched() {
    let d = Date::from_ymd(2024, 2, 29).unwrap();
    let mut out = [b'x'; 12];
    let n = d.write_iso(&mut out).unwrap();
    assert_eq!(&out[..n], b"2024-02-29");
    assert_eq!(&out[n..], b"xx");
    let mut tiny = [b'x'; 4];
    assert!(d.write_iso(&mut tiny).is_err());
    assert_eq!(&tiny, b"xxxx");
    assert_eq!(d.to_string(), "2024-02-29");
    assert_eq!("2024-02-29".parse::<Date>().unwrap(), d);
}

#[test]
fn date_months_then_back_keeps_day_when_it_exists() {
    let d = Date::from_ymd(2024, 1, 15).unwrap();
    let there = d.checked_add_months(Months::new(7)).unwrap();
    assert_eq!(there, Date::from_ymd(2024, 8, 15).unwrap());
    assert_eq!(there.checked_sub_months(Months::new(7)).unwrap(), d);
    assert_eq!(Date::from_days_since_epoch(20_089).weekday(), Weekday::Wednesday);
}

#[test]
fn month_bounds_at_the_ends_of_the_range() {
    let lo = Date::min_date();
    assert_eq!(lo.first_day_of_month(), lo);
    let lo_last = lo.last_day_of_month();
    assert!(lo_last >= lo);
    assert_eq!((lo_last.year(), lo_last.month()), (lo.year(), lo.month()));
    let hi = Date::max_date();
    assert_eq!(hi.last_day_of_month(), hi);
    let hi_first = hi.first_day_of_month();
    assert!(hi_first <= hi);
    assert_eq!((hi_first.year(), hi_first.month()), (hi.year(), hi.month()));
    assert_eq!(hi_first.day(), 1);
}

#[test]
fn format_keeps_literal_unicode_text() {
    let d = Date::from_ymd(2024, 2, 29).unwrap();
    assert_eq!(d.format("%Y年%m月%d日").unwrap(), "2024年02月29日");
    assert_eq!(d.format("é %Y").unwrap(), "é 2024");
}

#[test]
fn today_is_after_the_epoch() {
    assert!(Date::today().unwrap() >= Date::from_days_since_epoch(0));
}
