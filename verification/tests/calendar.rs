use tzcraft::calendar::{
    civil_from_days, day_of_year, days_from_civil, days_in_month, is_leap_year,
    floor_div, floor_mod, iso_week_from_civil, weekday_from_civil,
};
use tzcraft::{Month, Weekday};

#[test]
fn days_round_trip_broad_range() {
    // Every day over a ±200k-day window (≈ ±547 years).
    let mut day = -200_000i64;
    while day <= 200_000 {
        let (y, m, d) = civil_from_days(day);
        assert_eq!(days_from_civil(y, m, d), day, "day {day}");
        day += 1;
    }
}

#[test]
fn civil_round_trip_year_span() {
    for year in -3000..=3000 {
        for month in 1..=12u32 {
            let dim = days_in_month(year, month);
            for day in 1..=dim {
                let z = days_from_civil(year, month, day);
                assert_eq!(civil_from_days(z), (year, month, day), "{year}-{month}-{day}");
            }
        }
    }
}

#[test]
fn extreme_days_round_trip() {
    for day in [i32::MIN as i64, i32::MAX as i64, -719_468, 0, 719_468, 2_000_000_000] {
        let (y, m, d) = civil_from_days(day);
        assert_eq!(days_from_civil(y, m, d), day, "day {day}");
    }
}

#[test]
fn weekday_anchors() {
    assert_eq!(weekday_from_civil(0), Weekday::Thursday);
    assert_eq!(weekday_from_civil(10_957), Weekday::Saturday);
    assert_eq!(weekday_from_civil(18_628), Weekday::Friday);
    assert_eq!(weekday_from_civil(19_723), Weekday::Monday);
    assert_eq!(weekday_from_civil(-1), Weekday::Wednesday);
}

#[test]
fn leap_year_rules() {
    assert!(is_leap_year(2000));
    assert!(is_leap_year(2024));
    assert!(is_leap_year(0));
    assert!(!is_leap_year(1900));
    assert!(!is_leap_year(2100));
    assert!(!is_leap_year(2023));
    assert_eq!(days_in_month(2024, 2), 29);
    assert_eq!(days_in_month(2023, 2), 28);
    assert_eq!(days_in_month(2024, 12), 31);
    assert_eq!(days_in_month(2024, 4), 30);
    assert_eq!(days_in_month(2024, 0), 0);
    assert_eq!(days_in_month(2024, 13), 0);
}

#[test]
fn day_of_year_vectors() {
    assert_eq!(day_of_year(2023, 1, 1), 1);
    assert_eq!(day_of_year(2023, 12, 31), 365);
    assert_eq!(day_of_year(2024, 12, 31), 366);
    assert_eq!(day_of_year(2024, 3, 1), 61);
    assert_eq!(day_of_year(2023, 3, 1), 60);
}

#[test]
fn iso_week_vectors() {
    assert_eq!(iso_week_from_civil(2021, 1, 1), (2020, 53));
    assert_eq!(iso_week_from_civil(2021, 1, 3), (2020, 53));
    assert_eq!(iso_week_from_civil(2021, 1, 4), (2021, 1));
    assert_eq!(iso_week_from_civil(2021, 1, 10), (2021, 1));
    assert_eq!(iso_week_from_civil(2021, 1, 11), (2021, 2));
    assert_eq!(iso_week_from_civil(2020, 12, 31), (2020, 53));
    assert_eq!(iso_week_from_civil(2000, 1, 1), (1999, 52));
    assert_eq!(iso_week_from_civil(2016, 1, 1), (2015, 53));
    assert_eq!(iso_week_from_civil(2024, 1, 1), (2024, 1));
    assert_eq!(iso_week_from_civil(2024, 1, 7), (2024, 1));
    assert_eq!(iso_week_from_civil(2024, 1, 8), (2024, 2));
    assert_eq!(iso_week_from_civil(2025, 12, 31), (2026, 1));
    assert_eq!(iso_week_from_civil(1970, 1, 1), (1970, 1));
}

#[test]
fn weekday_wraps() {
    assert_eq!(Weekday::Sunday.succ(), Weekday::Monday);
    assert_eq!(Weekday::Monday.pred(), Weekday::Sunday);
    assert_eq!(Weekday::Wednesday.succ(), Weekday::Thursday);
    assert_eq!(Weekday::from_iso_number(7), Some(Weekday::Sunday));
    assert_eq!(Weekday::from_iso_number(0), None);
    assert_eq!(Weekday::Thursday.number_from_monday(), 4);
    assert_eq!(Weekday::Sunday.number_from_sunday(), 1);
    assert_eq!(Weekday::Monday.number_from_sunday(), 2);
}

#[test]
fn month_wraps_and_names() {
    assert_eq!(Month::December.next(), Month::January);
    assert_eq!(Month::January.prev(), Month::December);
    assert_eq!(Month::February.num_days(2024), 29);
    assert_eq!(Month::from_u32(13), None);
    assert_eq!(Month::September.as_u32(), 9);
    assert_eq!(Month::from_name("September"), Some(Month::September));
    assert_eq!(Month::from_name("september"), None);
}

#[test]
fn week_of_year_never_out_of_bounds() {
    let mut day = -200_000i64;
    while day <= 200_000 {
        let (y, m, d) = civil_from_days(day);
        let (_, week) = iso_week_from_civil(y, m, d);
        assert!((1..=53).contains(&week), "week {week} at {y}-{m}-{d}");
        day += 1;
    }
}

// Laws and edge cases of the calendar arithmetic.

#[test]
fn weekday_and_month_names_render() {
    assert_eq!(Weekday::Thursday.to_string(), "Thursday");
    assert_eq!(Month::February.to_string(), "February");
    assert_eq!(Weekday::from_name("Friday"), Some(Weekday::Friday));
    assert_eq!("Friday".parse::<Weekday>().unwrap(), Weekday::Friday);
    assert!("friday".parse::<Weekday>().is_err());
    assert_eq!("March".parse::<Month>().unwrap(), Month::March);
}

#[test]
fn days_from_civil_epoch_anchors() {
    assert_eq!(days_from_civil(1970, 1, 1), 0);
    assert_eq!(days_from_civil(2000, 1, 1), 10_957);
    assert_eq!(days_from_civil(0, 1, 1), -719_528);
    assert_eq!(civil_from_days(-1), (1969, 12, 31));
}

#[test]
fn floor_division_by_either_sign() {
    assert_eq!((floor_div(7, 2), floor_mod(7, 2)), (3, 1));
    assert_eq!((floor_div(-7, 2), floor_mod(-7, 2)), (-4, 1));
    assert_eq!((floor_div(7, -2), floor_mod(7, -2)), (-4, -1));
    assert_eq!((floor_div(-7, -2), floor_mod(-7, -2)), (3, -1));
    assert_eq!((floor_div(6, -3), floor_mod(6, -3)), (-2, 0));
    assert_eq!(floor_div(i64::MIN, -2), 1i64 << 62);
    assert_eq!(floor_div(i64::MAX, -1), -i64::MAX);
    assert_eq!(floor_mod(i64::MIN, 12), 4);
}
