use tzcraft::strftime::text_of;
use tzcraft::format::{format_civil, format_date_into, format_offset, format_time_into};
use tzcraft::{CivilDateTime, Duration, FractionDigits, Offset, TimeOfDay};

fn text(out: &[u8]) -> &str {
    core::str::from_utf8(out).unwrap()
}

#[test]
fn fraction_digits_variants() {
    let t = TimeOfDay::from_hms_nano(12, 0, 0, 500_000_000).unwrap();
    let mut out: Vec<u8> = Vec::new();
    format_time_into(&mut out, 12, 0, 0, 500_000_000, FractionDigits::Omit);
    assert_eq!(text(&out), "12:00:00");
    out.clear();
    format_time_into(&mut out, 12, 0, 0, 500_000_000, FractionDigits::Milli);
    assert_eq!(text(&out), "12:00:00.500");
    out.clear();
    format_time_into(&mut out, 12, 0, 0, 500_000_000, FractionDigits::Micro);
    assert_eq!(text(&out), "12:00:00.500000");
    out.clear();
    format_time_into(&mut out, 12, 0, 0, 500_000_000, FractionDigits::Nano);
    assert_eq!(text(&out), "12:00:00.500000000");
    out.clear();
    format_time_into(&mut out, 12, 0, 0, 500_000_000, FractionDigits::Auto);
    assert_eq!(text(&out), "12:00:00.5");
    assert_eq!(t.to_iso(), "12:00:00.5");
}

#[test]
fn negative_years_format() {
    let mut out: Vec<u8> = Vec::new();
    format_date_into(&mut out, -1, 12, 31);
    assert_eq!(text(&out), "-0001-12-31");
    out.clear();
    format_date_into(&mut out, 10_000, 1, 1);
    assert_eq!(text(&out), "10000-01-01");
}

#[test]
fn offsets_with_seconds() {
    let o = Offset::from_hms(-4, 30, 15).unwrap();
    assert_eq!(format_offset(o), "-04:30:15");
    assert_eq!(format_offset(Offset::utc()), "Z");
}

#[test]
fn duration_format_vectors() {
    assert_eq!(Duration::zero().to_iso8601(), "PT0S");
    assert_eq!(Duration::from_seconds(90).to_iso8601(), "PT1M30S");
    assert_eq!(Duration::from_seconds(3600).to_iso8601(), "PT1H");
    assert_eq!(Duration::from_seconds(86_400).to_iso8601(), "P1D");
    assert_eq!(Duration::from_nanos(93_784_500_000_000).to_iso8601(), "P1DT2H3M4.5S");
    assert_eq!(Duration::from_seconds(-1).to_iso8601(), "-PT1S");
}

#[test]
fn civil_format() {
    let dt = CivilDateTime::from_ymd_hms(2024, 2, 29, 23, 59, 59).unwrap();
    assert_eq!(format_civil(dt, FractionDigits::Omit), "2024-02-29T23:59:59");
}

// Further cases.

#[test]
fn fraction_digits_truncate_not_round() {
    let mut out: Vec<u8> = Vec::new();
    format_time_into(&mut out, 0, 0, 1, 999_999_999, FractionDigits::Milli);
    assert_eq!(text(&out), "00:00:01.999");
    assert_eq!(
        tzcraft::format::format_time(TimeOfDay::from_hms(1, 2, 3).unwrap(), FractionDigits::Auto),
        "01:02:03"
    );
    assert_eq!(
        tzcraft::format::format_date(tzcraft::Date::from_ymd(-10_000, 1, 1).unwrap()),
        "-10000-01-01"
    );
    assert_eq!(Duration::from_nanos(-1).to_iso8601(), "-PT0.000000001S");
}

#[test]
fn renderings_become_strings_as_utf8() {
    assert_eq!(text_of(Ok("h\u{e9}".as_bytes().to_vec())).unwrap(), "hé");
    assert_eq!(
        text_of(Ok(vec![0x68, 0xff])).unwrap_err().kind(),
        tzcraft::ErrorKind::Invalid("invalid utf-8")
    );
    assert_eq!(
        text_of(Err(tzcraft::Error::overflow())).unwrap_err(),
        tzcraft::Error::overflow()
    );
}
