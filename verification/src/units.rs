//! Calendar units and the ISO week date.
//!
//! [`Days`] and [`Months`] are non-negative, type-safe calendar offsets, so a
//! day count can never be mistaken for a month count. [`IsoWeek`] is the ISO
//! 8601 week date `(iso_year, week)`.

use vstd::prelude::*;

use crate::calendar::{
    days_from_civil, days_from_ymd, iso_week_from_civil, iso_week_of_days, weekday_from_civil,
    weekday_num, weekday_of_days, Weekday,
};
use crate::date::Date;
use crate::duration::is_out_of_range;
use crate::error::Error;

verus! {

/// A non-negative number of calendar days.
#[derive(Clone, Copy, Debug, PartialEq, Eq, PartialOrd, Ord, Hash)]
pub struct Days(pub u64);

impl Days {
    /// Build from a day count.
    pub fn new(days: u64) -> (d: Days)
        ensures
            d.0 == days,
    {
        Days(days)
    }

    /// The inner day count.
    pub fn get(self) -> (n: u64)
        ensures
            n == self.0,
    {
        self.0
    }
}

/// A non-negative number of calendar months.
#[derive(Clone, Copy, Debug, PartialEq, Eq, PartialOrd, Ord, Hash)]
pub struct Months(pub u32);

impl Months {
    /// Build from a month count.
    pub fn new(months: u32) -> (m: Months)
        ensures
            m.0 == months,
    {
        Months(months)
    }

    /// The inner month count.
    pub fn get(self) -> (n: u32)
        ensures
            n == self.0,
    {
        self.0
    }
}

/// An ISO 8601 week date: an ISO year and a week number.
///
/// The ISO year can differ from the calendar year for the first days of
/// January and the last days of December (e.g. `2021-01-01` is ISO week
/// `2020-W53`).
#[derive(Clone, Copy, Debug, PartialEq, Eq, PartialOrd, Ord, Hash)]
pub struct IsoWeek {
    year: i32,
    week: u32,
}

impl View for IsoWeek {
    type V = (int, int);

    /// `(iso_year, week)`.
    closed spec fn view(&self) -> (int, int) {
        (self.year as int, self.week as int)
    }
}

/// Number of ISO weeks in ISO year `y`: the week number of December 28,
/// which always lies in the year's last week.
pub open spec fn iso_weeks_in_year(y: int) -> int {
    iso_week_of_days(days_from_ymd(y, 12, 28)).1
}

/// Day count of the Monday of ISO week `w` of ISO year `y`: week 1 is the
/// week holding January 4.
pub open spec fn iso_week_monday(y: int, w: int) -> int {
    let jan4 = days_from_ymd(y, 1, 4);
    jan4 - weekday_num(weekday_of_days(jan4)) + (w - 1) * 7
}

impl IsoWeek {
    /// Build from an ISO year and week number (not validated).
    pub fn new(year: i32, week: u32) -> (w: IsoWeek)
        ensures
            w@ == (year as int, week as int),
    {
        IsoWeek { year, week }
    }

    /// The ISO year.
    pub fn year(self) -> (y: i32)
        ensures
            y == self@.0,
    {
        self.year
    }

    /// The ISO week number (1-based).
    pub fn week(self) -> (w: u32)
        ensures
            w == self@.1,
    {
        self.week
    }

    /// `(iso_year, week)`.
    pub fn parts(self) -> (p: (i32, u32))
        ensures
            (p.0 as int, p.1 as int) == self@,
    {
        (self.year, self.week)
    }

    /// The Monday that starts this week, as a calendar date.
    ///
    /// The resulting date lives in the ISO year (which may differ from the
    /// calendar year at the boundaries). Fails for week 0 or a week beyond
    /// the year's last, and when the Monday leaves the date range.
    pub fn monday(self) -> (r: Result<Date, Error>)
        ensures
            self@.1 == 0 || self@.1 > iso_weeks_in_year(self@.0) ==> is_out_of_range(r, "iso week"),
            !(self@.1 == 0 || self@.1 > iso_weeks_in_year(self@.0)) ==> {
                let z = iso_week_monday(self@.0, self@.1);
                &&& i32::MIN <= z <= i32::MAX ==> (r is Ok && r->Ok_0@ == z)
                &&& !(i32::MIN <= z <= i32::MAX) ==> is_out_of_range(r, "date")
            },
    {
        proof {
            crate::calendar::lemma_year_in_window(self.year as int, 12, 28);
            crate::calendar::lemma_year_in_window(self.year as int, 1, 4);
        }
        let max_week = iso_week_from_civil(self.year, 12, 28).1;
        if self.week == 0 || self.week > max_week {
            return Err(Error::out_of_range("iso week"));
        }
        // Week 1 of the ISO year is the week containing January 4.
        let jan4 = days_from_civil(self.year, 1, 4);
        let monday_week1 = jan4 - weekday_from_civil(jan4).as_u8() as i64;
        Date::from_days_checked(monday_week1 + (self.week as i64 - 1) * 7)
    }

    /// The weekday of the Monday of this week (always the week's first day).
    pub fn first_weekday(self) -> (w: Weekday)
        ensures
            w == Weekday::Monday,
    {
        Weekday::Monday
    }
}

/// `YYYY-Www`: the ISO year as a plain signed number, `-W`, and the week
/// zero-padded to two digits.
pub open spec fn iso_week_text(v: (int, int)) -> Seq<u8> {
    crate::format::signed_text(v.0) + seq![45u8, 87u8] + crate::text::dec_padded(v.1 as nat, 2)
}

impl IsoWeek {
    /// What `Display` writes: `2026-W01`.
    pub fn to_string(self) -> (s: String)
        ensures
            vstd::utf8::encode_utf8(s@) == iso_week_text(self@),
    {
        let mut out: Vec<u8> = Vec::new();
        crate::format::write_signed_i128(&mut out, self.year as i128);
        out.push(45u8);
        out.push(87u8);
        crate::format::write_padded(&mut out, self.week as u64, 2);
        proof {
            assert(out@ =~= iso_week_text(self@));
            crate::rendering::lemma_dec_padded_ascii(self@.1 as nat, 2);
            assert(crate::rendering::ascii_bytes(seq![45u8, 87u8]));
            crate::rendering::lemma_concat_ascii(
                seq![45u8, 87u8],
                crate::text::dec_padded(self@.1 as nat, 2),
            );
            crate::rendering::lemma_signed_suffix_ascii(
                self@.0,
                seq![45u8, 87u8] + crate::text::dec_padded(self@.1 as nat, 2),
            );
            assert(out@ =~= crate::format::signed_text(self@.0) + (seq![45u8, 87u8]
                + crate::text::dec_padded(self@.1 as nat, 2)));
            crate::rendering::lemma_ascii_valid(out@);
        }
        crate::text::string_from_utf8(out.as_slice())
    }
}

} // verus!
