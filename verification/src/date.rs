//! Civil date: [`Date`].
//!
//! A `Date` is a pure projection of the timeline onto the proleptic
//! Gregorian calendar. It stores days since `1970-01-01` as an `i32`
//! (about 5.8 million years either way), and every accessor re-derives
//! year/month/day with the calendar engine.

use vstd::prelude::*;
use vstd::utf8::encode_utf8;
use vstd::string::StringSliceAdditionalSpecFns;
use crate::format::{buffer_outcome, copy_out, date_iso_text, format_date_into, parse_date_iso, scan_iso};
use crate::scan::fails;

use crate::calendar::{
    civil_from_days, day_of_year, days_from_civil, days_from_ymd, days_in_month, days_in_year,
    floor_div_ns, floor_rem_ns, is_leap, is_leap_year, iso_week_from_civil, iso_week_of_days,
    lemma_civil_window, lemma_ymd_of_days, month_at, month_len, month_num, valid_ymd,
    weekday_from_civil, weekday_num, weekday_of_days, year_len, year_start, ymd_of_days, Month,
    Weekday, DAYS_0001_TO_1970, NS_PER_DAY,
};
use crate::duration::{fits_i64, is_out_of_range, is_overflow, Duration};
use crate::error::Error;
use crate::units::{Days, IsoWeek, Months};

verus! {

/// A civil date in the proleptic Gregorian calendar.
#[derive(Clone, Copy, Debug, PartialEq, Eq, PartialOrd, Ord, Hash)]
pub struct Date(i32);

impl View for Date {
    type V = int;

    /// Days since `1970-01-01`.
    closed spec fn view(&self) -> int {
        self.0 as int
    }
}

/// Whether `z` fits the `i32` day range of [`Date`].
pub open spec fn fits_date(z: int) -> bool {
    i32::MIN <= z <= i32::MAX
}

/// The outcome of building a date from components: the component that is
/// out of range, or the day count.
pub open spec fn ymd_outcome(y: int, m: int, d: int) -> Result<int, &'static str> {
    if !(1 <= m <= 12) {
        Err("month")
    } else if d == 0 || d > month_len(y, m) {
        Err("day")
    } else if !fits_date(days_from_ymd(y, m, d)) {
        Err("date")
    } else {
        Ok(days_from_ymd(y, m, d))
    }
}

/// A date result agrees with an outcome: the same day count, or an
/// out-of-range error naming the same component.
pub open spec fn date_matches(r: Result<Date, Error>, o: Result<int, &'static str>) -> bool {
    match o {
        Ok(z) => r is Ok && r->Ok_0@ == z,
        Err(c) => is_out_of_range(r, c),
    }
}

/// The outcome of a day count that must fit the date range.
pub open spec fn days_outcome(z: int) -> Result<int, &'static str> {
    if fits_date(z) {
        Ok(z)
    } else {
        Err("date")
    }
}

/// `(year, month, day)` shifted by `k` calendar months, with the day clamped
/// to the length of the target month.
pub open spec fn add_months_ymd(y: int, m: int, d: int, k: int) -> (int, int, int) {
    let total = y * 12 + (m - 1) + k;
    let ny = total / 12;
    let nm = total % 12 + 1;
    let nd = if d <= month_len(ny, nm) {
        d
    } else {
        month_len(ny, nm)
    };
    (ny, nm, nd)
}

/// The outcome of shifting the date with day count `z` by `k` months: an
/// overflow when the year leaves `i32`, otherwise the clamped date.
pub open spec fn add_months_outcome(z: int, k: int) -> Option<Result<int, &'static str>> {
    let ymd = ymd_of_days(z);
    let t = add_months_ymd(ymd.0, ymd.1, ymd.2, k);
    if !(i32::MIN <= t.0 <= i32::MAX) {
        None
    } else {
        Some(ymd_outcome(t.0, t.1, t.2))
    }
}

/// A month-stepping result agrees with its outcome.
pub open spec fn months_matches(r: Result<Date, Error>, o: Option<Result<int, &'static str>>) -> bool {
    match o {
        None => is_overflow(r),
        Some(x) => date_matches(r, x),
    }
}

/// Days from the current weekday forward to the next `target`, strictly
/// after (1..=7).
pub open spec fn gap_after(cur: int, target: int) -> int {
    if target - cur <= 0 {
        target - cur + 7
    } else {
        target - cur
    }
}

/// A day count held to the representable range of [`Date`].
pub open spec fn clamp_day(z: int) -> int {
    if z < i32::MIN {
        i32::MIN as int
    } else if z > i32::MAX {
        i32::MAX as int
    } else {
        z
    }
}

/// The days of `z`'s month run from its first to its last day, and every day
/// count in between falls in the same year and month.
proof fn lemma_month_span(z: int)
    ensures
        ({
            let t = ymd_of_days(z);
            &&& days_from_ymd(t.0, t.1, 1) <= z <= days_from_ymd(t.0, t.1, month_len(t.0, t.1))
            &&& forall|w: int|
                days_from_ymd(t.0, t.1, 1) <= w <= days_from_ymd(t.0, t.1, month_len(t.0, t.1))
                    ==> (#[trigger] ymd_of_days(w)).0 == t.0 && ymd_of_days(w).1 == t.1
        }),
{
    lemma_ymd_of_days(z);
    let t = ymd_of_days(z);
    assert forall|w: int|
        days_from_ymd(t.0, t.1, 1) <= w <= days_from_ymd(t.0, t.1, month_len(t.0, t.1)) implies
        (#[trigger] ymd_of_days(w)).0 == t.0 && ymd_of_days(w).1 == t.1 by {
        let d = w - days_from_ymd(t.0, t.1, 1) + 1;
        assert(days_from_ymd(t.0, t.1, d) == w);
        crate::calendar::lemma_ymd_of_days_unique(t.0, t.1, d);
    }
}

/// A valid date's month and day are within `i32`-friendly bounds.
proof fn lemma_ymd_small(z: int)
    ensures
        valid_ymd(ymd_of_days(z).0, ymd_of_days(z).1, ymd_of_days(z).2),
        1 <= ymd_of_days(z).1 <= 12,
        1 <= ymd_of_days(z).2 <= 31,
{
    lemma_ymd_of_days(z);
}

impl Date {
    /// The earliest representable date.
    pub fn min_date() -> (d: Date)
        ensures
            d@ == i32::MIN,
    {
        Date(i32::MIN)
    }

    /// The latest representable date.
    pub fn max_date() -> (d: Date)
        ensures
            d@ == i32::MAX,
    {
        Date(i32::MAX)
    }

    /// Build directly from days since `1970-01-01`. Every `i32` is valid.
    pub fn from_days_since_epoch(days: i32) -> (d: Date)
        ensures
            d@ == days,
    {
        Date(days)
    }

    /// Days since `1970-01-01`.
    pub fn days_since_epoch(self) -> (n: i32)
        ensures
            n == self@,
    {
        self.0
    }

    /// Build from a day count that may live outside the `i32` range.
    pub fn from_days_checked(days: i64) -> (r: Result<Date, Error>)
        ensures
            date_matches(r, days_outcome(days as int)),
    {
        if days < i32::MIN as i64 || days > i32::MAX as i64 {
            return Err(Error::out_of_range("date"));
        }
        Ok(Date(days as i32))
    }

    /// Build a date from year/month/day, validating every component.
    pub fn from_ymd(year: i32, month: u32, day: u32) -> (r: Result<Date, Error>)
        ensures
            date_matches(r, ymd_outcome(year as int, month as int, day as int)),
    {
        if !(1 <= month && month <= 12) {
            return Err(Error::out_of_range("month"));
        }
        if day == 0 || day > days_in_month(year, month) {
            return Err(Error::out_of_range("day"));
        }
        let z = days_from_civil(year, month, day);
        Date::from_days_checked(z)
    }

    /// Build a date from a year and a 1-based day-of-year (chrono's
    /// `from_yo`).
    pub fn from_yo(year: i32, ordinal: u32) -> (r: Result<Date, Error>)
        ensures
            ordinal == 0 || ordinal > year_len(year as int) ==> is_out_of_range(r, "ordinal"),
            !(ordinal == 0 || ordinal > year_len(year as int)) ==> date_matches(
                r,
                days_outcome(year_start(year as int) + ordinal - 1),
            ),
    {
        if ordinal == 0 || ordinal > days_in_year(year) {
            return Err(Error::out_of_range("ordinal"));
        }
        let z = days_from_civil(year, 1, 1) + ordinal as i64 - 1;
        Date::from_days_checked(z)
    }

    /// Build a date from an ISO week date `(iso_year, week, weekday)`
    /// (chrono's `from_isoywd`).
    pub fn from_isoywd(year: i32, week: u32, weekday: Weekday) -> (r: Result<Date, Error>)
        ensures
            week == 0 || week > crate::units::iso_weeks_in_year(year as int) ==> is_out_of_range(
                r,
                "iso week",
            ),
            !(week == 0 || week > crate::units::iso_weeks_in_year(year as int)) ==> {
                let z = crate::units::iso_week_monday(year as int, week as int);
                &&& fits_date(z) ==> date_matches(r, days_outcome(z + weekday_num(weekday)))
                &&& !fits_date(z) ==> is_out_of_range(r, "date")
            },
    {
        let monday = match IsoWeek::new(year, week).monday() {
            Ok(d) => d,
            Err(e) => {
                return Err(e);
            },
        };
        monday.checked_add_days(Days::new(weekday.as_u8() as u64))
    }

    /// Build a date from days since the Common Era epoch `0001-01-01`
    /// (chrono's `from_num_days_from_ce`).
    pub fn from_num_days_from_ce(days: i64) -> (r: Result<Date, Error>)
        requires
            days >= i64::MIN + DAYS_0001_TO_1970,
        ensures
            date_matches(r, days_outcome(days - DAYS_0001_TO_1970)),
    {
        Date::from_days_checked(days - DAYS_0001_TO_1970)
    }

    /// `(year, month, day)` components.
    pub fn parts(self) -> (p: (i32, u32, u32))
        ensures
            (p.0 as int, p.1 as int, p.2 as int) == ymd_of_days(self@),
            valid_ymd(p.0 as int, p.1 as int, p.2 as int),
            days_from_ymd(p.0 as int, p.1 as int, p.2 as int) == self@,
    {
        proof {
            lemma_civil_window(self@);
        }
        civil_from_days(self.0 as i64)
    }

    /// Calendar year.
    pub fn year(self) -> (y: i32)
        ensures
            y == ymd_of_days(self@).0,
    {
        self.parts().0
    }

    /// Month as a 1-based number.
    pub fn month(self) -> (m: u32)
        ensures
            m == ymd_of_days(self@).1,
            1 <= m <= 12,
    {
        self.parts().1
    }

    /// Day of month.
    pub fn day(self) -> (d: u32)
        ensures
            d == ymd_of_days(self@).2,
            1 <= d <= 31,
    {
        proof {
            lemma_ymd_small(self@);
        }
        self.parts().2
    }

    /// Month as a [`Month`] value.
    pub fn month_enum(self) -> (m: Month)
        ensures
            month_num(m) == ymd_of_days(self@).1,
    {
        let n = self.month();
        match Month::from_u32(n) {
            Some(m) => m,
            None => Month::January,
        }
    }

    /// Weekday.
    pub fn weekday(self) -> (w: Weekday)
        ensures
            w == weekday_of_days(self@),
    {
        weekday_from_civil(self.0 as i64)
    }

    /// 1-based day of year.
    pub fn day_of_year(self) -> (n: u32)
        ensures
            n == self@ - year_start(ymd_of_days(self@).0) + 1,
    {
        let (y, m, d) = self.parts();
        day_of_year(y, m, d)
    }

    /// Number of days in the current month.
    pub fn days_in_month(self) -> (n: u32)
        ensures
            n == month_len(ymd_of_days(self@).0, ymd_of_days(self@).1),
    {
        let (y, m, _) = self.parts();
        days_in_month(y, m)
    }

    /// Number of days in the current year.
    pub fn days_in_year(self) -> (n: u32)
        ensures
            n == year_len(ymd_of_days(self@).0),
    {
        days_in_year(self.year())
    }

    /// Whether the current year is a leap year.
    pub fn is_leap_year(self) -> (b: bool)
        ensures
            b == is_leap(ymd_of_days(self@).0),
    {
        is_leap_year(self.year())
    }

    /// ISO 8601 week date `(iso_year, week)`.
    pub fn iso_week(self) -> (w: IsoWeek)
        ensures
            w@ == iso_week_of_days(self@),
            1 <= w@.1 <= 53,
    {
        let (y, m, d) = self.parts();
        proof {
            lemma_civil_window(self@);
        }
        let (iy, wk) = iso_week_from_civil(y, m, d);
        IsoWeek::new(iy, wk)
    }

    /// 1-based day-of-year (chrono's `Datelike::ordinal`).
    pub fn ordinal(self) -> (n: u32)
        ensures
            n == self@ - year_start(ymd_of_days(self@).0) + 1,
    {
        self.day_of_year()
    }

    /// Days since the Common Era epoch `0001-01-01` (chrono's
    /// `Datelike::num_days_from_ce`).
    pub fn num_days_from_ce(self) -> (n: i64)
        ensures
            n == self@ + DAYS_0001_TO_1970,
    {
        self.0 as i64 + DAYS_0001_TO_1970
    }

    /// Replace the year, keeping month and day (fails for e.g. Feb 29 in a
    /// non-leap year).
    pub fn with_year(self, year: i32) -> (r: Result<Date, Error>)
        ensures
            date_matches(r, ymd_outcome(year as int, ymd_of_days(self@).1, ymd_of_days(self@).2)),
    {
        let (_, m, d) = self.parts();
        Date::from_ymd(year, m, d)
    }

    /// Replace the month, keeping year and day.
    pub fn with_month(self, month: u32) -> (r: Result<Date, Error>)
        ensures
            date_matches(r, ymd_outcome(ymd_of_days(self@).0, month as int, ymd_of_days(self@).2)),
    {
        let (y, _, d) = self.parts();
        Date::from_ymd(y, month, d)
    }

    /// Replace the day, keeping year and month.
    pub fn with_day(self, day: u32) -> (r: Result<Date, Error>)
        ensures
            date_matches(r, ymd_outcome(ymd_of_days(self@).0, ymd_of_days(self@).1, day as int)),
    {
        let (y, m, _) = self.parts();
        Date::from_ymd(y, m, day)
    }

    /// Checked day offset; fails only when the result leaves the `i32`
    /// range.
    pub fn checked_add_days(self, days: Days) -> (r: Result<Date, Error>)
        ensures
            date_matches(r, days_outcome(self@ + days.0)),
    {
        let sum = self.0 as i128 + days.get() as i128;
        if sum < i32::MIN as i128 || sum > i32::MAX as i128 {
            return Err(Error::out_of_range("date"));
        }
        Ok(Date(sum as i32))
    }

    /// Checked day offset in the negative direction.
    pub fn checked_sub_days(self, days: Days) -> (r: Result<Date, Error>)
        ensures
            date_matches(r, days_outcome(self@ - days.0)),
    {
        let sum = self.0 as i128 - days.get() as i128;
        if sum < i32::MIN as i128 || sum > i32::MAX as i128 {
            return Err(Error::out_of_range("date"));
        }
        Ok(Date(sum as i32))
    }

    /// Saturating day offset.
    pub fn saturating_add_days(self, days: i64) -> (d: Date)
        ensures
            d@ == if self@ + days < i32::MIN {
                i32::MIN as int
            } else if self@ + days > i32::MAX {
                i32::MAX as int
            } else {
                self@ + days
            },
    {
        let sum = self.0 as i128 + days as i128;
        if sum < i32::MIN as i128 {
            Date(i32::MIN)
        } else if sum > i32::MAX as i128 {
            Date(i32::MAX)
        } else {
            Date(sum as i32)
        }
    }

    /// Signed calendar-month stepping used by every public month method.
    fn checked_add_signed_months(self, months: i64) -> (r: Result<Date, Error>)
        ensures
            months_matches(r, add_months_outcome(self@, months as int)),
    {
        let (y, m, d) = self.parts();
        let total = y as i128 * 12 + (m as i128 - 1) + months as i128;
        let ny = floor_div_ns(total, 12);
        let nm = floor_rem_ns(total, 12) + 1;
        if ny < i32::MIN as i128 || ny > i32::MAX as i128 {
            return Err(Error::overflow());
        }
        let dim = days_in_month(ny as i32, nm as u32);
        let nd = if d <= dim {
            d
        } else {
            dim
        };
        Date::from_ymd(ny as i32, nm as u32, nd)
    }

    /// Calendar-aware month stepping; the day clamps to the target month's
    /// length (`2023-01-31` + 1 month = `2023-02-28`).
    pub fn checked_add_months(self, months: Months) -> (r: Result<Date, Error>)
        ensures
            months_matches(r, add_months_outcome(self@, months.0 as int)),
    {
        self.checked_add_signed_months(months.get() as i64)
    }

    /// Calendar-aware month stepping in the negative direction.
    pub fn checked_sub_months(self, months: Months) -> (r: Result<Date, Error>)
        ensures
            months_matches(r, add_months_outcome(self@, -(months.0 as int))),
    {
        self.checked_add_signed_months(-(months.get() as i64))
    }

    /// Calendar-aware year stepping (see [`Date::checked_add_months`]).
    pub fn checked_add_years(self, years: i32) -> (r: Result<Date, Error>)
        ensures
            months_matches(r, add_months_outcome(self@, years * 12)),
    {
        self.checked_add_signed_months(years as i64 * 12)
    }

    /// Saturating calendar-aware month stepping: [`Date::max_date`] when the
    /// step fails.
    pub fn saturating_add_months(self, months: Months) -> (d: Date)
        ensures
            match add_months_outcome(self@, months.0 as int) {
                Some(Ok(z)) => d@ == z,
                _ => d@ == i32::MAX,
            },
    {
        match self.checked_add_months(months) {
            Ok(d) => d,
            Err(_) => Date(i32::MAX),
        }
    }

    /// Add a signed duration (whole-day precision, floor semantics).
    pub fn checked_add_signed(self, rhs: Duration) -> (r: Result<Date, Error>)
        ensures
            !fits_i64(rhs@ / (NS_PER_DAY as int)) ==> is_out_of_range(r, "duration"),
            fits_i64(rhs@ / (NS_PER_DAY as int)) ==> date_matches(
                r,
                days_outcome(self@ + rhs@ / (NS_PER_DAY as int)),
            ),
    {
        let days = crate::calendar::floor_div_ns(rhs.as_nanos(), NS_PER_DAY);
        if days < i64::MIN as i128 || days > i64::MAX as i128 {
            return Err(Error::out_of_range("duration"));
        }
        let days = days as i64;
        if days >= 0 {
            self.checked_add_days(Days::new(days as u64))
        } else {
            let mag: u64 = if days == i64::MIN {
                (i64::MAX as u64) + 1
            } else {
                (-days) as u64
            };
            self.checked_sub_days(Days::new(mag))
        }
    }

    /// Subtract a signed duration (whole-day precision, floor semantics).
    pub fn checked_sub_signed(self, rhs: Duration) -> (r: Result<Date, Error>)
        ensures
            rhs@ == i128::MIN ==> is_overflow(r),
            rhs@ != i128::MIN && !fits_i64((-rhs@) / (NS_PER_DAY as int)) ==> is_out_of_range(
                r,
                "duration",
            ),
            rhs@ != i128::MIN && fits_i64((-rhs@) / (NS_PER_DAY as int)) ==> date_matches(
                r,
                days_outcome(self@ + (-rhs@) / (NS_PER_DAY as int)),
            ),
    {
        let neg = match rhs.checked_neg() {
            Ok(n) => n,
            Err(e) => {
                return Err(e);
            },
        };
        self.checked_add_signed(neg)
    }

    /// The signed duration between `earlier` and `self`, in whole days.
    pub fn signed_duration_since(self, earlier: Date) -> (d: Duration)
        ensures
            d@ == (self@ - earlier@) * NS_PER_DAY,
    {
        Duration::from_days(self.0 as i64 - earlier.0 as i64)
    }

    /// The next calendar day; fails at [`Date::max_date`].
    pub fn checked_succ(self) -> (r: Result<Date, Error>)
        ensures
            date_matches(r, days_outcome(self@ + 1)),
    {
        self.checked_add_days(Days::new(1))
    }

    /// The previous calendar day; fails at [`Date::min_date`].
    pub fn checked_pred(self) -> (r: Result<Date, Error>)
        ensures
            date_matches(r, days_outcome(self@ - 1)),
    {
        self.checked_sub_days(Days::new(1))
    }

    /// The next date with `weekday`, strictly after `self`.
    pub fn next_occurrence(self, weekday: Weekday) -> (r: Result<Date, Error>)
        ensures
            date_matches(
                r,
                days_outcome(
                    self@ + gap_after(weekday_num(weekday_of_days(self@)), weekday_num(weekday)),
                ),
            ),
    {
        let cur = self.weekday().as_u8() as i32;
        let target = weekday.as_u8() as i32;
        let mut diff = target - cur;
        if diff <= 0 {
            diff += 7;
        }
        self.checked_add_days(Days::new(diff as u64))
    }

    /// The previous date with `weekday`, strictly before `self`.
    pub fn previous_occurrence(self, weekday: Weekday) -> (r: Result<Date, Error>)
        ensures
            date_matches(
                r,
                days_outcome(
                    self@ - gap_after(weekday_num(weekday), weekday_num(weekday_of_days(self@))),
                ),
            ),
    {
        let cur = self.weekday().as_u8() as i32;
        let target = weekday.as_u8() as i32;
        let mut diff = cur - target;
        if diff <= 0 {
            diff += 7;
        }
        self.checked_sub_days(Days::new(diff as u64))
    }

    /// The next date with `weekday`, including `self` if it already matches.
    pub fn next_or_same(self, weekday: Weekday) -> (r: Result<Date, Error>)
        ensures
            date_matches(
                r,
                days_outcome(
                    self@ + (weekday_num(weekday) - weekday_num(weekday_of_days(self@)) + 7) % 7,
                ),
            ),
    {
        let cur = self.weekday().as_u8() as i32;
        let target = weekday.as_u8() as i32;
        let diff = (target - cur + 7) % 7;
        self.checked_add_days(Days::new(diff as u64))
    }

    /// The previous date with `weekday`, including `self` if it already
    /// matches.
    pub fn previous_or_same(self, weekday: Weekday) -> (r: Result<Date, Error>)
        ensures
            date_matches(
                r,
                days_outcome(
                    self@ - (weekday_num(weekday_of_days(self@)) - weekday_num(weekday) + 7) % 7,
                ),
            ),
    {
        let cur = self.weekday().as_u8() as i32;
        let target = weekday.as_u8() as i32;
        let diff = (cur - target + 7) % 7;
        self.checked_sub_days(Days::new(diff as u64))
    }

    /// The first day of the current month; in the month of
    /// [`Date::min_date`], whose first day lies before the representable
    /// range, that is [`Date::min_date`] itself.
    pub fn first_day_of_month(self) -> (d: Date)
        ensures
            d@ == clamp_day(days_from_ymd(ymd_of_days(self@).0, ymd_of_days(self@).1, 1)),
            d@ <= self@,
            ymd_of_days(d@).0 == ymd_of_days(self@).0,
            ymd_of_days(d@).1 == ymd_of_days(self@).1,
    {
        let (y, m, _) = self.parts();
        let z = days_from_civil(y, m, 1);
        proof {
            lemma_month_span(self@);
        }
        if z < i32::MIN as i64 {
            Date(i32::MIN)
        } else {
            Date(z as i32)
        }
    }

    /// The last day of the current month; in the month of
    /// [`Date::max_date`], whose last day lies after the representable range,
    /// that is [`Date::max_date`] itself.
    pub fn last_day_of_month(self) -> (d: Date)
        ensures
            d@ == clamp_day(
                days_from_ymd(
                    ymd_of_days(self@).0,
                    ymd_of_days(self@).1,
                    month_len(ymd_of_days(self@).0, ymd_of_days(self@).1),
                ),
            ),
            d@ >= self@,
            ymd_of_days(d@).0 == ymd_of_days(self@).0,
            ymd_of_days(d@).1 == ymd_of_days(self@).1,
    {
        let (y, m, _) = self.parts();
        let z = days_from_civil(y, m, days_in_month(y, m));
        proof {
            lemma_month_span(self@);
        }
        if z > i32::MAX as i64 {
            Date(i32::MAX)
        } else {
            Date(z as i32)
        }
    }
}

impl Date {
    /// Strict ISO 8601 rendering (`YYYY-MM-DD`; years outside `0..=9999`
    /// are expanded and signed when negative).
    pub fn to_iso(self) -> (s: String)
        ensures
            encode_utf8(s@) == date_iso_text(self@),
    {
        let (y, m, d) = self.parts();
        let mut out: Vec<u8> = Vec::new();
        format_date_into(&mut out, y, m, d);
        proof {
            crate::rendering::lemma_date_text_ascii(self@);
            crate::rendering::lemma_ascii_valid(out@);
        }
        crate::text::string_from_utf8(out.as_slice())
    }

    /// Parse a strict ISO 8601 calendar date (`YYYY-MM-DD`).
    pub fn from_iso(s: &str) -> (r: Result<Date, Error>)
        ensures
            match scan_iso(s.spec_bytes(), false, false) {
                Ok(v) => r is Ok && r->Ok_0@ == v.0,
                Err(f) => fails(r, f),
            },
    {
        parse_date_iso(s)
    }
}

impl Date {
    /// strftime-style rendering; unknown directives are an error.
    pub fn format(self, fmt: &str) -> (r: Result<String, Error>)
        ensures
            crate::strftime::text_matches(
                r,
                crate::strftime::fmt_text(
                    fmt.spec_bytes(),
                    0,
                    crate::strftime::civil_parts((self@, 0), None, None, None),
                ),
            ),
    {
        let dt = crate::datetime::CivilDateTime::new(self, crate::time::TimeOfDay::midnight());
        proof {
            crate::rendering::law_format_output_is_text(fmt);
        }
        crate::strftime::text_of(crate::strftime::format_bytes(fmt, dt, None, None, None))
    }

    /// Parse with a strftime-style format string.
    pub fn parse_from_str(s: &str, fmt: &str) -> (r: Result<Date, Error>)
        ensures
            match crate::strftime::parsed_then(
                fmt.spec_bytes(),
                s.spec_bytes(),
                |pp| crate::strftime::date_outcome(pp),
            ) {
                Ok(z) => r is Ok && r->Ok_0@ == z,
                Err(f) => fails(r, f),
            },
    {
        match crate::strftime::parse_parts(fmt.as_bytes(), s.as_bytes()) {
            Ok(pp) => pp.to_date(),
            Err(e) => Err(e),
        }
    }
}

impl Date {
    /// The ISO 8601 rendering (what `Display` writes).
    pub fn to_string(self) -> (s: String)
        ensures
            encode_utf8(s@) == date_iso_text(self@),
    {
        self.to_iso()
    }

    /// ISO 8601 rendering into a caller-owned buffer; the number of bytes
    /// written, or a buffer overflow (buffer untouched) when it does not fit.
    pub fn write_iso(self, out: &mut [u8]) -> (r: Result<usize, Error>)
        ensures
            buffer_outcome(r, old(out)@, final(out)@, date_iso_text(self@)),
    {
        let (y, m, d) = self.parts();
        let mut bytes: Vec<u8> = Vec::new();
        format_date_into(&mut bytes, y, m, d);
        copy_out(out, &bytes)
    }
}

impl core::str::FromStr for Date {
    type Err = Error;

    fn from_str(s: &str) -> (r: Result<Date, Error>)
        ensures
            match scan_iso(s.spec_bytes(), false, false) {
                Ok(v) => r is Ok && r->Ok_0@ == v.0,
                Err(f) => fails(r, f),
            },
    {
        Date::from_iso(s)
    }
}

} // verus!
