//! Civil date-time: [`CivilDateTime`].
//!
//! A zone-less calendar timestamp: a [`Date`] plus a [`TimeOfDay`], the
//! "wall clock" reading before any offset is applied. Arithmetic projects
//! onto the `i128` nanosecond timeline (days times nanoseconds-per-day plus
//! nanoseconds-of-day), so carries across midnight and years are a
//! non-event.

use vstd::prelude::*;
use vstd::utf8::encode_utf8;
use vstd::string::StringSliceAdditionalSpecFns;
use crate::format::{
    civil_text, copy_out, format_date_into, format_time_into, parse_civil_iso,
    scan_iso, FractionDigits,
};
use crate::scan::fails;

use crate::calendar::{
    iso_week_of_days, month_num, ns_divmod_day, weekday_of_days, year_start, ymd_of_days, Month,
    Weekday, NS_PER_DAY,
};
use crate::date::{add_months_outcome, date_matches, days_outcome, fits_date, ymd_outcome, Date};
use crate::duration::{fits_i128, is_out_of_range, is_overflow, Duration};
use crate::error::{Error, ErrorKind};
use crate::ticks::{civil_ns, civil_of_ns, Ticks};
use crate::time::{hms_error, hms_nanos, TimeOfDay};
use crate::units::{Days, IsoWeek, Months};

verus! {

/// A calendar date and time without a timezone.
#[derive(Clone, Copy, Debug, PartialEq, Eq, PartialOrd, Ord, Hash)]
pub struct CivilDateTime {
    date: Date,
    time: TimeOfDay,
}

impl View for CivilDateTime {
    type V = (int, int);

    /// `(days since 1970-01-01, nanoseconds since midnight)`.
    closed spec fn view(&self) -> (int, int) {
        (self.date@, self.time@)
    }
}

/// A civil reading within the representable range.
pub open spec fn civil_valid(v: (int, int)) -> bool {
    fits_date(v.0) && 0 <= v.1 < NS_PER_DAY
}

/// A civil result agrees with an outcome: the same reading, or an error of
/// the same kind.
pub open spec fn civil_matches(r: Result<CivilDateTime, Error>, o: Result<(int, int), ErrorKind>) -> bool {
    match o {
        Ok(v) => r is Ok && r->Ok_0@ == v,
        Err(k) => r is Err && r->Err_0.spec_kind() == k,
    }
}

/// A civil result built from a date outcome and an unchanged time of day.
pub open spec fn civil_date_matches(
    r: Result<CivilDateTime, Error>,
    o: Result<int, &'static str>,
    t: int,
) -> bool {
    match o {
        Ok(z) => r is Ok && r->Ok_0@ == (z, t),
        Err(c) => is_out_of_range(r, c),
    }
}

/// A civil result of month stepping with an unchanged time of day.
pub open spec fn civil_months_matches(
    r: Result<CivilDateTime, Error>,
    o: Option<Result<int, &'static str>>,
    t: int,
) -> bool {
    match o {
        None => is_overflow(r),
        Some(x) => civil_date_matches(r, x, t),
    }
}

/// The outcome of building a reading from calendar and clock components:
/// the date is validated first, then the time.
pub open spec fn ymd_hms_outcome(y: int, m: int, d: int, h: int, mi: int, s: int, ns: int) -> Result<
    (int, int),
    ErrorKind,
> {
    match ymd_outcome(y, m, d) {
        Err(c) => Err(ErrorKind::OutOfRange(c)),
        Ok(z) => match hms_error(h, mi, s, ns) {
            Some(c) => Err(ErrorKind::OutOfRange(c)),
            None => Ok((z, hms_nanos(h, mi, s, ns))),
        },
    }
}

/// Shifting a reading by a duration on the nanosecond timeline.
pub open spec fn civil_add_outcome(v: (int, int), delta: int) -> Result<(int, int), ErrorKind> {
    let total = civil_ns(v) + delta;
    if !fits_i128(total) {
        Err(ErrorKind::Overflow)
    } else {
        civil_of_ns(total, "date")
    }
}

/// Shifting a reading forward and back by the same duration gives it back.
pub proof fn law_civil_add_inverse(v: (int, int), delta: int)
    requires
        civil_valid(v),
        civil_add_outcome(v, delta) is Ok,
        civil_add_outcome(civil_add_outcome(v, delta)->Ok_0, -delta) is Ok,
    ensures
        civil_add_outcome(civil_add_outcome(v, delta)->Ok_0, -delta) == Ok::<(int, int), ErrorKind>(v),
{
    let w = civil_add_outcome(v, delta)->Ok_0;
    let total = civil_ns(v) + delta;
    vstd::arithmetic::div_mod::lemma_fundamental_div_mod(total, NS_PER_DAY as int);
    assert(civil_ns(w) == total);
    vstd::arithmetic::div_mod::lemma_fundamental_div_mod_converse(
        civil_ns(v),
        NS_PER_DAY as int,
        v.0,
        v.1,
    );
}

impl CivilDateTime {
    /// Build from parts.
    pub fn new(date: Date, time: TimeOfDay) -> (dt: CivilDateTime)
        ensures
            dt@ == (date@, time@),
    {
        CivilDateTime { date, time }
    }

    /// Build from year/month/day/hour/minute/second.
    pub fn from_ymd_hms(year: i32, month: u32, day: u32, hour: u32, minute: u32, second: u32) -> (r:
        Result<CivilDateTime, Error>)
        ensures
            civil_matches(
                r,
                ymd_hms_outcome(
                    year as int,
                    month as int,
                    day as int,
                    hour as int,
                    minute as int,
                    second as int,
                    0,
                ),
            ),
    {
        Self::from_ymd_hms_nano(year, month, day, hour, minute, second, 0)
    }

    /// Build from year/month/day/hour/minute/second/millisecond.
    pub fn from_ymd_hms_milli(
        year: i32,
        month: u32,
        day: u32,
        hour: u32,
        minute: u32,
        second: u32,
        milli: u32,
    ) -> (r: Result<CivilDateTime, Error>)
        ensures
            ymd_outcome(year as int, month as int, day as int) matches Err(c) ==> is_out_of_range(
                r,
                c,
            ),
            ymd_outcome(year as int, month as int, day as int) is Ok && milli * 1_000_000
                > u32::MAX ==> is_overflow(r),
            milli * 1_000_000 <= u32::MAX ==> civil_matches(
                r,
                ymd_hms_outcome(
                    year as int,
                    month as int,
                    day as int,
                    hour as int,
                    minute as int,
                    second as int,
                    milli * 1_000_000,
                ),
            ),
    {
        let date = match Date::from_ymd(year, month, day) {
            Ok(d) => d,
            Err(e) => {
                return Err(e);
            },
        };
        match TimeOfDay::from_hms_milli(hour, minute, second, milli) {
            Ok(t) => Ok(CivilDateTime::new(date, t)),
            Err(e) => Err(e),
        }
    }

    /// Build from year/month/day/hour/minute/second/nanosecond.
    pub fn from_ymd_hms_nano(
        year: i32,
        month: u32,
        day: u32,
        hour: u32,
        minute: u32,
        second: u32,
        nano: u32,
    ) -> (r: Result<CivilDateTime, Error>)
        ensures
            civil_matches(
                r,
                ymd_hms_outcome(
                    year as int,
                    month as int,
                    day as int,
                    hour as int,
                    minute as int,
                    second as int,
                    nano as int,
                ),
            ),
    {
        let date = match Date::from_ymd(year, month, day) {
            Ok(d) => d,
            Err(e) => {
                return Err(e);
            },
        };
        match TimeOfDay::from_hms_nano(hour, minute, second, nano) {
            Ok(t) => Ok(CivilDateTime::new(date, t)),
            Err(e) => Err(e),
        }
    }

    /// The date part.
    pub fn date(self) -> (d: Date)
        ensures
            d@ == self@.0,
    {
        self.date
    }

    /// The time-of-day part.
    pub fn time(self) -> (t: TimeOfDay)
        ensures
            t@ == self@.1,
    {
        self.time
    }

    /// `(date, time)` parts.
    pub fn parts(self) -> (p: (Date, TimeOfDay))
        ensures
            p.0@ == self@.0,
            p.1@ == self@.1,
    {
        (self.date, self.time)
    }

    /// Weekday of the date part.
    pub fn weekday(self) -> (w: Weekday)
        ensures
            w == weekday_of_days(self@.0),
    {
        self.date.weekday()
    }

    /// 1-based day of year of the date part.
    pub fn day_of_year(self) -> (n: u32)
        ensures
            n == self@.0 - year_start(ymd_of_days(self@.0).0) + 1,
    {
        self.date.day_of_year()
    }

    /// ISO 8601 week date of the date part.
    pub fn iso_week(self) -> (w: IsoWeek)
        ensures
            w@ == iso_week_of_days(self@.0),
    {
        self.date.iso_week()
    }

    /// Year.
    pub fn year(self) -> (y: i32)
        ensures
            y == ymd_of_days(self@.0).0,
    {
        self.date.year()
    }

    /// Month (1-based).
    pub fn month(self) -> (m: u32)
        ensures
            m == ymd_of_days(self@.0).1,
    {
        self.date.month()
    }

    /// Month as a [`Month`].
    pub fn month_enum(self) -> (m: Month)
        ensures
            month_num(m) == ymd_of_days(self@.0).1,
    {
        self.date.month_enum()
    }

    /// Day of month.
    pub fn day(self) -> (d: u32)
        ensures
            d == ymd_of_days(self@.0).2,
    {
        self.date.day()
    }

    /// Hour.
    pub fn hour(self) -> (h: u32)
        ensures
            h == self@.1 / 3_600_000_000_000,
    {
        self.time.hour()
    }

    /// Minute.
    pub fn minute(self) -> (m: u32)
        ensures
            m == (self@.1 / 60_000_000_000) % 60,
    {
        self.time.minute()
    }

    /// Second.
    pub fn second(self) -> (s: u32)
        ensures
            s == (self@.1 / 1_000_000_000) % 60,
    {
        self.time.second()
    }

    /// Nanosecond within the second.
    pub fn nanosecond(self) -> (n: u32)
        ensures
            n == self@.1 % 1_000_000_000,
    {
        self.time.nanosecond()
    }

    /// Checked duration addition; carries across every boundary.
    pub fn checked_add(self, delta: Duration) -> (r: Result<CivilDateTime, Error>)
        ensures
            civil_matches(r, civil_add_outcome(self@, delta@)),
    {
        let t = self.time.nanos_since_midnight();
        let day_ns = self.date.days_since_epoch() as i128 * NS_PER_DAY;
        let base = day_ns + t as i128;
        let total = match base.checked_add(delta.as_nanos()) {
            Some(v) => v,
            None => {
                return Err(Error::overflow());
            },
        };
        let (days, rem) = ns_divmod_day(total);
        if days < i64::MIN as i128 || days > i64::MAX as i128 {
            return Err(Error::out_of_range("date"));
        }
        let date = match Date::from_days_checked(days as i64) {
            Ok(d) => d,
            Err(e) => {
                return Err(e);
            },
        };
        let time = match TimeOfDay::from_nanos_since_midnight(rem as u64) {
            Ok(t) => t,
            Err(e) => {
                return Err(e);
            },
        };
        Ok(CivilDateTime { date, time })
    }

    /// Checked duration subtraction.
    pub fn checked_sub(self, delta: Duration) -> (r: Result<CivilDateTime, Error>)
        ensures
            delta@ == i128::MIN ==> is_overflow(r),
            delta@ != i128::MIN ==> civil_matches(r, civil_add_outcome(self@, -delta@)),
    {
        match delta.checked_neg() {
            Ok(n) => self.checked_add(n),
            Err(e) => Err(e),
        }
    }

    /// Alias for [`CivilDateTime::checked_add`] (chrono-compatible name).
    pub fn checked_add_signed(self, rhs: Duration) -> (r: Result<CivilDateTime, Error>)
        ensures
            civil_matches(r, civil_add_outcome(self@, rhs@)),
    {
        self.checked_add(rhs)
    }

    /// Alias for [`CivilDateTime::checked_sub`] (chrono-compatible name).
    pub fn checked_sub_signed(self, rhs: Duration) -> (r: Result<CivilDateTime, Error>)
        ensures
            rhs@ == i128::MIN ==> is_overflow(r),
            rhs@ != i128::MIN ==> civil_matches(r, civil_add_outcome(self@, -rhs@)),
    {
        self.checked_sub(rhs)
    }

    /// The signed duration between `earlier` and `self`.
    pub fn signed_duration_since(self, earlier: CivilDateTime) -> (d: Duration)
        ensures
            d@ == civil_ns(self@) - civil_ns(earlier@),
    {
        let a = self.time.nanos_since_midnight();
        let b = earlier.time.nanos_since_midnight();
        let day_ns = (self.date.days_since_epoch() as i128 - earlier.date.days_since_epoch() as i128)
            * NS_PER_DAY;
        let time_ns = a as i128 - b as i128;
        Duration::from_nanos(day_ns + time_ns)
    }

    /// Checked day offset; the time part is preserved.
    pub fn checked_add_days(self, days: Days) -> (r: Result<CivilDateTime, Error>)
        ensures
            civil_date_matches(r, days_outcome(self@.0 + days.0), self@.1),
    {
        match self.date.checked_add_days(days) {
            Ok(d) => Ok(CivilDateTime::new(d, self.time)),
            Err(e) => Err(e),
        }
    }

    /// Checked day offset in the negative direction.
    pub fn checked_sub_days(self, days: Days) -> (r: Result<CivilDateTime, Error>)
        ensures
            civil_date_matches(r, days_outcome(self@.0 - days.0), self@.1),
    {
        match self.date.checked_sub_days(days) {
            Ok(d) => Ok(CivilDateTime::new(d, self.time)),
            Err(e) => Err(e),
        }
    }

    /// Saturating duration addition: the latest reading when a positive step
    /// fails, the earliest when a negative one does.
    pub fn saturating_add(self, delta: Duration) -> (dt: CivilDateTime)
        ensures
            civil_add_outcome(self@, delta@) is Ok ==> dt@ == civil_add_outcome(self@, delta@)->Ok_0,
            civil_add_outcome(self@, delta@) is Err && delta@ >= 0 ==> dt@ == (
                i32::MAX as int,
                NS_PER_DAY - 1,
            ),
            civil_add_outcome(self@, delta@) is Err && delta@ < 0 ==> dt@ == (i32::MIN as int, 0int),
    {
        match self.checked_add(delta) {
            Ok(dt) => dt,
            Err(_) => {
                if delta.as_nanos() >= 0 {
                    CivilDateTime::new(Date::max_date(), TimeOfDay::max_time())
                } else {
                    CivilDateTime::new(Date::min_date(), TimeOfDay::midnight())
                }
            },
        }
    }

    /// Calendar-aware month stepping; the time part is preserved.
    pub fn checked_add_months(self, months: Months) -> (r: Result<CivilDateTime, Error>)
        ensures
            civil_months_matches(r, add_months_outcome(self@.0, months.0 as int), self@.1),
    {
        match self.date.checked_add_months(months) {
            Ok(d) => Ok(CivilDateTime::new(d, self.time)),
            Err(e) => Err(e),
        }
    }

    /// Calendar-aware month stepping in the negative direction.
    pub fn checked_sub_months(self, months: Months) -> (r: Result<CivilDateTime, Error>)
        ensures
            civil_months_matches(r, add_months_outcome(self@.0, -(months.0 as int)), self@.1),
    {
        match self.date.checked_sub_months(months) {
            Ok(d) => Ok(CivilDateTime::new(d, self.time)),
            Err(e) => Err(e),
        }
    }

    /// Calendar-aware year stepping.
    pub fn checked_add_years(self, years: i32) -> (r: Result<CivilDateTime, Error>)
        ensures
            civil_months_matches(r, add_months_outcome(self@.0, years * 12), self@.1),
    {
        match self.date.checked_add_years(years) {
            Ok(d) => Ok(CivilDateTime::new(d, self.time)),
            Err(e) => Err(e),
        }
    }

    /// Replace the year (fails for e.g. Feb 29 in a non-leap year).
    pub fn with_year(self, year: i32) -> (r: Result<CivilDateTime, Error>)
        ensures
            civil_date_matches(
                r,
                ymd_outcome(year as int, ymd_of_days(self@.0).1, ymd_of_days(self@.0).2),
                self@.1,
            ),
    {
        match self.date.with_year(year) {
            Ok(d) => Ok(CivilDateTime::new(d, self.time)),
            Err(e) => Err(e),
        }
    }

    /// Replace the month.
    pub fn with_month(self, month: u32) -> (r: Result<CivilDateTime, Error>)
        ensures
            civil_date_matches(
                r,
                ymd_outcome(ymd_of_days(self@.0).0, month as int, ymd_of_days(self@.0).2),
                self@.1,
            ),
    {
        match self.date.with_month(month) {
            Ok(d) => Ok(CivilDateTime::new(d, self.time)),
            Err(e) => Err(e),
        }
    }

    /// Replace the day.
    pub fn with_day(self, day: u32) -> (r: Result<CivilDateTime, Error>)
        ensures
            civil_date_matches(
                r,
                ymd_outcome(ymd_of_days(self@.0).0, ymd_of_days(self@.0).1, day as int),
                self@.1,
            ),
    {
        match self.date.with_day(day) {
            Ok(d) => Ok(CivilDateTime::new(d, self.time)),
            Err(e) => Err(e),
        }
    }

    /// Replace the hour.
    pub fn with_hour(self, hour: u32) -> (r: Result<CivilDateTime, Error>)
        ensures
            hour >= 24 ==> is_out_of_range(r, "hour"),
            hour < 24 ==> (r is Ok && r->Ok_0@ == (self@.0, self@.1 % 3_600_000_000_000 + hour
                * 3_600_000_000_000)),
    {
        match self.time.with_hour(hour) {
            Ok(t) => Ok(CivilDateTime::new(self.date, t)),
            Err(e) => Err(e),
        }
    }

    /// Replace the minute.
    pub fn with_minute(self, minute: u32) -> (r: Result<CivilDateTime, Error>)
        ensures
            minute >= 60 ==> is_out_of_range(r, "minute"),
            minute < 60 ==> (r is Ok && r->Ok_0@ == (
                self@.0,
                hms_nanos(
                    self@.1 / 3_600_000_000_000,
                    minute as int,
                    (self@.1 / 1_000_000_000) % 60,
                    self@.1 % 1_000_000_000,
                ),
            )),
    {
        match self.time.with_minute(minute) {
            Ok(t) => Ok(CivilDateTime::new(self.date, t)),
            Err(e) => Err(e),
        }
    }

    /// Replace the second.
    pub fn with_second(self, second: u32) -> (r: Result<CivilDateTime, Error>)
        ensures
            second >= 60 ==> is_out_of_range(r, "second"),
            second < 60 ==> (r is Ok && r->Ok_0@ == (
                self@.0,
                hms_nanos(
                    self@.1 / 3_600_000_000_000,
                    (self@.1 / 60_000_000_000) % 60,
                    second as int,
                    self@.1 % 1_000_000_000,
                ),
            )),
    {
        match self.time.with_second(second) {
            Ok(t) => Ok(CivilDateTime::new(self.date, t)),
            Err(e) => Err(e),
        }
    }

    /// Replace the nanosecond within the second.
    pub fn with_nanosecond(self, nano: u32) -> (r: Result<CivilDateTime, Error>)
        ensures
            nano >= 1_000_000_000 ==> is_out_of_range(r, "nanosecond"),
            nano < 1_000_000_000 ==> (r is Ok && r->Ok_0@ == (
                self@.0,
                self@.1 - self@.1 % 1_000_000_000 + nano,
            )),
    {
        match self.time.with_nanosecond(nano) {
            Ok(t) => Ok(CivilDateTime::new(self.date, t)),
            Err(e) => Err(e),
        }
    }

    /// Build from a Unix timestamp.
    pub fn from_timestamp(seconds: i64, nanos: u32) -> (r: Result<CivilDateTime, Error>)
        ensures
            nanos >= 1_000_000_000 ==> is_out_of_range(r, "nanosecond"),
            nanos < 1_000_000_000 ==> civil_matches(
                r,
                civil_of_ns(seconds * 1_000_000_000 + nanos, "instant"),
            ),
    {
        match Ticks::from_timestamp(seconds, nanos) {
            Ok(t) => t.to_civil_utc(),
            Err(e) => Err(e),
        }
    }

    /// Build from a Unix millisecond timestamp.
    pub fn from_timestamp_millis(millis: i64) -> (r: Result<CivilDateTime, Error>)
        ensures
            civil_matches(r, civil_of_ns(millis * 1_000_000, "instant")),
    {
        match Ticks::from_timestamp_millis(millis) {
            Ok(t) => t.to_civil_utc(),
            Err(e) => Err(e),
        }
    }

    /// Build from a Unix microsecond timestamp.
    pub fn from_timestamp_micros(micros: i64) -> (r: Result<CivilDateTime, Error>)
        ensures
            civil_matches(r, civil_of_ns(micros * 1_000, "instant")),
    {
        match Ticks::from_timestamp_micros(micros) {
            Ok(t) => t.to_civil_utc(),
            Err(e) => Err(e),
        }
    }

    /// Interpret this civil reading as UTC and project onto the timeline
    /// (always succeeds).
    pub fn to_ticks_utc(self) -> (r: Result<Ticks, Error>)
        ensures
            r is Ok && r->Ok_0@ == civil_ns(self@),
    {
        let t = self.time.nanos_since_midnight();
        let ns = self.date.days_since_epoch() as i128 * NS_PER_DAY + t as i128;
        Ok(Ticks::from_unix_nanos(ns))
    }
}

impl CivilDateTime {
    /// The ISO rendering bytes at the requested precision.
    pub(crate) fn iso_bytes(self, fraction: FractionDigits) -> (b: Vec<u8>)
        ensures
            b@ == civil_text(self@, fraction),
    {
        let mut out: Vec<u8> = Vec::new();
        let (y, m, d) = self.date.parts();
        format_date_into(&mut out, y, m, d);
        out.push(84u8);
        let (h, mi, s, ns) = self.time.parts();
        format_time_into(&mut out, h, mi, s, ns, fraction);
        proof {
            assert(out@ =~= civil_text(self@, fraction));
        }
        out
    }

    /// Strict ISO 8601 rendering (`YYYY-MM-DDTHH:MM:SS[.fffffffff]`).
    pub fn to_iso(self) -> (s: String)
        ensures
            encode_utf8(s@) == civil_text(self@, FractionDigits::Auto),
    {
        let out = self.iso_bytes(FractionDigits::Auto);
        proof {
            crate::rendering::lemma_civil_text_ascii(self@, 0, FractionDigits::Auto);
            crate::rendering::lemma_ascii_valid(out@);
        }
        crate::text::string_from_utf8(out.as_slice())
    }

    /// Strict ISO 8601 rendering into a caller-owned buffer; the number of
    /// bytes written, or a buffer overflow (buffer untouched).
    pub fn write_iso(self, out: &mut [u8]) -> (r: Result<usize, Error>)
        ensures
            civil_text(self@, FractionDigits::Auto).len() <= old(out)@.len() ==> r == Ok::<
                usize,
                Error,
            >(civil_text(self@, FractionDigits::Auto).len() as usize) && final(out)@ == civil_text(
                self@,
                FractionDigits::Auto,
            ) + old(out)@.subrange(
                civil_text(self@, FractionDigits::Auto).len() as int,
                old(out)@.len() as int,
            ),
            civil_text(self@, FractionDigits::Auto).len() > old(out)@.len() ==> r is Err && final(out)@ == old(out)@,
    {
        copy_out(out, &self.iso_bytes(FractionDigits::Auto))
    }

    /// Parse a strict ISO 8601 local date-time (no zone designator).
    pub fn from_iso(s: &str) -> (r: Result<CivilDateTime, Error>)
        ensures
            match scan_iso(s.spec_bytes(), true, false) {
                Ok(v) => r is Ok && v.1 is Some && r->Ok_0@ == (v.0, v.1->Some_0),
                Err(f) => fails(r, f),
            },
    {
        match parse_civil_iso(s) {
            Ok((d, t)) => Ok(CivilDateTime::new(d, t)),
            Err(e) => Err(e),
        }
    }
}

impl CivilDateTime {
    /// strftime-style rendering.
    pub fn format(self, fmt: &str) -> (r: Result<String, Error>)
        ensures
            crate::strftime::text_matches(
                r,
                crate::strftime::fmt_text(
                    fmt.spec_bytes(),
                    0,
                    crate::strftime::civil_parts(self@, None, None, None),
                ),
            ),
    {
        proof {
            crate::rendering::law_format_output_is_text(fmt);
        }
        crate::strftime::text_of(crate::strftime::format_bytes(fmt, self, None, None, None))
    }

    /// strftime-style rendering into a caller-owned buffer.
    pub fn write_format(self, fmt: &str, out: &mut [u8]) -> (r: Result<usize, Error>)
        ensures
            crate::strftime::written(
                r,
                old(out)@,
                final(out)@,
                crate::strftime::fmt_text(
                    fmt.spec_bytes(),
                    0,
                    crate::strftime::civil_parts(self@, None, None, None),
                ),
            ),
    {
        crate::strftime::write_out(crate::strftime::format_bytes(fmt, self, None, None, None), out)
    }

    /// Parse with a strftime-style format string.
    pub fn parse_from_str(s: &str, fmt: &str) -> (r: Result<CivilDateTime, Error>)
        ensures
            match crate::strftime::parsed_then(
                fmt.spec_bytes(),
                s.spec_bytes(),
                |pp| crate::strftime::civil_outcome(pp),
            ) {
                Ok(v) => r is Ok && r->Ok_0@ == v,
                Err(f) => fails(r, f),
            },
    {
        match crate::strftime::parse_parts(fmt.as_bytes(), s.as_bytes()) {
            Ok(pp) => pp.to_civil(),
            Err(e) => Err(e),
        }
    }
}

impl Date {
    /// Attach a time of day.
    pub fn and_time(self, time: TimeOfDay) -> (dt: CivilDateTime)
        ensures
            dt@ == (self@, time@),
    {
        CivilDateTime::new(self, time)
    }

    /// Attach an hour/minute/second.
    pub fn and_hms(self, hour: u32, minute: u32, second: u32) -> (r: Result<CivilDateTime, Error>)
        ensures
            hms_error(hour as int, minute as int, second as int, 0) matches Some(c) ==> is_out_of_range(r, c),
            hms_error(hour as int, minute as int, second as int, 0) is None ==> (r is Ok && r->Ok_0@ == (
                self@,
                hms_nanos(hour as int, minute as int, second as int, 0),
            )),
    {
        match TimeOfDay::from_hms(hour, minute, second) {
            Ok(t) => Ok(CivilDateTime::new(self, t)),
            Err(e) => Err(e),
        }
    }

    /// Attach an hour/minute/second/millisecond.
    pub fn and_hms_milli(self, hour: u32, minute: u32, second: u32, milli: u32) -> (r: Result<
        CivilDateTime,
        Error,
    >)
        ensures
            milli * 1_000_000 > u32::MAX ==> is_overflow(r),
            milli * 1_000_000 <= u32::MAX ==> {
                &&& hms_error(hour as int, minute as int, second as int, milli * 1_000_000) matches Some(c) ==> is_out_of_range(r, c)
                &&& hms_error(hour as int, minute as int, second as int, milli * 1_000_000) is None ==> (r is Ok
                    && r->Ok_0@ == (self@, hms_nanos(hour as int, minute as int, second as int, milli * 1_000_000)))
            },
    {
        match TimeOfDay::from_hms_milli(hour, minute, second, milli) {
            Ok(t) => Ok(CivilDateTime::new(self, t)),
            Err(e) => Err(e),
        }
    }

    /// Attach an hour/minute/second/microsecond.
    pub fn and_hms_micro(self, hour: u32, minute: u32, second: u32, micro: u32) -> (r: Result<
        CivilDateTime,
        Error,
    >)
        ensures
            micro * 1_000 > u32::MAX ==> is_overflow(r),
            micro * 1_000 <= u32::MAX ==> {
                &&& hms_error(hour as int, minute as int, second as int, micro * 1_000) matches Some(c) ==> is_out_of_range(r, c)
                &&& hms_error(hour as int, minute as int, second as int, micro * 1_000) is None ==> (r is Ok
                    && r->Ok_0@ == (self@, hms_nanos(hour as int, minute as int, second as int, micro * 1_000)))
            },
    {
        match TimeOfDay::from_hms_micro(hour, minute, second, micro) {
            Ok(t) => Ok(CivilDateTime::new(self, t)),
            Err(e) => Err(e),
        }
    }

    /// Attach an hour/minute/second/nanosecond.
    pub fn and_hms_nano(self, hour: u32, minute: u32, second: u32, nano: u32) -> (r: Result<
        CivilDateTime,
        Error,
    >)
        ensures
            hms_error(hour as int, minute as int, second as int, nano as int) matches Some(c) ==> is_out_of_range(r, c),
            hms_error(hour as int, minute as int, second as int, nano as int) is None ==> (r is Ok
                && r->Ok_0@ == (self@, hms_nanos(hour as int, minute as int, second as int, nano as int))),
    {
        match TimeOfDay::from_hms_nano(hour, minute, second, nano) {
            Ok(t) => Ok(CivilDateTime::new(self, t)),
            Err(e) => Err(e),
        }
    }
}

impl CivilDateTime {
    /// The ISO 8601 rendering (what `Display` writes).
    pub fn to_string(self) -> (s: String)
        ensures
            encode_utf8(s@) == civil_text(self@, FractionDigits::Auto),
    {
        self.to_iso()
    }
}

impl core::str::FromStr for CivilDateTime {
    type Err = Error;

    fn from_str(s: &str) -> (r: Result<CivilDateTime, Error>)
        ensures
            match scan_iso(s.spec_bytes(), true, false) {
                Ok(v) => r is Ok && v.1 is Some && r->Ok_0@ == (v.0, v.1->Some_0),
                Err(f) => fails(r, f),
            },
    {
        CivilDateTime::from_iso(s)
    }
}

impl CivilDateTime {
    /// The reading as one count: `days * NS_PER_DAY + nanos-of-day` (the
    /// compact binary shape).
    pub fn to_packed(self) -> (n: i128)
        ensures
            n == civil_ns(self@),
    {
        let t = self.time.nanos_since_midnight();
        self.date.days_since_epoch() as i128 * NS_PER_DAY + t as i128
    }

    /// The reading a packed count names; a day count beyond `i64` is out
    /// of range as a civil date-time, one beyond the date range as a date.
    pub fn from_packed(packed: i128) -> (r: Result<CivilDateTime, Error>)
        ensures
            civil_matches(r, civil_of_ns(packed as int, "civil date-time")),
    {
        crate::ticks::civil_reading(packed, "civil date-time")
    }
}

} // verus!
