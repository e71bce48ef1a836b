//! Civil time of day: [`TimeOfDay`].
//!
//! Nanoseconds since midnight, stored as a validated `u64` in
//! `0..86_400_000_000_000`. All accessors are arithmetic on that single
//! counter; there is no hour/minute/second state to desynchronize.

use vstd::prelude::*;
use vstd::utf8::encode_utf8;
use vstd::string::StringSliceAdditionalSpecFns;
use crate::format::{
    format_time_into, parse_time_iso, time_iso_outcome, time_iso_text,
    FractionDigits,
};
use crate::scan::fails;

use crate::calendar::NS_PER_DAY;
use crate::duration::{fits_i128, is_out_of_range, is_overflow, Duration};
use crate::error::Error;

verus! {

/// Nanoseconds in an hour, minute and second, as `u64`.
pub open spec fn hms_nanos(h: int, mi: int, s: int, ns: int) -> int {
    h * 3_600_000_000_000 + mi * 60_000_000_000 + s * 1_000_000_000 + ns
}

/// Which component of an `(hour, minute, second, nanosecond)` reading is
/// out of range first, if any.
pub open spec fn hms_error(h: int, mi: int, s: int, ns: int) -> Option<&'static str> {
    if h >= 24 {
        Some("hour")
    } else if mi >= 60 {
        Some("minute")
    } else if s >= 60 {
        Some("second")
    } else if ns >= 1_000_000_000 {
        Some("nanosecond")
    } else {
        None
    }
}

/// A time of day, nanosecond precision.
#[derive(Clone, Copy, Debug, PartialEq, Eq, PartialOrd, Ord, Hash)]
pub struct TimeOfDay(u64);

impl View for TimeOfDay {
    type V = int;

    /// Nanoseconds since midnight.
    closed spec fn view(&self) -> int {
        self.0 as int
    }
}

impl TimeOfDay {
    #[verifier::type_invariant]
    spec fn within_day(self) -> bool {
        self.0 < NS_PER_DAY
    }

    /// 00:00:00.000000000.
    pub fn midnight() -> (t: TimeOfDay)
        ensures
            t@ == 0,
    {
        TimeOfDay(0)
    }

    /// 12:00:00.000000000.
    pub fn noon() -> (t: TimeOfDay)
        ensures
            t@ == NS_PER_DAY / 2,
    {
        TimeOfDay(43_200_000_000_000)
    }

    /// 23:59:59.999999999.
    pub fn max_time() -> (t: TimeOfDay)
        ensures
            t@ == NS_PER_DAY - 1,
    {
        TimeOfDay(86_399_999_999_999)
    }

    /// Build from nanoseconds since midnight; validates the day bound.
    pub fn from_nanos_since_midnight(nanos: u64) -> (r: Result<TimeOfDay, Error>)
        ensures
            nanos < NS_PER_DAY ==> (r is Ok && r->Ok_0@ == nanos),
            nanos >= NS_PER_DAY ==> is_out_of_range(r, "time-of-day"),
    {
        if nanos >= 86_400_000_000_000 {
            return Err(Error::out_of_range("time-of-day"));
        }
        Ok(TimeOfDay(nanos))
    }

    /// Build from hour/minute/second.
    pub fn from_hms(hour: u32, minute: u32, second: u32) -> (r: Result<TimeOfDay, Error>)
        ensures
            hms_error(hour as int, minute as int, second as int, 0) matches Some(c) ==> is_out_of_range(r, c),
            hms_error(hour as int, minute as int, second as int, 0) is None ==> (r is Ok
                && r->Ok_0@ == hms_nanos(hour as int, minute as int, second as int, 0)),
    {
        Self::from_hms_nano(hour, minute, second, 0)
    }

    /// Build from hour/minute/second/millisecond.
    pub fn from_hms_milli(hour: u32, minute: u32, second: u32, milli: u32) -> (r: Result<
        TimeOfDay,
        Error,
    >)
        ensures
            milli * 1_000_000 > u32::MAX ==> is_overflow(r),
            milli * 1_000_000 <= u32::MAX ==> {
                &&& hms_error(hour as int, minute as int, second as int, milli * 1_000_000) matches Some(c) ==> is_out_of_range(r, c)
                &&& hms_error(hour as int, minute as int, second as int, milli * 1_000_000) is None ==> (r is Ok
                    && r->Ok_0@ == hms_nanos(hour as int, minute as int, second as int, milli * 1_000_000))
            },
    {
        match milli.checked_mul(1_000_000) {
            Some(nano) => Self::from_hms_nano(hour, minute, second, nano),
            None => Err(Error::overflow()),
        }
    }

    /// Build from hour/minute/second/microsecond.
    pub fn from_hms_micro(hour: u32, minute: u32, second: u32, micro: u32) -> (r: Result<
        TimeOfDay,
        Error,
    >)
        ensures
            micro * 1_000 > u32::MAX ==> is_overflow(r),
            micro * 1_000 <= u32::MAX ==> {
                &&& hms_error(hour as int, minute as int, second as int, micro * 1_000) matches Some(c) ==> is_out_of_range(r, c)
                &&& hms_error(hour as int, minute as int, second as int, micro * 1_000) is None ==> (r is Ok
                    && r->Ok_0@ == hms_nanos(hour as int, minute as int, second as int, micro * 1_000))
            },
    {
        match micro.checked_mul(1_000) {
            Some(nano) => Self::from_hms_nano(hour, minute, second, nano),
            None => Err(Error::overflow()),
        }
    }

    /// Build from hour/minute/second/nanosecond.
    pub fn from_hms_nano(hour: u32, minute: u32, second: u32, nano: u32) -> (r: Result<
        TimeOfDay,
        Error,
    >)
        ensures
            hms_error(hour as int, minute as int, second as int, nano as int) matches Some(c) ==> is_out_of_range(r, c),
            hms_error(hour as int, minute as int, second as int, nano as int) is None ==> (r is Ok
                && r->Ok_0@ == hms_nanos(hour as int, minute as int, second as int, nano as int)),
    {
        if hour >= 24 {
            return Err(Error::out_of_range("hour"));
        }
        if minute >= 60 {
            return Err(Error::out_of_range("minute"));
        }
        if second >= 60 {
            return Err(Error::out_of_range("second"));
        }
        if nano >= 1_000_000_000 {
            return Err(Error::out_of_range("nanosecond"));
        }
        let ns = hour as u64 * 3_600_000_000_000 + minute as u64 * 60_000_000_000 + second as u64
            * 1_000_000_000 + nano as u64;
        Ok(TimeOfDay(ns))
    }

    /// Nanoseconds since midnight.
    pub fn nanos_since_midnight(self) -> (n: u64)
        ensures
            n == self@,
            n < NS_PER_DAY,
    {
        proof {
            use_type_invariant(&self);
        }
        self.0
    }

    /// Whole seconds since midnight (chrono's
    /// `Timelike::num_seconds_from_midnight`).
    pub fn num_seconds_from_midnight(self) -> (n: u32)
        ensures
            n == self@ / 1_000_000_000,
            n < 86_400,
    {
        proof {
            use_type_invariant(&self);
        }
        (self.0 / 1_000_000_000) as u32
    }

    /// Hour (0..24).
    pub fn hour(self) -> (h: u32)
        ensures
            h == self@ / 3_600_000_000_000,
            h < 24,
    {
        proof {
            use_type_invariant(&self);
        }
        (self.0 / 3_600_000_000_000) as u32
    }

    /// Minute (0..60).
    pub fn minute(self) -> (m: u32)
        ensures
            m == (self@ / 60_000_000_000) % 60,
            m < 60,
    {
        ((self.0 / 60_000_000_000) % 60) as u32
    }

    /// Second (0..60).
    pub fn second(self) -> (s: u32)
        ensures
            s == (self@ / 1_000_000_000) % 60,
            s < 60,
    {
        ((self.0 / 1_000_000_000) % 60) as u32
    }

    /// Nanosecond within the second (0..1e9).
    pub fn nanosecond(self) -> (n: u32)
        ensures
            n == self@ % 1_000_000_000,
            n < 1_000_000_000,
    {
        (self.0 % 1_000_000_000) as u32
    }

    /// Millisecond within the second (0..1000).
    pub fn millisecond(self) -> (n: u32)
        ensures
            n == (self@ % 1_000_000_000) / 1_000_000,
            n < 1000,
    {
        self.nanosecond() / 1_000_000
    }

    /// Microsecond within the second (0..1e6).
    pub fn microsecond(self) -> (n: u32)
        ensures
            n == (self@ % 1_000_000_000) / 1_000,
            n < 1_000_000,
    {
        self.nanosecond() / 1_000
    }

    /// `(hour, minute, second, nanosecond)`.
    pub fn parts(self) -> (p: (u32, u32, u32, u32))
        ensures
            p.0 == self@ / 3_600_000_000_000,
            p.1 == (self@ / 60_000_000_000) % 60,
            p.2 == (self@ / 1_000_000_000) % 60,
            p.3 == self@ % 1_000_000_000,
            p.0 < 24 && p.1 < 60 && p.2 < 60 && p.3 < 1_000_000_000,
            hms_nanos(p.0 as int, p.1 as int, p.2 as int, p.3 as int) == self@,
    {
        proof {
            use_type_invariant(&self);
            lemma_hms_parts(self@);
        }
        (self.hour(), self.minute(), self.second(), self.nanosecond())
    }

    /// Replace the hour.
    pub fn with_hour(self, hour: u32) -> (r: Result<TimeOfDay, Error>)
        ensures
            hour >= 24 ==> is_out_of_range(r, "hour"),
            hour < 24 ==> (r is Ok && r->Ok_0@ == self@ % 3_600_000_000_000 + hour
                * 3_600_000_000_000),
    {
        proof {
            use_type_invariant(&self);
            lemma_hms_parts(self@);
        }
        TimeOfDay::from_hms_nano(hour, self.minute(), self.second(), self.nanosecond())
    }

    /// Replace the minute.
    pub fn with_minute(self, minute: u32) -> (r: Result<TimeOfDay, Error>)
        ensures
            minute >= 60 ==> is_out_of_range(r, "minute"),
            minute < 60 ==> (r is Ok && r->Ok_0@ == hms_nanos(
                self@ / 3_600_000_000_000,
                minute as int,
                (self@ / 1_000_000_000) % 60,
                self@ % 1_000_000_000,
            )),
    {
        proof {
            use_type_invariant(&self);
            lemma_hms_parts(self@);
        }
        TimeOfDay::from_hms_nano(self.hour(), minute, self.second(), self.nanosecond())
    }

    /// Replace the second.
    pub fn with_second(self, second: u32) -> (r: Result<TimeOfDay, Error>)
        ensures
            second >= 60 ==> is_out_of_range(r, "second"),
            second < 60 ==> (r is Ok && r->Ok_0@ == hms_nanos(
                self@ / 3_600_000_000_000,
                (self@ / 60_000_000_000) % 60,
                second as int,
                self@ % 1_000_000_000,
            )),
    {
        proof {
            use_type_invariant(&self);
            lemma_hms_parts(self@);
        }
        TimeOfDay::from_hms_nano(self.hour(), self.minute(), second, self.nanosecond())
    }

    /// Replace the nanosecond within the second.
    pub fn with_nanosecond(self, nano: u32) -> (r: Result<TimeOfDay, Error>)
        ensures
            nano >= 1_000_000_000 ==> is_out_of_range(r, "nanosecond"),
            nano < 1_000_000_000 ==> (r is Ok && r->Ok_0@ == self@ - self@ % 1_000_000_000
                + nano),
    {
        proof {
            use_type_invariant(&self);
            lemma_hms_parts(self@);
        }
        TimeOfDay::from_hms_nano(self.hour(), self.minute(), self.second(), nano)
    }

    /// Checked addition that must stay inside the day.
    pub fn checked_add(self, delta: Duration) -> (r: Result<TimeOfDay, Error>)
        ensures
            !fits_i128(self@ + delta@) ==> is_overflow(r),
            fits_i128(self@ + delta@) && 0 <= self@ + delta@ < NS_PER_DAY ==> (r is Ok
                && r->Ok_0@ == self@ + delta@),
            fits_i128(self@ + delta@) && !(0 <= self@ + delta@ < NS_PER_DAY) ==> is_out_of_range(
                r,
                "time-of-day",
            ),
    {
        proof {
            use_type_invariant(&self);
        }
        let total = match (self.0 as i128).checked_add(delta.as_nanos()) {
            Some(t) => t,
            None => {
                return Err(Error::overflow());
            },
        };
        if !(0 <= total && total < NS_PER_DAY) {
            return Err(Error::out_of_range("time-of-day"));
        }
        Ok(TimeOfDay(total as u64))
    }

    /// Checked subtraction that must stay inside the day.
    pub fn checked_sub(self, delta: Duration) -> (r: Result<TimeOfDay, Error>)
        ensures
            delta@ == i128::MIN || !fits_i128(self@ - delta@) ==> is_overflow(r),
            delta@ != i128::MIN && 0 <= self@ - delta@ < NS_PER_DAY ==> (r is Ok && r->Ok_0@
                == self@ - delta@),
            delta@ != i128::MIN && fits_i128(self@ - delta@) && !(0 <= self@ - delta@ < NS_PER_DAY) ==> is_out_of_range(
                r,
                "time-of-day",
            ),
    {
        proof {
            use_type_invariant(&self);
        }
        let neg = match delta.checked_neg() {
            Ok(n) => n,
            Err(e) => {
                return Err(e);
            },
        };
        self.checked_add(neg)
    }

    /// Alias for [`TimeOfDay::checked_add`] (chrono-compatible name).
    pub fn checked_add_signed(self, rhs: Duration) -> (r: Result<TimeOfDay, Error>)
        ensures
            !fits_i128(self@ + rhs@) ==> is_overflow(r),
            fits_i128(self@ + rhs@) && 0 <= self@ + rhs@ < NS_PER_DAY ==> (r is Ok && r->Ok_0@
                == self@ + rhs@),
            fits_i128(self@ + rhs@) && !(0 <= self@ + rhs@ < NS_PER_DAY) ==> is_out_of_range(
                r,
                "time-of-day",
            ),
    {
        self.checked_add(rhs)
    }

    /// Alias for [`TimeOfDay::checked_sub`] (chrono-compatible name).
    pub fn checked_sub_signed(self, rhs: Duration) -> (r: Result<TimeOfDay, Error>)
        ensures
            rhs@ == i128::MIN || !fits_i128(self@ - rhs@) ==> is_overflow(r),
            rhs@ != i128::MIN && 0 <= self@ - rhs@ < NS_PER_DAY ==> (r is Ok && r->Ok_0@ == self@
                - rhs@),
            rhs@ != i128::MIN && fits_i128(self@ - rhs@) && !(0 <= self@ - rhs@ < NS_PER_DAY) ==> is_out_of_range(
                r,
                "time-of-day",
            ),
    {
        self.checked_sub(rhs)
    }

    /// Addition with a whole-day carry instead of an error.
    ///
    /// Returns `(time_in_day, whole_days_carried)`. The sum saturates at the
    /// `i128` bounds and the carry clamps at the `i64` bounds, so no input
    /// can overflow.
    pub fn overflowing_add(self, delta: Duration) -> (r: (TimeOfDay, i64))
        ensures
            r.0@ == crate::duration::saturate_i128(self@ + delta@) % (NS_PER_DAY as int),
            r.1 == clamp_i64(crate::duration::saturate_i128(self@ + delta@) / (NS_PER_DAY as int)),
    {
        let total = crate::duration::sat_add_i128(self.0 as i128, delta.as_nanos());
        let (days, rem) = crate::calendar::ns_divmod_day(total);
        let carry = if days > i64::MAX as i128 {
            i64::MAX
        } else if days < i64::MIN as i128 {
            i64::MIN
        } else {
            days as i64
        };
        (TimeOfDay(rem as u64), carry)
    }

    /// Signed difference `self - earlier` (chrono-compatible name).
    pub fn signed_duration_since(self, earlier: TimeOfDay) -> (d: Duration)
        ensures
            d@ == self@ - earlier@,
    {
        self.duration_since(earlier)
    }

    /// Signed difference `self - earlier`.
    pub fn duration_since(self, earlier: TimeOfDay) -> (d: Duration)
        ensures
            d@ == self@ - earlier@,
    {
        Duration::from_nanos(self.0 as i128 - earlier.0 as i128)
    }
}

/// `v` clamped into the `i64` range.
pub open spec fn clamp_i64(v: int) -> int {
    if v > i64::MAX {
        i64::MAX as int
    } else if v < i64::MIN {
        i64::MIN as int
    } else {
        v
    }
}

/// The components of a nanosecond-of-day recombine to it.
pub proof fn lemma_hms_parts(n: int)
    requires
        0 <= n < NS_PER_DAY,
    ensures
        hms_nanos(n / 3_600_000_000_000, (n / 60_000_000_000) % 60, (n / 1_000_000_000) % 60, n
            % 1_000_000_000) == n,
        n / 3_600_000_000_000 < 24,
        n % 3_600_000_000_000 + (n / 3_600_000_000_000) * 3_600_000_000_000 == n,
{
    vstd::arithmetic::div_mod::lemma_fundamental_div_mod(n, 1_000_000_000);
    vstd::arithmetic::div_mod::lemma_fundamental_div_mod(n, 60_000_000_000);
    vstd::arithmetic::div_mod::lemma_fundamental_div_mod(n, 3_600_000_000_000);
    let s = n / 1_000_000_000;
    let m = n / 60_000_000_000;
    vstd::arithmetic::div_mod::lemma_fundamental_div_mod(s, 60);
    vstd::arithmetic::div_mod::lemma_fundamental_div_mod(m, 60);
    vstd::arithmetic::div_mod::lemma_div_denominator(n, 1_000_000_000, 60);
    vstd::arithmetic::div_mod::lemma_div_denominator(n, 60_000_000_000, 60);
    assert(s / 60 == m);
    assert(m / 60 == n / 3_600_000_000_000);
}

impl TimeOfDay {
    /// Strict ISO 8601 rendering (`HH:MM:SS[.fffffffff]`, trailing zeros of
    /// the fraction trimmed).
    pub fn to_iso(self) -> (s: String)
        ensures
            encode_utf8(s@) == time_iso_text(self@, FractionDigits::Auto),
    {
        let (h, m, sec, ns) = self.parts();
        let mut out: Vec<u8> = Vec::new();
        format_time_into(&mut out, h, m, sec, ns, FractionDigits::Auto);
        proof {
            crate::rendering::lemma_time_text_ascii(self@, FractionDigits::Auto);
            crate::rendering::lemma_ascii_valid(out@);
        }
        crate::text::string_from_utf8(out.as_slice())
    }

    /// Parse a strict ISO 8601 time of day (`HH:MM:SS`, optional fraction).
    pub fn from_iso(s: &str) -> (r: Result<TimeOfDay, Error>)
        ensures
            match time_iso_outcome(s.spec_bytes()) {
                Ok(v) => r is Ok && r->Ok_0@ == v,
                Err(f) => fails(r, f),
            },
    {
        parse_time_iso(s)
    }
}

impl TimeOfDay {
    /// strftime-style rendering (the date fields read `1970-01-01`).
    pub fn format(self, fmt: &str) -> (r: Result<String, Error>)
        ensures
            crate::strftime::text_matches(
                r,
                crate::strftime::fmt_text(
                    fmt.spec_bytes(),
                    0,
                    crate::strftime::civil_parts((0, self@), None, None, None),
                ),
            ),
    {
        let dt = crate::datetime::CivilDateTime::new(crate::date::Date::from_days_since_epoch(0), self);
        proof {
            crate::rendering::law_format_output_is_text(fmt);
        }
        crate::strftime::text_of(crate::strftime::format_bytes(fmt, dt, None, None, None))
    }

    /// Parse with a strftime-style format string.
    pub fn parse_from_str(s: &str, fmt: &str) -> (r: Result<TimeOfDay, Error>)
        ensures
            match crate::strftime::parsed_then(
                fmt.spec_bytes(),
                s.spec_bytes(),
                |pp| crate::strftime::time_outcome(pp),
            ) {
                Ok(t) => r is Ok && r->Ok_0@ == t,
                Err(f) => fails(r, f),
            },
    {
        match crate::strftime::parse_parts(fmt.as_bytes(), s.as_bytes()) {
            Ok(pp) => pp.to_time(),
            Err(e) => Err(e),
        }
    }
}

impl TimeOfDay {
    /// The ISO 8601 rendering (what `Display` writes).
    pub fn to_string(self) -> (s: String)
        ensures
            encode_utf8(s@) == time_iso_text(self@, FractionDigits::Auto),
    {
        self.to_iso()
    }
}

impl core::str::FromStr for TimeOfDay {
    type Err = Error;

    fn from_str(s: &str) -> (r: Result<TimeOfDay, Error>)
        ensures
            match time_iso_outcome(s.spec_bytes()) {
                Ok(v) => r is Ok && r->Ok_0@ == v,
                Err(f) => fails(r, f),
            },
    {
        TimeOfDay::from_iso(s)
    }
}

} // verus!
