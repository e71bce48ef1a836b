//! Signed durations: [`Duration`].
//!
//! A `Duration` is a signed 128-bit nanosecond span. It is deliberately a
//! distinct type from [`crate::ticks::Ticks`]: an instant and a span are not
//! the same kind of thing, and the type system should not let you add two
//! instants.

use vstd::prelude::*;
use vstd::utf8::encode_utf8;
use vstd::string::StringSliceAdditionalSpecFns;
use crate::format::{buffer_outcome, copy_out, duration_iso_outcome, duration_text, format_duration_into, parse_duration_iso};
use crate::scan::fails;

use crate::calendar::{tdiv, trunc_div, NS_PER_DAY, NS_PER_HOUR, NS_PER_MIN, NS_PER_SEC};
use crate::error::{Error, ErrorKind};

verus! {

/// A signed nanosecond duration.
#[derive(Clone, Copy, Debug, PartialEq, Eq, PartialOrd, Ord, Hash)]
pub struct Duration(i128);

impl View for Duration {
    type V = int;

    /// The span in nanoseconds.
    closed spec fn view(&self) -> int {
        self.0 as int
    }
}

/// The error of a result is "arithmetic overflow".
pub open spec fn is_overflow<T>(r: Result<T, Error>) -> bool {
    r is Err && r->Err_0.spec_kind() == ErrorKind::Overflow
}

/// The error of a result is "`component` is out of range".
pub open spec fn is_out_of_range<T>(r: Result<T, Error>, component: &'static str) -> bool {
    r is Err && r->Err_0.spec_kind() == ErrorKind::OutOfRange(component)
}

/// The error of a result is "invalid input: `what`".
pub open spec fn is_invalid<T>(r: Result<T, Error>, what: &'static str) -> bool {
    r is Err && r->Err_0.spec_kind() == ErrorKind::Invalid(what)
}

/// Whether `v` fits an `i64`.
pub open spec fn fits_i64(v: int) -> bool {
    i64::MIN <= v <= i64::MAX
}

/// Whether `v` fits an `i128`.
pub open spec fn fits_i128(v: int) -> bool {
    i128::MIN <= v <= i128::MAX
}

/// `v` clamped into the `i128` range.
pub open spec fn saturate_i128(v: int) -> int {
    if v > i128::MAX {
        i128::MAX as int
    } else if v < i128::MIN {
        i128::MIN as int
    } else {
        v
    }
}

/// Saturating `i128` addition.
pub fn sat_add_i128(a: i128, b: i128) -> (r: i128)
    ensures
        r == saturate_i128(a + b),
{
    match a.checked_add(b) {
        Some(v) => v,
        None => {
            if b > 0 {
                i128::MAX
            } else {
                i128::MIN
            }
        },
    }
}

/// Saturating `i128` subtraction.
pub fn sat_sub_i128(a: i128, b: i128) -> (r: i128)
    ensures
        r == saturate_i128(a - b),
{
    match a.checked_sub(b) {
        Some(v) => v,
        None => {
            if b < 0 {
                i128::MAX
            } else {
                i128::MIN
            }
        },
    }
}

/// Magnitude of an `i128` as `u128`.
pub fn abs_u128(a: i128) -> (r: u128)
    ensures
        r == if a < 0 {
            -a
        } else {
            a as int
        },
{
    if a >= 0 {
        a as u128
    } else if a == i128::MIN {
        (i128::MAX as u128) + 1
    } else {
        (-a) as u128
    }
}

/// Rust's truncating `i128` division, computed on magnitudes.
pub fn trunc_div_i128(a: i128, b: i128) -> (q: i128)
    requires
        b != 0,
        !(a == i128::MIN && b == -1),
    ensures
        q == trunc_div(a as int, b as int),
{
    let ua = abs_u128(a);
    let ub = abs_u128(b);
    let uq = ua / ub;
    proof {
        if ub == 1 {
            vstd::arithmetic::div_mod::lemma_div_basics(ua as int);
            assert(uq == ua);
        } else {
            assert(ub >= 1);
            vstd::arithmetic::div_mod::lemma_div_is_ordered_by_denominator(ua as int, 1, ub as int);
            if ub >= 2 {
                vstd::arithmetic::div_mod::lemma_div_is_ordered_by_denominator(ua as int, 2, ub as int);
                assert(ua as int / 2 <= (i128::MAX as int) + 1);
            }
        }
        assert(uq <= (i128::MAX as int) + 1);
    }
    if (a < 0) != (b < 0) {
        if uq == (i128::MAX as u128) + 1 {
            i128::MIN
        } else {
            -(uq as i128)
        }
    } else {
        uq as i128
    }
}

/// Convert an `i128` to `i64` when it fits.
pub fn narrow_i64(v: i128, component: &'static str) -> (r: Result<i64, Error>)
    ensures
        fits_i64(v as int) ==> r == Ok::<i64, Error>(v as i64),
        !fits_i64(v as int) ==> is_out_of_range(r, component),
{
    if v < i64::MIN as i128 || v > i64::MAX as i128 {
        Err(Error::out_of_range(component))
    } else {
        Ok(v as i64)
    }
}

impl Duration {
    /// Build from nanoseconds.
    pub fn from_nanos(nanos: i128) -> (d: Duration)
        ensures
            d@ == nanos,
    {
        Duration(nanos)
    }

    /// Build from microseconds.
    pub fn from_micros(micros: i128) -> (d: Duration)
        requires
            fits_i128(micros * 1_000),
        ensures
            d@ == micros * 1_000,
    {
        Duration(micros * 1_000)
    }

    /// Build from milliseconds.
    pub fn from_millis(millis: i128) -> (d: Duration)
        requires
            fits_i128(millis * 1_000_000),
        ensures
            d@ == millis * 1_000_000,
    {
        Duration(millis * 1_000_000)
    }

    /// Build from whole seconds.
    pub fn from_seconds(seconds: i64) -> (d: Duration)
        ensures
            d@ == seconds * NS_PER_SEC,
    {
        Duration(seconds as i128 * NS_PER_SEC)
    }

    /// Whole seconds (chrono-compatible constructor name).
    pub fn seconds(seconds: i64) -> (d: Duration)
        ensures
            d@ == seconds * NS_PER_SEC,
    {
        Duration::from_seconds(seconds)
    }

    /// Whole minutes (chrono-compatible constructor name); the product is
    /// computed in `i128`, so no `i64` argument can overflow.
    pub fn minutes(minutes: i64) -> (d: Duration)
        ensures
            d@ == minutes * NS_PER_MIN,
    {
        Duration(minutes as i128 * NS_PER_MIN)
    }

    /// Whole hours (chrono-compatible constructor name).
    pub fn hours(hours: i64) -> (d: Duration)
        ensures
            d@ == hours * NS_PER_HOUR,
    {
        Duration(hours as i128 * NS_PER_HOUR)
    }

    /// Whole days (chrono-compatible constructor name).
    pub fn days(days: i64) -> (d: Duration)
        ensures
            d@ == days * NS_PER_DAY,
    {
        Duration(days as i128 * NS_PER_DAY)
    }

    /// Build from whole minutes.
    pub fn from_minutes(minutes: i64) -> (d: Duration)
        ensures
            d@ == minutes * NS_PER_MIN,
    {
        Duration(minutes as i128 * NS_PER_MIN)
    }

    /// Build from whole hours.
    pub fn from_hours(hours: i64) -> (d: Duration)
        ensures
            d@ == hours * NS_PER_HOUR,
    {
        Duration(hours as i128 * NS_PER_HOUR)
    }

    /// Build from whole days.
    pub fn from_days(days: i64) -> (d: Duration)
        ensures
            d@ == days * NS_PER_DAY,
    {
        Duration(days as i128 * NS_PER_DAY)
    }

    /// Build from whole weeks (chrono-compatible constructor).
    pub fn weeks(weeks: i64) -> (d: Duration)
        ensures
            d@ == weeks * 7 * NS_PER_DAY,
    {
        Duration(weeks as i128 * 7 * NS_PER_DAY)
    }

    /// Build from whole milliseconds (chrono-compatible constructor).
    pub fn milliseconds(millis: i64) -> (d: Duration)
        ensures
            d@ == millis * 1_000_000,
    {
        Duration::from_millis(millis as i128)
    }

    /// Build from whole microseconds (chrono-compatible constructor).
    pub fn microseconds(micros: i64) -> (d: Duration)
        ensures
            d@ == micros * 1_000,
    {
        Duration::from_micros(micros as i128)
    }

    /// Build from whole nanoseconds (chrono-compatible constructor).
    pub fn nanoseconds(nanos: i64) -> (d: Duration)
        ensures
            d@ == nanos,
    {
        Duration::from_nanos(nanos as i128)
    }

    /// The zero duration (chrono-compatible constructor).
    pub fn zero() -> (d: Duration)
        ensures
            d@ == 0,
    {
        Duration(0)
    }

    /// Raw nanoseconds (signed).
    pub fn as_nanos(self) -> (n: i128)
        ensures
            n == self@,
    {
        self.0
    }

    /// Truncated microseconds (toward zero).
    pub fn as_micros(self) -> (n: i128)
        ensures
            n == tdiv(self@, 1_000),
    {
        self.0 / 1_000
    }

    /// Truncated milliseconds (toward zero).
    pub fn as_millis(self) -> (n: i128)
        ensures
            n == tdiv(self@, 1_000_000),
    {
        self.0 / 1_000_000
    }

    /// Truncated whole seconds (toward zero).
    pub fn as_seconds(self) -> (n: i128)
        ensures
            n == tdiv(self@, NS_PER_SEC as int),
    {
        self.0 / NS_PER_SEC
    }

    /// Truncated whole seconds toward zero as `i64` (chrono-compatible
    /// `num_seconds`); fails only beyond the `i64` second range.
    pub fn num_seconds(self) -> (r: Result<i64, Error>)
        ensures
            fits_i64(tdiv(self@, NS_PER_SEC as int)) ==> r == Ok::<i64, Error>(
                tdiv(self@, NS_PER_SEC as int) as i64,
            ),
            !fits_i64(tdiv(self@, NS_PER_SEC as int)) ==> is_out_of_range(r, "duration"),
    {
        narrow_i64(self.as_seconds(), "duration")
    }

    /// Truncated whole milliseconds toward zero.
    pub fn num_milliseconds(self) -> (r: Result<i64, Error>)
        ensures
            fits_i64(tdiv(self@, 1_000_000)) ==> r == Ok::<i64, Error>(
                tdiv(self@, 1_000_000) as i64,
            ),
            !fits_i64(tdiv(self@, 1_000_000)) ==> is_out_of_range(r, "duration"),
    {
        narrow_i64(self.as_millis(), "duration")
    }

    /// Truncated whole microseconds toward zero.
    pub fn num_microseconds(self) -> (r: Result<i64, Error>)
        ensures
            fits_i64(tdiv(self@, 1_000)) ==> r == Ok::<i64, Error>(tdiv(self@, 1_000) as i64),
            !fits_i64(tdiv(self@, 1_000)) ==> is_out_of_range(r, "duration"),
    {
        narrow_i64(self.as_micros(), "duration")
    }

    /// Whole nanoseconds as `i64`; the only failure is a span wider than
    /// `i64`.
    pub fn num_nanoseconds(self) -> (r: Result<i64, Error>)
        ensures
            fits_i64(self@) ==> r == Ok::<i64, Error>(self@ as i64),
            !fits_i64(self@) ==> is_out_of_range(r, "duration"),
    {
        narrow_i64(self.0, "duration")
    }

    /// Truncated whole minutes toward zero.
    pub fn num_minutes(self) -> (r: Result<i64, Error>)
        ensures
            fits_i64(tdiv(self@, NS_PER_MIN as int)) ==> r == Ok::<i64, Error>(
                tdiv(self@, NS_PER_MIN as int) as i64,
            ),
            !fits_i64(tdiv(self@, NS_PER_MIN as int)) ==> is_out_of_range(r, "duration"),
    {
        narrow_i64(self.0 / NS_PER_MIN, "duration")
    }

    /// Truncated whole hours toward zero.
    pub fn num_hours(self) -> (r: Result<i64, Error>)
        ensures
            fits_i64(tdiv(self@, NS_PER_HOUR as int)) ==> r == Ok::<i64, Error>(
                tdiv(self@, NS_PER_HOUR as int) as i64,
            ),
            !fits_i64(tdiv(self@, NS_PER_HOUR as int)) ==> is_out_of_range(r, "duration"),
    {
        narrow_i64(self.0 / NS_PER_HOUR, "duration")
    }

    /// Truncated whole days toward zero.
    pub fn num_days(self) -> (r: Result<i64, Error>)
        ensures
            fits_i64(tdiv(self@, NS_PER_DAY as int)) ==> r == Ok::<i64, Error>(
                tdiv(self@, NS_PER_DAY as int) as i64,
            ),
            !fits_i64(tdiv(self@, NS_PER_DAY as int)) ==> is_out_of_range(r, "duration"),
    {
        narrow_i64(self.0 / NS_PER_DAY, "duration")
    }

    /// Truncated whole weeks toward zero.
    pub fn num_weeks(self) -> (r: Result<i64, Error>)
        ensures
            fits_i64(tdiv(self@, 7 * NS_PER_DAY)) ==> r == Ok::<i64, Error>(
                tdiv(self@, 7 * NS_PER_DAY) as i64,
            ),
            !fits_i64(tdiv(self@, 7 * NS_PER_DAY)) ==> is_out_of_range(r, "duration"),
    {
        narrow_i64(self.0 / (7 * NS_PER_DAY), "duration")
    }

    /// Whether this is exactly zero.
    pub fn is_zero(self) -> (b: bool)
        ensures
            b == (self@ == 0),
    {
        self.0 == 0
    }

    /// Whether this is strictly positive.
    pub fn is_positive(self) -> (b: bool)
        ensures
            b == (self@ > 0),
    {
        self.0 > 0
    }

    /// Whether this is strictly negative.
    pub fn is_negative(self) -> (b: bool)
        ensures
            b == (self@ < 0),
    {
        self.0 < 0
    }

    /// Absolute value; fails on the most negative span.
    pub fn checked_abs(self) -> (r: Result<Duration, Error>)
        ensures
            self@ != i128::MIN ==> (r is Ok && r->Ok_0@ == if self@ < 0 {
                -self@
            } else {
                self@
            }),
            self@ == i128::MIN ==> is_overflow(r),
    {
        if self.0 == i128::MIN {
            return Err(Error::overflow());
        }
        Ok(
            Duration(
                if self.0 < 0 {
                    -self.0
                } else {
                    self.0
                },
            ),
        )
    }

    /// Absolute value as an unsigned magnitude.
    pub fn unsigned_abs(self) -> (n: u128)
        ensures
            n == if self@ < 0 {
                -self@
            } else {
                self@
            },
    {
        if self.0 >= 0 {
            self.0 as u128
        } else if self.0 == i128::MIN {
            (i128::MAX as u128) + 1
        } else {
            (-self.0) as u128
        }
    }

    /// Checked negation; fails on the most negative span.
    pub fn checked_neg(self) -> (r: Result<Duration, Error>)
        ensures
            self@ != i128::MIN ==> (r is Ok && r->Ok_0@ == -self@),
            self@ == i128::MIN ==> is_overflow(r),
    {
        if self.0 == i128::MIN {
            Err(Error::overflow())
        } else {
            Ok(Duration(-self.0))
        }
    }

    /// Checked addition.
    pub fn checked_add(self, rhs: Duration) -> (r: Result<Duration, Error>)
        ensures
            fits_i128(self@ + rhs@) ==> (r is Ok && r->Ok_0@ == self@ + rhs@),
            !fits_i128(self@ + rhs@) ==> is_overflow(r),
    {
        match self.0.checked_add(rhs.0) {
            Some(v) => Ok(Duration(v)),
            None => Err(Error::overflow()),
        }
    }

    /// Checked subtraction.
    pub fn checked_sub(self, rhs: Duration) -> (r: Result<Duration, Error>)
        ensures
            fits_i128(self@ - rhs@) ==> (r is Ok && r->Ok_0@ == self@ - rhs@),
            !fits_i128(self@ - rhs@) ==> is_overflow(r),
    {
        match self.0.checked_sub(rhs.0) {
            Some(v) => Ok(Duration(v)),
            None => Err(Error::overflow()),
        }
    }

    /// Checked scalar multiplication.
    pub fn checked_mul(self, rhs: i128) -> (r: Result<Duration, Error>)
        ensures
            fits_i128(self@ * rhs) ==> (r is Ok && r->Ok_0@ == self@ * rhs),
            !fits_i128(self@ * rhs) ==> is_overflow(r),
    {
        match self.0.checked_mul(rhs) {
            Some(v) => Ok(Duration(v)),
            None => Err(Error::overflow()),
        }
    }

    /// Checked scalar division (truncates toward zero).
    pub fn checked_div(self, rhs: i128) -> (r: Result<Duration, Error>)
        ensures
            rhs == 0 ==> is_invalid(r, "division by zero"),
            rhs != 0 && !(self@ == i128::MIN && rhs == -1) ==> (r is Ok && r->Ok_0@ == trunc_div(
                self@,
                rhs as int,
            )),
            rhs == -1 && self@ == i128::MIN ==> is_overflow(r),
    {
        if rhs == 0 {
            return Err(Error::invalid("division by zero"));
        }
        if self.0 == i128::MIN && rhs == -1 {
            return Err(Error::overflow());
        }
        Ok(Duration(trunc_div_i128(self.0, rhs)))
    }

    /// Checked duration ratio (truncates toward zero).
    pub fn checked_div_duration(self, rhs: Duration) -> (r: Result<i128, Error>)
        ensures
            rhs@ == 0 ==> is_invalid(r, "division by zero"),
            rhs@ != 0 && !(self@ == i128::MIN && rhs@ == -1) ==> (r is Ok && r->Ok_0 == trunc_div(
                self@,
                rhs@,
            )),
            rhs@ == -1 && self@ == i128::MIN ==> is_overflow(r),
    {
        if rhs.0 == 0 {
            return Err(Error::invalid("division by zero"));
        }
        if self.0 == i128::MIN && rhs.0 == -1 {
            return Err(Error::overflow());
        }
        Ok(trunc_div_i128(self.0, rhs.0))
    }

    /// Saturating addition.
    pub fn saturating_add(self, rhs: Duration) -> (d: Duration)
        ensures
            d@ == saturate_i128(self@ + rhs@),
    {
        Duration(sat_add_i128(self.0, rhs.0))
    }

    /// Saturating subtraction.
    pub fn saturating_sub(self, rhs: Duration) -> (d: Duration)
        ensures
            d@ == saturate_i128(self@ - rhs@),
    {
        Duration(sat_sub_i128(self.0, rhs.0))
    }

    /// Saturating scalar multiplication (chrono-compatible `saturating_mul`).
    pub fn saturating_mul(self, rhs: i128) -> (d: Duration)
        ensures
            d@ == saturate_i128(self@ * rhs),
    {
        match self.0.checked_mul(rhs) {
            Some(v) => Duration(v),
            None => {
                proof {
                    let a = self.0 as int;
                    let b = rhs as int;
                    assert((a < 0) == (b < 0) ==> a * b >= 0) by (nonlinear_arith);
                    assert((a < 0) != (b < 0) ==> a * b <= 0) by (nonlinear_arith);
                }
                if (self.0 < 0) == (rhs < 0) {
                    Duration(i128::MAX)
                } else {
                    Duration(i128::MIN)
                }
            },
        }
    }
}

/// The length of a `core::time::Duration`, in nanoseconds.
pub uninterp spec fn std_nanos(d: core::time::Duration) -> nat;

/// `core::time::Duration::as_secs` (std): the whole seconds of the span,
/// that is its nanoseconds divided by one billion, rounded down.
#[verifier::external_body]
pub(crate) fn std_as_secs(d: &core::time::Duration) -> (s: u64)
    ensures
        s == std_nanos(*d) / 1_000_000_000,
{
    d.as_secs()
}

/// `core::time::Duration::subsec_nanos` (std): the fractional part of the
/// span in nanoseconds, that is its nanoseconds modulo one billion.
#[verifier::external_body]
pub(crate) fn std_subsec_nanos(d: &core::time::Duration) -> (n: u32)
    ensures
        n == std_nanos(*d) % 1_000_000_000,
{
    d.subsec_nanos()
}

/// `core::time::Duration::new` (std): the span of `secs` seconds plus
/// `nanos` nanoseconds. It panics only when carrying whole seconds out of
/// `nanos` overflows the seconds, which `nanos` below one second rules out.
#[verifier::external_body]
pub(crate) fn std_duration_new(secs: u64, nanos: u32) -> (d: core::time::Duration)
    requires
        nanos < 1_000_000_000,
    ensures
        std_nanos(d) == secs * 1_000_000_000 + nanos,
{
    core::time::Duration::new(secs, nanos)
}

impl Duration {
    /// ISO 8601 duration rendering (`P1DT2H3M4.5S`, `-PT1S`, `PT0S`); years
    /// and months are never produced.
    pub fn to_iso8601(self) -> (s: String)
        ensures
            encode_utf8(s@) == duration_text(self@),
    {
        let mut out: Vec<u8> = Vec::new();
        format_duration_into(&mut out, self.0);
        proof {
            crate::rendering::lemma_duration_text_ascii(self@);
            crate::rendering::lemma_ascii_valid(out@);
        }
        crate::text::string_from_utf8(out.as_slice())
    }

    /// Parse an ISO 8601 duration: weeks, days and `T`-prefixed hours,
    /// minutes and seconds, a fraction allowed on a component; years and
    /// months before `T` are rejected as calendar-ambiguous.
    pub fn from_iso8601(s: &str) -> (r: Result<Duration, Error>)
        ensures
            match duration_iso_outcome(s.spec_bytes()) {
                Ok(v) => r is Ok && r->Ok_0@ == v,
                Err(f) => fails(r, f),
            },
    {
        match parse_duration_iso(s) {
            Ok(n) => Ok(Duration(n)),
            Err(e) => Err(e),
        }
    }

    /// The span of an unsigned `(seconds, nanoseconds)` pair.
    pub fn from_std_parts(secs: u64, nanos: u32) -> (d: Duration)
        ensures
            d@ == secs * 1_000_000_000 + nanos,
    {
        Duration(secs as i128 * NS_PER_SEC + nanos as i128)
    }

    /// The unsigned `(seconds, nanoseconds)` pair of a non-negative span;
    /// negative spans and spans beyond `u64` seconds have none.
    pub fn to_std_parts(self) -> (r: Result<(u64, u32), Error>)
        ensures
            self@ < 0 ==> is_invalid(r, "negative duration"),
            self@ >= 0 && self@ / 1_000_000_000 > u64::MAX ==> is_out_of_range(r, "duration"),
            self@ >= 0 && self@ / 1_000_000_000 <= u64::MAX ==> (r is Ok && r->Ok_0.0 == self@
                / 1_000_000_000 && r->Ok_0.1 == self@ % 1_000_000_000),
    {
        if self.0 < 0 {
            return Err(Error::invalid("negative duration"));
        }
        let secs = self.0 / NS_PER_SEC;
        let nanos = self.0 % NS_PER_SEC;
        if secs > u64::MAX as i128 {
            return Err(Error::out_of_range("duration"));
        }
        Ok((secs as u64, nanos as u32))
    }

    /// Build from an unsigned `core::time::Duration`.
    pub fn from_std(d: core::time::Duration) -> (r: Duration)
        ensures
            r@ == std_nanos(d),
            0 <= r@ < (u64::MAX + 1) * 1_000_000_000,
    {
        let secs = std_as_secs(&d);
        let nanos = std_subsec_nanos(&d);
        proof {
            vstd::arithmetic::div_mod::lemma_fundamental_div_mod(std_nanos(d) as int, 1_000_000_000);
        }
        Duration::from_std_parts(secs, nanos)
    }

    /// Convert to an unsigned `core::time::Duration`; fails if negative or
    /// wider than `u64` seconds.
    pub fn to_std(self) -> (r: Result<core::time::Duration, Error>)
        ensures
            self@ < 0 ==> is_invalid(r, "negative duration"),
            self@ >= 0 && self@ / 1_000_000_000 > u64::MAX ==> is_out_of_range(r, "duration"),
            self@ >= 0 && self@ / 1_000_000_000 <= u64::MAX ==> r is Ok,
            r is Ok ==> std_nanos(r->Ok_0) == self@,
    {
        proof {
            vstd::arithmetic::div_mod::lemma_fundamental_div_mod(self@, 1_000_000_000);
        }
        match self.to_std_parts() {
            Ok((secs, nanos)) => Ok(std_duration_new(secs, nanos)),
            Err(e) => Err(e),
        }
    }
}

impl Duration {
    /// The ISO 8601 rendering (what `Display` writes).
    pub fn to_string(self) -> (s: String)
        ensures
            encode_utf8(s@) == duration_text(self@),
    {
        self.to_iso8601()
    }

    /// ISO 8601 rendering into a caller-owned buffer; the number of bytes
    /// written, or a buffer overflow (buffer untouched) when it does not fit.
    pub fn write_iso8601(self, out: &mut [u8]) -> (r: Result<usize, Error>)
        ensures
            buffer_outcome(r, old(out)@, final(out)@, duration_text(self@)),
    {
        let mut bytes: Vec<u8> = Vec::new();
        format_duration_into(&mut bytes, self.0);
        copy_out(out, &bytes)
    }
}

impl core::str::FromStr for Duration {
    type Err = Error;

    fn from_str(s: &str) -> (r: Result<Duration, Error>)
        ensures
            match duration_iso_outcome(s.spec_bytes()) {
                Ok(v) => r is Ok && r->Ok_0@ == v,
                Err(f) => fails(r, f),
            },
    {
        Duration::from_iso8601(s)
    }
}

} // verus!
