//! The canonical timeline: [`Ticks`].
//!
//! `Ticks` is a single signed 128-bit nanosecond counter since the Unix
//! epoch (`1970-01-01T00:00:00Z`, proleptic Gregorian). Civil types are
//! projections of this timeline; calendar-aware operations (months, years)
//! are implemented once here as project, adjust, re-project.

use vstd::prelude::*;
use vstd::utf8::encode_utf8;
use vstd::string::StringSliceAdditionalSpecFns;
use crate::format::{
    copy_out, format_offset_into, parse_rfc3339, rfc3339_text, scan_iso,
    signed_text, write_signed_i128, FractionDigits,
};
use crate::scan::fails;

use crate::calendar::{
    floor_div_ns, floor_rem_ns, ns_divmod_day, weekday_of_days, Weekday, NS_PER_DAY, NS_PER_SEC,
};
use crate::date::{add_months_outcome, fits_date, Date};
use crate::datetime::{civil_months_matches, CivilDateTime};
use crate::duration::{fits_i128, fits_i64, is_out_of_range, is_overflow, narrow_i64, saturate_i128, Duration};
use crate::error::{Error, ErrorKind};
use crate::time::TimeOfDay;
use crate::units::{Days, Months};
use crate::zone::Zone;
use crate::zoned::Zoned;

verus! {

/// A signed 128-bit nanosecond instant since `1970-01-01T00:00:00Z`.
#[derive(Clone, Copy, Debug, PartialEq, Eq, PartialOrd, Ord, Hash)]
pub struct Ticks(i128);

impl View for Ticks {
    type V = int;

    /// Nanoseconds since the Unix epoch.
    closed spec fn view(&self) -> int {
        self.0 as int
    }
}

/// Nanoseconds since the epoch of the civil reading `(days, nanos)` taken as
/// UTC.
pub open spec fn civil_ns(v: (int, int)) -> int {
    v.0 * NS_PER_DAY + v.1
}

/// The UTC civil reading `(days, nanos-of-day)` of the instant `ns`; the day
/// count must fit `i64` (else `OutOfRange(wide)`) and then the date range
/// (else `OutOfRange("date")`).
pub open spec fn civil_of_ns(ns: int, wide: &'static str) -> Result<(int, int), ErrorKind> {
    let days = ns / (NS_PER_DAY as int);
    if !fits_i64(days) {
        Err(ErrorKind::OutOfRange(wide))
    } else if !fits_date(days) {
        Err(ErrorKind::OutOfRange("date"))
    } else {
        Ok((days, ns % (NS_PER_DAY as int)))
    }
}

/// The outcome of an instant-valued operation: the instant, or the kind of
/// the error.
pub open spec fn ticks_matches(r: Result<Ticks, Error>, o: Result<int, ErrorKind>) -> bool {
    match o {
        Ok(v) => r is Ok && r->Ok_0@ == v,
        Err(k) => r is Err && r->Err_0.spec_kind() == k,
    }
}

/// Shift the instant `ns` by `k` months on its UTC civil reading and project
/// back; the nanosecond-of-day is kept.
pub open spec fn ticks_add_months_outcome(ns: int, k: int) -> Result<int, ErrorKind> {
    match civil_of_ns(ns, "instant") {
        Err(e) => Err(e),
        Ok(v) => match add_months_outcome(v.0, k) {
            None => Err(ErrorKind::Overflow),
            Some(Err(c)) => Err(ErrorKind::OutOfRange(c)),
            Some(Ok(z)) => Ok(civil_ns((z, v.1))),
        },
    }
}

/// Shifting an instant by a duration, with the instant-range check.
pub open spec fn shift_outcome(ns: int, delta: int) -> Result<int, ErrorKind> {
    if fits_i128(ns + delta) {
        Ok(ns + delta)
    } else {
        Err(ErrorKind::Overflow)
    }
}

/// The UTC civil projection and its inverse agree: an instant with a civil
/// reading projects back onto itself.
pub proof fn law_utc_projection_round_trip(ns: int)
    requires
        civil_of_ns(ns, "instant") is Ok,
    ensures
        civil_ns(civil_of_ns(ns, "instant")->Ok_0) == ns,
        0 <= civil_of_ns(ns, "instant")->Ok_0.1 < NS_PER_DAY,
{
    vstd::arithmetic::div_mod::lemma_fundamental_div_mod(ns, NS_PER_DAY as int);
}

/// Every civil reading in the date range is the projection of exactly the
/// instant it names: projecting `days * NS_PER_DAY + nanos` gives back
/// `(days, nanos)`.
pub proof fn law_civil_projection_round_trip(days: int, nanos: int)
    requires
        fits_date(days),
        0 <= nanos < NS_PER_DAY,
    ensures
        civil_of_ns(civil_ns((days, nanos)), "instant") == Ok::<(int, int), ErrorKind>((days, nanos)),
{
    let ns = civil_ns((days, nanos));
    vstd::arithmetic::div_mod::lemma_fundamental_div_mod_converse(
        ns,
        NS_PER_DAY as int,
        days,
        nanos,
    );
}

/// Adding a duration and then subtracting it gives back the instant.
pub proof fn law_shift_inverse(ns: int, delta: int)
    requires
        fits_i128(ns),
        shift_outcome(ns, delta) is Ok,
    ensures
        shift_outcome(shift_outcome(ns, delta)->Ok_0, -delta) == Ok::<int, ErrorKind>(ns),
{
}

/// The civil reading `(date, time-of-day)` of `ns` nanoseconds counted from
/// `1970-01-01T00:00:00`; a day count beyond `i64` is out of range under
/// the name `wide`, one beyond the date range under `date`.
pub(crate) fn civil_reading(ns: i128, wide: &'static str) -> (r: Result<CivilDateTime, Error>)
    ensures
        crate::datetime::civil_matches(r, civil_of_ns(ns as int, wide)),
{
    let (days, rem) = ns_divmod_day(ns);
    if days < i64::MIN as i128 || days > i64::MAX as i128 {
        return Err(Error::out_of_range(wide));
    }
    let date = match Date::from_days_checked(days as i64) {
        Ok(d) => d,
        Err(e) => {
            return Err(e);
        },
    };
    let time = match TimeOfDay::from_nanos_since_midnight(rem as u64) {
        Ok(t) => t,
        Err(e) => {
            return Err(e);
        },
    };
    Ok(CivilDateTime::new(date, time))
}

impl Ticks {
    /// The Unix epoch itself: `1970-01-01T00:00:00Z`.
    pub fn epoch() -> (t: Ticks)
        ensures
            t@ == 0,
    {
        Ticks(0)
    }

    /// The smallest representable instant.
    pub fn min_instant() -> (t: Ticks)
        ensures
            t@ == i128::MIN,
    {
        Ticks(i128::MIN)
    }

    /// The largest representable instant.
    pub fn max_instant() -> (t: Ticks)
        ensures
            t@ == i128::MAX,
    {
        Ticks(i128::MAX)
    }

    /// Build an instant from raw nanoseconds since the Unix epoch.
    pub fn from_unix_nanos(nanos: i128) -> (t: Ticks)
        ensures
            t@ == nanos,
    {
        Ticks(nanos)
    }

    /// Build an instant from whole seconds plus sub-second nanoseconds;
    /// `nanos` must be in `0..1_000_000_000`.
    pub fn from_unix_seconds(seconds: i64, nanos: u32) -> (r: Result<Ticks, Error>)
        ensures
            nanos >= 1_000_000_000 ==> is_out_of_range(r, "nanosecond"),
            nanos < 1_000_000_000 ==> (r is Ok && r->Ok_0@ == seconds * 1_000_000_000 + nanos),
    {
        if nanos >= 1_000_000_000 {
            return Err(Error::out_of_range("nanosecond"));
        }
        Ok(Ticks(seconds as i128 * NS_PER_SEC + nanos as i128))
    }

    /// Build from a Unix timestamp; `nanos` must be in `0..1_000_000_000`.
    pub fn from_timestamp(seconds: i64, nanos: u32) -> (r: Result<Ticks, Error>)
        ensures
            nanos >= 1_000_000_000 ==> is_out_of_range(r, "nanosecond"),
            nanos < 1_000_000_000 ==> (r is Ok && r->Ok_0@ == seconds * 1_000_000_000 + nanos),
    {
        Ticks::from_unix_seconds(seconds, nanos)
    }

    /// Build from a Unix millisecond timestamp (always succeeds).
    pub fn from_timestamp_millis(millis: i64) -> (r: Result<Ticks, Error>)
        ensures
            r is Ok && r->Ok_0@ == millis * 1_000_000,
    {
        let ns = millis as i128 * 1_000_000;
        Ok(Ticks::from_unix_nanos(ns))
    }

    /// Build from a Unix microsecond timestamp (always succeeds).
    pub fn from_timestamp_micros(micros: i64) -> (r: Result<Ticks, Error>)
        ensures
            r is Ok && r->Ok_0@ == micros * 1_000,
    {
        let ns = micros as i128 * 1_000;
        Ok(Ticks::from_unix_nanos(ns))
    }

    /// Build from a Unix nanosecond timestamp.
    pub fn from_timestamp_nanos(nanos: i128) -> (t: Ticks)
        ensures
            t@ == nanos,
    {
        Ticks::from_unix_nanos(nanos)
    }

    /// Whole seconds since the epoch, flooring.
    pub fn timestamp(self) -> (r: Result<i64, Error>)
        ensures
            fits_i64(self@ / 1_000_000_000) ==> r == Ok::<i64, Error>((self@ / 1_000_000_000) as i64),
            !fits_i64(self@ / 1_000_000_000) ==> is_out_of_range(r, "instant"),
    {
        narrow_i64(floor_div_ns(self.0, NS_PER_SEC), "instant")
    }

    /// Whole milliseconds since the epoch, flooring.
    pub fn timestamp_millis(self) -> (r: Result<i64, Error>)
        ensures
            fits_i64(self@ / 1_000_000) ==> r == Ok::<i64, Error>((self@ / 1_000_000) as i64),
            !fits_i64(self@ / 1_000_000) ==> is_out_of_range(r, "instant"),
    {
        narrow_i64(floor_div_ns(self.0, 1_000_000), "instant")
    }

    /// Whole microseconds since the epoch, flooring.
    pub fn timestamp_micros(self) -> (r: Result<i64, Error>)
        ensures
            fits_i64(self@ / 1_000) ==> r == Ok::<i64, Error>((self@ / 1_000) as i64),
            !fits_i64(self@ / 1_000) ==> is_out_of_range(r, "instant"),
    {
        narrow_i64(floor_div_ns(self.0, 1_000), "instant")
    }

    /// Nanoseconds since the epoch as `i64`; fails beyond the `i64` range.
    pub fn timestamp_nanos(self) -> (r: Result<i64, Error>)
        ensures
            fits_i64(self@) ==> r == Ok::<i64, Error>(self@ as i64),
            !fits_i64(self@) ==> is_out_of_range(r, "instant"),
    {
        narrow_i64(self.0, "instant")
    }

    /// Raw nanoseconds since the Unix epoch.
    pub fn as_unix_nanos(self) -> (n: i128)
        ensures
            n == self@,
    {
        self.0
    }

    /// Whole seconds (floor) and sub-second nanoseconds.
    pub fn to_unix_seconds(self) -> (r: Result<(i64, u32), Error>)
        ensures
            fits_i64(self@ / 1_000_000_000) ==> (r is Ok && r->Ok_0.0 == self@ / 1_000_000_000
                && r->Ok_0.1 == self@ % 1_000_000_000),
            !fits_i64(self@ / 1_000_000_000) ==> is_out_of_range(r, "instant"),
    {
        let secs = floor_div_ns(self.0, NS_PER_SEC);
        let nanos = floor_rem_ns(self.0, NS_PER_SEC);
        match narrow_i64(secs, "instant") {
            Ok(s) => Ok((s, nanos as u32)),
            Err(e) => Err(e),
        }
    }

    /// POSIX-`timespec`-shaped decomposition `(seconds, nanoseconds)`.
    pub fn to_timespec(self) -> (r: Result<(i64, i64), Error>)
        ensures
            fits_i64(self@ / 1_000_000_000) ==> (r is Ok && r->Ok_0.0 == self@ / 1_000_000_000
                && r->Ok_0.1 == self@ % 1_000_000_000),
            !fits_i64(self@ / 1_000_000_000) ==> is_out_of_range(r, "instant"),
    {
        match self.to_unix_seconds() {
            Ok((secs, nanos)) => Ok((secs, nanos as i64)),
            Err(e) => Err(e),
        }
    }

    /// Build from a POSIX-`timespec`-shaped pair; `nanos` must be in
    /// `0..1_000_000_000` (no normalization is applied).
    pub fn from_timespec(seconds: i64, nanos: i64) -> (r: Result<Ticks, Error>)
        ensures
            !(0 <= nanos < 1_000_000_000) ==> is_out_of_range(r, "nanosecond"),
            0 <= nanos < 1_000_000_000 ==> (r is Ok && r->Ok_0@ == seconds * 1_000_000_000 + nanos),
    {
        if !(0 <= nanos && nanos < 1_000_000_000) {
            return Err(Error::out_of_range("nanosecond"));
        }
        Ticks::from_unix_seconds(seconds, nanos as u32)
    }

    /// The `(seconds, nanoseconds)` since the epoch that a platform clock
    /// value is built from; instants before 1970 have none.
    pub fn std_time_parts(self) -> (r: Result<(u64, u32), Error>)
        ensures
            !fits_i64(self@ / 1_000_000_000) ==> is_out_of_range(r, "instant"),
            fits_i64(self@ / 1_000_000_000) && self@ < 0 ==> is_out_of_range(
                r,
                "instant (before 1970)",
            ),
            fits_i64(self@ / 1_000_000_000) && self@ >= 0 ==> (r is Ok && r->Ok_0.0 == self@
                / 1_000_000_000 && r->Ok_0.1 == self@ % 1_000_000_000),
    {
        match self.to_unix_seconds() {
            Ok((secs, nanos)) => {
                if secs < 0 {
                    return Err(Error::out_of_range("instant (before 1970)"));
                }
                Ok((secs as u64, nanos))
            },
            Err(e) => Err(e),
        }
    }

    /// Checked addition of a signed duration.
    pub fn checked_add(self, delta: Duration) -> (r: Result<Ticks, Error>)
        ensures
            ticks_matches(r, shift_outcome(self@, delta@)),
    {
        match self.0.checked_add(delta.as_nanos()) {
            Some(v) => Ok(Ticks(v)),
            None => Err(Error::overflow()),
        }
    }

    /// Checked subtraction of a signed duration.
    pub fn checked_sub(self, delta: Duration) -> (r: Result<Ticks, Error>)
        ensures
            ticks_matches(r, shift_outcome(self@, -delta@)),
    {
        match self.0.checked_sub(delta.as_nanos()) {
            Some(v) => Ok(Ticks(v)),
            None => Err(Error::overflow()),
        }
    }

    /// Alias for [`Ticks::checked_add`] (chrono-compatible name).
    pub fn checked_add_signed(self, rhs: Duration) -> (r: Result<Ticks, Error>)
        ensures
            ticks_matches(r, shift_outcome(self@, rhs@)),
    {
        self.checked_add(rhs)
    }

    /// Alias for [`Ticks::checked_sub`] (chrono-compatible name).
    pub fn checked_sub_signed(self, rhs: Duration) -> (r: Result<Ticks, Error>)
        ensures
            ticks_matches(r, shift_outcome(self@, -rhs@)),
    {
        self.checked_sub(rhs)
    }

    /// Checked day offset.
    pub fn checked_add_days(self, days: Days) -> (r: Result<Ticks, Error>)
        ensures
            days.0 > i64::MAX ==> is_out_of_range(r, "days"),
            days.0 <= i64::MAX ==> ticks_matches(r, shift_outcome(self@, days.0 * NS_PER_DAY)),
    {
        let n = days.get();
        if n > i64::MAX as u64 {
            return Err(Error::out_of_range("days"));
        }
        self.checked_add(Duration::from_days(n as i64))
    }

    /// Checked day offset in the negative direction.
    pub fn checked_sub_days(self, days: Days) -> (r: Result<Ticks, Error>)
        ensures
            days.0 > i64::MAX ==> is_out_of_range(r, "days"),
            days.0 <= i64::MAX ==> ticks_matches(r, shift_outcome(self@, -(days.0 * NS_PER_DAY))),
    {
        let n = days.get();
        if n > i64::MAX as u64 {
            return Err(Error::out_of_range("days"));
        }
        self.checked_sub(Duration::from_days(n as i64))
    }

    /// Saturating addition of a signed duration.
    pub fn saturating_add(self, delta: Duration) -> (t: Ticks)
        ensures
            t@ == saturate_i128(self@ + delta@),
    {
        Ticks(crate::duration::sat_add_i128(self.0, delta.as_nanos()))
    }

    /// Saturating subtraction of a signed duration.
    pub fn saturating_sub(self, delta: Duration) -> (t: Ticks)
        ensures
            t@ == saturate_i128(self@ - delta@),
    {
        Ticks(crate::duration::sat_sub_i128(self.0, delta.as_nanos()))
    }

    /// The signed duration between `earlier` and `self`, saturating at the
    /// representable boundary.
    pub fn duration_since(self, earlier: Ticks) -> (d: Duration)
        ensures
            d@ == saturate_i128(self@ - earlier@),
    {
        Duration::from_nanos(crate::duration::sat_sub_i128(self.0, earlier.0))
    }

    /// The UTC civil projection `(date, time-of-day)`; fails only for
    /// instants whose day count leaves the date range.
    pub fn to_civil_utc(self) -> (r: Result<CivilDateTime, Error>)
        ensures
            crate::datetime::civil_matches(r, civil_of_ns(self@, "instant")),
    {
        civil_reading(self.0, "instant")
    }

    /// Calendar-aware month stepping on the UTC civil projection; the day
    /// clamps to the end of the target month.
    pub fn checked_add_months(self, months: Months) -> (r: Result<Ticks, Error>)
        ensures
            ticks_matches(r, ticks_add_months_outcome(self@, months.0 as int)),
    {
        let dt = match self.to_civil_utc() {
            Ok(dt) => dt,
            Err(e) => {
                return Err(e);
            },
        };
        let moved = match dt.checked_add_months(months) {
            Ok(m) => m,
            Err(e) => {
                return Err(e);
            },
        };
        moved.to_ticks_utc()
    }

    /// Calendar-aware month stepping in the negative direction.
    pub fn checked_sub_months(self, months: Months) -> (r: Result<Ticks, Error>)
        ensures
            ticks_matches(r, ticks_add_months_outcome(self@, -(months.0 as int))),
    {
        let dt = match self.to_civil_utc() {
            Ok(dt) => dt,
            Err(e) => {
                return Err(e);
            },
        };
        let moved = match dt.checked_sub_months(months) {
            Ok(m) => m,
            Err(e) => {
                return Err(e);
            },
        };
        moved.to_ticks_utc()
    }

    /// Calendar-aware year stepping.
    pub fn checked_add_years(self, years: i32) -> (r: Result<Ticks, Error>)
        ensures
            ticks_matches(r, ticks_add_months_outcome(self@, years * 12)),
    {
        let dt = match self.to_civil_utc() {
            Ok(dt) => dt,
            Err(e) => {
                return Err(e);
            },
        };
        let moved = match dt.checked_add_years(years) {
            Ok(m) => m,
            Err(e) => {
                return Err(e);
            },
        };
        moved.to_ticks_utc()
    }

    /// The UTC civil date.
    pub fn date_utc(self) -> (r: Result<Date, Error>)
        ensures
            match civil_of_ns(self@, "instant") {
                Ok(v) => r is Ok && r->Ok_0@ == v.0,
                Err(k) => r is Err && r->Err_0.spec_kind() == k,
            },
    {
        match self.to_civil_utc() {
            Ok(dt) => Ok(dt.date()),
            Err(e) => Err(e),
        }
    }

    /// The UTC civil time-of-day.
    pub fn time_utc(self) -> (r: Result<TimeOfDay, Error>)
        ensures
            match civil_of_ns(self@, "instant") {
                Ok(v) => r is Ok && r->Ok_0@ == v.1,
                Err(k) => r is Err && r->Err_0.spec_kind() == k,
            },
    {
        match self.to_civil_utc() {
            Ok(dt) => Ok(dt.time()),
            Err(e) => Err(e),
        }
    }

    /// The UTC weekday.
    pub fn weekday_utc(self) -> (r: Result<Weekday, Error>)
        ensures
            match civil_of_ns(self@, "instant") {
                Ok(v) => r == Ok::<Weekday, Error>(weekday_of_days(v.0)),
                Err(k) => r is Err && r->Err_0.spec_kind() == k,
            },
    {
        match self.to_civil_utc() {
            Ok(dt) => Ok(dt.weekday()),
            Err(e) => Err(e),
        }
    }

    /// Attach a zone without shifting the instant.
    pub fn to_zoned(self, zone: Zone) -> (z: Zoned)
        ensures
            z@ == (self@, crate::zone::zone_secs(zone)),
    {
        Zoned::new(self, zone)
    }
}

/// The RFC 3339 rendering of an instant in UTC (`Z`); instants without a
/// civil reading fall back to the raw nanosecond count followed by `s`.
pub open spec fn ticks_rfc3339_text(ns: int, f: FractionDigits) -> Seq<u8> {
    match civil_of_ns(ns, "instant") {
        Ok(v) => rfc3339_text(v, 0, f),
        Err(_) => signed_text(ns) + seq![115u8],
    }
}

/// The instant named by an RFC 3339 timestamp: its civil reading taken as
/// UTC, shifted back by its offset.
pub open spec fn rfc3339_instant(b: Seq<u8>) -> Result<int, ErrorKind> {
    match scan_iso(b, true, true) {
        Err(f) => Err(f.0),
        Ok(v) => shift_outcome(
            civil_ns((v.0, v.1->Some_0)),
            -(v.2->Some_0 * 1_000_000_000),
        ),
    }
}

impl Ticks {
    fn rfc3339_bytes(self, fraction: FractionDigits) -> (b: Vec<u8>)
        ensures
            b@ == ticks_rfc3339_text(self@, fraction),
    {
        match self.to_civil_utc() {
            Ok(dt) => {
                let mut out = dt.iso_bytes(fraction);
                format_offset_into(&mut out, 0);
                out
            },
            Err(_) => {
                let mut out: Vec<u8> = Vec::new();
                write_signed_i128(&mut out, self.0);
                out.push(115u8);
                proof {
                    assert(out@ =~= ticks_rfc3339_text(self@, fraction));
                }
                out
            },
        }
    }

    /// RFC 3339 rendering with the requested fractional-second precision and
    /// the `Z` designator.
    pub fn to_rfc3339(self, fraction: FractionDigits) -> (s: String)
        ensures
            encode_utf8(s@) == ticks_rfc3339_text(self@, fraction),
    {
        let out = self.rfc3339_bytes(fraction);
        proof {
            match civil_of_ns(self@, "instant") {
                Ok(v) => crate::rendering::lemma_civil_text_ascii(v, 0, fraction),
                Err(_) => crate::rendering::lemma_signed_suffix_ascii(self@, seq![115u8]),
            }
            crate::rendering::lemma_ascii_valid(out@);
        }
        crate::text::string_from_utf8(out.as_slice())
    }

    /// RFC 3339 rendering into a caller-owned buffer; the number of bytes
    /// written, or a buffer overflow (buffer untouched).
    pub fn write_rfc3339(self, out: &mut [u8], fraction: FractionDigits) -> (r: Result<usize, Error>)
        ensures
            ticks_rfc3339_text(self@, fraction).len() <= old(out)@.len() ==> r == Ok::<usize, Error>(
                ticks_rfc3339_text(self@, fraction).len() as usize,
            ) && final(out)@ == ticks_rfc3339_text(self@, fraction) + old(out)@.subrange(
                ticks_rfc3339_text(self@, fraction).len() as int,
                old(out)@.len() as int,
            ),
            ticks_rfc3339_text(self@, fraction).len() > old(out)@.len() ==> r is Err && final(out)@
                == old(out)@,
    {
        copy_out(out, &self.rfc3339_bytes(fraction))
    }

    /// Parse a full RFC 3339 timestamp, normalizing to UTC.
    pub fn from_rfc3339(s: &str) -> (r: Result<Ticks, Error>)
        ensures
            match scan_iso(s.spec_bytes(), true, true) {
                Err(f) => fails(r, f),
                Ok(_) => ticks_matches(r, rfc3339_instant(s.spec_bytes())),
            },
    {
        let (date, time, offset) = match parse_rfc3339(s) {
            Ok(v) => v,
            Err(e) => {
                return Err(e);
            },
        };
        let utc = match CivilDateTime::new(date, time).to_ticks_utc() {
            Ok(t) => t,
            Err(e) => {
                return Err(e);
            },
        };
        utc.checked_sub(Duration::from_seconds(offset.as_seconds() as i64))
    }
}

/// The strftime rendering of an instant: its UTC civil reading, offset `Z`
/// (`+0000` for `%z`), zone name `UTC` and the Unix seconds when they fit.
pub open spec fn ticks_format_outcome(ns: int, f: Seq<u8>) -> Result<Seq<u8>, ErrorKind> {
    match civil_of_ns(ns, "instant") {
        Err(k) => Err(k),
        Ok(v) => crate::strftime::fmt_text(
            f,
            0,
            crate::strftime::civil_parts(v, Some(0i32), Some("UTC"), crate::strftime::timestamp_of(ns)),
        ),
    }
}

impl Ticks {
    fn format_bytes(self, fmt: &str) -> (r: Result<Vec<u8>, Error>)
        ensures
            match ticks_format_outcome(self@, fmt.spec_bytes()) {
                Ok(t) => r is Ok && r->Ok_0@ == t,
                Err(k) => r is Err && r->Err_0.spec_kind() == k,
            },
    {
        let dt = match self.to_civil_utc() {
            Ok(d) => d,
            Err(e) => {
                return Err(e);
            },
        };
        let ts = match self.timestamp() {
            Ok(v) => Some(v),
            Err(_) => None,
        };
        crate::strftime::format_bytes(fmt, dt, Some(0i32), Some("UTC"), ts)
    }

    /// strftime-style rendering in UTC (`%z` is `+0000`, `%Z` is `UTC`).
    pub fn format(self, fmt: &str) -> (r: Result<String, Error>)
        ensures
            crate::strftime::text_matches(r, ticks_format_outcome(self@, fmt.spec_bytes())),
    {
        proof {
            crate::rendering::law_format_output_is_text(fmt);
        }
        crate::strftime::text_of(self.format_bytes(fmt))
    }

    /// strftime-style rendering into a caller-owned buffer.
    pub fn write_format(self, fmt: &str, out: &mut [u8]) -> (r: Result<usize, Error>)
        ensures
            crate::strftime::written(r, old(out)@, final(out)@, ticks_format_outcome(self@, fmt.spec_bytes())),
    {
        crate::strftime::write_out(self.format_bytes(fmt), out)
    }

    /// Parse with a strftime-style format string; the civil path requires a
    /// timezone offset.
    pub fn parse_from_str(s: &str, fmt: &str) -> (r: Result<Ticks, Error>)
        ensures
            match crate::strftime::parse_outcome(fmt.spec_bytes(), s.spec_bytes()) {
                Err(f) => fails(r, f),
                Ok(pp) => ticks_matches(r, crate::strftime::instant_outcome(pp)),
            },
    {
        match crate::strftime::parse_parts(fmt.as_bytes(), s.as_bytes()) {
            Ok(pp) => pp.to_ticks(),
            Err(e) => Err(e),
        }
    }
}

/// The RFC 2822 rendering of an instant in UTC; instants without a civil
/// reading fall back to the raw nanosecond count followed by ` +0000`.
pub open spec fn ticks_rfc2822_text(ns: int) -> Seq<u8> {
    match civil_of_ns(ns, "instant") {
        Ok(v) => crate::strftime::rfc2822_text(v, 0),
        Err(_) => signed_text(ns) + seq![32u8, 43u8, 48u8, 48u8, 48u8, 48u8],
    }
}

/// The instant named by an RFC 2822 date: its civil reading taken as UTC,
/// shifted back by its zone's offset.
pub open spec fn rfc2822_instant(v: (int, int, int)) -> Result<int, ErrorKind> {
    shift_outcome(civil_ns((v.0, v.1)), -(v.2 * 1_000_000_000))
}

impl Ticks {
    fn rfc2822_bytes(self) -> (b: Vec<u8>)
        ensures
            b@ == ticks_rfc2822_text(self@),
    {
        match self.to_civil_utc() {
            Ok(dt) => crate::strftime::format_rfc2822(dt, 0),
            Err(_) => {
                let mut out: Vec<u8> = Vec::new();
                write_signed_i128(&mut out, self.0);
                out.push(32u8);
                out.push(43u8);
                out.push(48u8);
                out.push(48u8);
                out.push(48u8);
                out.push(48u8);
                proof {
                    assert(out@ =~= ticks_rfc2822_text(self@));
                }
                out
            },
        }
    }

    /// RFC 2822 rendering in UTC (email and HTTP header dates).
    pub fn to_rfc2822(self) -> (s: String)
        ensures
            encode_utf8(s@) == ticks_rfc2822_text(self@),
    {
        let out = self.rfc2822_bytes();
        proof {
            match civil_of_ns(self@, "instant") {
                Ok(v) => crate::rendering::lemma_rfc2822_text_valid(v, 0),
                Err(_) => {
                    crate::rendering::lemma_signed_suffix_ascii(
                        self@,
                        seq![32u8, 43u8, 48u8, 48u8, 48u8, 48u8],
                    );
                    crate::rendering::lemma_ascii_valid(out@);
                },
            }
        }
        crate::text::string_from_utf8(out.as_slice())
    }

    /// RFC 2822 rendering into a caller-owned buffer.
    pub fn write_rfc2822(self, out: &mut [u8]) -> (r: Result<usize, Error>)
        ensures
            crate::strftime::written(r, old(out)@, final(out)@, Ok(ticks_rfc2822_text(self@))),
    {
        copy_out(out, &self.rfc2822_bytes())
    }

    /// Parse an RFC 2822 date-time, normalizing to UTC.
    pub fn from_rfc2822(s: &str) -> (r: Result<Ticks, Error>)
        ensures
            match crate::strftime::rfc2822_outcome(s.spec_bytes()) {
                Err(f) => fails(r, f),
                Ok(v) => ticks_matches(r, rfc2822_instant(v)),
            },
    {
        let (date, time, offset) = match crate::strftime::parse_rfc2822(s) {
            Ok(v) => v,
            Err(e) => {
                return Err(e);
            },
        };
        let utc = match CivilDateTime::new(date, time).to_ticks_utc() {
            Ok(t) => t,
            Err(e) => {
                return Err(e);
            },
        };
        utc.checked_sub(Duration::from_seconds(offset.as_seconds() as i64))
    }
}

impl Ticks {
    /// What `Display` writes: RFC 3339 in UTC with the shortest exact
    /// fraction, or the raw nanosecond count and `s` for an instant with no
    /// civil reading.
    pub fn to_string(self) -> (s: String)
        ensures
            encode_utf8(s@) == ticks_rfc3339_text(self@, FractionDigits::Auto),
    {
        self.to_rfc3339(FractionDigits::Auto)
    }
}

impl core::str::FromStr for Ticks {
    type Err = Error;

    fn from_str(s: &str) -> (r: Result<Ticks, Error>)
        ensures
            match scan_iso(s.spec_bytes(), true, true) {
                Err(f) => fails(r, f),
                Ok(_) => ticks_matches(r, rfc3339_instant(s.spec_bytes())),
            },
    {
        Ticks::from_rfc3339(s)
    }
}

} // verus!
