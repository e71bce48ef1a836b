//! Zoned instants: [`Zoned`].
//!
//! A `Zoned` is an instant on the timeline plus the zone it is read through.
//! The instant is always stored in UTC; the zone only changes how the civil
//! reading is projected. Month and year arithmetic is zone-aware: it works on
//! the local civil reading and re-anchors.

use vstd::prelude::*;
use vstd::utf8::encode_utf8;
use vstd::string::StringSliceAdditionalSpecFns;
use crate::format::{
    copy_out, format_offset_into, offset_text, parse_rfc3339, rfc3339_text,
    scan_iso, signed_text, write_signed_i128, FractionDigits,
};
use crate::scan::fails;

use crate::date::{add_months_outcome, Date};
use crate::datetime::{civil_matches, civil_valid, CivilDateTime};
use crate::duration::{fits_i128, fits_i64, is_out_of_range, is_overflow, saturate_i128, Duration};
use crate::error::{Error, ErrorKind};
use crate::offset::Offset;
use crate::ticks::{
    civil_ns, civil_of_ns, law_civil_projection_round_trip, shift_outcome, ticks_matches, Ticks,
};
use crate::time::TimeOfDay;
use crate::units::{Days, Months};
use crate::zone::{canonical_zone, zone_secs, Zone};

verus! {

/// An instant on the timeline read through a specific [`Zone`].
#[derive(Clone, Copy, Debug, PartialEq, Eq, Hash)]
pub struct Zoned {
    ticks: Ticks,
    zone: Zone,
}

impl View for Zoned {
    type V = (int, int);

    /// `(UTC nanoseconds since the epoch, offset seconds of the zone)`.
    closed spec fn view(&self) -> (int, int) {
        (self.ticks@, zone_secs(self.zone))
    }
}

/// The local civil reading of the zoned instant `v`: the instant shifted by
/// the offset, then projected.
pub open spec fn zoned_civil_outcome(v: (int, int)) -> Result<(int, int), ErrorKind> {
    match shift_outcome(v.0, v.1 * 1_000_000_000) {
        Err(k) => Err(k),
        Ok(ns) => civil_of_ns(ns, "instant"),
    }
}

/// Anchoring the local reading `c` in a zone of `secs` offset seconds.
pub open spec fn anchor_outcome(c: (int, int), secs: int) -> Result<int, ErrorKind> {
    shift_outcome(civil_ns(c), -(secs * 1_000_000_000))
}

/// Zone-aware month stepping: step the local reading, keep its time of day,
/// re-anchor in the same zone.
pub open spec fn zoned_add_months_outcome(v: (int, int), k: int) -> Result<int, ErrorKind> {
    match zoned_civil_outcome(v) {
        Err(e) => Err(e),
        Ok(c) => match add_months_outcome(c.0, k) {
            None => Err(ErrorKind::Overflow),
            Some(Err(x)) => Err(ErrorKind::OutOfRange(x)),
            Some(Ok(z)) => anchor_outcome((z, c.1), v.1),
        },
    }
}

/// A zoned result agrees with an instant outcome in a zone of `secs`
/// offset seconds.
pub open spec fn zoned_matches(r: Result<Zoned, Error>, o: Result<int, ErrorKind>, secs: int) -> bool {
    match o {
        Ok(t) => r is Ok && r->Ok_0@ == (t, secs),
        Err(k) => r is Err && r->Err_0.spec_kind() == k,
    }
}

/// Anchoring a local reading in a zone and reading it back through the same
/// zone gives the reading back.
pub proof fn law_anchor_then_read(c: (int, int), secs: int)
    requires
        civil_valid(c),
        anchor_outcome(c, secs) is Ok,
    ensures
        zoned_civil_outcome((anchor_outcome(c, secs)->Ok_0, secs)) == Ok::<(int, int), ErrorKind>(c),
{
    law_civil_projection_round_trip(c.0, c.1);
    assert(fits_i128(civil_ns(c))) by {
        assert(civil_ns(c) == c.0 * 86_400_000_000_000 + c.1);
        assert(-0x8000_0000 * 86_400_000_000_000 <= c.0 * 86_400_000_000_000
            <= 0x7fff_ffff * 86_400_000_000_000) by (nonlinear_arith)
            requires
                -0x8000_0000 <= c.0 <= 0x7fff_ffff,
        ;
    }
}

/// Zone-aware month stepping keeps the local time of day.
pub proof fn law_month_step_keeps_local_time(v: (int, int), k: int)
    requires
        zoned_add_months_outcome(v, k) is Ok,
    ensures
        zoned_civil_outcome(v) is Ok,
        zoned_civil_outcome((zoned_add_months_outcome(v, k)->Ok_0, v.1)) is Ok,
        zoned_civil_outcome((zoned_add_months_outcome(v, k)->Ok_0, v.1))->Ok_0.1
            == zoned_civil_outcome(v)->Ok_0.1,
{
    let c = zoned_civil_outcome(v)->Ok_0;
    let ns = shift_outcome(v.0, v.1 * 1_000_000_000)->Ok_0;
    crate::ticks::law_utc_projection_round_trip(ns);
    let z = add_months_outcome(c.0, k)->Some_0->Ok_0;
    law_anchor_then_read((z, c.1), v.1);
}

impl Zoned {
    #[verifier::type_invariant]
    spec fn canonical(self) -> bool {
        canonical_zone(self.zone)
    }

    /// Build from an instant and a zone (the instant is not shifted).
    pub fn new(ticks: Ticks, zone: Zone) -> (z: Zoned)
        ensures
            z@ == (ticks@, zone_secs(zone)),
    {
        Zoned { ticks, zone: Zone::fixed(zone.offset()) }
    }

    /// Build from an instant carried as `Ticks`.
    pub fn from_ticks(ticks: Ticks, zone: Zone) -> (z: Zoned)
        ensures
            z@ == (ticks@, zone_secs(zone)),
    {
        Zoned::new(ticks, zone)
    }

    /// Interpret a civil reading as local time in `zone` and anchor it
    /// (`12:00` local at `+08:00` becomes `04:00` UTC).
    pub fn from_civil(civil: CivilDateTime, zone: Zone) -> (r: Result<Zoned, Error>)
        ensures
            zoned_matches(r, anchor_outcome(civil@, zone_secs(zone)), zone_secs(zone)),
    {
        let utc = match civil.to_ticks_utc() {
            Ok(t) => t,
            Err(e) => {
                return Err(e);
            },
        };
        let off = zone.offset();
        let shifted = match utc.checked_sub(Duration::from_seconds(off.as_seconds() as i64)) {
            Ok(t) => t,
            Err(e) => {
                return Err(e);
            },
        };
        Ok(Zoned { ticks: shifted, zone: Zone::fixed(off) })
    }

    /// The underlying UTC instant.
    pub fn ticks(self) -> (t: Ticks)
        ensures
            t@ == self@.0,
    {
        self.ticks
    }

    /// The zone (canonical: a zero offset is [`Zone::Utc`]).
    pub fn zone(self) -> (z: Zone)
        ensures
            zone_secs(z) == self@.1,
            canonical_zone(z),
    {
        proof {
            use_type_invariant(&self);
        }
        self.zone
    }

    /// The offset this zone applies.
    pub fn offset(self) -> (o: Offset)
        ensures
            o@ == self@.1,
    {
        self.zone.offset()
    }

    /// Drop the zone and return the UTC instant.
    pub fn to_utc(self) -> (t: Ticks)
        ensures
            t@ == self@.0,
    {
        self.ticks
    }

    /// The local civil reading (date and time) through this zone.
    pub fn civil(self) -> (r: Result<CivilDateTime, Error>)
        ensures
            civil_matches(r, zoned_civil_outcome(self@)),
    {
        let secs = self.offset().as_seconds();
        let shifted = match self.ticks.checked_add(Duration::from_seconds(secs as i64)) {
            Ok(t) => t,
            Err(e) => {
                return Err(e);
            },
        };
        shifted.to_civil_utc()
    }

    /// The local date.
    pub fn date(self) -> (r: Result<Date, Error>)
        ensures
            match zoned_civil_outcome(self@) {
                Ok(c) => r is Ok && r->Ok_0@ == c.0,
                Err(k) => r is Err && r->Err_0.spec_kind() == k,
            },
    {
        match self.civil() {
            Ok(c) => Ok(c.date()),
            Err(e) => Err(e),
        }
    }

    /// The local time of day.
    pub fn time(self) -> (r: Result<TimeOfDay, Error>)
        ensures
            match zoned_civil_outcome(self@) {
                Ok(c) => r is Ok && r->Ok_0@ == c.1,
                Err(k) => r is Err && r->Err_0.spec_kind() == k,
            },
    {
        match self.civil() {
            Ok(c) => Ok(c.time()),
            Err(e) => Err(e),
        }
    }

    /// Checked duration addition on the instant; the zone is kept.
    pub fn checked_add(self, delta: Duration) -> (r: Result<Zoned, Error>)
        ensures
            zoned_matches(r, shift_outcome(self@.0, delta@), self@.1),
    {
        proof {
            use_type_invariant(&self);
        }
        match self.ticks.checked_add(delta) {
            Ok(t) => Ok(Zoned { ticks: t, zone: self.zone }),
            Err(e) => Err(e),
        }
    }

    /// Checked duration subtraction on the instant.
    pub fn checked_sub(self, delta: Duration) -> (r: Result<Zoned, Error>)
        ensures
            delta@ == i128::MIN ==> is_overflow(r),
            delta@ != i128::MIN ==> zoned_matches(r, shift_outcome(self@.0, -delta@), self@.1),
    {
        match delta.checked_neg() {
            Ok(n) => self.checked_add(n),
            Err(e) => Err(e),
        }
    }

    /// Alias for [`Zoned::checked_add`] (chrono-compatible name).
    pub fn checked_add_signed(self, rhs: Duration) -> (r: Result<Zoned, Error>)
        ensures
            zoned_matches(r, shift_outcome(self@.0, rhs@), self@.1),
    {
        self.checked_add(rhs)
    }

    /// Alias for [`Zoned::checked_sub`] (chrono-compatible name).
    pub fn checked_sub_signed(self, rhs: Duration) -> (r: Result<Zoned, Error>)
        ensures
            rhs@ == i128::MIN ==> is_overflow(r),
            rhs@ != i128::MIN ==> zoned_matches(r, shift_outcome(self@.0, -rhs@), self@.1),
    {
        self.checked_sub(rhs)
    }

    /// The signed duration between `earlier` and `self`, saturating.
    pub fn signed_duration_since(self, earlier: Zoned) -> (d: Duration)
        ensures
            d@ == saturate_i128(self@.0 - earlier@.0),
    {
        self.ticks.duration_since(earlier.ticks)
    }

    /// Checked day offset on the instant.
    pub fn checked_add_days(self, days: Days) -> (r: Result<Zoned, Error>)
        ensures
            days.0 > i64::MAX ==> is_out_of_range(r, "days"),
            days.0 <= i64::MAX ==> zoned_matches(
                r,
                shift_outcome(self@.0, days.0 * 86_400_000_000_000),
                self@.1,
            ),
    {
        let n = days.get();
        if n > i64::MAX as u64 {
            return Err(Error::out_of_range("days"));
        }
        self.checked_add(Duration::from_days(n as i64))
    }

    /// Checked day offset in the negative direction.
    pub fn checked_sub_days(self, days: Days) -> (r: Result<Zoned, Error>)
        ensures
            days.0 > i64::MAX ==> is_out_of_range(r, "days"),
            days.0 <= i64::MAX ==> zoned_matches(
                r,
                shift_outcome(self@.0, -(days.0 * 86_400_000_000_000)),
                self@.1,
            ),
    {
        let n = days.get();
        if n > i64::MAX as u64 {
            return Err(Error::out_of_range("days"));
        }
        self.checked_sub(Duration::from_days(n as i64))
    }

    /// Zone-aware month stepping: adjust the local civil reading, re-anchor.
    pub fn checked_add_months(self, months: Months) -> (r: Result<Zoned, Error>)
        ensures
            zoned_matches(r, zoned_add_months_outcome(self@, months.0 as int), self@.1),
    {
        let civil = match self.civil() {
            Ok(c) => c,
            Err(e) => {
                return Err(e);
            },
        };
        match civil.checked_add_months(months) {
            Ok(c) => Zoned::from_civil(c, self.zone),
            Err(e) => Err(e),
        }
    }

    /// Zone-aware month stepping in the negative direction.
    pub fn checked_sub_months(self, months: Months) -> (r: Result<Zoned, Error>)
        ensures
            zoned_matches(r, zoned_add_months_outcome(self@, -(months.0 as int)), self@.1),
    {
        let civil = match self.civil() {
            Ok(c) => c,
            Err(e) => {
                return Err(e);
            },
        };
        match civil.checked_sub_months(months) {
            Ok(c) => Zoned::from_civil(c, self.zone),
            Err(e) => Err(e),
        }
    }

    /// Zone-aware year stepping.
    pub fn checked_add_years(self, years: i32) -> (r: Result<Zoned, Error>)
        ensures
            zoned_matches(r, zoned_add_months_outcome(self@, years * 12), self@.1),
    {
        let civil = match self.civil() {
            Ok(c) => c,
            Err(e) => {
                return Err(e);
            },
        };
        match civil.checked_add_years(years) {
            Ok(c) => Zoned::from_civil(c, self.zone),
            Err(e) => Err(e),
        }
    }

    /// Whole seconds since the epoch, flooring.
    pub fn timestamp(self) -> (r: Result<i64, Error>)
        ensures
            fits_i64(self@.0 / 1_000_000_000) ==> r == Ok::<i64, Error>(
                (self@.0 / 1_000_000_000) as i64,
            ),
            !fits_i64(self@.0 / 1_000_000_000) ==> is_out_of_range(r, "instant"),
    {
        self.ticks.timestamp()
    }

    /// Whole milliseconds since the epoch, flooring.
    pub fn timestamp_millis(self) -> (r: Result<i64, Error>)
        ensures
            fits_i64(self@.0 / 1_000_000) ==> r == Ok::<i64, Error>((self@.0 / 1_000_000) as i64),
            !fits_i64(self@.0 / 1_000_000) ==> is_out_of_range(r, "instant"),
    {
        self.ticks.timestamp_millis()
    }

    /// Whole microseconds since the epoch, flooring.
    pub fn timestamp_micros(self) -> (r: Result<i64, Error>)
        ensures
            fits_i64(self@.0 / 1_000) ==> r == Ok::<i64, Error>((self@.0 / 1_000) as i64),
            !fits_i64(self@.0 / 1_000) ==> is_out_of_range(r, "instant"),
    {
        self.ticks.timestamp_micros()
    }

    /// Nanoseconds since the epoch as `i64`.
    pub fn timestamp_nanos(self) -> (r: Result<i64, Error>)
        ensures
            fits_i64(self@.0) ==> r == Ok::<i64, Error>(self@.0 as i64),
            !fits_i64(self@.0) ==> is_out_of_range(r, "instant"),
    {
        self.ticks.timestamp_nanos()
    }

    /// Re-read the same instant through a different zone.
    pub fn with_zone(self, zone: Zone) -> (z: Zoned)
        ensures
            z@ == (self@.0, zone_secs(zone)),
    {
        Zoned { ticks: self.ticks, zone: Zone::fixed(zone.offset()) }
    }
}

/// The RFC 3339 rendering of a zoned instant with its local offset; when the
/// local reading does not exist, the raw UTC nanosecond count followed by
/// the offset.
pub open spec fn zoned_rfc3339_text(v: (int, int), f: FractionDigits) -> Seq<u8> {
    match zoned_civil_outcome(v) {
        Ok(c) => rfc3339_text(c, v.1, f),
        Err(_) => signed_text(v.0) + offset_text(v.1),
    }
}

impl Zoned {
    fn rfc3339_bytes(self, fraction: FractionDigits) -> (b: Vec<u8>)
        ensures
            b@ == zoned_rfc3339_text(self@, fraction),
    {
        let secs = self.offset().as_seconds();
        match self.civil() {
            Ok(dt) => {
                let mut out = dt.iso_bytes(fraction);
                format_offset_into(&mut out, secs);
                out
            },
            Err(_) => {
                let mut out: Vec<u8> = Vec::new();
                write_signed_i128(&mut out, self.ticks.as_unix_nanos());
                format_offset_into(&mut out, secs);
                out
            },
        }
    }

    /// RFC 3339 rendering with the local offset designator.
    pub fn to_rfc3339(self, fraction: FractionDigits) -> (s: String)
        ensures
            encode_utf8(s@) == zoned_rfc3339_text(self@, fraction),
    {
        let out = self.rfc3339_bytes(fraction);
        proof {
            crate::rendering::lemma_offset_iso_ascii(self@.1);
            match zoned_civil_outcome(self@) {
                Ok(c) => crate::rendering::lemma_civil_text_ascii(c, self@.1, fraction),
                Err(_) => crate::rendering::lemma_signed_suffix_ascii(self@.0, offset_text(self@.1)),
            }
            crate::rendering::lemma_ascii_valid(out@);
        }
        crate::text::string_from_utf8(out.as_slice())
    }

    /// RFC 3339 rendering into a caller-owned buffer; the number of bytes
    /// written, or a buffer overflow (buffer untouched).
    pub fn write_rfc3339(self, out: &mut [u8], fraction: FractionDigits) -> (r: Result<usize, Error>)
        ensures
            zoned_rfc3339_text(self@, fraction).len() <= old(out)@.len() ==> r == Ok::<usize, Error>(
                zoned_rfc3339_text(self@, fraction).len() as usize,
            ) && final(out)@ == zoned_rfc3339_text(self@, fraction) + old(out)@.subrange(
                zoned_rfc3339_text(self@, fraction).len() as int,
                old(out)@.len() as int,
            ),
            zoned_rfc3339_text(self@, fraction).len() > old(out)@.len() ==> r is Err && final(out)@
                == old(out)@,
    {
        copy_out(out, &self.rfc3339_bytes(fraction))
    }

    /// Parse a full RFC 3339 timestamp with an explicit offset; the offset
    /// becomes the zone (a zero offset normalizes to UTC).
    pub fn from_rfc3339(s: &str) -> (r: Result<Zoned, Error>)
        ensures
            match scan_iso(s.spec_bytes(), true, true) {
                Err(f) => fails(r, f),
                Ok(v) => zoned_matches(
                    r,
                    anchor_outcome((v.0, v.1->Some_0), v.2->Some_0 as int),
                    v.2->Some_0 as int,
                ),
            },
    {
        let (date, time, offset) = match parse_rfc3339(s) {
            Ok(v) => v,
            Err(e) => {
                return Err(e);
            },
        };
        Zoned::from_civil(CivilDateTime::new(date, time), Zone::fixed(offset))
    }
}

/// The strftime rendering of a zoned instant: its local civil reading, its
/// offset, the zone name `UTC` for the UTC zone, and the Unix seconds when
/// they fit.
pub open spec fn zoned_format_outcome(v: (int, int), f: Seq<u8>) -> Result<Seq<u8>, ErrorKind> {
    match zoned_civil_outcome(v) {
        Err(k) => Err(k),
        Ok(c) => crate::strftime::fmt_text(
            f,
            0,
            crate::strftime::civil_parts(
                c,
                Some(v.1 as i32),
                if v.1 == 0 {
                    Some("UTC")
                } else {
                    None
                },
                crate::strftime::timestamp_of(v.0),
            ),
        ),
    }
}

impl Zoned {
    fn format_bytes(self, fmt: &str) -> (r: Result<Vec<u8>, Error>)
        ensures
            match zoned_format_outcome(self@, fmt.spec_bytes()) {
                Ok(t) => r is Ok && r->Ok_0@ == t,
                Err(k) => r is Err && r->Err_0.spec_kind() == k,
            },
    {
        let dt = match self.civil() {
            Ok(d) => d,
            Err(e) => {
                return Err(e);
            },
        };
        let secs = self.offset().as_seconds();
        let zone_name: Option<&'static str> = if secs == 0 {
            Some("UTC")
        } else {
            None
        };
        let ts = match self.ticks.timestamp() {
            Ok(v) => Some(v),
            Err(_) => None,
        };
        crate::strftime::format_bytes(fmt, dt, Some(secs), zone_name, ts)
    }

    /// strftime-style rendering in local time.
    pub fn format(self, fmt: &str) -> (r: Result<String, Error>)
        ensures
            crate::strftime::text_matches(r, zoned_format_outcome(self@, fmt.spec_bytes())),
    {
        proof {
            crate::rendering::law_format_output_is_text(fmt);
        }
        crate::strftime::text_of(self.format_bytes(fmt))
    }

    /// strftime-style rendering into a caller-owned buffer.
    pub fn write_format(self, fmt: &str, out: &mut [u8]) -> (r: Result<usize, Error>)
        ensures
            crate::strftime::written(r, old(out)@, final(out)@, zoned_format_outcome(self@, fmt.spec_bytes())),
    {
        crate::strftime::write_out(self.format_bytes(fmt), out)
    }

    /// Parse with a strftime-style format string: the parsed offset (UTC
    /// when absent) becomes the zone.
    pub fn parse_from_str(s: &str, fmt: &str) -> (r: Result<Zoned, Error>)
        ensures
            match crate::strftime::parsed_then(
                fmt.spec_bytes(),
                s.spec_bytes(),
                |pp| crate::strftime::zoned_outcome(pp),
            ) {
                Ok(v) => r is Ok && r->Ok_0@ == v,
                Err(f) => fails(r, f),
            },
    {
        let pp = match crate::strftime::parse_parts(fmt.as_bytes(), s.as_bytes()) {
            Ok(pp) => pp,
            Err(e) => {
                return Err(e);
            },
        };
        let secs: i32 = match pp.offset {
            Some(o) => o,
            None => 0,
        };
        let offset = match Offset::from_seconds(secs) {
            Ok(o) => o,
            Err(e) => {
                return Err(e);
            },
        };
        if let Some(ts) = pp.timestamp {
            return match Ticks::from_timestamp(ts, 0) {
                Ok(t) => Ok(Zoned::new(t, Zone::fixed(offset))),
                Err(e) => Err(e),
            };
        }
        let civil = match pp.to_civil() {
            Ok(c) => c,
            Err(e) => {
                return Err(e);
            },
        };
        Zoned::from_civil(civil, Zone::fixed(offset))
    }
}

/// The RFC 2822 rendering of a zoned instant in local time; when the local
/// reading does not exist, the raw UTC nanosecond count followed by the ISO
/// offset.
pub open spec fn zoned_rfc2822_text(v: (int, int)) -> Seq<u8> {
    match zoned_civil_outcome(v) {
        Ok(c) => crate::strftime::rfc2822_text(c, v.1),
        Err(_) => signed_text(v.0) + offset_text(v.1),
    }
}

impl Zoned {
    fn rfc2822_bytes(self) -> (b: Vec<u8>)
        ensures
            b@ == zoned_rfc2822_text(self@),
    {
        let secs = self.offset().as_seconds();
        match self.civil() {
            Ok(dt) => crate::strftime::format_rfc2822(dt, secs),
            Err(_) => {
                let mut out: Vec<u8> = Vec::new();
                write_signed_i128(&mut out, self.ticks.as_unix_nanos());
                format_offset_into(&mut out, secs);
                out
            },
        }
    }

    /// RFC 2822 rendering in local time.
    pub fn to_rfc2822(self) -> (s: String)
        ensures
            encode_utf8(s@) == zoned_rfc2822_text(self@),
    {
        let out = self.rfc2822_bytes();
        proof {
            match zoned_civil_outcome(self@) {
                Ok(c) => crate::rendering::lemma_rfc2822_text_valid(c, self@.1),
                Err(_) => {
                    crate::rendering::lemma_offset_iso_ascii(self@.1);
                    crate::rendering::lemma_signed_suffix_ascii(self@.0, offset_text(self@.1));
                    crate::rendering::lemma_ascii_valid(out@);
                },
            }
        }
        crate::text::string_from_utf8(out.as_slice())
    }

    /// RFC 2822 rendering into a caller-owned buffer.
    pub fn write_rfc2822(self, out: &mut [u8]) -> (r: Result<usize, Error>)
        ensures
            crate::strftime::written(r, old(out)@, final(out)@, Ok(zoned_rfc2822_text(self@))),
    {
        copy_out(out, &self.rfc2822_bytes())
    }

    /// Parse an RFC 2822 date-time with its zone.
    pub fn from_rfc2822(s: &str) -> (r: Result<Zoned, Error>)
        ensures
            match crate::strftime::rfc2822_outcome(s.spec_bytes()) {
                Err(f) => fails(r, f),
                Ok(v) => zoned_matches(r, anchor_outcome((v.0, v.1), v.2), v.2),
            },
    {
        let (date, time, offset) = match crate::strftime::parse_rfc2822(s) {
            Ok(v) => v,
            Err(e) => {
                return Err(e);
            },
        };
        Zoned::from_civil(CivilDateTime::new(date, time), Zone::fixed(offset))
    }
}

impl Zoned {
    /// What `Display` writes: RFC 3339 with the local offset and the
    /// shortest exact fraction, or the raw nanosecond count and the offset
    /// when the local reading does not exist.
    pub fn to_string(self) -> (s: String)
        ensures
            encode_utf8(s@) == zoned_rfc3339_text(self@, FractionDigits::Auto),
    {
        self.to_rfc3339(FractionDigits::Auto)
    }
}

impl core::str::FromStr for Zoned {
    type Err = Error;

    fn from_str(s: &str) -> (r: Result<Zoned, Error>)
        ensures
            match scan_iso(s.spec_bytes(), true, true) {
                Err(f) => fails(r, f),
                Ok(v) => zoned_matches(
                    r,
                    anchor_outcome((v.0, v.1->Some_0), v.2->Some_0 as int),
                    v.2->Some_0 as int,
                ),
            },
    {
        Zoned::from_rfc3339(s)
    }
}

} // verus!
