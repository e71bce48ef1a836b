//! UTC offset: [`Offset`].
//!
//! An offset is a signed whole-second displacement from UTC, constrained to
//! the open interval `(-24h, 24h)`: no transitions, no rules, just "how far
//! is this clock from UTC".

use vstd::prelude::*;
use vstd::utf8::encode_utf8;
use vstd::string::StringSliceAdditionalSpecFns;
use crate::format::{buffer_outcome, copy_out, format_offset_into, offset_iso_outcome, offset_text, parse_offset_iso};
use crate::scan::fails;

use crate::duration::is_out_of_range;
use crate::error::{Error, ErrorKind};

verus! {

/// A UTC offset in seconds.
#[derive(Clone, Copy, Debug, PartialEq, Eq, PartialOrd, Ord, Hash)]
pub struct Offset(i32);

impl View for Offset {
    type V = int;

    /// Seconds east of UTC.
    closed spec fn view(&self) -> int {
        self.0 as int
    }
}

/// Whether `s` seconds is a valid offset (strictly inside a day).
pub open spec fn valid_offset_secs(s: int) -> bool {
    -86_400 < s < 86_400
}

/// The signed total of `hours` (carrying the sign) plus minutes and seconds
/// as magnitudes: `from_hms(-8, 30, 15)` is `-(8h 30m 15s)`.
pub open spec fn signed_hms_total(h: int, m: int, s: int) -> int {
    let mag = (if h < 0 {
        -h
    } else {
        h
    }) * 3600 + m * 60 + s;
    if h < 0 {
        -mag
    } else {
        mag
    }
}

/// The error of a result is "invalid offset".
pub open spec fn is_invalid_offset<T>(r: Result<T, Error>) -> bool {
    r is Err && r->Err_0.spec_kind() == ErrorKind::InvalidOffset
}

impl Offset {
    #[verifier::type_invariant]
    spec fn within_day(self) -> bool {
        valid_offset_secs(self.0 as int)
    }

    /// The zero offset.
    pub fn utc() -> (o: Offset)
        ensures
            o@ == 0,
    {
        Offset(0)
    }

    /// Build from a whole-second offset; `None` outside `(-24h, 24h)`.
    pub fn from_seconds_opt(seconds: i32) -> (r: Option<Offset>)
        ensures
            valid_offset_secs(seconds as int) ==> (r is Some && r->Some_0@ == seconds),
            !valid_offset_secs(seconds as int) ==> r is None,
    {
        if seconds <= -86_400 || seconds >= 86_400 {
            return None;
        }
        Some(Offset(seconds))
    }

    /// Build from a whole-second offset; fails outside `(-24h, 24h)`.
    pub fn from_seconds(seconds: i32) -> (r: Result<Offset, Error>)
        ensures
            valid_offset_secs(seconds as int) ==> (r is Ok && r->Ok_0@ == seconds),
            !valid_offset_secs(seconds as int) ==> is_invalid_offset(r),
    {
        match Self::from_seconds_opt(seconds) {
            Some(offset) => Ok(offset),
            None => Err(Error::invalid_offset()),
        }
    }

    /// Build from signed hours plus minutes and seconds.
    ///
    /// `hours` carries the sign and the whole offset shares it
    /// (`from_hms(-8, 30, 15)` is `-08:30:15`); minutes and seconds are
    /// magnitudes. The total must stay inside `(-24h, 24h)`.
    pub fn from_hms(hours: i32, minutes: u32, seconds: u32) -> (r: Result<Offset, Error>)
        ensures
            minutes >= 60 ==> is_out_of_range(r, "minute"),
            minutes < 60 && seconds >= 60 ==> is_out_of_range(r, "second"),
            minutes < 60 && seconds < 60 && valid_offset_secs(
                signed_hms_total(hours as int, minutes as int, seconds as int),
            ) ==> (r is Ok && r->Ok_0@ == signed_hms_total(
                hours as int,
                minutes as int,
                seconds as int,
            )),
            minutes < 60 && seconds < 60 && !valid_offset_secs(
                signed_hms_total(hours as int, minutes as int, seconds as int),
            ) ==> is_invalid_offset(r),
    {
        if minutes >= 60 {
            return Err(Error::out_of_range("minute"));
        }
        if seconds >= 60 {
            return Err(Error::out_of_range("second"));
        }
        let sign: i64 = if hours < 0 {
            -1
        } else {
            1
        };
        let habs: i64 = if hours < 0 {
            -(hours as i64)
        } else {
            hours as i64
        };
        let magnitude = habs * 3600 + minutes as i64 * 60 + seconds as i64;
        let total = sign * magnitude;
        if total < i32::MIN as i64 || total > i32::MAX as i64 {
            return Err(Error::invalid_offset());
        }
        Self::from_seconds(total as i32)
    }

    /// Whole-second displacement.
    pub fn as_seconds(self) -> (s: i32)
        ensures
            s == self@,
            valid_offset_secs(s as int),
    {
        proof {
            use_type_invariant(&self);
        }
        self.0
    }

    /// `(signed_hours, minutes, seconds)`: the hours carry the sign, minutes
    /// and seconds are magnitudes.
    pub fn as_hms(self) -> (p: (i32, u32, u32))
        ensures
            ({
                let a = if self@ < 0 {
                    -self@
                } else {
                    self@
                };
                &&& p.0 == (if self@ < 0 {
                    -(a / 3600)
                } else {
                    a / 3600
                })
                &&& p.1 == (a / 60) % 60
                &&& p.2 == a % 60
            }),
    {
        proof {
            use_type_invariant(&self);
        }
        let abs: u32 = if self.0 < 0 {
            (-self.0) as u32
        } else {
            self.0 as u32
        };
        let h = (abs / 3600) as i32;
        (if self.0 < 0 {
            -h
        } else {
            h
        }, (abs / 60) % 60, abs % 60)
    }

    /// Whether this is exactly UTC.
    pub fn is_utc(self) -> (b: bool)
        ensures
            b == (self@ == 0),
    {
        self.0 == 0
    }

    /// The mirrored offset.
    pub fn negate(self) -> (o: Offset)
        ensures
            o@ == -self@,
    {
        proof {
            use_type_invariant(&self);
        }
        Offset(-self.0)
    }
}

impl Offset {
    /// ISO 8601 rendering: `Z` for UTC, else `+HH:MM` (`:SS` when nonzero).
    pub fn to_iso(self) -> (s: String)
        ensures
            encode_utf8(s@) == offset_text(self@),
    {
        let mut out: Vec<u8> = Vec::new();
        format_offset_into(&mut out, self.as_seconds());
        proof {
            crate::rendering::lemma_offset_iso_ascii(self@);
            crate::rendering::lemma_ascii_valid(out@);
        }
        crate::text::string_from_utf8(out.as_slice())
    }

    /// Parse `Z`, `+HH:MM`, `+HHMM`, `+HH` or `+HH:MM:SS` (or with `-`).
    pub fn from_iso(s: &str) -> (r: Result<Offset, Error>)
        ensures
            match offset_iso_outcome(s.spec_bytes()) {
                Ok(v) => r is Ok && r->Ok_0@ == v,
                Err(f) => fails(r, f),
            },
    {
        parse_offset_iso(s)
    }
}

impl Offset {
    /// The ISO 8601 rendering (what `Display` writes).
    pub fn to_string(self) -> (s: String)
        ensures
            encode_utf8(s@) == offset_text(self@),
    {
        self.to_iso()
    }

    /// ISO 8601 rendering into a caller-owned buffer; the number of bytes
    /// written, or a buffer overflow (buffer untouched) when it does not fit.
    pub fn write_iso(self, out: &mut [u8]) -> (r: Result<usize, Error>)
        ensures
            buffer_outcome(r, old(out)@, final(out)@, offset_text(self@)),
    {
        let mut bytes: Vec<u8> = Vec::new();
        format_offset_into(&mut bytes, self.as_seconds());
        copy_out(out, &bytes)
    }
}

impl core::str::FromStr for Offset {
    type Err = Error;

    fn from_str(s: &str) -> (r: Result<Offset, Error>)
        ensures
            match offset_iso_outcome(s.spec_bytes()) {
                Ok(v) => r is Ok && r->Ok_0@ == v,
                Err(f) => fails(r, f),
            },
    {
        Offset::from_iso(s)
    }
}

} // verus!
