//! Timezones as data: [`Zone`].
//!
//! A `Zone` is either [`Zone::Utc`] or a [`Zone::Fixed`] offset that never
//! changes. There is no global registry, no IANA database, no hidden DST
//! lookup: named zones are plain values the caller defines.

use vstd::prelude::*;
use vstd::utf8::encode_utf8;
use crate::error::{Error, ErrorKind};
use crate::offset::valid_offset_secs;
use crate::format::{copy_out, format_offset_into, offset_iso_outcome, offset_text};
use crate::scan::fails;
use vstd::string::StringSliceAdditionalSpecFns;

use crate::offset::Offset;

verus! {

/// A timezone: UTC or a fixed offset.
#[derive(Clone, Copy, Debug)]
pub enum Zone {
    /// The canonical UTC zone.
    Utc,
    /// A fixed offset that never changes.
    Fixed(Offset),
}

/// The offset, in seconds, that a zone applies.
pub open spec fn zone_secs(z: Zone) -> int {
    match z {
        Zone::Utc => 0,
        Zone::Fixed(o) => o@,
    }
}

/// A zone in canonical form: a zero offset is always [`Zone::Utc`].
pub open spec fn canonical_zone(z: Zone) -> bool {
    z is Fixed ==> zone_secs(z) != 0
}

/// The names that [`Zone::from_name`] knows.
pub open spec fn utc_alias(b: Seq<u8>) -> bool {
    b == "UTC".spec_bytes() || b == "GMT".spec_bytes() || b == "Z".spec_bytes() || b
        == "Etc/UTC".spec_bytes() || b == "Etc/GMT".spec_bytes()
}

impl Zone {
    /// The UTC zone.
    pub fn utc() -> (z: Zone)
        ensures
            z == Zone::Utc,
    {
        Zone::Utc
    }

    /// A fixed-offset zone; a zero offset normalizes to [`Zone::Utc`] so that
    /// the representation stays canonical.
    pub fn fixed(offset: Offset) -> (z: Zone)
        ensures
            offset@ == 0 ==> z == Zone::Utc,
            offset@ != 0 ==> z == Zone::Fixed(offset),
            zone_secs(z) == offset@,
            canonical_zone(z),
    {
        if offset.is_utc() {
            Zone::Utc
        } else {
            Zone::Fixed(offset)
        }
    }

    /// Look up the tiny built-in alias table of unambiguous zone names:
    /// `UTC`, `GMT`, `Z`, `Etc/UTC` and `Etc/GMT`.
    pub fn from_name(name: &str) -> (r: Option<Zone>)
        ensures
            utc_alias(name.spec_bytes()) ==> r == Some(Zone::Utc),
            !utc_alias(name.spec_bytes()) ==> r is None,
    {
        let b = name.as_bytes();
        if crate::text::bytes_eq(b, "UTC".as_bytes()) || crate::text::bytes_eq(b, "GMT".as_bytes())
            || crate::text::bytes_eq(b, "Z".as_bytes()) || crate::text::bytes_eq(
            b,
            "Etc/UTC".as_bytes(),
        ) || crate::text::bytes_eq(b, "Etc/GMT".as_bytes()) {
            Some(Zone::Utc)
        } else {
            None
        }
    }

    /// The offset this zone applies at any instant (fixed by construction).
    pub fn offset(self) -> (o: Offset)
        ensures
            o@ == zone_secs(self),
    {
        match self {
            Zone::Utc => Offset::utc(),
            Zone::Fixed(offset) => offset,
        }
    }

    /// Whether this zone has a zero UTC offset.
    pub fn is_utc(self) -> (b: bool)
        ensures
            b == (zone_secs(self) == 0),
    {
        self.offset().is_utc()
    }
}

impl PartialEq for Zone {
    fn eq(&self, other: &Zone) -> (r: bool) {
        self.offset().as_seconds() == other.offset().as_seconds()
    }
}

impl vstd::std_specs::cmp::PartialEqSpecImpl for Zone {
    open spec fn obeys_eq_spec() -> bool {
        true
    }

    open spec fn eq_spec(&self, other: &Zone) -> bool {
        zone_secs(*self) == zone_secs(*other)
    }
}

impl Eq for Zone {

}

/// `Hash::hash` for `i32` (std): feeds the integer to the hasher. Nothing is
/// claimed of the hasher's state afterwards.
pub assume_specification<H: core::hash::Hasher>[ <i32 as core::hash::Hash>::hash::<H> ](
    data: &i32,
    state: &mut H,
);

impl core::hash::Hash for Zone {
    fn hash<H: core::hash::Hasher>(&self, state: &mut H) {
        self.offset().as_seconds().hash(state);
    }
}

/// The ISO rendering of a zone of `secs` offset seconds: `UTC`, or the
/// offset.
pub open spec fn zone_text(secs: int) -> Seq<u8> {
    if secs == 0 {
        seq![85u8, 84u8, 67u8]
    } else {
        offset_text(secs)
    }
}

/// The names that [`Zone::from_iso`] reads as UTC without an offset.
pub open spec fn utc_word(b: Seq<u8>) -> bool {
    b == "UTC".spec_bytes() || b == "Z".spec_bytes() || b == "z".spec_bytes()
}

impl Zone {
    /// The rendering bytes: `UTC` or the offset.
    fn iso_bytes(self) -> (b: Vec<u8>)
        ensures
            b@ == zone_text(zone_secs(self)),
    {
        let mut out: Vec<u8> = Vec::new();
        if self.is_utc() {
            out.push(85u8);
            out.push(84u8);
            out.push(67u8);
            proof {
                assert(out@ =~= zone_text(zone_secs(self)));
            }
        } else {
            format_offset_into(&mut out, self.offset().as_seconds());
        }
        out
    }

    /// ISO 8601 rendering: `UTC` for UTC, otherwise the offset.
    pub fn to_iso(self) -> (s: String)
        ensures
            encode_utf8(s@) == zone_text(zone_secs(self)),
    {
        let out = self.iso_bytes();
        proof {
            crate::rendering::lemma_offset_iso_ascii(zone_secs(self));
            assert(crate::rendering::ascii_bytes(seq![85u8, 84u8, 67u8]));
            crate::rendering::lemma_ascii_valid(out@);
        }
        crate::text::string_from_utf8(out.as_slice())
    }

    /// ISO 8601 rendering into a caller-owned buffer; the number of bytes
    /// written, or a buffer overflow (buffer untouched) when it does not fit.
    pub fn write_iso(self, out: &mut [u8]) -> (r: Result<usize, Error>)
        ensures
            zone_text(zone_secs(self)).len() <= old(out)@.len() ==> r == Ok::<usize, Error>(
                zone_text(zone_secs(self)).len() as usize,
            ) && final(out)@ == zone_text(zone_secs(self)) + old(out)@.subrange(
                zone_text(zone_secs(self)).len() as int,
                old(out)@.len() as int,
            ),
            zone_text(zone_secs(self)).len() > old(out)@.len() ==> r is Err && final(out)@ == old(out)@,
    {
        copy_out(out, &self.iso_bytes())
    }

    /// Parse `UTC`, `Z` or `z` as UTC, anything else as an offset (a zero
    /// offset normalizes to UTC).
    pub fn from_iso(s: &str) -> (r: Result<Zone, Error>)
        ensures
            utc_word(s.spec_bytes()) ==> r == Ok::<Zone, Error>(Zone::Utc),
            !utc_word(s.spec_bytes()) ==> match offset_iso_outcome(s.spec_bytes()) {
                Ok(v) => r is Ok && zone_secs(r->Ok_0) == v && canonical_zone(r->Ok_0),
                Err(f) => fails(r, f),
            },
    {
        let b = s.as_bytes();
        if crate::text::bytes_eq(b, "UTC".as_bytes()) || crate::text::bytes_eq(b, "Z".as_bytes())
            || crate::text::bytes_eq(b, "z".as_bytes()) {
            return Ok(Zone::Utc);
        }
        match Offset::from_iso(s) {
            Ok(o) => Ok(Zone::fixed(o)),
            Err(e) => Err(e),
        }
    }
}

impl Zone {
    /// The ISO 8601 rendering (what `Display` writes).
    pub fn to_string(self) -> (s: String)
        ensures
            encode_utf8(s@) == zone_text(zone_secs(self)),
    {
        self.to_iso()
    }
}

impl core::str::FromStr for Zone {
    type Err = Error;

    fn from_str(s: &str) -> (r: Result<Zone, Error>)
        ensures
            utc_word(s.spec_bytes()) ==> r == Ok::<Zone, Error>(Zone::Utc),
            !utc_word(s.spec_bytes()) ==> match offset_iso_outcome(s.spec_bytes()) {
                Ok(v) => r is Ok && zone_secs(r->Ok_0) == v && canonical_zone(r->Ok_0),
                Err(f) => fails(r, f),
            },
    {
        Zone::from_iso(s)
    }
}

impl Zone {
    /// The compact binary shape: tag `0` for UTC, tag `1` with the offset
    /// seconds for a fixed offset.
    pub fn to_tagged(self) -> (r: (u8, Option<i32>))
        ensures
            self is Utc ==> r == (0u8, None::<i32>),
            self is Fixed ==> r == (1u8, Some(zone_secs(self) as i32)),
    {
        match self {
            Zone::Utc => (0u8, None),
            Zone::Fixed(offset) => (1u8, Some(offset.as_seconds())),
        }
    }

    /// Read the compact binary shape back: the tag, the payload when one
    /// followed it, and how many entries the array held. UTC is tag `0`
    /// alone; a fixed offset is tag `1` with a valid offset; anything else
    /// is invalid.
    pub fn from_tagged(tag: u8, payload: Option<i32>, entries: u32) -> (r: Result<Zone, Error>)
        ensures
            tag == 0 && payload is None && entries == 1 ==> r == Ok::<Zone, Error>(Zone::Utc),
            tag == 1 && payload is Some && entries == 2 && valid_offset_secs(payload->Some_0 as int) ==> (
            r is Ok && zone_secs(r->Ok_0) == payload->Some_0 && canonical_zone(r->Ok_0)),
            tag == 1 && payload is Some && entries == 2 && !valid_offset_secs(payload->Some_0 as int)
                ==> r is Err && r->Err_0.spec_kind() == ErrorKind::InvalidOffset,
            !(tag == 0 && payload is None && entries == 1) && !(tag == 1 && payload is Some && entries
                == 2) ==> r is Err && r->Err_0.spec_kind() == ErrorKind::Invalid("invalid zone encoding"),
    {
        if tag == 0 && payload.is_none() && entries == 1 {
            return Ok(Zone::Utc);
        }
        if tag == 1 && entries == 2 {
            if let Some(secs) = payload {
                return match Offset::from_seconds(secs) {
                    Ok(o) => Ok(Zone::fixed(o)),
                    Err(e) => Err(e),
                };
            }
        }
        Err(Error::invalid("invalid zone encoding"))
    }
}

} // verus!
