//! Reading the system clock, and handing instants back to it.
//!
//! The clock itself is outside the library's reasoning: what it reads is
//! whatever the machine says. The conversions on either side of it are
//! verified.

use vstd::prelude::*;

use crate::date::Date;
use crate::duration::{
    fits_i64, is_out_of_range, std_as_secs, std_duration_new, std_nanos, std_subsec_nanos,
};
use crate::error::{Error, ErrorKind};
use crate::ticks::Ticks;
use crate::zone::Zone;
use crate::zoned::Zoned;

verus! {

/// `std::time::SystemTime` (std): a platform clock value, opaque here.
#[verifier::external_type_specification]
#[verifier::external_body]
pub struct ExSystemTime(std::time::SystemTime);

/// How far a platform clock value lies from the Unix epoch, in nanoseconds
/// (negative before it).
pub uninterp spec fn since_epoch_nanos(t: std::time::SystemTime) -> int;

/// `std::time::SystemTime::now` (std): what the system clock reads. That
/// depends on the machine and the moment, so nothing is stated of it.
#[verifier::external_body]
fn system_now() -> (t: std::time::SystemTime) {
    std::time::SystemTime::now()
}

/// `SystemTime::duration_since(UNIX_EPOCH)` (std): the span from the epoch
/// to `t`, or nothing when `t` lies before the epoch.
#[verifier::external_body]
fn since_epoch(t: &std::time::SystemTime) -> (r: Option<core::time::Duration>)
    ensures
        (r is Some) == (since_epoch_nanos(*t) >= 0),
        r is Some ==> std_nanos(r->Some_0) == since_epoch_nanos(*t),
{
    match t.duration_since(std::time::UNIX_EPOCH) {
        Ok(d) => Some(d),
        Err(_) => None,
    }
}

/// `UNIX_EPOCH.checked_add(d)` (std): the platform clock value `d` after
/// the epoch, or nothing when the platform cannot represent it. Nothing is
/// stated of the value: std leaves the clock's precision to the platform
/// (some count in units coarser than a nanosecond), and which times it can
/// represent as well.
#[verifier::external_body]
fn epoch_plus(d: core::time::Duration) -> (r: Option<std::time::SystemTime>)
{
    std::time::UNIX_EPOCH.checked_add(d)
}

impl Ticks {
    /// The instant a clock reading names: `(seconds, nanoseconds)` since
    /// the epoch, or no reading when the clock precedes the epoch.
    pub fn from_clock_reading(reading: Option<(u64, u32)>) -> (r: Result<Ticks, Error>)
        requires
            reading is Some ==> reading->Some_0.1 < 1_000_000_000,
        ensures
            reading is None ==> r is Err && r->Err_0.spec_kind() == ErrorKind::Invalid(
                "system clock precedes the unix epoch",
            ),
            reading is Some ==> r is Ok && r->Ok_0@ == reading->Some_0.0 * 1_000_000_000
                + reading->Some_0.1,
    {
        match reading {
            Some((secs, nanos)) => Ok(Ticks::from_unix_nanos(secs as i128 * 1_000_000_000 + nanos as i128)),
            None => Err(Error::invalid("system clock precedes the unix epoch")),
        }
    }

    /// The current instant, from the system clock. The clock can read any
    /// time; one before the epoch is an error.
    pub fn now() -> (r: Result<Ticks, Error>)
        ensures
            r is Ok ==> r->Ok_0@ >= 0,
            r is Err ==> r->Err_0.spec_kind() == ErrorKind::Invalid(
                "system clock precedes the unix epoch",
            ),
    {
        let t = system_now();
        let reading = match since_epoch(&t) {
            Some(d) => Some((std_as_secs(&d), std_subsec_nanos(&d))),
            None => None,
        };
        Ticks::from_clock_reading(reading)
    }

    /// The platform clock value of this instant: the epoch plus the span
    /// [`Ticks::std_time_parts`] gives. Instants before the epoch, and
    /// instants whose seconds do not fit `i64`, have none; past that, whether
    /// the platform can hold the time, and to what precision, is the
    /// platform's matter.
    pub fn to_std_time(self) -> (r: Result<std::time::SystemTime, Error>)
        ensures
            !fits_i64(self@ / 1_000_000_000) ==> is_out_of_range(r, "instant"),
            fits_i64(self@ / 1_000_000_000) && self@ < 0 ==> is_out_of_range(
                r,
                "instant (before 1970)",
            ),
            fits_i64(self@ / 1_000_000_000) && self@ >= 0 && r is Err ==> is_out_of_range(
                r,
                "system time",
            ),
    {
        match self.std_time_parts() {
            Ok((secs, nanos)) => {
                match epoch_plus(std_duration_new(secs, nanos)) {
                    Some(t) => Ok(t),
                    None => Err(Error::out_of_range("system time")),
                }
            },
            Err(e) => Err(e),
        }
    }
}

impl Date {
    /// Today's date in UTC, from the system clock.
    pub fn today() -> (r: Result<Date, Error>)
        ensures
            r is Ok ==> r->Ok_0@ >= 0,
            r is Err ==> r->Err_0.spec_kind() == ErrorKind::Invalid(
                "system clock precedes the unix epoch",
            ) || r->Err_0.spec_kind() == ErrorKind::OutOfRange("instant")
                || r->Err_0.spec_kind() == ErrorKind::OutOfRange("date"),
    {
        match Ticks::now() {
            Ok(t) => match t.to_civil_utc() {
                Ok(dt) => Ok(dt.date()),
                Err(e) => Err(e),
            },
            Err(e) => Err(e),
        }
    }
}

impl Zoned {
    /// The current instant in UTC, from the system clock.
    pub fn now_utc() -> (r: Result<Zoned, Error>)
        ensures
            r is Ok ==> r->Ok_0@.1 == 0 && r->Ok_0@.0 >= 0,
            r is Err ==> r->Err_0.spec_kind() == ErrorKind::Invalid(
                "system clock precedes the unix epoch",
            ),
    {
        match Ticks::now() {
            Ok(t) => Ok(Zoned::new(t, Zone::Utc)),
            Err(e) => Err(e),
        }
    }

    /// The current instant in UTC, from the system clock.
    pub fn now() -> (r: Result<Zoned, Error>)
        ensures
            r is Ok ==> r->Ok_0@.1 == 0 && r->Ok_0@.0 >= 0,
            r is Err ==> r->Err_0.spec_kind() == ErrorKind::Invalid(
                "system clock precedes the unix epoch",
            ),
    {
        Zoned::now_utc()
    }
}

} // verus!
