//! ISO 8601 / RFC 3339 parsing and formatting.
//!
//! Formatting is digit emission into a byte vector; parsing is the byte
//! scanner of [`crate::scan`], which reports the exact byte offset of every
//! failure. The accepted surface is strict ISO 8601 extended format with a
//! few deliberate conveniences:
//!
//! - fractional seconds of 1..9 digits (more is rejected, not truncated);
//! - offsets in `Z`, `+HH:MM`, `+HHMM`, `+HH` and `+HH:MM:SS` (or `-`);
//! - `T`, `t` or a single space as the date/time separator;
//! - expanded years (optional sign, 4 to 9 digits).

use vstd::prelude::*;
use vstd::string::StringSliceAdditionalSpecFns;
use vstd::utf8::encode_utf8;

use crate::calendar::{ymd_of_days, NS_PER_DAY, NS_PER_HOUR, NS_PER_MIN, NS_PER_SEC};
use crate::date::{ymd_outcome, Date};
use crate::error::{Error, ErrorKind};
use crate::offset::Offset;
use crate::scan::{
    at_byte, byte_at, digit_at, digit_run, digits_val, fails, kfail, lemma_digit_run,
    lemma_digit_run_step,
    lemma_digits_val_bound, lemma_pow10_mono, lemma_pow10_table, pfail, pow10, pow10_u64,
    read_digits, scan_digits, scan_digits_exec, step_agrees, Fail,
};
use crate::text::{dec_digits, dec_padded, left_pad, lemma_dec_digits, push_dec, push_padded};
use crate::time::{hms_error, hms_nanos, TimeOfDay};

verus! {

/// Fractional-second precision for textual output.
#[derive(Clone, Copy, Debug, PartialEq, Eq, Structural)]
pub enum FractionDigits {
    /// No fractional part.
    Omit,
    /// Exactly three digits.
    Milli,
    /// Exactly six digits.
    Micro,
    /// Exactly nine digits.
    Nano,
    /// As many digits as needed, trailing zeros trimmed.
    Auto,
}

// ---------------------------------------------------------------------------
// What the formatters produce
// ---------------------------------------------------------------------------

/// `s` with its trailing `'0'` bytes removed.
pub open spec fn trim_zeros(s: Seq<u8>) -> Seq<u8>
    decreases s.len(),
{
    if s.len() > 0 && s.last() == 48 {
        trim_zeros(s.drop_last())
    } else {
        s
    }
}

/// A year: at least four digits, with a `-` for years before 0.
pub open spec fn year_text(y: int) -> Seq<u8> {
    if y < 0 {
        seq![45u8] + dec_padded((-y) as nat, 4)
    } else {
        dec_padded(y as nat, 4)
    }
}

/// `YYYY-MM-DD`.
pub open spec fn date_text(y: int, m: int, d: int) -> Seq<u8> {
    year_text(y) + seq![45u8] + dec_padded(m as nat, 2) + seq![45u8] + dec_padded(d as nat, 2)
}

/// The fractional-second part for `ns` nanoseconds.
pub open spec fn fraction_text(ns: int, f: FractionDigits) -> Seq<u8> {
    match f {
        FractionDigits::Omit => Seq::empty(),
        FractionDigits::Milli => seq![46u8] + dec_padded((ns / 1_000_000) as nat, 3),
        FractionDigits::Micro => seq![46u8] + dec_padded((ns / 1_000) as nat, 6),
        FractionDigits::Nano => seq![46u8] + dec_padded(ns as nat, 9),
        FractionDigits::Auto => if ns == 0 {
            Seq::empty()
        } else {
            seq![46u8] + trim_zeros(dec_padded(ns as nat, 9))
        },
    }
}

/// `HH:MM:SS` plus the fractional part.
pub open spec fn time_text(h: int, mi: int, s: int, ns: int, f: FractionDigits) -> Seq<u8> {
    dec_padded(h as nat, 2) + seq![58u8] + dec_padded(mi as nat, 2) + seq![58u8] + dec_padded(
        s as nat,
        2,
    ) + fraction_text(ns, f)
}

/// `Z` for a zero offset, otherwise `+HH:MM` or `-HH:MM`, with `:SS` when
/// the seconds are nonzero.
pub open spec fn offset_text(secs: int) -> Seq<u8> {
    if secs == 0 {
        seq![90u8]
    } else {
        let abs = if secs < 0 {
            -secs
        } else {
            secs
        };
        let sign: u8 = if secs < 0 {
            45u8
        } else {
            43u8
        };
        seq![sign] + dec_padded((abs / 3600) as nat, 2) + seq![58u8] + dec_padded(
            ((abs % 3600) / 60) as nat,
            2,
        ) + if abs % 60 != 0 {
            seq![58u8] + dec_padded((abs % 60) as nat, 2)
        } else {
            Seq::empty()
        }
    }
}

/// The ISO rendering of the date with day count `z`.
pub open spec fn date_iso_text(z: int) -> Seq<u8> {
    date_text(ymd_of_days(z).0, ymd_of_days(z).1, ymd_of_days(z).2)
}

/// The ISO rendering of the time of day `n` nanoseconds after midnight.
pub open spec fn time_iso_text(n: int, f: FractionDigits) -> Seq<u8> {
    time_text(
        n / 3_600_000_000_000,
        (n / 60_000_000_000) % 60,
        (n / 1_000_000_000) % 60,
        n % 1_000_000_000,
        f,
    )
}

/// The ISO rendering of a civil reading `(days, nanos)`.
pub open spec fn civil_text(v: (int, int), f: FractionDigits) -> Seq<u8> {
    date_iso_text(v.0) + seq![84u8] + time_iso_text(v.1, f)
}

/// The RFC 3339 rendering of a civil reading in an offset of `secs`.
pub open spec fn rfc3339_text(v: (int, int), secs: int, f: FractionDigits) -> Seq<u8> {
    civil_text(v, f) + offset_text(secs)
}

/// A signed integer in decimal, `-` first when negative.
pub open spec fn signed_text(n: int) -> Seq<u8> {
    if n < 0 {
        seq![45u8] + dec_digits((-n) as nat)
    } else {
        dec_digits(n as nat)
    }
}

/// A count followed by its unit letter, or nothing for a zero count.
pub open spec fn unit_text(v: int, unit: u8) -> Seq<u8> {
    if v > 0 {
        dec_digits(v as nat) + seq![unit]
    } else {
        Seq::empty()
    }
}

/// The time section of a duration: `T`, hours, minutes and seconds with a
/// trimmed fraction; nothing when all four are zero.
pub open spec fn duration_time_text(hours: int, minutes: int, seconds: int, subsec: int) -> Seq<u8> {
    if hours > 0 || minutes > 0 || seconds > 0 || subsec > 0 {
        seq![84u8] + unit_text(hours, 72u8) + unit_text(minutes, 77u8) + (if seconds > 0 || subsec
            > 0 {
            dec_digits(seconds as nat) + (if subsec > 0 {
                seq![46u8] + trim_zeros(dec_padded(subsec as nat, 9))
            } else {
                Seq::empty()
            }) + seq![83u8]
        } else {
            Seq::empty()
        })
    } else {
        Seq::empty()
    }
}

/// The ISO 8601 rendering of a span of `n` nanoseconds:
/// `P[n]DT[n]H[n]M[n]S`, `-` first when negative, `PT0S` for zero.
pub open spec fn duration_text(n: int) -> Seq<u8> {
    let abs = if n < 0 {
        -n
    } else {
        n
    };
    let days = abs / (NS_PER_DAY as int);
    let rem = abs % (NS_PER_DAY as int);
    let hours = rem / (NS_PER_HOUR as int);
    let minutes = (rem % (NS_PER_HOUR as int)) / (NS_PER_MIN as int);
    let seconds = (rem % (NS_PER_MIN as int)) / (NS_PER_SEC as int);
    let subsec = rem % (NS_PER_SEC as int);
    (if n < 0 {
        seq![45u8]
    } else {
        Seq::empty()
    }) + seq![80u8] + unit_text(days, 68u8) + duration_time_text(hours, minutes, seconds, subsec)
        + (if days == 0 && duration_time_text(hours, minutes, seconds, subsec).len() == 0 {
        seq![84u8, 48u8, 83u8]
    } else {
        Seq::empty()
    })
}

// ---------------------------------------------------------------------------
// Formatting
// ---------------------------------------------------------------------------

/// Append `v` zero-padded to at least `width` digits.
pub fn write_padded(out: &mut Vec<u8>, v: u64, width: usize)
    ensures
        final(out)@ == old(out)@ + dec_padded(v as nat, width as int),
{
    push_padded(out, v as u128, width, 48u8);
}

/// Append a year with its sign.
pub fn push_year(out: &mut Vec<u8>, y: i32)
    ensures
        final(out)@ == old(out)@ + year_text(y as int),
{
    if y < 0 {
        out.push(45u8);
        write_padded(out, (-(y as i64)) as u64, 4);
    } else {
        write_padded(out, y as u64, 4);
    }
    proof {
        assert(final(out)@ =~= old(out)@ + year_text(y as int));
    }
}

/// Append `YYYY-MM-DD`, with an expanded-year sign when needed.
pub fn format_date_into(out: &mut Vec<u8>, year: i32, month: u32, day: u32)
    ensures
        final(out)@ == old(out)@ + date_text(year as int, month as int, day as int),
{
    push_year(out, year);
    out.push(45u8);
    write_padded(out, month as u64, 2);
    out.push(45u8);
    write_padded(out, day as u64, 2);
    proof {
        assert(final(out)@ =~= old(out)@ + date_text(year as int, month as int, day as int));
    }
}

/// Append the digits of `ns` (nine places) with trailing zeros trimmed.
pub fn push_trimmed_nanos(out: &mut Vec<u8>, ns: u32)
    ensures
        final(out)@ == old(out)@ + trim_zeros(dec_padded(ns as nat, 9)),
{
    let mut digits: Vec<u8> = Vec::new();
    write_padded(&mut digits, ns as u64, 9);
    proof {
        assert(digits@ =~= dec_padded(ns as nat, 9));
        assert(digits@.subrange(0, digits@.len() as int) =~= digits@);
    }
    let mut end: usize = digits.len();
    while end > 0 && digits[end - 1] == 48u8
        invariant
            end <= digits@.len(),
            trim_zeros(digits@.subrange(0, end as int)) == trim_zeros(dec_padded(ns as nat, 9)),
        decreases end,
    {
        proof {
            let s = digits@.subrange(0, end as int);
            assert(s.drop_last() =~= digits@.subrange(0, end - 1));
        }
        end = end - 1;
    }
    proof {
        let s = digits@.subrange(0, end as int);
        assert(trim_zeros(s) == s);
    }
    let mut k: usize = 0;
    let ghost mid = out@;
    while k < end
        invariant
            k <= end <= digits@.len(),
            out@ == mid + digits@.subrange(0, k as int),
        decreases end - k,
    {
        out.push(digits[k]);
        k = k + 1;
        proof {
            assert(out@ =~= mid + digits@.subrange(0, k as int));
        }
    }
}

/// Append the fractional part of `nanos` at the requested precision.
pub fn push_fraction(out: &mut Vec<u8>, nanos: u32, fraction: FractionDigits)
    ensures
        final(out)@ == old(out)@ + fraction_text(nanos as int, fraction),
{
    match fraction {
        FractionDigits::Omit => {},
        FractionDigits::Milli => {
            out.push(46u8);
            write_padded(out, (nanos / 1_000_000) as u64, 3);
        },
        FractionDigits::Micro => {
            out.push(46u8);
            write_padded(out, (nanos / 1_000) as u64, 6);
        },
        FractionDigits::Nano => {
            out.push(46u8);
            write_padded(out, nanos as u64, 9);
        },
        FractionDigits::Auto => {
            if nanos != 0 {
                out.push(46u8);
                push_trimmed_nanos(out, nanos);
            }
        },
    }
    proof {
        assert(final(out)@ =~= old(out)@ + fraction_text(nanos as int, fraction));
    }
}

/// Append `HH:MM:SS` plus the requested fractional part.
pub fn format_time_into(
    out: &mut Vec<u8>,
    hour: u32,
    minute: u32,
    second: u32,
    nanos: u32,
    fraction: FractionDigits,
)
    ensures
        final(out)@ == old(out)@ + time_text(
            hour as int,
            minute as int,
            second as int,
            nanos as int,
            fraction,
        ),
{
    write_padded(out, hour as u64, 2);
    out.push(58u8);
    write_padded(out, minute as u64, 2);
    out.push(58u8);
    write_padded(out, second as u64, 2);
    push_fraction(out, nanos, fraction);
    proof {
        assert(final(out)@ =~= old(out)@ + time_text(
            hour as int,
            minute as int,
            second as int,
            nanos as int,
            fraction,
        ));
    }
}

/// Append `Z` or `+HH:MM[:SS]` (seconds shown only when nonzero).
pub fn format_offset_into(out: &mut Vec<u8>, secs: i32)
    ensures
        final(out)@ == old(out)@ + offset_text(secs as int),
{
    if secs == 0 {
        out.push(90u8);
        proof {
            assert(final(out)@ =~= old(out)@ + offset_text(secs as int));
        }
        return;
    }
    let abs: u64 = if secs < 0 {
        (-(secs as i64)) as u64
    } else {
        secs as u64
    };
    out.push(if secs < 0 {
        45u8
    } else {
        43u8
    });
    write_padded(out, abs / 3600, 2);
    out.push(58u8);
    write_padded(out, (abs % 3600) / 60, 2);
    if abs % 60 != 0 {
        out.push(58u8);
        write_padded(out, abs % 60, 2);
    }
    proof {
        assert(final(out)@ =~= old(out)@ + offset_text(secs as int));
    }
}

/// Append a signed 128-bit value with no padding.
pub fn write_signed_i128(out: &mut Vec<u8>, value: i128)
    ensures
        final(out)@ == old(out)@ + signed_text(value as int),
{
    if value < 0 {
        out.push(45u8);
        let mag: u128 = if value == i128::MIN {
            (i128::MAX as u128) + 1
        } else {
            (-value) as u128
        };
        push_dec(out, mag);
    } else {
        push_dec(out, value as u128);
    }
    proof {
        assert(final(out)@ =~= old(out)@ + signed_text(value as int));
    }
}

/// Append a count and its unit letter when the count is nonzero.
fn push_unit(out: &mut Vec<u8>, v: u128, unit: u8)
    ensures
        final(out)@ == old(out)@ + unit_text(v as int, unit),
{
    if v > 0 {
        push_dec(out, v);
        out.push(unit);
    }
    proof {
        assert(final(out)@ =~= old(out)@ + unit_text(v as int, unit));
    }
}

/// Append the time section of a duration.
fn push_duration_time(out: &mut Vec<u8>, hours: u128, minutes: u128, seconds: u128, subsec: u128)
    requires
        subsec < 1_000_000_000,
    ensures
        final(out)@ == old(out)@ + duration_time_text(
            hours as int,
            minutes as int,
            seconds as int,
            subsec as int,
        ),
{
    if hours > 0 || minutes > 0 || seconds > 0 || subsec > 0 {
        out.push(84u8);
        push_unit(out, hours, 72u8);
        push_unit(out, minutes, 77u8);
        if seconds > 0 || subsec > 0 {
            push_dec(out, seconds);
            if subsec > 0 {
                out.push(46u8);
                push_trimmed_nanos(out, subsec as u32);
            }
            out.push(83u8);
        }
    }
    proof {
        assert(final(out)@ =~= old(out)@ + duration_time_text(
            hours as int,
            minutes as int,
            seconds as int,
            subsec as int,
        ));
    }
}

/// The clock parts of a day remainder computed step by step agree with the
/// direct ones.
proof fn lemma_day_rem_parts(rem: int)
    requires
        rem >= 0,
    ensures
        (rem % NS_PER_HOUR as int) % (NS_PER_MIN as int) == rem % (NS_PER_MIN as int),
        ((rem % NS_PER_HOUR as int) % (NS_PER_MIN as int)) % (NS_PER_SEC as int) == rem % (
        NS_PER_SEC as int),
{
    vstd::arithmetic::div_mod::lemma_mod_mod(rem, NS_PER_MIN as int, 60);
    vstd::arithmetic::div_mod::lemma_mod_mod(rem, NS_PER_SEC as int, 60);
}

/// Append the ISO 8601 duration rendering of `nanos`.
#[verifier::rlimit(40)]
#[verifier::spinoff_prover]
pub fn format_duration_into(out: &mut Vec<u8>, nanos: i128)
    ensures
        final(out)@ == old(out)@ + duration_text(nanos as int),
{
    if nanos < 0 {
        out.push(45u8);
    }
    let abs: u128 = if nanos == i128::MIN {
        (i128::MAX as u128) + 1
    } else if nanos < 0 {
        (-nanos) as u128
    } else {
        nanos as u128
    };
    out.push(80u8);
    let days = abs / (NS_PER_DAY as u128);
    let rem = abs % (NS_PER_DAY as u128);
    push_unit(out, days, 68u8);
    let hours = rem / (NS_PER_HOUR as u128);
    let rem_h = rem % (NS_PER_HOUR as u128);
    let minutes = rem_h / (NS_PER_MIN as u128);
    let rem_m = rem_h % (NS_PER_MIN as u128);
    let seconds = rem_m / (NS_PER_SEC as u128);
    let subsec = rem_m % (NS_PER_SEC as u128);
    proof {
        lemma_day_rem_parts(rem as int);
    }
    let before_time = out.len();
    push_duration_time(out, hours, minutes, seconds, subsec);
    if days == 0 && out.len() == before_time {
        out.push(84u8);
        out.push(48u8);
        out.push(83u8);
    }
    proof {
        assert(final(out)@ =~= old(out)@ + duration_text(nanos as int));
    }
}

/// `YYYY-MM-DDTHH:MM:SS[.fraction]offset`, written to any sink in one piece
/// (a refused write leaves the sink as it was).
pub fn format_rfc3339_into<W: crate::write::Write>(
    out: &mut W,
    date: Date,
    time: TimeOfDay,
    offset: Offset,
    fraction: FractionDigits,
) -> (r: Result<(), Error>)
    ensures
        r is Ok <==> old(out).accepts(rfc3339_text((date@, time@), offset@, fraction)),
        r is Ok ==> final(out).written() == old(out).written() + rfc3339_text(
            (date@, time@),
            offset@,
            fraction,
        ),
        r is Err ==> final(out).written() == old(out).written(),
{
    let (y, m, d) = date.parts();
    let mut bytes: Vec<u8> = Vec::new();
    format_date_into(&mut bytes, y, m, d);
    bytes.push(84u8);
    let (h, mi, sec, ns) = time.parts();
    format_time_into(&mut bytes, h, mi, sec, ns, fraction);
    format_offset_into(&mut bytes, offset.as_seconds());
    proof {
        assert(bytes@ =~= rfc3339_text((date@, time@), offset@, fraction));
    }
    out.write_bytes(bytes.as_slice())
}

/// The ISO rendering of a date, as a `String`.
pub fn format_date(date: Date) -> (s: String)
    ensures
        encode_utf8(s@) == date_iso_text(date@),
{
    let (y, m, d) = date.parts();
    let mut out: Vec<u8> = Vec::new();
    format_date_into(&mut out, y, m, d);
    proof {
        crate::rendering::lemma_date_text_ascii(date@);
        crate::rendering::lemma_ascii_valid(out@);
    }
    crate::text::string_from_utf8(out.as_slice())
}

/// The ISO rendering of a time of day with the requested fraction.
pub fn format_time(time: TimeOfDay, fraction: FractionDigits) -> (s: String)
    ensures
        encode_utf8(s@) == time_iso_text(time@, fraction),
{
    let (h, m, sec, ns) = time.parts();
    let mut out: Vec<u8> = Vec::new();
    format_time_into(&mut out, h, m, sec, ns, fraction);
    proof {
        crate::rendering::lemma_time_text_ascii(time@, fraction);
        crate::rendering::lemma_ascii_valid(out@);
    }
    crate::text::string_from_utf8(out.as_slice())
}

/// Date plus time, no zone.
pub fn format_civil(dt: crate::datetime::CivilDateTime, fraction: FractionDigits) -> (s: String)
    ensures
        encode_utf8(s@) == civil_text(dt@, fraction),
{
    let out = dt.iso_bytes(fraction);
    proof {
        crate::rendering::lemma_civil_text_ascii(dt@, 0, fraction);
        crate::rendering::lemma_ascii_valid(out@);
    }
    crate::text::string_from_utf8(out.as_slice())
}

/// The ISO rendering of an offset.
pub fn format_offset(offset: Offset) -> (s: String)
    ensures
        encode_utf8(s@) == offset_text(offset@),
{
    let mut out: Vec<u8> = Vec::new();
    format_offset_into(&mut out, offset.as_seconds());
    proof {
        crate::rendering::lemma_offset_iso_ascii(offset@);
        crate::rendering::lemma_ascii_valid(out@);
    }
    crate::text::string_from_utf8(out.as_slice())
}

/// What rendering `text` into a caller-owned buffer does: when it fits, the
/// text fills the front of the buffer and its length is returned; otherwise
/// a buffer overflow, with the buffer untouched.
pub open spec fn buffer_outcome(
    r: Result<usize, Error>,
    before: Seq<u8>,
    after: Seq<u8>,
    text: Seq<u8>,
) -> bool {
    if text.len() <= before.len() {
        &&& r == Ok::<usize, Error>(text.len() as usize)
        &&& after == text + before.subrange(text.len() as int, before.len() as int)
    } else {
        &&& r is Err
        &&& r->Err_0.spec_kind() == ErrorKind::OutOfRange("output buffer")
        &&& after == before
    }
}

/// Copy a rendering into a caller-owned buffer, returning its length; the
/// buffer is left untouched when the rendering does not fit.
pub fn copy_out(out: &mut [u8], bytes: &Vec<u8>) -> (r: Result<usize, Error>)
    ensures
        buffer_outcome(r, old(out)@, final(out)@, bytes@),
        bytes@.len() <= old(out)@.len() ==> r == Ok::<usize, Error>(bytes@.len() as usize)
            && final(out)@ == bytes@ + old(out)@.subrange(bytes@.len() as int, old(out)@.len() as int),
        bytes@.len() > old(out)@.len() ==> r is Err && r->Err_0.spec_kind() == ErrorKind::OutOfRange(
            "output buffer",
        ) && final(out)@ == old(out)@,
{
    if bytes.len() > out.len() {
        return Err(Error::buffer_overflow());
    }
    let mut k: usize = 0;
    while k < bytes.len()
        invariant
            k <= bytes@.len() <= out@.len(),
            out@.len() == old(out)@.len(),
            forall|j: int| 0 <= j < k ==> out@[j] == bytes@[j],
            forall|j: int| k <= j < out@.len() ==> out@[j] == old(out)@[j],
        decreases bytes@.len() - k,
    {
        out[k] = bytes[k];
        k = k + 1;
    }
    proof {
        assert(out@ =~= bytes@ + old(out)@.subrange(bytes@.len() as int, old(out)@.len() as int));
    }
    Ok(bytes.len())
}

// ---------------------------------------------------------------------------
// What the parsers accept
// ---------------------------------------------------------------------------

/// An optional sign: `(-1 or 1, position after it)`.
pub open spec fn scan_sign(b: Seq<u8>, pos: int) -> (int, int) {
    if byte_at(b, pos) == Some(45u8) {
        (-1, pos + 1)
    } else if byte_at(b, pos) == Some(43u8) {
        (1, pos + 1)
    } else {
        (1, pos)
    }
}

/// `[+-]YYYY[Y..]-MM-DD` as `(year, month, day)` and the position after it.
pub open spec fn scan_date(b: Seq<u8>, pos: int) -> Result<((i32, u32, u32), int), Fail> {
    let sp = scan_sign(b, pos);
    match scan_digits(b, sp.1, 4, 9) {
        Err(f) => Err(f),
        Ok(yv) => {
            let year = yv.0 * sp.0;
            let p2 = yv.1;
            if !(i32::MIN <= year <= i32::MAX) {
                Err(pfail("year out of range", p2))
            } else if byte_at(b, p2) != Some(45u8) {
                Err(pfail("expected '-' after year", p2))
            } else {
                match scan_digits(b, p2 + 1, 2, 2) {
                    Err(f) => Err(f),
                    Ok(mv) => if byte_at(b, mv.1) != Some(45u8) {
                        Err(pfail("expected '-' after month", mv.1))
                    } else {
                        match scan_digits(b, mv.1 + 1, 2, 2) {
                            Err(f) => Err(f),
                            Ok(dv) => Ok(((year as i32, mv.0 as u32, dv.0 as u32), dv.1)),
                        }
                    },
                }
            }
        },
    }
}

/// `.digits` (1 to 9 of them) as `(value, digit count)` and the position
/// after it.
pub open spec fn scan_fraction(b: Seq<u8>, pos: int) -> Result<((u64, u32), int), Fail> {
    if byte_at(b, pos) != Some(46u8) {
        Err(pfail("expected '.'", pos))
    } else {
        let n = digit_run(b, pos + 1, 10);
        if n == 10 {
            Err(pfail("fraction has more than 9 digits", pos + 11))
        } else if n == 0 {
            Err(pfail("expected digits after '.'", pos + 1))
        } else {
            Ok(((digits_val(b, pos + 1, n as int) as u64, n as u32), pos + 1 + n))
        }
    }
}

/// `HH:MM:SS[.fraction]` as `(hour, minute, second, nanos)` and the position
/// after it.
pub open spec fn scan_time(b: Seq<u8>, pos: int) -> Result<((u32, u32, u32, u32), int), Fail> {
    match scan_digits(b, pos, 2, 2) {
        Err(f) => Err(f),
        Ok(hv) => if byte_at(b, hv.1) != Some(58u8) {
            Err(pfail("expected ':' after hour", hv.1))
        } else {
            match scan_digits(b, hv.1 + 1, 2, 2) {
                Err(f) => Err(f),
                Ok(mv) => if byte_at(b, mv.1) != Some(58u8) {
                    Err(pfail("expected ':' after minute", mv.1))
                } else {
                    match scan_digits(b, mv.1 + 1, 2, 2) {
                        Err(f) => Err(f),
                        Ok(sv) => if byte_at(b, sv.1) == Some(46u8) {
                            match scan_fraction(b, sv.1) {
                                Err(f) => Err(f),
                                Ok(fv) => Ok(
                                    (
                                        (
                                            hv.0 as u32,
                                            mv.0 as u32,
                                            sv.0 as u32,
                                            (fv.0.0 * pow10(9 - fv.0.1)) as u32,
                                        ),
                                        fv.1,
                                    ),
                                ),
                            }
                        } else {
                            Ok(((hv.0 as u32, mv.0 as u32, sv.0 as u32, 0u32), sv.1))
                        },
                    }
                },
            }
        },
    }
}

/// The optional `:MM` or `MM` minutes of a numeric offset.
pub open spec fn scan_offset_minutes(b: Seq<u8>, pos: int) -> Result<(int, int), Fail> {
    if byte_at(b, pos) == Some(58u8) {
        scan_digits(b, pos + 1, 2, 2)
    } else if digit_at(b, pos) {
        scan_digits(b, pos, 2, 2)
    } else {
        Ok((0, pos))
    }
}

/// The optional `:SS` seconds of a numeric offset.
pub open spec fn scan_offset_seconds(b: Seq<u8>, pos: int) -> Result<(int, int), Fail> {
    if byte_at(b, pos) == Some(58u8) {
        scan_digits(b, pos + 1, 2, 2)
    } else {
        Ok((0, pos))
    }
}

/// An offset (`Z`, `z`, `+HH`, `+HHMM`, `+HH:MM`, `+HH:MM:SS`, or with `-`)
/// as seconds east of UTC and the position after it.
pub open spec fn scan_offset(b: Seq<u8>, pos: int) -> Result<(i32, int), Fail> {
    if byte_at(b, pos) == Some(90u8) || byte_at(b, pos) == Some(122u8) {
        Ok((0i32, pos + 1))
    } else if byte_at(b, pos) == Some(43u8) || byte_at(b, pos) == Some(45u8) {
        match scan_digits(b, pos + 1, 2, 2) {
            Err(f) => Err(f),
            Ok(hv) => match scan_offset_minutes(b, hv.1) {
                Err(f) => Err(f),
                Ok(mv) => match scan_offset_seconds(b, mv.1) {
                    Err(f) => Err(f),
                    Ok(sv) => if hv.0 > 23 || mv.0 > 59 || sv.0 > 59 {
                        Err(pfail("offset component out of range", sv.1))
                    } else {
                        let mag = hv.0 * 3600 + mv.0 * 60 + sv.0;
                        Ok(
                            (
                                (if b[pos] == 43u8 {
                                    mag
                                } else {
                                    -mag
                                }) as i32,
                                sv.1,
                            ),
                        )
                    },
                },
            },
        }
    } else {
        Err(pfail("expected a timezone offset", pos))
    }
}

/// Whether a date/time separator (`T`, `t` or a space) is at `pos`.
pub open spec fn time_sep_at(b: Seq<u8>, pos: int) -> bool {
    byte_at(b, pos) == Some(84u8) || byte_at(b, pos) == Some(116u8) || byte_at(b, pos) == Some(
        32u8,
    )
}

/// Whether an offset designator (`Z`, `z`, `+` or `-`) is at `pos`.
pub open spec fn offset_sign_at(b: Seq<u8>, pos: int) -> bool {
    byte_at(b, pos) == Some(90u8) || byte_at(b, pos) == Some(122u8) || byte_at(b, pos) == Some(
        43u8,
    ) || byte_at(b, pos) == Some(45u8)
}

/// The optional time section of an ISO timestamp, validated.
pub open spec fn scan_iso_time(b: Seq<u8>, pos: int) -> Result<(Option<int>, int), Fail> {
    if time_sep_at(b, pos) {
        match scan_time(b, pos + 1) {
            Err(f) => Err(f),
            Ok(tv) => match hms_error(
                tv.0.0 as int,
                tv.0.1 as int,
                tv.0.2 as int,
                tv.0.3 as int,
            ) {
                Some(c) => Err(kfail(ErrorKind::OutOfRange(c))),
                None => Ok(
                    (
                        Some(hms_nanos(tv.0.0 as int, tv.0.1 as int, tv.0.2 as int, tv.0.3 as int)),
                        tv.1,
                    ),
                ),
            },
        }
    } else {
        Ok((None, pos))
    }
}

/// The optional offset section of an ISO timestamp.
pub open spec fn scan_iso_offset(b: Seq<u8>, pos: int) -> Result<(Option<i32>, int), Fail> {
    if offset_sign_at(b, pos) {
        match scan_offset(b, pos) {
            Err(f) => Err(f),
            Ok(ov) => Ok((Some(ov.0), ov.1)),
        }
    } else {
        Ok((None, pos))
    }
}

/// A whole ISO 8601 timestamp: the date's day count, the time of day when
/// present and the offset seconds when present. `rt` and `ro` say whether a
/// time and an offset are required (and otherwise not allowed).
pub open spec fn scan_iso(b: Seq<u8>, rt: bool, ro: bool) -> Result<(int, Option<int>, Option<i32>), Fail> {
    match scan_date(b, 0) {
        Err(f) => Err(f),
        Ok(dv) => match ymd_outcome(dv.0.0 as int, dv.0.1 as int, dv.0.2 as int) {
            Err(c) => Err(kfail(ErrorKind::OutOfRange(c))),
            Ok(z) => if time_sep_at(b, dv.1) && !rt {
                Err(pfail("time component not allowed", dv.1))
            } else {
                match scan_iso_time(b, dv.1) {
                    Err(f) => Err(f),
                    Ok(tv) => if rt && tv.0 is None {
                        Err(pfail("expected a time component", tv.1))
                    } else if offset_sign_at(b, tv.1) && !ro {
                        Err(pfail("timezone offset not allowed", tv.1))
                    } else {
                        match scan_iso_offset(b, tv.1) {
                            Err(f) => Err(f),
                            Ok(ov) => if ro && ov.0 is None {
                                Err(pfail("expected a timezone offset", ov.1))
                            } else if ov.1 < b.len() {
                                Err(pfail("trailing characters", ov.1))
                            } else {
                                Ok((z, tv.0, ov.0))
                            },
                        }
                    },
                }
            },
        },
    }
}

/// A bare ISO time of day (`HH:MM:SS[.fraction]`) as nanoseconds since
/// midnight.
pub open spec fn time_iso_outcome(b: Seq<u8>) -> Result<int, Fail> {
    match scan_time(b, 0) {
        Err(f) => Err(f),
        Ok(tv) => if tv.1 < b.len() {
            Err(pfail("trailing characters", tv.1))
        } else {
            match hms_error(tv.0.0 as int, tv.0.1 as int, tv.0.2 as int, tv.0.3 as int) {
                Some(c) => Err(kfail(ErrorKind::OutOfRange(c))),
                None => Ok(hms_nanos(tv.0.0 as int, tv.0.1 as int, tv.0.2 as int, tv.0.3 as int)),
            }
        },
    }
}

/// A bare offset in any accepted form, as seconds east of UTC.
pub open spec fn offset_iso_outcome(b: Seq<u8>) -> Result<int, Fail> {
    match scan_offset(b, 0) {
        Err(f) => Err(f),
        Ok(ov) => if ov.1 < b.len() {
            Err(pfail("trailing characters", ov.1))
        } else {
            Ok(ov.0 as int)
        },
    }
}

// ---------------------------------------------------------------------------
// Parsing
// ---------------------------------------------------------------------------

/// A scanned value and position agree with a typed outcome.
pub open spec fn scanned<T>(r: Result<(T, usize), Error>, o: Result<(T, int), Fail>) -> bool {
    match o {
        Ok(v) => r is Ok && r->Ok_0.0 == v.0 && r->Ok_0.1 == v.1,
        Err(f) => fails(r, f),
    }
}

/// Read an optional sign.
fn read_sign(b: &[u8], pos: usize) -> (r: (i64, usize))
    requires
        pos <= b@.len(),
    ensures
        r.0 == scan_sign(b@, pos as int).0,
        r.1 == scan_sign(b@, pos as int).1,
{
    if at_byte(b, pos, 45u8) {
        (-1, pos + 1)
    } else if at_byte(b, pos, 43u8) {
        (1, pos + 1)
    } else {
        (1, pos)
    }
}

/// Fail unless the byte at `pos` is `want`.
fn expect_byte(b: &[u8], pos: usize, want: u8, what: &'static str) -> (r: Result<usize, Error>)
    requires
        pos <= b@.len(),
    ensures
        byte_at(b@, pos as int) == Some(want) ==> (r is Ok && r->Ok_0 == pos + 1),
        byte_at(b@, pos as int) != Some(want) ==> fails(r, pfail(what, pos as int)),
{
    if at_byte(b, pos, want) {
        Ok(pos + 1)
    } else {
        Err(Error::parse(what, pos))
    }
}

/// Scanned digit counts stay inside the input.
pub proof fn lemma_scan_digits_in(b: Seq<u8>, pos: int, min: int, max: int)
    requires
        0 <= pos <= b.len(),
        0 <= max,
    ensures
        scan_digits(b, pos, min, max) is Ok ==> pos <= scan_digits(b, pos, min, max)->Ok_0.1
            <= b.len(),
        scan_digits(b, pos, min, max) is Ok ==> scan_digits(b, pos, min, max)->Ok_0.0 < pow10(
            max,
        ),
        scan_digits(b, pos, min, max) is Ok ==> scan_digits(b, pos, min, max)->Ok_0.0 >= 0,
{
    lemma_digit_run(b, pos, max);
    let n = digit_run(b, pos, max);
    if n > 0 {
        assert(digit_at(b, pos + (n - 1)));
    }
    lemma_digits_val_bound(b, pos, n as int);
    lemma_pow10_mono(n as int, max);
}

/// `[+-]YYYY-MM-DD`.
fn parse_date(b: &[u8], pos: usize) -> (r: Result<((i32, u32, u32), usize), Error>)
    requires
        pos <= b@.len(),
    ensures
        scanned(r, scan_date(b@, pos as int)),
        r is Ok ==> r->Ok_0.1 <= b@.len(),
{
    let (sign, p1) = read_sign(b, pos);
    proof {
        lemma_scan_digits_in(b@, p1 as int, 4, 9);
        lemma_pow10_table();
    }
    let (yv, p2) = match scan_digits_exec(b, p1, 4, 9) {
        Ok(v) => v,
        Err(e) => {
            return Err(e);
        },
    };
    let year = yv as i64 * sign;
    if year < i32::MIN as i64 || year > i32::MAX as i64 {
        return Err(Error::parse("year out of range", p2));
    }
    let p3 = match expect_byte(b, p2, 45u8, "expected '-' after year") {
        Ok(p) => p,
        Err(e) => {
            return Err(e);
        },
    };
    proof {
        lemma_scan_digits_in(b@, p3 as int, 2, 2);
    }
    let (m, p4) = match scan_digits_exec(b, p3, 2, 2) {
        Ok(v) => v,
        Err(e) => {
            return Err(e);
        },
    };
    let p5 = match expect_byte(b, p4, 45u8, "expected '-' after month") {
        Ok(p) => p,
        Err(e) => {
            return Err(e);
        },
    };
    proof {
        lemma_scan_digits_in(b@, p5 as int, 2, 2);
    }
    let (d, p6) = match scan_digits_exec(b, p5, 2, 2) {
        Ok(v) => v,
        Err(e) => {
            return Err(e);
        },
    };
    Ok(((year as i32, m as u32, d as u32), p6))
}

/// `.digits`, at most nine of them.
fn parse_fraction_digits(b: &[u8], pos: usize) -> (r: Result<((u64, u32), usize), Error>)
    requires
        pos <= b@.len(),
    ensures
        scanned(r, scan_fraction(b@, pos as int)),
        r is Ok ==> r->Ok_0.1 <= b@.len() && 1 <= r->Ok_0.0.1 <= 9 && r->Ok_0.0.0 < pow10(
            r->Ok_0.0.1 as int,
        ),
{
    let p1 = match expect_byte(b, pos, 46u8, "expected '.'") {
        Ok(p) => p,
        Err(e) => {
            return Err(e);
        },
    };
    let (v, p2) = read_digits(b, p1, 10);
    let n = p2 - p1;
    proof {
        lemma_digit_run(b@, p1 as int, 10);
        if n > 0 {
            assert(digit_at(b@, p1 + (n - 1)));
        }
        lemma_digits_val_bound(b@, p1 as int, n as int);
    }
    if n == 10 {
        return Err(Error::parse("fraction has more than 9 digits", p2));
    }
    if n == 0 {
        return Err(Error::parse("expected digits after '.'", p1));
    }
    Ok(((v, n as u32), p2))
}

/// `HH:MM:SS[.fraction]`.
fn parse_time(b: &[u8], pos: usize) -> (r: Result<((u32, u32, u32, u32), usize), Error>)
    requires
        pos <= b@.len(),
    ensures
        scanned(r, scan_time(b@, pos as int)),
        r is Ok ==> r->Ok_0.1 <= b@.len(),
{
    proof {
        lemma_pow10_table();
        lemma_scan_digits_in(b@, pos as int, 2, 2);
    }
    let (h, p1) = match scan_digits_exec(b, pos, 2, 2) {
        Ok(v) => v,
        Err(e) => {
            return Err(e);
        },
    };
    let p2 = match expect_byte(b, p1, 58u8, "expected ':' after hour") {
        Ok(p) => p,
        Err(e) => {
            return Err(e);
        },
    };
    proof {
        lemma_scan_digits_in(b@, p2 as int, 2, 2);
    }
    let (mi, p3) = match scan_digits_exec(b, p2, 2, 2) {
        Ok(v) => v,
        Err(e) => {
            return Err(e);
        },
    };
    let p4 = match expect_byte(b, p3, 58u8, "expected ':' after minute") {
        Ok(p) => p,
        Err(e) => {
            return Err(e);
        },
    };
    proof {
        lemma_scan_digits_in(b@, p4 as int, 2, 2);
    }
    let (s, p5) = match scan_digits_exec(b, p4, 2, 2) {
        Ok(v) => v,
        Err(e) => {
            return Err(e);
        },
    };
    if at_byte(b, p5, 46u8) {
        let ((v, n), p6) = match parse_fraction_digits(b, p5) {
            Ok(x) => x,
            Err(e) => {
                return Err(e);
            },
        };
        let scale = pow10_u64(9 - n);
        proof {
            vstd::arithmetic::mul::lemma_mul_strict_inequality(
                v as int,
                pow10(n as int) as int,
                scale as int,
            );
            lemma_pow10_sum(n as int, 9 - n);
        }
        let ns = v * scale;
        Ok(((h as u32, mi as u32, s as u32, ns as u32), p6))
    } else {
        Ok(((h as u32, mi as u32, s as u32, 0u32), p5))
    }
}

/// `10^a * 10^b == 10^(a+b)`.
pub proof fn lemma_pow10_sum(a: int, b: int)
    requires
        0 <= a,
        0 <= b,
    ensures
        pow10(a) * pow10(b) == pow10(a + b),
    decreases b,
{
    if b == 0 {
        assert(pow10(0) == 1);
        assert(pow10(a) * 1 == pow10(a));
    } else {
        lemma_pow10_sum(a, b - 1);
        let x: int = pow10(a) as int;
        let y: int = pow10(b - 1) as int;
        let z: int = pow10(a + b - 1) as int;
        assert(a + (b - 1) == a + b - 1);
        assert(x * y == z);
        assert(pow10(b) == y * 10);
        assert(pow10(a + b) == z * 10);
        assert(x * (y * 10) == (x * y) * 10) by (nonlinear_arith);
        assert(pow10(a) * pow10(b) == x * (y * 10));
    }
}

/// An offset in any accepted form, as an [`Offset`] and the position after
/// it.
pub fn scan_offset_exec(b: &[u8], pos: usize) -> (r: Result<(Offset, usize), Error>)
    requires
        pos <= b@.len(),
    ensures
        match scan_offset(b@, pos as int) {
            Ok(v) => r is Ok && r->Ok_0.0@ == v.0 && r->Ok_0.1 == v.1,
            Err(f) => fails(r, f),
        },
        r is Ok ==> r->Ok_0.1 <= b@.len(),
{
    if at_byte(b, pos, 90u8) || at_byte(b, pos, 122u8) {
        return Ok((Offset::utc(), pos + 1));
    }
    if !(at_byte(b, pos, 43u8) || at_byte(b, pos, 45u8)) {
        return Err(Error::parse("expected a timezone offset", pos));
    }
    let negative = b[pos] != 43u8;
    proof {
        lemma_pow10_table();
        lemma_scan_digits_in(b@, pos + 1, 2, 2);
    }
    let (hours, p1) = match scan_digits_exec(b, pos + 1, 2, 2) {
        Ok(v) => v,
        Err(e) => {
            return Err(e);
        },
    };
    let (minutes, p2) = if at_byte(b, p1, 58u8) {
        proof {
            lemma_scan_digits_in(b@, p1 + 1, 2, 2);
        }
        match scan_digits_exec(b, p1 + 1, 2, 2) {
            Ok(v) => v,
            Err(e) => {
                return Err(e);
            },
        }
    } else if p1 < b.len() && b[p1] >= 48u8 && b[p1] <= 57u8 {
        proof {
            lemma_scan_digits_in(b@, p1 as int, 2, 2);
        }
        match scan_digits_exec(b, p1, 2, 2) {
            Ok(v) => v,
            Err(e) => {
                return Err(e);
            },
        }
    } else {
        (0u64, p1)
    };
    let (seconds, p3) = if at_byte(b, p2, 58u8) {
        proof {
            lemma_scan_digits_in(b@, p2 + 1, 2, 2);
        }
        match scan_digits_exec(b, p2 + 1, 2, 2) {
            Ok(v) => v,
            Err(e) => {
                return Err(e);
            },
        }
    } else {
        (0u64, p2)
    };
    if hours > 23 || minutes > 59 || seconds > 59 {
        return Err(Error::parse("offset component out of range", p3));
    }
    let mag = hours as i64 * 3600 + minutes as i64 * 60 + seconds as i64;
    let total: i64 = if negative {
        -mag
    } else {
        mag
    };
    match Offset::from_seconds(total as i32) {
        Ok(o) => Ok((o, p3)),
        Err(e) => Err(e),
    }
}

/// The optional time section of an ISO timestamp.
fn parse_iso_time(b: &[u8], pos: usize) -> (r: Result<(Option<TimeOfDay>, usize), Error>)
    requires
        pos <= b@.len(),
    ensures
        match scan_iso_time(b@, pos as int) {
            Ok(v) => r is Ok && r->Ok_0.1 == v.1 && (v.0 is None <==> r->Ok_0.0 is None) && (v.0 is Some
                ==> r->Ok_0.0->Some_0@ == v.0->Some_0),
            Err(f) => fails(r, f),
        },
        r is Ok ==> r->Ok_0.1 <= b@.len(),
{
    if at_byte(b, pos, 84u8) || at_byte(b, pos, 116u8) || at_byte(b, pos, 32u8) {
        let ((h, mi, s, ns), p1) = match parse_time(b, pos + 1) {
            Ok(v) => v,
            Err(e) => {
                return Err(e);
            },
        };
        match TimeOfDay::from_hms_nano(h, mi, s, ns) {
            Ok(t) => Ok((Some(t), p1)),
            Err(e) => Err(e),
        }
    } else {
        Ok((None, pos))
    }
}

/// A scanned ISO timestamp: date, optional time, optional offset.
pub struct ScanResult {
    pub date: Date,
    pub time: Option<TimeOfDay>,
    pub offset: Option<Offset>,
}

/// Scan `b` as an ISO 8601 timestamp with configurable required sections.
pub(crate) fn scan_iso_exec(b: &[u8], require_time: bool, require_offset: bool) -> (r: Result<ScanResult, Error>)
    ensures
        match scan_iso(b@, require_time, require_offset) {
            Ok(v) => r is Ok && r->Ok_0.date@ == v.0 && (v.1 is None <==> r->Ok_0.time is None) && (
            v.1 is Some ==> r->Ok_0.time->Some_0@ == v.1->Some_0) && (v.2 is None
                <==> r->Ok_0.offset is None) && (v.2 is Some ==> r->Ok_0.offset->Some_0@
                == v.2->Some_0),
            Err(f) => fails(r, f),
        },
{
    let ((y, m, d), p1) = match parse_date(b, 0) {
        Ok(v) => v,
        Err(e) => {
            return Err(e);
        },
    };
    let date = match Date::from_ymd(y, m, d) {
        Ok(v) => v,
        Err(e) => {
            return Err(e);
        },
    };
    if (at_byte(b, p1, 84u8) || at_byte(b, p1, 116u8) || at_byte(b, p1, 32u8)) && !require_time {
        return Err(Error::parse("time component not allowed", p1));
    }
    let (time, p2) = match parse_iso_time(b, p1) {
        Ok(v) => v,
        Err(e) => {
            return Err(e);
        },
    };
    if require_time && time.is_none() {
        return Err(Error::parse("expected a time component", p2));
    }
    let osig = at_byte(b, p2, 90u8) || at_byte(b, p2, 122u8) || at_byte(b, p2, 43u8) || at_byte(
        b,
        p2,
        45u8,
    );
    if osig && !require_offset {
        return Err(Error::parse("timezone offset not allowed", p2));
    }
    let (offset, p3) = if osig {
        match scan_offset_exec(b, p2) {
            Ok((o, p)) => (Some(o), p),
            Err(e) => {
                return Err(e);
            },
        }
    } else {
        (None, p2)
    };
    if require_offset && offset.is_none() {
        return Err(Error::parse("expected a timezone offset", p3));
    }
    if p3 < b.len() {
        return Err(Error::parse("trailing characters", p3));
    }
    Ok(ScanResult { date, time, offset })
}

/// Parse a calendar date only (`YYYY-MM-DD`).
pub fn parse_date_iso(s: &str) -> (r: Result<Date, Error>)
    ensures
        match scan_iso(s.spec_bytes(), false, false) {
            Ok(v) => r is Ok && r->Ok_0@ == v.0,
            Err(f) => fails(r, f),
        },
{
    match scan_iso_exec(s.as_bytes(), false, false) {
        Ok(v) => Ok(v.date),
        Err(e) => Err(e),
    }
}

/// Parse a time of day only (`HH:MM:SS[.fraction]`).
pub fn parse_time_iso(s: &str) -> (r: Result<TimeOfDay, Error>)
    ensures
        match time_iso_outcome(s.spec_bytes()) {
            Ok(v) => r is Ok && r->Ok_0@ == v,
            Err(f) => fails(r, f),
        },
{
    let b = s.as_bytes();
    let ((h, m, sec, ns), p) = match parse_time(b, 0) {
        Ok(v) => v,
        Err(e) => {
            return Err(e);
        },
    };
    if p < b.len() {
        return Err(Error::parse("trailing characters", p));
    }
    TimeOfDay::from_hms_nano(h, m, sec, ns)
}

/// Parse a local date-time (`YYYY-MM-DDTHH:MM:SS[.fraction]`, no zone).
pub fn parse_civil_iso(s: &str) -> (r: Result<(Date, TimeOfDay), Error>)
    ensures
        match scan_iso(s.spec_bytes(), true, false) {
            Ok(v) => r is Ok && r->Ok_0.0@ == v.0 && v.1 is Some && r->Ok_0.1@ == v.1->Some_0,
            Err(f) => fails(r, f),
        },
{
    match scan_iso_exec(s.as_bytes(), true, false) {
        Ok(v) => match v.time {
            Some(t) => Ok((v.date, t)),
            None => Err(Error::parse("expected a time component", 0)),
        },
        Err(e) => Err(e),
    }
}

/// Parse a full RFC 3339 timestamp (date, time, offset).
pub fn parse_rfc3339(s: &str) -> (r: Result<(Date, TimeOfDay, Offset), Error>)
    ensures
        match scan_iso(s.spec_bytes(), true, true) {
            Ok(v) => r is Ok && r->Ok_0.0@ == v.0 && v.1 is Some && r->Ok_0.1@ == v.1->Some_0
                && v.2 is Some && r->Ok_0.2@ == v.2->Some_0,
            Err(f) => fails(r, f),
        },
{
    match scan_iso_exec(s.as_bytes(), true, true) {
        Ok(v) => match (v.time, v.offset) {
            (Some(t), Some(o)) => Ok((v.date, t, o)),
            _ => Err(Error::parse("expected a timezone offset", 0)),
        },
        Err(e) => Err(e),
    }
}

/// Parse an offset in any accepted textual form.
pub fn parse_offset_iso(s: &str) -> (r: Result<Offset, Error>)
    ensures
        match offset_iso_outcome(s.spec_bytes()) {
            Ok(v) => r is Ok && r->Ok_0@ == v,
            Err(f) => fails(r, f),
        },
{
    let b = s.as_bytes();
    let (o, p) = match scan_offset_exec(b, 0) {
        Ok(v) => v,
        Err(e) => {
            return Err(e);
        },
    };
    if p < b.len() {
        return Err(Error::parse("trailing characters", p));
    }
    Ok(o)
}

// ---------------------------------------------------------------------------
// ISO 8601 durations
// ---------------------------------------------------------------------------

/// The number of a duration component, `int[.frac]`, as
/// `(integer part, fraction value, fraction digits)` and the position after
/// it. The integer part may have any number of digits; too large a value
/// shows as an overflow when the component is added. An explicit zero
/// (`PT0S`) is a number; nothing at all is not.
pub open spec fn scan_dnum(b: Seq<u8>, pos: int) -> Result<((int, int, int), int), Fail> {
    let n = digit_run(b, pos, b.len() - pos);
    let iv = digits_val(b, pos, n as int) as int;
    let p1 = pos + n;
    if byte_at(b, p1) == Some(46u8) {
        match scan_fraction(b, p1) {
            Err(f) => Err(f),
            Ok(fv) => if n == 0 && fv.0.0 == 0 {
                Err(pfail("expected a number", fv.1))
            } else {
                Ok(((iv, fv.0.0 as int, fv.0.1 as int), fv.1))
            },
        }
    } else if n == 0 {
        Err(pfail("expected a number", p1))
    } else {
        Ok(((iv, 0, 0), p1))
    }
}

/// The largest magnitude a span can have: `2^127` nanoseconds, which only
/// a negative span reaches.
pub open spec fn span_cap() -> int {
    0x8000_0000_0000_0000_0000_0000_0000_0000
}

/// The largest magnitude a duration text may reach: `i128::MAX`, or
/// `2^127` for a negative span (whose value is then `i128::MIN`).
pub open spec fn span_limit(neg: bool) -> int {
    if neg {
        span_cap()
    } else {
        i128::MAX as int
    }
}

/// Add `int * unit + frac * unit / 10^digits` to the magnitude `total`,
/// failing with an overflow when either step passes `limit`.
pub open spec fn add_component(total: int, c: (int, int, int), unit: int, limit: int) -> Result<
    int,
    Fail,
> {
    let v1 = total + c.0 * unit;
    if v1 > limit {
        Err(kfail(ErrorKind::Overflow))
    } else if c.2 > 0 {
        let v2 = v1 + (c.1 * unit) / (pow10(c.2) as int);
        if v2 > limit {
            Err(kfail(ErrorKind::Overflow))
        } else {
            Ok(v2)
        }
    } else {
        Ok(v1)
    }
}

/// The components before `T` (weeks and days): the running magnitude, the
/// position after them, whether any was read, and whether a `T` was read.
pub open spec fn dur_pre(b: Seq<u8>, pos: int, total: int, limit: int) -> Result<
    (int, int, bool, bool),
    Fail,
>
    decreases b.len() - pos,
{
    if byte_at(b, pos) == Some(84u8) {
        Ok((total, pos + 1, false, true))
    } else if pos >= b.len() || pos < 0 {
        Ok((total, pos, false, false))
    } else {
        match scan_dnum(b, pos) {
            Err(f) => Err(f),
            Ok(nv) => {
                let p1 = nv.1;
                if p1 >= b.len() || p1 < pos {
                    Err(pfail("expected a unit after the number", p1))
                } else if b[p1] != 87u8 && b[p1] != 68u8 {
                    Err(pfail("expected 'W' or 'D' before 'T'", p1 + 1))
                } else {
                    let unit: int = if b[p1] == 87u8 {
                        7 * NS_PER_DAY
                    } else {
                        NS_PER_DAY as int
                    };
                    match add_component(total, nv.0, unit, limit) {
                        Err(f) => Err(f),
                        Ok(t) => match dur_pre(b, p1 + 1, t, limit) {
                            Err(f) => Err(f),
                            Ok(x) => Ok((x.0, x.1, true, x.3)),
                        },
                    }
                }
            },
        }
    }
}

/// The components after `T` (hours, minutes, seconds): the running
/// magnitude, the position after them and how many were read.
pub open spec fn dur_post(b: Seq<u8>, pos: int, total: int, limit: int) -> Result<
    (int, int, int),
    Fail,
>
    decreases b.len() - pos,
{
    if pos >= b.len() || pos < 0 {
        Ok((total, pos, 0))
    } else {
        match scan_dnum(b, pos) {
            Err(f) => Err(f),
            Ok(nv) => {
                let p1 = nv.1;
                if p1 >= b.len() || p1 < pos {
                    Err(pfail("expected a unit after the number", p1))
                } else if b[p1] == 87u8 || b[p1] == 68u8 {
                    Err(pfail("'W'/'D' are not allowed after 'T'", p1 + 1))
                } else if b[p1] != 72u8 && b[p1] != 77u8 && b[p1] != 83u8 {
                    Err(pfail("expected 'H', 'M' or 'S' after 'T'", p1 + 1))
                } else {
                    let unit: int = if b[p1] == 72u8 {
                        NS_PER_HOUR as int
                    } else if b[p1] == 77u8 {
                        NS_PER_MIN as int
                    } else {
                        NS_PER_SEC as int
                    };
                    match add_component(total, nv.0, unit, limit) {
                        Err(f) => Err(f),
                        Ok(t) => match dur_post(b, p1 + 1, t, limit) {
                            Err(f) => Err(f),
                            Ok(x) => Ok((x.0, x.1, x.2 + 1)),
                        },
                    }
                }
            },
        }
    }
}

/// An ISO 8601 duration: `[-]P[n]W`, `[-]P[n]D` and `[-]P[n]DT[n]H[n]M[n]S`
/// forms, a fraction allowed on any component; years and pre-`T` months are
/// rejected. The value is in nanoseconds; its magnitude may not pass
/// [`span_limit`].
pub open spec fn duration_iso_outcome(b: Seq<u8>) -> Result<int, Fail> {
    let neg = byte_at(b, 0) == Some(45u8);
    let p0: int = if neg {
        1
    } else {
        0
    };
    let limit = span_limit(neg);
    if byte_at(b, p0) != Some(80u8) {
        Err(pfail("expected 'P'", p0))
    } else {
        match dur_pre(b, p0 + 1, 0, limit) {
            Err(f) => Err(f),
            Ok(a) => match dur_post(b, a.1, a.0, limit) {
                Err(f) => Err(f),
                Ok(c) => if a.3 && c.2 == 0 {
                    Err(pfail("expected a time component after 'T'", c.1))
                } else if c.1 < b.len() {
                    Err(pfail("trailing characters", c.1))
                } else if !(a.2 || c.2 > 0) {
                    Err(pfail("duration has no components", c.1))
                } else {
                    Ok(
                        if neg {
                            -c.0
                        } else {
                            c.0
                        },
                    )
                },
            },
        }
    }
}

/// Read the digits at `pos`, however many: their value while it stays at
/// most `2^127`, and whether it passed that.
fn read_wide_digits(b: &[u8], pos: usize) -> (r: (u128, bool, usize))
    requires
        pos <= b@.len(),
    ensures
        r.2 == pos + digit_run(b@, pos as int, b@.len() - pos),
        r.1 <==> digits_val(b@, pos as int, r.2 - pos) > span_cap(),
        !r.1 ==> r.0 == digits_val(b@, pos as int, r.2 - pos),
{
    let cap: u128 = 0x8000_0000_0000_0000_0000_0000_0000_0000;
    let mut v: u128 = 0;
    let mut big = false;
    let mut p: usize = pos;
    while p < b.len() && b[p] >= 48 && b[p] <= 57
        invariant
            pos <= p <= b@.len(),
            cap == span_cap(),
            forall|j: int| 0 <= j < p - pos ==> #[trigger] digit_at(b@, pos + j),
            big ==> digits_val(b@, pos as int, p - pos) > span_cap(),
            !big ==> v == digits_val(b@, pos as int, p - pos) && v <= span_cap(),
        decreases b@.len() - p,
    {
        let d = (b[p] - 48) as u128;
        proof {
            assert(digits_val(b@, pos as int, p - pos + 1) == digits_val(b@, pos as int, p - pos) * 10
                + d);
        }
        if !big {
            if v > cap / 10 {
                big = true;
            } else {
                let w = v * 10 + d;
                if w > cap {
                    big = true;
                } else {
                    v = w;
                }
            }
        }
        proof {
            assert(digit_at(b@, pos + (p - pos)));
        }
        p = p + 1;
    }
    proof {
        let n = (p - pos) as int;
        let max = b@.len() - pos;
        lemma_digit_run_step(b@, pos as int, max, n);
        if n < max {
            assert(!digit_at(b@, pos + n));
        }
        assert(digit_run(b@, p as int, max - n) == 0);
    }
    (v, big, p)
}

/// Read the number of a duration component: its integer part (exact while
/// at most `2^127`, else only flagged as larger), its fraction and the
/// fraction's digit count.
fn parse_duration_number(b: &[u8], pos: usize) -> (r: Result<((u128, bool, u64, u32), usize), Error>)
    requires
        pos <= b@.len(),
    ensures
        match scan_dnum(b@, pos as int) {
            Ok(v) => r is Ok && (r->Ok_0.0.1 <==> v.0.0 > span_cap()) && (!r->Ok_0.0.1
                ==> r->Ok_0.0.0 == v.0.0) && r->Ok_0.0.2 == v.0.1 && r->Ok_0.0.3 == v.0.2
                && r->Ok_0.1 == v.1,
            Err(f) => fails(r, f),
        },
        r is Ok ==> pos <= r->Ok_0.1 <= b@.len() && r->Ok_0.0.3 <= 9 && r->Ok_0.0.2 < pow10(
            r->Ok_0.0.3 as int,
        ),
{
    let (iv, big, p1) = read_wide_digits(b, pos);
    let n = p1 - pos;
    proof {
        lemma_digit_run(b@, pos as int, b@.len() - pos);
        lemma_pow10_table();
    }
    if at_byte(b, p1, 46u8) {
        let ((fv, fd), p2) = match parse_fraction_digits(b, p1) {
            Ok(v) => v,
            Err(e) => {
                return Err(e);
            },
        };
        if n == 0 && fv == 0 {
            return Err(Error::parse("expected a number", p2));
        }
        Ok(((iv, big, fv, fd), p2))
    } else {
        if n == 0 {
            return Err(Error::parse("expected a number", p1));
        }
        proof {
            assert(pow10(0) == 1);
        }
        Ok(((iv, big, 0, 0), p1))
    }
}

/// Add one duration component to the running magnitude.
fn add_duration_component(
    total: u128,
    iv: u128,
    big: bool,
    Ghost(ivs): Ghost<int>,
    fv: u64,
    digits: u32,
    unit: u128,
    limit: u128,
) -> (r: Result<u128, Error>)
    requires
        total <= limit <= span_cap(),
        0 < unit <= 7 * NS_PER_DAY,
        digits <= 9,
        fv < pow10(digits as int),
        ivs >= 0,
        big ==> ivs > span_cap(),
        !big ==> ivs == iv,
    ensures
        match add_component(total as int, (ivs, fv as int, digits as int), unit as int, limit as int) {
            Ok(v) => r == Ok::<u128, Error>(v as u128),
            Err(f) => fails(r, f),
        },
        r is Ok ==> total <= r->Ok_0 <= limit,
{
    proof {
        lemma_pow10_table();
        lemma_pow10_mono(digits as int, 9);
        assert(ivs * unit >= ivs) by (nonlinear_arith)
            requires
                ivs >= 0,
                unit >= 1,
        ;
    }
    if big {
        return Err(Error::overflow());
    }
    let prod = match iv.checked_mul(unit) {
        Some(v) => v,
        None => {
            return Err(Error::overflow());
        },
    };
    let v1 = match total.checked_add(prod) {
        Some(v) => v,
        None => {
            return Err(Error::overflow());
        },
    };
    if v1 > limit {
        return Err(Error::overflow());
    }
    if digits > 0 {
        let scale = pow10_u64(digits) as u128;
        proof {
            assert(fv as int * unit as int <= 1_000_000_000 * 7 * NS_PER_DAY) by (nonlinear_arith)
                requires
                    fv <= 1_000_000_000,
                    0 < unit <= 7 * NS_PER_DAY,
            ;
            assert(fv as int * unit as int >= 0) by (nonlinear_arith)
                requires
                    0 < unit,
            ;
            vstd::arithmetic::div_mod::lemma_div_is_ordered_by_denominator(
                fv as int * unit as int,
                1,
                scale as int,
            );
        }
        let frac_ns = (fv as u128 * unit) / scale;
        let v2 = v1 + frac_ns;
        if v2 > limit {
            return Err(Error::overflow());
        }
        Ok(v2)
    } else {
        Ok(v1)
    }
}

/// The components before `T`.
fn parse_dur_pre(b: &[u8], pos: usize, total: u128, limit: u128) -> (r: Result<
    (u128, usize, bool, bool),
    Error,
>)
    requires
        pos <= b@.len(),
        total <= limit <= span_cap(),
    ensures
        match dur_pre(b@, pos as int, total as int, limit as int) {
            Ok(v) => r is Ok && r->Ok_0.0 == v.0 && r->Ok_0.1 == v.1 && r->Ok_0.2 == v.2
                && r->Ok_0.3 == v.3,
            Err(f) => fails(r, f),
        },
        r is Ok ==> r->Ok_0.0 <= limit && r->Ok_0.1 <= b@.len(),
    decreases b@.len() - pos,
{
    if at_byte(b, pos, 84u8) {
        return Ok((total, pos + 1, false, true));
    }
    if pos >= b.len() {
        return Ok((total, pos, false, false));
    }
    let ((iv, big, fv, fd), p1) = match parse_duration_number(b, pos) {
        Ok(v) => v,
        Err(e) => {
            return Err(e);
        },
    };
    let ghost ivs = scan_dnum(b@, pos as int)->Ok_0.0.0;
    if p1 >= b.len() {
        return Err(Error::parse("expected a unit after the number", p1));
    }
    let c = b[p1];
    if c != 87u8 && c != 68u8 {
        return Err(Error::parse("expected 'W' or 'D' before 'T'", p1 + 1));
    }
    let unit: u128 = if c == 87u8 {
        7 * NS_PER_DAY as u128
    } else {
        NS_PER_DAY as u128
    };
    let t = match add_duration_component(total, iv, big, Ghost(ivs), fv, fd, unit, limit) {
        Ok(v) => v,
        Err(e) => {
            return Err(e);
        },
    };
    match parse_dur_pre(b, p1 + 1, t, limit) {
        Ok((t2, p2, _, st)) => Ok((t2, p2, true, st)),
        Err(e) => Err(e),
    }
}

/// The components after `T`.
fn parse_dur_post(b: &[u8], pos: usize, total: u128, limit: u128) -> (r: Result<
    (u128, usize, usize),
    Error,
>)
    requires
        pos <= b@.len(),
        total <= limit <= span_cap(),
    ensures
        match dur_post(b@, pos as int, total as int, limit as int) {
            Ok(v) => r is Ok && r->Ok_0.0 == v.0 && r->Ok_0.1 == v.1 && r->Ok_0.2 == v.2,
            Err(f) => fails(r, f),
        },
        r is Ok ==> r->Ok_0.0 <= limit && r->Ok_0.1 <= b@.len() && r->Ok_0.2 <= b@.len() - pos,
    decreases b@.len() - pos,
{
    if pos >= b.len() {
        return Ok((total, pos, 0));
    }
    let ((iv, big, fv, fd), p1) = match parse_duration_number(b, pos) {
        Ok(v) => v,
        Err(e) => {
            return Err(e);
        },
    };
    let ghost ivs = scan_dnum(b@, pos as int)->Ok_0.0.0;
    if p1 >= b.len() {
        return Err(Error::parse("expected a unit after the number", p1));
    }
    let c = b[p1];
    if c == 87u8 || c == 68u8 {
        return Err(Error::parse("'W'/'D' are not allowed after 'T'", p1 + 1));
    }
    if c != 72u8 && c != 77u8 && c != 83u8 {
        return Err(Error::parse("expected 'H', 'M' or 'S' after 'T'", p1 + 1));
    }
    let unit: u128 = if c == 72u8 {
        NS_PER_HOUR as u128
    } else if c == 77u8 {
        NS_PER_MIN as u128
    } else {
        NS_PER_SEC as u128
    };
    let t = match add_duration_component(total, iv, big, Ghost(ivs), fv, fd, unit, limit) {
        Ok(v) => v,
        Err(e) => {
            return Err(e);
        },
    };
    match parse_dur_post(b, p1 + 1, t, limit) {
        Ok((t2, p2, k)) => Ok((t2, p2, k + 1)),
        Err(e) => Err(e),
    }
}

/// Parse an ISO 8601 duration into nanoseconds.
pub fn parse_duration_iso(s: &str) -> (r: Result<i128, Error>)
    ensures
        match duration_iso_outcome(s.spec_bytes()) {
            Ok(v) => r is Ok && r->Ok_0 == v,
            Err(f) => fails(r, f),
        },
{
    let b = s.as_bytes();
    let negative = at_byte(b, 0, 45u8);
    let p0: usize = if negative {
        1
    } else {
        0
    };
    let limit: u128 = if negative {
        0x8000_0000_0000_0000_0000_0000_0000_0000
    } else {
        0x7fff_ffff_ffff_ffff_ffff_ffff_ffff_ffff
    };
    let p1 = match expect_byte(b, p0, 80u8, "expected 'P'") {
        Ok(p) => p,
        Err(e) => {
            return Err(e);
        },
    };
    let (t1, p2, any_pre, saw_t) = match parse_dur_pre(b, p1, 0, limit) {
        Ok(v) => v,
        Err(e) => {
            return Err(e);
        },
    };
    let (t2, p3, post) = match parse_dur_post(b, p2, t1, limit) {
        Ok(v) => v,
        Err(e) => {
            return Err(e);
        },
    };
    if saw_t && post == 0 {
        return Err(Error::parse("expected a time component after 'T'", p3));
    }
    if p3 < b.len() {
        return Err(Error::parse("trailing characters", p3));
    }
    if !(any_pre || post > 0) {
        return Err(Error::parse("duration has no components", p3));
    }
    if negative {
        if t2 == 0x8000_0000_0000_0000_0000_0000_0000_0000 {
            Ok(i128::MIN)
        } else {
            Ok(-(t2 as i128))
        }
    } else {
        Ok(t2 as i128)
    }
}

} // verus!
