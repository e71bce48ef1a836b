//! strftime-style format strings.
//!
//! The `%`-directive formatting and parsing engine, built on the same byte
//! scanner as the ISO parsers, so every failure carries a byte offset.
//!
//! Supported directives (formatting and parsing unless noted):
//!
//! | directive | meaning |
//! |---|---|
//! | `%Y %y %C` | year, 2-digit year, century |
//! | `%m %d %e` | month, day, space-padded day |
//! | `%j` | day of year (001-366) |
//! | `%H %I %k %l` | 24h hour, 12h hour, space-padded variants |
//! | `%M %S` | minute, second |
//! | `%f` `%.f` `%.3f` `%.6f` `%.9f` | nanoseconds, variable/fixed fraction |
//! | `%p %P` | AM/PM, am/pm |
//! | `%a %A %b %h %B` | weekday and month names |
//! | `%G %g %V` | ISO week year / ISO week number |
//! | `%u %w` | weekday numbers (ISO 1-7 / Sunday 0-6) |
//! | `%U %W` | week of year (Sunday-/Monday-based) |
//! | `%z %:z %Z` | offset `+HHMM`, `+HH:MM`, zone name |
//! | `%s` | Unix timestamp (seconds) |
//! | `%F %D %x %R %T %X %r` | composite forms |
//! | `%+` | RFC 3339 |
//! | `%n %t %%` | newline, tab, literal `%` |
//!
//! Padding modifiers `%-` (none), `%_` (space) and `%0` (zero) are honored,
//! and `%#S` formats without a leading zero. Formatting rejects unknown
//! directives instead of silently emitting them.

use vstd::prelude::*;
use vstd::utf8::{encode_utf8, valid_utf8};
use vstd::string::StringSliceAdditionalSpecFns;

use crate::calendar::{
    day_of_year, days_from_civil, days_from_ymd, floor_div, floor_mod, iso_week_from_civil,
    iso_week_of_days, lemma_civil_window, month_at, month_name, month_short_name, valid_ymd,
    weekday_from_civil, weekday_name, weekday_num, weekday_of_days, weekday_short_name,
    weekday_at, year_start, ymd_of_days, Month, Weekday,
};
use crate::date::fits_date;
use crate::datetime::CivilDateTime;
use crate::error::{Error, ErrorKind};
use crate::format::trim_zeros;
use crate::offset::valid_offset_secs;
use crate::scan::{byte_at, fails, kfail, pfail, Fail, digit_run, digits_val, pow10, pow10_u64, lemma_pow10_table, lemma_pow10_mono};
use crate::text::{ascii_eq_ci, dec_digits, dec_padded, left_pad, push_bytes, push_dec, push_padded, push_str};

verus! {

// ---------------------------------------------------------------------------
// What the formatter produces
// ---------------------------------------------------------------------------

/// A fully-resolved view of a timestamp for the formatter.
#[derive(Clone, Copy, Debug)]
pub struct Parts {
    pub year: i32,
    pub month: u32,
    pub day: u32,
    pub hour: u32,
    pub minute: u32,
    pub second: u32,
    pub nanos: u32,
    /// The offset seconds, when an offset is shown.
    pub offset: Option<i32>,
    pub zone_name: Option<&'static str>,
    pub timestamp: Option<i64>,
}

/// The parts describe a representable reading.
pub open spec fn parts_wf(p: Parts) -> bool {
    &&& valid_ymd(p.year as int, p.month as int, p.day as int)
    &&& fits_date(days_from_ymd(p.year as int, p.month as int, p.day as int))
    &&& p.hour < 24 && p.minute < 60 && p.second < 60 && p.nanos < 1_000_000_000
    &&& (p.offset is Some ==> valid_offset_secs(p.offset->Some_0 as int))
}

/// The padding byte a modifier asks for: a space for `_` (and a space pad),
/// else a zero.
pub open spec fn pad_char(pad: u8) -> u8 {
    if pad == 95u8 || pad == 32u8 {
        32u8
    } else {
        48u8
    }
}

/// `v` in decimal, right-justified to `width` with the requested padding;
/// no padding at all for `-`.
pub open spec fn pad_text(v: nat, width: int, pad: u8) -> Seq<u8> {
    if pad == 45u8 {
        dec_digits(v)
    } else {
        left_pad(dec_digits(v), width, pad_char(pad))
    }
}

/// A signed value: `-` and the padded magnitude.
pub open spec fn signed_pad_text(v: int, width: int, pad: u8) -> Seq<u8> {
    if v < 0 {
        seq![45u8] + pad_text((-v) as nat, width, pad)
    } else {
        pad_text(v as nat, width, pad)
    }
}

/// The 12-hour clock hour (1..=12).
pub open spec fn hour12(h: int) -> int {
    if h % 12 == 0 {
        12
    } else {
        h % 12
    }
}

/// A fractional-second part: `width == 0` means variable (trailing zeros
/// trimmed, nothing for zero); otherwise exactly `width` digits.
pub open spec fn frac_text(nanos: int, width: int) -> Seq<u8> {
    if width == 0 {
        if nanos != 0 {
            seq![46u8] + trim_zeros(dec_padded(nanos as nat, 9))
        } else {
            Seq::empty()
        }
    } else {
        seq![46u8] + pad_text((nanos / (pow10(9 - width) as int)) as nat, width, 48u8)
    }
}

/// The fields of a nonzero offset magnitude: hours, minutes and, when
/// nonzero, seconds, separated by `:` in the colon form.
pub open spec fn offset_fields_text(abs: int, colon: bool) -> Seq<u8> {
    dec_padded((abs / 3600) as nat, 2) + sep_text(colon) + dec_padded(((abs % 3600) / 60) as nat, 2)
        + (if abs % 60 != 0 {
        sep_text(colon) + dec_padded((abs % 60) as nat, 2)
    } else {
        Seq::empty()
    })
}

/// The `%z` (`+HHMM`) or `%:z` (`+HH:MM`) rendering of an offset; seconds
/// are appended when nonzero.
pub open spec fn strf_offset_text(secs: int, colon: bool) -> Seq<u8> {
    if secs == 0 {
        seq![43u8, 48u8, 48u8] + sep_text(colon) + seq![48u8, 48u8]
    } else if secs < 0 {
        seq![45u8] + offset_fields_text(-secs, colon)
    } else {
        seq![43u8] + offset_fields_text(secs, colon)
    }
}

/// Week of year counted from the first week-start day (Sunday when `sun`,
/// else Monday); days before it are week 0.
pub open spec fn week_of_year(z: int, jan1: int, sun: bool) -> int {
    let shift: int = if sun {
        1
    } else {
        0
    };
    let jan1_idx = (weekday_num(weekday_of_days(jan1)) + shift) % 7;
    let first = jan1 + (7 - jan1_idx) % 7;
    let cur_idx = (weekday_num(weekday_of_days(z)) + shift) % 7;
    let week = (z - cur_idx - first) / 7 + 1;
    if week > 0 {
        week
    } else {
        0
    }
}

/// Day count of the parts' date.
pub open spec fn parts_days(p: Parts) -> int {
    days_from_ymd(p.year as int, p.month as int, p.day as int)
}

/// Whether a directive expands to other directives.
pub open spec fn is_composite(d: u8) -> bool {
    d == 70u8 || d == 68u8 || d == 120u8 || d == 82u8 || d == 84u8 || d == 88u8 || d == 114u8
        || d == 43u8
}

/// The text of one non-composite directive, `None` when `d` is not one.
#[verifier::opaque]
pub open spec fn simple_text(d: u8, pad: u8, width: int, p: Parts) -> Option<Seq<u8>> {
    let year = p.year as int;
    let z = parts_days(p);
    let wd = weekday_of_days(z);
    let iso = iso_week_of_days(z);
    let w4 = if width > 4 {
        width
    } else {
        4
    };
    if d == 89u8 {
        Some(signed_pad_text(year, w4, pad))
    } else if d == 121u8 {
        Some(pad_text((year % 100) as nat, 2, pad))
    } else if d == 67u8 {
        Some(pad_text(((year / 100) as u64) as nat, 2, pad))
    } else if d == 109u8 {
        Some(pad_text(p.month as nat, 2, pad))
    } else if d == 100u8 {
        Some(pad_text(p.day as nat, 2, pad))
    } else if d == 101u8 {
        Some(pad_text(p.day as nat, 2, 32u8))
    } else if d == 106u8 {
        Some(pad_text((z - year_start(year) + 1) as nat, 3, pad))
    } else if d == 72u8 {
        Some(pad_text(p.hour as nat, 2, pad))
    } else if d == 73u8 {
        Some(pad_text(hour12(p.hour as int) as nat, 2, pad))
    } else if d == 107u8 {
        Some(pad_text(p.hour as nat, 2, 32u8))
    } else if d == 108u8 {
        Some(pad_text(hour12(p.hour as int) as nat, 2, 32u8))
    } else if d == 77u8 {
        Some(pad_text(p.minute as nat, 2, pad))
    } else if d == 83u8 {
        Some(pad_text(p.second as nat, 2, pad))
    } else if d == 102u8 {
        Some(pad_text(p.nanos as nat, 9, 48u8))
    } else if d == 112u8 {
        Some(
            if p.hour < 12 {
                seq![65u8, 77u8]
            } else {
                seq![80u8, 77u8]
            },
        )
    } else if d == 80u8 {
        Some(
            if p.hour < 12 {
                seq![97u8, 109u8]
            } else {
                seq![112u8, 109u8]
            },
        )
    } else if d == 97u8 {
        Some(weekday_short_name(wd).spec_bytes())
    } else if d == 65u8 {
        Some(weekday_name(wd).spec_bytes())
    } else if d == 98u8 || d == 104u8 {
        Some(month_short_name(month_at(p.month as int)).spec_bytes())
    } else if d == 66u8 {
        Some(month_name(month_at(p.month as int)).spec_bytes())
    } else if d == 71u8 {
        Some(signed_pad_text(iso.0, w4, pad))
    } else if d == 103u8 {
        Some(pad_text((iso.0 % 100) as nat, 2, pad))
    } else if d == 86u8 {
        Some(pad_text(iso.1 as nat, 2, pad))
    } else if d == 117u8 {
        Some(pad_text((weekday_num(wd) + 1) as nat, 1, pad))
    } else if d == 119u8 {
        Some(pad_text(((weekday_num(wd) + 1) % 7) as nat, 1, pad))
    } else if d == 85u8 {
        Some(pad_text(week_of_year(z, days_from_ymd(year, 1, 1), true) as nat, 2, pad))
    } else if d == 87u8 {
        Some(pad_text(week_of_year(z, days_from_ymd(year, 1, 1), false) as nat, 2, pad))
    } else if d == 122u8 {
        Some(
            match p.offset {
                Some(o) => strf_offset_text(o as int, false),
                None => Seq::empty(),
            },
        )
    } else if d == 90u8 {
        Some(
            match p.zone_name {
                Some(n) => n.spec_bytes(),
                None => Seq::empty(),
            },
        )
    } else if d == 115u8 {
        Some(
            match p.timestamp {
                Some(ts) => crate::format::signed_text(ts as int),
                None => Seq::empty(),
            },
        )
    } else if d == 110u8 {
        Some(seq![10u8])
    } else if d == 116u8 {
        Some(seq![9u8])
    } else if d == 37u8 {
        Some(seq![37u8])
    } else {
        None
    }
}

/// The text of a directive after its modifiers, or the error for an
/// unknown one. Composite directives expand with the same padding and
/// width; `%+` is RFC 3339 (a `Z` when no offset is shown).
pub open spec fn directive_text(d: u8, pad: u8, width: int, p: Parts) -> Result<Seq<u8>, ErrorKind> {
    let s = |c: u8| simple_text(c, pad, width, p)->Some_0;
    if d == 70u8 {
        Ok(s(89u8) + seq![45u8] + s(109u8) + seq![45u8] + s(100u8))
    } else if d == 68u8 || d == 120u8 {
        Ok(s(109u8) + seq![47u8] + s(100u8) + seq![47u8] + s(121u8))
    } else if d == 82u8 {
        Ok(s(72u8) + seq![58u8] + s(77u8))
    } else if d == 84u8 || d == 88u8 {
        Ok(s(72u8) + seq![58u8] + s(77u8) + seq![58u8] + s(83u8))
    } else if d == 114u8 {
        Ok(s(73u8) + seq![58u8] + s(77u8) + seq![58u8] + s(83u8) + seq![32u8] + s(112u8))
    } else if d == 43u8 {
        Ok(
            simple_text(89u8, pad, 4, p)->Some_0 + seq![45u8] + s(109u8) + seq![45u8] + s(100u8)
                + seq![84u8] + s(72u8) + seq![58u8] + s(77u8) + seq![58u8] + s(83u8) + frac_text(
                p.nanos as int,
                0,
            ) + match p.offset {
                Some(o) => strf_offset_text(o as int, true),
                None => seq![90u8],
            },
        )
    } else {
        match simple_text(d, pad, width, p) {
            Some(t) => Ok(t),
            None => Err(ErrorKind::Invalid("unknown format directive")),
        }
    }
}

/// A format-string width: the digits at `pos` (none means 0) and the
/// position after them; too large a width is an error.
pub open spec fn width_at(f: Seq<u8>, pos: int) -> Result<(int, int), ErrorKind> {
    let n = digit_run(f, pos, f.len() - pos);
    if digits_val(f, pos, n as int) > u32::MAX {
        Err(ErrorKind::Invalid("format width out of range"))
    } else {
        Ok((digits_val(f, pos, n as int) as int, pos + n))
    }
}

/// `s` in front of a textual outcome.
pub open spec fn prepend(s: Seq<u8>, r: Result<Seq<u8>, ErrorKind>) -> Result<Seq<u8>, ErrorKind> {
    match r {
        Ok(t) => Ok(s + t),
        Err(e) => Err(e),
    }
}

/// The rendering of the format string `f` from byte `i` on: literal bytes
/// are copied, `%` directives are expanded.
pub open spec fn fmt_text(f: Seq<u8>, i: int, p: Parts) -> Result<Seq<u8>, ErrorKind>
    decreases f.len() - i,
{
    if i >= f.len() || i < 0 {
        Ok(Seq::empty())
    } else if f[i] != 37u8 {
        prepend(seq![f[i]], fmt_text(f, i + 1, p))
    } else if i + 1 >= f.len() {
        Err(ErrorKind::Invalid("trailing '%' in format string"))
    } else if f[i + 1] == 58u8 {
        if i + 2 >= f.len() || f[i + 2] != 122u8 {
            Err(ErrorKind::Invalid("expected 'z' after '%:'"))
        } else {
            prepend(
                match p.offset {
                    Some(o) => strf_offset_text(o as int, true),
                    None => Seq::empty(),
                },
                fmt_text(f, i + 3, p),
            )
        }
    } else if f[i + 1] == 46u8 {
        match width_at(f, i + 2) {
            Err(k) => Err(k),
            Ok(wv) => if wv.1 > i + 2 && (wv.0 == 0 || wv.0 > 9) {
                Err(ErrorKind::Invalid("fraction width must be 1..=9"))
            } else if wv.1 >= f.len() || f[wv.1] != 102u8 {
                Err(ErrorKind::Invalid("expected 'f' after '.' in format string"))
            } else {
                prepend(frac_text(p.nanos as int, wv.0), fmt_text(f, wv.1 + 1, p))
            },
        }
    } else {
        let m = f[i + 1];
        let has_pad = m == 45u8 || m == 95u8 || m == 48u8 || m == 35u8;
        let pad: u8 = if !has_pad {
            48u8
        } else if m == 35u8 {
            45u8
        } else {
            m
        };
        let k = if has_pad {
            i + 2
        } else {
            i + 1
        };
        match width_at(f, k) {
            Err(e) => Err(e),
            Ok(wv) => if wv.1 >= f.len() {
                Err(ErrorKind::Invalid("trailing '%' in format string"))
            } else {
                match directive_text(f[wv.1], pad, wv.0, p) {
                    Err(e) => Err(e),
                    Ok(t) => prepend(t, fmt_text(f, wv.1 + 1, p)),
                }
            },
        }
    }
}

// ---------------------------------------------------------------------------
// Formatting
// ---------------------------------------------------------------------------

/// Right-justify `v` to `width` with `pad` (`0`, `_` or space); `-` means no
/// padding.
pub fn pad_num(out: &mut Vec<u8>, v: u64, width: usize, pad: u8)
    ensures
        final(out)@ == old(out)@ + pad_text(v as nat, width as int, pad),
{
    if pad == 45u8 {
        push_dec(out, v as u128);
    } else {
        let c: u8 = if pad == 95u8 || pad == 32u8 {
            32u8
        } else {
            48u8
        };
        push_padded(out, v as u128, width, c);
    }
}

/// Emit a signed value with a leading `-` when negative.
fn emit_signed(out: &mut Vec<u8>, v: i64, width: usize, pad: u8)
    ensures
        final(out)@ == old(out)@ + signed_pad_text(v as int, width as int, pad),
{
    if v < 0 {
        out.push(45u8);
        let mag: u64 = if v == i64::MIN {
            (i64::MAX as u64) + 1
        } else {
            (-v) as u64
        };
        pad_num(out, mag, width, pad);
    } else {
        pad_num(out, v as u64, width, pad);
    }
    proof {
        assert(final(out)@ =~= old(out)@ + signed_pad_text(v as int, width as int, pad));
    }
}

/// The 12-hour clock hour.
fn hour12_of(hour: u32) -> (h: u64)
    ensures
        h == hour12(hour as int),
{
    let h = hour % 12;
    if h == 0 {
        12
    } else {
        h as u64
    }
}

/// Emit a fractional-second part; `width == 0` means variable.
fn emit_fraction(out: &mut Vec<u8>, nanos: u32, width: u32)
    requires
        width <= 9,
    ensures
        final(out)@ == old(out)@ + frac_text(nanos as int, width as int),
{
    if width == 0 {
        if nanos != 0 {
            out.push(46u8);
            crate::format::push_trimmed_nanos(out, nanos);
        }
        proof {
            assert(final(out)@ =~= old(out)@ + frac_text(nanos as int, width as int));
        }
        return;
    }
    out.push(46u8);
    let scale = pow10_u64(9 - width);
    proof {
        lemma_pow10_table();
        lemma_pow10_mono(0, 9 - width as int);
    }
    pad_num(out, (nanos as u64) / scale, width as usize, 48u8);
    proof {
        assert(final(out)@ =~= old(out)@ + frac_text(nanos as int, width as int));
    }
}

/// The separator between offset fields: `:` in the colon form.
pub open spec fn sep_text(colon: bool) -> Seq<u8> {
    if colon {
        seq![58u8]
    } else {
        Seq::empty()
    }
}

/// Append the offset-field separator.
fn push_sep(out: &mut Vec<u8>, colon: bool)
    ensures
        final(out)@ == old(out)@ + sep_text(colon),
{
    if colon {
        out.push(58u8);
    }
    proof {
        assert(final(out)@ =~= old(out)@ + sep_text(colon));
    }
}

/// Append the fields of a nonzero offset magnitude.
fn push_offset_fields(out: &mut Vec<u8>, abs: u64, colon: bool)
    ensures
        final(out)@ == old(out)@ + offset_fields_text(abs as int, colon),
{
    push_padded(out, (abs / 3600) as u128, 2, 48u8);
    push_sep(out, colon);
    push_padded(out, ((abs % 3600) / 60) as u128, 2, 48u8);
    let ghost b = out@;
    if abs % 60 != 0 {
        push_sep(out, colon);
        push_padded(out, (abs % 60) as u128, 2, 48u8);
    }
    proof {
        assert(final(out)@ =~= old(out)@ + offset_fields_text(abs as int, colon));
    }
}

/// Append an offset as `+HHMM` or `+HH:MM`, with seconds when nonzero.
fn push_offset(out: &mut Vec<u8>, secs: i32, colon: bool)
    requires
        valid_offset_secs(secs as int),
    ensures
        final(out)@ == old(out)@ + strf_offset_text(secs as int, colon),
{
    if secs == 0 {
        out.push(43u8);
        out.push(48u8);
        out.push(48u8);
        push_sep(out, colon);
        out.push(48u8);
        out.push(48u8);
    } else if secs < 0 {
        out.push(45u8);
        push_offset_fields(out, (-(secs as i64)) as u64, colon);
    } else {
        out.push(43u8);
        push_offset_fields(out, secs as u64, colon);
    }
    proof {
        assert(final(out)@ =~= old(out)@ + strf_offset_text(secs as int, colon));
    }
}

/// Week of year (Sunday-first when `sun`, else Monday-first).
fn week_number(y: i32, m: u32, d: u32, sun: bool) -> (w: u32)
    requires
        valid_ymd(y as int, m as int, d as int),
        fits_date(days_from_ymd(y as int, m as int, d as int)),
    ensures
        w == week_of_year(days_from_ymd(y as int, m as int, d as int), days_from_ymd(y as int, 1, 1), sun),
{
    let z = days_from_civil(y, m, d);
    proof {
        crate::calendar::lemma_year_start_mono(y as int, y as int);
        crate::calendar::lemma_date_in_year(y as int, m as int, d as int);
        crate::calendar::lemma_date_in_year(y as int, 1, 1);
    }
    let jan1 = days_from_civil(y, 1, 1);
    let shift: i64 = if sun {
        1
    } else {
        0
    };
    let jan1_idx = (weekday_from_civil(jan1).as_u8() as i64 + shift) % 7;
    let first = jan1 + (7 - jan1_idx) % 7;
    let cur_idx = (weekday_from_civil(z).as_u8() as i64 + shift) % 7;
    let week = floor_div(z - cur_idx - first, 7) + 1;
    if week > 0 {
        week as u32
    } else {
        0
    }
}

/// The calendar directives `Y y C m d e j G g V u w U W`.
pub open spec fn is_date_directive(d: u8) -> bool {
    d == 89u8 || d == 121u8 || d == 67u8 || d == 109u8 || d == 100u8 || d == 101u8 || d == 106u8
        || d == 71u8 || d == 103u8 || d == 86u8 || d == 117u8 || d == 119u8 || d == 85u8 || d
        == 87u8
}

/// The clock directives `H I k l M S f p P`.
pub open spec fn is_clock_directive(d: u8) -> bool {
    d == 72u8 || d == 73u8 || d == 107u8 || d == 108u8 || d == 77u8 || d == 83u8 || d == 102u8
        || d == 112u8 || d == 80u8
}

fn date_directive(d: u8) -> (r: bool)
    ensures
        r == is_date_directive(d),
{
    d == 89u8 || d == 121u8 || d == 67u8 || d == 109u8 || d == 100u8 || d == 101u8 || d == 106u8
        || d == 71u8 || d == 103u8 || d == 86u8 || d == 117u8 || d == 119u8 || d == 85u8 || d
        == 87u8
}

fn clock_directive(d: u8) -> (r: bool)
    ensures
        r == is_clock_directive(d),
{
    d == 72u8 || d == 73u8 || d == 107u8 || d == 108u8 || d == 77u8 || d == 83u8 || d == 102u8
        || d == 112u8 || d == 80u8
}

/// Emit a calendar directive (`Y y C m d e j G g V u w U W`); `false` when
/// `d` is not one of them.
fn emit_date_directive(out: &mut Vec<u8>, d: u8, pad: u8, width: usize, p: &Parts) -> (r: bool)
    requires
        parts_wf(*p),
        is_date_directive(d),
    ensures
        r,
        final(out)@ == old(out)@ + simple_text(d, pad, width as int, *p)->Some_0,
        simple_text(d, pad, width as int, *p) is Some,
{
    reveal(simple_text);
    let z = days_from_civil(p.year, p.month, p.day);
    proof {
        lemma_civil_window(z as int);
    }
    let w4: usize = if width > 4 {
        width
    } else {
        4
    };
    if d == 89u8 {
        emit_signed(out, p.year as i64, w4, pad);
    } else if d == 121u8 {
        pad_num(out, floor_mod(p.year as i64, 100) as u64, 2, pad);
    } else if d == 67u8 {
        pad_num(out, floor_div(p.year as i64, 100) as u64, 2, pad);
    } else if d == 109u8 {
        pad_num(out, p.month as u64, 2, pad);
    } else if d == 100u8 {
        pad_num(out, p.day as u64, 2, pad);
    } else if d == 101u8 {
        pad_num(out, p.day as u64, 2, 32u8);
    } else if d == 106u8 {
        pad_num(out, day_of_year(p.year, p.month, p.day) as u64, 3, pad);
    } else if d == 71u8 || d == 103u8 || d == 86u8 {
        let (iso_year, iso_week) = iso_week_from_civil(p.year, p.month, p.day);
        if d == 71u8 {
            emit_signed(out, iso_year as i64, w4, pad);
        } else if d == 103u8 {
            pad_num(out, floor_mod(iso_year as i64, 100) as u64, 2, pad);
        } else {
            pad_num(out, iso_week as u64, 2, pad);
        }
    } else if d == 117u8 {
        let wd = weekday_from_civil(z);
        pad_num(out, wd.as_u8() as u64 + 1, 1, pad);
    } else if d == 119u8 {
        let wd = weekday_from_civil(z);
        pad_num(out, ((wd.as_u8() as u64) + 1) % 7, 1, pad);
    } else if d == 85u8 {
        pad_num(out, week_number(p.year, p.month, p.day, true) as u64, 2, pad);
    } else {
        pad_num(out, week_number(p.year, p.month, p.day, false) as u64, 2, pad);
    }
    true
}

/// Emit a clock directive (`H I k l M S f p P`).
fn emit_clock_directive(out: &mut Vec<u8>, d: u8, pad: u8, width: usize, p: &Parts)
    requires
        parts_wf(*p),
        is_clock_directive(d),
    ensures
        simple_text(d, pad, width as int, *p) is Some,
        final(out)@ == old(out)@ + simple_text(d, pad, width as int, *p)->Some_0,
{
    reveal(simple_text);
    if d == 72u8 {
        pad_num(out, p.hour as u64, 2, pad);
    } else if d == 73u8 {
        pad_num(out, hour12_of(p.hour), 2, pad);
    } else if d == 107u8 {
        pad_num(out, p.hour as u64, 2, 32u8);
    } else if d == 108u8 {
        pad_num(out, hour12_of(p.hour), 2, 32u8);
    } else if d == 77u8 {
        pad_num(out, p.minute as u64, 2, pad);
    } else if d == 83u8 {
        pad_num(out, p.second as u64, 2, pad);
    } else if d == 102u8 {
        pad_num(out, p.nanos as u64, 9, 48u8);
    } else if d == 112u8 {
        if p.hour < 12 {
            out.push(65u8);
        } else {
            out.push(80u8);
        }
        out.push(77u8);
        proof {
            assert(final(out)@ =~= old(out)@ + simple_text(d, pad, width as int, *p)->Some_0);
        }
    } else {
        if p.hour < 12 {
            out.push(97u8);
        } else {
            out.push(112u8);
        }
        out.push(109u8);
        proof {
            assert(final(out)@ =~= old(out)@ + simple_text(d, pad, width as int, *p)->Some_0);
        }
    }
}

/// Emit a name or miscellaneous directive (`a A b h B z Z s n t %`);
/// `false`, with nothing written, when `d` is not a directive at all.
fn emit_other_directive(out: &mut Vec<u8>, d: u8, pad: u8, width: usize, p: &Parts) -> (r: bool)
    requires
        parts_wf(*p),
        !is_date_directive(d),
        !is_clock_directive(d),
    ensures
        r == simple_text(d, pad, width as int, *p) is Some,
        r ==> final(out)@ == old(out)@ + simple_text(d, pad, width as int, *p)->Some_0,
        !r ==> final(out)@ == old(out)@,
{
    reveal(simple_text);
    if d == 97u8 || d == 65u8 {
        let z = days_from_civil(p.year, p.month, p.day);
        proof {
            lemma_civil_window(z as int);
        }
        let wd = weekday_from_civil(z);
        if d == 97u8 {
            push_str(out, wd.short_name());
        } else {
            push_str(out, wd.name());
        }
    } else if d == 98u8 || d == 104u8 || d == 66u8 {
        match Month::from_u32(p.month) {
            Some(m) => {
                if d == 66u8 {
                    push_str(out, m.name());
                } else {
                    push_str(out, m.short_name());
                }
            },
            None => {},
        }
    } else if d == 122u8 {
        match p.offset {
            Some(o) => push_offset(out, o, false),
            None => {},
        }
        proof {
            assert(final(out)@ =~= old(out)@ + simple_text(d, pad, width as int, *p)->Some_0);
        }
    } else if d == 90u8 {
        match p.zone_name {
            Some(n) => push_str(out, n),
            None => {},
        }
        proof {
            assert(final(out)@ =~= old(out)@ + simple_text(d, pad, width as int, *p)->Some_0);
        }
    } else if d == 115u8 {
        match p.timestamp {
            Some(ts) => crate::format::write_signed_i128(out, ts as i128),
            None => {},
        }
        proof {
            assert(final(out)@ =~= old(out)@ + simple_text(d, pad, width as int, *p)->Some_0);
        }
    } else if d == 110u8 {
        out.push(10u8);
    } else if d == 116u8 {
        out.push(9u8);
    } else if d == 37u8 {
        out.push(37u8);
    } else {
        return false;
    }
    true
}

/// Emit one non-composite directive; `false`, with nothing written, when
/// `d` is not one.
fn emit_simple(out: &mut Vec<u8>, d: u8, pad: u8, width: usize, p: &Parts) -> (r: bool)
    requires
        parts_wf(*p),
    ensures
        r == (simple_text(d, pad, width as int, *p) is Some),
        r ==> final(out)@ == old(out)@ + simple_text(d, pad, width as int, *p)->Some_0,
        !r ==> final(out)@ == old(out)@,
{
    if date_directive(d) {
        emit_date_directive(out, d, pad, width, p)
    } else if clock_directive(d) {
        emit_clock_directive(out, d, pad, width, p);
        true
    } else {
        emit_other_directive(out, d, pad, width, p)
    }
}

/// The letters that composite directives expand to all have a text.
proof fn lemma_simple_known(pad: u8, width: int, p: Parts)
    ensures
        simple_text(89u8, pad, width, p) is Some,
        simple_text(89u8, pad, 4, p) is Some,
        simple_text(109u8, pad, width, p) is Some,
        simple_text(100u8, pad, width, p) is Some,
        simple_text(121u8, pad, width, p) is Some,
        simple_text(72u8, pad, width, p) is Some,
        simple_text(73u8, pad, width, p) is Some,
        simple_text(77u8, pad, width, p) is Some,
        simple_text(83u8, pad, width, p) is Some,
        simple_text(112u8, pad, width, p) is Some,
{
    reveal(simple_text);
}

/// Emit a simple directive that is known to exist.
fn emit_known(out: &mut Vec<u8>, d: u8, pad: u8, width: usize, p: &Parts)
    requires
        parts_wf(*p),
        simple_text(d, pad, width as int, *p) is Some,
    ensures
        final(out)@ == old(out)@ + simple_text(d, pad, width as int, *p)->Some_0,
{
    let _ = emit_simple(out, d, pad, width, p);
}

/// Emit one directive after its modifiers, expanding composites.
#[verifier::rlimit(40)]
#[verifier::spinoff_prover]
fn emit_directive(out: &mut Vec<u8>, d: u8, pad: u8, width: usize, p: &Parts) -> (r: Result<
    (),
    Error,
>)
    requires
        parts_wf(*p),
    ensures
        match directive_text(d, pad, width as int, *p) {
            Ok(t) => r is Ok && final(out)@ == old(out)@ + t,
            Err(k) => r is Err && r->Err_0.spec_kind() == k,
        },
{
    proof {
        lemma_simple_known(pad, width as int, *p);
        lemma_simple_known(pad, 2, *p);
    }
    if d == 70u8 {
        emit_known(out, 89u8, pad, width, p);
        out.push(45u8);
        emit_known(out, 109u8, pad, width, p);
        out.push(45u8);
        emit_known(out, 100u8, pad, width, p);
    } else if d == 68u8 || d == 120u8 {
        emit_known(out, 109u8, pad, width, p);
        out.push(47u8);
        emit_known(out, 100u8, pad, width, p);
        out.push(47u8);
        emit_known(out, 121u8, pad, width, p);
    } else if d == 82u8 {
        emit_known(out, 72u8, pad, width, p);
        out.push(58u8);
        emit_known(out, 77u8, pad, width, p);
    } else if d == 84u8 || d == 88u8 {
        emit_known(out, 72u8, pad, width, p);
        out.push(58u8);
        emit_known(out, 77u8, pad, width, p);
        out.push(58u8);
        emit_known(out, 83u8, pad, width, p);
    } else if d == 114u8 {
        emit_known(out, 73u8, pad, width, p);
        out.push(58u8);
        emit_known(out, 77u8, pad, width, p);
        out.push(58u8);
        emit_known(out, 83u8, pad, width, p);
        out.push(32u8);
        emit_known(out, 112u8, pad, width, p);
    } else if d == 43u8 {
        emit_known(out, 89u8, pad, 4, p);
        out.push(45u8);
        emit_known(out, 109u8, pad, width, p);
        out.push(45u8);
        emit_known(out, 100u8, pad, width, p);
        out.push(84u8);
        emit_known(out, 72u8, pad, width, p);
        out.push(58u8);
        emit_known(out, 77u8, pad, width, p);
        out.push(58u8);
        emit_known(out, 83u8, pad, width, p);
        if p.nanos != 0 {
            emit_fraction(out, p.nanos, 0);
        }
        match p.offset {
            Some(o) => push_offset(out, o, true),
            None => out.push(90u8),
        }
    } else {
        if !emit_simple(out, d, pad, width, p) {
            return Err(Error::invalid("unknown format directive"));
        }
        return Ok(());
    }
    proof {
        assert(final(out)@ =~= old(out)@ + directive_text(d, pad, width as int, *p)->Ok_0);
    }
    Ok(())
}

/// Digit values never shrink as digits are added.
proof fn lemma_digits_val_mono(b: Seq<u8>, pos: int, k: int, n: int)
    requires
        0 <= k <= n,
        forall|j: int| 0 <= j < n ==> #[trigger] crate::scan::digit_at(b, pos + j),
    ensures
        digits_val(b, pos, k) <= digits_val(b, pos, n),
    decreases n - k,
{
    if k < n {
        lemma_digits_val_mono(b, pos, k, n - 1);
        assert(crate::scan::digit_at(b, pos + (n - 1)));
    }
}

/// Read a format-string width: the digits at `pos` as a `u32` (0 when there
/// are none) and the position after them.
fn read_width(f: &[u8], pos: usize) -> (r: Result<(u32, usize), Error>)
    requires
        pos <= f@.len(),
    ensures
        match width_at(f@, pos as int) {
            Ok(v) => r is Ok && r->Ok_0.0 == v.0 && r->Ok_0.1 == v.1,
            Err(k) => r is Err && r->Err_0.spec_kind() == k,
        },
        r is Ok ==> pos <= r->Ok_0.1 <= f@.len(),
{
    let mut v: u64 = 0;
    let mut over = false;
    let mut p: usize = pos;
    while p < f.len() && f[p] >= 48u8 && f[p] <= 57u8
        invariant
            pos <= p <= f@.len(),
            forall|j: int| 0 <= j < p - pos ==> #[trigger] crate::scan::digit_at(f@, pos + j),
            over ==> digits_val(f@, pos as int, p - pos) > u32::MAX,
            !over ==> v == digits_val(f@, pos as int, p - pos) && v <= u32::MAX,
        decreases f@.len() - p,
    {
        proof {
            assert(crate::scan::digit_at(f@, pos + (p - pos)));
            if over {
                lemma_digits_val_mono(f@, pos as int, p - pos, p - pos + 1);
            }
        }
        if !over {
            v = v * 10 + (f[p] - 48u8) as u64;
            if v > u32::MAX as u64 {
                over = true;
            }
        }
        p = p + 1;
    }
    proof {
        crate::scan::lemma_digit_run_step(f@, pos as int, f@.len() - pos, p - pos);
        assert(digit_run(f@, p as int, f@.len() - p) == 0);
    }
    if over {
        return Err(Error::invalid("format width out of range"));
    }
    Ok((v as u32, p))
}

/// `prepend` composes.
proof fn lemma_prepend_assoc(a: Seq<u8>, b: Seq<u8>, r: Result<Seq<u8>, ErrorKind>)
    ensures
        prepend(a, prepend(b, r)) == prepend(a + b, r),
{
    match r {
        Ok(t) => {
            assert((a + b) + t =~= a + (b + t));
        },
        Err(_) => {},
    }
}

/// Format `p` according to the strftime-style format bytes `f`.
pub fn format_parts(f: &[u8], p: &Parts) -> (r: Result<Vec<u8>, Error>)
    requires
        parts_wf(*p),
    ensures
        match fmt_text(f@, 0, *p) {
            Ok(t) => r is Ok && r->Ok_0@ == t,
            Err(k) => r is Err && r->Err_0.spec_kind() == k,
        },
{
    let mut out: Vec<u8> = Vec::new();
    let mut i: usize = 0;
    proof {
        assert(out@ + Seq::<u8>::empty() =~= out@);
        match fmt_text(f@, 0, *p) {
            Ok(t) => {
                assert(Seq::<u8>::empty() + t =~= t);
            },
            Err(_) => {},
        }
    }
    while i < f.len()
        invariant
            parts_wf(*p),
            i <= f@.len(),
            fmt_text(f@, 0, *p) == prepend(out@, fmt_text(f@, i as int, *p)),
        decreases f@.len() - i,
    {
        let ghost before = out@;
        let c = f[i];
        if c != 37u8 {
            out.push(c);
            proof {
                assert(out@ =~= before + seq![c]);
                assert(fmt_text(f@, i as int, *p) == prepend(seq![c], fmt_text(f@, i + 1, *p)));
                lemma_prepend_assoc(before, seq![c], fmt_text(f@, i + 1, *p));
            }
            i = i + 1;
            continue;
        }
        if i + 1 >= f.len() {
            return Err(Error::invalid("trailing '%' in format string"));
        }
        let m = f[i + 1];
        if m == 58u8 {
            if i + 2 >= f.len() || f[i + 2] != 122u8 {
                return Err(Error::invalid("expected 'z' after '%:'"));
            }
            match p.offset {
                Some(o) => push_offset(&mut out, o, true),
                None => {},
            }
            proof {
                let chunk: Seq<u8> = match p.offset {
                    Some(o) => strf_offset_text(o as int, true),
                    None => Seq::empty(),
                };
                assert(out@ =~= before + chunk);
                lemma_prepend_assoc(before, chunk, fmt_text(f@, i + 3, *p));
            }
            i = i + 3;
            continue;
        }
        if m == 46u8 {
            let (width, j) = match read_width(f, i + 2) {
                Ok(v) => v,
                Err(e) => {
                    return Err(e);
                },
            };
            if j > i + 2 && (width == 0 || width > 9) {
                return Err(Error::invalid("fraction width must be 1..=9"));
            }
            if j >= f.len() || f[j] != 102u8 {
                return Err(Error::invalid("expected 'f' after '.' in format string"));
            }
            emit_fraction(&mut out, p.nanos, width);
            proof {
                lemma_prepend_assoc(before, frac_text(p.nanos as int, width as int), fmt_text(f@, j + 1, *p));
            }
            i = j + 1;
            continue;
        }
        let has_pad = m == 45u8 || m == 95u8 || m == 48u8 || m == 35u8;
        let pad: u8 = if !has_pad {
            48u8
        } else if m == 35u8 {
            45u8
        } else {
            m
        };
        let k = if has_pad {
            i + 2
        } else {
            i + 1
        };
        let (width, j) = match read_width(f, k) {
            Ok(v) => v,
            Err(e) => {
                return Err(e);
            },
        };
        if j >= f.len() {
            return Err(Error::invalid("trailing '%' in format string"));
        }
        let d = f[j];
        match emit_directive(&mut out, d, pad, width as usize, p) {
            Ok(()) => {},
            Err(e) => {
                return Err(e);
            },
        }
        proof {
            lemma_prepend_assoc(
                before,
                directive_text(d, pad, width as int, *p)->Ok_0,
                fmt_text(f@, j + 1, *p),
            );
        }
        i = j + 1;
    }
    proof {
        assert(out@ + Seq::<u8>::empty() =~= out@);
    }
    Ok(out)
}

// ---------------------------------------------------------------------------
// Per-type entry points
// ---------------------------------------------------------------------------

/// The parts of the civil reading `v = (days, nanos)` with what is shown of
/// the zone.
pub open spec fn civil_parts(
    v: (int, int),
    offset: Option<i32>,
    zone_name: Option<&'static str>,
    timestamp: Option<i64>,
) -> Parts {
    let ymd = ymd_of_days(v.0);
    Parts {
        year: ymd.0 as i32,
        month: ymd.1 as u32,
        day: ymd.2 as u32,
        hour: (v.1 / 3_600_000_000_000) as u32,
        minute: ((v.1 / 60_000_000_000) % 60) as u32,
        second: ((v.1 / 1_000_000_000) % 60) as u32,
        nanos: (v.1 % 1_000_000_000) as u32,
        offset,
        zone_name,
        timestamp,
    }
}

/// The whole seconds of an instant, when they fit `i64`.
pub open spec fn timestamp_of(ns: int) -> Option<i64> {
    if i64::MIN <= ns / 1_000_000_000 <= i64::MAX {
        Some((ns / 1_000_000_000) as i64)
    } else {
        None
    }
}

/// A `String` result agrees with a textual outcome: the string whose UTF-8
/// encoding is the text.
pub open spec fn text_matches(r: Result<String, Error>, o: Result<Seq<u8>, ErrorKind>) -> bool {
    match o {
        Ok(t) => r is Ok && encode_utf8(r->Ok_0@) == t,
        Err(k) => r is Err && r->Err_0.spec_kind() == k,
    }
}

/// A write into a caller-owned buffer agrees with a textual outcome: the
/// text and its length when it fits; otherwise an error and the buffer
/// untouched.
pub open spec fn written(
    r: Result<usize, Error>,
    before: Seq<u8>,
    after: Seq<u8>,
    o: Result<Seq<u8>, ErrorKind>,
) -> bool {
    match o {
        Ok(t) => if t.len() <= before.len() {
            r == Ok::<usize, Error>(t.len() as usize) && after == t + before.subrange(
                t.len() as int,
                before.len() as int,
            )
        } else {
            r is Err && r->Err_0.spec_kind() == ErrorKind::OutOfRange("output buffer") && after
                == before
        },
        Err(k) => r is Err && r->Err_0.spec_kind() == k && after == before,
    }
}

/// The formatter's view of a civil reading.
pub fn parts_from_civil(
    dt: CivilDateTime,
    offset: Option<i32>,
    zone_name: Option<&'static str>,
    timestamp: Option<i64>,
) -> (p: Parts)
    requires
        offset is Some ==> valid_offset_secs(offset->Some_0 as int),
    ensures
        p == civil_parts(dt@, offset, zone_name, timestamp),
        parts_wf(p),
        parts_days(p) == dt@.0,
        p.year == ymd_of_days(dt@.0).0,
        p.month == ymd_of_days(dt@.0).1,
        p.day == ymd_of_days(dt@.0).2,
        p.hour == dt@.1 / 3_600_000_000_000,
        p.minute == (dt@.1 / 60_000_000_000) % 60,
        p.second == (dt@.1 / 1_000_000_000) % 60,
{
    let date = dt.date();
    let z = date.days_since_epoch();
    let (year, month, day) = date.parts();
    let (hour, minute, second, nanos) = dt.time().parts();
    Parts { year, month, day, hour, minute, second, nanos, offset, zone_name, timestamp }
}

/// Render `fmt` for a civil reading.
pub fn format_bytes(
    fmt: &str,
    dt: CivilDateTime,
    offset: Option<i32>,
    zone_name: Option<&'static str>,
    timestamp: Option<i64>,
) -> (r: Result<Vec<u8>, Error>)
    requires
        offset is Some ==> valid_offset_secs(offset->Some_0 as int),
    ensures
        match fmt_text(fmt.spec_bytes(), 0, civil_parts(dt@, offset, zone_name, timestamp)) {
            Ok(t) => r is Ok && r->Ok_0@ == t,
            Err(k) => r is Err && r->Err_0.spec_kind() == k,
        },
{
    let p = parts_from_civil(dt, offset, zone_name, timestamp);
    format_parts(fmt.as_bytes(), &p)
}

/// A rendering as a `String`: the text the bytes encode in UTF-8 (literal
/// text of the format string comes out as written).
pub fn text_of(r: Result<Vec<u8>, Error>) -> (s: Result<String, Error>)
    ensures
        match r {
            Ok(b) => if valid_utf8(b@) {
                s is Ok && encode_utf8(s->Ok_0@) == b@
            } else {
                s is Err && s->Err_0.spec_kind() == ErrorKind::Invalid("invalid utf-8")
            },
            Err(e) => s == Err::<String, Error>(e),
        },
{
    match r {
        Ok(b) => match crate::write::utf8_str(b.as_slice()) {
            Some(t) => Ok(t.to_owned()),
            None => Err(Error::invalid("invalid utf-8")),
        },
        Err(e) => Err(e),
    }
}

/// A rendering copied into a caller-owned buffer.
pub fn write_out(r: Result<Vec<u8>, Error>, out: &mut [u8]) -> (n: Result<usize, Error>)
    ensures
        match r {
            Ok(b) => written(n, old(out)@, final(out)@, Ok(b@)),
            Err(e) => n == Err::<usize, Error>(e) && final(out)@ == old(out)@,
        },
{
    match r {
        Ok(b) => crate::format::copy_out(out, &b),
        Err(e) => Err(e),
    }
}

// ---------------------------------------------------------------------------
// What the parser accepts
// ---------------------------------------------------------------------------

/// Fields accumulated from a strftime parse.
#[derive(Clone, Copy, Debug)]
pub struct ParsedParts {
    pub year: Option<i32>,
    pub month: Option<u32>,
    pub day: Option<u32>,
    pub hour: Option<u32>,
    pub minute: Option<u32>,
    pub second: Option<u32>,
    pub nanos: Option<u32>,
    pub ordinal: Option<u32>,
    pub isoyear: Option<i32>,
    pub iso_year2: Option<u32>,
    pub isoweek: Option<u32>,
    pub weekday: Option<Weekday>,
    pub week_sun: Option<u32>,
    pub week_mon: Option<u32>,
    pub hour12: Option<u32>,
    pub ampm: Option<bool>,
    /// The offset seconds.
    pub offset: Option<i32>,
    pub timestamp: Option<i64>,
    pub century: Option<i32>,
    pub year2: Option<u32>,
}

/// The two-digit fields hold two-digit values.
pub open spec fn pp_wf(pp: ParsedParts) -> bool {
    &&& (pp.century is Some ==> 0 <= pp.century->Some_0 <= 99)
    &&& (pp.year2 is Some ==> pp.year2->Some_0 <= 99)
    &&& (pp.iso_year2 is Some ==> pp.iso_year2->Some_0 <= 99)
    &&& (pp.hour12 is Some ==> pp.hour12->Some_0 <= 99)
    &&& (pp.offset is Some ==> valid_offset_secs(pp.offset->Some_0 as int))
}

/// Nothing parsed yet.
pub open spec fn no_parts() -> ParsedParts {
    ParsedParts {
        year: None,
        month: None,
        day: None,
        hour: None,
        minute: None,
        second: None,
        nanos: None,
        ordinal: None,
        isoyear: None,
        iso_year2: None,
        isoweek: None,
        weekday: None,
        week_sun: None,
        week_mon: None,
        hour12: None,
        ampm: None,
        offset: None,
        timestamp: None,
        century: None,
        year2: None,
    }
}

/// The first position at or after `pos` that is not one of the given
/// blank bytes (`spaces` only, spaces and tabs, or all of space, tab,
/// newline and carriage return).
pub open spec fn skip_blanks(b: Seq<u8>, pos: int, kind: int) -> int
    decreases b.len() - pos,
{
    if 0 <= pos < b.len() && (b[pos] == 32u8 || (kind >= 1 && b[pos] == 9u8) || (kind >= 2 && (
    b[pos] == 10u8 || b[pos] == 13u8))) {
        skip_blanks(b, pos + 1, kind)
    } else {
        pos
    }
}

/// Read up to `max` digits (at least one), after leading spaces when the
/// padding is a space.
pub open spec fn scan_int(b: Seq<u8>, pos: int, max: int, pad: u8) -> Result<(int, int), Fail> {
    let p0 = if pad == 95u8 || pad == 32u8 {
        skip_blanks(b, pos, 0)
    } else {
        pos
    };
    let n = digit_run(b, p0, max);
    if n == 0 {
        Err(pfail("expected digits", p0))
    } else {
        Ok((digits_val(b, p0, n as int) as int, p0 + n))
    }
}

/// How many leading bytes at `pos + k..` match `w[k..]` ignoring ASCII case.
pub open spec fn ci_prefix(b: Seq<u8>, pos: int, w: Seq<u8>, k: int) -> int
    decreases w.len() - k,
{
    if 0 <= k < w.len() && 0 <= pos + k < b.len() && ascii_eq_ci(b[pos + k], w[k]) {
        ci_prefix(b, pos, w, k + 1)
    } else {
        k
    }
}

/// Consume `w` case-insensitively: whether it matched, and the position
/// after the bytes that did match (a partial match is consumed too).
pub open spec fn eat_ci(b: Seq<u8>, pos: int, w: Seq<u8>) -> (bool, int) {
    if b.len() - pos < w.len() {
        (false, pos)
    } else {
        let k = ci_prefix(b, pos, w, 0);
        (k == w.len(), pos + k)
    }
}

/// `AM` or `PM` in any case: whether it is PM.
pub open spec fn scan_ampm(b: Seq<u8>, pos: int) -> Result<(bool, int), Fail> {
    let e1 = eat_ci(b, pos, seq![97u8, 109u8]);
    if e1.0 {
        Ok((false, e1.1))
    } else {
        let e2 = eat_ci(b, e1.1, seq![112u8, 109u8]);
        if e2.0 {
            Ok((true, e2.1))
        } else {
            Err(pfail("expected AM/PM", e2.1))
        }
    }
}

/// A `.digits` fraction scaled to nanoseconds: exactly `width` digits, or 1
/// to 9 when `width` is 0.
pub open spec fn scan_frac(b: Seq<u8>, pos: int, width: int) -> Result<(int, int), Fail> {
    if byte_at(b, pos) != Some(46u8) {
        Err(pfail("expected '.'", pos))
    } else {
        let p1 = pos + 1;
        let got: Result<(int, int, int), Fail> = if width > 0 {
            let k = digit_run(b, p1, width);
            if k < width {
                Err(pfail("expected digits", p1 + k))
            } else {
                Ok((digits_val(b, p1, width) as int, width, p1 + width))
            }
        } else {
            let k = digit_run(b, p1, 10);
            if k == 10 {
                Err(pfail("fraction has more than 9 digits", p1 + 10))
            } else if k == 0 {
                Err(pfail("expected digits after '.'", p1))
            } else {
                Ok((digits_val(b, p1, k as int) as int, k as int, p1 + k))
            }
        };
        match got {
            Err(f) => Err(f),
            Ok(g) => {
                let ns = g.0 * pow10(9 - g.1);
                if ns > u32::MAX {
                    Err(pfail("fraction out of range", g.2))
                } else {
                    Ok((ns, g.2))
                }
            },
        }
    }
}

/// The end of the run of ASCII letters (and `/` when `slash`) at `pos`.
pub open spec fn word_end(b: Seq<u8>, pos: int, slash: bool) -> int
    decreases b.len() - pos,
{
    if 0 <= pos < b.len() && (crate::text::is_alpha(b[pos]) || (slash && b[pos] == 47u8)) {
        word_end(b, pos + 1, slash)
    } else {
        pos
    }
}

/// A weekday by its full name, else by its abbreviation (case-sensitive).
pub open spec fn weekday_by_name(w: Seq<u8>) -> Option<Weekday> {
    if w == "Monday".spec_bytes() {
        Some(Weekday::Monday)
    } else if w == "Tuesday".spec_bytes() {
        Some(Weekday::Tuesday)
    } else if w == "Wednesday".spec_bytes() {
        Some(Weekday::Wednesday)
    } else if w == "Thursday".spec_bytes() {
        Some(Weekday::Thursday)
    } else if w == "Friday".spec_bytes() {
        Some(Weekday::Friday)
    } else if w == "Saturday".spec_bytes() {
        Some(Weekday::Saturday)
    } else if w == "Sunday".spec_bytes() {
        Some(Weekday::Sunday)
    } else if w == "Mon".spec_bytes() {
        Some(Weekday::Monday)
    } else if w == "Tue".spec_bytes() {
        Some(Weekday::Tuesday)
    } else if w == "Wed".spec_bytes() {
        Some(Weekday::Wednesday)
    } else if w == "Thu".spec_bytes() {
        Some(Weekday::Thursday)
    } else if w == "Fri".spec_bytes() {
        Some(Weekday::Friday)
    } else if w == "Sat".spec_bytes() {
        Some(Weekday::Saturday)
    } else if w == "Sun".spec_bytes() {
        Some(Weekday::Sunday)
    } else {
        None
    }
}

/// Whether `w` names month `m` (full or abbreviated, any case).
pub open spec fn names_month(w: Seq<u8>, m: Month) -> bool {
    crate::text::bytes_eq_ci(w, month_name(m).spec_bytes()) || crate::text::bytes_eq_ci(
        w,
        month_short_name(m).spec_bytes(),
    )
}

/// The first month, January first, that `w` names.
pub open spec fn month_by_name(w: Seq<u8>) -> Option<int> {
    if names_month(w, Month::January) {
        Some(1)
    } else if names_month(w, Month::February) {
        Some(2)
    } else if names_month(w, Month::March) {
        Some(3)
    } else if names_month(w, Month::April) {
        Some(4)
    } else if names_month(w, Month::May) {
        Some(5)
    } else if names_month(w, Month::June) {
        Some(6)
    } else if names_month(w, Month::July) {
        Some(7)
    } else if names_month(w, Month::August) {
        Some(8)
    } else if names_month(w, Month::September) {
        Some(9)
    } else if names_month(w, Month::October) {
        Some(10)
    } else if names_month(w, Month::November) {
        Some(11)
    } else if names_month(w, Month::December) {
        Some(12)
    } else {
        None
    }
}

/// A weekday name at `pos`: none when no letters follow, an error for
/// unknown words.
pub open spec fn scan_weekday_name(b: Seq<u8>, pos: int) -> Result<(Option<Weekday>, int), Fail> {
    let end = word_end(b, pos, false);
    if end == pos {
        Ok((None, pos))
    } else {
        match weekday_by_name(b.subrange(pos, end)) {
            Some(w) => Ok((Some(w), end)),
            None => Err(kfail(ErrorKind::Invalid("unknown weekday name"))),
        }
    }
}

/// A month name at `pos` as its number: none when no letters follow, an
/// error for unknown words.
pub open spec fn scan_month_name(b: Seq<u8>, pos: int) -> Result<(Option<int>, int), Fail> {
    let end = word_end(b, pos, false);
    if end == pos {
        Ok((None, pos))
    } else {
        match month_by_name(b.subrange(pos, end)) {
            Some(m) => Ok((Some(m), end)),
            None => Err(kfail(ErrorKind::Invalid("unknown month name"))),
        }
    }
}

/// The zone names `%Z` reads as UTC.
pub open spec fn utc_zone_name(w: Seq<u8>) -> bool {
    w == "UTC".spec_bytes() || w == "GMT".spec_bytes() || w == "UT".spec_bytes() || w
        == "Z".spec_bytes() || w == "Etc/UTC".spec_bytes() || w == "Etc/GMT".spec_bytes()
}

/// Weekday from a Sunday-based number `0..=6`.
pub open spec fn weekday_from_sunday(n: int) -> Option<Weekday> {
    if 0 <= n <= 6 {
        Some(weekday_at(n + 6))
    } else {
        None
    }
}

/// An optionally signed run of up to `max` digits.
pub open spec fn scan_signed_int(b: Seq<u8>, pos: int, max: int, pad: u8) -> Result<(int, int), Fail> {
    let sp = crate::format::scan_sign(b, pos);
    match scan_int(b, sp.1, max, pad) {
        Err(f) => Err(f),
        Ok(v) => Ok(
            (
                if sp.0 < 0 {
                    -v.0
                } else {
                    v.0
                },
                v.1,
            ),
        ),
    }
}

/// The plain numeric directives: `y C m d e j H I k l M S g V U W`.
pub open spec fn is_num_directive(d: u8) -> bool {
    d == 121u8 || d == 67u8 || d == 109u8 || d == 100u8 || d == 101u8 || d == 106u8 || d == 72u8
        || d == 73u8 || d == 107u8 || d == 108u8 || d == 77u8 || d == 83u8 || d == 103u8 || d
        == 86u8 || d == 85u8 || d == 87u8
}

/// How many digits a numeric directive reads at most.
pub open spec fn num_width(d: u8) -> int {
    if d == 106u8 {
        3
    } else {
        2
    }
}

/// The padding a numeric directive reads with (`%e %k %l` always allow
/// spaces).
pub open spec fn num_pad(d: u8, pad: u8) -> u8 {
    if d == 101u8 || d == 107u8 || d == 108u8 {
        32u8
    } else {
        pad
    }
}

/// Record the value of a numeric directive.
pub open spec fn with_num(pp: ParsedParts, d: u8, v: int) -> ParsedParts {
    if d == 121u8 {
        ParsedParts { year2: Some(v as u32), ..pp }
    } else if d == 67u8 {
        ParsedParts { century: Some(v as i32), ..pp }
    } else if d == 109u8 {
        ParsedParts { month: Some(v as u32), ..pp }
    } else if d == 100u8 || d == 101u8 {
        ParsedParts { day: Some(v as u32), ..pp }
    } else if d == 106u8 {
        ParsedParts { ordinal: Some(v as u32), ..pp }
    } else if d == 72u8 || d == 107u8 {
        ParsedParts { hour: Some(v as u32), ..pp }
    } else if d == 73u8 || d == 108u8 {
        ParsedParts { hour12: Some(v as u32), ..pp }
    } else if d == 77u8 {
        ParsedParts { minute: Some(v as u32), ..pp }
    } else if d == 83u8 {
        ParsedParts { second: Some(v as u32), ..pp }
    } else if d == 103u8 {
        ParsedParts { iso_year2: Some(v as u32), ..pp }
    } else if d == 86u8 {
        ParsedParts { isoweek: Some(v as u32), ..pp }
    } else if d == 85u8 {
        ParsedParts { week_sun: Some(v as u32), ..pp }
    } else {
        ParsedParts { week_mon: Some(v as u32), ..pp }
    }
}

/// One non-composite directive read from the input.
#[verifier::opaque]
pub open spec fn simple_dir(b: Seq<u8>, pos: int, pp: ParsedParts, d: u8, pad: u8) -> Result<
    (ParsedParts, int),
    Fail,
> {
    if d == 89u8 || d == 71u8 {
        match scan_signed_int(b, pos, 9, pad) {
            Err(f) => Err(f),
            Ok(v) => if !(i32::MIN <= v.0 <= i32::MAX) {
                Err(
                    pfail(
                        if d == 89u8 {
                            "year out of range"
                        } else {
                            "iso year out of range"
                        },
                        v.1,
                    ),
                )
            } else if d == 89u8 {
                Ok((ParsedParts { year: Some(v.0 as i32), ..pp }, v.1))
            } else {
                Ok((ParsedParts { isoyear: Some(v.0 as i32), ..pp }, v.1))
            },
        }
    } else if is_num_directive(d) {
        match scan_int(b, pos, num_width(d), num_pad(d, pad)) {
            Err(f) => Err(f),
            Ok(v) => Ok((with_num(pp, d, v.0), v.1)),
        }
    } else if d == 102u8 {
        match crate::scan::scan_digits(b, pos, 9, 9) {
            Err(f) => Err(f),
            Ok(v) => Ok((ParsedParts { nanos: Some(v.0 as u32), ..pp }, v.1)),
        }
    } else if d == 112u8 || d == 80u8 {
        match scan_ampm(b, pos) {
            Err(f) => Err(f),
            Ok(v) => Ok((ParsedParts { ampm: Some(v.0), ..pp }, v.1)),
        }
    } else if d == 97u8 || d == 65u8 {
        match scan_weekday_name(b, pos) {
            Err(f) => Err(f),
            Ok(v) => Ok((ParsedParts { weekday: v.0, ..pp }, v.1)),
        }
    } else if d == 98u8 || d == 104u8 || d == 66u8 {
        match scan_month_name(b, pos) {
            Err(f) => Err(f),
            Ok(v) => Ok(
                (
                    ParsedParts {
                        month: match v.0 {
                            Some(m) => Some(m as u32),
                            None => None,
                        },
                        ..pp
                    },
                    v.1,
                ),
            ),
        }
    } else if d == 117u8 || d == 119u8 {
        match scan_int(b, pos, 1, pad) {
            Err(f) => Err(f),
            Ok(v) => if d == 117u8 {
                if 1 <= v.0 <= 7 {
                    Ok((ParsedParts { weekday: Some(weekday_at(v.0 - 1)), ..pp }, v.1))
                } else {
                    Err(kfail(ErrorKind::Invalid("invalid ISO weekday")))
                }
            } else {
                match weekday_from_sunday(v.0) {
                    Some(w) => Ok((ParsedParts { weekday: Some(w), ..pp }, v.1)),
                    None => Err(kfail(ErrorKind::Invalid("invalid weekday"))),
                }
            },
        }
    } else if d == 122u8 {
        match crate::format::scan_offset(b, pos) {
            Err(f) => Err(f),
            Ok(v) => Ok((ParsedParts { offset: Some(v.0), ..pp }, v.1)),
        }
    } else if d == 90u8 {
        let end = word_end(b, pos, true);
        if end == pos {
            Err(pfail("expected a timezone name", pos))
        } else if utc_zone_name(b.subrange(pos, end)) {
            Ok((ParsedParts { offset: Some(0i32), ..pp }, end))
        } else {
            Err(kfail(ErrorKind::Invalid("unknown timezone name")))
        }
    } else if d == 115u8 {
        match scan_signed_int(b, pos, 18, pad) {
            Err(f) => Err(f),
            Ok(v) => if !(i64::MIN <= v.0 <= i64::MAX) {
                Err(pfail("timestamp out of range", v.1))
            } else {
                Ok((ParsedParts { timestamp: Some(v.0 as i64), ..pp }, v.1))
            },
        }
    } else if d == 110u8 {
        Ok((pp, skip_blanks(b, pos, 2)))
    } else if d == 116u8 {
        Ok((pp, skip_blanks(b, pos, 1)))
    } else if d == 37u8 {
        if byte_at(b, pos) != Some(37u8) {
            Err(pfail("expected '%'", pos))
        } else {
            Ok((pp, pos + 1))
        }
    } else if d == 43u8 {
        let rest = b.subrange(pos, b.len() as int);
        match crate::format::scan_iso(rest, true, true) {
            Err(f) => Err(f),
            Ok(v) => {
                let ymd = ymd_of_days(v.0);
                let t = v.1->Some_0;
                Ok(
                    (
                        ParsedParts {
                            year: Some(ymd.0 as i32),
                            month: Some(ymd.1 as u32),
                            day: Some(ymd.2 as u32),
                            hour: Some((t / 3_600_000_000_000) as u32),
                            minute: Some(((t / 60_000_000_000) % 60) as u32),
                            second: Some(((t / 1_000_000_000) % 60) as u32),
                            nanos: Some((t % 1_000_000_000) as u32),
                            offset: Some(v.2->Some_0),
                            ..pp
                        },
                        b.len() as int,
                    ),
                )
            },
        }
    } else {
        Err(kfail(ErrorKind::Invalid("unknown format directive")))
    }
}

/// A separator byte required between the fields of a composite directive.
pub open spec fn then_byte(
    r: Result<(ParsedParts, int), Fail>,
    b: Seq<u8>,
    c: u8,
    what: &'static str,
) -> Result<(ParsedParts, int), Fail> {
    match r {
        Err(f) => Err(f),
        Ok(x) => if byte_at(b, x.1) != Some(c) {
            Err(pfail(what, x.1))
        } else {
            Ok((x.0, x.1 + 1))
        },
    }
}

/// The next field of a composite directive.
pub open spec fn then_dir(r: Result<(ParsedParts, int), Fail>, b: Seq<u8>, d: u8, pad: u8) -> Result<
    (ParsedParts, int),
    Fail,
> {
    match r {
        Err(f) => Err(f),
        Ok(x) => simple_dir(b, x.1, x.0, d, pad),
    }
}

/// One directive read from the input, composites expanded.
pub open spec fn parse_dir(b: Seq<u8>, pos: int, pp: ParsedParts, d: u8, pad: u8) -> Result<
    (ParsedParts, int),
    Fail,
> {
    let start = Ok::<(ParsedParts, int), Fail>((pp, pos));
    if d == 70u8 {
        then_dir(
            then_byte(
                then_dir(then_byte(then_dir(start, b, 89u8, pad), b, 45u8, "expected '-'"), b, 109u8, pad),
                b,
                45u8,
                "expected '-'",
            ),
            b,
            100u8,
            pad,
        )
    } else if d == 68u8 || d == 120u8 {
        then_dir(
            then_byte(
                then_dir(then_byte(then_dir(start, b, 109u8, pad), b, 47u8, "expected '/'"), b, 100u8, pad),
                b,
                47u8,
                "expected '/'",
            ),
            b,
            121u8,
            pad,
        )
    } else if d == 82u8 {
        then_dir(then_byte(then_dir(start, b, 72u8, pad), b, 58u8, "expected ':'"), b, 77u8, pad)
    } else if d == 84u8 || d == 88u8 {
        then_dir(
            then_byte(
                then_dir(then_byte(then_dir(start, b, 72u8, pad), b, 58u8, "expected ':'"), b, 77u8, pad),
                b,
                58u8,
                "expected ':'",
            ),
            b,
            83u8,
            pad,
        )
    } else if d == 114u8 {
        then_dir(
            then_byte(
                then_dir(
                    then_byte(
                        then_dir(then_byte(then_dir(start, b, 73u8, pad), b, 58u8, "expected ':'"), b, 77u8, pad),
                        b,
                        58u8,
                        "expected ':'",
                    ),
                    b,
                    83u8,
                    pad,
                ),
                b,
                32u8,
                "expected ' '",
            ),
            b,
            112u8,
            pad,
        )
    } else {
        simple_dir(b, pos, pp, d, pad)
    }
}

/// The parse of input `b` from `pos` against format `f` from `i`: literal
/// bytes must match (a space matches any run of spaces and tabs), `%`
/// directives read fields.
pub open spec fn pparse(f: Seq<u8>, i: int, b: Seq<u8>, pos: int, pp: ParsedParts) -> Result<
    (ParsedParts, int),
    Fail,
>
    decreases f.len() - i,
{
    if i >= f.len() || i < 0 {
        Ok((pp, pos))
    } else if f[i] != 37u8 {
        if f[i] == 32u8 {
            pparse(f, i + 1, b, skip_blanks(b, pos, 1), pp)
        } else if byte_at(b, pos) != Some(f[i]) {
            Err(pfail("expected literal character", pos))
        } else {
            pparse(f, i + 1, b, pos + 1, pp)
        }
    } else if i + 1 >= f.len() {
        Err(kfail(ErrorKind::Invalid("trailing '%' in format string")))
    } else if f[i + 1] == 58u8 {
        if i + 2 >= f.len() || f[i + 2] != 122u8 {
            Err(kfail(ErrorKind::Invalid("expected 'z' after '%:'")))
        } else {
            match crate::format::scan_offset(b, pos) {
                Err(e) => Err(e),
                Ok(ov) => pparse(f, i + 3, b, ov.1, ParsedParts { offset: Some(ov.0), ..pp }),
            }
        }
    } else if f[i + 1] == 46u8 {
        match width_at(f, i + 2) {
            Err(k) => Err(kfail(k)),
            Ok(wv) => if wv.1 > i + 2 && (wv.0 == 0 || wv.0 > 9) {
                Err(kfail(ErrorKind::Invalid("fraction width must be 1..=9")))
            } else if wv.1 >= f.len() || f[wv.1] != 102u8 {
                Err(kfail(ErrorKind::Invalid("expected 'f' after '.' in format string")))
            } else {
                match scan_frac(b, pos, wv.0) {
                    Err(e) => Err(e),
                    Ok(fv) => pparse(
                        f,
                        wv.1 + 1,
                        b,
                        fv.1,
                        ParsedParts { nanos: Some(fv.0 as u32), ..pp },
                    ),
                }
            },
        }
    } else {
        let m = f[i + 1];
        let has_pad = m == 45u8 || m == 95u8 || m == 48u8 || m == 35u8;
        let pad: u8 = if !has_pad {
            48u8
        } else if m == 35u8 {
            45u8
        } else {
            m
        };
        let k = if has_pad {
            i + 2
        } else {
            i + 1
        };
        match width_at(f, k) {
            Err(e) => Err(kfail(e)),
            Ok(wv) => if wv.1 >= f.len() {
                Err(kfail(ErrorKind::Invalid("trailing '%' in format string")))
            } else {
                match parse_dir(b, pos, pp, f[wv.1], pad) {
                    Err(e) => Err(e),
                    Ok(x) => pparse(f, wv.1 + 1, b, x.1, x.0),
                }
            },
        }
    }
}

/// The fields read from input `b` against format `f`; the whole input must
/// be consumed.
pub open spec fn parse_outcome(f: Seq<u8>, b: Seq<u8>) -> Result<ParsedParts, Fail> {
    match pparse(f, 0, b, 0, no_parts()) {
        Err(e) => Err(e),
        Ok(x) => if x.1 < b.len() {
            Err(pfail("trailing characters in input", x.1))
        } else {
            Ok(x.0)
        },
    }
}

// ---------------------------------------------------------------------------
// Parsing
// ---------------------------------------------------------------------------

/// Skip blank bytes (see [`skip_blanks`]).
fn skip_blanks_exec(b: &[u8], pos: usize, kind: u8) -> (p: usize)
    requires
        pos <= b@.len(),
    ensures
        p == skip_blanks(b@, pos as int, kind as int),
        pos <= p <= b@.len(),
{
    let mut p = pos;
    while p < b.len() && (b[p] == 32u8 || (kind >= 1 && b[p] == 9u8) || (kind >= 2 && (b[p] == 10u8
        || b[p] == 13u8)))
        invariant
            pos <= p <= b@.len(),
            skip_blanks(b@, pos as int, kind as int) == skip_blanks(b@, p as int, kind as int),
        decreases b@.len() - p,
    {
        p = p + 1;
    }
    p
}

/// Read up to `max` digits, after leading spaces for a space padding.
fn scan_int_exec(b: &[u8], pos: usize, max: usize, pad: u8) -> (r: Result<(u64, usize), Error>)
    requires
        pos <= b@.len(),
        max <= 18,
    ensures
        crate::scan::step_agrees(r, scan_int(b@, pos as int, max as int, pad)),
        r is Ok ==> r->Ok_0.1 <= b@.len() && r->Ok_0.0 < pow10(max as int),
{
    let p0 = if pad == 95u8 || pad == 32u8 {
        skip_blanks_exec(b, pos, 0)
    } else {
        pos
    };
    let (v, p1) = crate::scan::read_digits(b, p0, max);
    proof {
        crate::scan::lemma_digit_run(b@, p0 as int, max as int);
        let n = digit_run(b@, p0 as int, max as int);
        if n > 0 {
            assert(crate::scan::digit_at(b@, p0 + (n - 1)));
        }
        crate::scan::lemma_digits_val_bound(b@, p0 as int, n as int);
        lemma_pow10_mono(n as int, max as int);
    }
    if p1 == p0 {
        return Err(Error::parse("expected digits", p0));
    }
    Ok((v, p1))
}

/// An optionally signed run of up to `max` digits.
fn scan_signed_int_exec(b: &[u8], pos: usize, max: usize, pad: u8) -> (r: Result<(i64, usize), Error>)
    requires
        pos <= b@.len(),
        max <= 18,
    ensures
        match scan_signed_int(b@, pos as int, max as int, pad) {
            Ok(v) => r is Ok && r->Ok_0.0 == v.0 && r->Ok_0.1 == v.1,
            Err(f) => fails(r, f),
        },
        r is Ok ==> r->Ok_0.1 <= b@.len(),
{
    let negative = crate::scan::at_byte(b, pos, 45u8);
    let p0 = if negative || crate::scan::at_byte(b, pos, 43u8) {
        pos + 1
    } else {
        pos
    };
    proof {
        lemma_pow10_table();
        lemma_pow10_mono(max as int, 18);
    }
    match scan_int_exec(b, p0, max, pad) {
        Ok((v, p)) => Ok((
            if negative {
                -(v as i64)
            } else {
                v as i64
            },
            p,
        )),
        Err(e) => Err(e),
    }
}

/// Consume `w` case-insensitively (see [`eat_ci`]).
fn eat_ci_exec(b: &[u8], pos: usize, w: &[u8]) -> (r: (bool, usize))
    requires
        pos <= b@.len(),
    ensures
        r.0 == eat_ci(b@, pos as int, w@).0,
        r.1 == eat_ci(b@, pos as int, w@).1,
        pos <= r.1 <= b@.len(),
{
    if b.len() - pos < w.len() {
        return (false, pos);
    }
    let mut k: usize = 0;
    while k < w.len()
        invariant
            k <= w@.len(),
            pos + w@.len() <= b@.len() <= usize::MAX,
            ci_prefix(b@, pos as int, w@, 0) == ci_prefix(b@, pos as int, w@, k as int),
        decreases w@.len() - k,
    {
        if crate::text::lower_byte(b[pos + k]) != crate::text::lower_byte(w[k]) {
            return (false, pos + k);
        }
        k = k + 1;
    }
    (true, pos + k)
}

/// `AM` or `PM` in any case.
fn scan_ampm_exec(b: &[u8], pos: usize) -> (r: Result<(bool, usize), Error>)
    requires
        pos <= b@.len(),
    ensures
        crate::format::scanned(r, scan_ampm(b@, pos as int)),
        r is Ok ==> r->Ok_0.1 <= b@.len(),
{
    let am: [u8; 2] = [97u8, 109u8];
    let pm: [u8; 2] = [112u8, 109u8];
    proof {
        assert(am@ =~= seq![97u8, 109u8]);
        assert(pm@ =~= seq![112u8, 109u8]);
    }
    let (ok1, p1) = eat_ci_exec(b, pos, am.as_slice());
    if ok1 {
        return Ok((false, p1));
    }
    let (ok2, p2) = eat_ci_exec(b, p1, pm.as_slice());
    if ok2 {
        return Ok((true, p2));
    }
    Err(Error::parse("expected AM/PM", p2))
}

/// A `.digits` fraction scaled to nanoseconds.
fn scan_frac_exec(b: &[u8], pos: usize, width: u32) -> (r: Result<(u32, usize), Error>)
    requires
        pos <= b@.len(),
        width <= 9,
    ensures
        match scan_frac(b@, pos as int, width as int) {
            Ok(v) => r is Ok && r->Ok_0.0 == v.0 && r->Ok_0.1 == v.1,
            Err(f) => fails(r, f),
        },
        r is Ok ==> r->Ok_0.1 <= b@.len(),
{
    if !crate::scan::at_byte(b, pos, 46u8) {
        return Err(Error::parse("expected '.'", pos));
    }
    let p1 = pos + 1;
    proof {
        lemma_pow10_table();
    }
    let (v, n, p2): (u64, u32, usize) = if width > 0 {
        let (v, p) = crate::scan::read_digits(b, p1, width as usize);
        if p - p1 < width as usize {
            return Err(Error::parse("expected digits", p));
        }
        proof {
            crate::scan::lemma_digit_run(b@, p1 as int, width as int);
            assert(crate::scan::digit_at(b@, p1 + (width - 1)));
            crate::scan::lemma_digits_val_bound(b@, p1 as int, width as int);
        }
        (v, width, p)
    } else {
        let (v, p) = crate::scan::read_digits(b, p1, 10);
        let k = p - p1;
        if k == 10 {
            return Err(Error::parse("fraction has more than 9 digits", p));
        }
        if k == 0 {
            return Err(Error::parse("expected digits after '.'", p1));
        }
        proof {
            crate::scan::lemma_digit_run(b@, p1 as int, 10);
            assert(crate::scan::digit_at(b@, p1 + (k - 1)));
            crate::scan::lemma_digits_val_bound(b@, p1 as int, k as int);
        }
        (v, k as u32, p)
    };
    let scale = pow10_u64(9 - n);
    proof {
        lemma_pow10_mono(n as int, 9);
        vstd::arithmetic::mul::lemma_mul_strict_inequality(v as int, pow10(n as int) as int, scale as int);
        crate::format::lemma_pow10_sum(n as int, 9 - n);
    }
    let ns = v * scale;
    if ns > u32::MAX as u64 {
        return Err(Error::parse("fraction out of range", p2));
    }
    Ok((ns as u32, p2))
}

/// The end of the run of letters (and `/` when `slash`) at `pos`.
fn word_end_exec(b: &[u8], pos: usize, slash: bool) -> (p: usize)
    requires
        pos <= b@.len(),
    ensures
        p == word_end(b@, pos as int, slash),
        pos <= p <= b@.len(),
{
    let mut p = pos;
    while p < b.len() && ((b[p] >= 65u8 && b[p] <= 90u8) || (b[p] >= 97u8 && b[p] <= 122u8) || (
    slash && b[p] == 47u8))
        invariant
            pos <= p <= b@.len(),
            word_end(b@, pos as int, slash) == word_end(b@, p as int, slash),
        decreases b@.len() - p,
    {
        p = p + 1;
    }
    p
}

/// A weekday by its full name, else by its abbreviation (case-sensitive).
fn weekday_by_name_exec(w: &[u8]) -> (r: Option<Weekday>)
    ensures
        r == weekday_by_name(w@),
{
    if crate::text::bytes_eq(w, "Monday".as_bytes()) {
        Some(Weekday::Monday)
    } else if crate::text::bytes_eq(w, "Tuesday".as_bytes()) {
        Some(Weekday::Tuesday)
    } else if crate::text::bytes_eq(w, "Wednesday".as_bytes()) {
        Some(Weekday::Wednesday)
    } else if crate::text::bytes_eq(w, "Thursday".as_bytes()) {
        Some(Weekday::Thursday)
    } else if crate::text::bytes_eq(w, "Friday".as_bytes()) {
        Some(Weekday::Friday)
    } else if crate::text::bytes_eq(w, "Saturday".as_bytes()) {
        Some(Weekday::Saturday)
    } else if crate::text::bytes_eq(w, "Sunday".as_bytes()) {
        Some(Weekday::Sunday)
    } else if crate::text::bytes_eq(w, "Mon".as_bytes()) {
        Some(Weekday::Monday)
    } else if crate::text::bytes_eq(w, "Tue".as_bytes()) {
        Some(Weekday::Tuesday)
    } else if crate::text::bytes_eq(w, "Wed".as_bytes()) {
        Some(Weekday::Wednesday)
    } else if crate::text::bytes_eq(w, "Thu".as_bytes()) {
        Some(Weekday::Thursday)
    } else if crate::text::bytes_eq(w, "Fri".as_bytes()) {
        Some(Weekday::Friday)
    } else if crate::text::bytes_eq(w, "Sat".as_bytes()) {
        Some(Weekday::Saturday)
    } else if crate::text::bytes_eq(w, "Sun".as_bytes()) {
        Some(Weekday::Sunday)
    } else {
        None
    }
}

/// Whether `w` names month `m` (full or abbreviated, any case).
fn names_month_exec(w: &[u8], m: Month) -> (r: bool)
    ensures
        r == names_month(w@, m),
{
    crate::text::bytes_eq_ignore_case(w, m.name().as_bytes()) || crate::text::bytes_eq_ignore_case(
        w,
        m.short_name().as_bytes(),
    )
}

/// The number of the first month that `w` names.
fn month_by_name_exec(w: &[u8]) -> (r: Option<u32>)
    ensures
        match month_by_name(w@) {
            Some(m) => r == Some(m as u32),
            None => r is None,
        },
{
    if names_month_exec(w, Month::January) {
        Some(1)
    } else if names_month_exec(w, Month::February) {
        Some(2)
    } else if names_month_exec(w, Month::March) {
        Some(3)
    } else if names_month_exec(w, Month::April) {
        Some(4)
    } else if names_month_exec(w, Month::May) {
        Some(5)
    } else if names_month_exec(w, Month::June) {
        Some(6)
    } else if names_month_exec(w, Month::July) {
        Some(7)
    } else if names_month_exec(w, Month::August) {
        Some(8)
    } else if names_month_exec(w, Month::September) {
        Some(9)
    } else if names_month_exec(w, Month::October) {
        Some(10)
    } else if names_month_exec(w, Month::November) {
        Some(11)
    } else if names_month_exec(w, Month::December) {
        Some(12)
    } else {
        None
    }
}

/// Whether `w` is a zone name that `%Z` reads as UTC.
fn utc_zone_name_exec(w: &[u8]) -> (r: bool)
    ensures
        r == utc_zone_name(w@),
{
    crate::text::bytes_eq(w, "UTC".as_bytes()) || crate::text::bytes_eq(w, "GMT".as_bytes())
        || crate::text::bytes_eq(w, "UT".as_bytes()) || crate::text::bytes_eq(w, "Z".as_bytes())
        || crate::text::bytes_eq(w, "Etc/UTC".as_bytes()) || crate::text::bytes_eq(
        w,
        "Etc/GMT".as_bytes(),
    )
}

/// A weekday name at `pos`.
fn scan_weekday_name_exec(b: &[u8], pos: usize) -> (r: Result<(Option<Weekday>, usize), Error>)
    requires
        pos <= b@.len(),
    ensures
        crate::format::scanned(r, scan_weekday_name(b@, pos as int)),
        r is Ok ==> r->Ok_0.1 <= b@.len(),
{
    let end = word_end_exec(b, pos, false);
    if end == pos {
        return Ok((None, pos));
    }
    let word = vstd::slice::slice_subrange(b, pos, end);
    match weekday_by_name_exec(word) {
        Some(w) => Ok((Some(w), end)),
        None => Err(Error::invalid("unknown weekday name")),
    }
}

/// A month name at `pos` as its number.
fn scan_month_name_exec(b: &[u8], pos: usize) -> (r: Result<(Option<u32>, usize), Error>)
    requires
        pos <= b@.len(),
    ensures
        match scan_month_name(b@, pos as int) {
            Ok(v) => r is Ok && r->Ok_0.1 == v.1 && match v.0 {
                Some(m) => r->Ok_0.0 == Some(m as u32),
                None => r->Ok_0.0 is None,
            },
            Err(f) => fails(r, f),
        },
        r is Ok ==> r->Ok_0.1 <= b@.len(),
        r is Ok && r->Ok_0.0 is Some ==> 1 <= r->Ok_0.0->Some_0 <= 12,
{
    let end = word_end_exec(b, pos, false);
    if end == pos {
        return Ok((None, pos));
    }
    let word = vstd::slice::slice_subrange(b, pos, end);
    match month_by_name_exec(word) {
        Some(m) => Ok((Some(m), end)),
        None => Err(Error::invalid("unknown month name")),
    }
}

/// The numeric directives `Y G`, the plain numeric ones and `f`.
pub open spec fn is_field_directive(d: u8) -> bool {
    d == 89u8 || d == 71u8 || is_num_directive(d) || d == 102u8
}

/// The word directives `p P a A b h B u w`.
pub open spec fn is_word_directive(d: u8) -> bool {
    d == 112u8 || d == 80u8 || d == 97u8 || d == 65u8 || d == 98u8 || d == 104u8 || d == 66u8
        || d == 117u8 || d == 119u8
}

fn field_directive(d: u8) -> (r: bool)
    ensures
        r == is_field_directive(d),
{
    d == 89u8 || d == 71u8 || d == 121u8 || d == 67u8 || d == 109u8 || d == 100u8 || d == 101u8
        || d == 106u8 || d == 72u8 || d == 73u8 || d == 107u8 || d == 108u8 || d == 77u8 || d
        == 83u8 || d == 103u8 || d == 86u8 || d == 85u8 || d == 87u8 || d == 102u8
}

fn word_directive(d: u8) -> (r: bool)
    ensures
        r == is_word_directive(d),
{
    d == 112u8 || d == 80u8 || d == 97u8 || d == 65u8 || d == 98u8 || d == 104u8 || d == 66u8
        || d == 117u8 || d == 119u8
}

/// Read a numeric field directive.
fn read_field(b: &[u8], pos: usize, pp: ParsedParts, d: u8, pad: u8) -> (r: Result<
    (ParsedParts, usize),
    Error,
>)
    requires
        pp_wf(pp),
        pos <= b@.len(),
        is_field_directive(d),
    ensures
        r is Ok ==> pp_wf(r->Ok_0.0),
        crate::format::scanned(r, simple_dir(b@, pos as int, pp, d, pad)),
        r is Ok ==> r->Ok_0.1 <= b@.len(),
{
    reveal(simple_dir);
    proof {
        lemma_pow10_table();
    }
    if d == 89u8 || d == 71u8 {
        let (v, p) = match scan_signed_int_exec(b, pos, 9, pad) {
            Ok(x) => x,
            Err(e) => {
                return Err(e);
            },
        };
        if v < i32::MIN as i64 || v > i32::MAX as i64 {
            return Err(
                Error::parse(
                    if d == 89u8 {
                        "year out of range"
                    } else {
                        "iso year out of range"
                    },
                    p,
                ),
            );
        }
        if d == 89u8 {
            Ok((ParsedParts { year: Some(v as i32), ..pp }, p))
        } else {
            Ok((ParsedParts { isoyear: Some(v as i32), ..pp }, p))
        }
    } else if d == 102u8 {
        match crate::scan::scan_digits_exec(b, pos, 9, 9) {
            Ok((v, p)) => {
                proof {
                    crate::format::lemma_scan_digits_in(b@, pos as int, 9, 9);
                }
                Ok((ParsedParts { nanos: Some(v as u32), ..pp }, p))
            },
            Err(e) => Err(e),
        }
    } else {
        let width: usize = if d == 106u8 {
            3
        } else {
            2
        };
        let p2: u8 = if d == 101u8 || d == 107u8 || d == 108u8 {
            32u8
        } else {
            pad
        };
        let (v, p) = match scan_int_exec(b, pos, width, p2) {
            Ok(x) => x,
            Err(e) => {
                return Err(e);
            },
        };
        let out = if d == 121u8 {
            ParsedParts { year2: Some(v as u32), ..pp }
        } else if d == 67u8 {
            ParsedParts { century: Some(v as i32), ..pp }
        } else if d == 109u8 {
            ParsedParts { month: Some(v as u32), ..pp }
        } else if d == 100u8 || d == 101u8 {
            ParsedParts { day: Some(v as u32), ..pp }
        } else if d == 106u8 {
            ParsedParts { ordinal: Some(v as u32), ..pp }
        } else if d == 72u8 || d == 107u8 {
            ParsedParts { hour: Some(v as u32), ..pp }
        } else if d == 73u8 || d == 108u8 {
            ParsedParts { hour12: Some(v as u32), ..pp }
        } else if d == 77u8 {
            ParsedParts { minute: Some(v as u32), ..pp }
        } else if d == 83u8 {
            ParsedParts { second: Some(v as u32), ..pp }
        } else if d == 103u8 {
            ParsedParts { iso_year2: Some(v as u32), ..pp }
        } else if d == 86u8 {
            ParsedParts { isoweek: Some(v as u32), ..pp }
        } else if d == 85u8 {
            ParsedParts { week_sun: Some(v as u32), ..pp }
        } else {
            ParsedParts { week_mon: Some(v as u32), ..pp }
        };
        Ok((out, p))
    }
}

/// Read a word directive (`p P a A b h B u w`).
fn read_word(b: &[u8], pos: usize, pp: ParsedParts, d: u8, pad: u8) -> (r: Result<
    (ParsedParts, usize),
    Error,
>)
    requires
        pp_wf(pp),
        pos <= b@.len(),
        is_word_directive(d),
    ensures
        r is Ok ==> pp_wf(r->Ok_0.0),
        crate::format::scanned(r, simple_dir(b@, pos as int, pp, d, pad)),
        r is Ok ==> r->Ok_0.1 <= b@.len(),
{
    reveal(simple_dir);
    if d == 112u8 || d == 80u8 {
        match scan_ampm_exec(b, pos) {
            Ok((pm, p)) => Ok((ParsedParts { ampm: Some(pm), ..pp }, p)),
            Err(e) => Err(e),
        }
    } else if d == 97u8 || d == 65u8 {
        match scan_weekday_name_exec(b, pos) {
            Ok((w, p)) => Ok((ParsedParts { weekday: w, ..pp }, p)),
            Err(e) => Err(e),
        }
    } else if d == 98u8 || d == 104u8 || d == 66u8 {
        match scan_month_name_exec(b, pos) {
            Ok((m, p)) => Ok((ParsedParts { month: m, ..pp }, p)),
            Err(e) => Err(e),
        }
    } else {
        proof {
            lemma_pow10_table();
        }
        let (v, p) = match scan_int_exec(b, pos, 1, pad) {
            Ok(x) => x,
            Err(e) => {
                return Err(e);
            },
        };
        if d == 117u8 {
            match Weekday::from_iso_number(v as u32) {
                Some(w) => Ok((ParsedParts { weekday: Some(w), ..pp }, p)),
                None => Err(Error::invalid("invalid ISO weekday")),
            }
        } else {
            let w = if v == 0 {
                Some(Weekday::Sunday)
            } else if v <= 6 {
                Weekday::from_iso_number(v as u32)
            } else {
                None
            };
            match w {
                Some(w) => Ok((ParsedParts { weekday: Some(w), ..pp }, p)),
                None => Err(Error::invalid("invalid weekday")),
            }
        }
    }
}

/// Read any other directive (`z Z s n t % +`), or fail for an unknown one.
fn read_other(b: &[u8], pos: usize, pp: ParsedParts, d: u8, pad: u8) -> (r: Result<
    (ParsedParts, usize),
    Error,
>)
    requires
        pp_wf(pp),
        pos <= b@.len(),
        !is_field_directive(d),
        !is_word_directive(d),
    ensures
        r is Ok ==> pp_wf(r->Ok_0.0),
        crate::format::scanned(r, simple_dir(b@, pos as int, pp, d, pad)),
        r is Ok ==> r->Ok_0.1 <= b@.len(),
{
    reveal(simple_dir);
    if d == 122u8 {
        match crate::format::scan_offset_exec(b, pos) {
            Ok((o, p)) => Ok((ParsedParts { offset: Some(o.as_seconds()), ..pp }, p)),
            Err(e) => Err(e),
        }
    } else if d == 90u8 {
        let end = word_end_exec(b, pos, true);
        if end == pos {
            return Err(Error::parse("expected a timezone name", pos));
        }
        if utc_zone_name_exec(vstd::slice::slice_subrange(b, pos, end)) {
            Ok((ParsedParts { offset: Some(0i32), ..pp }, end))
        } else {
            Err(Error::invalid("unknown timezone name"))
        }
    } else if d == 115u8 {
        proof {
            lemma_pow10_table();
        }
        match scan_signed_int_exec(b, pos, 18, pad) {
            Ok((v, p)) => Ok((ParsedParts { timestamp: Some(v), ..pp }, p)),
            Err(e) => Err(e),
        }
    } else if d == 110u8 {
        Ok((pp, skip_blanks_exec(b, pos, 2)))
    } else if d == 116u8 {
        Ok((pp, skip_blanks_exec(b, pos, 1)))
    } else if d == 37u8 {
        if !crate::scan::at_byte(b, pos, 37u8) {
            return Err(Error::parse("expected '%'", pos));
        }
        Ok((pp, pos + 1))
    } else if d == 43u8 {
        let rest = vstd::slice::slice_subrange(b, pos, b.len());
        match crate::format::scan_iso_exec(rest, true, true) {
            Ok(v) => match (v.time, v.offset) {
                (Some(t), Some(o)) => {
                    let (y, m, dd) = v.date.parts();
                    let (h, mi, sec, ns) = t.parts();
                    Ok(
                        (
                            ParsedParts {
                                year: Some(y),
                                month: Some(m),
                                day: Some(dd),
                                hour: Some(h),
                                minute: Some(mi),
                                second: Some(sec),
                                nanos: Some(ns),
                                offset: Some(o.as_seconds()),
                                ..pp
                            },
                            b.len(),
                        ),
                    )
                },
                _ => Err(Error::parse("expected a timezone offset", 0)),
            },
            Err(e) => Err(e),
        }
    } else {
        Err(Error::invalid("unknown format directive"))
    }
}

/// Read one non-composite directive.
fn read_simple(b: &[u8], pos: usize, pp: ParsedParts, d: u8, pad: u8) -> (r: Result<
    (ParsedParts, usize),
    Error,
>)
    requires
        pp_wf(pp),
        pos <= b@.len(),
    ensures
        r is Ok ==> pp_wf(r->Ok_0.0),
        crate::format::scanned(r, simple_dir(b@, pos as int, pp, d, pad)),
        r is Ok ==> r->Ok_0.1 <= b@.len(),
{
    if field_directive(d) {
        read_field(b, pos, pp, d, pad)
    } else if word_directive(d) {
        read_word(b, pos, pp, d, pad)
    } else {
        read_other(b, pos, pp, d, pad)
    }
}

/// Require the separator byte `c` of a composite directive.
fn expect_sep(
    r: Result<(ParsedParts, usize), Error>,
    b: &[u8],
    c: u8,
    what: &'static str,
    Ghost(o): Ghost<Result<(ParsedParts, int), Fail>>,
) -> (out: Result<(ParsedParts, usize), Error>)
    requires
        r is Ok ==> pp_wf(r->Ok_0.0),
        r is Ok ==> r->Ok_0.1 <= b@.len(),
        crate::format::scanned(r, o),
    ensures
        out is Ok ==> pp_wf(out->Ok_0.0),
        crate::format::scanned(out, then_byte(o, b@, c, what)),
        out is Ok ==> out->Ok_0.1 <= b@.len(),
{
    match r {
        Ok((pp, p)) => {
            if !crate::scan::at_byte(b, p, c) {
                return Err(Error::parse(what, p));
            }
            Ok((pp, p + 1))
        },
        Err(e) => Err(e),
    }
}

/// Read the next field of a composite directive.
fn next_field(
    r: Result<(ParsedParts, usize), Error>,
    b: &[u8],
    d: u8,
    pad: u8,
    Ghost(o): Ghost<Result<(ParsedParts, int), Fail>>,
) -> (out: Result<(ParsedParts, usize), Error>)
    requires
        r is Ok ==> pp_wf(r->Ok_0.0),
        r is Ok ==> r->Ok_0.1 <= b@.len(),
        crate::format::scanned(r, o),
    ensures
        out is Ok ==> pp_wf(out->Ok_0.0),
        crate::format::scanned(out, then_dir(o, b@, d, pad)),
        out is Ok ==> out->Ok_0.1 <= b@.len(),
{
    match r {
        Ok((pp, p)) => read_simple(b, p, pp, d, pad),
        Err(e) => Err(e),
    }
}

/// Read one directive, composites expanded.
fn read_directive(b: &[u8], pos: usize, pp: ParsedParts, d: u8, pad: u8) -> (r: Result<
    (ParsedParts, usize),
    Error,
>)
    requires
        pp_wf(pp),
        pos <= b@.len(),
    ensures
        r is Ok ==> pp_wf(r->Ok_0.0),
        crate::format::scanned(r, parse_dir(b@, pos as int, pp, d, pad)),
        r is Ok ==> r->Ok_0.1 <= b@.len(),
{
    let start: Result<(ParsedParts, usize), Error> = Ok((pp, pos));
    let ghost o0 = Ok::<(ParsedParts, int), Fail>((pp, pos as int));
    if d == 70u8 {
        let ghost o_r1 = then_dir(o0, b@, 89u8, pad);
        let r1 = next_field(start, b, 89u8, pad, Ghost(o0));
        let ghost o_r2 = then_byte(o_r1, b@, 45u8, "expected '-'");
        let r2 = expect_sep(r1, b, 45u8, "expected '-'", Ghost(o_r1));
        let ghost o_r3 = then_dir(o_r2, b@, 109u8, pad);
        let r3 = next_field(r2, b, 109u8, pad, Ghost(o_r2));
        let ghost o_r4 = then_byte(o_r3, b@, 45u8, "expected '-'");
        let r4 = expect_sep(r3, b, 45u8, "expected '-'", Ghost(o_r3));
        next_field(r4, b, 100u8, pad, Ghost(o_r4))
    } else if d == 68u8 || d == 120u8 {
        let ghost o_r1 = then_dir(o0, b@, 109u8, pad);
        let r1 = next_field(start, b, 109u8, pad, Ghost(o0));
        let ghost o_r2 = then_byte(o_r1, b@, 47u8, "expected '/'");
        let r2 = expect_sep(r1, b, 47u8, "expected '/'", Ghost(o_r1));
        let ghost o_r3 = then_dir(o_r2, b@, 100u8, pad);
        let r3 = next_field(r2, b, 100u8, pad, Ghost(o_r2));
        let ghost o_r4 = then_byte(o_r3, b@, 47u8, "expected '/'");
        let r4 = expect_sep(r3, b, 47u8, "expected '/'", Ghost(o_r3));
        next_field(r4, b, 121u8, pad, Ghost(o_r4))
    } else if d == 82u8 {
        let ghost o_r1 = then_dir(o0, b@, 72u8, pad);
        let r1 = next_field(start, b, 72u8, pad, Ghost(o0));
        let ghost o_r2 = then_byte(o_r1, b@, 58u8, "expected ':'");
        let r2 = expect_sep(r1, b, 58u8, "expected ':'", Ghost(o_r1));
        next_field(r2, b, 77u8, pad, Ghost(o_r2))
    } else if d == 84u8 || d == 88u8 {
        let ghost o_r1 = then_dir(o0, b@, 72u8, pad);
        let r1 = next_field(start, b, 72u8, pad, Ghost(o0));
        let ghost o_r2 = then_byte(o_r1, b@, 58u8, "expected ':'");
        let r2 = expect_sep(r1, b, 58u8, "expected ':'", Ghost(o_r1));
        let ghost o_r3 = then_dir(o_r2, b@, 77u8, pad);
        let r3 = next_field(r2, b, 77u8, pad, Ghost(o_r2));
        let ghost o_r4 = then_byte(o_r3, b@, 58u8, "expected ':'");
        let r4 = expect_sep(r3, b, 58u8, "expected ':'", Ghost(o_r3));
        next_field(r4, b, 83u8, pad, Ghost(o_r4))
    } else if d == 114u8 {
        let ghost o_r1 = then_dir(o0, b@, 73u8, pad);
        let r1 = next_field(start, b, 73u8, pad, Ghost(o0));
        let ghost o_r2 = then_byte(o_r1, b@, 58u8, "expected ':'");
        let r2 = expect_sep(r1, b, 58u8, "expected ':'", Ghost(o_r1));
        let ghost o_r3 = then_dir(o_r2, b@, 77u8, pad);
        let r3 = next_field(r2, b, 77u8, pad, Ghost(o_r2));
        let ghost o_r4 = then_byte(o_r3, b@, 58u8, "expected ':'");
        let r4 = expect_sep(r3, b, 58u8, "expected ':'", Ghost(o_r3));
        let ghost o_r5 = then_dir(o_r4, b@, 83u8, pad);
        let r5 = next_field(r4, b, 83u8, pad, Ghost(o_r4));
        let ghost o_r6 = then_byte(o_r5, b@, 32u8, "expected ' '");
        let r6 = expect_sep(r5, b, 32u8, "expected ' '", Ghost(o_r5));
        next_field(r6, b, 112u8, pad, Ghost(o_r6))
    } else {
        read_simple(b, pos, pp, d, pad)
    }
}

impl ParsedParts {
    /// Nothing parsed yet.
    pub fn empty() -> (pp: ParsedParts)
        ensures
            pp == no_parts(),
    {
        ParsedParts {
            year: None,
            month: None,
            day: None,
            hour: None,
            minute: None,
            second: None,
            nanos: None,
            ordinal: None,
            isoyear: None,
            iso_year2: None,
            isoweek: None,
            weekday: None,
            week_sun: None,
            week_mon: None,
            hour12: None,
            ampm: None,
            offset: None,
            timestamp: None,
            century: None,
            year2: None,
        }
    }
}

/// Parse the input bytes `b` against the strftime-style format bytes `f`,
/// accumulating fields.
pub fn parse_parts(f: &[u8], b: &[u8]) -> (r: Result<ParsedParts, Error>)
    ensures
        match parse_outcome(f@, b@) {
            Ok(pp) => r == Ok::<ParsedParts, Error>(pp),
            Err(e) => fails(r, e),
        },
        r is Ok ==> pp_wf(r->Ok_0),
{
    let mut pp = ParsedParts::empty();
    let mut pos: usize = 0;
    let mut i: usize = 0;
    while i < f.len()
        invariant
            i <= f@.len(),
            pos <= b@.len(),
            pparse(f@, 0, b@, 0, no_parts()) == pparse(f@, i as int, b@, pos as int, pp),
            pp_wf(pp),
        decreases f@.len() - i,
    {
        let c = f[i];
        if c != 37u8 {
            if c == 32u8 {
                pos = skip_blanks_exec(b, pos, 1);
            } else if !crate::scan::at_byte(b, pos, c) {
                return Err(Error::parse("expected literal character", pos));
            } else {
                pos = pos + 1;
            }
            i = i + 1;
            continue;
        }
        if i + 1 >= f.len() {
            return Err(Error::invalid("trailing '%' in format string"));
        }
        let m = f[i + 1];
        if m == 58u8 {
            if i + 2 >= f.len() || f[i + 2] != 122u8 {
                return Err(Error::invalid("expected 'z' after '%:'"));
            }
            let (o, p) = match crate::format::scan_offset_exec(b, pos) {
                Ok(v) => v,
                Err(e) => {
                    return Err(e);
                },
            };
            pp = ParsedParts { offset: Some(o.as_seconds()), ..pp };
            pos = p;
            i = i + 3;
            continue;
        }
        if m == 46u8 {
            let (width, j) = match read_width(f, i + 2) {
                Ok(v) => v,
                Err(e) => {
                    return Err(e);
                },
            };
            if j > i + 2 && (width == 0 || width > 9) {
                return Err(Error::invalid("fraction width must be 1..=9"));
            }
            if j >= f.len() || f[j] != 102u8 {
                return Err(Error::invalid("expected 'f' after '.' in format string"));
            }
            let (ns, p) = match scan_frac_exec(b, pos, width) {
                Ok(v) => v,
                Err(e) => {
                    return Err(e);
                },
            };
            pp = ParsedParts { nanos: Some(ns), ..pp };
            pos = p;
            i = j + 1;
            continue;
        }
        let has_pad = m == 45u8 || m == 95u8 || m == 48u8 || m == 35u8;
        let pad: u8 = if !has_pad {
            48u8
        } else if m == 35u8 {
            45u8
        } else {
            m
        };
        let k = if has_pad {
            i + 2
        } else {
            i + 1
        };
        let (_width, j) = match read_width(f, k) {
            Ok(v) => v,
            Err(e) => {
                return Err(e);
            },
        };
        if j >= f.len() {
            return Err(Error::invalid("trailing '%' in format string"));
        }
        let (pp2, p) = match read_directive(b, pos, pp, f[j], pad) {
            Ok(v) => v,
            Err(e) => {
                return Err(e);
            },
        };
        pp = pp2;
        pos = p;
        i = j + 1;
    }
    if pos < b.len() {
        return Err(Error::parse("trailing characters in input", pos));
    }
    Ok(pp)
}

// ---------------------------------------------------------------------------
// Resolving parsed fields
// ---------------------------------------------------------------------------

/// POSIX century inference for a two-digit year: `69..=99` are 19xx,
/// `00..=68` are 20xx.
pub open spec fn century_year(y2: int) -> int {
    if y2 >= 69 {
        1900 + y2
    } else {
        2000 + y2
    }
}

/// The calendar year from `%Y`, or `%C` with `%y`, or `%y` alone.
pub open spec fn combined_year(pp: ParsedParts) -> Result<Option<int>, ErrorKind> {
    match pp.year {
        Some(y) => Ok(Some(y as int)),
        None => match (pp.century, pp.year2) {
            (Some(c), Some(y2)) => Ok(Some(c * 100 + y2)),
            (None, Some(y2)) => Ok(Some(century_year(y2 as int))),
            (Some(_), None) => Err(ErrorKind::Invalid("incomplete year (missing %y)")),
            (None, None) => Ok(None),
        },
    }
}

/// The 24-hour clock hour from `%H`, or `%I` with `%p`.
pub open spec fn resolved_hour(pp: ParsedParts) -> Result<Option<int>, ErrorKind> {
    match pp.hour {
        Some(h) => Ok(Some(h as int)),
        None => match pp.hour12 {
            None => Ok(None),
            Some(h12) => match pp.ampm {
                None => Err(ErrorKind::Invalid("12-hour clock requires %p")),
                Some(pm) => Ok(
                    Some(
                        if pm {
                            if h12 == 12 {
                                12
                            } else {
                                h12 + 12
                            }
                        } else if h12 == 12 {
                            0
                        } else {
                            h12 as int
                        },
                    ),
                ),
            },
        },
    }
}

/// Whether any clock field was read.
pub open spec fn has_any_time(pp: ParsedParts) -> bool {
    pp.hour is Some || pp.hour12 is Some || pp.minute is Some || pp.second is Some || pp.nanos is Some
        || pp.ampm is Some
}

/// The ISO year from `%G`, or `%g` with century inference.
pub open spec fn parsed_iso_year(pp: ParsedParts) -> Option<int> {
    match pp.isoyear {
        Some(y) => Some(y as int),
        None => match pp.iso_year2 {
            Some(y2) => Some(century_year(y2 as int)),
            None => None,
        },
    }
}

/// A date outcome as an error kind.
pub open spec fn kind_of(o: Result<int, &'static str>) -> Result<int, ErrorKind> {
    match o {
        Ok(z) => Ok(z),
        Err(c) => Err(ErrorKind::OutOfRange(c)),
    }
}

/// The date of ISO week `w` of ISO year `y` on weekday `wd`.
pub open spec fn isoywd_outcome(y: int, w: int, wd: Weekday) -> Result<int, ErrorKind> {
    if w == 0 || w > crate::units::iso_weeks_in_year(y) {
        Err(ErrorKind::OutOfRange("iso week"))
    } else if !fits_date(crate::units::iso_week_monday(y, w)) {
        Err(ErrorKind::OutOfRange("date"))
    } else {
        kind_of(crate::date::days_outcome(crate::units::iso_week_monday(y, w) + weekday_num(wd)))
    }
}

/// The date of weekday `wd` in week `week` of year `y` (Sunday-first weeks
/// when `sun`); week 0 holds the days before the first week-start day.
pub open spec fn week_date_outcome(y: int, week: int, wd: Weekday, sun: bool) -> Result<int, ErrorKind> {
    if week > 53 {
        Err(ErrorKind::OutOfRange("week"))
    } else {
        let jan1 = days_from_ymd(y, 1, 1);
        let shift: int = if sun {
            1
        } else {
            0
        };
        let first = jan1 + (7 - (weekday_num(weekday_of_days(jan1)) + shift) % 7) % 7;
        let z = first + (week - 1) * 7 + (weekday_num(wd) + shift) % 7;
        if !fits_date(z) {
            Err(ErrorKind::OutOfRange("date"))
        } else if ymd_of_days(z).0 != y {
            Err(ErrorKind::Invalid("week date spills into another year"))
        } else {
            Ok(z)
        }
    }
}

/// A date checked against a parsed weekday.
pub open spec fn weekday_checked(weekday: Option<Weekday>, o: Result<int, ErrorKind>) -> Result<
    int,
    ErrorKind,
> {
    match o {
        Err(k) => Err(k),
        Ok(z) => match weekday {
            Some(wd) => if weekday_of_days(z) != wd {
                Err(ErrorKind::Invalid("weekday does not match the date"))
            } else {
                Ok(z)
            },
            None => Ok(z),
        },
    }
}

/// The calendar date the parsed fields name: an ISO week date, a
/// week-of-year date, an ordinal date or a calendar date, in that order of
/// preference.
pub open spec fn date_outcome(pp: ParsedParts) -> Result<int, ErrorKind> {
    if pp.timestamp is Some {
        Err(ErrorKind::Invalid("a timestamp cannot become a calendar date"))
    } else if pp.isoweek is Some {
        match parsed_iso_year(pp) {
            None => Err(ErrorKind::Invalid("ISO week date requires an ISO year (%G)")),
            Some(iy) => match pp.weekday {
                None => Err(ErrorKind::Invalid("ISO week date requires a weekday (%u)")),
                Some(wd) => match isoywd_outcome(iy, pp.isoweek->Some_0 as int, wd) {
                    Err(k) => Err(k),
                    Ok(z) => if iso_week_of_days(z) != (iy, pp.isoweek->Some_0 as int) {
                        Err(ErrorKind::Invalid("ISO week date out of range"))
                    } else {
                        Ok(z)
                    },
                },
            },
        }
    } else if pp.week_sun is Some || pp.week_mon is Some {
        let week = if pp.week_sun is Some {
            pp.week_sun->Some_0
        } else {
            pp.week_mon->Some_0
        };
        match combined_year(pp) {
            Err(k) => Err(k),
            Ok(None) => Err(ErrorKind::Invalid("week date requires a year")),
            Ok(Some(y)) => match pp.weekday {
                None => Err(ErrorKind::Invalid("week date requires a weekday")),
                Some(wd) => week_date_outcome(y, week as int, wd, pp.week_sun is Some),
            },
        }
    } else {
        match combined_year(pp) {
            Err(k) => Err(k),
            Ok(None) => Err(ErrorKind::Invalid("missing year")),
            Ok(Some(y)) => if pp.ordinal is Some {
                let ord = pp.ordinal->Some_0 as int;
                weekday_checked(
                    pp.weekday,
                    if ord == 0 || ord > crate::calendar::year_len(y) {
                        Err(ErrorKind::OutOfRange("ordinal"))
                    } else {
                        kind_of(crate::date::days_outcome(year_start(y) + ord - 1))
                    },
                )
            } else if pp.month is Some && pp.day is Some {
                weekday_checked(
                    pp.weekday,
                    kind_of(
                        crate::date::ymd_outcome(
                            y,
                            pp.month->Some_0 as int,
                            pp.day->Some_0 as int,
                        ),
                    ),
                )
            } else {
                Err(ErrorKind::Invalid("incomplete date"))
            },
        }
    }
}

/// The time of day the parsed fields name; missing minutes, seconds and
/// fraction are zero.
pub open spec fn time_outcome(pp: ParsedParts) -> Result<int, ErrorKind> {
    if pp.timestamp is Some {
        Err(ErrorKind::Invalid("a timestamp cannot become a time of day"))
    } else {
        match resolved_hour(pp) {
            Err(k) => Err(k),
            Ok(None) => Err(ErrorKind::Invalid("missing hour")),
            Ok(Some(h)) => if h >= 24 {
                Err(ErrorKind::OutOfRange("hour"))
            } else {
                let mi = match pp.minute {
                    Some(v) => v as int,
                    None => 0,
                };
                let sec = match pp.second {
                    Some(v) => v as int,
                    None => 0,
                };
                let ns = match pp.nanos {
                    Some(v) => v as int,
                    None => 0,
                };
                match crate::time::hms_error(h, mi, sec, ns) {
                    Some(c) => Err(ErrorKind::OutOfRange(c)),
                    None => Ok(crate::time::hms_nanos(h, mi, sec, ns)),
                }
            },
        }
    }
}

/// The civil reading the parsed fields name (midnight when no clock field
/// was read).
pub open spec fn civil_outcome(pp: ParsedParts) -> Result<(int, int), ErrorKind> {
    match date_outcome(pp) {
        Err(k) => Err(k),
        Ok(z) => if has_any_time(pp) {
            match time_outcome(pp) {
                Err(k) => Err(k),
                Ok(t) => Ok((z, t)),
            }
        } else {
            Ok((z, 0))
        },
    }
}

/// The instant the parsed fields name: a `%s` timestamp, or the civil
/// reading shifted back by the parsed offset (which is then required).
pub open spec fn instant_outcome(pp: ParsedParts) -> Result<int, ErrorKind> {
    match pp.timestamp {
        Some(ts) => Ok(ts * 1_000_000_000),
        None => match civil_outcome(pp) {
            Err(k) => Err(k),
            Ok(c) => match pp.offset {
                None => Err(ErrorKind::Invalid("missing timezone offset")),
                Some(o) => crate::ticks::shift_outcome(
                    crate::ticks::civil_ns(c),
                    -(o * 1_000_000_000),
                ),
            },
        },
    }
}

/// Day counts of dates with `i32` years are far from the `i64` limits.
proof fn lemma_days_small(y: int, m: int, d: int)
    requires
        i32::MIN <= y <= i32::MAX,
        valid_ymd(y, m, d),
    ensures
        -1_000_000_000_000 <= days_from_ymd(y, m, d) <= 1_000_000_000_000,
{
}

/// The date of weekday `wd` in a week-of-year.
fn date_from_week(year: i32, week: u32, wd: Weekday, sun: bool) -> (r: Result<crate::date::Date, Error>)
    ensures
        match week_date_outcome(year as int, week as int, wd, sun) {
            Ok(z) => r is Ok && r->Ok_0@ == z,
            Err(k) => r is Err && r->Err_0.spec_kind() == k,
        },
{
    if week > 53 {
        return Err(Error::out_of_range("week"));
    }
    proof {
        lemma_days_small(year as int, 1, 1);
    }
    let jan1 = days_from_civil(year, 1, 1);
    let shift: i64 = if sun {
        1
    } else {
        0
    };
    let jan1_idx = (weekday_from_civil(jan1).as_u8() as i64 + shift) % 7;
    let first = jan1 + (7 - jan1_idx) % 7;
    let wd_idx = (wd.as_u8() as i64 + shift) % 7;
    let z = first + (week as i64 - 1) * 7 + wd_idx;
    let date = match crate::date::Date::from_days_checked(z) {
        Ok(d) => d,
        Err(e) => {
            return Err(e);
        },
    };
    if date.year() != year {
        return Err(Error::invalid("week date spills into another year"));
    }
    Ok(date)
}

impl ParsedParts {
    /// The calendar year from `%Y`, or `%C` with `%y`, or `%y` alone.
    fn combine_year(self) -> (r: Result<Option<i32>, Error>)
        requires
            pp_wf(self),
        ensures
            match combined_year(self) {
                Ok(o) => r is Ok && (o is None <==> r->Ok_0 is None) && (o is Some
                    ==> r->Ok_0->Some_0 == o->Some_0),
                Err(k) => r is Err && r->Err_0.spec_kind() == k,
            },
    {
        if let Some(y) = self.year {
            return Ok(Some(y));
        }
        match (self.century, self.year2) {
            (Some(c), Some(y2)) => Ok(Some(c * 100 + y2 as i32)),
            (None, Some(y2)) => Ok(
                Some(
                    if y2 >= 69 {
                        1900 + y2 as i32
                    } else {
                        2000 + y2 as i32
                    },
                ),
            ),
            (Some(_), None) => Err(Error::invalid("incomplete year (missing %y)")),
            (None, None) => Ok(None),
        }
    }

    /// The hour, converting a 12-hour clock with AM/PM when needed.
    fn resolve_hour(self) -> (r: Result<Option<u32>, Error>)
        requires
            pp_wf(self),
        ensures
            match resolved_hour(self) {
                Ok(o) => r is Ok && (o is None <==> r->Ok_0 is None) && (o is Some
                    ==> r->Ok_0->Some_0 == o->Some_0),
                Err(k) => r is Err && r->Err_0.spec_kind() == k,
            },
    {
        if let Some(h) = self.hour {
            return Ok(Some(h));
        }
        if let Some(h12) = self.hour12 {
            let pm = match self.ampm {
                Some(v) => v,
                None => {
                    return Err(Error::invalid("12-hour clock requires %p"));
                },
            };
            let h = if pm {
                if h12 == 12 {
                    12
                } else {
                    h12 + 12
                }
            } else if h12 == 12 {
                0
            } else {
                h12
            };
            return Ok(Some(h));
        }
        Ok(None)
    }

    /// Whether any clock field was read.
    fn any_time(self) -> (b: bool)
        ensures
            b == has_any_time(self),
    {
        self.hour.is_some() || self.hour12.is_some() || self.minute.is_some() || self.second.is_some()
            || self.nanos.is_some() || self.ampm.is_some()
    }

    /// The ISO year from `%G` or the two-digit `%g`.
    fn iso_year(self) -> (r: Option<i32>)
        requires
            pp_wf(self),
        ensures
            match parsed_iso_year(self) {
                Some(y) => r == Some(y as i32) && y == r->Some_0,
                None => r is None,
            },
    {
        if let Some(y) = self.isoyear {
            return Some(y);
        }
        match self.iso_year2 {
            Some(y2) => Some(
                if y2 >= 69 {
                    1900 + y2 as i32
                } else {
                    2000 + y2 as i32
                },
            ),
            None => None,
        }
    }

    /// Resolve to a calendar date (ISO-week, week-based, ordinal or
    /// calendar).
    pub fn to_date(self) -> (r: Result<crate::date::Date, Error>)
        requires
            pp_wf(self),
        ensures
            match date_outcome(self) {
                Ok(z) => r is Ok && r->Ok_0@ == z,
                Err(k) => r is Err && r->Err_0.spec_kind() == k,
            },
    {
        if self.timestamp.is_some() {
            return Err(Error::invalid("a timestamp cannot become a calendar date"));
        }
        if let Some(iw) = self.isoweek {
            let iy = match self.iso_year() {
                Some(y) => y,
                None => {
                    return Err(Error::invalid("ISO week date requires an ISO year (%G)"));
                },
            };
            let wd = match self.weekday {
                Some(w) => w,
                None => {
                    return Err(Error::invalid("ISO week date requires a weekday (%u)"));
                },
            };
            let date = match crate::date::Date::from_isoywd(iy, iw, wd) {
                Ok(d) => d,
                Err(e) => {
                    return Err(e);
                },
            };
            let (yy, ww) = date.iso_week().parts();
            if yy != iy || ww != iw {
                return Err(Error::invalid("ISO week date out of range"));
            }
            return Ok(date);
        }
        if self.week_sun.is_some() || self.week_mon.is_some() {
            let week = match self.week_sun {
                Some(w) => w,
                None => match self.week_mon {
                    Some(w) => w,
                    None => 0,
                },
            };
            let year = match self.combine_year() {
                Ok(Some(y)) => y,
                Ok(None) => {
                    return Err(Error::invalid("week date requires a year"));
                },
                Err(e) => {
                    return Err(e);
                },
            };
            let wd = match self.weekday {
                Some(w) => w,
                None => {
                    return Err(Error::invalid("week date requires a weekday"));
                },
            };
            return date_from_week(year, week, wd, self.week_sun.is_some());
        }
        let year = match self.combine_year() {
            Ok(Some(y)) => y,
            Ok(None) => {
                return Err(Error::invalid("missing year"));
            },
            Err(e) => {
                return Err(e);
            },
        };
        let date = if let Some(ord) = self.ordinal {
            match crate::date::Date::from_yo(year, ord) {
                Ok(d) => d,
                Err(e) => {
                    return Err(e);
                },
            }
        } else if self.month.is_some() && self.day.is_some() {
            let m = match self.month {
                Some(v) => v,
                None => 0,
            };
            let d = match self.day {
                Some(v) => v,
                None => 0,
            };
            match crate::date::Date::from_ymd(year, m, d) {
                Ok(d) => d,
                Err(e) => {
                    return Err(e);
                },
            }
        } else {
            return Err(Error::invalid("incomplete date"));
        };
        if let Some(wd) = self.weekday {
            if date.weekday() != wd {
                return Err(Error::invalid("weekday does not match the date"));
            }
        }
        Ok(date)
    }
}

impl ParsedParts {
    /// Resolve to a time of day (missing sub-fields default to zero).
    pub fn to_time(self) -> (r: Result<crate::time::TimeOfDay, Error>)
        requires
            pp_wf(self),
        ensures
            match time_outcome(self) {
                Ok(t) => r is Ok && r->Ok_0@ == t,
                Err(k) => r is Err && r->Err_0.spec_kind() == k,
            },
    {
        if self.timestamp.is_some() {
            return Err(Error::invalid("a timestamp cannot become a time of day"));
        }
        let hour = match self.resolve_hour() {
            Ok(Some(h)) => h,
            Ok(None) => {
                return Err(Error::invalid("missing hour"));
            },
            Err(e) => {
                return Err(e);
            },
        };
        if hour >= 24 {
            return Err(Error::out_of_range("hour"));
        }
        let minute = match self.minute {
            Some(v) => v,
            None => 0,
        };
        let second = match self.second {
            Some(v) => v,
            None => 0,
        };
        let nanos = match self.nanos {
            Some(v) => v,
            None => 0,
        };
        crate::time::TimeOfDay::from_hms_nano(hour, minute, second, nanos)
    }

    /// Resolve to a civil date-time (time defaults to midnight).
    pub fn to_civil(self) -> (r: Result<CivilDateTime, Error>)
        requires
            pp_wf(self),
        ensures
            crate::datetime::civil_matches(r, civil_outcome(self)),
    {
        let date = match self.to_date() {
            Ok(d) => d,
            Err(e) => {
                return Err(e);
            },
        };
        let time = if self.any_time() {
            match self.to_time() {
                Ok(t) => t,
                Err(e) => {
                    return Err(e);
                },
            }
        } else {
            crate::time::TimeOfDay::midnight()
        };
        Ok(CivilDateTime::new(date, time))
    }

    /// Resolve to UTC ticks; the civil path requires a timezone offset.
    pub fn to_ticks(self) -> (r: Result<crate::ticks::Ticks, Error>)
        requires
            pp_wf(self),
        ensures
            crate::ticks::ticks_matches(r, instant_outcome(self)),
    {
        if let Some(ts) = self.timestamp {
            return crate::ticks::Ticks::from_timestamp(ts, 0);
        }
        let civil = match self.to_civil() {
            Ok(c) => c,
            Err(e) => {
                return Err(e);
            },
        };
        let offset = match self.offset {
            Some(o) => o,
            None => {
                return Err(Error::invalid("missing timezone offset"));
            },
        };
        let utc = match civil.to_ticks_utc() {
            Ok(t) => t,
            Err(e) => {
                return Err(e);
            },
        };
        utc.checked_sub(crate::duration::Duration::from_seconds(offset as i64))
    }
}

/// The outcome of parsing `s` against `fmt` and resolving the fields with
/// `resolve`.
pub open spec fn parsed_then<T>(
    fmt: Seq<u8>,
    s: Seq<u8>,
    resolve: spec_fn(ParsedParts) -> Result<T, ErrorKind>,
) -> Result<T, Fail> {
    match parse_outcome(fmt, s) {
        Err(e) => Err(e),
        Ok(pp) => match resolve(pp) {
            Ok(v) => Ok(v),
            Err(k) => Err(kfail(k)),
        },
    }
}

/// A zoned instant from parsed fields: the parsed offset (UTC when absent)
/// becomes the zone; a `%s` timestamp is taken as is, a civil reading is
/// anchored in the zone.
pub open spec fn zoned_outcome(pp: ParsedParts) -> Result<(int, int), ErrorKind> {
    let off: int = match pp.offset {
        Some(o) => o as int,
        None => 0,
    };
    match pp.timestamp {
        Some(ts) => Ok((ts * 1_000_000_000, off)),
        None => match civil_outcome(pp) {
            Err(k) => Err(k),
            Ok(c) => match crate::zoned::anchor_outcome(c, off) {
                Err(k) => Err(k),
                Ok(t) => Ok((t, off)),
            },
        },
    }
}

// ---------------------------------------------------------------------------
// RFC 2822 (email and HTTP header dates)
// ---------------------------------------------------------------------------

/// The date half of an RFC 2822 rendering of day `z`: `Tue,  1 Jul 2003 `.
pub open spec fn rfc2822_date_text(z: int) -> Seq<u8> {
    let ymd = ymd_of_days(z);
    weekday_short_name(weekday_of_days(z)).spec_bytes() + seq![44u8, 32u8] + pad_text(
        ymd.2 as nat,
        2,
        32u8,
    ) + seq![32u8] + month_short_name(month_at(ymd.1)).spec_bytes() + seq![32u8] + signed_pad_text(
        ymd.0,
        4,
        48u8,
    ) + seq![32u8]
}

/// The clock half of an RFC 2822 rendering of the time of day `t` in an
/// offset of `secs`: `10:52:37 +0200`.
pub open spec fn rfc2822_clock_text(t: int, secs: int) -> Seq<u8> {
    dec_padded((t / 3_600_000_000_000) as nat, 2) + seq![58u8] + dec_padded(
        ((t / 60_000_000_000) % 60) as nat,
        2,
    ) + seq![58u8] + dec_padded(((t / 1_000_000_000) % 60) as nat, 2) + seq![32u8]
        + strf_offset_text(secs, false)
}

/// The RFC 2822 rendering of the civil reading `v` in an offset of `secs`:
/// `Tue,  1 Jul 2003 10:52:37 +0200`.
pub open spec fn rfc2822_text(v: (int, int), secs: int) -> Seq<u8> {
    rfc2822_date_text(v.0) + rfc2822_clock_text(v.1, secs)
}

/// Append the date half of an RFC 2822 rendering.
fn push_rfc2822_date(out: &mut Vec<u8>, dt: CivilDateTime)
    ensures
        final(out)@ == old(out)@ + rfc2822_date_text(dt@.0),
{
    let ghost start = out@;
    let m = dt.month_enum();
    proof {
        crate::calendar::lemma_month_at_num(m);
    }
    crate::text::push_str(out, dt.weekday().short_name());
    out.push(44u8);
    out.push(32u8);
    pad_num(out, dt.day() as u64, 2, 32u8);
    out.push(32u8);
    crate::text::push_str(out, m.short_name());
    out.push(32u8);
    emit_signed(out, dt.year() as i64, 4, 48u8);
    out.push(32u8);
    proof {
        assert(out@ =~= start + rfc2822_date_text(dt@.0));
    }
}

/// Append the clock half of an RFC 2822 rendering.
#[verifier::spinoff_prover]
fn push_rfc2822_clock(out: &mut Vec<u8>, dt: CivilDateTime, p: &Parts, secs: i32)
    requires
        valid_offset_secs(secs as int),
        p.hour == dt@.1 / 3_600_000_000_000,
        p.minute == (dt@.1 / 60_000_000_000) % 60,
        p.second == (dt@.1 / 1_000_000_000) % 60,
    ensures
        final(out)@ == old(out)@ + rfc2822_clock_text(dt@.1, secs as int),
{
    let ghost start = out@;
    push_padded(out, p.hour as u128, 2, 48u8);
    out.push(58u8);
    push_padded(out, p.minute as u128, 2, 48u8);
    out.push(58u8);
    push_padded(out, p.second as u128, 2, 48u8);
    out.push(32u8);
    push_offset(out, secs, false);
    proof {
        assert(out@ =~= start + rfc2822_clock_text(dt@.1, secs as int));
    }
}

/// RFC 2822 rendering of a civil reading in an offset of `secs`.
pub fn format_rfc2822(dt: CivilDateTime, secs: i32) -> (b: Vec<u8>)
    requires
        valid_offset_secs(secs as int),
    ensures
        b@ == rfc2822_text(dt@, secs as int),
{
    let p = parts_from_civil(dt, None, None, None);
    let mut out: Vec<u8> = Vec::new();
    push_rfc2822_date(&mut out, dt);
    push_rfc2822_clock(&mut out, dt, &p, secs);
    proof {
        assert(out@ =~= rfc2822_text(dt@, secs as int));
    }
    out
}

/// The RFC 2822 named zones (section 4.3) as offset seconds.
pub open spec fn named_zone(w: Seq<u8>) -> Option<int> {
    if w == "UT".spec_bytes() || w == "GMT".spec_bytes() || w == "UTC".spec_bytes() || w
        == "Z".spec_bytes() {
        Some(0)
    } else if w == "EST".spec_bytes() {
        Some(-5 * 3600)
    } else if w == "EDT".spec_bytes() {
        Some(-4 * 3600)
    } else if w == "CST".spec_bytes() {
        Some(-6 * 3600)
    } else if w == "CDT".spec_bytes() {
        Some(-5 * 3600)
    } else if w == "MST".spec_bytes() {
        Some(-7 * 3600)
    } else if w == "MDT".spec_bytes() {
        Some(-6 * 3600)
    } else if w == "PST".spec_bytes() {
        Some(-8 * 3600)
    } else if w == "PDT".spec_bytes() {
        Some(-7 * 3600)
    } else {
        None
    }
}

/// The year of an RFC 2822 date: two digits or fewer are the obsolete form
/// (`00..=49` are 20xx, `50..=99` are 19xx).
pub open spec fn rfc2822_year(v: int, digits: int) -> int {
    if digits <= 2 {
        if v >= 50 {
            1900 + v
        } else {
            2000 + v
        }
    } else {
        v
    }
}

/// The zone of an RFC 2822 date at `pos`: a numeric offset, `Z`, or a named
/// zone.
pub open spec fn scan_rfc2822_zone(b: Seq<u8>, pos: int) -> Result<(int, int), Fail> {
    if byte_at(b, pos) == Some(43u8) || byte_at(b, pos) == Some(45u8) {
        match crate::format::scan_offset(b, pos) {
            Err(f) => Err(f),
            Ok(v) => Ok((v.0 as int, v.1)),
        }
    } else if byte_at(b, pos) == Some(90u8) || byte_at(b, pos) == Some(122u8) {
        Ok((0, pos + 1))
    } else {
        let end = word_end(b, pos, false);
        match named_zone(b.subrange(pos, end)) {
            Some(secs) => Ok((secs, end)),
            None => Err(kfail(ErrorKind::Invalid("unknown RFC 2822 timezone"))),
        }
    }
}

/// The clock of an RFC 2822 date at `pos`: `HH:MM[:SS]`.
pub open spec fn scan_rfc2822_clock(b: Seq<u8>, pos: int) -> Result<((int, int, int), int), Fail> {
    match scan_int(b, pos, 2, 48u8) {
        Err(f) => Err(f),
        Ok(h) => if byte_at(b, h.1) != Some(58u8) {
            Err(pfail("expected ':' after hour", h.1))
        } else {
            match scan_int(b, h.1 + 1, 2, 48u8) {
                Err(f) => Err(f),
                Ok(mi) => {
                    let sec = if byte_at(b, mi.1) == Some(58u8) {
                        scan_int(b, mi.1 + 1, 2, 48u8)
                    } else {
                        Ok((0, mi.1))
                    };
                    match sec {
                        Err(f) => Err(f),
                        Ok(sv) => Ok(((h.0, mi.0, sv.0), sv.1)),
                    }
                },
            }
        },
    }
}

/// An RFC 2822 date-time as `(days, nanoseconds of day, offset seconds)`:
/// an optional weekday (checked against the date), day, month name, year,
/// clock and zone, separated by spaces.
pub open spec fn rfc2822_outcome(b: Seq<u8>) -> Result<(int, int, int), Fail> {
    let lw = if 0 < b.len() && crate::text::is_alpha(b[0]) {
        scan_weekday_name(b, 0)
    } else {
        Ok((None, 0))
    };
    match lw {
        Err(f) => Err(f),
        Ok(w) => {
            let p2 = if byte_at(b, w.1) == Some(44u8) {
                w.1 + 1
            } else {
                w.1
            };
            match scan_int(b, skip_blanks(b, p2, 0), 2, 32u8) {
                Err(f) => Err(f),
                Ok(dv) => match scan_month_name(b, skip_blanks(b, dv.1, 0)) {
                    Err(f) => Err(f),
                    Ok(mv) => match mv.0 {
                        None => Err(kfail(ErrorKind::Invalid("expected month name"))),
                        Some(month) => {
                            let p5 = skip_blanks(b, mv.1, 0);
                            match scan_int(b, p5, 4, 48u8) {
                                Err(f) => Err(f),
                                Ok(yv) => {
                                    let year = rfc2822_year(yv.0, yv.1 - p5);
                                    match scan_rfc2822_clock(b, skip_blanks(b, yv.1, 0)) {
                                        Err(f) => Err(f),
                                        Ok(cv) => match crate::time::hms_error(cv.0.0, cv.0.1, cv.0.2, 0) {
                                            Some(c) => Err(kfail(ErrorKind::OutOfRange(c))),
                                            None => match crate::date::ymd_outcome(year, month, dv.0) {
                                                Err(c) => Err(kfail(ErrorKind::OutOfRange(c))),
                                                Ok(z) => if w.0 is Some && weekday_of_days(z) != w.0->Some_0 {
                                                    Err(kfail(ErrorKind::Invalid("weekday does not match the date")))
                                                } else {
                                                    let p8 = skip_blanks(b, cv.1, 0);
                                                    if p8 >= b.len() {
                                                        Err(kfail(ErrorKind::Invalid("missing timezone in RFC 2822 date")))
                                                    } else {
                                                        match scan_rfc2822_zone(b, p8) {
                                                            Err(f) => Err(f),
                                                            Ok(zv) => if zv.1 < b.len() {
                                                                Err(pfail("trailing characters in input", zv.1))
                                                            } else {
                                                                Ok((z, crate::time::hms_nanos(cv.0.0, cv.0.1, cv.0.2, 0), zv.0))
                                                            },
                                                        }
                                                    }
                                                },
                                            },
                                        },
                                    }
                                },
                            }
                        },
                    },
                },
            }
        },
    }
}

/// An RFC 2822 named zone as offset seconds.
fn named_zone_exec(w: &[u8]) -> (r: Option<i32>)
    ensures
        match named_zone(w@) {
            Some(v) => r == Some(v as i32),
            None => r is None,
        },
{
    if crate::text::bytes_eq(w, "UT".as_bytes()) || crate::text::bytes_eq(w, "GMT".as_bytes())
        || crate::text::bytes_eq(w, "UTC".as_bytes()) || crate::text::bytes_eq(w, "Z".as_bytes()) {
        Some(0)
    } else if crate::text::bytes_eq(w, "EST".as_bytes()) {
        Some(-5 * 3600)
    } else if crate::text::bytes_eq(w, "EDT".as_bytes()) {
        Some(-4 * 3600)
    } else if crate::text::bytes_eq(w, "CST".as_bytes()) {
        Some(-6 * 3600)
    } else if crate::text::bytes_eq(w, "CDT".as_bytes()) {
        Some(-5 * 3600)
    } else if crate::text::bytes_eq(w, "MST".as_bytes()) {
        Some(-7 * 3600)
    } else if crate::text::bytes_eq(w, "MDT".as_bytes()) {
        Some(-6 * 3600)
    } else if crate::text::bytes_eq(w, "PST".as_bytes()) {
        Some(-8 * 3600)
    } else if crate::text::bytes_eq(w, "PDT".as_bytes()) {
        Some(-7 * 3600)
    } else {
        None
    }
}

/// The zone of an RFC 2822 date.
fn scan_rfc2822_zone_exec(b: &[u8], pos: usize) -> (r: Result<(crate::offset::Offset, usize), Error>)
    requires
        pos <= b@.len(),
    ensures
        match scan_rfc2822_zone(b@, pos as int) {
            Ok(v) => r is Ok && r->Ok_0.0@ == v.0 && r->Ok_0.1 == v.1,
            Err(f) => fails(r, f),
        },
        r is Ok ==> r->Ok_0.1 <= b@.len(),
{
    if crate::scan::at_byte(b, pos, 43u8) || crate::scan::at_byte(b, pos, 45u8) {
        return crate::format::scan_offset_exec(b, pos);
    }
    if crate::scan::at_byte(b, pos, 90u8) || crate::scan::at_byte(b, pos, 122u8) {
        return Ok((crate::offset::Offset::utc(), pos + 1));
    }
    let end = word_end_exec(b, pos, false);
    match named_zone_exec(vstd::slice::slice_subrange(b, pos, end)) {
        Some(secs) => match crate::offset::Offset::from_seconds(secs) {
            Ok(o) => Ok((o, end)),
            Err(e) => Err(e),
        },
        None => Err(Error::invalid("unknown RFC 2822 timezone")),
    }
}

/// The clock of an RFC 2822 date.
fn scan_rfc2822_clock_exec(b: &[u8], pos: usize) -> (r: Result<((u32, u32, u32), usize), Error>)
    requires
        pos <= b@.len(),
    ensures
        match scan_rfc2822_clock(b@, pos as int) {
            Ok(v) => r is Ok && r->Ok_0.0.0 == v.0.0 && r->Ok_0.0.1 == v.0.1 && r->Ok_0.0.2 == v.0.2
                && r->Ok_0.1 == v.1,
            Err(f) => fails(r, f),
        },
        r is Ok ==> r->Ok_0.1 <= b@.len(),
{
    proof {
        lemma_pow10_table();
    }
    let (h, p1) = match scan_int_exec(b, pos, 2, 48u8) {
        Ok(v) => v,
        Err(e) => {
            return Err(e);
        },
    };
    if !crate::scan::at_byte(b, p1, 58u8) {
        return Err(Error::parse("expected ':' after hour", p1));
    }
    let (mi, p2) = match scan_int_exec(b, p1 + 1, 2, 48u8) {
        Ok(v) => v,
        Err(e) => {
            return Err(e);
        },
    };
    let (sec, p3) = if crate::scan::at_byte(b, p2, 58u8) {
        match scan_int_exec(b, p2 + 1, 2, 48u8) {
            Ok(v) => v,
            Err(e) => {
                return Err(e);
            },
        }
    } else {
        (0u64, p2)
    };
    Ok(((h as u32, mi as u32, sec as u32), p3))
}

/// Parse an RFC 2822 date-time.
pub fn parse_rfc2822(s: &str) -> (r: Result<(crate::date::Date, crate::time::TimeOfDay, crate::offset::Offset), Error>)
    ensures
        match rfc2822_outcome(s.spec_bytes()) {
            Ok(v) => r is Ok && r->Ok_0.0@ == v.0 && r->Ok_0.1@ == v.1 && r->Ok_0.2@ == v.2,
            Err(f) => fails(r, f),
        },
{
    let b = s.as_bytes();
    let (leading, p1) = if b.len() > 0 && ((b[0] >= 65u8 && b[0] <= 90u8) || (b[0] >= 97u8 && b[0]
        <= 122u8)) {
        match scan_weekday_name_exec(b, 0) {
            Ok(v) => v,
            Err(e) => {
                return Err(e);
            },
        }
    } else {
        (None, 0)
    };
    let p2 = if crate::scan::at_byte(b, p1, 44u8) {
        p1 + 1
    } else {
        p1
    };
    proof {
        lemma_pow10_table();
    }
    let p3 = skip_blanks_exec(b, p2, 0);
    let (day, p4) = match scan_int_exec(b, p3, 2, 32u8) {
        Ok(v) => v,
        Err(e) => {
            return Err(e);
        },
    };
    let p5 = skip_blanks_exec(b, p4, 0);
    let (month, p6) = match scan_month_name_exec(b, p5) {
        Ok((Some(m), p)) => (m, p),
        Ok((None, _)) => {
            return Err(Error::invalid("expected month name"));
        },
        Err(e) => {
            return Err(e);
        },
    };
    let p7 = skip_blanks_exec(b, p6, 0);
    let (yv, p8) = match scan_int_exec(b, p7, 4, 48u8) {
        Ok(v) => v,
        Err(e) => {
            return Err(e);
        },
    };
    let year: i32 = if p8 - p7 <= 2 {
        if yv >= 50 {
            1900 + yv as i32
        } else {
            2000 + yv as i32
        }
    } else {
        yv as i32
    };
    let p9 = skip_blanks_exec(b, p8, 0);
    let ((h, mi, sec), p10) = match scan_rfc2822_clock_exec(b, p9) {
        Ok(v) => v,
        Err(e) => {
            return Err(e);
        },
    };
    let time = match crate::time::TimeOfDay::from_hms_nano(h, mi, sec, 0) {
        Ok(t) => t,
        Err(e) => {
            return Err(e);
        },
    };
    let date = match crate::date::Date::from_ymd(year, month, day as u32) {
        Ok(d) => d,
        Err(e) => {
            return Err(e);
        },
    };
    if let Some(wd) = leading {
        if date.weekday() != wd {
            return Err(Error::invalid("weekday does not match the date"));
        }
    }
    let p11 = skip_blanks_exec(b, p10, 0);
    if p11 >= b.len() {
        return Err(Error::invalid("missing timezone in RFC 2822 date"));
    }
    let (offset, p12) = match scan_rfc2822_zone_exec(b, p11) {
        Ok(v) => v,
        Err(e) => {
            return Err(e);
        },
    };
    if p12 < b.len() {
        return Err(Error::parse("trailing characters in input", p12));
    }
    Ok((date, time, offset))
}

} // verus!
