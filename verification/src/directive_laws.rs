//! What individual directives and duration components mean.
//!
//! These laws pin the meaning of a directive or a component in terms of its
//! inputs: the hour `%k` shows, the weekday a `%w` or `%u` number names when
//! read back, and the span a fractional duration component adds.

use vstd::prelude::*;

use crate::calendar::{weekday_num, weekday_of_days, Weekday};
use crate::error::ErrorKind;
use crate::format::add_component;
use crate::scan::{digit_run, digits_val, kfail, pow10, Fail};
use crate::strftime::{fmt_text, parts_days, simple_dir, simple_text, Parts, ParsedParts};
use crate::text::{dec_digits, left_pad};

verus! {

/// `%k` shows the hour of the 24-hour clock, as decimal digits padded on
/// the left with spaces to two places; it is `%_H`.
pub proof fn law_k_is_space_padded_24_hour(p: Parts)
    ensures
        fmt_text(seq![37u8, 107u8], 0, p) == Ok::<Seq<u8>, ErrorKind>(
            left_pad(dec_digits(p.hour as nat), 2, 32u8),
        ),
        fmt_text(seq![37u8, 107u8], 0, p) == fmt_text(seq![37u8, 95u8, 72u8], 0, p),
{
    reveal(simple_text);
    let k = seq![37u8, 107u8];
    let h = seq![37u8, 95u8, 72u8];
    assert(digit_run(k, 1, k.len() - 1) == 0);
    assert(digits_val(k, 1, 0) == 0);
    assert(digit_run(h, 2, h.len() - 2) == 0);
    assert(digits_val(h, 2, 0) == 0);
    let t = left_pad(dec_digits(p.hour as nat), 2, 32u8);
    assert(fmt_text(k, 2, p) == Ok::<Seq<u8>, ErrorKind>(Seq::empty()));
    assert(fmt_text(h, 3, p) == Ok::<Seq<u8>, ErrorKind>(Seq::empty()));
    assert(t + Seq::<u8>::empty() =~= t);
}

/// On a civil reading, `%k` shows the whole hours of its time of day.
pub proof fn law_k_shows_the_reading_hour(
    v: (int, int),
    offset: Option<i32>,
    zone_name: Option<&'static str>,
    timestamp: Option<i64>,
)
    requires
        0 <= v.1 < 86_400_000_000_000,
    ensures
        fmt_text(
            seq![37u8, 107u8],
            0,
            crate::strftime::civil_parts(v, offset, zone_name, timestamp),
        ) == Ok::<Seq<u8>, ErrorKind>(
            left_pad(dec_digits((v.1 / 3_600_000_000_000) as nat), 2, 32u8),
        ),
{
    law_k_is_space_padded_24_hour(crate::strftime::civil_parts(v, offset, zone_name, timestamp));
}

/// The Sunday-based number (`%w`: Sunday 0, Monday 1, ..., Saturday 6).
pub open spec fn sunday_number(w: Weekday) -> int {
    (weekday_num(w) + 1) % 7
}

/// What `%w` and `%u` write: one digit.
proof fn lemma_weekday_digits(p: Parts)
    ensures
        ({
            let wd = weekday_of_days(parts_days(p));
            &&& fmt_text(seq![37u8, 119u8], 0, p) == Ok::<Seq<u8>, ErrorKind>(
                seq![(48 + sunday_number(wd)) as u8],
            )
            &&& fmt_text(seq![37u8, 117u8], 0, p) == Ok::<Seq<u8>, ErrorKind>(
                seq![(49 + weekday_num(wd)) as u8],
            )
        }),
{
    reveal(simple_text);
    let wd = weekday_of_days(parts_days(p));
    let w = seq![37u8, 119u8];
    let u = seq![37u8, 117u8];
    assert(digit_run(w, 1, w.len() - 1) == 0);
    assert(digits_val(w, 1, 0) == 0);
    assert(digit_run(u, 1, u.len() - 1) == 0);
    assert(digits_val(u, 1, 0) == 0);
    assert(fmt_text(w, 2, p) == Ok::<Seq<u8>, ErrorKind>(Seq::empty()));
    assert(fmt_text(u, 2, p) == Ok::<Seq<u8>, ErrorKind>(Seq::empty()));
    let ns = sunday_number(wd);
    let ni = weekday_num(wd) + 1;
    assert(0 <= ns <= 6 && 1 <= ni <= 7);
    let tw = seq![(48 + ns) as u8];
    let tu = seq![(48 + ni) as u8];
    assert(dec_digits(ns as nat) == tw);
    assert(dec_digits(ni as nat) == tu);
    assert(left_pad(tw, 1, 48u8) == tw);
    assert(left_pad(tu, 1, 48u8) == tu);
    assert(tw + Seq::<u8>::empty() =~= tw);
    assert(tu + Seq::<u8>::empty() =~= tu);
}

/// What `%w` and `%u` read from one digit `48 + m`.
proof fn lemma_read_weekday_digit(m: int, pp: ParsedParts)
    requires
        0 <= m <= 9,
    ensures
        ({
            let t = seq![(48 + m) as u8];
            &&& simple_dir(t, 0, pp, 119u8, 48u8) == (if m <= 6 {
                Ok::<(ParsedParts, int), Fail>(
                    (ParsedParts { weekday: crate::strftime::weekday_from_sunday(m), ..pp }, 1),
                )
            } else {
                Err::<(ParsedParts, int), Fail>(kfail(ErrorKind::Invalid("invalid weekday")))
            })
            &&& (1 <= m <= 7 ==> simple_dir(t, 0, pp, 117u8, 48u8) == Ok::<
                (ParsedParts, int),
                Fail,
            >((ParsedParts { weekday: Some(crate::calendar::weekday_at(m - 1)), ..pp }, 1)))
        }),
{
    reveal(simple_dir);
    let t = seq![(48 + m) as u8];
    assert(digit_run(t, 1, 0) == 0);
    assert(digit_run(t, 0, 1) == 1);
    assert(digits_val(t, 0, 0) == 0);
    assert(digits_val(t, 0, 1) == m);
}

/// The digit `%w` writes for a reading, read back with `%w`, names the
/// reading's own weekday (Sunday 0, Monday 1, ..., Saturday 6); the same
/// holds of `%u` (Monday 1 ... Sunday 7).
pub proof fn law_weekday_numbers_read_back(p: Parts, pp: ParsedParts)
    ensures
        ({
            let wd = weekday_of_days(parts_days(p));
            let tw = fmt_text(seq![37u8, 119u8], 0, p);
            let tu = fmt_text(seq![37u8, 117u8], 0, p);
            &&& tw == Ok::<Seq<u8>, ErrorKind>(seq![(48 + sunday_number(wd)) as u8])
            &&& tu == Ok::<Seq<u8>, ErrorKind>(seq![(49 + weekday_num(wd)) as u8])
            &&& simple_dir(tw->Ok_0, 0, pp, 119u8, 48u8) == Ok::<(ParsedParts, int), Fail>(
                (ParsedParts { weekday: Some(wd), ..pp }, 1),
            )
            &&& simple_dir(tu->Ok_0, 0, pp, 117u8, 48u8) == Ok::<(ParsedParts, int), Fail>(
                (ParsedParts { weekday: Some(wd), ..pp }, 1),
            )
            &&& (wd == Weekday::Sunday ==> tw == Ok::<Seq<u8>, ErrorKind>(seq![48u8])
                && tu == Ok::<Seq<u8>, ErrorKind>(seq![55u8]))
            &&& (wd == Weekday::Monday ==> tw == Ok::<Seq<u8>, ErrorKind>(seq![49u8])
                && tu == Ok::<Seq<u8>, ErrorKind>(seq![49u8]))
        }),
{
    let wd = weekday_of_days(parts_days(p));
    lemma_weekday_digits(p);
    let ns = sunday_number(wd);
    let ni = weekday_num(wd) + 1;
    lemma_read_weekday_digit(ns, pp);
    lemma_read_weekday_digit(ni, pp);
    assert(seq![(49 + weekday_num(wd)) as u8] == seq![(48 + ni) as u8]);
    match wd {
        Weekday::Monday => {},
        Weekday::Tuesday => {},
        Weekday::Wednesday => {},
        Weekday::Thursday => {},
        Weekday::Friday => {},
        Weekday::Saturday => {},
        Weekday::Sunday => {},
    }
}

/// A duration component counts as the decimal number written before its
/// unit letter: `n.f` (with `k` fraction digits) of a unit of `unit`
/// nanoseconds adds `(n + f / 10^k) * unit` nanoseconds, rounded down, so
/// the fraction scales with the same unit as the whole part (`PT1.5H`,
/// `PT90M` and `PT5400S` are one span). The sum fails as an overflow
/// exactly when it passes `limit`.
pub proof fn law_component_is_its_decimal_value(
    total: int,
    n: int,
    f: int,
    k: int,
    unit: int,
    limit: int,
)
    requires
        0 <= total,
        0 <= n,
        0 <= k <= 9,
        0 <= f < pow10(k),
        0 < unit,
    ensures
        ({
            let v = total + ((n * pow10(k) + f) * unit) / (pow10(k) as int);
            add_component(total, (n, f, k), unit, limit) == if v > limit {
                Err::<int, Fail>(kfail(ErrorKind::Overflow))
            } else {
                Ok::<int, Fail>(v)
            }
        }),
{
    let d = pow10(k) as int;
    crate::scan::lemma_pow10_mono(0, k);
    assert(pow10(0) == 1) by {
        reveal_with_fuel(pow10, 1);
    }
    let x = f * unit;
    let j = n * unit;
    assert((n * d + f) * unit == x + j * d) by (nonlinear_arith)
        requires
            x == f * unit,
            j == n * unit,
    ;
    assert(x >= 0 && j >= 0) by (nonlinear_arith)
        requires
            x == f * unit,
            j == n * unit,
            f >= 0,
            n >= 0,
            unit > 0,
    ;
    vstd::arithmetic::div_mod::lemma_hoist_over_denominator(x, j, d as nat);
    vstd::arithmetic::div_mod::lemma_div_pos_is_pos(x, d);
    assert(((n * d + f) * unit) / d == j + x / d);
    if k == 0 {
        assert(f == 0);
        assert(x == 0);
        assert(x / d == 0);
    }
}

} // verus!
