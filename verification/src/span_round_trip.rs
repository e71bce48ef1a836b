//! ISO 8601 durations round trip: what `Duration::to_iso8601` writes,
//! `Duration::from_iso8601` reads back as the same span.

use vstd::prelude::*;

use crate::calendar::{NS_PER_DAY, NS_PER_HOUR, NS_PER_MIN, NS_PER_SEC};
use crate::format::{
    add_component, dur_post, dur_pre, duration_iso_outcome, duration_text, duration_time_text,
    fraction_text, lemma_pow10_sum, scan_dnum, scan_fraction, span_limit, trim_zeros, unit_text,
    FractionDigits,
};
use crate::round_trip::{
    lemma_block_at, lemma_dec_digits_len, lemma_dec_digits_val, lemma_scan_block,
    lemma_scan_fraction_text,
};
use crate::scan::{byte_at, digit_run, digits_val, pow10, scan_digits};
use crate::text::{dec_digits, dec_padded, is_digit, lemma_dec_digits};

verus! {

/// A whole number `v` written at `pos` and followed by a byte that is
/// neither a digit nor `.` is read as `(v, 0, 0)`.
proof fn lemma_scan_dnum_int(b: Seq<u8>, pos: int, v: nat)
    requires
        0 <= pos,
        pos + dec_digits(v).len() < b.len(),
        b.subrange(pos, pos + dec_digits(v).len()) == dec_digits(v),
        !is_digit(b[pos + dec_digits(v).len()]),
        b[pos + dec_digits(v).len()] != 46u8,
    ensures
        scan_dnum(b, pos) == Ok::<((int, int, int), int), crate::scan::Fail>(
            ((v as int, 0, 0), pos + dec_digits(v).len()),
        ),
{
    let s = dec_digits(v);
    lemma_dec_digits(v);
    lemma_dec_digits_val(v);
    lemma_scan_block(b, pos, s, 1, b.len() - pos);
    assert(digit_run(b, pos, b.len() - pos) == s.len());
}

/// The seconds part of a duration's time section: whole seconds, the
/// trimmed fraction when there is one, and `S`.
pub open spec fn seconds_text(s: int, sub: int) -> Seq<u8> {
    if s > 0 || sub > 0 {
        dec_digits(s as nat) + (if sub > 0 {
            seq![46u8] + trim_zeros(dec_padded(sub as nat, 9))
        } else {
            Seq::empty()
        }) + seq![83u8]
    } else {
        Seq::empty()
    }
}

/// `X` is what `b` holds from `pos` to its end.
pub open spec fn tail_is(b: Seq<u8>, pos: int, x: Seq<u8>) -> bool {
    &&& 0 <= pos <= b.len()
    &&& b.len() == pos + x.len()
    &&& b.subrange(pos, b.len() as int) == x
}

/// What `b` holds from `pos` to its end, read byte by byte.
proof fn lemma_tail_byte(b: Seq<u8>, pos: int, x: Seq<u8>, k: int)
    requires
        tail_is(b, pos, x),
        0 <= k < x.len(),
    ensures
        b[pos + k] == x[k],
{
    assert(b[pos + k] == b.subrange(pos, b.len() as int)[k]);
}

/// A tail can be cut after its first `k` bytes.
proof fn lemma_tail_skip(b: Seq<u8>, pos: int, x: Seq<u8>, k: int)
    requires
        tail_is(b, pos, x),
        0 <= k <= x.len(),
    ensures
        tail_is(b, pos + k, x.subrange(k, x.len() as int)),
        b.subrange(pos, pos + k) == x.subrange(0, k),
{
    assert(b.subrange(pos + k, b.len() as int) =~= x.subrange(k, x.len() as int)) by {
        assert forall|j: int| 0 <= j < x.len() - k implies #[trigger] b.subrange(
            pos + k,
            b.len() as int,
        )[j] == x.subrange(k, x.len() as int)[j] by {
            lemma_tail_byte(b, pos, x, k + j);
        }
    }
    assert(b.subrange(pos, pos + k) =~= x.subrange(0, k)) by {
        assert forall|j: int| 0 <= j < k implies #[trigger] b.subrange(pos, pos + k)[j] == x.subrange(
            0,
            k,
        )[j] by {
            lemma_tail_byte(b, pos, x, j);
        }
    }
}

/// The seconds part ends the input: read as one component.
#[verifier::spinoff_prover]
proof fn lemma_post_seconds(b: Seq<u8>, pos: int, total: int, s: int, sub: int, limit: int)
    requires
        0 <= s < 60,
        0 <= sub < 1_000_000_000,
        tail_is(b, pos, seconds_text(s, sub)),
        0 <= total,
        total + s * 1_000_000_000 + sub <= limit,
    ensures
        dur_post(b, pos, total, limit) == Ok::<(int, int, int), crate::scan::Fail>(
            (
                total + s * 1_000_000_000 + sub,
                b.len() as int,
                if s > 0 || sub > 0 { 1int } else { 0int },
            ),
        ),
{
    let x = seconds_text(s, sub);
    let t = total + s * 1_000_000_000 + sub;
    assert(dur_post(b, b.len() as int, t, limit) == Ok::<(int, int, int), crate::scan::Fail>(
        (t, b.len() as int, 0),
    ));
    if s > 0 || sub > 0 {
        let ds = dec_digits(s as nat);
        lemma_dec_digits(s as nat);
        assert(ds.len() <= 2) by {
            assert(pow10(2) == 100) by {
                reveal_with_fuel(pow10, 3);
            }
            lemma_dec_digits_len(s as nat, 2);
        }
        let p1 = pos + ds.len();
        lemma_tail_skip(b, pos, x, ds.len() as int);
        assert(x.subrange(0, ds.len() as int) =~= ds);
        if sub > 0 {
            let fr = seq![46u8] + trim_zeros(dec_padded(sub as nat, 9));
            assert(fr == fraction_text(sub, FractionDigits::Auto));
            assert(x == ds + fr + seq![83u8]);
            lemma_tail_skip(b, pos, x, (ds.len() + fr.len()) as int);
            assert(x.subrange(ds.len() as int, (ds.len() + fr.len()) as int) =~= fr);
            assert(b.subrange(p1, p1 + fr.len()) =~= fr) by {
                assert forall|j: int| 0 <= j < fr.len() implies b[p1 + j] == fr[j] by {
                    lemma_tail_byte(b, pos, x, ds.len() + j);
                }
            }
            lemma_tail_byte(b, pos, x, (ds.len() + fr.len()) as int);
            lemma_scan_fraction_text(b, p1, sub, FractionDigits::Auto);
            assert(b[p1] == 46u8) by {
                lemma_tail_byte(b, pos, x, ds.len() as int);
            }
            crate::scan::lemma_digit_run(b, p1 + 1, 10);
            let fv = scan_fraction(b, p1)->Ok_0;
            let k = fv.0.1 as int;
            let v = fv.0.0 as int;
            // The digits before `.`.
            lemma_dec_digits_val(s as nat);
            lemma_scan_block(b, pos, ds, 1, b.len() - pos);
            assert(digit_run(b, pos, b.len() - pos) == ds.len());
            assert(scan_dnum(b, pos) == Ok::<((int, int, int), int), crate::scan::Fail>(
                ((s, v, k), fv.1),
            ));
            // The fraction scaled to nanoseconds is exact.
            assert(k >= 1);
            crate::scan::lemma_pow10_mono(0, k);
            assert(pow10(0) == 1);
            lemma_pow10_sum(9 - k, k);
            let a = pow10(9 - k) as int;
            let c = pow10(k) as int;
            assert(a * c == 1_000_000_000) by {
                reveal_with_fuel(pow10, 10);
            }
            assert(v * a == sub);
            assert(v * 1_000_000_000 == sub * c) by (nonlinear_arith)
                requires
                    v * a == sub,
                    a * c == 1_000_000_000,
            ;
            assert((v * 1_000_000_000) / c == sub) by (nonlinear_arith)
                requires
                    v * 1_000_000_000 == sub * c,
                    c >= 1,
            ;
            assert(add_component(total, (s, v, k), 1_000_000_000, limit) == Ok::<int, crate::scan::Fail>(
                total + s * 1_000_000_000 + sub,
            ));
            assert(fv.1 == p1 + fr.len());
            assert(b[fv.1] == 83u8);
            assert(fv.1 + 1 == b.len());
        } else {
            assert(x == ds + seq![83u8]);
            lemma_tail_byte(b, pos, x, ds.len() as int);
            lemma_scan_dnum_int(b, pos, s as nat);
            assert(p1 + 1 == b.len());
        }
    }
}

/// The nanoseconds of the unit that a time-section letter names.
pub open spec fn post_unit(c: u8) -> int {
    if c == 72u8 {
        NS_PER_HOUR as int
    } else if c == 77u8 {
        NS_PER_MIN as int
    } else {
        NS_PER_SEC as int
    }
}

/// One whole-number time component (`<v>H` or `<v>M`) at `pos`: read, added,
/// and the rest of the section read after it.
#[verifier::spinoff_prover]
proof fn lemma_post_unit(
    b: Seq<u8>,
    pos: int,
    total: int,
    v: nat,
    unit: u8,
    rest: Seq<u8>,
    limit: int,
)
    requires
        0 < v,
        unit == 72u8 || unit == 77u8,
        tail_is(b, pos, dec_digits(v) + seq![unit] + rest),
        0 <= total,
        total + v * post_unit(unit) <= limit,
    ensures
        tail_is(b, pos + dec_digits(v).len() + 1, rest),
        dur_post(b, pos, total, limit) == (match dur_post(
            b,
            pos + dec_digits(v).len() + 1,
            total + v * post_unit(unit),
            limit,
        ) {
            Err(f) => Err(f),
            Ok(x) => Ok((x.0, x.1, x.2 + 1)),
        }),
{
    let ds = dec_digits(v);
    let x = ds + seq![unit] + rest;
    lemma_tail_skip(b, pos, x, ds.len() as int);
    assert(x.subrange(0, ds.len() as int) =~= ds);
    lemma_tail_byte(b, pos, x, ds.len() as int);
    lemma_scan_dnum_int(b, pos, v);
    lemma_tail_skip(b, pos, x, ds.len() as int + 1);
    assert(x.subrange(ds.len() as int + 1, x.len() as int) =~= rest);
    assert(add_component(total, (v as int, 0, 0), post_unit(unit), limit) == Ok::<int, crate::scan::Fail>(
        total + v * post_unit(unit),
    ));
}

/// The count of nonzero components of a time section.
pub open spec fn post_count(h: int, m: int, s: int, sub: int) -> int {
    (if h > 0 { 1int } else { 0int }) + (if m > 0 { 1int } else { 0int }) + (if s > 0 || sub > 0 {
        1int
    } else {
        0int
    })
}

/// The components of a time section after `T`, read to the end of the
/// input.
#[verifier::spinoff_prover]
proof fn lemma_post_time(
    b: Seq<u8>,
    pos: int,
    total: int,
    h: int,
    m: int,
    s: int,
    sub: int,
    limit: int,
)
    requires
        0 <= h < 24,
        0 <= m < 60,
        0 <= s < 60,
        0 <= sub < 1_000_000_000,
        0 <= total,
        total + h * NS_PER_HOUR + m * NS_PER_MIN + s * NS_PER_SEC + sub <= limit,
        tail_is(b, pos, unit_text(h, 72u8) + unit_text(m, 77u8) + seconds_text(s, sub)),
    ensures
        dur_post(b, pos, total, limit) == Ok::<(int, int, int), crate::scan::Fail>(
            (
                total + h * NS_PER_HOUR + m * NS_PER_MIN + s * NS_PER_SEC + sub,
                b.len() as int,
                post_count(h, m, s, sub),
            ),
        ),
{
    let st = seconds_text(s, sub);
    let t1 = total + h * NS_PER_HOUR;
    let t2 = t1 + m * NS_PER_MIN;
    let ms = unit_text(m, 77u8) + st;
    // After the hours.
    let p1 = if h > 0 { pos + dec_digits(h as nat).len() + 1 } else { pos };
    if h > 0 {
        assert(unit_text(h, 72u8) + unit_text(m, 77u8) + st =~= dec_digits(h as nat) + seq![72u8]
            + ms);
        lemma_post_unit(b, pos, total, h as nat, 72u8, ms, limit);
    } else {
        assert(unit_text(h, 72u8) + unit_text(m, 77u8) + st =~= ms);
    }
    assert(tail_is(b, p1, ms));
    // After the minutes.
    let p2 = if m > 0 { p1 + dec_digits(m as nat).len() + 1 } else { p1 };
    if m > 0 {
        assert(ms =~= dec_digits(m as nat) + seq![77u8] + st);
        lemma_post_unit(b, p1, t1, m as nat, 77u8, st, limit);
    } else {
        assert(ms =~= st);
    }
    assert(tail_is(b, p2, st));
    lemma_post_seconds(b, p2, t2, s, sub, limit);
}

/// The fields of a span's magnitude recombine to it.
proof fn lemma_span_fields(abs: int)
    requires
        0 <= abs,
    ensures
        ({
            let rem = abs % (NS_PER_DAY as int);
            let h = rem / (NS_PER_HOUR as int);
            let m = (rem % (NS_PER_HOUR as int)) / (NS_PER_MIN as int);
            let s = (rem % (NS_PER_MIN as int)) / (NS_PER_SEC as int);
            let sub = rem % (NS_PER_SEC as int);
            &&& 0 <= h < 24
            &&& 0 <= m < 60
            &&& 0 <= s < 60
            &&& 0 <= sub < 1_000_000_000
            &&& abs == (abs / (NS_PER_DAY as int)) * NS_PER_DAY + h * NS_PER_HOUR + m * NS_PER_MIN
                + s * NS_PER_SEC + sub
        }),
{
    let rem = abs % (NS_PER_DAY as int);
    vstd::arithmetic::div_mod::lemma_fundamental_div_mod(abs, NS_PER_DAY as int);
    vstd::arithmetic::div_mod::lemma_fundamental_div_mod(rem, NS_PER_HOUR as int);
    vstd::arithmetic::div_mod::lemma_fundamental_div_mod(rem % (NS_PER_HOUR as int), NS_PER_MIN as int);
    vstd::arithmetic::div_mod::lemma_fundamental_div_mod(rem % (NS_PER_MIN as int), NS_PER_SEC as int);
    vstd::arithmetic::div_mod::lemma_mod_mod(rem, NS_PER_MIN as int, 60);
    vstd::arithmetic::div_mod::lemma_mod_mod(rem, NS_PER_SEC as int, 60);
}

/// The time section of a span, as it follows `T`.
proof fn lemma_time_section(h: int, m: int, s: int, sub: int)
    requires
        0 <= h,
        0 <= m,
        0 <= s,
        0 <= sub,
    ensures
        duration_time_text(h, m, s, sub).len() == 0 <==> post_count(h, m, s, sub) == 0,
        duration_time_text(h, m, s, sub).len() > 0 ==> duration_time_text(h, m, s, sub) == seq![84u8]
            + (unit_text(h, 72u8) + unit_text(m, 77u8) + seconds_text(s, sub)),
{
    if h > 0 || m > 0 || s > 0 || sub > 0 {
        assert(duration_time_text(h, m, s, sub) =~= seq![84u8] + (unit_text(h, 72u8) + unit_text(
            m,
            77u8,
        ) + seconds_text(s, sub)));
    }
}

/// The part before `T`: the days (when any), then either the end of the
/// input or `T`.
#[verifier::rlimit(40)]
#[verifier::spinoff_prover]
proof fn lemma_pre(b: Seq<u8>, q: int, days: int, rest: Seq<u8>, limit: int)
    requires
        0 <= days,
        days * NS_PER_DAY <= limit,
        tail_is(b, q, unit_text(days, 68u8) + rest),
        rest.len() == 0 ==> days > 0,
        rest.len() > 0 ==> rest[0] == 84u8,
    ensures
        rest.len() > 0 ==> dur_pre(b, q, 0, limit) == Ok::<(int, int, bool, bool), crate::scan::Fail>(
            (days * NS_PER_DAY, q + unit_text(days, 68u8).len() + 1, days > 0, true),
        ),
        rest.len() == 0 ==> dur_pre(b, q, 0, limit) == Ok::<(int, int, bool, bool), crate::scan::Fail>(
            (days * NS_PER_DAY, b.len() as int, true, false),
        ),
        tail_is(b, q + unit_text(days, 68u8).len(), rest),
{
    let dt = unit_text(days, 68u8);
    let t = days * NS_PER_DAY;
    if days > 0 {
        let ds = dec_digits(days as nat);
        let x = ds + seq![68u8] + rest;
        assert(dt + rest =~= x);
        lemma_dec_digits(days as nat);
        lemma_tail_skip(b, q, x, ds.len() as int);
        assert(x.subrange(0, ds.len() as int) =~= ds);
        lemma_tail_byte(b, q, x, ds.len() as int);
        lemma_tail_byte(b, q, x, 0);
        assert(is_digit(ds[0]));
        lemma_scan_dnum_int(b, q, days as nat);
        lemma_tail_skip(b, q, x, ds.len() as int + 1);
        assert(x.subrange(ds.len() as int + 1, x.len() as int) =~= rest);
        assert(add_component(0, (days, 0, 0), NS_PER_DAY as int, limit) == Ok::<int, crate::scan::Fail>(t));
        let q1 = q + ds.len() + 1;
        if rest.len() > 0 {
            lemma_tail_byte(b, q, x, ds.len() as int + 1);
            assert(x[ds.len() as int + 1] == rest[0]);
            assert(dur_pre(b, q1, t, limit) == Ok::<(int, int, bool, bool), crate::scan::Fail>(
                (t, q1 + 1, false, true),
            ));
        } else {
            assert(dur_pre(b, q1, t, limit) == Ok::<(int, int, bool, bool), crate::scan::Fail>(
                (t, b.len() as int, false, false),
            ));
        }
    } else {
        assert(dt + rest =~= rest);
        lemma_tail_byte(b, q, rest, 0);
    }
}

/// What follows `T` in a span's rendering.
pub open spec fn after_t(days: int, h: int, m: int, s: int, sub: int) -> Seq<u8> {
    if post_count(h, m, s, sub) > 0 {
        unit_text(h, 72u8) + unit_text(m, 77u8) + seconds_text(s, sub)
    } else if days == 0 {
        seq![48u8, 83u8]
    } else {
        Seq::empty()
    }
}

/// The part after `T` (or the end of the input) read to the end.
#[verifier::rlimit(40)]
#[verifier::spinoff_prover]
proof fn lemma_post(
    b: Seq<u8>,
    q: int,
    days: int,
    h: int,
    m: int,
    s: int,
    sub: int,
    limit: int,
)
    requires
        0 <= days,
        0 <= h < 24,
        0 <= m < 60,
        0 <= s < 60,
        0 <= sub < 1_000_000_000,
        days * NS_PER_DAY + h * NS_PER_HOUR + m * NS_PER_MIN + s * NS_PER_SEC + sub <= limit,
        tail_is(b, q, after_t(days, h, m, s, sub)),
    ensures
        dur_post(b, q, days * NS_PER_DAY, limit) == Ok::<(int, int, int), crate::scan::Fail>(
            (
                days * NS_PER_DAY + h * NS_PER_HOUR + m * NS_PER_MIN + s * NS_PER_SEC + sub,
                b.len() as int,
                if post_count(h, m, s, sub) == 0 && days == 0 { 1int } else { post_count(h, m, s, sub) },
            ),
        ),
{
    let t = days * NS_PER_DAY;
    if post_count(h, m, s, sub) > 0 {
        lemma_post_time(b, q, t, h, m, s, sub, limit);
    } else if days == 0 {
        let z = seq![48u8, 83u8];
        assert(dec_digits(0) == seq![48u8]);
        assert(b.subrange(q, q + 1) =~= dec_digits(0)) by {
            lemma_tail_byte(b, q, z, 0);
        }
        lemma_tail_byte(b, q, z, 1);
        lemma_scan_dnum_int(b, q, 0);
        assert(add_component(0, (0, 0, 0), NS_PER_SEC as int, limit) == Ok::<int, crate::scan::Fail>(0));
        assert(dur_post(b, b.len() as int, 0, limit) == Ok::<(int, int, int), crate::scan::Fail>(
            (0, b.len() as int, 0),
        ));
    }
}

/// How the outcome of a duration parse follows from its two halves.
proof fn lemma_outcome(b: Seq<u8>, neg: bool, a: (int, int, bool, bool), c: (int, int, int))
    requires
        neg <==> byte_at(b, 0) == Some(45u8),
        byte_at(b, if neg { 1int } else { 0int }) == Some(80u8),
        dur_pre(b, (if neg { 1int } else { 0int }) + 1, 0, span_limit(neg)) == Ok::<
            (int, int, bool, bool),
            crate::scan::Fail,
        >(a),
        dur_post(b, a.1, a.0, span_limit(neg)) == Ok::<(int, int, int), crate::scan::Fail>(c),
        !(a.3 && c.2 == 0),
        c.1 == b.len(),
        a.2 || c.2 > 0,
    ensures
        duration_iso_outcome(b) == Ok::<int, crate::scan::Fail>(if neg { -c.0 } else { c.0 }),
{
}

/// The shape of a span's rendering.
proof fn lemma_span_text(n: int)
    requires
        i128::MIN <= n <= i128::MAX,
    ensures
        ({
            let abs = if n < 0 { -n } else { n };
            let days = abs / (NS_PER_DAY as int);
            let rem = abs % (NS_PER_DAY as int);
            let h = rem / (NS_PER_HOUR as int);
            let m = (rem % (NS_PER_HOUR as int)) / (NS_PER_MIN as int);
            let s = (rem % (NS_PER_MIN as int)) / (NS_PER_SEC as int);
            let sub = rem % (NS_PER_SEC as int);
            let tt = duration_time_text(h, m, s, sub);
            let sign: Seq<u8> = if n < 0 { seq![45u8] } else { Seq::empty() };
            let tail: Seq<u8> = if days == 0 && tt.len() == 0 {
                seq![84u8, 48u8, 83u8]
            } else {
                Seq::empty()
            };
            duration_text(n) == sign + seq![80u8] + unit_text(days, 68u8) + (tt + tail)
        }),
{
    let abs = if n < 0 { -n } else { n };
    let days = abs / (NS_PER_DAY as int);
    let rem = abs % (NS_PER_DAY as int);
    let h = rem / (NS_PER_HOUR as int);
    let m = (rem % (NS_PER_HOUR as int)) / (NS_PER_MIN as int);
    let s = (rem % (NS_PER_MIN as int)) / (NS_PER_SEC as int);
    let sub = rem % (NS_PER_SEC as int);
    let tt = duration_time_text(h, m, s, sub);
    let sign: Seq<u8> = if n < 0 { seq![45u8] } else { Seq::empty() };
    let tail: Seq<u8> = if days == 0 && tt.len() == 0 { seq![84u8, 48u8, 83u8] } else { Seq::empty() };
    assert(duration_text(n) =~= sign + seq![80u8] + unit_text(days, 68u8) + (tt + tail));
}

/// The parse of a span's rendering, from the fields of its magnitude.
#[verifier::rlimit(60)]
#[verifier::spinoff_prover]
proof fn lemma_parse_rendering(n: int, abs: int, days: int, h: int, m: int, s: int, sub: int)
    requires
        abs == (if n < 0 { -n } else { n }),
        abs <= span_limit(n < 0),
        0 <= days,
        0 <= h < 24,
        0 <= m < 60,
        0 <= s < 60,
        0 <= sub < 1_000_000_000,
        abs == days * NS_PER_DAY + h * NS_PER_HOUR + m * NS_PER_MIN + s * NS_PER_SEC + sub,
        ({
            let tt = duration_time_text(h, m, s, sub);
            let sign: Seq<u8> = if n < 0 { seq![45u8] } else { Seq::empty() };
            let tail: Seq<u8> = if days == 0 && tt.len() == 0 {
                seq![84u8, 48u8, 83u8]
            } else {
                Seq::empty()
            };
            duration_text(n) == sign + seq![80u8] + unit_text(days, 68u8) + (tt + tail)
        }),
    ensures
        duration_iso_outcome(duration_text(n)) == Ok::<int, crate::scan::Fail>(n),
{
    let tt = duration_time_text(h, m, s, sub);
    lemma_time_section(h, m, s, sub);
    let sign: Seq<u8> = if n < 0 { seq![45u8] } else { Seq::empty() };
    let dt = unit_text(days, 68u8);
    let tail: Seq<u8> = if days == 0 && tt.len() == 0 { seq![84u8, 48u8, 83u8] } else { Seq::empty() };
    let rest = tt + tail;
    let b = duration_text(n);
    assert(b == sign + seq![80u8] + dt + rest);
    let p0: int = sign.len() as int;
    assert(b[p0] == 80u8);
    if n >= 0 {
        assert(b[0] == 80u8);
    } else {
        assert(b[0] == 45u8);
    }
    let limit = span_limit(n < 0);
    assert(tail_is(b, p0 + 1, dt + rest)) by {
        assert(b.subrange(p0 + 1, b.len() as int) =~= dt + rest);
    }
    if rest.len() > 0 && tt.len() > 0 {
        assert(rest[0] == tt[0]);
    }
    lemma_pre(b, p0 + 1, days, rest, limit);
    let q = if rest.len() > 0 { p0 + 1 + dt.len() + 1 } else { b.len() as int };
    assert(tail_is(b, q, after_t(days, h, m, s, sub))) by {
        if rest.len() > 0 {
            lemma_tail_skip(b, p0 + 1 + dt.len(), rest, 1);
            assert(rest.subrange(1, rest.len() as int) =~= after_t(days, h, m, s, sub));
        } else {
            assert(b.subrange(q, b.len() as int) =~= after_t(days, h, m, s, sub));
        }
    }
    lemma_post(b, q, days, h, m, s, sub, limit);
    let a = dur_pre(b, p0 + 1, 0, limit)->Ok_0;
    let c = dur_post(b, a.1, a.0, limit)->Ok_0;
    lemma_outcome(b, n < 0, a, c);
}

/// ISO 8601 durations round trip: parsing the rendering of a span gives back
/// the same number of nanoseconds, for every span.
pub proof fn law_duration_iso_round_trip(n: int)
    requires
        i128::MIN <= n <= i128::MAX,
    ensures
        duration_iso_outcome(duration_text(n)) == Ok::<int, crate::scan::Fail>(n),
{
    let abs = if n < 0 { -n } else { n };
    lemma_span_fields(abs);
    lemma_span_text(n);
    let days = abs / (NS_PER_DAY as int);
    let rem = abs % (NS_PER_DAY as int);
    let h = rem / (NS_PER_HOUR as int);
    let m = (rem % (NS_PER_HOUR as int)) / (NS_PER_MIN as int);
    let s = (rem % (NS_PER_MIN as int)) / (NS_PER_SEC as int);
    let sub = rem % (NS_PER_SEC as int);
    lemma_parse_rendering(n, abs, days, h, m, s, sub);
}

} // verus!
