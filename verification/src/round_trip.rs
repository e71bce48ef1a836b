//! Text round trips: what the formatters write, the parsers read back as
//! the same value.
//!
//! The renderings are the specification functions of `format` (the
//! functions that render state them in their `ensures`), and the parsers are
//! the scanning specifications that the parsing functions state theirs over;
//! the laws here tie the two together.

use vstd::prelude::*;

use crate::calendar::{
    days_from_ymd, lemma_date_in_year, lemma_year_start_mono, lemma_ymd_of_days, valid_ymd,
    year_start, ymd_of_days,
};
use crate::date::ymd_outcome;
use crate::format::{
    date_iso_text, date_text, fraction_text, scan_date, scan_fraction, scan_iso, scan_sign,
    civil_text, offset_iso_outcome, offset_text, rfc3339_text, scan_iso_offset, scan_iso_time,
    scan_offset, scan_offset_minutes, scan_offset_seconds, time_sep_at, offset_sign_at,
    scan_time, time_iso_outcome, time_iso_text, time_text, trim_zeros, year_text, FractionDigits,
};
use crate::ticks::{
    civil_ns, civil_of_ns, law_utc_projection_round_trip, rfc3339_instant, shift_outcome,
    ticks_rfc3339_text,
};
use crate::time::{hms_error, hms_nanos, lemma_hms_parts};
use crate::zoned::{anchor_outcome, zoned_civil_outcome, zoned_rfc3339_text};
use crate::duration::fits_i128;
use crate::scan::{byte_at, digit_at, digit_run, digits_val, lemma_digit_run_step, pow10, scan_digits};
use crate::text::{dec_digits, dec_padded, is_digit, left_pad, lemma_dec_digits};

verus! {

/// The value of `n` digits depends only on those digits.
pub(crate) proof fn lemma_digits_val_agree(b1: Seq<u8>, p1: int, b2: Seq<u8>, p2: int, n: int)
    requires
        forall|i: int| p1 <= i < p1 + n ==> #[trigger] b1[i] == b2[i - p1 + p2],
    ensures
        digits_val(b1, p1, n) == digits_val(b2, p2, n),
    decreases n,
{
    if n > 0 {
        assert(b1[p1 + n - 1] == b2[p2 + n - 1]);
        lemma_digits_val_agree(b1, p1, b2, p2, n - 1);
    }
}

/// Splitting a digit string: the value of `x + y` is the value of `x`
/// shifted past the digits of `y`, plus the value of `y`.
proof fn lemma_digits_val_concat(x: Seq<u8>, y: Seq<u8>, j: int)
    requires
        0 <= j <= y.len(),
    ensures
        digits_val(x + y, 0, x.len() + j) == digits_val(x, 0, x.len() as int) * pow10(j)
            + digits_val(y, 0, j),
    decreases j,
{
    let s = x + y;
    if j == 0 {
        lemma_digits_val_agree(s, 0, x, 0, x.len() as int);
        assert(pow10(0) == 1);
        assert(digits_val(y, 0, 0) == 0);
        let a = digits_val(x, 0, x.len() as int);
        let p = pow10(0);
        assert(a * p == a) by (nonlinear_arith)
            requires
                p == 1,
        ;
    } else {
        lemma_digits_val_concat(x, y, j - 1);
        let m = x.len() + j;
        assert(s[m - 1] == y[j - 1]);
        let a = digits_val(x, 0, x.len() as int);
        let c = digits_val(y, 0, j - 1);
        let p = pow10(j - 1);
        assert(digits_val(s, 0, m) == digits_val(s, 0, m - 1) * 10 + (s[m - 1] - 48) as nat);
        assert(digits_val(y, 0, j) == c * 10 + (y[j - 1] - 48) as nat);
        assert(pow10(j) == p * 10);
        assert(digits_val(s, 0, m - 1) == a * p + c);
        assert((a * p + c) * 10 == a * (p * 10) + c * 10) by (nonlinear_arith);
    }
}

/// A run of `0` digits is worth nothing.
proof fn lemma_digits_val_zeros(z: Seq<u8>, j: int)
    requires
        0 <= j <= z.len(),
        forall|k: int| 0 <= k < z.len() ==> z[k] == 48u8,
    ensures
        digits_val(z, 0, j) == 0,
    decreases j,
{
    if j > 0 {
        lemma_digits_val_zeros(z, j - 1);
    }
}

/// The decimal digits of `n` are worth `n`.
pub(crate) proof fn lemma_dec_digits_val(n: nat)
    ensures
        digits_val(dec_digits(n), 0, dec_digits(n).len() as int) == n,
    decreases n,
{
    lemma_dec_digits(n);
    if n < 10 {
        let t = dec_digits(n);
        assert(digits_val(t, 0, 0) == 0);
        assert(digits_val(t, 0, 1) == digits_val(t, 0, 0) * 10 + (t[0] - 48) as nat);
    } else {
        let s = dec_digits(n / 10);
        lemma_dec_digits_val(n / 10);
        let t = dec_digits(n);
        let l = s.len() as int;
        assert(t == s.push((48 + n % 10) as u8));
        lemma_digits_val_agree(t, 0, s, 0, l);
        assert(t[l] == 48 + n % 10);
        assert(digits_val(t, 0, l + 1) == digits_val(t, 0, l) * 10 + (t[l] - 48) as nat);
        assert(n == (n / 10) * 10 + n % 10);
    }
}

/// A number below `10^k` has at most `k` digits.
pub(crate) proof fn lemma_dec_digits_len(n: nat, k: int)
    requires
        k >= 1,
        n < pow10(k),
    ensures
        dec_digits(n).len() <= k,
    decreases n,
{
    lemma_dec_digits(n);
    if n >= 10 {
        if k == 1 {
            assert(pow10(1) == 10) by {
                reveal_with_fuel(pow10, 2);
            }
        } else {
            assert(n / 10 < pow10(k - 1)) by {
                assert(pow10(k) == pow10(k - 1) * 10);
            }
            lemma_dec_digits_len(n / 10, k - 1);
        }
    }
}

/// The zero-padded rendering of `n`: all digits, at least `w` of them
/// (exactly `w` when `n < 10^w`), and worth `n`.
pub proof fn lemma_dec_padded(n: nat, w: int)
    ensures
        dec_padded(n, w).len() >= w,
        dec_padded(n, w).len() >= 1,
        forall|k: int| 0 <= k < dec_padded(n, w).len() ==> is_digit(#[trigger] dec_padded(n, w)[k]),
        digits_val(dec_padded(n, w), 0, dec_padded(n, w).len() as int) == n,
        w >= 1 && n < pow10(w) ==> dec_padded(n, w).len() == w,
{
    let s = dec_digits(n);
    lemma_dec_digits(n);
    lemma_dec_digits_val(n);
    if w >= 1 && n < pow10(w) {
        lemma_dec_digits_len(n, w);
    }
    if s.len() < w {
        let z = Seq::new((w - s.len()) as nat, |i: int| 48u8);
        assert(dec_padded(n, w) == z + s);
        lemma_digits_val_concat(z, s, s.len() as int);
        lemma_digits_val_zeros(z, z.len() as int);
        let zv = digits_val(z, 0, z.len() as int);
        let pw = pow10(s.len() as int);
        assert(zv * pw == 0) by (nonlinear_arith)
            requires
                zv == 0,
        ;
        assert(z.len() + s.len() == dec_padded(n, w).len());
        assert(forall|k: int| 0 <= k < dec_padded(n, w).len() ==> is_digit(#[trigger] dec_padded(n, w)[k])) by {
            assert forall|k: int| 0 <= k < dec_padded(n, w).len() implies is_digit(#[trigger] dec_padded(n, w)[k]) by {
                if k >= z.len() {
                    assert(dec_padded(n, w)[k] == s[k - z.len()]);
                }
            }
        }
    }
}

/// Scanning a block of digits that sits at `pos` of `b` and ends the run
/// (the input ends there, a non-digit follows, or the cap is reached).
pub proof fn lemma_scan_block(b: Seq<u8>, pos: int, s: Seq<u8>, min: int, max: int)
    requires
        0 <= pos,
        pos + s.len() <= b.len(),
        b.subrange(pos, pos + s.len()) == s,
        forall|k: int| 0 <= k < s.len() ==> is_digit(#[trigger] s[k]),
        min <= s.len() <= max,
        pos + s.len() == b.len() || !is_digit(b[pos + s.len()]) || s.len() == max,
    ensures
        scan_digits(b, pos, min, max) == Ok::<(int, int), crate::scan::Fail>(
            (digits_val(s, 0, s.len() as int) as int, pos + s.len()),
        ),
{
    let n = s.len() as int;
    assert forall|j: int| 0 <= j < n implies #[trigger] digit_at(b, pos + j) by {
        assert(b[pos + j] == b.subrange(pos, pos + n)[j]);
    }
    lemma_digit_run_step(b, pos, max, n);
    assert(digit_run(b, pos + n, max - n) == 0);
    assert forall|i: int| pos <= i < pos + n implies #[trigger] b[i] == s[i - pos + 0] by {
        assert(b[i] == b.subrange(pos, pos + n)[i - pos]);
    }
    lemma_digits_val_agree(b, pos, s, 0, n);
}

/// A block `s` placed after `a` and before `c` is found there again.
pub(crate) proof fn lemma_block_at(a: Seq<u8>, s: Seq<u8>, c: Seq<u8>)
    ensures
        (a + s + c).subrange(a.len() as int, (a.len() + s.len()) as int) == s,
        c.len() > 0 ==> (a + s + c)[(a.len() + s.len()) as int] == c[0],
        (a + s + c).len() == a.len() + s.len() + c.len(),
{
    assert((a + s + c).subrange(a.len() as int, (a.len() + s.len()) as int) =~= s);
}

/// The day counts of `Date` lie in years of at most seven digits.
proof fn lemma_date_year_bound(z: int)
    requires
        i32::MIN <= z <= i32::MAX,
    ensures
        -10_000_000 < ymd_of_days(z).0 < 10_000_000,
{
    lemma_ymd_of_days(z);
    let (y, m, d) = ymd_of_days(z);
    lemma_date_in_year(y, m, d);
    assert(year_start(0) == -719_528);
    if y >= 10_000_000 {
        lemma_year_start_mono(0, y);
    }
    if y <= -10_000_000 {
        lemma_year_start_mono(y, 0);
    }
}

/// `10^7`.
proof fn lemma_pow10_7()
    ensures
        pow10(7) == 10_000_000,
        pow10(2) == 100,
{
    reveal_with_fuel(pow10, 8);
}

/// Scanning the rendering of a valid date gives back its components and
/// stops at the end of the rendering.
#[verifier::rlimit(60)]
#[verifier::spinoff_prover]
proof fn lemma_scan_date_text(y: int, m: int, d: int, c: Seq<u8>)
    requires
        -10_000_000 < y < 10_000_000,
        1 <= m <= 12,
        1 <= d <= 31,
        c.len() == 0 || !is_digit(c[0]),
    ensures
        scan_date(date_text(y, m, d) + c, 0) == Ok::<((i32, u32, u32), int), crate::scan::Fail>(
            ((y as i32, m as u32, d as u32), date_text(y, m, d).len() as int),
        ),
{
    let mag: nat = if y < 0 { (-y) as nat } else { y as nat };
    let p = dec_padded(mag, 4);
    let ms = dec_padded(m as nat, 2);
    let ds = dec_padded(d as nat, 2);
    lemma_pow10_7();
    lemma_dec_padded(mag, 4);
    lemma_dec_padded(m as nat, 2);
    lemma_dec_padded(d as nat, 2);
    assert(p.len() <= 7) by {
        if p.len() > 4 {
            lemma_dec_digits_len(mag, 7);
        }
    }
    let sign: Seq<u8> = if y < 0 { seq![45u8] } else { Seq::empty() };
    let dash: Seq<u8> = seq![45u8];
    let b = date_text(y, m, d) + c;
    assert(year_text(y) == sign + p);
    assert(b =~= sign + p + (dash + ms + dash + ds + c));
    // The sign.
    if y < 0 {
        assert(b[0] == 45u8);
    } else {
        assert(b[0] == p[0]);
        assert(is_digit(p[0]));
    }
    let sv: int = if y < 0 { -1 } else { 1 };
    assert(scan_sign(b, 0) == (sv, sign.len() as int));
    // The year digits.
    lemma_block_at(sign, p, dash + ms + dash + ds + c);
    lemma_scan_block(b, sign.len() as int, p, 4, 9);
    let p2: int = (sign.len() + p.len()) as int;
    assert(scan_digits(b, sign.len() as int, 4, 9) == Ok::<(int, int), crate::scan::Fail>((mag as int, p2)));
    assert(mag * sv == y);
    assert(byte_at(b, p2) == Some(45u8));
    // The month digits.
    assert(b =~= (sign + p + dash) + ms + (dash + ds + c));
    lemma_block_at(sign + p + dash, ms, dash + ds + c);
    lemma_scan_block(b, p2 + 1, ms, 2, 2);
    assert(scan_digits(b, p2 + 1, 2, 2) == Ok::<(int, int), crate::scan::Fail>((m, p2 + 3)));
    assert(byte_at(b, p2 + 3) == Some(45u8));
    // The day digits.
    assert(b =~= (sign + p + dash + ms + dash) + ds + c);
    lemma_block_at(sign + p + dash + ms + dash, ds, c);
    lemma_scan_block(b, p2 + 4, ds, 2, 2);
    assert(scan_digits(b, p2 + 4, 2, 2) == Ok::<(int, int), crate::scan::Fail>((d, p2 + 6)));
    assert(date_text(y, m, d).len() == p2 + 6);
}

/// ISO dates round trip: parsing the ISO rendering of any `Date` gives back
/// the same day count, with no time and no offset.
pub proof fn law_date_iso_round_trip(z: int)
    requires
        i32::MIN <= z <= i32::MAX,
    ensures
        scan_iso(date_iso_text(z), false, false) == Ok::<
            (int, Option<int>, Option<i32>),
            crate::scan::Fail,
        >((z, None, None)),
{
    lemma_ymd_of_days(z);
    lemma_date_year_bound(z);
    let (y, m, d) = ymd_of_days(z);
    let b = date_iso_text(z);
    assert(b =~= date_text(y, m, d) + Seq::<u8>::empty());
    lemma_scan_date_text(y, m, d, Seq::<u8>::empty());
    assert(ymd_outcome(y, m, d) == Ok::<int, &'static str>(z));
}

/// Trimming trailing `0` digits keeps a prefix, and the trimmed digits
/// scaled back up by the removed count are worth the whole.
pub(crate) proof fn lemma_trim_zeros(s: Seq<u8>)
    ensures
        trim_zeros(s).len() <= s.len(),
        trim_zeros(s) == s.subrange(0, trim_zeros(s).len() as int),
        digits_val(s, 0, s.len() as int) == digits_val(trim_zeros(s), 0, trim_zeros(s).len() as int)
            * pow10(s.len() - trim_zeros(s).len()),
        trim_zeros(s).len() > 0 ==> trim_zeros(s).last() != 48u8,
    decreases s.len(),
{
    let t = trim_zeros(s);
    if s.len() > 0 && s.last() == 48 {
        let r = s.drop_last();
        lemma_trim_zeros(r);
        let l = s.len() as int;
        lemma_digits_val_agree(s, 0, r, 0, l - 1);
        assert(digits_val(s, 0, l) == digits_val(s, 0, l - 1) * 10 + (s[l - 1] - 48) as nat);
        assert(t == trim_zeros(r));
        assert(t =~= s.subrange(0, t.len() as int));
        let v = digits_val(t, 0, t.len() as int);
        let k = r.len() - t.len();
        assert(pow10(k + 1) == pow10(k) * 10);
        assert(v * pow10(k) * 10 == v * (pow10(k) * 10)) by (nonlinear_arith);
    } else {
        assert(s.subrange(0, s.len() as int) =~= s);
        assert(pow10(0) == 1);
        let v = digits_val(s, 0, s.len() as int);
        let p = pow10(0);
        assert(v == v * p) by (nonlinear_arith)
            requires
                p == 1,
        ;
    }
}

/// Scanning `HH:MM:SS` found at `p0` of `b`.
#[verifier::spinoff_prover]
proof fn lemma_scan_hms(b: Seq<u8>, p0: int, h: int, mi: int, se: int)
    requires
        0 <= p0,
        p0 + 8 <= b.len(),
        0 <= h < 24,
        0 <= mi < 60,
        0 <= se < 60,
        b.subrange(p0, p0 + 8) == dec_padded(h as nat, 2) + seq![58u8] + dec_padded(mi as nat, 2)
            + seq![58u8] + dec_padded(se as nat, 2),
    ensures
        scan_digits(b, p0, 2, 2) == Ok::<(int, int), crate::scan::Fail>((h, p0 + 2)),
        byte_at(b, p0 + 2) == Some(58u8),
        scan_digits(b, p0 + 3, 2, 2) == Ok::<(int, int), crate::scan::Fail>((mi, p0 + 5)),
        byte_at(b, p0 + 5) == Some(58u8),
        scan_digits(b, p0 + 6, 2, 2) == Ok::<(int, int), crate::scan::Fail>((se, p0 + 8)),
{
    lemma_pow10_7();
    lemma_dec_padded(h as nat, 2);
    lemma_dec_padded(mi as nat, 2);
    lemma_dec_padded(se as nat, 2);
    let hs = dec_padded(h as nat, 2);
    let ms = dec_padded(mi as nat, 2);
    let ss = dec_padded(se as nat, 2);
    let t = b.subrange(p0, p0 + 8);
    assert(t[0] == hs[0] && t[1] == hs[1] && t[2] == 58u8);
    assert(t[3] == ms[0] && t[4] == ms[1] && t[5] == 58u8);
    assert(t[6] == ss[0] && t[7] == ss[1]);
    assert(b[p0 + 2] == t[2]);
    assert(b[p0 + 5] == t[5]);
    assert(b.subrange(p0, p0 + 2) =~= hs) by {
        assert(b[p0] == t[0] && b[p0 + 1] == t[1]);
    }
    assert(b.subrange(p0 + 3, p0 + 5) =~= ms) by {
        assert(b[p0 + 3] == t[3] && b[p0 + 4] == t[4]);
    }
    assert(b.subrange(p0 + 6, p0 + 8) =~= ss) by {
        assert(b[p0 + 6] == t[6] && b[p0 + 7] == t[7]);
    }
    lemma_scan_block(b, p0, hs, 2, 2);
    lemma_scan_block(b, p0 + 3, ms, 2, 2);
    lemma_scan_block(b, p0 + 6, ss, 2, 2);
}

/// Scanning the fraction rendered for `ns` nanoseconds (shortest exact, or
/// all nine digits) found at `pos` of `b`, where the input ends or a
/// non-digit follows: the digits, scaled to nine places, are worth `ns`.
#[verifier::spinoff_prover]
pub(crate) proof fn lemma_scan_fraction_text(b: Seq<u8>, pos: int, ns: int, f: FractionDigits)
    requires
        0 <= ns < 1_000_000_000,
        f == FractionDigits::Auto ==> ns > 0,
        f == FractionDigits::Auto || f == FractionDigits::Nano,
        0 <= pos,
        pos + fraction_text(ns, f).len() <= b.len(),
        b.subrange(pos, pos + fraction_text(ns, f).len()) == fraction_text(ns, f),
        pos + fraction_text(ns, f).len() == b.len() || !is_digit(
            b[pos + fraction_text(ns, f).len()],
        ),
    ensures
        scan_fraction(b, pos) is Ok,
        scan_fraction(b, pos)->Ok_0.1 == pos + fraction_text(ns, f).len(),
        scan_fraction(b, pos)->Ok_0.0.1 <= 9,
        scan_fraction(b, pos)->Ok_0.0.0 * pow10(9 - scan_fraction(b, pos)->Ok_0.0.1) == ns,
{
    reveal_with_fuel(pow10, 10);
    let fr = fraction_text(ns, f);
    let d9 = dec_padded(ns as nat, 9);
    lemma_dec_padded(ns as nat, 9);
    lemma_trim_zeros(d9);
    let t = if f == FractionDigits::Nano { d9 } else { trim_zeros(d9) };
    assert(fr == seq![46u8] + t);
    assert(forall|k: int| 0 <= k < t.len() ==> is_digit(#[trigger] t[k])) by {
        assert forall|k: int| 0 <= k < t.len() implies is_digit(#[trigger] t[k]) by {
            assert(t[k] == d9[k]);
        }
    }
    if t.len() == 0 {
        let z = pow10(9);
        assert(digits_val(t, 0, 0) == 0);
        assert(0 * z == 0) by (nonlinear_arith);
    }
    assert(b[pos] == fr[0]);
    assert(b.subrange(pos + 1, pos + 1 + t.len()) =~= t) by {
        assert forall|k: int| 0 <= k < t.len() implies b[pos + 1 + k] == t[k] by {
            assert(b[pos + 1 + k] == b.subrange(pos, pos + fr.len())[1 + k]);
        }
    }
    lemma_scan_block(b, pos + 1, t, 1, 10);
    let k = t.len() as int;
    let v = digits_val(t, 0, k);
    assert(d9.len() == 9);
    assert(digits_val(d9, 0, 9) == ns);
    if f == FractionDigits::Nano {
        assert(pow10(0) == 1);
        let p = pow10(0);
        assert(v * p == v) by (nonlinear_arith)
            requires
                p == 1,
        ;
    }
    assert(v * pow10(9 - k) == ns);
    crate::scan::lemma_pow10_mono(0, 9 - k);
    let p = pow10(9 - k);
    assert(v <= ns) by (nonlinear_arith)
        requires
            v * p == ns,
            p >= 1,
            v >= 0,
    ;
    assert(digit_run(b, pos + 1, 10) == k);
    assert(digits_val(b, pos + 1, k) == v);
    assert(scan_fraction(b, pos) == Ok::<((u64, u32), int), crate::scan::Fail>(
        ((v as u64, k as u32), pos + 1 + k),
    ));
}

/// Scanning a rendered time of day (with the shortest exact fraction, or
/// all nine digits) found at `p0` of `b`, where the input ends or a byte
/// that is neither a digit nor `.` follows, gives back its components.
#[verifier::spinoff_prover]
proof fn lemma_scan_time_text(b: Seq<u8>, p0: int, n: int, f: FractionDigits)
    requires
        0 <= n < 86_400_000_000_000,
        f == FractionDigits::Auto || f == FractionDigits::Nano,
        0 <= p0,
        p0 + time_iso_text(n, f).len() <= b.len(),
        b.subrange(p0, p0 + time_iso_text(n, f).len()) == time_iso_text(n, f),
        p0 + time_iso_text(n, f).len() == b.len() || (!is_digit(b[p0 + time_iso_text(n, f).len()])
            && b[p0 + time_iso_text(n, f).len()] != 46u8),
    ensures
        scan_time(b, p0) == Ok::<((u32, u32, u32, u32), int), crate::scan::Fail>(
            (
                (
                    (n / 3_600_000_000_000) as u32,
                    ((n / 60_000_000_000) % 60) as u32,
                    ((n / 1_000_000_000) % 60) as u32,
                    (n % 1_000_000_000) as u32,
                ),
                p0 + time_iso_text(n, f).len(),
            ),
        ),
{
    lemma_hms_parts(n);
    let h = n / 3_600_000_000_000;
    let mi = (n / 60_000_000_000) % 60;
    let se = (n / 1_000_000_000) % 60;
    let ns = n % 1_000_000_000;
    let hms = dec_padded(h as nat, 2) + seq![58u8] + dec_padded(mi as nat, 2) + seq![58u8]
        + dec_padded(se as nat, 2);
    let fr = fraction_text(ns, f);
    let txt = time_iso_text(n, f);
    lemma_pow10_7();
    lemma_dec_padded(h as nat, 2);
    lemma_dec_padded(mi as nat, 2);
    lemma_dec_padded(se as nat, 2);
    assert(hms.len() == 8);
    assert(txt == hms + fr);
    assert(b.subrange(p0, p0 + 8) =~= hms) by {
        assert forall|k: int| 0 <= k < 8 implies b[p0 + k] == hms[k] by {
            assert(b[p0 + k] == b.subrange(p0, p0 + txt.len())[k]);
            assert(txt[k] == hms[k]);
        }
    }
    lemma_scan_hms(b, p0, h, mi, se);
    let p8 = p0 + 8;
    if fr.len() == 0 {
        assert(byte_at(b, p8) != Some(46u8));
    } else {
        assert(b.subrange(p8, p8 + fr.len()) =~= fr) by {
            assert forall|k: int| 0 <= k < fr.len() implies b[p8 + k] == fr[k] by {
                assert(b[p8 + k] == b.subrange(p0, p0 + txt.len())[8 + k]);
                assert(txt[8 + k] == fr[k]);
            }
        }
        lemma_scan_fraction_text(b, p8, ns, f);
        assert(b[p8] == fr[0]);
        assert(byte_at(b, p8) == Some(46u8));
    }
}

/// ISO times of day round trip: parsing the rendering of any time of day
/// with the shortest exact fraction (what `to_iso` writes) or with all nine
/// fraction digits gives back the same nanosecond of the day.
pub proof fn law_time_iso_round_trip(n: int, f: FractionDigits)
    requires
        0 <= n < 86_400_000_000_000,
        f == FractionDigits::Auto || f == FractionDigits::Nano,
    ensures
        time_iso_outcome(time_iso_text(n, f)) == Ok::<int, crate::scan::Fail>(n),
{
    let b = time_iso_text(n, f);
    assert(b.subrange(0, b.len() as int) =~= b);
    lemma_scan_time_text(b, 0, n, f);
    lemma_hms_parts(n);
}

/// The fields of an offset magnitude below a day recombine to it.
proof fn lemma_offset_fields(abs: int)
    requires
        0 <= abs < 86_400,
    ensures
        abs / 3600 <= 23,
        (abs % 3600) / 60 <= 59,
        abs % 60 <= 59,
        (abs / 3600) * 3600 + ((abs % 3600) / 60) * 60 + abs % 60 == abs,
{
    vstd::arithmetic::div_mod::lemma_fundamental_div_mod(abs, 3600);
    vstd::arithmetic::div_mod::lemma_fundamental_div_mod(abs % 3600, 60);
    vstd::arithmetic::div_mod::lemma_mod_mod(abs, 60, 60);
}

/// Scanning a rendered offset that ends the input at `pos` of `b` gives
/// back its seconds.
#[verifier::spinoff_prover]
proof fn lemma_scan_offset_text(b: Seq<u8>, pos: int, secs: int)
    requires
        -86_400 < secs < 86_400,
        0 <= pos,
        b.len() == pos + offset_text(secs).len(),
        b.subrange(pos, b.len() as int) == offset_text(secs),
    ensures
        scan_offset(b, pos) == Ok::<(i32, int), crate::scan::Fail>((secs as i32, b.len() as int)),
{
    let o = offset_text(secs);
    assert(b[pos] == o[0]);
    if secs != 0 {
        let abs = if secs < 0 { -secs } else { secs };
        lemma_offset_fields(abs);
        let hh = abs / 3600;
        let mm = (abs % 3600) / 60;
        let ss = abs % 60;
        lemma_pow10_7();
        lemma_dec_padded(hh as nat, 2);
        lemma_dec_padded(mm as nat, 2);
        lemma_dec_padded(ss as nat, 2);
        let hs = dec_padded(hh as nat, 2);
        let ms = dec_padded(mm as nat, 2);
        let ss_t = dec_padded(ss as nat, 2);
        assert(b.subrange(pos + 1, pos + 3) =~= hs) by {
            assert(b[pos + 1] == o[1] && b[pos + 2] == o[2]);
        }
        lemma_scan_block(b, pos + 1, hs, 2, 2);
        assert(b[pos + 3] == o[3]);
        assert(scan_offset_minutes(b, pos + 3) == Ok::<(int, int), crate::scan::Fail>((mm, pos + 6))) by {
            assert(b.subrange(pos + 4, pos + 6) =~= ms) by {
                assert(b[pos + 4] == o[4] && b[pos + 5] == o[5]);
            }
            lemma_scan_block(b, pos + 4, ms, 2, 2);
        }
        if ss != 0 {
            assert(b[pos + 6] == o[6]);
            assert(b.subrange(pos + 7, pos + 9) =~= ss_t) by {
                assert(b[pos + 7] == o[7] && b[pos + 8] == o[8]);
            }
            lemma_scan_block(b, pos + 7, ss_t, 2, 2);
            assert(scan_offset_seconds(b, pos + 6) == Ok::<(int, int), crate::scan::Fail>((ss, pos + 9)));
        } else {
            assert(scan_offset_seconds(b, pos + 6) == Ok::<(int, int), crate::scan::Fail>((0, pos + 6)));
        }
    }
}

/// ISO offsets round trip: parsing the rendering of any valid offset gives
/// back the same seconds.
pub proof fn law_offset_iso_round_trip(secs: int)
    requires
        -86_400 < secs < 86_400,
    ensures
        offset_iso_outcome(offset_text(secs)) == Ok::<int, crate::scan::Fail>(secs),
{
    let b = offset_text(secs);
    assert(b.subrange(0, b.len() as int) =~= b);
    lemma_scan_offset_text(b, 0, secs);
}

/// The optional time section, when a rendered time of day follows the
/// separator at `p`.
#[verifier::spinoff_prover]
proof fn lemma_scan_iso_time_text(b: Seq<u8>, p: int, n: int, f: FractionDigits)
    requires
        0 <= n < 86_400_000_000_000,
        time_sep_at(b, p),
        scan_time(b, p + 1) == Ok::<((u32, u32, u32, u32), int), crate::scan::Fail>(
            (
                (
                    (n / 3_600_000_000_000) as u32,
                    ((n / 60_000_000_000) % 60) as u32,
                    ((n / 1_000_000_000) % 60) as u32,
                    (n % 1_000_000_000) as u32,
                ),
                p + 1 + time_iso_text(n, f).len(),
            ),
        ),
    ensures
        scan_iso_time(b, p) == Ok::<(Option<int>, int), crate::scan::Fail>(
            (Some(n), p + 1 + time_iso_text(n, f).len()),
        ),
{
    lemma_hms_parts(n);
}

/// The civil part of a rendering, with the separator `x` (`T`, `t` or a
/// space) between date and time.
pub open spec fn civil_text_sep(v: (int, int), f: FractionDigits, x: u8) -> Seq<u8> {
    date_iso_text(v.0) + seq![x] + time_iso_text(v.1, f)
}

/// Scanning the civil part (`date <sep> time`) of a rendering that is
/// followed by nothing or by an offset designator.
#[verifier::rlimit(80)]
#[verifier::spinoff_prover]
proof fn lemma_scan_civil_sep(v: (int, int), f: FractionDigits, x: u8, c: Seq<u8>)
    requires
        i32::MIN <= v.0 <= i32::MAX,
        0 <= v.1 < 86_400_000_000_000,
        f == FractionDigits::Auto || f == FractionDigits::Nano,
        x == 84u8 || x == 116u8 || x == 32u8,
        c.len() == 0 || c[0] == 90u8 || c[0] == 43u8 || c[0] == 45u8,
    ensures
        ({
            let ymd = ymd_of_days(v.0);
            &&& scan_date(civil_text_sep(v, f, x) + c, 0) == Ok::<
                ((i32, u32, u32), int),
                crate::scan::Fail,
            >(((ymd.0 as i32, ymd.1 as u32, ymd.2 as u32), date_iso_text(v.0).len() as int))
            &&& ymd_outcome(ymd.0, ymd.1, ymd.2) == Ok::<int, &'static str>(v.0)
            &&& -10_000_000 < ymd.0 < 10_000_000
            &&& 1 <= ymd.1 <= 12
            &&& 1 <= ymd.2 <= 31
        }),
        time_sep_at(civil_text_sep(v, f, x) + c, date_iso_text(v.0).len() as int),
        scan_iso_time(civil_text_sep(v, f, x) + c, date_iso_text(v.0).len() as int) == Ok::<
            (Option<int>, int),
            crate::scan::Fail,
        >((Some(v.1), civil_text_sep(v, f, x).len() as int)),
{
    lemma_ymd_of_days(v.0);
    lemma_date_year_bound(v.0);
    let (y, m, d) = ymd_of_days(v.0);
    let ds = date_iso_text(v.0);
    let ts = time_iso_text(v.1, f);
    let tee: Seq<u8> = seq![x];
    let b = civil_text_sep(v, f, x) + c;
    assert(ds == date_text(y, m, d));
    assert(b =~= date_text(y, m, d) + (tee + ts + c));
    assert(!is_digit(x));
    lemma_scan_date_text(y, m, d, tee + ts + c);
    assert(ymd_outcome(y, m, d) == Ok::<int, &'static str>(v.0));
    let p0: int = ds.len() as int + 1;
    assert(b[ds.len() as int] == x);
    assert(b =~= (ds + tee) + ts + c);
    lemma_block_at(ds + tee, ts, c);
    lemma_scan_time_text(b, p0, v.1, f);
    lemma_scan_iso_time_text(b, ds.len() as int, v.1, f);
}

/// Scanning the civil part (`date T time`) of a rendering that is followed
/// by nothing or by an offset designator.
proof fn lemma_scan_civil_text(v: (int, int), f: FractionDigits, c: Seq<u8>)
    requires
        i32::MIN <= v.0 <= i32::MAX,
        0 <= v.1 < 86_400_000_000_000,
        f == FractionDigits::Auto || f == FractionDigits::Nano,
        c.len() == 0 || c[0] == 90u8 || c[0] == 43u8 || c[0] == 45u8,
    ensures
        ({
            let ymd = ymd_of_days(v.0);
            &&& scan_date(civil_text(v, f) + c, 0) == Ok::<((i32, u32, u32), int), crate::scan::Fail>(
                ((ymd.0 as i32, ymd.1 as u32, ymd.2 as u32), date_iso_text(v.0).len() as int),
            )
            &&& ymd_outcome(ymd.0, ymd.1, ymd.2) == Ok::<int, &'static str>(v.0)
            &&& -10_000_000 < ymd.0 < 10_000_000
            &&& 1 <= ymd.1 <= 12
            &&& 1 <= ymd.2 <= 31
        }),
        time_sep_at(civil_text(v, f) + c, date_iso_text(v.0).len() as int),
        scan_iso_time(civil_text(v, f) + c, date_iso_text(v.0).len() as int) == Ok::<
            (Option<int>, int),
            crate::scan::Fail,
        >((Some(v.1), civil_text(v, f).len() as int)),
{
    assert(civil_text(v, f) == civil_text_sep(v, f, 84u8));
    lemma_scan_civil_sep(v, f, 84u8, c);
}

/// A rendering with the separator `x` and an offset parses back.
#[verifier::rlimit(80)]
#[verifier::spinoff_prover]
proof fn lemma_sep_with_offset(v: (int, int), secs: int, f: FractionDigits, x: u8)
    requires
        i32::MIN <= v.0 <= i32::MAX,
        0 <= v.1 < 86_400_000_000_000,
        -86_400 < secs < 86_400,
        f == FractionDigits::Auto || f == FractionDigits::Nano,
        x == 84u8 || x == 116u8 || x == 32u8,
    ensures
        scan_iso(civil_text_sep(v, f, x) + offset_text(secs), true, true) == Ok::<
            (int, Option<int>, Option<i32>),
            crate::scan::Fail,
        >((v.0, Some(v.1), Some(secs as i32))),
{
    let o = offset_text(secs);
    let ct = civil_text_sep(v, f, x);
    let b = ct + o;
    assert(o[0] == 90u8 || o[0] == 43u8 || o[0] == 45u8);
    lemma_scan_civil_sep(v, f, x, o);
    assert(offset_sign_at(b, ct.len() as int)) by {
        assert(b[ct.len() as int] == o[0]);
    }
    assert(b.subrange(ct.len() as int, b.len() as int) =~= o);
    lemma_scan_offset_text(b, ct.len() as int, secs);
    assert(scan_iso_offset(b, ct.len() as int) == Ok::<(Option<i32>, int), crate::scan::Fail>(
        (Some(secs as i32), b.len() as int),
    ));
}

/// A rendering with the separator `x` and no offset parses back.
#[verifier::spinoff_prover]
proof fn lemma_sep_without_offset(v: (int, int), f: FractionDigits, x: u8)
    requires
        i32::MIN <= v.0 <= i32::MAX,
        0 <= v.1 < 86_400_000_000_000,
        f == FractionDigits::Auto || f == FractionDigits::Nano,
        x == 84u8 || x == 116u8 || x == 32u8,
    ensures
        scan_iso(civil_text_sep(v, f, x), true, false) == Ok::<
            (int, Option<int>, Option<i32>),
            crate::scan::Fail,
        >((v.0, Some(v.1), None)),
{
    let e = Seq::<u8>::empty();
    assert(civil_text_sep(v, f, x) + e =~= civil_text_sep(v, f, x));
    lemma_scan_civil_sep(v, f, x, e);
}

/// RFC 3339 (section 5.6) lets `t` or a space stand for the `T` between
/// date and time: a rendering written with any of the three separators
/// parses to the same day, time of day and offset as with `T`, with or
/// without the offset.
pub proof fn law_date_time_separators(v: (int, int), secs: int, f: FractionDigits, x: u8)
    requires
        i32::MIN <= v.0 <= i32::MAX,
        0 <= v.1 < 86_400_000_000_000,
        -86_400 < secs < 86_400,
        f == FractionDigits::Auto || f == FractionDigits::Nano,
        x == 84u8 || x == 116u8 || x == 32u8,
    ensures
        scan_iso(civil_text_sep(v, f, x) + offset_text(secs), true, true) == Ok::<
            (int, Option<int>, Option<i32>),
            crate::scan::Fail,
        >((v.0, Some(v.1), Some(secs as i32))),
        scan_iso(civil_text_sep(v, f, x) + offset_text(secs), true, true) == scan_iso(
            rfc3339_text(v, secs, f),
            true,
            true,
        ),
        scan_iso(civil_text_sep(v, f, x), true, false) == Ok::<
            (int, Option<int>, Option<i32>),
            crate::scan::Fail,
        >((v.0, Some(v.1), None)),
{
    law_rfc3339_round_trip(v, secs, f);
    lemma_sep_with_offset(v, secs, f, x);
    lemma_sep_without_offset(v, f, x);
}

/// ISO date-times round trip: parsing the rendering of any civil reading in
/// the date range (with the shortest exact fraction, or all nine digits)
/// gives back the same day and time of day, and no offset.
pub proof fn law_civil_iso_round_trip(v: (int, int), f: FractionDigits)
    requires
        i32::MIN <= v.0 <= i32::MAX,
        0 <= v.1 < 86_400_000_000_000,
        f == FractionDigits::Auto || f == FractionDigits::Nano,
    ensures
        scan_iso(civil_text(v, f), true, false) == Ok::<
            (int, Option<int>, Option<i32>),
            crate::scan::Fail,
        >((v.0, Some(v.1), None)),
{
    let e = Seq::<u8>::empty();
    assert(civil_text(v, f) + e =~= civil_text(v, f));
    lemma_scan_civil_text(v, f, e);
}

/// RFC 3339 timestamps round trip: parsing the rendering of a civil reading
/// in an offset gives back the day, the time of day and the offset.
#[verifier::rlimit(80)]
#[verifier::spinoff_prover]
pub proof fn law_rfc3339_round_trip(v: (int, int), secs: int, f: FractionDigits)
    requires
        i32::MIN <= v.0 <= i32::MAX,
        0 <= v.1 < 86_400_000_000_000,
        -86_400 < secs < 86_400,
        f == FractionDigits::Auto || f == FractionDigits::Nano,
    ensures
        scan_iso(rfc3339_text(v, secs, f), true, true) == Ok::<
            (int, Option<int>, Option<i32>),
            crate::scan::Fail,
        >((v.0, Some(v.1), Some(secs as i32))),
{
    let o = offset_text(secs);
    let ct = civil_text(v, f);
    let b = rfc3339_text(v, secs, f);
    assert(b == ct + o);
    assert(o[0] == 90u8 || o[0] == 43u8 || o[0] == 45u8);
    lemma_scan_civil_text(v, f, o);
    assert(offset_sign_at(b, ct.len() as int)) by {
        assert(b[ct.len() as int] == o[0]);
    }
    assert(b.subrange(ct.len() as int, b.len() as int) =~= o);
    lemma_scan_offset_text(b, ct.len() as int, secs);
    assert(scan_iso_offset(b, ct.len() as int) == Ok::<(Option<i32>, int), crate::scan::Fail>(
        (Some(secs as i32), b.len() as int),
    ));
}

/// Instants round trip through RFC 3339: parsing the UTC rendering of an
/// instant that has a civil reading (with the shortest exact fraction, or
/// all nine digits) names the same instant.
#[verifier::rlimit(80)]
#[verifier::spinoff_prover]
pub proof fn law_ticks_rfc3339_round_trip(ns: int, f: FractionDigits)
    requires
        fits_i128(ns),
        civil_of_ns(ns, "instant") is Ok,
        f == FractionDigits::Auto || f == FractionDigits::Nano,
    ensures
        rfc3339_instant(ticks_rfc3339_text(ns, f)) == Ok::<int, crate::error::ErrorKind>(ns),
{
    let c = civil_of_ns(ns, "instant")->Ok_0;
    law_utc_projection_round_trip(ns);
    law_rfc3339_round_trip(c, 0, f);
    let text = ticks_rfc3339_text(ns, f);
    assert(text == crate::format::rfc3339_text(c, 0, f));
    let w = scan_iso(text, true, true);
    assert(w == Ok::<(int, Option<int>, Option<i32>), crate::scan::Fail>((c.0, Some(c.1), Some(0i32))));
    assert(shift_outcome(civil_ns(c), 0) == Ok::<int, crate::error::ErrorKind>(ns));
}

/// Zoned instants round trip through RFC 3339: parsing the rendering of an
/// instant in a fixed offset (when its local reading exists) gives back the
/// same offset, and anchoring the parsed local reading in it gives back the
/// same instant.
#[verifier::rlimit(80)]
#[verifier::spinoff_prover]
pub proof fn law_zoned_rfc3339_round_trip(v: (int, int), f: FractionDigits)
    requires
        fits_i128(v.0),
        -86_400 < v.1 < 86_400,
        zoned_civil_outcome(v) is Ok,
        f == FractionDigits::Auto || f == FractionDigits::Nano,
    ensures
        scan_iso(zoned_rfc3339_text(v, f), true, true) is Ok,
        scan_iso(zoned_rfc3339_text(v, f), true, true)->Ok_0.1 is Some,
        scan_iso(zoned_rfc3339_text(v, f), true, true)->Ok_0.2 == Some(v.1 as i32),
        anchor_outcome(
            (
                scan_iso(zoned_rfc3339_text(v, f), true, true)->Ok_0.0,
                scan_iso(zoned_rfc3339_text(v, f), true, true)->Ok_0.1->Some_0,
            ),
            v.1,
        ) == Ok::<int, crate::error::ErrorKind>(v.0),
{
    let ns = shift_outcome(v.0, v.1 * 1_000_000_000)->Ok_0;
    let c = civil_of_ns(ns, "instant")->Ok_0;
    law_utc_projection_round_trip(ns);
    law_rfc3339_round_trip(c, v.1, f);
}

} // verus!
