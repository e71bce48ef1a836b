//! Proleptic Gregorian civil-calendar math.
//!
//! Every function here is plain integer arithmetic on a day count since
//! `1970-01-01`. The leap rules, the day-count inversion and the ISO week
//! projection are spelled out from first principles and proved against a
//! direct counting model of the calendar (see [`days_from_ymd`]).

use vstd::prelude::*;
use vstd::string::StringSliceAdditionalSpecFns;

verus! {

/// Nanoseconds per second.
pub const NS_PER_SEC: i128 = 1_000_000_000;

/// Nanoseconds per minute.
pub const NS_PER_MIN: i128 = 60_000_000_000;

/// Nanoseconds per hour.
pub const NS_PER_HOUR: i128 = 3_600_000_000_000;

/// Nanoseconds per civil day.
pub const NS_PER_DAY: i128 = 86_400_000_000_000;

/// Seconds per civil day.
pub const SECS_PER_DAY: i64 = 86_400;

/// Days from the proleptic `0000-03-01` to 1970-01-01.
pub const DAYS_0000_TO_1970: i64 = 719_468;

/// Days from `0001-01-01` (the Common Era epoch) to 1970-01-01.
pub const DAYS_0001_TO_1970: i64 = 719_162;

// ---------------------------------------------------------------------------
// Floor division
// ---------------------------------------------------------------------------

/// Mathematical floor of `a / b` (`b != 0`).
pub open spec fn fdiv(a: int, b: int) -> int {
    if b > 0 {
        a / b
    } else {
        (-a) / (-b)
    }
}

/// Mathematical floor modulo: `a - b * floor(a / b)`, which has the sign of `b`.
pub open spec fn fmod(a: int, b: int) -> int {
    a - b * fdiv(a, b)
}

/// Quotient rounded toward zero (Rust's `/`) by a positive divisor.
pub open spec fn tdiv(a: int, b: int) -> int {
    if a >= 0 {
        a / b
    } else {
        -((-a) / b)
    }
}

/// Rust's `/` on signed integers: the quotient of the magnitudes, negated
/// when the signs differ (rounding toward zero).
pub open spec fn trunc_div(a: int, b: int) -> int {
    let q = (if a < 0 {
        -a
    } else {
        a
    }) / (if b < 0 {
        -b
    } else {
        b
    });
    if (a < 0) != (b < 0) {
        -q
    } else {
        q
    }
}

/// Floor division: the quotient rounded toward negative infinity.
///
/// `i64::MIN / -1` has no `i64` quotient and is left out.
pub fn floor_div(a: i64, b: i64) -> (q: i64)
    requires
        b != 0,
        !(a == i64::MIN && b == -1),
    ensures
        q == fdiv(a as int, b as int),
        b > 0 ==> q == (a as int) / (b as int),
{
    if b > 0 {
        let q = a / b;
        let r = a % b;
        if r < 0 {
            proof {
                lemma_trunc_neg(a as int, b as int, q as int, r as int);
            }
            q - 1
        } else {
            proof {
                lemma_trunc_nonneg(a as int, b as int, q as int, r as int);
            }
            q
        }
    } else {
        let q = floor_div_ns(-(a as i128), -(b as i128));
        proof {
            lemma_neg_divisor_quotient(a as int, b as int);
        }
        q as i64
    }
}

/// Floor modulo: `a - b * floor(a / b)`, which lies in `0..b` for a positive
/// divisor and in `b+1..=0` for a negative one.
///
/// `i64::MIN % -1` overflows and is left out.
pub fn floor_mod(a: i64, b: i64) -> (m: i64)
    requires
        b != 0,
        !(a == i64::MIN && b == -1),
    ensures
        m == fmod(a as int, b as int),
        b > 0 ==> m == (a as int) % (b as int) && 0 <= m < b,
        b < 0 ==> b < m <= 0,
{
    if b > 0 {
        let q = a / b;
        let r = a % b;
        if r < 0 {
            proof {
                lemma_trunc_neg(a as int, b as int, q as int, r as int);
            }
            r + b
        } else {
            proof {
                lemma_trunc_nonneg(a as int, b as int, q as int, r as int);
            }
            r
        }
    } else {
        let r = floor_rem_ns(-(a as i128), -(b as i128));
        proof {
            let (aa, bb) = (-(a as int), -(b as int));
            vstd::arithmetic::div_mod::lemma_fundamental_div_mod(aa, bb);
            assert((a as int) - (b as int) * (aa / bb) == -(aa % bb)) by (nonlinear_arith)
                requires aa == bb * (aa / bb) + aa % bb, aa == -(a as int), bb == -(b as int);
        }
        -(r as i64)
    }
}

/// By a negative divisor the floor quotient is that of the negated operands,
/// and it fits in `i64` unless the division is `i64::MIN / -1`.
proof fn lemma_neg_divisor_quotient(a: int, b: int)
    requires
        i64::MIN <= a <= i64::MAX,
        i64::MIN <= b < 0,
        !(a == i64::MIN && b == -1),
    ensures
        i64::MIN <= (-a) / (-b) <= i64::MAX,
{
    let q = (-a) / (-b);
    if -a >= 0 {
        vstd::arithmetic::div_mod::lemma_div_pos_is_pos(-a, -b);
        vstd::arithmetic::div_mod::lemma_div_is_ordered_by_denominator(-a, 1, -b);
        if b == -1 {
            assert(q == -a);
        } else {
            vstd::arithmetic::div_mod::lemma_div_is_ordered_by_denominator(-a, 2, -b);
            assert((-a) / 2 <= i64::MAX);
        }
    } else {
        lemma_floor_div_neg_bounds(-a, -b);
    }
}

proof fn lemma_trunc_nonneg(a: int, b: int, q: int, r: int)
    requires
        b > 0,
        a >= 0 ==> q == a / b && r == a % b,
        a < 0 ==> q == -((-a) / b) && r == -((-a) % b),
        r >= 0,
    ensures
        a / b == q,
        a % b == r,
        fdiv(a, b) == q,
        fmod(a, b) == r,
{
    if a < 0 {
        vstd::arithmetic::div_mod::lemma_fundamental_div_mod(-a, b);
        assert((-a) % b == 0);
        assert(a == b * q) by (nonlinear_arith)
            requires -a == b * ((-a) / b) + (-a) % b, (-a) % b == 0, q == -((-a) / b);
        vstd::arithmetic::div_mod::lemma_fundamental_div_mod_converse(a, b, q, 0);
    }
    vstd::arithmetic::div_mod::lemma_fundamental_div_mod(a, b);
}

proof fn lemma_trunc_neg(a: int, b: int, q: int, r: int)
    requires
        b > 0,
        a >= 0 ==> q == a / b && r == a % b,
        a < 0 ==> q == -((-a) / b) && r == -((-a) % b),
        r < 0,
    ensures
        a < 0,
        a / b == q - 1,
        a % b == r + b,
        fdiv(a, b) == q - 1,
        fmod(a, b) == r + b,
        q - 1 >= a,
{
    if a >= 0 {
        vstd::arithmetic::div_mod::lemma_mod_pos_bound(a, b);
    }
    vstd::arithmetic::div_mod::lemma_fundamental_div_mod(-a, b);
    assert(a == b * (q - 1) + (r + b)) by (nonlinear_arith)
        requires -a == b * ((-a) / b) + (-a) % b, q == -((-a) / b), r == -((-a) % b);
    vstd::arithmetic::div_mod::lemma_fundamental_div_mod_converse(a, b, q - 1, r + b);
    assert(a >= b * a) by (nonlinear_arith)
        requires a < 0, b >= 1;
    assert(b * (q - 1) > b * (a - 1)) by (nonlinear_arith)
        requires a == b * (q - 1) + (r + b), 0 <= r + b < b, a >= b * a;
    assert(q - 1 >= a) by (nonlinear_arith)
        requires b * (q - 1) > b * (a - 1), b >= 1;
}

/// Floor division of a timeline quantity (`i128` nanoseconds) by a positive
/// `unit`.
pub fn floor_div_ns(ns: i128, unit: i128) -> (q: i128)
    requires
        unit > 0,
    ensures
        q == (ns as int) / (unit as int),
{
    if ns >= 0 {
        ns / unit
    } else {
        proof {
            lemma_floor_div_neg_bounds(ns as int, unit as int);
        }
        match ns.checked_div_euclid(unit) {
            Some(q) => q,
            None => 0,
        }
    }
}

/// Floor remainder of a timeline quantity by a positive `unit`, in `0..unit`.
pub fn floor_rem_ns(ns: i128, unit: i128) -> (r: i128)
    requires
        unit > 0,
    ensures
        r == (ns as int) % (unit as int),
        0 <= r < unit,
{
    if ns >= 0 {
        ns % unit
    } else {
        match ns.checked_rem_euclid(unit) {
            Some(r) => r,
            None => 0,
        }
    }
}

/// A negative numerator divided by a positive divisor stays in `[a, 0)`.
proof fn lemma_floor_div_neg_bounds(a: int, b: int)
    requires
        a < 0,
        b >= 1,
    ensures
        a <= a / b < 0,
{
    vstd::arithmetic::div_mod::lemma_fundamental_div_mod(a, b);
    let q = a / b;
    let r = a % b;
    assert(0 <= r < b);
    assert(q < 0) by (nonlinear_arith)
        requires a == b * q + r, 0 <= r < b, a < 0, b >= 1;
    assert(a >= b * a) by (nonlinear_arith)
        requires a < 0, b >= 1;
    assert(b * q > b * (a - 1)) by (nonlinear_arith)
        requires a == b * q + r, 0 <= r < b, a >= b * a;
    assert(q >= a) by (nonlinear_arith)
        requires b * q > b * (a - 1), b >= 1;
}

/// Decompose nanoseconds since the Unix epoch into `(floor_days, ns_of_day)`
/// with `ns_of_day` in `0..NS_PER_DAY`.
pub fn ns_divmod_day(ns: i128) -> (r: (i128, i128))
    ensures
        r.0 == (ns as int) / (NS_PER_DAY as int),
        r.1 == (ns as int) % (NS_PER_DAY as int),
        0 <= r.1 < NS_PER_DAY,
        ns == r.0 * NS_PER_DAY + r.1,
{
    let d = floor_div_ns(ns, NS_PER_DAY);
    let r = floor_rem_ns(ns, NS_PER_DAY);
    proof {
        vstd::arithmetic::div_mod::lemma_fundamental_div_mod(ns as int, NS_PER_DAY as int);
    }
    (d, r)
}

// ---------------------------------------------------------------------------
// The counting model of the calendar
// ---------------------------------------------------------------------------

/// The proleptic Gregorian leap rule.
pub open spec fn is_leap(y: int) -> bool {
    y % 4 == 0 && (y % 100 != 0 || y % 400 == 0)
}

/// Length of month `m` (1-based) of year `y`; `0` for an invalid month.
pub open spec fn month_len(y: int, m: int) -> int {
    if m == 1 || m == 3 || m == 5 || m == 7 || m == 8 || m == 10 || m == 12 {
        31
    } else if m == 4 || m == 6 || m == 9 || m == 11 {
        30
    } else if m == 2 {
        if is_leap(y) {
            29
        } else {
            28
        }
    } else {
        0
    }
}

/// Length of year `y` in days.
pub open spec fn year_len(y: int) -> int {
    if is_leap(y) {
        366
    } else {
        365
    }
}

/// A valid civil date: a month in `1..=12` and a day inside that month.
pub open spec fn valid_ymd(y: int, m: int, d: int) -> bool {
    1 <= m <= 12 && 1 <= d <= month_len(y, m)
}

/// Number of leap years in `[0, y)` (negated count of `[y, 0)` when `y < 0`).
pub open spec fn leaps_before(y: int) -> int {
    (y + 3) / 4 - (y + 99) / 100 + (y + 399) / 400
}

/// Days in a common year before the first of month `m`.
pub open spec fn common_month_start(m: int) -> int {
    if m <= 1 {
        0
    } else if m == 2 {
        31
    } else if m == 3 {
        59
    } else if m == 4 {
        90
    } else if m == 5 {
        120
    } else if m == 6 {
        151
    } else if m == 7 {
        181
    } else if m == 8 {
        212
    } else if m == 9 {
        243
    } else if m == 10 {
        273
    } else if m == 11 {
        304
    } else {
        334
    }
}

/// Days of year `y` before the first of month `m`.
pub open spec fn days_before_month(y: int, m: int) -> int {
    common_month_start(m) + if m > 2 && is_leap(y) {
        1int
    } else {
        0int
    }
}

/// Days from `1970-01-01` to `y-m-d`: whole years since `0000-01-01`, their
/// leap days, the months before `m`, and the days before `d`.
pub open spec fn days_from_ymd(y: int, m: int, d: int) -> int {
    365 * y + leaps_before(y) + days_before_month(y, m) + d - 1 - 719_528
}

/// Whether `year` is a leap year in the proleptic Gregorian calendar.
pub fn is_leap_year(year: i32) -> (b: bool)
    ensures
        b == is_leap(year as int),
{
    proof {
        lemma_rem_zero_neg(year as int, 4);
        lemma_rem_zero_neg(year as int, 100);
        lemma_rem_zero_neg(year as int, 400);
    }
    let r4 = year % 4;
    let r100 = year % 100;
    let r400 = year % 400;
    proof {
        if year < 0 {
            assert(r4 == -((-(year as int)) % 4));
            assert(r100 == -((-(year as int)) % 100));
            assert(r400 == -((-(year as int)) % 400));
        }
    }
    r4 == 0 && (r100 != 0 || r400 == 0)
}

/// `b` divides `a` exactly when it divides `-a`.
proof fn lemma_rem_zero_neg(a: int, b: int)
    requires
        b > 0,
    ensures
        (a % b == 0) == ((-a) % b == 0),
{
    vstd::arithmetic::div_mod::lemma_fundamental_div_mod(a, b);
    vstd::arithmetic::div_mod::lemma_fundamental_div_mod(-a, b);
    if a % b == 0 {
        let q = a / b;
        assert(-a == b * (-q) + 0) by (nonlinear_arith)
            requires a == b * q + 0;
        vstd::arithmetic::div_mod::lemma_fundamental_div_mod_converse(-a, b, -q, 0);
    }
    if (-a) % b == 0 {
        let q = (-a) / b;
        assert(a == b * (-q) + 0) by (nonlinear_arith)
            requires -a == b * q + 0;
        vstd::arithmetic::div_mod::lemma_fundamental_div_mod_converse(a, b, -q, 0);
    }
}

/// Number of days in `month` (1-based) of `year`; `0` for an invalid month.
pub fn days_in_month(year: i32, month: u32) -> (n: u32)
    ensures
        n == month_len(year as int, month as int),
{
    match month {
        1 | 3 | 5 | 7 | 8 | 10 | 12 => 31,
        4 | 6 | 9 | 11 => 30,
        2 => {
            if is_leap_year(year) {
                29
            } else {
                28
            }
        },
        _ => 0,
    }
}

/// Number of days in `year`.
pub fn days_in_year(year: i32) -> (n: u32)
    ensures
        n == year_len(year as int),
{
    if is_leap_year(year) {
        366
    } else {
        365
    }
}

// ---------------------------------------------------------------------------
// Era decomposition: the 400-year cycle of 146 097 days
// ---------------------------------------------------------------------------

/// Day count via the 400-year era decomposition with March-based years: the
/// shape in which [`days_from_civil`] computes it.
pub open spec fn era_days(y: int, m: int, d: int) -> int {
    let yp = if m <= 2 {
        y - 1
    } else {
        y
    };
    let era = yp / 400;
    let yoe = yp % 400;
    let mp = if m > 2 {
        m - 3
    } else {
        m + 9
    };
    let doy = (153 * mp + 2) / 5 + d - 1;
    let doe = yoe * 365 + yoe / 4 - yoe / 100 + doy;
    era * 146_097 + doe - 719_468
}

/// `(c * e + k) / c == e + k / c` for a positive divisor.
proof fn lemma_div_shift(k: int, e: int, c: int)
    requires
        c > 0,
    ensures
        (c * e + k) / c == e + k / c,
        (c * e + k) % c == k % c,
{
    vstd::arithmetic::div_mod::lemma_fundamental_div_mod(k, c);
    let q = k / c;
    let r = k % c;
    assert(c * e + k == c * (e + q) + r) by (nonlinear_arith)
        requires k == c * q + r;
    vstd::arithmetic::div_mod::lemma_fundamental_div_mod_converse(c * e + k, c, e + q, r);
}

/// Inside one 400-year era the leap-day count of the counting model and the
/// March-based era formula agree.
proof fn lemma_year_of_era(yoe: int)
    requires
        0 <= yoe < 400,
    ensures
        (yoe + 3) / 4 - (yoe + 99) / 100 + (yoe + 399) / 400 + (if is_leap(yoe) {
            1int
        } else {
            0int
        }) - 1 == yoe / 4 - yoe / 100,
        (yoe + 4) / 4 == yoe / 4 + 1,
        (yoe + 100) / 100 == yoe / 100 + 1,
        (yoe + 400) / 400 == 1,
{
    lemma_div_shift(yoe, 1, 4);
    lemma_div_shift(yoe, 1, 100);
    lemma_div_shift(yoe, 1, 400);
    assert(yoe / 400 == 0);
    if yoe == 0 {
    } else {
        assert((yoe + 399) / 400 == 1);
    }
}

/// The leap count shifts by whole eras: `leaps_before(400 e + k)` is
/// `97 e + leaps_before(k)`, and the leap rule is 400-periodic.
proof fn lemma_leaps_before_era(e: int, k: int)
    ensures
        leaps_before(400 * e + k) == 97 * e + leaps_before(k),
        is_leap(400 * e + k) == is_leap(k),
{
    assert(400 * e + k + 3 == 4 * (100 * e) + (k + 3));
    lemma_div_shift(k + 3, 100 * e, 4);
    assert(400 * e + k + 99 == 100 * (4 * e) + (k + 99));
    lemma_div_shift(k + 99, 4 * e, 100);
    lemma_div_shift(k + 399, e, 400);
    assert(400 * e + k == 4 * (100 * e) + k);
    lemma_div_shift(k, 100 * e, 4);
    assert(400 * e + k == 100 * (4 * e) + k);
    lemma_div_shift(k, 4 * e, 100);
    lemma_div_shift(k, e, 400);
}

/// The March-based month table: `(153 * mp + 2) / 5` is the day offset of
/// March-based month `mp` from March 1.
proof fn lemma_month_table(m: int)
    requires
        1 <= m <= 12,
    ensures
        m > 2 ==> (153 * (m - 3) + 2) / 5 == common_month_start(m) - 59,
        m <= 2 ==> (153 * (m + 9) + 2) / 5 == common_month_start(m) + 306,
{
}

/// The era formula computes the counting model's day number.
pub proof fn lemma_era_days_matches(y: int, m: int, d: int)
    requires
        1 <= m <= 12,
    ensures
        era_days(y, m, d) == days_from_ymd(y, m, d),
{
    let yp = if m <= 2 {
        y - 1
    } else {
        y
    };
    let era = yp / 400;
    let yoe = yp % 400;
    vstd::arithmetic::div_mod::lemma_fundamental_div_mod(yp, 400);
    assert(yp == 400 * era + yoe);
    assert(0 <= yoe < 400);
    lemma_month_table(m);
    lemma_year_of_era(yoe);
    if m > 2 {
        lemma_leaps_before_era(era, yoe);
    } else {
        lemma_leaps_before_era(era, yoe + 1);
        assert(y == 400 * era + (yoe + 1));
    }
}

/// Days since `1970-01-01` for a valid civil date `(year, month, day)`.
///
/// The proleptic Gregorian calendar includes year 0 (1 BCE), so negative
/// years are meaningful.
pub fn days_from_civil(year: i32, month: u32, day: u32) -> (z: i64)
    requires
        valid_ymd(year as int, month as int, day as int),
    ensures
        z == days_from_ymd(year as int, month as int, day as int),
{
    let y = year as i64;
    let m = month as i64;
    let d = day as i64;
    // Shift January/February into the previous year so March is month 0;
    // this makes the leap-day adjustment uniform across the year.
    let y = if m <= 2 {
        y - 1
    } else {
        y
    };
    let era = floor_div(y, 400);
    let yoe = y - era * 400;  // year-of-era, [0, 399]
    let mp = if m > 2 {
        m - 3
    } else {
        m + 9
    };  // month index, [0, 11]
    let doy = (153 * mp + 2) / 5 + d - 1;  // day-of-year, 0-based, March = 0
    proof {
        vstd::arithmetic::div_mod::lemma_fundamental_div_mod(y as int, 400);
    }
    let doe = yoe * 365 + yoe / 4 - yoe / 100 + doy;  // day-of-era, 0-based
    proof {
        lemma_era_days_matches(year as int, month as int, day as int);
    }
    era * 146_097 + doe - DAYS_0000_TO_1970
}

/// Start of year-of-era `k` (March-based) in days from the era's March 1.
pub open spec fn era_year_start(k: int) -> int {
    365 * k + k / 4 - k / 100 + k / 400
}

/// Start of March-based month `mp` in days from March 1.
pub open spec fn march_month_start(mp: int) -> int {
    (153 * mp + 2) / 5
}

/// The year-of-era estimate brackets `doe` between consecutive year starts
/// (every quotient is given by its defining inequalities).
#[verifier::rlimit(60)]
#[verifier::spinoff_prover]
proof fn lemma_year_of_era_linear(
    doe: int,
    q4: int,
    q100: int,
    q400: int,
    y: int,
    y4: int,
    y100: int,
    z4: int,
    z100: int,
    z400: int,
)
    requires
        0 <= doe <= 146_096,
        1460 * q4 <= doe < 1460 * q4 + 1460,
        36_524 * q100 <= doe < 36_524 * q100 + 36_524,
        146_096 * q400 <= doe < 146_096 * q400 + 146_096,
        365 * y <= doe - q4 + q100 - q400 < 365 * y + 365,
        4 * y4 <= y < 4 * y4 + 4,
        100 * y100 <= y < 100 * y100 + 100,
        4 * z4 <= y + 1 < 4 * z4 + 4,
        100 * z100 <= y + 1 < 100 * z100 + 100,
        400 * z400 <= y + 1 < 400 * z400 + 400,
    ensures
        0 <= y <= 399,
        365 * y + y4 - y100 <= doe,
        doe < 365 * (y + 1) + z4 - z100 + z400,
{
}

/// Stepping a numerator by one moves the floor quotient by one exactly at a
/// multiple of the divisor.
proof fn lemma_div_step(k: int, c: int)
    requires
        c > 0,
    ensures
        (k + 1) / c - k / c == if (k + 1) % c == 0 {
            1int
        } else {
            0int
        },
{
    vstd::arithmetic::div_mod::lemma_fundamental_div_mod(k, c);
    vstd::arithmetic::div_mod::lemma_fundamental_div_mod(k + 1, c);
    let q = k / c;
    let r = k % c;
    if r + 1 == c {
        assert(k + 1 == c * (q + 1) + 0) by (nonlinear_arith)
            requires k == c * q + r, r + 1 == c;
        vstd::arithmetic::div_mod::lemma_fundamental_div_mod_converse(k + 1, c, q + 1, 0);
    } else {
        vstd::arithmetic::div_mod::lemma_mod_bound(k, c);
        assert(k + 1 == q * c + (r + 1)) by (nonlinear_arith)
            requires k == c * q + r;
        vstd::arithmetic::div_mod::lemma_fundamental_div_mod_converse(k + 1, c, q, r + 1);
    }
}

/// A multiple of 100 is a multiple of 4, and a multiple of 400 is a multiple
/// of 100.
proof fn lemma_divisibility_chain(y: int)
    ensures
        y % 100 == 0 ==> y % 4 == 0,
        y % 400 == 0 ==> y % 100 == 0,
{
    vstd::arithmetic::div_mod::lemma_fundamental_div_mod(y, 100);
    vstd::arithmetic::div_mod::lemma_fundamental_div_mod(y, 400);
    if y % 100 == 0 {
        let q = y / 100;
        assert(y == 4 * (25 * q) + 0);
        vstd::arithmetic::div_mod::lemma_fundamental_div_mod_converse(y, 4, 25 * q, 0);
    }
    if y % 400 == 0 {
        let q = y / 400;
        assert(y == 100 * (4 * q) + 0);
        vstd::arithmetic::div_mod::lemma_fundamental_div_mod_converse(y, 100, 4 * q, 0);
    }
}

/// The first day of year `y` in the counting model.
pub open spec fn year_start(y: int) -> int {
    days_from_ymd(y, 1, 1)
}

/// Consecutive year starts differ by the length of the year.
pub proof fn lemma_year_start_step(y: int)
    ensures
        year_start(y + 1) == year_start(y) + year_len(y),
{
    lemma_div_step(y + 3, 4);
    lemma_div_step(y + 99, 100);
    lemma_div_step(y + 399, 400);
    lemma_div_shift(y, 1, 4);
    lemma_div_shift(y, 1, 100);
    lemma_div_shift(y, 1, 400);
    assert(y + 4 == 4 * 1 + y);
    assert(y + 100 == 100 * 1 + y);
    assert(y + 400 == 400 * 1 + y);
    lemma_divisibility_chain(y);
}

/// Year starts grow by at least 365 days per year.
pub proof fn lemma_year_start_mono(y1: int, y2: int)
    requires
        y1 <= y2,
    ensures
        year_start(y2) - year_start(y1) >= 365 * (y2 - y1),
    decreases y2 - y1,
{
    if y1 < y2 {
        lemma_year_start_mono(y1, y2 - 1);
        lemma_year_start_step(y2 - 1);
    }
}

/// A valid date lies inside its year.
pub proof fn lemma_date_in_year(y: int, m: int, d: int)
    requires
        valid_ymd(y, m, d),
    ensures
        year_start(y) <= days_from_ymd(y, m, d) < year_start(y) + year_len(y),
{
}

/// The lowest day count whose civil year fits `i32`.
pub open spec fn min_civil_day() -> int {
    year_start(i32::MIN as int)
}

/// The highest day count whose civil year fits `i32`.
pub open spec fn max_civil_day() -> int {
    days_from_ymd(i32::MAX as int, 12, 31)
}

/// A valid date whose day count lies in the `i32`-year window has an `i32`
/// year.
proof fn lemma_year_fits(y: int, m: int, d: int)
    requires
        valid_ymd(y, m, d),
        min_civil_day() <= days_from_ymd(y, m, d) <= max_civil_day(),
    ensures
        i32::MIN <= y <= i32::MAX,
{
    lemma_date_in_year(y, m, d);
    lemma_date_in_year(i32::MAX as int, 12, 31);
    lemma_year_start_step(i32::MAX as int);
    if y > i32::MAX {
        lemma_year_start_mono(i32::MAX + 1, y);
    }
    if y < i32::MIN {
        lemma_year_start_step(y);
        lemma_year_start_mono(y + 1, i32::MIN as int);
    }
}

/// Year-of-era estimate: `doe` lies between the starts of year-of-era `yoe`
/// and `yoe + 1`.
proof fn lemma_year_of_era_bracket(doe: int, yoe: int)
    requires
        0 <= doe <= 146_096,
        yoe == (doe - doe / 1460 + doe / 36_524 - doe / 146_096) / 365,
    ensures
        0 <= yoe <= 399,
        era_year_start(yoe) <= doe < era_year_start(yoe + 1),
{
    vstd::arithmetic::div_mod::lemma_fundamental_div_mod(doe, 1460);
    vstd::arithmetic::div_mod::lemma_fundamental_div_mod(doe, 36_524);
    vstd::arithmetic::div_mod::lemma_fundamental_div_mod(doe, 146_096);
    vstd::arithmetic::div_mod::lemma_fundamental_div_mod(
        doe - doe / 1460 + doe / 36_524 - doe / 146_096,
        365,
    );
    vstd::arithmetic::div_mod::lemma_fundamental_div_mod(yoe, 4);
    vstd::arithmetic::div_mod::lemma_fundamental_div_mod(yoe, 100);
    vstd::arithmetic::div_mod::lemma_fundamental_div_mod(yoe, 400);
    vstd::arithmetic::div_mod::lemma_fundamental_div_mod(yoe + 1, 4);
    vstd::arithmetic::div_mod::lemma_fundamental_div_mod(yoe + 1, 100);
    vstd::arithmetic::div_mod::lemma_fundamental_div_mod(yoe + 1, 400);
    lemma_year_of_era_linear(
        doe,
        doe / 1460,
        doe / 36_524,
        doe / 146_096,
        yoe,
        yoe / 4,
        yoe / 100,
        (yoe + 1) / 4,
        (yoe + 1) / 100,
        (yoe + 1) / 400,
    );
    assert(yoe / 400 == 0);
}

/// March-based year `yoe` of an era has the length of the calendar year that
/// holds its February.
proof fn lemma_era_year_len(era: int, yoe: int)
    requires
        0 <= yoe <= 399,
    ensures
        era_year_start(yoe + 1) - era_year_start(yoe) == year_len(400 * era + yoe + 1),
{
    lemma_div_step(yoe, 4);
    lemma_div_step(yoe, 100);
    lemma_div_step(yoe, 400);
    lemma_divisibility_chain(yoe + 1);
    lemma_leaps_before_era(era, yoe + 1);
    assert(400 * era + yoe + 1 == 400 * era + (yoe + 1));
}

/// Month estimate: a March-based day-of-year lies in month `mp`.
proof fn lemma_month_bracket(doy: int, mp: int)
    requires
        0 <= doy <= 365,
        mp == (5 * doy + 2) / 153,
    ensures
        0 <= mp <= 11,
        march_month_start(mp) <= doy < march_month_start(mp + 1),
{
    vstd::arithmetic::div_mod::lemma_fundamental_div_mod(5 * doy + 2, 153);
    vstd::arithmetic::div_mod::lemma_fundamental_div_mod(153 * mp + 2, 5);
    vstd::arithmetic::div_mod::lemma_fundamental_div_mod(153 * (mp + 1) + 2, 5);
}

/// The civil date assembled from an era decomposition is valid and lands on
/// the decomposed day count.
proof fn lemma_civil_assembly(days: int, era: int, doe: int, yoe: int, doy: int, mp: int)
    requires
        doe == days + 719_468 - era * 146_097,
        0 <= doe <= 146_096,
        yoe == (doe - doe / 1460 + doe / 36_524 - doe / 146_096) / 365,
        doy == doe - (365 * yoe + yoe / 4 - yoe / 100),
        mp == (5 * doy + 2) / 153,
    ensures
        0 <= yoe <= 399,
        0 <= doy <= 365,
        0 <= mp <= 11,
        ({
            let d = doy - (153 * mp + 2) / 5 + 1;
            let m = if mp < 10 {
                mp + 3
            } else {
                mp - 9
            };
            let y = yoe + era * 400 + if m <= 2 {
                1int
            } else {
                0int
            };
            valid_ymd(y, m, d) && days_from_ymd(y, m, d) == days
        }),
{
    lemma_year_of_era_bracket(doe, yoe);
    assert(yoe / 400 == 0);
    lemma_era_year_len(era, yoe);
    lemma_month_bracket(doy, mp);
    let d = doy - (153 * mp + 2) / 5 + 1;
    let m = if mp < 10 {
        mp + 3
    } else {
        mp - 9
    };
    let y = yoe + era * 400 + if m <= 2 {
        1int
    } else {
        0int
    };
    lemma_leaps_before_era(era, yoe + 1);
    assert(1 <= d <= month_len(y, m));
    let yp = if m <= 2 {
        y - 1
    } else {
        y
    };
    assert(yp == 400 * era + yoe);
    lemma_div_shift(yoe, era, 400);
    assert(era_days(y, m, d) == days);
    lemma_era_days_matches(y, m, d);
}

/// Inverse of [`days_from_civil`]: `(year, month, day)` for a day count.
///
/// The 400-year cycle has exactly 146 097 days; each era is decomposed into a
/// year and a day-of-year, then the day-of-year is decomposed into a month
/// and a day using the `153 * m` table shared with [`days_from_civil`].
pub fn civil_from_days(days: i64) -> (r: (i32, u32, u32))
    requires
        min_civil_day() <= days <= max_civil_day(),
    ensures
        valid_ymd(r.0 as int, r.1 as int, r.2 as int),
        days_from_ymd(r.0 as int, r.1 as int, r.2 as int) == days,
        (r.0 as int, r.1 as int, r.2 as int) == ymd_of_days(days as int),
{
    proof {
        lemma_year_start_mono(i32::MIN as int, 0);
        lemma_year_start_mono(0, i32::MAX as int);
        lemma_date_in_year(i32::MAX as int, 12, 31);
        assert(year_start(0) == -719_528);
    }
    let z = days + DAYS_0000_TO_1970;
    let era = floor_div(z, 146_097);
    proof {
        vstd::arithmetic::div_mod::lemma_fundamental_div_mod(z as int, 146_097);
    }
    let doe = z - era * 146_097;  // [0, 146096]
    // Year-of-era from day-of-era; the correction terms account for the
    // 100-year and 400-year leap rules without branching.
    let yoe = (doe - doe / 1460 + doe / 36_524 - doe / 146_096) / 365;  // [0, 399]
    proof {
        lemma_year_of_era_bracket(doe as int, yoe as int);
    }
    let y = yoe + era * 400;
    let doy = doe - (365 * yoe + yoe / 4 - yoe / 100);  // [0, 365]
    let mp = (5 * doy + 2) / 153;  // [0, 11]
    proof {
        lemma_civil_assembly(days as int, era as int, doe as int, yoe as int, doy as int, mp as int);
        lemma_month_bracket(doy as int, mp as int);
    }
    let d = (doy - (153 * mp + 2) / 5 + 1) as u32;
    let m = if mp < 10 {
        mp + 3
    } else {
        mp - 9
    } as u32;
    let y = if m <= 2 {
        y + 1
    } else {
        y
    };
    proof {
        lemma_year_fits(y as int, m as int, d as int);
        lemma_ymd_of_days_unique(y as int, m as int, d as int);
    }
    (y as i32, m, d)
}

/// Two valid dates with the same day count are the same date.
pub proof fn lemma_days_from_ymd_injective(y1: int, m1: int, d1: int, y2: int, m2: int, d2: int)
    requires
        valid_ymd(y1, m1, d1),
        valid_ymd(y2, m2, d2),
        days_from_ymd(y1, m1, d1) == days_from_ymd(y2, m2, d2),
    ensures
        y1 == y2 && m1 == m2 && d1 == d2,
{
    lemma_date_in_year(y1, m1, d1);
    lemma_date_in_year(y2, m2, d2);
    if y1 < y2 {
        lemma_year_start_step(y1);
        lemma_year_start_mono(y1 + 1, y2);
    } else if y2 < y1 {
        lemma_year_start_step(y2);
        lemma_year_start_mono(y2 + 1, y1);
    }
}

/// The civil date of a day count: the unique valid `(year, month, day)` whose
/// day count is `z`.
pub open spec fn ymd_of_days(z: int) -> (int, int, int) {
    choose|t: (int, int, int)| valid_ymd(t.0, t.1, t.2) && days_from_ymd(t.0, t.1, t.2) == z
}

/// Every day count has a civil date.
pub proof fn lemma_ymd_of_days(z: int)
    ensures
        valid_ymd(ymd_of_days(z).0, ymd_of_days(z).1, ymd_of_days(z).2),
        days_from_ymd(ymd_of_days(z).0, ymd_of_days(z).1, ymd_of_days(z).2) == z,
{
    let zz = z + 719_468;
    let era = zz / 146_097;
    vstd::arithmetic::div_mod::lemma_fundamental_div_mod(zz, 146_097);
    let doe = zz - era * 146_097;
    let yoe = (doe - doe / 1460 + doe / 36_524 - doe / 146_096) / 365;
    let doy = doe - (365 * yoe + yoe / 4 - yoe / 100);
    let mp = (5 * doy + 2) / 153;
    lemma_civil_assembly(z, era, doe, yoe, doy, mp);
    let d = doy - (153 * mp + 2) / 5 + 1;
    let m = if mp < 10 {
        mp + 3
    } else {
        mp - 9
    };
    let y = yoe + era * 400 + if m <= 2 {
        1int
    } else {
        0int
    };
    let t = (y, m, d);
    assert(valid_ymd(t.0, t.1, t.2) && days_from_ymd(t.0, t.1, t.2) == z);
}

/// The civil date of a valid date's day count is that date.
pub proof fn lemma_ymd_of_days_unique(y: int, m: int, d: int)
    requires
        valid_ymd(y, m, d),
    ensures
        ymd_of_days(days_from_ymd(y, m, d)) == (y, m, d),
{
    let z = days_from_ymd(y, m, d);
    lemma_ymd_of_days(z);
    let t = ymd_of_days(z);
    lemma_days_from_ymd_injective(t.0, t.1, t.2, y, m, d);
}

/// Calendar round trip from days: projecting a day count onto the civil
/// calendar and counting back gives the same day count.
pub proof fn law_days_civil_days(z: int)
    ensures
        days_from_ymd(ymd_of_days(z).0, ymd_of_days(z).1, ymd_of_days(z).2) == z,
{
    lemma_ymd_of_days(z);
}

/// Calendar round trip from dates: counting a valid civil date's days and
/// projecting back gives the same date.
pub proof fn law_civil_days_civil(y: int, m: int, d: int)
    requires
        valid_ymd(y, m, d),
    ensures
        ymd_of_days(days_from_ymd(y, m, d)) == (y, m, d),
{
    lemma_ymd_of_days_unique(y, m, d);
}


/// Day counts within `+-5 * 10^11` (about `+-1.3` billion years) have civil
/// years well inside `i32`.
pub proof fn lemma_civil_window(z: int)
    requires
        -500_000_000_000 <= z <= 500_000_000_000,
    ensures
        min_civil_day() + 3 <= z <= max_civil_day() - 3,
{
    lemma_year_start_mono(i32::MIN as int, 0);
    lemma_year_start_mono(0, i32::MAX as int);
    lemma_date_in_year(i32::MAX as int, 12, 31);
    assert(year_start(0) == -719_528);
    assert(days_from_ymd(i32::MAX as int, 12, 31) == year_start(i32::MAX as int) + 364 + (if is_leap(i32::MAX as int) { 1int } else { 0int }));
}

/// Every `i32` year's days lie in the civil window (with three days to spare
/// for the ISO week projection of its last week).
pub proof fn lemma_year_in_window(y: int, m: int, d: int)
    requires
        i32::MIN <= y <= i32::MAX,
        valid_ymd(y, m, d),
    ensures
        min_civil_day() + 3 <= days_from_ymd(y, m, d) <= max_civil_day() - 3 || (y == i32::MAX
            && m == 12 && d > 28) || (y == i32::MIN && m == 1 && d <= 3),
        m == 12 && d == 28 ==> min_civil_day() + 3 <= days_from_ymd(y, m, d) <= max_civil_day()
            - 3,
        m == 1 && d == 4 ==> min_civil_day() + 3 <= days_from_ymd(y, m, d) <= max_civil_day() - 3,
{
    lemma_date_in_year(y, m, d);
    lemma_date_in_year(i32::MAX as int, 12, 31);
    lemma_year_start_mono(i32::MIN as int, y);
    lemma_year_start_mono(y, i32::MAX as int);
    lemma_year_start_step(y);
    if y < i32::MAX {
        lemma_year_start_mono(y + 1, i32::MAX as int);
    }
}

// ---------------------------------------------------------------------------
// Weekdays, ordinals and ISO weeks of day counts
// ---------------------------------------------------------------------------

/// The weekday of a day count: `1970-01-01` (day 0) was a Thursday.
pub open spec fn weekday_of_days(z: int) -> Weekday {
    weekday_at(z + 3)
}

/// The ISO 8601 week date `(iso_year, week)` of a day count: the ISO year is
/// the calendar year of the Thursday of the Monday-to-Sunday week holding
/// `z`, and week 1 is the week holding January 4 of that year.
pub open spec fn iso_week_of_days(z: int) -> (int, int) {
    let thursday = z + 3 - weekday_num(weekday_of_days(z));
    let iso_year = ymd_of_days(thursday).0;
    let jan4 = days_from_ymd(iso_year, 1, 4);
    let monday1 = jan4 - weekday_num(weekday_of_days(jan4));
    (iso_year, (z - monday1) / 7 + 1)
}

/// Weekday of a day count (derived from the anchor that `1970-01-01` was a
/// Thursday).
pub fn weekday_from_civil(days: i64) -> (w: Weekday)
    requires
        days <= i64::MAX - 3,
    ensures
        w == weekday_of_days(days as int),
        weekday_num(w) == (days + 3) % 7,
{
    let k = floor_mod(days + 3, 7);
    proof {
        lemma_weekday_num_at(days + 3);
    }
    match k {
        0 => Weekday::Monday,
        1 => Weekday::Tuesday,
        2 => Weekday::Wednesday,
        3 => Weekday::Thursday,
        4 => Weekday::Friday,
        5 => Weekday::Saturday,
        _ => Weekday::Sunday,
    }
}

/// 1-based day-of-year for a valid civil date.
pub fn day_of_year(year: i32, month: u32, day: u32) -> (n: u32)
    requires
        valid_ymd(year as int, month as int, day as int),
    ensures
        n == days_from_ymd(year as int, month as int, day as int) - year_start(year as int) + 1,
        1 <= n <= year_len(year as int),
{
    proof {
        lemma_date_in_year(year as int, month as int, day as int);
    }
    (days_from_civil(year, month, day) - days_from_civil(year, 1, 1) + 1) as u32
}

/// ISO weeks are numbered 1 to 53.
pub proof fn law_iso_week_in_range(z: int)
    ensures
        1 <= iso_week_of_days(z).1 <= 53,
{
    let wd = weekday_num(weekday_of_days(z));
    lemma_weekday_num_at(z + 3);
    let thursday = z + 3 - wd;
    lemma_ymd_of_days(thursday);
    let t = ymd_of_days(thursday);
    let iy = t.0;
    lemma_date_in_year(t.0, t.1, t.2);
    let jan4 = days_from_ymd(iy, 1, 4);
    assert(jan4 == year_start(iy) + 3);
    let wd4 = weekday_num(weekday_of_days(jan4));
    lemma_weekday_num_at(jan4 + 3);
    let monday1 = jan4 - wd4;
    vstd::arithmetic::div_mod::lemma_fundamental_div_mod(z + 3, 7);
    vstd::arithmetic::div_mod::lemma_fundamental_div_mod(jan4 + 3, 7);
    let q1 = (z + 3) / 7;
    let q2 = (jan4 + 3) / 7;
    assert(z - wd == 7 * q1 - 3);
    assert(monday1 == 7 * q2 - 3);
    assert(-6 <= 7 * (q1 - q2) <= 365);
    assert(0 <= q1 - q2 <= 52);
    assert(z - monday1 == 7 * (q1 - q2) + wd);
    vstd::arithmetic::div_mod::lemma_fundamental_div_mod_converse(z - monday1, 7, q1 - q2, wd);
}

/// ISO 8601 week date `(iso_year, week)` for a valid civil date.
///
/// Week 1 is the week containing the first Thursday; the ISO year therefore
/// differs from the calendar year for the first days of January and the last
/// days of December. The projection goes through the Thursday of the current
/// Monday-to-Sunday week (which fixes the ISO year), then counts weeks from
/// the Monday of the week containing January 4 of that ISO year.
pub fn iso_week_from_civil(year: i32, month: u32, day: u32) -> (r: (i32, u32))
    requires
        valid_ymd(year as int, month as int, day as int),
        min_civil_day() + 3 <= days_from_ymd(year as int, month as int, day as int) <= max_civil_day()
            - 3,
    ensures
        (r.0 as int, r.1 as int) == iso_week_of_days(
            days_from_ymd(year as int, month as int, day as int),
        ),
        1 <= r.1 <= 53,
{
    let z = days_from_civil(year, month, day);
    proof {
        lemma_year_start_mono(i32::MIN as int, 0);
        lemma_year_start_mono(0, i32::MAX as int);
        lemma_date_in_year(i32::MAX as int, 12, 31);
        assert(year_start(0) == -719_528);
    }
    let wd = weekday_from_civil(z).as_u8() as i64;
    // Thursday of the current week fixes the ISO year.
    let thursday = z + (3 - wd);
    let (iso_year, _, _) = civil_from_days(thursday);
    // Monday of the week containing Jan 4 of the ISO year.
    let jan4 = days_from_civil(iso_year, 1, 4);
    proof {
        lemma_date_in_year(iso_year as int, 1, 4);
        lemma_year_fits(iso_year as int, 1, 4);
    }
    let jan4_wd = weekday_from_civil(jan4).as_u8() as i64;
    let monday_week1 = jan4 - jan4_wd;
    let week = floor_div(z - monday_week1, 7) + 1;
    proof {
        law_iso_week_in_range(z as int);
    }
    (iso_year, week as u32)
}

// ---------------------------------------------------------------------------
// Weekday
// ---------------------------------------------------------------------------

/// A weekday, ISO 8601 order (Monday first).
#[derive(Clone, Copy, Debug, PartialEq, Eq, Structural, PartialOrd, Ord, Hash)]
pub enum Weekday {
    /// Monday
    Monday,
    /// Tuesday
    Tuesday,
    /// Wednesday
    Wednesday,
    /// Thursday
    Thursday,
    /// Friday
    Friday,
    /// Saturday
    Saturday,
    /// Sunday
    Sunday,
}

/// Position of a weekday counted from Monday (`Monday = 0 .. Sunday = 6`).
pub open spec fn weekday_num(w: Weekday) -> int {
    match w {
        Weekday::Monday => 0,
        Weekday::Tuesday => 1,
        Weekday::Wednesday => 2,
        Weekday::Thursday => 3,
        Weekday::Friday => 4,
        Weekday::Saturday => 5,
        Weekday::Sunday => 6,
    }
}

/// The weekday at position `n` (mod 7) counted from Monday.
pub open spec fn weekday_at(n: int) -> Weekday {
    let k = n % 7;
    if k == 0 {
        Weekday::Monday
    } else if k == 1 {
        Weekday::Tuesday
    } else if k == 2 {
        Weekday::Wednesday
    } else if k == 3 {
        Weekday::Thursday
    } else if k == 4 {
        Weekday::Friday
    } else if k == 5 {
        Weekday::Saturday
    } else {
        Weekday::Sunday
    }
}

/// English name of a weekday.
pub open spec fn weekday_name(w: Weekday) -> &'static str {
    match w {
        Weekday::Monday => "Monday",
        Weekday::Tuesday => "Tuesday",
        Weekday::Wednesday => "Wednesday",
        Weekday::Thursday => "Thursday",
        Weekday::Friday => "Friday",
        Weekday::Saturday => "Saturday",
        Weekday::Sunday => "Sunday",
    }
}

/// Abbreviated English name of a weekday.
pub open spec fn weekday_short_name(w: Weekday) -> &'static str {
    match w {
        Weekday::Monday => "Mon",
        Weekday::Tuesday => "Tue",
        Weekday::Wednesday => "Wed",
        Weekday::Thursday => "Thu",
        Weekday::Friday => "Fri",
        Weekday::Saturday => "Sat",
        Weekday::Sunday => "Sun",
    }
}

/// `weekday_num` inverts `weekday_at` modulo 7.
pub proof fn lemma_weekday_num_at(n: int)
    ensures
        weekday_num(weekday_at(n)) == n % 7,
{
}

impl Weekday {
    /// ISO 8601 number: Monday = 1 through Sunday = 7.
    pub fn number_from_monday(self) -> (n: u8)
        ensures
            n == weekday_num(self) + 1,
    {
        self.as_u8() + 1
    }

    /// Sunday-based number: Sunday = 1 through Saturday = 7.
    pub fn number_from_sunday(self) -> (n: u8)
        ensures
            n == (weekday_num(self) + 1) % 7 + 1,
    {
        (self.as_u8() + 1) % 7 + 1
    }

    /// Weekday for an ISO 8601 number (1 = Monday .. 7 = Sunday).
    pub fn from_iso_number(n: u32) -> (r: Option<Weekday>)
        ensures
            r == if 1 <= n <= 7 {
                Some(weekday_at(n - 1))
            } else {
                None::<Weekday>
            },
    {
        match n {
            1 => Some(Weekday::Monday),
            2 => Some(Weekday::Tuesday),
            3 => Some(Weekday::Wednesday),
            4 => Some(Weekday::Thursday),
            5 => Some(Weekday::Friday),
            6 => Some(Weekday::Saturday),
            7 => Some(Weekday::Sunday),
            _ => None,
        }
    }

    /// Weekday for the internal position (0 = Monday .. 6 = Sunday).
    pub fn from_discriminant(n: u8) -> (r: Option<Weekday>)
        ensures
            r == if n <= 6 {
                Some(weekday_at(n as int))
            } else {
                None::<Weekday>
            },
    {
        match n {
            0 => Some(Weekday::Monday),
            1 => Some(Weekday::Tuesday),
            2 => Some(Weekday::Wednesday),
            3 => Some(Weekday::Thursday),
            4 => Some(Weekday::Friday),
            5 => Some(Weekday::Saturday),
            6 => Some(Weekday::Sunday),
            _ => None,
        }
    }

    /// Weekday for a case-sensitive English name such as `"Monday"`.
    pub fn from_name(name: &str) -> (r: Option<Weekday>)
        ensures
            match r {
                Some(w) => name.spec_bytes() == weekday_name(w).spec_bytes(),
                None => forall|w: Weekday| name.spec_bytes() != #[trigger] weekday_name(w).spec_bytes(),
            },
    {
        let b = name.as_bytes();
        if crate::text::bytes_eq(b, "Monday".as_bytes()) {
            return Some(Weekday::Monday);
        }
        if crate::text::bytes_eq(b, "Tuesday".as_bytes()) {
            return Some(Weekday::Tuesday);
        }
        if crate::text::bytes_eq(b, "Wednesday".as_bytes()) {
            return Some(Weekday::Wednesday);
        }
        if crate::text::bytes_eq(b, "Thursday".as_bytes()) {
            return Some(Weekday::Thursday);
        }
        if crate::text::bytes_eq(b, "Friday".as_bytes()) {
            return Some(Weekday::Friday);
        }
        if crate::text::bytes_eq(b, "Saturday".as_bytes()) {
            return Some(Weekday::Saturday);
        }
        if crate::text::bytes_eq(b, "Sunday".as_bytes()) {
            return Some(Weekday::Sunday);
        }
        proof {
            assert forall|w: Weekday| name.spec_bytes() != #[trigger] weekday_name(w).spec_bytes() by {
                match w {
                    Weekday::Monday => {},
                    Weekday::Tuesday => {},
                    Weekday::Wednesday => {},
                    Weekday::Thursday => {},
                    Weekday::Friday => {},
                    Weekday::Saturday => {},
                    Weekday::Sunday => {},
                }
            }
        }
        None
    }

    /// Weekday for a 3-letter abbreviation (`Mon`..`Sun`), case-sensitive.
    pub fn from_short_name(name: &str) -> (r: Option<Weekday>)
        ensures
            match r {
                Some(w) => name.spec_bytes() == weekday_short_name(w).spec_bytes(),
                None => forall|w: Weekday|
                    name.spec_bytes() != #[trigger] weekday_short_name(w).spec_bytes(),
            },
    {
        let b = name.as_bytes();
        if crate::text::bytes_eq(b, "Mon".as_bytes()) {
            return Some(Weekday::Monday);
        }
        if crate::text::bytes_eq(b, "Tue".as_bytes()) {
            return Some(Weekday::Tuesday);
        }
        if crate::text::bytes_eq(b, "Wed".as_bytes()) {
            return Some(Weekday::Wednesday);
        }
        if crate::text::bytes_eq(b, "Thu".as_bytes()) {
            return Some(Weekday::Thursday);
        }
        if crate::text::bytes_eq(b, "Fri".as_bytes()) {
            return Some(Weekday::Friday);
        }
        if crate::text::bytes_eq(b, "Sat".as_bytes()) {
            return Some(Weekday::Saturday);
        }
        if crate::text::bytes_eq(b, "Sun".as_bytes()) {
            return Some(Weekday::Sunday);
        }
        proof {
            assert forall|w: Weekday|
                name.spec_bytes() != #[trigger] weekday_short_name(w).spec_bytes() by {
                match w {
                    Weekday::Monday => {},
                    Weekday::Tuesday => {},
                    Weekday::Wednesday => {},
                    Weekday::Thursday => {},
                    Weekday::Friday => {},
                    Weekday::Saturday => {},
                    Weekday::Sunday => {},
                }
            }
        }
        None
    }

    /// Next weekday, wrapping Sunday to Monday.
    pub fn succ(self) -> (r: Weekday)
        ensures
            weekday_num(r) == (weekday_num(self) + 1) % 7,
            r == weekday_at(weekday_num(self) + 1),
    {
        match self {
            Weekday::Monday => Weekday::Tuesday,
            Weekday::Tuesday => Weekday::Wednesday,
            Weekday::Wednesday => Weekday::Thursday,
            Weekday::Thursday => Weekday::Friday,
            Weekday::Friday => Weekday::Saturday,
            Weekday::Saturday => Weekday::Sunday,
            Weekday::Sunday => Weekday::Monday,
        }
    }

    /// Previous weekday, wrapping Monday to Sunday.
    pub fn pred(self) -> (r: Weekday)
        ensures
            weekday_num(r) == (weekday_num(self) + 6) % 7,
            r == weekday_at(weekday_num(self) + 6),
    {
        match self {
            Weekday::Monday => Weekday::Sunday,
            Weekday::Tuesday => Weekday::Monday,
            Weekday::Wednesday => Weekday::Tuesday,
            Weekday::Thursday => Weekday::Wednesday,
            Weekday::Friday => Weekday::Thursday,
            Weekday::Saturday => Weekday::Friday,
            Weekday::Sunday => Weekday::Saturday,
        }
    }

    /// English name.
    pub fn name(self) -> (s: &'static str)
        ensures
            s == weekday_name(self),
    {
        match self {
            Weekday::Monday => "Monday",
            Weekday::Tuesday => "Tuesday",
            Weekday::Wednesday => "Wednesday",
            Weekday::Thursday => "Thursday",
            Weekday::Friday => "Friday",
            Weekday::Saturday => "Saturday",
            Weekday::Sunday => "Sunday",
        }
    }

    /// Abbreviated English name (`Mon`..`Sun`), for `%a` formatting.
    pub fn short_name(self) -> (s: &'static str)
        ensures
            s == weekday_short_name(self),
    {
        match self {
            Weekday::Monday => "Mon",
            Weekday::Tuesday => "Tue",
            Weekday::Wednesday => "Wed",
            Weekday::Thursday => "Thu",
            Weekday::Friday => "Fri",
            Weekday::Saturday => "Sat",
            Weekday::Sunday => "Sun",
        }
    }

    /// Internal position (0 = Monday .. 6 = Sunday).
    pub fn as_u8(self) -> (n: u8)
        ensures
            n == weekday_num(self),
            n < 7,
    {
        match self {
            Weekday::Monday => 0,
            Weekday::Tuesday => 1,
            Weekday::Wednesday => 2,
            Weekday::Thursday => 3,
            Weekday::Friday => 4,
            Weekday::Saturday => 5,
            Weekday::Sunday => 6,
        }
    }
}

// ---------------------------------------------------------------------------
// Month
// ---------------------------------------------------------------------------

/// A month of the proleptic Gregorian year.
#[derive(Clone, Copy, Debug, PartialEq, Eq, Structural, PartialOrd, Ord, Hash)]
pub enum Month {
    /// January
    January,
    /// February
    February,
    /// March
    March,
    /// April
    April,
    /// May
    May,
    /// June
    June,
    /// July
    July,
    /// August
    August,
    /// September
    September,
    /// October
    October,
    /// November
    November,
    /// December
    December,
}

/// 1-based number of a month.
pub open spec fn month_num(m: Month) -> int {
    match m {
        Month::January => 1,
        Month::February => 2,
        Month::March => 3,
        Month::April => 4,
        Month::May => 5,
        Month::June => 6,
        Month::July => 7,
        Month::August => 8,
        Month::September => 9,
        Month::October => 10,
        Month::November => 11,
        Month::December => 12,
    }
}

/// The month with 1-based number `1 + (n - 1) mod 12`.
pub open spec fn month_at(n: int) -> Month {
    let k = (n - 1) % 12;
    if k == 0 {
        Month::January
    } else if k == 1 {
        Month::February
    } else if k == 2 {
        Month::March
    } else if k == 3 {
        Month::April
    } else if k == 4 {
        Month::May
    } else if k == 5 {
        Month::June
    } else if k == 6 {
        Month::July
    } else if k == 7 {
        Month::August
    } else if k == 8 {
        Month::September
    } else if k == 9 {
        Month::October
    } else if k == 10 {
        Month::November
    } else {
        Month::December
    }
}

/// English name of a month.
pub open spec fn month_name(m: Month) -> &'static str {
    match m {
        Month::January => "January",
        Month::February => "February",
        Month::March => "March",
        Month::April => "April",
        Month::May => "May",
        Month::June => "June",
        Month::July => "July",
        Month::August => "August",
        Month::September => "September",
        Month::October => "October",
        Month::November => "November",
        Month::December => "December",
    }
}

/// Abbreviated English name of a month.
pub open spec fn month_short_name(m: Month) -> &'static str {
    match m {
        Month::January => "Jan",
        Month::February => "Feb",
        Month::March => "Mar",
        Month::April => "Apr",
        Month::May => "May",
        Month::June => "Jun",
        Month::July => "Jul",
        Month::August => "Aug",
        Month::September => "Sep",
        Month::October => "Oct",
        Month::November => "Nov",
        Month::December => "Dec",
    }
}

/// `month_at` inverts `month_num`.
pub proof fn lemma_month_at_num(m: Month)
    ensures
        month_at(month_num(m)) == m,
        1 <= month_num(m) <= 12,
{
}

impl Month {
    /// Month for a 1-based number (1 = January .. 12 = December).
    pub fn from_u32(n: u32) -> (r: Option<Month>)
        ensures
            r == if 1 <= n <= 12 {
                Some(month_at(n as int))
            } else {
                None::<Month>
            },
    {
        match n {
            1 => Some(Month::January),
            2 => Some(Month::February),
            3 => Some(Month::March),
            4 => Some(Month::April),
            5 => Some(Month::May),
            6 => Some(Month::June),
            7 => Some(Month::July),
            8 => Some(Month::August),
            9 => Some(Month::September),
            10 => Some(Month::October),
            11 => Some(Month::November),
            12 => Some(Month::December),
            _ => None,
        }
    }

    /// Month for a case-sensitive English name such as `"January"`.
    pub fn from_name(name: &str) -> (r: Option<Month>)
        ensures
            match r {
                Some(m) => name.spec_bytes() == month_name(m).spec_bytes(),
                None => forall|m: Month| name.spec_bytes() != #[trigger] month_name(m).spec_bytes(),
            },
    {
        let b = name.as_bytes();
        if crate::text::bytes_eq(b, "January".as_bytes()) {
            return Some(Month::January);
        }
        if crate::text::bytes_eq(b, "February".as_bytes()) {
            return Some(Month::February);
        }
        if crate::text::bytes_eq(b, "March".as_bytes()) {
            return Some(Month::March);
        }
        if crate::text::bytes_eq(b, "April".as_bytes()) {
            return Some(Month::April);
        }
        if crate::text::bytes_eq(b, "May".as_bytes()) {
            return Some(Month::May);
        }
        if crate::text::bytes_eq(b, "June".as_bytes()) {
            return Some(Month::June);
        }
        if crate::text::bytes_eq(b, "July".as_bytes()) {
            return Some(Month::July);
        }
        if crate::text::bytes_eq(b, "August".as_bytes()) {
            return Some(Month::August);
        }
        if crate::text::bytes_eq(b, "September".as_bytes()) {
            return Some(Month::September);
        }
        if crate::text::bytes_eq(b, "October".as_bytes()) {
            return Some(Month::October);
        }
        if crate::text::bytes_eq(b, "November".as_bytes()) {
            return Some(Month::November);
        }
        if crate::text::bytes_eq(b, "December".as_bytes()) {
            return Some(Month::December);
        }
        proof {
            assert forall|m: Month| name.spec_bytes() != #[trigger] month_name(m).spec_bytes() by {
                match m {
                    Month::January => {},
                    Month::February => {},
                    Month::March => {},
                    Month::April => {},
                    Month::May => {},
                    Month::June => {},
                    Month::July => {},
                    Month::August => {},
                    Month::September => {},
                    Month::October => {},
                    Month::November => {},
                    Month::December => {},
                }
            }
        }
        None
    }

    /// 1-based month number.
    pub fn as_u32(self) -> (n: u32)
        ensures
            n == month_num(self),
            1 <= n <= 12,
    {
        match self {
            Month::January => 1,
            Month::February => 2,
            Month::March => 3,
            Month::April => 4,
            Month::May => 5,
            Month::June => 6,
            Month::July => 7,
            Month::August => 8,
            Month::September => 9,
            Month::October => 10,
            Month::November => 11,
            Month::December => 12,
        }
    }

    /// Number of days in this month for `year`.
    pub fn num_days(self, year: i32) -> (n: u32)
        ensures
            n == month_len(year as int, month_num(self)),
    {
        days_in_month(year, self.as_u32())
    }

    /// Previous month, wrapping January to December.
    pub fn prev(self) -> (r: Month)
        ensures
            r == month_at(month_num(self) - 1),
    {
        match self {
            Month::January => Month::December,
            Month::February => Month::January,
            Month::March => Month::February,
            Month::April => Month::March,
            Month::May => Month::April,
            Month::June => Month::May,
            Month::July => Month::June,
            Month::August => Month::July,
            Month::September => Month::August,
            Month::October => Month::September,
            Month::November => Month::October,
            Month::December => Month::November,
        }
    }

    /// Next month, wrapping December to January.
    pub fn next(self) -> (r: Month)
        ensures
            r == month_at(month_num(self) + 1),
    {
        match self {
            Month::January => Month::February,
            Month::February => Month::March,
            Month::March => Month::April,
            Month::April => Month::May,
            Month::May => Month::June,
            Month::June => Month::July,
            Month::July => Month::August,
            Month::August => Month::September,
            Month::September => Month::October,
            Month::October => Month::November,
            Month::November => Month::December,
            Month::December => Month::January,
        }
    }

    /// English name.
    pub fn name(self) -> (s: &'static str)
        ensures
            s == month_name(self),
    {
        match self {
            Month::January => "January",
            Month::February => "February",
            Month::March => "March",
            Month::April => "April",
            Month::May => "May",
            Month::June => "June",
            Month::July => "July",
            Month::August => "August",
            Month::September => "September",
            Month::October => "October",
            Month::November => "November",
            Month::December => "December",
        }
    }

    /// Abbreviated English name (`Jan`..`Dec`), for `%b` / `%h` formatting.
    pub fn short_name(self) -> (s: &'static str)
        ensures
            s == month_short_name(self),
    {
        match self {
            Month::January => "Jan",
            Month::February => "Feb",
            Month::March => "Mar",
            Month::April => "Apr",
            Month::May => "May",
            Month::June => "Jun",
            Month::July => "Jul",
            Month::August => "Aug",
            Month::September => "Sep",
            Month::October => "Oct",
            Month::November => "Nov",
            Month::December => "Dec",
        }
    }

    /// Month for a 3-letter abbreviation (`Jan`..`Dec`), case-sensitive.
    pub fn from_short_name(name: &str) -> (r: Option<Month>)
        ensures
            match r {
                Some(m) => name.spec_bytes() == month_short_name(m).spec_bytes(),
                None => forall|m: Month|
                    name.spec_bytes() != #[trigger] month_short_name(m).spec_bytes(),
            },
    {
        let b = name.as_bytes();
        if crate::text::bytes_eq(b, "Jan".as_bytes()) {
            return Some(Month::January);
        }
        if crate::text::bytes_eq(b, "Feb".as_bytes()) {
            return Some(Month::February);
        }
        if crate::text::bytes_eq(b, "Mar".as_bytes()) {
            return Some(Month::March);
        }
        if crate::text::bytes_eq(b, "Apr".as_bytes()) {
            return Some(Month::April);
        }
        if crate::text::bytes_eq(b, "May".as_bytes()) {
            return Some(Month::May);
        }
        if crate::text::bytes_eq(b, "Jun".as_bytes()) {
            return Some(Month::June);
        }
        if crate::text::bytes_eq(b, "Jul".as_bytes()) {
            return Some(Month::July);
        }
        if crate::text::bytes_eq(b, "Aug".as_bytes()) {
            return Some(Month::August);
        }
        if crate::text::bytes_eq(b, "Sep".as_bytes()) {
            return Some(Month::September);
        }
        if crate::text::bytes_eq(b, "Oct".as_bytes()) {
            return Some(Month::October);
        }
        if crate::text::bytes_eq(b, "Nov".as_bytes()) {
            return Some(Month::November);
        }
        if crate::text::bytes_eq(b, "Dec".as_bytes()) {
            return Some(Month::December);
        }
        proof {
            assert forall|m: Month| name.spec_bytes() != #[trigger] month_short_name(m).spec_bytes() by {
                match m {
                    Month::January => {},
                    Month::February => {},
                    Month::March => {},
                    Month::April => {},
                    Month::May => {},
                    Month::June => {},
                    Month::July => {},
                    Month::August => {},
                    Month::September => {},
                    Month::October => {},
                    Month::November => {},
                    Month::December => {},
                }
            }
        }
        None
    }
}

impl core::str::FromStr for Weekday {
    type Err = crate::error::Error;

    fn from_str(s: &str) -> (r: Result<Weekday, crate::error::Error>)
        ensures
            match r {
                Ok(w) => s.spec_bytes() == weekday_name(w).spec_bytes(),
                Err(e) => (forall|w: Weekday| s.spec_bytes() != #[trigger] weekday_name(w).spec_bytes())
                    && e.spec_kind() == crate::error::ErrorKind::Invalid("unknown weekday name")
                    && e.spec_offset() == None::<usize>,
            },
    {
        match Weekday::from_name(s) {
            Some(w) => Ok(w),
            None => Err(crate::error::Error::invalid("unknown weekday name")),
        }
    }
}

impl core::str::FromStr for Month {
    type Err = crate::error::Error;

    fn from_str(s: &str) -> (r: Result<Month, crate::error::Error>)
        ensures
            match r {
                Ok(m) => s.spec_bytes() == month_name(m).spec_bytes(),
                Err(e) => (forall|m: Month| s.spec_bytes() != #[trigger] month_name(m).spec_bytes())
                    && e.spec_kind() == crate::error::ErrorKind::Invalid("unknown month name")
                    && e.spec_offset() == None::<usize>,
            },
    {
        match Month::from_name(s) {
            Some(m) => Ok(m),
            None => Err(crate::error::Error::invalid("unknown month name")),
        }
    }
}

impl Weekday {
    /// The English name (what `Display` writes).
    pub fn to_string(self) -> (s: String)
        ensures
            s@ == weekday_name(self)@,
    {
        let mut chars: Vec<char> = Vec::new();
        crate::text::push_chars(&mut chars, self.name());
        crate::text::string_from_chars(chars)
    }
}

impl Month {
    /// The English name (what `Display` writes).
    pub fn to_string(self) -> (s: String)
        ensures
            s@ == month_name(self)@,
    {
        let mut chars: Vec<char> = Vec::new();
        crate::text::push_chars(&mut chars, self.name());
        crate::text::string_from_chars(chars)
    }
}

} // verus!
