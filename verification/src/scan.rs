//! A byte scanner that reports the exact offset of every failure.
//!
//! The scanning steps are stated as specification functions over the input
//! bytes and a position: each step either yields a value and the position
//! after it, or fails with an error kind and, for parse errors, the byte
//! offset where scanning stopped. The ISO 8601 parsers and the strftime
//! engine are both built from these steps.

use vstd::prelude::*;

use crate::error::{Error, ErrorKind};
use crate::text::is_digit;

verus! {

/// An error as the specifications see it: a kind, and the byte offset when
/// one is fixed.
pub type Fail = (ErrorKind, Option<usize>);

/// A parse error at byte `at`.
pub open spec fn pfail(what: &'static str, at: int) -> Fail {
    (ErrorKind::Parse(what), Some(at as usize))
}

/// An error of kind `k` (whatever offset it carries).
pub open spec fn kfail(k: ErrorKind) -> Fail {
    (k, None)
}

/// A result is the failure `f`: the same kind and, when `f` fixes one, the
/// same offset.
pub open spec fn fails<T>(r: Result<T, Error>, f: Fail) -> bool {
    r is Err && r->Err_0.spec_kind() == f.0 && (f.1 is Some ==> r->Err_0.spec_offset() == f.1)
}

/// A result agrees with an outcome over the same value type.
pub open spec fn agrees<T>(r: Result<T, Error>, o: Result<T, Fail>) -> bool {
    match o {
        Ok(v) => r == Ok::<T, Error>(v),
        Err(f) => fails(r, f),
    }
}

/// A scanning step's result agrees with an integer-valued outcome.
pub open spec fn step_agrees(r: Result<(u64, usize), Error>, o: Result<(int, int), Fail>) -> bool {
    match o {
        Ok(v) => r is Ok && r->Ok_0.0 == v.0 && r->Ok_0.1 == v.1,
        Err(f) => fails(r, f),
    }
}

/// The byte at `pos`, if any.
pub open spec fn byte_at(b: Seq<u8>, pos: int) -> Option<u8> {
    if 0 <= pos < b.len() {
        Some(b[pos])
    } else {
        None
    }
}

/// Whether the byte at `pos` exists and is a digit.
pub open spec fn digit_at(b: Seq<u8>, pos: int) -> bool {
    0 <= pos < b.len() && is_digit(b[pos])
}

/// The number of consecutive digits starting at `pos`, capped at `max`.
pub open spec fn digit_run(b: Seq<u8>, pos: int, max: int) -> nat
    decreases max,
{
    if max <= 0 || !digit_at(b, pos) {
        0
    } else {
        1 + digit_run(b, pos + 1, max - 1)
    }
}

/// The decimal value of the `n` digits starting at `pos`.
pub open spec fn digits_val(b: Seq<u8>, pos: int, n: int) -> nat
    decreases n,
{
    if n <= 0 {
        0
    } else {
        digits_val(b, pos, n - 1) * 10 + (b[pos + n - 1] - 48) as nat
    }
}

/// Read `min..=max` digits; fails after the digits read when fewer than
/// `min` were found.
pub open spec fn scan_digits(b: Seq<u8>, pos: int, min: int, max: int) -> Result<(int, int), Fail> {
    let n = digit_run(b, pos, max);
    if n < min {
        Err(pfail("expected digits", pos + n))
    } else {
        Ok((digits_val(b, pos, n as int) as int, pos + n))
    }
}

/// The run of digits is a run: every byte in it is a digit, and the run
/// stops at a non-digit or at the cap.
pub proof fn lemma_digit_run(b: Seq<u8>, pos: int, max: int)
    ensures
        digit_run(b, pos, max) <= if max < 0 {
            0
        } else {
            max
        },
        forall|k: int| 0 <= k < digit_run(b, pos, max) ==> #[trigger] digit_at(b, pos + k),
        digit_run(b, pos, max) < max ==> !digit_at(b, pos + digit_run(b, pos, max)),
    decreases max,
{
    if max > 0 && digit_at(b, pos) {
        lemma_digit_run(b, pos + 1, max - 1);
        assert forall|k: int| 0 <= k < digit_run(b, pos, max) implies #[trigger] digit_at(
            b,
            pos + k,
        ) by {
            if k > 0 {
                assert(digit_at(b, (pos + 1) + (k - 1)));
            }
        }
    }
}

/// A run can be split after `k` of its digits.
pub proof fn lemma_digit_run_step(b: Seq<u8>, pos: int, max: int, k: int)
    requires
        0 <= k <= max,
        forall|j: int| 0 <= j < k ==> #[trigger] digit_at(b, pos + j),
    ensures
        digit_run(b, pos, max) == k + digit_run(b, pos + k, max - k),
    decreases k,
{
    if k > 0 {
        assert(digit_at(b, pos + 0));
        assert forall|j: int| 0 <= j < k - 1 implies #[trigger] digit_at(b, (pos + 1) + j) by {
            assert(digit_at(b, pos + (j + 1)));
        }
        lemma_digit_run_step(b, pos + 1, max - 1, k - 1);
    }
}

/// Digit values are bounded by the power of ten of their count.
pub proof fn lemma_digits_val_bound(b: Seq<u8>, pos: int, n: int)
    requires
        n >= 0,
        forall|j: int| 0 <= j < n ==> #[trigger] digit_at(b, pos + j),
    ensures
        digits_val(b, pos, n) < pow10(n),
    decreases n,
{
    if n > 0 {
        assert(digit_at(b, pos + (n - 1)));
        lemma_digits_val_bound(b, pos, n - 1);
        assert(digits_val(b, pos, n) < pow10(n)) by (nonlinear_arith)
            requires
                digits_val(b, pos, n) == digits_val(b, pos, n - 1) * 10 + (b[pos + n - 1] - 48) as nat,
                digits_val(b, pos, n - 1) < pow10(n - 1),
                0 <= (b[pos + n - 1] - 48) < 10,
                pow10(n) == pow10(n - 1) * 10,
        ;
    }
}

/// `10^n`.
pub open spec fn pow10(n: int) -> nat
    decreases n,
{
    if n <= 0 {
        1
    } else {
        pow10(n - 1) * 10
    }
}

/// The exponent table for the small powers used in scaling.
pub proof fn lemma_pow10_table()
    ensures
        pow10(0) == 1,
        pow10(1) == 10,
        pow10(2) == 100,
        pow10(3) == 1000,
        pow10(4) == 10000,
        pow10(5) == 100000,
        pow10(6) == 1000000,
        pow10(7) == 10000000,
        pow10(8) == 100000000,
        pow10(9) == 1000000000,
        pow10(10) == 10000000000,
        pow10(18) == 1000000000000000000,
        pow10(19) == 10000000000000000000,
{
    reveal_with_fuel(pow10, 20);
}

/// `10^n` for `n <= 9`, as a `u64`.
pub fn pow10_u64(n: u32) -> (p: u64)
    requires
        n <= 19,
    ensures
        p == pow10(n as int),
{
    proof {
        lemma_pow10_table();
    }
    let mut p: u64 = 1;
    let mut k: u32 = 0;
    while k < n
        invariant
            k <= n <= 19,
            p == pow10(k as int),
        decreases n - k,
    {
        proof {
            lemma_pow10_table();
            lemma_pow10_mono(k as int + 1, 19);
        }
        p = p * 10;
        k = k + 1;
    }
    p
}

/// Powers of ten grow with the exponent.
pub proof fn lemma_pow10_mono(a: int, b: int)
    requires
        0 <= a <= b,
    ensures
        pow10(a) <= pow10(b),
    decreases b - a,
{
    if a < b {
        lemma_pow10_mono(a, b - 1);
    }
}

/// Read up to `max` digits starting at `pos`, returning their value and the
/// position after them.
pub fn read_digits(b: &[u8], pos: usize, max: usize) -> (r: (u64, usize))
    requires
        pos <= b@.len(),
        max <= 19,
    ensures
        r.1 == pos + digit_run(b@, pos as int, max as int),
        r.0 == digits_val(b@, pos as int, digit_run(b@, pos as int, max as int) as int),
{
    let mut v: u64 = 0;
    let mut p: usize = pos;
    let mut n: usize = 0;
    proof {
        lemma_pow10_table();
    }
    while n < max && p < b.len() && b[p] >= 48 && b[p] <= 57
        invariant
            pos <= p <= b@.len(),
            p == pos + n,
            n <= max <= 19,
            forall|j: int| 0 <= j < n ==> #[trigger] digit_at(b@, pos + j),
            v == digits_val(b@, pos as int, n as int),
            v < pow10(n as int),
        decreases max - n,
    {
        proof {
            lemma_pow10_table();
            assert(digit_at(b@, pos + n as int));
            lemma_digits_val_bound(b@, pos as int, n as int + 1);
            lemma_pow10_mono(n as int + 1, 19);
        }
        v = v * 10 + (b[p] - 48) as u64;
        p = p + 1;
        n = n + 1;
    }
    proof {
        lemma_digit_run_step(b@, pos as int, max as int, n as int);
        if n < max {
            assert(!digit_at(b@, pos + n as int));
        }
        assert(digit_run(b@, p as int, max - n) == 0);
    }
    (v, p)
}

/// Read `min..=max` digits; a parse error after the digits read when there
/// are fewer than `min`.
pub fn scan_digits_exec(b: &[u8], pos: usize, min: usize, max: usize) -> (r: Result<(u64, usize), Error>)
    requires
        pos <= b@.len(),
        max <= 19,
    ensures
        step_agrees(r, scan_digits(b@, pos as int, min as int, max as int)),
{
    let (v, p) = read_digits(b, pos, max);
    if p - pos < min {
        return Err(Error::parse("expected digits", p));
    }
    Ok((v, p))
}

/// Whether the byte at `pos` is `want`.
pub fn at_byte(b: &[u8], pos: usize, want: u8) -> (r: bool)
    ensures
        r == (byte_at(b@, pos as int) == Some(want)),
        b@.len() <= usize::MAX,
{
    pos < b.len() && b[pos] == want
}

} // verus!
