//! Byte-level text helpers shared by the parsers and formatters.

use vstd::prelude::*;
use vstd::string::StrSliceExecFns;
use vstd::string::StringSliceAdditionalSpecFns;

verus! {

/// Whether two byte strings are equal.
pub fn bytes_eq(a: &[u8], b: &[u8]) -> (r: bool)
    ensures
        r == (a@ == b@),
{
    if a.len() != b.len() {
        return false;
    }
    let mut i: usize = 0;
    while i < a.len()
        invariant
            a@.len() == b@.len(),
            i <= a@.len(),
            forall|j: int| 0 <= j < i ==> a@[j] == b@[j],
        decreases a@.len() - i,
    {
        if a[i] != b[i] {
            return false;
        }
        i = i + 1;
    }
    proof {
        assert(a@ =~= b@);
    }
    true
}

/// ASCII lower-casing of one byte.
pub open spec fn ascii_lower(c: u8) -> u8 {
    if 65 <= c <= 90 {
        (c + 32) as u8
    } else {
        c
    }
}

/// Whether two bytes are equal ignoring ASCII case.
pub open spec fn ascii_eq_ci(a: u8, b: u8) -> bool {
    ascii_lower(a) == ascii_lower(b)
}

/// Whether two byte strings are equal ignoring ASCII case.
pub open spec fn bytes_eq_ci(a: Seq<u8>, b: Seq<u8>) -> bool {
    a.len() == b.len() && forall|j: int| 0 <= j < a.len() ==> ascii_eq_ci(a[j], b[j])
}

/// ASCII lower-casing of one byte.
pub fn lower_byte(c: u8) -> (r: u8)
    ensures
        r == ascii_lower(c),
{
    if 65 <= c && c <= 90 {
        c + 32
    } else {
        c
    }
}

/// Whether two byte strings are equal ignoring ASCII case.
pub fn bytes_eq_ignore_case(a: &[u8], b: &[u8]) -> (r: bool)
    ensures
        r == bytes_eq_ci(a@, b@),
{
    if a.len() != b.len() {
        return false;
    }
    let mut i: usize = 0;
    while i < a.len()
        invariant
            a@.len() == b@.len(),
            i <= a@.len(),
            forall|j: int| 0 <= j < i ==> ascii_eq_ci(a@[j], b@[j]),
        decreases a@.len() - i,
    {
        if lower_byte(a[i]) != lower_byte(b[i]) {
            return false;
        }
        i = i + 1;
    }
    true
}

/// Whether a byte is an ASCII digit.
pub open spec fn is_digit(c: u8) -> bool {
    48 <= c <= 57
}

/// Whether a byte is an ASCII letter.
pub open spec fn is_alpha(c: u8) -> bool {
    (65 <= c <= 90) || (97 <= c <= 122)
}

/// Each byte as the character of the same code point; for ASCII bytes such
/// as decimal digits, the characters those bytes encode.
pub open spec fn byte_chars(b: Seq<u8>) -> Seq<char> {
    b.map_values(|c: u8| c as char)
}

/// Decimal digits of `n`, most significant first, no padding.
pub open spec fn dec_digits(n: nat) -> Seq<u8>
    decreases n,
{
    if n < 10 {
        seq![(48 + n) as u8]
    } else {
        dec_digits(n / 10).push((48 + n % 10) as u8)
    }
}

/// `s` left-padded with `pad` up to `width` bytes.
pub open spec fn left_pad(s: Seq<u8>, width: int, pad: u8) -> Seq<u8> {
    if s.len() >= width {
        s
    } else {
        Seq::new((width - s.len()) as nat, |i: int| pad) + s
    }
}

/// Zero-padded decimal rendering of `n` to at least `width` digits.
pub open spec fn dec_padded(n: nat, width: int) -> Seq<u8> {
    left_pad(dec_digits(n), width, 48)
}

/// Digit strings are never empty, at most 39 long for a `u128`, and ASCII.
pub proof fn lemma_dec_digits(n: nat)
    ensures
        1 <= dec_digits(n).len(),
        n < 10 ==> dec_digits(n).len() == 1,
        n >= 10 ==> dec_digits(n).len() == dec_digits(n / 10).len() + 1,
        forall|i: int| 0 <= i < dec_digits(n).len() ==> 48 <= #[trigger] dec_digits(n)[i] <= 57,
    decreases n,
{
    if n >= 10 {
        lemma_dec_digits(n / 10);
    }
}

/// Append the decimal digits of `v`.
pub fn push_dec(out: &mut Vec<u8>, v: u128)
    ensures
        final(out)@ == old(out)@ + dec_digits(v as nat),
    decreases v,
{
    if v >= 10 {
        push_dec(out, v / 10);
    }
    out.push(48u8 + (v % 10) as u8);
    proof {
        assert(final(out)@ =~= old(out)@ + dec_digits(v as nat));
    }
}

/// Append `count` copies of `pad`.
pub fn push_repeat(out: &mut Vec<u8>, pad: u8, count: usize)
    ensures
        final(out)@ == old(out)@ + Seq::new(count as nat, |i: int| pad),
{
    let mut k: usize = 0;
    while k < count
        invariant
            k <= count,
            out@ == old(out)@ + Seq::new(k as nat, |i: int| pad),
        decreases count - k,
    {
        out.push(pad);
        k = k + 1;
        proof {
            assert(out@ =~= old(out)@ + Seq::new(k as nat, |i: int| pad));
        }
    }
}

/// Append the decimal digits of `v` left-padded with `pad` to `width`.
pub fn push_padded(out: &mut Vec<u8>, v: u128, width: usize, pad: u8)
    ensures
        final(out)@ == old(out)@ + left_pad(dec_digits(v as nat), width as int, pad),
{
    let mut digits: Vec<u8> = Vec::new();
    push_dec(&mut digits, v);
    proof {
        assert(digits@ =~= dec_digits(v as nat));
    }
    if digits.len() < width {
        push_repeat(out, pad, width - digits.len());
    }
    let mut k: usize = 0;
    let ghost mid = out@;
    while k < digits.len()
        invariant
            k <= digits@.len(),
            out@ == mid + digits@.subrange(0, k as int),
        decreases digits@.len() - k,
    {
        out.push(digits[k]);
        k = k + 1;
        proof {
            assert(out@ =~= mid + digits@.subrange(0, k as int));
        }
    }
    proof {
        assert(digits@.subrange(0, digits@.len() as int) =~= digits@);
        assert(final(out)@ =~= old(out)@ + left_pad(dec_digits(v as nat), width as int, pad));
    }
}

/// Append every byte of `s`.
pub fn push_bytes(out: &mut Vec<u8>, s: &[u8])
    ensures
        final(out)@ == old(out)@ + s@,
{
    let mut k: usize = 0;
    while k < s.len()
        invariant
            k <= s@.len(),
            out@ == old(out)@ + s@.subrange(0, k as int),
        decreases s@.len() - k,
    {
        out.push(s[k]);
        k = k + 1;
        proof {
            assert(out@ =~= old(out)@ + s@.subrange(0, k as int));
        }
    }
    proof {
        assert(s@.subrange(0, s@.len() as int) =~= s@);
    }
}

/// Append the UTF-8 bytes of `s`.
pub fn push_str(out: &mut Vec<u8>, s: &str)
    ensures
        final(out)@ == old(out)@ + s.spec_bytes(),
{
    push_bytes(out, s.as_bytes());
}

/// Append every character of `s`.
pub fn push_chars(out: &mut Vec<char>, s: &str)
    ensures
        final(out)@ == old(out)@ + s@,
{
    let n = s.unicode_len();
    let mut k: usize = 0;
    while k < n
        invariant
            n == s@.len(),
            k <= n,
            out@ == old(out)@ + s@.subrange(0, k as int),
        decreases n - k,
    {
        out.push(s.get_char(k));
        k = k + 1;
        proof {
            assert(out@ =~= old(out)@ + s@.subrange(0, k as int));
        }
    }
    proof {
        assert(s@.subrange(0, n as int) =~= s@);
    }
}

/// `String::from_iter` over `char`s (std): a `String` holding exactly the
/// given characters, in order, which is what std documents.
#[verifier::external_body]
pub fn string_from_chars(chars: Vec<char>) -> (s: String)
    ensures
        s@ == chars@,
{
    String::from_iter(chars)
}

/// The `String` whose UTF-8 encoding is `b`.
pub fn string_from_utf8(b: &[u8]) -> (s: String)
    requires
        vstd::utf8::valid_utf8(b@),
    ensures
        vstd::utf8::encode_utf8(s@) == b@,
{
    match crate::write::utf8_str(b) {
        Some(t) => t.to_owned(),
        None => String::new(),
    }
}

} // verus!
