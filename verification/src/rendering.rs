//! What the formatters write is text.
//!
//! The format string is UTF-8; the strftime formatter copies its literal
//! runs whole and expands each `%` directive, whose bytes are ASCII, into
//! ASCII digits, signs and separators or into names that are themselves
//! UTF-8. So the rendering is valid UTF-8 whatever the format string and the
//! reading. The fixed ISO 8601, RFC 3339 and RFC 2822 renderings are text
//! too, which lets every renderer hand back a `String` of exactly its bytes.

use vstd::prelude::*;
use vstd::utf8::{
    encode_utf8, encode_utf8_valid_utf8, is_ascii_chars, is_ascii_chars_encode_utf8,
    is_char_boundary, is_char_boundary_iff_not_is_continuation_byte,
    is_char_boundary_start_end_of_seq, length_of_first_scalar, pop_first_scalar, valid_utf8,
    valid_utf8_concat, valid_utf8_split,
};
use vstd::string::StringSliceAdditionalSpecFns;

use crate::format::{signed_text, trim_zeros};
use crate::scan::{digit_at, digit_run, lemma_digit_run};
use crate::strftime::{
    directive_text, fmt_text, frac_text, is_composite, offset_fields_text, pad_text, prepend,
    sep_text, signed_pad_text, simple_text, strf_offset_text, width_at, Parts,
};
use crate::text::{dec_digits, dec_padded, lemma_dec_digits, left_pad};

verus! {

/// Every byte is ASCII.
pub open spec fn ascii_bytes(s: Seq<u8>) -> bool {
    forall|i: int| 0 <= i < s.len() ==> #[trigger] s[i] < 128
}

/// ASCII bytes are valid UTF-8.
pub proof fn lemma_ascii_valid(s: Seq<u8>)
    requires
        ascii_bytes(s),
    ensures
        valid_utf8(s),
{
    let chars = Seq::new(s.len(), |i: int| s[i] as char);
    assert(is_ascii_chars(chars)) by {
        assert forall|i: int| 0 <= i < chars.len() implies '\0' <= #[trigger] chars[i] <= '\u{7f}' by {
            assert(s[i] < 128);
        }
    }
    is_ascii_chars_encode_utf8(chars);
    assert(encode_utf8(chars) =~= s) by {
        assert forall|i: int| 0 <= i < s.len() implies encode_utf8(chars)[i] == s[i] by {
            assert(chars[i] as u8 == encode_utf8(chars)[i]);
        }
    }
    encode_utf8_valid_utf8(chars);
}

pub broadcast proof fn lemma_concat_ascii(a: Seq<u8>, b: Seq<u8>)
    requires
        ascii_bytes(a),
        ascii_bytes(b),
    ensures
        #[trigger] ascii_bytes(a + b),
{
    assert forall|i: int| 0 <= i < (a + b).len() implies #[trigger] (a + b)[i] < 128 by {
        if i < a.len() {
            assert((a + b)[i] == a[i]);
        } else {
            assert((a + b)[i] == b[i - a.len()]);
        }
    }
}

proof fn lemma_dec_digits_ascii(n: nat)
    ensures
        ascii_bytes(dec_digits(n)),
{
    lemma_dec_digits(n);
    assert forall|i: int| 0 <= i < dec_digits(n).len() implies #[trigger] dec_digits(n)[i] < 128 by {
        assert(48 <= dec_digits(n)[i] <= 57);
    }
}

proof fn lemma_left_pad_ascii(s: Seq<u8>, width: int, pad: u8)
    requires
        ascii_bytes(s),
        pad < 128,
    ensures
        ascii_bytes(left_pad(s, width, pad)),
{
    if s.len() < width {
        let head = Seq::new((width - s.len()) as nat, |i: int| pad);
        assert(ascii_bytes(head));
        lemma_concat_ascii(head, s);
    }
}

pub proof fn lemma_dec_padded_ascii(n: nat, width: int)
    ensures
        ascii_bytes(dec_padded(n, width)),
{
    lemma_dec_digits_ascii(n);
    lemma_left_pad_ascii(dec_digits(n), width, 48);
}

proof fn lemma_pad_text_ascii(v: nat, width: int, pad: u8)
    ensures
        ascii_bytes(pad_text(v, width, pad)),
{
    lemma_dec_digits_ascii(v);
    if pad != 45u8 {
        lemma_left_pad_ascii(dec_digits(v), width, crate::strftime::pad_char(pad));
    }
}

proof fn lemma_signed_pad_text_ascii(v: int, width: int, pad: u8)
    ensures
        ascii_bytes(signed_pad_text(v, width, pad)),
{
    if v < 0 {
        lemma_pad_text_ascii((-v) as nat, width, pad);
        lemma_concat_ascii(seq![45u8], pad_text((-v) as nat, width, pad));
    } else {
        lemma_pad_text_ascii(v as nat, width, pad);
    }
}

proof fn lemma_signed_text_ascii(n: int)
    ensures
        ascii_bytes(signed_text(n)),
{
    if n < 0 {
        lemma_dec_digits_ascii((-n) as nat);
        lemma_concat_ascii(seq![45u8], dec_digits((-n) as nat));
    } else {
        lemma_dec_digits_ascii(n as nat);
    }
}

proof fn lemma_frac_text_ascii(nanos: int, width: int)
    ensures
        ascii_bytes(frac_text(nanos, width)),
{
    if width == 0 {
        if nanos != 0 {
            let digits = dec_padded(nanos as nat, 9);
            lemma_dec_padded_ascii(nanos as nat, 9);
            crate::round_trip::lemma_trim_zeros(digits);
            assert(ascii_bytes(trim_zeros(digits))) by {
                assert forall|i: int| 0 <= i < trim_zeros(digits).len() implies #[trigger] trim_zeros(
                    digits,
                )[i] < 128 by {
                    assert(trim_zeros(digits)[i] == digits[i]);
                }
            }
            lemma_concat_ascii(seq![46u8], trim_zeros(digits));
        }
    } else {
        let v = (nanos / (crate::scan::pow10(9 - width) as int)) as nat;
        lemma_pad_text_ascii(v, width, 48u8);
        lemma_concat_ascii(seq![46u8], pad_text(v, width, 48u8));
    }
}

proof fn lemma_offset_text_ascii(secs: int, colon: bool)
    ensures
        ascii_bytes(strf_offset_text(secs, colon)),
{
    let sep = sep_text(colon);
    assert(ascii_bytes(sep));
    if secs == 0 {
        lemma_concat_ascii(seq![43u8, 48u8, 48u8], sep);
        lemma_concat_ascii(seq![43u8, 48u8, 48u8] + sep, seq![48u8, 48u8]);
    } else {
        let abs = if secs < 0 {
            -secs
        } else {
            secs
        };
        let h = dec_padded((abs / 3600) as nat, 2);
        let m = dec_padded(((abs % 3600) / 60) as nat, 2);
        let s = dec_padded((abs % 60) as nat, 2);
        lemma_dec_padded_ascii((abs / 3600) as nat, 2);
        lemma_dec_padded_ascii(((abs % 3600) / 60) as nat, 2);
        lemma_dec_padded_ascii((abs % 60) as nat, 2);
        lemma_concat_ascii(h, sep);
        lemma_concat_ascii(h + sep, m);
        lemma_concat_ascii(sep, s);
        let tail = if abs % 60 != 0 {
            sep + s
        } else {
            Seq::empty()
        };
        lemma_concat_ascii(h + sep + m, tail);
        assert(offset_fields_text(abs, colon) == h + sep + m + tail);
        if secs < 0 {
            lemma_concat_ascii(seq![45u8], offset_fields_text(abs, colon));
        } else {
            lemma_concat_ascii(seq![43u8], offset_fields_text(abs, colon));
        }
    }
}

/// A numeric directive (every one but the names `%a %A %b %h %B %Z`)
/// renders as ASCII.
proof fn lemma_simple_ascii(d: u8, pad: u8, width: int, p: Parts)
    requires
        d != 97u8 && d != 65u8 && d != 98u8 && d != 104u8 && d != 66u8 && d != 90u8,
        simple_text(d, pad, width, p) is Some,
    ensures
        ascii_bytes(simple_text(d, pad, width, p)->Some_0),
{
    reveal(simple_text);
    let t = simple_text(d, pad, width, p)->Some_0;
    let w4 = if width > 4 {
        width
    } else {
        4
    };
    if d == 89u8 || d == 71u8 {
        let v = if d == 89u8 {
            p.year as int
        } else {
            crate::calendar::iso_week_of_days(crate::strftime::parts_days(p)).0
        };
        lemma_signed_pad_text_ascii(v, w4, pad);
    } else if d == 122u8 {
        if p.offset is Some {
            lemma_offset_text_ascii(p.offset->Some_0 as int, false);
        }
    } else if d == 115u8 {
        if p.timestamp is Some {
            lemma_signed_text_ascii(p.timestamp->Some_0 as int);
        }
    } else if d == 112u8 || d == 80u8 || d == 110u8 || d == 116u8 || d == 37u8 {
        assert(ascii_bytes(t));
    } else {
        assert(exists|v: nat, w: int, c: u8| t == pad_text(v, w, c)) by {
            let z = crate::strftime::parts_days(p);
            let year = p.year as int;
            let wd = crate::calendar::weekday_of_days(z);
            let iso = crate::calendar::iso_week_of_days(z);
            if d == 121u8 {
                assert(t == pad_text((year % 100) as nat, 2, pad));
            } else if d == 67u8 {
                assert(t == pad_text(((year / 100) as u64) as nat, 2, pad));
            } else if d == 109u8 {
                assert(t == pad_text(p.month as nat, 2, pad));
            } else if d == 100u8 {
                assert(t == pad_text(p.day as nat, 2, pad));
            } else if d == 101u8 {
                assert(t == pad_text(p.day as nat, 2, 32u8));
            } else if d == 106u8 {
                assert(t == pad_text((z - crate::calendar::year_start(year) + 1) as nat, 3, pad));
            } else if d == 72u8 {
                assert(t == pad_text(p.hour as nat, 2, pad));
            } else if d == 73u8 {
                assert(t == pad_text(crate::strftime::hour12(p.hour as int) as nat, 2, pad));
            } else if d == 107u8 {
                assert(t == pad_text(p.hour as nat, 2, 32u8));
            } else if d == 108u8 {
                assert(t == pad_text(crate::strftime::hour12(p.hour as int) as nat, 2, 32u8));
            } else if d == 77u8 {
                assert(t == pad_text(p.minute as nat, 2, pad));
            } else if d == 83u8 {
                assert(t == pad_text(p.second as nat, 2, pad));
            } else if d == 102u8 {
                assert(t == pad_text(p.nanos as nat, 9, 48u8));
            } else if d == 103u8 {
                assert(t == pad_text((iso.0 % 100) as nat, 2, pad));
            } else if d == 86u8 {
                assert(t == pad_text(iso.1 as nat, 2, pad));
            } else if d == 117u8 {
                assert(t == pad_text((crate::calendar::weekday_num(wd) + 1) as nat, 1, pad));
            } else if d == 119u8 {
                assert(t == pad_text(((crate::calendar::weekday_num(wd) + 1) % 7) as nat, 1, pad));
            } else if d == 85u8 {
                let v = crate::strftime::week_of_year(
                    z,
                    crate::calendar::days_from_ymd(year, 1, 1),
                    true,
                );
                assert(t == pad_text(v as nat, 2, pad));
            } else {
                let v = crate::strftime::week_of_year(
                    z,
                    crate::calendar::days_from_ymd(year, 1, 1),
                    false,
                );
                assert(t == pad_text(v as nat, 2, pad));
            }
        }
        let (v, w, c) = choose|v: nat, w: int, c: u8| t == pad_text(v, w, c);
        lemma_pad_text_ascii(v, w, c);
    }
}

/// A directive that renders is an ASCII byte, and its rendering is UTF-8.
proof fn lemma_directive_utf8(d: u8, pad: u8, width: int, p: Parts)
    requires
        directive_text(d, pad, width, p) is Ok,
    ensures
        d < 128,
        valid_utf8(directive_text(d, pad, width, p)->Ok_0),
{
    let t = directive_text(d, pad, width, p)->Ok_0;
    if is_composite(d) {
        let s = |c: u8| simple_text(c, pad, width, p)->Some_0;
        reveal(simple_text);
        lemma_simple_ascii(89u8, pad, width, p);
        lemma_simple_ascii(89u8, pad, 4, p);
        lemma_simple_ascii(109u8, pad, width, p);
        lemma_simple_ascii(100u8, pad, width, p);
        lemma_simple_ascii(121u8, pad, width, p);
        lemma_simple_ascii(72u8, pad, width, p);
        lemma_simple_ascii(77u8, pad, width, p);
        lemma_simple_ascii(83u8, pad, width, p);
        lemma_simple_ascii(73u8, pad, width, p);
        lemma_simple_ascii(112u8, pad, width, p);
        lemma_frac_text_ascii(p.nanos as int, 0);
        if p.offset is Some {
            lemma_offset_text_ascii(p.offset->Some_0 as int, true);
        }
        assert(ascii_bytes(t)) by {
            assert forall|i: int| 0 <= i < t.len() implies #[trigger] t[i] < 128 by {
                if d == 70u8 {
                    lemma_concat_ascii(s(89u8), seq![45u8]);
                    lemma_concat_ascii(s(89u8) + seq![45u8], s(109u8));
                    lemma_concat_ascii(s(89u8) + seq![45u8] + s(109u8), seq![45u8]);
                    lemma_concat_ascii(s(89u8) + seq![45u8] + s(109u8) + seq![45u8], s(100u8));
                } else if d == 68u8 || d == 120u8 {
                    lemma_concat_ascii(s(109u8), seq![47u8]);
                    lemma_concat_ascii(s(109u8) + seq![47u8], s(100u8));
                    lemma_concat_ascii(s(109u8) + seq![47u8] + s(100u8), seq![47u8]);
                    lemma_concat_ascii(s(109u8) + seq![47u8] + s(100u8) + seq![47u8], s(121u8));
                } else if d == 82u8 {
                    lemma_concat_ascii(s(72u8), seq![58u8]);
                    lemma_concat_ascii(s(72u8) + seq![58u8], s(77u8));
                } else if d == 84u8 || d == 88u8 {
                    lemma_concat_ascii(s(72u8), seq![58u8]);
                    lemma_concat_ascii(s(72u8) + seq![58u8], s(77u8));
                    lemma_concat_ascii(s(72u8) + seq![58u8] + s(77u8), seq![58u8]);
                    lemma_concat_ascii(s(72u8) + seq![58u8] + s(77u8) + seq![58u8], s(83u8));
                } else if d == 114u8 {
                    let a = s(73u8) + seq![58u8] + s(77u8) + seq![58u8] + s(83u8);
                    lemma_concat_ascii(s(73u8), seq![58u8]);
                    lemma_concat_ascii(s(73u8) + seq![58u8], s(77u8));
                    lemma_concat_ascii(s(73u8) + seq![58u8] + s(77u8), seq![58u8]);
                    lemma_concat_ascii(s(73u8) + seq![58u8] + s(77u8) + seq![58u8], s(83u8));
                    lemma_concat_ascii(a, seq![32u8]);
                    lemma_concat_ascii(a + seq![32u8], s(112u8));
                } else {
                    let y4 = simple_text(89u8, pad, 4, p)->Some_0;
                    let a1 = y4 + seq![45u8] + s(109u8) + seq![45u8] + s(100u8);
                    lemma_concat_ascii(y4, seq![45u8]);
                    lemma_concat_ascii(y4 + seq![45u8], s(109u8));
                    lemma_concat_ascii(y4 + seq![45u8] + s(109u8), seq![45u8]);
                    lemma_concat_ascii(y4 + seq![45u8] + s(109u8) + seq![45u8], s(100u8));
                    let a2 = a1 + seq![84u8] + s(72u8) + seq![58u8] + s(77u8) + seq![58u8] + s(83u8);
                    lemma_concat_ascii(a1, seq![84u8]);
                    lemma_concat_ascii(a1 + seq![84u8], s(72u8));
                    lemma_concat_ascii(a1 + seq![84u8] + s(72u8), seq![58u8]);
                    lemma_concat_ascii(a1 + seq![84u8] + s(72u8) + seq![58u8], s(77u8));
                    lemma_concat_ascii(a1 + seq![84u8] + s(72u8) + seq![58u8] + s(77u8), seq![58u8]);
                    lemma_concat_ascii(
                        a1 + seq![84u8] + s(72u8) + seq![58u8] + s(77u8) + seq![58u8],
                        s(83u8),
                    );
                    let z = match p.offset {
                        Some(o) => strf_offset_text(o as int, true),
                        None => seq![90u8],
                    };
                    lemma_concat_ascii(a2, frac_text(p.nanos as int, 0));
                    lemma_concat_ascii(a2 + frac_text(p.nanos as int, 0), z);
                }
            }
        }
        lemma_ascii_valid(t);
    } else {
        reveal(simple_text);
        if d == 97u8 || d == 65u8 || d == 98u8 || d == 104u8 || d == 66u8 || d == 90u8 {
            let z = crate::strftime::parts_days(p);
            let wd = crate::calendar::weekday_of_days(z);
            let mo = crate::calendar::month_at(p.month as int);
            if d == 97u8 {
                encode_utf8_valid_utf8(crate::calendar::weekday_short_name(wd)@);
            } else if d == 65u8 {
                encode_utf8_valid_utf8(crate::calendar::weekday_name(wd)@);
            } else if d == 98u8 || d == 104u8 {
                encode_utf8_valid_utf8(crate::calendar::month_short_name(mo)@);
            } else if d == 66u8 {
                encode_utf8_valid_utf8(crate::calendar::month_name(mo)@);
            } else if p.zone_name is Some {
                encode_utf8_valid_utf8(p.zone_name->Some_0@);
            }
        } else {
            lemma_simple_ascii(d, pad, width, p);
            lemma_ascii_valid(t);
        }
    }
}

/// Stepping over an ASCII byte of a UTF-8 suffix leaves a UTF-8 suffix.
proof fn lemma_skip_ascii(f: Seq<u8>, i: int)
    requires
        0 <= i < f.len(),
        f[i] < 128,
        valid_utf8(f.subrange(i, f.len() as int)),
    ensures
        valid_utf8(f.subrange(i + 1, f.len() as int)),
{
    let g = f.subrange(i, f.len() as int);
    assert(g[0] == f[i]);
    assert(length_of_first_scalar(g) == 1);
    assert(pop_first_scalar(g) =~= f.subrange(i + 1, f.len() as int));
}

proof fn lemma_skip_ascii_run(f: Seq<u8>, i: int, j: int)
    requires
        0 <= i <= j <= f.len(),
        forall|x: int| i <= x < j ==> #[trigger] f[x] < 128,
        valid_utf8(f.subrange(i, f.len() as int)),
    ensures
        valid_utf8(f.subrange(j, f.len() as int)),
    decreases j - i,
{
    if i < j {
        lemma_skip_ascii(f, i);
        lemma_skip_ascii_run(f, i + 1, j);
    }
}

/// The digits of a width field are ASCII, and stepping over them leaves a
/// UTF-8 suffix.
proof fn lemma_skip_width(f: Seq<u8>, pos: int)
    requires
        0 <= pos <= f.len(),
        width_at(f, pos) is Ok,
        valid_utf8(f.subrange(pos, f.len() as int)),
    ensures
        pos <= width_at(f, pos)->Ok_0.1 <= f.len(),
        valid_utf8(f.subrange(width_at(f, pos)->Ok_0.1, f.len() as int)),
{
    let max = f.len() - pos;
    lemma_digit_run(f, pos, max);
    let n = digit_run(f, pos, max) as int;
    assert forall|x: int| pos <= x < pos + n implies #[trigger] f[x] < 128 by {
        assert(digit_at(f, pos + (x - pos)));
    }
    lemma_skip_ascii_run(f, pos, pos + n);
}

/// The first `%` at or after `i`, or the end.
pub open spec fn next_pct(f: Seq<u8>, i: int) -> int
    decreases f.len() - i,
{
    if i >= f.len() {
        f.len() as int
    } else if f[i] == 37u8 {
        i
    } else {
        next_pct(f, i + 1)
    }
}

/// A run of literal bytes is copied as it stands.
proof fn lemma_literal_run(f: Seq<u8>, i: int, p: Parts)
    requires
        0 <= i <= f.len(),
    ensures
        i <= next_pct(f, i) <= f.len(),
        next_pct(f, i) < f.len() ==> f[next_pct(f, i)] == 37u8,
        fmt_text(f, i, p) == prepend(f.subrange(i, next_pct(f, i)), fmt_text(f, next_pct(f, i), p)),
    decreases f.len() - i,
{
    let j = next_pct(f, i);
    if i >= f.len() || f[i] == 37u8 {
        assert(f.subrange(i, j) =~= Seq::<u8>::empty());
        match fmt_text(f, j, p) {
            Ok(t) => {
                assert(Seq::<u8>::empty() + t =~= t);
            },
            Err(_) => {},
        }
    } else {
        lemma_literal_run(f, i + 1, p);
        assert(seq![f[i]] + f.subrange(i + 1, j) =~= f.subrange(i, j));
        match fmt_text(f, j, p) {
            Ok(t) => {
                assert(seq![f[i]] + (f.subrange(i + 1, j) + t) =~= f.subrange(i, j) + t);
            },
            Err(_) => {},
        }
    }
}

/// The rendering of a UTF-8 suffix of a format string is UTF-8.
proof fn lemma_fmt_text_utf8_from(f: Seq<u8>, i: int, p: Parts)
    requires
        0 <= i <= f.len(),
        valid_utf8(f.subrange(i, f.len() as int)),
    ensures
        fmt_text(f, i, p) is Ok ==> valid_utf8(fmt_text(f, i, p)->Ok_0),
    decreases f.len() - i,
{
    let n = f.len() as int;
    if i >= n {
    } else if f[i] != 37u8 {
        lemma_literal_run(f, i, p);
        let j = next_pct(f, i);
        let g = f.subrange(i, n);
        if j == n {
            is_char_boundary_start_end_of_seq(g);
            assert(is_char_boundary(g, j - i));
        } else {
            is_char_boundary_iff_not_is_continuation_byte(g, j - i);
            assert(g[j - i] == 37u8);
        }
        valid_utf8_split(g, j - i);
        assert(g.subrange(0, j - i) =~= f.subrange(i, j));
        assert(g.subrange(j - i, g.len() as int) =~= f.subrange(j, n));
        lemma_fmt_text_utf8_from(f, j, p);
        if fmt_text(f, j, p) is Ok {
            valid_utf8_concat(f.subrange(i, j), fmt_text(f, j, p)->Ok_0);
        }
    } else if i + 1 >= n {
    } else {
        lemma_skip_ascii(f, i);
        if f[i + 1] == 58u8 {
            if i + 2 < n && f[i + 2] == 122u8 {
                lemma_skip_ascii(f, i + 1);
                lemma_skip_ascii(f, i + 2);
                lemma_fmt_text_utf8_from(f, i + 3, p);
                let head = match p.offset {
                    Some(o) => strf_offset_text(o as int, true),
                    None => Seq::empty(),
                };
                if p.offset is Some {
                    lemma_offset_text_ascii(p.offset->Some_0 as int, true);
                }
                lemma_ascii_valid(head);
                if fmt_text(f, i + 3, p) is Ok {
                    valid_utf8_concat(head, fmt_text(f, i + 3, p)->Ok_0);
                }
            }
        } else if f[i + 1] == 46u8 {
            lemma_skip_ascii(f, i + 1);
            if width_at(f, i + 2) is Ok {
                lemma_skip_width(f, i + 2);
                let wv = width_at(f, i + 2)->Ok_0;
                if wv.1 < n && f[wv.1] == 102u8 {
                    lemma_skip_ascii(f, wv.1);
                    lemma_fmt_text_utf8_from(f, wv.1 + 1, p);
                    lemma_frac_text_ascii(p.nanos as int, wv.0);
                    lemma_ascii_valid(frac_text(p.nanos as int, wv.0));
                    if fmt_text(f, wv.1 + 1, p) is Ok {
                        valid_utf8_concat(
                            frac_text(p.nanos as int, wv.0),
                            fmt_text(f, wv.1 + 1, p)->Ok_0,
                        );
                    }
                }
            }
        } else {
            let m = f[i + 1];
            let has_pad = m == 45u8 || m == 95u8 || m == 48u8 || m == 35u8;
            let pad: u8 = if !has_pad {
                48u8
            } else if m == 35u8 {
                45u8
            } else {
                m
            };
            let k = if has_pad {
                i + 2
            } else {
                i + 1
            };
            if has_pad {
                lemma_skip_ascii(f, i + 1);
            }
            if width_at(f, k) is Ok {
                lemma_skip_width(f, k);
                let wv = width_at(f, k)->Ok_0;
                if wv.1 < n && directive_text(f[wv.1], pad, wv.0, p) is Ok {
                    lemma_directive_utf8(f[wv.1], pad, wv.0, p);
                    lemma_skip_ascii(f, wv.1);
                    lemma_fmt_text_utf8_from(f, wv.1 + 1, p);
                    let t = directive_text(f[wv.1], pad, wv.0, p)->Ok_0;
                    if fmt_text(f, wv.1 + 1, p) is Ok {
                        valid_utf8_concat(t, fmt_text(f, wv.1 + 1, p)->Ok_0);
                    }
                }
            }
        }
    }
}

/// Whatever the format string and the reading, the formatter's output is
/// valid UTF-8.
pub proof fn law_format_output_is_text(fmt: &str)
    ensures
        forall|p: Parts|
            #[trigger] fmt_text(fmt.spec_bytes(), 0, p) is Ok ==> valid_utf8(
                fmt_text(fmt.spec_bytes(), 0, p)->Ok_0,
            ),
{
    let f = fmt.spec_bytes();
    encode_utf8_valid_utf8(fmt@);
    assert(f.subrange(0, f.len() as int) =~= f);
    assert forall|p: Parts| #[trigger] fmt_text(f, 0, p) is Ok implies valid_utf8(
        fmt_text(f, 0, p)->Ok_0,
    ) by {
        lemma_fmt_text_utf8_from(f, 0, p);
    }
}


// ---------------------------------------------------------------------------
// The fixed renderings are text
// ---------------------------------------------------------------------------

proof fn lemma_trim_zeros_ascii(s: Seq<u8>)
    requires
        ascii_bytes(s),
    ensures
        ascii_bytes(trim_zeros(s)),
{
    crate::round_trip::lemma_trim_zeros(s);
    assert forall|i: int| 0 <= i < trim_zeros(s).len() implies #[trigger] trim_zeros(s)[i] < 128 by {
        assert(trim_zeros(s)[i] == s[i]);
    }
}

proof fn lemma_year_text_ascii(y: int)
    ensures
        ascii_bytes(crate::format::year_text(y)),
{
    broadcast use lemma_concat_ascii;

    if y < 0 {
        lemma_dec_padded_ascii((-y) as nat, 4);
        assert(ascii_bytes(seq![45u8]));
    } else {
        lemma_dec_padded_ascii(y as nat, 4);
    }
}

/// The ISO rendering of a date is ASCII.
pub proof fn lemma_date_text_ascii(z: int)
    ensures
        ascii_bytes(crate::format::date_iso_text(z)),
{
    broadcast use lemma_concat_ascii;

    let t = crate::calendar::ymd_of_days(z);
    lemma_year_text_ascii(t.0);
    lemma_dec_padded_ascii(t.1 as nat, 2);
    lemma_dec_padded_ascii(t.2 as nat, 2);
    assert(ascii_bytes(seq![45u8]));
}

/// The ISO rendering of a time of day is ASCII.
pub proof fn lemma_time_text_ascii(n: int, f: crate::format::FractionDigits)
    ensures
        ascii_bytes(crate::format::time_iso_text(n, f)),
{
    broadcast use lemma_concat_ascii;

    let ns = n % 1_000_000_000;
    lemma_dec_padded_ascii((n / 3_600_000_000_000) as nat, 2);
    lemma_dec_padded_ascii(((n / 60_000_000_000) % 60) as nat, 2);
    lemma_dec_padded_ascii(((n / 1_000_000_000) % 60) as nat, 2);
    assert(ascii_bytes(seq![58u8]));
    assert(ascii_bytes(seq![46u8]));
    lemma_dec_padded_ascii((ns / 1_000_000) as nat, 3);
    lemma_dec_padded_ascii((ns / 1_000) as nat, 6);
    lemma_dec_padded_ascii(ns as nat, 9);
    lemma_trim_zeros_ascii(dec_padded(ns as nat, 9));
    assert(ascii_bytes(crate::format::fraction_text(ns, f)));
}

/// The RFC 3339 offset designator is ASCII.
pub proof fn lemma_offset_iso_ascii(secs: int)
    ensures
        ascii_bytes(crate::format::offset_text(secs)),
{
    broadcast use lemma_concat_ascii;

    let abs = if secs < 0 {
        -secs
    } else {
        secs
    };
    lemma_dec_padded_ascii((abs / 3600) as nat, 2);
    lemma_dec_padded_ascii(((abs % 3600) / 60) as nat, 2);
    lemma_dec_padded_ascii((abs % 60) as nat, 2);
    assert(ascii_bytes(seq![58u8]));
    assert(ascii_bytes(seq![45u8]));
    assert(ascii_bytes(seq![43u8]));
    assert(ascii_bytes(seq![90u8]));
    assert(ascii_bytes(Seq::<u8>::empty()));
}

/// The ISO rendering of a civil reading, and of one with an offset, are
/// ASCII.
pub proof fn lemma_civil_text_ascii(v: (int, int), secs: int, f: crate::format::FractionDigits)
    ensures
        ascii_bytes(crate::format::civil_text(v, f)),
        ascii_bytes(crate::format::rfc3339_text(v, secs, f)),
{
    broadcast use lemma_concat_ascii;

    lemma_date_text_ascii(v.0);
    lemma_time_text_ascii(v.1, f);
    lemma_offset_iso_ascii(secs);
    assert(ascii_bytes(seq![84u8]));
}

/// The ISO rendering of a span is ASCII.
pub proof fn lemma_duration_text_ascii(n: int)
    ensures
        ascii_bytes(crate::format::duration_text(n)),
{
    broadcast use lemma_concat_ascii;

    let abs = if n < 0 {
        -n
    } else {
        n
    };
    let days = abs / (crate::calendar::NS_PER_DAY as int);
    let rem = abs % (crate::calendar::NS_PER_DAY as int);
    let hours = rem / 3_600_000_000_000;
    let minutes = (rem % 3_600_000_000_000) / 60_000_000_000;
    let seconds = (rem % 60_000_000_000) / 1_000_000_000;
    let subsec = rem % 1_000_000_000;
    lemma_dec_digits_ascii(days as nat);
    lemma_dec_digits_ascii(hours as nat);
    lemma_dec_digits_ascii(minutes as nat);
    lemma_dec_digits_ascii(seconds as nat);
    lemma_dec_padded_ascii(subsec as nat, 9);
    lemma_trim_zeros_ascii(dec_padded(subsec as nat, 9));
    assert(ascii_bytes(seq![45u8]));
    assert(ascii_bytes(seq![46u8]));
    assert(ascii_bytes(seq![80u8]));
    assert(ascii_bytes(seq![84u8]));
    assert(ascii_bytes(seq![68u8]));
    assert(ascii_bytes(seq![72u8]));
    assert(ascii_bytes(seq![77u8]));
    assert(ascii_bytes(seq![83u8]));
    assert(ascii_bytes(seq![84u8, 48u8, 83u8]));
    assert(ascii_bytes(Seq::<u8>::empty()));
    assert(ascii_bytes(crate::format::unit_text(days, 68u8)));
    assert(ascii_bytes(crate::format::unit_text(hours, 72u8)));
    assert(ascii_bytes(crate::format::unit_text(minutes, 77u8)));
    assert(ascii_bytes(crate::format::duration_time_text(hours, minutes, seconds, subsec)));
}

/// The RFC 2822 rendering of a civil reading is UTF-8.
pub proof fn lemma_rfc2822_text_valid(v: (int, int), secs: int)
    ensures
        valid_utf8(crate::strftime::rfc2822_text(v, secs)),
{
    let t = crate::calendar::ymd_of_days(v.0);
    let wd = crate::calendar::weekday_short_name(crate::calendar::weekday_of_days(v.0));
    let mo = crate::calendar::month_short_name(crate::calendar::month_at(t.1));
    encode_utf8_valid_utf8(wd@);
    encode_utf8_valid_utf8(mo@);
    let x = seq![44u8, 32u8] + pad_text(t.2 as nat, 2, 32u8) + seq![32u8];
    let b = seq![32u8] + signed_pad_text(t.0, 4, 48u8) + seq![32u8];
    let clock = crate::strftime::rfc2822_clock_text(v.1, secs);
    assert(ascii_bytes(x) && ascii_bytes(b) && ascii_bytes(clock)) by {
        broadcast use lemma_concat_ascii;

        lemma_pad_text_ascii(t.2 as nat, 2, 32u8);
        lemma_signed_pad_text_ascii(t.0, 4, 48u8);
        lemma_dec_padded_ascii((v.1 / 3_600_000_000_000) as nat, 2);
        lemma_dec_padded_ascii(((v.1 / 60_000_000_000) % 60) as nat, 2);
        lemma_dec_padded_ascii(((v.1 / 1_000_000_000) % 60) as nat, 2);
        lemma_offset_text_ascii(secs, false);
        assert(ascii_bytes(seq![44u8, 32u8]));
        assert(ascii_bytes(seq![32u8]));
        assert(ascii_bytes(seq![58u8]));
    }
    lemma_ascii_valid(x);
    lemma_ascii_valid(b);
    lemma_ascii_valid(clock);
    valid_utf8_concat(wd.spec_bytes(), x);
    valid_utf8_concat(wd.spec_bytes() + x, mo.spec_bytes());
    valid_utf8_concat(wd.spec_bytes() + x + mo.spec_bytes(), b);
    let date = crate::strftime::rfc2822_date_text(v.0);
    assert(date =~= wd.spec_bytes() + x + mo.spec_bytes() + b);
    valid_utf8_concat(date, clock);
}

/// A signed count followed by ASCII bytes is ASCII.
pub proof fn lemma_signed_suffix_ascii(n: int, t: Seq<u8>)
    requires
        ascii_bytes(t),
    ensures
        ascii_bytes(signed_text(n) + t),
{
    lemma_signed_text_ascii(n);
    lemma_concat_ascii(signed_text(n), t);
}

} // verus!
