//! RFC 2822 round trips: what `to_rfc2822` writes, `from_rfc2822` reads
//! back, for the readings the format can carry in full.

use vstd::prelude::*;
use vstd::string::StringSliceAdditionalSpecFns;

use crate::calendar::{month_num, month_short_name, weekday_short_name, Month, Weekday};
use crate::strftime::{month_by_name, names_month, weekday_by_name};
use crate::text::{ascii_eq_ci, bytes_eq_ci, dec_digits, dec_padded, is_alpha, is_digit, lemma_dec_digits};
use crate::scan::{byte_at, digit_run, digits_val, pow10, scan_digits};
use crate::round_trip::{lemma_dec_digits_len, lemma_dec_digits_val, lemma_dec_padded, lemma_scan_block};
use crate::strftime::{
    pad_text, rfc2822_date_text, scan_int, scan_month_name, scan_weekday_name, signed_pad_text,
    skip_blanks, word_end, rfc2822_clock_text, scan_rfc2822_clock, scan_rfc2822_zone,
    strf_offset_text, offset_fields_text, rfc2822_outcome, rfc2822_text, rfc2822_year,
};
use crate::date::ymd_outcome;
use crate::duration::fits_i128;
use crate::ticks::{
    civil_ns, civil_of_ns, law_utc_projection_round_trip, rfc2822_instant, shift_outcome,
    ticks_rfc2822_text,
};
use crate::zoned::{anchor_outcome, zoned_civil_outcome, zoned_rfc2822_text};
use crate::format::{scan_offset, scan_offset_minutes, scan_offset_seconds};
use crate::time::lemma_hms_parts;
use crate::calendar::{lemma_ymd_of_days, month_at, weekday_of_days, ymd_of_days};

verus! {

broadcast use vstd::string::is_ascii_spec_bytes;

/// The bytes of the weekday names.
proof fn lemma_weekday_name_bytes()
    ensures
        "Monday".spec_bytes() == seq![77u8, 111u8, 110u8, 100u8, 97u8, 121u8],
        "Tuesday".spec_bytes() == seq![84u8, 117u8, 101u8, 115u8, 100u8, 97u8, 121u8],
        "Wednesday".spec_bytes() == seq![87u8, 101u8, 100u8, 110u8, 101u8, 115u8, 100u8, 97u8, 121u8],
        "Thursday".spec_bytes() == seq![84u8, 104u8, 117u8, 114u8, 115u8, 100u8, 97u8, 121u8],
        "Friday".spec_bytes() == seq![70u8, 114u8, 105u8, 100u8, 97u8, 121u8],
        "Saturday".spec_bytes() == seq![83u8, 97u8, 116u8, 117u8, 114u8, 100u8, 97u8, 121u8],
        "Sunday".spec_bytes() == seq![83u8, 117u8, 110u8, 100u8, 97u8, 121u8],
        "Mon".spec_bytes() == seq![77u8, 111u8, 110u8],
        "Tue".spec_bytes() == seq![84u8, 117u8, 101u8],
        "Wed".spec_bytes() == seq![87u8, 101u8, 100u8],
        "Thu".spec_bytes() == seq![84u8, 104u8, 117u8],
        "Fri".spec_bytes() == seq![70u8, 114u8, 105u8],
        "Sat".spec_bytes() == seq![83u8, 97u8, 116u8],
        "Sun".spec_bytes() == seq![83u8, 117u8, 110u8],
{
    reveal_strlit("Monday");
    reveal_strlit("Tuesday");
    reveal_strlit("Wednesday");
    reveal_strlit("Thursday");
    reveal_strlit("Friday");
    reveal_strlit("Saturday");
    reveal_strlit("Sunday");
    reveal_strlit("Mon");
    reveal_strlit("Tue");
    reveal_strlit("Wed");
    reveal_strlit("Thu");
    reveal_strlit("Fri");
    reveal_strlit("Sat");
    reveal_strlit("Sun");
    assert(vstd::string::is_ascii("Monday"));
    assert(vstd::string::is_ascii("Tuesday"));
    assert(vstd::string::is_ascii("Wednesday"));
    assert(vstd::string::is_ascii("Thursday"));
    assert(vstd::string::is_ascii("Friday"));
    assert(vstd::string::is_ascii("Saturday"));
    assert(vstd::string::is_ascii("Sunday"));
    assert(vstd::string::is_ascii("Mon"));
    assert(vstd::string::is_ascii("Tue"));
    assert(vstd::string::is_ascii("Wed"));
    assert(vstd::string::is_ascii("Thu"));
    assert(vstd::string::is_ascii("Fri"));
    assert(vstd::string::is_ascii("Sat"));
    assert(vstd::string::is_ascii("Sun"));
    assert("Monday".spec_bytes() =~= seq![77u8, 111u8, 110u8, 100u8, 97u8, 121u8]);
    assert("Tuesday".spec_bytes() =~= seq![84u8, 117u8, 101u8, 115u8, 100u8, 97u8, 121u8]);
    assert("Wednesday".spec_bytes() =~= seq![87u8, 101u8, 100u8, 110u8, 101u8, 115u8, 100u8, 97u8, 121u8]);
    assert("Thursday".spec_bytes() =~= seq![84u8, 104u8, 117u8, 114u8, 115u8, 100u8, 97u8, 121u8]);
    assert("Friday".spec_bytes() =~= seq![70u8, 114u8, 105u8, 100u8, 97u8, 121u8]);
    assert("Saturday".spec_bytes() =~= seq![83u8, 97u8, 116u8, 117u8, 114u8, 100u8, 97u8, 121u8]);
    assert("Sunday".spec_bytes() =~= seq![83u8, 117u8, 110u8, 100u8, 97u8, 121u8]);
    assert("Mon".spec_bytes() =~= seq![77u8, 111u8, 110u8]);
    assert("Tue".spec_bytes() =~= seq![84u8, 117u8, 101u8]);
    assert("Wed".spec_bytes() =~= seq![87u8, 101u8, 100u8]);
    assert("Thu".spec_bytes() =~= seq![84u8, 104u8, 117u8]);
    assert("Fri".spec_bytes() =~= seq![70u8, 114u8, 105u8]);
    assert("Sat".spec_bytes() =~= seq![83u8, 97u8, 116u8]);
    assert("Sun".spec_bytes() =~= seq![83u8, 117u8, 110u8]);
}

/// A weekday's abbreviation names it.
proof fn lemma_weekday_short_name(w: Weekday)
    ensures
        weekday_by_name(weekday_short_name(w).spec_bytes()) == Some(w),
{
    lemma_weekday_name_bytes();
    let s = weekday_short_name(w).spec_bytes();
    assert(s.len() == 3);
    assert(s != "Monday".spec_bytes() && s != "Tuesday".spec_bytes() && s != "Wednesday".spec_bytes()
        && s != "Thursday".spec_bytes() && s != "Friday".spec_bytes() && s != "Saturday".spec_bytes()
        && s != "Sunday".spec_bytes());
    match w {
        Weekday::Monday => {},
        Weekday::Tuesday => {
            assert(s[0] != seq![77u8, 111u8, 110u8][0]);
        },
        Weekday::Wednesday => {
            assert(s[0] != seq![77u8, 111u8, 110u8][0]);
            assert(s[0] != seq![84u8, 117u8, 101u8][0]);
        },
        Weekday::Thursday => {
            assert(s[0] != seq![77u8, 111u8, 110u8][0]);
            assert(s[1] != seq![84u8, 117u8, 101u8][1]);
            assert(s[0] != seq![87u8, 101u8, 100u8][0]);
        },
        Weekday::Friday => {
            assert(s[0] != seq![77u8, 111u8, 110u8][0]);
            assert(s[0] != seq![84u8, 117u8, 101u8][0]);
            assert(s[0] != seq![87u8, 101u8, 100u8][0]);
            assert(s[0] != seq![84u8, 104u8, 117u8][0]);
        },
        Weekday::Saturday => {
            assert(s[0] != seq![77u8, 111u8, 110u8][0]);
            assert(s[0] != seq![84u8, 117u8, 101u8][0]);
            assert(s[0] != seq![87u8, 101u8, 100u8][0]);
            assert(s[0] != seq![84u8, 104u8, 117u8][0]);
            assert(s[0] != seq![70u8, 114u8, 105u8][0]);
        },
        Weekday::Sunday => {
            assert(s[0] != seq![77u8, 111u8, 110u8][0]);
            assert(s[0] != seq![84u8, 117u8, 101u8][0]);
            assert(s[0] != seq![87u8, 101u8, 100u8][0]);
            assert(s[0] != seq![84u8, 104u8, 117u8][0]);
            assert(s[0] != seq![70u8, 114u8, 105u8][0]);
            assert(s[1] != seq![83u8, 97u8, 116u8][1]);
        },
    }
}

/// The bytes of the month names.
proof fn lemma_month_name_bytes()
    ensures
        "January".spec_bytes() == seq![74u8, 97u8, 110u8, 117u8, 97u8, 114u8, 121u8],
        "February".spec_bytes() == seq![70u8, 101u8, 98u8, 114u8, 117u8, 97u8, 114u8, 121u8],
        "March".spec_bytes() == seq![77u8, 97u8, 114u8, 99u8, 104u8],
        "April".spec_bytes() == seq![65u8, 112u8, 114u8, 105u8, 108u8],
        "May".spec_bytes() == seq![77u8, 97u8, 121u8],
        "June".spec_bytes() == seq![74u8, 117u8, 110u8, 101u8],
        "July".spec_bytes() == seq![74u8, 117u8, 108u8, 121u8],
        "August".spec_bytes() == seq![65u8, 117u8, 103u8, 117u8, 115u8, 116u8],
        "September".spec_bytes() == seq![83u8, 101u8, 112u8, 116u8, 101u8, 109u8, 98u8, 101u8, 114u8],
        "October".spec_bytes() == seq![79u8, 99u8, 116u8, 111u8, 98u8, 101u8, 114u8],
        "November".spec_bytes() == seq![78u8, 111u8, 118u8, 101u8, 109u8, 98u8, 101u8, 114u8],
        "December".spec_bytes() == seq![68u8, 101u8, 99u8, 101u8, 109u8, 98u8, 101u8, 114u8],
        "Jan".spec_bytes() == seq![74u8, 97u8, 110u8],
        "Feb".spec_bytes() == seq![70u8, 101u8, 98u8],
        "Mar".spec_bytes() == seq![77u8, 97u8, 114u8],
        "Apr".spec_bytes() == seq![65u8, 112u8, 114u8],
        "Jun".spec_bytes() == seq![74u8, 117u8, 110u8],
        "Jul".spec_bytes() == seq![74u8, 117u8, 108u8],
        "Aug".spec_bytes() == seq![65u8, 117u8, 103u8],
        "Sep".spec_bytes() == seq![83u8, 101u8, 112u8],
        "Oct".spec_bytes() == seq![79u8, 99u8, 116u8],
        "Nov".spec_bytes() == seq![78u8, 111u8, 118u8],
        "Dec".spec_bytes() == seq![68u8, 101u8, 99u8],
{
    reveal_strlit("January");
    reveal_strlit("February");
    reveal_strlit("March");
    reveal_strlit("April");
    reveal_strlit("May");
    reveal_strlit("June");
    reveal_strlit("July");
    reveal_strlit("August");
    reveal_strlit("September");
    reveal_strlit("October");
    reveal_strlit("November");
    reveal_strlit("December");
    reveal_strlit("Jan");
    reveal_strlit("Feb");
    reveal_strlit("Mar");
    reveal_strlit("Apr");
    reveal_strlit("Jun");
    reveal_strlit("Jul");
    reveal_strlit("Aug");
    reveal_strlit("Sep");
    reveal_strlit("Oct");
    reveal_strlit("Nov");
    reveal_strlit("Dec");
    assert(vstd::string::is_ascii("January"));
    assert(vstd::string::is_ascii("February"));
    assert(vstd::string::is_ascii("March"));
    assert(vstd::string::is_ascii("April"));
    assert(vstd::string::is_ascii("May"));
    assert(vstd::string::is_ascii("June"));
    assert(vstd::string::is_ascii("July"));
    assert(vstd::string::is_ascii("August"));
    assert(vstd::string::is_ascii("September"));
    assert(vstd::string::is_ascii("October"));
    assert(vstd::string::is_ascii("November"));
    assert(vstd::string::is_ascii("December"));
    assert(vstd::string::is_ascii("Jan"));
    assert(vstd::string::is_ascii("Feb"));
    assert(vstd::string::is_ascii("Mar"));
    assert(vstd::string::is_ascii("Apr"));
    assert(vstd::string::is_ascii("Jun"));
    assert(vstd::string::is_ascii("Jul"));
    assert(vstd::string::is_ascii("Aug"));
    assert(vstd::string::is_ascii("Sep"));
    assert(vstd::string::is_ascii("Oct"));
    assert(vstd::string::is_ascii("Nov"));
    assert(vstd::string::is_ascii("Dec"));
    assert("January".spec_bytes() =~= seq![74u8, 97u8, 110u8, 117u8, 97u8, 114u8, 121u8]);
    assert("February".spec_bytes() =~= seq![70u8, 101u8, 98u8, 114u8, 117u8, 97u8, 114u8, 121u8]);
    assert("March".spec_bytes() =~= seq![77u8, 97u8, 114u8, 99u8, 104u8]);
    assert("April".spec_bytes() =~= seq![65u8, 112u8, 114u8, 105u8, 108u8]);
    assert("May".spec_bytes() =~= seq![77u8, 97u8, 121u8]);
    assert("June".spec_bytes() =~= seq![74u8, 117u8, 110u8, 101u8]);
    assert("July".spec_bytes() =~= seq![74u8, 117u8, 108u8, 121u8]);
    assert("August".spec_bytes() =~= seq![65u8, 117u8, 103u8, 117u8, 115u8, 116u8]);
    assert("September".spec_bytes() =~= seq![83u8, 101u8, 112u8, 116u8, 101u8, 109u8, 98u8, 101u8, 114u8]);
    assert("October".spec_bytes() =~= seq![79u8, 99u8, 116u8, 111u8, 98u8, 101u8, 114u8]);
    assert("November".spec_bytes() =~= seq![78u8, 111u8, 118u8, 101u8, 109u8, 98u8, 101u8, 114u8]);
    assert("December".spec_bytes() =~= seq![68u8, 101u8, 99u8, 101u8, 109u8, 98u8, 101u8, 114u8]);
    assert("Jan".spec_bytes() =~= seq![74u8, 97u8, 110u8]);
    assert("Feb".spec_bytes() =~= seq![70u8, 101u8, 98u8]);
    assert("Mar".spec_bytes() =~= seq![77u8, 97u8, 114u8]);
    assert("Apr".spec_bytes() =~= seq![65u8, 112u8, 114u8]);
    assert("Jun".spec_bytes() =~= seq![74u8, 117u8, 110u8]);
    assert("Jul".spec_bytes() =~= seq![74u8, 117u8, 108u8]);
    assert("Aug".spec_bytes() =~= seq![65u8, 117u8, 103u8]);
    assert("Sep".spec_bytes() =~= seq![83u8, 101u8, 112u8]);
    assert("Oct".spec_bytes() =~= seq![79u8, 99u8, 116u8]);
    assert("Nov".spec_bytes() =~= seq![78u8, 111u8, 118u8]);
    assert("Dec".spec_bytes() =~= seq![68u8, 101u8, 99u8]);
}

/// Two byte strings that differ, ignoring ASCII case, at `j`.
proof fn lemma_ne_ci(a: Seq<u8>, b: Seq<u8>, j: int)
    requires
        0 <= j < a.len(),
        !ascii_eq_ci(a[j], b[j]),
    ensures
        !bytes_eq_ci(a, b),
{
}

/// A month's abbreviation names it (and no month before it).
proof fn lemma_month_short_name(m: Month)
    ensures
        month_by_name(month_short_name(m).spec_bytes()) == Some(month_num(m)),
{
    lemma_month_name_bytes();
    let s = month_short_name(m).spec_bytes();
    assert(s.len() == 3);
    assert(bytes_eq_ci(s, s));
    match m {
        Month::January => {
        },
        Month::February => {
            lemma_ne_ci(s, seq![74u8, 97u8, 110u8], 0);
        },
        Month::March => {
            lemma_ne_ci(s, seq![74u8, 97u8, 110u8], 0);
            lemma_ne_ci(s, seq![70u8, 101u8, 98u8], 0);
        },
        Month::April => {
            lemma_ne_ci(s, seq![74u8, 97u8, 110u8], 0);
            lemma_ne_ci(s, seq![70u8, 101u8, 98u8], 0);
            lemma_ne_ci(s, seq![77u8, 97u8, 114u8], 0);
        },
        Month::May => {
            lemma_ne_ci(s, seq![74u8, 97u8, 110u8], 0);
            lemma_ne_ci(s, seq![70u8, 101u8, 98u8], 0);
            lemma_ne_ci(s, seq![77u8, 97u8, 114u8], 2);
            lemma_ne_ci(s, seq![65u8, 112u8, 114u8], 0);
        },
        Month::June => {
            lemma_ne_ci(s, seq![74u8, 97u8, 110u8], 1);
            lemma_ne_ci(s, seq![70u8, 101u8, 98u8], 0);
            lemma_ne_ci(s, seq![77u8, 97u8, 114u8], 0);
            lemma_ne_ci(s, seq![65u8, 112u8, 114u8], 0);
            lemma_ne_ci(s, seq![77u8, 97u8, 121u8], 0);
            lemma_ne_ci(s, seq![77u8, 97u8, 121u8], 0);
        },
        Month::July => {
            lemma_ne_ci(s, seq![74u8, 97u8, 110u8], 1);
            lemma_ne_ci(s, seq![70u8, 101u8, 98u8], 0);
            lemma_ne_ci(s, seq![77u8, 97u8, 114u8], 0);
            lemma_ne_ci(s, seq![65u8, 112u8, 114u8], 0);
            lemma_ne_ci(s, seq![77u8, 97u8, 121u8], 0);
            lemma_ne_ci(s, seq![77u8, 97u8, 121u8], 0);
            lemma_ne_ci(s, seq![74u8, 117u8, 110u8], 2);
        },
        Month::August => {
            lemma_ne_ci(s, seq![74u8, 97u8, 110u8], 0);
            lemma_ne_ci(s, seq![70u8, 101u8, 98u8], 0);
            lemma_ne_ci(s, seq![77u8, 97u8, 114u8], 0);
            lemma_ne_ci(s, seq![65u8, 112u8, 114u8], 1);
            lemma_ne_ci(s, seq![77u8, 97u8, 121u8], 0);
            lemma_ne_ci(s, seq![77u8, 97u8, 121u8], 0);
            lemma_ne_ci(s, seq![74u8, 117u8, 110u8], 0);
            lemma_ne_ci(s, seq![74u8, 117u8, 108u8], 0);
        },
        Month::September => {
            lemma_ne_ci(s, seq![74u8, 97u8, 110u8], 0);
            lemma_ne_ci(s, seq![70u8, 101u8, 98u8], 0);
            lemma_ne_ci(s, seq![77u8, 97u8, 114u8], 0);
            lemma_ne_ci(s, seq![65u8, 112u8, 114u8], 0);
            lemma_ne_ci(s, seq![77u8, 97u8, 121u8], 0);
            lemma_ne_ci(s, seq![77u8, 97u8, 121u8], 0);
            lemma_ne_ci(s, seq![74u8, 117u8, 110u8], 0);
            lemma_ne_ci(s, seq![74u8, 117u8, 108u8], 0);
            lemma_ne_ci(s, seq![65u8, 117u8, 103u8], 0);
        },
        Month::October => {
            lemma_ne_ci(s, seq![74u8, 97u8, 110u8], 0);
            lemma_ne_ci(s, seq![70u8, 101u8, 98u8], 0);
            lemma_ne_ci(s, seq![77u8, 97u8, 114u8], 0);
            lemma_ne_ci(s, seq![65u8, 112u8, 114u8], 0);
            lemma_ne_ci(s, seq![77u8, 97u8, 121u8], 0);
            lemma_ne_ci(s, seq![77u8, 97u8, 121u8], 0);
            lemma_ne_ci(s, seq![74u8, 117u8, 110u8], 0);
            lemma_ne_ci(s, seq![74u8, 117u8, 108u8], 0);
            lemma_ne_ci(s, seq![65u8, 117u8, 103u8], 0);
            lemma_ne_ci(s, seq![83u8, 101u8, 112u8], 0);
        },
        Month::November => {
            lemma_ne_ci(s, seq![74u8, 97u8, 110u8], 0);
            lemma_ne_ci(s, seq![70u8, 101u8, 98u8], 0);
            lemma_ne_ci(s, seq![77u8, 97u8, 114u8], 0);
            lemma_ne_ci(s, seq![65u8, 112u8, 114u8], 0);
            lemma_ne_ci(s, seq![77u8, 97u8, 121u8], 0);
            lemma_ne_ci(s, seq![77u8, 97u8, 121u8], 0);
            lemma_ne_ci(s, seq![74u8, 117u8, 110u8], 0);
            lemma_ne_ci(s, seq![74u8, 117u8, 108u8], 0);
            lemma_ne_ci(s, seq![65u8, 117u8, 103u8], 0);
            lemma_ne_ci(s, seq![83u8, 101u8, 112u8], 0);
            lemma_ne_ci(s, seq![79u8, 99u8, 116u8], 0);
        },
        Month::December => {
            lemma_ne_ci(s, seq![74u8, 97u8, 110u8], 0);
            lemma_ne_ci(s, seq![70u8, 101u8, 98u8], 0);
            lemma_ne_ci(s, seq![77u8, 97u8, 114u8], 0);
            lemma_ne_ci(s, seq![65u8, 112u8, 114u8], 0);
            lemma_ne_ci(s, seq![77u8, 97u8, 121u8], 0);
            lemma_ne_ci(s, seq![77u8, 97u8, 121u8], 0);
            lemma_ne_ci(s, seq![74u8, 117u8, 110u8], 0);
            lemma_ne_ci(s, seq![74u8, 117u8, 108u8], 0);
            lemma_ne_ci(s, seq![65u8, 117u8, 103u8], 0);
            lemma_ne_ci(s, seq![83u8, 101u8, 112u8], 0);
            lemma_ne_ci(s, seq![79u8, 99u8, 116u8], 0);
            lemma_ne_ci(s, seq![78u8, 111u8, 118u8], 0);
        },
    }
}

/// A three-letter word at `p` followed by a non-letter ends there.
proof fn lemma_word_end3(b: Seq<u8>, p: int)
    requires
        0 <= p,
        p + 3 < b.len(),
        is_alpha(b[p]),
        is_alpha(b[p + 1]),
        is_alpha(b[p + 2]),
        !is_alpha(b[p + 3]),
    ensures
        word_end(b, p, false) == p + 3,
{
    assert(word_end(b, p + 3, false) == p + 3);
    assert(word_end(b, p + 2, false) == p + 3);
    assert(word_end(b, p + 1, false) == p + 3);
}

/// A block of digits at `p` that ends the run is read whole by `scan_int`
/// with zero padding (which skips nothing).
proof fn lemma_int_block(b: Seq<u8>, p: int, s: Seq<u8>, max: int)
    requires
        0 <= p,
        p + s.len() <= b.len(),
        b.subrange(p, p + s.len()) == s,
        forall|k: int| 0 <= k < s.len() ==> is_digit(#[trigger] s[k]),
        1 <= s.len() <= max,
        p + s.len() == b.len() || !is_digit(b[p + s.len()]) || s.len() == max,
    ensures
        scan_int(b, p, max, 48u8) == Ok::<(int, int), crate::scan::Fail>(
            (digits_val(s, 0, s.len() as int) as int, p + s.len()),
        ),
{
    lemma_scan_block(b, p, s, 1, max);
}

/// A weekday's abbreviation is three letters.
proof fn lemma_weekday_short_letters(w: Weekday)
    ensures
        weekday_short_name(w).spec_bytes().len() == 3,
        is_alpha(weekday_short_name(w).spec_bytes()[0]),
        is_alpha(weekday_short_name(w).spec_bytes()[1]),
        is_alpha(weekday_short_name(w).spec_bytes()[2]),
{
    lemma_weekday_name_bytes();
}

/// A month's abbreviation is three letters.
proof fn lemma_month_short_letters(m: Month)
    ensures
        month_short_name(m).spec_bytes().len() == 3,
        is_alpha(month_short_name(m).spec_bytes()[0]),
        is_alpha(month_short_name(m).spec_bytes()[1]),
        is_alpha(month_short_name(m).spec_bytes()[2]),
{
    lemma_month_name_bytes();
}

/// Scanning the date half of an RFC 2822 rendering (`Www, DD Mon YYYY `)
/// for a year of at most four digits, followed by the clock.
#[verifier::rlimit(80)]
#[verifier::spinoff_prover]
proof fn lemma_scan_rfc2822_date(b: Seq<u8>, z: int)
    requires
        i32::MIN <= z <= i32::MAX,
        0 <= ymd_of_days(z).0 <= 9999,
        17 < b.len(),
        b.subrange(0, 17) == rfc2822_date_text(z),
        is_digit(b[17]),
    ensures
        is_alpha(b[0]),
        scan_weekday_name(b, 0) == Ok::<(Option<Weekday>, int), crate::scan::Fail>(
            (Some(weekday_of_days(z)), 3),
        ),
        byte_at(b, 3) == Some(44u8),
        scan_int(b, skip_blanks(b, 4, 0), 2, 32u8) == Ok::<(int, int), crate::scan::Fail>(
            (ymd_of_days(z).2, 7),
        ),
        scan_month_name(b, skip_blanks(b, 7, 0)) == Ok::<(Option<int>, int), crate::scan::Fail>(
            (Some(ymd_of_days(z).1), 11),
        ),
        skip_blanks(b, 11, 0) == 12,
        scan_int(b, 12, 4, 48u8) == Ok::<(int, int), crate::scan::Fail>((ymd_of_days(z).0, 16)),
        skip_blanks(b, 16, 0) == 17,
{
    lemma_ymd_of_days(z);
    let (y, m, d) = ymd_of_days(z);
    let wd = weekday_of_days(z);
    let mo = month_at(m);
    assert(month_num(mo) == m);
    let w = weekday_short_name(wd).spec_bytes();
    let ms = month_short_name(mo).spec_bytes();
    let ds = pad_text(d as nat, 2, 32u8);
    let ys = signed_pad_text(y, 4, 48u8);
    lemma_weekday_short_letters(wd);
    lemma_month_short_letters(mo);
    lemma_weekday_short_name(wd);
    lemma_month_short_name(mo);
    let t = rfc2822_date_text(z);
    assert(t == w + seq![44u8, 32u8] + ds + seq![32u8] + ms + seq![32u8] + ys + seq![32u8]);
    // The day: one or two digits, space-padded to two.
    let dd = dec_digits(d as nat);
    lemma_dec_digits(d as nat);
    lemma_dec_digits_val(d as nat);
    assert(dd.len() <= 2) by {
        assert(pow10(2) == 100) by {
            reveal_with_fuel(pow10, 3);
        }
        lemma_dec_digits_len(d as nat, 2);
    }
    assert(ds.len() == 2);
    // The year: exactly four digits.
    lemma_dec_padded(y as nat, 4);
    assert(pow10(4) == 10000) by {
        reveal_with_fuel(pow10, 5);
    }
    assert(ys == dec_padded(y as nat, 4));
    assert(ys.len() == 4);
    assert(t.len() == 17);
    assert forall|k: int| 0 <= k < 17 implies #[trigger] b[k] == t[k] by {
        assert(b[k] == b.subrange(0, 17)[k]);
    }
    // The weekday name.
    assert(b[0] == w[0] && b[1] == w[1] && b[2] == w[2] && b[3] == 44u8 && b[4] == 32u8);
    lemma_word_end3(b, 0);
    assert(b.subrange(0, 3) =~= w);
    // The day.
    let q = 7 - dd.len();
    assert(b[5] == ds[0] && b[6] == ds[1] && b[7] == 32u8);
    if d < 10 {
        assert(ds == seq![32u8] + dd);
        assert(skip_blanks(b, 6, 0) == 6);
        assert(skip_blanks(b, 5, 0) == 6);
    } else {
        assert(ds == dd);
        assert(skip_blanks(b, 5, 0) == 5);
    }
    assert(skip_blanks(b, 4, 0) == q);
    assert(skip_blanks(b, q, 0) == q);
    assert(b.subrange(q, 7) =~= dd);
    lemma_scan_block(b, q, dd, 1, 2);
    // The month name.
    assert(b[8] == ms[0] && b[9] == ms[1] && b[10] == ms[2] && b[11] == 32u8);
    assert(skip_blanks(b, 8, 0) == 8);
    assert(skip_blanks(b, 7, 0) == 8);
    lemma_word_end3(b, 8);
    assert(b.subrange(8, 11) =~= ms);
    // The year.
    assert(b[12] == ys[0]);
    assert(skip_blanks(b, 12, 0) == 12);
    assert(b.subrange(12, 16) =~= ys);
    assert(b[16] == 32u8);
    lemma_int_block(b, 12, ys, 4);
    assert(skip_blanks(b, 17, 0) == 17);
}

/// Scanning the clock half of an RFC 2822 rendering (`HH:MM:SS +HHMM`),
/// for an offset of whole minutes, to the end of the input.
#[verifier::rlimit(80)]
#[verifier::spinoff_prover]
proof fn lemma_scan_rfc2822_clock(b: Seq<u8>, t: int, secs: int)
    requires
        0 <= t < 86_400_000_000_000,
        -86_400 < secs < 86_400,
        secs % 60 == 0,
        b.len() == 17 + rfc2822_clock_text(t, secs).len(),
        b.subrange(17, b.len() as int) == rfc2822_clock_text(t, secs),
    ensures
        scan_rfc2822_clock(b, 17) == Ok::<((int, int, int), int), crate::scan::Fail>(
            (
                (
                    t / 3_600_000_000_000,
                    (t / 60_000_000_000) % 60,
                    (t / 1_000_000_000) % 60,
                ),
                25,
            ),
        ),
        skip_blanks(b, 25, 0) == 26,
        26 < b.len(),
        scan_rfc2822_zone(b, 26) == Ok::<(int, int), crate::scan::Fail>((secs, b.len() as int)),
{
    lemma_hms_parts(t);
    let h = t / 3_600_000_000_000;
    let mi = (t / 60_000_000_000) % 60;
    let se = (t / 1_000_000_000) % 60;
    assert(pow10(2) == 100) by {
        reveal_with_fuel(pow10, 3);
    }
    lemma_dec_padded(h as nat, 2);
    lemma_dec_padded(mi as nat, 2);
    lemma_dec_padded(se as nat, 2);
    let hs = dec_padded(h as nat, 2);
    let ms = dec_padded(mi as nat, 2);
    let ss = dec_padded(se as nat, 2);
    let abs = if secs < 0 { -secs } else { secs };
    let oh = abs / 3600;
    let om = (abs % 3600) / 60;
    vstd::arithmetic::div_mod::lemma_fundamental_div_mod(abs, 3600);
    vstd::arithmetic::div_mod::lemma_fundamental_div_mod(abs % 3600, 60);
    vstd::arithmetic::div_mod::lemma_mod_mod(abs, 60, 60);
    assert(abs % 60 == 0);
    lemma_dec_padded(oh as nat, 2);
    lemma_dec_padded(om as nat, 2);
    let ohs = dec_padded(oh as nat, 2);
    let oms = dec_padded(om as nat, 2);
    let sign: u8 = if secs < 0 { 45u8 } else { 43u8 };
    let zt = strf_offset_text(secs, false);
    if secs == 0 {
        assert(ohs =~= seq![48u8, 48u8]) by {
            assert(dec_digits(0) == seq![48u8]);
        }
        assert(oms =~= seq![48u8, 48u8]) by {
            assert(dec_digits(0) == seq![48u8]);
        }
    }
    assert(zt =~= seq![sign] + ohs + oms);
    let c = rfc2822_clock_text(t, secs);
    assert(c =~= hs + seq![58u8] + ms + seq![58u8] + ss + seq![32u8] + (seq![sign] + ohs + oms));
    assert(c.len() == 14);
    assert forall|i: int| 17 <= i < 31 implies #[trigger] b[i] == c[i - 17] by {
        assert(b[i] == b.subrange(17, b.len() as int)[i - 17]);
    }
    // The clock.
    assert(b.subrange(17, 19) =~= hs);
    lemma_int_block(b, 17, hs, 2);
    assert(b[19] == 58u8);
    assert(b.subrange(20, 22) =~= ms);
    lemma_int_block(b, 20, ms, 2);
    assert(b[22] == 58u8);
    assert(b.subrange(23, 25) =~= ss);
    lemma_int_block(b, 23, ss, 2);
    assert(b[25] == 32u8);
    assert(b[26] == sign);
    assert(skip_blanks(b, 26, 0) == 26);
    // The zone.
    assert(b.subrange(27, 29) =~= ohs);
    lemma_scan_block(b, 27, ohs, 2, 2);
    assert(b.subrange(29, 31) =~= oms);
    lemma_scan_block(b, 29, oms, 2, 2);
    assert(is_digit(b[29]));
    assert(scan_offset_minutes(b, 29) == Ok::<(int, int), crate::scan::Fail>((om, 31)));
    assert(scan_offset_seconds(b, 31) == Ok::<(int, int), crate::scan::Fail>((0, 31)));
    assert(oh * 3600 + om * 60 == abs);
    assert(scan_offset(b, 26) == Ok::<(i32, int), crate::scan::Fail>((secs as i32, 31)));
}

/// The date half of an RFC 2822 rendering is 17 bytes for a year of at
/// most four digits.
proof fn lemma_rfc2822_date_len(z: int)
    requires
        0 <= ymd_of_days(z).0 <= 9999,
    ensures
        rfc2822_date_text(z).len() == 17,
{
    lemma_ymd_of_days(z);
    let (y, m, d) = ymd_of_days(z);
    lemma_weekday_short_letters(weekday_of_days(z));
    lemma_month_short_letters(month_at(m));
    lemma_dec_digits(d as nat);
    assert(dec_digits(d as nat).len() <= 2) by {
        assert(pow10(2) == 100) by {
            reveal_with_fuel(pow10, 3);
        }
        lemma_dec_digits_len(d as nat, 2);
    }
    lemma_dec_padded(y as nat, 4);
    assert(pow10(4) == 10000) by {
        reveal_with_fuel(pow10, 5);
    }
}

/// RFC 2822 dates round trip: parsing the RFC 2822 rendering of a civil
/// reading in an offset gives back the day, the time of day and the offset,
/// for every reading that the format carries in full: a year from 0 to
/// 9999, whole seconds, and an offset of whole minutes.
#[verifier::rlimit(80)]
#[verifier::spinoff_prover]
pub proof fn law_rfc2822_round_trip(v: (int, int), secs: int)
    requires
        i32::MIN <= v.0 <= i32::MAX,
        0 <= ymd_of_days(v.0).0 <= 9999,
        0 <= v.1 < 86_400_000_000_000,
        v.1 % 1_000_000_000 == 0,
        -86_400 < secs < 86_400,
        secs % 60 == 0,
    ensures
        rfc2822_outcome(rfc2822_text(v, secs)) == Ok::<(int, int, int), crate::scan::Fail>(
            (v.0, v.1, secs),
        ),
{
    let b = rfc2822_text(v, secs);
    let dt = rfc2822_date_text(v.0);
    let ct = rfc2822_clock_text(v.1, secs);
    lemma_rfc2822_date_len(v.0);
    assert(b == dt + ct);
    assert(b.subrange(0, 17) =~= dt);
    assert(b.subrange(17, b.len() as int) =~= ct);
    lemma_hms_parts(v.1);
    let h = v.1 / 3_600_000_000_000;
    lemma_dec_padded(h as nat, 2);
    assert(b[17] == ct[0]);
    assert(ct[0] == dec_padded(h as nat, 2)[0]);
    lemma_scan_rfc2822_date(b, v.0);
    lemma_scan_rfc2822_clock(b, v.1, secs);
    lemma_ymd_of_days(v.0);
    let (y, m, d) = ymd_of_days(v.0);
    assert(rfc2822_year(y, 4) == y);
    assert(ymd_outcome(y, m, d) == Ok::<int, &'static str>(v.0));
}

/// A whole-second instant has a whole-second time of day.
proof fn lemma_whole_second_day(ns: int)
    requires
        ns % 1_000_000_000 == 0,
    ensures
        (ns % 86_400_000_000_000) % 1_000_000_000 == 0,
{
    vstd::arithmetic::div_mod::lemma_mod_mod(ns, 1_000_000_000, 86_400);
}

/// Instants round trip through RFC 2822: parsing the UTC rendering of a
/// whole-second instant whose year is from 0 to 9999 names the same
/// instant.
#[verifier::rlimit(80)]
#[verifier::spinoff_prover]
pub proof fn law_ticks_rfc2822_round_trip(ns: int)
    requires
        fits_i128(ns),
        civil_of_ns(ns, "instant") is Ok,
        0 <= ymd_of_days(civil_of_ns(ns, "instant")->Ok_0.0).0 <= 9999,
        ns % 1_000_000_000 == 0,
    ensures
        rfc2822_outcome(ticks_rfc2822_text(ns)) is Ok,
        rfc2822_instant(rfc2822_outcome(ticks_rfc2822_text(ns))->Ok_0) == Ok::<
            int,
            crate::error::ErrorKind,
        >(ns),
{
    let c = civil_of_ns(ns, "instant")->Ok_0;
    law_utc_projection_round_trip(ns);
    lemma_whole_second_day(ns);
    law_rfc2822_round_trip(c, 0);
    assert(ticks_rfc2822_text(ns) == rfc2822_text(c, 0));
    assert(shift_outcome(civil_ns(c), 0) == Ok::<int, crate::error::ErrorKind>(ns));
}

/// Zoned instants round trip through RFC 2822: parsing the rendering of a
/// whole-second instant in an offset of whole minutes, whose local year is
/// from 0 to 9999, gives back the offset, and anchoring the parsed reading
/// in it gives back the instant.
#[verifier::rlimit(80)]
#[verifier::spinoff_prover]
pub proof fn law_zoned_rfc2822_round_trip(v: (int, int))
    requires
        fits_i128(v.0),
        -86_400 < v.1 < 86_400,
        v.1 % 60 == 0,
        v.0 % 1_000_000_000 == 0,
        zoned_civil_outcome(v) is Ok,
        0 <= ymd_of_days(zoned_civil_outcome(v)->Ok_0.0).0 <= 9999,
    ensures
        rfc2822_outcome(zoned_rfc2822_text(v)) is Ok,
        rfc2822_outcome(zoned_rfc2822_text(v))->Ok_0.2 == v.1,
        anchor_outcome(
            (rfc2822_outcome(zoned_rfc2822_text(v))->Ok_0.0, rfc2822_outcome(zoned_rfc2822_text(v))->Ok_0.1),
            v.1,
        ) == Ok::<int, crate::error::ErrorKind>(v.0),
{
    let ns = shift_outcome(v.0, v.1 * 1_000_000_000)->Ok_0;
    let c = civil_of_ns(ns, "instant")->Ok_0;
    law_utc_projection_round_trip(ns);
    assert(ns % 1_000_000_000 == 0) by {
        vstd::arithmetic::div_mod::lemma_mod_multiples_vanish(v.1, v.0, 1_000_000_000);
    }
    lemma_whole_second_day(ns);
    law_rfc2822_round_trip(c, v.1);
    assert(zoned_rfc2822_text(v) == rfc2822_text(c, v.1));
}


/// `w` stands at `pos` as a whole word: no letter follows it.
pub open spec fn zone_word_at(b: Seq<u8>, pos: int, w: Seq<u8>) -> bool {
    &&& 0 <= pos
    &&& pos + w.len() <= b.len()
    &&& b.subrange(pos, pos + w.len()) == w
    &&& (pos + w.len() == b.len() || !is_alpha(b[pos + w.len()]))
}

/// The bytes of the RFC 2822 zone names.
proof fn lemma_zone_name_bytes()
    ensures
        "UT".spec_bytes() == seq![85u8, 84u8],
        "GMT".spec_bytes() == seq![71u8, 77u8, 84u8],
        "UTC".spec_bytes() == seq![85u8, 84u8, 67u8],
        "Z".spec_bytes() == seq![90u8],
        "EST".spec_bytes() == seq![69u8, 83u8, 84u8],
        "EDT".spec_bytes() == seq![69u8, 68u8, 84u8],
        "CST".spec_bytes() == seq![67u8, 83u8, 84u8],
        "CDT".spec_bytes() == seq![67u8, 68u8, 84u8],
        "MST".spec_bytes() == seq![77u8, 83u8, 84u8],
        "MDT".spec_bytes() == seq![77u8, 68u8, 84u8],
        "PST".spec_bytes() == seq![80u8, 83u8, 84u8],
        "PDT".spec_bytes() == seq![80u8, 68u8, 84u8],
{
    reveal_strlit("UT");
    reveal_strlit("GMT");
    reveal_strlit("UTC");
    reveal_strlit("Z");
    reveal_strlit("EST");
    reveal_strlit("EDT");
    reveal_strlit("CST");
    reveal_strlit("CDT");
    reveal_strlit("MST");
    reveal_strlit("MDT");
    reveal_strlit("PST");
    reveal_strlit("PDT");
    assert(vstd::string::is_ascii("UT"));
    assert(vstd::string::is_ascii("GMT"));
    assert(vstd::string::is_ascii("UTC"));
    assert(vstd::string::is_ascii("Z"));
    assert(vstd::string::is_ascii("EST"));
    assert(vstd::string::is_ascii("EDT"));
    assert(vstd::string::is_ascii("CST"));
    assert(vstd::string::is_ascii("CDT"));
    assert(vstd::string::is_ascii("MST"));
    assert(vstd::string::is_ascii("MDT"));
    assert(vstd::string::is_ascii("PST"));
    assert(vstd::string::is_ascii("PDT"));
    assert("UT".spec_bytes() =~= seq![85u8, 84u8]);
    assert("GMT".spec_bytes() =~= seq![71u8, 77u8, 84u8]);
    assert("UTC".spec_bytes() =~= seq![85u8, 84u8, 67u8]);
    assert("Z".spec_bytes() =~= seq![90u8]);
    assert("EST".spec_bytes() =~= seq![69u8, 83u8, 84u8]);
    assert("EDT".spec_bytes() =~= seq![69u8, 68u8, 84u8]);
    assert("CST".spec_bytes() =~= seq![67u8, 83u8, 84u8]);
    assert("CDT".spec_bytes() =~= seq![67u8, 68u8, 84u8]);
    assert("MST".spec_bytes() =~= seq![77u8, 83u8, 84u8]);
    assert("MDT".spec_bytes() =~= seq![77u8, 68u8, 84u8]);
    assert("PST".spec_bytes() =~= seq![80u8, 83u8, 84u8]);
    assert("PDT".spec_bytes() =~= seq![80u8, 68u8, 84u8]);
}

/// A word of letters ends where the letters do.
proof fn lemma_word_end_letters(b: Seq<u8>, pos: int, w: Seq<u8>, k: int)
    requires
        zone_word_at(b, pos, w),
        forall|i: int| 0 <= i < w.len() ==> is_alpha(#[trigger] w[i]),
        0 <= k <= w.len(),
    ensures
        word_end(b, pos + k, false) == pos + w.len(),
    decreases w.len() - k,
{
    if k < w.len() {
        assert(b[pos + k] == b.subrange(pos, pos + w.len())[k]);
        lemma_word_end_letters(b, pos, w, k + 1);
    }
}

/// Where the input holds an RFC 2822 named zone (section 4.3) as a whole
/// word, the zone is read as that zone's offset from UTC: `UT` and `GMT`
/// are UTC; the North American zones lie west of it, Eastern standard time
/// five hours, Central six, Mountain seven and Pacific eight, with daylight
/// time one hour less.
pub proof fn law_rfc2822_named_zones(b: Seq<u8>, pos: int)
    ensures
        zone_word_at(b, pos, "UT".spec_bytes()) ==> scan_rfc2822_zone(b, pos) == Ok::<(int, int), crate::scan::Fail>(
            (0int, pos + 2),
        ),
        zone_word_at(b, pos, "GMT".spec_bytes()) ==> scan_rfc2822_zone(b, pos) == Ok::<(int, int), crate::scan::Fail>(
            (0int, pos + 3),
        ),
        zone_word_at(b, pos, "EST".spec_bytes()) ==> scan_rfc2822_zone(b, pos) == Ok::<(int, int), crate::scan::Fail>(
            (-5 * 3600, pos + 3),
        ),
        zone_word_at(b, pos, "EDT".spec_bytes()) ==> scan_rfc2822_zone(b, pos) == Ok::<(int, int), crate::scan::Fail>(
            (-4 * 3600, pos + 3),
        ),
        zone_word_at(b, pos, "CST".spec_bytes()) ==> scan_rfc2822_zone(b, pos) == Ok::<(int, int), crate::scan::Fail>(
            (-6 * 3600, pos + 3),
        ),
        zone_word_at(b, pos, "CDT".spec_bytes()) ==> scan_rfc2822_zone(b, pos) == Ok::<(int, int), crate::scan::Fail>(
            (-5 * 3600, pos + 3),
        ),
        zone_word_at(b, pos, "MST".spec_bytes()) ==> scan_rfc2822_zone(b, pos) == Ok::<(int, int), crate::scan::Fail>(
            (-7 * 3600, pos + 3),
        ),
        zone_word_at(b, pos, "MDT".spec_bytes()) ==> scan_rfc2822_zone(b, pos) == Ok::<(int, int), crate::scan::Fail>(
            (-6 * 3600, pos + 3),
        ),
        zone_word_at(b, pos, "PST".spec_bytes()) ==> scan_rfc2822_zone(b, pos) == Ok::<(int, int), crate::scan::Fail>(
            (-8 * 3600, pos + 3),
        ),
        zone_word_at(b, pos, "PDT".spec_bytes()) ==> scan_rfc2822_zone(b, pos) == Ok::<(int, int), crate::scan::Fail>(
            (-7 * 3600, pos + 3),
        ),
{
    lemma_zone_name_bytes();
    assert(seq![85u8, 84u8, 67u8][0] != seq![71u8, 77u8, 84u8][0]);
    assert(seq![69u8, 83u8, 84u8][0] != seq![71u8, 77u8, 84u8][0]);
    assert(seq![69u8, 83u8, 84u8][0] != seq![85u8, 84u8, 67u8][0]);
    assert(seq![69u8, 68u8, 84u8][0] != seq![71u8, 77u8, 84u8][0]);
    assert(seq![69u8, 68u8, 84u8][0] != seq![85u8, 84u8, 67u8][0]);
    assert(seq![69u8, 68u8, 84u8][1] != seq![69u8, 83u8, 84u8][1]);
    assert(seq![67u8, 83u8, 84u8][0] != seq![71u8, 77u8, 84u8][0]);
    assert(seq![67u8, 83u8, 84u8][0] != seq![85u8, 84u8, 67u8][0]);
    assert(seq![67u8, 83u8, 84u8][0] != seq![69u8, 83u8, 84u8][0]);
    assert(seq![67u8, 83u8, 84u8][0] != seq![69u8, 68u8, 84u8][0]);
    assert(seq![67u8, 68u8, 84u8][0] != seq![71u8, 77u8, 84u8][0]);
    assert(seq![67u8, 68u8, 84u8][0] != seq![85u8, 84u8, 67u8][0]);
    assert(seq![67u8, 68u8, 84u8][0] != seq![69u8, 83u8, 84u8][0]);
    assert(seq![67u8, 68u8, 84u8][0] != seq![69u8, 68u8, 84u8][0]);
    assert(seq![67u8, 68u8, 84u8][1] != seq![67u8, 83u8, 84u8][1]);
    assert(seq![77u8, 83u8, 84u8][0] != seq![71u8, 77u8, 84u8][0]);
    assert(seq![77u8, 83u8, 84u8][0] != seq![85u8, 84u8, 67u8][0]);
    assert(seq![77u8, 83u8, 84u8][0] != seq![69u8, 83u8, 84u8][0]);
    assert(seq![77u8, 83u8, 84u8][0] != seq![69u8, 68u8, 84u8][0]);
    assert(seq![77u8, 83u8, 84u8][0] != seq![67u8, 83u8, 84u8][0]);
    assert(seq![77u8, 83u8, 84u8][0] != seq![67u8, 68u8, 84u8][0]);
    assert(seq![77u8, 68u8, 84u8][0] != seq![71u8, 77u8, 84u8][0]);
    assert(seq![77u8, 68u8, 84u8][0] != seq![85u8, 84u8, 67u8][0]);
    assert(seq![77u8, 68u8, 84u8][0] != seq![69u8, 83u8, 84u8][0]);
    assert(seq![77u8, 68u8, 84u8][0] != seq![69u8, 68u8, 84u8][0]);
    assert(seq![77u8, 68u8, 84u8][0] != seq![67u8, 83u8, 84u8][0]);
    assert(seq![77u8, 68u8, 84u8][0] != seq![67u8, 68u8, 84u8][0]);
    assert(seq![77u8, 68u8, 84u8][1] != seq![77u8, 83u8, 84u8][1]);
    assert(seq![80u8, 83u8, 84u8][0] != seq![71u8, 77u8, 84u8][0]);
    assert(seq![80u8, 83u8, 84u8][0] != seq![85u8, 84u8, 67u8][0]);
    assert(seq![80u8, 83u8, 84u8][0] != seq![69u8, 83u8, 84u8][0]);
    assert(seq![80u8, 83u8, 84u8][0] != seq![69u8, 68u8, 84u8][0]);
    assert(seq![80u8, 83u8, 84u8][0] != seq![67u8, 83u8, 84u8][0]);
    assert(seq![80u8, 83u8, 84u8][0] != seq![67u8, 68u8, 84u8][0]);
    assert(seq![80u8, 83u8, 84u8][0] != seq![77u8, 83u8, 84u8][0]);
    assert(seq![80u8, 83u8, 84u8][0] != seq![77u8, 68u8, 84u8][0]);
    assert(seq![80u8, 68u8, 84u8][0] != seq![71u8, 77u8, 84u8][0]);
    assert(seq![80u8, 68u8, 84u8][0] != seq![85u8, 84u8, 67u8][0]);
    assert(seq![80u8, 68u8, 84u8][0] != seq![69u8, 83u8, 84u8][0]);
    assert(seq![80u8, 68u8, 84u8][0] != seq![69u8, 68u8, 84u8][0]);
    assert(seq![80u8, 68u8, 84u8][0] != seq![67u8, 83u8, 84u8][0]);
    assert(seq![80u8, 68u8, 84u8][0] != seq![67u8, 68u8, 84u8][0]);
    assert(seq![80u8, 68u8, 84u8][0] != seq![77u8, 83u8, 84u8][0]);
    assert(seq![80u8, 68u8, 84u8][0] != seq![77u8, 68u8, 84u8][0]);
    assert(seq![80u8, 68u8, 84u8][1] != seq![80u8, 83u8, 84u8][1]);
    if zone_word_at(b, pos, seq![85u8, 84u8]) {
        let w = seq![85u8, 84u8];
        assert(forall|i: int| 0 <= i < w.len() ==> is_alpha(#[trigger] w[i]));
        lemma_word_end_letters(b, pos, w, 0);
        assert(b[pos] == w[0]) by {
            assert(b[pos] == b.subrange(pos, pos + w.len())[0]);
        }
    }
    if zone_word_at(b, pos, seq![71u8, 77u8, 84u8]) {
        let w = seq![71u8, 77u8, 84u8];
        assert(forall|i: int| 0 <= i < w.len() ==> is_alpha(#[trigger] w[i]));
        lemma_word_end_letters(b, pos, w, 0);
        assert(b[pos] == w[0]) by {
            assert(b[pos] == b.subrange(pos, pos + w.len())[0]);
        }
    }
    if zone_word_at(b, pos, seq![69u8, 83u8, 84u8]) {
        let w = seq![69u8, 83u8, 84u8];
        assert(forall|i: int| 0 <= i < w.len() ==> is_alpha(#[trigger] w[i]));
        lemma_word_end_letters(b, pos, w, 0);
        assert(b[pos] == w[0]) by {
            assert(b[pos] == b.subrange(pos, pos + w.len())[0]);
        }
    }
    if zone_word_at(b, pos, seq![69u8, 68u8, 84u8]) {
        let w = seq![69u8, 68u8, 84u8];
        assert(forall|i: int| 0 <= i < w.len() ==> is_alpha(#[trigger] w[i]));
        lemma_word_end_letters(b, pos, w, 0);
        assert(b[pos] == w[0]) by {
            assert(b[pos] == b.subrange(pos, pos + w.len())[0]);
        }
    }
    if zone_word_at(b, pos, seq![67u8, 83u8, 84u8]) {
        let w = seq![67u8, 83u8, 84u8];
        assert(forall|i: int| 0 <= i < w.len() ==> is_alpha(#[trigger] w[i]));
        lemma_word_end_letters(b, pos, w, 0);
        assert(b[pos] == w[0]) by {
            assert(b[pos] == b.subrange(pos, pos + w.len())[0]);
        }
    }
    if zone_word_at(b, pos, seq![67u8, 68u8, 84u8]) {
        let w = seq![67u8, 68u8, 84u8];
        assert(forall|i: int| 0 <= i < w.len() ==> is_alpha(#[trigger] w[i]));
        lemma_word_end_letters(b, pos, w, 0);
        assert(b[pos] == w[0]) by {
            assert(b[pos] == b.subrange(pos, pos + w.len())[0]);
        }
    }
    if zone_word_at(b, pos, seq![77u8, 83u8, 84u8]) {
        let w = seq![77u8, 83u8, 84u8];
        assert(forall|i: int| 0 <= i < w.len() ==> is_alpha(#[trigger] w[i]));
        lemma_word_end_letters(b, pos, w, 0);
        assert(b[pos] == w[0]) by {
            assert(b[pos] == b.subrange(pos, pos + w.len())[0]);
        }
    }
    if zone_word_at(b, pos, seq![77u8, 68u8, 84u8]) {
        let w = seq![77u8, 68u8, 84u8];
        assert(forall|i: int| 0 <= i < w.len() ==> is_alpha(#[trigger] w[i]));
        lemma_word_end_letters(b, pos, w, 0);
        assert(b[pos] == w[0]) by {
            assert(b[pos] == b.subrange(pos, pos + w.len())[0]);
        }
    }
    if zone_word_at(b, pos, seq![80u8, 83u8, 84u8]) {
        let w = seq![80u8, 83u8, 84u8];
        assert(forall|i: int| 0 <= i < w.len() ==> is_alpha(#[trigger] w[i]));
        lemma_word_end_letters(b, pos, w, 0);
        assert(b[pos] == w[0]) by {
            assert(b[pos] == b.subrange(pos, pos + w.len())[0]);
        }
    }
    if zone_word_at(b, pos, seq![80u8, 68u8, 84u8]) {
        let w = seq![80u8, 68u8, 84u8];
        assert(forall|i: int| 0 <= i < w.len() ==> is_alpha(#[trigger] w[i]));
        lemma_word_end_letters(b, pos, w, 0);
        assert(b[pos] == w[0]) by {
            assert(b[pos] == b.subrange(pos, pos + w.len())[0]);
        }
    }
}

} // verus!
