//! Strict parsing and formatting of `YYYY-MM-DD` date strings and
//! `YYYY-MM-DDTHH:MM:SS` datetime strings, and the timestamps they denote.
use crate::calendar::{days_from_civil, proper_date, date_of_days};
use crate::radix::{digit_char, digit_str};
use vstd::prelude::*;
use vstd::string::StrSliceExecFns;
use vstd::string::StringExecFns;

verus! {

/// `c` is a decimal digit.
pub open spec fn is_dec_digit(c: char) -> bool {
    '0' <= c && c <= '9'
}

/// Value of a decimal digit character.
pub open spec fn dec_val(c: char) -> int {
    c as int - 48
}

/// The first ten characters have the shape `YYYY-MM-DD`.
pub open spec fn date_head_ok(s: Seq<char>) -> bool {
    &&& s.len() >= 10
    &&& is_dec_digit(s[0])
    &&& is_dec_digit(s[1])
    &&& is_dec_digit(s[2])
    &&& is_dec_digit(s[3])
    &&& s[4] == '-'
    &&& is_dec_digit(s[5])
    &&& is_dec_digit(s[6])
    &&& s[7] == '-'
    &&& is_dec_digit(s[8])
    &&& is_dec_digit(s[9])
}

/// The whole string has the shape `YYYY-MM-DD`.
pub open spec fn date_pattern_ok(s: Seq<char>) -> bool {
    s.len() == 10 && date_head_ok(s)
}

/// The whole string has the shape `YYYY-MM-DDTHH:MM:SS`.
pub open spec fn iso_pattern_ok(s: Seq<char>) -> bool {
    &&& s.len() == 19
    &&& date_head_ok(s)
    &&& s[10] == 'T'
    &&& is_dec_digit(s[11])
    &&& is_dec_digit(s[12])
    &&& s[13] == ':'
    &&& is_dec_digit(s[14])
    &&& is_dec_digit(s[15])
    &&& s[16] == ':'
    &&& is_dec_digit(s[17])
    &&& is_dec_digit(s[18])
}

/// The year named by the first four characters.
pub open spec fn parsed_year(s: Seq<char>) -> int {
    1000 * dec_val(s[0]) + 100 * dec_val(s[1]) + 10 * dec_val(s[2]) + dec_val(s[3])
}

/// The month named by characters five and six.
pub open spec fn parsed_month(s: Seq<char>) -> int {
    10 * dec_val(s[5]) + dec_val(s[6])
}

/// The day named by characters eight and nine.
pub open spec fn parsed_day(s: Seq<char>) -> int {
    10 * dec_val(s[8]) + dec_val(s[9])
}

/// The hour named by characters eleven and twelve.
pub open spec fn parsed_hour(s: Seq<char>) -> int {
    10 * dec_val(s[11]) + dec_val(s[12])
}

/// The minute named by characters fourteen and fifteen.
pub open spec fn parsed_minute(s: Seq<char>) -> int {
    10 * dec_val(s[14]) + dec_val(s[15])
}

/// The second named by characters seventeen and eighteen.
pub open spec fn parsed_second(s: Seq<char>) -> int {
    10 * dec_val(s[17]) + dec_val(s[18])
}

/// `h`:`mi`:`sec` is a time of day.
pub open spec fn valid_time(h: int, mi: int, sec: int) -> bool {
    0 <= h < 24 && 0 <= mi < 60 && 0 <= sec < 60
}

/// The string is a well-shaped date naming a day that exists.
pub open spec fn date_input_parses(s: Seq<char>) -> bool {
    date_pattern_ok(s) && proper_date(parsed_year(s), parsed_month(s), parsed_day(s))
}

/// The string is a well-shaped datetime naming an instant that exists.
pub open spec fn iso_input_parses(s: Seq<char>) -> bool {
    &&& iso_pattern_ok(s)
    &&& proper_date(parsed_year(s), parsed_month(s), parsed_day(s))
    &&& valid_time(parsed_hour(s), parsed_minute(s), parsed_second(s))
}

/// The timestamp of midnight on the parsed date.
pub open spec fn date_timestamp(s: Seq<char>) -> int {
    86400 * days_from_civil(parsed_year(s), parsed_month(s), parsed_day(s))
}

/// The timestamp of the parsed datetime.
pub open spec fn iso_timestamp(s: Seq<char>) -> int {
    86400 * days_from_civil(parsed_year(s), parsed_month(s), parsed_day(s)) + 3600 * parsed_hour(s)
        + 60 * parsed_minute(s) + parsed_second(s)
}

/// Hour of day of a timestamp.
pub open spec fn hour_of(t: int) -> int {
    (t % 86400) / 3600
}

/// Minute of hour of a timestamp.
pub open spec fn minute_of(t: int) -> int {
    ((t % 86400) % 3600) / 60
}

/// Second of minute of a timestamp.
pub open spec fn second_of(t: int) -> int {
    ((t % 86400) % 3600) % 60
}

/// The two characters of a zero-padded two-digit number.
pub open spec fn two_digits(v: int) -> Seq<char> {
    seq![digit_char(v / 10), digit_char(v % 10)]
}

/// The four characters of a zero-padded four-digit number.
pub open spec fn four_digits(v: int) -> Seq<char> {
    seq![
        digit_char(v / 1000),
        digit_char((v / 100) % 10),
        digit_char((v / 10) % 10),
        digit_char(v % 10),
    ]
}

/// The `YYYY-MM-DD` string of a date.
pub open spec fn date_chars(y: int, m: int, d: int) -> Seq<char> {
    four_digits(y) + seq!['-'] + two_digits(m) + seq!['-'] + two_digits(d)
}

/// The `THH:MM:SS` tail of a datetime string.
pub open spec fn time_chars(h: int, mi: int, sec: int) -> Seq<char> {
    seq!['T'] + two_digits(h) + seq![':'] + two_digits(mi) + seq![':'] + two_digits(sec)
}

/// The `YYYY-MM-DD` string of a timestamp's calendar date.
pub open spec fn date_string_of(t: int) -> Seq<char> {
    let (y, m, d) = date_of_days(t / 86400);
    date_chars(y, m, d)
}

/// The `YYYY-MM-DDTHH:MM:SS` string of a timestamp.
pub open spec fn iso_string_of(t: int) -> Seq<char> {
    let (y, m, d) = date_of_days(t / 86400);
    date_chars(y, m, d) + time_chars(hour_of(t), minute_of(t), second_of(t))
}

/// Reads the decimal digit at position `i`.
fn dec_at(s: &str, i: usize) -> (r: Option<u8>)
    requires
        i < s@.len(),
    ensures
        match r {
            Some(v) => is_dec_digit(s@[i as int]) && v == dec_val(s@[i as int]),
            None => !is_dec_digit(s@[i as int]),
        },
{
    let c = s.get_char(i);
    if '0' <= c && c <= '9' {
        Some((c as u8) - 48)
    } else {
        None
    }
}

/// Splits a strict `YYYY-MM-DD` string into its numeric components.
pub fn parse_date(s: &str) -> (r: Option<(u16, u8, u8)>)
    ensures
        match r {
            Some(ymd) => {
                &&& date_pattern_ok(s@)
                &&& ymd.0 == parsed_year(s@)
                &&& ymd.1 == parsed_month(s@)
                &&& ymd.2 == parsed_day(s@)
            },
            None => !date_pattern_ok(s@),
        },
{
    let n = s.unicode_len();
    if n != 10 {
        return None;
    }
    if !(s.get_char(4) == '-' && s.get_char(7) == '-') {
        return None;
    }
    let (y, m, d) = match parse_head(s) {
        Some(ymd) => ymd,
        None => {
            return None;
        },
    };
    Some((y, m, d))
}

/// Reads the year, month and day digits of a `YYYY-MM-DD` head.
fn parse_head(s: &str) -> (r: Option<(u16, u8, u8)>)
    requires
        s@.len() >= 10,
    ensures
        match r {
            Some(ymd) => {
                &&& is_dec_digit(s@[0]) && is_dec_digit(s@[1]) && is_dec_digit(s@[2])
                    && is_dec_digit(s@[3])
                &&& is_dec_digit(s@[5]) && is_dec_digit(s@[6])
                &&& is_dec_digit(s@[8]) && is_dec_digit(s@[9])
                &&& ymd.0 == parsed_year(s@)
                &&& ymd.1 == parsed_month(s@)
                &&& ymd.2 == parsed_day(s@)
            },
            None => !(is_dec_digit(s@[0]) && is_dec_digit(s@[1]) && is_dec_digit(s@[2])
                && is_dec_digit(s@[3]) && is_dec_digit(s@[5]) && is_dec_digit(s@[6])
                && is_dec_digit(s@[8]) && is_dec_digit(s@[9])),
        },
{
    let y0 = dec_at(s, 0);
    let y1 = dec_at(s, 1);
    let y2 = dec_at(s, 2);
    let y3 = dec_at(s, 3);
    let m0 = dec_at(s, 5);
    let m1 = dec_at(s, 6);
    let d0 = dec_at(s, 8);
    let d1 = dec_at(s, 9);
    match (y0, y1, y2, y3, m0, m1, d0, d1) {
        (
            Some(a),
            Some(b),
            Some(c),
            Some(d),
            Some(e),
            Some(f),
            Some(g),
            Some(h),
        ) => {
            let y: u16 = 1000 * (a as u16) + 100 * (b as u16) + 10 * (c as u16) + (d as u16);
            let m: u8 = 10 * e + f;
            let dd: u8 = 10 * g + h;
            Some((y, m, dd))
        },
        _ => None,
    }
}

/// Splits a strict `YYYY-MM-DDTHH:MM:SS` string into its numeric components.
pub fn parse_iso(s: &str) -> (r: Option<(u16, u8, u8, u8, u8, u8)>)
    ensures
        match r {
            Some(c) => {
                &&& iso_pattern_ok(s@)
                &&& c.0 == parsed_year(s@)
                &&& c.1 == parsed_month(s@)
                &&& c.2 == parsed_day(s@)
                &&& c.3 == parsed_hour(s@)
                &&& c.4 == parsed_minute(s@)
                &&& c.5 == parsed_second(s@)
            },
            None => !iso_pattern_ok(s@),
        },
{
    let n = s.unicode_len();
    if n != 19 {
        return None;
    }
    if !(s.get_char(4) == '-' && s.get_char(7) == '-' && s.get_char(10) == 'T' && s.get_char(13)
        == ':' && s.get_char(16) == ':') {
        return None;
    }
    let (y, m, d) = match parse_head(s) {
        Some(ymd) => ymd,
        None => {
            return None;
        },
    };
    let h0 = dec_at(s, 11);
    let h1 = dec_at(s, 12);
    let i0 = dec_at(s, 14);
    let i1 = dec_at(s, 15);
    let s0 = dec_at(s, 17);
    let s1 = dec_at(s, 18);
    match (h0, h1, i0, i1, s0, s1) {
        (Some(a), Some(b), Some(c), Some(d2), Some(e), Some(f)) => {
            let hh: u8 = 10 * a + b;
            let mi: u8 = 10 * c + d2;
            let ss: u8 = 10 * e + f;
            Some((y, m, d, hh, mi, ss))
        },
        _ => None,
    }
}

/// Appends a number below 100 as two zero-padded digits.
fn push_two_digits(out: &mut String, v: u8)
    requires
        v < 100,
    ensures
        final(out)@ == old(out)@ + two_digits(v as int),
{
    out.append(digit_str(v / 10));
    out.append(digit_str(v % 10));
    proof {
        assert(final(out)@ =~= old(out)@ + two_digits(v as int));
    }
}

/// Appends a number below 10000 as four zero-padded digits.
fn push_four_digits(out: &mut String, v: u16)
    requires
        v < 10000,
    ensures
        final(out)@ == old(out)@ + four_digits(v as int),
{
    out.append(digit_str((v / 1000) as u8));
    out.append(digit_str(((v / 100) % 10) as u8));
    out.append(digit_str(((v / 10) % 10) as u8));
    out.append(digit_str((v % 10) as u8));
    proof {
        assert(final(out)@ =~= old(out)@ + four_digits(v as int));
    }
}

/// Writes a date as its strict `YYYY-MM-DD` string.
pub fn format_date(y: u16, m: u8, d: u8) -> (r: String)
    requires
        y < 10000,
        m < 100,
        d < 100,
    ensures
        r@ == date_chars(y as int, m as int, d as int),
{
    proof {
        reveal_strlit("-");
    }
    let mut out = String::new();
    push_four_digits(&mut out, y);
    out.append("-");
    push_two_digits(&mut out, m);
    out.append("-");
    push_two_digits(&mut out, d);
    proof {
        assert(out@ =~= date_chars(y as int, m as int, d as int));
    }
    out
}

/// Writes a datetime as its strict `YYYY-MM-DDTHH:MM:SS` string.
pub fn format_iso(y: u16, m: u8, d: u8, h: u8, mi: u8, sec: u8) -> (r: String)
    requires
        y < 10000,
        m < 100,
        d < 100,
        h < 100,
        mi < 100,
        sec < 100,
    ensures
        r@ == date_chars(y as int, m as int, d as int) + time_chars(
            h as int,
            mi as int,
            sec as int,
        ),
{
    proof {
        reveal_strlit("-");
        reveal_strlit("T");
        reveal_strlit(":");
    }
    let mut out = String::new();
    push_four_digits(&mut out, y);
    out.append("-");
    push_two_digits(&mut out, m);
    out.append("-");
    push_two_digits(&mut out, d);
    out.append("T");
    push_two_digits(&mut out, h);
    out.append(":");
    push_two_digits(&mut out, mi);
    out.append(":");
    push_two_digits(&mut out, sec);
    proof {
        assert(out@ =~= date_chars(y as int, m as int, d as int) + time_chars(
            h as int,
            mi as int,
            sec as int,
        ));
    }
    out
}

} // verus!
