//! Round-trip laws of the library: a zID decodes back to the timestamp it
//! was written for, the decoded datetime string parses back to the same
//! timestamp, and re-encoding it gives the same zID again.
use crate::calendar::{date_of_days, lemma_date_of_days, ts_in_range};
use crate::datetime::{
    date_input_parses, date_string_of, date_timestamp, dec_val, four_digits, hour_of,
    iso_input_parses, iso_string_of, iso_timestamp, minute_of, parsed_day, parsed_hour,
    parsed_minute, parsed_month, parsed_second, parsed_year, second_of, two_digits, valid_time,
};
use crate::radix::{all_radix_digits, digit_char, lemma_radix_round_trip, radix_val, zid_of};
use vstd::arithmetic::div_mod::{
    lemma_div_denominator, lemma_div_is_ordered, lemma_fundamental_div_mod,
};
use vstd::prelude::*;

verus! {

/// Law: a zID written for an in-range timestamp `t` is made of digits of its
/// base, carries no leading zero, and decodes back to `t` exactly. With the
/// contracts of `zid_to_date` and `zid_to_iso_date` this says that decoding
/// an encoded timestamp reproduces the UTC calendar date and datetime
/// strings of `t`.
pub proof fn lemma_zid_round_trip(t: u64, base: u8)
    requires
        10 <= base <= 36,
        ts_in_range(t as int),
    ensures
        all_radix_digits(zid_of(t as nat, base as nat), base as int),
        radix_val(zid_of(t as nat, base as nat), base as int) == t,
        t > 0 ==> zid_of(t as nat, base as nat)[0] != '0',
{
    lemma_radix_round_trip(t as nat, base as nat);
}

/// A two-digit rendering reads back as its value.
proof fn lemma_two_digit_value(v: int)
    requires
        0 <= v < 100,
    ensures
        is_two_dec_digits(two_digits(v)),
        10 * dec_val(two_digits(v)[0]) + dec_val(two_digits(v)[1]) == v,
{
    lemma_fundamental_div_mod(v, 10);
}

/// Both characters of a two-digit rendering are decimal digits.
spec fn is_two_dec_digits(s: Seq<char>) -> bool {
    crate::datetime::is_dec_digit(s[0]) && crate::datetime::is_dec_digit(s[1])
}

/// A four-digit rendering reads back as its value.
proof fn lemma_four_digit_value(v: int)
    requires
        0 <= v < 10000,
    ensures
        crate::datetime::is_dec_digit(four_digits(v)[0]),
        crate::datetime::is_dec_digit(four_digits(v)[1]),
        crate::datetime::is_dec_digit(four_digits(v)[2]),
        crate::datetime::is_dec_digit(four_digits(v)[3]),
        1000 * dec_val(four_digits(v)[0]) + 100 * dec_val(four_digits(v)[1]) + 10 * dec_val(
            four_digits(v)[2],
        ) + dec_val(four_digits(v)[3]) == v,
{
    lemma_fundamental_div_mod(v, 1000);
    lemma_fundamental_div_mod(v, 100);
    lemma_fundamental_div_mod(v, 10);
    lemma_fundamental_div_mod(v / 100, 10);
    lemma_fundamental_div_mod(v / 10, 10);
    lemma_div_denominator(v, 100, 10);
    lemma_div_denominator(v, 10, 10);
    assert((v / 100) / 10 == v / 1000);
    assert((v / 10) / 10 == v / 100);
    lemma_div_is_ordered(v, 9999, 1000);
}

/// The nineteen characters of a formatted datetime string, spelled out.
spec fn iso_literal(y: int, m: int, d: int, h: int, mi: int, sec: int) -> Seq<char> {
    seq![
        digit_char(y / 1000),
        digit_char((y / 100) % 10),
        digit_char((y / 10) % 10),
        digit_char(y % 10),
        '-',
        digit_char(m / 10),
        digit_char(m % 10),
        '-',
        digit_char(d / 10),
        digit_char(d % 10),
        'T',
        digit_char(h / 10),
        digit_char(h % 10),
        ':',
        digit_char(mi / 10),
        digit_char(mi % 10),
        ':',
        digit_char(sec / 10),
        digit_char(sec % 10),
    ]
}

/// Law: the datetime string written for an in-range timestamp `t` parses
/// back, names a year from 1970 on, and denotes `t` itself. With the
/// contracts of `zid_to_iso_date` and `zid_from_iso_date` this says that
/// decoding a zID and encoding the decoded string again is stable.
pub proof fn lemma_iso_string_round_trip(t: u64)
    requires
        ts_in_range(t as int),
    ensures
        iso_input_parses(iso_string_of(t as int)),
        parsed_year(iso_string_of(t as int)) >= 1970,
        iso_timestamp(iso_string_of(t as int)) == t,
{
    let ti = t as int;
    let days = ti / 86400;
    let sod = ti % 86400;
    let rem = sod % 3600;
    let (y, m, d) = date_of_days(days);
    let h = hour_of(ti);
    let mi = minute_of(ti);
    let sec = second_of(ti);
    crate::lemma_day_of_ts(t);
    lemma_date_of_days(days);
    lemma_fundamental_div_mod(ti, 86400);
    lemma_fundamental_div_mod(sod, 3600);
    lemma_fundamental_div_mod(rem, 60);
    lemma_div_is_ordered(sod, 86399, 3600);
    lemma_div_is_ordered(rem, 3599, 60);
    assert(valid_time(h, mi, sec));
    assert(86400 * days + 3600 * h + 60 * mi + sec == ti);
    let s = iso_string_of(ti);
    assert(s =~= iso_literal(y, m, d, h, mi, sec));
    lemma_four_digit_value(y);
    lemma_two_digit_value(m);
    lemma_two_digit_value(d);
    lemma_two_digit_value(h);
    lemma_two_digit_value(mi);
    lemma_two_digit_value(sec);
    assert(parsed_year(s) == y);
    assert(parsed_month(s) == m);
    assert(parsed_day(s) == d);
    assert(parsed_hour(s) == h);
    assert(parsed_minute(s) == mi);
    assert(parsed_second(s) == sec);
    assert(iso_timestamp(s) == t);
}

/// Law: the date string written for an in-range timestamp `t` parses back,
/// names a year from 1970 on, and denotes midnight of the calendar date of
/// `t`. With the contracts of `zid_to_date` and `zid_from_date` this says
/// that the date-only projection of a decoded zID survives re-encoding.
pub proof fn lemma_date_string_round_trip(t: u64)
    requires
        ts_in_range(t as int),
    ensures
        date_input_parses(date_string_of(t as int)),
        parsed_year(date_string_of(t as int)) >= 1970,
        date_timestamp(date_string_of(t as int)) == 86400 * (t as int / 86400),
{
    let ti = t as int;
    let days = ti / 86400;
    let (y, m, d) = date_of_days(days);
    crate::lemma_day_of_ts(t);
    lemma_date_of_days(days);
    let s = date_string_of(ti);
    assert(s =~= iso_literal(y, m, d, 0, 0, 0).take(10));
    lemma_four_digit_value(y);
    lemma_two_digit_value(m);
    lemma_two_digit_value(d);
    assert(parsed_year(s) == y);
    assert(parsed_month(s) == m);
    assert(parsed_day(s) == d);
}

/// Law: encode, decode, encode is stable — the zID of the timestamp that the
/// decoded datetime string denotes is the zID that was decoded.
pub proof fn lemma_zid_stability(t: u64, base: u8)
    requires
        10 <= base <= 36,
        ts_in_range(t as int),
    ensures
        ({
            let z = zid_of(t as nat, base as nat);
            let s = iso_string_of(radix_val(z, base as int));
            zid_of(iso_timestamp(s) as nat, base as nat) == z
        }),
{
    lemma_zid_round_trip(t, base);
    lemma_iso_string_round_trip(t);
}

} // verus!
