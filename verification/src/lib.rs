//! Conversion between Unix timestamps and compact radix-encoded identifiers
//! ("zIDs") for note-taking: a zID is the timestamp written in a base between
//! 10 and 36, with digits `0`-`9` then lowercase `a`-`z`. Timestamps are
//! read and written as UTC calendar dates (`YYYY-MM-DD`, taken as midnight)
//! or datetimes (`YYYY-MM-DDTHH:MM:SS`), from 1970 up to the year 9999.
pub mod calendar;
pub mod datetime;
pub mod laws;
pub mod radix;

use crate::calendar::{
    civil_from_days, days_from_civil_exec, days_in_month_exec, lemma_days_before_year_bounds,
    ts_in_range, timestamp_limit,
};
use crate::datetime::{
    date_input_parses, date_timestamp, format_date, format_iso, iso_input_parses, iso_timestamp,
    parse_date, parse_iso, parsed_year, date_string_of, iso_string_of,
};
use crate::radix::{all_radix_digits, encode_radix, parse_radix, radix_val, zid_of};
use vstd::arithmetic::div_mod::{lemma_div_is_ordered, lemma_fundamental_div_mod};
use vstd::prelude::*;

verus! {

/// Why a conversion was refused.
#[derive(Debug, Clone, Copy, PartialEq, Eq, Structural)]
pub enum ZidError {
    /// The input does not match the expected pattern, names a day or time
    /// that does not exist, or holds a character that is not a digit of the
    /// base.
    ParseError,
    /// The input names an instant outside the representable range.
    RangeError,
}

/// Clamps a requested radix base into the supported range `[10, 36]`.
pub fn get_base_radix(input: u8) -> (r: u8)
    ensures
        r == if input < 10 {
            10u8
        } else if input > 36 {
            36u8
        } else {
            input
        },
{
    let max_base: u8 = 36;
    let min_base: u8 = 10;
    if input < min_base {
        min_base
    } else if input > max_base {
        max_base
    } else {
        input
    }
}

/// Relies on chrono's `Utc::now` and `DateTime::timestamp`: the current
/// wall-clock time as whole seconds since the Unix epoch, UTC. The value
/// depends on the system clock alone, so nothing is promised of it.
#[verifier::external_body]
fn unix_time_now() -> i64 {
    chrono::Utc::now().timestamp()
}

/// The timestamp range accepted by this library fits in a `u64`.
proof fn lemma_limit_fits()
    ensures
        0 < timestamp_limit() < u64::MAX,
{
    lemma_days_before_year_bounds(10000);
    calendar::lemma_days_before_year_mono(1970, 10000);
}

/// A timestamp is in range exactly when its day number is below the day limit.
proof fn lemma_day_of_ts(t: u64)
    ensures
        ts_in_range(t as int) <==> t as int / 86400 < calendar::day_limit(),
{
    lemma_fundamental_div_mod(t as int, 86400);
    if t as int / 86400 < calendar::day_limit() {
        assert(t as int == 86400 * (t as int / 86400) + (t as int % 86400));
        assert(86400 * (t as int / 86400) <= 86400 * (calendar::day_limit() - 1));
    } else {
        assert(86400 * (t as int / 86400) >= 86400 * calendar::day_limit());
    }
}

/// Generates a zID for the current wall-clock time, or `RangeError` if the
/// clock stands outside the representable timestamp range.
pub fn now_to_zid(base: u8) -> (r: Result<String, ZidError>)
    requires
        10 <= base <= 36,
    ensures
        match r {
            Ok(z) => exists|t: u64|
                ts_in_range(t as int) && z@ == zid_of(t as nat, base as nat),
            Err(e) => e == ZidError::RangeError,
        },
{
    let now = unix_time_now();
    if now < 0 {
        return Err(ZidError::RangeError);
    }
    let t = now as u64;
    match civil_from_days(t / 86400) {
        Some(_) => {
            proof {
                lemma_day_of_ts(t);
            }
            let z = encode_radix(t, base);
            proof {
                assert(ts_in_range(t as int) && z@ == zid_of(t as nat, base as nat));
            }
            Ok(z)
        },
        None => Err(ZidError::RangeError),
    }
}

/// Generates a zID from a strict `YYYY-MM-DD` date, taken as midnight UTC.
/// Rejects ill-shaped strings and days that do not exist with `ParseError`,
/// and dates before 1970 with `RangeError`.
pub fn zid_from_date(base: u8, input: String) -> (r: Result<String, ZidError>)
    requires
        10 <= base <= 36,
    ensures
        match r {
            Ok(z) => {
                &&& date_input_parses(input@)
                &&& parsed_year(input@) >= 1970
                &&& ts_in_range(date_timestamp(input@))
                &&& z@ == zid_of(date_timestamp(input@) as nat, base as nat)
            },
            Err(ZidError::ParseError) => !date_input_parses(input@),
            Err(ZidError::RangeError) => date_input_parses(input@) && parsed_year(input@) < 1970,
        },
{
    let (y, m, d) = match parse_date(input.as_str()) {
        Some(x) => x,
        None => {
            return Err(ZidError::ParseError);
        },
    };
    if m < 1 || m > 12 {
        return Err(ZidError::ParseError);
    }
    if d < 1 || d > days_in_month_exec(y, m) {
        return Err(ZidError::ParseError);
    }
    if y < 1970 {
        return Err(ZidError::RangeError);
    }
    let days = days_from_civil_exec(y, m, d);
    proof {
        lemma_days_before_year_bounds(10000);
    }
    let t: u64 = 86400 * days;
    Ok(encode_radix(t, base))
}

/// Generates a zID from a strict `YYYY-MM-DDTHH:MM:SS` datetime, taken as
/// UTC. Rejects ill-shaped strings and instants that do not exist with
/// `ParseError`, and datetimes before 1970 with `RangeError`.
pub fn zid_from_iso_date(base: u8, input: String) -> (r: Result<String, ZidError>)
    requires
        10 <= base <= 36,
    ensures
        match r {
            Ok(z) => {
                &&& iso_input_parses(input@)
                &&& parsed_year(input@) >= 1970
                &&& ts_in_range(iso_timestamp(input@))
                &&& z@ == zid_of(iso_timestamp(input@) as nat, base as nat)
            },
            Err(ZidError::ParseError) => !iso_input_parses(input@),
            Err(ZidError::RangeError) => iso_input_parses(input@) && parsed_year(input@) < 1970,
        },
{
    let (y, m, d, h, mi, sec) = match parse_iso(input.as_str()) {
        Some(x) => x,
        None => {
            return Err(ZidError::ParseError);
        },
    };
    if m < 1 || m > 12 {
        return Err(ZidError::ParseError);
    }
    if d < 1 || d > days_in_month_exec(y, m) {
        return Err(ZidError::ParseError);
    }
    if h > 23 || mi > 59 || sec > 59 {
        return Err(ZidError::ParseError);
    }
    if y < 1970 {
        return Err(ZidError::RangeError);
    }
    let days = days_from_civil_exec(y, m, d);
    proof {
        lemma_days_before_year_bounds(10000);
    }
    let t: u64 = 86400 * days + 3600 * (h as u64) + 60 * (mi as u64) + (sec as u64);
    proof {
        assert(86400 * calendar::days_from_civil(y as int, m as int, d as int) + 3600 * (
        h as int) + 60 * (mi as int) + (sec as int) < timestamp_limit());
    }
    Ok(encode_radix(t, base))
}

/// Decodes a zID back to the `YYYY-MM-DD` UTC calendar date of its
/// timestamp. Rejects characters that are not digits of the base with
/// `ParseError`, and timestamps at or past the year 10000 with `RangeError`.
pub fn zid_to_date(base: u8, input: String) -> (r: Result<String, ZidError>)
    requires
        10 <= base <= 36,
    ensures
        match r {
            Ok(out) => {
                &&& all_radix_digits(input@, base as int)
                &&& ts_in_range(radix_val(input@, base as int))
                &&& out@ == date_string_of(radix_val(input@, base as int))
            },
            Err(ZidError::ParseError) => !all_radix_digits(input@, base as int),
            Err(ZidError::RangeError) => all_radix_digits(input@, base as int) && !ts_in_range(
                radix_val(input@, base as int),
            ),
        },
{
    let t = match parse_radix(input.as_str(), base) {
        Ok(t) => t,
        Err(e) => {
            proof {
                if e == ZidError::RangeError {
                    lemma_limit_fits();
                }
            }
            return Err(e);
        },
    };
    let (y, m, d) = match civil_from_days(t / 86400) {
        Some(x) => x,
        None => {
            proof {
                lemma_day_of_ts(t);
            }
            return Err(ZidError::RangeError);
        },
    };
    proof {
        lemma_day_of_ts(t);
    }
    Ok(format_date(y, m, d))
}

/// Decodes a zID back to the `YYYY-MM-DDTHH:MM:SS` UTC datetime of its
/// timestamp. Rejects characters that are not digits of the base with
/// `ParseError`, and timestamps at or past the year 10000 with `RangeError`.
pub fn zid_to_iso_date(base: u8, input: String) -> (r: Result<String, ZidError>)
    requires
        10 <= base <= 36,
    ensures
        match r {
            Ok(out) => {
                &&& all_radix_digits(input@, base as int)
                &&& ts_in_range(radix_val(input@, base as int))
                &&& out@ == iso_string_of(radix_val(input@, base as int))
            },
            Err(ZidError::ParseError) => !all_radix_digits(input@, base as int),
            Err(ZidError::RangeError) => all_radix_digits(input@, base as int) && !ts_in_range(
                radix_val(input@, base as int),
            ),
        },
{
    let t = match parse_radix(input.as_str(), base) {
        Ok(t) => t,
        Err(e) => {
            proof {
                if e == ZidError::RangeError {
                    lemma_limit_fits();
                }
            }
            return Err(e);
        },
    };
    let (y, m, d) = match civil_from_days(t / 86400) {
        Some(x) => x,
        None => {
            proof {
                lemma_day_of_ts(t);
            }
            return Err(ZidError::RangeError);
        },
    };
    proof {
        lemma_day_of_ts(t);
    }
    let sod = t % 86400;
    let rem = sod % 3600;
    proof {
        lemma_div_is_ordered(sod as int, 86399, 3600);
        lemma_div_is_ordered(rem as int, 3599, 60);
    }
    let h = (sod / 3600) as u8;
    let mi = (rem / 60) as u8;
    let sec = (rem % 60) as u8;
    Ok(format_iso(y, m, d, h, mi, sec))
}

} // verus!
