use zid::{get_base_radix, now_to_zid, zid_from_date, zid_from_iso_date, zid_to_date, zid_to_iso_date, ZidError};

#[test]
fn resolve_radix_clamps_low() {
    assert_eq!(get_base_radix(5), 10);
}

#[test]
fn resolve_radix_clamps_high() {
    assert_eq!(get_base_radix(50), 36);
}

#[test]
fn resolve_radix_keeps_in_range() {
    assert_eq!(get_base_radix(16), 16);
    assert_eq!(get_base_radix(10), 10);
    assert_eq!(get_base_radix(36), 36);
}

#[test]
fn generate_from_date_base36() {
    // 2001-01-01T00:00:00Z is timestamp 978307200, which is g6gio0 in base 36.
    assert_eq!(
        zid_from_date(36, "2001-01-01".to_string()),
        Ok("g6gio0".to_string())
    );
}

#[test]
fn generate_from_date_base10() {
    assert_eq!(
        zid_from_date(10, "2001-01-01".to_string()),
        Ok("978307200".to_string())
    );
}

#[test]
fn decode_to_date_base36() {
    assert_eq!(
        zid_to_date(36, "g6gio0".to_string()),
        Ok("2001-01-01".to_string())
    );
    // ky5i0 in base 36 is 35185752, a timestamp in February 1971.
    assert_eq!(
        zid_to_date(36, "ky5i0".to_string()),
        Ok("1971-02-12".to_string())
    );
}

#[test]
fn generate_from_iso_date_base10() {
    // 2001-01-01T07:35:42Z is 978307200 + 7*3600 + 35*60 + 42 = 978334542.
    assert_eq!(
        zid_from_iso_date(10, "2001-01-01T07:35:42".to_string()),
        Ok("978334542".to_string())
    );
}

#[test]
fn decode_to_iso_date_base10() {
    assert_eq!(
        zid_to_iso_date(10, "978334542".to_string()),
        Ok("2001-01-01T07:35:42".to_string())
    );
}

#[test]
fn invalid_calendar_date_is_parse_error() {
    assert_eq!(
        zid_from_date(36, "2001-02-30".to_string()),
        Err(ZidError::ParseError)
    );
    assert_eq!(
        zid_from_date(36, "2001-13-01".to_string()),
        Err(ZidError::ParseError)
    );
    assert_eq!(
        zid_from_date(36, "2001-00-10".to_string()),
        Err(ZidError::ParseError)
    );
}

#[test]
fn ill_shaped_date_is_parse_error() {
    assert_eq!(
        zid_from_date(36, "20010101".to_string()),
        Err(ZidError::ParseError)
    );
    assert_eq!(
        zid_from_date(36, "2001-1-1".to_string()),
        Err(ZidError::ParseError)
    );
    assert_eq!(
        zid_from_date(36, "2001/01/01".to_string()),
        Err(ZidError::ParseError)
    );
    assert_eq!(zid_from_date(36, "".to_string()), Err(ZidError::ParseError));
}

#[test]
fn ill_shaped_iso_date_is_parse_error() {
    assert_eq!(
        zid_from_iso_date(36, "2001-01-01 07:35:42".to_string()),
        Err(ZidError::ParseError)
    );
    assert_eq!(
        zid_from_iso_date(36, "2001-01-01T07:35".to_string()),
        Err(ZidError::ParseError)
    );
    assert_eq!(
        zid_from_iso_date(36, "2001-01-01T24:00:00".to_string()),
        Err(ZidError::ParseError)
    );
    assert_eq!(
        zid_from_iso_date(36, "2001-01-01T07:60:00".to_string()),
        Err(ZidError::ParseError)
    );
    assert_eq!(
        zid_from_iso_date(36, "2001-01-01T07:35:60".to_string()),
        Err(ZidError::ParseError)
    );
}

#[test]
fn invalid_digit_is_parse_error() {
    assert_eq!(
        zid_to_date(10, "z".to_string()),
        Err(ZidError::ParseError)
    );
    assert_eq!(
        zid_to_date(10, "12a".to_string()),
        Err(ZidError::ParseError)
    );
    assert_eq!(
        zid_to_date(36, "KY5I0".to_string()),
        Err(ZidError::ParseError)
    );
    assert_eq!(
        zid_to_date(10, "+123".to_string()),
        Err(ZidError::ParseError)
    );
    assert_eq!(zid_to_date(36, "".to_string()), Err(ZidError::ParseError));
    assert_eq!(
        zid_to_iso_date(10, "z".to_string()),
        Err(ZidError::ParseError)
    );
}

#[test]
fn epoch_round_trip() {
    assert_eq!(
        zid_from_date(36, "1970-01-01".to_string()),
        Ok("0".to_string())
    );
    assert_eq!(
        zid_to_iso_date(36, "0".to_string()),
        Ok("1970-01-01T00:00:00".to_string())
    );
    assert_eq!(
        zid_to_date(36, "0".to_string()),
        Ok("1970-01-01".to_string())
    );
}

#[test]
fn leap_day_round_trips() {
    let z = zid_from_date(36, "2000-02-29".to_string()).unwrap();
    assert_eq!(zid_to_date(36, z), Ok("2000-02-29".to_string()));
    assert_eq!(
        zid_from_date(36, "2100-02-29".to_string()),
        Err(ZidError::ParseError)
    );
}

#[test]
fn date_before_epoch_is_range_error() {
    assert_eq!(
        zid_from_date(36, "1969-12-31".to_string()),
        Err(ZidError::RangeError)
    );
    assert_eq!(
        zid_from_iso_date(36, "1969-12-31T23:59:59".to_string()),
        Err(ZidError::RangeError)
    );
}

#[test]
fn largest_representable_instant() {
    assert_eq!(
        zid_to_iso_date(10, "253402300799".to_string()),
        Ok("9999-12-31T23:59:59".to_string())
    );
    assert_eq!(
        zid_from_iso_date(10, "9999-12-31T23:59:59".to_string()),
        Ok("253402300799".to_string())
    );
}

#[test]
fn timestamp_past_year_9999_is_range_error() {
    assert_eq!(
        zid_to_date(10, "253402300800".to_string()),
        Err(ZidError::RangeError)
    );
    assert_eq!(
        zid_to_iso_date(10, "253402300800".to_string()),
        Err(ZidError::RangeError)
    );
}

#[test]
fn value_past_u64_is_range_error() {
    assert_eq!(
        zid_to_date(10, "18446744073709551616".to_string()),
        Err(ZidError::RangeError)
    );
    assert_eq!(
        zid_to_date(36, "zzzzzzzzzzzzzzzzzzzzzz".to_string()),
        Err(ZidError::RangeError)
    );
}

#[test]
fn leading_zeros_are_accepted_on_decode() {
    assert_eq!(
        zid_to_date(10, "0978307200".to_string()),
        Ok("2001-01-01".to_string())
    );
}

#[test]
fn single_letter_digits_decode_in_high_bases() {
    assert_eq!(
        zid_to_iso_date(11, "a".to_string()),
        Ok("1970-01-01T00:00:10".to_string())
    );
    assert_eq!(zid_to_date(10, "a".to_string()), Err(ZidError::ParseError));
}

#[test]
fn encode_decode_encode_is_stable() {
    for base in [10u8, 16, 29, 36] {
        let z = zid_from_iso_date(base, "2020-06-15T12:30:45".to_string()).unwrap();
        let s = zid_to_iso_date(base, z.clone()).unwrap();
        assert_eq!(s, "2020-06-15T12:30:45".to_string());
        let z2 = zid_from_iso_date(base, s).unwrap();
        assert_eq!(z2, z);
    }
}

#[test]
fn date_projection_of_decoded_iso_matches() {
    let z = zid_from_iso_date(36, "2023-11-05T23:59:59".to_string()).unwrap();
    assert_eq!(zid_to_date(36, z), Ok("2023-11-05".to_string()));
}

#[test]
fn now_round_trips() {
    let z = now_to_zid(36).unwrap();
    let s = zid_to_iso_date(36, z.clone()).unwrap();
    let z2 = zid_from_iso_date(36, s).unwrap();
    assert_eq!(z2, z);
    let z10 = now_to_zid(10).unwrap();
    assert!(z10.chars().all(|c| c.is_ascii_digit()));
}
