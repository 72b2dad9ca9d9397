use patchkit::timestamp::{
    format_patch_date, parse_patch_date, patch_date_from, patch_date_of, try_format_patch_date,
    FormatPatchDateError, ParsePatchDateError,
};

#[test]
fn test_parse_patch_date() {
    assert_eq!(
        parse_patch_date("2019-01-01 00:00:00 +0000").unwrap(),
        (1546300800, 0)
    );
    match parse_patch_date("2019-01-01 00:00:00") {
        Err(ParsePatchDateError::MissingTimezoneOffset(_)) => (),
        e => panic!("Expected MissingTimezoneOffset error, got {:?}", e),
    }
}

#[test]
fn parse_patch_date_takes_the_offset_off() {
    assert_eq!(
        parse_patch_date("2019-01-01 01:00:00 +0100").unwrap(),
        (1546300800, 3600)
    );
    assert_eq!(
        parse_patch_date("2018-12-31 19:00:00 -0500").unwrap(),
        (1546300800, -18000)
    );
    assert_eq!(
        parse_patch_date("nonsense").unwrap_err(),
        ParsePatchDateError::InvalidDate("nonsense".to_string())
    );
    assert_eq!(
        parse_patch_date("2019-01-01 00:00:00 +2500").unwrap_err(),
        ParsePatchDateError::InvalidTimezoneOffset("2019-01-01 00:00:00 +2500".to_string())
    );
    assert_eq!(
        parse_patch_date("2019-01-01 00:00:00 +0160").unwrap_err(),
        ParsePatchDateError::InvalidTimezoneOffset("2019-01-01 00:00:00 +0160".to_string())
    );
    assert_eq!(
        parse_patch_date("2019-13-01 00:00:00 +0000").unwrap_err(),
        ParsePatchDateError::InvalidDate("2019-13-01 00:00:00 +0000".to_string())
    );
}

#[test]
fn patch_date_of_reads_the_parts() {
    let parts = Some(("ignored".to_string(), "-05".to_string(), "30".to_string()));
    assert_eq!(
        patch_date_of("text", parts, false, Some(1000)),
        Ok((1000 + 5 * 3600 + 30 * 60, -(5 * 3600 + 30 * 60)))
    );
    let parts = Some(("ignored".to_string(), "+01".to_string(), "xx".to_string()));
    assert_eq!(
        patch_date_of("text", parts, false, Some(1000)),
        Err(ParsePatchDateError::InvalidTimezoneOffset("text".to_string()))
    );
    let parts = Some(("ignored".to_string(), "+01".to_string(), "00".to_string()));
    assert_eq!(
        patch_date_of("text", parts, false, None),
        Err(ParsePatchDateError::InvalidDate("text".to_string()))
    );
    assert_eq!(
        patch_date_of("text", None, true, None),
        Err(ParsePatchDateError::MissingTimezoneOffset("text".to_string()))
    );
    assert_eq!(
        patch_date_of("text", None, false, None),
        Err(ParsePatchDateError::InvalidDate("text".to_string()))
    );
}

#[test]
fn format_patch_date_writes_date_and_offset() {
    assert_eq!(
        format_patch_date(1546300800, 0).unwrap(),
        "2019-01-01 00:00:00 +0000"
    );
    assert_eq!(
        format_patch_date(1546300800, 3600).unwrap(),
        "2019-01-01 00:00:00 +0100"
    );
    assert_eq!(
        format_patch_date(1546300800, -19800).unwrap(),
        "2019-01-01 00:00:00 -0530"
    );
    // at the beginning of 1970 the offset is taken as 0
    assert_eq!(format_patch_date(0, -3600).unwrap(), "1970-01-01 00:00:00 +0000");
    assert_eq!(
        format_patch_date(1546300800, 61),
        Err(FormatPatchDateError::InvalidTimezoneOffset(61))
    );
    assert_eq!(
        format_patch_date(100, -3600),
        Err(FormatPatchDateError::NegativeTime(100, -3600))
    );
}

#[test]
fn patch_date_from_pads_to_two_digits() {
    assert_eq!(patch_date_from("D", 5, 0).unwrap(), "D +0000");
    assert_eq!(patch_date_from("D", 5, 36000 + 9 * 60).unwrap(), "D +1009");
    assert_eq!(patch_date_from("D", 500 * 3600, -100 * 3600).unwrap(), "D -10000");
}

#[test]
fn try_format_patch_date_says_when_the_seconds_are_too_many() {
    assert_eq!(try_format_patch_date(i64::MAX, 0), None);
    assert_eq!(
        try_format_patch_date(i64::MAX, 7),
        Some(Err(FormatPatchDateError::InvalidTimezoneOffset(7)))
    );
    assert_eq!(
        try_format_patch_date(1546300800, 0),
        Some(Ok("2019-01-01 00:00:00 +0000".to_string()))
    );
}

#[test]
fn negative_offsets_round_trip() {
    assert_eq!(
        parse_patch_date("2019-01-01 00:00:00 -0530").unwrap(),
        (1546300800 + 19800, -19800)
    );
    assert_eq!(
        parse_patch_date("2019-01-01 00:00:00 -0030").unwrap(),
        (1546300800 + 1800, -1800)
    );
    let written = format_patch_date(1546300800 + 19800, -19800).unwrap();
    assert_eq!(written, "2019-01-01 05:30:00 -0530");
    assert_eq!(parse_patch_date(&written).unwrap().1, -19800);
}
