use patchkit::unified::{parse_range, Hunk};

#[test]
fn range_with_one_number_has_count_one() {
    assert_eq!(parse_range(b"7").unwrap(), (7, 1));
    assert_eq!(parse_range(b"0").unwrap(), (0, 1));
}

#[test]
fn range_with_two_numbers() {
    assert_eq!(parse_range(b"7,0").unwrap(), (7, 0));
    assert_eq!(parse_range(b"12,34").unwrap(), (12, 34));
    assert_eq!(parse_range(b"007,010").unwrap(), (7, 10));
}

#[test]
fn range_numbers_may_carry_a_plus() {
    assert_eq!(parse_range(b"+7").unwrap(), (7, 1));
    assert_eq!(parse_range(b"+7,+2").unwrap(), (7, 2));
}

#[test]
fn range_is_read_up_to_a_second_comma() {
    assert_eq!(parse_range(b"1,2,3").unwrap(), (1, 2));
    assert_eq!(parse_range(b"1,2,").unwrap(), (1, 2));
    assert_eq!(parse_range(b"1,2,x").unwrap(), (1, 2));
}

#[test]
fn range_that_is_no_number_is_refused() {
    assert!(parse_range(b"").is_err());
    assert!(parse_range(b"+").is_err());
    assert!(parse_range(b"-2").is_err());
    assert!(parse_range(b"++2").is_err());
    assert!(parse_range(b",1").is_err());
    assert!(parse_range(b"1,").is_err());
    assert!(parse_range(b"1,,2").is_err());
    assert!(parse_range(b"1 ").is_err());
    assert!(parse_range(b"0x10").is_err());
    assert!(parse_range(b"99999999999999999999999999").is_err());
}

#[test]
fn header_is_read_from_its_ranges() {
    let hunk = Hunk::from_header(b"@@ -3,4 +5 @@\n").unwrap();
    assert_eq!(hunk, Hunk::new(3, 4, 5, 1, None));
    let again = Hunk::from_header(&hunk.get_header()).unwrap();
    assert_eq!(again, hunk);
}
