use std::collections::{HashMap, HashSet};

use ant_msgbus::correctness::{
    check_equal, check_equal_u8, check_equal_usize, check_in_range_inclusive_i64,
    check_in_range_inclusive_u64, check_in_range_inclusive_u8, check_in_range_inclusive_usize,
    check_key_in_map, check_key_not_in_map, check_map_empty, check_map_not_empty,
    check_member_in_set, check_member_not_in_set, check_nonempty_string, check_positive_i128,
    check_positive_i64, check_positive_u128, check_positive_u64, check_predicate_false,
    check_predicate_true, check_slice_empty, check_slice_not_empty, check_string_contains,
    check_valid_string, check_valid_string_optional, CheckFailure,
};

#[test]
fn predicates() {
    assert!(check_predicate_true(true, "msg").is_ok());
    let e = check_predicate_true(false, "msg").unwrap_err();
    assert_eq!(e.kind, CheckFailure::Predicate);
    assert_eq!(e.param, "msg");
    assert!(check_predicate_false(false, "msg").is_ok());
    assert_eq!(check_predicate_false(true, "m").unwrap_err().kind, CheckFailure::Predicate);
}

#[test]
fn strings() {
    assert!(check_nonempty_string("a", "p").is_ok());
    assert_eq!(check_nonempty_string("", "p").unwrap_err().kind, CheckFailure::EmptyString);
    assert!(check_valid_string("a b", "p").is_ok());
    assert!(check_valid_string(" x ", "p").is_ok());
    let e = check_valid_string("", "value").unwrap_err();
    assert_eq!((e.kind, e.param.as_str()), (CheckFailure::EmptyString, "value"));
    assert_eq!(check_valid_string(" \t\n\r\u{b}\u{c}", "p").unwrap_err().kind, CheckFailure::WhitespaceString);
    assert_eq!(check_valid_string("a\u{3000}", "p").unwrap_err().kind, CheckFailure::NonAsciiString);
    assert_eq!(check_valid_string("\u{3000}", "p").unwrap_err().kind, CheckFailure::NonAsciiString);
    assert!(check_valid_string_optional(None, "p").is_ok());
    assert!(check_valid_string_optional(Some("ok"), "p").is_ok());
    assert_eq!(check_valid_string_optional(Some(""), "p").unwrap_err().kind, CheckFailure::EmptyString);
    assert!(check_string_contains("TRADER-001", "-", "p").is_ok());
    let e = check_string_contains("TRADER001", "-", "p").unwrap_err();
    assert_eq!((e.kind, e.param.as_str(), e.detail.as_str()), (CheckFailure::MissingSubstring, "p", "-"));
}

#[test]
fn equality_and_sign() {
    assert!(check_equal(&1u32, &1u32, "a", "b").is_ok());
    let e = check_equal(&1u32, &2u32, "a", "b").unwrap_err();
    assert_eq!((e.kind, e.param.as_str(), e.detail.as_str()), (CheckFailure::NotEqual, "a", "b"));
    assert!(check_equal_u8(3, 3, "a", "b").is_ok());
    assert_eq!(check_equal_u8(3, 4, "a", "b").unwrap_err().kind, CheckFailure::NotEqual);
    assert!(check_equal_usize(3, 3, "a", "b").is_ok());
    assert_eq!(check_equal_usize(3, 4, "a", "b").unwrap_err().kind, CheckFailure::NotEqual);
    assert!(check_positive_u64(1, "p").is_ok());
    assert_eq!(check_positive_u64(0, "p").unwrap_err().kind, CheckFailure::NotPositive);
    assert!(check_positive_u128(1, "p").is_ok());
    assert_eq!(check_positive_u128(0, "p").unwrap_err().kind, CheckFailure::NotPositive);
    assert!(check_positive_i64(1, "p").is_ok());
    assert_eq!(check_positive_i64(0, "p").unwrap_err().kind, CheckFailure::NotPositive);
    assert_eq!(check_positive_i64(-5, "p").unwrap_err().kind, CheckFailure::NotPositive);
    assert!(check_positive_i128(7, "p").is_ok());
    assert_eq!(check_positive_i128(i128::MIN, "p").unwrap_err().kind, CheckFailure::NotPositive);
}

#[test]
fn ranges() {
    assert!(check_in_range_inclusive_u8(0, 0, 0, "p").is_ok());
    assert!(check_in_range_inclusive_u8(255, 0, 255, "p").is_ok());
    assert_eq!(check_in_range_inclusive_u8(5, 6, 9, "p").unwrap_err().kind, CheckFailure::OutOfRange);
    assert!(check_in_range_inclusive_u64(9, 6, 9, "p").is_ok());
    assert_eq!(check_in_range_inclusive_u64(10, 6, 9, "p").unwrap_err().kind, CheckFailure::OutOfRange);
    assert!(check_in_range_inclusive_i64(-1, -1, 1, "p").is_ok());
    assert_eq!(check_in_range_inclusive_i64(-2, -1, 1, "p").unwrap_err().kind, CheckFailure::OutOfRange);
    assert!(check_in_range_inclusive_usize(usize::MAX, 0, usize::MAX, "p").is_ok());
    assert_eq!(check_in_range_inclusive_usize(3, 4, 2, "p").unwrap_err().kind, CheckFailure::OutOfRange);
}

#[test]
fn collections() {
    let empty: [u8; 0] = [];
    assert!(check_slice_empty(&empty, "p").is_ok());
    assert_eq!(check_slice_empty(&[1], "p").unwrap_err().kind, CheckFailure::NotEmpty);
    assert!(check_slice_not_empty(&[1], "p").is_ok());
    assert_eq!(check_slice_not_empty(&empty, "p").unwrap_err().kind, CheckFailure::Empty);

    let mut map: HashMap<u64, &str> = HashMap::new();
    assert!(check_map_empty(&map, "m").is_ok());
    assert_eq!(check_map_not_empty(&map, "m").unwrap_err().kind, CheckFailure::Empty);
    map.insert(1, "one");
    assert_eq!(check_map_empty(&map, "m").unwrap_err().kind, CheckFailure::NotEmpty);
    assert!(check_map_not_empty(&map, "m").is_ok());
    assert!(check_key_in_map(&1, &map, "k", "m").is_ok());
    assert!(check_key_not_in_map(&2, &map, "k", "m").is_ok());
    let e = check_key_not_in_map(&1, &map, "k", "m").unwrap_err();
    assert_eq!((e.kind, e.param.as_str(), e.detail.as_str()), (CheckFailure::KeyPresent, "k", "m"));
    assert_eq!(check_key_in_map(&2, &map, "k", "m").unwrap_err().kind, CheckFailure::KeyAbsent);

    let mut set: HashSet<u64> = HashSet::new();
    set.insert(7);
    assert!(check_member_in_set(&7, &set, "x", "s").is_ok());
    assert!(check_member_not_in_set(&8, &set, "x", "s").is_ok());
    assert_eq!(check_member_not_in_set(&7, &set, "x", "s").unwrap_err().kind, CheckFailure::MemberPresent);
    assert_eq!(check_member_in_set(&8, &set, "x", "s").unwrap_err().kind, CheckFailure::MemberAbsent);
}
