//! Tests of line normalisation and of the two date rules.

use aer_st1::date::ReportDate;
use aer_st1::parsers::common::date_utils;
use aer_st1::parsers::common::trim_and_remove_empty_lines;

#[test]
fn simple_unit_tests_test_trim_and_remove_empty_lines() {
    let input = vec![
        "  Hello  ".to_string(),
        "".to_string(),
        "World".to_string(),
        "   ".to_string(),
        "Test".to_string(),
    ];
    let expected = vec!["Hello".to_string(), "World".to_string(), "Test".to_string()];
    let result = trim_and_remove_empty_lines(input);
    assert_eq!(result, expected);
}

#[test]
fn simple_unit_tests_test_extract_st1_date_valid() {
    let lines = vec![
        "ALBERTA ENERGY REGULATOR".to_string(),
        "DATE: 02 January 2024".to_string(),
    ];
    let result = date_utils::extract_st1_date(&lines);
    assert!(result.is_ok());
    assert_eq!(result.unwrap(), ReportDate::from_ymd_opt(2024, 1, 2).unwrap());
}

#[test]
fn simple_unit_tests_test_extract_st1_date_missing() {
    let lines = vec!["No date here".to_string()];
    let result = date_utils::extract_st1_date(&lines);
    assert!(result.is_err());
    assert_eq!(result.unwrap_err(), "No date line found in file");
}

#[test]
fn simple_unit_tests_test_extract_st49_date_missing() {
    let lines = vec!["No date here".to_string()];
    let result = date_utils::extract_st49_date(&lines);
    assert!(result.is_err());
    assert_eq!(result.unwrap_err(), "Date line not found");
}
