use iata_scraper::codes::{accept_code, code_from_value, codes_from_csv, codes_from_records, collect_codes, marker_column, CodeError};
use std::collections::HashSet;

fn strings(v: &[&str]) -> Vec<String> {
    v.iter().map(|s| s.to_string()).collect()
}

fn set(v: Vec<String>) -> HashSet<String> {
    v.into_iter().collect()
}

#[test]
fn only_two_letter_alphanumeric_codes_are_kept() {
    let mut records = vec![strings(&["Airline", "iata"])];
    for v in ["aa", "AAA", "A1", "a!", "  bb  ", "BB"] {
        records.push(strings(&["x", v]));
    }
    let codes = codes_from_records(records).unwrap();
    assert_eq!(codes.len(), 3);
    let want: HashSet<String> = ["AA", "A1", "BB"].iter().map(|s| s.to_string()).collect();
    assert_eq!(set(codes), want);
}

#[test]
fn code_of_value_is_trimmed_and_upper_cased() {
    assert_eq!(code_from_value("  bb "), Some("BB".to_string()));
    assert_eq!(code_from_value("a1"), Some("A1".to_string()));
    assert_eq!(code_from_value("a!"), None);
    assert_eq!(code_from_value("b"), None);
    assert_eq!(code_from_value(""), None);
    assert!(accept_code("Z9"));
    assert!(!accept_code("z9x"));
    assert!(!accept_code("é1"));
}

#[test]
fn short_rows_are_passed_over() {
    let rows = vec![strings(&["1", "aa"]), strings(&["2"]), strings(&[]), strings(&["3", "cc", "x"])];
    assert_eq!(set(collect_codes(&rows, 1)), set(strings(&["AA", "CC"])));
    assert!(collect_codes(&rows, 5).is_empty());
}

#[test]
fn first_marker_column_is_used() {
    assert_eq!(marker_column(&strings(&["Name", " IATA ", "iata"])), Some(1));
    assert_eq!(marker_column(&strings(&["Name", "ICAO"])), None);
}

#[test]
fn codes_read_from_dataset_bytes() {
    let bytes = b"IATA,ICAO,Airline\nAA,AAL,\"American, Inc\"\nbb,BBB\nAA,AAL,dup\n".to_vec();
    assert_eq!(set(codes_from_csv(&bytes).unwrap()), set(strings(&["AA", "BB"])));
}

#[test]
fn missing_marker_column_is_reported() {
    let bytes = b"Airline,ICAO\nX,Y\n".to_vec();
    assert_eq!(codes_from_csv(&bytes), Err(CodeError::MarkerColumnMissing));
    assert_eq!(codes_from_csv(&Vec::new()), Err(CodeError::MarkerColumnMissing));
    assert_eq!(codes_from_records(vec![]), Err(CodeError::MarkerColumnMissing));
}

#[test]
fn unreadable_dataset_is_reported() {
    let bytes = b"IATA\n\xff\xfe\n".to_vec();
    assert_eq!(codes_from_csv(&bytes), Err(CodeError::Unreadable));
}
