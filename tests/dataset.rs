use iata_scraper::dataset::{build_records, dataset_from_documents, encode_records, normalize_row, DatasetError, Harvest};
use iata_scraper::table::RawTable;

fn strings(v: &[&str]) -> Vec<String> {
    v.iter().map(|s| s.to_string()).collect()
}

#[test]
fn long_row_is_truncated() {
    let row = strings(&["a", "b", "c", "d", "e"]);
    assert_eq!(normalize_row(&row, 3), strings(&["a", "b", "c"]));
}

#[test]
fn short_row_is_padded() {
    let row = strings(&["a"]);
    assert_eq!(normalize_row(&row, 3), strings(&["a", "", ""]));
    assert_eq!(normalize_row(&strings(&["x", "y", "z"]), 3), strings(&["x", "y", "z"]));
    assert_eq!(normalize_row(&strings(&["x"]), 0), strings(&[]));
}

#[test]
fn every_record_has_heading_width() {
    let header = strings(&["IATA", "ICAO", "Airline"]);
    let rows = vec![strings(&["a"]), strings(&["a", "b", "c", "d", "e"]), strings(&["x", "y", "z"]), strings(&[])];
    let recs = build_records(&header, &rows);
    assert_eq!(recs.len(), 5);
    assert_eq!(recs[0], header);
    for r in &recs[1..] {
        assert_eq!(r.len(), 3);
    }
    assert_eq!(recs[4], strings(&["", "", ""]));
}

#[test]
fn first_heading_stays() {
    let mut h = Harvest::new();
    h.absorb(None);
    h.absorb(Some(RawTable { header: strings(&["IATA", "Name"]), rows: vec![strings(&["AA", "One"])] }));
    h.absorb(Some(RawTable {
        header: strings(&["IATA", "ICAO", "Name", "Country"]),
        rows: vec![strings(&["BB", "BBB", "Two", "X"])],
    }));
    assert_eq!(h.header, Some(strings(&["IATA", "Name"])));
    assert_eq!(h.rows.len(), 2);
    let bytes = h.dataset_file().unwrap();
    assert_eq!(String::from_utf8(bytes).unwrap(), "IATA,Name\nAA,One\nBB,BBB\n");
}

#[test]
fn fields_with_delimiter_are_quoted() {
    let recs = vec![strings(&["IATA", "Name"]), strings(&["AA", "Air, Inc"]), strings(&["B\"B", ""])];
    let bytes = encode_records(&recs).unwrap();
    assert_eq!(String::from_utf8(bytes).unwrap(), "IATA,Name\nAA,\"Air, Inc\"\n\"B\"\"B\",\n");
}

#[test]
fn no_table_means_no_dataset() {
    let h = Harvest::new();
    assert_eq!(h.dataset_file(), Err(DatasetError::NoTable));
    let docs = strings(&["<p>nothing</p>", "<table class=\"wikitable\"><tr><th>Name</th></tr></table>"]);
    assert_eq!(dataset_from_documents(&docs), Err(DatasetError::NoTable));
}

#[test]
fn same_documents_give_same_bytes() {
    let a = r#"<table class="wikitable"><tr><th>IATA</th><th>ICAO</th><th>Airline</th></tr><tr><td>AA</td><td>AAL</td><td>American, Inc</td><td>extra</td><td>more</td></tr></table>"#;
    let b = r#"<table class="wikitable"><tr><th>Airline</th><th>IATA</th></tr><tr><td>Beta</td></tr></table>"#;
    let docs = vec![a.to_string(), "not html".to_string(), b.to_string()];
    let first = dataset_from_documents(&docs).unwrap();
    let second = dataset_from_documents(&docs).unwrap();
    assert_eq!(first, second);
    assert_eq!(String::from_utf8(first).unwrap(), "IATA,ICAO,Airline\nAA,AAL,\"American, Inc\"\nBeta,,\n");
}
