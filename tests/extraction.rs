use iata_scraper::dataset::Harvest;
use iata_scraper::table::{extract_iata_table, pick_iata_table};
use iata_scraper::text::{extract_text, header_has_iata, is_marker_heading, trim_text};

fn strings(v: &[&str]) -> Vec<String> {
    v.iter().map(|s| s.to_string()).collect()
}

#[test]
fn cell_text_collapses_whitespace() {
    let nodes = strings(&["  Air ", "\n  Lines\t", "", "x"]);
    assert_eq!(extract_text(&nodes), "Air Lines x");
    assert_eq!(extract_text(&strings(&[])), "");
    assert_eq!(extract_text(&strings(&[" \u{a0}\u{3000} "])), "");
    assert_eq!(extract_text(&strings(&["a\u{2003}b"])), "a b");
}

#[test]
fn trimming_uses_unicode_whitespace() {
    assert_eq!(trim_text("\u{a0} IATA \n"), "IATA");
    assert_eq!(trim_text("   "), "");
    assert_eq!(trim_text("a b"), "a b");
}

#[test]
fn marker_heading_ignores_ascii_case_and_padding() {
    assert!(is_marker_heading(" iata "));
    assert!(is_marker_heading("IaTa"));
    assert!(!is_marker_heading("IATA code"));
    assert!(!is_marker_heading("ICAO"));
    assert!(header_has_iata(&strings(&["Airline", " IATA", "ICAO"])));
    assert!(!header_has_iata(&strings(&["Airline", "ICAO"])));
    assert!(!header_has_iata(&strings(&[])));
}

const PAGE: &str = r#"<html><body>
<table class="wikitable"><tr><th>Airline</th><th>ICAO</th></tr><tr><td>X</td><td>Y</td></tr></table>
<table class="other"><tr><th>IATA</th></tr><tr><td>ZZ</td></tr></table>
<table class="wikitable sortable">
<tr><th> IATA </th><th>ICAO</th><th>Airline</th></tr>
<tr><td>AA</td><td>AAL</td><td><a href="/x">American</a> <span>Airlines</span><sup>[1]</sup></td></tr>
<tr><th colspan="3">Section</th></tr>
<tr><td>  b2 </td><td>BBB</td></tr>
</table>
<table class="wikitable"><tr><th>IATA</th></tr><tr><td>QQ</td></tr></table>
</body></html>"#;

#[test]
fn first_marked_wikitable_is_taken() {
    let t = extract_iata_table(PAGE).expect("a table");
    assert_eq!(t.header, strings(&["IATA", "ICAO", "Airline"]));
    assert_eq!(t.rows.len(), 2);
    assert_eq!(t.rows[0], strings(&["AA", "AAL", "American Airlines [1]"]));
    assert_eq!(t.rows[1], strings(&["b2", "BBB"]));
}

#[test]
fn document_without_marked_table_contributes_nothing() {
    let page = r#"<table class="wikitable"><tr><th>Airline</th><th>ICAO</th></tr><tr><td>A</td><td>B</td></tr></table>
<table class="wikitable"></table><table><tr><th>IATA</th></tr></table>"#;
    assert!(extract_iata_table(page).is_none());
    assert!(extract_iata_table("").is_none());
    let mut h = Harvest::new();
    h.absorb_document(page);
    assert!(h.header.is_none());
    assert!(h.rows.is_empty());
}

#[test]
fn picking_reads_element_names() {
    let cell = |tag: &str, text: &str| (tag.to_string(), vec![text.to_string()]);
    let tables = vec![vec![
        vec![cell("td", "IATA"), cell("th", "Name")],
        vec![cell("th", "AA"), cell("td", "One")],
        vec![cell("th", "only heading")],
    ]];
    let t = pick_iata_table(&tables).expect("qualifies");
    assert_eq!(t.header, strings(&["IATA", "Name"]));
    assert_eq!(t.rows, vec![strings(&["One"])]);
    let empty: Vec<Vec<Vec<(String, Vec<String>)>>> = vec![vec![]];
    assert!(pick_iata_table(&empty).is_none());
}
