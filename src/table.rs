//! Finding the airline-code table of a document: among the data tables, the
//! first whose heading row names the marker column.
use vstd::prelude::*;
use crate::text::{cell_text, chars_of, extract_text, has_marker, header_has_iata};

verus! {

/// A cell of a parsed table: its element name and its text nodes, in
/// document order.
pub type CellView = (Seq<char>, Seq<Seq<char>>);

/// A row of a parsed table: its heading and data cells, in document order.
pub type RowView = Seq<CellView>;

/// A parsed table: its rows, in document order.
pub type TableView = Seq<RowView>;

/// The tables of the document `doc` that match the selector `tables`, each
/// given by the rows that match `rows` and, in each row, the cells that
/// match `cells`; `None` where one of the selectors does not parse.
pub uninterp spec fn tables_of(
    doc: Seq<char>,
    tables: Seq<char>,
    rows: Seq<char>,
    cells: Seq<char>,
) -> Option<Seq<TableView>>;

/// Selects the data tables of a document.
pub const TABLE_SELECTOR: &'static str = "table.wikitable";

/// Selects the rows of a table.
pub const ROW_SELECTOR: &'static str = "tr";

/// Selects the heading and data cells of a row.
pub const CELL_SELECTOR: &'static str = "th, td";

/// Relies on scraper's `Html::parse_document`, `Selector::parse`,
/// `Html::select`, `ElementRef::select`, `ElementRef::text` and
/// `Element::name`: the document is parsed once, and the cells come with the
/// name of their element and their descendant text nodes.
#[verifier::external_body]
fn parse_tables(doc: &str, tables: &str, rows: &str, cells: &str) -> (r: Option<
    Vec<Vec<Vec<(String, Vec<String>)>>>,
>)
    ensures
        r.deep_view() == tables_of(doc@, tables@, rows@, cells@),
{
    let table_sel = scraper::Selector::parse(tables).ok()?;
    let row_sel = scraper::Selector::parse(rows).ok()?;
    let cell_sel = scraper::Selector::parse(cells).ok()?;
    let html = scraper::Html::parse_document(doc);
    let cell = |c: scraper::ElementRef| (c.value().name().to_string(), c.text().map(String::from).collect());
    let row = |r: scraper::ElementRef| r.select(&cell_sel).map(cell).collect();
    Some(html.select(&table_sel).map(|t| t.select(&row_sel).map(row).collect()).collect())
}

/// The table found in a document: its heading row and its data rows, each a
/// sequence of cell texts.
pub struct RawTable {
    pub header: Vec<String>,
    pub rows: Vec<Vec<String>>,
}

impl DeepView for RawTable {
    type V = (Seq<Seq<char>>, Seq<Seq<Seq<char>>>);

    open spec fn deep_view(&self) -> Self::V {
        (self.header.deep_view(), self.rows.deep_view())
    }
}

/// A cell is a data cell (not a heading cell).
pub open spec fn is_data_cell(c: CellView) -> bool {
    c.0 == seq!['t', 'd']
}

/// The texts of all cells of `row`.
pub open spec fn row_texts(row: RowView) -> Seq<Seq<char>>
    decreases row.len(),
{
    if row.len() == 0 {
        Seq::empty()
    } else {
        row_texts(row.drop_last()).push(cell_text(row.last().1))
    }
}

/// The texts of the data cells of `row`.
pub open spec fn data_texts(row: RowView) -> Seq<Seq<char>>
    decreases row.len(),
{
    if row.len() == 0 {
        Seq::empty()
    } else if is_data_cell(row.last()) {
        data_texts(row.drop_last()).push(cell_text(row.last().1))
    } else {
        data_texts(row.drop_last())
    }
}

/// The data rows of `rows`: the texts of each row's data cells, leaving out
/// rows that have none.
pub open spec fn data_rows(rows: Seq<RowView>) -> Seq<Seq<Seq<char>>>
    decreases rows.len(),
{
    if rows.len() == 0 {
        Seq::empty()
    } else if data_texts(rows.last()).len() == 0 {
        data_rows(rows.drop_last())
    } else {
        data_rows(rows.drop_last()).push(data_texts(rows.last()))
    }
}

/// A table qualifies when it has a first row and that row names the marker
/// column.
pub open spec fn qualifies(t: TableView) -> bool {
    t.len() > 0 && has_marker(row_texts(t[0]))
}

/// The first qualifying table of `tables`: its first row's cell texts as
/// heading, and the data rows that follow; `None` where no table qualifies.
pub open spec fn first_marked_table(tables: Seq<TableView>) -> Option<
    (Seq<Seq<char>>, Seq<Seq<Seq<char>>>),
>
    decreases tables.len(),
{
    if tables.len() == 0 {
        None
    } else if qualifies(tables[0]) {
        Some((row_texts(tables[0][0]), data_rows(tables[0].drop_first())))
    } else {
        first_marked_table(tables.drop_first())
    }
}

/// What a document contributes: the first qualifying table among the tables
/// that the selectors find, `None` where there is none.
pub open spec fn document_table(doc: Seq<char>) -> Option<(Seq<Seq<char>>, Seq<Seq<Seq<char>>>)> {
    match tables_of(doc, TABLE_SELECTOR@, ROW_SELECTOR@, CELL_SELECTOR@) {
        Some(ts) => first_marked_table(ts),
        None => None,
    }
}

fn is_data_tag(tag: &String) -> (r: bool)
    ensures
        r == (tag@ == seq!['t', 'd']),
{
    let v = chars_of(tag.as_str());
    let r = v.len() == 2 && v[0] == 't' && v[1] == 'd';
    assert(r ==> v@ =~= seq!['t', 'd']);
    r
}

/// The texts of all cells of `row`.
pub fn cell_texts(row: &Vec<(String, Vec<String>)>) -> (r: Vec<String>)
    ensures
        r.deep_view() == row_texts(row.deep_view()),
{
    let ghost rv = row.deep_view();
    let mut out: Vec<String> = Vec::new();
    let mut i: usize = 0;
    while i < row.len()
        invariant
            i <= row@.len(),
            rv == row.deep_view(),
            out.deep_view() == row_texts(rv.take(i as int)),
        decreases row@.len() - i,
    {
        let t = extract_text(&row[i].1);
        assert(rv.take(i as int + 1).drop_last() =~= rv.take(i as int));
        assert(rv[i as int].1 == row[i as int].1.deep_view());
        out.push(t);
        assert(out.deep_view() =~= row_texts(rv.take(i as int)).push(t@));
        i = i + 1;
    }
    assert(rv.take(row@.len() as int) =~= rv);
    out
}

/// The texts of the data cells of `row`.
pub fn data_cell_texts(row: &Vec<(String, Vec<String>)>) -> (r: Vec<String>)
    ensures
        r.deep_view() == data_texts(row.deep_view()),
{
    let ghost rv = row.deep_view();
    let mut out: Vec<String> = Vec::new();
    let mut i: usize = 0;
    while i < row.len()
        invariant
            i <= row@.len(),
            rv == row.deep_view(),
            out.deep_view() == data_texts(rv.take(i as int)),
        decreases row@.len() - i,
    {
        assert(rv.take(i as int + 1).drop_last() =~= rv.take(i as int));
        assert(rv[i as int].1 == row[i as int].1.deep_view());
        assert(rv[i as int].0 == row[i as int].0@);
        if is_data_tag(&row[i].0) {
            let t = extract_text(&row[i].1);
            out.push(t);
            assert(out.deep_view() =~= data_texts(rv.take(i as int)).push(t@));
        }
        i = i + 1;
    }
    assert(rv.take(row@.len() as int) =~= rv);
    out
}

/// The data rows of `table` after its first row: the texts of each row's
/// data cells, leaving out rows that have none.
fn table_data_rows(table: &Vec<Vec<(String, Vec<String>)>>) -> (r: Vec<Vec<String>>)
    requires
        table@.len() > 0,
    ensures
        r.deep_view() == data_rows(table.deep_view().drop_first()),
{
    let ghost rows = table.deep_view().drop_first();
    let mut out: Vec<Vec<String>> = Vec::new();
    let mut i: usize = 1;
    assert(rows.take(0) =~= Seq::<RowView>::empty());
    while i < table.len()
        invariant
            1 <= i <= table@.len(),
            rows == table.deep_view().drop_first(),
            out.deep_view() == data_rows(rows.take(i - 1)),
        decreases table@.len() - i,
    {
        assert(rows.take(i as int).drop_last() =~= rows.take(i - 1));
        assert(rows[i - 1] == table[i as int].deep_view());
        let d = data_cell_texts(&table[i]);
        if d.len() > 0 {
            out.push(d);
            assert(out.deep_view() =~= data_rows(rows.take(i - 1)).push(d.deep_view()));
        }
        i = i + 1;
    }
    assert(rows.take(table@.len() - 1) =~= rows);
    out
}

/// The first table of `tables` whose first row names the marker column,
/// with that row as heading and the data rows that follow.
pub fn pick_iata_table(tables: &Vec<Vec<Vec<(String, Vec<String>)>>>) -> (r: Option<RawTable>)
    ensures
        r.deep_view() == first_marked_table(tables.deep_view()),
{
    let ghost ts = tables.deep_view();
    let mut i: usize = 0;
    assert(ts.subrange(0, ts.len() as int) =~= ts);
    while i < tables.len()
        invariant
            i <= tables@.len(),
            ts == tables.deep_view(),
            first_marked_table(ts) == first_marked_table(ts.subrange(i as int, ts.len() as int)),
        decreases tables@.len() - i,
    {
        let ghost rest = ts.subrange(i as int, ts.len() as int);
        assert(rest[0] == tables[i as int].deep_view());
        assert(rest.drop_first() =~= ts.subrange(i + 1, ts.len() as int));
        let table = &tables[i];
        if table.len() > 0 {
            assert(table.deep_view()[0] == table[0].deep_view());
            let header = cell_texts(&table[0]);
            if header_has_iata(&header) {
                let rows = table_data_rows(table);
                return Some(RawTable { header, rows });
            }
        }
        i = i + 1;
    }
    None
}

/// The airline-code table of the document `doc`: the first data table whose
/// first row names the marker column; `None` where no table qualifies.
pub fn extract_iata_table(doc: &str) -> (r: Option<RawTable>)
    ensures
        r.deep_view() == document_table(doc@),
{
    match parse_tables(doc, TABLE_SELECTOR, ROW_SELECTOR, CELL_SELECTOR) {
        Some(tables) => pick_iata_table(&tables),
        None => None,
    }
}

} // verus!
