//! The dataset: the heading of the first document that has an airline-code
//! table, followed by every document's data rows brought to that heading's
//! width, encoded as delimited text.
use vstd::prelude::*;
use crate::table::{document_table, extract_iata_table, first_marked_table, qualifies, RawTable, TableView};

verus! {

/// A heading row and data rows, as cell texts.
pub type TableData = (Seq<Seq<char>>, Seq<Seq<Seq<char>>>);

/// `row` brought to `width` cells: cut after `width` cells, or filled up with
/// empty cells.
pub open spec fn normalized(row: Seq<Seq<char>>, width: nat) -> Seq<Seq<char>> {
    if row.len() >= width {
        row.take(width as int)
    } else {
        row + Seq::new((width - row.len()) as nat, |k: int| Seq::<char>::empty())
    }
}

/// Every row of `rows` brought to `width` cells.
pub open spec fn normalized_rows(rows: Seq<Seq<Seq<char>>>, width: nat) -> Seq<Seq<Seq<char>>> {
    rows.map_values(|r: Seq<Seq<char>>| normalized(r, width))
}

/// The records of the dataset: the heading, then every row brought to its
/// width.
pub open spec fn dataset_records(header: Seq<Seq<char>>, rows: Seq<Seq<Seq<char>>>) -> Seq<
    Seq<Seq<char>>,
> {
    seq![header] + normalized_rows(rows, header.len())
}

/// What has been gathered so far, given what one more document contributes:
/// the first heading is kept for good, and the data rows are appended.
pub open spec fn merge(gathered: (Option<Seq<Seq<char>>>, Seq<Seq<Seq<char>>>), found: Option<
    TableData,
>) -> (Option<Seq<Seq<char>>>, Seq<Seq<Seq<char>>>) {
    match found {
        None => gathered,
        Some(t) => (
            if gathered.0 is Some {
                gathered.0
            } else {
                Some(t.0)
            },
            gathered.1 + t.1,
        ),
    }
}

/// What is gathered from the contributions `found` of documents taken in
/// order.
pub open spec fn gathered_from(found: Seq<Option<TableData>>) -> (
    Option<Seq<Seq<char>>>,
    Seq<Seq<Seq<char>>>,
)
    decreases found.len(),
{
    if found.len() == 0 {
        (None, Seq::empty())
    } else {
        merge(gathered_from(found.drop_last()), found.last())
    }
}

/// The delimited-text encoding of one record, terminator included; `None`
/// where the encoder reports an error.
pub uninterp spec fn csv_record_of(fields: Seq<Seq<char>>) -> Option<Seq<u8>>;

/// The encodings of `records`, one after the other; `None` where one of them
/// fails.
pub open spec fn csv_of(records: Seq<Seq<Seq<char>>>) -> Option<Seq<u8>>
    decreases records.len(),
{
    if records.len() == 0 {
        Some(Seq::empty())
    } else {
        match (csv_of(records.drop_last()), csv_record_of(records.last())) {
            (Some(a), Some(b)) => Some(a + b),
            _ => None,
        }
    }
}

/// The dataset file for what was gathered: no heading means no dataset.
pub open spec fn dataset_file_of(gathered: (Option<Seq<Seq<char>>>, Seq<Seq<Seq<char>>>)) -> Result<
    Seq<u8>,
    DatasetError,
> {
    match gathered.0 {
        None => Err(DatasetError::NoTable),
        Some(h) => match csv_of(dataset_records(h, gathered.1)) {
            Some(b) => Ok(b),
            None => Err(DatasetError::Encoding),
        },
    }
}

/// The dataset file built from the documents `docs`, read in order.
pub open spec fn dataset_of_documents(docs: Seq<Seq<char>>) -> Result<Seq<u8>, DatasetError> {
    dataset_file_of(gathered_from(docs.map_values(|d: Seq<char>| document_table(d))))
}

#[verifier::external_type_specification]
#[verifier::external_body]
pub struct ExCsvError(csv::Error);

/// Why no dataset file could be made.
#[derive(Debug, Clone, Copy, PartialEq, Eq, Structural)]
pub enum DatasetError {
    /// No document had a table whose heading names the marker column.
    NoTable,
    /// The delimited-text encoder reported an error.
    Encoding,
}

/// Relies on csv's `Writer::from_writer`, `Writer::write_record` and
/// `Writer::into_inner`: one record written to an empty in-memory buffer
/// with the default settings, and the buffer handed back.
#[verifier::external_body]
fn encode_record(fields: &Vec<String>) -> (r: Result<Vec<u8>, csv::Error>)
    ensures
        match r {
            Ok(b) => csv_record_of(fields.deep_view()) == Some(b@),
            Err(_) => csv_record_of(fields.deep_view()) is None,
        },
{
    let mut w = csv::Writer::from_writer(Vec::new());
    w.write_record(fields)?;
    w.into_inner().map_err(|e| csv::Error::from(e.into_error()))
}

/// `row` brought to `width` cells: the first `width` cells where it has more,
/// the row followed by empty cells where it has fewer.
pub fn normalize_row(row: &Vec<String>, width: usize) -> (r: Vec<String>)
    ensures
        r.deep_view() == normalized(row.deep_view(), width as nat),
        r@.len() == width,
{
    let ghost rv = row.deep_view();
    let mut out: Vec<String> = Vec::new();
    let mut i: usize = 0;
    while i < width
        invariant
            i <= width,
            rv == row.deep_view(),
            out@.len() == i,
            forall|k: int| 0 <= k < i ==> #[trigger] out.deep_view()[k] == (if k < rv.len() {
                rv[k]
            } else {
                Seq::<char>::empty()
            }),
        decreases width - i,
    {
        let ghost prev = out.deep_view();
        let cell = if i < row.len() {
            row[i].clone()
        } else {
            String::new()
        };
        assert(i < rv.len() ==> rv[i as int] == row[i as int]@);
        out.push(cell);
        assert(out.deep_view() =~= prev.push(cell@));
        i = i + 1;
    }
    assert(out.deep_view() =~= normalized(rv, width as nat));
    out
}

/// The records of the dataset: `header`, then every row of `rows` brought to
/// the heading's width.
pub fn build_records(header: &Vec<String>, rows: &Vec<Vec<String>>) -> (r: Vec<Vec<String>>)
    ensures
        r.deep_view() == dataset_records(header.deep_view(), rows.deep_view()),
{
    let ghost rv = rows.deep_view();
    let ghost hv = header.deep_view();
    let width = header.len();
    let mut out: Vec<Vec<String>> = Vec::new();
    out.push(header.clone());
    let mut i: usize = 0;
    while i < rows.len()
        invariant
            i <= rows@.len(),
            rv == rows.deep_view(),
            hv == header.deep_view(),
            width == hv.len(),
            out.deep_view() == seq![hv] + normalized_rows(rv.take(i as int), width as nat),
        decreases rows@.len() - i,
    {
        let r = normalize_row(&rows[i], width);
        let ghost prev = out.deep_view();
        out.push(r);
        assert(out.deep_view() =~= prev.push(r.deep_view()));
        assert(normalized_rows(rv.take(i + 1), width as nat) =~= normalized_rows(
            rv.take(i as int),
            width as nat,
        ).push(normalized(rv[i as int], width as nat)));
        assert(out.deep_view() =~= seq![hv] + normalized_rows(rv.take(i + 1), width as nat));
        i = i + 1;
    }
    assert(rv.take(rows@.len() as int) =~= rv);
    out
}

/// The delimited-text encoding of `records`, one record after another.
pub fn encode_records(records: &Vec<Vec<String>>) -> (r: Result<Vec<u8>, DatasetError>)
    ensures
        match csv_of(records.deep_view()) {
            Some(b) => r is Ok && r->Ok_0@ == b,
            None => r == Err::<Vec<u8>, DatasetError>(DatasetError::Encoding),
        },
{
    let ghost rv = records.deep_view();
    let mut out: Vec<u8> = Vec::new();
    let mut i: usize = 0;
    while i < records.len()
        invariant
            i <= records@.len(),
            rv == records.deep_view(),
            csv_of(rv.take(i as int)) == Some(out@),
        decreases records@.len() - i,
    {
        assert(rv.take(i + 1).drop_last() =~= rv.take(i as int));
        match encode_record(&records[i]) {
            Ok(mut b) => {
                out.append(&mut b);
            },
            Err(_) => {
                proof { lemma_csv_of_fails(rv, i as int); }
                return Err(DatasetError::Encoding);
            },
        }
        i = i + 1;
    }
    assert(rv.take(records@.len() as int) =~= rv);
    Ok(out)
}

proof fn lemma_csv_of_fails(records: Seq<Seq<Seq<char>>>, i: int)
    requires
        0 <= i < records.len(),
        csv_record_of(records[i]) is None,
    ensures
        csv_of(records) is None,
    decreases records.len(),
{
    if i < records.len() - 1 {
        lemma_csv_of_fails(records.drop_last(), i);
    }
}

/// Documents without a qualifying table: every heading of every table
/// before them was passed over.
proof fn lemma_no_heading_yet(found: Seq<Option<TableData>>)
    requires
        forall|j: int| 0 <= j < found.len() ==> #[trigger] found[j] is None,
    ensures
        gathered_from(found) == (None::<Seq<Seq<char>>>, Seq::<Seq<Seq<char>>>::empty()),
    decreases found.len(),
{
    if found.len() > 0 {
        let init = found.drop_last();
        assert forall|j: int| 0 <= j < init.len() implies #[trigger] init[j] is None by {
            assert(init[j] == found[j]);
        }
        lemma_no_heading_yet(init);
    }
}

/// The heading of the dataset is the heading of the first document that has
/// a qualifying table, whatever the documents after it hold; and it is the
/// first record of the dataset.
pub proof fn lemma_heading_is_first_found(found: Seq<Option<TableData>>, i: int)
    requires
        0 <= i < found.len(),
        found[i] is Some,
        forall|j: int| 0 <= j < i ==> #[trigger] found[j] is None,
    ensures
        gathered_from(found).0 == Some(found[i]->Some_0.0),
        dataset_records(found[i]->Some_0.0, gathered_from(found).1)[0] == found[i]->Some_0.0,
    decreases found.len(),
{
    let init = found.drop_last();
    if i == found.len() - 1 {
        assert forall|j: int| 0 <= j < init.len() implies #[trigger] init[j] is None by {
            assert(init[j] == found[j]);
        }
        lemma_no_heading_yet(init);
    } else {
        assert(init[i] == found[i]);
        assert forall|j: int| 0 <= j < i implies #[trigger] init[j] is None by {
            assert(init[j] == found[j]);
        }
        lemma_heading_is_first_found(init, i);
    }
}

/// Every data record of the dataset has as many cells as the heading,
/// whatever the lengths of the rows it was made from.
pub proof fn lemma_records_fixed_width(header: Seq<Seq<char>>, rows: Seq<Seq<Seq<char>>>)
    ensures
        dataset_records(header, rows).len() == rows.len() + 1,
        forall|k: int|
            1 <= k < dataset_records(header, rows).len() ==> #[trigger] dataset_records(
                header,
                rows,
            )[k].len() == header.len(),
{
    assert forall|k: int|
        1 <= k < dataset_records(header, rows).len() implies #[trigger] dataset_records(
        header,
        rows,
    )[k].len() == header.len() by {
        assert(dataset_records(header, rows)[k] == normalized(rows[k - 1], header.len()));
    }
}

/// A document whose tables all fail to qualify contributes nothing, and
/// leaves what was gathered as it was.
pub proof fn lemma_unmarked_document(
    gathered: (Option<Seq<Seq<char>>>, Seq<Seq<Seq<char>>>),
    tables: Seq<TableView>,
)
    requires
        forall|k: int| 0 <= k < tables.len() ==> !qualifies(#[trigger] tables[k]),
    ensures
        first_marked_table(tables) is None,
        merge(gathered, first_marked_table(tables)) == gathered,
    decreases tables.len(),
{
    if tables.len() > 0 {
        assert(!qualifies(tables[0]));
        assert forall|k: int| 0 <= k < tables.drop_first().len() implies !qualifies(
            #[trigger] tables.drop_first()[k],
        ) by {
            assert(tables.drop_first()[k] == tables[k + 1]);
        }
        lemma_unmarked_document(gathered, tables.drop_first());
    }
}

/// The dataset file is a function of the documents' content: two runs over
/// the same documents give the same bytes, or fail the same way.
pub proof fn lemma_dataset_repeatable(first: Seq<Seq<char>>, second: Seq<Seq<char>>)
    requires
        first == second,
    ensures
        dataset_of_documents(first) == dataset_of_documents(second),
{
}

/// The dataset file built from the documents `docs`, read in order.
pub fn dataset_from_documents(docs: &Vec<String>) -> (r: Result<Vec<u8>, DatasetError>)
    ensures
        match dataset_of_documents(docs.deep_view()) {
            Ok(b) => r is Ok && r->Ok_0@ == b,
            Err(e) => r == Err::<Vec<u8>, DatasetError>(e),
        },
{
    let ghost dv = docs.deep_view();
    let ghost found = dv.map_values(|d: Seq<char>| document_table(d));
    let mut h = Harvest::new();
    let mut i: usize = 0;
    assert(found.take(0) =~= Seq::<Option<TableData>>::empty());
    while i < docs.len()
        invariant
            i <= docs@.len(),
            dv == docs.deep_view(),
            found == dv.map_values(|d: Seq<char>| document_table(d)),
            h.deep_view() == gathered_from(found.take(i as int)),
        decreases docs@.len() - i,
    {
        assert(dv[i as int] == docs[i as int]@);
        assert(found.take(i + 1).drop_last() =~= found.take(i as int));
        h.absorb_document(docs[i].as_str());
        i = i + 1;
    }
    assert(found.take(docs@.len() as int) =~= found);
    h.dataset_file()
}

/// The data gathered from documents read one after another.
pub struct Harvest {
    pub header: Option<Vec<String>>,
    pub rows: Vec<Vec<String>>,
}

impl DeepView for Harvest {
    type V = (Option<Seq<Seq<char>>>, Seq<Seq<Seq<char>>>);

    open spec fn deep_view(&self) -> Self::V {
        (self.header.deep_view(), self.rows.deep_view())
    }
}

impl Harvest {
    /// Nothing gathered yet.
    pub fn new() -> (r: Harvest)
        ensures
            r.deep_view() == gathered_from(Seq::empty()),
    {
        let r = Harvest { header: None, rows: Vec::new() };
        assert(r.rows.deep_view() =~= Seq::<Seq<Seq<char>>>::empty());
        r
    }

    /// Takes in what one document contributes: its table's heading becomes
    /// the dataset's heading if there is none yet, and its data rows are
    /// appended.
    pub fn absorb(&mut self, found: Option<RawTable>)
        ensures
            final(self).deep_view() == merge(old(self).deep_view(), found.deep_view()),
    {
        if let Some(t) = found {
            let RawTable { header, rows } = t;
            if self.header.is_none() {
                self.header = Some(header);
            }
            let mut rows = rows;
            let ghost before = self.rows.deep_view();
            let ghost added = rows.deep_view();
            self.rows.append(&mut rows);
            assert(self.rows.deep_view() =~= before + added);
        }
    }

    /// Takes in the table of the document `doc`, if it has one.
    pub fn absorb_document(&mut self, doc: &str)
        ensures
            final(self).deep_view() == merge(old(self).deep_view(), document_table(doc@)),
    {
        let found = extract_iata_table(doc);
        self.absorb(found);
    }

    /// The dataset file for what was gathered: the heading, then all data
    /// rows brought to its width, encoded one record after another.
    pub fn dataset_file(&self) -> (r: Result<Vec<u8>, DatasetError>)
        ensures
            match dataset_file_of(self.deep_view()) {
                Ok(b) => r is Ok && r->Ok_0@ == b,
                Err(e) => r == Err::<Vec<u8>, DatasetError>(e),
            },
    {
        match &self.header {
            None => Err(DatasetError::NoTable),
            Some(h) => {
                let records = build_records(h, &self.rows);
                encode_records(&records)
            },
        }
    }
}

} // verus!
