//! Collecting airline codes from the dataset: the trimmed, upper-cased
//! values of the marker column that are two ASCII letters or digits, each
//! kept once.
use vstd::prelude::*;
use crate::dataset::ExCsvError;
use crate::text::{is_marker, is_marker_heading, trim, trim_text};

verus! {

/// The records of the delimited text `bytes` (rows of any length accepted);
/// `None` where the reader reports an error.
pub uninterp spec fn csv_records_in(bytes: Seq<u8>) -> Option<Seq<Seq<Seq<char>>>>;

/// The upper-case form of `s`, as Unicode defines it.
pub uninterp spec fn upper_of(s: Seq<char>) -> Seq<char>;

/// Relies on csv's `ReaderBuilder` (no heading row, rows of any length)
/// and `Reader::records`: every record of `bytes`, in order, or the first
/// error met.
#[verifier::external_body]
fn read_records(bytes: &Vec<u8>) -> (r: Result<Vec<Vec<String>>, csv::Error>)
    ensures
        match r {
            Ok(v) => csv_records_in(bytes@) == Some(v.deep_view()),
            Err(_) => csv_records_in(bytes@) is None,
        },
{
    let mut rdr = csv::ReaderBuilder::new().has_headers(false).flexible(true).from_reader(
        bytes.as_slice(),
    );
    rdr.records().map(|rec| rec.map(|fields| fields.iter().map(String::from).collect())).collect()
}

/// Relies on `str::to_uppercase`: the result depends on the characters of
/// `s` alone.
#[verifier::external_body]
fn to_upper(s: &str) -> (r: String)
    ensures
        r@ == upper_of(s@),
{
    s.to_uppercase()
}

/// An ASCII letter or digit.
pub open spec fn is_ascii_alnum(c: char) -> bool {
    ('0' <= c && c <= '9') || ('a' <= c && c <= 'z') || ('A' <= c && c <= 'Z')
}

/// Two ASCII letters or digits.
pub open spec fn valid_code(u: Seq<char>) -> bool {
    u.len() == 2 && is_ascii_alnum(u[0]) && is_ascii_alnum(u[1])
}

/// The candidate code of a marker-column value: trimmed, then upper-cased.
pub open spec fn code_candidate(v: Seq<char>) -> Seq<char> {
    upper_of(trim(v))
}

/// `c` is the code of the value in column `col` of one of `rows`.
pub open spec fn is_code_in(rows: Seq<Seq<Seq<char>>>, col: nat, c: Seq<char>) -> bool {
    exists|k: int|
        0 <= k < rows.len() && col < rows[k].len() && valid_code(code_candidate(#[trigger] rows[k][col as int]))
            && c == code_candidate(rows[k][col as int])
}

/// The index of the first heading of `header` that names the marker column.
pub open spec fn is_first_marker(header: Seq<Seq<char>>, i: nat) -> bool {
    i < header.len() && is_marker(header[i as int]) && forall|j: int|
        0 <= j < i ==> !is_marker(#[trigger] header[j])
}

/// Why no codes could be collected.
#[derive(Debug, Clone, Copy, PartialEq, Eq, Structural)]
pub enum CodeError {
    /// The dataset is not readable delimited text.
    Unreadable,
    /// The dataset has no heading that names the marker column.
    MarkerColumnMissing,
}

/// Whether the upper-cased value `u` is two ASCII letters or digits.
pub fn accept_code(u: &str) -> (r: bool)
    ensures
        r == valid_code(u@),
{
    let n = u.unicode_len();
    if n != 2 {
        return false;
    }
    let a = u.get_char(0);
    let b = u.get_char(1);
    (('0' <= a && a <= '9') || ('a' <= a && a <= 'z') || ('A' <= a && a <= 'Z')) && (('0' <= b
        && b <= '9') || ('a' <= b && b <= 'z') || ('A' <= b && b <= 'Z'))
}

/// The code that the marker-column value `v` gives, if it gives one.
pub fn code_from_value(v: &str) -> (r: Option<String>)
    ensures
        r is Some <==> valid_code(code_candidate(v@)),
        r is Some ==> r->Some_0@ == code_candidate(v@),
{
    let t = trim_text(v);
    let u = to_upper(t.as_str());
    if accept_code(u.as_str()) {
        Some(u)
    } else {
        None
    }
}

/// The index of the first heading of `header` that names the marker column.
pub fn marker_column(header: &Vec<String>) -> (r: Option<usize>)
    ensures
        r matches Some(i) ==> is_first_marker(header.deep_view(), i as nat),
        r is None ==> forall|j: int|
            0 <= j < header@.len() ==> !is_marker(#[trigger] header.deep_view()[j]),
{
    let ghost h = header.deep_view();
    let mut i: usize = 0;
    while i < header.len()
        invariant
            i <= header@.len(),
            h == header.deep_view(),
            forall|j: int| 0 <= j < i ==> !is_marker(#[trigger] h[j]),
        decreases header@.len() - i,
    {
        assert(h[i as int] == header[i as int]@);
        if is_marker_heading(header[i].as_str()) {
            return Some(i);
        }
        i = i + 1;
    }
    None
}

/// Whether `codes` holds `c`.
fn holds(codes: &Vec<String>, c: &String) -> (r: bool)
    ensures
        r == codes.deep_view().contains(c@),
{
    let ghost cv = codes.deep_view();
    let mut i: usize = 0;
    while i < codes.len()
        invariant
            i <= codes@.len(),
            cv == codes.deep_view(),
            forall|k: int| 0 <= k < i ==> cv[k] != c@,
        decreases codes@.len() - i,
    {
        assert(cv[i as int] == codes[i as int]@);
        if codes[i] == *c {
            return true;
        }
        i = i + 1;
    }
    false
}

/// The codes of column `col` of `rows`, each once; rows too short to have
/// that column, and values that give no code, are passed over.
pub fn collect_codes(rows: &Vec<Vec<String>>, col: usize) -> (r: Vec<String>)
    ensures
        r.deep_view().no_duplicates(),
        forall|c: Seq<char>| #[trigger] r.deep_view().contains(c) <==> is_code_in(rows.deep_view(), col as nat, c),
{
    let ghost rv = rows.deep_view();
    let mut out: Vec<String> = Vec::new();
    let mut i: usize = 0;
    while i < rows.len()
        invariant
            i <= rows@.len(),
            rv == rows.deep_view(),
            out.deep_view().no_duplicates(),
            forall|c: Seq<char>| #[trigger] out.deep_view().contains(c) <==> is_code_in(rv.take(i as int), col as nat, c),
        decreases rows@.len() - i,
    {
        let ghost prev = out.deep_view();
        let ghost row = rv[i as int];
        let ghost found = col < row.len() && valid_code(code_candidate(row[col as int]));
        assert(row == rows[i as int].deep_view());
        if col < rows[i].len() {
            assert(row[col as int] == rows[i as int][col as int]@);
            match code_from_value(rows[i][col].as_str()) {
                Some(code) => {
                    if !holds(&out, &code) {
                        out.push(code);
                        assert(out.deep_view() =~= prev.push(code@));
                        proof { lemma_push_contains(prev, code@); }
                    }
                },
                None => {},
            }
        }
        assert(forall|c: Seq<char>| #[trigger] out.deep_view().contains(c) <==> (prev.contains(c)
            || (found && c == code_candidate(row[col as int]))));
        assert(rv.take(i + 1).drop_last() =~= rv.take(i as int));
        assert(rv.take(i + 1).last() == row);
        assert forall|c: Seq<char>| #[trigger] out.deep_view().contains(c) <==> is_code_in(rv.take(i + 1), col as nat, c) by {
            lemma_code_in_last(rv.take(i + 1), col as nat, c);
        }
        i = i + 1;
    }
    assert(rv.take(rows@.len() as int) =~= rv);
    out
}

proof fn lemma_push_contains(s: Seq<Seq<char>>, x: Seq<char>)
    ensures
        forall|c: Seq<char>| #[trigger] s.push(x).contains(c) <==> (s.contains(c) || c == x),
{
    assert forall|c: Seq<char>| #[trigger] s.push(x).contains(c) <==> (s.contains(c) || c == x) by {
        if s.contains(c) {
            let j = choose|j: int| 0 <= j < s.len() && s[j] == c;
            assert(s.push(x)[j] == c);
        }
        if c == x {
            assert(s.push(x)[s.len() as int] == c);
        }
        if s.push(x).contains(c) && c != x {
            let j = choose|j: int| 0 <= j < s.len() + 1 && s.push(x)[j] == c;
            assert(s[j] == c);
        }
    }
}

proof fn lemma_code_in_last(rows: Seq<Seq<Seq<char>>>, col: nat, c: Seq<char>)
    requires
        rows.len() > 0,
    ensures
        is_code_in(rows, col, c) <==> is_code_in(rows.drop_last(), col, c) || (col
            < rows.last().len() && valid_code(code_candidate(rows.last()[col as int])) && c
            == code_candidate(rows.last()[col as int])),
{
    let init = rows.drop_last();
    if is_code_in(rows, col, c) {
        let k = choose|k: int|
            0 <= k < rows.len() && col < rows[k].len() && valid_code(
                code_candidate(#[trigger] rows[k][col as int]),
            ) && c == code_candidate(rows[k][col as int]);
        if k < rows.len() - 1 {
            assert(init[k] == rows[k]);
            assert(is_code_in(init, col, c));
        }
    }
    if is_code_in(init, col, c) {
        let k = choose|k: int|
            0 <= k < init.len() && col < init[k].len() && valid_code(
                code_candidate(#[trigger] init[k][col as int]),
            ) && c == code_candidate(init[k][col as int]);
        assert(init[k] == rows[k]);
        assert(is_code_in(rows, col, c));
    }
    if col < rows.last().len() && valid_code(code_candidate(rows.last()[col as int])) && c
        == code_candidate(rows.last()[col as int]) {
        let k = rows.len() - 1;
        assert(rows[k] == rows.last());
        assert(is_code_in(rows, col, c));
    }
}

/// The codes of the dataset `records`, whose first record is the heading:
/// the column is the first whose heading names the marker column.
pub fn codes_from_records(records: Vec<Vec<String>>) -> (r: Result<Vec<String>, CodeError>)
    ensures
        records@.len() == 0 ==> r == Err::<Vec<String>, CodeError>(CodeError::MarkerColumnMissing),
        records@.len() > 0 ==> {
            let h = records.deep_view()[0];
            let rows = records.deep_view().drop_first();
            &&& r is Err <==> !(exists|i: nat| is_first_marker(h, i))
            &&& r is Err ==> r == Err::<Vec<String>, CodeError>(CodeError::MarkerColumnMissing)
            &&& r matches Ok(codes) ==> exists|i: nat| #[trigger] is_first_marker(h, i) && codes.deep_view().no_duplicates()
                && forall|c: Seq<char>| #[trigger] codes.deep_view().contains(c) <==> is_code_in(rows, i, c)
        },
{
    if records.len() == 0 {
        return Err(CodeError::MarkerColumnMissing);
    }
    let ghost rv = records.deep_view();
    assert(rv[0] == records[0].deep_view());
    match marker_column(&records[0]) {
        None => {
            assert forall|i: nat| !is_first_marker(rv[0], i) by {
                if i < rv[0].len() {
                    assert(!is_marker(rv[0][i as int]));
                }
            }
            Err(CodeError::MarkerColumnMissing)
        },
        Some(col) => {
            let mut head = records;
            let rows = head.split_off(1);
            assert(rows.deep_view() =~= rv.drop_first());
            let codes = collect_codes(&rows, col);
            assert(is_first_marker(rv[0], col as nat));
            Ok(codes)
        },
    }
}

/// The codes of the dataset file `bytes`.
pub fn codes_from_csv(bytes: &Vec<u8>) -> (r: Result<Vec<String>, CodeError>)
    ensures
        csv_records_in(bytes@) is None ==> r == Err::<Vec<String>, CodeError>(CodeError::Unreadable),
        csv_records_in(bytes@) matches Some(records) ==> {
            &&& records.len() == 0 ==> r == Err::<Vec<String>, CodeError>(CodeError::MarkerColumnMissing)
            &&& records.len() > 0 ==> {
                &&& r is Err <==> !(exists|i: nat| is_first_marker(records[0], i))
                &&& r is Err ==> r == Err::<Vec<String>, CodeError>(CodeError::MarkerColumnMissing)
                &&& r matches Ok(codes) ==> exists|i: nat| #[trigger] is_first_marker(records[0], i) && codes.deep_view().no_duplicates()
                    && forall|c: Seq<char>| #[trigger] codes.deep_view().contains(c) <==> is_code_in(records.drop_first(), i, c)
            }
        },
{
    match read_records(bytes) {
        Ok(records) => codes_from_records(records),
        Err(_) => Err(CodeError::Unreadable),
    }
}

} // verus!
