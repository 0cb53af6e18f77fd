//! Character-level text handling: whitespace, trimming, collapsing runs of
//! whitespace, and recognising the marker column heading.
use vstd::prelude::*;

verus! {

/// The characters that carry the Unicode `White_Space` property, which is
/// what `char::is_whitespace`, `str::trim` and `str::split_whitespace` use.
pub open spec fn is_ws(c: char) -> bool {
    ('\t' <= c && c <= '\r') || c == ' ' || c == '\u{85}' || c == '\u{a0}' || c == '\u{1680}'
        || ('\u{2000}' <= c && c <= '\u{200a}') || c == '\u{2028}' || c == '\u{2029}'
        || c == '\u{202f}' || c == '\u{205f}' || c == '\u{3000}'
}

pub fn is_whitespace_char(c: char) -> (r: bool)
    ensures
        r == is_ws(c),
{
    ('\t' <= c && c <= '\r') || c == ' ' || c == '\u{85}' || c == '\u{a0}' || c == '\u{1680}'
        || ('\u{2000}' <= c && c <= '\u{200a}') || c == '\u{2028}' || c == '\u{2029}'
        || c == '\u{202f}' || c == '\u{205f}' || c == '\u{3000}'
}

/// `s` without its leading whitespace.
pub open spec fn trim_start(s: Seq<char>) -> Seq<char>
    decreases s.len(),
{
    if s.len() > 0 && is_ws(s[0]) {
        trim_start(s.drop_first())
    } else {
        s
    }
}

/// `s` without its trailing whitespace.
pub open spec fn trim_end(s: Seq<char>) -> Seq<char>
    decreases s.len(),
{
    if s.len() > 0 && is_ws(s.last()) {
        trim_end(s.drop_last())
    } else {
        s
    }
}

/// `s` without leading and trailing whitespace.
pub open spec fn trim(s: Seq<char>) -> Seq<char> {
    trim_end(trim_start(s))
}

/// The words of `s` (maximal runs of non-whitespace), joined by single
/// spaces: every run of whitespace becomes one space, and none is left at
/// either end.
pub open spec fn collapse(s: Seq<char>) -> Seq<char>
    decreases s.len(),
{
    if s.len() == 0 {
        s
    } else if is_ws(s.last()) {
        collapse(s.drop_last())
    } else {
        let p = s.drop_last();
        if p.len() == 0 || !is_ws(p.last()) {
            collapse(p).push(s.last())
        } else if collapse(p).len() == 0 {
            seq![s.last()]
        } else {
            collapse(p).push(' ').push(s.last())
        }
    }
}

/// The pieces of `parts` joined by single spaces.
pub open spec fn join_spaced(parts: Seq<Seq<char>>) -> Seq<char>
    decreases parts.len(),
{
    if parts.len() == 0 {
        Seq::empty()
    } else if parts.len() == 1 {
        parts[0]
    } else {
        join_spaced(parts.drop_last()).push(' ') + parts.last()
    }
}

/// The text of a cell made of the text nodes `nodes`.
pub open spec fn cell_text(nodes: Seq<Seq<char>>) -> Seq<char> {
    collapse(join_spaced(nodes))
}

/// `t` equals "IATA" when ASCII letters are compared without case.
pub open spec fn marker_word(t: Seq<char>) -> bool {
    t.len() == 4 && (t[0] == 'i' || t[0] == 'I') && (t[1] == 'a' || t[1] == 'A') && (t[2]
        == 't' || t[2] == 'T') && (t[3] == 'a' || t[3] == 'A')
}

/// A heading names the marker column when, trimmed, it reads "IATA" in any
/// ASCII case.
pub open spec fn is_marker(s: Seq<char>) -> bool {
    marker_word(trim(s))
}

/// Some heading of `header` names the marker column.
pub open spec fn has_marker(header: Seq<Seq<char>>) -> bool {
    exists|i: int| 0 <= i < header.len() && is_marker(#[trigger] header[i])
}

/// Relies on `str::chars`: the characters of `s`, in order.
#[verifier::external_body]
pub(crate) fn chars_of(s: &str) -> (r: Vec<char>)
    ensures
        r@ == s@,
{
    s.chars().collect()
}

/// Relies on `FromIterator<&char> for String`: the string of the characters of `v`.
#[verifier::external_body]
pub(crate) fn string_of(v: &Vec<char>) -> (r: String)
    ensures
        r@ == v@,
{
    v.iter().collect()
}

/// Whether `a` and `b` hold the same characters.
pub fn same_text(a: &str, b: &str) -> (r: bool)
    ensures
        r == (a@ == b@),
{
    let x = chars_of(a);
    let y = chars_of(b);
    if x.len() != y.len() {
        return false;
    }
    let mut i: usize = 0;
    while i < x.len()
        invariant
            i <= x@.len() == y@.len(),
            x@ == a@,
            y@ == b@,
            x@.take(i as int) == y@.take(i as int),
        decreases x@.len() - i,
    {
        if x[i] != y[i] {
            assert(x@[i as int] != y@[i as int]);
            assert(x@ != y@);
            return false;
        }
        assert(x@.take(i + 1) =~= x@.take(i as int).push(x@[i as int]));
        assert(y@.take(i + 1) =~= y@.take(i as int).push(y@[i as int]));
        i = i + 1;
    }
    assert(x@.take(x@.len() as int) =~= x@);
    assert(y@.take(y@.len() as int) =~= y@);
    true
}

/// Copies `v[lo..hi]`.
fn copy_range(v: &Vec<char>, lo: usize, hi: usize) -> (r: Vec<char>)
    requires
        lo <= hi <= v@.len(),
    ensures
        r@ == v@.subrange(lo as int, hi as int),
{
    let mut r: Vec<char> = Vec::new();
    let mut i: usize = lo;
    while i < hi
        invariant
            lo <= i <= hi <= v@.len(),
            r@ == v@.subrange(lo as int, i as int),
        decreases hi - i,
    {
        r.push(v[i]);
        i = i + 1;
        assert(r@ =~= v@.subrange(lo as int, i as int));
    }
    r
}

/// The characters of `v` without leading and trailing whitespace.
pub fn trim_chars(v: &Vec<char>) -> (r: Vec<char>)
    ensures
        r@ == trim(v@),
{
    let n = v.len();
    let mut lo: usize = 0;
    assert(v@.subrange(0, n as int) =~= v@);
    while lo < n && is_whitespace_char(v[lo])
        invariant
            lo <= n == v@.len(),
            trim_start(v@) == trim_start(v@.subrange(lo as int, n as int)),
        decreases n - lo,
    {
        assert(v@.subrange(lo as int, n as int).drop_first() =~= v@.subrange(
            lo as int + 1,
            n as int,
        ));
        lo = lo + 1;
    }
    let ghost t = v@.subrange(lo as int, n as int);
    let mut hi: usize = n;
    while hi > lo && is_whitespace_char(v[hi - 1])
        invariant
            lo <= hi <= n == v@.len(),
            t == v@.subrange(lo as int, n as int),
            trim_end(t) == trim_end(v@.subrange(lo as int, hi as int)),
        decreases hi,
    {
        assert(v@.subrange(lo as int, hi as int).drop_last() =~= v@.subrange(
            lo as int,
            hi as int - 1,
        ));
        hi = hi - 1;
    }
    copy_range(v, lo, hi)
}

/// `s` without leading and trailing whitespace.
pub fn trim_text(s: &str) -> (r: String)
    ensures
        r@ == trim(s@),
{
    let v = chars_of(s);
    string_of(&trim_chars(&v))
}

/// Collapses every run of whitespace in `v` to one space and drops it at
/// both ends.
pub fn collapse_chars(v: &Vec<char>) -> (r: Vec<char>)
    ensures
        r@ == collapse(v@),
{
    let mut out: Vec<char> = Vec::new();
    let mut i: usize = 0;
    assert(v@.take(0) =~= Seq::<char>::empty());
    while i < v.len()
        invariant
            i <= v@.len(),
            out@ == collapse(v@.take(i as int)),
        decreases v@.len() - i,
    {
        let c = v[i];
        let ghost p = v@.take(i as int);
        assert(v@.take(i as int + 1).drop_last() =~= p);
        assert(v@.take(i as int + 1).last() == c);
        if !is_whitespace_char(c) {
            if i == 0 || !is_whitespace_char(v[i - 1]) {
                out.push(c);
            } else if out.len() == 0 {
                out.push(c);
                assert(out@ =~= seq![c]);
            } else {
                out.push(' ');
                out.push(c);
            }
        }
        i = i + 1;
    }
    assert(v@.take(v@.len() as int) =~= v@);
    out
}

/// The pieces of `parts` joined by single spaces.
pub fn join_spaced_chars(parts: &Vec<String>) -> (r: Vec<char>)
    ensures
        r@ == join_spaced(parts.deep_view()),
{
    let ghost ps = parts.deep_view();
    let mut out: Vec<char> = Vec::new();
    let mut i: usize = 0;
    while i < parts.len()
        invariant
            i <= parts@.len(),
            ps == parts.deep_view(),
            out@ == join_spaced(ps.take(i as int)),
        decreases parts@.len() - i,
    {
        let piece = chars_of(parts[i].as_str());
        assert(ps.take(i as int + 1).drop_last() =~= ps.take(i as int));
        assert(ps[i as int] == parts[i as int]@);
        if i > 0 {
            out.push(' ');
        }
        let ghost before = out@;
        let mut j: usize = 0;
        while j < piece.len()
            invariant
                j <= piece@.len(),
                out@ == before + piece@.take(j as int),
            decreases piece@.len() - j,
        {
            out.push(piece[j]);
            j = j + 1;
            assert(out@ =~= before + piece@.take(j as int));
        }
        assert(piece@.take(piece@.len() as int) =~= piece@);
        if i == 0 {
            assert(out@ =~= ps.take(1)[0]);
        }
        i = i + 1;
    }
    assert(ps.take(parts@.len() as int) =~= ps);
    out
}

/// The text of a cell made of the text nodes `nodes`: the nodes joined by
/// spaces, every run of whitespace collapsed to one space, and trimmed.
pub fn extract_text(nodes: &Vec<String>) -> (r: String)
    ensures
        r@ == cell_text(nodes.deep_view()),
{
    let joined = join_spaced_chars(nodes);
    string_of(&collapse_chars(&joined))
}

/// Whether `s`, trimmed, reads "IATA" in any ASCII case.
pub fn is_marker_heading(s: &str) -> (r: bool)
    ensures
        r == is_marker(s@),
{
    let t = trim_chars(&chars_of(s));
    t.len() == 4 && (t[0] == 'i' || t[0] == 'I') && (t[1] == 'a' || t[1] == 'A') && (t[2] == 't'
        || t[2] == 'T') && (t[3] == 'a' || t[3] == 'A')
}

/// Whether some heading of `header` names the marker column.
pub fn header_has_iata(header: &Vec<String>) -> (r: bool)
    ensures
        r == has_marker(header.deep_view()),
{
    let ghost h = header.deep_view();
    let mut i: usize = 0;
    while i < header.len()
        invariant
            i <= header@.len(),
            h == header.deep_view(),
            forall|k: int| 0 <= k < i ==> !is_marker(#[trigger] h[k]),
        decreases header@.len() - i,
    {
        if is_marker_heading(header[i].as_str()) {
            assert(h[i as int] == header[i as int]@);
            return true;
        }
        i = i + 1;
    }
    false
}

} // verus!
