//! Harvesting airline-code tables from reference documents into one
//! fixed-width dataset, and planning the bounded download of one logo per
//! airline code.
use vstd::prelude::*;

pub mod codes;
pub mod dataset;
pub mod download;
pub mod sources;
pub mod table;
pub mod text;

verus! {

/// Appends a path separator to `s` unless it already ends with one.
pub fn ensure_trailing_slash(s: &str) -> (r: String)
    ensures
        r@ == (if s@.len() > 0 && s@.last() == '/' { s@ } else { s@.push('/') }),
{
    let n = s.unicode_len();
    let owned = String::from_str(s);
    if n > 0 && s.get_char(n - 1) == '/' {
        owned
    } else {
        let mut out = owned;
        out.append("/");
        proof { reveal_strlit("/"); }
        out
    }
}

} // verus!
