//! The reference documents: one per initial letter, and one for codes that
//! start with a digit.
use vstd::prelude::*;
use crate::text::string_of;

verus! {

/// The address that every document's suffix is appended to, in parentheses.
pub const DOCUMENT_BASE: &'static str = "https://en.wikipedia.org/wiki/List_of_airline_codes_";

/// The suffix of the document for codes that start with a digit ("0–9",
/// percent-encoded).
pub const DIGITS_SUFFIX: &'static str = "0%E2%80%939";

/// The letters that name the other documents, in order.
pub const LETTERS: &'static str = "ABCDEFGHIJKLMNOPQRSTUVWXYZ";

/// The suffixes of the documents, in the order they are read: the digits
/// document, then one per letter from A to Z.
pub fn document_suffixes() -> (r: Vec<String>)
    ensures
        r@.len() == 27,
        r@[0]@ == DIGITS_SUFFIX@,
        forall|i: int| 0 <= i < 26 ==> #[trigger] r@[i + 1]@ == seq![LETTERS@[i]],
{
    proof {
        reveal_strlit("ABCDEFGHIJKLMNOPQRSTUVWXYZ");
    }
    let mut r: Vec<String> = Vec::new();
    r.push(String::from_str(DIGITS_SUFFIX));
    let mut i: usize = 0;
    while i < 26
        invariant
            i <= 26,
            LETTERS@.len() == 26,
            r@.len() == i + 1,
            r@[0]@ == DIGITS_SUFFIX@,
            forall|k: int| 0 <= k < i ==> #[trigger] r@[k + 1]@ == seq![LETTERS@[k]],
        decreases 26 - i,
    {
        let c = LETTERS.get_char(i);
        let one = vec![c];
        let s = string_of(&one);
        assert(one@ =~= seq![c]);
        r.push(s);
        i = i + 1;
    }
    r
}

/// The address of the document with suffix `suffix`.
pub fn document_url(suffix: &str) -> (r: String)
    ensures
        r@ == DOCUMENT_BASE@ + "("@ + suffix@ + ")"@,
{
    let mut r = String::from_str(DOCUMENT_BASE);
    r.append("(");
    r.append(suffix);
    r.append(")");
    r
}

} // verus!
