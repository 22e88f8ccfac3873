//! The query: the user-typed text, trimmed of surrounding whitespace
//! and case-folded to ASCII lower case before any matching.

use vstd::prelude::*;

verus! {

/// The ASCII lower-case mapping on one character: the letters `A`
/// through `Z` shift to their lower-case forms, every other character
/// stays as it is.
pub open spec fn lower_char(c: char) -> char {
    if 65 <= c as u32 <= 90 {
        ((c as u32 + 32) as u32) as char
    } else {
        c
    }
}

/// The ASCII lower-case mapping over whole text.
pub open spec fn lower_of(s: Seq<char>) -> Seq<char> {
    s.map_values(|c: char| lower_char(c))
}

/// What `str::trim` leaves of text with view `s`.
pub uninterp spec fn trim_of(s: Seq<char>) -> Seq<char>;

/// The normalized form of a typed query: ASCII lower-cased, then
/// trimmed of leading and trailing whitespace.
pub open spec fn normalized(q: Seq<char>) -> Seq<char> {
    trim_of(lower_of(q))
}

/// Relies on `str::to_ascii_lowercase`: each character is mapped to
/// its ASCII lower-case equivalent and all others are left unchanged,
/// which is exactly `lower_of`.
#[verifier::external_body]
fn ascii_lowercase(s: &str) -> (r: String)
    ensures
        r@ == lower_of(s@),
{
    s.to_ascii_lowercase()
}

/// Relies on `str::trim`: the slice with leading and trailing
/// whitespace removed, so trimming depends on the text alone and
/// empty text stays empty.
#[verifier::external_body]
fn trim_spaces(s: &str) -> (r: &str)
    ensures
        r@ == trim_of(s@),
        s@.len() == 0 ==> r@.len() == 0,
{
    s.trim()
}

/// Normalizes the typed query before any matching; an empty query
/// stays empty.
pub fn normalize_query(q: &str) -> (r: String)
    ensures
        r@ == normalized(q@),
        q@.len() == 0 ==> r@.len() == 0,
{
    let lowered = ascii_lowercase(q);
    let trimmed = trim_spaces(lowered.as_str());
    String::from_str(trimmed)
}

/// Lower-casing is idempotent: a lowered character has no upper-case
/// letter left in it.
pub proof fn lemma_lower_char_idempotent(c: char)
    ensures
        lower_char(lower_char(c)) == lower_char(c),
{
}

/// Case-insensitivity of the query pipeline: a query typed in any
/// letter case normalizes to the same text as its lower-cased form,
/// so everything downstream treats the two alike.
pub proof fn lemma_normalized_case_insensitive(q: Seq<char>)
    ensures
        normalized(lower_of(q)) == normalized(q),
{
    assert(lower_of(lower_of(q)) =~= lower_of(q)) by {
        assert forall|k: int| 0 <= k < q.len() implies lower_of(lower_of(q))[k] == lower_of(q)[k] by {
            lemma_lower_char_idempotent(q[k]);
        }
    }
}

} // verus!
