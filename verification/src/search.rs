//! Content-search decisions: case-insensitive substring matching of one
//! term, or of every term of a set, against decoded file content.

use vstd::prelude::*;
use crate::decode::{best_effort_chars, decode_best_effort};
use crate::text::{contains_str, has_substring};

verus! {

/// What lower-casing yields for a character sequence; the result depends
/// on the characters alone.
pub uninterp spec fn lower_of(s: Seq<char>) -> Seq<char>;

/// Relies on str::to_lowercase: the lower-case form of a string is a
/// function of its characters alone.
#[verifier::external_body]
fn to_lower(s: &str) -> (r: String)
    ensures
        r@ == lower_of(s@),
{
    s.to_lowercase()
}

/// Whether the lower-cased content contains the lower-cased term.
pub fn content_matches_term(content: &str, term: &str) -> (r: bool)
    ensures
        r == has_substring(lower_of(content@), lower_of(term@)),
{
    let lc = to_lower(content);
    let lt = to_lower(term);
    contains_str(lc.as_str(), lt.as_str())
}

/// Whether the lower-cased content contains every lower-cased term: the
/// conjunction over the whole set, in any order.
pub fn content_matches_all(content: &str, terms: &Vec<String>) -> (r: bool)
    ensures
        r == (forall|i: int|
            0 <= i < terms@.len() ==> has_substring(lower_of(content@), lower_of(terms@[i]@))),
{
    let lc = to_lower(content);
    let mut i: usize = 0;
    while i < terms.len()
        invariant
            i <= terms@.len(),
            lc@ == lower_of(content@),
            forall|j: int| 0 <= j < i ==> has_substring(lower_of(content@), lower_of(terms@[j]@)),
        decreases terms@.len() - i,
    {
        let term = &terms[i];
        let lt = to_lower(term.as_str());
        if !contains_str(lc.as_str(), lt.as_str()) {
            return false;
        }
        i = i + 1;
    }
    true
}

/// Decides an atlas-file match on a best-effort decoding: content that is
/// not clean UTF-8 is recovered with replacement markers and still
/// searched; a match means the lower-cased text contains the lower-cased
/// term.
pub fn atlas_file_matches(bytes: &Vec<u8>, term: &str) -> (r: bool)
    ensures
        r == has_substring(lower_of(best_effort_chars(bytes@)), lower_of(term@)),
{
    let d = decode_best_effort(bytes);
    content_matches_term(d.0.as_str(), term)
}

/// Decides a skeleton-file match on a best-effort decoding: every term
/// must occur in the lower-cased text, which never fails to decode.
pub fn skel_file_matches(bytes: &Vec<u8>, terms: &Vec<String>) -> (r: bool)
    ensures
        r == (forall|i: int|
            0 <= i < terms@.len() ==> has_substring(
                lower_of(best_effort_chars(bytes@)),
                lower_of(terms@[i]@),
            )),
{
    let d = decode_best_effort(bytes);
    content_matches_all(d.0.as_str(), terms)
}

} // verus!
