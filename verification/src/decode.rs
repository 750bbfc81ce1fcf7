//! Byte-to-text decoding: a strict UTF-8 decode and a lossy fallback that
//! substitutes a replacement marker for invalid sequences.

use vstd::prelude::*;
use vstd::utf8::{decode_utf8, valid_utf8};

verus! {

/// What lossy decoding yields for a byte sequence; the result depends on
/// the bytes alone.
pub uninterp spec fn lossy_of(b: Seq<u8>) -> Seq<char>;

/// Relies on std::str::from_utf8: it returns Ok exactly when the bytes
/// are valid UTF-8, and the returned string then holds their decoding.
#[verifier::external_body]
pub(crate) fn try_decode_utf8(bytes: &Vec<u8>) -> (r: Option<String>)
    ensures
        r is Some <==> valid_utf8(bytes@),
        r matches Some(s) ==> s@ == decode_utf8(bytes@),
{
    match std::str::from_utf8(bytes.as_slice()) {
        Ok(s) => Some(s.to_string()),
        Err(_) => None,
    }
}

/// Relies on String::from_utf8_lossy: the result is a function of the
/// bytes alone, and valid UTF-8 decodes unchanged.
#[verifier::external_body]
pub(crate) fn decode_lossy(bytes: &Vec<u8>) -> (r: String)
    ensures
        r@ == lossy_of(bytes@),
        valid_utf8(bytes@) ==> r@ == decode_utf8(bytes@),
{
    String::from_utf8_lossy(bytes.as_slice()).to_string()
}

/// The characters a best-effort decode yields: the exact decoding for
/// valid UTF-8, the lossy decoding otherwise.
pub open spec fn best_effort_chars(b: Seq<u8>) -> Seq<char> {
    if valid_utf8(b) {
        decode_utf8(b)
    } else {
        lossy_of(b)
    }
}

/// Decodes bytes as text, strictly where possible. The flag reports
/// whether the content was clean UTF-8 (true) or was recovered with
/// replacement markers (false).
pub fn decode_best_effort(bytes: &Vec<u8>) -> (r: (String, bool))
    ensures
        r.1 == valid_utf8(bytes@),
        r.0@ == best_effort_chars(bytes@),
{
    match try_decode_utf8(bytes) {
        Some(s) => (s, true),
        None => (decode_lossy(bytes), false),
    }
}

} // verus!
