//! Content-based file classification.
//!
//! A file's type is inferred from its bytes alone, in strict priority
//! order: the PNG signature wins outright; a text-decodable header is then
//! probed for XML declarations, property-list shapes and JSON; what is
//! left falls back to readable text (atlas) or binary (skeleton).

use vstd::prelude::*;
use vstd::string::StrSliceExecFns;
use vstd::utf8::{decode_utf8, valid_utf8};
use crate::decode::try_decode_utf8;
use crate::png::{check_png_signature, has_png_signature, png_signature};
use crate::text::{contains_str, has_substring, starts_with_str, str_starts, trim_spec, trim_str};

verus! {

/// The inferred type of a file.
#[derive(Clone, Copy, Debug, PartialEq, Eq, Structural)]
pub enum TypeTag {
    Png,
    Xml,
    Json,
    Atlas,
    Skel,
    Unknown,
}

/// Whether a string parses as one JSON document; the result depends on
/// the characters alone.
pub uninterp spec fn json_valid(s: Seq<char>) -> bool;

/// Relies on serde_json::from_str::<Value>: whether the text parses as a
/// JSON value is a function of the text alone.
#[verifier::external_body]
fn json_parses(s: &str) -> (r: bool)
    ensures
        r == json_valid(s@),
{
    serde_json::from_str::<serde_json::Value>(s).is_ok()
}

/// The first 64 bytes of a file, or all of it when it is shorter.
pub open spec fn header_prefix(b: Seq<u8>) -> Seq<u8> {
    if b.len() <= 64 {
        b
    } else {
        b.subrange(0, 64)
    }
}

/// The XML shapes accepted on the trimmed full text of a file whose
/// header merely starts with `<`: an XML or DOCTYPE declaration, a
/// property-list closing tag or dict tag anywhere, or text bracketed by
/// `<`...`>` end to end.
pub open spec fn xml_full_text_heuristic(t: Seq<char>) -> bool {
    ||| str_starts(t, "<?xml"@)
    ||| str_starts(t, "<!DOCTYPE"@)
    ||| has_substring(t, "</plist>"@)
    ||| has_substring(t, "<dict>"@)
    ||| (t.len() > 0 && t[0] == '<' && t[t.len() - 1] == '>')
}

/// The fallback for a file with no stronger signal: readable text counts
/// as an atlas asset, anything else as a skeleton asset.
pub open spec fn fallback_tag(b: Seq<u8>) -> TypeTag {
    if valid_utf8(b) {
        TypeTag::Atlas
    } else {
        TypeTag::Skel
    }
}

/// The type inferred for a file's bytes, in strict priority order: the
/// PNG signature; XML declarations in the trimmed decoded header; the
/// XML heuristic on the full text of a header starting with `<`; JSON
/// parsing of the full text of a header starting with `{` or `[`; then
/// the text-or-binary fallback.
pub open spec fn spec_classify(b: Seq<u8>) -> TypeTag {
    if has_png_signature(b) {
        TypeTag::Png
    } else if valid_utf8(header_prefix(b)) {
        let t = trim_spec(decode_utf8(header_prefix(b)));
        if str_starts(t, "<?xml"@) || str_starts(t, "<!DOCTYPE"@) {
            TypeTag::Xml
        } else if t.len() > 0 && t[0] == '<' && valid_utf8(b) && xml_full_text_heuristic(
            trim_spec(decode_utf8(b)),
        ) {
            TypeTag::Xml
        } else if t.len() > 0 && (t[0] == '{' || t[0] == '[') && valid_utf8(b) && json_valid(
            decode_utf8(b),
        ) {
            TypeTag::Json
        } else {
            fallback_tag(b)
        }
    } else {
        fallback_tag(b)
    }
}

/// Classifies a file from its bytes. The result never fails and is a
/// pure function of the content; no input is left `Unknown`.
pub fn classify(content: &Vec<u8>) -> (t: TypeTag)
    ensures
        t == spec_classify(content@),
        t != TypeTag::Unknown,
{
    if check_png_signature(content) {
        return TypeTag::Png;
    }
    let hlen: usize = if content.len() > 64 {
        64
    } else {
        content.len()
    };
    let mut header: Vec<u8> = Vec::new();
    let mut i: usize = 0;
    while i < hlen
        invariant
            i <= hlen <= content@.len(),
            header@ == content@.subrange(0, i as int),
        decreases hlen - i,
    {
        header.push(content[i]);
        proof {
            assert(content@.subrange(0, i + 1) =~= content@.subrange(0, i as int).push(
                content@[i as int],
            ));
        }
        i = i + 1;
    }
    proof {
        assert(header@ =~= header_prefix(content@));
    }
    match try_decode_utf8(&header) {
        Some(h) => {
            let ht = trim_str(h.as_str());
            if starts_with_str(ht, "<?xml") || starts_with_str(ht, "<!DOCTYPE") {
                return TypeTag::Xml;
            }
            if ht.unicode_len() > 0 {
                let c0 = ht.get_char(0);
                if c0 == '<' {
                    match try_decode_utf8(content) {
                        Some(full) => {
                            let ft = trim_str(full.as_str());
                            let ftn = ft.unicode_len();
                            let bracketed = ftn > 0 && ft.get_char(0) == '<' && ft.get_char(
                                ftn - 1,
                            ) == '>';
                            if starts_with_str(ft, "<?xml") || starts_with_str(ft, "<!DOCTYPE")
                                || contains_str(ft, "</plist>") || contains_str(ft, "<dict>")
                                || bracketed {
                                return TypeTag::Xml;
                            }
                        },
                        None => {},
                    }
                } else if c0 == '{' || c0 == '[' {
                    match try_decode_utf8(content) {
                        Some(full) => {
                            if json_parses(full.as_str()) {
                                return TypeTag::Json;
                            }
                        },
                        None => {},
                    }
                }
            }
        },
        None => {},
    }
    match try_decode_utf8(content) {
        Some(_) => TypeTag::Atlas,
        None => TypeTag::Skel,
    }
}

/// Any byte sequence that begins with the PNG signature classifies as
/// PNG, whatever follows it.
pub proof fn lemma_png_signature_wins(b: Seq<u8>)
    requires
        b.len() >= 8,
        b.subrange(0, 8) == png_signature(),
    ensures
        spec_classify(b) == TypeTag::Png,
{
}

/// Classification is deterministic and a pure function of the content:
/// equal bytes always classify alike.
pub proof fn lemma_classify_deterministic(a: Seq<u8>, b: Seq<u8>)
    requires
        a == b,
    ensures
        spec_classify(a) == spec_classify(b),
{
}

/// Classification is total: no input is left `Unknown`.
pub proof fn lemma_classify_total(b: Seq<u8>)
    ensures
        spec_classify(b) != TypeTag::Unknown,
{
}

/// The edge case of a zero-byte file: it decodes as the empty text,
/// matches no signal, and falls through to the readable-text fallback.
pub proof fn lemma_empty_file_is_atlas()
    ensures
        spec_classify(Seq::<u8>::empty()) == TypeTag::Atlas,
{
    let b = Seq::<u8>::empty();
    assert(valid_utf8(b));
    assert(decode_utf8(b) =~= Seq::<char>::empty());
    assert(header_prefix(b) =~= b);
    assert(!str_starts(Seq::<char>::empty(), "<?xml"@)) by {
        reveal_strlit("<?xml");
    }
    assert(!str_starts(Seq::<char>::empty(), "<!DOCTYPE"@)) by {
        reveal_strlit("<!DOCTYPE");
    }
}

/// The canonical extension written for each tag; absent for `Unknown`.
pub open spec fn canonical_ext_spec(t: TypeTag) -> Option<Seq<char>> {
    match t {
        TypeTag::Png => Some("png"@),
        TypeTag::Xml => Some("xml"@),
        TypeTag::Json => Some("json"@),
        TypeTag::Atlas => Some("atlas"@),
        TypeTag::Skel => Some("skel"@),
        TypeTag::Unknown => None,
    }
}

/// The canonical extension for a tag.
pub fn canonical_ext(t: TypeTag) -> (r: Option<&'static str>)
    ensures
        r is Some <==> t != TypeTag::Unknown,
        r matches Some(s) ==> canonical_ext_spec(t) == Some(s@),
{
    match t {
        TypeTag::Png => Some("png"),
        TypeTag::Xml => Some("xml"),
        TypeTag::Json => Some("json"),
        TypeTag::Atlas => Some("atlas"),
        TypeTag::Skel => Some("skel"),
        TypeTag::Unknown => None,
    }
}

} // verus!
