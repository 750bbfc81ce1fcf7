//! Per-file relocation decisions: extension restoration, organizing by
//! extension, and renaming PNG files by their dimensions. Each decision is
//! a pure function of the file's name, its bytes and a snapshot of the
//! names already present at the destination; the caller performs the
//! actual rename.

use vstd::prelude::*;
use crate::classify::{canonical_ext, canonical_ext_spec, classify, spec_classify};
use crate::errors::FileError;
use crate::names::{
    candidate_name, contains_name, ext_of, is_first_free, is_size_name, matches_size_scheme,
    name_matches_query, name_matches_query_spec, next_free_name, has_extension, size_stem,
    size_stem_spec,
};
use crate::png::{png_header_ok, png_height, png_width, read_dimensions};

verus! {

/// Decides extension restoration for one file: `None` to skip a file
/// whose name already carries an extension, else the first collision-free
/// name formed from the whole name and the canonical extension of the
/// classified content.
pub fn restore_target_name(name: &str, content: &Vec<u8>, existing: &Vec<String>) -> (r: Option<
    String,
>)
    ensures
        ext_of(name@) is Some <==> r is None,
        r matches Some(t) ==> {
            &&& !contains_name(existing@, t@)
            &&& canonical_ext_spec(spec_classify(content@)) matches Some(e) && is_first_free(
                name@,
                e,
                existing@,
                t@,
            )
        },
{
    if has_extension(name) {
        return None;
    }
    let tag = classify(content);
    match canonical_ext(tag) {
        Some(e) => Some(next_free_name(name, e, existing)),
        None => {
            proof {
                assert(false);
            }
            None
        },
    }
}

/// The names, in scan order, whose extension matches the query.
pub open spec fn matching_names(names: Seq<String>, query: Seq<char>) -> Seq<String> {
    names.filter(|s: String| name_matches_query_spec(s@, query))
}

/// The names an organize pass leaves at the source: those whose extension
/// does not match the query.
pub open spec fn leftover_names(names: Seq<String>, query: Seq<char>) -> Seq<String> {
    names.filter(|s: String| !name_matches_query_spec(s@, query))
}

/// Selects from a scan the files an organize pass will move: exactly
/// those whose extension matches the query, in scan order.
pub fn select_matching(names: &Vec<String>, query: &str) -> (r: Vec<String>)
    ensures
        r@ == matching_names(names@, query@),
{
    let mut r: Vec<String> = Vec::new();
    let mut i: usize = 0;
    proof {
        reveal(Seq::filter);
        assert(names@.subrange(0, 0) =~= Seq::<String>::empty());
        assert(matching_names(names@.subrange(0, 0), query@) =~= Seq::<String>::empty());
    }
    while i < names.len()
        invariant
            i <= names@.len(),
            r@ == matching_names(names@.subrange(0, i as int), query@),
        decreases names@.len() - i,
    {
        let name = &names[i];
        proof {
            reveal(Seq::filter);
            let pre = names@.subrange(0, i as int);
            let nxt = names@.subrange(0, i + 1);
            assert(nxt.drop_last() =~= pre);
            assert(nxt.last() == names@[i as int]);
        }
        if name_matches_query(name.as_str(), query) {
            r.push(name.clone());
        }
        i = i + 1;
    }
    proof {
        assert(names@.subrange(0, names@.len() as int) =~= names@);
    }
    r
}

/// Organizing is idempotent at the selection level: scanning the files a
/// first pass left behind, a second pass with the same query selects
/// nothing.
pub proof fn lemma_organize_idempotent(names: Seq<String>, query: Seq<char>)
    ensures
        matching_names(leftover_names(names, query), query) =~= Seq::<String>::empty(),
    decreases names.len(),
{
    reveal(Seq::filter);
    if names.len() == 0 {
        assert(leftover_names(names, query) =~= Seq::<String>::empty());
    } else {
        let rest = names.drop_last();
        lemma_organize_idempotent(rest, query);
        let last = names.last();
        if name_matches_query_spec(last@, query) {
            assert(leftover_names(names, query) == leftover_names(rest, query));
        } else {
            assert(leftover_names(names, query) == leftover_names(rest, query).push(last));
            let l = leftover_names(rest, query).push(last);
            assert(l.drop_last() =~= leftover_names(rest, query));
            assert(matching_names(l, query) == matching_names(leftover_names(rest, query), query));
        }
    }
}

/// Decides the rename of a PNG by its pixel size: fails exactly where the
/// header is not a well-formed PNG start; decides a skip (`Ok(None)`) for
/// a file that already carries its own size name, canonical or suffixed,
/// so a re-run never double-applies; otherwise yields the first
/// collision-free `size_<w>x<h>.png` candidate.
pub fn png_rename_plan(name: &str, bytes: &Vec<u8>, existing: &Vec<String>) -> (r: Result<
    Option<String>,
    FileError,
>)
    ensures
        r is Ok <==> png_header_ok(bytes@),
        r is Err ==> r == Err::<Option<String>, FileError>(FileError::FormatError),
        r matches Ok(o) ==> {
            let w = png_width(bytes@);
            let h = png_height(bytes@);
            &&& (o is None <==> is_size_name(name@, w, h))
            &&& (o matches Some(t) ==> !contains_name(existing@, t@) && is_first_free(
                size_stem_spec(w, h),
                "png"@,
                existing@,
                t@,
            ))
        },
{
    match read_dimensions(bytes) {
        Ok(d) => {
            if matches_size_scheme(name, d.width, d.height) {
                Ok(None)
            } else {
                let stem = size_stem(d.width, d.height);
                Ok(Some(next_free_name(stem.as_str(), "png", existing)))
            }
        },
        Err(e) => Err(e),
    }
}

/// Renaming by size never double-applies: any destination the planner can
/// pick is itself a size name for the same dimensions, so a second plan
/// for the renamed file decides a skip.
pub proof fn lemma_size_rename_idempotent(w: nat, h: nat, names: Seq<String>, t: Seq<char>)
    requires
        is_first_free(size_stem_spec(w, h), "png"@, names, t),
    ensures
        is_size_name(t, w, h),
{
    let k = choose|k: nat|
        t == candidate_name(size_stem_spec(w, h), "png"@, k) && !contains_name(
            names,
            candidate_name(size_stem_spec(w, h), "png"@, k),
        ) && (forall|m: nat|
            m < k ==> contains_name(names, candidate_name(size_stem_spec(w, h), "png"@, m)));
    assert(t == candidate_name(size_stem_spec(w, h), "png"@, k));
}

} // verus!
