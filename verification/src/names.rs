//! File-name logic: decimal rendering for numeric suffixes, splitting a
//! name into stem and extension, extension queries, and the collision-safe
//! namer that picks the first destination name not already taken.

use vstd::prelude::*;
use vstd::string::{StrSliceExecFns, StringExecFns};
use vstd::arithmetic::div_mod::{lemma_fundamental_div_mod, lemma_fundamental_div_mod_converse};
use crate::text::chars_eq_ignore_case;
use crate::text::eq_ignore_ascii_case_str;
use crate::text::starts_with_str;

verus! {

/// The character for one decimal digit.
pub open spec fn digit_char(d: nat) -> char {
    if d == 0 {
        '0'
    } else if d == 1 {
        '1'
    } else if d == 2 {
        '2'
    } else if d == 3 {
        '3'
    } else if d == 4 {
        '4'
    } else if d == 5 {
        '5'
    } else if d == 6 {
        '6'
    } else if d == 7 {
        '7'
    } else if d == 8 {
        '8'
    } else {
        '9'
    }
}

/// The decimal rendering of a number, most significant digit first.
pub open spec fn dec_rep(n: nat) -> Seq<char>
    decreases n,
{
    if n < 10 {
        seq![digit_char(n)]
    } else {
        dec_rep(n / 10).push(digit_char(n % 10))
    }
}

/// A decimal rendering is never empty.
pub proof fn lemma_dec_rep_len(n: nat)
    ensures
        dec_rep(n).len() >= 1,
    decreases n,
{
    if n >= 10 {
        lemma_dec_rep_len(n / 10);
    }
}

/// Distinct digits render as distinct characters.
proof fn lemma_digit_char_injective(d1: nat, d2: nat)
    requires
        d1 < 10,
        d2 < 10,
        digit_char(d1) == digit_char(d2),
    ensures
        d1 == d2,
{
}

/// Distinct numbers have distinct decimal renderings.
pub proof fn lemma_dec_rep_injective(a: nat, b: nat)
    requires
        dec_rep(a) == dec_rep(b),
    ensures
        a == b,
    decreases a,
{
    if a < 10 && b < 10 {
        assert(dec_rep(a)[0] == digit_char(a));
        assert(dec_rep(b)[0] == digit_char(b));
        lemma_digit_char_injective(a, b);
    } else if a < 10 {
        lemma_dec_rep_len(b / 10);
        assert(dec_rep(b).len() >= 2);
    } else if b < 10 {
        lemma_dec_rep_len(a / 10);
        assert(dec_rep(a).len() >= 2);
    } else {
        assert(dec_rep(a).last() == digit_char(a % 10));
        assert(dec_rep(b).last() == digit_char(b % 10));
        lemma_digit_char_injective(a % 10, b % 10);
        assert(dec_rep(a).drop_last() =~= dec_rep(a / 10));
        assert(dec_rep(b).drop_last() =~= dec_rep(b / 10));
        lemma_dec_rep_injective(a / 10, b / 10);
        lemma_fundamental_div_mod(a as int, 10);
        lemma_fundamental_div_mod(b as int, 10);
    }
}

/// The string for one decimal digit.
fn digit_str(d: u64) -> (r: &'static str)
    requires
        d < 10,
    ensures
        r@ == seq![digit_char(d as nat)],
{
    proof {
        reveal_strlit("0");
        reveal_strlit("1");
        reveal_strlit("2");
        reveal_strlit("3");
        reveal_strlit("4");
        reveal_strlit("5");
        reveal_strlit("6");
        reveal_strlit("7");
        reveal_strlit("8");
        reveal_strlit("9");
    }
    let r = if d == 0 {
        "0"
    } else if d == 1 {
        "1"
    } else if d == 2 {
        "2"
    } else if d == 3 {
        "3"
    } else if d == 4 {
        "4"
    } else if d == 5 {
        "5"
    } else if d == 6 {
        "6"
    } else if d == 7 {
        "7"
    } else if d == 8 {
        "8"
    } else {
        "9"
    };
    proof {
        assert(r@ =~= seq![digit_char(d as nat)]);
    }
    r
}

/// Appends the decimal rendering of `n` to the string.
pub fn append_dec(s: &mut String, n: u64)
    ensures
        final(s)@ == old(s)@ + dec_rep(n as nat),
    decreases n,
{
    if n >= 10 {
        append_dec(s, n / 10);
    }
    let ds = digit_str(n % 10);
    s.append(ds);
    proof {
        if n >= 10 {
            assert((n / 10) as nat == n as nat / 10);
            assert((n % 10) as nat == n as nat % 10);
            assert(dec_rep(n as nat) == dec_rep(n as nat / 10).push(digit_char(n as nat % 10)));
            assert(old(s)@ + dec_rep(n as nat / 10) + seq![digit_char(n as nat % 10)] =~= old(s)@
                + dec_rep(n as nat));
        } else {
            assert(dec_rep(n as nat) == seq![digit_char(n as nat)]);
        }
    }
}

/// The position of the dot separating stem and extension: the last `.` at
/// position one or later, or `-1` when there is none. A dot at position
/// zero marks a hidden file, not an extension.
pub open spec fn split_dot_pos(name: Seq<char>) -> int
    decreases name.len(),
{
    if name.len() <= 1 {
        -1
    } else if name[name.len() - 1] == '.' {
        name.len() - 1
    } else {
        split_dot_pos(name.drop_last())
    }
}

/// The extension of a file name: what follows the final dot, absent when
/// the name holds no dot past its first character.
pub open spec fn ext_of(name: Seq<char>) -> Option<Seq<char>> {
    let d = split_dot_pos(name);
    if d < 0 {
        None
    } else {
        Some(name.subrange(d + 1, name.len() as int))
    }
}

/// The stem of a file name: what precedes the final dot, or the whole name
/// when there is no extension.
pub open spec fn stem_of(name: Seq<char>) -> Seq<char> {
    let d = split_dot_pos(name);
    if d < 0 {
        name
    } else {
        name.subrange(0, d)
    }
}

/// Where the split-dot position lies and what it points at.
pub proof fn lemma_split_dot_pos(name: Seq<char>)
    ensures
        split_dot_pos(name) == -1 || (1 <= split_dot_pos(name) < name.len()),
        split_dot_pos(name) >= 0 ==> name[split_dot_pos(name)] == '.',
        forall|i: int|
            (if split_dot_pos(name) >= 0 {
                split_dot_pos(name) < i < name.len()
            } else {
                1 <= i < name.len()
            }) ==> name[i] != '.',
    decreases name.len(),
{
    if name.len() <= 1 {
    } else if name[name.len() - 1] == '.' {
    } else {
        lemma_split_dot_pos(name.drop_last());
        assert(forall|i: int|
            0 <= i < name.len() - 1 ==> name.drop_last()[i] == name[i]);
    }
}

/// A name with an extension is its stem, a dot, and the extension.
pub proof fn lemma_name_decomposition(name: Seq<char>)
    requires
        ext_of(name) is Some,
    ensures
        name =~= stem_of(name) + seq!['.'] + ext_of(name)->Some_0,
{
    lemma_split_dot_pos(name);
}

/// Splits a file name into its stem and its extension.
pub fn split_name(name: &str) -> (r: (String, Option<String>))
    ensures
        r.0@ == stem_of(name@),
        r.1 is Some <==> ext_of(name@) is Some,
        r.1 matches Some(e) ==> ext_of(name@) == Some(e@),
{
    let n = name.unicode_len();
    proof {
        assert(name@.take(n as int) =~= name@);
    }
    let mut i: usize = n;
    let mut found: usize = 0;
    while i > 1 && found == 0
        invariant
            i <= n,
            n == name@.len(),
            found == 0 ==> split_dot_pos(name@) == split_dot_pos(name@.take(i as int)),
            found > 0 ==> 1 <= found <= n && split_dot_pos(name@) == found - 1,
        decreases i + (if found == 0 { 1int } else { 0int }),
    {
        let c = name.get_char(i - 1);
        if c == '.' {
            proof {
                let t = name@.take(i as int);
                assert(t.len() == i);
                assert(t[i - 1] == '.');
            }
            found = i;
        } else {
            proof {
                let t = name@.take(i as int);
                assert(t[i - 1] != '.');
                assert(t.drop_last() =~= name@.take(i - 1));
            }
            i = i - 1;
        }
    }
    proof {
        if found == 0 {
            assert(name@.take(i as int).len() <= 1);
            assert(split_dot_pos(name@) == -1);
        }
    }
    if found == 0 {
        let stem = String::from_str(name);
        (stem, None)
    } else {
        let stem_slice = name.substring_char(0, found - 1);
        let ext_slice = name.substring_char(found, n);
        (String::from_str(stem_slice), Some(String::from_str(ext_slice)))
    }
}

/// Whether the file name carries an extension.
pub fn has_extension(name: &str) -> (r: bool)
    ensures
        r == (ext_of(name@) is Some),
{
    let r = split_name(name);
    r.1.is_some()
}

/// The query with its leading dots removed.
pub open spec fn strip_dots(q: Seq<char>) -> Seq<char>
    decreases q.len(),
{
    if q.len() > 0 && q[0] == '.' {
        strip_dots(q.drop_first())
    } else {
        q
    }
}

/// Dropping all leading dots at once agrees with dropping them one by one.
proof fn lemma_strip_dots_skip(q: Seq<char>, a: int)
    requires
        0 <= a <= q.len(),
        forall|j: int| 0 <= j < a ==> q[j] == '.',
    ensures
        strip_dots(q) == strip_dots(q.skip(a)),
    decreases a,
{
    if a == 0 {
        assert(q.skip(0) =~= q);
    } else {
        assert(q.drop_first() =~= q.skip(1));
        lemma_strip_dots_skip(q.skip(1), a - 1);
        assert(q.skip(1).skip(a - 1) =~= q.skip(a));
    }
}

/// The query slice with its leading dots removed.
fn strip_dots_exec<'a>(q: &'a str) -> (r: &'a str)
    ensures
        r@ == strip_dots(q@),
{
    let n = q.unicode_len();
    let mut a: usize = 0;
    while a < n && q.get_char(a) == '.'
        invariant
            a <= n,
            n == q@.len(),
            forall|j: int| 0 <= j < a ==> q@[j] == '.',
        decreases n - a,
    {
        a = a + 1;
    }
    let r = q.substring_char(a, n);
    proof {
        lemma_strip_dots_skip(q@, a as int);
        assert(q@.skip(a as int) =~= q@.subrange(a as int, n as int));
        if a == n {
            assert(r@ =~= Seq::<char>::empty());
        } else {
            assert(q@.skip(a as int)[0] == q@[a as int]);
        }
    }
    r
}

/// Whether an extension matches a query: equal up to ASCII case, after the
/// query's leading dots are ignored.
pub open spec fn ext_matches_query(ext: Seq<char>, query: Seq<char>) -> bool {
    chars_eq_ignore_case(ext, strip_dots(query))
}

/// Whether a file name carries an extension that matches the query.
pub open spec fn name_matches_query_spec(name: Seq<char>, query: Seq<char>) -> bool {
    match ext_of(name) {
        Some(e) => ext_matches_query(e, query),
        None => false,
    }
}

/// Whether the file name's extension matches the query, ASCII-case-
/// insensitively and with the query's leading dots ignored.
pub fn name_matches_query(name: &str, query: &str) -> (r: bool)
    ensures
        r == name_matches_query_spec(name@, query@),
{
    let split = split_name(name);
    match split.1 {
        None => false,
        Some(e) => {
            let stripped = strip_dots_exec(query);
            eq_ignore_ascii_case_str(e.as_str(), stripped)
        },
    }
}

/// The n-th candidate name of the suffixing scheme: the stem and extension
/// joined by a dot, with `_<n>` inserted before the dot from the first
/// retry on.
pub open spec fn candidate_name(stem: Seq<char>, ext: Seq<char>, n: nat) -> Seq<char> {
    if n == 0 {
        stem + seq!['.'] + ext
    } else {
        stem + seq!['_'] + dec_rep(n) + seq!['.'] + ext
    }
}

/// Builds the n-th candidate name.
pub fn make_candidate(stem: &str, ext: &str, n: u64) -> (r: String)
    ensures
        r@ == candidate_name(stem@, ext@, n as nat),
{
    proof {
        reveal_strlit("_");
        reveal_strlit(".");
        assert("_"@ =~= seq!['_']);
        assert("."@ =~= seq!['.']);
    }
    let mut s = String::from_str(stem);
    if n > 0 {
        s.append("_");
        append_dec(&mut s, n);
    }
    s.append(".");
    s.append(ext);
    proof {
        assert(s@ =~= candidate_name(stem@, ext@, n as nat));
    }
    s
}

/// Distinct retry numbers give distinct candidate names.
pub proof fn lemma_candidate_injective(stem: Seq<char>, ext: Seq<char>, n: nat, m: nat)
    requires
        candidate_name(stem, ext, n) == candidate_name(stem, ext, m),
    ensures
        n == m,
{
    lemma_dec_rep_len(n);
    lemma_dec_rep_len(m);
    if n == 0 && m > 0 {
        assert(candidate_name(stem, ext, n).len() == stem.len() + 1 + ext.len());
        assert(candidate_name(stem, ext, m).len() == stem.len() + 1 + dec_rep(m).len() + 1
            + ext.len());
    } else if n > 0 && m == 0 {
        assert(candidate_name(stem, ext, n).len() == stem.len() + 1 + dec_rep(n).len() + 1
            + ext.len());
        assert(candidate_name(stem, ext, m).len() == stem.len() + 1 + ext.len());
    } else if n > 0 && m > 0 && n != m {
        let dn = dec_rep(n);
        let dm = dec_rep(m);
        assert(candidate_name(stem, ext, n).len() == stem.len() + 1 + dn.len() + 1 + ext.len());
        assert(candidate_name(stem, ext, m).len() == stem.len() + 1 + dm.len() + 1 + ext.len());
        assert(dn.len() == dm.len());
        assert forall|i: int| 0 <= i < dn.len() implies dn[i] == dm[i] by {
            let p = stem.len() + 1 + i;
            assert(candidate_name(stem, ext, n)[p] == dn[i]);
            assert(candidate_name(stem, ext, m)[p] == dm[i]);
        }
        assert(dn =~= dm);
        lemma_dec_rep_injective(n, m);
    }
}

/// The extension of a name, or the empty sequence when it has none.
pub open spec fn ext_or_empty(name: Seq<char>) -> Seq<char> {
    match ext_of(name) {
        Some(e) => e,
        None => Seq::empty(),
    }
}

/// The n-th candidate destination when moving a file: the unchanged name
/// first, then its stem with numeric suffixes before the extension.
pub open spec fn move_candidate(name: Seq<char>, n: nat) -> Seq<char> {
    if n == 0 {
        name
    } else {
        candidate_name(stem_of(name), ext_or_empty(name), n)
    }
}

/// Distinct retry numbers give distinct move candidates.
pub proof fn lemma_move_candidate_injective(name: Seq<char>, n: nat, m: nat)
    requires
        move_candidate(name, n) == move_candidate(name, m),
    ensures
        n == m,
{
    lemma_dec_rep_len(n);
    lemma_dec_rep_len(m);
    if n == 0 && m > 0 {
        if ext_of(name) is Some {
            lemma_name_decomposition(name);
        }
        assert(move_candidate(name, m).len() >= stem_of(name).len() + 3);
    } else if n > 0 && m == 0 {
        if ext_of(name) is Some {
            lemma_name_decomposition(name);
        }
        assert(move_candidate(name, n).len() >= stem_of(name).len() + 3);
    } else if n > 0 && m > 0 {
        lemma_candidate_injective(stem_of(name), ext_or_empty(name), n, m);
    }
}

/// Whether some listed name equals the target.
pub open spec fn contains_name(names: Seq<String>, target: Seq<char>) -> bool {
    exists|i: int| 0 <= i < names.len() && names[i]@ == target
}

/// Compares two strings for character equality.
fn strings_equal(a: &String, b: &String) -> (r: bool)
    ensures
        r == (a@ == b@),
{
    a.eq(b)
}

/// Whether the target name is already among the listed names.
pub fn name_taken(names: &Vec<String>, target: &String) -> (r: bool)
    ensures
        r == contains_name(names@, target@),
{
    let mut i: usize = 0;
    while i < names.len()
        invariant
            i <= names@.len(),
            forall|j: int| 0 <= j < i ==> names@[j]@ != target@,
        decreases names@.len() - i,
    {
        if strings_equal(&names[i], target) {
            return true;
        }
        i = i + 1;
    }
    false
}

/// A name that is listed and differs from the removed entry is still
/// listed after the removal.
proof fn lemma_remove_keeps(names: Seq<String>, i: int, t: Seq<char>)
    requires
        0 <= i < names.len(),
        contains_name(names, t),
        names[i]@ != t,
    ensures
        contains_name(names.remove(i), t),
{
    let j = choose|j: int| 0 <= j < names.len() && names[j]@ == t;
    if j < i {
        assert(names.remove(i)[j] == names[j]);
    } else {
        assert(names.remove(i)[j - 1] == names[j]);
    }
}

/// For any injective candidate scheme, some candidate with index at most
/// the number of listed names is free: there are more candidates than
/// names.
proof fn lemma_exists_free_from(
    cand: spec_fn(nat) -> Seq<char>,
    names: Seq<String>,
    start: nat,
) -> (k: nat)
    requires
        forall|a: nat, b: nat| #[trigger] cand(a) == #[trigger] cand(b) ==> a == b,
    ensures
        start <= k <= start + names.len(),
        !contains_name(names, cand(k)),
    decreases names.len(),
{
    if contains_name(names, cand(start)) {
        let i = choose|i: int| 0 <= i < names.len() && names[i]@ == cand(start);
        let rest = names.remove(i);
        let k = lemma_exists_free_from(cand, rest, start + 1);
        assert(cand(k) == cand(start) ==> k == start);
        if contains_name(names, cand(k)) {
            lemma_remove_keeps(names, i, cand(k));
            assert(false);
        }
        k
    } else {
        start
    }
}

/// `r` is the first candidate of the stem-extension scheme that is not
/// among `names`.
pub open spec fn is_first_free(
    stem: Seq<char>,
    ext: Seq<char>,
    names: Seq<String>,
    r: Seq<char>,
) -> bool {
    exists|k: nat|
        r == candidate_name(stem, ext, k) && !contains_name(names, candidate_name(stem, ext, k))
            && (forall|m: nat| m < k ==> contains_name(names, candidate_name(stem, ext, m)))
}

/// The namer is deterministic: for one starting name and one set of
/// existing names there is exactly one first-free candidate.
pub proof fn lemma_first_free_unique(
    stem: Seq<char>,
    ext: Seq<char>,
    names: Seq<String>,
    r1: Seq<char>,
    r2: Seq<char>,
)
    requires
        is_first_free(stem, ext, names, r1),
        is_first_free(stem, ext, names, r2),
    ensures
        r1 == r2,
{
    let k1 = choose|k: nat|
        r1 == candidate_name(stem, ext, k) && !contains_name(names, candidate_name(stem, ext, k))
            && (forall|m: nat| m < k ==> contains_name(names, candidate_name(stem, ext, m)));
    let k2 = choose|k: nat|
        r2 == candidate_name(stem, ext, k) && !contains_name(names, candidate_name(stem, ext, k))
            && (forall|m: nat| m < k ==> contains_name(names, candidate_name(stem, ext, m)));
    if k1 < k2 {
        assert(contains_name(names, candidate_name(stem, ext, k1)));
    } else if k2 < k1 {
        assert(contains_name(names, candidate_name(stem, ext, k2)));
    }
}

/// Picks the first candidate name, in the order `stem.ext`, `stem_1.ext`,
/// `stem_2.ext`, ..., that is not among the existing names. The result is
/// therefore never an existing name, and is determined by the inputs.
pub fn next_free_name(stem: &str, ext: &str, existing: &Vec<String>) -> (r: String)
    ensures
        !contains_name(existing@, r@),
        is_first_free(stem@, ext@, existing@, r@),
{
    let len = existing.len();
    let ghost mut k0: nat = 0;
    proof {
        let cand = |q: nat| candidate_name(stem@, ext@, q);
        assert forall|a: nat, b: nat| #[trigger] cand(a) == #[trigger] cand(b) implies a == b by {
            lemma_candidate_injective(stem@, ext@, a, b);
        }
        k0 = lemma_exists_free_from(cand, existing@, 0);
        assert(!contains_name(existing@, candidate_name(stem@, ext@, k0)));
    }
    let mut n: u64 = 0;
    loop
        invariant
            n as nat <= k0,
            k0 <= existing@.len(),
            existing@.len() == len,
            !contains_name(existing@, candidate_name(stem@, ext@, k0)),
            forall|m: nat| m < n as nat ==> contains_name(existing@, candidate_name(stem@, ext@, m)),
        decreases k0 - n as nat,
    {
        let c = make_candidate(stem, ext, n);
        if !name_taken(existing, &c) {
            return c;
        }
        proof {
            assert(contains_name(existing@, candidate_name(stem@, ext@, n as nat)));
            assert(n as nat != k0);
        }
        n = n + 1;
    }
}

/// `r` is the first candidate of the move scheme that is not among
/// `names`.
pub open spec fn is_first_free_move(name: Seq<char>, names: Seq<String>, r: Seq<char>) -> bool {
    exists|k: nat|
        r == move_candidate(name, k) && !contains_name(names, move_candidate(name, k)) && (
        forall|m: nat| m < k ==> contains_name(names, move_candidate(name, m)))
}

/// Picks the first destination for moving a file named `name` into a
/// directory holding `existing`: the unchanged name when it is free, else
/// `stem_1.ext`, `stem_2.ext`, ... The result is never an existing name.
pub fn next_free_move_name(name: &str, existing: &Vec<String>) -> (r: String)
    ensures
        !contains_name(existing@, r@),
        is_first_free_move(name@, existing@, r@),
{
    let split = split_name(name);
    let stem = split.0;
    let ext: String = match split.1 {
        Some(e) => e,
        None => String::new(),
    };
    proof {
        assert(stem@ == stem_of(name@));
        assert(ext@ == ext_or_empty(name@));
    }
    let len = existing.len();
    let ghost mut k0: nat = 0;
    proof {
        let cand = |q: nat| move_candidate(name@, q);
        assert forall|a: nat, b: nat| #[trigger] cand(a) == #[trigger] cand(b) implies a == b by {
            lemma_move_candidate_injective(name@, a, b);
        }
        k0 = lemma_exists_free_from(cand, existing@, 0);
        assert(!contains_name(existing@, move_candidate(name@, k0)));
    }
    let mut n: u64 = 0;
    loop
        invariant
            n as nat <= k0,
            k0 <= existing@.len(),
            existing@.len() == len,
            stem@ == stem_of(name@),
            ext@ == ext_or_empty(name@),
            !contains_name(existing@, move_candidate(name@, k0)),
            forall|m: nat| m < n as nat ==> contains_name(existing@, move_candidate(name@, m)),
        decreases k0 - n as nat,
    {
        let c = if n == 0 {
            String::from_str(name)
        } else {
            make_candidate(stem.as_str(), ext.as_str(), n)
        };
        proof {
            assert(c@ == move_candidate(name@, n as nat));
        }
        if !name_taken(existing, &c) {
            return c;
        }
        proof {
            assert(n as nat != k0);
        }
        n = n + 1;
    }
}

/// The stem `size_<w>x<h>` used when renaming a PNG by its dimensions.
pub open spec fn size_stem_spec(w: nat, h: nat) -> Seq<char> {
    "size_"@ + dec_rep(w) + "x"@ + dec_rep(h)
}

/// Builds the stem `size_<w>x<h>`.
pub fn size_stem(w: u32, h: u32) -> (r: String)
    ensures
        r@ == size_stem_spec(w as nat, h as nat),
{
    let mut s = String::from_str("size_");
    append_dec(&mut s, w as u64);
    s.append("x");
    append_dec(&mut s, h as u64);
    proof {
        assert(s@ =~= size_stem_spec(w as nat, h as nat));
    }
    s
}

/// Whether the character is a decimal digit.
pub open spec fn is_digit_char(c: char) -> bool {
    48 <= c as u32 && c as u32 <= 57
}

/// The numeric value of a digit character.
pub open spec fn digit_val(c: char) -> nat
    recommends
        is_digit_char(c),
{
    (c as u32 - 48) as nat
}

/// The number a digit string denotes.
pub open spec fn digits_value(s: Seq<char>) -> nat
    decreases s.len(),
{
    if s.len() == 0 {
        0
    } else {
        digits_value(s.drop_last()) * 10 + digit_val(s.last())
    }
}

/// A digit character is the rendering of its own value.
proof fn lemma_digit_char_val(c: char)
    requires
        is_digit_char(c),
    ensures
        digit_val(c) < 10,
        digit_char(digit_val(c)) == c,
{
}

/// A decimal rendering consists of digits, and its leading one is not
/// zero for a positive number.
proof fn lemma_dec_rep_shape(n: nat)
    ensures
        forall|i: int| 0 <= i < dec_rep(n).len() ==> is_digit_char(#[trigger] dec_rep(n)[i]),
        n >= 1 ==> dec_rep(n)[0] != '0',
    decreases n,
{
    if n < 10 {
    } else {
        lemma_dec_rep_shape(n / 10);
        lemma_dec_rep_len(n / 10);
        assert(dec_rep(n) == dec_rep(n / 10).push(digit_char(n % 10)));
        assert(dec_rep(n)[0] == dec_rep(n / 10)[0]);
        assert forall|i: int| 0 <= i < dec_rep(n).len() implies is_digit_char(
            #[trigger] dec_rep(n)[i],
        ) by {
            if i < dec_rep(n / 10).len() {
                assert(dec_rep(n)[i] == dec_rep(n / 10)[i]);
            } else {
                assert(dec_rep(n)[i] == digit_char(n % 10));
            }
        }
    }
}

/// A digit string without a leading zero denotes a positive number, and
/// that number renders back to the string itself.
proof fn lemma_canonical_digits(s: Seq<char>)
    requires
        s.len() >= 1,
        forall|i: int| 0 <= i < s.len() ==> is_digit_char(#[trigger] s[i]),
        s[0] != '0',
    ensures
        digits_value(s) >= 1,
        dec_rep(digits_value(s)) == s,
    decreases s.len(),
{
    let v = digits_value(s);
    lemma_digit_char_val(s.last());
    if s.len() == 1 {
        assert(s.drop_last().len() == 0);
        assert(digits_value(s.drop_last()) == 0);
        assert(v == digit_val(s[0]));
        assert(v >= 1);
        assert(dec_rep(v) =~= s);
    } else {
        let s0 = s.drop_last();
        assert(forall|i: int| 0 <= i < s0.len() ==> #[trigger] s0[i] == s[i]);
        lemma_canonical_digits(s0);
        let v0 = digits_value(s0);
        let d = digit_val(s.last());
        assert(v == v0 * 10 + d);
        assert(v >= 10);
        lemma_fundamental_div_mod_converse(v as int, 10, v0 as int, d as int);
        assert(v / 10 == v0);
        assert(v % 10 == d);
        assert(dec_rep(v) == dec_rep(v0).push(digit_char(d)));
        assert(dec_rep(v0).push(digit_char(d)) =~= s);
    }
}

/// Whether a file name is one of the size-rename scheme's own candidates
/// for the given dimensions: `size_<w>x<h>.png`, or the same with any
/// numeric suffix. A file so named has already been renamed by its size.
pub open spec fn is_size_name(name: Seq<char>, w: nat, h: nat) -> bool {
    exists|n: nat| name == candidate_name(size_stem_spec(w, h), "png"@, n)
}

/// How each size-rename candidate is laid out: the stem, then for a
/// positive index an underscore and the canonical digits, then `.png`.
proof fn lemma_size_candidate_shape(st: Seq<char>, n: nat)
    ensures
        ({
            let c = candidate_name(st, "png"@, n);
            &&& c.len() == if n == 0 {
                st.len() + 4
            } else {
                st.len() + 1 + dec_rep(n).len() + 4
            }
            &&& c.subrange(0, st.len() as int) == st
            &&& c[c.len() - 4] == '.'
            &&& c[c.len() - 3] == 'p'
            &&& c[c.len() - 2] == 'n'
            &&& c[c.len() - 1] == 'g'
            &&& n >= 1 ==> c[st.len() as int] == '_'
            &&& n >= 1 ==> c.subrange(st.len() as int + 1, c.len() - 4) == dec_rep(n)
        }),
{
    reveal_strlit("png");
    assert("png"@ =~= seq!['p', 'n', 'g']);
    lemma_dec_rep_len(n);
    let c = candidate_name(st, "png"@, n);
    if n == 0 {
        assert(c.subrange(0, st.len() as int) =~= st);
    } else {
        assert(c.subrange(0, st.len() as int) =~= st);
        assert(c.subrange(st.len() as int + 1, c.len() - 4) =~= dec_rep(n));
    }
}

/// Whether the file name already carries its own size name for the given
/// dimensions, canonical or suffixed.
pub fn matches_size_scheme(name: &str, w: u32, h: u32) -> (r: bool)
    ensures
        r == is_size_name(name@, w as nat, h as nat),
{
    let stem = size_stem(w, h);
    let ghost st = size_stem_spec(w as nat, h as nat);
    let m = stem.as_str().unicode_len();
    let k = name.unicode_len();
    if k < 4 || k - 4 < m {
        proof {
            assert forall|n: nat| name@ != candidate_name(st, "png"@, n) by {
                lemma_size_candidate_shape(st, n);
            }
        }
        return false;
    }
    if !starts_with_str(name, stem.as_str()) {
        proof {
            assert forall|n: nat| name@ != candidate_name(st, "png"@, n) by {
                lemma_size_candidate_shape(st, n);
                if name@ == candidate_name(st, "png"@, n) {
                    assert(name@.subrange(0, m as int) == st);
                }
            }
        }
        return false;
    }
    let tail_ok = name.get_char(k - 4) == '.' && name.get_char(k - 3) == 'p' && name.get_char(
        k - 2,
    ) == 'n' && name.get_char(k - 1) == 'g';
    if !tail_ok {
        proof {
            assert forall|n: nat| name@ != candidate_name(st, "png"@, n) by {
                lemma_size_candidate_shape(st, n);
            }
        }
        return false;
    }
    if k - 4 == m {
        proof {
            lemma_size_candidate_shape(st, 0);
            let c = candidate_name(st, "png"@, 0);
            assert(name@.subrange(0, m as int) == st);
            assert forall|j: int| 0 <= j < k implies name@[j] == c[j] by {
                if j < m {
                    assert(name@[j] == name@.subrange(0, m as int)[j]);
                    assert(c[j] == c.subrange(0, m as int)[j]);
                }
            }
            assert(name@ =~= c);
        }
        return true;
    }
    if name.get_char(m) != '_' {
        proof {
            assert forall|n: nat| name@ != candidate_name(st, "png"@, n) by {
                lemma_size_candidate_shape(st, n);
                if n >= 1 && name@ == candidate_name(st, "png"@, n) {
                    assert(name@[m as int] == '_');
                }
            }
        }
        return false;
    }
    if k - 4 == m + 1 {
        proof {
            assert forall|n: nat| name@ != candidate_name(st, "png"@, n) by {
                lemma_size_candidate_shape(st, n);
            }
        }
        return false;
    }
    let ghost digits = name@.subrange(m + 1, k - 4);
    let mut i: usize = m + 1;
    while i < k - 4
        invariant
            m + 1 <= i <= k - 4,
            m + 5 < k,
            k == name@.len(),
            st == size_stem_spec(w as nat, h as nat),
            m == st.len(),
            digits == name@.subrange(m + 1, k - 4),
            forall|j: int| m + 1 <= j < i ==> is_digit_char(#[trigger] name@[j]),
        decreases k - 4 - i,
    {
        let u = name.get_char(i) as u32;
        if !(48 <= u && u <= 57) {
            proof {
                assert(!is_digit_char(name@[i as int]));
                assert forall|n: nat| name@ != candidate_name(st, "png"@, n) by {
                    lemma_size_candidate_shape(st, n);
                    lemma_dec_rep_shape(n);
                    if n >= 1 && name@ == candidate_name(st, "png"@, n) {
                        assert(name@.subrange(m as int + 1, k - 4) == dec_rep(n));
                        assert(name@[i as int] == dec_rep(n)[i - (m + 1)]);
                    }
                }
            }
            return false;
        }
        i = i + 1;
    }
    if name.get_char(m + 1) == '0' {
        proof {
            assert forall|n: nat| name@ != candidate_name(st, "png"@, n) by {
                lemma_size_candidate_shape(st, n);
                lemma_dec_rep_shape(n);
                if n >= 1 && name@ == candidate_name(st, "png"@, n) {
                    assert(name@.subrange(m as int + 1, k - 4) == dec_rep(n));
                    assert(name@[m + 1] == dec_rep(n)[0]);
                }
            }
        }
        return false;
    }
    proof {
        assert(forall|j: int|
            0 <= j < digits.len() ==> #[trigger] digits[j] == name@[m + 1 + j]);
        assert(digits.len() >= 1);
        assert(digits[0] == name@[m + 1]);
        lemma_canonical_digits(digits);
        let v = digits_value(digits);
        lemma_size_candidate_shape(st, v);
        let c = candidate_name(st, "png"@, v);
        assert(dec_rep(v) == digits);
        assert(c.len() == k);
        assert(name@.subrange(0, m as int) == st);
        assert forall|j: int| 0 <= j < k implies name@[j] == c[j] by {
            if j < m {
                assert(name@[j] == name@.subrange(0, m as int)[j]);
                assert(c[j] == c.subrange(0, m as int)[j]);
            } else if m < j && j < k - 4 {
                assert(c[j] == c.subrange(m as int + 1, c.len() - 4)[j - (m + 1)]);
                assert(name@[j] == digits[j - (m + 1)]);
            }
        }
        assert(name@ =~= c);
    }
    true
}

} // verus!
