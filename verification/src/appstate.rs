//! Session state: the chosen work directory and the `atlas` and `skels`
//! destination directories placed beside it.
//!
//! Paths are modelled as plain strings whose components are separated by
//! `/`: the parent of a path is what precedes its last separator, and
//! joining appends one separator where needed.

use vstd::prelude::*;
use vstd::string::{StrSliceExecFns, StringExecFns};

verus! {

/// The index of the last `/` in the path, or `-1` when there is none.
pub open spec fn last_slash_pos(p: Seq<char>) -> int
    decreases p.len(),
{
    if p.len() == 0 {
        -1
    } else if p[p.len() - 1] == '/' {
        p.len() - 1
    } else {
        last_slash_pos(p.drop_last())
    }
}

/// The path with its trailing separators removed.
pub open spec fn strip_trailing_slashes(p: Seq<char>) -> Seq<char>
    decreases p.len(),
{
    if p.len() > 0 && p[p.len() - 1] == '/' {
        strip_trailing_slashes(p.drop_last())
    } else {
        p
    }
}

/// The directory part of a path. Trailing separators do not name a
/// component and are ignored first; the parent is then what precedes the
/// last separator, the root `/` when that separator comes first or when
/// the path is all separators, and the empty path when none is left.
pub open spec fn parent_dir_spec(p: Seq<char>) -> Seq<char> {
    let q = strip_trailing_slashes(p);
    let d = last_slash_pos(q);
    if q.len() == 0 && p.len() > 0 {
        seq!['/']
    } else if d < 0 {
        Seq::empty()
    } else if d == 0 {
        seq!['/']
    } else {
        q.subrange(0, d)
    }
}

/// A path joined to a child name, with one separator inserted where the
/// base neither is empty nor already ends in one.
pub open spec fn join_path_spec(base: Seq<char>, child: Seq<char>) -> Seq<char> {
    if base.len() == 0 {
        child
    } else if base[base.len() - 1] == '/' {
        base + child
    } else {
        base + seq!['/'] + child
    }
}

/// Dropping all trailing separators at once agrees with dropping them one
/// by one.
proof fn lemma_strip_trailing_take(p: Seq<char>, b: int)
    requires
        0 <= b <= p.len(),
        forall|j: int| b <= j < p.len() ==> p[j] == '/',
    ensures
        strip_trailing_slashes(p) == strip_trailing_slashes(p.take(b)),
    decreases p.len() - b,
{
    if b == p.len() {
        assert(p.take(b) =~= p);
    } else {
        assert(p[p.len() - 1] == '/');
        assert(p.drop_last() =~= p.take(p.len() - 1));
        lemma_strip_trailing_take(p.take(p.len() - 1), b);
        assert(p.take(p.len() - 1).take(b) =~= p.take(b));
    }
}

/// The directory part of a path.
pub fn parent_dir(p: &str) -> (r: String)
    ensures
        r@ == parent_dir_spec(p@),
{
    let n = p.unicode_len();
    proof {
        assert(p@.take(n as int) =~= p@);
    }
    let mut b: usize = n;
    while b > 0 && p.get_char(b - 1) == '/'
        invariant
            b <= n,
            n == p@.len(),
            forall|j: int| b <= j < n ==> p@[j] == '/',
        decreases b,
    {
        b = b - 1;
    }
    proof {
        lemma_strip_trailing_take(p@, b as int);
        if b > 0 {
            assert(p@.take(b as int)[b - 1] == p@[b - 1]);
            assert(strip_trailing_slashes(p@.take(b as int)) == p@.take(b as int));
        } else {
            assert(p@.take(0) =~= Seq::<char>::empty());
        }
    }
    let ghost q = strip_trailing_slashes(p@);
    if b == 0 {
        if n > 0 {
            proof {
                reveal_strlit("/");
                assert("/"@ =~= seq!['/']);
            }
            return String::from_str("/");
        }
        return String::new();
    }
    let mut i: usize = b;
    let mut found: bool = false;
    while i > 0 && !found
        invariant
            i <= b <= n,
            n == p@.len(),
            q == p@.take(b as int),
            !found ==> last_slash_pos(q) == last_slash_pos(p@.take(i as int)),
            found ==> 1 <= i <= b && last_slash_pos(q) == i - 1,
        decreases i + (if !found {
            1int
        } else {
            0int
        }),
    {
        let c = p.get_char(i - 1);
        if c == '/' {
            proof {
                let t = p@.take(i as int);
                assert(t[i - 1] == '/');
            }
            found = true;
        } else {
            proof {
                let t = p@.take(i as int);
                assert(t[i - 1] != '/');
                assert(t.drop_last() =~= p@.take(i - 1));
            }
            i = i - 1;
        }
    }
    if !found {
        proof {
            assert(p@.take(0).len() == 0);
            assert(last_slash_pos(q) == -1);
        }
        String::new()
    } else if i == 1 {
        proof {
            reveal_strlit("/");
            assert("/"@ =~= seq!['/']);
        }
        String::from_str("/")
    } else {
        proof {
            assert(q.subrange(0, i - 1) =~= p@.subrange(0, i - 1));
        }
        String::from_str(p.substring_char(0, i - 1))
    }
}

/// Joins a base path and a child name.
pub fn join_path(base: &str, child: &str) -> (r: String)
    ensures
        r@ == join_path_spec(base@, child@),
{
    let n = base.unicode_len();
    if n == 0 {
        return String::from_str(child);
    }
    let mut s = String::from_str(base);
    if base.get_char(n - 1) != '/' {
        s.append("/");
        proof {
            reveal_strlit("/");
            assert("/"@ =~= seq!['/']);
        }
    }
    s.append(child);
    proof {
        assert(s@ =~= join_path_spec(base@, child@));
    }
    s
}

/// Working directories of a session.
pub struct AppState {
    pub work_dir: String,
    pub atlas_dir: String,
    pub skels_dir: String,
}

impl AppState {
    /// Builds the session state: the `atlas` and `skels` directories are
    /// placed in the work directory's parent.
    pub fn new(work_dir: String) -> (s: Self)
        ensures
            s.work_dir@ == work_dir@,
            s.atlas_dir@ == join_path_spec(parent_dir_spec(work_dir@), "atlas"@),
            s.skels_dir@ == join_path_spec(parent_dir_spec(work_dir@), "skels"@),
    {
        let parent = parent_dir(work_dir.as_str());
        let atlas_dir = join_path(parent.as_str(), "atlas");
        let skels_dir = join_path(parent.as_str(), "skels");
        AppState { work_dir, atlas_dir, skels_dir }
    }
}

} // verus!
