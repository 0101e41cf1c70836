//! Path applicability rules: a declared path covers a candidate path either
//! exactly (run commands, directory file imports) or as a path-component
//! prefix (variables, aliases, global file imports).

use vstd::prelude::*;

verus! {

use crate::strutil::str_eq;

/// Declared path `p` covers candidate `q` by prefix: `q` equals `p`, or `q`
/// continues `p` at a path-component boundary (so `/home/a` covers
/// `/home/a/b` but not `/home/ab`).
pub open spec fn covers_prefix(p: Seq<char>, q: Seq<char>) -> bool {
    p == q || (q.len() > p.len() && q.take(p.len() as int) == p && (q[p.len() as int] == '/' || (
    p.len() > 0 && p.last() == '/')))
}

/// Declared path `p` covers candidate `q` exactly.
pub open spec fn covers_exact(p: Seq<char>, q: Seq<char>) -> bool {
    p == q
}

/// True when `candidate_path` equals `declared_path` or lies inside its
/// subtree by path components.
pub fn match_prefix(declared_path: &str, candidate_path: &str) -> (r: bool)
    ensures
        r == covers_prefix(declared_path@, candidate_path@),
{
    let np = declared_path.unicode_len();
    let nq = candidate_path.unicode_len();
    if np == nq {
        return str_eq(declared_path, candidate_path);
    }
    if nq < np {
        proof {
            assert(declared_path@ != candidate_path@);
        }
        return false;
    }
    let mut i: usize = 0;
    while i < np
        invariant
            i <= np,
            np == declared_path@.len(),
            nq == candidate_path@.len(),
            np < nq,
            forall|j: int| 0 <= j < i ==> candidate_path@[j] == declared_path@[j],
        decreases np - i,
    {
        if declared_path.get_char(i) != candidate_path.get_char(i) {
            proof {
                assert(candidate_path@.take(np as int)[i as int] != declared_path@[i as int]);
                assert(declared_path@ != candidate_path@);
            }
            return false;
        }
        i = i + 1;
    }
    proof {
        assert(candidate_path@.take(np as int) =~= declared_path@);
    }
    if candidate_path.get_char(np) == '/' {
        return true;
    }
    if np > 0 && declared_path.get_char(np - 1) == '/' {
        return true;
    }
    proof {
        assert(declared_path@ != candidate_path@);
    }
    false
}

/// True when the two paths are the same string.
pub fn match_exact(declared_path: &str, candidate_path: &str) -> (r: bool)
    ensures
        r == covers_exact(declared_path@, candidate_path@),
{
    str_eq(declared_path, candidate_path)
}

} // verus!
