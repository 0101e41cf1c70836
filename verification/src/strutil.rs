//! Character-level string helpers shared by the resolver, the import-file
//! parser and the cache codec: equality of string slices, first occurrence
//! of a character, and blank-line detection.

use vstd::prelude::*;

verus! {

/// Index of the first occurrence of `c` in `s`, if any.
pub open spec fn first_index_of(s: Seq<char>, c: char) -> Option<int>
    decreases s.len(),
{
    if s.len() == 0 {
        None
    } else if s.first() == c {
        Some(0)
    } else {
        match first_index_of(s.drop_first(), c) {
            Some(i) => Some(i + 1),
            None => None,
        }
    }
}

/// `first_index_of` returns exactly the least index holding `c`, and `None`
/// exactly when `c` does not occur.
pub proof fn lemma_first_index_of(s: Seq<char>, c: char)
    ensures
        match first_index_of(s, c) {
            Some(i) => 0 <= i < s.len() && s[i] == c && (forall|j: int| 0 <= j < i ==> s[j] != c),
            None => forall|j: int| 0 <= j < s.len() ==> s[j] != c,
        },
    decreases s.len(),
{
    if s.len() > 0 && s.first() != c {
        lemma_first_index_of(s.drop_first(), c);
        match first_index_of(s.drop_first(), c) {
            Some(i) => {
                assert(s.drop_first()[i] == s[i + 1]);
                assert forall|j: int| 0 <= j < i + 1 implies s[j] != c by {
                    if j > 0 {
                        assert(s.drop_first()[j - 1] != c);
                    }
                }
            },
            None => {
                assert forall|j: int| 0 <= j < s.len() implies s[j] != c by {
                    if j > 0 {
                        assert(s.drop_first()[j - 1] != c);
                    }
                }
            },
        }
    }
}

/// Finds the first occurrence of `c` in `s`.
pub fn find_char(s: &str, c: char) -> (r: Option<usize>)
    ensures
        match r {
            Some(i) => first_index_of(s@, c) == Some(i as int) && i < s@.len() && s@[i as int]
                == c,
            None => first_index_of(s@, c) is None,
        },
{
    let n = s.unicode_len();
    let mut i: usize = 0;
    proof {
        lemma_first_index_of(s@, c);
    }
    while i < n
        invariant
            i <= n,
            n == s@.len(),
            forall|j: int| 0 <= j < i ==> s@[j] != c,
            match first_index_of(s@, c) {
                Some(k) => 0 <= k < s@.len() && s@[k] == c && (forall|j: int|
                    0 <= j < k ==> s@[j] != c),
                None => forall|j: int| 0 <= j < s@.len() ==> s@[j] != c,
            },
        decreases n - i,
    {
        if s.get_char(i) == c {
            return Some(i);
        }
        i = i + 1;
    }
    None
}

/// True when the two string slices hold the same characters.
pub fn str_eq(a: &str, b: &str) -> (r: bool)
    ensures
        r == (a@ == b@),
{
    let na = a.unicode_len();
    let nb = b.unicode_len();
    if na != nb {
        return false;
    }
    let mut i: usize = 0;
    while i < na
        invariant
            i <= na,
            na == a@.len(),
            na == b@.len(),
            forall|j: int| 0 <= j < i ==> a@[j] == b@[j],
        decreases na - i,
    {
        if a.get_char(i) != b.get_char(i) {
            return false;
        }
        i = i + 1;
    }
    proof {
        assert(a@ =~= b@);
    }
    true
}

/// Copies a vector of strings; the copy holds the very same values.
pub fn clone_strings(v: &Vec<String>) -> (r: Vec<String>)
    ensures
        r@ == v@,
{
    let mut out: Vec<String> = Vec::new();
    let mut i: usize = 0;
    while i < v.len()
        invariant
            i <= v.len(),
            out@.len() == i,
            forall|j: int| 0 <= j < i ==> out@[j] == v@[j],
        decreases v.len() - i,
    {
        out.push(v[i].clone());
        i = i + 1;
    }
    proof {
        assert(out@ =~= v@);
    }
    out
}

/// Appends a copy of every string in `src` to `out`.
pub fn append_strings(out: &mut Vec<String>, src: &Vec<String>)
    ensures
        final(out).deep_view() == old(out).deep_view() + src.deep_view(),
{
    let ghost base = out.deep_view();
    let mut i: usize = 0;
    proof {
        assert(out.deep_view() =~= base + src.deep_view().take(0));
    }
    while i < src.len()
        invariant
            i <= src.len(),
            src@.len() == src.deep_view().len(),
            base == old(out).deep_view(),
            out.deep_view() == base + src.deep_view().take(i as int),
        decreases src.len() - i,
    {
        let x = src[i].clone();
        let ghost prev = out@;
        let ghost prev_dv = out.deep_view();
        out.push(x);
        proof {
            assert forall|j: int| 0 <= j < out@.len() implies out.deep_view()[j] == prev_dv.push(
                src.deep_view()[i as int],
            )[j] by {
                assert(out@ == prev.push(x));
                assert(out.deep_view()[j] == out@[j].deep_view());
                if j < prev.len() {
                    assert(out@[j] == prev[j]);
                    assert(prev[j].deep_view() == prev_dv[j]);
                } else {
                    assert(out@[j] == x);
                    assert(x@ == src.deep_view()[i as int]);
                }
            }
            assert(out.deep_view() =~= prev_dv.push(src.deep_view()[i as int]));
            assert(prev_dv.push(src.deep_view()[i as int]) =~= base + src.deep_view().take(
                i as int + 1,
            ));
        }
        i = i + 1;
    }
    proof {
        assert(src.deep_view().take(src@.len() as int) =~= src.deep_view());
    }
}

/// A line counts as blank when it holds only spaces, tabs and carriage
/// returns.
pub open spec fn is_blank(s: Seq<char>) -> bool {
    forall|j: int| 0 <= j < s.len() ==> (s[j] == ' ' || s[j] == '\t' || s[j] == '\r')
}

/// Decides whether a line is blank.
pub fn line_is_blank(s: &str) -> (r: bool)
    ensures
        r == is_blank(s@),
{
    let n = s.unicode_len();
    let mut i: usize = 0;
    while i < n
        invariant
            i <= n,
            n == s@.len(),
            forall|j: int| 0 <= j < i ==> (s@[j] == ' ' || s@[j] == '\t' || s@[j] == '\r'),
        decreases n - i,
    {
        let c = s.get_char(i);
        if c != ' ' && c != '\t' && c != '\r' {
            return false;
        }
        i = i + 1;
    }
    true
}

} // verus!
