//! Substring containment over character sequences: the specification of what
//! it means for a query to occur in a line, and a verified scan that decides
//! it.

use vstd::prelude::*;

verus! {

/// `sub` occurs in `s` starting at index `i`.
pub open spec fn match_at(s: Seq<char>, sub: Seq<char>, i: int) -> bool {
    0 <= i && i + sub.len() <= s.len() && s.subrange(i, i + sub.len() as int) == sub
}

/// `sub` occurs somewhere in `s` as a contiguous run of characters.
pub open spec fn contains_substring(s: Seq<char>, sub: Seq<char>) -> bool {
    exists|i: int| match_at(s, sub, i)
}

/// The empty sequence is a substring of every sequence.
pub proof fn lemma_empty_substring(s: Seq<char>, sub: Seq<char>)
    requires
        sub.len() == 0,
    ensures
        contains_substring(s, sub),
{
    assert(s.subrange(0, 0) =~= sub);
    assert(match_at(s, sub, 0));
}

/// Every sequence is a substring of itself.
pub proof fn lemma_self_substring(s: Seq<char>)
    ensures
        contains_substring(s, s),
{
    assert(s.subrange(0, s.len() as int) =~= s);
    assert(match_at(s, s, 0));
}

/// Whether `needle` occurs in `hay` starting at character index `i`.
fn matches_at(hay: &str, needle: &str, i: usize) -> (r: bool)
    requires
        i + needle@.len() <= hay@.len(),
        hay@.len() <= usize::MAX,
    ensures
        r == match_at(hay@, needle@, i as int),
{
    let m: usize = needle.unicode_len();
    let mut j: usize = 0;
    while j < m
        invariant
            m == needle@.len(),
            i + m <= hay@.len(),
            hay@.len() <= usize::MAX,
            0 <= j <= m,
            forall|k: int| 0 <= k < j ==> hay@[i + k] == needle@[k],
        decreases m - j,
    {
        if hay.get_char(i + j) != needle.get_char(j) {
            proof {
                assert(hay@.subrange(i as int, i + m as int)[j as int] == hay@[i + j]);
            }
            return false;
        }
        j = j + 1;
    }
    proof {
        assert(hay@.subrange(i as int, i + m as int) =~= needle@);
    }
    true
}

/// Whether `needle` occurs anywhere in `hay` as a contiguous substring.
pub fn contains_sub(hay: &str, needle: &str) -> (r: bool)
    ensures
        r == contains_substring(hay@, needle@),
{
    let n: usize = hay.unicode_len();
    let m: usize = needle.unicode_len();
    if m > n {
        return false;
    }
    if m == 0 {
        proof {
            lemma_empty_substring(hay@, needle@);
        }
        return true;
    }
    let mut i: usize = 0;
    while i <= n - m
        invariant
            n == hay@.len(),
            m == needle@.len(),
            1 <= m <= n,
            0 <= i <= n - m + 1,
            forall|k: int| 0 <= k < i ==> !match_at(hay@, needle@, k),
        decreases n - m + 1 - i,
    {
        if matches_at(hay, needle, i) {
            return true;
        }
        i = i + 1;
    }
    proof {
        assert forall|k: int| !match_at(hay@, needle@, k) by {
            if 0 <= k <= n - m {
                assert(!match_at(hay@, needle@, k));
            }
        }
    }
    false
}

} // verus!
