//! Splitting text into lines. A line is a maximal run of characters between
//! `'\n'` delimiters; the delimiter belongs to no line, and a trailing
//! newline does not produce an empty trailing line.

use vstd::prelude::*;

verus! {

/// Index of the first `'\n'` in `s`, or `s.len()` when there is none.
pub open spec fn find_nl(s: Seq<char>) -> int
    decreases s.len(),
{
    if s.len() == 0 {
        0
    } else if s[0] == '\n' {
        0
    } else {
        1 + find_nl(s.drop_first())
    }
}

/// `e` is the index of the first `'\n'` in `s`, or `s.len()` when there is
/// none: nothing before `e` is a newline, and `e` itself is one unless it is
/// the end.
pub open spec fn is_first_nl(s: Seq<char>, e: int) -> bool {
    &&& 0 <= e <= s.len()
    &&& forall|j: int| 0 <= j < e ==> s[j] != '\n'
    &&& e < s.len() ==> s[e] == '\n'
}

/// `find_nl` satisfies its characterization.
pub proof fn lemma_find_nl(s: Seq<char>)
    ensures
        is_first_nl(s, find_nl(s)),
    decreases s.len(),
{
    if s.len() == 0 {
    } else if s[0] == '\n' {
    } else {
        lemma_find_nl(s.drop_first());
        let e = find_nl(s);
        assert forall|j: int| 0 <= j < e implies s[j] != '\n' by {
            if j > 0 {
                assert(s.drop_first()[j - 1] == s[j]);
            }
        }
        if e < s.len() {
            assert(s.drop_first()[e - 1] == s[e]);
        }
    }
}

/// Only one index satisfies the characterization.
pub proof fn lemma_first_nl_unique(s: Seq<char>, e: int)
    requires
        is_first_nl(s, e),
    ensures
        find_nl(s) == e,
{
    lemma_find_nl(s);
    let f = find_nl(s);
    if f < e {
        assert(s[f] == '\n');
        assert(false);
    }
    if e < f {
        assert(s[e] == '\n');
        assert(false);
    }
}

/// The lines of `s`, in order. Empty text has no lines; otherwise the text
/// up to the first newline is the first line and the rest follows, so a
/// trailing newline yields no empty trailing line.
pub open spec fn spec_lines(s: Seq<char>) -> Seq<Seq<char>>
    decreases s.len(),
{
    if s.len() == 0 {
        Seq::empty()
    } else {
        let e = find_nl(s);
        if 0 <= e < s.len() {
            seq![s.subrange(0, e)] + spec_lines(s.subrange(e + 1, s.len() as int))
        } else {
            seq![s]
        }
    }
}

/// Peeling the first line off non-empty text, for any index `e` with the
/// first-newline characterization.
pub proof fn lemma_lines_step(s: Seq<char>, e: int)
    requires
        s.len() > 0,
        is_first_nl(s, e),
    ensures
        e < s.len() ==> spec_lines(s) == seq![s.subrange(0, e)] + spec_lines(
            s.subrange(e + 1, s.len() as int),
        ),
        e == s.len() ==> spec_lines(s) == seq![s],
{
    lemma_first_nl_unique(s, e);
}

} // verus!
