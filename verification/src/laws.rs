//! The laws the matcher obeys, stated over the specification functions that
//! the search contracts use and proved once and for all.

use vstd::prelude::*;
use crate::lines::spec_lines;
use crate::search::{
    matching_lines, ci_matching_lines, sensitive_pred, insensitive_pred, lower_of,
};
use crate::substring::{contains_substring, lemma_empty_substring, lemma_self_substring};

verus! {

/// Filtering keeps, as a multiset, no more than what was there.
proof fn lemma_filter_to_multiset_subset<A>(s: Seq<A>, pred: spec_fn(A) -> bool)
    ensures
        s.filter(pred).to_multiset().subset_of(s.to_multiset()),
    decreases s.len(),
{
    broadcast use vstd::multiset::group_multiset_axioms;
    broadcast use vstd::seq_lib::group_to_multiset_ensures;

    reveal(Seq::filter);
    if s.len() > 0 {
        lemma_filter_to_multiset_subset(s.drop_last(), pred);
        assert(s.drop_last().push(s.last()) =~= s);
        assert(s.to_multiset() =~= s.drop_last().to_multiset().insert(s.last()));
        if pred(s.last()) {
            assert(s.filter(pred).to_multiset() =~= s.drop_last().filter(
                pred,
            ).to_multiset().insert(s.last()));
        }
    }
}

/// A filter whose predicate holds of no element keeps nothing.
proof fn lemma_filter_none<A>(s: Seq<A>, pred: spec_fn(A) -> bool)
    requires
        forall|i: int| 0 <= i < s.len() ==> !pred(#[trigger] s[i]),
    ensures
        s.filter(pred) == Seq::<A>::empty(),
    decreases s.len(),
{
    reveal(Seq::filter);
    if s.len() > 0 {
        assert(forall|i: int| 0 <= i < s.drop_last().len() ==> s.drop_last()[i] == s[i]);
        lemma_filter_none(s.drop_last(), pred);
        assert(!pred(s.last()));
    }
}

/// A filter whose predicate holds at exactly one index keeps exactly that
/// element, once.
proof fn lemma_filter_single<A>(s: Seq<A>, pred: spec_fn(A) -> bool, i: int)
    requires
        0 <= i < s.len(),
        pred(s[i]),
        forall|j: int| 0 <= j < s.len() && j != i ==> !pred(#[trigger] s[j]),
    ensures
        s.filter(pred) == seq![s[i]],
    decreases s.len(),
{
    reveal(Seq::filter);
    if i == s.len() - 1 {
        assert(forall|j: int| 0 <= j < s.drop_last().len() ==> s.drop_last()[j] == s[j]);
        lemma_filter_none(s.drop_last(), pred);
        assert(s.filter(pred) =~= seq![s[i]]);
    } else {
        assert(forall|j: int| 0 <= j < s.drop_last().len() ==> s.drop_last()[j] == s[j]);
        lemma_filter_single(s.drop_last(), pred, i);
        assert(!pred(s.last()));
    }
}

/// Case-sensitive matching is sound and complete: every line it keeps
/// contains the query, every line that contains the query is kept, and as a
/// multiset the result is contained in the lines of the text.
pub proof fn lemma_case_sensitive_matches(content: Seq<char>, query: Seq<char>)
    ensures
        forall|i: int|
            0 <= i < matching_lines(content, query).len() ==> contains_substring(
                #[trigger] matching_lines(content, query)[i],
                query,
            ),
        forall|i: int|
            0 <= i < spec_lines(content).len() && contains_substring(
                #[trigger] spec_lines(content)[i],
                query,
            ) ==> matching_lines(content, query).contains(spec_lines(content)[i]),
        matching_lines(content, query).to_multiset().subset_of(spec_lines(content).to_multiset()),
{
    broadcast use vstd::seq_lib::group_filter_ensures;

    lemma_filter_to_multiset_subset(spec_lines(content), sensitive_pred(query));
}

/// Case-insensitive matching is sound and complete in the same way, judged
/// by the lower-cased forms, while the kept lines themselves stay as they
/// were written.
pub proof fn lemma_case_insensitive_matches(content: Seq<char>, query: Seq<char>)
    ensures
        forall|i: int|
            0 <= i < ci_matching_lines(content, query).len() ==> contains_substring(
                lower_of(#[trigger] ci_matching_lines(content, query)[i]),
                lower_of(query),
            ),
        forall|i: int|
            0 <= i < spec_lines(content).len() && contains_substring(
                lower_of(#[trigger] spec_lines(content)[i]),
                lower_of(query),
            ) ==> ci_matching_lines(content, query).contains(spec_lines(content)[i]),
        ci_matching_lines(content, query).to_multiset().subset_of(
            spec_lines(content).to_multiset(),
        ),
{
    broadcast use vstd::seq_lib::group_filter_ensures;

    lemma_filter_to_multiset_subset(spec_lines(content), insensitive_pred(query));
}

/// An empty query matches every line: case-sensitive matching then returns
/// the lines of the text unchanged.
pub proof fn lemma_empty_query_matches_all(content: Seq<char>, query: Seq<char>)
    requires
        query.len() == 0,
    ensures
        matching_lines(content, query) == spec_lines(content),
{
    let s = spec_lines(content);
    assert forall|i: int| 0 <= i < s.len() implies sensitive_pred(query)(#[trigger] s[i]) by {
        lemma_empty_substring(s[i], query);
    }
    crate::search::lemma_filter_all(s, sensitive_pred(query));
}

/// Searching for the exact text of a line always finds that line.
pub proof fn lemma_full_line_found(content: Seq<char>, i: int)
    requires
        0 <= i < spec_lines(content).len(),
    ensures
        matching_lines(content, spec_lines(content)[i]).contains(spec_lines(content)[i]),
{
    broadcast use vstd::seq_lib::group_filter_ensures;

    lemma_self_substring(spec_lines(content)[i]);
    assert(sensitive_pred(spec_lines(content)[i])(spec_lines(content)[i]));
}

/// Round trip: searching for the exact text of a line returns that line,
/// and when no other line contains that text it returns exactly that line,
/// once.
pub proof fn lemma_full_line_round_trip(content: Seq<char>, i: int)
    requires
        0 <= i < spec_lines(content).len(),
        forall|j: int|
            0 <= j < spec_lines(content).len() && j != i ==> !contains_substring(
                #[trigger] spec_lines(content)[j],
                spec_lines(content)[i],
            ),
    ensures
        matching_lines(content, spec_lines(content)[i]) == seq![spec_lines(content)[i]],
{
    lemma_self_substring(spec_lines(content)[i]);
    lemma_filter_single(spec_lines(content), sensitive_pred(spec_lines(content)[i]), i);
}

} // verus!
