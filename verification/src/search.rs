//! The line matcher: return, in original order, the lines of a text that
//! contain a query, either exactly or after lower-casing both sides.

use vstd::prelude::*;
use crate::config::Config;
use crate::lines::{spec_lines, is_first_nl, lemma_lines_step};
use crate::substring::{contains_substring, contains_sub, lemma_empty_substring};

verus! {

/// What `str::to_lowercase` returns for a given character sequence.
pub uninterp spec fn lower_of(s: Seq<char>) -> Seq<char>;

/// Relies on `str::to_lowercase`: the result depends on the characters of the
/// argument alone, and lower-casing empty text yields empty text.
#[verifier::external_body]
fn to_lower(s: &str) -> (r: String)
    ensures
        r@ == lower_of(s@),
        s@.len() == 0 ==> r@.len() == 0,
{
    s.to_lowercase()
}

/// The case-sensitive criterion: the line contains the query as written.
pub open spec fn sensitive_pred(query: Seq<char>) -> spec_fn(Seq<char>) -> bool {
    |line: Seq<char>| contains_substring(line, query)
}

/// The case-insensitive criterion: the lower-cased line contains the
/// lower-cased query.
pub open spec fn insensitive_pred(query: Seq<char>) -> spec_fn(Seq<char>) -> bool {
    |line: Seq<char>| contains_substring(lower_of(line), lower_of(query))
}

/// The lines of `content` that contain `query`, in their original order.
pub open spec fn matching_lines(content: Seq<char>, query: Seq<char>) -> Seq<Seq<char>> {
    spec_lines(content).filter(sensitive_pred(query))
}

/// The lines of `content` whose lower-cased form contains the lower-cased
/// `query`, in their original order and with their original casing.
pub open spec fn ci_matching_lines(content: Seq<char>, query: Seq<char>) -> Seq<Seq<char>> {
    spec_lines(content).filter(insensitive_pred(query))
}

/// Filtering a sequence extended by one element keeps the element exactly
/// when the predicate holds of it.
pub proof fn lemma_filter_push<A>(s: Seq<A>, pred: spec_fn(A) -> bool, x: A)
    ensures
        pred(x) ==> s.push(x).filter(pred) == s.filter(pred).push(x),
        !pred(x) ==> s.push(x).filter(pred) == s.filter(pred),
{
    reveal(Seq::filter);
    assert(s.push(x).drop_last() =~= s);
    assert(s.push(x).last() == x);
}

/// A filter whose predicate holds of every element keeps the sequence whole.
pub proof fn lemma_filter_all<A>(s: Seq<A>, pred: spec_fn(A) -> bool)
    requires
        forall|i: int| 0 <= i < s.len() ==> pred(#[trigger] s[i]),
    ensures
        s.filter(pred) == s,
    decreases s.len(),
{
    reveal(Seq::filter);
    if s.len() > 0 {
        assert(forall|i: int| 0 <= i < s.drop_last().len() ==> s.drop_last()[i] == s[i]);
        lemma_filter_all(s.drop_last(), pred);
        assert(pred(s.last()));
        assert(s.drop_last().push(s.last()) =~= s);
    }
}

/// Return the lines of `content` that satisfy the selected criterion over
/// `query`, in order.
fn search_lines<'a>(query: &str, content: &'a str, case_sensitive: bool) -> (result: Vec<&'a str>)
    ensures
        case_sensitive ==> result.deep_view() == matching_lines(content@, query@),
        !case_sensitive ==> result.deep_view() == ci_matching_lines(content@, query@),
        query@.len() == 0 ==> result.deep_view() == spec_lines(content@),
{
    let ghost pred = if case_sensitive {
        sensitive_pred(query@)
    } else {
        insensitive_pred(query@)
    };
    let lquery: String = if case_sensitive {
        String::new()
    } else {
        to_lower(query)
    };
    let n: usize = content.unicode_len();
    let mut result: Vec<&'a str> = Vec::new();
    let mut pos: usize = 0;
    let ghost mut processed: Seq<Seq<char>> = Seq::empty();
    proof {
        reveal(Seq::filter);
        assert(content@.subrange(0, n as int) =~= content@);
        assert(Seq::empty() + spec_lines(content@) =~= spec_lines(content@));
        assert(result.deep_view() =~= processed.filter(pred));
    }
    while pos < n
        invariant
            n == content@.len(),
            n <= usize::MAX,
            0 <= pos <= n,
            case_sensitive ==> pred == sensitive_pred(query@),
            !case_sensitive ==> pred == insensitive_pred(query@),
            !case_sensitive ==> lquery@ == lower_of(query@),
            spec_lines(content@) == processed + spec_lines(
                content@.subrange(pos as int, n as int),
            ),
            result.deep_view() == processed.filter(pred),
        decreases n - pos,
    {
        let mut end: usize = pos;
        while end < n && content.get_char(end) != '\n'
            invariant
                n == content@.len(),
                n <= usize::MAX,
                pos <= end <= n,
                forall|j: int| pos <= j < end ==> content@[j] != '\n',
            decreases n - end,
        {
            end = end + 1;
        }
        let line: &'a str = content.substring_char(pos, end);
        let hit: bool = if case_sensitive {
            contains_sub(line, query)
        } else {
            let lline: String = to_lower(line);
            contains_sub(lline.as_str(), lquery.as_str())
        };
        proof {
            let rest = content@.subrange(pos as int, n as int);
            let e = end - pos as int;
            assert forall|j: int| 0 <= j < e implies rest[j] != '\n' by {
                assert(content@[pos + j] != '\n');
            }
            assert(is_first_nl(rest, e));
            lemma_lines_step(rest, e);
            assert(line@ =~= rest.subrange(0, e));
            assert(hit == pred(line@));
            lemma_filter_push(processed, pred, line@);
            if end < n {
                assert(rest.subrange(e + 1, rest.len() as int) =~= content@.subrange(
                    end + 1,
                    n as int,
                ));
                assert(spec_lines(content@) == processed + (seq![line@] + spec_lines(
                    content@.subrange(end + 1, n as int),
                )));
                assert(processed + (seq![line@] + spec_lines(content@.subrange(end + 1, n as int)))
                    =~= processed.push(line@) + spec_lines(content@.subrange(end + 1, n as int)));
            } else {
                assert(spec_lines(rest) == seq![line@]);
                assert(processed + seq![line@] =~= processed.push(line@));
            }
        }
        let ghost old_deep = result.deep_view();
        if hit {
            result.push(line);
            proof {
                assert(result.deep_view() =~= old_deep.push(line@));
            }
        }
        proof {
            processed = processed.push(line@);
        }
        if end < n {
            pos = end + 1;
        } else {
            pos = n;
            proof {
                assert(content@.subrange(n as int, n as int) =~= Seq::<char>::empty());
                assert(processed + Seq::<Seq<char>>::empty() =~= processed);
            }
        }
    }
    proof {
        assert(content@.subrange(pos as int, n as int) =~= Seq::<char>::empty());
        assert(spec_lines(content@.subrange(pos as int, n as int)) == Seq::<Seq<char>>::empty());
        assert(processed + Seq::<Seq<char>>::empty() =~= processed);
        assert(spec_lines(content@) == processed);
        if query@.len() == 0 {
            if case_sensitive {
                assert forall|i: int| 0 <= i < processed.len() implies pred(#[trigger] processed[i]) by {
                    lemma_empty_substring(processed[i], query@);
                }
            } else {
                assert(lower_of(query@).len() == 0);
                assert forall|i: int| 0 <= i < processed.len() implies pred(#[trigger] processed[i]) by {
                    lemma_empty_substring(lower_of(processed[i]), lower_of(query@));
                }
            }
            lemma_filter_all(processed, pred);
        }
    }
    result
}

/// Case-sensitive search: the lines of `content` that contain `query` as a
/// contiguous substring, exactly as written, in original order. An empty
/// query matches every line.
pub fn search<'a>(query: &str, content: &'a str) -> (result: Vec<&'a str>)
    ensures
        result.deep_view() == matching_lines(content@, query@),
        query@.len() == 0 ==> result.deep_view() == spec_lines(content@),
{
    search_lines(query, content, true)
}

/// Case-insensitive search: the lines of `content` whose lower-cased form
/// contains the lower-cased `query`, returned with their original casing, in
/// original order. An empty query matches every line.
pub fn search_case_insensitive<'a>(query: &str, content: &'a str) -> (result: Vec<&'a str>)
    ensures
        result.deep_view() == ci_matching_lines(content@, query@),
        query@.len() == 0 ==> result.deep_view() == spec_lines(content@),
{
    search_lines(query, content, false)
}

/// Run the search that `config` selects over `content`: case-sensitive when
/// `config.case_sensitive` holds, case-insensitive otherwise.
pub fn search_with_config<'a>(config: &Config, content: &'a str) -> (result: Vec<&'a str>)
    ensures
        config.case_sensitive ==> result.deep_view() == matching_lines(content@, config.query@),
        !config.case_sensitive ==> result.deep_view() == ci_matching_lines(
            content@,
            config.query@,
        ),
{
    if config.case_sensitive {
        search(config.query.as_str(), content)
    } else {
        search_case_insensitive(config.query.as_str(), content)
    }
}

} // verus!
