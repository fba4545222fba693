//! The two search functions: keep the lines of a text that contain a query
//! string, either exactly or after simple case folding.

use vstd::prelude::*;

use crate::text::{
    chars_of, contains_chars, contains_sub, lemma_contains_empty, lemma_lower_preserves_contains,
    lines_of, lower_chars, lower_seq, split_lines,
};

verus! {

/// The lines of `contents` that contain `query` as a contiguous substring,
/// in their original order.
pub open spec fn search_spec(query: Seq<char>, contents: Seq<char>) -> Seq<Seq<char>> {
    lines_of(contents).filter(|line: Seq<char>| contains_sub(line, query))
}

/// The lines of `contents` whose case-folded text contains the case-folded
/// `query`, in their original order.  The lines keep their original casing.
pub open spec fn search_ci_spec(query: Seq<char>, contents: Seq<char>) -> Seq<Seq<char>> {
    lines_of(contents).filter(|line: Seq<char>| contains_sub(lower_seq(line), lower_seq(query)))
}

/// Filtering a sequence extended by one element keeps the filtered prefix and
/// appends the new element exactly when it satisfies the predicate.
proof fn lemma_filter_push<A>(s: Seq<A>, pred: spec_fn(A) -> bool, x: A)
    ensures
        pred(x) ==> s.push(x).filter(pred) == s.filter(pred).push(x),
        !pred(x) ==> s.push(x).filter(pred) == s.filter(pred),
{
    reveal(Seq::filter);
    assert(s.push(x).drop_last() =~= s);
    assert(s.push(x).last() == x);
}

/// Filtering keeps a sequence unchanged when every element satisfies the
/// predicate.
proof fn lemma_filter_all<A>(s: Seq<A>, pred: spec_fn(A) -> bool)
    requires
        forall|i: int| 0 <= i < s.len() ==> pred(s[i]),
    ensures
        s.filter(pred) == s,
    decreases s.len(),
{
    reveal(Seq::filter);
    if s.len() > 0 {
        assert(forall|i: int| 0 <= i < s.drop_last().len() ==> s.drop_last()[i] == s[i]);
        lemma_filter_all(s.drop_last(), pred);
        assert(pred(s.last()));
        assert(s.drop_last().push(s.last()) =~= s);
    }
}

/// An element of a filtered sequence comes from the original sequence and
/// satisfies the predicate.
proof fn lemma_filter_membership<A>(s: Seq<A>, pred: spec_fn(A) -> bool, x: A)
    requires
        s.filter(pred).contains(x),
    ensures
        s.contains(x),
        pred(x),
    decreases s.len(),
{
    reveal(Seq::filter);
    if s.len() > 0 {
        let f = s.filter(pred);
        let sub = s.drop_last().filter(pred);
        if pred(s.last()) {
            let j = choose|j: int| 0 <= j < f.len() && f[j] == x;
            if j == f.len() - 1 {
                assert(x == s.last());
                assert(s[s.len() - 1] == x);
            } else {
                assert(sub[j] == x);
                assert(sub.contains(x));
                lemma_filter_membership(s.drop_last(), pred, x);
                let k = choose|k: int| 0 <= k < s.drop_last().len() && s.drop_last()[k] == x;
                assert(s[k] == x);
            }
        } else {
            lemma_filter_membership(s.drop_last(), pred, x);
            let k = choose|k: int| 0 <= k < s.drop_last().len() && s.drop_last()[k] == x;
            assert(s[k] == x);
        }
    }
}

/// Law: the empty query matches every line, so searching for it returns
/// every line of the text unchanged and in order.
pub proof fn lemma_empty_query_matches_all(contents: Seq<char>)
    ensures
        search_spec(Seq::<char>::empty(), contents) == lines_of(contents),
{
    let lines = lines_of(contents);
    let pred = |line: Seq<char>| contains_sub(line, Seq::<char>::empty());
    assert forall|i: int| 0 <= i < lines.len() implies pred(lines[i]) by {
        lemma_contains_empty(lines[i]);
    }
    lemma_filter_all(lines, pred);
}

/// Law: case-insensitive search is a superset of case-sensitive search for
/// the same query and contents, since case folding keeps every exact match.
pub proof fn lemma_case_insensitive_superset(query: Seq<char>, contents: Seq<char>)
    ensures
        forall|line: Seq<char>| #[trigger] search_spec(query, contents).contains(line)
            ==> search_ci_spec(query, contents).contains(line),
{
    let lines = lines_of(contents);
    let sens_pred = |line: Seq<char>| contains_sub(line, query);
    let ci_pred = |line: Seq<char>| contains_sub(lower_seq(line), lower_seq(query));
    assert forall|line: Seq<char>| #[trigger] search_spec(query, contents).contains(line)
        implies search_ci_spec(query, contents).contains(line) by {
        lemma_filter_membership(lines, sens_pred, line);
        lemma_lower_preserves_contains(line, query);
        let k = choose|k: int| 0 <= k < lines.len() && lines[k] == line;
        lines.lemma_filter_contains(ci_pred, k);
    }
}

/// Case-sensitive search: the returned vector holds exactly the lines of
/// `contents` that contain `query` as a contiguous substring, in their
/// original order, each returned as a slice of `contents`.
pub fn search<'a>(query: &str, contents: &'a str) -> (results: Vec<&'a str>)
    ensures
        results.deep_view() == search_spec(query@, contents@),
{
    let query_chars = chars_of(query);
    let lines = split_lines(contents);
    let n = lines.len();
    let mut results: Vec<&'a str> = Vec::new();
    let mut i: usize = 0;
    proof {
        assert(lines.deep_view().subrange(0, 0) =~= Seq::<Seq<char>>::empty());
        assert(Seq::<Seq<char>>::empty().filter(
            |line: Seq<char>| contains_sub(line, query@),
        ) =~= Seq::<Seq<char>>::empty()) by {
            reveal(Seq::filter);
        }
    }
    while i < n
        invariant
            n == lines@.len(),
            i <= n,
            query_chars@ == query@,
            lines.deep_view() == lines_of(contents@),
            results.deep_view() == lines.deep_view().subrange(0, i as int).filter(
                |line: Seq<char>| contains_sub(line, query@),
            ),
        decreases n - i,
    {
        let line = lines[i];
        let line_chars = chars_of(line);
        let ghost pred = |l: Seq<char>| contains_sub(l, query@);
        let ghost prefix = lines.deep_view().subrange(0, i as int);
        proof {
            assert(lines.deep_view()[i as int] == line@);
            assert(lines.deep_view().subrange(0, i + 1) =~= prefix.push(line@));
            lemma_filter_push(prefix, pred, line@);
        }
        if contains_chars(&line_chars, &query_chars) {
            let ghost prev = results.deep_view();
            results.push(line);
            proof {
                assert(results.deep_view() =~= prev.push(line@));
            }
        }
        i = i + 1;
    }
    proof {
        assert(lines.deep_view().subrange(0, n as int) =~= lines.deep_view());
    }
    results
}

/// Case-insensitive search: the returned vector holds exactly the lines of
/// `contents` whose case-folded text contains the case-folded `query`, in
/// their original order and with their original casing.
pub fn search_case_insesitive<'a>(query: &str, contents: &'a str) -> (results: Vec<&'a str>)
    ensures
        results.deep_view() == search_ci_spec(query@, contents@),
{
    let query_chars = lower_chars(query);
    let lines = split_lines(contents);
    let n = lines.len();
    let mut results: Vec<&'a str> = Vec::new();
    let mut i: usize = 0;
    proof {
        assert(lines.deep_view().subrange(0, 0) =~= Seq::<Seq<char>>::empty());
        assert(Seq::<Seq<char>>::empty().filter(
            |line: Seq<char>| contains_sub(lower_seq(line), lower_seq(query@)),
        ) =~= Seq::<Seq<char>>::empty()) by {
            reveal(Seq::filter);
        }
    }
    while i < n
        invariant
            n == lines@.len(),
            i <= n,
            query_chars@ == lower_seq(query@),
            lines.deep_view() == lines_of(contents@),
            results.deep_view() == lines.deep_view().subrange(0, i as int).filter(
                |line: Seq<char>| contains_sub(lower_seq(line), lower_seq(query@)),
            ),
        decreases n - i,
    {
        let line = lines[i];
        let line_chars = lower_chars(line);
        let ghost pred = |l: Seq<char>| contains_sub(lower_seq(l), lower_seq(query@));
        let ghost prefix = lines.deep_view().subrange(0, i as int);
        proof {
            assert(lines.deep_view()[i as int] == line@);
            assert(lines.deep_view().subrange(0, i + 1) =~= prefix.push(line@));
            lemma_filter_push(prefix, pred, line@);
        }
        if contains_chars(&line_chars, &query_chars) {
            let ghost prev = results.deep_view();
            results.push(line);
            proof {
                assert(results.deep_view() =~= prev.push(line@));
            }
        }
        i = i + 1;
    }
    proof {
        assert(lines.deep_view().subrange(0, n as int) =~= lines.deep_view());
    }
    results
}

} // verus!
