use vstd::prelude::*;
use crate::search::{has_query, lower_of, has_query_folded, matching_lines, matching_lines_folded};
use crate::text::{contains, lines, occurs_at};

verus! {

/// Keeping the items that all pass a test keeps the whole sequence.
proof fn lemma_filter_keeps_all(s: Seq<Seq<char>>, pred: spec_fn(Seq<char>) -> bool)
    requires
        forall|i: int| 0 <= i < s.len() ==> pred(#[trigger] s[i]),
    ensures
        s.filter(pred) == s,
    decreases s.len(),
{
    if s.len() > 0 {
        let init = s.drop_last();
        assert forall|i: int| 0 <= i < init.len() implies pred(#[trigger] init[i]) by {
            assert(init[i] == s[i]);
        }
        lemma_filter_keeps_all(init, pred);
        init.lemma_filter_push(s.last(), pred);
        assert(init.push(s.last()) =~= s);
    }
}

/// An item is kept by a filter exactly when it is in the sequence and
/// passes the test.
proof fn lemma_filter_membership(s: Seq<Seq<char>>, pred: spec_fn(Seq<char>) -> bool, l: Seq<char>)
    ensures
        s.filter(pred).contains(l) <==> s.contains(l) && pred(l),
{
    if s.filter(pred).contains(l) {
        s.lemma_filter_contains_rev(pred, l);
        let j = choose|j: int| 0 <= j < s.filter(pred).len() && s.filter(pred)[j] == l;
        s.lemma_filter_pred(pred, j);
    }
    if s.contains(l) && pred(l) {
        let i = choose|i: int| 0 <= i < s.len() && s[i] == l;
        s.lemma_filter_contains(pred, i);
    }
}

/// Filtering twice by one test is filtering once.
proof fn lemma_filter_twice(s: Seq<Seq<char>>, pred: spec_fn(Seq<char>) -> bool)
    ensures
        s.filter(pred).filter(pred) == s.filter(pred),
{
    assert forall|i: int| 0 <= i < s.filter(pred).len() implies pred(#[trigger] s.filter(pred)[i]) by {
        s.lemma_filter_pred(pred, i);
    }
    lemma_filter_keeps_all(s.filter(pred), pred);
}

/// The exact matches of `query` in `body` are lines of `body` that contain
/// `query`, and every such line is among them.
pub proof fn lemma_matches_are_lines_with_query(query: Seq<char>, body: Seq<char>)
    ensures
        forall|l: Seq<char>|
            #[trigger] matching_lines(query, body).contains(l) <==> lines(body).contains(l)
                && contains(l, query),
{
    assert forall|l: Seq<char>|
        #[trigger] matching_lines(query, body).contains(l) <==> lines(body).contains(l) && contains(
            l,
            query,
        ) by {
        lemma_filter_membership(lines(body), has_query(query), l);
    }
}

/// The matches of `query` in `body` regardless of case are the lines of
/// `body`, unchanged, whose lowercase form contains the lowercase form of
/// `query`, and every such line is among them.
pub proof fn lemma_folded_matches_are_lines_with_query(query: Seq<char>, body: Seq<char>)
    ensures
        forall|l: Seq<char>|
            #[trigger] matching_lines_folded(query, body).contains(l) <==> lines(body).contains(l)
                && contains(lower_of(l), lower_of(query)),
{
    assert forall|l: Seq<char>|
        #[trigger] matching_lines_folded(query, body).contains(l) <==> lines(body).contains(l)
            && contains(lower_of(l), lower_of(query)) by {
        lemma_filter_membership(lines(body), has_query_folded(query), l);
    }
}

/// Searching the matches again for the same query keeps all of them, in
/// order, with or without regard to case.
pub proof fn lemma_search_again_keeps_matches(query: Seq<char>, body: Seq<char>)
    ensures
        matching_lines(query, body).filter(has_query(query)) == matching_lines(query, body),
        matching_lines_folded(query, body).filter(has_query_folded(query))
            == matching_lines_folded(query, body),
{
    lemma_filter_twice(lines(body), has_query(query));
    lemma_filter_twice(lines(body), has_query_folded(query));
}

/// The empty query matches every line of the body, in order.
pub proof fn lemma_empty_query_matches_all(body: Seq<char>)
    ensures
        matching_lines(Seq::empty(), body) == lines(body),
{
    let s = lines(body);
    assert forall|i: int| 0 <= i < s.len() implies has_query(Seq::empty())(#[trigger] s[i]) by {
        assert(s[i].subrange(0, 0) =~= Seq::<char>::empty());
        assert(occurs_at(s[i], Seq::empty(), 0));
    }
    lemma_filter_keeps_all(s, has_query(Seq::empty()));
}

/// An empty body has no matches, whatever the query.
pub proof fn lemma_empty_body_matches_nothing(query: Seq<char>)
    ensures
        matching_lines(query, Seq::empty()) == Seq::<Seq<char>>::empty(),
        matching_lines_folded(query, Seq::empty()) == Seq::<Seq<char>>::empty(),
{
    let s = lines(Seq::empty());
    assert(s =~= Seq::<Seq<char>>::empty());
    reveal(Seq::filter);
}

} // verus!
