use vstd::prelude::*;
use crate::config::Config;
use crate::text::{contains, contains_str, lines, split_lines, views};

verus! {

/// The test that a line contains `query`.
pub open spec fn has_query(query: Seq<char>) -> spec_fn(Seq<char>) -> bool {
    |l: Seq<char>| contains(l, query)
}

/// The lines of `body` that contain `query`, in the order of `body`.
pub open spec fn matching_lines(query: Seq<char>, body: Seq<char>) -> Seq<Seq<char>> {
    lines(body).filter(has_query(query))
}

/// The lowercase form of a text, as `str::to_lowercase` computes it.
pub uninterp spec fn lower_of(s: Seq<char>) -> Seq<char>;

/// The test that the lowercase form of a line contains the lowercase form
/// of `query`.
pub open spec fn has_query_folded(query: Seq<char>) -> spec_fn(Seq<char>) -> bool {
    |l: Seq<char>| contains(lower_of(l), lower_of(query))
}

/// The lines of `body` whose lowercase form contains the lowercase form of
/// `query`, unchanged and in the order of `body`.
pub open spec fn matching_lines_folded(query: Seq<char>, body: Seq<char>) -> Seq<Seq<char>> {
    lines(body).filter(has_query_folded(query))
}

/// Relies on `str::to_lowercase`: the full Unicode lowercase mapping,
/// which depends on the characters of the text alone.
#[verifier::external_body]
fn lowercase(s: &str) -> (r: String)
    ensures
        r@ == lower_of(s@),
{
    s.to_lowercase()
}

/// The lines of `contents` that contain `query` exactly, in order. Each
/// line is a slice of `contents`, without its line ending.
pub fn search<'a>(query: &str, contents: &'a str) -> (r: Vec<&'a str>)
    ensures
        views(r@) == matching_lines(query@, contents@),
{
    let all = split_lines(contents);
    let mut results: Vec<&'a str> = Vec::new();
    let mut k: usize = 0;
    while k < all.len()
        invariant
            k <= all.len(),
            views(all@) == lines(contents@),
            views(results@) == views(all@).take(k as int).filter(has_query(query@)),
        decreases all.len() - k,
    {
        let line = all[k];
        if contains_str(line, query) {
            results.push(line);
        }
        proof {
            assert(views(all@).take(k + 1) =~= views(all@).take(k as int).push(line@));
            views(all@).take(k as int).lemma_filter_push(line@, has_query(query@));
            assert(views(results@) =~= views(all@).take(k + 1).filter(has_query(query@)));
        }
        k = k + 1;
    }
    proof {
        assert(views(all@).take(k as int) =~= views(all@));
    }
    results
}

/// The lines of `contents` that contain `query` when both are lowercased,
/// in order. Each line is returned as it stands in `contents`.
pub fn search_case_insensitive<'a>(query: &str, contents: &'a str) -> (r: Vec<&'a str>)
    ensures
        views(r@) == matching_lines_folded(query@, contents@),
{
    let folded_query = lowercase(query);
    let all = split_lines(contents);
    let mut results: Vec<&'a str> = Vec::new();
    let mut k: usize = 0;
    while k < all.len()
        invariant
            k <= all.len(),
            views(all@) == lines(contents@),
            folded_query@ == lower_of(query@),
            views(results@) == views(all@).take(k as int).filter(has_query_folded(query@)),
        decreases all.len() - k,
    {
        let line = all[k];
        let folded_line = lowercase(line);
        if contains_str(folded_line.as_str(), folded_query.as_str()) {
            results.push(line);
        }
        proof {
            assert(views(all@).take(k + 1) =~= views(all@).take(k as int).push(line@));
            views(all@).take(k as int).lemma_filter_push(line@, has_query_folded(query@));
            assert(views(results@) =~= views(all@).take(k + 1).filter(has_query_folded(query@)));
        }
        k = k + 1;
    }
    proof {
        assert(views(all@).take(k as int) =~= views(all@));
    }
    results
}

/// The lines of `contents` that the search set up by `config` finds:
/// exact matches of the query, or matches regardless of case when
/// `config` asks for that.
pub fn find_matches<'a>(config: &Config, contents: &'a str) -> (r: Vec<&'a str>)
    ensures
        views(r@) == if config.case_sensitive {
            matching_lines(config.query@, contents@)
        } else {
            matching_lines_folded(config.query@, contents@)
        },
{
    if config.case_sensitive {
        search(config.query.as_str(), contents)
    } else {
        search_case_insensitive(config.query.as_str(), contents)
    }
}

} // verus!
