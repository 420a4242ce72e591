//! What a search counts and aggregates: just the documents that match it.

use crate::exec::planner;
use crate::exec::planner::{AggDomain, DomainV};
use crate::exec::mask;
use crate::exec::schema::RankedV;
use crate::ir::{Retriever, SearchRequest};
use crate::meaning;
use crate::meaning::DocV;
use crate::query;
use crate::query::QueryV;
use vstd::prelude::*;

verus! {

/// Whether a request with text retrievers wants a document: one that passes
/// its filter and matches its text queries.
pub open spec fn wants(
    request: SearchRequest,
    d: DocV,
    words: spec_fn(QueryV, DocV) -> bool,
) -> bool {
    &&& meaning::passes(query::opt_query(request.filter), d, words)
    &&& forall|i: int|
        0 <= i < request.retrievers@.len() ==> (#[trigger] request.retrievers@[i] matches Retriever::Text {
            query,
            ..
        } ==> meaning::finds(query@, d, words))
}

/// Whether a domain has a document at a row: a match of its query under the
/// request's filter, of the filter alone, or one of some candidates.
pub open spec fn holds(
    domain: DomainV,
    filter: Option<QueryV>,
    d: DocV,
    row: u64,
    words: spec_fn(QueryV, DocV) -> bool,
) -> bool {
    match domain {
        DomainV::Text(q) => meaning::finds(q, d, words) && meaning::passes(filter, d, words),
        DomainV::Filter => meaning::passes(filter, d, words),
        DomainV::Candidates(hits) => exists|i: int|
            0 <= i < hits.len() && (#[trigger] hits[i]).row_id == row,
    }
}

/// Whether an aggregation runs over a document at a row.
pub open spec fn runs_over(
    a: AggDomain,
    d: DocV,
    row: u64,
    words: spec_fn(QueryV, DocV) -> bool,
) -> bool {
    match a {
        AggDomain::Query { query, filter } => meaning::finds(query@, d, words) && meaning::passes(
            query::opt_query(filter),
            d,
            words,
        ),
        AggDomain::Filter(filter) => meaning::passes(query::opt_query(filter), d, words),
        AggDomain::Rows(t) => mask::treemap_rows(t).contains(row),
    }
}

/// Whether a request has at most one retriever, of text.
pub open spec fn is_textual(request: SearchRequest) -> bool {
    &&& request.retrievers@.len() <= 1
    &&& forall|i: int| 0 <= i < request.retrievers@.len() ==> #[trigger] request.retrievers@[i] is Text
}

/// A search by fields reads, counts and aggregates just the documents that
/// its request wants.
pub proof fn field_searches_are_over_what_is_wanted(
    request: SearchRequest,
    d: DocV,
    row: u64,
    words: spec_fn(QueryV, DocV) -> bool,
)
    requires
        is_textual(request),
    ensures
        ({
            let filter = query::opt_query(request.filter);
            &&& (meaning::finds(planner::field_query(request.retrievers@), d, words)
                && meaning::passes(filter, d, words)) == wants(request, d, words)
            &&& holds(planner::field_domain(request), filter, d, row, words) == wants(
                request,
                d,
                words,
            )
        }),
{
    if request.retrievers@.len() == 1 {
        assert(request.retrievers@[0] is Text);
    }
}

/// A search by score counts and aggregates, where it has one text query and
/// no threshold, every document that its request wants, and else just the
/// candidates.
pub proof fn score_searches_are_over_what_is_wanted(
    request: SearchRequest,
    hits: Seq<RankedV>,
    d: DocV,
    row: u64,
    words: spec_fn(QueryV, DocV) -> bool,
)
    ensures
        ({
            let domain = planner::score_domain(request, hits);
            let has = holds(domain, query::opt_query(request.filter), d, row, words);
            if request.retrievers@.len() == 1 && is_textual(request) && request.score_threshold is None {
                has == wants(request, d, words)
            } else {
                has == exists|i: int| 0 <= i < hits.len() && (#[trigger] hits[i]).row_id == row
            }
        }),
{
    if request.retrievers@.len() == 1 {
        if request.retrievers@[0] is Text {
            assert(is_textual(request));
        }
    }
}

proof fn rows_are_of_hits(hits: Seq<RankedV>, row: u64)
    ensures
        planner::rows_of(hits).contains(row) <==> exists|i: int|
            0 <= i < hits.len() && (#[trigger] hits[i]).row_id == row,
    decreases hits.len(),
{
    if hits.len() > 0 {
        let t = hits.drop_last();
        rows_are_of_hits(t, row);
        assert(hits[hits.len() - 1] == hits.last());
        if planner::rows_of(t).contains(row) {
            let i = choose|i: int| 0 <= i < t.len() && (#[trigger] t[i]).row_id == row;
            assert(hits[i] == t[i]);
        }
        if exists|i: int| 0 <= i < hits.len() && (#[trigger] hits[i]).row_id == row {
            let i = choose|i: int| 0 <= i < hits.len() && (#[trigger] hits[i]).row_id == row;
            if i < t.len() {
                assert(t[i] == hits[i]);
            }
        }
    }
}

/// An aggregation runs over just the documents of the request's domain.
pub proof fn aggregations_run_over_the_domain(
    a: AggDomain,
    domain: DomainV,
    filter: Option<QueryV>,
    d: DocV,
    row: u64,
    words: spec_fn(QueryV, DocV) -> bool,
)
    requires
        planner::is_agg_domain(a, domain, filter),
    ensures
        runs_over(a, d, row, words) == holds(domain, filter, d, row, words),
{
    if let DomainV::Candidates(hits) = domain {
        rows_are_of_hits(hits, row);
    }
}

} // verus!
