//! What totals and aggregations are over: the whole domain of a request,
//! never its page or what comes after its cursor.

use crate::collection::SchemaV;
use crate::exec::order;
use crate::exec::order::{EffectiveSort, RankMode};
use crate::exec::plan;
use crate::exec::plan::{ContextV, FieldClass};
use crate::exec::planner;
use crate::exec::planner::{AggDomain, DomainV, Event, StageV};
use crate::exec::schema;
use crate::exec::schema::{Ranked, RankedV};
use crate::float;
use crate::ir;
use crate::ir::SearchRequest;
use crate::query;
use crate::query::QueryV;
use vstd::prelude::*;

verus! {

/// Whether two requests are equal but for their offset, limit and cursor.
pub open spec fn same_but_page(a: SearchRequest, b: SearchRequest) -> bool {
    b == (SearchRequest {
        offset: b.offset,
        limit: b.limit,
        search_after: b.search_after,
        ..a
    })
}

/// Whether a sort is the effective one of a request.
pub open spec fn is_sort_of(sort: EffectiveSort, request: SearchRequest) -> bool {
    let listed = ir::sort_key_views(request.sort@);
    let mode = order::mode_of(listed, request.retrievers@.len());
    sort.mode == mode && order::keys_of(sort) == order::effective_keys(listed, mode)
}

/// The stage of a search after some events.
pub open spec fn stage_after(
    request: SearchRequest,
    sort: EffectiveSort,
    max_window: nat,
    events: Seq<Event>,
) -> StageV
    decreases events.len(),
{
    if events.len() == 0 {
        planner::first_stage(request, sort, max_window)
    } else {
        planner::next_stage(
            request,
            sort,
            max_window,
            stage_after(request, sort, max_window, events.drop_last()),
            events.last(),
        )
    }
}

/// Whether the hits that a search got are those of its plan.
pub open spec fn got(events: Seq<Event>, hits: Seq<RankedV>) -> bool {
    forall|i: int|
        0 <= i < events.len() ==> ((#[trigger] events[i]) matches Event::Hits(h)
            ==> schema::ranked_views(h@) == hits)
}

/// What planning a request depends on, over a schema and the kinds of its
/// fields.
pub open spec fn context_of(
    request: SearchRequest,
    sort: EffectiveSort,
    of: SchemaV,
    fields: Seq<(Seq<char>, FieldClass)>,
) -> ContextV {
    ContextV {
        schema: of,
        fields,
        score_only: plan::by_score_only(sort),
        filter: query::opt_query(request.filter),
    }
}

/// How many documents a domain has, given how many match a text query under
/// a filter and how many match a filter.
pub open spec fn counted(
    domain: DomainV,
    filter: Option<QueryV>,
    text: spec_fn(QueryV, Option<QueryV>) -> u64,
    rows: spec_fn(Option<QueryV>) -> u64,
) -> u64 {
    match domain {
        DomainV::Text(q) => text(q, filter),
        DomainV::Filter => rows(filter),
        DomainV::Candidates(hits) => hits.len() as u64,
    }
}

/// The hits at or above a score threshold.
pub open spec fn passing(s: Seq<RankedV>, threshold: Option<u32>) -> Seq<RankedV>
    decreases s.len(),
{
    if s.len() == 0 {
        s
    } else {
        let before = passing(s.drop_last(), threshold);
        if threshold is None || float::ge32(s.last().score, threshold->0) {
            before.push(s.last())
        } else {
            before
        }
    }
}

proof fn passing_is(hits: Seq<Ranked>, threshold: Option<u32>)
    ensures
        schema::ranked_views(planner::at_threshold(hits, threshold)) == passing(
            schema::ranked_views(hits),
            threshold,
        ),
    decreases hits.len(),
{
    let views = schema::ranked_views(hits);
    assert(views.len() == hits.len());
    if hits.len() == 0 {
        assert(schema::ranked_views(planner::at_threshold(hits, threshold)) =~= passing(
            views,
            threshold,
        ));
    } else {
        passing_is(hits.drop_last(), threshold);
        assert(schema::ranked_views(hits.drop_last()) =~= views.drop_last());
        assert(views.last() == hits.last()@);
        let before = planner::at_threshold(hits.drop_last(), threshold);
        assert(schema::ranked_views(before.push(hits.last())) =~= schema::ranked_views(
            before,
        ).push(hits.last()@));
    }
}

/// The domain that a search ends with.
pub open spec fn domain_of(request: SearchRequest, mode: RankMode, hits: Seq<RankedV>) -> DomainV {
    match mode {
        RankMode::Field => planner::field_domain(request),
        RankMode::Score => planner::score_domain(
            request,
            passing(hits, request.score_threshold),
        ),
    }
}

proof fn ends_with_its_domain(
    request: SearchRequest,
    sort: EffectiveSort,
    max_window: nat,
    events: Seq<Event>,
    hits: Seq<RankedV>,
)
    requires
        sort.mode == RankMode::Score ==> got(events, hits),
    ensures
        match stage_after(request, sort, max_window, events) {
            StageV::Ready { domain, .. } => domain == domain_of(request, sort.mode, hits),
            StageV::Ranking => sort.mode == RankMode::Score,
            _ => sort.mode == RankMode::Field,
        },
    decreases events.len(),
{
    if events.len() > 0 {
        let before = events.drop_last();
        assert(events[events.len() - 1] == events.last());
        assert forall|i: int| 0 <= i < before.len() implies #[trigger] before[i] == events[i] by {}
        ends_with_its_domain(request, sort, max_window, before, hits);
        match events.last() {
            Event::Hits(h) => {
                passing_is(h@, request.score_threshold);
            },
            _ => {},
        }
    }
}

/// Requests that are equal but for their offset, limit and cursor have one
/// plan, one domain, one total and one aggregation domain, whatever windows
/// their searches went through: `hits` are the hits of their plan, `text`
/// and `rows` how many documents of the view match.
pub proof fn totals_are_of_no_page(
    a: SearchRequest,
    b: SearchRequest,
    sort_a: EffectiveSort,
    sort_b: EffectiveSort,
    max_window: nat,
    events_a: Seq<Event>,
    events_b: Seq<Event>,
    hits: Seq<RankedV>,
    text: spec_fn(QueryV, Option<QueryV>) -> u64,
    rows: spec_fn(Option<QueryV>) -> u64,
)
    requires
        same_but_page(a, b),
        is_sort_of(sort_a, a),
        is_sort_of(sort_b, b),
        sort_a.mode == RankMode::Score ==> got(events_a, hits) && got(events_b, hits),
        stage_after(a, sort_a, max_window, events_a) is Ready,
        stage_after(b, sort_b, max_window, events_b) is Ready,
    ensures
        forall|of: SchemaV, fields: Seq<(Seq<char>, FieldClass)>| #[trigger]
            plan::rooted(
                context_of(a, sort_a, of, fields),
                ir::retriever_views(a.retrievers@),
                plan::opt_fusion(a.fusion),
            ) == plan::rooted(
                context_of(b, sort_b, of, fields),
                ir::retriever_views(b.retrievers@),
                plan::opt_fusion(b.fusion),
            ),
        ({
            let x = stage_after(a, sort_a, max_window, events_a)->domain;
            let y = stage_after(b, sort_b, max_window, events_b)->domain;
            let f = query::opt_query(a.filter);
            let g = query::opt_query(b.filter);
            &&& x == y
            &&& planner::total_as(a.track_total_hits, counted(x, f, text, rows))
                == planner::total_as(b.track_total_hits, counted(y, g, text, rows))
            &&& forall|d: AggDomain| #[trigger]
                planner::is_agg_domain(d, x, f) == planner::is_agg_domain(d, y, g)
        }),
{
    ends_with_its_domain(a, sort_a, max_window, events_a, hits);
    ends_with_its_domain(b, sort_b, max_window, events_b, hits);
    assert forall|of: SchemaV, fields: Seq<(Seq<char>, FieldClass)>| #[trigger]
        context_of(a, sort_a, of, fields) == context_of(b, sort_b, of, fields) by {}
}

} // verus!
