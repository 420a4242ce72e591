//! The search planner: how a request's candidates are found, ordered, cut
//! to a page, counted and aggregated; and how scrolls continue.
//!
//! [`SearchRun`] holds the decisions of one search. Its owner performs what
//! [`SearchRun::ask`] says, hands the outcome to [`SearchRun::on`], and
//! stops when the candidates are ready.

use crate::exec::fusion;
use crate::exec::mask;
use crate::exec::mask::RowSet;
use crate::exec::order::{EffectiveSort, RankMode};
use crate::exec::schema;
use crate::exec::schema::{Ranked, RankedV};
use crate::exec::tail_merge;
use crate::exec::tantivy_search;
use crate::float;
use crate::ir::{Retriever, SearchRequest, TotalHits, TotalRelation, TrackTotalHits};
use crate::key::{Key, PrimaryKey};
use crate::math;
use crate::ordering;
use crate::query;
use crate::query::{Query, QueryV};
use roaring::RoaringTreemap;
use vstd::prelude::*;

verus! {

/// How searches are planned and bounded.
#[derive(Clone, Copy, Debug)]
pub struct SearchConfig {
    /// The most matches that one request may look at.
    pub max_window: usize,
    /// Splits opened and searched at a time.
    pub parallelism: usize,
    /// A scroll filter with at most this many durable matches sorts them.
    pub scroll_sort_threshold: u64,
    pub pk_dict_cache_bytes: u64,
    pub stats_cache_entries: u64,
    /// Bytes of an aggregation collector.
    pub agg_memory_limit: u64,
    /// Buckets of an aggregation.
    pub agg_bucket_limit: u32,
}

impl SearchConfig {
    /// The default configuration with a window.
    pub fn with_window(max_window: usize) -> (r: SearchConfig)
        ensures
            r == (SearchConfig {
                max_window,
                parallelism: 8,
                scroll_sort_threshold: 100_000,
                pk_dict_cache_bytes: 268_435_456,
                stats_cache_entries: 1_000_000,
                agg_memory_limit: 500_000_000,
                agg_bucket_limit: 65_000,
            }),
    {
        SearchConfig {
            max_window,
            parallelism: 8,
            scroll_sort_threshold: 100_000,
            pk_dict_cache_bytes: 268_435_456,
            stats_cache_entries: 1_000_000,
            agg_memory_limit: 500_000_000,
            agg_bucket_limit: 65_000,
        }
    }
}

/// Plans and runs searches under one configuration.
#[derive(Clone, Copy, Debug)]
pub struct SearchPlanner {
    config: SearchConfig,
}

impl SearchPlanner {
    /// The configuration of the planner.
    pub closed spec fn configured(&self) -> SearchConfig {
        self.config
    }

    /// A planner with a configuration.
    pub fn new(config: SearchConfig) -> (r: SearchPlanner)
        ensures
            r.configured() == config,
    {
        SearchPlanner { config }
    }

    /// The configuration of the planner.
    pub fn config(&self) -> (r: &SearchConfig)
        ensures
            *r == self.configured(),
    {
        &self.config
    }
}

/// What the candidates of a request are, for totals and aggregations.
pub enum Domain {
    /// Every match of a text query under the filter.
    Text(Query),
    /// Every match of the filter.
    Filter,
    /// The candidates after the score threshold.
    Candidates(Vec<Ranked>),
}

/// What a domain is.
pub enum DomainV {
    Text(QueryV),
    Filter,
    Candidates(Seq<RankedV>),
}

impl View for Domain {
    type V = DomainV;

    open spec fn view(&self) -> DomainV {
        match self {
            Domain::Text(q) => DomainV::Text(q@),
            Domain::Filter => DomainV::Filter,
            Domain::Candidates(v) => DomainV::Candidates(schema::ranked_views(v@)),
        }
    }
}

/// The query of a search by fields: the first retriever's when it is a text
/// one, else everything.
pub open spec fn field_query(s: Seq<Retriever>) -> QueryV {
    if s.len() > 0 {
        match s[0] {
            Retriever::Text { query, .. } => query@,
            _ => QueryV::MatchAll,
        }
    } else {
        QueryV::MatchAll
    }
}

/// The query of a search by fields.
pub fn query_by_field(retrievers: &Vec<Retriever>) -> (r: Query)
    ensures
        r@ == field_query(retrievers@),
{
    if retrievers.len() > 0 {
        match &retrievers[0] {
            Retriever::Text { query, .. } => query.copy(),
            _ => Query::MatchAll,
        }
    } else {
        Query::MatchAll
    }
}

/// The first window of a search by fields: the page, and at least as much
/// as would fill the groups, within the largest window.
pub open spec fn first_window(request: SearchRequest, max_window: nat) -> nat {
    let page = (request.offset + request.limit) as nat;
    match request.group_by {
        Some(g) => math::most(
            page as int,
            math::least(cut_usize(g.limit * g.group_size) as int, max_window as int),
        ) as nat,
        None => page,
    }
}

/// A number, cut to the largest length.
pub open spec fn cut_usize(n: int) -> usize {
    if n > usize::MAX {
        usize::MAX
    } else {
        n as usize
    }
}

fn sat_mul_usize(a: usize, b: usize) -> (r: usize)
    ensures
        r == cut_usize(a * b),
{
    proof {
        assert(0 <= a * b <= 0xffff_ffff_ffff_ffff * 0xffff_ffff_ffff_ffff) by (nonlinear_arith)
            requires
                0 <= a <= 0xffff_ffff_ffff_ffff,
                0 <= b <= 0xffff_ffff_ffff_ffff,
        ;
    }
    let p: u128 = (a as u128) * (b as u128);
    if p > usize::MAX as u128 {
        usize::MAX
    } else {
        p as usize
    }
}

/// Where a search is.
pub enum Stage {
    /// A search by fields of a window of matches.
    Window { window: usize },
    /// The matches of a window are being grouped.
    Grouping { window: usize, hits: Vec<Ranked> },
    /// A search by score.
    Ranking,
    /// The candidates in order; whether they were grouped already.
    Ready { candidates: Vec<Ranked>, domain: Domain, grouped: bool },
}

/// What a stage is.
pub enum StageV {
    Window { window: usize },
    Grouping { window: usize, hits: Seq<RankedV> },
    Ranking,
    Ready { candidates: Seq<RankedV>, domain: DomainV, grouped: bool },
}

impl View for Stage {
    type V = StageV;

    open spec fn view(&self) -> StageV {
        match self {
            Stage::Window { window } => StageV::Window { window: *window },
            Stage::Grouping { window, hits } => StageV::Grouping {
                window: *window,
                hits: schema::ranked_views(hits@),
            },
            Stage::Ranking => StageV::Ranking,
            Stage::Ready { candidates, domain, grouped } => StageV::Ready {
                candidates: schema::ranked_views(candidates@),
                domain: domain@,
                grouped: *grouped,
            },
        }
    }
}

/// What came back.
pub enum Event {
    /// The ranked hits.
    Hits(Vec<Ranked>),
    /// Whether the groups of the hits are full.
    Grouped { full: bool },
}

/// What a search asks for next.
#[derive(Clone, Copy, Debug, PartialEq, Eq, Structural)]
pub enum Ask {
    /// The first matches of the field query in the effective order.
    Matches { window: usize },
    /// The groups of the matches.
    Groups,
    /// The hits of the request's plan.
    Ranked,
    Nothing,
}

/// The hits at or above a score threshold.
pub open spec fn at_threshold(s: Seq<Ranked>, threshold: Option<u32>) -> Seq<Ranked>
    decreases s.len(),
{
    if s.len() == 0 {
        s
    } else {
        let before = at_threshold(s.drop_last(), threshold);
        if threshold is None || float::ge32(s.last().score, threshold->0) {
            before.push(s.last())
        } else {
            before
        }
    }
}

fn keep_at_threshold(hits: Vec<Ranked>, threshold: Option<u32>) -> (r: Vec<Ranked>)
    ensures
        r@ == at_threshold(hits@, threshold),
{
    let ghost all = hits@;
    let mut out: Vec<Ranked> = Vec::new();
    for hit in it: hits
        invariant
            it.seq() == all,
            out@ == at_threshold(all.take(it.index() as int), threshold),
    {
        proof {
            let n = it.index() as int;
            assert(all.take(n + 1).drop_last() =~= all.take(n));
            assert(all.take(n + 1).last() == hit);
        }
        let keep = match threshold {
            None => true,
            Some(t) => float::at_least32(hit.score, t),
        };
        if keep {
            out.push(hit);
        }
    }
    proof {
        assert(all.take(all.len() as int) =~= all);
    }
    out
}

/// The domain of a search by score: the matches of its one text query when
/// no threshold cuts them, else the candidates that pass the threshold.
pub open spec fn score_domain(request: SearchRequest, hits: Seq<RankedV>) -> DomainV {
    if request.retrievers@.len() == 1 && request.score_threshold is None {
        match request.retrievers@[0] {
            Retriever::Text { query, .. } => DomainV::Text(query@),
            _ => DomainV::Candidates(hits),
        }
    } else {
        DomainV::Candidates(hits)
    }
}

/// The candidates of a search by score: the hits that pass the threshold
/// and come after `search_after`, in the effective order.
pub open spec fn score_candidates(request: SearchRequest, sort: EffectiveSort, hits: Seq<Ranked>)
    -> Seq<Ranked> {
    ordering::sorted(
        sort,
        tantivy_search::hits_after(
            at_threshold(hits, request.score_threshold),
            sort,
            tantivy_search::after_views(request.search_after),
        ),
    )
}

/// The domain of a search by fields.
pub open spec fn field_domain(request: SearchRequest) -> DomainV {
    if request.retrievers@.len() == 0 {
        DomainV::Filter
    } else {
        DomainV::Text(field_query(request.retrievers@))
    }
}

/// The stage of a search that begins.
pub open spec fn first_stage(request: SearchRequest, sort: EffectiveSort, max_window: nat) -> StageV {
    match sort.mode {
        RankMode::Field => StageV::Window { window: first_window(request, max_window) as usize },
        RankMode::Score => StageV::Ranking,
    }
}

/// The stage after an event; an event that the stage does not wait for
/// changes nothing.
pub open spec fn next_stage(
    request: SearchRequest,
    sort: EffectiveSort,
    max_window: nat,
    stage: StageV,
    event: Event,
) -> StageV {
    match (stage, event) {
        (StageV::Window { window }, Event::Hits(hits)) => if request.group_by is None {
            StageV::Ready {
                candidates: schema::ranked_views(hits@),
                domain: field_domain(request),
                grouped: false,
            }
        } else {
            StageV::Grouping { window, hits: schema::ranked_views(hits@) }
        },
        (StageV::Grouping { window, hits }, Event::Grouped { full }) => if hits.len() < window
            || window >= max_window || full {
            StageV::Ready { candidates: hits, domain: field_domain(request), grouped: true }
        } else {
            StageV::Window {
                window: math::least(cut_usize(window * 2) as int, max_window as int) as usize,
            }
        },
        (StageV::Ranking, Event::Hits(hits)) => StageV::Ready {
            candidates: schema::ranked_views(score_candidates(request, sort, hits@)),
            domain: score_domain(
                request,
                schema::ranked_views(at_threshold(hits@, request.score_threshold)),
            ),
            grouped: false,
        },
        _ => stage,
    }
}

/// One search: its request, its order, and where it is.
pub struct SearchRun {
    pub request: SearchRequest,
    pub sort: EffectiveSort,
    pub max_window: usize,
    pub stage: Stage,
}

impl SearchRun {
    /// A search that begins. The page of the request fits in a length.
    pub fn begin(request: SearchRequest, sort: EffectiveSort, max_window: usize) -> (r: SearchRun)
        requires
            request.offset + request.limit <= usize::MAX,
        ensures
            r.request == request,
            r.sort == sort,
            r.max_window == max_window,
            r.stage@ == first_stage(request, sort, max_window as nat),
    {
        let stage = match sort.mode {
            RankMode::Field => {
                let page: usize = request.offset + request.limit;
                let window: usize = match &request.group_by {
                    Some(g) => {
                        let all: usize = sat_mul_usize(g.limit, g.group_size);
                        let fill: usize = if all <= max_window {
                            all
                        } else {
                            max_window
                        };
                        if page >= fill {
                            page
                        } else {
                            fill
                        }
                    },
                    None => page,
                };
                Stage::Window { window }
            },
            RankMode::Score => Stage::Ranking,
        };
        SearchRun { request, sort, max_window, stage }
    }

    /// What the search asks for.
    pub fn ask(&self) -> (r: Ask)
        ensures
            r == (match self.stage@ {
                StageV::Window { window } => Ask::Matches { window },
                StageV::Grouping { .. } => Ask::Groups,
                StageV::Ranking => Ask::Ranked,
                StageV::Ready { .. } => Ask::Nothing,
            }),
    {
        match &self.stage {
            Stage::Window { window } => Ask::Matches { window: *window },
            Stage::Grouping { .. } => Ask::Groups,
            Stage::Ranking => Ask::Ranked,
            Stage::Ready { .. } => Ask::Nothing,
        }
    }

    fn domain_by_field(request: &SearchRequest) -> (r: Domain)
        ensures
            r@ == field_domain(*request),
    {
        if request.retrievers.len() == 0 {
            Domain::Filter
        } else {
            Domain::Text(query_by_field(&request.retrievers))
        }
    }

    fn domain_by_score(request: &SearchRequest, hits: &Vec<Ranked>) -> (r: Domain)
        ensures
            r@ == score_domain(*request, schema::ranked_views(hits@)),
    {
        if request.retrievers.len() == 1 && request.score_threshold.is_none() {
            match &request.retrievers[0] {
                Retriever::Text { query, .. } => Domain::Text(query.copy()),
                _ => Domain::Candidates(schema::copy_ranked(hits)),
            }
        } else {
            Domain::Candidates(schema::copy_ranked(hits))
        }
    }

    /// The search after an event.
    pub fn on(self, event: Event) -> (r: SearchRun)
        ensures
            r.request == self.request,
            r.sort == self.sort,
            r.max_window == self.max_window,
            r.stage@ == next_stage(
                self.request,
                self.sort,
                self.max_window as nat,
                self.stage@,
                event,
            ),
    {
        let SearchRun { request, sort, max_window, stage } = self;
        let next = match (stage, event) {
            (Stage::Window { window }, Event::Hits(hits)) => {
                if request.group_by.is_none() {
                    Stage::Ready {
                        candidates: hits,
                        domain: Self::domain_by_field(&request),
                        grouped: false,
                    }
                } else {
                    Stage::Grouping { window, hits }
                }
            },
            (Stage::Grouping { window, hits }, Event::Grouped { full }) => {
                if hits.len() < window || window >= max_window || full {
                    Stage::Ready {
                        candidates: hits,
                        domain: Self::domain_by_field(&request),
                        grouped: true,
                    }
                } else {
                    let twice: usize = sat_mul_usize(window, 2);
                    let window: usize = if twice <= max_window {
                        twice
                    } else {
                        max_window
                    };
                    Stage::Window { window }
                }
            },
            (Stage::Ranking, Event::Hits(hits)) => {
                let passed = keep_at_threshold(hits, request.score_threshold);
                let domain = Self::domain_by_score(&request, &passed);
                let after = tantivy_search::keep_after(passed, &sort, &request.search_after);
                let candidates = ordering::sort(&sort, after);
                Stage::Ready { candidates, domain, grouped: false }
            },
            (stage, _) => stage,
        };
        SearchRun { request, sort, max_window, stage: next }
    }
}

/// A window that is asked for again is wider than before, and within the
/// largest one, so that a search ends.
pub proof fn windows_grow(
    request: SearchRequest,
    sort: EffectiveSort,
    max_window: nat,
    window: usize,
    hits: Seq<RankedV>,
    full: bool,
)
    requires
        max_window <= usize::MAX,
        window > 0,
    ensures
        next_stage(
            request,
            sort,
            max_window,
            StageV::Grouping { window, hits },
            Event::Grouped { full },
        ) matches StageV::Window { window: next } ==> window < next <= max_window,
{
}

/// The page of some candidates.
pub open spec fn page(s: Seq<RankedV>, offset: nat, limit: nat) -> Seq<RankedV> {
    let from = math::least(offset as int, s.len() as int);
    let to = math::least(from + limit, s.len() as int);
    s.subrange(from, to)
}

/// The candidates of a page: from `offset` on, at most `limit`.
pub fn page_of(candidates: &Vec<Ranked>, offset: usize, limit: usize) -> (r: Vec<Ranked>)
    ensures
        schema::ranked_views(r@) == page(
            schema::ranked_views(candidates@),
            offset as nat,
            limit as nat,
        ),
{
    let ghost all = schema::ranked_views(candidates@);
    let from: usize = if offset <= candidates.len() {
        offset
    } else {
        candidates.len()
    };
    let to: usize = if limit <= candidates.len() - from {
        from + limit
    } else {
        candidates.len()
    };
    let mut out: Vec<Ranked> = Vec::new();
    let mut i: usize = from;
    while i < to
        invariant
            from <= i <= to <= candidates@.len(),
            out@.len() == i - from,
            forall|j: int| 0 <= j < out@.len() ==> (#[trigger] out@[j])@ == candidates@[from + j]@,
        decreases to - i,
    {
        out.push(candidates[i].copy());
        i += 1;
    }
    proof {
        assert(schema::ranked_views(out@) =~= page(all, offset as nat, limit as nat));
    }
    out
}

/// A total as a request wants it: none, exact, or a lower bound when there
/// are more matches than it counts.
pub open spec fn total_as(track: TrackTotalHits, count: u64) -> Option<TotalHits> {
    match track {
        TrackTotalHits::Never => None,
        TrackTotalHits::Exact => Some(TotalHits { value: count, relation: TotalRelation::Eq }),
        TrackTotalHits::UpTo(n) => if count > n {
            Some(TotalHits { value: n, relation: TotalRelation::Gte })
        } else {
            Some(TotalHits { value: count, relation: TotalRelation::Eq })
        },
    }
}

/// A total as a request wants it: none, exact, or a lower bound when there
/// are more matches than it counts.
pub fn total_hits(track: TrackTotalHits, count: u64) -> (r: Option<TotalHits>)
    ensures
        r == total_as(track, count),
{
    match track {
        TrackTotalHits::Never => None,
        TrackTotalHits::Exact => Some(TotalHits { value: count, relation: TotalRelation::Eq }),
        TrackTotalHits::UpTo(n) => {
            if count > n {
                Some(TotalHits { value: n, relation: TotalRelation::Gte })
            } else {
                Some(TotalHits { value: count, relation: TotalRelation::Eq })
            }
        },
    }
}

/// How many rows match a filter, of `live` rows.
pub fn count_rows(rows: &RowSet, live: u64) -> (r: u64)
    requires
        rows matches RowSet::Rows(t) ==> mask::countable(*t),
    ensures
        r == (match rows {
            RowSet::All => live as nat,
            RowSet::Rows(t) => mask::treemap_rows(*t).len(),
        }),
{
    match rows {
        RowSet::All => live,
        RowSet::Rows(t) => mask::row_count(t),
    }
}

/// The documents that an aggregation runs over.
pub enum AggDomain {
    /// Every match of a query under a filter.
    Query { query: Query, filter: Option<Query> },
    /// Every match of the filter.
    Filter(Option<Query>),
    Rows(RoaringTreemap),
}

/// The rows of some candidates.
pub open spec fn rows_of(s: Seq<RankedV>) -> Set<u64>
    decreases s.len(),
{
    if s.len() == 0 {
        Set::empty()
    } else {
        rows_of(s.drop_last()).insert(s.last().row_id)
    }
}

/// Whether `a` is the domain of an aggregation.
pub open spec fn is_agg_domain(a: AggDomain, d: DomainV, filter: Option<QueryV>) -> bool {
    match d {
        DomainV::Text(q) => a matches AggDomain::Query { query, filter: f } && query@ == q
            && query::opt_query(f) == filter,
        DomainV::Filter => a matches AggDomain::Filter(f) && query::opt_query(f) == filter,
        DomainV::Candidates(hits) => a matches AggDomain::Rows(t) && mask::treemap_rows(t)
            == rows_of(hits),
    }
}

/// The domain of a request's aggregations.
pub fn agg_domain(domain: &Domain, filter: &Option<Query>) -> (r: AggDomain)
    ensures
        is_agg_domain(r, domain@, query::opt_query(*filter)),
{
    match domain {
        Domain::Text(q) => AggDomain::Query {
            query: q.copy(),
            filter: query::copy_opt_query(filter),
        },
        Domain::Filter => AggDomain::Filter(query::copy_opt_query(filter)),
        Domain::Candidates(hits) => {
            let ghost all = schema::ranked_views(hits@);
            let mut rows = mask::empty_rows();
            let mut i: usize = 0;
            proof {
                assert(all.take(0) =~= Seq::<RankedV>::empty());
            }
            while i < hits.len()
                invariant
                    i <= hits@.len(),
                    all == schema::ranked_views(hits@),
                    mask::treemap_rows(rows) == rows_of(all.take(i as int)),
                decreases hits.len() - i,
            {
                proof {
                    assert(all.take(i as int + 1).drop_last() =~= all.take(i as int));
                    assert(all.take(i as int + 1).last() == hits@[i as int]@);
                }
                mask::add_row(&mut rows, hits[i].row_id);
                i += 1;
            }
            proof {
                assert(all.take(all.len() as int) =~= all);
            }
            AggDomain::Rows(rows)
        },
    }
}

/// How many keys a scroll of `limit` documents reads: one more, to see
/// whether any are left.
pub fn scroll_window(limit: usize) -> (r: usize)
    ensures
        r == cut_usize(limit + 1),
{
    if limit == usize::MAX {
        usize::MAX
    } else {
        limit + 1
    }
}

/// The rows of a scroll page, and the key to go on after when rows are
/// left: that of the page's last row.
pub open spec fn scrolled_page(rows: Seq<(u64, Key)>, limit: nat) -> (
    Seq<(u64, Key)>,
    Option<Key>,
) {
    (
        ordering::kept(rows, limit),
        if rows.len() > limit && limit > 0 {
            Some(rows[limit - 1].1)
        } else {
            None
        },
    )
}

/// The rows of a scroll page, and the key to go on after when rows are
/// left: that of the page's last row.
pub fn scroll_page(rows: Vec<(u64, PrimaryKey)>, limit: usize) -> (r: (
    Vec<(u64, PrimaryKey)>,
    Option<PrimaryKey>,
))
    ensures
        r.0@ == ordering::kept(rows@, limit as nat),
        (tail_merge::row_views(r.0@), tail_merge::opt_key(r.1)) == scrolled_page(
            tail_merge::row_views(rows@),
            limit as nat,
        ),
{
    let more = rows.len() > limit;
    let mut rows = rows;
    let ghost all = rows@;
    if more {
        rows.truncate(limit);
        proof {
            assert(rows@ =~= all.take(limit as int));
        }
    }
    let next = if more && rows.len() > 0 {
        Some(rows[rows.len() - 1].1.clone())
    } else {
        None
    };
    proof {
        assert(tail_merge::row_views(rows@) =~= ordering::kept(
            tail_merge::row_views(all),
            limit as nat,
        ));
    }
    (rows, next)
}

/// The candidates that have a score of their own.
pub open spec fn rescored(s: Seq<RankedV>, scores: Seq<Option<u32>>) -> Seq<RankedV>
    decreases s.len(),
{
    if s.len() == 0 {
        s
    } else {
        let before = rescored(s.drop_last(), scores);
        let n = s.len() - 1;
        if n < scores.len() && scores[n] is Some {
            before.push(RankedV { score: scores[n]->0, ..s.last() })
        } else {
            before
        }
    }
}

/// Candidates with exact scores, without those that have no vector, in rank
/// order, at most `k`.
pub fn rescore(candidates: Vec<Ranked>, scores: &Vec<Option<u32>>, k: usize) -> (r: Vec<Ranked>)
    ensures
        exists|all: Seq<Ranked>|
            schema::ranked_views(all) == rescored(schema::ranked_views(candidates@), scores@)
                && r@ == #[trigger] ordering::kept(
                ordering::sorted(fusion::ByScore, all),
                k as nat,
            ),
        ordering::is_ordered(fusion::ByScore, r@),
{
    let ghost all = candidates@;
    let ghost views = schema::ranked_views(all);
    let mut out: Vec<Ranked> = Vec::new();
    let total: usize = candidates.len();
    let mut i: usize = 0;
    proof {
        assert(views.take(0) =~= Seq::<RankedV>::empty());
        assert(schema::ranked_views(out@) =~= Seq::<RankedV>::empty());
    }
    for hit in it: candidates
        invariant
            it.seq() == all,
            i == it.index(),
            total == all.len(),
            views == schema::ranked_views(all),
            schema::ranked_views(out@) == rescored(views.take(it.index() as int), scores@),
    {
        let ghost was = out@;
        proof {
            assert(views.take(i as int + 1).drop_last() =~= views.take(i as int));
            assert(views.take(i as int + 1).last() == hit@);
        }
        if i < scores.len() {
            match scores[i] {
                Some(score) => {
                    let Ranked { row_id, pk, score: _, sort } = hit;
                    out.push(Ranked { row_id, pk, score, sort });
                    proof {
                        assert(schema::ranked_views(out@) =~= schema::ranked_views(was).push(
                            RankedV { score, ..views[i as int] },
                        ));
                    }
                },
                None => {},
            }
        }
        i = i + 1;
    }
    proof {
        assert(views.take(views.len() as int) =~= views);
    }
    let ghost scored = out@;
    let r = fusion::rank_fused(out, k);
    assert(r@ == ordering::kept(ordering::sorted(fusion::ByScore, scored), k as nat));
    r
}

/// The rows of a page as candidates of one score.
pub fn constant_hits(page: Vec<(u64, PrimaryKey)>, score: u32) -> (r: Vec<Ranked>)
    ensures
        r@.len() == page@.len(),
        forall|i: int|
            0 <= i < r@.len() ==> (#[trigger] r@[i]).row_id == page@[i].0 && r@[i].pk@
                == page@[i].1@ && r@[i].score == score && r@[i].sort@.len() == 0,
{
    let ghost all = page@;
    let mut out: Vec<Ranked> = Vec::new();
    for row in it: page
        invariant
            it.seq() == all,
            out@.len() == it.index(),
            forall|i: int|
                0 <= i < out@.len() ==> (#[trigger] out@[i]).row_id == all[i].0 && out@[i].pk@
                    == all[i].1@ && out@[i].score == score && out@[i].sort@.len() == 0,
    {
        let (row_id, pk) = row;
        out.push(Ranked { row_id, pk, score, sort: Vec::new() });
    }
    out
}

} // verus!
