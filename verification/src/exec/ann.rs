//! Dense vector search: how one request is served from a brute-force scan,
//! the hot tier's artifact or the durable index, and merged with the tail.
//!
//! [`AnnRun`] holds the decisions. Its owner performs each [`AnnAction`],
//! hands what came back to [`AnnRun::on`] as an [`AnnEvent`], and stops when
//! the run is done. Shadowed rows never leave a search, and every score was
//! recomputed from the stored vector.

use crate::collection;
use crate::collection::{CollectionSchema, SchemaV};
use crate::error::{Failure, ServiceError};
use crate::exec::mask;
use crate::exec::mask::RowMask;
use crate::exec::schema::Ranked;
use crate::exec::topk;
use crate::exec::topk::Scored;
use crate::ir::{AnnParams, Distance};
use crate::math;
use crate::text;
use roaring::RoaringTreemap;
use vstd::prelude::*;
use vstd::string::*;

verus! {

/// How a dense search was served.
#[derive(Clone, Copy, Debug, PartialEq, Eq, Structural)]
pub enum AnnStrategy {
    Exact,
    BruteForceAllowed,
    Hot,
    Prefilter,
    Postfilter,
}

/// The message for a name that is a sparse vector.
pub open spec fn is_sparse_text(field: Seq<char>) -> Seq<char> {
    field + " is a sparse vector"@
}

/// The message for a query of the wrong length.
pub open spec fn dimension_text(field: Seq<char>, dim: nat, len: nat) -> Seq<char> {
    "vector "@ + field + " has "@ + text::decimal(dim) + " dimensions, the query has "@
        + text::decimal(len)
}

/// Why a dense query of `len` numbers on `field` is refused.
pub open spec fn vector_refusal(s: SchemaV, field: Seq<char>, len: nat) -> Option<Seq<char>> {
    let names = collection::vector_names(s.vectors);
    if text::absent(names, field) {
        if text::absent(collection::sparse_names(s.sparse_vectors), field) {
            Some("unknown vector "@ + field)
        } else {
            Some(is_sparse_text(field))
        }
    } else {
        let i = choose|i: int| text::is_first(names, field, i);
        if s.vectors[i].dim != len {
            Some(dimension_text(field, s.vectors[i].dim as nat, len))
        } else {
            None
        }
    }
}

/// The place in the schema of the dense vector that a query of `len`
/// numbers on `field` searches.
pub fn vector_spec(schema: &CollectionSchema, field: &str, len: usize) -> (r: Result<
    usize,
    ServiceError,
>)
    ensures
        match r {
            Ok(i) => {
                &&& text::is_first(collection::vector_names(schema@.vectors), field@, i as int)
                &&& schema@.vectors[i as int].dim == len
                &&& vector_refusal(schema@, field@, len as nat) is None
            },
            Err(e) => vector_refusal(schema@, field@, len as nat) matches Some(m) && e@
                == Failure::InvalidArgument(m),
        },
{
    let ghost names = collection::vector_names(schema@.vectors);
    match collection::find_vector(&schema.vectors, field) {
        None => {
            match collection::find_sparse(&schema.sparse_vectors, field) {
                Some(_) => Err(
                    ServiceError::InvalidArgument(text::cat2(field, " is a sparse vector")),
                ),
                None => Err(ServiceError::InvalidArgument(text::cat2("unknown vector ", field))),
            }
        },
        Some(i) => {
            proof {
                let j = choose|j: int| text::is_first(names, field@, j);
                assert(text::is_first(names, field@, i as int));
                assert(i == j);
                assert(schema@.vectors[i as int] == schema.vectors@[i as int]@);
            }
            if schema.vectors[i].dim as usize != len {
                let mut m = text::cat3("vector ", field, " has ");
                m.append(text::dec(schema.vectors[i].dim as u64).as_str());
                m.append(" dimensions, the query has ");
                m.append(text::dec(len as u64).as_str());
                Err(ServiceError::InvalidArgument(m))
            } else {
                Ok(i)
            }
        },
    }
}

/// The metric of a search: the override of its parameters, else the
/// vector's.
pub fn metric_of(params: &AnnParams, distance: Distance) -> (r: Distance)
    ensures
        r == (match params.distance {
            Some(d) => d,
            None => distance,
        }),
{
    match params.distance {
        Some(d) => d,
        None => distance,
    }
}

/// Where the durable hits of a request come from.
#[derive(Clone, Copy, Debug, PartialEq, Eq, Structural)]
pub enum AnnPath {
    /// No hit is wanted.
    Nothing,
    /// Brute force.
    Scan(AnnStrategy),
    /// The hot tier or the index.
    Indexed,
}

/// How many partitions of an index a search looks into.
#[derive(Clone, Copy, Debug, PartialEq, Eq, Structural)]
pub enum Probes {
    /// As many as its parameters ask for.
    Asked(u32),
    /// The default for an index whose largest segment has so many.
    Default { partitions: usize },
}

/// The largest of some numbers, zero without any.
pub open spec fn largest(s: Seq<usize>) -> usize
    decreases s.len(),
{
    if s.len() == 0 {
        0
    } else {
        let before = largest(s.drop_last());
        if before > s.last() {
            before
        } else {
            s.last()
        }
    }
}

/// How many partitions a search looks into, given those of each segment of
/// its index; none are known of an index that cannot be read.
pub fn probes(params: &AnnParams, segments: &Vec<usize>) -> (r: Probes)
    ensures
        r == (match params.nprobes {
            Some(n) => Probes::Asked(n),
            None => Probes::Default { partitions: largest(segments@) },
        }),
{
    if let Some(n) = params.nprobes {
        return Probes::Asked(n);
    }
    let mut partitions: usize = 0;
    let mut i: usize = 0;
    proof {
        assert(segments@.take(0) =~= Seq::<usize>::empty());
    }
    while i < segments.len()
        invariant
            i <= segments@.len(),
            partitions == largest(segments@.take(i as int)),
        decreases segments.len() - i,
    {
        proof {
            assert(segments@.take(i as int + 1).drop_last() =~= segments@.take(i as int));
        }
        if segments[i] >= partitions {
            partitions = segments[i];
        }
        i += 1;
    }
    proof {
        assert(segments@.take(i as int) =~= segments@);
    }
    Probes::Default { partitions }
}

/// The path of a request, first match wins: none for no hits; a scan
/// without an index, for an exact search, a metric override or a metric
/// that is never indexed; a scan of a filter's few rows; else the index.
pub open spec fn path_of(
    k: nat,
    indexed: bool,
    params: AnnParams,
    distance: Distance,
    allowed: Option<nat>,
    threshold: nat,
) -> AnnPath {
    if k == 0 {
        AnnPath::Nothing
    } else if !indexed || params.exact || params.distance is Some || distance
        == Distance::Manhattan {
        AnnPath::Scan(AnnStrategy::Exact)
    } else if allowed is Some && allowed->0 <= threshold {
        AnnPath::Scan(AnnStrategy::BruteForceAllowed)
    } else {
        AnnPath::Indexed
    }
}

/// The rows that a filter allows, as a set.
pub open spec fn allowed_rows(a: Option<RoaringTreemap>) -> Option<Set<u64>> {
    match a {
        Some(t) => Some(mask::treemap_rows(t)),
        None => None,
    }
}

/// How many retries a run may make.
#[derive(Clone, Copy, Debug)]
pub struct AnnLimits {
    pub hot_overfetch: u64,
    pub hot_retries: u32,
    pub postfilter_retries: u32,
}

/// How the index is searched.
#[derive(Clone, Copy, Debug, PartialEq, Eq, Structural)]
pub enum IndexSearch {
    /// Without a filter, blocking shadowed and covered rows.
    Blocking,
    /// Oversampled, keeping the allowed rows afterwards.
    Post { k1: u64, retries: u32 },
    /// Over the allowed rows only.
    Pre,
}

/// Where a run is.
pub enum Stage {
    Scan(AnnStrategy),
    Hot { k2: u64, retries: u32 },
    Take { live: Vec<u64> },
    /// An index search; with `hot`, of the rows that the artifact does not
    /// cover.
    Index { search: IndexSearch, hot: Option<Vec<Scored>> },
    Done { hits: Vec<Scored>, strategy: AnnStrategy },
}

/// What a stage is.
pub enum StageV {
    Scan(AnnStrategy),
    Hot { k2: u64, retries: u32 },
    Take { live: Seq<u64> },
    Index { search: IndexSearch, hot: Option<Seq<Scored>> },
    Done { hits: Seq<Scored>, strategy: AnnStrategy },
}

/// The hits of a list that may be missing.
pub open spec fn opt_hits(h: Option<Vec<Scored>>) -> Option<Seq<Scored>> {
    match h {
        Some(h) => Some(h@),
        None => None,
    }
}

impl View for Stage {
    type V = StageV;

    open spec fn view(&self) -> StageV {
        match self {
            Stage::Scan(s) => StageV::Scan(*s),
            Stage::Hot { k2, retries } => StageV::Hot { k2: *k2, retries: *retries },
            Stage::Take { live } => StageV::Take { live: live@ },
            Stage::Index { search, hot } => StageV::Index { search: *search, hot: opt_hits(*hot) },
            Stage::Done { hits, strategy } => StageV::Done { hits: hits@, strategy: *strategy },
        }
    }
}

/// What came back from an action.
pub enum AnnEvent {
    /// The best hits of a scan.
    Scanned(Vec<Scored>),
    /// How many hits the hot artifact returned, and the rows among them
    /// that are allowed and live.
    Hot { returned: u64, live: Vec<u64> },
    /// The hot artifact failed.
    HotFailed,
    /// The exact scores of the rows taken.
    Taken(Vec<Scored>),
    /// The rescored hits that the mask admits, and how many rows came back.
    Nearest { hits: Vec<Scored>, returned: u64 },
}

/// The parts of a request that its stages share.
pub struct AnnRun {
    pub k: usize,
    /// The durable rows that the filter allows, without shadowed ones.
    pub allowed: Option<RoaringTreemap>,
    pub shadow: RoaringTreemap,
    /// The rows that the hot artifact covers.
    pub covered: RoaringTreemap,
    /// The live durable rows.
    pub durable_rows: u64,
    /// How many rows a postfiltered search asks for first, when the filter
    /// is wide enough for one.
    pub oversampled: Option<u64>,
    pub limits: AnnLimits,
    pub stage: Stage,
}

/// What a run knows, apart from its stage.
pub struct RunV {
    pub k: nat,
    pub allowed: Option<Set<u64>>,
    pub shadow: Set<u64>,
    pub covered: Set<u64>,
    pub durable_rows: u64,
    pub oversampled: Option<u64>,
    pub limits: AnnLimits,
}

/// What `run` knows, apart from its stage.
pub open spec fn facts(run: AnnRun) -> RunV {
    RunV {
        k: run.k as nat,
        allowed: allowed_rows(run.allowed),
        shadow: mask::treemap_rows(run.shadow),
        covered: mask::treemap_rows(run.covered),
        durable_rows: run.durable_rows,
        oversampled: run.oversampled,
        limits: run.limits,
    }
}

/// The end of an index search: merged with the hot hits when there are
/// some.
pub open spec fn index_end(
    f: RunV,
    hot: Option<Seq<Scored>>,
    hits: Seq<Scored>,
    strategy: AnnStrategy,
) -> StageV {
    match hot {
        Some(h) => StageV::Done {
            hits: topk::best_of(h + hits, f.k),
            strategy: AnnStrategy::Hot,
        },
        None => StageV::Done { hits, strategy },
    }
}

/// The rows that an index search may return under a filter.
pub open spec fn searched_rows(f: RunV, hot: bool) -> Set<u64> {
    match f.allowed {
        None => Set::empty(),
        Some(rows) => if hot {
            rows.difference(f.covered)
        } else {
            rows
        },
    }
}

/// The start of an index search, of the uncovered rows when there are hot
/// hits.
pub open spec fn index_start(f: RunV, hot: Option<Seq<Scored>>) -> StageV {
    match f.allowed {
        None => StageV::Index { search: IndexSearch::Blocking, hot },
        Some(_) => if searched_rows(f, hot is Some) =~= Set::empty() {
            index_end(f, hot, Seq::empty(), AnnStrategy::Prefilter)
        } else {
            match f.oversampled {
                Some(wanted) => StageV::Index {
                    search: IndexSearch::Post {
                        k1: math::clamped(
                            wanted as int,
                            1,
                            math::most(f.durable_rows as int, 1),
                        ) as u64,
                        retries: 0,
                    },
                    hot,
                },
                None => StageV::Index { search: IndexSearch::Pre, hot },
            }
        },
    }
}

/// The hits on allowed rows.
pub open spec fn on_rows(hits: Seq<Scored>, rows: Set<u64>) -> Seq<Scored> {
    hits.filter(|h: Scored| rows.contains(h.row_id))
}

/// The stage after an event; an event that the stage does not wait for
/// changes nothing.
pub open spec fn next_stage(f: RunV, stage: StageV, event: AnnEvent) -> StageV {
    match (stage, event) {
        (StageV::Scan(strategy), AnnEvent::Scanned(hits)) => StageV::Done { hits: hits@, strategy },
        (StageV::Hot { .. }, AnnEvent::HotFailed) => index_start(f, None),
        (StageV::Hot { k2, retries }, AnnEvent::Hot { returned, live }) => if live@.len() >= f.k
            || returned < k2 {
            StageV::Take { live: live@ }
        } else if retries >= f.limits.hot_retries {
            index_start(f, None)
        } else {
            StageV::Hot { k2: math::cut64(k2 * 4), retries: (retries + 1) as u32 }
        },
        (StageV::Take { .. }, AnnEvent::Taken(hits)) => index_start(f, Some(hits@)),
        (StageV::Index { search, hot }, AnnEvent::Nearest { hits, returned }) => match search {
            IndexSearch::Blocking => index_end(f, hot, hits@, AnnStrategy::Postfilter),
            IndexSearch::Pre => index_end(f, hot, hits@, AnnStrategy::Prefilter),
            IndexSearch::Post { k1, retries } => {
                let keep = on_rows(hits@, searched_rows(f, hot is Some));
                if keep.len() >= f.k || returned < k1 {
                    index_end(f, hot, keep, AnnStrategy::Postfilter)
                } else if retries >= f.limits.postfilter_retries || k1 >= f.durable_rows {
                    StageV::Index { search: IndexSearch::Pre, hot }
                } else {
                    StageV::Index {
                        search: IndexSearch::Post {
                            k1: math::least(
                                math::cut64(k1 * 4) as int,
                                f.durable_rows as int,
                            ) as u64,
                            retries: (retries + 1) as u32,
                        },
                        hot,
                    }
                }
            },
        },
        _ => stage,
    }
}

/// The stage of a request that begins.
pub open spec fn first_stage(f: RunV, path: AnnPath, has_hot: bool) -> StageV {
    match path {
        AnnPath::Nothing => StageV::Done { hits: Seq::empty(), strategy: AnnStrategy::Exact },
        AnnPath::Scan(strategy) => StageV::Scan(strategy),
        AnnPath::Indexed => if has_hot {
            StageV::Hot {
                k2: math::cut64(math::cut64(f.k * f.limits.hot_overfetch) + 16),
                retries: 0,
            }
        } else {
            index_start(f, None)
        },
    }
}

/// What a stage asks for.
pub enum AnnAction {
    /// The best `k` of the rows that the mask admits, by brute force.
    Scan { mask: RowMask },
    /// The hot artifact's best `k2`.
    Hot { k2: u64 },
    /// The exact scores of rows.
    Take { rows: Vec<u64> },
    /// The index's best `k` under a mask.
    Nearest { k: u64, mask: RowMask, prefilter: bool },
    Finish,
}

/// The rows that a mask lets through.
pub open spec fn mask_rows(m: RowMask) -> (bool, Set<u64>) {
    match m {
        RowMask::Allow(t) => (true, mask::treemap_rows(t)),
        RowMask::Block(t) => (false, mask::treemap_rows(t)),
    }
}

/// The rows that an unfiltered index search leaves out.
pub open spec fn blocked_rows(f: RunV, hot: bool) -> Set<u64> {
    if hot {
        f.covered.union(f.shadow)
    } else {
        f.shadow
    }
}

/// Whether `action` is what `stage` asks for.
pub open spec fn asks(f: RunV, stage: StageV, action: AnnAction) -> bool {
    match stage {
        StageV::Scan(_) => action matches AnnAction::Scan { mask } && mask_rows(mask) == (
        match f.allowed {
            Some(rows) => (true, rows),
            None => (false, f.shadow),
        }),
        StageV::Hot { k2, .. } => action == (AnnAction::Hot { k2 }),
        StageV::Take { live } => action matches AnnAction::Take { rows } && rows@ == live,
        StageV::Index { search, hot } => action matches AnnAction::Nearest { k, mask, prefilter }
            && match search {
            IndexSearch::Blocking => k == f.k && !prefilter && mask_rows(mask) == (
                false,
                blocked_rows(f, hot is Some),
            ),
            IndexSearch::Post { k1, .. } => k == k1 && !prefilter && mask_rows(mask) == (
                false,
                blocked_rows(f, hot is Some),
            ),
            IndexSearch::Pre => k == f.k && prefilter && mask_rows(mask) == (
                true,
                searched_rows(f, hot is Some),
            ),
        },
        StageV::Done { .. } => action is Finish,
    }
}

fn keep_on_rows(hits: Vec<Scored>, rows: &RoaringTreemap) -> (r: Vec<Scored>)
    ensures
        r@ == on_rows(hits@, mask::treemap_rows(*rows)),
{
    let ghost all = hits@;
    let ghost p = |h: Scored| mask::treemap_rows(*rows).contains(h.row_id);
    let mut out: Vec<Scored> = Vec::new();
    proof {
        assert(all.take(0).filter(p) =~= Seq::empty()) by {
            reveal(Seq::filter);
        }
    }
    for hit in it: hits
        invariant
            it.seq() == all,
            p == (|h: Scored| mask::treemap_rows(*rows).contains(h.row_id)),
            out@ == all.take(it.index() as int).filter(p),
    {
        proof {
            let n = it.index() as int;
            assert(all.take(n + 1).drop_last() =~= all.take(n));
            assert(all.take(n + 1).last() == hit);
            reveal(Seq::filter);
        }
        if mask::has_row(rows, hit.row_id) {
            out.push(hit);
        }
    }
    proof {
        assert(all.take(all.len() as int) =~= all);
    }
    out
}

impl AnnRun {
    /// The sets of a run are countable.
    pub open spec fn countable(&self) -> bool {
        mask::countable(self.shadow) && mask::countable(self.covered)
    }

    fn allowed_now(&self, hot: bool) -> (r: Option<RoaringTreemap>)
        ensures
            match r {
                Some(t) => self.allowed is Some && mask::treemap_rows(t) == searched_rows(
                    facts(*self),
                    hot,
                ),
                None => self.allowed is None,
            },
    {
        match &self.allowed {
            None => None,
            Some(rows) => {
                if hot {
                    Some(mask::rows_without(rows, &self.covered))
                } else {
                    Some(mask::copy_rows(rows))
                }
            },
        }
    }

    fn end_index(&self, hot: Option<Vec<Scored>>, hits: Vec<Scored>, strategy: AnnStrategy) -> (r:
        Stage)
        ensures
            r@ == index_end(facts(*self), opt_hits(hot), hits@, strategy),
    {
        match hot {
            Some(h) => {
                let mut lists: Vec<Vec<Scored>> = Vec::new();
                lists.push(h);
                lists.push(hits);
                proof {
                    let l = lists@;
                    assert(l.drop_last().drop_last() =~= Seq::empty());
                    assert(topk::joined(l.drop_last().drop_last()) =~= Seq::empty());
                    assert(topk::joined(l.drop_last()) =~= h@);
                    assert(topk::joined(l) =~= h@ + hits@);
                }
                Stage::Done { hits: topk::best(self.k, lists), strategy: AnnStrategy::Hot }
            },
            None => Stage::Done { hits, strategy },
        }
    }

    fn start_index(&self, hot: Option<Vec<Scored>>) -> (r: Stage)
        ensures
            r@ == index_start(facts(*self), opt_hits(hot)),
    {
        match self.allowed_now(hot.is_some()) {
            None => Stage::Index { search: IndexSearch::Blocking, hot },
            Some(rows) => {
                if mask::no_rows(&rows) {
                    let none: Vec<Scored> = Vec::new();
                    return self.end_index(hot, none, AnnStrategy::Prefilter);
                }
                match self.oversampled {
                    Some(wanted) => {
                        let most: u64 = if self.durable_rows >= 1 {
                            self.durable_rows
                        } else {
                            1
                        };
                        let k1: u64 = if wanted < 1 {
                            1
                        } else if wanted > most {
                            most
                        } else {
                            wanted
                        };
                        Stage::Index { search: IndexSearch::Post { k1, retries: 0 }, hot }
                    },
                    None => Stage::Index { search: IndexSearch::Pre, hot },
                }
            },
        }
    }

    /// Begins a run on its path.
    pub fn begin(self, path: AnnPath, has_hot: bool) -> (r: AnnRun)
        ensures
            facts(r) == facts(self),
            r.countable() == self.countable(),
            r.stage@ == first_stage(facts(self), path, has_hot),
    {
        let stage = match path {
            AnnPath::Nothing => Stage::Done { hits: Vec::new(), strategy: AnnStrategy::Exact },
            AnnPath::Scan(strategy) => Stage::Scan(strategy),
            AnnPath::Indexed => {
                if has_hot {
                    let wide: u64 = math::sat_mul(self.k as u64, self.limits.hot_overfetch);
                    Stage::Hot { k2: wide.saturating_add(16), retries: 0 }
                } else {
                    self.start_index(None)
                }
            },
        };
        AnnRun { stage, ..self }
    }

    /// The run after an event.
    pub fn on(self, event: AnnEvent) -> (r: AnnRun)
        ensures
            facts(r) == facts(self),
            r.countable() == self.countable(),
            r.stage@ == next_stage(facts(self), self.stage@, event),
    {
        let AnnRun {
            k,
            allowed,
            shadow,
            covered,
            durable_rows,
            oversampled,
            limits,
            stage,
        } = self;
        let rest = AnnRun {
            k,
            allowed,
            shadow,
            covered,
            durable_rows,
            oversampled,
            limits,
            stage: Stage::Scan(AnnStrategy::Exact),
        };
        let next = match (stage, event) {
            (Stage::Scan(strategy), AnnEvent::Scanned(hits)) => Stage::Done { hits, strategy },
            (Stage::Hot { .. }, AnnEvent::HotFailed) => rest.start_index(None),
            (Stage::Hot { k2, retries }, AnnEvent::Hot { returned, live }) => {
                if live.len() >= rest.k || returned < k2 {
                    Stage::Take { live }
                } else if retries >= rest.limits.hot_retries {
                    rest.start_index(None)
                } else {
                    Stage::Hot { k2: math::sat_mul(k2, 4), retries: retries + 1 }
                }
            },
            (Stage::Take { .. }, AnnEvent::Taken(hits)) => rest.start_index(Some(hits)),
            (Stage::Index { search, hot }, AnnEvent::Nearest { hits, returned }) => {
                match search {
                    IndexSearch::Blocking => rest.end_index(hot, hits, AnnStrategy::Postfilter),
                    IndexSearch::Pre => rest.end_index(hot, hits, AnnStrategy::Prefilter),
                    IndexSearch::Post { k1, retries } => {
                        let keep = match rest.allowed_now(hot.is_some()) {
                            Some(rows) => keep_on_rows(hits, &rows),
                            None => {
                                let none = mask::empty_rows();
                                keep_on_rows(hits, &none)
                            },
                        };
                        if keep.len() >= rest.k || returned < k1 {
                            rest.end_index(hot, keep, AnnStrategy::Postfilter)
                        } else if retries >= rest.limits.postfilter_retries || k1
                            >= rest.durable_rows {
                            Stage::Index { search: IndexSearch::Pre, hot }
                        } else {
                            let wider: u64 = math::sat_mul(k1, 4);
                            let k1: u64 = if wider <= rest.durable_rows {
                                wider
                            } else {
                                rest.durable_rows
                            };
                            Stage::Index {
                                search: IndexSearch::Post { k1, retries: retries + 1 },
                                hot,
                            }
                        }
                    },
                }
            },
            (stage, _) => stage,
        };
        AnnRun { stage: next, ..rest }
    }

    fn blocked_now(&self, hot: bool) -> (r: RoaringTreemap)
        requires
            self.countable(),
        ensures
            mask::treemap_rows(r) == blocked_rows(facts(*self), hot),
    {
        if hot {
            mask::rows_of_either(&self.covered, &self.shadow)
        } else {
            mask::copy_rows(&self.shadow)
        }
    }

    /// What the run asks for next.
    pub fn action(&self) -> (r: AnnAction)
        requires
            self.countable(),
        ensures
            asks(facts(*self), self.stage@, r),
    {
        match &self.stage {
            Stage::Scan(_) => {
                let mask = match &self.allowed {
                    Some(rows) => RowMask::Allow(mask::copy_rows(rows)),
                    None => RowMask::Block(mask::copy_rows(&self.shadow)),
                };
                AnnAction::Scan { mask }
            },
            Stage::Hot { k2, .. } => AnnAction::Hot { k2: *k2 },
            Stage::Take { live } => {
                let mut rows: Vec<u64> = Vec::new();
                let mut i: usize = 0;
                while i < live.len()
                    invariant
                        i <= live@.len(),
                        rows@ == live@.take(i as int),
                    decreases live.len() - i,
                {
                    rows.push(live[i]);
                    proof {
                        assert(live@.take(i as int + 1) =~= live@.take(i as int).push(
                            live@[i as int],
                        ));
                    }
                    i += 1;
                }
                proof {
                    assert(live@.take(live@.len() as int) =~= live@);
                }
                AnnAction::Take { rows }
            },
            Stage::Index { search, hot } => {
                let hot = hot.is_some();
                match search {
                    IndexSearch::Blocking => AnnAction::Nearest {
                        k: self.k as u64,
                        mask: RowMask::Block(self.blocked_now(hot)),
                        prefilter: false,
                    },
                    IndexSearch::Post { k1, .. } => AnnAction::Nearest {
                        k: *k1,
                        mask: RowMask::Block(self.blocked_now(hot)),
                        prefilter: false,
                    },
                    IndexSearch::Pre => {
                        let mask = match self.allowed_now(hot) {
                            Some(rows) => RowMask::Allow(rows),
                            None => RowMask::Allow(mask::empty_rows()),
                        };
                        AnnAction::Nearest { k: self.k as u64, mask, prefilter: true }
                    },
                }
            },
            Stage::Done { .. } => AnnAction::Finish,
        }
    }
}

/// The path of a request.
pub fn choose_path(
    k: usize,
    indexed: bool,
    params: &AnnParams,
    distance: Distance,
    allowed: &Option<RoaringTreemap>,
    threshold: usize,
) -> (r: AnnPath)
    requires
        allowed matches Some(t) ==> mask::countable(*t),
    ensures
        r == path_of(
            k as nat,
            indexed,
            *params,
            distance,
            match allowed_rows(*allowed) {
                Some(rows) => Some(rows.len()),
                None => None,
            },
            threshold as nat,
        ),
{
    if k == 0 {
        AnnPath::Nothing
    } else if !indexed || params.exact || params.distance.is_some() || distance
        == Distance::Manhattan {
        AnnPath::Scan(AnnStrategy::Exact)
    } else {
        match allowed {
            Some(rows) => {
                if mask::row_count(rows) <= threshold as u64 {
                    AnnPath::Scan(AnnStrategy::BruteForceAllowed)
                } else {
                    AnnPath::Indexed
                }
            },
            None => AnnPath::Indexed,
        }
    }
}

/// How many more events a run can take before it is done.
pub open spec fn remaining(f: RunV, stage: StageV) -> nat {
    let post = (f.limits.postfilter_retries as nat) + 3;
    match stage {
        StageV::Done { .. } => 0,
        StageV::Scan(_) => 1,
        StageV::Index { search, .. } => match search {
            IndexSearch::Post { retries, .. } => if retries <= f.limits.postfilter_retries {
                (f.limits.postfilter_retries - retries + 2) as nat
            } else {
                2
            },
            _ => 1,
        },
        StageV::Take { .. } => post + 1,
        StageV::Hot { retries, .. } => if retries <= f.limits.hot_retries {
            (f.limits.hot_retries - retries + post + 2) as nat
        } else {
            post + 2
        },
    }
}

/// Every awaited event brings a run nearer to its end.
pub proof fn runs_end(f: RunV, stage: StageV, event: AnnEvent)
    requires
        next_stage(f, stage, event) != stage,
        stage matches StageV::Hot { retries, .. } ==> retries <= f.limits.hot_retries,
        stage matches StageV::Index { search, .. } ==> (search matches IndexSearch::Post {
            retries,
            ..
        } ==> retries <= f.limits.postfilter_retries),
    ensures
        remaining(f, next_stage(f, stage, event)) < remaining(f, stage),
{
}

/// The hits of a finished run merged with the tail's, as candidates.
pub fn merge_tail(k: usize, durable: Vec<Scored>, tail: Vec<Scored>) -> (r: Vec<Ranked>)
    ensures
        as_ranked(r@, topk::best_of(durable@ + tail@, k as nat)),
{
    let mut lists: Vec<Vec<Scored>> = Vec::new();
    lists.push(durable);
    lists.push(tail);
    proof {
        let l = lists@;
        assert(l.drop_last().drop_last() =~= Seq::empty());
        assert(topk::joined(l.drop_last().drop_last()) =~= Seq::empty());
        assert(topk::joined(l.drop_last()) =~= durable@);
        assert(topk::joined(l) =~= durable@ + tail@);
    }
    let hits = topk::best(k, lists);
    let ghost all = hits@;
    let mut out: Vec<Ranked> = Vec::new();
    for hit in it: hits
        invariant
            it.seq() == all,
            out@.len() == it.index(),
            as_ranked(out@, all.take(it.index() as int)),
    {
        let ranked = Ranked {
            row_id: hit.row_id,
            pk: hit.pk,
            score: hit.score,
            sort: Vec::new(),
        };
        out.push(ranked);
        proof {
            let n = it.index() as int;
            assert(all.take(n + 1) =~= all.take(n).push(hit));
        }
    }
    proof {
        assert(all.take(all.len() as int) =~= all);
    }
    out
}

/// Candidates that are hits without field values.
pub open spec fn as_ranked(r: Seq<Ranked>, hits: Seq<Scored>) -> bool {
    &&& r.len() == hits.len()
    &&& forall|i: int|
        0 <= i < r.len() ==> {
            &&& (#[trigger] r[i]).row_id == hits[i].row_id
            &&& r[i].pk@ == hits[i].pk@
            &&& r[i].score == hits[i].score
            &&& r[i].sort@.len() == 0
        }
}

/// A document of the tail: its row, its key, and the length of its vector
/// with the score of it, when it has one.
pub struct TailVector {
    pub row_id: u64,
    pub pk: crate::key::PrimaryKey,
    pub vector: Option<(usize, u32)>,
}

/// Whether a tail document is searched.
pub open spec fn tail_counts(doc: TailVector, allowed: Option<Set<u64>>, dim: nat) -> bool {
    &&& allowed matches Some(rows) ==> rows.contains(doc.row_id)
    &&& doc.vector is Some
    &&& (doc.vector->0).0 == dim
}

/// The scored documents of a tail that are searched, in order.
pub open spec fn tail_scores(docs: Seq<TailVector>, allowed: Option<Set<u64>>, dim: nat) -> Seq<
    Scored,
>
    decreases docs.len(),
{
    if docs.len() == 0 {
        Seq::empty()
    } else {
        let doc = docs.last();
        let before = tail_scores(docs.drop_last(), allowed, dim);
        if tail_counts(doc, allowed, dim) {
            before.push(
                Scored { row_id: doc.row_id, pk: doc.pk, score: (doc.vector->0).1 },
            )
        } else {
            before
        }
    }
}

/// The best `k` of the tail's documents with a vector of the query's
/// length, in the filter's rows when there is one.
pub fn tail_hits(docs: Vec<TailVector>, allowed: &Option<RoaringTreemap>, dim: usize, k: usize)
    -> (r: Vec<Scored>)
    ensures
        r@ == topk::best_of(tail_scores(docs@, allowed_rows(*allowed), dim as nat), k as nat),
{
    let ghost all = docs@;
    let ghost rows = allowed_rows(*allowed);
    let mut top = topk::TopK::new(k);
    for doc in it: docs
        invariant
            it.seq() == all,
            rows == allowed_rows(*allowed),
            top.well_formed(),
            top.capacity() == k,
            top.best() == topk::best_of(
                tail_scores(all.take(it.index() as int), rows, dim as nat),
                k as nat,
            ),
    {
        let ghost seen = tail_scores(all.take(it.index() as int), rows, dim as nat);
        proof {
            let n = it.index() as int;
            assert(all.take(n + 1).drop_last() =~= all.take(n));
            assert(all.take(n + 1).last() == doc);
        }
        let admitted = match allowed {
            Some(t) => mask::has_row(t, doc.row_id),
            None => true,
        };
        match doc.vector {
            Some((len, score)) => {
                if admitted && len == dim {
                    let hit = Scored { row_id: doc.row_id, pk: doc.pk, score };
                    proof {
                        topk::pushes_keep_the_best(seen, hit, k as nat);
                    }
                    top.push(hit);
                }
            },
            None => {},
        }
    }
    proof {
        assert(all.take(all.len() as int) =~= all);
    }
    top.into_sorted()
}

/// Whether a durable row is live: below the tail's rows, not shadowed, in a
/// split, and not deleted there; `deleted` tells of a row in a split
/// whether it is deleted.
pub fn is_live(row: u64, base: u64, shadow: &RoaringTreemap, deleted: Option<bool>) -> (r: bool)
    ensures
        r == (row < base && !mask::treemap_rows(*shadow).contains(row) && deleted == Some(false)),
{
    if row >= base || mask::has_row(shadow, row) {
        false
    } else {
        match deleted {
            Some(d) => !d,
            None => false,
        }
    }
}

} // verus!
