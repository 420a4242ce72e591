//! The search request: retrievers, fusion, sorting and what a response
//! holds.
//!
//! Floats are carried as their bits.

use crate::json::value::Json;
use crate::query;
use crate::query::{Query, QueryV};
use crate::text;
use crate::values;
use crate::values::{SortV, SortValue};
use vstd::prelude::*;
use vstd::string::*;

verus! {

/// How two dense vectors are compared.
#[derive(Clone, Copy, Debug, PartialEq, Eq, Structural)]
pub enum Distance {
    Cosine,
    Dot,
    Euclid,
    Manhattan,
}

/// A sparse vector: indices and the bits of their values.
#[derive(Debug)]
pub struct SparseVector {
    pub indices: Vec<u32>,
    pub values: Vec<u32>,
}

/// What a sparse vector is.
pub struct SparseV {
    pub indices: Seq<u32>,
    pub values: Seq<u32>,
}

impl View for SparseVector {
    type V = SparseV;

    open spec fn view(&self) -> SparseV {
        SparseV { indices: self.indices@, values: self.values@ }
    }
}

/// A copy of some bits.
pub fn copy_bits(v: &Vec<u32>) -> (r: Vec<u32>)
    ensures
        r@ == v@,
{
    let mut out: Vec<u32> = Vec::new();
    let mut i: usize = 0;
    while i < v.len()
        invariant
            i <= v@.len(),
            out@ == v@.take(i as int),
        decreases v.len() - i,
    {
        out.push(v[i]);
        proof {
            assert(v@.take(i as int + 1) =~= v@.take(i as int).push(v@[i as int]));
        }
        i += 1;
    }
    proof {
        assert(v@.take(v@.len() as int) =~= v@);
    }
    out
}

impl SparseVector {
    /// A copy of the vector.
    pub fn copy(&self) -> (r: SparseVector)
        ensures
            r@ == self@,
    {
        SparseVector { indices: copy_bits(&self.indices), values: copy_bits(&self.values) }
    }
}

/// Parameters of a dense-vector retriever.
#[derive(Clone, Copy, Debug, PartialEq, Eq)]
pub struct AnnParams {
    pub exact: bool,
    pub nprobes: Option<u32>,
    pub refine_factor: Option<u32>,
    pub ef: Option<u32>,
    pub oversampling: Option<u32>,
    /// A metric override; only with `exact`.
    pub distance: Option<Distance>,
}

impl AnnParams {
    /// No parameter set.
    pub fn none() -> (r: AnnParams)
        ensures
            r == (AnnParams {
                exact: false,
                nprobes: None,
                refine_factor: None,
                ef: None,
                oversampling: None,
                distance: None,
            }),
    {
        AnnParams {
            exact: false,
            nprobes: None,
            refine_factor: None,
            ef: None,
            oversampling: None,
            distance: None,
        }
    }
}

/// How ranked lists are combined.
#[derive(Debug)]
pub enum Fusion {
    Rrf { k: u32 },
    Dbsf,
    WeightedSum { weights: Vec<u32> },
}

/// What a fusion is.
pub enum FusionV {
    Rrf { k: u32 },
    Dbsf,
    WeightedSum { weights: Seq<u32> },
}

impl View for Fusion {
    type V = FusionV;

    open spec fn view(&self) -> FusionV {
        match self {
            Fusion::Rrf { k } => FusionV::Rrf { k: *k },
            Fusion::Dbsf => FusionV::Dbsf,
            Fusion::WeightedSum { weights } => FusionV::WeightedSum { weights: weights@ },
        }
    }
}

impl Fusion {
    /// A copy of the fusion.
    pub fn copy(&self) -> (r: Fusion)
        ensures
            r@ == self@,
    {
        match self {
            Fusion::Rrf { k } => Fusion::Rrf { k: *k },
            Fusion::Dbsf => Fusion::Dbsf,
            Fusion::WeightedSum { weights } => Fusion::WeightedSum { weights: copy_bits(weights) },
        }
    }
}

/// The constant of reciprocal rank fusion when a request names none.
pub fn default_rrf_k() -> (r: u32)
    ensures
        r == 60,
{
    60
}

/// A source of ranked candidates.
#[derive(Debug)]
#[allow(inconsistent_fields)]
pub enum Retriever {
    Vector {
        field: String,
        query: Vec<u32>,
        k: usize,
        params: AnnParams,
        filter: Option<Query>,
    },
    Text { query: Query, k: usize },
    Fused { inputs: Vec<Retriever>, fusion: Fusion, k: usize },
    Rescore { input: Box<Retriever>, field: String, query: Vec<u32>, k: usize },
    Sparse {
        field: String,
        query: SparseVector,
        k: usize,
        filter: Option<Query>,
        /// The rows that inverse document frequencies count (every live row
        /// without one).
        idf_corpus: Option<Query>,
    },
}

/// What a retriever is.
#[allow(inconsistent_fields)]
pub enum RetrieverV {
    Vector {
        field: Seq<char>,
        query: Seq<u32>,
        k: usize,
        params: AnnParams,
        filter: Option<QueryV>,
    },
    Text { query: QueryV, k: usize },
    Fused { inputs: Seq<RetrieverV>, fusion: FusionV, k: usize },
    Rescore { input: Box<RetrieverV>, field: Seq<char>, query: Seq<u32>, k: usize },
    Sparse {
        field: Seq<char>,
        query: SparseV,
        k: usize,
        filter: Option<QueryV>,
        idf_corpus: Option<QueryV>,
    },
}

impl View for Retriever {
    type V = RetrieverV;

    open spec fn view(&self) -> RetrieverV {
        retriever_view(*self)
    }
}

/// What `r` is.
pub open spec fn retriever_view(r: Retriever) -> RetrieverV
    decreases r,
{
    match r {
        Retriever::Vector { field, query, k, params, filter } => RetrieverV::Vector {
            field: field@,
            query: query@,
            k,
            params,
            filter: query::opt_query(filter),
        },
        Retriever::Text { query, k } => RetrieverV::Text { query: query@, k },
        Retriever::Fused { inputs, fusion, k } => RetrieverV::Fused {
            inputs: Seq::new(
                inputs@.len(),
                |i: int|
                    if 0 <= i < inputs@.len() {
                        retriever_view(inputs@[i])
                    } else {
                        RetrieverV::Text { query: QueryV::MatchAll, k: 0 }
                    },
            ),
            fusion: fusion@,
            k,
        },
        Retriever::Rescore { input, field, query, k } => RetrieverV::Rescore {
            input: Box::new(retriever_view(*input)),
            field: field@,
            query: query@,
            k,
        },
        Retriever::Sparse { field, query, k, filter, idf_corpus } => RetrieverV::Sparse {
            field: field@,
            query: query@,
            k,
            filter: query::opt_query(filter),
            idf_corpus: query::opt_query(idf_corpus),
        },
    }
}

/// What some retrievers are.
pub open spec fn retriever_views(s: Seq<Retriever>) -> Seq<RetrieverV> {
    Seq::new(s.len(), |i: int| s[i]@)
}

/// The view of a fused retriever, input by input.
pub broadcast proof fn view_fused(inputs: Vec<Retriever>, fusion: Fusion, k: usize)
    ensures
        #[trigger] retriever_view(Retriever::Fused { inputs, fusion, k }) == (RetrieverV::Fused {
            inputs: retriever_views(inputs@),
            fusion: fusion@,
            k,
        }),
{
    let v = retriever_view(Retriever::Fused { inputs, fusion, k });
    assert(v->inputs =~= retriever_views(inputs@));
}

/// Every value of a retriever in normal form.
pub open spec fn norm_retriever(r: RetrieverV) -> RetrieverV
    decreases r,
{
    match r {
        RetrieverV::Vector { field, query, k, params, filter } => RetrieverV::Vector {
            field,
            query,
            k,
            params,
            filter: query::norm_opt_query(filter),
        },
        RetrieverV::Text { query, k } => RetrieverV::Text { query: query::norm_query(query), k },
        RetrieverV::Fused { inputs, fusion, k } => RetrieverV::Fused {
            inputs: norm_retrievers(inputs),
            fusion,
            k,
        },
        RetrieverV::Rescore { input, field, query, k } => RetrieverV::Rescore {
            input: Box::new(norm_retriever(*input)),
            field,
            query,
            k,
        },
        RetrieverV::Sparse { field, query, k, filter, idf_corpus } => RetrieverV::Sparse {
            field,
            query,
            k,
            filter: query::norm_opt_query(filter),
            idf_corpus: query::norm_opt_query(idf_corpus),
        },
    }
}

/// Some retrievers, every value in normal form.
pub open spec fn norm_retrievers(s: Seq<RetrieverV>) -> Seq<RetrieverV>
    decreases s,
{
    Seq::new(
        s.len(),
        |i: int|
            if 0 <= i < s.len() {
                norm_retriever(s[i])
            } else {
                RetrieverV::Text { query: QueryV::MatchAll, k: 0 }
            },
    )
}

/// Normalizing a retriever twice changes nothing more.
pub proof fn norm_retriever_fixed(r: RetrieverV)
    ensures
        norm_retriever(norm_retriever(r)) == norm_retriever(r),
    decreases r,
{
    match r {
        RetrieverV::Vector { filter, .. } => {
            if filter is Some {
                query::norm_query_fixed(filter->0);
            }
        },
        RetrieverV::Text { query, .. } => {
            query::norm_query_fixed(query);
        },
        RetrieverV::Fused { inputs, .. } => {
            norm_retrievers_fixed(inputs);
        },
        RetrieverV::Rescore { input, .. } => {
            norm_retriever_fixed(*input);
        },
        RetrieverV::Sparse { filter, idf_corpus, .. } => {
            if filter is Some {
                query::norm_query_fixed(filter->0);
            }
            if idf_corpus is Some {
                query::norm_query_fixed(idf_corpus->0);
            }
        },
    }
}

proof fn norm_retrievers_fixed(s: Seq<RetrieverV>)
    ensures
        norm_retrievers(norm_retrievers(s)) == norm_retrievers(s),
    decreases s,
{
    assert forall|i: int| 0 <= i < s.len() implies norm_retriever(norm_retriever(#[trigger] s[i]))
        == norm_retriever(s[i]) by {
        norm_retriever_fixed(s[i]);
    }
    assert(norm_retrievers(norm_retrievers(s)) =~= norm_retrievers(s));
}

fn normalized_retrievers(v: Vec<Retriever>) -> (r: Vec<Retriever>)
    ensures
        retriever_views(r@) == norm_retrievers(retriever_views(v@)),
    decreases v,
{
    let ghost all = v@;
    let ghost whole = v;
    let mut out: Vec<Retriever> = Vec::new();
    for x in it: v
        invariant
            it.seq() == all,
            all == whole@,
            whole == v,
            out@.len() == it.index(),
            forall|j: int|
                0 <= j < it.index() ==> (#[trigger] out@[j])@ == norm_retriever(all[j]@),
    {
        assert(decreases_to!(whole => whole@));
        assert(decreases_to!(whole@ => whole@[it.index() as int]));
        out.push(x.normalized());
    }
    proof {
        assert(retriever_views(out@) =~= norm_retrievers(retriever_views(all)));
    }
    out
}

impl Retriever {
    /// Every field value in the retriever's queries normalized.
    pub fn normalized(self) -> (r: Retriever)
        ensures
            r@ == norm_retriever(self@),
        decreases self,
    {
        broadcast use view_fused;

        match self {
            Retriever::Vector { field, query, k, params, filter } => Retriever::Vector {
                field,
                query,
                k,
                params,
                filter: query::normalized_opt_query(filter),
            },
            Retriever::Text { query, k } => Retriever::Text { query: query.normalized(), k },
            Retriever::Fused { inputs, fusion, k } => Retriever::Fused {
                inputs: normalized_retrievers(inputs),
                fusion,
                k,
            },
            Retriever::Rescore { input, field, query, k } => Retriever::Rescore {
                input: Box::new((*input).normalized()),
                field,
                query,
                k,
            },
            Retriever::Sparse { field, query, k, filter, idf_corpus } => Retriever::Sparse {
                field,
                query,
                k,
                filter: query::normalized_opt_query(filter),
                idf_corpus: query::normalized_opt_query(idf_corpus),
            },
        }
    }

    /// How many candidates the retriever asks for.
    pub fn k(&self) -> (r: usize)
        ensures
            r == retriever_k(self@),
    {
        match self {
            Retriever::Vector { k, .. } => *k,
            Retriever::Text { k, .. } => *k,
            Retriever::Fused { k, .. } => *k,
            Retriever::Rescore { k, .. } => *k,
            Retriever::Sparse { k, .. } => *k,
        }
    }
}

/// How many candidates a retriever asks for.
pub open spec fn retriever_k(r: RetrieverV) -> usize {
    match r {
        RetrieverV::Vector { k, .. } => k,
        RetrieverV::Text { k, .. } => k,
        RetrieverV::Fused { k, .. } => k,
        RetrieverV::Rescore { k, .. } => k,
        RetrieverV::Sparse { k, .. } => k,
    }
}

#[derive(Clone, Copy, Debug, PartialEq, Eq, Structural)]
pub enum SortOrder {
    Asc,
    Desc,
}

impl SortOrder {
    /// The order of a key or field sort that names none.
    pub fn asc() -> (r: SortOrder)
        ensures
            r == SortOrder::Asc,
    {
        SortOrder::Asc
    }

    /// The order of a score sort that names none.
    pub fn desc() -> (r: SortOrder)
        ensures
            r == SortOrder::Desc,
    {
        SortOrder::Desc
    }
}

#[derive(Clone, Copy, Debug, PartialEq, Eq, Structural)]
pub enum MissingOrder {
    First,
    Last,
}

impl MissingOrder {
    /// Where a field sort that names no place puts missing values.
    pub fn last() -> (r: MissingOrder)
        ensures
            r == MissingOrder::Last,
    {
        MissingOrder::Last
    }
}

/// One key of the effective sort; the primary key ascending always breaks
/// ties.
#[derive(Debug)]
pub enum SortKey {
    Score { order: SortOrder },
    Pk { order: SortOrder },
    Field { field: String, order: SortOrder, missing: MissingOrder },
}

/// What a sort key is.
pub enum SortKeyV {
    Score { order: SortOrder },
    Pk { order: SortOrder },
    Field { field: Seq<char>, order: SortOrder, missing: MissingOrder },
}

impl View for SortKey {
    type V = SortKeyV;

    open spec fn view(&self) -> SortKeyV {
        match self {
            SortKey::Score { order } => SortKeyV::Score { order: *order },
            SortKey::Pk { order } => SortKeyV::Pk { order: *order },
            SortKey::Field { field, order, missing } => SortKeyV::Field {
                field: field@,
                order: *order,
                missing: *missing,
            },
        }
    }
}

/// What some sort keys are.
pub open spec fn sort_key_views(s: Seq<SortKey>) -> Seq<SortKeyV> {
    Seq::new(s.len(), |i: int| s[i]@)
}

impl SortKey {
    /// A copy of the key.
    pub fn copy(&self) -> (r: SortKey)
        ensures
            r@ == self@,
    {
        match self {
            SortKey::Score { order } => SortKey::Score { order: *order },
            SortKey::Pk { order } => SortKey::Pk { order: *order },
            SortKey::Field { field, order, missing } => SortKey::Field {
                field: field.clone(),
                order: *order,
                missing: *missing,
            },
        }
    }
}

/// A copy of some sort keys.
pub fn copy_sort_keys(v: &Vec<SortKey>) -> (r: Vec<SortKey>)
    ensures
        sort_key_views(r@) == sort_key_views(v@),
{
    let mut out: Vec<SortKey> = Vec::new();
    let mut i: usize = 0;
    while i < v.len()
        invariant
            i <= v@.len(),
            out@.len() == i,
            forall|j: int| 0 <= j < i ==> (#[trigger] out@[j])@ == v@[j]@,
        decreases v.len() - i,
    {
        out.push(v[i].copy());
        i += 1;
    }
    proof {
        assert(sort_key_views(out@) =~= sort_key_views(v@));
    }
    out
}

/// Positions of a stream's partitions: stream, partition, offset.
#[derive(Clone, Debug)]
pub struct ConsistencyToken {
    pub entries: Vec<(u64, u32, u64)>,
}

impl View for ConsistencyToken {
    type V = Seq<(u64, u32, u64)>;

    open spec fn view(&self) -> Seq<(u64, u32, u64)> {
        self.entries@
    }
}

impl ConsistencyToken {
    /// A copy of the token.
    pub fn copy(&self) -> (r: ConsistencyToken)
        ensures
            r@ == self@,
    {
        let mut out: Vec<(u64, u32, u64)> = Vec::new();
        let mut i: usize = 0;
        while i < self.entries.len()
            invariant
                i <= self.entries@.len(),
                out@ == self.entries@.take(i as int),
            decreases self.entries.len() - i,
        {
            out.push(self.entries[i]);
            proof {
                assert(self.entries@.take(i as int + 1) =~= self.entries@.take(i as int).push(
                    self.entries@[i as int],
                ));
            }
            i += 1;
        }
        proof {
            assert(self.entries@.take(self.entries@.len() as int) =~= self.entries@);
        }
        ConsistencyToken { entries: out }
    }
}

/// How fresh a read must be.
#[derive(Clone, Debug)]
pub enum ReadConsistency {
    /// Every write acknowledged before the read began.
    Strong,
    /// Whatever the tail holds.
    Eventual,
    /// At least the writes of the token.
    AtLeast(ConsistencyToken),
    /// Exactly a retained manifest plus the token's writes after it.
    Pinned { manifest_version: u64, token: ConsistencyToken },
}

/// What a read asks for.
pub enum ConsistencyV {
    Strong,
    Eventual,
    AtLeast(Seq<(u64, u32, u64)>),
    Pinned { manifest_version: u64, token: Seq<(u64, u32, u64)> },
}

impl View for ReadConsistency {
    type V = ConsistencyV;

    open spec fn view(&self) -> ConsistencyV {
        match self {
            ReadConsistency::Strong => ConsistencyV::Strong,
            ReadConsistency::Eventual => ConsistencyV::Eventual,
            ReadConsistency::AtLeast(token) => ConsistencyV::AtLeast(token@),
            ReadConsistency::Pinned { manifest_version, token } => ConsistencyV::Pinned {
                manifest_version: *manifest_version,
                token: token@,
            },
        }
    }
}

/// Which parts of a source a read returns.
#[derive(Clone, Debug)]
pub enum SourceFilter {
    All,
    Nothing,
    Paths { include_paths: Vec<String>, exclude_paths: Vec<String> },
}

/// What a source filter keeps.
pub enum SourceFilterV {
    All,
    Nothing,
    Paths { include_paths: Seq<Seq<char>>, exclude_paths: Seq<Seq<char>> },
}

impl View for SourceFilter {
    type V = SourceFilterV;

    open spec fn view(&self) -> SourceFilterV {
        match self {
            SourceFilter::All => SourceFilterV::All,
            SourceFilter::Nothing => SourceFilterV::Nothing,
            SourceFilter::Paths { include_paths, exclude_paths } => SourceFilterV::Paths {
                include_paths: text::texts(include_paths@),
                exclude_paths: text::texts(exclude_paths@),
            },
        }
    }
}

/// What a read returns of each document.
#[derive(Clone, Debug)]
pub struct Projection {
    pub source: SourceFilter,
    pub vectors: Vec<String>,
    pub fields: Vec<String>,
}

/// What a projection selects.
pub struct ProjectionV {
    pub source: SourceFilterV,
    pub vectors: Seq<Seq<char>>,
    pub fields: Seq<Seq<char>>,
}

impl View for Projection {
    type V = ProjectionV;

    open spec fn view(&self) -> ProjectionV {
        ProjectionV {
            source: self.source@,
            vectors: text::texts(self.vectors@),
            fields: text::texts(self.fields@),
        }
    }
}

/// The projection of a request that names none.
pub open spec fn whole_source() -> ProjectionV {
    ProjectionV { source: SourceFilterV::All, vectors: Seq::empty(), fields: Seq::empty() }
}

impl Projection {
    /// The whole source, without vectors and typed fields.
    pub fn whole() -> (r: Projection)
        ensures
            r@ == whole_source(),
    {
        let r = Projection { source: SourceFilter::All, vectors: Vec::new(), fields: Vec::new() };
        proof {
            assert(text::texts(r.vectors@) =~= Seq::empty());
            assert(text::texts(r.fields@) =~= Seq::empty());
        }
        r
    }
}

/// Highlighting of text fields.
#[derive(Debug)]
pub struct Highlight {
    pub fields: Vec<HighlightField>,
}

#[derive(Debug)]
pub struct HighlightField {
    pub field: String,
    pub pre_tag: String,
    pub post_tag: String,
    pub fragment_size: usize,
    pub number_of_fragments: usize,
}

/// What precedes a highlighted term by default.
pub fn default_pre_tag() -> (r: String)
    ensures
        r@ == "<em>"@,
{
    "<em>".to_owned()
}

/// What follows a highlighted term by default.
pub fn default_post_tag() -> (r: String)
    ensures
        r@ == "</em>"@,
{
    "</em>".to_owned()
}

/// The length of a fragment by default.
pub fn default_fragment_size() -> (r: usize)
    ensures
        r == 100,
{
    100
}

/// How many fragments a field has by default.
pub fn default_number_of_fragments() -> (r: usize)
    ensures
        r == 5,
{
    5
}

/// How many hits a request returns by default.
pub fn default_limit() -> (r: usize)
    ensures
        r == 10,
{
    10
}

/// How many hits a group holds by default.
pub fn default_group_size() -> (r: usize)
    ensures
        r == 3,
{
    3
}

/// Groups hits by a field value.
#[derive(Debug)]
pub struct GroupBy {
    pub field: String,
    pub group_size: usize,
    pub limit: usize,
}

/// Whether and how far the total number of matches is counted.
#[derive(Clone, Copy, Debug, PartialEq, Eq, Structural)]
pub enum TrackTotalHits {
    Never,
    Exact,
    UpTo(u64),
}

#[derive(Clone, Copy, Debug, PartialEq, Eq, Structural)]
pub enum TotalRelation {
    Eq,
    Gte,
}

#[derive(Clone, Copy, Debug, PartialEq, Eq, Structural)]
pub struct TotalHits {
    pub value: u64,
    pub relation: TotalRelation,
}

/// One search over one collection.
#[derive(Debug)]
pub struct SearchRequest {
    /// A collection name or alias.
    pub collection: String,
    pub consistency: ReadConsistency,
    pub retrievers: Vec<Retriever>,
    pub fusion: Option<Fusion>,
    pub filter: Option<Query>,
    pub sort: Vec<SortKey>,
    pub offset: usize,
    pub limit: usize,
    pub search_after: Option<Vec<SortValue>>,
    pub score_threshold: Option<u32>,
    pub select: Projection,
    pub aggregations: Option<Json>,
    pub highlight: Option<Highlight>,
    pub group_by: Option<GroupBy>,
    pub track_total_hits: TrackTotalHits,
}

/// The values of a `search_after` that may be missing.
pub open spec fn opt_sorts(v: Option<Vec<SortValue>>) -> Option<Seq<SortV>> {
    match v {
        Some(v) => Some(values::sort_views(v@)),
        None => None,
    }
}

/// The normal form of a `search_after` that may be missing.
pub open spec fn norm_opt_sorts(v: Option<Seq<SortV>>) -> Option<Seq<SortV>> {
    match v {
        Some(v) => Some(v.map_values(|x: SortV| values::norm_sort(x))),
        None => None,
    }
}

impl SearchRequest {
    /// A request over `collection` with every other field at its default.
    pub fn new(collection: &str) -> (r: SearchRequest)
        ensures
            r.collection@ == collection@,
            r.consistency is Strong,
            r.retrievers@.len() == 0,
            r.fusion is None,
            r.filter is None,
            r.sort@.len() == 0,
            r.offset == 0,
            r.limit == 10,
            r.search_after is None,
            r.score_threshold is None,
            r.select@ == whole_source(),
            r.aggregations is None,
            r.highlight is None,
            r.group_by is None,
            r.track_total_hits == TrackTotalHits::Never,
    {
        SearchRequest {
            collection: collection.to_owned(),
            consistency: ReadConsistency::Strong,
            retrievers: Vec::new(),
            fusion: None,
            filter: None,
            sort: Vec::new(),
            offset: 0,
            limit: default_limit(),
            search_after: None,
            score_threshold: None,
            select: Projection::whole(),
            aggregations: None,
            highlight: None,
            group_by: None,
            track_total_hits: TrackTotalHits::Never,
        }
    }

    /// The request with every sort value and field value normalized, as its
    /// JSON form reads back; nothing else changes.
    pub fn normalized(self) -> (r: SearchRequest)
        ensures
            retriever_views(r.retrievers@) == norm_retrievers(retriever_views(self.retrievers@)),
            query::opt_query(r.filter) == query::norm_opt_query(query::opt_query(self.filter)),
            opt_sorts(r.search_after) == norm_opt_sorts(opt_sorts(self.search_after)),
            r == (SearchRequest {
                retrievers: r.retrievers,
                filter: r.filter,
                search_after: r.search_after,
                ..self
            }),
    {
        SearchRequest {
            collection: self.collection,
            consistency: self.consistency,
            retrievers: normalized_retrievers(self.retrievers),
            fusion: self.fusion,
            filter: query::normalized_opt_query(self.filter),
            sort: self.sort,
            offset: self.offset,
            limit: self.limit,
            search_after: match self.search_after {
                Some(v) => Some(values::normalized_sorts(v)),
                None => None,
            },
            score_threshold: self.score_threshold,
            select: self.select,
            aggregations: self.aggregations,
            highlight: self.highlight,
            group_by: self.group_by,
            track_total_hits: self.track_total_hits,
        }
    }
}

} // verus!
