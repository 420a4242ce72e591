//! The plan of a request: its retrievers as a tree of operators.

use crate::collection;
use crate::collection::{CollectionSchema, SchemaV};
use crate::error::{Failure, ServiceError};
use crate::exec::ann;
use crate::exec::order;
use crate::exec::order::{EffectiveSort, RankMode};
use crate::ir;
use crate::ir::{AnnParams, Fusion, FusionV, Retriever, RetrieverV, SortKey, SparseV, SparseVector};
use crate::query;
use crate::query::{Query, QueryV};
use crate::text;
use crate::values::FieldValue;
use vstd::prelude::*;
use vstd::string::*;

verus! {

/// A boolean query of some clauses.
pub open spec fn clauses(must: Seq<QueryV>, filter: Seq<QueryV>) -> QueryV {
    QueryV::Bool {
        must,
        should: Seq::empty(),
        must_not: Seq::empty(),
        filter,
        minimum_should_match: None,
    }
}

fn clauses_of(must: Vec<Query>, filter: Vec<Query>) -> (r: Query)
    ensures
        r@ == clauses(query::query_views(must@), query::query_views(filter@)),
{
    broadcast use query::view_bool;

    let should: Vec<Query> = Vec::new();
    let must_not: Vec<Query> = Vec::new();
    proof {
        assert(query::query_views(should@) =~= Seq::<QueryV>::empty());
        assert(query::query_views(must_not@) =~= Seq::<QueryV>::empty());
    }
    Query::Bool { must, should, must_not, filter, minimum_should_match: None }
}

/// Both of two filters that may be missing.
pub open spec fn both(a: Option<QueryV>, b: Option<QueryV>) -> Option<QueryV> {
    match (a, b) {
        (Some(x), Some(y)) => Some(clauses(Seq::empty(), seq![x, y])),
        (Some(x), None) => Some(x),
        (None, Some(y)) => Some(y),
        (None, None) => None,
    }
}

/// Both of two filters that may be missing.
pub fn and(a: &Option<Query>, b: &Option<Query>) -> (r: Option<Query>)
    ensures
        query::opt_query(r) == both(query::opt_query(*a), query::opt_query(*b)),
{
    match (a, b) {
        (Some(x), Some(y)) => {
            let mut filter: Vec<Query> = Vec::new();
            filter.push(x.copy());
            filter.push(y.copy());
            let must: Vec<Query> = Vec::new();
            proof {
                assert(query::query_views(filter@) =~= seq![x@, y@]);
                assert(query::query_views(must@) =~= Seq::<QueryV>::empty());
            }
            Some(clauses_of(must, filter))
        },
        (Some(x), None) => Some(x.copy()),
        (None, Some(y)) => Some(y.copy()),
        (None, None) => None,
    }
}

/// A query under a filter, as one query with the same matches.
pub open spec fn filtered_query(q: QueryV, filter: Option<QueryV>) -> QueryV {
    match filter {
        None => q,
        Some(f) => clauses(seq![q], seq![f]),
    }
}

/// A query under a filter, as one query with the same matches.
pub fn matching(q: &Query, filter: &Option<Query>) -> (r: Query)
    ensures
        r@ == filtered_query(q@, query::opt_query(*filter)),
{
    match filter {
        None => q.copy(),
        Some(f) => {
            let mut must: Vec<Query> = Vec::new();
            must.push(q.copy());
            let mut filter: Vec<Query> = Vec::new();
            filter.push(f.copy());
            proof {
                assert(query::query_views(must@) =~= seq![q@]);
                assert(query::query_views(filter@) =~= seq![f@]);
            }
            clauses_of(must, filter)
        },
    }
}

/// What a field name of a term query stands for.
#[derive(Clone, Copy, Debug, PartialEq, Eq, Structural)]
pub enum FieldClass {
    /// A text or keyword field: its terms are scored.
    Words,
    Other,
    JsonPath,
    Unknown,
}

/// The classes of the named fields.
pub open spec fn class_views(s: Seq<(String, FieldClass)>) -> Seq<(Seq<char>, FieldClass)> {
    Seq::new(s.len(), |i: int| (s[i].0@, s[i].1))
}

/// The class of a field.
pub open spec fn class_of(s: Seq<(Seq<char>, FieldClass)>, name: Seq<char>) -> FieldClass
    decreases s.len(),
{
    if s.len() == 0 {
        FieldClass::Unknown
    } else if s[0].0 == name {
        s[0].1
    } else {
        class_of(s.drop_first(), name)
    }
}

fn find_class(s: &Vec<(String, FieldClass)>, name: &str) -> (r: FieldClass)
    ensures
        r == class_of(class_views(s@), name@),
{
    let ghost all = class_views(s@);
    let mut i: usize = 0;
    proof {
        assert(all.skip(0) =~= all);
    }
    while i < s.len()
        invariant
            i <= s@.len(),
            all == class_views(s@),
            class_of(all, name@) == class_of(all.skip(i as int), name@),
        decreases s.len() - i,
    {
        proof {
            assert(all.skip(i as int)[0] == (s@[i as int].0@, s@[i as int].1));
            assert(all.skip(i as int).drop_first() =~= all.skip(i as int + 1));
        }
        if text::same(s[i].0.as_str(), name) {
            return s[i].1;
        }
        i += 1;
    }
    FieldClass::Unknown
}

/// The bits of one.
pub const ONE: u32 = 0x3f80_0000;

/// A step of a uniform score.
#[derive(Clone, Copy, Debug, PartialEq, Eq, Structural)]
pub enum ScoreStep {
    /// Times a float.
    Times(u32),
    /// Plus zero: a filter's score.
    PlusZero,
}

/// A score that every match of a query gets: a float, and the steps that
/// lead from it to the score.
pub struct Uniform {
    pub base: u32,
    pub steps: Vec<ScoreStep>,
}

/// What a uniform score is.
pub struct UniformV {
    pub base: u32,
    pub steps: Seq<ScoreStep>,
}

impl View for Uniform {
    type V = UniformV;

    open spec fn view(&self) -> UniformV {
        UniformV { base: self.base, steps: self.steps@ }
    }
}

/// Adding the scores of some filters.
pub open spec fn plus_zeros(n: nat) -> Seq<ScoreStep> {
    Seq::new(n, |i: int| ScoreStep::PlusZero)
}

/// A fixed score.
pub open spec fn fixed(base: u32) -> UniformV {
    UniformV { base, steps: Seq::empty() }
}

/// The score that every match of a query gets, when no match can score
/// differently from another: leaves that always score one, constant scores,
/// boosts of such queries, and boolean queries without `should` and with at
/// most one `must`.
pub open spec fn uniform(q: QueryV, fields: Seq<(Seq<char>, FieldClass)>) -> Option<UniformV>
    decreases q,
{
    match q {
        QueryV::MatchAll => Some(fixed(ONE)),
        QueryV::Terms { .. } => Some(fixed(ONE)),
        QueryV::Range { .. } => Some(fixed(ONE)),
        QueryV::Exists { .. } => Some(fixed(ONE)),
        QueryV::IsNull { .. } => Some(fixed(ONE)),
        QueryV::IsEmpty { .. } => Some(fixed(ONE)),
        QueryV::ValuesCount { .. } => Some(fixed(ONE)),
        QueryV::Ids(_) => Some(fixed(ONE)),
        QueryV::Term { field, value } => {
            let scored = match class_of(fields, field) {
                FieldClass::Words => true,
                FieldClass::JsonPath => value is Str,
                _ => false,
            };
            if scored {
                None
            } else {
                Some(fixed(ONE))
            }
        },
        QueryV::ConstantScore { score, .. } => Some(fixed(score)),
        QueryV::Boost { query, boost } => match uniform(*query, fields) {
            Some(u) => Some(
                UniformV { base: u.base, steps: u.steps.push(ScoreStep::Times(boost)) },
            ),
            None => None,
        },
        QueryV::Bool { must, should, must_not, filter, .. } => if should.len() > 0 || must.len()
            > 1 {
            None
        } else if must.len() == 1 {
            match uniform(must[0], fields) {
                Some(u) => Some(
                    UniformV { base: u.base, steps: u.steps + plus_zeros(filter.len()) },
                ),
                None => None,
            }
        } else if filter.len() == 0 && must_not.len() == 0 {
            Some(fixed(ONE))
        } else {
            Some(fixed(0))
        },
        _ => None,
    }
}

/// What a uniform score that may be missing is.
pub open spec fn opt_uniform(u: Option<Uniform>) -> Option<UniformV> {
    match u {
        Some(u) => Some(u@),
        None => None,
    }
}

fn fix(base: u32) -> (r: Option<Uniform>)
    ensures
        opt_uniform(r) == Some(fixed(base)),
{
    Some(Uniform { base, steps: Vec::new() })
}

/// The score that every match of `q` gets, if there is one.
pub fn uniform_score(q: &Query, fields: &Vec<(String, FieldClass)>) -> (r: Option<Uniform>)
    ensures
        opt_uniform(r) == uniform(q@, class_views(fields@)),
    decreases q,
{
    broadcast use query::view_bool;

    match q {
        Query::MatchAll => fix(ONE),
        Query::Terms { .. } => fix(ONE),
        Query::Range { .. } => fix(ONE),
        Query::Exists { .. } => fix(ONE),
        Query::IsNull { .. } => fix(ONE),
        Query::IsEmpty { .. } => fix(ONE),
        Query::ValuesCount { .. } => fix(ONE),
        Query::Ids(_) => fix(ONE),
        Query::Term { field, value } => {
            let scored = match find_class(fields, field.as_str()) {
                FieldClass::Words => true,
                FieldClass::JsonPath => match value {
                    FieldValue::Str(_) => true,
                    _ => false,
                },
                _ => false,
            };
            if scored {
                None
            } else {
                fix(ONE)
            }
        },
        Query::ConstantScore { score, .. } => fix(*score),
        Query::Boost { query, boost } => match uniform_score(query, fields) {
            Some(u) => {
                let mut steps = u.steps;
                steps.push(ScoreStep::Times(*boost));
                Some(Uniform { base: u.base, steps })
            },
            None => None,
        },
        Query::Bool { must, should, must_not, filter, .. } => {
            if should.len() > 0 || must.len() > 1 {
                None
            } else if must.len() == 1 {
                assert(decreases_to!(*q => q->Bool_must));
                assert(decreases_to!(*must => must@));
                assert(decreases_to!(must@ => must@[0]));
                match uniform_score(&must[0], fields) {
                    Some(u) => {
                        let base: u32 = u.base;
                        let mut steps = u.steps;
                        let ghost start = steps@;
                        let mut i: usize = 0;
                        proof {
                            assert(start + plus_zeros(0) =~= start);
                        }
                        while i < filter.len()
                            invariant
                                i <= filter@.len(),
                                steps@ == start + plus_zeros(i as nat),
                            decreases filter.len() - i,
                        {
                            steps.push(ScoreStep::PlusZero);
                            i += 1;
                            proof {
                                assert(steps@ =~= start + plus_zeros(i as nat));
                            }
                        }
                        Some(Uniform { base, steps })
                    },
                    None => None,
                }
            } else if filter.len() == 0 && must_not.len() == 0 {
                fix(ONE)
            } else {
                fix(0)
            }
        },
        _ => None,
    }
}

/// Whether every key of a sort by score reads the score or is a key
/// position.
pub open spec fn by_score_only(sort: EffectiveSort) -> bool {
    sort.mode == RankMode::Score && forall|i: int|
        0 <= i < order::keys_of(sort).len() ==> !((#[trigger] order::keys_of(sort)[i]) is Field)
}

/// Whether every key of a sort by score reads the score or is a key
/// position.
pub fn score_only(sort: &EffectiveSort) -> (r: bool)
    ensures
        r == by_score_only(*sort),
{
    if sort.mode != RankMode::Score {
        return false;
    }
    let ghost keys = order::keys_of(*sort);
    let mut i: usize = 0;
    while i < sort.keys.len()
        invariant
            i <= sort.keys@.len(),
            keys == order::keys_of(*sort),
            forall|j: int| 0 <= j < i ==> !((#[trigger] keys[j]) is Field),
        decreases sort.keys.len() - i,
    {
        assert(keys[i as int] == sort.keys@[i as int]@);
        match &sort.keys[i] {
            SortKey::Field { .. } => {
                return false;
            },
            _ => {},
        }
        i += 1;
    }
    true
}

/// An operator that produces ranked candidates.
#[allow(inconsistent_fields)]
pub enum PlanNode {
    Ann { field: String, query: Vec<u32>, k: usize, params: AnnParams, filter: Option<Query> },
    /// Every match ties, so the best are the ones with the smallest keys.
    ConstantText { matches: Query, k: usize, score: Uniform },
    Text { query: Query, filter: Option<Query>, k: usize },
    Fusion { inputs: Vec<PlanNode>, fusion: Fusion, k: usize },
    /// The input's candidates rescored against the vector at a place of the
    /// schema.
    Rescore { input: Box<PlanNode>, vector: usize, query: Vec<u32>, k: usize },
    Sparse {
        field: String,
        query: SparseVector,
        k: usize,
        filter: Option<Query>,
        corpus: Option<Query>,
    },
}

/// What an operator is.
#[allow(inconsistent_fields)]
pub enum PlanV {
    Ann {
        field: Seq<char>,
        query: Seq<u32>,
        k: usize,
        params: AnnParams,
        filter: Option<QueryV>,
    },
    ConstantText { matches: QueryV, k: usize, score: UniformV },
    Text { query: QueryV, filter: Option<QueryV>, k: usize },
    Fusion { inputs: Seq<PlanV>, fusion: FusionV, k: usize },
    Rescore { input: Box<PlanV>, vector: usize, query: Seq<u32>, k: usize },
    Sparse {
        field: Seq<char>,
        query: SparseV,
        k: usize,
        filter: Option<QueryV>,
        corpus: Option<QueryV>,
    },
}

impl View for PlanNode {
    type V = PlanV;

    open spec fn view(&self) -> PlanV {
        plan_view(*self)
    }
}

/// What `p` is.
pub open spec fn plan_view(p: PlanNode) -> PlanV
    decreases p,
{
    match p {
        PlanNode::Ann { field, query, k, params, filter } => PlanV::Ann {
            field: field@,
            query: query@,
            k,
            params,
            filter: query::opt_query(filter),
        },
        PlanNode::ConstantText { matches, k, score } => PlanV::ConstantText {
            matches: matches@,
            k,
            score: score@,
        },
        PlanNode::Text { query, filter, k } => PlanV::Text {
            query: query@,
            filter: query::opt_query(filter),
            k,
        },
        PlanNode::Fusion { inputs, fusion, k } => PlanV::Fusion {
            inputs: Seq::new(
                inputs@.len(),
                |i: int|
                    if 0 <= i < inputs@.len() {
                        plan_view(inputs@[i])
                    } else {
                        PlanV::Text { query: QueryV::MatchAll, filter: None, k: 0 }
                    },
            ),
            fusion: fusion@,
            k,
        },
        PlanNode::Rescore { input, vector, query, k } => PlanV::Rescore {
            input: Box::new(plan_view(*input)),
            vector,
            query: query@,
            k,
        },
        PlanNode::Sparse { field, query, k, filter, corpus } => PlanV::Sparse {
            field: field@,
            query: query@,
            k,
            filter: query::opt_query(filter),
            corpus: query::opt_query(corpus),
        },
    }
}

/// What some operators are.
pub open spec fn plan_views(s: Seq<PlanNode>) -> Seq<PlanV> {
    Seq::new(s.len(), |i: int| s[i]@)
}

/// The view of a fusion, input by input.
pub broadcast proof fn view_fusion(inputs: Vec<PlanNode>, fusion: Fusion, k: usize)
    ensures
        #[trigger] plan_view(PlanNode::Fusion { inputs, fusion, k }) == (PlanV::Fusion {
            inputs: plan_views(inputs@),
            fusion: fusion@,
            k,
        }),
{
    let v = plan_view(PlanNode::Fusion { inputs, fusion, k });
    assert(v->inputs =~= plan_views(inputs@));
}

/// What planning depends on.
pub struct ContextV {
    pub schema: SchemaV,
    pub fields: Seq<(Seq<char>, FieldClass)>,
    pub score_only: bool,
    pub filter: Option<QueryV>,
}

/// A uniform score under a filter, whose score is added.
pub open spec fn under_filter(u: UniformV, filter: bool) -> UniformV {
    if filter {
        UniformV { base: u.base, steps: u.steps.push(ScoreStep::PlusZero) }
    } else {
        u
    }
}

/// The operator of a retriever, or why it is refused.
pub open spec fn planned(c: ContextV, r: RetrieverV) -> Result<PlanV, Seq<char>>
    decreases r, 0nat,
{
    match r {
        RetrieverV::Vector { field, query, k, params, filter } => Ok(
            PlanV::Ann { field, query, k, params, filter: both(c.filter, filter) },
        ),
        RetrieverV::Text { query, k } => match uniform(query, c.fields) {
            Some(u) => if c.score_only {
                Ok(
                    PlanV::ConstantText {
                        matches: filtered_query(query, c.filter),
                        k,
                        score: under_filter(u, c.filter is Some),
                    },
                )
            } else {
                Ok(PlanV::Text { query, filter: c.filter, k })
            },
            None => Ok(PlanV::Text { query, filter: c.filter, k }),
        },
        RetrieverV::Fused { inputs, fusion, k } => match planned_all(c, inputs, inputs.len()) {
            Ok(inputs) => Ok(PlanV::Fusion { inputs, fusion, k }),
            Err(m) => Err(m),
        },
        RetrieverV::Rescore { input, field, query, k } => match planned(c, *input) {
            Err(m) => Err(m),
            Ok(p) => match ann::vector_refusal(c.schema, field, query.len()) {
                Some(m) => Err(m),
                None => Ok(
                    PlanV::Rescore {
                        input: Box::new(p),
                        vector: vector_place(c.schema, field),
                        query,
                        k,
                    },
                ),
            },
        },
        RetrieverV::Sparse { field, query, k, filter, idf_corpus } => Ok(
            PlanV::Sparse { field, query, k, filter: both(c.filter, filter), corpus: idf_corpus },
        ),
    }
}

/// The operators of the first `n` retrievers, or why the first refused one
/// is refused.
pub open spec fn planned_all(c: ContextV, s: Seq<RetrieverV>, n: nat) -> Result<
    Seq<PlanV>,
    Seq<char>,
>
    decreases s, n,
{
    if n == 0 || n > s.len() {
        Ok(Seq::empty())
    } else {
        match planned_all(c, s, (n - 1) as nat) {
            Err(m) => Err(m),
            Ok(before) => match planned(c, s[n - 1]) {
                Err(m) => Err(m),
                Ok(p) => Ok(before.push(p)),
            },
        }
    }
}

/// The place of a dense vector in a schema.
pub open spec fn vector_place(s: SchemaV, field: Seq<char>) -> usize {
    (choose|i: int| text::is_first(collection::vector_names(s.vectors), field, i)) as usize
}

proof fn refusals_stay(c: ContextV, s: Seq<RetrieverV>, n: nat)
    requires
        n <= s.len(),
    ensures
        planned_all(c, s, n) is Err ==> planned_all(c, s, s.len()) == planned_all(c, s, n),
    decreases s.len() - n,
{
    if n < s.len() {
        refusals_stay(c, s, n + 1);
    }
}

/// What planning a request depends on.
pub struct Context<'a> {
    pub schema: &'a CollectionSchema,
    pub fields: &'a Vec<(String, FieldClass)>,
    pub score_only: bool,
    pub filter: &'a Option<Query>,
}

impl<'a> View for Context<'a> {
    type V = ContextV;

    open spec fn view(&self) -> ContextV {
        ContextV {
            schema: self.schema@,
            fields: class_views(self.fields@),
            score_only: self.score_only,
            filter: query::opt_query(*self.filter),
        }
    }
}

impl<'a> Context<'a> {
    /// The operator of a retriever.
    pub fn plan(&self, r: &Retriever) -> (p: Result<PlanNode, ServiceError>)
        ensures
            match (p, planned(self@, r@)) {
                (Ok(p), Ok(want)) => p@ == want,
                (Err(e), Err(m)) => e@ == Failure::InvalidArgument(m),
                _ => false,
            },
        decreases r,
    {
        broadcast use {ir::view_fused, view_fusion};

        match r {
            Retriever::Vector { field, query, k, params, filter } => Ok(
                PlanNode::Ann {
                    field: field.clone(),
                    query: ir::copy_bits(query),
                    k: *k,
                    params: *params,
                    filter: and(self.filter, filter),
                },
            ),
            Retriever::Text { query, k } => match uniform_score(query, self.fields) {
                Some(u) => {
                    if self.score_only {
                        let base: u32 = u.base;
                        let mut steps = u.steps;
                        if self.filter.is_some() {
                            steps.push(ScoreStep::PlusZero);
                        }
                        Ok(
                            PlanNode::ConstantText {
                                matches: matching(query, self.filter),
                                k: *k,
                                score: Uniform { base, steps },
                            },
                        )
                    } else {
                        Ok(
                            PlanNode::Text {
                                query: query.copy(),
                                filter: query::copy_opt_query(self.filter),
                                k: *k,
                            },
                        )
                    }
                },
                None => Ok(
                    PlanNode::Text {
                        query: query.copy(),
                        filter: query::copy_opt_query(self.filter),
                        k: *k,
                    },
                ),
            },
            Retriever::Fused { inputs, fusion, k } => {
                let ghost all = ir::retriever_views(inputs@);
                let mut out: Vec<PlanNode> = Vec::new();
                let mut i: usize = 0;
                proof {
                    assert(plan_views(out@) =~= Seq::<PlanV>::empty());
                }
                while i < inputs.len()
                    invariant
                        i <= inputs@.len(),
                        all == ir::retriever_views(inputs@),
                        planned_all(self@, all, i as nat) == Ok::<Seq<PlanV>, Seq<char>>(
                            plan_views(out@),
                        ),
                        *r == (Retriever::Fused {
                            inputs: *inputs,
                            fusion: *fusion,
                            k: *k,
                        }),
                        r@ == (RetrieverV::Fused { inputs: all, fusion: fusion@, k: *k }),
                    decreases inputs.len() - i,
                {
                    assert(decreases_to!(*r => r->inputs));
                    assert(decreases_to!(*inputs => inputs@));
                    assert(decreases_to!(inputs@ => inputs@[i as int]));
                    let ghost was = out@;
                    assert(all[i as int] == inputs@[i as int]@);
                    match self.plan(&inputs[i]) {
                        Ok(p) => {
                            out.push(p);
                            proof {
                                assert(plan_views(out@) =~= plan_views(was).push(p@));
                            }
                        },
                        Err(e) => {
                            proof {
                                refusals_stay(self@, all, i as nat + 1);
                            }
                            return Err(e);
                        },
                    }
                    i += 1;
                }
                Ok(PlanNode::Fusion { inputs: out, fusion: fusion.copy(), k: *k })
            },
            Retriever::Rescore { input, field, query, k } => {
                let inner = match self.plan(input) {
                    Ok(p) => p,
                    Err(e) => {
                        return Err(e);
                    },
                };
                match ann::vector_spec(self.schema, field.as_str(), query.len()) {
                    Ok(i) => {
                        proof {
                            let names = collection::vector_names(self.schema@.vectors);
                            let c = choose|c: int| text::is_first(names, field@, c);
                            assert(text::is_first(names, field@, c));
                            assert(names[i as int] == field@);
                            assert(c == i);
                        }
                        Ok(
                            PlanNode::Rescore {
                                input: Box::new(inner),
                                vector: i,
                                query: ir::copy_bits(query),
                                k: *k,
                            },
                        )
                    },
                    Err(e) => Err(e),
                }
            },
            Retriever::Sparse { field, query, k, filter, idf_corpus } => Ok(
                PlanNode::Sparse {
                    field: field.clone(),
                    query: query.copy(),
                    k: *k,
                    filter: and(self.filter, filter),
                    corpus: query::copy_opt_query(idf_corpus),
                },
            ),
        }
    }

    /// The operators of some retrievers; the error of the first that is
    /// refused.
    pub fn plan_all(&self, inputs: &Vec<Retriever>) -> (p: Result<Vec<PlanNode>, ServiceError>)
        ensures
            match (p, planned_all(self@, ir::retriever_views(inputs@), inputs@.len())) {
                (Ok(p), Ok(want)) => plan_views(p@) == want,
                (Err(e), Err(m)) => e@ == Failure::InvalidArgument(m),
                _ => false,
            },
    {
        let ghost all = ir::retriever_views(inputs@);
        let mut out: Vec<PlanNode> = Vec::new();
        let mut i: usize = 0;
        proof {
            assert(plan_views(out@) =~= Seq::<PlanV>::empty());
        }
        while i < inputs.len()
            invariant
                i <= inputs@.len(),
                all == ir::retriever_views(inputs@),
                planned_all(self@, all, i as nat) == Ok::<Seq<PlanV>, Seq<char>>(plan_views(out@)),
            decreases inputs.len() - i,
        {
            let ghost was = out@;
            assert(all[i as int] == inputs@[i as int]@);
            match self.plan(&inputs[i]) {
                Ok(p) => {
                    out.push(p);
                    proof {
                        assert(plan_views(out@) =~= plan_views(was).push(p@));
                    }
                },
                Err(e) => {
                    proof {
                        refusals_stay(self@, all, i as nat + 1);
                    }
                    return Err(e);
                },
            }
            i += 1;
        }
        Ok(out)
    }

    /// The operator of a request by score: its one retriever, or the fusion
    /// of all of them, as many as the largest of them asks for.
    pub fn plan_root(&self, inputs: &Vec<Retriever>, fusion: &Option<Fusion>) -> (p: Result<
        PlanNode,
        ServiceError,
    >)
        ensures
            match (p, rooted(self@, ir::retriever_views(inputs@), opt_fusion(*fusion))) {
                (Ok(p), Ok(want)) => p@ == want,
                (Err(e), Err(m)) => e@ == Failure::InvalidArgument(m),
                _ => false,
            },
    {
        broadcast use view_fusion;

        let ghost all = ir::retriever_views(inputs@);
        let mut plans = match self.plan_all(inputs) {
            Ok(p) => p,
            Err(e) => {
                return Err(e);
            },
        };
        let ghost built = plan_views(plans@);
        proof {
            planned_len(self@, all, all.len());
        }
        if fusion.is_none() && plans.len() == 1 {
            let only = plans.remove(0);
            assert(built[0] == only@);
            return Ok(only);
        }
        let mut window: usize = 0;
        let mut i: usize = 0;
        proof {
            assert(all.take(0) =~= Seq::<RetrieverV>::empty());
        }
        while i < inputs.len()
            invariant
                i <= inputs@.len(),
                all == ir::retriever_views(inputs@),
                window == widest(all.take(i as int)),
            decreases inputs.len() - i,
        {
            proof {
                assert(all.take(i as int + 1).drop_last() =~= all.take(i as int));
                assert(all.take(i as int + 1).last() == inputs@[i as int]@);
            }
            let k: usize = inputs[i].k();
            if k > window {
                window = k;
            }
            i += 1;
        }
        proof {
            assert(all.take(all.len() as int) =~= all);
        }
        let fusion = match fusion {
            Some(f) => f.copy(),
            None => Fusion::Rrf { k: 60 },
        };
        Ok(PlanNode::Fusion { inputs: plans, fusion, k: window })
    }
}

proof fn planned_len(c: ContextV, s: Seq<RetrieverV>, n: nat)
    requires
        n <= s.len(),
    ensures
        planned_all(c, s, n) matches Ok(p) ==> p.len() == n,
    decreases n,
{
    if n > 0 {
        planned_len(c, s, (n - 1) as nat);
    }
}

/// The most that some retrievers ask for.
pub open spec fn widest(s: Seq<RetrieverV>) -> nat
    decreases s.len(),
{
    if s.len() == 0 {
        0
    } else {
        let before = widest(s.drop_last());
        let k = ir::retriever_k(s.last()) as nat;
        if k > before {
            k
        } else {
            before
        }
    }
}

/// What a fusion that may be missing is.
pub open spec fn opt_fusion(f: Option<Fusion>) -> Option<FusionV> {
    match f {
        Some(f) => Some(f@),
        None => None,
    }
}

/// The operator of a request by score.
pub open spec fn rooted(c: ContextV, s: Seq<RetrieverV>, fusion: Option<FusionV>) -> Result<
    PlanV,
    Seq<char>,
> {
    match planned_all(c, s, s.len()) {
        Err(m) => Err(m),
        Ok(plans) => if fusion is None && s.len() == 1 {
            Ok(plans[0])
        } else {
            Ok(
                PlanV::Fusion {
                    inputs: plans,
                    fusion: match fusion {
                        Some(f) => f,
                        None => FusionV::Rrf { k: 60 },
                    },
                    k: widest(s) as usize,
                },
            )
        },
    }
}

} // verus!
