//! What a plan finds and asks for: just the documents that its retriever
//! wants under the request's filter, with what the retriever says.

use crate::collection;
use crate::exec::ann;
use crate::exec::plan;
use crate::exec::plan::{ContextV, FieldClass, PlanV, ScoreStep, UniformV};
use crate::ir;
use crate::ir::{FusionV, RetrieverV};
use crate::meaning;
use crate::meaning::DocV;
use crate::query::QueryV;
use crate::text;
use vstd::prelude::*;

verus! {

/// Whether an operator may give a document: one that reads documents gives
/// those that match its query and its filter, the others what their inputs
/// give.
pub open spec fn gives(p: PlanV, d: DocV, words: spec_fn(QueryV, DocV) -> bool) -> bool
    decreases p,
{
    match p {
        PlanV::Ann { filter, .. } => meaning::passes(filter, d, words),
        PlanV::ConstantText { matches: q, .. } => meaning::finds(q, d, words),
        PlanV::Text { query, filter, .. } => meaning::finds(query, d, words) && meaning::passes(
            filter,
            d,
            words,
        ),
        PlanV::Fusion { inputs, .. } => exists|i: int|
            0 <= i < inputs.len() && gives(#[trigger] inputs[i], d, words),
        PlanV::Rescore { input, .. } => gives(*input, d, words),
        PlanV::Sparse { filter, .. } => meaning::passes(filter, d, words),
    }
}

/// Whether a retriever wants a document of a request with a filter: the
/// document passes the filter, the retriever's own filter, and matches its
/// text query.
pub open spec fn wants(
    r: RetrieverV,
    filter: Option<QueryV>,
    d: DocV,
    words: spec_fn(QueryV, DocV) -> bool,
) -> bool
    decreases r,
{
    match r {
        RetrieverV::Vector { filter: own, .. } => meaning::passes(filter, d, words)
            && meaning::passes(own, d, words),
        RetrieverV::Text { query, .. } => meaning::passes(filter, d, words) && meaning::finds(
            query,
            d,
            words,
        ),
        RetrieverV::Fused { inputs, .. } => exists|i: int|
            0 <= i < inputs.len() && wants(#[trigger] inputs[i], filter, d, words),
        RetrieverV::Rescore { input, .. } => wants(*input, filter, d, words),
        RetrieverV::Sparse { filter: own, .. } => meaning::passes(filter, d, words)
            && meaning::passes(own, d, words),
    }
}

/// Whether every operator that reads documents gives only documents that
/// pass a filter.
pub open spec fn reads_under(
    p: PlanV,
    filter: Option<QueryV>,
    d: DocV,
    words: spec_fn(QueryV, DocV) -> bool,
) -> bool
    decreases p,
{
    match p {
        PlanV::Fusion { inputs, .. } => forall|i: int|
            0 <= i < inputs.len() ==> reads_under(#[trigger] inputs[i], filter, d, words),
        PlanV::Rescore { input, .. } => reads_under(*input, filter, d, words),
        _ => gives(p, d, words) ==> meaning::passes(filter, d, words),
    }
}

proof fn both_pass(
    a: Option<QueryV>,
    b: Option<QueryV>,
    d: DocV,
    words: spec_fn(QueryV, DocV) -> bool,
)
    ensures
        meaning::passes(plan::both(a, b), d, words) == (meaning::passes(a, d, words)
            && meaning::passes(b, d, words)),
{
    if a is Some && b is Some {
        let two = seq![a->0, b->0];
        meaning::conjunctions_match(Seq::empty(), two, d, words);
        assert(two[0] == a->0 && two[1] == b->0);
    }
}

proof fn filtered_match(
    q: QueryV,
    filter: Option<QueryV>,
    d: DocV,
    words: spec_fn(QueryV, DocV) -> bool,
)
    ensures
        meaning::finds(plan::filtered_query(q, filter), d, words) == (meaning::finds(q, d, words)
            && meaning::passes(filter, d, words)),
{
    if filter is Some {
        let one = seq![q];
        let other = seq![filter->0];
        meaning::conjunctions_match(one, other, d, words);
        assert(one[0] == q && other[0] == filter->0);
    }
}

/// A plan gives just the documents that its retriever wants: those that pass
/// the request's filter and, of each part, its own filter and its query; and
/// every operator that reads documents reads under the request's filter.
pub proof fn plans_give_what_is_wanted(
    c: ContextV,
    r: RetrieverV,
    d: DocV,
    words: spec_fn(QueryV, DocV) -> bool,
)
    ensures
        plan::planned(c, r) matches Ok(p) ==> {
            &&& gives(p, d, words) == wants(r, c.filter, d, words)
            &&& reads_under(p, c.filter, d, words)
        },
    decreases r, 0nat,
{
    match r {
        RetrieverV::Vector { filter, .. } => {
            both_pass(c.filter, filter, d, words);
        },
        RetrieverV::Text { query, k } => {
            filtered_match(query, c.filter, d, words);
        },
        RetrieverV::Fused { inputs, fusion, k } => {
            all_give_what_is_wanted(c, inputs, inputs.len(), d, words);
            if let Ok(p) = plan::planned(c, r) {
                let plans = p->inputs;
                if gives(p, d, words) {
                    let i = choose|i: int| 0 <= i < plans.len() && gives(#[trigger] plans[i], d, words);
                    assert(wants(inputs[i], c.filter, d, words));
                }
                if wants(r, c.filter, d, words) {
                    let i = choose|i: int|
                        0 <= i < inputs.len() && wants(#[trigger] inputs[i], c.filter, d, words);
                    assert(gives(plans[i], d, words));
                }
            }
        },
        RetrieverV::Rescore { input, .. } => {
            plans_give_what_is_wanted(c, *input, d, words);
        },
        RetrieverV::Sparse { filter, .. } => {
            both_pass(c.filter, filter, d, words);
        },
    }
}

proof fn all_give_what_is_wanted(
    c: ContextV,
    s: Seq<RetrieverV>,
    n: nat,
    d: DocV,
    words: spec_fn(QueryV, DocV) -> bool,
)
    requires
        n <= s.len(),
    ensures
        plan::planned_all(c, s, n) matches Ok(plans) ==> {
            &&& plans.len() == n
            &&& forall|i: int|
                0 <= i < n ==> {
                    &&& gives(#[trigger] plans[i], d, words) == wants(s[i], c.filter, d, words)
                    &&& reads_under(plans[i], c.filter, d, words)
                }
        },
    decreases s, n,
{
    if n > 0 {
        assert(decreases_to!(s => s[n - 1]));
        all_give_what_is_wanted(c, s, (n - 1) as nat, d, words);
        plans_give_what_is_wanted(c, s[n - 1], d, words);
    }
}

/// Whether a plan asks for what a retriever says: the same number of hits,
/// fields, vectors, parameters and fusions, part by part, and a rescoring
/// against the vector of its name.
pub open spec fn asks_alike(p: PlanV, r: RetrieverV, c: ContextV) -> bool
    decreases r,
{
    match (r, p) {
        (
            RetrieverV::Vector { field, query, k, params, .. },
            PlanV::Ann { field: f, query: q, k: n, params: o, .. },
        ) => f == field && q == query && n == k && o == params,
        (RetrieverV::Text { query, k }, PlanV::Text { query: q, k: n, .. }) => q == query && n == k,
        (RetrieverV::Text { k, .. }, PlanV::ConstantText { k: n, .. }) => n == k && c.score_only,
        (
            RetrieverV::Fused { inputs, fusion, k },
            PlanV::Fusion { inputs: plans, fusion: f, k: n },
        ) => {
            &&& f == fusion
            &&& n == k
            &&& plans.len() == inputs.len()
            &&& forall|i: int|
                0 <= i < inputs.len() ==> asks_alike(plans[i], #[trigger] inputs[i], c)
        },
        (
            RetrieverV::Rescore { input, field, query, k },
            PlanV::Rescore { input: plan, vector, query: q, k: n },
        ) => {
            &&& asks_alike(*plan, *input, c)
            &&& q == query
            &&& n == k
            &&& vector < c.schema.vectors.len()
            &&& c.schema.vectors[vector as int].name == field
            &&& c.schema.vectors[vector as int].dim == query.len()
            &&& forall|j: int|
                0 <= j < vector ==> (#[trigger] c.schema.vectors[j]).name != field
        },
        (
            RetrieverV::Sparse { field, query, k, idf_corpus, .. },
            PlanV::Sparse { field: f, query: q, k: n, corpus, .. },
        ) => f == field && q == query && n == k && corpus == idf_corpus,
        _ => false,
    }
}

/// A plan asks for what its retriever says, and every retriever plans but
/// one that rescores against a vector that the schema does not have, or not
/// with as many dimensions.
pub proof fn plans_ask_what_is_said(c: ContextV, r: RetrieverV)
    requires
        c.schema.vectors.len() <= usize::MAX,
    ensures
        match plan::planned(c, r) {
            Ok(p) => asks_alike(p, r, c) && rescores_fit(r, c),
            Err(_) => !rescores_fit(r, c),
        },
    decreases r, 0nat,
{
    match r {
        RetrieverV::Fused { inputs, .. } => {
            all_ask_what_is_said(c, inputs, inputs.len());
        },
        RetrieverV::Rescore { input, field, query, .. } => {
            plans_ask_what_is_said(c, *input);
            let names = collection::vector_names(c.schema.vectors);
            if !text::absent(names, field) {
                first_is_there(names, field);
                let i = choose|i: int| text::is_first(names, field, i);
                assert(c.schema.vectors[i].name == names[i]);
                assert forall|j: int| 0 <= j < i implies (#[trigger] c.schema.vectors[j]).name
                    != field by {
                    assert(names[j] == c.schema.vectors[j].name);
                }
                if ann::vector_refusal(c.schema, field, query.len()) is None {
                    assert(fits_at(c, field, query.len(), i));
                } else {
                    assert forall|j: int| !#[trigger] fits_at(c, field, query.len(), j) by {
                        if fits_at(c, field, query.len(), j) {
                            assert(names[j] == field);
                            if j < i {
                                assert(c.schema.vectors[j].name != field);
                            } else if i < j {
                                assert(c.schema.vectors[i].name == field);
                            }
                        }
                    }
                }
            } else {
                assert forall|j: int| !#[trigger] fits_at(c, field, query.len(), j) by {
                    if fits_at(c, field, query.len(), j) {
                        assert(names[j] == field);
                    }
                }
            }
        },
        _ => {},
    }
}

/// Whether the first vector of a name stands at a place and has so many
/// dimensions.
pub open spec fn fits_at(c: ContextV, field: Seq<char>, len: nat, i: int) -> bool {
    &&& 0 <= i < c.schema.vectors.len()
    &&& c.schema.vectors[i].name == field
    &&& c.schema.vectors[i].dim == len
    &&& forall|j: int| 0 <= j < i ==> (#[trigger] c.schema.vectors[j]).name != field
}

/// Whether every rescoring of a retriever is against a vector of the schema
/// with as many dimensions.
pub open spec fn rescores_fit(r: RetrieverV, c: ContextV) -> bool
    decreases r,
{
    match r {
        RetrieverV::Fused { inputs, .. } => forall|i: int|
            0 <= i < inputs.len() ==> rescores_fit(#[trigger] inputs[i], c),
        RetrieverV::Rescore { input, field, query, .. } => rescores_fit(*input, c) && exists|i: int|
            #[trigger] fits_at(c, field, query.len(), i),
        _ => true,
    }
}

proof fn first_is_there(names: Seq<Seq<char>>, name: Seq<char>)
    requires
        !text::absent(names, name),
    ensures
        exists|i: int| text::is_first(names, name, i),
{
    let j = choose|j: int| 0 <= j < names.len() && names[j] == name;
    first_before(names, name, j);
}

proof fn first_before(names: Seq<Seq<char>>, name: Seq<char>, j: int)
    requires
        0 <= j < names.len(),
        names[j] == name,
    ensures
        exists|i: int| text::is_first(names, name, i),
    decreases j,
{
    if exists|i: int| 0 <= i < j && names[i] == name {
        let i = choose|i: int| 0 <= i < j && names[i] == name;
        first_before(names, name, i);
    } else {
        assert(text::is_first(names, name, j));
    }
}

proof fn all_ask_what_is_said(c: ContextV, s: Seq<RetrieverV>, n: nat)
    requires
        n <= s.len(),
        c.schema.vectors.len() <= usize::MAX,
    ensures
        match plan::planned_all(c, s, n) {
            Ok(plans) => {
                &&& plans.len() == n
                &&& forall|i: int|
                    0 <= i < n ==> asks_alike(plans[i], #[trigger] s[i], c) && rescores_fit(s[i], c)
            },
            Err(_) => exists|i: int| 0 <= i < n && !rescores_fit(#[trigger] s[i], c),
        },
    decreases s, n,
{
    if n > 0 {
        assert(decreases_to!(s => s[n - 1]));
        all_ask_what_is_said(c, s, (n - 1) as nat);
        plans_ask_what_is_said(c, s[n - 1]);
    }
}

/// The root of a request by score gives just the documents that some
/// retriever wants under the request's filter.
pub proof fn roots_give_what_is_wanted(
    c: ContextV,
    s: Seq<RetrieverV>,
    fusion: Option<FusionV>,
    d: DocV,
    words: spec_fn(QueryV, DocV) -> bool,
)
    ensures
        plan::rooted(c, s, fusion) matches Ok(p) ==> {
            &&& gives(p, d, words) <==> exists|i: int|
                0 <= i < s.len() && wants(#[trigger] s[i], c.filter, d, words)
            &&& reads_under(p, c.filter, d, words)
        },
{
    all_give_what_is_wanted(c, s, s.len(), d, words);
    if let Ok(p) = plan::rooted(c, s, fusion) {
        let plans = plan::planned_all(c, s, s.len())->Ok_0;
        if gives(p, d, words) {
            if fusion is None && s.len() == 1 {
                assert(gives(plans[0], d, words));
                assert(wants(s[0], c.filter, d, words));
            } else {
                let i = choose|i: int| 0 <= i < plans.len() && gives(#[trigger] plans[i], d, words);
                assert(wants(s[i], c.filter, d, words));
            }
        }
        if exists|i: int| 0 <= i < s.len() && wants(#[trigger] s[i], c.filter, d, words) {
            let i = choose|i: int| 0 <= i < s.len() && wants(#[trigger] s[i], c.filter, d, words);
            assert(gives(plans[i], d, words));
        }
        if fusion is None && s.len() == 1 {
            assert(p == plans[0]);
            assert(reads_under(plans[0], c.filter, d, words));
        } else {
            assert(p->inputs == plans);
            assert(reads_under(p, c.filter, d, words)) by {
                assert forall|i: int| 0 <= i < plans.len() implies reads_under(
                    #[trigger] p->inputs[i],
                    c.filter,
                    d,
                    words,
                ) by {
                    assert(gives(plans[i], d, words) == wants(s[i], c.filter, d, words));
                }
            }
        }
    }
}

proof fn widest_bounds(s: Seq<RetrieverV>)
    ensures
        plan::widest(s) <= usize::MAX,
        forall|i: int|
            0 <= i < s.len() ==> ir::retriever_k(#[trigger] s[i]) <= plan::widest(s),
        s.len() > 0 ==> exists|i: int|
            0 <= i < s.len() && ir::retriever_k(#[trigger] s[i]) == plan::widest(s),
    decreases s.len(),
{
    if s.len() > 0 {
        let t = s.drop_last();
        widest_bounds(t);
        assert(s[s.len() - 1] == s.last());
        assert forall|i: int| 0 <= i < s.len() implies ir::retriever_k(#[trigger] s[i])
            <= plan::widest(s) by {
            if i < t.len() {
                assert(t[i] == s[i]);
            }
        }
        if plan::widest(s) != ir::retriever_k(s.last()) {
            assert(t.len() > 0);
            let i = choose|i: int|
                0 <= i < t.len() && ir::retriever_k(#[trigger] t[i]) == plan::widest(t);
            assert(s[i] == t[i]);
        } else {
            assert(ir::retriever_k(s[s.len() - 1]) == plan::widest(s));
        }
    }
}

/// The root of a request by score asks for what its one retriever says, or
/// fuses the plans of all of them in their order: by the request's fusion,
/// else by reciprocal ranks over sixty, and as many hits as the retriever
/// that asks for the most.
pub proof fn roots_ask_what_is_said(c: ContextV, s: Seq<RetrieverV>, fusion: Option<FusionV>)
    requires
        c.schema.vectors.len() <= usize::MAX,
    ensures
        match plan::rooted(c, s, fusion) {
            Err(_) => exists|i: int| 0 <= i < s.len() && !rescores_fit(#[trigger] s[i], c),
            Ok(p) => {
                &&& forall|i: int| 0 <= i < s.len() ==> rescores_fit(#[trigger] s[i], c)
                &&& if s.len() == 1 && fusion is None {
                    asks_alike(p, s[0], c)
                } else {
                    &&& p matches PlanV::Fusion { inputs, fusion: f, k }
                    &&& inputs.len() == s.len()
                    &&& forall|i: int| 0 <= i < s.len() ==> asks_alike(inputs[i], #[trigger] s[i], c)
                    &&& f == (match fusion {
                        Some(f) => f,
                        None => FusionV::Rrf { k: 60 },
                    })
                    &&& forall|i: int| 0 <= i < s.len() ==> ir::retriever_k(#[trigger] s[i]) <= k
                    &&& s.len() > 0 ==> exists|i: int|
                        0 <= i < s.len() && ir::retriever_k(#[trigger] s[i]) == k
                }
            },
        },
{
    all_ask_what_is_said(c, s, s.len());
    widest_bounds(s);
    if let Ok(p) = plan::rooted(c, s, fusion) {
        if s.len() == 1 && fusion is None {
            assert(asks_alike(p, s[0], c));
        } else if s.len() > 0 {
            let i = choose|i: int|
                0 <= i < s.len() && ir::retriever_k(#[trigger] s[i]) == plan::widest(s);
            assert(ir::retriever_k(s[i]) == p->Fusion_k);
        }
    }
}

/// How floats multiply and add.
pub struct FloatsV {
    pub times: spec_fn(u32, u32) -> u32,
    pub plus: spec_fn(u32, u32) -> u32,
}

/// A score with zero added so many times.
pub open spec fn plus_zero(score: u32, n: nat, floats: FloatsV) -> u32
    decreases n,
{
    if n == 0 {
        score
    } else {
        (floats.plus)(plus_zero(score, (n - 1) as nat, floats), 0)
    }
}

/// Whether the terms of a field are scored by how rare they are.
pub open spec fn weighs_terms(class: FieldClass, text: bool) -> bool {
    class == FieldClass::Words || (class == FieldClass::JsonPath && text)
}

/// The score of a document that matches a query; `own` is what it scores
/// for a part that weighs its words, or several parts at once. A filter
/// adds zero, and what forbids adds nothing.
pub open spec fn score_of(
    q: QueryV,
    fields: Seq<(Seq<char>, FieldClass)>,
    own: spec_fn(QueryV) -> u32,
    floats: FloatsV,
) -> u32
    decreases q,
{
    match q {
        QueryV::MatchAll | QueryV::Ids(_) => plan::ONE,
        QueryV::Terms { .. } | QueryV::Range { .. } => plan::ONE,
        QueryV::Exists { .. } | QueryV::IsNull { .. } | QueryV::IsEmpty { .. } => plan::ONE,
        QueryV::ValuesCount { .. } => plan::ONE,
        QueryV::Term { field, value } => if weighs_terms(
            plan::class_of(fields, field),
            value is Str,
        ) {
            own(q)
        } else {
            plan::ONE
        },
        QueryV::ConstantScore { score, .. } => score,
        QueryV::Boost { query, boost } => (floats.times)(
            score_of(*query, fields, own, floats),
            boost,
        ),
        QueryV::Bool { must, should, must_not, filter, .. } => if should.len() > 0 || must.len()
            > 1 {
            own(q)
        } else if must.len() == 1 {
            plus_zero(score_of(must[0], fields, own, floats), filter.len(), floats)
        } else if filter.len() + must_not.len() > 0 {
            0
        } else {
            plan::ONE
        },
        _ => own(q),
    }
}

/// The float that a uniform score comes to.
pub open spec fn comes_to(u: UniformV, floats: FloatsV) -> u32
    decreases u.steps.len(),
{
    if u.steps.len() == 0 {
        u.base
    } else {
        let before = comes_to(UniformV { base: u.base, steps: u.steps.drop_last() }, floats);
        match u.steps.last() {
            ScoreStep::Times(by) => (floats.times)(before, by),
            ScoreStep::PlusZero => (floats.plus)(before, 0),
        }
    }
}

proof fn zeros_come_to(u: UniformV, n: nat, floats: FloatsV)
    ensures
        comes_to(UniformV { base: u.base, steps: u.steps + plan::plus_zeros(n) }, floats)
            == plus_zero(comes_to(u, floats), n, floats),
    decreases n,
{
    let all = u.steps + plan::plus_zeros(n);
    if n == 0 {
        assert(all =~= u.steps);
    } else {
        let m = (n - 1) as nat;
        zeros_come_to(u, m, floats);
        assert(all.drop_last() =~= u.steps + plan::plus_zeros(m));
        assert(all.last() == ScoreStep::PlusZero);
    }
}

/// A uniform score is the score of every match: no match scores
/// differently from another.
pub proof fn every_match_scores_alike(
    q: QueryV,
    fields: Seq<(Seq<char>, FieldClass)>,
    own: spec_fn(QueryV) -> u32,
    floats: FloatsV,
)
    ensures
        plan::uniform(q, fields) matches Some(u) ==> comes_to(u, floats) == score_of(
            q,
            fields,
            own,
            floats,
        ),
    decreases q,
{
    match q {
        QueryV::Boost { query, boost } => {
            every_match_scores_alike(*query, fields, own, floats);
            if let Some(u) = plan::uniform(*query, fields) {
                let steps = u.steps.push(ScoreStep::Times(boost));
                assert(steps.drop_last() =~= u.steps);
            }
        },
        QueryV::Bool { must, should, must_not, filter, .. } => {
            if should.len() == 0 && must.len() == 1 {
                every_match_scores_alike(must[0], fields, own, floats);
                if let Some(u) = plan::uniform(must[0], fields) {
                    zeros_come_to(u, filter.len(), floats);
                }
            }
        },
        _ => {},
    }
}

/// Where a text retriever's matches all tie, the plan carries the score that
/// each of them has, with the zero of the request's filter added.
pub proof fn constant_plans_score_alike(
    c: ContextV,
    query: QueryV,
    k: usize,
    own: spec_fn(QueryV) -> u32,
    floats: FloatsV,
)
    ensures
        plan::planned(c, RetrieverV::Text { query, k }) matches Ok(PlanV::ConstantText {
            score,
            ..
        }) ==> comes_to(score, floats) == plus_zero(
            score_of(query, c.fields, own, floats),
            if c.filter is Some {
                1
            } else {
                0
            },
            floats,
        ),
{
    every_match_scores_alike(query, c.fields, own, floats);
    if let Some(u) = plan::uniform(query, c.fields) {
        let steps = u.steps.push(ScoreStep::PlusZero);
        assert(steps.drop_last() =~= u.steps);
        reveal_with_fuel(plus_zero, 2);
    }
}

} // verus!
