//! What normal forms keep: a request in normal form asks for what the
//! request asks for.

use crate::exec::order;
use crate::ir;
use crate::ir::RetrieverV;
use crate::meaning;
use crate::meaning::DocV;
use crate::query;
use crate::query::QueryV;
use crate::values;
use crate::values::{FieldV, SortV};
use vstd::prelude::*;

verus! {

/// Whether what the analysis of texts decides is the same of a query and of
/// its normal form.
pub open spec fn reads_alike(words: spec_fn(QueryV, DocV) -> bool) -> bool {
    forall|q: QueryV, d: DocV| #[trigger] words(query::norm_query(q), d) == words(q, d)
}

/// A value compares as its normal form.
pub proof fn normal_values_compare_alike(a: FieldV, b: FieldV)
    ensures
        meaning::same(a, values::norm_field(b)) == meaning::same(a, b),
        meaning::same(values::norm_field(b), a) == meaning::same(b, a),
        meaning::less(a, values::norm_field(b)) == meaning::less(a, b),
        meaning::less(values::norm_field(b), a) == meaning::less(b, a),
{
}

/// A sort value stands where its normal form stands.
pub proof fn normal_sort_values_stand_alike(a: SortV, b: SortV)
    ensures
        order::value_sign(values::norm_sort(a), b) == order::value_sign(a, b),
        order::value_sign(b, values::norm_sort(a)) == order::value_sign(b, a),
{
}

proof fn values_are_had_alike(d: DocV, field: Seq<char>, v: FieldV)
    ensures
        meaning::has_value(d, field, values::norm_field(v)) == meaning::has_value(d, field, v),
{
    let all = meaning::values_of(d, field);
    assert forall|i: int| 0 <= i < all.len() implies meaning::same(
        #[trigger] all[i],
        values::norm_field(v),
    ) == meaning::same(all[i], v) by {
        normal_values_compare_alike(all[i], v);
    }
}

proof fn bounds_are_alike(
    x: FieldV,
    gt: Option<FieldV>,
    gte: Option<FieldV>,
    lt: Option<FieldV>,
    lte: Option<FieldV>,
)
    ensures
        meaning::within(
            x,
            values::norm_opt(gt),
            values::norm_opt(gte),
            values::norm_opt(lt),
            values::norm_opt(lte),
        ) == meaning::within(x, gt, gte, lt, lte),
{
    if gt is Some {
        normal_values_compare_alike(x, gt->0);
    }
    if gte is Some {
        normal_values_compare_alike(x, gte->0);
    }
    if lt is Some {
        normal_values_compare_alike(x, lt->0);
    }
    if lte is Some {
        normal_values_compare_alike(x, lte->0);
    }
}

proof fn all_find_the_same(s: Seq<QueryV>, d: DocV, words: spec_fn(QueryV, DocV) -> bool)
    requires
        reads_alike(words),
    ensures
        query::norm_queries(s).len() == s.len(),
        forall|i: int|
            0 <= i < s.len() ==> meaning::finds(#[trigger] query::norm_queries(s)[i], d, words)
                == meaning::finds(s[i], d, words),
    decreases s,
{
    assert forall|i: int| 0 <= i < s.len() implies meaning::finds(
        #[trigger] query::norm_queries(s)[i],
        d,
        words,
    ) == meaning::finds(s[i], d, words) by {
        normal_queries_find_the_same(s[i], d, words);
    }
}

/// A query in normal form finds the documents that the query finds.
pub proof fn normal_queries_find_the_same(
    q: QueryV,
    d: DocV,
    words: spec_fn(QueryV, DocV) -> bool,
)
    requires
        reads_alike(words),
    ensures
        meaning::finds(query::norm_query(q), d, words) == meaning::finds(q, d, words),
    decreases q,
{
    let n = query::norm_query(q);
    match q {
        QueryV::Term { field, value } => {
            values_are_had_alike(d, field, value);
        },
        QueryV::Terms { field, values } => {
            let normal = n->values;
            assert forall|i: int| 0 <= i < values.len() implies meaning::has_value(
                d,
                field,
                #[trigger] normal[i],
            ) == meaning::has_value(d, field, values[i]) by {
                values_are_had_alike(d, field, values[i]);
            }
            if meaning::finds(q, d, words) {
                let i = choose|i: int|
                    0 <= i < values.len() && meaning::has_value(d, field, #[trigger] values[i]);
                assert(meaning::has_value(d, field, normal[i]));
            }
        },
        QueryV::Range { field, gt, gte, lt, lte } => {
            let all = meaning::values_of(d, field);
            assert forall|i: int| 0 <= i < all.len() implies meaning::within(
                #[trigger] all[i],
                values::norm_opt(gt),
                values::norm_opt(gte),
                values::norm_opt(lt),
                values::norm_opt(lte),
            ) == meaning::within(all[i], gt, gte, lt, lte) by {
                bounds_are_alike(all[i], gt, gte, lt, lte);
            }
        },
        QueryV::Bool { must, should, must_not, filter, minimum_should_match } => {
            all_find_the_same(must, d, words);
            all_find_the_same(should, d, words);
            all_find_the_same(must_not, d, words);
            all_find_the_same(filter, d, words);
            bools_find_the_same(q, d, words);
        },
        QueryV::Boost { query, .. } => {
            normal_queries_find_the_same(*query, d, words);
        },
        QueryV::ConstantScore { query, .. } => {
            normal_queries_find_the_same(*query, d, words);
        },
        _ => {},
    }
}

proof fn bools_find_the_same(q: QueryV, d: DocV, words: spec_fn(QueryV, DocV) -> bool)
    requires
        q is Bool,
        reads_alike(words),
        parts_find_the_same(q->Bool_must, d, words),
        parts_find_the_same(q->should, d, words),
        parts_find_the_same(q->must_not, d, words),
        parts_find_the_same(q->Bool_filter, d, words),
    ensures
        meaning::finds(query::norm_query(q), d, words) == meaning::finds(q, d, words),
{
    let n = query::norm_query(q);
    assert(words(n, d) == words(q, d));
    assert(n is Bool);
    assert(n->Bool_must == query::norm_queries(q->Bool_must));
    assert(n->should == query::norm_queries(q->should));
    assert(n->must_not == query::norm_queries(q->must_not));
    assert(n->Bool_filter == query::norm_queries(q->Bool_filter));
    if meaning::finds(q, d, words) {
        assert forall|i: int| 0 <= i < n->Bool_must.len() implies meaning::finds(
            #[trigger] n->Bool_must[i],
            d,
            words,
        ) by {
            assert(meaning::finds(q->Bool_must[i], d, words));
        }
        assert forall|i: int| 0 <= i < n->Bool_filter.len() implies meaning::finds(
            #[trigger] n->Bool_filter[i],
            d,
            words,
        ) by {
            assert(meaning::finds(q->Bool_filter[i], d, words));
        }
        assert forall|i: int| 0 <= i < n->must_not.len() implies !meaning::finds(
            #[trigger] n->must_not[i],
            d,
            words,
        ) by {
            assert(!meaning::finds(q->must_not[i], d, words));
        }
        if exists|i: int| 0 <= i < q->should.len() && meaning::finds(#[trigger] q->should[i], d, words) {
            let i = choose|i: int|
                0 <= i < q->should.len() && meaning::finds(#[trigger] q->should[i], d, words);
            assert(meaning::finds(n->should[i], d, words));
        }
    }
    if meaning::finds(n, d, words) {
        assert forall|i: int| 0 <= i < q->Bool_must.len() implies meaning::finds(
            #[trigger] q->Bool_must[i],
            d,
            words,
        ) by {
            assert(meaning::finds(n->Bool_must[i], d, words));
        }
        assert forall|i: int| 0 <= i < q->Bool_filter.len() implies meaning::finds(
            #[trigger] q->Bool_filter[i],
            d,
            words,
        ) by {
            assert(meaning::finds(n->Bool_filter[i], d, words));
        }
        assert forall|i: int| 0 <= i < q->must_not.len() implies !meaning::finds(
            #[trigger] q->must_not[i],
            d,
            words,
        ) by {
            assert(!meaning::finds(n->must_not[i], d, words));
        }
        if exists|i: int| 0 <= i < n->should.len() && meaning::finds(#[trigger] n->should[i], d, words) {
            let i = choose|i: int|
                0 <= i < n->should.len() && meaning::finds(#[trigger] n->should[i], d, words);
            assert(meaning::finds(q->should[i], d, words));
        }
    }
}

spec fn parts_find_the_same(s: Seq<QueryV>, d: DocV, words: spec_fn(QueryV, DocV) -> bool) -> bool {
    &&& query::norm_queries(s).len() == s.len()
    &&& forall|i: int|
        0 <= i < s.len() ==> meaning::finds(#[trigger] query::norm_queries(s)[i], d, words)
            == meaning::finds(s[i], d, words)
}

/// Whether two retrievers ask for as many of the same documents by the same
/// scores: they differ only in how their filters and queries say what they
/// find.
pub open spec fn asks_the_same(
    a: RetrieverV,
    b: RetrieverV,
    d: DocV,
    words: spec_fn(QueryV, DocV) -> bool,
) -> bool
    decreases a,
{
    match (a, b) {
        (
            RetrieverV::Vector { field, query, k, params, filter },
            RetrieverV::Vector { field: f, query: q, k: n, params: p, filter: w },
        ) => {
            &&& (field, query, k, params) == (f, q, n, p)
            &&& meaning::passes(filter, d, words) == meaning::passes(w, d, words)
        },
        (RetrieverV::Text { query, k }, RetrieverV::Text { query: q, k: n }) => {
            &&& k == n
            &&& meaning::finds(query, d, words) == meaning::finds(q, d, words)
        },
        (
            RetrieverV::Fused { inputs, fusion, k },
            RetrieverV::Fused { inputs: s, fusion: f, k: n },
        ) => {
            &&& (fusion, k) == (f, n)
            &&& inputs.len() == s.len()
            &&& forall|i: int|
                0 <= i < inputs.len() ==> asks_the_same(#[trigger] inputs[i], s[i], d, words)
        },
        (
            RetrieverV::Rescore { input, field, query, k },
            RetrieverV::Rescore { input: r, field: f, query: q, k: n },
        ) => {
            &&& (field, query, k) == (f, q, n)
            &&& asks_the_same(*input, *r, d, words)
        },
        (
            RetrieverV::Sparse { field, query, k, filter, idf_corpus },
            RetrieverV::Sparse { field: f, query: q, k: n, filter: w, idf_corpus: c },
        ) => {
            &&& (field, query, k) == (f, q, n)
            &&& meaning::passes(filter, d, words) == meaning::passes(w, d, words)
            &&& idf_corpus is Some == c is Some
            &&& meaning::passes(idf_corpus, d, words) == meaning::passes(c, d, words)
        },
        _ => false,
    }
}

/// A retriever in normal form asks for what the retriever asks for.
pub proof fn normal_retrievers_ask_the_same(
    r: RetrieverV,
    d: DocV,
    words: spec_fn(QueryV, DocV) -> bool,
)
    requires
        reads_alike(words),
    ensures
        asks_the_same(r, ir::norm_retriever(r), d, words),
    decreases r,
{
    match r {
        RetrieverV::Vector { filter, .. } => {
            if filter is Some {
                normal_queries_find_the_same(filter->0, d, words);
            }
        },
        RetrieverV::Text { query, .. } => {
            normal_queries_find_the_same(query, d, words);
        },
        RetrieverV::Fused { inputs, .. } => {
            assert forall|i: int| 0 <= i < inputs.len() implies asks_the_same(
                #[trigger] inputs[i],
                ir::norm_retriever(inputs[i]),
                d,
                words,
            ) by {
                normal_retrievers_ask_the_same(inputs[i], d, words);
            }
            let normal = ir::norm_retriever(r);
            assert(normal->inputs == ir::norm_retrievers(inputs));
            assert forall|i: int| 0 <= i < inputs.len() implies asks_the_same(
                #[trigger] inputs[i],
                normal->inputs[i],
                d,
                words,
            ) by {
                assert(normal->inputs[i] == ir::norm_retriever(inputs[i]));
            }
            assert(r->inputs == inputs);
            assert((r->fusion, r->Fused_k) == (normal->fusion, normal->Fused_k));
        },
        RetrieverV::Rescore { input, .. } => {
            normal_retrievers_ask_the_same(*input, d, words);
        },
        RetrieverV::Sparse { filter, idf_corpus, .. } => {
            if filter is Some {
                normal_queries_find_the_same(filter->0, d, words);
            }
            if idf_corpus is Some {
                normal_queries_find_the_same(idf_corpus->0, d, words);
            }
        },
    }
}

} // verus!
