//! What the search functions ask for: each argument at its place.

use crate::exec::plan_laws;
use crate::ir;
use crate::ir::{FusionV, RetrieverV, SearchRequest};
use crate::meaning;
use crate::meaning::DocV;
use crate::query;
use crate::query::{BoolOperator, QueryV};
use crate::sql::args;
use crate::sql::args::{SqlKind, SqlValue};
use crate::sql::calls;
use crate::sql::calls::{Fusing, HybridV, TextCallV, VectorCallV};
use crate::sql::statement::SQL_DEFAULT_K;
use crate::text;
use vstd::prelude::*;
use vstd::string::*;

verus! {

/// Whether an argument is a text.
pub open spec fn is_text(values: Seq<SqlValue>, i: int, s: Seq<char>) -> bool {
    0 <= i < values.len() && (values[i].kind matches SqlKind::Text { text, .. } && text@ == s)
}

/// Whether an argument is not said: there are too few, or it is null.
pub open spec fn is_unsaid(values: Seq<SqlValue>, i: int) -> bool {
    0 <= i && (i >= values.len() || values[i].kind is Null)
}

/// Whether a text is the one of an argument, and none where it is not said.
pub open spec fn may_be_text(values: Seq<SqlValue>, i: int, s: Option<Seq<char>>) -> bool {
    match s {
        Some(s) => is_text(values, i, s),
        None => is_unsaid(values, i),
    }
}

/// Whether a number is the one of an argument.
pub open spec fn is_number(values: Seq<SqlValue>, i: int, n: nat) -> bool {
    0 <= i < values.len() && args::whole_in(values[i].kind) == Some(n)
}

/// Whether some numbers are those of an argument.
pub open spec fn is_vector(values: Seq<SqlValue>, i: int, query: Seq<u32>) -> bool {
    0 <= i < values.len() && args::numbers_in(values[i].kind) == Some(query)
}

/// Whether a filter is what the text of an argument parses to, and none where
/// it is not said.
pub open spec fn may_be_filter(
    values: Seq<SqlValue>,
    i: int,
    parsed: Result<QueryV, Seq<char>>,
    filter: Option<QueryV>,
) -> bool {
    match filter {
        Some(q) => !is_unsaid(values, i) && parsed == Ok::<QueryV, Seq<char>>(q),
        None => is_unsaid(values, i),
    }
}

/// Whether a request only asks for the hits of some retrievers.
pub open spec fn is_bare(r: SearchRequest) -> bool {
    &&& r.offset == 0
    &&& r.sort@.len() == 0
    &&& r.search_after is None
    &&& r.score_threshold is None
    &&& r.group_by is None
    &&& r.aggregations is None
    &&& r.highlight is None
    &&& r.select@ == ir::whole_source()
}

/// A vector search searches the vector of its second argument on the field of
/// its third, or else on a field found for it; it gives as many hits as its
/// fourth says, or else the default; under the filter of its fifth; and by
/// brute force just where its sixth is true.
pub proof fn vector_searches_ask_what_is_said(
    values: Seq<SqlValue>,
    parsed: Result<QueryV, Seq<char>>,
    call: VectorCallV,
    on_field: Seq<char>,
    r: SearchRequest,
)
    requires
        calls::vector_call(values, parsed) == Ok::<VectorCallV, Seq<char>>(call),
        call.field matches Some(f) ==> f == on_field,
        calls::asks(
            r,
            call.collection,
            seq![calls::vector_retriever(call, on_field)],
            None,
            None,
            call.k,
        ),
    ensures
        is_bare(r),
        r.fusion is None && r.filter is None,
        is_text(values, 0, r.collection@),
        is_number(values, 3, r.limit as nat) || (is_unsaid(values, 3) && r.limit == SQL_DEFAULT_K),
        r.retrievers@.len() == 1,
        r.retrievers@[0]@ matches RetrieverV::Vector { field, query, k, params, filter } && {
            &&& is_text(values, 2, field) || (is_unsaid(values, 2) && field == on_field)
            &&& is_vector(values, 1, query)
            &&& k == r.limit
            &&& may_be_filter(values, 4, parsed, filter)
            &&& params.exact == (5 < values.len() && values[5].kind == SqlKind::Bool(true))
            &&& params.nprobes is None && params.refine_factor is None && params.ef is None
            &&& params.oversampling is None && params.distance is None
        },
{
    let all = ir::retriever_views(r.retrievers@);
    assert(all.len() == 1);
    assert(all[0] == r.retrievers@[0]@);
}

/// A text search matches any word of its second argument on the field of its
/// third, or else on a field found for it, just among the documents that pass
/// the filter of its fifth; it gives as many hits as its fourth says, or else
/// the default.
pub proof fn text_searches_ask_what_is_said(
    values: Seq<SqlValue>,
    parsed: Result<QueryV, Seq<char>>,
    call: TextCallV,
    on_field: Seq<char>,
    r: SearchRequest,
    d: DocV,
    words: spec_fn(QueryV, DocV) -> bool,
)
    requires
        calls::text_call(values, parsed) == Ok::<TextCallV, Seq<char>>(call),
        call.field matches Some(f) ==> f == on_field,
        calls::asks(
            r,
            call.collection,
            seq![calls::text_retriever(call, on_field)],
            None,
            None,
            call.k,
        ),
    ensures
        is_bare(r),
        r.fusion is None && r.filter is None,
        is_text(values, 0, r.collection@),
        is_number(values, 3, r.limit as nat) || (is_unsaid(values, 3) && r.limit == SQL_DEFAULT_K),
        r.retrievers@.len() == 1,
        ir::retriever_k(r.retrievers@[0]@) == r.limit,
        may_be_filter(values, 4, parsed, call.filter),
        is_text(values, 1, call.text),
        is_text(values, 2, on_field) || is_unsaid(values, 2),
        plan_laws::wants(r.retrievers@[0]@, None, d, words) == (meaning::passes(
            call.filter,
            d,
            words,
        ) && words(
            QueryV::Match {
                field: on_field,
                text: call.text,
                operator: BoolOperator::Or,
                minimum_should_match: None,
                fuzziness: None,
                analyzer: None,
            },
            d,
        )),
{
    let all = ir::retriever_views(r.retrievers@);
    assert(all.len() == 1);
    assert(all[0] == r.retrievers@[0]@);
    let q = calls::matching(on_field, call.text);
    if let Some(f) = call.filter {
        let one = seq![q];
        let other = seq![f];
        meaning::conjunctions_match(one, other, d, words);
        assert(one[0] == q && other[0] == f);
    }
    assert(meaning::finds(q, d, words) == words(q, d));
}

/// A hybrid search fuses a vector search of its second and third arguments
/// with a text search of its fourth and fifth, as many hits of each as its
/// sixth says, under the filter of its ninth; by reciprocal ranks over the
/// number of its eighth, or sixty, unless its seventh says otherwise.
pub proof fn hybrid_searches_ask_what_is_said(
    values: Seq<SqlValue>,
    parsed: Result<QueryV, Seq<char>>,
    h: HybridV,
    r: SearchRequest,
)
    requires
        calls::hybrid_call(values, parsed) == Ok::<HybridV, Seq<char>>(h),
        calls::asks(r, h.collection, h.retrievers, Some(h.fusion), h.filter, h.k),
    ensures
        is_bare(r),
        is_text(values, 0, r.collection@),
        is_number(values, 5, r.limit as nat),
        r.retrievers@.len() == 2,
        r.retrievers@[0]@ matches RetrieverV::Vector { field, query, k, params, filter } && {
            &&& is_text(values, 1, field)
            &&& is_vector(values, 2, query)
            &&& k == r.limit
            &&& !params.exact
            &&& filter is None
        },
        r.retrievers@[1]@ matches RetrieverV::Text { query, k } && {
            &&& k == r.limit
            &&& query matches QueryV::Match { field, text, operator, .. }
            &&& is_text(values, 3, field)
            &&& is_text(values, 4, text)
            &&& operator == BoolOperator::Or
        },
        may_be_filter(values, 8, parsed, query::opt_query(r.filter)),
        r.fusion matches Some(f) && match f@ {
            FusionV::Rrf { k } => {
                &&& is_number(values, 7, k as nat) || (is_unsaid(values, 7) && k == 60)
                &&& is_unsaid(values, 6) || exists|s: Seq<char>| #[trigger]
                    is_text(values, 6, s) && text::same_letters(s, "rrf"@)
            },
            FusionV::Dbsf => exists|s: Seq<char>| #[trigger]
                is_text(values, 6, s) && text::same_letters(s, "dbsf"@),
            FusionV::WeightedSum { .. } => false,
        },
{
    let all = ir::retriever_views(r.retrievers@);
    assert(all.len() == 2);
    assert(all[0] == r.retrievers@[0]@ && all[1] == r.retrievers@[1]@);
    if !is_unsaid(values, 6) {
        let s = values[6].kind->text@;
        assert(is_text(values, 6, s));
    }
}

/// Whether a number of a fusion is the one at a place, and none where it is
/// not said.
pub open spec fn is_number_or(values: Seq<SqlValue>, i: int, n: nat, default: nat) -> bool {
    is_number(values, i, n) || (is_unsaid(values, i) && n == default)
}

proof fn most_of_all(s: Seq<Fusing>, n: nat)
    requires
        n <= s.len(),
    ensures
        forall|i: int|
            0 <= i < n ==> ir::retriever_k((#[trigger] s[i]).retriever@) <= calls::most_hits(s, n),
        n > 0 ==> exists|i: int|
            0 <= i < n && ir::retriever_k((#[trigger] s[i]).retriever@) == calls::most_hits(s, n),
    decreases n,
{
    if n > 0 {
        let m = (n - 1) as nat;
        most_of_all(s, m);
        if calls::most_hits(s, n) == ir::retriever_k(s[m as int].retriever@) {
            assert(ir::retriever_k(s[m as int].retriever@) == calls::most_hits(s, n));
        } else {
            let i = choose|i: int|
                0 <= i < m && ir::retriever_k((#[trigger] s[i]).retriever@) == calls::most_hits(
                    s,
                    m,
                );
            assert(ir::retriever_k(s[i].retriever@) == calls::most_hits(s, n));
        }
    }
}

proof fn one_collection(s: Seq<Fusing>, j: int)
    requires
        0 <= j,
    ensures
        calls::other_collection(s, j) is None <==> forall|i: int|
            j <= i < s.len() ==> (#[trigger] s[i]).collection == s[0].collection,
    decreases s.len() - j,
{
    if j < s.len() && s[j].collection == s[0].collection {
        one_collection(s, j + 1);
    }
}

/// A fusion of retrievers is over at least two of one collection, by their
/// reciprocal ranks over its first number, or sixty. It gives as many hits as
/// its second number says, or else as the retriever that gives the most,
/// within the largest window.
pub proof fn fusions_ask_what_is_said(
    s: Seq<Fusing>,
    numbers: Seq<SqlValue>,
    max_window: usize,
)
    ensures
        calls::rrf_call(s, numbers, max_window) matches Ok((k, limit)) ==> {
            &&& s.len() >= 2
            &&& forall|i: int| 0 <= i < s.len() ==> (#[trigger] s[i]).collection == s[0].collection
            &&& is_number_or(numbers, 0, k as nat, 60)
            &&& is_number(numbers, 1, limit as nat) || (is_unsaid(numbers, 1) && limit <= max_window
                && (limit == max_window || exists|i: int|
                0 <= i < s.len() && ir::retriever_k((#[trigger] s[i]).retriever@) == limit)
                && forall|i: int|
                0 <= i < s.len() ==> ir::retriever_k((#[trigger] s[i]).retriever@) <= limit || limit
                    == max_window)
        },
        s.len() < 2 || numbers.len() > 2 ==> calls::rrf_call(s, numbers, max_window) is Err,
{
    one_collection(s, 0);
    most_of_all(s, s.len());
}

/// The request of a fusion fuses just its retrievers, in their order.
pub proof fn fused_requests_ask_what_is_said(s: Seq<Fusing>, k: u32, limit: usize, r: SearchRequest)
    requires
        s.len() > 0,
        calls::asks(
            r,
            s[0].name@,
            calls::fused_views(s),
            Some(FusionV::Rrf { k }),
            None,
            limit as nat,
        ),
    ensures
        is_bare(r),
        r.collection@ == s[0].name@,
        r.limit == limit,
        r.filter is None,
        r.fusion matches Some(f) && f@ == (FusionV::Rrf { k }),
        r.retrievers@.len() == s.len(),
        forall|i: int|
            0 <= i < s.len() ==> (#[trigger] r.retrievers@[i])@ == s[i].retriever@,
{
    let all = ir::retriever_views(r.retrievers@);
    assert(all.len() == s.len());
    assert forall|i: int| 0 <= i < s.len() implies (#[trigger] r.retrievers@[i])@
        == s[i].retriever@ by {
        assert(all[i] == calls::fused_views(s)[i]);
    }
}

} // verus!
