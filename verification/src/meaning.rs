//! What a query matches: documents by their key and the values of their
//! fields, and how two values compare.
//!
//! Nothing here runs. The laws of the planner, of filters in JSON and of
//! filters in SQL are stated over it.

use crate::float;
use crate::key::Key;
use crate::query::QueryV;
use crate::text;
use crate::values::FieldV;
use vstd::prelude::*;

verus! {

/// A document: its key, and the values of its fields.
pub struct DocV {
    pub key: Key,
    pub fields: Map<Seq<char>, Seq<FieldV>>,
}

/// The values of a field of a document.
pub open spec fn values_of(d: DocV, field: Seq<char>) -> Seq<FieldV> {
    if d.fields.contains_key(field) {
        d.fields[field]
    } else {
        Seq::empty()
    }
}

/// The integer that a value is.
pub open spec fn integer(v: FieldV) -> Option<int> {
    match v {
        FieldV::I64(n) => Some(n as int),
        FieldV::U64(n) => Some(n as int),
        _ => None,
    }
}

/// The double that a number is compared as beside a double.
pub open spec fn double(v: FieldV) -> Option<u64> {
    match v {
        FieldV::F64(b) => Some(b),
        FieldV::I64(n) => Some(float::int_bits64(n as int) as u64),
        FieldV::U64(n) => Some(float::int_bits64(n as int) as u64),
        _ => None,
    }
}

/// Whether `a` is less than `b`: texts by their characters, integers and
/// moments by their count, and as doubles where one of two numbers is one.
/// Values of different kinds do not compare.
pub open spec fn less(a: FieldV, b: FieldV) -> bool {
    match (a, b) {
        (FieldV::Str(x), FieldV::Str(y)) => text::before(x, y),
        (FieldV::Bool(x), FieldV::Bool(y)) => !x && y,
        (FieldV::Date(x), FieldV::Date(y)) => x < y,
        _ => match (integer(a), integer(b)) {
            (Some(x), Some(y)) => x < y,
            _ => match (double(a), double(b)) {
                (Some(x), Some(y)) => float::lt64(x, y),
                _ => false,
            },
        },
    }
}

/// Whether two values are the same.
pub open spec fn same(a: FieldV, b: FieldV) -> bool {
    match (a, b) {
        (FieldV::Str(x), FieldV::Str(y)) => x == y,
        (FieldV::Bool(x), FieldV::Bool(y)) => x == y,
        (FieldV::Date(x), FieldV::Date(y)) => x == y,
        _ => match (integer(a), integer(b)) {
            (Some(x), Some(y)) => x == y,
            _ => match (double(a), double(b)) {
                (Some(x), Some(y)) => float::eq64(x, y),
                _ => false,
            },
        },
    }
}

/// Whether a value is within every bound that there is.
pub open spec fn within(
    x: FieldV,
    gt: Option<FieldV>,
    gte: Option<FieldV>,
    lt: Option<FieldV>,
    lte: Option<FieldV>,
) -> bool {
    &&& gt matches Some(v) ==> less(v, x)
    &&& gte matches Some(v) ==> less(v, x) || same(v, x)
    &&& lt matches Some(v) ==> less(x, v)
    &&& lte matches Some(v) ==> less(x, v) || same(x, v)
}

/// Whether a count is within every bound that there is.
pub open spec fn counted(
    n: nat,
    gt: Option<u64>,
    gte: Option<u64>,
    lt: Option<u64>,
    lte: Option<u64>,
) -> bool {
    &&& gt matches Some(v) ==> v < n
    &&& gte matches Some(v) ==> v <= n
    &&& lt matches Some(v) ==> n < v
    &&& lte matches Some(v) ==> n <= v
}

/// Whether a document has a value that is `v`.
pub open spec fn has_value(d: DocV, field: Seq<char>, v: FieldV) -> bool {
    exists|i: int| 0 <= i < values_of(d, field).len() && same(#[trigger] values_of(d, field)[i], v)
}

/// Whether a document has a value within bounds.
pub open spec fn has_within(
    d: DocV,
    field: Seq<char>,
    gt: Option<FieldV>,
    gte: Option<FieldV>,
    lt: Option<FieldV>,
    lte: Option<FieldV>,
) -> bool {
    exists|i: int|
        0 <= i < values_of(d, field).len() && within(
            #[trigger] values_of(d, field)[i],
            gt,
            gte,
            lt,
            lte,
        )
}

/// Whether a document matches a query. `words` decides what the analysis of
/// texts decides, and how many optional parts are enough where a query says
/// so itself. Else a boolean query matches with all its required parts, none
/// of the forbidden ones, and one of the optional ones where nothing is
/// required.
pub open spec fn finds(q: QueryV, d: DocV, words: spec_fn(QueryV, DocV) -> bool) -> bool
    decreases q,
{
    match q {
        QueryV::MatchAll => true,
        QueryV::MatchNone => false,
        QueryV::Term { field, value } => has_value(d, field, value),
        QueryV::Terms { field, values } => exists|i: int|
            0 <= i < values.len() && has_value(d, field, #[trigger] values[i]),
        QueryV::Range { field, gt, gte, lt, lte } => has_within(d, field, gt, gte, lt, lte),
        QueryV::Exists { field } => values_of(d, field).len() > 0,
        QueryV::IsEmpty { field } => values_of(d, field).len() == 0,
        QueryV::ValuesCount { field, gt, gte, lt, lte } => counted(
            values_of(d, field).len(),
            gt,
            gte,
            lt,
            lte,
        ),
        QueryV::Ids(keys) => keys.contains(d.key),
        QueryV::Bool { must, should, must_not, filter, minimum_should_match } => {
            &&& forall|i: int| 0 <= i < must.len() ==> finds(#[trigger] must[i], d, words)
            &&& forall|i: int| 0 <= i < filter.len() ==> finds(#[trigger] filter[i], d, words)
            &&& forall|i: int| 0 <= i < must_not.len() ==> !finds(#[trigger] must_not[i], d, words)
            &&& if minimum_should_match is Some {
                words(q, d)
            } else {
                must.len() == 0 && filter.len() == 0 && should.len() > 0 ==> exists|i: int|
                    0 <= i < should.len() && finds(#[trigger] should[i], d, words)
            }
        },
        QueryV::Boost { query, .. } => finds(*query, d, words),
        QueryV::ConstantScore { query, .. } => finds(*query, d, words),
        _ => words(q, d),
    }
}

/// Whether a document passes a filter that may be missing.
pub open spec fn passes(
    filter: Option<QueryV>,
    d: DocV,
    words: spec_fn(QueryV, DocV) -> bool,
) -> bool {
    match filter {
        Some(q) => finds(q, d, words),
        None => true,
    }
}

/// A conjunction matches what all its parts match.
pub proof fn conjunctions_match(
    must: Seq<QueryV>,
    filter: Seq<QueryV>,
    d: DocV,
    words: spec_fn(QueryV, DocV) -> bool,
)
    ensures
        finds(
            QueryV::Bool {
                must,
                should: Seq::empty(),
                must_not: Seq::empty(),
                filter,
                minimum_should_match: None,
            },
            d,
            words,
        ) <==> {
            &&& forall|i: int| 0 <= i < must.len() ==> finds(#[trigger] must[i], d, words)
            &&& forall|i: int| 0 <= i < filter.len() ==> finds(#[trigger] filter[i], d, words)
        },
{
    let q = QueryV::Bool {
        must,
        should: Seq::empty(),
        must_not: Seq::empty(),
        filter,
        minimum_should_match: None,
    };
    assert(q->Bool_must == must && q->Bool_filter == filter);
    assert(q->should.len() == 0 && q->must_not.len() == 0);
    if finds(q, d, words) {
        assert forall|i: int| 0 <= i < must.len() implies finds(#[trigger] must[i], d, words) by {
            assert(finds(q->Bool_must[i], d, words));
        }
        assert forall|i: int| 0 <= i < filter.len() implies finds(#[trigger] filter[i], d, words) by {
            assert(finds(q->Bool_filter[i], d, words));
        }
    }
}

} // verus!
