//! Queries over a collection's fields.
//!
//! Floats are carried as their bits.

use crate::key::{Key, PrimaryKey};
use crate::text;
use crate::values;
use crate::values::{FieldV, FieldValue};
use vstd::prelude::*;
use vstd::string::*;

verus! {

#[derive(Clone, Copy, Debug, PartialEq, Eq, Structural)]
pub enum BoolOperator {
    Or,
    And,
}

#[derive(Clone, Copy, Debug, PartialEq, Eq, Structural)]
pub enum MultiMatchKind {
    BestFields,
    MostFields,
    CrossFields,
    Phrase,
    PhrasePrefix,
}

/// Edit distance of a fuzzy match.
#[derive(Clone, Copy, Debug, PartialEq, Eq, Structural)]
pub enum Fuzziness {
    Auto,
    Edits(u8),
}

/// A query over the collection's fields.
#[derive(Debug)]
#[allow(inconsistent_fields)]
pub enum Query {
    MatchAll,
    MatchNone,
    Match {
        field: String,
        text: String,
        operator: BoolOperator,
        minimum_should_match: Option<String>,
        fuzziness: Option<Fuzziness>,
        analyzer: Option<String>,
    },
    MatchPhrase { field: String, text: String, slop: u32 },
    MultiMatch {
        fields: Vec<(String, u32)>,
        text: String,
        kind: MultiMatchKind,
        operator: BoolOperator,
        tie_breaker: Option<u32>,
    },
    Term { field: String, value: FieldValue },
    Terms { field: String, values: Vec<FieldValue> },
    Range {
        field: String,
        gt: Option<FieldValue>,
        gte: Option<FieldValue>,
        lt: Option<FieldValue>,
        lte: Option<FieldValue>,
    },
    Exists { field: String },
    IsNull { field: String },
    IsEmpty { field: String },
    ValuesCount {
        field: String,
        gt: Option<u64>,
        gte: Option<u64>,
        lt: Option<u64>,
        lte: Option<u64>,
    },
    Prefix { field: String, value: String },
    Wildcard { field: String, pattern: String },
    Fuzzy { field: String, value: String, fuzziness: Fuzziness },
    Ids(Vec<PrimaryKey>),
    QueryString { query: String, default_fields: Vec<String>, default_operator: BoolOperator },
    Bool {
        must: Vec<Query>,
        should: Vec<Query>,
        must_not: Vec<Query>,
        filter: Vec<Query>,
        minimum_should_match: Option<String>,
    },
    Boost { query: Box<Query>, boost: u32 },
    ConstantScore { query: Box<Query>, score: u32 },
}

/// What a query says.
#[allow(inconsistent_fields)]
pub enum QueryV {
    MatchAll,
    MatchNone,
    Match {
        field: Seq<char>,
        text: Seq<char>,
        operator: BoolOperator,
        minimum_should_match: Option<Seq<char>>,
        fuzziness: Option<Fuzziness>,
        analyzer: Option<Seq<char>>,
    },
    MatchPhrase { field: Seq<char>, text: Seq<char>, slop: u32 },
    MultiMatch {
        fields: Seq<(Seq<char>, u32)>,
        text: Seq<char>,
        kind: MultiMatchKind,
        operator: BoolOperator,
        tie_breaker: Option<u32>,
    },
    Term { field: Seq<char>, value: FieldV },
    Terms { field: Seq<char>, values: Seq<FieldV> },
    Range {
        field: Seq<char>,
        gt: Option<FieldV>,
        gte: Option<FieldV>,
        lt: Option<FieldV>,
        lte: Option<FieldV>,
    },
    Exists { field: Seq<char> },
    IsNull { field: Seq<char> },
    IsEmpty { field: Seq<char> },
    ValuesCount {
        field: Seq<char>,
        gt: Option<u64>,
        gte: Option<u64>,
        lt: Option<u64>,
        lte: Option<u64>,
    },
    Prefix { field: Seq<char>, value: Seq<char> },
    Wildcard { field: Seq<char>, pattern: Seq<char> },
    Fuzzy { field: Seq<char>, value: Seq<char>, fuzziness: Fuzziness },
    Ids(Seq<Key>),
    QueryString {
        query: Seq<char>,
        default_fields: Seq<Seq<char>>,
        default_operator: BoolOperator,
    },
    Bool {
        must: Seq<QueryV>,
        should: Seq<QueryV>,
        must_not: Seq<QueryV>,
        filter: Seq<QueryV>,
        minimum_should_match: Option<Seq<char>>,
    },
    Boost { query: Box<QueryV>, boost: u32 },
    ConstantScore { query: Box<QueryV>, score: u32 },
}

/// Names with their weights.
pub open spec fn weighted_names(s: Seq<(String, u32)>) -> Seq<(Seq<char>, u32)> {
    Seq::new(s.len(), |i: int| (s[i].0@, s[i].1))
}

/// The keys of some primary keys.
pub open spec fn key_views(s: Seq<PrimaryKey>) -> Seq<Key> {
    Seq::new(s.len(), |i: int| s[i]@)
}

impl View for Query {
    type V = QueryV;

    open spec fn view(&self) -> QueryV {
        query_view(*self)
    }
}

/// What `q` says.
pub open spec fn query_view(q: Query) -> QueryV
    decreases q,
{
    match q {
        Query::MatchAll => QueryV::MatchAll,
        Query::MatchNone => QueryV::MatchNone,
        Query::Match { field, text, operator, minimum_should_match, fuzziness, analyzer } =>
            QueryV::Match {
            field: field@,
            text: text@,
            operator,
            minimum_should_match: text::opt_text(minimum_should_match),
            fuzziness,
            analyzer: text::opt_text(analyzer),
        },
        Query::MatchPhrase { field, text, slop } => QueryV::MatchPhrase {
            field: field@,
            text: text@,
            slop,
        },
        Query::MultiMatch { fields, text, kind, operator, tie_breaker } => QueryV::MultiMatch {
            fields: weighted_names(fields@),
            text: text@,
            kind,
            operator,
            tie_breaker,
        },
        Query::Term { field, value } => QueryV::Term { field: field@, value: value@ },
        Query::Terms { field, values } => QueryV::Terms {
            field: field@,
            values: values::field_views(values@),
        },
        Query::Range { field, gt, gte, lt, lte } => QueryV::Range {
            field: field@,
            gt: values::opt_field(gt),
            gte: values::opt_field(gte),
            lt: values::opt_field(lt),
            lte: values::opt_field(lte),
        },
        Query::Exists { field } => QueryV::Exists { field: field@ },
        Query::IsNull { field } => QueryV::IsNull { field: field@ },
        Query::IsEmpty { field } => QueryV::IsEmpty { field: field@ },
        Query::ValuesCount { field, gt, gte, lt, lte } => QueryV::ValuesCount {
            field: field@,
            gt,
            gte,
            lt,
            lte,
        },
        Query::Prefix { field, value } => QueryV::Prefix { field: field@, value: value@ },
        Query::Wildcard { field, pattern } => QueryV::Wildcard { field: field@, pattern: pattern@ },
        Query::Fuzzy { field, value, fuzziness } => QueryV::Fuzzy {
            field: field@,
            value: value@,
            fuzziness,
        },
        Query::Ids(keys) => QueryV::Ids(key_views(keys@)),
        Query::QueryString { query, default_fields, default_operator } => QueryV::QueryString {
            query: query@,
            default_fields: text::texts(default_fields@),
            default_operator,
        },
        Query::Bool { must, should, must_not, filter, minimum_should_match } => QueryV::Bool {
            must: Seq::new(
                must@.len(),
                |i: int|
                    if 0 <= i < must@.len() {
                        query_view(must@[i])
                    } else {
                        QueryV::MatchAll
                    },
            ),
            should: Seq::new(
                should@.len(),
                |i: int|
                    if 0 <= i < should@.len() {
                        query_view(should@[i])
                    } else {
                        QueryV::MatchAll
                    },
            ),
            must_not: Seq::new(
                must_not@.len(),
                |i: int|
                    if 0 <= i < must_not@.len() {
                        query_view(must_not@[i])
                    } else {
                        QueryV::MatchAll
                    },
            ),
            filter: Seq::new(
                filter@.len(),
                |i: int|
                    if 0 <= i < filter@.len() {
                        query_view(filter@[i])
                    } else {
                        QueryV::MatchAll
                    },
            ),
            minimum_should_match: text::opt_text(minimum_should_match),
        },
        Query::Boost { query, boost } => QueryV::Boost {
            query: Box::new(query_view(*query)),
            boost,
        },
        Query::ConstantScore { query, score } => QueryV::ConstantScore {
            query: Box::new(query_view(*query)),
            score,
        },
    }
}

/// What some queries say.
pub open spec fn query_views(s: Seq<Query>) -> Seq<QueryV> {
    Seq::new(s.len(), |i: int| s[i]@)
}

/// What a query that may be missing says.
pub open spec fn opt_query(q: Option<Query>) -> Option<QueryV> {
    match q {
        Some(q) => Some(q@),
        None => None,
    }
}

/// The view of a boolean query, clause by clause.
pub broadcast proof fn view_bool(
    must: Vec<Query>,
    should: Vec<Query>,
    must_not: Vec<Query>,
    filter: Vec<Query>,
    minimum_should_match: Option<String>,
)
    ensures
        #[trigger] query_view(
            Query::Bool { must, should, must_not, filter, minimum_should_match },
        ) == (QueryV::Bool {
            must: query_views(must@),
            should: query_views(should@),
            must_not: query_views(must_not@),
            filter: query_views(filter@),
            minimum_should_match: text::opt_text(minimum_should_match),
        }),
{
    let v = query_view(Query::Bool { must, should, must_not, filter, minimum_should_match });
    assert(v->Bool_must =~= query_views(must@));
    assert(v->should =~= query_views(should@));
    assert(v->must_not =~= query_views(must_not@));
    assert(v->Bool_filter =~= query_views(filter@));
}

/// Every value of a query in normal form.
pub open spec fn norm_query(q: QueryV) -> QueryV
    decreases q,
{
    match q {
        QueryV::Term { field, value } => QueryV::Term { field, value: values::norm_field(value) },
        QueryV::Terms { field, values } => QueryV::Terms {
            field,
            values: values.map_values(|x: FieldV| values::norm_field(x)),
        },
        QueryV::Range { field, gt, gte, lt, lte } => QueryV::Range {
            field,
            gt: values::norm_opt(gt),
            gte: values::norm_opt(gte),
            lt: values::norm_opt(lt),
            lte: values::norm_opt(lte),
        },
        QueryV::Bool { must, should, must_not, filter, minimum_should_match } => QueryV::Bool {
            must: norm_queries(must),
            should: norm_queries(should),
            must_not: norm_queries(must_not),
            filter: norm_queries(filter),
            minimum_should_match,
        },
        QueryV::Boost { query, boost } => QueryV::Boost {
            query: Box::new(norm_query(*query)),
            boost,
        },
        QueryV::ConstantScore { query, score } => QueryV::ConstantScore {
            query: Box::new(norm_query(*query)),
            score,
        },
        other => other,
    }
}

/// Some queries, every value in normal form.
pub open spec fn norm_queries(s: Seq<QueryV>) -> Seq<QueryV>
    decreases s,
{
    Seq::new(
        s.len(),
        |i: int|
            if 0 <= i < s.len() {
                norm_query(s[i])
            } else {
                QueryV::MatchAll
            },
    )
}

/// A query that may be missing, in normal form.
pub open spec fn norm_opt_query(q: Option<QueryV>) -> Option<QueryV> {
    match q {
        Some(q) => Some(norm_query(q)),
        None => None,
    }
}

/// Normalizing a query twice changes nothing more.
pub proof fn norm_query_fixed(q: QueryV)
    ensures
        norm_query(norm_query(q)) == norm_query(q),
    decreases q,
{
    match q {
        QueryV::Terms { field, values } => {
            let once = values.map_values(|x: FieldV| values::norm_field(x));
            assert(once.map_values(|x: FieldV| values::norm_field(x)) =~= once);
        },
        QueryV::Bool { must, should, must_not, filter, minimum_should_match } => {
            norm_queries_fixed(must);
            norm_queries_fixed(should);
            norm_queries_fixed(must_not);
            norm_queries_fixed(filter);
        },
        QueryV::Boost { query, boost } => {
            norm_query_fixed(*query);
        },
        QueryV::ConstantScore { query, score } => {
            norm_query_fixed(*query);
        },
        _ => {},
    }
}

proof fn norm_queries_fixed(s: Seq<QueryV>)
    ensures
        norm_queries(norm_queries(s)) == norm_queries(s),
    decreases s,
{
    assert forall|i: int| 0 <= i < s.len() implies norm_query(norm_query(#[trigger] s[i]))
        == norm_query(s[i]) by {
        norm_query_fixed(s[i]);
    }
    assert(norm_queries(norm_queries(s)) =~= norm_queries(s));
}

/// A copy of some keys.
pub fn copy_keys(v: &Vec<PrimaryKey>) -> (r: Vec<PrimaryKey>)
    ensures
        key_views(r@) == key_views(v@),
{
    let mut out: Vec<PrimaryKey> = Vec::new();
    let mut i: usize = 0;
    while i < v.len()
        invariant
            i <= v@.len(),
            out@.len() == i,
            forall|j: int| 0 <= j < i ==> (#[trigger] out@[j])@ == v@[j]@,
        decreases v.len() - i,
    {
        out.push(v[i].clone());
        i += 1;
    }
    proof {
        assert(key_views(out@) =~= key_views(v@));
    }
    out
}

fn copy_weights(v: &Vec<(String, u32)>) -> (r: Vec<(String, u32)>)
    ensures
        weighted_names(r@) == weighted_names(v@),
{
    let mut out: Vec<(String, u32)> = Vec::new();
    let mut i: usize = 0;
    while i < v.len()
        invariant
            i <= v@.len(),
            out@.len() == i,
            forall|j: int|
                0 <= j < i ==> (#[trigger] out@[j]).0@ == v@[j].0@ && out@[j].1 == v@[j].1,
        decreases v.len() - i,
    {
        out.push((v[i].0.clone(), v[i].1));
        i += 1;
    }
    proof {
        assert(weighted_names(out@) =~= weighted_names(v@));
    }
    out
}

/// A copy of some queries.
pub fn copy_queries(v: &Vec<Query>) -> (r: Vec<Query>)
    ensures
        query_views(r@) == query_views(v@),
    decreases v,
{
    let mut out: Vec<Query> = Vec::new();
    let mut i: usize = 0;
    while i < v.len()
        invariant
            i <= v@.len(),
            out@.len() == i,
            forall|j: int| 0 <= j < i ==> (#[trigger] out@[j])@ == v@[j]@,
        decreases v.len() - i,
    {
        assert(decreases_to!(*v => v@));
        assert(decreases_to!(v@ => v@[i as int]));
        out.push(v[i].copy());
        i += 1;
    }
    proof {
        assert(query_views(out@) =~= query_views(v@));
    }
    out
}

fn normalized_queries(v: Vec<Query>) -> (r: Vec<Query>)
    ensures
        query_views(r@) == norm_queries(query_views(v@)),
    decreases v,
{
    let ghost all = v@;
    let ghost whole = v;
    let mut out: Vec<Query> = Vec::new();
    for x in it: v
        invariant
            it.seq() == all,
            all == whole@,
            whole == v,
            out@.len() == it.index(),
            forall|j: int| 0 <= j < it.index() ==> (#[trigger] out@[j])@ == norm_query(all[j]@),
    {
        assert(decreases_to!(whole => whole@));
        assert(decreases_to!(whole@ => whole@[it.index() as int]));
        out.push(x.normalized());
    }
    proof {
        assert(query_views(out@) =~= norm_queries(query_views(all)));
    }
    out
}

/// A copy of a query that may be missing.
pub fn copy_opt_query(q: &Option<Query>) -> (r: Option<Query>)
    ensures
        opt_query(r) == opt_query(*q),
{
    match q {
        Some(q) => Some(q.copy()),
        None => None,
    }
}

/// A query that may be missing, in normal form.
pub fn normalized_opt_query(q: Option<Query>) -> (r: Option<Query>)
    ensures
        opt_query(r) == norm_opt_query(opt_query(q)),
{
    match q {
        Some(q) => Some(q.normalized()),
        None => None,
    }
}

impl Query {
    /// A copy of the query.
    pub fn copy(&self) -> (r: Query)
        ensures
            r@ == self@,
        decreases self,
    {
        broadcast use view_bool;

        match self {
            Query::MatchAll => Query::MatchAll,
            Query::MatchNone => Query::MatchNone,
            Query::Match { field, text, operator, minimum_should_match, fuzziness, analyzer } =>
                Query::Match {
                field: field.clone(),
                text: text.clone(),
                operator: *operator,
                minimum_should_match: text::copy_opt(minimum_should_match),
                fuzziness: *fuzziness,
                analyzer: text::copy_opt(analyzer),
            },
            Query::MatchPhrase { field, text, slop } => Query::MatchPhrase {
                field: field.clone(),
                text: text.clone(),
                slop: *slop,
            },
            Query::MultiMatch { fields, text, kind, operator, tie_breaker } => Query::MultiMatch {
                fields: copy_weights(fields),
                text: text.clone(),
                kind: *kind,
                operator: *operator,
                tie_breaker: *tie_breaker,
            },
            Query::Term { field, value } => Query::Term {
                field: field.clone(),
                value: value.copy(),
            },
            Query::Terms { field, values } => Query::Terms {
                field: field.clone(),
                values: values::copy_all(values),
            },
            Query::Range { field, gt, gte, lt, lte } => Query::Range {
                field: field.clone(),
                gt: values::copy_opt(gt),
                gte: values::copy_opt(gte),
                lt: values::copy_opt(lt),
                lte: values::copy_opt(lte),
            },
            Query::Exists { field } => Query::Exists { field: field.clone() },
            Query::IsNull { field } => Query::IsNull { field: field.clone() },
            Query::IsEmpty { field } => Query::IsEmpty { field: field.clone() },
            Query::ValuesCount { field, gt, gte, lt, lte } => Query::ValuesCount {
                field: field.clone(),
                gt: *gt,
                gte: *gte,
                lt: *lt,
                lte: *lte,
            },
            Query::Prefix { field, value } => Query::Prefix {
                field: field.clone(),
                value: value.clone(),
            },
            Query::Wildcard { field, pattern } => Query::Wildcard {
                field: field.clone(),
                pattern: pattern.clone(),
            },
            Query::Fuzzy { field, value, fuzziness } => Query::Fuzzy {
                field: field.clone(),
                value: value.clone(),
                fuzziness: *fuzziness,
            },
            Query::Ids(keys) => Query::Ids(copy_keys(keys)),
            Query::QueryString { query, default_fields, default_operator } => Query::QueryString {
                query: query.clone(),
                default_fields: text::copy_all(default_fields),
                default_operator: *default_operator,
            },
            Query::Bool { must, should, must_not, filter, minimum_should_match } => Query::Bool {
                must: copy_queries(must),
                should: copy_queries(should),
                must_not: copy_queries(must_not),
                filter: copy_queries(filter),
                minimum_should_match: text::copy_opt(minimum_should_match),
            },
            Query::Boost { query, boost } => Query::Boost {
                query: Box::new((**query).copy()),
                boost: *boost,
            },
            Query::ConstantScore { query, score } => Query::ConstantScore {
                query: Box::new((**query).copy()),
                score: *score,
            },
        }
    }

    /// Every field value in the query normalized.
    pub fn normalized(self) -> (r: Query)
        ensures
            r@ == norm_query(self@),
        decreases self,
    {
        broadcast use view_bool;

        match self {
            Query::Term { field, value } => Query::Term { field, value: value.normalized() },
            Query::Terms { field, values } => Query::Terms {
                field,
                values: values::normalized_all(values),
            },
            Query::Range { field, gt, gte, lt, lte } => Query::Range {
                field,
                gt: values::normalized_opt(gt),
                gte: values::normalized_opt(gte),
                lt: values::normalized_opt(lt),
                lte: values::normalized_opt(lte),
            },
            Query::Bool { must, should, must_not, filter, minimum_should_match } => Query::Bool {
                must: normalized_queries(must),
                should: normalized_queries(should),
                must_not: normalized_queries(must_not),
                filter: normalized_queries(filter),
                minimum_should_match,
            },
            Query::Boost { query, boost } => Query::Boost {
                query: Box::new((*query).normalized()),
                boost,
            },
            Query::ConstantScore { query, score } => Query::ConstantScore {
                query: Box::new((*query).normalized()),
                score,
            },
            other => other,
        }
    }
}

} // verus!
