//! The hybrid query body: one object of a collection, retrievers, a filter,
//! a fusion and a selection.

use crate::error;
use crate::error::{Failure, ServiceError};
use crate::float;
use crate::ir;
use crate::ir::{
    AnnParams, ConsistencyToken, ConsistencyV, Fusion, FusionV, Projection, ProjectionV,
    ReadConsistency, Retriever, RetrieverV, SearchRequest, SourceFilter, SourceFilterV,
};
use crate::json::entries;
use crate::json::fields;
use crate::json::filters;
use crate::json::value;
use crate::json::value::{Json, Num, Number, Tree};
use crate::query;
use crate::query::{BoolOperator, Query, QueryV};
use crate::text;
use vstd::prelude::*;
use vstd::string::*;

verus! {

broadcast use {crate::json::value::view_object, crate::json::value::view_array};

/// Whether a body is of the hybrid form.
pub open spec fn hybrid(body: Tree) -> bool {
    body matches Tree::Object(es) && (entries::has(es, "from"@) || entries::has(es, "retrieve"@))
}

/// Whether a body is of the hybrid form: it says what to read from or what
/// retrieves.
pub fn is_hybrid(body: &Json) -> (r: bool)
    ensures
        r == hybrid(body@),
{
    match body {
        Json::Object(es) => value::find(es, "from").is_some() || value::find(
            es,
            "retrieve",
        ).is_some(),
        _ => false,
    }
}

/// The size that a value says.
pub open spec fn size_in(t: Tree, what: Seq<char>) -> Result<usize, Failure> {
    match fields::small_number(t, usize::MAX as u64) {
        Some(n) => Ok(n as usize),
        None => Err(fields::invalid(what + " must be an unsigned integer"@)),
    }
}

fn size_error(what: &str) -> (r: ServiceError)
    ensures
        r@ == fields::invalid(what@ + " must be an unsigned integer"@),
{
    error::invalid(text::cat2(what, " must be an unsigned integer"))
}

fn usize_from(v: &Json, what: &str) -> (r: Result<usize, ServiceError>)
    ensures
        match r {
            Ok(n) => size_in(v@, what@) == Ok::<usize, Failure>(n),
            Err(e) => size_in(v@, what@) == Err::<usize, Failure>(e@),
        },
{
    match v.as_u64() {
        Some(n) => if n <= usize::MAX as u64 {
            Ok(n as usize)
        } else {
            Err(size_error(what))
        },
        None => Err(size_error(what)),
    }
}

/// The size of a key, which must be there.
pub open spec fn needed_size(
    es: Seq<(Seq<char>, Tree)>,
    key: Seq<char>,
    what: Seq<char>,
) -> Result<usize, Failure> {
    match value::lookup(es, key) {
        Some(t) => size_in(t, what),
        None => Err(fields::invalid(what + " must be an unsigned integer"@)),
    }
}

fn size_of(es: &Vec<(String, Json)>, key: &str, what: &str) -> (r: Result<usize, ServiceError>)
    ensures
        match r {
            Ok(n) => needed_size(value::entries_of(es@), key@, what@) == Ok::<usize, Failure>(n),
            Err(e) => needed_size(value::entries_of(es@), key@, what@) == Err::<usize, Failure>(
                e@,
            ),
        },
{
    match value::find(es, key) {
        Some(v) => usize_from(v, what),
        None => Err(size_error(what)),
    }
}

/// The text of a key, which must be there.
pub open spec fn needed_text(
    es: Seq<(Seq<char>, Tree)>,
    key: Seq<char>,
    what: Seq<char>,
) -> Result<Seq<char>, Failure> {
    match value::lookup(es, key) {
        Some(Tree::Text(s)) => Ok(s),
        _ => Err(fields::invalid(what + "."@ + key + " must be a string"@)),
    }
}

fn text_of(es: &Vec<(String, Json)>, key: &str, what: &str) -> (r: Result<String, ServiceError>)
    ensures
        match r {
            Ok(s) => needed_text(value::entries_of(es@), key@, what@) == Ok::<Seq<char>, Failure>(
                s@,
            ),
            Err(e) => needed_text(value::entries_of(es@), key@, what@) == Err::<
                Seq<char>,
                Failure,
            >(e@),
        },
{
    if let Some(v) = value::find(es, key) {
        if let Some(s) = v.as_str() {
            return Ok(s.to_owned());
        }
    }
    let mut m = text::cat3(what, ".", key);
    m.append(" must be a string");
    Err(error::invalid(m))
}

fn opt_u32(es: &Vec<(String, Json)>, key: &str, what: &str) -> (r: Result<
    Option<u32>,
    ServiceError,
>)
    ensures
        match r {
            Ok(n) => fields::u32_in(value::entries_of(es@), what@, key@) == Ok::<
                Option<u32>,
                Failure,
            >(n),
            Err(e) => fields::u32_in(value::entries_of(es@), what@, key@) == Err::<
                Option<u32>,
                Failure,
            >(e@),
        },
{
    match value::find(es, key) {
        None => Ok(None),
        Some(v) => match v {
            Json::Null => Ok(None),
            _ => {
                if let Some(n) = v.as_u64() {
                    if n <= u32::MAX as u64 {
                        return Ok(Some(n as u32));
                    }
                }
                let mut m = text::cat3(what, ".", key);
                m.append(" must be ");
                m.append("an unsigned 32-bit integer");
                Err(error::invalid(m))
            },
        },
    }
}

/// The bits of a number as a single-precision float.
pub open spec fn number_bits(n: Num) -> int {
    match n {
        Num::Unsigned(u) => float::narrowed(float::int_bits64(u as int) as u64),
        Num::Negative(i) => float::narrowed(float::int_bits64(i as int) as u64),
        Num::Float { bits, .. } => float::narrowed(bits),
    }
}

fn bits_of(n: &Number) -> (r: u32)
    ensures
        r == number_bits(n@),
{
    match n {
        Number::Unsigned(u) => float::narrow(float::int_to_f64(*u as i128)),
        Number::Negative(i) => float::narrow(float::int_to_f64(*i as i128)),
        Number::Float { bits, .. } => float::narrow(*bits),
    }
}

/// A list of numbers as single-precision floats.
pub open spec fn floats_in(t: Option<Tree>, what: Seq<char>) -> Result<Seq<u32>, Failure> {
    match t {
        Some(Tree::Array(items)) => if forall|i: int|
            0 <= i < items.len() ==> #[trigger] items[i] is Number {
            Ok(Seq::new(items.len(), |i: int| number_bits(items[i]->Number_0) as u32))
        } else {
            Err(fields::invalid(what + " must be a list of numbers"@))
        },
        _ => Err(fields::invalid(what + " must be a list of numbers"@)),
    }
}

fn floats_error(what: &str) -> (r: ServiceError)
    ensures
        r@ == fields::invalid(what@ + " must be a list of numbers"@),
{
    error::invalid(text::cat2(what, " must be a list of numbers"))
}

fn floats_of(es: &Vec<(String, Json)>, key: &str, what: &str) -> (r: Result<
    Vec<u32>,
    ServiceError,
>)
    ensures
        match r {
            Ok(v) => floats_in(value::lookup(value::entries_of(es@), key@), what@) == Ok::<
                Seq<u32>,
                Failure,
            >(v@),
            Err(e) => floats_in(value::lookup(value::entries_of(es@), key@), what@) == Err::<
                Seq<u32>,
                Failure,
            >(e@),
        },
{
    let list = match value::find(es, key) {
        Some(v) => v.as_array(),
        None => None,
    };
    let items = match list {
        Some(items) => items,
        None => {
            return Err(floats_error(what));
        },
    };
    let ghost all = value::items_of(items@);
    let mut out: Vec<u32> = Vec::new();
    let mut i: usize = 0;
    while i < items.len()
        invariant
            i <= items@.len(),
            all == value::items_of(items@),
            value::lookup(value::entries_of(es@), key@) == Some(Tree::Array(all)),
            forall|j: int| 0 <= j < i ==> #[trigger] all[j] is Number,
            out@.len() == i,
            forall|j: int|
                0 <= j < i ==> #[trigger] out@[j] == number_bits(all[j]->Number_0) as u32,
        decreases items.len() - i,
    {
        assert(all[i as int] == items@[i as int]@);
        match &items[i] {
            Json::Number(n) => {
                out.push(bits_of(n));
            },
            _ => {
                assert(!(all[i as int] is Number));
                return Err(floats_error(what));
            },
        }
        i += 1;
    }
    proof {
        assert(out@ =~= Seq::new(all.len(), |i: int| number_bits(all[i]->Number_0) as u32));
    }
    Ok(out)
}

/// Whether a vector search is exact.
pub open spec fn exact_in(es: Seq<(Seq<char>, Tree)>) -> Result<bool, Failure> {
    match value::lookup(es, "exact"@) {
        None => Ok(false),
        Some(Tree::Null) => Ok(false),
        Some(Tree::Bool(b)) => Ok(b),
        Some(_) => Err(fields::invalid("vector.exact must be a bool"@)),
    }
}

/// The keys of a vector retriever.
pub open spec fn vector_keys() -> Seq<Seq<char>> {
    seq!["field"@, "query"@, "k"@, "exact"@, "nprobes"@, "refine_factor"@, "ef"@]
}

/// A vector retriever.
pub open spec fn vector_in(body: Tree) -> Result<RetrieverV, Failure> {
    let w = "vector"@;
    match filters::fields_of(body, w, vector_keys()) {
        Err(e) => Err(e),
        Ok(es) => match floats_in(value::lookup(es, "query"@), "vector.query"@) {
            Err(e) => Err(e),
            Ok(query) => match exact_in(es) {
                Err(e) => Err(e),
                Ok(exact) => match needed_text(es, "field"@, w) {
                    Err(e) => Err(e),
                    Ok(field) => match needed_size(es, "k"@, "vector.k"@) {
                        Err(e) => Err(e),
                        Ok(k) => match fields::u32_in(es, w, "nprobes"@) {
                            Err(e) => Err(e),
                            Ok(nprobes) => match fields::u32_in(es, w, "refine_factor"@) {
                                Err(e) => Err(e),
                                Ok(refine_factor) => match fields::u32_in(es, w, "ef"@) {
                                    Err(e) => Err(e),
                                    Ok(ef) => Ok(
                                        RetrieverV::Vector {
                                            field,
                                            query,
                                            k,
                                            params: AnnParams {
                                                exact,
                                                nprobes,
                                                refine_factor,
                                                ef,
                                                oversampling: None,
                                                distance: None,
                                            },
                                            filter: None,
                                        },
                                    ),
                                },
                            },
                        },
                    },
                },
            },
        },
    }
}

fn read_vector(body: &Json) -> (r: Result<Retriever, ServiceError>)
    ensures
        match r {
            Ok(q) => vector_in(body@) == Ok::<RetrieverV, Failure>(q@),
            Err(e) => vector_in(body@) == Err::<RetrieverV, Failure>(e@),
        },
{
    let allowed = ["field", "query", "k", "exact", "nprobes", "refine_factor", "ef"];
    assert(fields::strs(allowed@) =~= vector_keys());
    let es = match filters::checked(body, "vector", &allowed) {
        Ok(es) => es,
        Err(e) => {
            return Err(e);
        },
    };
    let query = match floats_of(es, "query", "vector.query") {
        Ok(v) => v,
        Err(e) => {
            return Err(e);
        },
    };
    let exact = match value::find(es, "exact") {
        None => false,
        Some(v) => match v {
            Json::Null => false,
            Json::Bool(b) => *b,
            _ => {
                return Err(error::invalid("vector.exact must be a bool".to_owned()));
            },
        },
    };
    let field = match text_of(es, "field", "vector") {
        Ok(s) => s,
        Err(e) => {
            return Err(e);
        },
    };
    let k: usize = match size_of(es, "k", "vector.k") {
        Ok(n) => n,
        Err(e) => {
            return Err(e);
        },
    };
    let nprobes = match opt_u32(es, "nprobes", "vector") {
        Ok(n) => n,
        Err(e) => {
            return Err(e);
        },
    };
    let refine_factor = match opt_u32(es, "refine_factor", "vector") {
        Ok(n) => n,
        Err(e) => {
            return Err(e);
        },
    };
    match opt_u32(es, "ef", "vector") {
        Ok(ef) => Ok(
            Retriever::Vector {
                field,
                query,
                k,
                params: AnnParams {
                    exact,
                    nprobes,
                    refine_factor,
                    ef,
                    oversampling: None,
                    distance: None,
                },
                filter: None,
            },
        ),
        Err(e) => Err(e),
    }
}

/// Whether a text retriever needs all words: only where it says so.
pub open spec fn operator_in(es: Seq<(Seq<char>, Tree)>) -> Result<BoolOperator, Failure> {
    match value::lookup(es, "operator"@) {
        Some(Tree::Text(s)) => if s == "or"@ {
            Ok(BoolOperator::Or)
        } else if s == "and"@ {
            Ok(BoolOperator::And)
        } else {
            Err(fields::invalid("unknown text.operator "@ + s))
        },
        _ => Ok(BoolOperator::Or),
    }
}

/// A text retriever.
pub open spec fn text_in(body: Tree) -> Result<RetrieverV, Failure> {
    let w = "text"@;
    match filters::fields_of(body, w, seq!["field"@, "query"@, "k"@, "operator"@]) {
        Err(e) => Err(e),
        Ok(es) => match operator_in(es) {
            Err(e) => Err(e),
            Ok(operator) => match needed_text(es, "field"@, w) {
                Err(e) => Err(e),
                Ok(field) => match needed_text(es, "query"@, w) {
                    Err(e) => Err(e),
                    Ok(words) => match needed_size(es, "k"@, "text.k"@) {
                        Err(e) => Err(e),
                        Ok(k) => Ok(
                            RetrieverV::Text {
                                query: QueryV::Match {
                                    field,
                                    text: words,
                                    operator,
                                    minimum_should_match: None,
                                    fuzziness: None,
                                    analyzer: None,
                                },
                                k,
                            },
                        ),
                    },
                },
            },
        },
    }
}

fn read_text(body: &Json) -> (r: Result<Retriever, ServiceError>)
    ensures
        match r {
            Ok(q) => text_in(body@) == Ok::<RetrieverV, Failure>(q@),
            Err(e) => text_in(body@) == Err::<RetrieverV, Failure>(e@),
        },
{
    let allowed = ["field", "query", "k", "operator"];
    assert(fields::strs(allowed@) =~= seq!["field"@, "query"@, "k"@, "operator"@]);
    let es = match filters::checked(body, "text", &allowed) {
        Ok(es) => es,
        Err(e) => {
            return Err(e);
        },
    };
    let named_operator = match value::find(es, "operator") {
        Some(v) => v.as_str(),
        None => None,
    };
    let operator = match named_operator {
        None => BoolOperator::Or,
        Some(s) => if text::same(s, "or") {
            BoolOperator::Or
        } else if text::same(s, "and") {
            BoolOperator::And
        } else {
            return Err(error::invalid(text::cat2("unknown text.operator ", s)));
        },
    };
    let field = match text_of(es, "field", "text") {
        Ok(s) => s,
        Err(e) => {
            return Err(e);
        },
    };
    let words = match text_of(es, "query", "text") {
        Ok(s) => s,
        Err(e) => {
            return Err(e);
        },
    };
    match size_of(es, "k", "text.k") {
        Ok(k) => Ok(
            Retriever::Text {
                query: Query::Match {
                    field,
                    text: words,
                    operator,
                    minimum_should_match: None,
                    fuzziness: None,
                    analyzer: None,
                },
                k,
            },
        ),
        Err(e) => Err(e),
    }
}

/// A retriever: a one-key object of its kind and its settings.
pub open spec fn retriever_in(t: Tree) -> Result<RetrieverV, Failure> {
    match filters::single_in(t, "a retriever"@) {
        Err(e) => Err(e),
        Ok((kind, body)) => if kind == "vector"@ {
            vector_in(body)
        } else if kind == "text"@ {
            text_in(body)
        } else {
            Err(fields::invalid("unknown retriever "@ + kind))
        },
    }
}

fn retriever_from(v: &Json) -> (r: Result<Retriever, ServiceError>)
    ensures
        match r {
            Ok(q) => retriever_in(v@) == Ok::<RetrieverV, Failure>(q@),
            Err(e) => retriever_in(v@) == Err::<RetrieverV, Failure>(e@),
        },
{
    let (kind, body) = match filters::single(v, "a retriever") {
        Ok(p) => p,
        Err(e) => {
            return Err(e);
        },
    };
    if text::same(kind, "vector") {
        read_vector(body)
    } else if text::same(kind, "text") {
        read_text(body)
    } else {
        Err(error::invalid(text::cat2("unknown retriever ", kind)))
    }
}

/// The retrievers of the first `n` items, or the error of the first that is
/// none.
pub open spec fn retrievers_in(items: Seq<Tree>, n: nat) -> Result<Seq<RetrieverV>, Failure>
    decreases n,
{
    if n == 0 || n > items.len() {
        Ok(Seq::empty())
    } else {
        match retrievers_in(items, (n - 1) as nat) {
            Err(e) => Err(e),
            Ok(out) => match retriever_in(items[n - 1]) {
                Err(e) => Err(e),
                Ok(r) => Ok(out.push(r)),
            },
        }
    }
}

proof fn retrievers_stay_wrong(items: Seq<Tree>, n: nat, m: nat)
    requires
        n <= m <= items.len(),
        retrievers_in(items, n) is Err,
    ensures
        retrievers_in(items, m) == retrievers_in(items, n),
    decreases m - n,
{
    if n < m {
        retrievers_stay_wrong(items, n, (m - 1) as nat);
    }
}

fn read_retrievers(items: &Vec<Json>) -> (r: Result<Vec<Retriever>, ServiceError>)
    ensures
        match r {
            Ok(v) => retrievers_in(value::items_of(items@), items@.len()) == Ok::<
                Seq<RetrieverV>,
                Failure,
            >(ir::retriever_views(v@)),
            Err(e) => retrievers_in(value::items_of(items@), items@.len()) == Err::<
                Seq<RetrieverV>,
                Failure,
            >(e@),
        },
{
    let ghost all = value::items_of(items@);
    let mut out: Vec<Retriever> = Vec::new();
    let mut i: usize = 0;
    assert(ir::retriever_views(out@) =~= Seq::empty());
    while i < items.len()
        invariant
            i <= items@.len(),
            all == value::items_of(items@),
            retrievers_in(all, i as nat) == Ok::<Seq<RetrieverV>, Failure>(
                ir::retriever_views(out@),
            ),
        decreases items.len() - i,
    {
        assert(all[i as int] == items@[i as int]@);
        match retriever_from(&items[i]) {
            Ok(v) => {
                let ghost was = ir::retriever_views(out@);
                let ghost vv = v@;
                out.push(v);
                assert(ir::retriever_views(out@) =~= was.push(vv));
            },
            Err(e) => {
                proof {
                    retrievers_stay_wrong(all, i as nat + 1, items@.len());
                }
                return Err(e);
            },
        }
        i += 1;
    }
    Ok(out)
}

/// The keys of a fusion by its method, none for an unknown one.
pub open spec fn fusion_keys(method: Seq<char>) -> Option<Seq<Seq<char>>> {
    if method == "rrf"@ {
        Some(seq!["method"@, "k"@])
    } else if method == "dbsf"@ {
        Some(seq!["method"@])
    } else if method == "weighted"@ {
        Some(seq!["method"@, "weights"@])
    } else {
        None
    }
}

/// The fusion of a JSON value.
pub open spec fn fusion_in(t: Tree) -> Result<FusionV, Failure> {
    let w = "fuse"@;
    match t {
        Tree::Object(es) => match needed_text(es, "method"@, w) {
            Err(e) => Err(e),
            Ok(method) => match fusion_keys(method) {
                None => Err(fields::invalid("unknown fuse method "@ + method)),
                Some(allowed) => match fields::unknown_key(es, allowed, 0) {
                    Some(key) => Err(fields::bad_key(key, w)),
                    None => if method == "rrf"@ {
                        match fields::u32_in(es, w, "k"@) {
                            Err(e) => Err(e),
                            Ok(k) => Ok(
                                FusionV::Rrf {
                                    k: match k {
                                        Some(k) => k,
                                        None => 60,
                                    },
                                },
                            ),
                        }
                    } else if method == "dbsf"@ {
                        Ok(FusionV::Dbsf)
                    } else {
                        match floats_in(value::lookup(es, "weights"@), "fuse.weights"@) {
                            Err(e) => Err(e),
                            Ok(weights) => Ok(FusionV::WeightedSum { weights }),
                        }
                    },
                },
            },
        },
        _ => Err(fields::invalid("fuse must be an object"@)),
    }
}

fn fusion_from(v: &Json) -> (r: Result<Fusion, ServiceError>)
    ensures
        match r {
            Ok(f) => fusion_in(v@) == Ok::<FusionV, Failure>(f@),
            Err(e) => fusion_in(v@) == Err::<FusionV, Failure>(e@),
        },
{
    let es = match v.as_object() {
        Some(es) => es,
        None => {
            return Err(error::invalid("fuse must be an object".to_owned()));
        },
    };
    let method = match text_of(es, "method", "fuse") {
        Ok(s) => s,
        Err(e) => {
            return Err(e);
        },
    };
    let rrf = text::same(&method, "rrf");
    let dbsf = text::same(&method, "dbsf");
    let bad = if rrf {
        let allowed = ["method", "k"];
        assert(fields::strs(allowed@) =~= seq!["method"@, "k"@]);
        fields::find_unknown(es, &allowed)
    } else if dbsf {
        let allowed = ["method"];
        assert(fields::strs(allowed@) =~= seq!["method"@]);
        fields::find_unknown(es, &allowed)
    } else if text::same(&method, "weighted") {
        let allowed = ["method", "weights"];
        assert(fields::strs(allowed@) =~= seq!["method"@, "weights"@]);
        fields::find_unknown(es, &allowed)
    } else {
        return Err(error::invalid(text::cat2("unknown fuse method ", &method)));
    };
    if let Some(i) = bad {
        return Err(fields::unknown(&es[i].0, "fuse"));
    }
    if rrf {
        match opt_u32(es, "k", "fuse") {
            Ok(Some(k)) => Ok(Fusion::Rrf { k }),
            Ok(None) => Ok(Fusion::Rrf { k: 60 }),
            Err(e) => Err(e),
        }
    } else if dbsf {
        Ok(Fusion::Dbsf)
    } else {
        match floats_of(es, "weights", "fuse.weights") {
            Ok(weights) => Ok(Fusion::WeightedSum { weights }),
            Err(e) => Err(e),
        }
    }
}

/// What a list of names selects so far.
pub struct SelectV {
    pub all: bool,
    pub paths: Seq<Seq<char>>,
    pub vectors: Seq<Seq<char>>,
}

/// What the first `n` names of a list select, none where one is no text.
pub open spec fn selected(items: Seq<Tree>, n: nat) -> Option<SelectV>
    decreases n,
{
    if n == 0 || n > items.len() {
        Some(SelectV { all: false, paths: Seq::empty(), vectors: Seq::empty() })
    } else {
        match selected(items, (n - 1) as nat) {
            None => None,
            Some(s) => match items[n - 1] {
                Tree::Text(name) => if name == "id"@ || name == "_score"@ {
                    Some(s)
                } else if name == "_source"@ {
                    Some(SelectV { all: true, ..s })
                } else {
                    match text::without_prefix(name, "_vectors."@) {
                        Some(v) => Some(SelectV { vectors: s.vectors.push(v), ..s }),
                        None => Some(SelectV { paths: s.paths.push(name), ..s }),
                    }
                },
                _ => None,
            },
        }
    }
}

proof fn selection_stays_wrong(items: Seq<Tree>, n: nat, m: nat)
    requires
        n <= m <= items.len(),
        selected(items, n) is None,
    ensures
        selected(items, m) is None,
    decreases m - n,
{
    if n < m {
        selection_stays_wrong(items, n, (m - 1) as nat);
    }
}

/// The selection of a JSON value: names of source paths, `_source` for all
/// of it, and `_vectors.` names.
pub open spec fn select_in(t: Tree) -> Result<ProjectionV, Failure> {
    let bad = fields::invalid("select must be a list of names"@);
    match t {
        Tree::Array(items) => match selected(items, items.len()) {
            None => Err(bad),
            Some(s) => Ok(
                ProjectionV {
                    source: if s.all {
                        SourceFilterV::All
                    } else if s.paths.len() == 0 {
                        SourceFilterV::Nothing
                    } else {
                        SourceFilterV::Paths {
                            include_paths: s.paths,
                            exclude_paths: Seq::empty(),
                        }
                    },
                    vectors: s.vectors,
                    fields: Seq::empty(),
                },
            ),
        },
        _ => Err(bad),
    }
}

fn select_from(v: &Json) -> (r: Result<Projection, ServiceError>)
    ensures
        match r {
            Ok(p) => select_in(v@) == Ok::<ProjectionV, Failure>(p@),
            Err(e) => select_in(v@) == Err::<ProjectionV, Failure>(e@),
        },
{
    let items = match v.as_array() {
        Some(items) => items,
        None => {
            return Err(error::invalid("select must be a list of names".to_owned()));
        },
    };
    let ghost names = value::items_of(items@);
    let mut all = false;
    let mut paths: Vec<String> = Vec::new();
    let mut vectors: Vec<String> = Vec::new();
    let mut i: usize = 0;
    proof {
        assert(text::texts(paths@) =~= Seq::empty());
        assert(text::texts(vectors@) =~= Seq::empty());
    }
    while i < items.len()
        invariant
            i <= items@.len(),
            names == value::items_of(items@),
            v@ == Tree::Array(names),
            selected(names, i as nat) == Some(
                SelectV {
                    all,
                    paths: text::texts(paths@),
                    vectors: text::texts(vectors@),
                },
            ),
        decreases items.len() - i,
    {
        assert(names[i as int] == items@[i as int]@);
        match items[i].as_str() {
            None => {
                proof {
                    selection_stays_wrong(names, i as nat + 1, items@.len());
                }
                return Err(error::invalid("select must be a list of names".to_owned()));
            },
            Some(name) => {
                let ghost pv = text::texts(paths@);
                let ghost vv = text::texts(vectors@);
                if text::same(name, "id") || text::same(name, "_score") {
                } else if text::same(name, "_source") {
                    all = true;
                } else {
                    match text::strip_prefix(name, "_vectors.") {
                        Some(vector) => {
                            vectors.push(vector.to_owned());
                            assert(text::texts(vectors@) =~= vv.push(vector@));
                        },
                        None => {
                            paths.push(name.to_owned());
                            assert(text::texts(paths@) =~= pv.push(name@));
                        },
                    }
                }
            },
        }
        i += 1;
    }
    let no_fields: Vec<String> = Vec::new();
    let no_paths: Vec<String> = Vec::new();
    proof {
        assert(text::texts(no_fields@) =~= Seq::empty());
        assert(text::texts(no_paths@) =~= Seq::empty());
    }
    let source = if all {
        SourceFilter::All
    } else if paths.len() == 0 {
        SourceFilter::Nothing
    } else {
        SourceFilter::Paths { include_paths: paths, exclude_paths: no_paths }
    };
    Ok(Projection { source, vectors, fields: no_fields })
}

/// The text of a body's consistency token, if it says one.
pub open spec fn token_in(t: Tree) -> Option<Seq<char>> {
    match filters::single_in(t, "consistency"@) {
        Ok((key, Tree::Text(s))) => if key == "token"@ {
            Some(s)
        } else {
            None
        },
        _ => None,
    }
}

/// How fresh a body's read is, given what its token's text parses to.
pub open spec fn consistency_in(t: Tree, parsed: Option<Seq<(u64, u32, u64)>>) -> Result<
    ConsistencyV,
    Failure,
> {
    if t == Tree::Text("strong"@) {
        Ok(ConsistencyV::Strong)
    } else if t == Tree::Text("eventual"@) {
        Ok(ConsistencyV::Eventual)
    } else {
        match filters::single_in(t, "consistency"@) {
            Err(e) => Err(e),
            Ok(_) => match token_in(t) {
                None => Err(
                    fields::invalid(
                        "consistency must be \"strong\", \"eventual\" or {\"token\": \"v1:\u{2026}\"}"@,
                    ),
                ),
                Some(s) => match parsed {
                    Some(token) => Ok(ConsistencyV::AtLeast(token)),
                    None => Err(
                        fields::invalid("invalid consistency token "@ + text::debug_text(s)),
                    ),
                },
            },
        }
    }
}

/// The entries of a token that may be absent.
pub open spec fn opt_token(token: Option<ConsistencyToken>) -> Option<Seq<(u64, u32, u64)>> {
    match token {
        Some(token) => Some(token@),
        None => None,
    }
}

fn consistency_from(v: &Json, parsed: Option<ConsistencyToken>) -> (r: Result<
    ReadConsistency,
    ServiceError,
>)
    ensures
        match r {
            Ok(c) => consistency_in(v@, opt_token(parsed)) == Ok::<ConsistencyV, Failure>(c@),
            Err(e) => consistency_in(v@, opt_token(parsed)) == Err::<ConsistencyV, Failure>(e@),
        },
{
    if let Json::Text(s) = v {
        if text::same(s, "strong") {
            return Ok(ReadConsistency::Strong);
        }
        if text::same(s, "eventual") {
            return Ok(ReadConsistency::Eventual);
        }
    }
    let (key, body) = match filters::single(v, "consistency") {
        Ok(p) => p,
        Err(e) => {
            return Err(e);
        },
    };
    let is_token = text::same(key, "token");
    let token = match body {
        Json::Text(s) => if is_token {
            s
        } else {
            return Err(
                error::invalid(
                    "consistency must be \"strong\", \"eventual\" or {\"token\": \"v1:\u{2026}\"}".to_owned(),
                ),
            );
        },
        _ => {
            return Err(
                error::invalid(
                    "consistency must be \"strong\", \"eventual\" or {\"token\": \"v1:\u{2026}\"}".to_owned(),
                ),
            );
        },
    };
    match parsed {
        Some(t) => Ok(ReadConsistency::AtLeast(t)),
        None => Err(
            error::invalid(text::cat2("invalid consistency token ", &text::debug_of(token))),
        ),
    }
}

/// What a hybrid body asks for.
pub struct HybridV {
    pub collection: Seq<char>,
    pub consistency: ConsistencyV,
    pub retrievers: Seq<RetrieverV>,
    pub filter: Option<QueryV>,
    pub fusion: Option<FusionV>,
    pub select: ProjectionV,
    pub limit: usize,
    pub offset: usize,
}

/// The keys of a hybrid body.
pub open spec fn body_keys() -> Seq<Seq<char>> {
    seq![
        "from"@,
        "consistency"@,
        "retrieve"@,
        "filter"@,
        "fuse"@,
        "select"@,
        "limit"@,
        "offset"@,
    ]
}

/// The collection that a body reads from.
pub open spec fn from_in(es: Seq<(Seq<char>, Tree)>) -> Result<Seq<char>, Failure> {
    match value::lookup(es, "from"@) {
        Some(Tree::Text(s)) => match text::without_prefix(s, "collections."@) {
            Some(name) => Ok(name),
            None => Ok(s),
        },
        _ => Err(fields::invalid("from must be \"collections.<name>\" or \"<name>\""@)),
    }
}

/// The retrievers of a body.
pub open spec fn own_retrievers(es: Seq<(Seq<char>, Tree)>) -> Result<Seq<RetrieverV>, Failure> {
    match value::lookup(es, "retrieve"@) {
        None => Ok(Seq::empty()),
        Some(Tree::Array(items)) => retrievers_in(items, items.len()),
        Some(_) => Err(fields::invalid("retrieve must be a list"@)),
    }
}

/// The size of a key, else a default.
pub open spec fn size_or(es: Seq<(Seq<char>, Tree)>, key: Seq<char>, default: usize) -> Result<
    usize,
    Failure,
> {
    match value::lookup(es, key) {
        None => Ok(default),
        Some(t) => size_in(t, key),
    }
}

/// The consistency of a body, else the latest state.
pub open spec fn own_consistency(
    es: Seq<(Seq<char>, Tree)>,
    parsed: Option<Seq<(u64, u32, u64)>>,
) -> Result<ConsistencyV, Failure> {
    match value::lookup(es, "consistency"@) {
        None => Ok(ConsistencyV::Strong),
        Some(t) => consistency_in(t, parsed),
    }
}

/// The filter of a body, if it has one.
pub open spec fn own_filter(es: Seq<(Seq<char>, Tree)>, now_ms: u64) -> Result<
    Option<QueryV>,
    Failure,
> {
    match value::lookup(es, "filter"@) {
        None => Ok(None),
        Some(t) => match filters::filter_in(t, now_ms) {
            Ok(q) => Ok(Some(q)),
            Err(e) => Err(e),
        },
    }
}

/// The fusion of a body, if it has one.
pub open spec fn own_fusion(es: Seq<(Seq<char>, Tree)>) -> Result<Option<FusionV>, Failure> {
    match value::lookup(es, "fuse"@) {
        None => Ok(None),
        Some(t) => match fusion_in(t) {
            Ok(f) => Ok(Some(f)),
            Err(e) => Err(e),
        },
    }
}

/// The selection of a body, else the whole source.
pub open spec fn own_select(es: Seq<(Seq<char>, Tree)>) -> Result<ProjectionV, Failure> {
    match value::lookup(es, "select"@) {
        None => Ok(ir::whole_source()),
        Some(t) => select_in(t),
    }
}

/// What a hybrid body's entries ask for.
pub open spec fn body_in(
    es: Seq<(Seq<char>, Tree)>,
    now_ms: u64,
    parsed: Option<Seq<(u64, u32, u64)>>,
) -> Result<HybridV, Failure> {
    if entries::has(es, "expand"@) {
        Err(fields::invalid("expand needs graphs, which arrive in M3"@))
    } else if entries::has(es, "rerank"@) {
        Err(fields::invalid("rerank arrives in M3"@))
    } else {
        match fields::unknown_key(es, body_keys(), 0) {
            Some(key) => Err(fields::bad_key(key, "the query body"@)),
            None => match from_in(es) {
                Err(e) => Err(e),
                Ok(collection) => match own_consistency(es, parsed) {
                    Err(e) => Err(e),
                    Ok(consistency) => match own_retrievers(es) {
                        Err(e) => Err(e),
                        Ok(retrievers) => match own_filter(es, now_ms) {
                            Err(e) => Err(e),
                            Ok(filter) => match own_fusion(es) {
                                Err(e) => Err(e),
                                Ok(fusion) => match own_select(es) {
                                    Err(e) => Err(e),
                                    Ok(select) => match size_or(es, "limit"@, 10) {
                                        Err(e) => Err(e),
                                        Ok(limit) => match size_or(es, "offset"@, 0) {
                                            Err(e) => Err(e),
                                            Ok(offset) => Ok(
                                                HybridV {
                                                    collection,
                                                    consistency,
                                                    retrievers,
                                                    filter,
                                                    fusion,
                                                    select,
                                                    limit,
                                                    offset,
                                                },
                                            ),
                                        },
                                    },
                                },
                            },
                        },
                    },
                },
            },
        }
    }
}

/// A fusion that may be absent.
pub open spec fn opt_fusion(f: Option<Fusion>) -> Option<FusionV> {
    match f {
        Some(f) => Some(f@),
        None => None,
    }
}

/// Whether a request is what a hybrid body asks for, with everything else at
/// its default.
pub open spec fn asks(r: SearchRequest, h: HybridV) -> bool {
    &&& r.collection@ == h.collection
    &&& r.consistency@ == h.consistency
    &&& ir::retriever_views(r.retrievers@) == h.retrievers
    &&& query::opt_query(r.filter) == h.filter
    &&& opt_fusion(r.fusion) == h.fusion
    &&& r.select@ == h.select
    &&& r.limit == h.limit
    &&& r.offset == h.offset
    &&& r.sort@.len() == 0
    &&& r.search_after is None
    &&& r.score_threshold is None
    &&& r.aggregations is None
    &&& r.highlight is None
    &&& r.group_by is None
    &&& r.track_total_hits == ir::TrackTotalHits::Never
}

fn check_keys(es: &Vec<(String, Json)>) -> (r: Result<(), ServiceError>)
    ensures
        match r {
            Ok(_) => !entries::has(value::entries_of(es@), "expand"@) && !entries::has(
                value::entries_of(es@),
                "rerank"@,
            ) && fields::unknown_key(value::entries_of(es@), body_keys(), 0) is None,
            Err(e) => forall|now: u64, parsed: Option<Seq<(u64, u32, u64)>>|
                #[trigger] body_in(value::entries_of(es@), now, parsed) == Err::<HybridV, Failure>(
                    e@,
                ),
        },
{
    if value::find(es, "expand").is_some() {
        return Err(error::invalid("expand needs graphs, which arrive in M3".to_owned()));
    }
    if value::find(es, "rerank").is_some() {
        return Err(error::invalid("rerank arrives in M3".to_owned()));
    }
    let allowed = [
        "from",
        "consistency",
        "retrieve",
        "filter",
        "fuse",
        "select",
        "limit",
        "offset",
    ];
    assert(fields::strs(allowed@) =~= body_keys());
    match fields::find_unknown(es, &allowed) {
        Some(i) => Err(fields::unknown(&es[i].0, "the query body")),
        None => Ok(()),
    }
}

fn size_key(es: &Vec<(String, Json)>, key: &str, default: usize) -> (r: Result<
    usize,
    ServiceError,
>)
    ensures
        match r {
            Ok(n) => size_or(value::entries_of(es@), key@, default) == Ok::<usize, Failure>(n),
            Err(e) => size_or(value::entries_of(es@), key@, default) == Err::<usize, Failure>(e@),
        },
{
    match value::find(es, key) {
        None => Ok(default),
        Some(v) => usize_from(v, key),
    }
}

/// The text of a hybrid body's consistency token, if it says one.
pub fn token_text(body: &Json) -> (r: Option<String>)
    ensures
        text::opt_text(r) == (match body@ {
            Tree::Object(es) => match value::lookup(es, "consistency"@) {
                Some(t) => token_in(t),
                None => None,
            },
            _ => None,
        }),
{
    let es = match body.as_object() {
        Some(es) => es,
        None => {
            return None;
        },
    };
    match value::find(es, "consistency") {
        None => None,
        Some(v) => match filters::single(v, "consistency") {
            Err(_) => None,
            Ok((key, t)) => if text::same(key, "token") {
                match t {
                    Json::Text(s) => Some(s.clone()),
                    _ => None,
                }
            } else {
                None
            },
        },
    }
}

/// The request that a hybrid body describes, with dates relative to
/// `now_ms` and its token's text parsed to `parsed`.
pub fn parse_hybrid(body: &Json, now_ms: u64, parsed: Option<ConsistencyToken>) -> (r: Result<
    SearchRequest,
    ServiceError,
>)
    requires
        hybrid(body@),
    ensures
        match r {
            Ok(q) => body_in(body@->Object_0, now_ms, opt_token(parsed)) matches Ok(h) && asks(
                q,
                h,
            ),
            Err(e) => body_in(body@->Object_0, now_ms, opt_token(parsed)) == Err::<
                HybridV,
                Failure,
            >(e@),
        },
{
    let none: Vec<(String, Json)> = Vec::new();
    let es = match body.as_object() {
        Some(es) => es,
        None => &none,
    };
    if let Err(e) = check_keys(es) {
        return Err(e);
    }
    let name = match value::find(es, "from") {
        Some(v) => v.as_str(),
        None => None,
    };
    let name = match name {
        Some(s) => s,
        None => {
            return Err(
                error::invalid("from must be \"collections.<name>\" or \"<name>\"".to_owned()),
            );
        },
    };
    let collection = match text::strip_prefix(name, "collections.") {
        Some(rest) => rest,
        None => name,
    };
    let mut request = SearchRequest::new(collection);
    assert(ir::retriever_views(request.retrievers@) =~= Seq::empty());
    if let Some(v) = value::find(es, "consistency") {
        match consistency_from(v, parsed) {
            Ok(c) => {
                request.consistency = c;
            },
            Err(e) => {
                return Err(e);
            },
        }
    }
    if let Some(v) = value::find(es, "retrieve") {
        match v.as_array() {
            None => {
                return Err(error::invalid("retrieve must be a list".to_owned()));
            },
            Some(items) => match read_retrievers(items) {
                Ok(rs) => {
                    request.retrievers = rs;
                },
                Err(e) => {
                    return Err(e);
                },
            },
        }
    }
    if let Some(v) = value::find(es, "filter") {
        match filters::filter_from(v, now_ms) {
            Ok(q) => {
                request.filter = Some(q);
            },
            Err(e) => {
                return Err(e);
            },
        }
    }
    if let Some(v) = value::find(es, "fuse") {
        match fusion_from(v) {
            Ok(f) => {
                request.fusion = Some(f);
            },
            Err(e) => {
                return Err(e);
            },
        }
    }
    if let Some(v) = value::find(es, "select") {
        match select_from(v) {
            Ok(p) => {
                request.select = p;
            },
            Err(e) => {
                return Err(e);
            },
        }
    }
    match size_key(es, "limit", 10) {
        Ok(n) => {
            request.limit = n;
        },
        Err(e) => {
            return Err(e);
        },
    }
    match size_key(es, "offset", 0) {
        Ok(n) => {
            request.offset = n;
        },
        Err(e) => {
            return Err(e);
        },
    }
    Ok(request)
}

} // verus!
