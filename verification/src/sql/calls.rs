//! The search functions of statements: `vector_search`, `text_search`,
//! `hybrid_search`, `rrf`, and `rerank`, which is refused.

use crate::collection::CollectionSchema;
use crate::ir;
use crate::ir::{
    AnnParams, ConsistencyToken, ConsistencyV, Fusion, FusionV, Projection, ProjectionV,
    ReadConsistency, Retriever, RetrieverV, SearchRequest, SourceFilter, SourceFilterV,
    TrackTotalHits,
};
use crate::query;
use crate::query::{BoolOperator, Query, QueryV};
use crate::sql::args;
use crate::sql::args::{Args, SqlKind, SqlValue};
use crate::sql::descriptor;
use crate::sql::rows;
use crate::sql::rows::RowEncoder;
use crate::sql::statement::SQL_DEFAULT_K;
use crate::text;
use vstd::prelude::*;
use vstd::string::*;

verus! {

broadcast use crate::query::view_bool;

/// The names under which a search function also describes itself as an
/// argument of another.
pub const DESCRIPTOR_FUNCTIONS: [&'static str; 3] = ["vector_search", "text_search", "rrf"];

/// The constant of rank fusion.
pub const DEFAULT_RRF_K: u32 = 60;

/// `vector_search(collection, query_vector [, field [, k [, filter_json [,
/// exact]]]])`.
#[derive(Debug)]
pub struct VectorCall {
    pub collection: String,
    pub query: Vec<u32>,
    pub field: Option<String>,
    pub k: usize,
    pub filter: Option<Query>,
    pub exact: bool,
}

/// What a vector search asks for.
pub struct VectorCallV {
    pub collection: Seq<char>,
    pub query: Seq<u32>,
    pub field: Option<Seq<char>>,
    pub k: nat,
    pub filter: Option<QueryV>,
    pub exact: bool,
}

impl View for VectorCall {
    type V = VectorCallV;

    open spec fn view(&self) -> VectorCallV {
        VectorCallV {
            collection: self.collection@,
            query: self.query@,
            field: text::opt_text(self.field),
            k: self.k as nat,
            filter: query::opt_query(self.filter),
            exact: self.exact,
        }
    }
}

/// A count, or the default.
pub open spec fn count_or_default(n: Option<nat>) -> nat {
    match n {
        Some(n) => n,
        None => SQL_DEFAULT_K as nat,
    }
}

/// The vector search of some arguments.
pub open spec fn vector_call(values: Seq<SqlValue>, parsed: Result<QueryV, Seq<char>>) -> Result<
    VectorCallV,
    Seq<char>,
> {
    let f = "vector_search"@;
    if !(2 <= values.len() <= 6) {
        Err(args::arity_error(f, values.len(), 2, 6))
    } else {
        match args::needed_text(f, values, 0) {
            Err(e) => Err(e),
            Ok(collection) => match args::vector_arg(f, values, 1) {
                Err(e) => Err(e),
                Ok(query) => match args::text_arg(f, values, 2) {
                    Err(e) => Err(e),
                    Ok(field) => match args::count_arg(f, values, 3, usize::MAX as nat) {
                        Err(e) => Err(e),
                        Ok(k) => match args::filter_arg(f, values, 4, parsed) {
                            Err(e) => Err(e),
                            Ok(filter) => match args::bool_arg(f, values, 5) {
                                Err(e) => Err(e),
                                Ok(exact) => Ok(
                                    VectorCallV {
                                        collection,
                                        query,
                                        field,
                                        k: count_or_default(k),
                                        filter,
                                        exact: exact == Some(true),
                                    },
                                ),
                            },
                        },
                    },
                },
            },
        }
    }
}

/// No parameter but whether the search is exact.
pub open spec fn only_exact(exact: bool) -> AnnParams {
    AnnParams {
        exact,
        nprobes: None,
        refine_factor: None,
        ef: None,
        oversampling: None,
        distance: None,
    }
}

/// The retriever of a vector search.
pub open spec fn vector_retriever(call: VectorCallV, field: Seq<char>) -> RetrieverV {
    RetrieverV::Vector {
        field,
        query: call.query,
        k: call.k as usize,
        params: only_exact(call.exact),
        filter: call.filter,
    }
}

impl VectorCall {
    /// The vector search of some arguments; `parsed` is what the text of the
    /// filter parses to.
    pub fn parse(values: &Vec<SqlValue>, parsed: Result<Query, String>) -> (r: Result<
        VectorCall,
        String,
    >)
        ensures
            match r {
                Ok(c) => vector_call(values@, args::parsed_query(parsed)) == Ok::<
                    VectorCallV,
                    Seq<char>,
                >(c@),
                Err(e) => vector_call(values@, args::parsed_query(parsed)) == Err::<
                    VectorCallV,
                    Seq<char>,
                >(e@),
            },
    {
        match args::arity("vector_search", values.len(), 2, 6) {
            Ok(_) => {},
            Err(e) => {
                return Err(e);
            },
        }
        let a = Args { function: "vector_search", values };
        let collection = match a.required_text(0) {
            Ok(v) => v,
            Err(e) => {
                return Err(e);
            },
        };
        let query = match a.vector(1) {
            Ok(v) => v,
            Err(e) => {
                return Err(e);
            },
        };
        let field = match a.text(2) {
            Ok(v) => v,
            Err(e) => {
                return Err(e);
            },
        };
        let k: usize = match a.count(3) {
            Ok(Some(n)) => n,
            Ok(None) => SQL_DEFAULT_K,
            Err(e) => {
                return Err(e);
            },
        };
        let filter = match a.filter(4, parsed) {
            Ok(v) => v,
            Err(e) => {
                return Err(e);
            },
        };
        let exact = match a.boolean(5) {
            Ok(Some(b)) => b,
            Ok(None) => false,
            Err(e) => {
                return Err(e);
            },
        };
        Ok(VectorCall { collection, query, field, k, filter, exact })
    }

    /// The retriever of the search on a field.
    pub fn retriever(&self, field: String) -> (r: Retriever)
        ensures
            r@ == vector_retriever(self@, field@),
    {
        let mut params = AnnParams::none();
        params.exact = self.exact;
        Retriever::Vector {
            field,
            query: ir::copy_bits(&self.query),
            k: self.k,
            params,
            filter: query::copy_opt_query(&self.filter),
        }
    }
}

/// `text_search(collection, text [, field [, k [, filter_json]]])`.
#[derive(Debug)]
pub struct TextCall {
    pub collection: String,
    pub text: String,
    pub field: Option<String>,
    pub k: usize,
    pub filter: Option<Query>,
}

/// What a text search asks for.
pub struct TextCallV {
    pub collection: Seq<char>,
    pub text: Seq<char>,
    pub field: Option<Seq<char>>,
    pub k: nat,
    pub filter: Option<QueryV>,
}

impl View for TextCall {
    type V = TextCallV;

    open spec fn view(&self) -> TextCallV {
        TextCallV {
            collection: self.collection@,
            text: self.text@,
            field: text::opt_text(self.field),
            k: self.k as nat,
            filter: query::opt_query(self.filter),
        }
    }
}

/// The text search of some arguments.
pub open spec fn text_call(values: Seq<SqlValue>, parsed: Result<QueryV, Seq<char>>) -> Result<
    TextCallV,
    Seq<char>,
> {
    let f = "text_search"@;
    if !(2 <= values.len() <= 5) {
        Err(args::arity_error(f, values.len(), 2, 5))
    } else {
        match args::needed_text(f, values, 0) {
            Err(e) => Err(e),
            Ok(collection) => match args::needed_text(f, values, 1) {
                Err(e) => Err(e),
                Ok(text) => match args::text_arg(f, values, 2) {
                    Err(e) => Err(e),
                    Ok(field) => match args::count_arg(f, values, 3, usize::MAX as nat) {
                        Err(e) => Err(e),
                        Ok(k) => match args::filter_arg(f, values, 4, parsed) {
                            Err(e) => Err(e),
                            Ok(filter) => Ok(
                                TextCallV {
                                    collection,
                                    text,
                                    field,
                                    k: count_or_default(k),
                                    filter,
                                },
                            ),
                        },
                    },
                },
            },
        }
    }
}

/// A match of any word of a text on a field.
pub open spec fn matching(field: Seq<char>, text: Seq<char>) -> QueryV {
    QueryV::Match {
        field,
        text,
        operator: BoolOperator::Or,
        minimum_should_match: None,
        fuzziness: None,
        analyzer: None,
    }
}

/// The retriever of a text search: the match, restricted by the filter
/// without changing its scores.
pub open spec fn text_retriever(call: TextCallV, field: Seq<char>) -> RetrieverV {
    RetrieverV::Text {
        query: match call.filter {
            None => matching(field, call.text),
            Some(f) => QueryV::Bool {
                must: seq![matching(field, call.text)],
                should: Seq::empty(),
                must_not: Seq::empty(),
                filter: seq![f],
                minimum_should_match: None,
            },
        },
        k: call.k as usize,
    }
}

fn match_query(field: String, text: String) -> (r: Query)
    ensures
        r@ == matching(field@, text@),
{
    Query::Match {
        field,
        text,
        operator: BoolOperator::Or,
        minimum_should_match: None,
        fuzziness: None,
        analyzer: None,
    }
}

impl TextCall {
    /// The text search of some arguments; `parsed` is what the text of the
    /// filter parses to.
    pub fn parse(values: &Vec<SqlValue>, parsed: Result<Query, String>) -> (r: Result<
        TextCall,
        String,
    >)
        ensures
            match r {
                Ok(c) => text_call(values@, args::parsed_query(parsed)) == Ok::<
                    TextCallV,
                    Seq<char>,
                >(c@),
                Err(e) => text_call(values@, args::parsed_query(parsed)) == Err::<
                    TextCallV,
                    Seq<char>,
                >(e@),
            },
    {
        match args::arity("text_search", values.len(), 2, 5) {
            Ok(_) => {},
            Err(e) => {
                return Err(e);
            },
        }
        let a = Args { function: "text_search", values };
        let collection = match a.required_text(0) {
            Ok(v) => v,
            Err(e) => {
                return Err(e);
            },
        };
        let text = match a.required_text(1) {
            Ok(v) => v,
            Err(e) => {
                return Err(e);
            },
        };
        let field = match a.text(2) {
            Ok(v) => v,
            Err(e) => {
                return Err(e);
            },
        };
        let k: usize = match a.count(3) {
            Ok(Some(n)) => n,
            Ok(None) => SQL_DEFAULT_K,
            Err(e) => {
                return Err(e);
            },
        };
        let filter = match a.filter(4, parsed) {
            Ok(v) => v,
            Err(e) => {
                return Err(e);
            },
        };
        Ok(TextCall { collection, text, field, k, filter })
    }

    /// The retriever of the search on a field.
    pub fn retriever(&self, field: String) -> (r: Retriever)
        ensures
            r@ == text_retriever(self@, field@),
    {
        let found = match_query(field, self.text.clone());
        let query = match &self.filter {
            None => found,
            Some(f) => {
                let must: Vec<Query> = vec![found];
                let filter: Vec<Query> = vec![f.copy()];
                let none: Vec<Query> = Vec::new();
                assert(query::query_views(must@) =~= seq![found@]);
                assert(query::query_views(filter@) =~= seq![f@]);
                assert(query::query_views(none@) =~= Seq::empty());
                let should: Vec<Query> = Vec::new();
                assert(query::query_views(should@) =~= Seq::empty());
                Query::Bool { must, should, must_not: none, filter, minimum_should_match: None }
            },
        };
        Retriever::Text { query, k: self.k }
    }
}

/// Whether a request asks for the fused hits of some retrievers and has
/// nothing else set.
pub open spec fn asks(
    request: SearchRequest,
    collection: Seq<char>,
    retrievers: Seq<RetrieverV>,
    fusion: Option<FusionV>,
    filter: Option<QueryV>,
    limit: nat,
) -> bool {
    &&& request.collection@ == collection
    &&& request.consistency is Strong
    &&& ir::retriever_views(request.retrievers@) == retrievers
    &&& (match fusion {
        Some(f) => request.fusion matches Some(g) && g@ == f,
        None => request.fusion is None,
    })
    &&& query::opt_query(request.filter) == filter
    &&& request.sort@.len() == 0
    &&& request.offset == 0
    &&& request.limit == limit
    &&& request.search_after is None
    &&& request.score_threshold is None
    &&& request.select@ == ir::whole_source()
    &&& request.aggregations is None
    &&& request.highlight is None
    &&& request.group_by is None
    &&& request.track_total_hits == TrackTotalHits::Never
}

fn request_of(collection: &str, retrievers: Vec<Retriever>, limit: usize) -> (r: SearchRequest)
    ensures
        asks(r, collection@, ir::retriever_views(retrievers@), None, None, limit as nat),
{
    let mut request = SearchRequest::new(collection);
    request.retrievers = retrievers;
    request.limit = limit;
    request
}

/// The request of a vector search, on its field or the collection's only
/// vector.
pub fn vector_search(call: &VectorCall, schema: &CollectionSchema) -> (r: Result<
    SearchRequest,
    String,
>)
    ensures
        ({
            let field = match call@.field {
                Some(f) => Ok::<Seq<char>, Seq<char>>(f),
                None => descriptor::only_vector(call@.collection, schema@),
            };
            match r {
                Ok(request) => field matches Ok(f) && asks(
                    request,
                    call@.collection,
                    seq![vector_retriever(call@, f)],
                    None,
                    None,
                    call@.k,
                ),
                Err(e) => field == Err::<Seq<char>, Seq<char>>(e@),
            }
        }),
{
    let field = match &call.field {
        Some(f) => f.clone(),
        None => match descriptor::default_vector_field(&call.collection, schema) {
            Ok(f) => f,
            Err(e) => {
                return Err(e);
            },
        },
    };
    let ghost named = field@;
    let retrievers: Vec<Retriever> = vec![call.retriever(field)];
    assert(ir::retriever_views(retrievers@) =~= seq![vector_retriever(call@, named)]);
    Ok(request_of(&call.collection, retrievers, call.k))
}

/// The request of a text search, on its field or the collection's only text
/// field.
pub fn text_search(call: &TextCall, schema: &CollectionSchema) -> (r: Result<
    SearchRequest,
    String,
>)
    ensures
        ({
            let field = match call@.field {
                Some(f) => Ok::<Seq<char>, Seq<char>>(f),
                None => descriptor::only_text(call@.collection, schema@),
            };
            match r {
                Ok(request) => field matches Ok(f) && asks(
                    request,
                    call@.collection,
                    seq![text_retriever(call@, f)],
                    None,
                    None,
                    call@.k,
                ),
                Err(e) => field == Err::<Seq<char>, Seq<char>>(e@),
            }
        }),
{
    let field = match &call.field {
        Some(f) => f.clone(),
        None => match descriptor::default_text_field(&call.collection, schema) {
            Ok(f) => f,
            Err(e) => {
                return Err(e);
            },
        },
    };
    let ghost named = field@;
    let retrievers: Vec<Retriever> = vec![call.retriever(field)];
    assert(ir::retriever_views(retrievers@) =~= seq![text_retriever(call@, named)]);
    Ok(request_of(&call.collection, retrievers, call.k))
}

/// What a hybrid search asks for.
pub struct HybridV {
    pub collection: Seq<char>,
    pub retrievers: Seq<RetrieverV>,
    pub fusion: FusionV,
    pub filter: Option<QueryV>,
    pub k: nat,
}

/// How a hybrid search fuses.
pub open spec fn fusion_in(name: Option<Seq<char>>, rrf_k: u32) -> Result<FusionV, Seq<char>> {
    match name {
        None => Ok(FusionV::Rrf { k: rrf_k }),
        Some(s) => if text::same_letters(s, "rrf"@) {
            Ok(FusionV::Rrf { k: rrf_k })
        } else if text::same_letters(s, "dbsf"@) {
            Ok(FusionV::Dbsf)
        } else {
            Err(args::arg_error("hybrid_search"@, 6, "'rrf' or 'dbsf'"@))
        },
    }
}

/// The constant of a hybrid search's fusion.
pub open spec fn rrf_k_in(values: Seq<SqlValue>) -> Result<u32, Seq<char>> {
    match args::whole_arg("hybrid_search"@, values, 7) {
        Err(e) => Err(e),
        Ok(None) => Ok(DEFAULT_RRF_K),
        Ok(Some(n)) => if n <= u32::MAX {
            Ok(n as u32)
        } else {
            Err(args::arg_error("hybrid_search"@, 7, "a smaller number"@))
        },
    }
}

/// The hybrid search of some arguments.
pub open spec fn hybrid_call(values: Seq<SqlValue>, parsed: Result<QueryV, Seq<char>>) -> Result<
    HybridV,
    Seq<char>,
> {
    let f = "hybrid_search"@;
    if !(6 <= values.len() <= 9) {
        Err(args::arity_error(f, values.len(), 6, 9))
    } else {
        match args::needed_text(f, values, 0) {
            Err(e) => Err(e),
            Ok(collection) => match args::needed_text(f, values, 1) {
                Err(e) => Err(e),
                Ok(vector_field) => match args::vector_arg(f, values, 2) {
                    Err(e) => Err(e),
                    Ok(query) => match args::needed_text(f, values, 3) {
                        Err(e) => Err(e),
                        Ok(text_field) => match args::needed_text(f, values, 4) {
                            Err(e) => Err(e),
                            Ok(text) => match args::count_arg(f, values, 5, usize::MAX as nat) {
                                Err(e) => Err(e),
                                Ok(None) => Err(
                                    args::arg_error(f, 5, "a non-negative whole number"@),
                                ),
                                Ok(Some(k)) => match rrf_k_in(values) {
                                    Err(e) => Err(e),
                                    Ok(rrf_k) => match args::text_arg(f, values, 6) {
                                        Err(e) => Err(e),
                                        Ok(name) => match fusion_in(name, rrf_k) {
                                            Err(e) => Err(e),
                                            Ok(fusion) => match args::filter_arg(
                                                f,
                                                values,
                                                8,
                                                parsed,
                                            ) {
                                                Err(e) => Err(e),
                                                Ok(filter) => Ok(
                                                    HybridV {
                                                        collection,
                                                        retrievers: seq![
                                                            RetrieverV::Vector {
                                                                field: vector_field,
                                                                query,
                                                                k: k as usize,
                                                                params: only_exact(false),
                                                                filter: None,
                                                            },
                                                            RetrieverV::Text {
                                                                query: matching(text_field, text),
                                                                k: k as usize,
                                                            },
                                                        ],
                                                        fusion,
                                                        filter,
                                                        k,
                                                    },
                                                ),
                                            },
                                        },
                                    },
                                },
                            },
                        },
                    },
                },
            },
        }
    }
}

fn rrf_constant(a: &Args) -> (r: Result<u32, String>)
    requires
        a.function@ == "hybrid_search"@,
    ensures
        rrf_k_in(a.values@) == (match r {
            Ok(k) => Ok::<u32, Seq<char>>(k),
            Err(e) => Err(e@),
        }),
{
    match a.whole(7) {
        Err(e) => Err(e),
        Ok(None) => Ok(DEFAULT_RRF_K),
        Ok(Some(n)) => if n <= u32::MAX as u64 {
            Ok(n as u32)
        } else {
            Err(a.error(7, "a smaller number"))
        },
    }
}

fn fusion_named(a: &Args, name: &Option<String>, rrf_k: u32) -> (r: Result<Fusion, String>)
    requires
        a.function@ == "hybrid_search"@,
    ensures
        fusion_in(text::opt_text(*name), rrf_k) == (match r {
            Ok(f) => Ok::<FusionV, Seq<char>>(f@),
            Err(e) => Err(e@),
        }),
{
    match name {
        None => Ok(Fusion::Rrf { k: rrf_k }),
        Some(s) => {
            if text::is_word(s, "rrf") {
                Ok(Fusion::Rrf { k: rrf_k })
            } else if text::is_word(s, "dbsf") {
                Ok(Fusion::Dbsf)
            } else {
                Err(a.error(6, "'rrf' or 'dbsf'"))
            }
        },
    }
}

/// The request of `hybrid_search(collection, vector_field, query_vector,
/// text_field, text, k [, fusion [, rrf_k [, filter_json]]])`; `parsed` is
/// what the text of the filter parses to.
pub fn hybrid_search(values: &Vec<SqlValue>, parsed: Result<Query, String>) -> (r: Result<
    SearchRequest,
    String,
>)
    ensures
        match r {
            Ok(request) => hybrid_call(values@, args::parsed_query(parsed)) matches Ok(h) && asks(
                request,
                h.collection,
                h.retrievers,
                Some(h.fusion),
                h.filter,
                h.k,
            ),
            Err(e) => hybrid_call(values@, args::parsed_query(parsed)) == Err::<
                HybridV,
                Seq<char>,
            >(e@),
        },
{
    match args::arity("hybrid_search", values.len(), 6, 9) {
        Ok(_) => {},
        Err(e) => {
            return Err(e);
        },
    }
    let a = Args { function: "hybrid_search", values };
    let collection = match a.required_text(0) {
        Ok(v) => v,
        Err(e) => {
            return Err(e);
        },
    };
    let vector_field = match a.required_text(1) {
        Ok(v) => v,
        Err(e) => {
            return Err(e);
        },
    };
    let vector = match a.vector(2) {
        Ok(v) => v,
        Err(e) => {
            return Err(e);
        },
    };
    let text_field = match a.required_text(3) {
        Ok(v) => v,
        Err(e) => {
            return Err(e);
        },
    };
    let words = match a.required_text(4) {
        Ok(v) => v,
        Err(e) => {
            return Err(e);
        },
    };
    let k: usize = match a.count(5) {
        Ok(Some(n)) => n,
        Ok(None) => {
            return Err(a.error(5, "a non-negative whole number"));
        },
        Err(e) => {
            return Err(e);
        },
    };
    let rrf_k: u32 = match rrf_constant(&a) {
        Ok(n) => n,
        Err(e) => {
            return Err(e);
        },
    };
    let name = match a.text(6) {
        Ok(v) => v,
        Err(e) => {
            return Err(e);
        },
    };
    let fusion = match fusion_named(&a, &name, rrf_k) {
        Ok(f) => f,
        Err(e) => {
            return Err(e);
        },
    };
    let filter = match a.filter(8, parsed) {
        Ok(v) => v,
        Err(e) => {
            return Err(e);
        },
    };
    let ghost first = RetrieverV::Vector {
        field: vector_field@,
        query: vector@,
        k,
        params: only_exact(false),
        filter: None,
    };
    let ghost second = RetrieverV::Text { query: matching(text_field@, words@), k };
    let retrievers: Vec<Retriever> = vec![
        Retriever::Vector {
            field: vector_field,
            query: vector,
            k,
            params: AnnParams::none(),
            filter: None,
        },
        Retriever::Text { query: match_query(text_field, words), k },
    ];
    assert(ir::retriever_views(retrievers@) =~= seq![first, second]);
    let mut request = request_of(&collection, retrievers, k);
    request.fusion = Some(fusion);
    request.filter = filter;
    Ok(request)
}

/// What an argument of a fusion is.
#[derive(Clone, Copy, Debug, PartialEq, Eq, Structural)]
pub enum RrfArg {
    /// The constant or the limit, a null for its default.
    Number,
    /// The descriptor of a nested search.
    Retriever,
}

/// What the `i`-th argument of a fusion is, behind so many numbers.
pub open spec fn rrf_arg(k: SqlKind, numbers: nat, i: nat) -> Result<RrfArg, Seq<char>> {
    if args::numeric(k) || k is Null {
        Ok(RrfArg::Number)
    } else if numbers > 0 {
        Err("rrf takes its k and limit after its retrievers"@)
    } else if k is Text {
        Ok(RrfArg::Retriever)
    } else {
        Err(descriptor::not_a_retriever(i))
    }
}

/// What the `i`-th argument of a fusion is, behind so many numbers.
pub fn rrf_argument(value: &SqlValue, numbers: usize, i: usize) -> (r: Result<RrfArg, String>)
    requires
        i < usize::MAX,
    ensures
        rrf_arg(value.kind, numbers as nat, i as nat) == (match r {
            Ok(a) => Ok::<RrfArg, Seq<char>>(a),
            Err(e) => Err(e@),
        }),
{
    let null = match &value.kind {
        SqlKind::Null => true,
        _ => false,
    };
    if args::is_number(&value.kind) || null {
        return Ok(RrfArg::Number);
    }
    if numbers > 0 {
        return Err("rrf takes its k and limit after its retrievers".to_owned());
    }
    match &value.kind {
        SqlKind::Text { .. } => Ok(RrfArg::Retriever),
        _ => Err(descriptor::no_retriever(i)),
    }
}

/// The retriever of a resolved descriptor, of what its JSON form parses to:
/// a vector or a text search.
pub fn rrf_retriever(parsed: Result<Retriever, String>, i: usize) -> (r: Result<Retriever, String>)
    requires
        i < usize::MAX,
    ensures
        match parsed {
            Err(e) => r matches Err(m) && m@ == "argument "@ + text::decimal((i + 1) as nat)
                + " of rrf is not a retriever: "@ + e@,
            Ok(t) => if t is Vector || t is Text {
                r == Ok::<Retriever, String>(t)
            } else {
                r matches Err(m) && m@ == descriptor::not_a_retriever(i as nat)
            },
        },
{
    match parsed {
        Err(e) => {
            let shown = text::dec(i as u64 + 1);
            let mut out = text::cat3("argument ", &shown, " of rrf is not a retriever: ");
            out.append(&e);
            Err(out)
        },
        Ok(t) => {
            let fits = match &t {
                Retriever::Vector { .. } => true,
                Retriever::Text { .. } => true,
                _ => false,
            };
            if fits {
                Ok(t)
            } else {
                Err(descriptor::no_retriever(i))
            }
        },
    }
}

/// A retriever of a fusion: the id and the name of its collection.
#[derive(Debug)]
pub struct Fusing {
    pub collection: u64,
    pub name: String,
    pub retriever: Retriever,
}

/// The retrievers of a fusion.
pub open spec fn fused_views(s: Seq<Fusing>) -> Seq<RetrieverV> {
    Seq::new(s.len(), |i: int| s[i].retriever@)
}

/// The first retriever of another collection than the first's, from the
/// `j`-th on.
pub open spec fn other_collection(s: Seq<Fusing>, j: int) -> Option<Seq<char>>
    decreases s.len() - j,
{
    if j < 0 || j >= s.len() {
        None
    } else if s[j].collection != s[0].collection {
        Some(s[j].name@)
    } else {
        other_collection(s, j + 1)
    }
}

/// The most hits that the first retrievers give.
pub open spec fn most_hits(s: Seq<Fusing>, n: nat) -> usize
    decreases n,
{
    if n == 0 || n > s.len() {
        0
    } else {
        let before = most_hits(s, (n - 1) as nat);
        let k = ir::retriever_k(s[n - 1].retriever@);
        if before > k {
            before
        } else {
            k
        }
    }
}

/// A number of a fusion that is there and not null.
pub open spec fn number_at(numbers: Seq<SqlValue>, i: int) -> Option<SqlValue> {
    if 0 <= i < numbers.len() && !(numbers[i].kind is Null) {
        Some(numbers[i])
    } else {
        None
    }
}

/// The constant of a fusion.
pub open spec fn rrf_k_of(numbers: Seq<SqlValue>) -> Result<u32, Seq<char>> {
    match number_at(numbers, 0) {
        None => Ok(DEFAULT_RRF_K),
        Some(v) => match args::whole_in(v.kind) {
            Some(n) => if n <= u32::MAX {
                Ok(n as u32)
            } else {
                Err("rrf's k must be a whole number, got "@ + v.shown@)
            },
            None => Err("rrf's k must be a whole number, got "@ + v.shown@),
        },
    }
}

/// The limit of a fusion: the most hits of a retriever within the window
/// where none is said.
pub open spec fn rrf_limit(s: Seq<Fusing>, numbers: Seq<SqlValue>, max_window: usize) -> Result<
    usize,
    Seq<char>,
> {
    match number_at(numbers, 1) {
        None => {
            let most = most_hits(s, s.len());
            Ok(
                if most > max_window {
                    max_window
                } else {
                    most
                },
            )
        },
        Some(v) => match args::whole_in(v.kind) {
            Some(n) => if n <= usize::MAX {
                Ok(n as usize)
            } else {
                Err("rrf's limit must be a whole number, got "@ + v.shown@)
            },
            None => Err("rrf's limit must be a whole number, got "@ + v.shown@),
        },
    }
}

/// The constant and limit of a fusion, or why it is refused.
pub open spec fn rrf_call(s: Seq<Fusing>, numbers: Seq<SqlValue>, max_window: usize) -> Result<
    (u32, usize),
    Seq<char>,
> {
    if s.len() < 2 {
        Err("rrf fuses at least two retrievers, got "@ + text::decimal(s.len()))
    } else if numbers.len() > 2 {
        Err(
            "rrf takes at most k and limit after its retrievers, got "@ + text::decimal(
                numbers.len(),
            ) + " numbers"@,
        )
    } else {
        match other_collection(s, 0) {
            Some(other) => Err(
                "rrf fuses retrievers of one collection, got "@ + s[0].name@ + " and "@ + other,
            ),
            None => match rrf_k_of(numbers) {
                Err(e) => Err(e),
                Ok(k) => match rrf_limit(s, numbers, max_window) {
                    Err(e) => Err(e),
                    Ok(limit) => Ok((k, limit)),
                },
            },
        }
    }
}

fn number<'a>(numbers: &'a Vec<SqlValue>, i: usize) -> (r: Option<&'a SqlValue>)
    ensures
        match r {
            Some(v) => number_at(numbers@, i as int) == Some(*v),
            None => number_at(numbers@, i as int) is None,
        },
{
    if i >= numbers.len() {
        return None;
    }
    match &numbers[i].kind {
        SqlKind::Null => None,
        _ => Some(&numbers[i]),
    }
}

fn first_other<'a>(s: &'a Vec<Fusing>) -> (r: Option<&'a str>)
    requires
        s@.len() > 0,
    ensures
        match r {
            Some(name) => other_collection(s@, 0) == Some(name@),
            None => other_collection(s@, 0) is None,
        },
{
    let mut j: usize = 0;
    while j < s.len()
        invariant
            j <= s@.len(),
            s@.len() > 0,
            other_collection(s@, 0) == other_collection(s@, j as int),
        decreases s.len() - j,
    {
        if s[j].collection != s[0].collection {
            return Some(s[j].name.as_str());
        }
        j += 1;
    }
    None
}

fn most_of(s: &Vec<Fusing>) -> (r: usize)
    ensures
        r == most_hits(s@, s@.len()),
{
    let mut most: usize = 0;
    let mut i: usize = 0;
    while i < s.len()
        invariant
            i <= s@.len(),
            most == most_hits(s@, i as nat),
        decreases s.len() - i,
    {
        let k = s[i].retriever.k();
        if most <= k {
            most = k;
        }
        i += 1;
    }
    most
}

/// The request of `rrf(retriever, retriever [, ...] [, k [, limit]])`.
pub fn rrf(retrievers: Vec<Fusing>, numbers: &Vec<SqlValue>, max_window: usize) -> (r: Result<
    SearchRequest,
    String,
>)
    ensures
        match r {
            Ok(request) => rrf_call(retrievers@, numbers@, max_window) matches Ok((k, limit))
                && asks(
                request,
                retrievers@[0].name@,
                fused_views(retrievers@),
                Some(FusionV::Rrf { k }),
                None,
                limit as nat,
            ),
            Err(e) => rrf_call(retrievers@, numbers@, max_window) == Err::<
                (u32, usize),
                Seq<char>,
            >(e@),
        },
{
    if retrievers.len() < 2 {
        let shown = text::dec(retrievers.len() as u64);
        return Err(text::cat2("rrf fuses at least two retrievers, got ", &shown));
    }
    if numbers.len() > 2 {
        let shown = text::dec(numbers.len() as u64);
        return Err(
            text::cat3(
                "rrf takes at most k and limit after its retrievers, got ",
                &shown,
                " numbers",
            ),
        );
    }
    if let Some(other) = first_other(&retrievers) {
        let mut out = text::cat2(
            "rrf fuses retrievers of one collection, got ",
            &retrievers[0].name,
        );
        out.append(" and ");
        out.append(other);
        return Err(out);
    }
    let k: u32 = match number(numbers, 0) {
        None => DEFAULT_RRF_K,
        Some(v) => match args::whole_number(&v.kind) {
            Some(n) if n <= u32::MAX as u64 => n as u32,
            _ => {
                return Err(text::cat2("rrf's k must be a whole number, got ", &v.shown));
            },
        },
    };
    let limit: usize = match number(numbers, 1) {
        None => {
            let most = most_of(&retrievers);
            if most > max_window {
                max_window
            } else {
                most
            }
        },
        Some(v) => match args::whole_number(&v.kind) {
            Some(n) if n <= usize::MAX as u64 => n as usize,
            _ => {
                return Err(text::cat2("rrf's limit must be a whole number, got ", &v.shown));
            },
        },
    };
    let name = retrievers[0].name.clone();
    let ghost all = retrievers@;
    let mut fused: Vec<Retriever> = Vec::new();
    for f in it: retrievers
        invariant
            it.seq() == all,
            fused@.len() == it.index(),
            forall|j: int| 0 <= j < it.index() ==> (#[trigger] fused@[j])@ == all[j].retriever@,
    {
        fused.push(f.retriever);
    }
    assert(ir::retriever_views(fused@) =~= fused_views(all));
    let mut request = request_of(&name, fused, limit);
    request.fusion = Some(Fusion::Rrf { k });
    Ok(request)
}

/// The function that is refused.
#[derive(Clone, Copy, Debug)]
pub struct RerankFunction;

impl RerankFunction {
    /// What a call is answered with.
    pub fn refusal(&self) -> (r: String)
        ensures
            r@ == "rerank arrives in M3 (D56); use rrf or hybrid_search"@,
    {
        "rerank arrives in M3 (D56); use rrf or hybrid_search".to_owned()
    }
}

/// The limit of a search under a statement's limit: hits come in rank order,
/// so the first ones serve it.
pub fn search_limit(limit: usize, wanted: Option<usize>) -> (r: usize)
    ensures
        r == (match wanted {
            Some(n) => if n < limit {
                n
            } else {
                limit
            },
            None => limit,
        }),
{
    match wanted {
        Some(n) => if n < limit {
            n
        } else {
            limit
        },
        None => limit,
    }
}

/// What a search selects for an encoder's columns.
pub open spec fn selected(e: RowEncoder) -> ProjectionV {
    ProjectionV {
        source: if rows::any_from_source(e.columns@) {
            SourceFilterV::All
        } else {
            SourceFilterV::Nothing
        },
        vectors: rows::vector_names_in(e.schema@, e.columns@, e.columns@.len()),
        fields: Seq::empty(),
    }
}

/// What a search selects for an encoder's columns.
pub fn select_for(e: &RowEncoder) -> (r: Projection)
    ensures
        r@ == selected(*e),
{
    let fields: Vec<String> = Vec::new();
    assert(text::texts(fields@) =~= Seq::empty());
    Projection {
        source: if e.needs_source() {
            SourceFilter::All
        } else {
            SourceFilter::Nothing
        },
        vectors: e.vector_names(),
        fields,
    }
}

/// How the places of a search's hits are read: at the same state.
pub fn position_consistency(consistency: &ReadConsistency, read_token: &ConsistencyToken) -> (r:
    ReadConsistency)
    ensures
        r@ == (match consistency@ {
            ConsistencyV::Pinned { .. } => consistency@,
            _ => ConsistencyV::AtLeast(read_token@),
        }),
{
    match consistency {
        ReadConsistency::Pinned { manifest_version, token } => ReadConsistency::Pinned {
            manifest_version: *manifest_version,
            token: token.copy(),
        },
        _ => ReadConsistency::AtLeast(read_token.copy()),
    }
}

} // verus!
