//! SQL: search functions, predicates, tables and results.

use operon_query::cells::Cell;
use operon_query::collection::{
    CollectionSchema, DynamicMapping, FieldKind, FieldSpec, HnswParams, SparseModifier,
    SparseVectorSpec, VectorElement, VectorIndexSpec, VectorSpec,
};
use operon_query::error::ServiceError;
use operon_query::exec::doc_fetch::FetchedRow;
use operon_query::exec::mask::{RowMask, RowSet};
use operon_query::exec::project::IndexValue;
use operon_query::float;
use operon_query::ir::{
    AnnParams, ConsistencyToken, Distance, Fusion, ReadConsistency, Retriever, SearchRequest,
    SourceFilter, SparseVector,
};
use operon_query::json::value::{Json, Number};
use operon_query::key::PrimaryKey;
use operon_query::query::Query;
use operon_query::sql::args::{arity, is_number, whole_number, Args, SqlKind, SqlValue};
use operon_query::sql::calls::{
    hybrid_search, position_consistency, rrf, rrf_argument, rrf_retriever, search_limit,
    select_for, text_search, vector_search, Fusing, RerankFunction, RrfArg, TextCall, VectorCall,
    DESCRIPTOR_FUNCTIONS,
};
use operon_query::sql::descriptor::{
    descriptor, descriptor_parts, no_retriever, resolve_field, rrf_descriptor,
};
use operon_query::sql::exprs::{expr_to_query, SqlExpr, SqlLiteral, SqlOp};
use operon_query::sql::json_path::json_at;
use operon_query::sql::json_rows::{rows_to_json, SqlResult};
use operon_query::sql::rows::{
    collection_arrow_schema, columns_of, pk_text, row_of, ColumnType, RowEncoder, SqlCell, SqlRow,
};
use operon_query::sql::statement::{
    execution, has_schema, not_read_only, planning, table, table_exists, Cut, Taken,
    SQL_SEARCH_FUNCTIONS,
};
use operon_query::sql::table_scan::{
    allowed_rows, can_filter, durable_rows, keeps_doc, keeps_row, one_partition, scan_filter,
    takes_filter, DurableRows, ScanAsk, ScanRun,
};
use operon_query::values::FieldValue;
use roaring::RoaringTreemap;
use serde_json::Value;

fn of(v: &Value) -> Json {
    match v {
        Value::Null => Json::Null,
        Value::Bool(b) => Json::Bool(*b),
        Value::Number(n) => Json::Number(if let Some(u) = n.as_u64() {
            Number::Unsigned(u)
        } else if let Some(i) = n.as_i64() {
            Number::Negative(i)
        } else {
            Number::Float { bits: n.as_f64().unwrap().to_bits(), text: n.to_string() }
        }),
        Value::String(s) => Json::Text(s.clone()),
        Value::Array(items) => Json::Array(items.iter().map(of).collect()),
        Value::Object(map) => {
            Json::Object(map.iter().map(|(k, v)| (k.clone(), of(v))).collect())
        }
    }
}

fn j(text: &str) -> Json {
    of(&serde_json::from_str(text).unwrap())
}

fn text(s: &str) -> SqlValue {
    let json = serde_json::from_str::<Value>(s).ok().map(|v| of(&v));
    SqlValue { kind: SqlKind::Text { text: s.to_string(), json }, shown: s.to_string() }
}

fn whole(n: i64) -> SqlValue {
    SqlValue { kind: SqlKind::Int(n), shown: n.to_string() }
}

fn null() -> SqlValue {
    SqlValue { kind: SqlKind::Null, shown: "NULL".to_string() }
}

fn boolean(b: bool) -> SqlValue {
    SqlValue { kind: SqlKind::Bool(b), shown: b.to_string() }
}

fn spec(name: &str, kind: FieldKind) -> FieldSpec {
    FieldSpec {
        name: name.to_string(),
        source_path: name.to_string(),
        kind,
        indexed: true,
        fast: true,
        ignore_malformed: false,
    }
}

fn words() -> FieldKind {
    FieldKind::Text { analyzer: "standard".to_string(), positions: true }
}

fn schema() -> CollectionSchema {
    CollectionSchema {
        version: 1,
        fields: vec![
            spec("t", words()),
            spec("k", FieldKind::Keyword),
            spec("n", FieldKind::I64),
            spec("d", FieldKind::Date),
            spec("j", FieldKind::Json),
            spec("b", FieldKind::Bool),
        ],
        vectors: vec![VectorSpec {
            name: "".to_string(),
            dim: 2,
            distance: Distance::Cosine,
            element: VectorElement::F32,
            index: VectorIndexSpec::Auto,
            hnsw: HnswParams {
                m: 16,
                ef_construct: 100,
                full_scan_threshold_kb: 10_000,
                payload_m: None,
                on_disk: false,
            },
            quantization: None,
        }],
        sparse_vectors: vec![SparseVectorSpec {
            name: "s".to_string(),
            modifier: SparseModifier::Plain,
        }],
        dynamic: DynamicMapping::Ignore,
        max_fields: 10,
        annotations: vec![],
    }
}

fn rows(list: &[u64]) -> RoaringTreemap {
    list.iter().copied().collect()
}

#[test]
fn arguments_are_typed() {
    assert!(arity("f", 2, 1, 3).is_ok());
    assert_eq!(arity("f", 4, 1, 3).unwrap_err(), "f takes 1 to 3 arguments, got 4");
    let values = vec![text("a"), null(), whole(-1), boolean(true), text("[1,0.5]")];
    let args = Args { function: "f", values: &values };
    assert_eq!(args.text(0).unwrap().as_deref(), Some("a"));
    assert_eq!(args.text(1).unwrap(), None);
    assert_eq!(args.text(9).unwrap(), None);
    assert_eq!(args.text(2).unwrap_err(), "argument 3 of f must be a string");
    assert_eq!(args.required_text(1).unwrap_err(), "argument 2 of f must be a string, not NULL");
    assert_eq!(args.whole(2).unwrap_err(), "argument 3 of f must be a non-negative whole number");
    assert_eq!(args.boolean(3).unwrap(), Some(true));
    assert_eq!(args.boolean(0).unwrap_err(), "argument 1 of f must be a boolean");
    assert_eq!(args.vector(4).unwrap(), vec![1f32.to_bits(), 0.5f32.to_bits()]);
    assert_eq!(args.vector(0).unwrap_err(), "argument 1 of f must be a list of numbers");
    assert_eq!(args.vector(1).unwrap_err(), "argument 2 of f must be a list of numbers");
    assert!(args.filter(1, Err("odd".to_string())).unwrap().is_none());
    assert_eq!(
        args.filter(0, Err("odd".to_string())).unwrap_err(),
        "argument 1 of f is not a filter: odd"
    );
    assert!(args.filter(0, Ok(Query::MatchAll)).unwrap().is_some());
}

#[test]
fn whole_numbers_may_be_floats() {
    assert_eq!(whole_number(&SqlKind::F64(3f64.to_bits())), Some(3));
    assert_eq!(whole_number(&SqlKind::F64(3.5f64.to_bits())), None);
    assert_eq!(whole_number(&SqlKind::F64((-1f64).to_bits())), None);
    assert_eq!(whole_number(&SqlKind::F64(f64::NAN.to_bits())), None);
    assert_eq!(whole_number(&SqlKind::F32(4096f32.to_bits())), Some(4_096));
    assert_eq!(whole_number(&SqlKind::UInt(u64::MAX)), Some(u64::MAX));
    assert!(is_number(&SqlKind::Other { numeric: true }) && !is_number(&SqlKind::Null));
    for n in [0u64, 1, 12_345, 1 << 53] {
        assert_eq!(float::whole_number((n as f64).to_bits()), Some(n));
    }
}

#[test]
fn floats_are_compared_and_rounded_as_bits() {
    for (a, b) in [(1f64, 2f64), (-0.0, 0.0), (f64::NEG_INFINITY, f64::MIN), (f64::MAX, f64::NAN)] {
        assert!(float::total_key64(a.to_bits()) < float::total_key64(b.to_bits()));
    }
    for (a, b) in [(1f32, 2f32), (-0.0, 0.0), (f32::NEG_INFINITY, f32::MIN)] {
        assert!(float::total_key32(a.to_bits()) < float::total_key32(b.to_bits()));
    }
    assert!(float::at_least32(0f32.to_bits(), (-0f32).to_bits()));
    assert!(!float::at_least32(f32::NAN.to_bits(), 0));
    assert!(!float::less64(f64::NAN.to_bits(), 0) && float::less64((-1f64).to_bits(), 0));
    assert!(float::same64((-0f64).to_bits(), 0) && !float::same64(f64::NAN.to_bits(), f64::NAN.to_bits()));
    for n in [0i128, 1, -1, (1 << 53) + 1, u64::MAX as i128, i64::MIN as i128] {
        assert_eq!(float::int_to_f64(n), (n as f64).to_bits());
        assert_eq!(float::int_to_f32(n), (n as f32).to_bits());
    }
    for x in [0f32, -0.0, 1.5, f32::MIN_POSITIVE / 4.0, f32::INFINITY, f32::MAX] {
        assert_eq!(float::widen(x.to_bits()), f64::from(x).to_bits());
    }
    for x in [0f64, 0.1, -1e-42, 1e300, 1.0000000596046448, -0.0, f64::INFINITY] {
        assert_eq!(float::narrow(x.to_bits()), (x as f32).to_bits());
    }
}

fn asked(r: Result<SearchRequest, String>) -> SearchRequest {
    match r {
        Ok(r) => r,
        Err(e) => panic!("{e}"),
    }
}

#[test]
fn a_vector_search_is_called_from_sql() {
    let values = vec![text("c"), text("[1,0]"), null(), whole(5), null(), boolean(true)];
    let call = VectorCall::parse(&values, Ok(Query::MatchAll)).unwrap();
    assert!(call.exact && call.filter.is_none() && call.field.is_none());
    let request = asked(vector_search(&call, &schema()));
    assert_eq!((request.collection.as_str(), request.limit), ("c", 5));
    match &request.retrievers[0] {
        Retriever::Vector { field, k, params, .. } => {
            assert_eq!((field.as_str(), *k), ("", 5));
            assert_eq!(*params, AnnParams { exact: true, ..AnnParams::none() });
        }
        other => panic!("{other:?}"),
    }
    let short = vec![text("c"), text("[1,0]")];
    assert_eq!(VectorCall::parse(&short, Ok(Query::MatchAll)).unwrap().k, 1_000);
    let mut two = schema();
    two.vectors.clear();
    assert_eq!(
        vector_search(&call, &two).unwrap_err(),
        "vector_search on c needs a field: it has 0 vectors"
    );
    assert_eq!(
        VectorCall::parse(&vec![text("c")], Ok(Query::MatchAll)).unwrap_err(),
        "vector_search takes 2 to 6 arguments, got 1"
    );
}

#[test]
fn a_text_search_is_called_from_sql() {
    let values = vec![text("c"), text("words"), null(), null(), text("{}")];
    let call = TextCall::parse(&values, Ok(Query::MatchNone)).unwrap();
    let request = asked(text_search(&call, &schema()));
    match &request.retrievers[0] {
        Retriever::Text { query: Query::Bool { must, filter, .. }, k: 1_000 } => {
            assert!(matches!(&must[0], Query::Match { field, text, .. } if field == "t" && text == "words"));
            assert!(matches!(filter[0], Query::MatchNone));
        }
        other => panic!("{other:?}"),
    }
    let bare = TextCall::parse(&vec![text("c"), text("w"), text("k")], Ok(Query::MatchAll)).unwrap();
    let request = asked(text_search(&bare, &schema()));
    assert!(matches!(&request.retrievers[0], Retriever::Text { query: Query::Match { field, .. }, .. } if field == "k"));
}

#[test]
fn a_hybrid_search_fuses_two_retrievers() {
    let values = |fusion: SqlValue, k: SqlValue| {
        vec![text("c"), text("v"), text("[1]"), text("t"), text("w"), whole(7), fusion, k]
    };
    let request = asked(hybrid_search(&values(null(), null()), Ok(Query::MatchAll)));
    assert_eq!((request.retrievers.len(), request.limit), (2, 7));
    assert!(matches!(request.fusion, Some(Fusion::Rrf { k: 60 })));
    let request = asked(hybrid_search(&values(text("DBSF"), null()), Ok(Query::MatchAll)));
    assert!(matches!(request.fusion, Some(Fusion::Dbsf)));
    let request = asked(hybrid_search(&values(text("rrf"), whole(9)), Ok(Query::MatchAll)));
    assert!(matches!(request.fusion, Some(Fusion::Rrf { k: 9 })));
    assert_eq!(
        hybrid_search(&values(text("x"), null()), Ok(Query::MatchAll)).unwrap_err(),
        "argument 7 of hybrid_search must be 'rrf' or 'dbsf'"
    );
}

fn fusing(collection: u64, name: &str, k: usize) -> Fusing {
    Fusing {
        collection,
        name: name.to_string(),
        retriever: Retriever::Text { query: Query::MatchAll, k },
    }
}

#[test]
fn rrf_fuses_retrievers_of_one_collection() {
    let request = asked(rrf(vec![fusing(1, "a", 5), fusing(1, "a", 9)], &vec![], 7));
    assert_eq!((request.limit, request.retrievers.len()), (7, 2));
    assert!(matches!(request.fusion, Some(Fusion::Rrf { k: 60 })));
    let request = asked(rrf(vec![fusing(1, "a", 5), fusing(1, "a", 9)], &vec![whole(3), whole(2)], 7));
    assert_eq!(request.limit, 2);
    assert!(matches!(request.fusion, Some(Fusion::Rrf { k: 3 })));
    assert_eq!(
        rrf(vec![fusing(1, "a", 5)], &vec![], 7).unwrap_err(),
        "rrf fuses at least two retrievers, got 1"
    );
    assert_eq!(
        rrf(vec![fusing(1, "a", 5), fusing(2, "b", 5)], &vec![], 7).unwrap_err(),
        "rrf fuses retrievers of one collection, got a and b"
    );
    assert_eq!(
        rrf(vec![fusing(1, "a", 5), fusing(1, "a", 5)], &vec![whole(-1)], 7).unwrap_err(),
        "rrf's k must be a whole number, got -1"
    );
    assert_eq!(
        rrf(vec![fusing(1, "a", 5), fusing(1, "a", 5)], &vec![whole(1), whole(1), whole(1)], 7).unwrap_err(),
        "rrf takes at most k and limit after its retrievers, got 3 numbers"
    );
    assert_eq!(rrf_argument(&whole(1), 0, 0).unwrap(), RrfArg::Number);
    assert_eq!(rrf_argument(&text("{}"), 0, 0).unwrap(), RrfArg::Retriever);
    assert_eq!(
        rrf_argument(&text("{}"), 1, 2).unwrap_err(),
        "rrf takes its k and limit after its retrievers"
    );
    assert_eq!(rrf_argument(&boolean(true), 0, 2).unwrap_err(), no_retriever(2));
    assert!(rrf_retriever(Ok(fusing(1, "a", 1).retriever), 0).is_ok());
    assert_eq!(
        rrf_retriever(Err("odd".to_string()), 0).unwrap_err(),
        "argument 1 of rrf is not a retriever: odd"
    );
    assert_eq!(DESCRIPTOR_FUNCTIONS, ["vector_search", "text_search", "rrf"]);
    assert_eq!(SQL_SEARCH_FUNCTIONS.len(), 5);
    assert_eq!(
        RerankFunction.refusal(),
        "rerank arrives in M3 (D56); use rrf or hybrid_search"
    );
    assert_eq!((search_limit(5, Some(3)), search_limit(5, Some(9)), search_limit(5, None)), (3, 5, 5));
}

#[test]
fn descriptors_read_back_with_their_field() {
    let retriever = || j("{\"vector\":{\"field\":\"\",\"k\":1}}");
    let made = descriptor("c", retriever(), false);
    assert_eq!(
        made.text(),
        "{\"collection\":\"c\",\"retriever\":{\"vector\":{\"field\":null,\"k\":1}}}"
    );
    let (name, t) = descriptor_parts(&Some(made), 0).unwrap();
    assert_eq!(name, "c");
    assert_eq!(resolve_field(t, "c", &schema()).unwrap().text(), retriever().text());
    let given = descriptor("c", retriever(), true);
    assert_eq!(given.text(), "{\"collection\":\"c\",\"retriever\":{\"vector\":{\"field\":\"\",\"k\":1}}}");
    let filtered = j("{\"text\":{\"query\":{\"bool\":{\"must\":[{\"match\":{\"field\":\"t\"}}]}}}}");
    let (_, t) = descriptor_parts(&Some(descriptor("c", filtered.copy(), false)), 0).unwrap();
    assert_eq!(resolve_field(t, "c", &schema()).unwrap().text(), filtered.text());
    let mut none = schema();
    none.fields.clear();
    let plain = j("{\"text\":{\"query\":{\"match\":{\"field\":null}}}}");
    assert_eq!(
        resolve_field(plain, "c", &none).unwrap_err(),
        "text_search on c needs a field: it has 0 text fields"
    );
    assert_eq!(descriptor_parts(&None, 1).unwrap_err(), no_retriever(1));
    assert_eq!(
        no_retriever(1),
        "argument 2 of rrf must be a vector_search or text_search call"
    );
    let values = vec![text("{\"a\":1}"), text("[1]"), whole(3), null(), boolean(true)];
    assert_eq!(
        rrf_descriptor(&values).text(),
        "{\"rrf\":[{\"a\":1},\"[1]\",3,null,\"true\"]}"
    );
}

fn column(name: &str) -> Box<SqlExpr> {
    Box::new(SqlExpr::Column(name.to_string()))
}

fn lit(l: SqlLiteral) -> Box<SqlExpr> {
    Box::new(SqlExpr::Literal(l))
}

fn string(s: &str) -> Box<SqlExpr> {
    lit(SqlLiteral::Text(s.to_string()))
}

fn binary(left: Box<SqlExpr>, op: SqlOp, right: Box<SqlExpr>) -> SqlExpr {
    SqlExpr::Binary { left, op, right }
}

#[test]
fn predicates_become_queries() {
    let q = |e: SqlExpr| expr_to_query(&e, &schema());
    assert!(matches!(q(binary(column("n"), SqlOp::Eq, lit(SqlLiteral::Int(3)))), Some(Query::Term { value: FieldValue::I64(3), .. })));
    assert!(matches!(
        q(binary(lit(SqlLiteral::Int(3)), SqlOp::Lt, column("n"))),
        Some(Query::Range { gt: Some(FieldValue::I64(3)), gte: None, lt: None, lte: None, .. })
    ));
    assert!(q(binary(column("t"), SqlOp::Eq, string("a"))).is_none());
    assert!(q(binary(column("n"), SqlOp::Eq, string("a"))).is_none());
    assert!(q(binary(column("b"), SqlOp::Lt, lit(SqlLiteral::Bool(true)))).is_none());
    assert!(q(binary(column("n"), SqlOp::Other, lit(SqlLiteral::Int(3)))).is_none());
    assert!(matches!(q(binary(column("_id"), SqlOp::Eq, string("5"))), Some(Query::Ids(keys)) if keys.len() == 2));
    assert!(matches!(q(binary(column("_id"), SqlOp::Eq, string("05"))), Some(Query::Ids(keys)) if keys.len() == 1));
    assert!(q(binary(column("_id"), SqlOp::Gt, string("5"))).is_none());
    let date = |l: SqlLiteral| q(binary(column("d"), SqlOp::GtEq, lit(l)));
    assert!(matches!(date(SqlLiteral::Seconds(2)), Some(Query::Range { gte: Some(FieldValue::Date(2_000_000)), .. })));
    assert!(date(SqlLiteral::Seconds(i64::MAX)).is_none());
    assert!(date(SqlLiteral::Nanos(1_500)).is_none());
    assert!(date(SqlLiteral::Nanos(-2_000)).is_some());
    assert!(q(binary(column("n"), SqlOp::Eq, lit(SqlLiteral::F64(f64::NAN.to_bits())))).is_none());
    let list = |negated: bool| SqlExpr::InList {
        expr: column("k"),
        list: vec![*string("a"), *string("b")],
        negated,
    };
    assert!(matches!(q(list(false)), Some(Query::Terms { values, .. }) if values.len() == 2));
    assert!(q(list(true)).is_none());
    let between = |negated: bool| SqlExpr::Between {
        expr: column("n"),
        low: lit(SqlLiteral::Int(1)),
        high: lit(SqlLiteral::UInt(9)),
        negated,
    };
    assert!(matches!(q(between(false)), Some(Query::Range { gte: Some(_), lte: Some(_), gt: None, lt: None, .. })));
    assert!(q(between(true)).is_none());
}

#[test]
fn only_exact_predicates_are_negated() {
    let q = |e: SqlExpr| expr_to_query(&e, &schema());
    let is_null = || SqlExpr::IsNull(column("n"));
    let eq = || binary(column("n"), SqlOp::Eq, lit(SqlLiteral::Int(3)));
    assert!(matches!(q(is_null()), Some(Query::IsEmpty { .. })));
    assert!(matches!(q(SqlExpr::IsNotNull(column("n"))), Some(Query::Exists { .. })));
    assert!(matches!(
        q(SqlExpr::Not(Box::new(is_null()))),
        Some(Query::Bool { must, must_not, .. }) if must.len() == 1 && must_not.len() == 1
    ));
    assert!(q(SqlExpr::Not(Box::new(eq()))).is_none());
    let both = binary(Box::new(is_null()), SqlOp::And, Box::new(eq()));
    assert!(matches!(q(both), Some(Query::Bool { must, .. }) if must.len() == 2));
    let either = binary(Box::new(is_null()), SqlOp::Or, Box::new(SqlExpr::Other));
    assert!(q(either).is_none());
    assert!(takes_filter(&eq(), &schema()) && !takes_filter(&SqlExpr::Other, &schema()));
    assert!(scan_filter(&vec![SqlExpr::Other], &schema()).is_none());
    assert!(matches!(scan_filter(&vec![SqlExpr::Other, eq()], &schema()), Some(Query::Term { .. })));
    assert!(matches!(scan_filter(&vec![eq(), is_null()], &schema()), Some(Query::Bool { filter, .. }) if filter.len() == 2));
}

#[test]
fn paths_reach_into_json() {
    let es = |s: &str| match j(s) {
        Json::Object(e) => e,
        _ => panic!("an object"),
    };
    let at = |s: &str, path: &str| json_at(&es(s), path).map(|v| v.text());
    assert_eq!(at("{\"a\":{\"b\":1}}", "a.b").as_deref(), Some("1"));
    assert_eq!(at("{\"a.b\":2,\"a\":{\"b\":1}}", "a.b").as_deref(), Some("1"));
    assert_eq!(at("{\"a.b\":2}", "a.b").as_deref(), Some("2"));
    assert_eq!(at("{\"a\":[{\"c\":0},{\"b\":3}]}", "a.b").as_deref(), Some("3"));
    assert_eq!(at("{\"a\":1}", "a.b"), None);
}

#[test]
fn results_are_json() {
    let result = SqlResult {
        columns: vec![("a".to_string(), "Int64".to_string())],
        batches: vec![vec![vec![Cell::Signed(1)]], vec![vec![Cell::Null]]],
        truncated: true,
    };
    assert_eq!(
        rows_to_json(&result).text(),
        "{\"columns\":[{\"name\":\"a\",\"type\":\"Int64\"}],\"rows\":[[1],[null]],\"truncated\":true}"
    );
}

#[test]
fn a_collection_is_a_table() {
    let names: Vec<String> =
        collection_arrow_schema(&schema()).into_iter().map(|f| f.name).collect();
    assert_eq!(
        names,
        vec!["_id", "_source", "_seq_no", "_partition", "t", "k", "n", "d", "j", "b", "_vector", "s"]
    );
    let columns = columns_of(&schema(), true);
    assert_eq!(columns[1].1.name, "_score");
    assert_eq!(columns[11].1.data_type, ColumnType::Vector(2));
    assert_eq!(columns[7].1.data_type, ColumnType::Int64);
    let encoder = RowEncoder::new(&schema(), false, Some(&vec![0, 10, 11])).unwrap();
    assert!(!encoder.needs_source() && !encoder.positioned());
    assert_eq!(encoder.vector_names(), vec!["", "s"]);
    let fetch = encoder.fetch_columns();
    assert_eq!((fetch.source, fetch.vectors, fetch.sparse), (false, vec![0], vec![0]));
    assert!(matches!(select_for(&encoder).source, SourceFilter::Nothing));
    assert_eq!(
        RowEncoder::new(&schema(), false, Some(&vec![99])).err().unwrap(),
        "column 99 is out of range"
    );
}

fn row() -> SqlRow {
    let mut r = row_of(
        FetchedRow {
            row_id: 1,
            pk: PrimaryKey::U64(5),
            source: Some(match j("{\"j\":{\"x\":1},\"n\":3}") {
                Json::Object(e) => e,
                _ => vec![],
            }),
            vectors: vec![("".to_string(), vec![1, 2])],
            sparse_vectors: vec![("s".to_string(), SparseVector { indices: vec![1], values: vec![2] })],
            seq_no: 7,
            partition: 3,
        },
        vec![
            Some(IndexValue::Text("w".to_string())),
            None,
            Some(IndexValue::I64(3)),
            Some(IndexValue::Date(9)),
            None,
            Some(IndexValue::Bool(true)),
        ],
    );
    r.score = Some(8);
    r
}

#[test]
fn rows_become_columns_of_cells() {
    let encoder = RowEncoder::new(&schema(), true, None).unwrap();
    let table = encoder.encode(&vec![row(), row()]).unwrap();
    assert_eq!(table.len(), 13);
    assert!(table.iter().all(|column| column.len() == 2));
    assert!(matches!(&table[0][0], SqlCell::Text(Some(s)) if s == "5"));
    assert!(matches!(&table[1][0], SqlCell::Float32(8)));
    assert!(matches!(&table[2][0], SqlCell::Text(Some(s)) if s == "{\"j\":{\"x\":1},\"n\":3}"));
    assert!(matches!(&table[3][0], SqlCell::UInt64(Some(7))));
    assert!(matches!(&table[4][0], SqlCell::UInt32(Some(3))));
    assert!(matches!(&table[5][0], SqlCell::Text(Some(s)) if s == "w"));
    assert!(matches!(&table[6][0], SqlCell::Text(None)));
    assert!(matches!(&table[7][0], SqlCell::Int64(Some(3))));
    assert!(matches!(&table[8][0], SqlCell::Millis(Some(9))));
    assert!(matches!(&table[9][0], SqlCell::Text(Some(s)) if s == "{\"x\":1}"));
    assert!(matches!(&table[10][0], SqlCell::Boolean(Some(true))));
    assert!(matches!(&table[11][0], SqlCell::Vector(Some(v)) if *v == vec![1, 2]));
    assert!(matches!(&table[12][0], SqlCell::Sparse(Some(_))));
    let mut long = row();
    long.vectors[0].1.push(3);
    match encoder.encode(&vec![long]) {
        Err(e) => assert_eq!(
            e.message(),
            "internal error: vector  has 3 dimensions, the schema 2"
        ),
        Ok(_) => panic!("encoded"),
    }
    assert_eq!(pk_text(&PrimaryKey::Uuid([0; 16])), "00000000-0000-0000-0000-000000000000");
}

#[test]
fn statements_fail_with_the_carried_error() {
    assert_eq!(planning(Some(ServiceError::Timeout), "x").message(), "timed out");
    assert_eq!(planning(None, "x").message(), "invalid argument: sql: x");
    assert_eq!(execution(None, true, "x").message(), "internal error: sql: x");
    assert_eq!(execution(None, false, "x").message(), "invalid argument: sql: x");
    assert_eq!(execution(Some(ServiceError::Timeout), true, "x").message(), "timed out");
    assert_eq!(
        not_read_only("x").message(),
        "invalid argument: only read-only queries are allowed: x"
    );
    assert!(has_schema("collections") && !has_schema("public"));
    let gone = ServiceError::NotFound { kind: "collection", name: "c".to_string() };
    assert!(matches!(table::<u8>(Err(gone)), Ok(None)));
    assert!(matches!(table(Ok(3u8)), Ok(Some(3))));
    assert!(table::<u8>(Err(ServiceError::Timeout)).is_err());
    assert!(table_exists(&vec!["a".to_string()], "a") && !table_exists(&vec![], "a"));
    let token = ConsistencyToken { entries: vec![(1, 0, 2)] };
    let pinned = ReadConsistency::Pinned { manifest_version: 3, token: token.copy() };
    assert!(matches!(position_consistency(&pinned, &token), ReadConsistency::Pinned { manifest_version: 3, .. }));
    assert!(matches!(position_consistency(&ReadConsistency::Eventual, &token), ReadConsistency::AtLeast(t) if t.entries == vec![(1, 0, 2)]));
}

#[test]
fn results_are_cut_at_their_rows() {
    let mut taken = Taken::none(5);
    assert_eq!(taken.take(0), Cut::Skip);
    assert_eq!(taken.take(3), Cut::Take(3));
    assert_eq!(taken.take(4), Cut::Take(2));
    assert_eq!((taken.rows, taken.truncated), (5, true));
    let mut full = Taken::none(3);
    assert_eq!(full.take(3), Cut::Take(3));
    assert!(!full.truncated);
    assert_eq!(full.take(1), Cut::Stop);
    assert!(full.truncated);
}

#[test]
fn scans_read_durable_rows_then_the_tail() {
    assert!(can_filter(&vec![3, 4], 3) && !can_filter(&vec![2], 3) && can_filter(&vec![], 3));
    assert!(allowed_rows(RowSet::All).is_none());
    assert!(keeps_doc(&None, 1) && !keeps_doc(&Some(rows(&[2])), 1));
    assert!(keeps_row(&rows(&[]), &None, 1) && !keeps_row(&rows(&[1]), &None, 1));
    let (allowed, durable) = durable_rows(&Some(rows(&[1, 2, 20])), &rows(&[2]), 10);
    assert_eq!(allowed, Some(rows(&[1])));
    assert!(matches!(durable, DurableRows::Masked(Some(RowMask::Allow(t))) if t == rows(&[1])));
    assert!(matches!(durable_rows(&Some(rows(&[20])), &rows(&[]), 10).1, DurableRows::Nothing));
    assert!(matches!(durable_rows(&None, &rows(&[]), 10).1, DurableRows::Masked(None)));
    let mut run = ScanRun::new(Some(5), 2);
    assert_eq!(run.ask(), ScanAsk::Start);
    run.started(true, 3);
    assert_eq!(run.ask(), ScanAsk::Durable);
    assert_eq!(run.emit(2), 2);
    run.durable_done();
    assert_eq!(run.ask(), ScanAsk::Tail { from: 0, to: 2 });
    run.tail_read(2);
    assert_eq!(run.emit(2), 2);
    assert_eq!(run.ask(), ScanAsk::Tail { from: 2, to: 3 });
    run.tail_read(3);
    assert_eq!(run.emit(7), 1);
    assert_eq!(run.ask(), ScanAsk::Nothing);
    assert!(one_partition("X", 0).is_ok());
    assert_eq!(one_partition("X", 2).unwrap_err(), "X has one partition, not 2");
}
