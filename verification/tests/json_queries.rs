//! The query body: retrievers, filters, fusion and projections.

use operon_query::error::ServiceError;
use operon_query::ir::{
    ConsistencyToken, Fusion, ReadConsistency, Retriever, SearchRequest, SourceFilter,
    TrackTotalHits,
};
use operon_query::json::filters::{date_math, filter_from, value_from};
use operon_query::json::hybrid::{is_hybrid, parse_hybrid, token_text};
use operon_query::json::value::{Json, Number};
use operon_query::query::{BoolOperator, Query};
use operon_query::values::FieldValue;
use serde_json::Value;

fn of(v: &Value) -> Json {
    match v {
        Value::Null => Json::Null,
        Value::Bool(b) => Json::Bool(*b),
        Value::Number(n) => Json::Number(if let Some(u) = n.as_u64() {
            Number::Unsigned(u)
        } else if let Some(i) = n.as_i64() {
            Number::Negative(i)
        } else {
            Number::Float { bits: n.as_f64().unwrap().to_bits(), text: n.to_string() }
        }),
        Value::String(s) => Json::Text(s.clone()),
        Value::Array(items) => Json::Array(items.iter().map(of).collect()),
        Value::Object(map) => {
            Json::Object(map.iter().map(|(k, v)| (k.clone(), of(v))).collect())
        }
    }
}

fn j(text: &str) -> Json {
    of(&serde_json::from_str(text).unwrap())
}

fn body(text: &str) -> Result<SearchRequest, ServiceError> {
    let v = j(text);
    assert!(is_hybrid(&v));
    parse_hybrid(&v, 1_000_000, None)
}

fn refused(text: &str) -> String {
    match body(text) {
        Ok(_) => panic!("accepted {text}"),
        Err(err) => err.message(),
    }
}

#[test]
fn a_body_is_hybrid_by_its_keys() {
    assert!(is_hybrid(&j("{\"retrieve\":[]}")));
    assert!(!is_hybrid(&j("{\"collection\":\"c\"}")));
    assert!(!is_hybrid(&j("[]")));
    let r = body("{\"from\":\"collections.c\"}").unwrap();
    assert_eq!(r.collection, "c");
    assert_eq!(r.limit, SearchRequest::new("c").limit);
    assert!(matches!(r.consistency, ReadConsistency::Strong));
    assert_eq!(r.track_total_hits, TrackTotalHits::Never);
    assert_eq!(body("{\"from\":\"c\"}").unwrap().collection, "c");
}

#[test]
fn a_whole_body_is_read() {
    let r = body(
        "{\"from\":\"c\",\"consistency\":\"eventual\",\"limit\":5,\"offset\":2,\
         \"retrieve\":[{\"vector\":{\"field\":\"v\",\"query\":[1,0.5,-2],\"k\":7,\"ef\":9,\"exact\":true}},\
         {\"text\":{\"field\":\"t\",\"query\":\"words\",\"k\":3,\"operator\":\"and\"}}],\
         \"filter\":{\"exists\":\"x\"},\"fuse\":{\"method\":\"weighted\",\"weights\":[1,0.25]},\
         \"select\":[\"id\",\"_score\",\"a.b\",\"_vectors.v\"]}",
    )
    .unwrap();
    assert!(matches!(r.consistency, ReadConsistency::Eventual));
    assert_eq!((r.limit, r.offset), (5, 2));
    match &r.retrievers[0] {
        Retriever::Vector { field, query, k, params, filter } => {
            assert_eq!(field, "v");
            assert_eq!(*query, vec![1f32.to_bits(), 0.5f32.to_bits(), (-2f32).to_bits()]);
            assert_eq!(*k, 7);
            assert!(params.exact && filter.is_none());
            assert_eq!(params.ef, Some(9));
            assert_eq!(params.nprobes, None);
        }
        other => panic!("{other:?}"),
    }
    match &r.retrievers[1] {
        Retriever::Text { query: Query::Match { field, text, operator, .. }, k } => {
            assert_eq!((field.as_str(), text.as_str(), *k), ("t", "words", 3));
            assert_eq!(*operator, BoolOperator::And);
        }
        other => panic!("{other:?}"),
    }
    assert!(matches!(&r.filter, Some(Query::Exists { field }) if field == "x"));
    assert!(matches!(&r.fusion, Some(Fusion::WeightedSum { weights }) if *weights == vec![1f32.to_bits(), 0.25f32.to_bits()]));
    assert!(matches!(&r.select.source, SourceFilter::Paths { include_paths, .. } if *include_paths == vec!["a.b"]));
    assert_eq!(r.select.vectors, vec!["v"]);
}

#[test]
fn fusions_have_methods() {
    let fused = |text: &str| body(&format!("{{\"from\":\"c\",\"fuse\":{text}}}")).unwrap().fusion;
    assert!(matches!(fused("{\"method\":\"rrf\"}"), Some(Fusion::Rrf { k: 60 })));
    assert!(matches!(fused("{\"method\":\"rrf\",\"k\":7}"), Some(Fusion::Rrf { k: 7 })));
    assert!(matches!(fused("{\"method\":\"dbsf\"}"), Some(Fusion::Dbsf)));
}

#[test]
fn a_token_is_read_beside_the_body() {
    let v = j("{\"from\":\"c\",\"consistency\":{\"token\":\"v1:s7/p3@9\"}}");
    assert_eq!(token_text(&v).as_deref(), Some("v1:s7/p3@9"));
    let token = ConsistencyToken { entries: vec![(7, 3, 9)] };
    let r = parse_hybrid(&v, 0, Some(token)).unwrap();
    assert!(matches!(r.consistency, ReadConsistency::AtLeast(t) if t.entries == vec![(7, 3, 9)]));
    assert_eq!(
        parse_hybrid(&v, 0, None).unwrap_err().message(),
        "invalid argument: invalid consistency token \"v1:s7/p3@9\""
    );
    assert_eq!(token_text(&j("{\"from\":\"c\"}")), None);
}

#[test]
fn select_names_what_is_returned() {
    let source = |text: &str| {
        body(&format!("{{\"from\":\"c\",\"select\":{text}}}")).unwrap().select.source
    };
    assert!(matches!(source("[\"_source\",\"a\"]"), SourceFilter::All));
    assert!(matches!(source("[\"id\"]"), SourceFilter::Nothing));
    assert!(matches!(source("[\"a\"]"), SourceFilter::Paths { .. }));
}

#[test]
fn wrong_bodies_are_refused() {
    let cases = [
        ("{\"from\":\"c\",\"expand\":1}", "expand needs graphs, which arrive in M3"),
        ("{\"from\":\"c\",\"rerank\":1}", "rerank arrives in M3"),
        ("{\"from\":\"c\",\"x\":1}", "unknown key x in the query body"),
        ("{\"retrieve\":[]}", "from must be \"collections.<name>\" or \"<name>\""),
        (
            "{\"from\":\"c\",\"consistency\":\"x\"}",
            "consistency must be an object with one key, got \"x\"",
        ),
        (
            "{\"from\":\"c\",\"consistency\":{\"x\":\"y\"}}",
            "consistency must be \"strong\", \"eventual\" or {\"token\": \"v1:…\"}",
        ),
        ("{\"from\":\"c\",\"retrieve\":1}", "retrieve must be a list"),
        ("{\"from\":\"c\",\"retrieve\":[{\"x\":{}}]}", "unknown retriever x"),
        (
            "{\"from\":\"c\",\"retrieve\":[{\"vector\":{\"y\":1}}]}",
            "unknown key y in vector",
        ),
        (
            "{\"from\":\"c\",\"retrieve\":[{\"vector\":{\"query\":[\"a\"]}}]}",
            "vector.query must be a list of numbers",
        ),
        (
            "{\"from\":\"c\",\"retrieve\":[{\"vector\":{\"query\":[]}}]}",
            "vector.field must be a string",
        ),
        (
            "{\"from\":\"c\",\"retrieve\":[{\"vector\":{\"query\":[],\"field\":\"v\"}}]}",
            "vector.k must be an unsigned integer",
        ),
        (
            "{\"from\":\"c\",\"retrieve\":[{\"text\":{\"operator\":\"xor\"}}]}",
            "unknown text.operator xor",
        ),
        ("{\"from\":\"c\",\"fuse\":1}", "fuse must be an object"),
        ("{\"from\":\"c\",\"fuse\":{\"method\":\"x\"}}", "unknown fuse method x"),
        ("{\"from\":\"c\",\"fuse\":{\"method\":\"dbsf\",\"k\":1}}", "unknown key k in fuse"),
        ("{\"from\":\"c\",\"select\":[1]}", "select must be a list of names"),
        ("{\"from\":\"c\",\"limit\":-1}", "limit must be an unsigned integer"),
    ];
    for (text, message) in cases {
        assert_eq!(refused(text), format!("invalid argument: {message}"));
    }
}

#[test]
fn filters_nest() {
    let q = filter_from(
        &j("{\"and\":[{\"or\":[{\"term\":{\"a\":1}},{\"ids\":[1,\"x\"]}]},{\"not\":{\"exists\":\"b\"}}]}"),
        0,
    )
    .unwrap();
    match q {
        Query::Bool { must, should, must_not, filter, minimum_should_match } => {
            assert_eq!((must.len(), should.len(), must_not.len(), filter.len()), (2, 0, 0, 0));
            assert!(minimum_should_match.is_none());
            assert!(matches!(&must[0], Query::Bool { should, .. } if should.len() == 2));
            assert!(matches!(&must[1], Query::Bool { must_not, .. } if must_not.len() == 1));
        }
        other => panic!("{other:?}"),
    }
    let q = filter_from(&j("{\"range\":{\"a\":{\"gt\":1,\"lte\":\"z\"}}}"), 0).unwrap();
    assert!(matches!(q, Query::Range { gt: Some(FieldValue::I64(1)), gte: None, lt: None, lte: Some(FieldValue::Str(_)), .. }));
    let q = filter_from(&j("{\"terms\":{\"a\":[true,2.5]}}"), 0).unwrap();
    assert!(matches!(q, Query::Terms { values, .. } if values.len() == 2));
    let q = filter_from(&j("{\"match\":{\"a\":\"w\"}}"), 0).unwrap();
    assert!(matches!(q, Query::Match { operator: BoolOperator::Or, .. }));
}

#[test]
fn wrong_filters_are_refused() {
    let cases = [
        ("[]", "a filter must be an object with one key, got []"),
        ("{\"x\":1}", "unknown filter x"),
        ("{\"and\":1}", "and must be a list of filters"),
        ("{\"term\":{}}", "term must be an object with one key, got {}"),
        ("{\"term\":{\"a\":[]}}", "a filter value must be a JSON scalar, got []"),
        ("{\"terms\":{\"a\":1}}", "terms values must be a list"),
        ("{\"range\":{\"a\":{\"x\":1}}}", "unknown key x in range"),
        ("{\"exists\":1}", "exists must name a field"),
        ("{\"ids\":1}", "ids must be a list"),
        ("{\"match\":{\"a\":1}}", "match text must be a string"),
    ];
    for (text, message) in cases {
        assert_eq!(
            filter_from(&j(text), 0).unwrap_err().message(),
            format!("invalid argument: {message}")
        );
    }
}

#[test]
fn date_math_is_relative_to_now() {
    assert_eq!(date_math("now", 5).unwrap(), Some(5_000));
    assert_eq!(date_math("now-1s", 5_000).unwrap(), Some(4_000_000));
    assert_eq!(date_math("now+2d", 0).unwrap(), Some(172_800_000_000));
    assert_eq!(date_math("now+3h", 0).unwrap(), Some(10_800_000_000));
    assert_eq!(date_math("now-1m", 0).unwrap(), Some(-60_000_000));
    assert_eq!(date_math("now?", 5).unwrap(), None);
    assert_eq!(date_math("then", 5).unwrap(), None);
    let refusal = |s: &str| date_math(s, 0).unwrap_err().message();
    assert_eq!(refusal("now-"), "invalid argument: invalid date math \"now-\"");
    assert_eq!(
        refusal("now-1w"),
        "invalid argument: invalid date math \"now-1w\": units are s, m, h, d"
    );
    assert_eq!(refusal("now-xs"), "invalid argument: invalid date math \"now-xs\"");
    assert_eq!(
        refusal("now+9999999d"),
        "invalid argument: date math \"now+9999999d\" out of range"
    );
    assert!(matches!(value_from(&j("\"now\""), 1), Ok(FieldValue::Date(1_000))));
}
