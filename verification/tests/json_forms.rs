//! The JSON forms: errors, keys, values, schemas and alias actions.

use operon_query::collection::{
    CollectionSchema, DynamicMapping, FieldKind, HnswParams, Quantization, SparseModifier,
    VectorIndexSpec,
};
use operon_query::error::ServiceError;
use operon_query::ir::{Distance, SourceFilter};
use operon_query::json::alias::{alias_actions_from_json, AliasAction};
use operon_query::json::pk;
use operon_query::json::schema::{
    distance_name, field_from_json, parse_distance, vector_from_json, SchemaDefaults,
};
use operon_query::json::value::{Json, Number};
use operon_query::json::values;
use operon_query::json::whole_schema;
use operon_query::key::PrimaryKey;
use operon_query::query::Fuzziness;
use operon_query::values::{FieldValue, SortValue};
use serde_json::Value;

fn of(v: &Value) -> Json {
    match v {
        Value::Null => Json::Null,
        Value::Bool(b) => Json::Bool(*b),
        Value::Number(n) => Json::Number(if let Some(u) = n.as_u64() {
            Number::Unsigned(u)
        } else if let Some(i) = n.as_i64() {
            Number::Negative(i)
        } else {
            Number::Float { bits: n.as_f64().unwrap().to_bits(), text: n.to_string() }
        }),
        Value::String(s) => Json::Text(s.clone()),
        Value::Array(items) => Json::Array(items.iter().map(of).collect()),
        Value::Object(map) => {
            Json::Object(map.iter().map(|(k, v)| (k.clone(), of(v))).collect())
        }
    }
}

fn j(text: &str) -> Json {
    of(&serde_json::from_str(text).unwrap())
}

const UUID: [u8; 16] = [
    0x12, 0x34, 0x56, 0x78, 0x9a, 0xbc, 0xde, 0xf0, 0x0f, 0xed, 0xcb, 0xa9, 0x87, 0x65, 0x43, 0x21,
];
const UUID_TEXT: &str = "12345678-9abc-def0-0fed-cba987654321";

fn defaults() -> SchemaDefaults {
    SchemaDefaults {
        hnsw: HnswParams {
            m: 16,
            ef_construct: 100,
            full_scan_threshold_kb: 10_000,
            payload_m: None,
            on_disk: false,
        },
        max_fields: 1_000,
    }
}

fn refusal<T>(r: Result<T, ServiceError>) -> String {
    match r {
        Ok(_) => panic!("accepted"),
        Err(err) => err.message(),
    }
}

#[test]
fn texts_are_quoted_as_json() {
    let v = Json::Object(vec![
        ("a\"\n".to_string(), Json::Text("\u{1}\\é".to_string())),
        ("b".to_string(), j("[1,-2,1.5,null,true,{}]")),
    ]);
    assert_eq!(v.text(), "{\"a\\\"\\n\":\"\\u0001\\\\é\",\"b\":[1,-2,1.5,null,true,{}]}");
    assert_eq!(v.copy().text(), v.text());
    let text = |s: &str| Json::Text(s.to_string()).text();
    assert_eq!(text(""), "\"\"");
    assert_eq!(
        text("\u{8}\t\n\u{c}\r\u{0}\u{b}\u{1f}"),
        "\"\\b\\t\\n\\f\\r\\u0000\\u000b\\u001f\""
    );
    assert_eq!(text(" /\u{7f}\u{80}"), "\" /\u{7f}\u{80}\"");
}

#[test]
fn every_error_has_a_code_a_status_and_a_body() {
    let errors = vec![
        (ServiceError::NotFound { kind: "pin", name: "a\"b".to_string() }, "not_found", 404),
        (ServiceError::AlreadyExists("x".to_string()), "already_exists", 409),
        (ServiceError::InvalidArgument("x".to_string()), "invalid_argument", 400),
        (
            ServiceError::SchemaViolation { field: "f".to_string(), message: "m".to_string() },
            "schema_violation",
            400,
        ),
        (ServiceError::Unavailable("x".to_string()), "unavailable", 503),
        (ServiceError::Timeout, "timeout", 504),
        (ServiceError::Internal("x".to_string()), "internal", 500),
    ];
    for (err, code, status) in errors {
        assert_eq!(err.code(), code);
        assert_eq!(err.http_status(), status);
        assert_eq!(err.is_retryable(), status == 503 || status == 504);
        let read = ServiceError::from_body(&err.to_body()).unwrap();
        assert_eq!(read.to_body().text(), err.to_body().text());
        assert_eq!(read.message(), err.message());
    }
    let gone = ServiceError::NotFound { kind: "pin", name: "a\"b".to_string() };
    assert_eq!(gone.message(), "pin \"a\\\"b\" not found");
    assert_eq!(
        gone.to_body().text(),
        "{\"error\":\"not_found\",\"kind\":\"pin\",\"message\":\"pin \\\"a\\\\\\\"b\\\" not found\",\"name\":\"a\\\"b\"}"
    );
}

#[test]
fn bodies_of_other_shapes_are_read_leniently() {
    assert!(ServiceError::from_body(&j("[]")).is_none());
    assert!(ServiceError::from_body(&j("{\"error\":\"odd\"}")).is_none());
    assert!(ServiceError::from_body(&j("{\"message\":\"x\"}")).is_none());
    let e = ServiceError::from_body(&j("{\"error\":\"not_found\",\"kind\":\"planet\"}")).unwrap();
    assert_eq!(e.message(), "object \"\" not found");
    let e = ServiceError::from_body(&j("{\"error\":\"internal\",\"message\":\"bare\"}")).unwrap();
    assert_eq!(e.message(), "internal error: bare");
}

#[test]
fn keys_are_numbers_texts_or_uuids() {
    assert_eq!(pk::to_json(&PrimaryKey::U64(u64::MAX)).text(), "18446744073709551615");
    assert_eq!(pk::to_json(&PrimaryKey::Str("a".to_string())).text(), "\"a\"");
    let uuid = format!("{{\"uuid\":\"{UUID_TEXT}\"}}");
    assert_eq!(pk::to_json(&PrimaryKey::Uuid(UUID)).text(), uuid);
    assert_eq!(pk::format_uuid(&UUID), UUID_TEXT);
    for text in ["7", "\"seven\"", uuid.as_str()] {
        let key = pk::from_json(&j(text)).unwrap();
        assert_eq!(pk::to_json(&key).text(), text);
    }
    assert_eq!(pk::parse_uuid("12345678-9ABC-DEF0-0FED-CBA987654321"), Some(UUID));
    assert_eq!(pk::parse_uuid("12345678x9abc-def0-0fed-cba987654321"), None);
    assert_eq!(pk::parse_uuid("12345678"), None);
    for text in ["-1", "1.5", "null", "{}", "{\"uuid\":\"x\"}", "{\"uuid\":1}", "[1]"] {
        assert_eq!(
            refusal(pk::from_json(&j(text))),
            format!(
                "invalid argument: invalid id {text}: expected an unsigned integer, a string or {{\"uuid\": \"…\"}}"
            )
        );
    }
    assert_eq!(pk::list_from_json(&vec![j("1"), j("\"b\"")]).unwrap().len(), 2);
    assert!(pk::list_from_json(&vec![j("1"), j("true")]).is_err());
}

#[test]
fn canonical_keys_read_back_and_keep_their_order() {
    let keys = vec![
        PrimaryKey::U64(0),
        PrimaryKey::U64(256),
        PrimaryKey::Uuid([0; 16]),
        PrimaryKey::Uuid(UUID),
        PrimaryKey::Str("".to_string()),
        PrimaryKey::Str("é".to_string()),
    ];
    assert_eq!(PrimaryKey::U64(258).canonical(), vec![1, 0, 0, 0, 0, 0, 0, 1, 2]);
    for (i, key) in keys.iter().enumerate() {
        assert!(PrimaryKey::from_canonical(&key.canonical()).unwrap().same(key));
        for (n, other) in keys.iter().enumerate() {
            assert_eq!(key.sign(other).to_ordering(), i.cmp(&n));
            assert_eq!(key.canonical().cmp(&other.canonical()), i.cmp(&n));
        }
    }
    assert!(PrimaryKey::from_canonical(&[3, 0xff]).is_none());
    assert!(PrimaryKey::from_canonical(&[1, 0]).is_none());
    assert!(PrimaryKey::from_canonical(&[]).is_none());
    assert!(PrimaryKey::from_canonical(&[9]).is_none());
}

#[test]
fn dates_are_rfc_3339_with_microseconds() {
    assert_eq!(values::format_date(0).unwrap(), "1970-01-01T00:00:00.000000Z");
    assert_eq!(values::format_date(-1).unwrap(), "1969-12-31T23:59:59.999999Z");
    assert_eq!(
        values::format_date(1_709_210_096_000_123).unwrap(),
        "2024-02-29T12:34:56.000123Z"
    );
    assert_eq!(values::format_date(-62_167_219_200_000_000).unwrap(), "0000-01-01T00:00:00.000000Z");
    assert_eq!(values::format_date(-62_167_219_200_000_001), None);
    assert_eq!(
        values::format_date(253_402_300_799_999_999).unwrap(),
        "9999-12-31T23:59:59.999999Z"
    );
    assert_eq!(values::format_date(253_402_300_800_000_000), None);
    assert_eq!(values::parse_date("2024-02-29T12:34:56.000123Z"), Some(1_709_210_096_000_123));
    assert_eq!(values::parse_date("1970-01-01T01:00:00+01:00"), Some(0));
    assert_eq!(values::parse_date("1969-12-31T23:59:59.9999999Z"), Some(-1));
    assert_eq!(values::parse_date("yesterday"), None);
    for micros in [0, -1, 1_709_210_096_000_123] {
        let text = values::format_date(micros).unwrap();
        assert_eq!(values::parse_date(&text), Some(micros));
    }
}

#[test]
fn field_values_have_one_json_form() {
    let date = values::field_to_json(&FieldValue::Date(0), None).unwrap();
    assert_eq!(date.text(), "{\"date\":\"1970-01-01T00:00:00.000000Z\"}");
    assert!(matches!(values::field_from_json(&date), Ok(FieldValue::Date(0))));
    assert_eq!(
        values::field_to_json(&FieldValue::Date(i64::MAX), None).unwrap_err(),
        "date 9223372036854775807 µs is out of range"
    );
    assert!(matches!(values::field_from_json(&j("7")), Ok(FieldValue::I64(7))));
    let big = values::field_from_json(&j("18446744073709551615"));
    assert!(matches!(big, Ok(FieldValue::U64(u64::MAX))));
    assert!(matches!(values::field_from_json(&j("-7")), Ok(FieldValue::I64(-7))));
    let float = values::field_from_json(&j("1.5")).unwrap();
    assert!(matches!(float, FieldValue::F64(b) if b == 1.5f64.to_bits()));
    assert!(matches!(values::field_from_json(&j("true")), Ok(FieldValue::Bool(true))));
    assert!(matches!(values::field_from_json(&j("\"s\"")), Ok(FieldValue::Str(_))));
    assert_eq!(
        values::field_from_json(&j("{\"date\":\"x\"}")).unwrap_err(),
        "invalid RFC 3339 date \"x\""
    );
    assert_eq!(
        values::field_from_json(&j("{\"day\":\"x\"}")).unwrap_err(),
        "unexpected key \"day\", expected \"date\""
    );
    assert_eq!(
        values::field_to_json(&FieldValue::F64(1.5f64.to_bits()), Some("1.5".to_string()))
            .unwrap()
            .text(),
        "1.5"
    );
}

#[test]
fn sort_values_have_one_json_form() {
    let uuid = values::sort_to_json(&SortValue::Uuid(UUID), None);
    assert_eq!(uuid.text(), format!("{{\"uuid\":\"{UUID_TEXT}\"}}"));
    assert!(matches!(values::sort_from_json(&uuid), Ok(SortValue::Uuid(UUID))));
    assert_eq!(values::sort_to_json(&SortValue::Null, None).text(), "null");
    assert!(matches!(values::sort_from_json(&j("null")), Ok(SortValue::Null)));
    assert!(matches!(values::sort_from_json(&j("3")), Ok(SortValue::I64(3))));
    assert_eq!(
        values::sort_from_json(&j("{\"uuid\":\"x\"}")).unwrap_err(),
        "invalid uuid \"x\""
    );
    assert!(SortValue::from_pk(&PrimaryKey::U64(3)).as_pk().unwrap().same(&PrimaryKey::U64(3)));
    assert!(SortValue::Bool(true).as_pk().is_none());
}

#[test]
fn fuzziness_is_auto_or_up_to_two_edits() {
    assert_eq!(values::fuzziness_to_json(&Fuzziness::Auto).text(), "\"auto\"");
    assert_eq!(values::fuzziness_to_json(&Fuzziness::Edits(2)).text(), "2");
    assert_eq!(values::fuzziness_from_json(&j("\"auto\"")).unwrap(), Fuzziness::Auto);
    assert_eq!(values::fuzziness_from_json(&j("1")).unwrap(), Fuzziness::Edits(1));
    assert_eq!(
        values::fuzziness_from_json(&j("3")).unwrap_err(),
        "invalid fuzziness 3: expected \"auto\" or 0-2"
    );
    assert_eq!(
        values::fuzziness_from_json(&j("-1")).unwrap_err(),
        "invalid fuzziness -1: expected \"auto\" or 0-2"
    );
    assert_eq!(
        values::fuzziness_from_json(&j("\"x\"")).unwrap_err(),
        "invalid fuzziness \"x\": expected \"auto\" or 0-2"
    );
}

#[test]
fn source_filters_are_all_none_or_paths() {
    assert_eq!(values::filter_to_json(&SourceFilter::All).text(), "\"all\"");
    assert_eq!(values::filter_to_json(&SourceFilter::Nothing).text(), "\"none\"");
    let paths = SourceFilter::Paths {
        include_paths: vec!["a".to_string()],
        exclude_paths: vec![],
    };
    let json = values::filter_to_json(&paths);
    let read = values::filter_from_json(&json).unwrap();
    assert_eq!(values::filter_to_json(&read).text(), json.text());
    assert!(matches!(values::filter_from_json(&j("{}")), Ok(SourceFilter::Paths { .. })));
    assert_eq!(
        values::filter_from_json(&j("\"some\"")).unwrap_err(),
        "invalid source filter \"some\""
    );
    assert_eq!(
        values::filter_from_json(&j("{\"only\":[]}")).unwrap_err(),
        "unknown key only in the source filter"
    );
}

#[test]
fn a_schema_reads_back_from_its_json() {
    let text = "{\"annotations\":{\"k\":\"v\"},\"dynamic\":\"map\",\"fields\":[\
        {\"name\":\"t\",\"kind\":{\"text\":{\"positions\":false}},\"indexed\":false},\
        {\"name\":\"u\",\"kind\":\"uuid\",\"source_path\":\"a.u\",\"fast\":true}],\
        \"sparse_vectors\":[{\"name\":\"s\",\"modifier\":\"idf\"},{\"name\":\"p\"}],\
        \"vectors\":[{\"name\":\"v\",\"dim\":3,\"distance\":\"dot\",\
        \"index\":{\"ivf_pq\":{\"num_partitions\":4}},\"hnsw\":{\"m\":8},\
        \"quantization\":{\"product\":{\"compression_ratio\":4}}}],\"version\":7}";
    let schema = whole_schema::from_json(&j(text), &defaults()).unwrap();
    assert_eq!(schema.version, 1);
    assert_eq!(schema.max_fields, 1_000);
    assert_eq!(schema.dynamic, DynamicMapping::Mapped);
    assert!(matches!(&schema.fields[0].kind, FieldKind::Text { analyzer, positions: false } if analyzer == "standard"));
    assert_eq!(schema.fields[0].source_path, "t");
    assert_eq!(schema.fields[1].source_path, "a.u");
    assert!(schema.fields[1].fast && schema.fields[1].indexed);
    assert_eq!(schema.sparse_vectors[0].modifier, SparseModifier::Idf);
    assert_eq!(schema.sparse_vectors[1].modifier, SparseModifier::Plain);
    assert_eq!(schema.vectors[0].distance, Distance::Dot);
    assert_eq!(schema.vectors[0].hnsw.m, 8);
    assert_eq!(
        schema.vectors[0].index,
        VectorIndexSpec::IvfPq { num_partitions: Some(4), num_sub_vectors: None, num_bits: 8 }
    );
    assert_eq!(
        schema.vectors[0].quantization,
        Some(Quantization::Product { compression_ratio: 4, always_ram: false })
    );
    let written = whole_schema::to_json(&schema);
    let again = whole_schema::from_json(&written, &defaults()).unwrap();
    assert_eq!(whole_schema::to_json(&again).text(), written.text());
    assert!(again.same_ignoring_version(&schema));
    let kept = whole_schema::read_versioned(&j(text), &defaults()).unwrap();
    assert_eq!(kept.version, 7);
}

#[test]
fn a_schema_is_written_with_every_key() {
    let schema = CollectionSchema {
        version: 3,
        fields: vec![],
        vectors: vec![],
        sparse_vectors: vec![],
        dynamic: DynamicMapping::Strict,
        max_fields: 5,
        annotations: vec![],
    };
    assert_eq!(
        whole_schema::to_json(&schema).text(),
        "{\"annotations\":{},\"dynamic\":\"strict\",\"fields\":[],\"max_fields\":5,\"sparse_vectors\":[],\"vectors\":[],\"version\":3}"
    );
}

#[test]
fn wrong_schemas_are_refused() {
    let cases = [
        ("[]", "schema must be an object, got []"),
        ("{\"x\":1}", "unknown key x in schema"),
        ("{\"dynamic\":\"maybe\"}", "unknown dynamic mapping maybe"),
        ("{\"version\":-1}", "schema.version must be an unsigned integer"),
        ("{\"annotations\":[]}", "schema.annotations must be an object of strings"),
        ("{\"fields\":{}}", "schema.fields must be a list"),
        ("{\"fields\":[{}]}", "field needs name"),
        ("{\"fields\":[{\"name\":\"a\"}]}", "field needs kind"),
        ("{\"fields\":[{\"name\":\"a\",\"kind\":\"x\"}]}", "unknown field kind x"),
        ("{\"fields\":[{\"name\":\"a\",\"kind\":7}]}", "invalid field kind: 7"),
        (
            "{\"fields\":[{\"name\":\"a\",\"kind\":{\"i64\":{}}}]}",
            "field kind i64 takes no settings",
        ),
        ("{\"vectors\":[{\"name\":\"v\"}]}", "vector needs dim"),
        (
            "{\"vectors\":[{\"name\":\"v\",\"dim\":1,\"distance\":\"x\"}]}",
            "unknown distance x",
        ),
        (
            "{\"vectors\":[{\"name\":\"v\",\"dim\":1,\"distance\":\"dot\",\"index\":\"x\"}]}",
            "unknown vector index x",
        ),
        (
            "{\"vectors\":[{\"name\":\"v\",\"dim\":1,\"distance\":\"dot\",\"quantization\":\"product\"}]}",
            "product needs compression_ratio",
        ),
        (
            "{\"sparse_vectors\":[{\"name\":\"s\",\"modifier\":\"x\"}]}",
            "unknown sparse modifier x",
        ),
        ("{\"max_fields\":4294967296}", "schema.max_fields must be an unsigned 32-bit integer"),
    ];
    for (text, message) in cases {
        assert_eq!(
            refusal(whole_schema::from_json(&j(text), &defaults())),
            format!("invalid argument: {message}")
        );
    }
}

#[test]
fn fields_and_vectors_have_defaults() {
    let f = field_from_json(&j("{\"name\":\"a\",\"kind\":\"date\"}")).unwrap();
    assert!(f.indexed && !f.fast && !f.ignore_malformed);
    let v = vector_from_json(
        &j("{\"name\":\"v\",\"dim\":2,\"distance\":\"cosine\"}"),
        &defaults().hnsw,
    )
    .unwrap();
    assert_eq!(v.index, VectorIndexSpec::Auto);
    assert_eq!(v.hnsw, defaults().hnsw);
    assert_eq!(v.quantization, None);
    for d in [Distance::Cosine, Distance::Dot, Distance::Euclid, Distance::Manhattan] {
        assert_eq!(parse_distance(distance_name(d)), Some(d));
    }
    assert_eq!(parse_distance("l2"), None);
}

#[test]
fn alias_actions_create_or_delete() {
    let actions = alias_actions_from_json(&j(
        "[{\"create\":{\"alias\":\"a\",\"collection\":\"c\"}},{\"delete\":{\"alias\":\"b\"}}]",
    ))
    .unwrap();
    assert!(matches!(&actions[0], AliasAction::Create { alias, collection } if alias == "a" && collection == "c"));
    assert!(matches!(&actions[1], AliasAction::Delete { alias } if alias == "b"));
    let cases = [
        ("{}", "alias actions must be a list"),
        (
            "[{}]",
            "an alias action must be {\"create\": …} or {\"delete\": …}, got {}",
        ),
        ("[{\"create\":1}]", "create must be an object"),
        ("[{\"swap\":{}}]", "unknown alias action swap"),
        ("[{\"delete\":{\"x\":1}}]", "unknown key x in delete"),
        ("[{\"create\":{\"alias\":\"a\"}}]", "create.collection must be a string"),
    ];
    for (text, message) in cases {
        assert_eq!(
            refusal(alias_actions_from_json(&j(text))),
            format!("invalid argument: {message}")
        );
    }
}
