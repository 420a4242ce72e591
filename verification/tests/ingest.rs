//! Flight: tickets, put targets, mapping batches and putting them.

use operon_query::cells::{non_finite, timestamp_ms, value_to_json, Cell, TimeUnit};
use operon_query::collection::{
    CollectionSchema, DynamicMapping, FieldKind, FieldSpec, HnswParams, SparseModifier,
    SparseVectorSpec, VectorElement, VectorIndexSpec, VectorSpec,
};
use operon_query::error::ServiceError;
use operon_query::flight::{
    bounded, decode_ticket, encode_ticket, fallback_refusal, id_type_of, metadata_consistency,
    namespace_of, namespaces, rows_answered, schema_to_load, statement_read, statement_ticket,
    status_of, ticket_consistency, CallStatus, FlightConfig, Header, StatementTicket, StatusCode,
    StreamEvent, StreamStep,
};
use operon_query::flight_ingest::collection::{
    invalid_collection, schema_from_arrow, CollectionBatchMapper, NewSchema,
};
use operon_query::flight_ingest::put::{
    add_offsets, chunk_ranges, group_chunk, group_rows, rewrite_op, rewrite_record, row_error,
    token_of_acks, AppendAck, ChunkStep, PartitionOffsets, Put, PutError, PutNext, Received,
};
use operon_query::flight_ingest::rows::{
    dense_at, headers_at, parse_any_uuid, sparse_at, IdColumn,
};
use operon_query::flight_ingest::shape::{
    is_bytes, is_headers, is_sparse, is_string, is_vector, ColumnCells, DataType, DenseCell,
    Element, Field, HeaderCell, HeadersCell, ListCell, RecordBatch, RowError, SourceCell,
    SparseCell, TimeCell,
};
use operon_query::flight_ingest::stream::{choose_partition, Record, StreamBatchMapper};
use operon_query::flight_ingest::target::{
    ingest_action, put_target_from_ingest, put_target_from_path, IdType, IngestAction,
    IngestCommand, PutTarget, TableOptions,
};
use operon_query::ir::{ConsistencyToken, Distance, ReadConsistency};
use operon_query::json::value::{Json, Number};
use operon_query::key::PrimaryKey;

fn names(list: &[&str]) -> Vec<String> {
    list.iter().map(|s| s.to_string()).collect()
}

fn hnsw() -> HnswParams {
    HnswParams {
        m: 16,
        ef_construct: 100,
        full_scan_threshold_kb: 10_000,
        payload_m: None,
        on_disk: false,
    }
}

fn schema() -> CollectionSchema {
    CollectionSchema {
        version: 1,
        fields: vec![FieldSpec {
            name: "title".to_string(),
            source_path: "title".to_string(),
            kind: FieldKind::Keyword,
            indexed: true,
            fast: false,
            ignore_malformed: false,
        }],
        vectors: vec![VectorSpec {
            name: "v".to_string(),
            dim: 2,
            distance: Distance::Cosine,
            element: VectorElement::F32,
            index: VectorIndexSpec::Auto,
            hnsw: hnsw(),
            quantization: None,
        }],
        sparse_vectors: vec![SparseVectorSpec {
            name: "s".to_string(),
            modifier: SparseModifier::Plain,
        }],
        dynamic: DynamicMapping::Mapped,
        max_fields: 10,
        annotations: vec![],
    }
}

fn field(name: &str, data_type: DataType) -> Field {
    Field { name: name.to_string(), data_type, shown: "Shown".to_string(), id_type: None }
}

fn vector_type(dim: i32) -> DataType {
    DataType::FixedSizeList(Box::new(DataType::Float32), dim)
}

fn sparse_type() -> DataType {
    DataType::Struct(vec![
        ("indices".to_string(), DataType::List(Box::new(DataType::UInt32))),
        ("values".to_string(), DataType::List(Box::new(DataType::Float32))),
    ])
}

fn headers_type() -> DataType {
    DataType::List(Box::new(DataType::Struct(vec![
        ("key".to_string(), DataType::Utf8),
        ("value".to_string(), DataType::Binary),
    ])))
}

fn ticket() -> StatementTicket {
    statement_ticket(
        "ns".to_string(),
        "SELECT 'é'".to_string(),
        Some("v1:s7/p3@9".to_string()),
        Some(4),
    )
}

#[test]
fn tickets_read_back() {
    let bytes = encode_ticket(&ticket());
    assert_eq!(&bytes[..6], b"OPFS\x01\x00");
    let read = decode_ticket(&bytes).unwrap();
    assert_eq!(read.namespace, "ns");
    assert_eq!(read.query, "SELECT 'é'");
    assert_eq!(read.token.as_deref(), Some("v1:s7/p3@9"));
    assert_eq!(read.pinned_manifest, Some(4));
}

#[test]
fn changed_tickets_are_refused() {
    let bytes = encode_ticket(&ticket());
    let refused = |b: &[u8]| decode_ticket(b).unwrap_err().message();
    let message = "invalid argument: invalid statement ticket";
    assert_eq!(refused(&[]), message);
    assert_eq!(refused(&bytes[..9]), message);
    for i in 0..bytes.len() {
        let mut changed = bytes.clone();
        for x in 1..=255u8 {
            changed[i] = bytes[i] ^ x;
            assert_eq!(refused(&changed), message);
        }
    }
}

#[test]
fn a_ticket_holds_its_fields_in_order() {
    let query = "é".repeat(100);
    let ticket = statement_ticket("ns".to_string(), query.clone(), None, Some(300));
    let bytes = encode_ticket(&ticket);
    let mut fields = vec![2, b'n', b's', 0xc8, 1];
    fields.extend(query.as_bytes());
    fields.extend([0, 1, 0xac, 2]);
    assert_eq!(&bytes[6..bytes.len() - 4], fields.as_slice());
    let ticket = statement_ticket(String::new(), String::new(), Some("t".to_string()), None);
    let bytes = encode_ticket(&ticket);
    assert_eq!(&bytes[6..bytes.len() - 4], [0, 0, 1, 1, b't', 0]);
}

#[test]
fn a_ticket_ends_with_its_checksum() {
    // The division by the Castagnoli polynomial, bit by bit.
    let divide = |bytes: &[u8]| {
        let mut c = u32::MAX;
        for b in bytes {
            c ^= u32::from(*b);
            for _ in 0..8 {
                c = if c & 1 == 1 { (c >> 1) ^ 0x82f6_3b78 } else { c >> 1 };
            }
        }
        c ^ u32::MAX
    };
    assert_eq!(divide(b"123456789"), 0xe306_9283);
    for n in 0..60 {
        let token = Some("x".repeat(n));
        let ticket = statement_ticket("ns".to_string(), "q".repeat(n * 7), token, None);
        let bytes = encode_ticket(&ticket);
        let (body, sum) = bytes.split_at(bytes.len() - 4);
        assert_eq!(sum, divide(body).to_le_bytes().as_slice());
    }
}

#[test]
fn a_ticket_names_its_consistency() {
    let token = || Some(ConsistencyToken { entries: vec![(7, 3, 9)] });
    assert!(matches!(ticket_consistency(&ticket(), token()), Ok(ReadConsistency::Pinned { manifest_version: 4, .. })));
    assert!(ticket_consistency(&ticket(), None).is_err());
    let free = statement_ticket("n".to_string(), "q".to_string(), None, None);
    assert!(matches!(ticket_consistency(&free, None), Ok(ReadConsistency::Strong)));
    let pinned = statement_ticket("n".to_string(), "q".to_string(), None, Some(4));
    assert!(ticket_consistency(&pinned, None).is_err());
    let at_least = statement_ticket("n".to_string(), "q".to_string(), Some("t".to_string()), None);
    assert!(matches!(ticket_consistency(&at_least, token()), Ok(ReadConsistency::AtLeast(_))));
}

#[test]
fn metadata_pins_a_manifest_with_a_token() {
    let token = || Some(ConsistencyToken { entries: vec![] });
    let text = |s: &str| Header::Text(s.to_string());
    assert!(matches!(metadata_consistency(None, &Header::Absent), Ok(ReadConsistency::Strong)));
    assert!(matches!(metadata_consistency(token(), &Header::Absent), Ok(ReadConsistency::AtLeast(_))));
    assert!(matches!(metadata_consistency(token(), &text("12")), Ok(ReadConsistency::Pinned { manifest_version: 12, .. })));
    for pin in [text("012"), text("+1"), text(""), Header::Unreadable] {
        assert_eq!(
            metadata_consistency(token(), &pin).unwrap_err().message(),
            "invalid argument: operon-pin-manifest needs a canonical manifest version and operon-consistency-token"
        );
    }
    assert!(statement_read(None, &text("1")).is_err());
    assert_eq!(statement_read(token(), &text("1")).unwrap().1, Some(1));
    assert_eq!(namespace_of(&text("n")), "n");
    assert_eq!(namespace_of(&text("")), "default");
    assert_eq!(namespace_of(&Header::Unreadable), "default");
    assert_eq!(id_type_of(&text("u64")).as_deref(), Some("u64"));
    assert_eq!(id_type_of(&Header::Absent), None);
    assert_eq!(namespaces(names(&["a", "b"]), Some("b")), vec!["b"]);
    assert_eq!(namespaces(names(&["a", "b"]), None), vec!["a", "b"]);
}

#[test]
fn configurations_are_checked() {
    let config = FlightConfig::default();
    assert!(config.validate(10_000).is_ok());
    let none = FlightConfig { put_chunk_rows: 0, ..config };
    assert_eq!(
        none.validate(10).unwrap_err(),
        "flight.put_chunk_rows must be 1..=10, got 0"
    );
    let empty = FlightConfig { max_message_bytes: 0, put_chunk_rows: 1, ..config };
    assert_eq!(empty.validate(10).unwrap_err(), "flight.max_message_bytes must be at least 1");
}

#[test]
fn errors_have_a_status() {
    let code = |e: ServiceError| status_of(&e).code;
    assert_eq!(code(ServiceError::NotFound { kind: "pin", name: "x".to_string() }), StatusCode::NotFound);
    assert_eq!(code(ServiceError::AlreadyExists("x".to_string())), StatusCode::AlreadyExists);
    assert_eq!(code(ServiceError::InvalidArgument("x".to_string())), StatusCode::InvalidArgument);
    assert_eq!(code(ServiceError::Unavailable("x".to_string())), StatusCode::Unavailable);
    assert_eq!(code(ServiceError::Timeout), StatusCode::DeadlineExceeded);
    assert_eq!(code(ServiceError::Internal("x".to_string())), StatusCode::Internal);
    assert_eq!(status_of(&ServiceError::Timeout).message, "timed out");
    assert!(fallback_refusal("").is_none());
    assert_eq!(
        fallback_refusal("u").unwrap().message,
        "do_put: The defined request is invalid: u"
    );
    assert_eq!((rows_answered(3), rows_answered(u64::MAX)), (3, i64::MAX));
    assert!(schema_to_load(IngestAction::Create, Some(schema())).is_none());
    assert!(schema_to_load(IngestAction::Append, Some(schema())).is_some());
}

#[test]
fn paths_name_put_targets() {
    let target = |p: &[&str]| put_target_from_path(&names(p));
    assert!(matches!(target(&["collections", "c"]), Ok(PutTarget::Collection { name }) if name == "c"));
    assert!(matches!(target(&["streams", "s"]), Ok(PutTarget::Stream { partition: None, .. })));
    assert!(matches!(target(&["streams", "s", "7"]), Ok(PutTarget::Stream { partition: Some(7), .. })));
    for wrong in [vec![], vec!["x", "c"], vec!["collections", ""], vec!["streams", "s", "07"]] {
        assert!(target(&wrong).is_err());
    }
    assert_eq!(
        target(&["x", "c\""]).unwrap_err().message(),
        "invalid argument: unknown DoPut path [\"x\", \"c\\\"\"]: use [\"collections\", name] or [\"streams\", name(, partition)]"
    );
}

fn command(schema: Option<&str>, catalog: Option<&str>) -> IngestCommand {
    IngestCommand {
        temporary: false,
        in_transaction: false,
        catalog: catalog.map(str::to_string),
        schema: schema.map(str::to_string),
        table: "t".to_string(),
    }
}

#[test]
fn ingest_commands_name_put_targets() {
    let (ns, target) = put_target_from_ingest(&command(None, None), "d").unwrap();
    assert!(ns == "d" && matches!(target, PutTarget::Collection { name } if name == "t"));
    let (ns, target) = put_target_from_ingest(&command(Some("streams"), Some("n")), "d").unwrap();
    assert!(ns == "n" && matches!(target, PutTarget::Stream { partition: None, .. }));
    let refused = |c: IngestCommand| put_target_from_ingest(&c, "d").unwrap_err().message();
    assert_eq!(
        refused(command(Some("x"), None)),
        "invalid argument: unknown schema x: use collections or streams"
    );
    assert_eq!(
        refused(IngestCommand { temporary: true, ..command(None, None) }),
        "invalid argument: temporary tables are not supported"
    );
    assert_eq!(
        refused(IngestCommand { in_transaction: true, ..command(None, None) }),
        "invalid argument: transactions are not supported"
    );
}

#[test]
fn table_options_decide_between_append_and_create() {
    let c = PutTarget::Collection { name: "c".to_string() };
    let s = PutTarget::Stream { name: "s".to_string(), partition: None };
    let with = |if_exists, if_not_exist| Some(TableOptions { if_exists, if_not_exist });
    assert_eq!(ingest_action(None, &c, true).unwrap(), IngestAction::Append);
    assert_eq!(ingest_action(with(0, 1), &c, false).unwrap(), IngestAction::Create);
    assert_eq!(ingest_action(with(99, 99), &c, true).unwrap(), IngestAction::Append);
    let refused = |o, t: &PutTarget, e| ingest_action(o, t, e).unwrap_err().message();
    assert_eq!(refused(with(1, 0), &c, true), "already exists: c");
    assert_eq!(refused(None, &c, false), "collection \"c\" not found");
    assert_eq!(refused(None, &s, false), "object \"s\" not found");
    let missing = ingest_action(None, &s, false).unwrap_err();
    let read = ServiceError::from_body(&missing.to_body()).unwrap();
    assert!(matches!(read, ServiceError::NotFound { kind: "object", name } if name == "s"));
    assert_eq!(
        refused(with(0, 1), &s, false),
        "invalid argument: create streams through the native API"
    );
    assert_eq!(
        refused(with(3, 0), &c, true),
        "invalid argument: replace is not supported: drop the collection through the native API, then ingest with create"
    );
}

#[test]
fn id_types_are_declared() {
    assert_eq!(IdType::parse("uuid").unwrap(), IdType::Uuid);
    assert_eq!(
        IdType::parse("int").unwrap_err().message(),
        "invalid argument: operon-id-type must be str, u64 or uuid, got \"int\""
    );
    let mut f = field("_id", DataType::Utf8);
    assert_eq!(IdType::of_schema(&vec![field("_id", DataType::Utf8)], &Some("u64".to_string())).unwrap(), IdType::U64);
    f.id_type = Some("uuid".to_string());
    assert_eq!(IdType::of_schema(&vec![f], &Some("u64".to_string())).unwrap(), IdType::Uuid);
    assert_eq!(IdType::of_schema(&vec![], &None).unwrap(), IdType::Str);
}

#[test]
fn column_types_have_shapes() {
    assert!(is_vector(&vector_type(3)) && is_vector(&DataType::List(Box::new(DataType::Float32))));
    assert!(!is_vector(&DataType::List(Box::new(DataType::Int32))));
    assert!(is_sparse(&sparse_type()) && !is_sparse(&DataType::Utf8));
    assert!(is_headers(&headers_type()) && !is_headers(&sparse_type()));
    assert!(is_string(&DataType::Utf8View) && !is_string(&DataType::Binary));
    assert!(is_bytes(&DataType::LargeBinary) && is_bytes(&DataType::Utf8));
}

#[test]
fn keys_are_read_from_id_columns() {
    let key = |c: IdColumn, cell: Cell| c.read(&cell);
    assert!(matches!(key(IdColumn::Unsigned, Cell::Unsigned(3)), Ok(PrimaryKey::U64(3))));
    assert!(matches!(key(IdColumn::Signed, Cell::Signed(3)), Ok(PrimaryKey::U64(3))));
    assert_eq!(
        key(IdColumn::Signed, Cell::Signed(-3)).unwrap_err(),
        "a primary key cannot be negative, got -3"
    );
    assert_eq!(key(IdColumn::Signed, Cell::Null).unwrap_err(), "the primary key is null");
    assert!(matches!(key(IdColumn::Binary16, Cell::Bytes(vec![7; 16])), Ok(PrimaryKey::Uuid(b)) if b == [7; 16]));
    assert_eq!(key(IdColumn::Binary16, Cell::Bytes(vec![7; 3])).unwrap_err(), "not 16 bytes");
    let text = |t: IdType, s: &str| key(IdColumn::Text(t), Cell::Text(s.to_string()));
    assert!(matches!(text(IdType::Str, "05"), Ok(PrimaryKey::Str(s)) if s == "05"));
    assert!(matches!(text(IdType::U64, "5"), Ok(PrimaryKey::U64(5))));
    assert_eq!(text(IdType::U64, "05").unwrap_err(), "\"05\" is not a canonical decimal u64");
    assert_eq!(text(IdType::Uuid, "x").unwrap_err(), "\"x\" is not a UUID");
    let bare = "0102030405060708090a0b0c0d0e0f10";
    let bytes = [1, 2, 3, 4, 5, 6, 7, 8, 9, 10, 11, 12, 13, 14, 15, 16];
    assert_eq!(parse_any_uuid(bare), Some(bytes));
    assert_eq!(parse_any_uuid("01020304-0506-0708-090a-0b0c0d0e0f10"), Some(bytes));
    assert_eq!(parse_any_uuid("01020304"), None);
}

#[test]
fn cells_are_json() {
    let text = |c: Cell| value_to_json(&c).text();
    assert_eq!(text(Cell::Null), "null");
    assert_eq!(text(Cell::Signed(-4)), "-4");
    assert_eq!(text(Cell::Bytes(vec![0, 255])), "\"AP8=\"");
    assert_eq!(text(Cell::Bytes(vec![])), "\"\"");
    assert_eq!(text(Cell::Bytes(vec![251])), "\"+w==\"");
    assert_eq!(text(Cell::Bytes(vec![255, 239, 190, 77])), "\"/+++TQ==\"");
    assert_eq!(text(Cell::Bytes(vec![105, 183, 29])), "\"abcd\"");
    assert_eq!(text(Cell::NonFinite), "null");
    assert_eq!(text(Cell::Date32 { days: 19_782, shown: None }), "\"2024-02-29\"");
    assert_eq!(
        text(Cell::Timestamp { value: 1, unit: TimeUnit::Millisecond, shown: None }),
        "\"1970-01-01T00:00:00.001Z\""
    );
    assert_eq!(
        text(Cell::Timestamp { value: -1, unit: TimeUnit::Second, shown: None }),
        "\"1969-12-31T23:59:59Z\""
    );
    assert_eq!(
        text(Cell::Struct(vec![("a".to_string(), Cell::List(vec![Cell::Bool(true)]))])),
        "{\"a\":[true]}"
    );
    assert!(non_finite(&Cell::List(vec![Cell::Null, Cell::NonFinite])));
    assert!(!non_finite(&Cell::Bool(true)));
    assert_eq!(timestamp_ms(-1_999, TimeUnit::Microsecond), -1);
    assert_eq!(timestamp_ms(1_999, TimeUnit::Microsecond), 1);
    assert_eq!(timestamp_ms(5, TimeUnit::Second), 5_000);
}

#[test]
fn vectors_and_headers_are_read_from_cells() {
    assert_eq!(dense_at(&DenseCell::Null).unwrap(), None);
    assert_eq!(dense_at(&DenseCell::NotList).unwrap_err(), "not a list");
    assert_eq!(
        dense_at(&DenseCell::Elements(vec![Element::Finite(1), Element::Finite(2)])).unwrap(),
        Some(vec![1, 2])
    );
    assert_eq!(
        dense_at(&DenseCell::Elements(vec![Element::Finite(1), Element::Null])).unwrap_err(),
        "element 1 is null"
    );
    assert_eq!(
        dense_at(&DenseCell::Elements(vec![Element::NonFinite])).unwrap_err(),
        "element 0 is not finite"
    );
    let sparse = |indices, values, refusal: Option<&str>| {
        sparse_at(&SparseCell {
            is_null: false,
            indices,
            values,
            refusal: refusal.map(str::to_string),
        })
    };
    let items = |v: Vec<Option<i64>>| ListCell::Items(v);
    let one = sparse(items(vec![Some(3)]), ListCell::Items(vec![Some(9)]), None).unwrap().unwrap();
    assert_eq!((one.indices, one.values), (vec![3], vec![9]));
    assert_eq!(
        sparse(ListCell::Missing, ListCell::Items(vec![]), None).unwrap_err(),
        "no indices"
    );
    assert_eq!(
        sparse(items(vec![Some(-1)]), ListCell::Items(vec![]), None).unwrap_err(),
        "index -1 is not a u32"
    );
    assert_eq!(
        sparse(items(vec![]), ListCell::Items(vec![None]), None).unwrap_err(),
        "value 0 is null"
    );
    assert_eq!(
        sparse(items(vec![]), ListCell::Items(vec![]), Some("odd")).unwrap_err(),
        "odd"
    );
    let entry = |key: Option<&str>| HeaderCell::Entry {
        key: key.map(str::to_string),
        value: Some(vec![1]),
    };
    let read = headers_at(&HeadersCell::Entries(vec![entry(Some("k"))])).unwrap();
    assert_eq!(read, vec![("k".to_string(), Some(vec![1]))]);
    assert_eq!(
        headers_at(&HeadersCell::Entries(vec![entry(None)])).unwrap_err(),
        "header 0 has a null key"
    );
    assert_eq!(headers_at(&HeadersCell::NoKey).unwrap_err(), "no key");
    assert!(headers_at(&HeadersCell::Null).unwrap().is_empty());
}

fn put_fields() -> Vec<Field> {
    vec![
        field("_id", DataType::UInt64),
        field("v", vector_type(2)),
        field("s", sparse_type()),
        field("_score", DataType::Other),
        field("title", DataType::Utf8),
    ]
}

fn put_batch() -> RecordBatch {
    RecordBatch {
        rows: 1,
        columns: vec![
            ColumnCells::Values(vec![Cell::Unsigned(8)]),
            ColumnCells::Dense(vec![DenseCell::Elements(vec![Element::Finite(4), Element::Finite(5)])]),
            ColumnCells::Sparse(vec![SparseCell {
                is_null: true,
                indices: ListCell::Null,
                values: ListCell::Null,
                refusal: None,
            }]),
            ColumnCells::Values(vec![Cell::Null]),
            ColumnCells::Values(vec![Cell::Text("t".to_string())]),
        ],
    }
}

#[test]
fn rows_become_documents() {
    let mapper = CollectionBatchMapper::new(&put_fields(), &schema(), IdType::Str).unwrap();
    let docs = mapper.map(&put_batch(), &vec![None]).unwrap();
    assert!(docs[0].pk.same(&PrimaryKey::U64(8)));
    assert_eq!(docs[0].vectors, vec![("v".to_string(), vec![4, 5])]);
    assert!(docs[0].sparse_vectors.is_empty());
    assert_eq!(docs[0].source.len(), 1);
    assert_eq!(docs[0].source[0].0, "title");
    let err = mapper.map(&put_batch(), &vec![Some("too long".to_string())]).err().unwrap();
    assert_eq!((err.row, err.column.as_str(), err.message.as_str()), (0, "_id", "too long"));
    let mut few = put_batch();
    few.columns.pop();
    assert_eq!(
        mapper.map(&few, &vec![None]).err().unwrap().message,
        "the batch has 4 columns, the schema 5"
    );
    let mut odd = put_batch();
    odd.columns[4] = ColumnCells::Values(vec![Cell::NonFinite]);
    assert_eq!(mapper.map(&odd, &vec![None]).err().unwrap().message, "a non-finite float");
}

#[test]
fn a_source_column_holds_the_document() {
    let fields = vec![field("_id", DataType::Utf8), field("_source", DataType::Utf8)];
    let mapper = CollectionBatchMapper::new(&fields, &schema(), IdType::Str).unwrap();
    let with = |cell: SourceCell| {
        mapper.map(
            &RecordBatch {
                rows: 1,
                columns: vec![
                    ColumnCells::Values(vec![Cell::Text("k".to_string())]),
                    ColumnCells::Sources(vec![cell]),
                ],
            },
            &vec![None],
        )
    };
    let object = Json::Object(vec![("a".to_string(), Json::Number(Number::Unsigned(1)))]);
    assert_eq!(with(SourceCell::Parsed(object)).unwrap()[0].source.len(), 1);
    assert!(with(SourceCell::Null).unwrap()[0].source.is_empty());
    assert_eq!(
        with(SourceCell::Parsed(Json::Null)).err().unwrap().message,
        "not a JSON object"
    );
    assert_eq!(with(SourceCell::Broken("eof".to_string())).err().unwrap().message, "not JSON: eof");
}

#[test]
fn wrong_columns_are_refused() {
    let refused = |fields: Vec<Field>| {
        CollectionBatchMapper::new(&fields, &schema(), IdType::Str).unwrap_err().message()
    };
    let id = || field("_id", DataType::Utf8);
    assert_eq!(refused(vec![]), "invalid argument: a collection put needs an _id column");
    assert_eq!(refused(vec![id(), id()]), "invalid argument: duplicate column _id");
    assert_eq!(
        refused(vec![field("_id", DataType::Other)]),
        "invalid argument: column _id: Shown cannot hold a primary key (use UInt64, Int64, a string or FixedSizeBinary(16))"
    );
    assert_eq!(
        refused(vec![id(), field("v", DataType::Utf8)]),
        "invalid argument: column v: vector \"v\" needs a list of Float32, got Shown"
    );
    assert_eq!(
        refused(vec![id(), field("s", DataType::Utf8)]),
        "invalid argument: column s: sparse vector \"s\" needs Struct<indices: List<UInt32>, values: List<Float32>>, got Shown"
    );
    assert_eq!(
        refused(vec![id(), field("w", vector_type(3))]),
        "invalid argument: column w looks like a vector, but the collection has no vector w"
    );
    assert_eq!(
        refused(vec![id(), field("_source", DataType::Utf8), field("x", DataType::Utf8)]),
        "invalid argument: column x: with a _source column, other columns must be vectors or schema fields"
    );
}

#[test]
fn a_schema_is_derived_from_columns() {
    let defaults = NewSchema { version: 1, hnsw: hnsw(), max_fields: 1_000 };
    let fields = vec![
        field("_id", DataType::Utf8),
        field("_vector", vector_type(3)),
        field("sp", sparse_type()),
        field("text", DataType::Utf8),
    ];
    let made = schema_from_arrow(&fields, &defaults).unwrap();
    assert_eq!(made.vectors.len(), 1);
    assert_eq!((made.vectors[0].name.as_str(), made.vectors[0].dim), ("", 3));
    assert_eq!(made.sparse_vectors[0].name, "sp");
    assert_eq!(made.dynamic, DynamicMapping::Mapped);
    assert!(made.fields.is_empty());
    assert_eq!(
        schema_from_arrow(&vec![field("_id", DataType::Utf8), field("v", vector_type(-1))], &defaults)
            .unwrap_err()
            .message(),
        "invalid argument: column v: dimension -1"
    );
    assert!(schema_from_arrow(&vec![], &defaults).is_err());
    assert_eq!(
        invalid_collection("why").message(),
        "invalid argument: the Arrow schema makes an invalid collection: why"
    );
}

fn stream_fields() -> Vec<Field> {
    vec![
        field("key", DataType::Utf8),
        field("value", DataType::Binary),
        field("headers", headers_type()),
        field("timestamp", DataType::Timestamp(TimeUnit::Microsecond)),
    ]
}

#[test]
fn rows_become_records() {
    let mapper = StreamBatchMapper::new(&stream_fields(), None, 4).unwrap();
    let batch = RecordBatch {
        rows: 2,
        columns: vec![
            ColumnCells::Blobs(vec![Some(b"a".to_vec()), Some(b"b".to_vec())]),
            ColumnCells::Blobs(vec![Some(vec![1]), None]),
            ColumnCells::Headers(vec![HeadersCell::Null, HeadersCell::Entries(vec![])]),
            ColumnCells::Times(vec![TimeCell::Unit(2_500, TimeUnit::Microsecond), TimeCell::Null]),
        ],
    };
    let records = mapper.map(&batch).unwrap();
    assert_eq!(records[0].1.timestamp_ms, 2);
    assert_eq!(records[1].1.timestamp_ms, -1);
    assert_eq!(records[1].1.value, None);
    // The partition is the key's hash.
    for (n, key) in [b"a", b"b"].iter().enumerate() {
        let hash = xxhash_rust::xxh3::xxh3_64(key.as_slice());
        assert_eq!(u64::from(records[n].0), hash % 4);
    }
    assert_eq!(choose_partition(Some(3), Some(9), 4), Some(3));
    assert_eq!(choose_partition(None, None, 1), Some(0));
    assert_eq!(choose_partition(None, None, 4), None);
}

#[test]
fn stream_columns_are_checked() {
    let refused = |fields: Vec<Field>, fixed| {
        StreamBatchMapper::new(&fields, fixed, 4).unwrap_err().message()
    };
    assert_eq!(
        refused(vec![field("x", DataType::Utf8)], None),
        "invalid argument: column x: a stream put takes the columns key, value, headers, timestamp and partition"
    );
    assert_eq!(
        refused(vec![field("key", DataType::Int64)], None),
        "invalid argument: column key: Shown is not a valid type for it"
    );
    assert_eq!(
        refused(vec![field("partition", DataType::UInt32)], Some(1)),
        "invalid argument: a partition column and a partition in the descriptor path cannot be combined"
    );
    assert_eq!(
        refused(vec![], Some(4)),
        "invalid argument: partition 4 is out of range: the stream has 4"
    );
    let mapper = StreamBatchMapper::new(&vec![field("partition", DataType::Int32)], None, 4).unwrap();
    let with = |p: Option<i64>| {
        mapper.map(&RecordBatch { rows: 1, columns: vec![ColumnCells::Numbers(vec![p])] })
    };
    assert_eq!(with(Some(3)).unwrap()[0].0, 3);
    assert_eq!(with(None).unwrap_err().message, "the partition is null");
    assert_eq!(
        with(Some(-1)).unwrap_err().message,
        "partition -1 is out of range: the stream has 4"
    );
    let keyless = StreamBatchMapper::new(&vec![field("value", DataType::Utf8)], None, 4).unwrap();
    let batch = RecordBatch { rows: 1, columns: vec![ColumnCells::Blobs(vec![None])] };
    assert_eq!(
        keyless.map(&batch).unwrap_err().message,
        "a null key needs a partition column"
    );
}

#[test]
fn batches_are_written_in_chunks() {
    assert_eq!(chunk_ranges(5, 2, 100), vec![(0, 2), (2, 4), (4, 5)]);
    assert_eq!(chunk_ranges(5, 0, 100).len(), 5);
    assert_eq!(chunk_ranges(5, 9, 3), vec![(0, 3), (3, 5)]);
    assert!(chunk_ranges(0, 3, 3).is_empty());
    let mut put = Put::new(2);
    assert!(matches!(put.on_message(Received::Schema), Ok(PutNext::MakeMapper)));
    assert!(matches!(put.on_message(Received::Batch), Err(PutError::Service(e)) if e.message() == "invalid argument: DoPut: a record batch before the schema"));
    put.mapper_made();
    assert!(matches!(put.on_message(Received::Schema), Err(PutError::Service(_))));
    assert!(matches!(put.on_message(Received::Batch), Ok(PutNext::MapBatch)));
    put.begin_batch(3);
    assert_eq!(put.next_chunk(true, false, 10).unwrap(), ChunkStep::Write { start: 0, end: 2 });
    put.chunk_written(2, Ok(vec![None, None])).unwrap();
    assert_eq!(put.next_chunk(false, false, 10).unwrap(), ChunkStep::Leave);
    assert!(put.next_chunk(true, true, 10).is_err());
    assert_eq!(put.next_chunk(true, false, 10).unwrap(), ChunkStep::Write { start: 2, end: 3 });
    let refused = put.chunk_written(3, Ok(vec![Some(ServiceError::InvalidArgument("odd".to_string()))]));
    assert!(matches!(&refused, Err(PutError::Service(e)) if e.message() == "invalid argument: batch 0 row 2: odd"));
    assert_eq!(
        refused.unwrap_err().into_status(put.written).message,
        "invalid argument: batch 0 row 2: odd (2 rows were written before the failure)"
    );
    put.chunk_produced(3);
    assert_eq!(put.next_chunk(true, true, 10).unwrap(), ChunkStep::Done);
    let ack = put.answer("t".to_string(), vec![]);
    assert_eq!((ack.batch, ack.rows), (0, 3));
    assert_eq!(put.answered(true), PutNext::Read);
    assert_eq!((put.batch_no, put.written), (1, 3));
    assert_eq!(put.answered(false), PutNext::Finish);
}

#[test]
fn a_put_ends_with_its_stream() {
    let put = Put::new(1);
    assert!(matches!(put.on_message(Received::Ended), Ok(PutNext::Finish)));
    assert!(matches!(put.on_message(Received::Nothing), Ok(PutNext::Read)));
    match put.on_message(Received::Stopped) {
        Err(PutError::Status(s)) => {
            assert_eq!((s.code, s.message.as_str()), (StatusCode::Unavailable, "the server is shutting down"))
        }
        _ => panic!("stopped"),
    }
    let refused = CallStatus { code: StatusCode::ResourceExhausted, message: "big".to_string() };
    assert!(matches!(put.on_message(Received::Refused(refused)), Err(PutError::Status(s)) if s.message == "big"));
    assert!(matches!(put.on_message(Received::Broken("x".to_string())), Err(PutError::Service(e)) if e.message() == "invalid argument: DoPut: x"));
}

#[test]
fn failures_name_rows() {
    let fault = RowError { row: 3, column: "c".to_string(), message: "m".to_string() };
    assert_eq!(row_error(2, &fault).message(), "invalid argument: batch 2 row 3 column c: m");
    let invalid = |m: &str| ServiceError::InvalidArgument(m.to_string());
    assert_eq!(rewrite_op(invalid("op 4: bad"), 1, 10).message(), "invalid argument: batch 1 row 14: bad");
    assert_eq!(rewrite_op(invalid("bad"), 1, 10).message(), "invalid argument: batch 1: bad");
    assert_eq!(rewrite_op(ServiceError::Timeout, 1, 10).message(), "timed out");
    let rows = vec![(0, vec![5, 7]), (3, vec![6])];
    assert_eq!(
        rewrite_record(invalid("record 1: too large for partition 0"), 2, &rows).message(),
        "invalid argument: batch 2 row 7: too large for partition 0"
    );
    assert_eq!(
        rewrite_record(invalid("record 9: too large for partition 0"), 2, &rows).message(),
        "invalid argument: batch 2: record 9: too large for partition 0"
    );
}

#[test]
fn chunks_are_grouped_by_partition() {
    let record = |n: u8| Record {
        key: Some(vec![n]),
        value: None,
        headers: vec![],
        timestamp_ms: -1,
    };
    let groups = group_chunk(vec![(2, record(0)), (0, record(1)), (2, record(2))], 10);
    assert_eq!(group_rows(&groups), vec![(0, vec![11]), (2, vec![10, 12])]);
    assert_eq!(groups[1].records[1].key, Some(vec![2]));
    let ack = |partition, base_offset, last_offset| AppendAck { stream: 7, partition, base_offset, last_offset };
    let mut offsets = vec![];
    add_offsets(&mut offsets, &ack(2, 5, 6));
    add_offsets(&mut offsets, &ack(0, 1, 1));
    add_offsets(&mut offsets, &ack(2, 7, 9));
    add_offsets(&mut offsets, &ack(1, 4, 4));
    add_offsets(&mut offsets, &ack(2, 3, 4));
    assert_eq!(
        offsets,
        vec![
            PartitionOffsets { partition: 0, base_offset: 1, last_offset: 1 },
            PartitionOffsets { partition: 1, base_offset: 4, last_offset: 4 },
            PartitionOffsets { partition: 2, base_offset: 3, last_offset: 9 }
        ]
    );
    assert_eq!(token_of_acks(&vec![ack(2, 5, 6)]), vec![(7, 2, 7)]);
}

#[test]
fn a_stream_ends_with_its_error_or_its_deadline() {
    assert!(matches!(bounded(StreamEvent::Batch(7)), StreamStep::Batch(7)));
    assert!(matches!(bounded::<u32>(StreamEvent::Ended), StreamStep::End));
    let failed = ServiceError::Internal("broken".to_string());
    assert!(matches!(
        bounded::<u32>(StreamEvent::Failed(failed)),
        StreamStep::Last(ServiceError::Internal(m)) if m == "broken"
    ));
    assert!(matches!(
        bounded::<u32>(StreamEvent::Deadline),
        StreamStep::Last(ServiceError::Timeout)
    ));
}
