//! Documents: fetching, decoding, projecting, sorting and aggregating them,
//! and scoring sparse vectors.

use operon_query::collection::{
    CollectionSchema, DynamicMapping, FieldKind, FieldSpec, HnswParams, ResolvedField,
    SparseModifier, SparseVectorSpec, VectorElement, VectorIndexSpec, VectorSpec,
};
use operon_query::exec::aggs::{
    agg_error, check_fast_fields, fast_warmups, rewrite, source_option, strings, MaskedSegment,
    TopHitsOptions,
};
use operon_query::exec::columns::{
    ranked, sort_fields, sort_value, DocCells, FieldCells, TermCell,
};
use operon_query::exec::doc_fetch::{
    check_found, distinct_rows, durable_rows, project_doc, tail_row, Batch, Column, DenseCell,
    Doc, FetchColumns, FetchedRow, LanceColumns, ListCell, SparseCell, SystemColumns, TailEntry,
};
use operon_query::error::ServiceError;
use operon_query::exec::fetch::{fetched_to_batch, rows_in_order};
use operon_query::exec::filter_bitmap::{
    add_rows, join_rows, matches_all, row_batches, BATCH_ROWS,
};
use operon_query::exec::hits::hit;
use operon_query::exec::mask::{misses, RowMask};
use operon_query::exec::order::EffectiveSort;
use operon_query::exec::project::{
    fetch_columns, field_values, filter_source, glob, index_value, json_scalar, json_source_path,
    matches_path, stored_doc, FieldSource, IndexValue,
};
use operon_query::exec::schema::Ranked;
use operon_query::exec::sparse::{
    add_scored, candidates, check_weights, scored_candidates, sparse_spec, weights_to_read,
    Admitted, Posting, ScoredDoc,
};
use operon_query::exec::sparse_unit::{scored_docs, unit_hits, weights_at};
use operon_query::exec::top_hits::{fill_hits, hit_rowid, hit_rows, top_hit, HitContext, HitRow};
use operon_query::exec::topk::TopK;
use operon_query::exec::vector_rows::{batch_rows, hot_rows, keep_hits, VectorColumn, VectorRow};
use operon_query::ir::{
    Distance, MissingOrder, Projection, SortOrder, SourceFilter, SparseVector,
};
use operon_query::json::value::{Json, Number};
use operon_query::key::PrimaryKey;
use operon_query::query::Query;
use operon_query::sparse::{
    corpus_count, counted_terms, shared_places, total_counts, SparseStats,
};
use operon_query::values::{FieldValue, SortValue};
use roaring::{RoaringBitmap, RoaringTreemap};
use serde_json::Value;

fn of(v: &Value) -> Json {
    match v {
        Value::Null => Json::Null,
        Value::Bool(b) => Json::Bool(*b),
        Value::Number(n) => Json::Number(if let Some(u) = n.as_u64() {
            Number::Unsigned(u)
        } else if let Some(i) = n.as_i64() {
            Number::Negative(i)
        } else {
            Number::Float { bits: n.as_f64().unwrap().to_bits(), text: n.to_string() }
        }),
        Value::String(s) => Json::Text(s.clone()),
        Value::Array(items) => Json::Array(items.iter().map(of).collect()),
        Value::Object(map) => {
            Json::Object(map.iter().map(|(k, v)| (k.clone(), of(v))).collect())
        }
    }
}

fn j(text: &str) -> Json {
    of(&serde_json::from_str(text).unwrap())
}

fn entries(text: &str) -> Vec<(String, Json)> {
    match j(text) {
        Json::Object(e) => e,
        _ => panic!("an object"),
    }
}

fn shown(e: Vec<(String, Json)>) -> String {
    Json::Object(e).text()
}

fn names(list: &[&str]) -> Vec<String> {
    list.iter().map(|s| s.to_string()).collect()
}

fn spec(name: &str, kind: FieldKind, fast: bool) -> FieldSpec {
    FieldSpec {
        name: name.to_string(),
        source_path: name.to_string(),
        kind,
        indexed: true,
        fast,
        ignore_malformed: false,
    }
}

fn schema() -> CollectionSchema {
    CollectionSchema {
        version: 1,
        fields: vec![],
        vectors: vec![VectorSpec {
            name: "v".to_string(),
            dim: 2,
            distance: Distance::Cosine,
            element: VectorElement::F32,
            index: VectorIndexSpec::Auto,
            hnsw: HnswParams {
                m: 16,
                ef_construct: 100,
                full_scan_threshold_kb: 10_000,
                payload_m: None,
                on_disk: false,
            },
            quantization: None,
        }],
        sparse_vectors: vec![
            SparseVectorSpec { name: "s".to_string(), modifier: SparseModifier::Plain },
            SparseVectorSpec { name: "i".to_string(), modifier: SparseModifier::Idf },
        ],
        dynamic: DynamicMapping::Ignore,
        max_fields: 10,
        annotations: vec![],
    }
}

fn system() -> SystemColumns {
    SystemColumns {
        row_id: "_rowid".to_string(),
        pk: "_pk".to_string(),
        source: "_source".to_string(),
        partition: "_part".to_string(),
        offset: "_off".to_string(),
    }
}

fn rows(list: &[u64]) -> RoaringTreemap {
    list.iter().copied().collect()
}

fn docs(list: &[u32]) -> RoaringBitmap {
    list.iter().copied().collect()
}

fn sparse_vector() -> SparseVector {
    SparseVector { indices: vec![3], values: vec![1f32.to_bits()] }
}

fn row(source: Option<&str>) -> FetchedRow {
    FetchedRow {
        row_id: 9,
        pk: PrimaryKey::U64(1),
        source: source.map(entries),
        vectors: vec![("v".to_string(), vec![0, 0])],
        sparse_vectors: vec![],
        seq_no: 5,
        partition: 2,
    }
}

#[test]
fn globs_match_any_run() {
    let g = |p: &str, t: &str| {
        let p: Vec<char> = p.chars().collect();
        let t: Vec<char> = t.chars().collect();
        glob(&p, &t)
    };
    assert!(g("a*c", "abbc") && g("*", "") && g("a*b*c", "axbxbxc") && g("é*", "éa"));
    assert!(!g("a*c", "abcd") && !g("", "a") && g("a", "a"));
    assert!(matches_path(&names(&["a"]), "a.b") && !matches_path(&names(&["a"]), "ab"));
    assert!(matches_path(&names(&["x", "a.*"]), "a.b.c"));
}

#[test]
fn sources_are_cut_to_paths() {
    let source = entries("{\"a\":{\"b\":1,\"c\":[{\"d\":2,\"e\":3}]},\"f\":{},\"g\":[]}");
    let paths = |i: &[&str], e: &[&str]| SourceFilter::Paths {
        include_paths: names(i),
        exclude_paths: names(e),
    };
    let cut = |f: &SourceFilter| filter_source(&source, f).map(shown);
    assert_eq!(cut(&SourceFilter::Nothing), None);
    assert_eq!(
        cut(&SourceFilter::All).unwrap(),
        "{\"a\":{\"b\":1,\"c\":[{\"d\":2,\"e\":3}]},\"f\":{},\"g\":[]}"
    );
    assert_eq!(cut(&paths(&["a.c"], &["*.e"])).unwrap(), "{\"a\":{\"c\":[{\"d\":2}]}}");
    assert_eq!(cut(&paths(&[], &["a"])).unwrap(), "{\"f\":{},\"g\":[]}");
    assert_eq!(cut(&paths(&["zz"], &[])).unwrap(), "{}");
}

#[test]
fn field_values_are_typed() {
    assert!(matches!(index_value(IndexValue::Date(2)), FieldValue::Date(2_000)));
    assert!(matches!(index_value(IndexValue::Date(i64::MAX)), FieldValue::Date(i64::MAX)));
    let uuid = index_value(IndexValue::Uuid([0; 16]));
    assert!(matches!(uuid, FieldValue::Str(s) if s == "00000000-0000-0000-0000-000000000000"));
    assert!(matches!(json_scalar(&j("1.5")), Some(FieldValue::F64(_))));
    assert!(json_scalar(&j("[]")).is_none());
    assert_eq!(json_source_path("", "a.b"), "a.b");
    assert_eq!(json_source_path("x", "a.b"), "x.a.b");
    let found = field_values(
        &names(&["a", "b", "c"]),
        vec![
            FieldSource::Typed(vec![IndexValue::I64(1)]),
            FieldSource::Unknown,
            FieldSource::Json(vec![j("null"), j("true")]),
        ],
    );
    let got: Vec<(&str, usize)> = found.iter().map(|(n, v)| (n.as_str(), v.len())).collect();
    assert_eq!(got, vec![("a", 1), ("c", 1)]);
    let one = |n| FieldSource::Typed(vec![IndexValue::I64(n)]);
    let found = field_values(&names(&["b", "a", "b"]), vec![one(1), one(2), one(3)]);
    assert!(matches!(
        found.as_slice(),
        [(a, x), (b, y)] if a == "a" && b == "b"
            && matches!(x[0], FieldValue::I64(2)) && matches!(y[0], FieldValue::I64(3))
    ));
}

#[test]
fn a_projection_says_what_is_fetched() {
    let select = |source: SourceFilter, vectors: &[&str], fields: &[&str]| Projection {
        source,
        vectors: names(vectors),
        fields: names(fields),
    };
    let c = fetch_columns(&schema(), &select(SourceFilter::Nothing, &["i", "v", "v"], &[]), false);
    let c = c.unwrap();
    assert_eq!((c.source, c.vectors, c.sparse), (false, vec![0], vec![1]));
    assert!(fetch_columns(&schema(), &select(SourceFilter::Nothing, &[], &["f"]), false).unwrap().source);
    assert!(fetch_columns(&schema(), &select(SourceFilter::Nothing, &[], &[]), true).unwrap().source);
    assert_eq!(
        fetch_columns(&schema(), &select(SourceFilter::All, &["x"], &[]), false)
            .unwrap_err()
            .message(),
        "invalid argument: unknown vector x"
    );
    let d = stored_doc(
        row(Some("{\"a\":1}")),
        &select(SourceFilter::Nothing, &[], &["a"]),
        vec![FieldSource::Typed(vec![IndexValue::I64(1)])],
    );
    assert!(d.row.source.is_none());
    assert_eq!(d.fields.len(), 1);
    let ranked_hit = Ranked { row_id: 9, pk: PrimaryKey::U64(1), score: 2f32.to_bits(), sort: vec![] };
    let h = hit(&Projection::whole(), &EffectiveSort::by_score(), &ranked_hit, row(Some("{}")), vec![]);
    assert_eq!(h.score, 2f32.to_bits());
    assert_eq!(h.sort_values.len(), 2);
    assert!(matches!(h.sort_values[0], SortValue::F64(b) if b == 2f64.to_bits()));
    assert!(h.source.is_some() && h.fields.is_empty());
}

fn doc() -> Doc {
    Doc {
        row_id: 50,
        pk: PrimaryKey::U64(1),
        source: entries("{\"a\":1}"),
        vectors: vec![("v".to_string(), vec![1, 2])],
        sparse_vectors: vec![("i".to_string(), sparse_vector())],
        seq_no: 7,
        partition: 1,
    }
}

#[test]
fn tail_documents_are_projected() {
    let columns = FetchColumns { source: true, vectors: vec![0, 9], sparse: vec![0, 1] };
    let r = project_doc(&schema(), &doc(), &columns);
    assert_eq!(r.vectors, vec![("v".to_string(), vec![1, 2])]);
    assert_eq!(r.sparse_vectors.len(), 1);
    assert_eq!(r.sparse_vectors[0].0, "i");
    assert_eq!((r.seq_no, r.partition, r.row_id), (7, 1, 50));
    let mut both = doc();
    both.sparse_vectors.push(("s".to_string(), sparse_vector()));
    let r = project_doc(&schema(), &both, &columns);
    let kept: Vec<&str> = r.sparse_vectors.iter().map(|(name, _)| name.as_str()).collect();
    assert_eq!(kept, vec!["i", "s"]);
    let bare = FetchColumns { source: false, vectors: vec![], sparse: vec![] };
    assert!(tail_row(&schema(), 50, &TailEntry::Doc(doc()), &bare).unwrap().source.is_none());
    let refused = |e: TailEntry| match tail_row(&schema(), 50, &e, &bare) {
        Err(e) => e.message(),
        Ok(_) => panic!("found"),
    };
    assert_eq!(refused(TailEntry::Delete), "internal error: tail row 50 is a delete");
    assert_eq!(refused(TailEntry::Missing), "internal error: tail row 50 is not in the view");
}

#[test]
fn wanted_rows_are_found_once() {
    assert_eq!(distinct_rows(vec![3, 1, 3, 2]), vec![1, 2, 3]);
    assert_eq!(durable_rows(&vec![12, 3, 10, 3], 10), vec![3]);
    assert!(check_found(&vec![1, 2], &vec![2, 1], 4).is_ok());
    assert_eq!(
        check_found(&vec![1, 2], &vec![1], 4).unwrap_err().message(),
        "internal error: row 2 is not in lance version 4"
    );
}

fn lance() -> LanceColumns {
    LanceColumns::new(
        &schema(),
        &FetchColumns { source: true, vectors: vec![0], sparse: vec![0, 1] },
        &system(),
        &names(&["_vector_0"]),
        &names(&["_sparse_0", "_sparse_1"]),
        &names(&["_vector_0", "_sparse_1"]),
    )
}

fn batch() -> Batch {
    let cell = |built| Some(SparseCell { indices: ListCell::Right, values: ListCell::Right, built });
    Batch {
        rows: 1,
        columns: vec![
            ("_rowid".to_string(), Column::U64(vec![8])),
            ("_pk".to_string(), Column::Binary(vec![PrimaryKey::U64(3).canonical()])),
            ("_source".to_string(), Column::Sources(vec![Ok(entries("{\"a\":1}"))])),
            ("_part".to_string(), Column::U32(vec![1])),
            ("_off".to_string(), Column::U64(vec![77])),
            ("_vector_0".to_string(), Column::Dense(vec![Some(DenseCell::Floats(vec![4, 5]))])),
            ("_sparse_1".to_string(), Column::Sparse(vec![cell(Ok(sparse_vector()))])),
        ],
    }
}

#[test]
fn stored_vectors_stand_by_name() {
    let sparse = names(&["_sparse_0", "_sparse_1"]);
    let columns = LanceColumns::new(
        &schema(),
        &FetchColumns { source: false, vectors: vec![], sparse: vec![0, 1] },
        &system(),
        &vec![],
        &sparse,
        &sparse,
    );
    let mut stored = batch();
    let cell = SparseCell {
        indices: ListCell::Right,
        values: ListCell::Right,
        built: Ok(SparseVector { indices: vec![9], values: vec![0] }),
    };
    stored.columns.push(("_sparse_0".to_string(), Column::Sparse(vec![Some(cell)])));
    let rows = columns.decode(&stored, &system()).unwrap();
    let got: Vec<(&str, u32)> =
        rows[0].sparse_vectors.iter().map(|(name, v)| (name.as_str(), v.indices[0])).collect();
    assert_eq!(got, vec![("i", 3), ("s", 9)]);
}

#[test]
fn stored_rows_are_decoded() {
    let columns = lance();
    assert_eq!(
        columns.names,
        vec!["_pk", "_source", "_part", "_off", "_vector_0", "_sparse_1"]
    );
    let read = columns.decode(&batch(), &system()).unwrap();
    assert_eq!((read[0].row_id, read[0].seq_no, read[0].partition), (8, 77, 1));
    assert!(read[0].pk.same(&PrimaryKey::U64(3)));
    assert_eq!(read[0].vectors, vec![("v".to_string(), vec![4, 5])]);
    assert_eq!(read[0].sparse_vectors[0].0, "i");
}

#[test]
fn broken_rows_are_named() {
    let refusal = |place: usize, c: Option<Column>| {
        let mut b = batch();
        match c {
            Some(c) => b.columns[place].1 = c,
            None => {
                b.columns.remove(place);
            }
        }
        match lance().decode(&b, &system()) {
            Err(e) => e.message(),
            Ok(_) => panic!("decoded"),
        }
    };
    let internal = |m: &str| format!("internal error: {m}");
    assert_eq!(refusal(0, None), internal("a Lance batch lacks _rowid"));
    assert_eq!(refusal(0, Some(Column::Other)), internal("_rowid is not UInt64"));
    assert_eq!(refusal(1, Some(Column::Other)), internal("_pk is not Binary"));
    assert_eq!(
        refusal(1, Some(Column::Binary(vec![vec![9]]))),
        internal("_pk of row 8: not a canonical key")
    );
    assert_eq!(
        refusal(2, Some(Column::Sources(vec![Err("eof".to_string())]))),
        internal("_source of row 8: eof")
    );
    assert_eq!(refusal(3, Some(Column::Other)), internal("_part is not UInt32"));
    assert_eq!(refusal(5, Some(Column::Other)), internal("_vector_0 is not a FixedSizeList"));
    assert_eq!(
        refusal(5, Some(Column::Dense(vec![Some(DenseCell::Other)]))),
        internal("_vector_0 is not a list of Float32")
    );
    assert_eq!(refusal(6, Some(Column::Other)), internal("_sparse_1 is not a Struct"));
    let sparse = |indices, values, built| {
        Some(Column::Sparse(vec![Some(SparseCell { indices, values, built })]))
    };
    assert_eq!(
        refusal(6, sparse(ListCell::Missing, ListCell::Right, Ok(sparse_vector()))),
        internal("a sparse column lacks list indices")
    );
    assert_eq!(
        refusal(6, sparse(ListCell::Other, ListCell::Right, Ok(sparse_vector()))),
        internal("sparse indices are not UInt32")
    );
    assert_eq!(
        refusal(6, sparse(ListCell::Right, ListCell::Other, Ok(sparse_vector()))),
        internal("sparse values are not Float32")
    );
    assert_eq!(
        refusal(6, sparse(ListCell::Right, ListCell::Right, Err("odd".to_string()))),
        internal("a stored sparse vector: odd")
    );
}

#[test]
fn a_sort_picks_the_smallest_or_largest_value() {
    let ints = FieldCells::I64(vec![3, 1, 2]);
    assert!(matches!(sort_value(&ints, SortOrder::Asc), SortValue::I64(1)));
    assert!(matches!(sort_value(&ints, SortOrder::Desc), SortValue::I64(3)));
    let nan = f64::NAN.to_bits();
    let floats = FieldCells::F64(vec![2f64.to_bits(), nan, 1f64.to_bits()]);
    assert!(matches!(sort_value(&floats, SortOrder::Asc), SortValue::F64(b) if b == 1f64.to_bits()));
    assert!(matches!(sort_value(&FieldCells::Missing, SortOrder::Asc), SortValue::Null));
    assert!(matches!(sort_value(&FieldCells::Bool(vec![false, true]), SortOrder::Desc), SortValue::Bool(true)));
    let term = |ord: u64, text: &str| TermCell { ord, text: Some(text.to_string()) };
    let terms = FieldCells::Str(vec![term(5, "b"), term(4, "a")], false);
    assert!(matches!(sort_value(&terms, SortOrder::Asc), SortValue::Str(s) if s == "a"));
    let uuid = "00000000-0000-0000-0000-000000000000";
    let uuids = FieldCells::Str(vec![term(0, uuid)], true);
    assert!(matches!(sort_value(&uuids, SortOrder::Asc), SortValue::Uuid(b) if b == [0; 16]));
    let keys = |n: &str| vec![(n.to_string(), SortOrder::Asc, MissingOrder::Last)];
    let fast = ResolvedField::Plain(spec("a", FieldKind::Uuid, true));
    assert!(sort_fields(&keys("a"), &vec![fast]).unwrap()[0].uuid);
    let refused = |f: ResolvedField| match sort_fields(&keys("a"), &vec![f]) {
        Err(e) => e.message(),
        Ok(_) => panic!("sorted"),
    };
    assert_eq!(
        refused(ResolvedField::Plain(spec("a", FieldKind::I64, false))),
        "invalid argument: sort field a is not a fast field"
    );
    assert_eq!(
        refused(ResolvedField::JsonPath(spec("a", FieldKind::Json, true), "b".to_string())),
        "invalid argument: sorting on JSON paths is not supported in M1"
    );
}

#[test]
fn candidates_need_a_row_and_a_key() {
    let key = Some(PrimaryKey::U64(4).canonical());
    let found = ranked(3, &DocCells { row: Some(9), pk: key.clone() }, 0, vec![]).unwrap();
    assert_eq!(found.row_id, 9);
    let refusal = |row, pk| match ranked(3, &DocCells { row, pk }, 0, vec![]) {
        Err(e) => e.message(),
        Ok(_) => panic!("ranked"),
    };
    assert_eq!(refusal(None, key), "internal error: doc 3 has no _rowid");
    assert_eq!(refusal(Some(1), None), "internal error: doc 3 has no _pk");
    assert_eq!(
        refusal(Some(1), Some(vec![])),
        "internal error: _pk of doc 3: not a canonical key"
    );
}

#[test]
fn filters_collect_unmasked_rows() {
    assert_eq!(BATCH_ROWS, 8_192);
    assert!(matches_all(&Query::MatchAll) && !matches_all(&Query::MatchNone));
    let mut found = rows(&[1]);
    add_rows(&mut found, &vec![(0, Some(5)), (1, Some(6))], &docs(&[1])).unwrap();
    assert_eq!(found, rows(&[1, 5]));
    assert_eq!(
        add_rows(&mut found, &vec![(2, None)], &docs(&[])).unwrap_err().message(),
        "internal error: doc 2 has no _rowid"
    );
}

#[test]
fn aggregations_count_admitted_documents() {
    let all = MaskedSegment { mask: docs(&[1]), allow: None };
    assert!(all.admits(0, None) && !all.admits(1, Some(1)));
    let some = MaskedSegment { mask: docs(&[]), allow: Some(rows(&[7])) };
    assert!(some.admits(0, Some(7)) && !some.admits(0, Some(8)) && !some.admits(0, None));
    assert_eq!(some.admitted(&vec![(0, Some(7)), (1, None), (2, Some(7))]), vec![0, 2]);
    assert_eq!(agg_error(true, "m").message(), "invalid argument: aggregations: m");
    assert_eq!(agg_error(false, "m").message(), "internal error: aggregations: m");
}

#[test]
fn top_hits_options_are_read() {
    assert!(matches!(source_option(None), Ok(SourceFilter::All)));
    assert!(matches!(source_option(Some(&j("false"))), Ok(SourceFilter::Nothing)));
    assert!(matches!(source_option(Some(&j("\"a\""))), Ok(SourceFilter::Paths { include_paths, .. }) if include_paths == vec!["a"]));
    let both = source_option(Some(&j("{\"includes\":\"a\",\"include\":\"b\",\"exclude\":[\"c\"]}")));
    assert!(matches!(both, Ok(SourceFilter::Paths { include_paths, exclude_paths }) if include_paths == vec!["a"] && exclude_paths == vec!["c"]));
    assert_eq!(
        source_option(Some(&j("1"))).unwrap_err().message(),
        "invalid argument: aggregations: top_hits _source must be a bool, a list or an object"
    );
    assert_eq!(
        strings(&j("[1]"), "x").unwrap_err().message(),
        "invalid argument: aggregations: top_hits x must be strings"
    );
    let request = j("{\"g\":{\"terms\":{\"field\":\"f\"},\"aggs\":{\"t\":{\"top_hits\":{\"_source\":false,\"docvalue_fields\":[\"a\"],\"size\":1}}}}}");
    let w = rewrite(&request, "_rowid").unwrap();
    assert_eq!(
        shown(w.request),
        "{\"g\":{\"aggs\":{\"t\":{\"top_hits\":{\"size\":1,\"docvalue_fields\":[\"_rowid\"]}}},\"terms\":{\"field\":\"f\"}}}"
    );
    assert_eq!(w.options[0].0, vec!["g", "t"]);
    assert!(matches!(w.options[0].1.source, SourceFilter::Nothing));
    assert_eq!(w.options[0].1.docvalue_fields, vec!["a"]);
    assert!(rewrite(&j("[]"), "_rowid").is_err());
}

#[test]
fn aggregations_read_fast_fields() {
    let plain = |fast| ResolvedField::Plain(spec("a", FieldKind::I64, fast));
    let path = || ResolvedField::JsonPath(spec("j", FieldKind::Json, true), "x".to_string());
    assert!(check_fast_fields(&names(&["a", "_rowid"]), &vec![plain(true), ResolvedField::Unknown], "_rowid").is_ok());
    assert_eq!(
        check_fast_fields(&names(&["a"]), &vec![plain(false)], "_rowid").unwrap_err().message(),
        "invalid argument: aggregation field a is not a fast field"
    );
    let warm = fast_warmups(&names(&["a", "j.x", "j.y"]), &vec![plain(true), path(), path()], "_rowid");
    let got: Vec<(&str, bool)> = warm.iter().map(|w| (w.name.as_str(), w.with_subfields)).collect();
    assert_eq!(got, vec![("_rowid", false), ("a", false), ("j", true)]);
}

#[test]
fn top_hits_are_filled_with_documents() {
    let request = entries("{\"g\":{\"aggs\":{\"t\":{\"top_hits\":{}}}}}");
    let result = entries(
        "{\"g\":{\"buckets\":[{\"key\":1,\"t\":{\"hits\":[{\"docvalue_fields\":{\"_rowid\":[9]},\"sort\":[1]}]}}]}}",
    );
    assert_eq!(hit_rows(&result, &request, "_rowid").unwrap(), vec![9]);
    let options = || TopHitsOptions { source: SourceFilter::All, docvalue_fields: vec![] };
    let hit_row = || HitRow {
        row_id: 9,
        pk: PrimaryKey::Str("k".to_string()),
        source: Some(entries("{\"a\":1}")),
        fields: vec![],
    };
    let ctx = HitContext { options: vec![(names(&["g", "t"]), options())], rows: vec![hit_row()] };
    assert_eq!(
        shown(fill_hits(&result, &request, "_rowid", &ctx).unwrap()),
        "{\"g\":{\"buckets\":[{\"key\":1,\"t\":{\"hits\":[{\"_id\":\"k\",\"_score\":null,\"_source\":{\"a\":1},\"sort\":[1]}]}}]}}"
    );
    let lost = HitContext { options: vec![(names(&["g", "t"]), options())], rows: vec![] };
    assert_eq!(
        fill_hits(&result, &request, "_rowid", &lost).unwrap_err().message(),
        "internal error: a top_hits row was not fetched"
    );
    let unasked = HitContext { options: vec![], rows: vec![hit_row()] };
    assert_eq!(
        fill_hits(&result, &request, "_rowid", &unasked).unwrap_err().message(),
        "internal error: no top_hits options at [\"g\", \"t\"]"
    );
    assert_eq!(hit_rowid(&j("{\"docvalue_fields\":{\"_rowid\":4}}"), "_rowid").unwrap(), 4);
    assert_eq!(
        hit_rowid(&j("{}"), "_rowid").unwrap_err().message(),
        "internal error: a top_hits hit without _rowid"
    );
    let with_fields = TopHitsOptions { source: SourceFilter::Nothing, docvalue_fields: names(&["a"]) };
    let mut r = hit_row();
    r.fields = entries("{\"a\":[1],\"b\":[2]}");
    assert_eq!(
        top_hit(&j("{}"), &r, &with_fields).text(),
        "{\"_id\":\"k\",\"_score\":null,\"fields\":{\"a\":[1]}}"
    );
}

#[test]
fn sparse_vectors_share_places() {
    assert_eq!(shared_places(&vec![1, 3, 5], &vec![0, 3, 4, 5]), vec![(1, 1), (2, 3)]);
    assert!(shared_places(&vec![1], &vec![]).is_empty());
    assert_eq!(
        corpus_count(&vec![(0, Some(4)), (1, Some(5)), (2, None)], &docs(&[1]), &rows(&[4, 5])),
        1
    );
    assert_eq!(counted_terms(&vec![7, 9], 100), vec![100, 7, 9]);
    assert_eq!(total_counts(&vec![vec![1, 2], vec![10, 20]], 2), vec![11, 22]);
    let stats = SparseStats::of_counts(&vec![100, 7, 9], &vec![50, 3, 4]);
    assert_eq!((stats.n, stats.frequency(7), stats.frequency(9), stats.frequency(1)), (50, 3, 4, 0));
}

#[test]
fn sparse_searches_score_candidates() {
    assert_eq!(sparse_spec(&schema(), "i", true).unwrap(), 1);
    assert_eq!(sparse_spec(&schema(), "s", false).unwrap(), 0);
    assert!(sparse_spec(&schema(), "s", true).is_err());
    assert!(sparse_spec(&schema(), "v", false).is_err());
    assert!(sparse_spec(&schema(), "x", false).is_err());
    assert_eq!(candidates(&vec![vec![3, 1], vec![1, 2]], &docs(&[2])), vec![1, 3]);
    let posting = |doc, row, weights| Posting { doc, row, weights };
    let list = vec![
        posting(1, Some(10), Some(4)),
        posting(2, Some(11), None),
        posting(3, Some(12), Some(4)),
        posting(5, Some(13), Some(2)),
    ];
    let found = scored_candidates(&list, &Some(rows(&[10, 11, 12]))).unwrap();
    assert_eq!(found.iter().map(|a| a.doc).collect::<Vec<_>>(), vec![1, 3]);
    assert_eq!(weights_to_read(&found), vec![4]);
    assert!(scored_candidates(&vec![posting(1, None, Some(4))], &None).is_err());
    assert!(check_weights("w", true, 2, 2).is_ok());
    assert_eq!(
        check_weights("w", true, 2, 1).unwrap_err().message(),
        "internal error: w: a weights ordinal is missing from its dictionary"
    );
    let mut top = TopK::new(1);
    let scored = |score, pk| ScoredDoc { doc: 3, row: 9, score, pk };
    add_scored(&mut top, &scored(None, None)).unwrap();
    let key = Some(PrimaryKey::U64(4).canonical());
    add_scored(&mut top, &scored(Some(1f32.to_bits()), key)).unwrap();
    assert!(add_scored(&mut top, &scored(Some(2f32.to_bits()), None)).is_err());
    add_scored(&mut top, &scored(Some(0), None)).unwrap();
    assert_eq!(top.into_sorted().len(), 1);
}

#[test]
fn a_fetch_keeps_the_order_of_its_rows() {
    let columns = FetchColumns { source: false, vectors: vec![0], sparse: vec![] };
    let fetch = |ids: Vec<u64>, tail: Vec<TailEntry>| {
        let mut late = row(None);
        late.row_id = 3;
        late.seq_no = 99;
        let mut early = row(None);
        early.row_id = 3;
        rows_in_order(&schema(), &ids, 50, &vec![early, late], &tail, &columns)
    };
    let read = fetch(
        vec![50, 3, 3],
        vec![TailEntry::Doc(doc()), TailEntry::Missing, TailEntry::Delete],
    );
    let read: Vec<(u64, u64)> = read.unwrap().iter().map(|r| (r.row_id, r.seq_no)).collect();
    assert_eq!(read, vec![(50, 7), (3, 99), (3, 99)]);
    let error = |ids: Vec<u64>, tail: Vec<TailEntry>| fetch(ids, tail).err().unwrap().message();
    assert_eq!(
        error(vec![3, 4, 50], vec![TailEntry::Missing, TailEntry::Missing, TailEntry::Missing]),
        "internal error: row 4 was not fetched"
    );
    assert_eq!(
        error(vec![50, 4], vec![TailEntry::Delete, TailEntry::Missing]),
        "internal error: tail row 50 is a delete"
    );
}

#[test]
fn fetched_candidates_are_written_as_columns() {
    let candidate = |n: u64| Ranked {
        row_id: n,
        pk: PrimaryKey::U64(n),
        score: 1f32.to_bits(),
        sort: vec![],
    };
    let mut first = row(Some("{\"b\":\"x\",\"a\":[1]}"));
    first.vectors = vec![("v".to_string(), vec![4])];
    first.seq_no = 5;
    first.partition = 2;
    let b = fetched_to_batch(&vec![candidate(8), candidate(9)], &vec![first, row(None)]);
    assert_eq!(b.ranked.row_ids, vec![8, 9]);
    assert_eq!(b.ranked.pks[1], Some(PrimaryKey::U64(9).canonical()));
    assert_eq!(b.sources, vec![Some(shown(entries("{\"b\":\"x\",\"a\":[1]}"))), None]);
    assert_eq!(b.vectors[0], vec![("v".to_string(), vec![4])]);
    assert_eq!((b.seq_nos[0], b.partitions[0]), (5, 2));
}

fn vectors(length: usize) -> VectorColumn {
    VectorColumn::Lists { length, cells: vec![Some(vec![1, 2])] }
}

#[test]
fn the_vectors_of_a_batch_are_read() {
    let read = batch_rows(&batch(), &system(), "_vector_0", &vectors(2), 2).unwrap();
    assert_eq!((read.len(), read[0].row_id), (1, 8));
    assert!(read[0].pk.same(&PrimaryKey::U64(3)));
    assert_eq!(read[0].vector, Some(vec![1, 2]));
    let error = |b: &Batch, v: &VectorColumn| {
        batch_rows(b, &system(), "_vector_0", v, 2).err().unwrap().message()
    };
    let whole = batch();
    assert_eq!(
        error(&whole, &VectorColumn::Missing),
        "internal error: a Lance batch lacks _vector_0"
    );
    assert_eq!(
        error(&whole, &VectorColumn::NotLists),
        "internal error: _vector_0 is not a FixedSizeList"
    );
    assert_eq!(
        error(&whole, &VectorColumn::NotFloats),
        "internal error: _vector_0 is not a list of Float32"
    );
    assert_eq!(
        error(&whole, &vectors(3)),
        "internal error: _vector_0 has 3 dimensions, the schema 2"
    );
    let mut broken = batch();
    broken.columns[1].1 = Column::Binary(vec![vec![]]);
    assert_eq!(error(&broken, &vectors(2)), "internal error: _pk: not a canonical key");
    broken.columns[0].1 = Column::Other;
    assert_eq!(error(&broken, &VectorColumn::Missing), "internal error: _rowid is not UInt64");
    broken.columns.clear();
    assert_eq!(error(&broken, &vectors(2)), "internal error: a Lance batch lacks _rowid");
}

#[test]
fn a_search_keeps_rows_with_a_vector_that_its_mask_admits() {
    let read = || {
        [(1, true), (2, false), (3, true), (4, true)].into_iter().map(|(row_id, has)| VectorRow {
            row_id,
            pk: PrimaryKey::U64(row_id),
            vector: if has { Some(vec![7]) } else { None },
        })
    };
    let kept = |mask: Option<RowMask>| -> Vec<(u64, u32)> {
        keep_hits(read().collect(), &vec![10, 20, 30, 40], &mask, &rows(&[3]))
            .iter()
            .map(|h| (h.row_id, h.score))
            .collect()
    };
    assert_eq!(kept(None), vec![(1, 10), (4, 40)]);
    assert_eq!(kept(Some(RowMask::Allow(rows(&[2, 3, 4])))), vec![(4, 40)]);
    assert_eq!(kept(Some(RowMask::Block(rows(&[4])))), vec![(1, 10)]);
    assert_eq!(hot_rows(vec![5, 2, 5, 9], &None), vec![2, 5, 9]);
    assert_eq!(hot_rows(vec![5, 2, 5, 9], &Some(rows(&[9, 5, 7]))), vec![5, 9]);
}

#[test]
fn the_matches_of_a_filter_are_joined_and_batched() {
    let joined = join_rows(vec![Ok(rows(&[1, 9])), Ok(rows(&[])), Ok(rows(&[4, 9]))]).unwrap();
    assert_eq!(joined, rows(&[1, 4, 9]));
    assert!(misses(&joined, u64::MAX) && !misses(&joined, 4));
    let failed = |text: &str| Err(ServiceError::Internal(text.to_string()));
    let error = join_rows(vec![Ok(rows(&[1])), failed("a"), failed("b")]).err().unwrap();
    assert_eq!(error.message(), "internal error: a");
    assert!(row_batches(&rows(&[])).is_empty());
    assert_eq!(row_batches(&rows(&[7, 3])), vec![vec![3, 7]]);
    let many: RoaringTreemap = (0..BATCH_ROWS as u64 * 2 + 1).collect();
    let sizes: Vec<usize> = row_batches(&many).iter().map(|b| b.len()).collect();
    assert_eq!(sizes, vec![BATCH_ROWS, BATCH_ROWS, 1]);
    assert_eq!(row_batches(&many).concat(), many.iter().collect::<Vec<u64>>());
}

#[test]
fn a_unit_gives_its_best_candidates() {
    let places = vec![2, 4, 9];
    assert_eq!(weights_at(&places, 4), Some(1));
    assert_eq!(weights_at(&places, 9), Some(2));
    assert_eq!(weights_at(&places, 3), None);
    assert_eq!(weights_at(&vec![], 3), None);
    let bits = |x: f32| Some(x.to_bits());
    let admitted = |doc: u32, weights| Admitted { doc, row: u64::from(doc) + 100, weights };
    let list = vec![admitted(1, 9), admitted(2, 4), admitted(3, 2), admitted(4, 9)];
    let pks = || [8, 7, 6, 5].into_iter().map(|n| Some(PrimaryKey::U64(n).canonical()));
    let scores = vec![bits(3.0), None, bits(1.5)];
    let scored = scored_docs(&list, &places, &scores, pks().collect());
    let seen: Vec<(u32, u64, Option<u32>)> =
        scored.iter().map(|d| (d.doc, d.row, d.score)).collect();
    assert_eq!(
        seen,
        vec![(1, 101, bits(1.5)), (2, 102, None), (3, 103, bits(3.0)), (4, 104, bits(1.5))]
    );
    let best = |k| -> Vec<u64> {
        unit_hits(&scored, k).unwrap().iter().map(|hit| hit.row_id).collect()
    };
    assert_eq!(best(9), vec![103, 104, 101]);
    assert_eq!(best(2), vec![103, 104]);
    assert_eq!(best(0), Vec::<u64>::new());
    // The key of a candidate that cannot enter is not read.
    let mut keyless: Vec<Option<Vec<u8>>> = pks().collect();
    keyless[3] = None;
    let scored = scored_docs(&list, &places, &vec![bits(3.0), None, bits(1.0)], keyless);
    assert_eq!(unit_hits(&scored, 9).err().unwrap().message(), "internal error: doc 4 has no _pk");
    let ahead = vec![scored.into_iter().nth(2).unwrap()];
    assert_eq!(unit_hits(&ahead, 1).unwrap().len(), 1);
}
