//! Searching: the order of hits, ranking, fusing, paging and grouping.

use operon_query::error::ServiceError;
use operon_query::exec::ann::{
    choose_path, is_live, merge_tail, probes, tail_hits, vector_spec, AnnAction, AnnEvent,
    AnnLimits, AnnPath, AnnRun, AnnStrategy, IndexSearch, Probes, Stage as AnnStage, TailVector,
};
use operon_query::exec::columns::DocCells;
use operon_query::exec::field_buffer::{field_hits, FieldBuffer, FieldDoc};
use operon_query::exec::fusion::{fuse, rank_fused, Part, ONE};
use operon_query::exec::get::{answer, plan_get, Pick, Slot};
use operon_query::exec::groups::{distinct, json_key, key_path, Grouper, KeyPath, PAGE};
use operon_query::exec::mask::{is_countable, split_rows, RowMask, RowSet, SplitMask};
use operon_query::exec::order::{compare_values, EffectiveSort, RankMode};
use operon_query::exec::plan::{
    and, matching, score_only, uniform_score, Context, FieldClass, PlanNode, ScoreStep,
};
use operon_query::exec::planner::{
    agg_domain, constant_hits, count_rows, page_of, query_by_field, rescore, scroll_page,
    scroll_window, total_hits, AggDomain, Ask, Domain, Event, SearchConfig, SearchPlanner,
    SearchRun, Stage,
};
use operon_query::exec::schema::{
    batch_to_keyed, batch_to_ranked, keyed_to_batch, ranked_to_batch, KeyedBatch, Ranked,
    RankedBatch, ROWID_COLUMN,
};
use operon_query::exec::scroll::{
    batch_rows, group_by_split, plan_page, segment_of, sorted_keys, split_keys, walk_row, Head,
    Merge, Source, Walk,
};
use operon_query::exec::tail_merge::{tail_keys, TailLookup, TailMerge};
use operon_query::exec::tantivy_search::{
    count_docs, keep_after, maybe_after, rescored_hits, top_hits, ScoreBuffer,
};
use operon_query::exec::topk::{best, Scored, TopK};
use operon_query::collection::{
    CollectionSchema, DynamicMapping, FieldKind, FieldSpec, HnswParams, ResolvedField,
    SparseModifier, SparseVectorSpec, VectorElement, VectorIndexSpec, VectorSpec,
};
use operon_query::ir::{
    AnnParams, Distance, Fusion, GroupBy, MissingOrder, Retriever, SearchRequest, SortKey,
    SortOrder, SparseVector, TotalHits, TotalRelation, TrackTotalHits,
};
use operon_query::json::value::{Json, Number};
use operon_query::key::PrimaryKey;
use operon_query::query::{BoolOperator, Query};
use operon_query::values::{FieldValue, SortValue};
use roaring::{RoaringBitmap, RoaringTreemap};
use std::cmp::Ordering;

fn f(x: f32) -> u32 {
    x.to_bits()
}

fn d(x: f64) -> u64 {
    x.to_bits()
}

fn hit(row: u64, score: f32) -> Ranked {
    Ranked { row_id: row, pk: PrimaryKey::U64(row), score: f(score), sort: vec![] }
}

fn sorted_hit(row: u64, sort: Vec<SortValue>) -> Ranked {
    Ranked { row_id: row, pk: PrimaryKey::U64(row), score: f(1.0), sort }
}

fn scored(row: u64, score: f32) -> Scored {
    Scored { row_id: row, pk: PrimaryKey::U64(row), score: f(score) }
}

fn rows(hits: &[Ranked]) -> Vec<u64> {
    hits.iter().map(|h| h.row_id).collect()
}

fn scored_rows(hits: &[Scored]) -> Vec<u64> {
    hits.iter().map(|h| h.row_id).collect()
}

fn set(rows: &[u64]) -> RoaringTreemap {
    rows.iter().copied().collect()
}

fn docs(docs: &[u32]) -> RoaringBitmap {
    docs.iter().copied().collect()
}

fn field_key(order: SortOrder, missing: MissingOrder) -> SortKey {
    SortKey::Field { field: "f".to_string(), order, missing }
}

fn text_retriever() -> Retriever {
    Retriever::Text { query: Query::MatchAll, k: 10 }
}

fn vector_retriever() -> Retriever {
    Retriever::Vector {
        field: "v".to_string(),
        query: vec![f(1.0), f(0.0)],
        k: 3,
        params: AnnParams::none(),
        filter: None,
    }
}

fn term(field: &str) -> Query {
    Query::Term { field: field.to_string(), value: FieldValue::I64(1) }
}

fn schema() -> CollectionSchema {
    CollectionSchema {
        version: 1,
        fields: vec![],
        vectors: vec![VectorSpec {
            name: "v".to_string(),
            dim: 2,
            distance: Distance::Cosine,
            element: VectorElement::F32,
            index: VectorIndexSpec::Auto,
            hnsw: HnswParams {
                m: 16,
                ef_construct: 100,
                full_scan_threshold_kb: 10_000,
                payload_m: None,
                on_disk: false,
            },
            quantization: None,
        }],
        sparse_vectors: vec![SparseVectorSpec {
            name: "s".to_string(),
            modifier: SparseModifier::Plain,
        }],
        dynamic: DynamicMapping::Ignore,
        max_fields: 10,
        annotations: vec![],
    }
}

fn by_field(order: SortOrder, missing: MissingOrder) -> EffectiveSort {
    let mut request = SearchRequest::new("c");
    request.sort = vec![field_key(order, missing)];
    EffectiveSort::of(&request).unwrap()
}

#[test]
fn values_compare_within_and_across_kinds() {
    let cases = vec![
        (SortValue::Bool(false), SortValue::Bool(true)),
        (SortValue::I64(-1), SortValue::U64(u64::MAX)),
        (SortValue::I64(2), SortValue::F64(d(2.5))),
        (SortValue::F64(d(-0.0)), SortValue::F64(d(0.0))),
        (SortValue::Str("a".to_string()), SortValue::Str("é".to_string())),
        (SortValue::Uuid([0; 16]), SortValue::Uuid([1; 16])),
        (SortValue::Null, SortValue::Bool(false)),
        (SortValue::Bool(true), SortValue::I64(i64::MIN)),
        (SortValue::F64(d(f64::INFINITY)), SortValue::Str("".to_string())),
        (SortValue::Str("z".to_string()), SortValue::Uuid([0; 16])),
    ];
    for (a, b) in cases {
        assert_eq!(compare_values(&a, &b), Ordering::Less);
        assert_eq!(compare_values(&b, &a), Ordering::Greater);
        assert_eq!(compare_values(&a, &a), Ordering::Equal);
    }
    // An integer is rounded before it meets a float.
    let big = SortValue::U64(u64::MAX);
    assert_eq!(compare_values(&big, &SortValue::F64(d(18446744073709551616.0))), Ordering::Equal);
}

#[test]
fn a_sort_ends_with_the_key() {
    let mut request = SearchRequest::new("c");
    let sort = EffectiveSort::of(&request).unwrap();
    assert_eq!((sort.mode, sort.keys.len()), (RankMode::Field, 1));
    request.retrievers = vec![vector_retriever()];
    let sort = EffectiveSort::of(&request).unwrap();
    assert_eq!((sort.mode, sort.keys.len()), (RankMode::Score, 2));
    assert!(sort.has_score());
    request.sort = vec![field_key(SortOrder::Asc, MissingOrder::Last)];
    assert_eq!(
        EffectiveSort::of(&request).unwrap_err().message(),
        "invalid argument: a field sort allows at most one retriever, and it must be text"
    );
    request.retrievers = vec![text_retriever()];
    let sort = EffectiveSort::of(&request).unwrap();
    assert_eq!(sort.field_keys().len(), 1);
    assert!(!sort.has_score());
    request.retrievers = vec![];
    request.sort = vec![SortKey::Score { order: SortOrder::Desc }];
    assert_eq!(
        EffectiveSort::of(&request).unwrap_err().message(),
        "invalid argument: a score sort needs a retriever"
    );
    request.sort = vec![SortKey::Pk { order: SortOrder::Desc }];
    assert_eq!(EffectiveSort::of(&request).unwrap().keys.len(), 1);
}

#[test]
fn hits_are_ordered_by_their_keys() {
    let sort = EffectiveSort::by_score();
    assert_eq!(sort.compare(&hit(1, 2.0), &hit(2, 1.0)), Ordering::Less);
    assert_eq!(sort.compare(&hit(2, 1.0), &hit(1, 1.0)), Ordering::Greater);
    assert_eq!(sort.compare_ignoring_pk(&hit(2, 1.0), &hit(1, 1.0)), Ordering::Equal);
    assert!(sort.worse_before_pk(&hit(1, 1.0), &hit(2, 2.0)));
    assert!(!sort.worse_before_pk(&hit(2, 1.0), &hit(1, 1.0)));
    let last = by_field(SortOrder::Desc, MissingOrder::Last);
    let hits = vec![
        sorted_hit(1, vec![SortValue::Null]),
        sorted_hit(2, vec![SortValue::I64(1)]),
        sorted_hit(3, vec![SortValue::I64(5)]),
        sorted_hit(4, vec![]),
    ];
    assert_eq!(rows(&top_hits(hits, &last, 9)), vec![3, 2, 1, 4]);
    let first = by_field(SortOrder::Desc, MissingOrder::First);
    let hits = vec![sorted_hit(2, vec![SortValue::I64(1)]), sorted_hit(1, vec![SortValue::Null])];
    assert_eq!(rows(&top_hits(hits, &first, 9)), vec![1, 2]);
}

#[test]
fn search_after_keeps_what_follows() {
    let sort = EffectiveSort::by_score();
    let after = vec![SortValue::F64(d(1.0)), SortValue::U64(5)];
    assert!(!sort.is_after(&hit(5, 1.0), &after));
    assert!(sort.is_after(&hit(6, 1.0), &after));
    assert!(sort.is_after(&hit(1, 0.5), &after));
    assert!(!sort.is_after(&hit(9, 2.0), &after));
    // A hit is not after its own sort values.
    let h = hit(7, 0.1);
    assert!(!sort.is_after(&h, &sort.sort_values(&h)));
    let kept = keep_after(vec![hit(5, 1.0), hit(6, 1.0)], &sort, &Some(after));
    assert_eq!(rows(&kept), vec![6]);
    let shown = |v: &[&str]| -> Vec<String> { v.iter().map(|s| s.to_string()).collect() };
    assert!(sort.check_search_after(&vec![SortValue::I64(1)], &shown(&["I64(1)"])).is_ok());
    assert_eq!(
        sort.check_search_after(&vec![SortValue::Null], &shown(&["Null"])).unwrap_err().message(),
        "invalid argument: search_after value Null does not fit its sort key"
    );
    assert_eq!(
        sort.check_search_after(
            &vec![SortValue::I64(1), SortValue::I64(1), SortValue::I64(1)],
            &shown(&["", "", ""])
        )
        .unwrap_err()
        .message(),
        "invalid argument: search_after has 3 values but the sort has 2 keys"
    );
}

#[test]
fn a_buffer_keeps_the_best() {
    let sort = by_field(SortOrder::Asc, MissingOrder::Last);
    let mut buffer = FieldBuffer::new(2, sort, None);
    for (row, n) in [(1, 9), (2, 3), (3, 5), (4, 1), (5, 7)] {
        let values = vec![SortValue::I64(n)];
        if buffer.may_enter(f(1.0), &values) {
            buffer.add(sorted_hit(row, values));
        }
    }
    assert!(!buffer.may_enter(f(1.0), &vec![SortValue::I64(8)]));
    assert_eq!(rows(&buffer.finish()), vec![4, 2]);
    let mut all = Vec::new();
    for (row, n) in [(1, 9), (2, 3), (3, 5), (4, 1), (5, 7)] {
        all.push(sorted_hit(row, vec![SortValue::I64(n)]));
    }
    let sort = by_field(SortOrder::Asc, MissingOrder::Last);
    assert_eq!(rows(&rescored_hits(all, &sort, &None, 2)), vec![4, 2]);
}

fn by_key_then_field() -> EffectiveSort {
    let mut request = SearchRequest::new("c");
    let field = field_key(SortOrder::Asc, MissingOrder::Last);
    request.sort = vec![SortKey::Pk { order: SortOrder::Asc }, field];
    EffectiveSort::of(&request).unwrap()
}

#[test]
fn a_key_position_stops_the_skipping() {
    let mut buffer = FieldBuffer::new(1, by_key_then_field(), None);
    buffer.add(sorted_hit(5, vec![SortValue::I64(1)]));
    buffer.add(sorted_hit(6, vec![SortValue::I64(2)]));
    let late = vec![SortValue::I64(9)];
    assert!(buffer.may_enter(f(1.0), &late));
    buffer.add(sorted_hit(1, late));
    assert_eq!(rows(&buffer.finish()), vec![1]);
}

fn field_doc(doc: u32, row: Option<u64>, n: i64) -> FieldDoc {
    let pk = row.map(|row| PrimaryKey::U64(row).canonical());
    let cells = DocCells { row, pk };
    FieldDoc { doc, score: f(1.0), values: vec![SortValue::I64(n)], cells }
}

#[test]
fn the_matches_of_a_segment_are_cut_to_the_best() {
    let found = vec![
        field_doc(0, Some(10), 9),
        field_doc(1, Some(11), 3),
        field_doc(2, Some(12), 5),
        field_doc(3, Some(13), 0),
        field_doc(4, Some(14), 7),
        field_doc(5, Some(15), 1),
    ];
    let sort = || by_field(SortOrder::Asc, MissingOrder::Last);
    let best = |k, after| field_hits(&found, &docs(&[3]), k, sort(), after).unwrap();
    assert_eq!(rows(&best(2, None)), vec![15, 11]);
    assert_eq!(rows(&best(9, None)), vec![15, 11, 12, 14, 10]);
    assert_eq!(rows(&best(2, Some(vec![SortValue::I64(3)]))), vec![12, 14]);
    assert!(best(0, None).is_empty());
    let by_key = field_hits(&found, &docs(&[]), 2, by_key_then_field(), None).unwrap();
    assert_eq!(rows(&by_key), vec![10, 11]);
    let broken = |n| {
        let found = vec![field_doc(0, Some(1), 1), field_doc(1, Some(2), 2), field_doc(2, None, n)];
        field_hits(&found, &docs(&[]), 1, sort(), None)
    };
    // A match that is skipped is not read.
    assert_eq!(rows(&broken(9).unwrap()), vec![1]);
    assert_eq!(broken(0).err().unwrap().message(), "internal error: doc 2 has no _rowid");
}

#[test]
fn a_score_buffer_prunes_below_its_floor() {
    let mut buffer = ScoreBuffer::new(1);
    assert!(buffer.admits(false, f(-1.0)));
    assert!(!buffer.admits(true, f(1.0)));
    assert_eq!(buffer.add(7, f(1.0)), Some(f(1.0)));
    assert_eq!(buffer.add(3, f(2.0)), Some(f(2.0)));
    buffer.set_floor(f(1.5));
    assert!(!buffer.admits(false, f(1.0)));
    assert!(buffer.admits(false, f(1.5)));
    assert_eq!(buffer.finish(), vec![(3, f(2.0))]);
    let mut two = ScoreBuffer::new(2);
    assert_eq!(two.add(9, f(1.0)), None);
    assert_eq!(two.add(1, f(3.0)), Some(f(1.0)));
    assert_eq!(two.finish(), vec![(1, f(3.0)), (9, f(1.0))]);
    assert_eq!(count_docs(&vec![1, 2, 3], &docs(&[2])), 2);
}

#[test]
fn the_best_hits_are_by_score_then_key() {
    let mut top = TopK::new(2);
    assert!(top.may_admit(f(-5.0)));
    top.push(scored(3, 1.0));
    top.push(scored(1, 1.0));
    top.push(scored(2, 5.0));
    assert!(!top.may_admit(f(0.5)));
    assert_eq!(scored_rows(&top.into_sorted()), vec![2, 1]);
    assert!(!TopK::new(0).may_admit(f(1.0)));
    let lists = vec![vec![scored(4, 1.0)], vec![scored(5, 2.0), scored(6, 0.0)]];
    assert_eq!(scored_rows(&best(2, lists)), vec![5, 4]);
}

#[test]
fn fused_rows_gather_their_parts() {
    let lists = vec![vec![hit(1, 9.0), hit(2, 8.0)], vec![hit(2, 0.5)]];
    let fused = fuse(&lists, &Fusion::Rrf { k: 60 });
    assert_eq!(fused.len(), 2);
    assert_eq!(fused[0].hit.row_id, 1);
    assert_eq!(fused[0].parts, vec![Part::Reciprocal { k: 60, rank: 1 }]);
    assert_eq!(
        fused[1].parts,
        vec![Part::Reciprocal { k: 60, rank: 2 }, Part::Reciprocal { k: 60, rank: 1 }]
    );
    let fused = fuse(&lists, &Fusion::Dbsf);
    assert_eq!(
        fused[1].parts,
        vec![Part::Normalized { list: 0, place: 1 }, Part::Normalized { list: 1, place: 0 }]
    );
    let fused = fuse(&lists, &Fusion::WeightedSum { weights: vec![f(2.0)] });
    assert_eq!(
        fused[1].parts,
        vec![
            Part::Weighted { weight: f(2.0), score: f(8.0) },
            Part::Weighted { weight: ONE, score: f(0.5) }
        ]
    );
    assert_eq!(rows(&rank_fused(vec![hit(3, 1.0), hit(2, 1.0), hit(1, 4.0)], 2)), vec![1, 2]);
}

#[test]
fn the_tail_answers_reads_by_key_first() {
    let pks: Vec<PrimaryKey> = (0..4).map(PrimaryKey::U64).collect();
    let lookups = vec![
        TailLookup::Absent,
        TailLookup::Present(90),
        TailLookup::Deleted,
        TailLookup::Absent,
    ];
    let plan = plan_get(&pks, &lookups);
    assert_eq!(plan.slots, vec![Slot::Durable(0), Slot::Tail(0), Slot::Miss, Slot::Durable(1)]);
    assert_eq!(plan.tail_ids, vec![90]);
    assert_eq!(plan.durable.len(), 2);
    assert_eq!(
        answer(&plan.slots, 1, &vec![false, true]).unwrap(),
        vec![None, Some(Pick::Tail(0)), None, Some(Pick::Durable(1))]
    );
    assert_eq!(
        answer(&plan.slots, 0, &vec![false, true]).unwrap_err().message(),
        "internal error: a tail row was not fetched"
    );
}

#[test]
fn group_keys_are_strings_integers_and_booleans() {
    assert_eq!(PAGE, 256);
    assert!(matches!(json_key(&Json::Text("a".to_string())), Some(FieldValue::Str(_))));
    assert!(matches!(json_key(&Json::Bool(true)), Some(FieldValue::Bool(true))));
    let number = |n: Number| json_key(&Json::Number(n));
    assert!(matches!(number(Number::Unsigned(3)), Some(FieldValue::I64(3))));
    assert!(matches!(number(Number::Unsigned(u64::MAX)), Some(FieldValue::U64(u64::MAX))));
    assert!(number(Number::Float { bits: d(1.5), text: "1.5".to_string() }).is_none());
    assert!(json_key(&Json::Null).is_none());
    let values = vec![FieldValue::I64(1), FieldValue::I64(2), FieldValue::I64(1)];
    assert_eq!(distinct(values).len(), 2);
    let spec = |kind: FieldKind| FieldSpec {
        name: "a".to_string(),
        source_path: "x.a".to_string(),
        kind,
        indexed: true,
        fast: true,
        ignore_malformed: false,
    };
    assert!(matches!(key_path(&ResolvedField::Plain(spec(FieldKind::Json)), "a"), Ok(KeyPath::Json(p)) if p == "x.a"));
    assert!(matches!(
        key_path(&ResolvedField::Plain(spec(FieldKind::I64)), "a"),
        Ok(KeyPath::Typed { path, kind: FieldKind::I64 }) if path == "x.a"
    ));
    match key_path(&ResolvedField::Unknown, "a") {
        Err(e) => assert_eq!(e.message(), "invalid argument: unknown group_by field a"),
        Ok(_) => panic!("known"),
    }
}

#[test]
fn groups_are_cut_to_their_limits() {
    let mut grouper = Grouper::new(2, 1);
    assert!(!grouper.add(0, vec![FieldValue::I64(1)]));
    assert!(!grouper.add(1, vec![FieldValue::I64(1)]));
    assert!(grouper.add(2, vec![FieldValue::I64(1), FieldValue::I64(2), FieldValue::I64(3)]));
    let groups = grouper.finish();
    assert_eq!(groups.len(), 2);
    assert_eq!(groups[0].hits, vec![0]);
    assert_eq!(groups[1].hits, vec![2]);
    assert!(matches!(groups[1].key, FieldValue::I64(2)));
    assert!(Grouper::new(0, 5).add(0, vec![]));
}

#[test]
fn groups_hold_the_first_candidates_of_their_keys() {
    let lists: [&[i64]; 6] = [&[3], &[], &[1, 3], &[2, 1], &[3, 1], &[1]];
    let mut grouper = Grouper::new(2, 3);
    let full: Vec<bool> = lists
        .iter()
        .enumerate()
        .map(|(i, keys)| grouper.add(i, keys.iter().map(|k| FieldValue::I64(*k)).collect()))
        .collect();
    assert_eq!(full, vec![false, false, false, false, true, true]);
    let groups = grouper.finish();
    assert_eq!(groups.len(), 2);
    assert!(matches!(groups[0].key, FieldValue::I64(3)));
    assert_eq!(groups[0].hits, vec![0, 2, 4]);
    assert!(matches!(groups[1].key, FieldValue::I64(1)));
    assert_eq!(groups[1].hits, vec![2, 3, 4]);
}

#[test]
fn the_order_and_the_splits_of_lists_do_not_matter() {
    let all = [(1, 0.5), (2, 2.0), (3, 0.5), (4, -1.0), (5, 2.0)];
    let of = |cuts: &[&[usize]], k| {
        let lists = cuts
            .iter()
            .map(|list| list.iter().map(|i| scored(all[*i].0, all[*i].1)).collect())
            .collect();
        scored_rows(&best(k, lists))
    };
    assert_eq!(of(&[&[0, 1, 2, 3, 4]], 3), vec![2, 5, 1]);
    assert_eq!(of(&[&[3, 4], &[0, 1, 2]], 3), vec![2, 5, 1]);
    assert_eq!(of(&[&[4], &[], &[2, 0], &[1, 3]], 3), vec![2, 5, 1]);
    assert_eq!(of(&[&[4, 3], &[2, 1, 0]], 9), vec![2, 5, 1, 3, 4]);
    assert_eq!(of(&[&[0], &[1]], 0), Vec::<u64>::new());
}

#[test]
fn sets_of_rows_can_be_counted() {
    assert!(is_countable(&set(&[])));
    assert!(is_countable(&set(&[0, 7, u64::MAX])));
}

fn keyed(list: &[u64]) -> Vec<(u64, PrimaryKey)> {
    list.iter().map(|n| (100 + n, PrimaryKey::U64(*n))).collect()
}

#[test]
fn the_tail_overlays_durable_keys() {
    let entries = vec![
        (PrimaryKey::U64(2), TailLookup::Present(902)),
        (PrimaryKey::U64(3), TailLookup::Deleted),
        (PrimaryKey::U64(4), TailLookup::Present(904)),
        (PrimaryKey::U64(7), TailLookup::Absent),
    ];
    let tail = tail_keys(entries, &RowSet::Rows(set(&[902])), &None);
    assert_eq!(tail.len(), 3);
    let mut merge = TailMerge::new(tail, None, 10);
    merge.push(keyed(&[1, 2, 3]));
    assert!(!merge.is_full());
    merge.push(keyed(&[4, 5]));
    let page: Vec<u64> = merge.finish().into_iter().map(|(row, _)| row).collect();
    assert_eq!(page, vec![101, 902, 105]);
    let mut merge = TailMerge::new(vec![], Some(PrimaryKey::U64(1)), 1);
    merge.push(keyed(&[1, 2, 3]));
    assert!(merge.is_full());
    assert_eq!(merge.finish()[0].0, 102);
}

#[test]
fn a_page_is_full_with_its_last_row() {
    let tail = tail_keys(
        vec![
            (PrimaryKey::U64(2), TailLookup::Deleted),
            (PrimaryKey::U64(3), TailLookup::Present(903)),
        ],
        &RowSet::All,
        &None,
    );
    let mut merge = TailMerge::new(tail, None, 3);
    for (n, full) in [(1, false), (2, false), (4, true), (5, true)] {
        merge.push(keyed(&[n]));
        assert_eq!(merge.is_full(), full);
    }
    let page: Vec<u64> = merge.finish().into_iter().map(|(row, _)| row).collect();
    assert_eq!(page, vec![101, 903, 104]);
    assert!(TailMerge::new(vec![], None, 0).is_full());
    assert!(!TailMerge::new(vec![], None, 1).is_full());
}

/// The rows and the next key of a scroll over three durable splits and a
/// tail, by a walk of the splits or by a sorted lookup.
fn scrolled(after: Option<u64>, limit: usize, walks: bool) -> (Vec<u64>, Option<u64>) {
    let splits: Vec<Vec<u64>> = vec![vec![1, 4, 8], vec![], vec![2, 3, 9]];
    let filter = set(&[101, 102, 104, 108, 109]);
    let entries = vec![
        (PrimaryKey::U64(2), TailLookup::Present(902)),
        (PrimaryKey::U64(4), TailLookup::Deleted),
        (PrimaryKey::U64(6), TailLookup::Present(906)),
    ];
    let after = after.map(PrimaryKey::U64);
    let tail = tail_keys(entries, &RowSet::All, &after);
    let mut page = TailMerge::new(tail, after.clone(), scroll_window(limit));
    let key = |n: &u64| PrimaryKey::U64(*n);
    if walks {
        let follows = |n: &u64| after.as_ref().is_none_or(|a| a.canonical() < key(n).canonical());
        let mut left: Vec<Vec<u64>> =
            splits.iter().map(|s| s.iter().copied().filter(|n| follows(n)).collect()).collect();
        let mut next = |split: usize| -> Option<Head> {
            if left[split].is_empty() {
                return None;
            }
            let n = left[split].remove(0);
            Some(Head { key: key(&n).canonical(), split, row: 100 + n })
        };
        let mut merge = Merge::new((0..3).filter_map(&mut next).collect());
        let mut walk = Walk::new(Some(filter), 9);
        while let Some(head) = merge.pop() {
            if let Some(head) = next(head.split) {
                merge.push(head);
            }
            walk.add(head).unwrap();
        }
        page.push(walk.take().unwrap_or_default());
    } else {
        let found: Vec<(u64, PrimaryKey)> =
            filter.iter().rev().map(|row| (row, PrimaryKey::U64(row - 100))).collect();
        page.push(sorted_keys(found, &after));
    }
    let (rows, next) = scroll_page(page.finish(), limit);
    let next = next.map(|k| match k {
        PrimaryKey::U64(n) => n,
        _ => panic!("a number"),
    });
    (rows.into_iter().map(|(row, _)| row).collect(), next)
}

#[test]
fn scrolls_follow_one_another_in_both_ways() {
    let all = vec![101, 902, 906, 108, 109];
    for walks in [false, true] {
        assert_eq!(scrolled(None, 9, walks), (all.clone(), None));
        assert_eq!(scrolled(None, 5, walks), (all.clone(), None));
        assert_eq!(scrolled(None, 2, walks), (vec![101, 902], Some(2)));
        assert_eq!(scrolled(Some(2), 2, walks), (vec![906, 108], Some(8)));
        assert_eq!(scrolled(Some(8), 2, walks), (vec![109], None));
        // Three rows, then one, are four rows.
        let (first, next) = scrolled(Some(1), 3, walks);
        let (second, end) = scrolled(next, 1, walks);
        assert_eq!(scrolled(Some(1), 4, walks), ([first, second].concat(), end));
        assert_eq!(scrolled(Some(9), 4, walks), (vec![], None));
    }
}

#[test]
fn a_page_does_not_change_the_domain() {
    let ready = |offset, limit, after: Option<Vec<SortValue>>, fields: bool| {
        let mut request = SearchRequest::new("c");
        request.retrievers = vec![text_retriever(), vector_retriever()];
        if fields {
            request.retrievers.pop();
            request.sort = vec![field_key(SortOrder::Asc, MissingOrder::Last)];
        }
        (request.offset, request.limit, request.search_after) = (offset, limit, after);
        let sort = EffectiveSort::of(&request).unwrap();
        let run = SearchRun::begin(request, sort, 100);
        let hits = vec![hit(1, 0.5), hit(2, 0.9), hit(3, 0.1)];
        match run.on(Event::Hits(hits)).stage {
            Stage::Ready { candidates, domain, .. } => (rows(&candidates), domain),
            _ => panic!("not ready"),
        }
    };
    let after = || Some(vec![SortValue::F64(d(0.6))]);
    for (candidates, domain) in [ready(0, 1, None, false), ready(2, 9, after(), false)] {
        assert!(candidates.len() == 3 || candidates == vec![1, 3]);
        match agg_domain(&domain, &None) {
            AggDomain::Rows(t) => assert_eq!(t, set(&[1, 2, 3])),
            _ => panic!("rows"),
        }
    }
    for (_, domain) in [ready(0, 1, None, true), ready(2, 9, after(), true)] {
        assert!(matches!(domain, Domain::Text(Query::MatchAll)));
    }
}

#[test]
fn splits_are_merged_by_key() {
    let head = |n: u64, split: usize| Head { key: PrimaryKey::U64(n).canonical(), split, row: n };
    let mut merge = Merge::new(vec![head(5, 0), head(2, 1)]);
    let first = merge.pop().unwrap();
    assert_eq!((first.row, first.split), (2, 1));
    merge.push(head(9, 1));
    assert_eq!(merge.pop().unwrap().row, 5);
    assert_eq!(merge.pop().unwrap().row, 9);
    assert!(merge.pop().is_none());
    assert!(matches!(walk_row(&None, head(5, 0)), Ok(Some((5, PrimaryKey::U64(5))))));
    assert!(matches!(walk_row(&Some(set(&[4])), head(5, 0)), Ok(None)));
    let bad = Head { key: vec![9], split: 0, row: 1 };
    assert_eq!(
        walk_row(&None, bad).err().unwrap().message(),
        "internal error: _pk term: not a canonical key"
    );
    assert_eq!((batch_rows(0), batch_rows(7), batch_rows(9_999)), (1, 7, 1_024));
}

#[test]
fn rows_are_found_in_their_splits() {
    let rows = vec![(10, Some((1, 5))), (11, Some((0, 2))), (12, Some((1, 3)))];
    let groups = group_by_split(&rows).unwrap();
    let found: Vec<(usize, Vec<(u32, u64)>)> =
        groups.into_iter().map(|g| (g.split, g.docs)).collect();
    assert!(found.contains(&(1, vec![(5, 10), (3, 12)])));
    assert!(found.contains(&(0, vec![(2, 11)])));
    assert!(group_by_split(&vec![(10, None)]).is_err());
    assert_eq!(segment_of(&vec![3, 0, 4], 2).unwrap(), (0, 2));
    assert_eq!(segment_of(&vec![3, 0, 4], 3).unwrap(), (2, 0));
    assert!(segment_of(&vec![3, 0, 4], 7).is_err());
    let keys = sorted_keys(keyed(&[3, 1, 2]), &Some(PrimaryKey::U64(1)));
    assert_eq!(keys.iter().map(|(r, _)| *r).collect::<Vec<_>>(), vec![102, 103]);
}

#[test]
fn a_walk_gives_its_rows_in_batches() {
    let head = |n: u64| Head { key: PrimaryKey::U64(n).canonical(), split: 0, row: n };
    let mut walk = Walk::new(Some(set(&[1, 3, 4])), 2);
    let mut batches = vec![];
    for n in 1..=5 {
        assert!(walk.wants());
        walk.add(head(n)).unwrap();
        if !walk.wants() {
            batches.push(walk.take().unwrap());
        }
    }
    batches.push(walk.take().unwrap());
    assert!(walk.take().is_none());
    let rows: Vec<Vec<u64>> =
        batches.iter().map(|b| b.iter().map(|(row, _)| *row).collect()).collect();
    assert_eq!(rows, vec![vec![1, 3], vec![4]]);
    // A term that is no key matters only where its row is kept.
    let bad = |row: u64| Head { key: vec![9], split: 0, row };
    assert!(walk.add(bad(2)).is_ok());
    assert_eq!(
        walk.add(bad(3)).err().unwrap().message(),
        "internal error: _pk term: not a canonical key"
    );
    // A batch holds at least one row.
    let mut narrow = Walk::new(None, 0);
    assert!(narrow.wants());
    narrow.add(head(7)).unwrap();
    assert!(!narrow.wants());
}

#[test]
fn the_keys_of_a_split_are_read() {
    let term = |n: u64| Some(PrimaryKey::U64(n).canonical());
    let sizes = vec![2, 3];
    let docs = vec![(0, 10), (4, 11)];
    let keys = split_keys(&docs, &sizes, &vec![term(5), term(6)]).unwrap();
    assert!(matches!(keys[..], [(10, PrimaryKey::U64(5)), (11, PrimaryKey::U64(6))]));
    let error = |docs: Vec<(u32, u64)>, terms: Vec<Option<Vec<u8>>>| {
        split_keys(&docs, &sizes, &terms).err().unwrap().message()
    };
    assert_eq!(
        error(vec![(5, 10), (0, 11)], vec![None, None]),
        "internal error: doc 5 is past the split"
    );
    assert_eq!(
        error(vec![(1, 10), (5, 11)], vec![None, None]),
        "internal error: doc 1 has no _pk"
    );
    assert_eq!(
        error(vec![(1, 10)], vec![Some(vec![])]),
        "internal error: _pk of doc 1: not a canonical key"
    );
}

#[test]
fn bounds_keep_what_may_come_after() {
    let by_score = EffectiveSort::by_score();
    let after = vec![SortValue::F64(d(0.5))];
    let may = |low: f32, high: f32| maybe_after(&by_score, hit(1, 0.0), f(low), f(high), &after);
    assert!(may(0.4, 0.6));
    assert!(may(0.3, 0.4));
    assert!(!may(0.6, 0.7));
}

#[test]
fn a_search_looks_into_the_partitions_of_its_widest_segment() {
    let mut params = AnnParams::none();
    assert_eq!(probes(&params, &vec![3, 8, 5]), Probes::Default { partitions: 8 });
    assert_eq!(probes(&params, &vec![]), Probes::Default { partitions: 0 });
    params.nprobes = Some(4);
    assert_eq!(probes(&params, &vec![3, 8, 5]), Probes::Asked(4));
}

#[test]
fn a_page_walks_or_sorts() {
    let (source, tail) = plan_page(&RowSet::All, &None, 5, 1_000, 10);
    assert!(matches!(source, Source::Walk { filter: None, after: None }));
    assert!(tail.contains(3));
    let few = RowSet::Rows(set(&[1, 2, 1_001]));
    let (source, tail) = plan_page(&few, &None, 5, 1_000, 10);
    assert!(matches!(source, Source::Sorted(t) if t == set(&[1, 2])));
    assert!(tail.contains(1_001) && !tail.contains(1));
    let (source, _) = plan_page(&few, &Some(PrimaryKey::U64(1)), 5, 1_000, 1);
    assert!(matches!(source, Source::Walk { filter: Some(_), after: Some(_) }));
    let (source, _) = plan_page(&few, &None, 0, 1_000, 10);
    assert!(matches!(source, Source::Nothing));
}

#[test]
fn masks_admit_rows() {
    let mask = SplitMask { deleted: docs(&[1]), shadowed: docs(&[2]) };
    assert!(mask.masked(1) && mask.masked(2) && !mask.masked(3));
    assert!(RowMask::Allow(set(&[1])).admits(1) && !RowMask::Allow(set(&[1])).admits(2));
    assert!(!RowMask::Block(set(&[1])).admits(1) && RowMask::Block(set(&[1])).admits(2));
    assert!(!RowMask::Block(set(&[])).restricts() && RowMask::Allow(set(&[])).restricts());
    let (durable, tail) = split_rows(&set(&[1, 2, 10, 11]), &set(&[2]), 10);
    assert_eq!((durable, tail), (set(&[1]), set(&[10, 11])));
    assert_eq!(count_rows(&RowSet::All, 9), 9);
    assert_eq!(count_rows(&RowSet::Rows(set(&[4, 5])), 9), 2);
}

#[test]
fn a_search_by_fields_widens_its_window() {
    let mut request = SearchRequest::new("c");
    request.limit = 2;
    request.offset = 1;
    request.group_by = Some(GroupBy { field: "g".to_string(), group_size: 2, limit: 2 });
    let sort = EffectiveSort::of(&request).unwrap();
    let run = SearchRun::begin(request, sort, 6);
    assert_eq!(run.ask(), Ask::Matches { window: 4 });
    let hits = (0..4).map(|n| hit(n, 1.0)).collect();
    let run = run.on(Event::Hits(hits));
    assert_eq!(run.ask(), Ask::Groups);
    let run = run.on(Event::Grouped { full: false });
    assert_eq!(run.ask(), Ask::Matches { window: 6 });
    let run = run.on(Event::Hits(vec![hit(1, 1.0)])).on(Event::Grouped { full: false });
    assert_eq!(run.ask(), Ask::Nothing);
    assert!(matches!(run.stage, Stage::Ready { grouped: true, domain: Domain::Filter, .. }));
}

#[test]
fn a_search_by_score_cuts_at_its_threshold() {
    let mut request = SearchRequest::new("c");
    request.retrievers = vec![text_retriever()];
    request.score_threshold = Some(f(0.5));
    let sort = EffectiveSort::of(&request).unwrap();
    let run = SearchRun::begin(request, sort, 100);
    assert_eq!(run.ask(), Ask::Ranked);
    let run = run.on(Event::Hits(vec![hit(1, 0.5), hit(2, 0.9), hit(3, 0.1)]));
    match run.stage {
        Stage::Ready { candidates, domain: Domain::Candidates(all), grouped: false } => {
            assert_eq!(rows(&candidates), vec![2, 1]);
            assert_eq!(rows(&all), vec![1, 2]);
            match agg_domain(&Domain::Candidates(all), &None) {
                AggDomain::Rows(t) => assert_eq!(t, set(&[1, 2])),
                _ => panic!("rows"),
            }
        }
        _ => panic!("not ready"),
    }
    assert!(matches!(
        agg_domain(&Domain::Text(Query::MatchAll), &Some(term("a"))),
        AggDomain::Query { filter: Some(_), .. }
    ));
    assert!(matches!(agg_domain(&Domain::Filter, &None), AggDomain::Filter(None)));
}

#[test]
fn pages_totals_and_scrolls_are_cut() {
    let hits: Vec<Ranked> = (0..5).map(|n| hit(n, 1.0)).collect();
    assert_eq!(rows(&page_of(&hits, 3, 9)), vec![3, 4]);
    assert_eq!(rows(&page_of(&hits, 9, 1)), Vec::<u64>::new());
    assert_eq!(total_hits(TrackTotalHits::Never, 3), None);
    let exact = TotalHits { value: 3, relation: TotalRelation::Eq };
    assert_eq!(total_hits(TrackTotalHits::Exact, 3), Some(exact));
    assert_eq!(total_hits(TrackTotalHits::UpTo(3), 3), Some(exact));
    assert_eq!(
        total_hits(TrackTotalHits::UpTo(2), 3),
        Some(TotalHits { value: 2, relation: TotalRelation::Gte })
    );
    assert_eq!(scroll_window(9), 10);
    assert_eq!(scroll_window(usize::MAX), usize::MAX);
    let (page, next) = scroll_page(keyed(&[1, 2, 3]), 2);
    assert_eq!(page.len(), 2);
    assert!(next.unwrap().same(&PrimaryKey::U64(2)));
    assert!(scroll_page(keyed(&[1, 2]), 2).1.is_none());
    assert!(matches!(query_by_field(&vec![vector_retriever()]), Query::MatchAll));
    let kept = rescore(vec![hit(1, 0.0), hit(2, 0.0), hit(3, 0.0)], &vec![Some(f(1.0)), None, Some(f(2.0))], 5);
    assert_eq!(rows(&kept), vec![3, 1]);
    assert_eq!(constant_hits(keyed(&[1]), f(4.0))[0].score, f(4.0));
    let config = SearchConfig::with_window(50);
    assert_eq!(SearchPlanner::new(config).config().max_window, 50);
    assert_eq!(config.scroll_sort_threshold, 100_000);
}

fn run(k: usize, allowed: Option<RoaringTreemap>, oversampled: Option<u64>) -> AnnRun {
    AnnRun {
        k,
        allowed,
        shadow: set(&[7]),
        covered: set(&[1, 2]),
        durable_rows: 100,
        oversampled,
        limits: AnnLimits { hot_overfetch: 2, hot_retries: 1, postfilter_retries: 1 },
        stage: AnnStage::Scan(AnnStrategy::Exact),
    }
}

#[test]
fn a_vector_search_has_one_path() {
    let p = AnnParams::none();
    let exact = AnnParams { exact: true, ..p };
    assert_eq!(choose_path(0, true, &p, Distance::Dot, &None, 5), AnnPath::Nothing);
    let scan = AnnPath::Scan(AnnStrategy::Exact);
    assert_eq!(choose_path(3, false, &p, Distance::Dot, &None, 5), scan);
    assert_eq!(choose_path(3, true, &exact, Distance::Dot, &None, 5), scan);
    assert_eq!(choose_path(3, true, &p, Distance::Manhattan, &None, 5), scan);
    assert_eq!(
        choose_path(3, true, &p, Distance::Dot, &Some(set(&[1])), 1),
        AnnPath::Scan(AnnStrategy::BruteForceAllowed)
    );
    assert_eq!(choose_path(3, true, &p, Distance::Dot, &Some(set(&[1, 2])), 1), AnnPath::Indexed);
    assert_eq!(vector_spec(&schema(), "v", 2).unwrap(), 0);
    let refusal = |name: &str, len: usize| vector_spec(&schema(), name, len).unwrap_err().message();
    assert_eq!(refusal("s", 2), "invalid argument: s is a sparse vector");
    assert_eq!(refusal("x", 2), "invalid argument: unknown vector x");
    assert_eq!(
        refusal("v", 3),
        "invalid argument: vector v has 2 dimensions, the query has 3"
    );
}

#[test]
fn an_unfiltered_search_blocks_shadowed_rows() {
    let r = run(2, None, None).begin(AnnPath::Indexed, false);
    match r.action() {
        AnnAction::Nearest { k: 2, mask: RowMask::Block(t), .. } => assert_eq!(t, set(&[7])),
        _ => panic!("nearest"),
    }
    let r = r.on(AnnEvent::Nearest { hits: vec![scored(1, 1.0)], returned: 1 });
    assert!(matches!(r.action(), AnnAction::Finish));
    assert!(matches!(r.stage, AnnStage::Done { strategy: AnnStrategy::Postfilter, .. }));
}

#[test]
fn a_postfilter_widens_and_then_prefilters() {
    let r = run(2, Some(set(&[1, 2, 3])), Some(4)).begin(AnnPath::Indexed, false);
    let few = |returned: u64| AnnEvent::Nearest { hits: vec![scored(1, 1.0), scored(9, 0.5)], returned };
    let r = r.on(few(4));
    assert!(matches!(r.stage, AnnStage::Index { search: IndexSearch::Post { k1: 16, retries: 1 }, .. }));
    let r = r.on(few(16));
    assert!(matches!(r.stage, AnnStage::Index { search: IndexSearch::Pre, .. }));
    match r.action() {
        AnnAction::Nearest { mask: RowMask::Allow(t), prefilter: true, .. } => {
            assert_eq!(t, set(&[1, 2, 3]))
        }
        _ => panic!("prefilter"),
    }
    // What a short answer returned is all there is.
    let r = run(2, Some(set(&[1, 2, 3])), Some(4)).begin(AnnPath::Indexed, false).on(few(3));
    match r.stage {
        AnnStage::Done { hits, strategy } => {
            assert_eq!(scored_rows(&hits), vec![1]);
            assert_eq!(strategy, AnnStrategy::Postfilter);
        }
        _ => panic!("done"),
    }
}

#[test]
fn hot_hits_are_merged_with_uncovered_rows() {
    let r = run(1, None, None).begin(AnnPath::Indexed, true);
    assert!(matches!(r.action(), AnnAction::Hot { k2: 18 }));
    let r = r.on(AnnEvent::Hot { returned: 18, live: vec![] });
    assert!(matches!(r.action(), AnnAction::Hot { k2: 72 }));
    let r = r.on(AnnEvent::Hot { returned: 5, live: vec![2] });
    assert!(matches!(r.action(), AnnAction::Take { rows } if rows == vec![2]));
    let r = r.on(AnnEvent::Taken(vec![scored(2, 0.5)]));
    match r.action() {
        AnnAction::Nearest { mask: RowMask::Block(t), .. } => assert_eq!(t, set(&[1, 2, 7])),
        _ => panic!("uncovered"),
    }
    let r = r.on(AnnEvent::Nearest { hits: vec![scored(4, 0.9)], returned: 1 });
    match r.stage {
        AnnStage::Done { hits, strategy } => {
            assert_eq!(scored_rows(&hits), vec![4]);
            assert_eq!(strategy, AnnStrategy::Hot);
        }
        _ => panic!("done"),
    }
    let r = run(1, None, None).begin(AnnPath::Indexed, true).on(AnnEvent::HotFailed);
    assert!(matches!(r.stage, AnnStage::Index { search: IndexSearch::Blocking, hot: None }));
}

#[test]
fn tail_vectors_join_the_durable_hits() {
    let doc = |row: u64, vector: Option<(usize, u32)>| TailVector {
        row_id: row,
        pk: PrimaryKey::U64(row),
        vector,
    };
    let list = || vec![doc(1, Some((2, f(0.5)))), doc(2, None), doc(3, Some((3, f(9.0))))];
    let hits = tail_hits(list(), &None, 2, 5);
    assert_eq!(scored_rows(&hits), vec![1]);
    assert!(tail_hits(list(), &Some(set(&[2])), 2, 5).is_empty());
    let merged = merge_tail(2, vec![scored(8, 0.1), scored(9, 0.9)], hits);
    assert_eq!(rows(&merged), vec![9, 1]);
    assert!(!is_live(5, 10, &set(&[5]), Some(false)));
    assert!(is_live(5, 10, &set(&[]), Some(false)));
    assert!(!is_live(5, 10, &set(&[]), Some(true)));
}

#[test]
fn candidates_cross_a_batch_unchanged() {
    let rows_in = vec![
        sorted_hit(1, vec![SortValue::I64(1), SortValue::Null]),
        Ranked { row_id: 2, pk: PrimaryKey::Str("k".to_string()), score: f(0.5), sort: vec![] },
    ];
    let batch = ranked_to_batch(&rows_in);
    assert_eq!(batch.row_ids, vec![1, 2]);
    let read = batch_to_ranked(&batch).unwrap();
    assert_eq!(rows(&read), vec![1, 2]);
    assert!(read[1].pk.same(&rows_in[1].pk));
    assert_eq!(read[0].sort.len(), 2);
    let keyed_rows = keyed(&[4, 5]);
    let keyed_batch = keyed_to_batch(&keyed_rows);
    assert_eq!(batch_to_keyed(&keyed_batch).unwrap().len(), 2);
    assert_eq!(ROWID_COLUMN, "_rowid");
    assert!(batch_to_keyed(&KeyedBatch { row_ids: vec![1], pks: vec![vec![9]] }).is_err());
    let broken = RankedBatch {
        row_ids: vec![1],
        pks: vec![Some(vec![9])],
        scores: vec![0],
        sorts: vec![None],
    };
    assert!(batch_to_ranked(&broken).is_err());
}

fn fields() -> Vec<(String, FieldClass)> {
    vec![("n".to_string(), FieldClass::Other), ("t".to_string(), FieldClass::Words)]
}

#[test]
fn queries_of_one_score_are_planned_as_filters() {
    let constant = Query::ConstantScore { query: Box::new(term("t")), score: f(3.0) };
    let u = uniform_score(&constant, &fields()).unwrap();
    assert_eq!((u.base, u.steps), (f(3.0), vec![]));
    let boosted = Query::Boost { query: Box::new(Query::MatchAll), boost: f(2.0) };
    let u = uniform_score(&boosted, &fields()).unwrap();
    assert_eq!((u.base, u.steps), (f(1.0), vec![ScoreStep::Times(f(2.0))]));
    let words = Query::Match {
        field: "t".to_string(),
        text: "a".to_string(),
        operator: BoolOperator::Or,
        minimum_should_match: None,
        fuzziness: None,
        analyzer: None,
    };
    assert!(uniform_score(&words, &fields()).is_none());
    assert!(score_only(&EffectiveSort::by_score()));
    assert!(!score_only(&by_field(SortOrder::Asc, MissingOrder::Last)));
    assert!(and(&None, &None).is_none());
    assert!(matches!(and(&Some(term("a")), &Some(term("b"))), Some(Query::Bool { .. })));
    assert!(matches!(matching(&Query::MatchAll, &None), Query::MatchAll));
}

#[test]
fn retrievers_become_a_plan() {
    let s = schema();
    let fs = fields();
    let filter = Some(term("n"));
    let context = Context { schema: &s, fields: &fs, score_only: true, filter: &filter };
    match context.plan(&vector_retriever()).unwrap() {
        PlanNode::Ann { field, k: 3, filter: Some(_), .. } => assert_eq!(field, "v"),
        _ => panic!("ann"),
    }
    assert!(matches!(context.plan(&text_retriever()), Ok(PlanNode::ConstantText { .. })));
    let by_value = Context { schema: &s, fields: &fs, score_only: false, filter: &filter };
    assert!(matches!(by_value.plan(&text_retriever()), Ok(PlanNode::Text { .. })));
    let sparse = Retriever::Sparse {
        field: "s".to_string(),
        query: SparseVector { indices: vec![1], values: vec![f(1.0)] },
        k: 2,
        filter: None,
        idf_corpus: None,
    };
    assert!(matches!(context.plan(&sparse), Ok(PlanNode::Sparse { .. })));
    let rescored = Retriever::Rescore {
        input: Box::new(text_retriever()),
        field: "v".to_string(),
        query: vec![f(1.0), f(0.0)],
        k: 2,
    };
    assert!(matches!(context.plan(&rescored), Ok(PlanNode::Rescore { vector: 0, .. })));
    let both = vec![vector_retriever(), text_retriever()];
    let root = context.plan_root(&both, &Some(Fusion::Dbsf)).unwrap();
    assert!(matches!(root, PlanNode::Fusion { inputs, .. } if inputs.len() == 2));
    let wrong = Retriever::Rescore {
        input: Box::new(text_retriever()),
        field: "x".to_string(),
        query: vec![],
        k: 1,
    };
    let refused: Result<PlanNode, ServiceError> = context.plan(&wrong);
    assert!(refused.is_err());
}
