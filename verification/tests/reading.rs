//! Read views and scan plans.

use operon_query::collection::{
    CollectionSchema, DynamicMapping, HnswParams, SparseModifier, SparseVectorSpec, VectorElement,
    VectorIndexSpec, VectorSpec,
};
use operon_query::exec::doc_fetch::SystemColumns;
use operon_query::ir::{ConsistencyToken, Distance, ReadConsistency};
use operon_query::json::value::{Json, Number};
use operon_query::read::{
    asked_offsets, begin_view, bitmap_step, bitmap_weight, check_pinned_offsets, check_pointed,
    checked_head, collection_error, eventual_token, find_version, high_watermarks, lag_of,
    may_be_retained, offset_in, on_pinned_head, on_range, on_sync, pinned_range_error,
    pinned_upper, tail_error, token_of, BitmapStep, Collection, CollectionHead,
    CollectionManifest, PinStep, Pointer, ReadView, StorageError, SyncStep, TailError, ViewStep,
    SNAPSHOT_IDLE,
};
use operon_query::scan::{
    applied_offsets, chain_point, column_index, dataset_uri, empty_point, no_dataset, on_woken,
    plan_scan, relative_manifest_path, scan_columns, scan_current, scan_fragment, scan_version,
    token_point, token_text, ColumnRole, DeletionKind, FragmentFacts, ScanAt, ScanFragment,
    ScanOffsets, ScanRequest, VersionStep, Woken, PIN_MANIFEST_METADATA, PK_ENCODING,
};
use roaring::RoaringTreemap;
use std::collections::BTreeMap;

fn schema() -> CollectionSchema {
    CollectionSchema {
        version: 3,
        fields: vec![],
        vectors: vec![VectorSpec {
            name: "v".to_string(),
            dim: 4,
            distance: Distance::Dot,
            element: VectorElement::F32,
            index: VectorIndexSpec::Unindexed,
            hnsw: HnswParams {
        m: 16,
        ef_construct: 100,
        full_scan_threshold_kb: 10_000,
        payload_m: None,
        on_disk: false,
    },
            quantization: None,
        }],
        sparse_vectors: vec![SparseVectorSpec {
            name: "s".to_string(),
            modifier: SparseModifier::Idf,
        }],
        dynamic: DynamicMapping::Ignore,
        max_fields: 10,
        annotations: vec![],
    }
}

fn collection() -> Collection {
    Collection {
        id: 5,
        namespace: 1,
        name: "c".to_string(),
        schema: schema(),
        stream: 7,
        partitions: 2,
    }
}

fn head(pointer: Option<u64>) -> CollectionHead {
    CollectionHead {
        collection: collection(),
        pointer: pointer.map(|version| Pointer { value: "p".to_string(), version }),
        high_watermarks: vec![10],
        log_start_offsets: vec![0, 0],
        clock_ms: 1_000,
    }
}

fn manifest(version: u64, applied: &[(u32, u64)]) -> CollectionManifest {
    CollectionManifest {
        collection_id: 5,
        version,
        schema_version: 2,
        created_at_ms: version * 100,
        live_doc_count: 6,
        lance_version: 9,
        applied: applied.iter().copied().collect(),
        split_sizes: vec![],
    }
}

fn token(entries: &[(u64, u32, u64)]) -> ConsistencyToken {
    ConsistencyToken { entries: entries.to_vec() }
}

fn map(entries: &[(u32, u64)]) -> BTreeMap<u32, u64> {
    entries.iter().copied().collect()
}

#[test]
fn offsets_default_to_zero() {
    assert_eq!(SNAPSHOT_IDLE, 300_000);
    assert_eq!(offset_in(&map(&[(1, 4)]), 1), 4);
    assert_eq!(offset_in(&map(&[(1, 4)]), 0), 0);
    assert_eq!(high_watermarks(3, &vec![5, 6]), map(&[(0, 5), (1, 6), (2, 0)]));
    assert_eq!(asked_offsets(3, &vec![Some(5), None]), map(&[(0, 5), (1, 0), (2, 0)]));
    assert_eq!(
        token_of(7, 2, &map(&[(1, 4)])).entries,
        vec![(7, 0, 0), (7, 1, 4)]
    );
}

#[test]
fn storage_errors_are_unavailable_or_internal() {
    let err = |retryable| StorageError { retryable, message: "m".to_string() };
    assert_eq!(collection_error(err(true)).message(), "unavailable: m");
    assert_eq!(collection_error(err(false)).message(), "internal error: m");
}

#[test]
fn tail_errors_are_errors_of_the_service() {
    assert_eq!(tail_error(TailError::Timeout, "c").message(), "timed out");
    assert_eq!(tail_error(TailError::Stopped, "c").message(), "collection \"c\" not found");
    assert_eq!(
        tail_error(TailError::LogBusy("b".to_string()), "c").message(),
        "unavailable: b"
    );
    assert_eq!(
        tail_error(TailError::Log("l".to_string()), "c").message(),
        "internal error: l"
    );
    assert_eq!(
        tail_error(TailError::Trimmed("gone".to_string()), "c").message(),
        "unavailable: collection c: gone"
    );
    let storage = StorageError { retryable: true, message: "m".to_string() };
    assert_eq!(
        tail_error(TailError::Collection(storage), "c").message(),
        "unavailable: m"
    );
}

#[test]
fn a_view_begins_by_its_consistency() {
    let c = collection();
    let none = vec![];
    assert!(matches!(begin_view(1, &c, &ReadConsistency::Strong, &none), Ok(ViewStep::Head)));
    assert!(matches!(
        begin_view(1, &c, &ReadConsistency::Eventual, &none),
        Ok(ViewStep::Current)
    ));
    match begin_view(1, &c, &ReadConsistency::AtLeast(token(&[])), &vec![None, Some(3)]) {
        Ok(ViewStep::Sync { targets }) => assert_eq!(targets, map(&[(0, 0), (1, 3)])),
        other => panic!("{other:?}"),
    }
    assert!(begin_view(2, &c, &ReadConsistency::Strong, &none).is_err());
    let pin = |entries: &[(u64, u32, u64)]| ReadConsistency::Pinned {
        manifest_version: 4,
        token: token(entries),
    };
    match begin_view(1, &c, &pin(&[(7, 1, 2), (7, 0, 5), (7, 1, 9)]), &none) {
        Ok(ViewStep::Pin { version, upper }) => {
            assert_eq!(version, 4);
            assert_eq!(upper, map(&[(0, 5), (1, 9)]));
        }
        other => panic!("{other:?}"),
    }
    assert_eq!(
        begin_view(1, &c, &pin(&[(7, 0, 5)]), &none).unwrap_err().message(),
        "pin \"c@4\" not found"
    );
    assert!(begin_view(1, &c, &pin(&[(8, 0, 5), (7, 1, 1), (7, 0, 1)]), &none).is_err());
    assert!(begin_view(1, &c, &pin(&[(7, 2, 5), (7, 1, 1), (7, 0, 1)]), &none).is_err());
}

#[test]
fn the_token_of_offsets_can_be_pinned() {
    let offsets = map(&[(0, 4), (1, 6)]);
    let t = token_of(7, 2, &offsets);
    assert_eq!(pinned_upper(&t, 7, 2), Some(offsets));
    assert_eq!(pinned_upper(&t, 7, 3), None);
    assert_eq!(pinned_upper(&token(&[]), 7, 0), Some(map(&[])));
}

#[test]
fn heads_of_other_namespaces_are_not_found() {
    assert!(checked_head(Some(head(None)), 1, "c").is_ok());
    assert!(checked_head(Some(head(None)), 2, "c").is_err());
    assert!(checked_head(None, 1, "c").is_err());
}

#[test]
fn a_full_tail_is_replaced_by_a_range() {
    let c = collection();
    match on_sync(&c, Ok(map(&[(0, 2)]))).unwrap() {
        SyncStep::Use(t) => assert_eq!(t.entries, vec![(7, 0, 2), (7, 1, 0)]),
        SyncStep::Range => panic!("not full"),
    }
    let full = || TailError::Overflow("full".to_string());
    assert!(matches!(on_sync(&c, Err(full())), Ok(SyncStep::Range)));
    assert!(on_sync(&c, Err(TailError::Timeout)).is_err());
    let targets = map(&[(0, 10), (1, 3)]);
    let applied = map(&[(0, 4), (1, 5)]);
    assert_eq!(lag_of(2, &targets, &applied), 6);
    assert_eq!(
        on_range(&c, Err(full()), &targets, &applied).unwrap_err().message(),
        "unavailable: collection c: 6 records are not yet applied; retry after the link catches up"
    );
    assert_eq!(
        on_range(&c, Ok(targets.clone()), &targets, &applied).unwrap().entries,
        vec![(7, 0, 10), (7, 1, 3)]
    );
    assert!(on_range(&c, Err(TailError::Stopped), &targets, &applied).is_err());
}

#[test]
fn an_eventual_token_is_the_higher_offset() {
    let t = eventual_token(&collection(), &map(&[(0, 4), (1, 5)]), &map(&[(0, 9)]));
    assert_eq!(t.entries, vec![(7, 0, 9), (7, 1, 5)]);
}

#[test]
fn a_pin_before_the_first_commit_needs_the_whole_log() {
    let c = collection();
    assert_eq!(on_pinned_head(&c, &head(None), 0).unwrap(), PinStep::Empty);
    assert_eq!(on_pinned_head(&c, &head(Some(3)), 3).unwrap(), PinStep::Retained);
    let mut trimmed = head(None);
    trimmed.log_start_offsets = vec![0, 1];
    assert_eq!(
        on_pinned_head(&c, &trimmed, 0).unwrap_err().message(),
        "pin \"c@0\" not found"
    );
    assert!(on_pinned_head(&c, &trimmed, 2).is_ok());
    let mut moved = head(None);
    moved.collection.stream = 8;
    assert!(on_pinned_head(&c, &moved, 2).is_err());
}

#[test]
fn a_pointer_names_its_manifest() {
    let p = Pointer { value: "path".to_string(), version: 4 };
    assert!(check_pointed(&p, 5, &manifest(4, &[])).is_ok());
    assert_eq!(
        check_pointed(&p, 6, &manifest(3, &[])).unwrap_err().message(),
        "internal error: path is version 3 of collection 5, but the pointer of collection 6 is at version 4"
    );
    assert!(may_be_retained(&Some(p), 4));
    let p = Pointer { value: "path".to_string(), version: 4 };
    assert!(!may_be_retained(&Some(p), 5));
    assert!(!may_be_retained(&None, 0));
    let chain = vec![manifest(4, &[]), manifest(3, &[])];
    assert_eq!(find_version(&chain, 3), Some(1));
    assert_eq!(find_version(&chain, 2), None);
}

#[test]
fn a_pin_is_not_older_than_its_manifest() {
    let applied = map(&[(0, 4)]);
    assert!(check_pinned_offsets(2, &map(&[(0, 4), (1, 0)]), &applied, 3).is_ok());
    assert_eq!(
        check_pinned_offsets(2, &map(&[(0, 3), (1, 0)]), &applied, 3).unwrap_err().message(),
        "invalid argument: the pinned token is older than manifest 3"
    );
    let c = collection();
    assert_eq!(
        pinned_range_error(&c, 3, TailError::Trimmed("x".to_string())).message(),
        "pin \"c@3\" not found"
    );
    assert_eq!(pinned_range_error(&c, 3, TailError::Timeout).message(), "timed out");
}

#[test]
fn a_view_counts_the_rows_that_the_tail_leaves() {
    let mut shadow = RoaringTreemap::new();
    shadow.insert(3);
    shadow.insert(u64::MAX - 1);
    let mut view = ReadView {
        ns: 1,
        collection: collection(),
        manifest: manifest(1, &[]),
        shadow,
        tail_live: 5,
        read_token: token(&[]),
    };
    assert_eq!(view.live_rows(), 6 - 2 + 5);
    assert!(view.is_shadowed(3));
    assert!(!view.is_shadowed(4));
    view.manifest.live_doc_count = 1;
    assert_eq!(view.live_rows(), 5);
}

#[test]
fn bitmaps_are_weighed_with_their_paths() {
    assert_eq!(bitmap_weight(10, 5), 15);
    assert_eq!(bitmap_weight(u32::MAX as usize, 5), u32::MAX);
    assert!(matches!(bitmap_step(&None), BitmapStep::Empty));
    assert!(matches!(bitmap_step(&Some("p".to_string())), BitmapStep::Load(p) if p == "p"));
}

fn object(key: &str, v: Json) -> Json {
    Json::Object(vec![(key.to_string(), v)])
}

fn text(s: &str) -> Json {
    Json::Text(s.to_string())
}

#[test]
fn scan_points_are_read_from_json() {
    assert_eq!(PK_ENCODING, "operon_canonical_v1");
    assert_eq!(PIN_MANIFEST_METADATA, "operon-pin-manifest");
    let unparsed = || Err("bad".to_string());
    assert!(matches!(ScanAt::from_json(&text("current"), unparsed()), Ok(ScanAt::Current)));
    let at = object("manifest_version", Json::Number(Number::Unsigned(7)));
    assert!(matches!(ScanAt::from_json(&at, unparsed()), Ok(ScanAt::ManifestVersion(7))));
    let at = object("token", text("v1:x"));
    assert_eq!(token_text(&at), Some("v1:x".to_string()));
    assert_eq!(
        ScanAt::from_json(&at, unparsed()).unwrap_err().message(),
        "invalid argument: invalid consistency token in the scan point: bad"
    );
    match ScanAt::from_json(&at, Ok(token(&[(7, 0, 1)]))) {
        Ok(ScanAt::Token(t)) => assert_eq!(t.entries, vec![(7, 0, 1)]),
        other => panic!("{other:?}"),
    }
    assert_eq!(
        ScanAt::from_json(&object("tag", text("t")), unparsed()).unwrap_err().message(),
        "invalid argument: tags arrive in M2 (D52)"
    );
    assert_eq!(
        ScanAt::from_json(&object("token", Json::Null), unparsed()).unwrap_err().message(),
        "invalid argument: unknown scan point {\"token\":null}"
    );
    assert_eq!(
        ScanAt::from_json(&text("now"), unparsed()).unwrap_err().message(),
        "invalid argument: unknown scan point \"now\""
    );
    assert!(ScanAt::from_json(&Json::Object(vec![]), unparsed()).is_err());
    let wrong = object("manifest_version", Json::Number(Number::Negative(-1)));
    assert!(ScanAt::from_json(&wrong, unparsed()).is_err());
    assert!(ScanAt::from_json(&Json::Bool(true), unparsed()).is_err());
    assert!(matches!(ScanRequest::default().at, ScanAt::Current));
}

#[test]
fn the_current_point_is_the_high_watermarks() {
    let point = scan_current(&head(Some(3)), 3, 500);
    assert_eq!(point.targets, map(&[(0, 10), (1, 0)]));
    assert_eq!(point.planned_at_ms, 1_000);
    assert_eq!(point.expires_at_ms, Some(1_500));
    assert_eq!(scan_current(&head(None), 0, 500).expires_at_ms, None);
    assert_eq!(scan_current(&head(Some(3)), 3, u64::MAX).expires_at_ms, Some(u64::MAX));
}

#[test]
fn a_retained_version_expires_after_it_was_superseded() {
    assert_eq!(scan_version(&head(None), 0).unwrap(), VersionStep::Empty);
    assert!(scan_version(&head(None), 1).is_err());
    assert_eq!(scan_version(&head(Some(3)), 3).unwrap(), VersionStep::Chain);
    assert_eq!(
        scan_version(&head(Some(3)), 4).unwrap_err().message(),
        "pin \"c@4\" not found"
    );
    let chain = vec![manifest(3, &[(0, 9)]), manifest(2, &[(0, 4)])];
    let (i, point) = chain_point(&head(Some(3)), &chain, 2, 50).unwrap();
    assert_eq!(i, 1);
    assert_eq!(point.targets, map(&[(0, 4), (1, 0)]));
    assert_eq!(point.expires_at_ms, Some(350));
    let (_, live) = chain_point(&head(Some(3)), &chain, 3, 50).unwrap();
    assert_eq!(live.expires_at_ms, Some(1_050));
    assert!(chain_point(&head(Some(3)), &chain, 1, 50).is_err());
    assert_eq!(empty_point(&head(None)).targets, map(&[(0, 0), (1, 0)]));
    assert_eq!(applied_offsets(2, &map(&[(0, 4)])), map(&[(0, 4), (1, 0)]));
}

#[test]
fn a_token_waits_for_a_manifest_that_holds_it() {
    let m = manifest(3, &[(0, 9), (1, 2)]);
    assert!(token_point(&head(Some(3)), &m, &map(&[(0, 10)]), 50).is_none());
    let point = token_point(&head(Some(3)), &m, &map(&[(0, 8), (1, 2)]), 50).unwrap();
    assert_eq!(point.targets, map(&[(0, 9), (1, 2)]));
    assert_eq!(point.expires_at_ms, Some(1_050));
    assert!(on_woken(Woken::Changed).is_ok());
    assert_eq!(
        on_woken(Woken::Stopped).unwrap_err().message(),
        "unavailable: the metastore stopped"
    );
    assert_eq!(on_woken(Woken::Deadline).unwrap_err().message(), "timed out");
}

#[test]
fn places_are_relative_to_the_dataset() {
    assert_eq!(
        relative_manifest_path("a/_versions/b/_versions/d1.manifest"),
        "_versions/d1.manifest"
    );
    assert_eq!(relative_manifest_path("d1.manifest"), "d1.manifest");
    assert_eq!(
        dataset_uri(&Some("s3://b//".to_string()), "c/5/"),
        Some("s3://b/c/5".to_string())
    );
    assert_eq!(dataset_uri(&None, "c/5/"), None);
    assert_eq!(
        no_dataset(&collection(), &manifest(3, &[])).message(),
        "internal error: manifest 3 of c names lance version 9 but opened none"
    );
}

fn facts(deleted_rows: u64) -> FragmentFacts {
    FragmentFacts {
        id: 4,
        physical_rows: 10,
        deleted_rows,
        files: vec![("x.lance".to_string(), Some(3)), ("y.lance".to_string(), None)],
        deletion: Some(("_deletions/4".to_string(), DeletionKind::Bitmap)),
        lance: Json::Null,
    }
}

#[test]
fn a_fragment_has_its_live_rows_and_files() {
    let f = scan_fragment(facts(4)).unwrap();
    assert_eq!((f.physical_rows, f.deleted_rows, f.live_rows), (10, 4, 6));
    assert_eq!(f.files[0].path, "data/x.lance");
    assert_eq!(f.files[1].size_bytes, None);
    let deletion = f.deletion_file.unwrap();
    assert_eq!((deletion.kind, deletion.deleted_rows), (DeletionKind::Bitmap, 4));
    assert_eq!(
        scan_fragment(facts(11)).unwrap_err().message(),
        "internal error: lance fragment 4 has 11 deleted of 10 rows"
    );
}

#[test]
fn columns_have_roles() {
    let names = SystemColumns {
        row_id: "_rowid".to_string(),
        pk: "_pk".to_string(),
        source: "_source".to_string(),
        partition: "_ingest_partition".to_string(),
        offset: "_ingest_offset".to_string(),
    };
    let fields = |list: &[&str]| -> Vec<(String, String)> {
        list.iter().map(|n| (n.to_string(), "T".to_string())).collect()
    };
    assert_eq!(column_index("_vector_12", "_vector_"), Some(12));
    assert_eq!(column_index("_vector_x", "_vector_"), None);
    assert_eq!(column_index("_sparse_1", "_vector_"), None);
    let all = fields(&[
        "_pk",
        "_source",
        "_ingest_partition",
        "_ingest_offset",
        "_vector_0",
        "_sparse_0",
    ]);
    let columns = scan_columns(&collection(), &names, &all).unwrap();
    let roles: Vec<ColumnRole> = columns.iter().map(|c| c.role).collect();
    assert_eq!(
        roles,
        vec![
            ColumnRole::Pk,
            ColumnRole::Source,
            ColumnRole::IngestPartition,
            ColumnRole::IngestOffset,
            ColumnRole::Vector,
            ColumnRole::SparseVector,
        ]
    );
    assert_eq!(columns[4].vector.as_deref(), Some("v"));
    assert_eq!(columns[4].dim, Some(4));
    assert_eq!(columns[4].distance.as_deref(), Some("dot"));
    assert_eq!(columns[5].modifier.as_deref(), Some("idf"));
    assert_eq!(
        scan_columns(&collection(), &names, &fields(&["_pk", "_vector_1"])).unwrap_err().message(),
        "internal error: the lance version of c has column _vector_1, which schema version 3 does not describe"
    );
    assert!(scan_columns(&collection(), &names, &fields(&["other"])).is_err());
}

fn fragment(live_rows: u64) -> ScanFragment {
    let mut f = scan_fragment(facts(0)).unwrap();
    f.live_rows = live_rows;
    f
}

#[test]
fn a_plan_names_one_state() {
    let m = manifest(3, &[(0, 4)]);
    let point = scan_current(&head(Some(3)), 3, 500);
    let plan = plan_scan(
        "ns",
        &collection(),
        &m,
        &point,
        None,
        vec![fragment(4), fragment(2)],
        vec![],
    )
    .unwrap();
    assert_eq!((plan.live_rows, plan.tail_records, plan.tail), (6, 6, true));
    assert_eq!(plan.schema_version, 2);
    assert_eq!(plan.offsets[0], ScanOffsets { partition: 0, applied: 4, target: 10 });
    assert_eq!(plan.durable_token.entries, vec![(7, 0, 4), (7, 1, 0)]);
    assert_eq!(plan.pin.token.entries, vec![(7, 0, 10), (7, 1, 0)]);
    match plan.pinned() {
        ReadConsistency::Pinned { manifest_version, token } => {
            assert_eq!(manifest_version, 3);
            assert_eq!(pinned_upper(&token, 7, 2), Some(point.targets.clone()));
        }
        other => panic!("{other:?}"),
    }
    assert_eq!(
        plan_scan("ns", &collection(), &m, &point, None, vec![fragment(5)], vec![])
            .unwrap_err()
            .message(),
        "internal error: scan plan of c@3: lance holds 5 live rows, the manifest 6"
    );
}

#[test]
fn a_plan_without_a_tail_holds_the_requested_state() {
    let mut m = manifest(0, &[]);
    m.live_doc_count = 0;
    let point = empty_point(&head(None));
    let plan = plan_scan("ns", &collection(), &m, &point, None, vec![], vec![]).unwrap();
    assert!(!plan.tail);
    assert_eq!(plan.schema_version, 3);
    assert_eq!(plan.expires_at_ms, None);
    assert_eq!(plan.pk_encoding, PK_ENCODING);
}
