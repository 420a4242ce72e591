//! The hot switch, placement, the catalog's names and the facade's
//! decisions.

use operon_query::catalog_cache::{CatalogNames, NsEntry, RETRY};
use operon_query::collection::{
    CollectionSchema, DynamicMapping, FieldKind, FieldSpec, HnswParams, VectorElement,
    VectorIndexSpec, VectorSpec,
};
use operon_query::error::ServiceError;
use operon_query::hot::{
    bad_header, current, parse_hot_header, HotError, HotKind, HotLayer, HotState, HotStateKind,
    HotStatus, HotUsed, NoHotTier, RequestHot, HOT_HEADER, HOT_USED_HEADER,
};
use operon_query::ir::Distance;
use operon_query::json::alias::AliasAction;
use operon_query::placement::{LocalOnly, NoRemoteReads, Owner, FORWARDED_HEADER};
use operon_query::read::{
    Collection, CollectionHead, CollectionManifest, Pointer, ReadConfig,
};
use operon_query::service::{
    after_attempt, check_additive, drop_target, ensured, first_schema, forwarded, info_of, list_collections,
    next_schema, on_aliases, on_created, on_dropped, on_taken, on_updated, partition_count, pin,
    remote_owner, requested_shape, resolve, versions, visible, without_namespace,
    Attempt, CreateStep, MetaError, Rejection, ServiceConfig, SqlConfig, UpdateStep,
    CREATED_AT_ANNOTATION,
};
use std::collections::BTreeMap;

fn hnsw() -> HnswParams {
    HnswParams {
        m: 16,
        ef_construct: 100,
        full_scan_threshold_kb: 10_000,
        payload_m: None,
        on_disk: false,
    }
}

fn field(name: &str, kind: FieldKind) -> FieldSpec {
    FieldSpec {
        name: name.to_string(),
        source_path: name.to_string(),
        kind,
        indexed: true,
        fast: true,
        ignore_malformed: false,
    }
}

fn vector(name: &str, dim: u32) -> VectorSpec {
    VectorSpec {
        name: name.to_string(),
        dim,
        distance: Distance::Cosine,
        element: VectorElement::F32,
        index: VectorIndexSpec::Unindexed,
        hnsw: hnsw(),
        quantization: None,
    }
}

fn schema(fields: Vec<FieldSpec>, vectors: Vec<VectorSpec>, notes: Vec<(&str, &str)>) -> CollectionSchema {
    CollectionSchema {
        version: 1,
        fields,
        vectors,
        sparse_vectors: Vec::new(),
        dynamic: DynamicMapping::Ignore,
        max_fields: 100,
        annotations: notes
            .into_iter()
            .map(|(a, b)| (a.to_string(), b.to_string()))
            .collect(),
    }
}

fn collection(id: u64, ns: u64, name: &str, s: CollectionSchema) -> Collection {
    Collection {
        id,
        namespace: ns,
        name: name.to_string(),
        schema: s,
        stream: 7,
        partitions: 2,
    }
}

fn refused(rejection: Rejection) -> MetaError {
    MetaError { rejection, error: ServiceError::Internal("meta".to_string()) }
}

fn pairs(s: &CollectionSchema) -> Vec<(&str, &str)> {
    s.annotations.iter().map(|(a, b)| (a.as_str(), b.as_str())).collect()
}

#[test]
fn hot_headers_are_on_or_off_in_any_case() {
    assert_eq!(HOT_HEADER, "operon-hot");
    assert_eq!(HOT_USED_HEADER, "operon-hot-used");
    assert!(parse_hot_header("on").unwrap());
    assert!(parse_hot_header("ON").unwrap());
    assert!(!parse_hot_header("Off").unwrap());
    assert_eq!(
        parse_hot_header("maybe").unwrap_err().message(),
        "invalid argument: invalid Operon-Hot header: maybe (expected on or off)"
    );
    assert!(parse_hot_header(" on").is_err());
}

#[test]
fn used_structures_are_named_in_order() {
    let mut used = HotUsed::default();
    assert_eq!(used.header_value(), "none");
    used.record(HotKind::Splits);
    assert_eq!(used.header_value(), "splits");
    used.record(HotKind::Hnsw);
    used.record(HotKind::Splits);
    assert_eq!(used.kinds(), vec![HotKind::Hnsw, HotKind::Splits]);
    assert_eq!(used.header_value(), "hnsw,splits");
    assert_eq!(HotKind::Hnsw.name(), "hnsw");
}

#[test]
fn a_layer_sets_the_switch_of_each_request() {
    let service = HotLayer::new(true).layer(3u8);
    assert_eq!(*service.inner(), 3);
    assert!(service.begin(None).unwrap().enabled);
    assert!(!service.begin(Some("off")).unwrap().enabled);
    assert!(service.begin(Some("x")).is_err());
    let used = HotUsed::default();
    assert_eq!(service.report(false, &used), Some("none".to_string()));
    assert_eq!(service.report(true, &used), None);
}

#[test]
fn a_refused_header_is_answered_with_its_message() {
    let err = parse_hot_header("x").unwrap_err();
    assert_eq!(
        bad_header(&err).text(),
        "{\"error\":\"invalid_argument\",\"message\":\"invalid Operon-Hot header: x (expected on or off)\"}"
    );
    assert_eq!(
        bad_header(&ServiceError::Timeout).text(),
        "{\"error\":\"invalid_argument\",\"message\":\"timed out\"}"
    );
}

#[test]
fn without_a_hot_tier_nothing_is_hot() {
    assert!(!NoHotTier.has_ann());
    let off = HotState { state: HotStateKind::Off, source_version: None };
    assert_eq!(NoHotTier.status(), HotStatus { vectors: off, text: off, fragments: off });
    assert_eq!(HotStateKind::default(), HotStateKind::Off);
    assert_eq!(
        HotError::Unavailable("a".to_string()).message(),
        "hot artifact unavailable: a"
    );
    assert_eq!(HotError::Failed("b".to_string()).message(), "hot artifact failed: b");
    assert!(current(None).is_none());
    let mut hot = RequestHot { enabled: true, used: HotUsed::default() };
    hot.used.record(HotKind::Hnsw);
    // What the task recorded is what its scope shows.
    assert_eq!(current(Some(&hot)).unwrap().used.kinds(), vec![HotKind::Hnsw]);
    assert!(current(Some(&hot)).unwrap().enabled);
}

#[test]
fn every_collection_is_local_without_a_placement() {
    assert!(matches!(LocalOnly.owner(1, 2), Owner::Local));
    assert_eq!(FORWARDED_HEADER, "operon-forwarded");
    let refusal: Result<u8, ServiceError> = NoRemoteReads.refuse();
    assert_eq!(
        refusal.unwrap_err().message(),
        "unavailable: no remote read transport is configured"
    );
    assert!(remote_owner(Owner::Local).is_none());
    let there = Owner::Remote { node_id: 3, addr: "a:1".to_string() };
    assert!(matches!(remote_owner(there), Some(Owner::Remote { node_id: 3, .. })));
}

#[test]
fn names_are_sorted_and_a_collection_wins_over_an_alias() {
    assert_eq!(RETRY, 1_000);
    let collections = vec![("b".to_string(), 2), ("a".to_string(), 1)];
    let aliases = vec![
        ("z".to_string(), 1),
        ("a".to_string(), 2),
        ("lost".to_string(), 9),
        ("B".to_string(), 2),
    ];
    let entry = NsEntry::of(&collections, &aliases);
    let mut names = CatalogNames::empty();
    names.refresh("ns", Some(entry));
    assert_eq!(names.names("ns"), vec!["B", "a", "b", "lost", "z"]);
    assert_eq!(names.collection("ns", "a"), Some(1));
    assert_eq!(names.collection("ns", "z"), Some(1));
    assert_eq!(names.collection("ns", "B"), Some(2));
    assert_eq!(names.collection("ns", "lost"), None);
    assert!(names.names("other").is_empty());
}

#[test]
fn a_refresh_changes_one_namespace() {
    let mut names = CatalogNames::empty();
    let one = |n: &str, id: u64| NsEntry::of(&vec![(n.to_string(), id)], &Vec::new());
    names.refresh("x", Some(one("c", 1)));
    names.refresh("y", Some(one("d", 2)));
    names.refresh("x", Some(one("e", 3)));
    assert_eq!(names.collection("x", "c"), None);
    assert_eq!(names.collection("x", "e"), Some(3));
    assert_eq!(names.collection("y", "d"), Some(2));
    names.refresh("x", None);
    assert!(names.names("x").is_empty());
    assert_eq!(names.names("y"), vec!["d"]);
    names.refresh("w", None);
    assert_eq!(names.names("y"), vec!["d"]);
}

#[test]
fn configurations_have_their_defaults() {
    let config = ServiceConfig::default();
    assert_eq!(config.default_partitions, 4);
    assert_eq!(config.schema_retries, 5);
    assert_eq!(config.sql, SqlConfig { max_rows: 10_000, timeout: 30_000, batch_rows: 8_192 });
    let read = ReadConfig::default();
    assert_eq!(read.range_tail_max_bytes, 1 << 30);
    assert_eq!(read.bitmap_cache_bytes, 128 << 20);
    assert_eq!(config.read, read);
    assert!(config.request_hot(None).enabled);
    let off = RequestHot { enabled: false, used: HotUsed::default() };
    assert!(!config.request_hot(Some(off)).enabled);
}

#[test]
fn too_large_requests_are_refused() {
    let config = ServiceConfig::default();
    assert!(config.check_get(10_000).is_ok());
    assert_eq!(
        config.check_get(10_001).unwrap_err().message(),
        "invalid argument: a get takes at most 10000 keys, got 10001"
    );
    assert!(config.check_scroll(10_000).is_ok());
    assert_eq!(
        config.check_scroll(10_001).unwrap_err().message(),
        "invalid argument: a scroll page holds at most 10000 documents, got 10001"
    );
}

#[test]
fn a_read_that_its_owner_cannot_serve_runs_here() {
    assert!(forwarded::<u8>(Err(ServiceError::Timeout)).is_none());
    assert!(forwarded::<u8>(Err(ServiceError::Unavailable("x".to_string()))).is_none());
    assert!(matches!(forwarded(Ok(3u8)), Some(Ok(3))));
    let err = forwarded::<u8>(Err(ServiceError::Internal("x".to_string())));
    assert!(matches!(err, Some(Err(ServiceError::Internal(_)))));
}

#[test]
fn names_resolve_within_their_namespace() {
    let c = || Some(collection(5, 1, "c", schema(vec![], vec![], vec![])));
    assert_eq!(resolve(Some(1), c(), "c").unwrap().1.id, 5);
    assert_eq!(
        resolve(Some(2), c(), "c").unwrap_err().message(),
        "collection \"c\" not found"
    );
    assert!(resolve(None, c(), "c").is_err());
    assert!(resolve(Some(1), None, "c").is_err());
}

#[test]
fn namespaces_are_made_once() {
    assert!(ensured(Ok(())).is_ok());
    assert!(ensured(Err(refused(Rejection::NamespaceExists))).is_ok());
    assert!(ensured(Err(refused(Rejection::Other))).is_err());
    assert_eq!(visible("n", Some(4)).unwrap(), 4);
    assert_eq!(
        visible("n", None).unwrap_err().message(),
        "unavailable: namespace n is not visible yet"
    );
}

#[test]
fn a_new_collection_notes_when_it_was_created() {
    let s = schema(vec![field("t", FieldKind::Keyword)], vec![], vec![("z", "1"), ("zz", "2")]);
    let first = first_schema(s.copy(), 42);
    assert_eq!(pairs(&first), vec![(CREATED_AT_ANNOTATION, "42"), ("z", "1"), ("zz", "2")]);
    assert_eq!(first.version, 1);
    // Whenever it was created, it has the shape that was asked for.
    assert!(requested_shape(&first).same_ignoring_version(&requested_shape(&s)));
    let later = first_schema(first, 43);
    assert_eq!(pairs(&later)[0], (CREATED_AT_ANNOTATION, "43"));
    assert_eq!(partition_count(None, 4), 4);
    assert_eq!(partition_count(Some(9), 4), 9);
}

#[test]
fn a_repeated_creation_finds_its_collection() {
    let s = schema(vec![field("t", FieldKind::Keyword)], vec![], vec![]);
    let made = Some(collection(5, 1, "c", first_schema(s.copy(), 42)));
    assert_eq!(on_taken(&made, 1, "c", &s, None).unwrap(), 5);
    assert_eq!(on_taken(&made, 1, "c", &s, Some(2)).unwrap(), 5);
    assert!(on_taken(&made, 1, "c", &s, Some(3)).is_err());
    assert!(on_taken(&made, 2, "c", &s, None).is_err());
    assert!(on_taken(&made, 1, "alias", &s, None).is_err());
    let other = schema(vec![field("t", FieldKind::I64)], vec![], vec![]);
    assert_eq!(
        on_taken(&made, 1, "c", &other, None).unwrap_err().message(),
        "already exists: c"
    );
    assert!(on_taken(&None, 1, "c", &s, None).is_err());
    assert_eq!(on_created(Ok(3)).unwrap(), CreateStep::Made(3));
    assert_eq!(
        on_created(Err(refused(Rejection::CollectionExists(4)))).unwrap(),
        CreateStep::Made(4)
    );
    let taken = Rejection::NameTaken("c".to_string());
    assert_eq!(on_created(Err(refused(taken))).unwrap(), CreateStep::Compare);
    let wrong = Rejection::InvalidArgument("bad".to_string());
    assert_eq!(on_created(Err(refused(wrong))).unwrap_err().message(), "invalid argument: bad");
    assert_eq!(
        on_created(Err(refused(Rejection::Other))).unwrap_err().message(),
        "internal error: meta"
    );
}

#[test]
fn only_a_collection_itself_is_dropped() {
    let c = Some(collection(5, 1, "c", schema(vec![], vec![], vec![])));
    assert_eq!(drop_target(&c, 1, "c"), Some(5));
    assert_eq!(drop_target(&c, 1, "alias"), None);
    assert_eq!(drop_target(&c, 2, "c"), None);
    assert_eq!(on_dropped(Ok(Some(5))).unwrap(), Some(5));
    assert_eq!(on_dropped(Err(refused(Rejection::NamespaceNotFound))).unwrap(), None);
    assert!(on_dropped(Err(refused(Rejection::Other))).is_err());
}

#[test]
fn an_update_adds_what_is_new_and_a_retry_nothing() {
    let current = schema(vec![field("a", FieldKind::Keyword)], vec![vector("v", 2)], vec![("k", "1")]);
    let fields = vec![field("a", FieldKind::Keyword), field("b", FieldKind::I64)];
    let vectors = vec![vector("w", 3), vector("v", 2)];
    let notes = vec![("j".to_string(), "0".to_string()), ("k".to_string(), "2".to_string())];
    let next = next_schema(&current, &fields, &vectors, &notes).unwrap().unwrap();
    let names: Vec<&str> = next.fields.iter().map(|f| f.name.as_str()).collect();
    assert_eq!(names, vec!["a", "b"]);
    let dims: Vec<u32> = next.vectors.iter().map(|v| v.dim).collect();
    assert_eq!(dims, vec![2, 3]);
    assert_eq!(pairs(&next), vec![("j", "0"), ("k", "2")]);
    assert!(next_schema(&next, &fields, &vectors, &notes).unwrap().is_none());
}

#[test]
fn an_update_refuses_another_specification() {
    let current = schema(vec![field("a", FieldKind::Keyword)], vec![vector("v", 2)], vec![]);
    let fields = vec![field("a", FieldKind::I64)];
    assert_eq!(
        next_schema(&current, &fields, &vec![], &vec![]).unwrap_err().message(),
        "already exists: field a"
    );
    let vectors = vec![vector("v", 3)];
    assert_eq!(
        next_schema(&current, &vec![], &vectors, &vec![]).unwrap_err().message(),
        "already exists: field v"
    );
    assert!(check_additive(None).is_ok());
    assert_eq!(
        check_additive(Some("no".to_string())).unwrap_err().message(),
        "invalid argument: no"
    );
}

#[test]
fn an_update_is_tried_again_where_it_lost() {
    let s = schema(vec![], vec![], vec![]);
    let written = on_updated(Ok(9), s.copy(), "c").unwrap();
    assert!(matches!(&written, Attempt::Written(s) if s.version == 9));
    let lost = refused(Rejection::SchemaVersionMismatch);
    assert!(matches!(on_updated(Err(lost), s.copy(), "c"), Ok(Attempt::Lost)));
    let gone = refused(Rejection::CollectionNotFound);
    assert_eq!(
        on_updated(Err(gone), s.copy(), "c").unwrap_err().message(),
        "collection \"c\" not found"
    );
    assert!(on_updated(Err(refused(Rejection::Other)), s.copy(), "c").is_err());
    let step = after_attempt(1, 5, written).unwrap();
    assert!(matches!(step, UpdateStep::Done { schema, changed: true } if schema.version == 9));
    let step = after_attempt(5, 5, Attempt::Unchanged(s)).unwrap();
    assert!(matches!(step, UpdateStep::Done { changed: false, .. }));
    assert!(matches!(after_attempt(0, 5, Attempt::Lost), Ok(UpdateStep::Try)));
    assert!(matches!(after_attempt(4, 5, Attempt::Lost), Ok(UpdateStep::Try)));
    let raced = |retries| match after_attempt(retries, retries, Attempt::Lost) {
        Err(e) => e.message(),
        Ok(_) => panic!("tried again"),
    };
    assert_eq!(raced(5), "unavailable: schema update raced 5 times");
    assert_eq!(raced(0), "unavailable: schema update raced 0 times");
}

#[test]
fn aliases_name_collections() {
    let create = AliasAction::Create { alias: "a".to_string(), collection: "c".to_string() };
    let delete = AliasAction::Delete { alias: "a".to_string() };
    let actions = vec![delete, create];
    assert_eq!(
        without_namespace(&actions).unwrap_err().message(),
        "collection \"c\" not found"
    );
    assert!(without_namespace(&vec![AliasAction::Delete { alias: "a".to_string() }]).is_ok());
    assert!(on_aliases(Ok(()), &actions).is_ok());
    let taken = refused(Rejection::NameTaken("t".to_string()));
    assert_eq!(on_aliases(Err(taken), &actions).unwrap_err().message(), "already exists: t");
    let unknown = refused(Rejection::UnknownCollection("u".to_string()));
    assert_eq!(
        on_aliases(Err(unknown), &actions).unwrap_err().message(),
        "collection \"u\" not found"
    );
    let absent = refused(Rejection::NamespaceNotFound);
    assert_eq!(
        on_aliases(Err(absent), &actions).unwrap_err().message(),
        "collection \"c\" not found"
    );
    assert!(on_aliases(Err(refused(Rejection::Other)), &actions).is_err());
}

fn manifest(version: u64, sizes: Vec<u64>) -> CollectionManifest {
    CollectionManifest {
        collection_id: 5,
        version,
        schema_version: 1,
        created_at_ms: version * 10,
        live_doc_count: 100 + version,
        lance_version: 3,
        applied: BTreeMap::from([(0, 4)]),
        split_sizes: sizes,
    }
}

fn head(pointer: Option<u64>) -> CollectionHead {
    CollectionHead {
        collection: collection(
            5,
            1,
            "c",
            schema(vec![], vec![], vec![(CREATED_AT_ANNOTATION, "77")]),
        ),
        pointer: pointer.map(|version| Pointer { value: "p".to_string(), version }),
        high_watermarks: vec![10, 3],
        log_start_offsets: vec![0, 0],
        clock_ms: 1_000,
    }
}

#[test]
fn an_info_says_what_a_collection_holds() {
    let aliases = vec![("z".to_string(), 5), ("other".to_string(), 6), ("b".to_string(), 5)];
    let files = vec![7, 0, 8];
    let live = Some((2, manifest(2, vec![1, 2])));
    let info = info_of("ns", &head(Some(2)), live, &files, &aliases, HotStatus::default());
    assert_eq!(info.aliases, vec!["b", "z"]);
    assert_eq!(info.manifest_version, 2);
    assert_eq!(info.live_doc_count, 102);
    assert_eq!(info.size_bytes, 18);
    assert_eq!(info.created_at_ms, 77);
    assert_eq!(info.link_lag_records, 6 + 3);
    let fresh = info_of("ns", &head(None), None, &files, &aliases, HotStatus::default());
    assert_eq!((fresh.manifest_version, fresh.size_bytes, fresh.link_lag_records), (0, 0, 13));
}

#[test]
fn collections_are_listed_by_name() {
    let named = |name: &str| {
        let mut info =
            info_of("ns", &head(None), None, &vec![], &vec![], HotStatus::default());
        info.name = name.to_string();
        info
    };
    let list = list_collections(vec![named("b"), named("a"), named("B")]);
    let names: Vec<&str> = list.iter().map(|i| i.name.as_str()).collect();
    assert_eq!(names, vec!["B", "a", "b"]);
}

#[test]
fn versions_are_listed_oldest_first() {
    let chain = vec![manifest(3, vec![5]), manifest(2, vec![1, 2])];
    let infos = versions(&chain);
    assert_eq!(infos.iter().map(|i| i.version).collect::<Vec<_>>(), vec![2, 3]);
    assert_eq!(infos[0].size_bytes, 3);
    assert_eq!(infos[1].created_at_ms, 30);
}

#[test]
fn a_pin_names_the_manifest_and_the_high_watermarks() {
    let h = head(Some(4));
    let pinned = pin(&h.collection, &h);
    assert_eq!(pinned.manifest_version, 4);
    assert_eq!(pinned.token.entries, vec![(7, 0, 10), (7, 1, 3)]);
    assert_eq!(pin(&h.collection, &head(None)).manifest_version, 0);
}
