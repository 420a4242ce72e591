//! Scan pinning: a collection resolved into a plan that names one state of
//! it, so that an external reader can read the files of that state directly,
//! or fall back to a pinned read of the same state.

use crate::collection::SparseModifier;
use crate::error::{Failure, ServiceError};
use crate::exec::doc_fetch::SystemColumns;
use crate::ir::{ConsistencyToken, ConsistencyV, ReadConsistency};
use crate::json::schema;
use crate::json::value;
use crate::json::value::{Json, Tree};
use crate::read;
use crate::read::{Collection, CollectionHead, CollectionManifest, CollectionV};
use crate::text;
use std::collections::BTreeMap;
use vstd::prelude::*;
use vstd::string::*;

verus! {

broadcast use {crate::json::value::view_object, crate::json::value::view_array};

/// How a plan's key column encodes keys: the canonical form.
pub const PK_ENCODING: &'static str = "operon_canonical_v1";

/// The metadata key that pins a statement to a manifest version, beside its
/// token.
pub const PIN_MANIFEST_METADATA: &'static str = "operon-pin-manifest";

/// The state that a scan plan describes.
#[derive(Debug)]
pub enum ScanAt {
    /// The live manifest; the plan reports the writes that it does not hold.
    Current,
    /// A retained manifest version, as it is.
    ManifestVersion(u64),
    /// The first live manifest whose applied offsets cover the token.
    Token(ConsistencyToken),
}

/// What a scan point is.
pub enum AtV {
    Current,
    ManifestVersion(u64),
    Token(Seq<(u64, u32, u64)>),
}

impl View for ScanAt {
    type V = AtV;

    open spec fn view(&self) -> AtV {
        match self {
            ScanAt::Current => AtV::Current,
            ScanAt::ManifestVersion(v) => AtV::ManifestVersion(*v),
            ScanAt::Token(t) => AtV::Token(t@),
        }
    }
}

impl Default for ScanAt {
    /// The live manifest.
    fn default() -> (r: ScanAt)
        ensures
            r@ == AtV::Current,
    {
        ScanAt::Current
    }
}

/// The error of a value that is no scan point.
pub open spec fn unknown_point(t: Tree) -> Failure {
    Failure::InvalidArgument("unknown scan point "@ + value::json_text(t))
}

/// The text of a scan point's token, if it has one.
pub open spec fn point_token(t: Tree) -> Option<Seq<char>> {
    match t {
        Tree::Object(es) => if es.len() == 1 && es[0].0 == "token"@ {
            match es[0].1 {
                Tree::Text(s) => Some(s),
                _ => None,
            }
        } else {
            None
        },
        _ => None,
    }
}

/// What parsing a token's text gave: its entries, or the error as it shows.
pub open spec fn parsed_view(parsed: Result<ConsistencyToken, String>) -> Result<
    Seq<(u64, u32, u64)>,
    Seq<char>,
> {
    match parsed {
        Ok(token) => Ok(token@),
        Err(e) => Err(e@),
    }
}

/// The scan point of a value, of what its token's text parses to.
pub open spec fn point_in(t: Tree, parsed: Result<Seq<(u64, u32, u64)>, Seq<char>>) -> Result<
    AtV,
    Failure,
> {
    match t {
        Tree::Text(s) => if s == "current"@ {
            Ok(AtV::Current)
        } else {
            Err(unknown_point(t))
        },
        Tree::Object(es) => if es.len() != 1 {
            Err(unknown_point(t))
        } else if es[0].0 == "manifest_version"@ {
            match es[0].1 {
                Tree::Number(n) => match value::num_u64(n) {
                    Some(v) => Ok(AtV::ManifestVersion(v)),
                    None => Err(unknown_point(t)),
                },
                _ => Err(unknown_point(t)),
            }
        } else if es[0].0 == "token"@ {
            match point_token(t) {
                None => Err(unknown_point(t)),
                Some(_) => match parsed {
                    Ok(token) => Ok(AtV::Token(token)),
                    Err(e) => Err(
                        Failure::InvalidArgument(
                            "invalid consistency token in the scan point: "@ + e,
                        ),
                    ),
                },
            }
        } else if es[0].0 == "tag"@ {
            Err(Failure::InvalidArgument("tags arrive in M2 (D52)"@))
        } else {
            Err(unknown_point(t))
        },
        _ => Err(unknown_point(t)),
    }
}

fn no_such_point(value: &Json) -> (r: ServiceError)
    ensures
        r@ == unknown_point(value@),
{
    let shown = value.text();
    ServiceError::InvalidArgument(text::cat2("unknown scan point ", &shown))
}

/// The text of a scan point's token, if it has one.
pub fn token_text(value: &Json) -> (r: Option<String>)
    ensures
        text::opt_text(r) == point_token(value@),
{
    match value.as_object() {
        None => None,
        Some(es) => {
            if es.len() == 1 && text::same(&es[0].0, "token") {
                match &es[0].1 {
                    Json::Text(s) => Some(s.clone()),
                    _ => None,
                }
            } else {
                None
            }
        },
    }
}

impl ScanAt {
    /// The scan point of a value; `parsed` is what the text of its token
    /// parses to.
    pub fn from_json(value: &Json, parsed: Result<ConsistencyToken, String>) -> (r: Result<
        ScanAt,
        ServiceError,
    >)
        ensures
            match r {
                Ok(at) => point_in(value@, parsed_view(parsed)) == Ok::<AtV, Failure>(at@),
                Err(e) => point_in(value@, parsed_view(parsed)) == Err::<AtV, Failure>(e@),
            },
    {
        if let Json::Text(s) = value {
            if text::same(s, "current") {
                return Ok(ScanAt::Current);
            }
            return Err(no_such_point(value));
        }
        let es = match value.as_object() {
            Some(es) => es,
            None => {
                return Err(no_such_point(value));
            },
        };
        if es.len() != 1 {
            return Err(no_such_point(value));
        }
        let key = &es[0].0;
        if text::same(key, "manifest_version") {
            return match es[0].1.as_u64() {
                Some(v) => Ok(ScanAt::ManifestVersion(v)),
                None => Err(no_such_point(value)),
            };
        }
        if text::same(key, "token") {
            return match token_text(value) {
                None => Err(no_such_point(value)),
                Some(_) => match parsed {
                    Ok(token) => Ok(ScanAt::Token(token)),
                    Err(e) => Err(
                        ServiceError::InvalidArgument(
                            text::cat2("invalid consistency token in the scan point: ", &e),
                        ),
                    ),
                },
            };
        }
        if text::same(key, "tag") {
            return Err(ServiceError::InvalidArgument("tags arrive in M2 (D52)".to_owned()));
        }
        Err(no_such_point(value))
    }
}

/// The body of a scan.
#[derive(Debug)]
pub struct ScanRequest {
    pub at: ScanAt,
}

impl Default for ScanRequest {
    /// A scan of the live manifest.
    fn default() -> (r: ScanRequest)
        ensures
            r.at@ == AtV::Current,
    {
        ScanRequest { at: ScanAt::default() }
    }
}

/// The version of the files that a manifest names.
#[derive(Debug)]
pub struct LanceVersionRef {
    /// The dataset's place, without a slash at the end; none without a base.
    pub uri: Option<String>,
    pub version: u64,
    /// Relative to the dataset.
    pub manifest_path: String,
    pub storage_format: String,
    pub stable_row_ids: bool,
}

/// A data file of a fragment.
#[derive(Debug)]
pub struct ScanFile {
    /// Relative to the dataset.
    pub path: String,
    pub size_bytes: Option<u64>,
}

/// How a deletion file stores its rows.
#[derive(Clone, Copy, Debug, PartialEq, Eq, Structural)]
pub enum DeletionKind {
    Array,
    Bitmap,
}

/// A fragment's deletion file.
#[derive(Debug)]
pub struct ScanDeletionFile {
    /// Relative to the dataset.
    pub path: String,
    pub kind: DeletionKind,
    pub deleted_rows: u64,
}

/// One fragment of the planned version.
#[derive(Debug)]
pub struct ScanFragment {
    pub id: u64,
    pub physical_rows: u64,
    pub deleted_rows: u64,
    pub live_rows: u64,
    pub files: Vec<ScanFile>,
    pub deletion_file: Option<ScanDeletionFile>,
    /// The fragment's own description.
    pub lance: Json,
}

/// What a column holds.
#[derive(Clone, Copy, Debug, PartialEq, Eq, Structural)]
pub enum ColumnRole {
    Pk,
    Source,
    IngestPartition,
    IngestOffset,
    Vector,
    SparseVector,
}

/// A readable column of the planned version.
#[derive(Debug)]
pub struct ScanColumn {
    pub name: String,
    pub data_type: String,
    pub role: ColumnRole,
    /// The vector's name, for vector columns.
    pub vector: Option<String>,
    pub dim: Option<u32>,
    pub distance: Option<String>,
    /// `none` or `idf`, for sparse vector columns.
    pub modifier: Option<String>,
}

/// What a column is.
pub struct ColumnV {
    pub name: Seq<char>,
    pub data_type: Seq<char>,
    pub role: ColumnRole,
    pub vector: Option<Seq<char>>,
    pub dim: Option<u32>,
    pub distance: Option<Seq<char>>,
    pub modifier: Option<Seq<char>>,
}

impl View for ScanColumn {
    type V = ColumnV;

    open spec fn view(&self) -> ColumnV {
        ColumnV {
            name: self.name@,
            data_type: self.data_type@,
            role: self.role,
            vector: text::opt_text(self.vector),
            dim: self.dim,
            distance: text::opt_text(self.distance),
            modifier: text::opt_text(self.modifier),
        }
    }
}

/// What some columns are.
pub open spec fn column_views(s: Seq<ScanColumn>) -> Seq<ColumnV> {
    Seq::new(s.len(), |i: int| s[i]@)
}

/// One partition's applied offset against the requested one.
#[derive(Clone, Copy, Debug, PartialEq, Eq, Structural)]
pub struct ScanOffsets {
    pub partition: u32,
    pub applied: u64,
    pub target: u64,
}

/// What reads the planned state.
#[derive(Debug)]
pub struct ScanPin {
    pub manifest_version: u64,
    pub token: ConsistencyToken,
}

/// A collection resolved into what an external reader needs to read one
/// state of it.
#[derive(Debug)]
pub struct ScanPlan {
    pub namespace: String,
    /// The collection's name, never an alias.
    pub collection: String,
    pub collection_id: u64,
    pub manifest_version: u64,
    pub schema_version: u64,
    /// None while the manifest has no version of the files.
    pub lance: Option<LanceVersionRef>,
    pub fragments: Vec<ScanFragment>,
    pub live_rows: u64,
    pub columns: Vec<ScanColumn>,
    pub pk_encoding: String,
    /// Whether the requested state holds records that the files do not.
    pub tail: bool,
    pub tail_records: u64,
    /// One for each partition, ascending.
    pub offsets: Vec<ScanOffsets>,
    /// Exactly what the files hold.
    pub durable_token: ConsistencyToken,
    /// Reads the requested state, tail included.
    pub pin: ScanPin,
    /// The metastore's clock when the plan was made.
    pub planned_at_ms: u64,
    /// The earliest moment at which the manifest may go, none for the one
    /// before the first commit.
    pub expires_at_ms: Option<u64>,
}

impl ScanPlan {
    /// The pinned read of exactly the planned state.
    pub fn pinned(&self) -> (r: ReadConsistency)
        ensures
            r@ == (ConsistencyV::Pinned {
                manifest_version: self.pin.manifest_version,
                token: self.pin.token@,
            }),
    {
        ReadConsistency::Pinned {
            manifest_version: self.pin.manifest_version,
            token: self.pin.token.copy(),
        }
    }
}

/// A resolved scan point: the requested offsets, and the clock and deadline
/// of the planning read.
#[derive(Debug)]
pub struct Point {
    pub targets: BTreeMap<u32, u64>,
    pub planned_at_ms: u64,
    pub expires_at_ms: Option<u64>,
}

/// A moment later by a duration, at most what 64 bits hold.
pub open spec fn later(at: u64, by: u64) -> u64 {
    if at + by <= u64::MAX {
        (at + by) as u64
    } else {
        u64::MAX
    }
}

fn later_by(at: u64, by: u64) -> (r: u64)
    ensures
        r == later(at, by),
{
    if by <= u64::MAX - at {
        at + by
    } else {
        u64::MAX
    }
}

/// When a live manifest may go at the earliest: never for the one before the
/// first commit.
pub open spec fn live_deadline(version: u64, clock_ms: u64, retention_ms: u64) -> Option<u64> {
    if version == 0 {
        None
    } else {
        Some(later(clock_ms, retention_ms))
    }
}

fn deadline_of(version: u64, clock_ms: u64, retention_ms: u64) -> (r: Option<u64>)
    ensures
        r == live_deadline(version, clock_ms, retention_ms),
{
    if version == 0 {
        None
    } else {
        Some(later_by(clock_ms, retention_ms))
    }
}

/// The live manifest against the high watermarks.
pub fn scan_current(head: &CollectionHead, version: u64, retention_ms: u64) -> (r: Point)
    ensures
        r.targets@ == read::watermarks(head.collection.partitions, head.high_watermarks@),
        r.planned_at_ms == head.clock_ms,
        r.expires_at_ms == live_deadline(version, head.clock_ms, retention_ms),
{
    Point {
        targets: read::high_watermarks(head.collection.partitions, &head.high_watermarks),
        planned_at_ms: head.clock_ms,
        expires_at_ms: deadline_of(version, head.clock_ms, retention_ms),
    }
}

/// Which manifest a scan of a version reads.
#[derive(Clone, Copy, Debug, PartialEq, Eq, Structural)]
pub enum VersionStep {
    /// The empty one before the first commit.
    Empty,
    /// One of the retained chain.
    Chain,
}

/// Which manifest a scan of a version reads, of what the checked live
/// manifest's pointer says.
pub fn scan_version(head: &CollectionHead, version: u64) -> (r: Result<VersionStep, ServiceError>)
    ensures
        match r {
            Ok(VersionStep::Empty) => head.pointer is None && version == 0,
            Ok(VersionStep::Chain) => head.pointer matches Some(p) && version <= p.version,
            Err(e) => e@ == read::gone(head.collection.name@, version) && match head.pointer {
                None => version != 0,
                Some(p) => version > p.version,
            },
        },
{
    match &head.pointer {
        None => if version == 0 {
            Ok(VersionStep::Empty)
        } else {
            Err(read::pin_gone(&head.collection.name, version))
        },
        Some(p) => if version > p.version {
            Err(read::pin_gone(&head.collection.name, version))
        } else {
            Ok(VersionStep::Chain)
        },
    }
}

/// The offsets of each partition that a manifest applied.
pub open spec fn applied_on(partitions: u32, applied: Map<u32, u64>) -> Map<u32, u64> {
    Map::new(read::below(partitions), |p: u32| read::at(applied, p))
}

/// The offsets of each partition that a manifest applied.
pub fn applied_offsets(partitions: u32, applied: &BTreeMap<u32, u64>) -> (r: BTreeMap<u32, u64>)
    ensures
        r@ == applied_on(partitions, applied@),
{
    let mut out: BTreeMap<u32, u64> = BTreeMap::new();
    let mut p: u32 = 0;
    assert(out@ =~= applied_on(0, applied@));
    while p < partitions
        invariant
            p <= partitions,
            out@ == applied_on(p, applied@),
        decreases partitions - p,
    {
        out.insert(p, read::offset_in(applied, p));
        assert(out@ =~= applied_on((p + 1) as u32, applied@));
        p += 1;
    }
    out
}

/// When a retained manifest may go at the earliest. Retention runs from
/// when it was superseded: the first of the chain no earlier than now, an
/// older one by the manifest before it in the chain.
pub open spec fn chain_deadline(
    chain: Seq<CollectionManifest>,
    i: int,
    clock_ms: u64,
    retention_ms: u64,
) -> u64 {
    later(
        if i == 0 {
            clock_ms
        } else {
            chain[i - 1].created_at_ms
        },
        retention_ms,
    )
}

/// A retained manifest as it is: its place in the chain, newest first, and
/// its own offsets.
pub fn chain_point(
    head: &CollectionHead,
    chain: &Vec<CollectionManifest>,
    version: u64,
    retention_ms: u64,
) -> (r: Result<(usize, Point), ServiceError>)
    ensures
        match r {
            Ok((i, point)) => read::version_in(read::versions_of(chain@), version, 0) == Some(
                i as int,
            ) && i < chain@.len() && chain@[i as int].version == version && point.targets@
                == applied_on(head.collection.partitions, chain@[i as int].applied@)
                && point.planned_at_ms == head.clock_ms && point.expires_at_ms == Some(
                chain_deadline(chain@, i as int, head.clock_ms, retention_ms),
            ),
            Err(e) => read::version_in(read::versions_of(chain@), version, 0) is None && e@
                == read::gone(head.collection.name@, version),
        },
{
    match read::find_version(chain, version) {
        None => Err(read::pin_gone(&head.collection.name, version)),
        Some(i) => {
            let superseded: u64 = if i == 0 {
                head.clock_ms
            } else {
                chain[i - 1].created_at_ms
            };
            let point = Point {
                targets: applied_offsets(head.collection.partitions, &chain[i].applied),
                planned_at_ms: head.clock_ms,
                expires_at_ms: Some(later_by(superseded, retention_ms)),
            };
            Ok((i, point))
        },
    }
}

/// The point of the manifest before the first commit.
pub fn empty_point(head: &CollectionHead) -> (r: Point)
    ensures
        r.targets@ == applied_on(head.collection.partitions, Map::empty()),
        r.planned_at_ms == head.clock_ms,
        r.expires_at_ms is None,
{
    let none: BTreeMap<u32, u64> = BTreeMap::new();
    Point {
        targets: applied_offsets(head.collection.partitions, &none),
        planned_at_ms: head.clock_ms,
        expires_at_ms: None,
    }
}

/// The point of a token: none while the live manifest does not hold all of
/// it. A manifest may hold more than the token asks for; the requested
/// point is then its own offsets, so that a pin never names less.
pub fn token_point(
    head: &CollectionHead,
    manifest: &CollectionManifest,
    wanted: &BTreeMap<u32, u64>,
    retention_ms: u64,
) -> (r: Option<Point>)
    ensures
        match r {
            Some(point) => read::pin_covers(
                head.collection.partitions,
                manifest.applied@,
                wanted@,
            ) && point.targets@ == read::higher(
                head.collection.partitions,
                wanted@,
                manifest.applied@,
            ) && point.planned_at_ms == head.clock_ms && point.expires_at_ms == live_deadline(
                manifest.version,
                head.clock_ms,
                retention_ms,
            ),
            None => !read::pin_covers(head.collection.partitions, manifest.applied@, wanted@),
        },
{
    let partitions = head.collection.partitions;
    let mut p: u32 = 0;
    while p < partitions
        invariant
            p <= partitions,
            partitions == head.collection.partitions,
            forall|q: u32|
                q < p ==> #[trigger] read::at(manifest.applied@, q) >= read::at(wanted@, q),
        decreases partitions - p,
    {
        if read::offset_in(&manifest.applied, p) < read::offset_in(wanted, p) {
            assert(read::at(manifest.applied@, p) < read::at(wanted@, p));
            return None;
        }
        p += 1;
    }
    Some(
        Point {
            targets: read::higher_offsets(partitions, wanted, &manifest.applied),
            planned_at_ms: head.clock_ms,
            expires_at_ms: deadline_of(manifest.version, head.clock_ms, retention_ms),
        },
    )
}

/// What ends the wait for a manifest that holds a token.
#[derive(Clone, Copy, Debug, PartialEq, Eq, Structural)]
pub enum Woken {
    /// The metastore changed.
    Changed,
    /// The metastore stopped.
    Stopped,
    /// The wait is over.
    Deadline,
}

/// Whether the wait for a token goes on after it was woken.
pub fn on_woken(woken: Woken) -> (r: Result<(), ServiceError>)
    ensures
        match woken {
            Woken::Changed => r is Ok,
            Woken::Stopped => r matches Err(e) && e@ == Failure::Unavailable(
                "the metastore stopped"@,
            ),
            Woken::Deadline => r matches Err(e) && e@ == Failure::Timeout,
        },
{
    match woken {
        Woken::Changed => Ok(()),
        Woken::Stopped => Err(ServiceError::Unavailable("the metastore stopped".to_owned())),
        Woken::Deadline => Err(ServiceError::Timeout),
    }
}

/// A pin of a token's point or of a retained manifest names no offset below
/// those that the manifest applied, so that it can be read.
pub proof fn pins_are_not_older(
    partitions: u32,
    wanted: Map<u32, u64>,
    applied: Map<u32, u64>,
)
    ensures
        read::pin_covers(partitions, read::higher(partitions, wanted, applied), applied),
        read::pin_covers(partitions, applied_on(partitions, applied), applied),
{
}

/// The place of a manifest, relative to its dataset.
pub open spec fn manifest_place(path: Seq<char>) -> Seq<char> {
    match text::cut_last(path, "_versions/"@) {
        Some((_, rest)) => "_versions/"@ + rest,
        None => path,
    }
}

/// The place of a manifest, relative to its dataset.
pub fn relative_manifest_path(path: &str) -> (r: String)
    ensures
        r@ == manifest_place(path@),
{
    match text::split_last(path, "_versions/") {
        Some((_, rest)) => text::cat2("_versions/", rest),
        None => path.to_owned(),
    }
}

/// A text without the slashes at its end.
pub open spec fn unslashed(s: Seq<char>) -> Seq<char>
    decreases s.len(),
{
    if s.len() > 0 && s.last() == '/' {
        unslashed(s.drop_last())
    } else {
        s
    }
}

fn without_slashes(s: &str) -> (r: &str)
    ensures
        r@ == unslashed(s@),
{
    let mut n: usize = s.unicode_len();
    assert(s@.take(n as int) =~= s@);
    while n > 0 && s.get_char(n - 1) == '/'
        invariant
            n <= s@.len(),
            unslashed(s@) == unslashed(s@.take(n as int)),
        decreases n,
    {
        assert(s@.take(n as int).drop_last() =~= s@.take(n - 1));
        n -= 1;
    }
    assert(s@.subrange(0, n as int) =~= s@.take(n as int));
    s.substring_char(0, n)
}

/// The place of a dataset under a base: one slash between them, none at the
/// end.
pub fn dataset_uri(base: &Option<String>, prefix: &str) -> (r: Option<String>)
    ensures
        text::opt_text(r) == (match base {
            Some(b) => Some(unslashed(b@) + "/"@ + unslashed(prefix@)),
            None => None,
        }),
{
    match base {
        Some(b) => Some(text::cat3(without_slashes(b), "/", without_slashes(prefix))),
        None => None,
    }
}

/// The error of a manifest whose files could not be opened.
pub fn no_dataset(collection: &Collection, manifest: &CollectionManifest) -> (r: ServiceError)
    ensures
        r@ == Failure::Internal(
            "manifest "@ + text::decimal(manifest.version as nat) + " of "@ + collection.name@
                + " names lance version "@ + text::decimal(manifest.lance_version as nat)
                + " but opened none"@,
        ),
{
    let mut out = text::cat3("manifest ", text::dec(manifest.version).as_str(), " of ");
    out.append(&collection.name);
    out.append(" names lance version ");
    out.append(text::dec(manifest.lance_version).as_str());
    out.append(" but opened none");
    ServiceError::Internal(out)
}

/// What the files say of one fragment.
#[derive(Debug)]
pub struct FragmentFacts {
    pub id: u64,
    pub physical_rows: u64,
    pub deleted_rows: u64,
    /// The name of each data file and its size.
    pub files: Vec<(String, Option<u64>)>,
    /// The place of the deletion file and how it stores its rows.
    pub deletion: Option<(String, DeletionKind)>,
    pub lance: Json,
}

/// The data files of a fragment.
pub open spec fn files_are(files: Seq<ScanFile>, facts: Seq<(String, Option<u64>)>) -> bool {
    &&& files.len() == facts.len()
    &&& forall|i: int|
        0 <= i < files.len() ==> (#[trigger] files[i]).path@ == "data/"@ + facts[i].0@
            && files[i].size_bytes == facts[i].1
}

/// The deletion file of a fragment.
pub open spec fn deletion_is(
    file: Option<ScanDeletionFile>,
    facts: Option<(String, DeletionKind)>,
    deleted_rows: u64,
) -> bool {
    match facts {
        None => file is None,
        Some((path, kind)) => file matches Some(f) && f.path@ == path@ && f.kind == kind
            && f.deleted_rows == deleted_rows,
    }
}

fn data_files(facts: &Vec<(String, Option<u64>)>) -> (r: Vec<ScanFile>)
    ensures
        files_are(r@, facts@),
{
    let mut out: Vec<ScanFile> = Vec::new();
    let mut i: usize = 0;
    while i < facts.len()
        invariant
            i <= facts@.len(),
            out@.len() == i,
            forall|k: int|
                0 <= k < i ==> (#[trigger] out@[k]).path@ == "data/"@ + facts@[k].0@
                    && out@[k].size_bytes == facts@[k].1,
        decreases facts.len() - i,
    {
        out.push(ScanFile { path: text::cat2("data/", &facts[i].0), size_bytes: facts[i].1 });
        i += 1;
    }
    out
}

/// One fragment: its rows, its files and its deletion file.
pub fn scan_fragment(facts: FragmentFacts) -> (r: Result<ScanFragment, ServiceError>)
    ensures
        match r {
            Ok(f) => facts.deleted_rows <= facts.physical_rows && f.id == facts.id
                && f.physical_rows == facts.physical_rows && f.deleted_rows == facts.deleted_rows
                && f.live_rows == facts.physical_rows - facts.deleted_rows && files_are(
                f.files@,
                facts.files@,
            ) && deletion_is(f.deletion_file, facts.deletion, facts.deleted_rows) && f.lance
                == facts.lance,
            Err(e) => facts.deleted_rows > facts.physical_rows && e@ == Failure::Internal(
                "lance fragment "@ + text::decimal(facts.id as nat) + " has "@ + text::decimal(
                    facts.deleted_rows as nat,
                ) + " deleted of "@ + text::decimal(facts.physical_rows as nat) + " rows"@,
            ),
        },
{
    if facts.deleted_rows > facts.physical_rows {
        let mut out = text::cat3("lance fragment ", text::dec(facts.id).as_str(), " has ");
        out.append(text::dec(facts.deleted_rows).as_str());
        out.append(" deleted of ");
        out.append(text::dec(facts.physical_rows).as_str());
        out.append(" rows");
        return Err(ServiceError::Internal(out));
    }
    let files = data_files(&facts.files);
    let deletion_file = match facts.deletion {
        None => None,
        Some((path, kind)) => Some(
            ScanDeletionFile { path, kind, deleted_rows: facts.deleted_rows },
        ),
    };
    Ok(
        ScanFragment {
            id: facts.id,
            physical_rows: facts.physical_rows,
            deleted_rows: facts.deleted_rows,
            live_rows: facts.physical_rows - facts.deleted_rows,
            files,
            deletion_file,
            lance: facts.lance,
        },
    )
}

/// The number of a column that is named a prefix and a number.
pub open spec fn index_in(name: Seq<char>, prefix: Seq<char>) -> Option<nat> {
    match text::without_prefix(name, prefix) {
        Some(rest) => text::number_in(rest, usize::MAX as nat),
        None => None,
    }
}

/// The number of a column that is named a prefix and a number.
pub fn column_index(name: &str, prefix: &str) -> (r: Option<usize>)
    ensures
        match r {
            Some(i) => index_in(name@, prefix@) == Some(i as nat),
            None => index_in(name@, prefix@) is None,
        },
{
    match text::strip_prefix(name, prefix) {
        None => None,
        Some(rest) => match text::parse_number(rest, usize::MAX as u64) {
            Some(n) => Some(n as usize),
            None => None,
        },
    }
}

/// The error of a column that the schema does not describe.
pub open spec fn unknown_column(c: CollectionV, name: Seq<char>) -> Failure {
    Failure::Internal(
        "the lance version of "@ + c.name + " has column "@ + name + ", which schema version "@
            + text::decimal(c.schema.version as nat) + " does not describe"@,
    )
}

/// A column with a role and nothing else.
pub open spec fn plain_column(name: Seq<char>, data_type: Seq<char>, role: ColumnRole) -> ColumnV {
    ColumnV { name, data_type, role, vector: None, dim: None, distance: None, modifier: None }
}

/// The name of a modifier.
pub open spec fn modifier_text(m: SparseModifier) -> Seq<char> {
    match m {
        SparseModifier::Plain => "none"@,
        SparseModifier::Idf => "idf"@,
    }
}

/// A column with its role: a vector column carries the name, dimension and
/// distance of the schema's vector at its number, a sparse one the name and
/// modifier.
pub open spec fn column_in(
    c: CollectionV,
    names: SystemColumns,
    name: Seq<char>,
    data_type: Seq<char>,
) -> Result<ColumnV, Failure> {
    if name == names.pk@ {
        Ok(plain_column(name, data_type, ColumnRole::Pk))
    } else if name == names.source@ {
        Ok(plain_column(name, data_type, ColumnRole::Source))
    } else if name == names.partition@ {
        Ok(plain_column(name, data_type, ColumnRole::IngestPartition))
    } else if name == names.offset@ {
        Ok(plain_column(name, data_type, ColumnRole::IngestOffset))
    } else {
        match index_in(name, "_vector_"@) {
            Some(i) => if i < c.schema.vectors.len() {
                let v = c.schema.vectors[i as int];
                Ok(
                    ColumnV {
                        vector: Some(v.name),
                        dim: Some(v.dim),
                        distance: Some(schema::distance_text(v.distance)),
                        ..plain_column(name, data_type, ColumnRole::Vector)
                    },
                )
            } else {
                Err(unknown_column(c, name))
            },
            None => match index_in(name, "_sparse_"@) {
                Some(i) => if i < c.schema.sparse_vectors.len() {
                    let s = c.schema.sparse_vectors[i as int];
                    Ok(
                        ColumnV {
                            vector: Some(s.name),
                            modifier: Some(modifier_text(s.modifier)),
                            ..plain_column(name, data_type, ColumnRole::SparseVector)
                        },
                    )
                } else {
                    Err(unknown_column(c, name))
                },
                None => Err(unknown_column(c, name)),
            },
        }
    }
}

fn undescribed(c: &Collection, name: &str) -> (r: ServiceError)
    ensures
        r@ == unknown_column(c@, name@),
{
    let mut out = text::cat3("the lance version of ", &c.name, " has column ");
    out.append(name);
    out.append(", which schema version ");
    out.append(text::dec(c.schema.version).as_str());
    out.append(" does not describe");
    ServiceError::Internal(out)
}

fn bare_column(name: &str, data_type: &str, role: ColumnRole) -> (r: ScanColumn)
    ensures
        r@ == plain_column(name@, data_type@, role),
{
    ScanColumn {
        name: name.to_owned(),
        data_type: data_type.to_owned(),
        role,
        vector: None,
        dim: None,
        distance: None,
        modifier: None,
    }
}

fn scan_column(c: &Collection, names: &SystemColumns, name: &str, data_type: &str) -> (r: Result<
    ScanColumn,
    ServiceError,
>)
    ensures
        match r {
            Ok(column) => column_in(c@, *names, name@, data_type@) == Ok::<ColumnV, Failure>(
                column@,
            ),
            Err(e) => column_in(c@, *names, name@, data_type@) == Err::<ColumnV, Failure>(e@),
        },
{
    if text::same(name, &names.pk) {
        return Ok(bare_column(name, data_type, ColumnRole::Pk));
    }
    if text::same(name, &names.source) {
        return Ok(bare_column(name, data_type, ColumnRole::Source));
    }
    if text::same(name, &names.partition) {
        return Ok(bare_column(name, data_type, ColumnRole::IngestPartition));
    }
    if text::same(name, &names.offset) {
        return Ok(bare_column(name, data_type, ColumnRole::IngestOffset));
    }
    if let Some(i) = column_index(name, "_vector_") {
        if i >= c.schema.vectors.len() {
            return Err(undescribed(c, name));
        }
        let mut column = bare_column(name, data_type, ColumnRole::Vector);
        let spec_v = &c.schema.vectors[i];
        assert(c@.schema.vectors[i as int] == spec_v@);
        column.vector = Some(spec_v.name.clone());
        column.dim = Some(spec_v.dim);
        column.distance = Some(schema::distance_name(spec_v.distance).to_owned());
        return Ok(column);
    }
    if let Some(i) = column_index(name, "_sparse_") {
        if i >= c.schema.sparse_vectors.len() {
            return Err(undescribed(c, name));
        }
        let mut column = bare_column(name, data_type, ColumnRole::SparseVector);
        let spec_v = &c.schema.sparse_vectors[i];
        assert(c@.schema.sparse_vectors[i as int] == spec_v@);
        column.vector = Some(spec_v.name.clone());
        let shown = match spec_v.modifier {
            SparseModifier::Plain => "none",
            SparseModifier::Idf => "idf",
        };
        column.modifier = Some(shown.to_owned());
        return Ok(column);
    }
    Err(undescribed(c, name))
}

/// The first `n` columns of a version, in its order.
pub open spec fn columns_in(
    c: CollectionV,
    names: SystemColumns,
    fields: Seq<(String, String)>,
    n: nat,
) -> Result<Seq<ColumnV>, Failure>
    decreases n,
{
    if n == 0 || n > fields.len() {
        Ok(Seq::empty())
    } else {
        match columns_in(c, names, fields, (n - 1) as nat) {
            Err(e) => Err(e),
            Ok(before) => match column_in(c, names, fields[n - 1].0@, fields[n - 1].1@) {
                Err(e) => Err(e),
                Ok(column) => Ok(before.push(column)),
            },
        }
    }
}

proof fn columns_stay_wrong(
    c: CollectionV,
    names: SystemColumns,
    fields: Seq<(String, String)>,
    n: nat,
    m: nat,
)
    requires
        n <= m <= fields.len(),
        columns_in(c, names, fields, n) is Err,
    ensures
        columns_in(c, names, fields, m) == columns_in(c, names, fields, n),
    decreases m,
{
    if n < m {
        columns_stay_wrong(c, names, fields, n, (m - 1) as nat);
    }
}

/// The columns of a version in its order, each a name and the text of its
/// type, with their roles.
pub fn scan_columns(c: &Collection, names: &SystemColumns, fields: &Vec<(String, String)>) -> (r:
    Result<Vec<ScanColumn>, ServiceError>)
    ensures
        match r {
            Ok(columns) => columns_in(c@, *names, fields@, fields@.len()) == Ok::<
                Seq<ColumnV>,
                Failure,
            >(column_views(columns@)),
            Err(e) => columns_in(c@, *names, fields@, fields@.len()) == Err::<
                Seq<ColumnV>,
                Failure,
            >(e@),
        },
{
    let mut out: Vec<ScanColumn> = Vec::new();
    let mut i: usize = 0;
    assert(column_views(out@) =~= Seq::empty());
    while i < fields.len()
        invariant
            i <= fields@.len(),
            columns_in(c@, *names, fields@, i as nat) == Ok::<Seq<ColumnV>, Failure>(
                column_views(out@),
            ),
        decreases fields.len() - i,
    {
        let ghost before = column_views(out@);
        match scan_column(c, names, &fields[i].0, &fields[i].1) {
            Ok(column) => {
                out.push(column);
                assert(column_views(out@) =~= before.push(column@));
            },
            Err(e) => {
                proof {
                    assert(columns_in(c@, *names, fields@, (i + 1) as nat) == Err::<
                        Seq<ColumnV>,
                        Failure,
                    >(e@));
                    columns_stay_wrong(c@, *names, fields@, (i + 1) as nat, fields@.len());
                }
                return Err(e);
            },
        }
        i += 1;
    }
    Ok(out)
}

/// The live rows of the first fragments.
pub open spec fn live_sum(fragments: Seq<ScanFragment>, n: nat) -> nat
    decreases n,
{
    if n == 0 || n > fragments.len() {
        0
    } else {
        live_sum(fragments, (n - 1) as nat) + fragments[n - 1].live_rows as nat
    }
}

proof fn live_sum_grows(fragments: Seq<ScanFragment>, n: nat, m: nat)
    requires
        n <= m <= fragments.len(),
    ensures
        live_sum(fragments, n) <= live_sum(fragments, m),
    decreases m,
{
    if n < m {
        live_sum_grows(fragments, n, (m - 1) as nat);
    }
}

fn live_rows_of(fragments: &Vec<ScanFragment>) -> (r: u64)
    requires
        live_sum(fragments@, fragments@.len()) <= u64::MAX,
    ensures
        r == live_sum(fragments@, fragments@.len()),
{
    let mut sum: u64 = 0;
    let mut i: usize = 0;
    while i < fragments.len()
        invariant
            i <= fragments@.len(),
            sum == live_sum(fragments@, i as nat),
            live_sum(fragments@, fragments@.len()) <= u64::MAX,
        decreases fragments.len() - i,
    {
        proof {
            live_sum_grows(fragments@, (i + 1) as nat, fragments@.len());
        }
        sum = sum + fragments[i].live_rows;
        i += 1;
    }
    sum
}

/// Each partition's applied offset against the requested one.
pub open spec fn offsets_on(
    partitions: u32,
    applied: Map<u32, u64>,
    targets: Map<u32, u64>,
) -> Seq<ScanOffsets> {
    Seq::new(
        partitions as nat,
        |p: int|
            ScanOffsets {
                partition: p as u32,
                applied: read::at(applied, p as u32),
                target: read::at(targets, p as u32),
            },
    )
}

fn scan_offsets(partitions: u32, applied: &BTreeMap<u32, u64>, targets: &BTreeMap<u32, u64>) -> (r:
    Vec<ScanOffsets>)
    ensures
        r@ == offsets_on(partitions, applied@, targets@),
{
    let mut out: Vec<ScanOffsets> = Vec::new();
    let mut p: u32 = 0;
    while p < partitions
        invariant
            p <= partitions,
            out@ == offsets_on(p, applied@, targets@),
        decreases partitions - p,
    {
        out.push(
            ScanOffsets {
                partition: p,
                applied: read::offset_in(applied, p),
                target: read::offset_in(targets, p),
            },
        );
        assert(out@ =~= offsets_on((p + 1) as u32, applied@, targets@));
        p += 1;
    }
    out
}

/// What a plan says of the state that it describes.
pub open spec fn plans(
    plan: ScanPlan,
    c: CollectionV,
    manifest: CollectionManifest,
    point: Point,
) -> bool {
    &&& plan.collection@ == c.name
    &&& plan.collection_id == c.id
    &&& plan.manifest_version == manifest.version
    &&& plan.schema_version == (if manifest.version == 0 {
        c.schema.version
    } else {
        manifest.schema_version
    })
    &&& plan.live_rows == manifest.live_doc_count
    &&& plan.pk_encoding@ == PK_ENCODING@
    &&& plan.tail_records == read::lag(c.partitions as nat, point.targets@, manifest.applied@)
    &&& plan.tail == (plan.tail_records > 0)
    &&& plan.offsets@ == offsets_on(c.partitions, manifest.applied@, point.targets@)
    &&& plan.durable_token@ == read::token_on(c.stream, c.partitions, manifest.applied@)
    &&& plan.pin.manifest_version == manifest.version
    &&& plan.pin.token@ == read::token_on(c.stream, c.partitions, point.targets@)
    &&& plan.planned_at_ms == point.planned_at_ms
    &&& plan.expires_at_ms == point.expires_at_ms
}

/// The plan of a resolved point; the files must hold as many live rows as
/// the manifest says.
pub fn plan_scan(
    ns: &str,
    collection: &Collection,
    manifest: &CollectionManifest,
    point: &Point,
    lance: Option<LanceVersionRef>,
    fragments: Vec<ScanFragment>,
    columns: Vec<ScanColumn>,
) -> (r: Result<ScanPlan, ServiceError>)
    requires
        live_sum(fragments@, fragments@.len()) <= u64::MAX,
        read::lag(collection.partitions as nat, point.targets@, manifest.applied@) <= u64::MAX,
    ensures
        match r {
            Ok(plan) => live_sum(fragments@, fragments@.len()) == manifest.live_doc_count
                && plan.namespace@ == ns@ && plans(plan, collection@, *manifest, *point)
                && plan.lance == lance && plan.fragments == fragments && plan.columns == columns,
            Err(e) => live_sum(fragments@, fragments@.len()) != manifest.live_doc_count && e@
                == Failure::Internal(
                "scan plan of "@ + collection.name@ + "@"@ + text::decimal(manifest.version as nat)
                    + ": lance holds "@ + text::decimal(live_sum(fragments@, fragments@.len()))
                    + " live rows, the manifest "@ + text::decimal(manifest.live_doc_count as nat),
            ),
        },
{
    let live_rows = live_rows_of(&fragments);
    if live_rows != manifest.live_doc_count {
        let mut out = text::cat3("scan plan of ", &collection.name, "@");
        out.append(text::dec(manifest.version).as_str());
        out.append(": lance holds ");
        out.append(text::dec(live_rows).as_str());
        out.append(" live rows, the manifest ");
        out.append(text::dec(manifest.live_doc_count).as_str());
        return Err(ServiceError::Internal(out));
    }
    let partitions = collection.partitions;
    let tail_records = read::lag_of(partitions, &point.targets, &manifest.applied);
    Ok(
        ScanPlan {
            namespace: ns.to_owned(),
            collection: collection.name.clone(),
            collection_id: collection.id,
            manifest_version: manifest.version,
            schema_version: if manifest.version == 0 {
                collection.schema.version
            } else {
                manifest.schema_version
            },
            lance,
            fragments,
            live_rows,
            columns,
            pk_encoding: PK_ENCODING.to_owned(),
            tail: tail_records > 0,
            tail_records,
            offsets: scan_offsets(partitions, &manifest.applied, &point.targets),
            durable_token: read::token_of(collection.stream, partitions, &manifest.applied),
            pin: ScanPin {
                manifest_version: manifest.version,
                token: read::token_of(collection.stream, partitions, &point.targets),
            },
            planned_at_ms: point.planned_at_ms,
            expires_at_ms: point.expires_at_ms,
        },
    )
}

/// A plan's pinned read reads the planned state: it is not refused, and it
/// reads up to the requested offsets.
pub proof fn a_plan_can_be_pinned(
    plan: ScanPlan,
    c: CollectionV,
    manifest: CollectionManifest,
    point: Point,
)
    requires
        plans(plan, c, manifest, point),
    ensures
        read::pins(plan.pin.token@, c.stream, c.partitions),
        forall|p: u32|
            p < c.partitions ==> #[trigger] read::at(
                read::highest(plan.pin.token@, plan.pin.token@.len()),
                p,
            ) == read::at(point.targets@, p),
{
    read::tokens_can_be_pinned(c.stream, c.partitions, point.targets@);
}

/// A plan without a tail holds exactly the requested state: no partition's
/// requested offset is above its applied one.
pub proof fn no_tail_means_all_applied(
    partitions: nat,
    targets: Map<u32, u64>,
    applied: Map<u32, u64>,
    p: u32,
)
    requires
        read::lag(partitions, targets, applied) == 0,
        p < partitions <= u32::MAX,
    ensures
        read::at(targets, p) <= read::at(applied, p),
    decreases partitions,
{
    if p < partitions - 1 {
        no_tail_means_all_applied((partitions - 1) as nat, targets, applied, p);
    }
}

} // verus!
