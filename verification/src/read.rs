//! Read views: a durable manifest plus the tail relative to it, resolved by
//! how fresh a read must be.
//!
//! A strong read takes the high watermarks and waits for the tail to cover
//! them; an at-least read waits for its token; an eventual read takes what
//! the tail holds; a pinned read takes a retained manifest and exactly the
//! token's writes after it. A tail over its memory bound is answered with a
//! range over the live manifest.

use crate::collection::{CollectionSchema, SchemaV};
use crate::error::{Failure, ServiceError};
use crate::exec::mask;
use crate::ir::{ConsistencyToken, ConsistencyV, ReadConsistency};
use crate::text;
use roaring::RoaringTreemap;
use std::collections::BTreeMap;
use vstd::prelude::*;
use vstd::string::*;

verus! {

/// How reads resolve their views; durations are in milliseconds.
#[derive(Clone, Copy, Debug, PartialEq, Eq, Structural)]
pub struct ReadConfig {
    /// How long strong and at-least reads wait for the tail.
    pub consistency_wait: u64,
    /// How many snapshots stay open.
    pub snapshot_cache_entries: u64,
    /// How many range tails stay built.
    pub pinned_tail_entries: u64,
    /// How large one range tail may grow.
    pub range_tail_max_bytes: usize,
    /// How many bytes of decoded delete bitmaps stay.
    pub bitmap_cache_bytes: u64,
}

/// 10 s, 256 snapshots, 16 range tails of 1 GiB, 128 MiB of bitmaps.
pub open spec fn default_reads() -> ReadConfig {
    ReadConfig {
        consistency_wait: 10_000,
        snapshot_cache_entries: 256,
        pinned_tail_entries: 16,
        range_tail_max_bytes: 1_073_741_824,
        bitmap_cache_bytes: 134_217_728,
    }
}

impl Default for ReadConfig {
    /// 10 s, 256 snapshots, 16 range tails of 1 GiB, 128 MiB of bitmaps.
    fn default() -> (r: ReadConfig)
        ensures
            r == default_reads(),
    {
        ReadConfig {
            consistency_wait: 10_000,
            snapshot_cache_entries: 256,
            pinned_tail_entries: 16,
            range_tail_max_bytes: 1_073_741_824,
            bitmap_cache_bytes: 134_217_728,
        }
    }
}

/// How many milliseconds a snapshot stays cached after its last read.
pub const SNAPSHOT_IDLE: u64 = 300_000;

/// A collection's catalog record.
#[derive(Debug)]
pub struct Collection {
    pub id: u64,
    pub namespace: u64,
    pub name: String,
    pub schema: CollectionSchema,
    pub stream: u64,
    pub partitions: u32,
}

/// What a catalog record is.
pub struct CollectionV {
    pub id: u64,
    pub namespace: u64,
    pub name: Seq<char>,
    pub schema: SchemaV,
    pub stream: u64,
    pub partitions: u32,
}

impl View for Collection {
    type V = CollectionV;

    open spec fn view(&self) -> CollectionV {
        CollectionV {
            id: self.id,
            namespace: self.namespace,
            name: self.name@,
            schema: self.schema@,
            stream: self.stream,
            partitions: self.partitions,
        }
    }
}

impl Collection {
    /// A copy of the record.
    pub fn copy(&self) -> (r: Collection)
        ensures
            r@ == self@,
    {
        Collection {
            id: self.id,
            namespace: self.namespace,
            name: self.name.clone(),
            schema: self.schema.copy(),
            stream: self.stream,
            partitions: self.partitions,
        }
    }
}

/// Where a collection's live manifest is.
#[derive(Debug)]
pub struct Pointer {
    pub value: String,
    pub version: u64,
}

/// A collection's record, its pointer and its stream's bounds, from one
/// read of the metastore.
#[derive(Debug)]
pub struct CollectionHead {
    pub collection: Collection,
    pub pointer: Option<Pointer>,
    pub high_watermarks: Vec<u64>,
    pub log_start_offsets: Vec<u64>,
    pub clock_ms: u64,
}

/// What a manifest says of the state that it describes.
#[derive(Clone, Debug)]
pub struct CollectionManifest {
    pub collection_id: u64,
    pub version: u64,
    pub schema_version: u64,
    pub created_at_ms: u64,
    pub live_doc_count: u64,
    pub lance_version: u64,
    pub applied: BTreeMap<u32, u64>,
    /// The size of each split.
    pub split_sizes: Vec<u64>,
}

/// The offset of a partition, zero if there is none.
pub open spec fn at(offsets: Map<u32, u64>, partition: u32) -> u64 {
    if offsets.contains_key(partition) {
        offsets[partition]
    } else {
        0
    }
}

/// The offset of a partition, zero if there is none.
pub fn offset_in(offsets: &BTreeMap<u32, u64>, partition: u32) -> (r: u64)
    ensures
        r == at(offsets@, partition),
{
    match offsets.get(&partition) {
        Some(v) => *v,
        None => 0,
    }
}

/// The token of some offsets: one entry for each partition.
pub open spec fn token_on(stream: u64, partitions: u32, offsets: Map<u32, u64>) -> Seq<
    (u64, u32, u64),
> {
    Seq::new(partitions as nat, |p: int| (stream, p as u32, at(offsets, p as u32)))
}

/// The token of some offsets of a stream's partitions.
pub fn token_of(stream: u64, partitions: u32, offsets: &BTreeMap<u32, u64>) -> (r: ConsistencyToken)
    ensures
        r@ == token_on(stream, partitions, offsets@),
{
    let mut entries: Vec<(u64, u32, u64)> = Vec::new();
    let mut p: u32 = 0;
    while p < partitions
        invariant
            p <= partitions,
            entries@.len() == p,
            forall|i: int|
                0 <= i < p ==> #[trigger] entries@[i] == (stream, i as u32, at(offsets@, i as u32)),
        decreases partitions - p,
    {
        entries.push((stream, p, offset_in(offsets, p)));
        p += 1;
    }
    let token = ConsistencyToken { entries };
    assert(token@ =~= token_on(stream, partitions, offsets@));
    token
}

/// The partitions below a count.
pub open spec fn below(partitions: u32) -> spec_fn(u32) -> bool {
    |p: u32| p < partitions
}

/// The high watermark of each partition, zero for one that has none.
pub open spec fn watermarks(partitions: u32, hwm: Seq<u64>) -> Map<u32, u64> {
    Map::new(
        below(partitions),
        |p: u32|
            if p < hwm.len() {
                hwm[p as int]
            } else {
                0
            },
    )
}

/// The high watermark of each partition.
pub fn high_watermarks(partitions: u32, hwm: &Vec<u64>) -> (r: BTreeMap<u32, u64>)
    ensures
        r@ == watermarks(partitions, hwm@),
{
    let mut out: BTreeMap<u32, u64> = BTreeMap::new();
    let mut p: u32 = 0;
    assert(out@ =~= watermarks(0, hwm@));
    while p < partitions
        invariant
            p <= partitions,
            out@ == watermarks(p, hwm@),
        decreases partitions - p,
    {
        let mark: u64 = if (p as usize) < hwm.len() {
            hwm[p as usize]
        } else {
            0
        };
        out.insert(p, mark);
        assert(out@ =~= watermarks((p + 1) as u32, hwm@));
        p += 1;
    }
    out
}

/// The offset that a token asks of each partition, zero for one that it
/// does not name.
pub open spec fn asked(partitions: u32, offsets: Seq<Option<u64>>) -> Map<u32, u64> {
    Map::new(
        below(partitions),
        |p: u32|
            if p < offsets.len() {
                match offsets[p as int] {
                    Some(offset) => offset,
                    None => 0,
                }
            } else {
                0
            },
    )
}

/// The offset that a token asks of each partition; `offsets` is what the
/// token holds of the collection's stream.
pub fn asked_offsets(partitions: u32, offsets: &Vec<Option<u64>>) -> (r: BTreeMap<u32, u64>)
    ensures
        r@ == asked(partitions, offsets@),
{
    let mut out: BTreeMap<u32, u64> = BTreeMap::new();
    let mut p: u32 = 0;
    assert(out@ =~= asked(0, offsets@));
    while p < partitions
        invariant
            p <= partitions,
            out@ == asked(p, offsets@),
        decreases partitions - p,
    {
        let offset: u64 = if (p as usize) < offsets.len() {
            match offsets[p as usize] {
                Some(offset) => offset,
                None => 0,
            }
        } else {
            0
        };
        out.insert(p, offset);
        assert(out@ =~= asked((p + 1) as u32, offsets@));
        p += 1;
    }
    out
}

/// An error of collection storage, as it shows.
#[derive(Debug)]
pub struct StorageError {
    pub retryable: bool,
    pub message: String,
}

/// What an error of collection storage is answered with.
pub open spec fn storage_failure(err: StorageError) -> Failure {
    if err.retryable {
        Failure::Unavailable(err.message@)
    } else {
        Failure::Internal(err.message@)
    }
}

/// An error of collection storage: unavailable if a retry may help.
pub fn collection_error(err: StorageError) -> (r: ServiceError)
    ensures
        r@ == storage_failure(err),
{
    if err.retryable {
        ServiceError::Unavailable(err.message)
    } else {
        ServiceError::Internal(err.message)
    }
}

/// Why a tail cannot answer; each text is the error as it shows.
#[derive(Debug)]
pub enum TailError {
    Timeout,
    Stopped,
    /// The log is busy, or its storage failed.
    LogBusy(String),
    Log(String),
    Collection(StorageError),
    /// The tail is over its memory bound.
    Overflow(String),
    /// The log no longer holds the range.
    Trimmed(String),
}

/// The error of an unknown collection.
pub open spec fn no_collection(name: Seq<char>) -> Failure {
    Failure::NotFound { kind: "collection"@, name }
}

/// The error of an unknown collection.
pub fn collection_not_found(name: &str) -> (r: ServiceError)
    ensures
        r@ == no_collection(name@),
{
    ServiceError::NotFound { kind: "collection", name: name.to_owned() }
}

/// What a tail error is answered with.
pub open spec fn tail_failure(err: TailError, name: Seq<char>) -> Failure {
    match err {
        TailError::Timeout => Failure::Timeout,
        TailError::Stopped => no_collection(name),
        TailError::LogBusy(m) => Failure::Unavailable(m@),
        TailError::Log(m) => Failure::Internal(m@),
        TailError::Collection(e) => storage_failure(e),
        TailError::Overflow(m) => Failure::Unavailable("collection "@ + name + ": "@ + m@),
        TailError::Trimmed(m) => Failure::Unavailable("collection "@ + name + ": "@ + m@),
    }
}

fn tail_trouble(name: &str, m: &str) -> (r: ServiceError)
    ensures
        r@ == Failure::Unavailable("collection "@ + name@ + ": "@ + m@),
{
    let mut out = text::cat3("collection ", name, ": ");
    out.append(m);
    ServiceError::Unavailable(out)
}

/// A tail error as an error of the service.
pub fn tail_error(err: TailError, name: &str) -> (r: ServiceError)
    ensures
        r@ == tail_failure(err, name@),
{
    match err {
        TailError::Timeout => ServiceError::Timeout,
        TailError::Stopped => collection_not_found(name),
        TailError::LogBusy(m) => ServiceError::Unavailable(m),
        TailError::Log(m) => ServiceError::Internal(m),
        TailError::Collection(e) => collection_error(e),
        TailError::Overflow(m) => tail_trouble(name, &m),
        TailError::Trimmed(m) => tail_trouble(name, &m),
    }
}

/// What a pin that cannot be read is answered with.
pub open spec fn gone(name: Seq<char>, version: u64) -> Failure {
    Failure::NotFound { kind: "pin"@, name: name + "@"@ + text::decimal(version as nat) }
}

/// What a pin that cannot be read is answered with.
pub fn pin_gone(name: &str, version: u64) -> (r: ServiceError)
    ensures
        r@ == gone(name@, version),
{
    let shown = text::dec(version);
    ServiceError::NotFound { kind: "pin", name: text::cat3(name, "@", &shown) }
}

/// How a read's view is made.
#[derive(Debug)]
pub enum ViewStep {
    /// Read the collection's head; sync to its high watermarks.
    Head,
    /// Wait until the tail covers these offsets.
    Sync { targets: BTreeMap<u32, u64> },
    /// Take what the tail holds.
    Current,
    /// Read the head, then a retained manifest and the range up to these
    /// offsets.
    Pin { version: u64, upper: BTreeMap<u32, u64> },
}

/// What a step is.
pub enum StepV {
    Head,
    Sync { targets: Map<u32, u64> },
    Current,
    Pin { version: u64, upper: Map<u32, u64> },
}

impl View for ViewStep {
    type V = StepV;

    open spec fn view(&self) -> StepV {
        match self {
            ViewStep::Head => StepV::Head,
            ViewStep::Sync { targets } => StepV::Sync { targets: targets@ },
            ViewStep::Current => StepV::Current,
            ViewStep::Pin { version, upper } => StepV::Pin { version: *version, upper: upper@ },
        }
    }
}

/// Whether an entry of a token names a partition of a collection's stream.
pub open spec fn names_partition(e: (u64, u32, u64), stream: u64, partitions: u32) -> bool {
    e.0 == stream && e.1 < partitions
}

/// The highest offset of each partition among the first `n` entries.
pub open spec fn highest(entries: Seq<(u64, u32, u64)>, n: nat) -> Map<u32, u64>
    decreases n,
{
    if n == 0 || n > entries.len() {
        Map::empty()
    } else {
        let before = highest(entries, (n - 1) as nat);
        let (_, p, offset) = entries[n - 1];
        before.insert(
            p,
            if before.contains_key(p) && before[p] > offset {
                before[p]
            } else {
                offset
            },
        )
    }
}

/// Whether a token names each partition of a collection's stream and
/// nothing else.
pub open spec fn pins(entries: Seq<(u64, u32, u64)>, stream: u64, partitions: u32) -> bool {
    &&& forall|i: int|
        0 <= i < entries.len() ==> names_partition(#[trigger] entries[i], stream, partitions)
    &&& forall|p: u32| p < partitions ==> #[trigger] names(entries, entries.len(), p)
}

/// Whether one of the first `n` entries names a partition.
pub open spec fn names(entries: Seq<(u64, u32, u64)>, n: nat, p: u32) -> bool {
    exists|i: int| 0 <= i < n && i < entries.len() && (#[trigger] entries[i]).1 == p
}

proof fn highest_keys(entries: Seq<(u64, u32, u64)>, n: nat, p: u32)
    requires
        n <= entries.len(),
    ensures
        highest(entries, n).contains_key(p) == names(entries, n, p),
    decreases n,
{
    if n > 0 {
        highest_keys(entries, (n - 1) as nat, p);
        let at = entries[n - 1];
        if names(entries, n, p) && at.1 != p {
            let i = choose|i: int| 0 <= i < n && i < entries.len() && (#[trigger] entries[i]).1
                == p;
            assert(i < n - 1);
        }
    }
}

/// A pinned read gives back each write of its token: the offset of a
/// partition is at least that of every entry that names it, and that of one
/// of them.
pub proof fn highest_covers(entries: Seq<(u64, u32, u64)>, n: nat, i: int)
    requires
        n <= entries.len(),
        0 <= i < n,
    ensures
        highest(entries, n).contains_key(entries[i].1),
        entries[i].2 <= highest(entries, n)[entries[i].1],
        exists|j: int|
            0 <= j < n && (#[trigger] entries[j]).1 == entries[i].1 && entries[j].2 == highest(
                entries,
                n,
            )[entries[i].1],
    decreases n,
{
    let before = highest(entries, (n - 1) as nat);
    let last = entries[n - 1];
    let p = entries[i].1;
    highest_keys(entries, (n - 1) as nat, p);
    highest_keys(entries, n, p);
    assert(names(entries, n, p));
    if before.contains_key(p) {
        let k = choose|k: int| 0 <= k < n - 1 && k < entries.len() && (#[trigger] entries[k]).1
            == p;
        let k0 = if i < n - 1 {
            i
        } else {
            k
        };
        highest_covers(entries, (n - 1) as nat, k0);
        let j = choose|j: int|
            0 <= j < n - 1 && (#[trigger] entries[j]).1 == p && entries[j].2 == before[p];
        if last.1 == p && last.2 >= before[p] {
            assert(entries[n - 1].2 == highest(entries, n)[p]);
        } else {
            assert(entries[j].2 == highest(entries, n)[p]);
        }
        if i < n - 1 {
            highest_covers(entries, (n - 1) as nat, i);
        }
    } else {
        if i < n - 1 {
            assert(names(entries, (n - 1) as nat, p)) by {
                assert(entries[i].1 == p);
            }
        }
        assert(i == n - 1);
        assert(entries[n - 1].2 == highest(entries, n)[p]);
    }
}

/// The offsets that a pinned read reads up to, none if its token does not
/// name each partition of the collection's stream and nothing else.
pub fn pinned_upper(token: &ConsistencyToken, stream: u64, partitions: u32) -> (r: Option<
    BTreeMap<u32, u64>,
>)
    ensures
        match r {
            Some(upper) => pins(token@, stream, partitions) && upper@ == highest(
                token@,
                token@.len(),
            ),
            None => !pins(token@, stream, partitions),
        },
{
    let mut upper: BTreeMap<u32, u64> = BTreeMap::new();
    let mut i: usize = 0;
    while i < token.entries.len()
        invariant
            i <= token.entries@.len(),
            upper@ == highest(token@, i as nat),
            forall|k: int|
                0 <= k < i ==> names_partition(#[trigger] token@[k], stream, partitions),
        decreases token.entries.len() - i,
    {
        let entry = token.entries[i];
        let (s, p, offset) = entry;
        if s != stream || p >= partitions {
            assert(!names_partition(token@[i as int], stream, partitions));
            return None;
        }
        let kept: u64 = match upper.get(&p) {
            Some(v) => if *v > offset {
                *v
            } else {
                offset
            },
            None => offset,
        };
        upper.insert(p, kept);
        i += 1;
    }
    let mut q: u32 = 0;
    while q < partitions
        invariant
            q <= partitions,
            upper@ == highest(token@, token@.len()),
            forall|k: u32| k < q ==> #[trigger] names(token@, token@.len(), k),
        decreases partitions - q,
    {
        proof {
            highest_keys(token@, token@.len(), q);
        }
        if upper.get(&q).is_none() {
            assert(!names(token@, token@.len(), q));
            return None;
        }
        q += 1;
    }
    Some(upper)
}

/// How a read's view begins.
pub open spec fn first_step(
    ns: u64,
    c: CollectionV,
    consistency: ConsistencyV,
    offsets: Seq<Option<u64>>,
) -> Result<StepV, Failure> {
    if c.namespace != ns {
        Err(no_collection(c.name))
    } else {
        match consistency {
            ConsistencyV::Strong => Ok(StepV::Head),
            ConsistencyV::Eventual => Ok(StepV::Current),
            ConsistencyV::AtLeast(_) => Ok(StepV::Sync { targets: asked(c.partitions, offsets) }),
            ConsistencyV::Pinned { manifest_version, token } => if pins(
                token,
                c.stream,
                c.partitions,
            ) {
                Ok(StepV::Pin { version: manifest_version, upper: highest(token, token.len()) })
            } else {
                Err(gone(c.name, manifest_version))
            },
        }
    }
}

/// How the view of a collection of a namespace begins; `offsets` is what an
/// at-least token holds of the collection's stream.
pub fn begin_view(
    ns: u64,
    collection: &Collection,
    consistency: &ReadConsistency,
    offsets: &Vec<Option<u64>>,
) -> (r: Result<ViewStep, ServiceError>)
    ensures
        match r {
            Ok(step) => first_step(ns, collection@, consistency@, offsets@) == Ok::<
                StepV,
                Failure,
            >(step@),
            Err(e) => first_step(ns, collection@, consistency@, offsets@) == Err::<
                StepV,
                Failure,
            >(e@),
        },
{
    if collection.namespace != ns {
        return Err(collection_not_found(&collection.name));
    }
    match consistency {
        ReadConsistency::Strong => Ok(ViewStep::Head),
        ReadConsistency::Eventual => Ok(ViewStep::Current),
        ReadConsistency::AtLeast(_) => {
            Ok(ViewStep::Sync { targets: asked_offsets(collection.partitions, offsets) })
        },
        ReadConsistency::Pinned { manifest_version, token } => {
            match pinned_upper(token, collection.stream, collection.partitions) {
                Some(upper) => Ok(ViewStep::Pin { version: *manifest_version, upper }),
                None => Err(pin_gone(&collection.name, *manifest_version)),
            }
        },
    }
}

/// The head of a collection of a namespace, of what the metastore holds.
pub fn checked_head(head: Option<CollectionHead>, ns: u64, name: &str) -> (r: Result<
    CollectionHead,
    ServiceError,
>)
    ensures
        match r {
            Ok(h) => head == Some(h) && h.collection.namespace == ns,
            Err(e) => e@ == no_collection(name@) && match head {
                Some(h) => h.collection.namespace != ns,
                None => true,
            },
        },
{
    match head {
        Some(h) => {
            if h.collection.namespace == ns {
                Ok(h)
            } else {
                Err(collection_not_found(name))
            }
        },
        None => Err(collection_not_found(name)),
    }
}

/// The offsets that a strong read waits for.
pub fn strong_targets(head: &CollectionHead) -> (r: BTreeMap<u32, u64>)
    ensures
        r@ == watermarks(head.collection.partitions, head.high_watermarks@),
{
    high_watermarks(head.collection.partitions, &head.high_watermarks)
}

/// What follows a wait for the tail.
#[derive(Debug)]
pub enum SyncStep {
    /// Read the tail's manifest and its rows; the token names its head.
    Use(ConsistencyToken),
    /// Read the live manifest and a range after it.
    Range,
}

/// What follows a wait for the tail: a tail over its bound is replaced by a
/// range, any other failure is the read's.
pub fn on_sync(collection: &Collection, synced: Result<BTreeMap<u32, u64>, TailError>) -> (r: Result<
    SyncStep,
    ServiceError,
>)
    ensures
        match synced {
            Ok(head) => r matches Ok(SyncStep::Use(token)) && token@ == token_on(
                collection.stream,
                collection.partitions,
                head@,
            ),
            Err(TailError::Overflow(_)) => r matches Ok(SyncStep::Range),
            Err(err) => r matches Err(e) && e@ == tail_failure(err, collection.name@),
        },
{
    match synced {
        Ok(head) => Ok(
            SyncStep::Use(token_of(collection.stream, collection.partitions, &head)),
        ),
        Err(TailError::Overflow(_)) => Ok(SyncStep::Range),
        Err(err) => Err(tail_error(err, &collection.name)),
    }
}

/// How far some offsets are ahead of others, over the first partitions.
pub open spec fn lag(partitions: nat, targets: Map<u32, u64>, applied: Map<u32, u64>) -> nat
    decreases partitions,
{
    if partitions == 0 {
        0
    } else {
        let p = (partitions - 1) as u32;
        lag((partitions - 1) as nat, targets, applied) + if at(targets, p) > at(applied, p) {
            (at(targets, p) - at(applied, p)) as nat
        } else {
            0
        }
    }
}

proof fn lag_grows(n: nat, m: nat, targets: Map<u32, u64>, applied: Map<u32, u64>)
    requires
        n <= m,
    ensures
        lag(n, targets, applied) <= lag(m, targets, applied),
    decreases m,
{
    if n < m {
        lag_grows(n, (m - 1) as nat, targets, applied);
    }
}

/// How many records some offsets are ahead of others.
pub fn lag_of(partitions: u32, targets: &BTreeMap<u32, u64>, applied: &BTreeMap<u32, u64>) -> (r:
    u64)
    requires
        lag(partitions as nat, targets@, applied@) <= u64::MAX,
    ensures
        r == lag(partitions as nat, targets@, applied@),
{
    let mut sum: u64 = 0;
    let mut p: u32 = 0;
    while p < partitions
        invariant
            p <= partitions,
            sum == lag(p as nat, targets@, applied@),
            lag(partitions as nat, targets@, applied@) <= u64::MAX,
        decreases partitions - p,
    {
        let a = offset_in(targets, p);
        let b = offset_in(applied, p);
        proof {
            lag_grows((p + 1) as nat, partitions as nat, targets@, applied@);
        }
        if a > b {
            sum = sum + (a - b);
        }
        p += 1;
    }
    sum
}

/// The token of a range that replaced the tail, or why there is none: a
/// range over its bound says how many records are missing.
pub fn on_range(
    collection: &Collection,
    built: Result<BTreeMap<u32, u64>, TailError>,
    targets: &BTreeMap<u32, u64>,
    applied: &BTreeMap<u32, u64>,
) -> (r: Result<ConsistencyToken, ServiceError>)
    requires
        lag(collection.partitions as nat, targets@, applied@) <= u64::MAX,
    ensures
        match built {
            Ok(head) => r matches Ok(token) && token@ == token_on(
                collection.stream,
                collection.partitions,
                head@,
            ),
            Err(TailError::Overflow(_)) => r matches Err(e) && e@ == Failure::Unavailable(
                "collection "@ + collection.name@ + ": "@ + text::decimal(
                    lag(collection.partitions as nat, targets@, applied@),
                ) + " records are not yet applied; retry after the link catches up"@,
            ),
            Err(err) => r matches Err(e) && e@ == tail_failure(err, collection.name@),
        },
{
    match built {
        Ok(head) => Ok(token_of(collection.stream, collection.partitions, &head)),
        Err(TailError::Overflow(_)) => {
            let lag = lag_of(collection.partitions, targets, applied);
            let mut out = text::cat3("collection ", &collection.name, ": ");
            out.append(text::dec(lag).as_str());
            out.append(" records are not yet applied; retry after the link catches up");
            Err(ServiceError::Unavailable(out))
        },
        Err(err) => Err(tail_error(err, &collection.name)),
    }
}

/// The higher offset of each partition.
pub open spec fn higher(partitions: u32, a: Map<u32, u64>, b: Map<u32, u64>) -> Map<u32, u64> {
    Map::new(
        below(partitions),
        |p: u32|
            if at(a, p) > at(b, p) {
                at(a, p)
            } else {
                at(b, p)
            },
    )
}

/// The higher offset of each partition.
pub fn higher_offsets(partitions: u32, a: &BTreeMap<u32, u64>, b: &BTreeMap<u32, u64>) -> (r:
    BTreeMap<u32, u64>)
    ensures
        r@ == higher(partitions, a@, b@),
{
    let mut out: BTreeMap<u32, u64> = BTreeMap::new();
    let mut p: u32 = 0;
    assert(out@ =~= higher(0, a@, b@));
    while p < partitions
        invariant
            p <= partitions,
            out@ == higher(p, a@, b@),
        decreases partitions - p,
    {
        let x = offset_in(a, p);
        let y = offset_in(b, p);
        let most: u64 = if x > y {
            x
        } else {
            y
        };
        out.insert(p, most);
        assert(out@ =~= higher((p + 1) as u32, a@, b@));
        p += 1;
    }
    out
}

/// The token of an eventual read: what its manifest applied and its tail
/// holds.
pub fn eventual_token(
    collection: &Collection,
    applied: &BTreeMap<u32, u64>,
    head: &BTreeMap<u32, u64>,
) -> (r: ConsistencyToken)
    ensures
        r@ == token_on(
            collection.stream,
            collection.partitions,
            higher(collection.partitions, applied@, head@),
        ),
{
    let most = higher_offsets(collection.partitions, applied, head);
    token_of(collection.stream, collection.partitions, &most)
}

/// Which manifest a pinned read reads.
#[derive(Clone, Copy, Debug, PartialEq, Eq, Structural)]
pub enum PinStep {
    /// The empty one before the first commit.
    Empty,
    /// A retained one.
    Retained,
}

/// Which manifest a pinned read reads: the one before the first commit only
/// while the log starts at zero.
pub fn on_pinned_head(collection: &Collection, head: &CollectionHead, version: u64) -> (r: Result<
    PinStep,
    ServiceError,
>)
    ensures
        ({
            let readable = head.collection.stream == collection.stream && (version == 0 ==> forall|
                i: int,
            |
                0 <= i < head.log_start_offsets@.len() ==> (#[trigger] head.log_start_offsets@[i])
                    == 0);
            match r {
                Ok(step) => readable && step == (if version == 0 {
                    PinStep::Empty
                } else {
                    PinStep::Retained
                }),
                Err(e) => !readable && e@ == gone(collection.name@, version),
            }
        }),
{
    if head.collection.stream != collection.stream {
        return Err(pin_gone(&collection.name, version));
    }
    if version != 0 {
        return Ok(PinStep::Retained);
    }
    let mut i: usize = 0;
    while i < head.log_start_offsets.len()
        invariant
            i <= head.log_start_offsets@.len(),
            version == 0,
            forall|k: int| 0 <= k < i ==> (#[trigger] head.log_start_offsets@[k]) == 0,
        decreases head.log_start_offsets.len() - i,
    {
        if head.log_start_offsets[i] != 0 {
            assert(head.log_start_offsets@[i as int] != 0);
            return Err(pin_gone(&collection.name, version));
        }
        i += 1;
    }
    Ok(PinStep::Empty)
}

/// The message of a manifest that its pointer does not name.
pub open spec fn mismatch_text(
    value: Seq<char>,
    version: u64,
    collection: u64,
    cid: u64,
    pointed: u64,
) -> Seq<char> {
    value + " is version "@ + text::decimal(version as nat) + " of collection "@ + text::decimal(
        collection as nat,
    ) + ", but the pointer of collection "@ + text::decimal(cid as nat) + " is at version "@
        + text::decimal(pointed as nat)
}

/// Whether the manifest that a pointer led to is the one that it names.
pub fn check_pointed(pointer: &Pointer, cid: u64, manifest: &CollectionManifest) -> (r: Result<
    (),
    ServiceError,
>)
    ensures
        match r {
            Ok(_) => manifest.version == pointer.version && manifest.collection_id == cid,
            Err(e) => (manifest.version != pointer.version || manifest.collection_id != cid) && e@
                == Failure::Internal(
                mismatch_text(
                    pointer.value@,
                    manifest.version,
                    manifest.collection_id,
                    cid,
                    pointer.version,
                ),
            ),
        },
{
    if manifest.version == pointer.version && manifest.collection_id == cid {
        return Ok(());
    }
    let mut out = pointer.value.clone();
    out.append(" is version ");
    out.append(text::dec(manifest.version).as_str());
    out.append(" of collection ");
    out.append(text::dec(manifest.collection_id).as_str());
    out.append(", but the pointer of collection ");
    out.append(text::dec(cid).as_str());
    out.append(" is at version ");
    out.append(text::dec(pointer.version).as_str());
    Err(ServiceError::Internal(out))
}

/// The place of a version in a chain of manifests, from the `j`-th on.
pub open spec fn version_in(versions: Seq<u64>, version: u64, j: int) -> Option<int>
    decreases versions.len() - j,
{
    if j < 0 || j >= versions.len() {
        None
    } else if versions[j] == version {
        Some(j)
    } else {
        version_in(versions, version, j + 1)
    }
}

/// The versions of a chain.
pub open spec fn versions_of(chain: Seq<CollectionManifest>) -> Seq<u64> {
    Seq::new(chain.len(), |i: int| chain[i].version)
}

/// The place of a version in a chain of retained manifests.
pub fn find_version(chain: &Vec<CollectionManifest>, version: u64) -> (r: Option<usize>)
    ensures
        match r {
            Some(i) => version_in(versions_of(chain@), version, 0) == Some(i as int) && i
                < chain@.len() && chain@[i as int].version == version,
            None => version_in(versions_of(chain@), version, 0) is None,
        },
{
    let ghost vs = versions_of(chain@);
    let mut j: usize = 0;
    while j < chain.len()
        invariant
            j <= chain@.len(),
            vs == versions_of(chain@),
            version_in(vs, version, 0) == version_in(vs, version, j as int),
        decreases chain.len() - j,
    {
        assert(vs[j as int] == chain@[j as int].version);
        if chain[j].version == version {
            return Some(j);
        }
        j += 1;
    }
    None
}

/// Whether a version may be in the chain that a checked live manifest heads:
/// not before the first commit, and not above the live one.
pub fn may_be_retained(pointer: &Option<Pointer>, version: u64) -> (r: bool)
    ensures
        r == (match pointer {
            Some(p) => version <= p.version,
            None => false,
        }),
{
    match pointer {
        Some(p) => version <= p.version,
        None => false,
    }
}

/// Whether the offsets of a pin are at least those that its manifest
/// applied.
pub open spec fn pin_covers(
    partitions: u32,
    upper: Map<u32, u64>,
    applied: Map<u32, u64>,
) -> bool {
    forall|p: u32| p < partitions ==> #[trigger] at(upper, p) >= at(applied, p)
}

/// Refuses a pin whose token is older than its manifest.
pub fn check_pinned_offsets(
    partitions: u32,
    upper: &BTreeMap<u32, u64>,
    applied: &BTreeMap<u32, u64>,
    version: u64,
) -> (r: Result<(), ServiceError>)
    ensures
        match r {
            Ok(_) => pin_covers(partitions, upper@, applied@),
            Err(e) => !pin_covers(partitions, upper@, applied@) && e@ == Failure::InvalidArgument(
                "the pinned token is older than manifest "@ + text::decimal(version as nat),
            ),
        },
{
    let mut p: u32 = 0;
    while p < partitions
        invariant
            p <= partitions,
            forall|q: u32| q < p ==> #[trigger] at(upper@, q) >= at(applied@, q),
        decreases partitions - p,
    {
        if offset_in(upper, p) < offset_in(applied, p) {
            assert(at(upper@, p) < at(applied@, p));
            let shown = text::dec(version);
            return Err(
                ServiceError::InvalidArgument(
                    text::cat2("the pinned token is older than manifest ", &shown),
                ),
            );
        }
        p += 1;
    }
    Ok(())
}

/// What a failed range of a pinned read is answered with: the pin is gone
/// where the log no longer holds the range.
pub fn pinned_range_error(collection: &Collection, version: u64, err: TailError) -> (r:
    ServiceError)
    ensures
        r@ == (match err {
            TailError::Trimmed(_) => gone(collection.name@, version),
            err => tail_failure(err, collection.name@),
        }),
{
    match err {
        TailError::Trimmed(_) => pin_gone(&collection.name, version),
        err => tail_error(err, &collection.name),
    }
}

/// A pin: the manifest version and the token of the high watermarks of one
/// read of the metastore.
pub fn pin(head: &CollectionHead) -> (r: (u64, ConsistencyToken))
    ensures
        r.0 == (match head.pointer {
            Some(p) => p.version,
            None => 0,
        }),
        r.1@ == token_on(
            head.collection.stream,
            head.collection.partitions,
            watermarks(head.collection.partitions, head.high_watermarks@),
        ),
{
    let version: u64 = match &head.pointer {
        Some(p) => p.version,
        None => 0,
    };
    let hwm = strong_targets(head);
    (version, token_of(head.collection.stream, head.collection.partitions, &hwm))
}

/// The token of a collection's offsets names each of its partitions and
/// nothing else, so it can be pinned; what a pin of it reads up to are those
/// offsets.
pub proof fn tokens_can_be_pinned(stream: u64, partitions: u32, offsets: Map<u32, u64>)
    ensures
        pins(token_on(stream, partitions, offsets), stream, partitions),
        forall|p: u32|
            p < partitions ==> #[trigger] at(
                highest(token_on(stream, partitions, offsets), partitions as nat),
                p,
            ) == at(offsets, p),
{
    let entries = token_on(stream, partitions, offsets);
    assert forall|p: u32| p < partitions implies #[trigger] names(entries, entries.len(), p) by {
        assert(entries[p as int].1 == p);
    }
    assert forall|p: u32| p < partitions implies #[trigger] at(
        highest(entries, partitions as nat),
        p,
    ) == at(offsets, p) by {
        assert(entries[p as int] == (stream, p, at(offsets, p)));
        highest_covers(entries, partitions as nat, p as int);
        let j = choose|j: int|
            0 <= j < partitions && (#[trigger] entries[j]).1 == entries[p as int].1 && entries[j].2
                == highest(entries, partitions as nat)[entries[p as int].1];
        assert(entries[j].1 == j as u32);
        assert(j == p);
    }
}

/// What one request reads: a manifest, the durable rows that the tail
/// supersedes and how many documents the tail adds.
pub struct ReadView {
    pub ns: u64,
    pub collection: Collection,
    pub manifest: CollectionManifest,
    pub shadow: RoaringTreemap,
    pub tail_live: u64,
    pub read_token: ConsistencyToken,
}

/// How many rows a view has: the live ones of the manifest without those
/// that the tail supersedes, and the tail's.
pub open spec fn rows_of(live: u64, shadowed: nat, tail: u64) -> int {
    (if live > shadowed {
        live - shadowed
    } else {
        0
    }) + tail
}

impl ReadView {
    /// How many rows the view has.
    pub fn live_rows(&self) -> (r: u64)
        requires
            mask::countable(self.shadow),
            rows_of(
                self.manifest.live_doc_count,
                mask::treemap_rows(self.shadow).len(),
                self.tail_live,
            ) <= u64::MAX,
        ensures
            r == rows_of(
                self.manifest.live_doc_count,
                mask::treemap_rows(self.shadow).len(),
                self.tail_live,
            ),
    {
        let shadowed = mask::row_count(&self.shadow);
        let durable: u64 = if self.manifest.live_doc_count > shadowed {
            self.manifest.live_doc_count - shadowed
        } else {
            0
        };
        durable + self.tail_live
    }

    /// Whether a durable row is superseded by an entry of the tail.
    pub fn is_shadowed(&self, row_id: u64) -> (r: bool)
        ensures
            r == mask::treemap_rows(self.shadow).contains(row_id),
    {
        mask::has_row(&self.shadow, row_id)
    }
}

/// How a cached delete bitmap is found.
#[derive(Debug)]
pub enum BitmapStep {
    /// The split has none: no document is deleted.
    Empty,
    /// Read it once under its path.
    Load(String),
}

/// How the delete bitmap of a split is found.
pub fn bitmap_step(delete_bitmap: &Option<String>) -> (r: BitmapStep)
    ensures
        match delete_bitmap {
            None => r is Empty,
            Some(path) => r matches BitmapStep::Load(p) && p@ == path@,
        },
{
    match delete_bitmap {
        None => BitmapStep::Empty,
        Some(path) => BitmapStep::Load(path.clone()),
    }
}

/// The weight of a cached bitmap: its serialized size and its path's, at
/// most what 32 bits hold.
pub fn bitmap_weight(serialized: usize, path_len: usize) -> (r: u32)
    requires
        serialized + path_len <= usize::MAX,
    ensures
        r == (if serialized + path_len <= u32::MAX {
            serialized + path_len
        } else {
            u32::MAX as int
        }),
{
    let sum: usize = serialized + path_len;
    if sum <= 0xffff_ffff {
        sum as u32
    } else {
        0xffff_ffff
    }
}

} // verus!
