//! The decisions of the facade that every gateway uses: collections,
//! schemas, aliases, versions and pins, and where a read runs.

use crate::collection;
use crate::collection::{CollectionSchema, FieldSpec, FieldSpecV, SchemaV, VectorSpec, VectorSpecV};
use crate::error::{Failure, ServiceError};
use crate::hot::{HotKind, HotStatus, HotUsed, RequestHot};
use crate::ir::ConsistencyToken;
use crate::json::alias;
use crate::json::alias::{AliasAction, AliasActionV};
use crate::ordering;
use crate::ordering::{Order, Ranking};
use crate::placement::Owner;
use crate::read;
use crate::read::{Collection, CollectionHead, CollectionManifest, ReadConfig};
use crate::text;
use std::collections::BTreeMap;
use vstd::prelude::*;
use vstd::string::*;

verus! {

/// The schema annotation that says when a collection was created, in
/// milliseconds since the epoch.
pub const CREATED_AT_ANNOTATION: &'static str = "operon.created_at_ms";

/// How statements are bounded; the timeout is in milliseconds.
#[derive(Clone, Copy, Debug, PartialEq, Eq, Structural)]
pub struct SqlConfig {
    pub max_rows: usize,
    pub timeout: u64,
    pub batch_rows: usize,
}

impl Default for SqlConfig {
    /// 10 000 rows and 30 s a statement, 8 192 rows a batch.
    fn default() -> (r: SqlConfig)
        ensures
            r == (SqlConfig { max_rows: 10_000, timeout: 30_000, batch_rows: 8_192 }),
    {
        SqlConfig { max_rows: 10_000, timeout: 30_000, batch_rows: 8_192 }
    }
}

/// How the service creates collections and bounds requests.
#[derive(Clone, Copy, Debug, PartialEq, Eq, Structural)]
pub struct ServiceConfig {
    pub default_partitions: u32,
    /// Whether a request without a hot scope reads the hot tier.
    pub hot_default: bool,
    pub read: ReadConfig,
    pub sql: SqlConfig,
    pub max_get_keys: usize,
    pub max_scroll_limit: usize,
    /// Attempts of a schema update.
    pub schema_retries: u32,
}

impl Default for ServiceConfig {
    /// Four partitions, the hot tier on, 10 000 keys a get and documents a
    /// page, five attempts.
    fn default() -> (r: ServiceConfig)
        ensures
            r.default_partitions == 4,
            r.hot_default,
            r.read == read::default_reads(),
            r.sql == (SqlConfig { max_rows: 10_000, timeout: 30_000, batch_rows: 8_192 }),
            r.max_get_keys == 10_000,
            r.max_scroll_limit == 10_000,
            r.schema_retries == 5,
    {
        ServiceConfig {
            default_partitions: 4,
            hot_default: true,
            read: ReadConfig::default(),
            sql: SqlConfig::default(),
            max_get_keys: 10_000,
            max_scroll_limit: 10_000,
            schema_retries: 5,
        }
    }
}

/// Why the metastore refused a change.
#[derive(Debug)]
pub enum Rejection {
    NamespaceExists,
    NamespaceNotFound,
    /// The same collection exists, with its id.
    CollectionExists(u64),
    CollectionNotFound,
    UnknownCollection(String),
    NameTaken(String),
    InvalidArgument(String),
    SchemaVersionMismatch,
    /// Any other refusal, or no refusal but a failure.
    Other,
}

/// An error of the metastore, and the error of the service that it is where
/// nothing better is known.
#[derive(Debug)]
pub struct MetaError {
    pub rejection: Rejection,
    pub error: ServiceError,
}

impl ServiceConfig {
    /// The hot scope of a request: that of its task, the default outside
    /// one.
    pub fn request_hot(&self, task: Option<RequestHot>) -> (r: RequestHot)
        ensures
            match task {
                Some(hot) => r == hot,
                None => r.enabled == self.hot_default && r.used@ == Set::<HotKind>::empty(),
            },
    {
        match task {
            Some(hot) => hot,
            None => RequestHot { enabled: self.hot_default, used: HotUsed::default() },
        }
    }

    /// Refuses a get of too many keys.
    pub fn check_get(&self, keys: usize) -> (r: Result<(), ServiceError>)
        ensures
            match r {
                Ok(_) => keys <= self.max_get_keys,
                Err(e) => keys > self.max_get_keys && e@ == Failure::InvalidArgument(
                    "a get takes at most "@ + text::decimal(self.max_get_keys as nat)
                        + " keys, got "@ + text::decimal(keys as nat),
                ),
            },
    {
        if keys <= self.max_get_keys {
            return Ok(());
        }
        let most = text::dec(self.max_get_keys as u64);
        let mut out = text::cat3("a get takes at most ", &most, " keys, got ");
        out.append(text::dec(keys as u64).as_str());
        Err(ServiceError::InvalidArgument(out))
    }

    /// Refuses a page of too many documents.
    pub fn check_scroll(&self, limit: usize) -> (r: Result<(), ServiceError>)
        ensures
            match r {
                Ok(_) => limit <= self.max_scroll_limit,
                Err(e) => limit > self.max_scroll_limit && e@ == Failure::InvalidArgument(
                    "a scroll page holds at most "@ + text::decimal(self.max_scroll_limit as nat)
                        + " documents, got "@ + text::decimal(limit as nat),
                ),
            },
    {
        if limit <= self.max_scroll_limit {
            return Ok(());
        }
        let most = text::dec(self.max_scroll_limit as u64);
        let mut out = text::cat3("a scroll page holds at most ", &most, " documents, got ");
        out.append(text::dec(limit as u64).as_str());
        Err(ServiceError::InvalidArgument(out))
    }
}

/// The result of a forwarded read, or none to read locally: a read that its
/// owner could not serve now.
pub fn forwarded<T>(result: Result<T, ServiceError>) -> (r: Option<Result<T, ServiceError>>)
    ensures
        r == (match result {
            Err(ServiceError::Unavailable(_)) => None,
            Err(ServiceError::Timeout) => None,
            other => Some(other),
        }),
{
    match result {
        Err(ServiceError::Unavailable(_)) => None,
        Err(ServiceError::Timeout) => None,
        other => Some(other),
    }
}

/// The owner of a read that another node serves.
pub fn remote_owner(owner: Owner) -> (r: Option<Owner>)
    ensures
        r == (match owner {
            Owner::Local => None,
            remote => Some(remote),
        }),
{
    match owner {
        Owner::Local => None,
        remote => Some(remote),
    }
}

/// The collection of a name or alias, of what the metastore found: an
/// absent namespace is like an empty one.
pub fn resolve(ns: Option<u64>, found: Option<Collection>, name: &str) -> (r: Result<
    (u64, Collection),
    ServiceError,
>)
    ensures
        match r {
            Ok((id, c)) => ns == Some(id) && found == Some(c) && c.namespace == id,
            Err(e) => e@ == read::no_collection(name@) && !(ns matches Some(id) && (
            found matches Some(c) && c.namespace == id)),
        },
{
    match ns {
        None => Err(read::collection_not_found(name)),
        Some(id) => match found {
            Some(c) => if c.namespace == id {
                Ok((id, c))
            } else {
                Err(read::collection_not_found(name))
            },
            None => Err(read::collection_not_found(name)),
        },
    }
}

/// Whether a namespace exists after an attempt to create it.
pub fn ensured(created: Result<(), MetaError>) -> (r: Result<(), ServiceError>)
    ensures
        match created {
            Ok(_) => r is Ok,
            Err(e) => if e.rejection is NamespaceExists {
                r is Ok
            } else {
                r == Err::<(), ServiceError>(e.error)
            },
        },
{
    match created {
        Ok(_) => Ok(()),
        Err(e) => match e.rejection {
            Rejection::NamespaceExists => Ok(()),
            _ => Err(e.error),
        },
    }
}

/// The namespace of a new collection, once it can be seen.
pub fn visible(ns: &str, id: Option<u64>) -> (r: Result<u64, ServiceError>)
    ensures
        match id {
            Some(id) => r == Ok::<u64, ServiceError>(id),
            None => r matches Err(e) && e@ == Failure::Unavailable(
                "namespace "@ + ns@ + " is not visible yet"@,
            ),
        },
{
    match id {
        Some(id) => Ok(id),
        None => Err(
            ServiceError::Unavailable(text::cat3("namespace ", ns, " is not visible yet")),
        ),
    }
}

/// Pairs with different names, in order of their names.
pub open spec fn in_order(pairs: Seq<(Seq<char>, Seq<char>)>) -> bool {
    forall|i: int, j: int|
        0 <= i < j < pairs.len() ==> text::before((#[trigger] pairs[i]).0, (#[trigger] pairs[j]).0)
}

/// Pairs in order with one more, in place of one of its name, from the
/// `j`-th on.
pub open spec fn with_pair(
    pairs: Seq<(Seq<char>, Seq<char>)>,
    pair: (Seq<char>, Seq<char>),
    j: int,
) -> Seq<(Seq<char>, Seq<char>)>
    decreases pairs.len() - j,
{
    if j < 0 || j >= pairs.len() {
        pairs.push(pair)
    } else if pairs[j].0 == pair.0 {
        pairs.update(j, pair)
    } else if text::before(pair.0, pairs[j].0) {
        pairs.insert(j, pair)
    } else {
        with_pair(pairs, pair, j + 1)
    }
}

/// Pairs in order with the first `n` of some more.
pub open spec fn with_pairs(
    pairs: Seq<(Seq<char>, Seq<char>)>,
    more: Seq<(Seq<char>, Seq<char>)>,
    n: nat,
) -> Seq<(Seq<char>, Seq<char>)>
    decreases n,
{
    if n == 0 || n > more.len() {
        pairs
    } else {
        with_pair(with_pairs(pairs, more, (n - 1) as nat), more[n - 1], 0)
    }
}

fn put_pair(pairs: &mut Vec<(String, String)>, name: &str, value: &str)
    ensures
        collection::pair_views(final(pairs)@) == with_pair(
            collection::pair_views(old(pairs)@),
            (name@, value@),
            0,
        ),
{
    let ghost was = collection::pair_views(pairs@);
    let ghost pair = (name@, value@);
    let mut j: usize = 0;
    while j < pairs.len()
        invariant
            j <= pairs@.len(),
            pairs@ == old(pairs)@,
            was == collection::pair_views(pairs@),
            pair == (name@, value@),
            with_pair(was, pair, 0) == with_pair(was, pair, j as int),
        decreases pairs.len() - j,
    {
        assert(was[j as int].0 == pairs@[j as int].0@);
        if text::same(&pairs[j].0, name) {
            pairs.set(j, (name.to_owned(), value.to_owned()));
            assert(collection::pair_views(pairs@) =~= was.update(j as int, pair));
            return ;
        }
        if text::comes_before(name, &pairs[j].0) {
            pairs.insert(j, (name.to_owned(), value.to_owned()));
            assert(collection::pair_views(pairs@) =~= was.insert(j as int, pair));
            return ;
        }
        j += 1;
    }
    pairs.push((name.to_owned(), value.to_owned()));
    assert(collection::pair_views(pairs@) =~= was.push(pair));
}

/// Whether a pair has another name.
pub open spec fn other_pair(name: Seq<char>) -> spec_fn((Seq<char>, Seq<char>)) -> bool {
    |p: (Seq<char>, Seq<char>)| p.0 != name
}

/// Pairs without one of a name.
pub open spec fn without_pair(pairs: Seq<(Seq<char>, Seq<char>)>, name: Seq<char>) -> Seq<
    (Seq<char>, Seq<char>),
> {
    pairs.filter(other_pair(name))
}

fn copy_without(pairs: &Vec<(String, String)>, name: &str) -> (r: Vec<(String, String)>)
    ensures
        collection::pair_views(r@) == without_pair(collection::pair_views(pairs@), name@),
{
    let ghost all = collection::pair_views(pairs@);
    let ghost keep = other_pair(name@);
    let mut out: Vec<(String, String)> = Vec::new();
    let mut i: usize = 0;
    proof {
        assert(all.take(0).filter(keep) =~= Seq::empty()) by {
            reveal(Seq::filter);
        }
        assert(collection::pair_views(out@) =~= Seq::empty());
    }
    while i < pairs.len()
        invariant
            i <= pairs@.len(),
            all == collection::pair_views(pairs@),
            keep == other_pair(name@),
            collection::pair_views(out@) == all.take(i as int).filter(keep),
        decreases pairs.len() - i,
    {
        let ghost before = collection::pair_views(out@);
        let kept = !text::same(&pairs[i].0, name);
        if kept {
            out.push((pairs[i].0.clone(), pairs[i].1.clone()));
        }
        proof {
            assert(all[i as int] == (pairs@[i as int].0@, pairs@[i as int].1@));
            let next = all.take(i as int + 1);
            assert(next.drop_last() =~= all.take(i as int));
            assert(next.last() == all[i as int]);
            reveal(Seq::filter);
            if kept {
                assert(collection::pair_views(out@) =~= before.push(all[i as int]));
            }
        }
        i += 1;
    }
    assert(all.take(all.len() as int) =~= all);
    out
}

/// A schema as it was asked for: without its version and its creation.
pub open spec fn shape(s: SchemaV) -> SchemaV {
    SchemaV {
        version: 1,
        annotations: without_pair(s.annotations, CREATED_AT_ANNOTATION@),
        ..s
    }
}

/// A schema as it was asked for, to compare a repeated creation.
pub fn requested_shape(schema: &CollectionSchema) -> (r: CollectionSchema)
    ensures
        r@ == shape(schema@),
{
    let mut out = schema.copy();
    out.version = 1;
    out.annotations = copy_without(&schema.annotations, CREATED_AT_ANNOTATION);
    out
}

/// The schema that a new collection begins with.
pub fn first_schema(schema: CollectionSchema, now_ms: u64) -> (r: CollectionSchema)
    ensures
        r@ == (SchemaV {
            version: 1,
            annotations: with_pair(
                schema@.annotations,
                (CREATED_AT_ANNOTATION@, text::decimal(now_ms as nat)),
                0,
            ),
            ..schema@
        }),
{
    let mut out = schema;
    out.version = 1;
    let shown = text::dec(now_ms);
    put_pair(&mut out.annotations, CREATED_AT_ANNOTATION, &shown);
    out
}

proof fn dropped_pair<T>(keep: spec_fn(T) -> bool, a: Seq<T>, x: T, b: Seq<T>)
    requires
        !keep(x),
    ensures
        (a + seq![x] + b).filter(keep) == (a + b).filter(keep),
{
    Seq::filter_distributes_over_add(a + seq![x], b, keep);
    Seq::filter_distributes_over_add(a, seq![x], keep);
    Seq::filter_distributes_over_add(a, b, keep);
    assert(seq![x].filter(keep) =~= Seq::empty()) by {
        let none = Seq::<T>::empty();
        assert(none.filter(keep) =~= none) by {
            reveal(Seq::filter);
        }
        assert(seq![x].drop_last() =~= none);
        assert(seq![x].last() == x);
        reveal(Seq::filter);
    }
    assert(a.filter(keep) + Seq::empty() =~= a.filter(keep));
}

proof fn put_and_dropped(
    pairs: Seq<(Seq<char>, Seq<char>)>,
    pair: (Seq<char>, Seq<char>),
    j: int,
)
    requires
        0 <= j <= pairs.len(),
    ensures
        without_pair(with_pair(pairs, pair, j), pair.0) == without_pair(pairs, pair.0),
    decreases pairs.len() - j,
{
    let keep = other_pair(pair.0);
    if j >= pairs.len() {
        let none = Seq::<(Seq<char>, Seq<char>)>::empty();
        dropped_pair(keep, pairs, pair, none);
        assert(pairs + seq![pair] + none =~= pairs.push(pair));
        assert(pairs + none =~= pairs);
    } else if pairs[j].0 == pair.0 {
        let rest = pairs.skip(j + 1);
        dropped_pair(keep, pairs.take(j), pair, rest);
        dropped_pair(keep, pairs.take(j), pairs[j], rest);
        assert(pairs.take(j) + seq![pair] + rest =~= pairs.update(j, pair));
        assert(pairs.take(j) + seq![pairs[j]] + rest =~= pairs);
    } else if text::before(pair.0, pairs[j].0) {
        dropped_pair(keep, pairs.take(j), pair, pairs.skip(j));
        assert(pairs.take(j) + seq![pair] + pairs.skip(j) =~= pairs.insert(j, pair));
        assert(pairs.take(j) + pairs.skip(j) =~= pairs);
    } else {
        put_and_dropped(pairs, pair, j + 1);
    }
}

/// A repeated creation finds its collection: the schema that a collection
/// begins with, whenever it was created, has the shape that was asked for.
pub proof fn a_repeat_is_found(schema: SchemaV, now: Seq<char>)
    ensures
        shape(
            SchemaV {
                version: 1,
                annotations: with_pair(schema.annotations, (CREATED_AT_ANNOTATION@, now), 0),
                ..schema
            },
        ) == shape(schema),
{
    put_and_dropped(schema.annotations, (CREATED_AT_ANNOTATION@, now), 0);
}

/// The partitions of a new collection.
pub fn partition_count(partitions: Option<u32>, default_partitions: u32) -> (r: u32)
    ensures
        r == (match partitions {
            Some(p) => p,
            None => default_partitions,
        }),
{
    match partitions {
        Some(p) => p,
        None => default_partitions,
    }
}

/// What follows an attempt to create a collection.
#[derive(Clone, Copy, Debug, PartialEq, Eq, Structural)]
pub enum CreateStep {
    /// It exists under this id.
    Made(u64),
    /// Its name is taken: compare with what has it.
    Compare,
}

/// What follows an attempt to create a collection.
pub fn on_created(created: Result<u64, MetaError>) -> (r: Result<CreateStep, ServiceError>)
    ensures
        match created {
            Ok(cid) => r == Ok::<CreateStep, ServiceError>(CreateStep::Made(cid)),
            Err(e) => match e.rejection {
                Rejection::CollectionExists(cid) => r == Ok::<CreateStep, ServiceError>(
                    CreateStep::Made(cid),
                ),
                Rejection::NameTaken(_) => r == Ok::<CreateStep, ServiceError>(CreateStep::Compare),
                Rejection::InvalidArgument(m) => r matches Err(err) && err@
                    == Failure::InvalidArgument(m@),
                _ => r == Err::<CreateStep, ServiceError>(e.error),
            },
        },
{
    match created {
        Ok(cid) => Ok(CreateStep::Made(cid)),
        Err(e) => match e.rejection {
            Rejection::CollectionExists(cid) => Ok(CreateStep::Made(cid)),
            Rejection::NameTaken(_) => Ok(CreateStep::Compare),
            Rejection::InvalidArgument(m) => Err(ServiceError::InvalidArgument(m)),
            _ => Err(e.error),
        },
    }
}

/// Whether an existing collection is the one that was asked for: of that
/// name in that namespace, with the same schema but for its creation, and
/// with no or the same partition count.
pub open spec fn is_repeat(
    existing: Option<Collection>,
    ns: u64,
    name: Seq<char>,
    schema: SchemaV,
    partitions: Option<u32>,
) -> bool {
    match existing {
        None => false,
        Some(c) => c.namespace == ns && c.name@ == name && shape(c.schema@) == shape(schema) && match
            partitions {
            None => true,
            Some(p) => p == c.partitions,
        },
    }
}

/// The collection that has the name of a new one, if it is the same.
pub fn on_taken(
    existing: &Option<Collection>,
    ns: u64,
    name: &str,
    schema: &CollectionSchema,
    partitions: Option<u32>,
) -> (r: Result<u64, ServiceError>)
    ensures
        match r {
            Ok(cid) => is_repeat(*existing, ns, name@, schema@, partitions) && (
            existing matches Some(c) && c.id == cid),
            Err(e) => !is_repeat(*existing, ns, name@, schema@, partitions) && e@
                == Failure::AlreadyExists(name@),
        },
{
    match existing {
        None => Err(ServiceError::AlreadyExists(name.to_owned())),
        Some(c) => {
            let shaped = requested_shape(&c.schema);
            let requested = requested_shape(schema);
            let alike = shaped.same_ignoring_version(&requested);
            proof {
                let a = shaped@;
                let b = requested@;
                assert((SchemaV { version: 0, ..a } == SchemaV { version: 0, ..b }) == (a == b));
            }
            let counted = match partitions {
                None => true,
                Some(p) => p == c.partitions,
            };
            if c.namespace == ns && text::same(&c.name, name) && alike && counted {
                Ok(c.id)
            } else {
                Err(ServiceError::AlreadyExists(name.to_owned()))
            }
        },
    }
}

/// The collection of a name, which is no alias, whose tail a drop stops.
pub fn drop_target(found: &Option<Collection>, ns: u64, name: &str) -> (r: Option<u64>)
    ensures
        r == (match found {
            Some(c) => if c.namespace == ns && c.name@ == name@ {
                Some(c.id)
            } else {
                None
            },
            None => None,
        }),
{
    match found {
        Some(c) => if c.namespace == ns && text::same(&c.name, name) {
            Some(c.id)
        } else {
            None
        },
        None => None,
    }
}

/// Whether a drop dropped a collection, and whose tail to stop again: a read
/// may have started one.
pub fn on_dropped(dropped: Result<Option<u64>, MetaError>) -> (r: Result<
    Option<u64>,
    ServiceError,
>)
    ensures
        match dropped {
            Ok(cid) => r == Ok::<Option<u64>, ServiceError>(cid),
            Err(e) => if e.rejection is NamespaceNotFound {
                r == Ok::<Option<u64>, ServiceError>(None)
            } else {
                r == Err::<Option<u64>, ServiceError>(e.error)
            },
        },
{
    match dropped {
        Ok(cid) => Ok(cid),
        Err(e) => match e.rejection {
            Rejection::NamespaceNotFound => Ok(None),
            _ => Err(e.error),
        },
    }
}

/// The sum of the first `n` sizes.
pub open spec fn size_sum(sizes: Seq<u64>, n: nat) -> nat
    decreases n,
{
    if n == 0 || n > sizes.len() {
        0
    } else {
        size_sum(sizes, (n - 1) as nat) + sizes[n - 1] as nat
    }
}

proof fn size_sum_grows(sizes: Seq<u64>, n: nat, m: nat)
    requires
        n <= m <= sizes.len(),
    ensures
        size_sum(sizes, n) <= size_sum(sizes, m),
    decreases m,
{
    if n < m {
        size_sum_grows(sizes, n, (m - 1) as nat);
    }
}

fn sum_sizes(sizes: &Vec<u64>) -> (r: u64)
    requires
        size_sum(sizes@, sizes@.len()) <= u64::MAX,
    ensures
        r == size_sum(sizes@, sizes@.len()),
{
    let mut sum: u64 = 0;
    let mut i: usize = 0;
    while i < sizes.len()
        invariant
            i <= sizes@.len(),
            sum == size_sum(sizes@, i as nat),
            size_sum(sizes@, sizes@.len()) <= u64::MAX,
        decreases sizes.len() - i,
    {
        proof {
            size_sum_grows(sizes@, (i + 1) as nat, sizes@.len());
        }
        sum = sum + sizes[i];
        i += 1;
    }
    sum
}

/// Texts in alphabetical order.
pub struct ByText;

impl Ranking<String> for ByText {
    open spec fn le(&self, a: String, b: String) -> bool {
        !text::before(b@, a@)
    }
}

impl Order<String> for ByText {
    fn leq(&self, a: &String, b: &String) -> (r: bool) {
        !text::comes_before(b, a)
    }
}

/// Whether an alias is of a collection.
pub open spec fn alias_of(id: u64) -> spec_fn((String, u64)) -> bool {
    |a: (String, u64)| a.1 == id
}

/// The names of a collection's aliases, in order.
pub open spec fn names_are(names: Seq<String>, aliases: Seq<(String, u64)>, id: u64) -> bool {
    exists|picked: Seq<String>|
        {
            &&& text::texts(picked) == Seq::new(
                aliases.filter(alias_of(id)).len(),
                |i: int| aliases.filter(alias_of(id))[i].0@,
            )
            &&& names == #[trigger] ordering::sorted(ByText, picked)
        }
}

fn alias_names(aliases: &Vec<(String, u64)>, id: u64) -> (r: Vec<String>)
    ensures
        names_are(r@, aliases@, id),
{
    let ghost all = aliases@;
    let ghost of = alias_of(id);
    let mut picked: Vec<String> = Vec::new();
    let mut i: usize = 0;
    proof {
        assert(all.take(0).filter(of) =~= Seq::empty()) by {
            reveal(Seq::filter);
        }
    }
    while i < aliases.len()
        invariant
            i <= aliases@.len(),
            all == aliases@,
            of == alias_of(id),
            picked@.len() == all.take(i as int).filter(of).len(),
            forall|k: int|
                0 <= k < picked@.len() ==> (#[trigger] picked@[k])@ == all.take(i as int).filter(
                    of,
                )[k].0@,
        decreases aliases.len() - i,
    {
        let ghost before = all.take(i as int).filter(of);
        proof {
            let next = all.take(i as int + 1);
            assert(next.drop_last() =~= all.take(i as int));
            assert(next.last() == all[i as int]);
            reveal(Seq::filter);
        }
        if aliases[i].1 == id {
            picked.push(aliases[i].0.clone());
            assert(all.take(i as int + 1).filter(of) == before.push(all[i as int]));
        }
        i += 1;
    }
    proof {
        assert(all.take(all.len() as int) =~= all);
        assert(text::texts(picked@) =~= Seq::new(
            all.filter(of).len(),
            |i: int| all.filter(of)[i].0@,
        ));
    }
    let ghost chosen = picked@;
    let out = ordering::sort(&ByText, picked);
    assert(out@ == ordering::sorted(ByText, chosen));
    out
}

/// The text of a name's pair.
pub open spec fn pair_text(pairs: Seq<(Seq<char>, Seq<char>)>, name: Seq<char>, j: int) -> Option<
    Seq<char>,
>
    decreases pairs.len() - j,
{
    if j < 0 || j >= pairs.len() {
        None
    } else if pairs[j].0 == name {
        Some(pairs[j].1)
    } else {
        pair_text(pairs, name, j + 1)
    }
}

/// When a collection was created: what its annotation says, zero if that is
/// no number.
pub open spec fn created_at(s: SchemaV) -> nat {
    match pair_text(s.annotations, CREATED_AT_ANNOTATION@, 0) {
        Some(t) => match text::number_in(t, u64::MAX as nat) {
            Some(n) => n,
            None => 0,
        },
        None => 0,
    }
}

fn created_at_ms(schema: &CollectionSchema) -> (r: u64)
    ensures
        r == created_at(schema@),
{
    let ghost pairs = collection::pair_views(schema.annotations@);
    let mut j: usize = 0;
    while j < schema.annotations.len()
        invariant
            j <= schema.annotations@.len(),
            pairs == schema@.annotations,
            pairs == collection::pair_views(schema.annotations@),
            pair_text(pairs, CREATED_AT_ANNOTATION@, 0) == pair_text(
                pairs,
                CREATED_AT_ANNOTATION@,
                j as int,
            ),
        decreases schema.annotations.len() - j,
    {
        assert(pairs[j as int] == (schema.annotations@[j as int].0@, schema.annotations@[j as int].1@));
        if text::same(&schema.annotations[j].0, CREATED_AT_ANNOTATION) {
            return match text::parse_number(&schema.annotations[j].1, u64::MAX) {
                Some(n) => n,
                None => 0,
            };
        }
        j += 1;
    }
    0
}

/// What a collection is and holds.
#[derive(Debug)]
pub struct CollectionInfo {
    pub id: u64,
    pub name: String,
    pub namespace: String,
    pub schema: CollectionSchema,
    pub partitions: u32,
    pub aliases: Vec<String>,
    pub stream: u64,
    pub manifest_version: u64,
    pub live_doc_count: u64,
    pub size_bytes: u64,
    pub created_at_ms: u64,
    pub link_lag_records: u64,
    pub hot: HotStatus,
}

/// What a manifest and its files hold: the version, the live documents, the
/// bytes and the applied offsets; nothing before the first commit.
pub open spec fn held(live: Option<(u64, CollectionManifest)>, files: Seq<u64>) -> (
    u64,
    u64,
    nat,
    Map<u32, u64>,
) {
    match live {
        None => (0, 0, 0, Map::empty()),
        Some((version, m)) => (
            version,
            m.live_doc_count,
            size_sum(m.split_sizes@, m.split_sizes@.len()) + size_sum(files, files.len()),
            m.applied@,
        ),
    }
}

/// How many records of a collection's stream are not applied yet.
pub open spec fn link_lag(head: CollectionHead, applied: Map<u32, u64>) -> nat {
    read::lag(
        head.collection.partitions as nat,
        read::watermarks(head.collection.partitions, head.high_watermarks@),
        applied,
    )
}

/// What a collection is and holds. `live` is the version of the pointer and
/// the manifest that it led to, none before the first commit; `files` are
/// the sizes of the data files, zero where one is not known.
pub fn info_of(
    ns: &str,
    head: &CollectionHead,
    live: Option<(u64, CollectionManifest)>,
    files: &Vec<u64>,
    aliases: &Vec<(String, u64)>,
    hot: HotStatus,
) -> (r: CollectionInfo)
    requires
        held(live, files@).2 <= u64::MAX,
        link_lag(*head, held(live, files@).3) <= u64::MAX,
    ensures
        r.id == head.collection.id,
        r.name@ == head.collection.name@,
        r.namespace@ == ns@,
        r.schema@ == head.collection.schema@,
        r.partitions == head.collection.partitions,
        names_are(r.aliases@, aliases@, head.collection.id),
        r.stream == head.collection.stream,
        r.manifest_version == held(live, files@).0,
        r.live_doc_count == held(live, files@).1,
        r.size_bytes == held(live, files@).2,
        r.created_at_ms == created_at(head.collection.schema@),
        r.link_lag_records == link_lag(*head, held(live, files@).3),
        r.hot == hot,
{
    let hwm = read::strong_targets(head);
    let c = &head.collection;
    let (version, docs, size, lag): (u64, u64, u64, u64) = match live {
        None => {
            let none: BTreeMap<u32, u64> = BTreeMap::new();
            (0, 0, 0, read::lag_of(c.partitions, &hwm, &none))
        },
        Some((version, m)) => {
            let size = sum_sizes(&m.split_sizes) + sum_sizes(files);
            (version, m.live_doc_count, size, read::lag_of(c.partitions, &hwm, &m.applied))
        },
    };
    CollectionInfo {
        id: c.id,
        name: c.name.clone(),
        namespace: ns.to_owned(),
        schema: c.schema.copy(),
        partitions: c.partitions,
        aliases: alias_names(aliases, c.id),
        stream: c.stream,
        manifest_version: version,
        live_doc_count: docs,
        size_bytes: size,
        created_at_ms: created_at_ms(&c.schema),
        link_lag_records: lag,
        hot,
    }
}

/// Collections by name.
pub struct ByName;

impl Ranking<CollectionInfo> for ByName {
    open spec fn le(&self, a: CollectionInfo, b: CollectionInfo) -> bool {
        !text::before(b.name@, a.name@)
    }
}

impl Order<CollectionInfo> for ByName {
    fn leq(&self, a: &CollectionInfo, b: &CollectionInfo) -> (r: bool) {
        !text::comes_before(&b.name, &a.name)
    }
}

/// Some collections by name.
pub fn list_collections(infos: Vec<CollectionInfo>) -> (r: Vec<CollectionInfo>)
    ensures
        r@ == ordering::sorted(ByName, infos@),
{
    ordering::sort(&ByName, infos)
}

/// The names of a list of collections ascend.
pub proof fn a_list_ascends(infos: Seq<CollectionInfo>)
    ensures
        ordering::is_ordered(ByName, ordering::sorted(ByName, infos)),
{
    let all = |c: CollectionInfo| true;
    assert forall|a: CollectionInfo, b: CollectionInfo| all(a) && all(b) implies #[trigger] ByName.le(
        a,
        b,
    ) || ByName.le(b, a) by {
        if text::before(b.name@, a.name@) && text::before(a.name@, b.name@) {
            text::before_is_transitive(a.name@, b.name@, a.name@);
            text::before_is_strict(a.name@);
        }
    }
    assert forall|a: CollectionInfo, b: CollectionInfo, c: CollectionInfo|
        all(a) && all(b) && all(c) && #[trigger] ByName.le(a, b) && #[trigger] ByName.le(
            b,
            c,
        ) implies ByName.le(a, c) by {
        if text::before(c.name@, a.name@) {
            text::before_is_total(b.name@, c.name@);
            if b.name@ != c.name@ {
                text::before_is_transitive(b.name@, c.name@, a.name@);
            }
        }
    }
    ordering::sorted_ordered(ByName, infos, all);
}

/// The error of a field that exists with another specification.
pub open spec fn field_exists(name: Seq<char>) -> Failure {
    Failure::AlreadyExists("field "@ + name)
}

fn existing_field(name: &str) -> (r: ServiceError)
    ensures
        r@ == field_exists(name@),
{
    ServiceError::AlreadyExists(text::cat2("field ", name))
}

/// The names of some items.
pub open spec fn names_of<T>(items: Seq<T>, name: spec_fn(T) -> Seq<char>) -> Seq<Seq<char>> {
    Seq::new(items.len(), |i: int| name(items[i]))
}

/// The name of a field.
pub open spec fn field_name() -> spec_fn(FieldSpecV) -> Seq<char> {
    |f: FieldSpecV| f.name
}

/// The name of a dense vector.
pub open spec fn vector_name() -> spec_fn(VectorSpecV) -> Seq<char> {
    |v: VectorSpecV| v.name
}

/// The items of a schema with the first `n` of some more: one that exists
/// with the same specification is skipped.
pub open spec fn more<T>(
    current: Seq<T>,
    items: Seq<T>,
    name: spec_fn(T) -> Seq<char>,
    n: nat,
) -> Result<Seq<T>, Failure>
    decreases n,
{
    if n == 0 || n > items.len() {
        Ok(current)
    } else {
        match more(current, items, name, (n - 1) as nat) {
            Err(e) => Err(e),
            Ok(so_far) => {
                let f = items[n - 1];
                match spot(names_of(current, name), name(f), 0) {
                    None => Ok(so_far.push(f)),
                    Some(i) => if current[i] == f {
                        Ok(so_far)
                    } else {
                        Err(field_exists(name(f)))
                    },
                }
            },
        }
    }
}

/// The place of a name, from the `j`-th on.
pub open spec fn spot(names: Seq<Seq<char>>, name: Seq<char>, j: int) -> Option<int>
    decreases names.len() - j,
{
    if j < 0 || j >= names.len() {
        None
    } else if names[j] == name {
        Some(j)
    } else {
        spot(names, name, j + 1)
    }
}

/// What a name's place means.
pub proof fn spot_is(names: Seq<Seq<char>>, name: Seq<char>, j: int)
    requires
        0 <= j <= names.len(),
    ensures
        match spot(names, name, j) {
            Some(i) => j <= i < names.len() && names[i] == name && forall|k: int|
                j <= k < i ==> #[trigger] names[k] != name,
            None => forall|k: int| j <= k < names.len() ==> #[trigger] names[k] != name,
        },
    decreases names.len() - j,
{
    if j < names.len() && names[j] != name {
        spot_is(names, name, j + 1);
    }
}

/// The schema that an update asks for.
pub open spec fn updated(
    current: SchemaV,
    fields: Seq<FieldSpecV>,
    vectors: Seq<VectorSpecV>,
    annotations: Seq<(Seq<char>, Seq<char>)>,
) -> Result<SchemaV, Failure> {
    match more(current.fields, fields, field_name(), fields.len()) {
        Err(e) => Err(e),
        Ok(fs) => match more(
            current.vectors,
            vectors,
            vector_name(),
            vectors.len(),
        ) {
            Err(e) => Err(e),
            Ok(vs) => Ok(
                SchemaV {
                    fields: fs,
                    vectors: vs,
                    annotations: with_pairs(current.annotations, annotations, annotations.len()),
                    ..current
                },
            ),
        },
    }
}

proof fn more_stays_wrong<T>(
    current: Seq<T>,
    items: Seq<T>,
    name: spec_fn(T) -> Seq<char>,
    n: nat,
    m: nat,
)
    requires
        n <= m <= items.len(),
        more(current, items, name, n) is Err,
    ensures
        more(current, items, name, m) == more(current, items, name, n),
    decreases m,
{
    if n < m {
        more_stays_wrong(current, items, name, n, (m - 1) as nat);
    }
}

fn field_spot(current: &Vec<FieldSpec>, name: &str) -> (r: Option<usize>)
    ensures
        match r {
            Some(i) => i < current@.len() && spot(
                names_of(collection::field_views(current@), field_name()),
                name@,
                0,
            ) == Some(i as int),
            None => spot(
                names_of(collection::field_views(current@), field_name()),
                name@,
                0,
            ) is None,
        },
{
    let ghost names = names_of(collection::field_views(current@), field_name());
    let mut j: usize = 0;
    while j < current.len()
        invariant
            j <= current@.len(),
            names == names_of(collection::field_views(current@), field_name()),
            spot(names, name@, 0) == spot(names, name@, j as int),
        decreases current.len() - j,
    {
        assert(names[j as int] == current@[j as int].name@);
        if text::same(&current[j].name, name) {
            return Some(j);
        }
        j += 1;
    }
    None
}

fn vector_spot(current: &Vec<VectorSpec>, name: &str) -> (r: Option<usize>)
    ensures
        match r {
            Some(i) => i < current@.len() && spot(
                names_of(collection::vector_views(current@), vector_name()),
                name@,
                0,
            ) == Some(i as int),
            None => spot(
                names_of(collection::vector_views(current@), vector_name()),
                name@,
                0,
            ) is None,
        },
{
    let ghost names = names_of(collection::vector_views(current@), vector_name());
    let mut j: usize = 0;
    while j < current.len()
        invariant
            j <= current@.len(),
            names == names_of(collection::vector_views(current@), vector_name()),
            spot(names, name@, 0) == spot(names, name@, j as int),
        decreases current.len() - j,
    {
        assert(names[j as int] == current@[j as int].name@);
        if text::same(&current[j].name, name) {
            return Some(j);
        }
        j += 1;
    }
    None
}

fn add_new_fields(
    next: &mut Vec<FieldSpec>,
    current: &Vec<FieldSpec>,
    fields: &Vec<FieldSpec>,
) -> (r: Result<(), ServiceError>)
    requires
        collection::field_views(old(next)@) == collection::field_views(current@),
    ensures
        match r {
            Ok(_) => more(
                collection::field_views(current@),
                collection::field_views(fields@),
                field_name(),
                fields@.len(),
            ) == Ok::<Seq<FieldSpecV>, Failure>(collection::field_views(final(next)@)),
            Err(e) => more(
                collection::field_views(current@),
                collection::field_views(fields@),
                field_name(),
                fields@.len(),
            ) == Err::<Seq<FieldSpecV>, Failure>(e@),
        },
{
    let ghost cv = collection::field_views(current@);
    let ghost fv = collection::field_views(fields@);
    let mut i: usize = 0;
    while i < fields.len()
        invariant
            i <= fields@.len(),
            cv == collection::field_views(current@),
            fv == collection::field_views(fields@),
            more(cv, fv, field_name(), i as nat) == Ok::<Seq<FieldSpecV>, Failure>(
                collection::field_views(next@),
            ),
        decreases fields.len() - i,
    {
        let f = &fields[i];
        let ghost before = collection::field_views(next@);
        assert(fv[i as int] == f@);
        match field_spot(current, &f.name) {
            None => {
                next.push(f.copy());
                assert(collection::field_views(next@) =~= before.push(f@));
            },
            Some(k) => {
                assert(cv[k as int] == current@[k as int]@);
                if !current[k].same(f) {
                    proof {
                        more_stays_wrong(cv, fv, field_name(), (i + 1) as nat, fv.len());
                    }
                    return Err(existing_field(&f.name));
                }
            },
        }
        i += 1;
    }
    Ok(())
}

fn add_new_vectors(
    next: &mut Vec<VectorSpec>,
    current: &Vec<VectorSpec>,
    vectors: &Vec<VectorSpec>,
) -> (r: Result<(), ServiceError>)
    requires
        collection::vector_views(old(next)@) == collection::vector_views(current@),
    ensures
        match r {
            Ok(_) => more(
                collection::vector_views(current@),
                collection::vector_views(vectors@),
                vector_name(),
                vectors@.len(),
            ) == Ok::<Seq<VectorSpecV>, Failure>(collection::vector_views(final(next)@)),
            Err(e) => more(
                collection::vector_views(current@),
                collection::vector_views(vectors@),
                vector_name(),
                vectors@.len(),
            ) == Err::<Seq<VectorSpecV>, Failure>(e@),
        },
{
    let ghost cv = collection::vector_views(current@);
    let ghost vv = collection::vector_views(vectors@);
    let mut i: usize = 0;
    while i < vectors.len()
        invariant
            i <= vectors@.len(),
            cv == collection::vector_views(current@),
            vv == collection::vector_views(vectors@),
            more(cv, vv, vector_name(), i as nat) == Ok::<Seq<VectorSpecV>, Failure>(
                collection::vector_views(next@),
            ),
        decreases vectors.len() - i,
    {
        let v = &vectors[i];
        let ghost before = collection::vector_views(next@);
        assert(vv[i as int] == v@);
        match vector_spot(current, &v.name) {
            None => {
                next.push(v.copy());
                assert(collection::vector_views(next@) =~= before.push(v@));
            },
            Some(k) => {
                assert(cv[k as int] == current@[k as int]@);
                if !current[k].same(v) {
                    proof {
                        more_stays_wrong(cv, vv, vector_name(), (i + 1) as nat, vv.len());
                    }
                    return Err(existing_field(&v.name));
                }
            },
        }
        i += 1;
    }
    Ok(())
}

fn put_pairs(pairs: &mut Vec<(String, String)>, more: &Vec<(String, String)>)
    ensures
        collection::pair_views(final(pairs)@) == with_pairs(
            collection::pair_views(old(pairs)@),
            collection::pair_views(more@),
            more@.len(),
        ),
{
    let ghost was = collection::pair_views(pairs@);
    let ghost mv = collection::pair_views(more@);
    let mut i: usize = 0;
    while i < more.len()
        invariant
            i <= more@.len(),
            mv == collection::pair_views(more@),
            collection::pair_views(pairs@) == with_pairs(was, mv, i as nat),
        decreases more.len() - i,
    {
        assert(mv[i as int] == (more@[i as int].0@, more@[i as int].1@));
        put_pair(pairs, &more[i].0, &more[i].1);
        i += 1;
    }
}

/// The schema that an update asks for, none if it changes nothing. A field
/// or vector that exists with the same specification is skipped, so that a
/// retry changes nothing.
pub fn next_schema(
    current: &CollectionSchema,
    fields: &Vec<FieldSpec>,
    vectors: &Vec<VectorSpec>,
    annotations: &Vec<(String, String)>,
) -> (r: Result<Option<CollectionSchema>, ServiceError>)
    ensures
        ({
            let want = updated(
                current@,
                collection::field_views(fields@),
                collection::vector_views(vectors@),
                collection::pair_views(annotations@),
            );
            match r {
                Ok(None) => want == Ok::<SchemaV, Failure>(current@),
                Ok(Some(next)) => want == Ok::<SchemaV, Failure>(next@) && next@ != current@,
                Err(e) => want == Err::<SchemaV, Failure>(e@),
            }
        }),
{
    let mut next = current.copy();
    match add_new_fields(&mut next.fields, &current.fields, fields) {
        Ok(_) => {},
        Err(e) => {
            return Err(e);
        },
    }
    match add_new_vectors(&mut next.vectors, &current.vectors, vectors) {
        Ok(_) => {},
        Err(e) => {
            return Err(e);
        },
    }
    put_pairs(&mut next.annotations, annotations);
    let alike = next.same_ignoring_version(current);
    proof {
        let a = next@;
        let b = current@;
        assert(a.version == b.version);
        assert((SchemaV { version: 0, ..a } == SchemaV { version: 0, ..b }) == (a == b));
    }
    if alike {
        Ok(None)
    } else {
        Ok(Some(next))
    }
}

/// Whether items have different names.
pub open spec fn distinct_names<T>(items: Seq<T>, name: spec_fn(T) -> Seq<char>) -> bool {
    forall|i: int, j: int|
        0 <= i < j < items.len() ==> name(#[trigger] items[i]) != name(#[trigger] items[j])
}

/// What is added stands behind what was there, and is one of the items.
proof fn more_extends<T>(current: Seq<T>, items: Seq<T>, name: spec_fn(T) -> Seq<char>, n: nat)
    requires
        n <= items.len(),
        more(current, items, name, n) is Ok,
    ensures
        current.len() <= more(current, items, name, n)->Ok_0.len(),
        forall|i: int|
            0 <= i < current.len() ==> #[trigger] more(current, items, name, n)->Ok_0[i]
                == current[i],
        forall|i: int|
            current.len() <= i < more(current, items, name, n)->Ok_0.len() ==> from_items(
                items,
                n,
                #[trigger] more(current, items, name, n)->Ok_0[i],
            ),
    decreases n,
{
    if n > 0 {
        more_extends(current, items, name, (n - 1) as nat);
        let so_far = more(current, items, name, (n - 1) as nat)->Ok_0;
        let out = more(current, items, name, n)->Ok_0;
        assert forall|i: int| current.len() <= i < out.len() implies from_items(
            items,
            n,
            #[trigger] out[i],
        ) by {
            if i < so_far.len() {
                assert(from_items(items, (n - 1) as nat, so_far[i]));
                let j = choose|j: int| 0 <= j < n - 1 && #[trigger] items[j] == so_far[i];
                assert(items[j] == out[i]);
            } else {
                assert(items[n - 1] == out[i]);
            }
        }
    }
}

/// Whether an item is one of the first.
pub open spec fn from_items<T>(items: Seq<T>, n: nat, x: T) -> bool {
    exists|j: int| 0 <= j < n && #[trigger] items[j] == x
}

/// Each item is found under its name once it was added.
proof fn more_is_found<T>(
    current: Seq<T>,
    items: Seq<T>,
    name: spec_fn(T) -> Seq<char>,
    n: nat,
    k: int,
)
    requires
        n <= items.len(),
        0 <= k < n,
        distinct_names(items, name),
        more(current, items, name, n) is Ok,
    ensures
        spot(names_of(more(current, items, name, n)->Ok_0, name), name(items[k]), 0) matches Some(i)
            && 0 <= i < more(current, items, name, n)->Ok_0.len() && more(
            current,
            items,
            name,
            n,
        )->Ok_0[i] == items[k],
    decreases n,
{
    let before = (n - 1) as nat;
    let so_far = more(current, items, name, before)->Ok_0;
    let out = more(current, items, name, n)->Ok_0;
    let names = names_of(out, name);
    let key = name(items[k]);
    spot_is(names, key, 0);
    more_extends(current, items, name, before);
    let cn = names_of(current, name);
    if k < before {
        more_is_found(current, items, name, before, k);
        let sn = names_of(so_far, name);
        spot_is(sn, key, 0);
        let i = spot(sn, key, 0)->Some_0;
        assert(out[i] == so_far[i]);
        assert(names[i] == key);
        let r = spot(names, key, 0)->Some_0;
        if r < i {
            assert(names[r] == sn[r]);
        }
        assert(r == i);
    } else {
        spot_is(cn, key, 0);
        match spot(cn, key, 0) {
            Some(i) => {
                assert(out[i] == current[i]);
                assert(names[i] == key);
                let r = spot(names, key, 0)->Some_0;
                if r < i {
                    assert(out[r] == current[r]);
                    assert(names[r] == cn[r]);
                }
                assert(r == i);
            },
            None => {
                let i = so_far.len() as int;
                assert(out[i] == items[k]);
                assert(names[i] == key);
                let r = spot(names, key, 0)->Some_0;
                if r < i {
                    assert(out[r] == so_far[r]);
                    if r < current.len() {
                        assert(cn[r] == key);
                    } else {
                        assert(from_items(items, before, so_far[r]));
                        let j = choose|j: int| 0 <= j < before && #[trigger] items[j] == so_far[r];
                        assert(name(items[j]) != name(items[k]));
                    }
                }
                assert(r == i);
            },
        }
    }
}

proof fn more_again<T>(
    current: Seq<T>,
    items: Seq<T>,
    name: spec_fn(T) -> Seq<char>,
    m: nat,
)
    requires
        m <= items.len(),
        distinct_names(items, name),
        more(current, items, name, items.len()) is Ok,
    ensures
        more(more(current, items, name, items.len())->Ok_0, items, name, m) == Ok::<
            Seq<T>,
            Failure,
        >(more(current, items, name, items.len())->Ok_0),
    decreases m,
{
    if m > 0 {
        more_again(current, items, name, (m - 1) as nat);
        more_is_found(current, items, name, items.len(), m - 1);
    }
}

/// Putting a pair keeps the order, has the pair, and keeps the pairs of
/// other names.
pub proof fn pair_is_put(
    pairs: Seq<(Seq<char>, Seq<char>)>,
    pair: (Seq<char>, Seq<char>),
    j: int,
)
    requires
        in_order(pairs),
        0 <= j <= pairs.len(),
        forall|i: int| 0 <= i < j ==> text::before((#[trigger] pairs[i]).0, pair.0),
    ensures
        in_order(with_pair(pairs, pair, j)),
        with_pair(pairs, pair, j).contains(pair),
        forall|p: (Seq<char>, Seq<char>)|
            p.0 != pair.0 && pairs.contains(p) ==> with_pair(pairs, pair, j).contains(p),
    decreases pairs.len() - j,
{
    let out = with_pair(pairs, pair, j);
    if j >= pairs.len() {
        assert(out[pairs.len() as int] == pair);
        assert forall|p: (Seq<char>, Seq<char>)|
            p.0 != pair.0 && pairs.contains(p) implies out.contains(p) by {
            let i = choose|i: int| 0 <= i < pairs.len() && pairs[i] == p;
            assert(out[i] == p);
        }
    } else if pairs[j].0 == pair.0 {
        assert(out[j] == pair);
        assert forall|p: (Seq<char>, Seq<char>)|
            p.0 != pair.0 && pairs.contains(p) implies out.contains(p) by {
            let i = choose|i: int| 0 <= i < pairs.len() && pairs[i] == p;
            assert(out[i] == p);
        }
    } else if text::before(pair.0, pairs[j].0) {
        assert(out[j] == pair);
        assert forall|a: int, b: int| 0 <= a < b < out.len() implies text::before(
            (#[trigger] out[a]).0,
            (#[trigger] out[b]).0,
        ) by {
            if b == j {
            } else if a == j {
                if b - 1 > j {
                    text::before_is_transitive(pair.0, pairs[j].0, pairs[b - 1].0);
                }
            } else if b < j {
                assert(out[a] == pairs[a] && out[b] == pairs[b]);
            } else if a > j {
                assert(out[a] == pairs[a - 1] && out[b] == pairs[b - 1]);
            } else {
                assert(out[a] == pairs[a] && out[b] == pairs[b - 1]);
            }
        }
        assert forall|p: (Seq<char>, Seq<char>)|
            p.0 != pair.0 && pairs.contains(p) implies out.contains(p) by {
            let i = choose|i: int| 0 <= i < pairs.len() && pairs[i] == p;
            if i < j {
                assert(out[i] == p);
            } else {
                assert(out[i + 1] == p);
            }
        }
    } else {
        text::before_is_total(pair.0, pairs[j].0);
        pair_is_put(pairs, pair, j + 1);
    }
}

/// Putting a pair that is there changes nothing.
proof fn pair_stays(pairs: Seq<(Seq<char>, Seq<char>)>, i: int, j: int)
    requires
        in_order(pairs),
        0 <= j <= i < pairs.len(),
    ensures
        with_pair(pairs, pairs[i], j) == pairs,
    decreases i - j,
{
    if j < i {
        text::before_is_strict(pairs[i].0);
        if text::before(pairs[i].0, pairs[j].0) {
            text::before_is_transitive(pairs[i].0, pairs[j].0, pairs[i].0);
        }
        pair_stays(pairs, i, j + 1);
    } else {
        assert(pairs.update(i, pairs[i]) =~= pairs);
    }
}

proof fn pairs_are_put(
    pairs: Seq<(Seq<char>, Seq<char>)>,
    more: Seq<(Seq<char>, Seq<char>)>,
    n: nat,
    k: int,
)
    requires
        n <= more.len(),
        in_order(pairs),
        in_order(more),
    ensures
        in_order(with_pairs(pairs, more, n)),
        0 <= k < n ==> with_pairs(pairs, more, n).contains(more[k]),
    decreases n,
{
    if n > 0 {
        pairs_are_put(pairs, more, (n - 1) as nat, k);
        pair_is_put(with_pairs(pairs, more, (n - 1) as nat), more[n - 1], 0);
        if 0 <= k < n - 1 {
            text::before_is_strict(more[k].0);
            assert(more[k].0 != more[n - 1].0);
        }
    }
}

proof fn pairs_again(
    pairs: Seq<(Seq<char>, Seq<char>)>,
    more: Seq<(Seq<char>, Seq<char>)>,
    m: nat,
)
    requires
        m <= more.len(),
        in_order(pairs),
        in_order(more),
    ensures
        with_pairs(with_pairs(pairs, more, more.len()), more, m) == with_pairs(
            pairs,
            more,
            more.len(),
        ),
    decreases m,
{
    if m > 0 {
        let done = with_pairs(pairs, more, more.len());
        pairs_again(pairs, more, (m - 1) as nat);
        pairs_are_put(pairs, more, more.len(), m - 1);
        let i = choose|i: int| 0 <= i < done.len() && done[i] == more[m - 1];
        pair_stays(done, i, 0);
    }
}

/// A retried update changes nothing: what an update asks for, asked for
/// again, is there.
pub proof fn a_retry_changes_nothing(
    current: SchemaV,
    fields: Seq<FieldSpecV>,
    vectors: Seq<VectorSpecV>,
    annotations: Seq<(Seq<char>, Seq<char>)>,
)
    requires
        updated(current, fields, vectors, annotations) is Ok,
        distinct_names(fields, field_name()),
        distinct_names(vectors, vector_name()),
        in_order(current.annotations),
        in_order(annotations),
    ensures
        updated(
            updated(current, fields, vectors, annotations)->Ok_0,
            fields,
            vectors,
            annotations,
        ) == updated(current, fields, vectors, annotations),
{
    more_again(current.fields, fields, field_name(), fields.len());
    more_again(current.vectors, vectors, vector_name(), vectors.len());
    pairs_again(current.annotations, annotations, annotations.len());
}

/// An update keeps every field and vector that the schema has, in its place.
pub proof fn an_update_keeps_what_is_there(
    current: SchemaV,
    fields: Seq<FieldSpecV>,
    vectors: Seq<VectorSpecV>,
    annotations: Seq<(Seq<char>, Seq<char>)>,
)
    requires
        updated(current, fields, vectors, annotations) is Ok,
    ensures
        ({
            let next = updated(current, fields, vectors, annotations)->Ok_0;
            &&& next.fields.len() >= current.fields.len()
            &&& next.fields.take(current.fields.len() as int) == current.fields
            &&& next.vectors.len() >= current.vectors.len()
            &&& next.vectors.take(current.vectors.len() as int) == current.vectors
            &&& next.sparse_vectors == current.sparse_vectors
        }),
{
    let next = updated(current, fields, vectors, annotations)->Ok_0;
    more_extends(current.fields, fields, field_name(), fields.len());
    more_extends(current.vectors, vectors, vector_name(), vectors.len());
    assert(next.fields.take(current.fields.len() as int) =~= current.fields);
    assert(next.vectors.take(current.vectors.len() as int) =~= current.vectors);
}

/// Refuses an update that is not additive, of what the check says.
pub fn check_additive(refusal: Option<String>) -> (r: Result<(), ServiceError>)
    ensures
        match refusal {
            None => r is Ok,
            Some(m) => r matches Err(e) && e@ == Failure::InvalidArgument(m@),
        },
{
    match refusal {
        None => Ok(()),
        Some(m) => Err(ServiceError::InvalidArgument(m)),
    }
}

/// How an attempt at an update of a schema ended.
#[derive(Debug)]
pub enum Attempt {
    /// The update changes nothing.
    Unchanged(CollectionSchema),
    Written(CollectionSchema),
    /// Another update came first, or there was no attempt yet.
    Lost,
}

/// How an attempt ended whose write of `next` was answered.
pub fn on_updated(written: Result<u64, MetaError>, next: CollectionSchema, name: &str) -> (r: Result<
    Attempt,
    ServiceError,
>)
    ensures
        match written {
            Ok(version) => r matches Ok(Attempt::Written(s)) && s@ == (SchemaV {
                version,
                ..next@
            }),
            Err(e) => match e.rejection {
                Rejection::SchemaVersionMismatch => r matches Ok(Attempt::Lost),
                Rejection::CollectionNotFound => r matches Err(err) && err@ == read::no_collection(
                    name@,
                ),
                _ => r matches Err(err) && err == e.error,
            },
        },
{
    match written {
        Ok(version) => {
            let mut s = next;
            s.version = version;
            Ok(Attempt::Written(s))
        },
        Err(e) => match e.rejection {
            Rejection::SchemaVersionMismatch => Ok(Attempt::Lost),
            Rejection::CollectionNotFound => Err(read::collection_not_found(name)),
            _ => Err(e.error),
        },
    }
}

/// What an update of a schema does next.
#[derive(Debug)]
pub enum UpdateStep {
    Try,
    /// The schema is the answer; `changed` when a write made it.
    Done { schema: CollectionSchema, changed: bool },
}

/// What follows the attempts at an update, `tries` of them, of which the
/// last ended in `attempt`: the answer, another attempt, or unavailable when
/// `retries` attempts were lost.
pub fn after_attempt(tries: u32, retries: u32, attempt: Attempt) -> (r: Result<
    UpdateStep,
    ServiceError,
>)
    ensures
        match attempt {
            Attempt::Unchanged(s) => r == Ok::<UpdateStep, ServiceError>(
                UpdateStep::Done { schema: s, changed: false },
            ),
            Attempt::Written(s) => r == Ok::<UpdateStep, ServiceError>(
                UpdateStep::Done { schema: s, changed: true },
            ),
            Attempt::Lost => if tries < retries {
                r == Ok::<UpdateStep, ServiceError>(UpdateStep::Try)
            } else {
                r matches Err(e) && e@ == Failure::Unavailable(raced(retries))
            },
        },
{
    match attempt {
        Attempt::Unchanged(schema) => Ok(UpdateStep::Done { schema, changed: false }),
        Attempt::Written(schema) => Ok(UpdateStep::Done { schema, changed: true }),
        Attempt::Lost => {
            if tries < retries {
                Ok(UpdateStep::Try)
            } else {
                let shown = text::dec(retries as u64);
                Err(
                    ServiceError::Unavailable(
                        text::cat3("schema update raced ", &shown, " times"),
                    ),
                )
            }
        },
    }
}

/// The message of an update that lost every attempt.
pub open spec fn raced(retries: u32) -> Seq<char> {
    "schema update raced "@ + text::decimal(retries as nat) + " times"@
}

/// The first collection that a change of aliases names, from the `j`-th on.
pub open spec fn first_named(actions: Seq<AliasActionV>, j: int) -> Option<Seq<char>>
    decreases actions.len() - j,
{
    if j < 0 || j >= actions.len() {
        None
    } else {
        match actions[j] {
            AliasActionV::Create { collection, .. } => Some(collection),
            AliasActionV::Delete { .. } => first_named(actions, j + 1),
        }
    }
}

/// What a change of the aliases of an absent namespace is answered with: it
/// holds no collection that an alias could name.
pub fn without_namespace(actions: &Vec<AliasAction>) -> (r: Result<(), ServiceError>)
    ensures
        match first_named(alias::action_views(actions@), 0) {
            Some(name) => r matches Err(e) && e@ == read::no_collection(name),
            None => r is Ok,
        },
{
    let ghost av = alias::action_views(actions@);
    let mut j: usize = 0;
    while j < actions.len()
        invariant
            j <= actions@.len(),
            av == alias::action_views(actions@),
            first_named(av, 0) == first_named(av, j as int),
        decreases actions.len() - j,
    {
        assert(av[j as int] == actions@[j as int]@);
        match &actions[j] {
            AliasAction::Create { collection, .. } => {
                return Err(read::collection_not_found(collection));
            },
            AliasAction::Delete { .. } => {},
        }
        j += 1;
    }
    Ok(())
}

/// What a change of aliases is answered with.
pub fn on_aliases(changed: Result<(), MetaError>, actions: &Vec<AliasAction>) -> (r: Result<
    (),
    ServiceError,
>)
    ensures
        match changed {
            Ok(_) => r is Ok,
            Err(e) => match e.rejection {
                Rejection::NameTaken(name) => r matches Err(err) && err@ == Failure::AlreadyExists(
                    name@,
                ),
                Rejection::UnknownCollection(name) => r matches Err(err) && err@
                    == read::no_collection(name@),
                Rejection::NamespaceNotFound => match first_named(
                    alias::action_views(actions@),
                    0,
                ) {
                    Some(name) => r matches Err(err) && err@ == read::no_collection(name),
                    None => r is Ok,
                },
                _ => r matches Err(err) && err == e.error,
            },
        },
{
    match changed {
        Ok(_) => Ok(()),
        Err(e) => match e.rejection {
            Rejection::NameTaken(name) => Err(ServiceError::AlreadyExists(name)),
            Rejection::UnknownCollection(name) => Err(read::collection_not_found(&name)),
            Rejection::NamespaceNotFound => without_namespace(actions),
            _ => Err(e.error),
        },
    }
}

/// What a retained manifest is.
#[derive(Clone, Copy, Debug, PartialEq, Eq, Structural)]
pub struct ManifestInfo {
    pub version: u64,
    pub created_at_ms: u64,
    pub size_bytes: u64,
    pub live_doc_count: u64,
    pub lance_version: u64,
}

/// Whether an info is of a manifest.
pub open spec fn info_is(info: ManifestInfo, m: CollectionManifest) -> bool {
    &&& info.version == m.version
    &&& info.created_at_ms == m.created_at_ms
    &&& info.size_bytes == size_sum(m.split_sizes@, m.split_sizes@.len())
    &&& info.live_doc_count == m.live_doc_count
    &&& info.lance_version == m.lance_version
}

/// The retained manifests of a chain that is newest first, oldest first.
pub fn versions(chain: &Vec<CollectionManifest>) -> (r: Vec<ManifestInfo>)
    requires
        forall|i: int|
            0 <= i < chain@.len() ==> size_sum(
                (#[trigger] chain@[i]).split_sizes@,
                chain@[i].split_sizes@.len(),
            ) <= u64::MAX,
    ensures
        r@.len() == chain@.len(),
        forall|i: int|
            0 <= i < r@.len() ==> info_is(#[trigger] r@[i], chain@[chain@.len() - 1 - i]),
{
    let mut out: Vec<ManifestInfo> = Vec::new();
    let mut i: usize = chain.len();
    while i > 0
        invariant
            i <= chain@.len(),
            out@.len() == chain@.len() - i,
            forall|k: int|
                0 <= k < chain@.len() ==> size_sum(
                    (#[trigger] chain@[k]).split_sizes@,
                    chain@[k].split_sizes@.len(),
                ) <= u64::MAX,
            forall|k: int|
                0 <= k < out@.len() ==> info_is(#[trigger] out@[k], chain@[chain@.len() - 1 - k]),
        decreases i,
    {
        i -= 1;
        let m = &chain[i];
        assert(chain@[i as int] == *m);
        out.push(
            ManifestInfo {
                version: m.version,
                created_at_ms: m.created_at_ms,
                size_bytes: sum_sizes(&m.split_sizes),
                live_doc_count: m.live_doc_count,
                lance_version: m.lance_version,
            },
        );
    }
    out
}

/// A pin of a collection.
#[derive(Debug)]
pub struct PinnedRead {
    pub collection: u64,
    pub name: String,
    pub manifest_version: u64,
    pub token: ConsistencyToken,
}

/// The pin of a collection's current manifest and high watermarks.
pub fn pin(collection: &Collection, head: &CollectionHead) -> (r: PinnedRead)
    ensures
        r.collection == collection.id,
        r.name@ == collection.name@,
        r.manifest_version == (match head.pointer {
            Some(p) => p.version,
            None => 0,
        }),
        r.token@ == read::token_on(
            head.collection.stream,
            head.collection.partitions,
            read::watermarks(head.collection.partitions, head.high_watermarks@),
        ),
{
    let (manifest_version, token) = read::pin(head);
    PinnedRead {
        collection: collection.id,
        name: collection.name.clone(),
        manifest_version,
        token,
    }
}

} // verus!
