//! What the plan of a scan says: how long its manifest stays, what it does
//! not hold yet, and which vector a column is of.

use crate::exec::doc_fetch::SystemColumns;
use crate::read;
use crate::read::{CollectionManifest, CollectionV};
use crate::read_laws;
use crate::scan;
use crate::scan::{ColumnRole, Point, ScanPlan};
use vstd::prelude::*;
use vstd::string::*;

verus! {

/// A manifest stays for the retention after it was superseded: the newest no
/// shorter than from now on, an older one from when the next one was
/// created; only the largest time cuts this short.
pub proof fn manifests_stay_for_the_retention(
    chain: Seq<CollectionManifest>,
    i: int,
    clock_ms: u64,
    retention_ms: u64,
)
    requires
        0 <= i < chain.len(),
    ensures
        ({
            let superseded = if i == 0 {
                clock_ms
            } else {
                chain[i - 1].created_at_ms
            };
            let end = scan::chain_deadline(chain, i, clock_ms, retention_ms);
            end - superseded == retention_ms || (end == u64::MAX && superseded + retention_ms
                > u64::MAX)
        }),
{
}

/// The live manifest stays for the retention from now on, and the one before
/// the first commit for ever.
pub proof fn live_manifests_stay(version: u64, clock_ms: u64, retention_ms: u64)
    ensures
        match scan::live_deadline(version, clock_ms, retention_ms) {
            None => version == 0,
            Some(end) => version > 0 && (end - clock_ms == retention_ms || (end == u64::MAX
                && clock_ms + retention_ms > u64::MAX)),
        },
{
}

/// A plan has a tail just where a partition's requested offset is above the
/// applied one, and names both offsets of each partition, in order.
pub proof fn plans_tell_what_is_not_held(
    plan: ScanPlan,
    c: CollectionV,
    manifest: CollectionManifest,
    point: Point,
    p: u32,
)
    requires
        scan::plans(plan, c, manifest, point),
        p < c.partitions,
    ensures
        plan.tail <==> exists|q: u32|
            q < c.partitions && #[trigger] read::at(point.targets@, q) > read::at(
                manifest.applied@,
                q,
            ),
        plan.offsets@.len() == c.partitions,
        plan.offsets@[p as int].partition == p,
        plan.offsets@[p as int].applied == read::at(manifest.applied@, p),
        plan.offsets@[p as int].target == read::at(point.targets@, p),
        plan.live_rows == manifest.live_doc_count,
        plan.pin.manifest_version == manifest.version,
        plan.durable_token@[p as int] == (c.stream, p, read::at(manifest.applied@, p)),
        plan.pin.token@[p as int] == (c.stream, p, read::at(point.targets@, p)),
{
    read_laws::lags_count_what_is_not_applied(
        c.partitions as nat,
        point.targets@,
        manifest.applied@,
        p,
    );
}

/// A column of a scan has its own name and type. One of a vector carries the
/// name, the dimension and the distance of the schema's vector at the number
/// in the column's name, one of a sparse vector the name of its own; a
/// number that the schema does not have is refused.
pub proof fn columns_are_of_their_vectors(
    c: CollectionV,
    names: SystemColumns,
    name: Seq<char>,
    data_type: Seq<char>,
)
    ensures
        match scan::column_in(c, names, name, data_type) {
            Ok(column) => column.name == name && column.data_type == data_type && match column.role {
                ColumnRole::Pk => name == names.pk@,
                ColumnRole::Source => name == names.source@,
                ColumnRole::IngestPartition => name == names.partition@,
                ColumnRole::IngestOffset => name == names.offset@,
                ColumnRole::Vector => exists|i: nat|
                    scan::index_in(name, "_vector_"@) == Some(i) && i < c.schema.vectors.len()
                        && column.vector == Some((#[trigger] c.schema.vectors[i as int]).name)
                        && column.dim == Some(c.schema.vectors[i as int].dim),
                ColumnRole::SparseVector => column.dim is None && exists|i: nat|
                    scan::index_in(name, "_sparse_"@) == Some(i) && i
                        < c.schema.sparse_vectors.len() && column.vector == Some(
                        (#[trigger] c.schema.sparse_vectors[i as int]).name,
                    ),
            },
            Err(_) => (scan::index_in(name, "_vector_"@) matches Some(i) ==> i
                >= c.schema.vectors.len()) && (scan::index_in(name, "_vector_"@) is None ==> (
            scan::index_in(name, "_sparse_"@) matches Some(i) ==> i
                >= c.schema.sparse_vectors.len())),
        },
{
    if let Ok(column) = scan::column_in(c, names, name, data_type) {
        if column.role is Vector {
            let i = scan::index_in(name, "_vector_"@)->0;
            assert(column.vector == Some(c.schema.vectors[i as int].name));
        }
        if column.role is SparseVector {
            let i = scan::index_in(name, "_sparse_"@)->0;
            assert(column.vector == Some(c.schema.sparse_vectors[i as int].name));
        }
    }
}

} // verus!
