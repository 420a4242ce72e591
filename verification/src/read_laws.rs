//! What a read sees: at least what it asked for, and nothing twice.

use crate::ir::ConsistencyV;
use crate::read;
use crate::read::{CollectionV, StepV};
use vstd::prelude::*;

verus! {

/// Whether some offsets name each partition of a count, and no other.
pub open spec fn spans(offsets: Map<u32, u64>, partitions: u32) -> bool {
    forall|p: u32| #[trigger] offsets.contains_key(p) <==> p < partitions
}

/// Whether a token has an entry with an offset for a partition.
pub open spec fn has_entry(token: Seq<(u64, u32, u64)>, p: u32, offset: u64) -> bool {
    exists|i: int|
        0 <= i < token.len() && (#[trigger] token[i]).1 == p && token[i].2 == offset
}

/// Whether a token has an entry for a partition.
pub open spec fn is_named(token: Seq<(u64, u32, u64)>, p: u32) -> bool {
    exists|o: u64| #[trigger] has_entry(token, p, o)
}

proof fn highest_are_entries(token: Seq<(u64, u32, u64)>, n: nat, p: u32)
    requires
        n <= token.len(),
    ensures
        ({
            let all = read::highest(token, n);
            &&& all.contains_key(p) ==> has_entry(token, p, all[p])
            &&& forall|i: int|
                0 <= i < n && (#[trigger] token[i]).1 == p ==> all.contains_key(p) && all[p]
                    >= token[i].2
        }),
    decreases n,
{
    if n > 0 {
        highest_are_entries(token, (n - 1) as nat, p);
        assert(token[n - 1].1 == p ==> has_entry(token, p, token[n - 1].2));
    }
}

proof fn highest_are_named(token: Seq<(u64, u32, u64)>, n: nat, p: u32)
    requires
        n <= token.len(),
        read::highest(token, n).contains_key(p),
    ensures
        read::names(token, n, p),
    decreases n,
{
    if n > 0 {
        if token[n - 1].1 != p {
            highest_are_named(token, (n - 1) as nat, p);
            let i = choose|i: int|
                0 <= i < n - 1 && i < token.len() && (#[trigger] token[i]).1 == p;
            assert(token[i].1 == p);
        } else {
            assert(token[n - 1].1 == p);
        }
    }
}

/// A read of another namespace's collection is refused. Else a strong read
/// begins at the head and an eventual one with what there is. One that asks
/// for offsets waits for just these, of each partition. One at a pin reads
/// the version that it names, up to the highest offset that the token has of
/// each partition, and only a token that names just the collection's
/// partitions is a pin.
pub proof fn reads_wait_for_what_is_asked(
    ns: u64,
    c: CollectionV,
    consistency: ConsistencyV,
    offsets: Seq<Option<u64>>,
)
    ensures
        match read::first_step(ns, c, consistency, offsets) {
            Err(e) => c.namespace != ns || (consistency matches ConsistencyV::Pinned {
                manifest_version,
                token,
            } && !((forall|i: int|
                0 <= i < token.len() ==> (#[trigger] token[i]).0 == c.stream && token[i].1
                    < c.partitions) && (forall|p: u32|
                p < c.partitions ==> #[trigger] is_named(token, p)))),
            Ok(step) => c.namespace == ns && match consistency {
                ConsistencyV::Strong => step is Head,
                ConsistencyV::Eventual => step is Current,
                ConsistencyV::AtLeast(_) => step matches StepV::Sync { targets } && spans(
                    targets,
                    c.partitions,
                ) && forall|p: u32|
                    p < c.partitions ==> #[trigger] targets[p] == if p < offsets.len()
                        && offsets[p as int] is Some {
                        offsets[p as int]->0
                    } else {
                        0
                    },
                ConsistencyV::Pinned { manifest_version, token } => step matches StepV::Pin {
                    version,
                    upper,
                } && version == manifest_version && spans(upper, c.partitions) && (forall|i: int|
                    0 <= i < token.len() ==> (#[trigger] token[i]).0 == c.stream
                        && upper.contains_key(token[i].1) && upper[token[i].1] >= token[i].2) && (
                forall|p: u32|
                    p < c.partitions ==> #[trigger] has_entry(token, p, upper[p])),
            },
        },
{
    if let ConsistencyV::Pinned { manifest_version, token } = consistency {
        let upper = read::highest(token, token.len());
        if read::pins(token, c.stream, c.partitions) {
            assert forall|p: u32| #[trigger] upper.contains_key(p) <==> p < c.partitions by {
                highest_are_entries(token, token.len(), p);
                if upper.contains_key(p) {
                    highest_are_named(token, token.len(), p);
                    let i = choose|i: int|
                        0 <= i < token.len() && (#[trigger] token[i]).1 == p;
                    assert(read::names_partition(token[i], c.stream, c.partitions));
                }
                if p < c.partitions {
                    assert(read::names(token, token.len(), p));
                    let i = choose|i: int|
                        0 <= i < token.len() && i < token.len() && (#[trigger] token[i]).1 == p;
                    assert(token[i].1 == p);
                }
            }
            assert forall|i: int| 0 <= i < token.len() implies (#[trigger] token[i]).0 == c.stream
                && upper.contains_key(token[i].1) && upper[token[i].1] >= token[i].2 by {
                highest_are_entries(token, token.len(), token[i].1);
                assert(read::names_partition(token[i], c.stream, c.partitions));
            }
            assert forall|p: u32| p < c.partitions implies #[trigger] has_entry(
                token,
                p,
                upper[p],
            ) by {
                highest_are_entries(token, token.len(), p);
                assert(upper.contains_key(p));
            }
        } else if (forall|i: int|
            0 <= i < token.len() ==> (#[trigger] token[i]).0 == c.stream && token[i].1
                < c.partitions) && (forall|p: u32|
            p < c.partitions ==> #[trigger] is_named(token, p)) {
            assert forall|p: u32| p < c.partitions implies #[trigger] read::names(
                token,
                token.len(),
                p,
            ) by {
                assert(is_named(token, p));
                let o = choose|o: u64| #[trigger] has_entry(token, p, o);
                let i = choose|i: int|
                    0 <= i < token.len() && (#[trigger] token[i]).1 == p && token[i].2 == o;
                assert(token[i].1 == p);
            }
        }
    }
}

/// A strong read waits for the high watermark of each partition.
pub proof fn strong_reads_wait_for_all(partitions: u32, hwm: Seq<u64>, p: u32)
    requires
        p < partitions,
        p < hwm.len(),
    ensures
        spans(read::watermarks(partitions, hwm), partitions),
        read::watermarks(partitions, hwm)[p] == hwm[p as int],
{
}

/// The higher offsets of two are the least that cover both.
pub proof fn higher_offsets_cover_both(
    partitions: u32,
    a: Map<u32, u64>,
    b: Map<u32, u64>,
    p: u32,
    other: u64,
)
    requires
        p < partitions,
    ensures
        spans(read::higher(partitions, a, b), partitions),
        read::higher(partitions, a, b)[p] <= other <==> read::at(a, p) <= other && read::at(b, p)
            <= other,
{
}

/// Nothing lags just where everything is applied; a record more of a
/// partition that is applied no further is one more that lags.
pub proof fn lags_count_what_is_not_applied(
    n: nat,
    targets: Map<u32, u64>,
    applied: Map<u32, u64>,
    p: u32,
)
    requires
        n <= u32::MAX,
    ensures
        read::lag(n, targets, applied) == 0 <==> forall|q: u32|
            q < n ==> #[trigger] read::at(targets, q) <= read::at(applied, q),
        p < n && read::at(applied, p) <= read::at(targets, p) < u64::MAX ==> read::lag(
            n,
            targets.insert(p, (read::at(targets, p) + 1) as u64),
            applied,
        ) == read::lag(n, targets, applied) + 1,
        p >= n ==> read::lag(
            n,
            targets.insert(p, (read::at(targets, p) + 1) as u64),
            applied,
        ) == read::lag(n, targets, applied),
    decreases n,
{
    if n > 0 {
        let m = (n - 1) as nat;
        let last = m as u32;
        lags_count_what_is_not_applied(m, targets, applied, p);
        if read::lag(n, targets, applied) == 0 {
            assert forall|q: u32| q < n implies #[trigger] read::at(targets, q) <= read::at(
                applied,
                q,
            ) by {
                if q < m {
                } else {
                    assert(q == last);
                }
            }
        }
        if forall|q: u32| q < n ==> #[trigger] read::at(targets, q) <= read::at(applied, q) {
            assert(read::at(targets, last) <= read::at(applied, last));
        }
        let more = targets.insert(p, (read::at(targets, p) + 1) as u64);
        assert(last != p ==> read::at(more, last) == read::at(targets, last));
        assert(read::at(more, p) == (read::at(targets, p) + 1) as u64);
    }
}

/// The rows of a view are the live rows that the tail does not supersede,
/// and the tail's.
pub proof fn views_count_no_row_twice(live: Set<u64>, shadow: Set<u64>, tail: u64)
    requires
        live.finite(),
        live.len() <= u64::MAX,
        shadow.subset_of(live),
    ensures
        read::rows_of(live.len() as u64, shadow.len(), tail) == live.difference(shadow).len()
            + tail,
{
    let kept = live.difference(shadow);
    vstd::set_lib::lemma_len_subset(shadow, live);
    vstd::set_lib::lemma_set_disjoint_lens(kept, shadow);
    assert(kept + shadow =~= live);
}

} // verus!
