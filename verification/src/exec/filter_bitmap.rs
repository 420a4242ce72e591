//! A filter as the set of the view's rows that match it.

use crate::error::{Failure, ServiceError};
use crate::exec::mask;
use crate::query::Query;
use crate::text;
use roaring::{RoaringBitmap, RoaringTreemap};
use vstd::prelude::*;
use vstd::string::*;

verus! {

/// Row ids of an output batch.
pub const BATCH_ROWS: usize = 8_192;

/// Whether a filter has no clause, so that it matches every row.
pub open spec fn is_match_all(q: Query) -> bool {
    match q {
        Query::MatchAll => true,
        Query::Bool { must, should, must_not, filter, .. } => must@.len() == 0 && should@.len()
            == 0 && must_not@.len() == 0 && filter@.len() == 0,
        _ => false,
    }
}

/// Whether a filter has no clause.
pub fn matches_all(filter: &Query) -> (r: bool)
    ensures
        r == is_match_all(*filter),
{
    match filter {
        Query::MatchAll => true,
        Query::Bool { must, should, must_not, filter, .. } => must.len() == 0 && should.len() == 0
            && must_not.len() == 0 && filter.len() == 0,
        _ => false,
    }
}

/// The rows of the documents that are not masked.
pub open spec fn unmasked_rows(docs: Seq<(u32, Option<u64>)>, masked: Set<u32>) -> Set<u64>
    decreases docs.len(),
{
    if docs.len() == 0 {
        Set::empty()
    } else {
        let before = unmasked_rows(docs.drop_last(), masked);
        if !masked.contains(docs.last().0) && docs.last().1 is Some {
            before.insert(docs.last().1->0)
        } else {
            before
        }
    }
}

/// The message for a document without a row.
pub open spec fn no_row(doc: u32) -> Seq<char> {
    "doc "@ + text::decimal(doc as nat) + " has no _rowid"@
}

/// Whether a document is the last unmasked one without a row.
pub open spec fn last_without_row(docs: Seq<(u32, Option<u64>)>, masked: Set<u32>, i: int) -> bool {
    &&& 0 <= i < docs.len()
    &&& !masked.contains(docs[i].0)
    &&& docs[i].1 is None
    &&& forall|j: int|
        i < j < docs.len() ==> masked.contains((#[trigger] docs[j]).0) || docs[j].1 is Some
}

/// Adds the rows of one segment's unmasked matches; internal when one of
/// them has no row.
pub fn add_rows(
    rows: &mut RoaringTreemap,
    docs: &Vec<(u32, Option<u64>)>,
    masked: &RoaringBitmap,
) -> (r: Result<(), ServiceError>)
    ensures
        mask::treemap_rows(*final(rows)) == mask::treemap_rows(*old(rows)).union(
            unmasked_rows(docs@, mask::bitmap_docs(*masked)),
        ),
        match r {
            Ok(_) => forall|i: int|
                0 <= i < docs@.len() ==> mask::bitmap_docs(*masked).contains(
                    (#[trigger] docs@[i]).0,
                ) || docs@[i].1 is Some,
            Err(e) => exists|i: int|
                last_without_row(docs@, mask::bitmap_docs(*masked), i) && e@ == Failure::Internal(
                    no_row((#[trigger] docs@[i]).0),
                ),
        },
{
    let ghost m = mask::bitmap_docs(*masked);
    let ghost start = mask::treemap_rows(*rows);
    let mut failed: Option<u32> = None;
    let mut at: Ghost<int> = Ghost(0);
    let mut i: usize = 0;
    proof {
        assert(start.union(unmasked_rows(docs@.take(0), m)) =~= start);
    }
    while i < docs.len()
        invariant
            i <= docs@.len(),
            m == mask::bitmap_docs(*masked),
            mask::treemap_rows(*rows) == start.union(unmasked_rows(docs@.take(i as int), m)),
            match failed {
                Some(doc) => {
                    &&& 0 <= at@ < i
                    &&& docs@[at@] == (doc, None::<u64>)
                    &&& !m.contains(doc)
                    &&& forall|j: int|
                        at@ < j < i ==> m.contains((#[trigger] docs@[j]).0) || docs@[j].1 is Some
                },
                None => forall|j: int|
                    0 <= j < i ==> m.contains((#[trigger] docs@[j]).0) || docs@[j].1 is Some,
            },
        decreases docs.len() - i,
    {
        let ghost before = unmasked_rows(docs@.take(i as int), m);
        proof {
            assert(docs@.take(i as int + 1).drop_last() =~= docs@.take(i as int));
        }
        let doc: u32 = docs[i].0;
        if !mask::has_doc(masked, doc) {
            match docs[i].1 {
                Some(row) => {
                    mask::add_row(rows, row);
                    proof {
                        assert(start.union(before).insert(row) =~= start.union(
                            before.insert(row),
                        ));
                    }
                },
                None => {
                    failed = Some(doc);
                    at = Ghost(i as int);
                },
            }
        }
        i += 1;
    }
    proof {
        assert(docs@.take(docs@.len() as int) =~= docs@);
    }
    match failed {
        Some(doc) => {
            let n = text::dec(doc as u64);
            proof {
                assert(last_without_row(docs@, m, at@));
                let w = docs@[at@];
            }
            Err(ServiceError::Internal(text::cat3("doc ", n.as_str(), " has no _rowid")))
        },
        None => Ok(()),
    }
}

/// The rows of the parts that were found.
pub open spec fn joined_rows(parts: Seq<Result<RoaringTreemap, ServiceError>>) -> Set<u64>
    decreases parts.len(),
{
    if parts.len() == 0 {
        Set::empty()
    } else {
        let before = joined_rows(parts.drop_last());
        match parts.last() {
            Ok(t) => before.union(mask::treemap_rows(t)),
            Err(_) => before,
        }
    }
}

proof fn joined_grows(parts: Seq<Result<RoaringTreemap, ServiceError>>, n: int)
    requires
        0 <= n <= parts.len(),
    ensures
        joined_rows(parts.take(n)).subset_of(joined_rows(parts)),
        n < parts.len() && parts[n] is Ok ==> mask::treemap_rows(parts[n]->Ok_0).subset_of(
            joined_rows(parts),
        ),
    decreases parts.len(),
{
    if n < parts.len() {
        let rest = parts.drop_last();
        joined_grows(rest, n);
        assert(rest.take(n) =~= parts.take(n));
    } else {
        assert(parts.take(n) =~= parts);
    }
}

/// The matches of every index together, which are not every 64-bit number;
/// the error of the first that failed.
pub fn join_rows(parts: Vec<Result<RoaringTreemap, ServiceError>>) -> (r: Result<
    RoaringTreemap,
    ServiceError,
>)
    requires
        exists|row: u64| !joined_rows(parts@).contains(row),
    ensures
        match r {
            Ok(t) => mask::treemap_rows(t) == joined_rows(parts@) && forall|i: int|
                0 <= i < parts@.len() ==> (#[trigger] parts@[i]) is Ok,
            Err(e) => exists|i: int|
                0 <= i < parts@.len() && #[trigger] parts@[i] == Err::<
                    RoaringTreemap,
                    ServiceError,
                >(e) && forall|j: int| 0 <= j < i ==> (#[trigger] parts@[j]) is Ok,
        },
{
    let ghost all = parts@;
    proof {
        let row = choose|row: u64| !joined_rows(all).contains(row);
        mask::a_missing_row_bounds_the_count(joined_rows(all), row);
    }
    let mut rows = mask::empty_rows();
    for part in it: parts
        invariant
            it.seq() == all,
            joined_rows(all).finite(),
            joined_rows(all).len() <= u64::MAX,
            mask::treemap_rows(rows) == joined_rows(all.take(it.index() as int)),
            forall|j: int| 0 <= j < it.index() ==> (#[trigger] all[j]) is Ok,
    {
        let ghost n = it.index() as int;
        proof {
            joined_grows(all, n);
            assert(all.take(n + 1).drop_last() =~= all.take(n));
            assert(all.take(n + 1).last() == part);
            assert(all[n] == part);
            vstd::set_lib::lemma_len_subset(mask::treemap_rows(rows), joined_rows(all));
        }
        match part {
            Ok(t) => {
                proof {
                    vstd::set_lib::lemma_len_subset(mask::treemap_rows(t), joined_rows(all));
                }
                rows = mask::rows_of_either(&rows, &t);
            },
            Err(e) => {
                return Err(e);
            },
        }
    }
    proof {
        assert(all.take(all.len() as int) =~= all);
    }
    Ok(rows)
}

/// The row ids of some batches, batch after batch.
pub open spec fn flat(batches: Seq<Vec<u64>>) -> Seq<u64>
    decreases batches.len(),
{
    if batches.len() == 0 {
        Seq::empty()
    } else {
        flat(batches.drop_last()) + batches.last()@
    }
}

/// The rows of a filter in ascending order, in batches that are all full
/// but the last.
pub fn row_batches(rows: &RoaringTreemap) -> (r: Vec<Vec<u64>>)
    requires
        mask::listable(*rows),
    ensures
        mask::ascending(flat(r@)),
        forall|row: u64| flat(r@).contains(row) <==> mask::treemap_rows(*rows).contains(row),
        forall|i: int| 0 <= i < r@.len() ==> 0 < (#[trigger] r@[i])@.len() <= BATCH_ROWS,
        forall|i: int| 0 <= i < r@.len() - 1 ==> (#[trigger] r@[i])@.len() == BATCH_ROWS,
{
    let ids = mask::rows_in_order(rows);
    let mut out: Vec<Vec<u64>> = Vec::new();
    let mut batch: Vec<u64> = Vec::new();
    let mut i: usize = 0;
    proof {
        assert(flat(out@) + batch@ =~= ids@.take(0));
    }
    while i < ids.len()
        invariant
            i <= ids@.len(),
            flat(out@) + batch@ == ids@.take(i as int),
            batch@.len() < BATCH_ROWS,
            forall|k: int| 0 <= k < out@.len() ==> (#[trigger] out@[k])@.len() == BATCH_ROWS,
        decreases ids.len() - i,
    {
        let ghost was = out@;
        let ghost part = batch@;
        let id: u64 = ids[i];
        batch.push(id);
        proof {
            assert(ids@.take(i as int + 1) =~= ids@.take(i as int).push(id));
            assert(flat(was) + part.push(id) =~= (flat(was) + part).push(id));
        }
        if batch.len() == BATCH_ROWS {
            let ghost full = batch;
            out.push(batch);
            batch = Vec::new();
            proof {
                assert(out@.drop_last() =~= was);
                assert(flat(out@) + batch@ =~= flat(was) + full@);
            }
        }
        i += 1;
    }
    let ghost was = out@;
    let ghost part = batch@;
    proof {
        assert(ids@.take(ids@.len() as int) =~= ids@);
    }
    if batch.len() > 0 {
        out.push(batch);
        proof {
            assert(out@.drop_last() =~= was);
        }
    } else {
        proof {
            assert(flat(was) + part =~= flat(was));
        }
    }
    assert(flat(out@) == ids@);
    out
}

} // verus!
