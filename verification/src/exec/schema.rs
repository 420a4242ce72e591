//! What the operators of a search exchange: ranked candidates, keyed rows
//! and their columns.

use crate::error::{Failure, ServiceError};
use crate::key;
use crate::key::{Key, PrimaryKey};
use crate::text;
use crate::values;
use crate::values::{SortV, SortValue};
use vstd::prelude::*;
use vstd::string::*;

verus! {

pub const ROWID_COLUMN: &'static str = "_rowid";

pub const PK_COLUMN: &'static str = "_pk";

pub const SCORE_COLUMN: &'static str = "_score";

pub const SORT_COLUMN: &'static str = "_sort";

pub const SOURCE_COLUMN: &'static str = "_source";

pub const VECTORS_COLUMN: &'static str = "_vectors";

pub const SPARSE_COLUMN: &'static str = "_sparse";

pub const SEQ_NO_COLUMN: &'static str = "_seq_no";

pub const PARTITION_COLUMN: &'static str = "_partition";

/// A candidate: its row, its key, the bits of its score and its field sort
/// values.
#[derive(Debug)]
pub struct Ranked {
    pub row_id: u64,
    pub pk: PrimaryKey,
    pub score: u32,
    pub sort: Vec<SortValue>,
}

/// What a candidate is.
pub struct RankedV {
    pub row_id: u64,
    pub pk: Key,
    pub score: u32,
    pub sort: Seq<SortV>,
}

impl View for Ranked {
    type V = RankedV;

    open spec fn view(&self) -> RankedV {
        RankedV {
            row_id: self.row_id,
            pk: self.pk@,
            score: self.score,
            sort: values::sort_views(self.sort@),
        }
    }
}

/// What some candidates are.
pub open spec fn ranked_views(s: Seq<Ranked>) -> Seq<RankedV> {
    Seq::new(s.len(), |i: int| s[i]@)
}

/// A copy of some sort values.
pub fn copy_sorts(v: &Vec<SortValue>) -> (r: Vec<SortValue>)
    ensures
        values::sort_views(r@) == values::sort_views(v@),
{
    let mut out: Vec<SortValue> = Vec::new();
    let mut i: usize = 0;
    while i < v.len()
        invariant
            i <= v@.len(),
            out@.len() == i,
            forall|j: int| 0 <= j < i ==> (#[trigger] out@[j])@ == v@[j]@,
        decreases v.len() - i,
    {
        out.push(v[i].copy());
        i += 1;
    }
    proof {
        assert(values::sort_views(out@) =~= values::sort_views(v@));
    }
    out
}

impl Ranked {
    /// A copy of the candidate.
    pub fn copy(&self) -> (r: Ranked)
        ensures
            r@ == self@,
    {
        Ranked {
            row_id: self.row_id,
            pk: self.pk.clone(),
            score: self.score,
            sort: copy_sorts(&self.sort),
        }
    }
}

/// A copy of some candidates.
pub fn copy_ranked(v: &Vec<Ranked>) -> (r: Vec<Ranked>)
    ensures
        ranked_views(r@) == ranked_views(v@),
{
    let mut out: Vec<Ranked> = Vec::new();
    let mut i: usize = 0;
    while i < v.len()
        invariant
            i <= v@.len(),
            out@.len() == i,
            forall|j: int| 0 <= j < i ==> (#[trigger] out@[j])@ == v@[j]@,
        decreases v.len() - i,
    {
        out.push(v[i].copy());
        i += 1;
    }
    proof {
        assert(ranked_views(out@) =~= ranked_views(v@));
    }
    out
}

/// What some keyed rows are.
pub open spec fn keyed_views(s: Seq<(u64, PrimaryKey)>) -> Seq<(u64, Key)> {
    Seq::new(s.len(), |i: int| (s[i].0, s[i].1@))
}

/// The columns of keyed rows: row ids and canonical keys.
#[derive(Debug)]
pub struct KeyedBatch {
    pub row_ids: Vec<u64>,
    pub pks: Vec<Vec<u8>>,
}

/// Whether the columns of a batch are as long as each other.
pub open spec fn keyed_aligned(b: KeyedBatch) -> bool {
    b.row_ids@.len() == b.pks@.len()
}

/// Some keyed rows as columns.
pub fn keyed_to_batch(rows: &Vec<(u64, PrimaryKey)>) -> (r: KeyedBatch)
    ensures
        keyed_aligned(r),
        r.row_ids@.len() == rows@.len(),
        forall|i: int|
            0 <= i < rows@.len() ==> #[trigger] r.row_ids@[i] == rows@[i].0 && r.pks@[i]@
                == key::canonical(rows@[i].1@),
{
    let mut row_ids: Vec<u64> = Vec::new();
    let mut pks: Vec<Vec<u8>> = Vec::new();
    let mut i: usize = 0;
    while i < rows.len()
        invariant
            i <= rows@.len(),
            row_ids@.len() == i,
            pks@.len() == i,
            forall|k: int|
                0 <= k < i ==> #[trigger] row_ids@[k] == rows@[k].0 && pks@[k]@ == key::canonical(
                    rows@[k].1@,
                ),
        decreases rows.len() - i,
    {
        row_ids.push(rows[i].0);
        pks.push(rows[i].1.canonical());
        i += 1;
    }
    KeyedBatch { row_ids, pks }
}

/// The first rows of a batch of keyed rows.
pub open spec fn keyed_in(b: KeyedBatch, n: nat) -> Result<Seq<(u64, Key)>, Failure>
    decreases n,
{
    if n == 0 || n > b.pks@.len() {
        Ok(Seq::empty())
    } else {
        match keyed_in(b, (n - 1) as nat) {
            Err(e) => Err(e),
            Ok(before) => match key::key_in(b.pks@[n - 1]@) {
                Some(k) => Ok(before.push((b.row_ids@[n - 1], k))),
                None => Err(Failure::Internal("keyed _pk: not a canonical key"@)),
            },
        }
    }
}

proof fn keyed_stays_wrong(b: KeyedBatch, n: nat, m: nat)
    requires
        n <= m <= b.pks@.len(),
        keyed_in(b, n) is Err,
    ensures
        keyed_in(b, m) == keyed_in(b, n),
    decreases m,
{
    if n < m {
        keyed_stays_wrong(b, n, (m - 1) as nat);
    }
}

/// The rows of a batch of keyed rows.
pub fn batch_to_keyed(b: &KeyedBatch) -> (r: Result<Vec<(u64, PrimaryKey)>, ServiceError>)
    requires
        keyed_aligned(*b),
    ensures
        match r {
            Ok(rows) => keyed_in(*b, b.pks@.len()) == Ok::<Seq<(u64, Key)>, Failure>(
                keyed_views(rows@),
            ),
            Err(e) => keyed_in(*b, b.pks@.len()) == Err::<Seq<(u64, Key)>, Failure>(e@),
        },
{
    let mut out: Vec<(u64, PrimaryKey)> = Vec::new();
    let mut i: usize = 0;
    assert(keyed_views(out@) =~= Seq::empty());
    while i < b.pks.len()
        invariant
            i <= b.pks@.len(),
            keyed_aligned(*b),
            keyed_in(*b, i as nat) == Ok::<Seq<(u64, Key)>, Failure>(keyed_views(out@)),
        decreases b.pks.len() - i,
    {
        let ghost before = keyed_views(out@);
        match PrimaryKey::from_canonical(b.pks[i].as_slice()) {
            Some(k) => {
                proof {
                    key::key_in_is(b.pks@[i as int]@, k@);
                }
                out.push((b.row_ids[i], k));
                assert(keyed_views(out@) =~= before.push((b.row_ids@[i as int], k@)));
            },
            None => {
                proof {
                    keyed_stays_wrong(*b, (i + 1) as nat, b.pks@.len());
                }
                return Err(ServiceError::Internal("keyed _pk: not a canonical key".to_owned()));
            },
        }
        i += 1;
    }
    Ok(out)
}

/// Keyed rows read back as they were written.
pub proof fn keyed_rows_read_back(rows: Seq<(u64, PrimaryKey)>, b: KeyedBatch, n: nat)
    requires
        keyed_aligned(b),
        b.row_ids@.len() == rows.len(),
        n <= rows.len(),
        forall|i: int|
            0 <= i < rows.len() ==> #[trigger] b.row_ids@[i] == rows[i].0 && b.pks@[i]@
                == key::canonical(rows[i].1@),
    ensures
        keyed_in(b, n) == Ok::<Seq<(u64, Key)>, Failure>(keyed_views(rows).take(n as int)),
    decreases n,
{
    if n > 0 {
        keyed_rows_read_back(rows, b, (n - 1) as nat);
        assert(b.row_ids@[n - 1] == rows[n - 1].0);
        key::key_in_is(b.pks@[n - 1]@, rows[n - 1].1@);
        assert(keyed_views(rows).take(n as int) =~= keyed_views(rows).take(n - 1).push(
            keyed_views(rows)[n - 1],
        ));
    } else {
        assert(keyed_views(rows).take(0) =~= Seq::empty());
    }
}

/// The columns of ranked candidates: row ids, canonical keys, bits of scores
/// and sort values, or why they could not be read.
#[derive(Debug)]
pub struct RankedBatch {
    pub row_ids: Vec<u64>,
    pub pks: Vec<Option<Vec<u8>>>,
    pub scores: Vec<u32>,
    pub sorts: Vec<Option<Result<Vec<SortValue>, String>>>,
}

/// Whether the columns of a batch are as long as each other.
pub open spec fn ranked_aligned(b: RankedBatch) -> bool {
    &&& b.row_ids@.len() == b.pks@.len()
    &&& b.scores@.len() == b.pks@.len()
    &&& b.sorts@.len() == b.pks@.len()
}

/// Whether a row of a batch is what a candidate writes.
pub open spec fn row_is(b: RankedBatch, i: int, v: RankedV) -> bool {
    &&& b.row_ids@[i] == v.row_id
    &&& b.pks@[i] matches Some(p) && p@ == key::canonical(v.pk)
    &&& b.scores@[i] == v.score
    &&& b.sorts@[i] matches Some(Ok(s)) && values::sort_views(s@) == v.sort
}

/// Some candidates as columns.
pub fn ranked_to_batch(rows: &Vec<Ranked>) -> (r: RankedBatch)
    ensures
        ranked_aligned(r),
        r.pks@.len() == rows@.len(),
        forall|i: int| 0 <= i < rows@.len() ==> row_is(r, i, (#[trigger] rows@[i])@),
{
    let mut b = RankedBatch {
        row_ids: Vec::new(),
        pks: Vec::new(),
        scores: Vec::new(),
        sorts: Vec::new(),
    };
    let mut i: usize = 0;
    while i < rows.len()
        invariant
            i <= rows@.len(),
            ranked_aligned(b),
            b.pks@.len() == i,
            forall|k: int| 0 <= k < i ==> row_is(b, k, (#[trigger] rows@[k])@),
        decreases rows.len() - i,
    {
        let ghost was = b;
        b.row_ids.push(rows[i].row_id);
        b.pks.push(Some(rows[i].pk.canonical()));
        b.scores.push(rows[i].score);
        b.sorts.push(Some(Ok(copy_sorts(&rows[i].sort))));
        proof {
            assert forall|k: int| 0 <= k < i + 1 implies row_is(b, k, (#[trigger] rows@[k])@) by {
                if k < i {
                    assert(row_is(was, k, rows@[k]@));
                    assert(b.row_ids@[k] == was.row_ids@[k] && b.pks@[k] == was.pks@[k]
                        && b.scores@[k] == was.scores@[k] && b.sorts@[k] == was.sorts@[k]);
                }
            }
        }
        i += 1;
    }
    b
}

/// One row of a batch of candidates.
pub open spec fn ranked_at(b: RankedBatch, i: int) -> Result<RankedV, Failure> {
    match (b.pks@[i], b.sorts@[i]) {
        (Some(pk), Some(sort)) => match key::key_in(pk@) {
            None => Err(Failure::Internal("ranked _pk: not a canonical key"@)),
            Some(k) => match sort {
                Err(e) => Err(Failure::Internal("ranked _sort: "@ + e@)),
                Ok(s) => Ok(
                    RankedV {
                        row_id: b.row_ids@[i],
                        pk: k,
                        score: b.scores@[i],
                        sort: values::sort_views(s@),
                    },
                ),
            },
        },
        _ => Err(Failure::Internal("a null in a ranked batch"@)),
    }
}

/// The first rows of a batch of candidates.
pub open spec fn ranked_in(b: RankedBatch, n: nat) -> Result<Seq<RankedV>, Failure>
    decreases n,
{
    if n == 0 || n > b.pks@.len() {
        Ok(Seq::empty())
    } else {
        match ranked_in(b, (n - 1) as nat) {
            Err(e) => Err(e),
            Ok(before) => match ranked_at(b, n - 1) {
                Err(e) => Err(e),
                Ok(v) => Ok(before.push(v)),
            },
        }
    }
}

proof fn ranked_stays_wrong(b: RankedBatch, n: nat, m: nat)
    requires
        n <= m <= b.pks@.len(),
        ranked_in(b, n) is Err,
    ensures
        ranked_in(b, m) == ranked_in(b, n),
    decreases m,
{
    if n < m {
        ranked_stays_wrong(b, n, (m - 1) as nat);
    }
}

fn row_at(b: &RankedBatch, i: usize) -> (r: Result<Ranked, ServiceError>)
    requires
        ranked_aligned(*b),
        i < b.pks@.len(),
    ensures
        match r {
            Ok(v) => ranked_at(*b, i as int) == Ok::<RankedV, Failure>(v@),
            Err(e) => ranked_at(*b, i as int) == Err::<RankedV, Failure>(e@),
        },
{
    match (&b.pks[i], &b.sorts[i]) {
        (Some(pk), Some(sort)) => match PrimaryKey::from_canonical(pk.as_slice()) {
            None => Err(ServiceError::Internal("ranked _pk: not a canonical key".to_owned())),
            Some(k) => {
                proof {
                    key::key_in_is(pk@, k@);
                }
                match sort {
                    Err(e) => Err(ServiceError::Internal(text::cat2("ranked _sort: ", e))),
                    Ok(s) => Ok(
                        Ranked {
                            row_id: b.row_ids[i],
                            pk: k,
                            score: b.scores[i],
                            sort: copy_sorts(s),
                        },
                    ),
                }
            },
        },
        _ => Err(ServiceError::Internal("a null in a ranked batch".to_owned())),
    }
}

/// The candidates of a batch.
pub fn batch_to_ranked(b: &RankedBatch) -> (r: Result<Vec<Ranked>, ServiceError>)
    requires
        ranked_aligned(*b),
    ensures
        match r {
            Ok(rows) => ranked_in(*b, b.pks@.len()) == Ok::<Seq<RankedV>, Failure>(
                ranked_views(rows@),
            ),
            Err(e) => ranked_in(*b, b.pks@.len()) == Err::<Seq<RankedV>, Failure>(e@),
        },
{
    let mut out: Vec<Ranked> = Vec::new();
    let mut i: usize = 0;
    assert(ranked_views(out@) =~= Seq::empty());
    while i < b.pks.len()
        invariant
            i <= b.pks@.len(),
            ranked_aligned(*b),
            ranked_in(*b, i as nat) == Ok::<Seq<RankedV>, Failure>(ranked_views(out@)),
        decreases b.pks.len() - i,
    {
        let ghost before = ranked_views(out@);
        match row_at(b, i) {
            Ok(v) => {
                out.push(v);
                assert(ranked_views(out@) =~= before.push(v@));
            },
            Err(e) => {
                proof {
                    ranked_stays_wrong(*b, (i + 1) as nat, b.pks@.len());
                }
                return Err(e);
            },
        }
        i += 1;
    }
    Ok(out)
}

/// Candidates read back as they were written.
pub proof fn candidates_read_back(rows: Seq<Ranked>, b: RankedBatch, n: nat)
    requires
        ranked_aligned(b),
        b.pks@.len() == rows.len(),
        n <= rows.len(),
        forall|i: int| 0 <= i < rows.len() ==> row_is(b, i, (#[trigger] rows[i])@),
    ensures
        ranked_in(b, n) == Ok::<Seq<RankedV>, Failure>(ranked_views(rows).take(n as int)),
    decreases n,
{
    if n > 0 {
        candidates_read_back(rows, b, (n - 1) as nat);
        let v = rows[n - 1]@;
        assert(row_is(b, n - 1, v));
        key::key_in_is(b.pks@[n - 1]->Some_0@, v.pk);
        assert(ranked_views(rows).take(n as int) =~= ranked_views(rows).take(n - 1).push(v));
    } else {
        assert(ranked_views(rows).take(0) =~= Seq::empty());
    }
}

} // verus!
