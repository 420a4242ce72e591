//! The scan of a collection's table: the durable rows that its filter and
//! the tail leave, then the tail's, up to a limit.

use crate::collection::{CollectionSchema, SchemaV};
use crate::exec::mask;
use crate::exec::mask::{RowMask, RowSet};
use crate::query;
use crate::query::{Query, QueryV};
use crate::sql::exprs;
use crate::sql::exprs::SqlExpr;
use crate::text;
use roaring::RoaringTreemap;
use vstd::prelude::*;
use vstd::string::*;

verus! {

broadcast use crate::query::view_bool;

/// Whether a table takes a filter, to be applied again to the rows.
pub fn takes_filter(e: &SqlExpr, schema: &CollectionSchema) -> (r: bool)
    ensures
        r == (exprs::converted(*e, schema@) is Some),
{
    exprs::expr_to_query(e, schema).is_some()
}

/// The queries of the first filters that convert.
pub open spec fn taken_queries(filters: Seq<SqlExpr>, s: SchemaV, n: nat) -> Seq<QueryV>
    decreases n,
{
    if n == 0 || n > filters.len() {
        Seq::empty()
    } else {
        let before = taken_queries(filters, s, (n - 1) as nat);
        match exprs::converted(filters[n - 1], s) {
            Some((q, _)) => before.push(q),
            None => before,
        }
    }
}

/// The one query of several filters: each must match.
pub open spec fn all_of(queries: Seq<QueryV>) -> Option<QueryV> {
    if queries.len() == 0 {
        None
    } else if queries.len() == 1 {
        Some(queries[0])
    } else {
        Some(
            QueryV::Bool {
                must: Seq::empty(),
                should: Seq::empty(),
                must_not: Seq::empty(),
                filter: queries,
                minimum_should_match: None,
            },
        )
    }
}

/// The query of a scan's filters.
pub fn scan_filter(filters: &Vec<SqlExpr>, schema: &CollectionSchema) -> (r: Option<Query>)
    ensures
        query::opt_query(r) == all_of(taken_queries(filters@, schema@, filters@.len())),
{
    let mut queries: Vec<Query> = Vec::new();
    let mut i: usize = 0;
    assert(query::query_views(queries@) =~= Seq::empty());
    while i < filters.len()
        invariant
            i <= filters@.len(),
            query::query_views(queries@) == taken_queries(filters@, schema@, i as nat),
        decreases filters.len() - i,
    {
        let ghost before = query::query_views(queries@);
        if let Some(q) = exprs::expr_to_query(&filters[i], schema) {
            queries.push(q);
            assert(query::query_views(queries@) =~= before.push(q@));
        }
        i += 1;
    }
    let ghost all = query::query_views(queries@);
    if queries.len() == 0 {
        return None;
    }
    if queries.len() == 1 {
        assert(all[0] == queries@[0]@);
        return queries.pop();
    }
    let must: Vec<Query> = Vec::new();
    let should: Vec<Query> = Vec::new();
    let must_not: Vec<Query> = Vec::new();
    assert(query::query_views(must@) =~= Seq::empty());
    assert(query::query_views(should@) =~= Seq::empty());
    assert(query::query_views(must_not@) =~= Seq::empty());
    Some(Query::Bool { must, should, must_not, filter: queries, minimum_should_match: None })
}

/// Whether a filter can be asked of a manifest's splits: one written before
/// a field existed does not index it, so that its rows are all scanned.
pub fn can_filter(split_versions: &Vec<u64>, current: u64) -> (r: bool)
    ensures
        r == forall|i: int|
            0 <= i < split_versions@.len() ==> (#[trigger] split_versions@[i]) >= current,
{
    let mut i: usize = 0;
    while i < split_versions.len()
        invariant
            i <= split_versions@.len(),
            forall|k: int| 0 <= k < i ==> (#[trigger] split_versions@[k]) >= current,
        decreases split_versions.len() - i,
    {
        if split_versions[i] < current {
            assert(split_versions@[i as int] < current);
            return false;
        }
        i += 1;
    }
    true
}

/// The rows that a filter leaves, none for every row.
pub fn allowed_rows(rows: RowSet) -> (r: Option<RoaringTreemap>)
    ensures
        match rows {
            RowSet::All => r is None,
            RowSet::Rows(t) => r == Some(t),
        },
{
    match rows {
        RowSet::All => None,
        RowSet::Rows(t) => Some(t),
    }
}

/// Whether a set of rows, all where there is none, has a row.
pub open spec fn allows(allowed: Option<RoaringTreemap>, row: u64) -> bool {
    match allowed {
        Some(t) => mask::treemap_rows(t).contains(row),
        None => true,
    }
}

/// Whether a scan keeps a document of the tail.
pub fn keeps_doc(allowed: &Option<RoaringTreemap>, row: u64) -> (r: bool)
    ensures
        r == allows(*allowed, row),
{
    match allowed {
        Some(t) => mask::has_row(t, row),
        None => true,
    }
}

/// Whether a scan keeps a durable row: the tail does not shadow it and the
/// filter leaves it.
pub fn keeps_row(shadow: &RoaringTreemap, allowed: &Option<RoaringTreemap>, row: u64) -> (r: bool)
    ensures
        r == (!mask::treemap_rows(*shadow).contains(row) && allows(*allowed, row)),
{
    !mask::has_row(shadow, row) && keeps_doc(allowed, row)
}

/// Which durable rows a scan reads.
pub enum DurableRows {
    /// None of them.
    Nothing,
    /// Those that the mask lets through, all without one.
    Masked(Option<RowMask>),
}

/// Whether a durable row is read.
pub open spec fn is_read(d: DurableRows, row: u64) -> bool {
    match d {
        DurableRows::Nothing => false,
        DurableRows::Masked(None) => true,
        DurableRows::Masked(Some(m)) => mask::admitted(m, row),
    }
}

/// Which durable rows a scan reads: those below `base` that the filter
/// leaves and the tail does not shadow.
pub fn durable_rows(allowed: &Option<RoaringTreemap>, shadow: &RoaringTreemap, base: u64) -> (r: (
    Option<RoaringTreemap>,
    DurableRows,
))
    requires
        allowed matches Some(t) ==> mask::countable(*t),
    ensures
        r.0 is Some == allowed is Some,
        r.0 matches Some(d) ==> mask::treemap_rows(d) == mask::below(
            mask::treemap_rows(allowed->Some_0),
            base,
        ).difference(mask::treemap_rows(*shadow)),
        forall|row: u64|
            row < base ==> #[trigger] is_read(r.1, row) == (allows(*allowed, row)
                && !mask::treemap_rows(*shadow).contains(row)),
        r.1 is Nothing == (r.0 matches Some(d) && mask::treemap_rows(d) =~= Set::empty()),
{
    match allowed {
        None => {
            if mask::no_rows(shadow) {
                (None, DurableRows::Masked(None))
            } else {
                (None, DurableRows::Masked(Some(RowMask::Block(mask::copy_rows(shadow)))))
            }
        },
        Some(rows) => {
            let mut below = mask::copy_rows(rows);
            mask::cut_from(&mut below, base);
            let durable = mask::rows_without(&below, shadow);
            if mask::no_rows(&durable) {
                assert forall|row: u64| row < base implies #[trigger] is_read(
                    DurableRows::Nothing,
                    row,
                ) == (allows(*allowed, row) && !mask::treemap_rows(*shadow).contains(row)) by {
                    assert(!mask::treemap_rows(durable).contains(row));
                }
                (Some(durable), DurableRows::Nothing)
            } else {
                let copied = mask::copy_rows(&durable);
                (Some(durable), DurableRows::Masked(Some(RowMask::Allow(copied))))
            }
        },
    }
}

/// Where a scan is.
#[derive(Clone, Copy, Debug, PartialEq, Eq, Structural)]
pub enum Phase {
    Start,
    Durable,
    /// At this document of the tail.
    Tail(usize),
    Done,
}

/// What a scan asks for.
#[derive(Clone, Copy, Debug, PartialEq, Eq, Structural)]
pub enum ScanAsk {
    /// The view, the filter's rows and the tail's documents.
    Start,
    /// The next durable batch.
    Durable,
    /// The rows of these documents of the tail.
    Tail { from: usize, to: usize },
    /// Nothing more.
    Nothing,
}

/// A running scan.
#[derive(Clone, Copy, Debug, PartialEq, Eq, Structural)]
pub struct ScanRun {
    /// How many rows may still come, none for all.
    pub remaining: Option<usize>,
    pub phase: Phase,
    /// How many documents of the tail the scan keeps.
    pub docs: usize,
    pub batch_rows: usize,
}

/// The end of a batch of the tail.
pub open spec fn tail_end(at: usize, batch_rows: usize, docs: usize) -> usize {
    let step = if batch_rows == 0 {
        1
    } else {
        batch_rows as int
    };
    if at + step <= docs {
        (at + step) as usize
    } else {
        docs
    }
}

impl ScanRun {
    /// A scan of at most so many rows.
    pub fn new(limit: Option<usize>, batch_rows: usize) -> (r: ScanRun)
        ensures
            r == (ScanRun { remaining: limit, phase: Phase::Start, docs: 0, batch_rows }),
    {
        ScanRun { remaining: limit, phase: Phase::Start, docs: 0, batch_rows }
    }

    /// What the scan asks for: nothing once its limit is reached.
    pub fn ask(&self) -> (r: ScanAsk)
        ensures
            r == (if self.remaining == Some(0usize) {
                ScanAsk::Nothing
            } else {
                match self.phase {
                    Phase::Start => ScanAsk::Start,
                    Phase::Durable => ScanAsk::Durable,
                    Phase::Tail(at) => if at >= self.docs {
                        ScanAsk::Nothing
                    } else {
                        ScanAsk::Tail { from: at, to: tail_end(at, self.batch_rows, self.docs) }
                    },
                    Phase::Done => ScanAsk::Nothing,
                }
            }),
    {
        if let Some(left) = self.remaining {
            if left == 0 {
                return ScanAsk::Nothing;
            }
        }
        match self.phase {
            Phase::Start => ScanAsk::Start,
            Phase::Durable => ScanAsk::Durable,
            Phase::Tail(at) => {
                if at >= self.docs {
                    return ScanAsk::Nothing;
                }
                let step: usize = if self.batch_rows == 0 {
                    1
                } else {
                    self.batch_rows
                };
                let to: usize = if step <= self.docs - at {
                    at + step
                } else {
                    self.docs
                };
                ScanAsk::Tail { from: at, to }
            },
            Phase::Done => ScanAsk::Nothing,
        }
    }

    /// The scan started: whether it reads durable rows, and how many
    /// documents of the tail it keeps.
    pub fn started(&mut self, durable: bool, docs: usize)
        ensures
            *final(self) == (ScanRun {
                phase: if durable {
                    Phase::Durable
                } else {
                    Phase::Tail(0)
                },
                docs,
                ..*old(self)
            }),
    {
        self.docs = docs;
        self.phase = if durable {
            Phase::Durable
        } else {
            Phase::Tail(0)
        };
    }

    /// No durable batch is left.
    pub fn durable_done(&mut self)
        ensures
            *final(self) == (ScanRun { phase: Phase::Tail(0), ..*old(self) }),
    {
        self.phase = Phase::Tail(0);
    }

    /// The documents of the tail before a place were read.
    pub fn tail_read(&mut self, to: usize)
        ensures
            *final(self) == (ScanRun { phase: Phase::Tail(to), ..*old(self) }),
    {
        self.phase = Phase::Tail(to);
    }

    /// How many rows of a batch come out, within the limit.
    pub fn emit(&mut self, rows: usize) -> (r: usize)
        ensures
            r == (match old(self).remaining {
                None => rows,
                Some(left) => if rows <= left {
                    rows
                } else {
                    left
                },
            }),
            *final(self) == (ScanRun {
                remaining: match old(self).remaining {
                    None => None,
                    Some(left) => Some((left - r) as usize),
                },
                ..*old(self)
            }),
    {
        match self.remaining {
            None => rows,
            Some(left) => {
                let kept: usize = if rows <= left {
                    rows
                } else {
                    left
                };
                self.remaining = Some(left - kept);
                kept
            },
        }
    }
}

/// The batches of the tail that a scan reads go on: each begins where the
/// one before it ended, and none is empty.
pub proof fn tail_batches_go_on(at: usize, batch_rows: usize, docs: usize)
    requires
        at < docs,
    ensures
        at < tail_end(at, batch_rows, docs) <= docs,
{
}

/// The message of a scan that is asked for another partition than its one.
pub fn one_partition(name: &str, partition: usize) -> (r: Result<(), String>)
    ensures
        match r {
            Ok(_) => partition == 0,
            Err(m) => partition != 0 && m@ == name@ + " has one partition, not "@ + text::decimal(
                partition as nat,
            ),
        },
{
    if partition == 0 {
        return Ok(());
    }
    let shown = text::dec(partition as u64);
    Err(text::cat3(name, " has one partition, not ", &shown))
}

} // verus!
