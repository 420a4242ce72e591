//! The rows of a fetch in input order: durable rows from those that were
//! read, tail rows from the tail.

use crate::collection::{CollectionSchema, SchemaV};
use crate::error::{Failure, ServiceError};
use crate::exec::doc_fetch;
use crate::exec::doc_fetch::{FetchColumns, FetchedRow, FetchedV, TailEntry};
use crate::exec::project;
use crate::exec::schema;
use crate::exec::schema::{Ranked, RankedBatch};
use crate::ir;
use crate::ir::SparseVector;
use crate::json::value;
use crate::json::value::{Json, Tree};
use crate::text;
use vstd::prelude::*;
use vstd::string::*;

verus! {

fn copy_dense(v: &Vec<(String, Vec<u32>)>) -> (r: Vec<(String, Vec<u32>)>)
    ensures
        doc_fetch::dense_views(r@) == doc_fetch::dense_views(v@),
{
    let mut out: Vec<(String, Vec<u32>)> = Vec::new();
    let mut i: usize = 0;
    while i < v.len()
        invariant
            i <= v@.len(),
            out@.len() == i,
            forall|j: int|
                0 <= j < i ==> (#[trigger] out@[j]).0@ == v@[j].0@ && out@[j].1@ == v@[j].1@,
        decreases v.len() - i,
    {
        out.push((v[i].0.clone(), ir::copy_bits(&v[i].1)));
        i += 1;
    }
    proof {
        assert(doc_fetch::dense_views(out@) =~= doc_fetch::dense_views(v@));
    }
    out
}

fn copy_sparse(v: &Vec<(String, SparseVector)>) -> (r: Vec<(String, SparseVector)>)
    ensures
        doc_fetch::sparse_views(r@) == doc_fetch::sparse_views(v@),
{
    let mut out: Vec<(String, SparseVector)> = Vec::new();
    let mut i: usize = 0;
    while i < v.len()
        invariant
            i <= v@.len(),
            out@.len() == i,
            forall|j: int|
                0 <= j < i ==> (#[trigger] out@[j]).0@ == v@[j].0@ && out@[j].1@ == v@[j].1@,
        decreases v.len() - i,
    {
        out.push((v[i].0.clone(), v[i].1.copy()));
        i += 1;
    }
    proof {
        assert(doc_fetch::sparse_views(out@) =~= doc_fetch::sparse_views(v@));
    }
    out
}

impl FetchedRow {
    /// A copy of the row.
    pub fn copy(&self) -> (r: FetchedRow)
        ensures
            r@ == self@,
    {
        let source = match &self.source {
            Some(s) => Some(project::copy_entries(s)),
            None => None,
        };
        FetchedRow {
            row_id: self.row_id,
            pk: self.pk.clone(),
            source,
            vectors: copy_dense(&self.vectors),
            sparse_vectors: copy_sparse(&self.sparse_vectors),
            seq_no: self.seq_no,
            partition: self.partition,
        }
    }
}

/// The row of an id among those that were read; the last one of the id.
pub open spec fn read_row(found: Seq<FetchedRow>, id: u64) -> Option<FetchedV>
    decreases found.len(),
{
    if found.len() == 0 {
        None
    } else if found.last().row_id == id {
        Some(found.last()@)
    } else {
        read_row(found.drop_last(), id)
    }
}

/// The message for a durable row that was not read.
pub open spec fn not_fetched(id: u64) -> Seq<char> {
    "row "@ + text::decimal(id as nat) + " was not fetched"@
}

/// The row of an id, or why there is none: an id from `base` on is the
/// tail's, which holds `entry` at it.
pub open spec fn row_of(
    s: SchemaV,
    id: u64,
    base: u64,
    found: Seq<FetchedRow>,
    entry: TailEntry,
    columns: FetchColumns,
) -> Result<FetchedV, Seq<char>> {
    if id >= base {
        match entry {
            TailEntry::Missing => Err(doc_fetch::no_tail_row(id)),
            TailEntry::Delete => Err(doc_fetch::tail_delete(id)),
            TailEntry::Doc(doc) => Ok(doc_fetch::projected(s, doc, columns)),
        }
    } else {
        match read_row(found, id) {
            Some(row) => Ok(row),
            None => Err(not_fetched(id)),
        }
    }
}

fn find_row(found: &Vec<FetchedRow>, id: u64) -> (r: Option<FetchedRow>)
    ensures
        match r {
            Some(row) => read_row(found@, id) == Some(row@),
            None => read_row(found@, id) is None,
        },
{
    let mut n: usize = found.len();
    proof {
        assert(found@.take(n as int) =~= found@);
    }
    while n > 0
        invariant
            n <= found@.len(),
            read_row(found@, id) == read_row(found@.take(n as int), id),
        decreases n,
    {
        proof {
            assert(found@.take(n as int).last() == found@[n - 1]);
            assert(found@.take(n as int).drop_last() =~= found@.take(n - 1));
        }
        if found[n - 1].row_id == id {
            return Some(found[n - 1].copy());
        }
        n -= 1;
    }
    None
}

/// The rows `row_ids`, in their order; internal for the first that there
/// is none of. `found` are the durable rows that were read, `tail` what
/// the tail holds at each of the ids, `base` its first row.
pub fn rows_in_order(
    schema: &CollectionSchema,
    row_ids: &Vec<u64>,
    base: u64,
    found: &Vec<FetchedRow>,
    tail: &Vec<TailEntry>,
    columns: &FetchColumns,
) -> (r: Result<Vec<FetchedRow>, ServiceError>)
    requires
        tail@.len() == row_ids@.len(),
    ensures
        match r {
            Ok(rows) => rows@.len() == row_ids@.len() && forall|i: int|
                0 <= i < row_ids@.len() ==> row_of(
                    schema@,
                    row_ids@[i],
                    base,
                    found@,
                    tail@[i],
                    *columns,
                ) == Ok::<FetchedV, Seq<char>>((#[trigger] rows@[i])@),
            Err(e) => exists|i: int|
                0 <= i < row_ids@.len() && (#[trigger] row_of(
                    schema@,
                    row_ids@[i],
                    base,
                    found@,
                    tail@[i],
                    *columns,
                ) matches Err(m) && e@ == Failure::Internal(m)) && forall|j: int|
                    0 <= j < i ==> (#[trigger] row_of(
                        schema@,
                        row_ids@[j],
                        base,
                        found@,
                        tail@[j],
                        *columns,
                    )) is Ok,
        },
{
    let mut out: Vec<FetchedRow> = Vec::new();
    let mut i: usize = 0;
    while i < row_ids.len()
        invariant
            i <= row_ids@.len(),
            tail@.len() == row_ids@.len(),
            out@.len() == i,
            forall|j: int|
                0 <= j < i ==> row_of(
                    schema@,
                    row_ids@[j],
                    base,
                    found@,
                    tail@[j],
                    *columns,
                ) == Ok::<FetchedV, Seq<char>>((#[trigger] out@[j])@),
        decreases row_ids.len() - i,
    {
        let id: u64 = row_ids[i];
        let ghost here = row_of(schema@, id, base, found@, tail@[i as int], *columns);
        proof {
            assert forall|j: int| 0 <= j < i implies (#[trigger] row_of(
                schema@,
                row_ids@[j],
                base,
                found@,
                tail@[j],
                *columns,
            )) is Ok by {
                let x = out@[j];
            }
        }
        if id >= base {
            match doc_fetch::tail_row(schema, id, &tail[i], columns) {
                Ok(row) => {
                    out.push(row);
                },
                Err(e) => {
                    assert(here is Err);
                    return Err(e);
                },
            }
        } else {
            match find_row(found, id) {
                Some(row) => {
                    out.push(row);
                },
                None => {
                    assert(here is Err);
                    let n = text::dec(id);
                    return Err(
                        ServiceError::Internal(text::cat3("row ", n.as_str(), " was not fetched")),
                    );
                },
            }
        }
        i += 1;
    }
    Ok(out)
}

/// The columns of fetched candidates: those of the candidates, the sources
/// as JSON text, null where they were not fetched, the vectors by name, and
/// the rows' sequence numbers and partitions.
pub struct FetchedBatch {
    pub ranked: RankedBatch,
    pub sources: Vec<Option<String>>,
    pub vectors: Vec<Vec<(String, Vec<u32>)>>,
    pub sparse_vectors: Vec<Vec<(String, SparseVector)>>,
    pub seq_nos: Vec<u64>,
    pub partitions: Vec<u32>,
}

/// The text of a source.
pub open spec fn source_text(source: Option<Seq<(Seq<char>, Tree)>>) -> Option<Seq<char>> {
    match source {
        Some(entries) => Some(value::json_text(Tree::Object(entries))),
        None => None,
    }
}

/// What a text that may be missing is.
pub open spec fn opt_text(s: Option<String>) -> Option<Seq<char>> {
    match s {
        Some(s) => Some(s@),
        None => None,
    }
}

/// Whether the columns beside the candidates' have `n` rows.
pub open spec fn has_rows(b: FetchedBatch, n: nat) -> bool {
    &&& b.sources@.len() == n
    &&& b.vectors@.len() == n
    &&& b.sparse_vectors@.len() == n
    &&& b.seq_nos@.len() == n
    &&& b.partitions@.len() == n
}

/// Whether a row of the columns beside the candidates' is what a fetched
/// row writes.
pub open spec fn document_is(b: FetchedBatch, i: int, row: FetchedV) -> bool {
    &&& opt_text(b.sources@[i]) == source_text(row.source)
    &&& doc_fetch::dense_views(b.vectors@[i]@) == row.vectors
    &&& doc_fetch::sparse_views(b.sparse_vectors@[i]@) == row.sparse_vectors
    &&& b.seq_nos@[i] == row.seq_no
    &&& b.partitions@[i] == row.partition
}

fn text_of_source(source: &Option<Vec<(String, Json)>>) -> (r: Option<String>)
    ensures
        opt_text(r) == source_text(project::opt_entries(*source)),
{
    broadcast use value::view_object;

    match source {
        Some(s) => {
            let object = Json::Object(project::copy_entries(s));
            Some(object.text())
        },
        None => None,
    }
}

/// Candidates with their fetched rows as columns.
pub fn fetched_to_batch(hits: &Vec<Ranked>, rows: &Vec<FetchedRow>) -> (r: FetchedBatch)
    requires
        hits@.len() == rows@.len(),
    ensures
        schema::ranked_aligned(r.ranked),
        r.ranked.pks@.len() == hits@.len(),
        has_rows(r, hits@.len()),
        forall|i: int| 0 <= i < hits@.len() ==> schema::row_is(r.ranked, i, (#[trigger] hits@[i])@),
        forall|i: int| 0 <= i < rows@.len() ==> document_is(r, i, (#[trigger] rows@[i])@),
{
    let mut b = FetchedBatch {
        ranked: schema::ranked_to_batch(hits),
        sources: Vec::new(),
        vectors: Vec::new(),
        sparse_vectors: Vec::new(),
        seq_nos: Vec::new(),
        partitions: Vec::new(),
    };
    let ghost ranked = b.ranked;
    let mut i: usize = 0;
    while i < rows.len()
        invariant
            i <= rows@.len(),
            b.ranked == ranked,
            has_rows(b, i as nat),
            forall|k: int| 0 <= k < i ==> document_is(b, k, (#[trigger] rows@[k])@),
        decreases rows.len() - i,
    {
        let ghost was = b;
        let row = &rows[i];
        b.sources.push(text_of_source(&row.source));
        b.vectors.push(copy_dense(&row.vectors));
        b.sparse_vectors.push(copy_sparse(&row.sparse_vectors));
        b.seq_nos.push(row.seq_no);
        b.partitions.push(row.partition);
        proof {
            assert forall|k: int| 0 <= k < i + 1 implies document_is(
                b,
                k,
                (#[trigger] rows@[k])@,
            ) by {
                if k < i {
                    assert(document_is(was, k, rows@[k]@));
                    assert(b.sources@[k] == was.sources@[k] && b.vectors@[k] == was.vectors@[k]
                        && b.sparse_vectors@[k] == was.sparse_vectors@[k] && b.seq_nos@[k]
                        == was.seq_nos@[k] && b.partitions@[k] == was.partitions@[k]);
                }
            }
        }
        i += 1;
    }
    b
}

} // verus!
