//! The rows of a read batch with one dense vector, and those of them that
//! a search keeps.

use crate::error::{Failure, ServiceError};
use crate::exec::ann;
use crate::exec::decode;
use crate::exec::doc_fetch;
use crate::exec::doc_fetch::{Batch, Column, SystemColumns};
use crate::exec::mask;
use crate::exec::mask::RowMask;
use crate::exec::topk::Scored;
use crate::ir;
use crate::key;
use crate::key::{Key, PrimaryKey};
use crate::text;
use roaring::RoaringTreemap;
use vstd::prelude::*;
use vstd::string::*;

verus! {

/// The column of a vector in a read batch.
pub enum VectorColumn {
    Missing,
    /// Not a list of a fixed size.
    NotLists,
    /// A list of something else than 32-bit floats.
    NotFloats,
    /// Lists of `length` floats, none where the cell is null.
    Lists { length: usize, cells: Vec<Option<Vec<u32>>> },
}

/// The cells of the column, when it is a list, are those of `rows` rows.
pub open spec fn is_column(c: VectorColumn, rows: nat) -> bool {
    c matches VectorColumn::Lists { cells, .. } ==> cells@.len() == rows
}

/// A row of a batch: its id, its key, and its vector when it has one.
pub struct VectorRow {
    pub row_id: u64,
    pub pk: PrimaryKey,
    pub vector: Option<Vec<u32>>,
}

/// What a row is.
pub struct VectorRowV {
    pub row_id: u64,
    pub pk: Key,
    pub vector: Option<Seq<u32>>,
}

/// What a vector that may be missing is.
pub open spec fn opt_bits(v: Option<Vec<u32>>) -> Option<Seq<u32>> {
    match v {
        Some(v) => Some(v@),
        None => None,
    }
}

impl View for VectorRow {
    type V = VectorRowV;

    open spec fn view(&self) -> VectorRowV {
        VectorRowV { row_id: self.row_id, pk: self.pk@, vector: opt_bits(self.vector) }
    }
}

/// The message for a column of another length than the schema's.
pub open spec fn length_text(column: Seq<char>, length: nat, dim: nat) -> Seq<char> {
    column + " has "@ + text::decimal(length) + " dimensions, the schema "@ + text::decimal(dim)
}

/// What is wrong with the column of a vector of `dim` numbers.
pub open spec fn vector_problem(c: VectorColumn, column: Seq<char>, dim: nat) -> Option<
    Seq<char>,
> {
    match c {
        VectorColumn::Missing => Some(decode::lacks(column)),
        VectorColumn::NotLists => Some(column + " is not a FixedSizeList"@),
        VectorColumn::NotFloats => Some(column + " is not a list of Float32"@),
        VectorColumn::Lists { length, .. } => if length != dim {
            Some(length_text(column, length as nat, dim))
        } else {
            None
        },
    }
}

/// The first thing wrong with the columns of a batch.
pub open spec fn columns_problem(
    b: Batch,
    s: SystemColumns,
    c: VectorColumn,
    column: Seq<char>,
    dim: nat,
) -> Option<Seq<char>> {
    match decode::u64_problem(b, s.row_id@) {
        Some(m) => Some(m),
        None => match decode::binary_problem(b, s.pk@) {
            Some(m) => Some(m),
            None => vector_problem(c, column, dim),
        },
    }
}

/// The row at a place of a batch whose columns are right, none when its key
/// is not canonical.
pub open spec fn row_at(b: Batch, s: SystemColumns, c: VectorColumn, row: int) -> Option<
    VectorRowV,
> {
    match key::key_in(decode::column_of(b, s.pk@)->0->Binary_0@[row]@) {
        None => None,
        Some(pk) => Some(
            VectorRowV {
                row_id: decode::column_of(b, s.row_id@)->0->U64_0@[row],
                pk,
                vector: opt_bits(c->cells@[row]),
            },
        ),
    }
}

/// The message for a key that is not canonical.
pub open spec fn key_text(pk: Seq<char>) -> Seq<char> {
    pk + ": "@ + "not a canonical key"@
}

fn check_vector<'a>(c: &'a VectorColumn, column: &str, dim: usize) -> (r: Result<
    &'a Vec<Option<Vec<u32>>>,
    ServiceError,
>)
    ensures
        match r {
            Ok(v) => vector_problem(*c, column@, dim as nat) is None && *c is Lists && c->cells == *v,
            Err(e) => vector_problem(*c, column@, dim as nat) matches Some(m) && e@
                == Failure::Internal(m),
        },
{
    match c {
        VectorColumn::Missing => Err(decode::lacking(column)),
        VectorColumn::NotLists => Err(decode::mistyped(column, " is not a FixedSizeList")),
        VectorColumn::NotFloats => Err(decode::mistyped(column, " is not a list of Float32")),
        VectorColumn::Lists { length, cells } => {
            if *length != dim {
                let n = text::dec(*length as u64);
                let d = text::dec(dim as u64);
                let mut m = text::cat3(column, " has ", n.as_str());
                m.append(" dimensions, the schema ");
                m.append(d.as_str());
                Err(ServiceError::Internal(m))
            } else {
                Ok(cells)
            }
        },
    }
}

/// The rows of a batch, in its order; internal for the first thing wrong
/// with its columns, or when a key is not canonical. The vector of `dim`
/// numbers is in `column`, whose cells are `vectors`.
pub fn batch_rows(
    batch: &Batch,
    system: &SystemColumns,
    column: &str,
    vectors: &VectorColumn,
    dim: usize,
) -> (r: Result<Vec<VectorRow>, ServiceError>)
    requires
        decode::is_batch(*batch),
        is_column(*vectors, batch.rows as nat),
    ensures
        match columns_problem(*batch, *system, *vectors, column@, dim as nat) {
            Some(m) => r matches Err(e) && e@ == Failure::Internal(m),
            None => match r {
                Ok(rows) => rows@.len() == batch.rows && forall|i: int|
                    0 <= i < batch.rows ==> row_at(*batch, *system, *vectors, i) == Some(
                        (#[trigger] rows@[i])@,
                    ),
                Err(e) => e@ == Failure::Internal(key_text(system.pk@)) && exists|i: int|
                    0 <= i < batch.rows && (#[trigger] row_at(*batch, *system, *vectors, i)) is None,
            },
        },
{
    let row_ids = match decode::u64_column(batch, system.row_id.as_str()) {
        Ok(v) => v,
        Err(e) => {
            return Err(e);
        },
    };
    let pks = match decode::binary_column(batch, system.pk.as_str()) {
        Ok(v) => v,
        Err(e) => {
            return Err(e);
        },
    };
    let cells = match check_vector(vectors, column, dim) {
        Ok(v) => v,
        Err(e) => {
            return Err(e);
        },
    };
    let mut out: Vec<VectorRow> = Vec::new();
    let mut row: usize = 0;
    while row < batch.rows
        invariant
            row <= batch.rows,
            columns_problem(*batch, *system, *vectors, column@, dim as nat) is None,
            decode::column_of(*batch, system.row_id@) == Some(Column::U64(*row_ids)),
            decode::column_of(*batch, system.pk@) == Some(Column::Binary(*pks)),
            *vectors is Lists,
            vectors->cells == *cells,
            row_ids@.len() == batch.rows,
            pks@.len() == batch.rows,
            cells@.len() == batch.rows,
            out@.len() == row,
            forall|i: int|
                0 <= i < row ==> row_at(*batch, *system, *vectors, i) == Some(
                    (#[trigger] out@[i])@,
                ),
        decreases batch.rows - row,
    {
        let pk = match decode::read_key(&pks[row]) {
            Some(pk) => pk,
            None => {
                assert(row_at(*batch, *system, *vectors, row as int) is None);
                return Err(
                    ServiceError::Internal(
                        text::cat3(system.pk.as_str(), ": ", "not a canonical key"),
                    ),
                );
            },
        };
        let vector = match &cells[row] {
            Some(v) => Some(ir::copy_bits(v)),
            None => None,
        };
        out.push(VectorRow { row_id: row_ids[row], pk, vector });
        row += 1;
    }
    Ok(out)
}

/// Whether a search keeps a row: it has a vector, the mask lets it through
/// when there is one, and it is not shadowed.
pub open spec fn keeps(row: VectorRow, m: Option<RowMask>, shadow: Set<u64>) -> bool {
    &&& row.vector is Some
    &&& m matches Some(m) ==> mask::admitted(m, row.row_id)
    &&& !shadow.contains(row.row_id)
}

/// The kept rows as hits, in order; `scores` are the rows' scores.
pub open spec fn kept_hits(
    rows: Seq<VectorRow>,
    scores: Seq<u32>,
    m: Option<RowMask>,
    shadow: Set<u64>,
) -> Seq<Scored>
    decreases rows.len(),
{
    if rows.len() == 0 {
        Seq::empty()
    } else {
        let before = kept_hits(rows.drop_last(), scores, m, shadow);
        let row = rows.last();
        if keeps(row, m, shadow) {
            before.push(
                Scored { row_id: row.row_id, pk: row.pk, score: scores[rows.len() - 1] },
            )
        } else {
            before
        }
    }
}

/// The rows of a batch that a search keeps, with their scores.
pub fn keep_hits(
    rows: Vec<VectorRow>,
    scores: &Vec<u32>,
    m: &Option<RowMask>,
    shadow: &RoaringTreemap,
) -> (r: Vec<Scored>)
    requires
        scores@.len() == rows@.len(),
    ensures
        r@ == kept_hits(rows@, scores@, *m, mask::treemap_rows(*shadow)),
{
    let ghost all = rows@;
    let ghost dark = mask::treemap_rows(*shadow);
    let mut out: Vec<Scored> = Vec::new();
    let mut i: usize = 0;
    for row in it: rows
        invariant
            it.seq() == all,
            i == it.index(),
            scores@.len() == all.len(),
            dark == mask::treemap_rows(*shadow),
            out@ == kept_hits(all.take(i as int), scores@, *m, dark),
    {
        proof {
            assert(all.take(i as int + 1).drop_last() =~= all.take(i as int));
            assert(all.take(i as int + 1).last() == row);
            assert(i < scores.len());
        }
        let admitted = match m {
            Some(m) => m.admits(row.row_id),
            None => true,
        };
        if row.vector.is_some() && admitted && !mask::has_row(shadow, row.row_id) {
            out.push(Scored { row_id: row.row_id, pk: row.pk, score: scores[i] });
        }
        i += 1;
    }
    proof {
        assert(all.take(all.len() as int) =~= all);
    }
    out
}

/// The rows that a hot artifact returned and that the filter allows, each
/// once, ascending.
pub fn hot_rows(returned: Vec<u64>, allowed: &Option<RoaringTreemap>) -> (r: Vec<u64>)
    ensures
        mask::ascending(r@),
        forall|row: u64|
            r@.contains(row) <==> returned@.contains(row) && (ann::allowed_rows(
                *allowed,
            ) matches Some(rows) ==> rows.contains(row)),
{
    let rows = doc_fetch::distinct_rows(returned);
    match allowed {
        None => rows,
        Some(t) => {
            let ghost set = mask::treemap_rows(*t);
            let mut out: Vec<u64> = Vec::new();
            let mut i: usize = 0;
            while i < rows.len()
                invariant
                    i <= rows@.len(),
                    set == mask::treemap_rows(*t),
                    mask::ascending(rows@),
                    mask::ascending(out@),
                    forall|j: int|
                        0 <= j < out@.len() ==> set.contains(#[trigger] out@[j])
                            && rows@.take(i as int).contains(out@[j]),
                    forall|j: int|
                        0 <= j < i && set.contains(rows@[j]) ==> out@.contains(#[trigger] rows@[j]),
                decreases rows.len() - i,
            {
                let row: u64 = rows[i];
                let ghost was = out@;
                if mask::has_row(t, row) {
                    out.push(row);
                }
                proof {
                    let before = rows@.take(i as int);
                    let now = rows@.take(i as int + 1);
                    assert(now[i as int] == row);
                    assert forall|j: int| 0 <= j < out@.len() implies set.contains(
                        #[trigger] out@[j],
                    ) && now.contains(out@[j]) by {
                        if j < was.len() {
                            assert(out@[j] == was[j]);
                            let k = choose|k: int| 0 <= k < before.len() && before[k] == was[j];
                            assert(now[k] == was[j]);
                        }
                    }
                    assert forall|a: int, b: int| 0 <= a < b < out@.len() implies #[trigger] out@[a]
                        < #[trigger] out@[b] by {
                        assert(out@[a] == was[a]);
                        if b == was.len() {
                            let k = choose|k: int| 0 <= k < before.len() && before[k] == was[a];
                            assert(rows@[k] < rows@[i as int]);
                        } else {
                            assert(out@[b] == was[b]);
                        }
                    }
                    assert forall|j: int|
                        0 <= j < i + 1 && set.contains(rows@[j]) implies out@.contains(
                        #[trigger] rows@[j],
                    ) by {
                        if j < i {
                            assert(was.contains(rows@[j]));
                            let k = choose|k: int| 0 <= k < was.len() && was[k] == rows@[j];
                            assert(out@[k] == rows@[j]);
                        } else {
                            assert(out@[was.len() as int] == row);
                        }
                    }
                }
                i += 1;
            }
            proof {
                assert(rows@.take(rows@.len() as int) =~= rows@);
                assert forall|row: u64|
                    out@.contains(row) <==> rows@.contains(row) && set.contains(row) by {
                    if rows@.contains(row) && set.contains(row) {
                        let k = choose|k: int| 0 <= k < rows@.len() && rows@[k] == row;
                        assert(out@.contains(rows@[k]));
                    }
                }
            }
            out
        },
    }
}

} // verus!
