//! Fetched rows out of a read batch.

use crate::collection;
use crate::error::{Failure, ServiceError};
use crate::exec::doc_fetch;
use crate::exec::doc_fetch::{
    Batch, Column, DenseCell, FetchedRow, FetchedV, LanceColumns, ListCell, SparseCell,
    SystemColumns,
};
use crate::exec::project;
use crate::ir;
use crate::ir::{SparseV, SparseVector};
use crate::json::entries;
use crate::json::value;
use crate::json::value::Tree;
use crate::key;
use crate::key::PrimaryKey;
use crate::text;
use vstd::prelude::*;
use vstd::string::*;

verus! {

/// The first column of a name among the last ones from `from` on.
pub open spec fn column_from(b: Batch, name: Seq<char>, from: int) -> Option<Column>
    decreases b.columns@.len() - from,
{
    if from < 0 || from >= b.columns@.len() {
        None
    } else if b.columns@[from].0@ == name {
        Some(b.columns@[from].1)
    } else {
        column_from(b, name, from + 1)
    }
}

/// The first column of a name.
pub open spec fn column_of(b: Batch, name: Seq<char>) -> Option<Column> {
    column_from(b, name, 0)
}

/// How many cells a column has.
pub open spec fn cells(c: Column) -> nat {
    match c {
        Column::U64(v) => v@.len(),
        Column::U32(v) => v@.len(),
        Column::Binary(v) => v@.len(),
        Column::Sources(v) => v@.len(),
        Column::Dense(v) => v@.len(),
        Column::Sparse(v) => v@.len(),
        Column::Other => 0,
    }
}

/// Every column of a batch whose type is known has a cell for every row.
pub open spec fn is_batch(b: Batch) -> bool {
    forall|i: int|
        0 <= i < b.columns@.len() && !((#[trigger] b.columns@[i]).1 is Other) ==> cells(
            b.columns@[i].1,
        ) == b.rows
}

fn find_column<'a>(b: &'a Batch, name: &str) -> (r: Option<&'a Column>)
    requires
        is_batch(*b),
    ensures
        match r {
            Some(c) => column_of(*b, name@) == Some(*c) && (!(c is Other) ==> cells(*c) == b.rows),
            None => column_of(*b, name@) is None,
        },
{
    let mut i: usize = 0;
    while i < b.columns.len()
        invariant
            i <= b.columns@.len(),
            is_batch(*b),
            column_of(*b, name@) == column_from(*b, name@, i as int),
        decreases b.columns.len() - i,
    {
        if text::same(b.columns[i].0.as_str(), name) {
            return Some(&b.columns[i].1);
        }
        i += 1;
    }
    None
}

/// The message for a missing column.
pub open spec fn lacks(name: Seq<char>) -> Seq<char> {
    "a Lance batch lacks "@ + name
}

/// What is wrong with a column that is to hold 64-bit numbers.
pub open spec fn u64_problem(b: Batch, name: Seq<char>) -> Option<Seq<char>> {
    match column_of(b, name) {
        None => Some(lacks(name)),
        Some(Column::U64(_)) => None,
        Some(_) => Some(name + " is not UInt64"@),
    }
}

/// What is wrong with a column that is to hold 32-bit numbers.
pub open spec fn u32_problem(b: Batch, name: Seq<char>) -> Option<Seq<char>> {
    match column_of(b, name) {
        None => Some(lacks(name)),
        Some(Column::U32(_)) => None,
        Some(_) => Some(name + " is not UInt32"@),
    }
}

/// What is wrong with a column that is to hold bytes.
pub open spec fn binary_problem(b: Batch, name: Seq<char>) -> Option<Seq<char>> {
    match column_of(b, name) {
        None => Some(lacks(name)),
        Some(Column::Binary(_)) => None,
        Some(_) => Some(name + " is not Binary"@),
    }
}

/// What is wrong with a column that is to hold sources.
pub open spec fn sources_problem(b: Batch, name: Seq<char>) -> Option<Seq<char>> {
    match column_of(b, name) {
        None => Some(lacks(name)),
        Some(Column::Sources(_)) => None,
        Some(_) => Some(name + " is not Binary"@),
    }
}

/// The first missing one of the first `n` dense columns.
pub open spec fn dense_problem(b: Batch, dense: Seq<(Seq<char>, Seq<char>)>, n: int) -> Option<
    Seq<char>,
>
    decreases n,
{
    if n <= 0 {
        None
    } else {
        match dense_problem(b, dense, n - 1) {
            Some(m) => Some(m),
            None => if column_of(b, dense[n - 1].0) is None {
                Some(lacks(dense[n - 1].0))
            } else {
                None
            },
        }
    }
}

/// The first thing wrong with the first `n` sparse columns.
pub open spec fn sparse_problem(b: Batch, sparse: Seq<(Seq<char>, Seq<char>)>, n: int) -> Option<
    Seq<char>,
>
    decreases n,
{
    if n <= 0 {
        None
    } else {
        match sparse_problem(b, sparse, n - 1) {
            Some(m) => Some(m),
            None => match column_of(b, sparse[n - 1].0) {
                None => Some(lacks(sparse[n - 1].0)),
                Some(Column::Sparse(_)) => None,
                Some(_) => Some(sparse[n - 1].0 + " is not a Struct"@),
            },
        }
    }
}

/// One problem, else the next.
pub open spec fn or_else(a: Option<Seq<char>>, b: Option<Seq<char>>) -> Option<Seq<char>> {
    match a {
        Some(m) => Some(m),
        None => b,
    }
}

/// The first thing wrong with the columns of a batch.
pub open spec fn batch_problem(b: Batch, c: LanceColumns, s: SystemColumns) -> Option<Seq<char>> {
    let dense = collection::pair_views(c.dense@);
    let sparse = collection::pair_views(c.sparse@);
    or_else(
        u64_problem(b, s.row_id@),
        or_else(
            binary_problem(b, s.pk@),
            or_else(
                if c.source {
                    sources_problem(b, s.source@)
                } else {
                    None
                },
                or_else(
                    u32_problem(b, s.partition@),
                    or_else(
                        u64_problem(b, s.offset@),
                        or_else(
                            dense_problem(b, dense, dense.len() as int),
                            sparse_problem(b, sparse, sparse.len() as int),
                        ),
                    ),
                ),
            ),
        ),
    )
}

/// A dense cell at a row: none, floats, or what is wrong.
pub open spec fn dense_cell(c: Column, column: Seq<char>, row: int) -> Result<
    Option<Seq<u32>>,
    Seq<char>,
> {
    match c {
        Column::Dense(v) => match v@[row] {
            None => Ok(None),
            Some(DenseCell::Floats(f)) => Ok(Some(f@)),
            Some(DenseCell::Other) => Err(column + " is not a list of Float32"@),
        },
        _ => Err(column + " is not a FixedSizeList"@),
    }
}

/// The vectors of the first `n` dense columns at a row, by name.
pub open spec fn dense_row(b: Batch, dense: Seq<(Seq<char>, Seq<char>)>, row: int, n: int) -> Result<
    Seq<(Seq<char>, Seq<u32>)>,
    Seq<char>,
>
    decreases n,
{
    if n <= 0 {
        Ok(Seq::empty())
    } else {
        match dense_row(b, dense, row, n - 1) {
            Err(m) => Err(m),
            Ok(before) => match dense_cell(column_of(b, dense[n - 1].0)->0, dense[n - 1].0, row) {
                Err(m) => Err(m),
                Ok(None) => Ok(before),
                Ok(Some(v)) => Ok(entries::put_by_name(before, dense[n - 1].1, v)),
            },
        }
    }
}

/// A sparse cell: none, a vector, or what is wrong.
pub open spec fn sparse_cell(c: Option<SparseCell>) -> Result<Option<SparseV>, Seq<char>> {
    match c {
        None => Ok(None),
        Some(cell) => if cell.indices is Missing {
            Err("a sparse column lacks list indices"@)
        } else if cell.values is Missing {
            Err("a sparse column lacks list values"@)
        } else if cell.indices is Other {
            Err("sparse indices are not UInt32"@)
        } else if cell.values is Other {
            Err("sparse values are not Float32"@)
        } else {
            match cell.built {
                Ok(v) => Ok(Some(v@)),
                Err(why) => Err("a stored sparse vector: "@ + why@),
            }
        },
    }
}

/// The cell of a sparse column at a row.
pub open spec fn sparse_at(c: Column, row: int) -> Option<SparseCell> {
    match c {
        Column::Sparse(v) => v@[row],
        _ => None,
    }
}

/// The vectors of the first `n` sparse columns at a row, by name.
pub open spec fn sparse_row(
    b: Batch,
    sparse: Seq<(Seq<char>, Seq<char>)>,
    row: int,
    n: int,
) -> Result<Seq<(Seq<char>, SparseV)>, Seq<char>>
    decreases n,
{
    if n <= 0 {
        Ok(Seq::empty())
    } else {
        match sparse_row(b, sparse, row, n - 1) {
            Err(m) => Err(m),
            Ok(before) => match sparse_cell(sparse_at(column_of(b, sparse[n - 1].0)->0, row)) {
                Err(m) => Err(m),
                Ok(None) => Ok(before),
                Ok(Some(v)) => Ok(entries::put_by_name(before, sparse[n - 1].1, v)),
            },
        }
    }
}

/// The vectors of a row that is decoded stand in the order of their names.
pub proof fn decoded_are_by_name(
    b: Batch,
    dense: Seq<(Seq<char>, Seq<char>)>,
    sparse: Seq<(Seq<char>, Seq<char>)>,
    row: int,
    n: int,
)
    ensures
        dense_row(b, dense, row, n) matches Ok(v) ==> entries::by_name(v),
        sparse_row(b, sparse, row, n) matches Ok(v) ==> entries::by_name(v),
    decreases n,
{
    if n > 0 {
        decoded_are_by_name(b, dense, sparse, row, n - 1);
        if let Ok(before) = dense_row(b, dense, row, n - 1) {
            if let Ok(Some(v)) = dense_cell(column_of(b, dense[n - 1].0)->0, dense[n - 1].0, row) {
                entries::puts_keep_the_order(before, dense[n - 1].1, v);
            }
        }
        if let Ok(before) = sparse_row(b, sparse, row, n - 1) {
            if let Ok(Some(v)) = sparse_cell(sparse_at(column_of(b, sparse[n - 1].0)->0, row)) {
                entries::puts_keep_the_order(before, sparse[n - 1].1, v);
            }
        }
    }
}

/// A message on a column at a row.
pub open spec fn at_row(column: Seq<char>, row_id: u64, why: Seq<char>) -> Seq<char> {
    column + " of row "@ + text::decimal(row_id as nat) + ": "@ + why
}

/// The source at a row.
pub open spec fn source_row(b: Batch, name: Seq<char>, row: int) -> Result<
    Seq<(Seq<char>, Tree)>,
    Seq<char>,
> {
    match column_of(b, name) {
        Some(Column::Sources(v)) => match v@[row] {
            Ok(s) => Ok(value::entries_of(s@)),
            Err(why) => Err(why@),
        },
        _ => Err(Seq::empty()),
    }
}

/// A row of a batch without problems: its document, or what is wrong.
pub open spec fn decoded_row(b: Batch, c: LanceColumns, s: SystemColumns, row: int) -> Result<
    FetchedV,
    Seq<char>,
> {
    let id = column_of(b, s.row_id@)->0->U64_0@[row];
    let dense = collection::pair_views(c.dense@);
    let sparse = collection::pair_views(c.sparse@);
    match key::key_in(column_of(b, s.pk@)->0->Binary_0@[row]@) {
        None => Err(at_row(s.pk@, id, "not a canonical key"@)),
        Some(pk) => if c.source && source_row(b, s.source@, row) is Err {
            Err(at_row(s.source@, id, source_row(b, s.source@, row)->Err_0))
        } else {
            match dense_row(b, dense, row, dense.len() as int) {
                Err(m) => Err(m),
                Ok(vectors) => match sparse_row(b, sparse, row, sparse.len() as int) {
                    Err(m) => Err(m),
                    Ok(sparse_vectors) => Ok(
                        FetchedV {
                            row_id: id,
                            pk,
                            source: if c.source {
                                Some(source_row(b, s.source@, row)->Ok_0)
                            } else {
                                None
                            },
                            vectors,
                            sparse_vectors,
                            seq_no: column_of(b, s.offset@)->0->U64_0@[row],
                            partition: column_of(b, s.partition@)->0->U32_0@[row],
                        },
                    ),
                },
            }
        },
    }
}

pub(crate) fn lacking(name: &str) -> (r: ServiceError)
    ensures
        r@ == Failure::Internal(lacks(name@)),
{
    ServiceError::Internal(text::cat2("a Lance batch lacks ", name))
}

pub(crate) fn mistyped(name: &str, what: &str) -> (r: ServiceError)
    ensures
        r@ == Failure::Internal(name@ + what@),
{
    ServiceError::Internal(text::cat2(name, what))
}

pub(crate) fn u64_column<'a>(b: &'a Batch, name: &str) -> (r: Result<&'a Vec<u64>, ServiceError>)
    requires
        is_batch(*b),
    ensures
        match r {
            Ok(v) => column_of(*b, name@) matches Some(c) && c == Column::U64(*v) && v@.len()
                == b.rows && u64_problem(*b, name@) is None,
            Err(e) => u64_problem(*b, name@) matches Some(m) && e@ == Failure::Internal(m),
        },
{
    match find_column(b, name) {
        None => Err(lacking(name)),
        Some(Column::U64(v)) => Ok(v),
        Some(_) => Err(mistyped(name, " is not UInt64")),
    }
}

fn u32_column<'a>(b: &'a Batch, name: &str) -> (r: Result<&'a Vec<u32>, ServiceError>)
    requires
        is_batch(*b),
    ensures
        match r {
            Ok(v) => column_of(*b, name@) matches Some(c) && c == Column::U32(*v) && v@.len()
                == b.rows && u32_problem(*b, name@) is None,
            Err(e) => u32_problem(*b, name@) matches Some(m) && e@ == Failure::Internal(m),
        },
{
    match find_column(b, name) {
        None => Err(lacking(name)),
        Some(Column::U32(v)) => Ok(v),
        Some(_) => Err(mistyped(name, " is not UInt32")),
    }
}

pub(crate) fn binary_column<'a>(b: &'a Batch, name: &str) -> (r: Result<&'a Vec<Vec<u8>>, ServiceError>)
    requires
        is_batch(*b),
    ensures
        match r {
            Ok(v) => column_of(*b, name@) matches Some(c) && c == Column::Binary(*v) && v@.len()
                == b.rows && binary_problem(*b, name@) is None,
            Err(e) => binary_problem(*b, name@) matches Some(m) && e@ == Failure::Internal(m),
        },
{
    match find_column(b, name) {
        None => Err(lacking(name)),
        Some(Column::Binary(v)) => Ok(v),
        Some(_) => Err(mistyped(name, " is not Binary")),
    }
}

fn check_sources(b: &Batch, name: &str) -> (r: Result<(), ServiceError>)
    requires
        is_batch(*b),
    ensures
        match r {
            Ok(_) => sources_problem(*b, name@) is None && cells(column_of(*b, name@)->0)
                == b.rows,
            Err(e) => sources_problem(*b, name@) matches Some(m) && e@ == Failure::Internal(m),
        },
{
    match find_column(b, name) {
        None => Err(lacking(name)),
        Some(Column::Sources(_)) => Ok(()),
        Some(_) => Err(mistyped(name, " is not Binary")),
    }
}

fn check_vectors(b: &Batch, c: &LanceColumns) -> (r: Result<(), ServiceError>)
    requires
        is_batch(*b),
    ensures
        ({
            let dense = collection::pair_views(c.dense@);
            let sparse = collection::pair_views(c.sparse@);
            let problem = or_else(
                dense_problem(*b, dense, dense.len() as int),
                sparse_problem(*b, sparse, sparse.len() as int),
            );
            match r {
                Ok(_) => problem is None,
                Err(e) => problem matches Some(m) && e@ == Failure::Internal(m),
            }
        }),
{
    let ghost dense = collection::pair_views(c.dense@);
    let ghost sparse = collection::pair_views(c.sparse@);
    let mut i: usize = 0;
    while i < c.dense.len()
        invariant
            i <= c.dense@.len(),
            is_batch(*b),
            dense == collection::pair_views(c.dense@),
            dense_problem(*b, dense, i as int) is None,
        decreases c.dense.len() - i,
    {
        assert(dense[i as int].0 == c.dense@[i as int].0@);
        if find_column(b, c.dense[i].0.as_str()).is_none() {
            proof {
                problems_stay(*b, dense, sparse, i as int + 1, 0);
            }
            return Err(lacking(c.dense[i].0.as_str()));
        }
        i += 1;
    }
    let mut j: usize = 0;
    while j < c.sparse.len()
        invariant
            j <= c.sparse@.len(),
            is_batch(*b),
            dense == collection::pair_views(c.dense@),
            sparse == collection::pair_views(c.sparse@),
            dense_problem(*b, dense, dense.len() as int) is None,
            sparse_problem(*b, sparse, j as int) is None,
        decreases c.sparse.len() - j,
    {
        assert(sparse[j as int].0 == c.sparse@[j as int].0@);
        let name = c.sparse[j].0.as_str();
        match find_column(b, name) {
            None => {
                proof {
                    problems_stay(*b, dense, sparse, 0, j as int + 1);
                }
                return Err(lacking(name));
            },
            Some(Column::Sparse(_)) => {},
            Some(_) => {
                proof {
                    problems_stay(*b, dense, sparse, 0, j as int + 1);
                }
                return Err(mistyped(name, " is not a Struct"));
            },
        }
        j += 1;
    }
    Ok(())
}

proof fn problems_stay(
    b: Batch,
    dense: Seq<(Seq<char>, Seq<char>)>,
    sparse: Seq<(Seq<char>, Seq<char>)>,
    i: int,
    j: int,
)
    requires
        0 <= i <= dense.len(),
        0 <= j <= sparse.len(),
    ensures
        dense_problem(b, dense, i) is Some ==> dense_problem(b, dense, dense.len() as int)
            == dense_problem(b, dense, i),
        sparse_problem(b, sparse, j) is Some ==> sparse_problem(b, sparse, sparse.len() as int)
            == sparse_problem(b, sparse, j),
    decreases dense.len() - i + sparse.len() - j,
{
    if i < dense.len() {
        problems_stay(b, dense, sparse, i + 1, j);
    } else if j < sparse.len() {
        problems_stay(b, dense, sparse, i, j + 1);
    }
}

proof fn row_problems_stay(
    b: Batch,
    dense: Seq<(Seq<char>, Seq<char>)>,
    sparse: Seq<(Seq<char>, Seq<char>)>,
    row: int,
    i: int,
    j: int,
)
    requires
        0 <= i <= dense.len(),
        0 <= j <= sparse.len(),
    ensures
        dense_row(b, dense, row, i) is Err ==> dense_row(b, dense, row, dense.len() as int)
            == dense_row(b, dense, row, i),
        sparse_row(b, sparse, row, j) is Err ==> sparse_row(b, sparse, row, sparse.len() as int)
            == sparse_row(b, sparse, row, j),
    decreases dense.len() - i + sparse.len() - j,
{
    if i < dense.len() {
        row_problems_stay(b, dense, sparse, row, i + 1, j);
    } else if j < sparse.len() {
        row_problems_stay(b, dense, sparse, row, i, j + 1);
    }
}

proof fn columns_are_there(
    b: Batch,
    dense: Seq<(Seq<char>, Seq<char>)>,
    sparse: Seq<(Seq<char>, Seq<char>)>,
    i: int,
    j: int,
)
    requires
        dense_problem(b, dense, dense.len() as int) is None,
        sparse_problem(b, sparse, sparse.len() as int) is None,
    ensures
        0 <= i < dense.len() ==> column_of(b, dense[i].0) is Some,
        0 <= j < sparse.len() ==> (column_of(b, sparse[j].0) matches Some(c) && c is Sparse),
{
    if 0 <= i < dense.len() {
        problems_stay(b, dense, sparse, i + 1, 0);
    }
    if 0 <= j < sparse.len() {
        problems_stay(b, dense, sparse, 0, j + 1);
    }
}

fn read_dense(b: &Batch, c: &LanceColumns, row: usize) -> (r: Result<
    Vec<(String, Vec<u32>)>,
    ServiceError,
>)
    requires
        is_batch(*b),
        row < b.rows,
        dense_problem(*b, collection::pair_views(c.dense@), c.dense@.len() as int) is None,
    ensures
        ({
            let dense = collection::pair_views(c.dense@);
            match (r, dense_row(*b, dense, row as int, dense.len() as int)) {
                (Ok(v), Ok(want)) => doc_fetch::dense_views(v@) == want,
                (Err(e), Err(m)) => e@ == Failure::Internal(m),
                _ => false,
            }
        }),
{
    let ghost dense = collection::pair_views(c.dense@);
    let ghost none = Seq::<(Seq<char>, Seq<char>)>::empty();
    let mut out: Vec<(String, Vec<u32>)> = Vec::new();
    let mut i: usize = 0;
    proof {
        assert(doc_fetch::dense_views(out@) =~= Seq::empty());
    }
    while i < c.dense.len()
        invariant
            i <= c.dense@.len(),
            is_batch(*b),
            row < b.rows,
            dense == collection::pair_views(c.dense@),
            none == Seq::<(Seq<char>, Seq<char>)>::empty(),
            dense_problem(*b, dense, dense.len() as int) is None,
            dense_row(*b, dense, row as int, i as int) == Ok::<
                Seq<(Seq<char>, Seq<u32>)>,
                Seq<char>,
            >(doc_fetch::dense_views(out@)),
        decreases c.dense.len() - i,
    {
        proof {
            columns_are_there(*b, dense, none, i as int, 0);
            assert(dense[i as int] == (c.dense@[i as int].0@, c.dense@[i as int].1@));
        }
        let column = c.dense[i].0.as_str();
        match find_column(b, column) {
            Some(Column::Dense(v)) => {
                match &v[row] {
                    None => {},
                    Some(DenseCell::Floats(f)) => {
                        doc_fetch::put_dense(&mut out, c.dense[i].1.as_str(), ir::copy_bits(f));
                    },
                    Some(DenseCell::Other) => {
                        proof {
                            row_problems_stay(*b, dense, none, row as int, i as int + 1, 0);
                        }
                        return Err(mistyped(column, " is not a list of Float32"));
                    },
                }
            },
            _ => {
                proof {
                    row_problems_stay(*b, dense, none, row as int, i as int + 1, 0);
                }
                return Err(mistyped(column, " is not a FixedSizeList"));
            },
        }
        i += 1;
    }
    Ok(out)
}

fn read_sparse_cell(cell: &Option<SparseCell>) -> (r: Result<Option<SparseVector>, ServiceError>)
    ensures
        match (r, sparse_cell(*cell)) {
            (Ok(None), Ok(None)) => true,
            (Ok(Some(v)), Ok(Some(want))) => v@ == want,
            (Err(e), Err(m)) => e@ == Failure::Internal(m),
            _ => false,
        },
{
    match cell {
        None => Ok(None),
        Some(cell) => {
            if cell.indices == ListCell::Missing {
                Err(ServiceError::Internal("a sparse column lacks list indices".to_owned()))
            } else if cell.values == ListCell::Missing {
                Err(ServiceError::Internal("a sparse column lacks list values".to_owned()))
            } else if cell.indices == ListCell::Other {
                Err(ServiceError::Internal("sparse indices are not UInt32".to_owned()))
            } else if cell.values == ListCell::Other {
                Err(ServiceError::Internal("sparse values are not Float32".to_owned()))
            } else {
                match &cell.built {
                    Ok(v) => Ok(Some(v.copy())),
                    Err(why) => Err(
                        ServiceError::Internal(
                            text::cat2("a stored sparse vector: ", why.as_str()),
                        ),
                    ),
                }
            }
        },
    }
}

fn read_sparse(b: &Batch, c: &LanceColumns, row: usize) -> (r: Result<
    Vec<(String, SparseVector)>,
    ServiceError,
>)
    requires
        is_batch(*b),
        row < b.rows,
        sparse_problem(*b, collection::pair_views(c.sparse@), c.sparse@.len() as int) is None,
    ensures
        ({
            let sparse = collection::pair_views(c.sparse@);
            match (r, sparse_row(*b, sparse, row as int, sparse.len() as int)) {
                (Ok(v), Ok(want)) => doc_fetch::sparse_views(v@) == want,
                (Err(e), Err(m)) => e@ == Failure::Internal(m),
                _ => false,
            }
        }),
{
    let ghost sparse = collection::pair_views(c.sparse@);
    let ghost none = Seq::<(Seq<char>, Seq<char>)>::empty();
    let mut out: Vec<(String, SparseVector)> = Vec::new();
    let mut i: usize = 0;
    proof {
        assert(doc_fetch::sparse_views(out@) =~= Seq::empty());
    }
    while i < c.sparse.len()
        invariant
            i <= c.sparse@.len(),
            is_batch(*b),
            row < b.rows,
            sparse == collection::pair_views(c.sparse@),
            none == Seq::<(Seq<char>, Seq<char>)>::empty(),
            sparse_problem(*b, sparse, sparse.len() as int) is None,
            sparse_row(*b, sparse, row as int, i as int) == Ok::<
                Seq<(Seq<char>, SparseV)>,
                Seq<char>,
            >(doc_fetch::sparse_views(out@)),
        decreases c.sparse.len() - i,
    {
        proof {
            columns_are_there(*b, none, sparse, 0, i as int);
            assert(sparse[i as int] == (c.sparse@[i as int].0@, c.sparse@[i as int].1@));
        }
        match find_column(b, c.sparse[i].0.as_str()) {
            Some(Column::Sparse(v)) => {
                match read_sparse_cell(&v[row]) {
                    Ok(None) => {},
                    Ok(Some(x)) => {
                        doc_fetch::put_sparse(&mut out, c.sparse[i].1.as_str(), x);
                    },
                    Err(e) => {
                        proof {
                            row_problems_stay(*b, none, sparse, row as int, 0, i as int + 1);
                        }
                        return Err(e);
                    },
                }
            },
            _ => {},
        }
        i += 1;
    }
    Ok(out)
}

fn row_error(column: &str, row_id: u64, why: &str) -> (r: ServiceError)
    ensures
        r@ == Failure::Internal(at_row(column@, row_id, why@)),
{
    let n = text::dec(row_id);
    let mut m = text::cat3(column, " of row ", n.as_str());
    m.append(": ");
    m.append(why);
    ServiceError::Internal(m)
}

pub(crate) fn read_key(bytes: &Vec<u8>) -> (r: Option<PrimaryKey>)
    ensures
        match r {
            Some(k) => key::key_in(bytes@) == Some(k@),
            None => key::key_in(bytes@) is None,
        },
{
    match PrimaryKey::from_canonical(bytes.as_slice()) {
        Some(k) => {
            proof {
                key::key_in_is(bytes@, k@);
            }
            Some(k)
        },
        None => None,
    }
}

/// What `decode` returns: the rows of a batch in its order; else the first
/// thing wrong with its columns, or with its first bad row.
pub open spec fn decodes(
    b: Batch,
    c: LanceColumns,
    s: SystemColumns,
    r: Result<Vec<FetchedRow>, ServiceError>,
) -> bool {
    match r {
        Ok(rows) => {
            &&& batch_problem(b, c, s) is None
            &&& rows@.len() == b.rows
            &&& forall|i: int|
                0 <= i < b.rows ==> decoded_row(b, c, s, i) == Ok::<FetchedV, Seq<char>>(
                    (#[trigger] rows@[i])@,
                )
        },
        Err(e) => match batch_problem(b, c, s) {
            Some(m) => e@ == Failure::Internal(m),
            None => exists|i: int|
                0 <= i < b.rows && (#[trigger] decoded_row(b, c, s, i) matches Err(m) && e@
                    == Failure::Internal(m)) && forall|j: int|
                    0 <= j < i ==> (#[trigger] decoded_row(b, c, s, j)) is Ok,
        },
    }
}

impl LanceColumns {
    /// The rows of a batch read with these columns, in its order.
    pub fn decode(&self, batch: &Batch, system: &SystemColumns) -> (r: Result<
        Vec<FetchedRow>,
        ServiceError,
    >)
        requires
            is_batch(*batch),
        ensures
            decodes(*batch, *self, *system, r),
    {
        let row_ids = match u64_column(batch, system.row_id.as_str()) {
            Ok(v) => v,
            Err(e) => {
                return Err(e);
            },
        };
        let pks = match binary_column(batch, system.pk.as_str()) {
            Ok(v) => v,
            Err(e) => {
                return Err(e);
            },
        };
        if self.source {
            match check_sources(batch, system.source.as_str()) {
                Ok(_) => {},
                Err(e) => {
                    return Err(e);
                },
            }
        }
        let partitions = match u32_column(batch, system.partition.as_str()) {
            Ok(v) => v,
            Err(e) => {
                return Err(e);
            },
        };
        let offsets = match u64_column(batch, system.offset.as_str()) {
            Ok(v) => v,
            Err(e) => {
                return Err(e);
            },
        };
        match check_vectors(batch, self) {
            Ok(_) => {},
            Err(e) => {
                return Err(e);
            },
        }
        assert(batch_problem(*batch, *self, *system) is None);
        let mut out: Vec<FetchedRow> = Vec::new();
        let mut row: usize = 0;
        while row < batch.rows
            invariant
                row <= batch.rows,
                is_batch(*batch),
                batch_problem(*batch, *self, *system) is None,
                self.source ==> cells(column_of(*batch, system.source@)->0) == batch.rows,
                column_of(*batch, system.row_id@) == Some(Column::U64(*row_ids)),
                column_of(*batch, system.pk@) == Some(Column::Binary(*pks)),
                column_of(*batch, system.partition@) == Some(Column::U32(*partitions)),
                column_of(*batch, system.offset@) == Some(Column::U64(*offsets)),
                row_ids@.len() == batch.rows,
                pks@.len() == batch.rows,
                partitions@.len() == batch.rows,
                offsets@.len() == batch.rows,
                out@.len() == row,
                forall|i: int|
                    0 <= i < row ==> decoded_row(*batch, *self, *system, i) == Ok::<
                        FetchedV,
                        Seq<char>,
                    >((#[trigger] out@[i])@),
            decreases batch.rows - row,
        {
            proof {
                assert forall|j: int| 0 <= j < row implies (#[trigger] decoded_row(
                    *batch,
                    *self,
                    *system,
                    j,
                )) is Ok by {
                    let x = out@[j];
                }
            }
            let row_id: u64 = row_ids[row];
            let pk = match read_key(&pks[row]) {
                Some(pk) => pk,
                None => {
                    assert(decoded_row(*batch, *self, *system, row as int) is Err);
                    return Err(row_error(system.pk.as_str(), row_id, "not a canonical key"));
                },
            };
            let source = if self.source {
                match find_column(batch, system.source.as_str()) {
                    Some(Column::Sources(v)) => match &v[row] {
                        Ok(s) => Some(project::copy_entries(s)),
                        Err(why) => {
                            assert(decoded_row(*batch, *self, *system, row as int) is Err);
                            return Err(row_error(system.source.as_str(), row_id, why.as_str()));
                        },
                    },
                    _ => None,
                }
            } else {
                None
            };
            let vectors = match read_dense(batch, self, row) {
                Ok(v) => v,
                Err(e) => {
                    assert(decoded_row(*batch, *self, *system, row as int) is Err);
                    return Err(e);
                },
            };
            let sparse_vectors = match read_sparse(batch, self, row) {
                Ok(v) => v,
                Err(e) => {
                    assert(decoded_row(*batch, *self, *system, row as int) is Err);
                    return Err(e);
                },
            };
            out.push(
                FetchedRow {
                    row_id,
                    pk,
                    source,
                    vectors,
                    sparse_vectors,
                    seq_no: offsets[row],
                    partition: partitions[row],
                },
            );
            row += 1;
        }
        Ok(out)
    }
}

} // verus!
