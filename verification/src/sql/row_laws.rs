//! What a table shows: each row in each column, what the column is named
//! for.

use crate::collection::SchemaV;
use crate::error::Failure;
use crate::exec::doc_fetch;
use crate::exec::project;
use crate::exec::project::IndexValue;
use crate::json::value;
use crate::json::value::Tree;
use crate::sql::rows;
use crate::sql::rows::{CellV, Column, ColumnType, SqlRow};
use vstd::prelude::*;
use vstd::string::*;

verus! {

/// Whether a cell is of a column's type.
pub open spec fn is_of(cell: CellV, t: ColumnType) -> bool {
    match t {
        ColumnType::Utf8 => cell is Text,
        ColumnType::UInt64 => cell is UInt64,
        ColumnType::UInt32 => cell is UInt32,
        ColumnType::Int64 => cell is Int64,
        ColumnType::Float32 => cell is Float32,
        ColumnType::Float64 => cell is Float64,
        ColumnType::Boolean => cell is Boolean,
        ColumnType::Millis => cell is Millis,
        ColumnType::Vector(_) => cell is Vector,
        ColumnType::Sparse(_) => cell is Sparse,
    }
}

/// Whether a cell shows a value: the same number, truth value, moment or
/// text, a UUID by its text; and a null for none.
pub open spec fn shows_value(cell: CellV, first: Option<IndexValue>) -> bool {
    match cell {
        CellV::Int64(c) => c == match first {
            Some(IndexValue::I64(n)) => Some(n),
            _ => None,
        },
        CellV::Float64(c) => c == match first {
            Some(IndexValue::F64(b)) => Some(b),
            _ => None,
        },
        CellV::Boolean(c) => c == match first {
            Some(IndexValue::Bool(b)) => Some(b),
            _ => None,
        },
        CellV::Millis(c) => c == match first {
            Some(IndexValue::Date(ms)) => Some(ms),
            _ => None,
        },
        CellV::Text(c) => c == match first {
            Some(IndexValue::Text(s)) => Some(s@),
            Some(IndexValue::Keyword(s)) => Some(s@),
            Some(IndexValue::Uuid(b)) => Some(crate::json::pk::uuid_text(b@)),
            _ => None,
        },
        _ => false,
    }
}

/// Whether a cell shows what a column of a name is for.
pub open spec fn shows(
    s: SchemaV,
    place: int,
    with_score: bool,
    row: SqlRow,
    cell: CellV,
) -> bool {
    let (column, field) = rows::columns_on(s, with_score)[place];
    let fixed: int = if with_score {
        5
    } else {
        4
    };
    &&& is_of(cell, field.data_type)
    &&& field.name == "_id"@ && place < fixed ==> (row.pk matches Some(k) ==> cell == CellV::Text(
        Some(rows::key_text(k@)),
    ))
    &&& field.name == "_score"@ && place < fixed ==> (row.score matches Some(b) ==> cell
        == CellV::Float32(b))
    &&& field.name == "_seq_no"@ && place < fixed ==> cell == CellV::UInt64(row.seq_no)
    &&& field.name == "_partition"@ && place < fixed ==> cell == CellV::UInt32(row.partition)
    &&& field.name == "_source"@ && place < fixed ==> (project::opt_entries(row.source) matches Some(
        es,
    ) ==> cell == CellV::Text(Some(value::json_text(Tree::Object(es)))))
    &&& fixed <= place < fixed + s.fields.len() ==> {
        let i = place - fixed;
        &&& field.name == s.fields[i].name
        &&& !(s.fields[i].kind is Json) ==> shows_value(cell, rows::first_of(row, i as usize))
    }
    &&& fixed + s.fields.len() <= place < fixed + s.fields.len() + s.vectors.len() ==> cell
        == CellV::Vector(
        doc_fetch::named_value(
            doc_fetch::dense_views(row.vectors@),
            s.vectors[place - fixed - s.fields.len()].name,
        ),
    )
    &&& fixed + s.fields.len() + s.vectors.len() <= place ==> cell == CellV::Sparse(
        doc_fetch::named_value(
            doc_fetch::sparse_views(row.sparse@),
            s.sparse_vectors[place - fixed - s.fields.len() - s.vectors.len()].name,
        ),
    )
}

/// Every cell of a row is of its column's type and shows what the column is
/// named for: the key, the score, the source, where the document stands, a
/// field's first value, or the vector of its name.
pub proof fn cells_show_their_columns(s: SchemaV, with_score: bool, place: int, row: SqlRow)
    requires
        s.fields.len() <= usize::MAX,
        s.vectors.len() <= usize::MAX,
        s.sparse_vectors.len() <= usize::MAX,
        0 <= place < rows::columns_on(s, with_score).len(),
    ensures
        rows::cell_of(s, rows::columns_on(s, with_score)[place].0, row) matches Ok(cell) ==> shows(
            s,
            place,
            with_score,
            row,
            cell,
        ),
{
    reveal_strlit("_id");
    reveal_strlit("_score");
    reveal_strlit("_source");
    reveal_strlit("_seq_no");
    reveal_strlit("_partition");
    assert("_id"@.len() == 3 && "_score"@.len() == 6 && "_source"@.len() == 7 && "_seq_no"@.len()
        == 7 && "_partition"@.len() == 10);
    assert("_source"@[2] == 'o' && "_seq_no"@[2] == 'e');
}

proof fn cells_in_order(s: SchemaV, column: Column, all: Seq<SqlRow>, n: nat)
    requires
        n <= all.len(),
    ensures
        rows::column_cells(s, column, all, n) matches Ok(cells) ==> {
            &&& cells.len() == n
            &&& forall|r: int|
                0 <= r < n ==> rows::cell_of(s, column, all[r]) == Ok::<CellV, Failure>(
                    #[trigger] cells[r],
                )
        },
    decreases n,
{
    if n > 0 {
        cells_in_order(s, column, all, (n - 1) as nat);
    }
}

/// A table has a cell for each row in each of its columns: that of the row.
pub proof fn tables_show_their_rows(s: SchemaV, columns: Seq<Column>, all: Seq<SqlRow>, n: nat)
    requires
        n <= columns.len(),
    ensures
        rows::table_cells(s, columns, all, n) matches Ok(t) ==> {
            &&& t.len() == n
            &&& forall|c: int| 0 <= c < n ==> (#[trigger] t[c]).len() == all.len()
            &&& forall|c: int, r: int|
                #![trigger t[c][r]]
                0 <= c < n && 0 <= r < all.len() ==> rows::cell_of(s, columns[c], all[r]) == Ok::<
                    CellV,
                    Failure,
                >(t[c][r])
        },
    decreases n,
{
    if n > 0 {
        tables_show_their_rows(s, columns, all, (n - 1) as nat);
        cells_in_order(s, columns[n - 1], all, all.len());
    }
}

} // verus!
