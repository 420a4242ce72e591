//! The JSON form of a statement's result: `{"columns": [{"name", "type"}],
//! "rows": [[...]], "truncated"}`.

use crate::cells;
use crate::cells::Cell;
use crate::json::value;
use crate::json::value::{Json, Tree};
use vstd::prelude::*;
use vstd::string::*;

verus! {

/// The rows of one statement, batch by batch.
pub struct SqlResult {
    /// The name of each column and the text of its type.
    pub columns: Vec<(String, String)>,
    pub batches: Vec<Vec<Vec<Cell>>>,
    /// More rows existed than were returned.
    pub truncated: bool,
}

/// A column in JSON.
pub open spec fn column_tree(name: Seq<char>, data_type: Seq<char>) -> Tree {
    Tree::Object(seq![("name"@, Tree::Text(name)), ("type"@, Tree::Text(data_type))])
}

/// The columns in JSON.
pub open spec fn column_trees(columns: Seq<(String, String)>) -> Seq<Tree> {
    Seq::new(columns.len(), |i: int| column_tree(columns[i].0@, columns[i].1@))
}

/// A row in JSON.
pub open spec fn row_tree(row: Seq<Cell>) -> Tree {
    Tree::Array(Seq::new(row.len(), |i: int| cells::cell_json(row[i])))
}

/// The rows of a batch in JSON.
pub open spec fn batch_trees(batch: Seq<Vec<Cell>>) -> Seq<Tree> {
    Seq::new(batch.len(), |i: int| row_tree(batch[i]@))
}

/// The rows of the first batches in JSON.
pub open spec fn row_trees(batches: Seq<Vec<Vec<Cell>>>, n: nat) -> Seq<Tree>
    decreases n,
{
    if n == 0 || n > batches.len() {
        Seq::empty()
    } else {
        row_trees(batches, (n - 1) as nat) + batch_trees(batches[n - 1]@)
    }
}

/// A result in JSON.
pub open spec fn result_tree(r: SqlResult) -> Tree {
    Tree::Object(
        seq![
            ("columns"@, Tree::Array(column_trees(r.columns@))),
            ("rows"@, Tree::Array(row_trees(r.batches@, r.batches@.len()))),
            ("truncated"@, Tree::Bool(r.truncated)),
        ],
    )
}

fn array(items: Vec<Json>) -> (r: Json)
    ensures
        r@ == Tree::Array(value::items_of(items@)),
{
    let ghost made = items;
    let out = Json::Array(items);
    proof {
        value::view_array(made);
    }
    out
}

fn object(entries: Vec<(String, Json)>) -> (r: Json)
    ensures
        r@ == Tree::Object(value::entries_of(entries@)),
{
    let ghost made = entries;
    let out = Json::Object(entries);
    proof {
        value::view_object(made);
    }
    out
}

fn column_json(name: &str, data_type: &str) -> (r: Json)
    ensures
        r@ == column_tree(name@, data_type@),
{
    let mut es: Vec<(String, Json)> = Vec::new();
    es.push(("name".to_owned(), value::string(name)));
    es.push(("type".to_owned(), value::string(data_type)));
    assert(value::entries_of(es@) =~= seq![
        ("name"@, Tree::Text(name@)),
        ("type"@, Tree::Text(data_type@)),
    ]);
    object(es)
}

fn columns_json(columns: &Vec<(String, String)>) -> (r: Json)
    ensures
        r@ == Tree::Array(column_trees(columns@)),
{
    let mut out: Vec<Json> = Vec::new();
    let mut i: usize = 0;
    while i < columns.len()
        invariant
            i <= columns@.len(),
            out@.len() == i,
            forall|k: int|
                0 <= k < i ==> (#[trigger] out@[k])@ == column_tree(
                    columns@[k].0@,
                    columns@[k].1@,
                ),
        decreases columns.len() - i,
    {
        out.push(column_json(&columns[i].0, &columns[i].1));
        i += 1;
    }
    assert(value::items_of(out@) =~= column_trees(columns@));
    array(out)
}

fn row_json(row: &Vec<Cell>) -> (r: Json)
    ensures
        r@ == row_tree(row@),
{
    let mut out: Vec<Json> = Vec::new();
    let mut i: usize = 0;
    while i < row.len()
        invariant
            i <= row@.len(),
            out@.len() == i,
            forall|k: int| 0 <= k < i ==> (#[trigger] out@[k])@ == cells::cell_json(row@[k]),
        decreases row.len() - i,
    {
        out.push(cells::value_to_json(&row[i]));
        i += 1;
    }
    assert(value::items_of(out@) =~= Seq::new(row@.len(), |i: int| cells::cell_json(row@[i])));
    array(out)
}

fn rows_json(batches: &Vec<Vec<Vec<Cell>>>) -> (r: Json)
    ensures
        r@ == Tree::Array(row_trees(batches@, batches@.len())),
{
    let mut out: Vec<Json> = Vec::new();
    let mut b: usize = 0;
    assert(value::items_of(out@) =~= Seq::empty());
    while b < batches.len()
        invariant
            b <= batches@.len(),
            value::items_of(out@) == row_trees(batches@, b as nat),
        decreases batches.len() - b,
    {
        let batch = &batches[b];
        let ghost before = value::items_of(out@);
        let ghost all = batch_trees(batch@);
        let mut i: usize = 0;
        assert(before + all.take(0) =~= before);
        while i < batch.len()
            invariant
                i <= batch@.len(),
                all == batch_trees(batch@),
                value::items_of(out@) == before + all.take(i as int),
            decreases batch.len() - i,
        {
            let ghost so_far = value::items_of(out@);
            let row = row_json(&batch[i]);
            out.push(row);
            assert(value::items_of(out@) =~= so_far.push(row@));
            assert(all.take(i as int + 1) =~= all.take(i as int).push(all[i as int]));
            assert(before + all.take(i as int + 1) =~= so_far.push(all[i as int]));
            i += 1;
        }
        assert(all.take(all.len() as int) =~= all);
        b += 1;
    }
    array(out)
}

/// A result in JSON: the columns, the rows in column order, and whether the
/// rows were cut.
pub fn rows_to_json(result: &SqlResult) -> (r: Json)
    ensures
        r@ == result_tree(*result),
{
    let mut es: Vec<(String, Json)> = Vec::new();
    es.push(("columns".to_owned(), columns_json(&result.columns)));
    es.push(("rows".to_owned(), rows_json(&result.batches)));
    es.push(("truncated".to_owned(), Json::Bool(result.truncated)));
    assert(value::entries_of(es@) =~= result_tree(*result)->Object_0);
    object(es)
}

} // verus!
