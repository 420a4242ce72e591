//! What a read of documents gives: for each id its own row, and of a row the
//! vectors that are asked for.

use crate::exec::decode;
use crate::exec::doc_fetch;
use crate::exec::doc_fetch::{Batch, FetchColumns, FetchedRow, TailEntry};
use crate::exec::fetch;
use crate::exec::project;
use crate::json::entries;
use crate::text;
use vstd::prelude::*;

verus! {

/// Whether a vector is asked for by its place among the schema's.
pub open spec fn is_asked(names: Seq<Seq<char>>, wanted: Seq<usize>, name: Seq<char>) -> bool {
    exists|k: int|
        0 <= k < wanted.len() && (#[trigger] wanted[k]) < names.len() && names[wanted[k] as int]
            == name
}

/// The vectors of a projected document are just those that are asked for and
/// that it has.
pub proof fn vectors_are_what_is_asked<T>(
    names: Seq<Seq<char>>,
    wanted: Seq<usize>,
    has: Seq<(Seq<char>, T)>,
    e: (Seq<char>, T),
)
    ensures
        doc_fetch::picked(names, wanted, has).contains(e) <==> is_asked(names, wanted, e.0)
            && doc_fetch::named_value(has, e.0) == Some(e.1),
    decreases wanted.len(),
{
    if wanted.len() > 0 {
        let rest = wanted.drop_last();
        let i = wanted.last() as int;
        vectors_are_what_is_asked(names, rest, has, e);
        doc_fetch::picked_are_by_name(names, rest, has);
        assert(wanted[wanted.len() - 1] == wanted.last());
        if i < names.len() && doc_fetch::named_value(has, names[i]) is Some {
            entries::puts_set_one_name(
                doc_fetch::picked(names, rest, has),
                names[i],
                doc_fetch::named_value(has, names[i])->0,
                e,
            );
        }
        if is_asked(names, rest, e.0) {
            let k = choose|k: int|
                0 <= k < rest.len() && (#[trigger] rest[k]) < names.len() && names[rest[k] as int]
                    == e.0;
            assert(wanted[k] == rest[k]);
        }
        if is_asked(names, wanted, e.0) {
            let k = choose|k: int|
                0 <= k < wanted.len() && (#[trigger] wanted[k]) < names.len()
                    && names[wanted[k] as int] == e.0;
            if k < rest.len() {
                assert(rest[k] == wanted[k]);
            }
        }
    }
}

/// Whether a column holds a dense vector of a name at a row.
pub open spec fn holds_dense(
    b: Batch,
    column: (Seq<char>, Seq<char>),
    row: int,
    e: (Seq<char>, Seq<u32>),
) -> bool {
    &&& column.1 == e.0
    &&& decode::column_of(b, column.0)
        matches Some(doc_fetch::Column::Dense(cells))
        && cells@[row] matches Some(doc_fetch::DenseCell::Floats(f)) && f@ == e.1
}

/// The dense vectors of a decoded row are just those that the columns of
/// their names hold. No two columns are of one vector.
pub proof fn decoded_vectors_are_of_columns(
    b: Batch,
    dense: Seq<(Seq<char>, Seq<char>)>,
    row: int,
    n: int,
    e: (Seq<char>, Seq<u32>),
)
    requires
        0 <= n <= dense.len(),
        forall|i: int| 0 <= i < n ==> decode::column_of(b, (#[trigger] dense[i]).0) is Some,
        forall|i: int, j: int|
            0 <= i < j < n ==> (#[trigger] dense[i]).1 != (#[trigger] dense[j]).1,
    ensures
        decode::dense_row(b, dense, row, n) matches Ok(v) ==> (v.contains(e) <==> exists|i: int|
            0 <= i < n && holds_dense(b, #[trigger] dense[i], row, e)),
    decreases n,
{
    if n > 0 && decode::dense_row(b, dense, row, n) is Ok {
        decoded_vectors_are_of_columns(b, dense, row, n - 1, e);
        decode::decoded_are_by_name(b, dense, dense, row, n - 1);
        let before = decode::dense_row(b, dense, row, n - 1)->Ok_0;
        let column = dense[n - 1];
        let cell = decode::dense_cell(decode::column_of(b, column.0)->0, column.0, row);
        if let Ok(Some(v)) = cell {
            entries::puts_set_one_name(before, column.1, v, e);
        }
        if exists|i: int| 0 <= i < n && holds_dense(b, #[trigger] dense[i], row, e) {
            let i = choose|i: int| 0 <= i < n && holds_dense(b, #[trigger] dense[i], row, e);
            if i < n - 1 {
                assert(dense[i].1 != dense[n - 1].1);
                assert(before.contains(e));
            }
        }
        if e.0 == column.1 {
            assert forall|i: int| 0 <= i < n - 1 implies !holds_dense(
                b,
                #[trigger] dense[i],
                row,
                e,
            ) by {
                assert(dense[i].1 != dense[n - 1].1);
            }
        }
    }
}

/// A durable row is one that was read under its id, and is missed only where
/// none was; a row of the tail is what the tail holds of it.
pub proof fn rows_are_of_their_ids(
    s: crate::collection::SchemaV,
    id: u64,
    base: u64,
    found: Seq<FetchedRow>,
    entry: TailEntry,
    columns: FetchColumns,
)
    ensures
        id < base ==> match fetch::row_of(s, id, base, found, entry, columns) {
            Ok(r) => r.row_id == id && exists|i: int|
                0 <= i < found.len() && (#[trigger] found[i])@ == r,
            Err(_) => forall|i: int| 0 <= i < found.len() ==> (#[trigger] found[i]).row_id != id,
        },
        id >= base ==> match fetch::row_of(s, id, base, found, entry, columns) {
            Ok(r) => entry matches TailEntry::Doc(d) && r.row_id == d.row_id && r.pk == d.pk@
                && r.seq_no == d.seq_no && r.partition == d.partition && (r.source is Some
                == columns.source),
            Err(_) => !(entry is Doc),
        },
{
    read_rows_are_there(found, id);
}

proof fn read_rows_are_there(found: Seq<FetchedRow>, id: u64)
    ensures
        match fetch::read_row(found, id) {
            Some(r) => r.row_id == id && exists|i: int|
                0 <= i < found.len() && (#[trigger] found[i])@ == r,
            None => forall|i: int| 0 <= i < found.len() ==> (#[trigger] found[i]).row_id != id,
        },
    decreases found.len(),
{
    if found.len() > 0 {
        let rest = found.drop_last();
        assert(found[found.len() - 1] == found.last());
        read_rows_are_there(rest, id);
        if found.last().row_id != id {
            if let Some(r) = fetch::read_row(rest, id) {
                let i = choose|i: int| 0 <= i < rest.len() && (#[trigger] rest[i])@ == r;
                assert(found[i]@ == r);
            } else {
                assert forall|i: int| 0 <= i < found.len() implies (#[trigger] found[i]).row_id
                    != id by {
                    if i < rest.len() {
                        assert(rest[i] == found[i]);
                    }
                }
            }
        }
    }
}

/// The places of names are just those of the wanted ones, each once. No name
/// repeats among those that there are.
pub proof fn places_are_of_the_wanted(names: Seq<Seq<char>>, wanted: Seq<Seq<char>>, at: usize)
    requires
        names.len() <= usize::MAX,
        forall|i: int, j: int|
            0 <= i < j < names.len() ==> #[trigger] names[i] != #[trigger] names[j],
    ensures
        project::places(names, wanted).contains(at) <==> at < names.len() && wanted.contains(
            names[at as int],
        ),
        project::places(names, wanted).no_duplicates(),
    decreases wanted.len(),
{
    if wanted.len() > 0 {
        let rest = wanted.drop_last();
        let name = wanted.last();
        let before = project::places(names, rest);
        let all = project::places(names, wanted);
        places_are_of_the_wanted(names, rest, at);
        assert(wanted =~= rest.push(name));
        assert(wanted[wanted.len() - 1] == name);
        if at < names.len() {
            if rest.contains(names[at as int]) {
                let k = choose|k: int| 0 <= k < rest.len() && rest[k] == names[at as int];
                assert(wanted[k] == names[at as int]);
            }
            if wanted.contains(names[at as int]) && names[at as int] != name {
                let k = choose|k: int| 0 <= k < wanted.len() && wanted[k] == names[at as int];
                assert(rest[k] == names[at as int]);
            }
        }
        if text::absent(names, name) {
            assert(at < names.len() ==> names[at as int] != name);
        } else {
            first_places_exist(names, name);
            let i = choose|i: int| text::is_first(names, name, i);
            assert(text::is_first(names, name, i));
            assert(names[i] == name);
            if !before.contains(i as usize) {
                assert(all == before.push(i as usize));
                assert(all[before.len() as int] == i as usize);
                if before.contains(at) {
                    let k = choose|k: int| 0 <= k < before.len() && before[k] == at;
                    assert(all[k] == at);
                }
            }
            if at < names.len() && names[at as int] == name {
                if (at as int) < i {
                    assert(names[at as int] != names[i]);
                } else if i < at {
                    assert(names[i] != names[at as int]);
                }
            }
        }
    }
}

proof fn first_places_exist(names: Seq<Seq<char>>, name: Seq<char>)
    requires
        !text::absent(names, name),
        forall|i: int, j: int|
            0 <= i < j < names.len() ==> #[trigger] names[i] != #[trigger] names[j],
    ensures
        exists|i: int| text::is_first(names, name, i),
{
    let i = choose|i: int| 0 <= i < names.len() && names[i] == name;
    assert(names[i] == name);
    assert forall|j: int| 0 <= j < i implies #[trigger] names[j] != name by {
        assert(names[j] != names[i]);
    }
    assert(text::is_first(names, name, i));
}

} // verus!
