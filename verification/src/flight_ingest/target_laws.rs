//! What an ingest does: which target it loads, which it creates, and what a
//! collection that it creates has.

use crate::collection::{SparseSpecV, VectorSpecV};
use crate::flight_ingest::collection;
use crate::flight_ingest::collection::NewSchema;
use crate::flight_ingest::shape;
use crate::flight_ingest::shape::Field;
use crate::flight_ingest::target;
use crate::flight_ingest::target::{IngestAction, IngestCommand, TableOptions, TargetV};
use crate::ir::Distance;
use vstd::prelude::*;
use vstd::string::*;

verus! {

/// Whether a command asks to fail on a target that is there.
pub open spec fn fails_on_existing(options: Option<TableOptions>) -> bool {
    options matches Some(o) && o.if_exists == 1
}

/// Whether a command asks to replace a target that is there.
pub open spec fn replaces(options: Option<TableOptions>) -> bool {
    options matches Some(o) && o.if_exists == 3
}

/// Whether a command asks to create a target that is missing.
pub open spec fn creates(options: Option<TableOptions>) -> bool {
    options matches Some(o) && o.if_not_exist == 1
}

/// An ingest loads a target just where it is there and the command neither
/// fails on it nor replaces it, and creates one just where a collection is
/// missing that the command creates.
pub proof fn ingests_do_what_is_said(
    options: Option<TableOptions>,
    t: TargetV,
    there: bool,
)
    ensures
        match target::action_of(options, t, there) {
            Ok(IngestAction::Append) => there && !fails_on_existing(options) && !replaces(options),
            Ok(IngestAction::Create) => !there && t is Collection && creates(options) && !replaces(
                options,
            ),
            Err(_) => replaces(options) || (there && fails_on_existing(options)) || (!there && !(t
                is Collection && creates(options))),
        },
{
}

/// A command loads the table that it names, a collection unless its schema
/// says a stream, of its own catalog where it names one; it is refused just
/// where it asks for a temporary table, a transaction or another schema.
pub proof fn commands_name_their_targets(cmd: IngestCommand, ns: Seq<char>)
    ensures
        match target::command_target(cmd) {
            Ok(TargetV::Collection { name }) => !cmd.temporary && !cmd.in_transaction && name
                == cmd.table@ && (cmd.schema matches Some(s) ==> s@ == "collections"@),
            Ok(TargetV::Stream { name, partition }) => !cmd.temporary && !cmd.in_transaction && name
                == cmd.table@ && partition is None && (cmd.schema matches Some(s) && s@
                == "streams"@),
            Err(_) => cmd.temporary || cmd.in_transaction || (cmd.schema matches Some(s) && s@
                != "collections"@ && s@ != "streams"@),
        },
        cmd.catalog matches Some(c) && c@.len() > 0 ==> target::command_namespace(cmd, ns)
            == cmd.catalog->0@,
        !(cmd.catalog matches Some(c) && c@.len() > 0) ==> target::command_namespace(cmd, ns) == ns,
{
}

/// Whether a column becomes a dense vector.
pub open spec fn is_dense(f: Field, v: VectorSpecV) -> bool {
    &&& !collection::reserved(f.name@)
    &&& shape::fixed_vector(f.data_type)
    &&& v.dim == f.data_type->FixedSizeList_1
    &&& v.distance == Distance::Cosine
    &&& v.name == if f.name@ == "_vector"@ {
        ""@
    } else {
        f.name@
    }
}

/// Whether a column becomes a sparse vector.
pub open spec fn is_sparse(f: Field, v: SparseSpecV) -> bool {
    &&& !collection::reserved(f.name@)
    &&& !shape::fixed_vector(f.data_type)
    &&& shape::sparse(f.data_type)
    &&& v.name == f.name@
}

proof fn vectors_are_of_columns(fields: Seq<Field>, d: NewSchema, n: nat, k: int)
    requires
        n <= fields.len(),
    ensures
        collection::vectors_of(fields, d, n) matches Ok((dense, sparse)) ==> {
            &&& 0 <= k < dense.len() ==> exists|j: int|
                0 <= j < n && is_dense(#[trigger] fields[j], dense[k])
            &&& 0 <= k < sparse.len() ==> exists|j: int|
                0 <= j < n && is_sparse(#[trigger] fields[j], sparse[k])
        },
    decreases n,
{
    if n > 0 && collection::vectors_of(fields, d, n) is Ok {
        vectors_are_of_columns(fields, d, (n - 1) as nat, k);
        let (dense, sparse) = collection::vectors_of(fields, d, n)->Ok_0;
        let (was, were) = collection::vectors_of(fields, d, (n - 1) as nat)->Ok_0;
        let f = fields[n - 1];
        if was.len() <= k < dense.len() {
            assert(is_dense(f, dense[k]));
        }
        if were.len() <= k < sparse.len() {
            assert(is_sparse(f, sparse[k]));
        }
    }
}

proof fn columns_become_vectors(fields: Seq<Field>, d: NewSchema, n: nat, j: int)
    requires
        0 <= j < n <= fields.len(),
        !collection::reserved(fields[j].name@),
    ensures
        collection::vectors_of(fields, d, n) matches Ok((dense, sparse)) ==> {
            &&& shape::fixed_vector(fields[j].data_type) ==> exists|k: int|
                0 <= k < dense.len() && is_dense(fields[j], #[trigger] dense[k])
            &&& !shape::fixed_vector(fields[j].data_type) && shape::sparse(fields[j].data_type)
                ==> exists|k: int|
                0 <= k < sparse.len() && is_sparse(fields[j], #[trigger] sparse[k])
        },
    decreases n,
{
    if collection::vectors_of(fields, d, n) is Ok {
        let (dense, sparse) = collection::vectors_of(fields, d, n)->Ok_0;
        let (was, were) = collection::vectors_of(fields, d, (n - 1) as nat)->Ok_0;
        let f = fields[j];
        if j < n - 1 {
            columns_become_vectors(fields, d, (n - 1) as nat, j);
            if shape::fixed_vector(f.data_type) {
                let k = choose|k: int| 0 <= k < was.len() && is_dense(f, #[trigger] was[k]);
                assert(dense[k] == was[k]);
            } else if shape::sparse(f.data_type) {
                let k = choose|k: int| 0 <= k < were.len() && is_sparse(f, #[trigger] were[k]);
                assert(sparse[k] == were[k]);
            }
        } else if shape::fixed_vector(f.data_type) {
            assert(is_dense(f, dense[was.len() as int]));
        } else if shape::sparse(f.data_type) {
            assert(is_sparse(f, sparse[were.len() as int]));
        }
    }
}

/// A collection that an ingest creates has just the vectors of its columns,
/// each of the column's dimension and under its name, and no fields yet.
pub proof fn created_collections_have_their_vectors(
    fields: Seq<Field>,
    d: NewSchema,
    j: int,
    k: int,
)
    requires
        0 <= j < fields.len(),
        collection::derived_schema(fields, d) is Ok,
    ensures
        ({
            let s = collection::derived_schema(fields, d)->Ok_0;
            let f = fields[j];
            &&& s.fields.len() == 0
            &&& shape::names(fields).contains("_id"@)
            &&& 0 <= k < s.vectors.len() ==> exists|i: int|
                0 <= i < fields.len() && is_dense(#[trigger] fields[i], s.vectors[k])
            &&& 0 <= k < s.sparse_vectors.len() ==> exists|i: int|
                0 <= i < fields.len() && is_sparse(#[trigger] fields[i], s.sparse_vectors[k])
            &&& !collection::reserved(f.name@) && shape::fixed_vector(f.data_type)
                ==> exists|i: int|
                0 <= i < s.vectors.len() && is_dense(f, #[trigger] s.vectors[i])
            &&& !collection::reserved(f.name@) && !shape::fixed_vector(f.data_type)
                && shape::sparse(f.data_type) ==> exists|i: int|
                0 <= i < s.sparse_vectors.len() && is_sparse(f, #[trigger] s.sparse_vectors[i])
        }),
{
    let s = collection::derived_schema(fields, d)->Ok_0;
    assert(collection::vectors_of(fields, d, fields.len()) is Ok);
    assert(s.vectors == collection::vectors_of(fields, d, fields.len())->Ok_0.0);
    assert(s.sparse_vectors == collection::vectors_of(fields, d, fields.len())->Ok_0.1);
    assert(shape::names(fields).contains("_id"@));
    vectors_are_of_columns(fields, d, fields.len(), k);
    if !collection::reserved(fields[j].name@) {
        columns_become_vectors(fields, d, fields.len(), j);
    }
}

} // verus!
