//! What the rows of a collection put become: documents whose key, vectors
//! and source hold what the row's columns of these names hold.

use crate::cells;
use crate::cells::Cell;
use crate::collection as schema;
use crate::collection::SchemaV;
use crate::error::Failure;
use crate::flight_ingest::collection;
use crate::flight_ingest::collection::{DocumentV, RoleV, RowV};
use crate::flight_ingest::record_laws;
use crate::flight_ingest::rows;
use crate::flight_ingest::shape;
use crate::flight_ingest::shape::{
    ColumnCells, DenseCell, Element, Field, RecordBatch, SourceCell,
};
use crate::flight_ingest::target::IdType;
use crate::ir::SparseV;
use crate::json::entries;
use crate::json::value;
use crate::json::value::{Json, Tree};
use crate::key::Key;
use crate::text;
use vstd::prelude::*;
use vstd::string::*;

verus! {

/// Whether a key is the one that a cell of a key column holds; a text is read
/// as the keys' type says.
pub open spec fn is_key_of(c: Cell, id_type: IdType, k: Key) -> bool {
    match c {
        Cell::Unsigned(n) => k == Key::U64(n),
        Cell::Signed(n) => n >= 0 && k == Key::U64(n as u64),
        Cell::Bytes(b) => k == Key::Uuid(b@),
        Cell::Text(s) => match id_type {
            IdType::Str => k == Key::Str(s@),
            IdType::U64 => k matches Key::U64(n) && text::decimal(n as nat) == s@,
            IdType::Uuid => rows::any_uuid(s@) matches Some(b) && k == Key::Uuid(b),
        },
        _ => false,
    }
}

/// Whether a vector is the one that a cell holds, element by element.
pub open spec fn is_dense_of(c: DenseCell, v: Seq<u32>) -> bool {
    c matches DenseCell::Elements(es) && es@.len() == v.len() && forall|i: int|
        0 <= i < v.len() ==> #[trigger] es@[i] == Element::Finite(v[i])
}

/// Whether a column's name has a meaning of its own.
pub open spec fn special(name: Seq<char>) -> bool {
    name == "_id"@ || name == "_source"@ || name == "_seq_no"@ || name == "_partition"@ || name
        == "_score"@
}

/// Whether a column holds the vectors of a name: of the column's own, and of
/// the unnamed vector under `_vector`.
pub open spec fn holds_vector(s: SchemaV, column: Seq<char>, name: Seq<char>) -> bool {
    &&& !special(column)
    &&& name == if column == "_vector"@ {
        ""@
    } else {
        column
    }
    &&& exists|i: int| 0 <= i < s.vectors.len() && (#[trigger] s.vectors[i]).name == name
}

/// Whether a column holds the sparse vectors of its name.
pub open spec fn holds_sparse(s: SchemaV, column: Seq<char>) -> bool {
    &&& !special(column)
    &&& forall|name: Seq<char>| !holds_vector(s, column, name)
    &&& exists|i: int| 0 <= i < s.sparse_vectors.len() && (#[trigger] s.sparse_vectors[i]).name
        == column
}

/// Whether a column holds a field of the source.
pub open spec fn holds_field(s: SchemaV, column: Seq<char>) -> bool {
    &&& !special(column)
    &&& forall|name: Seq<char>| !holds_vector(s, column, name)
    &&& !holds_sparse(s, column)
}

/// Whether a row's key is that of the first `k` columns.
pub open spec fn has_key(
    fields: Seq<Field>,
    id_type: IdType,
    columns: Seq<ColumnCells>,
    row: int,
    k: nat,
    r: RowV,
) -> bool {
    forall|j: int|
        0 <= j < k && (#[trigger] fields[j]).name@ == "_id"@ ==> r.pk is Some && is_key_of(
            columns[j]->Values_0@[row],
            id_type,
            r.pk->0,
        )
}

/// Whether a vector is what a column holds for a row.
pub open spec fn gives_vector(
    s: SchemaV,
    f: Field,
    column: ColumnCells,
    row: int,
    e: (Seq<char>, Seq<u32>),
) -> bool {
    holds_vector(s, f.name@, e.0) && is_dense_of(column->Dense_0@[row], e.1)
}

/// Whether a row's vectors are those of the first `k` columns: each is one
/// of theirs, and each of theirs that is not null is there.
pub open spec fn has_vectors(
    fields: Seq<Field>,
    s: SchemaV,
    columns: Seq<ColumnCells>,
    row: int,
    k: nat,
    r: RowV,
) -> bool {
    &&& forall|e: (Seq<char>, Seq<u32>)| #[trigger]
        r.vectors.contains(e) ==> exists|j: int|
            0 <= j < k && #[trigger] gives_vector(s, fields[j], columns[j], row, e)
    &&& forall|j: int, name: Seq<char>|
        0 <= j < k && #[trigger] holds_vector(s, fields[j].name@, name)
            && !(columns[j]->Dense_0@[row] is Null) ==> exists|v: Seq<u32>| #[trigger]
            r.vectors.contains((name, v))
}

/// Whether a sparse vector is what a column holds for a row.
pub open spec fn gives_sparse(
    s: SchemaV,
    f: Field,
    column: ColumnCells,
    row: int,
    e: (Seq<char>, SparseV),
) -> bool {
    &&& holds_sparse(s, f.name@)
    &&& f.name@ == e.0
    &&& rows::sparse_of(column->Sparse_0@[row]) == Ok::<Option<SparseV>, Seq<char>>(Some(e.1))
}

/// Whether a row's sparse vectors are those of the first `k` columns.
pub open spec fn has_sparse(
    fields: Seq<Field>,
    s: SchemaV,
    columns: Seq<ColumnCells>,
    row: int,
    k: nat,
    r: RowV,
) -> bool {
    &&& forall|e: (Seq<char>, SparseV)| #[trigger]
        r.sparse_vectors.contains(e) ==> exists|j: int|
            0 <= j < k && #[trigger] gives_sparse(s, fields[j], columns[j], row, e)
    &&& forall|j: int|
        0 <= j < k && holds_sparse(s, (#[trigger] fields[j]).name@)
            && !columns[j]->Sparse_0@[row].is_null ==> exists|v: SparseV| #[trigger]
            r.sparse_vectors.contains((fields[j].name@, v))
}

/// Whether a row's source is that of the first `k` columns: the object of the
/// source column where there is one, else the fields, each under its name.
pub open spec fn has_source(
    fields: Seq<Field>,
    s: SchemaV,
    columns: Seq<ColumnCells>,
    row: int,
    k: nat,
    r: RowV,
) -> bool {
    if shape::names(fields).contains("_source"@) {
        &&& forall|j: int|
            0 <= j < k && (#[trigger] fields[j]).name@ == "_source"@
                ==> match columns[j]->Sources_0@[row] {
                SourceCell::Parsed(Json::Object(es)) => r.source == value::entries_of(es@),
                c => c is Null && r.source.len() == 0,
            }
        &&& (forall|j: int| 0 <= j < k ==> (#[trigger] fields[j]).name@ != "_source"@)
            ==> r.source.len() == 0
    } else {
        &&& forall|j: int|
            0 <= j < k && holds_field(s, (#[trigger] fields[j]).name@) ==> value::lookup(
                r.source,
                fields[j].name@,
            ) == if columns[j]->Values_0@[row] is Null {
                None::<Tree>
            } else {
                Some(cells::cell_json(columns[j]->Values_0@[row]))
            }
        &&& forall|name: Seq<char>|
            (#[trigger] value::lookup(r.source, name)) is Some ==> exists|j: int|
                0 <= j < k && (#[trigger] fields[j]).name@ == name && holds_field(s, name)
    }
}

proof fn dense_are_read(c: DenseCell)
    ensures
        match rows::dense_of(c) {
            Ok(Some(v)) => is_dense_of(c, v),
            Ok(None) => c is Null,
            Err(_) => !(c is Null),
        },
{
    if let DenseCell::Elements(es) = c {
        elements_are_read(es@, es@.len());
    }
}

proof fn elements_are_read(es: Seq<Element>, n: nat)
    requires
        n <= es.len(),
    ensures
        rows::elements(es, n) matches Ok(v) ==> v.len() == n && forall|i: int|
            0 <= i < n ==> #[trigger] es[i] == Element::Finite(v[i]),
    decreases n,
{
    if n > 0 {
        elements_are_read(es, (n - 1) as nat);
    }
}

proof fn specials_differ()
    ensures
        "_id"@ != "_source"@,
        "_id"@ != "_seq_no"@,
        "_id"@ != "_partition"@,
        "_id"@ != "_score"@,
        "_source"@ != "_seq_no"@,
        "_source"@ != "_partition"@,
        "_source"@ != "_score"@,
{
    reveal_strlit("_id");
    reveal_strlit("_source");
    reveal_strlit("_seq_no");
    reveal_strlit("_partition");
    reveal_strlit("_score");
    assert("_id"@.len() == 3);
    assert("_source"@[2] == 'o' && "_source"@.len() == 7);
    assert("_seq_no"@[2] == 'e' && "_seq_no"@.len() == 7);
    assert("_partition"@.len() == 10);
    assert("_score"@.len() == 6);
}

proof fn roles_are_by_name(f: Field, s: SchemaV, with_source: bool, id_type: IdType)
    requires
        collection::role_of(f, s, with_source, id_type) is Ok,
    ensures
        ({
            let role = collection::role_of(f, s, with_source, id_type)->Ok_0;
            &&& f.name@ == "_id"@ <==> role is Id
            &&& role is Id ==> collection::id_column(f.data_type, id_type) == Some(role->Id_0)
            &&& f.name@ == "_source"@ <==> role is Source
            &&& forall|v: Seq<char>| #[trigger]
                holds_vector(s, f.name@, v) <==> role == RoleV::Vector(v)
            &&& holds_sparse(s, f.name@) <==> role == RoleV::Sparse(f.name@)
            &&& role is Sparse ==> role == RoleV::Sparse(f.name@)
            &&& role is Key ==> role == RoleV::Key(f.name@) && holds_field(s, f.name@)
            &&& holds_field(s, f.name@) && !with_source ==> role == RoleV::Key(f.name@)
            &&& role is Key ==> !with_source
        }),
{
    specials_differ();
    let name = f.name@;
    let v = collection::vector_named(name);
    let vectors = schema::vector_names(s.vectors);
    let sparse = schema::sparse_names(s.sparse_vectors);
    if vectors.contains(v) {
        let i = choose|i: int| 0 <= i < vectors.len() && vectors[i] == v;
        assert(s.vectors[i].name == v);
    }
    if exists|i: int| 0 <= i < s.vectors.len() && (#[trigger] s.vectors[i]).name == v {
        let i = choose|i: int| 0 <= i < s.vectors.len() && (#[trigger] s.vectors[i]).name == v;
        assert(vectors[i] == v);
    }
    if sparse.contains(name) {
        let i = choose|i: int| 0 <= i < sparse.len() && sparse[i] == name;
        assert(s.sparse_vectors[i].name == name);
    }
    if exists|i: int| 0 <= i < s.sparse_vectors.len() && (#[trigger] s.sparse_vectors[i]).name
        == name {
        let i = choose|i: int|
            0 <= i < s.sparse_vectors.len() && (#[trigger] s.sparse_vectors[i]).name == name;
        assert(sparse[i] == name);
    }
    assert(!special(name) && vectors.contains(v) ==> holds_vector(s, name, v));
}

proof fn keys_are_read(c: Cell, f: Field, id_type: IdType)
    requires
        collection::id_column(f.data_type, id_type) is Some,
    ensures
        rows::id_of(collection::id_column(f.data_type, id_type)->0, c) matches Ok(k) ==> is_key_of(
            c,
            id_type,
            k,
        ),
{
    if let Cell::Text(s) = c {
        if rows::number_of(s@) is Some {
            assert(s@ == text::decimal(rows::number_of(s@)->0 as nat));
        }
    }
}

/// Whether some roles are those of columns, and the columns' values are of
/// the kinds that their roles read.
pub open spec fn are_roles(
    fields: Seq<Field>,
    s: SchemaV,
    id_type: IdType,
    columns: Seq<ColumnCells>,
    roles: Seq<(Seq<char>, RoleV)>,
) -> bool {
    let with_source = shape::names(fields).contains("_source"@);
    &&& roles.len() == fields.len()
    &&& columns.len() == fields.len()
    &&& forall|a: int, b: int|
        0 <= a < b < fields.len() ==> (#[trigger] fields[a]).name@ != (#[trigger] fields[b]).name@
    &&& forall|j: int|
        0 <= j < fields.len() ==> collection::role_of(
            #[trigger] fields[j],
            s,
            with_source,
            id_type,
        ) == Ok::<RoleV, Failure>(roles[j].1)
    &&& forall|j: int|
        0 <= j < fields.len() ==> collection::role_fits(
            (#[trigger] roles[j]).1,
            columns[j],
            shape::rows_of(columns[j]),
        )
}

proof fn keys_are_those_of_columns(
    fields: Seq<Field>,
    s: SchemaV,
    id_type: IdType,
    columns: Seq<ColumnCells>,
    roles: Seq<(Seq<char>, RoleV)>,
    row: int,
    refusal: Option<Seq<char>>,
    k: nat,
)
    requires
        are_roles(fields, s, id_type, columns, roles),
        k <= fields.len(),
    ensures
        collection::columns_of(roles, columns, row, refusal, k) matches Ok(r) ==> has_key(
            fields,
            id_type,
            columns,
            row,
            k,
            r,
        ),
    decreases k,
{
    if k > 0 && collection::columns_of(roles, columns, row, refusal, k) is Ok {
        let at = k - 1;
        keys_are_those_of_columns(
            fields,
            s,
            id_type,
            columns,
            roles,
            row,
            refusal,
            (k - 1) as nat,
        );
        roles_are_by_name(
            fields[at],
            s,
            shape::names(fields).contains("_source"@),
            id_type,
        );
        assert(collection::role_fits(roles[at].1, columns[at], shape::rows_of(columns[at])));
        if roles[at].1 is Id {
            keys_are_read(columns[at]->Values_0@[row], fields[at], id_type);
            assert forall|j: int| 0 <= j < at implies (#[trigger] fields[j]).name@ != "_id"@ by {
                assert(fields[j].name@ != fields[at].name@);
            }
        }
    }
}

proof fn vectors_are_those_of_columns(
    fields: Seq<Field>,
    s: SchemaV,
    id_type: IdType,
    columns: Seq<ColumnCells>,
    roles: Seq<(Seq<char>, RoleV)>,
    row: int,
    refusal: Option<Seq<char>>,
    k: nat,
)
    requires
        are_roles(fields, s, id_type, columns, roles),
        k <= fields.len(),
    ensures
        collection::columns_of(roles, columns, row, refusal, k) matches Ok(r) ==> has_vectors(
            fields,
            s,
            columns,
            row,
            k,
            r,
        ),
    decreases k,
{
    if k > 0 && collection::columns_of(roles, columns, row, refusal, k) is Ok {
        let at = k - 1;
        let m = (k - 1) as nat;
        vectors_are_those_of_columns(fields, s, id_type, columns, roles, row, refusal, m);
        roles_are_by_name(
            fields[at],
            s,
            shape::names(fields).contains("_source"@),
            id_type,
        );
        assert(collection::role_fits(roles[at].1, columns[at], shape::rows_of(columns[at])));
        collection::vectors_are_by_name(roles, columns, row, refusal, m);
        let before = collection::columns_of(roles, columns, row, refusal, m)->Ok_0;
        let r = collection::columns_of(roles, columns, row, refusal, k)->Ok_0;
        if roles[at].1 is Vector {
            let name = roles[at].1->Vector_0;
            let cell = columns[at]->Dense_0@[row];
            assert(holds_vector(s, fields[at].name@, name));
            dense_are_read(cell);
            if cell is Null {
                assert(r.vectors == before.vectors);
            } else {
                let bits = rows::dense_of(cell)->Ok_0->Some_0;
                assert(r.vectors == entries::put_by_name(before.vectors, name, bits));
                assert forall|e: (Seq<char>, Seq<u32>)| #[trigger]
                    r.vectors.contains(e) implies exists|j: int|
                    0 <= j < k && #[trigger] gives_vector(s, fields[j], columns[j], row, e) by {
                    entries::puts_set_one_name(before.vectors, name, bits, e);
                    if e == (name, bits) {
                        assert(gives_vector(s, fields[at], columns[at], row, e));
                    }
                }
                assert forall|j: int, other: Seq<char>|
                    0 <= j < k && #[trigger] holds_vector(s, fields[j].name@, other)
                        && !(columns[j]->Dense_0@[row] is Null) implies exists|v: Seq<u32>| #[trigger]
                    r.vectors.contains((other, v)) by {
                    if other == name {
                        entries::puts_set_one_name(before.vectors, name, bits, (name, bits));
                        assert(r.vectors.contains((other, bits)));
                    } else {
                        assert(j < at);
                        let v = choose|v: Seq<u32>| #[trigger] before.vectors.contains((other, v));
                        entries::puts_set_one_name(before.vectors, name, bits, (other, v));
                        assert(r.vectors.contains((other, v)));
                    }
                }
            }
        } else {
            assert(r.vectors == before.vectors);
        }
    }
}

proof fn sparse_are_those_of_columns(
    fields: Seq<Field>,
    s: SchemaV,
    id_type: IdType,
    columns: Seq<ColumnCells>,
    roles: Seq<(Seq<char>, RoleV)>,
    row: int,
    refusal: Option<Seq<char>>,
    k: nat,
)
    requires
        are_roles(fields, s, id_type, columns, roles),
        k <= fields.len(),
    ensures
        collection::columns_of(roles, columns, row, refusal, k) matches Ok(r) ==> has_sparse(
            fields,
            s,
            columns,
            row,
            k,
            r,
        ),
    decreases k,
{
    if k > 0 && collection::columns_of(roles, columns, row, refusal, k) is Ok {
        let at = k - 1;
        let m = (k - 1) as nat;
        sparse_are_those_of_columns(fields, s, id_type, columns, roles, row, refusal, m);
        roles_are_by_name(
            fields[at],
            s,
            shape::names(fields).contains("_source"@),
            id_type,
        );
        assert(collection::role_fits(roles[at].1, columns[at], shape::rows_of(columns[at])));
        collection::vectors_are_by_name(roles, columns, row, refusal, m);
        let before = collection::columns_of(roles, columns, row, refusal, m)->Ok_0;
        let r = collection::columns_of(roles, columns, row, refusal, k)->Ok_0;
        if roles[at].1 is Sparse {
            let name = roles[at].1->Sparse_0;
            let cell = columns[at]->Sparse_0@[row];
            assert(name == fields[at].name@);
            if cell.is_null {
                assert(r.sparse_vectors == before.sparse_vectors);
            } else {
                let held = rows::sparse_of(cell)->Ok_0->Some_0;
                assert(r.sparse_vectors == entries::put_by_name(before.sparse_vectors, name, held));
                assert forall|e: (Seq<char>, SparseV)| #[trigger]
                    r.sparse_vectors.contains(e) implies exists|j: int|
                    0 <= j < k && #[trigger] gives_sparse(s, fields[j], columns[j], row, e) by {
                    entries::puts_set_one_name(before.sparse_vectors, name, held, e);
                    if e == (name, held) {
                        assert(gives_sparse(s, fields[at], columns[at], row, e));
                    }
                }
                assert forall|j: int|
                    0 <= j < k && holds_sparse(s, (#[trigger] fields[j]).name@)
                        && !columns[j]->Sparse_0@[row].is_null implies exists|v: SparseV| #[trigger]
                    r.sparse_vectors.contains((fields[j].name@, v)) by {
                    let other = fields[j].name@;
                    if j == at {
                        entries::puts_set_one_name(before.sparse_vectors, name, held, (name, held));
                        assert(r.sparse_vectors.contains((other, held)));
                    } else {
                        let v = choose|v: SparseV| #[trigger]
                            before.sparse_vectors.contains((other, v));
                        entries::puts_set_one_name(before.sparse_vectors, name, held, (other, v));
                        assert(r.sparse_vectors.contains((other, v)));
                    }
                }
            }
        } else {
            assert(r.sparse_vectors == before.sparse_vectors);
        }
    }
}

proof fn sources_are_those_of_columns(
    fields: Seq<Field>,
    s: SchemaV,
    id_type: IdType,
    columns: Seq<ColumnCells>,
    roles: Seq<(Seq<char>, RoleV)>,
    row: int,
    refusal: Option<Seq<char>>,
    k: nat,
)
    requires
        are_roles(fields, s, id_type, columns, roles),
        k <= fields.len(),
    ensures
        collection::columns_of(roles, columns, row, refusal, k) matches Ok(r) ==> has_source(
            fields,
            s,
            columns,
            row,
            k,
            r,
        ),
    decreases k,
{
    broadcast use crate::json::value::view_object;

    if k > 0 && collection::columns_of(roles, columns, row, refusal, k) is Ok {
        let at = k - 1;
        let m = (k - 1) as nat;
        let with_source = shape::names(fields).contains("_source"@);
        sources_are_those_of_columns(fields, s, id_type, columns, roles, row, refusal, m);
        roles_are_by_name(fields[at], s, with_source, id_type);
        assert(collection::role_fits(roles[at].1, columns[at], shape::rows_of(columns[at])));
        let before = collection::columns_of(roles, columns, row, refusal, m)->Ok_0;
        let r = collection::columns_of(roles, columns, row, refusal, k)->Ok_0;
        let name = fields[at].name@;
        assert forall|j: int| 0 <= j < at implies (#[trigger] fields[j]).name@ != name by {
            assert(fields[j].name@ != fields[at].name@);
        }
        if name == "_source"@ {
            assert(shape::names(fields)[at] == name);
            assert(before.source.len() == 0);
        } else if roles[at].1 is Key {
            let cell = columns[at]->Values_0@[row];
            assert forall|other: Seq<char>| #[trigger]
                value::lookup(r.source, other) == (if other == name && !(cell is Null) {
                    Some(cells::cell_json(cell))
                } else {
                    value::lookup(before.source, other)
                }) by {
                if !(cell is Null) {
                    entries::puts_are_found(before.source, name, cells::cell_json(cell), other);
                }
            }
            assert(value::lookup(before.source, name) is None);
            assert forall|other: Seq<char>|
                (#[trigger] value::lookup(r.source, other)) is Some implies exists|j: int|
                0 <= j < k && (#[trigger] fields[j]).name@ == other && holds_field(s, other) by {
                if other == name {
                    assert(fields[at].name@ == other);
                }
            }
        } else {
            assert(r.source == before.source);
            if !with_source {
                assert forall|other: Seq<char>|
                    (#[trigger] value::lookup(r.source, other)) is Some implies exists|j: int|
                    0 <= j < k && (#[trigger] fields[j]).name@ == other && holds_field(s, other) by {
                }
            }
        }
    }
}

proof fn documents_are_rows(
    roles: Seq<(Seq<char>, RoleV)>,
    columns: Seq<ColumnCells>,
    refusals: Seq<Option<String>>,
    n: nat,
    i: int,
)
    requires
        0 <= i < n,
        collection::documents_of(roles, columns, refusals, n) is Ok,
    ensures
        collection::documents_of(roles, columns, refusals, n)->Ok_0.len() == n,
        collection::columns_of(
            roles,
            columns,
            i,
            text::opt_text(refusals[i]),
            roles.len(),
        ) matches Ok(r) && collection::documents_of(roles, columns, refusals, n)->Ok_0[i] == (
        DocumentV {
            pk: r.pk->0,
            source: r.source,
            vectors: r.vectors,
            sparse_vectors: r.sparse_vectors,
        }),
    decreases n,
{
    reveal_with_fuel(collection::documents_of, 2);
    if n > 1 {
        if i < n - 1 {
            documents_are_rows(roles, columns, refusals, (n - 1) as nat, i);
        } else {
            documents_are_rows(roles, columns, refusals, (n - 1) as nat, 0);
        }
    }
}

proof fn roles_are_those(fields: Seq<Field>, s: SchemaV, id_type: IdType, n: nat)
    requires
        n <= fields.len(),
        collection::roles_of(fields, s, id_type, n) is Ok,
    ensures
        collection::roles_of(fields, s, id_type, n)->Ok_0.len() == n,
        forall|j: int|
            0 <= j < n ==> collection::role_of(
                #[trigger] fields[j],
                s,
                shape::names(fields).contains("_source"@),
                id_type,
            ) == Ok::<RoleV, Failure>(collection::roles_of(fields, s, id_type, n)->Ok_0[j].1),
    decreases n,
{
    if n > 0 {
        roles_are_those(fields, s, id_type, (n - 1) as nat);
    }
}

/// Every row of a batch becomes one document, in order. Its key is what the
/// `_id` column holds; its vectors are what the columns of the collection's
/// vectors hold; its source is the object of the `_source` column where there
/// is one, and else has every other column that is not null under its name,
/// and nothing else.
pub proof fn rows_become_their_documents(
    fields: Seq<Field>,
    s: SchemaV,
    id_type: IdType,
    batch: RecordBatch,
    refusals: Seq<Option<String>>,
    row: int,
)
    requires
        0 <= row < batch.rows,
        collection::mapping(fields, s, id_type) matches Ok(roles) && collection::batch_fits(
            roles,
            batch,
        ) && collection::documents(roles, batch, refusals) is Ok,
    ensures
        ({
            let roles = collection::mapping(fields, s, id_type)->Ok_0;
            let out = collection::documents(roles, batch, refusals)->Ok_0;
            let columns = batch.columns@;
            let d = out[row];
            let r = RowV {
                pk: Some(d.pk),
                source: d.source,
                vectors: d.vectors,
                sparse_vectors: d.sparse_vectors,
            };
            &&& out.len() == batch.rows
            &&& shape::names(fields).contains("_id"@)
            &&& has_key(fields, id_type, columns, row, fields.len(), r)
            &&& has_vectors(fields, s, columns, row, fields.len(), r)
            &&& has_sparse(fields, s, columns, row, fields.len(), r)
            &&& has_source(fields, s, columns, row, fields.len(), r)
        }),
{
    let roles = collection::mapping(fields, s, id_type)->Ok_0;
    let columns = batch.columns@;
    let n = fields.len();
    let refusal = text::opt_text(refusals[row]);
    roles_are_those(fields, s, id_type, n);
    documents_are_rows(roles, columns, refusals, batch.rows as nat, row);
    assert forall|a: int, b: int| 0 <= a < b < n implies (#[trigger] fields[a]).name@ != (
    #[trigger] fields[b]).name@ by {
        record_laws::names_differ(fields, a, b);
    }
    assert forall|j: int| 0 <= j < n implies collection::role_fits(
        (#[trigger] roles[j]).1,
        columns[j],
        shape::rows_of(columns[j]),
    ) by {
        assert(collection::role_fits(roles[j].1, columns[j], batch.rows as nat));
    }
    assert(are_roles(fields, s, id_type, columns, roles));
    keys_are_those_of_columns(fields, s, id_type, columns, roles, row, refusal, n);
    vectors_are_those_of_columns(fields, s, id_type, columns, roles, row, refusal, n);
    sparse_are_those_of_columns(fields, s, id_type, columns, roles, row, refusal, n);
    sources_are_those_of_columns(fields, s, id_type, columns, roles, row, refusal, n);
}

} // verus!
