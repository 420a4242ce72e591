//! Mapping record batches to the documents of a collection, and the schema
//! of a collection that an ingest creates.

use crate::cells;
use crate::cells::Cell;
use crate::collection;
use crate::collection::{
    CollectionSchema, DynamicMapping, HnswParams, SchemaV, SparseModifier, SparseSpecV,
    SparseVectorSpec, VectorElement, VectorIndexSpec, VectorSpec, VectorSpecV,
};
use crate::error;
use crate::error::{Failure, ServiceError};
use crate::exec::doc_fetch;
use crate::exec::project;
use crate::flight_ingest::rows;
use crate::flight_ingest::rows::IdColumn;
use crate::flight_ingest::shape;
use crate::flight_ingest::shape::{
    ColumnCells, DataType, Field, RecordBatch, RowError, RowFault, SourceCell,
};
use crate::flight_ingest::target::{IdType, ID_COLUMN, SOURCE_COLUMN};
use crate::ir::{Distance, SparseV, SparseVector};
use crate::json::entries;
use crate::json::value;
use crate::json::value::{Json, Tree};
use crate::key::{Key, PrimaryKey};
use crate::text;
use vstd::prelude::*;
use vstd::string::*;

verus! {

broadcast use crate::json::value::view_object;

/// The read-only columns of a result, ignored on input.
pub const IGNORED_COLUMNS: [&'static str; 3] = ["_seq_no", "_partition", "_score"];

/// The column of the unnamed dense vector.
pub const UNNAMED_VECTOR_COLUMN: &'static str = "_vector";

/// Whether a column is ignored by its name.
pub open spec fn ignored(name: Seq<char>) -> bool {
    name == "_seq_no"@ || name == "_partition"@ || name == "_score"@
}

fn is_ignored(name: &str) -> (r: bool)
    ensures
        r == ignored(name@),
{
    let columns = IGNORED_COLUMNS;
    text::same(name, columns[0]) || text::same(name, columns[1]) || text::same(name, columns[2])
}

/// The vector that a column names.
pub open spec fn vector_named(column: Seq<char>) -> Seq<char> {
    if column == UNNAMED_VECTOR_COLUMN@ {
        ""@
    } else {
        column
    }
}

fn vector_of_column(column: &str) -> (r: String)
    ensures
        r@ == vector_named(column@),
{
    if text::same(column, UNNAMED_VECTOR_COLUMN) {
        "".to_owned()
    } else {
        column.to_owned()
    }
}

/// What one column of a collection put carries.
#[derive(Debug)]
pub enum CollectionRole {
    Id(IdColumn),
    Source,
    /// The dense vector of this name.
    Vector(String),
    /// The sparse vector of this name.
    Sparse(String),
    Ignored,
    /// The top-level source key of this name.
    Key(String),
}

/// What a role is.
pub enum RoleV {
    Id(IdColumn),
    Source,
    Vector(Seq<char>),
    Sparse(Seq<char>),
    Ignored,
    Key(Seq<char>),
}

impl View for CollectionRole {
    type V = RoleV;

    open spec fn view(&self) -> RoleV {
        match self {
            CollectionRole::Id(kind) => RoleV::Id(*kind),
            CollectionRole::Source => RoleV::Source,
            CollectionRole::Vector(name) => RoleV::Vector(name@),
            CollectionRole::Sparse(name) => RoleV::Sparse(name@),
            CollectionRole::Ignored => RoleV::Ignored,
            CollectionRole::Key(name) => RoleV::Key(name@),
        }
    }
}

/// How a key column of a type is read.
pub open spec fn id_column(t: DataType, id_type: IdType) -> Option<IdColumn> {
    match t {
        DataType::UInt64 => Some(IdColumn::Unsigned),
        DataType::UInt32 => Some(IdColumn::Unsigned),
        DataType::Int64 => Some(IdColumn::Signed),
        DataType::Int32 => Some(IdColumn::Signed),
        DataType::FixedSizeBinary(n) => if n == 16 {
            Some(IdColumn::Binary16)
        } else {
            None
        },
        _ => if shape::string_like(t) {
            Some(IdColumn::Text(id_type))
        } else {
            None
        },
    }
}

impl IdColumn {
    /// How a key column is read, if its type can hold keys.
    pub fn of(t: &DataType, id_type: IdType) -> (r: Option<IdColumn>)
        ensures
            r == id_column(*t, id_type),
    {
        match t {
            DataType::UInt64 | DataType::UInt32 => Some(IdColumn::Unsigned),
            DataType::Int64 | DataType::Int32 => Some(IdColumn::Signed),
            DataType::FixedSizeBinary(n) => if *n == 16 {
                Some(IdColumn::Binary16)
            } else {
                None
            },
            _ => if shape::is_string(t) {
                Some(IdColumn::Text(id_type))
            } else {
                None
            },
        }
    }
}

/// The error of one column.
pub open spec fn column_error(name: Seq<char>, rest: Seq<char>) -> Failure {
    Failure::InvalidArgument("column "@ + name + rest)
}

fn column_failure(name: &str, rest: &str) -> (r: ServiceError)
    ensures
        r@ == column_error(name@, rest@),
{
    error::invalid(text::cat3("column ", name, rest))
}

/// The role of a column, or why it can have none.
pub open spec fn role_of(f: Field, schema: SchemaV, with_source: bool, id_type: IdType) -> Result<
    RoleV,
    Failure,
> {
    let name = f.name@;
    let vectors = collection::vector_names(schema.vectors);
    let sparse = collection::sparse_names(schema.sparse_vectors);
    if name == ID_COLUMN@ {
        match id_column(f.data_type, id_type) {
            Some(kind) => Ok(RoleV::Id(kind)),
            None => Err(
                column_error(
                    ID_COLUMN@,
                    ": "@ + f.shown@
                        + " cannot hold a primary key (use UInt64, Int64, a string or FixedSizeBinary(16))"@,
                ),
            ),
        }
    } else if name == SOURCE_COLUMN@ {
        if !shape::bytes_like(f.data_type) || f.data_type is BinaryView {
            Err(
                column_error(
                    SOURCE_COLUMN@,
                    ": "@ + f.shown@ + " cannot hold a JSON object (use a string or binary column)"@,
                ),
            )
        } else {
            Ok(RoleV::Source)
        }
    } else if ignored(name) {
        Ok(RoleV::Ignored)
    } else if vectors.contains(vector_named(name)) {
        if shape::vector(f.data_type) {
            Ok(RoleV::Vector(vector_named(name)))
        } else {
            Err(
                column_error(
                    name,
                    ": vector "@ + text::debug_text(vector_named(name))
                        + " needs a list of Float32, got "@ + f.shown@,
                ),
            )
        }
    } else if sparse.contains(name) {
        if shape::sparse(f.data_type) {
            Ok(RoleV::Sparse(name))
        } else {
            Err(
                column_error(
                    name,
                    ": sparse vector "@ + text::debug_text(name)
                        + " needs Struct<indices: List<UInt32>, values: List<Float32>>, got "@
                        + f.shown@,
                ),
            )
        }
    } else if shape::fixed_vector(f.data_type) || shape::sparse(f.data_type) {
        Err(
            column_error(
                name,
                " looks like a vector, but the collection has no vector "@ + name,
            ),
        )
    } else if with_source {
        if collection::field_names(schema.fields).contains(name) {
            Ok(RoleV::Ignored)
        } else {
            Err(
                column_error(
                    name,
                    ": with a _source column, other columns must be vectors or schema fields"@,
                ),
            )
        }
    } else {
        Ok(RoleV::Key(name))
    }
}

fn column_role(f: &Field, schema: &CollectionSchema, with_source: bool, id_type: IdType) -> (r: Result<
    CollectionRole,
    ServiceError,
>)
    ensures
        match r {
            Ok(role) => role_of(*f, schema@, with_source, id_type) == Ok::<RoleV, Failure>(role@),
            Err(e) => role_of(*f, schema@, with_source, id_type) == Err::<RoleV, Failure>(e@),
        },
{
    let name: &str = f.name.as_str();
    let t = &f.data_type;
    let ghost vectors = collection::vector_names(schema@.vectors);
    let ghost sparse = collection::sparse_names(schema@.sparse_vectors);
    let ghost fields = collection::field_names(schema@.fields);
    if text::same(name, ID_COLUMN) {
        return match IdColumn::of(t, id_type) {
            Some(kind) => Ok(CollectionRole::Id(kind)),
            None => Err(
                column_failure(
                    ID_COLUMN,
                    &text::cat3(
                        ": ",
                        &f.shown,
                        " cannot hold a primary key (use UInt64, Int64, a string or FixedSizeBinary(16))",
                    ),
                ),
            ),
        };
    }
    if text::same(name, SOURCE_COLUMN) {
        let view = match t {
            DataType::BinaryView => true,
            _ => false,
        };
        if !shape::is_bytes(t) || view {
            return Err(
                column_failure(
                    SOURCE_COLUMN,
                    &text::cat3(
                        ": ",
                        &f.shown,
                        " cannot hold a JSON object (use a string or binary column)",
                    ),
                ),
            );
        }
        return Ok(CollectionRole::Source);
    }
    if is_ignored(name) {
        return Ok(CollectionRole::Ignored);
    }
    let vector = vector_of_column(name);
    if collection::find_vector(&schema.vectors, &vector).is_some() {
        if !shape::is_vector(t) {
            let mut m = text::cat2(": vector ", &text::debug_of(&vector));
            m.append(" needs a list of Float32, got ");
            m.append(&f.shown);
            return Err(column_failure(name, &m));
        }
        return Ok(CollectionRole::Vector(vector));
    }
    assert(!vectors.contains(vector@));
    if collection::find_sparse(&schema.sparse_vectors, name).is_some() {
        if !shape::is_sparse(t) {
            let mut m = text::cat2(": sparse vector ", &text::debug_of(name));
            m.append(" needs Struct<indices: List<UInt32>, values: List<Float32>>, got ");
            m.append(&f.shown);
            return Err(column_failure(name, &m));
        }
        return Ok(CollectionRole::Sparse(name.to_owned()));
    }
    assert(!sparse.contains(name@));
    if shape::is_fixed_vector(t) || shape::is_sparse(t) {
        return Err(
            column_failure(
                name,
                &text::cat2(" looks like a vector, but the collection has no vector ", name),
            ),
        );
    }
    if with_source {
        if collection::find_field(&schema.fields, name).is_some() {
            Ok(CollectionRole::Ignored)
        } else {
            assert(!fields.contains(name@));
            Err(
                column_failure(
                    name,
                    ": with a _source column, other columns must be vectors or schema fields",
                ),
            )
        }
    } else {
        Ok(CollectionRole::Key(name.to_owned()))
    }
}

/// The roles of the first `n` columns, or the error of the first without
/// one.
pub open spec fn roles_of(fields: Seq<Field>, schema: SchemaV, id_type: IdType, n: nat) -> Result<
    Seq<(Seq<char>, RoleV)>,
    Failure,
>
    decreases n,
{
    if n == 0 || n > fields.len() {
        Ok(Seq::empty())
    } else {
        match roles_of(fields, schema, id_type, (n - 1) as nat) {
            Err(e) => Err(e),
            Ok(roles) => match role_of(
                fields[n - 1],
                schema,
                shape::names(fields).contains(SOURCE_COLUMN@),
                id_type,
            ) {
                Err(e) => Err(e),
                Ok(role) => Ok(roles.push((fields[n - 1].name@, role))),
            },
        }
    }
}

proof fn roles_stay_wrong(fields: Seq<Field>, schema: SchemaV, id_type: IdType, n: nat, m: nat)
    requires
        n <= m <= fields.len(),
        roles_of(fields, schema, id_type, n) is Err,
    ensures
        roles_of(fields, schema, id_type, m) == roles_of(fields, schema, id_type, n),
    decreases m - n,
{
    if n < m {
        roles_stay_wrong(fields, schema, id_type, n, (m - 1) as nat);
    }
}

/// The roles of a schema's columns: names must differ, each column must have
/// a role, and one must be the key.
pub open spec fn mapping(fields: Seq<Field>, schema: SchemaV, id_type: IdType) -> Result<
    Seq<(Seq<char>, RoleV)>,
    Failure,
> {
    let names = shape::names(fields);
    if exists|i: int| shape::first_repeat(names, i) {
        let i = choose|i: int| shape::first_repeat(names, i);
        Err(Failure::InvalidArgument("duplicate column "@ + names[i]))
    } else {
        match roles_of(fields, schema, id_type, fields.len()) {
            Err(e) => Err(e),
            Ok(roles) => if names.contains(ID_COLUMN@) {
                Ok(roles)
            } else {
                Err(Failure::InvalidArgument("a collection put needs an _id column"@))
            },
        }
    }
}

/// Refuses a schema with a repeated column name.
pub fn unique_columns(fields: &Vec<Field>) -> (r: Result<(), ServiceError>)
    ensures
        match r {
            Ok(_) => shape::all_unique(shape::names(fields@)),
            Err(e) => exists|i: int|
                #[trigger] shape::first_repeat(shape::names(fields@), i) && e@
                    == Failure::InvalidArgument(
                    "duplicate column "@ + shape::names(fields@)[i],
                ),
        },
{
    match shape::repeated_column(fields) {
        Some(i) => Err(error::invalid(text::cat2("duplicate column ", &fields[i].name))),
        None => Ok(()),
    }
}

/// There is at most one first repeated column.
pub proof fn one_first_repeat(names: Seq<Seq<char>>, i: int, j: int)
    requires
        shape::first_repeat(names, i),
        shape::first_repeat(names, j),
    ensures
        i == j,
{
    if i < j {
        assert(!shape::repeats_at(names, i));
    }
    if j < i {
        assert(!shape::repeats_at(names, j));
    }
}

/// What some columns carry.
pub open spec fn role_views(s: Seq<(String, CollectionRole)>) -> Seq<(Seq<char>, RoleV)> {
    Seq::new(s.len(), |i: int| (s[i].0@, s[i].1@))
}

/// Built once from a stream's schema; maps every batch of that schema.
#[derive(Debug)]
pub struct CollectionBatchMapper {
    roles: Vec<(String, CollectionRole)>,
}

impl View for CollectionBatchMapper {
    type V = Seq<(Seq<char>, RoleV)>;

    closed spec fn view(&self) -> Seq<(Seq<char>, RoleV)> {
        role_views(self.roles@)
    }
}

/// Whether one of the columns is the key.
pub open spec fn has_key(roles: Seq<(Seq<char>, RoleV)>) -> bool {
    exists|i: int| 0 <= i < roles.len() && #[trigger] roles[i].1 is Id
}

proof fn key_column_is_key(fields: Seq<Field>, schema: SchemaV, id_type: IdType, n: nat, at: int)
    requires
        0 <= at < n <= fields.len(),
        fields[at].name@ == ID_COLUMN@,
        roles_of(fields, schema, id_type, n) is Ok,
    ensures
        has_key(roles_of(fields, schema, id_type, n)->Ok_0),
        roles_of(fields, schema, id_type, n)->Ok_0.len() == n,
    decreases n,
{
    roles_len(fields, schema, id_type, n);
    roles_len(fields, schema, id_type, (n - 1) as nat);
    let all = roles_of(fields, schema, id_type, n)->Ok_0;
    if at == n - 1 {
        assert(all[n - 1].1 is Id);
    } else {
        key_column_is_key(fields, schema, id_type, (n - 1) as nat, at);
        let before = roles_of(fields, schema, id_type, (n - 1) as nat)->Ok_0;
        let i = choose|i: int| 0 <= i < before.len() && #[trigger] before[i].1 is Id;
        assert(all[i] == before[i]);
    }
}

proof fn roles_len(fields: Seq<Field>, schema: SchemaV, id_type: IdType, n: nat)
    requires
        n <= fields.len(),
        roles_of(fields, schema, id_type, n) is Ok,
    ensures
        roles_of(fields, schema, id_type, n)->Ok_0.len() == n,
    decreases n,
{
    if n > 0 {
        roles_len(fields, schema, id_type, (n - 1) as nat);
    }
}

/// A document to upsert. Vectors stand in the order of their names; the
/// order of a source's entries carries no meaning.
pub struct Document {
    pub pk: PrimaryKey,
    pub source: Vec<(String, Json)>,
    pub vectors: Vec<(String, Vec<u32>)>,
    pub sparse_vectors: Vec<(String, SparseVector)>,
}

/// What a document is.
pub struct DocumentV {
    pub pk: Key,
    pub source: Seq<(Seq<char>, Tree)>,
    pub vectors: Seq<(Seq<char>, Seq<u32>)>,
    pub sparse_vectors: Seq<(Seq<char>, SparseV)>,
}

impl View for Document {
    type V = DocumentV;

    open spec fn view(&self) -> DocumentV {
        DocumentV {
            pk: self.pk@,
            source: value::entries_of(self.source@),
            vectors: doc_fetch::dense_views(self.vectors@),
            sparse_vectors: doc_fetch::sparse_views(self.sparse_vectors@),
        }
    }
}

/// What some documents are.
pub open spec fn document_views(s: Seq<Document>) -> Seq<DocumentV> {
    Seq::new(s.len(), |i: int| s[i]@)
}

/// A row that is being read: its key once that is known, and the rest.
pub struct RowV {
    pub pk: Option<Key>,
    pub source: Seq<(Seq<char>, Tree)>,
    pub vectors: Seq<(Seq<char>, Seq<u32>)>,
    pub sparse_vectors: Seq<(Seq<char>, SparseV)>,
}

/// The row after one more column, or what is wrong with that column.
pub open spec fn step(
    acc: RowV,
    role: RoleV,
    cells: ColumnCells,
    row: int,
    refusal: Option<Seq<char>>,
) -> Result<RowV, Seq<char>> {
    match (role, cells) {
        (RoleV::Id(kind), ColumnCells::Values(v)) => match rows::id_of(kind, v@[row]) {
            Err(m) => Err(m),
            Ok(k) => match refusal {
                Some(m) => Err(m),
                None => Ok(RowV { pk: Some(k), ..acc }),
            },
        },
        (RoleV::Source, ColumnCells::Sources(v)) => match v@[row] {
            SourceCell::Null => Ok(acc),
            SourceCell::Parsed(Json::Object(entries)) => Ok(
                RowV { source: value::entries_of(entries@), ..acc },
            ),
            SourceCell::Parsed(_) => Err("not a JSON object"@),
            SourceCell::Broken(m) => Err("not JSON: "@ + m@),
        },
        (RoleV::Vector(name), ColumnCells::Dense(v)) => match rows::dense_of(v@[row]) {
            Err(m) => Err(m),
            Ok(None) => Ok(acc),
            Ok(Some(bits)) => Ok(RowV { vectors: entries::put_by_name(acc.vectors, name, bits), ..acc }),
        },
        (RoleV::Sparse(name), ColumnCells::Sparse(v)) => match rows::sparse_of(v@[row]) {
            Err(m) => Err(m),
            Ok(None) => Ok(acc),
            Ok(Some(s)) => Ok(
                RowV {
                    sparse_vectors: entries::put_by_name(acc.sparse_vectors, name, s),
                    ..acc
                },
            ),
        },
        (RoleV::Key(name), ColumnCells::Values(v)) => if v@[row] is Null {
            Ok(acc)
        } else if cells::holds_non_finite(v@[row]) {
            Err("a non-finite float"@)
        } else {
            Ok(RowV { source: entries::put(acc.source, name, cells::cell_json(v@[row])), ..acc })
        },
        _ => Ok(acc),
    }
}

/// Whether a column's values are of the kind that its role reads, one for
/// every row.
pub open spec fn role_fits(role: RoleV, cells: ColumnCells, rows: nat) -> bool {
    &&& match role {
        RoleV::Id(kind) => cells matches ColumnCells::Values(v) && forall|i: int|
            0 <= i < v@.len() ==> rows::id_fits(kind, #[trigger] v@[i]),
        RoleV::Source => cells is Sources,
        RoleV::Vector(_) => cells is Dense,
        RoleV::Sparse(_) => cells is Sparse,
        RoleV::Key(_) => cells is Values,
        RoleV::Ignored => true,
    }
    &&& shape::rows_of(cells) == rows
}

/// Whether a batch has the schema of its roles.
pub open spec fn batch_fits(roles: Seq<(Seq<char>, RoleV)>, batch: RecordBatch) -> bool {
    roles.len() == batch.columns@.len() ==> forall|i: int|
        0 <= i < roles.len() ==> role_fits(
            (#[trigger] roles[i]).1,
            batch.columns@[i],
            batch.rows as nat,
        )
}

/// A row before its first column.
pub open spec fn empty_row() -> RowV {
    RowV {
        pk: None,
        source: Seq::empty(),
        vectors: Seq::empty(),
        sparse_vectors: Seq::empty(),
    }
}

/// The row of the first `k` columns, or the first of them that is wrong and
/// what is wrong with it.
pub open spec fn columns_of(
    roles: Seq<(Seq<char>, RoleV)>,
    columns: Seq<ColumnCells>,
    row: int,
    refusal: Option<Seq<char>>,
    k: nat,
) -> Result<RowV, (Seq<char>, Seq<char>)>
    decreases k,
{
    if k == 0 || k > roles.len() {
        Ok(empty_row())
    } else {
        match columns_of(roles, columns, row, refusal, (k - 1) as nat) {
            Err(e) => Err(e),
            Ok(acc) => match step(acc, roles[k - 1].1, columns[k - 1], row, refusal) {
                Err(m) => Err((roles[k - 1].0, m)),
                Ok(acc) => Ok(acc),
            },
        }
    }
}

/// The vectors of a row that is read stand in the order of their names.
pub proof fn vectors_are_by_name(
    roles: Seq<(Seq<char>, RoleV)>,
    columns: Seq<ColumnCells>,
    row: int,
    refusal: Option<Seq<char>>,
    k: nat,
)
    ensures
        columns_of(roles, columns, row, refusal, k) matches Ok(r) ==> entries::by_name(r.vectors)
            && entries::by_name(r.sparse_vectors),
    decreases k,
{
    if k > 0 && k <= roles.len() {
        vectors_are_by_name(roles, columns, row, refusal, (k - 1) as nat);
        if let Ok(acc) = columns_of(roles, columns, row, refusal, (k - 1) as nat) {
            match (roles[k - 1].1, columns[k - 1]) {
                (RoleV::Vector(name), ColumnCells::Dense(v)) => {
                    if let Ok(Some(bits)) = rows::dense_of(v@[row]) {
                        entries::puts_keep_the_order(acc.vectors, name, bits);
                    }
                },
                (RoleV::Sparse(name), ColumnCells::Sparse(v)) => {
                    if let Ok(Some(s)) = rows::sparse_of(v@[row]) {
                        entries::puts_keep_the_order(acc.sparse_vectors, name, s);
                    }
                },
                _ => {},
            }
        }
    }
}

proof fn columns_stay_wrong(
    roles: Seq<(Seq<char>, RoleV)>,
    columns: Seq<ColumnCells>,
    row: int,
    refusal: Option<Seq<char>>,
    k: nat,
    m: nat,
)
    requires
        k <= m <= roles.len(),
        columns_of(roles, columns, row, refusal, k) is Err,
    ensures
        columns_of(roles, columns, row, refusal, m) == columns_of(roles, columns, row, refusal, k),
    decreases m - k,
{
    if k < m {
        columns_stay_wrong(roles, columns, row, refusal, k, (m - 1) as nat);
    }
}

/// The documents of the first `n` rows, or the first row that is wrong.
pub open spec fn documents_of(
    roles: Seq<(Seq<char>, RoleV)>,
    columns: Seq<ColumnCells>,
    refusals: Seq<Option<String>>,
    n: nat,
) -> Result<Seq<DocumentV>, RowFault>
    decreases n,
{
    if n == 0 {
        Ok(Seq::empty())
    } else {
        match documents_of(roles, columns, refusals, (n - 1) as nat) {
            Err(e) => Err(e),
            Ok(docs) => match columns_of(
                roles,
                columns,
                n - 1,
                text::opt_text(refusals[n - 1]),
                roles.len(),
            ) {
                Err((column, message)) => Err(RowFault { row: (n - 1) as nat, column, message }),
                Ok(acc) => Ok(
                    docs.push(
                        DocumentV {
                            pk: acc.pk->0,
                            source: acc.source,
                            vectors: acc.vectors,
                            sparse_vectors: acc.sparse_vectors,
                        },
                    ),
                ),
            },
        }
    }
}

proof fn documents_stay_wrong(
    roles: Seq<(Seq<char>, RoleV)>,
    columns: Seq<ColumnCells>,
    refusals: Seq<Option<String>>,
    n: nat,
    m: nat,
)
    requires
        n <= m,
        documents_of(roles, columns, refusals, n) is Err,
    ensures
        documents_of(roles, columns, refusals, m) == documents_of(roles, columns, refusals, n),
    decreases m - n,
{
    if n < m {
        documents_stay_wrong(roles, columns, refusals, n, (m - 1) as nat);
    }
}

/// The documents of a batch, or the first row that is wrong.
pub open spec fn documents(
    roles: Seq<(Seq<char>, RoleV)>,
    batch: RecordBatch,
    refusals: Seq<Option<String>>,
) -> Result<Seq<DocumentV>, RowFault> {
    if batch.columns@.len() != roles.len() {
        Err(shape::column_count_fault(batch.columns@.len(), roles.len()))
    } else {
        documents_of(roles, batch.columns@, refusals, batch.rows as nat)
    }
}

/// A row that is being read.
struct Row {
    pk: Option<PrimaryKey>,
    source: Vec<(String, Json)>,
    vectors: Vec<(String, Vec<u32>)>,
    sparse_vectors: Vec<(String, SparseVector)>,
}

spec fn row_view(r: Row) -> RowV {
    RowV {
        pk: match r.pk {
            Some(k) => Some(k@),
            None => None,
        },
        source: value::entries_of(r.source@),
        vectors: doc_fetch::dense_views(r.vectors@),
        sparse_vectors: doc_fetch::sparse_views(r.sparse_vectors@),
    }
}

/// Reads one column of a row.
fn read_column(
    acc: Row,
    role: &CollectionRole,
    cells: &ColumnCells,
    row: usize,
    rows: usize,
    refusal: &Option<String>,
) -> (r: Result<Row, String>)
    requires
        role_fits(role@, *cells, rows as nat),
        row < rows,
    ensures
        match r {
            Ok(a) => step(
                row_view(acc),
                role@,
                *cells,
                row as int,
                text::opt_text(*refusal),
            ) == Ok::<RowV, Seq<char>>(row_view(a)),
            Err(m) => step(
                row_view(acc),
                role@,
                *cells,
                row as int,
                text::opt_text(*refusal),
            ) == Err::<RowV, Seq<char>>(m@),
        },
{
    let mut acc = acc;
    match (role, cells) {
        (CollectionRole::Id(kind), ColumnCells::Values(v)) => match kind.read(&v[row]) {
            Err(m) => Err(m),
            Ok(k) => match refusal {
                Some(m) => Err(m.clone()),
                None => {
                    acc.pk = Some(k);
                    Ok(acc)
                },
            },
        },
        (CollectionRole::Source, ColumnCells::Sources(v)) => match &v[row] {
            SourceCell::Null => Ok(acc),
            SourceCell::Parsed(j) => match j {
                Json::Object(entries) => {
                    acc.source = project::copy_entries(entries);
                    Ok(acc)
                },
                _ => Err("not a JSON object".to_owned()),
            },
            SourceCell::Broken(m) => Err(text::cat2("not JSON: ", m)),
        },
        (CollectionRole::Vector(name), ColumnCells::Dense(v)) => match rows::dense_at(&v[row]) {
            Err(m) => Err(m),
            Ok(None) => Ok(acc),
            Ok(Some(bits)) => {
                doc_fetch::put_dense(&mut acc.vectors, name, bits);
                Ok(acc)
            },
        },
        (CollectionRole::Sparse(name), ColumnCells::Sparse(v)) => match rows::sparse_at(&v[row]) {
            Err(m) => Err(m),
            Ok(None) => Ok(acc),
            Ok(Some(s)) => {
                doc_fetch::put_sparse(&mut acc.sparse_vectors, name, s);
                Ok(acc)
            },
        },
        (CollectionRole::Key(name), ColumnCells::Values(v)) => {
            let is_null = match &v[row] {
                Cell::Null => true,
                _ => false,
            };
            if is_null {
                Ok(acc)
            } else if cells::non_finite(&v[row]) {
                Err("a non-finite float".to_owned())
            } else {
                entries::put_entry(&mut acc.source, name, cells::value_to_json(&v[row]));
                Ok(acc)
            }
        },
        _ => Ok(acc),
    }
}

/// A row whose key column was read has a key.
proof fn key_is_read(
    roles: Seq<(Seq<char>, RoleV)>,
    columns: Seq<ColumnCells>,
    row: int,
    refusal: Option<Seq<char>>,
    k: nat,
    at: int,
    rows: nat,
)
    requires
        0 <= at < k <= roles.len(),
        roles[at].1 is Id,
        role_fits(roles[at].1, columns[at], rows),
        columns_of(roles, columns, row, refusal, k) is Ok,
    ensures
        columns_of(roles, columns, row, refusal, k)->Ok_0.pk is Some,
    decreases k,
{
    if at < k - 1 {
        key_is_read(roles, columns, row, refusal, (k - 1) as nat, at, rows);
    }
}

impl CollectionBatchMapper {
    /// The mapper of a schema's columns into a collection.
    pub fn new(fields: &Vec<Field>, schema: &CollectionSchema, id_type: IdType) -> (r: Result<
        CollectionBatchMapper,
        ServiceError,
    >)
        ensures
            match r {
                Ok(m) => mapping(fields@, schema@, id_type) == Ok::<
                    Seq<(Seq<char>, RoleV)>,
                    Failure,
                >(m@) && has_key(m@),
                Err(e) => mapping(fields@, schema@, id_type) == Err::<
                    Seq<(Seq<char>, RoleV)>,
                    Failure,
                >(e@),
            },
    {
        let ghost names = shape::names(fields@);
        if let Err(e) = unique_columns(fields) {
            proof {
                let i = choose|i: int|
                    #[trigger] shape::first_repeat(names, i) && e@ == Failure::InvalidArgument(
                        "duplicate column "@ + names[i],
                    );
                let j = choose|i: int| shape::first_repeat(names, i);
                one_first_repeat(names, i, j);
            }
            return Err(e);
        }
        proof {
            assert forall|i: int| !shape::first_repeat(names, i) by {
                assert(!shape::repeats_at(names, i));
            }
        }
        let with_source = shape::has_column(fields, SOURCE_COLUMN);
        let mut roles: Vec<(String, CollectionRole)> = Vec::new();
        let mut i: usize = 0;
        assert(role_views(roles@) =~= Seq::empty());
        while i < fields.len()
            invariant
                i <= fields@.len(),
                with_source == shape::names(fields@).contains(SOURCE_COLUMN@),
                roles_of(fields@, schema@, id_type, i as nat) == Ok::<
                    Seq<(Seq<char>, RoleV)>,
                    Failure,
                >(role_views(roles@)),
                names == shape::names(fields@),
                forall|i: int| !#[trigger] shape::first_repeat(names, i),
            decreases fields.len() - i,
        {
            match column_role(&fields[i], schema, with_source, id_type) {
                Err(e) => {
                    proof {
                        roles_stay_wrong(fields@, schema@, id_type, i as nat + 1, fields@.len());
                    }
                    return Err(e);
                },
                Ok(role) => {
                    let ghost was = roles@;
                    let ghost v = role@;
                    roles.push((fields[i].name.clone(), role));
                    assert(role_views(roles@) =~= role_views(was).push(
                        (fields@[i as int].name@, v),
                    ));
                },
            }
            i += 1;
        }
        if !shape::has_column(fields, ID_COLUMN) {
            return Err(error::invalid("a collection put needs an _id column".to_owned()));
        }
        proof {
            let at = choose|at: int| 0 <= at < names.len() && names[at] == ID_COLUMN@;
            key_column_is_key(fields@, schema@, id_type, fields@.len(), at);
        }
        Ok(CollectionBatchMapper { roles })
    }

    /// One document per row, in row order. `refusals` says of each row's key
    /// why the rules on keys refuse it, if they do.
    pub fn map(&self, batch: &RecordBatch, refusals: &Vec<Option<String>>) -> (r: Result<
        Vec<Document>,
        RowError,
    >)
        requires
            has_key(self@),
            batch_fits(self@, *batch),
            refusals@.len() == batch.rows,
        ensures
            match r {
                Ok(docs) => documents(self@, *batch, refusals@) == Ok::<Seq<DocumentV>, RowFault>(
                    document_views(docs@),
                ),
                Err(e) => documents(self@, *batch, refusals@) == Err::<Seq<DocumentV>, RowFault>(
                    e@,
                ),
            },
    {
        if batch.columns.len() != self.roles.len() {
            return Err(shape::column_count_error(batch.columns.len(), self.roles.len()));
        }
        let mut docs: Vec<Document> = Vec::new();
        let mut row: usize = 0;
        assert(document_views(docs@) =~= Seq::empty());
        while row < batch.rows
            invariant
                row <= batch.rows,
                refusals@.len() == batch.rows,
                has_key(self@),
                batch_fits(self@, *batch),
                self@ == role_views(self.roles@),
                batch.columns@.len() == self@.len(),
                documents_of(self@, batch.columns@, refusals@, row as nat) == Ok::<
                    Seq<DocumentV>,
                    RowFault,
                >(document_views(docs@)),
            decreases batch.rows - row,
        {
            match self.map_row(batch, row, &refusals[row]) {
                Err(e) => {
                    proof {
                        documents_stay_wrong(
                            self@,
                            batch.columns@,
                            refusals@,
                            row as nat + 1,
                            batch.rows as nat,
                        );
                    }
                    return Err(e);
                },
                Ok(doc) => {
                    let ghost was = docs@;
                    let ghost v = doc@;
                    docs.push(doc);
                    assert(document_views(docs@) =~= document_views(was).push(v));
                },
            }
            row += 1;
        }
        Ok(docs)
    }

    fn map_row(&self, batch: &RecordBatch, row: usize, refusal: &Option<String>) -> (r: Result<
        Document,
        RowError,
    >)
        requires
            has_key(self@),
            batch_fits(self@, *batch),
            batch.columns@.len() == self@.len(),
            row < batch.rows,
        ensures
            match r {
                Ok(d) => columns_of(
                    self@,
                    batch.columns@,
                    row as int,
                    text::opt_text(*refusal),
                    self@.len(),
                ) == Ok::<RowV, (Seq<char>, Seq<char>)>(
                    RowV {
                        pk: Some(d@.pk),
                        source: d@.source,
                        vectors: d@.vectors,
                        sparse_vectors: d@.sparse_vectors,
                    },
                ),
                Err(e) => e@.row == row && columns_of(
                    self@,
                    batch.columns@,
                    row as int,
                    text::opt_text(*refusal),
                    self@.len(),
                ) == Err::<RowV, (Seq<char>, Seq<char>)>((e@.column, e@.message)),
            },
    {
        let mut acc = Row {
            pk: None,
            source: Vec::new(),
            vectors: Vec::new(),
            sparse_vectors: Vec::new(),
        };
        proof {
            let v = row_view(acc);
            assert(v.source =~= Seq::empty());
            assert(v.vectors =~= Seq::empty());
            assert(v.sparse_vectors =~= Seq::empty());
        }
        let mut k: usize = 0;
        while k < self.roles.len()
            invariant
                k <= self.roles@.len(),
                self@ == role_views(self.roles@),
                batch_fits(self@, *batch),
                batch.columns@.len() == self@.len(),
                row < batch.rows,
                columns_of(
                    self@,
                    batch.columns@,
                    row as int,
                    text::opt_text(*refusal),
                    k as nat,
                ) == Ok::<RowV, (Seq<char>, Seq<char>)>(row_view(acc)),
            decreases self.roles.len() - k,
        {
            assert(self@[k as int] == (self.roles@[k as int].0@, self.roles@[k as int].1@));
            match read_column(
                acc,
                &self.roles[k].1,
                &batch.columns[k],
                row,
                batch.rows,
                refusal,
            ) {
                Err(message) => {
                    proof {
                        columns_stay_wrong(
                            self@,
                            batch.columns@,
                            row as int,
                            text::opt_text(*refusal),
                            k as nat + 1,
                            self@.len(),
                        );
                    }
                    return Err(RowError { row, column: self.roles[k].0.clone(), message });
                },
                Ok(next) => {
                    acc = next;
                },
            }
            k += 1;
        }
        proof {
            let at = choose|at: int| 0 <= at < self@.len() && #[trigger] self@[at].1 is Id;
            key_is_read(
                self@,
                batch.columns@,
                row as int,
                text::opt_text(*refusal),
                self@.len(),
                at,
                batch.rows as nat,
            );
        }
        let pk = acc.pk.unwrap();
        Ok(
            Document {
                pk,
                source: acc.source,
                vectors: acc.vectors,
                sparse_vectors: acc.sparse_vectors,
            },
        )
    }
}

/// What a new collection's schema has besides its vectors.
#[derive(Clone, Copy, Debug)]
pub struct NewSchema {
    pub version: u64,
    pub hnsw: HnswParams,
    pub max_fields: u32,
}

/// The dense vector of a column of fixed-size lists.
pub open spec fn derived_vector(name: Seq<char>, dim: u32, d: NewSchema) -> VectorSpecV {
    VectorSpecV {
        name: vector_named(name),
        dim,
        distance: Distance::Cosine,
        element: VectorElement::F32,
        index: VectorIndexSpec::Auto,
        hnsw: d.hnsw,
        quantization: None,
    }
}

/// Whether a column is no vector by its name.
pub open spec fn reserved(name: Seq<char>) -> bool {
    name == ID_COLUMN@ || name == SOURCE_COLUMN@ || ignored(name)
}

/// The dense and sparse vectors of the first `n` columns, or the error of a
/// column with a negative dimension.
pub open spec fn vectors_of(fields: Seq<Field>, d: NewSchema, n: nat) -> Result<
    (Seq<VectorSpecV>, Seq<SparseSpecV>),
    Failure,
>
    decreases n,
{
    if n == 0 || n > fields.len() {
        Ok((Seq::empty(), Seq::empty()))
    } else {
        match vectors_of(fields, d, (n - 1) as nat) {
            Err(e) => Err(e),
            Ok((dense, sparse)) => {
                let f = fields[n - 1];
                if reserved(f.name@) {
                    Ok((dense, sparse))
                } else if shape::fixed_vector(f.data_type) {
                    let dim = f.data_type->FixedSizeList_1;
                    if dim < 0 {
                        Err(
                            column_error(
                                f.name@,
                                ": dimension "@ + text::decimal_int(dim as int),
                            ),
                        )
                    } else {
                        Ok((dense.push(derived_vector(f.name@, dim as u32, d)), sparse))
                    }
                } else if shape::sparse(f.data_type) {
                    Ok(
                        (
                            dense,
                            sparse.push(
                                SparseSpecV { name: f.name@, modifier: SparseModifier::Plain },
                            ),
                        ),
                    )
                } else {
                    Ok((dense, sparse))
                }
            },
        }
    }
}

proof fn vectors_stay_wrong(fields: Seq<Field>, d: NewSchema, n: nat, m: nat)
    requires
        n <= m <= fields.len(),
        vectors_of(fields, d, n) is Err,
    ensures
        vectors_of(fields, d, m) == vectors_of(fields, d, n),
    decreases m - n,
{
    if n < m {
        vectors_stay_wrong(fields, d, n, (m - 1) as nat);
    }
}

/// The schema of a collection that an ingest creates: new fields are mapped,
/// there are none yet, and the columns of vectors are its vectors.
pub open spec fn derived_schema(fields: Seq<Field>, d: NewSchema) -> Result<SchemaV, Failure> {
    let names = shape::names(fields);
    if exists|i: int| shape::first_repeat(names, i) {
        let i = choose|i: int| shape::first_repeat(names, i);
        Err(Failure::InvalidArgument("duplicate column "@ + names[i]))
    } else if !names.contains(ID_COLUMN@) {
        Err(Failure::InvalidArgument("a collection put needs an _id column"@))
    } else {
        match vectors_of(fields, d, fields.len()) {
            Err(e) => Err(e),
            Ok((vectors, sparse_vectors)) => Ok(
                SchemaV {
                    version: d.version,
                    fields: Seq::empty(),
                    vectors,
                    sparse_vectors,
                    dynamic: DynamicMapping::Mapped,
                    max_fields: d.max_fields,
                    annotations: Seq::empty(),
                },
            ),
        }
    }
}

/// The schema of a collection that an ingest creates from its columns.
pub fn schema_from_arrow(fields: &Vec<Field>, defaults: &NewSchema) -> (r: Result<
    CollectionSchema,
    ServiceError,
>)
    ensures
        match r {
            Ok(s) => derived_schema(fields@, *defaults) == Ok::<SchemaV, Failure>(s@),
            Err(e) => derived_schema(fields@, *defaults) == Err::<SchemaV, Failure>(e@),
        },
{
    let ghost names = shape::names(fields@);
    if let Err(e) = unique_columns(fields) {
        proof {
            let i = choose|i: int|
                #[trigger] shape::first_repeat(names, i) && e@ == Failure::InvalidArgument(
                    "duplicate column "@ + names[i],
                );
            let j = choose|i: int| shape::first_repeat(names, i);
            one_first_repeat(names, i, j);
        }
        return Err(e);
    }
    proof {
        assert forall|i: int| !shape::first_repeat(names, i) by {
            assert(!shape::repeats_at(names, i));
        }
    }
    if !shape::has_column(fields, ID_COLUMN) {
        return Err(error::invalid("a collection put needs an _id column".to_owned()));
    }
    let mut dense: Vec<VectorSpec> = Vec::new();
    let mut sparse: Vec<SparseVectorSpec> = Vec::new();
    let mut i: usize = 0;
    proof {
        assert(collection::vector_views(dense@) =~= Seq::empty());
        assert(collection::sparse_views(sparse@) =~= Seq::empty());
    }
    while i < fields.len()
        invariant
            i <= fields@.len(),
            names == shape::names(fields@),
            names.contains(ID_COLUMN@),
            forall|i: int| !#[trigger] shape::first_repeat(names, i),
            vectors_of(fields@, *defaults, i as nat) == Ok::<
                (Seq<VectorSpecV>, Seq<SparseSpecV>),
                Failure,
            >((collection::vector_views(dense@), collection::sparse_views(sparse@))),
        decreases fields.len() - i,
    {
        let f = &fields[i];
        let name: &str = f.name.as_str();
        let ghost dv = collection::vector_views(dense@);
        let ghost sv = collection::sparse_views(sparse@);
        if text::same(name, ID_COLUMN) || text::same(name, SOURCE_COLUMN) || is_ignored(name) {
            i += 1;
            continue;
        }
        if shape::is_fixed_vector(&f.data_type) {
            let dim: i32 = match &f.data_type {
                DataType::FixedSizeList(_, dim) => *dim,
                _ => 0,
            };
            if dim < 0 {
                proof {
                    vectors_stay_wrong(fields@, *defaults, i as nat + 1, fields@.len());
                }
                return Err(
                    column_failure(
                        name,
                        &text::cat2(": dimension ", &text::dec_i64(dim as i64)),
                    ),
                );
            }
            dense.push(
                VectorSpec {
                    name: vector_of_column(name),
                    dim: dim as u32,
                    distance: Distance::Cosine,
                    element: VectorElement::F32,
                    index: VectorIndexSpec::Auto,
                    hnsw: defaults.hnsw,
                    quantization: None,
                },
            );
            assert(collection::vector_views(dense@) =~= dv.push(
                derived_vector(name@, dim as u32, *defaults),
            ));
        } else if shape::is_sparse(&f.data_type) {
            sparse.push(
                SparseVectorSpec { name: name.to_owned(), modifier: SparseModifier::Plain },
            );
            assert(collection::sparse_views(sparse@) =~= sv.push(
                SparseSpecV { name: name@, modifier: SparseModifier::Plain },
            ));
        }
        i += 1;
    }
    let schema = CollectionSchema {
        version: defaults.version,
        fields: Vec::new(),
        vectors: dense,
        sparse_vectors: sparse,
        dynamic: DynamicMapping::Mapped,
        max_fields: defaults.max_fields,
        annotations: Vec::new(),
    };
    proof {
        assert(schema@.fields =~= Seq::empty());
        assert(schema@.annotations =~= Seq::empty());
    }
    Ok(schema)
}

/// The error of a derived schema that the rules on schemas refuse.
pub fn invalid_collection(why: &str) -> (r: ServiceError)
    ensures
        r@ == Failure::InvalidArgument(
            "the Arrow schema makes an invalid collection: "@ + why@,
        ),
{
    error::invalid(text::cat2("the Arrow schema makes an invalid collection: ", why))
}

} // verus!
