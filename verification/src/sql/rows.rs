//! A collection as a table: its columns, and the cells of its rows.

use crate::collection::{CollectionSchema, FieldKind, FieldKindV, SchemaV};
use crate::error::{Failure, ServiceError};
use crate::exec::doc_fetch;
use crate::exec::doc_fetch::{FetchColumns, FetchedRow};
use crate::exec::project;
use crate::exec::project::IndexValue;
use crate::ir;
use crate::ir::{SparseV, SparseVector};
use crate::json::pk;
use crate::json::value;
use crate::json::value::{Json, Tree};
use crate::key::{Key, PrimaryKey};
use crate::sql::json_path;
use crate::text;
use vstd::prelude::*;
use vstd::string::*;

verus! {

/// One column of a collection's table or of a search function's.
#[derive(Clone, Copy, Debug, PartialEq, Eq, Structural)]
pub enum Column {
    Id,
    Score,
    Source,
    SeqNo,
    Partition,
    /// A place among the schema's fields.
    Field(usize),
    /// A place among the schema's dense vectors.
    Vector(usize),
    /// A place among the schema's sparse vectors.
    Sparse(usize),
}

/// The type of a column.
#[derive(Clone, Copy, Debug, PartialEq, Eq, Structural)]
pub enum ColumnType {
    Utf8,
    UInt64,
    UInt32,
    Int64,
    Float32,
    Float64,
    Boolean,
    /// Milliseconds since the epoch, UTC.
    Millis,
    /// A list of so many numbers.
    Vector(i32),
    /// The type of the sparse column of a number.
    Sparse(usize),
}

/// A column's name and type, and whether it may be null.
#[derive(Debug)]
pub struct TableField {
    pub name: String,
    pub data_type: ColumnType,
    pub nullable: bool,
}

/// What a column's field is.
pub struct TableFieldV {
    pub name: Seq<char>,
    pub data_type: ColumnType,
    pub nullable: bool,
}

impl View for TableField {
    type V = TableFieldV;

    open spec fn view(&self) -> TableFieldV {
        TableFieldV { name: self.name@, data_type: self.data_type, nullable: self.nullable }
    }
}

/// What some columns are.
pub open spec fn column_views(s: Seq<(Column, TableField)>) -> Seq<(Column, TableFieldV)> {
    Seq::new(s.len(), |i: int| (s[i].0, s[i].1@))
}

/// The column name of a dense vector.
pub open spec fn vector_title(name: Seq<char>) -> Seq<char> {
    if name.len() == 0 {
        "_vector"@
    } else {
        name
    }
}

/// The column type of a field.
pub open spec fn type_of(k: FieldKindV) -> ColumnType {
    match k {
        FieldKindV::Text { .. } => ColumnType::Utf8,
        FieldKindV::Keyword => ColumnType::Utf8,
        FieldKindV::Uuid => ColumnType::Utf8,
        FieldKindV::Json => ColumnType::Utf8,
        FieldKindV::I64 => ColumnType::Int64,
        FieldKindV::F64 => ColumnType::Float64,
        FieldKindV::Bool => ColumnType::Boolean,
        FieldKindV::Date => ColumnType::Millis,
    }
}

/// A dimension as the length of a list.
pub open spec fn list_len(dim: u32) -> i32 {
    if dim <= i32::MAX {
        dim as i32
    } else {
        i32::MAX
    }
}

/// The columns that every table has.
pub open spec fn fixed_columns(with_score: bool) -> Seq<(Column, TableFieldV)> {
    let id = (
        Column::Id,
        TableFieldV { name: "_id"@, data_type: ColumnType::Utf8, nullable: false },
    );
    let score = (
        Column::Score,
        TableFieldV { name: "_score"@, data_type: ColumnType::Float32, nullable: false },
    );
    let source = (
        Column::Source,
        TableFieldV { name: "_source"@, data_type: ColumnType::Utf8, nullable: false },
    );
    let seq_no = (
        Column::SeqNo,
        TableFieldV { name: "_seq_no"@, data_type: ColumnType::UInt64, nullable: true },
    );
    let partition = (
        Column::Partition,
        TableFieldV { name: "_partition"@, data_type: ColumnType::UInt32, nullable: true },
    );
    if with_score {
        seq![id, score, source, seq_no, partition]
    } else {
        seq![id, source, seq_no, partition]
    }
}

/// The columns of a schema's fields.
pub open spec fn field_columns(s: SchemaV) -> Seq<(Column, TableFieldV)> {
    Seq::new(
        s.fields.len(),
        |i: int|
            (
                Column::Field(i as usize),
                TableFieldV {
                    name: s.fields[i].name,
                    data_type: type_of(s.fields[i].kind),
                    nullable: true,
                },
            ),
    )
}

/// The columns of a schema's dense vectors.
pub open spec fn vector_columns(s: SchemaV) -> Seq<(Column, TableFieldV)> {
    Seq::new(
        s.vectors.len(),
        |i: int|
            (
                Column::Vector(i as usize),
                TableFieldV {
                    name: vector_title(s.vectors[i].name),
                    data_type: ColumnType::Vector(list_len(s.vectors[i].dim)),
                    nullable: true,
                },
            ),
    )
}

/// The columns of a schema's sparse vectors.
pub open spec fn sparse_columns(s: SchemaV) -> Seq<(Column, TableFieldV)> {
    Seq::new(
        s.sparse_vectors.len(),
        |j: int|
            (
                Column::Sparse(j as usize),
                TableFieldV {
                    name: s.sparse_vectors[j].name,
                    data_type: ColumnType::Sparse(j as usize),
                    nullable: true,
                },
            ),
    )
}

/// Every column of a schema's table, in order.
pub open spec fn columns_on(s: SchemaV, with_score: bool) -> Seq<(Column, TableFieldV)> {
    fixed_columns(with_score) + field_columns(s) + vector_columns(s) + sparse_columns(s)
}

/// Whether a schema has what a column shows.
pub open spec fn in_schema(c: Column, s: SchemaV) -> bool {
    match c {
        Column::Field(i) => i < s.fields.len(),
        Column::Vector(i) => i < s.vectors.len(),
        Column::Sparse(j) => j < s.sparse_vectors.len(),
        _ => true,
    }
}

fn table_field(name: &str, data_type: ColumnType, nullable: bool) -> (r: TableField)
    ensures
        r@ == (TableFieldV { name: name@, data_type, nullable }),
{
    TableField { name: name.to_owned(), data_type, nullable }
}

fn field_type(kind: &FieldKind) -> (r: ColumnType)
    ensures
        r == type_of(kind@),
{
    match kind {
        FieldKind::Text { .. } => ColumnType::Utf8,
        FieldKind::Keyword => ColumnType::Utf8,
        FieldKind::Uuid => ColumnType::Utf8,
        FieldKind::Json => ColumnType::Utf8,
        FieldKind::I64 => ColumnType::Int64,
        FieldKind::F64 => ColumnType::Float64,
        FieldKind::Bool => ColumnType::Boolean,
        FieldKind::Date => ColumnType::Millis,
    }
}

fn title_of(name: &str) -> (r: String)
    ensures
        r@ == vector_title(name@),
{
    if name.unicode_len() == 0 {
        "_vector".to_owned()
    } else {
        name.to_owned()
    }
}

/// Every column of a schema's table, in order; a search function's has the
/// score behind the key.
pub fn columns_of(schema: &CollectionSchema, with_score: bool) -> (r: Vec<(Column, TableField)>)
    ensures
        column_views(r@) == columns_on(schema@, with_score),
        forall|k: int| 0 <= k < r@.len() ==> in_schema((#[trigger] r@[k]).0, schema@),
{
    let mut out: Vec<(Column, TableField)> = Vec::new();
    out.push((Column::Id, table_field("_id", ColumnType::Utf8, false)));
    if with_score {
        out.push((Column::Score, table_field("_score", ColumnType::Float32, false)));
    }
    out.push((Column::Source, table_field("_source", ColumnType::Utf8, false)));
    out.push((Column::SeqNo, table_field("_seq_no", ColumnType::UInt64, true)));
    out.push((Column::Partition, table_field("_partition", ColumnType::UInt32, true)));
    let ghost first = fixed_columns(with_score);
    assert(column_views(out@) =~= first);
    let ghost fc = field_columns(schema@);
    let mut i: usize = 0;
    assert(first + fc.take(0) =~= first);
    while i < schema.fields.len()
        invariant
            i <= schema.fields@.len(),
            forall|n: int| 0 <= n < out@.len() ==> in_schema((#[trigger] out@[n]).0, schema@),
            fc == field_columns(schema@),
            column_views(out@) == first + fc.take(i as int),
        decreases schema.fields.len() - i,
    {
        let f = &schema.fields[i];
        assert(schema@.fields[i as int] == f@);
        let made = (Column::Field(i), table_field(&f.name, field_type(&f.kind), true));
        let ghost before = column_views(out@);
        out.push(made);
        assert(column_views(out@) =~= before.push((made.0, made.1@)));
        assert(fc.take(i as int + 1) =~= fc.take(i as int).push(fc[i as int]));
        assert(first + fc.take(i as int + 1) =~= before.push(fc[i as int]));
        i += 1;
    }
    assert(fc.take(fc.len() as int) =~= fc);
    let ghost second = first + fc;
    let ghost vc = vector_columns(schema@);
    let mut j: usize = 0;
    assert(second + vc.take(0) =~= second);
    while j < schema.vectors.len()
        invariant
            j <= schema.vectors@.len(),
            forall|n: int| 0 <= n < out@.len() ==> in_schema((#[trigger] out@[n]).0, schema@),
            vc == vector_columns(schema@),
            column_views(out@) == second + vc.take(j as int),
        decreases schema.vectors.len() - j,
    {
        let v = &schema.vectors[j];
        assert(schema@.vectors[j as int] == v@);
        let dim: i32 = if v.dim <= 0x7fff_ffff {
            v.dim as i32
        } else {
            i32::MAX
        };
        let title = title_of(&v.name);
        let made = (Column::Vector(j), table_field(&title, ColumnType::Vector(dim), true));
        let ghost before = column_views(out@);
        out.push(made);
        assert(column_views(out@) =~= before.push((made.0, made.1@)));
        assert(vc.take(j as int + 1) =~= vc.take(j as int).push(vc[j as int]));
        assert(second + vc.take(j as int + 1) =~= before.push(vc[j as int]));
        j += 1;
    }
    assert(vc.take(vc.len() as int) =~= vc);
    let ghost third = second + vc;
    let ghost sc = sparse_columns(schema@);
    let mut k: usize = 0;
    assert(third + sc.take(0) =~= third);
    while k < schema.sparse_vectors.len()
        invariant
            k <= schema.sparse_vectors@.len(),
            forall|n: int| 0 <= n < out@.len() ==> in_schema((#[trigger] out@[n]).0, schema@),
            sc == sparse_columns(schema@),
            column_views(out@) == third + sc.take(k as int),
        decreases schema.sparse_vectors.len() - k,
    {
        let s = &schema.sparse_vectors[k];
        assert(schema@.sparse_vectors[k as int] == s@);
        let made = (Column::Sparse(k), table_field(&s.name, ColumnType::Sparse(k), true));
        let ghost before = column_views(out@);
        out.push(made);
        assert(column_views(out@) =~= before.push((made.0, made.1@)));
        assert(sc.take(k as int + 1) =~= sc.take(k as int).push(sc[k as int]));
        assert(third + sc.take(k as int + 1) =~= before.push(sc[k as int]));
        k += 1;
    }
    assert(sc.take(sc.len() as int) =~= sc);
    out
}

/// What the fields of some columns are.
pub open spec fn only_fields(s: Seq<(Column, TableFieldV)>) -> Seq<TableFieldV> {
    Seq::new(s.len(), |i: int| s[i].1)
}

/// What some fields are.
pub open spec fn table_field_views(s: Seq<TableField>) -> Seq<TableFieldV> {
    Seq::new(s.len(), |i: int| s[i]@)
}

/// The columns of a collection's table.
pub fn collection_arrow_schema(schema: &CollectionSchema) -> (r: Vec<TableField>)
    ensures
        table_field_views(r@) == only_fields(columns_on(schema@, false)),
{
    let all = columns_of(schema, false);
    let ghost av = columns_on(schema@, false);
    let mut out: Vec<TableField> = Vec::new();
    let mut i: usize = 0;
    while i < all.len()
        invariant
            i <= all@.len(),
            av == column_views(all@),
            out@.len() == i,
            forall|k: int| 0 <= k < i ==> (#[trigger] out@[k])@ == av[k].1,
        decreases all.len() - i,
    {
        assert(av[i as int] == (all@[i as int].0, all@[i as int].1@));
        let f = &all[i].1;
        out.push(table_field(&f.name, f.data_type, f.nullable));
        i += 1;
    }
    assert(table_field_views(out@) =~= only_fields(av));
    out
}

/// Some columns of a table, by their places.
pub open spec fn projected(
    all: Seq<(Column, TableFieldV)>,
    places: Seq<usize>,
    n: nat,
) -> Result<Seq<(Column, TableFieldV)>, Seq<char>>
    decreases n,
{
    if n == 0 || n > places.len() {
        Ok(Seq::empty())
    } else {
        match projected(all, places, (n - 1) as nat) {
            Err(e) => Err(e),
            Ok(before) => if places[n - 1] < all.len() {
                Ok(before.push(all[places[n - 1] as int]))
            } else {
                Err("column "@ + text::decimal(places[n - 1] as nat) + " is out of range"@)
            },
        }
    }
}

proof fn projection_stays_wrong(
    all: Seq<(Column, TableFieldV)>,
    places: Seq<usize>,
    n: nat,
    m: nat,
)
    requires
        n <= m <= places.len(),
        projected(all, places, n) is Err,
    ensures
        projected(all, places, m) == projected(all, places, n),
    decreases m,
{
    if n < m {
        projection_stays_wrong(all, places, n, (m - 1) as nat);
    }
}

/// The columns that a projection picks, every one without it.
pub open spec fn picked_columns(
    s: SchemaV,
    with_score: bool,
    places: Option<Seq<usize>>,
) -> Result<Seq<(Column, TableFieldV)>, Seq<char>> {
    match places {
        None => Ok(columns_on(s, with_score)),
        Some(places) => projected(columns_on(s, with_score), places, places.len()),
    }
}

/// The places of a projection that may be absent.
pub open spec fn opt_places(p: Option<&Vec<usize>>) -> Option<Seq<usize>> {
    match p {
        Some(p) => Some(p@),
        None => None,
    }
}

/// Makes the rows of a projection of a table's columns.
pub struct RowEncoder {
    pub schema: CollectionSchema,
    pub columns: Vec<Column>,
    pub output: Vec<TableField>,
}

/// Whether an encoder's columns are its schema's, each with its field.
pub open spec fn encodes(e: RowEncoder) -> bool {
    &&& e.columns@.len() == e.output@.len()
    &&& forall|k: int| 0 <= k < e.columns@.len() ==> in_schema(#[trigger] e.columns@[k], e.schema@)
}

/// The columns of an encoder with their fields.
pub open spec fn encoder_columns(e: RowEncoder) -> Seq<(Column, TableFieldV)> {
    Seq::new(e.columns@.len(), |i: int| (e.columns@[i], e.output@[i]@))
}

/// The places of the dense vectors among the first columns.
pub open spec fn vector_places(columns: Seq<Column>, n: nat) -> Seq<usize>
    decreases n,
{
    if n == 0 || n > columns.len() {
        Seq::empty()
    } else {
        match columns[n - 1] {
            Column::Vector(i) => vector_places(columns, (n - 1) as nat).push(i),
            _ => vector_places(columns, (n - 1) as nat),
        }
    }
}

/// The places of the sparse vectors among the first columns.
pub open spec fn sparse_places(columns: Seq<Column>, n: nat) -> Seq<usize>
    decreases n,
{
    if n == 0 || n > columns.len() {
        Seq::empty()
    } else {
        match columns[n - 1] {
            Column::Sparse(j) => sparse_places(columns, (n - 1) as nat).push(j),
            _ => sparse_places(columns, (n - 1) as nat),
        }
    }
}

/// The names of the vectors among the first columns.
pub open spec fn vector_names_in(s: SchemaV, columns: Seq<Column>, n: nat) -> Seq<Seq<char>>
    decreases n,
{
    if n == 0 || n > columns.len() {
        Seq::empty()
    } else {
        let before = vector_names_in(s, columns, (n - 1) as nat);
        match columns[n - 1] {
            Column::Vector(i) => if i < s.vectors.len() {
                before.push(s.vectors[i as int].name)
            } else {
                before
            },
            Column::Sparse(j) => if j < s.sparse_vectors.len() {
                before.push(s.sparse_vectors[j as int].name)
            } else {
                before
            },
            _ => before,
        }
    }
}

/// Whether a column is read from the source.
pub open spec fn from_source(c: Column) -> bool {
    c is Source || c is Field
}

/// Whether any column is read from the source.
pub open spec fn any_from_source(columns: Seq<Column>) -> bool {
    exists|i: int| 0 <= i < columns.len() && from_source(#[trigger] columns[i])
}

/// Whether a column is a document's place in its stream.
pub open spec fn is_position(c: Column) -> bool {
    c is SeqNo || c is Partition
}

impl RowEncoder {
    /// The encoder of a projection of a schema's columns, every column
    /// without one.
    pub fn new(schema: &CollectionSchema, with_score: bool, projection: Option<&Vec<usize>>) -> (r:
        Result<RowEncoder, String>)
        ensures
            match r {
                Ok(e) => picked_columns(schema@, with_score, opt_places(projection)) == Ok::<
                    Seq<(Column, TableFieldV)>,
                    Seq<char>,
                >(encoder_columns(e)) && e.schema@ == schema@ && encodes(e),
                Err(m) => picked_columns(schema@, with_score, opt_places(projection)) == Err::<
                    Seq<(Column, TableFieldV)>,
                    Seq<char>,
                >(m@),
            },
    {
        let all = columns_of(schema, with_score);
        let ghost av = columns_on(schema@, with_score);
        let mut columns: Vec<Column> = Vec::new();
        let mut output: Vec<TableField> = Vec::new();
        match projection {
            None => {
                let mut i: usize = 0;
                while i < all.len()
                    invariant
                        i <= all@.len(),
                        av == column_views(all@),
                        forall|k: int|
                            0 <= k < all@.len() ==> in_schema((#[trigger] all@[k]).0, schema@),
                        forall|k: int|
                            0 <= k < columns@.len() ==> in_schema(#[trigger] columns@[k], schema@),
                        columns@.len() == i,
                        output@.len() == i,
                        forall|k: int|
                            0 <= k < i ==> (#[trigger] columns@[k]) == av[k].0 && output@[k]@
                                == av[k].1,
                    decreases all.len() - i,
                {
                    assert(av[i as int] == (all@[i as int].0, all@[i as int].1@));
                    let f = &all[i].1;
                    columns.push(all[i].0);
                    output.push(table_field(&f.name, f.data_type, f.nullable));
                    i += 1;
                }
                let e = RowEncoder { schema: schema.copy(), columns, output };
                assert(encoder_columns(e) =~= av);
                Ok(e)
            },
            Some(places) => {
                let mut i: usize = 0;
                let ghost mut got = Seq::<(Column, TableFieldV)>::empty();
                while i < places.len()
                    invariant
                        i <= places@.len(),
                        projection == Some(places),
                        forall|k: int|
                            0 <= k < all@.len() ==> in_schema((#[trigger] all@[k]).0, schema@),
                        forall|k: int|
                            0 <= k < columns@.len() ==> in_schema(#[trigger] columns@[k], schema@),
                        av == columns_on(schema@, with_score),
                        av == column_views(all@),
                        projected(av, places@, i as nat) == Ok::<
                            Seq<(Column, TableFieldV)>,
                            Seq<char>,
                        >(got),
                        columns@.len() == got.len(),
                        output@.len() == got.len(),
                        forall|k: int|
                            0 <= k < got.len() ==> (#[trigger] columns@[k]) == got[k].0
                                && output@[k]@ == got[k].1,
                    decreases places.len() - i,
                {
                    let at: usize = places[i];
                    if at >= all.len() {
                        let shown = text::dec(at as u64);
                        proof {
                            projection_stays_wrong(av, places@, (i + 1) as nat, places@.len());
                        }
                        return Err(text::cat3("column ", &shown, " is out of range"));
                    }
                    assert(av[at as int] == (all@[at as int].0, all@[at as int].1@));
                    let f = &all[at].1;
                    columns.push(all[at].0);
                    output.push(table_field(&f.name, f.data_type, f.nullable));
                    proof {
                        got = got.push(av[at as int]);
                    }
                    i += 1;
                }
                let e = RowEncoder { schema: schema.copy(), columns, output };
                assert(encoder_columns(e) =~= got);
                Ok(e)
            },
        }
    }

    /// Whether any column is read from the source.
    pub fn needs_source(&self) -> (r: bool)
        ensures
            r == any_from_source(self.columns@),
    {
        let mut i: usize = 0;
        while i < self.columns.len()
            invariant
                i <= self.columns@.len(),
                forall|k: int| 0 <= k < i ==> !from_source(#[trigger] self.columns@[k]),
            decreases self.columns.len() - i,
        {
            let found = match self.columns[i] {
                Column::Source => true,
                Column::Field(_) => true,
                _ => false,
            };
            if found {
                assert(from_source(self.columns@[i as int]));
                return true;
            }
            i += 1;
        }
        false
    }

    /// Whether any column is a document's place in its stream.
    pub fn positioned(&self) -> (r: bool)
        ensures
            r == exists|i: int|
                0 <= i < self.columns@.len() && is_position(#[trigger] self.columns@[i]),
    {
        let mut i: usize = 0;
        while i < self.columns.len()
            invariant
                i <= self.columns@.len(),
                forall|k: int| 0 <= k < i ==> !is_position(#[trigger] self.columns@[k]),
            decreases self.columns.len() - i,
        {
            let found = match self.columns[i] {
                Column::SeqNo => true,
                Column::Partition => true,
                _ => false,
            };
            if found {
                assert(is_position(self.columns@[i as int]));
                return true;
            }
            i += 1;
        }
        false
    }

    /// What to fetch for the columns.
    pub fn fetch_columns(&self) -> (r: FetchColumns)
        ensures
            r.source == any_from_source(self.columns@),
            r.vectors@ == vector_places(self.columns@, self.columns@.len()),
            r.sparse@ == sparse_places(self.columns@, self.columns@.len()),
    {
        let mut vectors: Vec<usize> = Vec::new();
        let mut sparse: Vec<usize> = Vec::new();
        let mut i: usize = 0;
        while i < self.columns.len()
            invariant
                i <= self.columns@.len(),
                vectors@ == vector_places(self.columns@, i as nat),
                sparse@ == sparse_places(self.columns@, i as nat),
            decreases self.columns.len() - i,
        {
            match self.columns[i] {
                Column::Vector(at) => {
                    vectors.push(at);
                },
                Column::Sparse(at) => {
                    sparse.push(at);
                },
                _ => {},
            }
            i += 1;
        }
        FetchColumns { source: self.needs_source(), vectors, sparse }
    }

    /// The names of the vectors among the columns.
    pub fn vector_names(&self) -> (r: Vec<String>)
        ensures
            text::texts(r@) == vector_names_in(self.schema@, self.columns@, self.columns@.len()),
    {
        let mut out: Vec<String> = Vec::new();
        let mut i: usize = 0;
        assert(text::texts(out@) =~= Seq::empty());
        while i < self.columns.len()
            invariant
                i <= self.columns@.len(),
                text::texts(out@) == vector_names_in(self.schema@, self.columns@, i as nat),
            decreases self.columns.len() - i,
        {
            let ghost before = text::texts(out@);
            match self.columns[i] {
                Column::Vector(at) => if at < self.schema.vectors.len() {
                    assert(self.schema@.vectors[at as int].name
                        == self.schema.vectors@[at as int].name@);
                    out.push(self.schema.vectors[at].name.clone());
                    assert(text::texts(out@) =~= before.push(
                        self.schema.vectors@[at as int].name@,
                    ));
                },
                Column::Sparse(at) => if at < self.schema.sparse_vectors.len() {
                    assert(self.schema@.sparse_vectors[at as int].name
                        == self.schema.sparse_vectors@[at as int].name@);
                    out.push(self.schema.sparse_vectors[at].name.clone());
                    assert(text::texts(out@) =~= before.push(
                        self.schema.sparse_vectors@[at as int].name@,
                    ));
                },
                _ => {},
            }
            i += 1;
        }
        out
    }
}

/// One row, before projection. `firsts` holds the first well-formed value of
/// each field of the schema.
pub struct SqlRow {
    pub pk: Option<PrimaryKey>,
    pub score: Option<u32>,
    pub source: Option<Vec<(String, Json)>>,
    pub firsts: Vec<Option<IndexValue>>,
    pub seq_no: Option<u64>,
    pub partition: Option<u32>,
    pub vectors: Vec<(String, Vec<u32>)>,
    pub sparse: Vec<(String, SparseVector)>,
}

/// The row of a fetched document.
pub fn row_of(row: FetchedRow, firsts: Vec<Option<IndexValue>>) -> (r: SqlRow)
    ensures
        r.pk == Some(row.pk),
        r.score is None,
        r.source == row.source,
        r.firsts == firsts,
        r.seq_no == Some(row.seq_no),
        r.partition == Some(row.partition),
        r.vectors == row.vectors,
        r.sparse == row.sparse_vectors,
{
    SqlRow {
        pk: Some(row.pk),
        score: None,
        source: row.source,
        firsts,
        seq_no: Some(row.seq_no),
        partition: Some(row.partition),
        vectors: row.vectors,
        sparse: row.sparse_vectors,
    }
}

/// One cell of a row, by the type of its column.
pub enum SqlCell {
    Text(Option<String>),
    UInt64(Option<u64>),
    UInt32(Option<u32>),
    Int64(Option<i64>),
    /// The bits of a number.
    Float32(u32),
    Float64(Option<u64>),
    Boolean(Option<bool>),
    Millis(Option<i64>),
    Vector(Option<Vec<u32>>),
    Sparse(Option<SparseVector>),
}

/// What a cell is.
pub enum CellV {
    Text(Option<Seq<char>>),
    UInt64(Option<u64>),
    UInt32(Option<u32>),
    Int64(Option<i64>),
    Float32(u32),
    Float64(Option<u64>),
    Boolean(Option<bool>),
    Millis(Option<i64>),
    Vector(Option<Seq<u32>>),
    Sparse(Option<SparseV>),
}

impl View for SqlCell {
    type V = CellV;

    open spec fn view(&self) -> CellV {
        match self {
            SqlCell::Text(s) => CellV::Text(text::opt_text(*s)),
            SqlCell::UInt64(n) => CellV::UInt64(*n),
            SqlCell::UInt32(n) => CellV::UInt32(*n),
            SqlCell::Int64(n) => CellV::Int64(*n),
            SqlCell::Float32(b) => CellV::Float32(*b),
            SqlCell::Float64(b) => CellV::Float64(*b),
            SqlCell::Boolean(b) => CellV::Boolean(*b),
            SqlCell::Millis(n) => CellV::Millis(*n),
            SqlCell::Vector(v) => CellV::Vector(
                match v {
                    Some(v) => Some(v@),
                    None => None,
                },
            ),
            SqlCell::Sparse(v) => CellV::Sparse(
                match v {
                    Some(v) => Some(v@),
                    None => None,
                },
            ),
        }
    }
}

/// The text that shows a key: a number in decimal, a UUID in lower case with
/// hyphens.
pub open spec fn key_text(k: Key) -> Seq<char> {
    match k {
        Key::U64(n) => text::decimal(n as nat),
        Key::Str(s) => s,
        Key::Uuid(b) => pk::uuid_text(b),
    }
}

/// The text that shows a key.
pub fn pk_text(key: &PrimaryKey) -> (r: String)
    ensures
        r@ == key_text(key@),
{
    match key {
        PrimaryKey::U64(n) => text::dec(*n),
        PrimaryKey::Str(s) => s.clone(),
        PrimaryKey::Uuid(b) => pk::format_uuid(b),
    }
}

/// The JSON text at a field's path in a source: the whole source for an
/// empty path, nothing for a null.
pub open spec fn json_cell(path: Seq<char>, source: Option<Seq<(Seq<char>, Tree)>>) -> Option<
    Seq<char>,
> {
    match source {
        None => None,
        Some(es) => if path.len() == 0 {
            Some(value::json_text(Tree::Object(es)))
        } else {
            match json_path::at_path(es, path, 0) {
                None => None,
                Some(Tree::Null) => None,
                Some(t) => Some(value::json_text(t)),
            }
        },
    }
}

/// The cell of a typed field, of its first value.
pub open spec fn value_cell(k: FieldKindV, first: Option<IndexValue>) -> CellV {
    match k {
        FieldKindV::I64 => CellV::Int64(
            match first {
                Some(IndexValue::I64(n)) => Some(n),
                _ => None,
            },
        ),
        FieldKindV::F64 => CellV::Float64(
            match first {
                Some(IndexValue::F64(b)) => Some(b),
                _ => None,
            },
        ),
        FieldKindV::Bool => CellV::Boolean(
            match first {
                Some(IndexValue::Bool(b)) => Some(b),
                _ => None,
            },
        ),
        FieldKindV::Date => CellV::Millis(
            match first {
                Some(IndexValue::Date(ms)) => Some(ms),
                _ => None,
            },
        ),
        _ => CellV::Text(
            match first {
                Some(IndexValue::Text(s)) => Some(s@),
                Some(IndexValue::Keyword(s)) => Some(s@),
                Some(IndexValue::Uuid(b)) => Some(pk::uuid_text(b@)),
                _ => None,
            },
        ),
    }
}

/// The first value of a field of a row.
pub open spec fn first_of(row: SqlRow, i: usize) -> Option<IndexValue> {
    if i < row.firsts@.len() {
        row.firsts@[i as int]
    } else {
        None
    }
}

/// The error of a vector whose length is not the schema's.
pub open spec fn bad_dimension(name: Seq<char>, len: nat, dim: u32) -> Failure {
    Failure::Internal(
        "vector "@ + name + " has "@ + text::decimal(len) + " dimensions, the schema "@
            + text::decimal(dim as nat),
    )
}

/// The cell of a column of a row.
pub open spec fn cell_of(s: SchemaV, column: Column, row: SqlRow) -> Result<CellV, Failure> {
    match column {
        Column::Id => Ok(
            CellV::Text(
                Some(
                    match row.pk {
                        Some(k) => key_text(k@),
                        None => ""@,
                    },
                ),
            ),
        ),
        Column::Score => Ok(
            CellV::Float32(
                match row.score {
                    Some(b) => b,
                    None => 0,
                },
            ),
        ),
        Column::Source => Ok(
            CellV::Text(
                Some(
                    match project::opt_entries(row.source) {
                        Some(es) => value::json_text(Tree::Object(es)),
                        None => "{}"@,
                    },
                ),
            ),
        ),
        Column::SeqNo => Ok(CellV::UInt64(row.seq_no)),
        Column::Partition => Ok(CellV::UInt32(row.partition)),
        Column::Field(i) => {
            let f = s.fields[i as int];
            if f.kind is Json {
                Ok(CellV::Text(json_cell(f.source_path, project::opt_entries(row.source))))
            } else {
                Ok(value_cell(f.kind, first_of(row, i)))
            }
        },
        Column::Vector(i) => {
            let v = s.vectors[i as int];
            match doc_fetch::named_value(doc_fetch::dense_views(row.vectors@), v.name) {
                None => Ok(CellV::Vector(None)),
                Some(bits) => if bits.len() == v.dim {
                    Ok(CellV::Vector(Some(bits)))
                } else {
                    Err(bad_dimension(v.name, bits.len(), v.dim))
                },
            }
        },
        Column::Sparse(j) => Ok(
            CellV::Sparse(
                doc_fetch::named_value(
                    doc_fetch::sparse_views(row.sparse@),
                    s.sparse_vectors[j as int].name,
                ),
            ),
        ),
    }
}

fn text_of_entries(es: &Vec<(String, Json)>) -> (r: String)
    ensures
        r@ == value::json_text(Tree::Object(value::entries_of(es@))),
{
    let copied = project::copy_entries(es);
    let ghost made = copied;
    let whole = Json::Object(copied);
    proof {
        value::view_object(made);
    }
    whole.text()
}

fn json_text_at(path: &str, source: &Option<Vec<(String, Json)>>) -> (r: Option<String>)
    ensures
        text::opt_text(r) == json_cell(path@, project::opt_entries(*source)),
{
    match source {
        None => None,
        Some(es) => {
            if path.unicode_len() == 0 {
                return Some(text_of_entries(es));
            }
            match json_path::json_at(es, path) {
                None => None,
                Some(v) => match v {
                    Json::Null => None,
                    v => {
                        assert(!(v@ is Null));
                        Some(v.text())
                    },
                },
            }
        },
    }
}

fn typed_cell(kind: &FieldKind, first: Option<&IndexValue>) -> (r: SqlCell)
    requires
        !(kind@ is Json),
    ensures
        r@ == value_cell(
            kind@,
            match first {
                Some(v) => Some(*v),
                None => None,
            },
        ),
{
    match kind {
        FieldKind::I64 => SqlCell::Int64(
            match first {
                Some(IndexValue::I64(n)) => Some(*n),
                _ => None,
            },
        ),
        FieldKind::F64 => SqlCell::Float64(
            match first {
                Some(IndexValue::F64(b)) => Some(*b),
                _ => None,
            },
        ),
        FieldKind::Bool => SqlCell::Boolean(
            match first {
                Some(IndexValue::Bool(b)) => Some(*b),
                _ => None,
            },
        ),
        FieldKind::Date => SqlCell::Millis(
            match first {
                Some(IndexValue::Date(ms)) => Some(*ms),
                _ => None,
            },
        ),
        _ => SqlCell::Text(
            match first {
                Some(IndexValue::Text(s)) => Some(s.clone()),
                Some(IndexValue::Keyword(s)) => Some(s.clone()),
                Some(IndexValue::Uuid(b)) => Some(pk::format_uuid(b)),
                _ => None,
            },
        ),
    }
}

proof fn named_at<T>(s: Seq<(Seq<char>, T)>, name: Seq<char>, i: int)
    requires
        0 <= i < s.len(),
    ensures
        s[i].0 == name ==> doc_fetch::named_value(s.skip(i), name) == Some(s[i].1),
        s[i].0 != name ==> doc_fetch::named_value(s.skip(i), name) == doc_fetch::named_value(
            s.skip(i + 1),
            name,
        ),
{
    assert(s.skip(i)[0] == s[i]);
    assert(s.skip(i).drop_first() =~= s.skip(i + 1));
}

fn dense_named<'a>(vectors: &'a Vec<(String, Vec<u32>)>, name: &str) -> (r: Option<&'a Vec<u32>>)
    ensures
        match r {
            Some(v) => doc_fetch::named_value(doc_fetch::dense_views(vectors@), name@) == Some(v@),
            None => doc_fetch::named_value(doc_fetch::dense_views(vectors@), name@) is None,
        },
{
    let ghost all = doc_fetch::dense_views(vectors@);
    let mut i: usize = 0;
    assert(all.skip(0) =~= all);
    while i < vectors.len()
        invariant
            i <= vectors@.len(),
            all == doc_fetch::dense_views(vectors@),
            doc_fetch::named_value(all, name@) == doc_fetch::named_value(
                all.skip(i as int),
                name@,
            ),
        decreases vectors.len() - i,
    {
        proof {
            named_at(all, name@, i as int);
        }
        if text::same(&vectors[i].0, name) {
            return Some(&vectors[i].1);
        }
        i += 1;
    }
    None
}

fn sparse_named<'a>(vectors: &'a Vec<(String, SparseVector)>, name: &str) -> (r: Option<
    &'a SparseVector,
>)
    ensures
        match r {
            Some(v) => doc_fetch::named_value(doc_fetch::sparse_views(vectors@), name@) == Some(v@),
            None => doc_fetch::named_value(doc_fetch::sparse_views(vectors@), name@) is None,
        },
{
    let ghost all = doc_fetch::sparse_views(vectors@);
    let mut i: usize = 0;
    assert(all.skip(0) =~= all);
    while i < vectors.len()
        invariant
            i <= vectors@.len(),
            all == doc_fetch::sparse_views(vectors@),
            doc_fetch::named_value(all, name@) == doc_fetch::named_value(
                all.skip(i as int),
                name@,
            ),
        decreases vectors.len() - i,
    {
        proof {
            named_at(all, name@, i as int);
        }
        if text::same(&vectors[i].0, name) {
            return Some(&vectors[i].1);
        }
        i += 1;
    }
    None
}

fn cell(schema: &CollectionSchema, column: Column, row: &SqlRow) -> (r: Result<
    SqlCell,
    ServiceError,
>)
    requires
        in_schema(column, schema@),
    ensures
        match r {
            Ok(c) => cell_of(schema@, column, *row) == Ok::<CellV, Failure>(c@),
            Err(e) => cell_of(schema@, column, *row) == Err::<CellV, Failure>(e@),
        },
{
    match column {
        Column::Id => Ok(
            SqlCell::Text(
                Some(
                    match &row.pk {
                        Some(k) => pk_text(k),
                        None => "".to_owned(),
                    },
                ),
            ),
        ),
        Column::Score => Ok(
            SqlCell::Float32(
                match row.score {
                    Some(b) => b,
                    None => 0,
                },
            ),
        ),
        Column::Source => Ok(
            SqlCell::Text(
                Some(
                    match &row.source {
                        Some(es) => text_of_entries(es),
                        None => "{}".to_owned(),
                    },
                ),
            ),
        ),
        Column::SeqNo => Ok(SqlCell::UInt64(row.seq_no)),
        Column::Partition => Ok(SqlCell::UInt32(row.partition)),
        Column::Field(i) => {
            let f = &schema.fields[i];
            assert(schema@.fields[i as int] == f@);
            if let FieldKind::Json = &f.kind {
                return Ok(SqlCell::Text(json_text_at(&f.source_path, &row.source)));
            }
            let first: Option<&IndexValue> = if i < row.firsts.len() {
                row.firsts[i].as_ref()
            } else {
                None
            };
            Ok(typed_cell(&f.kind, first))
        },
        Column::Vector(i) => {
            let v = &schema.vectors[i];
            assert(schema@.vectors[i as int] == v@);
            match dense_named(&row.vectors, &v.name) {
                None => Ok(SqlCell::Vector(None)),
                Some(bits) => {
                    if bits.len() as u64 == v.dim as u64 {
                        return Ok(SqlCell::Vector(Some(ir::copy_bits(bits))));
                    }
                    let mut out = text::cat3("vector ", &v.name, " has ");
                    out.append(text::dec(bits.len() as u64).as_str());
                    out.append(" dimensions, the schema ");
                    out.append(text::dec(v.dim as u64).as_str());
                    Err(ServiceError::Internal(out))
                },
            }
        },
        Column::Sparse(j) => {
            let s = &schema.sparse_vectors[j];
            assert(schema@.sparse_vectors[j as int] == s@);
            match sparse_named(&row.sparse, &s.name) {
                None => Ok(SqlCell::Sparse(None)),
                Some(v) => Ok(SqlCell::Sparse(Some(v.copy()))),
            }
        },
    }
}

/// What some cells are.
pub open spec fn cell_views(s: Seq<SqlCell>) -> Seq<CellV> {
    Seq::new(s.len(), |i: int| s[i]@)
}

/// The cells of a column of the first rows.
pub open spec fn column_cells(s: SchemaV, column: Column, rows: Seq<SqlRow>, n: nat) -> Result<
    Seq<CellV>,
    Failure,
>
    decreases n,
{
    if n == 0 || n > rows.len() {
        Ok(Seq::empty())
    } else {
        match column_cells(s, column, rows, (n - 1) as nat) {
            Err(e) => Err(e),
            Ok(before) => match cell_of(s, column, rows[n - 1]) {
                Err(e) => Err(e),
                Ok(c) => Ok(before.push(c)),
            },
        }
    }
}

proof fn cells_stay_wrong(s: SchemaV, column: Column, rows: Seq<SqlRow>, n: nat, m: nat)
    requires
        n <= m <= rows.len(),
        column_cells(s, column, rows, n) is Err,
    ensures
        column_cells(s, column, rows, m) == column_cells(s, column, rows, n),
    decreases m,
{
    if n < m {
        cells_stay_wrong(s, column, rows, n, (m - 1) as nat);
    }
}

/// The cells of the first columns of some rows, column by column.
pub open spec fn table_cells(s: SchemaV, columns: Seq<Column>, rows: Seq<SqlRow>, n: nat) -> Result<
    Seq<Seq<CellV>>,
    Failure,
>
    decreases n,
{
    if n == 0 || n > columns.len() {
        Ok(Seq::empty())
    } else {
        match table_cells(s, columns, rows, (n - 1) as nat) {
            Err(e) => Err(e),
            Ok(before) => match column_cells(s, columns[n - 1], rows, rows.len()) {
                Err(e) => Err(e),
                Ok(c) => Ok(before.push(c)),
            },
        }
    }
}

proof fn table_stays_wrong(s: SchemaV, columns: Seq<Column>, rows: Seq<SqlRow>, n: nat, m: nat)
    requires
        n <= m <= columns.len(),
        table_cells(s, columns, rows, n) is Err,
    ensures
        table_cells(s, columns, rows, m) == table_cells(s, columns, rows, n),
    decreases m,
{
    if n < m {
        table_stays_wrong(s, columns, rows, n, (m - 1) as nat);
    }
}

/// What the columns of some rows are.
pub open spec fn table_views(s: Seq<Vec<SqlCell>>) -> Seq<Seq<CellV>> {
    Seq::new(s.len(), |i: int| cell_views(s[i]@))
}

fn encode_column(schema: &CollectionSchema, column: Column, rows: &Vec<SqlRow>) -> (r: Result<
    Vec<SqlCell>,
    ServiceError,
>)
    requires
        in_schema(column, schema@),
    ensures
        match r {
            Ok(cells) => column_cells(schema@, column, rows@, rows@.len()) == Ok::<
                Seq<CellV>,
                Failure,
            >(cell_views(cells@)),
            Err(e) => column_cells(schema@, column, rows@, rows@.len()) == Err::<
                Seq<CellV>,
                Failure,
            >(e@),
        },
{
    let mut out: Vec<SqlCell> = Vec::new();
    let mut i: usize = 0;
    assert(cell_views(out@) =~= Seq::empty());
    while i < rows.len()
        invariant
            i <= rows@.len(),
            in_schema(column, schema@),
            column_cells(schema@, column, rows@, i as nat) == Ok::<Seq<CellV>, Failure>(
                cell_views(out@),
            ),
        decreases rows.len() - i,
    {
        let ghost before = cell_views(out@);
        match cell(schema, column, &rows[i]) {
            Ok(c) => {
                out.push(c);
                assert(cell_views(out@) =~= before.push(c@));
            },
            Err(e) => {
                proof {
                    cells_stay_wrong(schema@, column, rows@, (i + 1) as nat, rows@.len());
                }
                return Err(e);
            },
        }
        i += 1;
    }
    Ok(out)
}

impl RowEncoder {
    /// The cells of some rows, column by column.
    pub fn encode(&self, rows: &Vec<SqlRow>) -> (r: Result<Vec<Vec<SqlCell>>, ServiceError>)
        requires
            encodes(*self),
        ensures
            match r {
                Ok(table) => table_cells(
                    self.schema@,
                    self.columns@,
                    rows@,
                    self.columns@.len(),
                ) == Ok::<Seq<Seq<CellV>>, Failure>(table_views(table@)),
                Err(e) => table_cells(
                    self.schema@,
                    self.columns@,
                    rows@,
                    self.columns@.len(),
                ) == Err::<Seq<Seq<CellV>>, Failure>(e@),
            },
    {
        let mut out: Vec<Vec<SqlCell>> = Vec::new();
        let mut i: usize = 0;
        assert(table_views(out@) =~= Seq::empty());
        while i < self.columns.len()
            invariant
                i <= self.columns@.len(),
                encodes(*self),
                table_cells(self.schema@, self.columns@, rows@, i as nat) == Ok::<
                    Seq<Seq<CellV>>,
                    Failure,
                >(table_views(out@)),
            decreases self.columns.len() - i,
        {
            let ghost before = table_views(out@);
            match encode_column(&self.schema, self.columns[i], rows) {
                Ok(cells) => {
                    out.push(cells);
                    assert(table_views(out@) =~= before.push(cell_views(cells@)));
                },
                Err(e) => {
                    proof {
                        table_stays_wrong(
                            self.schema@,
                            self.columns@,
                            rows@,
                            (i + 1) as nat,
                            self.columns@.len(),
                        );
                    }
                    return Err(e);
                },
            }
            i += 1;
        }
        Ok(out)
    }
}

/// Every column of a batch has one cell for each row.
pub proof fn columns_have_all_rows(
    s: SchemaV,
    columns: Seq<Column>,
    rows: Seq<SqlRow>,
    n: nat,
    i: int,
)
    requires
        n <= columns.len(),
        table_cells(s, columns, rows, n) is Ok,
        0 <= i < n,
    ensures
        table_cells(s, columns, rows, n)->Ok_0.len() == n,
        table_cells(s, columns, rows, n)->Ok_0[i].len() == rows.len(),
    decreases n,
{
    if n > 1 {
        columns_have_all_rows(
            s,
            columns,
            rows,
            (n - 1) as nat,
            if i < n - 1 {
                i
            } else {
                0
            },
        );
    } else {
        assert(table_cells(s, columns, rows, 0) == Ok::<Seq<Seq<CellV>>, Failure>(Seq::empty()));
    }
    one_cell_each(s, columns[n - 1], rows, rows.len());
}

proof fn one_cell_each(s: SchemaV, column: Column, rows: Seq<SqlRow>, n: nat)
    requires
        n <= rows.len(),
    ensures
        column_cells(s, column, rows, n) matches Ok(cells) ==> cells.len() == n,
    decreases n,
{
    if n > 0 {
        one_cell_each(s, column, rows, (n - 1) as nat);
    }
}

} // verus!
