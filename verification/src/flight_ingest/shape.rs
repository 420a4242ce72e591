//! The Arrow shapes that an ingest looks at, and the values of a batch.

use crate::cells::{Cell, TimeUnit};
use crate::json::value::Json;
use crate::text;
use vstd::prelude::*;
use vstd::string::*;

verus! {

/// The type of a column, as far as an ingest tells types apart.
#[derive(Debug)]
pub enum DataType {
    Float32,
    UInt32,
    UInt64,
    Int32,
    Int64,
    Utf8,
    LargeUtf8,
    Utf8View,
    Binary,
    LargeBinary,
    BinaryView,
    FixedSizeBinary(i32),
    FixedSizeList(Box<DataType>, i32),
    List(Box<DataType>),
    LargeList(Box<DataType>),
    Struct(Vec<(String, DataType)>),
    Timestamp(TimeUnit),
    Other,
}

/// A column of a batch's schema.
#[derive(Debug)]
pub struct Field {
    pub name: String,
    pub data_type: DataType,
    /// The type's display text.
    pub shown: String,
    /// The column's declared id type.
    pub id_type: Option<String>,
}

/// The names of some columns.
pub open spec fn names(fields: Seq<Field>) -> Seq<Seq<char>> {
    Seq::new(fields.len(), |i: int| fields[i].name@)
}

/// A fixed-size list of 32-bit floats.
pub open spec fn fixed_vector(t: DataType) -> bool {
    t matches DataType::FixedSizeList(item, _) && *item is Float32
}

/// A list of 32-bit floats.
pub open spec fn vector(t: DataType) -> bool {
    match t {
        DataType::FixedSizeList(item, _) => *item is Float32,
        DataType::List(item) => *item is Float32,
        DataType::LargeList(item) => *item is Float32,
        _ => false,
    }
}

/// The items of a list of any length.
pub open spec fn item_of(t: DataType) -> Option<DataType> {
    match t {
        DataType::List(item) => Some(*item),
        DataType::LargeList(item) => Some(*item),
        _ => None,
    }
}

/// The first child of a name, from the `i`-th on.
pub open spec fn child_from(
    children: Seq<(String, DataType)>,
    name: Seq<char>,
    i: int,
) -> Option<DataType>
    decreases children.len() - i,
{
    if i < 0 || i >= children.len() {
        None
    } else if children[i].0@ == name {
        Some(children[i].1)
    } else {
        child_from(children, name, i + 1)
    }
}

/// The first child of a name.
pub open spec fn child_of(children: Seq<(String, DataType)>, name: Seq<char>) -> Option<DataType> {
    child_from(children, name, 0)
}

/// A struct of a list of indices and a list of 32-bit floats.
pub open spec fn sparse(t: DataType) -> bool {
    match t {
        DataType::Struct(children) => {
            children@.len() == 2 && (match child_of(children@, "indices"@) {
                Some(c) => match item_of(c) {
                    Some(i) => i is UInt32 || i is Int32 || i is Int64,
                    None => false,
                },
                None => false,
            }) && (match child_of(children@, "values"@) {
                Some(c) => match item_of(c) {
                    Some(v) => v is Float32,
                    None => false,
                },
                None => false,
            })
        },
        _ => false,
    }
}

/// A string.
pub open spec fn string_like(t: DataType) -> bool {
    t is Utf8 || t is LargeUtf8 || t is Utf8View
}

/// A string or bytes.
pub open spec fn bytes_like(t: DataType) -> bool {
    string_like(t) || t is Binary || t is LargeBinary || t is BinaryView
}

/// A list of structs of a string key and a string or binary value.
pub open spec fn headers_like(t: DataType) -> bool {
    match item_of(t) {
        Some(DataType::Struct(children)) => children@.len() == 2 && (match child_of(
            children@,
            "key"@,
        ) {
            Some(c) => string_like(c),
            None => false,
        }) && (match child_of(children@, "value"@) {
            Some(c) => bytes_like(c),
            None => false,
        }),
        _ => false,
    }
}

/// Whether a column holds vectors of one length.
pub fn is_fixed_vector(t: &DataType) -> (r: bool)
    ensures
        r == fixed_vector(*t),
{
    match t {
        DataType::FixedSizeList(item, _) => is_float32(item),
        _ => false,
    }
}

fn is_float32(t: &DataType) -> (r: bool)
    ensures
        r == (*t is Float32),
{
    match t {
        DataType::Float32 => true,
        _ => false,
    }
}

/// Whether a column holds dense vectors.
pub fn is_vector(t: &DataType) -> (r: bool)
    ensures
        r == vector(*t),
{
    match t {
        DataType::FixedSizeList(item, _) => is_float32(item),
        DataType::List(item) => is_float32(item),
        DataType::LargeList(item) => is_float32(item),
        _ => false,
    }
}

fn list_item(t: &DataType) -> (r: Option<&DataType>)
    ensures
        match r {
            Some(i) => item_of(*t) == Some(*i),
            None => item_of(*t) is None,
        },
{
    match t {
        DataType::List(item) => Some(item),
        DataType::LargeList(item) => Some(item),
        _ => None,
    }
}

fn child<'a>(children: &'a Vec<(String, DataType)>, name: &str) -> (r: Option<&'a DataType>)
    ensures
        match r {
            Some(c) => child_of(children@, name@) == Some(*c),
            None => child_of(children@, name@) is None,
        },
{
    let mut i: usize = 0;
    while i < children.len()
        invariant
            i <= children@.len(),
            child_of(children@, name@) == child_from(children@, name@, i as int),
        decreases children.len() - i,
    {
        if text::same(&children[i].0, name) {
            return Some(&children[i].1);
        }
        i += 1;
    }
    None
}

/// Whether a column holds sparse vectors.
pub fn is_sparse(t: &DataType) -> (r: bool)
    ensures
        r == sparse(*t),
{
    match t {
        DataType::Struct(children) => {
            if children.len() != 2 {
                return false;
            }
            let indices = match child(children, "indices") {
                Some(c) => match list_item(c) {
                    Some(i) => match i {
                        DataType::UInt32 | DataType::Int32 | DataType::Int64 => true,
                        _ => false,
                    },
                    None => false,
                },
                None => false,
            };
            let values = match child(children, "values") {
                Some(c) => match list_item(c) {
                    Some(v) => is_float32(v),
                    None => false,
                },
                None => false,
            };
            indices && values
        },
        _ => false,
    }
}

/// Whether a column holds strings.
pub fn is_string(t: &DataType) -> (r: bool)
    ensures
        r == string_like(*t),
{
    match t {
        DataType::Utf8 | DataType::LargeUtf8 | DataType::Utf8View => true,
        _ => false,
    }
}

/// Whether a column holds strings or bytes.
pub fn is_bytes(t: &DataType) -> (r: bool)
    ensures
        r == bytes_like(*t),
{
    match t {
        DataType::Binary | DataType::LargeBinary | DataType::BinaryView => true,
        _ => is_string(t),
    }
}

/// Whether a column holds the headers of records.
pub fn is_headers(t: &DataType) -> (r: bool)
    ensures
        r == headers_like(*t),
{
    match list_item(t) {
        Some(DataType::Struct(children)) => {
            let key = match child(children, "key") {
                Some(c) => is_string(c),
                None => false,
            };
            let value = match child(children, "value") {
                Some(c) => is_bytes(c),
                None => false,
            };
            children.len() == 2 && key && value
        },
        _ => false,
    }
}

/// The first column whose name an earlier column has.
pub open spec fn repeats_at(names: Seq<Seq<char>>, i: int) -> bool {
    0 <= i < names.len() && names.take(i).contains(names[i])
}

/// The first repeated column, if any.
pub open spec fn first_repeat(names: Seq<Seq<char>>, i: int) -> bool {
    repeats_at(names, i) && forall|j: int| 0 <= j < i ==> !#[trigger] repeats_at(names, j)
}

/// Whether no column repeats a name.
pub open spec fn all_unique(names: Seq<Seq<char>>) -> bool {
    forall|j: int| !#[trigger] repeats_at(names, j)
}

/// The place of the first column that repeats a name.
pub fn repeated_column(fields: &Vec<Field>) -> (r: Option<usize>)
    ensures
        match r {
            Some(i) => first_repeat(names(fields@), i as int),
            None => all_unique(names(fields@)),
        },
{
    let ghost ns = names(fields@);
    let mut i: usize = 0;
    while i < fields.len()
        invariant
            i <= fields@.len(),
            ns == names(fields@),
            forall|j: int| 0 <= j < i ==> !#[trigger] repeats_at(ns, j),
        decreases fields.len() - i,
    {
        let mut k: usize = 0;
        while k < i
            invariant
                k <= i < fields@.len(),
                ns == names(fields@),
                forall|j: int| 0 <= j < k ==> ns[j] != ns[i as int],
                forall|j: int| 0 <= j < i ==> !#[trigger] repeats_at(ns, j),
            decreases i - k,
        {
            if text::same(&fields[k].name, &fields[i].name) {
                proof {
                    assert(ns.take(i as int)[k as int] == ns[i as int]);
                    assert(repeats_at(ns, i as int));
                }
                return Some(i);
            }
            k += 1;
        }
        proof {
            assert(!repeats_at(ns, i as int)) by {
                if ns.take(i as int).contains(ns[i as int]) {
                    let j = choose|j: int| 0 <= j < i && ns.take(i as int)[j] == ns[i as int];
                    assert(ns[j] == ns[i as int]);
                }
            }
        }
        i += 1;
    }
    None
}

/// Whether a column of the name is there.
pub fn has_column(fields: &Vec<Field>, name: &str) -> (r: bool)
    ensures
        r == names(fields@).contains(name@),
{
    let ghost ns = names(fields@);
    let mut i: usize = 0;
    while i < fields.len()
        invariant
            i <= fields@.len(),
            ns == names(fields@),
            forall|j: int| 0 <= j < i ==> ns[j] != name@,
        decreases fields.len() - i,
    {
        if text::same(&fields[i].name, name) {
            assert(ns[i as int] == name@);
            return true;
        }
        i += 1;
    }
    false
}

/// An element of a dense vector; a finite one by its bits.
#[derive(Clone, Copy, Debug)]
pub enum Element {
    Null,
    NonFinite,
    Finite(u32),
}

/// A dense vector of a row.
#[derive(Debug)]
pub enum DenseCell {
    Null,
    NotList,
    Elements(Vec<Element>),
}

/// A list inside a sparse vector.
#[derive(Debug)]
pub enum ListCell<T> {
    Missing,
    Null,
    NotList,
    Items(Vec<Option<T>>),
}

/// A sparse vector of a row, with what the vector's rules say of its
/// indices and values once they are read: none where they accept them.
#[derive(Debug)]
pub struct SparseCell {
    pub is_null: bool,
    pub indices: ListCell<i64>,
    pub values: ListCell<u32>,
    pub refusal: Option<String>,
}

/// A header of a record: its key and its value.
#[derive(Debug)]
pub enum HeaderCell {
    Null,
    Entry { key: Option<String>, value: Option<Vec<u8>> },
}

/// The headers of a row.
#[derive(Debug)]
pub enum HeadersCell {
    Null,
    NotList,
    NoKey,
    NoValue,
    Entries(Vec<HeaderCell>),
}

/// A source of a row: the JSON that it parses to, or why it does not.
#[derive(Debug)]
pub enum SourceCell {
    Null,
    Parsed(Json),
    Broken(String),
}

/// A timestamp of a row: null, a number of milliseconds, or a count of a
/// unit.
#[derive(Clone, Copy, Debug)]
pub enum TimeCell {
    Null,
    Millis(i64),
    Unit(i64, TimeUnit),
}

/// The values of one column, row by row.
pub enum ColumnCells {
    Values(Vec<Cell>),
    Sources(Vec<SourceCell>),
    Dense(Vec<DenseCell>),
    Sparse(Vec<SparseCell>),
    Blobs(Vec<Option<Vec<u8>>>),
    Headers(Vec<HeadersCell>),
    Times(Vec<TimeCell>),
    Numbers(Vec<Option<i64>>),
}

/// How many rows a column has.
pub open spec fn rows_of(c: ColumnCells) -> nat {
    match c {
        ColumnCells::Values(v) => v@.len(),
        ColumnCells::Sources(v) => v@.len(),
        ColumnCells::Dense(v) => v@.len(),
        ColumnCells::Sparse(v) => v@.len(),
        ColumnCells::Blobs(v) => v@.len(),
        ColumnCells::Headers(v) => v@.len(),
        ColumnCells::Times(v) => v@.len(),
        ColumnCells::Numbers(v) => v@.len(),
    }
}

/// A record batch.
pub struct RecordBatch {
    pub rows: usize,
    pub columns: Vec<ColumnCells>,
}

/// A row that cannot be mapped, counted in its batch.
#[derive(Debug)]
pub struct RowError {
    pub row: usize,
    pub column: String,
    pub message: String,
}

/// What is wrong with a row.
pub struct RowFault {
    pub row: nat,
    pub column: Seq<char>,
    pub message: Seq<char>,
}

impl View for RowError {
    type V = RowFault;

    open spec fn view(&self) -> RowFault {
        RowFault { row: self.row as nat, column: self.column@, message: self.message@ }
    }
}

/// The fault of a batch with a wrong number of columns.
pub open spec fn column_count_fault(have: nat, want: nat) -> RowFault {
    RowFault {
        row: 0,
        column: ""@,
        message: "the batch has "@ + text::decimal(have) + " columns, the schema "@ + text::decimal(
            want,
        ),
    }
}

/// The error of a batch with a wrong number of columns.
pub fn column_count_error(have: usize, want: usize) -> (r: RowError)
    ensures
        r@ == column_count_fault(have as nat, want as nat),
{
    let mut message = text::cat2("the batch has ", &text::dec(have as u64));
    message.append(" columns, the schema ");
    message.append(&text::dec(want as u64));
    RowError { row: 0, column: "".to_owned(), message }
}

} // verus!
