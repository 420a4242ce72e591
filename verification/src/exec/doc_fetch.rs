//! The documents of ranked rows: durable rows by one take of the asked-for
//! columns, tail rows from the tail, in input order.

use crate::collection;
use crate::collection::{CollectionSchema, SchemaV};
use crate::error::{Failure, ServiceError};
use crate::exec::mask;
use crate::exec::project;
use crate::ir;
use crate::ir::{SparseV, SparseVector};
use crate::json::entries;
use crate::json::value;
use crate::json::value::{Json, Tree};
use crate::key::{Key, PrimaryKey};
use crate::ordering;
use crate::ordering::{Order, Ranking};
use crate::text;
use vstd::prelude::*;
use vstd::string::*;

verus! {

/// What to fetch of each row besides its key, sequence number and
/// partition: the source, and vectors by their places in the schema.
#[derive(Debug)]
pub struct FetchColumns {
    pub source: bool,
    pub vectors: Vec<usize>,
    pub sparse: Vec<usize>,
}

/// A fetched row: the source when asked for, and the asked-for vectors that
/// the document has, by name.
pub struct FetchedRow {
    pub row_id: u64,
    pub pk: PrimaryKey,
    pub source: Option<Vec<(String, Json)>>,
    pub vectors: Vec<(String, Vec<u32>)>,
    pub sparse_vectors: Vec<(String, SparseVector)>,
    pub seq_no: u64,
    pub partition: u32,
}

/// What a fetched row is.
pub struct FetchedV {
    pub row_id: u64,
    pub pk: Key,
    pub source: Option<Seq<(Seq<char>, Tree)>>,
    pub vectors: Seq<(Seq<char>, Seq<u32>)>,
    pub sparse_vectors: Seq<(Seq<char>, SparseV)>,
    pub seq_no: u64,
    pub partition: u32,
}

/// What some dense vectors are.
pub open spec fn dense_views(s: Seq<(String, Vec<u32>)>) -> Seq<(Seq<char>, Seq<u32>)> {
    Seq::new(s.len(), |i: int| (s[i].0@, s[i].1@))
}

/// What some sparse vectors are.
pub open spec fn sparse_views(s: Seq<(String, SparseVector)>) -> Seq<(Seq<char>, SparseV)> {
    Seq::new(s.len(), |i: int| (s[i].0@, s[i].1@))
}

impl View for FetchedRow {
    type V = FetchedV;

    open spec fn view(&self) -> FetchedV {
        FetchedV {
            row_id: self.row_id,
            pk: self.pk@,
            source: project::opt_entries(self.source),
            vectors: dense_views(self.vectors@),
            sparse_vectors: sparse_views(self.sparse_vectors@),
            seq_no: self.seq_no,
            partition: self.partition,
        }
    }
}

/// A stored document, of the tail or of a durable lookup.
pub struct Doc {
    pub row_id: u64,
    pub pk: PrimaryKey,
    pub source: Vec<(String, Json)>,
    pub vectors: Vec<(String, Vec<u32>)>,
    pub sparse_vectors: Vec<(String, SparseVector)>,
    pub seq_no: u64,
    pub partition: u32,
}

/// The first value of a name.
pub open spec fn named_value<T>(s: Seq<(Seq<char>, T)>, name: Seq<char>) -> Option<T>
    decreases s.len(),
{
    if s.len() == 0 {
        None
    } else if s[0].0 == name {
        Some(s[0].1)
    } else {
        named_value(s.drop_first(), name)
    }
}

/// The asked-for vectors that a document has, by name.
pub open spec fn picked<T>(
    names: Seq<Seq<char>>,
    wanted: Seq<usize>,
    has: Seq<(Seq<char>, T)>,
) -> Seq<(Seq<char>, T)>
    decreases wanted.len(),
{
    if wanted.len() == 0 {
        Seq::empty()
    } else {
        let before = picked(names, wanted.drop_last(), has);
        let i = wanted.last() as int;
        if i < names.len() && named_value(has, names[i]) is Some {
            entries::put_by_name(before, names[i], named_value(has, names[i])->0)
        } else {
            before
        }
    }
}

/// The asked-for vectors stand in the order of their names.
pub proof fn picked_are_by_name<T>(
    names: Seq<Seq<char>>,
    wanted: Seq<usize>,
    has: Seq<(Seq<char>, T)>,
)
    ensures
        entries::by_name(picked(names, wanted, has)),
    decreases wanted.len(),
{
    if wanted.len() > 0 {
        picked_are_by_name(names, wanted.drop_last(), has);
        let before = picked(names, wanted.drop_last(), has);
        let i = wanted.last() as int;
        if i < names.len() && named_value(has, names[i]) is Some {
            entries::puts_keep_the_order(before, names[i], named_value(has, names[i])->0);
        }
    }
}

proof fn named_step<T>(s: Seq<(Seq<char>, T)>, name: Seq<char>, i: int)
    requires
        0 <= i < s.len(),
    ensures
        s[i].0 == name ==> named_value(s.skip(i), name) == Some(s[i].1),
        s[i].0 != name ==> named_value(s.skip(i), name) == named_value(s.skip(i + 1), name),
{
    assert(s.skip(i)[0] == s[i]);
    assert(s.skip(i).drop_first() =~= s.skip(i + 1));
}

/// Sets a dense vector by name.
pub(crate) fn put_dense(s: &mut Vec<(String, Vec<u32>)>, name: &str, v: Vec<u32>)
    ensures
        dense_views(final(s)@) == entries::put_by_name(dense_views(old(s)@), name@, v@),
{
    let ghost was = dense_views(s@);
    proof {
        assert(entries::keys(was) =~= entries::key_texts(s@));
    }
    let (i, there) = entries::find_slot(s, name);
    proof {
        assert(i < s@.len() ==> was[i as int].0 == s@[i as int].0@);
    }
    if there {
        s.set(i, (name.to_owned(), v));
        assert(dense_views(s@) =~= was.update(i as int, (name@, v@)));
    } else {
        s.insert(i, (name.to_owned(), v));
        assert(dense_views(s@) =~= was.insert(i as int, (name@, v@)));
    }
}

/// Sets a sparse vector by name.
pub(crate) fn put_sparse(s: &mut Vec<(String, SparseVector)>, name: &str, v: SparseVector)
    ensures
        sparse_views(final(s)@) == entries::put_by_name(sparse_views(old(s)@), name@, v@),
{
    let ghost was = sparse_views(s@);
    proof {
        assert(entries::keys(was) =~= entries::key_texts(s@));
    }
    let (i, there) = entries::find_slot(s, name);
    proof {
        assert(i < s@.len() ==> was[i as int].0 == s@[i as int].0@);
    }
    if there {
        s.set(i, (name.to_owned(), v));
        assert(sparse_views(s@) =~= was.update(i as int, (name@, v@)));
    } else {
        s.insert(i, (name.to_owned(), v));
        assert(sparse_views(s@) =~= was.insert(i as int, (name@, v@)));
    }
}

fn pick_dense(
    schema: &CollectionSchema,
    wanted: &Vec<usize>,
    has: &Vec<(String, Vec<u32>)>,
) -> (r: Vec<(String, Vec<u32>)>)
    ensures
        dense_views(r@) == picked(
            collection::vector_names(schema@.vectors),
            wanted@,
            dense_views(has@),
        ),
{
    let ghost names = collection::vector_names(schema@.vectors);
    let ghost all = dense_views(has@);
    let mut out: Vec<(String, Vec<u32>)> = Vec::new();
    let mut k: usize = 0;
    proof {
        assert(dense_views(out@) =~= picked(names, wanted@.take(0), all));
    }
    while k < wanted.len()
        invariant
            k <= wanted@.len(),
            names == collection::vector_names(schema@.vectors),
            all == dense_views(has@),
            dense_views(out@) == picked(names, wanted@.take(k as int), all),
        decreases wanted.len() - k,
    {
        let ghost next = wanted@.take(k as int + 1);
        let i: usize = wanted[k];
        proof {
            assert(next.drop_last() =~= wanted@.take(k as int));
            assert(next.last() == i);
        }
        if i < schema.vectors.len() {
            let name = schema.vectors[i].name.as_str();
            assert(names[i as int] == name@);
            let mut j: usize = 0;
            let mut found = false;
            proof {
                assert(all.skip(0) =~= all);
            }
            while j < has.len() && !found
                invariant
                    j <= has@.len(),
                    all == dense_views(has@),
                    found ==> j < has@.len() && named_value(all, name@) == Some(all[j as int].1),
                    !found ==> named_value(all, name@) == named_value(all.skip(j as int), name@),
                decreases has.len() - j + (if found { 0int } else { 1 }),
            {
                proof {
                    named_step(all, name@, j as int);
                    assert(all[j as int].0 == has@[j as int].0@);
                }
                if text::same(has[j].0.as_str(), name) {
                    found = true;
                } else {
                    j += 1;
                }
            }
            if found {
                put_dense(&mut out, name, ir::copy_bits(&has[j].1));
            }
        }
        k += 1;
    }
    proof {
        assert(wanted@.take(wanted@.len() as int) =~= wanted@);
    }
    out
}

fn pick_sparse(
    schema: &CollectionSchema,
    wanted: &Vec<usize>,
    has: &Vec<(String, SparseVector)>,
) -> (r: Vec<(String, SparseVector)>)
    ensures
        sparse_views(r@) == picked(
            collection::sparse_names(schema@.sparse_vectors),
            wanted@,
            sparse_views(has@),
        ),
{
    let ghost names = collection::sparse_names(schema@.sparse_vectors);
    let ghost all = sparse_views(has@);
    let mut out: Vec<(String, SparseVector)> = Vec::new();
    let mut k: usize = 0;
    proof {
        assert(sparse_views(out@) =~= picked(names, wanted@.take(0), all));
    }
    while k < wanted.len()
        invariant
            k <= wanted@.len(),
            names == collection::sparse_names(schema@.sparse_vectors),
            all == sparse_views(has@),
            sparse_views(out@) == picked(names, wanted@.take(k as int), all),
        decreases wanted.len() - k,
    {
        let ghost next = wanted@.take(k as int + 1);
        let i: usize = wanted[k];
        proof {
            assert(next.drop_last() =~= wanted@.take(k as int));
            assert(next.last() == i);
        }
        if i < schema.sparse_vectors.len() {
            let name = schema.sparse_vectors[i].name.as_str();
            assert(names[i as int] == name@);
            let mut j: usize = 0;
            let mut found = false;
            proof {
                assert(all.skip(0) =~= all);
            }
            while j < has.len() && !found
                invariant
                    j <= has@.len(),
                    all == sparse_views(has@),
                    found ==> j < has@.len() && named_value(all, name@) == Some(all[j as int].1),
                    !found ==> named_value(all, name@) == named_value(all.skip(j as int), name@),
                decreases has.len() - j + (if found { 0int } else { 1 }),
            {
                proof {
                    named_step(all, name@, j as int);
                    assert(all[j as int].0 == has@[j as int].0@);
                }
                if text::same(has[j].0.as_str(), name) {
                    found = true;
                } else {
                    j += 1;
                }
            }
            if found {
                put_sparse(&mut out, name, has[j].1.copy());
            }
        }
        k += 1;
    }
    proof {
        assert(wanted@.take(wanted@.len() as int) =~= wanted@);
    }
    out
}

/// A document projected to some columns.
pub open spec fn projected(s: SchemaV, doc: Doc, columns: FetchColumns) -> FetchedV {
    FetchedV {
        row_id: doc.row_id,
        pk: doc.pk@,
        source: if columns.source {
            Some(value::entries_of(doc.source@))
        } else {
            None
        },
        vectors: picked(
            collection::vector_names(s.vectors),
            columns.vectors@,
            dense_views(doc.vectors@),
        ),
        sparse_vectors: picked(
            collection::sparse_names(s.sparse_vectors),
            columns.sparse@,
            sparse_views(doc.sparse_vectors@),
        ),
        seq_no: doc.seq_no,
        partition: doc.partition,
    }
}

/// A document projected to some columns.
pub fn project_doc(schema: &CollectionSchema, doc: &Doc, columns: &FetchColumns) -> (r: FetchedRow)
    ensures
        r@ == projected(schema@, *doc, *columns),
{
    let source = if columns.source {
        Some(project::copy_entries(&doc.source))
    } else {
        None
    };
    FetchedRow {
        row_id: doc.row_id,
        pk: doc.pk.clone(),
        source,
        vectors: pick_dense(schema, &columns.vectors, &doc.vectors),
        sparse_vectors: pick_sparse(schema, &columns.sparse, &doc.sparse_vectors),
        seq_no: doc.seq_no,
        partition: doc.partition,
    }
}

/// What the tail holds at a row.
pub enum TailEntry {
    Missing,
    Delete,
    Doc(Doc),
}

/// The message for a row that the tail does not have.
pub open spec fn no_tail_row(row: u64) -> Seq<char> {
    "tail row "@ + text::decimal(row as nat) + " is not in the view"@
}

/// The message for a row that is a delete of the tail.
pub open spec fn tail_delete(row: u64) -> Seq<char> {
    "tail row "@ + text::decimal(row as nat) + " is a delete"@
}

/// The tail row `row_id`, projected to `columns`.
pub fn tail_row(
    schema: &CollectionSchema,
    row_id: u64,
    entry: &TailEntry,
    columns: &FetchColumns,
) -> (r: Result<FetchedRow, ServiceError>)
    ensures
        match (entry, r) {
            (TailEntry::Doc(doc), Ok(row)) => row@ == projected(schema@, *doc, *columns),
            (TailEntry::Missing, Err(e)) => e@ == Failure::Internal(no_tail_row(row_id)),
            (TailEntry::Delete, Err(e)) => e@ == Failure::Internal(tail_delete(row_id)),
            _ => false,
        },
{
    match entry {
        TailEntry::Missing => {
            let n = text::dec(row_id);
            Err(
                ServiceError::Internal(
                    text::cat3("tail row ", n.as_str(), " is not in the view"),
                ),
            )
        },
        TailEntry::Delete => {
            let n = text::dec(row_id);
            Err(ServiceError::Internal(text::cat3("tail row ", n.as_str(), " is a delete")))
        },
        TailEntry::Doc(doc) => Ok(project_doc(schema, doc, columns)),
    }
}

/// The order of row ids.
pub struct ByRow;

impl Ranking<u64> for ByRow {
    open spec fn le(&self, a: u64, b: u64) -> bool {
        a <= b
    }
}

impl Order<u64> for ByRow {
    fn leq(&self, a: &u64, b: &u64) -> (r: bool) {
        *a <= *b
    }
}

/// Sorted row ids, each once.
pub fn distinct_rows(rows: Vec<u64>) -> (r: Vec<u64>)
    ensures
        mask::ascending(r@),
        forall|row: u64| r@.contains(row) <==> rows@.contains(row),
{
    let ghost all = rows@;
    let on = Ghost(|x: u64| true);
    proof {
        ordering::sorted_permutes(ByRow, all);
        ordering::sorted_ordered(ByRow, all, on@);
        same_members(ordering::sorted(ByRow, all), all);
    }
    let sorted = ordering::sort(&ByRow, rows);
    let ghost s = sorted@;
    let mut out: Vec<u64> = Vec::new();
    let mut i: usize = 0;
    while i < sorted.len()
        invariant
            i <= sorted@.len(),
            s == sorted@,
            ordering::is_ordered(ByRow, s),
            mask::ascending(out@),
            forall|row: u64| #[trigger] out@.contains(row) <==> s.take(i as int).contains(row),
            out@.len() > 0 ==> i > 0 && out@.last() == s[i - 1],
            i > 0 ==> out@.len() > 0,
        decreases sorted.len() - i,
    {
        let x: u64 = sorted[i];
        let ghost was = out@;
        if out.len() == 0 || out[out.len() - 1] != x {
            proof {
                if i > 0 {
                    assert(ByRow.le(s[i - 1], s[i as int]));
                }
            }
            out.push(x);
            proof {
                assert forall|a: int, b: int| 0 <= a < b < out@.len() implies #[trigger] out@[a]
                    < #[trigger] out@[b] by {
                    if b == was.len() {
                        if a < was.len() - 1 {
                            assert(was[a] < was[was.len() - 1]);
                        }
                    } else {
                        assert(was[a] < was[b]);
                    }
                }
            }
        }
        proof {
            assert forall|row: u64| #[trigger] out@.contains(row) <==> s.take(
                i as int + 1,
            ).contains(row) by {
                let t = s.take(i as int);
                let u = s.take(i as int + 1);
                assert(u =~= t.push(x));
                if u.contains(row) {
                    let k = choose|k: int| 0 <= k < u.len() && u[k] == row;
                    if k < t.len() {
                        assert(t[k] == row);
                        assert(was.contains(row));
                        let m = choose|m: int| 0 <= m < was.len() && was[m] == row;
                        assert(out@[m] == row);
                    } else {
                        assert(out@[out@.len() - 1] == row);
                    }
                }
                if out@.contains(row) {
                    let m = choose|m: int| 0 <= m < out@.len() && out@[m] == row;
                    if m < was.len() {
                        assert(was[m] == row);
                        assert(was.contains(row));
                        let k = choose|k: int| 0 <= k < t.len() && t[k] == row;
                        assert(u[k] == row);
                    } else {
                        assert(u[u.len() - 1] == row);
                    }
                }
            }
        }
        i += 1;
    }
    proof {
        assert(s.take(s.len() as int) =~= s);
    }
    out
}

proof fn same_members(a: Seq<u64>, b: Seq<u64>)
    requires
        a.to_multiset() == b.to_multiset(),
    ensures
        forall|x: u64| a.contains(x) <==> b.contains(x),
{
    broadcast use vstd::seq_lib::group_to_multiset_ensures;

    assert forall|x: u64| a.contains(x) <==> b.contains(x) by {
        assert(a.contains(x) <==> a.to_multiset().count(x) > 0);
        assert(b.contains(x) <==> b.to_multiset().count(x) > 0);
    }
}

/// The durable rows among `row_ids`, each once, ascending; `base` is the
/// first row of the tail.
pub fn durable_rows(row_ids: &Vec<u64>, base: u64) -> (r: Vec<u64>)
    ensures
        mask::ascending(r@),
        forall|row: u64| r@.contains(row) <==> row < base && row_ids@.contains(row),
{
    let mut below: Vec<u64> = Vec::new();
    let mut i: usize = 0;
    while i < row_ids.len()
        invariant
            i <= row_ids@.len(),
            forall|row: u64| #[trigger]
                below@.contains(row) <==> row < base && row_ids@.take(i as int).contains(row),
        decreases row_ids.len() - i,
    {
        let x: u64 = row_ids[i];
        let ghost was = below@;
        if x < base {
            below.push(x);
        }
        proof {
            let t = row_ids@.take(i as int);
            let u = row_ids@.take(i as int + 1);
            assert(u =~= t.push(x));
            assert forall|row: u64| #[trigger] below@.contains(row) <==> row < base && u.contains(
                row,
            ) by {
                if u.contains(row) && row < base {
                    let k = choose|k: int| 0 <= k < u.len() && u[k] == row;
                    if k < t.len() {
                        assert(t[k] == row);
                        assert(was.contains(row));
                        let m = choose|m: int| 0 <= m < was.len() && was[m] == row;
                        assert(below@[m] == row);
                    } else {
                        assert(below@[below@.len() - 1] == row);
                    }
                }
                if below@.contains(row) {
                    let m = choose|m: int| 0 <= m < below@.len() && below@[m] == row;
                    if m < was.len() {
                        assert(was[m] == row);
                        assert(was.contains(row));
                        let k = choose|k: int| 0 <= k < t.len() && t[k] == row;
                        assert(u[k] == row);
                    } else {
                        assert(u[u.len() - 1] == row);
                    }
                }
            }
        }
        i += 1;
    }
    proof {
        assert(row_ids@.take(row_ids@.len() as int) =~= row_ids@);
    }
    distinct_rows(below)
}

/// The message for a row that a version lacks.
pub open spec fn not_in_version(row: u64, version: u64) -> Seq<char> {
    "row "@ + text::decimal(row as nat) + " is not in lance version "@ + text::decimal(
        version as nat,
    )
}

/// Checks that every wanted row was found; internal for the first that was
/// not.
pub fn check_found(wanted: &Vec<u64>, found: &Vec<u64>, version: u64) -> (r: Result<
    (),
    ServiceError,
>)
    ensures
        match r {
            Ok(_) => forall|i: int| 0 <= i < wanted@.len() ==> found@.contains(wanted@[i]),
            Err(e) => exists|i: int|
                0 <= i < wanted@.len() && !found@.contains(#[trigger] wanted@[i]) && e@
                    == Failure::Internal(not_in_version(wanted@[i], version)) && forall|j: int|
                    0 <= j < i ==> found@.contains(#[trigger] wanted@[j]),
        },
{
    let mut i: usize = 0;
    while i < wanted.len()
        invariant
            i <= wanted@.len(),
            forall|j: int| 0 <= j < i ==> found@.contains(#[trigger] wanted@[j]),
        decreases wanted.len() - i,
    {
        let mut j: usize = 0;
        let mut hit = false;
        while j < found.len()
            invariant
                j <= found@.len(),
                i < wanted@.len(),
                hit ==> found@.contains(wanted@[i as int]),
                !hit ==> forall|k: int| 0 <= k < j ==> found@[k] != wanted@[i as int],
            decreases found.len() - j,
        {
            if found[j] == wanted[i] {
                hit = true;
            }
            j += 1;
        }
        if !hit {
            let n = text::dec(wanted[i]);
            let v = text::dec(version);
            let mut m = text::cat3("row ", n.as_str(), " is not in lance version ");
            m.append(v.as_str());
            return Err(ServiceError::Internal(m));
        }
        i += 1;
    }
    Ok(())
}

/// A list column's cell of a sparse vector.
#[derive(Clone, Copy, Debug, PartialEq, Eq, Structural)]
pub enum ListCell {
    /// The struct has no such list.
    Missing,
    /// The list holds another type.
    Other,
    Right,
}

/// A cell of a sparse column that is not null: its two lists, and the
/// vector that they make, or why they make none.
pub struct SparseCell {
    pub indices: ListCell,
    pub values: ListCell,
    pub built: Result<SparseVector, String>,
}

/// A cell of a dense column that is not null: floats, or another type.
pub enum DenseCell {
    Floats(Vec<u32>),
    Other,
}

/// A column of a read batch.
pub enum Column {
    U64(Vec<u64>),
    U32(Vec<u32>),
    Binary(Vec<Vec<u8>>),
    /// Binary cells that are sources: parsed, or why they do not parse.
    Sources(Vec<Result<Vec<(String, Json)>, String>>),
    Dense(Vec<Option<DenseCell>>),
    Sparse(Vec<Option<SparseCell>>),
    Other,
}

/// A read batch: its rows and its columns by name.
pub struct Batch {
    pub rows: usize,
    pub columns: Vec<(String, Column)>,
}

/// The names of the columns that every batch has.
pub struct SystemColumns {
    pub row_id: String,
    pub pk: String,
    pub source: String,
    pub partition: String,
    pub offset: String,
}

/// The columns that serve a fetch on one version: asked-for vectors that
/// the version lacks are left out.
pub struct LanceColumns {
    pub names: Vec<String>,
    pub source: bool,
    /// Column and schema name of every dense vector read.
    pub dense: Vec<(String, String)>,
    pub sparse: Vec<(String, String)>,
}

/// Asked-for vectors with their columns, of the vectors that the schema has
/// and the columns that are present.
pub open spec fn present_columns(
    names: Seq<Seq<char>>,
    wanted: Seq<usize>,
    columns: Seq<Seq<char>>,
    present: Seq<Seq<char>>,
) -> Seq<(Seq<char>, Seq<char>)>
    decreases wanted.len(),
{
    if wanted.len() == 0 {
        Seq::empty()
    } else {
        let before = present_columns(names, wanted.drop_last(), columns, present);
        let i = wanted.last() as int;
        let column = columns[wanted.len() - 1];
        if i < names.len() && !text::absent(present, column) {
            before.push((column, names[i]))
        } else {
            before
        }
    }
}

/// The first parts of some pairs.
pub open spec fn firsts(s: Seq<(Seq<char>, Seq<char>)>) -> Seq<Seq<char>> {
    Seq::new(s.len(), |i: int| s[i].0)
}

fn keep_present(
    names: &Vec<String>,
    wanted: &Vec<usize>,
    columns: &Vec<String>,
    present: &Vec<String>,
) -> (r: Vec<(String, String)>)
    requires
        columns@.len() == wanted@.len(),
    ensures
        collection::pair_views(r@) == present_columns(
            text::texts(names@),
            wanted@,
            text::texts(columns@),
            text::texts(present@),
        ),
{
    let ghost ns = text::texts(names@);
    let ghost cs = text::texts(columns@);
    let ghost ps = text::texts(present@);
    let mut out: Vec<(String, String)> = Vec::new();
    let mut k: usize = 0;
    proof {
        assert(collection::pair_views(out@) =~= present_columns(ns, wanted@.take(0), cs, ps));
    }
    while k < wanted.len()
        invariant
            k <= wanted@.len(),
            columns@.len() == wanted@.len(),
            ns == text::texts(names@),
            cs == text::texts(columns@),
            ps == text::texts(present@),
            collection::pair_views(out@) == present_columns(ns, wanted@.take(k as int), cs, ps),
        decreases wanted.len() - k,
    {
        let ghost was = out@;
        let i: usize = wanted[k];
        proof {
            let next = wanted@.take(k as int + 1);
            assert(next.drop_last() =~= wanted@.take(k as int));
            assert(next.last() == i);
            assert(cs[k as int] == columns@[k as int]@);
        }
        if i < names.len() {
            let found = text::find(present, columns[k].as_str());
            proof {
                if let Some(at) = found {
                    assert(ps[at as int] == cs[k as int]);
                }
            }
            if found.is_some() {
                out.push((columns[k].clone(), names[i].clone()));
                proof {
                    assert(collection::pair_views(out@) =~= collection::pair_views(was).push(
                        (cs[k as int], ns[i as int]),
                    ));
                }
            }
        }
        k += 1;
    }
    proof {
        assert(wanted@.take(wanted@.len() as int) =~= wanted@);
    }
    out
}

fn vector_names_of(schema: &CollectionSchema) -> (r: (Vec<String>, Vec<String>))
    ensures
        text::texts(r.0@) == collection::vector_names(schema@.vectors),
        text::texts(r.1@) == collection::sparse_names(schema@.sparse_vectors),
{
    let mut dense: Vec<String> = Vec::new();
    let mut i: usize = 0;
    while i < schema.vectors.len()
        invariant
            i <= schema.vectors@.len(),
            dense@.len() == i,
            forall|j: int| 0 <= j < i ==> (#[trigger] dense@[j])@ == schema.vectors@[j].name@,
        decreases schema.vectors.len() - i,
    {
        dense.push(schema.vectors[i].name.clone());
        i += 1;
    }
    let mut sparse: Vec<String> = Vec::new();
    let mut j: usize = 0;
    while j < schema.sparse_vectors.len()
        invariant
            j <= schema.sparse_vectors@.len(),
            sparse@.len() == j,
            forall|k: int|
                0 <= k < j ==> (#[trigger] sparse@[k])@ == schema.sparse_vectors@[k].name@,
        decreases schema.sparse_vectors.len() - j,
    {
        sparse.push(schema.sparse_vectors[j].name.clone());
        j += 1;
    }
    proof {
        assert(text::texts(dense@) =~= collection::vector_names(schema@.vectors));
        assert(text::texts(sparse@) =~= collection::sparse_names(schema@.sparse_vectors));
    }
    (dense, sparse)
}

fn push_firsts(out: &mut Vec<String>, pairs: &Vec<(String, String)>)
    ensures
        text::texts(final(out)@) == text::texts(old(out)@) + firsts(
            collection::pair_views(pairs@),
        ),
{
    let ghost start = text::texts(out@);
    let ghost all = firsts(collection::pair_views(pairs@));
    let mut i: usize = 0;
    proof {
        assert(start + all.take(0) =~= start);
    }
    while i < pairs.len()
        invariant
            i <= pairs@.len(),
            all == firsts(collection::pair_views(pairs@)),
            text::texts(out@) == start + all.take(i as int),
        decreases pairs.len() - i,
    {
        let ghost was = out@;
        out.push(pairs[i].0.clone());
        proof {
            assert(text::texts(out@) =~= text::texts(was).push(all[i as int]));
            assert(start + all.take(i as int + 1) =~= (start + all.take(i as int)).push(
                all[i as int],
            ));
        }
        i += 1;
    }
    proof {
        assert(all.take(all.len() as int) =~= all);
    }
}

impl LanceColumns {
    /// The columns to read for `columns`: the key, the source when asked
    /// for, the partition and the offset, then the vectors that are
    /// present. `dense` and `sparse` name the columns of the asked-for
    /// vectors.
    pub fn new(
        schema: &CollectionSchema,
        columns: &FetchColumns,
        system: &SystemColumns,
        dense: &Vec<String>,
        sparse: &Vec<String>,
        present: &Vec<String>,
    ) -> (r: LanceColumns)
        requires
            dense@.len() == columns.vectors@.len(),
            sparse@.len() == columns.sparse@.len(),
        ensures
            r.source == columns.source,
            collection::pair_views(r.dense@) == present_columns(
                collection::vector_names(schema@.vectors),
                columns.vectors@,
                text::texts(dense@),
                text::texts(present@),
            ),
            collection::pair_views(r.sparse@) == present_columns(
                collection::sparse_names(schema@.sparse_vectors),
                columns.sparse@,
                text::texts(sparse@),
                text::texts(present@),
            ),
            text::texts(r.names@) == (if columns.source {
                seq![system.pk@, system.source@, system.partition@, system.offset@]
            } else {
                seq![system.pk@, system.partition@, system.offset@]
            }) + firsts(collection::pair_views(r.dense@)) + firsts(
                collection::pair_views(r.sparse@),
            ),
    {
        let (dense_names, sparse_names) = vector_names_of(schema);
        let dense = keep_present(&dense_names, &columns.vectors, dense, present);
        let sparse = keep_present(&sparse_names, &columns.sparse, sparse, present);
        let mut names: Vec<String> = Vec::new();
        names.push(system.pk.clone());
        if columns.source {
            names.push(system.source.clone());
        }
        names.push(system.partition.clone());
        names.push(system.offset.clone());
        proof {
            assert(text::texts(names@) =~= (if columns.source {
                seq![system.pk@, system.source@, system.partition@, system.offset@]
            } else {
                seq![system.pk@, system.partition@, system.offset@]
            }));
        }
        push_firsts(&mut names, &dense);
        push_firsts(&mut names, &sparse);
        LanceColumns { names, source: columns.source, dense, sparse }
    }
}

} // verus!
