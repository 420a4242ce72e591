//! The columns of one index segment: row ids, keys and sort values.

use crate::collection::{FieldKind, ResolvedField};
use crate::error::{Failure, ServiceError};
use crate::exec::schema::{Ranked, RankedV};
use crate::float;
use crate::ir::{MissingOrder, SortOrder};
use crate::json::pk;
use crate::key;
use crate::key::PrimaryKey;
use crate::text;
use crate::values;
use crate::values::{SortV, SortValue};
use vstd::prelude::*;
use vstd::string::*;

verus! {

/// A field that the effective sort reads.
pub struct SortField {
    pub name: String,
    pub order: SortOrder,
    pub uuid: bool,
}

/// Whether a field can be sorted on.
pub open spec fn sortable(f: ResolvedField) -> bool {
    f matches ResolvedField::Plain(spec) && spec.fast && !(spec.kind@ is Json)
}

/// Why a field cannot be sorted on.
pub open spec fn unsortable(f: ResolvedField, name: Seq<char>) -> Seq<char> {
    match f {
        ResolvedField::JsonPath(_, _) => "sorting on JSON paths is not supported in M1"@,
        _ => "sort field "@ + name + " is not a fast field"@,
    }
}

/// Whether `s` is a key's field.
pub open spec fn is_sort_field(
    s: SortField,
    key: (String, SortOrder, MissingOrder),
    f: ResolvedField,
) -> bool {
    &&& s.name@ == key.0@
    &&& s.order == key.1
    &&& f matches ResolvedField::Plain(spec) && s.uuid == (spec.kind@ is Uuid)
}

/// The field keys of a sort, checked against what each name stands for:
/// each must be a fast field, and paths into JSON are refused.
pub fn sort_fields(
    keys: &Vec<(String, SortOrder, MissingOrder)>,
    resolved: &Vec<ResolvedField>,
) -> (r: Result<Vec<SortField>, ServiceError>)
    requires
        keys@.len() == resolved@.len(),
    ensures
        match r {
            Ok(fields) => fields@.len() == keys@.len() && forall|i: int|
                0 <= i < keys@.len() ==> sortable(resolved@[i]) && is_sort_field(
                    #[trigger] fields@[i],
                    keys@[i],
                    resolved@[i],
                ),
            Err(e) => exists|i: int|
                0 <= i < keys@.len() && !sortable(#[trigger] resolved@[i]) && e@
                    == Failure::InvalidArgument(unsortable(resolved@[i], keys@[i].0@))
                    && forall|j: int| 0 <= j < i ==> sortable(#[trigger] resolved@[j]),
        },
{
    let mut out: Vec<SortField> = Vec::new();
    let mut i: usize = 0;
    while i < keys.len()
        invariant
            i <= keys@.len(),
            keys@.len() == resolved@.len(),
            out@.len() == i,
            forall|j: int| 0 <= j < i ==> sortable(#[trigger] resolved@[j]),
            forall|j: int|
                0 <= j < i ==> is_sort_field(#[trigger] out@[j], keys@[j], resolved@[j]),
        decreases keys.len() - i,
    {
        let name = keys[i].0.as_str();
        match &resolved[i] {
            ResolvedField::Plain(spec) => {
                let json = match &spec.kind {
                    FieldKind::Json => true,
                    _ => false,
                };
                let uuid = match &spec.kind {
                    FieldKind::Uuid => true,
                    _ => false,
                };
                if spec.fast && !json {
                    out.push(SortField { name: name.to_owned(), order: keys[i].1, uuid });
                } else {
                    return Err(
                        ServiceError::InvalidArgument(
                            text::cat3("sort field ", name, " is not a fast field"),
                        ),
                    );
                }
            },
            ResolvedField::JsonPath(_, _) => {
                return Err(
                    ServiceError::InvalidArgument(
                        "sorting on JSON paths is not supported in M1".to_owned(),
                    ),
                );
            },
            ResolvedField::Unknown => {
                return Err(
                    ServiceError::InvalidArgument(
                        text::cat3("sort field ", name, " is not a fast field"),
                    ),
                );
            },
        }
        i += 1;
    }
    Ok(out)
}

/// A term of a text column: its place in the dictionary, and its text when
/// it can be read.
pub struct TermCell {
    pub ord: u64,
    pub text: Option<String>,
}

/// The values that a document has in one fast column; a float is its bits,
/// a date milliseconds.
pub enum FieldCells {
    Missing,
    I64(Vec<i64>),
    F64(Vec<u64>),
    Bool(Vec<bool>),
    Date(Vec<i64>),
    Str(Vec<TermCell>, bool),
}

/// Whether one value is picked over another: smaller for ascending, larger
/// for descending.
pub open spec fn wins(order: SortOrder, x: int, best: int) -> bool {
    match order {
        SortOrder::Asc => x < best,
        SortOrder::Desc => x > best,
    }
}

/// The place that is picked among numbers: of the smallest for ascending,
/// of the largest for descending, the first of equal ones.
pub open spec fn is_pick(s: Seq<int>, order: SortOrder, at: int) -> bool {
    &&& 0 <= at < s.len()
    &&& forall|i: int| 0 <= i < s.len() ==> !wins(order, #[trigger] s[i], s[at])
    &&& forall|i: int| 0 <= i < at ==> #[trigger] s[i] != s[at]
}

/// Whether one float is picked over another.
pub open spec fn float_wins(order: SortOrder, x: u64, best: u64) -> bool {
    match order {
        SortOrder::Asc => float::lt64(x, best),
        SortOrder::Desc => float::lt64(best, x),
    }
}

/// The float that is picked, going through them in order.
pub open spec fn float_pick(s: Seq<u64>, order: SortOrder) -> Option<u64>
    decreases s.len(),
{
    if s.len() == 0 {
        None
    } else {
        match float_pick(s.drop_last(), order) {
            None => Some(s.last()),
            Some(best) => Some(
                if float_wins(order, s.last(), best) {
                    s.last()
                } else {
                    best
                },
            ),
        }
    }
}

/// Signed numbers as integers.
pub open spec fn signed(s: Seq<i64>) -> Seq<int> {
    Seq::new(s.len(), |i: int| s[i] as int)
}

/// Booleans as integers.
pub open spec fn truths(s: Seq<bool>) -> Seq<int> {
    Seq::new(
        s.len(),
        |i: int|
            if s[i] {
                1int
            } else {
                0
            },
    )
}

/// The places of terms as integers.
pub open spec fn ords(s: Seq<TermCell>) -> Seq<int> {
    Seq::new(s.len(), |i: int| s[i].ord as int)
}

/// Whether `v` is the sort value of a document's cells.
pub open spec fn is_sort_value(v: SortV, cells: FieldCells, order: SortOrder) -> bool {
    match cells {
        FieldCells::Missing => v is Null,
        FieldCells::I64(s) => if s@.len() == 0 {
            v is Null
        } else {
            exists|at: int| is_pick(signed(s@), order, at) && v == SortV::I64(#[trigger] s@[at])
        },
        FieldCells::Date(s) => if s@.len() == 0 {
            v is Null
        } else {
            exists|at: int| is_pick(signed(s@), order, at) && v == SortV::I64(#[trigger] s@[at])
        },
        FieldCells::F64(s) => match float_pick(s@, order) {
            None => v is Null,
            Some(b) => v == SortV::F64(b),
        },
        FieldCells::Bool(s) => if s@.len() == 0 {
            v is Null
        } else {
            exists|at: int| is_pick(truths(s@), order, at) && v == SortV::Bool(#[trigger] s@[at])
        },
        FieldCells::Str(s, uuid) => if s@.len() == 0 {
            v is Null
        } else {
            exists|at: int|
                is_pick(ords(s@), order, at) && v == term_value((#[trigger] s@[at]).text, uuid)
        },
    }
}

/// The sort value of a term: a UUID when the field holds UUIDs and the term
/// is one.
pub open spec fn term_value(t: Option<String>, uuid: bool) -> SortV {
    match t {
        None => SortV::Null,
        Some(s) => match pk::uuid_of(s@) {
            Some(b) => if uuid {
                SortV::Uuid(b)
            } else {
                SortV::Str(s@)
            },
            None => SortV::Str(s@),
        },
    }
}

fn pick_signed(s: &Vec<i64>, order: SortOrder) -> (r: Option<usize>)
    ensures
        match r {
            Some(at) => is_pick(signed(s@), order, at as int),
            None => s@.len() == 0,
        },
{
    if s.len() == 0 {
        return None;
    }
    let ghost all = signed(s@);
    let mut at: usize = 0;
    let mut i: usize = 1;
    while i < s.len()
        invariant
            at < i <= s@.len(),
            all == signed(s@),
            forall|j: int| 0 <= j < i ==> !wins(order, #[trigger] all[j], all[at as int]),
            forall|j: int| 0 <= j < at ==> #[trigger] all[j] != all[at as int],
        decreases s.len() - i,
    {
        assert(all[i as int] == s@[i as int]);
        assert(all[at as int] == s@[at as int]);
        let better = match order {
            SortOrder::Asc => s[i] < s[at],
            SortOrder::Desc => s[i] > s[at],
        };
        if better {
            at = i;
        }
        i += 1;
    }
    Some(at)
}

fn pick_ord(s: &Vec<TermCell>, order: SortOrder) -> (r: Option<usize>)
    ensures
        match r {
            Some(at) => is_pick(ords(s@), order, at as int),
            None => s@.len() == 0,
        },
{
    if s.len() == 0 {
        return None;
    }
    let ghost all = ords(s@);
    let mut at: usize = 0;
    let mut i: usize = 1;
    while i < s.len()
        invariant
            at < i <= s@.len(),
            all == ords(s@),
            forall|j: int| 0 <= j < i ==> !wins(order, #[trigger] all[j], all[at as int]),
            forall|j: int| 0 <= j < at ==> #[trigger] all[j] != all[at as int],
        decreases s.len() - i,
    {
        assert(all[i as int] == s@[i as int].ord);
        assert(all[at as int] == s@[at as int].ord);
        let better = match order {
            SortOrder::Asc => s[i].ord < s[at].ord,
            SortOrder::Desc => s[i].ord > s[at].ord,
        };
        if better {
            at = i;
        }
        i += 1;
    }
    Some(at)
}

fn pick_bool(s: &Vec<bool>, order: SortOrder) -> (r: Option<usize>)
    ensures
        match r {
            Some(at) => is_pick(truths(s@), order, at as int),
            None => s@.len() == 0,
        },
{
    if s.len() == 0 {
        return None;
    }
    let ghost all = truths(s@);
    let mut at: usize = 0;
    let mut i: usize = 1;
    while i < s.len()
        invariant
            at < i <= s@.len(),
            all == truths(s@),
            forall|j: int| 0 <= j < i ==> !wins(order, #[trigger] all[j], all[at as int]),
            forall|j: int| 0 <= j < at ==> #[trigger] all[j] != all[at as int],
        decreases s.len() - i,
    {
        assert(all[i as int] == if s@[i as int] {
            1int
        } else {
            0
        });
        assert(all[at as int] == if s@[at as int] {
            1int
        } else {
            0
        });
        let better = match order {
            SortOrder::Asc => !s[i] && s[at],
            SortOrder::Desc => s[i] && !s[at],
        };
        if better {
            at = i;
        }
        i += 1;
    }
    Some(at)
}

fn pick_float(s: &Vec<u64>, order: SortOrder) -> (r: Option<u64>)
    ensures
        r == float_pick(s@, order),
{
    let mut best: Option<u64> = None;
    let mut i: usize = 0;
    while i < s.len()
        invariant
            i <= s@.len(),
            best == float_pick(s@.take(i as int), order),
        decreases s.len() - i,
    {
        proof {
            assert(s@.take(i as int + 1).drop_last() =~= s@.take(i as int));
        }
        let x: u64 = s[i];
        best = match best {
            None => Some(x),
            Some(b) => {
                let better = match order {
                    SortOrder::Asc => float::less64(x, b),
                    SortOrder::Desc => float::less64(b, x),
                };
                if better {
                    Some(x)
                } else {
                    Some(b)
                }
            },
        };
        i += 1;
    }
    proof {
        assert(s@.take(s@.len() as int) =~= s@);
    }
    best
}

/// The sort value of a document's cells: the smallest for ascending, the
/// largest for descending, and null without a value.
pub fn sort_value(cells: &FieldCells, order: SortOrder) -> (r: SortValue)
    ensures
        is_sort_value(r@, *cells, order),
{
    match cells {
        FieldCells::Missing => SortValue::Null,
        FieldCells::I64(s) => match pick_signed(s, order) {
            Some(at) => SortValue::I64(s[at]),
            None => SortValue::Null,
        },
        FieldCells::Date(s) => match pick_signed(s, order) {
            Some(at) => SortValue::I64(s[at]),
            None => SortValue::Null,
        },
        FieldCells::F64(s) => match pick_float(s, order) {
            Some(b) => SortValue::F64(b),
            None => SortValue::Null,
        },
        FieldCells::Bool(s) => match pick_bool(s, order) {
            Some(at) => SortValue::Bool(s[at]),
            None => SortValue::Null,
        },
        FieldCells::Str(s, uuid) => match pick_ord(s, order) {
            None => SortValue::Null,
            Some(at) => {
                let r = match &s[at].text {
                    None => SortValue::Null,
                    Some(t) => match pk::parse_uuid(t.as_str()) {
                        Some(b) => if *uuid {
                            SortValue::Uuid(b)
                        } else {
                            SortValue::Str(t.clone())
                        },
                        None => SortValue::Str(t.clone()),
                    },
                };
                assert(r@ == term_value(s@[at as int].text, *uuid));
                r
            },
        },
    }
}

/// The row and key cells of a document.
pub struct DocCells {
    pub row: Option<u64>,
    pub pk: Option<Vec<u8>>,
}

/// What is wrong with a document's cells.
pub open spec fn cells_problem(doc: u32, cells: DocCells) -> Option<Seq<char>> {
    if cells.row is None {
        Some("doc "@ + text::decimal(doc as nat) + " has no _rowid"@)
    } else if cells.pk is None {
        Some("doc "@ + text::decimal(doc as nat) + " has no _pk"@)
    } else if key::key_in(cells.pk->0@) is None {
        Some("_pk of doc "@ + text::decimal(doc as nat) + ": not a canonical key"@)
    } else {
        None
    }
}

/// A document as a candidate; internal when it lacks a row id or a key.
pub fn ranked(doc: u32, cells: &DocCells, score: u32, sort: Vec<SortValue>) -> (r: Result<
    Ranked,
    ServiceError,
>)
    ensures
        match r {
            Ok(hit) => cells_problem(doc, *cells) is None && hit@ == (RankedV {
                row_id: cells.row->0,
                pk: key::key_in(cells.pk->0@)->0,
                score,
                sort: values::sort_views(sort@),
            }),
            Err(e) => cells_problem(doc, *cells) matches Some(m) && e@ == Failure::Internal(m),
        },
{
    let n = text::dec(doc as u64);
    let row_id: u64 = match cells.row {
        Some(row) => row,
        None => {
            return Err(
                ServiceError::Internal(text::cat3("doc ", n.as_str(), " has no _rowid")),
            );
        },
    };
    match &cells.pk {
        None => Err(ServiceError::Internal(text::cat3("doc ", n.as_str(), " has no _pk"))),
        Some(bytes) => match PrimaryKey::from_canonical(bytes.as_slice()) {
            Some(pk) => {
                proof {
                    key::key_in_is(bytes@, pk@);
                }
                Ok(Ranked { row_id, pk, score, sort })
            },
            None => Err(
                ServiceError::Internal(
                    text::cat3("_pk of doc ", n.as_str(), ": not a canonical key"),
                ),
            ),
        },
    }
}

} // verus!
