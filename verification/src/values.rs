//! Field values and sort values.

use crate::float;
use crate::key::{Key, PrimaryKey};
use crate::text;
use vstd::prelude::*;
use vstd::string::*;

verus! {

/// A field value in a query or a result; a float is its bits.
#[derive(Debug)]
pub enum FieldValue {
    Str(String),
    I64(i64),
    U64(u64),
    F64(u64),
    Bool(bool),
    /// Microseconds since the epoch, UTC.
    Date(i64),
}

/// What a field value is.
pub enum FieldV {
    Str(Seq<char>),
    I64(i64),
    U64(u64),
    F64(u64),
    Bool(bool),
    Date(i64),
}

impl View for FieldValue {
    type V = FieldV;

    open spec fn view(&self) -> FieldV {
        match self {
            FieldValue::Str(s) => FieldV::Str(s@),
            FieldValue::I64(n) => FieldV::I64(*n),
            FieldValue::U64(n) => FieldV::U64(*n),
            FieldValue::F64(b) => FieldV::F64(*b),
            FieldValue::Bool(b) => FieldV::Bool(*b),
            FieldValue::Date(n) => FieldV::Date(*n),
        }
    }
}

/// A field value with an unsigned integer that fits as a signed one.
pub open spec fn norm_field(v: FieldV) -> FieldV {
    match v {
        FieldV::U64(n) => if n <= i64::MAX {
            FieldV::I64(n as i64)
        } else {
            v
        },
        _ => v,
    }
}

/// Whether two field values are equal: alike, floats as numbers.
pub open spec fn equal_fields(a: FieldV, b: FieldV) -> bool {
    match (a, b) {
        (FieldV::F64(x), FieldV::F64(y)) => float::eq64(x, y),
        _ => a == b,
    }
}

/// The values of some field values.
pub open spec fn field_views(s: Seq<FieldValue>) -> Seq<FieldV> {
    Seq::new(s.len(), |i: int| s[i]@)
}

/// The value of a field value that may be missing.
pub open spec fn opt_field(v: Option<FieldValue>) -> Option<FieldV> {
    match v {
        Some(v) => Some(v@),
        None => None,
    }
}

/// The normal form of a value that may be missing.
pub open spec fn norm_opt(v: Option<FieldV>) -> Option<FieldV> {
    match v {
        Some(v) => Some(norm_field(v)),
        None => None,
    }
}

impl FieldValue {
    /// `U64(n)` with `n` in the signed range becomes `I64(n)`, as its JSON
    /// reads back.
    pub fn normalized(self) -> (r: FieldValue)
        ensures
            r@ == norm_field(self@),
    {
        match self {
            FieldValue::U64(n) => {
                if n <= i64::MAX as u64 {
                    FieldValue::I64(n as i64)
                } else {
                    FieldValue::U64(n)
                }
            },
            other => other,
        }
    }

    /// Whether two values are equal.
    pub fn equals(&self, other: &FieldValue) -> (r: bool)
        ensures
            r == equal_fields(self@, other@),
    {
        match (self, other) {
            (FieldValue::Str(a), FieldValue::Str(b)) => text::same(a.as_str(), b.as_str()),
            (FieldValue::I64(a), FieldValue::I64(b)) => *a == *b,
            (FieldValue::U64(a), FieldValue::U64(b)) => *a == *b,
            (FieldValue::F64(a), FieldValue::F64(b)) => float::same64(*a, *b),
            (FieldValue::Bool(a), FieldValue::Bool(b)) => *a == *b,
            (FieldValue::Date(a), FieldValue::Date(b)) => *a == *b,
            _ => false,
        }
    }

    /// A copy of the value.
    pub fn copy(&self) -> (r: FieldValue)
        ensures
            r@ == self@,
    {
        match self {
            FieldValue::Str(s) => FieldValue::Str(s.clone()),
            FieldValue::I64(n) => FieldValue::I64(*n),
            FieldValue::U64(n) => FieldValue::U64(*n),
            FieldValue::F64(b) => FieldValue::F64(*b),
            FieldValue::Bool(b) => FieldValue::Bool(*b),
            FieldValue::Date(n) => FieldValue::Date(*n),
        }
    }
}

/// The normal form of a value that may be missing.
pub fn normalized_opt(v: Option<FieldValue>) -> (r: Option<FieldValue>)
    ensures
        opt_field(r) == norm_opt(opt_field(v)),
{
    match v {
        Some(v) => Some(v.normalized()),
        None => None,
    }
}

/// A copy of a value that may be missing.
pub fn copy_opt(v: &Option<FieldValue>) -> (r: Option<FieldValue>)
    ensures
        opt_field(r) == opt_field(*v),
{
    match v {
        Some(v) => Some(v.copy()),
        None => None,
    }
}

/// A copy of some values.
pub fn copy_all(v: &Vec<FieldValue>) -> (r: Vec<FieldValue>)
    ensures
        field_views(r@) == field_views(v@),
{
    let mut out: Vec<FieldValue> = Vec::new();
    let mut i: usize = 0;
    while i < v.len()
        invariant
            i <= v@.len(),
            out@.len() == i,
            forall|j: int| 0 <= j < i ==> (#[trigger] out@[j])@ == v@[j]@,
        decreases v.len() - i,
    {
        out.push(v[i].copy());
        i += 1;
    }
    proof {
        assert(field_views(out@) =~= field_views(v@));
    }
    out
}

/// The normal forms of some values.
pub fn normalized_all(v: Vec<FieldValue>) -> (r: Vec<FieldValue>)
    ensures
        field_views(r@) == field_views(v@).map_values(|x: FieldV| norm_field(x)),
{
    let ghost all = v@;
    let mut out: Vec<FieldValue> = Vec::new();
    for x in it: v
        invariant
            it.seq() == all,
            out@.len() == it.index(),
            forall|j: int| 0 <= j < it.index() ==> (#[trigger] out@[j])@ == norm_field(all[j]@),
    {
        out.push(x.normalized());
    }
    proof {
        assert(field_views(out@) =~= field_views(all).map_values(|x: FieldV| norm_field(x)));
    }
    out
}

/// A sort value of a hit, and of `search_after`; a float is its bits.
#[derive(Debug)]
pub enum SortValue {
    Null,
    Bool(bool),
    I64(i64),
    U64(u64),
    F64(u64),
    Str(String),
    Uuid([u8; 16]),
}

/// What a sort value is.
pub enum SortV {
    Null,
    Bool(bool),
    I64(i64),
    U64(u64),
    F64(u64),
    Str(Seq<char>),
    Uuid(Seq<u8>),
}

impl View for SortValue {
    type V = SortV;

    open spec fn view(&self) -> SortV {
        match self {
            SortValue::Null => SortV::Null,
            SortValue::Bool(b) => SortV::Bool(*b),
            SortValue::I64(n) => SortV::I64(*n),
            SortValue::U64(n) => SortV::U64(*n),
            SortValue::F64(b) => SortV::F64(*b),
            SortValue::Str(s) => SortV::Str(s@),
            SortValue::Uuid(b) => SortV::Uuid(b@),
        }
    }
}

/// A sort value with an unsigned integer that fits as a signed one.
pub open spec fn norm_sort(v: SortV) -> SortV {
    match v {
        SortV::U64(n) => if n <= i64::MAX {
            SortV::I64(n as i64)
        } else {
            v
        },
        _ => v,
    }
}

/// The key that a sort value at a key position names.
pub open spec fn key_of(v: SortV) -> Option<Key> {
    match v {
        SortV::I64(n) => if n >= 0 {
            Some(Key::U64(n as u64))
        } else {
            None
        },
        SortV::U64(n) => Some(Key::U64(n)),
        SortV::Str(s) => Some(Key::Str(s)),
        SortV::Uuid(b) => Some(Key::Uuid(b)),
        _ => None,
    }
}

/// The sort value of a key.
pub open spec fn of_key(k: Key) -> SortV {
    match k {
        Key::U64(n) => norm_sort(SortV::U64(n)),
        Key::Str(s) => SortV::Str(s),
        Key::Uuid(b) => SortV::Uuid(b),
    }
}

/// The values of some sort values.
pub open spec fn sort_views(s: Seq<SortValue>) -> Seq<SortV> {
    Seq::new(s.len(), |i: int| s[i]@)
}

impl SortValue {
    /// `U64(n)` with `n` in the signed range becomes `I64(n)`, as its JSON
    /// reads back.
    pub fn normalized(self) -> (r: SortValue)
        ensures
            r@ == norm_sort(self@),
    {
        match self {
            SortValue::U64(n) => {
                if n <= i64::MAX as u64 {
                    SortValue::I64(n as i64)
                } else {
                    SortValue::U64(n)
                }
            },
            other => other,
        }
    }

    /// A copy of the value.
    pub fn copy(&self) -> (r: SortValue)
        ensures
            r@ == self@,
    {
        match self {
            SortValue::Null => SortValue::Null,
            SortValue::Bool(b) => SortValue::Bool(*b),
            SortValue::I64(n) => SortValue::I64(*n),
            SortValue::U64(n) => SortValue::U64(*n),
            SortValue::F64(b) => SortValue::F64(*b),
            SortValue::Str(s) => SortValue::Str(s.clone()),
            SortValue::Uuid(b) => SortValue::Uuid(*b),
        }
    }

    /// The primary key that this tie-break value names.
    pub fn as_pk(&self) -> (r: Option<PrimaryKey>)
        ensures
            match r {
                Some(k) => key_of(self@) == Some(k@),
                None => key_of(self@) is None,
            },
    {
        match self {
            SortValue::I64(n) => if *n >= 0 {
                Some(PrimaryKey::U64(*n as u64))
            } else {
                None
            },
            SortValue::U64(n) => Some(PrimaryKey::U64(*n)),
            SortValue::Str(s) => Some(PrimaryKey::Str(s.clone())),
            SortValue::Uuid(b) => Some(PrimaryKey::Uuid(*b)),
            _ => None,
        }
    }

    /// The tie-break value of `pk`, normalized.
    pub fn from_pk(pk: &PrimaryKey) -> (r: SortValue)
        ensures
            r@ == of_key(pk@),
    {
        match pk {
            PrimaryKey::U64(n) => SortValue::U64(*n).normalized(),
            PrimaryKey::Str(s) => SortValue::Str(s.clone()),
            PrimaryKey::Uuid(b) => SortValue::Uuid(*b),
        }
    }
}

/// The normal forms of some sort values.
pub fn normalized_sorts(v: Vec<SortValue>) -> (r: Vec<SortValue>)
    ensures
        sort_views(r@) == sort_views(v@).map_values(|x: SortV| norm_sort(x)),
{
    let ghost all = v@;
    let mut out: Vec<SortValue> = Vec::new();
    for x in it: v
        invariant
            it.seq() == all,
            out@.len() == it.index(),
            forall|j: int| 0 <= j < it.index() ==> (#[trigger] out@[j])@ == norm_sort(all[j]@),
    {
        out.push(x.normalized());
    }
    proof {
        assert(sort_views(out@) =~= sort_views(all).map_values(|x: SortV| norm_sort(x)));
    }
    out
}

/// Normalizing a value twice changes nothing more.
pub proof fn normal_forms_are_fixed(f: FieldV, s: SortV)
    ensures
        norm_field(norm_field(f)) == norm_field(f),
        norm_sort(norm_sort(s)) == norm_sort(s),
{
}

/// A key's sort value names the key, and is in normal form.
pub proof fn key_of_inverts(k: Key)
    ensures
        key_of(of_key(k)) == Some(k),
        norm_sort(of_key(k)) == of_key(k),
{
}

/// A normal sort value that names a key is that key's sort value.
pub proof fn of_key_inverts(v: SortV, k: Key)
    requires
        key_of(v) == Some(k),
    ensures
        of_key(k) == norm_sort(v),
{
}

} // verus!
