//! A filter over a collection's columns as a query.
//!
//! A converted filter is applied again to the rows that its query found, so
//! a query may match more rows than the filter, never fewer. A negation
//! converts only when what it negates matches exactly the rows for which the
//! predicate is true and is never unknown; a comparison only on a field
//! whose index compares as the column does, with a literal of its type.

use crate::collection::{CollectionSchema, FieldKind, FieldKindV, FieldSpec, FieldSpecV, SchemaV};
use crate::float;
use crate::json::pk;
use crate::key::{Key, PrimaryKey};
use crate::query;
use crate::query::{Query, QueryV};
use crate::text;
use crate::values;
use crate::values::{FieldV, FieldValue};
use vstd::prelude::*;
use vstd::string::*;

verus! {

broadcast use crate::query::view_bool;

/// An operator between two expressions.
#[derive(Clone, Copy, Debug, PartialEq, Eq, Structural)]
pub enum SqlOp {
    And,
    Or,
    Eq,
    Lt,
    LtEq,
    Gt,
    GtEq,
    Other,
}

/// A literal that is not null; floats are their bits, and the integers of
/// fewer bits are widened.
#[derive(Debug)]
pub enum SqlLiteral {
    Text(String),
    Int(i64),
    UInt(u64),
    F32(u32),
    F64(u64),
    Bool(bool),
    Seconds(i64),
    Millis(i64),
    Micros(i64),
    Nanos(i64),
    Other,
}

/// A filter expression, as far as it may convert.
#[derive(Debug)]
pub enum SqlExpr {
    Column(String),
    Literal(SqlLiteral),
    Binary { left: Box<SqlExpr>, op: SqlOp, right: Box<SqlExpr> },
    Not(Box<SqlExpr>),
    IsNotNull(Box<SqlExpr>),
    IsNull(Box<SqlExpr>),
    InList { expr: Box<SqlExpr>, list: Vec<SqlExpr>, negated: bool },
    Between { expr: Box<SqlExpr>, low: Box<SqlExpr>, high: Box<SqlExpr>, negated: bool },
    Other,
}

/// Whether single-precision bits are of a finite number.
pub open spec fn finite32(b: u32) -> bool {
    b % 0x8000_0000 < 0x7f80_0000
}

/// Whether double-precision bits are of a finite number.
pub open spec fn finite64(b: u64) -> bool {
    b % 0x8000_0000_0000_0000 < 0x7ff0_0000_0000_0000
}

/// A number of microseconds, if 64 bits hold it.
pub open spec fn micros(n: int) -> Option<FieldV> {
    if i64::MIN <= n <= i64::MAX {
        Some(FieldV::Date(n as i64))
    } else {
        None
    }
}

/// A literal as a field value. A moment in nanoseconds converts only when it
/// is whole microseconds: cut, it would lose the order of a bound.
pub open spec fn literal_value(l: SqlLiteral) -> Option<FieldV> {
    match l {
        SqlLiteral::Text(s) => Some(FieldV::Str(s@)),
        SqlLiteral::Int(n) => Some(FieldV::I64(n)),
        SqlLiteral::UInt(n) => Some(
            if n <= i64::MAX {
                FieldV::I64(n as i64)
            } else {
                FieldV::U64(n)
            },
        ),
        SqlLiteral::F32(b) => if finite32(b) {
            Some(FieldV::F64(float::widened(b) as u64))
        } else {
            None
        },
        SqlLiteral::F64(b) => if finite64(b) {
            Some(FieldV::F64(b))
        } else {
            None
        },
        SqlLiteral::Bool(b) => Some(FieldV::Bool(b)),
        SqlLiteral::Seconds(n) => micros(n * 1_000_000),
        SqlLiteral::Millis(n) => micros(n * 1_000),
        SqlLiteral::Micros(n) => Some(FieldV::Date(n)),
        SqlLiteral::Nanos(n) => if n as int % 1_000 == 0 {
            Some(FieldV::Date((n as int / 1_000) as i64))
        } else {
            None
        },
        SqlLiteral::Other => None,
    }
}

/// The value of an expression that is a literal.
pub open spec fn literal_in(e: SqlExpr) -> Option<FieldV> {
    match e {
        SqlExpr::Literal(l) => literal_value(l),
        _ => None,
    }
}

/// Whether a field's index answers comparisons and presence as the column of
/// its first values does.
pub open spec fn is_comparable(k: FieldKindV) -> bool {
    k is Keyword || k is I64 || k is F64 || k is Bool || k is Date || k is Uuid
}

/// Whether ranges convert on a field.
pub open spec fn is_ranged(k: FieldKindV) -> bool {
    k is Keyword || k is I64 || k is F64 || k is Date
}

/// The field of a name, from the `j`-th on.
pub open spec fn field_named(fields: Seq<FieldSpecV>, name: Seq<char>, j: int) -> Option<
    FieldSpecV,
>
    decreases fields.len() - j,
{
    if j < 0 || j >= fields.len() {
        None
    } else if fields[j].name == name {
        Some(fields[j])
    } else {
        field_named(fields, name, j + 1)
    }
}

/// The comparable field of a column.
pub open spec fn column_field(name: Seq<char>, schema: SchemaV) -> Option<FieldSpecV> {
    match field_named(schema.fields, name, 0) {
        Some(f) => if is_comparable(f.kind) {
            Some(f)
        } else {
            None
        },
        None => None,
    }
}

/// The comparable field of an expression that is a column.
pub open spec fn field_in(e: SqlExpr, schema: SchemaV) -> Option<FieldSpecV> {
    match e {
        SqlExpr::Column(name) => column_field(name@, schema),
        _ => None,
    }
}

/// A value that is of a field's type.
pub open spec fn typed_value(k: FieldKindV, v: FieldV) -> Option<FieldV> {
    let fits = match k {
        FieldKindV::Keyword => v is Str,
        FieldKindV::Uuid => v matches FieldV::Str(s) && pk::uuid_of(s) is Some,
        FieldKindV::I64 => v is I64 || v is U64,
        FieldKindV::F64 => v is F64 || v is I64 || v is U64,
        FieldKindV::Bool => v is Bool,
        FieldKindV::Date => v is Date,
        _ => false,
    };
    if fits {
        Some(v)
    } else {
        None
    }
}

/// The value of a literal of a field's type.
pub open spec fn typed_literal(k: FieldKindV, e: SqlExpr) -> Option<FieldV> {
    match literal_in(e) {
        Some(v) => typed_value(k, v),
        None => None,
    }
}

/// The values of the first literals of a list.
pub open spec fn typed_list(k: FieldKindV, list: Seq<SqlExpr>, n: nat) -> Option<Seq<FieldV>>
    decreases n,
{
    if n == 0 || n > list.len() {
        Some(Seq::empty())
    } else {
        match typed_list(k, list, (n - 1) as nat) {
            None => None,
            Some(before) => match typed_literal(k, list[n - 1]) {
                None => None,
                Some(v) => Some(before.push(v)),
            },
        }
    }
}

/// A boolean query of required, optional and forbidden parts.
pub open spec fn combined(must: Seq<QueryV>, should: Seq<QueryV>, must_not: Seq<QueryV>) -> QueryV {
    QueryV::Bool { must, should, must_not, filter: Seq::empty(), minimum_should_match: None }
}

/// The keys that a text shows: the text, the number and the UUID that it
/// writes.
pub open spec fn keys_shown(s: Seq<char>) -> Seq<Key> {
    let texts = seq![Key::Str(s)];
    let numbers = match text::number_in(s, u64::MAX as nat) {
        Some(n) => if text::decimal(n) == s {
            seq![Key::U64(n as u64)]
        } else {
            Seq::empty()
        },
        None => Seq::empty(),
    };
    let uuids = match pk::uuid_of(s) {
        Some(b) => seq![Key::Uuid(b)],
        None => Seq::empty(),
    };
    texts + numbers + uuids
}

/// The operator with its sides swapped.
pub open spec fn swapped(op: SqlOp) -> Option<SqlOp> {
    match op {
        SqlOp::Eq => Some(SqlOp::Eq),
        SqlOp::Lt => Some(SqlOp::Gt),
        SqlOp::LtEq => Some(SqlOp::GtEq),
        SqlOp::Gt => Some(SqlOp::Lt),
        SqlOp::GtEq => Some(SqlOp::LtEq),
        _ => None,
    }
}

/// The comparison of a column with a value.
pub open spec fn compared(name: Seq<char>, op: SqlOp, value: FieldV, schema: SchemaV) -> Option<
    QueryV,
> {
    if name == "_id"@ {
        match value {
            FieldV::Str(s) => if op == SqlOp::Eq {
                Some(QueryV::Ids(keys_shown(s)))
            } else {
                None
            },
            _ => None,
        }
    } else {
        match column_field(name, schema) {
            None => None,
            Some(f) => match typed_value(f.kind, value) {
                None => None,
                Some(v) => if op == SqlOp::Eq {
                    Some(QueryV::Term { field: f.name, value: v })
                } else if is_ranged(f.kind) {
                    Some(
                        QueryV::Range {
                            field: f.name,
                            gt: if op == SqlOp::Gt {
                                Some(v)
                            } else {
                                None
                            },
                            gte: if op == SqlOp::GtEq {
                                Some(v)
                            } else {
                                None
                            },
                            lt: if op == SqlOp::Lt {
                                Some(v)
                            } else {
                                None
                            },
                            lte: if op == SqlOp::LtEq {
                                Some(v)
                            } else {
                                None
                            },
                        },
                    )
                } else {
                    None
                },
            },
        }
    }
}

/// The comparison of two expressions: of a column with a literal, on either
/// side.
pub open spec fn comparison_in(left: SqlExpr, op: SqlOp, right: SqlExpr, schema: SchemaV) -> Option<
    QueryV,
> {
    match left {
        SqlExpr::Column(name) => match literal_in(right) {
            Some(v) => compared(name@, op, v, schema),
            None => None,
        },
        _ => match right {
            SqlExpr::Column(name) => match literal_in(left) {
                Some(v) => match swapped(op) {
                    Some(op) => compared(name@, op, v, schema),
                    None => None,
                },
                None => None,
            },
            _ => None,
        },
    }
}

/// Whether an operator compares.
pub open spec fn compares(op: SqlOp) -> bool {
    op == SqlOp::Eq || op == SqlOp::Lt || op == SqlOp::LtEq || op == SqlOp::Gt || op == SqlOp::GtEq
}

/// The query of an expression, and whether it is exact: it matches exactly
/// the rows for which the predicate is true, and that is never unknown.
pub open spec fn converted(e: SqlExpr, schema: SchemaV) -> Option<(QueryV, bool)>
    decreases e,
{
    match e {
        SqlExpr::Binary { left, op, right } => if op == SqlOp::And || op == SqlOp::Or {
            match converted(*left, schema) {
                None => None,
                Some((a, exact_a)) => match converted(*right, schema) {
                    None => None,
                    Some((b, exact_b)) => Some(
                        (
                            if op == SqlOp::And {
                                combined(seq![a, b], Seq::empty(), Seq::empty())
                            } else {
                                combined(Seq::empty(), seq![a, b], Seq::empty())
                            },
                            exact_a && exact_b,
                        ),
                    ),
                },
            }
        } else if compares(op) {
            match comparison_in(*left, op, *right, schema) {
                Some(q) => Some((q, false)),
                None => None,
            }
        } else {
            None
        },
        SqlExpr::Not(inner) => match converted(*inner, schema) {
            Some((q, true)) => Some(
                (combined(seq![QueryV::MatchAll], Seq::empty(), seq![q]), true),
            ),
            _ => None,
        },
        SqlExpr::IsNotNull(inner) => match field_in(*inner, schema) {
            Some(f) => Some((QueryV::Exists { field: f.name }, true)),
            None => None,
        },
        SqlExpr::IsNull(inner) => match field_in(*inner, schema) {
            Some(f) => Some((QueryV::IsEmpty { field: f.name }, true)),
            None => None,
        },
        SqlExpr::InList { expr, list, negated } => if negated {
            None
        } else {
            match field_in(*expr, schema) {
                None => None,
                Some(f) => match typed_list(f.kind, list@, list@.len()) {
                    None => None,
                    Some(values) => Some((QueryV::Terms { field: f.name, values }, false)),
                },
            }
        },
        SqlExpr::Between { expr, low, high, negated } => if negated {
            None
        } else {
            match field_in(*expr, schema) {
                None => None,
                Some(f) => if !is_ranged(f.kind) {
                    None
                } else {
                    match typed_literal(f.kind, *low) {
                        None => None,
                        Some(a) => match typed_literal(f.kind, *high) {
                            None => None,
                            Some(b) => Some(
                                (
                                    QueryV::Range {
                                        field: f.name,
                                        gt: None,
                                        gte: Some(a),
                                        lt: None,
                                        lte: Some(b),
                                    },
                                    false,
                                ),
                            ),
                        },
                    }
                },
            }
        },
        _ => None,
    }
}

fn times(n: i64, by: i64) -> (r: Option<FieldValue>)
    requires
        0 < by <= 1_000_000,
    ensures
        values::opt_field(r) == micros(n * by),
{
    assert(-0x8000_0000_0000_0000 * 1_000_000 <= n * by <= 0x8000_0000_0000_0000 * 1_000_000)
        by (nonlinear_arith)
        requires
            0 < by <= 1_000_000,
            -0x8000_0000_0000_0000 <= n < 0x8000_0000_0000_0000,
    ;
    let product: i128 = (n as i128) * (by as i128);
    if -0x8000_0000_0000_0000 <= product && product <= 0x7fff_ffff_ffff_ffff {
        Some(FieldValue::Date(product as i64))
    } else {
        None
    }
}

fn value_of(l: &SqlLiteral) -> (r: Option<FieldValue>)
    ensures
        values::opt_field(r) == literal_value(*l),
{
    match l {
        SqlLiteral::Text(s) => Some(FieldValue::Str(s.clone())),
        SqlLiteral::Int(n) => Some(FieldValue::I64(*n)),
        SqlLiteral::UInt(n) => if *n <= i64::MAX as u64 {
            Some(FieldValue::I64(*n as i64))
        } else {
            Some(FieldValue::U64(*n))
        },
        SqlLiteral::F32(b) => if *b % 0x8000_0000 < 0x7f80_0000 {
            Some(FieldValue::F64(float::widen(*b)))
        } else {
            None
        },
        SqlLiteral::F64(b) => if *b % 0x8000_0000_0000_0000 < 0x7ff0_0000_0000_0000 {
            Some(FieldValue::F64(*b))
        } else {
            None
        },
        SqlLiteral::Bool(b) => Some(FieldValue::Bool(*b)),
        SqlLiteral::Seconds(n) => times(*n, 1_000_000),
        SqlLiteral::Millis(n) => times(*n, 1_000),
        SqlLiteral::Micros(n) => Some(FieldValue::Date(*n)),
        SqlLiteral::Nanos(n) => {
            let whole: i64 = thousandth(*n);
            if (whole as i128) * 1_000 == *n as i128 {
                Some(FieldValue::Date(whole))
            } else {
                None
            }
        },
        SqlLiteral::Other => None,
    }
}

fn thousandth(n: i64) -> (r: i64)
    ensures
        r == n as int / 1_000,
{
    if n >= 0 {
        n / 1_000
    } else {
        let up: i64 = -(n + 1);
        -(up / 1_000) - 1
    }
}

fn literal(e: &SqlExpr) -> (r: Option<FieldValue>)
    ensures
        values::opt_field(r) == literal_in(*e),
{
    match e {
        SqlExpr::Literal(l) => value_of(l),
        _ => None,
    }
}

fn comparable(kind: &FieldKind) -> (r: bool)
    ensures
        r == is_comparable(kind@),
{
    match kind {
        FieldKind::Keyword => true,
        FieldKind::I64 => true,
        FieldKind::F64 => true,
        FieldKind::Bool => true,
        FieldKind::Date => true,
        FieldKind::Uuid => true,
        _ => false,
    }
}

fn ranged(kind: &FieldKind) -> (r: bool)
    ensures
        r == is_ranged(kind@),
{
    match kind {
        FieldKind::Keyword => true,
        FieldKind::I64 => true,
        FieldKind::F64 => true,
        FieldKind::Date => true,
        _ => false,
    }
}

/// What a field that may be missing is.
pub open spec fn opt_spec(f: Option<&FieldSpec>) -> Option<FieldSpecV> {
    match f {
        Some(f) => Some(f@),
        None => None,
    }
}

fn field_of<'a>(name: &str, schema: &'a CollectionSchema) -> (r: Option<&'a FieldSpec>)
    ensures
        opt_spec(r) == column_field(name@, schema@),
{
    let ghost fv = schema@.fields;
    let mut j: usize = 0;
    while j < schema.fields.len()
        invariant
            j <= schema.fields@.len(),
            fv == schema@.fields,
            field_named(fv, name@, 0) == field_named(fv, name@, j as int),
        decreases schema.fields.len() - j,
    {
        assert(fv[j as int] == schema.fields@[j as int]@);
        if text::same(&schema.fields[j].name, name) {
            return if comparable(&schema.fields[j].kind) {
                Some(&schema.fields[j])
            } else {
                None
            };
        }
        j += 1;
    }
    None
}

fn field<'a>(e: &SqlExpr, schema: &'a CollectionSchema) -> (r: Option<&'a FieldSpec>)
    ensures
        opt_spec(r) == field_in(*e, schema@),
{
    match e {
        SqlExpr::Column(name) => field_of(name, schema),
        _ => None,
    }
}

fn typed(kind: &FieldKind, value: FieldValue) -> (r: Option<FieldValue>)
    ensures
        values::opt_field(r) == typed_value(kind@, value@),
{
    let fits = match kind {
        FieldKind::Keyword => matches!(value, FieldValue::Str(_)),
        FieldKind::Uuid => match &value {
            FieldValue::Str(s) => pk::parse_uuid(s).is_some(),
            _ => false,
        },
        FieldKind::I64 => matches!(value, FieldValue::I64(_) | FieldValue::U64(_)),
        FieldKind::F64 => matches!(
            value,
            FieldValue::F64(_) | FieldValue::I64(_) | FieldValue::U64(_)
        ),
        FieldKind::Bool => matches!(value, FieldValue::Bool(_)),
        FieldKind::Date => matches!(value, FieldValue::Date(_)),
        _ => false,
    };
    if fits {
        Some(value)
    } else {
        None
    }
}

fn typed_item(kind: &FieldKind, e: &SqlExpr) -> (r: Option<FieldValue>)
    ensures
        values::opt_field(r) == typed_literal(kind@, *e),
{
    match literal(e) {
        Some(v) => typed(kind, v),
        None => None,
    }
}

proof fn list_stays_untyped(k: FieldKindV, list: Seq<SqlExpr>, n: nat, m: nat)
    requires
        n <= m <= list.len(),
        typed_list(k, list, n) is None,
    ensures
        typed_list(k, list, m) is None,
    decreases m,
{
    if n < m {
        list_stays_untyped(k, list, n, (m - 1) as nat);
    }
}

fn typed_items(kind: &FieldKind, list: &Vec<SqlExpr>) -> (r: Option<Vec<FieldValue>>)
    ensures
        match r {
            Some(vs) => typed_list(kind@, list@, list@.len()) == Some(values::field_views(vs@)),
            None => typed_list(kind@, list@, list@.len()) is None,
        },
{
    let mut out: Vec<FieldValue> = Vec::new();
    let mut i: usize = 0;
    assert(values::field_views(out@) =~= Seq::empty());
    while i < list.len()
        invariant
            i <= list@.len(),
            typed_list(kind@, list@, i as nat) == Some(values::field_views(out@)),
        decreases list.len() - i,
    {
        let ghost before = values::field_views(out@);
        match typed_item(kind, &list[i]) {
            Some(v) => {
                out.push(v);
                assert(values::field_views(out@) =~= before.push(v@));
            },
            None => {
                proof {
                    list_stays_untyped(kind@, list@, (i + 1) as nat, list@.len());
                }
                return None;
            },
        }
        i += 1;
    }
    Some(out)
}

fn ids(shown: &str) -> (r: Query)
    ensures
        r@ == QueryV::Ids(keys_shown(shown@)),
{
    let mut keys: Vec<PrimaryKey> = Vec::new();
    keys.push(PrimaryKey::Str(shown.to_owned()));
    if let Some(n) = text::parse_number(shown, u64::MAX) {
        let again = text::dec(n);
        if text::same(&again, shown) {
            keys.push(PrimaryKey::U64(n));
        }
    }
    if let Some(b) = pk::parse_uuid(shown) {
        keys.push(PrimaryKey::Uuid(b));
    }
    assert(query::key_views(keys@) =~= keys_shown(shown@));
    Query::Ids(keys)
}

fn bool_query(must: Vec<Query>, should: Vec<Query>, must_not: Vec<Query>) -> (r: Query)
    ensures
        r@ == combined(
            query::query_views(must@),
            query::query_views(should@),
            query::query_views(must_not@),
        ),
{
    let filter: Vec<Query> = Vec::new();
    assert(query::query_views(filter@) =~= Seq::empty());
    Query::Bool { must, should, must_not, filter, minimum_should_match: None }
}

fn compare_column(name: &str, op: SqlOp, value: FieldValue, schema: &CollectionSchema) -> (r: Option<
    Query,
>)
    requires
        compares(op),
    ensures
        query::opt_query(r) == compared(name@, op, value@, schema@),
{
    if text::same(name, "_id") {
        return match value {
            FieldValue::Str(s) => if op == SqlOp::Eq {
                Some(ids(&s))
            } else {
                None
            },
            _ => None,
        };
    }
    let spec_f = match field_of(name, schema) {
        Some(f) => f,
        None => {
            return None;
        },
    };
    let v = match typed(&spec_f.kind, value) {
        Some(v) => v,
        None => {
            return None;
        },
    };
    let field = spec_f.name.clone();
    if op == SqlOp::Eq {
        return Some(Query::Term { field, value: v });
    }
    if !ranged(&spec_f.kind) {
        return None;
    }
    let mut gt: Option<FieldValue> = None;
    let mut gte: Option<FieldValue> = None;
    let mut lt: Option<FieldValue> = None;
    let mut lte: Option<FieldValue> = None;
    match op {
        SqlOp::Gt => {
            gt = Some(v);
        },
        SqlOp::GtEq => {
            gte = Some(v);
        },
        SqlOp::Lt => {
            lt = Some(v);
        },
        _ => {
            lte = Some(v);
        },
    }
    Some(Query::Range { field, gt, gte, lt, lte })
}

fn swap_sides(op: SqlOp) -> (r: Option<SqlOp>)
    ensures
        r == swapped(op),
{
    match op {
        SqlOp::Eq => Some(SqlOp::Eq),
        SqlOp::Lt => Some(SqlOp::Gt),
        SqlOp::LtEq => Some(SqlOp::GtEq),
        SqlOp::Gt => Some(SqlOp::Lt),
        SqlOp::GtEq => Some(SqlOp::LtEq),
        _ => None,
    }
}

fn comparison(left: &SqlExpr, op: SqlOp, right: &SqlExpr, schema: &CollectionSchema) -> (r: Option<
    Query,
>)
    requires
        compares(op),
    ensures
        query::opt_query(r) == comparison_in(*left, op, *right, schema@),
{
    if let SqlExpr::Column(name) = left {
        return match literal(right) {
            Some(v) => compare_column(name, op, v, schema),
            None => None,
        };
    }
    if let SqlExpr::Column(name) = right {
        return match literal(left) {
            Some(v) => match swap_sides(op) {
                Some(op) => compare_column(name, op, v, schema),
                None => None,
            },
            None => None,
        };
    }
    None
}

/// What a converted expression is.
pub open spec fn opt_converted(r: Option<(Query, bool)>) -> Option<(QueryV, bool)> {
    match r {
        Some((q, exact)) => Some((q@, exact)),
        None => None,
    }
}

fn convert(e: &SqlExpr, schema: &CollectionSchema) -> (r: Option<(Query, bool)>)
    ensures
        opt_converted(r) == converted(*e, schema@),
    decreases e,
{
    match e {
        SqlExpr::Binary { left, op, right } => match *op {
            SqlOp::And => {
                let (a, exact_a) = match convert(left, schema) {
                    Some(x) => x,
                    None => {
                        return None;
                    },
                };
                let (b, exact_b) = match convert(right, schema) {
                    Some(x) => x,
                    None => {
                        return None;
                    },
                };
                let must: Vec<Query> = vec![a, b];
                assert(query::query_views(must@) =~= seq![a@, b@]);
                let none: Vec<Query> = Vec::new();
                assert(query::query_views(none@) =~= Seq::empty());
                Some((bool_query(must, Vec::new(), none), exact_a && exact_b))
            },
            SqlOp::Or => {
                let (a, exact_a) = match convert(left, schema) {
                    Some(x) => x,
                    None => {
                        return None;
                    },
                };
                let (b, exact_b) = match convert(right, schema) {
                    Some(x) => x,
                    None => {
                        return None;
                    },
                };
                let should: Vec<Query> = vec![a, b];
                assert(query::query_views(should@) =~= seq![a@, b@]);
                let none: Vec<Query> = Vec::new();
                assert(query::query_views(none@) =~= Seq::empty());
                Some((bool_query(Vec::new(), should, none), exact_a && exact_b))
            },
            SqlOp::Other => None,
            op => match comparison(left, op, right, schema) {
                Some(q) => Some((q, false)),
                None => None,
            },
        },
        SqlExpr::Not(inner) => {
            let (q, exact) = match convert(inner, schema) {
                Some(x) => x,
                None => {
                    return None;
                },
            };
            if !exact {
                return None;
            }
            let must: Vec<Query> = vec![Query::MatchAll];
            assert(query::query_views(must@) =~= seq![QueryV::MatchAll]);
            let must_not: Vec<Query> = vec![q];
            assert(query::query_views(must_not@) =~= seq![q@]);
            let none: Vec<Query> = Vec::new();
            assert(query::query_views(none@) =~= Seq::empty());
            Some((bool_query(must, none, must_not), true))
        },
        SqlExpr::IsNotNull(inner) => match field(inner, schema) {
            Some(f) => Some((Query::Exists { field: f.name.clone() }, true)),
            None => None,
        },
        SqlExpr::IsNull(inner) => match field(inner, schema) {
            Some(f) => Some((Query::IsEmpty { field: f.name.clone() }, true)),
            None => None,
        },
        SqlExpr::InList { expr, list, negated } => {
            if *negated {
                return None;
            }
            match field(expr, schema) {
                None => None,
                Some(f) => match typed_items(&f.kind, list) {
                    None => None,
                    Some(values) => Some((Query::Terms { field: f.name.clone(), values }, false)),
                },
            }
        },
        SqlExpr::Between { expr, low, high, negated } => {
            if *negated {
                return None;
            }
            let f = match field(expr, schema) {
                Some(f) => f,
                None => {
                    return None;
                },
            };
            if !ranged(&f.kind) {
                return None;
            }
            match typed_item(&f.kind, low) {
                None => None,
                Some(a) => match typed_item(&f.kind, high) {
                    None => None,
                    Some(b) => Some(
                        (
                            Query::Range {
                                field: f.name.clone(),
                                gt: None,
                                gte: Some(a),
                                lt: None,
                                lte: Some(b),
                            },
                            false,
                        ),
                    ),
                },
            }
        },
        _ => None,
    }
}

/// A filter as a query over a schema's fields, none when it does not
/// convert.
pub fn expr_to_query(e: &SqlExpr, schema: &CollectionSchema) -> (r: Option<Query>)
    ensures
        query::opt_query(r) == (match converted(*e, schema@) {
            Some((q, _)) => Some(q),
            None => None,
        }),
{
    match convert(e, schema) {
        Some((q, _)) => Some(q),
        None => None,
    }
}

/// The truth of an expression on a row, none where it is unknown, of the
/// truth of its parts that neither combine nor negate.
pub open spec fn truth(e: SqlExpr, part: spec_fn(SqlExpr) -> Option<bool>) -> Option<bool>
    decreases e,
{
    match e {
        SqlExpr::Binary { left, op, right } => if op == SqlOp::And {
            match (truth(*left, part), truth(*right, part)) {
                (Some(false), _) => Some(false),
                (_, Some(false)) => Some(false),
                (Some(true), Some(true)) => Some(true),
                _ => None,
            }
        } else if op == SqlOp::Or {
            match (truth(*left, part), truth(*right, part)) {
                (Some(true), _) => Some(true),
                (_, Some(true)) => Some(true),
                (Some(false), Some(false)) => Some(false),
                _ => None,
            }
        } else {
            part(e)
        },
        SqlExpr::Not(inner) => match truth(*inner, part) {
            Some(b) => Some(!b),
            None => None,
        },
        _ => part(e),
    }
}

/// Whether a document matches a query, of whether it matches the parts that
/// combine nothing: all required ones, none of the forbidden ones, and one
/// of the optional ones where there is nothing else to require.
pub open spec fn matched(q: QueryV, leaf: spec_fn(QueryV) -> bool) -> bool
    decreases q,
{
    match q {
        QueryV::MatchAll => true,
        QueryV::Bool { must, should, must_not, filter, .. } => {
            &&& forall|i: int| 0 <= i < must.len() ==> matched(#[trigger] must[i], leaf)
            &&& forall|i: int| 0 <= i < filter.len() ==> matched(#[trigger] filter[i], leaf)
            &&& forall|i: int| 0 <= i < must_not.len() ==> !matched(#[trigger] must_not[i], leaf)
            &&& must.len() == 0 && filter.len() == 0 && should.len() > 0 ==> exists|i: int|
                0 <= i < should.len() && matched(#[trigger] should[i], leaf)
        },
        _ => leaf(q),
    }
}

/// Whether the parts of a filter keep their promise on a row: one that is
/// true matches its query, and one that is exact is known and true just
/// where its query matches.
pub open spec fn parts_keep(
    schema: SchemaV,
    part: spec_fn(SqlExpr) -> Option<bool>,
    leaf: spec_fn(QueryV) -> bool,
) -> bool {
    forall|e: SqlExpr|
        match #[trigger] converted(e, schema) {
            None => true,
            Some((q, exact)) => !(q is Bool) && !(q is MatchAll) ==> {
                &&& part(e) == Some(true) ==> leaf(q)
                &&& exact ==> part(e) == Some(leaf(q))
            },
        }
}

/// No row is lost: a converted filter that is true of a row matches it, and
/// an exact one is true of just the rows that match.
pub proof fn no_row_is_lost(
    e: SqlExpr,
    schema: SchemaV,
    part: spec_fn(SqlExpr) -> Option<bool>,
    leaf: spec_fn(QueryV) -> bool,
)
    requires
        parts_keep(schema, part, leaf),
        converted(e, schema) is Some,
    ensures
        truth(e, part) == Some(true) ==> matched(converted(e, schema)->Some_0.0, leaf),
        converted(e, schema)->Some_0.1 ==> truth(e, part) == Some(
            matched(converted(e, schema)->Some_0.0, leaf),
        ),
    decreases e,
{
    let (q, exact) = converted(e, schema)->Some_0;
    match e {
        SqlExpr::Binary { left, op, right } => {
            if op == SqlOp::And || op == SqlOp::Or {
                no_row_is_lost(*left, schema, part, leaf);
                no_row_is_lost(*right, schema, part, leaf);
                let a = converted(*left, schema)->Some_0.0;
                let b = converted(*right, schema)->Some_0.0;
                let both = seq![a, b];
                assert(both[0] == a && both[1] == b);
                if op == SqlOp::And {
                    assert(q == combined(both, Seq::empty(), Seq::empty()));
                    assert(matched(q, leaf) == (matched(both[0], leaf) && matched(both[1], leaf)));
                } else {
                    assert(q == combined(Seq::empty(), both, Seq::empty()));
                    assert(matched(q, leaf) == (matched(both[0], leaf) || matched(both[1], leaf)));
                }
            } else {
                assert(!(q is Bool) && !(q is MatchAll));
            }
        },
        SqlExpr::Not(inner) => {
            no_row_is_lost(*inner, schema, part, leaf);
            let a = converted(*inner, schema)->Some_0.0;
            let every = seq![QueryV::MatchAll];
            let never = seq![a];
            assert(every[0] == QueryV::MatchAll && never[0] == a);
            assert(q == combined(every, Seq::empty(), never));
            assert(matched(every[0], leaf));
            assert forall|i: int| 0 <= i < every.len() implies matched(
                #[trigger] every[i],
                leaf,
            ) by {
                assert(every[i] == every[0]);
            }
            assert(q->must_not == never);
            assert(q->Bool_must == every);
            if matched(never[0], leaf) {
                assert(!matched(q, leaf));
            } else {
                assert forall|i: int| 0 <= i < never.len() implies !matched(
                    #[trigger] never[i],
                    leaf,
                ) by {
                    assert(never[i] == never[0]);
                }
                assert(matched(q, leaf));
            }
        },
        _ => {
            assert(!(q is Bool) && !(q is MatchAll));
        },
    }
}

} // verus!
