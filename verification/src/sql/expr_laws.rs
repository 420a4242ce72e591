//! No row is lost to a filter that became a query: what is true of the
//! columns of a row matches its document.

use crate::collection::{FieldKindV, SchemaV};
use crate::float;
use crate::json::pk;
use crate::key;
use crate::key::Key;
use crate::meaning;
use crate::meaning::DocV;
use crate::query::QueryV;
use crate::sql::exprs;
use crate::sql::exprs::{SqlExpr, SqlLiteral, SqlOp};
use crate::sql::rows;
use crate::sql::table_scan;
use crate::text;
use crate::values::FieldV;
use vstd::prelude::*;
use vstd::string::*;

verus! {

/// What a column of a document's row shows: its key, or a field's first
/// value; none for a null.
pub open spec fn shown(d: DocV, name: Seq<char>) -> Option<FieldV> {
    if name == "_id"@ {
        Some(FieldV::Str(rows::key_text(d.key)))
    } else if meaning::values_of(d, name).len() > 0 {
        Some(meaning::values_of(d, name)[0])
    } else {
        None
    }
}

/// The moment that a literal names, in nanoseconds.
pub open spec fn moment(l: SqlLiteral) -> Option<int> {
    match l {
        SqlLiteral::Seconds(n) => Some(n * 1_000_000_000),
        SqlLiteral::Millis(n) => Some(n * 1_000_000),
        SqlLiteral::Micros(n) => Some(n * 1_000),
        SqlLiteral::Nanos(n) => Some(n as int),
        _ => None,
    }
}

/// The integer that a literal is.
pub open spec fn whole(l: SqlLiteral) -> Option<int> {
    match l {
        SqlLiteral::Int(n) => Some(n as int),
        SqlLiteral::UInt(n) => Some(n as int),
        _ => None,
    }
}

/// The double that a literal is compared as beside a double.
pub open spec fn as_double(l: SqlLiteral) -> Option<u64> {
    match l {
        SqlLiteral::F64(b) => Some(b),
        SqlLiteral::F32(b) => Some(float::widened(b) as u64),
        SqlLiteral::Int(n) => Some(float::int_bits64(n as int) as u64),
        SqlLiteral::UInt(n) => Some(float::int_bits64(n as int) as u64),
        _ => None,
    }
}

/// Whether a column's value is less than a literal: texts by their
/// characters, moments by when they are, numbers by their value.
pub open spec fn below(x: FieldV, l: SqlLiteral) -> bool {
    match (x, l) {
        (FieldV::Str(s), SqlLiteral::Text(t)) => text::before(s, t@),
        (FieldV::Bool(a), SqlLiteral::Bool(b)) => !a && b,
        (FieldV::Date(us), _) => moment(l) matches Some(ns) && us * 1_000 < ns,
        _ => match (meaning::integer(x), whole(l)) {
            (Some(a), Some(b)) => a < b,
            _ => match (meaning::double(x), as_double(l)) {
                (Some(a), Some(b)) => float::lt64(a, b),
                _ => false,
            },
        },
    }
}

/// Whether a column's value is greater than a literal.
pub open spec fn above(x: FieldV, l: SqlLiteral) -> bool {
    match (x, l) {
        (FieldV::Str(s), SqlLiteral::Text(t)) => text::before(t@, s),
        (FieldV::Bool(a), SqlLiteral::Bool(b)) => a && !b,
        (FieldV::Date(us), _) => moment(l) matches Some(ns) && us * 1_000 > ns,
        _ => match (meaning::integer(x), whole(l)) {
            (Some(a), Some(b)) => a > b,
            _ => match (meaning::double(x), as_double(l)) {
                (Some(a), Some(b)) => float::lt64(b, a),
                _ => false,
            },
        },
    }
}

/// Whether a column's value equals a literal.
pub open spec fn equals(x: FieldV, l: SqlLiteral) -> bool {
    match (x, l) {
        (FieldV::Str(s), SqlLiteral::Text(t)) => s == t@,
        (FieldV::Bool(a), SqlLiteral::Bool(b)) => a == b,
        (FieldV::Date(us), _) => moment(l) matches Some(ns) && us * 1_000 == ns,
        _ => match (meaning::integer(x), whole(l)) {
            (Some(a), Some(b)) => a == b,
            _ => match (meaning::double(x), as_double(l)) {
                (Some(a), Some(b)) => float::eq64(a, b),
                _ => false,
            },
        },
    }
}

/// Whether `value op literal` is true.
pub open spec fn holds(x: FieldV, op: SqlOp, l: SqlLiteral) -> bool {
    match op {
        SqlOp::Eq => equals(x, l),
        SqlOp::Lt => below(x, l),
        SqlOp::LtEq => below(x, l) || equals(x, l),
        SqlOp::Gt => above(x, l),
        SqlOp::GtEq => above(x, l) || equals(x, l),
        _ => false,
    }
}

/// Whether `literal op value` is true.
pub open spec fn holds_of(l: SqlLiteral, op: SqlOp, x: FieldV) -> bool {
    match op {
        SqlOp::Eq => equals(x, l),
        SqlOp::Lt => above(x, l),
        SqlOp::LtEq => above(x, l) || equals(x, l),
        SqlOp::Gt => below(x, l),
        SqlOp::GtEq => below(x, l) || equals(x, l),
        _ => false,
    }
}

/// Whether a value equals a literal of a list.
pub open spec fn among(x: FieldV, list: Seq<SqlExpr>) -> bool {
    exists|i: int|
        0 <= i < list.len() && (#[trigger] list[i] matches SqlExpr::Literal(l) && equals(x, l))
}

/// The truth, on a document's row, of a part that neither combines nor
/// negates: unknown where its column is null, but for the question whether
/// it is.
pub open spec fn part_truth(e: SqlExpr, d: DocV) -> Option<bool> {
    match e {
        SqlExpr::Binary { left, op, right } => match (*left, *right) {
            (SqlExpr::Column(name), SqlExpr::Literal(l)) => match shown(d, name@) {
                Some(x) => Some(holds(x, op, l)),
                None => None,
            },
            (SqlExpr::Literal(l), SqlExpr::Column(name)) => match shown(d, name@) {
                Some(x) => Some(holds_of(l, op, x)),
                None => None,
            },
            _ => None,
        },
        SqlExpr::IsNotNull(inner) => match *inner {
            SqlExpr::Column(name) => Some(shown(d, name@) is Some),
            _ => None,
        },
        SqlExpr::IsNull(inner) => match *inner {
            SqlExpr::Column(name) => Some(shown(d, name@) is None),
            _ => None,
        },
        SqlExpr::InList { expr, list, negated } => match *expr {
            SqlExpr::Column(name) => match shown(d, name@) {
                Some(x) => Some(among(x, list@) != negated),
                None => None,
            },
            _ => None,
        },
        SqlExpr::Between { expr, low, high, negated } => match (*expr, *low, *high) {
            (SqlExpr::Column(name), SqlExpr::Literal(a), SqlExpr::Literal(b)) => match shown(
                d,
                name@,
            ) {
                Some(x) => Some(
                    (holds(x, SqlOp::GtEq, a) && holds(x, SqlOp::LtEq, b)) != negated,
                ),
                None => None,
            },
            _ => None,
        },
        _ => None,
    }
}

/// The truth of a filter on a document's row.
pub open spec fn row_truth(e: SqlExpr, d: DocV) -> Option<bool> {
    exprs::truth(e, |part: SqlExpr| part_truth(part, d))
}

/// A schema without a field of the key's name.
pub open spec fn no_id_field(s: SchemaV) -> bool {
    forall|i: int| 0 <= i < s.fields.len() ==> (#[trigger] s.fields[i]).name != "_id"@
}

/// A document without several values of a field, whose key has one text.
pub open spec fn is_plain(d: DocV) -> bool {
    &&& !(d.key is Uuid)
    &&& forall|name: Seq<char>| (#[trigger] meaning::values_of(d, name)).len() <= 1
}

/// A converted literal compares with every value as the literal does.
proof fn literals_compare_alike(x: FieldV, l: SqlLiteral)
    ensures
        exprs::literal_value(l) matches Some(v) ==> {
            &&& meaning::less(x, v) == below(x, l)
            &&& meaning::less(v, x) == above(x, l)
            &&& meaning::same(x, v) == equals(x, l)
            &&& meaning::same(v, x) == equals(x, l)
        },
{
    if let FieldV::Date(us) = x {
        match l {
            SqlLiteral::Nanos(n) => {
                assert(n as int % 1_000 == 0 ==> n as int == (n as int / 1_000) * 1_000);
            },
            _ => {},
        }
    }
}

proof fn named_fields(s: SchemaV, name: Seq<char>, j: int)
    requires
        0 <= j,
    ensures
        exprs::field_named(s.fields, name, j) matches Some(f) ==> f.name == name && exists|i: int|
            j <= i < s.fields.len() && s.fields[i] == f,
    decreases s.fields.len() - j,
{
    if j < s.fields.len() && s.fields[j].name != name {
        named_fields(s, name, j + 1);
    }
}

proof fn columns_are_fields(s: SchemaV, name: Seq<char>)
    requires
        no_id_field(s),
    ensures
        exprs::column_field(name, s) matches Some(f) ==> f.name == name && name != "_id"@,
{
    named_fields(s, name, 0);
}

proof fn shown_keys(d: DocV, s: Seq<char>)
    requires
        key::is_key(d.key),
    ensures
        rows::key_text(d.key) == s ==> exprs::keys_shown(s).contains(d.key),
        exprs::keys_shown(s).contains(d.key) && !(d.key is Uuid) ==> rows::key_text(d.key) == s,
{
    let all = exprs::keys_shown(s);
    assert(all[0] == Key::Str(s));
    match d.key {
        Key::U64(n) => {
            if rows::key_text(d.key) == s {
                text::decimal_is_canonical(n as nat);
                assert(text::is_digit(s[0]));
                assert(text::unsigned_digits(s) == s);
                assert(all[1] == Key::U64(n));
            }
        },
        Key::Uuid(b) => {
            if rows::key_text(d.key) == s {
                pk::uuid_round_trip(b);
                assert(all[all.len() - 1] == Key::Uuid(b));
            }
        },
        _ => {},
    }
}

proof fn compared_columns(
    name: Seq<char>,
    op: SqlOp,
    l: SqlLiteral,
    s: SchemaV,
    d: DocV,
    words: spec_fn(QueryV, DocV) -> bool,
)
    requires
        exprs::compares(op),
        no_id_field(s),
        key::is_key(d.key),
    ensures
        exprs::literal_value(l) matches Some(v) ==> (exprs::compared(name, op, v, s) matches Some(q)
            ==> {
            &&& !(q is Bool)
            &&& (shown(d, name) matches Some(x) && holds(x, op, l)) ==> meaning::finds(q, d, words)
            &&& is_plain(d) && meaning::finds(q, d, words) ==> (shown(d, name) matches Some(x)
                && holds(x, op, l))
        }),
{
    if let Some(v) = exprs::literal_value(l) {
        if let Some(q) = exprs::compared(name, op, v, s) {
            if name == "_id"@ {
                let t = v->Str_0;
                shown_keys(d, t);
                literals_compare_alike(FieldV::Str(rows::key_text(d.key)), l);
            } else {
                columns_are_fields(s, name);
                let all = meaning::values_of(d, name);
                if all.len() > 0 {
                    literals_compare_alike(all[0], l);
                }
            }
        }
    }
}

proof fn typed_lists(k: FieldKindV, list: Seq<SqlExpr>, n: nat, x: FieldV)
    requires
        n <= list.len(),
        exprs::typed_list(k, list, n) is Some,
    ensures
        ({
            let values = exprs::typed_list(k, list, n)->0;
            &&& values.len() == n
            &&& forall|i: int|
                0 <= i < n ==> (#[trigger] list[i] matches SqlExpr::Literal(l) && meaning::same(
                    x,
                    values[i],
                ) == equals(x, l))
        }),
    decreases n,
{
    if n > 0 {
        typed_lists(k, list, (n - 1) as nat, x);
        literals_compare_alike(x, list[n - 1]->Literal_0);
    }
}

proof fn listed_columns(
    name: Seq<char>,
    k: FieldKindV,
    list: Seq<SqlExpr>,
    d: DocV,
    words: spec_fn(QueryV, DocV) -> bool,
)
    requires
        name != "_id"@,
    ensures
        exprs::typed_list(k, list, list.len()) matches Some(values) ==> ({
            let q = QueryV::Terms { field: name, values };
            &&& (shown(d, name) matches Some(x) && among(x, list)) ==> meaning::finds(q, d, words)
            &&& is_plain(d) && meaning::finds(q, d, words) ==> (shown(d, name) matches Some(x)
                && among(x, list))
        }),
{
    if let Some(values) = exprs::typed_list(k, list, list.len()) {
        let q = QueryV::Terms { field: name, values };
        let all = meaning::values_of(d, name);
        if all.len() > 0 {
            let x = all[0];
            typed_lists(k, list, list.len(), x);
            if among(x, list) {
                let i = choose|i: int|
                    0 <= i < list.len() && (#[trigger] list[i] matches SqlExpr::Literal(l)
                        && equals(x, l));
                assert(meaning::same(all[0], values[i]));
                assert(meaning::has_value(d, name, values[i]));
            }
            if is_plain(d) && meaning::finds(q, d, words) {
                let i = choose|i: int|
                    0 <= i < values.len() && meaning::has_value(d, name, #[trigger] values[i]);
                assert(meaning::same(x, values[i]));
                assert(list[i] is Literal);
            }
        }
    }
}

/// No row is lost: a filter that is true of a document's row becomes a query
/// that the document matches; an exact one is known, and true of just the
/// documents that match. A document without several values of a field is
/// matched only where the filter is true.
pub proof fn true_filters_match(
    e: SqlExpr,
    s: SchemaV,
    d: DocV,
    words: spec_fn(QueryV, DocV) -> bool,
)
    requires
        no_id_field(s),
        key::is_key(d.key),
    ensures
        exprs::converted(e, s) matches Some((q, exact)) ==> {
            &&& row_truth(e, d) == Some(true) ==> meaning::finds(q, d, words)
            &&& exact ==> row_truth(e, d) == Some(meaning::finds(q, d, words))
            &&& is_plain(d) && meaning::finds(q, d, words) ==> row_truth(e, d) == Some(true)
        },
    decreases e,
{
    let part = |part: SqlExpr| part_truth(part, d);
    if let Some((q, exact)) = exprs::converted(e, s) {
        match e {
            SqlExpr::Binary { left, op, right } => {
                if op == SqlOp::And || op == SqlOp::Or {
                    true_filters_match(*left, s, d, words);
                    true_filters_match(*right, s, d, words);
                    let a = exprs::converted(*left, s)->Some_0.0;
                    let b = exprs::converted(*right, s)->Some_0.0;
                    assert(exprs::truth(*left, part) == row_truth(*left, d));
                    assert(exprs::truth(*right, part) == row_truth(*right, d));
                    two_parts(a, b, d, words);
                } else {
                    match (*left, *right) {
                        (SqlExpr::Column(name), SqlExpr::Literal(l)) => {
                            compared_columns(name@, op, l, s, d, words);
                        },
                        (SqlExpr::Literal(l), SqlExpr::Column(name)) => {
                            let other = exprs::swapped(op)->0;
                            compared_columns(name@, other, l, s, d, words);
                        },
                        _ => {},
                    }
                }
            },
            SqlExpr::Not(inner) => {
                true_filters_match(*inner, s, d, words);
                assert(exprs::truth(*inner, part) == row_truth(*inner, d));
                negated_part(exprs::converted(*inner, s)->Some_0.0, d, words);
            },
            SqlExpr::IsNotNull(inner) => {
                columns_are_fields(s, inner->Column_0@);
            },
            SqlExpr::IsNull(inner) => {
                columns_are_fields(s, inner->Column_0@);
            },
            SqlExpr::InList { expr, list, negated } => {
                let name = expr->Column_0@;
                columns_are_fields(s, name);
                let f = exprs::field_in(*expr, s)->0;
                listed_columns(name, f.kind, list@, d, words);
            },
            SqlExpr::Between { expr, low, high, negated } => {
                let name = expr->Column_0@;
                columns_are_fields(s, name);
                let all = meaning::values_of(d, name);
                if all.len() > 0 {
                    literals_compare_alike(all[0], low->Literal_0);
                    literals_compare_alike(all[0], high->Literal_0);
                }
            },
            _ => {},
        }
    }
}

proof fn two_parts(a: QueryV, b: QueryV, d: DocV, words: spec_fn(QueryV, DocV) -> bool)
    ensures
        meaning::finds(exprs::combined(seq![a, b], Seq::empty(), Seq::empty()), d, words) == (
        meaning::finds(a, d, words) && meaning::finds(b, d, words)),
        meaning::finds(exprs::combined(Seq::empty(), seq![a, b], Seq::empty()), d, words) == (
        meaning::finds(a, d, words) || meaning::finds(b, d, words)),
{
    let two = seq![a, b];
    assert(two[0] == a && two[1] == b);
    let all = exprs::combined(two, Seq::empty(), Seq::empty());
    let any = exprs::combined(Seq::empty(), two, Seq::empty());
    assert(all->Bool_must == two && any->should == two);
    if meaning::finds(all, d, words) {
        assert(meaning::finds(all->Bool_must[0], d, words));
        assert(meaning::finds(all->Bool_must[1], d, words));
    }
    if meaning::finds(any, d, words) {
        let i = choose|i: int| 0 <= i < 2 && meaning::finds(#[trigger] any->should[i], d, words);
        assert(two[i] == a || two[i] == b);
    }
    if meaning::finds(a, d, words) {
        assert(meaning::finds(any->should[0], d, words));
    }
    if meaning::finds(b, d, words) {
        assert(meaning::finds(any->should[1], d, words));
    }
}

proof fn negated_part(a: QueryV, d: DocV, words: spec_fn(QueryV, DocV) -> bool)
    ensures
        meaning::finds(
            exprs::combined(seq![QueryV::MatchAll], Seq::empty(), seq![a]),
            d,
            words,
        ) == !meaning::finds(a, d, words),
{
    let every = seq![QueryV::MatchAll];
    let never = seq![a];
    let q = exprs::combined(every, Seq::empty(), never);
    assert(every[0] == QueryV::MatchAll && never[0] == a);
    assert(q->Bool_must == every && q->must_not == never);
    if meaning::finds(q, d, words) {
        assert(!meaning::finds(q->must_not[0], d, words));
    }
    assert(meaning::finds(QueryV::MatchAll, d, words));
    assert forall|i: int| 0 <= i < 1 implies meaning::finds(
        #[trigger] q->Bool_must[i],
        d,
        words,
    ) by {}
}

/// A scan whose filters are all true of a document's row does not leave the
/// document out; one without several values of a field it keeps only where
/// all filters that became queries are true.
pub proof fn scans_keep_true_rows(
    filters: Seq<SqlExpr>,
    s: SchemaV,
    d: DocV,
    words: spec_fn(QueryV, DocV) -> bool,
)
    requires
        no_id_field(s),
        key::is_key(d.key),
    ensures
        ({
            let q = table_scan::all_of(table_scan::taken_queries(filters, s, filters.len()));
            &&& (forall|i: int|
                0 <= i < filters.len() ==> row_truth(#[trigger] filters[i], d) == Some(true))
                ==> meaning::passes(q, d, words)
            &&& is_plain(d) && meaning::passes(q, d, words) ==> forall|i: int|
                0 <= i < filters.len() && exprs::converted(filters[i], s) is Some ==> row_truth(
                    #[trigger] filters[i],
                    d,
                ) == Some(true)
        }),
{
    let queries = table_scan::taken_queries(filters, s, filters.len());
    taken_match(filters, s, filters.len(), d, words);
    meaning::conjunctions_match(Seq::empty(), queries, d, words);
    let q = table_scan::all_of(queries);
    if meaning::passes(q, d, words) {
        assert forall|i: int| 0 <= i < queries.len() implies meaning::finds(
            #[trigger] queries[i],
            d,
            words,
        ) by {}
    }
}

proof fn taken_match(
    filters: Seq<SqlExpr>,
    s: SchemaV,
    n: nat,
    d: DocV,
    words: spec_fn(QueryV, DocV) -> bool,
)
    requires
        n <= filters.len(),
        no_id_field(s),
        key::is_key(d.key),
    ensures
        ({
            let queries = table_scan::taken_queries(filters, s, n);
            &&& (forall|i: int|
                0 <= i < n ==> row_truth(#[trigger] filters[i], d) == Some(true)) ==> forall|i: int|
                0 <= i < queries.len() ==> meaning::finds(#[trigger] queries[i], d, words)
            &&& is_plain(d) && (forall|i: int|
                0 <= i < queries.len() ==> meaning::finds(#[trigger] queries[i], d, words))
                ==> forall|i: int|
                0 <= i < n && exprs::converted(filters[i], s) is Some ==> row_truth(
                    #[trigger] filters[i],
                    d,
                ) == Some(true)
        }),
    decreases n,
{
    if n > 0 {
        let m = (n - 1) as nat;
        taken_match(filters, s, m, d, words);
        true_filters_match(filters[m as int], s, d, words);
        let before = table_scan::taken_queries(filters, s, m);
        let queries = table_scan::taken_queries(filters, s, n);
        if is_plain(d) && (forall|i: int|
            0 <= i < queries.len() ==> meaning::finds(#[trigger] queries[i], d, words)) {
            assert forall|i: int| 0 <= i < before.len() implies meaning::finds(
                #[trigger] before[i],
                d,
                words,
            ) by {
                assert(queries[i] == before[i]);
            }
            if exprs::converted(filters[m as int], s) is Some {
                assert(queries[before.len() as int] == exprs::converted(
                    filters[m as int],
                    s,
                )->Some_0.0);
            }
        }
    }
}

/// Whether a literal is of a field's type: a finite number for a number, a
/// whole microsecond that 64 bits hold for a date, the text of a UUID for a
/// UUID.
pub open spec fn is_of_type(l: SqlLiteral, k: FieldKindV) -> bool {
    match k {
        FieldKindV::Keyword => l is Text,
        FieldKindV::Uuid => l matches SqlLiteral::Text(t) && pk::uuid_of(t@) is Some,
        FieldKindV::I64 => whole(l) is Some,
        FieldKindV::F64 => match l {
            SqlLiteral::F32(b) => exprs::finite32(b),
            SqlLiteral::F64(b) => exprs::finite64(b),
            _ => whole(l) is Some,
        },
        FieldKindV::Bool => l is Bool,
        FieldKindV::Date => moment(l) matches Some(ns) && ns % 1_000 == 0 && i64::MIN <= ns / 1_000
            <= i64::MAX,
        _ => false,
    }
}

/// Whether a comparison of a column with a literal can be asked of the index:
/// a key with a text for equality; a keyword, a number, a truth value, a
/// date or a UUID with a literal of its type, in the order of all but truth
/// values and UUIDs.
pub open spec fn can_compare(name: Seq<char>, op: SqlOp, l: SqlLiteral, s: SchemaV) -> bool {
    if name == "_id"@ {
        op == SqlOp::Eq && l is Text
    } else {
        exprs::field_named(s.fields, name, 0) matches Some(f) && is_of_type(l, f.kind) && (op
            == SqlOp::Eq || f.kind is Keyword || f.kind is I64 || f.kind is F64 || f.kind is Date)
    }
}

/// Just the comparisons that can be asked of the index become queries, with
/// the column on either side.
pub proof fn comparisons_convert(name: String, op: SqlOp, l: SqlLiteral, s: SchemaV)
    ensures
        exprs::compares(op) ==> ((exprs::converted(
            SqlExpr::Binary {
                left: Box::new(SqlExpr::Column(name)),
                op,
                right: Box::new(SqlExpr::Literal(l)),
            },
            s,
        ) is Some) == can_compare(name@, op, l, s)),
        exprs::compares(op) ==> ((exprs::converted(
            SqlExpr::Binary {
                left: Box::new(SqlExpr::Literal(l)),
                op,
                right: Box::new(SqlExpr::Column(name)),
            },
            s,
        ) is Some) == can_compare(name@, op, l, s)),
{
    if exprs::compares(op) {
        let a = SqlExpr::Binary {
            left: Box::new(SqlExpr::Column(name)),
            op,
            right: Box::new(SqlExpr::Literal(l)),
        };
        let b = SqlExpr::Binary {
            left: Box::new(SqlExpr::Literal(l)),
            op,
            right: Box::new(SqlExpr::Column(name)),
        };
        assert((exprs::converted(a, s) is Some) == (exprs::comparison_in(
            SqlExpr::Column(name),
            op,
            SqlExpr::Literal(l),
            s,
        ) is Some));
        assert((exprs::converted(b, s) is Some) == (exprs::comparison_in(
            SqlExpr::Literal(l),
            op,
            SqlExpr::Column(name),
            s,
        ) is Some));
        match l {
            SqlLiteral::Seconds(n) => {
                assert((n * 1_000_000_000) / 1_000 == n * 1_000_000);
                assert((n * 1_000_000_000) % 1_000 == 0);
            },
            SqlLiteral::Millis(n) => {
                assert((n * 1_000_000) / 1_000 == n * 1_000);
                assert((n * 1_000_000) % 1_000 == 0);
            },
            SqlLiteral::Micros(n) => {
                assert((n * 1_000) / 1_000 == n);
                assert((n * 1_000) % 1_000 == 0);
            },
            _ => {},
        }
    }
}

} // verus!
