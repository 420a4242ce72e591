//! Values of record batches as plain data, and their JSON forms.

use crate::civil;
use crate::json::value;
use crate::json::value::{Json, Num, Number, Tree};
use base64::Engine;
use vstd::prelude::*;
use vstd::string::*;

verus! {

/// The unit of a timestamp.
#[derive(Clone, Copy, Debug, PartialEq, Eq, Structural)]
pub enum TimeUnit {
    Second,
    Millisecond,
    Microsecond,
    Nanosecond,
}

/// A cell of a column. A finite float is its double's bits and its JSON
/// text; `shown` is the display text of a value, when it has one.
pub enum Cell {
    Null,
    Bool(bool),
    Signed(i64),
    Unsigned(u64),
    Float { bits: u64, text: String },
    NonFinite,
    Text(String),
    Bytes(Vec<u8>),
    Date32 { days: i32, shown: Option<String> },
    Date64 { millis: i64, shown: Option<String> },
    Timestamp { value: i64, unit: TimeUnit, shown: Option<String> },
    List(Vec<Cell>),
    Struct(Vec<(String, Cell)>),
    Entries(Vec<(Cell, Cell)>),
    /// A value of any other type.
    Shown(Option<String>),
}

/// A digit of standard base64.
pub open spec fn base64_digit(n: int) -> char {
    if n < 26 {
        ('A' as int + n) as char
    } else if n < 52 {
        ('a' as int + n - 26) as char
    } else if n < 62 {
        ('0' as int + n - 52) as char
    } else if n == 62 {
        '+'
    } else {
        '/'
    }
}

/// Up to three bytes as four base64 digits; a missing byte gives padding.
pub open spec fn base64_group(a: u8, b: Option<u8>, c: Option<u8>) -> Seq<char> {
    let y = if b is Some {
        b->0 as int
    } else {
        0
    };
    let z = if c is Some {
        c->0 as int
    } else {
        0
    };
    seq![
        base64_digit(a as int / 4),
        base64_digit(a as int % 4 * 16 + y / 16),
        if b is Some {
            base64_digit(y % 16 * 4 + z / 64)
        } else {
            '='
        },
        if c is Some {
            base64_digit(z % 64)
        } else {
            '='
        },
    ]
}

/// Bytes in padded standard base64.
pub open spec fn base64_text(bytes: Seq<u8>) -> Seq<char>
    decreases bytes.len(),
{
    if bytes.len() == 0 {
        Seq::empty()
    } else if bytes.len() == 1 {
        base64_group(bytes[0], None, None)
    } else if bytes.len() == 2 {
        base64_group(bytes[0], Some(bytes[1]), None)
    } else {
        base64_group(bytes[0], Some(bytes[1]), Some(bytes[2])) + base64_text(bytes.skip(3))
    }
}

/// `base64::engine::general_purpose::STANDARD.encode`: the padded standard
/// base64 text of bytes.
#[verifier::external_body]
pub(crate) fn base64_of(bytes: &[u8]) -> (r: String)
    ensures
        r@ == base64_text(bytes@),
{
    base64::engine::general_purpose::STANDARD.encode(bytes)
}

/// A display text as JSON.
pub open spec fn shown_json(s: Option<String>) -> Tree {
    match s {
        Some(s) => Tree::Text(s@),
        None => Tree::Null,
    }
}

/// How many of a unit make a second.
pub open spec fn per_second(unit: TimeUnit) -> int {
    match unit {
        TimeUnit::Second => 1,
        TimeUnit::Millisecond => 1_000,
        TimeUnit::Microsecond => 1_000_000,
        TimeUnit::Nanosecond => 1_000_000_000,
    }
}

/// The digits of a second's fraction in a unit.
pub open spec fn fraction_digits(unit: TimeUnit) -> nat {
    match unit {
        TimeUnit::Second => 0,
        TimeUnit::Millisecond => 3,
        TimeUnit::Microsecond => 6,
        TimeUnit::Nanosecond => 9,
    }
}

/// The JSON of a day: its date, or the display text outside the calendar.
pub open spec fn day_tree(days: int, shown: Option<String>) -> Tree {
    if civil::covered(days) {
        Tree::Text(civil::day_text_at(days))
    } else {
        shown_json(shown)
    }
}

/// The JSON of a timestamp: RFC 3339 in UTC at the unit's precision, or the
/// display text outside the calendar.
pub open spec fn time_tree(v: int, unit: TimeUnit, shown: Option<String>) -> Tree {
    let seconds = v / per_second(unit);
    if civil::covered(seconds / 86_400) {
        Tree::Text(
            civil::time_text(
                civil::moment_at(seconds),
                (v % per_second(unit)) as nat,
                fraction_digits(unit),
            ),
        )
    } else {
        shown_json(shown)
    }
}

/// A signed number as JSON.
pub open spec fn signed_json(n: i64) -> Tree {
    if n < 0 {
        Tree::Number(Num::Negative(n))
    } else {
        Tree::Number(Num::Unsigned(n as u64))
    }
}

/// The JSON of a cell: nulls and non-finite floats are null, bytes base64,
/// and maps lists of their entries.
pub open spec fn cell_json(c: Cell) -> Tree
    decreases c,
{
    match c {
        Cell::Null => Tree::Null,
        Cell::Bool(b) => Tree::Bool(b),
        Cell::Signed(n) => signed_json(n),
        Cell::Unsigned(n) => Tree::Number(Num::Unsigned(n)),
        Cell::Float { bits, text } => Tree::Number(Num::Float { bits, text: text@ }),
        Cell::NonFinite => Tree::Null,
        Cell::Text(s) => Tree::Text(s@),
        Cell::Bytes(b) => Tree::Text(base64_text(b@)),
        Cell::Date32 { days, shown } => day_tree(days as int, shown),
        Cell::Date64 { millis, shown } => day_tree(millis as int / 86_400_000, shown),
        Cell::Timestamp { value, unit, shown } => time_tree(value as int, unit, shown),
        Cell::List(items) => Tree::Array(
            Seq::new(
                items@.len(),
                |i: int|
                    if 0 <= i < items@.len() {
                        cell_json(items@[i])
                    } else {
                        Tree::Null
                    },
            ),
        ),
        Cell::Struct(fields) => Tree::Object(
            Seq::new(
                fields@.len(),
                |i: int|
                    if 0 <= i < fields@.len() {
                        (fields@[i].0@, cell_json(fields@[i].1))
                    } else {
                        (Seq::empty(), Tree::Null)
                    },
            ),
        ),
        Cell::Entries(entries) => Tree::Array(
            Seq::new(
                entries@.len(),
                |i: int|
                    if 0 <= i < entries@.len() {
                        entry_json(cell_json(entries@[i].0), cell_json(entries@[i].1))
                    } else {
                        Tree::Null
                    },
            ),
        ),
        Cell::Shown(s) => shown_json(s),
    }
}

/// An entry of a map: an object of its key and its value.
pub open spec fn entry_json(k: Tree, v: Tree) -> Tree {
    Tree::Object(seq![("key"@, k), ("value"@, v)])
}

fn show(s: &Option<String>) -> (r: Json)
    ensures
        r@ == shown_json(*s),
{
    match s {
        Some(s) => Json::Text(s.clone()),
        None => Json::Null,
    }
}

fn day_json(days: i64, shown: &Option<String>) -> (r: Json)
    ensures
        r@ == day_tree(days as int, *shown),
{
    match civil::day_of(days) {
        Some(s) => Json::Text(s),
        None => show(shown),
    }
}

/// The quotient and the remainder of a division towards the past.
pub fn floor_div(v: i64, by: i64) -> (r: (i64, i64))
    requires
        by > 0,
    ensures
        r.0 == v as int / by as int,
        r.1 == v as int % by as int,
{
    let w: i128 = v as i128;
    let b: i128 = by as i128;
    if w >= 0 {
        ((w / b) as i64, (w % b) as i64)
    } else {
        let up: i128 = -(w + 1);
        let k: i128 = up / b;
        let q: i128 = -k - 1;
        let m: i128 = b - 1 - up % b;
        proof {
            vstd::arithmetic::div_mod::lemma_fundamental_div_mod(up as int, b as int);
            vstd::arithmetic::div_mod::lemma_mod_bound(up as int, b as int);
            vstd::arithmetic::div_mod::lemma_div_is_ordered_by_denominator(
                up as int,
                1,
                b as int,
            );
            assert(w as int == q as int * b as int + m as int) by (nonlinear_arith)
                requires
                    up as int == b as int * k as int + up as int % b as int,
                    up == -(w + 1),
                    q == -k - 1,
                    m as int == b as int - 1 - up as int % b as int,
            ;
            vstd::arithmetic::div_mod::lemma_fundamental_div_mod_converse(
                w as int,
                b as int,
                q as int,
                m as int,
            );
        }
        (q as i64, m as i64)
    }
}

fn unit_size(unit: TimeUnit) -> (r: (i64, usize))
    ensures
        r.0 == per_second(unit),
        r.1 == fraction_digits(unit),
{
    match unit {
        TimeUnit::Second => (1, 0),
        TimeUnit::Millisecond => (1_000, 3),
        TimeUnit::Microsecond => (1_000_000, 6),
        TimeUnit::Nanosecond => (1_000_000_000, 9),
    }
}

fn time_json(v: i64, unit: TimeUnit, shown: &Option<String>) -> (r: Json)
    ensures
        r@ == time_tree(v as int, unit, *shown),
{
    let (size, digits) = unit_size(unit);
    let (seconds, fraction) = floor_div(v, size);
    match civil::moment_with_fraction(seconds, fraction as u64, digits) {
        Some(s) => Json::Text(s),
        None => show(shown),
    }
}

/// A cell as JSON.
pub fn value_to_json(c: &Cell) -> (r: Json)
    ensures
        r@ == cell_json(*c),
    decreases c,
{
    broadcast use {value::view_object, value::view_array};

    match c {
        Cell::Null => Json::Null,
        Cell::Bool(b) => Json::Bool(*b),
        Cell::Signed(n) => if *n < 0 {
            Json::Number(Number::Negative(*n))
        } else {
            Json::Number(Number::Unsigned(*n as u64))
        },
        Cell::Unsigned(n) => Json::Number(Number::Unsigned(*n)),
        Cell::Float { bits, text } => Json::Number(
            Number::Float { bits: *bits, text: text.clone() },
        ),
        Cell::NonFinite => Json::Null,
        Cell::Text(s) => Json::Text(s.clone()),
        Cell::Bytes(b) => Json::Text(base64_of(b.as_slice())),
        Cell::Date32 { days, shown } => day_json(*days as i64, shown),
        Cell::Date64 { millis, shown } => {
            let (days, _) = floor_div(*millis, 86_400_000);
            day_json(days, shown)
        },
        Cell::Timestamp { value, unit, shown } => time_json(*value, *unit, shown),
        Cell::List(items) => {
            let mut out: Vec<Json> = Vec::new();
            let mut i: usize = 0;
            while i < items.len()
                invariant
                    i <= items@.len(),
                    out@.len() == i,
                    forall|j: int| 0 <= j < i ==> (#[trigger] out@[j])@ == cell_json(items@[j]),
                    *c == Cell::List(*items),
                decreases items.len() - i,
            {
                assert(decreases_to!(*c => c->List_0));
                assert(decreases_to!(*items => items@));
                assert(decreases_to!(items@ => items@[i as int]));
                out.push(value_to_json(&items[i]));
                i += 1;
            }
            proof {
                assert(value::items_of(out@) =~= cell_json(*c)->Array_0);
            }
            Json::Array(out)
        },
        Cell::Struct(fields) => {
            let mut out: Vec<(String, Json)> = Vec::new();
            let mut i: usize = 0;
            while i < fields.len()
                invariant
                    i <= fields@.len(),
                    out@.len() == i,
                    forall|j: int|
                        0 <= j < i ==> (#[trigger] out@[j]).0@ == fields@[j].0@ && out@[j].1@
                            == cell_json(fields@[j].1),
                    *c == Cell::Struct(*fields),
                decreases fields.len() - i,
            {
                assert(decreases_to!(*c => c->Struct_0));
                assert(decreases_to!(*fields => fields@));
                assert(decreases_to!(fields@ => fields@[i as int]));
                assert(decreases_to!(fields@[i as int] => fields@[i as int].1));
                let v = value_to_json(&fields[i].1);
                out.push((fields[i].0.clone(), v));
                i += 1;
            }
            proof {
                assert(value::entries_of(out@) =~= cell_json(*c)->Object_0);
            }
            Json::Object(out)
        },
        Cell::Entries(entries) => {
            let mut out: Vec<Json> = Vec::new();
            let mut i: usize = 0;
            while i < entries.len()
                invariant
                    i <= entries@.len(),
                    out@.len() == i,
                    forall|j: int|
                        0 <= j < i ==> (#[trigger] out@[j])@ == entry_json(
                            cell_json(entries@[j].0),
                            cell_json(entries@[j].1),
                        ),
                    *c == Cell::Entries(*entries),
                decreases entries.len() - i,
            {
                assert(decreases_to!(*c => c->Entries_0));
                assert(decreases_to!(*entries => entries@));
                assert(decreases_to!(entries@ => entries@[i as int]));
                assert(decreases_to!(entries@[i as int] => entries@[i as int].0));
                assert(decreases_to!(entries@[i as int] => entries@[i as int].1));
                let k = value_to_json(&entries[i].0);
                let v = value_to_json(&entries[i].1);
                let ghost kt = k@;
                let ghost vt = v@;
                let mut pair: Vec<(String, Json)> = Vec::new();
                pair.push(("key".to_owned(), k));
                pair.push(("value".to_owned(), v));
                proof {
                    assert(value::entries_of(pair@) =~= seq![("key"@, kt), ("value"@, vt)]);
                }
                let ghost made = pair;
                let entry = Json::Object(pair);
                proof {
                    value::view_object(made);
                    assert(entry@ == entry_json(kt, vt));
                }
                out.push(entry);
                i += 1;
            }
            proof {
                assert(value::items_of(out@) =~= cell_json(*c)->Array_0);
            }
            Json::Array(out)
        },
        Cell::Shown(s) => show(s),
    }
}

/// Whether a cell holds a non-finite float anywhere inside it.
pub open spec fn holds_non_finite(c: Cell) -> bool
    decreases c,
{
    match c {
        Cell::NonFinite => true,
        Cell::List(items) => exists|i: int|
            0 <= i < items@.len() && holds_non_finite(#[trigger] items@[i]),
        Cell::Struct(fields) => exists|i: int|
            0 <= i < fields@.len() && holds_non_finite((#[trigger] fields@[i]).1),
        Cell::Entries(entries) => exists|i: int|
            0 <= i < entries@.len() && (holds_non_finite((#[trigger] entries@[i]).0)
                || holds_non_finite(entries@[i].1)),
        _ => false,
    }
}

/// Whether a cell holds a non-finite float anywhere inside it.
pub fn non_finite(c: &Cell) -> (r: bool)
    ensures
        r == holds_non_finite(*c),
    decreases c,
{
    match c {
        Cell::NonFinite => true,
        Cell::List(items) => {
            let mut i: usize = 0;
            while i < items.len()
                invariant
                    i <= items@.len(),
                    forall|j: int| 0 <= j < i ==> !holds_non_finite(#[trigger] items@[j]),
                    *c == Cell::List(*items),
                decreases items.len() - i,
            {
                assert(decreases_to!(*c => c->List_0));
                assert(decreases_to!(*items => items@));
                assert(decreases_to!(items@ => items@[i as int]));
                if non_finite(&items[i]) {
                    return true;
                }
                i += 1;
            }
            false
        },
        Cell::Struct(fields) => {
            let mut i: usize = 0;
            while i < fields.len()
                invariant
                    i <= fields@.len(),
                    forall|j: int| 0 <= j < i ==> !holds_non_finite((#[trigger] fields@[j]).1),
                    *c == Cell::Struct(*fields),
                decreases fields.len() - i,
            {
                assert(decreases_to!(*c => c->Struct_0));
                assert(decreases_to!(*fields => fields@));
                assert(decreases_to!(fields@ => fields@[i as int]));
                assert(decreases_to!(fields@[i as int] => fields@[i as int].1));
                if non_finite(&fields[i].1) {
                    return true;
                }
                i += 1;
            }
            false
        },
        Cell::Entries(entries) => {
            let mut i: usize = 0;
            while i < entries.len()
                invariant
                    i <= entries@.len(),
                    forall|j: int|
                        0 <= j < i ==> !holds_non_finite((#[trigger] entries@[j]).0)
                            && !holds_non_finite(entries@[j].1),
                    *c == Cell::Entries(*entries),
                decreases entries.len() - i,
            {
                assert(decreases_to!(*c => c->Entries_0));
                assert(decreases_to!(*entries => entries@));
                assert(decreases_to!(entries@ => entries@[i as int]));
                assert(decreases_to!(entries@[i as int] => entries@[i as int].0));
                assert(decreases_to!(entries@[i as int] => entries@[i as int].1));
                if non_finite(&entries[i].0) || non_finite(&entries[i].1) {
                    return true;
                }
                i += 1;
            }
            false
        },
        _ => false,
    }
}

/// A timestamp in milliseconds: seconds saturate, finer units are cut.
pub open spec fn millis_of(v: int, unit: TimeUnit) -> int {
    match unit {
        TimeUnit::Second => crate::math::cut_i64(v * 1_000) as int,
        TimeUnit::Millisecond => v,
        TimeUnit::Microsecond => cut_div(v, 1_000),
        TimeUnit::Nanosecond => cut_div(v, 1_000_000),
    }
}

/// The quotient towards zero.
pub open spec fn cut_div(v: int, by: int) -> int {
    if v >= 0 {
        v / by
    } else {
        -((-v) / by)
    }
}

fn div_towards_zero(v: i64, by: i64) -> (r: i64)
    requires
        by == 1_000 || by == 1_000_000,
    ensures
        r == cut_div(v as int, by as int),
{
    let w: i128 = v as i128;
    if w >= 0 {
        (w / by as i128) as i64
    } else {
        (-((-w) / by as i128)) as i64
    }
}

/// A timestamp in milliseconds.
pub fn timestamp_ms(v: i64, unit: TimeUnit) -> (r: i64)
    ensures
        r == millis_of(v as int, unit),
{
    match unit {
        TimeUnit::Second => crate::math::sat_thousand(v),
        TimeUnit::Millisecond => v,
        TimeUnit::Microsecond => div_towards_zero(v, 1_000),
        TimeUnit::Nanosecond => div_towards_zero(v, 1_000_000),
    }
}

} // verus!
