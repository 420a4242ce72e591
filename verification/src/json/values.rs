//! The JSON forms of field values, sort values, fuzziness and source
//! filters, and RFC 3339 dates in microseconds.

use crate::cells;
use crate::civil;
use crate::ir::{SourceFilter, SourceFilterV};
use crate::json::pk;
use crate::json::value;
use crate::json::value::{Json, Num, Number, Tree};
use crate::query::Fuzziness;
use crate::text;
use crate::values;
use crate::values::{FieldV, FieldValue, SortV, SortValue};
use vstd::prelude::*;
use vstd::string::*;

verus! {

broadcast use {crate::json::value::view_object, crate::json::value::view_array};

/// Whether a moment in microseconds lies in the years 0 to 9999.
pub open spec fn dated(micros: int) -> bool {
    civil::covered(micros / 1_000_000 / 86_400) && civil::moment_at(micros / 1_000_000).year >= 0
}

/// `YYYY-MM-DDTHH:MM:SS.ffffffZ` of a moment in microseconds.
pub open spec fn date_text(micros: int) -> Seq<char> {
    civil::time_text(civil::moment_at(micros / 1_000_000), (micros % 1_000_000) as nat, 6)
}

/// `YYYY-MM-DDTHH:MM:SS.ffffffZ` of microseconds since the epoch; none
/// outside the years 0000 to 9999.
pub fn format_date(micros: i64) -> (r: Option<String>)
    ensures
        match r {
            Some(s) => dated(micros as int) && s@ == date_text(micros as int),
            None => !dated(micros as int),
        },
{
    let (seconds, fraction) = cells::floor_div(micros, 1_000_000);
    match civil::moment_of(seconds) {
        None => None,
        Some(c) => {
            proof {
                civil::moment_at_is(c, seconds as int);
            }
            if c.year < 0 {
                None
            } else {
                civil::moment_with_fraction(seconds, fraction as u64, 6)
            }
        },
    }
}

/// The nanoseconds since the epoch of an RFC 3339 date-time.
pub uninterp spec fn rfc3339_nanos(s: Seq<char>) -> Option<int>;

/// `time::OffsetDateTime::parse` of the RFC 3339 format and
/// `unix_timestamp_nanos`: the moment that the text names, in nanoseconds
/// since the epoch, if it is such a text. A text of the years 0 to 9999 with
/// six digits of a second names its moment.
#[verifier::external_body]
fn rfc3339(s: &str) -> (r: Option<i128>)
    ensures
        match r {
            Some(n) => rfc3339_nanos(s@) == Some(n as int),
            None => rfc3339_nanos(s@) is None,
        },
        forall|micros: i64|
            dated(micros as int) && s@ == #[trigger] date_text(micros as int) ==> r == Some(
                (micros * 1_000) as i128,
            ),
{
    match time::OffsetDateTime::parse(s, &time::format_description::well_known::Rfc3339) {
        Ok(at) => Some(at.unix_timestamp_nanos()),
        Err(_) => None,
    }
}

/// Nanoseconds as microseconds, cut towards the past, if they fit.
pub open spec fn micros_of(nanos: int) -> Option<i64> {
    let m = nanos / 1_000;
    if i64::MIN <= m <= i64::MAX {
        Some(m as i64)
    } else {
        None
    }
}

/// Nanoseconds as microseconds, cut towards the past, if they fit.
pub fn nanos_to_micros(nanos: i128) -> (r: Option<i64>)
    ensures
        r == micros_of(nanos as int),
{
    let m: i128 = if nanos >= 0 {
        nanos / 1_000
    } else {
        let up: i128 = -(nanos + 1);
        -(up / 1_000) - 1
    };
    proof {
        if nanos < 0 {
            let up = -(nanos + 1);
            assert(nanos as int / 1_000 == -(up as int / 1_000) - 1);
        }
    }
    if m < i64::MIN as i128 || m > i64::MAX as i128 {
        None
    } else {
        Some(m as i64)
    }
}

/// The microseconds since the epoch that an RFC 3339 date-time names.
pub open spec fn date_in(s: Seq<char>) -> Option<i64> {
    match rfc3339_nanos(s) {
        Some(n) => micros_of(n),
        None => None,
    }
}

/// Microseconds since the epoch of an RFC 3339 date-time; finer digits are
/// cut towards the past. The text of a date gives the date back.
pub fn parse_date(s: &str) -> (r: Option<i64>)
    ensures
        r == date_in(s@),
        forall|micros: i64|
            dated(micros as int) && s@ == #[trigger] date_text(micros as int) ==> r == Some(micros),
{
    match rfc3339(s) {
        Some(n) => nanos_to_micros(n),
        None => None,
    }
}

/// What serde calls a value of the wrong type.
pub open spec fn kind_of(t: Tree) -> Seq<char> {
    match t {
        Tree::Null => "null"@,
        Tree::Bool(b) => if b {
            "boolean `true`"@
        } else {
            "boolean `false`"@
        },
        Tree::Number(n) => match n {
            Num::Float { text, .. } => "floating point `"@ + text + "`"@,
            _ => "integer `"@ + value::number_text(n) + "`"@,
        },
        Tree::Text(s) => "string "@ + text::debug_text(s),
        Tree::Array(_) => "sequence"@,
        Tree::Object(_) => "map"@,
    }
}

/// The message of a value of the wrong type.
pub open spec fn wrong_type(t: Tree, expected: Seq<char>) -> Seq<char> {
    "invalid type: "@ + kind_of(t) + ", expected "@ + expected
}

fn wrong(v: &Json, expected: &str) -> (r: String)
    ensures
        r@ == wrong_type(v@, expected@),
{
    let mut m = "invalid type: ".to_owned();
    match v {
        Json::Null => {
            m.append("null");
        },
        Json::Bool(b) => if *b {
            m.append("boolean `true`");
        } else {
            m.append("boolean `false`");
        },
        Json::Number(n) => {
            let shown = n.text();
            match n {
                Number::Float { .. } => {
                    m.append(&text::cat3("floating point `", &shown, "`"));
                },
                _ => {
                    m.append(&text::cat3("integer `", &shown, "`"));
                },
            }
        },
        Json::Text(s) => {
            m.append(&text::cat2("string ", &text::debug_of(s)));
        },
        Json::Array(_) => {
            m.append("sequence");
        },
        Json::Object(_) => {
            m.append("map");
        },
    }
    m.append(", expected ");
    m.append(expected);
    m
}

/// The text of an object of one key and a string.
pub open spec fn single_text(es: Seq<(Seq<char>, Tree)>, key: Seq<char>) -> Result<
    Seq<char>,
    Seq<char>,
> {
    if es.len() == 0 {
        Err("expected {\""@ + key + "\": \u{2026}}"@)
    } else if es[0].0 != key {
        Err(
            "unexpected key "@ + text::debug_text(es[0].0) + ", expected "@ + text::debug_text(
                key,
            ),
        )
    } else {
        match es[0].1 {
            Tree::Text(s) => if es.len() > 1 {
                Err("unexpected key "@ + text::debug_text(es[1].0))
            } else {
                Ok(s)
            },
            other => Err(wrong_type(other, "a string"@)),
        }
    }
}

fn single_string(es: &Vec<(String, Json)>, key: &str) -> (r: Result<String, String>)
    ensures
        match r {
            Ok(s) => single_text(value::entries_of(es@), key@) == Ok::<Seq<char>, Seq<char>>(s@),
            Err(m) => single_text(value::entries_of(es@), key@) == Err::<Seq<char>, Seq<char>>(m@),
        },
{
    let ghost ev = value::entries_of(es@);
    if es.len() == 0 {
        return Err(text::cat3("expected {\"", key, "\": \u{2026}}"));
    }
    assert(ev[0] == (es@[0].0@, es@[0].1@));
    if !text::same(&es[0].0, key) {
        let mut m = text::cat3("unexpected key ", &text::debug_of(&es[0].0), ", expected ");
        m.append(&text::debug_of(key));
        return Err(m);
    }
    match &es[0].1 {
        Json::Text(s) => if es.len() > 1 {
            assert(ev[1] == (es@[1].0@, es@[1].1@));
            Err(text::cat2("unexpected key ", &text::debug_of(&es[1].0)))
        } else {
            Ok(s.clone())
        },
        other => Err(wrong(other, "a string")),
    }
}

/// A float as JSON: its number, or null where it has no text.
pub open spec fn float_json(bits: u64, shown: Option<Seq<char>>) -> Tree {
    match shown {
        Some(text) => Tree::Number(Num::Float { bits, text }),
        None => Tree::Null,
    }
}

/// A signed integer as JSON.
pub open spec fn int_json(n: i64) -> Tree {
    if n < 0 {
        Tree::Number(Num::Negative(n))
    } else {
        Tree::Number(Num::Unsigned(n as u64))
    }
}

fn int_to_json(n: i64) -> (r: Json)
    ensures
        r@ == int_json(n),
{
    if n < 0 {
        Json::Number(Number::Negative(n))
    } else {
        Json::Number(Number::Unsigned(n as u64))
    }
}

fn float_to_json(bits: u64, shown: Option<String>) -> (r: Json)
    ensures
        r@ == float_json(bits, text::opt_text(shown)),
{
    match shown {
        Some(text) => Json::Number(Number::Float { bits, text }),
        None => Json::Null,
    }
}

fn one_entry(key: &str, v: String) -> (r: Json)
    ensures
        r@ == Tree::Object(seq![(key@, Tree::Text(v@))]),
{
    let mut es: Vec<(String, Json)> = Vec::new();
    es.push((key.to_owned(), Json::Text(v)));
    let ghost made = es;
    let r = Json::Object(es);
    proof {
        value::view_object(made);
        assert(value::entries_of(made@) =~= seq![(key@, Tree::Text(v@))]);
    }
    r
}

/// A field value as JSON, given the text of its float if it is a finite one.
/// Dates are `{"date": ..}`; one outside the years 0 to 9999 has no form.
pub open spec fn field_json(v: FieldV, shown: Option<Seq<char>>) -> Option<Tree> {
    match v {
        FieldV::Str(s) => Some(Tree::Text(s)),
        FieldV::I64(n) => Some(int_json(n)),
        FieldV::U64(n) => Some(Tree::Number(Num::Unsigned(n))),
        FieldV::F64(bits) => Some(float_json(bits, shown)),
        FieldV::Bool(b) => Some(Tree::Bool(b)),
        FieldV::Date(micros) => if dated(micros as int) {
            Some(Tree::Object(seq![("date"@, Tree::Text(date_text(micros as int)))]))
        } else {
            None
        },
    }
}

/// A field value as JSON.
pub fn field_to_json(v: &FieldValue, shown: Option<String>) -> (r: Result<Json, String>)
    ensures
        match r {
            Ok(j) => field_json(v@, text::opt_text(shown)) == Some(j@),
            Err(m) => field_json(v@, text::opt_text(shown)) is None && (v@ matches FieldV::Date(
                n,
            ) && m@ == "date "@ + text::decimal_int(n as int) + " \u{b5}s is out of range"@),
        },
{
    match v {
        FieldValue::Str(s) => Ok(Json::Text(s.clone())),
        FieldValue::I64(n) => Ok(int_to_json(*n)),
        FieldValue::U64(n) => Ok(Json::Number(Number::Unsigned(*n))),
        FieldValue::F64(bits) => Ok(float_to_json(*bits, shown)),
        FieldValue::Bool(b) => Ok(Json::Bool(*b)),
        FieldValue::Date(micros) => match format_date(*micros) {
            Some(s) => Ok(one_entry("date", s)),
            None => Err(text::cat3("date ", &text::dec_i64(*micros), " \u{b5}s is out of range")),
        },
    }
}

/// What a field value's JSON may be.
pub open spec fn field_forms() -> Seq<char> {
    "a string, bool, number or {\"date\": \"<RFC 3339>\"}"@
}

/// A number as a field value: a signed integer where it is one.
pub open spec fn number_field(n: Num) -> FieldV {
    match n {
        Num::Unsigned(u) => if u <= i64::MAX {
            FieldV::I64(u as i64)
        } else {
            FieldV::U64(u)
        },
        Num::Negative(i) => FieldV::I64(i),
        Num::Float { bits, .. } => FieldV::F64(bits),
    }
}

/// The field value of a JSON value.
pub open spec fn field_in(t: Tree) -> Result<FieldV, Seq<char>> {
    match t {
        Tree::Bool(b) => Ok(FieldV::Bool(b)),
        Tree::Number(n) => Ok(number_field(n)),
        Tree::Text(s) => Ok(FieldV::Str(s)),
        Tree::Object(es) => match single_text(es, "date"@) {
            Err(m) => Err(m),
            Ok(s) => match date_in(s) {
                Some(micros) => Ok(FieldV::Date(micros)),
                None => Err("invalid RFC 3339 date "@ + text::debug_text(s)),
            },
        },
        _ => Err(wrong_type(t, field_forms())),
    }
}

/// A number as a field value.
pub fn field_of_number(n: &Number) -> (r: FieldValue)
    ensures
        r@ == number_field(n@),
{
    match n {
        Number::Unsigned(u) => if *u <= i64::MAX as u64 {
            FieldValue::I64(*u as i64)
        } else {
            FieldValue::U64(*u)
        },
        Number::Negative(i) => FieldValue::I64(*i),
        Number::Float { bits, .. } => FieldValue::F64(*bits),
    }
}

/// The field value of a JSON value. A date's own form gives the date back.
pub fn field_from_json(v: &Json) -> (r: Result<FieldValue, String>)
    ensures
        match r {
            Ok(f) => field_in(v@) == Ok::<FieldV, Seq<char>>(f@),
            Err(m) => field_in(v@) == Err::<FieldV, Seq<char>>(m@),
        },
        forall|micros: i64|
            dated(micros as int) && v@ == Tree::Object(
                seq![("date"@, Tree::Text(#[trigger] date_text(micros as int)))],
            ) ==> (r matches Ok(f) && f@ == FieldV::Date(micros)),
{
    match v {
        Json::Bool(b) => Ok(FieldValue::Bool(*b)),
        Json::Number(n) => Ok(field_of_number(n)),
        Json::Text(s) => Ok(FieldValue::Str(s.clone())),
        Json::Object(es) => match single_string(es, "date") {
            Err(m) => {
                proof {
                    assert forall|micros: i64|
                        dated(micros as int) implies v@ != Tree::Object(
                        seq![("date"@, Tree::Text(#[trigger] date_text(micros as int)))],
                    ) by {
                        let one = seq![("date"@, Tree::Text(date_text(micros as int)))];
                        assert(single_text(one, "date"@) is Ok);
                    }
                }
                Err(m)
            },
            Ok(s) => {
                proof {
                    assert forall|micros: i64|
                        dated(micros as int) && v@ == Tree::Object(
                            seq![("date"@, Tree::Text(#[trigger] date_text(micros as int)))],
                        ) implies s@ == date_text(micros as int) by {
                        let one = seq![("date"@, Tree::Text(date_text(micros as int)))];
                        assert(value::entries_of(es@) == one);
                        assert(one[0].1 == Tree::Text(date_text(micros as int)));
                    }
                }
                match parse_date(&s) {
                    Some(micros) => Ok(FieldValue::Date(micros)),
                    None => Err(text::cat2("invalid RFC 3339 date ", &text::debug_of(&s))),
                }
            },
        },
        _ => Err(wrong(v, "a string, bool, number or {\"date\": \"<RFC 3339>\"}")),
    }
}

/// A field value other than a date comes back from its JSON in its normal
/// form.
pub proof fn field_round_trip(v: FieldV, shown: Option<Seq<char>>)
    requires
        !(v is Date),
        v is F64 ==> shown is Some,
    ensures
        field_json(v, shown) matches Some(t) && field_in(t) == Ok::<FieldV, Seq<char>>(
            values::norm_field(v),
        ),
{
}

/// A sort value as JSON, given the text of its float if it is a finite one.
pub open spec fn sort_json(v: SortV, shown: Option<Seq<char>>) -> Tree {
    match v {
        SortV::Null => Tree::Null,
        SortV::Bool(b) => Tree::Bool(b),
        SortV::I64(n) => int_json(n),
        SortV::U64(n) => Tree::Number(Num::Unsigned(n)),
        SortV::F64(bits) => float_json(bits, shown),
        SortV::Str(s) => Tree::Text(s),
        SortV::Uuid(b) => Tree::Object(seq![("uuid"@, Tree::Text(pk::uuid_text(b)))]),
    }
}

/// A sort value as JSON.
pub fn sort_to_json(v: &SortValue, shown: Option<String>) -> (r: Json)
    ensures
        r@ == sort_json(v@, text::opt_text(shown)),
{
    match v {
        SortValue::Null => Json::Null,
        SortValue::Bool(b) => Json::Bool(*b),
        SortValue::I64(n) => int_to_json(*n),
        SortValue::U64(n) => Json::Number(Number::Unsigned(*n)),
        SortValue::F64(bits) => float_to_json(*bits, shown),
        SortValue::Str(s) => Json::Text(s.clone()),
        SortValue::Uuid(b) => one_entry("uuid", pk::format_uuid(b)),
    }
}

/// A number as a sort value: a signed integer where it is one.
pub open spec fn number_sort(n: Num) -> SortV {
    match n {
        Num::Unsigned(u) => if u <= i64::MAX {
            SortV::I64(u as i64)
        } else {
            SortV::U64(u)
        },
        Num::Negative(i) => SortV::I64(i),
        Num::Float { bits, .. } => SortV::F64(bits),
    }
}

/// The sort value of a JSON value.
pub open spec fn sort_in(t: Tree) -> Result<SortV, Seq<char>> {
    match t {
        Tree::Null => Ok(SortV::Null),
        Tree::Bool(b) => Ok(SortV::Bool(b)),
        Tree::Number(n) => Ok(number_sort(n)),
        Tree::Text(s) => Ok(SortV::Str(s)),
        Tree::Object(es) => match single_text(es, "uuid"@) {
            Err(m) => Err(m),
            Ok(s) => match pk::uuid_of(s) {
                Some(b) => Ok(SortV::Uuid(b)),
                None => Err("invalid uuid "@ + text::debug_text(s)),
            },
        },
        Tree::Array(_) => Err(
            wrong_type(t, "null, a bool, number, string or {\"uuid\": \"\u{2026}\"}"@),
        ),
    }
}

/// The sort value of a JSON value.
pub fn sort_from_json(v: &Json) -> (r: Result<SortValue, String>)
    ensures
        match r {
            Ok(s) => sort_in(v@) == Ok::<SortV, Seq<char>>(s@),
            Err(m) => sort_in(v@) == Err::<SortV, Seq<char>>(m@),
        },
{
    match v {
        Json::Null => Ok(SortValue::Null),
        Json::Bool(b) => Ok(SortValue::Bool(*b)),
        Json::Number(n) => Ok(
            match n {
                Number::Unsigned(u) => if *u <= i64::MAX as u64 {
                    SortValue::I64(*u as i64)
                } else {
                    SortValue::U64(*u)
                },
                Number::Negative(i) => SortValue::I64(*i),
                Number::Float { bits, .. } => SortValue::F64(*bits),
            },
        ),
        Json::Text(s) => Ok(SortValue::Str(s.clone())),
        Json::Object(es) => match single_string(es, "uuid") {
            Err(m) => Err(m),
            Ok(s) => match pk::parse_uuid(&s) {
                Some(b) => Ok(SortValue::Uuid(b)),
                None => Err(text::cat2("invalid uuid ", &text::debug_of(&s))),
            },
        },
        _ => Err(wrong(v, "null, a bool, number, string or {\"uuid\": \"\u{2026}\"}")),
    }
}

/// A sort value comes back from its JSON, an unsigned integer that fits as a
/// signed one.
pub proof fn sort_round_trip(v: SortV, shown: Option<Seq<char>>)
    requires
        v is F64 ==> shown is Some,
        v matches SortV::Uuid(b) ==> b.len() == 16,
    ensures
        sort_in(sort_json(v, shown)) == Ok::<SortV, Seq<char>>(
            match v {
                SortV::U64(n) => if n <= i64::MAX {
                    SortV::I64(n as i64)
                } else {
                    v
                },
                _ => v,
            },
        ),
{
    match v {
        SortV::Uuid(b) => {
            pk::uuid_round_trip(b);
            let one = seq![("uuid"@, Tree::Text(pk::uuid_text(b)))];
            assert(one[0] == ("uuid"@, Tree::Text(pk::uuid_text(b))));
        },
        _ => {},
    }
}

/// A fuzziness as JSON.
pub open spec fn fuzziness_json(f: Fuzziness) -> Tree {
    match f {
        Fuzziness::Auto => Tree::Text("auto"@),
        Fuzziness::Edits(n) => Tree::Number(Num::Unsigned(n as u64)),
    }
}

/// A fuzziness as JSON.
pub fn fuzziness_to_json(f: &Fuzziness) -> (r: Json)
    ensures
        r@ == fuzziness_json(*f),
{
    match f {
        Fuzziness::Auto => value::string("auto"),
        Fuzziness::Edits(n) => Json::Number(Number::Unsigned(*n as u64)),
    }
}

/// The message of a fuzziness that is none.
pub open spec fn bad_fuzziness(shown: Seq<char>) -> Seq<char> {
    "invalid fuzziness "@ + shown + ": expected \"auto\" or 0-2"@
}

/// The fuzziness of a JSON value.
pub open spec fn fuzziness_in(t: Tree) -> Result<Fuzziness, Seq<char>> {
    match t {
        Tree::Text(s) => if s == "auto"@ {
            Ok(Fuzziness::Auto)
        } else {
            Err(bad_fuzziness(text::debug_text(s)))
        },
        Tree::Number(Num::Unsigned(n)) => if n <= 2 {
            Ok(Fuzziness::Edits(n as u8))
        } else {
            Err(bad_fuzziness(text::decimal(n as nat)))
        },
        Tree::Number(Num::Negative(n)) => Err(bad_fuzziness(text::decimal_int(n as int))),
        _ => Err(wrong_type(t, "\"auto\" or an integer 0-2"@)),
    }
}

fn fuzziness_error(shown: &str) -> (r: String)
    ensures
        r@ == bad_fuzziness(shown@),
{
    text::cat3("invalid fuzziness ", shown, ": expected \"auto\" or 0-2")
}

/// The fuzziness of a JSON value.
pub fn fuzziness_from_json(v: &Json) -> (r: Result<Fuzziness, String>)
    ensures
        match r {
            Ok(f) => fuzziness_in(v@) == Ok::<Fuzziness, Seq<char>>(f),
            Err(m) => fuzziness_in(v@) == Err::<Fuzziness, Seq<char>>(m@),
        },
{
    match v {
        Json::Text(s) => if text::same(s, "auto") {
            Ok(Fuzziness::Auto)
        } else {
            Err(fuzziness_error(&text::debug_of(s)))
        },
        Json::Number(Number::Unsigned(n)) => if *n <= 2 {
            Ok(Fuzziness::Edits(*n as u8))
        } else {
            Err(fuzziness_error(&text::dec(*n)))
        },
        Json::Number(Number::Negative(n)) => Err(fuzziness_error(&text::dec_i64(*n))),
        _ => Err(wrong(v, "\"auto\" or an integer 0-2")),
    }
}

/// Strings as a JSON list.
pub open spec fn texts_json(s: Seq<Seq<char>>) -> Tree {
    Tree::Array(Seq::new(s.len(), |i: int| Tree::Text(s[i])))
}

fn texts_to_json(s: &Vec<String>) -> (r: Json)
    ensures
        r@ == texts_json(text::texts(s@)),
{
    let mut items: Vec<Json> = Vec::new();
    let mut i: usize = 0;
    while i < s.len()
        invariant
            i <= s@.len(),
            items@.len() == i,
            forall|j: int| 0 <= j < i ==> (#[trigger] items@[j])@ == Tree::Text(s@[j]@),
        decreases s.len() - i,
    {
        items.push(Json::Text(s[i].clone()));
        i += 1;
    }
    proof {
        assert(value::items_of(items@) =~= texts_json(text::texts(s@))->Array_0);
    }
    Json::Array(items)
}

/// A source filter as JSON.
pub open spec fn filter_json(f: SourceFilterV) -> Tree {
    match f {
        SourceFilterV::All => Tree::Text("all"@),
        SourceFilterV::Nothing => Tree::Text("none"@),
        SourceFilterV::Paths { include_paths, exclude_paths } => Tree::Object(
            seq![
                ("include"@, texts_json(include_paths)),
                ("exclude"@, texts_json(exclude_paths)),
            ],
        ),
    }
}

/// A source filter as JSON.
pub fn filter_to_json(f: &SourceFilter) -> (r: Json)
    ensures
        r@ == filter_json(f@),
{
    match f {
        SourceFilter::All => value::string("all"),
        SourceFilter::Nothing => value::string("none"),
        SourceFilter::Paths { include_paths, exclude_paths } => {
            let mut es: Vec<(String, Json)> = Vec::new();
            es.push(("include".to_owned(), texts_to_json(include_paths)));
            es.push(("exclude".to_owned(), texts_to_json(exclude_paths)));
            proof {
                assert(value::entries_of(es@) =~= filter_json(f@)->Object_0);
            }
            Json::Object(es)
        },
    }
}

/// The strings of a JSON list, or what is wrong with it or with the first
/// item that is no string.
pub open spec fn texts_in(t: Tree) -> Result<Seq<Seq<char>>, Seq<char>> {
    match t {
        Tree::Array(items) => items_in(items, items.len()),
        _ => Err(wrong_type(t, "a sequence"@)),
    }
}

/// The strings of the first `n` items.
pub open spec fn items_in(items: Seq<Tree>, n: nat) -> Result<Seq<Seq<char>>, Seq<char>>
    decreases n,
{
    if n == 0 || n > items.len() {
        Ok(Seq::empty())
    } else {
        match items_in(items, (n - 1) as nat) {
            Err(m) => Err(m),
            Ok(out) => match items[n - 1] {
                Tree::Text(s) => Ok(out.push(s)),
                other => Err(wrong_type(other, "a string"@)),
            },
        }
    }
}

proof fn items_stay_wrong(items: Seq<Tree>, n: nat, m: nat)
    requires
        n <= m <= items.len(),
        items_in(items, n) is Err,
    ensures
        items_in(items, m) == items_in(items, n),
    decreases m - n,
{
    if n < m {
        items_stay_wrong(items, n, (m - 1) as nat);
    }
}

fn read_texts(v: &Json) -> (r: Result<Vec<String>, String>)
    ensures
        match r {
            Ok(s) => texts_in(v@) == Ok::<Seq<Seq<char>>, Seq<char>>(text::texts(s@)),
            Err(m) => texts_in(v@) == Err::<Seq<Seq<char>>, Seq<char>>(m@),
        },
{
    match v {
        Json::Array(items) => {
            let ghost all = value::items_of(items@);
            let mut out: Vec<String> = Vec::new();
            let mut i: usize = 0;
            assert(text::texts(out@) =~= Seq::empty());
            while i < items.len()
                invariant
                    i <= items@.len(),
                    all == value::items_of(items@),
                    v@ == Tree::Array(all),
                    items_in(all, i as nat) == Ok::<Seq<Seq<char>>, Seq<char>>(
                        text::texts(out@),
                    ),
                decreases items.len() - i,
            {
                assert(all[i as int] == items@[i as int]@);
                match &items[i] {
                    Json::Text(s) => {
                        let ghost was = text::texts(out@);
                        out.push(s.clone());
                        assert(text::texts(out@) =~= was.push(s@));
                    },
                    other => {
                        proof {
                            items_stay_wrong(all, i as nat + 1, items@.len());
                        }
                        return Err(wrong(other, "a string"));
                    },
                }
                i += 1;
            }
            Ok(out)
        },
        _ => Err(wrong(v, "a sequence")),
    }
}

/// The lists of a source filter that were read so far.
pub struct ListsV {
    pub included: Option<Seq<Seq<char>>>,
    pub excluded: Option<Seq<Seq<char>>>,
}

/// The lists of the first `n` entries of a source filter.
pub open spec fn lists_in(es: Seq<(Seq<char>, Tree)>, n: nat) -> Result<ListsV, Seq<char>>
    decreases n,
{
    if n == 0 || n > es.len() {
        Ok(ListsV { included: None, excluded: None })
    } else {
        match lists_in(es, (n - 1) as nat) {
            Err(m) => Err(m),
            Ok(l) => {
                let (key, v) = es[n - 1];
                if key == "include"@ {
                    if l.included is Some {
                        Err("repeated key "@ + key)
                    } else {
                        match texts_in(v) {
                            Err(m) => Err(m),
                            Ok(s) => Ok(ListsV { included: Some(s), ..l }),
                        }
                    }
                } else if key == "exclude"@ {
                    if l.excluded is Some {
                        Err("repeated key "@ + key)
                    } else {
                        match texts_in(v) {
                            Err(m) => Err(m),
                            Ok(s) => Ok(ListsV { excluded: Some(s), ..l }),
                        }
                    }
                } else {
                    Err("unknown key "@ + key + " in the source filter"@)
                }
            },
        }
    }
}

proof fn lists_stay_wrong(es: Seq<(Seq<char>, Tree)>, n: nat, m: nat)
    requires
        n <= m <= es.len(),
        lists_in(es, n) is Err,
    ensures
        lists_in(es, m) == lists_in(es, n),
    decreases m - n,
{
    if n < m {
        lists_stay_wrong(es, n, (m - 1) as nat);
    }
}

/// A list that may be absent.
pub open spec fn list_or_none(s: Option<Seq<Seq<char>>>) -> Seq<Seq<char>> {
    match s {
        Some(s) => s,
        None => Seq::empty(),
    }
}

/// The source filter of a JSON value.
pub open spec fn filter_in(t: Tree) -> Result<SourceFilterV, Seq<char>> {
    match t {
        Tree::Text(s) => if s == "all"@ {
            Ok(SourceFilterV::All)
        } else if s == "none"@ {
            Ok(SourceFilterV::Nothing)
        } else {
            Err("invalid source filter "@ + text::debug_text(s))
        },
        Tree::Object(es) => match lists_in(es, es.len()) {
            Err(m) => Err(m),
            Ok(l) => Ok(
                SourceFilterV::Paths {
                    include_paths: list_or_none(l.included),
                    exclude_paths: list_or_none(l.excluded),
                },
            ),
        },
        _ => Err(
            wrong_type(t, "\"all\", \"none\" or {\"include\": [..], \"exclude\": [..]}"@),
        ),
    }
}

spec fn opt_texts(s: Option<Vec<String>>) -> Option<Seq<Seq<char>>> {
    match s {
        Some(s) => Some(text::texts(s@)),
        None => None,
    }
}

fn or_none(s: Option<Vec<String>>) -> (r: Vec<String>)
    ensures
        text::texts(r@) == list_or_none(opt_texts(s)),
{
    match s {
        Some(s) => s,
        None => {
            let out: Vec<String> = Vec::new();
            assert(text::texts(out@) =~= Seq::empty());
            out
        },
    }
}

/// The source filter of a JSON value.
pub fn filter_from_json(v: &Json) -> (r: Result<SourceFilter, String>)
    ensures
        match r {
            Ok(f) => filter_in(v@) == Ok::<SourceFilterV, Seq<char>>(f@),
            Err(m) => filter_in(v@) == Err::<SourceFilterV, Seq<char>>(m@),
        },
{
    match v {
        Json::Text(s) => if text::same(s, "all") {
            Ok(SourceFilter::All)
        } else if text::same(s, "none") {
            Ok(SourceFilter::Nothing)
        } else {
            Err(text::cat2("invalid source filter ", &text::debug_of(s)))
        },
        Json::Object(es) => {
            let ghost ev = value::entries_of(es@);
            let mut included: Option<Vec<String>> = None;
            let mut excluded: Option<Vec<String>> = None;
            let mut i: usize = 0;
            while i < es.len()
                invariant
                    i <= es@.len(),
                    ev == value::entries_of(es@),
                    v@ == Tree::Object(ev),
                    lists_in(ev, i as nat) == Ok::<ListsV, Seq<char>>(
                        ListsV {
                            included: opt_texts(included),
                            excluded: opt_texts(excluded),
                        },
                    ),
                decreases es.len() - i,
            {
                assert(ev[i as int] == (es@[i as int].0@, es@[i as int].1@));
                let into_included = text::same(&es[i].0, "include");
                let into_excluded = text::same(&es[i].0, "exclude");
                proof {
                    if lists_in(ev, i as nat + 1) is Err {
                        lists_stay_wrong(ev, i as nat + 1, es@.len());
                    }
                }
                if !into_included && !into_excluded {
                    return Err(
                        text::cat3("unknown key ", &es[i].0, " in the source filter"),
                    );
                }
                let repeated = if into_included {
                    included.is_some()
                } else {
                    excluded.is_some()
                };
                if repeated {
                    return Err(text::cat2("repeated key ", &es[i].0));
                }
                match read_texts(&es[i].1) {
                    Err(m) => {
                        return Err(m);
                    },
                    Ok(s) => {
                        if into_included {
                            included = Some(s);
                        } else {
                            excluded = Some(s);
                        }
                    },
                }
                i += 1;
            }
            Ok(
                SourceFilter::Paths {
                    include_paths: or_none(included),
                    exclude_paths: or_none(excluded),
                },
            )
        },
        _ => Err(wrong(v, "\"all\", \"none\" or {\"include\": [..], \"exclude\": [..]}")),
    }
}

/// The strings of a list come back from its JSON.
proof fn texts_round_trip(s: Seq<Seq<char>>, n: nat)
    requires
        n <= s.len(),
    ensures
        items_in(texts_json(s)->Array_0, n) == Ok::<Seq<Seq<char>>, Seq<char>>(s.take(n as int)),
    decreases n,
{
    if n == 0 {
        assert(s.take(0) =~= Seq::empty());
    } else {
        texts_round_trip(s, (n - 1) as nat);
        assert(s.take(n as int) =~= s.take(n - 1).push(s[n - 1]));
    }
}

/// A source filter comes back from its JSON.
pub proof fn filter_round_trip(f: SourceFilterV)
    ensures
        filter_in(filter_json(f)) == Ok::<SourceFilterV, Seq<char>>(f),
{
    reveal_strlit("all");
    reveal_strlit("none");
    reveal_strlit("include");
    reveal_strlit("exclude");
    match f {
        SourceFilterV::Paths { include_paths, exclude_paths } => {
            texts_round_trip(include_paths, include_paths.len());
            texts_round_trip(exclude_paths, exclude_paths.len());
            assert(include_paths.take(include_paths.len() as int) =~= include_paths);
            assert(exclude_paths.take(exclude_paths.len() as int) =~= exclude_paths);
            let es = filter_json(f)->Object_0;
            assert("include"@[0] == 'i' && "exclude"@[0] == 'e');
            assert(es[0] == ("include"@, texts_json(include_paths)));
            assert(es[1] == ("exclude"@, texts_json(exclude_paths)));
            reveal_with_fuel(lists_in, 3);
        },
        _ => {
            assert("all"@.len() == 3 && "none"@.len() == 4);
        },
    }
}

} // verus!
