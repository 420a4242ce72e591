//! The filters of a query body: their JSON, and dates relative to now.

use crate::error;
use crate::error::{Failure, ServiceError};
use crate::json::fields;
use crate::json::pk;
use crate::json::value;
use crate::json::value::{Json, Tree};
use crate::json::values;
use crate::key::{Key, PrimaryKey};
use crate::query;
use crate::query::{BoolOperator, Query, QueryV};
use crate::text;
use crate::values::{FieldV, FieldValue};
use vstd::prelude::*;
use vstd::string::*;

verus! {

broadcast use {
    crate::json::value::view_object,
    crate::json::value::view_array,
    crate::query::view_bool,
};

/// The milliseconds of a unit of time.
pub open spec fn unit_ms(c: char) -> Option<int> {
    if c == 's' {
        Some(1_000)
    } else if c == 'm' {
        Some(60_000)
    } else if c == 'h' {
        Some(3_600_000)
    } else if c == 'd' {
        Some(86_400_000)
    } else {
        None
    }
}

fn ms_per(c: char) -> (r: Option<u64>)
    ensures
        match r {
            Some(n) => unit_ms(c) == Some(n as int) && n <= 86_400_000,
            None => unit_ms(c) is None,
        },
{
    if c == 's' {
        Some(1_000)
    } else if c == 'm' {
        Some(60_000)
    } else if c == 'h' {
        Some(3_600_000)
    } else if c == 'd' {
        Some(86_400_000)
    } else {
        None
    }
}

/// The error of a text that begins like date math and is none.
pub open spec fn bad_math(s: Seq<char>, rest: Seq<char>) -> Failure {
    fields::invalid("invalid date math "@ + text::debug_text(s) + rest)
}

/// The error of date math outside the years 0 to 9999.
pub open spec fn math_out_of_range(s: Seq<char>) -> Failure {
    fields::invalid("date math "@ + text::debug_text(s) + " out of range"@)
}

/// The milliseconds that a shift of now says: a count of a unit.
pub open spec fn shift_in(s: Seq<char>, shift: Seq<char>) -> Result<int, Failure> {
    if shift.len() == 0 {
        Err(bad_math(s, ""@))
    } else {
        match unit_ms(shift.last()) {
            None => Err(bad_math(s, ": units are s, m, h, d"@)),
            Some(per) => match text::number_in(shift.drop_last(), u64::MAX as nat) {
                None => Err(bad_math(s, ""@)),
                Some(n) => Ok(n * per),
            },
        }
    }
}

/// The milliseconds that date math names, none for another text.
pub open spec fn math_ms(s: Seq<char>, now_ms: u64) -> Result<Option<int>, Failure> {
    match text::without_prefix(s, "now"@) {
        None => Ok(None),
        Some(rest) => if rest.len() == 0 {
            Ok(Some(now_ms as int))
        } else if rest[0] == '+' {
            match shift_in(s, rest.skip(1)) {
                Err(e) => Err(e),
                Ok(ms) => Ok(Some(now_ms + ms)),
            }
        } else if rest[0] == '-' {
            match shift_in(s, rest.skip(1)) {
                Err(e) => Err(e),
                Ok(ms) => Ok(Some(now_ms - ms)),
            }
        } else {
            Ok(None)
        },
    }
}

/// The microseconds that date math names: `now`, `now-<n><u>` or
/// `now+<n><u>`; none for another text.
pub open spec fn math_in(s: Seq<char>, now_ms: u64) -> Result<Option<i64>, Failure> {
    match math_ms(s, now_ms) {
        Err(e) => Err(e),
        Ok(None) => Ok(None),
        Ok(Some(ms)) => if i64::MIN <= ms * 1_000 <= i64::MAX && values::dated(ms * 1_000) {
            Ok(Some((ms * 1_000) as i64))
        } else {
            Err(math_out_of_range(s))
        },
    }
}

fn math_error(s: &str, rest: &str) -> (r: ServiceError)
    ensures
        r@ == bad_math(s@, rest@),
{
    error::invalid(text::cat3("invalid date math ", &text::debug_of(s), rest))
}

fn read_shift(s: &str, shift: &str) -> (r: Result<i128, ServiceError>)
    ensures
        match r {
            Ok(ms) => shift_in(s@, shift@) == Ok::<int, Failure>(ms as int) && 0 <= ms
                <= 0x1_0000_0000_0000_0000 * 86_400_000,
            Err(e) => shift_in(s@, shift@) == Err::<int, Failure>(e@),
        },
{
    let n: usize = shift.unicode_len();
    if n == 0 {
        return Err(math_error(s, ""));
    }
    let unit = shift.get_char(n - 1);
    let per: u64 = match ms_per(unit) {
        Some(per) => per,
        None => {
            return Err(math_error(s, ": units are s, m, h, d"));
        },
    };
    let digits = shift.substring_char(0, n - 1);
    proof {
        assert(digits@ =~= shift@.drop_last());
    }
    match text::parse_number(digits, u64::MAX) {
        None => Err(math_error(s, "")),
        Some(count) => {
            proof {
                assert(0 <= count * per <= 0x1_0000_0000_0000_0000 * 86_400_000)
                    by (nonlinear_arith)
                    requires
                        0 <= count <= 0x1_0000_0000_0000_0000,
                        0 <= per <= 86_400_000,
                ;
            }
            Ok(count as i128 * per as i128)
        },
    }
}

/// The date that a text names relative to now: none where it is another
/// text.
pub fn date_math(s: &str, now_ms: u64) -> (r: Result<Option<i64>, ServiceError>)
    ensures
        match r {
            Ok(m) => math_in(s@, now_ms) == Ok::<Option<i64>, Failure>(m),
            Err(e) => math_in(s@, now_ms) == Err::<Option<i64>, Failure>(e@),
        },
{
    let rest = match text::strip_prefix(s, "now") {
        Some(rest) => rest,
        None => {
            return Ok(None);
        },
    };
    let n: usize = rest.unicode_len();
    let ms: i128 = if n == 0 {
        now_ms as i128
    } else {
        let sign = rest.get_char(0);
        if sign != '+' && sign != '-' {
            return Ok(None);
        }
        let shift = rest.substring_char(1, n);
        proof {
            assert(shift@ =~= rest@.skip(1));
        }
        match read_shift(s, shift) {
            Err(e) => {
                return Err(e);
            },
            Ok(by) => if sign == '+' {
                now_ms as i128 + by
            } else {
                now_ms as i128 - by
            },
        }
    };
    let micros: i128 = ms * 1_000;
    if micros < i64::MIN as i128 || micros > i64::MAX as i128 || values::format_date(
        micros as i64,
    ).is_none() {
        return Err(
            error::invalid(text::cat3("date math ", &text::debug_of(s), " out of range")),
        );
    }
    Ok(Some(micros as i64))
}

/// The field value of a filter: a scalar, or date math.
pub open spec fn value_in(t: Tree, now_ms: u64) -> Result<FieldV, Failure> {
    match t {
        Tree::Text(s) => match math_in(s, now_ms) {
            Err(e) => Err(e),
            Ok(Some(micros)) => Ok(FieldV::Date(micros)),
            Ok(None) => Ok(FieldV::Str(s)),
        },
        Tree::Bool(b) => Ok(FieldV::Bool(b)),
        Tree::Number(n) => Ok(values::number_field(n)),
        _ => Err(
            fields::invalid("a filter value must be a JSON scalar, got "@ + value::json_text(t)),
        ),
    }
}

/// The field value of a filter.
pub fn value_from(v: &Json, now_ms: u64) -> (r: Result<FieldValue, ServiceError>)
    ensures
        match r {
            Ok(f) => value_in(v@, now_ms) == Ok::<FieldV, Failure>(f@),
            Err(e) => value_in(v@, now_ms) == Err::<FieldV, Failure>(e@),
        },
{
    match v {
        Json::Text(s) => match date_math(s, now_ms) {
            Err(e) => Err(e),
            Ok(Some(micros)) => Ok(FieldValue::Date(micros)),
            Ok(None) => Ok(FieldValue::Str(s.clone())),
        },
        Json::Bool(b) => Ok(FieldValue::Bool(*b)),
        Json::Number(n) => Ok(values::field_of_number(n)),
        _ => Err(
            error::invalid(
                text::cat2("a filter value must be a JSON scalar, got ", &v.text()),
            ),
        ),
    }
}

/// The only key of a one-key object, and its value.
pub open spec fn single_in(t: Tree, what: Seq<char>) -> Result<(Seq<char>, Tree), Failure> {
    match t {
        Tree::Object(es) => if es.len() == 1 {
            Ok((es[0].0, es[0].1))
        } else {
            Err(
                fields::invalid(
                    what + " must be an object with one key, got "@ + value::json_text(t),
                ),
            )
        },
        _ => Err(
            fields::invalid(what + " must be an object with one key, got "@ + value::json_text(t)),
        ),
    }
}

/// The only key of a one-key object, and its value.
pub fn single<'a>(v: &'a Json, what: &str) -> (r: Result<(&'a str, &'a Json), ServiceError>)
    ensures
        match r {
            Ok((key, body)) => single_in(v@, what@) == Ok::<(Seq<char>, Tree), Failure>(
                (key@, body@),
            ) && (v matches Json::Object(es) && es@.len() == 1 && *body == es@[0].1),
            Err(e) => single_in(v@, what@) == Err::<(Seq<char>, Tree), Failure>(e@),
        },
{
    if let Json::Object(es) = v {
        if es.len() == 1 {
            assert(value::entries_of(es@)[0] == (es@[0].0@, es@[0].1@));
            return Ok((es[0].0.as_str(), &es[0].1));
        }
    }
    Err(
        error::invalid(text::cat3(what, " must be an object with one key, got ", &v.text())),
    )
}

/// The entries of an object without other keys than the allowed.
pub open spec fn fields_of(t: Tree, what: Seq<char>, allowed: Seq<Seq<char>>) -> Result<
    Seq<(Seq<char>, Tree)>,
    Failure,
> {
    match t {
        Tree::Object(es) => match fields::unknown_key(es, allowed, 0) {
            Some(key) => Err(fields::bad_key(key, what)),
            None => Ok(es),
        },
        _ => Err(fields::invalid(what + " must be an object"@)),
    }
}

/// The entries of an object without other keys than the allowed.
pub fn checked<'a>(v: &'a Json, what: &str, allowed: &[&'static str]) -> (r: Result<
    &'a Vec<(String, Json)>,
    ServiceError,
>)
    ensures
        match r {
            Ok(es) => fields_of(v@, what@, fields::strs(allowed@)) == Ok::<
                Seq<(Seq<char>, Tree)>,
                Failure,
            >(value::entries_of(es@)),
            Err(e) => fields_of(v@, what@, fields::strs(allowed@)) == Err::<
                Seq<(Seq<char>, Tree)>,
                Failure,
            >(e@),
        },
{
    match v {
        Json::Object(es) => match fields::find_unknown(es, allowed) {
            Some(i) => Err(fields::unknown(&es[i].0, what)),
            None => Ok(es),
        },
        _ => Err(error::invalid(text::cat2(what, " must be an object"))),
    }
}

/// The values of the first `n` items, or the error of the first that is
/// none.
pub open spec fn values_in(items: Seq<Tree>, now_ms: u64, n: nat) -> Result<Seq<FieldV>, Failure>
    decreases n,
{
    if n == 0 || n > items.len() {
        Ok(Seq::empty())
    } else {
        match values_in(items, now_ms, (n - 1) as nat) {
            Err(e) => Err(e),
            Ok(out) => match value_in(items[n - 1], now_ms) {
                Err(e) => Err(e),
                Ok(v) => Ok(out.push(v)),
            },
        }
    }
}

proof fn values_stay_wrong(items: Seq<Tree>, now_ms: u64, n: nat, m: nat)
    requires
        n <= m <= items.len(),
        values_in(items, now_ms, n) is Err,
    ensures
        values_in(items, now_ms, m) == values_in(items, now_ms, n),
    decreases m - n,
{
    if n < m {
        values_stay_wrong(items, now_ms, n, (m - 1) as nat);
    }
}

fn read_values(items: &Vec<Json>, now_ms: u64) -> (r: Result<Vec<FieldValue>, ServiceError>)
    ensures
        match r {
            Ok(v) => values_in(value::items_of(items@), now_ms, items@.len()) == Ok::<
                Seq<FieldV>,
                Failure,
            >(crate::values::field_views(v@)),
            Err(e) => values_in(value::items_of(items@), now_ms, items@.len()) == Err::<
                Seq<FieldV>,
                Failure,
            >(e@),
        },
{
    let ghost all = value::items_of(items@);
    let mut out: Vec<FieldValue> = Vec::new();
    let mut i: usize = 0;
    assert(crate::values::field_views(out@) =~= Seq::empty());
    while i < items.len()
        invariant
            i <= items@.len(),
            all == value::items_of(items@),
            values_in(all, now_ms, i as nat) == Ok::<Seq<FieldV>, Failure>(
                crate::values::field_views(out@),
            ),
        decreases items.len() - i,
    {
        assert(all[i as int] == items@[i as int]@);
        match value_from(&items[i], now_ms) {
            Ok(v) => {
                let ghost was = crate::values::field_views(out@);
                let ghost vv = v@;
                out.push(v);
                assert(crate::values::field_views(out@) =~= was.push(vv));
            },
            Err(e) => {
                proof {
                    values_stay_wrong(all, now_ms, i as nat + 1, items@.len());
                }
                return Err(e);
            },
        }
        i += 1;
    }
    Ok(out)
}

/// The keys of the first `n` items, or the error of the first that is none.
pub open spec fn keys_in(items: Seq<Tree>, n: nat) -> Result<Seq<Key>, Failure>
    decreases n,
{
    if n == 0 || n > items.len() {
        Ok(Seq::empty())
    } else {
        match keys_in(items, (n - 1) as nat) {
            Err(e) => Err(e),
            Ok(out) => match pk::json_key(items[n - 1]) {
                None => Err(fields::invalid(pk::invalid_id(items[n - 1]))),
                Some(k) => Ok(out.push(k)),
            },
        }
    }
}

proof fn keys_stay_wrong(items: Seq<Tree>, n: nat, m: nat)
    requires
        n <= m <= items.len(),
        keys_in(items, n) is Err,
    ensures
        keys_in(items, m) == keys_in(items, n),
    decreases m - n,
{
    if n < m {
        keys_stay_wrong(items, n, (m - 1) as nat);
    }
}

fn read_keys(items: &Vec<Json>) -> (r: Result<Vec<PrimaryKey>, ServiceError>)
    ensures
        match r {
            Ok(v) => keys_in(value::items_of(items@), items@.len()) == Ok::<Seq<Key>, Failure>(
                query::key_views(v@),
            ),
            Err(e) => keys_in(value::items_of(items@), items@.len()) == Err::<Seq<Key>, Failure>(
                e@,
            ),
        },
{
    let ghost all = value::items_of(items@);
    let mut out: Vec<PrimaryKey> = Vec::new();
    let mut i: usize = 0;
    assert(query::key_views(out@) =~= Seq::empty());
    while i < items.len()
        invariant
            i <= items@.len(),
            all == value::items_of(items@),
            keys_in(all, i as nat) == Ok::<Seq<Key>, Failure>(query::key_views(out@)),
        decreases items.len() - i,
    {
        assert(all[i as int] == items@[i as int]@);
        match pk::from_json(&items[i]) {
            Ok(v) => {
                let ghost was = query::key_views(out@);
                let ghost vv = v@;
                out.push(v);
                assert(query::key_views(out@) =~= was.push(vv));
            },
            Err(e) => {
                proof {
                    keys_stay_wrong(all, i as nat + 1, items@.len());
                }
                return Err(e);
            },
        }
        i += 1;
    }
    Ok(out)
}

/// A boolean query without filters.
pub open spec fn bool_query(must: Seq<QueryV>, should: Seq<QueryV>, must_not: Seq<QueryV>) -> QueryV {
    QueryV::Bool {
        must,
        should,
        must_not,
        filter: Seq::empty(),
        minimum_should_match: None,
    }
}

/// A match of any of a text's words.
pub open spec fn match_any(field: Seq<char>, words: Seq<char>) -> QueryV {
    QueryV::Match {
        field,
        text: words,
        operator: BoolOperator::Or,
        minimum_should_match: None,
        fuzziness: None,
        analyzer: None,
    }
}

/// The bound of a range, if it is there.
pub open spec fn bound_in(es: Seq<(Seq<char>, Tree)>, key: Seq<char>, now_ms: u64) -> Result<
    Option<FieldV>,
    Failure,
> {
    match value::lookup(es, key) {
        None => Ok(None),
        Some(t) => match value_in(t, now_ms) {
            Ok(v) => Ok(Some(v)),
            Err(e) => Err(e),
        },
    }
}

fn bound(es: &Vec<(String, Json)>, key: &str, now_ms: u64) -> (r: Result<
    Option<FieldValue>,
    ServiceError,
>)
    ensures
        match r {
            Ok(v) => bound_in(value::entries_of(es@), key@, now_ms) == Ok::<
                Option<FieldV>,
                Failure,
            >(crate::values::opt_field(v)),
            Err(e) => bound_in(value::entries_of(es@), key@, now_ms) == Err::<
                Option<FieldV>,
                Failure,
            >(e@),
        },
{
    match value::find(es, key) {
        None => Ok(None),
        Some(v) => match value_from(v, now_ms) {
            Ok(v) => Ok(Some(v)),
            Err(e) => Err(e),
        },
    }
}

/// A range filter.
pub open spec fn range_in(body: Tree, now_ms: u64) -> Result<QueryV, Failure> {
    match single_in(body, "range"@) {
        Err(e) => Err(e),
        Ok((field, bounds)) => match fields_of(
            bounds,
            "range"@,
            seq!["gt"@, "gte"@, "lt"@, "lte"@],
        ) {
            Err(e) => Err(e),
            Ok(es) => match bound_in(es, "gt"@, now_ms) {
                Err(e) => Err(e),
                Ok(gt) => match bound_in(es, "gte"@, now_ms) {
                    Err(e) => Err(e),
                    Ok(gte) => match bound_in(es, "lt"@, now_ms) {
                        Err(e) => Err(e),
                        Ok(lt) => match bound_in(es, "lte"@, now_ms) {
                            Err(e) => Err(e),
                            Ok(lte) => Ok(QueryV::Range { field, gt, gte, lt, lte }),
                        },
                    },
                },
            },
        },
    }
}

fn read_range(body: &Json, now_ms: u64) -> (r: Result<Query, ServiceError>)
    ensures
        match r {
            Ok(q) => range_in(body@, now_ms) == Ok::<QueryV, Failure>(q@),
            Err(e) => range_in(body@, now_ms) == Err::<QueryV, Failure>(e@),
        },
{
    let (field, bounds) = match single(body, "range") {
        Ok(p) => p,
        Err(e) => {
            return Err(e);
        },
    };
    let allowed = ["gt", "gte", "lt", "lte"];
    assert(fields::strs(allowed@) =~= seq!["gt"@, "gte"@, "lt"@, "lte"@]);
    let es = match checked(bounds, "range", &allowed) {
        Ok(es) => es,
        Err(e) => {
            return Err(e);
        },
    };
    let gt = match bound(es, "gt", now_ms) {
        Ok(v) => v,
        Err(e) => {
            return Err(e);
        },
    };
    let gte = match bound(es, "gte", now_ms) {
        Ok(v) => v,
        Err(e) => {
            return Err(e);
        },
    };
    let lt = match bound(es, "lt", now_ms) {
        Ok(v) => v,
        Err(e) => {
            return Err(e);
        },
    };
    match bound(es, "lte", now_ms) {
        Ok(lte) => Ok(Query::Range { field: field.to_owned(), gt, gte, lt, lte }),
        Err(e) => Err(e),
    }
}

/// A filter that holds no other filter.
pub open spec fn leaf_in(kind: Seq<char>, body: Tree, now_ms: u64) -> Result<QueryV, Failure> {
    if kind == "term"@ {
        match single_in(body, "term"@) {
            Err(e) => Err(e),
            Ok((field, v)) => match value_in(v, now_ms) {
                Err(e) => Err(e),
                Ok(value) => Ok(QueryV::Term { field, value }),
            },
        }
    } else if kind == "terms"@ {
        match single_in(body, "terms"@) {
            Err(e) => Err(e),
            Ok((field, v)) => match v {
                Tree::Array(items) => match values_in(items, now_ms, items.len()) {
                    Err(e) => Err(e),
                    Ok(values) => Ok(QueryV::Terms { field, values }),
                },
                _ => Err(fields::invalid("terms values must be a list"@)),
            },
        }
    } else if kind == "range"@ {
        range_in(body, now_ms)
    } else if kind == "exists"@ {
        match body {
            Tree::Text(field) => Ok(QueryV::Exists { field }),
            _ => Err(fields::invalid("exists must name a field"@)),
        }
    } else if kind == "ids"@ {
        match body {
            Tree::Array(items) => match keys_in(items, items.len()) {
                Err(e) => Err(e),
                Ok(keys) => Ok(QueryV::Ids(keys)),
            },
            _ => Err(fields::invalid("ids must be a list"@)),
        }
    } else if kind == "match"@ {
        match single_in(body, "match"@) {
            Err(e) => Err(e),
            Ok((field, v)) => match v {
                Tree::Text(words) => Ok(match_any(field, words)),
                _ => Err(fields::invalid("match text must be a string"@)),
            },
        }
    } else {
        Err(fields::invalid("unknown filter "@ + kind))
    }
}

fn read_leaf(kind: &str, body: &Json, now_ms: u64) -> (r: Result<Query, ServiceError>)
    ensures
        match r {
            Ok(q) => leaf_in(kind@, body@, now_ms) == Ok::<QueryV, Failure>(q@),
            Err(e) => leaf_in(kind@, body@, now_ms) == Err::<QueryV, Failure>(e@),
        },
{
    if text::same(kind, "term") {
        let (field, v) = match single(body, "term") {
            Ok(p) => p,
            Err(e) => {
                return Err(e);
            },
        };
        match value_from(v, now_ms) {
            Ok(value) => Ok(Query::Term { field: field.to_owned(), value }),
            Err(e) => Err(e),
        }
    } else if text::same(kind, "terms") {
        let (field, v) = match single(body, "terms") {
            Ok(p) => p,
            Err(e) => {
                return Err(e);
            },
        };
        match v.as_array() {
            Some(items) => match read_values(items, now_ms) {
                Ok(values) => Ok(Query::Terms { field: field.to_owned(), values }),
                Err(e) => Err(e),
            },
            None => Err(error::invalid("terms values must be a list".to_owned())),
        }
    } else if text::same(kind, "range") {
        read_range(body, now_ms)
    } else if text::same(kind, "exists") {
        match body.as_str() {
            Some(field) => Ok(Query::Exists { field: field.to_owned() }),
            None => Err(error::invalid("exists must name a field".to_owned())),
        }
    } else if text::same(kind, "ids") {
        match body.as_array() {
            Some(items) => match read_keys(items) {
                Ok(keys) => Ok(Query::Ids(keys)),
                Err(e) => Err(e),
            },
            None => Err(error::invalid("ids must be a list".to_owned())),
        }
    } else if text::same(kind, "match") {
        let (field, v) = match single(body, "match") {
            Ok(p) => p,
            Err(e) => {
                return Err(e);
            },
        };
        match v.as_str() {
            Some(words) => Ok(
                Query::Match {
                    field: field.to_owned(),
                    text: words.to_owned(),
                    operator: BoolOperator::Or,
                    minimum_should_match: None,
                    fuzziness: None,
                    analyzer: None,
                },
            ),
            None => Err(error::invalid("match text must be a string".to_owned())),
        }
    } else {
        Err(error::invalid(text::cat2("unknown filter ", kind)))
    }
}

/// A filter: a one-key object of its kind and what it holds.
pub open spec fn filter_in(t: Tree, now_ms: u64) -> Result<QueryV, Failure>
    decreases t, 0nat,
{
    match single_in(t, "a filter"@) {
        Err(e) => Err(e),
        Ok((kind, body)) => {
            proof {
                single_is_smaller(t);
            }
            if kind == "and"@ || kind == "or"@ {
                match body {
                    Tree::Array(items) => {
                        proof {
                            assert(decreases_to!(body => body->Array_0));
                        }
                        match filters_in(items, now_ms, items.len()) {
                            Err(e) => Err(e),
                            Ok(qs) => if kind == "and"@ {
                                Ok(bool_query(qs, Seq::empty(), Seq::empty()))
                            } else {
                                Ok(bool_query(Seq::empty(), qs, Seq::empty()))
                            },
                        }
                    },
                    _ => Err(fields::invalid(kind + " must be a list of filters"@)),
                }
            } else if kind == "not"@ {
                match filter_in(body, now_ms) {
                    Err(e) => Err(e),
                    Ok(q) => Ok(bool_query(Seq::empty(), Seq::empty(), seq![q])),
                }
            } else {
                leaf_in(kind, body, now_ms)
            }
        },
    }
}

/// The filters of the first `n` items, or the error of the first that is
/// none.
pub open spec fn filters_in(items: Seq<Tree>, now_ms: u64, n: nat) -> Result<Seq<QueryV>, Failure>
    decreases items, n,
{
    if n == 0 || n > items.len() {
        Ok(Seq::empty())
    } else {
        proof {
            assert(decreases_to!(items => items[n - 1]));
        }
        match filters_in(items, now_ms, (n - 1) as nat) {
            Err(e) => Err(e),
            Ok(out) => match filter_in(items[n - 1], now_ms) {
                Err(e) => Err(e),
                Ok(q) => Ok(out.push(q)),
            },
        }
    }
}

/// The value of a one-key object is smaller than the object.
pub proof fn single_is_smaller(t: Tree)
    ensures
        t matches Tree::Object(es) ==> (es.len() == 1 ==> decreases_to!(t => es[0].1)),
{
    if let Tree::Object(es) = t {
        if es.len() == 1 {
            assert(decreases_to!(t => t->Object_0));
            assert(decreases_to!(es => es[0]));
            assert(decreases_to!(es[0] => es[0].1));
        }
    }
}

proof fn filters_stay_wrong(items: Seq<Tree>, now_ms: u64, n: nat, m: nat)
    requires
        n <= m <= items.len(),
        filters_in(items, now_ms, n) is Err,
    ensures
        filters_in(items, now_ms, m) == filters_in(items, now_ms, n),
    decreases m - n,
{
    if n < m {
        filters_stay_wrong(items, now_ms, n, (m - 1) as nat);
    }
}

fn read_filters(items: &Vec<Json>, now_ms: u64) -> (r: Result<Vec<Query>, ServiceError>)
    ensures
        match r {
            Ok(v) => filters_in(value::items_of(items@), now_ms, items@.len()) == Ok::<
                Seq<QueryV>,
                Failure,
            >(query::query_views(v@)),
            Err(e) => filters_in(value::items_of(items@), now_ms, items@.len()) == Err::<
                Seq<QueryV>,
                Failure,
            >(e@),
        },
    decreases items@,
{
    let ghost all = value::items_of(items@);
    let mut out: Vec<Query> = Vec::new();
    let mut i: usize = 0;
    assert(query::query_views(out@) =~= Seq::empty());
    while i < items.len()
        invariant
            i <= items@.len(),
            all == value::items_of(items@),
            filters_in(all, now_ms, i as nat) == Ok::<Seq<QueryV>, Failure>(
                query::query_views(out@),
            ),
        decreases items.len() - i,
    {
        assert(all[i as int] == items@[i as int]@);
        assert(decreases_to!(items@ => items@[i as int]));
        match filter_from(&items[i], now_ms) {
            Ok(v) => {
                let ghost was = query::query_views(out@);
                let ghost vv = v@;
                out.push(v);
                assert(query::query_views(out@) =~= was.push(vv));
            },
            Err(e) => {
                proof {
                    filters_stay_wrong(all, now_ms, i as nat + 1, items@.len());
                }
                return Err(e);
            },
        }
        i += 1;
    }
    Ok(out)
}

fn make_bool(must: Vec<Query>, should: Vec<Query>, must_not: Vec<Query>) -> (r: Query)
    ensures
        r@ == bool_query(
            query::query_views(must@),
            query::query_views(should@),
            query::query_views(must_not@),
        ),
{
    let filter: Vec<Query> = Vec::new();
    assert(query::query_views(filter@) =~= Seq::empty());
    Query::Bool { must, should, must_not, filter, minimum_should_match: None }
}

fn no_queries() -> (r: Vec<Query>)
    ensures
        query::query_views(r@) == Seq::<QueryV>::empty(),
{
    let v: Vec<Query> = Vec::new();
    assert(query::query_views(v@) =~= Seq::empty());
    v
}

/// The filter of a JSON value.
pub fn filter_from(v: &Json, now_ms: u64) -> (r: Result<Query, ServiceError>)
    ensures
        match r {
            Ok(q) => filter_in(v@, now_ms) == Ok::<QueryV, Failure>(q@),
            Err(e) => filter_in(v@, now_ms) == Err::<QueryV, Failure>(e@),
        },
    decreases v,
{
    let (kind, body) = match single(v, "a filter") {
        Ok(p) => p,
        Err(e) => {
            return Err(e);
        },
    };
    proof {
        assert(decreases_to!(*v => v->Object_0));
        assert(decreases_to!(v->Object_0 => v->Object_0@));
        assert(decreases_to!(v->Object_0@ => v->Object_0@[0]));
        assert(decreases_to!(v->Object_0@[0] => v->Object_0@[0].1));
    }
    let all = text::same(kind, "and");
    if all || text::same(kind, "or") {
        return match body {
            Json::Array(items) => {
                proof {
                    assert(decreases_to!(*body => body->Array_0));
                    assert(decreases_to!(*items => items@));
                }
                match read_filters(items, now_ms) {
                    Ok(qs) => if all {
                        Ok(make_bool(qs, no_queries(), no_queries()))
                    } else {
                        Ok(make_bool(no_queries(), qs, no_queries()))
                    },
                    Err(e) => Err(e),
                }
            },
            _ => Err(error::invalid(text::cat2(kind, " must be a list of filters"))),
        };
    }
    if text::same(kind, "not") {
        return match filter_from(body, now_ms) {
            Ok(q) => {
                let ghost qv = q@;
                let mut must_not: Vec<Query> = Vec::new();
                must_not.push(q);
                assert(query::query_views(must_not@) =~= seq![qv]);
                Ok(make_bool(no_queries(), no_queries(), must_not))
            },
            Err(e) => Err(e),
        };
    }
    read_leaf(kind, body, now_ms)
}

} // verus!
