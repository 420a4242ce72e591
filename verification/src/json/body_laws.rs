//! What a query body says: its filter matches the documents that it
//! describes, and every setting is the value under its name.

use crate::error::Failure;
use crate::ir;
use crate::ir::{ConsistencyV, FusionV, RetrieverV, SourceFilterV};
use crate::json::fields;
use crate::json::filters;
use crate::json::hybrid;
use crate::json::hybrid::HybridV;
use crate::json::pk;
use crate::json::value;
use crate::json::value::{Num, Tree};
use crate::meaning;
use crate::meaning::DocV;
use crate::query::{BoolOperator, QueryV};
use crate::text;
use crate::values::FieldV;
use vstd::prelude::*;
use vstd::string::*;

verus! {

/// Whether an object has a value under a name: that of the first entry of
/// the name.
pub open spec fn is_under(es: Seq<(Seq<char>, Tree)>, name: Seq<char>, t: Tree) -> bool {
    exists|i: int| #[trigger] is_first_of(es, name, i) && es[i].1 == t
}

/// Whether the first entry of a name stands at a place.
pub open spec fn is_first_of(es: Seq<(Seq<char>, Tree)>, name: Seq<char>, i: int) -> bool {
    &&& 0 <= i < es.len()
    &&& es[i].0 == name
    &&& forall|j: int| 0 <= j < i ==> (#[trigger] es[j]).0 != name
}

/// Whether an object lacks a name.
pub open spec fn lacks(es: Seq<(Seq<char>, Tree)>, name: Seq<char>) -> bool {
    forall|i: int| 0 <= i < es.len() ==> (#[trigger] es[i]).0 != name
}

/// Looking a name up gives the value under it, or none where it is lacking.
pub proof fn lookups_find_the_name(es: Seq<(Seq<char>, Tree)>, name: Seq<char>)
    ensures
        match value::lookup(es, name) {
            Some(t) => is_under(es, name, t) && !lacks(es, name),
            None => lacks(es, name),
        },
    decreases es.len(),
{
    if es.len() > 0 {
        if es[0].0 == name {
            assert(is_first_of(es, name, 0));
        } else {
            let rest = es.drop_first();
            lookups_find_the_name(rest, name);
            match value::lookup(rest, name) {
                Some(t) => {
                    let i = choose|i: int| #[trigger] is_first_of(rest, name, i) && rest[i].1 == t;
                    assert forall|j: int| 0 <= j < i + 1 implies (#[trigger] es[j]).0 != name by {
                        if j > 0 {
                            assert(rest[j - 1] == es[j]);
                        }
                    }
                    assert(es[i + 1] == rest[i]);
                    assert(is_first_of(es, name, i + 1));
                },
                None => {
                    assert forall|j: int| 0 <= j < es.len() implies (#[trigger] es[j]).0 != name by {
                        if j > 0 {
                            assert(rest[j - 1] == es[j]);
                        }
                    }
                },
            }
        }
    }
}

/// The seconds of a unit of time.
pub open spec fn unit_seconds(c: char) -> int {
    if c == 's' {
        1
    } else if c == 'm' {
        60
    } else if c == 'h' {
        3_600
    } else {
        86_400
    }
}

/// Whether a text is a date relative to now: `now`, or `now` with a sign.
pub open spec fn is_relative(s: Seq<char>) -> bool {
    &&& s.len() >= 3
    &&& s[0] == 'n' && s[1] == 'o' && s[2] == 'w'
    &&& s.len() > 3 ==> s[3] == '+' || s[3] == '-'
}

/// Whether a moment in microseconds is the one that a text names: now, or so
/// many units of time before or after.
pub open spec fn is_moment(s: Seq<char>, now_ms: u64, micros: i64) -> bool {
    if s.len() == 3 {
        micros == now_ms * 1_000
    } else {
        let count = text::value(text::unsigned_digits(s.subrange(4, s.len() - 1)));
        let away = count * unit_seconds(s.last()) * 1_000_000;
        if s[3] == '+' {
            micros == now_ms * 1_000 + away
        } else {
            micros == now_ms * 1_000 - away
        }
    }
}

/// Whether a field value is what a JSON value says: the same truth value,
/// number or text, or the moment of a date relative to now.
pub open spec fn is_said(t: Tree, now_ms: u64, v: FieldV) -> bool {
    match t {
        Tree::Bool(b) => v == FieldV::Bool(b),
        Tree::Number(Num::Unsigned(n)) => meaning::integer(v) == Some(n as int),
        Tree::Number(Num::Negative(n)) => meaning::integer(v) == Some(n as int),
        Tree::Number(Num::Float { bits, .. }) => v == FieldV::F64(bits),
        Tree::Text(s) => if is_relative(s) {
            v matches FieldV::Date(micros) && is_moment(s, now_ms, micros)
        } else {
            v == FieldV::Str(s)
        },
        _ => false,
    }
}

/// The value of a filter is what its JSON says, and a list or an object is
/// none.
pub proof fn values_are_what_is_said(t: Tree, now_ms: u64)
    ensures
        match filters::value_in(t, now_ms) {
            Ok(v) => is_said(t, now_ms, v),
            Err(_) => t is Null || t is Array || t is Object || (t matches Tree::Text(s)
                && is_relative(s)),
        },
{
    if let Tree::Text(s) = t {
        reveal_strlit("now");
        let now = "now"@;
        assert(now.len() == 3 && now[0] == 'n' && now[1] == 'o' && now[2] == 'w');
        match text::without_prefix(s, now) {
            Some(rest) => {
                assert(s =~= now + rest);
                assert(s[0] == 'n' && s[1] == 'o' && s[2] == 'w');
                if rest.len() > 0 {
                    assert(s[3] == rest[0]);
                    let shift = rest.skip(1);
                    if shift.len() > 0 {
                        assert(shift.last() == s.last());
                        assert(shift.drop_last() =~= s.subrange(4, s.len() - 1));
                        let n = text::value(text::unsigned_digits(shift.drop_last()));
                        let u = unit_seconds(s.last());
                        if let Some(per) = filters::unit_ms(s.last()) {
                            assert(per == u * 1_000);
                            assert(n * per * 1_000 == n * u * 1_000_000) by (nonlinear_arith)
                                requires
                                    per == u * 1_000,
                            ;
                        }
                    }
                }
            },
            None => {
                if is_relative(s) {
                    assert(s.take(3) =~= now);
                    assert(s =~= now + s.skip(3));
                    text::prefix_of_sum(now, s.skip(3));
                }
            },
        }
    }
}

/// Whether a value passes the comparison of a name with a bound.
pub open spec fn passes_bound(name: Seq<char>, x: FieldV, bound: FieldV) -> bool {
    if name == "gt"@ {
        meaning::less(bound, x)
    } else if name == "gte"@ {
        meaning::less(bound, x) || meaning::same(bound, x)
    } else if name == "lt"@ {
        meaning::less(x, bound)
    } else {
        meaning::less(x, bound) || meaning::same(x, bound)
    }
}

/// The value of a filter.
pub open spec fn value_of(t: Tree, now_ms: u64) -> FieldV {
    filters::value_in(t, now_ms)->Ok_0
}

/// Whether a value passes every comparison that a range names.
pub open spec fn passes_all(es: Seq<(Seq<char>, Tree)>, now_ms: u64, x: FieldV) -> bool {
    forall|i: int|
        #![trigger es[i]]
        0 <= i < es.len() && is_first_of(es, es[i].0, i) ==> passes_bound(
            es[i].0,
            x,
            value_of(es[i].1, now_ms),
        )
}

/// Whether a document is one that a filter describes.
pub open spec fn describes(
    t: Tree,
    now_ms: u64,
    d: DocV,
    words: spec_fn(QueryV, DocV) -> bool,
) -> bool
    decreases t, 0nat,
{
    match t {
        Tree::Object(es) => {
            proof {
                filters::single_is_smaller(t);
            }
            es.len() == 1 && kind_describes(es[0].0, es[0].1, now_ms, d, words)
        },
        _ => false,
    }
}

/// Whether a document is one that a filter of a kind describes: all or one
/// of its parts, or not its part; a value that is the same, one of several,
/// or within bounds; a field that has values; one of some keys; or any of
/// some words.
pub open spec fn kind_describes(
    kind: Seq<char>,
    body: Tree,
    now_ms: u64,
    d: DocV,
    words: spec_fn(QueryV, DocV) -> bool,
) -> bool
    decreases body, 1nat,
{
    if kind == "and"@ {
        body matches Tree::Array(items) && forall|i: int|
            0 <= i < items.len() ==> describes(#[trigger] items[i], now_ms, d, words)
    } else if kind == "or"@ {
        body matches Tree::Array(items) && (items.len() == 0 || exists|i: int|
            0 <= i < items.len() && describes(#[trigger] items[i], now_ms, d, words))
    } else if kind == "not"@ {
        !describes(body, now_ms, d, words)
    } else if kind == "exists"@ {
        body matches Tree::Text(field) && meaning::values_of(d, field).len() > 0
    } else if kind == "ids"@ {
        body matches Tree::Array(items) && exists|i: int|
            0 <= i < items.len() && pk::json_key(#[trigger] items[i]) == Some(d.key)
    } else {
        body matches Tree::Object(es) && es.len() == 1 && field_describes(
            kind,
            es[0].0,
            es[0].1,
            now_ms,
            d,
            words,
        )
    }
}

/// Whether a document is one that a filter of one field describes.
pub open spec fn field_describes(
    kind: Seq<char>,
    field: Seq<char>,
    t: Tree,
    now_ms: u64,
    d: DocV,
    words: spec_fn(QueryV, DocV) -> bool,
) -> bool {
    if kind == "term"@ {
        meaning::has_value(d, field, value_of(t, now_ms))
    } else if kind == "terms"@ {
        t matches Tree::Array(items) && exists|i: int|
            0 <= i < items.len() && meaning::has_value(
                d,
                field,
                value_of(#[trigger] items[i], now_ms),
            )
    } else if kind == "range"@ {
        t matches Tree::Object(es) && exists|i: int|
            0 <= i < meaning::values_of(d, field).len() && passes_all(
                es,
                now_ms,
                #[trigger] meaning::values_of(d, field)[i],
            )
    } else {
        t matches Tree::Text(s) && words(
            QueryV::Match {
                field,
                text: s,
                operator: BoolOperator::Or,
                minimum_should_match: None,
                fuzziness: None,
                analyzer: None,
            },
            d,
        )
    }
}

proof fn kinds_differ()
    ensures
        "and"@ != "or"@,
        "and"@ != "not"@,
        "or"@ != "not"@,
        "and"@.len() == 3,
        "or"@.len() == 2,
        "not"@.len() == 3,
        "exists"@.len() == 6,
        "exists"@[0] == 'e',
        "ids"@.len() == 3,
        "ids"@[0] == 'i',
        "and"@[0] == 'a',
        "not"@[0] == 'n',
        "term"@.len() == 4,
        "terms"@.len() == 5,
        "terms"@[0] == 't',
        "range"@.len() == 5,
        "range"@[0] == 'r',
        "match"@.len() == 5,
        "match"@[0] == 'm',
{
    reveal_strlit("and");
    reveal_strlit("or");
    reveal_strlit("not");
    reveal_strlit("exists");
    reveal_strlit("ids");
    reveal_strlit("term");
    reveal_strlit("terms");
    reveal_strlit("range");
    reveal_strlit("match");
    assert("and"@.len() == 3 && "or"@.len() == 2 && "not"@.len() == 3);
    assert("and"@[0] == 'a' && "not"@[0] == 'n');
    assert("exists"@[0] == 'e' && "ids"@[0] == 'i');
    assert("terms"@[0] == 't' && "range"@[0] == 'r' && "match"@[0] == 'm');
}

proof fn bounds_differ()
    ensures
        "gt"@ != "gte"@,
        "gt"@ != "lt"@,
        "gt"@ != "lte"@,
        "gte"@ != "lt"@,
        "gte"@ != "lte"@,
        "lt"@ != "lte"@,
{
    reveal_strlit("gt");
    reveal_strlit("gte");
    reveal_strlit("lt");
    reveal_strlit("lte");
    assert("gt"@.len() == 2 && "gte"@.len() == 3 && "lt"@.len() == 2 && "lte"@.len() == 3);
    assert("gt"@[0] == 'g' && "lt"@[0] == 'l' && "gte"@[0] == 'g' && "lte"@[0] == 'l');
}

proof fn known_keys(es: Seq<(Seq<char>, Tree)>, allowed: Seq<Seq<char>>, from: int)
    requires
        0 <= from,
    ensures
        fields::unknown_key(es, allowed, from) is None ==> forall|i: int|
            from <= i < es.len() ==> allowed.contains((#[trigger] es[i]).0),
        fields::unknown_key(es, allowed, from) matches Some(key) ==> !allowed.contains(key),
    decreases es.len() - from,
{
    if from < es.len() && allowed.contains(es[from].0) {
        known_keys(es, allowed, from + 1);
    }
}

proof fn bound_is(es: Seq<(Seq<char>, Tree)>, name: Seq<char>, now_ms: u64)
    ensures
        filters::bound_in(es, name, now_ms) matches Ok(b) ==> match b {
            Some(v) => exists|i: int| #[trigger]
                is_first_of(es, name, i) && v == value_of(es[i].1, now_ms) && is_said(
                    es[i].1,
                    now_ms,
                    v,
                ),
            None => lacks(es, name),
        },
{
    lookups_find_the_name(es, name);
    if let Some(t) = value::lookup(es, name) {
        values_are_what_is_said(t, now_ms);
        let i = choose|i: int| #[trigger] is_first_of(es, name, i) && es[i].1 == t;
        assert(is_first_of(es, name, i));
    }
}

/// Whether a bound is the value under a name: what the value says, or none
/// where there is no such name.
pub open spec fn is_bound(
    es: Seq<(Seq<char>, Tree)>,
    name: Seq<char>,
    now_ms: u64,
    bound: Option<FieldV>,
) -> bool {
    match bound {
        Some(v) => exists|t: Tree| #[trigger] is_under(es, name, t) && is_said(t, now_ms, v),
        None => lacks(es, name),
    }
}

/// A range filter is over the field that it names, and each of its bounds is
/// the value under the bound's own name; a bound without its name is none,
/// and no other name is allowed.
pub proof fn bounds_are_under_their_names(body: Tree, now_ms: u64)
    ensures
        filters::range_in(body, now_ms) matches Ok(q) ==> {
            &&& body matches Tree::Object(one)
            &&& one.len() == 1
            &&& one[0].1 matches Tree::Object(es)
            &&& q matches QueryV::Range { field, gt, gte, lt, lte }
            &&& field == one[0].0
            &&& is_bound(es, "gt"@, now_ms, gt)
            &&& is_bound(es, "gte"@, now_ms, gte)
            &&& is_bound(es, "lt"@, now_ms, lt)
            &&& is_bound(es, "lte"@, now_ms, lte)
            &&& forall|i: int|
                0 <= i < es.len() ==> (#[trigger] es[i]).0 == "gt"@ || es[i].0 == "gte"@ || es[i].0
                    == "lt"@ || es[i].0 == "lte"@
        },
{
    if let Ok(q) = filters::range_in(body, now_ms) {
        let es = body->Object_0[0].1->Object_0;
        under_its_name(es, "gt"@, now_ms);
        under_its_name(es, "gte"@, now_ms);
        under_its_name(es, "lt"@, now_ms);
        under_its_name(es, "lte"@, now_ms);
        range_keys(es);
    }
}

proof fn under_its_name(es: Seq<(Seq<char>, Tree)>, name: Seq<char>, now_ms: u64)
    ensures
        filters::bound_in(es, name, now_ms) matches Ok(b) ==> is_bound(es, name, now_ms, b),
{
    lookups_find_the_name(es, name);
    if let Some(t) = value::lookup(es, name) {
        values_are_what_is_said(t, now_ms);
        assert(is_under(es, name, t));
    }
}

proof fn range_keys(es: Seq<(Seq<char>, Tree)>)
    ensures
        fields::unknown_key(es, seq!["gt"@, "gte"@, "lt"@, "lte"@], 0) is None ==> forall|i: int|
            0 <= i < es.len() ==> (#[trigger] es[i]).0 == "gt"@ || es[i].0 == "gte"@ || es[i].0
                == "lt"@ || es[i].0 == "lte"@,
{
    let allowed = seq!["gt"@, "gte"@, "lt"@, "lte"@];
    known_keys(es, allowed, 0);
    if fields::unknown_key(es, allowed, 0) is None {
        assert forall|i: int| 0 <= i < es.len() implies (#[trigger] es[i]).0 == "gt"@ || es[i].0
            == "gte"@ || es[i].0 == "lt"@ || es[i].0 == "lte"@ by {
            assert(allowed.contains(es[i].0));
            let j = choose|j: int| 0 <= j < 4 && allowed[j] == es[i].0;
            assert(j == 0 || j == 1 || j == 2 || j == 3);
        }
    }
}

proof fn ranges_pass(es: Seq<(Seq<char>, Tree)>, now_ms: u64, x: FieldV, q: QueryV)
    requires
        fields::unknown_key(es, seq!["gt"@, "gte"@, "lt"@, "lte"@], 0) is None,
        q is Range,
        filters::bound_in(es, "gt"@, now_ms) == Ok::<Option<FieldV>, Failure>(q->Range_gt),
        filters::bound_in(es, "gte"@, now_ms) == Ok::<Option<FieldV>, Failure>(q->Range_gte),
        filters::bound_in(es, "lt"@, now_ms) == Ok::<Option<FieldV>, Failure>(q->Range_lt),
        filters::bound_in(es, "lte"@, now_ms) == Ok::<Option<FieldV>, Failure>(q->Range_lte),
    ensures
        meaning::within(x, q->Range_gt, q->Range_gte, q->Range_lt, q->Range_lte) == passes_all(
            es,
            now_ms,
            x,
        ),
{
    bounds_differ();
    range_keys(es);
    bound_is(es, "gt"@, now_ms);
    bound_is(es, "gte"@, now_ms);
    bound_is(es, "lt"@, now_ms);
    bound_is(es, "lte"@, now_ms);
    if passes_all(es, now_ms, x) {
        bound_passes(es, "gt"@, now_ms, x);
        bound_passes(es, "gte"@, now_ms, x);
        bound_passes(es, "lt"@, now_ms, x);
        bound_passes(es, "lte"@, now_ms, x);
    }
    if meaning::within(x, q->Range_gt, q->Range_gte, q->Range_lt, q->Range_lte) {
        assert forall|i: int|
            #![trigger es[i]]
            0 <= i < es.len() && is_first_of(es, es[i].0, i) implies passes_bound(
            es[i].0,
            x,
            value_of(es[i].1, now_ms),
        ) by {
            first_is_one(es, es[i].0, i);
        }
    }
}

proof fn first_is_one(es: Seq<(Seq<char>, Tree)>, name: Seq<char>, i: int)
    requires
        is_first_of(es, name, i),
    ensures
        forall|j: int| #[trigger] is_first_of(es, name, j) ==> j == i,
{
    assert forall|j: int| #[trigger] is_first_of(es, name, j) implies j == i by {
        if j < i {
            assert(es[j].0 != name);
        } else if i < j {
            assert(es[i].0 != name);
        }
    }
}

proof fn bound_passes(es: Seq<(Seq<char>, Tree)>, name: Seq<char>, now_ms: u64, x: FieldV)
    requires
        passes_all(es, now_ms, x),
    ensures
        forall|i: int| #[trigger]
            is_first_of(es, name, i) ==> passes_bound(name, x, value_of(es[i].1, now_ms)),
{
    assert forall|i: int| #[trigger] is_first_of(es, name, i) implies passes_bound(
        name,
        x,
        value_of(es[i].1, now_ms),
    ) by {
        assert(es[i].0 == name);
    }
}

proof fn listed_values(items: Seq<Tree>, now_ms: u64, n: nat)
    requires
        n <= items.len(),
    ensures
        filters::values_in(items, now_ms, n) matches Ok(out) ==> {
            &&& out.len() == n
            &&& forall|i: int|
                0 <= i < n ==> #[trigger] out[i] == value_of(items[i], now_ms)
        },
    decreases n,
{
    if n > 0 {
        listed_values(items, now_ms, (n - 1) as nat);
    }
}

proof fn listed_keys(items: Seq<Tree>, n: nat)
    requires
        n <= items.len(),
    ensures
        filters::keys_in(items, n) matches Ok(out) ==> {
            &&& out.len() == n
            &&& forall|i: int|
                0 <= i < n ==> Some(#[trigger] out[i]) == pk::json_key(items[i])
        },
    decreases n,
{
    if n > 0 {
        listed_keys(items, (n - 1) as nat);
    }
}

proof fn leaves_match(
    kind: Seq<char>,
    body: Tree,
    now_ms: u64,
    d: DocV,
    words: spec_fn(QueryV, DocV) -> bool,
)
    requires
        kind != "and"@,
        kind != "or"@,
        kind != "not"@,
    ensures
        filters::leaf_in(kind, body, now_ms) matches Ok(q) ==> meaning::finds(q, d, words)
            == kind_describes(kind, body, now_ms, d, words),
{
    kinds_differ();
    if let Ok(q) = filters::leaf_in(kind, body, now_ms) {
        if kind == "term"@ {
        } else if kind == "terms"@ {
            let one = body->Object_0;
            let items = one[0].1->Array_0;
            listed_values(items, now_ms, items.len());
            let out = q->Terms_values;
            if meaning::finds(q, d, words) {
                let i = choose|i: int|
                    0 <= i < out.len() && meaning::has_value(d, one[0].0, #[trigger] out[i]);
                assert(out[i] == value_of(items[i], now_ms));
            }
            if kind_describes(kind, body, now_ms, d, words) {
                let i = choose|i: int|
                    0 <= i < items.len() && meaning::has_value(
                        d,
                        one[0].0,
                        value_of(#[trigger] items[i], now_ms),
                    );
                assert(out[i] == value_of(items[i], now_ms));
            }
        } else if kind == "range"@ {
            let one = body->Object_0;
            let es = one[0].1->Object_0;
            let all = meaning::values_of(d, one[0].0);
            assert forall|i: int| 0 <= i < all.len() implies meaning::within(
                #[trigger] all[i],
                q->Range_gt,
                q->Range_gte,
                q->Range_lt,
                q->Range_lte,
            ) == passes_all(es, now_ms, all[i]) by {
                ranges_pass(es, now_ms, all[i], q);
            }
        } else if kind == "ids"@ {
            let items = body->Array_0;
            listed_keys(items, items.len());
            let out = q->Ids_0;
            if out.contains(d.key) {
                let i = choose|i: int| 0 <= i < out.len() && out[i] == d.key;
                assert(pk::json_key(items[i]) == Some(d.key));
            }
            if kind_describes(kind, body, now_ms, d, words) {
                let i = choose|i: int|
                    0 <= i < items.len() && pk::json_key(#[trigger] items[i]) == Some(d.key);
                assert(out[i] == d.key);
            }
        }
    }
}

/// A filter matches just the documents that its body describes.
pub proof fn filters_match_what_is_described(
    t: Tree,
    now_ms: u64,
    d: DocV,
    words: spec_fn(QueryV, DocV) -> bool,
)
    ensures
        filters::filter_in(t, now_ms) matches Ok(q) ==> meaning::finds(q, d, words) == describes(
            t,
            now_ms,
            d,
            words,
        ),
    decreases t, 0nat,
{
    kinds_differ();
    if let Ok(q) = filters::filter_in(t, now_ms) {
        let es = t->Object_0;
        let kind = es[0].0;
        let body = es[0].1;
        filters::single_is_smaller(t);
        assert(describes(t, now_ms, d, words) == kind_describes(kind, body, now_ms, d, words));
        if kind == "and"@ || kind == "or"@ {
            let items = body->Array_0;
            assert(decreases_to!(body => body->Array_0));
            all_match_what_is_described(items, now_ms, items.len(), d, words);
            let parts = filters::filters_in(items, now_ms, items.len())->Ok_0;
            if kind == "and"@ {
                assert(q->Bool_must == parts);
                if meaning::finds(q, d, words) {
                    assert forall|i: int| 0 <= i < items.len() implies describes(
                        #[trigger] items[i],
                        now_ms,
                        d,
                        words,
                    ) by {
                        assert(meaning::finds(q->Bool_must[i], d, words));
                    }
                }
                if kind_describes(kind, body, now_ms, d, words) {
                    assert forall|i: int| 0 <= i < parts.len() implies meaning::finds(
                        #[trigger] q->Bool_must[i],
                        d,
                        words,
                    ) by {
                        assert(describes(items[i], now_ms, d, words));
                    }
                }
            } else {
                assert(q->should == parts);
                if meaning::finds(q, d, words) && items.len() > 0 {
                    let i = choose|i: int|
                        0 <= i < parts.len() && meaning::finds(#[trigger] q->should[i], d, words);
                    assert(describes(items[i], now_ms, d, words));
                }
                if kind_describes(kind, body, now_ms, d, words) && items.len() > 0 {
                    let i = choose|i: int|
                        0 <= i < items.len() && describes(#[trigger] items[i], now_ms, d, words);
                    assert(meaning::finds(q->should[i], d, words));
                }
            }
        } else if kind == "not"@ {
            filters_match_what_is_described(body, now_ms, d, words);
            let part = filters::filter_in(body, now_ms)->Ok_0;
            assert(q->must_not == seq![part]);
            assert(q->must_not[0] == part);
            if meaning::finds(q, d, words) {
                assert(!meaning::finds(q->must_not[0], d, words));
            }
        } else {
            leaves_match(kind, body, now_ms, d, words);
        }
    }
}

proof fn all_match_what_is_described(
    items: Seq<Tree>,
    now_ms: u64,
    n: nat,
    d: DocV,
    words: spec_fn(QueryV, DocV) -> bool,
)
    requires
        n <= items.len(),
    ensures
        filters::filters_in(items, now_ms, n) matches Ok(parts) ==> {
            &&& parts.len() == n
            &&& forall|i: int|
                0 <= i < n ==> meaning::finds(#[trigger] parts[i], d, words) == describes(
                    items[i],
                    now_ms,
                    d,
                    words,
                )
        },
    decreases items, n,
{
    if n > 0 {
        assert(decreases_to!(items => items[n - 1]));
        all_match_what_is_described(items, now_ms, (n - 1) as nat, d, words);
        filters_match_what_is_described(items[n - 1], now_ms, d, words);
    }
}

/// Whether a filter can be read: an object of one known kind, whose body is
/// of the kind's form.
pub open spec fn is_filter(t: Tree, now_ms: u64) -> bool
    decreases t, 0nat,
{
    match t {
        Tree::Object(es) => {
            proof {
                filters::single_is_smaller(t);
            }
            es.len() == 1 && is_filter_body(es[0].0, es[0].1, now_ms)
        },
        _ => false,
    }
}

/// Whether a value can be read.
pub open spec fn is_value(t: Tree, now_ms: u64) -> bool {
    filters::value_in(t, now_ms) is Ok
}

/// Whether the body of a filter is of its kind's form.
pub open spec fn is_filter_body(kind: Seq<char>, body: Tree, now_ms: u64) -> bool
    decreases body, 1nat,
{
    if kind == "and"@ || kind == "or"@ {
        body matches Tree::Array(items) && forall|i: int|
            0 <= i < items.len() ==> is_filter(#[trigger] items[i], now_ms)
    } else if kind == "not"@ {
        is_filter(body, now_ms)
    } else if kind == "exists"@ {
        body is Text
    } else if kind == "ids"@ {
        body matches Tree::Array(items) && forall|i: int|
            0 <= i < items.len() ==> pk::json_key(#[trigger] items[i]) is Some
    } else {
        body matches Tree::Object(es) && es.len() == 1 && if kind == "term"@ {
            is_value(es[0].1, now_ms)
        } else if kind == "terms"@ {
            es[0].1 matches Tree::Array(items) && forall|i: int|
                0 <= i < items.len() ==> is_value(#[trigger] items[i], now_ms)
        } else if kind == "range"@ {
            es[0].1 matches Tree::Object(bounds) && forall|i: int|
                #![trigger bounds[i]]
                0 <= i < bounds.len() ==> (bounds[i].0 == "gt"@ || bounds[i].0 == "gte"@
                    || bounds[i].0 == "lt"@ || bounds[i].0 == "lte"@) && (is_first_of(
                    bounds,
                    bounds[i].0,
                    i,
                ) ==> is_value(bounds[i].1, now_ms))
        } else {
            kind == "match"@ && es[0].1 is Text
        }
    }
}

proof fn values_read(items: Seq<Tree>, now_ms: u64, n: nat)
    requires
        n <= items.len(),
    ensures
        filters::values_in(items, now_ms, n) is Ok <==> forall|i: int|
            0 <= i < n ==> is_value(#[trigger] items[i], now_ms),
    decreases n,
{
    if n > 0 {
        values_read(items, now_ms, (n - 1) as nat);
    }
}

proof fn keys_read(items: Seq<Tree>, n: nat)
    requires
        n <= items.len(),
    ensures
        filters::keys_in(items, n) is Ok <==> forall|i: int|
            0 <= i < n ==> pk::json_key(#[trigger] items[i]) is Some,
    decreases n,
{
    if n > 0 {
        keys_read(items, (n - 1) as nat);
    }
}

proof fn bound_reads(es: Seq<(Seq<char>, Tree)>, name: Seq<char>, now_ms: u64)
    ensures
        filters::bound_in(es, name, now_ms) is Ok <==> forall|i: int| #[trigger]
            is_first_of(es, name, i) ==> is_value(es[i].1, now_ms),
{
    lookups_find_the_name(es, name);
    match value::lookup(es, name) {
        Some(t) => {
            let i = choose|i: int| #[trigger] is_first_of(es, name, i) && es[i].1 == t;
            first_is_one(es, name, i);
        },
        None => {},
    }
}

proof fn ranges_read(es: Seq<(Seq<char>, Tree)>, now_ms: u64)
    ensures
        (fields::unknown_key(es, seq!["gt"@, "gte"@, "lt"@, "lte"@], 0) is None
            && filters::bound_in(es, "gt"@, now_ms) is Ok && filters::bound_in(
            es,
            "gte"@,
            now_ms,
        ) is Ok && filters::bound_in(es, "lt"@, now_ms) is Ok && filters::bound_in(
            es,
            "lte"@,
            now_ms,
        ) is Ok) <==> forall|i: int|
            #![trigger es[i]]
            0 <= i < es.len() ==> (es[i].0 == "gt"@ || es[i].0 == "gte"@ || es[i].0 == "lt"@
                || es[i].0 == "lte"@) && (is_first_of(es, es[i].0, i) ==> is_value(
                es[i].1,
                now_ms,
            )),
{
    bound_reads(es, "gt"@, now_ms);
    bound_reads(es, "gte"@, now_ms);
    bound_reads(es, "lt"@, now_ms);
    bound_reads(es, "lte"@, now_ms);
    range_keys(es);
    if forall|i: int|
        #![trigger es[i]]
        0 <= i < es.len() ==> (es[i].0 == "gt"@ || es[i].0 == "gte"@ || es[i].0 == "lt"@
            || es[i].0 == "lte"@) && (is_first_of(es, es[i].0, i) ==> is_value(es[i].1, now_ms)) {
        let allowed = seq!["gt"@, "gte"@, "lt"@, "lte"@];
        assert(allowed[0] == "gt"@ && allowed[1] == "gte"@ && allowed[2] == "lt"@ && allowed[3]
            == "lte"@);
        known_keys(es, allowed, 0);
        unknown_is_there(es, allowed, 0);
        assert forall|name: Seq<char>, i: int| #[trigger]
            is_first_of(es, name, i) implies is_value(es[i].1, now_ms) by {
            assert(es[i].0 == name);
        }
    }
}

proof fn unknown_is_there(es: Seq<(Seq<char>, Tree)>, allowed: Seq<Seq<char>>, from: int)
    requires
        0 <= from,
    ensures
        fields::unknown_key(es, allowed, from) matches Some(key) ==> exists|i: int|
            from <= i < es.len() && (#[trigger] es[i]).0 == key,
    decreases es.len() - from,
{
    if from < es.len() && allowed.contains(es[from].0) {
        unknown_is_there(es, allowed, from + 1);
    }
}

/// Just the filters of a known kind and form are read; every other is
/// refused.
pub proof fn filters_are_read(t: Tree, now_ms: u64)
    ensures
        filters::filter_in(t, now_ms) is Ok <==> is_filter(t, now_ms),
    decreases t, 0nat,
{
    kinds_differ();
    if let Tree::Object(es) = t {
        if es.len() == 1 {
            filters::single_is_smaller(t);
            let kind = es[0].0;
            let body = es[0].1;
            assert(is_filter(t, now_ms) == is_filter_body(kind, body, now_ms));
            if kind == "and"@ || kind == "or"@ {
                if let Tree::Array(items) = body {
                    assert(decreases_to!(body => body->Array_0));
                    all_are_read(items, now_ms, items.len());
                }
            } else if kind == "not"@ {
                filters_are_read(body, now_ms);
            } else if kind == "terms"@ {
                if body is Object && body->Object_0.len() == 1 {
                    if let Tree::Array(items) = body->Object_0[0].1 {
                        values_read(items, now_ms, items.len());
                    }
                }
            } else if kind == "ids"@ {
                if let Tree::Array(items) = body {
                    keys_read(items, items.len());
                }
            } else if kind == "range"@ {
                if body is Object && body->Object_0.len() == 1 {
                    if let Tree::Object(bounds) = body->Object_0[0].1 {
                        ranges_read(bounds, now_ms);
                    }
                }
            }
        }
    }
}

proof fn all_are_read(items: Seq<Tree>, now_ms: u64, n: nat)
    requires
        n <= items.len(),
    ensures
        filters::filters_in(items, now_ms, n) is Ok <==> forall|i: int|
            0 <= i < n ==> is_filter(#[trigger] items[i], now_ms),
    decreases items, n,
{
    if n > 0 {
        assert(decreases_to!(items => items[n - 1]));
        all_are_read(items, now_ms, (n - 1) as nat);
        filters_are_read(items[n - 1], now_ms);
    }
}

/// Whether a number is the one under a name.
pub open spec fn is_number_under(es: Seq<(Seq<char>, Tree)>, name: Seq<char>, n: u64) -> bool {
    is_under(es, name, Tree::Number(Num::Unsigned(n)))
}

/// Whether a number is the one under a name, and none where the name is
/// lacking or null.
pub open spec fn may_be_under(es: Seq<(Seq<char>, Tree)>, name: Seq<char>, n: Option<u32>) -> bool {
    match n {
        Some(n) => is_number_under(es, name, n as u64),
        None => lacks(es, name) || is_under(es, name, Tree::Null),
    }
}

/// Whether some floats are those of a list of numbers under a name.
pub open spec fn are_numbers_under(
    es: Seq<(Seq<char>, Tree)>,
    name: Seq<char>,
    floats: Seq<u32>,
) -> bool {
    exists|items: Seq<Tree>| #[trigger] is_under(es, name, Tree::Array(items)) && {
        &&& items.len() == floats.len()
        &&& forall|i: int|
            0 <= i < items.len() ==> (#[trigger] items[i] matches Tree::Number(n) && floats[i]
                == hybrid::number_bits(n) as u32)
    }
}

/// Whether a retriever is the one that a body says: of its kind, with every
/// setting the value under its name, and with nothing that is not said.
pub open spec fn is_said_retriever(t: Tree, r: RetrieverV) -> bool {
    &&& t matches Tree::Object(one)
    &&& one.len() == 1
    &&& one[0].1 matches Tree::Object(es)
    &&& match r {
        RetrieverV::Vector { field, query, k, params, filter } => {
            &&& one[0].0 == "vector"@
            &&& is_under(es, "field"@, Tree::Text(field))
            &&& are_numbers_under(es, "query"@, query)
            &&& is_number_under(es, "k"@, k as u64)
            &&& if params.exact {
                is_under(es, "exact"@, Tree::Bool(true))
            } else {
                lacks(es, "exact"@) || is_under(es, "exact"@, Tree::Null) || is_under(
                    es,
                    "exact"@,
                    Tree::Bool(false),
                )
            }
            &&& may_be_under(es, "nprobes"@, params.nprobes)
            &&& may_be_under(es, "refine_factor"@, params.refine_factor)
            &&& may_be_under(es, "ef"@, params.ef)
            &&& params.oversampling is None
            &&& params.distance is None
            &&& filter is None
        },
        RetrieverV::Text { query, k } => {
            &&& one[0].0 == "text"@
            &&& is_number_under(es, "k"@, k as u64)
            &&& query matches QueryV::Match {
                field,
                text,
                operator,
                minimum_should_match,
                fuzziness,
                analyzer,
            }
            &&& is_under(es, "field"@, Tree::Text(field))
            &&& is_under(es, "query"@, Tree::Text(text))
            &&& (operator == BoolOperator::And) == is_under(
                es,
                "operator"@,
                Tree::Text("and"@),
            )
            &&& minimum_should_match is None && fuzziness is None && analyzer is None
        },
        _ => false,
    }
}

proof fn under_is_one(es: Seq<(Seq<char>, Tree)>, name: Seq<char>)
    ensures
        forall|t: Tree| #[trigger] is_under(es, name, t) ==> value::lookup(es, name) == Some(t),
        forall|t: Tree| value::lookup(es, name) == Some(t) ==> #[trigger] is_under(es, name, t),
        value::lookup(es, name) is None <==> lacks(es, name),
{
    lookups_find_the_name(es, name);
    assert forall|t: Tree| #[trigger] is_under(es, name, t) implies value::lookup(es, name)
        == Some(t) by {
        let i = choose|i: int| #[trigger] is_first_of(es, name, i) && es[i].1 == t;
        first_is_one(es, name, i);
        assert(es[i].0 == name);
    }
}

/// A retriever that is read is the one that its body says.
pub proof fn retrievers_are_what_is_said(t: Tree)
    ensures
        hybrid::retriever_in(t) matches Ok(r) ==> is_said_retriever(t, r),
{
    if let Ok(r) = hybrid::retriever_in(t) {
        let es = t->Object_0[0].1->Object_0;
        under_is_one(es, "field"@);
        under_is_one(es, "query"@);
        under_is_one(es, "k"@);
        if let RetrieverV::Vector { query, .. } = r {
            under_is_one(es, "exact"@);
            under_is_one(es, "nprobes"@);
            under_is_one(es, "refine_factor"@);
            under_is_one(es, "ef"@);
            let items = value::lookup(es, "query"@)->0->Array_0;
            assert(is_under(es, "query"@, Tree::Array(items)));
            assert(are_numbers_under(es, "query"@, query));
        } else {
            under_is_one(es, "operator"@);
            reveal_strlit("or");
            reveal_strlit("and");
            assert("or"@.len() == 2 && "and"@.len() == 3);
        }
    }
}

proof fn listed_retrievers(items: Seq<Tree>, n: nat)
    requires
        n <= items.len(),
    ensures
        hybrid::retrievers_in(items, n) matches Ok(out) ==> {
            &&& out.len() == n
            &&& forall|i: int| 0 <= i < n ==> is_said_retriever(items[i], #[trigger] out[i])
        },
    decreases n,
{
    if n > 0 {
        listed_retrievers(items, (n - 1) as nat);
        retrievers_are_what_is_said(items[n - 1]);
    }
}

/// Whether a fusion is the one that a body says: by reciprocal ranks over a
/// number, sixty where it says none; by distributions; or by weights.
pub open spec fn is_said_fusion(t: Tree, f: FusionV) -> bool {
    &&& t matches Tree::Object(es)
    &&& match f {
        FusionV::Rrf { k } => is_under(es, "method"@, Tree::Text("rrf"@)) && (may_be_under(
            es,
            "k"@,
            Some(k),
        ) || (k == 60 && may_be_under(es, "k"@, None))),
        FusionV::Dbsf => is_under(es, "method"@, Tree::Text("dbsf"@)),
        FusionV::WeightedSum { weights } => is_under(es, "method"@, Tree::Text("weighted"@))
            && are_numbers_under(es, "weights"@, weights),
    }
}

/// A fusion that is read is the one that its body says.
pub proof fn fusions_are_what_is_said(t: Tree)
    ensures
        hybrid::fusion_in(t) matches Ok(f) ==> is_said_fusion(t, f),
{
    if let Ok(f) = hybrid::fusion_in(t) {
        let es = t->Object_0;
        under_is_one(es, "method"@);
        under_is_one(es, "k"@);
        under_is_one(es, "weights"@);
        if f is WeightedSum {
            let items = value::lookup(es, "weights"@)->0->Array_0;
            assert(is_under(es, "weights"@, Tree::Array(items)));
        }
    }
}

/// Whether a name selects a path of the source.
pub open spec fn is_path(name: Seq<char>) -> bool {
    &&& name != "id"@
    &&& name != "_score"@
    &&& name != "_source"@
    &&& text::without_prefix(name, "_vectors."@) is None
}

/// Whether a name is one of the first of a list.
pub open spec fn is_listed(items: Seq<Tree>, n: nat, name: Seq<char>) -> bool {
    exists|i: int| 0 <= i < n && #[trigger] items[i] == Tree::Text(name)
}

proof fn names_select(items: Seq<Tree>, n: nat)
    requires
        n <= items.len(),
    ensures
        hybrid::selected(items, n) matches Some(s) ==> {
            &&& forall|i: int| 0 <= i < n ==> #[trigger] items[i] is Text
            &&& s.all <==> is_listed(items, n, "_source"@)
            &&& forall|name: Seq<char>| #[trigger]
                s.paths.contains(name) <==> is_path(name) && is_listed(items, n, name)
            &&& forall|vector: Seq<char>| #[trigger]
                s.vectors.contains(vector) <==> is_listed(
                    items,
                    n,
                    "_vectors."@ + vector,
                )
        },
    decreases n,
{
    if n > 0 {
        let m = (n - 1) as nat;
        names_select(items, m);
        if let Some(s) = hybrid::selected(items, n) {
            let was = hybrid::selected(items, m)->0;
            let name = items[m as int]->Text_0;
            special_names();
            assert forall|vector: Seq<char>|
                name == "_vectors."@ + vector implies text::without_prefix(name, "_vectors."@)
                == Some(vector) by {
                text::prefix_of_sum("_vectors."@, vector);
            }
            if let Some(v) = text::without_prefix(name, "_vectors."@) {
                assert(name =~= "_vectors."@ + v);
            }
            assert forall|x: Seq<char>| #[trigger]
                s.paths.contains(x) <==> was.paths.contains(x) || (is_path(name) && x == name) by {
                pushed_contains(was.paths, name, x);
            }
            assert forall|x: Seq<char>| #[trigger]
                s.vectors.contains(x) <==> was.vectors.contains(x) || name == "_vectors."@ + x by {
                if let Some(v) = text::without_prefix(name, "_vectors."@) {
                    pushed_contains(was.vectors, v, x);
                }
            }
            assert forall|x: Seq<char>| #[trigger]
                is_listed(items, n, x) <==> is_listed(items, m, x) || x == name by {
                if x == name {
                    assert(items[m as int] == Tree::Text(x));
                }
                if is_listed(items, m, x) {
                    let i = choose|i: int| 0 <= i < m && #[trigger] items[i] == Tree::Text(x);
                    assert(items[i] == Tree::Text(x));
                }
            }
        }
    }
}

proof fn pushed_contains(s: Seq<Seq<char>>, y: Seq<char>, x: Seq<char>)
    ensures
        s.push(y).contains(x) <==> s.contains(x) || x == y,
{
    let t = s.push(y);
    if s.contains(x) {
        let i = choose|i: int| 0 <= i < s.len() && s[i] == x;
        assert(t[i] == x);
    }
    if x == y {
        assert(t[s.len() as int] == x);
    }
    if t.contains(x) {
        let i = choose|i: int| 0 <= i < t.len() && t[i] == x;
        if i < s.len() {
            assert(s[i] == x);
        }
    }
}

proof fn special_names()
    ensures
        forall|v: Seq<char>|
            #![trigger "_vectors."@ + v]
            "_vectors."@ + v != "id"@ && "_vectors."@ + v != "_score"@ && "_vectors."@ + v
                != "_source"@,
        "id"@ != "_source"@,
        "_score"@ != "_source"@,
{
    reveal_strlit("_vectors.");
    reveal_strlit("id");
    reveal_strlit("_score");
    reveal_strlit("_source");
    assert("id"@.len() == 2 && "_score"@.len() == 6 && "_source"@.len() == 7
        && "_vectors."@.len() == 9);
}

/// Whether a selection is the one that a list of names says: the vectors
/// that are named, and of the source all of it, the paths that are named, or
/// nothing.
pub open spec fn is_said_selection(t: Tree, p: ir::ProjectionV) -> bool {
    &&& t matches Tree::Array(items)
    &&& p.fields.len() == 0
    &&& forall|vector: Seq<char>| #[trigger]
        p.vectors.contains(vector) <==> is_listed(items, items.len(), "_vectors."@ + vector)
    &&& p.source is All <==> is_listed(items, items.len(), "_source"@)
    &&& match p.source {
        SourceFilterV::All => true,
        SourceFilterV::Nothing => forall|i: int|
            0 <= i < items.len() ==> !(#[trigger] items[i] matches Tree::Text(name) && is_path(
                name,
            )),
        SourceFilterV::Paths { include_paths, exclude_paths } => {
            &&& exclude_paths.len() == 0
            &&& include_paths.len() > 0
            &&& forall|name: Seq<char>| #[trigger]
                include_paths.contains(name) <==> is_path(name) && is_listed(items, items.len(), name)
        },
    }
}

/// A selection that is read is the one that its names say.
pub proof fn selections_are_what_is_said(t: Tree)
    ensures
        hybrid::select_in(t) matches Ok(p) ==> is_said_selection(t, p),
{
    if let Ok(p) = hybrid::select_in(t) {
        let items = t->Array_0;
        names_select(items, items.len());
        let s = hybrid::selected(items, items.len())->0;
        if p.source is Nothing {
            assert forall|i: int| 0 <= i < items.len() implies !(#[trigger] items[i] matches Tree::Text(
                name,
            ) && is_path(name)) by {
                if let Tree::Text(name) = items[i] {
                    if is_path(name) {
                        assert(is_listed(items, items.len(), name));
                        assert(s.paths.contains(name));
                    }
                }
            }
        }
    }
}

/// Whether a request is the one that a body says. What a body does not say
/// is at its default: the latest state, no retrievers, no filter, no fusion,
/// the whole source, ten hits from the first on.
pub open spec fn is_said_request(
    es: Seq<(Seq<char>, Tree)>,
    now_ms: u64,
    parsed: Option<Seq<(u64, u32, u64)>>,
    r: ir::SearchRequest,
) -> bool {
    &&& exists|name: Seq<char>| #[trigger]
        is_under(es, "from"@, Tree::Text(name)) && (name == "collections."@ + r.collection@ || (name
            == r.collection@ && !text::begins(name, "collections."@)))
    &&& match r.consistency@ {
        ConsistencyV::Strong => lacks(es, "consistency"@) || is_under(
            es,
            "consistency"@,
            Tree::Text("strong"@),
        ),
        ConsistencyV::Eventual => is_under(es, "consistency"@, Tree::Text("eventual"@)),
        ConsistencyV::AtLeast(token) => parsed == Some(token) && exists|s: Seq<char>| #[trigger]
            is_under(
                es,
                "consistency"@,
                Tree::Object(seq![("token"@, Tree::Text(s))]),
            ),
        _ => false,
    }
    &&& if lacks(es, "retrieve"@) {
        r.retrievers@.len() == 0
    } else {
        exists|items: Seq<Tree>| #[trigger] is_under(es, "retrieve"@, Tree::Array(items)) && {
            &&& items.len() == r.retrievers@.len()
            &&& forall|i: int|
                0 <= i < items.len() ==> is_said_retriever(
                    items[i],
                    #[trigger] ir::retriever_views(r.retrievers@)[i],
                )
        }
    }
    &&& match crate::query::opt_query(r.filter) {
        None => lacks(es, "filter"@),
        Some(q) => exists|t: Tree| #[trigger] is_under(es, "filter"@, t) && matches_described(
            q,
            t,
            now_ms,
        ),
    }
    &&& match hybrid::opt_fusion(r.fusion) {
        None => lacks(es, "fuse"@),
        Some(f) => exists|t: Tree| #[trigger] is_under(es, "fuse"@, t) && is_said_fusion(t, f),
    }
    &&& if lacks(es, "select"@) {
        r.select@ == ir::whole_source()
    } else {
        exists|t: Tree| #[trigger] is_under(es, "select"@, t) && is_said_selection(t, r.select@)
    }
    &&& is_number_under(es, "limit"@, r.limit as u64) || (lacks(es, "limit"@) && r.limit == 10)
    &&& is_number_under(es, "offset"@, r.offset as u64) || (lacks(es, "offset"@) && r.offset == 0)
    &&& r.sort@.len() == 0 && r.search_after is None && r.score_threshold is None
    &&& r.aggregations is None && r.highlight is None && r.group_by is None
    &&& r.track_total_hits == ir::TrackTotalHits::Never
}

/// Whether a query matches just the documents that a filter describes.
pub open spec fn matches_described(q: QueryV, t: Tree, now_ms: u64) -> bool {
    forall|d: DocV, words: spec_fn(QueryV, DocV) -> bool| #[trigger]
        meaning::finds(q, d, words) == describes(t, now_ms, d, words)
}

/// A request that is read from a hybrid body is the one that the body says.
pub proof fn requests_are_what_is_said(
    es: Seq<(Seq<char>, Tree)>,
    now_ms: u64,
    parsed: Option<Seq<(u64, u32, u64)>>,
    h: HybridV,
    r: ir::SearchRequest,
)
    requires
        hybrid::body_in(es, now_ms, parsed) == Ok::<HybridV, Failure>(h),
        hybrid::asks(r, h),
    ensures
        is_said_request(es, now_ms, parsed, r),
{
    under_is_one(es, "from"@);
    under_is_one(es, "consistency"@);
    under_is_one(es, "retrieve"@);
    under_is_one(es, "filter"@);
    under_is_one(es, "fuse"@);
    under_is_one(es, "select"@);
    under_is_one(es, "limit"@);
    under_is_one(es, "offset"@);
    let name = value::lookup(es, "from"@)->0->Text_0;
    assert(is_under(es, "from"@, Tree::Text(name)));
    if let Some(rest) = text::without_prefix(name, "collections."@) {
        assert(name =~= "collections."@ + rest);
    }
    if let Some(t) = value::lookup(es, "consistency"@) {
        assert(is_under(es, "consistency"@, t));
        if let ConsistencyV::AtLeast(token) = r.consistency@ {
            let s = hybrid::token_in(t)->0;
            assert(t->Object_0 =~= seq![("token"@, Tree::Text(s))]);
        }
    }
    assert(ir::retriever_views(r.retrievers@).len() == r.retrievers@.len());
    if let Some(t) = value::lookup(es, "retrieve"@) {
        let items = t->Array_0;
        assert(is_under(es, "retrieve"@, Tree::Array(items)));
        listed_retrievers(items, items.len());
    }
    if let Some(t) = value::lookup(es, "filter"@) {
        assert(is_under(es, "filter"@, t));
        let q = filters::filter_in(t, now_ms)->Ok_0;
        assert forall|d: DocV, words: spec_fn(QueryV, DocV) -> bool| #[trigger]
            meaning::finds(q, d, words) == describes(t, now_ms, d, words) by {
            filters_match_what_is_described(t, now_ms, d, words);
        }
    }
    if let Some(t) = value::lookup(es, "fuse"@) {
        assert(is_under(es, "fuse"@, t));
        fusions_are_what_is_said(t);
    }
    if let Some(t) = value::lookup(es, "select"@) {
        assert(is_under(es, "select"@, t));
        selections_are_what_is_said(t);
    }
}

} // verus!
