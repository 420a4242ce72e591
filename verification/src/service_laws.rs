//! What the service promises of its collections: a creation is dated, an
//! update adds just what it asks for, and a collection is listed with its
//! own aliases.

use crate::collection::SchemaV;
use crate::ordering;
use crate::service;
use crate::service::{ByText, CREATED_AT_ANNOTATION};
use crate::text;
use vstd::prelude::*;

verus! {

/// Whether an item with the name of one that is there is another.
pub open spec fn conflicts<T>(current: Seq<T>, f: T, name: spec_fn(T) -> Seq<char>) -> bool {
    exists|i: int| 0 <= i < current.len() && name(#[trigger] current[i]) == name(f) && current[i] != f
}

/// An update has the items that are there and those that it asks for, and
/// nothing else; it is refused just where it asks for an item that is there
/// as another. Names differ among the items that are there.
pub proof fn updates_add_what_is_asked<T>(
    current: Seq<T>,
    items: Seq<T>,
    name: spec_fn(T) -> Seq<char>,
    n: nat,
)
    requires
        n <= items.len(),
        forall|i: int, j: int|
            0 <= i < j < current.len() ==> name(#[trigger] current[i]) != name(
                #[trigger] current[j],
            ),
    ensures
        match service::more(current, items, name, n) {
            Ok(next) => (forall|i: int| 0 <= i < n ==> !conflicts(current, #[trigger] items[i], name))
                && forall|f: T| #[trigger]
                next.contains(f) <==> current.contains(f) || items.take(n as int).contains(f),
            Err(_) => exists|i: int| 0 <= i < n && conflicts(current, #[trigger] items[i], name),
        },
    decreases n,
{
    let asked = items.take(n as int);
    if n > 0 {
        let m = (n - 1) as nat;
        let f = items[n - 1];
        let fewer = items.take(m as int);
        let names = service::names_of(current, name);
        updates_add_what_is_asked(current, items, name, m);
        service::spot_is(names, name(f), 0);
        assert(asked[n - 1] == f);
        assert(asked =~= fewer.push(f));
        match service::spot(names, name(f), 0) {
            None => {
                assert forall|i: int| 0 <= i < current.len() implies name(#[trigger] current[i])
                    != name(f) by {
                    assert(names[i] == name(current[i]));
                }
            },
            Some(at) => {
                assert(names[at] == name(current[at]));
                assert forall|i: int|
                    0 <= i < current.len() && name(#[trigger] current[i]) == name(f) implies i
                    == at by {
                    if i < at {
                        assert(name(current[i]) != name(current[at]));
                    } else if at < i {
                        assert(name(current[at]) != name(current[i]));
                    }
                }
                if current[at] == f {
                    assert(!conflicts(current, f, name));
                    assert(current.contains(f));
                } else {
                    assert(conflicts(current, f, name));
                }
            },
        }
        if let Ok(before) = service::more(current, items, name, m) {
            if let Ok(next) = service::more(current, items, name, n) {
                assert forall|g: T| #[trigger]
                    next.contains(g) <==> current.contains(g) || asked.contains(g) by {
                    if service::spot(names, name(f), 0) is None {
                        pushed_are_there(before, f, g);
                    }
                    pushed_are_there(fewer, f, g);
                }
            }
        }
    } else {
        assert forall|f: T| #[trigger]
            current.contains(f) <==> current.contains(f) || asked.contains(f) by {
        }
    }
}

proof fn pushed_are_there<T>(s: Seq<T>, x: T, y: T)
    ensures
        s.push(x).contains(y) <==> s.contains(y) || x == y,
{
    assert(s.push(x)[s.len() as int] == x);
    if s.contains(y) {
        let i = choose|i: int| 0 <= i < s.len() && s[i] == y;
        assert(s.push(x)[i] == y);
    }
    if s.push(x).contains(y) && x != y {
        let i = choose|i: int| 0 <= i < s.push(x).len() && s.push(x)[i] == y;
        assert(s[i] == y);
    }
}

proof fn decimals_read_back(n: nat, most: nat)
    requires
        n <= most,
    ensures
        text::number_in(text::decimal(n), most) == Some(n),
{
    let s = text::decimal(n);
    text::decimal_is_canonical(n);
    assert(text::is_digit(s[0]));
}

proof fn pairs_are_found(
    pairs: Seq<(Seq<char>, Seq<char>)>,
    pair: (Seq<char>, Seq<char>),
    j: int,
)
    requires
        service::in_order(pairs),
        pairs.contains(pair),
        0 <= j,
        exists|i: int| j <= i < pairs.len() && pairs[i] == pair,
    ensures
        service::pair_text(pairs, pair.0, j) == Some(pair.1),
    decreases pairs.len() - j,
{
    let i = choose|i: int| j <= i < pairs.len() && pairs[i] == pair;
    if pairs[j].0 == pair.0 {
        if j < i {
            assert(text::before(pairs[j].0, pairs[i].0));
            text::before_is_strict(pair.0);
        }
    } else {
        assert(j < i);
        pairs_are_found(pairs, pair, j + 1);
    }
}

/// A collection says when it was created: the time that its first schema was
/// given. Its annotations stand in order.
pub proof fn creations_are_dated(s: SchemaV, now_ms: u64)
    requires
        service::in_order(s.annotations),
    ensures
        service::created_at(
            SchemaV {
                version: 1,
                annotations: service::with_pair(
                    s.annotations,
                    (CREATED_AT_ANNOTATION@, text::decimal(now_ms as nat)),
                    0,
                ),
                ..s
            },
        ) == now_ms,
{
    let pair = (CREATED_AT_ANNOTATION@, text::decimal(now_ms as nat));
    service::pair_is_put(s.annotations, pair, 0);
    let all = service::with_pair(s.annotations, pair, 0);
    let i = choose|i: int| 0 <= i < all.len() && all[i] == pair;
    assert(0 <= i < all.len() && all[i] == pair);
    pairs_are_found(all, pair, 0);
    decimals_read_back(now_ms as nat, u64::MAX as nat);
}

/// A collection is listed with just the aliases that are its own.
pub proof fn aliases_are_of_the_collection(
    names: Seq<String>,
    aliases: Seq<(String, u64)>,
    id: u64,
    name: Seq<char>,
)
    requires
        service::names_are(names, aliases, id),
    ensures
        text::texts(names).contains(name) <==> exists|i: int|
            0 <= i < aliases.len() && (#[trigger] aliases[i]).0@ == name && aliases[i].1 == id,
{
    broadcast use vstd::seq_lib::group_to_multiset_ensures;

    let own = aliases.filter(service::alias_of(id));
    let picked = choose|picked: Seq<String>|
        {
            &&& text::texts(picked) == Seq::new(own.len(), |i: int| own[i].0@)
            &&& names == #[trigger] ordering::sorted(ByText, picked)
        };
    ordering::sorted_permutes(ByText, picked);
    assert(names.to_multiset() == picked.to_multiset());
    assert(text::texts(picked).len() == own.len());
    if text::texts(names).contains(name) {
        let i = choose|i: int| 0 <= i < names.len() && text::texts(names)[i] == name;
        assert(names.contains(names[i]));
        assert(picked.to_multiset().count(names[i]) > 0);
        assert(picked.contains(names[i]));
        let j = choose|j: int| 0 <= j < picked.len() && picked[j] == names[i];
        assert(text::texts(picked)[j] == name);
        assert(own.contains(own[j]));
        aliases.lemma_filter_contains_rev(service::alias_of(id), own[j]);
        aliases.lemma_filter_pred(service::alias_of(id), j);
        let k = choose|k: int| 0 <= k < aliases.len() && aliases[k] == own[j];
        assert(aliases[k].0@ == name && aliases[k].1 == id);
    }
    if exists|i: int| 0 <= i < aliases.len() && (#[trigger] aliases[i]).0@ == name && aliases[i].1 == id {
        let i = choose|i: int|
            0 <= i < aliases.len() && (#[trigger] aliases[i]).0@ == name && aliases[i].1 == id;
        aliases.lemma_filter_contains(service::alias_of(id), i);
        assert(own.contains(aliases[i]));
        let j = choose|j: int| 0 <= j < own.len() && own[j] == aliases[i];
        assert(text::texts(picked)[j] == name);
        assert(picked.contains(picked[j]));
        assert(names.to_multiset().count(picked[j]) > 0);
        let k = choose|k: int| 0 <= k < names.len() && names[k] == picked[j];
        assert(text::texts(names)[k] == name);
    }
}

} // verus!
