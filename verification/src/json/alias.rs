//! Alias actions as JSON.

use crate::error;
use crate::error::{Failure, ServiceError};
use crate::json::fields;
use crate::json::value;
use crate::json::value::{Json, Tree};
use crate::text;
use vstd::prelude::*;
use vstd::string::*;

verus! {

broadcast use {crate::json::value::view_object, crate::json::value::view_array};

/// A change of an alias.
#[derive(Debug)]
pub enum AliasAction {
    Create { alias: String, collection: String },
    Delete { alias: String },
}

/// What a change of an alias is.
pub enum AliasActionV {
    Create { alias: Seq<char>, collection: Seq<char> },
    Delete { alias: Seq<char> },
}

impl View for AliasAction {
    type V = AliasActionV;

    open spec fn view(&self) -> AliasActionV {
        match self {
            AliasAction::Create { alias, collection } => AliasActionV::Create {
                alias: alias@,
                collection: collection@,
            },
            AliasAction::Delete { alias } => AliasActionV::Delete { alias: alias@ },
        }
    }
}

/// What some changes are.
pub open spec fn action_views(s: Seq<AliasAction>) -> Seq<AliasActionV> {
    Seq::new(s.len(), |i: int| s[i]@)
}

/// The text of a key of an action.
pub open spec fn action_text(es: Seq<(Seq<char>, Tree)>, kind: Seq<char>, key: Seq<char>) -> Result<
    Seq<char>,
    Failure,
> {
    match value::lookup(es, key) {
        Some(Tree::Text(s)) => Ok(s),
        _ => Err(fields::invalid(kind + "."@ + key + " must be a string"@)),
    }
}

fn text_at(es: &Vec<(String, Json)>, kind: &str, key: &str) -> (r: Result<String, ServiceError>)
    ensures
        match r {
            Ok(s) => action_text(value::entries_of(es@), kind@, key@) == Ok::<Seq<char>, Failure>(
                s@,
            ),
            Err(e) => action_text(value::entries_of(es@), kind@, key@) == Err::<
                Seq<char>,
                Failure,
            >(e@),
        },
{
    if let Some(v) = value::find(es, key) {
        if let Some(s) = v.as_str() {
            return Ok(s.to_owned());
        }
    }
    let mut m = text::cat3(kind, ".", key);
    m.append(" must be a string");
    Err(error::invalid(m))
}

/// The error of a value that is no action.
pub open spec fn not_an_action(t: Tree) -> Failure {
    fields::invalid(
        "an alias action must be {\"create\": \u{2026}} or {\"delete\": \u{2026}}, got "@
            + value::json_text(t),
    )
}

/// The action of a one-key object.
pub open spec fn action_in(t: Tree) -> Result<AliasActionV, Failure> {
    match t {
        Tree::Object(es) => if es.len() == 1 {
            let kind = es[0].0;
            match es[0].1 {
                Tree::Object(body) => if kind == "create"@ {
                    match fields::unknown_key(body, seq!["alias"@, "collection"@], 0) {
                        Some(key) => Err(fields::bad_key(key, kind)),
                        None => match action_text(body, kind, "alias"@) {
                            Err(e) => Err(e),
                            Ok(alias) => match action_text(body, kind, "collection"@) {
                                Err(e) => Err(e),
                                Ok(collection) => Ok(
                                    AliasActionV::Create { alias, collection },
                                ),
                            },
                        },
                    }
                } else if kind == "delete"@ {
                    match fields::unknown_key(body, seq!["alias"@], 0) {
                        Some(key) => Err(fields::bad_key(key, kind)),
                        None => match action_text(body, kind, "alias"@) {
                            Err(e) => Err(e),
                            Ok(alias) => Ok(AliasActionV::Delete { alias }),
                        },
                    }
                } else {
                    Err(fields::invalid("unknown alias action "@ + kind))
                },
                _ => Err(fields::invalid(kind + " must be an object"@)),
            }
        } else {
            Err(not_an_action(t))
        },
        _ => Err(not_an_action(t)),
    }
}

fn action_error(v: &Json) -> (r: ServiceError)
    ensures
        r@ == not_an_action(v@),
{
    error::invalid(
        text::cat2(
            "an alias action must be {\"create\": \u{2026}} or {\"delete\": \u{2026}}, got ",
            &v.text(),
        ),
    )
}

fn action_from(v: &Json) -> (r: Result<AliasAction, ServiceError>)
    ensures
        match r {
            Ok(a) => action_in(v@) == Ok::<AliasActionV, Failure>(a@),
            Err(e) => action_in(v@) == Err::<AliasActionV, Failure>(e@),
        },
{
    let es = match v {
        Json::Object(es) => es,
        _ => {
            return Err(action_error(v));
        },
    };
    if es.len() != 1 {
        return Err(action_error(v));
    }
    assert(value::entries_of(es@)[0] == (es@[0].0@, es@[0].1@));
    let kind: &str = es[0].0.as_str();
    let body = match es[0].1.as_object() {
        Some(body) => body,
        None => {
            return Err(error::invalid(text::cat2(kind, " must be an object")));
        },
    };
    let create = text::same(kind, "create");
    let bad = if create {
        let allowed = ["alias", "collection"];
        assert(fields::strs(allowed@) =~= seq!["alias"@, "collection"@]);
        fields::find_unknown(body, &allowed)
    } else if text::same(kind, "delete") {
        let allowed = ["alias"];
        assert(fields::strs(allowed@) =~= seq!["alias"@]);
        fields::find_unknown(body, &allowed)
    } else {
        return Err(error::invalid(text::cat2("unknown alias action ", kind)));
    };
    if let Some(i) = bad {
        return Err(fields::unknown(&body[i].0, kind));
    }
    let alias = match text_at(body, kind, "alias") {
        Ok(s) => s,
        Err(e) => {
            return Err(e);
        },
    };
    if create {
        match text_at(body, kind, "collection") {
            Ok(collection) => Ok(AliasAction::Create { alias, collection }),
            Err(e) => Err(e),
        }
    } else {
        Ok(AliasAction::Delete { alias })
    }
}

/// The actions of the first `n` items, or the error of the first that is
/// none.
pub open spec fn actions_in(items: Seq<Tree>, n: nat) -> Result<Seq<AliasActionV>, Failure>
    decreases n,
{
    if n == 0 || n > items.len() {
        Ok(Seq::empty())
    } else {
        match actions_in(items, (n - 1) as nat) {
            Err(e) => Err(e),
            Ok(out) => match action_in(items[n - 1]) {
                Err(e) => Err(e),
                Ok(a) => Ok(out.push(a)),
            },
        }
    }
}

proof fn actions_stay_wrong(items: Seq<Tree>, n: nat, m: nat)
    requires
        n <= m <= items.len(),
        actions_in(items, n) is Err,
    ensures
        actions_in(items, m) == actions_in(items, n),
    decreases m - n,
{
    if n < m {
        actions_stay_wrong(items, n, (m - 1) as nat);
    }
}

/// The actions of a JSON list.
pub open spec fn actions(t: Tree) -> Result<Seq<AliasActionV>, Failure> {
    match t {
        Tree::Array(items) => actions_in(items, items.len()),
        _ => Err(fields::invalid("alias actions must be a list"@)),
    }
}

/// The actions of a JSON list of `{"create": {"alias", "collection"}}` and
/// `{"delete": {"alias"}}`.
pub fn alias_actions_from_json(v: &Json) -> (r: Result<Vec<AliasAction>, ServiceError>)
    ensures
        match r {
            Ok(a) => actions(v@) == Ok::<Seq<AliasActionV>, Failure>(action_views(a@)),
            Err(e) => actions(v@) == Err::<Seq<AliasActionV>, Failure>(e@),
        },
{
    let items = match v.as_array() {
        Some(items) => items,
        None => {
            return Err(error::invalid("alias actions must be a list".to_owned()));
        },
    };
    let ghost all = value::items_of(items@);
    let mut out: Vec<AliasAction> = Vec::new();
    let mut i: usize = 0;
    assert(action_views(out@) =~= Seq::empty());
    while i < items.len()
        invariant
            i <= items@.len(),
            all == value::items_of(items@),
            v@ == Tree::Array(all),
            actions_in(all, i as nat) == Ok::<Seq<AliasActionV>, Failure>(action_views(out@)),
        decreases items.len() - i,
    {
        assert(all[i as int] == items@[i as int]@);
        match action_from(&items[i]) {
            Ok(a) => {
                let ghost was = action_views(out@);
                let ghost av = a@;
                out.push(a);
                assert(action_views(out@) =~= was.push(av));
            },
            Err(e) => {
                proof {
                    actions_stay_wrong(all, i as nat + 1, items@.len());
                }
                return Err(e);
            },
        }
        i += 1;
    }
    Ok(out)
}

} // verus!
