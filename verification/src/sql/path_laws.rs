//! What dotted paths and left-out fields stand for.

use crate::collection::{FieldSpecV, SchemaV};
use crate::json::entries;
use crate::json::value;
use crate::json::value::Tree;
use crate::sql::descriptor;
use crate::sql::json_path;
use vstd::prelude::*;
use vstd::string::*;

verus! {

/// Whether a value is at a path of another: under the whole path as a key, or
/// at the rest of the path below the key that a dot ends; in an array, in one
/// of its items.
pub open spec fn is_at(t: Tree, path: Seq<char>, v: Tree) -> bool
    decreases path.len(), t,
{
    match t {
        Tree::Object(es) => value::lookup(es, path) == Some(v) || exists|i: int|
            0 <= i < path.len() && #[trigger] path[i] == '.' && match value::lookup(
                es,
                path.take(i),
            ) {
                Some(w) => is_at(w, path.skip(i + 1), v),
                None => false,
            },
        Tree::Array(items) => exists|j: int|
            0 <= j < items.len() && is_at(#[trigger] items[j], path, v),
        _ => false,
    }
}

/// Whether a value is at the rest of a path after the dot at a place, below
/// the key before it.
pub open spec fn is_below(es: Seq<(Seq<char>, Tree)>, path: Seq<char>, i: int, v: Tree) -> bool {
    &&& 0 <= i < path.len()
    &&& path[i] == '.'
    &&& value::lookup(es, path.take(i)) matches Some(w) && is_at(w, path.skip(i + 1), v)
}

/// What is read at a path of a document is there, and nothing is there where
/// nothing is read.
pub proof fn paths_read_what_is_there(t: Tree, path: Seq<char>)
    ensures
        match json_path::within(t, path) {
            Some(v) => is_at(t, path, v),
            None => forall|v: Tree| !is_at(t, path, v),
        },
    decreases path.len(), t, 0int,
{
    match t {
        Tree::Object(es) => {
            keys_read_what_is_there(es, path, 0);
            assert(t->Object_0 == es);
            assert(path.take(path.len() as int) =~= path);
            if let Some(v) = json_path::within(t, path) {
                if value::lookup(es, path) != Some(v) {
                    let k = choose|k: int| #[trigger] is_below(es, path, k, v);
                    assert(path[k] == '.');
                }
            } else {
                assert forall|v: Tree| !is_at(t, path, v) by {
                    if is_at(t, path, v) && value::lookup(es, path) != Some(v) {
                        let k = choose|k: int|
                            0 <= k < path.len() && #[trigger] path[k] == '.' && match value::lookup(
                                es,
                                path.take(k),
                            ) {
                                Some(w) => is_at(w, path.skip(k + 1), v),
                                None => false,
                            };
                        assert(is_below(es, path, k, v));
                    }
                }
            }
        },
        Tree::Array(items) => {
            assert(decreases_to!(t => t->Array_0));
            items_read_what_is_there(items, path, 0);
            assert(t->Array_0 == items);
            if json_path::within(t, path) is None {
                assert forall|v: Tree| !is_at(t, path, v) by {
                    if is_at(t, path, v) {
                        let j = choose|j: int|
                            0 <= j < items.len() && is_at(#[trigger] items[j], path, v);
                        assert(!is_at(items[j], path, v));
                    }
                }
            }
        },
        _ => {},
    }
}

proof fn keys_read_what_is_there(es: Seq<(Seq<char>, Tree)>, path: Seq<char>, i: int)
    requires
        0 <= i,
    ensures
        match json_path::at_path(es, path, i) {
            Some(v) => value::lookup(es, path) == Some(v) || exists|k: int| #[trigger]
                is_below(es, path, k, v),
            None => (i <= path.len() ==> value::lookup(es, path) is None) && forall|k: int, v: Tree|
                i <= k ==> !#[trigger] is_below(es, path, k, v),
        },
    decreases path.len(), es, path.len() - i + 1,
{
    if i <= path.len() {
        keys_read_what_is_there(es, path, i + 1);
        assert(path.take(path.len() as int) =~= path);
        if i < path.len() && path[i] == '.' {
            if let Some(w) = value::lookup(es, path.take(i)) {
                paths_read_what_is_there(w, path.skip(i + 1));
                if let Some(v) = json_path::within(w, path.skip(i + 1)) {
                    assert(is_below(es, path, i, v));
                }
            }
        }
    }
}

proof fn items_read_what_is_there(items: Seq<Tree>, path: Seq<char>, j: int)
    requires
        0 <= j,
    ensures
        match json_path::in_items(items, path, j) {
            Some(v) => exists|k: int|
                j <= k < items.len() && is_at(#[trigger] items[k], path, v),
            None => forall|k: int, v: Tree|
                j <= k < items.len() ==> !#[trigger] is_at(items[k], path, v),
        },
    decreases path.len(), items, items.len() - j + 1,
{
    if j < items.len() {
        assert(decreases_to!(items => items[j]));
        paths_read_what_is_there(items[j], path);
        items_read_what_is_there(items, path, j + 1);
    }
}

proof fn texts_are_text_fields(fields: Seq<FieldSpecV>, n: nat, name: Seq<char>)
    requires
        n <= fields.len(),
    ensures
        descriptor::text_fields(fields, n).contains(name) <==> exists|i: int|
            0 <= i < n && (#[trigger] fields[i]).kind is Text && fields[i].name == name,
    decreases n,
{
    if n > 0 {
        let before = descriptor::text_fields(fields, (n - 1) as nat);
        let all = descriptor::text_fields(fields, n);
        texts_are_text_fields(fields, (n - 1) as nat, name);
        if fields[n - 1].kind is Text {
            assert(all[before.len() as int] == fields[n - 1].name);
            if before.contains(name) {
                let k = choose|k: int| 0 <= k < before.len() && before[k] == name;
                assert(all[k] == name);
            }
            if all.contains(name) && name != fields[n - 1].name {
                let k = choose|k: int| 0 <= k < all.len() && all[k] == name;
                assert(before[k] == name);
            }
        }
    }
}

/// A field that a call leaves out is the only one that it can be: the
/// collection's dense vector, or its text field; there must be one, and no
/// other. No two fields have one name.
pub proof fn left_out_fields_are_the_only_ones(c: Seq<char>, s: SchemaV, i: int, j: int)
    requires
        forall|a: int, b: int|
            0 <= a < b < s.fields.len() ==> (#[trigger] s.fields[a]).name != (
            #[trigger] s.fields[b]).name,
    ensures
        descriptor::only_vector(c, s) matches Ok(name) ==> s.vectors.len() == 1
            && s.vectors[0].name == name,
        descriptor::only_vector(c, s) is Err ==> s.vectors.len() != 1,
        descriptor::only_text(c, s) matches Ok(name) ==> {
            &&& exists|k: int|
                0 <= k < s.fields.len() && (#[trigger] s.fields[k]).kind is Text
                    && s.fields[k].name == name
            &&& 0 <= i < s.fields.len() && s.fields[i].kind is Text ==> s.fields[i].name == name
        },
        0 <= i < j < s.fields.len() && s.fields[i].kind is Text && s.fields[j].kind is Text
            ==> descriptor::only_text(c, s) is Err,
{
    let names = descriptor::text_fields(s.fields, s.fields.len());
    if names.len() == 1 {
        texts_are_text_fields(s.fields, s.fields.len(), names[0]);
        assert(names.contains(names[0]));
    }
    if 0 <= i < s.fields.len() && s.fields[i].kind is Text {
        texts_are_text_fields(s.fields, s.fields.len(), s.fields[i].name);
        assert(names.contains(s.fields[i].name));
    }
    if 0 <= i < j < s.fields.len() && s.fields[i].kind is Text && s.fields[j].kind is Text {
        texts_are_text_fields(s.fields, s.fields.len(), s.fields[j].name);
        assert(names.contains(s.fields[j].name));
        assert(s.fields[i].name != s.fields[j].name);
    }
}

/// A value that is put at a path is what is there.
pub proof fn replaced_are_there(t: Tree, path: Seq<Seq<char>>, i: int, new: Tree)
    requires
        0 <= i <= path.len(),
        descriptor::pointed(t, path, i) is Some,
    ensures
        descriptor::pointed(descriptor::replaced(t, path, i, new), path, i) == Some(new),
    decreases path.len() - i,
{
    if i < path.len() {
        match t {
            Tree::Object(es) => {
                let v = value::lookup(es, path[i])->0;
                replaced_are_there(v, path, i + 1, new);
                entries::puts_are_found(
                    es,
                    path[i],
                    descriptor::replaced(v, path, i + 1, new),
                    path[i],
                );
            },
            Tree::Array(items) => {
                replaced_are_there(items[0], path, i + 1, new);
                assert(items.update(0, descriptor::replaced(items[0], path, i + 1, new))[0]
                    == descriptor::replaced(items[0], path, i + 1, new));
            },
            _ => {},
        }
    }
}

} // verus!
