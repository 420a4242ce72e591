//! The value at a dotted path of a document.

use crate::json::value;
use crate::json::value::{Json, Tree};
use vstd::prelude::*;
use vstd::string::*;

verus! {

/// Whether a path may be cut at a place: at a dot, or at its end.
pub open spec fn is_cut(path: Seq<char>, i: int) -> bool {
    i == path.len() || (0 <= i < path.len() && path[i] == '.')
}

/// The value at a path of an object, whole: the first, in order of how much
/// of the path names the key, of those cut at the `i`-th character or later.
pub open spec fn at_path(es: Seq<(Seq<char>, Tree)>, path: Seq<char>, i: int) -> Option<Tree>
    decreases path.len(), es, path.len() - i + 1,
{
    if i < 0 || i > path.len() {
        None
    } else {
        let here = if !is_cut(path, i) {
            None
        } else {
            match value::lookup(es, path.take(i)) {
                None => None,
                Some(v) => if i == path.len() {
                    Some(v)
                } else {
                    within(v, path.skip(i + 1))
                },
            }
        };
        match here {
            Some(v) => Some(v),
            None => at_path(es, path, i + 1),
        }
    }
}

/// The value at a path of a value: arrays are transparent.
pub open spec fn within(t: Tree, path: Seq<char>) -> Option<Tree>
    decreases path.len(), t, 0int,
{
    match t {
        Tree::Object(es) => at_path(es, path, 0),
        Tree::Array(items) => in_items(items, path, 0),
        _ => None,
    }
}

/// The first value at a path of some items, from the `j`-th on.
pub open spec fn in_items(items: Seq<Tree>, path: Seq<char>, j: int) -> Option<Tree>
    decreases path.len(), items, items.len() - j + 1,
{
    if j < 0 || j >= items.len() {
        None
    } else {
        match within(items[j], path) {
            Some(v) => Some(v),
            None => in_items(items, path, j + 1),
        }
    }
}

/// The value at a path of an object.
pub fn json_at<'a>(es: &'a Vec<(String, Json)>, path: &str) -> (r: Option<&'a Json>)
    ensures
        match r {
            Some(v) => at_path(value::entries_of(es@), path@, 0) == Some(v@),
            None => at_path(value::entries_of(es@), path@, 0) is None,
        },
    decreases path@.len(), es, 1nat,
{
    let ghost ev = value::entries_of(es@);
    let n: usize = path.unicode_len();
    let mut i: usize = 0;
    loop
        invariant
            i <= n,
            n == path@.len(),
            ev == value::entries_of(es@),
            at_path(ev, path@, 0) == at_path(ev, path@, i as int),
        decreases n - i,
    {
        let cut = i == n || path.get_char(i) == '.';
        assert(cut == is_cut(path@, i as int));
        if cut {
            assert(path@.subrange(0, i as int) =~= path@.take(i as int));
            if let Some(v) = value::find(es, path.substring_char(0, i)) {
                if i == n {
                    return Some(v);
                }
                assert(path@.subrange(i as int + 1, n as int) =~= path@.skip(i as int + 1));
                if let Some(found) = json_in(v, path.substring_char(i + 1, n)) {
                    return Some(found);
                }
            }
        }
        if i == n {
            assert(at_path(ev, path@, n as int + 1) is None);
            return None;
        }
        i += 1;
    }
}

fn json_in<'a>(v: &'a Json, path: &str) -> (r: Option<&'a Json>)
    ensures
        match r {
            Some(found) => within(v@, path@) == Some(found@),
            None => within(v@, path@) is None,
        },
    decreases path@.len(), v, 0nat,
{
    broadcast use {value::view_object, value::view_array};

    match v {
        Json::Object(es) => {
            assert(decreases_to!(*v => v->Object_0));
            json_at(es, path)
        },
        Json::Array(items) => {
            let ghost iv = value::items_of(items@);
            let mut j: usize = 0;
            assert(decreases_to!(*v => v->Array_0));
            assert(decreases_to!(*items => items@));
            while j < items.len()
                invariant
                    j <= items@.len(),
                    iv == value::items_of(items@),
                    in_items(iv, path@, 0) == in_items(iv, path@, j as int),
                    v@ == Tree::Array(iv),
                    decreases_to!(*v => *items),
                    decreases_to!(*items => items@),
                decreases items.len() - j,
            {
                assert(iv[j as int] == items@[j as int]@);
                assert(decreases_to!(items@ => items@[j as int]));
                if let Some(found) = json_in(&items[j], path) {
                    return Some(found);
                }
                j += 1;
            }
            None
        },
        _ => None,
    }
}

} // verus!
