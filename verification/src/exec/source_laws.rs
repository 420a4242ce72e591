//! What a source filter leaves: just the leaves whose paths are wanted and
//! not refused, each where it was.

use crate::exec::project;
use crate::ir::SourceFilterV;
use crate::json::value::Tree;
use vstd::prelude::*;
use vstd::string::*;

verus! {

/// The path of a name below a path.
pub open spec fn below(path: Seq<char>, name: Seq<char>) -> Seq<char> {
    if path.len() == 0 {
        name
    } else {
        path + "."@ + name
    }
}

/// Whether a value at a path has a leaf at another: a scalar, or an object or
/// an array without anything in it. The items of an array stand at its own
/// path.
pub open spec fn has_leaf(t: Tree, path: Seq<char>, at: Seq<char>, leaf: Tree) -> bool
    decreases t, 0nat,
{
    match t {
        Tree::Object(es) => if es.len() > 0 {
            some_entry_has(es, es.len(), path, at, leaf)
        } else {
            path == at && t == leaf
        },
        Tree::Array(items) => if items.len() > 0 {
            some_item_has(items, items.len(), path, at, leaf)
        } else {
            path == at && t == leaf
        },
        _ => path == at && t == leaf,
    }
}

/// Whether one of the first entries of an object has a leaf.
pub open spec fn some_entry_has(
    es: Seq<(Seq<char>, Tree)>,
    n: nat,
    path: Seq<char>,
    at: Seq<char>,
    leaf: Tree,
) -> bool
    decreases es, n,
{
    if n == 0 || n > es.len() {
        false
    } else {
        some_entry_has(es, (n - 1) as nat, path, at, leaf) || has_leaf(
            es[n - 1].1,
            below(path, es[n - 1].0),
            at,
            leaf,
        )
    }
}

/// Whether one of the first items of an array has a leaf.
pub open spec fn some_item_has(
    items: Seq<Tree>,
    n: nat,
    path: Seq<char>,
    at: Seq<char>,
    leaf: Tree,
) -> bool
    decreases items, n,
{
    if n == 0 || n > items.len() {
        false
    } else {
        some_item_has(items, (n - 1) as nat, path, at, leaf) || has_leaf(
            items[n - 1],
            path,
            at,
            leaf,
        )
    }
}

/// Whether a path is wanted: by some pattern where there are any that want,
/// and by none that refuses.
pub open spec fn is_wanted(
    wanted: Seq<Seq<char>>,
    refused: Seq<Seq<char>>,
    at: Seq<char>,
) -> bool {
    &&& wanted.len() > 0 ==> exists|i: int|
        0 <= i < wanted.len() && project::pattern_matches(#[trigger] wanted[i], at)
    &&& forall|i: int|
        0 <= i < refused.len() ==> !project::pattern_matches(#[trigger] refused[i], at)
}

proof fn entries_keep_leaves(
    es: Seq<(Seq<char>, Tree)>,
    n: nat,
    path: Seq<char>,
    wanted: Seq<Seq<char>>,
    refused: Seq<Seq<char>>,
    at: Seq<char>,
    leaf: Tree,
)
    requires
        n <= es.len(),
    ensures
        ({
            let kept = project::filtered_entries(es, n, path, wanted, refused);
            some_entry_has(kept, kept.len(), path, at, leaf) == (some_entry_has(
                es,
                n,
                path,
                at,
                leaf,
            ) && is_wanted(wanted, refused, at))
        }),
    decreases es, n,
{
    if n > 0 {
        let m = (n - 1) as nat;
        assert(decreases_to!(es => es[n - 1]));
        assert(decreases_to!(es[n - 1] => es[n - 1].1));
        entries_keep_leaves(es, m, path, wanted, refused, at, leaf);
        filters_keep_leaves(
            es[n - 1].1,
            below(path, es[n - 1].0),
            wanted,
            refused,
            at,
            leaf,
        );
        let before = project::filtered_entries(es, m, path, wanted, refused);
        let kept = project::filtered_entries(es, n, path, wanted, refused);
        if kept.len() > before.len() {
            entries_agree(before, kept, before.len(), path, at, leaf);
        }
    }
}

proof fn entries_agree(
    a: Seq<(Seq<char>, Tree)>,
    b: Seq<(Seq<char>, Tree)>,
    n: nat,
    path: Seq<char>,
    at: Seq<char>,
    leaf: Tree,
)
    requires
        n <= a.len(),
        n <= b.len(),
        forall|i: int| 0 <= i < n ==> #[trigger] a[i] == b[i],
    ensures
        some_entry_has(a, n, path, at, leaf) == some_entry_has(b, n, path, at, leaf),
    decreases n,
{
    if n > 0 {
        entries_agree(a, b, (n - 1) as nat, path, at, leaf);
    }
}

proof fn items_agree(
    a: Seq<Tree>,
    b: Seq<Tree>,
    n: nat,
    path: Seq<char>,
    at: Seq<char>,
    leaf: Tree,
)
    requires
        n <= a.len(),
        n <= b.len(),
        forall|i: int| 0 <= i < n ==> #[trigger] a[i] == b[i],
    ensures
        some_item_has(a, n, path, at, leaf) == some_item_has(b, n, path, at, leaf),
    decreases n,
{
    if n > 0 {
        items_agree(a, b, (n - 1) as nat, path, at, leaf);
    }
}

proof fn items_keep_leaves(
    items: Seq<Tree>,
    n: nat,
    path: Seq<char>,
    wanted: Seq<Seq<char>>,
    refused: Seq<Seq<char>>,
    at: Seq<char>,
    leaf: Tree,
)
    requires
        n <= items.len(),
    ensures
        ({
            let kept = project::filtered_items(items, n, path, wanted, refused);
            some_item_has(kept, kept.len(), path, at, leaf) == (some_item_has(
                items,
                n,
                path,
                at,
                leaf,
            ) && is_wanted(wanted, refused, at))
        }),
    decreases items, n,
{
    if n > 0 {
        let m = (n - 1) as nat;
        assert(decreases_to!(items => items[n - 1]));
        items_keep_leaves(items, m, path, wanted, refused, at, leaf);
        filters_keep_leaves(items[n - 1], path, wanted, refused, at, leaf);
        let before = project::filtered_items(items, m, path, wanted, refused);
        let kept = project::filtered_items(items, n, path, wanted, refused);
        if kept.len() > before.len() {
            items_agree(before, kept, before.len(), path, at, leaf);
        }
    }
}

/// A value through path patterns has just the leaves that it had and whose
/// paths are wanted; where there are none, nothing is left.
pub proof fn filters_keep_leaves(
    t: Tree,
    path: Seq<char>,
    wanted: Seq<Seq<char>>,
    refused: Seq<Seq<char>>,
    at: Seq<char>,
    leaf: Tree,
)
    ensures
        match project::filtered(t, path, wanted, refused) {
            Some(kept) => has_leaf(kept, path, at, leaf) == (has_leaf(t, path, at, leaf)
                && is_wanted(wanted, refused, at)),
            None => !(has_leaf(t, path, at, leaf) && is_wanted(wanted, refused, at)),
        },
    decreases t, 0nat,
{
    match t {
        Tree::Object(es) => {
            if es.len() > 0 {
                assert(decreases_to!(t => t->Object_0));
                entries_keep_leaves(es, es.len(), path, wanted, refused, at, leaf);
            }
        },
        Tree::Array(items) => {
            if items.len() > 0 {
                assert(decreases_to!(t => t->Array_0));
                items_keep_leaves(items, items.len(), path, wanted, refused, at, leaf);
            }
        },
        _ => {},
    }
}

/// A source through its filter: all of it, nothing, or just the leaves whose
/// paths are wanted.
pub proof fn sources_keep_what_is_wanted(
    source: Seq<(Seq<char>, Tree)>,
    filter: SourceFilterV,
    at: Seq<char>,
    leaf: Tree,
)
    ensures
        match project::source_view(source, filter) {
            None => filter is Nothing,
            Some(kept) => match filter {
                SourceFilterV::All => kept == source,
                SourceFilterV::Nothing => false,
                SourceFilterV::Paths { include_paths, exclude_paths } => some_entry_has(
                    kept,
                    kept.len(),
                    Seq::empty(),
                    at,
                    leaf,
                ) == (some_entry_has(source, source.len(), Seq::empty(), at, leaf) && is_wanted(
                    include_paths,
                    exclude_paths,
                    at,
                )),
            },
        },
{
    if let SourceFilterV::Paths { include_paths, exclude_paths } = filter {
        entries_keep_leaves(
            source,
            source.len(),
            Seq::empty(),
            include_paths,
            exclude_paths,
            at,
            leaf,
        );
    }
}

/// Whether a pattern has no star.
pub open spec fn is_plain(p: Seq<char>) -> bool {
    forall|i: int| 0 <= i < p.len() ==> #[trigger] p[i] != '*'
}

/// A pattern without a star matches just itself; a star after a pattern
/// matches whatever follows what the pattern matches, and a star alone
/// everything.
pub proof fn stars_match_any_run(p: Seq<char>, t: Seq<char>, more: Seq<char>)
    ensures
        is_plain(p) ==> project::glob_matches(p, t) == (p == t),
        project::glob_matches(seq!['*'], t),
        project::glob_matches(p, t) ==> project::glob_matches(p.push('*'), t + more),
    decreases p.len() + t.len(),
{
    star_matches(t);
    if p.len() == 0 {
        assert(p.push('*') =~= seq!['*']);
        star_matches(t + more);
        if t.len() == 0 {
            assert(p =~= t);
        }
    } else {
        let rest = p.skip(1);
        assert(p.push('*').skip(1) =~= rest.push('*'));
        assert(p.push('*')[0] == p[0]);
        if p[0] == '*' {
            assert(!is_plain(p));
            if project::glob_matches(p, t) {
                if project::glob_matches(rest, t) {
                    stars_match_any_run(rest, t, more);
                } else {
                    stars_match_any_run(p, t.skip(1), more);
                    assert((t + more).skip(1) =~= t.skip(1) + more);
                }
            }
        } else if t.len() > 0 {
            stars_match_any_run(rest, t.skip(1), more);
            assert((t + more).skip(1) =~= t.skip(1) + more);
            assert((t + more)[0] == t[0]);
            if is_plain(p) {
                assert forall|i: int| 0 <= i < rest.len() implies #[trigger] rest[i] != '*' by {
                    assert(rest[i] == p[i + 1]);
                }
                if p[0] == t[0] && rest == t.skip(1) {
                    assert(p =~= seq![p[0]] + rest);
                    assert(t =~= seq![t[0]] + t.skip(1));
                }
            }
        }
    }
}

proof fn star_matches(t: Seq<char>)
    ensures
        project::glob_matches(seq!['*'], t),
    decreases t.len(),
{
    let p = seq!['*'];
    assert(p.skip(1) =~= Seq::<char>::empty());
    if t.len() > 0 {
        star_matches(t.skip(1));
    } else {
        assert(project::glob_matches(p.skip(1), t));
    }
}

} // verus!
