//! What aggregations count and what their top hits show: the allowed
//! documents, and of each hit the row that it names.

use crate::error::Failure;
use crate::exec::aggs;
use crate::exec::aggs::{MaskedSegment, OptionsV};
use crate::exec::mask;
use crate::exec::project;
use crate::exec::top_hits;
use crate::exec::top_hits::HitRowV;
use crate::ir::SourceFilterV;
use crate::json::entries;
use crate::json::pk;
use crate::json::value;
use crate::json::value::Tree;
use vstd::prelude::*;
use vstd::string::*;

verus! {

/// Whether a document of a segment is counted: it is not masked, and its row
/// is one of those that are given, where some are.
pub open spec fn is_allowed(s: MaskedSegment, d: (u32, Option<u64>)) -> bool {
    &&& !mask::bitmap_docs(s.mask).contains(d.0)
    &&& s.allow matches Some(rows) ==> (d.1 matches Some(row) && mask::treemap_rows(rows).contains(
        row,
    ))
}

/// The counted documents are just the allowed ones, in order.
pub proof fn counted_are_the_allowed(s: MaskedSegment, docs: Seq<(u32, Option<u64>)>)
    ensures
        aggs::counted_docs(s, docs) == docs.filter(
            |d: (u32, Option<u64>)| is_allowed(s, d),
        ).map_values(|d: (u32, Option<u64>)| d.0),
    decreases docs.len(),
{
    reveal(Seq::filter);
    let keep = |d: (u32, Option<u64>)| is_allowed(s, d);
    let first = |d: (u32, Option<u64>)| d.0;
    if docs.len() > 0 {
        counted_are_the_allowed(s, docs.drop_last());
        let before = docs.drop_last().filter(keep);
        assert(before.push(docs.last()).map_values(first) =~= before.map_values(first).push(
            docs.last().0,
        ));
    }
    assert(aggs::counted_docs(s, docs) =~= docs.filter(keep).map_values(first));
}

proof fn a_pushed_entry_is_found(
    s: Seq<(Seq<char>, Tree)>,
    e: (Seq<char>, Tree),
    name: Seq<char>,
)
    ensures
        value::lookup(s.push(e), name) == match value::lookup(s, name) {
            Some(v) => Some(v),
            None => if e.0 == name {
                Some(e.1)
            } else {
                None
            },
        },
    decreases s.len(),
{
    if s.len() == 0 {
        assert(s.push(e).drop_first() =~= Seq::empty());
    } else {
        assert(s.push(e).drop_first() =~= s.drop_first().push(e));
        a_pushed_entry_is_found(s.drop_first(), e, name);
    }
}

proof fn others_are_found(s: Seq<(Seq<char>, Tree)>, gone: Seq<char>, name: Seq<char>)
    ensures
        value::lookup(entries::without(s, gone), name) == if name == gone {
            None
        } else {
            value::lookup(s, name)
        },
    decreases s.len(),
{
    reveal(Seq::filter);
    if s.len() > 0 {
        let rest = s.drop_last();
        others_are_found(rest, gone, name);
        a_pushed_entry_is_found(rest, s.last(), name);
        assert(rest.push(s.last()) =~= s);
        let kept = entries::without(rest, gone);
        a_pushed_entry_is_found(kept, s.last(), name);
    }
}

/// A `top_hits` that returns row ids asks for the field of these alone and
/// for no source, and keeps everything else that it says.
pub proof fn bare_hits_ask_for_rows(top: Seq<(Seq<char>, Tree)>, rowid: Seq<char>, name: Seq<char>)
    ensures
        value::lookup(aggs::bare_top(top, rowid), name) == if name == "docvalue_fields"@ {
            Some(Tree::Array(seq![Tree::Text(rowid)]))
        } else if name == "_source"@ {
            None
        } else {
            value::lookup(top, name)
        },
{
    reveal_strlit("_source");
    reveal_strlit("docvalue_fields");
    assert("_source"@.len() != "docvalue_fields"@.len());
    let once = entries::without(top, "_source"@);
    let twice = entries::without(once, "docvalue_fields"@);
    others_are_found(top, "_source"@, name);
    others_are_found(once, "docvalue_fields"@, name);
    a_pushed_entry_is_found(
        twice,
        ("docvalue_fields"@, Tree::Array(seq![Tree::Text(rowid)])),
        name,
    );
}

/// An aggregation that is rewritten keeps everything but its own hits and
/// what is below it.
pub proof fn rewrites_keep_the_rest(
    node: Seq<(Seq<char>, Tree)>,
    path: Seq<Seq<char>>,
    rowid: Seq<char>,
    name: Seq<char>,
)
    requires
        name != "top_hits"@,
        name != aggs::sub_key(node),
    ensures
        aggs::rewritten_node(node, path, rowid) matches Ok(r) ==> value::lookup(r.aggs, name)
            == value::lookup(node, name),
{
    if let Ok(r) = aggs::rewritten_node(node, path, rowid) {
        let own = aggs::own_rewrite(node, path, rowid)->Ok_0;
        if let Some(Tree::Object(top)) = value::lookup(node, "top_hits"@) {
            entries::puts_are_found(
                node,
                "top_hits"@,
                Tree::Object(aggs::bare_top(top, rowid)),
                name,
            );
        }
        if let Some(sub) = aggs::sub_of(node) {
            let below = aggs::rewritten(sub, path, rowid, sub.len())->Ok_0;
            entries::puts_are_found(own.aggs, aggs::sub_key(node), Tree::Object(below.aggs), name);
        }
    }
}

proof fn picks_are_by_name(fields: Seq<(Seq<char>, Tree)>, names: Seq<Seq<char>>, n: nat)
    ensures
        entries::by_name(top_hits::picked(fields, names, n)),
    decreases n,
{
    if n > 0 && n <= names.len() {
        picks_are_by_name(fields, names, (n - 1) as nat);
        if let Some(v) = value::lookup(fields, names[n - 1]) {
            entries::puts_keep_the_order(
                top_hits::picked(fields, names, (n - 1) as nat),
                names[n - 1],
                v,
            );
        }
    }
}

/// The fields of a hit are just the asked-for ones that its row has, with
/// the row's values.
pub proof fn picks_are_what_is_asked(
    fields: Seq<(Seq<char>, Tree)>,
    names: Seq<Seq<char>>,
    n: nat,
    e: (Seq<char>, Tree),
)
    requires
        n <= names.len(),
    ensures
        top_hits::picked(fields, names, n).contains(e) <==> names.take(n as int).contains(e.0)
            && value::lookup(fields, e.0) == Some(e.1),
    decreases n,
{
    let asked = names.take(n as int);
    if n > 0 {
        let m = (n - 1) as nat;
        let last = names[n - 1];
        let fewer = names.take(m as int);
        picks_are_what_is_asked(fields, names, m, e);
        picks_are_by_name(fields, names, m);
        if let Some(v) = value::lookup(fields, last) {
            entries::puts_set_one_name(top_hits::picked(fields, names, m), last, v, e);
        }
        assert(asked[n - 1] == last);
        if asked.contains(e.0) && e.0 != last {
            let i = choose|i: int| 0 <= i < asked.len() && asked[i] == e.0;
            assert(fewer[i] == e.0);
        }
        if fewer.contains(e.0) {
            let i = choose|i: int| 0 <= i < fewer.len() && fewer[i] == e.0;
            assert(asked[i] == e.0);
        }
    }
}

/// Whether an entry of a hit shows its row: the key, no score, the source
/// through the filter unless none is asked for, the fields where some are
/// asked for, and the sort values that the hit had.
pub open spec fn shows(shown: Tree, hit: Tree, row: HitRowV, o: OptionsV) -> bool {
    &&& top_hits::member(shown, "_id"@) == Some(pk::key_json(row.pk))
    &&& top_hits::member(shown, "_score"@) == Some(Tree::Null)
    &&& match top_hits::member(shown, "_source"@) {
        None => row.source is None || o.source is Nothing,
        Some(t) => row.source is Some && !(o.source is Nothing) && Some(t->Object_0)
            == project::source_view(row.source->0, o.source),
    }
    &&& match top_hits::member(shown, "fields"@) {
        None => o.docvalue_fields.len() == 0,
        Some(t) => o.docvalue_fields.len() > 0 && forall|e: (Seq<char>, Tree)| #[trigger]
            t->Object_0.contains(e) <==> o.docvalue_fields.contains(e.0) && value::lookup(
                row.fields,
                e.0,
            ) == Some(e.1),
    }
    &&& top_hits::member(shown, "sort"@) == top_hits::member(hit, "sort"@)
}

proof fn hit_names_differ()
    ensures
        "_id"@ != "_score"@ && "_id"@ != "_source"@ && "_id"@ != "fields"@ && "_id"@ != "sort"@,
        "_score"@ != "_source"@ && "_score"@ != "fields"@ && "_score"@ != "sort"@,
        "_source"@ != "fields"@ && "_source"@ != "sort"@,
        "fields"@ != "sort"@,
{
    reveal_strlit("_id");
    reveal_strlit("_score");
    reveal_strlit("_source");
    reveal_strlit("fields");
    reveal_strlit("sort");
    assert("_id"@.len() == 3);
    assert("_score"@.len() == 6 && "_score"@[0] == '_');
    assert("_source"@.len() == 7);
    assert("fields"@.len() == 6 && "fields"@[0] == 'f');
    assert("sort"@.len() == 4);
}

proof fn entries_show_the_row(hit: Tree, row: HitRowV, o: OptionsV)
    ensures
        shows(Tree::Object(top_hits::hit_entries(hit, row, o)), hit, row, o),
{
    hit_names_differ();
    let id = ("_id"@, pk::key_json(row.pk));
    let score = ("_score"@, Tree::Null);
    let none = Seq::<(Seq<char>, Tree)>::empty();
    let a = none.push(id).push(score);
    assert(seq![id, score] =~= a);
    let picked = top_hits::picked(row.fields, o.docvalue_fields, o.docvalue_fields.len());
    let b = match top_hits::hit_source(row, o) {
        Some(s) => a.push(("_source"@, Tree::Object(s))),
        None => a,
    };
    let c = if o.docvalue_fields.len() > 0 {
        b.push(("fields"@, Tree::Object(picked)))
    } else {
        b
    };
    let found = |name: Seq<char>| value::lookup(top_hits::hit_entries(hit, row, o), name);
    assert forall|name: Seq<char>| #[trigger] found(name) == (if name == "_id"@ {
        Some(id.1)
    } else if name == "_score"@ {
        Some(Tree::Null)
    } else if name == "_source"@ {
        match top_hits::hit_source(row, o) {
            Some(s) => Some(Tree::Object(s)),
            None => None,
        }
    } else if name == "fields"@ {
        if o.docvalue_fields.len() > 0 {
            Some(Tree::Object(picked))
        } else {
            None
        }
    } else if name == "sort"@ {
        top_hits::member(hit, "sort"@)
    } else {
        None
    }) by {
        a_pushed_entry_is_found(none, id, name);
        a_pushed_entry_is_found(none.push(id), score, name);
        if let Some(s) = top_hits::hit_source(row, o) {
            a_pushed_entry_is_found(a, ("_source"@, Tree::Object(s)), name);
        }
        if o.docvalue_fields.len() > 0 {
            a_pushed_entry_is_found(b, ("fields"@, Tree::Object(picked)), name);
        }
        if let Some(sort) = top_hits::member(hit, "sort"@) {
            a_pushed_entry_is_found(c, ("sort"@, sort), name);
        }
    }
    assert(found("_id"@) == Some(id.1));
    assert(found("_score"@) == Some(Tree::Null));
    assert(found("_source"@) == match top_hits::hit_source(row, o) {
        Some(s) => Some(Tree::Object(s)),
        None => None,
    });
    assert(found("fields"@) == if o.docvalue_fields.len() > 0 {
        Some(Tree::Object(picked))
    } else {
        None
    });
    assert(found("sort"@) == top_hits::member(hit, "sort"@));
    assert forall|e: (Seq<char>, Tree)| #[trigger]
        picked.contains(e) <==> o.docvalue_fields.contains(e.0) && value::lookup(row.fields, e.0)
            == Some(e.1) by {
        picks_are_what_is_asked(row.fields, o.docvalue_fields, o.docvalue_fields.len(), e);
        assert(o.docvalue_fields.take(o.docvalue_fields.len() as int) =~= o.docvalue_fields);
    }
}

proof fn found_rows_have_the_id(rows: Seq<HitRowV>, id: u64, i: int)
    requires
        0 <= i,
    ensures
        top_hits::row_at(rows, id, i) matches Some(row) ==> rows.contains(row) && row.row_id == id,
        top_hits::row_at(rows, id, i) is None ==> forall|j: int|
            i <= j < rows.len() ==> (#[trigger] rows[j]).row_id != id,
    decreases rows.len() - i,
{
    if i < rows.len() {
        found_rows_have_the_id(rows, id, i + 1);
    }
}

/// Whether a hit that is shown is that of a fetched row: the one whose id the
/// hit carries.
pub open spec fn shows_its_row(
    shown: Tree,
    hit: Tree,
    rows: Seq<HitRowV>,
    rowid: Seq<char>,
    o: OptionsV,
) -> bool {
    exists|row: HitRowV| #[trigger]
        rows.contains(row) && top_hits::row_in(hit, rowid) == Some(row.row_id) && shows(
            shown,
            hit,
            row,
            o,
        )
}

/// The hits of an answer stand in the order of those that were found, each
/// showing the fetched row whose id it carries; and no hit of a row that was
/// fetched is refused.
pub proof fn hits_show_their_rows(
    hits: Seq<Tree>,
    o: OptionsV,
    rows: Seq<HitRowV>,
    rowid: Seq<char>,
    n: nat,
)
    requires
        n <= hits.len(),
    ensures
        match top_hits::filled(hits, o, rows, rowid, n) {
            Ok(out) => out.len() == n && forall|i: int|
                0 <= i < n ==> shows_its_row(#[trigger] out[i], hits[i], rows, rowid, o),
            Err(_) => exists|i: int|
                0 <= i < n && match top_hits::row_in(#[trigger] hits[i], rowid) {
                    None => true,
                    Some(id) => forall|j: int|
                        0 <= j < rows.len() ==> (#[trigger] rows[j]).row_id != id,
                },
        },
    decreases n,
{
    if n > 0 {
        hits_show_their_rows(hits, o, rows, rowid, (n - 1) as nat);
        let hit = hits[n - 1];
        if let Some(id) = top_hits::row_in(hit, rowid) {
            found_rows_have_the_id(rows, id, 0);
            if let Some(row) = top_hits::row_at(rows, id, 0) {
                entries_show_the_row(hit, row, o);
                if let Ok(out) = top_hits::filled(hits, o, rows, rowid, n) {
                    assert(rows.contains(row));
                    assert(shows_its_row(out[n - 1], hit, rows, rowid, o));
                    let before = top_hits::filled(hits, o, rows, rowid, (n - 1) as nat)->Ok_0;
                    assert forall|i: int| 0 <= i < n implies shows_its_row(
                        #[trigger] out[i],
                        hits[i],
                        rows,
                        rowid,
                        o,
                    ) by {
                        if i < n - 1 {
                            assert(out[i] == before[i]);
                        }
                    }
                }
            }
        }
    }
}

/// The rows that are noted for some hits are all that filling them in needs.
pub proof fn noted_rows_are_enough(
    hits: Seq<Tree>,
    o: OptionsV,
    rows: Seq<HitRowV>,
    rowid: Seq<char>,
    n: nat,
)
    requires
        n <= hits.len(),
        top_hits::ids_of(hits, rowid, n) matches Ok(ids) && forall|i: int|
            0 <= i < ids.len() ==> exists|j: int|
                0 <= j < rows.len() && (#[trigger] rows[j]).row_id == #[trigger] ids[i],
    ensures
        top_hits::filled(hits, o, rows, rowid, n) is Ok,
    decreases n,
{
    if n > 0 {
        let ids = top_hits::ids_of(hits, rowid, n)->Ok_0;
        let before = top_hits::ids_of(hits, rowid, (n - 1) as nat)->Ok_0;
        assert forall|i: int| 0 <= i < before.len() implies exists|j: int|
            0 <= j < rows.len() && (#[trigger] rows[j]).row_id == #[trigger] before[i] by {
            assert(before[i] == ids[i]);
        }
        noted_rows_are_enough(hits, o, rows, rowid, (n - 1) as nat);
        let id = ids[ids.len() - 1];
        assert(top_hits::row_in(hits[n - 1], rowid) == Some(id));
        found_rows_have_the_id(rows, id, 0);
    }
}

/// A `_source` option of a `top_hits` asks for everything when it is absent
/// or true, for nothing when it is false, and else for the paths that it
/// names: a text or a list for those to keep.
pub proof fn source_options_are_what_is_said(t: Tree, s: Seq<char>, items: Seq<Seq<char>>)
    ensures
        aggs::source_of(None) == Ok::<SourceFilterV, Failure>(SourceFilterV::All),
        aggs::source_of(Some(Tree::Bool(true))) == Ok::<SourceFilterV, Failure>(SourceFilterV::All),
        aggs::source_of(Some(Tree::Bool(false))) == Ok::<SourceFilterV, Failure>(
            SourceFilterV::Nothing,
        ),
        aggs::source_of(Some(Tree::Text(s))) matches Ok(SourceFilterV::Paths {
            include_paths,
            exclude_paths,
        }) && include_paths =~= seq![s] && exclude_paths.len() == 0,
        t == Tree::Array(items.map_values(|x: Seq<char>| Tree::Text(x))) ==> (aggs::source_of(
            Some(t),
        ) matches Ok(SourceFilterV::Paths { include_paths, exclude_paths }) && include_paths
            =~= items && exclude_paths.len() == 0),
{
}

} // verus!
