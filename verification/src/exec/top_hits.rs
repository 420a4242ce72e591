//! The `top_hits` of an aggregation's answer: which rows they name, and the
//! documents in their place.

use crate::error::{Failure, ServiceError};
use crate::exec::aggs;
use crate::exec::aggs::{OptionsV, TopHitsOptions};
use crate::exec::project;
use crate::flight_ingest::target;
use crate::json::entries;
use crate::json::pk;
use crate::json::value;
use crate::json::value::{Json, Tree};
use crate::key::{Key, PrimaryKey};
use crate::text;
use vstd::prelude::*;
use vstd::string::*;

verus! {

broadcast use {crate::json::value::view_object, crate::json::value::view_array};

/// The value of a name, if the value is an object that has it.
pub open spec fn member(t: Tree, name: Seq<char>) -> Option<Tree> {
    match t {
        Tree::Object(es) => value::lookup(es, name),
        _ => None,
    }
}

fn member_of<'a>(v: &'a Json, name: &str) -> (r: Option<&'a Json>)
    ensures
        match r {
            Some(m) => member(v@, name@) == Some(m@),
            None => member(v@, name@) is None,
        },
{
    match v {
        Json::Object(es) => value::find(es, name),
        _ => None,
    }
}

/// The row id that a hit carries: the value of its row id field, or the
/// first of its values.
pub open spec fn row_in(hit: Tree, rowid: Seq<char>) -> Option<u64> {
    let v = match member(hit, "docvalue_fields"@) {
        None => None,
        Some(fields) => member(fields, rowid),
    };
    let v = match v {
        Some(Tree::Array(items)) => if items.len() > 0 {
            Some(items[0])
        } else {
            None
        },
        other => other,
    };
    match v {
        Some(Tree::Number(n)) => value::num_u64(n),
        _ => None,
    }
}

/// The error of a hit that carries no row id.
pub open spec fn rowless(rowid: Seq<char>) -> Failure {
    Failure::Internal("a top_hits hit without "@ + rowid)
}

/// The row id that a hit carries.
pub fn hit_rowid(hit: &Json, rowid: &str) -> (r: Result<u64, ServiceError>)
    ensures
        match r {
            Ok(n) => row_in(hit@, rowid@) == Some(n),
            Err(e) => row_in(hit@, rowid@) is None && e@ == rowless(rowid@),
        },
{
    let v = match member_of(hit, "docvalue_fields") {
        None => None,
        Some(fields) => member_of(fields, rowid),
    };
    let v = match v {
        Some(Json::Array(items)) => if items.len() > 0 {
            Some(&items[0])
        } else {
            None
        },
        other => other,
    };
    let n = match v {
        Some(v) => v.as_u64(),
        None => None,
    };
    match n {
        Some(n) => Ok(n),
        None => Err(ServiceError::Internal(text::cat2("a top_hits hit without ", rowid))),
    }
}

/// A fetched row for hits: its source, and the JSON values of those fields
/// that some `top_hits` asks for and that have a value.
pub struct HitRow {
    pub row_id: u64,
    pub pk: PrimaryKey,
    pub source: Option<Vec<(String, Json)>>,
    pub fields: Vec<(String, Json)>,
}

/// What a row for hits is.
pub struct HitRowV {
    pub row_id: u64,
    pub pk: Key,
    pub source: Option<Seq<(Seq<char>, Tree)>>,
    pub fields: Seq<(Seq<char>, Tree)>,
}

impl View for HitRow {
    type V = HitRowV;

    open spec fn view(&self) -> HitRowV {
        HitRowV {
            row_id: self.row_id,
            pk: self.pk@,
            source: match self.source {
                Some(s) => Some(value::entries_of(s@)),
                None => None,
            },
            fields: value::entries_of(self.fields@),
        }
    }
}

/// What some rows for hits are.
pub open spec fn row_views(s: Seq<HitRow>) -> Seq<HitRowV> {
    Seq::new(s.len(), |i: int| s[i]@)
}

/// The values of the first `n` asked-for fields that have one, by name.
pub open spec fn picked(
    fields: Seq<(Seq<char>, Tree)>,
    names: Seq<Seq<char>>,
    n: nat,
) -> Seq<(Seq<char>, Tree)>
    decreases n,
{
    if n == 0 || n > names.len() {
        Seq::empty()
    } else {
        let before = picked(fields, names, (n - 1) as nat);
        match value::lookup(fields, names[n - 1]) {
            Some(v) => entries::put_by_name(before, names[n - 1], v),
            None => before,
        }
    }
}

fn pick(fields: &Vec<(String, Json)>, names: &Vec<String>) -> (r: Vec<(String, Json)>)
    ensures
        value::entries_of(r@) == picked(
            value::entries_of(fields@),
            text::texts(names@),
            names@.len(),
        ),
{
    let mut out: Vec<(String, Json)> = Vec::new();
    let mut i: usize = 0;
    assert(value::entries_of(out@) =~= Seq::empty());
    while i < names.len()
        invariant
            i <= names@.len(),
            value::entries_of(out@) == picked(
                value::entries_of(fields@),
                text::texts(names@),
                i as nat,
            ),
        decreases names.len() - i,
    {
        if let Some(v) = value::find(fields, &names[i]) {
            entries::put_entry_by_name(&mut out, &names[i], v.copy());
        }
        i += 1;
    }
    out
}

/// The source of a row through a filter.
pub open spec fn hit_source(row: HitRowV, o: OptionsV) -> Option<Seq<(Seq<char>, Tree)>> {
    match row.source {
        Some(s) => project::source_view(s, o.source),
        None => None,
    }
}

/// The entries of a hit: its key, no score, the source that is asked for,
/// the fields that are asked for and its sort values.
pub open spec fn hit_entries(hit: Tree, row: HitRowV, o: OptionsV) -> Seq<(Seq<char>, Tree)> {
    let head = seq![("_id"@, pk::key_json(row.pk)), ("_score"@, Tree::Null)];
    let head = match hit_source(row, o) {
        Some(s) => head.push(("_source"@, Tree::Object(s))),
        None => head,
    };
    let head = if o.docvalue_fields.len() > 0 {
        head.push(
            (
                "fields"@,
                Tree::Object(picked(row.fields, o.docvalue_fields, o.docvalue_fields.len())),
            ),
        )
    } else {
        head
    };
    match member(hit, "sort"@) {
        Some(sort) => head.push(("sort"@, sort)),
        None => head,
    }
}

fn push_entry(out: &mut Vec<(String, Json)>, name: &str, v: Json)
    ensures
        value::entries_of(final(out)@) == value::entries_of(old(out)@).push((name@, v@)),
{
    let ghost was = value::entries_of(out@);
    out.push((name.to_owned(), v));
    assert(value::entries_of(out@) =~= was.push((name@, v@)));
}

/// A hit of the answer.
pub fn top_hit(hit: &Json, row: &HitRow, option: &TopHitsOptions) -> (r: Json)
    ensures
        r@ == Tree::Object(hit_entries(hit@, row@, option@)),
{
    let mut out: Vec<(String, Json)> = Vec::new();
    assert(value::entries_of(out@) =~= Seq::empty());
    push_entry(&mut out, "_id", pk::to_json(&row.pk));
    push_entry(&mut out, "_score", Json::Null);
    assert(value::entries_of(out@) =~= seq![
        ("_id"@, pk::key_json(row.pk@)),
        ("_score"@, Tree::Null),
    ]);
    if let Some(source) = &row.source {
        if let Some(kept) = project::filter_source(source, &option.source) {
            push_entry(&mut out, "_source", Json::Object(kept));
        }
    }
    if option.docvalue_fields.len() > 0 {
        push_entry(
            &mut out,
            "fields",
            Json::Object(pick(&row.fields, &option.docvalue_fields)),
        );
    }
    if let Some(sort) = member_of(hit, "sort") {
        push_entry(&mut out, "sort", sort.copy());
    }
    Json::Object(out)
}

/// What hits are filled in from: the options by the names of the way to
/// them, and the fetched rows.
pub struct HitContext {
    pub options: Vec<(Vec<String>, TopHitsOptions)>,
    pub rows: Vec<HitRow>,
}

/// What hits are filled in from.
pub struct ContextV {
    pub options: Seq<(Seq<Seq<char>>, OptionsV)>,
    pub rows: Seq<HitRowV>,
}

impl View for HitContext {
    type V = ContextV;

    open spec fn view(&self) -> ContextV {
        ContextV {
            options: aggs::option_views(self.options@),
            rows: row_views(self.rows@),
        }
    }
}

/// The options at a way, from the `i`-th on.
pub open spec fn option_at(
    options: Seq<(Seq<Seq<char>>, OptionsV)>,
    path: Seq<Seq<char>>,
    i: int,
) -> Option<OptionsV>
    decreases options.len() - i,
{
    if i < 0 || i >= options.len() {
        None
    } else if options[i].0 == path {
        Some(options[i].1)
    } else {
        option_at(options, path, i + 1)
    }
}

fn same_path(a: &Vec<String>, b: &Vec<String>) -> (r: bool)
    ensures
        r == (text::texts(a@) == text::texts(b@)),
{
    let ghost x = text::texts(a@);
    let ghost y = text::texts(b@);
    if a.len() != b.len() {
        assert(x.len() != y.len());
        return false;
    }
    let mut i: usize = 0;
    while i < a.len()
        invariant
            i <= a@.len(),
            a@.len() == b@.len(),
            x == text::texts(a@),
            y == text::texts(b@),
            forall|j: int| 0 <= j < i ==> x[j] == y[j],
        decreases a.len() - i,
    {
        if !text::same(&a[i], &b[i]) {
            assert(x[i as int] != y[i as int]);
            return false;
        }
        i += 1;
    }
    assert(x =~= y);
    true
}

fn find_option<'a>(options: &'a Vec<(Vec<String>, TopHitsOptions)>, path: &Vec<String>) -> (r:
    Option<&'a TopHitsOptions>)
    ensures
        match r {
            Some(o) => option_at(aggs::option_views(options@), text::texts(path@), 0) == Some(o@),
            None => option_at(aggs::option_views(options@), text::texts(path@), 0) is None,
        },
{
    let ghost ov = aggs::option_views(options@);
    let mut i: usize = 0;
    while i < options.len()
        invariant
            i <= options@.len(),
            ov == aggs::option_views(options@),
            option_at(ov, text::texts(path@), 0) == option_at(ov, text::texts(path@), i as int),
        decreases options.len() - i,
    {
        assert(ov[i as int] == (text::texts(options@[i as int].0@), options@[i as int].1@));
        if same_path(&options[i].0, path) {
            return Some(&options[i].1);
        }
        i += 1;
    }
    None
}

/// The fetched row of an id, from the `i`-th on.
pub open spec fn row_at(rows: Seq<HitRowV>, id: u64, i: int) -> Option<HitRowV>
    decreases rows.len() - i,
{
    if i < 0 || i >= rows.len() {
        None
    } else if rows[i].row_id == id {
        Some(rows[i])
    } else {
        row_at(rows, id, i + 1)
    }
}

fn find_row<'a>(rows: &'a Vec<HitRow>, id: u64) -> (r: Option<&'a HitRow>)
    ensures
        match r {
            Some(row) => row_at(row_views(rows@), id, 0) == Some(row@),
            None => row_at(row_views(rows@), id, 0) is None,
        },
{
    let ghost rv = row_views(rows@);
    let mut i: usize = 0;
    while i < rows.len()
        invariant
            i <= rows@.len(),
            rv == row_views(rows@),
            row_at(rv, id, 0) == row_at(rv, id, i as int),
        decreases rows.len() - i,
    {
        assert(rv[i as int] == rows@[i as int]@);
        if rows[i].row_id == id {
            return Some(&rows[i]);
        }
        i += 1;
    }
    None
}

/// The row ids of the first `n` hits.
pub open spec fn ids_of(hits: Seq<Tree>, rowid: Seq<char>, n: nat) -> Result<Seq<u64>, Failure>
    decreases n,
{
    if n == 0 || n > hits.len() {
        Ok(Seq::empty())
    } else {
        match ids_of(hits, rowid, (n - 1) as nat) {
            Err(e) => Err(e),
            Ok(ids) => match row_in(hits[n - 1], rowid) {
                Some(id) => Ok(ids.push(id)),
                None => Err(rowless(rowid)),
            },
        }
    }
}

proof fn ids_stay_wrong(hits: Seq<Tree>, rowid: Seq<char>, n: nat, m: nat)
    requires
        n <= m <= hits.len(),
        ids_of(hits, rowid, n) is Err,
    ensures
        ids_of(hits, rowid, m) == ids_of(hits, rowid, n),
    decreases m - n,
{
    if n < m {
        ids_stay_wrong(hits, rowid, n, (m - 1) as nat);
    }
}

/// The first `n` hits with their documents.
pub open spec fn filled(
    hits: Seq<Tree>,
    o: OptionsV,
    rows: Seq<HitRowV>,
    rowid: Seq<char>,
    n: nat,
) -> Result<Seq<Tree>, Failure>
    decreases n,
{
    if n == 0 || n > hits.len() {
        Ok(Seq::empty())
    } else {
        match filled(hits, o, rows, rowid, (n - 1) as nat) {
            Err(e) => Err(e),
            Ok(out) => match row_in(hits[n - 1], rowid) {
                None => Err(rowless(rowid)),
                Some(id) => match row_at(rows, id, 0) {
                    None => Err(Failure::Internal("a top_hits row was not fetched"@)),
                    Some(row) => Ok(out.push(Tree::Object(hit_entries(hits[n - 1], row, o)))),
                },
            },
        }
    }
}

proof fn filled_stays_wrong(
    hits: Seq<Tree>,
    o: OptionsV,
    rows: Seq<HitRowV>,
    rowid: Seq<char>,
    n: nat,
    m: nat,
)
    requires
        n <= m <= hits.len(),
        filled(hits, o, rows, rowid, n) is Err,
    ensures
        filled(hits, o, rows, rowid, m) == filled(hits, o, rows, rowid, n),
    decreases m - n,
{
    if n < m {
        filled_stays_wrong(hits, o, rows, rowid, n, (m - 1) as nat);
    }
}

/// A result after a visit, and the row ids that were met.
pub struct VisitV {
    pub result: Seq<(Seq<char>, Tree)>,
    pub ids: Seq<u64>,
}

/// One value after a visit, and the row ids that were met.
pub struct ValueVisitV {
    pub result: Tree,
    pub ids: Seq<u64>,
}

/// What a visit does to one `top_hits` result: without a context it notes
/// the rows of the hits, with one it fills the hits in.
pub open spec fn visited_hits(
    res: Tree,
    path: Seq<Seq<char>>,
    rowid: Seq<char>,
    ctx: Option<ContextV>,
) -> Result<ValueVisitV, Failure> {
    match ctx {
        None => match member(res, "hits"@) {
            Some(Tree::Array(hits)) => match ids_of(hits, rowid, hits.len()) {
                Err(e) => Err(e),
                Ok(ids) => Ok(ValueVisitV { result: res, ids }),
            },
            _ => Ok(ValueVisitV { result: res, ids: Seq::empty() }),
        },
        Some(c) => match option_at(c.options, path, 0) {
            None => Err(
                Failure::Internal(
                    "no top_hits options at ["@ + target::quoted(path, path.len()) + "]"@,
                ),
            ),
            Some(o) => match member(res, "hits"@) {
                Some(Tree::Array(hits)) => match filled(hits, o, c.rows, rowid, hits.len()) {
                    Err(e) => Err(e),
                    Ok(new) => Ok(
                        ValueVisitV {
                            result: Tree::Object(
                                entries::put(res->Object_0, "hits"@, Tree::Array(new)),
                            ),
                            ids: Seq::empty(),
                        },
                    ),
                },
                _ => Ok(ValueVisitV { result: res, ids: Seq::empty() }),
            },
        },
    }
}

/// The result after visiting what the first `n` aggregations of a request
/// say of it.
pub open spec fn visited(
    result: Seq<(Seq<char>, Tree)>,
    request: Seq<(Seq<char>, Tree)>,
    path: Seq<Seq<char>>,
    rowid: Seq<char>,
    ctx: Option<ContextV>,
    n: nat,
) -> Result<VisitV, Failure>
    decreases request, 0nat, n,
{
    if n == 0 || n > request.len() {
        Ok(VisitV { result, ids: Seq::empty() })
    } else {
        match visited(result, request, path, rowid, ctx, (n - 1) as nat) {
            Err(e) => Err(e),
            Ok(v) => match (request[n - 1].1, value::lookup(v.result, request[n - 1].0)) {
                (Tree::Object(node), Some(res)) => {
                    proof {
                        assert(decreases_to!(request => request[n - 1]));
                        assert(decreases_to!(request[n - 1] => request[n - 1].1));
                        assert(decreases_to!(request[n - 1].1 => request[n - 1].1->Object_0));
                    }
                    match visited_node(res, node, path.push(request[n - 1].0), rowid, ctx) {
                        Err(e) => Err(e),
                        Ok(w) => Ok(
                            VisitV {
                                result: entries::put(v.result, request[n - 1].0, w.result),
                                ids: v.ids + w.ids,
                            },
                        ),
                    }
                },
                _ => Ok(v),
            },
        }
    }
}

/// The result of one aggregation after a visit: its own hits, or those of
/// its sub-aggregations in each of its buckets, or in itself where it has
/// no buckets.
pub open spec fn visited_node(
    res: Tree,
    node: Seq<(Seq<char>, Tree)>,
    path: Seq<Seq<char>>,
    rowid: Seq<char>,
    ctx: Option<ContextV>,
) -> Result<ValueVisitV, Failure>
    decreases node, 0nat, 0nat,
{
    if entries::has(node, "top_hits"@) {
        visited_hits(res, path, rowid, ctx)
    } else {
        match (aggs::sub_of(node), res) {
            (Some(sub), Tree::Object(re)) => {
                proof {
                    aggs::sub_is_smaller(node);
                }
                match value::lookup(re, "buckets"@) {
                    Some(Tree::Array(buckets)) => match visited_list(
                        buckets,
                        sub,
                        path,
                        rowid,
                        ctx,
                        buckets.len(),
                    ) {
                        Err(e) => Err(e),
                        Ok((new, ids)) => Ok(
                            ValueVisitV {
                                result: Tree::Object(
                                    entries::put(re, "buckets"@, Tree::Array(new)),
                                ),
                                ids,
                            },
                        ),
                    },
                    Some(Tree::Object(buckets)) => match visited_keyed(
                        buckets,
                        sub,
                        path,
                        rowid,
                        ctx,
                        buckets.len(),
                    ) {
                        Err(e) => Err(e),
                        Ok(v) => Ok(
                            ValueVisitV {
                                result: Tree::Object(
                                    entries::put(re, "buckets"@, Tree::Object(v.result)),
                                ),
                                ids: v.ids,
                            },
                        ),
                    },
                    _ => match visited(re, sub, path, rowid, ctx, sub.len()) {
                        Err(e) => Err(e),
                        Ok(v) => Ok(
                            ValueVisitV { result: Tree::Object(v.result), ids: v.ids },
                        ),
                    },
                }
            },
            _ => Ok(ValueVisitV { result: res, ids: Seq::empty() }),
        }
    }
}

/// One bucket after a visit.
pub open spec fn visited_bucket(
    bucket: Tree,
    sub: Seq<(Seq<char>, Tree)>,
    path: Seq<Seq<char>>,
    rowid: Seq<char>,
    ctx: Option<ContextV>,
) -> Result<ValueVisitV, Failure>
    decreases sub, 1nat, 0nat,
{
    match bucket {
        Tree::Object(b) => match visited(b, sub, path, rowid, ctx, sub.len()) {
            Err(e) => Err(e),
            Ok(v) => Ok(ValueVisitV { result: Tree::Object(v.result), ids: v.ids }),
        },
        _ => Ok(ValueVisitV { result: bucket, ids: Seq::empty() }),
    }
}

/// The first `n` buckets of a list after a visit.
pub open spec fn visited_list(
    buckets: Seq<Tree>,
    sub: Seq<(Seq<char>, Tree)>,
    path: Seq<Seq<char>>,
    rowid: Seq<char>,
    ctx: Option<ContextV>,
    n: nat,
) -> Result<(Seq<Tree>, Seq<u64>), Failure>
    decreases sub, 2nat, n,
{
    if n == 0 || n > buckets.len() {
        Ok((Seq::empty(), Seq::empty()))
    } else {
        match visited_list(buckets, sub, path, rowid, ctx, (n - 1) as nat) {
            Err(e) => Err(e),
            Ok((out, ids)) => match visited_bucket(buckets[n - 1], sub, path, rowid, ctx) {
                Err(e) => Err(e),
                Ok(v) => Ok((out.push(v.result), ids + v.ids)),
            },
        }
    }
}

/// The first `n` named buckets after a visit.
pub open spec fn visited_keyed(
    buckets: Seq<(Seq<char>, Tree)>,
    sub: Seq<(Seq<char>, Tree)>,
    path: Seq<Seq<char>>,
    rowid: Seq<char>,
    ctx: Option<ContextV>,
    n: nat,
) -> Result<VisitV, Failure>
    decreases sub, 2nat, n,
{
    if n == 0 || n > buckets.len() {
        Ok(VisitV { result: Seq::empty(), ids: Seq::empty() })
    } else {
        match visited_keyed(buckets, sub, path, rowid, ctx, (n - 1) as nat) {
            Err(e) => Err(e),
            Ok(before) => match visited_bucket(buckets[n - 1].1, sub, path, rowid, ctx) {
                Err(e) => Err(e),
                Ok(v) => Ok(
                    VisitV {
                        result: before.result.push((buckets[n - 1].0, v.result)),
                        ids: before.ids + v.ids,
                    },
                ),
            },
        }
    }
}

proof fn visit_stays_wrong(
    result: Seq<(Seq<char>, Tree)>,
    request: Seq<(Seq<char>, Tree)>,
    path: Seq<Seq<char>>,
    rowid: Seq<char>,
    ctx: Option<ContextV>,
    n: nat,
    m: nat,
)
    requires
        n <= m <= request.len(),
        visited(result, request, path, rowid, ctx, n) is Err,
    ensures
        visited(result, request, path, rowid, ctx, m) == visited(
            result,
            request,
            path,
            rowid,
            ctx,
            n,
        ),
    decreases m - n,
{
    if n < m {
        visit_stays_wrong(result, request, path, rowid, ctx, n, (m - 1) as nat);
    }
}

proof fn list_stays_wrong(
    buckets: Seq<Tree>,
    sub: Seq<(Seq<char>, Tree)>,
    path: Seq<Seq<char>>,
    rowid: Seq<char>,
    ctx: Option<ContextV>,
    n: nat,
    m: nat,
)
    requires
        n <= m <= buckets.len(),
        visited_list(buckets, sub, path, rowid, ctx, n) is Err,
    ensures
        visited_list(buckets, sub, path, rowid, ctx, m) == visited_list(
            buckets,
            sub,
            path,
            rowid,
            ctx,
            n,
        ),
    decreases m - n,
{
    if n < m {
        list_stays_wrong(buckets, sub, path, rowid, ctx, n, (m - 1) as nat);
    }
}

proof fn keyed_stays_wrong(
    buckets: Seq<(Seq<char>, Tree)>,
    sub: Seq<(Seq<char>, Tree)>,
    path: Seq<Seq<char>>,
    rowid: Seq<char>,
    ctx: Option<ContextV>,
    n: nat,
    m: nat,
)
    requires
        n <= m <= buckets.len(),
        visited_keyed(buckets, sub, path, rowid, ctx, n) is Err,
    ensures
        visited_keyed(buckets, sub, path, rowid, ctx, m) == visited_keyed(
            buckets,
            sub,
            path,
            rowid,
            ctx,
            n,
        ),
    decreases m - n,
{
    if n < m {
        keyed_stays_wrong(buckets, sub, path, rowid, ctx, n, (m - 1) as nat);
    }
}

/// A context that may be absent.
pub open spec fn opt_context(c: Option<&HitContext>) -> Option<ContextV> {
    match c {
        Some(c) => Some(c@),
        None => None,
    }
}

fn collect_ids(hits: &Vec<Json>, rowid: &str, ids: &mut Vec<u64>) -> (r: Result<(), ServiceError>)
    ensures
        match r {
            Ok(_) => ids_of(value::items_of(hits@), rowid@, hits@.len()) matches Ok(new)
                && final(ids)@ == old(ids)@ + new,
            Err(e) => ids_of(value::items_of(hits@), rowid@, hits@.len()) == Err::<
                Seq<u64>,
                Failure,
            >(e@),
        },
{
    let ghost hv = value::items_of(hits@);
    let ghost was = ids@;
    let mut i: usize = 0;
    assert(was + Seq::<u64>::empty() =~= was);
    while i < hits.len()
        invariant
            i <= hits@.len(),
            hv == value::items_of(hits@),
            ids_of(hv, rowid@, i as nat) matches Ok(new) && ids@ == was + new,
        decreases hits.len() - i,
    {
        let ghost before = ids_of(hv, rowid@, i as nat)->Ok_0;
        match hit_rowid(&hits[i], rowid) {
            Ok(id) => {
                ids.push(id);
                assert((was + before).push(id) =~= was + before.push(id));
            },
            Err(e) => {
                proof {
                    ids_stay_wrong(hv, rowid@, i as nat + 1, hits@.len());
                }
                return Err(e);
            },
        }
        i += 1;
    }
    Ok(())
}

fn fill(hits: &Vec<Json>, option: &TopHitsOptions, rows: &Vec<HitRow>, rowid: &str) -> (r: Result<
    Vec<Json>,
    ServiceError,
>)
    ensures
        match r {
            Ok(new) => filled(
                value::items_of(hits@),
                option@,
                row_views(rows@),
                rowid@,
                hits@.len(),
            ) == Ok::<Seq<Tree>, Failure>(value::items_of(new@)),
            Err(e) => filled(
                value::items_of(hits@),
                option@,
                row_views(rows@),
                rowid@,
                hits@.len(),
            ) == Err::<Seq<Tree>, Failure>(e@),
        },
{
    let ghost hv = value::items_of(hits@);
    let mut out: Vec<Json> = Vec::new();
    let mut i: usize = 0;
    assert(value::items_of(out@) =~= Seq::empty());
    while i < hits.len()
        invariant
            i <= hits@.len(),
            hv == value::items_of(hits@),
            filled(hv, option@, row_views(rows@), rowid@, i as nat) == Ok::<Seq<Tree>, Failure>(
                value::items_of(out@),
            ),
        decreases hits.len() - i,
    {
        let id: u64 = match hit_rowid(&hits[i], rowid) {
            Ok(id) => id,
            Err(e) => {
                proof {
                    filled_stays_wrong(
                        hv,
                        option@,
                        row_views(rows@),
                        rowid@,
                        i as nat + 1,
                        hits@.len(),
                    );
                }
                return Err(e);
            },
        };
        match find_row(rows, id) {
            Some(row) => {
                let ghost was = value::items_of(out@);
                let new = top_hit(&hits[i], row, option);
                let ghost nv = new@;
                out.push(new);
                assert(value::items_of(out@) =~= was.push(nv));
            },
            None => {
                proof {
                    filled_stays_wrong(
                        hv,
                        option@,
                        row_views(rows@),
                        rowid@,
                        i as nat + 1,
                        hits@.len(),
                    );
                }
                return Err(ServiceError::Internal("a top_hits row was not fetched".to_owned()));
            },
        }
        i += 1;
    }
    Ok(out)
}

fn no_options(path: &Vec<String>) -> (r: ServiceError)
    ensures
        r@ == Failure::Internal(
            "no top_hits options at ["@ + target::quoted(text::texts(path@), path@.len()) + "]"@,
        ),
{
    let shown = target::quoted_list(path);
    ServiceError::Internal(text::cat3("no top_hits options at [", &shown, "]"))
}

fn visit_hits(
    res: &Json,
    path: &Vec<String>,
    rowid: &str,
    ctx: Option<&HitContext>,
    ids: &mut Vec<u64>,
) -> (r: Result<Json, ServiceError>)
    ensures
        match r {
            Ok(new) => visited_hits(
                res@,
                text::texts(path@),
                rowid@,
                opt_context(ctx),
            ) matches Ok(v) && new@ == v.result && final(ids)@ == old(ids)@ + v.ids,
            Err(e) => visited_hits(res@, text::texts(path@), rowid@, opt_context(ctx)) == Err::<
                ValueVisitV,
                Failure,
            >(e@),
        },
{
    assert(ids@ + Seq::<u64>::empty() =~= ids@);
    match ctx {
        None => {
            if let Some(Json::Array(hits)) = member_of(res, "hits") {
                if let Err(e) = collect_ids(hits, rowid, ids) {
                    return Err(e);
                }
            }
            Ok(res.copy())
        },
        Some(c) => {
            let option = match find_option(&c.options, path) {
                Some(o) => o,
                None => {
                    return Err(no_options(path));
                },
            };
            match res {
                Json::Object(es) => {
                    if let Some(Json::Array(hits)) = value::find(es, "hits") {
                        match fill(hits, option, &c.rows, rowid) {
                            Ok(new) => {
                                let mut out = project::copy_entries(es);
                                entries::put_entry(&mut out, "hits", Json::Array(new));
                                return Ok(Json::Object(out));
                            },
                            Err(e) => {
                                return Err(e);
                            },
                        }
                    }
                    Ok(res.copy())
                },
                _ => Ok(res.copy()),
            }
        },
    }
}

/// Visits one bucket.
fn visit_bucket(
    bucket: &Json,
    sub: &Vec<(String, Json)>,
    path: &Vec<String>,
    rowid: &str,
    ctx: Option<&HitContext>,
    ids: &mut Vec<u64>,
) -> (r: Result<Json, ServiceError>)
    ensures
        match r {
            Ok(new) => visited_bucket(
                bucket@,
                value::entries_of(sub@),
                text::texts(path@),
                rowid@,
                opt_context(ctx),
            ) matches Ok(v) && new@ == v.result && final(ids)@ == old(ids)@ + v.ids,
            Err(e) => visited_bucket(
                bucket@,
                value::entries_of(sub@),
                text::texts(path@),
                rowid@,
                opt_context(ctx),
            ) == Err::<ValueVisitV, Failure>(e@),
        },
    decreases sub@, 2nat,
{
    assert(ids@ + Seq::<u64>::empty() =~= ids@);
    match bucket {
        Json::Object(b) => match visit_all(b, sub, path, rowid, ctx, ids) {
            Ok(new) => Ok(Json::Object(new)),
            Err(e) => Err(e),
        },
        _ => Ok(bucket.copy()),
    }
}

/// Visits the buckets of a list.
fn visit_list(
    buckets: &Vec<Json>,
    sub: &Vec<(String, Json)>,
    path: &Vec<String>,
    rowid: &str,
    ctx: Option<&HitContext>,
    ids: &mut Vec<u64>,
) -> (r: Result<Vec<Json>, ServiceError>)
    ensures
        match r {
            Ok(new) => visited_list(
                value::items_of(buckets@),
                value::entries_of(sub@),
                text::texts(path@),
                rowid@,
                opt_context(ctx),
                buckets@.len(),
            ) matches Ok(v) && value::items_of(new@) == v.0 && final(ids)@ == old(ids)@ + v.1,
            Err(e) => visited_list(
                value::items_of(buckets@),
                value::entries_of(sub@),
                text::texts(path@),
                rowid@,
                opt_context(ctx),
                buckets@.len(),
            ) == Err::<(Seq<Tree>, Seq<u64>), Failure>(e@),
        },
    decreases sub@, 3nat,
{
    let ghost bv = value::items_of(buckets@);
    let ghost sv = value::entries_of(sub@);
    let ghost pv = text::texts(path@);
    let ghost cv = opt_context(ctx);
    let ghost was = ids@;
    let mut out: Vec<Json> = Vec::new();
    let mut i: usize = 0;
    proof {
        assert(value::items_of(out@) =~= Seq::empty());
        assert(was + Seq::<u64>::empty() =~= was);
    }
    while i < buckets.len()
        invariant
            i <= buckets@.len(),
            bv == value::items_of(buckets@),
            sv == value::entries_of(sub@),
            pv == text::texts(path@),
            cv == opt_context(ctx),
            visited_list(bv, sv, pv, rowid@, cv, i as nat) matches Ok(v) && value::items_of(out@)
                == v.0 && ids@ == was + v.1,
        decreases buckets.len() - i,
    {
        let ghost before = visited_list(bv, sv, pv, rowid@, cv, i as nat)->Ok_0;
        match visit_bucket(&buckets[i], sub, path, rowid, ctx, ids) {
            Ok(new) => {
                let ghost nv = new@;
                out.push(new);
                proof {
                    let more = visited_bucket(bv[i as int], sv, pv, rowid@, cv)->Ok_0.ids;
                    assert(value::items_of(out@) =~= before.0.push(nv));
                    assert(was + before.1 + more =~= was + (before.1 + more));
                }
            },
            Err(e) => {
                proof {
                    list_stays_wrong(bv, sv, pv, rowid@, cv, i as nat + 1, buckets@.len());
                }
                return Err(e);
            },
        }
        i += 1;
    }
    Ok(out)
}

/// Visits buckets that have names.
fn visit_keyed(
    buckets: &Vec<(String, Json)>,
    sub: &Vec<(String, Json)>,
    path: &Vec<String>,
    rowid: &str,
    ctx: Option<&HitContext>,
    ids: &mut Vec<u64>,
) -> (r: Result<Vec<(String, Json)>, ServiceError>)
    ensures
        match r {
            Ok(new) => visited_keyed(
                value::entries_of(buckets@),
                value::entries_of(sub@),
                text::texts(path@),
                rowid@,
                opt_context(ctx),
                buckets@.len(),
            ) matches Ok(v) && value::entries_of(new@) == v.result && final(ids)@ == old(ids)@
                + v.ids,
            Err(e) => visited_keyed(
                value::entries_of(buckets@),
                value::entries_of(sub@),
                text::texts(path@),
                rowid@,
                opt_context(ctx),
                buckets@.len(),
            ) == Err::<VisitV, Failure>(e@),
        },
    decreases sub@, 3nat,
{
    let ghost bv = value::entries_of(buckets@);
    let ghost sv = value::entries_of(sub@);
    let ghost pv = text::texts(path@);
    let ghost cv = opt_context(ctx);
    let ghost was = ids@;
    let mut out: Vec<(String, Json)> = Vec::new();
    let mut i: usize = 0;
    proof {
        assert(value::entries_of(out@) =~= Seq::empty());
        assert(was + Seq::<u64>::empty() =~= was);
    }
    while i < buckets.len()
        invariant
            i <= buckets@.len(),
            bv == value::entries_of(buckets@),
            sv == value::entries_of(sub@),
            pv == text::texts(path@),
            cv == opt_context(ctx),
            visited_keyed(bv, sv, pv, rowid@, cv, i as nat) matches Ok(v) && value::entries_of(
                out@,
            ) == v.result && ids@ == was + v.ids,
        decreases buckets.len() - i,
    {
        let ghost before = visited_keyed(bv, sv, pv, rowid@, cv, i as nat)->Ok_0;
        match visit_bucket(&buckets[i].1, sub, path, rowid, ctx, ids) {
            Ok(new) => {
                let ghost nv = new@;
                push_entry(&mut out, &buckets[i].0, new);
                proof {
                    let more = visited_bucket(bv[i as int].1, sv, pv, rowid@, cv)->Ok_0.ids;
                    assert(was + before.ids + more =~= was + (before.ids + more));
                }
            },
            Err(e) => {
                proof {
                    keyed_stays_wrong(bv, sv, pv, rowid@, cv, i as nat + 1, buckets@.len());
                }
                return Err(e);
            },
        }
        i += 1;
    }
    Ok(out)
}

/// Visits the result of one aggregation.
fn visit_node(
    res: &Json,
    node: &Vec<(String, Json)>,
    path: &Vec<String>,
    rowid: &str,
    ctx: Option<&HitContext>,
    ids: &mut Vec<u64>,
) -> (r: Result<Json, ServiceError>)
    ensures
        match r {
            Ok(new) => visited_node(
                res@,
                value::entries_of(node@),
                text::texts(path@),
                rowid@,
                opt_context(ctx),
            ) matches Ok(v) && new@ == v.result && final(ids)@ == old(ids)@ + v.ids,
            Err(e) => visited_node(
                res@,
                value::entries_of(node@),
                text::texts(path@),
                rowid@,
                opt_context(ctx),
            ) == Err::<ValueVisitV, Failure>(e@),
        },
    decreases node@, 0nat,
{
    let ghost nv = value::entries_of(node@);
    assert(ids@ + Seq::<u64>::empty() =~= ids@);
    if entries::find_entry(node, "top_hits").is_some() {
        return visit_hits(res, path, rowid, ctx, ids);
    }
    let key: &str = if entries::find_entry(node, "aggs").is_some() {
        "aggs"
    } else {
        "aggregations"
    };
    assert(key@ == aggs::sub_key(nv));
    if let Some(i) = entries::find_entry(node, key) {
        if let Json::Object(sub) = &node[i].1 {
            proof {
                assert(decreases_to!(node@ => node@[i as int]));
                assert(decreases_to!(node@[i as int] => node@[i as int].1));
                assert(decreases_to!(node@[i as int].1 => node@[i as int].1->Object_0));
                assert(decreases_to!(*sub => sub@));
                assert(aggs::sub_of(nv) == Some(value::entries_of(sub@)));
            }
            if let Json::Object(re) = res {
                match value::find(re, "buckets") {
                    Some(Json::Array(buckets)) => {
                        return match visit_list(buckets, sub, path, rowid, ctx, ids) {
                            Ok(new) => {
                                let mut out = project::copy_entries(re);
                                entries::put_entry(&mut out, "buckets", Json::Array(new));
                                Ok(Json::Object(out))
                            },
                            Err(e) => Err(e),
                        };
                    },
                    Some(Json::Object(buckets)) => {
                        return match visit_keyed(buckets, sub, path, rowid, ctx, ids) {
                            Ok(new) => {
                                let mut out = project::copy_entries(re);
                                entries::put_entry(&mut out, "buckets", Json::Object(new));
                                Ok(Json::Object(out))
                            },
                            Err(e) => Err(e),
                        };
                    },
                    _ => {
                        return match visit_all(re, sub, path, rowid, ctx, ids) {
                            Ok(new) => Ok(Json::Object(new)),
                            Err(e) => Err(e),
                        };
                    },
                }
            }
        }
    }
    Ok(res.copy())
}

/// Visits every `top_hits` result of an answer, walking the request beside
/// it.
fn visit_all(
    result: &Vec<(String, Json)>,
    request: &Vec<(String, Json)>,
    path: &Vec<String>,
    rowid: &str,
    ctx: Option<&HitContext>,
    ids: &mut Vec<u64>,
) -> (r: Result<Vec<(String, Json)>, ServiceError>)
    ensures
        match r {
            Ok(new) => visited(
                value::entries_of(result@),
                value::entries_of(request@),
                text::texts(path@),
                rowid@,
                opt_context(ctx),
                request@.len(),
            ) matches Ok(v) && value::entries_of(new@) == v.result && final(ids)@ == old(ids)@
                + v.ids,
            Err(e) => visited(
                value::entries_of(result@),
                value::entries_of(request@),
                text::texts(path@),
                rowid@,
                opt_context(ctx),
                request@.len(),
            ) == Err::<VisitV, Failure>(e@),
        },
    decreases request@, 1nat,
{
    let ghost rv = value::entries_of(result@);
    let ghost qv = value::entries_of(request@);
    let ghost pv = text::texts(path@);
    let ghost cv = opt_context(ctx);
    let ghost was = ids@;
    let mut out = project::copy_entries(result);
    let mut i: usize = 0;
    assert(was + Seq::<u64>::empty() =~= was);
    while i < request.len()
        invariant
            i <= request@.len(),
            rv == value::entries_of(result@),
            qv == value::entries_of(request@),
            pv == text::texts(path@),
            cv == opt_context(ctx),
            visited(rv, qv, pv, rowid@, cv, i as nat) matches Ok(v) && value::entries_of(out@)
                == v.result && ids@ == was + v.ids,
        decreases request.len() - i,
    {
        let ghost before = visited(rv, qv, pv, rowid@, cv, i as nat)->Ok_0;
        let ghost name = request@[i as int].0@;
        assert(qv[i as int] == (name, request@[i as int].1@));
        if let Json::Object(node) = &request[i].1 {
            if let Some(at) = entries::find_entry(&out, &request[i].0) {
                let mut below = text::copy_all(path);
                below.push(request[i].0.clone());
                proof {
                    assert(text::texts(below@) =~= pv.push(name));
                    assert(decreases_to!(request@ => request@[i as int]));
                    assert(decreases_to!(request@[i as int] => request@[i as int].1));
                    assert(decreases_to!(request@[i as int].1 => request@[i as int].1->Object_0));
                    assert(decreases_to!(*node => node@));
                }
                match visit_node(&out[at].1, node, &below, rowid, ctx, ids) {
                    Ok(new) => {
                        proof {
                            let more = visited_node(
                                out@[at as int].1@,
                                value::entries_of(node@),
                                pv.push(name),
                                rowid@,
                                cv,
                            )->Ok_0.ids;
                            assert(was + before.ids + more =~= was + (before.ids + more));
                        }
                        entries::put_entry(&mut out, &request[i].0, new);
                    },
                    Err(e) => {
                        proof {
                            visit_stays_wrong(
                                rv,
                                qv,
                                pv,
                                rowid@,
                                cv,
                                i as nat + 1,
                                request@.len(),
                            );
                        }
                        return Err(e);
                    },
                }
            }
        }
        i += 1;
    }
    Ok(out)
}

/// The row ids that the hits of an answer name, in the order of the walk.
pub fn hit_rows(result: &Vec<(String, Json)>, request: &Vec<(String, Json)>, rowid: &str) -> (r:
    Result<Vec<u64>, ServiceError>)
    ensures
        match r {
            Ok(ids) => visited(
                value::entries_of(result@),
                value::entries_of(request@),
                Seq::empty(),
                rowid@,
                None,
                request@.len(),
            ) matches Ok(v) && ids@ == v.ids,
            Err(e) => visited(
                value::entries_of(result@),
                value::entries_of(request@),
                Seq::empty(),
                rowid@,
                None,
                request@.len(),
            ) == Err::<VisitV, Failure>(e@),
        },
{
    let path: Vec<String> = Vec::new();
    let mut ids: Vec<u64> = Vec::new();
    assert(text::texts(path@) =~= Seq::empty());
    match visit_all(result, request, &path, rowid, None, &mut ids) {
        Ok(_) => {
            proof {
                let v = visited(
                    value::entries_of(result@),
                    value::entries_of(request@),
                    Seq::empty(),
                    rowid@,
                    None,
                    request@.len(),
                )->Ok_0;
                assert(Seq::<u64>::empty() + v.ids =~= v.ids);
            }
            Ok(ids)
        },
        Err(e) => Err(e),
    }
}

/// The answer with its hits filled in from the fetched rows.
pub fn fill_hits(
    result: &Vec<(String, Json)>,
    request: &Vec<(String, Json)>,
    rowid: &str,
    ctx: &HitContext,
) -> (r: Result<Vec<(String, Json)>, ServiceError>)
    ensures
        match r {
            Ok(new) => visited(
                value::entries_of(result@),
                value::entries_of(request@),
                Seq::empty(),
                rowid@,
                Some(ctx@),
                request@.len(),
            ) matches Ok(v) && value::entries_of(new@) == v.result,
            Err(e) => visited(
                value::entries_of(result@),
                value::entries_of(request@),
                Seq::empty(),
                rowid@,
                Some(ctx@),
                request@.len(),
            ) == Err::<VisitV, Failure>(e@),
        },
{
    let path: Vec<String> = Vec::new();
    let mut ids: Vec<u64> = Vec::new();
    assert(text::texts(path@) =~= Seq::empty());
    visit_all(result, request, &path, rowid, Some(ctx), &mut ids)
}

} // verus!
