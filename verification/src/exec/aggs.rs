//! Aggregations: what a request's `top_hits` ask for, the rewrite that has
//! them return row ids, the documents that are counted, and the hits of the
//! answer.

use crate::collection::{FieldKind, ResolvedField};
use crate::error::{Failure, ServiceError};
use crate::exec::mask;
use crate::exec::project;
use crate::ir::{SourceFilter, SourceFilterV};
use crate::json::entries;
use crate::json::value;
use crate::json::value::{Json, Tree};
use crate::text;
use roaring::{RoaringBitmap, RoaringTreemap};
use vstd::prelude::*;
use vstd::string::*;

verus! {

broadcast use {crate::json::value::view_object, crate::json::value::view_array};

/// The documents of one segment that an aggregation counts: those that are
/// not masked and, where rows are given, whose row is one of them.
pub struct MaskedSegment {
    pub mask: RoaringBitmap,
    pub allow: Option<RoaringTreemap>,
}

/// Whether a document with a row is counted.
pub open spec fn counted(s: MaskedSegment, doc: u32, row: Option<u64>) -> bool {
    !mask::bitmap_docs(s.mask).contains(doc) && match s.allow {
        None => true,
        Some(rows) => match row {
            Some(row) => mask::treemap_rows(rows).contains(row),
            None => false,
        },
    }
}

impl MaskedSegment {
    /// Whether a document is counted, given its row if it has one.
    pub fn admits(&self, doc: u32, row: Option<u64>) -> (r: bool)
        ensures
            r == counted(*self, doc, row),
    {
        if mask::has_doc(&self.mask, doc) {
            return false;
        }
        match &self.allow {
            None => true,
            Some(rows) => match row {
                Some(row) => mask::has_row(rows, row),
                None => false,
            },
        }
    }

    /// The counted documents of a block, in order.
    pub fn admitted(&self, docs: &Vec<(u32, Option<u64>)>) -> (r: Vec<u32>)
        ensures
            r@ == counted_docs(*self, docs@),
    {
        let mut out: Vec<u32> = Vec::new();
        let mut i: usize = 0;
        proof {
            assert(docs@.take(0) =~= Seq::empty());
        }
        while i < docs.len()
            invariant
                i <= docs@.len(),
                out@ == counted_docs(*self, docs@.take(i as int)),
            decreases docs.len() - i,
        {
            if self.admits(docs[i].0, docs[i].1) {
                out.push(docs[i].0);
            }
            proof {
                assert(docs@.take(i as int + 1).drop_last() =~= docs@.take(i as int));
            }
            i += 1;
        }
        proof {
            assert(docs@.take(docs@.len() as int) =~= docs@);
        }
        out
    }
}

/// The counted ones of some documents, in order.
pub open spec fn counted_docs(s: MaskedSegment, docs: Seq<(u32, Option<u64>)>) -> Seq<u32>
    decreases docs.len(),
{
    if docs.len() == 0 {
        Seq::empty()
    } else {
        let before = counted_docs(s, docs.drop_last());
        if counted(s, docs.last().0, docs.last().1) {
            before.push(docs.last().0)
        } else {
            before
        }
    }
}

/// An error of an aggregation request.
pub open spec fn bad_aggs(m: Seq<char>) -> Failure {
    Failure::InvalidArgument("aggregations: "@ + m)
}

fn invalid(m: &str) -> (r: ServiceError)
    ensures
        r@ == bad_aggs(m@),
{
    ServiceError::InvalidArgument(text::cat2("aggregations: ", m))
}

/// The error of a failed aggregation: the caller's, for a request or schema
/// that cannot be served, else internal.
pub fn agg_error(callers: bool, message: &str) -> (r: ServiceError)
    ensures
        r@ == (if callers {
            bad_aggs(message@)
        } else {
            Failure::Internal("aggregations: "@ + message@)
        }),
{
    if callers {
        invalid(message)
    } else {
        ServiceError::Internal(text::cat2("aggregations: ", message))
    }
}

/// What a `top_hits` node asks for besides its sort.
#[derive(Debug)]
pub struct TopHitsOptions {
    pub source: SourceFilter,
    pub docvalue_fields: Vec<String>,
}

/// What some options are.
pub struct OptionsV {
    pub source: SourceFilterV,
    pub docvalue_fields: Seq<Seq<char>>,
}

impl View for TopHitsOptions {
    type V = OptionsV;

    open spec fn view(&self) -> OptionsV {
        OptionsV { source: self.source@, docvalue_fields: text::texts(self.docvalue_fields@) }
    }
}

/// The error of an option that is not strings.
pub open spec fn not_strings(what: Seq<char>) -> Failure {
    bad_aggs("top_hits "@ + what + " must be strings"@)
}

/// One string or a list of strings.
pub open spec fn strings_of(t: Tree, what: Seq<char>) -> Result<Seq<Seq<char>>, Failure> {
    match t {
        Tree::Text(s) => Ok(seq![s]),
        Tree::Array(items) => if forall|i: int| 0 <= i < items.len() ==> #[trigger] items[i] is Text {
            Ok(Seq::new(items.len(), |i: int| items[i]->Text_0))
        } else {
            Err(not_strings(what))
        },
        _ => Err(not_strings(what)),
    }
}

fn strings_error(what: &str) -> (r: ServiceError)
    ensures
        r@ == not_strings(what@),
{
    invalid(&text::cat3("top_hits ", what, " must be strings"))
}

/// One string or a list of strings.
pub fn strings(v: &Json, what: &str) -> (r: Result<Vec<String>, ServiceError>)
    ensures
        match r {
            Ok(s) => strings_of(v@, what@) == Ok::<Seq<Seq<char>>, Failure>(text::texts(s@)),
            Err(e) => strings_of(v@, what@) == Err::<Seq<Seq<char>>, Failure>(e@),
        },
{
    let mut out: Vec<String> = Vec::new();
    match v {
        Json::Text(s) => {
            out.push(s.clone());
            assert(text::texts(out@) =~= seq![s@]);
            Ok(out)
        },
        Json::Array(items) => {
            let ghost all = value::items_of(items@);
            let mut i: usize = 0;
            while i < items.len()
                invariant
                    i <= items@.len(),
                    all == value::items_of(items@),
                    v@ == Tree::Array(all),
                    forall|j: int| 0 <= j < i ==> #[trigger] all[j] is Text,
                    out@.len() == i,
                    forall|j: int| 0 <= j < i ==> (#[trigger] out@[j])@ == all[j]->Text_0,
                decreases items.len() - i,
            {
                match items[i].as_str() {
                    Some(s) => {
                        out.push(s.to_owned());
                    },
                    None => {
                        assert(!(all[i as int] is Text));
                        return Err(strings_error(what));
                    },
                }
                i += 1;
            }
            assert(text::texts(out@) =~= Seq::new(all.len(), |i: int| all[i]->Text_0));
            Ok(out)
        },
        _ => Err(strings_error(what)),
    }
}

/// The strings of the first of two keys that an object has, none without
/// either.
pub open spec fn listed(
    entries: Seq<(Seq<char>, Tree)>,
    key: Seq<char>,
    other: Seq<char>,
) -> Result<Seq<Seq<char>>, Failure> {
    match value::lookup(entries, key) {
        Some(v) => strings_of(v, "_source"@),
        None => match value::lookup(entries, other) {
            Some(v) => strings_of(v, "_source"@),
            None => Ok(Seq::empty()),
        },
    }
}

fn list_of(entries: &Vec<(String, Json)>, key: &str, other: &str) -> (r: Result<
    Vec<String>,
    ServiceError,
>)
    ensures
        match r {
            Ok(s) => listed(value::entries_of(entries@), key@, other@) == Ok::<
                Seq<Seq<char>>,
                Failure,
            >(text::texts(s@)),
            Err(e) => listed(value::entries_of(entries@), key@, other@) == Err::<
                Seq<Seq<char>>,
                Failure,
            >(e@),
        },
{
    match value::find(entries, key) {
        Some(v) => strings(v, "_source"),
        None => match value::find(entries, other) {
            Some(v) => strings(v, "_source"),
            None => {
                let out: Vec<String> = Vec::new();
                assert(text::texts(out@) =~= Seq::empty());
                Ok(out)
            },
        },
    }
}

/// What a `_source` option asks for.
pub open spec fn source_of(t: Option<Tree>) -> Result<SourceFilterV, Failure> {
    match t {
        None => Ok(SourceFilterV::All),
        Some(Tree::Bool(b)) => if b {
            Ok(SourceFilterV::All)
        } else {
            Ok(SourceFilterV::Nothing)
        },
        Some(Tree::Object(entries)) => match listed(entries, "includes"@, "include"@) {
            Err(e) => Err(e),
            Ok(include_paths) => match listed(entries, "excludes"@, "exclude"@) {
                Err(e) => Err(e),
                Ok(exclude_paths) => Ok(SourceFilterV::Paths { include_paths, exclude_paths }),
            },
        },
        Some(Tree::Null) => Err(bad_source()),
        Some(Tree::Number(_)) => Err(bad_source()),
        Some(v) => match strings_of(v, "_source"@) {
            Err(e) => Err(e),
            Ok(include_paths) => Ok(
                SourceFilterV::Paths { include_paths, exclude_paths: Seq::empty() },
            ),
        },
    }
}

/// The error of a `_source` of another kind.
pub open spec fn bad_source() -> Failure {
    bad_aggs("top_hits _source must be a bool, a list or an object"@)
}

/// A `_source` that may be absent.
pub open spec fn opt_tree(v: Option<&Json>) -> Option<Tree> {
    match v {
        Some(v) => Some(v@),
        None => None,
    }
}

/// What a `top_hits` `_source` option asks for.
pub fn source_option(v: Option<&Json>) -> (r: Result<SourceFilter, ServiceError>)
    ensures
        match r {
            Ok(s) => source_of(opt_tree(v)) == Ok::<SourceFilterV, Failure>(s@),
            Err(e) => source_of(opt_tree(v)) == Err::<SourceFilterV, Failure>(e@),
        },
{
    let v = match v {
        None => {
            return Ok(SourceFilter::All);
        },
        Some(v) => v,
    };
    match v {
        Json::Bool(b) => if *b {
            Ok(SourceFilter::All)
        } else {
            Ok(SourceFilter::Nothing)
        },
        Json::Object(entries) => {
            let include_paths = match list_of(entries, "includes", "include") {
                Ok(s) => s,
                Err(e) => {
                    return Err(e);
                },
            };
            let exclude_paths = match list_of(entries, "excludes", "exclude") {
                Ok(s) => s,
                Err(e) => {
                    return Err(e);
                },
            };
            Ok(SourceFilter::Paths { include_paths, exclude_paths })
        },
        Json::Text(_) | Json::Array(_) => match strings(v, "_source") {
            Ok(include_paths) => {
                let exclude_paths: Vec<String> = Vec::new();
                assert(text::texts(exclude_paths@) =~= Seq::empty());
                Ok(SourceFilter::Paths { include_paths, exclude_paths })
            },
            Err(e) => Err(e),
        },
        _ => Err(invalid("top_hits _source must be a bool, a list or an object")),
    }
}

/// The name under which a node has its sub-aggregations.
pub open spec fn sub_key(node: Seq<(Seq<char>, Tree)>) -> Seq<char> {
    if entries::has(node, "aggs"@) {
        "aggs"@
    } else {
        "aggregations"@
    }
}

/// The sub-aggregations of a node.
pub open spec fn sub_of(node: Seq<(Seq<char>, Tree)>) -> Option<Seq<(Seq<char>, Tree)>> {
    match value::lookup(node, sub_key(node)) {
        Some(Tree::Object(sub)) => Some(sub),
        _ => None,
    }
}

/// The options of a `top_hits` node.
pub open spec fn options_of(top: Seq<(Seq<char>, Tree)>) -> Result<OptionsV, Failure> {
    match source_of(value::lookup(top, "_source"@)) {
        Err(e) => Err(e),
        Ok(source) => match value::lookup(top, "docvalue_fields"@) {
            None => Ok(OptionsV { source, docvalue_fields: Seq::empty() }),
            Some(v) => match strings_of(v, "docvalue_fields"@) {
                Err(e) => Err(e),
                Ok(docvalue_fields) => Ok(OptionsV { source, docvalue_fields }),
            },
        },
    }
}

/// A `top_hits` node that returns row ids alone.
pub open spec fn bare_top(top: Seq<(Seq<char>, Tree)>, rowid: Seq<char>) -> Seq<
    (Seq<char>, Tree),
> {
    entries::without(entries::without(top, "_source"@), "docvalue_fields"@).push(
        ("docvalue_fields"@, Tree::Array(seq![Tree::Text(rowid)])),
    )
}

/// What a node and those below it become, and what their `top_hits` ask for
/// by the names of the way to them.
pub struct RewriteV {
    pub aggs: Seq<(Seq<char>, Tree)>,
    pub options: Seq<(Seq<Seq<char>>, OptionsV)>,
}

/// The first `n` aggregations with their `top_hits` returning row ids.
pub open spec fn rewritten(
    aggs: Seq<(Seq<char>, Tree)>,
    path: Seq<Seq<char>>,
    rowid: Seq<char>,
    n: nat,
) -> Result<RewriteV, Failure>
    decreases aggs, n,
{
    if n == 0 || n > aggs.len() {
        Ok(RewriteV { aggs: Seq::empty(), options: Seq::empty() })
    } else {
        match rewritten(aggs, path, rowid, (n - 1) as nat) {
            Err(e) => Err(e),
            Ok(before) => match aggs[n - 1].1 {
                Tree::Object(node) => {
                    proof {
                        assert(decreases_to!(aggs => aggs[n - 1]));
                        assert(decreases_to!(aggs[n - 1] => aggs[n - 1].1));
                        assert(decreases_to!(aggs[n - 1].1 => aggs[n - 1].1->Object_0));
                    }
                    match rewritten_node(node, path.push(aggs[n - 1].0), rowid) {
                        Err(e) => Err(e),
                        Ok(r) => Ok(
                            RewriteV {
                                aggs: before.aggs.push((aggs[n - 1].0, Tree::Object(r.aggs))),
                                options: before.options + r.options,
                            },
                        ),
                    }
                },
                other => Ok(
                    RewriteV {
                        aggs: before.aggs.push((aggs[n - 1].0, other)),
                        options: before.options,
                    },
                ),
            },
        }
    }
}

/// A node's own `top_hits`, rewritten.
pub open spec fn own_rewrite(
    node: Seq<(Seq<char>, Tree)>,
    path: Seq<Seq<char>>,
    rowid: Seq<char>,
) -> Result<RewriteV, Failure> {
    match value::lookup(node, "top_hits"@) {
        Some(Tree::Object(top)) => match options_of(top) {
            Err(e) => Err(e),
            Ok(o) => Ok(
                RewriteV {
                    aggs: entries::put(node, "top_hits"@, Tree::Object(bare_top(top, rowid))),
                    options: seq![(path, o)],
                },
            ),
        },
        _ => Ok(RewriteV { aggs: node, options: Seq::empty() }),
    }
}

/// One node with its `top_hits` returning row ids, and those below it.
pub open spec fn rewritten_node(
    node: Seq<(Seq<char>, Tree)>,
    path: Seq<Seq<char>>,
    rowid: Seq<char>,
) -> Result<RewriteV, Failure>
    decreases node, 0nat,
{
    match own_rewrite(node, path, rowid) {
        Err(e) => Err(e),
        Ok(own) => match sub_of(node) {
            None => Ok(own),
            Some(sub) => {
                proof {
                    sub_is_smaller(node);
                }
                match rewritten(sub, path, rowid, sub.len()) {
                    Err(e) => Err(e),
                    Ok(r) => Ok(
                        RewriteV {
                            aggs: entries::put(own.aggs, sub_key(node), Tree::Object(r.aggs)),
                            options: own.options + r.options,
                        },
                    ),
                }
            },
        },
    }
}

/// The sub-aggregations of a node are smaller than it.
pub proof fn sub_is_smaller(node: Seq<(Seq<char>, Tree)>)
    ensures
        sub_of(node) matches Some(sub) ==> decreases_to!(node => sub),
{
    if let Some(sub) = sub_of(node) {
        entries::lookup_is_entry(node, sub_key(node));
        let t = value::lookup(node, sub_key(node))->0;
        let i = choose|i: int|
            0 <= i < node.len() && (#[trigger] node[i]).1 == t && node[i].0 == sub_key(node);
        assert(decreases_to!(node => node[i]));
        assert(decreases_to!(node[i] => node[i].1));
        assert(decreases_to!(node[i].1 => node[i].1->Object_0));
    }
}

proof fn rewrites_stay_wrong(
    aggs: Seq<(Seq<char>, Tree)>,
    path: Seq<Seq<char>>,
    rowid: Seq<char>,
    n: nat,
    m: nat,
)
    requires
        n <= m <= aggs.len(),
        rewritten(aggs, path, rowid, n) is Err,
    ensures
        rewritten(aggs, path, rowid, m) == rewritten(aggs, path, rowid, n),
    decreases m - n,
{
    if n < m {
        rewrites_stay_wrong(aggs, path, rowid, n, (m - 1) as nat);
    }
}

/// What some options by their ways are.
pub open spec fn option_views(s: Seq<(Vec<String>, TopHitsOptions)>) -> Seq<
    (Seq<Seq<char>>, OptionsV),
> {
    Seq::new(s.len(), |i: int| (text::texts(s[i].0@), s[i].1@))
}

fn top_options(top: &Vec<(String, Json)>) -> (r: Result<TopHitsOptions, ServiceError>)
    ensures
        match r {
            Ok(o) => options_of(value::entries_of(top@)) == Ok::<OptionsV, Failure>(o@),
            Err(e) => options_of(value::entries_of(top@)) == Err::<OptionsV, Failure>(e@),
        },
{
    let source = match source_option(value::find(top, "_source")) {
        Ok(s) => s,
        Err(e) => {
            return Err(e);
        },
    };
    match value::find(top, "docvalue_fields") {
        Some(v) => match strings(v, "docvalue_fields") {
            Ok(docvalue_fields) => Ok(TopHitsOptions { source, docvalue_fields }),
            Err(e) => Err(e),
        },
        None => {
            let docvalue_fields: Vec<String> = Vec::new();
            assert(text::texts(docvalue_fields@) =~= Seq::empty());
            Ok(TopHitsOptions { source, docvalue_fields })
        },
    }
}

fn strip_top(top: &Vec<(String, Json)>, rowid: &str) -> (r: Vec<(String, Json)>)
    ensures
        value::entries_of(r@) == bare_top(value::entries_of(top@), rowid@),
{
    let first = entries::copy_without(top, "_source");
    let mut out = entries::copy_without(&first, "docvalue_fields");
    let ghost was = value::entries_of(out@);
    let mut ids: Vec<Json> = Vec::new();
    ids.push(value::string(rowid));
    let ghost made = ids;
    let list = Json::Array(ids);
    proof {
        value::view_array(made);
        assert(value::items_of(made@) =~= seq![Tree::Text(rowid@)]);
        assert(list@ == Tree::Array(seq![Tree::Text(rowid@)]));
    }
    out.push(("docvalue_fields".to_owned(), list));
    assert(value::entries_of(out@) =~= was.push(
        ("docvalue_fields"@, Tree::Array(seq![Tree::Text(rowid@)])),
    ));
    out
}

/// Has the `top_hits` of a node return row ids, and notes what they ask
/// for.
fn rewrite_node(
    node: &Vec<(String, Json)>,
    path: &Vec<String>,
    rowid: &str,
    out: &mut Vec<(Vec<String>, TopHitsOptions)>,
) -> (r: Result<Vec<(String, Json)>, ServiceError>)
    ensures
        match r {
            Ok(aggs) => rewritten_node(
                value::entries_of(node@),
                text::texts(path@),
                rowid@,
            ) matches Ok(v) && value::entries_of(aggs@) == v.aggs && option_views(final(out)@)
                == option_views(old(out)@) + v.options,
            Err(e) => rewritten_node(value::entries_of(node@), text::texts(path@), rowid@) == Err::<
                RewriteV,
                Failure,
            >(e@),
        },
    decreases node@, 0nat,
{
    let ghost nv = value::entries_of(node@);
    let ghost was = option_views(out@);
    let mut made = project::copy_entries(node);
    if let Some(i) = entries::find_entry(node, "top_hits") {
        if let Json::Object(top) = &node[i].1 {
            match top_options(top) {
                Ok(o) => {
                    let ghost ov = o@;
                    entries::put_entry(
                        &mut made,
                        "top_hits",
                        Json::Object(strip_top(top, rowid)),
                    );
                    out.push((text::copy_all(path), o));
                    assert(option_views(out@) =~= was + seq![(text::texts(path@), ov)]);
                },
                Err(e) => {
                    return Err(e);
                },
            }
        }
    }
    let ghost own = own_rewrite(nv, text::texts(path@), rowid@)->Ok_0;
    proof {
        assert(own_rewrite(nv, text::texts(path@), rowid@) is Ok);
        assert(value::entries_of(made@) == own.aggs);
        assert(option_views(out@) =~= was + own.options);
    }
    let key: &str = if entries::find_entry(node, "aggs").is_some() {
        "aggs"
    } else {
        "aggregations"
    };
    assert(key@ == sub_key(nv));
    if let Some(i) = entries::find_entry(node, key) {
        if let Json::Object(sub) = &node[i].1 {
            proof {
                assert(decreases_to!(node@ => node@[i as int]));
                assert(decreases_to!(node@[i as int] => node@[i as int].1));
                assert(decreases_to!(node@[i as int].1 => node@[i as int].1->Object_0));
                assert(decreases_to!(*sub => sub@));
                assert(sub_of(nv) == Some(value::entries_of(sub@)));
            }
            let ghost mid = option_views(out@);
            match rewrite_all(sub, path, rowid, out) {
                Ok(aggs) => {
                    let ghost sv = value::entries_of(aggs@);
                    entries::put_entry(&mut made, key, Json::Object(aggs));
                    proof {
                        let rest = rewritten(
                            value::entries_of(sub@),
                            text::texts(path@),
                            rowid@,
                            sub@.len(),
                        )->Ok_0.options;
                        assert(was + own.options + rest =~= was + (own.options + rest));
                    }
                    return Ok(made);
                },
                Err(e) => {
                    return Err(e);
                },
            }
        }
    }
    Ok(made)
}

/// Has every `top_hits` of a request return row ids, and notes what they
/// ask for by the names of the way to them.
pub fn rewrite_all(
    aggs: &Vec<(String, Json)>,
    path: &Vec<String>,
    rowid: &str,
    out: &mut Vec<(Vec<String>, TopHitsOptions)>,
) -> (r: Result<Vec<(String, Json)>, ServiceError>)
    ensures
        match r {
            Ok(made) => rewritten(
                value::entries_of(aggs@),
                text::texts(path@),
                rowid@,
                aggs@.len(),
            ) matches Ok(v) && value::entries_of(made@) == v.aggs && option_views(final(out)@)
                == option_views(old(out)@) + v.options,
            Err(e) => rewritten(
                value::entries_of(aggs@),
                text::texts(path@),
                rowid@,
                aggs@.len(),
            ) == Err::<RewriteV, Failure>(e@),
        },
    decreases aggs@, 1nat,
{
    let ghost av = value::entries_of(aggs@);
    let ghost pv = text::texts(path@);
    let ghost was = option_views(out@);
    let mut made: Vec<(String, Json)> = Vec::new();
    let mut i: usize = 0;
    proof {
        assert(value::entries_of(made@) =~= Seq::empty());
        assert(was + Seq::<(Seq<Seq<char>>, OptionsV)>::empty() =~= was);
    }
    while i < aggs.len()
        invariant
            i <= aggs@.len(),
            av == value::entries_of(aggs@),
            pv == text::texts(path@),
            rewritten(av, pv, rowid@, i as nat) matches Ok(v) && value::entries_of(made@) == v.aggs
                && option_views(out@) == was + v.options,
        decreases aggs.len() - i,
    {
        let ghost before = rewritten(av, pv, rowid@, i as nat)->Ok_0;
        let ghost name = aggs@[i as int].0@;
        match &aggs[i].1 {
            Json::Object(node) => {
                let mut below = text::copy_all(path);
                below.push(aggs[i].0.clone());
                proof {
                    assert(text::texts(below@) =~= pv.push(name));
                    assert(decreases_to!(aggs@ => aggs@[i as int]));
                    assert(decreases_to!(aggs@[i as int] => aggs@[i as int].1));
                    assert(decreases_to!(aggs@[i as int].1 => aggs@[i as int].1->Object_0));
                    assert(decreases_to!(*node => node@));
                }
                match rewrite_node(node, &below, rowid, out) {
                    Ok(n) => {
                        let ghost nv = value::entries_of(n@);
                        let ghost made_node = n;
                        made.push((aggs[i].0.clone(), Json::Object(n)));
                        proof {
                            value::view_object(made_node);
                            let r = rewritten_node(value::entries_of(node@), pv.push(name), rowid@)->Ok_0;
                            assert(value::entries_of(made@) =~= before.aggs.push(
                                (name, Tree::Object(nv)),
                            ));
                            assert(was + before.options + r.options =~= was + (before.options
                                + r.options));
                        }
                    },
                    Err(e) => {
                        proof {
                            rewrites_stay_wrong(av, pv, rowid@, i as nat + 1, aggs@.len());
                        }
                        return Err(e);
                    },
                }
            },
            other => {
                let v = other.copy();
                made.push((aggs[i].0.clone(), v));
                assert(value::entries_of(made@) =~= before.aggs.push((name, av[i as int].1)));
            },
        }
        i += 1;
    }
    Ok(made)
}

/// A request whose `top_hits` return row ids, and what they ask for.
pub struct Rewrite {
    pub request: Vec<(String, Json)>,
    pub options: Vec<(Vec<String>, TopHitsOptions)>,
}

/// What a request becomes.
pub open spec fn request_rewrite(request: Tree, rowid: Seq<char>) -> Result<RewriteV, Failure> {
    match request {
        Tree::Object(aggs) => rewritten(aggs, Seq::empty(), rowid, aggs.len()),
        _ => Err(bad_aggs("the request must be an object"@)),
    }
}

/// Has every `top_hits` of a request return row ids, kept under `rowid`.
pub fn rewrite(request: &Json, rowid: &str) -> (r: Result<Rewrite, ServiceError>)
    ensures
        match r {
            Ok(w) => request_rewrite(request@, rowid@) == Ok::<RewriteV, Failure>(
                RewriteV {
                    aggs: value::entries_of(w.request@),
                    options: option_views(w.options@),
                },
            ),
            Err(e) => request_rewrite(request@, rowid@) == Err::<RewriteV, Failure>(e@),
        },
{
    match request {
        Json::Object(aggs) => {
            let path: Vec<String> = Vec::new();
            let mut options: Vec<(Vec<String>, TopHitsOptions)> = Vec::new();
            proof {
                assert(text::texts(path@) =~= Seq::empty());
                assert(option_views(options@) =~= Seq::empty());
            }
            match rewrite_all(aggs, &path, rowid, &mut options) {
                Ok(made) => {
                    proof {
                        let v = rewritten(
                            value::entries_of(aggs@),
                            Seq::empty(),
                            rowid@,
                            aggs@.len(),
                        )->Ok_0;
                        assert(Seq::<(Seq<Seq<char>>, OptionsV)>::empty() + v.options =~= v.options);
                    }
                    Ok(Rewrite { request: made, options })
                },
                Err(e) => Err(e),
            }
        },
        _ => Err(invalid("the request must be an object")),
    }
}

/// Whether an aggregation can read a field: a fast one, and not a JSON field
/// itself.
pub open spec fn readable(f: ResolvedField) -> bool {
    match f {
        ResolvedField::Plain(spec) => spec.fast && !(spec.kind is Json),
        ResolvedField::JsonPath(spec, _) => spec.fast,
        ResolvedField::Unknown => false,
    }
}

/// Refuses a field that is not fast, but for the row id. `resolved` holds
/// what each name is in the schema.
pub fn check_fast_fields(names: &Vec<String>, resolved: &Vec<ResolvedField>, rowid: &str) -> (r:
    Result<(), ServiceError>)
    requires
        names@.len() == resolved@.len(),
    ensures
        match r {
            Ok(_) => forall|i: int|
                0 <= i < names@.len() ==> (#[trigger] names@[i])@ == rowid@ || readable(
                    resolved@[i],
                ),
            Err(e) => exists|i: int|
                0 <= i < names@.len() && (#[trigger] names@[i])@ != rowid@ && !readable(
                    resolved@[i],
                ) && e@ == Failure::InvalidArgument(
                    "aggregation field "@ + names@[i]@ + " is not a fast field"@,
                ) && forall|j: int|
                    0 <= j < i ==> (#[trigger] names@[j])@ == rowid@ || readable(resolved@[j]),
        },
{
    let mut i: usize = 0;
    while i < names.len()
        invariant
            i <= names@.len(),
            names@.len() == resolved@.len(),
            forall|j: int|
                0 <= j < i ==> (#[trigger] names@[j])@ == rowid@ || readable(resolved@[j]),
        decreases names.len() - i,
    {
        if !text::same(&names[i], rowid) {
            let fast = match &resolved[i] {
                ResolvedField::Plain(spec) => spec.fast && match &spec.kind {
                    FieldKind::Json => false,
                    _ => true,
                },
                ResolvedField::JsonPath(spec, _) => spec.fast,
                ResolvedField::Unknown => false,
            };
            if !fast {
                return Err(
                    ServiceError::InvalidArgument(
                        text::cat3("aggregation field ", &names[i], " is not a fast field"),
                    ),
                );
            }
        }
        i += 1;
    }
    Ok(())
}

/// A column to read ahead of an aggregation, perhaps with what is below it.
#[derive(Debug)]
pub struct Warmup {
    pub name: String,
    pub with_subfields: bool,
}

/// What some columns are.
pub open spec fn warmup_views(s: Seq<Warmup>) -> Seq<(Seq<char>, bool)> {
    Seq::new(s.len(), |i: int| (s[i].name@, s[i].with_subfields))
}

/// The column of a name: a JSON path's field with what is below it, else the
/// name itself.
pub open spec fn warmup_of(name: Seq<char>, f: ResolvedField) -> (Seq<char>, bool) {
    match f {
        ResolvedField::JsonPath(spec, _) => (spec.name@, true),
        _ => (name, false),
    }
}

/// A list with one more item, unless it has it.
pub open spec fn with_once(s: Seq<(Seq<char>, bool)>, item: (Seq<char>, bool)) -> Seq<
    (Seq<char>, bool),
> {
    if s.contains(item) {
        s
    } else {
        s.push(item)
    }
}

/// The columns of the row id and of the first `n` names, each once.
pub open spec fn warmups(
    names: Seq<Seq<char>>,
    resolved: Seq<ResolvedField>,
    rowid: Seq<char>,
    n: nat,
) -> Seq<(Seq<char>, bool)>
    decreases n,
{
    if n == 0 || n > names.len() {
        seq![(rowid, false)]
    } else {
        with_once(
            warmups(names, resolved, rowid, (n - 1) as nat),
            warmup_of(names[n - 1], resolved[n - 1]),
        )
    }
}

fn add_once(out: &mut Vec<Warmup>, w: Warmup)
    ensures
        warmup_views(final(out)@) == with_once(
            warmup_views(old(out)@),
            (w.name@, w.with_subfields),
        ),
{
    let ghost was = warmup_views(out@);
    let ghost item = (w.name@, w.with_subfields);
    let mut i: usize = 0;
    while i < out.len()
        invariant
            i <= out@.len(),
            out@ == old(out)@,
            was == warmup_views(out@),
            item == (w.name@, w.with_subfields),
            forall|j: int| 0 <= j < i ==> was[j] != item,
        decreases out.len() - i,
    {
        if out[i].with_subfields == w.with_subfields && text::same(&out[i].name, &w.name) {
            assert(was[i as int] == item);
            return ;
        }
        i += 1;
    }
    out.push(w);
    assert(warmup_views(out@) =~= was.push(item));
}

/// The columns to read ahead of an aggregation over some names.
pub fn fast_warmups(names: &Vec<String>, resolved: &Vec<ResolvedField>, rowid: &str) -> (r: Vec<
    Warmup,
>)
    requires
        names@.len() == resolved@.len(),
    ensures
        warmup_views(r@) == warmups(text::texts(names@), resolved@, rowid@, names@.len()),
{
    let ghost ns = text::texts(names@);
    let mut out: Vec<Warmup> = Vec::new();
    out.push(Warmup { name: rowid.to_owned(), with_subfields: false });
    assert(warmup_views(out@) =~= seq![(rowid@, false)]);
    let mut i: usize = 0;
    while i < names.len()
        invariant
            i <= names@.len(),
            names@.len() == resolved@.len(),
            ns == text::texts(names@),
            warmup_views(out@) == warmups(ns, resolved@, rowid@, i as nat),
        decreases names.len() - i,
    {
        match &resolved[i] {
            ResolvedField::JsonPath(spec, _) => {
                add_once(&mut out, Warmup { name: spec.name.clone(), with_subfields: true });
            },
            _ => {
                add_once(&mut out, Warmup { name: names[i].clone(), with_subfields: false });
            },
        }
        i += 1;
    }
    out
}

} // verus!
