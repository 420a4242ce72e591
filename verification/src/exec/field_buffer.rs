//! Text search in field order: every match of a segment is visited, and the
//! best are kept in a buffer of twice the wanted size. A match that is worse
//! than the last hit of the latest cut before any key position is looked at
//! is skipped unread.

use crate::error::{Failure, ServiceError};
use crate::exec::columns;
use crate::exec::columns::DocCells;
use crate::exec::mask;
use crate::exec::order;
use crate::exec::order::EffectiveSort;
use crate::exec::schema;
use crate::exec::schema::{Ranked, RankedV};
use crate::exec::tantivy_search;
use crate::ir::SortKeyV;
use crate::key;
use crate::ordering;
use crate::ordering::Ranking;
use crate::values;
use crate::values::{SortV, SortValue};
use roaring::RoaringBitmap;
use vstd::prelude::*;

verus! {

/// How many hits the buffer may hold.
pub open spec fn room(k: nat) -> nat {
    2 * (if k > 0 {
        k
    } else {
        1
    })
}

/// The hits of a buffer after one more: cut to the best `k` when it is full.
pub open spec fn buffered(best: Seq<RankedV>, hit: RankedV, sort: EffectiveSort, k: nat) -> Seq<
    RankedV,
> {
    let b = best.push(hit);
    if b.len() >= room(k) {
        ordering::kept(ordering::sorted(sort, b), k)
    } else {
        b
    }
}

/// What a buffer holds: the hits, and the last hit of the latest cut.
pub struct BufferV {
    pub best: Seq<RankedV>,
    pub worst: Option<RankedV>,
}

/// Whether a match is skipped: it is worse than the last hit of the latest
/// cut by the keys before the first key position.
pub open spec fn refused(sort: EffectiveSort, worst: Option<RankedV>, hit: RankedV) -> bool {
    worst matches Some(w) && order::leading_sign(order::keys_of(sort), hit, w, 0) is Greater
}

/// A buffer with one more hit.
pub open spec fn added(b: BufferV, hit: RankedV, sort: EffectiveSort, k: nat) -> BufferV {
    let best = buffered(b.best, hit, sort, k);
    BufferV {
        best,
        worst: if b.best.len() + 1 < room(k) {
            b.worst
        } else if best.len() > 0 {
            Some(best.last())
        } else {
            None
        },
    }
}

/// A buffer after a hit that is not skipped: left out by `search_after`, or
/// added.
pub open spec fn taken(
    b: BufferV,
    hit: RankedV,
    sort: EffectiveSort,
    after: Option<Seq<SortV>>,
    k: nat,
) -> BufferV {
    if tantivy_search::comes_after(hit, sort, after) {
        added(b, hit, sort, k)
    } else {
        b
    }
}

/// A buffer after a match, which may be skipped.
pub open spec fn offered(
    b: BufferV,
    hit: RankedV,
    sort: EffectiveSort,
    after: Option<Seq<SortV>>,
    k: nat,
) -> BufferV {
    if refused(sort, b.worst, hit) {
        b
    } else {
        taken(b, hit, sort, after, k)
    }
}

/// A buffer after some matches, those that it skips among them.
pub open spec fn buffer_of(
    found: Seq<RankedV>,
    sort: EffectiveSort,
    after: Option<Seq<SortV>>,
    k: nat,
) -> BufferV
    decreases found.len(),
{
    if found.len() == 0 {
        BufferV { best: Seq::empty(), worst: None }
    } else {
        offered(
            buffer_of(found.drop_last(), sort, after, k),
            found.last(),
            sort,
            after,
            k,
        )
    }
}

/// The matches after a `search_after`.
pub open spec fn found_after(
    found: Seq<RankedV>,
    sort: EffectiveSort,
    after: Option<Seq<SortV>>,
) -> Seq<RankedV>
    decreases found.len(),
{
    if found.len() == 0 {
        found
    } else {
        let before = found_after(found.drop_last(), sort, after);
        if tantivy_search::comes_after(found.last(), sort, after) {
            before.push(found.last())
        } else {
            before
        }
    }
}

/// The best `k` of some matches that come after `search_after`, in order.
pub open spec fn best_matches(
    found: Seq<RankedV>,
    sort: EffectiveSort,
    after: Option<Seq<SortV>>,
    k: nat,
) -> Seq<RankedV> {
    ordering::kept(
        ordering::sorted(sort, found_after(found, sort, after)),
        k,
    )
}

/// A match that is worse before any key position comes after, whatever its
/// key.
pub proof fn worse_values_come_after(
    keys: Seq<SortKeyV>,
    probe: RankedV,
    hit: RankedV,
    worst: RankedV,
    field: nat,
)
    requires
        order::leading_sign(keys, probe, worst, field) is Greater,
        probe.score == hit.score,
        probe.sort == hit.sort,
    ensures
        order::leading_sign(keys, hit, worst, field) is Greater,
        order::keys_sign(keys, hit, worst, true, field) is Greater,
    decreases keys.len(),
{
    if order::key_sign(keys[0], probe, worst, true, field) is Equal {
        worse_values_come_after(
            keys.drop_first(),
            probe,
            hit,
            worst,
            field + order::field_step(keys[0]),
        );
    }
}

proof fn last_improves(
    sort: EffectiveSort,
    t: Seq<RankedV>,
    x: RankedV,
    k: nat,
    on: spec_fn(RankedV) -> bool,
)
    requires
        ordering::linear(sort, on),
        ordering::all_in(t, on),
        on(x),
        ordering::is_ordered(sort, t),
        t.len() == k,
        k > 0,
    ensures
        ordering::kept(ordering::inserted(sort, t, x), k).len() == k,
        sort.le(ordering::kept(ordering::inserted(sort, t, x), k).last(), t.last()),
{
    let y = t.last();
    assert(on(t[t.len() - 1]));
    assert(sort.le(y, y));
    ordering::inserted_len(sort, t, x);
    if sort.le(y, x) {
        assert(t.push(x).take(k as int) =~= t);
    } else {
        let u = t.drop_last();
        let below = |z: RankedV| sort.le(z, y);
        assert forall|i: int| 0 <= i < u.len() implies below(#[trigger] u[i]) by {
            assert(sort.le(t[i], t[t.len() - 1]));
        }
        assert(sort.le(x, y));
        ordering::inserted_all(sort, u, x, below);
        ordering::inserted_len(sort, u, x);
        let v = ordering::inserted(sort, u, x);
        assert(v.push(y).take(k as int) =~= v);
        assert(below(v[v.len() - 1]));
    }
}

/// A buffer of which the best `k` are those of all hits, and whose latest
/// cut ends no better than they do.
spec fn stands_for(
    b: BufferV,
    all: Seq<RankedV>,
    sort: EffectiveSort,
    k: nat,
    on: spec_fn(RankedV) -> bool,
) -> bool {
    let t = ordering::kept(ordering::sorted(sort, all), k);
    &&& ordering::all_in(b.best, on)
    &&& ordering::all_in(all, on)
    &&& ordering::kept(ordering::sorted(sort, b.best), k) == t
    &&& b.worst matches Some(w) ==> k > 0 && t.len() == k && on(w) && sort.le(t.last(), w)
}

proof fn best_with_one_more(
    all: Seq<RankedV>,
    x: RankedV,
    sort: EffectiveSort,
    k: nat,
    on: spec_fn(RankedV) -> bool,
)
    requires
        ordering::linear(sort, on),
        ordering::all_in(all, on),
        on(x),
    ensures
        ordering::all_in(all.push(x), on),
        ({
            let t = ordering::kept(ordering::sorted(sort, all), k);
            &&& ordering::all_in(t, on)
            &&& ordering::is_ordered(sort, t)
            &&& ordering::kept(ordering::sorted(sort, all.push(x)), k) == ordering::kept(
                ordering::inserted(sort, t, x),
                k,
            )
        }),
{
    let s = ordering::sorted(sort, all);
    let t = ordering::kept(s, k);
    assert(all.push(x).drop_last() =~= all);
    ordering::sorted_all(sort, all, on);
    ordering::sorted_ordered(sort, all, on);
    ordering::kept_inserted(sort, s, x, k, on);
    ordering::kept_ordered(sort, s, k);
    assert forall|i: int| 0 <= i < t.len() implies on(#[trigger] t[i]) by {
        assert(t[i] == s[i]);
    }
}

proof fn skipped_changes_nothing(
    b: BufferV,
    all: Seq<RankedV>,
    x: RankedV,
    sort: EffectiveSort,
    k: nat,
    on: spec_fn(RankedV) -> bool,
)
    requires
        ordering::linear(sort, on),
        stands_for(b, all, sort, k, on),
        on(x),
        refused(sort, b.worst, x),
    ensures
        stands_for(b, all.push(x), sort, k, on),
{
    best_with_one_more(all, x, sort, k, on);
    let t = ordering::kept(ordering::sorted(sort, all), k);
    let w = b.worst->0;
    assert(on(t[t.len() - 1]));
    worse_values_come_after(order::keys_of(sort), x, x, w, 0);
    assert(!sort.le(x, w));
    assert(sort.le(w, x));
    assert(sort.le(t.last(), x));
    assert(t.push(x).take(k as int) =~= t);
}

proof fn added_stands(
    b: BufferV,
    all: Seq<RankedV>,
    x: RankedV,
    sort: EffectiveSort,
    k: nat,
    on: spec_fn(RankedV) -> bool,
)
    requires
        ordering::linear(sort, on),
        stands_for(b, all, sort, k, on),
        on(x),
    ensures
        stands_for(added(b, x, sort, k), all.push(x), sort, k, on),
{
    best_with_one_more(all, x, sort, k, on);
    grown(b, x, sort, k, on);
    let t = ordering::kept(ordering::sorted(sort, all), k);
    let c = added(b, x, sort, k);
    let u = ordering::kept(ordering::inserted(sort, t, x), k);
    if c.worst is Some {
        if b.best.len() + 1 < room(k) {
            let w = b.worst->0;
            last_improves(sort, t, x, k, on);
            ordering::inserted_all(sort, t, x, on);
            ordering::inserted_len(sort, t, x);
            assert(u.last() == ordering::inserted(sort, t, x)[k - 1]);
            assert(on(u.last()));
            assert(on(t[t.len() - 1]));
            assert(sort.le(u.last(), w));
        }
    }
}

proof fn buffer_holds(
    found: Seq<RankedV>,
    sort: EffectiveSort,
    after: Option<Seq<SortV>>,
    k: nat,
    on: spec_fn(RankedV) -> bool,
)
    requires
        ordering::linear(sort, on),
        ordering::all_in(found, on),
    ensures
        stands_for(
            buffer_of(found, sort, after, k),
            found_after(found, sort, after),
            sort,
            k,
            on,
        ),
    decreases found.len(),
{
    if found.len() > 0 {
        let rest = found.drop_last();
        let x = found.last();
        assert(on(found[found.len() - 1]));
        assert forall|i: int| 0 <= i < rest.len() implies on(#[trigger] rest[i]) by {
            assert(rest[i] == found[i]);
        }
        buffer_holds(rest, sort, after, k, on);
        let b = buffer_of(rest, sort, after, k);
        let all = found_after(rest, sort, after);
        if tantivy_search::comes_after(x, sort, after) {
            if refused(sort, b.worst, x) {
                skipped_changes_nothing(b, all, x, sort, k, on);
            } else {
                added_stands(b, all, x, sort, k, on);
            }
        }
    } else {
        assert(found =~= Seq::empty());
    }
}

proof fn grown(b: BufferV, x: RankedV, sort: EffectiveSort, k: nat, on: spec_fn(RankedV) -> bool)
    requires
        ordering::linear(sort, on),
        ordering::all_in(b.best, on),
        on(x),
    ensures
        ({
            let c = added(b, x, sort, k);
            let t = ordering::kept(ordering::sorted(sort, c.best), k);
            &&& ordering::all_in(c.best, on)
            &&& t == ordering::kept(
                ordering::inserted(
                    sort,
                    ordering::kept(ordering::sorted(sort, b.best), k),
                    x,
                ),
                k,
            )
            &&& b.best.len() + 1 >= room(k) && c.worst is Some ==> k > 0 && t.len() == k && on(
                t.last(),
            ) && sort.le(t.last(), t.last()) && c.worst == Some(t.last())
        }),
{
    let c = b.best.push(x);
    assert(c.drop_last() =~= b.best);
    assert forall|i: int| 0 <= i < c.len() implies on(#[trigger] c[i]) by {
        if i < b.best.len() {
            assert(c[i] == b.best[i]);
        }
    }
    ordering::sorted_all(sort, b.best, on);
    ordering::sorted_ordered(sort, b.best, on);
    ordering::kept_inserted(sort, ordering::sorted(sort, b.best), x, k, on);
    if c.len() >= room(k) {
        let s = ordering::sorted(sort, c);
        ordering::sorted_permutes(sort, c);
        ordering::sorted_all(sort, c, on);
        ordering::sorted_ordered(sort, c, on);
        ordering::kept_ordered(sort, s, k);
        let d = ordering::kept(s, k);
        ordering::sorted_of_ordered(sort, d);
        assert forall|i: int| 0 <= i < d.len() implies on(#[trigger] d[i]) by {
            assert(d[i] == s[i]);
        }
        if d.len() > 0 {
            assert(on(d[d.len() - 1]));
            assert(sort.le(d[d.len() - 1], d[d.len() - 1]));
        }
    }
}

/// Skipping loses nothing: whatever the sort keys are, the buffer gives the
/// best of all matches, the skipped ones among them, wherever the sort
/// orders them.
pub proof fn skipping_loses_nothing(
    found: Seq<RankedV>,
    sort: EffectiveSort,
    after: Option<Seq<SortV>>,
    k: nat,
    on: spec_fn(RankedV) -> bool,
)
    requires
        ordering::linear(sort, on),
        ordering::all_in(found, on),
    ensures
        ordering::kept(ordering::sorted(sort, buffer_of(found, sort, after, k).best), k)
            == best_matches(found, sort, after, k),
{
    buffer_holds(found, sort, after, k, on);
}

/// The hits of one segment in field order.
pub struct FieldBuffer {
    k: usize,
    sort: EffectiveSort,
    after: Option<Vec<SortValue>>,
    best: Vec<Ranked>,
    worst: Option<Ranked>,
}

impl FieldBuffer {
    /// How many hits are wanted.
    pub closed spec fn wanted(&self) -> nat {
        self.k as nat
    }

    /// The sort.
    pub closed spec fn sort(&self) -> EffectiveSort {
        self.sort
    }

    /// The values that the hits follow.
    pub closed spec fn after(&self) -> Option<Seq<SortV>> {
        tantivy_search::after_views(self.after)
    }

    /// What the buffer holds.
    pub closed spec fn held(&self) -> BufferV {
        BufferV {
            best: schema::ranked_views(self.best@),
            worst: match self.worst {
                Some(w) => Some(w@),
                None => None,
            },
        }
    }

    /// No hit yet.
    pub fn new(k: usize, sort: EffectiveSort, after: Option<Vec<SortValue>>) -> (r: FieldBuffer)
        ensures
            r.wanted() == k,
            r.sort() == sort,
            r.after() == tantivy_search::after_views(after),
            r.held() == buffer_of(Seq::empty(), r.sort(), r.after(), r.wanted()),
    {
        let r = FieldBuffer { k, sort, after, best: Vec::new(), worst: None };
        proof {
            assert(r.held().best =~= Seq::<RankedV>::empty());
        }
        r
    }

    /// Whether a document with these values may be among the best: not when
    /// it is worse than the last hit of the latest cut before any key
    /// position is looked at, so that it comes after that hit whatever its
    /// key.
    pub fn may_enter(&self, score: u32, values: &Vec<SortValue>) -> (r: bool)
        ensures
            forall|hit: RankedV|
                hit.score == score && hit.sort == values::sort_views(values@) ==> r == !#[trigger]
                    refused(self.sort(), self.held().worst, hit),
            !r ==> self.held().worst is Some && forall|hit: RankedV|
                hit.score == score && hit.sort == values::sort_views(values@) ==> (
                #[trigger] order::keys_sign(
                    order::keys_of(self.sort()),
                    hit,
                    self.held().worst->0,
                    true,
                    0,
                )) is Greater,
    {
        match &self.worst {
            None => true,
            Some(w) => {
                let probe = Ranked {
                    row_id: 0,
                    pk: w.pk.clone(),
                    score,
                    sort: schema::copy_sorts(values),
                };
                let worse = self.sort.worse_before_pk(&probe, w);
                proof {
                    let keys = order::keys_of(self.sort());
                    assert forall|hit: RankedV|
                        hit.score == score && hit.sort == values::sort_views(values@) implies worse
                        == #[trigger] refused(self.sort(), Some(w@), hit) by {
                        if worse {
                            worse_values_come_after(keys, probe@, hit, w@, 0);
                        } else if refused(self.sort(), Some(w@), hit) {
                            worse_values_come_after(keys, hit, probe@, w@, 0);
                        }
                    }
                    assert forall|hit: RankedV|
                        worse && hit.score == score && hit.sort == values::sort_views(
                            values@,
                        ) implies (#[trigger] order::keys_sign(keys, hit, w@, true, 0))
                        is Greater by {
                        worse_values_come_after(keys, probe@, hit, w@, 0);
                    }
                }
                !worse
            },
        }
    }

    /// Adds a hit that comes after `search_after`.
    pub fn add(&mut self, hit: Ranked)
        ensures
            final(self).wanted() == old(self).wanted(),
            final(self).sort() == old(self).sort(),
            final(self).after() == old(self).after(),
            final(self).held() == taken(
                old(self).held(),
                hit@,
                old(self).sort(),
                old(self).after(),
                old(self).wanted(),
            ),
    {
        if !tantivy_search::is_wanted(&hit, &self.sort, &self.after) {
            return;
        }
        let ghost was = self.best@;
        self.best.push(hit);
        proof {
            assert(schema::ranked_views(self.best@) =~= schema::ranked_views(was).push(hit@));
        }
        let least: usize = if self.k > 0 {
            self.k
        } else {
            1
        };
        if self.best.len() as u128 >= 2 * (least as u128) {
            let mut all: Vec<Ranked> = Vec::new();
            std::mem::swap(&mut all, &mut self.best);
            let ghost full = all@;
            self.best = tantivy_search::top_hits(all, &self.sort, self.k);
            proof {
                kept_views(self.sort, full, self.k as nat);
            }
            self.worst = if self.best.len() > 0 {
                Some(self.best[self.best.len() - 1].copy())
            } else {
                None
            };
            proof {
                let views = schema::ranked_views(self.best@);
                assert(views.len() == self.best@.len());
                assert(views.len() > 0 ==> views.last() == self.best@.last()@);
            }
        }
    }

    /// The best hits in order.
    pub fn finish(self) -> (r: Vec<Ranked>)
        ensures
            schema::ranked_views(r@) == ordering::kept(
                ordering::sorted(self.sort(), self.held().best),
                self.wanted(),
            ),
    {
        proof {
            kept_views(self.sort, self.best@, self.k as nat);
        }
        tantivy_search::top_hits(self.best, &self.sort, self.k)
    }
}

/// A match of a segment: its document, its score, its field values, and the
/// cells of its row and key.
pub struct FieldDoc {
    pub doc: u32,
    pub score: u32,
    pub values: Vec<SortValue>,
    pub cells: DocCells,
}

/// What is wrong with the row or the key of a match.
pub open spec fn fault(d: FieldDoc) -> Option<Seq<char>> {
    columns::cells_problem(d.doc, d.cells)
}

/// A match as a candidate.
pub open spec fn candidate(d: FieldDoc) -> RankedV {
    RankedV {
        row_id: d.cells.row->0,
        pk: key::key_in(d.cells.pk->0@)->0,
        score: d.score,
        sort: values::sort_views(d.values@),
    }
}

/// The candidates of a segment: its unmasked matches that have a row and a
/// key.
pub open spec fn candidates(docs: Seq<FieldDoc>, masked: Set<u32>) -> Seq<RankedV>
    decreases docs.len(),
{
    if docs.len() == 0 {
        Seq::empty()
    } else {
        let before = candidates(docs.drop_last(), masked);
        if !masked.contains(docs.last().doc) && fault(docs.last()) is None {
            before.push(candidate(docs.last()))
        } else {
            before
        }
    }
}

/// Whether a match is skipped after the ones before it.
pub open spec fn skipped(
    docs: Seq<FieldDoc>,
    i: int,
    masked: Set<u32>,
    sort: EffectiveSort,
    after: Option<Seq<SortV>>,
    k: nat,
) -> bool {
    refused(
        sort,
        buffer_of(candidates(docs.take(i), masked), sort, after, k).worst,
        candidate(docs[i]),
    )
}

proof fn kept_views(sort: EffectiveSort, s: Seq<Ranked>, k: nat)
    ensures
        schema::ranked_views(ordering::kept(ordering::sorted(sort, s), k)) == ordering::kept(
            ordering::sorted(sort, schema::ranked_views(s)),
            k,
        ),
{
    let view = |h: Ranked| h@;
    let t = ordering::sorted(sort, s);
    ordering::sorted_maps(sort, sort, s, view);
    assert(s.map_values(view) =~= schema::ranked_views(s));
    assert(t.map_values(view) =~= schema::ranked_views(t));
    assert(schema::ranked_views(ordering::kept(t, k)) =~= ordering::kept(
        ordering::sorted(sort, schema::ranked_views(s)),
        k,
    ));
}

/// Whether every unmasked match among the first `n` that has no row or no
/// key is skipped.
pub open spec fn faults_are_skipped(
    docs: Seq<FieldDoc>,
    n: int,
    masked: Set<u32>,
    sort: EffectiveSort,
    after: Option<Seq<SortV>>,
    k: nat,
) -> bool {
    forall|i: int|
        0 <= i < n && !masked.contains((#[trigger] docs[i]).doc) && fault(docs[i]) is Some
            ==> skipped(docs, i, masked, sort, after, k)
}

/// Whether a match is the first unmasked one without a row or a key that is
/// read, with what is wrong with it.
pub open spec fn first_fault(
    docs: Seq<FieldDoc>,
    i: int,
    masked: Set<u32>,
    sort: EffectiveSort,
    after: Option<Seq<SortV>>,
    k: nat,
    message: Seq<char>,
) -> bool {
    &&& 0 <= i < docs.len()
    &&& !masked.contains(docs[i].doc)
    &&& fault(docs[i]) == Some(message)
    &&& !skipped(docs, i, masked, sort, after, k)
    &&& faults_are_skipped(docs, i, masked, sort, after, k)
}

/// Whether some hits are the best `k` of some candidates: what a buffer of
/// them gives, which is the best of all of them wherever the sort orders
/// them.
pub open spec fn are_best(
    best: Seq<RankedV>,
    found: Seq<RankedV>,
    sort: EffectiveSort,
    after: Option<Seq<SortV>>,
    k: nat,
) -> bool {
    &&& best == ordering::kept(
        ordering::sorted(sort, buffer_of(found, sort, after, k).best),
        k,
    )
    &&& forall|on: spec_fn(RankedV) -> bool| #[trigger]
        ordering::all_in(found, on) && ordering::linear(sort, on) ==> best == best_matches(
            found,
            sort,
            after,
            k,
        )
}

/// A buffer after one unmasked match: as it was when the match is skipped.
fn visit(buffer: &mut FieldBuffer, d: &FieldDoc) -> (r: Result<(), ServiceError>)
    ensures
        final(buffer).wanted() == old(buffer).wanted(),
        final(buffer).sort() == old(buffer).sort(),
        final(buffer).after() == old(buffer).after(),
        ({
            let skip = refused(old(buffer).sort(), old(buffer).held().worst, candidate(*d));
            match r {
                Err(e) => !skip && (fault(*d) matches Some(m) && e@ == Failure::Internal(m)),
                Ok(_) => (fault(*d) is None || skip) && final(buffer).held() == offered(
                    old(buffer).held(),
                    candidate(*d),
                    old(buffer).sort(),
                    old(buffer).after(),
                    old(buffer).wanted(),
                ),
            }
        }),
{
    let enters = buffer.may_enter(d.score, &d.values);
    proof {
        assert(enters == !refused(buffer.sort(), buffer.held().worst, candidate(*d)));
    }
    if !enters {
        return Ok(());
    }
    match columns::ranked(d.doc, &d.cells, d.score, schema::copy_sorts(&d.values)) {
        Ok(hit) => {
            proof {
                assert(hit@ == candidate(*d));
            }
            buffer.add(hit);
            Ok(())
        },
        Err(e) => Err(e),
    }
}

/// The best `k` matches of a segment in field order, of the unmasked ones
/// that come after `search_after`; internal for the first one without a row
/// or a key that is not skipped.
pub fn field_hits(
    docs: &Vec<FieldDoc>,
    masked: &RoaringBitmap,
    k: usize,
    sort: EffectiveSort,
    after: Option<Vec<SortValue>>,
) -> (r: Result<Vec<Ranked>, ServiceError>)
    ensures
        ({
            let dark = mask::bitmap_docs(*masked);
            let from = tantivy_search::after_views(after);
            match r {
                Ok(best) => {
                    &&& are_best(
                        schema::ranked_views(best@),
                        candidates(docs@, dark),
                        sort,
                        from,
                        k as nat,
                    )
                    &&& faults_are_skipped(
                        docs@,
                        docs@.len() as int,
                        dark,
                        sort,
                        from,
                        k as nat,
                    )
                },
                Err(e) => e@ matches Failure::Internal(m) && exists|i: int| #[trigger]
                    first_fault(docs@, i, dark, sort, from, k as nat, m),
            }
        }),
{
    let ghost found = candidates(docs@, mask::bitmap_docs(*masked));
    let ghost from = tantivy_search::after_views(after);
    let mut buffer = FieldBuffer::new(k, sort, after);
    match fill(&mut buffer, docs, masked) {
        Err(e) => Err(e),
        Ok(_) => {
            let out = buffer.finish();
            proof {
                assert forall|on: spec_fn(RankedV) -> bool| #[trigger]
                    ordering::all_in(found, on) && ordering::linear(
                        sort,
                        on,
                    ) implies schema::ranked_views(out@) == best_matches(
                    found,
                    sort,
                    from,
                    k as nat,
                ) by {
                    skipping_loses_nothing(found, sort, from, k as nat, on);
                }
            }
            Ok(out)
        },
    }
}

/// An empty buffer after the matches of a segment.
fn fill(buffer: &mut FieldBuffer, docs: &Vec<FieldDoc>, masked: &RoaringBitmap) -> (r: Result<
    (),
    ServiceError,
>)
    requires
        old(buffer).held() == buffer_of(
            Seq::empty(),
            old(buffer).sort(),
            old(buffer).after(),
            old(buffer).wanted(),
        ),
    ensures
        final(buffer).wanted() == old(buffer).wanted(),
        final(buffer).sort() == old(buffer).sort(),
        final(buffer).after() == old(buffer).after(),
        ({
            let dark = mask::bitmap_docs(*masked);
            let sort = old(buffer).sort();
            let from = old(buffer).after();
            let k = old(buffer).wanted();
            match r {
                Ok(_) => {
                    &&& final(buffer).held() == buffer_of(candidates(docs@, dark), sort, from, k)
                    &&& faults_are_skipped(docs@, docs@.len() as int, dark, sort, from, k)
                },
                Err(e) => e@ matches Failure::Internal(m) && exists|i: int| #[trigger]
                    first_fault(docs@, i, dark, sort, from, k, m),
            }
        }),
{
    let ghost dark = mask::bitmap_docs(*masked);
    let ghost all = docs@;
    let ghost order = buffer.sort();
    let ghost from = buffer.after();
    let ghost k = buffer.wanted();
    let mut i: usize = 0;
    proof {
        assert(candidates(all.take(0), dark) =~= Seq::empty());
    }
    while i < docs.len()
        invariant
            i <= all.len(),
            all == docs@,
            dark == mask::bitmap_docs(*masked),
            order == old(buffer).sort(),
            from == old(buffer).after(),
            k == old(buffer).wanted(),
            buffer.sort() == order,
            buffer.after() == from,
            buffer.wanted() == k,
            buffer.held() == buffer_of(candidates(all.take(i as int), dark), order, from, k),
            faults_are_skipped(all, i as int, dark, order, from, k),
        decreases docs.len() - i,
    {
        let d = &docs[i];
        let ghost before = candidates(all.take(i as int), dark);
        proof {
            assert(all.take(i as int + 1).drop_last() =~= all.take(i as int));
            assert(all.take(i as int + 1).last() == *d);
            assert(before.push(candidate(*d)).drop_last() =~= before);
        }
        if !mask::has_doc(masked, d.doc) {
            match visit(buffer, d) {
                Err(e) => {
                    proof {
                        assert(first_fault(
                            docs@,
                            i as int,
                            dark,
                            order,
                            from,
                            k,
                            e@->Internal_0,
                        ));
                    }
                    return Err(e);
                },
                Ok(_) => {},
            }
        }
        i += 1;
    }
    proof {
        assert(all.take(all.len() as int) =~= all);
    }
    Ok(())
}

} // verus!
