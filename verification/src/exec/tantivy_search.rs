//! Text search over the splits and the tail: the bounded score buffer of one
//! segment, and the merge of what the segments found.
//!
//! Score order prunes with a threshold that its owner keeps a little below
//! the k-th best score, so that exact rescoring cannot move a hit across
//! it; every candidate at or above it is kept.

use crate::exec::order;
use crate::exec::order::EffectiveSort;
use crate::exec::schema::{Ranked, RankedV};
use crate::float;
use crate::ordering;
use crate::ordering::{Order, Ranking};
use crate::values;
use crate::values::{SortV, SortValue};
use vstd::prelude::*;

verus! {

/// The bits of the least float.
pub const LOWEST: u32 = 0xff7f_ffff;

/// The order of scores, best first.
pub struct ByBits;

impl Ranking<u32> for ByBits {
    open spec fn le(&self, a: u32, b: u32) -> bool {
        float::key32(a) >= float::key32(b)
    }
}

impl Order<u32> for ByBits {
    fn leq(&self, a: &u32, b: &u32) -> (r: bool) {
        float::total_key32(*a) >= float::total_key32(*b)
    }
}

/// Every score.
pub open spec fn any_bits() -> spec_fn(u32) -> bool {
    |x: u32| true
}

/// The order of documents.
pub struct ByDoc;

impl Ranking<(u32, u32)> for ByDoc {
    open spec fn le(&self, a: (u32, u32), b: (u32, u32)) -> bool {
        a.0 <= b.0
    }
}

impl Order<(u32, u32)> for ByDoc {
    fn leq(&self, a: &(u32, u32), b: &(u32, u32)) -> (r: bool) {
        a.0 <= b.0
    }
}

/// The candidates at or above a floor.
pub open spec fn above(s: Seq<(u32, u32)>, floor: u32) -> Seq<(u32, u32)>
    decreases s.len(),
{
    if s.len() == 0 {
        s
    } else {
        let before = above(s.drop_last(), floor);
        if float::ge32(s.last().1, floor) {
            before.push(s.last())
        } else {
            before
        }
    }
}

fn keep_above(s: Vec<(u32, u32)>, floor: u32) -> (r: Vec<(u32, u32)>)
    ensures
        r@ == above(s@, floor),
{
    let ghost all = s@;
    let mut out: Vec<(u32, u32)> = Vec::new();
    for x in it: s
        invariant
            it.seq() == all,
            out@ == above(all.take(it.index() as int), floor),
    {
        proof {
            let n = it.index() as int;
            assert(all.take(n + 1).drop_last() =~= all.take(n));
            assert(all.take(n + 1).last() == x);
        }
        if float::at_least32(x.1, floor) {
            out.push(x);
        }
    }
    proof {
        assert(all.take(all.len() as int) =~= all);
    }
    out
}

/// Pruning at a floor loses nothing that a higher floor keeps.
pub proof fn pruning_loses_nothing(s: Seq<(u32, u32)>, more: Seq<(u32, u32)>, low: u32, high: u32)
    requires
        float::ge32(high, low),
    ensures
        above(above(s, low) + more, high) == above(s + more, high),
    decreases s.len() + more.len(),
{
    if more.len() > 0 {
        let m = more.drop_last();
        pruning_loses_nothing(s, m, low, high);
        assert((s + more).drop_last() =~= s + m);
        assert((above(s, low) + more).drop_last() =~= above(s, low) + m);
    } else {
        assert(above(s, low) + more =~= above(s, low));
        assert(s + more =~= s);
        if s.len() > 0 {
            let t = s.drop_last();
            pruning_loses_nothing(t, more, low, high);
            assert(above(t, low) + more =~= above(t, low));
            assert(t + more =~= t);
            let c = above(t, low).push(s.last());
            assert(c.drop_last() =~= above(t, low));
        }
    }
}

/// The candidates of one segment in score order.
pub struct ScoreBuffer {
    k: usize,
    floor: u32,
    top: Vec<u32>,
    candidates: Vec<(u32, u32)>,
}

impl ScoreBuffer {
    /// How many hits are wanted.
    pub closed spec fn wanted(&self) -> nat {
        self.k as nat
    }

    /// The threshold.
    pub closed spec fn floor(&self) -> u32 {
        self.floor
    }

    /// The best scores added.
    pub closed spec fn top(&self) -> Seq<u32> {
        self.top@
    }

    /// The candidates, by document and score.
    pub closed spec fn candidates(&self) -> Seq<(u32, u32)> {
        self.candidates@
    }

    /// The best scores are in order, and no more than wanted.
    pub open spec fn well_formed(&self) -> bool {
        self.top().len() <= self.wanted() && ordering::is_ordered(ByBits, self.top())
    }

    /// No candidate yet.
    pub fn new(k: usize) -> (r: ScoreBuffer)
        ensures
            r.well_formed(),
            r.wanted() == k,
            r.floor() == LOWEST,
            r.top() == Seq::<u32>::empty(),
            r.candidates() == Seq::<(u32, u32)>::empty(),
    {
        ScoreBuffer { k, floor: LOWEST, top: Vec::new(), candidates: Vec::new() }
    }

    /// Whether a document may be a candidate: it is not masked, and its
    /// score is not below the threshold.
    pub fn admits(&self, masked: bool, score: u32) -> (r: bool)
        ensures
            r == (!masked && !float::lt32(score, self.floor())),
    {
        !masked && !float::less32(score, self.floor)
    }

    /// Adds a candidate; the k-th best score once there are k.
    pub fn add(&mut self, doc: u32, score: u32) -> (r: Option<u32>)
        requires
            old(self).well_formed(),
        ensures
            final(self).well_formed(),
            final(self).wanted() == old(self).wanted(),
            final(self).floor() == old(self).floor(),
            final(self).candidates() == old(self).candidates().push((doc, score)),
            final(self).top() == ordering::kept(
                ordering::inserted(ByBits, old(self).top(), score),
                old(self).wanted(),
            ),
            r == (if final(self).top().len() == final(self).wanted() && final(self).wanted() > 0 {
                Some(final(self).top().last())
            } else {
                None
            }),
    {
        proof {
            ordering::inserted_len(ByBits, self.top@, score);
            ordering::inserted_ordered(ByBits, self.top@, score, any_bits());
        }
        self.candidates.push((doc, score));
        ordering::insert(&ByBits, &mut self.top, score);
        let ghost all = self.top@;
        if self.top.len() > self.k {
            self.top.truncate(self.k);
            proof {
                assert(self.top@ =~= ordering::kept(all, self.k as nat));
            }
        }
        proof {
            ordering::kept_ordered(ByBits, all, self.k as nat);
        }
        if self.top.len() == self.k && self.k > 0 {
            Some(self.top[self.top.len() - 1])
        } else {
            None
        }
    }

    /// Raises the threshold, and prunes the candidates when there are many.
    pub fn set_floor(&mut self, floor: u32)
        requires
            old(self).well_formed(),
        ensures
            final(self).well_formed(),
            final(self).wanted() == old(self).wanted(),
            final(self).floor() == floor,
            final(self).top() == old(self).top(),
            final(self).candidates() == (if old(self).candidates().len() > 4 * old(self).wanted()
                + 64 {
                above(old(self).candidates(), floor)
            } else {
                old(self).candidates()
            }),
    {
        self.floor = floor;
        if self.candidates.len() as u128 > 4 * (self.k as u128) + 64 {
            let mut all: Vec<(u32, u32)> = Vec::new();
            std::mem::swap(&mut all, &mut self.candidates);
            self.candidates = keep_above(all, floor);
        }
    }

    /// The candidates at or above the threshold, by document.
    pub fn finish(self) -> (r: Vec<(u32, u32)>)
        ensures
            r@ == ordering::sorted(ByDoc, above(self.candidates(), self.floor())),
    {
        let keep = keep_above(self.candidates, self.floor);
        ordering::sort(&ByDoc, keep)
    }
}

/// The hits after a `search_after`.
pub open spec fn hits_after(s: Seq<Ranked>, sort: EffectiveSort, after: Option<Seq<SortV>>) -> Seq<
    Ranked,
>
    decreases s.len(),
{
    if s.len() == 0 {
        s
    } else {
        let before = hits_after(s.drop_last(), sort, after);
        if comes_after(s.last()@, sort, after) {
            before.push(s.last())
        } else {
            before
        }
    }
}

/// Whether a hit comes after a `search_after`, when there is one.
pub open spec fn comes_after(hit: RankedV, sort: EffectiveSort, after: Option<Seq<SortV>>) -> bool {
    match after {
        Some(v) => order::after_sign(order::keys_of(sort), hit, v, 0) is Greater,
        None => true,
    }
}

/// The values of a `search_after`.
pub open spec fn after_views(after: Option<Vec<SortValue>>) -> Option<Seq<SortV>> {
    match after {
        Some(v) => Some(values::sort_views(v@)),
        None => None,
    }
}

pub(crate) fn is_wanted(hit: &Ranked, sort: &EffectiveSort, after: &Option<Vec<SortValue>>) -> (r: bool)
    ensures
        r == comes_after(hit@, *sort, after_views(*after)),
{
    match after {
        Some(v) => sort.is_after(hit, v),
        None => true,
    }
}

/// The hits after a `search_after`.
pub fn keep_after(hits: Vec<Ranked>, sort: &EffectiveSort, after: &Option<Vec<SortValue>>) -> (r: Vec<
    Ranked,
>)
    ensures
        r@ == hits_after(hits@, *sort, after_views(*after)),
{
    let ghost all = hits@;
    let ghost a = after_views(*after);
    let mut out: Vec<Ranked> = Vec::new();
    for hit in it: hits
        invariant
            it.seq() == all,
            a == after_views(*after),
            out@ == hits_after(all.take(it.index() as int), *sort, a),
    {
        proof {
            let n = it.index() as int;
            assert(all.take(n + 1).drop_last() =~= all.take(n));
            assert(all.take(n + 1).last() == hit);
        }
        if is_wanted(&hit, sort, after) {
            out.push(hit);
        }
    }
    proof {
        assert(all.take(all.len() as int) =~= all);
    }
    out
}

/// A hit with another score.
pub open spec fn with_score(hit: RankedV, score: u32) -> RankedV {
    RankedV { score, ..hit }
}

/// Whether a document may come after a `search_after`, when its exact score
/// is between two scores.
pub fn maybe_after(
    sort: &EffectiveSort,
    hit: Ranked,
    low: u32,
    high: u32,
    after: &Vec<SortValue>,
) -> (r: bool)
    ensures
        r == (comes_after(with_score(hit@, low), *sort, Some(values::sort_views(after@)))
            || comes_after(with_score(hit@, high), *sort, Some(values::sort_views(after@)))),
{
    let mut hit = hit;
    let ghost given = hit@;
    hit.score = low;
    assert(hit@ == with_score(given, low));
    if sort.is_after(&hit, after) {
        return true;
    }
    hit.score = high;
    assert(hit@ == with_score(given, high));
    sort.is_after(&hit, after)
}

/// No hit that comes after a `search_after` with its exact score is left
/// out when the score is only known to be between two scores.
pub proof fn bounds_lose_nothing(
    keys: Seq<crate::ir::SortKeyV>,
    hit: RankedV,
    low: u32,
    high: u32,
    after: Seq<SortV>,
    field: nat,
)
    requires
        float::key32(low) <= float::key32(hit.score) <= float::key32(high),
        order::after_sign(keys, hit, after, field) is Greater,
    ensures
        order::after_sign(keys, with_score(hit, low), after, field) is Greater
            || order::after_sign(keys, with_score(hit, high), after, field) is Greater,
    decreases keys.len(),
{
    if float::key32(low) == float::key32(hit.score) {
        assert(with_score(hit, low) == hit);
    } else if float::key32(high) == float::key32(hit.score) {
        assert(with_score(hit, high) == hit);
    } else if keys.len() > 0 && after.len() > 0 && !(keys[0] is Score) && order::after_key_sign(
        keys[0],
        hit,
        after[0],
        field,
    ) is Equal {
        bounds_lose_nothing(
            keys.drop_first(),
            hit,
            low,
            high,
            after.drop_first(),
            field + order::field_step(keys[0]),
        );
    }
}

/// The best `k` hits in the order of a sort.
pub fn top_hits(hits: Vec<Ranked>, sort: &EffectiveSort, k: usize) -> (r: Vec<Ranked>)
    ensures
        r@ == ordering::kept(ordering::sorted(*sort, hits@), k as nat),
{
    let mut out = ordering::sort(sort, hits);
    let ghost all = out@;
    if out.len() > k {
        out.truncate(k);
        proof {
            assert(out@ =~= all.take(k as int));
        }
    }
    out
}

/// The rescored hits of a segment: those after `search_after`, in order, at
/// most `k`.
pub fn rescored_hits(
    hits: Vec<Ranked>,
    sort: &EffectiveSort,
    after: &Option<Vec<SortValue>>,
    k: usize,
) -> (r: Vec<Ranked>)
    ensures
        r@ == ordering::kept(
            ordering::sorted(*sort, hits_after(hits@, *sort, after_views(*after))),
            k as nat,
        ),
{
    let keep = keep_after(hits, sort, after);
    top_hits(keep, sort, k)
}

/// How many of some documents are not masked.
pub open spec fn unmasked(docs: Seq<u32>, masked: Set<u32>) -> nat
    decreases docs.len(),
{
    if docs.len() == 0 {
        0
    } else {
        unmasked(docs.drop_last(), masked) + (if masked.contains(docs.last()) {
            0nat
        } else {
            1nat
        })
    }
}

/// The matches of one segment that are not masked.
pub fn count_docs(docs: &Vec<u32>, masked: &roaring::RoaringBitmap) -> (r: u64)
    ensures
        r == unmasked(docs@, crate::exec::mask::bitmap_docs(*masked)),
        r <= docs@.len(),
{
    let ghost m = crate::exec::mask::bitmap_docs(*masked);
    let mut total: u64 = 0;
    let mut i: usize = 0;
    while i < docs.len()
        invariant
            i <= docs@.len(),
            m == crate::exec::mask::bitmap_docs(*masked),
            total == unmasked(docs@.take(i as int), m),
            total <= i,
        decreases docs.len() - i,
    {
        proof {
            assert(docs@.take(i as int + 1).drop_last() =~= docs@.take(i as int));
        }
        if !crate::exec::mask::has_doc(masked, docs[i]) {
            total = total + 1;
        }
        i += 1;
    }
    proof {
        assert(docs@.take(docs@.len() as int) =~= docs@);
    }
    total
}

} // verus!
