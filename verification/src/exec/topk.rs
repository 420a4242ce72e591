//! The best hits of a scored search.

use crate::float;
use crate::key;
use crate::key::{Key, PrimaryKey};
use crate::ordering;
use crate::ordering::{Order, Ranking, Sign};
use vstd::prelude::*;

verus! {

/// A scored row of the view.
#[derive(Debug)]
pub struct Scored {
    pub row_id: u64,
    pub pk: PrimaryKey,
    pub score: u32,
}

/// What a hit is.
#[verifier::ext_equal]
pub struct HitV {
    pub row_id: u64,
    pub pk: Key,
    pub score: u32,
}

impl View for Scored {
    type V = HitV;

    open spec fn view(&self) -> HitV {
        HitV { row_id: self.row_id, pk: self.pk@, score: self.score }
    }
}

/// What some hits are.
pub open spec fn hit_views(s: Seq<Scored>) -> Seq<HitV> {
    Seq::new(s.len(), |i: int| s[i]@)
}

/// The output order: score descending, then key ascending, then row.
pub open spec fn rank_sign(a: HitV, b: HitV) -> Sign {
    ordering::int_sign(float::key32(b.score), float::key32(a.score)).or(
        key::key_sign(a.pk, b.pk).or(ordering::int_sign(a.row_id as int, b.row_id as int)),
    )
}

/// The order of hits by rank.
pub struct ByRank;

impl Ranking<HitV> for ByRank {
    open spec fn le(&self, a: HitV, b: HitV) -> bool {
        !(rank_sign(a, b) is Greater)
    }
}

impl Ranking<Scored> for ByRank {
    open spec fn le(&self, a: Scored, b: Scored) -> bool {
        !(rank_sign(a@, b@) is Greater)
    }
}

impl Order<Scored> for ByRank {
    fn leq(&self, a: &Scored, b: &Scored) -> (r: bool) {
        let x: i64 = float::total_key32(a.score);
        let y: i64 = float::total_key32(b.score);
        if x != y {
            x > y
        } else {
            match a.pk.sign(&b.pk) {
                Sign::Less => true,
                Sign::Greater => false,
                Sign::Equal => a.row_id <= b.row_id,
            }
        }
    }
}

/// Every hit.
pub open spec fn any_hit() -> spec_fn(Scored) -> bool {
    |x: Scored| true
}

/// What a hit with a key can be.
pub open spec fn keyed() -> spec_fn(HitV) -> bool {
    |x: HitV| key::is_key(x.pk)
}

/// The order of hits by rank is total and transitive, and only hits of one
/// score, key and row tie.
pub proof fn views_are_linear()
    ensures
        ordering::linear(ByRank, keyed()),
        forall|a: HitV, b: HitV|
            key::is_key(a.pk) && key::is_key(b.pk) && #[trigger] ByRank.le(a, b) && ByRank.le(b, a)
                ==> a == b,
{
    assert forall|a: HitV, b: HitV| key::is_key(a.pk) && key::is_key(b.pk) implies #[trigger]
        ByRank.le(a, b) || ByRank.le(b, a) by {
        key::key_sign_flips(a.pk, b.pk);
    }
    assert forall|a: HitV, b: HitV, c: HitV|
        key::is_key(a.pk) && key::is_key(b.pk) && key::is_key(c.pk) && #[trigger] ByRank.le(a, b)
            && #[trigger] ByRank.le(b, c) implies ByRank.le(a, c) by {
        key::key_sign_flips(a.pk, b.pk);
        key::key_sign_flips(b.pk, c.pk);
        key::key_sign_flips(a.pk, c.pk);
        key::canonical_order(a.pk, b.pk);
        key::canonical_order(b.pk, c.pk);
        key::canonical_order(a.pk, c.pk);
        if !(key::key_sign(a.pk, b.pk) is Greater) && !(key::key_sign(b.pk, c.pk) is Greater) {
            key::key_sign_transitive(a.pk, b.pk, c.pk);
        }
    }
    assert forall|a: HitV, b: HitV|
        key::is_key(a.pk) && key::is_key(b.pk) && #[trigger] ByRank.le(a, b) && ByRank.le(
            b,
            a,
        ) implies a == b by {
        key::key_sign_flips(a.pk, b.pk);
        key::canonical_order(a.pk, b.pk);
        float::keys_differ(a.score, b.score, 0, 0);
    }
}

/// The order of hits by rank is that of what they are.
pub proof fn rank_is_linear()
    ensures
        ordering::linear(ByRank, any_hit()),
        forall|a: Scored, b: Scored|
            #[trigger] ByRank.le(a, b) && ByRank.le(b, a) ==> a@ == b@,
{
    views_are_linear();
    assert forall|a: Scored, b: Scored| #[trigger] ByRank.le(a, b) || ByRank.le(b, a) by {
        assert(ByRank.le(a@, b@) || ByRank.le(b@, a@));
    }
    assert forall|a: Scored, b: Scored, c: Scored|
        #[trigger] ByRank.le(a, b) && #[trigger] ByRank.le(b, c) implies ByRank.le(a, c) by {
        assert(ByRank.le(a@, b@) && ByRank.le(b@, c@));
    }
    assert forall|a: Scored, b: Scored| #[trigger] ByRank.le(a, b) && ByRank.le(b, a) implies a@
        == b@ by {
        assert(ByRank.le(a@, b@) && ByRank.le(b@, a@));
    }
}

/// The best `k` of what some hits are, in order.
pub open spec fn best_views(hits: Seq<HitV>, k: nat) -> Seq<HitV> {
    ordering::kept(ordering::sorted(ByRank, hits), k)
}

proof fn inserted_views(s: Seq<Scored>, x: Scored)
    ensures
        hit_views(ordering::inserted(ByRank, s, x)) == ordering::inserted(
            ByRank,
            hit_views(s),
            x@,
        ),
{
    let view = |h: Scored| h@;
    ordering::inserted_maps(ByRank, ByRank, s, x, view);
    assert(s.map_values(view) =~= hit_views(s));
    assert(ordering::inserted(ByRank, s, x).map_values(view) =~= hit_views(
        ordering::inserted(ByRank, s, x),
    ));
}

/// The best hits are the best of what the hits are.
pub proof fn best_views_are(hits: Seq<Scored>, k: nat)
    ensures
        hit_views(best_of(hits, k)) == best_views(hit_views(hits), k),
{
    let view = |h: Scored| h@;
    let s = ordering::sorted(ByRank, hits);
    ordering::sorted_maps(ByRank, ByRank, hits, view);
    assert(hits.map_values(view) =~= hit_views(hits));
    assert(s.map_values(view) =~= hit_views(s));
    assert(hit_views(best_of(hits, k)) =~= best_views(hit_views(hits), k));
}

/// Keeping the best `k` hit by hit is the same as sorting all of them, by
/// what they are.
pub proof fn pushed_views(best: Seq<Scored>, hits: Seq<HitV>, x: Scored, k: nat)
    requires
        hit_views(best) == best_views(hits, k),
        ordering::all_in(hits, keyed()),
    ensures
        hit_views(ordering::kept(ordering::inserted(ByRank, best, x), k)) == best_views(
            hits.push(x@),
            k,
        ),
{
    views_are_linear();
    inserted_views(best, x);
    assert(hits.push(x@).drop_last() =~= hits);
    ordering::sorted_all(ByRank, hits, keyed());
    ordering::sorted_ordered(ByRank, hits, keyed());
    ordering::kept_inserted(ByRank, ordering::sorted(ByRank, hits), x@, k, keyed());
    let u = ordering::inserted(ByRank, best, x);
    assert(hit_views(ordering::kept(u, k)) =~= ordering::kept(hit_views(u), k));
}

/// A hit that is worse than the last of the best `k` is not one of them.
pub proof fn left_out_views(hits: Seq<HitV>, x: HitV, k: nat)
    requires
        ordering::all_in(hits, keyed()),
        key::is_key(x.pk),
        k == 0 || (best_views(hits, k).len() == k && float::key32(x.score) < float::key32(
            best_views(hits, k).last().score,
        )),
    ensures
        best_views(hits.push(x), k) == best_views(hits, k),
{
    views_are_linear();
    let t = best_views(hits, k);
    assert(hits.push(x).drop_last() =~= hits);
    ordering::sorted_all(ByRank, hits, keyed());
    ordering::sorted_ordered(ByRank, hits, keyed());
    ordering::kept_inserted(ByRank, ordering::sorted(ByRank, hits), x, k, keyed());
    ordering::inserted_len(ByRank, t, x);
    assert(ordering::kept(ordering::inserted(ByRank, t, x), k) =~= t);
}

/// The best `k` of some hits, in order.
pub open spec fn best_of(hits: Seq<Scored>, k: nat) -> Seq<Scored> {
    ordering::kept(ordering::sorted(ByRank, hits), k)
}

/// The best `k` hits seen.
pub struct TopK {
    k: usize,
    hits: Vec<Scored>,
}

impl TopK {
    /// How many hits are kept.
    pub closed spec fn capacity(&self) -> nat {
        self.k as nat
    }

    /// The hits kept, best first.
    pub closed spec fn best(&self) -> Seq<Scored> {
        self.hits@
    }

    /// The hits are in order, and no more than wanted.
    pub open spec fn well_formed(&self) -> bool {
        &&& self.best().len() <= self.capacity()
        &&& ordering::is_ordered(ByRank, self.best())
    }

    /// No hit yet, of at most `k`.
    pub fn new(k: usize) -> (r: TopK)
        ensures
            r.well_formed(),
            r.capacity() == k,
            r.best() == Seq::<Scored>::empty(),
    {
        TopK { k, hits: Vec::new() }
    }

    /// Whether a hit scoring `score` may enter: `false` only when it is
    /// certainly worse than the current last one (the key breaks ties).
    pub fn may_admit(&self, score: u32) -> (r: bool)
        requires
            self.well_formed(),
        ensures
            r == (self.capacity() > 0 && (self.best().len() == self.capacity() ==> float::key32(
                score,
            ) >= float::key32(self.best().last().score))),
    {
        if self.k == 0 {
            false
        } else if self.hits.len() == self.k {
            float::total_key32(score) >= float::total_key32(self.hits[self.hits.len() - 1].score)
        } else {
            true
        }
    }

    /// Adds a hit, and drops the worst beyond the wanted number.
    pub fn push(&mut self, hit: Scored)
        requires
            old(self).well_formed(),
        ensures
            final(self).well_formed(),
            final(self).capacity() == old(self).capacity(),
            final(self).best() == ordering::kept(
                ordering::inserted(ByRank, old(self).best(), hit),
                old(self).capacity(),
            ),
    {
        proof {
            rank_is_linear();
            ordering::inserted_len(ByRank, self.hits@, hit);
            ordering::inserted_ordered(ByRank, self.hits@, hit, any_hit());
        }
        if self.k == 0 {
            proof {
                assert(ordering::kept(ordering::inserted(ByRank, self.hits@, hit), 0)
                    =~= self.hits@);
            }
            return;
        }
        if self.hits.len() == self.k {
            if ByRank.leq(&self.hits[self.hits.len() - 1], &hit) {
                proof {
                    assert(self.hits@.push(hit).take(self.k as int) =~= self.hits@);
                }
                return;
            }
        }
        ordering::insert(&ByRank, &mut self.hits, hit);
        if self.hits.len() > self.k {
            self.hits.truncate(self.k);
            proof {
                let all = ordering::inserted(ByRank, old(self).hits@, hit);
                assert(self.hits@ =~= all.take(self.k as int));
                assert forall|i: int, j: int| 0 <= i <= j < self.hits@.len() implies ByRank.le(
                    #[trigger] self.hits@[i],
                    #[trigger] self.hits@[j],
                ) by {
                    assert(self.hits@[i] == all[i] && self.hits@[j] == all[j]);
                }
            }
        }
    }

    /// The hits, best first.
    pub fn into_sorted(self) -> (r: Vec<Scored>)
        ensures
            r@ == self.best(),
    {
        self.hits
    }
}

/// Keeping the best `k` hit by hit is the same as sorting all of them.
pub proof fn pushes_keep_the_best(hits: Seq<Scored>, x: Scored, k: nat)
    ensures
        ordering::kept(ordering::inserted(ByRank, best_of(hits, k), x), k) == best_of(
            hits.push(x),
            k,
        ),
{
    rank_is_linear();
    assert(hits.push(x).drop_last() =~= hits);
    ordering::sorted_all(ByRank, hits, any_hit());
    ordering::sorted_ordered(ByRank, hits, any_hit());
    ordering::kept_inserted(ByRank, ordering::sorted(ByRank, hits), x, k, any_hit());
}

/// A hit that may not be admitted changes nothing when it is pushed.
pub proof fn refused_hits_change_nothing(top: Seq<Scored>, x: Scored, k: nat)
    requires
        top.len() == k,
        k > 0,
        float::key32(x.score) < float::key32(top.last().score),
    ensures
        ordering::kept(ordering::inserted(ByRank, top, x), k) == top,
{
    assert(top.push(x).take(k as int) =~= top);
}

/// No hit that is left out ranks before one that is kept.
pub proof fn kept_hits_are_the_best(hits: Seq<Scored>, k: nat, i: int, j: int)
    requires
        0 <= i < k <= j < hits.len(),
    ensures
        best_of(hits, k)[i] == ordering::sorted(ByRank, hits)[i],
        ByRank.le(best_of(hits, k)[i], ordering::sorted(ByRank, hits)[j]),
        ordering::sorted(ByRank, hits).to_multiset() == hits.to_multiset(),
{
    rank_is_linear();
    ordering::sorted_permutes(ByRank, hits);
    ordering::sorted_ordered(ByRank, hits, any_hit());
}

/// The hits of some lists, list after list.
pub open spec fn joined(lists: Seq<Vec<Scored>>) -> Seq<Scored>
    decreases lists.len(),
{
    if lists.len() == 0 {
        Seq::empty()
    } else {
        joined(lists.drop_last()) + lists.last()@
    }
}

/// Merges hit lists into the best `k`.
pub fn best(k: usize, lists: Vec<Vec<Scored>>) -> (r: Vec<Scored>)
    ensures
        r@ == best_of(joined(lists@), k as nat),
{
    let ghost all = lists@;
    let mut top = TopK::new(k);
    for list in it: lists
        invariant
            it.seq() == all,
            top.well_formed(),
            top.capacity() == k,
            top.best() == best_of(joined(all.take(it.index() as int)), k as nat),
    {
        let ghost before = joined(all.take(it.index() as int));
        let ghost hits = list@;
        proof {
            assert(all.take(it.index() as int + 1).drop_last() =~= all.take(it.index() as int));
            assert(before + hits.take(0) =~= before);
        }
        for hit in inner: list
            invariant
                inner.seq() == hits,
                top.well_formed(),
                top.capacity() == k,
                top.best() == best_of(before + hits.take(inner.index() as int), k as nat),
        {
            let ghost seen = before + hits.take(inner.index() as int);
            proof {
                pushes_keep_the_best(seen, hit, k as nat);
                assert(seen.push(hit) =~= before + hits.take(inner.index() as int + 1));
            }
            top.push(hit);
        }
        proof {
            assert(hits.take(hits.len() as int) =~= hits);
        }
    }
    proof {
        assert(all.take(all.len() as int) =~= all);
    }
    top.into_sorted()
}

} // verus!
