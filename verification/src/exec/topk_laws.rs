//! The best hits of some lists are those of the hits that the lists hold:
//! neither the order of the lists nor where they are split matters.

use crate::exec::topk;
use crate::exec::topk::{ByRank, HitV, Scored};
use crate::ordering;
use crate::ordering::Ranking;
use vstd::multiset::Multiset;
use vstd::prelude::*;

verus! {

/// The hits of some lists, however they stand.
pub open spec fn hits_in(lists: Seq<Vec<Scored>>) -> Multiset<HitV> {
    topk::hit_views(topk::joined(lists)).to_multiset()
}

/// Whether hits stand in rank, all of them with keys.
spec fn in_rank(s: Seq<HitV>) -> bool {
    ordering::all_in(s, topk::keyed()) && ordering::is_ordered(ByRank, s)
}

proof fn rank_is_unique(x: Seq<HitV>, y: Seq<HitV>)
    requires
        in_rank(x),
        in_rank(y),
        x.to_multiset() == y.to_multiset(),
    ensures
        x == y,
    decreases x.len(),
{
    broadcast use vstd::seq_lib::group_to_multiset_ensures;

    assert(x.to_multiset().len() == x.len() && y.to_multiset().len() == y.len());
    if x.len() == 0 {
        assert(x =~= y);
    } else {
        let n = x.len() - 1;
        let a = x[n];
        let b = y[n];
        assert(x.contains(a) && y.contains(b));
        assert(x.to_multiset().contains(b) && y.to_multiset().contains(a));
        assert(x.contains(b) && y.contains(a));
        let i = choose|i: int| 0 <= i < x.len() && x[i] == b;
        let j = choose|j: int| 0 <= j < y.len() && y[j] == a;
        assert(ByRank.le(x[i], x[n]) && ByRank.le(y[j], y[n]));
        topk::views_are_linear();
        assert(topk::keyed()(x[n]) && topk::keyed()(y[n]));
        assert(a == b);
        assert(x.drop_last() =~= x.remove(n) && y.drop_last() =~= y.remove(n));
        rank_is_unique(x.drop_last(), y.drop_last());
        assert(x =~= x.drop_last().push(a) && y =~= y.drop_last().push(b));
    }
}

/// The best hits depend only on which hits there are.
pub proof fn the_best_are_of_the_hits(a: Seq<HitV>, b: Seq<HitV>, k: nat)
    requires
        ordering::all_in(a, topk::keyed()),
        ordering::all_in(b, topk::keyed()),
        a.to_multiset() == b.to_multiset(),
    ensures
        topk::best_views(a, k) == topk::best_views(b, k),
{
    topk::views_are_linear();
    ordering::sorted_permutes(ByRank, a);
    ordering::sorted_permutes(ByRank, b);
    ordering::sorted_all(ByRank, a, topk::keyed());
    ordering::sorted_all(ByRank, b, topk::keyed());
    ordering::sorted_ordered(ByRank, a, topk::keyed());
    ordering::sorted_ordered(ByRank, b, topk::keyed());
    rank_is_unique(ordering::sorted(ByRank, a), ordering::sorted(ByRank, b));
}

proof fn joined_without(lists: Seq<Vec<Scored>>, at: int)
    requires
        0 <= at < lists.len(),
    ensures
        hits_in(lists) == hits_in(lists.remove(at)).add(topk::hit_views(lists[at]@).to_multiset()),
    decreases lists.len(),
{
    let n = lists.len() - 1;
    let last = topk::hit_views(lists.last()@);
    hits_step(lists);
    if at == n {
        assert(lists.remove(at) =~= lists.drop_last());
    } else {
        let rest = lists.remove(at);
        joined_without(lists.drop_last(), at);
        hits_step(rest);
        assert(rest.drop_last() =~= lists.drop_last().remove(at));
        assert(rest.last() == lists.last());
        assert(hits_in(lists) =~= hits_in(rest).add(topk::hit_views(lists[at]@).to_multiset()));
    }
}

proof fn hits_step(lists: Seq<Vec<Scored>>)
    requires
        lists.len() > 0,
    ensures
        hits_in(lists) == hits_in(lists.drop_last()).add(topk::hit_views(lists.last()@).to_multiset()),
{
    let p = topk::joined(lists.drop_last());
    let q = lists.last()@;
    assert(topk::hit_views(p + q) =~= topk::hit_views(p) + topk::hit_views(q));
    vstd::seq_lib::lemma_multiset_commutative(topk::hit_views(p), topk::hit_views(q));
}

proof fn reordered_lists(a: Seq<Vec<Scored>>, b: Seq<Vec<Scored>>)
    requires
        a.to_multiset() == b.to_multiset(),
    ensures
        hits_in(a) == hits_in(b),
    decreases a.len(),
{
    broadcast use vstd::seq_lib::group_to_multiset_ensures;

    assert(a.to_multiset().len() == a.len() && b.to_multiset().len() == b.len());
    if a.len() == 0 {
        assert(a =~= b);
    } else {
        assert(a.to_multiset().count(a.last()) > 0) by {
            assert(a.contains(a[a.len() - 1]));
        }
        assert(b.contains(a.last()));
        let at = choose|i: int| 0 <= i < b.len() && b[i] == a.last();
        joined_without(b, at);
        hits_step(a);
        assert(a.drop_last() =~= a.remove(a.len() - 1));
        assert(a.drop_last().to_multiset() =~= b.remove(at).to_multiset());
        reordered_lists(a.drop_last(), b.remove(at));
    }
}

/// The best hits of some lists stay the same when the lists are reordered.
pub proof fn reordering_changes_nothing(a: Seq<Vec<Scored>>, b: Seq<Vec<Scored>>, k: nat)
    requires
        a.to_multiset() == b.to_multiset(),
    ensures
        topk::hit_views(topk::best_of(topk::joined(a), k)) == topk::hit_views(
            topk::best_of(topk::joined(b), k),
        ),
{
    reordered_lists(a, b);
    topk::best_views_are(topk::joined(a), k);
    topk::best_views_are(topk::joined(b), k);
    the_best_are_of_the_hits(
        topk::hit_views(topk::joined(a)),
        topk::hit_views(topk::joined(b)),
        k,
    );
}

/// The best hits of some lists stay the same when one of them is split into
/// two, or two of them are joined.
pub proof fn splitting_changes_nothing(
    before: Seq<Vec<Scored>>,
    whole: Vec<Scored>,
    front: Vec<Scored>,
    back: Vec<Scored>,
    after: Seq<Vec<Scored>>,
    k: nat,
)
    requires
        whole@ == front@ + back@,
    ensures
        topk::best_of(topk::joined(before.push(whole) + after), k) == topk::best_of(
            topk::joined(before.push(front).push(back) + after),
            k,
        ),
{
    split_joins(before, whole, front, back, after);
}

proof fn split_joins(
    before: Seq<Vec<Scored>>,
    whole: Vec<Scored>,
    front: Vec<Scored>,
    back: Vec<Scored>,
    after: Seq<Vec<Scored>>,
)
    requires
        whole@ == front@ + back@,
    ensures
        topk::joined(before.push(whole) + after) == topk::joined(
            before.push(front).push(back) + after,
        ),
    decreases after.len(),
{
    let a = before.push(whole) + after;
    let b = before.push(front).push(back) + after;
    if after.len() == 0 {
        assert(a =~= before.push(whole));
        assert(b =~= before.push(front).push(back));
        assert(a.drop_last() =~= before);
        assert(b.drop_last() =~= before.push(front));
        assert(b.drop_last().drop_last() =~= before);
        assert(topk::joined(b.drop_last()) == topk::joined(before) + front@);
        assert(topk::joined(a) =~= topk::joined(b));
    } else {
        split_joins(before, whole, front, back, after.drop_last());
        assert(a.drop_last() =~= before.push(whole) + after.drop_last());
        assert(b.drop_last() =~= before.push(front).push(back) + after.drop_last());
    }
}

} // verus!
