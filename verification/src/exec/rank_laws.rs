//! Which hits come first, and what fused hits add up: the best score first,
//! ties by key, and of every list each hit at its rank.

use crate::exec::fusion;
use crate::exec::fusion::{ByScore, Part};
use crate::exec::planner;
use crate::exec::schema::{Ranked, RankedV};
use crate::exec::topk;
use crate::exec::topk::{ByRank, Scored};
use crate::float;
use crate::ir::FusionV;
use crate::key;
use crate::key::Key;
use crate::ordering;
use crate::ordering::Ranking;
use vstd::prelude::*;

verus! {

/// Whether a hit comes before another: by a better score, and between equal
/// scores by a smaller key, then by a smaller row.
pub open spec fn comes_first(x: (u32, Key, u64), y: (u32, Key, u64)) -> bool {
    if x.0 != y.0 {
        float::key32(x.0) > float::key32(y.0)
    } else if x.1 != y.1 {
        key::key_sign(x.1, y.1) is Less
    } else {
        x.2 < y.2
    }
}

/// Hits stand with the better score first, in a search for the best of some
/// lists and in a fused list alike; equal scores stand by key, equal keys by
/// row.
pub proof fn better_hits_stand_first(a: Scored, b: Scored, x: Ranked, y: Ranked)
    ensures
        ByRank.le(a, b) == !comes_first(
            (b.score, b.pk@, b.row_id),
            (a.score, a.pk@, a.row_id),
        ),
        ByScore.le(x, y) == !comes_first(
            (y.score, y.pk@, y.row_id),
            (x.score, x.pk@, x.row_id),
        ),
{
    float::keys_differ(a.score, b.score, 0, 0);
    float::keys_differ(x.score, y.score, 0, 0);
    key::key_sign_flips(a.pk@, b.pk@);
    key::canonical_order(a.pk@, b.pk@);
    key::canonical_order(b.pk@, a.pk@);
    key::canonical_order(a.pk@, a.pk@);
    key::key_sign_flips(x.pk@, y.pk@);
    key::canonical_order(x.pk@, y.pk@);
    key::canonical_order(y.pk@, x.pk@);
    key::canonical_order(x.pk@, x.pk@);
}

/// The first `k` of a sequence are its first elements, as many as there are
/// up to `k`.
pub proof fn the_first_are_kept<T>(s: Seq<T>, k: nat)
    ensures
        ordering::kept(s, k).len() <= k,
        ordering::kept(s, k).len() <= s.len(),
        ordering::kept(s, k).len() < k ==> ordering::kept(s, k).len() == s.len(),
        forall|i: int|
            0 <= i < ordering::kept(s, k).len() ==> #[trigger] ordering::kept(s, k)[i] == s[i],
{
}

/// The best hits are `k` of the hits, or all where there are fewer: each was
/// found, they stand with the better first, and every hit that was left out
/// is no better than any of them.
pub proof fn the_best_hits_are_kept(hits: Seq<Scored>, k: nat)
    ensures
        ({
            let best = topk::best_of(hits, k);
            &&& best.len() <= k
            &&& best.len() <= hits.len()
            &&& best.len() < k ==> best.len() == hits.len()
            &&& ordering::is_ordered(ByRank, best)
            &&& best.to_multiset().subset_of(hits.to_multiset())
            &&& forall|h: Scored, i: int|
                hits.to_multiset().count(h) > best.to_multiset().count(h) && 0 <= i < best.len()
                    ==> #[trigger] ByRank.le(best[i], h)
        }),
{
    broadcast use vstd::seq_lib::group_to_multiset_ensures;

    let all = ordering::sorted(ByRank, hits);
    let best = topk::best_of(hits, k);
    topk::rank_is_linear();
    ordering::sorted_permutes(ByRank, hits);
    ordering::sorted_ordered(ByRank, hits, topk::any_hit());
    ordering::kept_ordered(ByRank, all, k);
    let rest = all.skip(best.len() as int);
    assert(all =~= best + rest);
    vstd::seq_lib::lemma_multiset_commutative(best, rest);
    assert forall|h: Scored, i: int|
        hits.to_multiset().count(h) > best.to_multiset().count(h) && 0 <= i
            < best.len() implies #[trigger] ByRank.le(best[i], h) by {
        assert(rest.to_multiset().count(h) > 0);
        assert(rest.contains(h));
        let j = choose|j: int| 0 <= j < rest.len() && rest[j] == h;
        assert(all[best.len() + j] == h);
        assert(best[i] == all[i]);
    }
}

/// Whether a part is what a hit at a place of a list adds: by reciprocal
/// rank over the fusion's number and its rank, which begins at one; by its
/// normalized score; or by its score times the weight of its list, one where
/// the list has none.
pub open spec fn adds(f: FusionV, list: int, place: int, hit: RankedV, part: Part) -> bool {
    match (f, part) {
        (FusionV::Rrf { k }, Part::Reciprocal { k: over, rank }) => over == k && rank == place + 1,
        (FusionV::Dbsf, Part::Normalized { list: l, place: p }) => l == list && p == place,
        (FusionV::WeightedSum { weights }, Part::Weighted { weight, score }) => {
            &&& score == hit.score
            &&& list < weights.len() ==> weight == weights[list]
            &&& list >= weights.len() ==> weight == fusion::ONE
        },
        _ => false,
    }
}

/// Where the hits of a list begin among those of all lists.
pub open spec fn start_of(lists: Seq<Vec<Ranked>>, i: nat) -> nat
    decreases i,
{
    if i == 0 || i > lists.len() {
        0
    } else {
        start_of(lists, (i - 1) as nat) + lists[i - 1]@.len()
    }
}

proof fn starts_agree(a: Seq<Vec<Ranked>>, b: Seq<Vec<Ranked>>, i: nat)
    requires
        i <= a.len(),
        i <= b.len(),
        forall|j: int| 0 <= j < i ==> #[trigger] a[j] == b[j],
    ensures
        start_of(a, i) == start_of(b, i),
    decreases i,
{
    if i > 0 {
        starts_agree(a, b, (i - 1) as nat);
    }
}

proof fn part_at_its_place(lists: Seq<Vec<Ranked>>, f: FusionV, i: int, j: int)
    requires
        lists.len() <= usize::MAX,
        0 <= i < lists.len(),
        0 <= j < lists[i]@.len(),
    ensures
        start_of(lists, i as nat) + j < fusion::all_parts(lists, f).len(),
        fusion::all_parts(lists, f)[start_of(lists, i as nat) + j].0 == lists[i]@[j]@,
        adds(
            f,
            i,
            j,
            lists[i]@[j]@,
            fusion::all_parts(lists, f)[start_of(lists, i as nat) + j].1,
        ),
    decreases lists.len(),
{
    let t = lists.drop_last();
    let before = fusion::all_parts(t, f);
    let own = fusion::list_parts(lists.last()@, f, lists.len() - 1);
    let all = fusion::all_parts(lists, f);
    parts_count(t, f);
    starts_agree(lists, t, if i < t.len() {
        i as nat
    } else {
        t.len()
    });
    if i < t.len() {
        assert(t[i] == lists[i]);
        part_at_its_place(t, f, i, j);
        assert(all[start_of(t, i as nat) + j] == before[start_of(t, i as nat) + j]);
    } else {
        assert(lists[i] == lists.last());
        assert(all[before.len() + j] == own[j]);
        assert(j < lists[i].len());
    }
}

proof fn parts_count(lists: Seq<Vec<Ranked>>, f: FusionV)
    ensures
        fusion::all_parts(lists, f).len() == start_of(lists, lists.len()),
    decreases lists.len(),
{
    if lists.len() > 0 {
        parts_count(lists.drop_last(), f);
        starts_agree(lists, lists.drop_last(), (lists.len() - 1) as nat);
    }
}

proof fn hit_at_the_place(lists: Seq<Vec<Ranked>>, f: FusionV, n: int) -> (r: (int, int))
    requires
        lists.len() <= usize::MAX,
        0 <= n < fusion::all_parts(lists, f).len(),
    ensures
        0 <= r.0 < lists.len(),
        0 <= r.1 < lists[r.0]@.len(),
        fusion::all_parts(lists, f)[n].0 == lists[r.0]@[r.1]@,
        adds(f, r.0, r.1, lists[r.0]@[r.1]@, fusion::all_parts(lists, f)[n].1),
    decreases lists.len(),
{
    let t = lists.drop_last();
    let before = fusion::all_parts(t, f);
    if n < before.len() {
        let r = hit_at_the_place(t, f, n);
        assert(t[r.0] == lists[r.0]);
        r
    } else {
        let i = lists.len() - 1;
        let j = n - before.len();
        assert(lists[i] == lists.last());
        assert(fusion::all_parts(lists, f)[n] == fusion::list_parts(lists.last()@, f, i)[j]);
        assert(j < lists[i].len());
        (i, j)
    }
}

proof fn part_is_kept(s: Seq<(RankedV, Part)>, row: u64, n: int) -> (p: int)
    requires
        0 <= n < s.len(),
        s[n].0.row_id == row,
    ensures
        0 <= p < fusion::parts_of(s, row).len(),
        fusion::parts_of(s, row)[p] == s[n].1,
    decreases s.len(),
{
    let t = s.drop_last();
    if n < t.len() {
        assert(t[n] == s[n]);
        part_is_kept(t, row, n)
    } else {
        fusion::parts_of(s, row).len() - 1
    }
}

proof fn hit_of_part(s: Seq<(RankedV, Part)>, row: u64, p: int) -> (n: int)
    requires
        0 <= p < fusion::parts_of(s, row).len(),
    ensures
        0 <= n < s.len(),
        s[n].0.row_id == row,
        s[n].1 == fusion::parts_of(s, row)[p],
    decreases s.len(),
{
    let t = s.drop_last();
    if p < fusion::parts_of(t, row).len() {
        let n = hit_of_part(t, row, p);
        assert(t[n] == s[n]);
        n
    } else {
        s.len() - 1
    }
}

/// Every hit of every list adds to the fused row of its row: by its own
/// place in its own list.
pub proof fn every_hit_adds(lists: Seq<Vec<Ranked>>, f: FusionV, i: int, j: int)
    requires
        lists.len() <= usize::MAX,
        0 <= i < lists.len(),
        0 <= j < lists[i]@.len(),
    ensures
        ({
            let fused = fusion::gathered(fusion::all_parts(lists, f));
            exists|n: int, p: int|
                #![trigger fused[n].parts[p]]
                0 <= n < fused.len() && 0 <= p < fused[n].parts.len() && fused[n].hit.row_id
                    == lists[i]@[j].row_id && adds(f, i, j, lists[i]@[j]@, fused[n].parts[p])
        }),
{
    let s = fusion::all_parts(lists, f);
    let fused = fusion::gathered(s);
    let row = lists[i]@[j].row_id;
    let at = start_of(lists, i as nat) + j;
    part_at_its_place(lists, f, i, j);
    fusion::rows_gather_their_parts(s);
    assert(s[at].0.row_id == row);
    fusion::place_is_first(fused, row);
    let n = fusion::place_of(fused, row) as int;
    let p = part_is_kept(s, row, at);
    assert(fused[n].parts == fusion::parts_of(s, row));
    assert(fused[n].parts[p] == s[at].1);
}

/// A fused row has nothing but what hits of its row add, and no other fused
/// row is of its row.
pub proof fn nothing_else_adds(lists: Seq<Vec<Ranked>>, f: FusionV, n: int, p: int)
    requires
        lists.len() <= usize::MAX,
        0 <= n < fusion::gathered(fusion::all_parts(lists, f)).len(),
        0 <= p < fusion::gathered(fusion::all_parts(lists, f))[n].parts.len(),
    ensures
        ({
            let fused = fusion::gathered(fusion::all_parts(lists, f));
            &&& exists|i: int, j: int|
                #![trigger lists[i]@[j]]
                0 <= i < lists.len() && 0 <= j < lists[i]@.len() && lists[i]@[j].row_id
                    == fused[n].hit.row_id && adds(f, i, j, lists[i]@[j]@, fused[n].parts[p])
            &&& forall|m: int|
                0 <= m < fused.len() && m != n ==> (#[trigger] fused[m]).hit.row_id
                    != fused[n].hit.row_id
        }),
{
    let s = fusion::all_parts(lists, f);
    let fused = fusion::gathered(s);
    let row = fused[n].hit.row_id;
    fusion::rows_gather_their_parts(s);
    assert(fused[n].parts == fusion::parts_of(s, row));
    let at = hit_of_part(s, row, p);
    let (i, j) = hit_at_the_place(lists, f, at);
    assert(lists[i]@[j].row_id == row);
    assert forall|m: int| 0 <= m < fused.len() && m != n implies (#[trigger] fused[m]).hit.row_id
        != row by {
        if m < n {
            assert(fused[m].hit.row_id != fused[n].hit.row_id);
        } else {
            assert(fused[n].hit.row_id != fused[m].hit.row_id);
        }
    }
}

/// Rescoring keeps just the candidates that have a score of their own, in
/// their order, each with that score and else as it was.
pub proof fn rescored_have_their_scores(s: Seq<RankedV>, scores: Seq<Option<u32>>, i: int)
    requires
        0 <= i < s.len(),
    ensures
        i < scores.len() && scores[i] is Some ==> planner::rescored(s, scores).contains(
            RankedV { score: scores[i]->0, ..s[i] },
        ),
        forall|m: int|
            0 <= m < planner::rescored(s, scores).len() ==> exists|j: int|
                0 <= j < s.len() && j < scores.len() && scores[j] is Some && (
                #[trigger] planner::rescored(s, scores)[m]) == (RankedV {
                    score: scores[j]->0,
                    ..#[trigger] s[j]
                }),
        planner::rescored(s, scores).len() <= s.len(),
    decreases s.len(),
{
    let t = s.drop_last();
    let n = s.len() - 1;
    let all = planner::rescored(s, scores);
    let before = planner::rescored(t, scores);
    if t.len() > 0 {
        rescored_have_their_scores(t, scores, if i < n {
            i
        } else {
            0
        });
    }
    if i < scores.len() && scores[i] is Some {
        let x = RankedV { score: scores[i]->0, ..s[i] };
        if i < n {
            assert(t[i] == s[i]);
            let m = choose|m: int| 0 <= m < before.len() && before[m] == x;
            assert(all[m] == x);
        } else {
            assert(all[all.len() - 1] == x);
        }
    }
    assert forall|m: int| 0 <= m < all.len() implies exists|j: int|
        0 <= j < s.len() && j < scores.len() && scores[j] is Some && (#[trigger] all[m]) == (
        RankedV { score: scores[j]->0, ..#[trigger] s[j] }) by {
        if m < before.len() {
            assert(all[m] == before[m]);
            let j = choose|j: int|
                0 <= j < t.len() && j < scores.len() && scores[j] is Some && before[m] == (RankedV {
                    score: scores[j]->0,
                    ..#[trigger] t[j]
                });
            assert(s[j] == t[j]);
        } else {
            assert(s[n] == s.last());
        }
    }
}

} // verus!
