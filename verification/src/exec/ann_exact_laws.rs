//! A dense search is as exact as what answers it: with answers that miss
//! nothing, by whatever way it goes, it ends with the best of all the rows
//! that it wants.

use crate::exec::ann;
use crate::exec::ann::{AnnAction, AnnEvent, AnnPath, IndexSearch, RunV, StageV};
use crate::exec::ann_laws;
use crate::exec::mask;
use crate::exec::topk;
use crate::exec::topk::{ByRank, HitV, Scored};
use crate::exec::topk_laws;
use crate::ordering;
use vstd::prelude::*;

verus! {

/// The hits of some that are on certain rows.
pub open spec fn on(all: Seq<HitV>, rows: spec_fn(u64) -> bool) -> Seq<HitV> {
    all.filter(|h: HitV| rows(h.row_id))
}

/// The rows of some hits.
pub open spec fn rows_of(hits: Seq<HitV>) -> Seq<u64> {
    Seq::new(hits.len(), |i: int| hits[i].row_id)
}

/// Whether durable hits are scored rows: with keys, each row once.
pub open spec fn are_rows(all: Seq<HitV>) -> bool {
    &&& ordering::all_in(all, topk::keyed())
    &&& forall|i: int, j: int|
        0 <= i < j < all.len() ==> (#[trigger] all[i]).row_id != (#[trigger] all[j]).row_id
}

/// The rows that a run wants.
pub open spec fn wanted(f: RunV) -> spec_fn(u64) -> bool {
    |row: u64| ann_laws::wants(f, row)
}

/// The rows that a run wants and the hot artifact covers.
pub open spec fn wanted_hot(f: RunV) -> spec_fn(u64) -> bool {
    |row: u64| ann_laws::wants(f, row) && f.covered.contains(row)
}

/// The rows that a run wants and the hot artifact does not cover.
pub open spec fn wanted_cold(f: RunV) -> spec_fn(u64) -> bool {
    |row: u64| ann_laws::wants(f, row) && !f.covered.contains(row)
}

/// The rows that a mask admits and the tail does not shadow.
pub open spec fn seen(f: RunV, m: mask::RowMask) -> spec_fn(u64) -> bool {
    |row: u64| mask::admitted(m, row) && !f.shadow.contains(row)
}

/// Whether an event answers an action in full, of all durable hits `all`: a
/// scan and an index search with the best rows that the mask admits, the hot
/// artifact with the wanted ones of its best rows, a taking with all its
/// rows.
pub open spec fn answers_in_full(
    f: RunV,
    all: Seq<HitV>,
    action: AnnAction,
    event: AnnEvent,
) -> bool {
    match (action, event) {
        (AnnAction::Scan { mask }, AnnEvent::Scanned(hits)) => topk::hit_views(hits@)
            == topk::best_views(on(all, seen(f, mask)), f.k),
        (AnnAction::Hot { k2 }, AnnEvent::Hot { returned, live }) => {
            let found = topk::best_views(on(all, |row: u64| f.covered.contains(row)), k2 as nat);
            returned == found.len() && live@ == rows_of(on(found, wanted(f)))
        },
        (AnnAction::Hot { .. }, AnnEvent::HotFailed) => true,
        (AnnAction::Take { rows }, AnnEvent::Taken(hits)) => topk::hit_views(
            hits@,
        ).to_multiset() == on(all, |row: u64| rows@.contains(row)).to_multiset(),
        (AnnAction::Nearest { k, mask, .. }, AnnEvent::Nearest { hits, returned }) => {
            &&& topk::hit_views(hits@) == topk::best_views(on(all, seen(f, mask)), k as nat)
            &&& returned == hits@.len()
        },
        _ => false,
    }
}

/// Whether the best of some hits are the best of all on certain rows.
pub open spec fn are_best_on(
    hits: Seq<HitV>,
    all: Seq<HitV>,
    rows: spec_fn(u64) -> bool,
    k: nat,
) -> bool {
    &&& ordering::all_in(hits, topk::keyed())
    &&& topk::best_views(hits, k) == topk::best_views(on(all, rows), k)
}

/// What holds of every stage of a run that is answered in full.
pub open spec fn is_exact(f: RunV, all: Seq<HitV>, stage: StageV) -> bool {
    match stage {
        StageV::Take { live } => are_best_on(
            on(all, |row: u64| live.contains(row)),
            all,
            wanted_hot(f),
            f.k,
        ),
        StageV::Index { search, hot } => {
            &&& search is Blocking == f.allowed is None
            &&& hot matches Some(h) ==> are_best_on(topk::hit_views(h), all, wanted_hot(f), f.k)
        },
        StageV::Done { hits, .. } => are_best_on(topk::hit_views(hits), all, wanted(f), f.k),
        _ => true,
    }
}

proof fn counts_filter(s: Seq<HitV>, p: spec_fn(HitV) -> bool, x: HitV)
    ensures
        s.filter(p).to_multiset().count(x) == (if p(x) {
            s.to_multiset().count(x)
        } else {
            0
        }),
    decreases s.len(),
{
    broadcast use vstd::seq_lib::group_to_multiset_ensures;

    reveal(Seq::filter);
    if s.len() > 0 {
        let t = s.drop_last();
        counts_filter(t, p, x);
        assert(t.push(s.last()) =~= s);
    }
}

proof fn on_counts(s: Seq<HitV>, rows: spec_fn(u64) -> bool, x: HitV)
    ensures
        on(s, rows).to_multiset().count(x) == (if rows(x.row_id) {
            s.to_multiset().count(x)
        } else {
            0
        }),
{
    counts_filter(s, |h: HitV| rows(h.row_id), x);
}

proof fn same_filters(s: Seq<HitV>, p: spec_fn(HitV) -> bool, q: spec_fn(HitV) -> bool)
    requires
        forall|i: int| 0 <= i < s.len() ==> p(#[trigger] s[i]) == q(s[i]),
    ensures
        s.filter(p) == s.filter(q),
    decreases s.len(),
{
    reveal(Seq::filter);
    if s.len() > 0 {
        let t = s.drop_last();
        assert forall|i: int| 0 <= i < t.len() implies p(#[trigger] t[i]) == q(t[i]) by {
            assert(t[i] == s[i]);
        }
        same_filters(t, p, q);
        assert(p(s[s.len() - 1]) == q(s[s.len() - 1]));
    }
}

proof fn same_rows(s: Seq<HitV>, a: spec_fn(u64) -> bool, b: spec_fn(u64) -> bool)
    requires
        forall|row: u64| #[trigger] a(row) == b(row),
    ensures
        on(s, a) == on(s, b),
{
    same_filters(s, |h: HitV| a(h.row_id), |h: HitV| b(h.row_id));
}

proof fn filters_are_keyed(s: Seq<HitV>, p: spec_fn(HitV) -> bool)
    requires
        ordering::all_in(s, topk::keyed()),
    ensures
        ordering::all_in(s.filter(p), topk::keyed()),
    decreases s.len(),
{
    reveal(Seq::filter);
    if s.len() > 0 {
        let t = s.drop_last();
        assert forall|i: int| 0 <= i < t.len() implies topk::keyed()(#[trigger] t[i]) by {
            assert(t[i] == s[i]);
        }
        filters_are_keyed(t, p);
        assert(topk::keyed()(s[s.len() - 1]));
    }
}

proof fn filters_are_ordered(s: Seq<HitV>, p: spec_fn(HitV) -> bool)
    requires
        ordering::is_ordered(ByRank, s),
    ensures
        ordering::is_ordered(ByRank, s.filter(p)),
        forall|i: int| 0 <= i < s.filter(p).len() ==> s.contains(#[trigger] s.filter(p)[i]),
    decreases s.len(),
{
    reveal(Seq::filter);
    if s.len() > 0 {
        let t = s.drop_last();
        assert forall|i: int, j: int| 0 <= i <= j < t.len() implies ordering::Ranking::le(
            &ByRank,
            #[trigger] t[i],
            #[trigger] t[j],
        ) by {
            assert(t[i] == s[i] && t[j] == s[j]);
        }
        filters_are_ordered(t, p);
        let u = t.filter(p);
        let r = s.filter(p);
        assert forall|i: int| 0 <= i < r.len() implies s.contains(#[trigger] r[i]) by {
            if i < u.len() {
                assert(t.contains(u[i]));
                let j = choose|j: int| 0 <= j < t.len() && t[j] == u[i];
                assert(s[j] == u[i]);
            } else {
                assert(s[s.len() - 1] == r[i]);
            }
        }
        assert forall|i: int, j: int| 0 <= i <= j < r.len() implies ordering::Ranking::le(
            &ByRank,
            #[trigger] r[i],
            #[trigger] r[j],
        ) by {
            if j < u.len() {
                assert(r[i] == u[i] && r[j] == u[j]);
            } else {
                assert(r[j] == s[s.len() - 1]);
                if i < u.len() {
                    assert(t.contains(u[i]));
                    let n = choose|n: int| 0 <= n < t.len() && t[n] == u[i];
                    assert(s[n] == u[i]);
                    assert(ordering::Ranking::le(&ByRank, s[n], s[s.len() - 1]));
                } else {
                    assert(ordering::Ranking::le(&ByRank, s[s.len() - 1], s[s.len() - 1]));
                }
            }
        }
    }
}

proof fn sorted_hits(s: Seq<HitV>)
    requires
        ordering::all_in(s, topk::keyed()),
    ensures
        ordering::is_ordered(ByRank, ordering::sorted(ByRank, s)),
        ordering::all_in(ordering::sorted(ByRank, s), topk::keyed()),
        ordering::sorted(ByRank, s).to_multiset() == s.to_multiset(),
        ordering::sorted(ByRank, s).len() == s.len(),
{
    topk::views_are_linear();
    ordering::sorted_permutes(ByRank, s);
    ordering::sorted_all(ByRank, s, topk::keyed());
    ordering::sorted_ordered(ByRank, s, topk::keyed());
}

/// The best of the hits that pass are the first of the sorted ones that
/// pass.
proof fn best_of_passing(s: Seq<HitV>, p: spec_fn(HitV) -> bool, k: nat)
    requires
        ordering::all_in(s, topk::keyed()),
    ensures
        topk::best_views(s.filter(p), k) == ordering::kept(
            ordering::sorted(ByRank, s).filter(p),
            k,
        ),
{
    let all = ordering::sorted(ByRank, s);
    sorted_hits(s);
    filters_are_keyed(s, p);
    filters_are_keyed(all, p);
    filters_are_ordered(all, p);
    assert forall|x: HitV| #[trigger]
        s.filter(p).to_multiset().count(x) == all.filter(p).to_multiset().count(x) by {
        counts_filter(s, p, x);
        counts_filter(all, p, x);
    }
    assert(s.filter(p).to_multiset() =~= all.filter(p).to_multiset());
    topk_laws::the_best_are_of_the_hits(s.filter(p), all.filter(p), k);
    ordering::sorted_of_ordered(ByRank, all.filter(p));
}

/// What passes of the best `n` has the best `k` of all that pass, where it is
/// as many, or where fewer than `n` were found.
proof fn passing_of_the_best(s: Seq<HitV>, p: spec_fn(HitV) -> bool, n: nat, k: nat)
    requires
        ordering::all_in(s, topk::keyed()),
        topk::best_views(s, n).filter(p).len() >= k || topk::best_views(s, n).len() < n,
    ensures
        topk::best_views(topk::best_views(s, n).filter(p), k) == topk::best_views(s.filter(p), k),
        ordering::all_in(topk::best_views(s, n).filter(p), topk::keyed()),
{
    let all = ordering::sorted(ByRank, s);
    let c = topk::best_views(s, n);
    sorted_hits(s);
    ordering::kept_ordered(ByRank, all, n);
    filters_are_ordered(c, p);
    assert forall|i: int| 0 <= i < c.len() implies topk::keyed()(#[trigger] c[i]) by {
        assert(c[i] == all[i]);
    }
    filters_are_keyed(c, p);
    ordering::sorted_of_ordered(ByRank, c.filter(p));
    best_of_passing(s, p, k);
    let rest = all.skip(c.len() as int);
    assert(all =~= c + rest);
    Seq::filter_distributes_over_add(c, rest, p);
    if c.len() < n {
        assert(rest =~= Seq::empty());
        assert(c =~= all);
    }
    assert(ordering::kept(c.filter(p), k) =~= ordering::kept(all.filter(p), k));
}

/// Cutting hits to the best `k` before others are added changes nothing of
/// the best `k`.
proof fn cutting_first(a: Seq<HitV>, b: Seq<HitV>, k: nat)
    requires
        ordering::all_in(a, topk::keyed()),
        ordering::all_in(b, topk::keyed()),
    ensures
        topk::best_views(topk::best_views(a, k) + b, k) == topk::best_views(a + b, k),
        ordering::all_in(topk::best_views(a, k), topk::keyed()),
    decreases b.len(),
{
    topk::views_are_linear();
    sorted_hits(a);
    let c = topk::best_views(a, k);
    let all = ordering::sorted(ByRank, a);
    assert forall|i: int| 0 <= i < c.len() implies topk::keyed()(#[trigger] c[i]) by {
        assert(c[i] == all[i]);
    }
    if b.len() == 0 {
        assert(c + b =~= c && a + b =~= a);
        ordering::kept_ordered(ByRank, all, k);
        ordering::sorted_of_ordered(ByRank, c);
        assert(ordering::kept(c, k) =~= c);
    } else {
        let t = b.drop_last();
        let x = b.last();
        assert forall|i: int| 0 <= i < t.len() implies topk::keyed()(#[trigger] t[i]) by {
            assert(t[i] == b[i]);
        }
        assert(topk::keyed()(b[b.len() - 1]));
        cutting_first(a, t, k);
        assert((a + b).drop_last() =~= a + t);
        assert((c + b).drop_last() =~= c + t);
        assert((a + b).last() == x && (c + b).last() == x);
        assert(ordering::all_in(a + t, topk::keyed()));
        assert(ordering::all_in(c + t, topk::keyed()));
        sorted_hits(a + t);
        sorted_hits(c + t);
        ordering::kept_inserted(ByRank, ordering::sorted(ByRank, a + t), x, k, topk::keyed());
        ordering::kept_inserted(ByRank, ordering::sorted(ByRank, c + t), x, k, topk::keyed());
    }
}

/// The best of two lists are the best of what has their best.
proof fn best_of_both(a: Seq<HitV>, b: Seq<HitV>, x: Seq<HitV>, y: Seq<HitV>, k: nat)
    requires
        ordering::all_in(a, topk::keyed()),
        ordering::all_in(b, topk::keyed()),
        ordering::all_in(x, topk::keyed()),
        ordering::all_in(y, topk::keyed()),
        topk::best_views(a, k) == topk::best_views(x, k),
        topk::best_views(b, k) == topk::best_views(y, k),
    ensures
        topk::best_views(a + b, k) == topk::best_views(x + y, k),
{
    let p = topk::best_views(a, k);
    let q = topk::best_views(b, k);
    cutting_first(a, b, k);
    cutting_first(b, p, k);
    turned(p, b, k);
    turned(q, p, k);
    cutting_first(x, y, k);
    cutting_first(y, p, k);
    turned(p, y, k);
}

proof fn turned(a: Seq<HitV>, b: Seq<HitV>, k: nat)
    requires
        ordering::all_in(a, topk::keyed()),
        ordering::all_in(b, topk::keyed()),
    ensures
        topk::best_views(a + b, k) == topk::best_views(b + a, k),
{
    vstd::seq_lib::lemma_multiset_commutative(a, b);
    vstd::seq_lib::lemma_multiset_commutative(b, a);
    assert((a + b).to_multiset() =~= (b + a).to_multiset());
    assert(ordering::all_in(a + b, topk::keyed()));
    assert(ordering::all_in(b + a, topk::keyed()));
    topk_laws::the_best_are_of_the_hits(a + b, b + a, k);
}

proof fn best_again(s: Seq<HitV>, n: nat, k: nat)
    requires
        ordering::all_in(s, topk::keyed()),
        k <= n,
    ensures
        topk::best_views(topk::best_views(s, n), k) == topk::best_views(s, k),
        ordering::all_in(topk::best_views(s, n), topk::keyed()),
{
    let all = ordering::sorted(ByRank, s);
    let c = topk::best_views(s, n);
    sorted_hits(s);
    ordering::kept_ordered(ByRank, all, n);
    assert forall|i: int| 0 <= i < c.len() implies topk::keyed()(#[trigger] c[i]) by {
        assert(c[i] == all[i]);
    }
    ordering::sorted_of_ordered(ByRank, c);
    assert(ordering::kept(c, k) =~= ordering::kept(all, k));
}

proof fn hot_and_cold(f: RunV, all: Seq<HitV>, k: nat)
    requires
        ordering::all_in(all, topk::keyed()),
    ensures
        topk::best_views(on(all, wanted_hot(f)) + on(all, wanted_cold(f)), k)
            == topk::best_views(on(all, wanted(f)), k),
{
    let a = on(all, wanted_hot(f));
    let b = on(all, wanted_cold(f));
    let c = on(all, wanted(f));
    filters_are_keyed(all, |h: HitV| wanted_hot(f)(h.row_id));
    filters_are_keyed(all, |h: HitV| wanted_cold(f)(h.row_id));
    filters_are_keyed(all, |h: HitV| wanted(f)(h.row_id));
    vstd::seq_lib::lemma_multiset_commutative(a, b);
    assert forall|x: HitV| #[trigger]
        (a + b).to_multiset().count(x) == c.to_multiset().count(x) by {
        on_counts(all, wanted_hot(f), x);
        on_counts(all, wanted_cold(f), x);
        on_counts(all, wanted(f), x);
    }
    assert((a + b).to_multiset() =~= c.to_multiset());
    assert(ordering::all_in(a + b, topk::keyed()));
    topk_laws::the_best_are_of_the_hits(a + b, c, k);
}

proof fn views_are_keyed(hits: Seq<Scored>)
    ensures
        ordering::all_in(topk::hit_views(hits), topk::keyed()),
{
    let views = topk::hit_views(hits);
    assert forall|i: int| 0 <= i < views.len() implies topk::keyed()(#[trigger] views[i]) by {
        assert(views[i] == hits[i]@);
        keys_are_keys(hits[i]);
    }
}

proof fn keys_are_keys(hit: Scored)
    ensures
        topk::keyed()(hit@),
{
}

proof fn ends_are_exact(
    f: RunV,
    all: Seq<HitV>,
    hot: Option<Seq<Scored>>,
    hits: Seq<Scored>,
    strategy: ann::AnnStrategy,
)
    requires
        are_rows(all),
        hot matches Some(h) ==> are_best_on(topk::hit_views(h), all, wanted_hot(f), f.k),
        are_best_on(
            topk::hit_views(hits),
            all,
            if hot is Some {
                wanted_cold(f)
            } else {
                wanted(f)
            },
            f.k,
        ),
    ensures
        is_exact(f, all, ann::index_end(f, hot, hits, strategy)),
{
    if let Some(h) = hot {
        let a = topk::hit_views(h);
        let b = topk::hit_views(hits);
        assert(topk::hit_views(h + hits) =~= a + b);
        topk::best_views_are(h + hits, f.k);
        filters_are_keyed(all, |x: HitV| wanted_hot(f)(x.row_id));
        filters_are_keyed(all, |x: HitV| wanted_cold(f)(x.row_id));
        best_of_both(a, b, on(all, wanted_hot(f)), on(all, wanted_cold(f)), f.k);
        hot_and_cold(f, all, f.k);
        assert(ordering::all_in(a + b, topk::keyed()));
        best_again(a + b, f.k, f.k);
    }
}

/// The rows that an index search is left with.
spec fn left_rows(f: RunV, hot: bool) -> spec_fn(u64) -> bool {
    if hot {
        wanted_cold(f)
    } else {
        wanted(f)
    }
}

proof fn starts_are_exact(f: RunV, all: Seq<HitV>, hot: Option<Seq<Scored>>)
    requires
        are_rows(all),
        hot matches Some(h) ==> are_best_on(topk::hit_views(h), all, wanted_hot(f), f.k),
    ensures
        is_exact(f, all, ann::index_start(f, hot)),
{
    if f.allowed is Some && ann::searched_rows(f, hot is Some) =~= Set::empty() {
        let none = Seq::<Scored>::empty();
        let rows = left_rows(f, hot is Some);
        let p = |h: HitV| rows(h.row_id);
        assert forall|h: HitV| !#[trigger] p(h) by {
            assert(!ann::searched_rows(f, hot is Some).contains(h.row_id));
        }
        no_hit_passes(all, p);
        assert(topk::hit_views(none) =~= on(all, rows));
        ends_are_exact(f, all, hot, none, ann::AnnStrategy::Prefilter);
    }
}

proof fn no_hit_passes(s: Seq<HitV>, p: spec_fn(HitV) -> bool)
    requires
        forall|h: HitV| !#[trigger] p(h),
    ensures
        s.filter(p) == Seq::<HitV>::empty(),
    decreases s.len(),
{
    reveal(Seq::filter);
    if s.len() > 0 {
        no_hit_passes(s.drop_last(), p);
    }
}

proof fn filters_of_filters(
    s: Seq<HitV>,
    p: spec_fn(HitV) -> bool,
    q: spec_fn(HitV) -> bool,
    r: spec_fn(HitV) -> bool,
)
    requires
        forall|h: HitV| #[trigger] r(h) == (p(h) && q(h)),
    ensures
        s.filter(p).filter(q) == s.filter(r),
    decreases s.len(),
{
    reveal(Seq::filter);
    if s.len() > 0 {
        filters_of_filters(s.drop_last(), p, q, r);
        let u = s.drop_last().filter(p);
        if p(s.last()) {
            assert(u.push(s.last()).drop_last() =~= u);
        }
        assert(r(s.last()) == (p(s.last()) && q(s.last())));
    }
}

proof fn views_of_filters(hits: Seq<Scored>, rows: Set<u64>)
    ensures
        topk::hit_views(ann::on_rows(hits, rows)) == topk::hit_views(hits).filter(
            |h: HitV| rows.contains(h.row_id),
        ),
    decreases hits.len(),
{
    reveal(Seq::filter);
    let p = |h: HitV| rows.contains(h.row_id);
    let q = |h: Scored| rows.contains(h.row_id);
    let views = topk::hit_views(hits);
    if hits.len() > 0 {
        let t = hits.drop_last();
        views_of_filters(t, rows);
        assert(views.drop_last() =~= topk::hit_views(t));
        assert(views.last() == hits.last()@);
        let rest = t.filter(q);
        assert(topk::hit_views(rest.push(hits.last())) =~= topk::hit_views(rest).push(
            hits.last()@,
        ));
    }
    assert(topk::hit_views(hits.filter(q)) =~= views.filter(p));
}

/// Hits that are in `all`, each row once, are all hits on their rows.
proof fn rows_name_their_hits(all: Seq<HitV>, some: Seq<HitV>)
    requires
        are_rows(all),
        some.no_duplicates(),
        forall|i: int| 0 <= i < some.len() ==> all.contains(#[trigger] some[i]),
    ensures
        on(all, |row: u64| rows_of(some).contains(row)).to_multiset() == some.to_multiset(),
{
    broadcast use vstd::seq_lib::group_to_multiset_ensures;

    let rows = |row: u64| rows_of(some).contains(row);
    let found = on(all, rows);
    assert(all.no_duplicates());
    all.lemma_multiset_has_no_duplicates();
    some.lemma_multiset_has_no_duplicates();
    assert forall|x: HitV| #[trigger]
        found.to_multiset().count(x) == some.to_multiset().count(x) by {
        on_counts(all, rows, x);
        if some.contains(x) {
            let i = choose|i: int| 0 <= i < some.len() && some[i] == x;
            assert(all.contains(some[i]));
            assert(rows_of(some)[i] == x.row_id);
            assert(some.to_multiset().contains(x));
            assert(all.to_multiset().contains(x));
            assert(some.to_multiset().count(x) == 1);
            assert(all.to_multiset().count(x) == 1);
        } else {
            assert(some.to_multiset().count(x) == 0);
            if rows(x.row_id) && all.contains(x) {
                let i = choose|i: int| 0 <= i < rows_of(some).len() && rows_of(some)[i] == x.row_id;
                assert(all.contains(some[i]));
                let m = choose|m: int| 0 <= m < all.len() && all[m] == some[i];
                let n = choose|n: int| 0 <= n < all.len() && all[n] == x;
                if m < n {
                    assert(all[m].row_id != all[n].row_id);
                } else if n < m {
                    assert(all[n].row_id != all[m].row_id);
                }
            }
            if !all.contains(x) {
                assert(!all.to_multiset().contains(x));
            }
        }
    }
    assert(found.to_multiset() =~= some.to_multiset());
}

proof fn parts_are_in_all(all: Seq<HitV>, p: spec_fn(HitV) -> bool, q: spec_fn(HitV) -> bool, n: nat)
    requires
        are_rows(all),
    ensures
        topk::best_views(all.filter(p), n).filter(q).no_duplicates(),
        forall|i: int|
            0 <= i < topk::best_views(all.filter(p), n).filter(q).len() ==> all.contains(
                #[trigger] topk::best_views(all.filter(p), n).filter(q)[i],
            ),
{
    broadcast use vstd::seq_lib::group_to_multiset_ensures;

    let v = all.filter(p);
    let s = ordering::sorted(ByRank, v);
    let c = topk::best_views(v, n);
    let some = c.filter(q);
    filters_are_keyed(all, p);
    sorted_hits(v);
    let rest = s.skip(c.len() as int);
    assert(s =~= c + rest);
    vstd::seq_lib::lemma_multiset_commutative(c, rest);
    assert(all.no_duplicates());
    all.lemma_multiset_has_no_duplicates();
    assert forall|x: HitV| #[trigger]
        some.to_multiset().count(x) <= all.to_multiset().count(x) by {
        counts_filter(all, p, x);
        counts_filter(c, q, x);
        assert(c.to_multiset().count(x) <= s.to_multiset().count(x));
    }
    assert forall|x: HitV| some.to_multiset().contains(x) implies #[trigger]
        some.to_multiset().count(x) == 1 by {
        assert(all.to_multiset().contains(x));
    }
    some.lemma_multiset_has_no_duplicates_conv();
    assert forall|i: int| 0 <= i < some.len() implies all.contains(#[trigger] some[i]) by {
        assert(some.contains(some[i]));
        assert(some.to_multiset().contains(some[i]));
        assert(all.to_multiset().contains(some[i]));
    }
}

/// An answer in full to what a run asks for keeps what holds of every stage
/// of such a run.
pub proof fn full_answers_are_exact(
    f: RunV,
    all: Seq<HitV>,
    stage: StageV,
    action: AnnAction,
    event: AnnEvent,
)
    requires
        are_rows(all),
        ann_laws::is_unshadowed(f),
        ann_laws::is_kept(f, stage),
        is_exact(f, all, stage),
        ann::asks(f, stage, action),
        answers_in_full(f, all, action, event),
    ensures
        is_exact(f, all, ann::next_stage(f, stage, event)),
{
    ann_laws::actions_ask_for_wanted(f, stage, action);
    match (stage, event) {
        (StageV::Scan(_), AnnEvent::Scanned(hits)) => {
            let m = action->Scan_mask;
            let v = on(all, seen(f, m));
            filters_are_keyed(all, |h: HitV| seen(f, m)(h.row_id));
            best_again(v, f.k, f.k);
            assert forall|row: u64| #[trigger] seen(f, m)(row) == wanted(f)(row) by {
                assert(mask::admitted(m, row) == ann_laws::wants(f, row));
            }
            same_rows(all, seen(f, m), wanted(f));
        },
        (StageV::Hot { k2, retries }, AnnEvent::HotFailed) => {
            starts_are_exact(f, all, None);
        },
        (StageV::Hot { k2, retries }, AnnEvent::Hot { returned, live }) => {
            starts_are_exact(f, all, None);
            if live@.len() >= f.k || returned < k2 {
                let covered = |row: u64| f.covered.contains(row);
                let p = |h: HitV| covered(h.row_id);
                let q = |h: HitV| wanted(f)(h.row_id);
                let r = |h: HitV| wanted_hot(f)(h.row_id);
                let v = on(all, covered);
                let found = topk::best_views(v, k2 as nat);
                let some = found.filter(q);
                filters_are_keyed(all, p);
                passing_of_the_best(v, q, k2 as nat, f.k);
                filters_of_filters(all, p, q, r);
                parts_are_in_all(all, p, q, k2 as nat);
                rows_name_their_hits(all, some);
                let taken = on(all, |row: u64| live@.contains(row));
                same_rows(
                    all,
                    |row: u64| live@.contains(row),
                    |row: u64| rows_of(some).contains(row),
                );
                filters_are_keyed(all, |h: HitV| live@.contains(h.row_id));
                same_filters(
                    all,
                    |h: HitV| live@.contains(h.row_id),
                    |h: HitV| (|row: u64| live@.contains(row))(h.row_id),
                );
                topk_laws::the_best_are_of_the_hits(taken, some, f.k);
            }
        },
        (StageV::Take { live }, AnnEvent::Taken(hits)) => {
            let rows = action->rows@;
            let views = topk::hit_views(hits@);
            let taken = on(all, |row: u64| rows.contains(row));
            views_are_keyed(hits@);
            filters_are_keyed(all, |h: HitV| (|row: u64| rows.contains(row))(h.row_id));
            topk_laws::the_best_are_of_the_hits(views, taken, f.k);
            same_rows(all, |row: u64| rows.contains(row), |row: u64| live.contains(row));
            starts_are_exact(f, all, Some(hits@));
        },
        (StageV::Index { search, hot }, AnnEvent::Nearest { hits, returned }) => {
            let m = action->Nearest_mask;
            let k = action->Nearest_k as nat;
            let v = on(all, seen(f, m));
            let rows = left_rows(f, hot is Some);
            let views = topk::hit_views(hits@);
            filters_are_keyed(all, |h: HitV| seen(f, m)(h.row_id));
            match search {
                IndexSearch::Post { k1, retries } => {
                    let set = ann::searched_rows(f, hot is Some);
                    let keep = ann::on_rows(hits@, set);
                    let q = |h: HitV| set.contains(h.row_id);
                    let r = |h: HitV| rows(h.row_id);
                    views_of_filters(hits@, set);
                    if keep.len() >= f.k || returned < k1 {
                        assert(topk::hit_views(keep).len() == keep.len());
                        passing_of_the_best(v, q, k, f.k);
                        assert forall|h: HitV| #[trigger] r(h) == (seen(f, m)(h.row_id) && q(
                            h,
                        )) by {
                            if r(h) {
                                assert(mask::admitted(m, h.row_id));
                            }
                        }
                        filters_of_filters(all, |h: HitV| seen(f, m)(h.row_id), q, r);
                        ends_are_exact(f, all, hot, keep, ann::AnnStrategy::Postfilter);
                    }
                },
                _ => {
                    assert forall|row: u64| #[trigger] seen(f, m)(row) == rows(row) by {
                        if rows(row) {
                            assert(mask::admitted(m, row));
                        }
                        if mask::admitted(m, row) {
                            assert(ann_laws::is_left(f, stage, row));
                        }
                    }
                    same_rows(all, seen(f, m), rows);
                    best_again(v, f.k, f.k);
                    ends_are_exact(f, all, hot, hits@, ann::AnnStrategy::Prefilter);
                    ends_are_exact(f, all, hot, hits@, ann::AnnStrategy::Postfilter);
                },
            }
        },
        _ => {},
    }
}

/// Whether each event answers in full what the run asked for before it.
pub open spec fn is_answered_in_full(
    f: RunV,
    all: Seq<HitV>,
    path: AnnPath,
    has_hot: bool,
    actions: Seq<AnnAction>,
    events: Seq<AnnEvent>,
) -> bool {
    &&& ann_laws::is_answered(f, path, has_hot, actions, events)
    &&& forall|i: int|
        0 <= i < events.len() ==> answers_in_full(f, all, #[trigger] actions[i], events[i])
}

/// A run that is answered in full ends with the best `k` of all durable rows
/// that it wants, whether it scans, takes from the hot artifact, or searches
/// the index before or after its filter.
pub proof fn full_answers_give_the_best(
    f: RunV,
    all: Seq<HitV>,
    path: AnnPath,
    has_hot: bool,
    actions: Seq<AnnAction>,
    events: Seq<AnnEvent>,
)
    requires
        are_rows(all),
        ann_laws::is_unshadowed(f),
        path is Nothing ==> f.k == 0,
        is_answered_in_full(f, all, path, has_hot, actions, events),
    ensures
        is_exact(f, all, ann_laws::stage_after(f, path, has_hot, events)),
        ann_laws::stage_after(f, path, has_hot, events) matches StageV::Done { hits, .. }
            ==> topk::best_views(topk::hit_views(hits), f.k) == topk::best_views(
            on(all, wanted(f)),
            f.k,
        ),
    decreases events.len(),
{
    if events.len() == 0 {
        starts_are_exact(f, all, None);
        if path is Nothing {
            assert(topk::hit_views(Seq::<Scored>::empty()) =~= Seq::empty());
            assert(topk::best_views(Seq::<HitV>::empty(), 0) =~= Seq::empty());
            assert(topk::best_views(on(all, wanted(f)), 0) =~= Seq::empty());
        }
    } else {
        let n = events.len() - 1;
        let before = events.drop_last();
        let asked = actions.drop_last();
        assert(before =~= events.take(n));
        assert forall|i: int| 0 <= i < before.len() implies ann::asks(
            f,
            ann_laws::stage_after(f, path, has_hot, before.take(i)),
            #[trigger] asked[i],
        ) && ann_laws::answers(f, asked[i], before[i]) && answers_in_full(
            f,
            all,
            asked[i],
            before[i],
        ) by {
            assert(before.take(i) =~= events.take(i));
            assert(asked[i] == actions[i]);
        }
        full_answers_give_the_best(f, all, path, has_hot, asked, before);
        ann_laws::finished_hits_are_wanted(f, path, has_hot, asked, before);
        assert(ann::asks(f, ann_laws::stage_after(f, path, has_hot, events.take(n)), actions[n]));
        full_answers_are_exact(
            f,
            all,
            ann_laws::stage_after(f, path, has_hot, before),
            actions[n],
            events[n],
        );
    }
}

} // verus!
