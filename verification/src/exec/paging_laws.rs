//! The pages of a search: which matches stand on them, and in what order.

use crate::bytes;
use crate::exec::order;
use crate::exec::order::{EffectiveSort, RankMode};
use crate::exec::order_laws;
use crate::exec::planner;
use crate::exec::planner::{Event, StageV};
use crate::exec::planner_laws;
use crate::exec::schema;
use crate::exec::schema::{Ranked, RankedV};
use crate::exec::tantivy_search;
use crate::float;
use crate::ir::{MissingOrder, SearchRequest, SortKeyV, SortOrder, TotalRelation, TrackTotalHits};
use crate::key;
use crate::ordering;
use crate::ordering::Ranking;
use crate::values::SortV;
use vstd::prelude::*;
use vstd::utf8::*;

verus! {

/// A page holds the candidates from an offset on, one after the other, until
/// the limit is reached or none is left.
pub proof fn pages_hold_what_follows(s: Seq<RankedV>, offset: nat, limit: nat)
    ensures
        ({
            let page = planner::page(s, offset, limit);
            &&& page.len() <= limit
            &&& page.len() < limit ==> offset + page.len() >= s.len()
            &&& page.len() > 0 ==> offset + page.len() <= s.len()
            &&& forall|i: int| 0 <= i < page.len() ==> #[trigger] page[i] == s[offset + i]
        }),
{
}

/// Whether a search by fields got its matches: for a window its first
/// matches, as many as the window or all of them.
pub open spec fn got_matches(
    request: SearchRequest,
    sort: EffectiveSort,
    max_window: nat,
    events: Seq<Event>,
    all: Seq<RankedV>,
) -> bool {
    forall|i: int|
        0 <= i < events.len() ==> (#[trigger] events[i] matches Event::Hits(hits) ==> (
        planner_laws::stage_after(request, sort, max_window, events.take(i)) matches StageV::Window {
            window,
        } ==> {
            &&& hits@.len() <= window
            &&& hits@.len() <= all.len()
            &&& hits@.len() < window ==> hits@.len() == all.len()
            &&& forall|j: int| 0 <= j < hits@.len() ==> (#[trigger] hits@[j])@ == all[j]
        }))
}

/// Whether some candidates are the first matches, at least `n` of them or
/// all.
pub open spec fn are_first(candidates: Seq<RankedV>, all: Seq<RankedV>, n: nat) -> bool {
    &&& candidates.len() <= all.len()
    &&& candidates.len() < n ==> candidates.len() == all.len()
    &&& forall|j: int| 0 <= j < candidates.len() ==> #[trigger] candidates[j] == all[j]
}

/// How many matches a search by fields has to look at: its page, and for
/// groups as many as would fill them, within the largest window.
pub open spec fn needed(request: SearchRequest, max_window: nat, n: nat) -> bool {
    &&& n >= request.offset + request.limit
    &&& request.group_by matches Some(g) ==> n >= g.limit * g.group_size || n >= max_window
}

/// What holds of every stage of a search by fields.
spec fn is_enough(
    request: SearchRequest,
    max_window: nat,
    stage: StageV,
    all: Seq<RankedV>,
    full: bool,
) -> bool {
    match stage {
        StageV::Window { window } => needed(request, max_window, window as nat),
        StageV::Grouping { window, hits } => needed(request, max_window, window as nat)
            && request.group_by is Some && hits.len() <= window && are_first(
            hits,
            all,
            window as nat,
        ),
        StageV::Ready { candidates, grouped, .. } => {
            &&& are_first(candidates, all, (request.offset + request.limit) as nat)
            &&& request.group_by is Some ==> {
                ||| candidates.len() == all.len()
                ||| candidates.len() >= max_window
                ||| full
            }
            &&& grouped == (request.group_by is Some)
        },
        StageV::Ranking => false,
    }
}

/// Whether the last event told that the groups are full.
pub open spec fn are_full(events: Seq<Event>) -> bool {
    exists|i: int|
        0 <= i < events.len() && (#[trigger] events[i] matches Event::Grouped { full } && full)
}

proof fn windows_are_enough(
    request: SearchRequest,
    sort: EffectiveSort,
    max_window: nat,
    events: Seq<Event>,
    all: Seq<RankedV>,
)
    requires
        request.offset + request.limit <= usize::MAX,
        max_window <= usize::MAX,
        sort.mode == RankMode::Field,
        got_matches(request, sort, max_window, events, all),
    ensures
        is_enough(
            request,
            max_window,
            planner_laws::stage_after(request, sort, max_window, events),
            all,
            are_full(events),
        ),
    decreases events.len(),
{
    if events.len() > 0 {
        let n = events.len() - 1;
        let before = events.drop_last();
        assert(before =~= events.take(n));
        assert forall|i: int| 0 <= i < before.len() implies (#[trigger] before[i] matches Event::Hits(
            hits,
        ) ==> (planner_laws::stage_after(
            request,
            sort,
            max_window,
            before.take(i),
        ) matches StageV::Window { window } ==> {
            &&& hits@.len() <= window
            &&& hits@.len() <= all.len()
            &&& hits@.len() < window ==> hits@.len() == all.len()
            &&& forall|j: int| 0 <= j < hits@.len() ==> (#[trigger] hits@[j])@ == all[j]
        })) by {
            assert(before[i] == events[i]);
            assert(before.take(i) =~= events.take(i));
        }
        windows_are_enough(request, sort, max_window, before, all);
        if are_full(before) {
            let i = choose|i: int|
                0 <= i < before.len() && (#[trigger] before[i] matches Event::Grouped { full }
                    && full);
            assert(events[i] == before[i]);
        }
        let was = planner_laws::stage_after(request, sort, max_window, before);
        assert(events[n] == events.last());
        match (was, events.last()) {
            (StageV::Window { window }, Event::Hits(hits)) => {
                let views = schema::ranked_views(hits@);
                assert(are_first(views, all, window as nat)) by {
                    assert forall|j: int| 0 <= j < views.len() implies #[trigger] views[j]
                        == all[j] by {
                        assert(views[j] == hits@[j]@);
                    }
                }
            },
            _ => {},
        }
    } else {
        if let Some(g) = request.group_by {
            assert(g.limit * g.group_size >= 0) by (nonlinear_arith)
                requires
                    g.limit >= 0,
                    g.group_size >= 0,
            ;
        }
    }
}

/// A search by fields without groups shows the page that was asked for: of
/// all matches in their order, those from the offset on, as many as the
/// limit or as are left.
pub proof fn pages_are_of_all_matches(
    request: SearchRequest,
    sort: EffectiveSort,
    max_window: nat,
    events: Seq<Event>,
    all: Seq<RankedV>,
)
    requires
        request.offset + request.limit <= usize::MAX,
        max_window <= usize::MAX,
        request.group_by is None,
        sort.mode == RankMode::Field,
        got_matches(request, sort, max_window, events, all),
    ensures
        planner_laws::stage_after(request, sort, max_window, events) matches StageV::Ready {
            candidates,
            ..
        } ==> {
            let page = planner::page(candidates, request.offset as nat, request.limit as nat);
            &&& page.len() <= request.limit
            &&& page.len() < request.limit ==> request.offset + page.len() >= all.len()
            &&& page.len() > 0 ==> request.offset + page.len() <= all.len()
            &&& forall|i: int|
                0 <= i < page.len() ==> #[trigger] page[i] == all[request.offset + i]
        },
{
    windows_are_enough(request, sort, max_window, events, all);
    if let StageV::Ready { candidates, .. } = planner_laws::stage_after(
        request,
        sort,
        max_window,
        events,
    ) {
        pages_hold_what_follows(candidates, request.offset as nat, request.limit as nat);
        let page = planner::page(candidates, request.offset as nat, request.limit as nat);
        assert forall|i: int| 0 <= i < page.len() implies #[trigger] page[i] == all[request.offset
            + i] by {
            assert(page[i] == candidates[request.offset + i]);
        }
    }
}

/// A search by fields groups the first of all matches: it stops only when
/// the groups are full, when there are no more matches, or at the largest
/// window.
pub proof fn groups_are_of_enough_matches(
    request: SearchRequest,
    sort: EffectiveSort,
    max_window: nat,
    events: Seq<Event>,
    all: Seq<RankedV>,
)
    requires
        request.offset + request.limit <= usize::MAX,
        max_window <= usize::MAX,
        request.group_by is Some,
        sort.mode == RankMode::Field,
        got_matches(request, sort, max_window, events, all),
    ensures
        planner_laws::stage_after(request, sort, max_window, events) matches StageV::Ready {
            candidates,
            grouped,
            ..
        } ==> {
            &&& grouped
            &&& candidates.len() <= all.len()
            &&& forall|j: int| 0 <= j < candidates.len() ==> #[trigger] candidates[j] == all[j]
            &&& candidates.len() == all.len() || candidates.len() >= max_window || are_full(events)
        },
{
    windows_are_enough(request, sort, max_window, events, all);
}

/// Whether a request shows a hit of a search by score: one that scores at
/// least the threshold, and after the cursor.
pub open spec fn shows(request: SearchRequest, sort: EffectiveSort, hit: RankedV) -> bool {
    &&& request.score_threshold matches Some(least) ==> float::ge32(hit.score, least)
    &&& tantivy_search::comes_after(
        hit,
        sort,
        tantivy_search::after_views(request.search_after),
    )
}

proof fn passed_are_shown(request: SearchRequest, sort: EffectiveSort, hits: Seq<Ranked>)
    ensures
        tantivy_search::hits_after(
            planner::at_threshold(hits, request.score_threshold),
            sort,
            tantivy_search::after_views(request.search_after),
        ) == hits.filter(|h: Ranked| shows(request, sort, h@)),
    decreases hits.len(),
{
    reveal(Seq::filter);
    if hits.len() > 0 {
        passed_are_shown(request, sort, hits.drop_last());
        let passed = planner::at_threshold(hits.drop_last(), request.score_threshold);
        let more = passed.push(hits.last());
        assert(more.drop_last() =~= passed);
        assert(more.last() == hits.last());
    }
}

proof fn views_filter(hits: Seq<Ranked>, p: spec_fn(RankedV) -> bool)
    ensures
        schema::ranked_views(hits.filter(|h: Ranked| p(h@))) == schema::ranked_views(hits).filter(p),
    decreases hits.len(),
{
    reveal(Seq::filter);
    let q = |h: Ranked| p(h@);
    let views = schema::ranked_views(hits);
    if hits.len() > 0 {
        views_filter(hits.drop_last(), p);
        assert(views.drop_last() =~= schema::ranked_views(hits.drop_last()));
        assert(views.last() == hits.last()@);
        let rest = hits.drop_last().filter(q);
        assert(schema::ranked_views(rest.push(hits.last())) =~= schema::ranked_views(rest).push(
            hits.last()@,
        ));
        assert(schema::ranked_views(hits.filter(q)) =~= views.filter(p));
    } else {
        assert(schema::ranked_views(hits.filter(q)) =~= views.filter(p));
    }
}

/// A search by score shows just the hits of its plan that reach the
/// threshold and come after the cursor, each as often as it was found, in
/// the order of its sort keys.
pub proof fn candidates_are_the_hits_that_show(
    request: SearchRequest,
    sort: EffectiveSort,
    max_window: nat,
    hits: Vec<Ranked>,
    floats: spec_fn(nat) -> bool,
)
    requires
        forall|i: int|
            0 <= i < hits@.len() ==> order_laws::fits_columns((#[trigger] hits@[i])@, floats),
    ensures
        planner::next_stage(
            request,
            sort,
            max_window,
            StageV::Ranking,
            Event::Hits(hits),
        ) matches StageV::Ready { candidates, grouped, .. } && {
            &&& candidates.to_multiset() == schema::ranked_views(hits@).filter(
                |h: RankedV| shows(request, sort, h),
            ).to_multiset()
            &&& ordering::is_ordered(sort, candidates)
            &&& !grouped
        },
{
    let p = |h: RankedV| shows(request, sort, h);
    let q = |h: Ranked| p(h@);
    passed_are_shown(request, sort, hits@);
    assert((|h: Ranked| shows(request, sort, h@)) =~= q);
    let shown = hits@.filter(q);
    views_filter(hits@, p);
    let views = schema::ranked_views(shown);
    let view = |h: Ranked| h@;
    assert(shown.map_values(view) =~= views);
    assert(ordering::agree(sort, sort, view));
    ordering::sorted_maps(sort, sort, shown, view);
    let candidates = schema::ranked_views(ordering::sorted(sort, shown));
    assert(ordering::sorted(sort, shown).map_values(view) =~= candidates);
    ordering::sorted_permutes::<RankedV, EffectiveSort>(sort, views);
    order_laws::effective_sorts_are_linear(sort, floats);
    let on = |a: RankedV| order_laws::fits_columns(a, floats);
    assert forall|i: int| 0 <= i < views.len() implies on(#[trigger] views[i]) by {
        broadcast use vstd::seq_lib::group_filter_ensures;

        assert(hits@.filter(q).contains(shown[i]));
        hits@.lemma_filter_contains_rev(q, shown[i]);
        let j = choose|j: int| 0 <= j < hits@.len() && hits@[j] == shown[i];
        assert(order_laws::fits_columns(hits@[j]@, floats));
    }
    ordering::sorted_ordered::<RankedV, EffectiveSort>(sort, views, on);
}

/// A total is exact where it says so, and else less than the number of
/// matches; it is there unless the request wants none, and never more than
/// a request counts up to.
pub proof fn totals_tell_the_count(track: TrackTotalHits, count: u64)
    ensures
        ({
            let total = planner::total_as(track, count);
            &&& total is None <==> track is Never
            &&& total matches Some(t) ==> {
                &&& t.relation == TotalRelation::Eq ==> t.value == count
                &&& t.relation == TotalRelation::Gte ==> t.value < count
                &&& track is Exact ==> t.relation == TotalRelation::Eq
                &&& track matches TrackTotalHits::UpTo(n) ==> t.value <= n && (count <= n
                    ==> t.relation == TotalRelation::Eq) && (count > n ==> t.value == n)
            }
        }),
{
}

/// Whether a value is less than another: `false` than `true`, numbers by
/// their size, texts and UUIDs by their bytes; of different kinds nothing,
/// truth values, numbers, texts and UUIDs come in this order.
pub open spec fn is_less(x: SortV, y: SortV) -> bool {
    match (x, y) {
        (SortV::Bool(a), SortV::Bool(b)) => !a && b,
        (SortV::Str(a), SortV::Str(b)) => bytes::lex(encode_utf8(a), encode_utf8(b)) is Less,
        (SortV::Uuid(a), SortV::Uuid(b)) => bytes::lex(a, b) is Less,
        (SortV::I64(a), SortV::I64(b)) => a < b,
        (SortV::U64(a), SortV::U64(b)) => a < b,
        (SortV::I64(a), SortV::U64(b)) => a < b,
        (SortV::U64(a), SortV::I64(b)) => a < b,
        (SortV::F64(a), SortV::F64(b)) => float::key64(a) < float::key64(b),
        (SortV::F64(a), SortV::I64(b)) => float::key64(a) < float::key64(
            float::int_bits64(b as int) as u64,
        ),
        (SortV::F64(a), SortV::U64(b)) => float::key64(a) < float::key64(
            float::int_bits64(b as int) as u64,
        ),
        (SortV::I64(a), SortV::F64(b)) => float::key64(float::int_bits64(a as int) as u64)
            < float::key64(b),
        (SortV::U64(a), SortV::F64(b)) => float::key64(float::int_bits64(a as int) as u64)
            < float::key64(b),
        (SortV::Null, _) => !(y is Null),
        (SortV::Bool(_), _) => !(y is Null) && !(y is Bool),
        (SortV::Str(_), _) => y is Uuid,
        (SortV::Uuid(_), _) => false,
        _ => y is Str || y is Uuid,
    }
}

/// Whether a sort key puts a candidate before another: by score, key or
/// field, the smaller first or the greater first as it says; a missing
/// value first or last as it says, whichever way the others go.
pub open spec fn puts_before(k: SortKeyV, a: RankedV, b: RankedV, field: nat) -> bool {
    match k {
        SortKeyV::Score { order: SortOrder::Asc } => float::key32(a.score) < float::key32(b.score),
        SortKeyV::Score { order: SortOrder::Desc } => float::key32(b.score) < float::key32(
            a.score,
        ),
        SortKeyV::Pk { order: SortOrder::Asc } => key::key_sign(a.pk, b.pk) is Less,
        SortKeyV::Pk { order: SortOrder::Desc } => key::key_sign(a.pk, b.pk) is Greater,
        SortKeyV::Field { order, missing, .. } => {
            let x = order::sort_at(a.sort, field);
            let y = order::sort_at(b.sort, field);
            if x is Null || y is Null {
                if missing == MissingOrder::First {
                    x is Null && !(y is Null)
                } else {
                    y is Null && !(x is Null)
                }
            } else if order == SortOrder::Asc {
                is_less(x, y)
            } else {
                is_less(y, x)
            }
        },
    }
}

/// How many fields some sort keys read.
pub open spec fn fields_before(keys: Seq<SortKeyV>, i: nat) -> nat
    decreases i,
{
    if i == 0 || i > keys.len() {
        0
    } else {
        fields_before(keys, (i - 1) as nat) + if keys[i - 1] is Field {
            1nat
        } else {
            0
        }
    }
}

proof fn one_key_puts(k: SortKeyV, a: RankedV, b: RankedV, field: nat)
    requires
        order_laws::sound(a),
        order_laws::sound(b),
    ensures
        order::key_sign(k, a, b, true, field) is Less <==> puts_before(k, a, b, field),
        order::key_sign(k, a, b, true, field) is Greater <==> puts_before(k, b, a, field),
{
    key::key_sign_flips(a.pk, b.pk);
    if k is Field {
        let x = order::sort_at(a.sort, field);
        let y = order::sort_at(b.sort, field);
        order_laws::value_order_flips(x, y);
    }
}

proof fn first_key_decides(
    keys: Seq<SortKeyV>,
    a: RankedV,
    b: RankedV,
    i: nat,
    field: nat,
)
    requires
        order_laws::sound(a),
        order_laws::sound(b),
        i < keys.len(),
        forall|j: nat|
            j < i ==> !puts_before(keys[j as int], a, b, field + #[trigger] fields_before(keys, j))
                && !puts_before(keys[j as int], b, a, field + fields_before(keys, j)),
        puts_before(keys[i as int], a, b, field + fields_before(keys, i)),
    ensures
        order::keys_sign(keys, a, b, true, field) is Less,
        order::keys_sign(keys, b, a, true, field) is Greater,
    decreases keys.len(),
{
    one_key_puts(keys[0], a, b, field);
    one_key_puts(keys[0], b, a, field);
    assert(fields_before(keys, 0) == 0);
    if i > 0 {
        let rest = keys.drop_first();
        let next = field + order::field_step(keys[0]);
        assert forall|j: nat| j < keys.len() implies #[trigger] fields_before(rest, j)
            + order::field_step(keys[0]) == fields_before(keys, j + 1) by {
            fields_shift(keys, j);
        }
        assert forall|j: nat| j < i - 1 implies !puts_before(
            rest[j as int],
            a,
            b,
            next + #[trigger] fields_before(rest, j),
        ) && !puts_before(rest[j as int], b, a, next + fields_before(rest, j)) by {
            assert(rest[j as int] == keys[j as int + 1]);
            assert(next + fields_before(rest, j) == field + fields_before(keys, j + 1));
        }
        assert(rest[i - 1] == keys[i as int]);
        assert(next + fields_before(rest, (i - 1) as nat) == field + fields_before(keys, i));
        first_key_decides(rest, a, b, (i - 1) as nat, next);
    }
}

proof fn fields_shift(keys: Seq<SortKeyV>, j: nat)
    requires
        j < keys.len(),
    ensures
        fields_before(keys.drop_first(), j) + order::field_step(keys[0]) == fields_before(
            keys,
            j + 1,
        ),
    decreases j,
{
    if j > 0 {
        fields_shift(keys, (j - 1) as nat);
        assert(keys.drop_first()[j - 1] == keys[j as int]);
    } else {
        assert(fields_before(keys, 0) == 0);
        assert(fields_before(keys.drop_first(), 0) == 0);
    }
}

/// The first sort key that tells two candidates apart decides which stands
/// first: the one that this key puts before the other stands strictly
/// before it in the order of every page.
pub proof fn the_first_difference_decides(sort: EffectiveSort, a: RankedV, b: RankedV, i: nat)
    requires
        order_laws::sound(a),
        order_laws::sound(b),
        i < order::keys_of(sort).len(),
        forall|j: nat|
            j < i ==> !puts_before(
                order::keys_of(sort)[j as int],
                a,
                b,
                #[trigger] fields_before(order::keys_of(sort), j),
            ) && !puts_before(
                order::keys_of(sort)[j as int],
                b,
                a,
                fields_before(order::keys_of(sort), j),
            ),
        puts_before(
            order::keys_of(sort)[i as int],
            a,
            b,
            fields_before(order::keys_of(sort), i),
        ),
    ensures
        sort.le(a, b),
        !sort.le(b, a),
{
    first_key_decides(order::keys_of(sort), a, b, i, 0);
}

/// The order of a request begins with its own sort keys, and ends with the
/// key, ascending where the request does not say. Without sort keys it is by
/// score, the best first, where there are retrievers, and else by key; it
/// ranks by score just where the first of its keys does.
pub proof fn orders_begin_with_what_is_asked(sort: Seq<SortKeyV>, retrievers: nat)
    ensures
        ({
            let mode = order::mode_of(sort, retrievers);
            let keys = order::effective_keys(sort, mode);
            &&& sort.len() > 0 ==> {
                &&& keys.len() >= sort.len()
                &&& forall|i: int| 0 <= i < sort.len() ==> #[trigger] keys[i] == sort[i]
                &&& keys.len() == if sort.last() is Pk {
                    sort.len()
                } else {
                    sort.len() + 1
                }
            }
            &&& keys.len() > sort.len() ==> keys.last() == (SortKeyV::Pk { order: SortOrder::Asc })
            &&& sort.len() == 0 && retrievers > 0 ==> keys.len() == 2 && keys[0] == (
            SortKeyV::Score { order: SortOrder::Desc })
            &&& sort.len() == 0 && retrievers == 0 ==> keys.len() == 1
            &&& (mode == RankMode::Score) == (keys[0] is Score)
        }),
{
}

} // verus!
