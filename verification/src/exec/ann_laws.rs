//! What a dense search may return: under a filter only rows of the filter,
//! and never a shadowed row.

use crate::exec::ann;
use crate::exec::ann::{AnnAction, AnnEvent, AnnPath, IndexSearch, RunV, StageV};
use crate::exec::mask;
use crate::exec::topk;
use crate::exec::topk::{ByRank, Scored};
use crate::ir::{AnnParams, Distance};
use crate::ordering;
use vstd::prelude::*;

verus! {

/// Whether a run wants a durable row: one of the filter's rows, or without a
/// filter one that the tail does not shadow.
pub open spec fn wants(f: RunV, row: u64) -> bool {
    match f.allowed {
        Some(rows) => rows.contains(row),
        None => !f.shadow.contains(row),
    }
}

/// A filter's rows hold no shadowed row.
pub open spec fn is_unshadowed(f: RunV) -> bool {
    f.allowed matches Some(rows) ==> forall|row: u64| #[trigger]
        rows.contains(row) ==> !f.shadow.contains(row)
}

/// Whether some hits are all on wanted rows.
pub open spec fn all_wanted(f: RunV, hits: Seq<Scored>) -> bool {
    forall|i: int| 0 <= i < hits.len() ==> wants(f, (#[trigger] hits[i]).row_id)
}

/// What holds of every stage of a run: what it found is wanted, and the
/// index is searched by what the filter is.
pub open spec fn is_kept(f: RunV, stage: StageV) -> bool {
    match stage {
        StageV::Take { live } => forall|i: int|
            0 <= i < live.len() ==> wants(f, #[trigger] live[i]),
        StageV::Index { search, hot } => {
            &&& search is Blocking == f.allowed is None
            &&& hot matches Some(h) ==> all_wanted(f, h)
        },
        StageV::Done { hits, .. } => all_wanted(f, hits),
        _ => true,
    }
}

/// Whether a row is left to the index: the hot artifact does not cover it,
/// where its hits were taken.
pub open spec fn is_left(f: RunV, stage: StageV, row: u64) -> bool {
    stage matches StageV::Index { hot: Some(_), .. } ==> !f.covered.contains(row)
}

/// Whether an action asks for the rows that a run wants. A scan admits just
/// the wanted rows. An index search admits every wanted row that is left to
/// it; under a filter that is applied first it admits no other, and else no
/// row that is shadowed or not left to it. What is wanted is asked for at
/// least as often as hits are.
pub open spec fn asks_for_wanted(f: RunV, stage: StageV, action: AnnAction) -> bool {
    match action {
        AnnAction::Scan { mask } => forall|row: u64| #[trigger]
            mask::admitted(mask, row) <==> wants(f, row),
        AnnAction::Nearest { k, mask, prefilter } => {
            &&& forall|row: u64|
                wants(f, row) && is_left(f, stage, row) ==> #[trigger] mask::admitted(mask, row)
            &&& forall|row: u64| #[trigger]
                mask::admitted(mask, row) ==> is_left(f, stage, row) && !f.shadow.contains(row)
            &&& prefilter ==> forall|row: u64| #[trigger]
                mask::admitted(mask, row) ==> wants(f, row)
            &&& prefilter ==> f.allowed is Some
            &&& prefilter || f.allowed is None ==> k == f.k
        },
        AnnAction::Take { rows } => forall|i: int|
            0 <= i < rows@.len() ==> wants(f, #[trigger] rows@[i]),
        AnnAction::Hot { .. } => true,
        AnnAction::Finish => stage is Done,
    }
}

/// Whatever stage a run is in, it asks for the rows that it wants: with a
/// filter every row that a scan or a filtered index search admits is a row
/// of the filter, and every row of the filter is admitted.
pub proof fn actions_ask_for_wanted(f: RunV, stage: StageV, action: AnnAction)
    requires
        is_unshadowed(f),
        is_kept(f, stage),
        ann::asks(f, stage, action),
    ensures
        asks_for_wanted(f, stage, action),
{
    match action {
        AnnAction::Scan { mask } => {
            assert forall|row: u64| #[trigger] mask::admitted(mask, row) <==> wants(f, row) by {
            }
        },
        AnnAction::Nearest { k, mask, prefilter } => {
            assert forall|row: u64| wants(f, row) && is_left(f, stage, row) implies #[trigger]
                mask::admitted(mask, row) by {}
            assert forall|row: u64| #[trigger] mask::admitted(mask, row) implies is_left(
                f,
                stage,
                row,
            ) && !f.shadow.contains(row) && (prefilter ==> wants(f, row)) by {}
        },
        _ => {},
    }
}

/// Whether an event is an answer to an action: hits that the mask admits
/// and the tail does not shadow, wanted rows from the hot artifact, scores
/// of the rows taken.
pub open spec fn answers(f: RunV, action: AnnAction, event: AnnEvent) -> bool {
    match (action, event) {
        (AnnAction::Scan { mask }, AnnEvent::Scanned(hits)) => forall|i: int|
            0 <= i < hits@.len() ==> mask::admitted(mask, (#[trigger] hits@[i]).row_id)
                && !f.shadow.contains(hits@[i].row_id),
        (AnnAction::Hot { .. }, AnnEvent::Hot { live, .. }) => forall|i: int|
            0 <= i < live@.len() ==> wants(f, #[trigger] live@[i]),
        (AnnAction::Hot { .. }, AnnEvent::HotFailed) => true,
        (AnnAction::Take { rows }, AnnEvent::Taken(hits)) => forall|i: int|
            0 <= i < hits@.len() ==> rows@.contains((#[trigger] hits@[i]).row_id),
        (AnnAction::Nearest { mask, .. }, AnnEvent::Nearest { hits, .. }) => forall|i: int|
            0 <= i < hits@.len() ==> mask::admitted(mask, (#[trigger] hits@[i]).row_id)
                && !f.shadow.contains(hits@[i].row_id),
        _ => false,
    }
}

proof fn best_are_wanted(f: RunV, hits: Seq<Scored>, k: nat)
    requires
        all_wanted(f, hits),
    ensures
        all_wanted(f, topk::best_of(hits, k)),
{
    let on = |h: Scored| wants(f, h.row_id);
    assert(ordering::all_in(hits, on));
    ordering::sorted_all(ByRank, hits, on);
    let best = topk::best_of(hits, k);
    assert forall|i: int| 0 <= i < best.len() implies wants(f, (#[trigger] best[i]).row_id) by {
        assert(on(ordering::sorted(ByRank, hits)[i]));
    }
}

proof fn ends_are_kept(
    f: RunV,
    hot: Option<Seq<Scored>>,
    hits: Seq<Scored>,
    strategy: ann::AnnStrategy,
)
    requires
        all_wanted(f, hits),
        hot matches Some(h) ==> all_wanted(f, h),
    ensures
        is_kept(f, ann::index_end(f, hot, hits, strategy)),
{
    if let Some(h) = hot {
        assert(all_wanted(f, h + hits));
        best_are_wanted(f, h + hits, f.k);
    }
}

proof fn starts_are_kept(f: RunV, hot: Option<Seq<Scored>>)
    requires
        hot matches Some(h) ==> all_wanted(f, h),
    ensures
        is_kept(f, ann::index_start(f, hot)),
{
    ends_are_kept(f, hot, Seq::empty(), ann::AnnStrategy::Prefilter);
}

/// A run that begins keeps what holds of every stage.
pub proof fn beginnings_are_kept(f: RunV, path: AnnPath, has_hot: bool)
    ensures
        is_kept(f, ann::first_stage(f, path, has_hot)),
{
    starts_are_kept(f, None);
}

/// An answer to what a run asks for keeps what holds of every stage.
pub proof fn answers_are_kept(f: RunV, stage: StageV, action: AnnAction, event: AnnEvent)
    requires
        is_unshadowed(f),
        is_kept(f, stage),
        ann::asks(f, stage, action),
        answers(f, action, event),
    ensures
        is_kept(f, ann::next_stage(f, stage, event)),
{
    actions_ask_for_wanted(f, stage, action);
    match (stage, event) {
        (StageV::Scan(_), AnnEvent::Scanned(hits)) => {
            assert(all_wanted(f, hits@));
        },
        (StageV::Hot { .. }, _) => {
            starts_are_kept(f, None);
        },
        (StageV::Take { live }, AnnEvent::Taken(hits)) => {
            assert forall|i: int| 0 <= i < hits@.len() implies wants(
                f,
                (#[trigger] hits@[i]).row_id,
            ) by {
                let rows = action->rows@;
                let j = choose|j: int| 0 <= j < rows.len() && rows[j] == hits@[i].row_id;
                assert(wants(f, rows[j]));
            }
            starts_are_kept(f, Some(hits@));
        },
        (StageV::Index { search, hot }, AnnEvent::Nearest { hits, returned }) => {
            match search {
                IndexSearch::Post { k1, retries } => {
                    let rows = ann::searched_rows(f, hot is Some);
                    let keep = ann::on_rows(hits@, rows);
                    broadcast use vstd::seq_lib::group_filter_ensures;

                    assert forall|i: int| 0 <= i < keep.len() implies wants(
                        f,
                        (#[trigger] keep[i]).row_id,
                    ) by {
                        assert(rows.contains(keep[i].row_id));
                    }
                    ends_are_kept(f, hot, keep, ann::AnnStrategy::Postfilter);
                },
                IndexSearch::Pre => {
                    assert(all_wanted(f, hits@));
                    ends_are_kept(f, hot, hits@, ann::AnnStrategy::Prefilter);
                },
                IndexSearch::Blocking => {
                    assert(all_wanted(f, hits@));
                    ends_are_kept(f, hot, hits@, ann::AnnStrategy::Postfilter);
                },
            }
        },
        _ => {},
    }
}

/// The stage of a run after some events.
pub open spec fn stage_after(f: RunV, path: AnnPath, has_hot: bool, events: Seq<AnnEvent>) -> StageV
    decreases events.len(),
{
    if events.len() == 0 {
        ann::first_stage(f, path, has_hot)
    } else {
        ann::next_stage(f, stage_after(f, path, has_hot, events.drop_last()), events.last())
    }
}

/// Whether each event answers what the run asked for before it.
pub open spec fn is_answered(
    f: RunV,
    path: AnnPath,
    has_hot: bool,
    actions: Seq<AnnAction>,
    events: Seq<AnnEvent>,
) -> bool {
    &&& actions.len() == events.len()
    &&& forall|i: int|
        0 <= i < events.len() ==> {
            &&& ann::asks(f, stage_after(f, path, has_hot, events.take(i)), #[trigger] actions[i])
            &&& answers(f, actions[i], events[i])
        }
}

/// Every hit of a finished run is on a row that the run wants: under a
/// filter on a row of the filter, and never on a shadowed row.
pub proof fn finished_hits_are_wanted(
    f: RunV,
    path: AnnPath,
    has_hot: bool,
    actions: Seq<AnnAction>,
    events: Seq<AnnEvent>,
)
    requires
        is_unshadowed(f),
        is_answered(f, path, has_hot, actions, events),
    ensures
        is_kept(f, stage_after(f, path, has_hot, events)),
        stage_after(f, path, has_hot, events) matches StageV::Done { hits, .. } ==> forall|i: int|
            0 <= i < hits.len() ==> {
                &&& !f.shadow.contains((#[trigger] hits[i]).row_id)
                &&& f.allowed matches Some(rows) ==> rows.contains(hits[i].row_id)
            },
    decreases events.len(),
{
    if events.len() == 0 {
        beginnings_are_kept(f, path, has_hot);
    } else {
        let n = events.len() - 1;
        let before = events.drop_last();
        assert(before =~= events.take(n));
        assert forall|i: int| 0 <= i < before.len() implies ann::asks(
            f,
            stage_after(f, path, has_hot, before.take(i)),
            #[trigger] actions.drop_last()[i],
        ) && answers(f, actions.drop_last()[i], before[i]) by {
            assert(before.take(i) =~= events.take(i));
            assert(actions.drop_last()[i] == actions[i]);
        }
        finished_hits_are_wanted(f, path, has_hot, actions.drop_last(), before);
        assert(ann::asks(f, stage_after(f, path, has_hot, events.take(n)), actions[n]));
        answers_are_kept(f, stage_after(f, path, has_hot, before), actions[n], events[n]);
    }
}

/// A search for no hits looks nowhere. Any other by an exact request, by
/// another metric than the vector's, by one that is never indexed, or
/// without an index scores every row that it wants; and so does one of a
/// filter of few rows.
pub proof fn exact_searches_scan(
    k: nat,
    indexed: bool,
    params: AnnParams,
    distance: Distance,
    allowed: Option<nat>,
    threshold: nat,
)
    ensures
        ({
            let path = ann::path_of(k, indexed, params, distance, allowed, threshold);
            &&& path is Nothing <==> k == 0
            &&& path is Indexed ==> indexed && !params.exact && params.distance is None && distance
                != Distance::Manhattan && (allowed matches Some(n) ==> n > threshold)
            &&& k > 0 && indexed && !params.exact && params.distance is None && distance
                != Distance::Manhattan && (allowed matches Some(n) ==> n > threshold)
                ==> path is Indexed
            &&& path matches AnnPath::Scan(ann::AnnStrategy::BruteForceAllowed) ==> allowed is Some
        }),
{
}

} // verus!
