//! A sparse search of one unit: every candidate with the score of its
//! weights, and the best of them.

use crate::error::{Failure, ServiceError};
use crate::exec::mask;
use crate::exec::sparse;
use crate::exec::sparse::{Admitted, ScoredDoc};
use crate::exec::topk;
use crate::exec::topk::{HitV, Scored, TopK};
use crate::float;
use crate::key;
use crate::key::{Key, PrimaryKey};
use crate::ordering;
use vstd::prelude::*;

verus! {

/// Where a place is among the places that were read.
pub fn weights_at(places: &Vec<u64>, place: u64) -> (r: Option<usize>)
    requires
        mask::ascending(places@),
    ensures
        match r {
            Some(at) => at < places@.len() && places@[at as int] == place,
            None => !places@.contains(place),
        },
{
    let mut low: usize = 0;
    let mut high: usize = places.len();
    while low < high
        invariant
            low <= high <= places@.len(),
            mask::ascending(places@),
            forall|i: int| 0 <= i < low ==> #[trigger] places@[i] < place,
            forall|i: int| high <= i < places@.len() ==> #[trigger] places@[i] > place,
        decreases high - low,
    {
        let mid: usize = low + (high - low) / 2;
        if places[mid] == place {
            return Some(mid);
        }
        if places[mid] < place {
            low = mid + 1;
        } else {
            high = mid;
        }
    }
    None
}

/// The score of a place: that of the weights read there, none when they
/// share nothing with the query.
pub open spec fn score_at(places: Seq<u64>, scores: Seq<Option<u32>>, place: u64) -> Option<u32>
    decreases places.len(),
{
    if places.len() == 0 {
        None
    } else if places.last() == place {
        scores[places.len() - 1]
    } else {
        score_at(places.drop_last(), scores, place)
    }
}

proof fn score_at_is(places: Seq<u64>, scores: Seq<Option<u32>>, at: int)
    requires
        mask::ascending(places),
        0 <= at < places.len(),
    ensures
        score_at(places, scores, places[at]) == scores[at],
    decreases places.len(),
{
    if at < places.len() - 1 {
        assert(places[at] < places[places.len() - 1]);
        let rest = places.drop_last();
        assert forall|i: int, j: int| 0 <= i < j < rest.len() implies #[trigger] rest[i]
            < #[trigger] rest[j] by {
            assert(places[i] < places[j]);
        }
        score_at_is(rest, scores, at);
    }
}

/// The candidates of a segment with their scores and keys: `places` are the
/// places of the weights that were read, `scores` the scores of the weights
/// there, `pks` the bytes of the candidates' keys.
pub fn scored_docs(
    admitted: &Vec<Admitted>,
    places: &Vec<u64>,
    scores: &Vec<Option<u32>>,
    pks: Vec<Option<Vec<u8>>>,
) -> (r: Vec<ScoredDoc>)
    requires
        mask::ascending(places@),
        scores@.len() == places@.len(),
        pks@.len() == admitted@.len(),
    ensures
        r@.len() == admitted@.len(),
        forall|i: int|
            0 <= i < admitted@.len() ==> #[trigger] r@[i] == (ScoredDoc {
                doc: admitted@[i].doc,
                row: admitted@[i].row,
                score: score_at(places@, scores@, admitted@[i].weights),
                pk: pks@[i],
            }),
{
    let ghost keys = pks@;
    let mut out: Vec<ScoredDoc> = Vec::new();
    let mut i: usize = 0;
    for pk in it: pks
        invariant
            it.seq() == keys,
            i == it.index(),
            keys.len() == admitted@.len(),
            mask::ascending(places@),
            scores@.len() == places@.len(),
            out@.len() == i,
            forall|j: int|
                0 <= j < i ==> #[trigger] out@[j] == (ScoredDoc {
                    doc: admitted@[j].doc,
                    row: admitted@[j].row,
                    score: score_at(places@, scores@, admitted@[j].weights),
                    pk: keys[j],
                }),
    {
        proof {
            assert(i < admitted.len());
            assert(keys[i as int] == pk);
        }
        let place: u64 = admitted[i].weights;
        let score = match weights_at(places, place) {
            Some(at) => {
                proof {
                    score_at_is(places@, scores@, at as int);
                }
                scores[at]
            },
            None => {
                proof {
                    missing_place(places@, scores@, place);
                }
                None
            },
        };
        out.push(ScoredDoc { doc: admitted[i].doc, row: admitted[i].row, score, pk });
        i += 1;
    }
    out
}

proof fn missing_place(places: Seq<u64>, scores: Seq<Option<u32>>, place: u64)
    requires
        !places.contains(place),
    ensures
        score_at(places, scores, place) is None,
    decreases places.len(),
{
    if places.len() > 0 {
        assert(places[places.len() - 1] != place);
        let rest = places.drop_last();
        assert forall|i: int| 0 <= i < rest.len() implies #[trigger] rest[i] != place by {
            assert(places[i] != place);
        }
        missing_place(rest, scores, place);
    }
}

/// The key of a candidate.
pub open spec fn key_of(d: ScoredDoc) -> Option<Key> {
    match d.pk {
        Some(bytes) => key::key_in(bytes@),
        None => None,
    }
}

/// The hits that the candidates are: of those that share something with the
/// query and have a key.
pub open spec fn hits_of(docs: Seq<ScoredDoc>) -> Seq<HitV>
    decreases docs.len(),
{
    if docs.len() == 0 {
        Seq::empty()
    } else {
        let before = hits_of(docs.drop_last());
        let d = docs.last();
        match (d.score, key_of(d)) {
            (Some(score), Some(pk)) => before.push(HitV { row_id: d.row, pk, score }),
            _ => before,
        }
    }
}

/// Whether a score may enter the best `k`.
pub open spec fn enters(best: Seq<HitV>, score: u32, k: nat) -> bool {
    k > 0 && (best.len() == k ==> float::key32(score) >= float::key32(best.last().score))
}

/// Whether a candidate's score cannot enter after the candidates before it.
pub open spec fn left_out(docs: Seq<ScoredDoc>, i: int, k: nat) -> bool {
    !enters(topk::best_views(hits_of(docs.take(i)), k), docs[i].score->0, k)
}

/// The message for a candidate whose key is missing or cannot be read.
pub open spec fn key_fault(d: ScoredDoc) -> Seq<char> {
    if d.pk is None {
        sparse::no_key(d.doc)
    } else {
        sparse::bad_key(d.doc)
    }
}

/// Whether every one of the first `n` candidates that share something with
/// the query and have no key cannot enter.
pub open spec fn faults_left_out(docs: Seq<ScoredDoc>, n: int, k: nat) -> bool {
    forall|i: int|
        0 <= i < n && (#[trigger] docs[i]).score is Some && key_of(docs[i]) is None ==> left_out(
            docs,
            i,
            k,
        )
}

/// Whether a candidate is the first one without a key that may enter.
pub open spec fn first_fault(docs: Seq<ScoredDoc>, i: int, k: nat, message: Seq<char>) -> bool {
    &&& 0 <= i < docs.len()
    &&& docs[i].score is Some
    &&& key_of(docs[i]) is None
    &&& message == key_fault(docs[i])
    &&& !left_out(docs, i, k)
    &&& faults_left_out(docs, i, k)
}

proof fn hits_are_keyed(docs: Seq<ScoredDoc>)
    ensures
        ordering::all_in(hits_of(docs), topk::keyed()),
    decreases docs.len(),
{
    if docs.len() > 0 {
        let d = docs.last();
        hits_are_keyed(docs.drop_last());
        let before = hits_of(docs.drop_last());
        let now = hits_of(docs);
        assert forall|i: int| 0 <= i < now.len() implies topk::keyed()(#[trigger] now[i]) by {
            if i < before.len() {
                assert(topk::keyed()(before[i]));
                assert(now[i] == before[i]);
            }
        }
    }
}

/// The best `k` hits of a unit's candidates, best first; internal for the
/// first candidate that may enter and has no key.
pub fn unit_hits(docs: &Vec<ScoredDoc>, k: usize) -> (r: Result<Vec<Scored>, ServiceError>)
    ensures
        match r {
            Ok(best) => topk::hit_views(best@) == topk::best_views(hits_of(docs@), k as nat)
                && faults_left_out(docs@, docs@.len() as int, k as nat),
            Err(e) => e@ matches Failure::Internal(m) && exists|i: int| #[trigger]
                first_fault(docs@, i, k as nat, m),
        },
{
    let ghost all = docs@;
    let mut top = TopK::new(k);
    let mut i: usize = 0;
    proof {
        assert(topk::hit_views(top.best()) =~= topk::best_views(hits_of(all.take(0)), k as nat));
    }
    while i < docs.len()
        invariant
            i <= all.len(),
            all == docs@,
            top.well_formed(),
            top.capacity() == k,
            topk::hit_views(top.best()) == topk::best_views(
                hits_of(all.take(i as int)),
                k as nat,
            ),
            faults_left_out(all, i as int, k as nat),
        decreases docs.len() - i,
    {
        let d = &docs[i];
        let ghost before = hits_of(all.take(i as int));
        let ghost was = top.best();
        proof {
            assert(all.take(i as int + 1).drop_last() =~= all.take(i as int));
            assert(all.take(i as int + 1).last() == *d);
            hits_are_keyed(all.take(i as int));
            assert(was.len() == topk::hit_views(was).len());
            assert(was.len() > 0 ==> topk::hit_views(was).last() == was.last()@);
            if d.pk is Some && exists|c: Key| key::encodes(d.pk->0@, c) {
                let c = choose|c: Key| key::encodes(d.pk->0@, c);
                key::key_in_is(d.pk->0@, c);
            }
        }
        match sparse::add_scored(&mut top, d) {
            Err(e) => {
                proof {
                    assert(first_fault(docs@, i as int, k as nat, e@->Internal_0));
                }
                return Err(e);
            },
            Ok(_) => {
                proof {
                    if d.score is Some {
                        if enters(topk::hit_views(was), d.score->0, k as nat) {
                            let pk = choose|pk: PrimaryKey|
                                key::encodes(d.pk->0@, pk@) && #[trigger] ordering::kept(
                                    ordering::inserted(
                                        topk::ByRank,
                                        was,
                                        (Scored { row_id: d.row, pk, score: d.score->0 }),
                                    ),
                                    k as nat,
                                ) == top.best();
                            key::key_in_is(d.pk->0@, pk@);
                            let x = Scored { row_id: d.row, pk, score: d.score->0 };
                            topk::pushed_views(was, before, x, k as nat);
                        } else if key_of(*d) is Some {
                            let x = HitV { row_id: d.row, pk: key_of(*d)->0, score: d.score->0 };
                            topk::left_out_views(before, x, k as nat);
                        }
                    }
                }
            },
        }
        i += 1;
    }
    proof {
        assert(all.take(all.len() as int) =~= all);
    }
    Ok(top.into_sorted())
}

} // verus!
