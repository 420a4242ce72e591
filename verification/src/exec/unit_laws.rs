//! What one unit of a sparse search gives: the candidates that share
//! something with the query, each by the weights that stand where it says.

use crate::exec::mask;
use crate::exec::sparse::ScoredDoc;
use crate::exec::sparse_unit;
use crate::exec::tantivy_search;
use crate::exec::topk::HitV;
use crate::key;
use vstd::prelude::*;

verus! {

/// Whether a hit is a candidate: its row, its score, and the key in its
/// bytes.
pub open spec fn is_hit(d: ScoredDoc, h: HitV) -> bool {
    &&& d.score == Some(h.score)
    &&& d.row == h.row_id
    &&& d.pk matches Some(bytes) && key::key_in(bytes@) == Some(h.pk)
}

/// The hits of some candidates are just those that have a score and a key.
pub proof fn hits_are_of_scored(docs: Seq<ScoredDoc>, h: HitV)
    ensures
        sparse_unit::hits_of(docs).contains(h) <==> exists|i: int|
            0 <= i < docs.len() && is_hit(#[trigger] docs[i], h),
    decreases docs.len(),
{
    if docs.len() > 0 {
        let rest = docs.drop_last();
        let before = sparse_unit::hits_of(rest);
        let all = sparse_unit::hits_of(docs);
        hits_are_of_scored(rest, h);
        assert(docs[docs.len() - 1] == docs.last());
        if all.contains(h) {
            let at = choose|at: int| 0 <= at < all.len() && all[at] == h;
            if at < before.len() {
                assert(before[at] == h);
                let i = choose|i: int| 0 <= i < rest.len() && is_hit(#[trigger] rest[i], h);
                assert(docs[i] == rest[i]);
            } else {
                assert(is_hit(docs[docs.len() - 1], h));
            }
        }
        if exists|i: int| 0 <= i < docs.len() && is_hit(#[trigger] docs[i], h) {
            let i = choose|i: int| 0 <= i < docs.len() && is_hit(#[trigger] docs[i], h);
            if i < rest.len() {
                assert(is_hit(rest[i], h));
                let at = choose|at: int| 0 <= at < before.len() && before[at] == h;
                assert(all[at] == h);
            } else {
                assert(all[before.len() as int] == h);
            }
        }
    }
}

/// A place has the score of the weights that were read there, and a place
/// where none were read has none.
pub proof fn places_have_their_scores(places: Seq<u64>, scores: Seq<Option<u32>>, place: u64)
    requires
        mask::ascending(places),
        scores.len() == places.len(),
    ensures
        forall|i: int|
            0 <= i < places.len() && #[trigger] places[i] == place ==> sparse_unit::score_at(
                places,
                scores,
                place,
            ) == scores[i],
        !places.contains(place) ==> sparse_unit::score_at(places, scores, place) is None,
    decreases places.len(),
{
    place_has_its_score(places, scores, place);
}

proof fn place_has_its_score(places: Seq<u64>, scores: Seq<Option<u32>>, place: u64)
    requires
        mask::ascending(places),
        scores.len() >= places.len(),
    ensures
        forall|i: int|
            0 <= i < places.len() && #[trigger] places[i] == place ==> sparse_unit::score_at(
                places,
                scores,
                place,
            ) == scores[i],
        !places.contains(place) ==> sparse_unit::score_at(places, scores, place) is None,
    decreases places.len(),
{
    if places.len() > 0 {
        let rest = places.drop_last();
        let end = places.len() - 1;
        assert(places[end] == places.last());
        assert forall|i: int, j: int| 0 <= i < j < rest.len() implies #[trigger] rest[i]
            < #[trigger] rest[j] by {
            assert(places[i] < places[j]);
        }
        place_has_its_score(rest, scores, place);
        assert forall|i: int| 0 <= i < places.len() && #[trigger] places[i]
            == place implies sparse_unit::score_at(places, scores, place) == scores[i] by {
            if i < end {
                assert(places[i] < places[end]);
                assert(rest[i] == place);
            }
        }
        if !places.contains(place) {
            assert forall|i: int| 0 <= i < rest.len() implies #[trigger] rest[i] != place by {
                assert(places[i] != place);
            }
        }
    }
}

/// As many documents are unmasked as are no masked ones.
pub proof fn unmasked_are_counted(docs: Seq<u32>, masked: Set<u32>)
    ensures
        tantivy_search::unmasked(docs, masked) == docs.filter(|d: u32| !masked.contains(d)).len(),
    decreases docs.len(),
{
    reveal(Seq::filter);
    if docs.len() > 0 {
        unmasked_are_counted(docs.drop_last(), masked);
    }
}

} // verus!
