//! What the parts of a search keep: of what they read just the rows, hits
//! and keys that count.

use crate::exec::ann;
use crate::exec::ann::TailVector;
use crate::exec::filter_bitmap;
use crate::exec::get;
use crate::exec::get::Slot;
use crate::exec::mask;
use crate::exec::mask::RowMask;
use crate::exec::sparse;
use crate::exec::sparse::{Admitted, Posting};
use crate::exec::tail_merge::TailLookup;
use crate::exec::topk::Scored;
use crate::exec::vector_rows;
use crate::exec::vector_rows::VectorRow;
use crate::key::PrimaryKey;
use crate::meaning;
use crate::meaning::DocV;
use crate::query;
use crate::query::{Query, QueryV};
use roaring::RoaringTreemap;
use vstd::prelude::*;

verus! {

/// A filter without a clause matches every document, where no number of
/// optional clauses is said.
pub proof fn filters_without_clauses_match_all(
    q: Query,
    d: DocV,
    words: spec_fn(QueryV, DocV) -> bool,
)
    requires
        filter_bitmap::is_match_all(q),
        q matches Query::Bool { minimum_should_match, .. } ==> minimum_should_match is None,
    ensures
        meaning::finds(q@, d, words),
{
    if let Query::Bool { must, should, must_not, filter, minimum_should_match } = q {
        query::view_bool(must, should, must_not, filter, minimum_should_match);
        assert(q@->Bool_must.len() == 0 && q@->should.len() == 0 && q@->must_not.len() == 0
            && q@->Bool_filter.len() == 0);
    }
}

/// The rows of a segment's matches are those of the documents that are not
/// masked.
pub proof fn unmasked_rows_are_of_matches(
    docs: Seq<(u32, Option<u64>)>,
    masked: Set<u32>,
    row: u64,
)
    ensures
        filter_bitmap::unmasked_rows(docs, masked).contains(row) <==> exists|i: int|
            0 <= i < docs.len() && (#[trigger] docs[i]).1 == Some(row) && !masked.contains(docs[i].0),
    decreases docs.len(),
{
    if docs.len() > 0 {
        let t = docs.drop_last();
        unmasked_rows_are_of_matches(t, masked, row);
        assert(docs[docs.len() - 1] == docs.last());
        if filter_bitmap::unmasked_rows(t, masked).contains(row) {
            let i = choose|i: int|
                0 <= i < t.len() && (#[trigger] t[i]).1 == Some(row) && !masked.contains(t[i].0);
            assert(docs[i] == t[i]);
        }
        if exists|i: int|
            0 <= i < docs.len() && (#[trigger] docs[i]).1 == Some(row) && !masked.contains(
                docs[i].0,
            ) {
            let i = choose|i: int|
                0 <= i < docs.len() && (#[trigger] docs[i]).1 == Some(row) && !masked.contains(
                    docs[i].0,
                );
            if i < t.len() {
                assert(t[i] == docs[i]);
            }
        }
    }
}

/// The rows of a tail's hits: a document is scored just where the filter has
/// its row, or there is none, and it has a vector as long as the query; and
/// each with its own score.
pub proof fn tail_scores_are_of_wanted(
    docs: Seq<TailVector>,
    allowed: Option<Set<u64>>,
    dim: nat,
    hit: Scored,
)
    ensures
        ann::tail_scores(docs, allowed, dim).contains(hit) <==> exists|i: int|
            0 <= i < docs.len() && (#[trigger] docs[i]).row_id == hit.row_id && docs[i].pk == hit.pk
                && (docs[i].vector matches Some((len, score)) && len == dim && score == hit.score)
                && (allowed matches Some(rows) ==> rows.contains(hit.row_id)),
    decreases docs.len(),
{
    if docs.len() > 0 {
        let t = docs.drop_last();
        let doc = docs.last();
        let before = ann::tail_scores(t, allowed, dim);
        let all = ann::tail_scores(docs, allowed, dim);
        tail_scores_are_of_wanted(t, allowed, dim, hit);
        assert(docs[docs.len() - 1] == doc);
        assert forall|i: int| 0 <= i < t.len() implies #[trigger] docs[i] == t[i] by {}
        if before.contains(hit) {
            let n = choose|n: int| 0 <= n < before.len() && before[n] == hit;
            assert(all[n] == hit);
            let i = choose|i: int|
                0 <= i < t.len() && (#[trigger] t[i]).row_id == hit.row_id && t[i].pk == hit.pk && (
                t[i].vector matches Some((len, score)) && len == dim && score == hit.score) && (
                allowed matches Some(rows) ==> rows.contains(hit.row_id));
            assert(docs[i] == t[i]);
        }
        if ann::tail_counts(doc, allowed, dim) {
            let own = Scored { row_id: doc.row_id, pk: doc.pk, score: (doc.vector->0).1 };
            assert(all == before.push(own));
            assert(all[before.len() as int] == own);
            if all.contains(hit) && !before.contains(hit) {
                let n = choose|n: int| 0 <= n < all.len() && all[n] == hit;
                if n < before.len() {
                    assert(before[n] == hit);
                }
                assert(docs[docs.len() - 1].row_id == hit.row_id);
            }
            if doc.row_id == hit.row_id && doc.pk == hit.pk && (doc.vector->0).1 == hit.score {
                assert(own == hit);
            }
        }
        if exists|i: int|
            0 <= i < docs.len() && (#[trigger] docs[i]).row_id == hit.row_id && docs[i].pk == hit.pk
                && (docs[i].vector matches Some((len, score)) && len == dim && score == hit.score)
                && (allowed matches Some(rows) ==> rows.contains(hit.row_id)) {
            let i = choose|i: int|
                0 <= i < docs.len() && (#[trigger] docs[i]).row_id == hit.row_id && docs[i].pk
                    == hit.pk && (docs[i].vector matches Some((len, score)) && len == dim && score
                    == hit.score) && (allowed matches Some(rows) ==> rows.contains(hit.row_id));
            if i < t.len() {
                assert(t[i] == docs[i]);
            }
        }
    }
}

/// A search keeps of the rows that it read just those with a vector that the
/// mask lets through and the tail does not shadow, each with its own score.
pub proof fn kept_hits_are_of_wanted(
    rows: Seq<VectorRow>,
    scores: Seq<u32>,
    m: Option<RowMask>,
    shadow: Set<u64>,
    hit: Scored,
)
    ensures
        vector_rows::kept_hits(rows, scores, m, shadow).contains(hit) <==> exists|i: int|
            0 <= i < rows.len() && (#[trigger] rows[i]).row_id == hit.row_id && rows[i].pk == hit.pk
                && scores[i] == hit.score && rows[i].vector is Some && !shadow.contains(hit.row_id)
                && (m matches Some(m) ==> mask::admitted(m, hit.row_id)),
    decreases rows.len(),
{
    if rows.len() > 0 {
        let t = rows.drop_last();
        let row = rows.last();
        let before = vector_rows::kept_hits(t, scores, m, shadow);
        let all = vector_rows::kept_hits(rows, scores, m, shadow);
        kept_hits_are_of_wanted(t, scores, m, shadow, hit);
        assert(rows[rows.len() - 1] == row);
        assert forall|i: int| 0 <= i < t.len() implies #[trigger] rows[i] == t[i] by {}
        if before.contains(hit) {
            let n = choose|n: int| 0 <= n < before.len() && before[n] == hit;
            assert(all[n] == hit);
            let i = choose|i: int|
                0 <= i < t.len() && (#[trigger] t[i]).row_id == hit.row_id && t[i].pk == hit.pk
                    && scores[i] == hit.score && t[i].vector is Some && !shadow.contains(hit.row_id)
                    && (m matches Some(m) ==> mask::admitted(m, hit.row_id));
            assert(rows[i] == t[i]);
        }
        if vector_rows::keeps(row, m, shadow) {
            let own = Scored { row_id: row.row_id, pk: row.pk, score: scores[rows.len() - 1] };
            assert(all == before.push(own));
            assert(all[before.len() as int] == own);
            if all.contains(hit) && !before.contains(hit) {
                let n = choose|n: int| 0 <= n < all.len() && all[n] == hit;
                if n < before.len() {
                    assert(before[n] == hit);
                }
                assert(rows[rows.len() - 1].row_id == hit.row_id);
            }
            if row.row_id == hit.row_id && row.pk == hit.pk && scores[rows.len() - 1] == hit.score {
                assert(own == hit);
            }
        }
        if exists|i: int|
            0 <= i < rows.len() && (#[trigger] rows[i]).row_id == hit.row_id && rows[i].pk == hit.pk
                && scores[i] == hit.score && rows[i].vector is Some && !shadow.contains(hit.row_id)
                && (m matches Some(m) ==> mask::admitted(m, hit.row_id)) {
            let i = choose|i: int|
                0 <= i < rows.len() && (#[trigger] rows[i]).row_id == hit.row_id && rows[i].pk
                    == hit.pk && scores[i] == hit.score && rows[i].vector is Some
                    && !shadow.contains(hit.row_id) && (m matches Some(m) ==> mask::admitted(
                    m,
                    hit.row_id,
                ));
            if i < t.len() {
                assert(t[i] == rows[i]);
            }
        }
    }
}

/// A sparse search scores just the candidates that the filter allows and
/// that have weights.
pub proof fn scored_candidates_are_of_allowed(
    s: Seq<Posting>,
    allow: Option<RoaringTreemap>,
    a: Admitted,
)
    ensures
        sparse::admitted(s, allow).contains(a) <==> exists|i: int|
            0 <= i < s.len() && (#[trigger] s[i]).doc == a.doc && s[i].row == Some(a.row)
                && s[i].weights == Some(a.weights) && (allow matches Some(t) ==> mask::treemap_rows(
                t,
            ).contains(a.row)),
    decreases s.len(),
{
    if s.len() > 0 {
        let t = s.drop_last();
        let p = s.last();
        let before = sparse::admitted(t, allow);
        let all = sparse::admitted(s, allow);
        scored_candidates_are_of_allowed(t, allow, a);
        assert(s[s.len() - 1] == p);
        assert forall|i: int| 0 <= i < t.len() implies #[trigger] s[i] == t[i] by {}
        if before.contains(a) {
            let n = choose|n: int| 0 <= n < before.len() && before[n] == a;
            assert(all[n] == a);
            let i = choose|i: int|
                0 <= i < t.len() && (#[trigger] t[i]).doc == a.doc && t[i].row == Some(a.row)
                    && t[i].weights == Some(a.weights) && (allow matches Some(t)
                    ==> mask::treemap_rows(t).contains(a.row));
            assert(s[i] == t[i]);
        }
        if p.row is Some && sparse::allows(allow, p.row->0) && p.weights is Some {
            let own = Admitted { doc: p.doc, row: p.row->0, weights: p.weights->0 };
            assert(all == before.push(own));
            assert(all[before.len() as int] == own);
            if all.contains(a) && !before.contains(a) {
                let n = choose|n: int| 0 <= n < all.len() && all[n] == a;
                if n < before.len() {
                    assert(before[n] == a);
                }
                assert(s[s.len() - 1].doc == a.doc);
            }
        }
        if exists|i: int|
            0 <= i < s.len() && (#[trigger] s[i]).doc == a.doc && s[i].row == Some(a.row)
                && s[i].weights == Some(a.weights) && (allow matches Some(t) ==> mask::treemap_rows(
                t,
            ).contains(a.row)) {
            let i = choose|i: int|
                0 <= i < s.len() && (#[trigger] s[i]).doc == a.doc && s[i].row == Some(a.row)
                    && s[i].weights == Some(a.weights) && (allow matches Some(t)
                    ==> mask::treemap_rows(t).contains(a.row));
            if i < t.len() {
                assert(t[i] == s[i]);
            }
        }
    }
}

proof fn ids_go_on(lookups: Seq<TailLookup>, n: int)
    requires
        0 <= n <= lookups.len(),
    ensures
        get::tail_ids(lookups.take(n)).len() <= get::tail_ids(lookups).len(),
        forall|i: int|
            0 <= i < get::tail_ids(lookups.take(n)).len() ==> #[trigger] get::tail_ids(lookups)[i]
                == get::tail_ids(lookups.take(n))[i],
    decreases lookups.len() - n,
{
    if n < lookups.len() {
        ids_go_on(lookups, n + 1);
        let next = lookups.take(n + 1);
        assert(next.drop_last() =~= lookups.take(n));
        assert(next.last() == lookups[n]);
        assert forall|i: int| 0 <= i < get::tail_ids(lookups.take(n)).len() implies #[trigger]
            get::tail_ids(lookups)[i] == get::tail_ids(lookups.take(n))[i] by {
            assert(get::tail_ids(next)[i] == get::tail_ids(lookups.take(n))[i]);
        }
    } else {
        assert(lookups.take(n) =~= lookups);
    }
}

proof fn keys_go_on(pks: Seq<PrimaryKey>, lookups: Seq<TailLookup>, n: int)
    requires
        0 <= n <= lookups.len(),
    ensures
        get::absent_keys(pks, lookups.take(n)).len() <= get::absent_keys(pks, lookups).len(),
        forall|i: int|
            0 <= i < get::absent_keys(pks, lookups.take(n)).len() ==> #[trigger] get::absent_keys(
                pks,
                lookups,
            )[i] == get::absent_keys(pks, lookups.take(n))[i],
    decreases lookups.len() - n,
{
    if n < lookups.len() {
        keys_go_on(pks, lookups, n + 1);
        let next = lookups.take(n + 1);
        assert(next.drop_last() =~= lookups.take(n));
        assert(next.last() == lookups[n]);
        assert forall|i: int|
            0 <= i < get::absent_keys(pks, lookups.take(n)).len() implies #[trigger] get::absent_keys(
            pks,
            lookups,
        )[i] == get::absent_keys(pks, lookups.take(n))[i] by {
            assert(get::absent_keys(pks, next)[i] == get::absent_keys(pks, lookups.take(n))[i]);
        }
    } else {
        assert(lookups.take(n) =~= lookups);
    }
}

/// A key is read where it is: the row that the tail has for it among the
/// tail's rows, the key itself among the durable lookups where the tail does
/// not have it, and nowhere where the tail deleted it.
pub proof fn keys_are_read_where_they_are(pks: Seq<PrimaryKey>, lookups: Seq<TailLookup>, i: int)
    requires
        0 <= i < pks.len(),
        pks.len() == lookups.len(),
        lookups.len() <= usize::MAX,
    ensures
        match get::slot_of(pks, lookups.take(i + 1)) {
            Slot::Tail(n) => n < get::tail_ids(lookups).len() && lookups[i] == TailLookup::Present(
                get::tail_ids(lookups)[n as int],
            ),
            Slot::Durable(n) => lookups[i] is Absent && n < get::absent_keys(pks, lookups).len()
                && get::absent_keys(pks, lookups)[n as int] == pks[i]@,
            Slot::Miss => lookups[i] is Deleted,
        },
{
    let next = lookups.take(i + 1);
    assert(next.drop_last() =~= lookups.take(i));
    assert(next.last() == lookups[i]);
    ids_go_on(lookups, i + 1);
    keys_go_on(pks, lookups, i + 1);
    ids_are_few(lookups.take(i), pks);
    match lookups[i] {
        TailLookup::Present(row) => {
            let n = get::tail_ids(lookups.take(i)).len() as int;
            assert(get::tail_ids(next)[n] == row);
            assert(get::tail_ids(lookups)[n] == get::tail_ids(next)[n]);
        },
        TailLookup::Absent => {
            let n = get::absent_keys(pks, lookups.take(i)).len() as int;
            assert(get::absent_keys(pks, next)[n] == pks[i]@);
            assert(get::absent_keys(pks, lookups)[n] == get::absent_keys(pks, next)[n]);
        },
        TailLookup::Deleted => {},
    }
}

proof fn ids_are_few(lookups: Seq<TailLookup>, pks: Seq<PrimaryKey>)
    ensures
        get::tail_ids(lookups).len() <= lookups.len(),
        get::absent_keys(pks, lookups).len() <= lookups.len(),
    decreases lookups.len(),
{
    if lookups.len() > 0 {
        ids_are_few(lookups.drop_last(), pks);
    }
}

} // verus!
