//! What the counts behind sparse scores and filters count.

use crate::error::ServiceError;
use crate::exec::filter_bitmap;
use crate::exec::mask;
use crate::sparse;
use roaring::RoaringTreemap;
use vstd::prelude::*;

verus! {

/// The count of a posting list within a corpus is that of its unmasked
/// documents whose rows are in the corpus.
pub proof fn corpora_are_counted(
    docs: Seq<(u32, Option<u64>)>,
    masked: Set<u32>,
    corpus: Set<u64>,
)
    ensures
        sparse::in_corpus(docs, masked, corpus) == docs.filter(
            |d: (u32, Option<u64>)|
                !masked.contains(d.0) && (d.1 matches Some(row) && corpus.contains(row)),
        ).len(),
    decreases docs.len(),
{
    reveal(Seq::filter);
    if docs.len() > 0 {
        corpora_are_counted(docs.drop_last(), masked, corpus);
    }
}

/// An index has the count that stands beside its term. No term repeats.
pub proof fn terms_have_their_counts(terms: Seq<u64>, counts: Seq<u64>, at: int)
    requires
        0 <= at < terms.len(),
        counts.len() == terms.len(),
        forall|i: int| 0 <= i < terms.len() ==> #[trigger] terms[i] <= u32::MAX,
        forall|i: int, j: int|
            0 <= i < j < terms.len() ==> #[trigger] terms[i] != #[trigger] terms[j],
    ensures
        sparse::count_of(sparse::paired(terms, counts), terms[at] as u32) == counts[at],
    decreases terms.len(),
{
    let all = sparse::paired(terms, counts);
    assert(all[0] == (terms[0] as u32, counts[0]));
    if at > 0 {
        let t = terms.drop_first();
        let c = counts.drop_first();
        assert(terms[0] != terms[at]);
        assert(all.drop_first() =~= sparse::paired(t, c));
        assert forall|i: int, j: int| 0 <= i < j < t.len() implies #[trigger] t[i]
            != #[trigger] t[j] by {
            assert(terms[i + 1] != terms[j + 1]);
        }
        assert forall|i: int| 0 <= i < t.len() implies #[trigger] t[i] <= u32::MAX by {
            assert(terms[i + 1] <= u32::MAX);
        }
        terms_have_their_counts(t, c, at - 1);
    }
}

/// The rows of some parts are just those that a part has.
pub proof fn joined_rows_are_of_a_part(
    parts: Seq<Result<RoaringTreemap, ServiceError>>,
    row: u64,
)
    ensures
        filter_bitmap::joined_rows(parts).contains(row) <==> exists|i: int|
            0 <= i < parts.len() && (#[trigger] parts[i] matches Ok(t) && mask::treemap_rows(
                t,
            ).contains(row)),
    decreases parts.len(),
{
    if parts.len() > 0 {
        let rest = parts.drop_last();
        joined_rows_are_of_a_part(rest, row);
        assert(parts[parts.len() - 1] == parts.last());
        if filter_bitmap::joined_rows(rest).contains(row) {
            let i = choose|i: int|
                0 <= i < rest.len() && (#[trigger] rest[i] matches Ok(t) && mask::treemap_rows(
                    t,
                ).contains(row));
            assert(parts[i] == rest[i]);
        }
        if exists|i: int|
            0 <= i < parts.len() && (#[trigger] parts[i] matches Ok(t) && mask::treemap_rows(
                t,
            ).contains(row)) {
            let i = choose|i: int|
                0 <= i < parts.len() && (#[trigger] parts[i] matches Ok(t) && mask::treemap_rows(
                    t,
                ).contains(row));
            if i < rest.len() {
                assert(rest[i] == parts[i]);
            }
        }
    }
}

} // verus!
