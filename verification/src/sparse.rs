//! Sparse vectors: the indices that two of them share, and the live-only
//! statistics of the inverse document frequency.

use crate::exec::doc_fetch;
use crate::exec::mask;
use crate::math;
use roaring::{RoaringBitmap, RoaringTreemap};
use vstd::prelude::*;

verus! {

/// Indices in ascending order, none twice.
pub open spec fn ascends(s: Seq<u32>) -> bool {
    forall|i: int, j: int| 0 <= i < j < s.len() ==> #[trigger] s[i] < #[trigger] s[j]
}

/// Whether some places are the places of every shared index, ascending.
pub open spec fn are_shared(a: Seq<u32>, b: Seq<u32>, r: Seq<(usize, usize)>) -> bool {
    &&& forall|n: int|
        0 <= n < r.len() ==> (#[trigger] r[n]).0 < a.len() && r[n].1 < b.len() && a[r[n].0 as int]
            == b[r[n].1 as int]
    &&& forall|n: int, m: int|
        0 <= n < m < r.len() ==> (#[trigger] r[n]).0 < (#[trigger] r[m]).0 && r[n].1 < r[m].1
    &&& forall|i: int, j: int|
        0 <= i < a.len() && 0 <= j < b.len() && #[trigger] a[i] == #[trigger] b[j] ==> r.contains(
            (i as usize, j as usize),
        )
}

/// The places of the indices that two vectors share, in ascending order:
/// the terms of their dot product, in the order in which it is summed. The
/// vectors share nothing when there is none.
pub fn shared_places(query: &Vec<u32>, doc: &Vec<u32>) -> (r: Vec<(usize, usize)>)
    requires
        ascends(query@),
        ascends(doc@),
    ensures
        are_shared(query@, doc@, r@),
{
    let ghost a = query@;
    let ghost b = doc@;
    let mut out: Vec<(usize, usize)> = Vec::new();
    let mut i: usize = 0;
    let mut j: usize = 0;
    while i < query.len() && j < doc.len()
        invariant
            i <= query@.len(),
            j <= doc@.len(),
            a == query@,
            b == doc@,
            ascends(a),
            ascends(b),
            forall|n: int|
                0 <= n < out@.len() ==> (#[trigger] out@[n]).0 < i && out@[n].1 < j
                    && a[out@[n].0 as int] == b[out@[n].1 as int],
            forall|n: int, m: int|
                0 <= n < m < out@.len() ==> (#[trigger] out@[n]).0 < (#[trigger] out@[m]).0
                    && out@[n].1 < out@[m].1,
            forall|x: int, y: int|
                0 <= x < a.len() && 0 <= y < b.len() && (x < i || y < j) && #[trigger] a[x]
                    == #[trigger] b[y] ==> out@.contains((x as usize, y as usize)),
        decreases query.len() - i + doc.len() - j,
    {
        let ghost was = out@;
        if query[i] < doc[j] {
            proof {
                assert forall|x: int, y: int|
                    0 <= x < a.len() && 0 <= y < b.len() && (x < i + 1 || y < j) && #[trigger] a[x]
                        == #[trigger] b[y] implies out@.contains((x as usize, y as usize)) by {
                    if x == i && y >= j {
                        if y > j {
                            assert(b[j as int] < b[y]);
                        }
                    }
                }
            }
            i += 1;
        } else if query[i] > doc[j] {
            proof {
                assert forall|x: int, y: int|
                    0 <= x < a.len() && 0 <= y < b.len() && (x < i || y < j + 1) && #[trigger] a[x]
                        == #[trigger] b[y] implies out@.contains((x as usize, y as usize)) by {
                    if y == j && x >= i {
                        if x > i {
                            assert(a[i as int] < a[x]);
                        }
                    }
                }
            }
            j += 1;
        } else {
            out.push((i, j));
            proof {
                assert forall|x: int, y: int|
                    0 <= x < a.len() && 0 <= y < b.len() && (x < i + 1 || y < j + 1)
                        && #[trigger] a[x] == #[trigger] b[y] implies out@.contains(
                    (x as usize, y as usize),
                ) by {
                    if x < i || y < j {
                        assert(was.contains((x as usize, y as usize)));
                        let n = choose|n: int|
                            0 <= n < was.len() && was[n] == (x as usize, y as usize);
                        assert(out@[n] == was[n]);
                    } else {
                        if x == i {
                            if y > j {
                                assert(b[j as int] < b[y]);
                            }
                        } else {
                            assert(a[i as int] < a[x]);
                        }
                        assert(out@[was.len() as int] == (x as usize, y as usize));
                    }
                }
            }
            i += 1;
            j += 1;
        }
    }
    out
}

/// The statistics of one sparse vector over the live documents.
pub struct SparseStats {
    /// Live documents with a non-empty vector.
    pub n: u64,
    /// Per query index, the live documents whose vector has it.
    pub df: Vec<(u32, u64)>,
}

/// The count of an index, zero when there is none.
pub open spec fn count_of(df: Seq<(u32, u64)>, index: u32) -> u64
    decreases df.len(),
{
    if df.len() == 0 {
        0
    } else if df[0].0 == index {
        df[0].1
    } else {
        count_of(df.drop_first(), index)
    }
}

/// How many documents of a segment's postings are unmasked and in a corpus.
pub open spec fn in_corpus(
    docs: Seq<(u32, Option<u64>)>,
    masked: Set<u32>,
    corpus: Set<u64>,
) -> nat
    decreases docs.len(),
{
    if docs.len() == 0 {
        0
    } else {
        let d = docs.last();
        in_corpus(docs.drop_last(), masked, corpus) + (if !masked.contains(d.0) && d.1 is Some
            && corpus.contains(d.1->0) {
            1nat
        } else {
            0nat
        })
    }
}

/// The unmasked documents of a posting list whose rows are in a corpus.
pub fn corpus_count(
    docs: &Vec<(u32, Option<u64>)>,
    masked: &RoaringBitmap,
    corpus: &RoaringTreemap,
) -> (r: u64)
    ensures
        r == in_corpus(docs@, mask::bitmap_docs(*masked), mask::treemap_rows(*corpus)),
{
    let ghost m = mask::bitmap_docs(*masked);
    let ghost c = mask::treemap_rows(*corpus);
    let mut count: u64 = 0;
    let mut i: usize = 0;
    while i < docs.len()
        invariant
            i <= docs@.len(),
            m == mask::bitmap_docs(*masked),
            c == mask::treemap_rows(*corpus),
            count == in_corpus(docs@.take(i as int), m, c),
            count <= i,
        decreases docs.len() - i,
    {
        proof {
            assert(docs@.take(i as int + 1).drop_last() =~= docs@.take(i as int));
        }
        if !mask::has_doc(masked, docs[i].0) {
            match docs[i].1 {
                Some(row) => {
                    if mask::has_row(corpus, row) {
                        count = count + 1;
                    }
                },
                None => {},
            }
        }
        i += 1;
    }
    proof {
        assert(docs@.take(docs@.len() as int) =~= docs@);
    }
    count
}

/// Wide numbers.
pub open spec fn wide(s: Seq<u32>) -> Seq<u64> {
    Seq::new(s.len(), |i: int| s[i] as u64)
}

/// The terms whose postings are counted: the one of every document with the
/// vector, then the query's indices, each once, ascending.
pub fn counted_terms(indices: &Vec<u32>, present: u64) -> (r: Vec<u64>)
    ensures
        r@.len() > 0,
        r@[0] == present,
        mask::ascending(r@.drop_first()),
        forall|v: u64| r@.drop_first().contains(v) <==> wide(indices@).contains(v),
{
    let mut all: Vec<u64> = Vec::new();
    let mut i: usize = 0;
    while i < indices.len()
        invariant
            i <= indices@.len(),
            all@ == wide(indices@.take(i as int)),
        decreases indices.len() - i,
    {
        all.push(indices[i] as u64);
        i += 1;
        proof {
            assert(all@ =~= wide(indices@.take(i as int)));
        }
    }
    proof {
        assert(indices@.take(indices@.len() as int) =~= indices@);
    }
    let distinct = doc_fetch::distinct_rows(all);
    let mut out: Vec<u64> = Vec::new();
    out.push(present);
    let mut j: usize = 0;
    while j < distinct.len()
        invariant
            j <= distinct@.len(),
            out@ == seq![present] + distinct@.take(j as int),
        decreases distinct.len() - j,
    {
        out.push(distinct[j]);
        j += 1;
        proof {
            assert(out@ =~= seq![present] + distinct@.take(j as int));
        }
    }
    proof {
        assert(out@.drop_first() =~= distinct@);
    }
    out
}

/// The sums of some counts, place by place.
pub open spec fn total_at(parts: Seq<Vec<u64>>, i: int) -> nat
    decreases parts.len(),
{
    if parts.len() == 0 {
        0
    } else {
        total_at(parts.drop_last(), i) + (if i < parts.last()@.len() {
            parts.last()@[i] as nat
        } else {
            0nat
        })
    }
}

/// The counts of every part added up, `terms` of them.
pub fn total_counts(parts: &Vec<Vec<u64>>, terms: usize) -> (r: Vec<u64>)
    requires
        forall|n: int, i: int|
            0 <= n <= parts@.len() && 0 <= i < terms ==> #[trigger] total_at(parts@.take(n), i)
                <= u64::MAX,
    ensures
        r@.len() == terms,
        forall|i: int| 0 <= i < terms ==> #[trigger] r@[i] == total_at(parts@, i),
{
    let mut totals: Vec<u64> = Vec::new();
    let mut t: usize = 0;
    while t < terms
        invariant
            t <= terms,
            totals@.len() == t,
            forall|i: int| 0 <= i < t ==> #[trigger] totals@[i] == 0,
        decreases terms - t,
    {
        totals.push(0);
        t += 1;
    }
    let mut n: usize = 0;
    while n < parts.len()
        invariant
            n <= parts@.len(),
            totals@.len() == terms,
            forall|i: int|
                0 <= i < terms ==> #[trigger] totals@[i] == total_at(parts@.take(n as int), i),
            forall|n: int, i: int|
                0 <= n <= parts@.len() && 0 <= i < terms ==> #[trigger] total_at(
                    parts@.take(n),
                    i,
                ) <= u64::MAX,
        decreases parts.len() - n,
    {
        let part = &parts[n];
        let ghost next = parts@.take(n as int + 1);
        proof {
            assert(next.drop_last() =~= parts@.take(n as int));
            assert(next.last() == *part);
        }
        let mut i: usize = 0;
        while i < terms
            invariant
                i <= terms,
                totals@.len() == terms,
                n < parts@.len(),
                next == parts@.take(n as int + 1),
                next.drop_last() == parts@.take(n as int),
                next.last() == *part,
                next.len() == n + 1,
                forall|k: int| 0 <= k < i ==> #[trigger] totals@[k] == total_at(next, k),
                forall|k: int|
                    i <= k < terms ==> #[trigger] totals@[k] == total_at(
                        parts@.take(n as int),
                        k,
                    ),
                forall|n: int, i: int|
                    0 <= n <= parts@.len() && 0 <= i < terms ==> #[trigger] total_at(
                        parts@.take(n),
                        i,
                    ) <= u64::MAX,
            decreases terms - i,
        {
            if i < part.len() {
                assert(total_at(parts@.take(n as int + 1), i as int) <= u64::MAX);
                let sum: u64 = totals[i] + part[i];
                totals.set(i, sum);
            }
            i += 1;
        }
        n += 1;
    }
    proof {
        assert(parts@.take(parts@.len() as int) =~= parts@);
    }
    totals
}

/// The counts paired with their terms.
pub open spec fn paired(terms: Seq<u64>, counts: Seq<u64>) -> Seq<(u32, u64)> {
    Seq::new(terms.len(), |i: int| (terms[i] as u32, counts[i]))
}

impl SparseStats {
    /// The statistics of the counts of [`counted_terms`].
    pub fn of_counts(terms: &Vec<u64>, counts: &Vec<u64>) -> (r: SparseStats)
        requires
            terms@.len() > 0,
            counts@.len() == terms@.len(),
            forall|i: int| 1 <= i < terms@.len() ==> #[trigger] terms@[i] <= u32::MAX,
        ensures
            r.n == counts@[0],
            r.df@ == paired(terms@.drop_first(), counts@.drop_first()),
    {
        let mut df: Vec<(u32, u64)> = Vec::new();
        let mut i: usize = 1;
        while i < terms.len()
            invariant
                1 <= i <= terms@.len(),
                counts@.len() == terms@.len(),
                forall|i: int| 1 <= i < terms@.len() ==> #[trigger] terms@[i] <= u32::MAX,
                df@.len() == i - 1,
                forall|j: int|
                    0 <= j < df@.len() ==> #[trigger] df@[j] == (
                        terms@[j + 1] as u32,
                        counts@[j + 1],
                    ),
            decreases terms.len() - i,
        {
            df.push((terms[i] as u32, counts[i]));
            i += 1;
        }
        proof {
            assert(df@ =~= paired(terms@.drop_first(), counts@.drop_first()));
        }
        SparseStats { n: counts[0], df }
    }

    /// The document frequency that weighs an index: its count, zero for one
    /// that was not counted, and never more than there are documents.
    pub fn frequency(&self, index: u32) -> (r: u64)
        ensures
            r == math::least(count_of(self.df@, index) as int, self.n as int),
    {
        let mut i: usize = 0;
        let mut count: u64 = 0;
        let mut found = false;
        proof {
            assert(self.df@.skip(0) =~= self.df@);
        }
        while i < self.df.len() && !found
            invariant
                i <= self.df@.len(),
                found ==> count == count_of(self.df@, index),
                !found ==> count == 0 && count_of(self.df@, index) == count_of(
                    self.df@.skip(i as int),
                    index,
                ),
            decreases self.df.len() - i + (if found { 0int } else { 1 }),
        {
            proof {
                assert(self.df@.skip(i as int)[0] == self.df@[i as int]);
                assert(self.df@.skip(i as int).drop_first() =~= self.df@.skip(i as int + 1));
            }
            if self.df[i].0 == index {
                count = self.df[i].1;
                found = true;
            } else {
                i += 1;
            }
        }
        if count <= self.n {
            count
        } else {
            self.n
        }
    }
}

} // verus!
