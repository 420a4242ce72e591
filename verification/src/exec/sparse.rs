//! Exact sparse vector search over every split and the tail.
//!
//! The candidates are the union of the query indices' postings without
//! masked documents. Every candidate that the filter allows is scored from
//! its stored weights; nothing is pruned.

use crate::collection;
use crate::collection::{CollectionSchema, SchemaV, SparseModifier};
use crate::error::{Failure, ServiceError};
use crate::exec::doc_fetch;
use crate::exec::filter_bitmap;
use crate::exec::mask;
use crate::exec::topk;
use crate::exec::topk::{Scored, TopK};
use crate::float;
use crate::key;
use crate::key::{Key, PrimaryKey};
use crate::ordering;
use crate::text;
use roaring::{RoaringBitmap, RoaringTreemap};
use vstd::prelude::*;
use vstd::string::*;

verus! {

/// Why a sparse query on `field` is refused.
pub open spec fn sparse_refusal(s: SchemaV, field: Seq<char>, corpus: bool) -> Option<Seq<char>> {
    let names = collection::sparse_names(s.sparse_vectors);
    if text::absent(names, field) {
        if text::absent(collection::vector_names(s.vectors), field) {
            Some("unknown sparse vector "@ + field)
        } else {
            Some(field + " is a dense vector"@)
        }
    } else {
        let i = choose|i: int| text::is_first(names, field, i);
        if corpus && s.sparse_vectors[i].modifier != SparseModifier::Idf {
            Some("idf_corpus needs a sparse vector with the idf modifier"@)
        } else {
            None
        }
    }
}

/// The place in the schema of the sparse vector that a query searches.
pub fn sparse_spec(schema: &CollectionSchema, field: &str, corpus: bool) -> (r: Result<
    usize,
    ServiceError,
>)
    ensures
        match r {
            Ok(i) => text::is_first(
                collection::sparse_names(schema@.sparse_vectors),
                field@,
                i as int,
            ) && sparse_refusal(schema@, field@, corpus) is None,
            Err(e) => sparse_refusal(schema@, field@, corpus) matches Some(m) && e@
                == Failure::InvalidArgument(m),
        },
{
    let ghost names = collection::sparse_names(schema@.sparse_vectors);
    match collection::find_sparse(&schema.sparse_vectors, field) {
        None => {
            proof {
                assert(text::absent(names, field@));
            }
            match collection::find_vector(&schema.vectors, field) {
                Some(at) => {
                    proof {
                        assert(collection::vector_names(schema@.vectors)[at as int] == field@);
                    }
                    Err(ServiceError::InvalidArgument(text::cat2(field, " is a dense vector")))
                },
                None => Err(
                    ServiceError::InvalidArgument(text::cat2("unknown sparse vector ", field)),
                ),
            }
        },
        Some(i) => {
            proof {
                let j = choose|j: int| text::is_first(names, field@, j);
                assert(text::is_first(names, field@, i as int));
                assert(names[i as int] == field@);
                assert(i == j);
                assert(schema@.sparse_vectors[i as int] == schema.sparse_vectors@[i as int]@);
            }
            if corpus && schema.sparse_vectors[i].modifier != SparseModifier::Idf {
                Err(
                    ServiceError::InvalidArgument(
                        "idf_corpus needs a sparse vector with the idf modifier".to_owned(),
                    ),
                )
            } else {
                Ok(i)
            }
        },
    }
}

/// Whether a document is in one of some posting lists.
pub open spec fn posted(postings: Seq<Vec<u32>>, doc: u32) -> bool {
    exists|i: int| 0 <= i < postings.len() && (#[trigger] postings[i])@.contains(doc)
}

/// The unmasked documents of one segment that have any of the query's
/// indices, ascending.
pub fn candidates(postings: &Vec<Vec<u32>>, masked: &RoaringBitmap) -> (r: Vec<u32>)
    ensures
        mask::docs_ascend(r@),
        forall|doc: u32|
            r@.contains(doc) <==> posted(postings@, doc) && !mask::bitmap_docs(*masked).contains(
                doc,
            ),
{
    let mut docs = mask::empty_docs();
    let mut i: usize = 0;
    while i < postings.len()
        invariant
            i <= postings@.len(),
            forall|doc: u32| #[trigger]
                mask::bitmap_docs(docs).contains(doc) <==> posted(postings@.take(i as int), doc),
        decreases postings.len() - i,
    {
        let list = &postings[i];
        let ghost before = mask::bitmap_docs(docs);
        let mut j: usize = 0;
        while j < list.len()
            invariant
                j <= list@.len(),
                forall|doc: u32| #[trigger]
                    mask::bitmap_docs(docs).contains(doc) <==> before.contains(doc)
                        || list@.take(j as int).contains(doc),
            decreases list.len() - j,
        {
            let ghost was = mask::bitmap_docs(docs);
            let doc: u32 = list[j];
            mask::add_doc(&mut docs, doc);
            proof {
                let t = list@.take(j as int);
                let u = list@.take(j as int + 1);
                assert(u =~= t.push(doc));
                assert forall|d: u32| u.contains(d) <==> t.contains(d) || d == doc by {
                    if u.contains(d) {
                        let k = choose|k: int| 0 <= k < u.len() && u[k] == d;
                        if k < t.len() {
                            assert(t[k] == d);
                        }
                    }
                    if t.contains(d) {
                        let k = choose|k: int| 0 <= k < t.len() && t[k] == d;
                        assert(u[k] == d);
                    }
                    assert(u[t.len() as int] == doc);
                }
            }
            j += 1;
        }
        proof {
            assert(list@.take(list@.len() as int) =~= list@);
            let t = postings@.take(i as int);
            let u = postings@.take(i as int + 1);
            assert forall|doc: u32| #[trigger] mask::bitmap_docs(docs).contains(doc) <==> posted(
                u,
                doc,
            ) by {
                if posted(t, doc) {
                    let k = choose|k: int| 0 <= k < t.len() && (#[trigger] t[k])@.contains(doc);
                    assert(u[k] == t[k]);
                }
                if list@.contains(doc) {
                    assert(u[i as int] == *list);
                }
                if posted(u, doc) {
                    let k = choose|k: int| 0 <= k < u.len() && (#[trigger] u[k])@.contains(doc);
                    if k < t.len() {
                        assert(t[k] == u[k]);
                    }
                }
            }
        }
        i += 1;
    }
    proof {
        assert(postings@.take(postings@.len() as int) =~= postings@);
    }
    let left = mask::docs_without(&docs, masked);
    mask::docs_in_order(&left)
}

/// A candidate with its row and the place of its weights, when it has some.
pub struct Posting {
    pub doc: u32,
    pub row: Option<u64>,
    pub weights: Option<u64>,
}

/// A candidate that is scored.
#[derive(Clone, Copy, Debug, PartialEq, Eq, Structural)]
pub struct Admitted {
    pub doc: u32,
    pub row: u64,
    pub weights: u64,
}

/// Whether the filter allows a row.
pub open spec fn allows(allow: Option<RoaringTreemap>, row: u64) -> bool {
    match allow {
        Some(t) => mask::treemap_rows(t).contains(row),
        None => true,
    }
}

/// The candidates that are scored: allowed ones that have weights.
pub open spec fn admitted(s: Seq<Posting>, allow: Option<RoaringTreemap>) -> Seq<Admitted>
    decreases s.len(),
{
    if s.len() == 0 {
        Seq::empty()
    } else {
        let p = s.last();
        let before = admitted(s.drop_last(), allow);
        if p.row is Some && allows(allow, p.row->0) && p.weights is Some {
            before.push(Admitted { doc: p.doc, row: p.row->0, weights: p.weights->0 })
        } else {
            before
        }
    }
}

/// The candidates that are scored; internal for one without a row.
pub fn scored_candidates(candidates: &Vec<Posting>, allow: &Option<RoaringTreemap>) -> (r: Result<
    Vec<Admitted>,
    ServiceError,
>)
    ensures
        match r {
            Ok(v) => (forall|i: int|
                0 <= i < candidates@.len() ==> (#[trigger] candidates@[i]).row is Some) && v@
                == admitted(candidates@, *allow),
            Err(e) => exists|i: int|
                0 <= i < candidates@.len() && (#[trigger] candidates@[i]).row is None && e@
                    == Failure::Internal(filter_bitmap::no_row(candidates@[i].doc)) && forall|
                    j: int,
                |
                    0 <= j < i ==> (#[trigger] candidates@[j]).row is Some,
        },
{
    let mut out: Vec<Admitted> = Vec::new();
    let mut i: usize = 0;
    while i < candidates.len()
        invariant
            i <= candidates@.len(),
            forall|j: int| 0 <= j < i ==> (#[trigger] candidates@[j]).row is Some,
            out@ == admitted(candidates@.take(i as int), *allow),
        decreases candidates.len() - i,
    {
        proof {
            assert(candidates@.take(i as int + 1).drop_last() =~= candidates@.take(i as int));
        }
        let doc: u32 = candidates[i].doc;
        match candidates[i].row {
            None => {
                let n = text::dec(doc as u64);
                return Err(
                    ServiceError::Internal(text::cat3("doc ", n.as_str(), " has no _rowid")),
                );
            },
            Some(row) => {
                let allowed = match allow {
                    Some(t) => mask::has_row(t, row),
                    None => true,
                };
                if allowed {
                    match candidates[i].weights {
                        Some(weights) => {
                            out.push(Admitted { doc, row, weights });
                        },
                        None => {},
                    }
                }
            },
        }
        i += 1;
    }
    proof {
        assert(candidates@.take(candidates@.len() as int) =~= candidates@);
    }
    Ok(out)
}

/// The places of the weights to read, each once, ascending.
pub fn weights_to_read(admitted: &Vec<Admitted>) -> (r: Vec<u64>)
    ensures
        mask::ascending(r@),
        forall|w: u64|
            r@.contains(w) <==> exists|i: int|
                0 <= i < admitted@.len() && (#[trigger] admitted@[i]).weights == w,
{
    let mut all: Vec<u64> = Vec::new();
    let mut i: usize = 0;
    while i < admitted.len()
        invariant
            i <= admitted@.len(),
            all@.len() == i,
            forall|j: int| 0 <= j < i ==> #[trigger] all@[j] == admitted@[j].weights,
        decreases admitted.len() - i,
    {
        all.push(admitted[i].weights);
        i += 1;
    }
    let out = doc_fetch::distinct_rows(all);
    proof {
        assert forall|w: u64| out@.contains(w) <==> exists|i: int|
            0 <= i < admitted@.len() && (#[trigger] admitted@[i]).weights == w by {
            if all@.contains(w) {
                let k = choose|k: int| 0 <= k < all@.len() && all@[k] == w;
                assert(admitted@[k].weights == w);
            }
            if exists|i: int| 0 <= i < admitted@.len() && (#[trigger] admitted@[i]).weights == w {
                let k = choose|k: int|
                    0 <= k < admitted@.len() && (#[trigger] admitted@[k]).weights == w;
                assert(all@[k] == w);
            }
        }
    }
    out
}

/// Checks that the dictionary had every wanted place.
pub fn check_weights(weights_field: &str, all_found: bool, wanted: usize, read: usize) -> (r: Result<
    (),
    ServiceError,
>)
    ensures
        match r {
            Ok(_) => all_found && wanted == read,
            Err(e) => !(all_found && wanted == read) && e@ == Failure::Internal(
                weights_field@ + ": a weights ordinal is missing from its dictionary"@,
            ),
        },
{
    if !all_found || read != wanted {
        Err(
            ServiceError::Internal(
                text::cat2(weights_field, ": a weights ordinal is missing from its dictionary"),
            ),
        )
    } else {
        Ok(())
    }
}

/// A candidate with its score, none when it shares nothing with the query,
/// and the bytes of its key.
pub struct ScoredDoc {
    pub doc: u32,
    pub row: u64,
    pub score: Option<u32>,
    pub pk: Option<Vec<u8>>,
}

/// The message for a candidate without a key.
pub open spec fn no_key(doc: u32) -> Seq<char> {
    "doc "@ + text::decimal(doc as nat) + " has no _pk"@
}

/// The message for a candidate whose key cannot be read.
pub open spec fn bad_key(doc: u32) -> Seq<char> {
    "_pk of doc "@ + text::decimal(doc as nat) + ": not a canonical key"@
}

/// Adds a scored candidate to the best hits: nothing when it shares nothing
/// with the query or certainly does not enter; internal when its key is
/// missing or cannot be read.
pub fn add_scored(top: &mut TopK, d: &ScoredDoc) -> (r: Result<(), ServiceError>)
    requires
        old(top).well_formed(),
    ensures
        final(top).well_formed(),
        final(top).capacity() == old(top).capacity(),
        ({
            let enters = d.score is Some && old(top).capacity() > 0 && (old(top).best().len()
                == old(top).capacity() ==> float::key32(d.score->0) >= float::key32(
                old(top).best().last().score,
            ));
            match r {
                Ok(_) => if enters {
                    d.pk is Some && exists|pk: PrimaryKey|
                        key::encodes(d.pk->0@, pk@) && #[trigger] ordering::kept(
                            ordering::inserted(
                                topk::ByRank,
                                old(top).best(),
                                (Scored { row_id: d.row, pk, score: d.score->0 }),
                            ),
                            old(top).capacity(),
                        ) == final(top).best()
                } else {
                    final(top).best() == old(top).best()
                },
                Err(e) => enters && final(top).best() == old(top).best() && (if d.pk is None {
                    e@ == Failure::Internal(no_key(d.doc))
                } else {
                    (forall|k: Key| !key::encodes(d.pk->0@, k)) && e@ == Failure::Internal(
                        bad_key(d.doc),
                    )
                }),
            }
        }),
{
    let score: u32 = match d.score {
        Some(score) => score,
        None => {
            return Ok(());
        },
    };
    if !top.may_admit(score) {
        return Ok(());
    }
    let n = text::dec(d.doc as u64);
    match &d.pk {
        None => Err(ServiceError::Internal(text::cat3("doc ", n.as_str(), " has no _pk"))),
        Some(bytes) => match PrimaryKey::from_canonical(bytes.as_slice()) {
            None => Err(
                ServiceError::Internal(
                    text::cat3("_pk of doc ", n.as_str(), ": not a canonical key"),
                ),
            ),
            Some(pk) => {
                let hit = Scored { row_id: d.row, pk, score };
                top.push(hit);
                proof {
                    assert(key::encodes(d.pk->0@, hit.pk@));
                }
                Ok(())
            },
        },
    }
}

} // verus!
