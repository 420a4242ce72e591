//! The hits of a search and its answer.

use crate::exec::doc_fetch;
use crate::exec::doc_fetch::FetchedRow;
use crate::exec::order;
use crate::exec::order::EffectiveSort;
use crate::exec::project;
use crate::exec::project::{FieldEntry, FieldSource};
use crate::exec::schema::Ranked;
use crate::hot::HotKind;
use crate::ir::{ConsistencyToken, Projection, SparseVector, TotalHits};
use crate::json::value::Json;
use crate::key::PrimaryKey;
use crate::values;
use crate::values::{FieldValue, SortValue};
use vstd::prelude::*;

verus! {

/// One hit; the score is its bits.
pub struct Hit {
    pub pk: PrimaryKey,
    pub score: u32,
    pub sort_values: Vec<SortValue>,
    pub source: Option<Vec<(String, Json)>>,
    pub vectors: Vec<(String, Vec<u32>)>,
    pub sparse_vectors: Vec<(String, SparseVector)>,
    pub highlight: Vec<(String, Vec<String>)>,
    pub fields: Vec<FieldEntry>,
}

/// The hits of one group.
pub struct HitGroup {
    pub key: FieldValue,
    pub hits: Vec<Hit>,
}

/// The answer to a search.
pub struct SearchResponse {
    pub hits: Vec<Hit>,
    pub total: Option<TotalHits>,
    pub aggregations: Option<Json>,
    pub groups: Option<Vec<HitGroup>>,
    /// The state that the read saw.
    pub read_token: ConsistencyToken,
    /// The hot structures that the read used, in order.
    pub hot_used: Vec<HotKind>,
}

/// The hit of a candidate and its fetched row; `sources` gives what the
/// source has at the projection's fields, in order.
pub fn hit(
    select: &Projection,
    sort: &EffectiveSort,
    ranked: &Ranked,
    row: FetchedRow,
    sources: Vec<FieldSource>,
) -> (r: Hit)
    requires
        sources@.len() == select.fields@.len(),
    ensures
        r.pk@ == row.pk@,
        r.score == ranked.score,
        values::sort_views(r.sort_values@) == order::hit_values(order::keys_of(*sort), ranked@, 0),
        project::opt_entries(r.source) == (match row@.source {
            Some(s) => project::source_view(s, select@.source),
            None => None,
        }),
        doc_fetch::dense_views(r.vectors@) == row@.vectors,
        doc_fetch::sparse_views(r.sparse_vectors@) == row@.sparse_vectors,
        r.highlight@.len() == 0,
        project::field_entry_views(r.fields@) == (if row@.source is Some {
            project::valued_fields(select@.fields, sources@)
        } else {
            Seq::empty()
        }),
{
    let sort_values = sort.sort_values(ranked);
    let doc = project::stored_doc(row, select, sources);
    Hit {
        pk: doc.row.pk,
        score: ranked.score,
        sort_values,
        source: doc.row.source,
        vectors: doc.row.vectors,
        sparse_vectors: doc.row.sparse_vectors,
        highlight: Vec::new(),
        fields: doc.fields,
    }
}

} // verus!
