//! The operators of a search.

pub mod agg_laws;
pub mod aggs;
pub mod ann;
pub mod ann_exact_laws;
pub mod ann_laws;
pub mod columns;
pub mod count_laws;
pub mod decode;
pub mod doc_fetch;
pub mod domain_laws;
pub mod fetch;
pub mod fetch_laws;
pub mod field_buffer;
pub mod filter_bitmap;
pub mod fusion;
pub mod get;
pub mod group_laws;
pub mod groups;
pub mod hits;
pub mod kept_laws;
pub mod mask;
pub mod order;
pub mod order_laws;
pub mod paging_laws;
pub mod plan;
pub mod plan_laws;
pub mod planner;
pub mod planner_laws;
pub mod project;
pub mod rank_laws;
pub mod schema;
pub mod scroll;
pub mod scroll_laws;
pub mod source_laws;
pub mod sparse;
pub mod sparse_unit;
pub mod tail_laws;
pub mod tail_merge;
pub mod tantivy_search;
pub mod top_hits;
pub mod topk;
pub mod topk_laws;
pub mod unit_laws;
pub mod value_laws;
pub mod vector_rows;
