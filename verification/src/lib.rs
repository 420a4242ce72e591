//! Query-side logic of a document collection service.

pub mod bytes;
pub mod catalog_cache;
pub mod cells;
pub mod civil;
pub mod collection;
pub mod crc;
pub mod error;
pub mod exec;
pub mod flight;
pub mod flight_ingest;
pub mod flight_laws;
pub mod float;
pub mod hot;
pub mod ir;
pub mod json;
pub mod key;
pub mod math;
pub mod meaning;
pub mod norm_laws;
pub mod ordering;
pub mod placement;
pub mod query;
pub mod read;
pub mod read_laws;
pub mod scan;
pub mod scan_laws;
pub mod service;
pub mod service_laws;
pub mod sparse;
pub mod sql;
pub mod text;
pub mod values;
