//! Bulk ingest of Arrow record batches into collections and streams: the
//! target of a put, how its columns map to documents and records, and the
//! steps of the put itself.

pub mod collection;
pub mod document_laws;
pub mod put;
pub mod put_laws;
pub mod record_laws;
pub mod rows;
pub mod shape;
pub mod stream;
pub mod target;
pub mod target_laws;
