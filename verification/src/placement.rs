//! Where a collection's reads run.

use crate::error::{Failure, ServiceError};
use vstd::prelude::*;
use vstd::string::*;

verus! {

/// The header of a forwarded request.
pub const FORWARDED_HEADER: &'static str = "operon-forwarded";

/// The node that owns a collection's reads.
#[derive(Clone, Debug)]
pub enum Owner {
    Local,
    Remote { node_id: u64, addr: String },
}

/// Every collection is owned by this node.
#[derive(Clone, Copy, Debug)]
pub struct LocalOnly;

impl LocalOnly {
    /// The owner of a collection.
    pub fn owner(&self, _namespace: u64, _collection: u64) -> (r: Owner)
        ensures
            r is Local,
    {
        Owner::Local
    }
}

/// The error of a read that cannot be forwarded.
pub open spec fn no_transport_error() -> Failure {
    Failure::Unavailable("no remote read transport is configured"@)
}

/// No transport: no read can be forwarded.
#[derive(Clone, Copy, Debug)]
pub struct NoRemoteReads;

impl NoRemoteReads {
    /// Refuses a forwarded read.
    pub fn refuse<T>(&self) -> (r: Result<T, ServiceError>)
        ensures
            r matches Err(e) && e@ == no_transport_error(),
    {
        Err(ServiceError::Unavailable("no remote read transport is configured".to_owned()))
    }
}

} // verus!
