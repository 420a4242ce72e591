//! What a ticket reads: just the state that it was given for.

use crate::flight;
use crate::flight::TicketV;
use crate::ir::ConsistencyV;
use vstd::prelude::*;

verus! {

/// A ticket reads at the pinned version where it names one, at least its
/// token's writes where it has only a token, and else the latest state. It is
/// refused just where its token cannot be read, or where it pins a version
/// without a token.
pub proof fn tickets_read_what_they_say(t: TicketV, parsed: Option<Seq<(u64, u32, u64)>>)
    ensures
        match flight::ticket_read(t, parsed) {
            Ok(ConsistencyV::Pinned { manifest_version, token }) => t.pinned_manifest == Some(
                manifest_version,
            ) && t.token is Some && parsed == Some(token),
            Ok(ConsistencyV::AtLeast(token)) => t.pinned_manifest is None && t.token is Some
                && parsed == Some(token),
            Ok(ConsistencyV::Strong) => t.pinned_manifest is None && t.token is None,
            Ok(ConsistencyV::Eventual) => false,
            Err(_) => (t.token is Some && parsed is None) || (t.pinned_manifest is Some && t.token
                is None),
        },
{
}

} // verus!
