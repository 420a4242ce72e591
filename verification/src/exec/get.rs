//! Point reads by key: the tail first, then one durable lookup of the keys
//! that it does not hold.

use crate::error::{Failure, ServiceError};
use crate::exec::tail_merge::TailLookup;
use crate::json::pk;
use crate::key::{Key, PrimaryKey};
use vstd::prelude::*;
use vstd::string::*;

verus! {

/// Where the answer for a key comes from.
#[derive(Clone, Copy, Debug, PartialEq, Eq, Structural)]
pub enum Slot {
    /// A place among the tail's rows.
    Tail(usize),
    /// The tail deleted the key.
    Miss,
    /// A place among the durable lookups.
    Durable(usize),
}

/// The reads that answer a request.
pub struct GetPlan {
    pub slots: Vec<Slot>,
    pub tail_ids: Vec<u64>,
    pub durable: Vec<PrimaryKey>,
}

/// The tail's rows of some lookups.
pub open spec fn tail_ids(lookups: Seq<TailLookup>) -> Seq<u64>
    decreases lookups.len(),
{
    if lookups.len() == 0 {
        Seq::empty()
    } else {
        match lookups.last() {
            TailLookup::Present(row) => tail_ids(lookups.drop_last()).push(row),
            _ => tail_ids(lookups.drop_last()),
        }
    }
}

/// The keys that the tail does not hold.
pub open spec fn absent_keys(pks: Seq<PrimaryKey>, lookups: Seq<TailLookup>) -> Seq<Key>
    decreases lookups.len(),
{
    if lookups.len() == 0 {
        Seq::empty()
    } else {
        let before = absent_keys(pks, lookups.drop_last());
        if lookups.last() is Absent {
            before.push(pks[lookups.len() - 1]@)
        } else {
            before
        }
    }
}

/// The slot of the last of some lookups.
pub open spec fn slot_of(pks: Seq<PrimaryKey>, lookups: Seq<TailLookup>) -> Slot {
    match lookups.last() {
        TailLookup::Present(_) => Slot::Tail(tail_ids(lookups.drop_last()).len() as usize),
        TailLookup::Deleted => Slot::Miss,
        TailLookup::Absent => Slot::Durable(absent_keys(pks, lookups.drop_last()).len() as usize),
    }
}

/// The reads for `pks`, given what the tail holds of each.
pub fn plan_get(pks: &Vec<PrimaryKey>, lookups: &Vec<TailLookup>) -> (r: GetPlan)
    requires
        pks@.len() == lookups@.len(),
    ensures
        r.slots@.len() == pks@.len(),
        forall|i: int|
            0 <= i < pks@.len() ==> #[trigger] r.slots@[i] == slot_of(
                pks@,
                lookups@.take(i + 1),
            ),
        r.tail_ids@ == tail_ids(lookups@),
        pk::key_views(r.durable@) == absent_keys(pks@, lookups@),
{
    let mut slots: Vec<Slot> = Vec::new();
    let mut ids: Vec<u64> = Vec::new();
    let mut durable: Vec<PrimaryKey> = Vec::new();
    let mut i: usize = 0;
    proof {
        assert(pk::key_views(durable@) =~= absent_keys(pks@, lookups@.take(0)));
    }
    while i < pks.len()
        invariant
            i <= pks@.len(),
            pks@.len() == lookups@.len(),
            slots@.len() == i,
            forall|j: int|
                0 <= j < i ==> #[trigger] slots@[j] == slot_of(pks@, lookups@.take(j + 1)),
            ids@ == tail_ids(lookups@.take(i as int)),
            pk::key_views(durable@) == absent_keys(pks@, lookups@.take(i as int)),
        decreases pks.len() - i,
    {
        let ghost was = durable@;
        proof {
            assert(lookups@.take(i as int + 1).drop_last() =~= lookups@.take(i as int));
            assert(lookups@.take(i as int + 1).last() == lookups@[i as int]);
            assert(durable@.len() == absent_keys(pks@, lookups@.take(i as int)).len());
        }
        let slot = match lookups[i] {
            TailLookup::Present(row) => {
                ids.push(row);
                Slot::Tail(ids.len() - 1)
            },
            TailLookup::Deleted => Slot::Miss,
            TailLookup::Absent => {
                durable.push(pks[i].clone());
                proof {
                    assert(pk::key_views(durable@) =~= pk::key_views(was).push(pks@[i as int]@));
                }
                Slot::Durable(durable.len() - 1)
            },
        };
        slots.push(slot);
        i += 1;
    }
    proof {
        assert(lookups@.take(lookups@.len() as int) =~= lookups@);
    }
    GetPlan { slots, tail_ids: ids, durable }
}

/// The row that answers a key.
#[derive(Clone, Copy, Debug, PartialEq, Eq, Structural)]
pub enum Pick {
    Tail(usize),
    Durable(usize),
}

/// The answer of a slot, given how many tail rows were fetched and which
/// durable keys were found.
pub open spec fn pick_of(slot: Slot, found: Seq<bool>) -> Option<Pick> {
    match slot {
        Slot::Tail(i) => Some(Pick::Tail(i)),
        Slot::Miss => None,
        Slot::Durable(i) => if i < found.len() && found[i as int] {
            Some(Pick::Durable(i))
        } else {
            None
        },
    }
}

/// Whether a slot's tail row was not fetched.
pub open spec fn not_fetched(slot: Slot, tail_rows: nat) -> bool {
    slot matches Slot::Tail(i) && i >= tail_rows
}

/// One answer per slot, in request order; internal when a tail row was not
/// fetched.
pub fn answer(slots: &Vec<Slot>, tail_rows: usize, found: &Vec<bool>) -> (r: Result<
    Vec<Option<Pick>>,
    ServiceError,
>)
    ensures
        match r {
            Ok(picks) => {
                &&& forall|i: int|
                    0 <= i < slots@.len() ==> !not_fetched(#[trigger] slots@[i], tail_rows as nat)
                &&& picks@ == Seq::new(slots@.len(), |i: int| pick_of(slots@[i], found@))
            },
            Err(e) => (exists|i: int|
                0 <= i < slots@.len() && not_fetched(#[trigger] slots@[i], tail_rows as nat)) && e@
                == Failure::Internal("a tail row was not fetched"@),
        },
{
    let mut out: Vec<Option<Pick>> = Vec::new();
    let mut i: usize = 0;
    while i < slots.len()
        invariant
            i <= slots@.len(),
            out@.len() == i,
            forall|j: int|
                0 <= j < i ==> !not_fetched(#[trigger] slots@[j], tail_rows as nat) && out@[j]
                    == pick_of(slots@[j], found@),
        decreases slots.len() - i,
    {
        let pick = match slots[i] {
            Slot::Tail(at) => {
                if at >= tail_rows {
                    assert(not_fetched(slots@[i as int], tail_rows as nat));
                    return Err(ServiceError::Internal("a tail row was not fetched".to_owned()));
                }
                Some(Pick::Tail(at))
            },
            Slot::Miss => None,
            Slot::Durable(at) => {
                if at < found.len() && found[at] {
                    Some(Pick::Durable(at))
                } else {
                    None
                }
            },
        };
        out.push(pick);
        i += 1;
    }
    proof {
        assert(out@ =~= Seq::new(slots@.len(), |i: int| pick_of(slots@[i], found@)));
    }
    Ok(out)
}

/// A deleted key is a miss, a key of the tail is answered by the tail, and
/// only the other keys are looked up durably.
pub proof fn the_tail_answers_first(
    pks: Seq<PrimaryKey>,
    lookups: Seq<TailLookup>,
    i: int,
    found: Seq<bool>,
)
    requires
        0 <= i < pks.len(),
        pks.len() == lookups.len(),
    ensures
        lookups[i] is Deleted ==> pick_of(slot_of(pks, lookups.take(i + 1)), found) is None,
        lookups[i] is Present <==> (pick_of(
            slot_of(pks, lookups.take(i + 1)),
            found,
        ) matches Some(p) && p is Tail),
{
    assert(lookups.take(i + 1).last() == lookups[i]);
}

} // verus!
