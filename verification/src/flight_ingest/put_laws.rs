//! What the offsets of a put are after all answers.

use crate::flight_ingest::put;
use crate::flight_ingest::put::{AppendAck, PartitionOffsets};
use vstd::prelude::*;

verus! {

/// The offsets of some answers.
pub open spec fn offsets_of(acks: Seq<AppendAck>) -> Seq<PartitionOffsets>
    decreases acks.len(),
{
    if acks.len() == 0 {
        Seq::empty()
    } else {
        put::offsets_with(offsets_of(acks.drop_last()), acks.last(), 0)
    }
}

/// Offsets in the order of their partitions, one entry for each.
pub open spec fn partitions_ascend(os: Seq<PartitionOffsets>) -> bool {
    forall|i: int, j: int|
        0 <= i < j < os.len() ==> (#[trigger] os[i]).partition < (#[trigger] os[j]).partition
}

/// Whether an entry runs from the least base to the greatest last offset of
/// a partition's answers.
#[verifier::opaque]
pub open spec fn spans(o: PartitionOffsets, acks: Seq<AppendAck>) -> bool {
    &&& forall|i: int|
        0 <= i < acks.len() && (#[trigger] acks[i]).partition == o.partition ==> o.base_offset
            <= acks[i].base_offset && acks[i].last_offset <= o.last_offset
    &&& exists|i: int|
        0 <= i < acks.len() && (#[trigger] acks[i]).partition == o.partition
            && acks[i].base_offset == o.base_offset
    &&& exists|i: int|
        0 <= i < acks.len() && (#[trigger] acks[i]).partition == o.partition
            && acks[i].last_offset == o.last_offset
}

/// The entry of an answer alone.
spec fn entry_of(a: AppendAck) -> PartitionOffsets {
    PartitionOffsets {
        partition: a.partition,
        base_offset: a.base_offset,
        last_offset: a.last_offset,
    }
}

/// An entry grown by an answer.
spec fn grown(o: PartitionOffsets, a: AppendAck) -> PartitionOffsets {
    PartitionOffsets {
        partition: a.partition,
        base_offset: if o.base_offset <= a.base_offset {
            o.base_offset
        } else {
            a.base_offset
        },
        last_offset: if o.last_offset >= a.last_offset {
            o.last_offset
        } else {
            a.last_offset
        },
    }
}

proof fn offsets_with_is(os: Seq<PartitionOffsets>, a: AppendAck, j: int) -> (at: int)
    requires
        partitions_ascend(os),
        0 <= j <= os.len(),
        forall|i: int| 0 <= i < j ==> (#[trigger] os[i]).partition < a.partition,
    ensures
        j <= at <= os.len(),
        forall|i: int| 0 <= i < at ==> (#[trigger] os[i]).partition < a.partition,
        at < os.len() ==> os[at].partition >= a.partition,
        put::offsets_with(os, a, j) == (if at < os.len() && os[at].partition == a.partition {
            os.update(at, grown(os[at], a))
        } else {
            os.insert(at, entry_of(a))
        }),
    decreases os.len() - j,
{
    if j < os.len() && os[j].partition < a.partition {
        offsets_with_is(os, a, j + 1)
    } else {
        if j == os.len() {
            assert(os.push(entry_of(a)) =~= os.insert(j, entry_of(a)));
        }
        j
    }
}

proof fn span_pushed(o: PartitionOffsets, acks: Seq<AppendAck>, a: AppendAck)
    requires
        spans(o, acks),
    ensures
        o.partition == a.partition ==> spans(grown(o, a), acks.push(a)),
        o.partition != a.partition ==> spans(o, acks.push(a)),
{
    reveal(spans);
    let all = acks.push(a);
    let n = acks.len() as int;
    let p = choose|i: int|
        0 <= i < acks.len() && (#[trigger] acks[i]).partition == o.partition
            && acks[i].base_offset == o.base_offset;
    let q = choose|i: int|
        0 <= i < acks.len() && (#[trigger] acks[i]).partition == o.partition
            && acks[i].last_offset == o.last_offset;
    assert(all[p] == acks[p] && all[q] == acks[q] && all[n] == a);
    let r = if o.partition == a.partition {
        grown(o, a)
    } else {
        o
    };
    assert forall|i: int|
        0 <= i < all.len() && (#[trigger] all[i]).partition == r.partition implies r.base_offset
        <= all[i].base_offset && all[i].last_offset <= r.last_offset by {
        if i < n {
            assert(all[i] == acks[i]);
        }
    }
}

/// Whether every answer's partition has an entry.
pub open spec fn all_have_entries(os: Seq<PartitionOffsets>, acks: Seq<AppendAck>) -> bool {
    forall|i: int| 0 <= i < acks.len() ==> has_entry(os, #[trigger] acks[i])
}

/// Whether an answer's partition has an entry.
pub open spec fn has_entry(os: Seq<PartitionOffsets>, a: AppendAck) -> bool {
    exists|j: int| 0 <= j < os.len() && (#[trigger] os[j]).partition == a.partition
}

/// Whether every entry spans its partition's answers.
pub open spec fn all_span(os: Seq<PartitionOffsets>, acks: Seq<AppendAck>) -> bool {
    forall|i: int| 0 <= i < os.len() ==> spans(#[trigger] os[i], acks)
}

proof fn order_stays(os: Seq<PartitionOffsets>, a: AppendAck)
    requires
        partitions_ascend(os),
    ensures
        partitions_ascend(put::offsets_with(os, a, 0)),
{
    let at = offsets_with_is(os, a, 0);
    let r = put::offsets_with(os, a, 0);
    let found = at < os.len() && os[at].partition == a.partition;
    assert forall|i: int, j: int| 0 <= i < j < r.len() implies (#[trigger] r[i]).partition < (
    #[trigger] r[j]).partition by {
        if found {
            assert(r[i].partition == os[i].partition && r[j].partition == os[j].partition);
        } else if j < at {
            assert(r[i] == os[i] && r[j] == os[j]);
        } else if j == at {
            assert(r[i] == os[i]);
        } else {
            assert(r[j] == os[j - 1]);
            if j - 1 > at {
                assert(os[at].partition < os[j - 1].partition);
            }
            if i < at {
                assert(r[i] == os[i]);
            } else if i > at {
                assert(r[i] == os[i - 1]);
            }
        }
    }
}

proof fn entries_stay(os: Seq<PartitionOffsets>, before: Seq<AppendAck>, a: AppendAck)
    requires
        partitions_ascend(os),
        all_have_entries(os, before),
    ensures
        all_have_entries(put::offsets_with(os, a, 0), before.push(a)),
{
    let at = offsets_with_is(os, a, 0);
    let r = put::offsets_with(os, a, 0);
    let acks = before.push(a);
    let found = at < os.len() && os[at].partition == a.partition;
    assert forall|i: int| 0 <= i < acks.len() implies has_entry(r, #[trigger] acks[i]) by {
        if i < before.len() {
            assert(has_entry(os, before[i]));
            let j = choose|j: int|
                0 <= j < os.len() && (#[trigger] os[j]).partition == before[i].partition;
            if found || j < at {
                assert(r[j].partition == os[j].partition);
            } else {
                assert(r[j + 1] == os[j]);
            }
        } else {
            assert(r[at].partition == a.partition);
        }
    }
}

proof fn a_new_entry_spans(os: Seq<PartitionOffsets>, before: Seq<AppendAck>, a: AppendAck)
    requires
        all_have_entries(os, before),
        !has_entry(os, a),
    ensures
        spans(entry_of(a), before.push(a)),
{
    reveal(spans);
    let acks = before.push(a);
    assert(acks[before.len() as int] == a);
    assert forall|m: int|
        0 <= m < acks.len() && (#[trigger] acks[m]).partition == a.partition implies m
        == before.len() by {
        if m < before.len() {
            assert(acks[m] == before[m]);
            assert(has_entry(os, before[m]));
            let j = choose|j: int|
                0 <= j < os.len() && (#[trigger] os[j]).partition == before[m].partition;
            assert(os[j].partition == a.partition);
        }
    }
}

proof fn spans_stay(os: Seq<PartitionOffsets>, before: Seq<AppendAck>, a: AppendAck)
    requires
        partitions_ascend(os),
        all_have_entries(os, before),
        all_span(os, before),
    ensures
        all_span(put::offsets_with(os, a, 0), before.push(a)),
{
    let at = offsets_with_is(os, a, 0);
    let r = put::offsets_with(os, a, 0);
    let acks = before.push(a);
    if at < os.len() && os[at].partition == a.partition {
        assert forall|i: int| 0 <= i < r.len() implies spans(#[trigger] r[i], acks) by {
            span_pushed(os[i], before, a);
            if i != at {
                assert(os[i].partition != os[at].partition);
            }
        }
    } else {
        assert forall|j: int| 0 <= j < os.len() implies (#[trigger] os[j]).partition
            != a.partition by {
            if j > at {
                assert(os[at].partition < os[j].partition);
            }
        }
        a_new_entry_spans(os, before, a);
        assert forall|i: int| 0 <= i < r.len() implies spans(#[trigger] r[i], acks) by {
            if i < at {
                assert(r[i] == os[i]);
                span_pushed(os[i], before, a);
            } else if i > at {
                assert(r[i] == os[i - 1]);
                span_pushed(os[i - 1], before, a);
            }
        }
    }
}

/// Over all answers there is one entry for each partition that answered, in
/// the order of the partitions, from its least base to its greatest last
/// offset.
pub proof fn offsets_span_the_answers(acks: Seq<AppendAck>)
    ensures
        partitions_ascend(offsets_of(acks)),
        all_span(offsets_of(acks), acks),
        all_have_entries(offsets_of(acks), acks),
    decreases acks.len(),
{
    if acks.len() > 0 {
        let before = acks.drop_last();
        let a = acks.last();
        let os = offsets_of(before);
        offsets_span_the_answers(before);
        assert(before.push(a) =~= acks);
        order_stays(os, a);
        entries_stay(os, before, a);
        spans_stay(os, before, a);
    }
}

} // verus!
