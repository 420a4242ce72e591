//! Keys in key order: the durable side of scroll and of constant-score
//! pages, merged with the tail by [`crate::exec::tail_merge::TailMerge`].
//!
//! The durable side is either a merge of every split's keys, each checked
//! against the filter's rows, or the filter's rows looked up and sorted.

use crate::bytes;
use crate::error::{Failure, ServiceError};
use crate::exec::mask;
use crate::exec::mask::RowSet;
use crate::exec::sparse;
use crate::exec::tail_merge;
use crate::key;
use crate::key::{Key, PrimaryKey};
use crate::ordering;
use crate::ordering::{Order, Ranking, Sign};
use crate::text;
use roaring::RoaringTreemap;
use vstd::prelude::*;
use vstd::string::*;

verus! {

/// Most keys of a durable batch.
pub const MAX_BATCH_ROWS: usize = 1_024;

/// The keys of a durable batch: as many as wanted, at least one and at most
/// [`MAX_BATCH_ROWS`].
pub fn batch_rows(wanted: usize) -> (r: usize)
    ensures
        r == crate::math::clamped(wanted as int, 1, MAX_BATCH_ROWS as int),
{
    if wanted < 1 {
        1
    } else if wanted > MAX_BATCH_ROWS {
        MAX_BATCH_ROWS
    } else {
        wanted
    }
}

/// The next key of a split: its canonical bytes, the split and the row.
pub struct Head {
    pub key: Vec<u8>,
    pub split: usize,
    pub row: u64,
}

/// The order of heads: by key, then split, then row.
pub open spec fn head_sign(a: Head, b: Head) -> Sign {
    bytes::lex(a.key@, b.key@).or(
        ordering::int_sign(a.split as int, b.split as int).or(
            ordering::int_sign(a.row as int, b.row as int),
        ),
    )
}

/// The order of heads.
pub struct ByHead;

impl Ranking<Head> for ByHead {
    open spec fn le(&self, a: Head, b: Head) -> bool {
        !(head_sign(a, b) is Greater)
    }
}

impl Order<Head> for ByHead {
    fn leq(&self, a: &Head, b: &Head) -> (r: bool) {
        match bytes::lex_sign(a.key.as_slice(), b.key.as_slice()) {
            Sign::Less => true,
            Sign::Greater => false,
            Sign::Equal => if a.split != b.split {
                a.split < b.split
            } else {
                a.row <= b.row
            },
        }
    }
}

/// Every head.
pub open spec fn any_head() -> spec_fn(Head) -> bool {
    |h: Head| true
}

/// The order of bytes is total and transitive.
pub proof fn lex_is_linear(a: Seq<u8>, b: Seq<u8>, c: Seq<u8>)
    ensures
        bytes::lex(b, a) == bytes::lex(a, b).flip(),
        bytes::lex(a, b) is Equal <==> a == b,
        bytes::lex(a, b) is Less && bytes::lex(b, c) is Less ==> bytes::lex(a, c) is Less,
{
    bytes::lex_total(a, b);
    bytes::lex_irreflexive(a);
    if bytes::lex_lt(a, b) && bytes::lex_lt(b, c) {
        bytes::lex_transitive(a, b, c);
        bytes::lex_total(a, c);
    }
}

/// The order of heads is total and transitive.
pub proof fn heads_are_linear()
    ensures
        ordering::linear(ByHead, any_head()),
{
    assert forall|a: Head, b: Head| #[trigger] ByHead.le(a, b) || ByHead.le(b, a) by {
        lex_is_linear(a.key@, b.key@, a.key@);
    }
    assert forall|a: Head, b: Head, c: Head|
        #[trigger] ByHead.le(a, b) && #[trigger] ByHead.le(b, c) implies ByHead.le(a, c) by {
        lex_is_linear(a.key@, b.key@, c.key@);
        lex_is_linear(b.key@, c.key@, a.key@);
        lex_is_linear(a.key@, c.key@, b.key@);
    }
}

/// The merge of the splits' keys: the next key of every split that has one.
pub struct Merge {
    heads: Vec<Head>,
}

impl Merge {
    /// The heads, least first.
    pub closed spec fn heads(&self) -> Seq<Head> {
        self.heads@
    }

    /// The heads are in order.
    pub open spec fn well_formed(&self) -> bool {
        ordering::is_ordered(ByHead, self.heads())
    }

    /// A merge of the first keys of the splits, in manifest order.
    pub fn new(heads: Vec<Head>) -> (r: Merge)
        ensures
            r.well_formed(),
            r.heads() == ordering::sorted(ByHead, heads@),
    {
        proof {
            heads_are_linear();
            ordering::sorted_ordered(ByHead, heads@, any_head());
        }
        Merge { heads: ordering::sort(&ByHead, heads) }
    }

    /// Takes the least head out; its split's next key is to be
    /// [pushed](Merge::push) before the next call.
    pub fn pop(&mut self) -> (r: Option<Head>)
        requires
            old(self).well_formed(),
        ensures
            final(self).well_formed(),
            match r {
                Some(h) => {
                    &&& old(self).heads().len() > 0
                    &&& h == old(self).heads()[0]
                    &&& final(self).heads() == old(self).heads().drop_first()
                },
                None => old(self).heads().len() == 0 && final(self).heads() == old(self).heads(),
            },
    {
        if self.heads.len() == 0 {
            return None;
        }
        let ghost all = self.heads@;
        let head = self.heads.remove(0);
        proof {
            assert(self.heads@ =~= all.drop_first());
            assert forall|i: int, j: int| 0 <= i <= j < self.heads@.len() implies ByHead.le(
                #[trigger] self.heads@[i],
                #[trigger] self.heads@[j],
            ) by {
                assert(self.heads@[i] == all[i + 1] && self.heads@[j] == all[j + 1]);
            }
        }
        Some(head)
    }

    /// Adds the next key of a split.
    pub fn push(&mut self, head: Head)
        requires
            old(self).well_formed(),
        ensures
            final(self).well_formed(),
            final(self).heads() == ordering::inserted(ByHead, old(self).heads(), head),
    {
        proof {
            heads_are_linear();
            ordering::inserted_ordered(ByHead, self.heads@, head, any_head());
        }
        ordering::insert(&ByHead, &mut self.heads, head);
    }
}

/// Keys leave a merge in ascending order: when every split's keys ascend,
/// no head that is left or pushed afterwards comes before one taken out.
pub proof fn heads_leave_in_order(heads: Seq<Head>, pushed: Head)
    requires
        ordering::is_ordered(ByHead, heads),
        heads.len() > 0,
        ByHead.le(heads[0], pushed),
    ensures
        ordering::all_in(
            ordering::inserted(ByHead, heads.drop_first(), pushed),
            |h: Head| ByHead.le(heads[0], h),
        ),
{
    let on = |h: Head| ByHead.le(heads[0], h);
    let rest = heads.drop_first();
    assert forall|i: int| 0 <= i < rest.len() implies on(#[trigger] rest[i]) by {
        assert(rest[i] == heads[i + 1]);
        assert(ByHead.le(heads[0], heads[i + 1]));
    }
    ordering::inserted_all(ByHead, rest, pushed, on);
}

/// The message for a term that is no key.
pub open spec fn bad_term() -> Seq<char> {
    "_pk term: not a canonical key"@
}

/// A key taken out of a merge: kept when its row is in the filter.
pub fn walk_row(filter: &Option<RoaringTreemap>, head: Head) -> (r: Result<
    Option<(u64, PrimaryKey)>,
    ServiceError,
>)
    ensures
        ({
            let wanted = filter matches Some(t) ==> mask::treemap_rows(*t).contains(head.row);
            match r {
                Ok(Some((row, pk))) => wanted && row == head.row && key::encodes(
                    head.key@,
                    pk@,
                ),
                Ok(None) => !wanted,
                Err(e) => wanted && (forall|k: Key| !key::encodes(head.key@, k)) && e@
                    == Failure::Internal(bad_term()),
            }
        }),
{
    let wanted = match filter {
        Some(t) => mask::has_row(t, head.row),
        None => true,
    };
    if !wanted {
        return Ok(None);
    }
    match PrimaryKey::from_canonical(head.key.as_slice()) {
        Some(pk) => Ok(Some((head.row, pk))),
        None => Err(ServiceError::Internal("_pk term: not a canonical key".to_owned())),
    }
}

/// Whether a filter has a row, or there is none.
pub open spec fn in_filter(filter: Option<RoaringTreemap>, row: u64) -> bool {
    filter matches Some(t) ==> mask::treemap_rows(t).contains(row)
}

/// The rows and keys that a walk keeps of heads.
pub open spec fn walked(filter: Option<RoaringTreemap>, heads: Seq<Head>) -> Seq<(u64, Key)>
    decreases heads.len(),
{
    if heads.len() == 0 {
        Seq::empty()
    } else {
        let before = walked(filter, heads.drop_last());
        let last = heads.last();
        match key::key_in(last.key@) {
            Some(k) => if in_filter(filter, last.row) {
                before.push((last.row, k))
            } else {
                before
            },
            None => before,
        }
    }
}

/// The batches of a walk keep what the whole walk keeps: no row is lost or
/// repeated between one batch and the next.
pub proof fn batches_join(filter: Option<RoaringTreemap>, a: Seq<Head>, b: Seq<Head>)
    ensures
        walked(filter, a + b) == walked(filter, a) + walked(filter, b),
    decreases b.len(),
{
    if b.len() == 0 {
        assert(a + b =~= a);
    } else {
        assert((a + b).drop_last() =~= a + b.drop_last());
        batches_join(filter, a, b.drop_last());
    }
}

/// A walk of the merged keys of the splits, in batches.
pub struct Walk {
    filter: Option<RoaringTreemap>,
    batch_rows: usize,
    rows: Vec<(u64, PrimaryKey)>,
    seen: Ghost<Seq<Head>>,
}

impl Walk {
    /// The rows that the walk keeps.
    pub closed spec fn filter(&self) -> Option<RoaringTreemap> {
        self.filter
    }

    /// How many rows a batch holds.
    pub closed spec fn batch_rows(&self) -> nat {
        self.batch_rows as nat
    }

    /// The heads of the batch so far.
    pub closed spec fn seen(&self) -> Seq<Head> {
        self.seen@
    }

    /// The batch holds what the walk keeps of its heads.
    pub closed spec fn well_formed(&self) -> bool {
        tail_merge::row_views(self.rows@) == walked(self.filter, self.seen@)
    }

    /// A walk before its first batch.
    pub fn new(filter: Option<RoaringTreemap>, wanted: usize) -> (r: Walk)
        ensures
            r.well_formed(),
            r.filter() == filter,
            r.batch_rows() == crate::math::clamped(wanted as int, 1, MAX_BATCH_ROWS as int),
            r.seen() == Seq::<Head>::empty(),
    {
        let r = Walk {
            filter,
            batch_rows: batch_rows(wanted),
            rows: Vec::new(),
            seen: Ghost(Seq::empty()),
        };
        proof {
            assert(tail_merge::row_views(r.rows@) =~= walked(filter, r.seen@));
        }
        r
    }

    /// Whether the batch wants another head.
    pub fn wants(&self) -> (r: bool)
        requires
            self.well_formed(),
        ensures
            r == (walked(self.filter(), self.seen()).len() < self.batch_rows()),
    {
        self.rows.len() < self.batch_rows
    }

    /// Adds the next head; internal when its row is kept and its term is no
    /// key.
    pub fn add(&mut self, head: Head) -> (r: Result<(), ServiceError>)
        requires
            old(self).well_formed(),
        ensures
            final(self).well_formed(),
            final(self).filter() == old(self).filter(),
            final(self).batch_rows() == old(self).batch_rows(),
            match r {
                Ok(_) => {
                    &&& final(self).seen() == old(self).seen().push(head)
                    &&& in_filter(old(self).filter(), head.row) ==> key::key_in(head.key@) is Some
                },
                Err(e) => {
                    &&& final(self).seen() == old(self).seen()
                    &&& in_filter(old(self).filter(), head.row)
                    &&& key::key_in(head.key@) is None
                    &&& e@ == Failure::Internal(bad_term())
                },
            },
    {
        let ghost h = head;
        let ghost was = self.seen@;
        let ghost before = self.rows@;
        match walk_row(&self.filter, head) {
            Err(e) => Err(e),
            Ok(kept) => {
                match kept {
                    Some((row, pk)) => {
                        let ghost k = pk@;
                        proof {
                            key::key_in_is(h.key@, k);
                        }
                        self.rows.push((row, pk));
                        proof {
                            assert(tail_merge::row_views(self.rows@) =~= tail_merge::row_views(
                                before,
                            ).push((row, k)));
                        }
                    },
                    None => {},
                }
                self.seen = Ghost(was.push(h));
                proof {
                    assert(was.push(h).drop_last() =~= was);
                }
                Ok(())
            },
        }
    }

    /// The batch, none when nothing was kept; the next one begins.
    pub fn take(&mut self) -> (r: Option<Vec<(u64, PrimaryKey)>>)
        requires
            old(self).well_formed(),
        ensures
            final(self).well_formed(),
            final(self).filter() == old(self).filter(),
            final(self).batch_rows() == old(self).batch_rows(),
            final(self).seen() == Seq::<Head>::empty(),
            match r {
                Some(rows) => rows@.len() > 0 && tail_merge::row_views(rows@) == walked(
                    old(self).filter(),
                    old(self).seen(),
                ),
                None => walked(old(self).filter(), old(self).seen()).len() == 0,
            },
    {
        let mut rows: Vec<(u64, PrimaryKey)> = Vec::new();
        rows.append(&mut self.rows);
        self.seen = Ghost(Seq::empty());
        proof {
            assert(rows@ =~= old(self).rows@);
            assert(tail_merge::row_views(self.rows@) =~= Seq::<(u64, Key)>::empty());
        }
        if rows.len() == 0 {
            None
        } else {
            Some(rows)
        }
    }
}

/// The documents of one split: their ids in it and their rows.
pub struct SplitDocs {
    pub split: usize,
    pub docs: Vec<(u32, u64)>,
}

/// The documents of a split among located rows, in order.
pub open spec fn docs_of(rows: Seq<(u64, (usize, u32))>, split: usize) -> Seq<(u32, u64)>
    decreases rows.len(),
{
    if rows.len() == 0 {
        Seq::empty()
    } else if rows.last().1.0 == split {
        docs_of(rows.drop_last(), split).push((rows.last().1.1, rows.last().0))
    } else {
        docs_of(rows.drop_last(), split)
    }
}

/// Whether some row is in a split.
pub open spec fn has_split(rows: Seq<(u64, (usize, u32))>, split: usize) -> bool {
    exists|i: int| 0 <= i < rows.len() && (#[trigger] rows[i]).1.0 == split
}

/// Groups are in ascending split order, each with the documents of its
/// split, and every split of a row has one.
pub open spec fn grouped(groups: Seq<SplitDocs>, rows: Seq<(u64, (usize, u32))>) -> bool {
    &&& forall|i: int, j: int|
        0 <= i < j < groups.len() ==> (#[trigger] groups[i]).split < (#[trigger] groups[j]).split
    &&& forall|i: int|
        0 <= i < groups.len() ==> (#[trigger] groups[i]).docs@ == docs_of(rows, groups[i].split)
            && has_split(rows, groups[i].split)
    &&& forall|i: int|
        0 <= i < rows.len() ==> exists|g: int|
            0 <= g < groups.len() && (#[trigger] groups[g]).split == (#[trigger] rows[i]).1.0
}

/// The located rows of a list in which every row has a place.
pub open spec fn placed(rows: Seq<(u64, Option<(usize, u32)>)>) -> Seq<(u64, (usize, u32))> {
    Seq::new(rows.len(), |i: int| (rows[i].0, rows[i].1->0))
}

/// The message for a row outside every split.
pub open spec fn lost_row(row: u64) -> Seq<char> {
    "row "@ + text::decimal(row as nat) + " is in no split of the view"@
}

proof fn docs_of_absent(rows: Seq<(u64, (usize, u32))>, split: usize)
    requires
        !has_split(rows, split),
    ensures
        docs_of(rows, split) == Seq::<(u32, u64)>::empty(),
    decreases rows.len(),
{
    if rows.len() > 0 {
        let t = rows.drop_last();
        assert(rows[rows.len() - 1].1.0 != split);
        if has_split(t, split) {
            let i = choose|i: int| 0 <= i < t.len() && (#[trigger] t[i]).1.0 == split;
            assert(rows[i].1.0 == split);
        }
        docs_of_absent(t, split);
    }
}

/// The rows grouped by split, given where each one is; internal for a row
/// that is in no split.
pub fn group_by_split(rows: &Vec<(u64, Option<(usize, u32)>)>) -> (r: Result<
    Vec<SplitDocs>,
    ServiceError,
>)
    ensures
        match r {
            Ok(groups) => (forall|i: int| 0 <= i < rows@.len() ==> (#[trigger] rows@[i]).1 is Some)
                && grouped(groups@, placed(rows@)),
            Err(e) => exists|i: int|
                0 <= i < rows@.len() && (#[trigger] rows@[i]).1 is None && e@ == Failure::Internal(
                    lost_row(rows@[i].0),
                ) && forall|j: int| 0 <= j < i ==> (#[trigger] rows@[j]).1 is Some,
        },
{
    let mut groups: Vec<SplitDocs> = Vec::new();
    let mut i: usize = 0;
    while i < rows.len()
        invariant
            i <= rows@.len(),
            forall|j: int| 0 <= j < i ==> (#[trigger] rows@[j]).1 is Some,
            grouped(groups@, placed(rows@.take(i as int))),
        decreases rows.len() - i,
    {
        let ghost seen = placed(rows@.take(i as int));
        let ghost next = placed(rows@.take(i as int + 1));
        let row: u64 = rows[i].0;
        match rows[i].1 {
            None => {
                let n = text::dec(row);
                return Err(
                    ServiceError::Internal(
                        text::cat3("row ", n.as_str(), " is in no split of the view"),
                    ),
                );
            },
            Some((split, doc)) => {
                proof {
                    assert(next.drop_last() =~= seen);
                    assert(next.last() == (row, (split, doc)));
                    assert(next =~= seen.push((row, (split, doc))));
                    assert forall|s: usize| #[trigger] has_split(next, s) <==> s == split
                        || has_split(seen, s) by {
                        if has_split(next, s) {
                            let k = choose|k: int|
                                0 <= k < next.len() && (#[trigger] next[k]).1.0 == s;
                            if k < seen.len() {
                                assert(seen[k].1.0 == s);
                            }
                        }
                        if has_split(seen, s) {
                            let k = choose|k: int|
                                0 <= k < seen.len() && (#[trigger] seen[k]).1.0 == s;
                            assert(next[k].1.0 == s);
                        }
                        if s == split {
                            assert(next[next.len() - 1].1.0 == s);
                        }
                    }
                }
                add_doc(&mut groups, split, doc, row, Ghost(seen), Ghost(next));
            },
        }
        i += 1;
    }
    proof {
        assert(rows@.take(rows@.len() as int) =~= rows@);
    }
    Ok(groups)
}

fn add_doc(
    groups: &mut Vec<SplitDocs>,
    split: usize,
    doc: u32,
    row: u64,
    Ghost(seen): Ghost<Seq<(u64, (usize, u32))>>,
    Ghost(next): Ghost<Seq<(u64, (usize, u32))>>,
)
    requires
        grouped(old(groups)@, seen),
        next == seen.push((row, (split, doc))),
        forall|s: usize| #[trigger] has_split(next, s) <==> s == split || has_split(seen, s),
    ensures
        grouped(final(groups)@, next),
{
    let ghost was = groups@;
    let mut at: usize = 0;
    while at < groups.len() && groups[at].split < split
        invariant
            at <= groups@.len(),
            groups@ == was,
            forall|k: int| 0 <= k < at ==> (#[trigger] was[k]).split < split,
        decreases groups.len() - at,
    {
        at += 1;
    }
    proof {
        assert(next.drop_last() =~= seen);
    }
    let mut rest: Vec<SplitDocs> = groups.split_off(at);
    let ghost tail = rest@;
    assert(groups@ =~= was.take(at as int));
    assert(tail =~= was.skip(at as int));
    let found = rest.len() > 0 && rest[0].split == split;
    if found {
        assert(tail[0] == was[at as int]);
        let SplitDocs { split: same, mut docs } = rest.remove(0);
        docs.push((doc, row));
        groups.push(SplitDocs { split: same, docs });
    } else {
        let mut docs: Vec<(u32, u64)> = Vec::new();
        docs.push((doc, row));
        groups.push(SplitDocs { split, docs });
        proof {
            if has_split(seen, split) {
                let k = choose|k: int| 0 <= k < seen.len() && (#[trigger] seen[k]).1.0 == split;
                let g = choose|g: int|
                    0 <= g < was.len() && (#[trigger] was[g]).split == seen[k].1.0;
                if g >= at {
                    assert(tail[g - at] == was[g]);
                    assert(tail[0] == was[at as int]);
                }
            }
            docs_of_absent(seen, split);
            assert(docs@ =~= docs_of(next, split));
        }
    }
    let ghost middle = groups@;
    let ghost left = rest@;
    groups.append(&mut rest);
    proof {
        let now = groups@;
        assert(now =~= middle + left);
        let shift: int = if found {
            0
        } else {
            1
        };
        assert forall|k: int| 0 <= k < now.len() && k != at implies #[trigger] now[k] == was[if k
            < at {
            k
        } else {
            k - shift
        }] by {
            if k > at {
                assert(left[k - at - 1] == now[k]);
            }
        }
        assert(now[at as int].split == split);
        assert forall|a: int, b: int| 0 <= a < b < now.len() implies (#[trigger] now[a]).split < (
        #[trigger] now[b]).split by {
            if b > at {
                assert(now[b] == was[b - shift]);
                if !found {
                    assert(was[at as int] == tail[0]);
                    assert(was[at as int].split >= split);
                    assert(was[at as int].split != split);
                    if b - 1 > at {
                        assert(was[at as int].split < was[b - 1].split);
                    }
                } else {
                    assert(was[at as int].split < was[b].split);
                }
            }
        }
        assert forall|k: int| 0 <= k < now.len() implies (#[trigger] now[k]).docs@ == docs_of(
            next,
            now[k].split,
        ) && has_split(next, now[k].split) by {
            if k != at {
                let o = if k < at {
                    k
                } else {
                    k - shift
                };
                assert(now[k] == was[o]);
                assert(now[k].split != split) by {
                    if k < at {
                        assert(now[k].split < now[at as int].split);
                    } else {
                        assert(now[at as int].split < now[k].split);
                    }
                }
            } else {
                assert(has_split(next, split));
                if found {
                    assert(now[k].docs@ == docs_of(seen, split).push((doc, row)));
                }
            }
        }
        assert forall|k: int| 0 <= k < next.len() implies exists|g: int|
            0 <= g < now.len() && (#[trigger] now[g]).split == (#[trigger] next[k]).1.0 by {
            if k == next.len() - 1 {
                assert(now[at as int].split == next[k].1.0);
            } else {
                assert(seen[k] == next[k]);
                let g = choose|g: int|
                    0 <= g < was.len() && (#[trigger] was[g]).split == seen[k].1.0;
                let o = if g < at {
                    g
                } else {
                    g + shift
                };
                if o == at {
                    assert(found && g == at);
                    assert(now[o].split == was[g].split);
                } else {
                    assert(now[o] == was[g]);
                }
            }
        }
    }
}

/// The documents of the segments before the `n`-th.
pub open spec fn base_of(sizes: Seq<u32>, n: int) -> int
    decreases n,
{
    if n <= 0 {
        0
    } else {
        base_of(sizes, n - 1) + sizes[n - 1]
    }
}

/// The message for a document outside the segments of a split.
pub open spec fn past_the_split(doc: u32) -> Seq<char> {
    "doc "@ + text::decimal(doc as nat) + " is past the split"@
}

/// The segment that holds a document of a split, and the document's id in
/// it, given how many documents each segment has.
pub fn segment_of(sizes: &Vec<u32>, doc: u32) -> (r: Result<(usize, u32), ServiceError>)
    requires
        base_of(sizes@, sizes@.len() as int) <= u32::MAX,
    ensures
        match r {
            Ok((segment, local)) => segment < sizes@.len() && base_of(sizes@, segment as int)
                + local == doc && local < sizes@[segment as int],
            Err(e) => doc >= base_of(sizes@, sizes@.len() as int) && e@ == Failure::Internal(
                past_the_split(doc),
            ),
        },
{
    let mut base: u32 = 0;
    let mut i: usize = 0;
    while i < sizes.len()
        invariant
            i <= sizes@.len(),
            base == base_of(sizes@, i as int),
            base <= doc,
            base_of(sizes@, sizes@.len() as int) <= u32::MAX,
        decreases sizes.len() - i,
    {
        proof {
            bases_grow(sizes@, i as int + 1, sizes@.len() as int);
        }
        let end: u32 = base + sizes[i];
        if doc < end {
            return Ok((i, doc - base));
        }
        base = end;
        i += 1;
    }
    let n = text::dec(doc as u64);
    Err(ServiceError::Internal(text::cat3("doc ", n.as_str(), " is past the split")))
}

proof fn bases_grow(sizes: Seq<u32>, a: int, b: int)
    requires
        0 <= a <= b <= sizes.len(),
    ensures
        base_of(sizes, a) <= base_of(sizes, b),
    decreases b - a,
{
    if a < b {
        bases_grow(sizes, a, b - 1);
    }
}

/// The row and key of a document of a split, given the first term of its
/// key field.
pub open spec fn doc_key(doc: (u32, u64), sizes: Seq<u32>, term: Option<Vec<u8>>) -> Result<
    (u64, Key),
    Failure,
> {
    if doc.0 >= base_of(sizes, sizes.len() as int) {
        Err(Failure::Internal(past_the_split(doc.0)))
    } else {
        match term {
            None => Err(Failure::Internal(sparse::no_key(doc.0))),
            Some(b) => match key::key_in(b@) {
                Some(k) => Ok((doc.1, k)),
                None => Err(Failure::Internal(sparse::bad_key(doc.0))),
            },
        }
    }
}

/// The rows and keys of the first documents of a split, or what is wrong
/// with the first that has none.
pub open spec fn doc_keys(
    docs: Seq<(u32, u64)>,
    sizes: Seq<u32>,
    terms: Seq<Option<Vec<u8>>>,
    n: nat,
) -> Result<Seq<(u64, Key)>, Failure>
    decreases n,
{
    if n == 0 || n > docs.len() {
        Ok(Seq::empty())
    } else {
        match doc_keys(docs, sizes, terms, (n - 1) as nat) {
            Err(e) => Err(e),
            Ok(before) => match doc_key(docs[n - 1], sizes, terms[n - 1]) {
                Err(e) => Err(e),
                Ok(x) => Ok(before.push(x)),
            },
        }
    }
}

proof fn errors_stay(
    docs: Seq<(u32, u64)>,
    sizes: Seq<u32>,
    terms: Seq<Option<Vec<u8>>>,
    m: nat,
    n: nat,
)
    requires
        m <= n <= docs.len(),
        doc_keys(docs, sizes, terms, m) is Err,
    ensures
        doc_keys(docs, sizes, terms, n) == doc_keys(docs, sizes, terms, m),
    decreases n,
{
    if m < n {
        errors_stay(docs, sizes, terms, m, (n - 1) as nat);
    }
}

/// The rows and keys of a split's documents, given how many documents each
/// of its segments has and the first term of each document's key field.
pub fn split_keys(
    docs: &Vec<(u32, u64)>,
    sizes: &Vec<u32>,
    terms: &Vec<Option<Vec<u8>>>,
) -> (r: Result<Vec<(u64, PrimaryKey)>, ServiceError>)
    requires
        terms@.len() == docs@.len(),
        base_of(sizes@, sizes@.len() as int) <= u32::MAX,
    ensures
        match r {
            Ok(rows) => doc_keys(docs@, sizes@, terms@, docs@.len()) == Ok::<
                Seq<(u64, Key)>,
                Failure,
            >(tail_merge::row_views(rows@)),
            Err(e) => doc_keys(docs@, sizes@, terms@, docs@.len()) == Err::<
                Seq<(u64, Key)>,
                Failure,
            >(e@),
        },
{
    let mut out: Vec<(u64, PrimaryKey)> = Vec::new();
    let mut i: usize = 0;
    proof {
        assert(tail_merge::row_views(out@) =~= Seq::<(u64, Key)>::empty());
    }
    while i < docs.len()
        invariant
            i <= docs@.len(),
            terms@.len() == docs@.len(),
            base_of(sizes@, sizes@.len() as int) <= u32::MAX,
            doc_keys(docs@, sizes@, terms@, i as nat) == Ok::<Seq<(u64, Key)>, Failure>(
                tail_merge::row_views(out@),
            ),
        decreases docs.len() - i,
    {
        let (doc, row) = docs[i];
        let ghost before = out@;
        proof {
            let now = doc_keys(docs@, sizes@, terms@, (i + 1) as nat);
            if now is Err {
                errors_stay(docs@, sizes@, terms@, (i + 1) as nat, docs@.len());
            }
        }
        let found = segment_of(sizes, doc);
        if let Ok((segment, _)) = &found {
            proof {
                bases_grow(sizes@, *segment as int + 1, sizes@.len() as int);
            }
        }
        if let Err(e) = found {
            return Err(e);
        }
        let n = text::dec(doc as u64);
        match &terms[i] {
            None => {
                return Err(ServiceError::Internal(text::cat3("doc ", n.as_str(), " has no _pk")));
            },
            Some(b) => match PrimaryKey::from_canonical(b.as_slice()) {
                None => {
                    return Err(
                        ServiceError::Internal(
                            text::cat3("_pk of doc ", n.as_str(), ": not a canonical key"),
                        ),
                    );
                },
                Some(pk) => {
                    let ghost k = pk@;
                    proof {
                        key::key_in_is(b@, k);
                    }
                    out.push((row, pk));
                    proof {
                        assert(tail_merge::row_views(out@) =~= tail_merge::row_views(
                            before,
                        ).push((row, k)));
                    }
                },
            },
        }
        i += 1;
    }
    Ok(out)
}

/// The order of keyed rows: by key, then row.
pub open spec fn keyed_sign(a: (u64, PrimaryKey), b: (u64, PrimaryKey)) -> Sign {
    key::key_sign(a.1@, b.1@).or(ordering::int_sign(a.0 as int, b.0 as int))
}

/// The order of keyed rows.
pub struct ByKey;

impl Ranking<(u64, PrimaryKey)> for ByKey {
    open spec fn le(&self, a: (u64, PrimaryKey), b: (u64, PrimaryKey)) -> bool {
        !(keyed_sign(a, b) is Greater)
    }
}

impl Order<(u64, PrimaryKey)> for ByKey {
    fn leq(&self, a: &(u64, PrimaryKey), b: &(u64, PrimaryKey)) -> (r: bool) {
        match a.1.sign(&b.1) {
            Sign::Less => true,
            Sign::Greater => false,
            Sign::Equal => a.0 <= b.0,
        }
    }
}

/// Every keyed row.
pub open spec fn any_keyed() -> spec_fn((u64, PrimaryKey)) -> bool {
    |x: (u64, PrimaryKey)| true
}

/// The order of keyed rows is total and transitive.
pub proof fn keyed_is_linear()
    ensures
        ordering::linear(ByKey, any_keyed()),
{
    assert forall|a: (u64, PrimaryKey), b: (u64, PrimaryKey)|
        #[trigger] ByKey.le(a, b) || ByKey.le(b, a) by {
        key::key_sign_flips(a.1@, b.1@);
    }
    assert forall|a: (u64, PrimaryKey), b: (u64, PrimaryKey), c: (u64, PrimaryKey)|
        #[trigger] ByKey.le(a, b) && #[trigger] ByKey.le(b, c) implies ByKey.le(a, c) by {
        key::key_sign_flips(a.1@, b.1@);
        key::key_sign_flips(b.1@, c.1@);
        key::key_sign_flips(a.1@, c.1@);
        key::canonical_order(a.1@, b.1@);
        key::canonical_order(b.1@, c.1@);
        key::canonical_order(a.1@, c.1@);
        if !(key::key_sign(a.1@, b.1@) is Greater) && !(key::key_sign(b.1@, c.1@) is Greater) {
            key::key_sign_transitive(a.1@, b.1@, c.1@);
        }
    }
}

/// The rows whose keys come after a key.
pub open spec fn keyed_after(rows: Seq<(u64, PrimaryKey)>, after: Option<Key>) -> Seq<
    (u64, PrimaryKey),
>
    decreases rows.len(),
{
    if rows.len() == 0 {
        rows
    } else {
        let before = keyed_after(rows.drop_last(), after);
        if after is None || tail_merge::before(after->0, rows.last().1@) {
            before.push(rows.last())
        } else {
            before
        }
    }
}

/// The looked-up keys after `after`, in key order.
pub fn sorted_keys(rows: Vec<(u64, PrimaryKey)>, after: &Option<PrimaryKey>) -> (r: Vec<
    (u64, PrimaryKey),
>)
    ensures
        r@ == ordering::sorted(ByKey, keyed_after(rows@, tail_merge::opt_key(*after))),
        ordering::is_ordered(ByKey, r@),
{
    let ghost all = rows@;
    let ghost a = tail_merge::opt_key(*after);
    let mut keep: Vec<(u64, PrimaryKey)> = Vec::new();
    for row in it: rows
        invariant
            it.seq() == all,
            a == tail_merge::opt_key(*after),
            keep@ == keyed_after(all.take(it.index() as int), a),
    {
        proof {
            let n = it.index() as int;
            assert(all.take(n + 1).drop_last() =~= all.take(n));
            assert(all.take(n + 1).last() == row);
        }
        let wanted = match after {
            None => true,
            Some(k) => match k.sign(&row.1) {
                Sign::Less => true,
                _ => false,
            },
        };
        if wanted {
            keep.push(row);
        }
    }
    proof {
        assert(all.take(all.len() as int) =~= all);
        keyed_is_linear();
        ordering::sorted_ordered(ByKey, keep@, any_keyed());
    }
    ordering::sort(&ByKey, keep)
}

/// Where the durable keys of a page come from.
pub enum Source {
    /// A page of no rows reads nothing.
    Nothing,
    /// The merge of every split's keys after some canonical bytes, keeping
    /// the rows in the filter.
    Walk { filter: Option<RoaringTreemap>, after: Option<Vec<u8>> },
    /// The keys of these rows, looked up and sorted.
    Sorted(RoaringTreemap),
}

/// Whether `source` is where the keys of a page come from.
pub open spec fn is_source(
    source: Source,
    rows: RowSet,
    after: Option<Key>,
    limit: nat,
    base: u64,
    threshold: u64,
) -> bool {
    if limit == 0 {
        source is Nothing
    } else {
        match rows {
            RowSet::All => source matches Source::Walk { filter, after: from } && filter is None
                && walks_after(from, after),
            RowSet::Rows(t) => {
                let durable = mask::below(mask::treemap_rows(t), base);
                if durable.len() > threshold {
                    source matches Source::Walk { filter: Some(f), after: from }
                        && mask::treemap_rows(f) == durable && walks_after(from, after)
                } else {
                    source matches Source::Sorted(s) && mask::treemap_rows(s) == durable
                }
            },
        }
    }
}

/// Whether a walk starts after a key.
pub open spec fn walks_after(from: Option<Vec<u8>>, after: Option<Key>) -> bool {
    match (from, after) {
        (Some(b), Some(k)) => b@ == key::canonical(k),
        (None, None) => true,
        _ => false,
    }
}

/// Where the durable keys of a page come from, and the tail's rows that it
/// wants; `base` is the first row of the tail.
pub fn plan_page(
    rows: &RowSet,
    after: &Option<PrimaryKey>,
    limit: usize,
    base: u64,
    threshold: u64,
) -> (r: (Source, RowSet))
    requires
        rows matches RowSet::Rows(t) ==> mask::countable(*t),
    ensures
        is_source(
            r.0,
            *rows,
            tail_merge::opt_key(*after),
            limit as nat,
            base,
            threshold,
        ),
        limit > 0 ==> r.1.rows() == (match rows {
            RowSet::All => Set::<u64>::full(),
            RowSet::Rows(t) => mask::from(mask::treemap_rows(*t), base),
        }),
        limit > 0 && rows is All ==> r.1 is All,
{
    if limit == 0 {
        return (Source::Nothing, RowSet::All);
    }
    let from = match after {
        Some(k) => Some(k.canonical()),
        None => None,
    };
    match rows {
        RowSet::All => (Source::Walk { filter: None, after: from }, RowSet::All),
        RowSet::Rows(t) => {
            let mut durable = mask::copy_rows(t);
            mask::cut_from(&mut durable, base);
            let tail = mask::rows_without(t, &durable);
            proof {
                let all = mask::treemap_rows(*t);
                assert(mask::treemap_rows(tail) =~= mask::from(all, base));
                vstd::set_lib::lemma_len_subset(mask::below(all, base), all);
            }
            let source = if mask::row_count(&durable) > threshold {
                Source::Walk { filter: Some(durable), after: from }
            } else {
                Source::Sorted(durable)
            };
            (source, RowSet::Rows(tail))
        },
    }
}

} // verus!
