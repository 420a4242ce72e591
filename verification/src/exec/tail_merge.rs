//! Durable rows in key order merged with the tail's overlay keys.
//!
//! The durable input is live already; a durable key that has a tail entry
//! is still dropped, tail deletes are dropped, and tail documents are kept
//! when their rows are wanted.

use crate::exec::mask::RowSet;
use crate::key;
use crate::key::{Key, PrimaryKey};
use crate::ordering::Sign;
use vstd::prelude::*;

verus! {

/// What the tail holds of a key.
#[derive(Clone, Copy, Debug, PartialEq, Eq, Structural)]
pub enum TailLookup {
    /// A document, by its row id.
    Present(u64),
    /// A delete.
    Deleted,
    Absent,
}

/// A tail overlay key: its document's row when it is kept, none for a
/// delete or an unwanted document, which still shadow their key.
pub type TailKey = (PrimaryKey, Option<u64>);

/// What some overlay keys are.
pub open spec fn tail_views(s: Seq<(PrimaryKey, Option<u64>)>) -> Seq<(Key, Option<u64>)> {
    Seq::new(s.len(), |i: int| (s[i].0@, s[i].1))
}

/// What some keyed rows are.
pub open spec fn row_views(s: Seq<(u64, PrimaryKey)>) -> Seq<(u64, Key)> {
    Seq::new(s.len(), |i: int| (s[i].0, s[i].1@))
}

/// Whether a key comes before another.
pub open spec fn before(a: Key, b: Key) -> bool {
    key::key_sign(a, b) is Less
}

/// Whether a key comes after another, when there is one.
pub open spec fn follows(k: Key, after: Option<Key>) -> bool {
    after matches Some(a) ==> before(a, k)
}

/// The tail's entries after a key as overlay keys.
pub open spec fn overlay(
    entries: Seq<(PrimaryKey, TailLookup)>,
    rows: Set<u64>,
    after: Option<Key>,
) -> Seq<(Key, Option<u64>)>
    decreases entries.len(),
{
    if entries.len() == 0 {
        Seq::empty()
    } else {
        let sooner = overlay(entries.drop_last(), rows, after);
        let k = entries.last().0@;
        if !follows(k, after) {
            sooner
        } else {
            match entries.last().1 {
                TailLookup::Present(row) => sooner.push(
                    (
                        k,
                        if rows.contains(row) {
                            Some(row)
                        } else {
                            None
                        },
                    ),
                ),
                TailLookup::Deleted => sooner.push((k, None)),
                TailLookup::Absent => sooner,
            }
        }
    }
}

/// The tail's overlay keys after `after`, of the tail's entries in key
/// order.
pub fn tail_keys(
    entries: Vec<(PrimaryKey, TailLookup)>,
    tail_rows: &RowSet,
    after: &Option<PrimaryKey>,
) -> (r: Vec<TailKey>)
    ensures
        tail_views(r@) == overlay(entries@, tail_rows.rows(), opt_key(*after)),
{
    let ghost all = entries@;
    let ghost from = opt_key(*after);
    let mut out: Vec<TailKey> = Vec::new();
    proof {
        assert(tail_views(out@) =~= Seq::<(Key, Option<u64>)>::empty());
    }
    for entry in it: entries
        invariant
            it.seq() == all,
            from == opt_key(*after),
            tail_views(out@) == overlay(all.take(it.index() as int), tail_rows.rows(), from),
    {
        let ghost sooner = out@;
        proof {
            let n = it.index() as int;
            assert(all.take(n + 1).drop_last() =~= all.take(n));
            assert(all.take(n + 1).last() == entry);
        }
        let (pk, lookup) = entry;
        let wanted = match after {
            None => true,
            Some(a) => match a.sign(&pk) {
                Sign::Less => true,
                _ => false,
            },
        };
        if wanted {
            match lookup {
                TailLookup::Present(row) => {
                    let kept = if tail_rows.contains(row) {
                        Some(row)
                    } else {
                        None
                    };
                    out.push((pk, kept));
                    proof {
                        assert(tail_views(out@) =~= tail_views(sooner).push((pk@, kept)));
                    }
                },
                TailLookup::Deleted => {
                    out.push((pk, None));
                    proof {
                        assert(tail_views(out@) =~= tail_views(sooner).push((pk@, None)));
                    }
                },
                TailLookup::Absent => {},
            }
        }
    }
    proof {
        assert(all.take(all.len() as int) =~= all);
    }
    out
}

/// The row of an overlay key, if it is kept.
pub open spec fn kept_row(t: (Key, Option<u64>)) -> Seq<(u64, Key)> {
    match t.1 {
        Some(row) => seq![(row, t.0)],
        None => Seq::empty(),
    }
}

/// The kept rows of some overlay keys.
pub open spec fn kept_rows(t: Seq<(Key, Option<u64>)>) -> Seq<(u64, Key)>
    decreases t.len(),
{
    if t.len() == 0 {
        Seq::empty()
    } else {
        kept_row(t[0]) + kept_rows(t.drop_first())
    }
}

/// The merge of durable rows with overlay keys: a key of both has the
/// tail's state.
pub open spec fn merged(d: Seq<(u64, Key)>, t: Seq<(Key, Option<u64>)>) -> Seq<(u64, Key)>
    decreases d.len() + t.len(),
{
    if d.len() == 0 {
        kept_rows(t)
    } else if t.len() > 0 && before(t[0].0, d[0].1) {
        kept_row(t[0]) + merged(d, t.drop_first())
    } else if t.len() > 0 && t[0].0 == d[0].1 {
        kept_row(t[0]) + merged(d.drop_first(), t.drop_first())
    } else {
        seq![d[0]] + merged(d.drop_first(), t)
    }
}

/// The durable rows after a key.
pub open spec fn rows_after(d: Seq<(u64, Key)>, after: Option<Key>) -> Seq<(u64, Key)>
    decreases d.len(),
{
    if d.len() == 0 {
        d
    } else {
        let rest = rows_after(d.drop_first(), after);
        if after is Some && !before(after->0, d[0].1) {
            rest
        } else {
            seq![d[0]] + rest
        }
    }
}

/// At most `limit` of some rows.
pub open spec fn at_most(s: Seq<(u64, Key)>, limit: nat) -> Seq<(u64, Key)> {
    if s.len() <= limit {
        s
    } else {
        s.take(limit as int)
    }
}

/// A page: the first `limit` rows of the merge after a key.
pub open spec fn page_of(
    d: Seq<(u64, Key)>,
    t: Seq<(Key, Option<u64>)>,
    after: Option<Key>,
    limit: nat,
) -> Seq<(u64, Key)> {
    at_most(merged(rows_after(d, after), t), limit)
}

/// The key that a page follows.
pub open spec fn opt_key(k: Option<PrimaryKey>) -> Option<Key> {
    match k {
        Some(k) => Some(k@),
        None => None,
    }
}

/// What the merge of some durable rows has put out when it needs the next
/// one, and the overlay keys that are left.
pub open spec fn consumed(d: Seq<(u64, Key)>, t: Seq<(Key, Option<u64>)>) -> (
    Seq<(u64, Key)>,
    Seq<(Key, Option<u64>)>,
)
    decreases d.len() + t.len(),
{
    if d.len() == 0 {
        (Seq::empty(), t)
    } else if t.len() > 0 && before(t[0].0, d[0].1) {
        let r = consumed(d, t.drop_first());
        (kept_row(t[0]) + r.0, r.1)
    } else if t.len() > 0 && t[0].0 == d[0].1 {
        let r = consumed(d.drop_first(), t.drop_first());
        (kept_row(t[0]) + r.0, r.1)
    } else {
        let r = consumed(d.drop_first(), t);
        (seq![d[0]] + r.0, r.1)
    }
}

proof fn consumed_then_rest(d: Seq<(u64, Key)>, e: Seq<(u64, Key)>, t: Seq<(Key, Option<u64>)>)
    ensures
        merged(d + e, t) == consumed(d, t).0 + merged(e, consumed(d, t).1),
        consumed(d + e, t).0 == consumed(d, t).0 + consumed(e, consumed(d, t).1).0,
        consumed(d + e, t).1 == consumed(e, consumed(d, t).1).1,
    decreases d.len() + t.len(),
{
    if d.len() == 0 {
        assert(d + e =~= e);
        assert(merged(d + e, t) =~= consumed(d, t).0 + merged(e, consumed(d, t).1));
        assert(consumed(d + e, t).0 =~= consumed(d, t).0 + consumed(e, consumed(d, t).1).0);
    } else {
        assert((d + e)[0] == d[0]);
        assert((d + e).drop_first() =~= d.drop_first() + e);
        if t.len() > 0 && before(t[0].0, d[0].1) {
            consumed_then_rest(d, e, t.drop_first());
        } else if t.len() > 0 && t[0].0 == d[0].1 {
            consumed_then_rest(d.drop_first(), e, t.drop_first());
        } else {
            consumed_then_rest(d.drop_first(), e, t);
        }
        assert(merged(d + e, t) =~= consumed(d, t).0 + merged(e, consumed(d, t).1));
        assert(consumed(d + e, t).0 =~= consumed(d, t).0 + consumed(e, consumed(d, t).1).0);
    }
}

proof fn rows_after_adds(d: Seq<(u64, Key)>, e: Seq<(u64, Key)>, after: Option<Key>)
    ensures
        rows_after(d + e, after) == rows_after(d, after) + rows_after(e, after),
    decreases d.len(),
{
    if d.len() == 0 {
        assert(d + e =~= e);
        assert(rows_after(d, after) + rows_after(e, after) =~= rows_after(e, after));
    } else {
        assert((d + e).drop_first() =~= d.drop_first() + e);
        rows_after_adds(d.drop_first(), e, after);
        assert(rows_after(d + e, after) =~= rows_after(d, after) + rows_after(e, after));
    }
}

/// A merge in progress: pages of durable rows are pushed until it is full,
/// then it is finished.
pub struct TailMerge {
    tail: Vec<TailKey>,
    next: usize,
    after: Option<PrimaryKey>,
    limit: usize,
    out: Vec<(u64, PrimaryKey)>,
    seen: Ghost<Seq<(u64, Key)>>,
}

impl TailMerge {
    /// The durable rows pushed.
    pub closed spec fn seen(&self) -> Seq<(u64, Key)> {
        self.seen@
    }

    /// The overlay keys.
    pub closed spec fn overlay(&self) -> Seq<(Key, Option<u64>)> {
        tail_views(self.tail@)
    }

    /// The key that the page follows.
    pub closed spec fn after(&self) -> Option<Key> {
        opt_key(self.after)
    }

    /// The most rows of the page.
    pub closed spec fn limit(&self) -> nat {
        self.limit as nat
    }

    /// What is out is the beginning of the merge of what was pushed.
    pub closed spec fn well_formed(&self) -> bool {
        let c = consumed(rows_after(self.seen@, opt_key(self.after)), tail_views(self.tail@));
        &&& self.next <= self.tail@.len()
        &&& if self.out@.len() < self.limit {
            &&& row_views(self.out@) == c.0
            &&& tail_views(self.tail@).skip(self.next as int) == c.1
        } else {
            &&& self.out@.len() == self.limit
            &&& row_views(self.out@) == at_most(c.0, self.limit as nat)
            &&& c.0.len() >= self.limit
        }
    }

    /// A merge of durable rows with overlay keys in key order, after a key.
    pub fn new(tail: Vec<TailKey>, after: Option<PrimaryKey>, limit: usize) -> (r: TailMerge)
        ensures
            r.well_formed(),
            r.seen() == Seq::<(u64, Key)>::empty(),
            r.overlay() == tail_views(tail@),
            r.after() == opt_key(after),
            r.limit() == limit,
    {
        let r = TailMerge {
            tail,
            next: 0,
            after,
            limit,
            out: Vec::new(),
            seen: Ghost(Seq::empty()),
        };
        proof {
            assert(row_views(r.out@) =~= Seq::<(u64, Key)>::empty());
            assert(tail_views(tail@).skip(0) =~= tail_views(tail@));
        }
        r
    }

    /// Whether the page is full: as many rows are out as it holds, and rows
    /// pushed from here on change nothing.
    pub fn is_full(&self) -> (r: bool)
        requires
            self.well_formed(),
        ensures
            r == (consumed(rows_after(self.seen(), self.after()), self.overlay()).0.len()
                >= self.limit()),
            r ==> forall|more: Seq<(u64, Key)>|
                #[trigger] page_of(
                    self.seen() + more,
                    self.overlay(),
                    self.after(),
                    self.limit(),
                ) == page_of(self.seen(), self.overlay(), self.after(), self.limit()),
    {
        let full = self.out.len() >= self.limit;
        proof {
            if full {
                let a = opt_key(self.after);
                let t = tail_views(self.tail@);
                let d = rows_after(self.seen@, a);
                let n = self.limit as nat;
                assert forall|more: Seq<(u64, Key)>|
                    #[trigger] page_of(self.seen@ + more, t, a, n) == page_of(
                        self.seen@,
                        t,
                        a,
                        n,
                    ) by {
                    rows_after_adds(self.seen@, more, a);
                    consumed_then_rest(d, rows_after(more, a), t);
                    consumed_then_rest(d, Seq::empty(), t);
                    assert(d + Seq::<(u64, Key)>::empty() =~= d);
                    assert(page_of(self.seen@ + more, t, a, n) =~= page_of(self.seen@, t, a, n));
                }
            }
        }
        full
    }

    /// Merges the next durable rows, in key order.
    pub fn push(&mut self, rows: Vec<(u64, PrimaryKey)>)
        requires
            old(self).well_formed(),
        ensures
            final(self).well_formed(),
            final(self).seen() == old(self).seen() + row_views(rows@),
            final(self).overlay() == old(self).overlay(),
            final(self).after() == old(self).after(),
            final(self).limit() == old(self).limit(),
    {
        let ghost all = rows@;
        let ghost start = self.seen@;
        proof {
            assert(row_views(all.take(0)) =~= Seq::<(u64, Key)>::empty());
            assert(start + row_views(all.take(0)) =~= start);
        }
        for row in it: rows
            invariant
                it.seq() == all,
                self.well_formed(),
                self.seen@ == start + row_views(all.take(it.index() as int)),
                self.tail == old(self).tail,
                self.after == old(self).after,
                self.limit == old(self).limit,
        {
            proof {
                let n = it.index() as int;
                assert(row_views(all.take(n + 1)) =~= row_views(all.take(n)).push(
                    (row.0, row.1@),
                ));
                assert(start + row_views(all.take(n + 1)) =~= (start + row_views(
                    all.take(n),
                )).push((row.0, row.1@)));
            }
            self.push_row(row.0, row.1);
        }
        proof {
            assert(all.take(all.len() as int) =~= all);
        }
    }

    fn push_row(&mut self, row: u64, pk: PrimaryKey)
        requires
            old(self).well_formed(),
        ensures
            final(self).well_formed(),
            final(self).seen@ == old(self).seen@.push((row, pk@)),
            final(self).tail == old(self).tail,
            final(self).after == old(self).after,
            final(self).limit == old(self).limit,
    {
        let ghost a = opt_key(self.after);
        let ghost t = tail_views(self.tail@);
        let ghost d = rows_after(self.seen@, a);
        let ghost one = seq![(row, pk@)];
        let ghost c = consumed(d, t);
        proof {
            assert(self.seen@.push((row, pk@)) =~= self.seen@ + one);
            rows_after_adds(self.seen@, one, a);
            consumed_then_rest(d, rows_after(one, a), t);
            assert(one.drop_first() =~= Seq::<(u64, Key)>::empty());
            assert(rows_after(one.drop_first(), a) =~= Seq::<(u64, Key)>::empty());
        }
        let skipped = match &self.after {
            Some(after) => match after.sign(&pk) {
                Sign::Less => false,
                _ => true,
            },
            None => false,
        };
        let ghost passed = if skipped {
            Seq::<(u64, Key)>::empty()
        } else {
            one
        };
        proof {
            assert(rows_after(one, a) =~= passed);
        }
        self.seen = Ghost(self.seen@.push((row, pk@)));
        let ghost d2 = rows_after(self.seen@, a);
        assert(d2 == d + passed);
        if skipped || self.out.len() >= self.limit {
            proof {
                assert(d + Seq::<(u64, Key)>::empty() =~= d);
                if self.out@.len() >= self.limit {
                    let c2 = consumed(d2, t);
                    assert(c2.0 == c.0 + consumed(passed, c.1).0);
                    assert(at_most(c2.0, self.limit as nat) =~= at_most(
                        c.0,
                        self.limit as nat,
                    ));
                }
            }
            return;
        }
        let ghost rest = c.1;
        let ghost done = c.0;
        let ghost goal = consumed(one, rest);
        proof {
            assert(done + goal.0 == consumed(d2, t).0);
        }
        while self.next < self.tail.len()
            invariant_except_break
                self.out@.len() < self.limit,
            invariant
                self.next <= self.tail@.len(),
                t == tail_views(self.tail@),
                a == opt_key(self.after),
                one == seq![(row, pk@)],
                self.tail == old(self).tail,
                self.after == old(self).after,
                self.limit == old(self).limit,
                self.seen@ == old(self).seen@.push((row, pk@)),
                self.out@.len() <= self.limit,
                consumed(d2, t).0 == row_views(self.out@) + consumed(
                    one,
                    t.skip(self.next as int),
                ).0,
                consumed(d2, t).1 == consumed(one, t.skip(self.next as int)).1,
            ensures
                self.out@.len() >= self.limit || self.next >= self.tail@.len() || !before(
                    t[self.next as int].0,
                    pk@,
                ),
            decreases self.tail.len() - self.next,
        {
            let ghost now = t.skip(self.next as int);
            assert(now[0] == t[self.next as int]);
            assert(now.drop_first() =~= t.skip(self.next as int + 1));
            let sign = self.tail[self.next].0.sign(&pk);
            match sign {
                Sign::Less => {},
                _ => {
                    break;
                },
            }
            let ghost was = self.out@;
            let kept = self.tail[self.next].1;
            match kept {
                Some(r) => {
                    let key = self.tail[self.next].0.clone();
                    self.out.push((r, key));
                    proof {
                        assert(row_views(self.out@) =~= row_views(was) + kept_row(now[0]));
                    }
                },
                None => {
                    proof {
                        assert(row_views(self.out@) =~= row_views(was) + kept_row(now[0]));
                    }
                },
            }
            self.next = self.next + 1;
            proof {
                let left = consumed(one, t.skip(self.next as int)).0;
                assert(consumed(one, now).0 == kept_row(now[0]) + left);
                assert(row_views(was) + (kept_row(now[0]) + left) =~= row_views(self.out@)
                    + left);
            }
            if self.out.len() >= self.limit {
                break;
            }
        }
        if self.out.len() >= self.limit {
            proof {
                let c2 = consumed(d2, t);
                assert(at_most(c2.0, self.limit as nat) =~= row_views(self.out@));
            }
            return;
        }
        let ghost now = t.skip(self.next as int);
        let ghost was = self.out@;
        let shadowed = self.next < self.tail.len() && self.tail[self.next].0.same(&pk);
        proof {
            if self.next < self.tail@.len() {
                assert(now[0] == t[self.next as int]);
                assert(now.drop_first() =~= t.skip(self.next as int + 1));
            }
            assert(consumed(Seq::empty(), now.drop_first()).0 =~= Seq::<(u64, Key)>::empty());
        }
        if shadowed {
            let kept = self.tail[self.next].1;
            match kept {
                Some(r) => {
                    let key = self.tail[self.next].0.clone();
                    self.out.push((r, key));
                },
                None => {},
            }
            self.next = self.next + 1;
            proof {
                assert(row_views(self.out@) =~= row_views(was) + kept_row(now[0]));
                assert(consumed(one, now).0 =~= kept_row(now[0]));
                assert(row_views(self.out@) =~= consumed(d2, t).0);
            }
        } else {
            self.out.push((row, pk));
            proof {
                assert(consumed(Seq::<(u64, Key)>::empty(), now).0 =~= Seq::<
                    (u64, Key),
                >::empty());
                assert(consumed(one, now).0 =~= one);
                assert(row_views(self.out@) =~= row_views(was) + one);
                assert(row_views(self.out@) =~= consumed(d2, t).0);
            }
        }
        proof {
            assert(at_most(consumed(d2, t).0, self.limit as nat) =~= consumed(d2, t).0);
        }
    }

    /// The page: the first rows of the merge of everything pushed.
    pub fn finish(self) -> (r: Vec<(u64, PrimaryKey)>)
        requires
            self.well_formed(),
        ensures
            row_views(r@) == page_of(self.seen(), self.overlay(), self.after(), self.limit()),
    {
        let ghost a = opt_key(self.after);
        let ghost t = tail_views(self.tail@);
        let ghost d = rows_after(self.seen@, a);
        let ghost n = self.limit as nat;
        let limit = self.limit;
        proof {
            consumed_then_rest(d, Seq::empty(), t);
            assert(d + Seq::<(u64, Key)>::empty() =~= d);
        }
        let ghost c = consumed(d, t);
        let mut out = self.out;
        let mut i: usize = self.next;
        let tail = self.tail;
        if out.len() >= limit {
            proof {
                assert(at_most(merged(d, t), n) =~= row_views(out@));
            }
            return out;
        }
        while i < tail.len() && out.len() < limit
            invariant
                i <= tail@.len(),
                t == tail_views(tail@),
                out@.len() <= limit,
                merged(d, t) == row_views(out@) + kept_rows(t.skip(i as int)),
            decreases tail.len() - i,
        {
            let ghost was = out@;
            let ghost now = t.skip(i as int);
            let kept = tail[i].1;
            match kept {
                Some(r) => {
                    out.push((r, tail[i].0.clone()));
                },
                None => {},
            }
            proof {
                assert(now[0] == t[i as int]);
                assert(now.drop_first() =~= t.skip(i as int + 1));
                assert(row_views(out@) =~= row_views(was) + kept_row(now[0]));
                let left = kept_rows(t.skip(i as int + 1));
                assert(row_views(was) + (kept_row(now[0]) + left) =~= row_views(out@) + left);
            }
            i += 1;
        }
        proof {
            assert(at_most(merged(d, t), n) =~= row_views(out@));
        }
        out
    }
}

} // verus!
