//! The two ways to the durable keys of a page give the same rows: a walk of
//! every split's keys that keeps the rows of a filter, and a lookup of the
//! filter's rows that is sorted.

use crate::bytes;
use crate::exec::mask;
use crate::exec::mask::RowSet;
use crate::exec::scroll;
use crate::exec::scroll::{ByHead, ByKey, Head, Source};
use crate::exec::tail_laws;
use crate::exec::tail_merge;
use crate::exec::tail_merge::TailLookup;
use crate::key;
use crate::key::{Key, PrimaryKey};
use crate::ordering;
use crate::ordering::Ranking;
use roaring::RoaringTreemap;
use vstd::multiset::Multiset;
use vstd::prelude::*;

verus! {

/// The heads of every split together.
pub open spec fn bag(splits: Seq<Seq<Head>>) -> Multiset<Head>
    decreases splits.len(),
{
    if splits.len() == 0 {
        Multiset::empty()
    } else {
        bag(splits.drop_last()).add(splits.last().to_multiset())
    }
}

/// The first heads of the splits that have one.
pub open spec fn firsts(splits: Seq<Seq<Head>>) -> Seq<Head>
    decreases splits.len(),
{
    if splits.len() == 0 {
        Seq::empty()
    } else if splits.last().len() > 0 {
        firsts(splits.drop_last()).push(splits.last()[0])
    } else {
        firsts(splits.drop_last())
    }
}

/// What is left of the splits behind their first heads.
pub open spec fn rests(splits: Seq<Seq<Head>>) -> Seq<Seq<Head>> {
    Seq::new(
        splits.len(),
        |s: int|
            if splits[s].len() > 0 {
                splits[s].drop_first()
            } else {
                splits[s]
            },
    )
}

/// The first `n` heads that leave a merge: the least one each time, behind
/// which the next head of its split comes in.
pub open spec fn drained(heads: Seq<Head>, left: Seq<Seq<Head>>, n: nat) -> Seq<Head>
    decreases n,
{
    if n == 0 || heads.len() == 0 {
        Seq::empty()
    } else {
        let s = heads[0].split as int;
        if s < left.len() && left[s].len() > 0 {
            seq![heads[0]] + drained(
                ordering::inserted(ByHead, heads.drop_first(), left[s][0]),
                left.update(s, left[s].drop_first()),
                (n - 1) as nat,
            )
        } else {
            seq![heads[0]] + drained(heads.drop_first(), left, (n - 1) as nat)
        }
    }
}

/// Every head that leaves the merge of some splits, in order.
pub open spec fn walk_of(splits: Seq<Seq<Head>>) -> Seq<Head> {
    drained(
        ordering::sorted(ByHead, firsts(splits)),
        rests(splits),
        bag(splits).len(),
    )
}

/// The heads of each split are its own, in order.
pub open spec fn tidy(left: Seq<Seq<Head>>) -> bool {
    &&& forall|s: int, i: int|
        0 <= s < left.len() && 0 <= i < left[s].len() ==> (#[trigger] left[s][i]).split == s
    &&& forall|s: int| 0 <= s < left.len() ==> ordering::is_ordered(ByHead, #[trigger] left[s])
}

/// Whether some head stands in for a split.
spec fn stands_in(heads: Seq<Head>, left: Seq<Seq<Head>>, s: int, x: Head) -> bool {
    heads.contains(x) && x.split == s && ByHead.le(x, left[s][0])
}

/// Every split with heads left has one among the heads.
spec fn chained(heads: Seq<Head>, left: Seq<Seq<Head>>) -> bool {
    forall|s: int|
        0 <= s < left.len() && (#[trigger] left[s]).len() > 0 ==> exists|x: Head| #[trigger]
            stands_in(heads, left, s, x)
}

proof fn bag_update(left: Seq<Seq<Head>>, s: int)
    requires
        0 <= s < left.len(),
        left[s].len() > 0,
    ensures
        bag(left) == bag(left.update(s, left[s].drop_first())).insert(left[s][0]),
    decreases left.len(),
{
    broadcast use vstd::seq_lib::group_to_multiset_ensures;

    let cut = left.update(s, left[s].drop_first());
    let n = left.len() - 1;
    if s == n {
        assert(cut.drop_last() =~= left.drop_last());
        assert(left[s].remove(0) =~= left[s].drop_first());
        assert(left[s].contains(left[s][0]));
        assert(bag(left) =~= bag(cut).insert(left[s][0]));
    } else {
        bag_update(left.drop_last(), s);
        assert(cut.drop_last() =~= left.drop_last().update(s, left[s].drop_first()));
        assert(cut.last() == left.last());
        assert(bag(left) =~= bag(cut).insert(left[s][0]));
    }
}

proof fn bag_of_nothing(left: Seq<Seq<Head>>)
    requires
        forall|s: int| 0 <= s < left.len() ==> (#[trigger] left[s]).len() == 0,
    ensures
        bag(left) == Multiset::<Head>::empty(),
    decreases left.len(),
{
    broadcast use vstd::seq_lib::group_to_multiset_ensures;

    if left.len() > 0 {
        let d = left.drop_last();
        assert forall|s: int| 0 <= s < d.len() implies (#[trigger] d[s]).len() == 0 by {
            assert(d[s] == left[s]);
        }
        bag_of_nothing(d);
        assert(left[left.len() - 1].len() == 0);
        assert(left.last() =~= Seq::empty());
        assert(Seq::<Head>::empty().to_multiset() =~= Multiset::empty());
        assert(bag(left) =~= Multiset::empty());
    }
}

proof fn first_heads(splits: Seq<Seq<Head>>)
    ensures
        firsts(splits).to_multiset().add(bag(rests(splits))) == bag(splits),
        forall|s: int|
            0 <= s < splits.len() && (#[trigger] splits[s]).len() > 0 ==> firsts(splits).contains(
                splits[s][0],
            ),
    decreases splits.len(),
{
    broadcast use vstd::seq_lib::group_to_multiset_ensures;

    let r = rests(splits);
    if splits.len() == 0 {
        assert(r =~= Seq::empty());
        assert(firsts(splits).to_multiset().add(bag(r)) =~= bag(splits));
    } else {
        let d = splits.drop_last();
        let last = splits.last();
        first_heads(d);
        assert(r.drop_last() =~= rests(d));
        if last.len() > 0 {
            assert(r.last() == last.drop_first());
            assert(last.remove(0) =~= last.drop_first());
            assert(last.contains(last[0]));
            let f = firsts(splits);
            assert(f[f.len() - 1] == last[0]);
        } else {
            assert(r.last() == last);
        }
        assert(firsts(splits).to_multiset().add(bag(r)) =~= bag(splits));
        assert forall|s: int| 0 <= s < splits.len() && (#[trigger] splits[s]).len() > 0 implies firsts(
            splits,
        ).contains(splits[s][0]) by {
            if s < d.len() {
                assert(d[s] == splits[s]);
                let i = choose|i: int| 0 <= i < firsts(d).len() && firsts(d)[i] == splits[s][0];
                assert(firsts(splits)[i] == splits[s][0]);
            }
        }
    }
}

proof fn inserted_holds(heads: Seq<Head>, x: Head, y: Head)
    ensures
        ordering::inserted(ByHead, heads, x).contains(y) <==> heads.contains(y) || x == y,
{
    broadcast use vstd::seq_lib::group_to_multiset_ensures;

    ordering::inserted_len(ByHead, heads, x);
    assert(ordering::inserted(ByHead, heads, x).to_multiset().count(y) > 0 <==> heads.to_multiset().count(
        y,
    ) > 0 || x == y);
}

proof fn chain_goes_on(heads: Seq<Head>, left: Seq<Seq<Head>>)
    requires
        heads.len() > 0,
        chained(heads, left),
        tidy(left),
    ensures
        ({
            let s = heads[0].split as int;
            if s < left.len() && left[s].len() > 0 {
                let next = left.update(s, left[s].drop_first());
                tidy(next) && chained(
                    ordering::inserted(ByHead, heads.drop_first(), left[s][0]),
                    next,
                ) && exists|x: Head| #[trigger] stands_in(heads, left, s, x)
            } else {
                chained(heads.drop_first(), left)
            }
        }),
{
    let s = heads[0].split as int;
    let rest = heads.drop_first();
    if s < left.len() && left[s].len() > 0 {
        let p = left[s][0];
        let next = left.update(s, left[s].drop_first());
        let now = ordering::inserted(ByHead, rest, p);
        assert(left[s].len() > 0);
        assert forall|u: int, i: int| 0 <= u < next.len() && 0 <= i < next[u].len() implies (
        #[trigger] next[u][i]).split == u by {
            if u == s {
                assert(next[u][i] == left[u][i + 1]);
            } else {
                assert(next[u][i] == left[u][i]);
            }
        }
        assert forall|u: int| 0 <= u < next.len() implies ordering::is_ordered(
            ByHead,
            #[trigger] next[u],
        ) by {
            assert(ordering::is_ordered(ByHead, left[u]));
            if u == s {
                assert forall|i: int, j: int| 0 <= i <= j < next[u].len() implies ByHead.le(
                    #[trigger] next[u][i],
                    #[trigger] next[u][j],
                ) by {
                    assert(next[u][i] == left[u][i + 1] && next[u][j] == left[u][j + 1]);
                }
            }
        }
        assert forall|u: int| 0 <= u < next.len() && (#[trigger] next[u]).len() > 0 implies exists|
            x: Head,
        | #[trigger] stands_in(now, next, u, x) by {
            if u == s {
                inserted_holds(rest, p, p);
                assert(ordering::is_ordered(ByHead, left[s]));
                assert(next[u][0] == left[s][1]);
                assert(ByHead.le(left[s][0], left[s][1]));
                assert(stands_in(now, next, u, p));
            } else {
                assert(left[u].len() > 0);
                let x = choose|x: Head| #[trigger] stands_in(heads, left, u, x);
                stays(heads, x);
                inserted_holds(rest, p, x);
                assert(stands_in(now, next, u, x));
            }
        }
    } else {
        assert forall|u: int| 0 <= u < left.len() && (#[trigger] left[u]).len() > 0 implies exists|
            x: Head,
        | #[trigger] stands_in(rest, left, u, x) by {
            let x = choose|x: Head| #[trigger] stands_in(heads, left, u, x);
            stays(heads, x);
            assert(stands_in(rest, left, u, x));
        }
    }
}

proof fn stays(heads: Seq<Head>, x: Head)
    requires
        heads.contains(x),
        heads[0].split != x.split,
    ensures
        heads.drop_first().contains(x),
{
    let i = choose|i: int| 0 <= i < heads.len() && heads[i] == x;
    assert(heads.drop_first()[i - 1] == x);
}

proof fn drained_is(heads: Seq<Head>, left: Seq<Seq<Head>>, n: nat)
    requires
        ordering::is_ordered(ByHead, heads),
        chained(heads, left),
        tidy(left),
        n == heads.len() + bag(left).len(),
    ensures
        ordering::is_ordered(ByHead, drained(heads, left, n)),
        drained(heads, left, n).to_multiset() == heads.to_multiset().add(bag(left)),
        heads.len() > 0 ==> ordering::all_in(
            drained(heads, left, n),
            |x: Head| ByHead.le(heads[0], x),
        ),
    decreases n,
{
    broadcast use vstd::seq_lib::group_to_multiset_ensures;

    scroll::heads_are_linear();
    if heads.len() == 0 {
        assert forall|s: int| 0 <= s < left.len() implies (#[trigger] left[s]).len() == 0 by {
            if left[s].len() > 0 {
                let x = choose|x: Head| #[trigger] stands_in(heads, left, s, x);
            }
        }
        bag_of_nothing(left);
        assert(drained(heads, left, n).to_multiset() =~= heads.to_multiset().add(bag(left)));
    } else {
        let h = heads[0];
        let s = h.split as int;
        let rest = heads.drop_first();
        chain_goes_on(heads, left);
        assert(heads.remove(0) =~= rest);
        assert(heads.contains(h));
        assert forall|i: int, j: int| 0 <= i <= j < rest.len() implies ByHead.le(
            #[trigger] rest[i],
            #[trigger] rest[j],
        ) by {
            assert(rest[i] == heads[i + 1] && rest[j] == heads[j + 1]);
        }
        let (now, next) = if s < left.len() && left[s].len() > 0 {
            (
                ordering::inserted(ByHead, rest, left[s][0]),
                left.update(s, left[s].drop_first()),
            )
        } else {
            (rest, left)
        };
        let on = |x: Head| ByHead.le(h, x);
        assert forall|i: int| 0 <= i < rest.len() implies on(#[trigger] rest[i]) by {
            assert(rest[i] == heads[i + 1]);
            assert(ByHead.le(heads[0], heads[i + 1]));
        }
        if s < left.len() && left[s].len() > 0 {
            let p = left[s][0];
            bag_update(left, s);
            ordering::inserted_len(ByHead, rest, p);
            ordering::inserted_ordered(ByHead, rest, p, scroll::any_head());
            let x = choose|x: Head| #[trigger] stands_in(heads, left, s, x);
            let i = choose|i: int| 0 <= i < heads.len() && heads[i] == x;
            assert(ByHead.le(heads[0], heads[i]));
            assert(ByHead.le(h, p));
            ordering::inserted_all(ByHead, rest, p, on);
        }
        let tail = drained(now, next, (n - 1) as nat);
        assert(now.len() + bag(next).len() == n - 1);
        drained_is(now, next, (n - 1) as nat);
        let d = seq![h] + tail;
        assert(drained(heads, left, n) == d);
        assert(ByHead.le(h, h));
        assert forall|i: int| 0 <= i < tail.len() implies on(#[trigger] tail[i]) by {
            if now.len() == 0 {
                assert(tail.len() == 0);
            } else {
                let past = |x: Head| ByHead.le(now[0], x);
                assert(ordering::all_in(tail, past));
                assert(past(tail[i]));
                assert(on(now[0]));
            }
        }
        assert forall|i: int| 0 <= i < d.len() implies on(#[trigger] d[i]) by {
            if i > 0 {
                assert(d[i] == tail[i - 1]);
            }
        }
        assert forall|i: int, j: int| 0 <= i <= j < d.len() implies ByHead.le(
            #[trigger] d[i],
            #[trigger] d[j],
        ) by {
            if i > 0 {
                assert(d[i] == tail[i - 1] && d[j] == tail[j - 1]);
            } else {
                assert(on(d[j]));
            }
        }
        assert(d.remove(0) =~= tail);
        assert(d[0] == h);
        assert(d.contains(h));
        assert(d.to_multiset() =~= tail.to_multiset().insert(h));
        assert(heads.to_multiset() =~= rest.to_multiset().insert(h));
        assert(now.to_multiset().add(bag(next)).insert(h) =~= heads.to_multiset().add(bag(left)));
        assert(d.to_multiset() =~= heads.to_multiset().add(bag(left)));
    }
}

/// Whether a head of a split is a document.
pub open spec fn is_head(h: Head, row: u64, k: Key) -> bool {
    h.row == row && key::key_in(h.key@) == Some(k)
}

/// Whether some splits hold, each in key order, the documents after a key:
/// all of them, and no key twice.
pub open spec fn are_splits(splits: Seq<Seq<Head>>, docs: Seq<(u64, Key)>, after: Option<Key>) -> bool {
    &&& tidy(splits)
    &&& forall|s: int, i: int, u: int, j: int|
        0 <= s < splits.len() && 0 <= i < splits[s].len() && 0 <= u < splits.len() && 0 <= j
            < splits[u].len() && (#[trigger] splits[s][i]).key@ == (#[trigger] splits[u][j]).key@
            ==> s == u && i == j
    &&& forall|s: int, i: int|
        0 <= s < splits.len() && 0 <= i < splits[s].len() ==> {
            &&& key::key_in((#[trigger] splits[s][i]).key@) matches Some(k)
            &&& docs.contains((splits[s][i].row, k))
            &&& tail_merge::follows(k, after)
        }
    &&& forall|row: u64, k: Key| #[trigger]
        docs.contains((row, k)) && tail_merge::follows(k, after) ==> exists|s: int, i: int|
            0 <= s < splits.len() && 0 <= i < splits[s].len() && is_head(
                #[trigger] splits[s][i],
                row,
                k,
            )
}

/// Whether some rows and keys are those of the documents of a filter: all of
/// them, and no key twice.
pub open spec fn are_looked_up(
    looked: Seq<(u64, PrimaryKey)>,
    docs: Seq<(u64, Key)>,
    rows: Set<u64>,
) -> bool {
    &&& forall|i: int, j: int|
        0 <= i < looked.len() && 0 <= j < looked.len() && (#[trigger] looked[i]).1@ == (
        #[trigger] looked[j]).1@ ==> i == j
    &&& forall|i: int|
        0 <= i < looked.len() ==> docs.contains(((#[trigger] looked[i]).0, looked[i].1@))
            && rows.contains(looked[i].0)
    &&& forall|row: u64, k: Key| #[trigger]
        docs.contains((row, k)) && rows.contains(row) ==> exists|i: int|
            0 <= i < looked.len() && (#[trigger] looked[i]).0 == row && looked[i].1@ == k
}

proof fn in_the_bag(splits: Seq<Seq<Head>>, x: Head)
    ensures
        bag(splits).count(x) > 0 <==> exists|s: int, i: int|
            0 <= s < splits.len() && 0 <= i < splits[s].len() && #[trigger] splits[s][i] == x,
    decreases splits.len(),
{
    broadcast use vstd::seq_lib::group_to_multiset_ensures;

    if splits.len() > 0 {
        let d = splits.drop_last();
        let n = splits.len() - 1;
        in_the_bag(d, x);
        if bag(d).count(x) > 0 {
            let (s, i) = choose|s: int, i: int|
                0 <= s < d.len() && 0 <= i < d[s].len() && #[trigger] d[s][i] == x;
            assert(splits[s][i] == x);
        }
        if splits.last().contains(x) {
            let i = choose|i: int| 0 <= i < splits.last().len() && splits.last()[i] == x;
            assert(splits[n][i] == x);
        }
        if exists|s: int, i: int|
            0 <= s < splits.len() && 0 <= i < splits[s].len() && #[trigger] splits[s][i] == x {
            let (s, i) = choose|s: int, i: int|
                0 <= s < splits.len() && 0 <= i < splits[s].len() && #[trigger] splits[s][i] == x;
            if s < n {
                assert(d[s][i] == x);
            } else {
                assert(splits.last()[i] == x);
                assert(splits.last().contains(x));
            }
        }
    }
}

/// No head is twice among the splits.
spec fn apart(splits: Seq<Seq<Head>>) -> bool {
    forall|s: int, i: int, u: int, j: int|
        0 <= s < splits.len() && 0 <= i < splits[s].len() && 0 <= u < splits.len() && 0 <= j
            < splits[u].len() && #[trigger] splits[s][i] == #[trigger] splits[u][j] ==> s == u && i
            == j
}

proof fn once_in_the_bag(splits: Seq<Seq<Head>>, x: Head)
    requires
        apart(splits),
    ensures
        bag(splits).count(x) <= 1,
    decreases splits.len(),
{
    broadcast use vstd::seq_lib::group_to_multiset_ensures;

    if splits.len() > 0 {
        let d = splits.drop_last();
        let last = splits.last();
        let n = splits.len() - 1;
        assert forall|s: int, i: int, u: int, j: int|
            0 <= s < d.len() && 0 <= i < d[s].len() && 0 <= u < d.len() && 0 <= j < d[u].len()
                && #[trigger] d[s][i] == #[trigger] d[u][j] implies s == u && i == j by {
            assert(splits[s][i] == splits[u][j]);
        }
        once_in_the_bag(d, x);
        in_the_bag(d, x);
        assert forall|i: int, j: int| 0 <= i < last.len() && 0 <= j < last.len() && i != j implies last[i]
            != last[j] by {
            if last[i] == last[j] {
                assert(splits[n][i] == splits[n][j]);
            }
        }
        last.lemma_multiset_has_no_duplicates();
        if bag(d).count(x) > 0 && last.to_multiset().count(x) > 0 {
            let (s, i) = choose|s: int, i: int|
                0 <= s < d.len() && 0 <= i < d[s].len() && #[trigger] d[s][i] == x;
            assert(last.contains(x));
            let j = choose|j: int| 0 <= j < last.len() && last[j] == x;
            assert(splits[s][i] == splits[n][j]);
        }
        if last.to_multiset().count(x) > 0 {
            assert(last.to_multiset().contains(x));
        }
    }
}

/// A walk takes every head of the splits out, each once, in order.
pub proof fn walks_are_whole(splits: Seq<Seq<Head>>)
    requires
        tidy(splits),
    ensures
        ordering::is_ordered(ByHead, walk_of(splits)),
        walk_of(splits).to_multiset() == bag(splits),
{
    broadcast use vstd::seq_lib::group_to_multiset_ensures;

    let f = firsts(splits);
    let heads = ordering::sorted(ByHead, f);
    let left = rests(splits);
    scroll::heads_are_linear();
    ordering::sorted_ordered(ByHead, f, scroll::any_head());
    ordering::sorted_permutes(ByHead, f);
    first_heads(splits);
    assert forall|s: int, i: int| 0 <= s < left.len() && 0 <= i < left[s].len() implies (
    #[trigger] left[s][i]).split == s by {
        assert(left[s][i] == splits[s][i + 1]);
    }
    assert forall|s: int| 0 <= s < left.len() implies ordering::is_ordered(
        ByHead,
        #[trigger] left[s],
    ) by {
        assert(ordering::is_ordered(ByHead, splits[s]));
        assert forall|i: int, j: int| 0 <= i <= j < left[s].len() implies ByHead.le(
            #[trigger] left[s][i],
            #[trigger] left[s][j],
        ) by {
            assert(left[s][i] == splits[s][i + 1] && left[s][j] == splits[s][j + 1]);
        }
    }
    assert forall|s: int| 0 <= s < left.len() && (#[trigger] left[s]).len() > 0 implies exists|
        x: Head,
    | #[trigger] stands_in(heads, left, s, x) by {
        let x = splits[s][0];
        assert(splits[s].len() > 0);
        assert(f.contains(x));
        assert(heads.to_multiset().count(x) > 0);
        assert(ordering::is_ordered(ByHead, splits[s]));
        assert(ByHead.le(splits[s][0], splits[s][1]));
        assert(left[s][0] == splits[s][1]);
        assert(stands_in(heads, left, s, x));
    }
    assert(bag(splits).len() == f.len() + bag(left).len());
    drained_is(heads, left, bag(splits).len());
}

/// Heads in strict key order, each with a key.
spec fn heads_ascend(heads: Seq<Head>) -> bool {
    &&& forall|i: int| 0 <= i < heads.len() ==> key::key_in((#[trigger] heads[i]).key@) is Some
    &&& forall|i: int, j: int|
        0 <= i < j < heads.len() ==> bytes::lex(
            (#[trigger] heads[i]).key@,
            (#[trigger] heads[j]).key@,
        ) is Less
}

proof fn walk_ascends(splits: Seq<Seq<Head>>, docs: Seq<(u64, Key)>, after: Option<Key>)
    requires
        are_splits(splits, docs, after),
    ensures
        heads_ascend(walk_of(splits)),
        forall|x: Head| #[trigger]
            walk_of(splits).contains(x) <==> exists|s: int, i: int|
                0 <= s < splits.len() && 0 <= i < splits[s].len() && #[trigger] splits[s][i] == x,
{
    broadcast use vstd::seq_lib::group_to_multiset_ensures;

    let w = walk_of(splits);
    walks_are_whole(splits);
    assert forall|s: int, i: int, u: int, j: int|
        0 <= s < splits.len() && 0 <= i < splits[s].len() && 0 <= u < splits.len() && 0 <= j
            < splits[u].len() && #[trigger] splits[s][i] == #[trigger] splits[u][j] implies s == u
        && i == j by {
        assert(splits[s][i].key@ == splits[u][j].key@);
    }
    assert forall|x: Head| #[trigger] w.contains(x) <==> exists|s: int, i: int|
        0 <= s < splits.len() && 0 <= i < splits[s].len() && #[trigger] splits[s][i] == x by {
        in_the_bag(splits, x);
        assert(w.contains(x) <==> w.to_multiset().count(x) > 0);
    }
    assert forall|x: Head| w.to_multiset().contains(x) implies w.to_multiset().count(x) == 1 by {
        once_in_the_bag(splits, x);
    }
    w.lemma_multiset_has_no_duplicates_conv();
    assert forall|i: int| 0 <= i < w.len() implies key::key_in((#[trigger] w[i]).key@) is Some by {
        assert(w.contains(w[i]));
        let (s, j) = choose|s: int, j: int|
            0 <= s < splits.len() && 0 <= j < splits[s].len() && #[trigger] splits[s][j] == w[i];
        assert(splits[s][j] == w[i]);
    }
    assert forall|i: int, j: int| 0 <= i < j < w.len() implies bytes::lex(
        (#[trigger] w[i]).key@,
        (#[trigger] w[j]).key@,
    ) is Less by {
        assert(ByHead.le(w[i], w[j]));
        scroll::lex_is_linear(w[i].key@, w[j].key@, w[i].key@);
        if w[i].key@ == w[j].key@ {
            assert(w.contains(w[i]) && w.contains(w[j]));
            let (s, a) = choose|s: int, a: int|
                0 <= s < splits.len() && 0 <= a < splits[s].len() && #[trigger] splits[s][a]
                    == w[i];
            let (u, b) = choose|u: int, b: int|
                0 <= u < splits.len() && 0 <= b < splits[u].len() && #[trigger] splits[u][b]
                    == w[j];
            assert(splits[s][a].key@ == splits[u][b].key@);
            assert(w[i] == w[j]);
        }
    }
}

proof fn key_of_bytes(b: Seq<u8>)
    requires
        key::key_in(b) is Some,
    ensures
        key::encodes(b, key::key_in(b)->0),
{
}

proof fn walked_rows(filter: Option<RoaringTreemap>, heads: Seq<Head>)
    requires
        heads_ascend(heads),
    ensures
        tail_laws::rows_ascend(scroll::walked(filter, heads)),
        forall|row: u64, k: Key| #[trigger]
            scroll::walked(filter, heads).contains((row, k)) <==> scroll::in_filter(filter, row)
                && exists|i: int| 0 <= i < heads.len() && is_head(#[trigger] heads[i], row, k),
    decreases heads.len(),
{
    if heads.len() > 0 {
        let d = heads.drop_last();
        let n = heads.len() - 1;
        let h = heads[n];
        assert forall|i: int| 0 <= i < d.len() implies key::key_in((#[trigger] d[i]).key@)
            is Some by {
            assert(d[i] == heads[i]);
        }
        assert forall|i: int, j: int| 0 <= i < j < d.len() implies bytes::lex(
            (#[trigger] d[i]).key@,
            (#[trigger] d[j]).key@,
        ) is Less by {
            assert(d[i] == heads[i] && d[j] == heads[j]);
        }
        walked_rows(filter, d);
        let sooner = scroll::walked(filter, d);
        let now = scroll::walked(filter, heads);
        let k = key::key_in(h.key@)->0;
        key_of_bytes(h.key@);
        assert forall|row: u64, c: Key| sooner.contains((row, c)) implies tail_merge::before(
            c,
            k,
        ) by {
            let i = choose|i: int| 0 <= i < d.len() && is_head(#[trigger] d[i], row, c);
            assert(d[i] == heads[i]);
            key_of_bytes(heads[i].key@);
            key::canonical_order(c, k);
            assert(bytes::lex(heads[i].key@, heads[n].key@) is Less);
        }
        if scroll::in_filter(filter, h.row) {
            assert(now == sooner.push((h.row, k)));
            assert forall|i: int| 0 <= i < now.len() implies key::is_key((#[trigger] now[i]).1) by {
                if i < sooner.len() {
                    assert(now[i] == sooner[i]);
                }
            }
            assert forall|i: int, j: int| 0 <= i < j < now.len() implies tail_merge::before(
                (#[trigger] now[i]).1,
                (#[trigger] now[j]).1,
            ) by {
                assert(now[i] == sooner[i]);
                if j < sooner.len() {
                    assert(now[j] == sooner[j]);
                } else {
                    assert(sooner.contains((sooner[i].0, sooner[i].1)));
                }
            }
        }
        assert forall|row: u64, c: Key| #[trigger] now.contains((row, c)) <==> scroll::in_filter(
            filter,
            row,
        ) && exists|i: int| 0 <= i < heads.len() && is_head(#[trigger] heads[i], row, c) by {
            if now.contains((row, c)) {
                let p = choose|p: int| 0 <= p < now.len() && now[p] == (row, c);
                if p < sooner.len() {
                    assert(sooner[p] == (row, c));
                    assert(sooner.contains((row, c)));
                    let i = choose|i: int| 0 <= i < d.len() && is_head(#[trigger] d[i], row, c);
                    assert(is_head(heads[i], row, c));
                } else {
                    assert(is_head(heads[n], row, c));
                }
            }
            if scroll::in_filter(filter, row) && exists|i: int|
                0 <= i < heads.len() && is_head(#[trigger] heads[i], row, c) {
                let i = choose|i: int| 0 <= i < heads.len() && is_head(#[trigger] heads[i], row, c);
                if i < n {
                    assert(is_head(d[i], row, c));
                    assert(sooner.contains((row, c)));
                    let p = choose|p: int| 0 <= p < sooner.len() && sooner[p] == (row, c);
                    assert(now[p] == (row, c));
                } else {
                    assert(now[sooner.len() as int] == (row, c));
                }
            }
        }
    }
}

proof fn keyed_after_holds(looked: Seq<(u64, PrimaryKey)>, after: Option<Key>, x: (u64, PrimaryKey))
    ensures
        scroll::keyed_after(looked, after).to_multiset().count(x) == (if tail_merge::follows(
            x.1@,
            after,
        ) {
            looked.to_multiset().count(x)
        } else {
            0
        }),
    decreases looked.len(),
{
    broadcast use vstd::seq_lib::group_to_multiset_ensures;

    if looked.len() > 0 {
        let d = looked.drop_last();
        keyed_after_holds(d, after, x);
        assert(d.push(looked.last()) =~= looked);
    } else {
        assert(looked.to_multiset().count(x) == 0);
    }
}

proof fn lookup_rows(
    looked: Seq<(u64, PrimaryKey)>,
    docs: Seq<(u64, Key)>,
    rows: Set<u64>,
    after: Option<Key>,
)
    requires
        tail_laws::rows_ascend(docs),
        are_looked_up(looked, docs, rows),
    ensures
        ({
            let r = tail_merge::row_views(
                ordering::sorted(ByKey, scroll::keyed_after(looked, after)),
            );
            &&& tail_laws::rows_ascend(r)
            &&& forall|row: u64, k: Key| #[trigger]
                r.contains((row, k)) <==> docs.contains((row, k)) && rows.contains(row)
                    && tail_merge::follows(k, after)
        }),
{
    broadcast use vstd::seq_lib::group_to_multiset_ensures;

    let kept = scroll::keyed_after(looked, after);
    let s = ordering::sorted(ByKey, kept);
    let r = tail_merge::row_views(s);
    scroll::keyed_is_linear();
    ordering::sorted_ordered(ByKey, kept, scroll::any_keyed());
    ordering::sorted_permutes(ByKey, kept);
    assert forall|i: int, j: int| 0 <= i < looked.len() && 0 <= j < looked.len() && i != j implies looked[i]
        != looked[j] by {
        if looked[i] == looked[j] {
            assert(looked[i].1@ == looked[j].1@);
        }
    }
    looked.lemma_multiset_has_no_duplicates();
    assert forall|x: (u64, PrimaryKey)| s.to_multiset().contains(x) implies s.to_multiset().count(
        x,
    ) == 1 by {
        keyed_after_holds(looked, after, x);
        assert(looked.to_multiset().contains(x));
    }
    s.lemma_multiset_has_no_duplicates_conv();
    assert forall|i: int| 0 <= i < s.len() implies looked.contains(#[trigger] s[i])
        && tail_merge::follows(s[i].1@, after) by {
        assert(s.contains(s[i]));
        assert(s.to_multiset().count(s[i]) > 0);
        keyed_after_holds(looked, after, s[i]);
    }
    assert forall|i: int| 0 <= i < r.len() implies key::is_key((#[trigger] r[i]).1) by {
        assert(looked.contains(s[i]));
        let p = choose|p: int| 0 <= p < looked.len() && looked[p] == s[i];
        assert(docs.contains((looked[p].0, looked[p].1@)));
        let q = choose|q: int| 0 <= q < docs.len() && docs[q] == (looked[p].0, looked[p].1@);
        assert(key::is_key(docs[q].1));
    }
    assert forall|i: int, j: int| 0 <= i < j < r.len() implies tail_merge::before(
        (#[trigger] r[i]).1,
        (#[trigger] r[j]).1,
    ) by {
        assert(key::is_key(r[i].1) && key::is_key(r[j].1));
        assert(ByKey.le(s[i], s[j]));
        key::canonical_order(r[i].1, r[j].1);
        if r[i].1 == r[j].1 {
            assert(looked.contains(s[i]) && looked.contains(s[j]));
            let p = choose|p: int| 0 <= p < looked.len() && looked[p] == s[i];
            let q = choose|q: int| 0 <= q < looked.len() && looked[q] == s[j];
            assert(looked[p].1@ == looked[q].1@);
            assert(s[i] == s[j]);
        }
    }
    assert forall|row: u64, k: Key| #[trigger] r.contains((row, k)) <==> docs.contains((row, k))
        && rows.contains(row) && tail_merge::follows(k, after) by {
        if r.contains((row, k)) {
            let i = choose|i: int| 0 <= i < r.len() && r[i] == (row, k);
            assert(looked.contains(s[i]));
            let p = choose|p: int| 0 <= p < looked.len() && looked[p] == s[i];
            assert(docs.contains((looked[p].0, looked[p].1@)));
        }
        if docs.contains((row, k)) && rows.contains(row) && tail_merge::follows(k, after) {
            let p = choose|p: int|
                0 <= p < looked.len() && (#[trigger] looked[p]).0 == row && looked[p].1@ == k;
            let x = looked[p];
            assert(looked.contains(x));
            keyed_after_holds(looked, after, x);
            assert(s.to_multiset().count(x) > 0);
            assert(s.contains(x));
            let i = choose|i: int| 0 <= i < s.len() && s[i] == x;
            assert(r[i] == (row, k));
        }
    }
}

proof fn same_rows(a: Seq<(u64, Key)>, b: Seq<(u64, Key)>)
    requires
        tail_laws::rows_ascend(a),
        tail_laws::rows_ascend(b),
        forall|row: u64, k: Key| #[trigger] a.contains((row, k)) <==> b.contains((row, k)),
    ensures
        a == b,
    decreases a.len(),
{
    if a.len() == 0 {
        if b.len() > 0 {
            assert(b.contains((b[0].0, b[0].1)));
            assert(a.contains((b[0].0, b[0].1)));
        }
        assert(a =~= b);
    } else {
        assert(a.contains((a[0].0, a[0].1)));
        assert(b.contains((a[0].0, a[0].1)));
        let j = choose|j: int| 0 <= j < b.len() && b[j] == a[0];
        assert(b.contains((b[0].0, b[0].1)));
        assert(a.contains((b[0].0, b[0].1)));
        let i = choose|i: int| 0 <= i < a.len() && a[i] == b[0];
        if i > 0 && j > 0 {
            assert(tail_merge::before(a[0].1, a[i].1));
            assert(tail_merge::before(b[0].1, b[j].1));
            key::key_sign_flips(a[0].1, b[0].1);
        }
        assert(a[0] == b[0]);
        let c = a.drop_first();
        let d = b.drop_first();
        assert forall|n: int| 0 <= n < c.len() implies key::is_key((#[trigger] c[n]).1) by {
            assert(c[n] == a[n + 1]);
        }
        assert forall|n: int| 0 <= n < d.len() implies key::is_key((#[trigger] d[n]).1) by {
            assert(d[n] == b[n + 1]);
        }
        assert forall|n: int, m: int| 0 <= n < m < c.len() implies tail_merge::before(
            (#[trigger] c[n]).1,
            (#[trigger] c[m]).1,
        ) by {
            assert(c[n] == a[n + 1] && c[m] == a[m + 1]);
        }
        assert forall|n: int, m: int| 0 <= n < m < d.len() implies tail_merge::before(
            (#[trigger] d[n]).1,
            (#[trigger] d[m]).1,
        ) by {
            assert(d[n] == b[n + 1] && d[m] == b[m + 1]);
        }
        assert forall|row: u64, k: Key| #[trigger] c.contains((row, k)) <==> d.contains(
            (row, k),
        ) by {
            if c.contains((row, k)) {
                behind_the_first(a, b, row, k);
            }
            if d.contains((row, k)) {
                behind_the_first(b, a, row, k);
            }
        }
        same_rows(c, d);
        assert(seq![a[0]] + c =~= a);
        assert(seq![b[0]] + d =~= b);
    }
}

proof fn behind_the_first(a: Seq<(u64, Key)>, b: Seq<(u64, Key)>, row: u64, k: Key)
    requires
        tail_laws::rows_ascend(a),
        forall|row: u64, k: Key| #[trigger] a.contains((row, k)) <==> b.contains((row, k)),
        a.len() > 0,
        b.len() > 0,
        a[0] == b[0],
        a.drop_first().contains((row, k)),
    ensures
        b.drop_first().contains((row, k)),
{
    let c = a.drop_first();
    let n = choose|n: int| 0 <= n < c.len() && c[n] == (row, k);
    assert(a[n + 1] == (row, k));
    assert(a.contains((row, k)));
    assert(tail_merge::before(a[0].1, a[n + 1].1));
    key::canonical_order(a[0].1, k);
    assert(b.contains((row, k)));
    let m = choose|m: int| 0 <= m < b.len() && b[m] == (row, k);
    assert(b.drop_first()[m - 1] == (row, k));
}

/// The two ways give one page: of the live durable documents `docs`, a walk
/// of the splits that keeps the rows of a filter, and a lookup of the
/// filter's rows that is sorted, give the same rows after a key, and so the
/// same page with any tail.
pub proof fn both_ways_give_one_page(
    docs: Seq<(u64, Key)>,
    splits: Seq<Seq<Head>>,
    looked: Seq<(u64, PrimaryKey)>,
    filter: RoaringTreemap,
    t: Seq<(Key, Option<u64>)>,
    after: Option<Key>,
    limit: nat,
)
    requires
        tail_laws::rows_ascend(docs),
        are_splits(splits, docs, after),
        are_looked_up(looked, docs, mask::treemap_rows(filter)),
    ensures
        ({
            let walk = scroll::walked(Some(filter), walk_of(splits));
            let lookup = tail_merge::row_views(
                ordering::sorted(ByKey, scroll::keyed_after(looked, after)),
            );
            &&& walk == lookup
            &&& tail_laws::rows_ascend(walk)
            &&& forall|row: u64, k: Key| #[trigger]
                walk.contains((row, k)) <==> docs.contains((row, k)) && mask::treemap_rows(
                    filter,
                ).contains(row) && tail_merge::follows(k, after)
            &&& tail_merge::page_of(walk, t, after, limit) == tail_merge::page_of(
                lookup,
                t,
                after,
                limit,
            )
        }),
{
    let rows = mask::treemap_rows(filter);
    let w = walk_of(splits);
    let walk = scroll::walked(Some(filter), w);
    let lookup = tail_merge::row_views(
        ordering::sorted(ByKey, scroll::keyed_after(looked, after)),
    );
    walk_ascends(splits, docs, after);
    walked_rows(Some(filter), w);
    lookup_rows(looked, docs, rows, after);
    assert forall|row: u64, k: Key| #[trigger] walk.contains((row, k)) <==> docs.contains((row, k))
        && rows.contains(row) && tail_merge::follows(k, after) by {
        if walk.contains((row, k)) {
            let i = choose|i: int| 0 <= i < w.len() && is_head(#[trigger] w[i], row, k);
            assert(w.contains(w[i]));
            let (s, j) = choose|s: int, j: int|
                0 <= s < splits.len() && 0 <= j < splits[s].len() && #[trigger] splits[s][j]
                    == w[i];
            assert(splits[s][j] == w[i]);
        }
        if docs.contains((row, k)) && rows.contains(row) && tail_merge::follows(k, after) {
            let (s, j) = choose|s: int, j: int|
                0 <= s < splits.len() && 0 <= j < splits[s].len() && is_head(
                    #[trigger] splits[s][j],
                    row,
                    k,
                );
            assert(w.contains(splits[s][j]));
            let i = choose|i: int| 0 <= i < w.len() && w[i] == splits[s][j];
            assert(is_head(w[i], row, k));
        }
    }
    assert forall|row: u64, k: Key| #[trigger] walk.contains((row, k)) <==> lookup.contains(
        (row, k),
    ) by {
        assert(lookup.contains((row, k)) <==> docs.contains((row, k)) && rows.contains(row)
            && tail_merge::follows(k, after));
    }
    same_rows(walk, lookup);
}

/// The durable rows and keys that a page reads from a source: of a walk of
/// the splits, or of a lookup that is sorted.
pub open spec fn durable_of(
    source: Source,
    splits: Seq<Seq<Head>>,
    looked: Seq<(u64, PrimaryKey)>,
    after: Option<Key>,
) -> Seq<(u64, Key)> {
    match source {
        Source::Nothing => Seq::empty(),
        Source::Walk { filter, .. } => scroll::walked(filter, walk_of(splits)),
        Source::Sorted(_) => tail_merge::row_views(
            ordering::sorted(ByKey, scroll::keyed_after(looked, after)),
        ),
    }
}

/// The page that a source gives with the tail's entries.
pub open spec fn source_page(
    source: Source,
    splits: Seq<Seq<Head>>,
    looked: Seq<(u64, PrimaryKey)>,
    entries: Seq<(PrimaryKey, TailLookup)>,
    tail_rows: Set<u64>,
    after: Option<Key>,
    limit: nat,
) -> Seq<(u64, Key)> {
    if source is Nothing {
        Seq::empty()
    } else {
        tail_merge::page_of(
            durable_of(source, splits, looked, after),
            tail_merge::overlay(entries, tail_rows, after),
            after,
            limit,
        )
    }
}

/// The durable rows of a set.
pub open spec fn durable_wanted(rows: RowSet, base: u64) -> Set<u64> {
    match rows {
        RowSet::All => Set::full(),
        RowSet::Rows(t) => mask::below(mask::treemap_rows(t), base),
    }
}

/// The tail's rows of a set.
pub open spec fn tail_wanted(rows: RowSet, base: u64) -> Set<u64> {
    match rows {
        RowSet::All => Set::full(),
        RowSet::Rows(t) => mask::from(mask::treemap_rows(t), base),
    }
}

/// Whether a row with a key is live and wanted: the tail keeps it, or it is
/// a durable document of the set of which the tail holds nothing.
pub open spec fn live_and_wanted(
    docs: Seq<(u64, Key)>,
    entries: Seq<(PrimaryKey, TailLookup)>,
    rows: RowSet,
    base: u64,
    row: u64,
    k: Key,
) -> bool {
    let t = tail_merge::overlay(entries, tail_wanted(rows, base), None);
    t.contains((k, Some(row))) || (docs.contains((row, k)) && durable_wanted(rows, base).contains(
        row,
    ) && !tail_laws::holds(t, k))
}

proof fn durable_rows_are(
    source: Source,
    rows: RowSet,
    base: u64,
    threshold: u64,
    docs: Seq<(u64, Key)>,
    splits: Seq<Seq<Head>>,
    looked: Seq<(u64, PrimaryKey)>,
    after: Option<Key>,
    limit: nat,
)
    requires
        limit > 0,
        scroll::is_source(source, rows, after, limit, base, threshold),
        tail_laws::rows_ascend(docs),
        are_splits(splits, docs, after),
        rows is Rows ==> are_looked_up(looked, docs, durable_wanted(rows, base)),
    ensures
        tail_laws::rows_ascend(durable_of(source, splits, looked, after)),
        forall|row: u64, k: Key| #[trigger]
            durable_of(source, splits, looked, after).contains((row, k)) <==> docs.contains(
                (row, k),
            ) && durable_wanted(rows, base).contains(row) && tail_merge::follows(k, after),
{
    match source {
        Source::Nothing => {},
        Source::Sorted(_) => {
            lookup_rows(looked, docs, durable_wanted(rows, base), after);
        },
        Source::Walk { filter, .. } => {
            let w = walk_of(splits);
            let walk = scroll::walked(filter, w);
            walk_ascends(splits, docs, after);
            walked_rows(filter, w);
            assert forall|row: u64| scroll::in_filter(filter, row) == durable_wanted(
                rows,
                base,
            ).contains(row) by {}
            assert forall|row: u64, k: Key| #[trigger] walk.contains((row, k)) <==> docs.contains(
                (row, k),
            ) && durable_wanted(rows, base).contains(row) && tail_merge::follows(k, after) by {
                if walk.contains((row, k)) {
                    let i = choose|i: int| 0 <= i < w.len() && is_head(#[trigger] w[i], row, k);
                    assert(w.contains(w[i]));
                    let (s, j) = choose|s: int, j: int|
                        0 <= s < splits.len() && 0 <= j < splits[s].len()
                            && #[trigger] splits[s][j] == w[i];
                    assert(splits[s][j] == w[i]);
                }
                if docs.contains((row, k)) && tail_merge::follows(k, after) {
                    let (s, j) = choose|s: int, j: int|
                        0 <= s < splits.len() && 0 <= j < splits[s].len() && is_head(
                            #[trigger] splits[s][j],
                            row,
                            k,
                        );
                    assert(w.contains(splits[s][j]));
                    let i = choose|i: int| 0 <= i < w.len() && w[i] == splits[s][j];
                    assert(is_head(w[i], row, k));
                }
            }
        },
    }
}

/// How many rows are sorted instead of walked changes no page: with any two
/// thresholds the page is the first `limit` live rows of the set after the
/// key, strictly ascending by key, and none for a limit of zero.
pub proof fn pages_do_not_depend_on_the_threshold(
    a: Source,
    b: Source,
    p: u64,
    q: u64,
    rows: RowSet,
    base: u64,
    docs: Seq<(u64, Key)>,
    splits: Seq<Seq<Head>>,
    looked: Seq<(u64, PrimaryKey)>,
    entries: Seq<(PrimaryKey, TailLookup)>,
    after: Option<Key>,
    limit: nat,
)
    requires
        scroll::is_source(a, rows, after, limit, base, p),
        scroll::is_source(b, rows, after, limit, base, q),
        tail_laws::rows_ascend(docs),
        are_splits(splits, docs, after),
        rows is Rows ==> are_looked_up(looked, docs, durable_wanted(rows, base)),
        tail_laws::keys_ascend(tail_merge::overlay(entries, tail_wanted(rows, base), None)),
        after matches Some(k) ==> key::is_key(k),
    ensures
        ({
            let wanted = tail_wanted(rows, base);
            let page = source_page(a, splits, looked, entries, wanted, after, limit);
            &&& source_page(b, splits, looked, entries, wanted, after, limit) == page
            &&& tail_laws::rows_ascend(page)
            &&& page.len() <= limit
            &&& forall|row: u64, k: Key| #[trigger]
                page.contains((row, k)) ==> tail_merge::follows(k, after) && live_and_wanted(
                    docs,
                    entries,
                    rows,
                    base,
                    row,
                    k,
                )
            &&& forall|row: u64, k: Key| #[trigger]
                live_and_wanted(docs, entries, rows, base, row, k) && tail_merge::follows(k, after)
                    ==> page.contains((row, k)) || (page.len() == limit && forall|i: int|
                    0 <= i < limit ==> tail_merge::before((#[trigger] page[i]).1, k))
        }),
{
    let wanted = tail_wanted(rows, base);
    let page = source_page(a, splits, looked, entries, wanted, after, limit);
    if limit > 0 {
        let d = durable_of(a, splits, looked, after);
        let e = durable_of(b, splits, looked, after);
        let t = tail_merge::overlay(entries, wanted, None);
        durable_rows_are(a, rows, base, p, docs, splits, looked, after, limit);
        durable_rows_are(b, rows, base, q, docs, splits, looked, after, limit);
        assert forall|row: u64, k: Key| #[trigger] d.contains((row, k)) <==> e.contains((row, k)) by {
            assert(e.contains((row, k)) <==> docs.contains((row, k)) && durable_wanted(
                rows,
                base,
            ).contains(row) && tail_merge::follows(k, after));
        }
        same_rows(d, e);
        tail_laws::overlays_are_cut(entries, wanted, after);
        assert(page == tail_laws::page_after(d, t, after, limit));
        tail_laws::pages_hold_the_live_rows(d, t, after, limit, 0, Key::U64(0));
        assert forall|row: u64, k: Key| #[trigger] page.contains((row, k)) implies (
        tail_merge::follows(k, after) && live_and_wanted(docs, entries, rows, base, row, k)) by {
            tail_laws::pages_hold_the_live_rows(d, t, after, limit, row, k);
        }
        assert forall|row: u64, k: Key| #[trigger]
            live_and_wanted(docs, entries, rows, base, row, k) && tail_merge::follows(
                k,
                after,
            ) implies page.contains((row, k)) || (page.len() == limit && forall|i: int|
            0 <= i < limit ==> tail_merge::before((#[trigger] page[i]).1, k)) by {
            tail_laws::pages_hold_the_live_rows(d, t, after, limit, row, k);
        }
    }
}

} // verus!
