//! What a merge with the tail keeps: key order, the tail's word on every
//! key it holds, and pages that follow one another.

use crate::exec::planner;
use crate::exec::tail_merge;
use crate::exec::tail_merge::TailLookup;
use crate::key;
use crate::key::{Key, PrimaryKey};
use vstd::prelude::*;

verus! {

/// Rows in key order, no key twice.
pub open spec fn rows_ascend(d: Seq<(u64, Key)>) -> bool {
    &&& forall|i: int| 0 <= i < d.len() ==> key::is_key((#[trigger] d[i]).1)
    &&& forall|i: int, j: int|
        0 <= i < j < d.len() ==> tail_merge::before((#[trigger] d[i]).1, (#[trigger] d[j]).1)
}

/// Overlay keys in key order, none twice.
pub open spec fn keys_ascend(t: Seq<(Key, Option<u64>)>) -> bool {
    &&& forall|i: int| 0 <= i < t.len() ==> key::is_key((#[trigger] t[i]).0)
    &&& forall|i: int, j: int|
        0 <= i < j < t.len() ==> tail_merge::before((#[trigger] t[i]).0, (#[trigger] t[j]).0)
}

/// Whether the tail holds a key.
pub open spec fn holds(t: Seq<(Key, Option<u64>)>, k: Key) -> bool {
    exists|i: int| 0 <= i < t.len() && (#[trigger] t[i]).0 == k
}

proof fn before_chain(a: Key, b: Key, c: Key)
    requires
        key::is_key(a),
        key::is_key(b),
        key::is_key(c),
        tail_merge::before(a, b),
        tail_merge::before(b, c) || b == c,
    ensures
        tail_merge::before(a, c),
        a != c,
{
    if b != c {
        key::key_sign_transitive(a, b, c);
    }
    key::canonical_order(a, b);
    key::canonical_order(a, c);
    key::key_sign_flips(a, b);
}

proof fn contains_sum<T>(a: Seq<T>, b: Seq<T>, x: T)
    ensures
        (a + b).contains(x) <==> a.contains(x) || b.contains(x),
{
    if a.contains(x) {
        let i = choose|i: int| 0 <= i < a.len() && a[i] == x;
        assert((a + b)[i] == x);
    }
    if b.contains(x) {
        let i = choose|i: int| 0 <= i < b.len() && b[i] == x;
        assert((a + b)[a.len() + i] == x);
    }
    if (a + b).contains(x) {
        let i = choose|i: int| 0 <= i < (a + b).len() && (a + b)[i] == x;
        if i < a.len() {
            assert(a[i] == x);
        } else {
            assert(b[i - a.len()] == x);
        }
    }
}

proof fn contains_first<T>(s: Seq<T>, x: T)
    requires
        s.len() > 0,
    ensures
        s.contains(x) <==> s[0] == x || s.drop_first().contains(x),
{
    assert(s =~= seq![s[0]] + s.drop_first());
    contains_sum(seq![s[0]], s.drop_first(), x);
    assert(seq![s[0]].contains(x) <==> s[0] == x) by {
        assert(seq![s[0]][0] == s[0]);
    }
}

proof fn tail_step(t: Seq<(Key, Option<u64>)>)
    requires
        keys_ascend(t),
        t.len() > 0,
    ensures
        keys_ascend(t.drop_first()),
        forall|k: Key| #[trigger] holds(t, k) <==> t[0].0 == k || holds(t.drop_first(), k),
        forall|k: Key| #[trigger]
            holds(t.drop_first(), k) ==> tail_merge::before(t[0].0, k) && t[0].0 != k
                && key::is_key(k),
{
    let u = t.drop_first();
    assert forall|i: int| 0 <= i < u.len() implies key::is_key((#[trigger] u[i]).0) by {
        assert(u[i] == t[i + 1]);
    }
    assert forall|i: int, j: int| 0 <= i < j < u.len() implies tail_merge::before(
        (#[trigger] u[i]).0,
        (#[trigger] u[j]).0,
    ) by {
        assert(u[i] == t[i + 1] && u[j] == t[j + 1]);
    }
    assert forall|k: Key| #[trigger] holds(t, k) <==> t[0].0 == k || holds(u, k) by {
        if holds(t, k) {
            let i = choose|i: int| 0 <= i < t.len() && (#[trigger] t[i]).0 == k;
            if i > 0 {
                assert(u[i - 1].0 == k);
            }
        }
        if holds(u, k) {
            let i = choose|i: int| 0 <= i < u.len() && (#[trigger] u[i]).0 == k;
            assert(t[i + 1].0 == k);
        }
    }
    assert forall|k: Key| #[trigger] holds(u, k) implies tail_merge::before(t[0].0, k) && t[0].0
        != k && key::is_key(k) by {
        let i = choose|i: int| 0 <= i < u.len() && (#[trigger] u[i]).0 == k;
        assert(t[i + 1].0 == k);
        key::canonical_order(t[0].0, k);
    }
}

proof fn row_step(d: Seq<(u64, Key)>)
    requires
        rows_ascend(d),
        d.len() > 0,
    ensures
        rows_ascend(d.drop_first()),
        forall|row: u64, k: Key| #[trigger]
            d.drop_first().contains((row, k)) ==> tail_merge::before(d[0].1, k) && d[0].1 != k
                && key::is_key(k),
{
    let e = d.drop_first();
    assert forall|i: int| 0 <= i < e.len() implies key::is_key((#[trigger] e[i]).1) by {
        assert(e[i] == d[i + 1]);
    }
    assert forall|i: int, j: int| 0 <= i < j < e.len() implies tail_merge::before(
        (#[trigger] e[i]).1,
        (#[trigger] e[j]).1,
    ) by {
        assert(e[i] == d[i + 1] && e[j] == d[j + 1]);
    }
    assert forall|row: u64, k: Key| #[trigger] e.contains((row, k)) implies tail_merge::before(
        d[0].1,
        k,
    ) && d[0].1 != k && key::is_key(k) by {
        let i = choose|i: int| 0 <= i < e.len() && e[i] == (row, k);
        assert(d[i + 1].1 == k);
        key::canonical_order(d[0].1, k);
    }
}

proof fn kept_contains(t: (Key, Option<u64>), row: u64, k: Key)
    ensures
        tail_merge::kept_row(t).contains((row, k)) <==> t == (k, Some(row)),
{
    if t.1 is Some {
        assert(tail_merge::kept_row(t)[0] == (t.1->0, t.0));
    }
}

proof fn kept_rows_are_the_tails(t: Seq<(Key, Option<u64>)>, row: u64, k: Key)
    ensures
        tail_merge::kept_rows(t).contains((row, k)) <==> t.contains((k, Some(row))),
    decreases t.len(),
{
    if t.len() > 0 {
        kept_rows_are_the_tails(t.drop_first(), row, k);
        kept_contains(t[0], row, k);
        contains_sum(tail_merge::kept_row(t[0]), tail_merge::kept_rows(t.drop_first()), (row, k));
        contains_first(t, (k, Some(row)));
    }
}

proof fn entry_holds(t: Seq<(Key, Option<u64>)>, row: u64, k: Key)
    ensures
        t.contains((k, Some(row))) ==> holds(t, k),
{
    if t.contains((k, Some(row))) {
        let i = choose|i: int| 0 <= i < t.len() && t[i] == (k, Some(row));
        assert(t[i].0 == k);
    }
}

/// A row is in the merge exactly when the tail keeps it, or when it is
/// durable and the tail holds nothing of its key.
pub proof fn the_tail_wins(d: Seq<(u64, Key)>, t: Seq<(Key, Option<u64>)>, row: u64, k: Key)
    requires
        rows_ascend(d),
        keys_ascend(t),
    ensures
        tail_merge::merged(d, t).contains((row, k)) <==> t.contains((k, Some(row))) || (
        d.contains((row, k)) && !holds(t, k)),
    decreases d.len() + t.len(),
{
    let x = (row, k);
    entry_holds(t, row, k);
    if d.len() == 0 {
        kept_rows_are_the_tails(t, row, k);
    } else {
        row_step(d);
        contains_first(d, x);
        if t.len() > 0 {
            tail_step(t);
            entry_holds(t.drop_first(), row, k);
            kept_contains(t[0], row, k);
            contains_first(t, (k, Some(row)));
        }
        if t.len() > 0 && tail_merge::before(t[0].0, d[0].1) {
            the_tail_wins(d, t.drop_first(), row, k);
            contains_sum(
                tail_merge::kept_row(t[0]),
                tail_merge::merged(d, t.drop_first()),
                x,
            );
            if d.contains(x) && t[0].0 == k {
                if d[0] == x {
                    key::canonical_order(k, k);
                } else {
                    before_chain(t[0].0, d[0].1, k);
                }
            }
        } else if t.len() > 0 && t[0].0 == d[0].1 {
            the_tail_wins(d.drop_first(), t.drop_first(), row, k);
            contains_sum(
                tail_merge::kept_row(t[0]),
                tail_merge::merged(d.drop_first(), t.drop_first()),
                x,
            );
        } else {
            the_tail_wins(d.drop_first(), t, row, k);
            contains_sum(seq![d[0]], tail_merge::merged(d.drop_first(), t), x);
            assert(seq![d[0]].contains(x) <==> d[0] == x) by {
                assert(seq![d[0]][0] == d[0]);
            }
            if d[0] == x && holds(t, k) {
                key::canonical_order(t[0].0, d[0].1);
                key::key_sign_flips(t[0].0, d[0].1);
                if t[0].0 != k {
                    before_chain(d[0].1, t[0].0, k);
                }
            }
        }
    }
}

proof fn ascends_from(head: Seq<(u64, Key)>, rest: Seq<(u64, Key)>)
    requires
        rows_ascend(rest),
        head.len() <= 1,
        head.len() == 1 ==> key::is_key(head[0].1),
        forall|row: u64, k: Key|
            head.len() == 1 && #[trigger] rest.contains((row, k)) ==> tail_merge::before(
                head[0].1,
                k,
            ),
    ensures
        rows_ascend(head + rest),
{
    let s = head + rest;
    assert forall|i: int| 0 <= i < s.len() implies key::is_key((#[trigger] s[i]).1) by {
        if i >= head.len() {
            assert(s[i] == rest[i - head.len()]);
        }
    }
    assert forall|i: int, j: int| 0 <= i < j < s.len() implies tail_merge::before(
        (#[trigger] s[i]).1,
        (#[trigger] s[j]).1,
    ) by {
        assert(s[j] == rest[j - head.len()]);
        assert(rest.contains((s[j].0, s[j].1)));
        if i >= head.len() {
            assert(s[i] == rest[i - head.len()]);
        }
    }
}

/// The merge of rows in key order with overlay keys in key order is in key
/// order, and no key is in it twice.
pub proof fn merges_are_in_key_order(d: Seq<(u64, Key)>, t: Seq<(Key, Option<u64>)>)
    requires
        rows_ascend(d),
        keys_ascend(t),
    ensures
        rows_ascend(tail_merge::merged(d, t)),
    decreases d.len() + t.len(),
{
    if t.len() > 0 {
        tail_step(t);
    }
    if d.len() > 0 {
        row_step(d);
    }
    if d.len() == 0 {
        if t.len() > 0 {
            let u = t.drop_first();
            merges_are_in_key_order(d, u);
            let rest = tail_merge::kept_rows(u);
            assert forall|row: u64, k: Key| #[trigger] rest.contains((row, k)) implies
                tail_merge::before(t[0].0, k) by {
                kept_rows_are_the_tails(u, row, k);
                entry_holds(u, row, k);
            }
            ascends_from(tail_merge::kept_row(t[0]), rest);
        }
    } else if t.len() > 0 && tail_merge::before(t[0].0, d[0].1) {
        let u = t.drop_first();
        merges_are_in_key_order(d, u);
        let rest = tail_merge::merged(d, u);
        assert forall|row: u64, k: Key| #[trigger] rest.contains((row, k)) implies
            tail_merge::before(t[0].0, k) by {
            the_tail_wins(d, u, row, k);
            entry_holds(u, row, k);
            if d.contains((row, k)) {
                contains_first(d, (row, k));
                if d[0] != (row, k) {
                    before_chain(t[0].0, d[0].1, k);
                }
            }
        }
        ascends_from(tail_merge::kept_row(t[0]), rest);
    } else if t.len() > 0 && t[0].0 == d[0].1 {
        let u = t.drop_first();
        let e = d.drop_first();
        merges_are_in_key_order(e, u);
        let rest = tail_merge::merged(e, u);
        assert forall|row: u64, k: Key| #[trigger] rest.contains((row, k)) implies
            tail_merge::before(t[0].0, k) by {
            the_tail_wins(e, u, row, k);
            entry_holds(u, row, k);
        }
        ascends_from(tail_merge::kept_row(t[0]), rest);
    } else {
        let e = d.drop_first();
        merges_are_in_key_order(e, t);
        let rest = tail_merge::merged(e, t);
        assert forall|row: u64, k: Key| #[trigger] rest.contains((row, k)) implies
            tail_merge::before(d[0].1, k) by {
            the_tail_wins(e, t, row, k);
            entry_holds(t, row, k);
            if holds(t, k) {
                key::canonical_order(t[0].0, d[0].1);
                key::key_sign_flips(t[0].0, d[0].1);
                if t[0].0 != k {
                    before_chain(d[0].1, t[0].0, k);
                }
            }
        }
        ascends_from(seq![d[0]], rest);
    }
}

/// The overlay keys after a key.
pub open spec fn tail_after(t: Seq<(Key, Option<u64>)>, after: Key) -> Seq<(Key, Option<u64>)>
    decreases t.len(),
{
    if t.len() == 0 {
        t
    } else {
        let rest = tail_after(t.drop_first(), after);
        if tail_merge::before(after, t[0].0) {
            seq![t[0]] + rest
        } else {
            rest
        }
    }
}

proof fn tail_all_after(t: Seq<(Key, Option<u64>)>, after: Key)
    requires
        keys_ascend(t),
        key::is_key(after),
        t.len() > 0 ==> tail_merge::before(after, t[0].0),
    ensures
        tail_after(t, after) == t,
    decreases t.len(),
{
    if t.len() > 0 {
        tail_step(t);
        let u = t.drop_first();
        if u.len() > 0 {
            assert(u[0] == t[1]);
            before_chain(after, t[0].0, u[0].0);
        }
        tail_all_after(u, after);
        assert(seq![t[0]] + u =~= t);
    }
}

proof fn rows_all_after(d: Seq<(u64, Key)>, after: Key)
    requires
        rows_ascend(d),
        key::is_key(after),
        d.len() > 0 ==> tail_merge::before(after, d[0].1),
    ensures
        tail_merge::rows_after(d, Some(after)) == d,
    decreases d.len(),
{
    if d.len() > 0 {
        row_step(d);
        let e = d.drop_first();
        if e.len() > 0 {
            assert(e[0] == d[1]);
            before_chain(after, d[0].1, e[0].1);
        }
        rows_all_after(e, after);
        assert(seq![d[0]] + e =~= d);
    }
}

proof fn rows_after_head(head: Seq<(u64, Key)>, rest: Seq<(u64, Key)>, after: Key)
    requires
        head.len() <= 1,
        head.len() == 1 ==> !tail_merge::before(after, head[0].1),
    ensures
        tail_merge::rows_after(head + rest, Some(after)) == tail_merge::rows_after(
            rest,
            Some(after),
        ),
{
    if head.len() == 1 {
        assert((head + rest).drop_first() =~= rest);
    } else {
        assert(head + rest =~= rest);
    }
}

/// The part of a merge after a key is the merge of the parts after it.
pub proof fn merges_resume(d: Seq<(u64, Key)>, t: Seq<(Key, Option<u64>)>, after: Key)
    requires
        rows_ascend(d),
        keys_ascend(t),
        key::is_key(after),
    ensures
        tail_merge::rows_after(tail_merge::merged(d, t), Some(after)) == tail_merge::merged(
            tail_merge::rows_after(d, Some(after)),
            tail_after(t, after),
        ),
    decreases d.len() + t.len(),
{
    let whole = tail_merge::merged(d, t);
    merges_are_in_key_order(d, t);
    let first_t = t.len() > 0 && (d.len() == 0 || tail_merge::before(t[0].0, d[0].1) || t[0].0
        == d[0].1);
    if t.len() == 0 && d.len() == 0 {
    } else if first_t {
        tail_step(t);
        let u = t.drop_first();
        if tail_merge::before(after, t[0].0) {
            tail_all_after(t, after);
            if d.len() > 0 {
                before_chain(after, t[0].0, d[0].1);
            }
            rows_all_after(d, after);
            assert forall|row: u64, k: Key| whole.contains((row, k)) implies tail_merge::before(
                after,
                k,
            ) by {
                the_tail_wins(d, t, row, k);
                entry_holds(t, row, k);
                if t[0].0 != k {
                    if holds(t, k) {
                        before_chain(after, t[0].0, k);
                    } else {
                        contains_first(d, (row, k));
                        row_step(d);
                        if d[0] != (row, k) {
                            before_chain(after, d[0].1, k);
                        }
                    }
                }
            }
            if whole.len() > 0 {
                assert(whole.contains((whole[0].0, whole[0].1)));
            }
            rows_all_after(whole, after);
        } else {
            if d.len() > 0 && t[0].0 == d[0].1 {
                row_step(d);
                merges_resume(d.drop_first(), u, after);
                rows_after_head(
                    tail_merge::kept_row(t[0]),
                    tail_merge::merged(d.drop_first(), u),
                    after,
                );
            } else {
                merges_resume(d, u, after);
                rows_after_head(tail_merge::kept_row(t[0]), tail_merge::merged(d, u), after);
            }
        }
    } else {
        row_step(d);
        let e = d.drop_first();
        if t.len() > 0 {
            key::canonical_order(t[0].0, d[0].1);
            key::key_sign_flips(t[0].0, d[0].1);
        }
        if tail_merge::before(after, d[0].1) {
            rows_all_after(d, after);
            if t.len() > 0 {
                before_chain(after, d[0].1, t[0].0);
            }
            tail_all_after(t, after);
            assert(whole[0] == d[0]);
            rows_all_after(whole, after);
        } else {
            merges_resume(e, t, after);
            rows_after_head(seq![d[0]], tail_merge::merged(e, t), after);
        }
    }
}

proof fn rows_after_place(s: Seq<(u64, Key)>, n: int)
    requires
        rows_ascend(s),
        0 < n <= s.len(),
    ensures
        tail_merge::rows_after(s, Some(s[n - 1].1)) == s.skip(n),
    decreases s.len(),
{
    let after = s[n - 1].1;
    row_step(s);
    let e = s.drop_first();
    if n == 1 {
        key::canonical_order(after, after);
        if e.len() > 0 {
            assert(e[0] == s[1]);
        }
        rows_all_after(e, after);
        assert(s.skip(1) =~= e);
    } else {
        assert(e[n - 2] == s[n - 1]);
        assert(tail_merge::before(s[0].1, s[n - 1].1));
        key::key_sign_flips(s[0].1, after);
        rows_after_place(e, n - 1);
        assert(s.skip(n) =~= e.skip(n - 1));
    }
}

/// The overlay keys after a key, when there is one.
pub open spec fn overlay_after(t: Seq<(Key, Option<u64>)>, after: Option<Key>) -> Seq<
    (Key, Option<u64>),
> {
    match after {
        Some(k) => tail_after(t, k),
        None => t,
    }
}

/// A page of the merge of durable rows with the whole tail: the first
/// `limit` rows after a key.
pub open spec fn page_after(
    d: Seq<(u64, Key)>,
    t: Seq<(Key, Option<u64>)>,
    after: Option<Key>,
    limit: nat,
) -> Seq<(u64, Key)> {
    tail_merge::page_of(d, overlay_after(t, after), after, limit)
}

/// The overlay keys of the tail's entries after a key are those of all its
/// entries after it.
pub proof fn overlays_are_cut(
    entries: Seq<(PrimaryKey, TailLookup)>,
    rows: Set<u64>,
    after: Option<Key>,
)
    ensures
        tail_merge::overlay(entries, rows, after) == overlay_after(
            tail_merge::overlay(entries, rows, None),
            after,
        ),
    decreases entries.len(),
{
    if entries.len() > 0 && after is Some {
        let all = tail_merge::overlay(entries, rows, None);
        let sooner = tail_merge::overlay(entries.drop_last(), rows, None);
        overlays_are_cut(entries.drop_last(), rows, after);
        if all != sooner {
            tail_after_push(sooner, all.last(), after->0);
            assert(sooner.push(all.last()) =~= all);
        }
    }
}

proof fn tail_after_push(t: Seq<(Key, Option<u64>)>, x: (Key, Option<u64>), after: Key)
    ensures
        tail_after(t.push(x), after) == (if tail_merge::before(after, x.0) {
            tail_after(t, after).push(x)
        } else {
            tail_after(t, after)
        }),
    decreases t.len(),
{
    let u = t.push(x);
    if t.len() == 0 {
        assert(u.drop_first() =~= Seq::empty());
        assert(tail_after(u.drop_first(), after) =~= Seq::empty());
        assert(tail_after(t, after) =~= Seq::empty());
        assert(seq![x] + Seq::<(Key, Option<u64>)>::empty() =~= Seq::empty().push(x));
    } else {
        assert(u.drop_first() =~= t.drop_first().push(x));
        tail_after_push(t.drop_first(), x, after);
        assert(tail_after(u, after) =~= (if tail_merge::before(after, x.0) {
            tail_after(t, after).push(x)
        } else {
            tail_after(t, after)
        }));
    }
}

proof fn page_is_of_the_merge(
    d: Seq<(u64, Key)>,
    t: Seq<(Key, Option<u64>)>,
    after: Option<Key>,
    limit: nat,
)
    requires
        rows_ascend(d),
        keys_ascend(t),
        after matches Some(k) ==> key::is_key(k),
    ensures
        page_after(d, t, after, limit) == tail_merge::at_most(
            tail_merge::rows_after(tail_merge::merged(d, t), after),
            limit,
        ),
{
    match after {
        Some(k) => {
            merges_resume(d, t, k);
        },
        None => {
            none_after(d);
            none_after(tail_merge::merged(d, t));
        },
    }
}

proof fn rows_after_ascend(s: Seq<(u64, Key)>, after: Option<Key>)
    requires
        rows_ascend(s),
    ensures
        rows_ascend(tail_merge::rows_after(s, after)),
        forall|row: u64, k: Key| #[trigger]
            tail_merge::rows_after(s, after).contains((row, k)) <==> s.contains((row, k))
                && tail_merge::follows(k, after),
    decreases s.len(),
{
    if s.len() > 0 {
        row_step(s);
        let e = s.drop_first();
        rows_after_ascend(e, after);
        let rest = tail_merge::rows_after(e, after);
        let head = if tail_merge::follows(s[0].1, after) {
            seq![s[0]]
        } else {
            Seq::empty()
        };
        assert(tail_merge::rows_after(s, after) =~= head + rest);
        ascends_from(head, rest);
        assert forall|row: u64, k: Key| #[trigger]
            tail_merge::rows_after(s, after).contains((row, k)) <==> s.contains((row, k))
                && tail_merge::follows(k, after) by {
            contains_first(s, (row, k));
            contains_sum(head, rest, (row, k));
            if head.len() > 0 {
                assert(head[0] == s[0]);
            }
            assert(head.contains((row, k)) <==> head.len() > 0 && s[0] == (row, k));
        }
    }
}

proof fn rows_after_both(s: Seq<(u64, Key)>, after: Option<Key>, last: Key)
    requires
        rows_ascend(s),
        key::is_key(last),
        after matches Some(k) ==> key::is_key(k),
        tail_merge::follows(last, after),
    ensures
        tail_merge::rows_after(tail_merge::rows_after(s, after), Some(last))
            == tail_merge::rows_after(s, Some(last)),
    decreases s.len(),
{
    if s.len() > 0 {
        row_step(s);
        let e = s.drop_first();
        rows_after_both(e, after, last);
        let rest = tail_merge::rows_after(e, after);
        if tail_merge::follows(s[0].1, after) {
            assert((seq![s[0]] + rest).drop_first() =~= rest);
            assert((seq![s[0]] + rest)[0] == s[0]);
        } else if tail_merge::before(last, s[0].1) {
            before_chain(after->0, last, s[0].1);
        }
    }
}

/// Pages follow one another: the page after the last key of a page of `n`
/// rows goes on where that page ended, with nothing lost and nothing twice,
/// whatever key the first page follows.
pub proof fn pages_follow(
    d: Seq<(u64, Key)>,
    t: Seq<(Key, Option<u64>)>,
    after: Option<Key>,
    n: nat,
    m: nat,
)
    requires
        rows_ascend(d),
        keys_ascend(t),
        after matches Some(k) ==> key::is_key(k),
        n > 0,
        page_after(d, t, after, n).len() == n,
    ensures
        ({
            let first = page_after(d, t, after, n);
            let second = page_after(d, t, Some(first[n - 1].1), m);
            first + second == page_after(d, t, after, n + m)
        }),
{
    let whole = tail_merge::merged(d, t);
    let s = tail_merge::rows_after(whole, after);
    let first = page_after(d, t, after, n);
    let last = first[n - 1].1;
    merges_are_in_key_order(d, t);
    page_is_of_the_merge(d, t, after, n);
    page_is_of_the_merge(d, t, after, n + m);
    rows_after_ascend(whole, after);
    assert(last == s[n - 1].1);
    assert(s.contains((s[n - 1].0, last)));
    page_is_of_the_merge(d, t, Some(last), m);
    rows_after_both(whole, after, last);
    rows_after_place(s, n as int);
    let second = page_after(d, t, Some(last), m);
    assert(second == tail_merge::at_most(s.skip(n as int), m));
    assert(first + second =~= tail_merge::at_most(s, n + m));
}

/// A page ascends by key, and a row is in it exactly when it is one of the
/// first `limit` after the key: the rows that the tail keeps, and the durable
/// ones of which the tail holds nothing.
pub proof fn pages_hold_the_live_rows(
    d: Seq<(u64, Key)>,
    t: Seq<(Key, Option<u64>)>,
    after: Option<Key>,
    limit: nat,
    row: u64,
    k: Key,
)
    requires
        rows_ascend(d),
        keys_ascend(t),
        after matches Some(a) ==> key::is_key(a),
    ensures
        rows_ascend(page_after(d, t, after, limit)),
        page_after(d, t, after, limit).len() <= limit,
        page_after(d, t, after, limit).contains((row, k)) ==> tail_merge::follows(k, after) && (
        t.contains((k, Some(row))) || (d.contains((row, k)) && !holds(t, k))),
        tail_merge::follows(k, after) && (t.contains((k, Some(row))) || (d.contains((row, k))
            && !holds(t, k))) ==> page_after(d, t, after, limit).contains((row, k)) || (
        page_after(d, t, after, limit).len() == limit && forall|i: int|
            0 <= i < limit ==> tail_merge::before(
                (#[trigger] page_after(d, t, after, limit)[i]).1,
                k,
            )),
{
    let whole = tail_merge::merged(d, t);
    let s = tail_merge::rows_after(whole, after);
    let p = page_after(d, t, after, limit);
    merges_are_in_key_order(d, t);
    page_is_of_the_merge(d, t, after, limit);
    rows_after_ascend(whole, after);
    the_tail_wins(d, t, row, k);
    assert forall|i: int| 0 <= i < p.len() implies #[trigger] p[i] == s[i] by {}
    if p.contains((row, k)) {
        let i = choose|i: int| 0 <= i < p.len() && p[i] == (row, k);
        assert(s[i] == (row, k));
        assert(s.contains((row, k)));
    }
    if s.contains((row, k)) {
        let i = choose|i: int| 0 <= i < s.len() && s[i] == (row, k);
        if i < p.len() {
            assert(p[i] == (row, k));
        } else {
            assert forall|j: int| 0 <= j < limit implies tail_merge::before(
                (#[trigger] p[j]).1,
                k,
            ) by {
                assert(tail_merge::before(s[j].1, s[i].1));
            }
        }
    }
}

/// A scroll over durable rows and a tail: the next `limit` rows after a
/// key, and the key to go on after when rows are left.
pub open spec fn scrolled(
    d: Seq<(u64, Key)>,
    t: Seq<(Key, Option<u64>)>,
    after: Option<Key>,
    limit: nat,
) -> (Seq<(u64, Key)>, Option<Key>) {
    planner::scrolled_page(page_after(d, t, after, limit + 1), limit)
}

/// Scrolls neither skip nor repeat a row: a scroll with rows left is full,
/// its key is that of its last row, and what a second scroll after that key
/// gives is what one longer scroll gives behind it. No key is given exactly
/// when nothing is left.
pub proof fn scrolls_follow(
    d: Seq<(u64, Key)>,
    t: Seq<(Key, Option<u64>)>,
    after: Option<Key>,
    n: nat,
    m: nat,
)
    requires
        rows_ascend(d),
        keys_ascend(t),
        after matches Some(k) ==> key::is_key(k),
        n > 0,
        m > 0,
    ensures
        ({
            let first = scrolled(d, t, after, n);
            let left = tail_merge::rows_after(tail_merge::merged(d, t), after);
            &&& first.1 is None <==> first.0 == left
            &&& rows_ascend(first.0)
            &&& forall|i: int|
                0 <= i < first.0.len() ==> tail_merge::follows((#[trigger] first.0[i]).1, after)
            &&& first.1 matches Some(k) ==> {
                let second = scrolled(d, t, Some(k), m);
                &&& first.0.len() == n
                &&& k == first.0[n - 1].1
                &&& scrolled(d, t, after, n + m) == (first.0 + second.0, second.1)
                &&& rows_ascend(first.0 + second.0)
            }
        }),
{
    let whole = tail_merge::merged(d, t);
    let s = tail_merge::rows_after(whole, after);
    merges_are_in_key_order(d, t);
    rows_after_ascend(whole, after);
    page_is_of_the_merge(d, t, after, n + 1);
    page_is_of_the_merge(d, t, after, n + m + 1);
    let first = scrolled(d, t, after, n);
    let both = scrolled(d, t, after, n + m);
    assert(first.0 =~= tail_merge::at_most(s, n));
    assert(both.0 =~= tail_merge::at_most(s, n + m));
    first_ascend(s, n);
    first_ascend(s, n + m);
    assert forall|i: int| 0 <= i < first.0.len() implies tail_merge::follows(
        (#[trigger] first.0[i]).1,
        after,
    ) by {
        assert(first.0[i] == s[i]);
        assert(s.contains((s[i].0, s[i].1)));
    }
    if first.1 is Some {
        let k = first.1->0;
        assert(k == s[n - 1].1);
        assert(s.contains((s[n - 1].0, k)));
        page_is_of_the_merge(d, t, Some(k), m + 1);
        rows_after_both(whole, after, k);
        rows_after_place(s, n as int);
        let second = scrolled(d, t, Some(k), m);
        let rest = s.skip(n as int);
        assert(second.0 =~= tail_merge::at_most(rest, m));
        assert(first.0 + second.0 =~= both.0);
        if rest.len() > m {
            assert(rest[m - 1] == s[n + m - 1]);
        }
    }
}

proof fn first_ascend(s: Seq<(u64, Key)>, n: nat)
    requires
        rows_ascend(s),
    ensures
        rows_ascend(tail_merge::at_most(s, n)),
{
    let p = tail_merge::at_most(s, n);
    assert forall|i: int| 0 <= i < p.len() implies key::is_key((#[trigger] p[i]).1) by {
        assert(p[i] == s[i]);
    }
    assert forall|i: int, j: int| 0 <= i < j < p.len() implies tail_merge::before(
        (#[trigger] p[i]).1,
        (#[trigger] p[j]).1,
    ) by {
        assert(p[i] == s[i] && p[j] == s[j]);
    }
}

proof fn none_after(d: Seq<(u64, Key)>)
    ensures
        tail_merge::rows_after(d, None) == d,
    decreases d.len(),
{
    if d.len() > 0 {
        none_after(d.drop_first());
        assert(seq![d[0]] + d.drop_first() =~= d);
    }
}

} // verus!
