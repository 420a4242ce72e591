//! What groups hold after a whole walk of candidates.

use crate::exec::groups;
use crate::exec::groups::GroupV;
use crate::ordering;
use crate::values;
use crate::values::FieldV;
use vstd::prelude::*;

verus! {

/// The groups after some candidates, each with its keys.
pub open spec fn grouped(
    hits: Seq<usize>,
    lists: Seq<Seq<FieldV>>,
    limit: nat,
    size: nat,
) -> Seq<GroupV>
    decreases lists.len(),
{
    if lists.len() == 0 {
        Seq::empty()
    } else {
        groups::joined_keys(
            grouped(hits, lists.drop_last(), limit, size),
            hits[lists.len() - 1],
            lists.last(),
            limit,
            size,
        )
    }
}

/// The keys of some candidates, candidate after candidate.
pub open spec fn all_keys(lists: Seq<Seq<FieldV>>) -> Seq<FieldV>
    decreases lists.len(),
{
    if lists.len() == 0 {
        Seq::empty()
    } else {
        all_keys(lists.drop_last()) + lists.last()
    }
}

/// Whether a key is among some keys.
pub open spec fn has_key(keys: Seq<FieldV>, k: FieldV) -> bool {
    exists|i: int| 0 <= i < keys.len() && values::equal_fields(k, #[trigger] keys[i])
}

/// The candidates with a key, each once, in order.
pub open spec fn members(hits: Seq<usize>, lists: Seq<Seq<FieldV>>, k: FieldV) -> Seq<usize>
    decreases lists.len(),
{
    if lists.len() == 0 {
        Seq::empty()
    } else {
        let before = members(hits, lists.drop_last(), k);
        if has_key(lists.last(), k) {
            before.push(hits[lists.len() - 1])
        } else {
            before
        }
    }
}

/// Whether the keys of a candidate are distinct, none of them a float that
/// is no number.
pub open spec fn are_distinct(keys: Seq<FieldV>) -> bool {
    &&& forall|i: int|
        0 <= i < keys.len() ==> values::equal_fields(#[trigger] keys[i], keys[i])
    &&& forall|i: int, j: int|
        0 <= i < j < keys.len() ==> !values::equal_fields(#[trigger] keys[i], #[trigger] keys[j])
}

proof fn equal_chain(a: FieldV, b: FieldV, c: FieldV)
    requires
        values::equal_fields(a, b),
    ensures
        values::equal_fields(b, a),
        values::equal_fields(b, c) ==> values::equal_fields(a, c),
        values::equal_fields(c, b) ==> values::equal_fields(a, c),
{
}

proof fn distinct_covers(s: Seq<FieldV>, at: int) -> (j: int)
    requires
        0 <= at < s.len(),
        forall|i: int| 0 <= i < s.len() ==> values::equal_fields(#[trigger] s[i], s[i]),
    ensures
        0 <= j < groups::distinct_values(s).len(),
        values::equal_fields(groups::distinct_values(s)[j], s[at]),
    decreases s.len(),
{
    let before = groups::distinct_values(s.drop_last());
    let n = s.len() - 1;
    if at < n {
        let d = s.drop_last();
        assert forall|i: int| 0 <= i < d.len() implies values::equal_fields(
            #[trigger] d[i],
            d[i],
        ) by {
            assert(d[i] == s[i]);
        }
        distinct_covers(d, at)
    } else {
        groups::place_finds(before, s[n]);
        groups::place(before, s[n]) as int
    }
}

/// The distinct keys of some values are distinct.
pub proof fn distinct_keys_are_distinct(s: Seq<FieldV>)
    requires
        forall|i: int| 0 <= i < s.len() ==> values::equal_fields(#[trigger] s[i], s[i]),
    ensures
        are_distinct(groups::distinct_values(s)),
    decreases s.len(),
{
    if s.len() > 0 {
        let d = s.drop_last();
        let n = s.len() - 1;
        assert forall|i: int| 0 <= i < d.len() implies values::equal_fields(
            #[trigger] d[i],
            d[i],
        ) by {
            assert(d[i] == s[i]);
        }
        distinct_keys_are_distinct(d);
        assert(values::equal_fields(s[n], s[n]));
        groups::place_finds(groups::distinct_values(d), s.last());
    }
}

proof fn keys_are_reflexive(lists: Seq<Seq<FieldV>>)
    requires
        forall|i: int| 0 <= i < lists.len() ==> are_distinct(#[trigger] lists[i]),
    ensures
        forall|i: int|
            0 <= i < all_keys(lists).len() ==> values::equal_fields(
                #[trigger] all_keys(lists)[i],
                all_keys(lists)[i],
            ),
    decreases lists.len(),
{
    if lists.len() > 0 {
        let d = lists.drop_last();
        assert forall|i: int| 0 <= i < d.len() implies are_distinct(#[trigger] d[i]) by {
            assert(d[i] == lists[i]);
        }
        keys_are_reflexive(d);
        assert(are_distinct(lists[lists.len() - 1]));
        let a = all_keys(lists);
        assert forall|i: int| 0 <= i < a.len() implies values::equal_fields(
            #[trigger] a[i],
            a[i],
        ) by {
            if i < all_keys(d).len() {
                assert(a[i] == all_keys(d)[i]);
            } else {
                assert(a[i] == lists.last()[i - all_keys(d).len()]);
            }
        }
    }
}

proof fn new_keys_have_no_members(hits: Seq<usize>, lists: Seq<Seq<FieldV>>, k: FieldV)
    requires
        forall|i: int|
            0 <= i < all_keys(lists).len() ==> !values::equal_fields(
                k,
                #[trigger] all_keys(lists)[i],
            ),
    ensures
        members(hits, lists, k) == Seq::<usize>::empty(),
    decreases lists.len(),
{
    if lists.len() > 0 {
        let d = lists.drop_last();
        let a = all_keys(lists);
        let n = all_keys(d).len();
        assert forall|i: int| 0 <= i < all_keys(d).len() implies !values::equal_fields(
            k,
            #[trigger] all_keys(d)[i],
        ) by {
            assert(a[i] == all_keys(d)[i]);
        }
        new_keys_have_no_members(hits, d, k);
        assert forall|i: int| 0 <= i < lists.last().len() implies !values::equal_fields(
            k,
            #[trigger] lists.last()[i],
        ) by {
            assert(a[n + i] == lists.last()[i]);
        }
    }
}

/// The candidates with a key when the last one has had some of its keys
/// taken.
spec fn members_with(
    hits: Seq<usize>,
    lists: Seq<Seq<FieldV>>,
    hit: usize,
    taken: Seq<FieldV>,
    k: FieldV,
) -> Seq<usize> {
    if has_key(taken, k) {
        members(hits, lists, k).push(hit)
    } else {
        members(hits, lists, k)
    }
}

spec fn holds_members(
    g: Seq<GroupV>,
    hits: Seq<usize>,
    lists: Seq<Seq<FieldV>>,
    hit: usize,
    taken: Seq<FieldV>,
    limit: nat,
    size: nat,
) -> bool {
    &&& groups::group_keys(g) == ordering::kept(
        groups::distinct_values(all_keys(lists) + taken),
        limit,
    )
    &&& forall|i: int|
        0 <= i < g.len() ==> (#[trigger] g[i]).hits == ordering::kept(
            members_with(hits, lists, hit, taken, g[i].key),
            size,
        )
}

proof fn has_key_pushed(q: Seq<FieldV>, key: FieldV, k: FieldV)
    ensures
        has_key(q.push(key), k) <==> has_key(q, k) || values::equal_fields(k, key),
{
    let p = q.push(key);
    if has_key(q, k) {
        let i = choose|i: int| 0 <= i < q.len() && values::equal_fields(k, #[trigger] q[i]);
        assert(p[i] == q[i]);
    }
    if values::equal_fields(k, key) {
        assert(p[q.len() as int] == key);
    }
    if has_key(p, k) {
        let i = choose|i: int| 0 <= i < p.len() && values::equal_fields(k, #[trigger] p[i]);
        if i < q.len() {
            assert(p[i] == q[i]);
        }
    }
}

proof fn place_in_front(s: Seq<FieldV>, v: FieldV, n: int)
    requires
        0 <= n <= s.len(),
        groups::place(s.take(n), v) < n,
    ensures
        groups::place(s, v) == groups::place(s.take(n), v),
    decreases s.len(),
{
    let t = s.take(n);
    if t.len() > 0 {
        assert(t[0] == s[0]);
        if !values::equal_fields(s[0], v) {
            assert(t.drop_first() =~= s.drop_first().take(n - 1));
            place_in_front(s.drop_first(), v, n - 1);
        }
    }
}

proof fn one_key_joins(
    t: Seq<GroupV>,
    hits: Seq<usize>,
    lists: Seq<Seq<FieldV>>,
    hit: usize,
    q: Seq<FieldV>,
    key: FieldV,
    limit: nat,
    size: nat,
)
    requires
        forall|i: int| 0 <= i < lists.len() ==> are_distinct(#[trigger] lists[i]),
        are_distinct(q.push(key)),
        groups::within(t, limit, size),
        holds_members(t, hits, lists, hit, q, limit, size),
    ensures
        holds_members(
            groups::joined_key(t, hit, key, limit, size),
            hits,
            lists,
            hit,
            q.push(key),
            limit,
            size,
        ),
{
    let p = q.push(key);
    let a = all_keys(lists);
    let ds = groups::distinct_values(a + q);
    let now = groups::distinct_values(a + p);
    let ks = groups::group_keys(t);
    let at = groups::place(ks, key) as int;
    let r = groups::joined_key(t, hit, key, limit, size);
    assert((a + p).drop_last() =~= a + q);
    assert((a + p).last() == key);
    groups::place_finds(ks, key);
    groups::place_finds(ds, key);
    assert(p[q.len() as int] == key);
    assert(values::equal_fields(key, key));
    if at < t.len() {
        if ds.len() > limit {
            place_in_front(ds, key, limit as int);
        }
        assert(now == ds);
        assert(groups::group_keys(r) =~= ks);
    } else if t.len() < limit {
        assert(ks == ds);
        assert(groups::group_keys(r) =~= ks.push(key));
        assert(ordering::kept(now, limit) =~= ks.push(key));
    } else {
        assert(r == t);
        assert(ordering::kept(now, limit) =~= ordering::kept(ds, limit));
    }
    assert forall|i: int| 0 <= i < r.len() implies (#[trigger] r[i]).hits == ordering::kept(
        members_with(hits, lists, hit, p, r[i].key),
        size,
    ) by {
        has_key_pushed(q, key, r[i].key);
        let m = members(hits, lists, r[i].key);
        if i < t.len() {
            assert(r[i].key == t[i].key);
            assert(ks[i] == t[i].key);
            assert(t[i].hits == ordering::kept(
                members_with(hits, lists, hit, q, t[i].key),
                size,
            ));
            if i == at {
                if has_key(q, t[i].key) {
                    let j = choose|j: int|
                        0 <= j < q.len() && values::equal_fields(t[i].key, #[trigger] q[j]);
                    equal_chain(t[i].key, key, q[j]);
                    equal_chain(t[i].key, q[j], key);
                    assert(p[j] == q[j]);
                    assert(!values::equal_fields(p[j], p[q.len() as int]));
                }
                assert(r[i].hits =~= ordering::kept(m.push(hit), size));
            } else {
                assert(r[i] == t[i]);
                if values::equal_fields(t[i].key, key) {
                    assert(at < t.len());
                    assert(ks[at] == t[at].key);
                    equal_chain(t[i].key, key, t[at].key);
                    equal_chain(t[at].key, key, t[i].key);
                }
            }
        } else {
            let whole = a + q;
            keys_are_reflexive(lists);
            assert forall|j: int| 0 <= j < whole.len() implies values::equal_fields(
                #[trigger] whole[j],
                whole[j],
            ) by {
                if j < a.len() {
                    assert(whole[j] == a[j]);
                } else {
                    assert(whole[j] == p[j - a.len()]);
                }
            }
            assert forall|j: int| 0 <= j < a.len() implies !values::equal_fields(
                key,
                #[trigger] a[j],
            ) by {
                if values::equal_fields(key, a[j]) {
                    assert(whole[j] == a[j]);
                    let c = distinct_covers(whole, j);
                    equal_chain(ds[c], a[j], key);
                    assert(!values::equal_fields(ks[c], key));
                }
            }
            new_keys_have_no_members(hits, lists, key);
            assert(r[i].hits =~= ordering::kept(m.push(hit), size));
        }
    }
}

proof fn keys_join(
    g: Seq<GroupV>,
    hits: Seq<usize>,
    lists: Seq<Seq<FieldV>>,
    hit: usize,
    keys: Seq<FieldV>,
    limit: nat,
    size: nat,
)
    requires
        forall|i: int| 0 <= i < lists.len() ==> are_distinct(#[trigger] lists[i]),
        are_distinct(keys),
        groups::within(g, limit, size),
        holds_members(g, hits, lists, hit, Seq::empty(), limit, size),
    ensures
        groups::within(groups::joined_keys(g, hit, keys, limit, size), limit, size),
        holds_members(
            groups::joined_keys(g, hit, keys, limit, size),
            hits,
            lists,
            hit,
            keys,
            limit,
            size,
        ),
    decreases keys.len(),
{
    groups::hits_stay_within(g, hit, keys, limit, size);
    if keys.len() == 0 {
        assert(keys =~= Seq::empty());
    } else {
        let q = keys.drop_last();
        assert(q.push(keys.last()) =~= keys);
        assert forall|i: int| 0 <= i < q.len() implies values::equal_fields(
            #[trigger] q[i],
            q[i],
        ) by {
            assert(q[i] == keys[i]);
        }
        assert forall|i: int, j: int| 0 <= i < j < q.len() implies !values::equal_fields(
            #[trigger] q[i],
            #[trigger] q[j],
        ) by {
            assert(q[i] == keys[i] && q[j] == keys[j]);
        }
        keys_join(g, hits, lists, hit, q, limit, size);
        one_key_joins(
            groups::joined_keys(g, hit, q, limit, size),
            hits,
            lists,
            hit,
            q,
            keys.last(),
            limit,
            size,
        );
    }
}

/// After a whole walk there is a group for each of the first `limit` keys,
/// in the order in which the candidates first had them, and a group holds
/// the first `size` candidates with its key, each once, in order: all of
/// them where it is not full.
pub proof fn groups_hold_their_candidates(
    hits: Seq<usize>,
    lists: Seq<Seq<FieldV>>,
    limit: nat,
    size: nat,
)
    requires
        hits.len() == lists.len(),
        forall|i: int| 0 <= i < lists.len() ==> are_distinct(#[trigger] lists[i]),
    ensures
        ({
            let g = grouped(hits, lists, limit, size);
            &&& groups::within(g, limit, size)
            &&& groups::group_keys(g) == ordering::kept(
                groups::distinct_values(all_keys(lists)),
                limit,
            )
            &&& forall|i: int|
                0 <= i < g.len() ==> (#[trigger] g[i]).hits == ordering::kept(
                    members(hits, lists, g[i].key),
                    size,
                )
            &&& forall|i: int|
                0 <= i < g.len() && (#[trigger] g[i]).hits.len() < size ==> g[i].hits == members(
                    hits,
                    lists,
                    g[i].key,
                )
        }),
    decreases lists.len(),
{
    let g = grouped(hits, lists, limit, size);
    if lists.len() == 0 {
        assert(groups::group_keys(g) =~= ordering::kept(
            groups::distinct_values(all_keys(lists)),
            limit,
        ));
    } else {
        let d = lists.drop_last();
        let n = lists.len() - 1;
        let last = lists.last();
        let before = grouped(hits, d, limit, size);
        assert forall|i: int| 0 <= i < d.len() implies are_distinct(#[trigger] d[i]) by {
            assert(d[i] == lists[i]);
        }
        walk_of_fewer(hits, d, limit, size);
        groups_hold_their_candidates(hits.take(n), d, limit, size);
        assert(are_distinct(lists[n]));
        assert(all_keys(d) + Seq::<FieldV>::empty() =~= all_keys(d));
        assert forall|i: int| 0 <= i < before.len() implies (#[trigger] before[i]).hits
            == ordering::kept(
            members_with(hits, d, hits[n], Seq::empty(), before[i].key),
            size,
        ) by {
            members_of_fewer(hits, d, before[i].key);
        }
        keys_join(before, hits, d, hits[n], last, limit, size);
        assert forall|i: int| 0 <= i < g.len() implies (#[trigger] g[i]).hits == ordering::kept(
            members(hits, lists, g[i].key),
            size,
        ) by {
            assert(members_with(hits, d, hits[n], last, g[i].key) == members(
                hits,
                lists,
                g[i].key,
            ));
        }
    }
}

proof fn walk_of_fewer(hits: Seq<usize>, d: Seq<Seq<FieldV>>, limit: nat, size: nat)
    requires
        d.len() <= hits.len(),
    ensures
        grouped(hits, d, limit, size) == grouped(hits.take(d.len() as int), d, limit, size),
    decreases d.len(),
{
    if d.len() > 0 {
        let n = d.len() as int;
        let h = hits.take(n);
        walk_of_fewer(hits, d.drop_last(), limit, size);
        walk_of_fewer(h, d.drop_last(), limit, size);
        assert(h.take(n - 1) =~= hits.take(n - 1));
    }
}

proof fn members_of_fewer(hits: Seq<usize>, d: Seq<Seq<FieldV>>, k: FieldV)
    requires
        d.len() <= hits.len(),
    ensures
        members(hits, d, k) == members(hits.take(d.len() as int), d, k),
    decreases d.len(),
{
    if d.len() > 0 {
        let n = d.len() as int;
        let h = hits.take(n);
        members_of_fewer(hits, d.drop_last(), k);
        members_of_fewer(h, d.drop_last(), k);
        assert(h.take(n - 1) =~= hits.take(n - 1));
    }
}

/// A candidate changes nothing when there are enough groups and all of them
/// are full, so the walk may stop there.
pub proof fn full_groups_stay(
    s: Seq<GroupV>,
    hit: usize,
    keys: Seq<FieldV>,
    limit: nat,
    size: nat,
)
    requires
        groups::within(s, limit, size),
        groups::is_full(s, limit, size),
    ensures
        groups::joined_keys(s, hit, keys, limit, size) == s,
    decreases keys.len(),
{
    if keys.len() > 0 {
        full_groups_stay(s, hit, keys.drop_last(), limit, size);
        groups::place_finds(groups::group_keys(s), keys.last());
    }
}

} // verus!
