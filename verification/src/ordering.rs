//! Three-way comparison and stable sorting by a comparison that is a value.

use std::cmp::Ordering;
use vstd::prelude::*;

verus! {

/// The outcome of a comparison.
#[derive(Clone, Copy, Debug, PartialEq, Eq, Structural)]
pub enum Sign {
    Less,
    Equal,
    Greater,
}

impl Sign {
    /// The outcome with the operands exchanged.
    pub open spec fn flip(self) -> Sign {
        match self {
            Sign::Less => Sign::Greater,
            Sign::Equal => Sign::Equal,
            Sign::Greater => Sign::Less,
        }
    }

    /// This outcome unless it is a tie, else `next`.
    pub open spec fn or(self, next: Sign) -> Sign {
        if self is Equal {
            next
        } else {
            self
        }
    }

    /// The outcome with the operands exchanged.
    pub fn flipped(self) -> (r: Sign)
        ensures
            r == self.flip(),
    {
        match self {
            Sign::Less => Sign::Greater,
            Sign::Equal => Sign::Equal,
            Sign::Greater => Sign::Less,
        }
    }

    /// The standard library's name of this outcome.
    pub open spec fn named(self) -> Ordering {
        match self {
            Sign::Less => Ordering::Less,
            Sign::Equal => Ordering::Equal,
            Sign::Greater => Ordering::Greater,
        }
    }

    /// The outcome as the standard library names it.
    pub fn to_ordering(self) -> (r: Ordering)
        ensures
            r == self.named(),
    {
        match self {
            Sign::Less => Ordering::Less,
            Sign::Equal => Ordering::Equal,
            Sign::Greater => Ordering::Greater,
        }
    }
}

/// The comparison of two integers.
pub open spec fn int_sign(a: int, b: int) -> Sign {
    if a < b {
        Sign::Less
    } else if a == b {
        Sign::Equal
    } else {
        Sign::Greater
    }
}

/// A comparison of values of type `T`, possibly with parameters of its own.
pub trait Ranking<T> {
    /// Whether `a` may stand before `b`.
    spec fn le(&self, a: T, b: T) -> bool;
}

/// A comparison that can be run.
pub trait Order<T>: Ranking<T> {
    /// Whether `a` may stand before `b`.
    fn leq(&self, a: &T, b: &T) -> (r: bool)
        ensures
            r == self.le(*a, *b),
    ;
}

/// `s` with `x` placed after the last element that may stand before it.
pub open spec fn inserted<T, O: Ranking<T>>(o: O, s: Seq<T>, x: T) -> Seq<T>
    decreases s.len(),
{
    if s.len() == 0 || o.le(s.last(), x) {
        s.push(x)
    } else {
        inserted(o, s.drop_last(), x).push(s.last())
    }
}

/// The stable sort of `s`.
pub open spec fn sorted<T, O: Ranking<T>>(o: O, s: Seq<T>) -> Seq<T>
    decreases s.len(),
{
    if s.len() == 0 {
        s
    } else {
        inserted(o, sorted(o, s.drop_last()), s.last())
    }
}

/// Every two elements of `s` are in order.
pub open spec fn is_ordered<T, O: Ranking<T>>(o: O, s: Seq<T>) -> bool {
    forall|i: int, j: int| 0 <= i <= j < s.len() ==> o.le(#[trigger] s[i], #[trigger] s[j])
}

/// The comparison is total and transitive on the values that `on` picks.
pub open spec fn linear<T, O: Ranking<T>>(o: O, on: spec_fn(T) -> bool) -> bool {
    &&& forall|a: T, b: T| on(a) && on(b) ==> #[trigger] o.le(a, b) || o.le(b, a)
    &&& forall|a: T, b: T, c: T|
        on(a) && on(b) && on(c) && #[trigger] o.le(a, b) && #[trigger] o.le(b, c) ==> o.le(a, c)
}

/// `on` picks every element of `s`.
pub open spec fn all_in<T>(s: Seq<T>, on: spec_fn(T) -> bool) -> bool {
    forall|i: int| 0 <= i < s.len() ==> on(#[trigger] s[i])
}

proof fn inserted_at<T, O: Ranking<T>>(o: O, s: Seq<T>, x: T, at: int)
    requires
        0 <= at <= s.len(),
        at == 0 || o.le(s[at - 1], x),
        forall|j: int| at <= j < s.len() ==> !o.le(#[trigger] s[j], x),
    ensures
        inserted(o, s, x) == s.take(at).push(x) + s.skip(at),
    decreases s.len(),
{
    if at == s.len() {
        assert(s.take(at) =~= s);
        assert(s.take(at).push(x) + s.skip(at) =~= s.push(x));
    } else {
        assert(!o.le(s[s.len() - 1], x));
        let t = s.drop_last();
        inserted_at(o, t, x, at);
        assert(t.take(at) =~= s.take(at));
        assert((t.take(at).push(x) + t.skip(at)).push(s.last()) =~= s.take(at).push(x) + s.skip(at));
    }
}

/// Inserting adds one element and keeps the others.
pub proof fn inserted_len<T, O: Ranking<T>>(o: O, s: Seq<T>, x: T)
    ensures
        inserted(o, s, x).len() == s.len() + 1,
        inserted(o, s, x).to_multiset() == s.to_multiset().insert(x),
    decreases s.len(),
{
    broadcast use vstd::seq_lib::group_to_multiset_ensures;

    if s.len() == 0 || o.le(s.last(), x) {
    } else {
        let t = s.drop_last();
        inserted_len(o, t, x);
        assert(t.push(s.last()) =~= s);
        assert(inserted(o, t, x).to_multiset().insert(s.last()) =~= s.to_multiset().insert(x));
    }
}

/// Inserting keeps what every element satisfies.
pub proof fn inserted_all<T, O: Ranking<T>>(o: O, s: Seq<T>, x: T, on: spec_fn(T) -> bool)
    requires
        all_in(s, on),
        on(x),
    ensures
        all_in(inserted(o, s, x), on),
    decreases s.len(),
{
    if s.len() == 0 || o.le(s.last(), x) {
    } else {
        let t = s.drop_last();
        assert(on(s[s.len() - 1]));
        assert forall|i: int| 0 <= i < t.len() implies on(#[trigger] t[i]) by {
            assert(t[i] == s[i]);
        }
        inserted_all(o, t, x, on);
    }
}

/// Inserting into an ordered sequence keeps it ordered.
pub proof fn inserted_ordered<T, O: Ranking<T>>(o: O, s: Seq<T>, x: T, on: spec_fn(T) -> bool)
    requires
        linear(o, on),
        all_in(s, on),
        on(x),
        is_ordered(o, s),
    ensures
        is_ordered(o, inserted(o, s, x)),
    decreases s.len(),
{
    let r = inserted(o, s, x);
    assert(o.le(x, x));
    if s.len() == 0 || o.le(s.last(), x) {
        assert forall|i: int, j: int| 0 <= i <= j < r.len() implies o.le(
            #[trigger] r[i],
            #[trigger] r[j],
        ) by {
            if j == s.len() && i < s.len() {
                assert(on(s[i]));
                assert(on(s[s.len() - 1]));
                assert(o.le(s[i], s[s.len() - 1]));
            }
        }
    } else {
        let t = s.drop_last();
        let y = s.last();
        assert(on(s[s.len() - 1]));
        assert(o.le(x, y));
        assert forall|i: int| 0 <= i < t.len() implies on(#[trigger] t[i]) by {
            assert(t[i] == s[i]);
        }
        assert forall|i: int, j: int| 0 <= i <= j < t.len() implies o.le(
            #[trigger] t[i],
            #[trigger] t[j],
        ) by {
            assert(t[i] == s[i] && t[j] == s[j]);
        }
        inserted_ordered(o, t, x, on);
        inserted_len(o, t, x);
        let u = inserted(o, t, x);
        let below = |z: T| o.le(z, y);
        assert forall|i: int| 0 <= i < t.len() implies below(#[trigger] t[i]) by {
            assert(t[i] == s[i]);
            assert(o.le(s[i], s[s.len() - 1]));
        }
        inserted_all(o, t, x, below);
        assert forall|i: int, j: int| 0 <= i <= j < r.len() implies o.le(
            #[trigger] r[i],
            #[trigger] r[j],
        ) by {
            if j == u.len() {
                if i < u.len() {
                    assert(below(u[i]));
                } else {
                    assert(o.le(s[s.len() - 1], s[s.len() - 1]));
                }
            } else {
                assert(r[i] == u[i] && r[j] == u[j]);
            }
        }
    }
}

/// Sorting rearranges: the same elements, as often.
pub proof fn sorted_permutes<T, O: Ranking<T>>(o: O, s: Seq<T>)
    ensures
        sorted(o, s).len() == s.len(),
        sorted(o, s).to_multiset() == s.to_multiset(),
    decreases s.len(),
{
    broadcast use vstd::seq_lib::group_to_multiset_ensures;

    if s.len() > 0 {
        let t = s.drop_last();
        sorted_permutes(o, t);
        inserted_len(o, sorted(o, t), s.last());
        assert(t.push(s.last()) =~= s);
    }
}

/// Sorting keeps what every element satisfies.
pub proof fn sorted_all<T, O: Ranking<T>>(o: O, s: Seq<T>, on: spec_fn(T) -> bool)
    requires
        all_in(s, on),
    ensures
        all_in(sorted(o, s), on),
    decreases s.len(),
{
    if s.len() > 0 {
        let t = s.drop_last();
        assert(on(s[s.len() - 1]));
        assert forall|i: int| 0 <= i < t.len() implies on(#[trigger] t[i]) by {
            assert(t[i] == s[i]);
        }
        sorted_all(o, t, on);
        inserted_all(o, sorted(o, t), s.last(), on);
    }
}

/// Sorting by a total, transitive comparison gives an ordered sequence.
pub proof fn sorted_ordered<T, O: Ranking<T>>(o: O, s: Seq<T>, on: spec_fn(T) -> bool)
    requires
        linear(o, on),
        all_in(s, on),
    ensures
        is_ordered(o, sorted(o, s)),
    decreases s.len(),
{
    if s.len() > 0 {
        let t = s.drop_last();
        assert(on(s[s.len() - 1]));
        assert forall|i: int| 0 <= i < t.len() implies on(#[trigger] t[i]) by {
            assert(t[i] == s[i]);
        }
        sorted_ordered(o, t, on);
        sorted_all(o, t, on);
        inserted_ordered(o, sorted(o, t), s.last(), on);
    }
}

/// Whether two comparisons agree on values and on what they are.
pub open spec fn agree<T, V, O: Ranking<T>, P: Ranking<V>>(o: O, p: P, view: spec_fn(T) -> V) -> bool {
    forall|a: T, b: T| #[trigger] o.le(a, b) == p.le(view(a), view(b))
}

/// What a sequence is after an insertion is what it was with what the
/// element is inserted.
pub proof fn inserted_maps<T, V, O: Ranking<T>, P: Ranking<V>>(
    o: O,
    p: P,
    s: Seq<T>,
    x: T,
    view: spec_fn(T) -> V,
)
    requires
        agree(o, p, view),
    ensures
        inserted(o, s, x).map_values(view) == inserted(p, s.map_values(view), view(x)),
    decreases s.len(),
{
    let v = s.map_values(view);
    if s.len() == 0 || o.le(s.last(), x) {
        assert(s.push(x).map_values(view) =~= v.push(view(x)));
    } else {
        let t = s.drop_last();
        inserted_maps(o, p, t, x, view);
        assert(t.map_values(view) =~= v.drop_last());
        let u = inserted(o, t, x);
        assert(u.push(s.last()).map_values(view) =~= u.map_values(view).push(view(s.last())));
    }
}

/// What a sorted sequence is is what the sequence is, sorted.
pub proof fn sorted_maps<T, V, O: Ranking<T>, P: Ranking<V>>(
    o: O,
    p: P,
    s: Seq<T>,
    view: spec_fn(T) -> V,
)
    requires
        agree(o, p, view),
    ensures
        sorted(o, s).map_values(view) == sorted(p, s.map_values(view)),
    decreases s.len(),
{
    let v = s.map_values(view);
    if s.len() == 0 {
        assert(s.map_values(view) =~= sorted(p, v));
    } else {
        let t = s.drop_last();
        sorted_maps(o, p, t, view);
        inserted_maps(o, p, sorted(o, t), s.last(), view);
        assert(t.map_values(view) =~= v.drop_last());
    }
}

/// The first `k` elements.
pub open spec fn kept<T>(s: Seq<T>, k: nat) -> Seq<T> {
    if s.len() <= k {
        s
    } else {
        s.take(k as int)
    }
}

/// Cutting to `k` before an insertion changes nothing of the first `k`
/// after it.
pub proof fn kept_inserted<T, O: Ranking<T>>(
    o: O,
    s: Seq<T>,
    x: T,
    k: nat,
    on: spec_fn(T) -> bool,
)
    requires
        linear(o, on),
        all_in(s, on),
        on(x),
        is_ordered(o, s),
    ensures
        kept(inserted(o, kept(s, k), x), k) == kept(inserted(o, s, x), k),
    decreases s.len(),
{
    if s.len() > k {
        let c = s.take(k as int);
        inserted_len(o, s, x);
        inserted_len(o, c, x);
        if o.le(s.last(), x) {
            if k > 0 {
                assert(on(s[k - 1]));
                assert(on(s[s.len() - 1]));
                assert(o.le(s[k - 1], s[s.len() - 1]));
                assert(c.last() == s[k - 1]);
                assert(o.le(c.last(), x));
                assert(c.push(x).take(k as int) =~= c);
            } else {
                assert(kept(inserted(o, c, x), k) =~= Seq::empty());
            }
            assert(s.push(x).take(k as int) =~= c);
        } else {
            let t = s.drop_last();
            assert forall|i: int| 0 <= i < t.len() implies on(#[trigger] t[i]) by {
                assert(t[i] == s[i]);
            }
            assert forall|i: int, j: int| 0 <= i <= j < t.len() implies o.le(
                #[trigger] t[i],
                #[trigger] t[j],
            ) by {
                assert(t[i] == s[i] && t[j] == s[j]);
            }
            kept_inserted(o, t, x, k, on);
            inserted_len(o, t, x);
            assert(kept(t, k) =~= c);
            assert(inserted(o, s, x).take(k as int) =~= inserted(o, t, x).take(k as int));
        }
    }
}

/// An ordered sequence is sorted already.
pub proof fn sorted_of_ordered<T, O: Ranking<T>>(o: O, s: Seq<T>)
    requires
        is_ordered(o, s),
    ensures
        sorted(o, s) == s,
    decreases s.len(),
{
    if s.len() > 0 {
        let t = s.drop_last();
        assert forall|i: int, j: int| 0 <= i <= j < t.len() implies o.le(
            #[trigger] t[i],
            #[trigger] t[j],
        ) by {
            assert(t[i] == s[i] && t[j] == s[j]);
        }
        sorted_of_ordered(o, t);
        if t.len() > 0 {
            assert(o.le(s[s.len() - 2], s[s.len() - 1]));
        }
        assert(t.push(s.last()) =~= s);
    }
}

/// The first elements of an ordered sequence are ordered.
pub proof fn kept_ordered<T, O: Ranking<T>>(o: O, s: Seq<T>, k: nat)
    requires
        is_ordered(o, s),
    ensures
        is_ordered(o, kept(s, k)),
{
    let t = kept(s, k);
    assert forall|i: int, j: int| 0 <= i <= j < t.len() implies o.le(
        #[trigger] t[i],
        #[trigger] t[j],
    ) by {
        assert(t[i] == s[i] && t[j] == s[j]);
    }
}

/// Places `x` in `v` after the last element that may stand before it.
pub fn insert<T, O: Order<T>>(o: &O, v: &mut Vec<T>, x: T)
    ensures
        final(v)@ == inserted(*o, old(v)@, x),
{
    let mut at: usize = v.len();
    let mut looking: bool = at > 0;
    while looking
        invariant
            v@ == old(v)@,
            at <= v@.len(),
            looking ==> at > 0,
            forall|j: int| at <= j < v@.len() ==> !o.le(#[trigger] v@[j], x),
            !looking ==> at == 0 || o.le(v@[at as int - 1], x),
        decreases at, (if looking { 1int } else { 0int }),
    {
        if o.leq(&v[at - 1], &x) {
            looking = false;
        } else {
            at -= 1;
            looking = at > 0;
        }
    }
    proof {
        inserted_at(*o, v@, x, at as int);
        assert(v@.insert(at as int, x) =~= v@.take(at as int).push(x) + v@.skip(at as int));
    }
    v.insert(at, x);
}

/// The stable sort of `v`.
pub fn sort<T, O: Order<T>>(o: &O, v: Vec<T>) -> (r: Vec<T>)
    ensures
        r@ == sorted(*o, v@),
{
    let ghost all = v@;
    let mut out: Vec<T> = Vec::new();
    for x in it: v
        invariant
            it.seq() == all,
            out@ == sorted(*o, all.take(it.index() as int)),
    {
        insert(o, &mut out, x);
        proof {
            let n = it.index() as int;
            assert(all.take(n + 1).drop_last() =~= all.take(n));
        }
    }
    proof {
        assert(all.take(all.len() as int) =~= all);
    }
    out
}

} // verus!
