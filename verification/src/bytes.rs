//! Byte strings: their lexicographic order, and integers written as bytes.

use crate::ordering::Sign;
use vstd::prelude::*;

verus! {

/// Whether `a` comes before `b` in dictionary order.
pub open spec fn lex_lt(a: Seq<u8>, b: Seq<u8>) -> bool
    decreases a.len(),
{
    if b.len() == 0 {
        false
    } else if a.len() == 0 {
        true
    } else if a[0] != b[0] {
        a[0] < b[0]
    } else {
        lex_lt(a.drop_first(), b.drop_first())
    }
}

/// The dictionary order of two byte strings.
pub open spec fn lex(a: Seq<u8>, b: Seq<u8>) -> Sign {
    if a == b {
        Sign::Equal
    } else if lex_lt(a, b) {
        Sign::Less
    } else {
        Sign::Greater
    }
}

/// No byte string comes before itself.
pub proof fn lex_irreflexive(a: Seq<u8>)
    ensures
        !lex_lt(a, a),
    decreases a.len(),
{
    if a.len() > 0 {
        lex_irreflexive(a.drop_first());
    }
}

/// Of two different byte strings exactly one comes first.
pub proof fn lex_total(a: Seq<u8>, b: Seq<u8>)
    ensures
        a != b ==> (lex_lt(a, b) <==> !lex_lt(b, a)),
        a == b ==> !lex_lt(a, b),
    decreases a.len(),
{
    lex_irreflexive(a);
    if a.len() > 0 && b.len() > 0 && a[0] == b[0] {
        lex_total(a.drop_first(), b.drop_first());
        if a.drop_first() == b.drop_first() {
            assert(a =~= seq![a[0]] + a.drop_first());
            assert(b =~= seq![b[0]] + b.drop_first());
        }
    } else if a.len() == 0 && b.len() == 0 {
        assert(a =~= b);
    }
}

/// Dictionary order is transitive.
pub proof fn lex_transitive(a: Seq<u8>, b: Seq<u8>, c: Seq<u8>)
    requires
        lex_lt(a, b),
        lex_lt(b, c),
    ensures
        lex_lt(a, c),
    decreases a.len(),
{
    if a.len() > 0 && b.len() > 0 && c.len() > 0 && a[0] == b[0] && b[0] == c[0] {
        lex_transitive(a.drop_first(), b.drop_first(), c.drop_first());
    }
}

/// A common prefix does not change the order.
pub proof fn lex_prefix(p: Seq<u8>, a: Seq<u8>, b: Seq<u8>)
    ensures
        lex_lt(p + a, p + b) == lex_lt(a, b),
    decreases p.len(),
{
    if p.len() == 0 {
        assert(p + a =~= a);
        assert(p + b =~= b);
    } else {
        lex_prefix(p.drop_first(), a, b);
        assert((p + a).drop_first() =~= p.drop_first() + a);
        assert((p + b).drop_first() =~= p.drop_first() + b);
    }
}

/// Two byte strings of one length with a last byte each.
pub proof fn lex_push(a: Seq<u8>, b: Seq<u8>, x: u8, y: u8)
    requires
        a.len() == b.len(),
    ensures
        lex_lt(a.push(x), b.push(y)) == (lex_lt(a, b) || (a == b && x < y)),
    decreases a.len(),
{
    if a.len() == 0 {
        assert(a =~= b);
        assert(!lex_lt(a.push(x).drop_first(), b.push(y).drop_first())) by {
            assert(b.push(y).drop_first().len() == 0);
        }
    } else {
        assert(a.push(x).drop_first() =~= a.drop_first().push(x));
        assert(b.push(y).drop_first() =~= b.drop_first().push(y));
        if a[0] == b[0] {
            lex_push(a.drop_first(), b.drop_first(), x, y);
            if a.drop_first() == b.drop_first() {
                assert(a =~= seq![a[0]] + a.drop_first());
                assert(b =~= seq![b[0]] + b.drop_first());
                assert(a == b);
            }
        } else {
            assert(a != b);
        }
    }
}

/// The dictionary order of two byte strings.
pub fn lex_sign(a: &[u8], b: &[u8]) -> (r: Sign)
    ensures
        r == lex(a@, b@),
{
    let mut i: usize = 0;
    while i < a.len() && i < b.len() && a[i] == b[i]
        invariant
            i <= a.len(),
            i <= b.len(),
            a@.take(i as int) == b@.take(i as int),
        decreases a.len() - i,
    {
        proof {
            assert(a@.take(i as int + 1) =~= a@.take(i as int).push(a@[i as int]));
            assert(b@.take(i as int + 1) =~= b@.take(i as int).push(b@[i as int]));
        }
        i += 1;
    }
    proof {
        let p = a@.take(i as int);
        let x = a@.skip(i as int);
        let y = b@.skip(i as int);
        assert(a@ =~= p + x);
        assert(b@ =~= p + y);
        lex_prefix(p, x, y);
        if i < a.len() && i < b.len() {
            assert(x[0] == a@[i as int]);
            assert(y[0] == b@[i as int]);
            assert(a@[i as int] != b@[i as int]);
        } else if i == a.len() && i == b.len() {
            assert(x =~= y);
        } else {
            assert(a@.len() != b@.len());
        }
    }
    if i < a.len() {
        if i < b.len() {
            if a[i] < b[i] {
                Sign::Less
            } else {
                Sign::Greater
            }
        } else {
            Sign::Greater
        }
    } else if i < b.len() {
        Sign::Less
    } else {
        Sign::Equal
    }
}

/// Whether two byte strings are the same.
pub fn same_bytes(a: &[u8], b: &[u8]) -> (r: bool)
    ensures
        r == (a@ == b@),
{
    let s = lex_sign(a, b);
    match s {
        Sign::Equal => true,
        _ => false,
    }
}

/// 256 to the power `k`.
pub open spec fn pow256(k: nat) -> nat
    decreases k,
{
    if k == 0 {
        1
    } else {
        256 * pow256((k - 1) as nat)
    }
}

/// The last `k` base-256 digits of `n`, most significant first.
pub open spec fn be(n: nat, k: nat) -> Seq<u8>
    decreases k,
{
    if k == 0 {
        Seq::empty()
    } else {
        be(n / 256, (k - 1) as nat).push((n % 256) as u8)
    }
}

/// The number that bytes write, most significant first.
pub open spec fn be_value(b: Seq<u8>) -> nat
    decreases b.len(),
{
    if b.len() == 0 {
        0
    } else {
        be_value(b.drop_last()) * 256 + b.last() as nat
    }
}

pub proof fn be_len(n: nat, k: nat)
    ensures
        be(n, k).len() == k,
    decreases k,
{
    if k > 0 {
        be_len(n / 256, (k - 1) as nat);
    }
}

/// Reading back what was written.
pub proof fn be_round_trip(n: nat, k: nat)
    requires
        n < pow256(k),
    ensures
        be_value(be(n, k)) == n,
    decreases k,
{
    if k > 0 {
        let j = (k - 1) as nat;
        assert(n / 256 < pow256(j));
        be_round_trip(n / 256, j);
        assert(be(n, k).drop_last() =~= be(n / 256, j));
    }
}

/// Writing back what was read.
pub proof fn be_value_round_trip(b: Seq<u8>)
    ensures
        be(be_value(b), b.len()) == b,
        be_value(b) < pow256(b.len()),
    decreases b.len(),
{
    if b.len() > 0 {
        let t = b.drop_last();
        be_value_round_trip(t);
        let n = be_value(b);
        assert(n / 256 == be_value(t));
        assert(n % 256 == b.last() as nat);
        assert(be(n, b.len()) =~= t.push(b.last()));
        assert(t.push(b.last()) =~= b);
    } else {
        assert(be(0, 0) =~= b);
    }
}

/// Big-endian bytes order as the numbers they write.
pub proof fn be_order(n: nat, m: nat, k: nat)
    requires
        n < pow256(k),
        m < pow256(k),
    ensures
        lex_lt(be(n, k), be(m, k)) == (n < m),
        (be(n, k) == be(m, k)) == (n == m),
    decreases k,
{
    if k > 0 {
        let j = (k - 1) as nat;
        assert(n / 256 < pow256(j));
        assert(m / 256 < pow256(j));
        be_order(n / 256, m / 256, j);
        be_len(n / 256, j);
        be_len(m / 256, j);
        lex_push(be(n / 256, j), be(m / 256, j), (n % 256) as u8, (m % 256) as u8);
        be_round_trip(n, k);
        be_round_trip(m, k);
    }
}

pub proof fn pow256_values()
    ensures
        pow256(1) == 0x100,
        pow256(2) == 0x1_0000,
        pow256(4) == 0x1_0000_0000,
        pow256(8) == 0x1_0000_0000_0000_0000,
{
    reveal_with_fuel(pow256, 9);
}

/// Appends the last `k` base-256 digits of `n`, most significant first.
pub fn push_be(out: &mut Vec<u8>, n: u64, k: u8)
    ensures
        final(out)@ == old(out)@ + be(n as nat, k as nat),
    decreases k,
{
    if k == 0 {
        proof {
            assert(out@ + be(n as nat, 0) =~= out@);
        }
    } else {
        push_be(out, n / 256, k - 1);
        let d: u8 = (n % 256) as u8;
        out.push(d);
        proof {
            assert((old(out)@ + be((n / 256) as nat, (k - 1) as nat)).push(d) =~= old(out)@ + be(
                n as nat,
                k as nat,
            ));
        }
    }
}

/// The number that `b[from..to]` writes, most significant byte first.
pub fn read_be(b: &[u8], from: usize, to: usize) -> (r: u64)
    requires
        from <= to <= b.len(),
        to - from <= 8,
    ensures
        r == be_value(b@.subrange(from as int, to as int)),
{
    let mut value: u64 = 0;
    let mut i: usize = from;
    while i < to
        invariant
            from <= i <= to <= b.len(),
            to - from <= 8,
            value == be_value(b@.subrange(from as int, i as int)),
            value < pow256((i - from) as nat),
        decreases to - i,
    {
        let ghost head = b@.subrange(from as int, i as int);
        let ghost more = b@.subrange(from as int, i as int + 1);
        proof {
            assert(more.drop_last() =~= head);
            assert(more.last() == b@[i as int]);
            pow256_monotone((i - from) as nat, 7);
            pow256_seven();
            assert(pow256((i + 1 - from) as nat) == 256 * pow256((i - from) as nat));
        }
        value = value * 256 + b[i] as u64;
        i += 1;
    }
    proof {
        assert(from == to ==> b@.subrange(from as int, to as int).len() == 0);
    }
    value
}

pub proof fn pow256_monotone(a: nat, b: nat)
    requires
        a <= b,
    ensures
        pow256(a) <= pow256(b),
    decreases b,
{
    if a < b {
        pow256_monotone(a, (b - 1) as nat);
    }
}

proof fn pow256_seven()
    ensures
        pow256(7) == 0x100_0000_0000_0000,
{
    reveal_with_fuel(pow256, 8);
}

/// `n` in `k` bytes, least significant first.
pub open spec fn le(n: nat, k: nat) -> Seq<u8>
    decreases k,
{
    if k == 0 {
        Seq::empty()
    } else {
        seq![(n % 256) as u8] + le(n / 256, (k - 1) as nat)
    }
}

/// The number that bytes hold, least significant first.
pub open spec fn le_value(b: Seq<u8>) -> nat
    decreases b.len(),
{
    if b.len() == 0 {
        0
    } else {
        b[0] as nat + 256 * le_value(b.drop_first())
    }
}

/// A number comes back from its bytes, least significant first.
pub proof fn le_round_trip(n: nat, k: nat)
    requires
        n < pow256(k),
    ensures
        le(n, k).len() == k,
        le_value(le(n, k)) == n,
    decreases k,
{
    if k > 0 {
        let m = (k - 1) as nat;
        assert(n / 256 < pow256(m)) by (nonlinear_arith)
            requires
                n < pow256(k),
                pow256(k) == 256 * pow256(m),
        ;
        le_round_trip(n / 256, m);
        assert(le(n, k).drop_first() =~= le(n / 256, m));
    }
}

/// Appends `n` in `k` bytes, least significant first.
pub fn push_le(out: &mut Vec<u8>, n: u64, k: u8)
    ensures
        final(out)@ == old(out)@ + le(n as nat, k as nat),
    decreases k,
{
    if k == 0 {
        proof {
            assert(out@ =~= old(out)@ + le(n as nat, 0));
        }
    } else {
        out.push((n % 256) as u8);
        push_le(out, n / 256, k - 1);
        proof {
            assert(out@ =~= old(out)@ + le(n as nat, k as nat));
        }
    }
}

/// The number of `b[from..to]`, at most eight bytes, least significant
/// first.
pub fn read_le(b: &[u8], from: usize, to: usize) -> (r: u64)
    requires
        from <= to <= b@.len(),
        to - from <= 8,
    ensures
        r == le_value(b@.subrange(from as int, to as int)),
        r < pow256((to - from) as nat),
    decreases to - from,
{
    let ghost s = b@.subrange(from as int, to as int);
    if from == to {
        proof {
            reveal_with_fuel(pow256, 1);
        }
        return 0;
    }
    let rest: u64 = read_le(b, from + 1, to);
    proof {
        assert(s.drop_first() =~= b@.subrange(from as int + 1, to as int));
        pow256_seven();
        pow256_monotone((to - from - 1) as nat, 7);
    }
    b[from] as u64 + 256 * rest
}

/// Appends `b[from..to]` to `out`.
pub fn push_range(out: &mut Vec<u8>, b: &[u8], from: usize, to: usize)
    requires
        from <= to <= b.len(),
    ensures
        final(out)@ == old(out)@ + b@.subrange(from as int, to as int),
{
    let mut i: usize = from;
    proof {
        assert(out@ + b@.subrange(from as int, from as int) =~= out@);
    }
    while i < to
        invariant
            from <= i <= to <= b.len(),
            out@ == old(out)@ + b@.subrange(from as int, i as int),
        decreases to - i,
    {
        out.push(b[i]);
        proof {
            assert((old(out)@ + b@.subrange(from as int, i as int)).push(b@[i as int]) =~= old(out)@
                + b@.subrange(from as int, i as int + 1));
        }
        i += 1;
    }
}

/// A copy of `b[from..to]`.
pub fn copy_range(b: &[u8], from: usize, to: usize) -> (r: Vec<u8>)
    requires
        from <= to <= b.len(),
    ensures
        r@ == b@.subrange(from as int, to as int),
{
    let mut out: Vec<u8> = Vec::new();
    push_range(&mut out, b, from, to);
    proof {
        assert(Seq::<u8>::empty() + b@.subrange(from as int, to as int) =~= b@.subrange(
            from as int,
            to as int,
        ));
    }
    out
}

} // verus!
