//! IEEE 754 numbers as their bits: the total order, and the conversions
//! between integers and the two binary formats.
//!
//! A `u32` here is the bits of a single-precision number, a `u64` those of a
//! double-precision one.

use vstd::prelude::*;

verus! {

/// Two to the power `k`.
pub open spec fn pow2(k: nat) -> nat
    decreases k,
{
    if k == 0 {
        1
    } else {
        2 * pow2((k - 1) as nat)
    }
}

/// The largest `k` with `2^k <= n`, for `n` at least 1.
pub open spec fn log2(n: nat) -> nat
    decreases n,
{
    if n < 2 {
        0
    } else {
        1 + log2(n / 2)
    }
}

/// `n / unit` to the nearest integer, halves to the even one.
pub open spec fn round_div(n: nat, unit: nat) -> nat {
    let q = n / unit;
    let r = n % unit;
    if 2 * r > unit || (2 * r == unit && q % 2 == 1) {
        q + 1
    } else {
        q
    }
}

/// The position of single-precision bits in the total order of floats.
pub open spec fn key32(b: u32) -> int {
    if b < 0x8000_0000 {
        b as int
    } else {
        0x7fff_ffff - b
    }
}

/// The position of double-precision bits in the total order of floats.
pub open spec fn key64(b: u64) -> int {
    if b < 0x8000_0000_0000_0000 {
        b as int
    } else {
        0x7fff_ffff_ffff_ffff - b
    }
}

/// The total order tells any two bit patterns apart.
pub proof fn keys_differ(a: u32, b: u32, x: u64, y: u64)
    ensures
        (key32(a) == key32(b)) == (a == b),
        (key64(x) == key64(y)) == (x == y),
{
}

/// The position of single-precision bits in the total order.
pub fn total_key32(b: u32) -> (r: i64)
    ensures
        r == key32(b),
{
    if b < 0x8000_0000 {
        b as i64
    } else {
        0x7fff_ffff - (b as i64)
    }
}

/// The position of double-precision bits in the total order.
pub fn total_key64(b: u64) -> (r: i128)
    ensures
        r == key64(b),
{
    if b < 0x8000_0000_0000_0000 {
        b as i128
    } else {
        0x7fff_ffff_ffff_ffff - (b as i128)
    }
}

/// Single-precision bits of no number.
pub open spec fn is_nan32(b: u32) -> bool {
    b % 0x8000_0000 > 0x7f80_0000
}

/// Double-precision bits of no number.
pub open spec fn is_nan64(b: u64) -> bool {
    b % 0x8000_0000_0000_0000 > 0x7ff0_0000_0000_0000
}

/// Whether `a >= b` as numbers: both zeros are equal, and no number of a
/// kind that is none is comparable.
pub open spec fn ge32(a: u32, b: u32) -> bool {
    !is_nan32(a) && !is_nan32(b) && (key32(a) >= key32(b) || (a % 0x8000_0000 == 0 && b
        % 0x8000_0000 == 0))
}

/// Whether `a >= b` as numbers.
pub fn at_least32(a: u32, b: u32) -> (r: bool)
    ensures
        r == ge32(a, b),
{
    let x: u32 = a % 0x8000_0000;
    let y: u32 = b % 0x8000_0000;
    if x > 0x7f80_0000 || y > 0x7f80_0000 {
        false
    } else {
        total_key32(a) >= total_key32(b) || (x == 0 && y == 0)
    }
}

/// Whether `a < b` as numbers.
pub open spec fn lt32(a: u32, b: u32) -> bool {
    !is_nan32(a) && !is_nan32(b) && !ge32(a, b)
}

/// Whether `a < b` as numbers.
pub fn less32(a: u32, b: u32) -> (r: bool)
    ensures
        r == lt32(a, b),
{
    let x: u32 = a % 0x8000_0000;
    let y: u32 = b % 0x8000_0000;
    x <= 0x7f80_0000 && y <= 0x7f80_0000 && !at_least32(a, b)
}

/// Whether `a < b` as numbers.
pub open spec fn lt64(a: u64, b: u64) -> bool {
    !is_nan64(a) && !is_nan64(b) && key64(a) < key64(b) && !eq64(a, b)
}

/// Whether `a < b` as numbers.
pub fn less64(a: u64, b: u64) -> (r: bool)
    ensures
        r == lt64(a, b),
{
    let x: u64 = a % 0x8000_0000_0000_0000;
    let y: u64 = b % 0x8000_0000_0000_0000;
    x <= 0x7ff0_0000_0000_0000 && y <= 0x7ff0_0000_0000_0000 && total_key64(a) < total_key64(b)
        && !same64(a, b)
}

/// Whether two doubles are equal as numbers.
pub open spec fn eq64(a: u64, b: u64) -> bool {
    !is_nan64(a) && !is_nan64(b) && (a == b || (a % 0x8000_0000_0000_0000 == 0 && b
        % 0x8000_0000_0000_0000 == 0))
}

/// Whether two doubles are equal as numbers.
pub fn same64(a: u64, b: u64) -> (r: bool)
    ensures
        r == eq64(a, b),
{
    let x: u64 = a % 0x8000_0000_0000_0000;
    let y: u64 = b % 0x8000_0000_0000_0000;
    x <= 0x7ff0_0000_0000_0000 && y <= 0x7ff0_0000_0000_0000 && (a == b || (x == 0 && y == 0))
}

/// The bits of a positive integer in a format with `p` bits of precision
/// and exponent bias `bias`: the nearest number of the format.
pub open spec fn nat_bits(n: nat, p: nat, bias: nat) -> nat {
    if n == 0 {
        0
    } else {
        let e = log2(n);
        let half = pow2((p - 1) as nat);
        let q = if e <= p - 1 {
            n * pow2((p - 1 - e) as nat)
        } else {
            round_div(n, pow2((e - (p - 1)) as nat))
        };
        ((e + bias) * half + q - half) as nat
    }
}

/// The double-precision number nearest to an integer.
pub open spec fn int_bits64(n: int) -> int {
    if n < 0 {
        0x8000_0000_0000_0000int + nat_bits((-n) as nat, 53, 1023)
    } else {
        nat_bits(n as nat, 53, 1023) as int
    }
}

/// The single-precision number nearest to an integer.
pub open spec fn int_bits32(n: int) -> int {
    if n < 0 {
        0x8000_0000int + nat_bits((-n) as nat, 24, 127)
    } else {
        nat_bits(n as nat, 24, 127) as int
    }
}

pub proof fn pow2_adds(a: nat, b: nat)
    ensures
        pow2(a + b) == pow2(a) * pow2(b),
    decreases a,
{
    if a == 0 {
        let y = pow2(b);
        assert(1 * y == y);
        assert(pow2(a) == 1);
        assert(a + b == b);
    } else {
        pow2_adds((a - 1) as nat, b);
        let x = pow2((a - 1) as nat);
        let y = pow2(b);
        assert((2 * x) * y == 2 * (x * y)) by (nonlinear_arith);
    }
}

pub proof fn pow2_positive(k: nat)
    ensures
        pow2(k) >= 1,
    decreases k,
{
    if k > 0 {
        pow2_positive((k - 1) as nat);
    }
}

pub proof fn pow2_monotone(a: nat, b: nat)
    requires
        a <= b,
    ensures
        pow2(a) <= pow2(b),
    decreases b,
{
    pow2_positive(b);
    if a < b {
        pow2_monotone(a, (b - 1) as nat);
    }
}

pub proof fn log2_bounds(n: nat)
    requires
        n >= 1,
    ensures
        pow2(log2(n)) <= n < 2 * pow2(log2(n)),
    decreases n,
{
    if n >= 2 {
        log2_bounds(n / 2);
    }
}

proof fn log2_unique(n: nat, e: nat)
    requires
        pow2(e) <= n < 2 * pow2(e),
    ensures
        log2(n) == e,
        n >= 1,
    decreases n,
{
    pow2_positive(e);
    if e == 0 {
    } else {
        log2_unique(n / 2, (e - 1) as nat);
    }
}

proof fn log2_monotone(n: nat, m: nat)
    requires
        1 <= n <= m,
    ensures
        log2(n) <= log2(m),
    decreases m,
{
    if n >= 2 {
        log2_monotone(n / 2, m / 2);
    }
}

proof fn pow2_values()
    ensures
        pow2(23) == 0x80_0000,
        pow2(24) == 0x100_0000,
        pow2(29) == 0x2000_0000,
        pow2(52) == 0x10_0000_0000_0000,
        pow2(53) == 0x20_0000_0000_0000,
        pow2(64) == 0x1_0000_0000_0000_0000,
{
    reveal_with_fuel(pow2, 30);
    pow2_adds(23, 29);
    assert(pow2(52) == pow2(23) * pow2(29));
    assert(0x80_0000 * 0x2000_0000 == 0x10_0000_0000_0000int);
    pow2_adds(24, 29);
    assert(0x100_0000 * 0x2000_0000 == 0x20_0000_0000_0000int);
    pow2_adds(52, 12);
    assert(pow2(12) == 4096);
    assert(0x10_0000_0000_0000 * 4096 == 0x1_0000_0000_0000_0000int);
}

/// Rounded division of a number between `2^e` and `2^(e+1)` by
/// `2^(e - (p - 1))` gives a `p`-bit number, or the next power of two.
proof fn round_div_range(n: nat, lo: nat, unit: nat)
    requires
        unit >= 1,
        lo * unit <= n < 2 * (lo * unit),
    ensures
        lo <= round_div(n, unit) <= 2 * lo,
{
    let q = n / unit;
    assert(lo <= q && q < 2 * lo) by (nonlinear_arith)
        requires
            unit >= 1,
            lo * unit <= n < 2 * (lo * unit),
            q == n / unit,
    ;
}

proof fn round_div_monotone(n: nat, m: nat, unit: nat)
    requires
        unit >= 1,
        n <= m,
    ensures
        round_div(n, unit) <= round_div(m, unit),
{
    let q = n / unit;
    let r = n % unit;
    let s = m / unit;
    let t = m % unit;
    assert(q <= s && (q == s ==> r <= t)) by (nonlinear_arith)
        requires
            unit >= 1,
            n <= m,
            q == n / unit,
            r == n % unit,
            s == m / unit,
            t == m % unit,
    ;
}

/// What the bits of a positive integer are made of.
proof fn nat_bits_parts(n: nat, p: nat, bias: nat) -> (q: nat)
    requires
        n >= 1,
        p >= 1,
    ensures
        nat_bits(n, p, bias) == (log2(n) + bias) * pow2((p - 1) as nat) + q - pow2((p - 1) as nat),
        pow2((p - 1) as nat) <= q <= 2 * pow2((p - 1) as nat),
        q == (if log2(n) <= p - 1 {
            n * pow2((p - 1 - log2(n)) as nat)
        } else {
            round_div(n, pow2((log2(n) - (p - 1)) as nat))
        }),
{
    let e = log2(n);
    let half = pow2((p - 1) as nat);
    pow2_positive((p - 1) as nat);
    log2_bounds(n);
    let q = if e <= p - 1 {
        n * pow2((p - 1 - e) as nat)
    } else {
        round_div(n, pow2((e - (p - 1)) as nat))
    };
    if e <= p - 1 {
        let u = pow2((p - 1 - e) as nat);
        let v = pow2(e);
        pow2_adds(e, (p - 1 - e) as nat);
        pow2_positive((p - 1 - e) as nat);
        assert(half <= n * u && n * u <= 2 * half) by (nonlinear_arith)
            requires
                half == v * u,
                v <= n < 2 * v,
                u >= 1,
        ;
    } else {
        let u = pow2((e - (p - 1)) as nat);
        pow2_positive((e - (p - 1)) as nat);
        pow2_adds((p - 1) as nat, (e - (p - 1)) as nat);
        round_div_range(n, half, u);
    }
    assert((e + bias) * half >= 0) by (nonlinear_arith)
        requires
            e >= 0,
            bias >= 0,
            half >= 0,
    ;
    q
}

/// Rounding to a format keeps the order of integers.
pub proof fn nat_bits_monotone(n: nat, m: nat, p: nat, bias: nat)
    requires
        n <= m,
        p >= 1,
        bias >= 1,
    ensures
        nat_bits(n, p, bias) <= nat_bits(m, p, bias),
{
    if n > 0 {
        let half = pow2((p - 1) as nat);
        let a = log2(n);
        let b = log2(m);
        let q = nat_bits_parts(n, p, bias);
        let s = nat_bits_parts(m, p, bias);
        log2_monotone(n, m);
        if a < b {
            assert((a + bias) * half + half <= (b + bias) * half) by (nonlinear_arith)
                requires
                    a + 1 <= b,
                    half >= 0,
                    bias >= 0,
            ;
        } else if a <= p - 1 {
            let u = pow2((p - 1 - a) as nat);
            assert(n * u <= m * u) by (nonlinear_arith)
                requires
                    n <= m,
                    u >= 0,
            ;
        } else {
            let u = pow2((a - (p - 1)) as nat);
            pow2_positive((a - (p - 1)) as nat);
            round_div_monotone(n, m, u);
        }
    }
}

/// Integers of at most 53 bits keep their strict order in double precision.
proof fn nat_bits_strict(n: nat, m: nat)
    requires
        n < m <= pow2(53),
    ensures
        nat_bits(n, 53, 1023) < nat_bits(m, 53, 1023),
{
    let half = pow2(52);
    pow2_values();
    let s = nat_bits_parts(m, 53, 1023);
    let b = log2(m);
    if n == 0 {
        assert((b + 1023) * half >= half) by (nonlinear_arith)
            requires
                b >= 0,
                half >= 0,
        ;
        assert((b + 1023) * half >= 1023 * half) by (nonlinear_arith)
            requires
                b >= 0,
                half >= 0,
        ;
    } else {
        let q = nat_bits_parts(n, 53, 1023);
        let a = log2(n);
        log2_bounds(n);
        log2_bounds(m);
        log2_monotone(n, m);
        if a >= 53 {
            pow2_monotone(53, a);
        }
        let u = pow2((52 - a) as nat);
        let v = pow2(a);
        pow2_adds(a, (52 - a) as nat);
        pow2_positive((52 - a) as nat);
        assert(n * u < 2 * half) by (nonlinear_arith)
            requires
                half == v * u,
                n < 2 * v,
                u >= 1,
        ;
        if a < b {
            assert((a + 1023) * half + half <= (b + 1023) * half) by (nonlinear_arith)
                requires
                    a + 1 <= b,
                    half >= 0,
            ;
        } else {
            assert(n * u < m * u) by (nonlinear_arith)
                requires
                    n < m,
                    u >= 1,
            ;
        }
    }
}

/// Integers of at most 53 bits compare in double precision as they are.
pub proof fn int_bits64_exact(a: int, b: int)
    requires
        -0x20_0000_0000_0000 <= a <= 0x20_0000_0000_0000,
        -0x20_0000_0000_0000 <= b <= 0x20_0000_0000_0000,
        a < b,
    ensures
        key64(int_bits64(a) as u64) < key64(int_bits64(b) as u64),
{
    pow2_values();
    int_bits64_monotone(a, b);
    let x = if a < 0 {
        (-a) as nat
    } else {
        a as nat
    };
    let y = if b < 0 {
        (-b) as nat
    } else {
        b as nat
    };
    nat_bits_bound(x, 53, 1023);
    nat_bits_bound(y, 53, 1023);
    assert((53 - 1) as nat == 52nat);
    assert(pow2((53 - 1) as nat) == 0x10_0000_0000_0000);
    assert(1087 * pow2(52) < 0x8000_0000_0000_0000);
    if a >= 0 {
        nat_bits_strict(x, y);
    } else if b < 0 {
        nat_bits_strict(y, x);
    } else {
        assert(int_bits64(a) == 0x8000_0000_0000_0000 + nat_bits(x, 53, 1023));
        assert(int_bits64(b) == nat_bits(y, 53, 1023));
    }
}

/// The bits of 64-bit integers stay below the format's infinity.
proof fn nat_bits_bound(n: nat, p: nat, bias: nat)
    requires
        n < pow2(64),
        p >= 1,
    ensures
        nat_bits(n, p, bias) <= (64 + bias) * pow2((p - 1) as nat),
{
    let half = pow2((p - 1) as nat);
    if n > 0 {
        let q = nat_bits_parts(n, p, bias);
        let e = log2(n);
        log2_bounds(n);
        if e >= 64 {
            pow2_monotone(64, e);
        }
        assert((e + bias) * half + half <= (64 + bias) * half) by (nonlinear_arith)
            requires
                e + 1 <= 64,
                half >= 0,
                bias >= 0,
        ;
    } else {
        assert(0 <= (64 + bias) * half) by (nonlinear_arith)
            requires
                half >= 0,
                bias >= 0,
        ;
    }
}

/// Rounding an integer to double precision keeps the order.
pub proof fn int_bits64_monotone(a: int, b: int)
    requires
        a <= b,
        -0x1_0000_0000_0000_0000 < a,
        b < 0x1_0000_0000_0000_0000,
    ensures
        0 <= int_bits64(a) < 0x1_0000_0000_0000_0000,
        0 <= int_bits64(b) < 0x1_0000_0000_0000_0000,
        key64(int_bits64(a) as u64) <= key64(int_bits64(b) as u64),
{
    pow2_values();
    let x = if a < 0 {
        (-a) as nat
    } else {
        a as nat
    };
    let y = if b < 0 {
        (-b) as nat
    } else {
        b as nat
    };
    nat_bits_bound(x, 53, 1023);
    nat_bits_bound(y, 53, 1023);
    if a >= 0 {
        nat_bits_monotone(x, y, 53, 1023);
    } else if b < 0 {
        nat_bits_monotone(y, x, 53, 1023);
    }
}

/// The bits of a positive integer in a format.
fn nat_to_bits(n: u64, p: u32, bias: u64) -> (r: u64)
    requires
        (p == 53 && bias == 1023) || (p == 24 && bias == 127),
    ensures
        r == nat_bits(n as nat, p as nat, bias as nat),
        r <= (64 + bias) * pow2((p - 1) as nat),
{
    proof {
        pow2_values();
        nat_bits_bound(n as nat, p as nat, bias as nat);
    }
    if n == 0 {
        return 0;
    }
    let half: u128 = if p == 53 {
        0x10_0000_0000_0000
    } else {
        0x80_0000
    };
    let mut top: u128 = 1;
    let mut e: u64 = 0;
    while top * 2 <= n as u128
        invariant
            n >= 1,
            top == pow2(e as nat),
            top <= n,
            e < 64,
        decreases n - top,
    {
        proof {
            pow2_positive(e as nat);
            if e == 63 {
                assert(pow2(64) == 2 * pow2(63));
                pow2_values();
            }
        }
        top = top * 2;
        e += 1;
    }
    proof {
        log2_unique(n as nat, e as nat);
    }
    let ghost q0 = nat_bits_parts(n as nat, p as nat, bias as nat);
    let q: u128 = if e <= (p as u64) - 1 {
        let scale: u128 = half / top;
        proof {
            pow2_adds(e as nat, (p - 1 - e) as nat);
            let u = pow2((p - 1 - e) as nat);
            let t = pow2(e as nat);
            pow2_positive(e as nat);
            assert((t * u) / t == u) by (nonlinear_arith)
                requires
                    t >= 1,
            ;
            assert(scale == u);
            assert(n * scale == q0);
        }
        (n as u128) * scale
    } else {
        let unit: u128 = top / half;
        proof {
            pow2_adds((p - 1) as nat, (e - (p - 1)) as nat);
            let u = pow2((e - (p - 1)) as nat);
            pow2_positive((e - (p - 1)) as nat);
            assert((half * u) / (half as int) == u) by (nonlinear_arith)
                requires
                    half >= 1,
            ;
            assert(unit == u);
        }
        let d: u128 = (n as u128) / unit;
        let m: u128 = (n as u128) % unit;
        if 2 * m > unit || (2 * m == unit && d % 2 == 1) {
            d + 1
        } else {
            d
        }
    };
    assert(q == q0);
    assert((e + bias) * half <= (64 + 1023) * 0x10_0000_0000_0000) by (nonlinear_arith)
        requires
            e < 64,
            bias <= 1023,
            0 <= half <= 0x10_0000_0000_0000,
    ;
    assert((e + bias) * half >= half) by (nonlinear_arith)
        requires
            e + bias >= 1,
            half >= 0,
    ;
    let bits: u128 = ((e + bias) as u128) * half + q - half;
    bits as u64
}

/// The double-precision number nearest to an integer of at most 64 bits.
pub fn int_to_f64(n: i128) -> (r: u64)
    requires
        -0x1_0000_0000_0000_0000 < n < 0x1_0000_0000_0000_0000,
    ensures
        r == int_bits64(n as int),
{
    proof {
        pow2_values();
    }
    if n < 0 {
        let m: u64 = (-n) as u64;
        0x8000_0000_0000_0000 + nat_to_bits(m, 53, 1023)
    } else {
        nat_to_bits(n as u64, 53, 1023)
    }
}

/// The single-precision number nearest to an integer of at most 64 bits.
pub fn int_to_f32(n: i128) -> (r: u32)
    requires
        -0x1_0000_0000_0000_0000 < n < 0x1_0000_0000_0000_0000,
    ensures
        r == int_bits32(n as int),
{
    proof {
        pow2_values();
    }
    if n < 0 {
        let m: u64 = (-n) as u64;
        (0x8000_0000 + nat_to_bits(m, 24, 127)) as u32
    } else {
        nat_to_bits(n as u64, 24, 127) as u32
    }
}

/// A single-precision number in double precision.
pub open spec fn widened(b: u32) -> int {
    let sign = if b >= 0x8000_0000 {
        0x8000_0000_0000_0000int
    } else {
        0
    };
    let x = (b % 0x8000_0000) as int;
    let exponent = x / 0x80_0000;
    let fraction = x % 0x80_0000;
    if exponent == 255 {
        // An infinity, or no number: then a quiet one.
        sign + 0x7ff0_0000_0000_0000 + (if fraction == 0 {
            0
        } else {
            (if fraction < 0x40_0000 {
                fraction + 0x40_0000
            } else {
                fraction
            }) * 0x2000_0000
        })
    } else if exponent > 0 {
        sign + (exponent + 896) * 0x10_0000_0000_0000 + fraction * 0x2000_0000
    } else if fraction == 0 {
        sign
    } else {
        let e = log2(fraction as nat);
        sign + (e + 874) * 0x10_0000_0000_0000 + (fraction - pow2(e)) * pow2((52 - e) as nat)
    }
}

/// A double-precision number rounded to single precision.
pub open spec fn narrowed(b: u64) -> int {
    let sign = if b >= 0x8000_0000_0000_0000 {
        0x8000_0000int
    } else {
        0
    };
    let x = (b % 0x8000_0000_0000_0000) as int;
    let exponent = x / 0x10_0000_0000_0000;
    let fraction = x % 0x10_0000_0000_0000;
    let m = (0x10_0000_0000_0000 + fraction) as nat;
    if exponent == 2047 {
        sign + 0x7f80_0000 + (if fraction == 0 {
            0int
        } else {
            0x40_0000
        })
    } else if exponent > 1150 {
        sign + 0x7f80_0000
    } else if exponent >= 897 {
        sign + (exponent - 897) * 0x80_0000 + round_div(m, 0x2000_0000)
    } else if exponent >= 868 {
        sign + round_div(m, pow2((926 - exponent) as nat))
    } else {
        sign
    }
}

/// Narrowing undoes widening, for every number.
pub proof fn narrow_widens(b: u32)
    requires
        !is_nan32(b),
    ensures
        0 <= widened(b) < 0x1_0000_0000_0000_0000,
        narrowed(widened(b) as u64) == b,
{
    let x = (b % 0x8000_0000) as int;
    let exponent = x / 0x80_0000;
    let fraction = x % 0x80_0000;
    let w = widened(b);
    let sign = if b >= 0x8000_0000 {
        0x8000_0000_0000_0000int
    } else {
        0
    };
    pow2_values();
    if exponent == 255 {
        assert(w - sign == 0x7ff0_0000_0000_0000);
    } else if exponent > 0 {
        let y = w - sign;
        assert(fraction * 0x2000_0000 < 0x10_0000_0000_0000);
        assert(y / 0x10_0000_0000_0000 == exponent + 896);
        assert(y % 0x10_0000_0000_0000 == fraction * 0x2000_0000);
        let m = (0x10_0000_0000_0000 + fraction * 0x2000_0000) as nat;
        assert(m == (0x80_0000 + fraction) * 0x2000_0000);
        assert(m / 0x2000_0000 == 0x80_0000 + fraction);
        assert(m % 0x2000_0000 == 0);
    } else if fraction > 0 {
        let f = fraction as nat;
        let e = log2(f);
        log2_bounds(f);
        if e >= 23 {
            pow2_monotone(23, e);
        }
        let u = pow2((52 - e) as nat);
        let v = pow2(e);
        pow2_positive((52 - e) as nat);
        pow2_adds(e, (52 - e) as nat);
        assert(v * u == 0x10_0000_0000_0000);
        assert((f - v) * u < v * u && (f - v) * u >= 0 && (f - v) * u + v * u == f * u)
            by (nonlinear_arith)
            requires
                v <= f < 2 * v,
                u >= 1,
        ;
        let y = w - sign;
        let g = (f - v) * u;
        assert(y == (e + 874) * 0x10_0000_0000_0000 + g);
        assert(y / 0x10_0000_0000_0000 == e + 874);
        assert(y % 0x10_0000_0000_0000 == g);
        let m = (0x10_0000_0000_0000 + g) as nat;
        assert(m == f * u);
        assert(926 - (e + 874) == 52 - e);
        assert(m / u == f && m % u == 0) by (nonlinear_arith)
            requires
                m == f * u,
                u >= 1,
        ;
    } else {
        assert(w == sign);
    }
}

/// `2^k`, for `k` at most 63.
fn power_of_two(k: u64) -> (r: u64)
    requires
        k <= 63,
    ensures
        r == pow2(k as nat),
{
    let mut p: u64 = 1;
    let mut i: u64 = 0;
    while i < k
        invariant
            i <= k <= 63,
            p == pow2(i as nat),
        decreases k - i,
    {
        proof {
            pow2_values();
            pow2_monotone((i + 1) as nat, 63);
            assert(pow2(64) == 2 * pow2(63));
        }
        p = p * 2;
        i += 1;
    }
    p
}

/// `n / unit` to the nearest integer, halves to the even one.
fn div_round(n: u64, unit: u64) -> (r: u64)
    requires
        unit >= 1,
        n < 0x8000_0000_0000_0000,
        unit < 0x8000_0000_0000_0000,
    ensures
        r == round_div(n as nat, unit as nat),
{
    let q: u64 = n / unit;
    let m: u64 = n % unit;
    if 2 * m > unit || (2 * m == unit && q % 2 == 1) {
        proof {
            assert(q <= n) by (nonlinear_arith)
                requires
                    q == n / unit,
                    unit >= 1,
                    n >= 0,
            ;
        }
        q + 1
    } else {
        q
    }
}

/// A single-precision number in double precision.
pub fn widen(b: u32) -> (r: u64)
    ensures
        r == widened(b),
{
    let sign: u64 = if b >= 0x8000_0000 {
        0x8000_0000_0000_0000
    } else {
        0
    };
    let x: u64 = (b % 0x8000_0000) as u64;
    let exponent: u64 = x / 0x80_0000;
    let fraction: u64 = x % 0x80_0000;
    if exponent == 255 {
        if fraction == 0 {
            sign + 0x7ff0_0000_0000_0000
        } else {
            let quiet: u64 = if fraction < 0x40_0000 {
                fraction + 0x40_0000
            } else {
                fraction
            };
            sign + 0x7ff0_0000_0000_0000 + quiet * 0x2000_0000
        }
    } else if exponent > 0 {
        sign + (exponent + 896) * 0x10_0000_0000_0000 + fraction * 0x2000_0000
    } else if fraction == 0 {
        sign
    } else {
        let mut top: u64 = 1;
        let mut e: u64 = 0;
        while top * 2 <= fraction
            invariant
                1 <= fraction < 0x80_0000,
                top == pow2(e as nat),
                top <= fraction,
                e < 23,
            decreases fraction - top,
        {
            proof {
                pow2_positive(e as nat);
                pow2_values();
                if e == 22 {
                    assert(pow2(23) == 2 * pow2(22));
                }
            }
            top = top * 2;
            e += 1;
        }
        let scale: u64 = power_of_two(52 - e);
        proof {
            log2_unique(fraction as nat, e as nat);
            pow2_values();
            pow2_adds(e as nat, (52 - e) as nat);
            assert((fraction - top) * scale < 0x10_0000_0000_0000 && 0 <= (fraction - top) * scale)
                by (nonlinear_arith)
                requires
                    top * scale == 0x10_0000_0000_0000,
                    top <= fraction < 2 * top,
                    scale >= 0,
                    (fraction - top) < top,
            ;
        }
        sign + (e + 874) * 0x10_0000_0000_0000 + (fraction - top) * scale
    }
}

/// A double-precision number rounded to single precision, halves to even.
pub fn narrow(b: u64) -> (r: u32)
    ensures
        r == narrowed(b),
{
    let sign: u64 = if b >= 0x8000_0000_0000_0000 {
        0x8000_0000
    } else {
        0
    };
    let x: u64 = b % 0x8000_0000_0000_0000;
    let exponent: u64 = x / 0x10_0000_0000_0000;
    let fraction: u64 = x % 0x10_0000_0000_0000;
    let m: u64 = 0x10_0000_0000_0000 + fraction;
    if exponent == 2047 {
        if fraction == 0 {
            (sign + 0x7f80_0000) as u32
        } else {
            (sign + 0x7f80_0000 + 0x40_0000) as u32
        }
    } else if exponent > 1150 {
        (sign + 0x7f80_0000) as u32
    } else if exponent >= 897 {
        let q: u64 = div_round(m, 0x2000_0000);
        proof {
            round_div_range(m as nat, 0x80_0000, 0x2000_0000);
        }
        (sign + (exponent - 897) * 0x80_0000 + q) as u32
    } else if exponent >= 868 {
        let unit: u64 = power_of_two(926 - exponent);
        proof {
            pow2_values();
            pow2_monotone((926 - exponent) as nat, 58);
            pow2_adds(29, 29);
            pow2_monotone(30, (926 - exponent) as nat);
            pow2_adds(1, 29);
            round_div_monotone(m as nat, 0x20_0000_0000_0000, unit as nat);
            small_quotient(unit as nat);
        }
        let q: u64 = div_round(m, unit);
        (sign + q) as u32
    } else {
        sign as u32
    }
}

proof fn small_quotient(unit: nat)
    requires
        unit >= 0x4000_0000,
    ensures
        round_div(0x20_0000_0000_0000, unit) <= 0x80_0001,
{
    let n = 0x20_0000_0000_0000nat;
    let q = n / unit;
    assert(q <= 0x80_0000) by (nonlinear_arith)
        requires
            q == n / unit,
            n == 0x20_0000_0000_0000,
            unit >= 0x4000_0000,
    ;
}

/// The whole number that double-precision bits are, none for a negative
/// number, a fraction, or one beyond 64 bits; the first beyond them counts
/// as the last within.
pub open spec fn whole_of(b: u64) -> Option<nat> {
    let exponent = (b / 0x10_0000_0000_0000) as int;
    let m = (0x10_0000_0000_0000 + b % 0x10_0000_0000_0000) as nat;
    if b % 0x8000_0000_0000_0000 == 0 {
        Some(0)
    } else if b >= 0x8000_0000_0000_0000 || exponent < 1023 {
        None
    } else if exponent <= 1075 {
        let unit = pow2((1075 - exponent) as nat);
        if m % unit == 0 {
            Some(m / unit)
        } else {
            None
        }
    } else if exponent <= 1086 {
        Some(m * pow2((exponent - 1075) as nat))
    } else if exponent == 1087 && m == 0x10_0000_0000_0000 {
        Some(u64::MAX as nat)
    } else {
        None
    }
}

/// The whole number that double-precision bits are.
pub fn whole_number(b: u64) -> (r: Option<u64>)
    ensures
        match r {
            Some(n) => whole_of(b) == Some(n as nat),
            None => whole_of(b) is None,
        },
{
    let exponent: u64 = b / 0x10_0000_0000_0000;
    let m: u64 = 0x10_0000_0000_0000 + b % 0x10_0000_0000_0000;
    if b % 0x8000_0000_0000_0000 == 0 {
        return Some(0);
    }
    if b >= 0x8000_0000_0000_0000 || exponent < 1023 {
        return None;
    }
    if exponent <= 1075 {
        let unit = power_of_two(1075 - exponent);
        proof {
            pow2_positive((1075 - exponent) as nat);
        }
        return if m % unit == 0 {
            Some(m / unit)
        } else {
            None
        };
    }
    if exponent <= 1086 {
        let unit = power_of_two(exponent - 1075);
        proof {
            pow2_monotone((exponent - 1075) as nat, 11);
            pow2_positive((exponent - 1075) as nat);
            assert(pow2(11) == 2048) by {
                reveal_with_fuel(pow2, 12);
            }
            assert(m * unit < 0x1_0000_0000_0000_0000) by (nonlinear_arith)
                requires
                    m < 0x20_0000_0000_0000,
                    1 <= unit <= 2048,
            ;
        }
        return Some(m * unit);
    }
    if exponent == 1087 && m == 0x10_0000_0000_0000 {
        return Some(u64::MAX);
    }
    None
}

/// A whole number that doubles hold exactly is read as itself.
pub proof fn whole_numbers_read_back(n: nat)
    requires
        n <= 0x10_0000_0000_0000,
    ensures
        0 <= int_bits64(n as int) < 0x8000_0000_0000_0000,
        whole_of(int_bits64(n as int) as u64) == Some(n),
{
    pow2_values();
    if n > 0 {
        let e = log2(n);
        let q = nat_bits_parts(n, 53, 1023);
        log2_bounds(n);
        assert(e <= 52) by {
            if e > 52 {
                pow2_monotone(53, e);
            }
        }
        let unit = pow2((52 - e) as nat);
        pow2_positive((52 - e) as nat);
        pow2_adds(e, (52 - e) as nat);
        assert(q == n * unit);
        assert(n * unit < 2 * 0x10_0000_0000_0000 && n * unit >= 0x10_0000_0000_0000)
            by (nonlinear_arith)
            requires
                pow2(e) <= n < 2 * pow2(e),
                pow2(e) * unit == 0x10_0000_0000_0000,
                unit >= 1,
        ;
        let bits = int_bits64(n as int);
        assert(bits == (e + 1023) * 0x10_0000_0000_0000 + (q - 0x10_0000_0000_0000));
        let b = bits as u64;
        assert(b / 0x10_0000_0000_0000 == e + 1023 && b % 0x10_0000_0000_0000 == q
            - 0x10_0000_0000_0000);
        assert((n * unit) % unit == 0 && (n * unit) / unit == n) by (nonlinear_arith)
            requires
                unit >= 1,
        ;
    }
}

} // verus!
