//! Binary digits and powers of two.

use vstd::prelude::*;
use vstd::arithmetic::power2::{
    lemma2_to64, lemma2_to64_rest, lemma_pow2_adds, lemma_pow2_pos, lemma_pow2_strictly_increases,
    lemma_pow2_unfold, pow2,
};

verus! {

/// The absolute value of an integer.
pub open spec fn abs(n: int) -> nat {
    if n < 0 {
        (-n) as nat
    } else {
        n as nat
    }
}

/// The number of binary digits of `n`.
pub open spec fn bit_length(n: nat) -> nat
    decreases n,
{
    if n == 0 {
        0
    } else {
        1 + bit_length(n / 2)
    }
}

/// A positive number lies between the powers of two that its bit length
/// gives.
pub proof fn lemma_bit_length_bounds(n: nat)
    requires
        n > 0,
    ensures
        bit_length(n) >= 1,
        pow2((bit_length(n) - 1) as nat) <= n < pow2(bit_length(n)),
    decreases n,
{
    lemma2_to64();
    if n == 1 {
        assert(bit_length(1) == 1 + bit_length(0));
    } else {
        lemma_bit_length_bounds(n / 2);
        let b = bit_length(n / 2);
        lemma_pow2_unfold(b);
        lemma_pow2_unfold(b + 1);
    }
}

/// A number between `2^(b-1)` and `2^b` has `b` binary digits.
pub proof fn lemma_bit_length_of(n: nat, b: nat)
    requires
        b >= 1,
        pow2((b - 1) as nat) <= n < pow2(b),
    ensures
        bit_length(n) == b,
{
    lemma_pow2_pos((b - 1) as nat);
    lemma_bit_length_bounds(n);
    let c = bit_length(n);
    if c < b {
        if c < b - 1 {
            lemma_pow2_strictly_increases(c, (b - 1) as nat);
        }
    } else if c > b {
        if b < c - 1 {
            lemma_pow2_strictly_increases(b, (c - 1) as nat);
        }
    }
}

/// A 64-bit number has at most 64 binary digits.
pub proof fn lemma_bit_length_u64(n: u64)
    ensures
        bit_length(n as nat) <= 64,
{
    lemma2_to64();
    lemma2_to64_rest();
    if n > 0 {
        lemma_bit_length_bounds(n as nat);
        if bit_length(n as nat) > 64 {
            if bit_length(n as nat) > 65 {
                lemma_pow2_strictly_increases(64, (bit_length(n as nat) - 1) as nat);
            }
        }
    }
}

/// Scaling a positive number by `2^k` adds `k` binary digits.
pub proof fn lemma_bit_length_scaled(x: nat, k: nat)
    requires
        x > 0,
    ensures
        bit_length(x * pow2(k)) == bit_length(x) + k,
    decreases k,
{
    lemma2_to64();
    if k == 0 {
        assert(x * pow2(0) == x);
    } else {
        lemma_bit_length_scaled(x, (k - 1) as nat);
        lemma_pow2_unfold(k);
        let y = x * pow2((k - 1) as nat);
        lemma_pow2_pos((k - 1) as nat);
        assert(x * pow2(k) == 2 * y) by (nonlinear_arith)
            requires
                pow2(k) == 2 * pow2((k - 1) as nat),
                y == x * pow2((k - 1) as nat),
        ;
        assert(y > 0) by (nonlinear_arith)
            requires
                y == x * pow2((k - 1) as nat),
                x > 0,
                pow2((k - 1) as nat) > 0,
        ;
        assert((2 * y) / 2 == y);
    }
}

/// A multiple of a positive number divides evenly by it.
pub proof fn lemma_multiple(a: nat, m: nat, d: nat)
    requires
        a == m * d,
        d > 0,
    ensures
        a % d == 0,
        a / d == m,
{
    vstd::arithmetic::div_mod::lemma_fundamental_div_mod_converse(a as int, d as int, m as int, 0);
}

/// Dividing `c * unit + d` by `unit`, where `d` is less than `unit`, gives
/// `c` and leaves `d`.
pub proof fn lemma_div_mod_of(c: nat, d: nat, unit: nat)
    requires
        d < unit,
    ensures
        (c * unit + d) / unit == c,
        (c * unit + d) % unit == d,
{
    assert(c * unit == unit * c) by (nonlinear_arith);
    vstd::arithmetic::div_mod::lemma_fundamental_div_mod_converse(
        (c * unit + d) as int,
        unit as int,
        c as int,
        d as int,
    );
}

/// The value of `2^127`, the largest power of two below `2^128`.
pub proof fn lemma_pow2_127()
    ensures
        pow2(127) == 0x8000_0000_0000_0000_0000_0000_0000_0000,
{
    lemma2_to64();
    lemma2_to64_rest();
    lemma_pow2_adds(64, 63);
    assert(0x1_0000_0000_0000_0000int * 0x8000_0000_0000_0000int
        == 0x8000_0000_0000_0000_0000_0000_0000_0000int);
}

/// The number of binary digits of `a`.
pub fn bit_len(a: u64) -> (p: u32)
    ensures
        p == bit_length(a as nat),
        p <= 64,
{
    proof {
        lemma_bit_length_u64(a);
    }
    let mut m = a;
    let mut p: u32 = 0;
    while m > 0
        invariant
            bit_length(a as nat) == bit_length(m as nat) + p,
            bit_length(a as nat) <= 64,
        decreases m,
    {
        m = m / 2;
        p = p + 1;
    }
    p
}

/// `2^r`.
pub fn power_of_two(r: u32) -> (u: u128)
    requires
        r <= 126,
    ensures
        u == pow2(r as nat),
        u >= 1,
{
    let mut u: u128 = 1;
    let mut i: u32 = 0;
    proof {
        lemma2_to64();
    }
    while i < r
        invariant
            i <= r <= 126,
            u == pow2(i as nat),
            u >= 1,
        decreases r - i,
    {
        proof {
            lemma_pow2_unfold((i + 1) as nat);
            lemma_pow2_strictly_increases((i + 1) as nat, 127);
            lemma_pow2_127();
        }
        u = u * 2;
        i = i + 1;
    }
    u
}

/// The absolute value of a 64-bit integer.
pub fn magnitude_of(n: i64) -> (a: u64)
    ensures
        a == abs(n as int),
{
    if n == i64::MIN {
        9223372036854775808u64
    } else if n < 0 {
        (-n) as u64
    } else {
        n as u64
    }
}

} // verus!
