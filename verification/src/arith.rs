//! Arithmetic on samples as single-precision hardware does it: conversion
//! of integer samples, the mean of two samples, and conversion to 16-bit
//! integers. Every result is the correctly rounded one.

use vstd::prelude::*;
use vstd::arithmetic::mul::lemma_mul_is_associative;
use vstd::arithmetic::power2::{
    lemma2_to64, lemma2_to64_rest, lemma_pow2_adds, lemma_pow2_pos, lemma_pow2_strictly_increases,
    lemma_pow2_unfold, pow2,
};
use crate::digits::{
    abs, bit_length, lemma_bit_length_bounds, lemma_bit_length_of, lemma_bit_length_scaled,
    lemma_div_mod_of, lemma_multiple, magnitude_of, power_of_two,
};
use crate::rounding::{
    dropped_digits, lemma_nearest_properties, lemma_nearest_scaled,
    lemma_pattern_below_sign, lemma_pattern_of_magnitude, lemma_pattern_of_scaled,
    nearest_bits, nearest_magnitude, pattern_of, round_half_even, round_pack,
};
use crate::single::{
    compose, denotes, exponent_field, finite, fraction_field, is_finite, lemma_compose_fields,
    lemma_fields_compose, lemma_magnitude_parts, magnitude, nan, negative, parts, sanitized,
    scale_of, signed_value,
};

verus! {

/// The pattern of the single-precision number nearest to
/// `numerator / 2^shift`.
pub open spec fn ratio_bits(numerator: int, shift: int) -> u32 {
    if numerator == 0 {
        0
    } else {
        nearest_bits(numerator < 0, abs(numerator), 149 - shift)
    }
}

/// The pattern of the single-precision number nearest to
/// `numerator / 2^shift`.
pub fn ratio_to_bits(numerator: i64, shift: i32) -> (bits: u32)
    ensures
        bits == ratio_bits(numerator as int, shift as int),
{
    if numerator == 0 {
        0
    } else {
        round_pack(numerator < 0, magnitude_of(numerator), 149 - shift as i64)
    }
}

/// The significand of a normal single-precision number that a positive
/// integer `a` fits: `a` scaled by the power of two that brings it to 24
/// binary digits.
pub open spec fn significand(a: nat) -> nat {
    let p = bit_length(a) as int;
    if p <= 24 {
        a * pow2((24 - p) as nat)
    } else {
        a / pow2((p - 24) as nat)
    }
}

/// Whether `a` has no more than 24 significant binary digits: whether all
/// its digits below the 24 leading ones are zero.
pub open spec fn fits_significand(a: nat) -> bool {
    bit_length(a) > 24 ==> a % pow2((bit_length(a) - 24) as nat) == 0
}

/// The pattern of the single-precision number that is exactly
/// `numerator / 2^shift`, where that number is zero or a normal number; none
/// where the ratio has more than 24 significant binary digits or lies below
/// the normal range. Zero is positive zero.
spec fn exact_bits(numerator: int, shift: int) -> Option<u32> {
    let a = abs(numerator);
    let e = bit_length(a) + 126 - shift;
    if shift < -1 {
        None
    } else if a == 0 {
        Some(0u32)
    } else if 1 <= e <= 254 && fits_significand(a) {
        Some(compose(numerator < 0, e, significand(a) - 0x80_0000) as u32)
    } else {
        None
    }
}

/// The significand of a number that fits has 24 binary digits, and scales
/// back to the number.
proof fn lemma_significand(a: nat)
    requires
        a > 0,
        fits_significand(a),
    ensures
        0x80_0000 <= significand(a) < 0x100_0000,
        bit_length(a) <= 24 ==> significand(a) == a * pow2((24 - bit_length(a)) as nat),
        bit_length(a) > 24 ==> a == significand(a) * pow2((bit_length(a) - 24) as nat),
{
    let p = bit_length(a);
    let m = significand(a);
    lemma2_to64();
    lemma_bit_length_bounds(a);
    if p <= 24 {
        let k = (24 - p) as nat;
        lemma_pow2_pos(k);
        lemma_pow2_adds((p - 1) as nat, k);
        lemma_pow2_adds(p, k);
        assert(pow2((p - 1) as nat) * pow2(k) <= a * pow2(k)) by (nonlinear_arith)
            requires
                pow2((p - 1) as nat) <= a,
                pow2(k) > 0,
        ;
        assert(a * pow2(k) < pow2(p) * pow2(k)) by (nonlinear_arith)
            requires
                a < pow2(p),
                pow2(k) > 0,
        ;
    } else {
        let k = (p - 24) as nat;
        lemma_pow2_pos(k);
        vstd::arithmetic::div_mod::lemma_fundamental_div_mod(a as int, pow2(k) as int);
        assert(a == pow2(k) * m);
        lemma_pow2_adds(23, k);
        lemma_pow2_adds(24, k);
        assert(m >= pow2(23)) by (nonlinear_arith)
            requires
                pow2(23) * pow2(k) <= pow2(k) * m,
                pow2(k) > 0,
        ;
        assert(m < pow2(24)) by (nonlinear_arith)
            requires
                pow2(k) * m < pow2(24) * pow2(k),
                pow2(k) > 0,
        ;
        assert(a == m * pow2(k)) by (nonlinear_arith)
            requires
                a == pow2(k) * m,
        ;
    }
}

/// The pattern that `exact_bits` gives is that of a finite number, and that
/// number is exactly `numerator / 2^shift`.
proof fn lemma_exact_denotes(numerator: int, shift: int)
    requires
        exact_bits(numerator, shift) is Some,
    ensures
        denotes(exact_bits(numerator, shift).unwrap(), numerator, shift),
{
    let a = abs(numerator);
    let p = bit_length(a) as int;
    let e = p + 126 - shift;
    let bits = exact_bits(numerator, shift).unwrap();
    lemma2_to64();
    if a == 0 {
        assert(bits == 0u32);
        assert(exponent_field(0u32) == 0);
        assert(fraction_field(0u32) == 0);
        assert(magnitude(0u32) == 0);
        assert(0 * pow2((shift + 1) as nat) == 0 * pow2(150)) by (nonlinear_arith);
    } else {
        lemma_significand(a);
        let m = significand(a);
        let f = m - 0x80_0000;
        lemma_compose_fields(numerator < 0, e, f);
        assert(bits == compose(numerator < 0, e, f) as u32);
        assert(exponent_field(bits) == e);
        assert(fraction_field(bits) == f);
        assert(magnitude(bits) == m * pow2((e - 1) as nat));
        let s1 = (shift + 1) as nat;
        let e1 = (e - 1) as nat;
        lemma_pow2_adds(e1, s1);
        assert(e1 + s1 == p + 126);
        assert(m * pow2(e1) * pow2(s1) == m * pow2((p + 126) as nat)) by {
            lemma_mul_is_associative(m as int, pow2(e1) as int, pow2(s1) as int);
        }
        if p <= 24 {
            let k = (24 - p) as nat;
            lemma_pow2_adds(k, (p + 126) as nat);
            assert(k + (p + 126) == 150);
            assert(a * pow2(k) * pow2((p + 126) as nat) == a * pow2(150)) by {
                lemma_mul_is_associative(a as int, pow2(k) as int, pow2((p + 126) as nat) as int);
            }
        } else {
            let k = (p - 24) as nat;
            lemma_pow2_adds(k, 150);
            assert(k + 150 == p + 126);
            assert(m * pow2(k) * pow2(150) == m * pow2((p + 126) as nat)) by {
                lemma_mul_is_associative(m as int, pow2(k) as int, pow2(150) as int);
            }
        }
    }
}

/// Every pattern of zero or of a normal number that is exactly
/// `numerator / 2^shift` is the one that `exact_bits` gives: there is no
/// other, and where `exact_bits` gives none there is none.
proof fn lemma_exact_only(bits: u32, numerator: int, shift: int)
    requires
        denotes(bits, numerator, shift),
        exponent_field(bits) != 0 || numerator == 0,
    ensures
        exact_bits(numerator, shift) == Some(bits),
{
    let a = abs(numerator);
    let bigm = 0x80_0000 + fraction_field(bits);
    let be = exponent_field(bits);
    lemma2_to64();
    lemma_fields_compose(bits);
    lemma_pow2_pos((shift + 1) as nat);
    lemma_pow2_pos(150);
    if numerator == 0 {
        assert(magnitude(bits) == 0) by (nonlinear_arith)
            requires
                magnitude(bits) * pow2((shift + 1) as nat) == 0 * pow2(150),
                pow2((shift + 1) as nat) > 0,
        ;
        if be != 0 {
            lemma_pow2_pos((be - 1) as nat);
            assert(bigm * pow2((be - 1) as nat) > 0) by (nonlinear_arith)
                requires
                    bigm > 0,
                    pow2((be - 1) as nat) > 0,
            ;
        }
        assert(bits == 0);
    } else {
        let t = (be + shift) as nat;
        lemma_pow2_adds((be - 1) as nat, (shift + 1) as nat);
        assert(bigm * pow2(t) == a * pow2(150)) by {
            lemma_mul_is_associative(
                bigm as int,
                pow2((be - 1) as nat) as int,
                pow2((shift + 1) as nat) as int,
            );
        }
        lemma_bit_length_of(bigm as nat, 24);
        if t >= 150 {
            let k = (t - 150) as nat;
            lemma_pow2_adds(k, 150);
            lemma_pow2_pos(k);
            assert(a == bigm * pow2(k)) by (nonlinear_arith)
                requires
                    bigm * (pow2(k) * pow2(150)) == a * pow2(150),
                    pow2(150) > 0,
            ;
            lemma_bit_length_scaled(bigm as nat, k);
            lemma_multiple(a, bigm as nat, pow2(k));
            assert(bit_length(a) == 24 + k);
            if k == 0 {
                assert(a == bigm * pow2(0));
            }
            assert(significand(a) == bigm);
        } else {
            let k = (150 - t) as nat;
            lemma_pow2_adds(k, t);
            lemma_pow2_pos(t);
            assert(bigm == a * pow2(k)) by (nonlinear_arith)
                requires
                    bigm * pow2(t) == a * (pow2(k) * pow2(t)),
                    pow2(t) > 0,
            ;
            lemma_bit_length_scaled(a, k);
            assert(bit_length(a) + k == 24);
            assert(significand(a) == bigm);
        }
        assert(bit_length(a) + 126 - shift == be);
    }
}

/// Every ratio with a numerator of at most `2^24` in absolute value and a
/// shift of at most 126 has its exact pattern: so has every sample of
/// integer audio of up to 24 bits, and every mean of two such samples.
proof fn lemma_small_ratio_exact(numerator: int, shift: int)
    requires
        abs(numerator) <= 0x100_0000,
        -1 <= shift <= 126,
    ensures
        exact_bits(numerator, shift) is Some,
{
    let a = abs(numerator);
    lemma2_to64();
    if a > 0 {
        lemma_bit_length_bounds(a);
        let p = bit_length(a);
        if p > 25 {
            lemma_pow2_strictly_increases(24, (p - 1) as nat);
        }
        if p == 25 {
            assert(a == 0x100_0000);
            assert(pow2(1) == 2);
            assert(0x100_0000nat % 2 == 0);
        }
    }
}

/// Where a ratio has an exact pattern, that pattern is the nearest one.
proof fn lemma_exact_is_nearest(numerator: int, shift: int)
    requires
        exact_bits(numerator, shift) is Some,
    ensures
        ratio_bits(numerator, shift) == exact_bits(numerator, shift).unwrap(),
{
    let a = abs(numerator);
    if a > 0 {
        lemma2_to64();
        let p = bit_length(a);
        let e = p + 126 - shift;
        let x = 149 - shift;
        let r = dropped_digits(a, x);
        let m = significand(a);
        lemma_significand(a);
        lemma_bit_length_bounds(a);
        lemma_bit_length_of(m, 24);
        if p <= 24 {
            assert(r == 0);
            lemma_div_mod_of(a, 0, 1);
            assert(a * 1 + 0 == a);
            assert(round_half_even(a, pow2(0)) == a);
            assert(nearest_magnitude(a, x) == a * pow2(x as nat));
            lemma_pow2_adds((24 - p) as nat, (e - 1) as nat);
            assert((24 - p) + (e - 1) == x);
            assert(a * pow2(x as nat) == m * pow2((e - 1) as nat)) by {
                lemma_mul_is_associative(
                    a as int,
                    pow2((24 - p) as nat) as int,
                    pow2((e - 1) as nat) as int,
                );
            }
        } else {
            assert(r == p - 24);
            lemma_pow2_pos(r);
            lemma_div_mod_of(m, 0, pow2(r));
            assert(round_half_even(a, pow2(r)) == m);
            assert(r + x == e - 1);
        }
        let big = m * pow2((e - 1) as nat);
        assert(nearest_magnitude(a, x) == big);
        lemma_pattern_of_scaled(m, (e - 1) as nat);
        assert(m * pow2(0) == m);
        if e == 1 {
            assert(big == m);
        }
        assert(pattern_of(big) == compose(false, e, m - 0x80_0000));
        lemma_compose_fields(false, e, m - 0x80_0000);
        lemma_compose_fields(numerator < 0, e, m - 0x80_0000);
    }
}

/// Where `numerator / 2^shift` has at most 24 significant binary digits and
/// lies in the range of normal numbers, its nearest single-precision number
/// is the ratio itself.
pub proof fn law_ratio_exact(numerator: int, shift: int)
    requires
        shift >= -1,
        numerator != 0,
        fits_significand(abs(numerator)),
        1 <= bit_length(abs(numerator)) + 126 - shift <= 254,
    ensures
        denotes(ratio_bits(numerator, shift), numerator, shift),
{
    lemma_exact_denotes(numerator, shift);
    lemma_exact_is_nearest(numerator, shift);
}

/// Every ratio with a numerator of at most `2^24` in absolute value and a
/// shift from -1 to 126 is a single-precision number: so is every sample of
/// integer audio of up to 24 bits.
pub proof fn law_small_ratio(numerator: int, shift: int)
    requires
        abs(numerator) <= 0x100_0000,
        -1 <= shift <= 126,
    ensures
        denotes(ratio_bits(numerator, shift), numerator, shift),
{
    lemma_small_ratio_exact(numerator, shift);
    lemma_exact_denotes(numerator, shift);
    lemma_exact_is_nearest(numerator, shift);
}

/// A pattern of zero or of a normal number that is exactly
/// `numerator / 2^shift` is the pattern that rounding the ratio gives: an
/// exact value is never rounded away.
pub proof fn law_exact_stays(bits: u32, numerator: int, shift: int)
    requires
        denotes(bits, numerator, shift),
        exponent_field(bits) != 0 || numerator == 0,
    ensures
        ratio_bits(numerator, shift) == bits,
{
    lemma_exact_only(bits, numerator, shift);
    lemma_exact_is_nearest(numerator, shift);
}

/// Half the finite number with the pattern `bits`, rounded to the nearest
/// single-precision number.
pub open spec fn halved_bits(bits: u32) -> u32 {
    nearest_bits(negative(bits), magnitude(bits), -1)
}

/// Half the finite number with the pattern `bits`.
pub fn halve(bits: u32) -> (half: u32)
    requires
        finite(bits),
    ensures
        half == halved_bits(bits),
{
    let (neg, m, k) = parts(bits);
    proof {
        lemma_magnitude_parts(bits);
        lemma_nearest_scaled(m as nat, k as nat, -1);
    }
    round_pack(neg, m, k - 1)
}

/// The pattern of the sum of two finite single-precision numbers, rounded
/// to the nearest single-precision number. A sum of zero is positive zero,
/// except that of two negative zeros.
pub open spec fn sum_bits(left: u32, right: u32) -> u32 {
    let s = signed_value(left) + signed_value(right);
    if s == 0 {
        if negative(left) && negative(right) {
            0x8000_0000
        } else {
            0
        }
    } else {
        nearest_bits(s < 0, abs(s), 0)
    }
}

/// A number that is added to, or taken from, a much larger one with 24
/// binary digits is lost in the rounding.
proof fn lemma_far_sum(m: nat, k: nat, b: nat, subtract: bool)
    requires
        0x80_0000 <= m < 0x100_0000,
        k >= 16,
        b * 0x8000 < pow2(k),
    ensures
        m * pow2(k) > b,
        !subtract ==> nearest_magnitude(m * pow2(k) + b, 0) == m * pow2(k),
        subtract ==> nearest_magnitude((m * pow2(k) - b) as nat, 0) == m * pow2(k),
{
    lemma2_to64();
    let u = pow2(k);
    lemma_pow2_pos(k);
    let big = m * u;
    lemma_pow2_adds(23, k);
    lemma_pow2_adds(24, k);
    assert(pow2(23) * u <= m * u < pow2(24) * u) by (nonlinear_arith)
        requires
            pow2(23) <= m < pow2(24),
            u > 0,
    ;
    assert(b < u);
    if !subtract {
        let a = big + b;
        assert(a < pow2(24 + k)) by (nonlinear_arith)
            requires
                a == m * u + b,
                b < u,
                m + 1 <= pow2(24),
                pow2(24 + k) == pow2(24) * u,
        ;
        lemma_bit_length_of(a, 24 + k);
        assert(dropped_digits(a as nat, 0) == k);
        lemma_div_mod_of(m, b, u);
        assert(round_half_even(a, u) == m);
    } else if b == 0 {
        let a = big;
        lemma_bit_length_of(a, 24 + k);
        lemma_div_mod_of(m, 0, u);
        assert(round_half_even(a, u) == m);
    } else if m > 0x80_0000 {
        let a = (big - b) as nat;
        assert(a == (m - 1) * u + (u - b)) by (nonlinear_arith)
            requires
                a == m * u - b,
        ;
        assert(a >= pow2(23 + k)) by (nonlinear_arith)
            requires
                a == (m - 1) * u + (u - b),
                b < u,
                m - 1 >= pow2(23),
                pow2(23 + k) == pow2(23) * u,
        ;
        lemma_bit_length_of(a, 24 + k);
        lemma_div_mod_of((m - 1) as nat, (u - b) as nat, u);
        assert(round_half_even(a, u) == m);
    } else {
        let h = pow2((k - 1) as nat);
        lemma_pow2_unfold(k);
        lemma_pow2_pos((k - 1) as nat);
        assert(u == 2 * h);
        let a = (big - b) as nat;
        assert(a == 0xff_ffff * h + (h - b)) by (nonlinear_arith)
            requires
                a == 0x80_0000 * u - b,
                u == 2 * h,
        ;
        lemma_pow2_adds(23, (k - 1) as nat);
        lemma_pow2_adds(24, (k - 1) as nat);
        assert(pow2(23) * h <= a < pow2(24) * h) by (nonlinear_arith)
            requires
                a == 0xff_ffff * h + (h - b),
                0 < b < h,
                pow2(23) == 0x80_0000,
                pow2(24) == 0x100_0000,
        ;
        lemma_bit_length_of(a, 23 + k);
        assert(dropped_digits(a, 0) == k - 1);
        lemma_div_mod_of(0xff_ffff, (h - b) as nat, h);
        assert(round_half_even(a, h) == 0x100_0000);
        assert(0x100_0000 * h == 0x80_0000 * u) by (nonlinear_arith)
            requires
                u == 2 * h,
        ;
    }
}

/// The pattern of the sum of two finite single-precision numbers.
pub fn sum(left: u32, right: u32) -> (total: u32)
    requires
        finite(left),
        finite(right),
    ensures
        total == sum_bits(left, right),
{
    let (_, _, kl) = parts(left);
    let (_, _, kr) = parts(right);
    if kl < kr {
        sum_ordered(right, left)
    } else {
        sum_ordered(left, right)
    }
}

/// The pattern of the sum of two finite single-precision numbers, the one
/// of the larger scale first.
fn sum_ordered(left: u32, right: u32) -> (total: u32)
    requires
        finite(left),
        finite(right),
        scale_of(left) >= scale_of(right),
    ensures
        total == sum_bits(left, right),
{
    let (nl, ml, kl) = parts(left);
    let (nr, mr, kr) = parts(right);
    proof {
        lemma2_to64();
        lemma_magnitude_parts(left);
        lemma_magnitude_parts(right);
        lemma_pow2_pos(kr as nat);
        lemma_pow2_pos(kl as nat);
    }
    let d = kl - kr;
    if d <= 38 {
        let scale = power_of_two(d as u32);
        proof {
            lemma2_to64_rest();
            if d < 38 {
                lemma_pow2_strictly_increases(d as nat, 38);
            }
            lemma_pow2_adds(d as nat, kr as nat);
            assert(ml * scale < 0x100_0000 * 0x40_0000_0000) by (nonlinear_arith)
                requires
                    ml < 0x100_0000,
                    scale <= 0x40_0000_0000,
                    0 <= ml,
                    0 <= scale,
            ;
        }
        let a: i64 = (ml as u128 * scale) as i64;
        let sl: i64 = if nl {
            -a
        } else {
            a
        };
        let sr: i64 = if nr {
            -(mr as i64)
        } else {
            mr as i64
        };
        let s: i64 = sl + sr;
        proof {
            let unit = pow2(kr as nat);
            assert(magnitude(left) == a * unit) by {
                lemma_mul_is_associative(ml as int, pow2(d as nat) as int, unit as int);
            }
            assert(signed_value(left) == sl * unit) by (nonlinear_arith)
                requires
                    magnitude(left) == a * unit,
                    signed_value(left) == (if nl {
                        -(magnitude(left) as int)
                    } else {
                        magnitude(left) as int
                    }),
                    sl == (if nl {
                        -(a as int)
                    } else {
                        a as int
                    }),
            ;
            assert(signed_value(right) == sr * unit) by (nonlinear_arith)
                requires
                    magnitude(right) == mr * unit,
                    signed_value(right) == (if nr {
                        -(magnitude(right) as int)
                    } else {
                        magnitude(right) as int
                    }),
                    sr == (if nr {
                        -(mr as int)
                    } else {
                        mr as int
                    }),
            ;
            let exact = signed_value(left) + signed_value(right);
            assert(exact == s * unit) by (nonlinear_arith)
                requires
                    exact == sl * unit + sr * unit,
                    s == sl + sr,
            ;
            assert(s == 0 <==> exact == 0) by (nonlinear_arith)
                requires
                    exact == s * unit,
                    unit > 0,
            ;
            assert(s < 0 <==> exact < 0) by (nonlinear_arith)
                requires
                    exact == s * unit,
                    unit > 0,
            ;
            assert(abs(exact) == abs(s as int) * unit) by (nonlinear_arith)
                requires
                    exact == s * unit,
                    unit > 0,
                    abs(exact) == (if exact < 0 {
                        -exact
                    } else {
                        exact
                    }),
                    abs(s as int) == (if s < 0 {
                        -(s as int)
                    } else {
                        s as int
                    }),
            ;
            lemma_nearest_scaled(abs(s as int), kr as nat, 0);
        }
        if s == 0 {
            if nl && nr {
                0x8000_0000
            } else {
                0
            }
        } else {
            round_pack(s < 0, magnitude_of(s), kr)
        }
    } else {
        proof {
            let b = magnitude(right);
            let k = kl as nat;
            // the smaller number is below 2^(k - 15)
            lemma_pow2_adds(24, kr as nat);
            lemma_pow2_adds(15, (24 + kr) as nat);
            if 39 + kr < kl {
                lemma_pow2_strictly_increases((39 + kr) as nat, k);
            }
            assert(b < pow2((24 + kr) as nat)) by (nonlinear_arith)
                requires
                    b == mr * pow2(kr as nat),
                    mr < 0x100_0000,
                    pow2((24 + kr) as nat) == 0x100_0000 * pow2(kr as nat),
                    pow2(kr as nat) > 0,
            ;
            assert(b * 0x8000 < pow2(k)) by (nonlinear_arith)
                requires
                    b < pow2((24 + kr) as nat),
                    pow2((39 + kr) as nat) == 0x8000 * pow2((24 + kr) as nat),
                    pow2((39 + kr) as nat) <= pow2(k),
            ;
            let subtract = nl != nr;
            lemma_far_sum(ml as nat, k, b, subtract);
            let big = magnitude(left);
            let exact = signed_value(left) + signed_value(right);
            assert(big > b);
            assert(exact != 0);
            assert((exact < 0) == nl);
            assert(abs(exact) == if subtract {
                (big - b) as nat
            } else {
                big + b
            });
            assert(nearest_magnitude(abs(exact), 0) == big);
            lemma_fields_compose(left);
            if nl {
                let plain = (left - 0x8000_0000) as u32;
                assert(exponent_field(plain) == exponent_field(left));
                assert(fraction_field(plain) == fraction_field(left));
                lemma_pattern_of_magnitude(plain);
            } else {
                lemma_pattern_of_magnitude(left);
            }
        }
        left
    }
}

/// The pattern of the mean of two finite single-precision numbers as
/// single-precision arithmetic gives it: their sum, rounded, then halved and
/// rounded. It is the pattern of an infinity where the sum is too large.
pub open spec fn mean_bits(left: u32, right: u32) -> u32 {
    let sum = sum_bits(left, right);
    if finite(sum) {
        halved_bits(sum)
    } else {
        sum
    }
}

/// The mean of two single-precision numbers, made safe: zero where one of
/// the two, or their sum, is not finite.
pub open spec fn safe_mean(left: u32, right: u32) -> u32 {
    if finite(left) && finite(right) {
        sanitized(mean_bits(left, right))
    } else {
        0
    }
}

/// The mean of two ratios over the same power of two, each with a numerator
/// of at most `2^23` in absolute value, is exact: it is their sum over twice
/// that power. So is the mean of two samples of integer audio of up to 24
/// bits.
pub proof fn law_mean_of_small_ratios(left: int, right: int, shift: int)
    requires
        abs(left) <= 0x80_0000,
        abs(right) <= 0x80_0000,
        -1 <= shift <= 125,
    ensures
        safe_mean(ratio_bits(left, shift), ratio_bits(right, shift)) == ratio_bits(
            left + right,
            shift + 1,
        ),
        denotes(ratio_bits(left + right, shift + 1), left + right, shift + 1),
{
    lemma2_to64();
    let l = ratio_bits(left, shift);
    let r = ratio_bits(right, shift);
    let total = left + right;
    law_small_ratio(left, shift);
    law_small_ratio(right, shift);
    law_small_ratio(total, shift);
    law_small_ratio(total, shift + 1);
    let unit = pow2((150 - shift - 1) as nat);
    let step = pow2((shift + 1) as nat);
    lemma_pow2_pos((shift + 1) as nat);
    lemma_pow2_pos((150 - shift - 1) as nat);
    lemma_pow2_adds((150 - shift - 1) as nat, (shift + 1) as nat);
    // a pattern that is exactly n / 2^shift has the magnitude |n| * 2^(149 - shift)
    assert(magnitude(l) == abs(left) * unit) by (nonlinear_arith)
        requires
            magnitude(l) * step == abs(left) * pow2(150),
            pow2(150) == unit * step,
            step > 0,
    ;
    assert(magnitude(r) == abs(right) * unit) by (nonlinear_arith)
        requires
            magnitude(r) * step == abs(right) * pow2(150),
            pow2(150) == unit * step,
            step > 0,
    ;
    let sum_pattern = ratio_bits(total, shift);
    assert(magnitude(sum_pattern) == abs(total) * unit) by (nonlinear_arith)
        requires
            magnitude(sum_pattern) * step == abs(total) * pow2(150),
            pow2(150) == unit * step,
            step > 0,
    ;
    assert(signed_value(l) == left * unit) by (nonlinear_arith)
        requires
            magnitude(l) == abs(left) * unit,
            negative(l) == (left < 0),
            signed_value(l) == (if negative(l) {
                -(magnitude(l) as int)
            } else {
                magnitude(l) as int
            }),
            abs(left) == (if left < 0 {
                -left
            } else {
                left
            }),
    ;
    assert(signed_value(r) == right * unit) by (nonlinear_arith)
        requires
            magnitude(r) == abs(right) * unit,
            negative(r) == (right < 0),
            signed_value(r) == (if negative(r) {
                -(magnitude(r) as int)
            } else {
                magnitude(r) as int
            }),
            abs(right) == (if right < 0 {
                -right
            } else {
                right
            }),
    ;
    let exact = signed_value(l) + signed_value(r);
    assert(exact == total * unit) by (nonlinear_arith)
        requires
            exact == left * unit + right * unit,
            total == left + right,
    ;
    if total == 0 {
        assert(exact == 0) by (nonlinear_arith)
            requires
                exact == 0 * unit,
        ;
        assert(!(negative(l) && negative(r)));
        assert(sum_bits(l, r) == 0);
        lemma_fields_compose(0u32);
        assert(magnitude(0u32) == 0);
        lemma_nearest_scaled(0, 0, -1);
        lemma_div_mod_of(0, 0, 2);
        assert(0 * 2 + 0 == 0);
        assert(pow2(1) == 2);
        assert(dropped_digits(0, -1) == 1);
        assert(round_half_even(0, pow2(1)) == 0);
        assert(nearest_magnitude(0, -1) == 0) by (nonlinear_arith)
            requires
                nearest_magnitude(0, -1) == 0 * pow2(0),
        ;
        assert(halved_bits(0u32) == 0);
    } else {
        assert(exact != 0 && (exact < 0) == (total < 0)) by (nonlinear_arith)
            requires
                exact == total * unit,
                unit > 0,
                total != 0,
        ;
        assert(abs(exact) == abs(total) * unit) by (nonlinear_arith)
            requires
                exact == total * unit,
                unit > 0,
                abs(exact) == (if exact < 0 {
                    -exact
                } else {
                    exact
                }),
                abs(total) == (if total < 0 {
                    -total
                } else {
                    total
                }),
        ;
        lemma_nearest_scaled(abs(total), (150 - shift - 1) as nat, 0);
        assert(sum_bits(l, r) == sum_pattern);
        lemma_nearest_scaled(abs(total), (150 - shift - 1) as nat, -1);
        assert(halved_bits(sum_pattern) == ratio_bits(total, shift + 1));
    }
}

/// The mean of two single-precision numbers, made safe.
pub fn mean(left: u32, right: u32) -> (m: u32)
    ensures
        m == safe_mean(left, right),
{
    if !is_finite(left) || !is_finite(right) {
        return 0;
    }
    let total = sum(left, right);
    if !is_finite(total) {
        return 0;
    }
    let half = halve(total);
    if is_finite(half) {
        half
    } else {
        0
    }
}

/// The pattern of the product of the finite number with the pattern `bits`
/// and the positive whole number `factor`, rounded to the nearest
/// single-precision number.
pub open spec fn scaled_bits(bits: u32, factor: nat) -> u32 {
    nearest_bits(negative(bits), magnitude(bits) * factor, 0)
}

/// The whole part of the absolute value of the finite number with the
/// pattern `bits`.
pub open spec fn whole_part(bits: u32) -> nat {
    magnitude(bits) / pow2(149)
}

/// The 16-bit integer nearest to a whole number of the given sign and
/// absolute value.
pub open spec fn clamped16(negative_sign: bool, whole: nat) -> int {
    if negative_sign {
        if whole >= 32768 {
            -32768
        } else {
            -(whole as int)
        }
    } else {
        if whole >= 32767 {
            32767
        } else {
            whole as int
        }
    }
}

/// The factor by which a sample is scaled when it is written as a 16-bit
/// integer.
pub const PCM16_SCALE: i16 = 32767;

/// The 16-bit integer that stands for a sample: the sample times 32767 in
/// single-precision arithmetic, without its fractional part, and held to the
/// range of 16-bit integers. A NaN gives 0.
pub open spec fn pcm16_of(bits: u32) -> int {
    let product = scaled_bits(bits, PCM16_SCALE as nat);
    if nan(bits) {
        0
    } else if !finite(bits) || !finite(product) {
        clamped16(negative(bits), 32768)
    } else {
        clamped16(negative(bits), whole_part(product))
    }
}

/// The whole part of the absolute value of a finite number, where it is
/// below `2^24`; `2^24` stands for anything larger.
fn whole_of(bits: u32) -> (w: u64)
    requires
        finite(bits),
    ensures
        whole_part(bits) < 0x100_0000 ==> w == whole_part(bits),
        whole_part(bits) >= 0x100_0000 ==> w == 0x100_0000,
{
    let (_, m, k) = parts(bits);
    proof {
        lemma2_to64();
        lemma_magnitude_parts(bits);
        lemma_pow2_pos(149);
        lemma_pow2_pos(k as nat);
    }
    if m == 0 {
        proof {
            assert(magnitude(bits) == 0) by (nonlinear_arith)
                requires
                    magnitude(bits) == 0 * pow2(k as nat),
            ;
            lemma_div_mod_of(0, 0, pow2(149));
            assert(0 * pow2(149) + 0 == 0) by (nonlinear_arith);
        }
        return 0;
    }
    if k >= 149 {
        proof {
            let j = (k - 149) as nat;
            lemma_pow2_adds(j, 149);
            lemma_pow2_pos(j);
            assert(magnitude(bits) == (m * pow2(j)) * pow2(149) + 0) by (nonlinear_arith)
                requires
                    magnitude(bits) == m * pow2(k as nat),
                    pow2(k as nat) == pow2(j) * pow2(149),
            ;
            lemma_div_mod_of(m as nat * pow2(j), 0, pow2(149));
            assert(m * pow2(j) >= 0x80_0000) by (nonlinear_arith)
                requires
                    m >= 0x80_0000,
                    pow2(j) >= 1,
            ;
            if m * pow2(j) < 0x100_0000 {
                // the whole part is the significand itself
                if j > 0 {
                    lemma_pow2_unfold(j);
                    lemma_pow2_pos((j - 1) as nat);
                    assert(m * pow2(j) >= 0x100_0000) by (nonlinear_arith)
                        requires
                            m >= 0x80_0000,
                            pow2(j) == 2 * pow2((j - 1) as nat),
                            pow2((j - 1) as nat) >= 1,
                    ;
                }
                assert(pow2(0) == 1);
                assert(m * 1 == m);
            }
        }
        if k == 149 {
            return m;
        }
        return 0x100_0000;
    }
    let j = 149 - k;
    proof {
        lemma_pow2_adds(j as nat, k as nat);
        lemma_pow2_pos(j as nat);
        vstd::arithmetic::div_mod::lemma_div_multiples_vanish_quotient(
            pow2(k as nat) as int,
            m as int,
            pow2(j as nat) as int,
        );
        assert(pow2(k as nat) * m == m * pow2(k as nat)) by (nonlinear_arith);
        assert(pow2(k as nat) * pow2(j as nat) == pow2(j as nat) * pow2(k as nat)) by (nonlinear_arith);
        assert(whole_part(bits) == m as nat / pow2(j as nat));
        vstd::arithmetic::div_mod::lemma_div_pos_is_pos(m as int, pow2(j as nat) as int);
        vstd::arithmetic::div_mod::lemma_div_is_ordered_by_denominator(m as int, 1, pow2(j as nat) as int);
    }
    if j >= 24 {
        proof {
            if j > 24 {
                lemma_pow2_strictly_increases(24, j as nat);
            }
            vstd::arithmetic::div_mod::lemma_basic_div(m as int, pow2(j as nat) as int);
        }
        return 0;
    }
    let unit = power_of_two(j as u32);
    (m as u128 / unit) as u64
}

/// The 16-bit integer that stands for a sample.
pub fn to_pcm16(bits: u32) -> (q: i16)
    ensures
        q == pcm16_of(bits),
{
    let neg = bits >= 0x8000_0000;
    let limit: i16 = if neg {
        -32768
    } else {
        32767
    };
    if !is_finite(bits) {
        if bits % 0x80_0000 != 0 {
            return 0;
        }
        return limit;
    }
    let (_, m, k) = parts(bits);
    proof {
        lemma_magnitude_parts(bits);
        assert(magnitude(bits) * 32767 == (m * 32767) * pow2(k as nat)) by (nonlinear_arith)
            requires
                magnitude(bits) == m * pow2(k as nat),
        ;
        lemma_nearest_scaled(m as nat * 32767, k as nat, 0);
    }
    let product = round_pack(neg, m * (PCM16_SCALE as u64), k);
    if !is_finite(product) {
        return limit;
    }
    let whole = whole_of(product);
    if neg {
        if whole >= 32768 {
            -32768
        } else {
            -(whole as i16)
        }
    } else {
        if whole >= 32767 {
            32767
        } else {
            whole as i16
        }
    }
}

/// What a round trip through 16-bit integers does to a sample between -1
/// and 1: written as a 16-bit integer and read back as integer audio of 16
/// bits, it keeps its sign and comes back less than three steps of
/// `1/32768` away. (One step of `1/32767` is not always enough: 0.99 comes
/// back as 32439/32768.)
pub proof fn law_round_trip(bits: u32)
    requires
        finite(bits),
        magnitude(bits) <= pow2(149),
    ensures
        -32767 <= pcm16_of(bits) <= 32767,
        denotes(ratio_bits(pcm16_of(bits), 15), pcm16_of(bits), 15),
        pcm16_of(bits) != 0 ==> (pcm16_of(bits) < 0) == negative(bits),
        32768 * (magnitude(bits) - magnitude(ratio_bits(pcm16_of(bits), 15))) < 3 * pow2(149),
        32768 * (magnitude(ratio_bits(pcm16_of(bits), 15)) - magnitude(bits)) < 3 * pow2(149),
{
    lemma2_to64();
    let x = magnitude(bits);
    let one = pow2(149);
    lemma_pow2_pos(149);
    let product = x * 32767;
    let t = scaled_bits(bits, 32767);
    let q = pcm16_of(bits);
    lemma_fields_compose(bits);
    assert(!nan(bits));
    // the whole part of the product, and the sample read back
    let whole: nat = if product == 0 {
        0
    } else {
        nearest_magnitude(product, 0) / one
    };
    if product == 0 {
        lemma_div_mod_of(0, 0, 1);
        assert(0 * 1 + 0 == 0);
        assert(dropped_digits(0, 0) == 0);
        assert(round_half_even(0, pow2(0)) == 0);
        assert(nearest_magnitude(0, 0) == 0) by (nonlinear_arith)
            requires
                nearest_magnitude(0, 0) == 0 * pow2(0),
        ;
        assert(pattern_of(0) == 0);
        let plain = pattern_of(0);
        lemma_fields_compose(0u32);
        assert(exponent_field(0u32) == 0 && fraction_field(0u32) == 0);
        if negative(bits) {
            let signed = 0x8000_0000u32;
            lemma_fields_compose(signed);
            assert(t == signed);
            assert(exponent_field(signed) == 0 && fraction_field(signed) == 0);
        } else {
            assert(t == 0);
        }
        assert(magnitude(t) == 0);
        lemma_div_mod_of(0, 0, one);
        assert(0 * one + 0 == 0) by (nonlinear_arith);
        assert(whole_part(t) == 0);
        assert(q == 0);
    } else {
        // product < 2^164
        lemma_pow2_adds(15, 149);
        assert(product < pow2(164)) by (nonlinear_arith)
            requires
                product == x * 32767,
                x <= one,
                pow2(164) == 0x8000 * one,
                one > 0,
        ;
        lemma_bit_length_bounds(product);
        let p = bit_length(product);
        if p > 164 {
            if p - 1 > 164 {
                lemma_pow2_strictly_increases(164, (p - 1) as nat);
            }
        }
        assert(p <= 164);
        lemma_nearest_properties(product);
        let rounded = nearest_magnitude(product, 0);
        let r = dropped_digits(product, 0);
        assert(r <= 140);
        if r < 140 {
            lemma_pow2_strictly_increases(r, 140);
        }
        let plain = pattern_of(rounded);
        lemma_pattern_below_sign(rounded);
        lemma_fields_compose(plain);
        if negative(bits) {
            let signed = (plain + 0x8000_0000) as u32;
            assert(t == signed);
            lemma_fields_compose(signed);
            assert(exponent_field(signed) == exponent_field(plain));
            assert(fraction_field(signed) == fraction_field(plain));
        } else {
            assert(t == plain);
        }
        assert(finite(t));
        assert(magnitude(t) == rounded);
        assert(whole == whole_part(t));
        // the whole part stays below 32768
        lemma_pow2_unfold(140);
        lemma_pow2_adds(10, 139);
        assert(pow2(10) == 1024);
        vstd::arithmetic::div_mod::lemma_fundamental_div_mod(rounded as int, one as int);
        vstd::arithmetic::div_mod::lemma_mod_bound(rounded as int, one as int);
        assert(whole <= 32767) by (nonlinear_arith)
            requires
                rounded == one * whole + rounded % one,
                rounded % one >= 0,
                2 * (rounded - product) <= pow2(r),
                pow2(r) <= pow2(140),
                product == x * 32767,
                x <= one,
                one == 1024 * pow2(139),
                pow2(140) == 2 * pow2(139),
                pow2(139) > 0,
        ;
        assert(q == if negative(bits) {
            -(whole as int)
        } else {
            whole as int
        });
    }
    assert(abs(q) == whole);
    law_small_ratio(q, 15);
    let back = ratio_bits(q, 15);
    let y = magnitude(back);
    // y * 2^16 == whole * 2^150, so 32768 * y == whole * 2^149
    lemma_pow2_adds(16, 134);
    lemma_pow2_adds(15, 134);
    lemma_pow2_unfold(150);
    assert(pow2(16) == 65536);
    assert(pow2(15) == 32768);
    assert(32768 * y == whole * one) by (nonlinear_arith)
        requires
            y * 65536 == whole * pow2(150),
            pow2(150) == 2 * one,
    ;
    if product == 0 {
        assert(x == 0);
    } else {
        let rounded = nearest_magnitude(product, 0);
        let r = dropped_digits(product, 0);
        vstd::arithmetic::div_mod::lemma_fundamental_div_mod(rounded as int, one as int);
        vstd::arithmetic::div_mod::lemma_mod_bound(rounded as int, one as int);
        lemma_pow2_adds(10, 139);
        lemma_pow2_unfold(140);
        assert(32768 * (x - y) < 3 * one && 32768 * (y - x) < 3 * one) by (nonlinear_arith)
            requires
                32768 * y == whole * one,
                rounded == one * whole + rounded % one,
                0 <= rounded % one < one,
                2 * (rounded - product) <= pow2(r),
                2 * (product - rounded) <= pow2(r),
                pow2(r) <= pow2(140),
                pow2(140) == 2 * pow2(139),
                one == 1024 * pow2(139),
                pow2(139) > 0,
                product == x * 32767,
                0 <= x <= one,
        ;
    }
}

} // verus!
