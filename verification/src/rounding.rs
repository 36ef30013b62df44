//! Rounding to the nearest single-precision number.

use vstd::prelude::*;
use vstd::arithmetic::mul::lemma_mul_is_associative;
use vstd::arithmetic::power2::{
    lemma2_to64, lemma2_to64_rest, lemma_pow2_adds, lemma_pow2_pos, lemma_pow2_strictly_increases,
    lemma_pow2_unfold, pow2,
};
use crate::digits::{
    abs, bit_len, bit_length, lemma_bit_length_bounds, lemma_bit_length_of,
    lemma_bit_length_scaled, lemma_div_mod_of, lemma_multiple, power_of_two,
};
use crate::single::{
    compose, exponent_field, finite, fraction_field, lemma_compose_fields, lemma_fields_compose,
    lemma_magnitude_parts, magnitude, negative, scale_of, significand_of,
};

verus! {

/// `a` in units of `unit`, rounded to the nearest whole number of units;
/// a tie goes to the even number.
pub open spec fn round_half_even(a: nat, unit: nat) -> nat {
    let q = a / unit;
    let rem = a % unit;
    if 2 * rem > unit || (2 * rem == unit && q % 2 == 1) {
        q + 1
    } else {
        q
    }
}

/// Rounding moves a number by no more than half a unit.
pub proof fn law_round_half_even_error(a: nat, unit: nat)
    requires
        unit > 0,
    ensures
        2 * (round_half_even(a, unit) * unit - a) <= unit,
        2 * (a - round_half_even(a, unit) * unit) <= unit,
{
    let q = a / unit;
    let rem = a % unit;
    vstd::arithmetic::div_mod::lemma_fundamental_div_mod(a as int, unit as int);
    vstd::arithmetic::div_mod::lemma_mod_bound(a as int, unit as int);
    assert((q + 1) * unit == unit * q + unit) by (nonlinear_arith);
    assert(q * unit == unit * q) by (nonlinear_arith);
}

/// The number of low binary digits of `a` that a single-precision number
/// cannot hold when `a` is in units of `2^(x - 149)`: those beyond its 24
/// leading digits, and those below `2^-149`.
pub open spec fn dropped_digits(a: nat, x: int) -> nat {
    let by_width = bit_length(a) - 24;
    let by_grid = -x;
    if by_width >= by_grid && by_width >= 0 {
        by_width as nat
    } else if by_grid >= 0 {
        by_grid as nat
    } else {
        0
    }
}

/// The absolute value, in units of `2^-149`, of the single-precision number
/// nearest to `a * 2^(x - 149)`, a tie going to the even significand. (It
/// may be too large for a finite number.)
pub open spec fn nearest_magnitude(a: nat, x: int) -> nat {
    let r = dropped_digits(a, x);
    round_half_even(a, pow2(r)) * pow2((r + x) as nat)
}

/// The pattern of the non-negative number whose absolute value is `m` units
/// of `2^-149`, for an `m` of at most 24 significant binary digits; the
/// pattern of infinity where `m` is too large for a finite number.
pub open spec fn pattern_of(m: nat) -> u32 {
    let p = bit_length(m);
    if m < 0x100_0000 {
        m as u32
    } else if p > 277 {
        0x7f80_0000u32
    } else {
        compose(false, p - 23, m / pow2((p - 24) as nat) - 0x80_0000) as u32
    }
}

/// The pattern of the single-precision number nearest to
/// `a * 2^(x - 149)`, negated where `negative_sign` holds; a tie goes to the
/// even significand, and what is too large becomes infinity.
pub open spec fn nearest_bits(negative_sign: bool, a: nat, x: int) -> u32 {
    (pattern_of(nearest_magnitude(a, x)) + if negative_sign {
        0x8000_0000int
    } else {
        0int
    }) as u32
}

/// A number that keeps no more than its 24 leading digits when it is
/// rounded to units of `2^r` comes to at most `2^24` such units.
pub proof fn lemma_round_bound(a: nat, r: nat)
    requires
        a > 0,
        r + 24 >= bit_length(a),
    ensures
        round_half_even(a, pow2(r)) <= 0x100_0000,
        a / pow2(r) < 0x100_0000,
{
    lemma2_to64();
    lemma_pow2_pos(r);
    lemma_bit_length_bounds(a);
    let p = bit_length(a);
    let unit = pow2(r);
    let q = a / unit;
    vstd::arithmetic::div_mod::lemma_fundamental_div_mod(a as int, unit as int);
    vstd::arithmetic::div_mod::lemma_mod_bound(a as int, unit as int);
    // a < 2^p <= 2^(r + 24) = 2^24 * unit
    if p < r + 24 {
        lemma_pow2_strictly_increases(p, r + 24);
    }
    lemma_pow2_adds(24, r);
    assert(q < 0x100_0000) by (nonlinear_arith)
        requires
            a == unit * q + a % unit,
            a % unit >= 0,
            a < 0x100_0000 * unit,
            unit > 0,
    ;
}

/// A number that is small against the unit rounds to no unit at all.
pub proof fn lemma_round_to_zero(a: nat, r: nat)
    requires
        2 * a < pow2(r),
    ensures
        round_half_even(a, pow2(r)) == 0,
{
    let unit = pow2(r);
    vstd::arithmetic::div_mod::lemma_small_mod(a, unit);
    vstd::arithmetic::div_mod::lemma_basic_div(a as int, unit as int);
}

/// What rounding leaves of a positive number that loses none of its 24
/// leading digits is positive.
pub proof fn lemma_round_positive(a: nat, r: nat)
    requires
        a > 0,
        r + 24 <= bit_length(a) || r == 0,
    ensures
        round_half_even(a, pow2(r)) >= 1,
{
    lemma2_to64();
    lemma_pow2_pos(r);
    lemma_bit_length_bounds(a);
    let unit = pow2(r);
    vstd::arithmetic::div_mod::lemma_fundamental_div_mod(a as int, unit as int);
    vstd::arithmetic::div_mod::lemma_mod_bound(a as int, unit as int);
    if r > 0 {
        let p = bit_length(a);
        if r < p - 1 {
            lemma_pow2_strictly_increases(r, (p - 1) as nat);
        }
        assert(a >= unit);
        assert(a / unit >= 1) by (nonlinear_arith)
            requires
                a == unit * (a / unit) + a % unit,
                a % unit < unit,
                a >= unit,
                unit > 0,
                a / unit >= 0,
        ;
    } else {
        assert(unit == 1);
    }
}

/// The digits of a magnitude `q * 2^k`, where `q` is at most `2^24`: how
/// many there are, and what its 24 leading ones are.
pub proof fn lemma_pattern_of_scaled(q: nat, k: nat)
    requires
        0 < q <= 0x100_0000,
    ensures
        1 <= bit_length(q) <= 25,
        bit_length(q * pow2(k)) == bit_length(q) + k,
        bit_length(q) + k <= 24 ==> q * pow2(k) < 0x100_0000,
        bit_length(q) + k > 24 ==> q * pow2(k) >= 0x100_0000,
        bit_length(q) + k > 24 && bit_length(q) <= 24 ==> (q * pow2(k)) / pow2(
            (bit_length(q) + k - 24) as nat,
        ) == q * pow2((24 - bit_length(q)) as nat),
        bit_length(q) == 25 ==> q == 0x100_0000 && (q * pow2(k)) / pow2((k + 1) as nat)
            == 0x80_0000,
        0x80_0000 <= (if bit_length(q) <= 24 {
            q * pow2((24 - bit_length(q)) as nat)
        } else {
            0x80_0000
        }) < 0x100_0000,
{
    lemma2_to64();
    let p = bit_length(q);
    let m = q * pow2(k);
    lemma_bit_length_scaled(q, k);
    lemma_bit_length_bounds(q);
    lemma_pow2_pos(k);
    assert(m > 0) by (nonlinear_arith)
        requires
            m == q * pow2(k),
            q > 0,
            pow2(k) > 0,
    ;
    lemma_bit_length_bounds(m);
    let top = p + k;
    if top <= 24 {
        if top < 24 {
            lemma_pow2_strictly_increases(top, 24);
        }
    } else {
        if top - 1 > 24 {
            lemma_pow2_strictly_increases(24, (top - 1) as nat);
        }
    }
    if p > 25 {
        lemma_pow2_strictly_increases(25, (p - 1) as nat);
        lemma_pow2_unfold(25);
    }
    if p == 25 {
        lemma_pow2_unfold(25);
        assert(q == 0x100_0000);
        lemma_pow2_unfold((k + 1) as nat);
        lemma_pow2_pos((k + 1) as nat);
        assert(m == 0x80_0000 * pow2((k + 1) as nat)) by (nonlinear_arith)
            requires
                m == 0x100_0000 * pow2(k),
                pow2((k + 1) as nat) == 2 * pow2(k),
        ;
        lemma_multiple(m, 0x80_0000, pow2((k + 1) as nat));
    } else {
        let j = (24 - p) as nat;
        lemma_pow2_pos(j);
        lemma_pow2_adds((p - 1) as nat, j);
        lemma_pow2_adds(p, j);
        assert(pow2((p - 1) as nat) * pow2(j) <= q * pow2(j)) by (nonlinear_arith)
            requires
                pow2((p - 1) as nat) <= q,
                pow2(j) > 0,
        ;
        assert(q * pow2(j) < pow2(p) * pow2(j)) by (nonlinear_arith)
            requires
                q < pow2(p),
                pow2(j) > 0,
        ;
        if top > 24 {
            let d = (top - 24) as nat;
            lemma_pow2_adds(j, d);
            lemma_pow2_pos(d);
            assert(m == (q * pow2(j)) * pow2(d)) by (nonlinear_arith)
                requires
                    m == q * pow2(k),
                    pow2(k) == pow2(j) * pow2(d),
            ;
            lemma_multiple(m, q * pow2(j), pow2(d));
        }
    }
}

/// No pattern of a magnitude reaches the sign bit.
pub proof fn lemma_pattern_below_sign(m: nat)
    ensures
        pattern_of(m) < 0x8000_0000,
{
    lemma2_to64();
    let p = bit_length(m);
    if m >= 0x100_0000 && p <= 277 {
        lemma_bit_length_bounds(m);
        if p < 25 {
            if p < 24 {
                lemma_pow2_strictly_increases(p, 24);
            }
        }
        let k = (p - 24) as nat;
        lemma_pow2_pos(k);
        lemma_pow2_adds(23, k);
        lemma_pow2_adds(24, k);
        let q = m / pow2(k);
        vstd::arithmetic::div_mod::lemma_fundamental_div_mod(m as int, pow2(k) as int);
        vstd::arithmetic::div_mod::lemma_mod_bound(m as int, pow2(k) as int);
        assert(q < 0x100_0000) by (nonlinear_arith)
            requires
                m == pow2(k) * q + m % pow2(k),
                m % pow2(k) >= 0,
                m < 0x100_0000 * pow2(k),
                pow2(k) > 0,
        ;
        assert(q >= 0x80_0000) by (nonlinear_arith)
            requires
                m == pow2(k) * q + m % pow2(k),
                m % pow2(k) < pow2(k),
                m >= 0x80_0000 * pow2(k),
                pow2(k) > 0,
        ;
        lemma_compose_fields(false, p - 23, q - 0x80_0000);
    }
}

/// The pattern of a magnitude that a finite single-precision number holds
/// has that magnitude.
pub proof fn lemma_magnitude_of_pattern(q: nat, k: nat)
    requires
        0 < q <= 0x100_0000,
        bit_length(q) + k <= 277,
    ensures
        finite(pattern_of(q * pow2(k))),
        !negative(pattern_of(q * pow2(k))),
        magnitude(pattern_of(q * pow2(k))) == q * pow2(k),
{
    lemma2_to64();
    let big = q * pow2(k);
    let p2 = bit_length(q);
    let top = p2 + k;
    lemma_pattern_of_scaled(q, k);
    lemma_pattern_below_sign(big);
    if top <= 24 {
        let bits = big as u32;
        lemma_fields_compose(bits);
        let e = exponent_field(bits);
        assert(e == 0 || e == 1);
        if e == 1 {
            assert(pow2(0) == 1);
            assert((0x80_0000 + fraction_field(bits)) * 1 == big);
        }
    } else {
        let d = (top - 24) as nat;
        let mant: nat = if p2 <= 24 {
            q * pow2((24 - p2) as nat)
        } else {
            0x80_0000
        };
        assert(big / pow2(d) == mant);
        // the division is exact
        lemma_pow2_pos(d);
        if p2 <= 24 {
            lemma_pow2_adds((24 - p2) as nat, d);
            assert(big == mant * pow2(d)) by {
                lemma_mul_is_associative(q as int, pow2((24 - p2) as nat) as int, pow2(d) as int);
            }
        } else {
            lemma_pow2_unfold((k + 1) as nat);
            assert(big == mant * pow2(d)) by (nonlinear_arith)
                requires
                    big == 0x100_0000 * pow2(k),
                    pow2(d) == 2 * pow2(k),
                    mant == 0x80_0000,
            ;
        }
        lemma_compose_fields(false, top - 23, mant - 0x80_0000);
    }
}

/// The pattern of the magnitude of a finite, non-negative pattern is that
/// pattern.
pub proof fn lemma_pattern_of_magnitude(bits: u32)
    requires
        finite(bits),
        !negative(bits),
    ensures
        pattern_of(magnitude(bits)) == bits,
{
    lemma2_to64();
    lemma_fields_compose(bits);
    let e = exponent_field(bits);
    let f = fraction_field(bits);
    if e <= 1 {
        if e == 1 {
            assert(magnitude(bits) == (0x80_0000 + f) * pow2(0));
        }
        assert(magnitude(bits) == bits);
    } else {
        let m = (0x80_0000 + f) as nat;
        let k = (e - 1) as nat;
        lemma_pattern_of_scaled(m, k);
        lemma_bit_length_of(m, 24);
        assert(m * pow2(0) == m);
        assert(pow2(0) == 1);
    }
}

/// Rounding is the same in every scale: to round `a * 2^k` to units of
/// `2^(r + k)` is to round `a` to units of `2^r`.
pub proof fn lemma_round_scaled(a: nat, r: nat, k: nat)
    ensures
        round_half_even(a * pow2(k), pow2(r + k)) == round_half_even(a, pow2(r)),
{
    let unit = pow2(r);
    let scale = pow2(k);
    lemma_pow2_pos(r);
    lemma_pow2_pos(k);
    lemma_pow2_adds(r, k);
    let c = a / unit;
    let d = a % unit;
    vstd::arithmetic::div_mod::lemma_fundamental_div_mod(a as int, unit as int);
    vstd::arithmetic::div_mod::lemma_mod_bound(a as int, unit as int);
    assert(a * scale == c * (unit * scale) + d * scale) by (nonlinear_arith)
        requires
            a == unit * c + d,
    ;
    assert(d * scale < unit * scale) by (nonlinear_arith)
        requires
            d < unit,
            scale > 0,
    ;
    lemma_div_mod_of(c, d * scale, unit * scale);
    assert(2 * (d * scale) > unit * scale <==> 2 * d > unit) by (nonlinear_arith)
        requires
            scale > 0,
    ;
    assert(2 * (d * scale) == unit * scale <==> 2 * d == unit) by (nonlinear_arith)
        requires
            scale > 0,
    ;
}

/// The nearest single-precision number is the same however the value is
/// written: `a * 2^k` in units of `2^(x - 149)` is `a` in units of
/// `2^(x + k - 149)`.
pub proof fn lemma_nearest_scaled(a: nat, k: nat, x: int)
    ensures
        nearest_magnitude(a * pow2(k), x) == nearest_magnitude(a, x + k),
{
    lemma2_to64();
    lemma_pow2_pos(k);
    if a == 0 {
        assert(0 * pow2(k) == 0) by (nonlinear_arith);
        let r1 = dropped_digits(0, x);
        let r0 = dropped_digits(0, x + k);
        lemma_pow2_pos(r1);
        lemma_pow2_pos(r0);
        lemma_div_mod_of(0, 0, pow2(r1));
        lemma_div_mod_of(0, 0, pow2(r0));
        assert(0 * pow2(r1) + 0 == 0) by (nonlinear_arith);
        assert(0 * pow2(r0) + 0 == 0) by (nonlinear_arith);
        assert(round_half_even(0, pow2(r1)) == 0);
        assert(round_half_even(0, pow2(r0)) == 0);
        assert(0 * pow2((r1 + x) as nat) == 0) by (nonlinear_arith);
        assert(0 * pow2((r0 + x + k) as nat) == 0) by (nonlinear_arith);
    } else {
        let b = a * pow2(k);
        lemma_bit_length_scaled(a, k);
        let p = bit_length(a);
        let r1 = dropped_digits(b, x);
        let r0 = dropped_digits(a, x + k);
        if r1 >= k {
            assert(r1 == r0 + k);
            lemma_round_scaled(a, r0, k);
            assert(round_half_even(b, pow2(r1)) == round_half_even(a, pow2(r0)));
            assert(r1 + x == r0 + (x + k));
            assert(nearest_magnitude(b, x) == nearest_magnitude(a, x + k));
        } else {
            assert(r0 == 0);
            // b is a whole number of units of 2^r1
            let j = (k - r1) as nat;
            lemma_pow2_adds(j, r1);
            lemma_pow2_pos(r1);
            assert(b == (a * pow2(j)) * pow2(r1) + 0) by (nonlinear_arith)
                requires
                    b == a * pow2(k),
                    pow2(k) == pow2(j) * pow2(r1),
            ;
            lemma_div_mod_of(a * pow2(j), 0, pow2(r1));
            assert(round_half_even(b, pow2(r1)) == a * pow2(j));
            lemma_div_mod_of(a, 0, 1);
            assert(round_half_even(a, pow2(0)) == a) by {
                assert(a * 1 + 0 == a);
            }
            lemma_pow2_adds(j, (r1 + x) as nat);
            assert(j + (r1 + x) == x + k);
            assert((a * pow2(j)) * pow2((r1 + x) as nat) == a * pow2((x + k) as nat)) by {
                lemma_mul_is_associative(a as int, pow2(j) as int, pow2((r1 + x) as nat) as int);
            }
            assert(nearest_magnitude(b, x) == (a * pow2(j)) * pow2((r1 + x) as nat));
            assert(nearest_magnitude(a, x + k) == a * pow2((x + k) as nat));
        }
    }
}

/// What rounding a number below `2^127` gives is the magnitude of a finite
/// single-precision number, and no more than half a unit of the last place
/// away.
pub proof fn lemma_nearest_properties(a: nat)
    requires
        0 < a,
        bit_length(a) <= 276,
    ensures
        finite(pattern_of(nearest_magnitude(a, 0))),
        !negative(pattern_of(nearest_magnitude(a, 0))),
        magnitude(pattern_of(nearest_magnitude(a, 0))) == nearest_magnitude(a, 0),
        2 * (nearest_magnitude(a, 0) - a) <= pow2(dropped_digits(a, 0)),
        2 * (a - nearest_magnitude(a, 0)) <= pow2(dropped_digits(a, 0)),
        nearest_magnitude(a, 0) > 0,
{
    lemma2_to64();
    let r = dropped_digits(a, 0);
    let unit = pow2(r);
    lemma_pow2_pos(r);
    let q = round_half_even(a, unit);
    lemma_round_bound(a, r);
    lemma_round_positive(a, r);
    law_round_half_even_error(a, unit);
    lemma_bit_length_bounds(q);
    // q has at most 25 digits and is scaled by r <= bit_length(a) - 24 digits
    lemma_pattern_of_scaled(q, r);
    if bit_length(q) == 25 {
        // a carry: a itself was just below the next power of two
        lemma_bit_length_bounds(a);
        if bit_length(a) <= 24 {
            lemma_div_mod_of(a, 0, 1);
            assert(a * 1 + 0 == a);
            assert(q == a);
            lemma_pow2_strictly_increases(bit_length(a), 25);
        }
    }
    assert(bit_length(q) + r <= 277);
    lemma_magnitude_of_pattern(q, r);
    assert(q * unit > 0) by (nonlinear_arith)
        requires
            q > 0,
            unit > 0,
    ;
}

/// Nothing on the grid of a unit is nearer to a number than what rounding
/// to that unit gives.
proof fn lemma_round_is_nearest(a: nat, unit: nat, t: nat)
    requires
        unit > 0,
    ensures
        abs(round_half_even(a, unit) * unit - a) <= abs(t * unit - a),
{
    let q = a / unit;
    let rem = a % unit;
    vstd::arithmetic::div_mod::lemma_fundamental_div_mod(a as int, unit as int);
    vstd::arithmetic::div_mod::lemma_mod_bound(a as int, unit as int);
    assert((q + 1) * unit == unit * q + unit) by (nonlinear_arith);
    assert(q * unit == unit * q) by (nonlinear_arith);
    if t <= q {
        assert(t * unit <= q * unit) by (nonlinear_arith)
            requires
                t <= q,
                unit > 0,
        ;
    } else {
        assert(t * unit >= (q + 1) * unit) by (nonlinear_arith)
            requires
                t >= q + 1,
                unit > 0,
        ;
    }
}

/// Among the numbers that are whole at the scale `2^-k`, with the value of
/// each finite single-precision number among them, none is nearer to `a`
/// than the nearest single-precision number as `nearest_magnitude` gives it.
proof fn lemma_nearest_below(a: nat, k: nat, c: u32)
    requires
        finite(c),
    ensures
        abs(nearest_magnitude(a, -(k as int)) * pow2(k) - a) <= abs(magnitude(c) * pow2(k) - a),
{
    lemma2_to64();
    let x = -(k as int);
    let r = dropped_digits(a, x);
    let unit = pow2(r);
    lemma_pow2_pos(r);
    lemma_pow2_pos(k);
    let rounded = round_half_even(a, unit);
    let d = (r - k) as nat;
    lemma_pow2_adds(d, k);
    assert(nearest_magnitude(a, x) * pow2(k) == rounded * unit) by {
        lemma_mul_is_associative(rounded as int, pow2(d) as int, pow2(k) as int);
    }
    let v = magnitude(c);
    let big = v * pow2(k);
    lemma_magnitude_parts(c);
    let m = significand_of(c);
    let kc = scale_of(c);
    if kc + k >= r {
        // the number is on the grid of the unit
        let up = (kc + k - r) as nat;
        lemma_pow2_adds(kc, k);
        lemma_pow2_adds(up, r);
        assert(big == (m * pow2(up)) * unit) by (nonlinear_arith)
            requires
                big == (m * pow2(kc)) * pow2(k),
                pow2(kc) * pow2(k) == pow2(up) * unit,
        ;
        lemma_round_is_nearest(a, unit, m * pow2(up));
    } else {
        // the number lies below the numbers of as many digits as `a` has
        assert(r == bit_length(a) - 24);
        assert(a > 0);
        lemma_bit_length_bounds(a);
        let low = pow2(23) * unit;
        lemma_pow2_adds(23, r);
        assert(low <= a);
        lemma_pow2_adds(kc, k);
        let fine = pow2(kc + k);
        lemma_pow2_pos(kc + k);
        if kc + k < r - 1 {
            lemma_pow2_strictly_increases(kc + k, (r - 1) as nat);
        }
        lemma_pow2_unfold(r);
        assert(big < low) by (nonlinear_arith)
            requires
                big == (m * pow2(kc)) * pow2(k),
                pow2(kc) * pow2(k) == fine,
                m < 0x100_0000,
                2 * fine <= unit,
                low == 0x80_0000 * unit,
                fine > 0,
        ;
        lemma_round_is_nearest(a, unit, 0x80_0000);
        assert(0x80_0000 * unit == low);
    }
}

/// No finite single-precision number is nearer to `a * 2^(x - 149)` than
/// the one whose magnitude `nearest_magnitude` gives. Both distances are
/// measured at a scale at which the number and every single-precision
/// number are whole.
pub proof fn law_nearest(a: nat, x: int, c: u32)
    requires
        finite(c),
    ensures
        x >= 0 ==> abs(nearest_magnitude(a, x) - a * pow2(x as nat)) <= abs(
            magnitude(c) - a * pow2(x as nat),
        ),
        x < 0 ==> abs(nearest_magnitude(a, x) * pow2((-x) as nat) - a) <= abs(
            magnitude(c) * pow2((-x) as nat) - a,
        ),
{
    lemma2_to64();
    if x >= 0 {
        lemma_nearest_scaled(a, x as nat, 0);
        lemma_nearest_below(a * pow2(x as nat), 0, c);
        assert(nearest_magnitude(a, x) * 1 == nearest_magnitude(a, x));
        assert(magnitude(c) * 1 == magnitude(c));
    } else {
        lemma_nearest_below(a, (-x) as nat, c);
    }
}

/// The pattern of the single-precision number nearest to
/// `a * 2^(x - 149)`, negated where `negative_sign` holds.
pub fn round_pack(negative_sign: bool, a: u64, x: i64) -> (bits: u32)
    ensures
        bits == nearest_bits(negative_sign, a as nat, x as int),
{
    let sign: u32 = if negative_sign {
        0x8000_0000
    } else {
        0
    };
    proof {
        lemma2_to64();
        lemma2_to64_rest();
    }
    let p = bit_len(a);
    let by_width: i64 = p as i64 - 24;
    if a == 0 || x < -1000 {
        proof {
            let r = dropped_digits(a as nat, x as int);
            lemma_pow2_pos(r);
            if a == 0 {
                vstd::arithmetic::div_mod::lemma_small_mod(0, pow2(r));
                vstd::arithmetic::div_mod::lemma_basic_div(0, pow2(r) as int);
            } else {
                assert(r >= 1000);
                lemma_pow2_strictly_increases(65, r);
                lemma_pow2_unfold(65);
                lemma_round_to_zero(a as nat, r);
            }
            assert(round_half_even(a as nat, pow2(r)) == 0);
            assert(nearest_magnitude(a as nat, x as int) == 0) by (nonlinear_arith)
                requires
                    nearest_magnitude(a as nat, x as int) == 0 * pow2((r + x) as nat),
            ;
        }
        return sign;
    }
    if x > 1000 {
        proof {
            let r = dropped_digits(a as nat, x as int);
            let q = round_half_even(a as nat, pow2(r));
            lemma_bit_length_bounds(a as nat);
            lemma_round_positive(a as nat, r);
            lemma_round_bound(a as nat, r);
            lemma_pattern_of_scaled(q, (r + x) as nat);
            lemma_bit_length_bounds(q);
        }
        return sign + 0x7f80_0000;
    }
    let r: i64 = if by_width >= -x && by_width >= 0 {
        by_width
    } else if -x >= 0 {
        -x
    } else {
        0
    };
    assert(r == dropped_digits(a as nat, x as int));
    if r >= 65 {
        proof {
            if r - 1 > 64 {
                lemma_pow2_strictly_increases(64, (r - 1) as nat);
            }
            lemma_pow2_unfold(r as nat);
            lemma_round_to_zero(a as nat, r as nat);
            assert(nearest_magnitude(a as nat, x as int) == 0) by (nonlinear_arith)
                requires
                    nearest_magnitude(a as nat, x as int) == 0 * pow2((r + x) as nat),
            ;
        }
        return sign;
    }
    let unit: u128 = power_of_two(r as u32);
    proof {
        if r < 64 {
            lemma_pow2_strictly_increases(r as nat, 64);
        }
        lemma_round_bound(a as nat, r as nat);
    }
    let q: u128 = a as u128 / unit;
    let rem: u128 = a as u128 % unit;
    let up: bool = 2 * rem > unit || (2 * rem == unit && q % 2 == 1);
    let rounded: u64 = if up {
        (q + 1) as u64
    } else {
        q as u64
    };
    assert(rounded == round_half_even(a as nat, pow2(r as nat)));
    let k: i64 = r + x;
    if rounded == 0 {
        proof {
            assert(nearest_magnitude(a as nat, x as int) == 0) by (nonlinear_arith)
                requires
                    nearest_magnitude(a as nat, x as int) == 0 * pow2(k as nat),
            ;
        }
        return sign;
    }
    let p2 = bit_len(rounded);
    let top: i64 = p2 as i64 + k;
    proof {
        lemma_pattern_of_scaled(rounded as nat, k as nat);
        assert(nearest_magnitude(a as nat, x as int) == rounded * pow2(k as nat));
    }
    if top <= 24 {
        let scale: u128 = power_of_two(k as u32);
        let m: u128 = rounded as u128 * scale;
        return sign + m as u32;
    }
    if top > 277 {
        return sign + 0x7f80_0000;
    }
    let mant: u32 = if p2 <= 24 {
        let scale: u128 = power_of_two(24 - p2);
        (rounded as u128 * scale) as u32
    } else {
        0x80_0000
    };
    let e: u32 = (top - 23) as u32;
    let pattern: u32 = e * 0x80_0000 + (mant - 0x80_0000);
    proof {
        let mm = rounded as nat * pow2(k as nat);
        assert(bit_length(mm) == top);
        assert(mm >= 0x100_0000);
        if p2 <= 24 {
            assert(mm / pow2((top - 24) as nat) == mant);
        } else {
            assert(p2 == 25);
            assert(top - 24 == k + 1);
            assert(mm / pow2((top - 24) as nat) == mant);
        }
        assert(pattern == compose(false, e as int, mant - 0x80_0000));
        assert(pattern_of(mm) == pattern);
    }
    sign + pattern
}

} // verus!
