//! The single-precision format of IEEE 754, bit by bit. A sample of audio is
//! kept as the 32-bit pattern of such a number.

use vstd::prelude::*;
use vstd::arithmetic::power2::{lemma2_to64, pow2};
use crate::digits::abs;

verus! {

/// The exponent field of a single-precision bit pattern: bits 23 to 30.
pub open spec fn exponent_field(bits: u32) -> int {
    (bits as int / 0x80_0000) % 256
}

/// The fraction field of a single-precision bit pattern: bits 0 to 22.
pub open spec fn fraction_field(bits: u32) -> int {
    bits as int % 0x80_0000
}

/// Whether the sign bit of a single-precision bit pattern is set.
pub open spec fn negative(bits: u32) -> bool {
    bits >= 0x8000_0000
}

/// Whether a bit pattern is that of a finite single-precision number: one
/// whose exponent field is not all ones.
pub open spec fn finite(bits: u32) -> bool {
    exponent_field(bits) != 255
}

/// Whether a bit pattern is that of a NaN: its exponent field is all ones
/// and its fraction is not zero.
pub open spec fn nan(bits: u32) -> bool {
    exponent_field(bits) == 255 && fraction_field(bits) != 0
}

/// A bit pattern made safe: itself where it is finite, else that of 0.0,
/// which is 0.
pub open spec fn sanitized(bits: u32) -> u32 {
    if finite(bits) {
        bits
    } else {
        0
    }
}

/// Whether a bit pattern is that of a finite single-precision number.
pub fn is_finite(bits: u32) -> (b: bool)
    ensures
        b == finite(bits),
{
    (bits / 0x80_0000) % 256 != 255
}

/// The bit pattern with the given sign, exponent field and fraction field.
pub open spec fn compose(negative: bool, exponent: int, fraction: int) -> int {
    (if negative {
        0x8000_0000int
    } else {
        0int
    }) + exponent * 0x80_0000 + fraction
}

/// The absolute value of the finite number with the pattern `bits`, in units
/// of `2^-149`, the smallest positive single-precision number.
pub open spec fn magnitude(bits: u32) -> nat {
    if exponent_field(bits) == 0 {
        fraction_field(bits) as nat
    } else {
        ((0x80_0000 + fraction_field(bits)) * pow2((exponent_field(bits) - 1) as nat)) as nat
    }
}

/// The number with the pattern `bits`, in units of `2^-149`.
pub open spec fn signed_value(bits: u32) -> int {
    if negative(bits) {
        -(magnitude(bits) as int)
    } else {
        magnitude(bits) as int
    }
}

/// The significand of a pattern: its fraction, with the leading one that a
/// normal number has.
pub open spec fn significand_of(bits: u32) -> nat {
    if exponent_field(bits) == 0 {
        fraction_field(bits) as nat
    } else {
        (0x80_0000 + fraction_field(bits)) as nat
    }
}

/// The power of two that scales the significand of a pattern to its
/// magnitude.
pub open spec fn scale_of(bits: u32) -> nat {
    if exponent_field(bits) == 0 {
        0
    } else {
        (exponent_field(bits) - 1) as nat
    }
}

/// Whether the number with the pattern `bits` is exactly
/// `numerator / 2^shift`, with zero as positive zero.
pub open spec fn denotes(bits: u32, numerator: int, shift: int) -> bool {
    &&& shift >= -1
    &&& finite(bits)
    &&& negative(bits) == (numerator < 0)
    &&& magnitude(bits) * pow2((shift + 1) as nat) == abs(numerator) * pow2(150)
}

/// A pattern is put together from its own fields.
pub proof fn lemma_fields_compose(bits: u32)
    ensures
        0 <= exponent_field(bits) <= 255,
        0 <= fraction_field(bits) < 0x80_0000,
        bits == compose(negative(bits), exponent_field(bits), fraction_field(bits)),
{
    let q = bits as int / 0x80_0000;
    assert(bits == q * 0x80_0000 + fraction_field(bits));
    assert(0 <= q < 512);
    assert(q == (q / 256) * 256 + q % 256);
}

/// The fields of a pattern that is put together from fields in range are
/// those fields.
pub proof fn lemma_compose_fields(negative_sign: bool, e: int, f: int)
    requires
        0 <= e <= 255,
        0 <= f < 0x80_0000,
    ensures
        0 <= compose(negative_sign, e, f) < 0x1_0000_0000,
        exponent_field(compose(negative_sign, e, f) as u32) == e,
        fraction_field(compose(negative_sign, e, f) as u32) == f,
        negative(compose(negative_sign, e, f) as u32) == negative_sign,
{
    let c = compose(negative_sign, e, f);
    let s: int = if negative_sign {
        256
    } else {
        0
    };
    assert(c == (s + e) * 0x80_0000 + f);
    assert(c / 0x80_0000 == s + e && c % 0x80_0000 == f) by {
        vstd::arithmetic::div_mod::lemma_fundamental_div_mod_converse(c, 0x80_0000, s + e, f);
    }
}

/// The magnitude of a pattern is its significand at its scale.
pub proof fn lemma_magnitude_parts(bits: u32)
    ensures
        magnitude(bits) == significand_of(bits) * pow2(scale_of(bits)),
        significand_of(bits) < 0x100_0000,
        scale_of(bits) <= 254,
        exponent_field(bits) != 0 ==> significand_of(bits) >= 0x80_0000,
{
    lemma2_to64();
    lemma_fields_compose(bits);
    if exponent_field(bits) == 0 {
        assert(fraction_field(bits) * 1 == fraction_field(bits));
    }
}

/// The parts of a pattern: whether it is negative, its significand, and the
/// power of two that scales the significand to the magnitude.
pub fn parts(bits: u32) -> (r: (bool, u64, i64))
    ensures
        r.0 == negative(bits),
        r.1 == significand_of(bits),
        r.2 == scale_of(bits),
        r.1 < 0x100_0000,
        0 <= r.2 <= 254,
{
    proof {
        lemma_magnitude_parts(bits);
    }
    let e = (bits / 0x80_0000) % 256;
    let f = bits % 0x80_0000;
    if e == 0 {
        (bits >= 0x8000_0000, f as u64, 0)
    } else {
        (bits >= 0x8000_0000, (0x80_0000 + f) as u64, e as i64 - 1)
    }
}

} // verus!
