//! Packet drop rates as IEEE 754 single-precision bit patterns.
//!
//! A drop rate is a probability: a real number between 0 and 1. It arrives as
//! a single-precision floating-point number, and is kept here as the 32 bits
//! of that number. This file says which real number a bit pattern stands for,
//! in integers only, and decides whether it is a probability.

use vstd::arithmetic::power2::*;
use vstd::prelude::*;

verus! {

/// The sign bit: set for negative numbers and for negative zero.
pub open spec fn sign(bits: u32) -> bool {
    bits >= 0x8000_0000
}

/// The eight bits of the biased exponent.
pub open spec fn exponent(bits: u32) -> nat {
    ((bits / 0x80_0000) % 0x100) as nat
}

/// The twenty-three bits of the fraction.
pub open spec fn fraction(bits: u32) -> nat {
    (bits % 0x80_0000) as nat
}

/// Not a number: the exponent is all ones and the fraction is not zero.
pub open spec fn is_nan(bits: u32) -> bool {
    exponent(bits) == 255 && fraction(bits) != 0
}

/// Plus or minus infinity: the exponent is all ones and the fraction is zero.
pub open spec fn is_infinite(bits: u32) -> bool {
    exponent(bits) == 255 && fraction(bits) == 0
}

/// The absolute value of a finite number, counted in units of 2^-149 (the
/// smallest positive single-precision number), which makes it a natural
/// number: the fraction alone for a subnormal, and the fraction with its
/// leading one, shifted by the exponent, for a normal number.
pub open spec fn magnitude(bits: u32) -> nat {
    if exponent(bits) == 0 {
        fraction(bits)
    } else {
        (0x80_0000 + fraction(bits)) * pow2((exponent(bits) - 1) as nat)
    }
}

/// The number 1 in units of 2^-149.
pub open spec fn one() -> nat {
    pow2(149)
}

/// The number that `bits` stands for lies between 0 and 1, both included.
/// Neither infinity nor anything that is not a number does; negative zero is
/// zero.
pub open spec fn is_probability(bits: u32) -> bool {
    &&& !is_nan(bits)
    &&& !is_infinite(bits)
    &&& magnitude(bits) <= one()
    &&& (sign(bits) ==> magnitude(bits) == 0)
}

/// A normal number below exponent 127 is less than 1, one at or above it is
/// at least 1, and exactly 1 only with exponent 127 and fraction 0.
proof fn lemma_magnitude_of_normal(e: nat, f: nat)
    requires
        1 <= e <= 254,
        f < 0x80_0000,
    ensures
        e < 127 ==> (0x80_0000 + f) * pow2((e - 1) as nat) < pow2(149),
        e == 127 ==> (0x80_0000 + f) * pow2(126) == pow2(149) + f * pow2(126),
        e > 127 ==> (0x80_0000 + f) * pow2((e - 1) as nat) > pow2(149),
        pow2(126) > 0,
        (0x80_0000 + f) * pow2((e - 1) as nat) > 0,
{
    lemma2_to64();
    let p = pow2((e - 1) as nat);
    lemma_pow2_pos((e - 1) as nat);
    lemma_pow2_pos(126);
    lemma_pow2_adds(23, 126);
    lemma_pow2_adds(24, 125);
    assert(pow2(23) == 0x80_0000);
    assert(pow2(24) == 0x100_0000);
    assert((0x80_0000 + f) * p > 0) by (nonlinear_arith)
        requires
            p > 0,
    ;
    if e < 127 {
        if e - 1 < 125 {
            lemma_pow2_strictly_increases((e - 1) as nat, 125);
        }
        assert(p <= pow2(125));
        assert((0x80_0000 + f) * p < 0x100_0000 * pow2(125)) by (nonlinear_arith)
            requires
                0 < p <= pow2(125),
                f < 0x80_0000,
        ;
    } else if e == 127 {
        assert((0x80_0000 + f) * pow2(126) == 0x80_0000 * pow2(126) + f * pow2(126))
            by (nonlinear_arith);
    } else {
        lemma_pow2_strictly_increases(126, (e - 1) as nat);
        assert((0x80_0000 + f) * p > 0x80_0000 * pow2(126)) by (nonlinear_arith)
            requires
                p > pow2(126),
                pow2(126) > 0,
        ;
    }
}

/// Whether a drop rate, given by its bit pattern, is a probability.
///
/// The patterns that are: those from `0x0000_0000` (zero) up to
/// `0x3F80_0000` (one), and `0x8000_0000` (negative zero).
pub fn pdr_in_range(bits: u32) -> (r: bool)
    ensures
        r == is_probability(bits),
{
    proof {
        let e = exponent(bits);
        let f = fraction(bits);
        lemma2_to64();
        lemma_pow2_pos(149);
        if 1 <= e <= 254 {
            lemma_magnitude_of_normal(e, f);
            if e == 127 && f > 0 {
                assert(f * pow2(126) > 0) by (nonlinear_arith)
                    requires
                        f > 0,
                        pow2(126) > 0,
                ;
            }
        }
        if e == 0 {
            lemma_pow2_strictly_increases(23, 149);
        }
    }
    bits <= 0x3F80_0000 || bits == 0x8000_0000
}

} // verus!
