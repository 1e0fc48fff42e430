//! Similarity scores.
//!
//! A score is stored on disk as an IEEE-754 single. It is carried here as the
//! 32 bits of that number, and compared through a rank: an integer that orders
//! the bit patterns as the numbers they stand for are ordered. Both zeros have
//! rank 0. A pattern that is not a number ranks below every number, so it
//! never passes a positive threshold and sorts behind every real score.
//!
//! Where a search adds up distances, a score counts as a fraction of
//! 2^64, rounded down, and the weight of an edge is what the score lacks to
//! one. A score below zero, or none, counts as zero; a score above one counts
//! as one.

use vstd::arithmetic::div_mod::lemma_basic_div;
use vstd::arithmetic::power2::lemma2_to64;
use vstd::arithmetic::power2::lemma2_to64_rest;
use vstd::arithmetic::power2::lemma_pow2_pos;
use vstd::arithmetic::power2::lemma_pow2_strictly_increases;
use vstd::arithmetic::power2::pow2;
use vstd::bits::lemma_u64_shl_is_mul;
use vstd::bits::lemma_u64_shr_is_div;
use vstd::prelude::*;

verus! {

/// The bits of `0.0`.
pub const SIMILARITY_ZERO: u32 = 0;

/// The bits of `1.0`.
pub const SIMILARITY_ONE: u32 = 0x3f80_0000;

/// The bits of a score with the sign bit cleared.
pub open spec fn sim_magnitude(bits: u32) -> int {
    if bits >= 0x8000_0000 {
        bits - 0x8000_0000
    } else {
        bits as int
    }
}

/// Whether the bits stand for no number.
pub open spec fn sim_is_nan(bits: u32) -> bool {
    sim_magnitude(bits) > 0x7f80_0000
}

/// The rank of a score: for numbers `a` and `b`, `a < b` exactly when
/// `sim_rank(a) < sim_rank(b)`.
pub open spec fn sim_rank(bits: u32) -> int {
    if sim_is_nan(bits) {
        -0x8000_0000
    } else if bits >= 0x8000_0000 {
        -sim_magnitude(bits)
    } else {
        bits as int
    }
}

/// Computes the rank of a score.
pub fn similarity_rank(bits: u32) -> (r: i64)
    ensures
        r == sim_rank(bits),
{
    let negative = bits >= 0x8000_0000;
    let magnitude: i64 = if negative {
        (bits - 0x8000_0000) as i64
    } else {
        bits as i64
    };
    if magnitude > 0x7f80_0000 {
        -0x8000_0000
    } else if negative {
        -magnitude
    } else {
        magnitude
    }
}

/// Whether score `a` is at least score `b`.
pub fn similarity_at_least(a: u32, b: u32) -> (r: bool)
    ensures
        r == (sim_rank(a) >= sim_rank(b)),
{
    similarity_rank(a) >= similarity_rank(b)
}

/// Whether score `a` is strictly above score `b`.
pub fn similarity_above(a: u32, b: u32) -> (r: bool)
    ensures
        r == (sim_rank(a) > sim_rank(b)),
{
    similarity_rank(a) > similarity_rank(b)
}

/// The higher of two scores; the first where they rank alike.
pub fn similarity_max(a: u32, b: u32) -> (r: u32)
    ensures
        r == sim_max(a, b),
{
    if similarity_above(b, a) {
        b
    } else {
        a
    }
}

/// The higher of two scores; the first where they rank alike.
pub open spec fn sim_max(a: u32, b: u32) -> u32 {
    if sim_rank(b) > sim_rank(a) {
        b
    } else {
        a
    }
}


/// The distance of an edge of similarity zero: one, in units of 2^-64.
pub const UNIT_COST: u128 = 0x1_0000_0000_0000_0000;

/// A score in units of 2^-64, rounded down and kept between zero and one.
pub open spec fn sim_fixed(bits: u32) -> int {
    if sim_rank(bits) <= 0 {
        0
    } else if bits >= SIMILARITY_ONE {
        0x1_0000_0000_0000_0000
    } else {
        let exponent = bits as int / 0x80_0000;
        let mantissa = 0x80_0000 + bits as int % 0x80_0000;
        if exponent == 0 {
            0
        } else if exponent >= 86 {
            mantissa * pow2((exponent - 86) as nat)
        } else {
            mantissa / pow2((86 - exponent) as nat) as int
        }
    }
}

/// The distance that an edge of the given similarity adds to a path: one
/// minus the score, in units of 2^-64.
pub open spec fn edge_weight(bits: u32) -> int {
    0x1_0000_0000_0000_0000 - sim_fixed(bits)
}

/// Computes a score in units of 2^-64.
pub fn similarity_fixed(bits: u32) -> (r: u128)
    ensures
        r == sim_fixed(bits),
        r <= UNIT_COST,
{
    if similarity_rank(bits) <= 0 {
        return 0;
    }
    if bits >= SIMILARITY_ONE {
        return UNIT_COST;
    }
    let exponent = bits / 0x80_0000;
    let mantissa: u64 = 0x80_0000 + (bits % 0x80_0000) as u64;
    if exponent == 0 {
        0
    } else if exponent >= 86 {
        let shift: u64 = (exponent - 86) as u64;
        proof {
            lemma2_to64_rest();
            lemma_pow2_pos(shift as nat);
            if shift < 40 {
                lemma_pow2_strictly_increases(shift as nat, 40);
            }
            assert(pow2(shift as nat) <= 0x100_0000_0000);
            assert(mantissa * pow2(shift as nat) <= 0xff_ffff * 0x100_0000_0000) by (nonlinear_arith)
                requires
                    mantissa <= 0xff_ffff,
                    0 < pow2(shift as nat) <= 0x100_0000_0000,
            ;
            lemma_u64_shl_is_mul(mantissa, shift);
        }
        (mantissa << shift) as u128
    } else {
        let shift: u64 = (86 - exponent) as u64;
        if shift >= 24 {
            proof {
                lemma2_to64();
                if shift > 24 {
                    lemma_pow2_strictly_increases(24, shift as nat);
                }
                lemma_basic_div(mantissa as int, pow2(shift as nat) as int);
            }
            0
        } else {
            proof {
                lemma_u64_shr_is_div(mantissa, shift);
            }
            (mantissa >> shift) as u128
        }
    }
}

/// Computes the distance that an edge of the given similarity adds.
pub fn edge_cost(bits: u32) -> (r: u128)
    ensures
        r == edge_weight(bits),
        r <= UNIT_COST,
{
    UNIT_COST - similarity_fixed(bits)
}

/// The sum of two distances, or the largest distance where the sum does not
/// fit.
pub open spec fn cost_sum(a: u128, b: u128) -> u128 {
    if a + b > u128::MAX {
        u128::MAX
    } else {
        (a + b) as u128
    }
}

/// Adds two distances.
pub fn add_cost(a: u128, b: u128) -> (r: u128)
    ensures
        r == cost_sum(a, b),
{
    if a > u128::MAX - b {
        u128::MAX
    } else {
        a + b
    }
}

} // verus!
