//! Fixed-point relevance scores.
//!
//! Scores travel through the query path as integers counted in millionths of
//! a unit, so the whole normalization and fusion pipeline is exact integer
//! arithmetic. Raw adapter scores and distances arrive as IEEE-754 single
//! bit patterns and are converted once, by `micro_from_bits`.

use vstd::prelude::*;
use vstd::arithmetic::power2::*;
use vstd::arithmetic::div_mod::*;
use vstd::arithmetic::mul::*;

verus! {

/// One unit of score, in millionths: a normalized score of `SCORE_ONE` means 1.0.
pub const SCORE_ONE: u64 = 1_000_000;

/// Largest magnitude kept when a raw score or distance is converted from an
/// IEEE-754 bit pattern; larger values saturate here.
pub const MICRO_SAT: u64 = 1_000_000_000_000_000;

/// Weight of the text modality in the fused score, in millionths.
pub const TEXT_WEIGHT: u64 = 550_000;

/// Weight of the vector modality in the fused score, in millionths.
pub const VEC_WEIGHT: u64 = 450_000;

pub open spec fn f32_sign(bits: u32) -> u32 {
    bits >> 31u32
}

pub open spec fn f32_exp(bits: u32) -> u32 {
    (bits >> 23u32) & 0xffu32
}

pub open spec fn f32_frac(bits: u32) -> u32 {
    bits & 0x7fffffu32
}

/// A finite IEEE-754 single: the exponent field is not all ones.
pub open spec fn f32_finite(bits: u32) -> bool {
    f32_exp(bits) != 0xffu32
}

/// Significand including the implicit leading bit of normal numbers.
pub open spec fn f32_mant(bits: u32) -> nat {
    if f32_exp(bits) == 0 {
        f32_frac(bits) as nat
    } else {
        (0x800000u32 + f32_frac(bits)) as nat
    }
}

/// Effective binary exponent field: subnormals share the exponent of the
/// smallest normal. The represented value is `f32_mant * 2^(f32_scale - 150)`.
pub open spec fn f32_scale(bits: u32) -> nat {
    if f32_exp(bits) == 0 {
        1nat
    } else {
        f32_exp(bits) as nat
    }
}

/// The value of a nonnegative finite IEEE-754 single, scaled by one million
/// and rounded down, saturated at `MICRO_SAT`. Negative values, NaNs and
/// infinities are taken as zero.
pub open spec fn micro_of_bits(bits: u32) -> nat {
    if f32_sign(bits) == 1 || !f32_finite(bits) {
        0
    } else {
        let v = f32_mant(bits) * 1_000_000 * pow2(f32_scale(bits)) / pow2(150);
        if v > MICRO_SAT as nat {
            MICRO_SAT as nat
        } else {
            v
        }
    }
}

proof fn lemma_micro_shift(base: nat, sc: nat)
    requires
        sc < 150,
    ensures
        base * pow2(sc) / pow2(150) == base / pow2((150 - sc) as nat),
{
    let sh = (150 - sc) as nat;
    lemma_pow2_adds(sc, sh);
    lemma_pow2_pos(sc);
    lemma_pow2_pos(sh);
    assert(base * pow2(sc) == pow2(sc) * base) by (nonlinear_arith);
    lemma_div_denominator((base * pow2(sc)) as int, pow2(sc) as int, pow2(sh) as int);
    lemma_div_multiples_vanish(base as int, pow2(sc) as int);
}

proof fn lemma_micro_mul(base: nat, sc: nat)
    requires
        sc >= 150,
    ensures
        base * pow2(sc) / pow2(150) == base * pow2((sc - 150) as nat),
{
    let d = (sc - 150) as nat;
    lemma_pow2_adds(d, 150);
    lemma_pow2_pos(d);
    lemma_pow2_pos(150);
    assert(base * (pow2(d) * pow2(150)) == pow2(150) * (base * pow2(d))) by (nonlinear_arith);
    lemma_div_multiples_vanish((base * pow2(d)) as int, pow2(150) as int);
}

/// Convert a raw IEEE-754 single bit pattern into millionths of its value.
pub fn micro_from_bits(bits: u32) -> (r: u64)
    ensures
        r == micro_of_bits(bits),
        r <= MICRO_SAT,
{
    let sign: u32 = bits >> 31;
    let e: u32 = (bits >> 23) & 0xff;
    let frac: u32 = bits & 0x7fffff;
    if sign == 1 || e == 0xff {
        return 0;
    }
    assert(frac <= 0x7fffffu32) by (bit_vector)
        requires frac == bits & 0x7fffffu32;
    let m: u64 = if e == 0 { frac as u64 } else { (0x800000 + frac) as u64 };
    let sc: u64 = if e == 0 { 1 } else { e as u64 };
    let base: u64 = m * 1_000_000;
    assert(base == f32_mant(bits) * 1_000_000);
    assert(sc == f32_scale(bits));
    if sc >= 157 {
        proof {
            lemma_micro_mul(base as nat, sc as nat);
            let d = (sc - 157) as nat;
            lemma_pow2_adds(7, d);
            lemma2_to64();
            lemma_pow2_pos(d);
            assert(pow2(7) * pow2(d) >= 128) by (nonlinear_arith)
                requires pow2(7) == 128 && pow2(d) >= 1;
            assert(base * pow2((sc - 150) as nat) >= base * 128) by (nonlinear_arith)
                requires pow2((sc - 150) as nat) >= 128 && base >= 0;
            assert(base >= 0x800000u64 * 1_000_000);
        }
        return MICRO_SAT;
    }
    if sc >= 150 {
        let sh: u64 = sc - 150;
        let mul: u64 = 1u64 << sh;
        proof {
            lemma2_to64();
            if sh < 6 {
                lemma_pow2_strictly_increases(sh as nat, 6);
            }
            vstd::bits::lemma_u64_shl_is_mul(1u64, sh);
            lemma_micro_mul(base as nat, sc as nat);
            assert(base * mul <= base * 64) by (nonlinear_arith)
                requires mul <= 64 && base >= 0;
        }
        let val: u64 = base * mul;
        if val > MICRO_SAT {
            return MICRO_SAT;
        }
        return val;
    }
    let sh: u64 = 150 - sc;
    proof {
        lemma_micro_shift(base as nat, sc as nat);
    }
    if sh >= 64 {
        proof {
            lemma2_to64();
            if sh > 64 {
                lemma_pow2_strictly_increases(64, sh as nat);
            }
            lemma_basic_div(base as int, pow2(sh as nat) as int);
        }
        return 0;
    }
    let div: u64 = 1u64 << sh;
    proof {
        vstd::bits::lemma_u64_pow2_no_overflow(sh as nat);
        vstd::bits::lemma_u64_shl_is_mul(1u64, sh);
        lemma_pow2_pos(sh as nat);
        lemma_div_is_ordered_by_denominator(base as int, 1, pow2(sh as nat) as int);
    }
    let val: u64 = base / div;
    val
}

/// The similarity transform `1 / (1 + d)` in millionths: distances map into
/// `(0, SCORE_ONE]`, monotonically decreasing.
pub open spec fn sim_of_micro(d: nat) -> nat {
    1_000_000_000_000nat / (1_000_000 + d)
}

/// Apply the similarity transform to a distance given in millionths.
pub fn sim_from_dist(d: u64) -> (r: u64)
    requires
        d <= MICRO_SAT,
    ensures
        r == sim_of_micro(d as nat),
        r <= SCORE_ONE,
{
    let denom: u64 = 1_000_000 + d;
    let r: u64 = 1_000_000_000_000 / denom;
    proof {
        lemma_div_is_ordered_by_denominator(1_000_000_000_000int, 1_000_000int, denom as int);
    }
    r
}

} // verus!
