//! The seeded generator that a run draws from.

use vstd::prelude::*;
use rand::rngs::StdRng;
use rand::{Rng, SeedableRng};
use vstd::arithmetic::power2::{
    lemma2_to64, lemma2_to64_rest, lemma_pow2_adds, lemma_pow2_strictly_increases,
    lemma_pow2_unfold, pow2,
};
use crate::number::{lemma_scaled_of, Real};

verus! {

/// The generator of the `rand` crate; what it holds is not looked into.
#[verifier::external_type_specification]
#[verifier::external_body]
pub struct ExStdRng(StdRng);

/// `StdRng::seed_from_u64`: a generator made from a 64-bit seed. Nothing is
/// claimed of it.
#[verifier::external_body]
pub fn seeded_rng(seed: u64) -> StdRng {
    StdRng::seed_from_u64(seed)
}

/// `Rng::gen_range` on `0..upper`, drawn as a `usize`: the draw lies in the
/// range. The range must not be empty.
#[verifier::external_body]
pub fn gen_range_usize(rng: &mut StdRng, upper: usize) -> (drawn: usize)
    requires
        upper > 0,
    ensures
        drawn < upper,
{
    rng.gen_range(0..upper)
}

/// `Rng::gen_range` on `low..=high`, drawn as a `usize`: the draw lies in
/// the range. The range must not be empty.
#[verifier::external_body]
pub(crate) fn gen_range_inclusive(rng: &mut StdRng, low: usize, high: usize) -> (drawn: usize)
    requires
        low <= high,
    ensures
        low <= drawn <= high,
{
    rng.gen_range(low..=high)
}

/// `Rng::gen_range` on `0..upper`, drawn as an `i32`: the draw lies in the
/// range. The range must not be empty.
#[verifier::external_body]
pub(crate) fn gen_range_i32(rng: &mut StdRng, upper: i32) -> (drawn: i32)
    requires
        upper > 0,
    ensures
        0 <= drawn < upper,
{
    rng.gen_range(0..upper)
}

/// `Rng::gen` for a `u64`: the generator's next 64 bits. Nothing is claimed
/// of them.
#[verifier::external_body]
pub(crate) fn gen_word(rng: &mut StdRng) -> u64 {
    rng.gen()
}

/// The seed of a run's generator: the configured seed, read as unsigned.
pub open spec fn seed_word(seed: i64) -> u64 {
    if seed >= 0 {
        seed as u64
    } else {
        (seed + 0x1_0000_0000_0000_0000) as u64
    }
}

pub fn seed_as_word(seed: i64) -> (word: u64)
    ensures
        word == seed_word(seed),
{
    if seed >= 0 {
        seed as u64
    } else {
        let offset: i64 = seed - i64::MIN;
        offset as u64 + 0x8000_0000_0000_0000
    }
}

/// The least numerator whose fraction is at least one half: 2^52.
pub const HALF_NUMERATOR: u64 = 0x10_0000_0000_0000;

/// The encoding of 0.5.
pub const HALF: u64 = 0x3FE0_0000_0000_0000;

/// The encoding of `numerator / 2^53`, for a numerator below 2^53. From 2^52
/// on the fraction lies in `[0.5, 1)` and the numerator's lower bits are the
/// encoding's; a smaller numerator gives half the fraction of its double,
/// which is encoded one exponent lower.
pub open spec fn unit_fraction(numerator: int) -> int
    decreases 2 * HALF_NUMERATOR - numerator,
{
    if numerator <= 0 {
        0
    } else if numerator >= HALF_NUMERATOR {
        HALF + (numerator - HALF_NUMERATOR)
    } else {
        unit_fraction(2 * numerator) - HALF_NUMERATOR
    }
}

/// The number in `[0, 1)` that the `rand` crate makes of 64 drawn bits, as
/// it documents its uniform numbers: the upper 53 of the bits, over 2^53.
pub open spec fn unit_real(word: u64) -> Real {
    Real { bits: unit_fraction(word as int / 0x800) as u64 }
}

/// How a fraction is encoded: the numerator, doubled `d` times, fills the
/// 53 bits of a number's leading 1 and fraction under the exponent of one
/// half lowered by `d`.
proof fn lemma_unit_fraction_shape(numerator: int) -> (d: nat)
    requires
        0 < numerator < 2 * HALF_NUMERATOR,
    ensures
        d <= 52,
        HALF_NUMERATOR <= numerator * pow2(d) < 2 * HALF_NUMERATOR,
        unit_fraction(numerator) == HALF - d * HALF_NUMERATOR + (numerator * pow2(d)
            - HALF_NUMERATOR),
    decreases 2 * HALF_NUMERATOR - numerator,
{
    lemma2_to64();
    lemma2_to64_rest();
    if numerator >= HALF_NUMERATOR {
        0
    } else {
        let less = lemma_unit_fraction_shape(2 * numerator);
        let d = less + 1;
        lemma_pow2_unfold(d);
        assert(numerator * pow2(d) == (2 * numerator) * pow2(less)) by (nonlinear_arith)
            requires
                pow2(d) == 2 * pow2(less),
        ;
        if d > 52 {
            if d > 53 {
                lemma_pow2_strictly_increases(53, d);
            }
            assert(numerator * pow2(d) >= pow2(d)) by (nonlinear_arith)
                requires
                    numerator >= 1,
            ;
        }
        d
    }
}

/// The encoding of a fraction denotes the fraction: `numerator / 2^53`,
/// which is `numerator * 2^1021` in units of 2^-1074, and lies below 1.
pub proof fn lemma_unit_fraction_denotes(numerator: int)
    requires
        0 <= numerator < 2 * HALF_NUMERATOR,
    ensures
        0 <= unit_fraction(numerator) < crate::number::ONE,
        (Real { bits: unit_fraction(numerator) as u64 }).scaled() == numerator * pow2(1021),
{
    lemma2_to64();
    lemma2_to64_rest();
    if numerator > 0 {
        let d = lemma_unit_fraction_shape(numerator);
        let filled = numerator * pow2(d);
        let unit = Real { bits: unit_fraction(numerator) as u64 };
        lemma_scaled_of(unit, -1 - d, filled - HALF_NUMERATOR);
        lemma_pow2_adds(d, (1021 - d) as nat);
        let low = pow2((1021 - d) as nat) as int;
        let shift = pow2(d) as int;
        assert((HALF_NUMERATOR + (filled - HALF_NUMERATOR)) * low == numerator * (shift * low))
            by (nonlinear_arith)
            requires
                filled == numerator * shift,
        ;
    }
}

/// The number in `[0, 1)` that the generator makes of 64 drawn bits.
pub fn unit_from_word(word: u64) -> (unit: Real)
    ensures
        unit == unit_real(word),
        unit.bits < 0x3FF0_0000_0000_0000,
{
    let start: u64 = word / 0x800;
    if start == 0 {
        return Real::from_bits(0);
    }
    let mut numerator: u64 = start;
    let mut lowered: u64 = 0;
    let mut count: u64 = 0;
    proof {
        lemma2_to64();
    }
    while numerator < HALF_NUMERATOR
        invariant
            0 < numerator < 2 * HALF_NUMERATOR,
            count <= 52,
            lowered == count * HALF_NUMERATOR,
            pow2(count as nat) <= numerator,
            unit_fraction(start as int) == unit_fraction(numerator as int) - lowered,
        decreases 2 * HALF_NUMERATOR - numerator,
    {
        proof {
            lemma2_to64_rest();
            lemma_pow2_unfold((count + 1) as nat);
        }
        numerator = 2 * numerator;
        lowered = lowered + HALF_NUMERATOR;
        count = count + 1;
    }
    Real::from_bits(HALF + (numerator - HALF_NUMERATOR) - lowered)
}

} // verus!
