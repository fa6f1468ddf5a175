//! Real numbers as bit patterns, and the comparisons the engine makes on them.

use vstd::prelude::*;
use vstd::arithmetic::power2::{
    lemma2_to64, lemma2_to64_rest, lemma_pow2_adds, lemma_pow2_pos, lemma_pow2_strictly_increases,
    pow2,
};

verus! {

/// The sign bit of an encoding.
pub const SIGN_BIT: u64 = 0x8000_0000_0000_0000;

/// The magnitude bits of an infinity; larger magnitudes are not numbers.
pub const INFINITY_BITS: u64 = 0x7FF0_0000_0000_0000;

/// The least magnitude with an exponent above 0: 2^52. The magnitude bits
/// below it are the fraction, those from it on the exponent.
pub const FRACTION_RANGE: u64 = 0x10_0000_0000_0000;

/// A real number, carried as the 64 bits of its IEEE 754 binary64 encoding.
///
/// The encoding is a sign bit above a 63-bit magnitude, which is an 11-bit
/// exponent above a 52-bit fraction. A finite pattern denotes an integer
/// multiple of 2^-1074, [`Real::scaled`]. Among the patterns that denote
/// numbers (the infinities included) a larger magnitude denotes a number
/// further from zero, so the signed magnitude, [`Real::key`], orders them as
/// the numbers they denote ([`lemma_order_is_numeric`]); the two zeros share
/// the key 0.
#[derive(Clone, Copy, Debug)]
pub struct Real {
    pub bits: u64,
}

/// The encoding of 0.0.
pub const ZERO: u64 = 0;

/// The encoding of 1.0.
pub const ONE: u64 = 0x3FF0_0000_0000_0000;

/// The encoding of 2.0.
pub const TWO: u64 = 0x4000_0000_0000_0000;

/// The encoding of 3.0.
pub const THREE: u64 = 0x4008_0000_0000_0000;

/// The encoding of 10.0.
pub const TEN: u64 = 0x4024_0000_0000_0000;

/// The encoding of -1.0.
pub const MINUS_ONE: u64 = 0xBFF0_0000_0000_0000;

/// The encoding of -10.0.
pub const MINUS_TEN: u64 = 0xC024_0000_0000_0000;

impl Real {
    /// Whether the sign bit is set.
    pub open spec fn negative(self) -> bool {
        self.bits >= SIGN_BIT
    }

    /// The encoding without its sign bit.
    pub open spec fn magnitude(self) -> u64 {
        if self.bits >= SIGN_BIT {
            (self.bits - SIGN_BIT) as u64
        } else {
            self.bits
        }
    }

    /// Whether the pattern denotes no number.
    pub open spec fn nan(self) -> bool {
        self.magnitude() > INFINITY_BITS
    }

    /// Whether the pattern denotes a number other than an infinity.
    pub open spec fn finite(self) -> bool {
        self.magnitude() < INFINITY_BITS
    }

    /// The signed magnitude, by which the numbers are ordered.
    pub open spec fn key(self) -> int {
        if self.negative() {
            -(self.magnitude() as int)
        } else {
            self.magnitude() as int
        }
    }

    /// The exponent bits of the encoding.
    pub open spec fn exponent(self) -> int {
        self.magnitude() as int / FRACTION_RANGE as int
    }

    /// The fraction bits of the encoding.
    pub open spec fn fraction(self) -> int {
        self.magnitude() as int % FRACTION_RANGE as int
    }

    /// The distance from zero of the number that a finite pattern denotes,
    /// in units of 2^-1074: the fraction alone under the exponent 0, else
    /// the fraction with a leading 1, doubled once for each exponent above 1.
    pub open spec fn scaled_magnitude(self) -> int {
        if self.exponent() == 0 {
            self.fraction()
        } else {
            (FRACTION_RANGE + self.fraction()) * pow2((self.exponent() - 1) as nat)
        }
    }

    /// The number that a finite pattern denotes, in units of 2^-1074.
    pub open spec fn scaled(self) -> int {
        if self.negative() {
            -self.scaled_magnitude()
        } else {
            self.scaled_magnitude()
        }
    }

    /// `self < other` as numbers; false when either is not a number.
    pub open spec fn less(self, other: Real) -> bool {
        !self.nan() && !other.nan() && self.key() < other.key()
    }

    /// `self == other` as numbers; false when either is not a number.
    pub open spec fn same(self, other: Real) -> bool {
        !self.nan() && !other.nan() && self.key() == other.key()
    }

    /// `self <= other` as numbers; false when either is not a number.
    pub open spec fn at_most(self, other: Real) -> bool {
        !self.nan() && !other.nan() && self.key() <= other.key()
    }

    /// Whether `self` is the better of two fitnesses: the larger number is,
    /// and any number is better than what is not a number.
    pub open spec fn beats(self, other: Real) -> bool {
        !self.nan() && (other.nan() || self.key() > other.key())
    }

    /// `|self| < bound` as numbers, for a bound that is not negative.
    pub open spec fn within(self, bound: Real) -> bool {
        !self.nan() && !bound.nan() && self.magnitude() < bound.magnitude()
    }

    /// The number clamped to `[low, high]`; what is not a number stays as it is.
    pub open spec fn clamped(self, low: Real, high: Real) -> Real {
        if self.less(low) {
            low
        } else if high.less(self) {
            high
        } else {
            self
        }
    }

    pub fn from_bits(bits: u64) -> (r: Real)
        ensures
            r.bits == bits,
    {
        Real { bits }
    }

    pub fn to_bits(self) -> (bits: u64)
        ensures
            bits == self.bits,
    {
        self.bits
    }

    pub fn is_negative(self) -> (b: bool)
        ensures
            b == self.negative(),
    {
        self.bits >= SIGN_BIT
    }

    pub fn abs_bits(self) -> (m: u64)
        ensures
            m == self.magnitude(),
            m < SIGN_BIT,
    {
        if self.bits >= SIGN_BIT {
            self.bits - SIGN_BIT
        } else {
            self.bits
        }
    }

    pub fn is_nan(self) -> (b: bool)
        ensures
            b == self.nan(),
    {
        self.abs_bits() > INFINITY_BITS
    }

    pub fn is_finite(self) -> (b: bool)
        ensures
            b == self.finite(),
    {
        self.abs_bits() < INFINITY_BITS
    }

    pub fn less_than(self, other: Real) -> (b: bool)
        ensures
            b == self.less(other),
    {
        if self.is_nan() || other.is_nan() {
            false
        } else if self.is_negative() {
            if other.is_negative() {
                self.abs_bits() > other.abs_bits()
            } else {
                self.abs_bits() != 0 || other.abs_bits() != 0
            }
        } else {
            !other.is_negative() && self.abs_bits() < other.abs_bits()
        }
    }

    pub fn equals(self, other: Real) -> (b: bool)
        ensures
            b == self.same(other),
    {
        if self.is_nan() || other.is_nan() {
            false
        } else if self.abs_bits() == 0 {
            other.abs_bits() == 0
        } else {
            self.bits == other.bits
        }
    }

    pub fn less_or_equal(self, other: Real) -> (b: bool)
        ensures
            b == self.at_most(other),
    {
        self.less_than(other) || self.equals(other)
    }

    pub fn is_better_than(self, other: Real) -> (b: bool)
        ensures
            b == self.beats(other),
    {
        if self.is_nan() {
            false
        } else if other.is_nan() {
            true
        } else {
            other.less_than(self)
        }
    }

    pub fn abs_below(self, bound: Real) -> (b: bool)
        ensures
            b == self.within(bound),
    {
        !self.is_nan() && !bound.is_nan() && self.abs_bits() < bound.abs_bits()
    }

    pub fn clamp(self, low: Real, high: Real) -> (r: Real)
        ensures
            r == self.clamped(low, high),
    {
        if self.less_than(low) {
            low
        } else if high.less_than(self) {
            high
        } else {
            self
        }
    }
}

/// Of two magnitudes that denote numbers, the larger denotes the number
/// further from zero.
pub proof fn lemma_magnitude_is_monotonic(a: Real, b: Real)
    requires
        a.magnitude() < b.magnitude(),
    ensures
        0 <= a.scaled_magnitude() < b.scaled_magnitude(),
{
    let (ea, fa) = (a.exponent(), a.fraction());
    let (eb, fb) = (b.exponent(), b.fraction());
    let range = FRACTION_RANGE as int;
    assert(a.magnitude() == ea * range + fa && b.magnitude() == eb * range + fb);
    assert(0 <= fa < range && 0 <= fb < range && 0 <= ea <= eb);
    lemma_pow2_pos((eb - 1) as nat);
    lemma_pow2_pos((ea - 1) as nat);
    let pb = pow2((eb - 1) as nat) as int;
    let pa = pow2((ea - 1) as nat) as int;
    if ea == eb {
        assert(fa < fb);
        if ea > 0 {
            assert((range + fa) * pa < (range + fb) * pa) by (nonlinear_arith)
                requires
                    fa < fb,
                    pa > 0,
            ;
            assert((range + fa) * pa >= 0) by (nonlinear_arith)
                requires
                    fa >= 0,
                    range > 0,
                    pa > 0,
            ;
        }
    } else {
        assert(range * pb <= (range + fb) * pb) by (nonlinear_arith)
            requires
                fb >= 0,
                pb > 0,
        ;
        if ea == 0 {
            assert(range * 1 <= range * pb) by (nonlinear_arith)
                requires
                    range > 0,
                    pb >= 1,
            ;
        } else {
            assert(pow2(ea as nat) == 2 * pa) by {
                lemma2_to64();
                lemma_pow2_adds((ea - 1) as nat, 1);
            }
            assert(pow2(ea as nat) <= pb) by {
                if ea < eb - 1 {
                    lemma_pow2_strictly_increases(ea as nat, (eb - 1) as nat);
                }
            }
            assert((range + fa) * pa < range * (2 * pa)) by (nonlinear_arith)
                requires
                    fa < range,
                    pa > 0,
            ;
            assert(range * (2 * pa) <= range * pb) by (nonlinear_arith)
                requires
                    range > 0,
                    2 * pa <= pb,
            ;
            assert((range + fa) * pa >= 0) by (nonlinear_arith)
                requires
                    fa >= 0,
                    range > 0,
                    pa > 0,
            ;
        }
    }
}

/// The zero magnitude denotes zero, and no other does.
pub proof fn lemma_zero_magnitude(a: Real)
    ensures
        a.scaled_magnitude() >= 0,
        a.magnitude() == 0 <==> a.scaled_magnitude() == 0,
{
    if a.magnitude() > 0 {
        lemma_magnitude_is_monotonic(Real { bits: 0 }, a);
    }
}

/// The comparisons on bit patterns are those of the numbers denoted: for
/// finite patterns, `less` is `<` and `same` is `==` of the numbers, and
/// `within` compares their distances from zero.
pub proof fn lemma_order_is_numeric(a: Real, b: Real)
    requires
        a.finite(),
        b.finite(),
    ensures
        a.less(b) <==> a.scaled() < b.scaled(),
        a.same(b) <==> a.scaled() == b.scaled(),
        a.at_most(b) <==> a.scaled() <= b.scaled(),
        a.within(b) <==> a.scaled_magnitude() < b.scaled_magnitude(),
{
    lemma_zero_magnitude(a);
    lemma_zero_magnitude(b);
    if a.magnitude() < b.magnitude() {
        lemma_magnitude_is_monotonic(a, b);
    } else if b.magnitude() < a.magnitude() {
        lemma_magnitude_is_monotonic(b, a);
    }
}

/// The number that a pattern with the exponent `1023 + e` and the fraction
/// `f` denotes: `(2^52 + f) * 2^(e - 52)`, in units of 2^-1074.
pub proof fn lemma_scaled_of(a: Real, e: int, f: int)
    requires
        -1022 <= e <= 1023,
        0 <= f < FRACTION_RANGE,
        a.magnitude() == (1023 + e) * FRACTION_RANGE + f,
    ensures
        a.scaled_magnitude() == (FRACTION_RANGE + f) * pow2((1022 + e) as nat),
{
    assert(a.exponent() == 1023 + e && a.fraction() == f);
}

/// The named constants denote the numbers they are named after: in units of
/// 2^-1074, one is 2^1074.
pub proof fn lemma_constants()
    ensures
        (Real { bits: ZERO }).scaled() == 0,
        (Real { bits: ONE }).scaled() == pow2(1074),
        (Real { bits: TWO }).scaled() == 2 * pow2(1074),
        (Real { bits: THREE }).scaled() == 3 * pow2(1074),
        (Real { bits: TEN }).scaled() == 10 * pow2(1074),
        (Real { bits: MINUS_ONE }).scaled() == -pow2(1074),
        (Real { bits: MINUS_TEN }).scaled() == -10 * pow2(1074),
{
    lemma2_to64();
    lemma2_to64_rest();
    let range = FRACTION_RANGE as int;
    lemma_scaled_of(Real { bits: ONE }, 0, 0);
    lemma_scaled_of(Real { bits: MINUS_ONE }, 0, 0);
    lemma_pow2_adds(52, 1022);
    lemma_scaled_of(Real { bits: TWO }, 1, 0);
    lemma_scaled_of(Real { bits: THREE }, 1, 0x8_0000_0000_0000);
    lemma_pow2_adds(51, 1023);
    lemma_pow2_adds(1, 1074);
    lemma_pow2_adds(1, 1022);
    lemma_pow2_adds(1, 51);
    lemma_scaled_of(Real { bits: TEN }, 3, 0x4_0000_0000_0000);
    lemma_scaled_of(Real { bits: MINUS_TEN }, 3, 0x4_0000_0000_0000);
    lemma_pow2_adds(49, 1025);
    let p1022 = pow2(1022) as int;
    let p1023 = pow2(1023) as int;
    let p1025 = pow2(1025) as int;
    let p1074 = pow2(1074) as int;
    assert(p1074 == 0x10_0000_0000_0000 * p1022);
    assert(p1023 == 2 * p1022);
    assert(p1074 == 0x8_0000_0000_0000 * p1023);
    assert((range + 0) * p1022 == p1074);
    assert((range + 0) * p1023 == 2 * p1074) by (nonlinear_arith)
        requires
            range == 0x10_0000_0000_0000,
            p1074 == 0x8_0000_0000_0000 * p1023,
    ;
    assert((range + 0x8_0000_0000_0000) * p1023 == 3 * p1074) by (nonlinear_arith)
        requires
            range == 0x10_0000_0000_0000,
            p1074 == 0x8_0000_0000_0000 * p1023,
    ;
    assert(p1074 == 0x2_0000_0000_0000 * p1025);
    assert((range + 0x4_0000_0000_0000) * p1025 == 10 * p1074) by (nonlinear_arith)
        requires
            range == 0x10_0000_0000_0000,
            p1074 == 0x2_0000_0000_0000 * p1025,
    ;
}

} // verus!
