//! Arithmetic on real numbers, done on their encodings by the
//! `rustc_apfloat` crate: IEEE 754 binary64, rounding to nearest, ties to
//! even.

use vstd::prelude::*;
use rustc_apfloat::ieee::Double;
use rustc_apfloat::Float;
use crate::number::Real;

verus! {

/// What the crate's `+` gives for the encodings `a` and `b`: the encoding
/// of the sum of the two numbers, rounded.
pub uninterp spec fn ieee_sum(a: u64, b: u64) -> u64;

/// What the crate's `-` gives for the encodings `a` and `b`: the encoding
/// of the difference of the two numbers, rounded.
pub uninterp spec fn ieee_difference(a: u64, b: u64) -> u64;

/// What the crate's `*` gives for the encodings `a` and `b`: the encoding
/// of the product of the two numbers, rounded.
pub uninterp spec fn ieee_product(a: u64, b: u64) -> u64;

/// What the crate's `/` gives for the encodings `a` and `b`: the encoding
/// of the quotient of the two numbers, rounded.
pub uninterp spec fn ieee_quotient(a: u64, b: u64) -> u64;

/// `+` of `rustc_apfloat::ieee::Double`: the result is a function of the two
/// encodings, and nothing else is claimed of it.
#[verifier::external_body]
fn sum(a: Real, b: Real) -> (r: Real)
    ensures
        r.bits == ieee_sum(a.bits, b.bits),
{
    let value = (Double::from_bits(a.bits as u128) + Double::from_bits(b.bits as u128)).value;
    Real { bits: value.to_bits() as u64 }
}

/// `-` of `rustc_apfloat::ieee::Double`: the result is a function of the two
/// encodings, and nothing else is claimed of it.
#[verifier::external_body]
fn difference(a: Real, b: Real) -> (r: Real)
    ensures
        r.bits == ieee_difference(a.bits, b.bits),
{
    let value = (Double::from_bits(a.bits as u128) - Double::from_bits(b.bits as u128)).value;
    Real { bits: value.to_bits() as u64 }
}

/// `*` of `rustc_apfloat::ieee::Double`: the result is a function of the two
/// encodings, and nothing else is claimed of it.
#[verifier::external_body]
fn product(a: Real, b: Real) -> (r: Real)
    ensures
        r.bits == ieee_product(a.bits, b.bits),
{
    let value = (Double::from_bits(a.bits as u128) * Double::from_bits(b.bits as u128)).value;
    Real { bits: value.to_bits() as u64 }
}

/// `/` of `rustc_apfloat::ieee::Double`: the result is a function of the two
/// encodings, and nothing else is claimed of it.
#[verifier::external_body]
fn quotient(a: Real, b: Real) -> (r: Real)
    ensures
        r.bits == ieee_quotient(a.bits, b.bits),
{
    let value = (Double::from_bits(a.bits as u128) / Double::from_bits(b.bits as u128)).value;
    Real { bits: value.to_bits() as u64 }
}

/// The four operations.
#[derive(Clone, Copy, Debug, PartialEq, Eq, Structural)]
pub enum Arith {
    Add,
    Sub,
    Mul,
    Div,
}

/// The result of an operation on two numbers.
pub open spec fn computed(op: Arith, a: Real, b: Real) -> Real {
    match op {
        Arith::Add => Real { bits: ieee_sum(a.bits, b.bits) },
        Arith::Sub => Real { bits: ieee_difference(a.bits, b.bits) },
        Arith::Mul => Real { bits: ieee_product(a.bits, b.bits) },
        Arith::Div => Real { bits: ieee_quotient(a.bits, b.bits) },
    }
}

/// Carries an operation out.
pub fn compute(op: Arith, a: Real, b: Real) -> (r: Real)
    ensures
        r == computed(op, a, b),
{
    match op {
        Arith::Add => sum(a, b),
        Arith::Sub => difference(a, b),
        Arith::Mul => product(a, b),
        Arith::Div => quotient(a, b),
    }
}

} // verus!
