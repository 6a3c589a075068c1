//! The element type: an IEEE 754 binary32 number held as its bit pattern.
//!
//! Arithmetic is delegated to `rustc_apfloat`, rounding to nearest with ties
//! to even. Each operation is a function of the operand bits alone; the
//! contracts of this crate name those functions and assume nothing else about
//! them.
use rustc_apfloat::ieee::Single;
use rustc_apfloat::Float;
use vstd::prelude::*;

verus! {

/// Bits of `a + b` as `rustc_apfloat` computes it for two binary32 operands.
pub uninterp spec fn ieee_sum(a: u32, b: u32) -> u32;

/// Bits of `a - b` as `rustc_apfloat` computes it for two binary32 operands.
pub uninterp spec fn ieee_difference(a: u32, b: u32) -> u32;

/// Bits of `a * b` as `rustc_apfloat` computes it for two binary32 operands.
pub uninterp spec fn ieee_product(a: u32, b: u32) -> u32;

/// Bits of `a / b` as `rustc_apfloat` computes it for two binary32 operands.
pub uninterp spec fn ieee_quotient(a: u32, b: u32) -> u32;

/// Bits of the binary32 number nearest to the unsigned integer `n`.
pub uninterp spec fn ieee_from_count(n: usize) -> u32;

/// Bit pattern of positive zero.
pub const ZERO_BITS: u32 = 0;

/// Bit pattern of `1.0`.
pub const ONE_BITS: u32 = 0x3f80_0000;

/// Calls `<Single as Add>::add` of `rustc_apfloat` on the two bit patterns,
/// converted with `Float::from_bits` and back with `Float::to_bits`, and
/// drops the status flags. The contract only names the result.
#[verifier::external_body]
fn bits_sum(a: u32, b: u32) -> (r: u32)
    ensures
        r == ieee_sum(a, b),
{
    (Single::from_bits(a as u128) + Single::from_bits(b as u128)).value.to_bits() as u32
}

/// Calls `<Single as Sub>::sub` of `rustc_apfloat` on the two bit patterns,
/// converted with `Float::from_bits` and back with `Float::to_bits`, and
/// drops the status flags. The contract only names the result.
#[verifier::external_body]
fn bits_difference(a: u32, b: u32) -> (r: u32)
    ensures
        r == ieee_difference(a, b),
{
    (Single::from_bits(a as u128) - Single::from_bits(b as u128)).value.to_bits() as u32
}

/// Calls `<Single as Mul>::mul` of `rustc_apfloat` on the two bit patterns,
/// converted with `Float::from_bits` and back with `Float::to_bits`, and
/// drops the status flags. The contract only names the result.
#[verifier::external_body]
fn bits_product(a: u32, b: u32) -> (r: u32)
    ensures
        r == ieee_product(a, b),
{
    (Single::from_bits(a as u128) * Single::from_bits(b as u128)).value.to_bits() as u32
}

/// Calls `<Single as Div>::div` of `rustc_apfloat` on the two bit patterns,
/// converted with `Float::from_bits` and back with `Float::to_bits`, and
/// drops the status flags. A zero divisor is no error there: the result is
/// an infinity or a NaN. The contract only names the result.
#[verifier::external_body]
fn bits_quotient(a: u32, b: u32) -> (r: u32)
    ensures
        r == ieee_quotient(a, b),
{
    (Single::from_bits(a as u128) / Single::from_bits(b as u128)).value.to_bits() as u32
}

/// Calls `Float::from_u128` of `rustc_apfloat` for `Single`, which rounds the
/// integer to the nearest binary32 number, and returns its bits from
/// `Float::to_bits`. The contract only names the result.
#[verifier::external_body]
fn bits_from_count(n: usize) -> (r: u32)
    ensures
        r == ieee_from_count(n),
{
    Single::from_u128(n as u128).value.to_bits() as u32
}

/// An IEEE 754 binary32 number, identified by its bit pattern.
///
/// Two values are equal when their bits are equal: `+0` and `-0` differ, and
/// a NaN equals itself.
#[derive(Clone, Copy, Debug, PartialEq, Eq, Structural)]
pub struct Binary32 {
    pub bits: u32,
}

impl Binary32 {
    /// Positive zero.
    pub open spec fn spec_zero() -> Binary32 {
        Binary32 { bits: ZERO_BITS }
    }

    /// The number `1.0`.
    pub open spec fn spec_one() -> Binary32 {
        Binary32 { bits: ONE_BITS }
    }

    /// The binary32 number nearest to `n`.
    pub open spec fn spec_from_count(n: usize) -> Binary32 {
        Binary32 { bits: ieee_from_count(n) }
    }

    /// `self + rhs`, rounded to nearest.
    pub open spec fn spec_plus(self, rhs: Binary32) -> Binary32 {
        Binary32 { bits: ieee_sum(self.bits, rhs.bits) }
    }

    /// `self - rhs`, rounded to nearest.
    pub open spec fn spec_minus(self, rhs: Binary32) -> Binary32 {
        Binary32 { bits: ieee_difference(self.bits, rhs.bits) }
    }

    /// `self * rhs`, rounded to nearest.
    pub open spec fn spec_times(self, rhs: Binary32) -> Binary32 {
        Binary32 { bits: ieee_product(self.bits, rhs.bits) }
    }

    /// `self / rhs`, rounded to nearest.
    pub open spec fn spec_over(self, rhs: Binary32) -> Binary32 {
        Binary32 { bits: ieee_quotient(self.bits, rhs.bits) }
    }

    /// The number with the given bit pattern.
    pub fn from_bits(bits: u32) -> (r: Binary32)
        ensures
            r.bits == bits,
    {
        Binary32 { bits }
    }

    /// The bit pattern of the number.
    pub fn to_bits(self) -> (r: u32)
        ensures
            r == self.bits,
    {
        self.bits
    }

    /// Positive zero, the value every gradient slot starts from.
    #[verifier::when_used_as_spec(spec_zero)]
    pub fn zero() -> (r: Binary32)
        ensures
            r == Binary32::spec_zero(),
    {
        Binary32 { bits: ZERO_BITS }
    }

    /// The number `1.0`, the seed of a backward pass.
    #[verifier::when_used_as_spec(spec_one)]
    pub fn one() -> (r: Binary32)
        ensures
            r == Binary32::spec_one(),
    {
        Binary32 { bits: ONE_BITS }
    }

    /// The binary32 number nearest to `n`.
    #[verifier::when_used_as_spec(spec_from_count)]
    pub fn from_count(n: usize) -> (r: Binary32)
        ensures
            r == Binary32::spec_from_count(n),
    {
        Binary32 { bits: bits_from_count(n) }
    }

    /// `self + rhs`.
    #[verifier::when_used_as_spec(spec_plus)]
    pub fn plus(self, rhs: Binary32) -> (r: Binary32)
        ensures
            r == self.spec_plus(rhs),
    {
        Binary32 { bits: bits_sum(self.bits, rhs.bits) }
    }

    /// `self - rhs`.
    #[verifier::when_used_as_spec(spec_minus)]
    pub fn minus(self, rhs: Binary32) -> (r: Binary32)
        ensures
            r == self.spec_minus(rhs),
    {
        Binary32 { bits: bits_difference(self.bits, rhs.bits) }
    }

    /// `self * rhs`.
    #[verifier::when_used_as_spec(spec_times)]
    pub fn times(self, rhs: Binary32) -> (r: Binary32)
        ensures
            r == self.spec_times(rhs),
    {
        Binary32 { bits: bits_product(self.bits, rhs.bits) }
    }

    /// `self / rhs`. Dividing by zero yields an infinity or a NaN.
    #[verifier::when_used_as_spec(spec_over)]
    pub fn over(self, rhs: Binary32) -> (r: Binary32)
        ensures
            r == self.spec_over(rhs),
    {
        Binary32 { bits: bits_quotient(self.bits, rhs.bits) }
    }
}

} // verus!
