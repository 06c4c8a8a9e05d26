//! Floating-point values as the engine holds them.
//!
//! The engine does no floating-point arithmetic. It keeps of a number what it
//! reads of it: the IEEE-754 double-precision bit pattern, by which numbers
//! are told apart, and the decimal rendering, by which they are displayed.
//! Both come from the host, which parses, adds and compares.

use vstd::prelude::*;

verus! {

/// A double-precision number: its bit pattern and its rendering as text.
#[derive(Debug, PartialEq)]
pub struct FloatValue {
    pub bits: u64,
    pub text: String,
}

/// The mathematical content of a `FloatValue`.
pub struct FloatModel {
    pub bits: u64,
    pub text: Seq<char>,
}

impl View for FloatValue {
    type V = FloatModel;

    open spec fn view(&self) -> FloatModel {
        FloatModel { bits: self.bits, text: self.text@ }
    }
}

impl Clone for FloatValue {
    fn clone(&self) -> (r: Self)
        ensures
            r@ == self@,
    {
        FloatValue { bits: self.bits, text: self.text.clone() }
    }
}

/// Whether the bit pattern is one of the two zeros.
pub open spec fn bits_zero(bits: u64) -> bool {
    bits & 0x7fff_ffff_ffff_ffff == 0
}

/// Whether the bit pattern is not a number: all exponent bits set and a
/// fraction that is not zero.
pub open spec fn bits_nan(bits: u64) -> bool {
    bits & 0x7ff0_0000_0000_0000 == 0x7ff0_0000_0000_0000 && bits & 0x000f_ffff_ffff_ffff != 0
}

/// IEEE-754 equality on bit patterns: no NaN equals anything, the two zeros
/// are equal, and otherwise numbers are equal when their bits are.
pub open spec fn bits_equal(a: u64, b: u64) -> bool {
    !bits_nan(a) && !bits_nan(b) && (a == b || (bits_zero(a) && bits_zero(b)))
}

impl FloatValue {
    /// A number from its bit pattern and its rendering.
    pub fn new(bits: u64, text: String) -> (r: FloatValue)
        ensures
            r@ == (FloatModel { bits, text: text@ }),
    {
        FloatValue { bits, text }
    }

    /// Whether the number is zero, of either sign.
    pub fn is_zero(&self) -> (r: bool)
        ensures
            r == bits_zero(self@.bits),
    {
        self.bits & 0x7fff_ffff_ffff_ffff == 0
    }

    /// Whether the value is not a number.
    pub fn is_nan(&self) -> (r: bool)
        ensures
            r == bits_nan(self@.bits),
    {
        self.bits & 0x7ff0_0000_0000_0000 == 0x7ff0_0000_0000_0000 && self.bits
            & 0x000f_ffff_ffff_ffff != 0
    }

    /// Whether two numbers are equal as numbers.
    pub fn equals(&self, other: &FloatValue) -> (r: bool)
        ensures
            r == bits_equal(self@.bits, other@.bits),
    {
        !self.is_nan() && !other.is_nan() && (self.bits == other.bits || (self.is_zero()
            && other.is_zero()))
    }
}

} // verus!
