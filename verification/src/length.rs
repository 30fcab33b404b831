use vstd::prelude::*;

verus! {

/// A length in pixels, held as the bit pattern of an IEEE 754 binary32 number
/// (the value of `f32::to_bits`). Reading and writing the number itself is left to callers.
#[derive(Clone, Copy, Debug)]
pub struct Length {
    pub bits: u32,
}

impl Length {
    /// The biased exponent field.
    pub open spec fn exponent(self) -> int {
        (self.bits as int / 0x80_0000) % 0x100
    }

    /// The fraction field.
    pub open spec fn fraction(self) -> int {
        self.bits as int % 0x80_0000
    }

    /// The sign bit is set.
    pub open spec fn sign(self) -> bool {
        self.bits >= 0x8000_0000
    }

    /// The number is neither infinite nor NaN (`f32::is_finite`).
    pub open spec fn finite(self) -> bool {
        self.exponent() != 0xFF
    }

    /// The number is NaN (`f32::is_nan`).
    pub open spec fn nan(self) -> bool {
        self.exponent() == 0xFF && self.fraction() != 0
    }

    /// The number is `+0.0` or `-0.0`.
    pub open spec fn zero(self) -> bool {
        self.bits as int % 0x8000_0000 == 0
    }

    /// `value >= 0.0` holds for the number.
    pub open spec fn at_least_zero(self) -> bool {
        !self.nan() && (!self.sign() || self.zero())
    }

    /// `a == b` holds for the two numbers: neither is NaN, and they are the same number
    /// (the two zeros are equal).
    pub open spec fn same_number(self, other: Length) -> bool {
        &&& !self.nan()
        &&& !other.nan()
        &&& (self.bits == other.bits || (self.zero() && other.zero()))
    }

    pub fn from_bits(bits: u32) -> (length: Length)
        ensures
            length.bits == bits,
    {
        Length { bits }
    }

    pub fn is_finite(self) -> (result: bool)
        ensures
            result == self.finite(),
    {
        (self.bits / 0x80_0000) % 0x100 != 0xFF
    }

    pub fn is_nan(self) -> (result: bool)
        ensures
            result == self.nan(),
    {
        (self.bits / 0x80_0000) % 0x100 == 0xFF && self.bits % 0x80_0000 != 0
    }

    /// `value.is_finite() && value >= 0.0`.
    pub fn is_finite_non_negative(self) -> (result: bool)
        ensures
            result == (self.finite() && self.at_least_zero()),
    {
        self.is_finite() && (self.bits < 0x8000_0000 || self.bits % 0x8000_0000 == 0)
    }

    /// `a == b` on the two numbers.
    pub fn same(self, other: Length) -> (result: bool)
        ensures
            result == self.same_number(other),
    {
        !self.is_nan() && !other.is_nan() && (self.bits == other.bits || (self.bits % 0x8000_0000
            == 0 && other.bits % 0x8000_0000 == 0))
    }
}

/// How the caller writes each length of a crosshair (as `f32`'s `Display` writes it).
#[derive(Clone, Debug, PartialEq, Eq)]
pub struct LengthTexts {
    pub size: String,
    pub gap: String,
    pub thickness: String,
    pub outline_thickness: String,
}

/// `==` compares the numbers as `f32` does.
impl PartialEq for Length {
    fn eq(&self, other: &Length) -> (result: bool) {
        self.same(*other)
    }
}

impl vstd::std_specs::cmp::PartialEqSpecImpl for Length {
    open spec fn obeys_eq_spec() -> bool {
        true
    }

    open spec fn eq_spec(&self, other: &Length) -> bool {
        self.same_number(*other)
    }
}

} // verus!
