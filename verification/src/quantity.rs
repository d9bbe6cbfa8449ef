//! Quantities: complex numbers with a variance on each part and a unit.
//!
//! A real number is held as its IEEE 754 binary64 bit pattern. The library
//! never computes with these patterns; it only tells zero and one apart from
//! other numbers and hands the patterns to the host for arithmetic.

use vstd::prelude::*;
use crate::unit::Unit;
use crate::notation::{Factor, UnitError, spec_single_unit};
use crate::text::{graphemes, chars_of};

verus! {

/// The bit pattern of `1.0`.
pub const ONE_BITS: u64 = 0x3FF0_0000_0000_0000;

/// The bit pattern of `-0.0`.
pub const NEGATIVE_ZERO_BITS: u64 = 0x8000_0000_0000_0000;

/// A real number, held as its binary64 bit pattern.
#[derive(Debug, Clone, Copy, PartialEq, Eq, Structural)]
pub struct Real {
    pub bits: u64,
}

impl Real {
    /// Whether the number compares equal to zero: positive or negative zero.
    pub open spec fn spec_is_zero(self) -> bool {
        self.bits == 0 || self.bits == NEGATIVE_ZERO_BITS
    }

    /// Whether the number compares equal to one.
    pub open spec fn spec_is_one(self) -> bool {
        self.bits == ONE_BITS
    }

    /// Positive zero, as a mathematical value.
    pub open spec fn spec_zero() -> Real {
        Real { bits: 0 }
    }

    /// One, as a mathematical value.
    pub open spec fn spec_one() -> Real {
        Real { bits: ONE_BITS }
    }

    /// Positive zero.
    pub fn zero() -> (r: Real)
        ensures
            r == Real::spec_zero(),
    {
        Real { bits: 0 }
    }

    /// One.
    pub fn one() -> (r: Real)
        ensures
            r == Real::spec_one(),
    {
        Real { bits: ONE_BITS }
    }

    /// Whether the number compares equal to zero.
    pub fn is_zero(&self) -> (b: bool)
        ensures
            b == self.spec_is_zero(),
    {
        self.bits == 0 || self.bits == NEGATIVE_ZERO_BITS
    }

    /// Whether the number compares equal to one.
    pub fn is_one(&self) -> (b: bool)
        ensures
            b == self.spec_is_one(),
    {
        self.bits == ONE_BITS
    }
}

/// The four real numbers of a quantity: real part, imaginary part and the
/// variance of each.
#[derive(Debug, Clone, Copy, PartialEq, Eq, Structural)]
pub struct Complex {
    pub re: Real,
    pub im: Real,
    pub vre: Real,
    pub vim: Real,
}

/// A complex number with a variance on each part, tagged with a unit.
#[derive(Debug, Clone, Copy, PartialEq, Eq, Structural)]
pub struct Quantity {
    pub re: Real,
    pub im: Real,
    pub vre: Real,
    pub vim: Real,
    pub unit: Unit,
}

/// How the digits of a number literal become a quantity.
#[derive(Debug, Clone, Copy, PartialEq, Eq, Structural)]
pub enum LiteralForm {
    /// The digits are the real part.
    Plain,
    /// The digits are the imaginary part.
    Imaginary,
    /// The digits are the real part in the written unit: the host adds the
    /// shift of the factor, if it has one, and multiplies by its scale.
    Scaled(Factor),
}

impl Quantity {
    /// Whether the imaginary part and its variance are zero.
    pub open spec fn spec_is_real(self) -> bool {
        self.im.spec_is_zero() && self.vim.spec_is_zero()
    }

    /// Whether the real part and its variance are zero while the imaginary
    /// part and its variance are not.
    pub open spec fn spec_is_imaginary(self) -> bool {
        self.re.spec_is_zero() && self.vre.spec_is_zero() && !self.im.spec_is_zero()
            && !self.vim.spec_is_zero()
    }

    /// Whether the quantity is the exact pure number zero: all four parts
    /// zero and no unit.
    pub open spec fn spec_is_null(self) -> bool {
        self.re.spec_is_zero() && self.vre.spec_is_zero() && self.im.spec_is_zero()
            && self.vim.spec_is_zero() && self.unit == Unit::spec_unitless()
    }

    /// Whether the quantity is exactly one: real part one, everything else
    /// zero. The unit is not looked at.
    pub open spec fn spec_is_unity(self) -> bool {
        self.re.spec_is_one() && self.im.spec_is_zero() && self.vre.spec_is_zero()
            && self.vim.spec_is_zero()
    }

    /// The pure number one for `true` and zero for `false`.
    pub open spec fn spec_truth(b: bool) -> Quantity {
        Quantity {
            re: if b {
                Real::spec_one()
            } else {
                Real::spec_zero()
            },
            im: Real::spec_zero(),
            vre: Real::spec_zero(),
            vim: Real::spec_zero(),
            unit: Unit::spec_unitless(),
        }
    }

    /// The four numbers of the quantity.
    pub open spec fn spec_complex(self) -> Complex {
        Complex { re: self.re, im: self.im, vre: self.vre, vim: self.vim }
    }

    /// The quantity with the given numbers and unit.
    pub open spec fn spec_from_parts(c: Complex, unit: Unit) -> Quantity {
        Quantity { re: c.re, im: c.im, vre: c.vre, vim: c.vim, unit }
    }

    /// The quantity without its variances.
    pub open spec fn spec_value(self) -> Quantity {
        Quantity { vre: Real::spec_zero(), vim: Real::spec_zero(), ..self }
    }

    /// The real part with its variance.
    pub open spec fn spec_real_part(self) -> Quantity {
        Quantity { im: Real::spec_zero(), vim: Real::spec_zero(), ..self }
    }

    /// The imaginary part with its variance.
    pub open spec fn spec_imag_part(self) -> Quantity {
        Quantity { re: Real::spec_zero(), vre: Real::spec_zero(), ..self }
    }

    /// The variances as an exact quantity in the squared unit, where the
    /// squared unit is representable.
    pub open spec fn spec_sigma2(self) -> Option<Quantity> {
        if self.unit.mul_fits(self.unit) {
            Some(
                Quantity {
                    re: self.vre,
                    im: self.vim,
                    vre: Real::spec_zero(),
                    vim: Real::spec_zero(),
                    unit: self.unit.product(self.unit),
                },
            )
        } else {
            None
        }
    }

    /// Whether the imaginary part and its variance are zero.
    pub fn is_real(&self) -> (b: bool)
        ensures
            b == self.spec_is_real(),
    {
        self.im.is_zero() && self.vim.is_zero()
    }

    /// Whether the real part and its variance are zero while the imaginary
    /// part and its variance are not.
    pub fn is_imaginary(&self) -> (b: bool)
        ensures
            b == self.spec_is_imaginary(),
    {
        self.re.is_zero() && self.vre.is_zero() && !self.im.is_zero() && !self.vim.is_zero()
    }

    /// Whether the quantity is the exact pure number zero. Conditions and the
    /// logical operators take every other quantity as true.
    pub fn is_null(&self) -> (b: bool)
        ensures
            b == self.spec_is_null(),
    {
        self.re.is_zero() && self.vre.is_zero() && self.im.is_zero() && self.vim.is_zero()
            && self.unit.is_unitless()
    }

    /// Whether the quantity is exactly one.
    pub fn is_unity(&self) -> (b: bool)
        ensures
            b == self.spec_is_unity(),
    {
        self.re.is_one() && self.im.is_zero() && self.vre.is_zero() && self.vim.is_zero()
    }

    /// The pure number one for `true` and zero for `false`.
    pub fn truth(b: bool) -> (q: Quantity)
        ensures
            q == Quantity::spec_truth(b),
    {
        Quantity {
            re: if b {
                Real::one()
            } else {
                Real::zero()
            },
            im: Real::zero(),
            vre: Real::zero(),
            vim: Real::zero(),
            unit: Unit::unitless(),
        }
    }

    /// The four numbers of the quantity.
    pub fn complex(&self) -> (c: Complex)
        ensures
            c == self.spec_complex(),
    {
        Complex { re: self.re, im: self.im, vre: self.vre, vim: self.vim }
    }

    /// The quantity with the given numbers and unit.
    pub fn from_parts(c: Complex, unit: Unit) -> (q: Quantity)
        ensures
            q == Quantity::spec_from_parts(c, unit),
    {
        Quantity { re: c.re, im: c.im, vre: c.vre, vim: c.vim, unit }
    }

    /// The quantity without its variances.
    pub fn value(self) -> (q: Quantity)
        ensures
            q == self.spec_value(),
    {
        Quantity { re: self.re, im: self.im, vre: Real::zero(), vim: Real::zero(), unit: self.unit }
    }

    /// The real part with its variance.
    pub fn real_part(self) -> (q: Quantity)
        ensures
            q == self.spec_real_part(),
    {
        Quantity { re: self.re, im: Real::zero(), vre: self.vre, vim: Real::zero(), unit: self.unit }
    }

    /// The imaginary part with its variance.
    pub fn imag_part(self) -> (q: Quantity)
        ensures
            q == self.spec_imag_part(),
    {
        Quantity { re: Real::zero(), im: self.im, vre: Real::zero(), vim: self.vim, unit: self.unit }
    }

    /// The variances as an exact quantity in the squared unit; `None` where
    /// the squared unit is not representable.
    pub fn sigma2(self) -> (r: Option<Quantity>)
        ensures
            r == self.spec_sigma2(),
    {
        match self.unit.checked_mul(self.unit) {
            Some(unit) => Some(
                Quantity { re: self.vre, im: self.vim, vre: Real::zero(), vim: Real::zero(), unit },
            ),
            None => None,
        }
    }

    /// The unit and the form of a number literal with the given decorator:
    /// no decorator gives a pure real number, `i` or `j` a pure imaginary
    /// number, anything else is read as a single written unit.
    pub open spec fn spec_decorator_form(decorator: Seq<char>) -> Result<
        (Unit, LiteralForm),
        UnitError,
    > {
        if decorator.len() == 0 {
            Ok((Unit::spec_unitless(), LiteralForm::Plain))
        } else if decorator == seq!['i'] || decorator == seq!['j'] {
            Ok((Unit::spec_unitless(), LiteralForm::Imaginary))
        } else {
            match spec_single_unit(graphemes(decorator)) {
                Ok((unit, factor)) => Ok((unit, LiteralForm::Scaled(factor))),
                Err(e) => Err(e),
            }
        }
    }

    /// The unit and the form of a number literal with the given decorator.
    pub fn decorator_form(decorator: &str) -> (r: Result<(Unit, LiteralForm), UnitError>)
        ensures
            r == Quantity::spec_decorator_form(decorator@),
    {
        let chars = chars_of(decorator);
        if chars.len() == 0 {
            assert(decorator@.len() == 0);
            Ok((Unit::unitless(), LiteralForm::Plain))
        } else if chars.len() == 1 && (chars[0] == 'i' || chars[0] == 'j') {
            assert(decorator@ =~= seq![chars@[0]]);
            Ok((Unit::unitless(), LiteralForm::Imaginary))
        } else {
            match Unit::parse_single_unit(decorator) {
                Ok((unit, factor)) => Ok((unit, LiteralForm::Scaled(factor))),
                Err(e) => Err(e),
            }
        }
    }
}

} // verus!
