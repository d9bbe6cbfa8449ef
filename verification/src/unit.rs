//! Physical units as exponent vectors over the seven SI base dimensions.

use vstd::prelude::*;

verus! {

/// An exponent vector over the SI base dimensions.
///
/// Two units are the same unit exactly when all seven exponents agree; the
/// all-zero vector is the unit of a pure number.
#[derive(Debug, Clone, Copy, PartialEq, Eq, Structural)]
pub struct Unit {
    pub mole: i8,
    pub metre: i8,
    pub second: i8,
    pub kilogram: i8,
    pub kelvin: i8,
    pub ampere: i8,
    pub candela: i8,
}

/// Absolute value of a mathematical integer.
#[verifier::opaque]
pub open spec fn abs(x: int) -> int {
    if x < 0 {
        -x
    } else {
        x
    }
}

/// The absolute value is not negative and bounds `x` from both sides.
pub proof fn lemma_abs(x: int)
    ensures
        abs(x) >= 0,
        abs(x) >= x,
        abs(x) >= -x,
{
    reveal(abs);
}

/// The absolute value is `x` or `-x`, whichever is not negative.
pub proof fn lemma_abs_sign(x: int)
    ensures
        x >= 0 ==> abs(x) == x,
        x <= 0 ==> abs(x) == -x,
{
    reveal(abs);
}

/// The absolute value of a sum or difference is at most the sum of the
/// absolute values.
pub proof fn lemma_abs_triangle(a: int, b: int)
    ensures
        abs(a + b) <= abs(a) + abs(b),
        abs(a - b) <= abs(a) + abs(b),
{
    reveal(abs);
}

/// Whether `x` is representable as an exponent.
pub open spec fn fits(x: int) -> bool {
    -128 <= x <= 127
}

impl Unit {
    /// The unit of a pure number, as a mathematical value.
    pub open spec fn spec_unitless() -> Unit {
        Unit { mole: 0, metre: 0, second: 0, kilogram: 0, kelvin: 0, ampere: 0, candela: 0 }
    }

    /// Sum of the absolute values of the exponents.
    pub open spec fn norm(self) -> int {
        abs(self.metre as int) + abs(self.second as int) + abs(self.kilogram as int) + abs(
            self.kelvin as int,
        ) + abs(self.candela as int) + abs(self.mole as int) + abs(self.ampere as int)
    }

    /// Whether the exponent-wise sum of two units is representable.
    pub open spec fn mul_fits(self, rhs: Unit) -> bool {
        &&& fits(self.mole + rhs.mole)
        &&& fits(self.metre + rhs.metre)
        &&& fits(self.second + rhs.second)
        &&& fits(self.kilogram + rhs.kilogram)
        &&& fits(self.kelvin + rhs.kelvin)
        &&& fits(self.ampere + rhs.ampere)
        &&& fits(self.candela + rhs.candela)
    }

    /// Whether the exponent-wise difference of two units is representable.
    pub open spec fn div_fits(self, rhs: Unit) -> bool {
        &&& fits(self.mole - rhs.mole)
        &&& fits(self.metre - rhs.metre)
        &&& fits(self.second - rhs.second)
        &&& fits(self.kilogram - rhs.kilogram)
        &&& fits(self.kelvin - rhs.kelvin)
        &&& fits(self.ampere - rhs.ampere)
        &&& fits(self.candela - rhs.candela)
    }

    /// Whether every exponent times `i` is representable.
    pub open spec fn powi_fits(self, i: i8) -> bool {
        &&& fits(self.mole * i)
        &&& fits(self.metre * i)
        &&& fits(self.second * i)
        &&& fits(self.kilogram * i)
        &&& fits(self.kelvin * i)
        &&& fits(self.ampere * i)
        &&& fits(self.candela * i)
    }

    /// The unit whose exponents are the sums of the operands' exponents.
    pub open spec fn product(self, rhs: Unit) -> Unit {
        Unit {
            mole: (self.mole + rhs.mole) as i8,
            metre: (self.metre + rhs.metre) as i8,
            second: (self.second + rhs.second) as i8,
            kilogram: (self.kilogram + rhs.kilogram) as i8,
            kelvin: (self.kelvin + rhs.kelvin) as i8,
            ampere: (self.ampere + rhs.ampere) as i8,
            candela: (self.candela + rhs.candela) as i8,
        }
    }

    /// The unit whose exponents are the differences of the operands' exponents.
    pub open spec fn quotient(self, rhs: Unit) -> Unit {
        Unit {
            mole: (self.mole - rhs.mole) as i8,
            metre: (self.metre - rhs.metre) as i8,
            second: (self.second - rhs.second) as i8,
            kilogram: (self.kilogram - rhs.kilogram) as i8,
            kelvin: (self.kelvin - rhs.kelvin) as i8,
            ampere: (self.ampere - rhs.ampere) as i8,
            candela: (self.candela - rhs.candela) as i8,
        }
    }

    /// The unit whose exponents are those of `self` times `i`.
    pub open spec fn power(self, i: i8) -> Unit {
        Unit {
            mole: (self.mole * i) as i8,
            metre: (self.metre * i) as i8,
            second: (self.second * i) as i8,
            kilogram: (self.kilogram * i) as i8,
            kelvin: (self.kelvin * i) as i8,
            ampere: (self.ampere * i) as i8,
            candela: (self.candela * i) as i8,
        }
    }

    /// Every exponent's absolute value is between zero and the norm.
    pub proof fn lemma_norm_parts(self)
        ensures
            0 <= abs(self.metre as int) <= self.norm(),
            0 <= abs(self.second as int) <= self.norm(),
            0 <= abs(self.kilogram as int) <= self.norm(),
            0 <= abs(self.kelvin as int) <= self.norm(),
            0 <= abs(self.candela as int) <= self.norm(),
            0 <= abs(self.mole as int) <= self.norm(),
            0 <= abs(self.ampere as int) <= self.norm(),
            -self.norm() <= self.metre <= self.norm(),
            -self.norm() <= self.second <= self.norm(),
            -self.norm() <= self.kilogram <= self.norm(),
            -self.norm() <= self.kelvin <= self.norm(),
            -self.norm() <= self.candela <= self.norm(),
            -self.norm() <= self.mole <= self.norm(),
            -self.norm() <= self.ampere <= self.norm(),
    {
        lemma_abs(self.metre as int);
        lemma_abs(self.second as int);
        lemma_abs(self.kilogram as int);
        lemma_abs(self.kelvin as int);
        lemma_abs(self.candela as int);
        lemma_abs(self.mole as int);
        lemma_abs(self.ampere as int);
    }

    /// Only the unit of a pure number has norm zero.
    pub proof fn lemma_norm_zero(self)
        ensures
            self.norm() == 0 <==> self == Unit::spec_unitless(),
    {
        reveal(abs);
    }

    /// The unit of a pure number.
    pub fn unitless() -> (u: Unit)
        ensures
            u == Unit::spec_unitless(),
    {
        Unit { mole: 0, metre: 0, second: 0, kilogram: 0, kelvin: 0, ampere: 0, candela: 0 }
    }

    /// Whether this is the unit of a pure number.
    pub fn is_unitless(&self) -> (b: bool)
        ensures
            b == (*self == Unit::spec_unitless()),
    {
        self.mole == 0 && self.metre == 0 && self.second == 0 && self.kilogram == 0
            && self.kelvin == 0 && self.ampere == 0 && self.candela == 0
    }

    /// Exact comparison of the exponent vectors.
    pub fn same(&self, other: &Unit) -> (b: bool)
        ensures
            b == (*self == *other),
    {
        self.mole == other.mole && self.metre == other.metre && self.second == other.second
            && self.kilogram == other.kilogram && self.kelvin == other.kelvin && self.ampere
            == other.ampere && self.candela == other.candela
    }

    /// Raises the unit to an integer power by multiplying every exponent.
    pub fn powi(&self, i: i8) -> (r: Unit)
        requires
            self.powi_fits(i),
        ensures
            r == self.power(i),
    {
        Unit {
            metre: self.metre * i,
            second: self.second * i,
            kilogram: self.kilogram * i,
            kelvin: self.kelvin * i,
            candela: self.candela * i,
            mole: self.mole * i,
            ampere: self.ampere * i,
        }
    }

    /// Like [`Unit::powi`], but reports an unrepresentable exponent as `None`.
    pub fn checked_powi(&self, i: i8) -> (r: Option<Unit>)
        ensures
            r == (if self.powi_fits(i) {
                Some(self.power(i))
            } else {
                None
            }),
    {
        let mole = times(self.mole, i);
        let metre = times(self.metre, i);
        let second = times(self.second, i);
        let kilogram = times(self.kilogram, i);
        let kelvin = times(self.kelvin, i);
        let ampere = times(self.ampere, i);
        let candela = times(self.candela, i);
        match (mole, metre, second, kilogram, kelvin, ampere, candela) {
            (Some(mole), Some(metre), Some(second), Some(kilogram), Some(kelvin), Some(ampere), Some(candela)) => {
                Some(Unit { mole, metre, second, kilogram, kelvin, ampere, candela })
            },
            _ => None,
        }
    }

    /// The taxi norm: the sum of the absolute values of the exponents.
    pub fn taxi_norm(&self) -> (n: i8)
        requires
            self.norm() <= 127,
        ensures
            n == self.norm(),
    {
        proof {
            self.lemma_norm_parts();
        }
        magnitude(self.metre) + magnitude(self.second) + magnitude(self.kilogram) + magnitude(
            self.kelvin,
        ) + magnitude(self.candela) + magnitude(self.mole) + magnitude(self.ampere)
    }

    /// The taxi norm in a type wide enough for every unit.
    pub fn wide_taxi_norm(&self) -> (n: u16)
        ensures
            n == self.norm(),
    {
        proof {
            self.lemma_norm_parts();
        }
        wide_magnitude(self.metre) + wide_magnitude(self.second) + wide_magnitude(self.kilogram)
            + wide_magnitude(self.kelvin) + wide_magnitude(self.candela) + wide_magnitude(
            self.mole,
        ) + wide_magnitude(self.ampere)
    }

    /// Product of two units: exponents add.
    pub fn mul(self, rhs: Unit) -> (r: Unit)
        requires
            self.mul_fits(rhs),
        ensures
            r == self.product(rhs),
    {
        Unit {
            mole: self.mole + rhs.mole,
            metre: self.metre + rhs.metre,
            second: self.second + rhs.second,
            kilogram: self.kilogram + rhs.kilogram,
            kelvin: self.kelvin + rhs.kelvin,
            ampere: self.ampere + rhs.ampere,
            candela: self.candela + rhs.candela,
        }
    }

    /// Quotient of two units: exponents subtract.
    pub fn div(self, rhs: Unit) -> (r: Unit)
        requires
            self.div_fits(rhs),
        ensures
            r == self.quotient(rhs),
    {
        Unit {
            mole: self.mole - rhs.mole,
            metre: self.metre - rhs.metre,
            second: self.second - rhs.second,
            kilogram: self.kilogram - rhs.kilogram,
            kelvin: self.kelvin - rhs.kelvin,
            ampere: self.ampere - rhs.ampere,
            candela: self.candela - rhs.candela,
        }
    }

    /// Like [`Unit::mul`], but reports an unrepresentable exponent as `None`.
    pub fn checked_mul(self, rhs: Unit) -> (r: Option<Unit>)
        ensures
            r == (if self.mul_fits(rhs) {
                Some(self.product(rhs))
            } else {
                None
            }),
    {
        let mole = plus(self.mole, rhs.mole);
        let metre = plus(self.metre, rhs.metre);
        let second = plus(self.second, rhs.second);
        let kilogram = plus(self.kilogram, rhs.kilogram);
        let kelvin = plus(self.kelvin, rhs.kelvin);
        let ampere = plus(self.ampere, rhs.ampere);
        let candela = plus(self.candela, rhs.candela);
        match (mole, metre, second, kilogram, kelvin, ampere, candela) {
            (Some(mole), Some(metre), Some(second), Some(kilogram), Some(kelvin), Some(ampere), Some(candela)) => {
                Some(Unit { mole, metre, second, kilogram, kelvin, ampere, candela })
            },
            _ => None,
        }
    }

    /// Like [`Unit::div`], but reports an unrepresentable exponent as `None`.
    pub fn checked_div(self, rhs: Unit) -> (r: Option<Unit>)
        ensures
            r == (if self.div_fits(rhs) {
                Some(self.quotient(rhs))
            } else {
                None
            }),
    {
        let mole = minus(self.mole, rhs.mole);
        let metre = minus(self.metre, rhs.metre);
        let second = minus(self.second, rhs.second);
        let kilogram = minus(self.kilogram, rhs.kilogram);
        let kelvin = minus(self.kelvin, rhs.kelvin);
        let ampere = minus(self.ampere, rhs.ampere);
        let candela = minus(self.candela, rhs.candela);
        match (mole, metre, second, kilogram, kelvin, ampere, candela) {
            (Some(mole), Some(metre), Some(second), Some(kilogram), Some(kelvin), Some(ampere), Some(candela)) => {
                Some(Unit { mole, metre, second, kilogram, kelvin, ampere, candela })
            },
            _ => None,
        }
    }
}

fn magnitude(x: i8) -> (r: i8)
    requires
        x > -128,
    ensures
        r == abs(x as int),
{
    reveal(abs);
    if x < 0 {
        -x
    } else {
        x
    }
}

fn wide_magnitude(x: i8) -> (r: u16)
    ensures
        r == abs(x as int),
        r <= 128,
{
    reveal(abs);
    let w: i16 = x as i16;
    if w < 0 {
        (-w) as u16
    } else {
        w as u16
    }
}

fn plus(a: i8, b: i8) -> (r: Option<i8>)
    ensures
        r == (if fits(a + b) {
            Some((a + b) as i8)
        } else {
            None
        }),
{
    let s: i16 = a as i16 + b as i16;
    if -128 <= s && s <= 127 {
        Some(s as i8)
    } else {
        None
    }
}

fn minus(a: i8, b: i8) -> (r: Option<i8>)
    ensures
        r == (if fits(a - b) {
            Some((a - b) as i8)
        } else {
            None
        }),
{
    let s: i16 = a as i16 - b as i16;
    if -128 <= s && s <= 127 {
        Some(s as i8)
    } else {
        None
    }
}

fn times(a: i8, b: i8) -> (r: Option<i8>)
    ensures
        r == (if fits(a * b) {
            Some((a * b) as i8)
        } else {
            None
        }),
{
    assert(-128 * 128 <= a * b <= 128 * 128) by (nonlinear_arith)
        requires
            -128 <= a <= 127,
            -128 <= b <= 127,
    ;
    let s: i16 = a as i16 * b as i16;
    if -128 <= s && s <= 127 {
        Some(s as i8)
    } else {
        None
    }
}

/// Products and quotients of units follow exponent arithmetic whenever the
/// exponents stay representable: dividing a product by one factor gives back
/// the other factor.
pub proof fn lemma_mul_div_inverse(a: Unit, b: Unit)
    requires
        a.mul_fits(b),
    ensures
        a.product(b).div_fits(b),
        a.product(b).quotient(b) == a,
        a.product(b).mole == a.mole + b.mole,
        a.product(b).metre == a.metre + b.metre,
        a.product(b).second == a.second + b.second,
        a.product(b).kilogram == a.kilogram + b.kilogram,
        a.product(b).kelvin == a.kelvin + b.kelvin,
        a.product(b).ampere == a.ampere + b.ampere,
        a.product(b).candela == a.candela + b.candela,
{
}

} // verus!
