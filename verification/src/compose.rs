//! Canonical rendering of a unit as a product of named units.
//!
//! A unit is decomposed greedily over a fixed catalogue of derived and base
//! units: each round takes the catalogue entry that, multiplied or divided
//! into the remainder, lowers the remainder's taxi norm the most.

use vstd::prelude::*;
use crate::unit::{Unit, abs, lemma_abs, lemma_abs_sign, lemma_abs_triangle};
use crate::text::{superscript, push_superscript, push_all, string_from_chars};

verus! {

/// Largest taxi norm for which the greedy decomposition stays within the
/// exponent range at every step.
pub const MAX_COMPOSABLE_NORM: u16 = 118;

/// Number of entries in the catalogue.
pub const CATALOGUE_LEN: usize = 20;

/// The unit with the given exponents, in the order kilogram, metre, second,
/// mole, kelvin, ampere, candela.
pub open spec fn exponents(
    kilogram: int,
    metre: int,
    second: int,
    mole: int,
    kelvin: int,
    ampere: int,
    candela: int,
) -> Unit {
    Unit {
        kilogram: kilogram as i8,
        metre: metre as i8,
        second: second as i8,
        mole: mole as i8,
        kelvin: kelvin as i8,
        ampere: ampere as i8,
        candela: candela as i8,
    }
}

/// The catalogue of named units, in scan order: thirteen derived units, then
/// the seven base units.
pub open spec fn catalogue(k: int) -> Unit {
    if k == 0 {
        exponents(1, 1, -2, 0, 0, 0, 0)
    } else if k == 1 {
        exponents(1, -1, -2, 0, 0, 0, 0)
    } else if k == 2 {
        exponents(1, 2, -2, 0, 0, 0, 0)
    } else if k == 3 {
        exponents(1, 2, -3, 0, 0, 0, 0)
    } else if k == 4 {
        exponents(0, 0, 1, 0, 0, 1, 0)
    } else if k == 5 {
        exponents(1, 2, -3, 0, 0, -1, 0)
    } else if k == 6 {
        exponents(-1, -2, 4, 0, 0, 2, 0)
    } else if k == 7 {
        exponents(1, 2, -3, 0, 0, -2, 0)
    } else if k == 8 {
        exponents(-1, -2, 3, 0, 0, 2, 0)
    } else if k == 9 {
        exponents(1, 2, -2, 0, 0, -1, 0)
    } else if k == 10 {
        exponents(1, 0, -2, 0, 0, -1, 0)
    } else if k == 11 {
        exponents(1, 2, -2, 0, 0, -2, 0)
    } else if k == 12 {
        exponents(0, -2, 0, 0, 0, 0, 1)
    } else if k == 13 {
        exponents(1, 0, 0, 0, 0, 0, 0)
    } else if k == 14 {
        exponents(0, 1, 0, 0, 0, 0, 0)
    } else if k == 15 {
        exponents(0, 0, 1, 0, 0, 0, 0)
    } else if k == 16 {
        exponents(0, 0, 0, 1, 0, 0, 0)
    } else if k == 17 {
        exponents(0, 0, 0, 0, 1, 0, 0)
    } else if k == 18 {
        exponents(0, 0, 0, 0, 0, 1, 0)
    } else {
        exponents(0, 0, 0, 0, 0, 0, 1)
    }
}

/// Whether every exponent of `u` lies between `-bound` and `bound`.
pub open spec fn within(u: Unit, bound: int) -> bool {
    &&& -bound <= u.kilogram <= bound
    &&& -bound <= u.metre <= bound
    &&& -bound <= u.second <= bound
    &&& -bound <= u.mole <= bound
    &&& -bound <= u.kelvin <= bound
    &&& -bound <= u.ampere <= bound
    &&& -bound <= u.candela <= bound
}

/// The remainder left by candidate `k` of a round. Candidates `0..20` put a
/// catalogue entry into the numerator of the rendering (the remainder is
/// divided by it); candidates `20..40` put it into the denominator.
#[verifier::opaque]
pub open spec fn candidate(current: Unit, k: int) -> Unit {
    if k < 20 {
        current.quotient(catalogue(k))
    } else {
        current.product(catalogue(k - 20))
    }
}

/// The exponent that candidate `k` adds to its catalogue entry.
pub open spec fn candidate_sign(k: int) -> int {
    if k < 20 {
        1
    } else {
        -1
    }
}

/// Whether candidate `k` is the one a round selects: it lowers the norm, no
/// candidate gives a lower norm, and every earlier candidate gives a strictly
/// higher one.
pub open spec fn is_best(current: Unit, k: int) -> bool {
    &&& 0 <= k < 40
    &&& candidate(current, k).norm() < current.norm()
    &&& forall|j: int| 0 <= j < 40 ==> candidate(current, k).norm() <= #[trigger] candidate(current, j).norm()
    &&& forall|j: int| 0 <= j < k ==> candidate(current, k).norm() < #[trigger] candidate(current, j).norm()
}

/// The candidate that a round selects, or `-1` if none lowers the norm.
pub open spec fn best(current: Unit) -> int {
    if exists|k: int| is_best(current, k) {
        choose|k: int| is_best(current, k)
    } else {
        -1
    }
}

/// Signed exponents of the catalogue entries that make up a unit.
#[derive(Debug, Clone, Copy, PartialEq, Eq, Structural)]
pub struct ComposedUnit {
    pub newton: i8,
    pub pascal: i8,
    pub joule: i8,
    pub watt: i8,
    pub coulomb: i8,
    pub volt: i8,
    pub farad: i8,
    pub ohm: i8,
    pub siemens: i8,
    pub weber: i8,
    pub tesla: i8,
    pub henry: i8,
    pub lux: i8,
    pub kilogram: i8,
    pub metre: i8,
    pub second: i8,
    pub mole: i8,
    pub kelvin: i8,
    pub ampere: i8,
    pub candela: i8,
}

impl ComposedUnit {
    /// The decomposition with every exponent zero.
    pub open spec fn spec_empty() -> ComposedUnit {
        ComposedUnit {
            newton: 0,
            pascal: 0,
            joule: 0,
            watt: 0,
            coulomb: 0,
            volt: 0,
            farad: 0,
            ohm: 0,
            siemens: 0,
            weber: 0,
            tesla: 0,
            henry: 0,
            lux: 0,
            kilogram: 0,
            metre: 0,
            second: 0,
            mole: 0,
            kelvin: 0,
            ampere: 0,
            candela: 0,
        }
    }

    /// The exponent of catalogue entry `k`.
    pub open spec fn count(self, k: int) -> int {
        if k == 0 {
            self.newton as int
        } else if k == 1 {
            self.pascal as int
        } else if k == 2 {
            self.joule as int
        } else if k == 3 {
            self.watt as int
        } else if k == 4 {
            self.coulomb as int
        } else if k == 5 {
            self.volt as int
        } else if k == 6 {
            self.farad as int
        } else if k == 7 {
            self.ohm as int
        } else if k == 8 {
            self.siemens as int
        } else if k == 9 {
            self.weber as int
        } else if k == 10 {
            self.tesla as int
        } else if k == 11 {
            self.henry as int
        } else if k == 12 {
            self.lux as int
        } else if k == 13 {
            self.kilogram as int
        } else if k == 14 {
            self.metre as int
        } else if k == 15 {
            self.second as int
        } else if k == 16 {
            self.mole as int
        } else if k == 17 {
            self.kelvin as int
        } else if k == 18 {
            self.ampere as int
        } else {
            self.candela as int
        }
    }

    /// The decomposition with the exponent of entry `k` replaced by `v`.
    pub open spec fn with_count(self, k: int, v: i8) -> ComposedUnit {
        if k == 0 {
            ComposedUnit { newton: v, ..self }
        } else if k == 1 {
            ComposedUnit { pascal: v, ..self }
        } else if k == 2 {
            ComposedUnit { joule: v, ..self }
        } else if k == 3 {
            ComposedUnit { watt: v, ..self }
        } else if k == 4 {
            ComposedUnit { coulomb: v, ..self }
        } else if k == 5 {
            ComposedUnit { volt: v, ..self }
        } else if k == 6 {
            ComposedUnit { farad: v, ..self }
        } else if k == 7 {
            ComposedUnit { ohm: v, ..self }
        } else if k == 8 {
            ComposedUnit { siemens: v, ..self }
        } else if k == 9 {
            ComposedUnit { weber: v, ..self }
        } else if k == 10 {
            ComposedUnit { tesla: v, ..self }
        } else if k == 11 {
            ComposedUnit { henry: v, ..self }
        } else if k == 12 {
            ComposedUnit { lux: v, ..self }
        } else if k == 13 {
            ComposedUnit { kilogram: v, ..self }
        } else if k == 14 {
            ComposedUnit { metre: v, ..self }
        } else if k == 15 {
            ComposedUnit { second: v, ..self }
        } else if k == 16 {
            ComposedUnit { mole: v, ..self }
        } else if k == 17 {
            ComposedUnit { kelvin: v, ..self }
        } else if k == 18 {
            ComposedUnit { ampere: v, ..self }
        } else {
            ComposedUnit { candela: v, ..self }
        }
    }

    /// The decomposition after a round selected candidate `k`.
    pub open spec fn bumped(self, k: int) -> ComposedUnit {
        let entry = if k < 20 {
            k
        } else {
            k - 20
        };
        self.with_count(entry, (self.count(entry) + candidate_sign(k)) as i8)
    }

    /// Sum of the absolute values of all exponents.
    pub open spec fn weight(self) -> int {
        abs(self.newton as int) + abs(self.pascal as int)
            + abs(self.joule as int) + abs(self.watt as int)
            + abs(self.coulomb as int) + abs(self.volt as int)
            + abs(self.farad as int) + abs(self.ohm as int)
            + abs(self.siemens as int) + abs(self.weber as int)
            + abs(self.tesla as int) + abs(self.henry as int)
            + abs(self.lux as int) + abs(self.kilogram as int)
            + abs(self.metre as int) + abs(self.second as int)
            + abs(self.mole as int) + abs(self.kelvin as int)
            + abs(self.ampere as int) + abs(self.candela as int)
    }

    /// Kilogram exponent of the unit that the decomposition multiplies out to.
    pub open spec fn kilograms(self) -> int {
        self.newton + self.pascal + self.joule + self.watt + self.volt - self.farad + self.ohm
            - self.siemens + self.weber + self.tesla + self.henry + self.kilogram
    }

    /// Metre exponent of the unit that the decomposition multiplies out to.
    pub open spec fn metres(self) -> int {
        self.newton - self.pascal + 2 * self.joule + 2 * self.watt + 2 * self.volt - 2
            * self.farad + 2 * self.ohm - 2 * self.siemens + 2 * self.weber + 2 * self.henry - 2
            * self.lux + self.metre
    }

    /// Second exponent of the unit that the decomposition multiplies out to.
    pub open spec fn seconds(self) -> int {
        -2 * self.newton - 2 * self.pascal - 2 * self.joule - 3 * self.watt + self.coulomb - 3
            * self.volt + 4 * self.farad - 3 * self.ohm + 3 * self.siemens - 2 * self.weber - 2
            * self.tesla - 2 * self.henry + self.second
    }

    /// Ampere exponent of the unit that the decomposition multiplies out to.
    pub open spec fn amperes(self) -> int {
        self.coulomb - self.volt + 2 * self.farad - 2 * self.ohm + 2 * self.siemens - self.weber
            - self.tesla - 2 * self.henry + self.ampere
    }

    /// Candela exponent of the unit that the decomposition multiplies out to.
    pub open spec fn candelas(self) -> int {
        self.lux + self.candela
    }

    /// Whether multiplying out the decomposition and then multiplying by
    /// `rest` gives `whole`.
    pub open spec fn completes(self, rest: Unit, whole: Unit) -> bool {
        &&& whole.kilogram == self.kilograms() + rest.kilogram
        &&& whole.metre == self.metres() + rest.metre
        &&& whole.second == self.seconds() + rest.second
        &&& whole.ampere == self.amperes() + rest.ampere
        &&& whole.candela == self.candelas() + rest.candela
        &&& whole.mole == self.mole + rest.mole
        &&& whole.kelvin == self.kelvin + rest.kelvin
    }

    /// Whether the decomposition multiplies out to `unit`.
    pub open spec fn denotes(self, unit: Unit) -> bool {
        self.completes(Unit::spec_unitless(), unit)
    }

    /// The decomposition with every exponent zero.
    pub fn empty() -> (r: ComposedUnit)
        ensures
            r == ComposedUnit::spec_empty(),
    {
        ComposedUnit {
            newton: 0,
            pascal: 0,
            joule: 0,
            watt: 0,
            coulomb: 0,
            volt: 0,
            farad: 0,
            ohm: 0,
            siemens: 0,
            weber: 0,
            tesla: 0,
            henry: 0,
            lux: 0,
            kilogram: 0,
            metre: 0,
            second: 0,
            mole: 0,
            kelvin: 0,
            ampere: 0,
            candela: 0,
        }
    }

    /// The exponent of catalogue entry `k`.
    pub fn get(&self, k: usize) -> (v: i8)
        requires
            k < 20,
        ensures
            v == self.count(k as int),
    {
        if k == 0 {
            self.newton
        } else if k == 1 {
            self.pascal
        } else if k == 2 {
            self.joule
        } else if k == 3 {
            self.watt
        } else if k == 4 {
            self.coulomb
        } else if k == 5 {
            self.volt
        } else if k == 6 {
            self.farad
        } else if k == 7 {
            self.ohm
        } else if k == 8 {
            self.siemens
        } else if k == 9 {
            self.weber
        } else if k == 10 {
            self.tesla
        } else if k == 11 {
            self.henry
        } else if k == 12 {
            self.lux
        } else if k == 13 {
            self.kilogram
        } else if k == 14 {
            self.metre
        } else if k == 15 {
            self.second
        } else if k == 16 {
            self.mole
        } else if k == 17 {
            self.kelvin
        } else if k == 18 {
            self.ampere
        } else {
            self.candela
        }
    }

    /// Replaces the exponent of catalogue entry `k`.
    pub fn set(&mut self, k: usize, v: i8)
        requires
            k < 20,
        ensures
            *final(self) == old(self).with_count(k as int, v),
    {
        if k == 0 {
            self.newton = v;
        } else if k == 1 {
            self.pascal = v;
        } else if k == 2 {
            self.joule = v;
        } else if k == 3 {
            self.watt = v;
        } else if k == 4 {
            self.coulomb = v;
        } else if k == 5 {
            self.volt = v;
        } else if k == 6 {
            self.farad = v;
        } else if k == 7 {
            self.ohm = v;
        } else if k == 8 {
            self.siemens = v;
        } else if k == 9 {
            self.weber = v;
        } else if k == 10 {
            self.tesla = v;
        } else if k == 11 {
            self.henry = v;
        } else if k == 12 {
            self.lux = v;
        } else if k == 13 {
            self.kilogram = v;
        } else if k == 14 {
            self.metre = v;
        } else if k == 15 {
            self.second = v;
        } else if k == 16 {
            self.mole = v;
        } else if k == 17 {
            self.kelvin = v;
        } else if k == 18 {
            self.ampere = v;
        } else {
            self.candela = v;
        }
    }
}

/// The decomposition that the greedy rounds reach from remainder `current`
/// and partial result `acc`.
pub open spec fn compose_from(current: Unit, acc: ComposedUnit) -> ComposedUnit
    decreases current.norm(),
{
    let k = best(current);
    if k < 0 || candidate(current, k).norm() >= current.norm() {
        acc
    } else {
        proof {
            candidate(current, k).lemma_norm_parts();
        }
        compose_from(candidate(current, k), acc.bumped(k))
    }
}

impl Unit {
    /// The greedy decomposition of this unit over the catalogue.
    pub open spec fn composed(self) -> ComposedUnit {
        compose_from(self, ComposedUnit::spec_empty())
    }
}

/// Catalogue entry `k`.
pub fn catalogue_entry(k: usize) -> (u: Unit)
    requires
        k < 20,
    ensures
        u == catalogue(k as int),
        u.norm() <= 9,
        within(u, 4),
{
    reveal(abs);
    if k == 0 {
        Unit { kilogram: 1, metre: 1, second: -2, mole: 0, kelvin: 0, ampere: 0, candela: 0 }
    } else if k == 1 {
        Unit { kilogram: 1, metre: -1, second: -2, mole: 0, kelvin: 0, ampere: 0, candela: 0 }
    } else if k == 2 {
        Unit { kilogram: 1, metre: 2, second: -2, mole: 0, kelvin: 0, ampere: 0, candela: 0 }
    } else if k == 3 {
        Unit { kilogram: 1, metre: 2, second: -3, mole: 0, kelvin: 0, ampere: 0, candela: 0 }
    } else if k == 4 {
        Unit { kilogram: 0, metre: 0, second: 1, mole: 0, kelvin: 0, ampere: 1, candela: 0 }
    } else if k == 5 {
        Unit { kilogram: 1, metre: 2, second: -3, mole: 0, kelvin: 0, ampere: -1, candela: 0 }
    } else if k == 6 {
        Unit { kilogram: -1, metre: -2, second: 4, mole: 0, kelvin: 0, ampere: 2, candela: 0 }
    } else if k == 7 {
        Unit { kilogram: 1, metre: 2, second: -3, mole: 0, kelvin: 0, ampere: -2, candela: 0 }
    } else if k == 8 {
        Unit { kilogram: -1, metre: -2, second: 3, mole: 0, kelvin: 0, ampere: 2, candela: 0 }
    } else if k == 9 {
        Unit { kilogram: 1, metre: 2, second: -2, mole: 0, kelvin: 0, ampere: -1, candela: 0 }
    } else if k == 10 {
        Unit { kilogram: 1, metre: 0, second: -2, mole: 0, kelvin: 0, ampere: -1, candela: 0 }
    } else if k == 11 {
        Unit { kilogram: 1, metre: 2, second: -2, mole: 0, kelvin: 0, ampere: -2, candela: 0 }
    } else if k == 12 {
        Unit { kilogram: 0, metre: -2, second: 0, mole: 0, kelvin: 0, ampere: 0, candela: 1 }
    } else if k == 13 {
        Unit { kilogram: 1, metre: 0, second: 0, mole: 0, kelvin: 0, ampere: 0, candela: 0 }
    } else if k == 14 {
        Unit { kilogram: 0, metre: 1, second: 0, mole: 0, kelvin: 0, ampere: 0, candela: 0 }
    } else if k == 15 {
        Unit { kilogram: 0, metre: 0, second: 1, mole: 0, kelvin: 0, ampere: 0, candela: 0 }
    } else if k == 16 {
        Unit { kilogram: 0, metre: 0, second: 0, mole: 1, kelvin: 0, ampere: 0, candela: 0 }
    } else if k == 17 {
        Unit { kilogram: 0, metre: 0, second: 0, mole: 0, kelvin: 1, ampere: 0, candela: 0 }
    } else if k == 18 {
        Unit { kilogram: 0, metre: 0, second: 0, mole: 0, kelvin: 0, ampere: 1, candela: 0 }
    } else {
        Unit { kilogram: 0, metre: 0, second: 0, mole: 0, kelvin: 0, ampere: 0, candela: 1 }
    }
}

/// A round's selection is unique: two candidates that both meet `is_best`
/// are the same candidate.
pub proof fn lemma_best_unique(current: Unit, a: int, b: int)
    requires
        is_best(current, a),
        is_best(current, b),
    ensures
        a == b,
{
    if a < b {
        assert(candidate(current, b).norm() < candidate(current, a).norm());
        assert(candidate(current, a).norm() <= candidate(current, b).norm());
    } else if b < a {
        assert(candidate(current, a).norm() < candidate(current, b).norm());
        assert(candidate(current, b).norm() <= candidate(current, a).norm());
    }
}

/// Every unit other than the pure number has a candidate that lowers its
/// norm: one of the base units, multiplied or divided in.
pub proof fn lemma_some_candidate_improves(current: Unit)
    requires
        0 < current.norm() <= MAX_COMPOSABLE_NORM,
    ensures
        exists|j: int| 0 <= j < 40 && #[trigger] candidate(current, j).norm() < current.norm(),
{
    reveal(candidate);
    lemma_within_norm(current);
    current.lemma_norm_zero();
    if current.kilogram > 0 {
        lemma_abs_sign(current.kilogram as int);
        lemma_abs_sign(current.kilogram - 1);
        assert(candidate(current, 13).norm() < current.norm());
    } else if current.kilogram < 0 {
        lemma_abs_sign(current.kilogram as int);
        lemma_abs_sign(current.kilogram + 1);
        assert(candidate(current, 33).norm() < current.norm());
    } else if current.metre > 0 {
        lemma_abs_sign(current.metre as int);
        lemma_abs_sign(current.metre - 1);
        assert(candidate(current, 14).norm() < current.norm());
    } else if current.metre < 0 {
        lemma_abs_sign(current.metre as int);
        lemma_abs_sign(current.metre + 1);
        assert(candidate(current, 34).norm() < current.norm());
    } else if current.second > 0 {
        lemma_abs_sign(current.second as int);
        lemma_abs_sign(current.second - 1);
        assert(candidate(current, 15).norm() < current.norm());
    } else if current.second < 0 {
        lemma_abs_sign(current.second as int);
        lemma_abs_sign(current.second + 1);
        assert(candidate(current, 35).norm() < current.norm());
    } else if current.mole > 0 {
        lemma_abs_sign(current.mole as int);
        lemma_abs_sign(current.mole - 1);
        assert(candidate(current, 16).norm() < current.norm());
    } else if current.mole < 0 {
        lemma_abs_sign(current.mole as int);
        lemma_abs_sign(current.mole + 1);
        assert(candidate(current, 36).norm() < current.norm());
    } else if current.kelvin > 0 {
        lemma_abs_sign(current.kelvin as int);
        lemma_abs_sign(current.kelvin - 1);
        assert(candidate(current, 17).norm() < current.norm());
    } else if current.kelvin < 0 {
        lemma_abs_sign(current.kelvin as int);
        lemma_abs_sign(current.kelvin + 1);
        assert(candidate(current, 37).norm() < current.norm());
    } else if current.ampere > 0 {
        lemma_abs_sign(current.ampere as int);
        lemma_abs_sign(current.ampere - 1);
        assert(candidate(current, 18).norm() < current.norm());
    } else if current.ampere < 0 {
        lemma_abs_sign(current.ampere as int);
        lemma_abs_sign(current.ampere + 1);
        assert(candidate(current, 38).norm() < current.norm());
    } else if current.candela > 0 {
        lemma_abs_sign(current.candela as int);
        lemma_abs_sign(current.candela - 1);
        assert(candidate(current, 19).norm() < current.norm());
    } else if current.candela < 0 {
        lemma_abs_sign(current.candela as int);
        lemma_abs_sign(current.candela + 1);
        assert(candidate(current, 39).norm() < current.norm());
    }
}

/// The remainder that candidate `k` leaves.
fn try_candidate(current: &Unit, k: usize) -> (r: Unit)
    requires
        current.norm() <= MAX_COMPOSABLE_NORM,
        k < 40,
    ensures
        r == candidate(*current, k as int),
        r.norm() <= 127,
{
    let entry = catalogue_entry(
        if k < 20 {
            k
        } else {
            k - 20
        },
    );
    proof {
        reveal(candidate);
        lemma_within_norm(*current);
    }
    let r = if k < 20 {
        current.div(entry)
    } else {
        current.mul(entry)
    };
    proof {
        lemma_triangle(*current, entry);
    }
    r
}

/// No exponent exceeds the norm in absolute value.
pub proof fn lemma_within_norm(u: Unit)
    ensures
        within(u, u.norm()),
{
    u.lemma_norm_parts();
    lemma_abs(u.metre as int);
    lemma_abs(u.second as int);
    lemma_abs(u.kilogram as int);
    lemma_abs(u.kelvin as int);
    lemma_abs(u.candela as int);
    lemma_abs(u.mole as int);
    lemma_abs(u.ampere as int);
}

/// The norm of a product or quotient is at most the sum of the norms.
pub proof fn lemma_triangle(a: Unit, b: Unit)
    requires
        a.mul_fits(b),
        a.div_fits(b),
    ensures
        a.product(b).norm() <= a.norm() + b.norm(),
        a.quotient(b).norm() <= a.norm() + b.norm(),
{
    lemma_abs_triangle(a.metre as int, b.metre as int);
    lemma_abs_triangle(a.second as int, b.second as int);
    lemma_abs_triangle(a.kilogram as int, b.kilogram as int);
    lemma_abs_triangle(a.kelvin as int, b.kelvin as int);
    lemma_abs_triangle(a.candela as int, b.candela as int);
    lemma_abs_triangle(a.mole as int, b.mole as int);
    lemma_abs_triangle(a.ampere as int, b.ampere as int);
}

/// One round of the greedy search: scans the forty candidates in order and
/// keeps the first one that reaches the lowest norm.
pub fn best_candidate(current: &Unit) -> (r: (usize, Unit))
    requires
        0 < current.norm() <= MAX_COMPOSABLE_NORM,
    ensures
        is_best(*current, r.0 as int),
        r.0 as int == best(*current),
        r.1 == candidate(*current, r.0 as int),
{
    let mut chosen: usize = 40;
    let mut next: Unit = *current;
    let mut lowest: i8 = current.taxi_norm();
    let mut k: usize = 0;
    while k < 40
        invariant
            0 < current.norm() <= MAX_COMPOSABLE_NORM,
            k <= 40,
            chosen <= 40,
            chosen == 40 ==> lowest == current.norm(),
            chosen < 40 ==> chosen < k && next == candidate(*current, chosen as int) && lowest
                == next.norm() && lowest < current.norm(),
            forall|j: int| 0 <= j < k ==> lowest <= #[trigger] candidate(*current, j).norm(),
            chosen < 40 ==> forall|j: int|
                0 <= j < chosen ==> lowest < #[trigger] candidate(*current, j).norm(),
        decreases 40 - k,
    {
        let remainder = try_candidate(current, k);
        let this_norm = remainder.taxi_norm();
        if this_norm < lowest {
            chosen = k;
            next = remainder;
            lowest = this_norm;
        }
        k += 1;
    }
    proof {
        lemma_some_candidate_improves(*current);
        assert(is_best(*current, chosen as int));
        let b = best(*current);
        lemma_best_unique(*current, b, chosen as int);
    }
    (chosen, next)
}

/// No exponent of a decomposition exceeds its weight in absolute value.
proof fn lemma_within_weight(acc: ComposedUnit)
    ensures
        forall|e: int| 0 <= e < 20 ==> -acc.weight() <= #[trigger] acc.count(e) <= acc.weight(),
{
    lemma_abs(acc.newton as int);
    lemma_abs(acc.pascal as int);
    lemma_abs(acc.joule as int);
    lemma_abs(acc.watt as int);
    lemma_abs(acc.coulomb as int);
    lemma_abs(acc.volt as int);
    lemma_abs(acc.farad as int);
    lemma_abs(acc.ohm as int);
    lemma_abs(acc.siemens as int);
    lemma_abs(acc.weber as int);
    lemma_abs(acc.tesla as int);
    lemma_abs(acc.henry as int);
    lemma_abs(acc.lux as int);
    lemma_abs(acc.kilogram as int);
    lemma_abs(acc.metre as int);
    lemma_abs(acc.second as int);
    lemma_abs(acc.mole as int);
    lemma_abs(acc.kelvin as int);
    lemma_abs(acc.ampere as int);
    lemma_abs(acc.candela as int);
}

/// Taking candidate `k` keeps the decomposition and the remainder in step
/// with the whole unit.
#[verifier::rlimit(100)]
#[verifier::spinoff_prover]
proof fn lemma_bumped_completes(acc: ComposedUnit, current: Unit, whole: Unit, k: int)
    requires
        0 <= k < 40,
        within(current, 118),
        acc.completes(current, whole),
        forall|e: int| 0 <= e < 20 ==> -118 < #[trigger] acc.count(e) < 118,
    ensures
        acc.bumped(k).completes(candidate(current, k), whole),
{
    reveal(candidate);
    if k == 0 {
        assert(acc.bumped(0).completes(candidate(current, 0), whole));
    } else if k == 1 {
        assert(acc.bumped(1).completes(candidate(current, 1), whole));
    } else if k == 2 {
        assert(acc.bumped(2).completes(candidate(current, 2), whole));
    } else if k == 3 {
        assert(acc.bumped(3).completes(candidate(current, 3), whole));
    } else if k == 4 {
        assert(acc.bumped(4).completes(candidate(current, 4), whole));
    } else if k == 5 {
        assert(acc.bumped(5).completes(candidate(current, 5), whole));
    } else if k == 6 {
        assert(acc.bumped(6).completes(candidate(current, 6), whole));
    } else if k == 7 {
        assert(acc.bumped(7).completes(candidate(current, 7), whole));
    } else if k == 8 {
        assert(acc.bumped(8).completes(candidate(current, 8), whole));
    } else if k == 9 {
        assert(acc.bumped(9).completes(candidate(current, 9), whole));
    } else if k == 10 {
        assert(acc.bumped(10).completes(candidate(current, 10), whole));
    } else if k == 11 {
        assert(acc.bumped(11).completes(candidate(current, 11), whole));
    } else if k == 12 {
        assert(acc.bumped(12).completes(candidate(current, 12), whole));
    } else if k == 13 {
        assert(acc.bumped(13).completes(candidate(current, 13), whole));
    } else if k == 14 {
        assert(acc.bumped(14).completes(candidate(current, 14), whole));
    } else if k == 15 {
        assert(acc.bumped(15).completes(candidate(current, 15), whole));
    } else if k == 16 {
        assert(acc.bumped(16).completes(candidate(current, 16), whole));
    } else if k == 17 {
        assert(acc.bumped(17).completes(candidate(current, 17), whole));
    } else if k == 18 {
        assert(acc.bumped(18).completes(candidate(current, 18), whole));
    } else if k == 19 {
        assert(acc.bumped(19).completes(candidate(current, 19), whole));
    } else if k == 20 {
        assert(acc.bumped(20).completes(candidate(current, 20), whole));
    } else if k == 21 {
        assert(acc.bumped(21).completes(candidate(current, 21), whole));
    } else if k == 22 {
        assert(acc.bumped(22).completes(candidate(current, 22), whole));
    } else if k == 23 {
        assert(acc.bumped(23).completes(candidate(current, 23), whole));
    } else if k == 24 {
        assert(acc.bumped(24).completes(candidate(current, 24), whole));
    } else if k == 25 {
        assert(acc.bumped(25).completes(candidate(current, 25), whole));
    } else if k == 26 {
        assert(acc.bumped(26).completes(candidate(current, 26), whole));
    } else if k == 27 {
        assert(acc.bumped(27).completes(candidate(current, 27), whole));
    } else if k == 28 {
        assert(acc.bumped(28).completes(candidate(current, 28), whole));
    } else if k == 29 {
        assert(acc.bumped(29).completes(candidate(current, 29), whole));
    } else if k == 30 {
        assert(acc.bumped(30).completes(candidate(current, 30), whole));
    } else if k == 31 {
        assert(acc.bumped(31).completes(candidate(current, 31), whole));
    } else if k == 32 {
        assert(acc.bumped(32).completes(candidate(current, 32), whole));
    } else if k == 33 {
        assert(acc.bumped(33).completes(candidate(current, 33), whole));
    } else if k == 34 {
        assert(acc.bumped(34).completes(candidate(current, 34), whole));
    } else if k == 35 {
        assert(acc.bumped(35).completes(candidate(current, 35), whole));
    } else if k == 36 {
        assert(acc.bumped(36).completes(candidate(current, 36), whole));
    } else if k == 37 {
        assert(acc.bumped(37).completes(candidate(current, 37), whole));
    } else if k == 38 {
        assert(acc.bumped(38).completes(candidate(current, 38), whole));
    } else if k == 39 {
        assert(acc.bumped(39).completes(candidate(current, 39), whole));
    }
}

/// Taking candidate `k` adds at most one to the weight.
#[verifier::rlimit(100)]
#[verifier::spinoff_prover]
proof fn lemma_bumped_weight(acc: ComposedUnit, k: int)
    requires
        0 <= k < 40,
        forall|e: int| 0 <= e < 20 ==> -118 < #[trigger] acc.count(e) < 118,
    ensures
        acc.bumped(k).weight() <= acc.weight() + 1,
{
    lemma_abs_sign(1);
    if k == 0 {
        lemma_abs_triangle(acc.newton as int, 1);
        assert(acc.bumped(0).weight() <= acc.weight() + 1);
    } else if k == 1 {
        lemma_abs_triangle(acc.pascal as int, 1);
        assert(acc.bumped(1).weight() <= acc.weight() + 1);
    } else if k == 2 {
        lemma_abs_triangle(acc.joule as int, 1);
        assert(acc.bumped(2).weight() <= acc.weight() + 1);
    } else if k == 3 {
        lemma_abs_triangle(acc.watt as int, 1);
        assert(acc.bumped(3).weight() <= acc.weight() + 1);
    } else if k == 4 {
        lemma_abs_triangle(acc.coulomb as int, 1);
        assert(acc.bumped(4).weight() <= acc.weight() + 1);
    } else if k == 5 {
        lemma_abs_triangle(acc.volt as int, 1);
        assert(acc.bumped(5).weight() <= acc.weight() + 1);
    } else if k == 6 {
        lemma_abs_triangle(acc.farad as int, 1);
        assert(acc.bumped(6).weight() <= acc.weight() + 1);
    } else if k == 7 {
        lemma_abs_triangle(acc.ohm as int, 1);
        assert(acc.bumped(7).weight() <= acc.weight() + 1);
    } else if k == 8 {
        lemma_abs_triangle(acc.siemens as int, 1);
        assert(acc.bumped(8).weight() <= acc.weight() + 1);
    } else if k == 9 {
        lemma_abs_triangle(acc.weber as int, 1);
        assert(acc.bumped(9).weight() <= acc.weight() + 1);
    } else if k == 10 {
        lemma_abs_triangle(acc.tesla as int, 1);
        assert(acc.bumped(10).weight() <= acc.weight() + 1);
    } else if k == 11 {
        lemma_abs_triangle(acc.henry as int, 1);
        assert(acc.bumped(11).weight() <= acc.weight() + 1);
    } else if k == 12 {
        lemma_abs_triangle(acc.lux as int, 1);
        assert(acc.bumped(12).weight() <= acc.weight() + 1);
    } else if k == 13 {
        lemma_abs_triangle(acc.kilogram as int, 1);
        assert(acc.bumped(13).weight() <= acc.weight() + 1);
    } else if k == 14 {
        lemma_abs_triangle(acc.metre as int, 1);
        assert(acc.bumped(14).weight() <= acc.weight() + 1);
    } else if k == 15 {
        lemma_abs_triangle(acc.second as int, 1);
        assert(acc.bumped(15).weight() <= acc.weight() + 1);
    } else if k == 16 {
        lemma_abs_triangle(acc.mole as int, 1);
        assert(acc.bumped(16).weight() <= acc.weight() + 1);
    } else if k == 17 {
        lemma_abs_triangle(acc.kelvin as int, 1);
        assert(acc.bumped(17).weight() <= acc.weight() + 1);
    } else if k == 18 {
        lemma_abs_triangle(acc.ampere as int, 1);
        assert(acc.bumped(18).weight() <= acc.weight() + 1);
    } else if k == 19 {
        lemma_abs_triangle(acc.candela as int, 1);
        assert(acc.bumped(19).weight() <= acc.weight() + 1);
    } else if k == 20 {
        lemma_abs_triangle(acc.newton as int, 1);
        assert(acc.bumped(20).weight() <= acc.weight() + 1);
    } else if k == 21 {
        lemma_abs_triangle(acc.pascal as int, 1);
        assert(acc.bumped(21).weight() <= acc.weight() + 1);
    } else if k == 22 {
        lemma_abs_triangle(acc.joule as int, 1);
        assert(acc.bumped(22).weight() <= acc.weight() + 1);
    } else if k == 23 {
        lemma_abs_triangle(acc.watt as int, 1);
        assert(acc.bumped(23).weight() <= acc.weight() + 1);
    } else if k == 24 {
        lemma_abs_triangle(acc.coulomb as int, 1);
        assert(acc.bumped(24).weight() <= acc.weight() + 1);
    } else if k == 25 {
        lemma_abs_triangle(acc.volt as int, 1);
        assert(acc.bumped(25).weight() <= acc.weight() + 1);
    } else if k == 26 {
        lemma_abs_triangle(acc.farad as int, 1);
        assert(acc.bumped(26).weight() <= acc.weight() + 1);
    } else if k == 27 {
        lemma_abs_triangle(acc.ohm as int, 1);
        assert(acc.bumped(27).weight() <= acc.weight() + 1);
    } else if k == 28 {
        lemma_abs_triangle(acc.siemens as int, 1);
        assert(acc.bumped(28).weight() <= acc.weight() + 1);
    } else if k == 29 {
        lemma_abs_triangle(acc.weber as int, 1);
        assert(acc.bumped(29).weight() <= acc.weight() + 1);
    } else if k == 30 {
        lemma_abs_triangle(acc.tesla as int, 1);
        assert(acc.bumped(30).weight() <= acc.weight() + 1);
    } else if k == 31 {
        lemma_abs_triangle(acc.henry as int, 1);
        assert(acc.bumped(31).weight() <= acc.weight() + 1);
    } else if k == 32 {
        lemma_abs_triangle(acc.lux as int, 1);
        assert(acc.bumped(32).weight() <= acc.weight() + 1);
    } else if k == 33 {
        lemma_abs_triangle(acc.kilogram as int, 1);
        assert(acc.bumped(33).weight() <= acc.weight() + 1);
    } else if k == 34 {
        lemma_abs_triangle(acc.metre as int, 1);
        assert(acc.bumped(34).weight() <= acc.weight() + 1);
    } else if k == 35 {
        lemma_abs_triangle(acc.second as int, 1);
        assert(acc.bumped(35).weight() <= acc.weight() + 1);
    } else if k == 36 {
        lemma_abs_triangle(acc.mole as int, 1);
        assert(acc.bumped(36).weight() <= acc.weight() + 1);
    } else if k == 37 {
        lemma_abs_triangle(acc.kelvin as int, 1);
        assert(acc.bumped(37).weight() <= acc.weight() + 1);
    } else if k == 38 {
        lemma_abs_triangle(acc.ampere as int, 1);
        assert(acc.bumped(38).weight() <= acc.weight() + 1);
    } else if k == 39 {
        lemma_abs_triangle(acc.candela as int, 1);
        assert(acc.bumped(39).weight() <= acc.weight() + 1);
    }
}

proof fn lemma_bumped(acc: ComposedUnit, current: Unit, whole: Unit, k: int)
    requires
        0 <= k < 40,
        0 < current.norm() <= MAX_COMPOSABLE_NORM,
        acc.completes(current, whole),
        acc.weight() + current.norm() <= MAX_COMPOSABLE_NORM,
        candidate(current, k).norm() < current.norm(),
    ensures
        acc.bumped(k).completes(candidate(current, k), whole),
        acc.bumped(k).weight() <= acc.weight() + 1,
        -128 <= acc.count(
            if k < 20 {
                k
            } else {
                k - 20
            },
        ) + candidate_sign(k) <= 127,
{
    lemma_within_norm(current);
    lemma_within_weight(acc);
    lemma_bumped_completes(acc, current, whole, k);
    lemma_bumped_weight(acc, k);
}

impl Unit {
    /// Decomposes the unit over the catalogue of named units.
    ///
    /// The result is the greedy decomposition, and multiplying it out gives
    /// back exactly this unit.
    pub fn to_composed_unit(&self) -> (res: ComposedUnit)
        requires
            self.norm() <= MAX_COMPOSABLE_NORM,
        ensures
            res == self.composed(),
            res.denotes(*self),
            res.weight() <= self.norm(),
    {
        let mut res = ComposedUnit::empty();
        let mut current = *self;
        proof {
            lemma_abs_sign(0);
        }
        while current.taxi_norm() > 0
            invariant
                current.norm() <= MAX_COMPOSABLE_NORM,
                compose_from(current, res) == self.composed(),
                res.completes(current, *self),
                res.weight() + current.norm() <= self.norm(),
                self.norm() <= MAX_COMPOSABLE_NORM,
            decreases current.norm(),
        {
            let (k, next) = best_candidate(&current);
            let entry = if k < 20 {
                k
            } else {
                k - 20
            };
            let old_count = res.get(entry);
            proof {
                lemma_bumped(res, current, *self, k as int);
                next.lemma_norm_parts();
            }
            let new_count = if k < 20 {
                old_count + 1
            } else {
                old_count - 1
            };
            res.set(entry, new_count);
            current = next;
        }
        proof {
            current.lemma_norm_parts();
            current.lemma_norm_zero();
            assert(best(current) < 0) by {
                if exists|k: int| is_best(current, k) {
                    let k = choose|k: int| is_best(current, k);
                    candidate(current, k).lemma_norm_parts();
                }
            }
        }
        res
    }
}

/// The written symbol of catalogue entry `k`.
pub open spec fn symbol(k: int) -> Seq<char> {
    if k == 0 {
        seq!['N']
    } else if k == 1 {
        seq!['P', 'a']
    } else if k == 2 {
        seq!['J']
    } else if k == 3 {
        seq!['W']
    } else if k == 4 {
        seq!['C']
    } else if k == 5 {
        seq!['V']
    } else if k == 6 {
        seq!['F']
    } else if k == 7 {
        seq!['Ω']
    } else if k == 8 {
        seq!['S']
    } else if k == 9 {
        seq!['W', 'b']
    } else if k == 10 {
        seq!['T', 'e', 's', 'l', 'a']
    } else if k == 11 {
        seq!['H']
    } else if k == 12 {
        seq!['l', 'x']
    } else if k == 13 {
        seq!['k', 'g']
    } else if k == 14 {
        seq!['m']
    } else if k == 15 {
        seq!['s']
    } else if k == 16 {
        seq!['m', 'o', 'l']
    } else if k == 17 {
        seq!['K']
    } else if k == 18 {
        seq!['A']
    } else {
        seq!['c', 'd']
    }
}

/// The catalogue entry written at position `p` of a rendering.
pub open spec fn display_entry(p: int) -> int {
    if p == 0 {
        0
    } else if p == 1 {
        1
    } else if p == 2 {
        2
    } else if p == 3 {
        3
    } else if p == 4 {
        4
    } else if p == 5 {
        5
    } else if p == 6 {
        6
    } else if p == 7 {
        7
    } else if p == 8 {
        8
    } else if p == 9 {
        9
    } else if p == 10 {
        10
    } else if p == 11 {
        11
    } else if p == 12 {
        12
    } else if p == 13 {
        13
    } else if p == 14 {
        18
    } else if p == 15 {
        16
    } else if p == 16 {
        14
    } else if p == 17 {
        15
    } else if p == 18 {
        17
    } else {
        19
    }
}

/// One factor of a rendering: the symbol, followed by the exponent in
/// superscript unless the exponent is one.
pub open spec fn term(k: int, count: int) -> Seq<char> {
    if count == 1 {
        symbol(k)
    } else {
        symbol(k) + superscript(count)
    }
}

impl ComposedUnit {
    /// Number of factors among the first `p` positions of the rendering.
    pub open spec fn factors(self, p: int) -> int
        decreases p,
    {
        if p <= 0 {
            0
        } else if self.count(display_entry(p - 1)) == 0 {
            self.factors(p - 1)
        } else {
            self.factors(p - 1) + 1
        }
    }

    /// The factors among the first `p` positions, joined by dots.
    pub open spec fn joined(self, p: int) -> Seq<char>
        decreases p,
    {
        if p <= 0 {
            Seq::empty()
        } else {
            let k = display_entry(p - 1);
            if self.count(k) == 0 {
                self.joined(p - 1)
            } else if self.factors(p - 1) == 0 {
                self.joined(p - 1) + term(k, self.count(k))
            } else {
                self.joined(p - 1).push('.') + term(k, self.count(k))
            }
        }
    }

    /// The rendering: the factors joined by dots, between bars when there is
    /// more than one factor.
    pub open spec fn text(self) -> Seq<char> {
        if self.factors(20) <= 1 {
            self.joined(20)
        } else {
            seq!['|'] + self.joined(20) + seq!['|']
        }
    }

    /// The characters of the rendering.
    pub fn to_chars(&self) -> (out: Vec<char>)
        ensures
            out@ == self.text(),
    {
        let mut body: Vec<char> = Vec::new();
        let mut counter: u8 = 0;
        let mut p: usize = 0;
        while p < 20
            invariant
                p <= 20,
                counter == self.factors(p as int),
                counter <= p,
                body@ == self.joined(p as int),
            decreases 20 - p,
        {
            let k = display_index(p);
            let count = self.get(k);
            if count != 0 {
                if counter > 0 {
                    body.push('.');
                }
                push_symbol(&mut body, k);
                if count != 1 {
                    push_superscript(&mut body, count);
                }
                counter += 1;
                assert(body@ =~= self.joined(p + 1));
            }
            p += 1;
        }
        if counter <= 1 {
            body
        } else {
            let mut out: Vec<char> = Vec::new();
            out.push('|');
            push_all(&mut out, &body);
            out.push('|');
            assert(out@ =~= self.text());
            out
        }
    }

    /// The rendering as a string.
    pub fn to_text(&self) -> (s: String)
        ensures
            s@ == self.text(),
    {
        let chars = self.to_chars();
        string_from_chars(&chars)
    }
}

/// Appends the written symbol of catalogue entry `k`.
fn push_symbol(out: &mut Vec<char>, k: usize)
    requires
        k < 20,
    ensures
        final(out)@ == old(out)@ + symbol(k as int),
{
    if k == 0 {
        out.push('N');
    } else if k == 1 {
        out.push('P');
        out.push('a');
    } else if k == 2 {
        out.push('J');
    } else if k == 3 {
        out.push('W');
    } else if k == 4 {
        out.push('C');
    } else if k == 5 {
        out.push('V');
    } else if k == 6 {
        out.push('F');
    } else if k == 7 {
        out.push('Ω');
    } else if k == 8 {
        out.push('S');
    } else if k == 9 {
        out.push('W');
        out.push('b');
    } else if k == 10 {
        out.push('T');
        out.push('e');
        out.push('s');
        out.push('l');
        out.push('a');
    } else if k == 11 {
        out.push('H');
    } else if k == 12 {
        out.push('l');
        out.push('x');
    } else if k == 13 {
        out.push('k');
        out.push('g');
    } else if k == 14 {
        out.push('m');
    } else if k == 15 {
        out.push('s');
    } else if k == 16 {
        out.push('m');
        out.push('o');
        out.push('l');
    } else if k == 17 {
        out.push('K');
    } else if k == 18 {
        out.push('A');
    } else {
        out.push('c');
        out.push('d');
    }
    assert(out@ =~= old(out)@ + symbol(k as int));
}

fn display_index(p: usize) -> (k: usize)
    requires
        p < 20,
    ensures
        k == display_entry(p as int),
        k < 20,
{
    if p == 0 {
        0
    } else if p == 1 {
        1
    } else if p == 2 {
        2
    } else if p == 3 {
        3
    } else if p == 4 {
        4
    } else if p == 5 {
        5
    } else if p == 6 {
        6
    } else if p == 7 {
        7
    } else if p == 8 {
        8
    } else if p == 9 {
        9
    } else if p == 10 {
        10
    } else if p == 11 {
        11
    } else if p == 12 {
        12
    } else if p == 13 {
        13
    } else if p == 14 {
        18
    } else if p == 15 {
        16
    } else if p == 16 {
        14
    } else if p == 17 {
        15
    } else if p == 18 {
        17
    } else {
        19
    }
}

impl Unit {
    /// The canonical rendering of the unit.
    pub open spec fn text(self) -> Seq<char> {
        self.composed().text()
    }

    /// Renders the unit in canonical form, or gives `None` when the taxi norm
    /// is too large for the decomposition.
    pub fn to_text(&self) -> (r: Option<String>)
        ensures
            match r {
                Some(s) => self.norm() <= MAX_COMPOSABLE_NORM && s@ == self.text(),
                None => self.norm() > MAX_COMPOSABLE_NORM,
            },
    {
        if self.wide_taxi_norm() <= MAX_COMPOSABLE_NORM {
            Some(self.to_composed_unit().to_text())
        } else {
            None
        }
    }
}

} // verus!
