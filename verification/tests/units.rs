use unitcalc::compose::{best_candidate, catalogue_entry, ComposedUnit};
use unitcalc::unit::Unit;

fn unit(kilogram: i8, metre: i8, second: i8, ampere: i8) -> Unit {
    Unit { kilogram, metre, second, ampere, ..Unit::unitless() }
}

fn text(u: Unit) -> String {
    u.to_text().expect("the unit can be rendered")
}

#[test]
fn unitless_has_zero_norm() {
    let u = Unit::unitless();
    assert!(u.is_unitless());
    assert_eq!(u.wide_taxi_norm(), 0);
    assert_eq!(u.taxi_norm(), 0);
    assert!(!unit(0, 1, 0, 0).is_unitless());
}

#[test]
fn taxi_norm_sums_absolute_exponents() {
    assert_eq!(unit(1, 2, -2, 0).taxi_norm(), 5);
    assert_eq!(unit(-1, -2, 4, 2).taxi_norm(), 9);
    let all = Unit { mole: -1, metre: 2, second: -3, kilogram: 4, kelvin: -5, ampere: 6, candela: -7 };
    assert_eq!(all.taxi_norm(), 28);
    assert_eq!(all.wide_taxi_norm(), 28);
    let wide = Unit { mole: -128, metre: 127, second: -128, kilogram: 127, kelvin: -128, ampere: 127, candela: -128 };
    assert_eq!(wide.wide_taxi_norm(), 893);
}

#[test]
fn powers_multiply_exponents() {
    assert_eq!(unit(1, 2, -2, 0).powi(3), unit(3, 6, -6, 0));
    assert_eq!(unit(1, 2, -2, 0).powi(0), Unit::unitless());
    assert_eq!(unit(1, 2, -2, 0).powi(-1), unit(-1, -2, 2, 0));
    assert_eq!(unit(1, 2, -2, 0).checked_powi(60), Some(unit(60, 120, -120, 0)));
    assert_eq!(unit(1, 2, -2, 0).checked_powi(64), None);
    assert_eq!(unit(0, 0, 1, 0).checked_powi(-128), Some(unit(0, 0, -128, 0)));
    assert_eq!(unit(0, 0, -1, 0).checked_powi(-128), None);
}

#[test]
fn products_add_and_quotients_subtract() {
    let newton = unit(1, 1, -2, 0);
    let metre = unit(0, 1, 0, 0);
    assert_eq!(newton.mul(metre), unit(1, 2, -2, 0));
    assert_eq!(newton.div(metre), unit(1, 0, -2, 0));
    assert_eq!(newton.mul(metre).div(metre), newton);
    assert_eq!(newton.checked_mul(metre), Some(unit(1, 2, -2, 0)));
    assert_eq!(unit(0, 127, 0, 0).checked_mul(metre), None);
    assert_eq!(unit(0, -128, 0, 0).checked_div(metre), None);
    assert_eq!(unit(0, -128, 0, 0).checked_mul(metre), Some(unit(0, -127, 0, 0)));
    assert!(newton.same(&unit(1, 1, -2, 0)));
    assert!(!newton.same(&metre));
}

#[test]
fn catalogue_is_in_scan_order() {
    assert_eq!(catalogue_entry(0), unit(1, 1, -2, 0));
    assert_eq!(catalogue_entry(6), unit(-1, -2, 4, 2));
    assert_eq!(catalogue_entry(12), Unit { metre: -2, candela: 1, ..Unit::unitless() });
    assert_eq!(catalogue_entry(13), unit(1, 0, 0, 0));
    assert_eq!(catalogue_entry(19), Unit { candela: 1, ..Unit::unitless() });
}

#[test]
fn one_round_takes_the_first_lowest_candidate() {
    let (k, rest) = best_candidate(&unit(1, 2, -2, 0));
    assert_eq!(k, 2);
    assert_eq!(rest, Unit::unitless());
    let (k, rest) = best_candidate(&unit(0, 1, -1, 0));
    assert_eq!(k, 14);
    assert_eq!(rest, unit(0, 0, -1, 0));
    let (k, rest) = best_candidate(&unit(0, 0, -1, 0));
    assert_eq!(k, 35);
    assert_eq!(rest, Unit::unitless());
}

#[test]
fn decomposition_over_named_units() {
    let joule = unit(1, 2, -2, 0).to_composed_unit();
    assert_eq!(joule, ComposedUnit { joule: 1, ..ComposedUnit::empty() });
    let speed = unit(0, 1, -1, 0).to_composed_unit();
    assert_eq!(speed, ComposedUnit { metre: 1, second: -1, ..ComposedUnit::empty() });
    assert_eq!(Unit::unitless().to_composed_unit(), ComposedUnit::empty());
    let mut changed = ComposedUnit::empty();
    changed.set(7, -3);
    assert_eq!(changed.get(7), -3);
    assert_eq!(changed.ohm, -3);
}

#[test]
fn rendering_of_units() {
    assert_eq!(text(Unit::unitless()), "");
    assert_eq!(text(unit(1, 0, 0, 0)), "kg");
    assert_eq!(text(unit(1, 1, -2, 0)), "N");
    assert_eq!(text(unit(1, 2, -2, 0)), "J");
    assert_eq!(text(unit(1, 2, -3, -1)), "V");
    assert_eq!(text(unit(1, 2, -3, -2)), "Ω");
    assert_eq!(text(unit(0, 2, 0, 0)), "m²");
    assert_eq!(text(unit(0, 0, -1, 0)), "s⁻¹");
    assert_eq!(text(unit(0, 1, -1, 0)), "|m.s⁻¹|");
    assert_eq!(text(unit(0, 1, -2, 0)), "|N.kg⁻¹|");
    assert_eq!(text(unit(0, 0, -12, 0)), "s⁻¹²");
    assert_eq!(text(unit(0, 100, 0, 0)), "m¹⁰⁰");
    assert_eq!(text(Unit { mole: 1, kelvin: -1, ..Unit::unitless() }), "|mol.K⁻¹|");
    assert_eq!(text(unit(2, 2, -4, 0)), "|W.kg.s⁻¹|");
}

#[test]
fn decomposition_multiplies_back() {
    let samples = [
        unit(1, 2, -2, 0),
        unit(3, -5, 7, -2),
        unit(-4, 4, -4, 4),
        unit(20, -30, 10, 5),
        Unit { mole: 3, kelvin: -2, candela: 5, metre: -9, ..Unit::unitless() },
    ];
    for sample in samples {
        let composed = sample.to_composed_unit();
        let mut total = Unit::unitless();
        for k in 0..20 {
            total = total.mul(catalogue_entry(k).powi(composed.get(k)));
        }
        assert_eq!(total, sample);
    }
}

#[test]
fn units_too_large_to_render() {
    assert_eq!(unit(100, 18, 0, 0).to_text().is_some(), true);
    assert_eq!(unit(100, 19, 0, 0).to_text(), None);
    assert_eq!(unit(127, 127, -128, 127).to_text(), None);
}
