use unitcalc::notation::{
    parse_unit_block_chars, parse_unit_clusters, read_exponent, split_chars, Factor, Prefix, Scale,
    Symbol, UnitError,
};
use unitcalc::unit::Unit;

fn factor(prefix: Prefix, symbol: Symbol, exponent: Option<i8>) -> Factor {
    Factor { prefix, symbol, exponent }
}

fn chars(text: &str) -> Vec<char> {
    text.chars().collect()
}

fn block(text: &str) -> Result<(Unit, Vec<Factor>, Vec<Factor>), UnitError> {
    Unit::parse_unit_block(text).map(|(u, Scale { numerator, denominator })| (u, numerator, denominator))
}

#[test]
fn base_units() {
    let metre = Unit { metre: 1, ..Unit::unitless() };
    assert_eq!(Unit::parse_single_unit("m"), Ok((metre, factor(Prefix::One, Symbol::Metre, None))));
    assert_eq!(
        Unit::parse_single_unit("s"),
        Ok((Unit { second: 1, ..Unit::unitless() }, factor(Prefix::One, Symbol::Second, None)))
    );
    assert_eq!(
        Unit::parse_single_unit("g"),
        Ok((Unit { kilogram: 1, ..Unit::unitless() }, factor(Prefix::One, Symbol::Gram, None)))
    );
    assert_eq!(
        Unit::parse_single_unit("mol"),
        Ok((Unit { mole: 1, ..Unit::unitless() }, factor(Prefix::One, Symbol::Mole, None)))
    );
    assert_eq!(
        Unit::parse_single_unit("cd"),
        Ok((Unit { candela: 1, ..Unit::unitless() }, factor(Prefix::One, Symbol::Candela, None)))
    );
    assert_eq!(
        Unit::parse_single_unit("K"),
        Ok((Unit { kelvin: 1, ..Unit::unitless() }, factor(Prefix::One, Symbol::Kelvin, None)))
    );
    assert_eq!(
        Unit::parse_single_unit("A"),
        Ok((Unit { ampere: 1, ..Unit::unitless() }, factor(Prefix::One, Symbol::Ampere, None)))
    );
}

#[test]
fn prefixes() {
    let metre = Unit { metre: 1, ..Unit::unitless() };
    let second = Unit { second: 1, ..Unit::unitless() };
    assert_eq!(Unit::parse_single_unit("km"), Ok((metre, factor(Prefix::Kilo, Symbol::Metre, None))));
    assert_eq!(Unit::parse_single_unit("mm"), Ok((metre, factor(Prefix::Milli, Symbol::Metre, None))));
    assert_eq!(Unit::parse_single_unit("ms"), Ok((second, factor(Prefix::Milli, Symbol::Second, None))));
    assert_eq!(Unit::parse_single_unit("mus"), Ok((second, factor(Prefix::Micro, Symbol::Second, None))));
    assert_eq!(Unit::parse_single_unit("mis"), Ok((second, factor(Prefix::Micro, Symbol::Second, None))));
    assert_eq!(Unit::parse_single_unit("µs"), Ok((second, factor(Prefix::Micro, Symbol::Second, None))));
    assert_eq!(Unit::parse_single_unit("μs"), Ok((second, factor(Prefix::Micro, Symbol::Second, None))));
    assert_eq!(Unit::parse_single_unit("dam"), Ok((metre, factor(Prefix::Deca, Symbol::Metre, None))));
    assert_eq!(Unit::parse_single_unit("dm"), Ok((metre, factor(Prefix::Deci, Symbol::Metre, None))));
    assert_eq!(Unit::parse_single_unit("Qm"), Ok((metre, factor(Prefix::Quetta, Symbol::Metre, None))));
    assert_eq!(Unit::parse_single_unit("qm"), Ok((metre, factor(Prefix::Quecto, Symbol::Metre, None))));
    assert_eq!(
        Unit::parse_single_unit("kg"),
        Ok((Unit { kilogram: 1, ..Unit::unitless() }, factor(Prefix::Kilo, Symbol::Gram, None)))
    );
    assert_eq!(
        Unit::parse_single_unit("k"),
        Ok((Unit::unitless(), factor(Prefix::Kilo, Symbol::Pure, None)))
    );
    assert_eq!(
        Unit::parse_single_unit("da"),
        Ok((Unit::unitless(), factor(Prefix::Deca, Symbol::Pure, None)))
    );
    assert_eq!(Unit::parse_single_unit("d"), Err(UnitError::UnknownPrefix));
}

#[test]
fn symbols_never_read_as_prefixed() {
    assert_eq!(
        Unit::parse_single_unit("rad"),
        Ok((Unit::unitless(), factor(Prefix::One, Symbol::Radian, None)))
    );
    assert_eq!(
        Unit::parse_single_unit("pi"),
        Ok((Unit::unitless(), factor(Prefix::One, Symbol::Pi, None)))
    );
    assert_eq!(
        Unit::parse_single_unit("π"),
        Ok((Unit::unitless(), factor(Prefix::One, Symbol::Pi, None)))
    );
    assert_eq!(
        Unit::parse_single_unit("deg"),
        Ok((Unit::unitless(), factor(Prefix::One, Symbol::Degree, None)))
    );
    assert_eq!(
        Unit::parse_single_unit("°"),
        Ok((Unit::unitless(), factor(Prefix::One, Symbol::Degree, None)))
    );
    assert_eq!(
        Unit::parse_single_unit("%"),
        Ok((Unit::unitless(), factor(Prefix::One, Symbol::Percent, None)))
    );
    let celsius = Unit::parse_single_unit("°C").unwrap();
    assert_eq!(celsius, (Unit { kelvin: 1, ..Unit::unitless() }, factor(Prefix::One, Symbol::Celsius, None)));
    assert!(celsius.1.is_shifted());
    let milli = Unit::parse_single_unit("m°C").unwrap();
    assert_eq!(milli.1, factor(Prefix::Milli, Symbol::Celsius, None));
    assert!(!milli.1.is_shifted());
    assert_eq!(
        Unit::parse_single_unit("kpi"),
        Ok((Unit::unitless(), factor(Prefix::Kilo, Symbol::Pi, None)))
    );
}

#[test]
fn derived_units() {
    assert_eq!(Symbol::Newton.unit(), Unit { kilogram: 1, metre: 1, second: -2, ..Unit::unitless() });
    assert_eq!(Symbol::Farad.unit(), Unit { kilogram: -1, metre: -2, second: 4, ampere: 2, ..Unit::unitless() });
    assert_eq!(Symbol::Litre.unit(), Unit { metre: 3, ..Unit::unitless() });
    assert_eq!(Symbol::Hertz.unit(), Unit { second: -1, ..Unit::unitless() });
    assert_eq!(Symbol::Lux.unit(), Unit { metre: -2, candela: 1, ..Unit::unitless() });
    assert_eq!(Symbol::Steradian.unit(), Unit::unitless());
    let names = [
        ("Hz", Symbol::Hertz), ("N", Symbol::Newton), ("J", Symbol::Joule),
        ("W", Symbol::Watt), ("C", Symbol::Coulomb), ("V", Symbol::Volt), ("F", Symbol::Farad),
        ("ohm", Symbol::Ohm), ("Ω", Symbol::Ohm), ("S", Symbol::Siemens), ("Wb", Symbol::Weber),
        ("H", Symbol::Henry), ("lm", Symbol::Lumen), ("lx", Symbol::Lux),
        ("sr", Symbol::Steradian), ("L", Symbol::Litre), ("eV", Symbol::ElectronVolt),
    ];
    for (name, symbol) in names {
        assert_eq!(Unit::parse_single_unit(name), Ok((symbol.unit(), factor(Prefix::One, symbol, None))), "{}", name);
    }
    assert_eq!(
        Unit::parse_single_unit("kohm"),
        Ok((Symbol::Ohm.unit(), factor(Prefix::Kilo, Symbol::Ohm, None)))
    );
    assert_eq!(
        Unit::parse_single_unit("hPa"),
        Ok((Symbol::Pascal.unit(), factor(Prefix::Hecto, Symbol::Pascal, None)))
    );
    assert_eq!(
        Unit::parse_single_unit("mTesla"),
        Ok((Symbol::Tesla.unit(), factor(Prefix::Milli, Symbol::Tesla, None)))
    );
    assert_eq!(
        Unit::parse_single_unit("MeV"),
        Ok((Symbol::ElectronVolt.unit(), factor(Prefix::Mega, Symbol::ElectronVolt, None)))
    );
}

#[test]
fn a_leading_prefix_letter_is_read_as_prefix() {
    assert_eq!(Unit::parse_single_unit("Pa"), Err(UnitError::UnknownSymbol));
    assert_eq!(Unit::parse_single_unit("Tesla"), Err(UnitError::UnknownSymbol));
    assert_eq!(
        Unit::parse_single_unit("mK"),
        Ok((Unit { kelvin: 1, ..Unit::unitless() }, factor(Prefix::Milli, Symbol::Kelvin, None)))
    );
}

#[test]
fn exponents() {
    let metre = Unit { metre: 1, ..Unit::unitless() };
    assert_eq!(
        Unit::parse_single_unit("m2"),
        Ok((metre.powi(2), factor(Prefix::One, Symbol::Metre, Some(2))))
    );
    assert_eq!(
        Unit::parse_single_unit("mm-3"),
        Ok((metre.powi(-3), factor(Prefix::Milli, Symbol::Metre, Some(-3))))
    );
    assert_eq!(
        Unit::parse_single_unit("s+2"),
        Ok((Unit { second: 2, ..Unit::unitless() }, factor(Prefix::One, Symbol::Second, Some(2))))
    );
    assert_eq!(
        Unit::parse_single_unit("m0"),
        Ok((Unit::unitless(), factor(Prefix::One, Symbol::Metre, Some(0))))
    );
    assert_eq!(Unit::parse_single_unit("m2x"), Err(UnitError::MalformedExponent));
    assert_eq!(Unit::parse_single_unit("m-"), Err(UnitError::MalformedExponent));
    assert_eq!(Unit::parse_single_unit("m200"), Err(UnitError::MalformedExponent));
    assert_eq!(Unit::parse_single_unit("kΩ"), Err(UnitError::MalformedExponent));
    assert_eq!(Unit::parse_single_unit("F64"), Err(UnitError::ExponentOverflow));
    assert_eq!(Unit::parse_single_unit("xyz"), Err(UnitError::UnknownSymbol));
    assert_eq!(Unit::parse_single_unit(""), Err(UnitError::Empty));
    assert_eq!(read_exponent(&chars("127")), Some(127));
    assert_eq!(read_exponent(&chars("128")), None);
    assert_eq!(read_exponent(&chars("-128")), Some(-128));
    assert_eq!(read_exponent(&chars("-129")), None);
    assert_eq!(read_exponent(&chars("007")), Some(7));
    assert_eq!(read_exponent(&chars("+")), None);
    assert_eq!(read_exponent(&chars("")), None);
    assert_eq!(read_exponent(&chars("1 ")), None);
    assert_eq!(read_exponent(&chars("99999999999999999999")), None);
}

#[test]
fn clusters_of_a_unit() {
    let clusters: Vec<Vec<char>> = vec![vec!['k'], vec!['m'], vec!['2']];
    assert_eq!(
        parse_unit_clusters(&clusters),
        Ok((Unit { metre: 2, ..Unit::unitless() }, factor(Prefix::Kilo, Symbol::Metre, Some(2))))
    );
    let combined: Vec<Vec<char>> = vec![vec!['e', '\u{301}']];
    assert_eq!(parse_unit_clusters(&combined), Err(UnitError::UnknownSymbol));
    assert_eq!(Unit::parse_single_unit("e\u{301}"), Err(UnitError::UnknownSymbol));
    assert_eq!(Unit::parse_single_unit("me\u{301}"), Err(UnitError::MalformedExponent));
}

#[test]
fn splitting() {
    assert_eq!(split_chars(&chars("a.b"), '.'), vec![chars("a"), chars("b")]);
    assert_eq!(split_chars(&chars(""), '.'), vec![chars("")]);
    assert_eq!(split_chars(&chars("."), '.'), vec![chars(""), chars("")]);
    assert_eq!(split_chars(&chars("a..b."), '.'), vec![chars("a"), chars(""), chars("b"), chars("")]);
}

#[test]
fn unit_blocks() {
    let metre = factor(Prefix::One, Symbol::Metre, None);
    let second = factor(Prefix::One, Symbol::Second, None);
    assert_eq!(
        block("m/s"),
        Ok((Unit { metre: 1, second: -1, ..Unit::unitless() }, vec![metre], vec![second]))
    );
    assert_eq!(
        block("kg.m/s2"),
        Ok((
            Unit { kilogram: 1, metre: 1, second: -2, ..Unit::unitless() },
            vec![factor(Prefix::Kilo, Symbol::Gram, None), metre],
            vec![factor(Prefix::One, Symbol::Second, Some(2))]
        ))
    );
    assert_eq!(
        block("/s"),
        Ok((Unit { second: -1, ..Unit::unitless() }, vec![], vec![second]))
    );
    assert_eq!(
        block("m..s"),
        Ok((Unit { metre: 1, second: 1, ..Unit::unitless() }, vec![metre, second], vec![]))
    );
    assert_eq!(block(""), Ok((Unit::unitless(), vec![], vec![])));
    assert_eq!(block("m/s/s"), Err(UnitError::RepeatedDivision));
    assert_eq!(block("m.xyz"), Err(UnitError::UnknownSymbol));
    assert_eq!(block("m/d"), Err(UnitError::UnknownPrefix));
    assert_eq!(block("m100.m100"), Err(UnitError::ExponentOverflow));
    assert_eq!(block("m100/m-100"), Err(UnitError::ExponentOverflow));
    assert_eq!(
        block("°C"),
        Ok((Unit { kelvin: 1, ..Unit::unitless() }, vec![factor(Prefix::One, Symbol::Celsius, None)], vec![]))
    );
    assert_eq!(block("°C.m"), Err(UnitError::ShiftedComposition));
    assert_eq!(block("m/°C"), Err(UnitError::ShiftedComposition));
    assert!(block("m°C.m").is_ok());
    assert_eq!(
        parse_unit_block_chars(&chars("m2")).map(|(u, _)| u),
        Ok(Unit { metre: 2, ..Unit::unitless() })
    );
}
