//! The written notation of units: magnitude prefixes, unit symbols, integer
//! exponents, and blocks of units multiplied and divided together.
//!
//! Parsing gives the exponent vector of a unit together with a symbolic record
//! of its scale; turning that record into a real factor is numerical work and
//! is left to the host.

use vstd::prelude::*;
use crate::unit::Unit;
use crate::text::{clusters_view, graphemes, grapheme_clusters, string_from_chars, chars_of};

verus! {

/// An SI magnitude prefix.
#[derive(Debug, Clone, Copy, PartialEq, Eq, Structural)]
pub enum Prefix {
    /// No prefix.
    One,
    Quetta,
    Ronna,
    Yotta,
    Zetta,
    Exa,
    Peta,
    Tera,
    Giga,
    Mega,
    Kilo,
    Hecto,
    Deca,
    Deci,
    Centi,
    Milli,
    Micro,
    Nano,
    Pico,
    Femto,
    Atto,
    Zepto,
    Yocto,
    Ronto,
    Quecto,
}

/// A unit symbol that the notation knows.
#[derive(Debug, Clone, Copy, PartialEq, Eq, Structural)]
pub enum Symbol {
    /// No symbol: a bare prefix scales a pure number.
    Pure,
    Metre,
    Second,
    Gram,
    Kelvin,
    Candela,
    Mole,
    Ampere,
    Celsius,
    Degree,
    Percent,
    Pi,
    Litre,
    ElectronVolt,
    Hertz,
    Newton,
    Pascal,
    Joule,
    Watt,
    Coulomb,
    Volt,
    Farad,
    Ohm,
    Siemens,
    Weber,
    Tesla,
    Henry,
    Lumen,
    Lux,
    Radian,
    Steradian,
}

/// The scale of one written unit: which prefix and symbol were read and the
/// integer exponent that followed, if any.
///
/// With no prefix, the symbols for degree, percent and pi carry their own
/// scale; gram, litre and electronvolt adjust the scale of their prefix; an
/// exponent raises the whole scale to that power.
#[derive(Debug, Clone, Copy, PartialEq, Eq, Structural)]
pub struct Factor {
    pub prefix: Prefix,
    pub symbol: Symbol,
    pub exponent: Option<i8>,
}

/// Why a unit could not be read or combined.
#[derive(Debug, Clone, Copy, PartialEq, Eq, Structural)]
pub enum UnitError {
    /// The text of a unit is empty.
    Empty,
    /// The prefix is not followed by what it needs.
    UnknownPrefix,
    /// The symbol is not in the table of units.
    UnknownSymbol,
    /// What follows the symbol is not a decimal integer that fits an exponent.
    MalformedExponent,
    /// An exponent of the result is not representable.
    ExponentOverflow,
    /// A block holds more than one division sign.
    RepeatedDivision,
    /// A unit with an additive shift stands beside another unit.
    ShiftedComposition,
    /// Two quantities must have the same unit and have these.
    Incompatible(Unit, Unit),
}

/// The scale of a block of units: the factors multiplied in, then the factors
/// divided out, each list in written order.
#[derive(Debug)]
pub struct Scale {
    pub numerator: Vec<Factor>,
    pub denominator: Vec<Factor>,
}

/// The mathematical content of a [`Scale`].
pub ghost struct ScaleView {
    pub numerator: Seq<Factor>,
    pub denominator: Seq<Factor>,
}

impl View for Scale {
    type V = ScaleView;

    open spec fn view(&self) -> ScaleView {
        ScaleView { numerator: self.numerator@, denominator: self.denominator@ }
    }
}

impl Clone for Scale {
    fn clone(&self) -> (r: Scale)
        ensures
            r@ == self@,
    {
        Scale { numerator: copy_factors(&self.numerator), denominator: copy_factors(&self.denominator) }
    }
}

fn copy_factors(v: &Vec<Factor>) -> (r: Vec<Factor>)
    ensures
        r@ == v@,
{
    let mut r: Vec<Factor> = Vec::new();
    let mut i: usize = 0;
    while i < v.len()
        invariant
            i <= v.len(),
            r@ == v@.take(i as int),
        decreases v.len() - i,
    {
        r.push(v[i]);
        i += 1;
    }
    assert(v@.take(v.len() as int) == v@);
    r
}

impl Factor {
    /// Whether the factor carries the additive shift of the Celsius scale:
    /// it was written as the bare symbol for degrees Celsius.
    pub open spec fn spec_is_shifted(self) -> bool {
        self.prefix == Prefix::One && self.symbol == Symbol::Celsius
    }

    /// Whether the factor carries the additive shift of the Celsius scale.
    pub fn is_shifted(&self) -> (b: bool)
        ensures
            b == self.spec_is_shifted(),
    {
        matches!(self.prefix, Prefix::One) && matches!(self.symbol, Symbol::Celsius)
    }
}

impl Symbol {
    /// The exponent vector of the symbol.
    pub open spec fn spec_unit(self) -> Unit {
        match self {
            Symbol::Pure => Unit::spec_unitless(),
            Symbol::Metre => crate::compose::exponents(0, 1, 0, 0, 0, 0, 0),
            Symbol::Second => crate::compose::exponents(0, 0, 1, 0, 0, 0, 0),
            Symbol::Gram => crate::compose::exponents(1, 0, 0, 0, 0, 0, 0),
            Symbol::Kelvin => crate::compose::exponents(0, 0, 0, 0, 1, 0, 0),
            Symbol::Candela => crate::compose::exponents(0, 0, 0, 0, 0, 0, 1),
            Symbol::Mole => crate::compose::exponents(0, 0, 0, 1, 0, 0, 0),
            Symbol::Ampere => crate::compose::exponents(0, 0, 0, 0, 0, 1, 0),
            Symbol::Celsius => crate::compose::exponents(0, 0, 0, 0, 1, 0, 0),
            Symbol::Degree => crate::compose::exponents(0, 0, 0, 0, 0, 0, 0),
            Symbol::Percent => crate::compose::exponents(0, 0, 0, 0, 0, 0, 0),
            Symbol::Pi => crate::compose::exponents(0, 0, 0, 0, 0, 0, 0),
            Symbol::Litre => crate::compose::exponents(0, 3, 0, 0, 0, 0, 0),
            Symbol::ElectronVolt => crate::compose::exponents(1, 2, -2, 0, 0, 0, 0),
            Symbol::Hertz => crate::compose::exponents(0, 0, -1, 0, 0, 0, 0),
            Symbol::Newton => crate::compose::exponents(1, 1, -2, 0, 0, 0, 0),
            Symbol::Pascal => crate::compose::exponents(1, -1, -2, 0, 0, 0, 0),
            Symbol::Joule => crate::compose::exponents(1, 2, -2, 0, 0, 0, 0),
            Symbol::Watt => crate::compose::exponents(1, 2, -3, 0, 0, 0, 0),
            Symbol::Coulomb => crate::compose::exponents(0, 0, 1, 0, 0, 1, 0),
            Symbol::Volt => crate::compose::exponents(1, 2, -3, 0, 0, -1, 0),
            Symbol::Farad => crate::compose::exponents(-1, -2, 4, 0, 0, 2, 0),
            Symbol::Ohm => crate::compose::exponents(1, 2, -3, 0, 0, -2, 0),
            Symbol::Siemens => crate::compose::exponents(-1, -2, 3, 0, 0, 2, 0),
            Symbol::Weber => crate::compose::exponents(1, 2, -2, 0, 0, -1, 0),
            Symbol::Tesla => crate::compose::exponents(1, 0, -2, 0, 0, -1, 0),
            Symbol::Henry => crate::compose::exponents(1, 2, -2, 0, 0, -2, 0),
            Symbol::Lumen => crate::compose::exponents(0, 0, 0, 0, 0, 0, 1),
            Symbol::Lux => crate::compose::exponents(0, -2, 0, 0, 0, 0, 1),
            Symbol::Radian => crate::compose::exponents(0, 0, 0, 0, 0, 0, 0),
            Symbol::Steradian => crate::compose::exponents(0, 0, 0, 0, 0, 0, 0),
        }
    }

    /// The exponent vector of the symbol.
    pub fn unit(&self) -> (u: Unit)
        ensures
            u == self.spec_unit(),
            crate::compose::within(u, 4),
    {
        match self {
            Symbol::Pure => Unit::unitless(),
            Symbol::Metre => Unit { kilogram: 0, metre: 1, second: 0, mole: 0, kelvin: 0, ampere: 0, candela: 0 },
            Symbol::Second => Unit { kilogram: 0, metre: 0, second: 1, mole: 0, kelvin: 0, ampere: 0, candela: 0 },
            Symbol::Gram => Unit { kilogram: 1, metre: 0, second: 0, mole: 0, kelvin: 0, ampere: 0, candela: 0 },
            Symbol::Kelvin => Unit { kilogram: 0, metre: 0, second: 0, mole: 0, kelvin: 1, ampere: 0, candela: 0 },
            Symbol::Candela => Unit { kilogram: 0, metre: 0, second: 0, mole: 0, kelvin: 0, ampere: 0, candela: 1 },
            Symbol::Mole => Unit { kilogram: 0, metre: 0, second: 0, mole: 1, kelvin: 0, ampere: 0, candela: 0 },
            Symbol::Ampere => Unit { kilogram: 0, metre: 0, second: 0, mole: 0, kelvin: 0, ampere: 1, candela: 0 },
            Symbol::Celsius => Unit { kilogram: 0, metre: 0, second: 0, mole: 0, kelvin: 1, ampere: 0, candela: 0 },
            Symbol::Degree => Unit { kilogram: 0, metre: 0, second: 0, mole: 0, kelvin: 0, ampere: 0, candela: 0 },
            Symbol::Percent => Unit { kilogram: 0, metre: 0, second: 0, mole: 0, kelvin: 0, ampere: 0, candela: 0 },
            Symbol::Pi => Unit { kilogram: 0, metre: 0, second: 0, mole: 0, kelvin: 0, ampere: 0, candela: 0 },
            Symbol::Litre => Unit { kilogram: 0, metre: 3, second: 0, mole: 0, kelvin: 0, ampere: 0, candela: 0 },
            Symbol::ElectronVolt => Unit { kilogram: 1, metre: 2, second: -2, mole: 0, kelvin: 0, ampere: 0, candela: 0 },
            Symbol::Hertz => Unit { kilogram: 0, metre: 0, second: -1, mole: 0, kelvin: 0, ampere: 0, candela: 0 },
            Symbol::Newton => Unit { kilogram: 1, metre: 1, second: -2, mole: 0, kelvin: 0, ampere: 0, candela: 0 },
            Symbol::Pascal => Unit { kilogram: 1, metre: -1, second: -2, mole: 0, kelvin: 0, ampere: 0, candela: 0 },
            Symbol::Joule => Unit { kilogram: 1, metre: 2, second: -2, mole: 0, kelvin: 0, ampere: 0, candela: 0 },
            Symbol::Watt => Unit { kilogram: 1, metre: 2, second: -3, mole: 0, kelvin: 0, ampere: 0, candela: 0 },
            Symbol::Coulomb => Unit { kilogram: 0, metre: 0, second: 1, mole: 0, kelvin: 0, ampere: 1, candela: 0 },
            Symbol::Volt => Unit { kilogram: 1, metre: 2, second: -3, mole: 0, kelvin: 0, ampere: -1, candela: 0 },
            Symbol::Farad => Unit { kilogram: -1, metre: -2, second: 4, mole: 0, kelvin: 0, ampere: 2, candela: 0 },
            Symbol::Ohm => Unit { kilogram: 1, metre: 2, second: -3, mole: 0, kelvin: 0, ampere: -2, candela: 0 },
            Symbol::Siemens => Unit { kilogram: -1, metre: -2, second: 3, mole: 0, kelvin: 0, ampere: 2, candela: 0 },
            Symbol::Weber => Unit { kilogram: 1, metre: 2, second: -2, mole: 0, kelvin: 0, ampere: -1, candela: 0 },
            Symbol::Tesla => Unit { kilogram: 1, metre: 0, second: -2, mole: 0, kelvin: 0, ampere: -1, candela: 0 },
            Symbol::Henry => Unit { kilogram: 1, metre: 2, second: -2, mole: 0, kelvin: 0, ampere: -2, candela: 0 },
            Symbol::Lumen => Unit { kilogram: 0, metre: 0, second: 0, mole: 0, kelvin: 0, ampere: 0, candela: 1 },
            Symbol::Lux => Unit { kilogram: 0, metre: -2, second: 0, mole: 0, kelvin: 0, ampere: 0, candela: 1 },
            Symbol::Radian => Unit { kilogram: 0, metre: 0, second: 0, mole: 0, kelvin: 0, ampere: 0, candela: 0 },
            Symbol::Steradian => Unit { kilogram: 0, metre: 0, second: 0, mole: 0, kelvin: 0, ampere: 0, candela: 0 },
        }
    }
}

/// Whether `c` may stand in the name part of a written unit.
pub open spec fn is_unit_letter(c: char) -> bool {
    ('a' <= c && c <= 'z') || ('A' <= c && c <= 'Z') || c == '°' || c == 'µ' || c == 'μ'
}

/// Whether the cluster is a single character that may stand in a unit name.
pub open spec fn is_letter_cluster(g: Seq<char>) -> bool {
    g.len() == 1 && is_unit_letter(g[0])
}

/// Number of consecutive letter clusters starting at position `i`.
pub open spec fn letter_run(chars: Seq<Seq<char>>, i: int) -> int
    decreases chars.len() - i,
{
    if 0 <= i < chars.len() && is_letter_cluster(chars[i]) {
        1 + letter_run(chars, i + 1)
    } else {
        0
    }
}

/// Number of clusters that make up the name part: the leading run of letter
/// clusters, and in any case the first cluster.
pub open spec fn name_len(chars: Seq<Seq<char>>) -> int {
    if letter_run(chars, 0) == 0 {
        1
    } else {
        letter_run(chars, 0)
    }
}

/// The characters of the clusters from position `from` up to `to`.
pub open spec fn concat(chars: Seq<Seq<char>>, from: int, to: int) -> Seq<char>
    decreases to - from,
{
    if to <= from {
        Seq::empty()
    } else {
        concat(chars, from, to - 1) + chars[to - 1]
    }
}

/// The prefix that the first clusters spell and the number of clusters it
/// takes, or `None` where a lone `d` is neither deci nor deca.
pub open spec fn spec_prefix(chars: Seq<Seq<char>>) -> Option<(Prefix, int)> {
    let first = chars[0];
    if first == seq!['Q'] {
        Some((Prefix::Quetta, 1))
    }     else if first == seq!['R'] {
        Some((Prefix::Ronna, 1))
    }     else if first == seq!['Y'] {
        Some((Prefix::Yotta, 1))
    }     else if first == seq!['Z'] {
        Some((Prefix::Zetta, 1))
    }     else if first == seq!['E'] {
        Some((Prefix::Exa, 1))
    }     else if first == seq!['P'] {
        Some((Prefix::Peta, 1))
    }     else if first == seq!['T'] {
        Some((Prefix::Tera, 1))
    }     else if first == seq!['G'] {
        Some((Prefix::Giga, 1))
    }     else if first == seq!['M'] {
        Some((Prefix::Mega, 1))
    }     else if first == seq!['k'] {
        Some((Prefix::Kilo, 1))
    }     else if first == seq!['h'] {
        Some((Prefix::Hecto, 1))
    } else if first == seq!['d'] {
        if chars.len() >= 2 {
            if chars[1] == seq!['a'] {
                Some((Prefix::Deca, 2))
            } else {
                Some((Prefix::Deci, 1))
            }
        } else {
            None
        }
    } else if first == seq!['c'] {
        Some((Prefix::Centi, 1))
    } else if first == seq!['m'] {
        if chars.len() >= 2 && (chars[1] == seq!['u'] || chars[1] == seq!['i']) {
            Some((Prefix::Micro, 2))
        } else {
            Some((Prefix::Milli, 1))
        }
    } else if first == seq!['µ'] {
        Some((Prefix::Micro, 1))
    } else if first == seq!['μ'] {
        Some((Prefix::Micro, 1))
    } else if first == seq!['n'] {
        Some((Prefix::Nano, 1))
    } else if first == seq!['p'] {
        Some((Prefix::Pico, 1))
    } else if first == seq!['f'] {
        Some((Prefix::Femto, 1))
    } else if first == seq!['a'] {
        Some((Prefix::Atto, 1))
    } else if first == seq!['z'] {
        Some((Prefix::Zepto, 1))
    } else if first == seq!['y'] {
        Some((Prefix::Yocto, 1))
    } else if first == seq!['r'] {
        Some((Prefix::Ronto, 1))
    } else if first == seq!['q'] {
        Some((Prefix::Quecto, 1))
    } else {
        Some((Prefix::One, 0))
    }
}

/// Whether the whole name is a symbol that is never read as a prefixed form.
pub open spec fn is_whole_symbol(name: Seq<char>) -> bool {
    name == seq!['m']
    || name == seq!['m', 'o', 'l']
    || name == seq!['c', 'd']
    || name == seq!['r', 'a', 'd']
    || name == seq!['°', 'C']
    || name == seq!['°']
    || name == seq!['d', 'e', 'g']
    || name == seq!['%']
    || name == seq!['p', 'i']
    || name == seq!['π']
}

/// The symbol that `word` spells, if it is in the table.
pub open spec fn spec_symbol(word: Seq<char>) -> Option<Symbol> {
    if word == seq!['m'] {
        Some(Symbol::Metre)
    }     else if word == seq!['s'] {
        Some(Symbol::Second)
    }     else if word == seq!['g'] {
        Some(Symbol::Gram)
    }     else if word == seq!['K'] {
        Some(Symbol::Kelvin)
    }     else if word == seq!['c', 'd'] {
        Some(Symbol::Candela)
    }     else if word == seq!['m', 'o', 'l'] {
        Some(Symbol::Mole)
    }     else if word == seq!['A'] {
        Some(Symbol::Ampere)
    }     else if word == seq!['°', 'C'] {
        Some(Symbol::Celsius)
    }     else if word == seq!['°'] {
        Some(Symbol::Degree)
    }     else if word == seq!['d', 'e', 'g'] {
        Some(Symbol::Degree)
    }     else if word == seq!['%'] {
        Some(Symbol::Percent)
    }     else if word == seq!['p', 'i'] {
        Some(Symbol::Pi)
    }     else if word == seq!['π'] {
        Some(Symbol::Pi)
    }     else if word == seq!['L'] {
        Some(Symbol::Litre)
    }     else if word == seq!['e', 'V'] {
        Some(Symbol::ElectronVolt)
    }     else if word == seq!['H', 'z'] {
        Some(Symbol::Hertz)
    }     else if word == seq!['N'] {
        Some(Symbol::Newton)
    }     else if word == seq!['P', 'a'] {
        Some(Symbol::Pascal)
    }     else if word == seq!['J'] {
        Some(Symbol::Joule)
    }     else if word == seq!['W'] {
        Some(Symbol::Watt)
    }     else if word == seq!['C'] {
        Some(Symbol::Coulomb)
    }     else if word == seq!['V'] {
        Some(Symbol::Volt)
    }     else if word == seq!['F'] {
        Some(Symbol::Farad)
    }     else if word == seq!['o', 'h', 'm'] {
        Some(Symbol::Ohm)
    }     else if word == seq!['Ω'] {
        Some(Symbol::Ohm)
    }     else if word == seq!['S'] {
        Some(Symbol::Siemens)
    }     else if word == seq!['W', 'b'] {
        Some(Symbol::Weber)
    }     else if word == seq!['T', 'e', 's', 'l', 'a'] {
        Some(Symbol::Tesla)
    }     else if word == seq!['H'] {
        Some(Symbol::Henry)
    }     else if word == seq!['l', 'm'] {
        Some(Symbol::Lumen)
    }     else if word == seq!['l', 'x'] {
        Some(Symbol::Lux)
    }     else if word == seq!['r', 'a', 'd'] {
        Some(Symbol::Radian)
    }     else if word == seq!['s', 'r'] {
        Some(Symbol::Steradian)
    } else {
        None
    }
}

/// Whether `c` is an ASCII decimal digit.
pub open spec fn is_digit(c: char) -> bool {
    '0' <= c && c <= '9'
}

/// Whether every character of `s` is a decimal digit.
pub open spec fn all_digits(s: Seq<char>) -> bool {
    forall|i: int| 0 <= i < s.len() ==> is_digit(#[trigger] s[i])
}

/// The number that the decimal digits of `s` denote.
pub open spec fn decimal(s: Seq<char>) -> int
    decreases s.len(),
{
    if s.len() == 0 {
        0
    } else {
        10 * decimal(s.drop_last()) + (s.last() as int - '0' as int)
    }
}

/// The exponent that `s` denotes: an optional sign, then one or more decimal
/// digits, with a value that an exponent can hold.
pub open spec fn spec_exponent(s: Seq<char>) -> Option<i8> {
    if s.len() == 0 {
        None
    } else {
        let negative = s[0] == '-';
        let digits = if s[0] == '-' || s[0] == '+' {
            s.drop_first()
        } else {
            s
        };
        if digits.len() == 0 || !all_digits(digits) {
            None
        } else {
            let value = if negative {
                -decimal(digits)
            } else {
                decimal(digits)
            };
            if -128 <= value <= 127 {
                Some(value as i8)
            } else {
                None
            }
        }
    }
}

/// What a single written unit denotes, given as its grapheme clusters.
pub open spec fn spec_single_unit(chars: Seq<Seq<char>>) -> Result<(Unit, Factor), UnitError> {
    if chars.len() == 0 {
        Err(UnitError::Empty)
    } else {
        match spec_prefix(chars) {
            None => Err(UnitError::UnknownPrefix),
            Some((read_prefix, read_skip)) => {
                let n = name_len(chars);
                let whole = is_whole_symbol(concat(chars, 0, n));
                let prefix = if whole {
                    Prefix::One
                } else {
                    read_prefix
                };
                let skip = if whole {
                    0
                } else {
                    read_skip
                };
                let symbol = if n > skip {
                    spec_symbol(concat(chars, skip, n))
                } else {
                    Some(Symbol::Pure)
                };
                match symbol {
                    None => Err(UnitError::UnknownSymbol),
                    Some(symbol) => {
                        if chars.len() > n {
                            match spec_exponent(concat(chars, n, chars.len() as int)) {
                                None => Err(UnitError::MalformedExponent),
                                Some(e) => {
                                    if symbol.spec_unit().powi_fits(e) {
                                        Ok(
                                            (
                                                symbol.spec_unit().power(e),
                                                Factor { prefix, symbol, exponent: Some(e) },
                                            ),
                                        )
                                    } else {
                                        Err(UnitError::ExponentOverflow)
                                    }
                                },
                            }
                        } else {
                            Ok((symbol.spec_unit(), Factor { prefix, symbol, exponent: None }))
                        }
                    },
                }
            },
        }
    }
}

pub(crate) fn is_word1(w: &Vec<char>, c0: char) -> (b: bool)
    ensures
        b == (w@ == seq![c0]),
{
    let b = w.len() == 1 && w[0] == c0;
    assert(b == (w@ =~= seq![c0]));
    b
}

fn is_word2(w: &Vec<char>, c0: char, c1: char) -> (b: bool)
    ensures
        b == (w@ == seq![c0, c1]),
{
    let b = w.len() == 2 && w[0] == c0 && w[1] == c1;
    assert(b == (w@ =~= seq![c0, c1]));
    b
}

fn is_word3(w: &Vec<char>, c0: char, c1: char, c2: char) -> (b: bool)
    ensures
        b == (w@ == seq![c0, c1, c2]),
{
    let b = w.len() == 3 && w[0] == c0 && w[1] == c1 && w[2] == c2;
    assert(b == (w@ =~= seq![c0, c1, c2]));
    b
}

fn is_word5(w: &Vec<char>, c0: char, c1: char, c2: char, c3: char, c4: char) -> (b: bool)
    ensures
        b == (w@ == seq![c0, c1, c2, c3, c4]),
{
    let b = w.len() == 5 && w[0] == c0 && w[1] == c1 && w[2] == c2 && w[3] == c3 && w[4] == c4;
    assert(b == (w@ =~= seq![c0, c1, c2, c3, c4]));
    b
}

pub(crate) fn unit_letter(c: char) -> (b: bool)
    ensures
        b == is_unit_letter(c),
{
    ('a' <= c && c <= 'z') || ('A' <= c && c <= 'Z') || c == '°' || c == 'µ' || c == 'μ'
}

/// Number of consecutive letter clusters at the start of `chars`.
fn leading_letters(chars: &Vec<Vec<char>>) -> (n: usize)
    ensures
        n == letter_run(clusters_view(chars@), 0),
        n <= chars.len(),
{
    let ghost all = clusters_view(chars@);
    let mut i: usize = 0;
    while i < chars.len() && chars[i].len() == 1 && unit_letter(chars[i][0])
        invariant
            i <= chars.len(),
            all == clusters_view(chars@),
            letter_run(all, 0) == i + letter_run(all, i as int),
        decreases chars.len() - i,
    {
        i += 1;
    }
    i
}

/// The characters of the clusters from `from` up to `to`.
pub fn join(chars: &Vec<Vec<char>>, from: usize, to: usize) -> (v: Vec<char>)
    requires
        from <= to <= chars.len(),
    ensures
        v@ == concat(clusters_view(chars@), from as int, to as int),
{
    let ghost all = clusters_view(chars@);
    let mut v: Vec<char> = Vec::new();
    let mut i: usize = from;
    while i < to
        invariant
            from <= i <= to,
            to <= chars.len(),
            all == clusters_view(chars@),
            v@ == concat(all, from as int, i as int),
        decreases to - i,
    {
        crate::text::push_all(&mut v, &chars[i]);
        i += 1;
    }
    v
}

fn read_prefix(chars: &Vec<Vec<char>>) -> (r: Option<(Prefix, usize)>)
    requires
        chars.len() > 0,
    ensures
        match r {
            Some((p, skip)) => spec_prefix(clusters_view(chars@)) == Some((p, skip as int)) && skip <= 2,
            None => spec_prefix(clusters_view(chars@)) is None,
        },
{
    let first = &chars[0];
    if is_word1(first, 'Q') {
        Some((Prefix::Quetta, 1))
    }     else if is_word1(first, 'R') {
        Some((Prefix::Ronna, 1))
    }     else if is_word1(first, 'Y') {
        Some((Prefix::Yotta, 1))
    }     else if is_word1(first, 'Z') {
        Some((Prefix::Zetta, 1))
    }     else if is_word1(first, 'E') {
        Some((Prefix::Exa, 1))
    }     else if is_word1(first, 'P') {
        Some((Prefix::Peta, 1))
    }     else if is_word1(first, 'T') {
        Some((Prefix::Tera, 1))
    }     else if is_word1(first, 'G') {
        Some((Prefix::Giga, 1))
    }     else if is_word1(first, 'M') {
        Some((Prefix::Mega, 1))
    }     else if is_word1(first, 'k') {
        Some((Prefix::Kilo, 1))
    }     else if is_word1(first, 'h') {
        Some((Prefix::Hecto, 1))
    } else if is_word1(first, 'd') {
        if chars.len() >= 2 {
            if is_word1(&chars[1], 'a') {
                Some((Prefix::Deca, 2))
            } else {
                Some((Prefix::Deci, 1))
            }
        } else {
            None
        }
    } else if is_word1(first, 'c') {
        Some((Prefix::Centi, 1))
    } else if is_word1(first, 'm') {
        if chars.len() >= 2 && (is_word1(&chars[1], 'u') || is_word1(&chars[1], 'i')) {
            Some((Prefix::Micro, 2))
        } else {
            Some((Prefix::Milli, 1))
        }
    } else if is_word1(first, 'µ') {
        Some((Prefix::Micro, 1))
    } else if is_word1(first, 'μ') {
        Some((Prefix::Micro, 1))
    } else if is_word1(first, 'n') {
        Some((Prefix::Nano, 1))
    } else if is_word1(first, 'p') {
        Some((Prefix::Pico, 1))
    } else if is_word1(first, 'f') {
        Some((Prefix::Femto, 1))
    } else if is_word1(first, 'a') {
        Some((Prefix::Atto, 1))
    } else if is_word1(first, 'z') {
        Some((Prefix::Zepto, 1))
    } else if is_word1(first, 'y') {
        Some((Prefix::Yocto, 1))
    } else if is_word1(first, 'r') {
        Some((Prefix::Ronto, 1))
    } else if is_word1(first, 'q') {
        Some((Prefix::Quecto, 1))
    } else {
        Some((Prefix::One, 0))
    }
}

fn whole_symbol(name: &Vec<char>) -> (b: bool)
    ensures
        b == is_whole_symbol(name@),
{
    is_word1(name, 'm')
    || is_word3(name, 'm', 'o', 'l')
    || is_word2(name, 'c', 'd')
    || is_word3(name, 'r', 'a', 'd')
    || is_word2(name, '°', 'C')
    || is_word1(name, '°')
    || is_word3(name, 'd', 'e', 'g')
    || is_word1(name, '%')
    || is_word2(name, 'p', 'i')
    || is_word1(name, 'π')
}

fn read_symbol(word: &Vec<char>) -> (r: Option<Symbol>)
    ensures
        r == spec_symbol(word@),
{
    if is_word1(word, 'm') {
        Some(Symbol::Metre)
    }     else if is_word1(word, 's') {
        Some(Symbol::Second)
    }     else if is_word1(word, 'g') {
        Some(Symbol::Gram)
    }     else if is_word1(word, 'K') {
        Some(Symbol::Kelvin)
    }     else if is_word2(word, 'c', 'd') {
        Some(Symbol::Candela)
    }     else if is_word3(word, 'm', 'o', 'l') {
        Some(Symbol::Mole)
    }     else if is_word1(word, 'A') {
        Some(Symbol::Ampere)
    }     else if is_word2(word, '°', 'C') {
        Some(Symbol::Celsius)
    }     else if is_word1(word, '°') {
        Some(Symbol::Degree)
    }     else if is_word3(word, 'd', 'e', 'g') {
        Some(Symbol::Degree)
    }     else if is_word1(word, '%') {
        Some(Symbol::Percent)
    }     else if is_word2(word, 'p', 'i') {
        Some(Symbol::Pi)
    }     else if is_word1(word, 'π') {
        Some(Symbol::Pi)
    }     else if is_word1(word, 'L') {
        Some(Symbol::Litre)
    }     else if is_word2(word, 'e', 'V') {
        Some(Symbol::ElectronVolt)
    }     else if is_word2(word, 'H', 'z') {
        Some(Symbol::Hertz)
    }     else if is_word1(word, 'N') {
        Some(Symbol::Newton)
    }     else if is_word2(word, 'P', 'a') {
        Some(Symbol::Pascal)
    }     else if is_word1(word, 'J') {
        Some(Symbol::Joule)
    }     else if is_word1(word, 'W') {
        Some(Symbol::Watt)
    }     else if is_word1(word, 'C') {
        Some(Symbol::Coulomb)
    }     else if is_word1(word, 'V') {
        Some(Symbol::Volt)
    }     else if is_word1(word, 'F') {
        Some(Symbol::Farad)
    }     else if is_word3(word, 'o', 'h', 'm') {
        Some(Symbol::Ohm)
    }     else if is_word1(word, 'Ω') {
        Some(Symbol::Ohm)
    }     else if is_word1(word, 'S') {
        Some(Symbol::Siemens)
    }     else if is_word2(word, 'W', 'b') {
        Some(Symbol::Weber)
    }     else if is_word5(word, 'T', 'e', 's', 'l', 'a') {
        Some(Symbol::Tesla)
    }     else if is_word1(word, 'H') {
        Some(Symbol::Henry)
    }     else if is_word2(word, 'l', 'm') {
        Some(Symbol::Lumen)
    }     else if is_word2(word, 'l', 'x') {
        Some(Symbol::Lux)
    }     else if is_word3(word, 'r', 'a', 'd') {
        Some(Symbol::Radian)
    }     else if is_word2(word, 's', 'r') {
        Some(Symbol::Steradian)
    } else {
        None
    }
}

/// Reads a signed decimal exponent.
pub fn read_exponent(s: &Vec<char>) -> (r: Option<i8>)
    ensures
        r == spec_exponent(s@),
{
    if s.len() == 0 {
        return None;
    }
    let negative = s[0] == '-';
    let start: usize = if s[0] == '-' || s[0] == '+' {
        1
    } else {
        0
    };
    if start == s.len() {
        assert(s@.drop_first().len() == 0);
        return None;
    }
    let ghost digits = if start == 1 {
        s@.drop_first()
    } else {
        s@
    };
    let mut value: i16 = 0;
    let mut overflow = false;
    let mut i: usize = start;
    while i < s.len()
        invariant
            start <= i <= s.len(),
            start <= 1,
            s.len() > 0,
            start == 1 <==> (s[0] == '-' || s[0] == '+'),
            digits == (if start == 1 {
                s@.drop_first()
            } else {
                s@
            }),
            forall|j: int| 0 <= j < i - start ==> is_digit(#[trigger] digits[j]),
            !overflow ==> value == decimal(digits.take(i - start)),
            0 <= value <= 128,
            overflow ==> decimal(digits.take(i - start)) > 128,
        decreases s.len() - i,
    {
        let c = s[i];
        if !('0' <= c && c <= '9') {
            assert(digits[i - start] == c);
            assert(!all_digits(digits));
            return None;
        }
        let d: i16 = (c as u32 - '0' as u32) as i16;
        assert(digits.take(i - start + 1).drop_last() == digits.take(i - start));
        if !overflow {
            value = value * 10 + d;
            if value > 128 {
                overflow = true;
                value = 0;
            }
        }
        i += 1;
    }
    assert(digits.take(i - start) == digits);
    assert(all_digits(digits));
    if overflow {
        None
    } else if negative {
        Some((-value) as i8)
    } else if value <= 127 {
        Some(value as i8)
    } else {
        None
    }
}

/// Reads a single written unit from its grapheme clusters.
pub fn parse_unit_clusters(chars: &Vec<Vec<char>>) -> (r: Result<(Unit, Factor), UnitError>)
    ensures
        r == spec_single_unit(clusters_view(chars@)),
{
    if chars.len() == 0 {
        return Err(UnitError::Empty);
    }
    let (read, read_skip) = match read_prefix(chars) {
        None => {
            return Err(UnitError::UnknownPrefix);
        },
        Some(found) => found,
    };
    let run = leading_letters(chars);
    let n: usize = if run == 0 {
        1
    } else {
        run
    };
    let name = join(chars, 0, n);
    let whole = whole_symbol(&name);
    let prefix = if whole {
        Prefix::One
    } else {
        read
    };
    let skip: usize = if whole {
        0
    } else {
        read_skip
    };
    let symbol = if n > skip {
        let word = join(chars, skip, n);
        match read_symbol(&word) {
            None => {
                return Err(UnitError::UnknownSymbol);
            },
            Some(symbol) => symbol,
        }
    } else {
        Symbol::Pure
    };
    let unit = symbol.unit();
    if chars.len() > n {
        let text = join(chars, n, chars.len());
        match read_exponent(&text) {
            None => Err(UnitError::MalformedExponent),
            Some(e) => match unit.checked_powi(e) {
                None => Err(UnitError::ExponentOverflow),
                Some(raised) => Ok((raised, Factor { prefix, symbol, exponent: Some(e) })),
            },
        }
    } else {
        Ok((unit, Factor { prefix, symbol, exponent: None }))
    }
}


/// The pieces of `s` between occurrences of `sep`. There is always at least
/// one piece; a separator at either end leaves an empty piece there.
pub open spec fn split(s: Seq<char>, sep: char) -> Seq<Seq<char>>
    decreases s.len(),
{
    if s.len() == 0 {
        seq![Seq::empty()]
    } else {
        let before = split(s.drop_last(), sep);
        if s.last() == sep {
            before.push(Seq::empty())
        } else {
            before.update(before.len() - 1, before.last().push(s.last()))
        }
    }
}

/// Every split has at least one piece.
pub proof fn lemma_split_nonempty(s: Seq<char>, sep: char)
    ensures
        split(s, sep).len() >= 1,
    decreases s.len(),
{
    if s.len() > 0 {
        lemma_split_nonempty(s.drop_last(), sep);
    }
}

/// Splits `s` at every occurrence of `sep`.
pub fn split_chars(s: &Vec<char>, sep: char) -> (pieces: Vec<Vec<char>>)
    ensures
        clusters_view(pieces@) == split(s@, sep),
        pieces.len() >= 1,
{
    let mut done: Vec<Vec<char>> = Vec::new();
    let mut current: Vec<char> = Vec::new();
    let mut i: usize = 0;
    assert(s@.take(0).len() == 0);
    assert(clusters_view(done@).push(current@) =~= split(s@.take(0), sep));
    while i < s.len()
        invariant
            i <= s.len(),
            clusters_view(done@).push(current@) == split(s@.take(i as int), sep),
        decreases s.len() - i,
    {
        let c = s[i];
        proof {
            assert(s@.take(i + 1).drop_last() == s@.take(i as int));
            assert(s@.take(i + 1).last() == c);
            lemma_split_nonempty(s@.take(i as int), sep);
        }
        if c == sep {
            done.push(current);
            current = Vec::new();
            assert(clusters_view(done@).push(current@) =~= split(s@.take(i + 1), sep));
        } else {
            current.push(c);
            assert(clusters_view(done@).push(current@) =~= split(s@.take(i + 1), sep));
        }
        i += 1;
    }
    assert(s@.take(s.len() as int) == s@);
    done.push(current);
    assert(clusters_view(done@) =~= split(s@, sep));
    done
}

/// The unit and the factors reached after the first `n` pieces, each
/// non-empty piece read as a single unit and multiplied into `unit` (or
/// divided out of it). The first piece that cannot be read, or whose exponents
/// cannot be combined, decides the error.
pub open spec fn fold_units(pieces: Seq<Seq<char>>, n: int, divide: bool, unit: Unit) -> Result<
    (Unit, Seq<Factor>),
    UnitError,
>
    decreases n,
{
    if n <= 0 {
        Ok((unit, Seq::empty()))
    } else {
        match fold_units(pieces, n - 1, divide, unit) {
            Err(e) => Err(e),
            Ok((u, factors)) => {
                if pieces[n - 1].len() == 0 {
                    Ok((u, factors))
                } else {
                    match spec_single_unit(graphemes(pieces[n - 1])) {
                        Err(e) => Err(e),
                        Ok((v, f)) => {
                            if divide {
                                if u.div_fits(v) {
                                    Ok((u.quotient(v), factors.push(f)))
                                } else {
                                    Err(UnitError::ExponentOverflow)
                                }
                            } else {
                                if u.mul_fits(v) {
                                    Ok((u.product(v), factors.push(f)))
                                } else {
                                    Err(UnitError::ExponentOverflow)
                                }
                            }
                        },
                    }
                }
            },
        }
    }
}

/// Whether one of the factors carries the Celsius shift.
pub open spec fn any_shifted(factors: Seq<Factor>) -> bool {
    exists|i: int| 0 <= i < factors.len() && (#[trigger] factors[i]).spec_is_shifted()
}

/// What the interior of a unit block denotes: the product part before the
/// division sign and the optional division part after it, each a list of
/// single units separated by dots. A shifted unit must be the only unit of
/// its block.
pub open spec fn spec_unit_block(text: Seq<char>) -> Result<(Unit, ScaleView), UnitError> {
    let parts = split(text, '/');
    if parts.len() > 2 {
        Err(UnitError::RepeatedDivision)
    } else {
        let product = split(parts[0], '.');
        let division = split(
            if parts.len() == 2 {
                parts[1]
            } else {
                Seq::empty()
            },
            '.',
        );
        match fold_units(product, product.len() as int, false, Unit::spec_unitless()) {
            Err(e) => Err(e),
            Ok((u, numerator)) => match fold_units(division, division.len() as int, true, u) {
                Err(e) => Err(e),
                Ok((v, denominator)) => {
                    if (any_shifted(numerator) || any_shifted(denominator)) && numerator.len()
                        + denominator.len() > 1 {
                        Err(UnitError::ShiftedComposition)
                    } else {
                        Ok((v, ScaleView { numerator, denominator }))
                    }
                },
            },
        }
    }
}

/// Whether a computed unit with its factors is the expected one.
pub open spec fn same_fold(
    r: Result<(Unit, Vec<Factor>, bool), UnitError>,
    expected: Result<(Unit, Seq<Factor>), UnitError>,
) -> bool {
    match (r, expected) {
        (Ok((u, factors, shifted)), Ok((v, wanted))) => u == v && factors@ == wanted && shifted
            == any_shifted(wanted),
        (Err(e), Err(wanted)) => e == wanted,
        _ => false,
    }
}

/// Whether a parsed block is the expected one.
pub open spec fn same_block(
    r: Result<(Unit, Scale), UnitError>,
    expected: Result<(Unit, ScaleView), UnitError>,
) -> bool {
    match (r, expected) {
        (Ok((u, scale)), Ok((v, wanted))) => u == v && scale@ == wanted,
        (Err(e), Err(wanted)) => e == wanted,
        _ => false,
    }
}

/// Reads the pieces of one part of a block in order, combining each unit
/// into `unit`.
fn absorb_units(pieces: &Vec<Vec<char>>, divide: bool, unit: Unit) -> (r: Result<
    (Unit, Vec<Factor>, bool),
    UnitError,
>)
    ensures
        same_fold(r, fold_units(clusters_view(pieces@), pieces.len() as int, divide, unit)),
{
    let ghost all = clusters_view(pieces@);
    let mut current = unit;
    let mut factors: Vec<Factor> = Vec::new();
    let mut shifted = false;
    let mut i: usize = 0;
    while i < pieces.len()
        invariant
            i <= pieces.len(),
            all == clusters_view(pieces@),
            fold_units(all, i as int, divide, unit) == Ok::<(Unit, Seq<Factor>), UnitError>(
                (current, factors@),
            ),
            shifted == any_shifted(factors@),
        decreases pieces.len() - i,
    {
        if pieces[i].len() > 0 {
            let piece = string_from_chars(&pieces[i]);
            let clusters = grapheme_clusters(piece.as_str());
            match parse_unit_clusters(&clusters) {
                Err(e) => {
                    assert(fold_units(all, i + 1, divide, unit) == Err::<
                        (Unit, Seq<Factor>),
                        UnitError,
                    >(e));
                    proof {
                        lemma_fold_error(all, i + 1, pieces.len() as int, divide, unit);
                    }
                    return Err(e);
                },
                Ok((v, f)) => {
                    let combined = if divide {
                        current.checked_div(v)
                    } else {
                        current.checked_mul(v)
                    };
                    match combined {
                        None => {
                            assert(fold_units(all, i + 1, divide, unit) == Err::<
                                (Unit, Seq<Factor>),
                                UnitError,
                            >(UnitError::ExponentOverflow));
                            proof {
                                lemma_fold_error(all, i + 1, pieces.len() as int, divide, unit);
                            }
                            return Err(UnitError::ExponentOverflow);
                        },
                        Some(next) => {
                            let ghost before = factors@;
                            current = next;
                            factors.push(f);
                            let was = shifted;
                            shifted = shifted || f.is_shifted();
                            proof {
                                let after = factors@;
                                assert(after == before.push(f));
                                if was {
                                    let j = choose|j: int|
                                        0 <= j < before.len() && (
                                        #[trigger] before[j]).spec_is_shifted();
                                    assert(after[j].spec_is_shifted());
                                }
                                if f.spec_is_shifted() {
                                    assert(after[after.len() - 1].spec_is_shifted());
                                }
                                if any_shifted(after) {
                                    let j = choose|j: int|
                                        0 <= j < after.len() && (
                                        #[trigger] after[j]).spec_is_shifted();
                                    if j < before.len() {
                                        assert(before[j].spec_is_shifted());
                                    }
                                }
                            }
                        },
                    }
                },
            }
        }
        i += 1;
    }
    Ok((current, factors, shifted))
}

/// Once the fold has failed it stays failed.
proof fn lemma_fold_error(pieces: Seq<Seq<char>>, n: int, m: int, divide: bool, unit: Unit)
    requires
        0 <= n <= m,
        fold_units(pieces, n, divide, unit) is Err,
    ensures
        fold_units(pieces, m, divide, unit) == fold_units(pieces, n, divide, unit),
    decreases m - n,
{
    if n < m {
        lemma_fold_error(pieces, n, m - 1, divide, unit);
    }
}

impl Unit {
    /// Reads a single written unit such as `km`, `ms2` or `Pa`: an optional
    /// magnitude prefix, a unit symbol and an optional integer exponent.
    ///
    /// The text is split into grapheme clusters first; the result is what
    /// [`spec_single_unit`] gives for those clusters.
    pub fn parse_single_unit(text: &str) -> (r: Result<(Unit, Factor), UnitError>)
        ensures
            r == spec_single_unit(graphemes(text@)),
    {
        let chars = grapheme_clusters(text);
        parse_unit_clusters(&chars)
    }

    /// Reads the interior of a unit block such as `kg.m/s2`.
    pub fn parse_unit_block(text: &str) -> (r: Result<(Unit, Scale), UnitError>)
        ensures
            same_block(r, spec_unit_block(text@)),
    {
        let chars = chars_of(text);
        parse_unit_block_chars(&chars)
    }
}

/// Reads the interior of a unit block from its characters.
pub fn parse_unit_block_chars(chars: &Vec<char>) -> (r: Result<(Unit, Scale), UnitError>)
    ensures
        same_block(r, spec_unit_block(chars@)),
{
    let parts = split_chars(chars, '/');
    if parts.len() > 2 {
        return Err(UnitError::RepeatedDivision);
    }
    let product = split_chars(&parts[0], '.');
    let empty: Vec<char> = Vec::new();
    let division = split_chars(
        if parts.len() == 2 {
            &parts[1]
        } else {
            &empty
        },
        '.',
    );
    let (u, numerator, shifted_above) = match absorb_units(&product, false, Unit::unitless()) {
        Err(e) => {
            return Err(e);
        },
        Ok(found) => found,
    };
    let (v, denominator, shifted_below) = match absorb_units(&division, true, u) {
        Err(e) => {
            return Err(e);
        },
        Ok(found) => found,
    };
    let several = numerator.len() > 1 || denominator.len() > 1 || (numerator.len() == 1
        && denominator.len() == 1);
    if (shifted_above || shifted_below) && several {
        Err(UnitError::ShiftedComposition)
    } else {
        Ok((v, Scale { numerator, denominator }))
    }
}

} // verus!
