use unitcalc::ast::{ast, Node, ParseError, Tree};
use unitcalc::eval::Evaluator;
use unitcalc::lexer::{Keyword, LexError, Lexer, Operator};
use unitcalc::machine::{
    BinaryOp, EvalError, Function, Numeric, Reply, Request, TemplateError, UnaryOp,
};
use unitcalc::notation::{Factor, Prefix, Scale, Symbol, UnitError};
use unitcalc::quantity::{Complex, LiteralForm, Quantity, Real};
use unitcalc::render::Piece;
use unitcalc::unit::Unit;
use unitcalc::value::{Kind, RValue};

/// A complex number with the variance of each part, in floating point.
#[derive(Debug, Clone, Copy, PartialEq)]
struct Number {
    re: f64,
    im: f64,
    vre: f64,
    vim: f64,
}

impl From<Complex> for Number {
    fn from(c: Complex) -> Number {
        Number {
            re: f64::from_bits(c.re.bits),
            im: f64::from_bits(c.im.bits),
            vre: f64::from_bits(c.vre.bits),
            vim: f64::from_bits(c.vim.bits),
        }
    }
}

impl From<Number> for Complex {
    fn from(n: Number) -> Complex {
        Complex {
            re: Real { bits: n.re.to_bits() },
            im: Real { bits: n.im.to_bits() },
            vre: Real { bits: n.vre.to_bits() },
            vim: Real { bits: n.vim.to_bits() },
        }
    }
}

fn squared(x: f64) -> f64 {
    x * x
}

fn exact(re: f64, im: f64) -> Number {
    Number { re, im, vre: 0.0, vim: 0.0 }
}

fn truth(b: bool) -> Number {
    exact(if b { 1.0 } else { 0.0 }, 0.0)
}

/// The scale of a magnitude prefix.
fn prefix_scale(prefix: Prefix) -> f64 {
    match prefix {
        Prefix::One => 1.0,
        Prefix::Quetta => 1e30,
        Prefix::Ronna => 1e27,
        Prefix::Yotta => 1e24,
        Prefix::Zetta => 1e21,
        Prefix::Exa => 1e18,
        Prefix::Peta => 1e15,
        Prefix::Tera => 1e12,
        Prefix::Giga => 1e9,
        Prefix::Mega => 1e6,
        Prefix::Kilo => 1e3,
        Prefix::Hecto => 1e2,
        Prefix::Deca => 10.0,
        Prefix::Deci => 0.1,
        Prefix::Centi => 1.0 / 1e2,
        Prefix::Milli => 1.0 / 1e3,
        Prefix::Micro => 1.0 / 1e6,
        Prefix::Nano => 1.0 / 1e9,
        Prefix::Pico => 1.0 / 1e12,
        Prefix::Femto => 1.0 / 1e15,
        Prefix::Atto => 1.0 / 1e18,
        Prefix::Zepto => 1.0 / 1e21,
        Prefix::Yocto => 1.0 / 1e24,
        Prefix::Ronto => 1.0 / 1e27,
        Prefix::Quecto => 1.0 / 1e30,
    }
}

/// The scale and the additive shift of one written unit.
fn factor_value(factor: &Factor) -> (f64, f64) {
    let mut scale = match factor.prefix {
        Prefix::One => match factor.symbol {
            Symbol::Degree => std::f64::consts::PI / 180.0,
            Symbol::Percent => 0.01,
            Symbol::Pi => std::f64::consts::PI,
            _ => 1.0,
        },
        prefix => prefix_scale(prefix),
    };
    match factor.symbol {
        Symbol::Gram | Symbol::Litre => scale /= 1000.0,
        Symbol::ElectronVolt => scale *= 1.602176565e-19,
        _ => {}
    }
    if let Some(exponent) = factor.exponent {
        scale = scale.powi(exponent as i32);
    }
    let shift = if factor.prefix == Prefix::One && factor.symbol == Symbol::Celsius {
        -273.15
    } else {
        0.0
    };
    (scale, shift)
}

/// The scale and the additive shift of a block of units.
fn scale_value(scale: &Scale) -> (f64, f64) {
    let mut factor = 1.0;
    let mut shift = 0.0;
    for f in scale.numerator.iter() {
        let (value, moved) = factor_value(f);
        factor *= value;
        shift += moved;
    }
    for f in scale.denominator.iter() {
        let (value, moved) = factor_value(f);
        factor /= value;
        shift += moved;
    }
    (factor, shift)
}

fn literal(text: &str, form: &LiteralForm) -> Number {
    let value: f64 = text.parse().unwrap_or(f64::NAN);
    match form {
        LiteralForm::Plain => exact(value, 0.0),
        LiteralForm::Imaginary => exact(0.0, value),
        LiteralForm::Scaled(factor) => {
            let (scale, shift) = factor_value(factor);
            exact((value + shift) * scale, 0.0)
        }
    }
}

fn sin(n: Number) -> Number {
    let sina = n.re.sin();
    let cosa = n.re.cos();
    let sinhb = n.im.sinh();
    let coshb = n.im.cosh();
    Number {
        re: coshb * sina,
        im: sinhb * cosa,
        vre: squared(coshb * cosa) * n.vre + squared(sinhb * sina) * n.vim,
        vim: squared(sinhb * sina) * n.vre + squared(coshb * cosa) * n.vim,
    }
}

fn cos(n: Number) -> Number {
    let sina = n.re.sin();
    let cosa = n.re.cos();
    let sinhb = n.im.sinh();
    let coshb = n.im.cosh();
    Number {
        re: coshb * cosa,
        im: -sinhb * sina,
        vre: squared(coshb * sina) * n.vre + squared(sinhb * cosa) * n.vim,
        vim: squared(sinhb * cosa) * n.vre + squared(coshb * sina) * n.vim,
    }
}

fn exp(n: Number) -> Number {
    let ex = n.re.exp();
    let excos = ex * n.im.cos();
    let exsin = ex * n.im.sin();
    let excos2 = squared(excos);
    let exsin2 = squared(exsin);
    Number {
        re: excos,
        im: exsin,
        vre: excos2 * n.vre + excos2 * n.vim,
        vim: exsin2 * n.vre + excos2 * n.vim,
    }
}

fn abs(n: Number) -> Number {
    Number {
        re: (n.re * n.re + n.im * n.im).sqrt(),
        im: 0.0,
        vre: (n.vre * n.re * n.re + n.vim * n.im * n.im) / (n.re * n.re + n.im * n.im),
        vim: 0.0,
    }
}

fn arg(n: Number) -> Number {
    let datan2 = 1.0 / squared(1.0 + n.im * n.im / (n.re * n.re));
    Number {
        re: n.im.atan2(n.re),
        im: 0.0,
        vre: n.vre * datan2 * (-1.0) * n.im * n.im / squared(n.re * n.re)
            + n.vim * datan2 / n.re / n.re,
        vim: 0.0,
    }
}

fn unary(op: UnaryOp, n: Number) -> Number {
    match op {
        UnaryOp::Negate => Number { re: -n.re, im: -n.im, vre: n.vre, vim: n.vim },
        UnaryOp::Sigma => exact(n.vre.sqrt(), n.vim.sqrt()),
        UnaryOp::Sin => sin(n),
        UnaryOp::Cos => cos(n),
        UnaryOp::Exp => exp(n),
        UnaryOp::TimesI => Number { re: -n.im, im: n.re, vre: n.vim, vim: n.vre },
        UnaryOp::Abs => abs(n),
        UnaryOp::Arg => arg(n),
    }
}

fn multiply(x: Number, y: Number) -> Number {
    let (a, b, c, d) = (x.re, x.im, y.re, y.im);
    let (va, vb, vc, vd) = (x.vre, x.vim, y.vre, y.vim);
    Number {
        re: a * c - b * d,
        im: a * d + b * c,
        vre: c * c * va + d * d * vb + a * a * vc + b * b * vd,
        vim: d * d * va + c * c * vb + b * b * vc + a * a * vd,
    }
}

fn divide(x: Number, y: Number) -> Number {
    let (a, b, c, d) = (x.re, x.im, y.re, y.im);
    let (va, vb, vc, vd) = (x.vre, x.vim, y.vre, y.vim);
    let denom = c * c + d * d;
    let denom2 = denom * denom;
    let denom4 = denom2 * denom2;
    let re = a * c + b * d;
    let im = b * c - a * d;
    Number {
        re: re / denom,
        im: im / denom,
        vre: c * c * va / denom2
            + d * d * vb / denom2
            + squared(a * denom - 2.0 * c * re) * vc / denom4
            + squared(b * denom - 2.0 * d * re) * vd / denom4,
        vim: d * d * va / denom2
            + c * c * vb / denom2
            + squared(b * denom - 2.0 * c * im) * vc / denom4
            + squared(a * denom - 2.0 * d * im) * vd / denom4,
    }
}

fn binary(op: BinaryOp, x: Number, y: Number) -> Number {
    match op {
        BinaryOp::Add => Number {
            re: x.re + y.re,
            im: x.im + y.im,
            vre: x.vre + y.vre,
            vim: x.vim + y.vim,
        },
        BinaryOp::Subtract => Number {
            re: x.re - y.re,
            im: x.im - y.im,
            vre: x.vre + y.vre,
            vim: x.vim + y.vim,
        },
        BinaryOp::Multiply => multiply(x, y),
        BinaryOp::Divide => divide(x, y),
        BinaryOp::PlusMinus => Number { re: x.re, im: x.im, vre: y.re * y.re, vim: y.im * y.im },
        BinaryOp::Equal => truth(x == y),
        BinaryOp::Greater => truth(x.re > y.re),
        BinaryOp::GreaterEqual => truth(x.re >= y.re),
        BinaryOp::Less => truth(x.re < y.re),
        BinaryOp::LessEqual => truth(x.re <= y.re),
        BinaryOp::Max => {
            if x.re >= y.re {
                x
            } else {
                y
            }
        }
        BinaryOp::Min => {
            if x.re <= y.re {
                x
            } else {
                y
            }
        }
    }
}

/// Carries out a computation that the evaluator asks for.
fn compute(numeric: &Numeric) -> Complex {
    let result = match numeric {
        Numeric::Literal(text, form) => literal(text, form),
        Numeric::Unary(op, a) => unary(*op, Number::from(*a)),
        Numeric::Binary(op, a, b) => binary(*op, Number::from(*a), Number::from(*b)),
        Numeric::Rescale(a, scale) => {
            let (factor, shift) = scale_value(scale);
            let n = Number::from(*a);
            Number {
                re: (n.re + shift) * factor,
                im: n.im * factor,
                vre: n.vre * factor * factor,
                vim: n.vim * factor * factor,
            }
        }
        Numeric::Convert(a, scale) => {
            let (factor, shift) = scale_value(scale);
            let n = Number::from(*a);
            Number {
                re: (n.re + shift) / factor,
                im: n.im / factor,
                vre: n.vre / factor / factor,
                vim: n.vim / factor / factor,
            }
        }
    };
    Complex::from(result)
}

/// The integer that a quantity is, if it is a real, exact, non-zero integer.
fn to_index(c: &Complex) -> Option<i64> {
    let n = Number::from(*c);
    if n.im == 0.0 && n.vim == 0.0 && n.vre == 0.0 {
        let whole = n.re.floor();
        if n.re == whole && n.re != 0.0 {
            return Some(whole as i64);
        }
    }
    None
}

fn superscript(text: &str) -> String {
    text.chars()
        .map(|c| match c {
            '0' => '⁰',
            '1' => '¹',
            '2' => '²',
            '3' => '³',
            '4' => '⁴',
            '5' => '⁵',
            '6' => '⁶',
            '7' => '⁷',
            '8' => '⁸',
            '9' => '⁹',
            '+' => '⁺',
            '-' => '⁻',
            other => other,
        })
        .collect()
}

/// A value with its standard deviation, both at their common order of
/// magnitude.
fn number_to_text(x: f64, sx: f64, force_parenthesis: bool) -> String {
    let og: i32 = x.abs().log10().floor() as i32;
    let ogs: i32 = sx.abs().log10().floor() as i32;
    let common_og = if og == i32::MIN && ogs == i32::MIN { 0 } else { i32::max(og, ogs) };
    let power = 10f64.powi(common_og);
    let digits = if ogs == i32::MIN {
        0
    } else {
        (common_og as i64 - ogs as i64).clamp(0, 340) as usize
    };
    let mantissa_x = format!("{0:.1$}", x / power, digits);
    let mantissa_sx = format!("{0:.1$}", sx / power, digits);
    if common_og == 0 {
        if force_parenthesis {
            format!("({mantissa_x} ± {mantissa_sx})")
        } else {
            format!("{mantissa_x} ± {mantissa_sx}")
        }
    } else {
        format!("({mantissa_x} ± {mantissa_sx})×10{}", superscript(&common_og.to_string()))
    }
}

/// Writes the pieces of a value into one text.
fn render(pieces: &[Piece]) -> String {
    let mut out = String::new();
    for piece in pieces {
        match piece {
            Piece::Text(text) => out.push_str(text),
            Piece::Plain(x) => out.push_str(&format!("{}", f64::from_bits(x.bits))),
            Piece::Measured(x, variance, parenthesis) => out.push_str(&number_to_text(
                f64::from_bits(x.bits),
                f64::from_bits(variance.bits).sqrt(),
                *parenthesis,
            )),
        }
    }
    out
}

#[derive(Debug)]
enum Failure {
    Lex(LexError),
    Parse(ParseError),
    Eval(EvalError),
}

fn parse(source: &str) -> Result<Tree, Failure> {
    let mut lexer = Lexer::new();
    lexer.text = String::from(source);
    lexer.lex().map_err(Failure::Lex)?;
    ast(&lexer.lexems).map_err(Failure::Parse)
}

fn drive(evaluator: &mut Evaluator, output: &mut String) -> Result<RValue, EvalError> {
    let mut reply = Reply::Nothing;
    let mut steps = 0;
    loop {
        steps += 1;
        assert!(steps < 1_000_000, "the program does not end");
        reply = match evaluator.eval(reply, 64) {
            Request::Continue => Reply::Nothing,
            Request::Compute(numeric) => Reply::Number(compute(&numeric)),
            Request::ToIndex(c) => Reply::Integer(to_index(&c)),
            Request::Render(pieces) => Reply::Text(render(&pieces)),
            Request::Emit(pieces) => {
                output.push_str(&render(&pieces));
                Reply::Nothing
            }
            Request::Finished(outcome) => return outcome,
        };
    }
}

fn run_with_output(source: &str) -> (Result<RValue, Failure>, String) {
    let mut output = String::new();
    let tree = match parse(source) {
        Ok(tree) => tree,
        Err(e) => return (Err(e), output),
    };
    let mut evaluator = Evaluator::from_tree(&tree);
    let outcome = drive(&mut evaluator, &mut output).map_err(Failure::Eval);
    (outcome, output)
}

fn run(source: &str) -> Result<RValue, Failure> {
    run_with_output(source).0
}

fn bits_of(x: f64) -> Real {
    Real { bits: x.to_bits() }
}

fn quantity(re: f64, im: f64, vre: f64, vim: f64, unit: Unit) -> Quantity {
    Quantity { re: bits_of(re), im: bits_of(im), vre: bits_of(vre), vim: bits_of(vim), unit }
}

fn plain(x: f64) -> Quantity {
    quantity(x, 0.0, 0.0, 0.0, Unit::unitless())
}

fn number(v: &RValue) -> Quantity {
    match v {
        RValue::Number(q) => *q,
        other => panic!("not a number: {:?}", other),
    }
}

fn value_of(source: &str) -> f64 {
    let q = number(&run(source).expect(source));
    assert!(q.is_real(), "{} is not real", source);
    f64::from_bits(q.re.bits)
}

fn eval_error(source: &str) -> EvalError {
    match run(source) {
        Err(Failure::Eval(e)) => e,
        other => panic!("{} did not fail in evaluation: {:?}", source, other),
    }
}

fn parse_error(source: &str) -> ParseError {
    match parse(source) {
        Err(Failure::Parse(e)) => e,
        other => panic!("{} did not fail in parsing: {:?}", source, other),
    }
}

fn metre() -> Unit {
    Unit { metre: 1, ..Unit::unitless() }
}

fn second() -> Unit {
    Unit { second: 1, ..Unit::unitless() }
}

fn kilogram() -> Unit {
    Unit { kilogram: 1, ..Unit::unitless() }
}

fn operator(tree: &Tree) -> Operator {
    match &tree.node {
        Node::Operator(op) => *op,
        other => panic!("not an operator: {:?}", other),
    }
}

fn digits(tree: &Tree) -> &str {
    match &tree.node {
        Node::Number(text, _) => text.as_str(),
        other => panic!("not a number: {:?}", other),
    }
}

#[test]
fn precedence_of_product_over_sum() {
    assert_eq!(value_of("2 + 3 * 4"), 14.0);
    assert_eq!(value_of("2 * 3 + 4"), 10.0);
    assert_eq!(value_of("(2 + 3) * 4"), 20.0);
    assert_eq!(value_of("20 / 4 / 5"), 1.0);
    assert_eq!(value_of("10 - 4 - 3"), 3.0);
}

#[test]
fn powers_fold_to_the_left() {
    let tree = parse("2 ^ 3 ^ 2").unwrap();
    assert_eq!(operator(&tree), Operator::Power);
    assert!(tree.has_value);
    assert_eq!(tree.children.len(), 2);
    assert_eq!(operator(&tree.children[0]), Operator::Power);
    assert_eq!(digits(&tree.children[0].children[0]), "2");
    assert_eq!(digits(&tree.children[0].children[1]), "3");
    assert_eq!(digits(&tree.children[1]), "2");
}

#[test]
fn power_has_no_rule_of_evaluation() {
    assert!(matches!(eval_error("2 ^ 3 ^ 2"), EvalError::UnknownOperator(Operator::Power)));
}

#[test]
fn unary_minus_after_an_operator() {
    let tree = parse("2-(2 * !-3)").unwrap();
    assert_eq!(operator(&tree), Operator::Minus);
    assert_eq!(tree.children.len(), 2);
    assert_eq!(digits(&tree.children[0]), "2");
    let product = &tree.children[1];
    assert_eq!(operator(product), Operator::Times);
    let bang = &product.children[1];
    assert_eq!(operator(bang), Operator::Bang);
    assert_eq!(bang.children.len(), 1);
    let minus = &bang.children[0];
    assert_eq!(operator(minus), Operator::Minus);
    assert_eq!(minus.children.len(), 1);
    assert_eq!(digits(&minus.children[0]), "3");
}

#[test]
fn bang_is_logical_not() {
    assert_eq!(value_of("!-3"), 0.0);
    assert_eq!(value_of("!0"), 1.0);
    assert_eq!(value_of("!!5"), 1.0);
    assert_eq!(value_of("2-(2 * !-3)"), 2.0);
    assert_eq!(value_of("2-(2 * -3)"), 8.0);
}

#[test]
fn certainty_check() {
    assert_eq!(value_of("0?"), 0.0);
    assert_eq!(value_of("23??"), 1.0);
    assert_eq!(value_of("(3+3)? and 4?"), 1.0);
}

#[test]
fn logic() {
    assert_eq!(value_of("1 and 0"), 0.0);
    assert_eq!(value_of("1 or 0"), 1.0);
    assert_eq!(value_of("0 or 0"), 0.0);
    assert_eq!(value_of("( (1 and !0) or 0 ) + 2"), 3.0);
}

#[test]
fn comparisons() {
    assert_eq!(value_of("1 < 2"), 1.0);
    assert_eq!(value_of("2 <= 2"), 1.0);
    assert_eq!(value_of("1 > 2"), 0.0);
    assert_eq!(value_of("3 >= 4"), 0.0);
    assert_eq!(value_of("3 == 3"), 1.0);
    assert_eq!(value_of("3 == 4"), 0.0);
    assert_eq!(value_of("1 + 1 == 2"), 1.0);
}

#[test]
fn comparison_needs_real_operands() {
    assert!(matches!(eval_error("3i < 2"), EvalError::NotReal));
    assert!(matches!(eval_error("2 < 3i"), EvalError::NotReal));
}

#[test]
fn matrix_indexing_by_row_and_column() {
    let v = run("{m = [1,2;3,4]; m[2,1]}").unwrap();
    assert_eq!(number(&v), plain(3.0));
    assert_eq!(value_of("{m = [1,2;3,4]; m[1,2]}"), 2.0);
    assert_eq!(value_of("{m = [1,2;3,4]; m[-1,-1]}"), 4.0);
    assert_eq!(value_of("{m = [1,2;3,4]; m[-2,1]}"), 1.0);
}

#[test]
fn a_matrix_literal_cannot_be_indexed_directly() {
    assert_eq!(parse_error("[1,2;3,4][2,1]"), ParseError::Unreduced);
}

#[test]
fn column_vector_indexing() {
    assert_eq!(value_of("{v = [7;8;9]; v[2]}"), 8.0);
    assert_eq!(value_of("{v = [7;8;9]; v[-1]}"), 9.0);
    assert!(matches!(eval_error("{v = [7;8;9]; v[4]}"), EvalError::IndexOutOfBounds));
    assert!(matches!(eval_error("{v = [7;8;9]; v[0]}"), EvalError::BadIndex));
    assert!(matches!(eval_error("{v = [7;8;9]; v[1.5]}"), EvalError::BadIndex));
    assert!(matches!(eval_error("{v = [7,8,9]; v[1]}"), EvalError::IndexArity(1)));
    assert!(matches!(eval_error("{v = [1,2;3,4]; v[3,1]}"), EvalError::IndexOutOfBounds));
    assert!(matches!(eval_error("{v = [1,2;3,4]; v[1,3]}"), EvalError::IndexOutOfBounds));
    assert!(matches!(eval_error("{v = 3; v[1]}"), EvalError::Mismatch { expected: Kind::Matrix, found: Kind::Number }));
    assert!(matches!(eval_error("w[1]"), EvalError::UndefinedVariable(_)));
}

#[test]
fn while_collects_the_values_of_its_body() {
    match run("{x = 0; while x < 3 { x = x + 1; x }}").unwrap() {
        RValue::Matrix(1, 3, cells) => {
            assert_eq!(number(&cells[0]), plain(1.0));
            assert_eq!(number(&cells[1]), plain(2.0));
            assert_eq!(number(&cells[2]), plain(3.0));
        }
        other => panic!("not a column of three: {:?}", other),
    }
}

#[test]
fn while_with_an_assignment_as_body() {
    match run("{x = 0; while x < 3 { x = x + 1 }}").unwrap() {
        RValue::Matrix(1, 3, cells) => {
            assert_eq!(cells.len(), 3);
            assert!(cells.iter().all(|c| matches!(c, RValue::Void)));
        }
        other => panic!("not a column of three: {:?}", other),
    }
}

#[test]
fn while_needs_a_number_as_condition() {
    assert!(matches!(
        eval_error("while \"yes\" { 1 }"),
        EvalError::Mismatch { expected: Kind::Number, found: Kind::String }
    ));
}

#[test]
fn if_and_else() {
    assert_eq!(value_of("if 1 { 10 } else { 20 }"), 10.0);
    assert_eq!(value_of("if 0 { 10 } else { 20 }"), 20.0);
    assert_eq!(value_of("if 0 { 10 } else if 1 { 30 } else { 20 }"), 30.0);
    assert_eq!(value_of("if 0 { 10 } else if 0 { 30 } else { 20 }"), 20.0);
    assert!(matches!(run("if 0 { 10 }").unwrap(), RValue::Void));
    assert_eq!(value_of("if 2 > 1 { 10 }"), 10.0);
}

#[test]
fn for_visits_a_matrix_column_by_column() {
    match run("{m = [1,2;3,4]; for x in m { x * 10 }}").unwrap() {
        RValue::Matrix(2, 2, cells) => {
            let seen: Vec<f64> = cells.iter().map(|c| f64::from_bits(number(c).re.bits)).collect();
            assert_eq!(seen, vec![10.0, 30.0, 20.0, 40.0]);
        }
        other => panic!("not a matrix: {:?}", other),
    }
    match run("for x in [1,2,3] { x + 1 }").unwrap() {
        RValue::Matrix(3, 1, cells) => {
            let seen: Vec<f64> = cells.iter().map(|c| f64::from_bits(number(c).re.bits)).collect();
            assert_eq!(seen, vec![2.0, 3.0, 4.0]);
        }
        other => panic!("not a matrix: {:?}", other),
    }
}

#[test]
fn for_over_something_else_than_a_matrix() {
    assert!(matches!(
        eval_error("for x in 3 { x }"),
        EvalError::Mismatch { expected: Kind::Matrix, found: Kind::Number }
    ));
    assert!(matches!(eval_error("for x in y { x }"), EvalError::UndefinedVariable(_)));
}

#[test]
fn interpolation_of_a_quantity() {
    let tree = parse("\"{x}\"").unwrap();
    let mut evaluator = Evaluator::from_tree(&tree);
    evaluator.set_var(String::from("x"), RValue::Number(quantity(5.0, 0.0, 0.0, 0.0, kilogram())));
    let mut output = String::new();
    match drive(&mut evaluator, &mut output).unwrap() {
        RValue::String(text) => assert_eq!(text, "5kg"),
        other => panic!("not a string: {:?}", other),
    }
}

#[test]
fn interpolation_in_a_display_unit() {
    match run("{d = 1500m; \"d = {d|km|}!\"}").unwrap() {
        RValue::String(text) => assert_eq!(text, "d = 1.5km!"),
        other => panic!("not a string: {:?}", other),
    }
    match run("{t = 3s; \"{t |ms| }\"}").unwrap() {
        RValue::String(text) => assert_eq!(text, "3000ms"),
        other => panic!("not a string: {:?}", other),
    }
}

#[test]
fn interpolation_escapes_and_failures() {
    match run("{x = 1; \"a\\{b\\\\c{ x }\"}").unwrap() {
        RValue::String(text) => assert_eq!(text, "a{b\\c1"),
        other => panic!("not a string: {:?}", other),
    }
    assert!(matches!(eval_error("\"{x\""), EvalError::Template(_)));
    assert!(matches!(eval_error("\"{x{y}}\""), EvalError::Template(_)));
    assert!(matches!(eval_error("\"{x}\""), EvalError::UndefinedVariable(_)));
    assert!(matches!(
        eval_error("{x = 1m; \"{x|s|}\"}"),
        EvalError::Unit(UnitError::Incompatible(_, _))
    ));
    assert!(matches!(eval_error("{x = 1m; \"{x|m| y}\"}"), EvalError::Template(_)));
}

#[test]
fn interpolation_of_other_values() {
    match run("{m = [1,2;3,4]; s = \"hi\"; \"{m} {s}\"}").unwrap() {
        RValue::String(text) => assert_eq!(text, "Matrix 2×2: [1, 2; 3, 4] hi"),
        other => panic!("not a string: {:?}", other),
    }
}

#[test]
fn wrong_number_of_arguments() {
    match eval_error("sin(1, 2)") {
        EvalError::FunctionArity { function, takes, given } => {
            assert_eq!(function, Function::Sin);
            assert_eq!(takes, 1);
            assert_eq!(given, 2);
        }
        other => panic!("not an arity error: {:?}", other),
    }
    assert!(matches!(
        eval_error("max(1)"),
        EvalError::FunctionArity { function: Function::Max, takes: 2, given: 1 }
    ));
    assert!(matches!(eval_error("nosuch(1)"), EvalError::UnknownFunction(_)));
}

#[test]
fn evaluation_is_repeatable() {
    let source = "{a = 3m; b = a * 2 / 4s; [a, b; b, a]}";
    let first = format!("{:?}", run(source).unwrap());
    let second = format!("{:?}", run(source).unwrap());
    assert_eq!(first, second);
    let tree = parse("x * 2 + sin(x)").unwrap();
    let mut outcomes = Vec::new();
    for _ in 0..2 {
        let mut evaluator = Evaluator::from_tree(&tree);
        evaluator.set_var(String::from("x"), RValue::Number(plain(0.5)));
        let mut output = String::new();
        outcomes.push(format!("{:?}", drive(&mut evaluator, &mut output).unwrap()));
    }
    assert_eq!(outcomes[0], outcomes[1]);
}

#[test]
fn sums_need_equal_units() {
    match eval_error("1m + 1s") {
        EvalError::Unit(UnitError::Incompatible(left, right)) => {
            assert_eq!(left, metre());
            assert_eq!(right, second());
        }
        other => panic!("not a unit error: {:?}", other),
    }
    assert!(matches!(eval_error("1m - 1s"), EvalError::Unit(UnitError::Incompatible(_, _))));
    assert!(matches!(eval_error("1m == 1s"), EvalError::Unit(UnitError::Incompatible(_, _))));
    assert!(matches!(eval_error("1m < 1s"), EvalError::Unit(UnitError::Incompatible(_, _))));
    assert!(matches!(eval_error("1m <= 1s"), EvalError::Unit(UnitError::Incompatible(_, _))));
    assert!(matches!(eval_error("1m > 1s"), EvalError::Unit(UnitError::Incompatible(_, _))));
    assert!(matches!(eval_error("1m >= 1s"), EvalError::Unit(UnitError::Incompatible(_, _))));
    assert!(matches!(eval_error("1m pm 1s"), EvalError::Unit(UnitError::Incompatible(_, _))));
    assert_eq!(number(&run("1m + 2m").unwrap()), quantity(3.0, 0.0, 0.0, 0.0, metre()));
}

#[test]
fn products_combine_units() {
    let product = number(&run("6m * 2s").unwrap());
    assert_eq!(product, quantity(12.0, 0.0, 0.0, 0.0, metre().mul(second())));
    let quotient = number(&run("6m / 2s").unwrap());
    assert_eq!(quotient, quantity(3.0, 0.0, 0.0, 0.0, metre().div(second())));
    let speed = number(&run("3|m/s|").unwrap());
    assert_eq!(speed.unit, Unit { metre: 1, second: -1, ..Unit::unitless() });
}

#[test]
fn uncertainty_is_the_given_deviation() {
    assert_eq!(value_of("sigma(3 pm 2)"), 2.0);
    assert_eq!(value_of("sigma(3 pm -2)"), 2.0);
    assert_eq!(value_of("&(10 pm 0.5)"), 0.5);
    assert_eq!(value_of("sigma2(3 pm 2)"), 4.0);
    assert_eq!(number(&run("$(3 pm 2)").unwrap()), plain(3.0));
}

#[test]
fn variances_add() {
    let sum = number(&run("(1 pm 3) + (2 pm 4)").unwrap());
    assert_eq!(sum, quantity(3.0, 0.0, 25.0, 0.0, Unit::unitless()));
    let difference = number(&run("(1 pm 3) - (2 pm 4)").unwrap());
    assert_eq!(difference, quantity(-1.0, 0.0, 25.0, 0.0, Unit::unitless()));
    let product = number(&run("(2 pm 1) * (3 pm 2)").unwrap());
    assert_eq!(product, quantity(6.0, 0.0, 9.0 * 1.0 + 4.0 * 4.0, 0.0, Unit::unitless()));
}

#[test]
fn complex_numbers() {
    assert_eq!(number(&run("2 + 3i").unwrap()), quantity(2.0, 3.0, 0.0, 0.0, Unit::unitless()));
    assert_eq!(number(&run("(1 + 2i) * (3 + 4i)").unwrap()), quantity(-5.0, 10.0, 0.0, 0.0, Unit::unitless()));
    assert_eq!(number(&run("Re(2 + 3i)").unwrap()), plain(2.0));
    assert_eq!(number(&run("imag(2 + 3j)").unwrap()), quantity(0.0, 3.0, 0.0, 0.0, Unit::unitless()));
    assert_eq!(value_of("abs(3 + 4i)"), 5.0);
    assert_eq!(number(&run("i(2)").unwrap()).im, bits_of(2.0));
    assert_eq!(value_of("exp(0)"), 1.0);
    assert_eq!(value_of("sin(0)"), 0.0);
    assert_eq!(value_of("cos(0)"), 1.0);
    assert_eq!(value_of("max(2, 5)"), 5.0);
    assert_eq!(value_of("min(2, 5)"), 2.0);
}

#[test]
fn functions_of_pure_numbers_only() {
    assert!(matches!(eval_error("sin(1m)"), EvalError::NotUnitless(Function::Sin)));
    assert!(matches!(eval_error("cos(1m)"), EvalError::NotUnitless(Function::Cos)));
    assert!(matches!(eval_error("exp(1m)"), EvalError::NotUnitless(Function::Exp)));
    assert!(matches!(
        eval_error("sin(\"a\")"),
        EvalError::Mismatch { expected: Kind::Number, found: Kind::String }
    ));
}

#[test]
fn unit_blocks_scale_and_shift() {
    assert_eq!(number(&run("2|km|").unwrap()), quantity(2000.0, 0.0, 0.0, 0.0, metre()));
    let freezing = number(&run("0|°C|").unwrap());
    assert_eq!(freezing.unit, Unit { kelvin: 1, ..Unit::unitless() });
    assert_eq!(f64::from_bits(freezing.re.bits), -273.15);
    assert!(matches!(eval_error("2m|km|"), EvalError::AlreadyHasUnit));
    assert_eq!(number(&run("90°").unwrap()).unit, Unit::unitless());
    assert_eq!(value_of("50%"), 0.5);
}

#[test]
fn write_and_print() {
    let (outcome, output) = run_with_output("{write(1, \"a\"); print(2m, 3)}");
    assert!(matches!(outcome.unwrap(), RValue::Void));
    assert_eq!(output, "1a2m 3 \n");
    let (_, shown) = run_with_output("print(1 pm 0.5, 2 + 3i, [1, \"x\"])");
    assert_eq!(shown, "1.0 ± 0.5 2 + 3i Matrix 1×2: [1, \"x\"] \n");
    assert!(matches!(
        eval_error("write()"),
        EvalError::FunctionArity { function: Function::Write, takes: 1, given: 0 }
    ));
}

#[test]
fn assert_and_error() {
    assert!(matches!(run("assert(1)").unwrap(), RValue::Void));
    assert!(matches!(run("assert(2 > 1)").unwrap(), RValue::Void));
    assert!(matches!(eval_error("assert(0)"), EvalError::Failed(None)));
    assert!(matches!(eval_error("assert(1 pm 1)"), EvalError::Failed(None)));
    match eval_error("assert(1 > 2, \"too small\")") {
        EvalError::Failed(Some(message)) => assert_eq!(message, "too small"),
        other => panic!("not a failure: {:?}", other),
    }
    match eval_error("error(\"stop\")") {
        EvalError::Failed(Some(message)) => assert_eq!(message, "stop"),
        other => panic!("not a failure: {:?}", other),
    }
    assert!(matches!(eval_error("error()"), EvalError::Failed(None)));
}

#[test]
fn variables_and_blocks() {
    assert_eq!(value_of("{x = 2; y = x * 3; y + 1}"), 7.0);
    assert!(matches!(run("{}").unwrap(), RValue::Void));
    assert!(matches!(run("x = 2").unwrap(), RValue::Void));
    assert!(matches!(eval_error("y"), EvalError::UndefinedVariable(_)));
    assert!(matches!(run("").unwrap(), RValue::Void));
}

#[test]
fn the_evaluator_ends_once() {
    let tree = parse("1").unwrap();
    let mut evaluator = Evaluator::from_tree(&tree);
    let mut output = String::new();
    assert_eq!(number(&drive(&mut evaluator, &mut output).unwrap()), plain(1.0));
    assert!(matches!(evaluator.step(Reply::Nothing), Request::Finished(Err(EvalError::Halted))));
}

#[test]
fn an_unexpected_answer_ends_the_evaluation() {
    let tree = parse("1").unwrap();
    let mut evaluator = Evaluator::from_tree(&tree);
    assert!(matches!(evaluator.step(Reply::Nothing), Request::Compute(Numeric::Literal(_, LiteralForm::Plain))));
    assert!(matches!(
        evaluator.step(Reply::Text(String::from("one"))),
        Request::Finished(Err(EvalError::Protocol))
    ));
}

#[test]
fn steps_of_a_sum() {
    let tree = parse("1 + 2").unwrap();
    let mut evaluator = Evaluator::from_tree(&tree);
    assert!(matches!(evaluator.step(Reply::Nothing), Request::Continue));
    assert!(matches!(evaluator.step(Reply::Nothing), Request::Compute(Numeric::Literal(_, _))));
    assert!(matches!(evaluator.step(Reply::Number(Complex::from(exact(1.0, 0.0)))), Request::Continue));
    assert!(matches!(evaluator.step(Reply::Nothing), Request::Continue));
    assert!(matches!(evaluator.step(Reply::Nothing), Request::Compute(Numeric::Literal(_, _))));
    assert!(matches!(evaluator.step(Reply::Number(Complex::from(exact(2.0, 0.0)))), Request::Continue));
    match evaluator.step(Reply::Nothing) {
        Request::Compute(Numeric::Binary(BinaryOp::Add, a, b)) => {
            assert_eq!(a, Complex::from(exact(1.0, 0.0)));
            assert_eq!(b, Complex::from(exact(2.0, 0.0)));
        }
        other => panic!("not a sum: {:?}", other),
    }
    assert!(matches!(evaluator.step(Reply::Number(Complex::from(exact(3.0, 0.0)))), Request::Continue));
    match evaluator.step(Reply::Nothing) {
        Request::Finished(Ok(v)) => assert_eq!(number(&v), plain(3.0)),
        other => panic!("not finished: {:?}", other),
    }
}

#[test]
fn zero_and_one_as_bit_patterns() {
    assert!(bits_of(0.0).is_zero());
    assert!(bits_of(-0.0).is_zero());
    assert!(!bits_of(f64::MIN_POSITIVE).is_zero());
    assert!(!bits_of(f64::NAN).is_zero());
    assert!(bits_of(1.0).is_one());
    assert!(!bits_of(-1.0).is_one());
    assert_eq!(Real::zero(), bits_of(0.0));
    assert_eq!(Real::one(), bits_of(1.0));
    for x in [0.0, -0.0, 1.0, -1.0, 0.5, 2.0, f64::INFINITY, f64::NAN, 1e-320] {
        assert_eq!(bits_of(x).is_zero(), x == 0.0);
        assert_eq!(bits_of(x).is_one(), x == 1.0);
    }
}

#[test]
fn quantities_by_parts() {
    let q = quantity(1.0, 2.0, 3.0, 4.0, metre());
    assert_eq!(q.value(), quantity(1.0, 2.0, 0.0, 0.0, metre()));
    assert_eq!(q.real_part(), quantity(1.0, 0.0, 3.0, 0.0, metre()));
    assert_eq!(q.imag_part(), quantity(0.0, 2.0, 0.0, 4.0, metre()));
    assert_eq!(q.sigma2(), Some(quantity(3.0, 4.0, 0.0, 0.0, Unit { metre: 2, ..Unit::unitless() })));
    assert!(!q.is_real());
    assert!(quantity(1.0, 0.0, 3.0, 0.0, metre()).is_real());
    assert!(quantity(0.0, 2.0, 0.0, 4.0, metre()).is_imaginary());
    assert!(!quantity(0.0, 2.0, 0.0, 0.0, metre()).is_imaginary());
    assert!(plain(0.0).is_null());
    assert!(!quantity(0.0, 0.0, 0.0, 0.0, metre()).is_null());
    assert!(plain(1.0).is_unity());
    assert_eq!(Quantity::truth(true), plain(1.0));
    assert_eq!(Quantity::truth(false), plain(0.0));
    let far = quantity(1.0, 0.0, 1.0, 0.0, Unit { metre: 100, ..Unit::unitless() });
    assert_eq!(far.sigma2(), None);
}

#[test]
fn forms_of_a_literal() {
    assert_eq!(Quantity::decorator_form(""), Ok((Unit::unitless(), LiteralForm::Plain)));
    assert_eq!(Quantity::decorator_form("i"), Ok((Unit::unitless(), LiteralForm::Imaginary)));
    assert_eq!(Quantity::decorator_form("j"), Ok((Unit::unitless(), LiteralForm::Imaginary)));
    assert_eq!(
        Quantity::decorator_form("km"),
        Ok((
            metre(),
            LiteralForm::Scaled(Factor { prefix: Prefix::Kilo, symbol: Symbol::Metre, exponent: None })
        ))
    );
    assert_eq!(Quantity::decorator_form("xyz"), Err(UnitError::UnknownSymbol));
    assert!(matches!(eval_error("3xyz"), EvalError::Unit(UnitError::UnknownSymbol)));
}

fn leaf(node: Node, has_value: bool) -> Tree {
    Tree { node, children: Vec::new(), has_value }
}

fn variable(name: &str) -> Tree {
    leaf(Node::Variable(String::from(name)), true)
}

fn literal_tree(digits: &str) -> Tree {
    leaf(Node::Number(String::from(digits), String::new()), true)
}

fn evaluate(tree: &Tree) -> Result<RValue, EvalError> {
    let mut evaluator = Evaluator::from_tree(tree);
    let mut output = String::new();
    drive(&mut evaluator, &mut output)
}

#[test]
fn trees_that_no_text_gives() {
    let three = Tree {
        node: Node::Operator(Operator::Plus),
        children: vec![literal_tree("1"), literal_tree("2"), literal_tree("3")],
        has_value: true,
    };
    assert!(matches!(evaluate(&three), Err(EvalError::OperatorArity(Operator::Plus, 3))));
    let none = leaf(Node::Operator(Operator::Times), true);
    assert!(matches!(evaluate(&none), Err(EvalError::OperatorArity(Operator::Times, 0))));
    let target = Tree {
        node: Node::Operator(Operator::Assign),
        children: vec![literal_tree("1"), literal_tree("2")],
        has_value: true,
    };
    assert!(matches!(evaluate(&target), Err(EvalError::AssignTarget)));
    let keyword = leaf(Node::Keyword(Keyword::In), false);
    assert!(matches!(evaluate(&keyword), Err(EvalError::Keyword(Keyword::In))));
    let unit_block = match parse("1|m|").unwrap() {
        Tree { node, .. } => leaf(node, true),
    };
    assert!(matches!(evaluate(&unit_block), Err(EvalError::UnitBlockArity(0))));
    let looped = Tree {
        node: Node::Operator(Operator::For),
        children: vec![literal_tree("1"), variable("m"), leaf(Node::Block, true)],
        has_value: true,
    };
    assert!(matches!(evaluate(&looped), Err(EvalError::LoopShape)));
    let unvalued = Tree {
        node: Node::Operator(Operator::For),
        children: vec![variable("x"), leaf(Node::Operator(Operator::Plus), false), leaf(Node::Block, true)],
        has_value: true,
    };
    assert!(matches!(evaluate(&unvalued), Err(EvalError::LoopShape)));
    for op in [Operator::NotEqual, Operator::Nand, Operator::Xor, Operator::Else, Operator::Power] {
        let tree = Tree {
            node: Node::Operator(op),
            children: vec![literal_tree("1"), literal_tree("2")],
            has_value: true,
        };
        assert!(matches!(evaluate(&tree), Err(EvalError::UnknownOperator(found)) if found == op));
    }
    let index = leaf(Node::MatrixIndexing(String::from("m")), true);
    assert!(matches!(
        evaluate(&index),
        Err(EvalError::Mismatch { expected: Kind::Number, found: Kind::Void })
    ));
    let matrix = leaf(Node::MatrixBlock(3, 4), true);
    assert!(matches!(evaluate(&matrix), Ok(RValue::Matrix(3, 4, cells)) if cells.is_empty()));
}

#[test]
fn templates_that_are_malformed() {
    assert!(matches!(eval_error("\"{\""), EvalError::Template(TemplateError::Unclosed)));
    assert!(matches!(eval_error("\"{x\""), EvalError::Template(TemplateError::Unclosed)));
    assert!(matches!(eval_error("\"{x{\""), EvalError::Template(TemplateError::Nested)));
    assert!(matches!(eval_error("\"{x|m}\""), EvalError::Template(TemplateError::UnclosedUnit)));
    assert!(matches!(eval_error("\"{x|\""), EvalError::Template(TemplateError::UnclosedUnit)));
    assert!(matches!(
        eval_error("{x = 1; \"{x|m|y}\"}"),
        EvalError::Template(TemplateError::TextAfterUnit)
    ));
    assert!(matches!(
        eval_error("{x = 1m; \"{x|m/s/s|}\"}"),
        EvalError::Unit(UnitError::RepeatedDivision)
    ));
    assert!(matches!(eval_error("\"{}\""), EvalError::UndefinedVariable(name) if name.is_empty()));
}

#[test]
fn values_that_cannot_be_written() {
    assert!(matches!(eval_error("print(1m100 * 1m19)"), EvalError::Undisplayable));
    assert!(matches!(eval_error("{x = 1m100 * 1m19; \"{x}\"}"), EvalError::Undisplayable));
    assert!(matches!(eval_error("error(1m100 * 1m19)"), EvalError::Undisplayable));
    match run("{x = 1m100 * 1m19; \"{x|m119|}\"}").unwrap() {
        RValue::String(text) => assert_eq!(text, "1m119"),
        other => panic!("not a string: {:?}", other),
    }
}

#[test]
fn exponents_out_of_range() {
    assert!(matches!(eval_error("1m100 * 1m100"), EvalError::Unit(UnitError::ExponentOverflow)));
    assert!(matches!(eval_error("1m100 / 1|m-100|"), EvalError::Unit(UnitError::ExponentOverflow)));
    assert!(matches!(eval_error("sigma2(1m100)"), EvalError::Unit(UnitError::ExponentOverflow)));
    assert!(matches!(eval_error("1m200"), EvalError::Unit(UnitError::MalformedExponent)));
    assert_eq!(number(&run("1m100 * 1m27").unwrap()).unit, Unit { metre: 127, ..Unit::unitless() });
}

#[test]
fn longer_expressions() {
    assert_eq!(value_of("!1 and !!(2*3) and 23?? or (3+3)? and 4?"), 1.0);
    let expected = 2.0 * (3.0 + 1.0) + (-1.0f64).sin() + 1.0 + 1.0f64.exp();
    assert_eq!(value_of("2 * (3+1) + sin(-1) + 1 + exp(1)"), expected);
    assert!(matches!(
        eval_error("( floor(2 * asin(1) + pow(3, 0)) + (1 > 2) ) / 3"),
        EvalError::UnknownFunction(name) if name == "floor"
    ));
    assert!(matches!(
        eval_error("2023.32/(5.4^2.1 * (3 - 1)) - 2^2^2"),
        EvalError::UnknownOperator(Operator::Power)
    ));
    assert_eq!(value_of("{a = [1,2;3,4]; s = 0; for x in a { s = s + x }; s}"), 10.0);
    assert_eq!(
        value_of("{n = 5; f = 1; while n > 1 { f = f * n; n = n - 1 }; f}"),
        120.0
    );
    assert_eq!(value_of("{x = 3; if x > 2 { y = 1 } else { y = 2 }; y}"), 1.0);
}

#[test]
fn a_loop_sees_the_matrix_as_it_is_at_each_cell() {
    assert!(matches!(
        eval_error("{m = [1,2,3]; for x in m { m = 5 }}"),
        EvalError::Mismatch { expected: Kind::Matrix, found: Kind::Number }
    ));
    assert!(matches!(
        eval_error("{m = [1,2,3]; for x in m { m = [1] }}"),
        EvalError::IndexOutOfBounds
    ));
    match run("{m = [1,2,3]; for x in m { m = [7,8,9]; x }}").unwrap() {
        RValue::Matrix(3, 1, cells) => {
            let seen: Vec<f64> = cells.iter().map(|c| f64::from_bits(number(c).re.bits)).collect();
            assert_eq!(seen, vec![1.0, 8.0, 9.0]);
        }
        other => panic!("not a matrix: {:?}", other),
    }
}

#[test]
fn division_propagates_variances() {
    let q = number(&run("(6 pm 0.3) / (2 pm 0.1)").unwrap());
    let (a, c, va, vc) = (6.0f64, 2.0f64, 0.3f64 * 0.3, 0.1f64 * 0.1);
    let denom = c * c;
    let expected = c * c * va / (denom * denom)
        + (a * denom - 2.0 * c * (a * c)) * (a * denom - 2.0 * c * (a * c)) * vc
            / (denom * denom * denom * denom);
    assert_eq!(f64::from_bits(q.re.bits), 3.0);
    assert_eq!(f64::from_bits(q.vre.bits), expected);
    assert_eq!(f64::from_bits(q.vim.bits), 0.0 * va / (denom * denom) + 0.0);
}

#[test]
fn measurements_as_text() {
    assert_eq!(number_to_text(1.0, 0.5, false), "1.0 ± 0.5");
    assert_eq!(number_to_text(1.0, 0.5, true), "(1.0 ± 0.5)");
    assert_eq!(number_to_text(1234.0, 56.0, false), "(1.23 ± 0.06)×10³");
    assert_eq!(number_to_text(0.0123, 0.0004, false), "(1.23 ± 0.04)×10⁻²");
    assert_eq!(number_to_text(5.0, 20.0, false), "(0 ± 2)×10¹");
    let (_, shown) = run_with_output("write((1234 pm 56)|m|)");
    assert_eq!(shown, "(1.23 ± 0.06)×10³m");
    let (_, shown) = run_with_output("write(3 + 4i, \" \", (1 pm 1) + 2i)");
    assert_eq!(shown, "3 + 4i (1 ± 1) + i(2 ± 0)");
}
