use unitcalc::quantity::{Complex, Quantity, Real};
use unitcalc::render::{decimal_text, lay_out, lay_out_quantity, show, Piece};
use unitcalc::rules::{function_named, interpolate, trim};
use unitcalc::machine::{EvalError, Function, Move, Numeric, Pending, Progress, Request};
use unitcalc::unit::Unit;
use unitcalc::value::{Environment, Kind, RValue};

fn bits(x: f64) -> Real {
    Real { bits: x.to_bits() }
}

fn complex(re: f64, im: f64, vre: f64, vim: f64) -> Complex {
    Complex { re: bits(re), im: bits(im), vre: bits(vre), vim: bits(vim) }
}

fn brief(pieces: &[Piece]) -> String {
    let mut out = String::new();
    for piece in pieces {
        match piece {
            Piece::Text(text) => out.push_str(text),
            Piece::Plain(x) => out.push_str(&format!("<{}>", f64::from_bits(x.bits))),
            Piece::Measured(x, v, p) => out.push_str(&format!(
                "<{}~{}{}>",
                f64::from_bits(x.bits),
                f64::from_bits(v.bits),
                if *p { "!" } else { "" }
            )),
        }
    }
    out
}

fn number(re: f64, unit: Unit) -> RValue {
    RValue::Number(Quantity { re: bits(re), im: bits(0.0), vre: bits(0.0), vim: bits(0.0), unit })
}

#[test]
fn layouts_of_a_printed_quantity() {
    assert_eq!(brief(&show(&complex(1.0, 0.0, 0.0, 0.0), true, "", false)), "<1>");
    assert_eq!(brief(&show(&complex(1.0, 0.0, 4.0, 0.0), true, "", false)), "<1~4>");
    assert_eq!(brief(&show(&complex(1.0, 0.0, 0.0, 0.0), false, "m", false)), "<1>m");
    assert_eq!(brief(&show(&complex(1.0, 0.0, 4.0, 0.0), false, "m", false)), "<1~4>m");
    assert_eq!(brief(&show(&complex(1.0, 2.0, 0.0, 0.0), true, "", false)), "<1> + <2>i");
    assert_eq!(brief(&show(&complex(1.0, 2.0, 4.0, 0.0), true, "", false)), "<1~4!> + i<2~0!>");
    assert_eq!(brief(&show(&complex(1.0, 2.0, 0.0, 0.0), false, "m", false)), "(<1> + <2>i)m");
    assert_eq!(brief(&show(&complex(1.0, 2.0, 4.0, 9.0), false, "m", false)), "<1~4!>m + i<2~9!>m");
    assert_eq!(brief(&show(&complex(1.0, 0.0, 0.0, 9.0), true, "", false)), "<1~0!> + i<0~9!>");
}

#[test]
fn layouts_of_an_interpolated_quantity() {
    assert_eq!(brief(&show(&complex(1.0, 0.0, 0.0, 0.0), true, "", true)), "<1>");
    assert_eq!(brief(&show(&complex(1.0, 0.0, 4.0, 0.0), true, "", true)), "<1~4>");
    assert_eq!(brief(&show(&complex(1.0, 0.0, 0.0, 0.0), false, "km", true)), "<1>km");
    assert_eq!(brief(&show(&complex(1.0, 0.0, 4.0, 0.0), false, "km", true)), "<1~4!>km");
    assert_eq!(brief(&show(&complex(1.0, 2.0, 4.0, 0.0), true, "", true)), "<1~4!> + i<2~0>");
    assert_eq!(brief(&show(&complex(1.0, 2.0, 4.0, 9.0), false, "km", true)), "<1~4!>km + i<2~9!>km");
}

#[test]
fn printed_quantities_carry_their_unit() {
    let speed = Quantity {
        re: bits(3.0),
        im: bits(0.0),
        vre: bits(0.0),
        vim: bits(0.0),
        unit: Unit { metre: 1, second: -1, ..Unit::unitless() },
    };
    assert_eq!(brief(&lay_out_quantity(&speed).unwrap()), "<3>|m.s⁻¹|");
    let far = Quantity { unit: Unit { metre: 120, ..Unit::unitless() }, ..speed };
    assert!(lay_out_quantity(&far).is_none());
    assert!(lay_out(&RValue::Number(far)).is_none());
}

#[test]
fn printed_values() {
    assert_eq!(brief(&lay_out(&RValue::Void).unwrap()), "Void");
    assert_eq!(brief(&lay_out(&RValue::String(String::from("a b"))).unwrap()), "a b");
    assert_eq!(brief(&lay_out(&number(2.0, Unit::unitless())).unwrap()), "<2>");
    let matrix = RValue::Matrix(
        2,
        2,
        vec![
            number(1.0, Unit::unitless()),
            RValue::String(String::from("two")),
            RValue::Void,
            RValue::Matrix(1, 1, vec![number(4.0, Unit { kilogram: 1, ..Unit::unitless() })]),
        ],
    );
    assert_eq!(
        brief(&lay_out(&matrix).unwrap()),
        "Matrix 2×2: [<1>, \"two\"; Void, Matrix 1×1: [<4>kg]]"
    );
    assert_eq!(brief(&lay_out(&RValue::Matrix(0, 0, vec![])).unwrap()), "Matrix 0×0: []");
    assert_eq!(brief(&lay_out(&RValue::Matrix(0, 3, vec![])).unwrap()), "Matrix 3×0: [; ; ]");
    assert_eq!(
        brief(&lay_out(&RValue::Matrix(12, 1, (0..12).map(|_| RValue::Void).collect())).unwrap()),
        format!("Matrix 1×12: [{}]", vec!["Void"; 12].join(", "))
    );
}

#[test]
fn a_matrix_that_lacks_cells_cannot_be_printed() {
    assert!(lay_out(&RValue::Matrix(2, 2, vec![RValue::Void, RValue::Void, RValue::Void])).is_none());
    assert!(lay_out(&RValue::Matrix(usize::MAX, usize::MAX, vec![RValue::Void])).is_none());
    let nested = RValue::Matrix(1, 1, vec![RValue::Matrix(1, 2, vec![RValue::Void])]);
    assert!(lay_out(&nested).is_none());
}

#[test]
fn decimal_digits() {
    assert_eq!(decimal_text(0), vec!['0']);
    assert_eq!(decimal_text(7), vec!['7']);
    assert_eq!(decimal_text(10), vec!['1', '0']);
    assert_eq!(decimal_text(9876543210).iter().collect::<String>(), "9876543210");
    assert_eq!(decimal_text(usize::MAX).iter().collect::<String>(), usize::MAX.to_string());
}

#[test]
fn values_have_kinds_and_copies() {
    let matrix = RValue::Matrix(1, 2, vec![RValue::String(String::from("a")), RValue::Void]);
    assert_eq!(RValue::Void.get_type(), Kind::Void);
    assert_eq!(number(1.0, Unit::unitless()).get_type(), Kind::Number);
    assert_eq!(RValue::String(String::new()).get_type(), Kind::String);
    assert_eq!(matrix.get_type(), Kind::Matrix);
    assert_eq!(format!("{:?}", matrix.duplicate()), format!("{:?}", matrix));
}

#[test]
fn variables_keep_their_last_value() {
    let mut vars = Environment::new();
    assert!(vars.get(&String::from("x")).is_none());
    vars.insert(String::from("x"), number(1.0, Unit::unitless()));
    vars.insert(String::from("y"), number(2.0, Unit::unitless()));
    vars.insert(String::from("x"), RValue::String(String::from("new")));
    assert_eq!(format!("{:?}", vars.get(&String::from("x"))), format!("{:?}", Some(&RValue::String(String::from("new")))));
    assert_eq!(format!("{:?}", vars.get(&String::from("y"))), format!("{:?}", Some(&number(2.0, Unit::unitless()))));
    assert!(vars.get(&String::from("z")).is_none());
    assert_eq!(vars.bindings.len(), 2);
    assert_eq!(vars.bindings[0].name, "x");
}

#[test]
fn names_of_functions() {
    let names = [
        ("sin", Function::Sin), ("cos", Function::Cos), ("i", Function::TimesI),
        ("exp", Function::Exp), ("Re", Function::Re), ("real", Function::Re),
        ("Im", Function::Im), ("imag", Function::Im), ("sigma", Function::Sigma),
        ("sigma2", Function::Sigma2), ("value", Function::Value), ("abs", Function::Abs),
        ("arg", Function::Arg), ("max", Function::Max), ("min", Function::Min),
        ("write", Function::Write), ("print", Function::Print), ("writeln", Function::Print),
        ("assert", Function::Assert), ("error", Function::Error),
    ];
    for (name, function) in names {
        assert_eq!(function_named(&String::from(name)), Some(function));
    }
    assert_eq!(function_named(&String::from("Sin")), None);
    assert_eq!(function_named(&String::from("")), None);
}

#[test]
fn trimming() {
    let text = |s: &str| s.chars().collect::<Vec<char>>();
    assert_eq!(trim(&text("  a b \t\n")), text("a b"));
    assert_eq!(trim(&text("a")), text("a"));
    assert_eq!(trim(&text("   ")), text(""));
    assert_eq!(trim(&text("")), text(""));
    assert_eq!(trim(&text("\u{a0}x\u{3000}")), text("x"));
    for sample in [" a ", "\t\tb", "c\r\n", "\u{2003}d\u{85}", "e f", "\u{200b}g"] {
        assert_eq!(trim(&text(sample)), text(sample.trim()));
    }
}

fn clusters(text: &str) -> Vec<Vec<char>> {
    text.chars().map(|c| vec![c]).collect()
}

#[test]
fn a_template_without_holes_is_its_text() {
    let vars = Environment::new();
    let progress = Progress { clusters: clusters("a\\{b\\\\c\\d"), position: 0, written: vec!['>'] };
    match interpolate(progress, &vars) {
        Move::Yield(RValue::String(text)) => assert_eq!(text, ">a{b\\cd"),
        other => panic!("not a text: {:?}", other),
    }
}

#[test]
fn a_hole_asks_for_the_value_of_its_variable() {
    let mut vars = Environment::new();
    vars.insert(String::from("x"), number(1500.0, Unit { metre: 1, ..Unit::unitless() }));
    vars.insert(String::from("s"), RValue::String(String::from("text")));
    match interpolate(Progress { clusters: clusters("d = { x | km | }."), position: 0, written: Vec::new() }, &vars) {
        Move::Ask(Request::Compute(Numeric::Convert(c, scale)), Pending::Converted { progress, quantity, unit }) => {
            assert_eq!(c, complex(1500.0, 0.0, 0.0, 0.0));
            assert_eq!(scale.numerator.len(), 1);
            assert!(scale.denominator.is_empty());
            assert_eq!(progress.position, 16);
            assert_eq!(progress.written, vec!['d', ' ', '=', ' ']);
            assert_eq!(quantity.unit, Unit { metre: 1, ..Unit::unitless() });
            assert_eq!(unit, "km");
        }
        other => panic!("not a conversion: {:?}", other),
    }
    match interpolate(Progress { clusters: clusters("{x}"), position: 0, written: Vec::new() }, &vars) {
        Move::Ask(Request::Compute(Numeric::Convert(_, scale)), Pending::Converted { unit, .. }) => {
            assert!(scale.numerator.is_empty());
            assert_eq!(unit, "m");
        }
        other => panic!("not a conversion: {:?}", other),
    }
    match interpolate(Progress { clusters: clusters("{s}!"), position: 0, written: Vec::new() }, &vars) {
        Move::Ask(Request::Render(pieces), Pending::Interpolated { progress }) => {
            assert_eq!(brief(&pieces), "text");
            assert_eq!(progress.position, 3);
        }
        other => panic!("not a rendering: {:?}", other),
    }
    match interpolate(Progress { clusters: clusters("{y}"), position: 0, written: Vec::new() }, &vars) {
        Move::Fail(EvalError::UndefinedVariable(name)) => assert_eq!(name, "y"),
        other => panic!("not a failure: {:?}", other),
    }
    let joined: Vec<Vec<char>> = vec![vec!['{'], vec!['x', '\u{301}'], vec!['}']];
    match interpolate(Progress { clusters: joined, position: 0, written: Vec::new() }, &vars) {
        Move::Fail(EvalError::UndefinedVariable(name)) => assert_eq!(name, "x\u{301}"),
        other => panic!("not a failure: {:?}", other),
    }
}
