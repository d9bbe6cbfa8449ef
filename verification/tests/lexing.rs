use unitcalc::lexer::{lex_clusters, Keyword, LexErrorKind, Lexem, Lexer, Operator};
use unitcalc::notation::{Factor, Prefix, Symbol, UnitError};
use unitcalc::unit::Unit;

fn tokens(source: &str) -> Vec<Lexem> {
    let mut lexer = Lexer::new();
    lexer.text = String::from(source);
    lexer.lex().expect(source);
    lexer.lexems
}

fn brief(token: &Lexem) -> String {
    match token {
        Lexem::LeftPar => String::from("("),
        Lexem::RightPar => String::from(")"),
        Lexem::LeftBracket => String::from("{"),
        Lexem::RightBracket => String::from("}"),
        Lexem::LeftSqBracket => String::from("["),
        Lexem::RightSqBracket => String::from("]"),
        Lexem::Identifier(name) => format!("id:{}", name),
        Lexem::Number(digits, decorator) => format!("num:{}:{}", digits, decorator),
        Lexem::Operator(op) => format!("op:{:?}", op),
        Lexem::Keyword(k) => format!("key:{:?}", k),
        Lexem::Comma => String::from(","),
        Lexem::SemiColon => String::from(";"),
        Lexem::UnitBlock(unit, _) => format!("unit:{}", unit.to_text().unwrap()),
        Lexem::StringBlock(text) => format!("str:{}", text),
    }
}

fn briefly(source: &str) -> Vec<String> {
    tokens(source).iter().map(brief).collect()
}

fn failure(source: &str) -> (usize, String, LexErrorKind) {
    let mut lexer = Lexer::new();
    lexer.text = String::from(source);
    match lexer.lex() {
        Err(e) => {
            assert!(lexer.lexems.is_empty());
            (e.position, e.cluster, e.kind)
        }
        Ok(()) => panic!("{} was lexed", source),
    }
}

#[test]
fn punctuation_and_operators() {
    assert_eq!(briefly("(){}[],;"), vec!["(", ")", "{", "}", "[", "]", ",", ";"]);
    assert_eq!(
        briefly("+ - * / ^ ? & $ ±"),
        vec![
            "op:Plus", "op:Minus", "op:Times", "op:Divide", "op:Power", "op:Question",
            "op:ErrorOf", "op:ValueOf", "op:PlusMinus"
        ]
    );
    assert_eq!(
        briefly("= == ! != > >= < <="),
        vec![
            "op:Assign", "op:Equal", "op:Bang", "op:NotEqual", "op:Greater", "op:GreaterEqual",
            "op:Less", "op:LessEqual"
        ]
    );
    assert_eq!(briefly("=!=<="), vec!["op:Assign", "op:NotEqual", "op:LessEqual"]);
    assert_eq!(briefly("<"), vec!["op:Less"]);
}

#[test]
fn words() {
    assert_eq!(
        briefly("or and nand xor if else pm while for in"),
        vec![
            "op:Or", "op:And", "op:Nand", "op:Xor", "op:If", "op:Else", "op:PlusMinus",
            "op:While", "op:For", "key:In"
        ]
    );
    assert_eq!(briefly("x _y z2 iff orb #n"), vec!["id:x", "id:_y", "id:z2", "id:iff", "id:orb", "id:#n"]);
    assert_eq!(briefly("αβ Ω_1 µ"), vec!["id:αβ", "id:Ω_1", "id:µ"]);
    assert_eq!(briefly("for x in m"), vec!["op:For", "id:x", "key:In", "id:m"]);
    assert!(matches!(&tokens("in")[0], Lexem::Keyword(Keyword::In)));
    assert!(matches!(&tokens("pm")[0], Lexem::Operator(Operator::PlusMinus)));
}

#[test]
fn numbers() {
    assert_eq!(briefly("5"), vec!["num:5:"]);
    assert_eq!(briefly("3.25"), vec!["num:3.25:"]);
    assert_eq!(briefly(".5"), vec!["num:.5:"]);
    assert_eq!(briefly("1'000'000"), vec!["num:1000000:"]);
    assert_eq!(briefly("5kg"), vec!["num:5:kg"]);
    assert_eq!(briefly("3i"), vec!["num:3:i"]);
    assert_eq!(briefly("20°C"), vec!["num:20:°C"]);
    assert_eq!(briefly("4kΩ"), vec!["num:4:kΩ"]);
    assert_eq!(briefly("9m2"), vec!["num:9:m2"]);
    assert_eq!(briefly("50%"), vec!["num:50:%"]);
    assert_eq!(briefly("2m.5"), vec!["num:2:m", "num:.5:"]);
    assert_eq!(briefly("3alpha+1"), vec!["num:3:alpha", "op:Plus", "num:1:"]);
    assert_eq!(briefly("1 2"), vec!["num:1:", "num:2:"]);
}

#[test]
fn an_apostrophe_after_the_decorator_is_no_token() {
    assert_eq!(failure("2m'"), (2, String::from("'"), LexErrorKind::Unrecognized));
}

#[test]
fn unit_block_tokens() {
    let found = tokens("|km / s|");
    assert_eq!(found.len(), 1);
    match &found[0] {
        Lexem::UnitBlock(unit, scale) => {
            assert_eq!(*unit, Unit { metre: 1, second: -1, ..Unit::unitless() });
            assert_eq!(scale.numerator, vec![Factor { prefix: Prefix::Kilo, symbol: Symbol::Metre, exponent: None }]);
            assert_eq!(scale.denominator, vec![Factor { prefix: Prefix::One, symbol: Symbol::Second, exponent: None }]);
        }
        other => panic!("not a unit block: {:?}", other),
    }
    assert_eq!(briefly("5|m|+1"), vec!["num:5:", "unit:m", "op:Plus", "num:1:"]);
    assert_eq!(briefly("| kg . m \n/ s2 |"), vec!["unit:N"]);
    assert_eq!(failure("1 |m"), (2, String::from("|"), LexErrorKind::UnterminatedUnitBlock));
    assert_eq!(failure("|xyz|"), (0, String::from("|"), LexErrorKind::BadUnit(UnitError::UnknownSymbol)));
    assert_eq!(failure("|m/s/s|"), (0, String::from("|"), LexErrorKind::BadUnit(UnitError::RepeatedDivision)));
}

#[test]
fn string_blocks() {
    assert_eq!(briefly("\"hello\""), vec!["str:hello"]);
    assert_eq!(briefly("\"\""), vec!["str:"]);
    assert_eq!(briefly("\"a\\nb\\tc\\\"d\""), vec!["str:a\nb\tc\"d"]);
    assert_eq!(briefly("\"a\\{b}\""), vec!["str:a\\{b}"]);
    assert_eq!(briefly("\"x\\\\n\""), vec!["str:x\\\n"]);
    assert_eq!(briefly("\"{x} + 1\" + 2"), vec!["str:{x} + 1", "op:Plus", "num:2:"]);
    assert_eq!(failure("\"abc"), (0, String::from("\""), LexErrorKind::UnterminatedStringBlock));
    assert_eq!(failure("x \"abc\\"), (2, String::from("\""), LexErrorKind::UnterminatedStringBlock));
}

#[test]
fn comments_and_blanks() {
    assert_eq!(briefly("1 \\\\ a comment ( \n2"), vec!["num:1:", "num:2:"]);
    assert_eq!(briefly("1 \\\\ to the end"), vec!["num:1:"]);
    assert_eq!(briefly(" \t\n "), Vec::<String>::new());
    assert_eq!(briefly(""), Vec::<String>::new());
    assert_eq!(failure("1 \\ 2"), (2, String::from("\\"), LexErrorKind::Unrecognized));
    assert_eq!(failure("1 \\"), (2, String::from("\\"), LexErrorKind::Unrecognized));
}

#[test]
fn unrecognized_clusters() {
    assert_eq!(failure("a ~ b"), (2, String::from("~"), LexErrorKind::Unrecognized));
    assert_eq!(failure("1\r\n2"), (1, String::from("\r\n"), LexErrorKind::Unrecognized));
    assert_eq!(failure("e\u{301}"), (0, String::from("e\u{301}"), LexErrorKind::Unrecognized));
    assert_eq!(failure("ααe\u{301}"), (2, String::from("e\u{301}"), LexErrorKind::Unrecognized));
}

#[test]
fn the_text_ends_at_a_nul() {
    assert_eq!(briefly("1 + 2\0 ~~~"), vec!["num:1:", "op:Plus", "num:2:"]);
}

#[test]
fn tokens_are_appended() {
    let mut lexer = Lexer::new();
    assert_eq!(lexer.text, "");
    assert!(lexer.lexems.is_empty());
    lexer.text = String::from("1 +");
    lexer.lex().unwrap();
    lexer.text = String::from("2");
    lexer.lex().unwrap();
    let seen: Vec<String> = lexer.lexems.iter().map(brief).collect();
    assert_eq!(seen, vec!["num:1:", "op:Plus", "num:2:"]);
    lexer.text = String::from("3 ~");
    assert!(lexer.lex().is_err());
    assert_eq!(lexer.lexems.len(), 3);
    assert_eq!(lexer.text, "3 ~");
}

#[test]
fn clusters_without_an_end_mark() {
    let clusters: Vec<Vec<char>> = vec![vec!['x'], vec!['1'], vec![' '], vec!['4'], vec!['2'], vec!['m']];
    let found: Vec<String> = lex_clusters(&clusters).unwrap().iter().map(brief).collect();
    assert_eq!(found, vec!["id:x1", "num:42:m"]);
    let cut: Vec<Vec<char>> = vec![vec!['='], vec!['=']];
    let found: Vec<String> = lex_clusters(&cut).unwrap().iter().map(brief).collect();
    assert_eq!(found, vec!["op:Equal"]);
    let cut: Vec<Vec<char>> = vec![vec!['=']];
    let found: Vec<String> = lex_clusters(&cut).unwrap().iter().map(brief).collect();
    assert_eq!(found, vec!["op:Assign"]);
}

#[test]
fn a_longer_expression() {
    assert_eq!(
        briefly("(-5 + 0.01)|km| + 3alpha ± 2m == sin(4) and 1 or 2 <=0< 1"),
        vec![
            "(", "op:Minus", "num:5:", "op:Plus", "num:0.01:", ")", "unit:m", "op:Plus",
            "num:3:alpha", "op:PlusMinus", "num:2:m", "op:Equal", "id:sin", "(", "num:4:", ")",
            "op:And", "num:1:", "op:Or", "num:2:", "op:LessEqual", "num:0:", "op:Less", "num:1:"
        ]
    );
}
