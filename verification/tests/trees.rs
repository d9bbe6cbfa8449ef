use unitcalc::ast::{ast, ast_range, is_decimal_text, Node, ParseError, Tree};
use unitcalc::lexer::{Keyword, Lexem, Lexer, Operator};

fn lexed(source: &str) -> Vec<Lexem> {
    let mut lexer = Lexer::new();
    lexer.text = String::from(source);
    lexer.lex().expect(source);
    lexer.lexems
}

fn tree(source: &str) -> Tree {
    ast(&lexed(source)).expect(source)
}

fn error(source: &str) -> ParseError {
    match ast(&lexed(source)) {
        Err(e) => e,
        Ok(t) => panic!("{} gave {:?}", source, t),
    }
}

fn shape(t: &Tree) -> String {
    let head = match &t.node {
        Node::Nothing => String::from("nothing"),
        Node::Number(digits, decorator) => format!("{}{}", digits, decorator),
        Node::Operator(op) => format!("{:?}", op),
        Node::Keyword(k) => format!("{:?}", k),
        Node::Variable(name) => name.clone(),
        Node::FunctionCall(name) => format!("{}()", name),
        Node::Block => String::from("block"),
        Node::UnitBlock(unit, _) => format!("|{}|", unit.to_text().unwrap()),
        Node::StringBlock(text) => format!("{:?}", text),
        Node::MatrixBlock(w, h) => format!("matrix{}x{}", w, h),
        Node::MatrixIndexing(name) => format!("{}[]", name),
    };
    let mark = if t.has_value { "" } else { "?" };
    if t.children.is_empty() {
        format!("{}{}", head, mark)
    } else {
        let inner: Vec<String> = t.children.iter().map(shape).collect();
        format!("{}{}({})", head, mark, inner.join(" "))
    }
}

fn every_node_valued(t: &Tree) -> bool {
    t.has_value && t.children.iter().all(every_node_valued)
}

#[test]
fn no_tokens_give_nothing() {
    let t = tree("");
    assert!(matches!(t.node, Node::Nothing));
    assert!(t.has_value);
    assert!(t.children.is_empty());
}

#[test]
fn single_atoms() {
    assert_eq!(shape(&tree("5")), "5");
    assert_eq!(shape(&tree("5kg")), "5kg");
    assert_eq!(shape(&tree("x")), "x");
    assert_eq!(shape(&tree("\"a b\"")), "\"a b\"");
    assert_eq!(shape(&tree("(x)")), "x");
    assert_eq!(shape(&tree("((x))")), "x");
    assert_eq!(shape(&tree("()")), "nothing");
}

#[test]
fn binary_operators_by_precedence() {
    assert_eq!(shape(&tree("a + b * c")), "Plus(a Times(b c))");
    assert_eq!(shape(&tree("a * b + c")), "Plus(Times(a b) c)");
    assert_eq!(shape(&tree("a - b - c")), "Minus(Minus(a b) c)");
    assert_eq!(shape(&tree("a / b * c")), "Times(Divide(a b) c)");
    assert_eq!(shape(&tree("a ^ b ^ c")), "Power(Power(a b) c)");
    assert_eq!(shape(&tree("a * b ^ c")), "Times(a Power(b c))");
    assert_eq!(shape(&tree("a + b pm c")), "Plus(a PlusMinus(b c))");
    assert_eq!(shape(&tree("a * b pm c")), "PlusMinus(Times(a b) c)");
    assert_eq!(shape(&tree("a + b == c + d")), "Equal(Plus(a b) Plus(c d))");
    assert_eq!(shape(&tree("a < b and c >= d or e")), "Or(And(Less(a b) GreaterEqual(c d)) e)");
    assert_eq!(shape(&tree("a or b and c")), "Or(a And(b c))");
    assert_eq!(shape(&tree("(a + b) * c")), "Times(Plus(a b) c)");
    assert_eq!(shape(&tree("x = a + b")), "Assign(x Plus(a b))");
    assert_eq!(shape(&tree("x = y == z")), "Assign(x Equal(y z))");
}

#[test]
fn prefix_operators() {
    assert_eq!(shape(&tree("-a")), "Minus(a)");
    assert_eq!(shape(&tree("+a")), "Plus(a)");
    assert_eq!(shape(&tree("!a")), "Bang(a)");
    assert_eq!(shape(&tree("!!a")), "Bang(Bang(a))");
    assert_eq!(shape(&tree("$a")), "ValueOf(a)");
    assert_eq!(shape(&tree("&a")), "ErrorOf(a)");
    assert_eq!(shape(&tree("a - -b")), "Minus(a Minus(b))");
    assert_eq!(shape(&tree("a * -b")), "Times(a Minus(b))");
    assert_eq!(shape(&tree("a - b")), "Minus(a b)");
}

#[test]
fn a_bang_between_operands_takes_the_right_one() {
    assert_eq!(error("a ! b"), ParseError::Unreduced);
    assert_eq!(error("a & b"), ParseError::Unreduced);
}

#[test]
fn postfix_operators() {
    assert_eq!(shape(&tree("a?")), "Question(a)");
    assert_eq!(shape(&tree("a??")), "Question(Question(a))");
    assert_eq!(shape(&tree("5|m|")), "|m|(5)");
    assert_eq!(shape(&tree("(a + b)|m/s|")), "||m.s⁻¹||(Plus(a b))");
    assert_eq!(shape(&tree("-5|m|")), "|m|(Minus(5))");
    assert_eq!(shape(&tree("2 * 5|m|")), "Times(2 |m|(5))");
    assert_eq!(error("|m|"), ParseError::Unvalued);
    assert_eq!(error("in |m|"), ParseError::UnitOperand);
    assert_eq!(error("in ?"), ParseError::Operand(Operator::Question));
    assert_eq!(error("+ |m|"), ParseError::Operand(Operator::Plus));
}

#[test]
fn calls_and_indexing() {
    assert_eq!(shape(&tree("f()")), "f()");
    assert_eq!(shape(&tree("f(x)")), "f()(x)");
    assert_eq!(shape(&tree("f(x, y + 1)")), "f()(x Plus(y 1))");
    assert_eq!(shape(&tree("f(g(1, 2), [3, 4], {5; 6})")), "f()(g()(1 2) matrix2x1(3 4) block(5 6))");
    assert_eq!(shape(&tree("f(x,)")), "f()(x nothing)");
    assert_eq!(shape(&tree("m[1]")), "m[](1)");
    assert_eq!(shape(&tree("m[1, 2]")), "m[](1 2)");
    assert_eq!(shape(&tree("m[f(1, 2), (3)]")), "m[](f()(1 2) 3)");
    assert_eq!(shape(&tree("m[]")), "m[](nothing)");
    assert_eq!(shape(&tree("1 + f(2) * m[3]")), "Plus(1 Times(f()(2) m[](3)))");
    assert_eq!(error("f(1"), ParseError::UnbalancedParenthesis);
    assert_eq!(error("f("), ParseError::UnbalancedParenthesis);
    assert_eq!(error("m[1"), ParseError::UnbalancedSquareBracket);
    assert_eq!(error("m["), ParseError::UnbalancedSquareBracket);
    assert_eq!(error("m[)"), ParseError::EmptyIndex);
}

#[test]
fn blocks() {
    assert_eq!(shape(&tree("{a}")), "block(a)");
    assert_eq!(shape(&tree("{a; b; c}")), "block(a b c)");
    assert_eq!(shape(&tree("{a;}")), "block(a nothing)");
    assert_eq!(shape(&tree("{}")), "block(nothing)");
    assert_eq!(shape(&tree("{a; {b; c}; [1;2]}")), "block(a block(b c) matrix1x2(1 2))");
    assert_eq!(error("{a"), ParseError::UnbalancedBracket);
    assert_eq!(error("{a]}"), ParseError::UnbalancedBracket);
    assert_eq!(error("{[a}"), ParseError::UnbalancedBracket);
    assert_eq!(error("}"), ParseError::UnbalancedBracket);
}

#[test]
fn matrices() {
    assert_eq!(shape(&tree("[1,2;3,4]")), "matrix2x2(1 2 3 4)");
    assert_eq!(shape(&tree("[1,2,3]")), "matrix3x1(1 2 3)");
    assert_eq!(shape(&tree("[1;2;3]")), "matrix1x3(1 2 3)");
    assert_eq!(shape(&tree("[1;2;3;]")), "matrix1x3(1 2 3)");
    assert_eq!(shape(&tree("[a + 1, [2, 3]]")), "matrix2x1(Plus(a 1) matrix2x1(2 3))");
    assert_eq!(shape(&tree("[]")), "matrix1x1(nothing)");
    assert_eq!(shape(&tree("[1,2,]")), "matrix2x1(1 2 nothing)");
    assert_eq!(error("[1,2;3]"), ParseError::RaggedMatrix);
    assert_eq!(error("[1;2,3]"), ParseError::RaggedMatrix);
    assert_eq!(error("[1,2;3,4;5]"), ParseError::RaggedMatrix);
    assert_eq!(error("[1,2"), ParseError::UnbalancedSquareBracket);
    assert_eq!(error("]"), ParseError::UnbalancedSquareBracket);
}

#[test]
fn statements() {
    assert_eq!(shape(&tree("if a {b}")), "If(a block(b))");
    assert_eq!(shape(&tree("if a < 1 {b} else {c}")), "If(Less(a 1) block(b) block(c))");
    assert_eq!(
        shape(&tree("if a {b} else if c {d} else {e}")),
        "If(a block(b) If(c block(d) block(e)))"
    );
    assert_eq!(shape(&tree("while a < 3 {a = a + 1}")), "While(Less(a 3) block(Assign(a Plus(a 1))))");
    assert_eq!(shape(&tree("for x in m {x}")), "For(x m block(x))");
    assert_eq!(shape(&tree("for x in [1,2] {x * 2}")), "For(x matrix2x1(1 2) block(Times(x 2)))");
    assert_eq!(shape(&tree("y = if a {1} else {2}")), "Assign(y If(a block(1) block(2)))");
    assert_eq!(shape(&tree("{x = 0; while x < 3 { x = x + 1 }}")),
        "block(Assign(x 0) While(Less(x 3) block(Assign(x Plus(x 1)))))");
    assert_eq!(error("if a b"), ParseError::Operand(Operator::If));
    assert_eq!(error("if in {b}"), ParseError::Operand(Operator::If));
    assert_eq!(error("if + {b}"), ParseError::Unreduced);
    assert_eq!(error("while a b"), ParseError::Operand(Operator::While));
    assert_eq!(error("a else {b}"), ParseError::Operand(Operator::Else));
    assert_eq!(error("if a {b} else c"), ParseError::Operand(Operator::Else));
    assert_eq!(error("for 1 in m {x}"), ParseError::Operand(Operator::For));
    assert_eq!(error("for x x m {x}"), ParseError::Operand(Operator::For));
    assert_eq!(error("for x in m y"), ParseError::Operand(Operator::For));
    assert_eq!(error("1 for x in m {x}"), ParseError::Unreduced);
    assert_eq!(error("for x m {x}"), ParseError::Unreduced);
}

#[test]
fn assignment_needs_a_variable() {
    assert_eq!(error("1 = 2"), ParseError::Operand(Operator::Assign));
    assert_eq!(error("f(x) = 2"), ParseError::Operand(Operator::Assign));
    assert_eq!(error("x = "), ParseError::Unreduced);
}

#[test]
fn failures() {
    assert_eq!(error("(1"), ParseError::UnbalancedParenthesis);
    assert_eq!(error(")"), ParseError::UnbalancedParenthesis);
    assert_eq!(error("1, 2"), ParseError::StrayComma);
    assert_eq!(error("1; 2"), ParseError::StraySemiColon);
    assert_eq!(error("1 2"), ParseError::Unreduced);
    assert_eq!(error("1 +"), ParseError::Unreduced);
    assert_eq!(error("+"), ParseError::Unvalued);
    assert_eq!(error("in"), ParseError::Unvalued);
    assert_eq!(error("1 + * 2"), ParseError::Operand(Operator::Times));
    assert_eq!(error("1 != 2"), ParseError::Unreduced);
    assert_eq!(error("1 nand 2"), ParseError::Unreduced);
    assert_eq!(error("1.2.3"), ParseError::BadNumber);
    assert_eq!(error("."), ParseError::BadNumber);
    assert_eq!(error("- +"), ParseError::Operand(Operator::Minus));
    assert_eq!(error("(+) 1"), ParseError::Unvalued);
}

#[test]
fn decimal_numbers() {
    assert!(is_decimal_text("0"));
    assert!(is_decimal_text("12.5"));
    assert!(is_decimal_text("12."));
    assert!(is_decimal_text(".5"));
    assert!(!is_decimal_text(""));
    assert!(!is_decimal_text("."));
    assert!(!is_decimal_text("1.2.3"));
    assert!(!is_decimal_text("1e5"));
    assert!(!is_decimal_text("-1"));
}

#[test]
fn a_span_of_the_tokens() {
    let found = lexed("1 + 2 * 3");
    assert_eq!(shape(&ast_range(&found, 2, 5).unwrap()), "Times(2 3)");
    assert_eq!(shape(&ast_range(&found, 0, 3).unwrap()), "Plus(1 2)");
    assert_eq!(shape(&ast_range(&found, 2, 2).unwrap()), "nothing");
    assert_eq!(shape(&ast_range(&found, 1, 3).unwrap()), "Plus(2)");
    assert_eq!(ast_range(&found, 0, 2).unwrap_err(), ParseError::Unreduced);
}

#[test]
fn hand_made_tokens() {
    let found = vec![
        Lexem::Operator(Operator::For),
        Lexem::Identifier(String::from("x")),
        Lexem::Keyword(Keyword::In),
        Lexem::Identifier(String::from("m")),
        Lexem::LeftBracket,
        Lexem::RightBracket,
    ];
    assert_eq!(shape(&ast(&found).unwrap()), "For(x m block(nothing))");
    let odd = vec![Lexem::Number(String::from("1e5"), String::new())];
    assert_eq!(ast(&odd).unwrap_err(), ParseError::BadNumber);
}

#[test]
fn built_trees_are_complete() {
    let sources = [
        "a + b * c",
        "{x = 0; while x < 3 { x = x + 1 }}",
        "if a {b} else if c {d} else {e}",
        "for x in [1,2;3,4] { print(x, \"{x}\") }",
        "f(g(-1)?, m[2, -1])|m/s| pm 3",
        "[[], {}, ()]",
    ];
    for source in sources {
        assert!(every_node_valued(&tree(source)), "{}", source);
    }
}
