//! The rules of evaluation.
//!
//! Every rule tells, for one situation of the evaluator, what happens next:
//! a child is evaluated, the node gets its value, the host is asked, or the
//! evaluation fails. The rules are stated over the mathematical contents of
//! trees, values and variables.

use vstd::prelude::*;
use vstd::string::*;
use crate::ast::{Tree, TreeView, NodeView, Node, lemma_children};
use crate::lexer::{Operator, Keyword, closing, is_one};
use crate::machine::{
    Function, UnaryOp, BinaryOp, Numeric, NumericView, TemplateError, EvalError, EvalErrorView,
    Request, RequestView, Reply, ReplyView, Progress, ProgressView, Source, SourceView, Sweep,
    SweepView, Frame, FrameView, Pending, PendingView, Control, ControlView, Move, MoveView,
    MachineView, frames_view,
};
use crate::notation::{
    ScaleView, Scale, UnitError, concat, join, is_word1, spec_unit_block, same_block,
    parse_unit_block_chars,
};
use crate::quantity::{Complex, LiteralForm, Quantity};
use crate::render::{PieceView, Piece, pieces_view, shown, show, value_pieces, lay_out};
use crate::compose::MAX_COMPOSABLE_NORM;
use crate::text::{clusters_view, graphemes, grapheme_clusters, string_from_chars, chars_of, push_all};
use crate::unit::Unit;
use crate::value::{
    Kind, RValue, RValueView, Bindings, Environment, lookup, bind, values_view, lemma_cells,
};

verus! {

/// The built-in function with the given name, if there is one.
pub open spec fn function_of(name: Seq<char>) -> Option<Function> {
    if name == "sin"@ {
        Some(Function::Sin)
    } else if name == "cos"@ {
        Some(Function::Cos)
    } else if name == "i"@ {
        Some(Function::TimesI)
    } else if name == "exp"@ {
        Some(Function::Exp)
    } else if name == "Re"@ || name == "real"@ {
        Some(Function::Re)
    } else if name == "Im"@ || name == "imag"@ {
        Some(Function::Im)
    } else if name == "sigma"@ {
        Some(Function::Sigma)
    } else if name == "sigma2"@ {
        Some(Function::Sigma2)
    } else if name == "value"@ {
        Some(Function::Value)
    } else if name == "abs"@ {
        Some(Function::Abs)
    } else if name == "arg"@ {
        Some(Function::Arg)
    } else if name == "max"@ {
        Some(Function::Max)
    } else if name == "min"@ {
        Some(Function::Min)
    } else if name == "write"@ {
        Some(Function::Write)
    } else if name == "print"@ || name == "writeln"@ {
        Some(Function::Print)
    } else if name == "assert"@ {
        Some(Function::Assert)
    } else if name == "error"@ {
        Some(Function::Error)
    } else {
        None
    }
}

/// The number of arguments that the arity error of a function names.
pub open spec fn expected_arguments(f: Function) -> usize {
    if f == Function::Max || f == Function::Min {
        2
    } else {
        1
    }
}

/// Whether a call of `f` can have `n` arguments.
pub open spec fn takes_arguments(f: Function, n: int) -> bool {
    match f {
        Function::Max | Function::Min => n == 2,
        Function::Write | Function::Print => n > 0,
        Function::Assert => n == 1 || n == 2,
        Function::Error => n == 0 || n == 1,
        _ => n == 1,
    }
}

/// Whether the operator can have `n` operands.
pub open spec fn takes_operands(op: Operator, n: int) -> bool {
    match op {
        Operator::Bang | Operator::Question | Operator::ErrorOf | Operator::ValueOf => n == 1,
        Operator::Plus | Operator::Minus => n == 1 || n == 2,
        Operator::If => n == 2 || n == 3,
        Operator::For => n == 3,
        _ => n == 2,
    }
}

/// Whether the operator has a rule of evaluation.
pub open spec fn is_evaluated(op: Operator) -> bool {
    op != Operator::Power && op != Operator::NotEqual && op != Operator::Nand && op
        != Operator::Xor && op != Operator::Else
}

/// Whether `c` is white space.
pub open spec fn is_white(c: char) -> bool {
    ('\u{9}' <= c && c <= '\u{d}') || c == ' ' || c == '\u{85}' || c == '\u{a0}' || c
        == '\u{1680}' || ('\u{2000}' <= c && c <= '\u{200a}') || c == '\u{2028}' || c
        == '\u{2029}' || c == '\u{202f}' || c == '\u{205f}' || c == '\u{3000}'
}

/// The position of the first character at or after `i` that is not white
/// space.
pub open spec fn leading(s: Seq<char>, i: int) -> int
    decreases s.len() - i,
{
    if 0 <= i < s.len() && is_white(s[i]) {
        leading(s, i + 1)
    } else {
        i
    }
}

/// The position after the last character before `j` and not before `low`
/// that is not white space.
pub open spec fn trailing(s: Seq<char>, j: int, low: int) -> int
    decreases j,
{
    if 0 <= low < j <= s.len() && is_white(s[j - 1]) {
        trailing(s, j - 1, low)
    } else {
        j
    }
}

/// The text without the white space at its ends.
pub open spec fn trimmed(s: Seq<char>) -> Seq<char> {
    let a = leading(s, 0);
    let b = trailing(s, s.len() as int, a);
    if a <= b <= s.len() {
        s.subrange(a, b)
    } else {
        Seq::empty()
    }
}

/// The zero-based position that a one-based index denotes in a dimension of
/// the given size; a negative index counts from the end.
pub open spec fn resolve(index: i64, size: usize) -> int {
    if index < 0 {
        size + index
    } else {
        index - 1
    }
}

/// What the scan of a hole of a template found.
pub ghost enum Hole {
    /// The hole closes at `close`; its name ends at `name_end`, and its unit,
    /// if `unit_end` is not zero, lies from `unit_start` to `unit_end`.
    Closed { close: int, name_end: int, unit_start: int, unit_end: int },
    Bad(TemplateError),
}

/// The scan of a hole from position `i` on. A closing brace ends the hole;
/// bars enclose the text of a unit, after which only spaces may follow;
/// everything else belongs to the name.
pub open spec fn hole(
    chars: Seq<Seq<char>>,
    i: int,
    name_end: int,
    unit_start: int,
    unit_end: int,
) -> Hole
    decreases chars.len() - i,
{
    if i < 0 || i >= chars.len() {
        Hole::Bad(TemplateError::Unclosed)
    } else if is_one(chars[i], '}') {
        Hole::Closed { close: i, name_end, unit_start, unit_end }
    } else if is_one(chars[i], '{') {
        Hole::Bad(TemplateError::Nested)
    } else if is_one(chars[i], '|') {
        let end = closing(chars, i + 1, '|');
        if i + 1 <= end < chars.len() {
            hole(chars, end + 1, name_end, i + 1, end - 1)
        } else {
            Hole::Bad(TemplateError::UnclosedUnit)
        }
    } else if unit_end != 0 {
        if is_one(chars[i], ' ') {
            hole(chars, i + 1, name_end, unit_start, unit_end)
        } else {
            Hole::Bad(TemplateError::TextAfterUnit)
        }
    } else {
        hole(chars, i + 1, i, unit_start, unit_end)
    }
}

/// What the scan of a template found.
pub ghost enum Found {
    /// The template ends; this is the whole text.
    End(Seq<char>),
    /// A hole opens at `open`; this is the text before it.
    Hole { open: int, written: Seq<char> },
}

/// The scan of a template from position `i` on, where `escaped` tells
/// whether a backslash came directly before. A backslash before a brace or
/// a backslash stands for that character; before anything else it is
/// dropped. A brace that is not escaped opens a hole.
pub open spec fn scan_template(chars: Seq<Seq<char>>, i: int, escaped: bool, written: Seq<char>) -> Found
    decreases chars.len() - i,
{
    if i < 0 || i >= chars.len() {
        Found::End(written)
    } else if is_one(chars[i], '{') {
        if escaped {
            scan_template(chars, i + 1, false, written.push('{'))
        } else {
            Found::Hole { open: i, written }
        }
    } else if is_one(chars[i], '\\') {
        if escaped {
            scan_template(chars, i + 1, false, written.push('\\'))
        } else {
            scan_template(chars, i + 1, true, written)
        }
    } else {
        scan_template(chars, i + 1, false, written + chars[i])
    }
}

/// The name written in a hole that opens at `open`.
pub open spec fn hole_name(chars: Seq<Seq<char>>, open: int, name_end: int) -> Seq<char> {
    if name_end > open {
        trimmed(concat(chars, open + 1, name_end + 1))
    } else {
        Seq::empty()
    }
}

/// The unit written in a hole, or the empty text if none is written.
pub open spec fn hole_unit(chars: Seq<Seq<char>>, unit_start: int, unit_end: int) -> Seq<char> {
    if unit_end > 0 && unit_start <= unit_end + 1 {
        trimmed(concat(chars, unit_start, unit_end + 1))
    } else {
        Seq::empty()
    }
}

/// The display unit that `text` denotes: no text stands for the unit of the
/// quantity itself, at scale one.
pub open spec fn display_scale(text: Seq<char>) -> Result<(Unit, ScaleView), UnitError> {
    if text.len() == 0 {
        Ok((Unit::spec_unitless(), ScaleView { numerator: Seq::empty(), denominator: Seq::empty() }))
    } else {
        spec_unit_block(text)
    }
}

/// The rule for a value that goes into a hole. A quantity is converted to
/// its display unit first, which must be its own unit or no unit; any other
/// value is written as it would be printed.
pub open spec fn fill_hole(
    value: RValueView,
    unit_text: Seq<char>,
    progress: ProgressView,
) -> MoveView {
    match value {
        RValueView::Number(q) => match display_scale(unit_text) {
            Err(e) => MoveView::Fail(EvalErrorView::Unit(e)),
            Ok((unit, scale)) => {
                if unit != q.unit && unit != Unit::spec_unitless() {
                    MoveView::Fail(EvalErrorView::Unit(UnitError::Incompatible(q.unit, unit)))
                } else if unit_text.len() > 0 {
                    MoveView::Ask(
                        RequestView::Compute(NumericView::Convert(q.spec_complex(), scale)),
                        PendingView::Converted { progress, quantity: q, unit: unit_text },
                    )
                } else if q.unit.norm() <= MAX_COMPOSABLE_NORM {
                    MoveView::Ask(
                        RequestView::Compute(NumericView::Convert(q.spec_complex(), scale)),
                        PendingView::Converted { progress, quantity: q, unit: q.unit.text() },
                    )
                } else {
                    MoveView::Fail(EvalErrorView::Undisplayable)
                }
            },
        },
        other => match value_pieces(other) {
            None => MoveView::Fail(EvalErrorView::Undisplayable),
            Some(pieces) => MoveView::Ask(
                RequestView::Render(pieces),
                PendingView::Interpolated { progress },
            ),
        },
    }
}

/// The rule for a template whose scan goes on as `progress` says: the text
/// up to the next hole is written; a hole is filled with the value of the
/// variable it names; at the end the node has the written text as its value.
pub open spec fn template_move(progress: ProgressView, vars: Bindings) -> MoveView {
    let chars = progress.clusters;
    match scan_template(chars, progress.position, false, progress.written) {
        Found::End(text) => MoveView::Yield(RValueView::String(text)),
        Found::Hole { open, written } => match hole(chars, open + 1, 0, 0, 0) {
            Hole::Bad(e) => MoveView::Fail(EvalErrorView::Template(e)),
            Hole::Closed { close, name_end, unit_start, unit_end } => {
                let name = hole_name(chars, open, name_end);
                match lookup(vars, name) {
                    None => MoveView::Fail(EvalErrorView::UndefinedVariable(name)),
                    Some(value) => fill_hole(
                        value,
                        hole_unit(chars, unit_start, unit_end),
                        ProgressView { clusters: chars, position: close + 1, written },
                    ),
                }
            },
        },
    }
}

/// The name of a variable node.
pub open spec fn variable_name(t: TreeView) -> Seq<char> {
    t.node->Variable_0
}

/// The name of a call node.
pub open spec fn call_name(t: TreeView) -> Seq<char> {
    t.node->FunctionCall_0
}

/// The matrix that the iterable variable of the `for` node holds, as far as
/// a sweep from a variable needs it.
pub open spec fn swept_cells(node: TreeView, source: SourceView, vars: Bindings) -> Result<
    Seq<RValueView>,
    EvalErrorView,
> {
    match source {
        SourceView::Cells(cells) => Ok(cells),
        SourceView::Variable => {
            let name = variable_name(node.children[1]);
            match lookup(vars, name) {
                None => Err(EvalErrorView::UndefinedVariable(name)),
                Some(RValueView::Matrix(_, _, cells)) => Ok(cells),
                Some(other) => Err(
                    EvalErrorView::Mismatch { expected: Kind::Matrix, found: other.kind() },
                ),
            }
        },
    }
}

/// The rule for a `for` loop that stands at a cell: past the last column the
/// loop has the matrix of its results as its value; otherwise the loop
/// variable is bound to the cell and the body is evaluated. Cells are
/// visited column by column.
pub open spec fn sweep_move(node: TreeView, sweep: SweepView, vars: Bindings) -> (Bindings, MoveView) {
    if sweep.column >= sweep.width || sweep.row >= sweep.height {
        (vars, MoveView::Yield(RValueView::Matrix(sweep.width, sweep.height, sweep.results)))
    } else {
        match swept_cells(node, sweep.source, vars) {
            Err(e) => (vars, MoveView::Fail(e)),
            Ok(cells) => {
                let at = sweep.row * sweep.width + sweep.column;
                if at < cells.len() {
                    (
                        bind(vars, variable_name(node.children[0]), cells[at]),
                        MoveView::Descend(FrameView::Body { node, sweep }, node.children[2]),
                    )
                } else {
                    (vars, MoveView::Fail(EvalErrorView::IndexOutOfBounds))
                }
            },
        }
    }
}

/// The sweep at the cell after the one that gave `value`.
pub open spec fn advanced(sweep: SweepView, value: RValueView) -> SweepView {
    if sweep.row + 1 < sweep.height {
        SweepView { row: (sweep.row + 1) as usize, results: sweep.results.push(value), ..sweep }
    } else {
        SweepView {
            column: (sweep.column + 1) as usize,
            row: 0,
            results: sweep.results.push(value),
            ..sweep
        }
    }
}

/// The rule for starting on an operator node.
pub open spec fn begin_operator(t: TreeView, op: Operator, vars: Bindings) -> (Bindings, MoveView) {
    let n = t.children.len();
    if !is_evaluated(op) {
        (vars, MoveView::Fail(EvalErrorView::UnknownOperator(op)))
    } else if !takes_operands(op, n as int) {
        (vars, MoveView::Fail(EvalErrorView::OperatorArity(op, n as usize)))
    } else if op == Operator::Assign {
        if t.children[0].node is Variable {
            (vars, MoveView::Descend(FrameView::Assign { node: t }, t.children[1]))
        } else {
            (vars, MoveView::Fail(EvalErrorView::AssignTarget))
        }
    } else if op == Operator::If {
        (vars, MoveView::Descend(FrameView::Condition { node: t }, t.children[0]))
    } else if op == Operator::While {
        (
            vars,
            MoveView::Descend(
                FrameView::While { node: t, results: Seq::empty(), in_body: false },
                t.children[0],
            ),
        )
    } else if op == Operator::For {
        if !(t.children[0].node is Variable) {
            (vars, MoveView::Fail(EvalErrorView::LoopShape))
        } else if t.children[1].node is Variable {
            let name = variable_name(t.children[1]);
            match lookup(vars, name) {
                None => (vars, MoveView::Fail(EvalErrorView::UndefinedVariable(name))),
                Some(RValueView::Matrix(w, h, _)) => sweep_move(
                    t,
                    SweepView {
                        source: SourceView::Variable,
                        width: w,
                        height: h,
                        column: 0,
                        row: 0,
                        results: Seq::empty(),
                    },
                    vars,
                ),
                Some(other) => (
                    vars,
                    MoveView::Fail(
                        EvalErrorView::Mismatch { expected: Kind::Matrix, found: other.kind() },
                    ),
                ),
            }
        } else if t.children[1].has_value {
            (vars, MoveView::Descend(FrameView::Iterable { node: t }, t.children[1]))
        } else {
            (vars, MoveView::Fail(EvalErrorView::LoopShape))
        }
    } else {
        (
            vars,
            MoveView::Descend(
                FrameView::Operands { node: t, limit: n as int, values: Seq::empty() },
                t.children[0],
            ),
        )
    }
}

/// The rule for starting on a call node.
pub open spec fn begin_call(t: TreeView, name: Seq<char>) -> MoveView {
    let n = t.children.len();
    match function_of(name) {
        None => MoveView::Fail(EvalErrorView::UnknownFunction(name)),
        Some(f) => {
            if !takes_arguments(f, n as int) {
                MoveView::Fail(
                    EvalErrorView::FunctionArity {
                        function: f,
                        takes: expected_arguments(f),
                        given: n as usize,
                    },
                )
            } else if f == Function::Write || f == Function::Print {
                MoveView::Descend(FrameView::Print { node: t, index: 0 }, t.children[0])
            } else if f == Function::Assert {
                MoveView::Descend(FrameView::Assert { node: t }, t.children[0])
            } else if f == Function::Error {
                if n == 0 {
                    MoveView::Fail(EvalErrorView::Failed(None))
                } else {
                    MoveView::Descend(FrameView::Message, t.children[0])
                }
            } else {
                MoveView::Descend(
                    FrameView::Operands { node: t, limit: n as int, values: Seq::empty() },
                    t.children[0],
                )
            }
        },
    }
}

/// The rule for starting on a node.
pub open spec fn begin(t: TreeView, vars: Bindings) -> (Bindings, MoveView) {
    let n = t.children.len();
    match t.node {
        NodeView::Nothing => (vars, MoveView::Yield(RValueView::Void)),
        NodeView::Keyword(k) => (vars, MoveView::Fail(EvalErrorView::Keyword(k))),
        NodeView::Number(digits, decorator) => match Quantity::spec_decorator_form(decorator) {
            Err(e) => (vars, MoveView::Fail(EvalErrorView::Unit(e))),
            Ok((unit, form)) => (
                vars,
                MoveView::Ask(
                    RequestView::Compute(NumericView::Literal(digits, form)),
                    PendingView::Number(unit),
                ),
            ),
        },
        NodeView::Variable(name) => match lookup(vars, name) {
            Some(v) => (vars, MoveView::Yield(v)),
            None => (vars, MoveView::Fail(EvalErrorView::UndefinedVariable(name))),
        },
        NodeView::Block => {
            if n == 0 {
                (vars, MoveView::Yield(RValueView::Void))
            } else {
                (
                    vars,
                    MoveView::Descend(
                        FrameView::Operands { node: t, limit: n as int, values: Seq::empty() },
                        t.children[0],
                    ),
                )
            }
        },
        NodeView::MatrixBlock(w, h) => {
            if n == 0 {
                (vars, MoveView::Yield(RValueView::Matrix(w, h, Seq::empty())))
            } else {
                (
                    vars,
                    MoveView::Descend(
                        FrameView::Operands { node: t, limit: n as int, values: Seq::empty() },
                        t.children[0],
                    ),
                )
            }
        },
        NodeView::MatrixIndexing(_) => {
            if n == 0 {
                (
                    vars,
                    MoveView::Fail(
                        EvalErrorView::Mismatch { expected: Kind::Number, found: Kind::Void },
                    ),
                )
            } else {
                (
                    vars,
                    MoveView::Descend(
                        FrameView::Operands {
                            node: t,
                            limit: if n >= 2 {
                                2
                            } else {
                                1
                            },
                            values: Seq::empty(),
                        },
                        t.children[0],
                    ),
                )
            }
        },
        NodeView::UnitBlock(_, _) => {
            if n != 1 {
                (vars, MoveView::Fail(EvalErrorView::UnitBlockArity(n as usize)))
            } else {
                (
                    vars,
                    MoveView::Descend(
                        FrameView::Operands { node: t, limit: 1, values: Seq::empty() },
                        t.children[0],
                    ),
                )
            }
        },
        NodeView::StringBlock(template) => (
            vars,
            template_move(
                ProgressView { clusters: graphemes(template), position: 0, written: Seq::empty() },
                vars,
            ),
        ),
        NodeView::Operator(op) => begin_operator(t, op, vars),
        NodeView::FunctionCall(name) => (vars, begin_call(t, name)),
    }
}

/// The failure for a value that is not a number.
pub open spec fn not_a_number(v: RValueView) -> MoveView {
    MoveView::Fail(EvalErrorView::Mismatch { expected: Kind::Number, found: v.kind() })
}

/// The request for an operation on one quantity, whose result has the
/// given unit.
pub open spec fn ask_unary(op: UnaryOp, a: Quantity, unit: Unit) -> MoveView {
    MoveView::Ask(
        RequestView::Compute(NumericView::Unary(op, a.spec_complex())),
        PendingView::Number(unit),
    )
}

/// The request for an operation on two quantities, whose result has the
/// given unit.
pub open spec fn ask_binary(op: BinaryOp, a: Quantity, b: Quantity, unit: Unit) -> MoveView {
    MoveView::Ask(
        RequestView::Compute(NumericView::Binary(op, a.spec_complex(), b.spec_complex())),
        PendingView::Number(unit),
    )
}

/// The value for true or false.
pub open spec fn truth(b: bool) -> MoveView {
    MoveView::Yield(RValueView::Number(Quantity::spec_truth(b)))
}

/// The rule for an operator with one operand.
pub open spec fn unary_operator(op: Operator, a: Quantity) -> MoveView {
    match op {
        Operator::Bang => truth(a.spec_is_null()),
        Operator::Question => truth(!a.spec_is_null()),
        Operator::ErrorOf => ask_unary(UnaryOp::Sigma, a, a.unit),
        Operator::ValueOf => MoveView::Yield(RValueView::Number(a.spec_value())),
        Operator::Plus => MoveView::Yield(RValueView::Number(a)),
        Operator::Minus => ask_unary(UnaryOp::Negate, a, a.unit),
        _ => MoveView::Fail(EvalErrorView::UnknownOperator(op)),
    }
}

/// Whether the operator compares by order.
pub open spec fn is_ordering(op: Operator) -> bool {
    op == Operator::Greater || op == Operator::GreaterEqual || op == Operator::Less || op
        == Operator::LessEqual
}

/// Whether the operator needs both operands in the same unit.
pub open spec fn needs_same_unit(op: Operator) -> bool {
    is_ordering(op) || op == Operator::Plus || op == Operator::Minus || op
        == Operator::PlusMinus || op == Operator::Equal
}

/// The rule for an operator with two quantities as operands, where the
/// units fit the operator.
pub open spec fn binary_operator(op: Operator, a: Quantity, b: Quantity) -> MoveView {
    match op {
        Operator::Plus => ask_binary(BinaryOp::Add, a, b, a.unit),
        Operator::Minus => ask_binary(BinaryOp::Subtract, a, b, a.unit),
        Operator::PlusMinus => ask_binary(BinaryOp::PlusMinus, a, b, a.unit),
        Operator::Equal => ask_binary(BinaryOp::Equal, a, b, Unit::spec_unitless()),
        Operator::Greater => ask_binary(BinaryOp::Greater, a, b, Unit::spec_unitless()),
        Operator::GreaterEqual => ask_binary(BinaryOp::GreaterEqual, a, b, Unit::spec_unitless()),
        Operator::Less => ask_binary(BinaryOp::Less, a, b, Unit::spec_unitless()),
        Operator::LessEqual => ask_binary(BinaryOp::LessEqual, a, b, Unit::spec_unitless()),
        Operator::Times => if a.unit.mul_fits(b.unit) {
            ask_binary(BinaryOp::Multiply, a, b, a.unit.product(b.unit))
        } else {
            MoveView::Fail(EvalErrorView::Unit(UnitError::ExponentOverflow))
        },
        Operator::Divide => if a.unit.div_fits(b.unit) {
            ask_binary(BinaryOp::Divide, a, b, a.unit.quotient(b.unit))
        } else {
            MoveView::Fail(EvalErrorView::Unit(UnitError::ExponentOverflow))
        },
        Operator::And => truth(!a.spec_is_null() && !b.spec_is_null()),
        Operator::Or => truth(!a.spec_is_null() || !b.spec_is_null()),
        _ => MoveView::Fail(EvalErrorView::UnknownOperator(op)),
    }
}

/// The rule for an operator whose operands have their values. Every operand
/// must be a number; an ordering comparison needs real operands; sums,
/// differences, uncertainties and comparisons need equal units.
pub open spec fn combine_operator(op: Operator, values: Seq<RValueView>) -> MoveView {
    match values[0] {
        RValueView::Number(a) => {
            if values.len() == 1 {
                unary_operator(op, a)
            } else if is_ordering(op) && !a.spec_is_real() {
                MoveView::Fail(EvalErrorView::NotReal)
            } else {
                match values[1] {
                    RValueView::Number(b) => {
                        if is_ordering(op) && !b.spec_is_real() {
                            MoveView::Fail(EvalErrorView::NotReal)
                        } else if needs_same_unit(op) && a.unit != b.unit {
                            MoveView::Fail(EvalErrorView::Unit(UnitError::Incompatible(a.unit, b.unit)))
                        } else {
                            binary_operator(op, a, b)
                        }
                    },
                    other => not_a_number(other),
                }
            }
        },
        other => not_a_number(other),
    }
}

/// The rule for a numeric function whose arguments have their values.
pub open spec fn combine_call(f: Function, values: Seq<RValueView>) -> MoveView {
    match values[0] {
        RValueView::Number(a) => match f {
            Function::Sin | Function::Cos | Function::Exp => {
                if a.unit != Unit::spec_unitless() {
                    MoveView::Fail(EvalErrorView::NotUnitless(f))
                } else {
                    ask_unary(
                        if f == Function::Sin {
                            UnaryOp::Sin
                        } else if f == Function::Cos {
                            UnaryOp::Cos
                        } else {
                            UnaryOp::Exp
                        },
                        a,
                        Unit::spec_unitless(),
                    )
                }
            },
            Function::TimesI => ask_unary(UnaryOp::TimesI, a, a.unit),
            Function::Sigma => ask_unary(UnaryOp::Sigma, a, a.unit),
            Function::Abs => ask_unary(UnaryOp::Abs, a, a.unit),
            Function::Arg => ask_unary(UnaryOp::Arg, a, Unit::spec_unitless()),
            Function::Re => MoveView::Yield(RValueView::Number(a.spec_real_part())),
            Function::Im => MoveView::Yield(RValueView::Number(a.spec_imag_part())),
            Function::Value => MoveView::Yield(RValueView::Number(a.spec_value())),
            Function::Sigma2 => match a.spec_sigma2() {
                Some(q) => MoveView::Yield(RValueView::Number(q)),
                None => MoveView::Fail(EvalErrorView::Unit(UnitError::ExponentOverflow)),
            },
            Function::Max | Function::Min => match values[1] {
                RValueView::Number(b) => {
                    if a.unit != b.unit {
                        MoveView::Fail(EvalErrorView::Unit(UnitError::Incompatible(a.unit, b.unit)))
                    } else {
                        ask_binary(
                            if f == Function::Max {
                                BinaryOp::Max
                            } else {
                                BinaryOp::Min
                            },
                            a,
                            b,
                            a.unit,
                        )
                    }
                },
                other => not_a_number(other),
            },
            _ => MoveView::Fail(EvalErrorView::Protocol),
        },
        other => not_a_number(other),
    }
}

/// The rule for a node all of whose operands have their values.
pub open spec fn combine(node: TreeView, values: Seq<RValueView>) -> MoveView {
    match node.node {
        NodeView::Block => MoveView::Yield(values.last()),
        NodeView::MatrixBlock(w, h) => MoveView::Yield(RValueView::Matrix(w, h, values)),
        NodeView::MatrixIndexing(_) => match values[0] {
            RValueView::Number(q) => MoveView::Ask(
                RequestView::ToIndex(q.spec_complex()),
                PendingView::FirstIndex {
                    node,
                    second: if values.len() > 1 {
                        values[1]
                    } else {
                        RValueView::Void
                    },
                },
            ),
            other => not_a_number(other),
        },
        NodeView::UnitBlock(unit, scale) => match values[0] {
            RValueView::Number(q) => {
                if q.unit != Unit::spec_unitless() {
                    MoveView::Fail(EvalErrorView::AlreadyHasUnit)
                } else {
                    MoveView::Ask(
                        RequestView::Compute(NumericView::Rescale(q.spec_complex(), scale)),
                        PendingView::Number(unit),
                    )
                }
            },
            other => not_a_number(other),
        },
        NodeView::Operator(op) => combine_operator(op, values),
        NodeView::FunctionCall(name) => match function_of(name) {
            Some(f) => combine_call(f, values),
            None => MoveView::Fail(EvalErrorView::UnknownFunction(name)),
        },
        _ => MoveView::Fail(EvalErrorView::Protocol),
    }
}

/// Whether the call node prints a line: `print` rather than `write`.
pub open spec fn prints_line(node: TreeView) -> bool {
    node.node is FunctionCall && function_of(call_name(node)) == Some(Function::Print)
}

/// The rule for a waiting node that gets the value of the child it waited
/// for.
pub open spec fn resume(frame: FrameView, v: RValueView, vars: Bindings) -> (Bindings, MoveView) {
    match frame {
        FrameView::Operands { node, limit, values } => {
            let collected = values.push(v);
            if collected.len() < limit && collected.len() < node.children.len() {
                (
                    vars,
                    MoveView::Descend(
                        FrameView::Operands { node, limit, values: collected },
                        node.children[collected.len() as int],
                    ),
                )
            } else {
                (vars, combine(node, collected))
            }
        },
        FrameView::Assign { node } => (
            bind(vars, variable_name(node.children[0]), v),
            MoveView::Yield(RValueView::Void),
        ),
        FrameView::Condition { node } => {
            let holds = v is Number && !v->Number_0.spec_is_null();
            if holds {
                (vars, MoveView::Jump(node.children[1]))
            } else if node.children.len() >= 3 {
                (vars, MoveView::Jump(node.children[2]))
            } else {
                (vars, MoveView::Yield(RValueView::Void))
            }
        },
        FrameView::While { node, results, in_body } => {
            if in_body {
                (
                    vars,
                    MoveView::Descend(
                        FrameView::While { node, results: results.push(v), in_body: false },
                        node.children[0],
                    ),
                )
            } else {
                match v {
                    RValueView::Number(q) => {
                        if !q.spec_is_null() {
                            (
                                vars,
                                MoveView::Descend(
                                    FrameView::While { node, results, in_body: true },
                                    node.children[1],
                                ),
                            )
                        } else {
                            (
                                vars,
                                MoveView::Yield(
                                    RValueView::Matrix(1, results.len() as usize, results),
                                ),
                            )
                        }
                    },
                    other => (vars, not_a_number(other)),
                }
            }
        },
        FrameView::Iterable { node } => match v {
            RValueView::Matrix(w, h, cells) => sweep_move(
                node,
                SweepView {
                    source: SourceView::Cells(cells),
                    width: w,
                    height: h,
                    column: 0,
                    row: 0,
                    results: Seq::empty(),
                },
                vars,
            ),
            other => (
                vars,
                MoveView::Fail(
                    EvalErrorView::Mismatch { expected: Kind::Matrix, found: other.kind() },
                ),
            ),
        },
        FrameView::Body { node, sweep } => sweep_move(node, advanced(sweep, v), vars),
        FrameView::Print { node, index } => match value_pieces(v) {
            None => (vars, MoveView::Fail(EvalErrorView::Undisplayable)),
            Some(pieces) => (
                vars,
                MoveView::Ask(
                    RequestView::Emit(
                        if prints_line(node) {
                            pieces.push(PieceView::Text(" "@))
                        } else {
                            pieces
                        },
                    ),
                    PendingView::Printed { node, index },
                ),
            ),
        },
        FrameView::Assert { node } => {
            let holds = v is Number && v->Number_0.spec_is_unity();
            if holds {
                (vars, MoveView::Yield(RValueView::Void))
            } else if node.children.len() >= 2 {
                (vars, MoveView::Descend(FrameView::Message, node.children[1]))
            } else {
                (vars, MoveView::Fail(EvalErrorView::Failed(None)))
            }
        },
        FrameView::Message => match value_pieces(v) {
            None => (vars, MoveView::Fail(EvalErrorView::Undisplayable)),
            Some(pieces) => (vars, MoveView::Ask(RequestView::Render(pieces), PendingView::Message)),
        },
    }
}

/// The name of an indexing node.
pub open spec fn indexed_name(t: TreeView) -> Seq<char> {
    t.node->MatrixIndexing_0
}

/// The rule for an indexing whose first index is the integer `row`. One
/// index selects from a column vector; with two indices the second is
/// converted next.
pub open spec fn first_index(node: TreeView, row: i64, second: RValueView, vars: Bindings) -> MoveView {
    let name = indexed_name(node);
    match lookup(vars, name) {
        None => MoveView::Fail(EvalErrorView::UndefinedVariable(name)),
        Some(RValueView::Matrix(w, h, cells)) => {
            let n = node.children.len();
            if n == 1 && w == 1 {
                let at = resolve(row, h);
                if 0 <= at < h && at < cells.len() {
                    MoveView::Yield(cells[at])
                } else {
                    MoveView::Fail(EvalErrorView::IndexOutOfBounds)
                }
            } else if n == 2 {
                match second {
                    RValueView::Number(q) => MoveView::Ask(
                        RequestView::ToIndex(q.spec_complex()),
                        PendingView::SecondIndex { node, row },
                    ),
                    other => not_a_number(other),
                }
            } else {
                MoveView::Fail(EvalErrorView::IndexArity(n as usize))
            }
        },
        Some(other) => MoveView::Fail(
            EvalErrorView::Mismatch { expected: Kind::Matrix, found: other.kind() },
        ),
    }
}

/// The rule for an indexing with row index `row` and column index `column`.
pub open spec fn second_index(node: TreeView, row: i64, column: i64, vars: Bindings) -> MoveView {
    let name = indexed_name(node);
    match lookup(vars, name) {
        None => MoveView::Fail(EvalErrorView::UndefinedVariable(name)),
        Some(RValueView::Matrix(w, h, cells)) => {
            let x = resolve(column, w);
            let y = resolve(row, h);
            if 0 <= x < w && 0 <= y < h && y * w + x < cells.len() {
                MoveView::Yield(cells[y * w + x])
            } else {
                MoveView::Fail(EvalErrorView::IndexOutOfBounds)
            }
        },
        Some(other) => MoveView::Fail(
            EvalErrorView::Mismatch { expected: Kind::Matrix, found: other.kind() },
        ),
    }
}

/// The progress of a template after `text` was written into its hole.
pub open spec fn filled(progress: ProgressView, text: Seq<char>) -> ProgressView {
    ProgressView { written: progress.written + text, ..progress }
}

/// The rule for the answer of the host.
pub open spec fn answer(pending: PendingView, reply: ReplyView, vars: Bindings) -> MoveView {
    match (pending, reply) {
        (PendingView::Number(unit), ReplyView::Number(c)) => MoveView::Yield(
            RValueView::Number(Quantity::spec_from_parts(c, unit)),
        ),
        (PendingView::FirstIndex { node, second }, ReplyView::Integer(Some(row))) => first_index(
            node,
            row,
            second,
            vars,
        ),
        (PendingView::FirstIndex { node, second }, ReplyView::Integer(None)) => MoveView::Fail(
            EvalErrorView::BadIndex,
        ),
        (PendingView::SecondIndex { node, row }, ReplyView::Integer(Some(column))) => second_index(
            node,
            row,
            column,
            vars,
        ),
        (PendingView::SecondIndex { node, row }, ReplyView::Integer(None)) => MoveView::Fail(
            EvalErrorView::BadIndex,
        ),
        (PendingView::Printed { node, index }, ReplyView::Nothing) => {
            if index + 1 < node.children.len() {
                MoveView::Descend(
                    FrameView::Print { node, index: (index + 1) as usize },
                    node.children[index + 1],
                )
            } else if prints_line(node) {
                MoveView::Ask(
                    RequestView::Emit(seq![PieceView::Text("\n"@)]),
                    PendingView::PrintedLine,
                )
            } else {
                MoveView::Yield(RValueView::Void)
            }
        },
        (PendingView::PrintedLine, ReplyView::Nothing) => MoveView::Yield(RValueView::Void),
        (PendingView::Message, ReplyView::Text(text)) => MoveView::Fail(
            EvalErrorView::Failed(Some(text)),
        ),
        (PendingView::Converted { progress, quantity, unit }, ReplyView::Number(c)) => MoveView::Ask(
            RequestView::Render(shown(c, quantity.unit == Unit::spec_unitless(), unit, true)),
            PendingView::Interpolated { progress },
        ),
        (PendingView::Interpolated { progress }, ReplyView::Text(text)) => template_move(
            filled(progress, text),
            vars,
        ),
        _ => MoveView::Fail(EvalErrorView::Protocol),
    }
}

/// Quantities in different units cannot be added, subtracted, given as
/// uncertainty of one another or compared: the rule fails with a unit
/// error. For the ordering comparisons this holds of real operands; an
/// operand that is not real is refused before the units are looked at.
pub proof fn lemma_units_must_agree(op: Operator, a: Quantity, b: Quantity)
    requires
        a.unit != b.unit,
        op == Operator::Plus || op == Operator::Minus || op == Operator::Equal || op
            == Operator::PlusMinus || (is_ordering(op) && a.spec_is_real() && b.spec_is_real()),
    ensures
        combine_operator(op, seq![RValueView::Number(a), RValueView::Number(b)]) == MoveView::Fail(
            EvalErrorView::Unit(UnitError::Incompatible(a.unit, b.unit)),
        ),
{
}

/// Quantities in any two units can be multiplied and divided as long as the
/// exponents stay representable: the rule asks the host for the numbers,
/// and whatever numbers the host answers with, the result has the unit
/// whose exponents are the sums, or the differences, of the operands'
/// exponents.
pub proof fn lemma_products_combine_units(a: Quantity, b: Quantity, c: Complex, vars: Bindings)
    ensures
        a.unit.mul_fits(b.unit) ==> {
            &&& combine_operator(
                Operator::Times,
                seq![RValueView::Number(a), RValueView::Number(b)],
            ) == MoveView::Ask(
                RequestView::Compute(
                    NumericView::Binary(BinaryOp::Multiply, a.spec_complex(), b.spec_complex()),
                ),
                PendingView::Number(a.unit.product(b.unit)),
            )
            &&& answer(PendingView::Number(a.unit.product(b.unit)), ReplyView::Number(c), vars)
                == MoveView::Yield(
                RValueView::Number(Quantity::spec_from_parts(c, a.unit.product(b.unit))),
            )
            &&& a.unit.product(b.unit).metre == a.unit.metre + b.unit.metre
            &&& a.unit.product(b.unit).second == a.unit.second + b.unit.second
            &&& a.unit.product(b.unit).kilogram == a.unit.kilogram + b.unit.kilogram
            &&& a.unit.product(b.unit).mole == a.unit.mole + b.unit.mole
            &&& a.unit.product(b.unit).kelvin == a.unit.kelvin + b.unit.kelvin
            &&& a.unit.product(b.unit).ampere == a.unit.ampere + b.unit.ampere
            &&& a.unit.product(b.unit).candela == a.unit.candela + b.unit.candela
        },
        a.unit.div_fits(b.unit) ==> {
            &&& combine_operator(
                Operator::Divide,
                seq![RValueView::Number(a), RValueView::Number(b)],
            ) == MoveView::Ask(
                RequestView::Compute(
                    NumericView::Binary(BinaryOp::Divide, a.spec_complex(), b.spec_complex()),
                ),
                PendingView::Number(a.unit.quotient(b.unit)),
            )
            &&& answer(PendingView::Number(a.unit.quotient(b.unit)), ReplyView::Number(c), vars)
                == MoveView::Yield(
                RValueView::Number(Quantity::spec_from_parts(c, a.unit.quotient(b.unit))),
            )
            &&& a.unit.quotient(b.unit).metre == a.unit.metre - b.unit.metre
            &&& a.unit.quotient(b.unit).second == a.unit.second - b.unit.second
            &&& a.unit.quotient(b.unit).kilogram == a.unit.kilogram - b.unit.kilogram
            &&& a.unit.quotient(b.unit).mole == a.unit.mole - b.unit.mole
            &&& a.unit.quotient(b.unit).kelvin == a.unit.kelvin - b.unit.kelvin
            &&& a.unit.quotient(b.unit).ampere == a.unit.ampere - b.unit.ampere
            &&& a.unit.quotient(b.unit).candela == a.unit.candela - b.unit.candela
        },
{
}


/// The evaluator after a move, and what it asks of the host.
pub open spec fn after_move(stack: Seq<FrameView>, vars: Bindings, mv: MoveView) -> (
    MachineView,
    RequestView,
) {
    match mv {
        MoveView::Descend(frame, tree) => (
            MachineView { vars, stack: stack.push(frame), control: ControlView::Evaluate(tree) },
            RequestView::Continue,
        ),
        MoveView::Jump(tree) => (
            MachineView { vars, stack, control: ControlView::Evaluate(tree) },
            RequestView::Continue,
        ),
        MoveView::Yield(v) => (
            MachineView { vars, stack, control: ControlView::Deliver(v) },
            RequestView::Continue,
        ),
        MoveView::Ask(request, pending) => (
            MachineView { vars, stack, control: ControlView::Waiting(pending) },
            request,
        ),
        MoveView::Fail(e) => (
            MachineView { vars, stack: Seq::empty(), control: ControlView::Halted },
            RequestView::Finished(Err(e)),
        ),
    }
}

/// One step of the evaluator: the state after the step and what is asked
/// of the host.
pub open spec fn step(m: MachineView, reply: ReplyView) -> (MachineView, RequestView) {
    match m.control {
        ControlView::Evaluate(tree) => {
            let (vars, mv) = begin(tree, m.vars);
            after_move(m.stack, vars, mv)
        },
        ControlView::Deliver(v) => {
            if m.stack.len() == 0 {
                (
                    MachineView { vars: m.vars, stack: m.stack, control: ControlView::Halted },
                    RequestView::Finished(Ok(v)),
                )
            } else {
                let (vars, mv) = resume(m.stack.last(), v, m.vars);
                after_move(m.stack.drop_last(), vars, mv)
            }
        },
        ControlView::Waiting(pending) => after_move(m.stack, m.vars, answer(pending, reply, m.vars)),
        ControlView::Halted => (m, RequestView::Finished(Err(EvalErrorView::Halted))),
    }
}

fn is_named(name: &String, word: &str) -> (b: bool)
    ensures
        b == (name@ == word@),
{
    *name == String::from_str(word)
}

/// The built-in function with the given name, if there is one.
pub fn function_named(name: &String) -> (r: Option<Function>)
    ensures
        r == function_of(name@),
{
    if is_named(name, "sin") {
        Some(Function::Sin)
    }     else if is_named(name, "cos") {
        Some(Function::Cos)
    }     else if is_named(name, "i") {
        Some(Function::TimesI)
    }     else if is_named(name, "exp") {
        Some(Function::Exp)
    }     else if is_named(name, "Re") {
        Some(Function::Re)
    }     else if is_named(name, "real") {
        Some(Function::Re)
    }     else if is_named(name, "Im") {
        Some(Function::Im)
    }     else if is_named(name, "imag") {
        Some(Function::Im)
    }     else if is_named(name, "sigma") {
        Some(Function::Sigma)
    }     else if is_named(name, "sigma2") {
        Some(Function::Sigma2)
    }     else if is_named(name, "value") {
        Some(Function::Value)
    }     else if is_named(name, "abs") {
        Some(Function::Abs)
    }     else if is_named(name, "arg") {
        Some(Function::Arg)
    }     else if is_named(name, "max") {
        Some(Function::Max)
    }     else if is_named(name, "min") {
        Some(Function::Min)
    }     else if is_named(name, "write") {
        Some(Function::Write)
    }     else if is_named(name, "print") {
        Some(Function::Print)
    }     else if is_named(name, "writeln") {
        Some(Function::Print)
    }     else if is_named(name, "assert") {
        Some(Function::Assert)
    }     else if is_named(name, "error") {
        Some(Function::Error)
    } else {
        None
    }
}

fn white(c: char) -> (b: bool)
    ensures
        b == is_white(c),
{
    ('\u{9}' <= c && c <= '\u{d}') || c == ' ' || c == '\u{85}' || c == '\u{a0}' || c
        == '\u{1680}' || ('\u{2000}' <= c && c <= '\u{200a}') || c == '\u{2028}' || c
        == '\u{2029}' || c == '\u{202f}' || c == '\u{205f}' || c == '\u{3000}'
}

/// The text without the white space at its ends.
pub fn trim(s: &Vec<char>) -> (r: Vec<char>)
    ensures
        r@ == trimmed(s@),
{
    let mut a: usize = 0;
    while a < s.len() && white(s[a])
        invariant
            a <= s.len(),
            leading(s@, 0) == leading(s@, a as int),
        decreases s.len() - a,
    {
        a += 1;
    }
    let mut b: usize = s.len();
    while b > a && white(s[b - 1])
        invariant
            a <= b <= s.len(),
            trailing(s@, s.len() as int, a as int) == trailing(s@, b as int, a as int),
        decreases b,
    {
        b -= 1;
    }
    let mut r: Vec<char> = Vec::new();
    let mut k: usize = a;
    while k < b
        invariant
            a <= k <= b <= s.len(),
            r@ == s@.subrange(a as int, k as int),
        decreases b - k,
    {
        r.push(s[k]);
        assert(s@.subrange(a as int, k + 1) =~= s@.subrange(a as int, k as int).push(s@[k as int]));
        k += 1;
    }
    r
}

/// What the scan of a hole found, as computed.
enum HoleEnd {
    Closed { close: usize, name_end: usize, unit_start: usize, unit_end: usize },
    Bad(TemplateError),
}

impl HoleEnd {
    spec fn matches(self, h: Hole) -> bool {
        match (self, h) {
            (
                HoleEnd::Closed { close, name_end, unit_start, unit_end },
                Hole::Closed { close: c, name_end: n, unit_start: s, unit_end: e },
            ) => close == c && name_end == n && unit_start == s && unit_end == e,
            (HoleEnd::Bad(e), Hole::Bad(wanted)) => e == wanted,
            _ => false,
        }
    }
}

fn find_bar(chars: &Vec<Vec<char>>, i: usize) -> (at: usize)
    requires
        i <= chars.len(),
    ensures
        at == closing(clusters_view(chars@), i as int, '|'),
        i <= at <= chars.len(),
{
    let ghost all = clusters_view(chars@);
    let mut j: usize = i;
    while j < chars.len() && !is_word1(&chars[j], '|')
        invariant
            i <= j <= chars.len(),
            all == clusters_view(chars@),
            closing(all, i as int, '|') == closing(all, j as int, '|'),
        decreases chars.len() - j,
    {
        j += 1;
    }
    j
}

fn scan_hole(chars: &Vec<Vec<char>>, start: usize) -> (r: HoleEnd)
    requires
        1 <= start,
    ensures
        r.matches(hole(clusters_view(chars@), start as int, 0, 0, 0)),
        match r {
            HoleEnd::Closed { close, name_end, unit_start, unit_end } => start <= close
                < chars.len() && name_end < close && unit_start <= close && unit_end < close,
            _ => true,
        },
{
    let ghost all = clusters_view(chars@);
    let mut i: usize = start;
    let mut name_end: usize = 0;
    let mut unit_start: usize = 0;
    let mut unit_end: usize = 0;
    while i < chars.len()
        invariant
            start <= i,
            1 <= start,
            all == clusters_view(chars@),
            name_end < i,
            unit_start <= i,
            unit_end < i,
            hole(all, i as int, name_end as int, unit_start as int, unit_end as int) == hole(
                all,
                start as int,
                0,
                0,
                0,
            ),
        decreases chars.len() - i,
    {
        let g = &chars[i];
        if is_word1(g, '}') {
            return HoleEnd::Closed { close: i, name_end, unit_start, unit_end };
        } else if is_word1(g, '{') {
            return HoleEnd::Bad(TemplateError::Nested);
        } else if is_word1(g, '|') {
            let end = find_bar(chars, i + 1);
            if end >= chars.len() {
                return HoleEnd::Bad(TemplateError::UnclosedUnit);
            }
            unit_start = i + 1;
            unit_end = end - 1;
            i = end + 1;
        } else if unit_end != 0 {
            if is_word1(g, ' ') {
                i += 1;
            } else {
                return HoleEnd::Bad(TemplateError::TextAfterUnit);
            }
        } else {
            name_end = i;
            i += 1;
        }
    }
    HoleEnd::Bad(TemplateError::Unclosed)
}

/// Writes the text of a template from `position` up to the next hole.
/// Gives the position of the hole, or `None` at the end of the template.
fn scan_text(chars: &Vec<Vec<char>>, position: usize, written: &mut Vec<char>) -> (r: Option<
    usize,
>)
    ensures
        match r {
            Some(open) => scan_template(
                clusters_view(chars@),
                position as int,
                false,
                old(written)@,
            ) == (Found::Hole { open: open as int, written: final(written)@ }) && open
                < chars.len(),
            None => scan_template(clusters_view(chars@), position as int, false, old(written)@)
                == Found::End(final(written)@),
        },
{
    let ghost all = clusters_view(chars@);
    let mut i: usize = position;
    let mut escaped = false;
    while i < chars.len()
        invariant
            position <= i,
            all == clusters_view(chars@),
            scan_template(all, i as int, escaped, written@) == scan_template(
                all,
                position as int,
                false,
                old(written)@,
            ),
        decreases chars.len() - i,
    {
        let g = &chars[i];
        if is_word1(g, '{') {
            if escaped {
                written.push('{');
                escaped = false;
            } else {
                return Some(i);
            }
        } else if is_word1(g, '\\') {
            if escaped {
                written.push('\\');
                escaped = false;
            } else {
                escaped = true;
            }
        } else {
            push_all(written, g);
            escaped = false;
        }
        i += 1;
    }
    None
}

fn kind_mismatch<'a>(expected: Kind, v: &RValue) -> (mv: Move<'a>)
    ensures
        mv@ == MoveView::Fail(EvalErrorView::Mismatch { expected, found: v@.kind() }),
{
    Move::Fail(EvalError::Mismatch { expected, found: v.get_type() })
}

/// The rule for a value that goes into a hole.
fn fill<'a>(value: &RValue, unit_text: Vec<char>, progress: Progress) -> (mv: Move<'a>)
    ensures
        mv@ == fill_hole(value@, unit_text@, progress@),
{
    match value {
        RValue::Number(q) => {
            let parsed = if unit_text.len() == 0 {
                let scale = Scale { numerator: Vec::new(), denominator: Vec::new() };
                assert(scale@.numerator =~= Seq::empty() && scale@.denominator =~= Seq::empty());
                Ok((Unit::unitless(), scale))
            } else {
                parse_unit_block_chars(&unit_text)
            };
            match parsed {
                Err(e) => Move::Fail(EvalError::Unit(e)),
                Ok((unit, scale)) => {
                    if !unit.same(&q.unit) && !unit.is_unitless() {
                        Move::Fail(EvalError::Unit(UnitError::Incompatible(q.unit, unit)))
                    } else if unit_text.len() > 0 {
                        Move::Ask(
                            Request::Compute(Numeric::Convert(q.complex(), scale)),
                            Pending::Converted {
                                progress,
                                quantity: *q,
                                unit: string_from_chars(&unit_text),
                            },
                        )
                    } else {
                        match q.unit.to_text() {
                            Some(unit) => Move::Ask(
                                Request::Compute(Numeric::Convert(q.complex(), scale)),
                                Pending::Converted { progress, quantity: *q, unit },
                            ),
                            None => Move::Fail(EvalError::Undisplayable),
                        }
                    }
                },
            }
        },
        other => match lay_out(other) {
            None => Move::Fail(EvalError::Undisplayable),
            Some(pieces) => Move::Ask(Request::Render(pieces), Pending::Interpolated { progress }),
        },
    }
}

/// The rule for a template, given as its grapheme clusters, whose scan goes
/// on as `progress` says.
pub fn interpolate<'a>(progress: Progress, vars: &Environment) -> (mv: Move<'a>)
    ensures
        mv@ == template_move(progress@, vars@),
{
    let Progress { clusters, position, written } = progress;
    let mut written = written;
    match scan_text(&clusters, position, &mut written) {
        None => Move::Yield(RValue::String(string_from_chars(&written))),
        Some(open) => match scan_hole(&clusters, open + 1) {
            HoleEnd::Bad(e) => Move::Fail(EvalError::Template(e)),
            HoleEnd::Closed { close, name_end, unit_start, unit_end } => {
                let name_chars = if name_end > open {
                    trim(&join(&clusters, open + 1, name_end + 1))
                } else {
                    Vec::new()
                };
                let name = string_from_chars(&name_chars);
                let unit_text = if unit_end > 0 && unit_start <= unit_end + 1 {
                    trim(&join(&clusters, unit_start, unit_end + 1))
                } else {
                    Vec::new()
                };
                match vars.get(&name) {
                    None => Move::Fail(EvalError::UndefinedVariable(name)),
                    Some(value) => fill(
                        value,
                        unit_text,
                        Progress { clusters, position: close + 1, written },
                    ),
                }
            },
        },
    }
}


fn variable_of(t: &Tree) -> (r: Option<&String>)
    ensures
        match r {
            Some(name) => t@.node is Variable && variable_name(t@) == name@,
            None => !(t@.node is Variable),
        },
{
    match &t.node {
        Node::Variable(name) => Some(name),
        _ => None,
    }
}

/// The cells that a sweep reads.
fn cells_of<'b, 'a>(node: &'a Tree, source: &'b Source, vars: &'b Environment) -> (r: Result<
    &'b Vec<RValue>,
    EvalError,
>)
    requires
        node.children.len() == 3,
        source is Variable ==> node@.children[1].node is Variable,
    ensures
        match (r, swept_cells(node@, source@, vars@)) {
            (Ok(cells), Ok(wanted)) => values_view(cells@) == wanted,
            (Err(e), Err(wanted)) => e@ == wanted,
            _ => false,
        },
{
    proof {
        lemma_children(*node);
    }
    match source {
        Source::Cells(cells) => Ok(cells),
        Source::Variable => {
            match variable_of(&node.children[1]) {
                None => Err(EvalError::Protocol),
                Some(name) => match vars.get(name) {
                    None => Err(EvalError::UndefinedVariable(name.clone())),
                    Some(RValue::Matrix(w, h, cells)) => {
                        proof {
                            lemma_cells(*w, *h, *cells);
                        }
                        Ok(cells)
                    },
                    Some(other) => Err(
                        EvalError::Mismatch { expected: Kind::Matrix, found: other.get_type() },
                    ),
                },
            }
        },
    }
}

/// The rule for a `for` loop that stands at a cell.
fn sweep_on<'a>(node: &'a Tree, sweep: Sweep, vars: &mut Environment) -> (mv: Move<'a>)
    requires
        node.children.len() == 3,
        node@.children[0].node is Variable,
        sweep.source is Variable ==> node@.children[1].node is Variable,
    ensures
        (final(vars)@, mv@) == sweep_move(node@, sweep@, old(vars)@),
{
    proof {
        lemma_children(*node);
    }
    if sweep.column >= sweep.width || sweep.row >= sweep.height {
        let Sweep { source, width, height, column, row, results } = sweep;
        proof {
            lemma_cells(width, height, results);
        }
        return Move::Yield(RValue::Matrix(width, height, results));
    }
    let at = match sweep.row.checked_mul(sweep.width) {
        None => None,
        Some(start) => start.checked_add(sweep.column),
    };
    assert(sweep.row * sweep.width + sweep.column >= 0) by (nonlinear_arith)
        requires
            sweep.row >= 0,
            sweep.width >= 0,
            sweep.column >= 0,
    ;
    assert(match at {
        Some(a) => a == sweep.row * sweep.width + sweep.column,
        None => sweep.row * sweep.width + sweep.column > usize::MAX,
    });
    let cell = match cells_of(node, &sweep.source, vars) {
        Err(e) => Err(e),
        Ok(cells) => match at {
            Some(at) => if at < cells.len() {
                assert(values_view(cells@)[at as int] == cells@[at as int]@);
                Ok(cells[at].duplicate())
            } else {
                Err(EvalError::IndexOutOfBounds)
            },
            None => {
                assert(values_view(cells@).len() == cells.len());
                Err(EvalError::IndexOutOfBounds)
            },
        },
    };
    match cell {
        Err(e) => Move::Fail(e),
        Ok(cell) => {
            match variable_of(&node.children[0]) {
                None => Move::Fail(EvalError::Protocol),
                Some(name) => {
                    vars.insert(name.clone(), cell);
                    Move::Descend(Frame::Body { node, sweep }, &node.children[2])
                },
            }
        },
    }
}

fn evaluated(op: Operator) -> (b: bool)
    ensures
        b == is_evaluated(op),
{
    !matches!(
        op,
        Operator::Power | Operator::NotEqual | Operator::Nand | Operator::Xor | Operator::Else
    )
}

fn operands_fit(op: Operator, n: usize) -> (b: bool)
    ensures
        b == takes_operands(op, n as int),
{
    match op {
        Operator::Bang | Operator::Question | Operator::ErrorOf | Operator::ValueOf => n == 1,
        Operator::Plus | Operator::Minus => n == 1 || n == 2,
        Operator::If => n == 2 || n == 3,
        Operator::For => n == 3,
        _ => n == 2,
    }
}

fn arguments_fit(f: Function, n: usize) -> (b: bool)
    ensures
        b == takes_arguments(f, n as int),
{
    match f {
        Function::Max | Function::Min => n == 2,
        Function::Write | Function::Print => n > 0,
        Function::Assert => n == 1 || n == 2,
        Function::Error => n == 0 || n == 1,
        _ => n == 1,
    }
}

fn collect<'a>(node: &'a Tree, limit: usize) -> (mv: Move<'a>)
    requires
        node.children.len() > 0,
    ensures
        mv@ == MoveView::Descend(
            FrameView::Operands { node: node@, limit: limit as int, values: Seq::empty() },
            node@.children[0],
        ),
{
    proof {
        lemma_children(*node);
    }
    let values: Vec<RValue> = Vec::new();
    assert(values_view(values@) =~= Seq::<RValueView>::empty());
    Move::Descend(Frame::Operands { node, limit, values }, &node.children[0])
}

/// The rule for starting on an operator node.
fn start_operator<'a>(node: &'a Tree, op: Operator, vars: &mut Environment) -> (mv: Move<'a>)
    requires
        node@.node == NodeView::Operator(op),
    ensures
        (final(vars)@, mv@) == begin_operator(node@, op, old(vars)@),
{
    proof {
        lemma_children(*node);
    }
    let n = node.children.len();
    if !evaluated(op) {
        return Move::Fail(EvalError::UnknownOperator(op));
    }
    if !operands_fit(op, n) {
        return Move::Fail(EvalError::OperatorArity(op, n));
    }
    match op {
        Operator::Assign => {
            if variable_of(&node.children[0]).is_some() {
                Move::Descend(Frame::Assign { node }, &node.children[1])
            } else {
                Move::Fail(EvalError::AssignTarget)
            }
        },
        Operator::If => Move::Descend(Frame::Condition { node }, &node.children[0]),
        Operator::While => {
            let results: Vec<RValue> = Vec::new();
            assert(values_view(results@) =~= Seq::<RValueView>::empty());
            Move::Descend(Frame::While { node, results, in_body: false }, &node.children[0])
        },
        Operator::For => {
            if variable_of(&node.children[0]).is_none() {
                return Move::Fail(EvalError::LoopShape);
            }
            match variable_of(&node.children[1]) {
                Some(name) => {
                    let shape = match vars.get(name) {
                        None => Err(EvalError::UndefinedVariable(name.clone())),
                        Some(RValue::Matrix(w, h, cells)) => {
                            proof {
                                lemma_cells(*w, *h, *cells);
                            }
                            Ok((*w, *h))
                        },
                        Some(other) => Err(
                            EvalError::Mismatch { expected: Kind::Matrix, found: other.get_type() },
                        ),
                    };
                    match shape {
                        Err(e) => Move::Fail(e),
                        Ok((width, height)) => {
                            let results: Vec<RValue> = Vec::new();
                            assert(values_view(results@) =~= Seq::<RValueView>::empty());
                            sweep_on(
                                node,
                                Sweep {
                                    source: Source::Variable,
                                    width,
                                    height,
                                    column: 0,
                                    row: 0,
                                    results,
                                },
                                vars,
                            )
                        },
                    }
                },
                None => {
                    if node.children[1].has_value {
                        Move::Descend(Frame::Iterable { node }, &node.children[1])
                    } else {
                        Move::Fail(EvalError::LoopShape)
                    }
                },
            }
        },
        _ => collect(node, n),
    }
}

/// The rule for starting on a call node.
fn start_call<'a>(node: &'a Tree, name: &'a String) -> (mv: Move<'a>)
    requires
        node@.node == NodeView::FunctionCall(name@),
    ensures
        mv@ == begin_call(node@, name@),
{
    proof {
        lemma_children(*node);
    }
    let n = node.children.len();
    match function_named(name) {
        None => Move::Fail(EvalError::UnknownFunction(name.clone())),
        Some(f) => {
            if !arguments_fit(f, n) {
                let takes: usize = if matches!(f, Function::Max | Function::Min) {
                    2
                } else {
                    1
                };
                Move::Fail(EvalError::FunctionArity { function: f, takes, given: n })
            } else if matches!(f, Function::Write | Function::Print) {
                Move::Descend(Frame::Print { node, index: 0 }, &node.children[0])
            } else if matches!(f, Function::Assert) {
                Move::Descend(Frame::Assert { node }, &node.children[0])
            } else if matches!(f, Function::Error) {
                if n == 0 {
                    Move::Fail(EvalError::Failed(None))
                } else {
                    Move::Descend(Frame::Message, &node.children[0])
                }
            } else {
                collect(node, n)
            }
        },
    }
}

/// The rule for starting on a node.
pub fn start<'a>(node: &'a Tree, vars: &mut Environment) -> (mv: Move<'a>)
    ensures
        (final(vars)@, mv@) == begin(node@, old(vars)@),
{
    proof {
        lemma_children(*node);
    }
    let n = node.children.len();
    match &node.node {
        Node::Nothing => Move::Yield(RValue::Void),
        Node::Keyword(k) => Move::Fail(EvalError::Keyword(*k)),
        Node::Number(digits, decorator) => match Quantity::decorator_form(decorator.as_str()) {
            Err(e) => Move::Fail(EvalError::Unit(e)),
            Ok((unit, form)) => Move::Ask(
                Request::Compute(Numeric::Literal(digits.clone(), form)),
                Pending::Number(unit),
            ),
        },
        Node::Variable(name) => match vars.get(name) {
            Some(v) => Move::Yield(v.duplicate()),
            None => Move::Fail(EvalError::UndefinedVariable(name.clone())),
        },
        Node::Block => {
            if n == 0 {
                Move::Yield(RValue::Void)
            } else {
                collect(node, n)
            }
        },
        Node::MatrixBlock(w, h) => {
            if n == 0 {
                let cells: Vec<RValue> = Vec::new();
                proof {
                    lemma_cells(*w, *h, cells);
                    assert(values_view(cells@) =~= Seq::<RValueView>::empty());
                }
                Move::Yield(RValue::Matrix(*w, *h, cells))
            } else {
                collect(node, n)
            }
        },
        Node::MatrixIndexing(_) => {
            if n == 0 {
                Move::Fail(EvalError::Mismatch { expected: Kind::Number, found: Kind::Void })
            } else {
                collect(
                    node,
                    if n >= 2 {
                        2
                    } else {
                        1
                    },
                )
            }
        },
        Node::UnitBlock(_, _) => {
            if n != 1 {
                Move::Fail(EvalError::UnitBlockArity(n))
            } else {
                collect(node, 1)
            }
        },
        Node::StringBlock(text) => {
            let clusters = grapheme_clusters(text.as_str());
            interpolate(Progress { clusters, position: 0, written: Vec::new() }, vars)
        },
        Node::Operator(op) => start_operator(node, *op, vars),
        Node::FunctionCall(name) => start_call(node, name),
    }
}


fn number_wanted<'a>(v: &RValue) -> (mv: Move<'a>)
    ensures
        mv@ == not_a_number(v@),
{
    kind_mismatch(Kind::Number, v)
}

fn unary<'a>(op: UnaryOp, a: &Quantity, unit: Unit) -> (mv: Move<'a>)
    ensures
        mv@ == ask_unary(op, *a, unit),
{
    Move::Ask(Request::Compute(Numeric::Unary(op, a.complex())), Pending::Number(unit))
}

fn binary<'a>(op: BinaryOp, a: &Quantity, b: &Quantity, unit: Unit) -> (mv: Move<'a>)
    ensures
        mv@ == ask_binary(op, *a, *b, unit),
{
    Move::Ask(Request::Compute(Numeric::Binary(op, a.complex(), b.complex())), Pending::Number(unit))
}

fn truth_value<'a>(b: bool) -> (mv: Move<'a>)
    ensures
        mv@ == truth(b),
{
    Move::Yield(RValue::Number(Quantity::truth(b)))
}

fn operate_one<'a>(op: Operator, a: &Quantity) -> (mv: Move<'a>)
    ensures
        mv@ == unary_operator(op, *a),
{
    match op {
        Operator::Bang => truth_value(a.is_null()),
        Operator::Question => truth_value(!a.is_null()),
        Operator::ErrorOf => unary(UnaryOp::Sigma, a, a.unit),
        Operator::ValueOf => Move::Yield(RValue::Number(a.value())),
        Operator::Plus => Move::Yield(RValue::Number(*a)),
        Operator::Minus => unary(UnaryOp::Negate, a, a.unit),
        _ => Move::Fail(EvalError::UnknownOperator(op)),
    }
}

fn ordering(op: Operator) -> (b: bool)
    ensures
        b == is_ordering(op),
{
    matches!(
        op,
        Operator::Greater | Operator::GreaterEqual | Operator::Less | Operator::LessEqual
    )
}

fn same_unit_needed(op: Operator) -> (b: bool)
    ensures
        b == needs_same_unit(op),
{
    ordering(op) || matches!(
        op,
        Operator::Plus | Operator::Minus | Operator::PlusMinus | Operator::Equal
    )
}

fn operate_two<'a>(op: Operator, a: &Quantity, b: &Quantity) -> (mv: Move<'a>)
    ensures
        mv@ == binary_operator(op, *a, *b),
{
    match op {
        Operator::Plus => binary(BinaryOp::Add, a, b, a.unit),
        Operator::Minus => binary(BinaryOp::Subtract, a, b, a.unit),
        Operator::PlusMinus => binary(BinaryOp::PlusMinus, a, b, a.unit),
        Operator::Equal => binary(BinaryOp::Equal, a, b, Unit::unitless()),
        Operator::Greater => binary(BinaryOp::Greater, a, b, Unit::unitless()),
        Operator::GreaterEqual => binary(BinaryOp::GreaterEqual, a, b, Unit::unitless()),
        Operator::Less => binary(BinaryOp::Less, a, b, Unit::unitless()),
        Operator::LessEqual => binary(BinaryOp::LessEqual, a, b, Unit::unitless()),
        Operator::Times => match a.unit.checked_mul(b.unit) {
            Some(unit) => binary(BinaryOp::Multiply, a, b, unit),
            None => Move::Fail(EvalError::Unit(UnitError::ExponentOverflow)),
        },
        Operator::Divide => match a.unit.checked_div(b.unit) {
            Some(unit) => binary(BinaryOp::Divide, a, b, unit),
            None => Move::Fail(EvalError::Unit(UnitError::ExponentOverflow)),
        },
        Operator::And => truth_value(!a.is_null() && !b.is_null()),
        Operator::Or => truth_value(!a.is_null() || !b.is_null()),
        _ => Move::Fail(EvalError::UnknownOperator(op)),
    }
}

/// The rule for an operator whose operands have their values.
pub fn operate<'a>(op: Operator, values: &Vec<RValue>) -> (mv: Move<'a>)
    requires
        values.len() >= 1,
    ensures
        mv@ == combine_operator(op, values_view(values@)),
{
    assert(values_view(values@)[0] == values@[0]@);
    match &values[0] {
        RValue::Number(a) => {
            if values.len() == 1 {
                operate_one(op, a)
            } else if ordering(op) && !a.is_real() {
                Move::Fail(EvalError::NotReal)
            } else {
                assert(values_view(values@)[1] == values@[1]@);
                match &values[1] {
                    RValue::Number(b) => {
                        if ordering(op) && !b.is_real() {
                            Move::Fail(EvalError::NotReal)
                        } else if same_unit_needed(op) && !a.unit.same(&b.unit) {
                            Move::Fail(EvalError::Unit(UnitError::Incompatible(a.unit, b.unit)))
                        } else {
                            operate_two(op, a, b)
                        }
                    },
                    other => number_wanted(other),
                }
            }
        },
        other => number_wanted(other),
    }
}

/// The rule for a numeric function whose arguments have their values.
pub fn call<'a>(f: Function, values: &Vec<RValue>) -> (mv: Move<'a>)
    requires
        values.len() >= 1,
        (f == Function::Max || f == Function::Min) ==> values.len() >= 2,
    ensures
        mv@ == combine_call(f, values_view(values@)),
{
    assert(values_view(values@)[0] == values@[0]@);
    match &values[0] {
        RValue::Number(a) => match f {
            Function::Sin | Function::Cos | Function::Exp => {
                if !a.unit.is_unitless() {
                    Move::Fail(EvalError::NotUnitless(f))
                } else {
                    unary(
                        if matches!(f, Function::Sin) {
                            UnaryOp::Sin
                        } else if matches!(f, Function::Cos) {
                            UnaryOp::Cos
                        } else {
                            UnaryOp::Exp
                        },
                        a,
                        Unit::unitless(),
                    )
                }
            },
            Function::TimesI => unary(UnaryOp::TimesI, a, a.unit),
            Function::Sigma => unary(UnaryOp::Sigma, a, a.unit),
            Function::Abs => unary(UnaryOp::Abs, a, a.unit),
            Function::Arg => unary(UnaryOp::Arg, a, Unit::unitless()),
            Function::Re => Move::Yield(RValue::Number(a.real_part())),
            Function::Im => Move::Yield(RValue::Number(a.imag_part())),
            Function::Value => Move::Yield(RValue::Number(a.value())),
            Function::Sigma2 => match a.sigma2() {
                Some(q) => Move::Yield(RValue::Number(q)),
                None => Move::Fail(EvalError::Unit(UnitError::ExponentOverflow)),
            },
            Function::Max | Function::Min => {
                assert(values_view(values@)[1] == values@[1]@);
                match &values[1] {
                    RValue::Number(b) => {
                        if !a.unit.same(&b.unit) {
                            Move::Fail(EvalError::Unit(UnitError::Incompatible(a.unit, b.unit)))
                        } else {
                            binary(
                                if matches!(f, Function::Max) {
                                    BinaryOp::Max
                                } else {
                                    BinaryOp::Min
                                },
                                a,
                                b,
                                a.unit,
                            )
                        }
                    },
                    other => number_wanted(other),
                }
            },
            _ => Move::Fail(EvalError::Protocol),
        },
        other => number_wanted(other),
    }
}

/// The rule for a node all of whose operands have their values.
pub fn finish<'a>(node: &'a Tree, values: Vec<RValue>) -> (mv: Move<'a>)
    requires
        values.len() >= 1,
        values.len() >= 2 || !(node@.node is FunctionCall) || (function_of(call_name(node@))
            != Some(Function::Max) && function_of(call_name(node@)) != Some(Function::Min)),
    ensures
        mv@ == combine(node@, values_view(values@)),
{
    let mut values = values;
    let ghost all = values_view(values@);
    match &node.node {
        Node::Block => {
            assert(all.last() == values@[values.len() - 1]@);
            match values.pop() {
                Some(v) => Move::Yield(v),
                None => Move::Fail(EvalError::Protocol),
            }
        },
        Node::MatrixBlock(w, h) => {
            proof {
                lemma_cells(*w, *h, values);
            }
            Move::Yield(RValue::Matrix(*w, *h, values))
        },
        Node::MatrixIndexing(_) => {
            let second = if values.len() > 1 {
                assert(all[1] == values@[1]@);
                values.remove(1)
            } else {
                RValue::Void
            };
            assert(all[0] == values@[0]@);
            match &values[0] {
                RValue::Number(q) => Move::Ask(
                    Request::ToIndex(q.complex()),
                    Pending::FirstIndex { node, second },
                ),
                other => number_wanted(other),
            }
        },
        Node::UnitBlock(unit, scale) => {
            assert(all[0] == values@[0]@);
            match &values[0] {
                RValue::Number(q) => {
                    if !q.unit.is_unitless() {
                        Move::Fail(EvalError::AlreadyHasUnit)
                    } else {
                        Move::Ask(
                            Request::Compute(Numeric::Rescale(q.complex(), scale.clone())),
                            Pending::Number(*unit),
                        )
                    }
                },
                other => number_wanted(other),
            }
        },
        Node::Operator(op) => operate(*op, &values),
        Node::FunctionCall(name) => match function_named(name) {
            Some(f) => call(f, &values),
            None => Move::Fail(EvalError::UnknownFunction(name.clone())),
        },
        _ => Move::Fail(EvalError::Protocol),
    }
}

fn line_printer(node: &Tree) -> (b: bool)
    ensures
        b == prints_line(node@),
{
    match &node.node {
        Node::FunctionCall(name) => match function_named(name) {
            Some(Function::Print) => true,
            _ => false,
        },
        _ => false,
    }
}

fn push_value(values: &mut Vec<RValue>, v: RValue)
    ensures
        values_view(final(values)@) == values_view(old(values)@).push(v@),
        final(values).len() == old(values).len() + 1,
{
    let ghost before = values_view(values@);
    values.push(v);
    assert(values_view(values@) =~= before.push(v@));
}

/// Whether the frame fits the node it belongs to: the node has the children
/// that the rule for the frame reads.
pub open spec fn frame_fits(frame: FrameView) -> bool {
    match frame {
        FrameView::Operands { node, limit, values } => {
            &&& values.len() < limit
            &&& values.len() < node.children.len()
            &&& (node.node is FunctionCall && (function_of(call_name(node)) == Some(Function::Max)
                || function_of(call_name(node)) == Some(Function::Min)) ==> limit >= 2
                && node.children.len() >= 2)
        },
        FrameView::Assign { node } => node.children.len() >= 2 && node.children[0].node
            is Variable,
        FrameView::Condition { node } => node.children.len() >= 2,
        FrameView::While { node, results, in_body } => node.children.len() >= 2,
        FrameView::Iterable { node } => node.children.len() == 3 && node.children[0].node
            is Variable,
        FrameView::Body { node, sweep } => node.children.len() == 3 && node.children[0].node
            is Variable && (sweep.source is Variable ==> node.children[1].node is Variable)
            && sweep.column < sweep.width && sweep.row < sweep.height,
        FrameView::Print { node, index } => index < node.children.len(),
        FrameView::Assert { node } => node.children.len() >= 1,
        FrameView::Message => true,
    }
}

/// The rule for a waiting node that gets the value of the child it waited
/// for.
pub fn resume_frame<'a>(frame: Frame<'a>, v: RValue, vars: &mut Environment) -> (mv: Move<'a>)
    requires
        frame_fits(frame@),
    ensures
        (final(vars)@, mv@) == resume(frame@, v@, old(vars)@),
{
    match frame {
        Frame::Operands { node, limit, values } => {
            proof {
                lemma_children(*node);
            }
            let mut values = values;
            push_value(&mut values, v);
            if values.len() < limit && values.len() < node.children.len() {
                let at = values.len();
                Move::Descend(Frame::Operands { node, limit, values }, &node.children[at])
            } else {
                finish(node, values)
            }
        },
        Frame::Assign { node } => {
            proof {
                lemma_children(*node);
            }
            match variable_of(&node.children[0]) {
                Some(name) => {
                    vars.insert(name.clone(), v);
                    Move::Yield(RValue::Void)
                },
                None => Move::Fail(EvalError::Protocol),
            }
        },
        Frame::Condition { node } => {
            proof {
                lemma_children(*node);
            }
            let holds = match &v {
                RValue::Number(q) => !q.is_null(),
                _ => false,
            };
            if holds {
                Move::Jump(&node.children[1])
            } else if node.children.len() >= 3 {
                Move::Jump(&node.children[2])
            } else {
                Move::Yield(RValue::Void)
            }
        },
        Frame::While { node, results, in_body } => {
            proof {
                lemma_children(*node);
            }
            let mut results = results;
            if in_body {
                push_value(&mut results, v);
                Move::Descend(Frame::While { node, results, in_body: false }, &node.children[0])
            } else {
                match &v {
                    RValue::Number(q) => {
                        if !q.is_null() {
                            Move::Descend(
                                Frame::While { node, results, in_body: true },
                                &node.children[1],
                            )
                        } else {
                            let height = results.len();
                            proof {
                                lemma_cells(1, height, results);
                            }
                            Move::Yield(RValue::Matrix(1, height, results))
                        }
                    },
                    other => number_wanted(other),
                }
            }
        },
        Frame::Iterable { node } => match v {
            RValue::Matrix(width, height, cells) => {
                proof {
                    lemma_cells(width, height, cells);
                }
                let results: Vec<RValue> = Vec::new();
                assert(values_view(results@) =~= Seq::<RValueView>::empty());
                sweep_on(
                    node,
                    Sweep {
                        source: Source::Cells(cells),
                        width,
                        height,
                        column: 0,
                        row: 0,
                        results,
                    },
                    vars,
                )
            },
            other => kind_mismatch(Kind::Matrix, &other),
        },
        Frame::Body { node, sweep } => {
            let Sweep { source, width, height, column, row, results } = sweep;
            let mut results = results;
            push_value(&mut results, v);
            let next = if row + 1 < height {
                Sweep { source, width, height, column, row: row + 1, results }
            } else {
                Sweep { source, width, height, column: column + 1, row: 0, results }
            };
            sweep_on(node, next, vars)
        },
        Frame::Print { node, index } => match lay_out(&v) {
            None => Move::Fail(EvalError::Undisplayable),
            Some(pieces) => {
                let mut pieces = pieces;
                if line_printer(node) {
                    let ghost before = pieces_view(pieces@);
                    pieces.push(Piece::Text(String::from_str(" ")));
                    assert(pieces_view(pieces@) =~= before.push(PieceView::Text(" "@)));
                }
                Move::Ask(Request::Emit(pieces), Pending::Printed { node, index })
            },
        },
        Frame::Assert { node } => {
            proof {
                lemma_children(*node);
            }
            let holds = match &v {
                RValue::Number(q) => q.is_unity(),
                _ => false,
            };
            if holds {
                Move::Yield(RValue::Void)
            } else if node.children.len() >= 2 {
                Move::Descend(Frame::Message, &node.children[1])
            } else {
                Move::Fail(EvalError::Failed(None))
            }
        },
        Frame::Message => match lay_out(&v) {
            None => Move::Fail(EvalError::Undisplayable),
            Some(pieces) => Move::Ask(Request::Render(pieces), Pending::Message),
        },
    }
}


/// Whether the pending record fits the node it belongs to.
pub open spec fn pending_fits(pending: PendingView) -> bool {
    match pending {
        PendingView::FirstIndex { node, second } => node.node is MatrixIndexing,
        PendingView::SecondIndex { node, row } => node.node is MatrixIndexing,
        PendingView::Printed { node, index } => index < node.children.len(),
        _ => true,
    }
}

/// Whether the frame or the pending record of a move fits its node.
pub open spec fn move_fits(mv: MoveView) -> bool {
    match mv {
        MoveView::Descend(frame, _) => frame_fits(frame),
        MoveView::Ask(_, pending) => pending_fits(pending),
        _ => true,
    }
}

/// Every rule gives a frame or a pending record that fits its node.
pub proof fn lemma_moves_fit(
    tree: TreeView,
    frame: FrameView,
    pending: PendingView,
    v: RValueView,
    reply: ReplyView,
    vars: Bindings,
)
    ensures
        move_fits(begin(tree, vars).1),
        frame_fits(frame) ==> move_fits(resume(frame, v, vars).1),
        pending_fits(pending) ==> move_fits(answer(pending, reply, vars)),
{
    lemma_begin_fits(tree, vars);
    if frame_fits(frame) {
        lemma_resume_fits(frame, v, vars);
    }
    if pending_fits(pending) {
        lemma_answer_fits(pending, reply, vars);
    }
}

proof fn lemma_template_fits(progress: ProgressView, vars: Bindings)
    ensures
        move_fits(template_move(progress, vars)),
{
}

proof fn lemma_sweep_fits(node: TreeView, sweep: SweepView, vars: Bindings)
    requires
        node.children.len() == 3,
        node.children[0].node is Variable,
        sweep.source is Variable ==> node.children[1].node is Variable,
    ensures
        move_fits(sweep_move(node, sweep, vars).1),
{
}

proof fn lemma_operator_fits(tree: TreeView, op: Operator, vars: Bindings)
    requires
        tree.node == NodeView::Operator(op),
    ensures
        move_fits(begin_operator(tree, op, vars).1),
{
    let n = tree.children.len();
    let wanted = begin_operator(tree, op, vars).1;
    if !is_evaluated(op) {
        assert(move_fits(wanted));
    } else if !takes_operands(op, n as int) {
        assert(move_fits(wanted));
    } else if op == Operator::Assign {
        assert(move_fits(wanted));
    } else if op == Operator::If {
        assert(move_fits(wanted));
    } else if op == Operator::While {
        assert(move_fits(wanted));
    } else if op == Operator::For {
        if tree.children[0].node is Variable && tree.children[1].node is Variable {
            match lookup(vars, variable_name(tree.children[1])) {
                Some(RValueView::Matrix(w, h, _)) => {
                    lemma_sweep_fits(
                        tree,
                        SweepView {
                            source: SourceView::Variable,
                            width: w,
                            height: h,
                            column: 0,
                            row: 0,
                            results: Seq::empty(),
                        },
                        vars,
                    );
                },
                _ => {},
            }
        }
        assert(move_fits(wanted));
    } else {
        assert(1 <= n <= 3);
        assert(wanted == MoveView::Descend(
            FrameView::Operands { node: tree, limit: n as int, values: Seq::empty() },
            tree.children[0],
        ));
    }
}

proof fn lemma_begin_fits(tree: TreeView, vars: Bindings)
    ensures
        move_fits(begin(tree, vars).1),
{
    match tree.node {
        NodeView::Operator(op) => {
            lemma_operator_fits(tree, op, vars);
            assert(begin(tree, vars).1 == begin_operator(tree, op, vars).1);
        },
        NodeView::FunctionCall(name) => {
            assert(move_fits(begin_call(tree, name)));
        },
        NodeView::StringBlock(template) => {
            lemma_template_fits(
                ProgressView { clusters: graphemes(template), position: 0, written: Seq::empty() },
                vars,
            );
        },
        _ => {},
    }
}

proof fn lemma_resume_fits(frame: FrameView, v: RValueView, vars: Bindings)
    requires
        frame_fits(frame),
    ensures
        move_fits(resume(frame, v, vars).1),
{
    match frame {
        FrameView::Iterable { node } => {
            match v {
                RValueView::Matrix(w, h, cells) => {
                    lemma_sweep_fits(
                        node,
                        SweepView {
                            source: SourceView::Cells(cells),
                            width: w,
                            height: h,
                            column: 0,
                            row: 0,
                            results: Seq::empty(),
                        },
                        vars,
                    );
                },
                _ => {},
            }
        },
        FrameView::Body { node, sweep } => {
            lemma_sweep_fits(node, advanced(sweep, v), vars);
        },
        _ => {},
    }
}

proof fn lemma_answer_fits(pending: PendingView, reply: ReplyView, vars: Bindings)
    requires
        pending_fits(pending),
    ensures
        move_fits(answer(pending, reply, vars)),
{
    match (pending, reply) {
        (PendingView::Interpolated { progress }, ReplyView::Text(text)) => {
            lemma_template_fits(filled(progress, text), vars);
        },
        _ => {},
    }
}

fn resolve_index(index: i64, size: usize) -> (r: Option<usize>)
    ensures
        match r {
            Some(at) => at == resolve(index, size) && at < size,
            None => !(0 <= resolve(index, size) < size),
        },
{
    let wide: i128 = if index < 0 {
        size as i128 + index as i128
    } else {
        index as i128 - 1
    };
    if 0 <= wide && wide < size as i128 {
        Some(wide as usize)
    } else {
        None
    }
}

fn indexed<'b>(node: &Tree, vars: &'b Environment) -> (r: Result<
    (usize, usize, &'b Vec<RValue>),
    EvalError,
>)
    requires
        node@.node is MatrixIndexing,
    ensures
        match r {
            Ok((w, h, cells)) => lookup(vars@, indexed_name(node@)) == Some(
                RValueView::Matrix(w, h, values_view(cells@)),
            ),
            Err(e) => match lookup(vars@, indexed_name(node@)) {
                None => e@ == EvalErrorView::UndefinedVariable(indexed_name(node@)),
                Some(RValueView::Matrix(_, _, _)) => false,
                Some(other) => e@ == (EvalErrorView::Mismatch {
                    expected: Kind::Matrix,
                    found: other.kind(),
                }),
            },
        },
{
    match &node.node {
        Node::MatrixIndexing(name) => match vars.get(name) {
            None => Err(EvalError::UndefinedVariable(name.clone())),
            Some(RValue::Matrix(w, h, cells)) => {
                proof {
                    lemma_cells(*w, *h, *cells);
                }
                Ok((*w, *h, cells))
            },
            Some(other) => Err(
                EvalError::Mismatch { expected: Kind::Matrix, found: other.get_type() },
            ),
        },
        _ => Err(EvalError::Protocol),
    }
}

/// The rule for an indexing whose first index is the integer `row`.
fn index_first<'a>(node: &'a Tree, row: i64, second: RValue, vars: &Environment) -> (mv: Move<'a>)
    requires
        node@.node is MatrixIndexing,
    ensures
        mv@ == first_index(node@, row, second@, vars@),
{
    proof {
        lemma_children(*node);
    }
    match indexed(node, vars) {
        Err(e) => Move::Fail(e),
        Ok((w, h, cells)) => {
            let n = node.children.len();
            if n == 1 && w == 1 {
                match resolve_index(row, h) {
                    Some(at) => if at < cells.len() {
                        assert(values_view(cells@)[at as int] == cells@[at as int]@);
                        Move::Yield(cells[at].duplicate())
                    } else {
                        Move::Fail(EvalError::IndexOutOfBounds)
                    },
                    None => Move::Fail(EvalError::IndexOutOfBounds),
                }
            } else if n == 2 {
                match &second {
                    RValue::Number(q) => Move::Ask(
                        Request::ToIndex(q.complex()),
                        Pending::SecondIndex { node, row },
                    ),
                    other => number_wanted(other),
                }
            } else {
                Move::Fail(EvalError::IndexArity(n))
            }
        },
    }
}

/// The rule for an indexing with both indices.
fn index_second<'a>(node: &'a Tree, row: i64, column: i64, vars: &Environment) -> (mv: Move<'a>)
    requires
        node@.node is MatrixIndexing,
    ensures
        mv@ == second_index(node@, row, column, vars@),
{
    match indexed(node, vars) {
        Err(e) => Move::Fail(e),
        Ok((w, h, cells)) => {
            let x = resolve_index(column, w);
            let y = resolve_index(row, h);
            match (x, y) {
                (Some(x), Some(y)) => {
                    let at = match y.checked_mul(w) {
                        None => None,
                        Some(start) => start.checked_add(x),
                    };
                    assert(y * w + x >= 0) by (nonlinear_arith)
                        requires
                            y >= 0,
                            w >= 0,
                            x >= 0,
                    ;
                    match at {
                        Some(at) => if at < cells.len() {
                            assert(values_view(cells@)[at as int] == cells@[at as int]@);
                            Move::Yield(cells[at].duplicate())
                        } else {
                            Move::Fail(EvalError::IndexOutOfBounds)
                        },
                        None => {
                            assert(values_view(cells@).len() == cells.len());
                            Move::Fail(EvalError::IndexOutOfBounds)
                        },
                    }
                },
                _ => Move::Fail(EvalError::IndexOutOfBounds),
            }
        },
    }
}

/// The rule for the answer of the host.
pub fn answer_pending<'a>(pending: Pending<'a>, reply: Reply, vars: &Environment) -> (mv: Move<'a>)
    requires
        pending_fits(pending@),
    ensures
        mv@ == answer(pending@, reply@, vars@),
{
    match (pending, reply) {
        (Pending::Number(unit), Reply::Number(c)) => Move::Yield(
            RValue::Number(Quantity::from_parts(c, unit)),
        ),
        (Pending::FirstIndex { node, second }, Reply::Integer(Some(row))) => index_first(
            node,
            row,
            second,
            vars,
        ),
        (Pending::FirstIndex { node, second }, Reply::Integer(None)) => Move::Fail(
            EvalError::BadIndex,
        ),
        (Pending::SecondIndex { node, row }, Reply::Integer(Some(column))) => index_second(
            node,
            row,
            column,
            vars,
        ),
        (Pending::SecondIndex { node, row }, Reply::Integer(None)) => Move::Fail(
            EvalError::BadIndex,
        ),
        (Pending::Printed { node, index }, Reply::Nothing) => {
            proof {
                lemma_children(*node);
            }
            if node.children.len() - index > 1 {
                Move::Descend(Frame::Print { node, index: index + 1 }, &node.children[index + 1])
            } else if line_printer(node) {
                let mut pieces: Vec<Piece> = Vec::new();
                pieces.push(Piece::Text(String::from_str("\n")));
                assert(pieces_view(pieces@) =~= seq![PieceView::Text("\n"@)]);
                Move::Ask(Request::Emit(pieces), Pending::PrintedLine)
            } else {
                Move::Yield(RValue::Void)
            }
        },
        (Pending::PrintedLine, Reply::Nothing) => Move::Yield(RValue::Void),
        (Pending::Message, Reply::Text(text)) => Move::Fail(EvalError::Failed(Some(text))),
        (Pending::Converted { progress, quantity, unit }, Reply::Number(c)) => Move::Ask(
            Request::Render(show(&c, quantity.unit.is_unitless(), unit.as_str(), true)),
            Pending::Interpolated { progress },
        ),
        (Pending::Interpolated { progress }, Reply::Text(text)) => {
            let Progress { clusters, position, written } = progress;
            let mut written = written;
            let chars = chars_of(text.as_str());
            push_all(&mut written, &chars);
            interpolate(Progress { clusters, position, written }, vars)
        },
        _ => Move::Fail(EvalError::Protocol),
    }
}


} // verus!
