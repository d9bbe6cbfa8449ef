//! The data of the evaluator: what it asks of its host, what the host
//! answers, and what it keeps between two steps.

use vstd::prelude::*;
use crate::ast::{Tree, TreeView};
use crate::lexer::{Operator, Keyword};
use crate::notation::{Scale, ScaleView, UnitError};
use crate::quantity::{Complex, LiteralForm, Quantity};
use crate::render::{Piece, PieceView, pieces_view};
use crate::unit::Unit;
use crate::value::{Kind, RValue, RValueView, Bindings, values_view};

verus! {

/// The built-in functions.
#[derive(Debug, Clone, Copy, PartialEq, Eq, Structural)]
pub enum Function {
    Sin,
    Cos,
    /// `i`: multiplication by the imaginary unit.
    TimesI,
    Exp,
    /// `Re` or `real`
    Re,
    /// `Im` or `imag`
    Im,
    Sigma,
    Sigma2,
    Value,
    Abs,
    Arg,
    Max,
    Min,
    Write,
    /// `print` or `writeln`
    Print,
    Assert,
    Error,
}

/// The operations on one quantity that the host computes.
#[derive(Debug, Clone, Copy, PartialEq, Eq, Structural)]
pub enum UnaryOp {
    Negate,
    /// The standard deviations: the square roots of the variances.
    Sigma,
    Sin,
    Cos,
    Exp,
    TimesI,
    Abs,
    Arg,
}

/// The operations on two quantities that the host computes. A comparison
/// gives one for true and zero for false.
#[derive(Debug, Clone, Copy, PartialEq, Eq, Structural)]
pub enum BinaryOp {
    Add,
    Subtract,
    Multiply,
    Divide,
    /// The left operand with the squares of the right operand's parts as
    /// its variances.
    PlusMinus,
    Equal,
    Greater,
    GreaterEqual,
    Less,
    LessEqual,
    Max,
    Min,
}

/// A computation on real numbers.
#[derive(Debug)]
pub enum Numeric {
    /// The number that the digits denote, in the given form.
    Literal(String, LiteralForm),
    Unary(UnaryOp, Complex),
    Binary(BinaryOp, Complex, Complex),
    /// A pure number taken into a unit: the shift of the scale is added to
    /// the real part, then everything is multiplied by the factor.
    Rescale(Complex, Scale),
    /// A quantity expressed in a display unit: the shift of the scale is
    /// added to the real part, then everything is divided by the factor.
    Convert(Complex, Scale),
}

/// The mathematical content of a [`Numeric`].
pub ghost enum NumericView {
    Literal(Seq<char>, LiteralForm),
    Unary(UnaryOp, Complex),
    Binary(BinaryOp, Complex, Complex),
    Rescale(Complex, ScaleView),
    Convert(Complex, ScaleView),
}

impl View for Numeric {
    type V = NumericView;

    open spec fn view(&self) -> NumericView {
        match self {
            Numeric::Literal(s, f) => NumericView::Literal(s@, *f),
            Numeric::Unary(op, a) => NumericView::Unary(*op, *a),
            Numeric::Binary(op, a, b) => NumericView::Binary(*op, *a, *b),
            Numeric::Rescale(a, s) => NumericView::Rescale(*a, s@),
            Numeric::Convert(a, s) => NumericView::Convert(*a, s@),
        }
    }
}

/// What was wrong with the template of a string block.
#[derive(Debug, Clone, Copy, PartialEq, Eq, Structural)]
pub enum TemplateError {
    /// An opening brace has no closing brace.
    Unclosed,
    /// A brace opens inside braces.
    Nested,
    /// A bar inside braces has no closing bar.
    UnclosedUnit,
    /// Something other than spaces follows the unit inside braces.
    TextAfterUnit,
}

/// Why an evaluation failed.
#[derive(Debug)]
pub enum EvalError {
    /// The operator has no rule of evaluation.
    UnknownOperator(Operator),
    /// No built-in function has this name.
    UnknownFunction(String),
    /// The operator has this many operands and cannot take that many.
    OperatorArity(Operator, usize),
    /// The function takes `takes` arguments and was given `given`.
    FunctionArity { function: Function, takes: usize, given: usize },
    /// A unit block has this many operands instead of one.
    UnitBlockArity(usize),
    /// A value of one kind stands where another kind is needed.
    Mismatch { expected: Kind, found: Kind },
    /// An ordering comparison has an operand that is not real.
    NotReal,
    /// Units do not fit the operation, or a written unit cannot be read.
    Unit(UnitError),
    /// The function needs a pure number.
    NotUnitless(Function),
    /// A unit block follows a quantity that has a unit already.
    AlreadyHasUnit,
    /// The left side of an assignment is not a variable.
    AssignTarget,
    /// A `for` lacks its loop variable or an iterable with a value.
    LoopShape,
    /// The variable has no value.
    UndefinedVariable(String),
    /// An index is not a real, exact, non-zero integer.
    BadIndex,
    /// An index lies outside the matrix.
    IndexOutOfBounds,
    /// A matrix cannot be indexed with this many indices.
    IndexArity(usize),
    /// The template of a string block is malformed.
    Template(TemplateError),
    /// A keyword has no value.
    Keyword(Keyword),
    /// The value cannot be written.
    Undisplayable,
    /// An `assert` failed or an `error` was reached, with its message.
    Failed(Option<String>),
    /// The host answered with something that was not asked for.
    Protocol,
    /// The evaluation has ended already.
    Halted,
}

/// The mathematical content of an [`EvalError`].
pub ghost enum EvalErrorView {
    UnknownOperator(Operator),
    UnknownFunction(Seq<char>),
    OperatorArity(Operator, usize),
    FunctionArity { function: Function, takes: usize, given: usize },
    UnitBlockArity(usize),
    Mismatch { expected: Kind, found: Kind },
    NotReal,
    Unit(UnitError),
    NotUnitless(Function),
    AlreadyHasUnit,
    AssignTarget,
    LoopShape,
    UndefinedVariable(Seq<char>),
    BadIndex,
    IndexOutOfBounds,
    IndexArity(usize),
    Template(TemplateError),
    Keyword(Keyword),
    Undisplayable,
    Failed(Option<Seq<char>>),
    Protocol,
    Halted,
}

impl View for EvalError {
    type V = EvalErrorView;

    open spec fn view(&self) -> EvalErrorView {
        match self {
            EvalError::UnknownOperator(op) => EvalErrorView::UnknownOperator(*op),
            EvalError::UnknownFunction(s) => EvalErrorView::UnknownFunction(s@),
            EvalError::OperatorArity(op, n) => EvalErrorView::OperatorArity(*op, *n),
            EvalError::FunctionArity { function, takes, given } => EvalErrorView::FunctionArity {
                function: *function,
                takes: *takes,
                given: *given,
            },
            EvalError::UnitBlockArity(n) => EvalErrorView::UnitBlockArity(*n),
            EvalError::Mismatch { expected, found } => EvalErrorView::Mismatch {
                expected: *expected,
                found: *found,
            },
            EvalError::NotReal => EvalErrorView::NotReal,
            EvalError::Unit(e) => EvalErrorView::Unit(*e),
            EvalError::NotUnitless(f) => EvalErrorView::NotUnitless(*f),
            EvalError::AlreadyHasUnit => EvalErrorView::AlreadyHasUnit,
            EvalError::AssignTarget => EvalErrorView::AssignTarget,
            EvalError::LoopShape => EvalErrorView::LoopShape,
            EvalError::UndefinedVariable(s) => EvalErrorView::UndefinedVariable(s@),
            EvalError::BadIndex => EvalErrorView::BadIndex,
            EvalError::IndexOutOfBounds => EvalErrorView::IndexOutOfBounds,
            EvalError::IndexArity(n) => EvalErrorView::IndexArity(*n),
            EvalError::Template(e) => EvalErrorView::Template(*e),
            EvalError::Keyword(k) => EvalErrorView::Keyword(*k),
            EvalError::Undisplayable => EvalErrorView::Undisplayable,
            EvalError::Failed(m) => EvalErrorView::Failed(
                match m {
                    Some(s) => Some(s@),
                    None => None,
                },
            ),
            EvalError::Protocol => EvalErrorView::Protocol,
            EvalError::Halted => EvalErrorView::Halted,
        }
    }
}

/// What the evaluator asks of its host after a step.
#[derive(Debug)]
pub enum Request {
    /// Nothing: take the next step.
    Continue,
    /// Compute, and answer with the resulting numbers.
    Compute(Numeric),
    /// Answer with the integer that the quantity is, if it is a real, exact,
    /// non-zero integer.
    ToIndex(Complex),
    /// Write the pieces into one text and answer with it.
    Render(Vec<Piece>),
    /// Write the pieces to the output.
    Emit(Vec<Piece>),
    /// The evaluation has ended with this outcome.
    Finished(Result<RValue, EvalError>),
}

/// The mathematical content of a [`Request`].
pub ghost enum RequestView {
    Continue,
    Compute(NumericView),
    ToIndex(Complex),
    Render(Seq<PieceView>),
    Emit(Seq<PieceView>),
    Finished(Result<RValueView, EvalErrorView>),
}

impl View for Request {
    type V = RequestView;

    open spec fn view(&self) -> RequestView {
        match self {
            Request::Continue => RequestView::Continue,
            Request::Compute(n) => RequestView::Compute(n@),
            Request::ToIndex(c) => RequestView::ToIndex(*c),
            Request::Render(p) => RequestView::Render(pieces_view(p@)),
            Request::Emit(p) => RequestView::Emit(pieces_view(p@)),
            Request::Finished(r) => RequestView::Finished(
                match r {
                    Ok(v) => Ok(v@),
                    Err(e) => Err(e@),
                },
            ),
        }
    }
}

/// What the host answers.
#[derive(Debug)]
pub enum Reply {
    /// Nothing to report: the answer to `Continue` and to `Emit`.
    Nothing,
    /// The numbers that a computation gave.
    Number(Complex),
    /// The integer that a quantity is, if it is one.
    Integer(Option<i64>),
    /// The text that the pieces gave.
    Text(String),
}

/// The mathematical content of a [`Reply`].
pub ghost enum ReplyView {
    Nothing,
    Number(Complex),
    Integer(Option<i64>),
    Text(Seq<char>),
}

impl View for Reply {
    type V = ReplyView;

    open spec fn view(&self) -> ReplyView {
        match self {
            Reply::Nothing => ReplyView::Nothing,
            Reply::Number(c) => ReplyView::Number(*c),
            Reply::Integer(i) => ReplyView::Integer(*i),
            Reply::Text(s) => ReplyView::Text(s@),
        }
    }
}

/// How far the scan of a template has come.
#[derive(Debug)]
pub struct Progress {
    /// The grapheme clusters of the template.
    pub clusters: Vec<Vec<char>>,
    /// The position at which the scan goes on.
    pub position: usize,
    /// The text written so far.
    pub written: Vec<char>,
}

/// The mathematical content of a [`Progress`].
pub ghost struct ProgressView {
    pub clusters: Seq<Seq<char>>,
    pub position: int,
    pub written: Seq<char>,
}

impl View for Progress {
    type V = ProgressView;

    open spec fn view(&self) -> ProgressView {
        ProgressView {
            clusters: crate::text::clusters_view(self.clusters@),
            position: self.position as int,
            written: self.written@,
        }
    }
}

/// Where a `for` loop takes its cells from.
#[derive(Debug)]
pub enum Source {
    /// From the matrix that a variable holds, read anew for every cell.
    Variable,
    /// From the cells of the matrix that the iterable evaluated to.
    Cells(Vec<RValue>),
}

/// The mathematical content of a [`Source`].
pub ghost enum SourceView {
    Variable,
    Cells(Seq<RValueView>),
}

impl View for Source {
    type V = SourceView;

    open spec fn view(&self) -> SourceView {
        match self {
            Source::Variable => SourceView::Variable,
            Source::Cells(cells) => SourceView::Cells(values_view(cells@)),
        }
    }
}

/// The state of a `for` loop: its source, its shape, the cell it is at and
/// the results of the cells before.
#[derive(Debug)]
pub struct Sweep {
    pub source: Source,
    pub width: usize,
    pub height: usize,
    pub column: usize,
    pub row: usize,
    pub results: Vec<RValue>,
}

/// The mathematical content of a [`Sweep`].
pub ghost struct SweepView {
    pub source: SourceView,
    pub width: usize,
    pub height: usize,
    pub column: usize,
    pub row: usize,
    pub results: Seq<RValueView>,
}

impl View for Sweep {
    type V = SweepView;

    open spec fn view(&self) -> SweepView {
        SweepView {
            source: self.source@,
            width: self.width,
            height: self.height,
            column: self.column,
            row: self.row,
            results: values_view(self.results@),
        }
    }
}

/// What a node waits for while one of its children is evaluated.
#[derive(Debug)]
pub enum Frame<'a> {
    /// The values of the first `limit` children, collected in order.
    Operands { node: &'a Tree, limit: usize, values: Vec<RValue> },
    /// The value to assign.
    Assign { node: &'a Tree },
    /// The condition of an `if`.
    Condition { node: &'a Tree },
    /// The condition of a `while`, or the value of its body.
    While { node: &'a Tree, results: Vec<RValue>, in_body: bool },
    /// The iterable of a `for`.
    Iterable { node: &'a Tree },
    /// The value of the body of a `for` at one cell.
    Body { node: &'a Tree, sweep: Sweep },
    /// The value of argument `index` of `write` or `print`.
    Print { node: &'a Tree, index: usize },
    /// The value that an `assert` tests.
    Assert { node: &'a Tree },
    /// The value that becomes the message of a failure.
    Message,
}

/// The mathematical content of a [`Frame`].
pub ghost enum FrameView {
    Operands { node: TreeView, limit: int, values: Seq<RValueView> },
    Assign { node: TreeView },
    Condition { node: TreeView },
    While { node: TreeView, results: Seq<RValueView>, in_body: bool },
    Iterable { node: TreeView },
    Body { node: TreeView, sweep: SweepView },
    Print { node: TreeView, index: usize },
    Assert { node: TreeView },
    Message,
}

impl<'a> View for Frame<'a> {
    type V = FrameView;

    open spec fn view(&self) -> FrameView {
        match self {
            Frame::Operands { node, limit, values } => FrameView::Operands {
                node: node@,
                limit: *limit as int,
                values: values_view(values@),
            },
            Frame::Assign { node } => FrameView::Assign { node: node@ },
            Frame::Condition { node } => FrameView::Condition { node: node@ },
            Frame::While { node, results, in_body } => FrameView::While {
                node: node@,
                results: values_view(results@),
                in_body: *in_body,
            },
            Frame::Iterable { node } => FrameView::Iterable { node: node@ },
            Frame::Body { node, sweep } => FrameView::Body { node: node@, sweep: sweep@ },
            Frame::Print { node, index } => FrameView::Print { node: node@, index: *index },
            Frame::Assert { node } => FrameView::Assert { node: node@ },
            Frame::Message => FrameView::Message,
        }
    }
}

/// What the evaluator does with the answer of its host.
#[derive(Debug)]
pub enum Pending<'a> {
    /// The numbers become a quantity with this unit.
    Number(Unit),
    /// The integer is the first index of the indexing `node`; `second` is
    /// the value of the second index, if there is one.
    FirstIndex { node: &'a Tree, second: RValue },
    /// The integer is the second index of the indexing `node`, whose first
    /// index is `row`.
    SecondIndex { node: &'a Tree, row: i64 },
    /// Argument `index` of the call `node` has been written out.
    Printed { node: &'a Tree, index: usize },
    /// The end of a printed line has been written out.
    PrintedLine,
    /// The text is the message of a failure.
    Message,
    /// The numbers are those of `quantity` in its display unit, whose text
    /// is `unit`; they go into a hole of a template.
    Converted { progress: Progress, quantity: Quantity, unit: String },
    /// The text goes into a hole of a template.
    Interpolated { progress: Progress },
}

/// The mathematical content of a [`Pending`].
pub ghost enum PendingView {
    Number(Unit),
    FirstIndex { node: TreeView, second: RValueView },
    SecondIndex { node: TreeView, row: i64 },
    Printed { node: TreeView, index: usize },
    PrintedLine,
    Message,
    Converted { progress: ProgressView, quantity: Quantity, unit: Seq<char> },
    Interpolated { progress: ProgressView },
}

impl<'a> View for Pending<'a> {
    type V = PendingView;

    open spec fn view(&self) -> PendingView {
        match self {
            Pending::Number(u) => PendingView::Number(*u),
            Pending::FirstIndex { node, second } => PendingView::FirstIndex {
                node: node@,
                second: second@,
            },
            Pending::SecondIndex { node, row } => PendingView::SecondIndex {
                node: node@,
                row: *row,
            },
            Pending::Printed { node, index } => PendingView::Printed {
                node: node@,
                index: *index,
            },
            Pending::PrintedLine => PendingView::PrintedLine,
            Pending::Message => PendingView::Message,
            Pending::Converted { progress, quantity, unit } => PendingView::Converted {
                progress: progress@,
                quantity: *quantity,
                unit: unit@,
            },
            Pending::Interpolated { progress } => PendingView::Interpolated {
                progress: progress@,
            },
        }
    }
}

/// What the evaluator does at its next step.
#[derive(Debug)]
pub enum Control<'a> {
    /// It starts on a node.
    Evaluate(&'a Tree),
    /// It hands a value to the innermost waiting node.
    Deliver(RValue),
    /// It takes the answer of the host.
    Waiting(Pending<'a>),
    /// Nothing: the evaluation has ended.
    Halted,
}

/// The mathematical content of a [`Control`].
pub ghost enum ControlView {
    Evaluate(TreeView),
    Deliver(RValueView),
    Waiting(PendingView),
    Halted,
}

impl<'a> View for Control<'a> {
    type V = ControlView;

    open spec fn view(&self) -> ControlView {
        match self {
            Control::Evaluate(t) => ControlView::Evaluate(t@),
            Control::Deliver(v) => ControlView::Deliver(v@),
            Control::Waiting(p) => ControlView::Waiting(p@),
            Control::Halted => ControlView::Halted,
        }
    }
}

/// The outcome of one rule of evaluation.
#[derive(Debug)]
pub enum Move<'a> {
    /// The node waits with the frame while the tree is evaluated.
    Descend(Frame<'a>, &'a Tree),
    /// The tree is evaluated in place of the node.
    Jump(&'a Tree),
    /// The node has this value.
    Yield(RValue),
    /// The host is asked, and its answer is taken as the pending record
    /// says.
    Ask(Request, Pending<'a>),
    /// The evaluation fails.
    Fail(EvalError),
}

/// The mathematical content of a [`Move`].
pub ghost enum MoveView {
    Descend(FrameView, TreeView),
    Jump(TreeView),
    Yield(RValueView),
    Ask(RequestView, PendingView),
    Fail(EvalErrorView),
}

impl<'a> View for Move<'a> {
    type V = MoveView;

    open spec fn view(&self) -> MoveView {
        match self {
            Move::Descend(f, t) => MoveView::Descend(f@, t@),
            Move::Jump(t) => MoveView::Jump(t@),
            Move::Yield(v) => MoveView::Yield(v@),
            Move::Ask(r, p) => MoveView::Ask(r@, p@),
            Move::Fail(e) => MoveView::Fail(e@),
        }
    }
}

/// The contents of a stack of frames.
pub open spec fn frames_view<'a>(frames: Seq<Frame<'a>>) -> Seq<FrameView> {
    frames.map_values(|f: Frame<'a>| f@)
}

/// The mathematical content of an evaluator.
pub ghost struct MachineView {
    pub vars: Bindings,
    pub stack: Seq<FrameView>,
    pub control: ControlView,
}

} // verus!
