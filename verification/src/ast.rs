//! The tree builder: from tokens to an expression tree.
//!
//! A span of tokens is first cut into atoms, one tree per atom, where every
//! bracketed region is built by recursion. The resulting level is then
//! reduced by a fixed sequence of passes, one per precedence class, each of
//! which folds operators with their operands until one tree is left.

use vstd::prelude::*;
use crate::unit::Unit;
use crate::notation::{Scale, ScaleView, is_digit};
use crate::text::chars_of;
use crate::lexer::{Lexem, LexemView, Operator, Keyword, tokens_view};

verus! {

/// What a tree node is.
#[derive(Debug, Clone)]
pub enum Node {
    /// An omitted element.
    Nothing,
    /// A number as written, and its decorator.
    Number(String, String),
    Operator(Operator),
    Keyword(Keyword),
    Variable(String),
    FunctionCall(String),
    Block,
    /// A unit with the record of its scale.
    UnitBlock(Unit, Scale),
    StringBlock(String),
    /// Width and height of a matrix literal.
    MatrixBlock(usize, usize),
    MatrixIndexing(String),
}

/// A node with its children. `has_value` tells a reduced operand from an
/// operator that still waits for its operands.
#[derive(Debug)]
pub struct Tree {
    pub node: Node,
    pub children: Vec<Tree>,
    pub has_value: bool,
}

/// The mathematical content of a [`Node`].
pub ghost enum NodeView {
    Nothing,
    Number(Seq<char>, Seq<char>),
    Operator(Operator),
    Keyword(Keyword),
    Variable(Seq<char>),
    FunctionCall(Seq<char>),
    Block,
    UnitBlock(Unit, ScaleView),
    StringBlock(Seq<char>),
    MatrixBlock(usize, usize),
    MatrixIndexing(Seq<char>),
}

/// The mathematical content of a [`Tree`].
pub ghost struct TreeView {
    pub node: NodeView,
    pub children: Seq<TreeView>,
    pub has_value: bool,
}

impl View for Node {
    type V = NodeView;

    open spec fn view(&self) -> NodeView {
        match self {
            Node::Nothing => NodeView::Nothing,
            Node::Number(n, d) => NodeView::Number(n@, d@),
            Node::Operator(o) => NodeView::Operator(*o),
            Node::Keyword(k) => NodeView::Keyword(*k),
            Node::Variable(s) => NodeView::Variable(s@),
            Node::FunctionCall(s) => NodeView::FunctionCall(s@),
            Node::Block => NodeView::Block,
            Node::UnitBlock(u, s) => NodeView::UnitBlock(*u, s@),
            Node::StringBlock(s) => NodeView::StringBlock(s@),
            Node::MatrixBlock(w, h) => NodeView::MatrixBlock(*w, *h),
            Node::MatrixIndexing(s) => NodeView::MatrixIndexing(s@),
        }
    }
}

impl Tree {
    /// The content of the tree: the content of its node, the contents of its
    /// children in order, and whether it has its value.
    pub open spec fn content(self) -> TreeView
        decreases self,
    {
        TreeView {
            node: self.node@,
            children: Seq::new(
                self.children.len() as nat,
                |i: int|
                    if 0 <= i < self.children.len() {
                        self.children[i].content()
                    } else {
                        arbitrary()
                    },
            ),
            has_value: self.has_value,
        }
    }
}

impl View for Tree {
    type V = TreeView;

    open spec fn view(&self) -> TreeView {
        self.content()
    }
}

/// The contents of a sequence of trees.
pub open spec fn forest(trees: Seq<Tree>) -> Seq<TreeView> {
    trees.map_values(|t: Tree| t@)
}

/// The children of a tree's content are the contents of its children.
pub proof fn lemma_children(t: Tree)
    ensures
        t@.children == forest(t.children@),
        t@.node == t.node@,
        t@.has_value == t.has_value,
{
    let a = t@.children;
    let b = forest(t.children@);
    assert(a.len() == b.len());
    assert forall|i: int| 0 <= i < a.len() implies a[i] == b[i] by {
        assert(b[i] == t.children@[i]@);
    }
    assert(a =~= b);
}

/// Why no tree could be built.
#[derive(Debug, Clone, Copy, PartialEq, Eq, Structural)]
pub enum ParseError {
    /// A parenthesis has no partner.
    UnbalancedParenthesis,
    /// A brace has no partner.
    UnbalancedBracket,
    /// A square bracket has no partner.
    UnbalancedSquareBracket,
    /// A comma stands outside any call, index or matrix.
    StrayComma,
    /// A semicolon stands outside any block or matrix.
    StraySemiColon,
    /// The rows of a matrix literal differ in width.
    RaggedMatrix,
    /// A matrix is indexed without any index.
    EmptyIndex,
    /// A number is not written as decimal digits with at most one dot.
    BadNumber,
    /// The operator lacks an operand of the shape it needs.
    Operand(Operator),
    /// A unit block does not follow a valued expression.
    UnitOperand,
    /// The level did not reduce to a single tree.
    Unreduced,
    /// The single tree left is an operator without its operands.
    Unvalued,
}

/// A tree without children.
pub open spec fn leaf(node: NodeView, has_value: bool) -> TreeView {
    TreeView { node, children: Seq::empty(), has_value }
}

/// The tree `t` after it took `child` as its next child and thereby got its
/// value.
pub open spec fn with_child(t: TreeView, child: TreeView) -> TreeView {
    TreeView { node: t.node, children: t.children.push(child), has_value: true }
}

/// Whether `s` is written as decimal digits with at most one dot among them.
pub open spec fn is_decimal(s: Seq<char>) -> bool {
    &&& forall|i: int| 0 <= i < s.len() ==> is_digit(#[trigger] s[i]) || s[i] == '.'
    &&& exists|i: int| 0 <= i < s.len() && is_digit(#[trigger] s[i])
    &&& forall|i: int, j: int| 0 <= i < j < s.len() ==> !(#[trigger] s[i] == '.' && #[trigger] s[j] == '.')
}

/// Whether `t` is the operator `op` still waiting for its operands.
pub open spec fn awaits(t: TreeView, op: Operator) -> bool {
    t.node == NodeView::Operator(op) && !t.has_value
}

/// Whether `t` is any operator still waiting for its operands.
pub open spec fn is_pending_operator(t: TreeView) -> bool {
    t.node is Operator && !t.has_value
}

/// The operator of a tree whose node is an operator.
pub open spec fn operator_of(t: TreeView) -> Operator {
    t.node->Operator_0
}

/// Whether the element at `i` is a prefix operator: `!` anywhere; `+`, `-`,
/// `$` and `&` only at the start of the level or directly after an operator
/// that still waits for its operands.
pub open spec fn is_prefix_at(level: Seq<TreeView>, i: int) -> bool {
    let after_operator = i == 0 || is_pending_operator(level[i - 1]) || (level[i - 1].node
        is Nothing && !level[i - 1].has_value);
    awaits(level[i], Operator::Bang) || (after_operator && (awaits(level[i], Operator::Plus)
        || awaits(level[i], Operator::Minus) || awaits(level[i], Operator::ValueOf) || awaits(
        level[i],
        Operator::ErrorOf,
    )))
}

/// The prefix pass from position `i` down to the start of the level: every
/// prefix operator takes the element to its right as its only child.
pub open spec fn fold_prefix(level: Seq<TreeView>, i: int) -> Result<Seq<TreeView>, ParseError>
    decreases i + 1,
{
    if i < 0 || i + 1 >= level.len() {
        Ok(level)
    } else if is_prefix_at(level, i) {
        if level[i + 1].has_value {
            fold_prefix(
                level.remove(i + 1).update(i, with_child(level[i], level[i + 1])),
                i - 1,
            )
        } else {
            Err(ParseError::Operand(operator_of(level[i])))
        }
    } else {
        fold_prefix(level, i - 1)
    }
}

/// The pass over prefix operators, scanned from right to left.
pub open spec fn prefix_pass(level: Seq<TreeView>) -> Result<Seq<TreeView>, ParseError> {
    fold_prefix(level, level.len() - 2)
}

/// The two postfix passes.
#[derive(Debug, Clone, Copy, PartialEq, Eq, Structural)]
pub enum Postfix {
    /// The certainty check `?`.
    Question,
    /// A unit block.
    UnitBlock,
}

impl Postfix {
    /// Whether the pass folds `t`.
    pub open spec fn wants(self, t: TreeView) -> bool {
        match self {
            Postfix::Question => awaits(t, Operator::Question),
            Postfix::UnitBlock => t.node is UnitBlock && !t.has_value,
        }
    }

    /// The error for a missing operand.
    pub open spec fn error(self) -> ParseError {
        match self {
            Postfix::Question => ParseError::Operand(Operator::Question),
            Postfix::UnitBlock => ParseError::UnitOperand,
        }
    }
}

/// A postfix pass from position `i` on: every operator of the pass takes the
/// element to its left as its only child.
pub open spec fn fold_postfix(level: Seq<TreeView>, i: int, pass: Postfix) -> Result<
    Seq<TreeView>,
    ParseError,
>
    decreases level.len() - i,
{
    if i < 1 || i >= level.len() {
        Ok(level)
    } else if pass.wants(level[i]) {
        if level[i - 1].has_value {
            fold_postfix(
                level.remove(i - 1).update(i - 1, with_child(level[i], level[i - 1])),
                i,
                pass,
            )
        } else {
            Err(pass.error())
        }
    } else {
        fold_postfix(level, i + 1, pass)
    }
}

/// A postfix pass, scanned from left to right.
pub open spec fn postfix_pass(level: Seq<TreeView>, pass: Postfix) -> Result<
    Seq<TreeView>,
    ParseError,
> {
    fold_postfix(level, 1, pass)
}

/// The passes over binary operators, from the one that binds tightest.
#[derive(Debug, Clone, Copy, PartialEq, Eq, Structural)]
pub enum Binary {
    /// `^`
    Power,
    /// `*` and `/`
    Product,
    /// `pm`
    PlusMinus,
    /// `+` and `-`
    Sum,
    /// `==`, `>`, `>=`, `<` and `<=`
    Comparison,
    /// `and`
    And,
    /// `or`
    Or,
    /// `=`
    Assign,
}

impl Binary {
    /// Whether the pass folds the operator `op`.
    pub open spec fn takes(self, op: Operator) -> bool {
        match self {
            Binary::Power => op == Operator::Power,
            Binary::Product => op == Operator::Times || op == Operator::Divide,
            Binary::PlusMinus => op == Operator::PlusMinus,
            Binary::Sum => op == Operator::Plus || op == Operator::Minus,
            Binary::Comparison => op == Operator::Equal || op == Operator::Greater || op
                == Operator::GreaterEqual || op == Operator::Less || op == Operator::LessEqual,
            Binary::And => op == Operator::And,
            Binary::Or => op == Operator::Or,
            Binary::Assign => op == Operator::Assign,
        }
    }

    /// Whether the pass folds `t`.
    pub open spec fn wants(self, t: TreeView) -> bool {
        is_pending_operator(t) && self.takes(operator_of(t))
    }

    /// Whether `left` and `right` can be the operands: both must be valued,
    /// and the target of an assignment must be a variable.
    pub open spec fn accepts(self, left: TreeView, right: TreeView) -> bool {
        left.has_value && right.has_value && (self == Binary::Assign ==> left.node is Variable)
    }
}

/// A binary pass from position `i` on: every operator of the pass takes its
/// two neighbours as children, left first, and the scan goes on at the same
/// position, so that a chain folds to the left.
pub open spec fn fold_binary(level: Seq<TreeView>, i: int, pass: Binary) -> Result<
    Seq<TreeView>,
    ParseError,
>
    decreases level.len() - i,
{
    if i < 1 || i + 1 >= level.len() {
        Ok(level)
    } else if pass.wants(level[i]) {
        if pass.accepts(level[i - 1], level[i + 1]) {
            fold_binary(
                level.remove(i + 1).remove(i - 1).update(
                    i - 1,
                    with_child(with_child(level[i], level[i - 1]), level[i + 1]),
                ),
                i,
                pass,
            )
        } else {
            Err(ParseError::Operand(operator_of(level[i])))
        }
    } else {
        fold_binary(level, i + 1, pass)
    }
}

/// A binary pass, scanned from left to right.
pub open spec fn binary_pass(level: Seq<TreeView>, pass: Binary) -> Result<
    Seq<TreeView>,
    ParseError,
> {
    fold_binary(level, 1, pass)
}

/// The pass over `if` or over `while`, from position `i` down: the operator
/// takes the valued condition and the block that follow it as children.
pub open spec fn fold_statement(level: Seq<TreeView>, i: int, op: Operator) -> Result<
    Seq<TreeView>,
    ParseError,
>
    decreases i + 1,
{
    if i < 0 || i >= level.len() {
        Ok(level)
    } else if awaits(level[i], op) {
        if i + 2 < level.len() && level[i + 1].has_value && level[i + 2].node is Block && level[i
            + 2].has_value {
            fold_statement(
                level.remove(i + 2).remove(i + 1).update(
                    i,
                    with_child(with_child(level[i], level[i + 1]), level[i + 2]),
                ),
                i - 1,
                op,
            )
        } else {
            Err(ParseError::Operand(op))
        }
    } else {
        fold_statement(level, i - 1, op)
    }
}

/// The pass over `if` or over `while`, scanned from right to left.
pub open spec fn statement_pass(level: Seq<TreeView>, op: Operator) -> Result<
    Seq<TreeView>,
    ParseError,
> {
    if level.len() < 3 {
        Ok(level)
    } else {
        fold_statement(level, level.len() - 3, op)
    }
}

/// Whether `t` is a reduced `if`.
pub open spec fn is_if_node(t: TreeView) -> bool {
    t.node == NodeView::Operator(Operator::If) && t.has_value
}

/// The pass over `else`, from position `i` down: an `else` between a
/// reduced `if` and either a block or another reduced `if` gives its right
/// neighbour to the `if` on its left as a further child.
pub open spec fn fold_else(level: Seq<TreeView>, i: int) -> Result<Seq<TreeView>, ParseError>
    decreases i,
{
    if i < 1 || i + 1 >= level.len() {
        Ok(level)
    } else if awaits(level[i], Operator::Else) {
        if is_if_node(level[i - 1]) && (is_if_node(level[i + 1]) || (level[i + 1].node is Block
            && level[i + 1].has_value)) {
            fold_else(
                level.remove(i + 1).remove(i).update(i - 1, with_child(level[i - 1], level[i + 1])),
                if i >= 2 {
                    i - 2
                } else {
                    0
                },
            )
        } else {
            Err(ParseError::Operand(Operator::Else))
        }
    } else {
        fold_else(level, i - 1)
    }
}

/// The pass over `else`, scanned from right to left.
pub open spec fn else_pass(level: Seq<TreeView>) -> Result<Seq<TreeView>, ParseError> {
    if level.len() < 3 {
        Ok(level)
    } else {
        fold_else(level, level.len() - 2)
    }
}

/// The pass over `for`, from position `i` down: `for`, a variable, the
/// keyword `in`, a valued expression and a block fold into one tree whose
/// children are the variable, the expression and the block.
pub open spec fn fold_for(level: Seq<TreeView>, i: int) -> Result<Seq<TreeView>, ParseError>
    decreases i + 1,
{
    if i < 0 || i >= level.len() {
        Ok(level)
    } else if awaits(level[i], Operator::For) {
        if i + 4 < level.len() && level[i + 1].node is Variable && level[i + 1].has_value
            && level[i + 2].node == NodeView::Keyword(Keyword::In) && level[i + 3].has_value
            && level[i + 4].node is Block && level[i + 4].has_value {
            fold_for(
                level.remove(i + 4).remove(i + 3).remove(i + 2).remove(i + 1).update(
                    i,
                    with_child(
                        with_child(with_child(level[i], level[i + 1]), level[i + 3]),
                        level[i + 4],
                    ),
                ),
                i - 1,
            )
        } else {
            Err(ParseError::Operand(Operator::For))
        }
    } else {
        fold_for(level, i - 1)
    }
}

/// The pass over `for`, scanned from right to left.
pub open spec fn for_pass(level: Seq<TreeView>) -> Result<Seq<TreeView>, ParseError> {
    if level.len() < 5 {
        Ok(level)
    } else {
        fold_for(level, level.len() - 3)
    }
}

/// The steps of the reduction, in the order in which they run.
pub open spec fn reduce_step(level: Seq<TreeView>, step: int) -> Result<Seq<TreeView>, ParseError> {
    if step == 0 {
        prefix_pass(level)
    } else if step == 1 {
        postfix_pass(level, Postfix::Question)
    } else if step == 2 {
        postfix_pass(level, Postfix::UnitBlock)
    } else if step == 3 {
        binary_pass(level, Binary::Power)
    } else if step == 4 {
        binary_pass(level, Binary::Product)
    } else if step == 5 {
        binary_pass(level, Binary::PlusMinus)
    } else if step == 6 {
        binary_pass(level, Binary::Sum)
    } else if step == 7 {
        binary_pass(level, Binary::Comparison)
    } else if step == 8 {
        binary_pass(level, Binary::And)
    } else if step == 9 {
        binary_pass(level, Binary::Or)
    } else if step == 10 {
        statement_pass(level, Operator::If)
    } else if step == 11 {
        else_pass(level)
    } else if step == 12 {
        statement_pass(level, Operator::While)
    } else if step == 13 {
        for_pass(level)
    } else {
        binary_pass(level, Binary::Assign)
    }
}

/// The level after the first `n` steps of the reduction.
pub open spec fn reduced(level: Seq<TreeView>, n: int) -> Result<Seq<TreeView>, ParseError>
    decreases n,
{
    if n <= 0 {
        Ok(level)
    } else {
        match reduced(level, n - 1) {
            Err(e) => Err(e),
            Ok(before) => reduce_step(before, n - 1),
        }
    }
}

/// The tree that a level reduces to: after all fifteen steps exactly one
/// tree must be left, and it must have its value.
pub open spec fn reduce(level: Seq<TreeView>) -> Result<TreeView, ParseError> {
    match reduced(level, 15) {
        Err(e) => Err(e),
        Ok(last) => {
            if last.len() != 1 {
                Err(ParseError::Unreduced)
            } else if !last[0].has_value {
                Err(ParseError::Unvalued)
            } else {
                Ok(last[0])
            }
        },
    }
}


/// The kinds of bracketed region.
#[derive(Debug, Clone, Copy, PartialEq, Eq, Structural)]
pub enum Group {
    /// `( … )`
    Parenthesis,
    /// The arguments of `name( … )`
    Call,
    /// The indices of `name[ … ]`
    Index,
    /// A matrix literal `[ … ]`
    Matrix,
    /// A block `{ … }`
    Block,
}

/// How many brackets of each family are open.
pub ghost struct Depth {
    pub par: int,
    pub brace: int,
    pub square: int,
}

impl Group {
    /// The depth just inside the opening bracket.
    pub open spec fn initial(self) -> Depth {
        match self {
            Group::Parenthesis | Group::Call => Depth { par: 1, brace: 0, square: 0 },
            Group::Index | Group::Matrix => Depth { par: 0, brace: 0, square: 1 },
            Group::Block => Depth { par: 0, brace: 1, square: 0 },
        }
    }

    /// Whether the region keeps count of parentheses.
    pub open spec fn counts_par(self) -> bool {
        self == Group::Parenthesis || self == Group::Call || self == Group::Index
    }

    /// Whether the region keeps count of braces.
    pub open spec fn counts_brace(self) -> bool {
        self == Group::Call || self == Group::Block
    }

    /// Whether the region keeps count of square brackets.
    pub open spec fn counts_square(self) -> bool {
        self != Group::Parenthesis
    }

    /// The depth after `token`.
    pub open spec fn bump(self, token: LexemView, d: Depth) -> Depth {
        Depth {
            par: if self.counts_par() && token == LexemView::LeftPar {
                d.par + 1
            } else if self.counts_par() && token == LexemView::RightPar {
                d.par - 1
            } else {
                d.par
            },
            brace: if self.counts_brace() && token == LexemView::LeftBracket {
                d.brace + 1
            } else if self.counts_brace() && token == LexemView::RightBracket {
                d.brace - 1
            } else {
                d.brace
            },
            square: if self.counts_square() && token == LexemView::LeftSqBracket {
                d.square + 1
            } else if self.counts_square() && token == LexemView::RightSqBracket {
                d.square - 1
            } else {
                d.square
            },
        }
    }

    /// Whether the region ends at a token after which the depth is `d`.
    pub open spec fn closes(self, d: Depth) -> bool {
        match self {
            Group::Parenthesis | Group::Call => d.par == 0,
            Group::Index => d.square == 0 && d.par == 0,
            Group::Matrix => d.square == 0,
            Group::Block => d.brace == 0,
        }
    }

    /// Whether a region at depth `d` can no longer be well formed.
    pub open spec fn broken(self, d: Depth) -> bool {
        self == Group::Block && (d.square < 0 || (d.brace == 0 && d.square != 0))
    }

    /// Whether `token`, after which the depth is `d`, separates two elements
    /// of the region.
    pub open spec fn separates(self, token: LexemView, d: Depth) -> bool {
        match self {
            Group::Parenthesis => false,
            Group::Call => token == LexemView::Comma && d.par == 1 && d.brace == 0 && d.square
                == 0,
            Group::Index => token == LexemView::Comma && d.square == 1 && d.par == 0,
            Group::Matrix => (token == LexemView::Comma || token == LexemView::SemiColon)
                && d.square == 1,
            Group::Block => token == LexemView::SemiColon && d.brace == 1 && d.square == 0,
        }
    }

    /// The error for a region that is not closed.
    pub open spec fn unbalanced(self) -> ParseError {
        match self {
            Group::Parenthesis | Group::Call => ParseError::UnbalancedParenthesis,
            Group::Index | Group::Matrix => ParseError::UnbalancedSquareBracket,
            Group::Block => ParseError::UnbalancedBracket,
        }
    }
}

/// `first` put in front of the separators found later.
pub open spec fn and_later(first: Seq<int>, later: Option<(Seq<int>, int)>) -> Option<
    (Seq<int>, int),
> {
    match later {
        Some((separators, end)) => Some((first + separators, end)),
        None => None,
    }
}

/// The separators of a region from position `i` on and the position of its
/// closing token, where the depth before `i` is `d`; `None` if the region is
/// not closed before `to`.
pub open spec fn extent(tokens: Seq<LexemView>, kind: Group, i: int, to: int, d: Depth) -> Option<
    (Seq<int>, int),
>
    decreases to - i,
{
    if i < 0 || i >= to || i >= tokens.len() {
        None
    } else {
        let after = kind.bump(tokens[i], d);
        if kind.broken(after) {
            None
        } else if kind.closes(after) {
            Some((Seq::empty(), i))
        } else if kind.separates(tokens[i], after) {
            and_later(seq![i], extent(tokens, kind, i + 1, to, after))
        } else {
            extent(tokens, kind, i + 1, to, after)
        }
    }
}

/// The running shape of a matrix literal while its separators are read.
pub ghost struct Shape {
    pub first_row: bool,
    pub width: int,
    pub current: int,
    pub height: int,
}

/// The shape after the first `n` separators: a comma ends an entry, a
/// semicolon ends an entry and a row, and every row must be as wide as the
/// row before it.
pub open spec fn rows(tokens: Seq<LexemView>, separators: Seq<int>, n: int) -> Result<
    Shape,
    ParseError,
>
    decreases n,
{
    if n <= 0 {
        Ok(Shape { first_row: true, width: 0, current: 0, height: 0 })
    } else {
        match rows(tokens, separators, n - 1) {
            Err(e) => Err(e),
            Ok(s) => {
                if tokens[separators[n - 1]] == LexemView::Comma {
                    Ok(Shape { current: s.current + 1, ..s })
                } else if !s.first_row && s.current + 1 != s.width {
                    Err(ParseError::RaggedMatrix)
                } else {
                    Ok(
                        Shape {
                            first_row: false,
                            width: s.current + 1,
                            current: 0,
                            height: s.height + 1,
                        },
                    )
                }
            },
        }
    }
}

/// Width, height and number of entries of the matrix literal opened at
/// `open` and closed at `close`. A semicolon directly before the closing
/// bracket ends the last row; otherwise the tokens after the last separator
/// are one more entry, which a comma directly before the closing bracket
/// does not count into the width.
pub open spec fn matrix_shape(
    tokens: Seq<LexemView>,
    separators: Seq<int>,
    open: int,
    close: int,
) -> Result<(int, int, int), ParseError> {
    match rows(tokens, separators, separators.len() as int) {
        Err(e) => Err(e),
        Ok(s) => {
            let last = tokens[close - 1];
            if close - 1 > open && last == LexemView::SemiColon {
                Ok((s.width, s.height, separators.len() as int))
            } else {
                let current = if close - 1 > open && last == LexemView::Comma {
                    s.current
                } else {
                    s.current + 1
                };
                if !s.first_row && current != s.width {
                    Err(ParseError::RaggedMatrix)
                } else {
                    Ok((current, s.height + 1, (separators.len() + 1) as int))
                }
            }
        },
    }
}

/// The positions that bound the elements of a region: the opening token, the
/// separators and the closing token.
pub open spec fn bounds(open: int, separators: Seq<int>, close: int) -> Seq<int> {
    (seq![open] + separators).push(close)
}

/// The trees of the first `n` elements of a region, element `j` being the
/// tokens strictly between bound `j` and bound `j + 1`.
pub open spec fn span_trees(
    tokens: Seq<LexemView>,
    from: int,
    to: int,
    limits: Seq<int>,
    n: int,
) -> Result<Seq<TreeView>, ParseError>
    decreases to - from, 0int, n,
{
    if n <= 0 {
        Ok(Seq::empty())
    } else {
        match span_trees(tokens, from, to, limits, n - 1) {
            Err(e) => Err(e),
            Ok(trees) => {
                let lo = limits[n - 1] + 1;
                let hi = limits[n];
                if from < lo && lo <= hi && hi <= to {
                    match spec_ast(tokens, lo, hi) {
                        Ok(t) => Ok(trees.push(t)),
                        Err(e) => Err(e),
                    }
                } else {
                    Err(ParseError::Unreduced)
                }
            },
        }
    }
}

/// The atom that starts at position `i` of the span, and the position after
/// it.
pub open spec fn atom_at(tokens: Seq<LexemView>, from: int, to: int, i: int) -> Result<
    (TreeView, int),
    ParseError,
>
    decreases to - from, 1int, 0int,
{
    match tokens[i] {
        LexemView::Number(n, d) => {
            if is_decimal(n) {
                Ok((leaf(NodeView::Number(n, d), true), i + 1))
            } else {
                Err(ParseError::BadNumber)
            }
        },
        LexemView::Operator(op) => Ok((leaf(NodeView::Operator(op), false), i + 1)),
        LexemView::Keyword(k) => Ok((leaf(NodeView::Keyword(k), false), i + 1)),
        LexemView::UnitBlock(u, s) => Ok((leaf(NodeView::UnitBlock(u, s), false), i + 1)),
        LexemView::StringBlock(s) => Ok((leaf(NodeView::StringBlock(s), true), i + 1)),
        LexemView::RightPar => Err(ParseError::UnbalancedParenthesis),
        LexemView::RightBracket => Err(ParseError::UnbalancedBracket),
        LexemView::RightSqBracket => Err(ParseError::UnbalancedSquareBracket),
        LexemView::Comma => Err(ParseError::StrayComma),
        LexemView::SemiColon => Err(ParseError::StraySemiColon),
        LexemView::LeftPar => {
            match extent(tokens, Group::Parenthesis, i + 1, to, Group::Parenthesis.initial()) {
                None => Err(ParseError::UnbalancedParenthesis),
                Some((_, close)) => {
                    if from <= i && i < close && close < to {
                        match spec_ast(tokens, i + 1, close) {
                            Ok(t) => Ok((t, close + 1)),
                            Err(e) => Err(e),
                        }
                    } else {
                        Err(ParseError::Unreduced)
                    }
                },
            }
        },
        LexemView::LeftBracket => {
            match extent(tokens, Group::Block, i + 1, to, Group::Block.initial()) {
                None => Err(ParseError::UnbalancedBracket),
                Some((separators, close)) => {
                    match span_trees(
                        tokens,
                        from,
                        to,
                        bounds(i, separators, close),
                        (separators.len() + 1) as int,
                    ) {
                        Err(e) => Err(e),
                        Ok(children) => Ok(
                            (TreeView { node: NodeView::Block, children, has_value: true }, close + 1),
                        ),
                    }
                },
            }
        },
        LexemView::LeftSqBracket => {
            match extent(tokens, Group::Matrix, i + 1, to, Group::Matrix.initial()) {
                None => Err(ParseError::UnbalancedSquareBracket),
                Some((separators, close)) => {
                    match matrix_shape(tokens, separators, i, close) {
                        Err(e) => Err(e),
                        Ok((width, height, entries)) => {
                            match span_trees(
                                tokens,
                                from,
                                to,
                                bounds(i, separators, close),
                                entries,
                            ) {
                                Err(e) => Err(e),
                                Ok(children) => Ok(
                                    (
                                        TreeView {
                                            node: NodeView::MatrixBlock(
                                                width as usize,
                                                height as usize,
                                            ),
                                            children,
                                            has_value: true,
                                        },
                                        close + 1,
                                    ),
                                ),
                            }
                        },
                    }
                },
            }
        },
        LexemView::Identifier(name) => {
            if i + 1 >= to {
                Ok((leaf(NodeView::Variable(name), true), i + 1))
            } else if tokens[i + 1] == LexemView::LeftPar {
                if i + 2 >= to {
                    Err(ParseError::UnbalancedParenthesis)
                } else if tokens[i + 2] == LexemView::RightPar {
                    Ok((leaf(NodeView::FunctionCall(name), true), i + 3))
                } else {
                    match extent(tokens, Group::Call, i + 2, to, Group::Call.initial()) {
                        None => Err(ParseError::UnbalancedParenthesis),
                        Some((separators, close)) => {
                            match span_trees(
                                tokens,
                                from,
                                to,
                                bounds(i + 1, separators, close),
                                (separators.len() + 1) as int,
                            ) {
                                Err(e) => Err(e),
                                Ok(children) => Ok(
                                    (
                                        TreeView {
                                            node: NodeView::FunctionCall(name),
                                            children,
                                            has_value: true,
                                        },
                                        close + 1,
                                    ),
                                ),
                            }
                        },
                    }
                }
            } else if tokens[i + 1] == LexemView::LeftSqBracket {
                if i + 2 >= to {
                    Err(ParseError::UnbalancedSquareBracket)
                } else if tokens[i + 2] == LexemView::RightPar {
                    Err(ParseError::EmptyIndex)
                } else {
                    match extent(tokens, Group::Index, i + 2, to, Group::Index.initial()) {
                        None => Err(ParseError::UnbalancedSquareBracket),
                        Some((separators, close)) => {
                            match span_trees(
                                tokens,
                                from,
                                to,
                                bounds(i + 1, separators, close),
                                (separators.len() + 1) as int,
                            ) {
                                Err(e) => Err(e),
                                Ok(children) => Ok(
                                    (
                                        TreeView {
                                            node: NodeView::MatrixIndexing(name),
                                            children,
                                            has_value: true,
                                        },
                                        close + 1,
                                    ),
                                ),
                            }
                        },
                    }
                }
            } else {
                Ok((leaf(NodeView::Variable(name), true), i + 1))
            }
        },
    }
}

/// The atoms of the span from position `i` on.
pub open spec fn atoms(tokens: Seq<LexemView>, from: int, to: int, i: int) -> Result<
    Seq<TreeView>,
    ParseError,
>
    decreases to - from, 2int, to - i,
{
    if i < from || i >= to {
        Ok(Seq::empty())
    } else {
        match atom_at(tokens, from, to, i) {
            Err(e) => Err(e),
            Ok((t, next)) => {
                if i < next && next <= to {
                    match atoms(tokens, from, to, next) {
                        Ok(rest) => Ok(seq![t] + rest),
                        Err(e) => Err(e),
                    }
                } else {
                    Err(ParseError::Unreduced)
                }
            },
        }
    }
}

/// The tree of the tokens from `from` up to `to`. An empty span gives a
/// valued tree that stands for nothing.
pub open spec fn spec_ast(tokens: Seq<LexemView>, from: int, to: int) -> Result<
    TreeView,
    ParseError,
>
    decreases to - from, 3int, 0int,
{
    if to <= from {
        Ok(leaf(NodeView::Nothing, true))
    } else {
        match atoms(tokens, from, to, from) {
            Err(e) => Err(e),
            Ok(level) => reduce(level),
        }
    }
}

/// Whether the tree and everything below it has its value.
pub open spec fn all_valued(t: TreeView) -> bool
    decreases t,
{
    t.has_value && forall|i: int| 0 <= i < t.children.len() ==> all_valued(#[trigger] t.children[i])
}

/// Whether everything below the tree has its value.
pub open spec fn settled(t: TreeView) -> bool {
    forall|i: int| 0 <= i < t.children.len() ==> all_valued(#[trigger] t.children[i])
}

/// Whether every tree of the level is settled.
pub open spec fn level_settled(level: Seq<TreeView>) -> bool {
    forall|i: int| 0 <= i < level.len() ==> settled(#[trigger] level[i])
}

proof fn lemma_with_child(t: TreeView, child: TreeView)
    requires
        settled(t),
        settled(child),
        child.has_value,
    ensures
        settled(with_child(t, child)),
        all_valued(with_child(t, child)),
        all_valued(child),
{
    let joined = with_child(t, child);
    assert forall|i: int| 0 <= i < joined.children.len() implies all_valued(
        #[trigger] joined.children[i],
    ) by {
        if i < t.children.len() {
            assert(joined.children[i] == t.children[i]);
        }
    }
}

proof fn lemma_prefix_settled(level: Seq<TreeView>, i: int)
    requires
        level_settled(level),
    ensures
        fold_prefix(level, i) is Ok ==> level_settled(fold_prefix(level, i).unwrap()),
    decreases i + 1,
{
    if i < 0 || i + 1 >= level.len() {
    } else if is_prefix_at(level, i) {
        if level[i + 1].has_value {
            lemma_with_child(level[i], level[i + 1]);
            let next = level.remove(i + 1).update(i, with_child(level[i], level[i + 1]));
            assert forall|k: int| 0 <= k < next.len() implies settled(#[trigger] next[k]) by {
                if k < i {
                    assert(next[k] == level[k]);
                } else if k > i {
                    assert(next[k] == level[k + 1]);
                }
            }
            lemma_prefix_settled(next, i - 1);
        }
    } else {
        lemma_prefix_settled(level, i - 1);
    }
}

proof fn lemma_postfix_settled(level: Seq<TreeView>, i: int, pass: Postfix)
    requires
        level_settled(level),
    ensures
        fold_postfix(level, i, pass) is Ok ==> level_settled(fold_postfix(level, i, pass).unwrap()),
    decreases level.len() - i,
{
    if i < 1 || i >= level.len() {
    } else if pass.wants(level[i]) {
        if level[i - 1].has_value {
            lemma_with_child(level[i], level[i - 1]);
            let next = level.remove(i - 1).update(i - 1, with_child(level[i], level[i - 1]));
            assert forall|k: int| 0 <= k < next.len() implies settled(#[trigger] next[k]) by {
                if k < i - 1 {
                    assert(next[k] == level[k]);
                } else if k > i - 1 {
                    assert(next[k] == level[k + 1]);
                }
            }
            lemma_postfix_settled(next, i, pass);
        }
    } else {
        lemma_postfix_settled(level, i + 1, pass);
    }
}

proof fn lemma_binary_settled(level: Seq<TreeView>, i: int, pass: Binary)
    requires
        level_settled(level),
    ensures
        fold_binary(level, i, pass) is Ok ==> level_settled(fold_binary(level, i, pass).unwrap()),
    decreases level.len() - i,
{
    if i < 1 || i + 1 >= level.len() {
    } else if pass.wants(level[i]) {
        if pass.accepts(level[i - 1], level[i + 1]) {
            lemma_with_child(level[i], level[i - 1]);
            lemma_with_child(with_child(level[i], level[i - 1]), level[i + 1]);
            let next = level.remove(i + 1).remove(i - 1).update(
                i - 1,
                with_child(with_child(level[i], level[i - 1]), level[i + 1]),
            );
            assert forall|k: int| 0 <= k < next.len() implies settled(#[trigger] next[k]) by {
                if k < i - 1 {
                    assert(next[k] == level[k]);
                } else if k > i - 1 {
                    assert(next[k] == level[k + 2]);
                }
            }
            lemma_binary_settled(next, i, pass);
        }
    } else {
        lemma_binary_settled(level, i + 1, pass);
    }
}

proof fn lemma_statement_settled(level: Seq<TreeView>, i: int, op: Operator)
    requires
        level_settled(level),
    ensures
        fold_statement(level, i, op) is Ok ==> level_settled(fold_statement(level, i, op).unwrap()),
    decreases i + 1,
{
    if i < 0 || i >= level.len() {
    } else if awaits(level[i], op) {
        if i + 2 < level.len() && level[i + 1].has_value && level[i + 2].node is Block && level[i
            + 2].has_value {
            lemma_with_child(level[i], level[i + 1]);
            lemma_with_child(with_child(level[i], level[i + 1]), level[i + 2]);
            let next = level.remove(i + 2).remove(i + 1).update(
                i,
                with_child(with_child(level[i], level[i + 1]), level[i + 2]),
            );
            assert forall|k: int| 0 <= k < next.len() implies settled(#[trigger] next[k]) by {
                if k < i {
                    assert(next[k] == level[k]);
                } else if k > i {
                    assert(next[k] == level[k + 2]);
                }
            }
            lemma_statement_settled(next, i - 1, op);
        }
    } else {
        lemma_statement_settled(level, i - 1, op);
    }
}

proof fn lemma_else_settled(level: Seq<TreeView>, i: int)
    requires
        level_settled(level),
    ensures
        fold_else(level, i) is Ok ==> level_settled(fold_else(level, i).unwrap()),
    decreases i,
{
    if i < 1 || i + 1 >= level.len() {
    } else if awaits(level[i], Operator::Else) {
        if is_if_node(level[i - 1]) && (is_if_node(level[i + 1]) || (level[i + 1].node is Block
            && level[i + 1].has_value)) {
            lemma_with_child(level[i - 1], level[i + 1]);
            let next = level.remove(i + 1).remove(i).update(
                i - 1,
                with_child(level[i - 1], level[i + 1]),
            );
            assert forall|k: int| 0 <= k < next.len() implies settled(#[trigger] next[k]) by {
                if k < i - 1 {
                    assert(next[k] == level[k]);
                } else if k > i - 1 {
                    assert(next[k] == level[k + 2]);
                }
            }
            lemma_else_settled(
                next,
                if i >= 2 {
                    i - 2
                } else {
                    0
                },
            );
        }
    } else {
        lemma_else_settled(level, i - 1);
    }
}

proof fn lemma_for_settled(level: Seq<TreeView>, i: int)
    requires
        level_settled(level),
    ensures
        fold_for(level, i) is Ok ==> level_settled(fold_for(level, i).unwrap()),
    decreases i + 1,
{
    if i < 0 || i >= level.len() {
    } else if awaits(level[i], Operator::For) {
        if i + 4 < level.len() && level[i + 1].node is Variable && level[i + 1].has_value
            && level[i + 2].node == NodeView::Keyword(Keyword::In) && level[i + 3].has_value
            && level[i + 4].node is Block && level[i + 4].has_value {
            lemma_with_child(level[i], level[i + 1]);
            lemma_with_child(with_child(level[i], level[i + 1]), level[i + 3]);
            lemma_with_child(
                with_child(with_child(level[i], level[i + 1]), level[i + 3]),
                level[i + 4],
            );
            let next = level.remove(i + 4).remove(i + 3).remove(i + 2).remove(i + 1).update(
                i,
                with_child(
                    with_child(with_child(level[i], level[i + 1]), level[i + 3]),
                    level[i + 4],
                ),
            );
            assert forall|k: int| 0 <= k < next.len() implies settled(#[trigger] next[k]) by {
                if k < i {
                    assert(next[k] == level[k]);
                } else if k > i {
                    assert(next[k] == level[k + 4]);
                }
            }
            lemma_for_settled(next, i - 1);
        }
    } else {
        lemma_for_settled(level, i - 1);
    }
}

proof fn lemma_reduced_settled(level: Seq<TreeView>, n: int)
    requires
        level_settled(level),
        0 <= n <= 15,
    ensures
        reduced(level, n) is Ok ==> level_settled(reduced(level, n).unwrap()),
    decreases n,
{
    if n > 0 {
        lemma_reduced_settled(level, n - 1);
        if reduced(level, n - 1) is Ok {
            let before = reduced(level, n - 1).unwrap();
            let step = n - 1;
            lemma_prefix_settled(before, before.len() - 2);
            lemma_postfix_settled(before, 1, Postfix::Question);
            lemma_postfix_settled(before, 1, Postfix::UnitBlock);
            lemma_binary_settled(before, 1, Binary::Power);
            lemma_binary_settled(before, 1, Binary::Product);
            lemma_binary_settled(before, 1, Binary::PlusMinus);
            lemma_binary_settled(before, 1, Binary::Sum);
            lemma_binary_settled(before, 1, Binary::Comparison);
            lemma_binary_settled(before, 1, Binary::And);
            lemma_binary_settled(before, 1, Binary::Or);
            lemma_binary_settled(before, 1, Binary::Assign);
            lemma_statement_settled(before, before.len() - 3, Operator::If);
            lemma_statement_settled(before, before.len() - 3, Operator::While);
            lemma_else_settled(before, before.len() - 2);
            lemma_for_settled(before, before.len() - 3);
        }
    }
}

proof fn lemma_spans_valued(tokens: Seq<LexemView>, from: int, to: int, limits: Seq<int>, n: int)
    ensures
        span_trees(tokens, from, to, limits, n) is Ok ==> forall|k: int|
            0 <= k < span_trees(tokens, from, to, limits, n).unwrap().len() ==> all_valued(
                #[trigger] span_trees(tokens, from, to, limits, n).unwrap()[k],
            ),
    decreases to - from, 0int, n,
{
    if n > 0 {
        lemma_spans_valued(tokens, from, to, limits, n - 1);
        let lo = limits[n - 1] + 1;
        let hi = limits[n];
        if from < lo && lo <= hi && hi <= to {
            lemma_ast_valued(tokens, lo, hi);
        }
    }
}

proof fn lemma_atom_settled(tokens: Seq<LexemView>, from: int, to: int, i: int)
    ensures
        atom_at(tokens, from, to, i) is Ok ==> settled(atom_at(tokens, from, to, i).unwrap().0),
    decreases to - from, 1int, 0int,
{
    match tokens[i] {
        LexemView::LeftPar => {
            match extent(tokens, Group::Parenthesis, i + 1, to, Group::Parenthesis.initial()) {
                Some((_, close)) => {
                    if from <= i && i < close && close < to {
                        lemma_ast_valued(tokens, i + 1, close);
                    }
                },
                None => {},
            }
        },
        LexemView::LeftBracket => {
            match extent(tokens, Group::Block, i + 1, to, Group::Block.initial()) {
                Some((separators, close)) => {
                    lemma_spans_valued(
                        tokens,
                        from,
                        to,
                        bounds(i, separators, close),
                        (separators.len() + 1) as int,
                    );
                },
                None => {},
            }
        },
        LexemView::LeftSqBracket => {
            match extent(tokens, Group::Matrix, i + 1, to, Group::Matrix.initial()) {
                Some((separators, close)) => {
                    match matrix_shape(tokens, separators, i, close) {
                        Ok((width, height, entries)) => {
                            lemma_spans_valued(
                                tokens,
                                from,
                                to,
                                bounds(i, separators, close),
                                entries,
                            );
                        },
                        Err(_) => {},
                    }
                },
                None => {},
            }
        },
        LexemView::Identifier(name) => {
            if i + 2 < to {
                match extent(tokens, Group::Call, i + 2, to, Group::Call.initial()) {
                    Some((separators, close)) => {
                        lemma_spans_valued(
                            tokens,
                            from,
                            to,
                            bounds(i + 1, separators, close),
                            (separators.len() + 1) as int,
                        );
                    },
                    None => {},
                }
                match extent(tokens, Group::Index, i + 2, to, Group::Index.initial()) {
                    Some((separators, close)) => {
                        lemma_spans_valued(
                            tokens,
                            from,
                            to,
                            bounds(i + 1, separators, close),
                            (separators.len() + 1) as int,
                        );
                    },
                    None => {},
                }
            }
        },
        _ => {},
    }
}

proof fn lemma_atoms_settled(tokens: Seq<LexemView>, from: int, to: int, i: int)
    ensures
        atoms(tokens, from, to, i) is Ok ==> level_settled(atoms(tokens, from, to, i).unwrap()),
    decreases to - from, 2int, to - i,
{
    if i < from || i >= to {
    } else {
        lemma_atom_settled(tokens, from, to, i);
        match atom_at(tokens, from, to, i) {
            Ok((t, next)) => {
                if i < next && next <= to {
                    lemma_atoms_settled(tokens, from, to, next);
                    match atoms(tokens, from, to, next) {
                        Ok(rest) => {
                            let level = seq![t] + rest;
                            assert forall|k: int| 0 <= k < level.len() implies settled(
                                #[trigger] level[k],
                            ) by {
                                if k > 0 {
                                    assert(level[k] == rest[k - 1]);
                                }
                            }
                        },
                        Err(_) => {},
                    }
                }
            },
            Err(_) => {},
        }
    }
}

/// Every tree that is built is complete: the root and every node below it
/// has its value. An operator that still waits for operands never remains
/// in a tree.
pub proof fn lemma_ast_valued(tokens: Seq<LexemView>, from: int, to: int)
    ensures
        spec_ast(tokens, from, to) is Ok ==> all_valued(spec_ast(tokens, from, to).unwrap()),
    decreases to - from, 3int, 0int,
{
    if to <= from {
    } else {
        lemma_atoms_settled(tokens, from, to, from);
        match atoms(tokens, from, to, from) {
            Ok(level) => {
                lemma_reduced_settled(level, 15);
            },
            Err(_) => {},
        }
    }
}


/// Whether a built tree, or a failure, is the expected one.
pub open spec fn same_tree(r: Result<Tree, ParseError>, expected: Result<TreeView, ParseError>) -> bool {
    match (r, expected) {
        (Ok(t), Ok(wanted)) => t@ == wanted,
        (Err(e), Err(wanted)) => e == wanted,
        _ => false,
    }
}

/// Whether built trees, or a failure, are the expected ones.
pub open spec fn same_forest(
    r: Result<Vec<Tree>, ParseError>,
    expected: Result<Seq<TreeView>, ParseError>,
) -> bool {
    match (r, expected) {
        (Ok(trees), Ok(wanted)) => forest(trees@) == wanted,
        (Err(e), Err(wanted)) => e == wanted,
        _ => false,
    }
}

/// Whether a pass left the level, or failed, as expected.
pub open spec fn same_level(
    r: Result<(), ParseError>,
    after: Seq<Tree>,
    expected: Result<Seq<TreeView>, ParseError>,
) -> bool {
    match (r, expected) {
        (Ok(()), Ok(wanted)) => forest(after) == wanted,
        (Err(e), Err(wanted)) => e == wanted,
        _ => false,
    }
}

/// The positions as mathematical integers.
pub open spec fn ints(v: Seq<usize>) -> Seq<int> {
    v.map_values(|x: usize| x as int)
}

/// Whether `text` is written as decimal digits with at most one dot.
pub fn is_decimal_text(text: &str) -> (b: bool)
    ensures
        b == is_decimal(text@),
{
    let chars = chars_of(text);
    let mut digits: usize = 0;
    let mut dots: usize = 0;
    let ghost mut digit_at: int = 0;
    let ghost mut dot_at: int = 0;
    let mut i: usize = 0;
    while i < chars.len()
        invariant
            i <= chars.len(),
            chars@ == text@,
            forall|k: int| 0 <= k < i ==> is_digit(#[trigger] chars[k]) || chars[k] == '.',
            digits <= i,
            dots <= 1,
            digits > 0 ==> 0 <= digit_at < i && is_digit(chars[digit_at]),
            digits == 0 ==> forall|k: int| 0 <= k < i ==> !is_digit(#[trigger] chars[k]),
            dots == 1 ==> 0 <= dot_at < i && chars[dot_at] == '.',
            forall|k: int| 0 <= k < i && #[trigger] chars[k] == '.' ==> dots == 1 && k == dot_at,
        decreases chars.len() - i,
    {
        let c = chars[i];
        if '0' <= c && c <= '9' {
            digits += 1;
            proof {
                digit_at = i as int;
            }
        } else if c == '.' {
            if dots == 1 {
                assert(chars[dot_at] == '.' && chars[i as int] == '.');
                return false;
            }
            dots = 1;
            proof {
                dot_at = i as int;
            }
        } else {
            assert(!(is_digit(chars[i as int]) || chars[i as int] == '.'));
            return false;
        }
        i += 1;
    }
    if digits > 0 {
        assert(is_digit(chars[digit_at]));
        true
    } else {
        false
    }
}

/// Gives `child` to `parent` as its next child; `parent` then has its value.
fn adopt(parent: &mut Tree, child: Tree)
    ensures
        final(parent)@ == with_child(old(parent)@, child@),
{
    parent.children.push(child);
    parent.has_value = true;
    proof {
        lemma_children(*parent);
        lemma_children(*old(parent));
        assert(forest(parent.children@) =~= forest(old(parent).children@).push(child@));
    }
}

/// A tree without children.
fn make_leaf(node: Node, has_value: bool) -> (t: Tree)
    ensures
        t@ == leaf(node@, has_value),
{
    let t = Tree { node, children: Vec::new(), has_value };
    proof {
        lemma_children(t);
        assert(forest(t.children@) =~= Seq::<TreeView>::empty());
    }
    t
}

/// Positions that increase strictly from `low` up to `high` are at most
/// `high - low` in number.
proof fn lemma_ascending_len(v: Seq<usize>, low: int, high: int)
    requires
        ascending(v, low, high),
    ensures
        v.len() == 0 || v.len() <= high - low,
{
    if v.len() > 0 {
        lemma_ascending_from(v, low, high, v.len() - 1);
    }
}

proof fn lemma_ascending_from(v: Seq<usize>, low: int, high: int, k: int)
    requires
        ascending(v, low, high),
        0 <= k < v.len(),
    ensures
        v[k] >= low + k,
    decreases k,
{
    if k > 0 {
        lemma_ascending_from(v, low, high, k - 1);
    }
}

fn counts_par(kind: Group) -> (b: bool)
    ensures
        b == kind.counts_par(),
{
    matches!(kind, Group::Parenthesis | Group::Call | Group::Index)
}

fn counts_brace(kind: Group) -> (b: bool)
    ensures
        b == kind.counts_brace(),
{
    matches!(kind, Group::Call | Group::Block)
}

fn counts_square(kind: Group) -> (b: bool)
    ensures
        b == kind.counts_square(),
{
    !matches!(kind, Group::Parenthesis)
}

/// Whether the positions increase strictly and lie from `low` up to `high`.
pub open spec fn ascending(v: Seq<usize>, low: int, high: int) -> bool {
    &&& forall|k: int| 0 <= k < v.len() ==> low <= #[trigger] v[k] < high
    &&& forall|k: int, l: int| 0 <= k < l < v.len() ==> #[trigger] v[k] < #[trigger] v[l]
}

/// Finds the end of a bracketed region and the separators of its elements.
fn scan_group(tokens: &[Lexem], kind: Group, start: usize, to: usize) -> (r: Option<
    (Vec<usize>, usize),
>)
    requires
        start <= to <= tokens.len(),
    ensures
        match r {
            Some((separators, close)) => {
                &&& extent(tokens_view(tokens@), kind, start as int, to as int, kind.initial())
                    == Some((ints(separators@), close as int))
                &&& start <= close < to
                &&& ascending(separators@, start as int, close as int)
            },
            None => extent(tokens_view(tokens@), kind, start as int, to as int, kind.initial())
                is None,
        },
{
    let ghost all = tokens_view(tokens@);
    let mut par: i128 = if matches!(kind, Group::Parenthesis | Group::Call) {
        1
    } else {
        0
    };
    let mut brace: i128 = if matches!(kind, Group::Block) {
        1
    } else {
        0
    };
    let mut square: i128 = if matches!(kind, Group::Index | Group::Matrix) {
        1
    } else {
        0
    };
    let mut separators: Vec<usize> = Vec::new();
    let mut i: usize = start;
    proof {
        let rest = extent(all, kind, i as int, to as int, kind.initial());
        if rest is Some {
            assert(ints(separators@) + rest.unwrap().0 =~= rest.unwrap().0);
        }
    }
    while i < to
        invariant
            start <= i <= to,
            to <= tokens.len(),
            all == tokens_view(tokens@),
            -1 - (i - start) <= par <= 1 + (i - start),
            -1 - (i - start) <= brace <= 1 + (i - start),
            -1 - (i - start) <= square <= 1 + (i - start),
            ascending(separators@, start as int, i as int),
            and_later(
                ints(separators@),
                extent(all, kind, i as int, to as int, Depth { par: par as int, brace: brace as int, square: square as int }),
            ) == extent(all, kind, start as int, to as int, kind.initial()),
        decreases to - i,
    {
        let ghost before = Depth { par: par as int, brace: brace as int, square: square as int };
        let ghost found = ints(separators@);
        let mut comma = false;
        let mut semicolon = false;
        match &tokens[i] {
            Lexem::LeftPar => {
                if counts_par(kind) {
                    par += 1;
                }
            },
            Lexem::RightPar => {
                if counts_par(kind) {
                    par -= 1;
                }
            },
            Lexem::LeftBracket => {
                if counts_brace(kind) {
                    brace += 1;
                }
            },
            Lexem::RightBracket => {
                if counts_brace(kind) {
                    brace -= 1;
                }
            },
            Lexem::LeftSqBracket => {
                if counts_square(kind) {
                    square += 1;
                }
            },
            Lexem::RightSqBracket => {
                if counts_square(kind) {
                    square -= 1;
                }
            },
            Lexem::Comma => {
                comma = true;
            },
            Lexem::SemiColon => {
                semicolon = true;
            },
            _ => {},
        }
        let ghost after = Depth { par: par as int, brace: brace as int, square: square as int };
        assert(after == kind.bump(all[i as int], before));
        assert(comma == (all[i as int] == LexemView::Comma));
        assert(semicolon == (all[i as int] == LexemView::SemiColon));
        let broken = matches!(kind, Group::Block) && (square < 0 || (brace == 0 && square != 0));
        if broken {
            return None;
        }
        let closes = match kind {
            Group::Parenthesis | Group::Call => par == 0,
            Group::Index => square == 0 && par == 0,
            Group::Matrix => square == 0,
            Group::Block => brace == 0,
        };
        if closes {
            assert(found + Seq::<int>::empty() =~= found);
            return Some((separators, i));
        }
        let separates = match kind {
            Group::Parenthesis => false,
            Group::Call => comma && par == 1 && brace == 0 && square == 0,
            Group::Index => comma && square == 1 && par == 0,
            Group::Matrix => (comma || semicolon) && square == 1,
            Group::Block => semicolon && brace == 1 && square == 0,
        };
        assert(separates == kind.separates(all[i as int], after));
        if separates {
            separators.push(i);
            proof {
                let rest = extent(all, kind, i + 1, to as int, after);
                assert(ints(separators@) =~= found + seq![i as int]);
                if rest is Some {
                    assert(found + (seq![i as int] + rest.unwrap().0) =~= (found + seq![i as int])
                        + rest.unwrap().0);
                }
            }
        }
        i += 1;
    }
    None
}

/// Reads the shape of a matrix literal off its separators.
fn read_matrix_shape(tokens: &[Lexem], separators: &Vec<usize>, open: usize, close: usize) -> (r:
    Result<(usize, usize, usize), ParseError>)
    requires
        open < close < tokens.len(),
        ascending(separators@, open + 1, close as int),
    ensures
        match (r, matrix_shape(tokens_view(tokens@), ints(separators@), open as int, close as int)) {
            (Ok((w, h, n)), Ok((width, height, entries))) => w == width && h == height && n
                == entries && n <= separators.len() + 1,
            (Err(e), Err(wanted)) => e == wanted,
            _ => false,
        },
{
    let ghost all = tokens_view(tokens@);
    let ghost positions = ints(separators@);
    proof {
        lemma_ascending_len(separators@, open + 1, close as int);
    }
    let mut first_row = true;
    let mut width: usize = 0;
    let mut current: usize = 0;
    let mut height: usize = 0;
    let mut k: usize = 0;
    while k < separators.len()
        invariant
            k <= separators.len(),
            all == tokens_view(tokens@),
            positions == ints(separators@),
            close < tokens.len(),
            ascending(separators@, open + 1, close as int),
            separators.len() < usize::MAX,
            current <= k,
            height <= k,
            width <= k,
            rows(all, positions, k as int) == Ok::<Shape, ParseError>(
                Shape {
                    first_row,
                    width: width as int,
                    current: current as int,
                    height: height as int,
                },
            ),
        decreases separators.len() - k,
    {
        let at = separators[k];
        assert(positions[k as int] == at);
        let comma = matches!(&tokens[at], Lexem::Comma);
        assert(comma == (all[at as int] == LexemView::Comma));
        if comma {
            current += 1;
        } else if !first_row && current + 1 != width {
            proof {
                lemma_rows_error(all, positions, k + 1, separators.len() as int);
            }
            return Err(ParseError::RaggedMatrix);
        } else {
            first_row = false;
            width = current + 1;
            current = 0;
            height += 1;
        }
        k += 1;
    }
    let last_semicolon = close - 1 > open && matches!(&tokens[close - 1], Lexem::SemiColon);
    let last_comma = close - 1 > open && matches!(&tokens[close - 1], Lexem::Comma);
    assert(last_semicolon == (close - 1 > open && all[close - 1] == LexemView::SemiColon));
    assert(last_comma == (close - 1 > open && all[close - 1] == LexemView::Comma));
    if last_semicolon {
        Ok((width, height, separators.len()))
    } else {
        let last = if last_comma {
            current
        } else {
            current + 1
        };
        if !first_row && last != width {
            Err(ParseError::RaggedMatrix)
        } else {
            Ok((last, height + 1, separators.len() + 1))
        }
    }
}

/// Once the rows have failed they stay failed.
proof fn lemma_rows_error(tokens: Seq<LexemView>, separators: Seq<int>, n: int, m: int)
    requires
        0 <= n <= m,
        rows(tokens, separators, n) is Err,
    ensures
        rows(tokens, separators, m) == rows(tokens, separators, n),
    decreases m - n,
{
    if n < m {
        lemma_rows_error(tokens, separators, n, m - 1);
    }
}

/// The bounds of the elements of a region.
fn element_bounds(open: usize, separators: &Vec<usize>, close: usize) -> (limits: Vec<usize>)
    ensures
        ints(limits@) == bounds(open as int, ints(separators@), close as int),
        limits@ == (seq![open] + separators@).push(close),
{
    let mut limits: Vec<usize> = Vec::new();
    limits.push(open);
    let mut k: usize = 0;
    while k < separators.len()
        invariant
            k <= separators.len(),
            limits@ == seq![open] + separators@.take(k as int),
        decreases separators.len() - k,
    {
        limits.push(separators[k]);
        assert(separators@.take(k + 1) == separators@.take(k as int).push(separators@[k as int]));
        k += 1;
    }
    assert(separators@.take(separators.len() as int) == separators@);
    limits.push(close);
    assert(ints(limits@) =~= bounds(open as int, ints(separators@), close as int));
    limits
}

/// Once the elements have failed they stay failed.
proof fn lemma_span_error(
    tokens: Seq<LexemView>,
    from: int,
    to: int,
    limits: Seq<int>,
    n: int,
    m: int,
)
    requires
        0 <= n <= m,
        span_trees(tokens, from, to, limits, n) is Err,
    ensures
        span_trees(tokens, from, to, limits, m) == span_trees(tokens, from, to, limits, n),
    decreases m - n,
{
    if n < m {
        lemma_span_error(tokens, from, to, limits, n, m - 1);
    }
}

/// Builds the trees of the first `count` elements of a region.
fn span_children(tokens: &[Lexem], from: usize, to: usize, limits: &Vec<usize>, count: usize) -> (r:
    Result<Vec<Tree>, ParseError>)
    requires
        from < to <= tokens.len(),
        count < limits.len(),
        ascending(limits@, from as int, to as int),
    ensures
        same_forest(
            r,
            span_trees(tokens_view(tokens@), from as int, to as int, ints(limits@), count as int),
        ),
    decreases to - from, 0int, 0int,
{
    let ghost all = tokens_view(tokens@);
    let ghost positions = ints(limits@);
    let mut children: Vec<Tree> = Vec::new();
    let mut j: usize = 0;
    assert(forest(children@) =~= Seq::<TreeView>::empty());
    while j < count
        invariant
            j <= count,
            count < limits.len(),
            from < to <= tokens.len(),
            all == tokens_view(tokens@),
            positions == ints(limits@),
            ascending(limits@, from as int, to as int),
            span_trees(all, from as int, to as int, positions, j as int) == Ok::<
                Seq<TreeView>,
                ParseError,
            >(forest(children@)),
        decreases count - j,
    {
        let lo = limits[j] + 1;
        let hi = limits[j + 1];
        assert(positions[j as int] == limits[j as int]);
        assert(positions[j + 1] == limits[j + 1]);
        match ast_range(tokens, lo, hi) {
            Err(e) => {
                proof {
                    lemma_span_error(all, from as int, to as int, positions, j + 1, count as int);
                }
                return Err(e);
            },
            Ok(t) => {
                let ghost before = forest(children@);
                children.push(t);
                assert(forest(children@) =~= before.push(t@));
            },
        }
        j += 1;
    }
    Ok(children)
}

/// Builds the region that opens at `open`, whose interior starts at
/// `start`, with the elements as children of `node`.
fn build_region(
    tokens: &[Lexem],
    from: usize,
    to: usize,
    kind: Group,
    open: usize,
    start: usize,
    node: Node,
) -> (r: Result<(Tree, usize), ParseError>)
    requires
        from <= open < start <= to <= tokens.len(),
        kind != Group::Matrix,
        kind != Group::Parenthesis,
    ensures
        match extent(tokens_view(tokens@), kind, start as int, to as int, kind.initial()) {
            None => r == Err::<(Tree, usize), ParseError>(kind.unbalanced()),
            Some((separators, close)) => match span_trees(
                tokens_view(tokens@),
                from as int,
                to as int,
                bounds(open as int, separators, close),
                (separators.len() + 1) as int,
            ) {
                Err(e) => r == Err::<(Tree, usize), ParseError>(e),
                Ok(children) => r is Ok && r.unwrap().0@ == (TreeView {
                    node: node@,
                    children,
                    has_value: true,
                }) && r.unwrap().1 == close + 1 && start <= close < to,
            },
        },
    decreases to - from, 0int, 1int,
{
    match scan_group(tokens, kind, start, to) {
        None => Err(
            match kind {
                Group::Parenthesis | Group::Call => ParseError::UnbalancedParenthesis,
                Group::Index | Group::Matrix => ParseError::UnbalancedSquareBracket,
                Group::Block => ParseError::UnbalancedBracket,
            },
        ),
        Some((separators, close)) => {
            let limits = element_bounds(open, &separators, close);
            proof {
                lemma_bounds_ascending(open, separators@, close, start as int, from as int, to as int);
                lemma_ascending_len(separators@, start as int, close as int);
            }
            match span_children(tokens, from, to, &limits, separators.len() + 1) {
                Err(e) => Err(e),
                Ok(children) => {
                    let tree = Tree { node, children, has_value: true };
                    proof {
                        lemma_children(tree);
                    }
                    Ok((tree, close + 1))
                },
            }
        },
    }
}

/// The bounds of a region ascend within the span.
proof fn lemma_bounds_ascending(
    open: usize,
    separators: Seq<usize>,
    close: usize,
    start: int,
    from: int,
    to: int,
)
    requires
        from <= open < start <= close < to,
        ascending(separators, start, close as int),
    ensures
        ascending((seq![open] + separators).push(close), from, to),
        ints((seq![open] + separators).push(close)) == bounds(
            open as int,
            ints(separators),
            close as int,
        ),
{
    let v = (seq![open] + separators).push(close);
    assert forall|k: int, l: int| 0 <= k < l < v.len() implies #[trigger] v[k] < #[trigger] v[l] by {
        if k > 0 {
            assert(v[k] == separators[k - 1]);
        }
        if l < v.len() - 1 {
            assert(v[l] == separators[l - 1]);
        }
    }
    assert forall|k: int| 0 <= k < v.len() implies from <= #[trigger] v[k] < to by {
        if 0 < k < v.len() - 1 {
            assert(v[k] == separators[k - 1]);
        }
    }
    assert(ints(v) =~= bounds(open as int, ints(separators), close as int));
}

/// Builds the atom that starts at position `i`.
fn atom(tokens: &[Lexem], from: usize, to: usize, i: usize) -> (r: Result<(Tree, usize), ParseError>)
    requires
        from <= i < to <= tokens.len(),
    ensures
        match (r, atom_at(tokens_view(tokens@), from as int, to as int, i as int)) {
            (Ok((t, next)), Ok((wanted, wanted_next))) => t@ == wanted && next == wanted_next && i
                < next <= to,
            (Err(e), Err(wanted)) => e == wanted,
            _ => false,
        },
    decreases to - from, 1int, 0int,
{
    let ghost all = tokens_view(tokens@);
    assert(all[i as int] == tokens@[i as int]@);
    match &tokens[i] {
        Lexem::Number(n, d) => {
            if is_decimal_text(n.as_str()) {
                Ok(
                    (
                        make_leaf(Node::Number(n.clone(), d.clone()), true),
                        i + 1,
                    ),
                )
            } else {
                Err(ParseError::BadNumber)
            }
        },
        Lexem::Operator(op) => Ok(
            (make_leaf(Node::Operator(*op), false), i + 1),
        ),
        Lexem::Keyword(k) => Ok(
            (make_leaf(Node::Keyword(*k), false), i + 1),
        ),
        Lexem::UnitBlock(u, s) => Ok(
            (
                make_leaf(Node::UnitBlock(*u, s.clone()), false),
                i + 1,
            ),
        ),
        Lexem::StringBlock(s) => Ok(
            (
                make_leaf(Node::StringBlock(s.clone()), true),
                i + 1,
            ),
        ),
        Lexem::RightPar => Err(ParseError::UnbalancedParenthesis),
        Lexem::RightBracket => Err(ParseError::UnbalancedBracket),
        Lexem::RightSqBracket => Err(ParseError::UnbalancedSquareBracket),
        Lexem::Comma => Err(ParseError::StrayComma),
        Lexem::SemiColon => Err(ParseError::StraySemiColon),
        Lexem::LeftPar => {
            match scan_group(tokens, Group::Parenthesis, i + 1, to) {
                None => Err(ParseError::UnbalancedParenthesis),
                Some((_, close)) => match ast_range(tokens, i + 1, close) {
                    Ok(t) => Ok((t, close + 1)),
                    Err(e) => Err(e),
                },
            }
        },
        Lexem::LeftBracket => build_region(tokens, from, to, Group::Block, i, i + 1, Node::Block),
        Lexem::LeftSqBracket => {
            match scan_group(tokens, Group::Matrix, i + 1, to) {
                None => Err(ParseError::UnbalancedSquareBracket),
                Some((separators, close)) => {
                    match read_matrix_shape(tokens, &separators, i, close) {
                        Err(e) => Err(e),
                        Ok((width, height, entries)) => {
                            let limits = element_bounds(i, &separators, close);
                            proof {
                                lemma_bounds_ascending(
                                    i,
                                    separators@,
                                    close,
                                    i + 1,
                                    from as int,
                                    to as int,
                                );
                            }
                            match span_children(tokens, from, to, &limits, entries) {
                                Err(e) => Err(e),
                                Ok(children) => {
                                    let tree = Tree {
                                        node: Node::MatrixBlock(width, height),
                                        children,
                                        has_value: true,
                                    };
                                    proof {
                                        lemma_children(tree);
                                    }
                                    Ok((tree, close + 1))
                                },
                            }
                        },
                    }
                },
            }
        },
        Lexem::Identifier(name) => {
            if i + 1 >= to {
                return Ok(
                    (
                        make_leaf(Node::Variable(name.clone()), true),
                        i + 1,
                    ),
                );
            }
            assert(all[i + 1] == tokens@[i + 1]@);
            match &tokens[i + 1] {
                Lexem::LeftPar => {
                    if i + 2 >= to {
                        return Err(ParseError::UnbalancedParenthesis);
                    }
                    assert(all[i + 2] == tokens@[i + 2]@);
                    if matches!(&tokens[i + 2], Lexem::RightPar) {
                        Ok(
                            (
                                make_leaf(Node::FunctionCall(name.clone()), true),
                                i + 3,
                            ),
                        )
                    } else {
                        build_region(
                            tokens,
                            from,
                            to,
                            Group::Call,
                            i + 1,
                            i + 2,
                            Node::FunctionCall(name.clone()),
                        )
                    }
                },
                Lexem::LeftSqBracket => {
                    if i + 2 >= to {
                        return Err(ParseError::UnbalancedSquareBracket);
                    }
                    assert(all[i + 2] == tokens@[i + 2]@);
                    if matches!(&tokens[i + 2], Lexem::RightPar) {
                        Err(ParseError::EmptyIndex)
                    } else {
                        build_region(
                            tokens,
                            from,
                            to,
                            Group::Index,
                            i + 1,
                            i + 2,
                            Node::MatrixIndexing(name.clone()),
                        )
                    }
                },
                _ => Ok(
                    (
                        make_leaf(Node::Variable(name.clone()), true),
                        i + 1,
                    ),
                ),
            }
        },
    }
}

fn awaits_operator(t: &Tree, op: Operator) -> (b: bool)
    ensures
        b == awaits(t@, op),
{
    match &t.node {
        Node::Operator(found) => !t.has_value && *found == op,
        _ => false,
    }
}

fn pending_operator(t: &Tree) -> (r: Option<Operator>)
    ensures
        match r {
            Some(op) => is_pending_operator(t@) && operator_of(t@) == op,
            None => !is_pending_operator(t@),
        },
{
    match &t.node {
        Node::Operator(found) => if t.has_value {
            None
        } else {
            Some(*found)
        },
        _ => None,
    }
}

fn prefix_at(level: &Vec<Tree>, i: usize) -> (b: bool)
    requires
        i < level.len(),
    ensures
        b == is_prefix_at(forest(level@), i as int),
{
    let here = &level[i];
    if awaits_operator(here, Operator::Bang) {
        return true;
    }
    let after_operator = if i == 0 {
        true
    } else {
        let left = &level[i - 1];
        pending_operator(left).is_some() || (matches!(&left.node, Node::Nothing)
            && !left.has_value)
    };
    after_operator && (awaits_operator(here, Operator::Plus) || awaits_operator(
        here,
        Operator::Minus,
    ) || awaits_operator(here, Operator::ValueOf) || awaits_operator(here, Operator::ErrorOf))
}

/// The pass over prefix operators.
fn apply_prefix(level: &mut Vec<Tree>) -> (r: Result<(), ParseError>)
    ensures
        same_level(r, final(level)@, prefix_pass(forest(old(level)@))),
{
    if level.len() < 2 {
        return Ok(());
    }
    let mut j: usize = level.len() - 1;
    while j >= 1
        invariant
            j < level.len(),
            fold_prefix(forest(level@), j - 1) == prefix_pass(forest(old(level)@)),
        decreases j,
    {
        let i = j - 1;
        let ghost before = forest(level@);
        if prefix_at(level, i) {
            let op = pending_operator(&level[i]);
            let right = level.remove(i + 1);
            if !right.has_value {
                return Err(
                    ParseError::Operand(
                        match op {
                            Some(op) => op,
                            None => Operator::Bang,
                        },
                    ),
                );
            }
            let mut middle = level.remove(i);
            adopt(&mut middle, right);
            level.insert(i, middle);
            assert(forest(level@) =~= before.remove(i + 1).update(
                i as int,
                with_child(before[i as int], before[i + 1]),
            ));
        }
        j -= 1;
    }
    Ok(())
}

fn wants_postfix(t: &Tree, pass: Postfix) -> (b: bool)
    ensures
        b == pass.wants(t@),
{
    match pass {
        Postfix::Question => awaits_operator(t, Operator::Question),
        Postfix::UnitBlock => matches!(&t.node, Node::UnitBlock(_, _)) && !t.has_value,
    }
}

/// A pass over postfix operators.
fn apply_postfix(level: &mut Vec<Tree>, pass: Postfix) -> (r: Result<(), ParseError>)
    ensures
        same_level(r, final(level)@, postfix_pass(forest(old(level)@), pass)),
{
    let mut i: usize = 1;
    while i < level.len()
        invariant
            1 <= i,
            fold_postfix(forest(level@), i as int, pass) == postfix_pass(forest(old(level)@), pass),
        decreases level.len() - i,
    {
        let ghost before = forest(level@);
        if wants_postfix(&level[i], pass) {
            let left = level.remove(i - 1);
            if !left.has_value {
                return Err(
                    match pass {
                        Postfix::Question => ParseError::Operand(Operator::Question),
                        Postfix::UnitBlock => ParseError::UnitOperand,
                    },
                );
            }
            let mut middle = level.remove(i - 1);
            adopt(&mut middle, left);
            level.insert(i - 1, middle);
            assert(forest(level@) =~= before.remove(i - 1).update(
                i - 1,
                with_child(before[i as int], before[i - 1]),
            ));
        } else {
            i += 1;
        }
    }
    Ok(())
}

fn takes_operator(pass: Binary, op: Operator) -> (b: bool)
    ensures
        b == pass.takes(op),
{
    match pass {
        Binary::Power => op == Operator::Power,
        Binary::Product => op == Operator::Times || op == Operator::Divide,
        Binary::PlusMinus => op == Operator::PlusMinus,
        Binary::Sum => op == Operator::Plus || op == Operator::Minus,
        Binary::Comparison => op == Operator::Equal || op == Operator::Greater || op
            == Operator::GreaterEqual || op == Operator::Less || op == Operator::LessEqual,
        Binary::And => op == Operator::And,
        Binary::Or => op == Operator::Or,
        Binary::Assign => op == Operator::Assign,
    }
}

/// A pass over binary operators.
fn apply_binary(level: &mut Vec<Tree>, pass: Binary) -> (r: Result<(), ParseError>)
    ensures
        same_level(r, final(level)@, binary_pass(forest(old(level)@), pass)),
{
    let mut i: usize = 1;
    while i < level.len() && i + 1 < level.len()
        invariant
            1 <= i,
            fold_binary(forest(level@), i as int, pass) == binary_pass(forest(old(level)@), pass),
        decreases level.len() - i,
    {
        let ghost before = forest(level@);
        let wanted = match pending_operator(&level[i]) {
            Some(op) => if takes_operator(pass, op) {
                Some(op)
            } else {
                None
            },
            None => None,
        };
        match wanted {
            Some(op) => {
                let right = level.remove(i + 1);
                let mut middle = level.remove(i);
                let left = level.remove(i - 1);
                let target = pass != Binary::Assign || matches!(&left.node, Node::Variable(_));
                if !(left.has_value && right.has_value && target) {
                    return Err(ParseError::Operand(op));
                }
                adopt(&mut middle, left);
                adopt(&mut middle, right);
                level.insert(i - 1, middle);
                assert(forest(level@) =~= before.remove(i + 1).remove(i - 1).update(
                    i - 1,
                    with_child(with_child(before[i as int], before[i - 1]), before[i + 1]),
                ));
            },
            None => {
                i += 1;
            },
        }
    }
    Ok(())
}

fn valued_block(t: &Tree) -> (b: bool)
    ensures
        b == (t@.node is Block && t@.has_value),
{
    matches!(&t.node, Node::Block) && t.has_value
}

/// The pass over `if` or over `while`.
fn apply_statement(level: &mut Vec<Tree>, op: Operator) -> (r: Result<(), ParseError>)
    ensures
        same_level(r, final(level)@, statement_pass(forest(old(level)@), op)),
{
    if level.len() < 3 {
        return Ok(());
    }
    let mut j: usize = level.len() - 2;
    while j >= 1
        invariant
            j <= level.len(),
            fold_statement(forest(level@), j - 1, op) == statement_pass(forest(old(level)@), op),
        decreases j,
    {
        let i = j - 1;
        let ghost before = forest(level@);
        if awaits_operator(&level[i], op) {
            if !(level.len() - i > 2 && level[i + 1].has_value && valued_block(&level[i + 2])) {
                return Err(ParseError::Operand(op));
            }
            let block = level.remove(i + 2);
            let condition = level.remove(i + 1);
            let mut middle = level.remove(i);
            adopt(&mut middle, condition);
            adopt(&mut middle, block);
            level.insert(i, middle);
            assert(forest(level@) =~= before.remove(i + 2).remove(i + 1).update(
                i as int,
                with_child(with_child(before[i as int], before[i + 1]), before[i + 2]),
            ));
        }
        j -= 1;
    }
    Ok(())
}

fn if_node(t: &Tree) -> (b: bool)
    ensures
        b == is_if_node(t@),
{
    match &t.node {
        Node::Operator(op) => t.has_value && *op == Operator::If,
        _ => false,
    }
}

/// The pass over `else`.
fn apply_else(level: &mut Vec<Tree>) -> (r: Result<(), ParseError>)
    ensures
        same_level(r, final(level)@, else_pass(forest(old(level)@))),
{
    if level.len() < 3 {
        return Ok(());
    }
    let mut i: usize = level.len() - 2;
    while i >= 1 && i < level.len() && level.len() - i > 1
        invariant
            fold_else(forest(level@), i as int) == else_pass(forest(old(level)@)),
        decreases i,
    {
        let ghost before = forest(level@);
        if awaits_operator(&level[i], Operator::Else) {
            if !(if_node(&level[i - 1]) && (if_node(&level[i + 1]) || valued_block(
                &level[i + 1],
            ))) {
                return Err(ParseError::Operand(Operator::Else));
            }
            let right = level.remove(i + 1);
            let _ = level.remove(i);
            let mut left = level.remove(i - 1);
            adopt(&mut left, right);
            level.insert(i - 1, left);
            assert(forest(level@) =~= before.remove(i + 1).remove(i as int).update(
                i - 1,
                with_child(before[i - 1], before[i + 1]),
            ));
            i = if i >= 2 {
                i - 2
            } else {
                0
            };
        } else {
            i -= 1;
        }
    }
    Ok(())
}

/// The pass over `for`.
fn apply_for(level: &mut Vec<Tree>) -> (r: Result<(), ParseError>)
    ensures
        same_level(r, final(level)@, for_pass(forest(old(level)@))),
{
    if level.len() < 5 {
        return Ok(());
    }
    let mut j: usize = level.len() - 2;
    while j >= 1
        invariant
            j <= level.len(),
            fold_for(forest(level@), j - 1) == for_pass(forest(old(level)@)),
        decreases j,
    {
        let i = j - 1;
        let ghost before = forest(level@);
        if awaits_operator(&level[i], Operator::For) {
            if !(level.len() - i > 4 && matches!(&level[i + 1].node, Node::Variable(_))
                && level[i + 1].has_value && matches!(
                &level[i + 2].node,
                Node::Keyword(Keyword::In)
            ) && level[i + 3].has_value && valued_block(&level[i + 4])) {
                return Err(ParseError::Operand(Operator::For));
            }
            let block = level.remove(i + 4);
            let iterable = level.remove(i + 3);
            let _ = level.remove(i + 2);
            let index = level.remove(i + 1);
            let mut middle = level.remove(i);
            adopt(&mut middle, index);
            adopt(&mut middle, iterable);
            adopt(&mut middle, block);
            level.insert(i, middle);
            assert(forest(level@) =~= before.remove(i + 4).remove(i + 3).remove(i + 2).remove(
                i + 1,
            ).update(
                i as int,
                with_child(
                    with_child(with_child(before[i as int], before[i + 1]), before[i + 3]),
                    before[i + 4],
                ),
            ));
        }
        j -= 1;
    }
    Ok(())
}

/// One step of the reduction.
fn apply_step(level: &mut Vec<Tree>, step: usize) -> (r: Result<(), ParseError>)
    requires
        step < 15,
    ensures
        same_level(r, final(level)@, reduce_step(forest(old(level)@), step as int)),
{
    if step == 0 {
        apply_prefix(level)
    } else if step == 1 {
        apply_postfix(level, Postfix::Question)
    } else if step == 2 {
        apply_postfix(level, Postfix::UnitBlock)
    } else if step == 3 {
        apply_binary(level, Binary::Power)
    } else if step == 4 {
        apply_binary(level, Binary::Product)
    } else if step == 5 {
        apply_binary(level, Binary::PlusMinus)
    } else if step == 6 {
        apply_binary(level, Binary::Sum)
    } else if step == 7 {
        apply_binary(level, Binary::Comparison)
    } else if step == 8 {
        apply_binary(level, Binary::And)
    } else if step == 9 {
        apply_binary(level, Binary::Or)
    } else if step == 10 {
        apply_statement(level, Operator::If)
    } else if step == 11 {
        apply_else(level)
    } else if step == 12 {
        apply_statement(level, Operator::While)
    } else if step == 13 {
        apply_for(level)
    } else {
        apply_binary(level, Binary::Assign)
    }
}

/// Once the reduction has failed it stays failed.
proof fn lemma_reduced_error(level: Seq<TreeView>, n: int, m: int)
    requires
        0 <= n <= m,
        reduced(level, n) is Err,
    ensures
        reduced(level, m) == reduced(level, n),
    decreases m - n,
{
    if n < m {
        lemma_reduced_error(level, n, m - 1);
    }
}

/// Reduces a level to a single tree.
pub fn reduce_level(atoms: Vec<Tree>) -> (r: Result<Tree, ParseError>)
    ensures
        same_tree(r, reduce(forest(atoms@))),
{
    let ghost start = forest(atoms@);
    let mut level = atoms;
    let mut step: usize = 0;
    while step < 15
        invariant
            step <= 15,
            start == forest(atoms@),
            reduced(start, step as int) == Ok::<Seq<TreeView>, ParseError>(forest(level@)),
        decreases 15 - step,
    {
        let ghost before = forest(level@);
        match apply_step(&mut level, step) {
            Err(e) => {
                proof {
                    assert(reduce_step(before, step as int) == Err::<Seq<TreeView>, ParseError>(e));
                    assert(reduced(start, step + 1) == Err::<Seq<TreeView>, ParseError>(e));
                    lemma_reduced_error(start, step + 1, 15);

                }
                return Err(e);
            },
            Ok(()) => {},
        }
        step += 1;
    }
    if level.len() != 1 {
        return Err(ParseError::Unreduced);
    }
    let tree = level.remove(0);
    if tree.has_value {
        Ok(tree)
    } else {
        Err(ParseError::Unvalued)
    }
}


/// `trees` put in front of the atoms found later.
pub open spec fn and_atoms(
    trees: Seq<TreeView>,
    later: Result<Seq<TreeView>, ParseError>,
) -> Result<Seq<TreeView>, ParseError> {
    match later {
        Ok(more) => Ok(trees + more),
        Err(e) => Err(e),
    }
}

/// Cuts the span into atoms.
fn atomize(tokens: &[Lexem], from: usize, to: usize) -> (r: Result<Vec<Tree>, ParseError>)
    requires
        from < to <= tokens.len(),
    ensures
        same_forest(r, atoms(tokens_view(tokens@), from as int, to as int, from as int)),
    decreases to - from, 2int, 0int,
{
    let ghost all = tokens_view(tokens@);
    let mut level: Vec<Tree> = Vec::new();
    let mut i: usize = from;
    proof {
        let rest = atoms(all, from as int, to as int, from as int);
        if rest is Ok {
            assert(forest(level@) + rest.unwrap() =~= rest.unwrap());
        }
    }
    while i < to
        invariant
            from <= i <= to,
            from < to <= tokens.len(),
            all == tokens_view(tokens@),
            and_atoms(forest(level@), atoms(all, from as int, to as int, i as int)) == atoms(
                all,
                from as int,
                to as int,
                from as int,
            ),
        decreases to - i,
    {
        match atom(tokens, from, to, i) {
            Err(e) => {
                return Err(e);
            },
            Ok((t, next)) => {
                let ghost before = forest(level@);
                let ghost rest = atoms(all, from as int, to as int, next as int);
                level.push(t);
                proof {
                    assert(forest(level@) =~= before.push(t@));
                    if rest is Ok {
                        assert(before + (seq![t@] + rest.unwrap()) =~= before.push(t@)
                            + rest.unwrap());
                    }
                }
                i = next;
            },
        }
    }
    assert(forest(level@) + Seq::<TreeView>::empty() =~= forest(level@));
    Ok(level)
}

/// Builds the tree of the tokens from `from` up to `to`.
pub fn ast_range(tokens: &[Lexem], from: usize, to: usize) -> (r: Result<Tree, ParseError>)
    requires
        from <= to <= tokens.len(),
    ensures
        same_tree(r, spec_ast(tokens_view(tokens@), from as int, to as int)),
    decreases to - from, 3int, 0int,
{
    if to <= from {
        return Ok(make_leaf(Node::Nothing, true));
    }
    match atomize(tokens, from, to) {
        Err(e) => Err(e),
        Ok(level) => reduce_level(level),
    }
}

/// Builds the expression tree of a sequence of tokens.
///
/// The result is the tree that [`spec_ast`] gives for the whole sequence:
/// the atoms of the sequence, reduced pass by pass to a single valued tree.
/// No tokens give a valued tree that stands for nothing.
pub fn ast(lexems: &[Lexem]) -> (r: Result<Tree, ParseError>)
    ensures
        same_tree(r, spec_ast(tokens_view(lexems@), 0, lexems.len() as int)),
        r is Ok ==> all_valued(r.unwrap()@),
{
    proof {
        lemma_ast_valued(tokens_view(lexems@), 0, lexems.len() as int);
    }
    ast_range(lexems, 0, lexems.len())
}


} // verus!
