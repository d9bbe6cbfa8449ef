//! The lexer: from source text to tokens.
//!
//! The text is scanned by extended grapheme cluster, so that a symbol made of
//! several code points counts as one position.

use vstd::prelude::*;
use crate::unit::Unit;
use crate::notation::{
    Scale, ScaleView, UnitError, concat, join, is_word1, is_digit, is_unit_letter, unit_letter,
    parse_unit_block_chars, spec_unit_block,
};
use crate::text::{clusters_view, graphemes, grapheme_clusters, string_from_chars, chars_of, push_all};

verus! {

/// The operators of the language, symbolic and spelled out.
#[derive(Debug, Clone, Copy, PartialEq, Eq, Structural)]
pub enum Operator {
    /// `+`
    Plus,
    /// `-`
    Minus,
    /// `*`
    Times,
    /// `/`
    Divide,
    /// `^`
    Power,
    /// `?`
    Question,
    /// `&`
    ErrorOf,
    /// `$`
    ValueOf,
    /// `=`
    Assign,
    /// `==`
    Equal,
    /// `!`
    Bang,
    /// `!=`
    NotEqual,
    /// `>`
    Greater,
    /// `>=`
    GreaterEqual,
    /// `<`
    Less,
    /// `<=`
    LessEqual,
    /// `pm` or the plus-minus sign
    PlusMinus,
    /// `or`
    Or,
    /// `and`
    And,
    /// `nand`
    Nand,
    /// `xor`
    Xor,
    /// `if`
    If,
    /// `else`
    Else,
    /// `while`
    While,
    /// `for`
    For,
}

/// The keywords of the language that are not operators.
#[derive(Debug, Clone, Copy, PartialEq, Eq, Structural)]
pub enum Keyword {
    /// The `in` of `for x in matrix`.
    In,
}

/// A token.
#[derive(Debug)]
pub enum Lexem {
    LeftPar,
    RightPar,
    LeftBracket,
    RightBracket,
    LeftSqBracket,
    RightSqBracket,
    Identifier(String),
    /// The digits as written, and the decorator that follows them directly.
    Number(String, String),
    Operator(Operator),
    Keyword(Keyword),
    Comma,
    SemiColon,
    /// The unit of a unit block and the record of its scale.
    UnitBlock(Unit, Scale),
    /// The template of a string block, with `\n`, `\t` and `\"` resolved.
    StringBlock(String),
}

/// The mathematical content of a token.
pub ghost enum LexemView {
    LeftPar,
    RightPar,
    LeftBracket,
    RightBracket,
    LeftSqBracket,
    RightSqBracket,
    Identifier(Seq<char>),
    Number(Seq<char>, Seq<char>),
    Operator(Operator),
    Keyword(Keyword),
    Comma,
    SemiColon,
    UnitBlock(Unit, ScaleView),
    StringBlock(Seq<char>),
}

impl View for Lexem {
    type V = LexemView;

    open spec fn view(&self) -> LexemView {
        match self {
            Lexem::LeftPar => LexemView::LeftPar,
            Lexem::RightPar => LexemView::RightPar,
            Lexem::LeftBracket => LexemView::LeftBracket,
            Lexem::RightBracket => LexemView::RightBracket,
            Lexem::LeftSqBracket => LexemView::LeftSqBracket,
            Lexem::RightSqBracket => LexemView::RightSqBracket,
            Lexem::Identifier(s) => LexemView::Identifier(s@),
            Lexem::Number(n, d) => LexemView::Number(n@, d@),
            Lexem::Operator(o) => LexemView::Operator(*o),
            Lexem::Keyword(k) => LexemView::Keyword(*k),
            Lexem::Comma => LexemView::Comma,
            Lexem::SemiColon => LexemView::SemiColon,
            Lexem::UnitBlock(u, s) => LexemView::UnitBlock(*u, s@),
            Lexem::StringBlock(s) => LexemView::StringBlock(s@),
        }
    }
}

/// The contents of a sequence of tokens.
pub open spec fn tokens_view(tokens: Seq<Lexem>) -> Seq<LexemView> {
    tokens.map_values(|t: Lexem| t@)
}

/// What went wrong while scanning.
#[derive(Debug, Clone, Copy, PartialEq, Eq, Structural)]
pub enum LexErrorKind {
    /// No token starts with the cluster at this position.
    Unrecognized,
    /// The unit block opened at this position is never closed.
    UnterminatedUnitBlock,
    /// The string block opened at this position is never closed.
    UnterminatedStringBlock,
    /// The unit block opened at this position does not denote a unit.
    BadUnit(UnitError),
}

/// A failure of the lexer: the position, counted in grapheme clusters, and
/// the cluster found there.
#[derive(Debug)]
pub struct LexError {
    pub position: usize,
    pub cluster: String,
    pub kind: LexErrorKind,
}

/// The mathematical content of a [`LexError`].
pub ghost struct LexErrorView {
    pub position: int,
    pub cluster: Seq<char>,
    pub kind: LexErrorKind,
}

impl View for LexError {
    type V = LexErrorView;

    open spec fn view(&self) -> LexErrorView {
        LexErrorView { position: self.position as int, cluster: self.cluster@, kind: self.kind }
    }
}

/// Whether the cluster is the single character `c`.
pub open spec fn is_one(g: Seq<char>, c: char) -> bool {
    g == seq![c]
}

/// Whether the cluster is blank: a space, a tab or a line feed.
pub open spec fn is_space(g: Seq<char>) -> bool {
    is_one(g, ' ') || is_one(g, '\t') || is_one(g, '\n')
}

/// Whether the cluster is a digit or a dot.
pub open spec fn is_number_cluster(g: Seq<char>) -> bool {
    g.len() == 1 && (is_digit(g[0]) || g[0] == '.')
}

/// Whether `c` may stand in the decorator of a number.
pub open spec fn is_decorator_char(c: char) -> bool {
    ('a' <= c && c <= 'z') || ('A' <= c && c <= 'Z') || is_digit(c) || c == '°' || c == 'Ω'
        || c == '%' || c == 'π' || c == 'µ' || c == 'μ'
}

/// Whether the cluster may stand in the decorator of a number.
pub open spec fn is_decorator_cluster(g: Seq<char>) -> bool {
    g.len() == 1 && is_decorator_char(g[0])
}

/// Whether `c` is one of the Greek letters that identifiers may hold.
pub open spec fn is_greek(c: char) -> bool {
    ('Α' <= c && c <= 'Ω' && c != '\u{3a2}') || ('α' <= c && c <= 'ω') || c == 'µ'
}

/// Whether `c` may start an identifier.
pub open spec fn is_identifier_start(c: char) -> bool {
    ('a' <= c && c <= 'z') || ('A' <= c && c <= 'Z') || c == '_' || c == '#' || is_greek(c)
}

/// Whether the cluster may start an identifier.
pub open spec fn is_identifier_start_cluster(g: Seq<char>) -> bool {
    g.len() == 1 && is_identifier_start(g[0])
}

/// Whether the cluster may continue an identifier.
pub open spec fn is_identifier_cluster(g: Seq<char>) -> bool {
    g.len() == 1 && (is_identifier_start(g[0]) || is_digit(g[0]))
}

/// The single-character operator that `c` spells, if any.
pub open spec fn simple_operator(c: char) -> Option<Operator> {
    if c == '+' {
        Some(Operator::Plus)
    } else if c == '-' {
        Some(Operator::Minus)
    } else if c == '*' {
        Some(Operator::Times)
    } else if c == '/' {
        Some(Operator::Divide)
    } else if c == '^' {
        Some(Operator::Power)
    } else if c == '?' {
        Some(Operator::Question)
    } else if c == '&' {
        Some(Operator::ErrorOf)
    } else if c == '$' {
        Some(Operator::ValueOf)
    } else if c == '±' {
        Some(Operator::PlusMinus)
    } else {
        None
    }
}

/// The operator that `c` spells alone, and the one it spells when an equals
/// sign follows it directly.
pub open spec fn comparison_operator(c: char) -> Option<(Operator, Operator)> {
    if c == '=' {
        Some((Operator::Assign, Operator::Equal))
    } else if c == '!' {
        Some((Operator::Bang, Operator::NotEqual))
    } else if c == '>' {
        Some((Operator::Greater, Operator::GreaterEqual))
    } else if c == '<' {
        Some((Operator::Less, Operator::LessEqual))
    } else {
        None
    }
}

/// The punctuation token that `c` spells, if any.
pub open spec fn punctuation(c: char) -> Option<LexemView> {
    if c == '(' {
        Some(LexemView::LeftPar)
    } else if c == ')' {
        Some(LexemView::RightPar)
    } else if c == '{' {
        Some(LexemView::LeftBracket)
    } else if c == '}' {
        Some(LexemView::RightBracket)
    } else if c == '[' {
        Some(LexemView::LeftSqBracket)
    } else if c == ']' {
        Some(LexemView::RightSqBracket)
    } else if c == ',' {
        Some(LexemView::Comma)
    } else if c == ';' {
        Some(LexemView::SemiColon)
    } else {
        None
    }
}

/// The position of the first cluster at or after `i` that is the character
/// `c`, or the length of `chars` if there is none.
pub open spec fn closing(chars: Seq<Seq<char>>, i: int, c: char) -> int
    decreases chars.len() - i,
{
    if i < 0 || i >= chars.len() {
        chars.len() as int
    } else if is_one(chars[i], c) {
        i
    } else {
        closing(chars, i + 1, c)
    }
}

/// The clusters from `from` up to `to` that are not blank, run together.
pub open spec fn unit_text(chars: Seq<Seq<char>>, from: int, to: int) -> Seq<char>
    decreases to - from,
{
    if to <= from {
        Seq::empty()
    } else if is_space(chars[to - 1]) {
        unit_text(chars, from, to - 1)
    } else {
        unit_text(chars, from, to - 1) + chars[to - 1]
    }
}

/// `text` put in front of the template of a scanned string block.
pub open spec fn prefixed(text: Seq<char>, rest: Option<(Seq<char>, int)>) -> Option<
    (Seq<char>, int),
> {
    match rest {
        Some((body, next)) => Some((text + body, next)),
        None => None,
    }
}

/// The template of the string block whose interior starts at `i`, and the
/// position after its closing quote; `None` if the block is never closed.
/// A backslash before `n`, `t` or a quote stands for a line feed, a tab or a
/// quote; any other backslash stands for itself.
pub open spec fn string_block(chars: Seq<Seq<char>>, i: int) -> Option<(Seq<char>, int)>
    decreases chars.len() - i,
{
    if i < 0 || i >= chars.len() {
        None
    } else if is_one(chars[i], '"') {
        Some((Seq::empty(), i + 1))
    } else if is_one(chars[i], '\\') {
        if i + 1 >= chars.len() {
            None
        } else if is_one(chars[i + 1], 'n') {
            prefixed(seq!['\n'], string_block(chars, i + 2))
        } else if is_one(chars[i + 1], 't') {
            prefixed(seq!['\t'], string_block(chars, i + 2))
        } else if is_one(chars[i + 1], '"') {
            prefixed(seq!['"'], string_block(chars, i + 2))
        } else {
            prefixed(seq!['\\'], string_block(chars, i + 1))
        }
    } else {
        prefixed(chars[i], string_block(chars, i + 1))
    }
}

/// The rest of a number from position `j`: its further digits, its
/// decorator, and the position after it. Before the decorator, digits and
/// dots extend the number and apostrophes are passed over; from the first
/// decorator cluster on, only decorator clusters are taken.
pub open spec fn number_tail(chars: Seq<Seq<char>>, j: int, inside: bool) -> (
    Seq<char>,
    Seq<char>,
    int,
)
    decreases chars.len() - j,
{
    if j < 0 || j >= chars.len() {
        (Seq::empty(), Seq::empty(), j)
    } else if !inside && is_number_cluster(chars[j]) {
        let rest = number_tail(chars, j + 1, false);
        (chars[j] + rest.0, rest.1, rest.2)
    } else if !inside && is_one(chars[j], '\'') {
        number_tail(chars, j + 1, false)
    } else if is_decorator_cluster(chars[j]) {
        let rest = number_tail(chars, j + 1, true);
        (rest.0, chars[j] + rest.1, rest.2)
    } else {
        (Seq::empty(), Seq::empty(), j)
    }
}

/// The position of the first cluster at or after `j` that cannot continue an
/// identifier.
pub open spec fn identifier_end(chars: Seq<Seq<char>>, j: int) -> int
    decreases chars.len() - j,
{
    if 0 <= j < chars.len() && is_identifier_cluster(chars[j]) {
        identifier_end(chars, j + 1)
    } else {
        j
    }
}

/// The token that a word stands for: an operator or keyword if it spells one,
/// otherwise an identifier.
pub open spec fn classify(word: Seq<char>) -> LexemView {
    if word == seq!['o', 'r'] {
        LexemView::Operator(Operator::Or)
    }     else if word == seq!['a', 'n', 'd'] {
        LexemView::Operator(Operator::And)
    }     else if word == seq!['n', 'a', 'n', 'd'] {
        LexemView::Operator(Operator::Nand)
    }     else if word == seq!['x', 'o', 'r'] {
        LexemView::Operator(Operator::Xor)
    }     else if word == seq!['i', 'f'] {
        LexemView::Operator(Operator::If)
    }     else if word == seq!['e', 'l', 's', 'e'] {
        LexemView::Operator(Operator::Else)
    }     else if word == seq!['p', 'm'] {
        LexemView::Operator(Operator::PlusMinus)
    }     else if word == seq!['w', 'h', 'i', 'l', 'e'] {
        LexemView::Operator(Operator::While)
    }     else if word == seq!['f', 'o', 'r'] {
        LexemView::Operator(Operator::For)
    } else if word == seq!['i', 'n'] {
        LexemView::Keyword(Keyword::In)
    } else {
        LexemView::Identifier(word)
    }
}

/// The position after the first line feed at or after `i`, or the length of
/// `chars` if there is none.
pub open spec fn comment_end(chars: Seq<Seq<char>>, i: int) -> int {
    let at = closing(chars, i, '\n');
    if at < chars.len() {
        at + 1
    } else {
        at
    }
}

/// What the lexer does at one position.
pub ghost enum Step {
    /// The text ends here.
    End,
    /// Nothing is produced; scanning goes on at the given position.
    Skip(int),
    /// A token is produced; scanning goes on at the given position.
    Token(LexemView, int),
    /// Scanning fails.
    Fail(LexErrorView),
}

/// The failure of the given kind at position `i`.
pub open spec fn failure(chars: Seq<Seq<char>>, i: int, kind: LexErrorKind) -> Step {
    Step::Fail(LexErrorView { position: i, cluster: chars[i], kind })
}

/// The step that the lexer takes at position `i`.
pub open spec fn next_step(chars: Seq<Seq<char>>, i: int) -> Step {
    let g = chars[i];
    if i < 0 || i >= chars.len() || is_one(g, '\0') {
        Step::End
    } else if g.len() != 1 {
        failure(chars, i, LexErrorKind::Unrecognized)
    } else if punctuation(g[0]) is Some {
        Step::Token(punctuation(g[0])->0, i + 1)
    } else if g[0] == '|' {
        let end = closing(chars, i + 1, '|');
        if end >= chars.len() {
            failure(chars, i, LexErrorKind::UnterminatedUnitBlock)
        } else {
            match spec_unit_block(unit_text(chars, i + 1, end)) {
                Ok((unit, scale)) => Step::Token(LexemView::UnitBlock(unit, scale), end + 1),
                Err(e) => failure(chars, i, LexErrorKind::BadUnit(e)),
            }
        }
    } else if g[0] == '"' {
        match string_block(chars, i + 1) {
            Some((template, next)) => Step::Token(LexemView::StringBlock(template), next),
            None => failure(chars, i, LexErrorKind::UnterminatedStringBlock),
        }
    } else if simple_operator(g[0]) is Some {
        Step::Token(LexemView::Operator(simple_operator(g[0])->0), i + 1)
    } else if is_space(g) {
        Step::Skip(i + 1)
    } else if comparison_operator(g[0]) is Some {
        if i + 1 < chars.len() && is_one(chars[i + 1], '=') {
            Step::Token(LexemView::Operator(comparison_operator(g[0]).unwrap().1), i + 2)
        } else {
            Step::Token(LexemView::Operator(comparison_operator(g[0]).unwrap().0), i + 1)
        }
    } else if g[0] == '\\' {
        if i + 1 < chars.len() && is_one(chars[i + 1], '\\') {
            Step::Skip(comment_end(chars, i + 2))
        } else {
            failure(chars, i, LexErrorKind::Unrecognized)
        }
    } else if is_number_cluster(g) {
        let rest = number_tail(chars, i + 1, false);
        Step::Token(LexemView::Number(g + rest.0, rest.1), rest.2)
    } else if is_identifier_start_cluster(g) {
        let end = identifier_end(chars, i + 1);
        Step::Token(classify(concat(chars, i, end)), end)
    } else {
        failure(chars, i, LexErrorKind::Unrecognized)
    }
}

/// The tokens of the clusters from position `i` on.
pub open spec fn lex_from(chars: Seq<Seq<char>>, i: int) -> Result<Seq<LexemView>, LexErrorView>
    decreases chars.len() - i,
{
    match next_step(chars, i) {
        Step::End => Ok(Seq::empty()),
        Step::Fail(e) => Err(e),
        Step::Skip(next) => {
            if i < next <= chars.len() {
                lex_from(chars, next)
            } else {
                Ok(Seq::empty())
            }
        },
        Step::Token(token, next) => {
            if i < next <= chars.len() {
                match lex_from(chars, next) {
                    Ok(rest) => Ok(seq![token] + rest),
                    Err(e) => Err(e),
                }
            } else {
                Ok(seq![token])
            }
        },
    }
}

/// The tokens of a sequence of grapheme clusters. Scanning ends at the end of
/// the sequence or at the first NUL cluster.
pub open spec fn spec_lex(chars: Seq<Seq<char>>) -> Result<Seq<LexemView>, LexErrorView> {
    lex_from(chars, 0)
}

/// Whether computed tokens, or a computed failure, are the expected ones.
pub open spec fn same_tokens(
    r: Result<Vec<Lexem>, LexError>,
    expected: Result<Seq<LexemView>, LexErrorView>,
) -> bool {
    match (r, expected) {
        (Ok(tokens), Ok(wanted)) => tokens_view(tokens@) == wanted,
        (Err(e), Err(wanted)) => e@ == wanted,
        _ => false,
    }
}

/// One step of the lexer, as computed.
enum Scan {
    End,
    Skip(usize),
    Token(Lexem, usize),
    Fail(LexError),
}

impl Scan {
    spec fn matches(self, step: Step) -> bool {
        match (self, step) {
            (Scan::End, Step::End) => true,
            (Scan::Skip(next), Step::Skip(wanted)) => next == wanted,
            (Scan::Token(token, next), Step::Token(wanted, wanted_next)) => token@ == wanted
                && next == wanted_next,
            (Scan::Fail(e), Step::Fail(wanted)) => e@ == wanted,
            _ => false,
        }
    }
}

fn fail_at(chars: &Vec<Vec<char>>, i: usize, kind: LexErrorKind) -> (r: Scan)
    requires
        i < chars.len(),
    ensures
        r.matches(failure(clusters_view(chars@), i as int, kind)),
{
    Scan::Fail(LexError { position: i, cluster: string_from_chars(&chars[i]), kind })
}

fn find_closing(chars: &Vec<Vec<char>>, i: usize, c: char) -> (at: usize)
    ensures
        at == closing(clusters_view(chars@), i as int, c),
        i <= at || at == chars.len(),
        at <= chars.len(),
{
    let ghost all = clusters_view(chars@);
    let mut j: usize = i;
    while j < chars.len() && !is_word1(&chars[j], c)
        invariant
            i <= j,
            all == clusters_view(chars@),
            closing(all, i as int, c) == closing(all, j as int, c),
        decreases chars.len() - j,
    {
        j += 1;
    }
    if j > chars.len() {
        chars.len()
    } else {
        j
    }
}

fn blank(g: &Vec<char>) -> (b: bool)
    ensures
        b == is_space(g@),
{
    is_word1(g, ' ') || is_word1(g, '\t') || is_word1(g, '\n')
}

fn read_unit_text(chars: &Vec<Vec<char>>, from: usize, to: usize) -> (v: Vec<char>)
    requires
        from <= to <= chars.len(),
    ensures
        v@ == unit_text(clusters_view(chars@), from as int, to as int),
{
    let ghost all = clusters_view(chars@);
    let mut v: Vec<char> = Vec::new();
    let mut j: usize = from;
    while j < to
        invariant
            from <= j <= to,
            to <= chars.len(),
            all == clusters_view(chars@),
            v@ == unit_text(all, from as int, j as int),
        decreases to - j,
    {
        if !blank(&chars[j]) {
            push_all(&mut v, &chars[j]);
        }
        j += 1;
    }
    v
}

fn read_string_block(chars: &Vec<Vec<char>>, start: usize) -> (r: Option<(Vec<char>, usize)>)
    ensures
        match r {
            Some((template, next)) => string_block(clusters_view(chars@), start as int) == Some(
                (template@, next as int),
            ) && start < next <= chars.len(),
            None => string_block(clusters_view(chars@), start as int) is None,
        },
{
    let ghost all = clusters_view(chars@);
    let mut template: Vec<char> = Vec::new();
    let mut j: usize = start;
    assert(prefixed(template@, string_block(all, j as int)) == string_block(all, start as int)) by {
        let rest = string_block(all, j as int);
        if rest is Some {
            assert(template@ + rest.unwrap().0 =~= rest.unwrap().0);
        }
    }
    while j < chars.len()
        invariant
            start <= j,
            all == clusters_view(chars@),
            prefixed(template@, string_block(all, j as int)) == string_block(all, start as int),
        decreases chars.len() - j,
    {
        let ghost before = template@;
        let ghost here = j as int;
        if is_word1(&chars[j], '"') {
            assert(before + Seq::<char>::empty() =~= before);
            return Some((template, j + 1));
        } else if is_word1(&chars[j], '\\') {
            if j + 1 >= chars.len() {
                return None;
            }
            if is_word1(&chars[j + 1], 'n') {
                template.push('\n');
                j += 2;
                proof {
                    lemma_prefixed(before, seq!['\n'], string_block(all, j as int));
                }
            } else if is_word1(&chars[j + 1], 't') {
                template.push('\t');
                j += 2;
                proof {
                    lemma_prefixed(before, seq!['\t'], string_block(all, j as int));
                }
            } else if is_word1(&chars[j + 1], '"') {
                template.push('"');
                j += 2;
                proof {
                    lemma_prefixed(before, seq!['"'], string_block(all, j as int));
                }
            } else {
                template.push('\\');
                j += 1;
                proof {
                    lemma_prefixed(before, seq!['\\'], string_block(all, j as int));
                }
            }
            assert(template@ =~= before + seq![template@.last()]);
        } else {
            push_all(&mut template, &chars[j]);
            j += 1;
            proof {
                lemma_prefixed(before, all[here], string_block(all, j as int));
            }
        }
    }
    None
}

/// Putting two texts in front, one after the other, is putting their
/// concatenation in front.
proof fn lemma_prefixed(a: Seq<char>, b: Seq<char>, rest: Option<(Seq<char>, int)>)
    ensures
        prefixed(a, prefixed(b, rest)) == prefixed(a + b, rest),
{
    if rest is Some {
        assert(a + (b + rest.unwrap().0) =~= (a + b) + rest.unwrap().0);
    }
}

fn number_cluster(g: &Vec<char>) -> (b: bool)
    ensures
        b == is_number_cluster(g@),
{
    g.len() == 1 && (('0' <= g[0] && g[0] <= '9') || g[0] == '.')
}

fn decorator_cluster(g: &Vec<char>) -> (b: bool)
    ensures
        b == is_decorator_cluster(g@),
{
    g.len() == 1 && {
        let c = g[0];
        ('a' <= c && c <= 'z') || ('A' <= c && c <= 'Z') || ('0' <= c && c <= '9') || c == '°'
            || c == 'Ω' || c == '%' || c == 'π' || c == 'µ' || c == 'μ'
    }
}

fn identifier_start(c: char) -> (b: bool)
    ensures
        b == is_identifier_start(c),
{
    ('a' <= c && c <= 'z') || ('A' <= c && c <= 'Z') || c == '_' || c == '#' || ('Α' <= c && c
        <= 'Ω' && c != '\u{3a2}') || ('α' <= c && c <= 'ω') || c == 'µ'
}

fn identifier_cluster(g: &Vec<char>) -> (b: bool)
    ensures
        b == is_identifier_cluster(g@),
{
    g.len() == 1 && (identifier_start(g[0]) || ('0' <= g[0] && g[0] <= '9'))
}

fn read_number(chars: &Vec<Vec<char>>, i: usize) -> (r: (Vec<char>, Vec<char>, usize))
    requires
        i < chars.len(),
    ensures
        ({
            let all = clusters_view(chars@);
            let rest = number_tail(all, i + 1, false);
            r.0@ == all[i as int] + rest.0 && r.1@ == rest.1 && r.2 == rest.2
        }),
        i < r.2 <= chars.len(),
{
    let ghost all = clusters_view(chars@);
    let mut number: Vec<char> = Vec::new();
    push_all(&mut number, &chars[i]);
    let mut decorator: Vec<char> = Vec::new();
    let mut inside = false;
    let mut j: usize = i + 1;
    let ghost target = number_tail(all, i + 1, false);
    assert(number@ + target.0 =~= all[i as int] + target.0);
    assert(decorator@ + target.1 =~= target.1);
    loop
        invariant
            i < j <= chars.len(),
            all == clusters_view(chars@),
            target == number_tail(all, i + 1, false),
            number@ + number_tail(all, j as int, inside).0 == all[i as int] + target.0,
            decorator@ + number_tail(all, j as int, inside).1 == target.1,
            number_tail(all, j as int, inside).2 == target.2,
        ensures
            number_tail(all, j as int, inside).0 == Seq::<char>::empty(),
            number_tail(all, j as int, inside).1 == Seq::<char>::empty(),
            number_tail(all, j as int, inside).2 == j,
        decreases chars.len() - j,
    {
        if j >= chars.len() {
            break ;
        }
        let ghost rest = number_tail(all, j + 1, inside);
        let ghost number_before = number@;
        let ghost decorator_before = decorator@;
        if !inside && number_cluster(&chars[j]) {
            push_all(&mut number, &chars[j]);
            assert(number@ + rest.0 =~= number_before + (all[j as int] + rest.0));
            j += 1;
        } else if !inside && is_word1(&chars[j], '\'') {
            j += 1;
        } else if decorator_cluster(&chars[j]) {
            let ghost rest_inside = number_tail(all, j + 1, true);
            push_all(&mut decorator, &chars[j]);
            assert(decorator@ + rest_inside.1 =~= decorator_before + (all[j as int]
                + rest_inside.1));
            inside = true;
            j += 1;
        } else {
            break ;
        }
    }
    assert(number@ + Seq::<char>::empty() =~= number@);
    assert(decorator@ + Seq::<char>::empty() =~= decorator@);
    (number, decorator, j)
}

fn find_identifier_end(chars: &Vec<Vec<char>>, i: usize) -> (end: usize)
    requires
        i <= chars.len(),
    ensures
        end == identifier_end(clusters_view(chars@), i as int),
        i <= end <= chars.len(),
{
    let ghost all = clusters_view(chars@);
    let mut j: usize = i;
    while j < chars.len() && identifier_cluster(&chars[j])
        invariant
            i <= j <= chars.len(),
            all == clusters_view(chars@),
            identifier_end(all, i as int) == identifier_end(all, j as int),
        decreases chars.len() - j,
    {
        j += 1;
    }
    j
}

fn classify_word(word: &Vec<char>) -> (token: Lexem)
    ensures
        token@ == classify(word@),
{
    if (word.len() == 2 && word[0] == 'o' && word[1] == 'r') {
        assert(word@ =~= seq!['o', 'r']);
        Lexem::Operator(Operator::Or)
    }     else if (word.len() == 3 && word[0] == 'a' && word[1] == 'n' && word[2] == 'd') {
        assert(word@ =~= seq!['a', 'n', 'd']);
        Lexem::Operator(Operator::And)
    }     else if (word.len() == 4 && word[0] == 'n' && word[1] == 'a' && word[2] == 'n' && word[3] == 'd') {
        assert(word@ =~= seq!['n', 'a', 'n', 'd']);
        Lexem::Operator(Operator::Nand)
    }     else if (word.len() == 3 && word[0] == 'x' && word[1] == 'o' && word[2] == 'r') {
        assert(word@ =~= seq!['x', 'o', 'r']);
        Lexem::Operator(Operator::Xor)
    }     else if (word.len() == 2 && word[0] == 'i' && word[1] == 'f') {
        assert(word@ =~= seq!['i', 'f']);
        Lexem::Operator(Operator::If)
    }     else if (word.len() == 4 && word[0] == 'e' && word[1] == 'l' && word[2] == 's' && word[3] == 'e') {
        assert(word@ =~= seq!['e', 'l', 's', 'e']);
        Lexem::Operator(Operator::Else)
    }     else if (word.len() == 2 && word[0] == 'p' && word[1] == 'm') {
        assert(word@ =~= seq!['p', 'm']);
        Lexem::Operator(Operator::PlusMinus)
    }     else if (word.len() == 5 && word[0] == 'w' && word[1] == 'h' && word[2] == 'i' && word[3] == 'l' && word[4] == 'e') {
        assert(word@ =~= seq!['w', 'h', 'i', 'l', 'e']);
        Lexem::Operator(Operator::While)
    }     else if (word.len() == 3 && word[0] == 'f' && word[1] == 'o' && word[2] == 'r') {
        assert(word@ =~= seq!['f', 'o', 'r']);
        Lexem::Operator(Operator::For)
    } else if word.len() == 2 && word[0] == 'i' && word[1] == 'n' {
        assert(word@ =~= seq!['i', 'n']);
        Lexem::Keyword(Keyword::In)
    } else {
        Lexem::Identifier(string_from_chars(word))
    }
}

fn read_punctuation(c: char) -> (r: Option<Lexem>)
    ensures
        match r {
            Some(token) => punctuation(c) == Some(token@),
            None => punctuation(c) is None,
        },
{
    if c == '(' {
        Some(Lexem::LeftPar)
    } else if c == ')' {
        Some(Lexem::RightPar)
    } else if c == '{' {
        Some(Lexem::LeftBracket)
    } else if c == '}' {
        Some(Lexem::RightBracket)
    } else if c == '[' {
        Some(Lexem::LeftSqBracket)
    } else if c == ']' {
        Some(Lexem::RightSqBracket)
    } else if c == ',' {
        Some(Lexem::Comma)
    } else if c == ';' {
        Some(Lexem::SemiColon)
    } else {
        None
    }
}

fn read_simple_operator(c: char) -> (r: Option<Operator>)
    ensures
        r == simple_operator(c),
{
    if c == '+' {
        Some(Operator::Plus)
    } else if c == '-' {
        Some(Operator::Minus)
    } else if c == '*' {
        Some(Operator::Times)
    } else if c == '/' {
        Some(Operator::Divide)
    } else if c == '^' {
        Some(Operator::Power)
    } else if c == '?' {
        Some(Operator::Question)
    } else if c == '&' {
        Some(Operator::ErrorOf)
    } else if c == '$' {
        Some(Operator::ValueOf)
    } else if c == '±' {
        Some(Operator::PlusMinus)
    } else {
        None
    }
}

fn read_comparison_operator(c: char) -> (r: Option<(Operator, Operator)>)
    ensures
        r == comparison_operator(c),
{
    if c == '=' {
        Some((Operator::Assign, Operator::Equal))
    } else if c == '!' {
        Some((Operator::Bang, Operator::NotEqual))
    } else if c == '>' {
        Some((Operator::Greater, Operator::GreaterEqual))
    } else if c == '<' {
        Some((Operator::Less, Operator::LessEqual))
    } else {
        None
    }
}

/// One step of the lexer at position `i`.
fn scan(chars: &Vec<Vec<char>>, i: usize) -> (r: Scan)
    ensures
        r.matches(next_step(clusters_view(chars@), i as int)),
        match r {
            Scan::Skip(next) => i < next <= chars.len(),
            Scan::Token(_, next) => i < next <= chars.len(),
            _ => true,
        },
{
    let ghost all = clusters_view(chars@);
    if i >= chars.len() || is_word1(&chars[i], '\0') {
        return Scan::End;
    }
    let g = &chars[i];
    if g.len() != 1 {
        return fail_at(chars, i, LexErrorKind::Unrecognized);
    }
    let c = g[0];
    if let Some(token) = read_punctuation(c) {
        return Scan::Token(token, i + 1);
    }
    if c == '|' {
        let end = find_closing(chars, i + 1, '|');
        if end >= chars.len() {
            return fail_at(chars, i, LexErrorKind::UnterminatedUnitBlock);
        }
        let text = read_unit_text(chars, i + 1, end);
        return match parse_unit_block_chars(&text) {
            Ok((unit, scale)) => Scan::Token(Lexem::UnitBlock(unit, scale), end + 1),
            Err(e) => fail_at(chars, i, LexErrorKind::BadUnit(e)),
        };
    }
    if c == '"' {
        return match read_string_block(chars, i + 1) {
            Some((template, next)) => Scan::Token(
                Lexem::StringBlock(string_from_chars(&template)),
                next,
            ),
            None => fail_at(chars, i, LexErrorKind::UnterminatedStringBlock),
        };
    }
    if let Some(op) = read_simple_operator(c) {
        return Scan::Token(Lexem::Operator(op), i + 1);
    }
    if blank(g) {
        return Scan::Skip(i + 1);
    }
    if let Some((alone, with_equals)) = read_comparison_operator(c) {
        if i + 1 < chars.len() && is_word1(&chars[i + 1], '=') {
            return Scan::Token(Lexem::Operator(with_equals), i + 2);
        } else {
            return Scan::Token(Lexem::Operator(alone), i + 1);
        }
    }
    if c == '\\' {
        if i + 1 < chars.len() && is_word1(&chars[i + 1], '\\') {
            let at = find_closing(chars, i + 2, '\n');
            let next = if at < chars.len() {
                at + 1
            } else {
                at
            };
            return Scan::Skip(next);
        } else {
            return fail_at(chars, i, LexErrorKind::Unrecognized);
        }
    }
    if number_cluster(g) {
        let (number, decorator, next) = read_number(chars, i);
        return Scan::Token(
            Lexem::Number(string_from_chars(&number), string_from_chars(&decorator)),
            next,
        );
    }
    if g.len() == 1 && identifier_start(c) {
        let end = find_identifier_end(chars, i + 1);
        let word = join(chars, i, end);
        return Scan::Token(classify_word(&word), end);
    }
    fail_at(chars, i, LexErrorKind::Unrecognized)
}

/// `tokens` put in front of the outcome of scanning the rest.
pub open spec fn after(
    tokens: Seq<LexemView>,
    rest: Result<Seq<LexemView>, LexErrorView>,
) -> Result<Seq<LexemView>, LexErrorView> {
    match rest {
        Ok(more) => Ok(tokens + more),
        Err(e) => Err(e),
    }
}

/// Scans a sequence of grapheme clusters into tokens.
pub fn lex_clusters(chars: &Vec<Vec<char>>) -> (r: Result<Vec<Lexem>, LexError>)
    ensures
        same_tokens(r, spec_lex(clusters_view(chars@))),
{
    let ghost all = clusters_view(chars@);
    let mut tokens: Vec<Lexem> = Vec::new();
    let mut i: usize = 0;
    assert(after(tokens_view(tokens@), lex_from(all, 0)) == lex_from(all, 0)) by {
        if lex_from(all, 0) is Ok {
            assert(tokens_view(tokens@) + lex_from(all, 0)->Ok_0 =~= lex_from(all, 0)->Ok_0);
        }
    }
    loop
        invariant
            i <= chars.len(),
            all == clusters_view(chars@),
            after(tokens_view(tokens@), lex_from(all, i as int)) == spec_lex(all),
        decreases chars.len() - i,
    {
        let ghost before = tokens_view(tokens@);
        match scan(chars, i) {
            Scan::End => {
                assert(before + Seq::<LexemView>::empty() =~= before);
                return Ok(tokens);
            },
            Scan::Fail(e) => {
                return Err(e);
            },
            Scan::Skip(next) => {
                i = next;
            },
            Scan::Token(token, next) => {
                let ghost rest = lex_from(all, next as int);
                tokens.push(token);
                assert(tokens_view(tokens@) =~= before.push(token@));
                proof {
                    if rest is Ok {
                        assert(before + (seq![token@] + rest->Ok_0) =~= before.push(token@)
                            + rest->Ok_0);
                    }
                }
                i = next;
            },
        }
    }
}

/// A lexer: the source text and the tokens scanned from it so far.
pub struct Lexer {
    pub text: String,
    pub lexems: Vec<Lexem>,
}

impl Lexer {
    /// A lexer with no text and no tokens.
    pub fn new() -> (r: Lexer)
        ensures
            r.text@ == Seq::<char>::empty(),
            r.lexems@ == Seq::<Lexem>::empty(),
    {
        Lexer { text: String::new(), lexems: Vec::new() }
    }

    /// The tokens of the lexer's text: the text is closed with a NUL
    /// character, split into grapheme clusters and scanned.
    pub open spec fn spec_tokens(text: Seq<char>) -> Result<Seq<LexemView>, LexErrorView> {
        spec_lex(graphemes(text.push('\0')))
    }

    /// Scans the text and appends its tokens to `lexems`. On failure the
    /// tokens are left as they were.
    pub fn lex(&mut self) -> (r: Result<(), LexError>)
        ensures
            final(self).text@ == old(self).text@,
            match (r, Lexer::spec_tokens(old(self).text@)) {
                (Ok(()), Ok(tokens)) => tokens_view(final(self).lexems@) == tokens_view(
                    old(self).lexems@,
                ) + tokens,
                (Err(e), Err(wanted)) => e@ == wanted && final(self).lexems@ == old(self).lexems@,
                _ => false,
            },
    {
        let mut closed = chars_of(self.text.as_str());
        closed.push('\0');
        let terminated = string_from_chars(&closed);
        let chars = grapheme_clusters(terminated.as_str());
        match lex_clusters(&chars) {
            Err(e) => Err(e),
            Ok(mut tokens) => {
                let ghost before = tokens_view(self.lexems@);
                let ghost added = tokens_view(tokens@);
                self.lexems.append(&mut tokens);
                assert(tokens_view(self.lexems@) =~= before + added);
                Ok(())
            },
        }
    }
}

} // verus!
