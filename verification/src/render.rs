//! The written form of values.
//!
//! Writing a real number as decimal text is numerical work and is left to
//! the host; the library lays a value out as a list of pieces, where each
//! piece is either finished text or a number for the host to write.

use vstd::prelude::*;
use vstd::string::*;
use crate::quantity::{Real, Complex, Quantity};
use crate::unit::Unit;
use crate::compose::MAX_COMPOSABLE_NORM;
use crate::value::{RValue, RValueView, values_view, lemma_cells};
use crate::text::string_from_chars;

verus! {

/// One piece of a written value.
#[derive(Debug)]
pub enum Piece {
    /// Finished text.
    Text(String),
    /// An exact number, to be written in its shortest decimal form.
    Plain(Real),
    /// A number with its variance, to be written as mantissa and standard
    /// deviation at a common order of magnitude; the flag asks for
    /// parentheses even where the order of magnitude is zero.
    Measured(Real, Real, bool),
}

/// The mathematical content of a [`Piece`].
pub ghost enum PieceView {
    Text(Seq<char>),
    Plain(Real),
    Measured(Real, Real, bool),
}

impl View for Piece {
    type V = PieceView;

    open spec fn view(&self) -> PieceView {
        match self {
            Piece::Text(s) => PieceView::Text(s@),
            Piece::Plain(x) => PieceView::Plain(*x),
            Piece::Measured(x, v, p) => PieceView::Measured(*x, *v, *p),
        }
    }
}

/// The contents of a sequence of pieces.
pub open spec fn pieces_view(pieces: Seq<Piece>) -> Seq<PieceView> {
    pieces.map_values(|p: Piece| p@)
}

/// The decimal digit for `d`.
pub open spec fn digit(d: int) -> char {
    if d == 0 {
        '0'
    } else if d == 1 {
        '1'
    } else if d == 2 {
        '2'
    } else if d == 3 {
        '3'
    } else if d == 4 {
        '4'
    } else if d == 5 {
        '5'
    } else if d == 6 {
        '6'
    } else if d == 7 {
        '7'
    } else if d == 8 {
        '8'
    } else {
        '9'
    }
}

/// The decimal digits of a natural number, most significant first.
pub open spec fn decimal_digits(n: nat) -> Seq<char>
    decreases n,
{
    if n < 10 {
        seq![digit(n as int)]
    } else {
        decimal_digits(n / 10).push(digit((n % 10) as int))
    }
}

fn digit_char(d: usize) -> (c: char)
    requires
        d < 10,
    ensures
        c == digit(d as int),
{
    if d == 0 {
        '0'
    } else if d == 1 {
        '1'
    } else if d == 2 {
        '2'
    } else if d == 3 {
        '3'
    } else if d == 4 {
        '4'
    } else if d == 5 {
        '5'
    } else if d == 6 {
        '6'
    } else if d == 7 {
        '7'
    } else if d == 8 {
        '8'
    } else {
        '9'
    }
}

/// The decimal digits of `n`.
pub fn decimal_text(n: usize) -> (out: Vec<char>)
    ensures
        out@ == decimal_digits(n as nat),
    decreases n,
{
    if n < 10 {
        let mut out: Vec<char> = Vec::new();
        out.push(digit_char(n));
        out
    } else {
        let mut out = decimal_text(n / 10);
        out.push(digit_char(n % 10));
        out
    }
}

/// The pieces of a quantity with numbers `c`, where `unit` is the text of
/// its unit and `unitless` tells whether it has none.
///
/// A real quantity is written as one number, a complex one as real part
/// plus imaginary part; an exact number is written plainly, one with a
/// variance as a measurement. `interpolated` tells the layout inside a
/// string from the layout of a printed value: the two differ in where a
/// measurement must be parenthesised.
pub open spec fn shown(c: Complex, unitless: bool, unit: Seq<char>, interpolated: bool) -> Seq<
    PieceView,
> {
    let on_axis = c.im.spec_is_zero() && c.vim.spec_is_zero();
    if on_axis {
        if unitless {
            if c.vre.spec_is_zero() {
                seq![PieceView::Plain(c.re)]
            } else {
                seq![PieceView::Measured(c.re, c.vre, false)]
            }
        } else {
            if c.vre.spec_is_zero() {
                seq![PieceView::Plain(c.re), PieceView::Text(unit)]
            } else {
                seq![PieceView::Measured(c.re, c.vre, interpolated), PieceView::Text(unit)]
            }
        }
    } else {
        let exact = c.vre.spec_is_zero() && c.vim.spec_is_zero();
        if unitless {
            if exact {
                seq![
                    PieceView::Plain(c.re),
                    PieceView::Text(" + "@),
                    PieceView::Plain(c.im),
                    PieceView::Text("i"@),
                ]
            } else {
                seq![
                    PieceView::Measured(c.re, c.vre, true),
                    PieceView::Text(" + i"@),
                    PieceView::Measured(c.im, c.vim, !interpolated),
                ]
            }
        } else {
            if exact {
                seq![
                    PieceView::Text("("@),
                    PieceView::Plain(c.re),
                    PieceView::Text(" + "@),
                    PieceView::Plain(c.im),
                    PieceView::Text("i)"@),
                    PieceView::Text(unit),
                ]
            } else {
                seq![
                    PieceView::Measured(c.re, c.vre, true),
                    PieceView::Text(unit),
                    PieceView::Text(" + i"@),
                    PieceView::Measured(c.im, c.vim, true),
                    PieceView::Text(unit),
                ]
            }
        }
    }
}

fn text_piece(s: &str) -> (p: Piece)
    ensures
        p@ == PieceView::Text(s@),
{
    Piece::Text(String::from_str(s))
}

/// Lays out a quantity with numbers `c`.
pub fn show(c: &Complex, unitless: bool, unit: &str, interpolated: bool) -> (out: Vec<Piece>)
    ensures
        pieces_view(out@) == shown(*c, unitless, unit@, interpolated),
{
    let mut out: Vec<Piece> = Vec::new();
    let on_axis = c.im.is_zero() && c.vim.is_zero();
    if on_axis {
        if c.vre.is_zero() {
            out.push(Piece::Plain(c.re));
        } else {
            out.push(Piece::Measured(c.re, c.vre, !unitless && interpolated));
        }
        if !unitless {
            out.push(text_piece(unit));
        }
    } else {
        let exact = c.vre.is_zero() && c.vim.is_zero();
        if unitless {
            if exact {
                out.push(Piece::Plain(c.re));
                out.push(text_piece(" + "));
                out.push(Piece::Plain(c.im));
                out.push(text_piece("i"));
            } else {
                out.push(Piece::Measured(c.re, c.vre, true));
                out.push(text_piece(" + i"));
                out.push(Piece::Measured(c.im, c.vim, !interpolated));
            }
        } else {
            if exact {
                out.push(text_piece("("));
                out.push(Piece::Plain(c.re));
                out.push(text_piece(" + "));
                out.push(Piece::Plain(c.im));
                out.push(text_piece("i)"));
                out.push(text_piece(unit));
            } else {
                out.push(Piece::Measured(c.re, c.vre, true));
                out.push(text_piece(unit));
                out.push(text_piece(" + i"));
                out.push(Piece::Measured(c.im, c.vim, true));
                out.push(text_piece(unit));
            }
        }
    }
    assert(pieces_view(out@) =~= shown(*c, unitless, unit@, interpolated));
    out
}

/// The pieces of a printed quantity; `None` where the unit is too large to
/// be rendered.
pub open spec fn quantity_pieces(q: Quantity) -> Option<Seq<PieceView>> {
    if q.unit.norm() <= MAX_COMPOSABLE_NORM {
        Some(shown(q.spec_complex(), q.unit == Unit::spec_unitless(), q.unit.text(), false))
    } else {
        None
    }
}

/// The first `i` cells of row `j` of a matrix, separated by commas, a
/// string cell between quotes; `None` where a cell is missing or cannot be
/// written.
pub open spec fn row_pieces(cells: Seq<RValueView>, w: int, j: int, i: int) -> Option<
    Seq<PieceView>,
>
    decreases cells, 0int, i,
{
    if i <= 0 {
        Some(Seq::empty())
    } else {
        let at = j * w + (i - 1);
        match row_pieces(cells, w, j, i - 1) {
            None => None,
            Some(before) => {
                if 0 <= at < cells.len() {
                    let cell = match cells[at] {
                        RValueView::String(s) => Some(
                            seq![
                                PieceView::Text("\""@),
                                PieceView::Text(s),
                                PieceView::Text("\""@),
                            ],
                        ),
                        other => value_pieces(other),
                    };
                    match cell {
                        None => None,
                        Some(pieces) => {
                            if i < w {
                                Some(before + pieces + seq![PieceView::Text(", "@)])
                            } else {
                                Some(before + pieces)
                            }
                        },
                    }
                } else {
                    None
                }
            },
        }
    }
}

/// The first `j` rows of a matrix, separated by semicolons.
pub open spec fn rows_pieces(cells: Seq<RValueView>, w: int, h: int, j: int) -> Option<
    Seq<PieceView>,
>
    decreases cells, 1int, j,
{
    if j <= 0 {
        Some(Seq::empty())
    } else {
        match rows_pieces(cells, w, h, j - 1) {
            None => None,
            Some(before) => match row_pieces(cells, w, j - 1, w) {
                None => None,
                Some(row) => {
                    if j < h {
                        Some(before + row + seq![PieceView::Text("; "@)])
                    } else {
                        Some(before + row)
                    }
                },
            },
        }
    }
}

/// The pieces of a printed value; `None` where it cannot be written: a unit
/// is too large to be rendered, or a matrix holds fewer cells than its
/// shape asks for.
pub open spec fn value_pieces(v: RValueView) -> Option<Seq<PieceView>>
    decreases v, 2int, 0int,
{
    match v {
        RValueView::Void => Some(seq![PieceView::Text("Void"@)]),
        RValueView::Number(q) => quantity_pieces(q),
        RValueView::String(s) => Some(seq![PieceView::Text(s)]),
        RValueView::Matrix(w, h, cells) => {
            match rows_pieces(cells, w as int, h as int, h as int) {
                None => None,
                Some(body) => Some(
                    seq![
                        PieceView::Text("Matrix "@),
                        PieceView::Text(decimal_digits(h as nat)),
                        PieceView::Text("×"@),
                        PieceView::Text(decimal_digits(w as nat)),
                        PieceView::Text(": ["@),
                    ] + body + seq![PieceView::Text("]"@)],
                ),
            }
        },
    }
}

/// Lays out a printed quantity.
pub fn lay_out_quantity(q: &Quantity) -> (r: Option<Vec<Piece>>)
    ensures
        match r {
            Some(out) => quantity_pieces(*q) == Some(pieces_view(out@)),
            None => quantity_pieces(*q) is None,
        },
{
    match q.unit.to_text() {
        None => None,
        Some(unit) => {
            let c = q.complex();
            Some(show(&c, q.unit.is_unitless(), unit.as_str(), false))
        },
    }
}

/// Appends every piece of `more` to `out`.
fn append_pieces(out: &mut Vec<Piece>, more: Vec<Piece>)
    ensures
        pieces_view(final(out)@) == pieces_view(old(out)@) + pieces_view(more@),
{
    let mut more = more;
    let ghost before = pieces_view(out@);
    let ghost added = pieces_view(more@);
    out.append(&mut more);
    assert(pieces_view(out@) =~= before + added);
}

fn push_piece(out: &mut Vec<Piece>, piece: Piece)
    ensures
        pieces_view(final(out)@) == pieces_view(old(out)@).push(piece@),
{
    let ghost before = pieces_view(out@);
    out.push(piece);
    assert(pieces_view(out@) =~= before.push(piece@));
}

fn push_text(out: &mut Vec<Piece>, s: &str)
    ensures
        pieces_view(final(out)@) == pieces_view(old(out)@).push(PieceView::Text(s@)),
{
    let ghost before = pieces_view(out@);
    out.push(text_piece(s));
    assert(pieces_view(out@) =~= before.push(PieceView::Text(s@)));
}

/// Lays out the cells of row `j` of a matrix.
fn lay_out_row(cells: &Vec<RValue>, w: usize, j: usize) -> (r: Option<Vec<Piece>>)
    ensures
        match r {
            Some(out) => row_pieces(values_view(cells@), w as int, j as int, w as int) == Some(
                pieces_view(out@),
            ),
            None => row_pieces(values_view(cells@), w as int, j as int, w as int) is None,
        },
    decreases cells, 1int,
{
    let ghost all = values_view(cells@);
    let mut row: Vec<Piece> = Vec::new();
    assert(pieces_view(row@) =~= Seq::<PieceView>::empty());
    let mut i: usize = 0;
    while i < w
        invariant
            i <= w,
            all == values_view(cells@),
            row_pieces(all, w as int, j as int, i as int) == Some(pieces_view(row@)),
        decreases w - i,
    {
        let at = match j.checked_mul(w) {
            None => None,
            Some(start) => start.checked_add(i),
        };
        assert(j * w + i >= 0) by (nonlinear_arith)
            requires
                j >= 0,
                w >= 0,
                i >= 0,
        ;
        let at = match at {
            Some(at) => if at < cells.len() {
                at
            } else {
                proof {
                    lemma_row_missing(all, w as int, j as int, i + 1, w as int);
                }
                return None;
            },
            None => {
                proof {
                    assert(j * w + i > usize::MAX);
                    assert(all.len() == cells.len());
                    lemma_row_missing(all, w as int, j as int, i + 1, w as int);
                }
                return None;
            },
        };
        assert(all[at as int] == cells@[at as int]@);
        let cell = match &cells[at] {
            RValue::String(s) => {
                let mut quoted: Vec<Piece> = Vec::new();
                push_text(&mut quoted, "\"");
                push_piece(&mut quoted, Piece::Text(s.clone()));
                push_text(&mut quoted, "\"");
                assert(pieces_view(quoted@) =~= seq![
                    PieceView::Text("\""@),
                    PieceView::Text(s@),
                    PieceView::Text("\""@),
                ]);
                Some(quoted)
            },
            other => lay_out(other),
        };
        match cell {
            None => {
                proof {
                    lemma_row_missing(all, w as int, j as int, i + 1, w as int);
                }
                return None;
            },
            Some(pieces) => {
                append_pieces(&mut row, pieces);
                if i + 1 < w {
                    push_text(&mut row, ", ");
                }
            },
        }
        i += 1;
    }
    Some(row)
}

/// Lays out the rows of a matrix.
fn lay_out_rows(cells: &Vec<RValue>, w: usize, h: usize) -> (r: Option<Vec<Piece>>)
    ensures
        match r {
            Some(out) => rows_pieces(values_view(cells@), w as int, h as int, h as int) == Some(
                pieces_view(out@),
            ),
            None => rows_pieces(values_view(cells@), w as int, h as int, h as int) is None,
        },
    decreases cells, 2int,
{
    let ghost all = values_view(cells@);
    let mut body: Vec<Piece> = Vec::new();
    assert(pieces_view(body@) =~= Seq::<PieceView>::empty());
    let mut j: usize = 0;
    while j < h
        invariant
            j <= h,
            all == values_view(cells@),
            rows_pieces(all, w as int, h as int, j as int) == Some(pieces_view(body@)),
        decreases h - j,
    {
        match lay_out_row(cells, w, j) {
            None => {
                proof {
                    lemma_rows_missing(all, w as int, h as int, j + 1, h as int);
                }
                return None;
            },
            Some(row) => {
                append_pieces(&mut body, row);
                if j + 1 < h {
                    push_text(&mut body, "; ");
                }
            },
        }
        j += 1;
    }
    Some(body)
}

/// Lays out a printed value.
pub fn lay_out(v: &RValue) -> (r: Option<Vec<Piece>>)
    ensures
        match r {
            Some(out) => value_pieces(v@) == Some(pieces_view(out@)),
            None => value_pieces(v@) is None,
        },
    decreases v, 0int,
{
    match v {
        RValue::Void => {
            let mut out: Vec<Piece> = Vec::new();
            push_text(&mut out, "Void");
            assert(pieces_view(out@) =~= seq![PieceView::Text("Void"@)]);
            Some(out)
        },
        RValue::Number(q) => lay_out_quantity(q),
        RValue::String(s) => {
            let mut out: Vec<Piece> = Vec::new();
            push_piece(&mut out, Piece::Text(s.clone()));
            assert(pieces_view(out@) =~= seq![PieceView::Text(s@)]);
            Some(out)
        },
        RValue::Matrix(w, h, cells) => {
            proof {
                lemma_cells(*w, *h, *cells);
            }
            match lay_out_rows(cells, *w, *h) {
                None => None,
                Some(body) => {
                    let mut out: Vec<Piece> = Vec::new();
                    push_text(&mut out, "Matrix ");
                    push_piece(&mut out, Piece::Text(string_from_chars(&decimal_text(*h))));
                    push_text(&mut out, "×");
                    push_piece(&mut out, Piece::Text(string_from_chars(&decimal_text(*w))));
                    push_text(&mut out, ": [");
                    assert(pieces_view(out@) =~= seq![
                        PieceView::Text("Matrix "@),
                        PieceView::Text(decimal_digits(*h as nat)),
                        PieceView::Text("×"@),
                        PieceView::Text(decimal_digits(*w as nat)),
                        PieceView::Text(": ["@),
                    ]);
                    append_pieces(&mut out, body);
                    push_text(&mut out, "]");
                    Some(out)
                },
            }
        },
    }
}

/// Once a row cannot be written it stays so.
proof fn lemma_row_missing(cells: Seq<RValueView>, w: int, j: int, n: int, m: int)
    requires
        0 <= n <= m,
        row_pieces(cells, w, j, n) is None,
    ensures
        row_pieces(cells, w, j, m) is None,
    decreases m - n,
{
    if n < m {
        lemma_row_missing(cells, w, j, n, m - 1);
    }
}

/// Once the rows cannot be written they stay so.
proof fn lemma_rows_missing(cells: Seq<RValueView>, w: int, h: int, n: int, m: int)
    requires
        0 <= n <= m,
        rows_pieces(cells, w, h, n) is None,
    ensures
        rows_pieces(cells, w, h, m) is None,
    decreases m - n,
{
    if n < m {
        lemma_rows_missing(cells, w, h, n, m - 1);
    }
}

} // verus!
