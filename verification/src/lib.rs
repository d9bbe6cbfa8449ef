//! An interpreter core for a small scientific expression language:
//! arithmetic on quantities with physical units and measurement uncertainty,
//! complex numbers, matrices, string interpolation, variables and control
//! flow.
//!
//! The crate holds every decision of the interpreter and proves each against
//! a mathematical statement of it:
//!
//! * [`unit`], [`compose`] and [`notation`]: units as exponent vectors, their
//!   canonical rendering over named units, and the reading of written units;
//! * [`lexer`]: from source text to tokens;
//! * [`ast`]: from tokens to an expression tree, by precedence passes;
//! * [`rules`], [`machine`] and [`eval`]: the rules of evaluation and the
//!   evaluator that applies them step by step;
//! * [`quantity`], [`value`] and [`render`]: quantities, values, variables
//!   and the layout of values as text.
//!
//! Arithmetic on real numbers and output are not done here. A real number is
//! held as its 64-bit pattern; the evaluator tells its host which
//! computation is due and goes on with the answer.

pub mod unit;
pub mod text;
pub mod compose;
pub mod notation;
pub mod lexer;
pub mod ast;
pub mod quantity;
pub mod value;
pub mod render;
pub mod machine;
pub mod rules;
pub mod eval;
