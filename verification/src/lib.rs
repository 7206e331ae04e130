//! An interpreter for a minimal instruction language over a tape of integer
//! cells: a scanner turns source text into symbols, a recursive-descent
//! parser turns the symbols into an instruction tree, and an evaluator walks
//! the tree against a growable tape, performing pointer moves, cell
//! arithmetic, and character input and output.

pub mod lexer;
pub mod parser;
pub mod runtime;
pub mod tokenizer;

pub mod render;

