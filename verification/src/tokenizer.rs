//! A second scanner over the same symbol set.
//!
//! This module mirrors [`crate::lexer`] with its own [`Token`] and error
//! type; both scanners map the eight recognized characters one-to-one onto
//! symbols and fail at the first unrecognized character.

use vstd::prelude::*;

verus! {

/// One recognized lexical unit of source text.
#[derive(Clone, Copy, Debug, PartialEq, Eq, Structural)]
pub enum Token {
    MovePointerRight,
    MovePointerLeft,
    IncrementCurrentRegister,
    DecrementCurrentRegister,
    LoopStart,
    LoopEnd,
    PrintCurrentRegister,
    ReadToCurrentRegister,
}

/// The symbol that a source character stands for, or `None` when the
/// character is not one of the eight recognized ones.
pub open spec fn symbol_of(c: char) -> Option<Token> {
    match c {
        '>' => Some(Token::MovePointerRight),
        '<' => Some(Token::MovePointerLeft),
        '+' => Some(Token::IncrementCurrentRegister),
        '-' => Some(Token::DecrementCurrentRegister),
        '[' => Some(Token::LoopStart),
        ']' => Some(Token::LoopEnd),
        '.' => Some(Token::PrintCurrentRegister),
        ',' => Some(Token::ReadToCurrentRegister),
        _ => None,
    }
}

/// The scan failed: `symbol` at position `index` of the source string is not
/// one of the eight recognized characters.
#[derive(Debug)]
pub struct TokenizeError {
    pub symbol: char,
    pub index: usize,
}

impl TokenizeError {
    pub fn message(&self) -> (r: String)
        ensures
            r@ == "Unrecognized symbol '"@ + seq![self.symbol] + "' at index "@
                + crate::render::dec_digits(self.index as int) + "."@,
    {
        crate::render::render_unrecognized(self.symbol, self.index)
    }
}

fn tokenize_one(c: char) -> (r: Option<Token>)
    ensures
        r == symbol_of(c),
{
    match c {
        '>' => Some(Token::MovePointerRight),
        '<' => Some(Token::MovePointerLeft),
        '+' => Some(Token::IncrementCurrentRegister),
        '-' => Some(Token::DecrementCurrentRegister),
        '[' => Some(Token::LoopStart),
        ']' => Some(Token::LoopEnd),
        '.' => Some(Token::PrintCurrentRegister),
        ',' => Some(Token::ReadToCurrentRegister),
        _ => None,
    }
}

/// Scans a source string into its symbol sequence, one symbol per character
/// and in input order, or fails at the first unrecognized character.
pub fn tokenize(code: &str) -> (r: Result<Vec<Token>, TokenizeError>)
    ensures
        match r {
            Ok(tokens) => {
                &&& tokens@.len() == code@.len()
                &&& forall|i: int|
                    0 <= i < code@.len() ==> symbol_of(code@[i]) == Some(tokens@[i])
            },
            Err(e) => {
                &&& e.index < code@.len()
                &&& symbol_of(code@[e.index as int]) is None
                &&& e.symbol == code@[e.index as int]
                &&& forall|i: int| 0 <= i < e.index ==> symbol_of(code@[i]) is Some
            },
        },
{
    let n = code.unicode_len();
    let mut tokens: Vec<Token> = Vec::new();
    let mut i: usize = 0;
    while i < n
        invariant
            i <= n,
            n == code@.len(),
            tokens@.len() == i,
            forall|j: int| 0 <= j < i ==> symbol_of(code@[j]) == Some(tokens@[j]),
        decreases n - i,
    {
        let c = code.get_char(i);
        match tokenize_one(c) {
            Some(t) => {
                tokens.push(t);
            },
            None => {
                return Err(TokenizeError { symbol: c, index: i });
            },
        }
        i += 1;
    }
    Ok(tokens)
}

} // verus!
