//! Lexical scanning of raw source text into the fixed symbol set.
//!
//! Each of the eight recognized characters (`>`, `<`, `+`, `-`, `[`, `]`,
//! `.`, `,`) maps one-to-one onto a [`Token`]; any other character makes the
//! whole scan fail with the position of the first offender.

use vstd::prelude::*;

verus! {

/// One recognized lexical unit of source text.
#[derive(Clone, Copy, Debug, PartialEq, Eq, Structural)]
pub enum Token {
    MovePointerRight,
    MovePointerLeft,
    IncrementCurrentRegister,
    DecrementCurrentRegister,
    LoopStart,
    LoopEnd,
    PrintCurrentRegister,
    ReadToCurrentRegister,
}

/// The symbol that a source character stands for, or `None` when the
/// character is not one of the eight recognized ones.
pub open spec fn token_of(c: char) -> Option<Token> {
    match c {
        '>' => Some(Token::MovePointerRight),
        '<' => Some(Token::MovePointerLeft),
        '+' => Some(Token::IncrementCurrentRegister),
        '-' => Some(Token::DecrementCurrentRegister),
        '[' => Some(Token::LoopStart),
        ']' => Some(Token::LoopEnd),
        '.' => Some(Token::PrintCurrentRegister),
        ',' => Some(Token::ReadToCurrentRegister),
        _ => None,
    }
}

/// The scan failed: `symbol` at position `index` of the source string is not
/// one of the eight recognized characters.
#[derive(Debug)]
pub struct LexingError {
    pub symbol: char,
    pub index: usize,
}

impl LexingError {
    pub fn message(&self) -> (r: String)
        ensures
            r@ == "Unrecognized symbol '"@ + seq![self.symbol] + "' at index "@
                + crate::render::dec_digits(self.index as int) + "."@,
    {
        crate::render::render_unrecognized(self.symbol, self.index)
    }
}

fn to_token(c: char) -> (r: Option<Token>)
    ensures
        r == token_of(c),
{
    match c {
        '>' => Some(Token::MovePointerRight),
        '<' => Some(Token::MovePointerLeft),
        '+' => Some(Token::IncrementCurrentRegister),
        '-' => Some(Token::DecrementCurrentRegister),
        '[' => Some(Token::LoopStart),
        ']' => Some(Token::LoopEnd),
        '.' => Some(Token::PrintCurrentRegister),
        ',' => Some(Token::ReadToCurrentRegister),
        _ => None,
    }
}

/// Scans a source string into its symbol sequence, one symbol per character
/// and in input order, or fails at the first unrecognized character.
pub fn lex(code: &str) -> (r: Result<Vec<Token>, LexingError>)
    ensures
        match r {
            Ok(tokens) => {
                &&& tokens@.len() == code@.len()
                &&& forall|i: int|
                    0 <= i < code@.len() ==> token_of(code@[i]) == Some(tokens@[i])
            },
            Err(e) => {
                &&& e.index < code@.len()
                &&& token_of(code@[e.index as int]) is None
                &&& e.symbol == code@[e.index as int]
                &&& forall|i: int| 0 <= i < e.index ==> token_of(code@[i]) is Some
            },
        },
{
    let n = code.unicode_len();
    let mut tokens: Vec<Token> = Vec::new();
    let mut i: usize = 0;
    while i < n
        invariant
            i <= n,
            n == code@.len(),
            tokens@.len() == i,
            forall|j: int| 0 <= j < i ==> token_of(code@[j]) == Some(tokens@[j]),
        decreases n - i,
    {
        let c = code.get_char(i);
        match to_token(c) {
            Some(t) => {
                tokens.push(t);
            },
            None => {
                return Err(LexingError { symbol: c, index: i });
            },
        }
        i += 1;
    }
    Ok(tokens)
}

} // verus!
