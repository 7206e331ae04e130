//! Structural parsing of the symbol sequence into an instruction tree.
//!
//! A recursive descent over symbol positions builds the tree: each
//! loop-start symbol opens a recursive call that consumes symbols up to the
//! loop-end at the same nesting depth, and the consumed span becomes the
//! body of a [`Expression::Loop`] node. Before any tree is built, the total
//! loop-start and loop-end counts over the whole input are compared, and a
//! mismatch fails with [`ParseError::UnmatchedBrackets`] carrying both
//! counts. The balance check is global, not positional: a sequence with
//! equal counts but a loop-end before its loop-start is not rejected; the
//! descent then stops at the stray loop-end and silently truncates the
//! top-level sequence, as the contracts below make precise.

use vstd::prelude::*;
use crate::lexer::Token;

verus! {

/// A parsed, structurally resolved operation, possibly containing a nested
/// body. Trees built by [`parse`] only ever carry offsets and deltas of
/// plus or minus one, as [`expr_wf`] states.
#[derive(Debug, PartialEq)]
pub enum Expression {
    MovePointer(isize),
    ModifyRegister(isize),
    Loop(Vec<Expression>),
    PrintRegister,
    ReadToRegister,
}

/// The parse failed: the whole input holds `no_opening_brackets` loop-start
/// symbols but `no_closing_brackets` loop-end symbols.
#[derive(Debug, PartialEq)]
pub enum ParseError {
    UnmatchedBrackets { no_opening_brackets: usize, no_closing_brackets: usize },
}

impl ParseError {
    pub fn message(&self) -> (r: String)
        ensures
            (self matches ParseError::UnmatchedBrackets { no_opening_brackets, no_closing_brackets }
                && r@ == "Unmatched brackets. "@ + crate::render::dec_digits(
                no_opening_brackets as int,
            ) + " opening and "@ + crate::render::dec_digits(no_closing_brackets as int)
                + " closing"@),
    {
        match self {
            ParseError::UnmatchedBrackets { no_opening_brackets, no_closing_brackets } => {
                crate::render::render_unmatched(*no_opening_brackets, *no_closing_brackets)
            },
        }
    }
}

/// How many loop-start symbols a symbol sequence holds.
pub open spec fn opens_in(s: Seq<Token>) -> int
    decreases s.len(),
{
    if s.len() == 0 {
        0
    } else {
        opens_in(s.drop_last()) + if s.last() is LoopStart {
            1int
        } else {
            0int
        }
    }
}

/// How many loop-end symbols a symbol sequence holds.
pub open spec fn closes_in(s: Seq<Token>) -> int
    decreases s.len(),
{
    if s.len() == 0 {
        0
    } else {
        closes_in(s.drop_last()) + if s.last() is LoopEnd {
            1int
        } else {
            0int
        }
    }
}

/// The brackets of a symbol sequence are balanced and correctly nested:
/// the total counts agree and no prefix closes more loops than it opened.
pub open spec fn well_nested(s: Seq<Token>) -> bool {
    &&& opens_in(s) == closes_in(s)
    &&& forall|i: int|
        0 <= i <= s.len() ==> closes_in(#[trigger] s.subrange(0, i)) <= opens_in(s.subrange(0, i))
}

/// Every pointer offset and cell delta in the instruction is plus or minus
/// one, recursively through loop bodies.
pub open spec fn expr_wf(e: Expression) -> bool
    decreases e,
{
    match e {
        Expression::MovePointer(d) => d == 1 || d == -1,
        Expression::ModifyRegister(d) => d == 1 || d == -1,
        Expression::Loop(body) => forall|i: int|
            0 <= i < body@.len() ==> expr_wf(#[trigger] body@[i]),
        Expression::PrintRegister => true,
        Expression::ReadToRegister => true,
    }
}

/// [`expr_wf`] holds of every instruction of the sequence.
pub open spec fn exprs_wf(s: Seq<Expression>) -> bool {
    forall|i: int| 0 <= i < s.len() ==> expr_wf(#[trigger] s[i])
}

/// The symbol sequence an instruction flattens back to: a loop node becomes
/// its body surrounded by the bracket symbols, every other instruction
/// becomes its single symbol.
pub open spec fn flatten_expr(e: Expression) -> Seq<Token>
    decreases e,
{
    match e {
        Expression::MovePointer(d) => if d == 1 {
            seq![Token::MovePointerRight]
        } else {
            seq![Token::MovePointerLeft]
        },
        Expression::ModifyRegister(d) => if d == 1 {
            seq![Token::IncrementCurrentRegister]
        } else {
            seq![Token::DecrementCurrentRegister]
        },
        Expression::Loop(body) => seq![Token::LoopStart] + flatten_exprs(body@) + seq![
            Token::LoopEnd,
        ],
        Expression::PrintRegister => seq![Token::PrintCurrentRegister],
        Expression::ReadToRegister => seq![Token::ReadToCurrentRegister],
    }
}

/// The concatenation of the flattenings of the instructions of the sequence.
pub open spec fn flatten_exprs(s: Seq<Expression>) -> Seq<Token>
    decreases s,
{
    if s.len() == 0 {
        Seq::empty()
    } else {
        flatten_exprs(s.drop_last()) + flatten_expr(s.last())
    }
}

proof fn lemma_flatten_push(s: Seq<Expression>, e: Expression)
    ensures
        flatten_exprs(s.push(e)) == flatten_exprs(s) + flatten_expr(e),
{
    assert(s.push(e).drop_last() =~= s);
    assert(s.push(e).last() == e);
}

proof fn lemma_counts_one(s: Seq<Token>, i: int)
    requires
        0 <= i < s.len(),
    ensures
        opens_in(s.subrange(i, i + 1)) == if s[i] is LoopStart {
            1int
        } else {
            0int
        },
        closes_in(s.subrange(i, i + 1)) == if s[i] is LoopEnd {
            1int
        } else {
            0int
        },
{
    assert(s.subrange(i, i + 1).last() == s[i]);
    assert(s.subrange(i, i + 1).drop_last() =~= Seq::<Token>::empty());
    assert(opens_in(Seq::<Token>::empty()) == 0);
    assert(closes_in(Seq::<Token>::empty()) == 0);
}

proof fn lemma_counts_extend(s: Seq<Token>, a: int, b: int)
    requires
        0 <= a <= b < s.len(),
    ensures
        opens_in(s.subrange(a, b + 1)) == opens_in(s.subrange(a, b)) + if s[b] is LoopStart {
            1int
        } else {
            0int
        },
        closes_in(s.subrange(a, b + 1)) == closes_in(s.subrange(a, b)) + if s[b] is LoopEnd {
            1int
        } else {
            0int
        },
{
    assert(s.subrange(a, b + 1).last() == s[b]);
    assert(s.subrange(a, b + 1).drop_last() =~= s.subrange(a, b));
}

proof fn lemma_counts_split(s: Seq<Token>, a: int, b: int, c: int)
    requires
        0 <= a <= b <= c <= s.len(),
    ensures
        opens_in(s.subrange(a, c)) == opens_in(s.subrange(a, b)) + opens_in(s.subrange(b, c)),
        closes_in(s.subrange(a, c)) == closes_in(s.subrange(a, b)) + closes_in(s.subrange(b, c)),
    decreases c - b,
{
    if b == c {
        assert(s.subrange(b, c) =~= Seq::<Token>::empty());
        assert(opens_in(Seq::<Token>::empty()) == 0);
        assert(closes_in(Seq::<Token>::empty()) == 0);
        assert(s.subrange(a, c) =~= s.subrange(a, b));
    } else {
        lemma_counts_split(s, a, b, c - 1);
        lemma_counts_extend(s, a, c - 1);
        lemma_counts_extend(s, b, c - 1);
    }
}

/// Parses the whole symbol sequence into the top-level instruction tree.
///
/// The parse fails exactly when the loop-start and loop-end counts of the
/// input differ, and then reports both counts. On success the tree is made
/// of plus-or-minus-one offsets and deltas only, and flattens back to a
/// prefix of the input; when the input is correctly nested, that prefix is
/// the whole input, so flattening reproduces it exactly.
pub fn parse(tokens: &Vec<Token>) -> (r: Result<Vec<Expression>, ParseError>)
    ensures
        match r {
            Err(e) => {
                &&& opens_in(tokens@) != closes_in(tokens@)
                &&& (e matches ParseError::UnmatchedBrackets {
                    no_opening_brackets,
                    no_closing_brackets,
                } && no_opening_brackets == opens_in(tokens@) && no_closing_brackets == closes_in(
                    tokens@,
                ))
            },
            Ok(exprs) => {
                &&& opens_in(tokens@) == closes_in(tokens@)
                &&& exprs_wf(exprs@)
                &&& exists|end: int|
                    0 <= end <= tokens@.len() && flatten_exprs(exprs@) == #[trigger] tokens@.subrange(
                        0,
                        end,
                    )
                &&& well_nested(tokens@) ==> flatten_exprs(exprs@) == tokens@
            },
        },
{
    proof {
        assert(tokens@.subrange(0, 0) =~= Seq::<Token>::empty());
        assert(opens_in(Seq::<Token>::empty()) == 0);
        assert(closes_in(Seq::<Token>::empty()) == 0);
    }
    match parse_internal(tokens, 0) {
        Err(e) => Err(e),
        Ok((exprs, end)) => {
            proof {
                assert(0 <= end as int <= tokens@.len() && flatten_exprs(exprs@)
                    == tokens@.subrange(0, end as int));
                if well_nested(tokens@) && (end as int) < tokens@.len() {
                    // A loop-end right after the balanced consumed span would
                    // close more brackets than were opened in that prefix.
                    lemma_counts_extend(tokens@, 0, end as int);
                    assert(closes_in(tokens@.subrange(0, end as int + 1)) > opens_in(
                        tokens@.subrange(0, end as int + 1),
                    ));
                    assert(false);
                }
                if well_nested(tokens@) {
                    assert(tokens@.subrange(0, tokens@.len() as int) =~= tokens@);
                }
            }
            Ok(exprs)
        },
    }
}

fn parse_internal(tokens: &Vec<Token>, start_index: usize) -> (r: Result<
    (Vec<Expression>, usize),
    ParseError,
>)
    requires
        start_index <= tokens@.len(),
        closes_in(tokens@.subrange(0, start_index as int)) <= opens_in(
            tokens@.subrange(0, start_index as int),
        ),
    ensures
        match r {
            Err(e) => {
                &&& opens_in(tokens@) != closes_in(tokens@)
                &&& (e matches ParseError::UnmatchedBrackets {
                    no_opening_brackets,
                    no_closing_brackets,
                } && no_opening_brackets == opens_in(tokens@) && no_closing_brackets == closes_in(
                    tokens@,
                ))
            },
            Ok((exprs, end)) => {
                &&& opens_in(tokens@) == closes_in(tokens@)
                &&& start_index <= end <= tokens@.len()
                &&& (end == tokens@.len() || tokens@[end as int] is LoopEnd)
                &&& opens_in(tokens@.subrange(start_index as int, end as int)) == closes_in(
                    tokens@.subrange(start_index as int, end as int),
                )
                &&& flatten_exprs(exprs@) == tokens@.subrange(start_index as int, end as int)
                &&& exprs_wf(exprs@)
            },
        },
    decreases tokens@.len() - start_index,
{
    let ghost t = tokens@;
    let n = tokens.len();

    let mut loop_start_count: usize = 0;
    let mut loop_end_count: usize = 0;
    let mut k: usize = 0;
    while k < n
        invariant
            k <= n,
            n == t.len(),
            t == tokens@,
            loop_start_count == opens_in(t.subrange(0, k as int)),
            loop_end_count == closes_in(t.subrange(0, k as int)),
            loop_start_count <= k,
            loop_end_count <= k,
        decreases n - k,
    {
        proof {
            lemma_counts_extend(t, 0, k as int);
        }
        match tokens[k] {
            Token::LoopStart => {
                loop_start_count += 1;
            },
            Token::LoopEnd => {
                loop_end_count += 1;
            },
            _ => {},
        }
        k += 1;
    }
    proof {
        assert(t.subrange(0, n as int) =~= t);
    }

    if loop_start_count != loop_end_count {
        return Err(
            ParseError::UnmatchedBrackets {
                no_opening_brackets: loop_start_count,
                no_closing_brackets: loop_end_count,
            },
        );
    }

    let mut expressions: Vec<Expression> = Vec::new();
    let mut index: usize = start_index;

    proof {
        assert(t.subrange(start_index as int, start_index as int) =~= Seq::<Token>::empty());
        assert(opens_in(Seq::<Token>::empty()) == 0);
        assert(closes_in(Seq::<Token>::empty()) == 0);
    }

    while index < n
        invariant
            n == t.len(),
            t == tokens@,
            start_index <= index <= n,
            opens_in(t) == closes_in(t),
            closes_in(t.subrange(0, start_index as int)) <= opens_in(
                t.subrange(0, start_index as int),
            ),
            opens_in(t.subrange(start_index as int, index as int)) == closes_in(
                t.subrange(start_index as int, index as int),
            ),
            flatten_exprs(expressions@) == t.subrange(start_index as int, index as int),
            exprs_wf(expressions@),
        decreases n - index,
    {
        let ghost prev = expressions@;
        match tokens[index] {
            Token::MovePointerRight => {
                expressions.push(Expression::MovePointer(1));
                proof {
                    lemma_flatten_push(prev, Expression::MovePointer(1));
                    lemma_counts_extend(t, start_index as int, index as int);
                    assert(t.subrange(start_index as int, index as int + 1) =~= t.subrange(
                        start_index as int,
                        index as int,
                    ) + seq![t[index as int]]);
                    assert(flatten_expr(Expression::MovePointer(1)) =~= seq![t[index as int]]);
                }
            },
            Token::MovePointerLeft => {
                expressions.push(Expression::MovePointer(-1));
                proof {
                    lemma_flatten_push(prev, Expression::MovePointer(-1isize));
                    lemma_counts_extend(t, start_index as int, index as int);
                    assert(t.subrange(start_index as int, index as int + 1) =~= t.subrange(
                        start_index as int,
                        index as int,
                    ) + seq![t[index as int]]);
                    assert(flatten_expr(Expression::MovePointer(-1isize)) =~= seq![t[index as int]]);
                }
            },
            Token::IncrementCurrentRegister => {
                expressions.push(Expression::ModifyRegister(1));
                proof {
                    lemma_flatten_push(prev, Expression::ModifyRegister(1));
                    lemma_counts_extend(t, start_index as int, index as int);
                    assert(t.subrange(start_index as int, index as int + 1) =~= t.subrange(
                        start_index as int,
                        index as int,
                    ) + seq![t[index as int]]);
                    assert(flatten_expr(Expression::ModifyRegister(1)) =~= seq![t[index as int]]);
                }
            },
            Token::DecrementCurrentRegister => {
                expressions.push(Expression::ModifyRegister(-1));
                proof {
                    lemma_flatten_push(prev, Expression::ModifyRegister(-1isize));
                    lemma_counts_extend(t, start_index as int, index as int);
                    assert(t.subrange(start_index as int, index as int + 1) =~= t.subrange(
                        start_index as int,
                        index as int,
                    ) + seq![t[index as int]]);
                    assert(flatten_expr(Expression::ModifyRegister(-1isize)) =~= seq![t[index as int]]);
                }
            },
            Token::LoopStart => {
                proof {
                    // The prefix up to and including this loop-start has
                    // strictly more opens than closes.
                    lemma_counts_split(t, 0, start_index as int, index as int);
                    lemma_counts_extend(t, 0, index as int);
                }
                let result = parse_internal(tokens, index + 1);
                match result {
                    Err(e) => {
                        return Err(e);
                    },
                    Ok((parsed_expressions, end_index)) => {
                        let ghost body = parsed_expressions@;
                        proof {
                            // The recursive call cannot have consumed to the
                            // very end: the suffix it consumed is balanced,
                            // so the whole sequence would have strictly more
                            // opens than closes.
                            if end_index == n {
                                lemma_counts_split(t, 0, index as int + 1, n as int);
                                assert(t.subrange(0, n as int) =~= t);
                                assert(false);
                            }
                        }
                        let ghost le = Expression::Loop(parsed_expressions);
                        expressions.push(Expression::Loop(parsed_expressions));
                        proof {
                            lemma_flatten_push(prev, le);
                            assert(flatten_expr(le) == seq![Token::LoopStart] + flatten_exprs(body)
                                + seq![Token::LoopEnd]);
                            assert(t.subrange(start_index as int, end_index as int + 1)
                                =~= t.subrange(start_index as int, index as int) + (seq![
                                Token::LoopStart,
                            ] + t.subrange(index as int + 1, end_index as int) + seq![
                                Token::LoopEnd,
                            ]));
                            // Balance of the newly consumed span.
                            lemma_counts_split(t, start_index as int, index as int, end_index as int + 1);
                            lemma_counts_split(t, index as int, index as int + 1, end_index as int + 1);
                            lemma_counts_split(t, index as int + 1, end_index as int, end_index as int + 1);
                            lemma_counts_one(t, index as int);
                            lemma_counts_one(t, end_index as int);
                        }
                        index = end_index;
                    },
                }
            },
            Token::LoopEnd => {
                return Ok((expressions, index));
            },
            Token::PrintCurrentRegister => {
                expressions.push(Expression::PrintRegister);
                proof {
                    lemma_flatten_push(prev, Expression::PrintRegister);
                    lemma_counts_extend(t, start_index as int, index as int);
                    assert(t.subrange(start_index as int, index as int + 1) =~= t.subrange(
                        start_index as int,
                        index as int,
                    ) + seq![t[index as int]]);
                    assert(flatten_expr(Expression::PrintRegister) =~= seq![t[index as int]]);
                }
            },
            Token::ReadToCurrentRegister => {
                expressions.push(Expression::ReadToRegister);
                proof {
                    lemma_flatten_push(prev, Expression::ReadToRegister);
                    lemma_counts_extend(t, start_index as int, index as int);
                    assert(t.subrange(start_index as int, index as int + 1) =~= t.subrange(
                        start_index as int,
                        index as int,
                    ) + seq![t[index as int]]);
                    assert(flatten_expr(Expression::ReadToRegister) =~= seq![t[index as int]]);
                }
            },
        }
        index += 1;
    }

    Ok((expressions, index))
}

} // verus!
