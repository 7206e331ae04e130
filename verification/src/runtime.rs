//! The evaluator: walks the instruction tree against a growable tape of
//! integer cells, performing pointer moves, cell arithmetic, loop iteration
//! and character input and output.
//!
//! Every loop in this library must be shown to terminate, while a program
//! of the interpreted language may loop forever. The evaluator therefore
//! carries an explicit step budget: each loop-condition re-check consumes
//! one step, and a run whose budget is exhausted stops with
//! [`Progress::OutOfSteps`]. [`execute`] grants the largest expressible
//! budget, beyond any run that ever finishes.

use vstd::prelude::*;
use std::io::Write;
use crate::parser::Expression;
use crate::parser::expr_wf;
use crate::parser::exprs_wf;

verus! {

/// The evaluation failed: the pointer moved out of memory, or the current
/// cell value is not a printable code point.
#[derive(Debug, PartialEq)]
pub enum RuntimeError {
    IllegalMemoryAccess(),
    UnableToPrintValueAsCharacter(),
}

impl RuntimeError {
    pub fn message(&self) -> (r: String)
        ensures
            self is IllegalMemoryAccess ==> r@ == "Pointer moved out of memory."@,
            self is UnableToPrintValueAsCharacter ==> r@
                == "Unable to print register value as character."@,
    {
        match self {
            RuntimeError::IllegalMemoryAccess() => String::from_str("Pointer moved out of memory."),
            RuntimeError::UnableToPrintValueAsCharacter() => String::from_str(
                "Unable to print register value as character.",
            ),
        }
    }
}

/// How a run ended when it did not fail: the tree was executed to
/// completion, or the step budget ran out first.
#[derive(Clone, Copy, Debug, PartialEq, Eq, Structural)]
pub enum Progress {
    Completed,
    OutOfSteps,
}

/// The tape: a growable sequence of integer cells and a pointer into it,
/// created as a single zero cell with the pointer on it.
#[derive(Debug)]
pub struct Memory {
    segments: Vec<isize>,
    pointer_index: usize,
}

impl Memory {
    /// The values of the tape's cells, in order.
    pub closed spec fn cells(&self) -> Seq<isize> {
        self.segments@
    }

    /// The index of the cell the pointer rests on.
    pub closed spec fn ptr(&self) -> int {
        self.pointer_index as int
    }

    /// The tape is never empty and the pointer always rests on a cell.
    pub open spec fn inv(&self) -> bool {
        0 <= self.ptr() < self.cells().len()
    }

    pub fn new() -> (m: Memory)
        ensures
            m.inv(),
            m.cells() == seq![0isize],
            m.ptr() == 0,
    {
        let m = Memory { segments: vec![0], pointer_index: 0 };
        proof {
            assert(m.segments@ =~= seq![0isize]);
        }
        m
    }

    /// Moves the pointer by `value`. A negative target index is an illegal
    /// access and leaves the tape untouched; so is a target beyond what a
    /// `usize` can address, which lies past any tape the machine could
    /// hold. Otherwise the tape grows with zero cells up to and including
    /// the target index if needed, and the pointer moves there.
    pub fn move_pointer(&mut self, value: &isize) -> (r: Result<(), RuntimeError>)
        requires
            old(self).inv(),
        ensures
            ({
                let np = old(self).ptr() + (*value as int);
                &&& (np < 0 || np > usize::MAX) ==> (r matches Err(
                    RuntimeError::IllegalMemoryAccess(),
                ) && *final(self) == *old(self))
                &&& (0 <= np <= usize::MAX) ==> (r is Ok && final(self).inv() && moved(
                    *old(self),
                    *value,
                    *final(self),
                ))
            }),
    {
        let p = self.pointer_index;
        if *value < 0 {
            let mag: usize = if *value == isize::MIN {
                (isize::MAX as usize) + 1
            } else {
                (-*value) as usize
            };
            if mag > p {
                return Err(RuntimeError::IllegalMemoryAccess());
            }
            self.pointer_index = p - mag;
            return Ok(());
        }
        let add = *value as usize;
        match p.checked_add(add) {
            None => Err(RuntimeError::IllegalMemoryAccess()),
            Some(np) => {
                if np >= self.segments.len() {
                    let mut number_of_new_segments = np - self.segments.len() + 1;
                    while number_of_new_segments > 0
                        invariant
                            number_of_new_segments >= 0,
                            self.segments@.len() == np + 1 - number_of_new_segments,
                            self.segments@.len() >= old(self).segments@.len(),
                            forall|i: int|
                                0 <= i < old(self).segments@.len() ==> self.segments@[i] == old(
                                    self,
                                ).segments@[i],
                            forall|i: int|
                                old(self).segments@.len() <= i < self.segments@.len()
                                    ==> self.segments@[i] == 0,
                            self.pointer_index == old(self).pointer_index,
                        decreases number_of_new_segments,
                    {
                        self.segments.push(0);
                        number_of_new_segments -= 1;
                    }
                }
                self.pointer_index = np;
                Ok(())
            },
        }
    }

    /// Adds `value` to the cell under the pointer. Cell arithmetic wraps at
    /// the `isize` boundary: the cells are machine words, not unbounded
    /// integers.
    pub fn modify_current_register_value(&mut self, value: &isize)
        requires
            old(self).inv(),
        ensures
            final(self).inv(),
            final(self).ptr() == old(self).ptr(),
            final(self).cells() == old(self).cells().update(
                old(self).ptr(),
                old(self).cells()[old(self).ptr()].wrapping_add(*value),
            ),
    {
        let p = self.pointer_index;
        let cur = self.segments[p];
        self.segments[p] = cur.wrapping_add(*value);
    }

    /// The value of the cell under the pointer.
    pub fn get_current_register_value(&self) -> (v: isize)
        requires
            self.inv(),
        ensures
            v == self.cells()[self.ptr()],
    {
        self.segments[self.pointer_index]
    }

    /// Overwrites the cell under the pointer with `value`.
    pub fn set_current_register_value(&mut self, value: isize)
        requires
            old(self).inv(),
        ensures
            final(self).inv(),
            final(self).ptr() == old(self).ptr(),
            final(self).cells() == old(self).cells().update(old(self).ptr(), value),
    {
        let p = self.pointer_index;
        self.segments[p] = value;
    }
}

/// A successful pointer move: the pointer went to `pre.ptr() + d`, the tape
/// grew with zero cells exactly up to that index if it lay at or past the
/// old end, and every old cell kept its value.
pub open spec fn moved(pre: Memory, d: isize, post: Memory) -> bool {
    let np = pre.ptr() + (d as int);
    &&& 0 <= np
    &&& post.ptr() == np
    &&& post.cells().len() == (if np < pre.cells().len() {
        pre.cells().len() as int
    } else {
        np + 1
    })
    &&& forall|i: int| 0 <= i < pre.cells().len() ==> post.cells()[i] == pre.cells()[i]
    &&& forall|i: int| pre.cells().len() <= i < post.cells().len() ==> post.cells()[i] == 0
}

/// Pointer-move invariant: a successful move from a valid tape leaves the
/// pointer at an index that is at least zero and strictly less than the
/// tape's length, so any sequence of successful moves keeps it so.
pub proof fn lemma_move_keeps_pointer_in_bounds(pre: Memory, d: isize, post: Memory)
    requires
        pre.inv(),
        moved(pre, d, post),
    ensures
        0 <= post.ptr() < post.cells().len(),
{
}

/// Growth never loses cells: moving the pointer forward past the tape end
/// and then back — or by any two successful moves — leaves every cell that
/// existed before both moves with its old value.
pub proof fn lemma_growth_preserves_cells(m0: Memory, d1: isize, m1: Memory, d2: isize, m2: Memory)
    requires
        moved(m0, d1, m1),
        moved(m1, d2, m2),
    ensures
        m2.cells().len() >= m0.cells().len(),
        forall|i: int| 0 <= i < m0.cells().len() ==> m2.cells()[i] == m0.cells()[i],
{
}

/// Where printed characters go: to standard output, or into a buffer that
/// a caller can inspect.
pub enum OutputSink {
    Console,
    Buffer(Vec<char>),
}

/// A sink only ever gains characters: a console stays a console, and a
/// buffer keeps everything already written as a prefix.
pub open spec fn sink_extends(a: OutputSink, b: OutputSink) -> bool {
    match a {
        OutputSink::Console => b is Console,
        OutputSink::Buffer(v) => (b matches OutputSink::Buffer(w) && v@.is_prefix_of(w@)),
    }
}

impl OutputSink {
    /// Writes one character: to standard output for a console, appended for
    /// a buffer.
    pub fn emit(&mut self, c: char)
        ensures
            sink_extends(*old(self), *final(self)),
            ((*old(self)) matches OutputSink::Buffer(v) ==> ((*final(self)) matches OutputSink::Buffer(w)
                && w@ == v@.push(c))),
    {
        match self {
            OutputSink::Console => {
                emit_char(c);
            },
            OutputSink::Buffer(v) => {
                let ghost prev = v@;
                v.push(c);
                proof {
                    assert(prev =~= v@.subrange(0, prev.len() as int));
                }
            },
        }
    }
}

/// Where input values come from: the console (prompting and retrying until
/// a line parses as a signed integer), or a fixed script of values.
pub enum InputSource {
    Console,
    Script(Vec<isize>, usize),
}

/// A source only ever advances: a console stays a console, and a script
/// keeps its values and never rewinds.
pub open spec fn source_extends(a: InputSource, b: InputSource) -> bool {
    match a {
        InputSource::Console => b is Console,
        InputSource::Script(vals, n) => (b matches InputSource::Script(vals2, n2) && vals2@ == vals@
            && n <= n2),
    }
}

impl InputSource {
    /// Obtains the next input value. A script yields its values in order
    /// and zero once they are exhausted; what a console yields depends on
    /// what is typed, so nothing is claimed of it.
    pub fn read_value(&mut self) -> (v: isize)
        ensures
            source_extends(*old(self), *final(self)),
            ((*old(self)) matches InputSource::Script(vals, n) ==> ((*final(self))
                matches InputSource::Script(vals2, n2) && vals2@ == vals@ && (if n < vals@.len() {
                v == vals@[n as int] && n2 == n + 1
            } else {
                v == 0 && n2 == n
            }))),
    {
        match self {
            InputSource::Console => read_value_from_stdin(),
            InputSource::Script(vals, n) => {
                if *n < vals.len() {
                    let v = vals[*n];
                    *n = *n + 1;
                    v
                } else {
                    0
                }
            },
        }
    }
}

proof fn lemma_sink_extends_trans(a: OutputSink, b: OutputSink, c: OutputSink)
    requires
        sink_extends(a, b),
        sink_extends(b, c),
    ensures
        sink_extends(a, c),
{
    match a {
        OutputSink::Console => {},
        OutputSink::Buffer(v) => {
            let w = b->Buffer_0;
            let x = c->Buffer_0;
            assert(v@ =~= x@.subrange(0, v@.len() as int));
        },
    }
}

proof fn lemma_source_extends_trans(a: InputSource, b: InputSource, c: InputSource)
    requires
        source_extends(a, b),
        source_extends(b, c),
    ensures
        source_extends(a, c),
{
}

/// Relies on the `write!` macro of std to put one character on standard
/// output; nothing is claimed of the stream.
#[verifier::external_body]
fn emit_char(c: char) {
    let _ = write!(std::io::stdout(), "{}", c);
}

/// Relies on the `write!` macro of std to put the text on standard output;
/// nothing is claimed of the stream.
#[verifier::external_body]
fn emit_text(s: &str) {
    let _ = write!(std::io::stdout(), "{}", s);
}

/// Relies on `std::io::Stdout::flush`; nothing is claimed of the stream.
#[verifier::external_body]
fn flush_output() {
    let _ = std::io::stdout().flush();
}

/// Relies on `std::io::Stdin::read_line`: one line from standard input, or
/// `None` when reading failed. What the line holds depends on what is
/// typed, so nothing is claimed of it.
#[verifier::external_body]
fn read_line_from_console() -> Option<String> {
    let mut line = String::new();
    match std::io::stdin().read_line(&mut line) {
        Ok(_) => Some(line),
        Err(_) => None,
    }
}

/// A character the console trim strips from a line's ends: an ASCII space,
/// tab, carriage return or line feed.
spec fn is_line_ws(c: char) -> bool {
    c == ' ' || c == '\t' || c == '\r' || c == '\n'
}

fn is_ws_char(c: char) -> (b: bool)
    ensures
        b == is_line_ws(c),
{
    c == ' ' || c == '\t' || c == '\r' || c == '\n'
}

/// The bounds of the line with the ASCII whitespace of both ends stripped:
/// everything before `lo` and from `hi` on is whitespace, and when anything
/// is left, neither end of it is.
fn trim_bounds(s: &str) -> (b: (usize, usize))
    ensures
        ({
            let (lo, hi) = b;
            &&& lo <= hi <= s@.len()
            &&& forall|i: int| 0 <= i < lo ==> is_line_ws(s@[i])
            &&& forall|i: int| hi <= i < s@.len() ==> is_line_ws(s@[i])
            &&& (lo < hi ==> !is_line_ws(s@[lo as int]) && !is_line_ws(s@[hi - 1]))
        }),
{
    let n = s.unicode_len();
    let mut lo: usize = 0;
    while lo < n && is_ws_char(s.get_char(lo))
        invariant
            lo <= n,
            n == s@.len(),
            forall|i: int| 0 <= i < lo ==> is_line_ws(s@[i]),
        decreases n - lo,
    {
        lo += 1;
    }
    let mut hi: usize = n;
    while hi > lo && is_ws_char(s.get_char(hi - 1))
        invariant
            lo <= hi <= n,
            n == s@.len(),
            forall|i: int| hi <= i < n ==> is_line_ws(s@[i]),
        decreases hi,
    {
        hi -= 1;
    }
    (lo, hi)
}

/// An ASCII decimal digit.
spec fn is_ascii_digit(c: char) -> bool {
    '0' <= c && c <= '9'
}

/// The value of a sequence of ASCII decimal digits, most significant first.
spec fn digits_value(s: Seq<char>) -> int
    decreases s.len(),
{
    if s.len() == 0 {
        0
    } else {
        digits_value(s.drop_last()) * 10 + (s.last() as int - '0' as int)
    }
}

/// One or more characters, all ASCII decimal digits.
spec fn all_ascii_digits(s: Seq<char>) -> bool {
    s.len() > 0 && forall|i: int| 0 <= i < s.len() ==> is_ascii_digit(#[trigger] s[i])
}

/// The integer a string spells — an optional ASCII sign followed by one or
/// more ASCII digits — or `None` when it spells no integer.
spec fn int_literal(s: Seq<char>) -> Option<int> {
    if s.len() > 0 && (s[0] == '-' || s[0] == '+') {
        if all_ascii_digits(s.subrange(1, s.len() as int)) {
            if s[0] == '-' {
                Some(-digits_value(s.subrange(1, s.len() as int)))
            } else {
                Some(digits_value(s.subrange(1, s.len() as int)))
            }
        } else {
            None
        }
    } else if all_ascii_digits(s) {
        Some(digits_value(s))
    } else {
        None
    }
}

/// Relies on `isize::from_str` (through `str::parse`): the value the string
/// spells when it is an optional ASCII sign followed by ASCII digits and
/// the value fits an `isize`; `None` otherwise.
#[verifier::external_body]
fn parse_isize(s: &str) -> (r: Option<isize>)
    ensures
        r == (match int_literal(s@) {
            Some(n) => if isize::MIN <= n && n <= isize::MAX {
                Some(n as isize)
            } else {
                None::<isize>
            },
            None => None::<isize>,
        }),
{
    s.parse::<isize>().ok()
}

/// Prompts on standard output and reads lines from standard input until one
/// parses as a signed integer, complaining and retrying on each line that
/// does not, as console input never fails permanently. Like every loop of
/// this library the retries carry a budget, the largest a `u64` can hold;
/// a console that never yields an integer within it reads as zero, as an
/// exhausted script does. The value depends on what is typed, so nothing
/// is claimed of it.
fn read_value_from_stdin() -> isize {
    let mut attempts: u64 = 0;
    while attempts < u64::MAX
        decreases u64::MAX - attempts,
    {
        emit_text("Please enter a value: ");
        flush_output();
        match read_line_from_console() {
            Some(line) => {
                let (lo, hi) = trim_bounds(line.as_str());
                let trimmed = line.as_str().substring_char(lo, hi);
                match parse_isize(trimmed) {
                    Some(number) => {
                        return number;
                    },
                    None => {
                        emit_text("Invalid input. Please try again.\n");
                    },
                }
            },
            None => {
                emit_text("Failed to read input. Please try again.\n");
            },
        }
        attempts += 1;
    }
    0
}

/// Relies on `char::from_u32`: `Some` exactly on Unicode scalar values,
/// that is on code points outside the surrogate range and at most 0x10FFFF.
#[verifier::external_body]
fn char_from_u32(v: u32) -> (r: Option<char>)
    ensures
        r is Some <==> (v < 0xD800 || (0xE000 <= v && v <= 0x10FFFF)),
        (r matches Some(c) ==> c as int == v as int),
{
    char::from_u32(v)
}

/// No instruction of the sequence is a loop node.
pub open spec fn no_loops(s: Seq<Expression>) -> bool {
    forall|i: int| 0 <= i < s.len() ==> !(#[trigger] s[i] is Loop)
}

/// The mathematical state of a run: the tape's cells and pointer, the
/// scripted input values and how many of them were consumed, the characters
/// printed so far, and the remaining step budget.
pub ghost struct EvalState {
    pub cells: Seq<isize>,
    pub ptr: int,
    pub inputs: Seq<isize>,
    pub next_input: int,
    pub output: Seq<char>,
    pub steps: nat,
}

/// How a run of the specification evaluator ended: the instructions were
/// executed to completion, the step budget ran out, or the first faulting
/// operation failed.
pub ghost enum EvalEnd {
    Done(EvalState),
    Stopped(EvalState),
    Failed(EvalState, RuntimeError),
}

/// `st` with its budget capped at `bound`. The cap keeps the evaluator's
/// recursion well-founded; it never bites, since a run only spends budget,
/// as [`lemma_eval_seq_spends`] shows.
pub open spec fn state_clamped(st: EvalState, bound: nat) -> EvalState {
    if st.steps <= bound {
        st
    } else {
        EvalState {
            cells: st.cells,
            ptr: st.ptr,
            inputs: st.inputs,
            next_input: st.next_input,
            output: st.output,
            steps: bound,
        }
    }
}

/// One instruction: what it does to the state, or how it fails.
///
/// A pointer move below zero — or beyond what a `usize` can address — fails
/// with an illegal access and otherwise grows the tape with zeros up to the
/// target; cell arithmetic wraps at the `isize` boundary; printing appends
/// the character of the cell's code point, or fails when the cell is not a
/// Unicode scalar value; reading overwrites the cell with the next scripted
/// value, or zero once the script is exhausted.
pub open spec fn eval_instr(e: Expression, st: EvalState) -> EvalEnd
    decreases st.steps, e,
{
    match e {
        Expression::MovePointer(d) => {
            let np = st.ptr + (d as int);
            if np < 0 || np > usize::MAX {
                EvalEnd::Failed(st, RuntimeError::IllegalMemoryAccess())
            } else {
                let grown = if np < st.cells.len() {
                    st.cells
                } else {
                    st.cells + Seq::new((np + 1 - st.cells.len()) as nat, |i: int| 0isize)
                };
                EvalEnd::Done(
                    EvalState {
                        cells: grown,
                        ptr: np,
                        inputs: st.inputs,
                        next_input: st.next_input,
                        output: st.output,
                        steps: st.steps,
                    },
                )
            }
        },
        Expression::ModifyRegister(d) => EvalEnd::Done(
            EvalState {
                cells: st.cells.update(st.ptr, st.cells[st.ptr].wrapping_add(d)),
                ptr: st.ptr,
                inputs: st.inputs,
                next_input: st.next_input,
                output: st.output,
                steps: st.steps,
            },
        ),
        Expression::Loop(body) => eval_loop(body@, st),
        Expression::PrintRegister => {
            let v = st.cells[st.ptr] as int;
            if 0 <= v < 0xD800 || 0xE000 <= v <= 0x10FFFF {
                EvalEnd::Done(
                    EvalState {
                        cells: st.cells,
                        ptr: st.ptr,
                        inputs: st.inputs,
                        next_input: st.next_input,
                        output: st.output.push(v as char),
                        steps: st.steps,
                    },
                )
            } else {
                EvalEnd::Failed(st, RuntimeError::UnableToPrintValueAsCharacter())
            }
        },
        Expression::ReadToRegister => {
            let v = if st.next_input < st.inputs.len() {
                st.inputs[st.next_input]
            } else {
                0isize
            };
            let n2 = if st.next_input < st.inputs.len() {
                st.next_input + 1
            } else {
                st.next_input
            };
            EvalEnd::Done(
                EvalState {
                    cells: st.cells.update(st.ptr, v),
                    ptr: st.ptr,
                    inputs: st.inputs,
                    next_input: n2,
                    output: st.output,
                    steps: st.steps,
                },
            )
        },
    }
}

/// A sequence of instructions: run in order until the first fault or an
/// exhausted budget ends the run early.
pub open spec fn eval_seq(s: Seq<Expression>, st: EvalState) -> EvalEnd
    decreases st.steps, s,
{
    if s.len() == 0 {
        EvalEnd::Done(st)
    } else {
        match eval_instr(s[0], st) {
            EvalEnd::Done(st1) => eval_seq(
                s.subrange(1, s.len() as int),
                state_clamped(st1, st.steps),
            ),
            end => end,
        }
    }
}

/// A loop: while the condition cell is non-zero, run the body in full and
/// re-check, spending one step of the budget on each entered pass. The
/// condition is checked strictly before each pass, never mid-body.
pub open spec fn eval_loop(body: Seq<Expression>, st: EvalState) -> EvalEnd
    decreases st.steps, body,
{
    if st.cells[st.ptr] == 0 {
        EvalEnd::Done(st)
    } else if st.steps == 0 {
        EvalEnd::Stopped(st)
    } else {
        let st1 = EvalState {
            cells: st.cells,
            ptr: st.ptr,
            inputs: st.inputs,
            next_input: st.next_input,
            output: st.output,
            steps: (st.steps - 1) as nat,
        };
        match eval_seq(body, st1) {
            EvalEnd::Done(st2) => eval_loop(body, state_clamped(st2, st1.steps)),
            end => end,
        }
    }
}

/// The budget of the state an evaluation ended in.
pub open spec fn end_steps(end: EvalEnd) -> nat {
    match end {
        EvalEnd::Done(st) => st.steps,
        EvalEnd::Stopped(st) => st.steps,
        EvalEnd::Failed(st, e) => st.steps,
    }
}

proof fn lemma_eval_instr_spends(e: Expression, st: EvalState)
    ensures
        end_steps(eval_instr(e, st)) <= st.steps,
    decreases st.steps, e,
{
    match e {
        Expression::Loop(body) => {
            lemma_eval_loop_spends(body@, st);
        },
        _ => {},
    }
}

/// An evaluation never gains budget: the end state's budget is at most the
/// starting one, so the caps in the evaluator never change anything.
pub proof fn lemma_eval_seq_spends(s: Seq<Expression>, st: EvalState)
    ensures
        end_steps(eval_seq(s, st)) <= st.steps,
    decreases st.steps, s,
{
    if s.len() > 0 {
        lemma_eval_instr_spends(s[0], st);
        match eval_instr(s[0], st) {
            EvalEnd::Done(st1) => {
                lemma_eval_seq_spends(s.subrange(1, s.len() as int), state_clamped(st1, st.steps));
            },
            _ => {},
        }
    }
}

proof fn lemma_eval_loop_spends(body: Seq<Expression>, st: EvalState)
    ensures
        end_steps(eval_loop(body, st)) <= st.steps,
    decreases st.steps, body,
{
    if st.cells[st.ptr] == 0 || st.steps == 0 {
    } else {
        let st1 = EvalState {
            cells: st.cells,
            ptr: st.ptr,
            inputs: st.inputs,
            next_input: st.next_input,
            output: st.output,
            steps: (st.steps - 1) as nat,
        };
        lemma_eval_seq_spends(body, st1);
        match eval_seq(body, st1) {
            EvalEnd::Done(st2) => {
                lemma_eval_loop_spends(body, state_clamped(st2, st1.steps));
            },
            _ => {},
        }
    }
}

proof fn lemma_seq_step(s: Seq<Expression>, i: int, st: EvalState)
    requires
        0 <= i < s.len(),
    ensures
        eval_seq(s.subrange(i, s.len() as int), st) == (match eval_instr(s[i], st) {
            EvalEnd::Done(st1) => eval_seq(
                s.subrange(i + 1, s.len() as int),
                state_clamped(st1, st.steps),
            ),
            end => end,
        }),
{
    let sub = s.subrange(i, s.len() as int);
    assert(sub[0] == s[i]);
    assert(sub.subrange(1, sub.len() as int) =~= s.subrange(i + 1, s.len() as int));
}

/// The exec run ended as the specification evaluator says: the same
/// outcome, and the final tape, input position, printed characters and
/// remaining budget equal the components of the evaluator's final state.
pub open spec fn matches_end(
    end: EvalEnd,
    r: Result<Progress, RuntimeError>,
    m: Memory,
    vals: Seq<isize>,
    next: int,
    out: Seq<char>,
    steps: u64,
) -> bool {
    match end {
        EvalEnd::Done(st) => {
            &&& r == Ok::<Progress, RuntimeError>(Progress::Completed)
            &&& m.cells() == st.cells
            &&& m.ptr() == st.ptr
            &&& vals == st.inputs
            &&& next == st.next_input
            &&& out == st.output
            &&& steps == st.steps
        },
        EvalEnd::Stopped(st) => {
            &&& r == Ok::<Progress, RuntimeError>(Progress::OutOfSteps)
            &&& m.cells() == st.cells
            &&& m.ptr() == st.ptr
            &&& vals == st.inputs
            &&& next == st.next_input
            &&& out == st.output
            &&& steps == st.steps
        },
        EvalEnd::Failed(st, err) => {
            &&& r == Err::<Progress, RuntimeError>(err)
            &&& m.cells() == st.cells
            &&& m.ptr() == st.ptr
            &&& vals == st.inputs
            &&& next == st.next_input
            &&& out == st.output
            &&& steps == st.steps
        },
    }
}

/// The state a scripted run stands in: the tape, the script's values and
/// position, the buffer's characters, and the remaining budget.
spec fn chan_state(m: Memory, i: InputSource, o: OutputSink, steps: u64) -> EvalState {
    EvalState {
        cells: m.cells(),
        ptr: m.ptr(),
        inputs: i->Script_0@,
        next_input: i->Script_1 as int,
        output: o->Buffer_0@,
        steps: steps as nat,
    }
}

/// Walks the instruction tree once against the given tape and channels.
///
/// Each loop-condition re-check consumes one step of the budget; when it
/// runs out the walk stops with [`Progress::OutOfSteps`]. Whatever happens,
/// the tape stays valid and never shrinks, the budget never grows, and the
/// channels only advance: a buffer keeps everything already printed, a
/// script never rewinds.
pub fn execute_internal(
    memory: &mut Memory,
    input: &mut InputSource,
    output: &mut OutputSink,
    expressions: &Vec<Expression>,
    steps: &mut u64,
) -> (r: Result<Progress, RuntimeError>)
    requires
        old(memory).inv(),
        exprs_wf(expressions@),
    ensures
        final(memory).inv(),
        final(memory).cells().len() >= old(memory).cells().len(),
        *final(steps) <= *old(steps),
        source_extends(*old(input), *final(input)),
        sink_extends(*old(output), *final(output)),
        expressions@.len() == 0 ==> (r == Ok::<Progress, RuntimeError>(Progress::Completed)
            && *final(memory) == *old(memory) && *final(input) == *old(input) && *final(output)
            == *old(output) && *final(steps) == *old(steps)),
        r == Ok::<Progress, RuntimeError>(Progress::OutOfSteps) ==> *final(steps) == 0,
        no_loops(expressions@) ==> (*final(steps) == *old(steps) && r != Ok::<
            Progress,
            RuntimeError,
        >(Progress::OutOfSteps)),
        (*old(input)) matches InputSource::Script(vals0, n0) ==> ((*old(output))
            matches OutputSink::Buffer(buf0) ==> ((*final(input)) matches InputSource::Script(
            vals1,
            n1,
        ) ==> ((*final(output)) matches OutputSink::Buffer(buf1) ==> matches_end(
            eval_seq(
                expressions@,
                EvalState {
                    cells: old(memory).cells(),
                    ptr: old(memory).ptr(),
                    inputs: vals0@,
                    next_input: n0 as int,
                    output: buf0@,
                    steps: *old(steps) as nat,
                },
            ),
            r,
            *final(memory),
            vals1@,
            n1 as int,
            buf1@,
            *final(steps),
        )))),
    decreases expressions@,
{
    let ghost t = expressions@;
    let ghost scripted = (*old(input)) is Script && (*old(output)) is Buffer;
    let ghost target = eval_seq(
        t,
        chan_state(*old(memory), *old(input), *old(output), *old(steps)),
    );
    let mut index: usize = 0;
    proof {
        assert(t.subrange(0, t.len() as int) =~= t);
    }
    while index < expressions.len()
        invariant
            t == expressions@,
            scripted == ((*old(input)) is Script && (*old(output)) is Buffer),
            target == eval_seq(
                t,
                chan_state(*old(memory), *old(input), *old(output), *old(steps)),
            ),
            index <= t.len(),
            exprs_wf(t),
            memory.inv(),
            memory.cells().len() >= old(memory).cells().len(),
            *steps <= *old(steps),
            source_extends(*old(input), *input),
            sink_extends(*old(output), *output),
            t.len() == 0 ==> (*memory == *old(memory) && *input == *old(input) && *output == *old(
                output,
            ) && *steps == *old(steps)),
            no_loops(t) ==> *steps == *old(steps),
            scripted ==> ((*input) is Script && (*output) is Buffer && eval_seq(
                t.subrange(index as int, t.len() as int),
                chan_state(*memory, *input, *output, *steps),
            ) == target),
        decreases t.len() - index,
    {
        proof {
            assert(t.subrange(0, t.len() as int) =~= t);
        }
        let ghost cur0 = chan_state(*memory, *input, *output, *steps);
        let expression = &expressions[index];
        match expression {
            Expression::MovePointer(x) => {
                let result = memory.move_pointer(x);
                match result {
                    Err(e) => {
                        proof {
                            if scripted {
                                assert(t[index as int] == Expression::MovePointer(*x));
                                lemma_seq_step(t, index as int, cur0);
                                assert(eval_instr(t[index as int], cur0) == EvalEnd::Failed(
                                    cur0,
                                    RuntimeError::IllegalMemoryAccess(),
                                ));
                            }
                        }
                        return Err(e);
                    },
                    Ok(()) => {
                        proof {
                            if scripted {
                                assert(t[index as int] == Expression::MovePointer(*x));
                                lemma_seq_step(t, index as int, cur0);
                                let now = chan_state(*memory, *input, *output, *steps);
                                assert(now.cells =~= (if cur0.ptr + (*x as int)
                                    < cur0.cells.len() {
                                    cur0.cells
                                } else {
                                    cur0.cells + Seq::new(
                                        (cur0.ptr + (*x as int) + 1 - cur0.cells.len()) as nat,
                                        |i: int| 0isize,
                                    )
                                }));
                                assert(eval_instr(t[index as int], cur0) == EvalEnd::Done(now));
                            }
                        }
                    },
                }
            },
            Expression::ModifyRegister(x) => {
                memory.modify_current_register_value(x);
                proof {
                    if scripted {
                        assert(t[index as int] == Expression::ModifyRegister(*x));
                        lemma_seq_step(t, index as int, cur0);
                        assert(eval_instr(t[index as int], cur0) == EvalEnd::Done(
                            chan_state(*memory, *input, *output, *steps),
                        ));
                    }
                }
            },
            Expression::Loop(exp) => {
                proof {
                    assert(expr_wf(t[index as int]));
                }
                while memory.get_current_register_value() != 0
                    invariant
                        t == expressions@,
                        scripted == ((*old(input)) is Script && (*old(output)) is Buffer),
                        target == eval_seq(
                            t,
                            chan_state(*old(memory), *old(input), *old(output), *old(steps)),
                        ),
                        index < t.len(),
                        t[index as int] == Expression::Loop(*exp),
                        exprs_wf(exp@),
                        memory.inv(),
                        memory.cells().len() >= old(memory).cells().len(),
                        *steps <= *old(steps),
                        source_extends(*old(input), *input),
                        sink_extends(*old(output), *output),
                        scripted ==> ((*input) is Script && (*output) is Buffer && eval_seq(
                            t.subrange(index as int, t.len() as int),
                            chan_state(*memory, *input, *output, *steps),
                        ) == target),
                    decreases *steps,
                {
                    let ghost lcur = chan_state(*memory, *input, *output, *steps);
                    if *steps == 0 {
                        proof {
                            if scripted {
                                lemma_seq_step(t, index as int, lcur);
                                assert(eval_instr(t[index as int], lcur) == EvalEnd::Stopped(lcur));
                            }
                        }
                        return Ok(Progress::OutOfSteps);
                    }
                    *steps = *steps - 1;
                    let ghost input_before = *input;
                    let ghost output_before = *output;
                    let ghost st1 = chan_state(*memory, *input, *output, *steps);
                    proof {
                        let ghost ev = t[index as int];
                        assert(decreases_to!(t => ev));
                        assert(ev == Expression::Loop(*exp));
                        assert(decreases_to!(ev => ev->Loop_0));
                        assert(decreases_to!(ev->Loop_0 => exp@));
                        assert(decreases_to!(t => exp@));
                    }
                    let result = execute_internal(memory, input, output, exp, steps);
                    proof {
                        lemma_source_extends_trans(*old(input), input_before, *input);
                        lemma_sink_extends_trans(*old(output), output_before, *output);
                    }
                    match result {
                        Err(e) => {
                            proof {
                                if scripted {
                                    lemma_seq_step(t, index as int, lcur);
                                    assert(eval_seq(exp@, st1) == EvalEnd::Failed(
                                        chan_state(*memory, *input, *output, *steps),
                                        e,
                                    ));
                                    assert(eval_instr(t[index as int], lcur) == EvalEnd::Failed(
                                        chan_state(*memory, *input, *output, *steps),
                                        e,
                                    ));
                                }
                            }
                            return Err(e);
                        },
                        Ok(Progress::OutOfSteps) => {
                            proof {
                                if scripted {
                                    lemma_seq_step(t, index as int, lcur);
                                    assert(eval_seq(exp@, st1) == EvalEnd::Stopped(
                                        chan_state(*memory, *input, *output, *steps),
                                    ));
                                    assert(eval_instr(t[index as int], lcur) == EvalEnd::Stopped(
                                        chan_state(*memory, *input, *output, *steps),
                                    ));
                                }
                            }
                            return Ok(Progress::OutOfSteps);
                        },
                        Ok(Progress::Completed) => {
                            proof {
                                if scripted {
                                    let st2 = chan_state(*memory, *input, *output, *steps);
                                    assert(eval_seq(exp@, st1) == EvalEnd::Done(st2));
                                    assert(state_clamped(st2, st1.steps) == st2);
                                    assert(eval_loop(exp@, lcur) == eval_loop(exp@, st2));
                                    lemma_seq_step(t, index as int, lcur);
                                    lemma_seq_step(t, index as int, st2);
                                    lemma_eval_instr_spends(t[index as int], st2);
                                    assert(eval_instr(t[index as int], lcur) == eval_instr(
                                        t[index as int],
                                        st2,
                                    ));
                                    match eval_instr(t[index as int], st2) {
                                        EvalEnd::Done(stf) => {
                                            assert(state_clamped(stf, lcur.steps) == stf);
                                            assert(state_clamped(stf, st2.steps) == stf);
                                        },
                                        _ => {},
                                    }
                                    assert(eval_seq(
                                        t.subrange(index as int, t.len() as int),
                                        st2,
                                    ) == target);
                                }
                            }
                        },
                    }
                }
                proof {
                    if scripted {
                        let lend = chan_state(*memory, *input, *output, *steps);
                        lemma_seq_step(t, index as int, lend);
                        assert(eval_instr(t[index as int], lend) == EvalEnd::Done(lend));
                        assert(state_clamped(lend, lend.steps) == lend);
                    }
                }
            },
            Expression::PrintRegister => {
                let v = memory.get_current_register_value();
                if v < 0 || v > 0x10FFFF {
                    proof {
                        if scripted {
                            lemma_seq_step(t, index as int, cur0);
                            assert(eval_instr(t[index as int], cur0) == EvalEnd::Failed(
                                cur0,
                                RuntimeError::UnableToPrintValueAsCharacter(),
                            ));
                        }
                    }
                    return Err(RuntimeError::UnableToPrintValueAsCharacter());
                }
                let raw: u32 = v as u32;
                match char_from_u32(raw) {
                    Some(character) => {
                        let ghost output_before = *output;
                        output.emit(character);
                        proof {
                            lemma_sink_extends_trans(*old(output), output_before, *output);
                            if scripted {
                                lemma_seq_step(t, index as int, cur0);
                                assert(raw as int == v as int);
                                assert(character as int == v as int);
                                assert(((cur0.cells[cur0.ptr] as int) as char) as int == v as int);
                                assert(character == ((cur0.cells[cur0.ptr] as int) as char));
                                assert(eval_instr(t[index as int], cur0) == EvalEnd::Done(
                                    chan_state(*memory, *input, *output, *steps),
                                ));
                            }
                        }
                    },
                    None => {
                        proof {
                            if scripted {
                                lemma_seq_step(t, index as int, cur0);
                                assert(eval_instr(t[index as int], cur0) == EvalEnd::Failed(
                                    cur0,
                                    RuntimeError::UnableToPrintValueAsCharacter(),
                                ));
                            }
                        }
                        return Err(RuntimeError::UnableToPrintValueAsCharacter());
                    },
                }
            },
            Expression::ReadToRegister => {
                let ghost input_before = *input;
                let value = input.read_value();
                proof {
                    lemma_source_extends_trans(*old(input), input_before, *input);
                }
                memory.set_current_register_value(value);
                proof {
                    if scripted {
                        lemma_seq_step(t, index as int, cur0);
                        assert(eval_instr(t[index as int], cur0) == EvalEnd::Done(
                            chan_state(*memory, *input, *output, *steps),
                        ));
                    }
                }
            },
        }
        index += 1;
    }
    proof {
        if scripted {
            let done = chan_state(*memory, *input, *output, *steps);
            assert(t.subrange(index as int, t.len() as int).len() == 0);
            assert(eval_seq(t.subrange(index as int, t.len() as int), done) == EvalEnd::Done(done));
        }
    }
    Ok(Progress::Completed)
}

/// Executes the instruction tree to completion against a fresh tape and the
/// console, or stops at the first faulting operation. The step budget is
/// the largest a `u64` can hold — beyond any run that ever finishes — so
/// [`Progress::OutOfSteps`] marks a program that would run essentially
/// forever.
///
/// The full semantics of a run is stated on [`execute_internal`], whose
/// contract equates a run over scripted channels with [`eval_seq`]. A
/// console run admits no such clause here: the input values it would be
/// stated over exist only once the run has read them, which is beyond what
/// these contracts can carry; what can be said without them stands below.
pub fn execute(expressions: Vec<Expression>) -> (r: Result<Progress, RuntimeError>)
    requires
        exprs_wf(expressions@),
    ensures
        expressions@.len() == 0 ==> r == Ok::<Progress, RuntimeError>(Progress::Completed),
        no_loops(expressions@) ==> r != Ok::<Progress, RuntimeError>(Progress::OutOfSteps),
{
    let mut memory = Memory::new();
    let mut input = InputSource::Console;
    let mut output = OutputSink::Console;
    let mut steps: u64 = u64::MAX;
    execute_internal(&mut memory, &mut input, &mut output, &expressions, &mut steps)
}

} // verus!
