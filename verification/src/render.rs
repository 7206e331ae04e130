//! Rendering of error messages as plain strings.

use vstd::prelude::*;

verus! {

/// The character of one decimal digit.
pub open spec fn digit_char(d: int) -> char {
    (('0' as int) + d) as char
}

/// The decimal rendering of a non-negative number, most significant digit
/// first, without sign or padding — what `Display` prints for it.
pub open spec fn dec_digits(n: int) -> Seq<char>
    decreases n,
{
    if n < 10 {
        seq![digit_char(n)]
    } else {
        dec_digits(n / 10).push(digit_char(n % 10))
    }
}

/// Relies on the `format!` macro of std: a `usize` renders as its decimal
/// digits and a `char` as itself, spliced into the literal text.
#[verifier::external_body]
pub(crate) fn render_unrecognized(symbol: char, index: usize) -> (r: String)
    ensures
        r@ == "Unrecognized symbol '"@ + seq![symbol] + "' at index "@ + dec_digits(index as int)
            + "."@,
{
    format!("Unrecognized symbol '{}' at index {}.", symbol, index)
}

/// Relies on the `format!` macro of std: a `usize` renders as its decimal
/// digits, spliced into the literal text.
#[verifier::external_body]
pub(crate) fn render_unmatched(opens: usize, closes: usize) -> (r: String)
    ensures
        r@ == "Unmatched brackets. "@ + dec_digits(opens as int) + " opening and "@ + dec_digits(
            closes as int,
        ) + " closing"@,
{
    format!("Unmatched brackets. {} opening and {} closing", opens, closes)
}

} // verus!
