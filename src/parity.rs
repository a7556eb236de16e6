//! Parity of a number read as text.
use vstd::prelude::*;

use crate::paradigms::is_even;
use crate::number_text::{line_value, parse_number, InputError};

verus! {

/// Whether a number is divisible by two.
#[derive(Clone, Copy, Debug, PartialEq, Eq, Structural)]
pub enum Parity {
    Even,
    Odd,
}

impl Parity {
    /// The word printed for this parity.
    pub fn label(&self) -> (r: &'static str)
        ensures
            *self == Parity::Even ==> r@ == "Even"@,
            *self == Parity::Odd ==> r@ == "Odd"@,
    {
        match self {
            Parity::Even => "Even",
            Parity::Odd => "Odd",
        }
    }
}

/// The parity of `n` as a mathematical integer.
pub open spec fn parity_of(n: int) -> Parity {
    if n % 2 == 0 {
        Parity::Even
    } else {
        Parity::Odd
    }
}

/// Classifies `n` as even or odd; negative numbers follow the same rule.
pub fn classify(n: i32) -> (r: Parity)
    ensures
        r == parity_of(n as int),
{
    if is_even(n) {
        Parity::Even
    } else {
        Parity::Odd
    }
}

/// Reads the number on `line` and classifies it; a line that holds no
/// number within the range of `i32` is a parse failure.
pub fn check_parity(line: &str) -> (r: Result<Parity, InputError>)
    ensures
        r == (match line_value(line@) {
            Some(v) => Ok(parity_of(v as int)),
            None => Err(InputError::ParseFailure),
        }),
{
    match parse_number(line) {
        Ok(n) => Ok(classify(n)),
        Err(e) => Err(e),
    }
}

} // verus!
