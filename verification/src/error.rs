//! The errors that dice parsing, rolling and solving can return.

use vstd::prelude::*;

verus! {

/// Things that can go wrong while performing a roll.
#[derive(Clone, Debug)]
pub enum DiceRollError {
    /// Adding the partial sum (first field) and the latest draw (second field)
    /// would exceed `u32::MAX`.
    IntegerOverFlow(u32, u32),
}

/// Things that can go wrong while building a `DiceRoll`.
#[derive(Clone, Debug)]
pub enum DiceError {
    /// The side count is below the minimum of 2.
    InvalidSides(u32),

    /// The roll count is below the minimum of 1.
    InvalidRolls(u32),

    /// The sides group of the given token text does not fit in `u32`.
    FailedToParseSides(String),

    /// The rolls group of the given token text does not fit in `u32`.
    FailedToParseRolls(String),

    /// The given text is not of the form `<rolls>d<sides>`.
    InvalidExpression(String),
}

/// Things that can go wrong while solving a whole expression. The `String`
/// carried by the first two variants is the dice token text that failed.
#[derive(Clone, Debug)]
pub enum SolveError {
    /// A dice token could not be parsed or validated.
    Token(DiceError, String),

    /// A roll of a valid dice token overflowed.
    Roll(DiceRollError, String),

    /// The arithmetic evaluator rejected the fully substituted expression;
    /// the `String` is its message.
    Evaluation(String),
}

} // verus!
