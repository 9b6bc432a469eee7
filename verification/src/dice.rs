//! A single dice token: parsing it from text of the form `<rolls>d<sides>`,
//! validating its bounds, and rolling it against a random source with
//! overflow-checked accumulation.

use vstd::prelude::*;

use crate::digits::dec_value;
use crate::digits::parse_digits;
use crate::error::DiceError;
use crate::error::DiceRollError;
use crate::rng;
use crate::scan::lemma_run_end;
use crate::scan::run_end;
use crate::scan::scan_run_end;

verus! {

/// Every dice token must be rollable at least once.
pub const MINIMUM_ROLLS: u32 = 1;

/// Every dice token must have at least two sides.
pub const MINIMUM_SIDES: u32 = 2;

/// The whole of `s` is one dice token: a non-empty digit run, then `'d'`,
/// then a non-empty digit run reaching the end.
pub open spec fn strict_match(s: Seq<char>) -> bool {
    let j = run_end(s, 0);
    &&& 0 < j < s.len()
    &&& s[j] == 'd'
    &&& j + 1 < s.len()
    &&& run_end(s, j + 1) == s.len()
}

/// The rolls group of a token text: the digits before the `'d'`.
pub open spec fn rolls_text(s: Seq<char>) -> Seq<char> {
    s.subrange(0, run_end(s, 0))
}

/// The sides group of a token text: the digits after the `'d'`.
pub open spec fn sides_text(s: Seq<char>) -> Seq<char> {
    s.subrange(run_end(s, 0) + 1, s.len() as int)
}

/// What parsing and validating a candidate token text must yield.
pub ghost enum TokenOutcome {
    /// The text is not of the form `<digits>d<digits>`.
    Malformed,
    /// The rolls group does not fit in `u32`.
    RollsOverflow,
    /// The sides group does not fit in `u32`.
    SidesOverflow,
    /// The rolls value is below `MINIMUM_ROLLS`.
    BadRolls(u32),
    /// The sides value is below `MINIMUM_SIDES`.
    BadSides(u32),
    /// A valid token with its rolls and sides values.
    Token(u32, u32),
}

/// The outcome owed for the token text `s`: the checks apply in this order,
/// and the first to fail names the outcome.
pub open spec fn token_outcome(s: Seq<char>) -> TokenOutcome {
    if !strict_match(s) {
        TokenOutcome::Malformed
    } else if dec_value(rolls_text(s)) > u32::MAX {
        TokenOutcome::RollsOverflow
    } else if dec_value(sides_text(s)) > u32::MAX {
        TokenOutcome::SidesOverflow
    } else if dec_value(rolls_text(s)) < MINIMUM_ROLLS {
        TokenOutcome::BadRolls(dec_value(rolls_text(s)) as u32)
    } else if dec_value(sides_text(s)) < MINIMUM_SIDES {
        TokenOutcome::BadSides(dec_value(sides_text(s)) as u32)
    } else {
        TokenOutcome::Token(dec_value(rolls_text(s)) as u32, dec_value(sides_text(s)) as u32)
    }
}

/// The error `e` is the one owed for the candidate token text `text`: its
/// variant names the outcome that `token_outcome` assigns to the text, and
/// where the variant carries the offending text or value, it is the right
/// one.
pub open spec fn dice_error_for(e: DiceError, text: Seq<char>) -> bool {
    match e {
        DiceError::InvalidExpression(t) => t@ == text && token_outcome(text) is Malformed,
        DiceError::FailedToParseRolls(t) => t@ == text && token_outcome(text) is RollsOverflow,
        DiceError::FailedToParseSides(t) => t@ == text && token_outcome(text) is SidesOverflow,
        DiceError::InvalidRolls(n) => token_outcome(text) == TokenOutcome::BadRolls(n),
        DiceError::InvalidSides(n) => token_outcome(text) == TokenOutcome::BadSides(n),
    }
}

/// Parsing is idempotent: the rolls and sides of a successfully parsed token
/// are a function of the text alone, so two parses of the same text yield
/// tokens with identical fields.
pub proof fn lemma_from_string_deterministic(text: Seq<char>, a: DiceRoll, b: DiceRoll)
    requires
        token_outcome(text) == TokenOutcome::Token(a.rolls, a.sides),
        token_outcome(text) == TokenOutcome::Token(b.rolls, b.sides),
    ensures
        a.rolls == b.rolls,
        a.sides == b.sides,
{
}

/// A dice roll in RPG terms, e.g. `3d6` means "roll a 6-sided die 3 times".
pub struct DiceRoll {
    /// How many times the dice will be rolled.
    pub rolls: u32,

    /// How many sides the dice has: a single roll is a value in `1..=sides`.
    pub sides: u32,
}

impl DiceRoll {
    /// The fields passed validation: at least one roll of a dice with at
    /// least two sides.
    pub open spec fn valid(self) -> bool {
        self.rolls >= MINIMUM_ROLLS && self.sides >= MINIMUM_SIDES
    }

    /// Creates a `DiceRoll`, rejecting too few rolls (checked first) or too
    /// few sides.
    pub fn new(rolls: u32, sides: u32) -> (r: Result<Self, DiceError>)
        ensures
            r is Ok <==> rolls >= MINIMUM_ROLLS && sides >= MINIMUM_SIDES,
            match r {
                Ok(d) => d.rolls == rolls && d.sides == sides && d.valid(),
                Err(e) => match e {
                    DiceError::InvalidRolls(n) => n == rolls && rolls < MINIMUM_ROLLS,
                    DiceError::InvalidSides(n) => n == sides && rolls >= MINIMUM_ROLLS && sides
                        < MINIMUM_SIDES,
                    _ => false,
                },
            },
    {
        if rolls < MINIMUM_ROLLS {
            return Err(DiceError::InvalidRolls(rolls));
        }
        if sides < MINIMUM_SIDES {
            return Err(DiceError::InvalidSides(sides));
        }
        Ok(Self { rolls, sides })
    }

    /// Splits a candidate token text into its rolls and sides values:
    /// rejects text that is not of the form `<digits>d<digits>`, and each
    /// group that does not fit in `u32`. No bounds are checked here; for a
    /// validated `DiceRoll`, use `from_string`.
    pub fn parse_rolls_and_sides(string: &str) -> (r: Result<(u32, u32), DiceError>)
        ensures
            match r {
                Ok((rolls, sides)) => {
                    &&& strict_match(string@)
                    &&& rolls == dec_value(rolls_text(string@))
                    &&& sides == dec_value(sides_text(string@))
                },
                Err(e) => match e {
                    DiceError::InvalidExpression(t) => t@ == string@ && !strict_match(string@),
                    DiceError::FailedToParseRolls(t) => {
                        &&& t@ == string@
                        &&& strict_match(string@)
                        &&& dec_value(rolls_text(string@)) > u32::MAX
                    },
                    DiceError::FailedToParseSides(t) => {
                        &&& t@ == string@
                        &&& strict_match(string@)
                        &&& dec_value(rolls_text(string@)) <= u32::MAX
                        &&& dec_value(sides_text(string@)) > u32::MAX
                    },
                    _ => false,
                },
            },
    {
        let len = string.unicode_len();
        let j = scan_run_end(string, 0, len);
        if j == 0 || j >= len || string.get_char(j) != 'd' || j + 1 >= len {
            return Err(DiceError::InvalidExpression(string.to_owned()));
        }
        let k = scan_run_end(string, j + 1, len);
        if k != len {
            return Err(DiceError::InvalidExpression(string.to_owned()));
        }
        proof {
            lemma_run_end(string@, 0);
            lemma_run_end(string@, j + 1);
        }
        let rolls = match parse_digits(string, 0, j) {
            Some(v) => v,
            None => {
                return Err(DiceError::FailedToParseRolls(string.to_owned()));
            },
        };
        let sides = match parse_digits(string, j + 1, len) {
            Some(v) => v,
            None => {
                return Err(DiceError::FailedToParseSides(string.to_owned()));
            },
        };
        Ok((rolls, sides))
    }

    /// Parses and validates a whole dice token, e.g. `"3d6"`: the result is
    /// exactly what `token_outcome` owes for the text.
    pub fn from_string(string: &str) -> (r: Result<Self, DiceError>)
        ensures
            match r {
                Ok(d) => token_outcome(string@) == TokenOutcome::Token(d.rolls, d.sides)
                    && d.valid(),
                Err(e) => dice_error_for(e, string@),
            },
    {
        let (rolls, sides) = match Self::parse_rolls_and_sides(string) {
            Ok(pair) => pair,
            Err(e) => {
                return Err(e);
            },
        };
        Self::new(rolls, sides)
    }

    /// Performs the roll: `rolls` independent draws, each in `1..=sides`,
    /// summed with overflow-checked addition. The sum of `rolls` draws lies
    /// in `rolls..=rolls * sides`; an overflow is reported with the exact
    /// partial sum and draw that could not be added, and can only happen at
    /// all when `rolls * sides` exceeds `u32::MAX`.
    pub fn roll(&self, rng: &mut rand::rngs::SmallRng) -> (r: Result<u32, DiceRollError>)
        requires
            self.valid(),
        ensures
            match r {
                Ok(sum) => self.rolls <= sum && sum <= self.rolls as int * self.sides as int,
                Err(e) => match e {
                    DiceRollError::IntegerOverFlow(partial, draw) => {
                        &&& partial + draw > u32::MAX
                        &&& 1 <= draw <= self.sides
                    },
                },
            },
            self.rolls as int * self.sides as int <= u32::MAX ==> r is Ok,
    {
        let mut result: u32 = 0;
        let mut t: u32 = 0;
        while t < self.rolls
            invariant
                self.valid(),
                t <= self.rolls,
                t <= result,
                result <= t as int * self.sides as int,
            decreases self.rolls - t,
        {
            let roll = rng::draw_uniform(rng, self.sides);
            result = match result.checked_add(roll) {
                Some(x) => x,
                None => {
                    proof {
                        assert(result + roll <= self.rolls as int * self.sides as int)
                            by (nonlinear_arith)
                            requires
                                result <= t as int * self.sides as int,
                                roll <= self.sides,
                                t as int + 1 <= self.rolls as int,
                                self.sides >= 0,
                        ;
                    }
                    return Err(DiceRollError::IntegerOverFlow(result, roll));
                },
            };
            proof {
                assert(result <= (t as int + 1) * self.sides as int) by (nonlinear_arith)
                    requires
                        result <= t as int * self.sides as int + self.sides as int,
                ;
            }
            t = t + 1;
        }
        Ok(result)
    }
}

} // verus!
