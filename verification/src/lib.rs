//! A library for evaluating tabletop-style dice-arithmetic expressions such
//! as `"2d6 + 1d4 - 3"`: every dice-notation token inside the string is
//! rolled against a random source, its sum is substituted back into the text,
//! and the resulting arithmetic expression is evaluated to an integer.

use vstd::prelude::*;

pub mod dice;
pub mod digits;
pub mod error;
pub mod eval;
pub mod rng;
pub mod scan;

use crate::dice::token_outcome;
use crate::dice::DiceRoll;
use crate::dice::TokenOutcome;
use crate::digits::is_digit_char;
use crate::digits::u32_to_decimal;
use crate::error::DiceRollError;
use crate::error::SolveError;
use crate::eval::arith_eval;
use crate::eval::eval_int;
use crate::scan::lemma_match_end_bounds;
use crate::scan::lemma_no_matches_passthrough;
use crate::scan::match_at;
use crate::scan::matches_from;
use crate::scan::scan_run_end;
use crate::scan::substituted_from;

verus! {

/// The result of solving a dice expression.
#[derive(Debug)]
pub struct DiceResult {
    /// The final value of the expression after rolling and evaluating.
    pub result: i64,

    /// The expression text after every dice token was replaced by its roll.
    pub rolled_expression: String,
}

/// `draws` fits the dice tokens `ms`: one value per token, every token valid,
/// and each value inside the achievable range of its token, from all rolls
/// drawing 1 up to all rolls drawing the full side count.
pub open spec fn draws_match(ms: Seq<Seq<char>>, draws: Seq<u32>) -> bool {
    &&& draws.len() == ms.len()
    &&& forall|n: int|
        0 <= n < ms.len() ==> ((#[trigger] token_outcome(ms[n])) matches TokenOutcome::Token(
            rolls,
            sides,
        ) && rolls <= draws[n] && draws[n] as int <= rolls as int * sides as int)
}

/// Every token before position `n` of `ms` is valid.
pub open spec fn all_valid_before(ms: Seq<Seq<char>>, n: int) -> bool {
    forall|m: int| 0 <= m < n ==> (#[trigger] token_outcome(ms[m])) is Token
}

/// Every token of `ms` is valid and so small that no roll of it can
/// overflow.
pub open spec fn all_tokens_small(ms: Seq<Seq<char>>) -> bool {
    forall|n: int|
        0 <= n < ms.len() ==> ((#[trigger] token_outcome(ms[n])) matches TokenOutcome::Token(
            rolls,
            sides,
        ) && rolls as int * sides as int <= u32::MAX)
}

/// A successful solve of the expression text `s` reported `res`: some fitting
/// sequence of draws produced the rolled text, and the evaluator returned the
/// final value for exactly that text.
pub open spec fn solved_ok(s: Seq<char>, res: DiceResult) -> bool {
    exists|draws: Seq<u32>|
        #[trigger] draws_match(matches_from(s, 0), draws) && res.rolled_expression@
            == substituted_from(s, 0, draws) && arith_eval(substituted_from(s, 0, draws)) == Some(
            res.result,
        )
}

/// The error `e` is one that solving the expression text `s` may report: the
/// first failing token's own error with that token's text as context, a roll
/// overflow of a valid token (possible only when the token's range exceeds
/// `u32::MAX`) before which every token was valid, or the evaluator's
/// rejection of a fully substituted text.
pub open spec fn solve_error_for(s: Seq<char>, e: SolveError) -> bool {
    let ms = matches_from(s, 0);
    match e {
        SolveError::Token(de, ctx) => exists|n: int|
            0 <= n < ms.len() && all_valid_before(ms, n) && ctx@ == #[trigger] ms[n]
                && dice::dice_error_for(de, ms[n]),
        SolveError::Roll(re, ctx) => exists|n: int|
            0 <= n < ms.len() && all_valid_before(ms, n) && ctx@ == #[trigger] ms[n] && (
            token_outcome(ms[n]) matches TokenOutcome::Token(rolls, sides) && rolls as int
                * sides as int > u32::MAX && (re matches DiceRollError::IntegerOverFlow(
                partial,
                draw,
            ) && partial + draw > u32::MAX && 1 <= draw <= sides)),
        SolveError::Evaluation(_) => all_valid_before(ms, ms.len() as int) && exists|
            draws: Seq<u32>,
        |
            #[trigger] draws_match(ms, draws) && arith_eval(substituted_from(s, 0, draws)) is None,
    }
}

/// Solves a dice expression string by rolling each dice token in place and
/// then evaluating the resulting arithmetic expression. The random source is
/// seeded from `random_seed` when one is given, and from operating-system
/// entropy otherwise; tokens are rolled in scan order against that one
/// source.
///
/// Whatever the draws, the result is a faithful solve of the input: a
/// successful result carries the substituted text and the evaluator's value
/// for it; an expression with an invalid token is always rejected; and the
/// reported error is the first failing token's, a roll overflow that only an
/// oversized token can suffer, or the evaluator's rejection.
pub fn solve_dice_expression(expression: &str, random_seed: Option<u64>) -> (r: Result<
    DiceResult,
    SolveError,
>)
    ensures
        match r {
            Ok(res) => solved_ok(expression@, res),
            Err(e) => solve_error_for(expression@, e),
        },
        (exists|n: int|
            0 <= n < matches_from(expression@, 0).len() && !((#[trigger] token_outcome(
                matches_from(expression@, 0)[n],
            )) is Token)) ==> r is Err,
        all_tokens_small(matches_from(expression@, 0)) ==> r is Ok || (r matches Err(e)
            && e is Evaluation),
{
    let mut rng = match random_seed {
        Some(seed) => rng::rng_from_seed(seed),
        None => rng::rng_from_entropy(),
    };
    let ghost s = expression@;
    let ghost ms = matches_from(s, 0);
    let len = expression.unicode_len();
    let mut out = String::new();
    let mut i: usize = 0;
    let ghost mut consumed: Seq<Seq<char>> = Seq::empty();
    let ghost mut draws: Seq<u32> = Seq::empty();
    while i < len
        invariant
            i <= len,
            len == s.len(),
            s == expression@,
            ms == matches_from(s, 0),
            ms == consumed + matches_from(s, i as int),
            draws_match(consumed, draws),
            forall|rest: Seq<u32>|
                rest.len() == matches_from(s, i as int).len() ==> substituted_from(
                    s,
                    0,
                    draws + rest,
                ) == out@ + #[trigger] substituted_from(s, i as int, rest),
        decreases len - i,
    {
        let c = expression.get_char(i);
        let mut matched = false;
        if is_digit_char(c) {
            let j = scan_run_end(expression, i, len);
            if j < len && expression.get_char(j) == 'd' && j + 1 < len && is_digit_char(
                expression.get_char(j + 1),
            ) {
                matched = true;
                proof {
                    assert(match_at(s, i as int));
                    lemma_match_end_bounds(s, i as int);
                }
                let k = scan_run_end(expression, j + 1, len);
                let token_str = expression.substring_char(i, k);
                let ghost text = s.subrange(i as int, k as int);
                proof {
                    assert(matches_from(s, i as int) =~= seq![text] + matches_from(s, k as int));
                    assert(ms[consumed.len() as int] == text);
                    assert(forall|m: int|
                        0 <= m < consumed.len() ==> #[trigger] ms[m] == consumed[m]);
                }
                match DiceRoll::from_string(token_str) {
                    Ok(dice) => {
                        match dice.roll(&mut rng) {
                            Ok(value) => {
                                let rolled = u32_to_decimal(value);
                                out.append(rolled.as_str());
                                proof {
                                    let old_draws = draws;
                                    let old_out = out@.subrange(
                                        0,
                                        out@.len() - rolled@.len(),
                                    );
                                    assert(out@ == old_out + rolled@);
                                    consumed = consumed.push(text);
                                    draws = draws.push(value);
                                    assert(ms =~= consumed + matches_from(s, k as int));
                                    assert(draws_match(consumed, draws));
                                    assert forall|rest: Seq<u32>|
                                        rest.len() == matches_from(s, k as int).len() implies
                                        substituted_from(s, 0, draws + rest) == out@
                                            + #[trigger] substituted_from(
                                            s,
                                            k as int,
                                            rest,
                                        ) by {
                                        let lifted = seq![value] + rest;
                                        assert(lifted.len() == matches_from(
                                            s,
                                            i as int,
                                        ).len());
                                        assert(substituted_from(s, 0, old_draws + lifted)
                                            == old_out + substituted_from(
                                            s,
                                            i as int,
                                            lifted,
                                        ));
                                        assert(lifted.first() == value);
                                        assert(lifted.drop_first() =~= rest);
                                        assert(substituted_from(s, i as int, lifted)
                                            == digits::dec_rep(value as nat)
                                            + substituted_from(s, k as int, rest));
                                        assert(old_draws + lifted =~= draws + rest);
                                        assert(old_out + (rolled@ + substituted_from(
                                            s,
                                            k as int,
                                            rest,
                                        )) =~= out@ + substituted_from(s, k as int, rest));
                                    }
                                }
                                i = k;
                            },
                            Err(e) => {
                                let context = token_str.to_owned();
                                proof {
                                    let n = consumed.len() as int;
                                    assert(0 <= n < ms.len());
                                    assert(all_valid_before(ms, n));
                                    assert(context@ == ms[n]);
                                }
                                return Err(SolveError::Roll(e, context));
                            },
                        }
                    },
                    Err(e) => {
                        let context = token_str.to_owned();
                        proof {
                            let n = consumed.len() as int;
                            assert(0 <= n < ms.len());
                            assert(all_valid_before(ms, n));
                            assert(context@ == ms[n]);
                            assert(!(token_outcome(ms[n]) is Token));
                        }
                        return Err(SolveError::Token(e, context));
                    },
                }
            }
        }
        if !matched {
            out.push(c);
            proof {
                assert(!match_at(s, i as int));
                assert(matches_from(s, i as int) == matches_from(s, i as int + 1));
                let old_out = out@.subrange(0, out@.len() - 1);
                assert(out@ =~= old_out + seq![c]);
                assert forall|rest: Seq<u32>|
                    rest.len() == matches_from(s, i as int + 1).len() implies substituted_from(
                    s,
                    0,
                    draws + rest,
                ) == out@ + #[trigger] substituted_from(s, i as int + 1, rest) by {
                    assert(substituted_from(s, 0, draws + rest) == old_out + substituted_from(
                        s,
                        i as int,
                        rest,
                    ));
                    assert(substituted_from(s, i as int, rest) == seq![s[i as int]]
                        + substituted_from(s, i as int + 1, rest));
                    assert(old_out + (seq![c] + substituted_from(s, i as int + 1, rest)) =~= out@
                        + substituted_from(s, i as int + 1, rest));
                }
            }
            i = i + 1;
        }
    }
    proof {
        assert(matches_from(s, len as int) =~= Seq::<Seq<char>>::empty());
        assert(ms =~= consumed);
        assert(draws + Seq::<u32>::empty() =~= draws);
        assert(substituted_from(s, len as int, Seq::<u32>::empty()) =~= Seq::<char>::empty());
        assert(out@ + Seq::<char>::empty() =~= out@);
        assert(substituted_from(s, 0, draws) == out@);
    }
    match eval_int(out.as_str()) {
        Ok(value) => Ok(DiceResult { result: value, rolled_expression: out }),
        Err(message) => {
            proof {
                assert(all_valid_before(ms, ms.len() as int));
            }
            Err(SolveError::Evaluation(message))
        },
    }
}

/// The first error wins: when the expression holds an invalid token, and
/// every valid token before the first invalid one is too small for its roll
/// to overflow, solving reports exactly the first invalid token's error, with
/// that token's text as context.
pub proof fn lemma_first_invalid_token_wins(
    s: Seq<char>,
    r: Result<DiceResult, SolveError>,
    b: int,
)
    requires
        match r {
            Ok(res) => solved_ok(s, res),
            Err(e) => solve_error_for(s, e),
        },
        0 <= b < matches_from(s, 0).len(),
        !(token_outcome(matches_from(s, 0)[b]) is Token),
        all_valid_before(matches_from(s, 0), b),
        forall|m: int|
            0 <= m < b ==> ((#[trigger] token_outcome(matches_from(s, 0)[m]))
                matches TokenOutcome::Token(rolls, sides) && rolls as int * sides as int
                <= u32::MAX),
    ensures
        r matches Err(SolveError::Token(de, ctx)) && ctx@ == matches_from(s, 0)[b]
            && dice::dice_error_for(de, matches_from(s, 0)[b]),
{
    let ms = matches_from(s, 0);
    match r {
        Ok(res) => {
            let draws = choose|draws: Seq<u32>|
                #[trigger] draws_match(ms, draws) && res.rolled_expression@ == substituted_from(
                    s,
                    0,
                    draws,
                ) && arith_eval(substituted_from(s, 0, draws)) == Some(res.result);
            assert(token_outcome(ms[b]) is Token);
        },
        Err(e) => match e {
            SolveError::Token(de, ctx) => {
                let n = choose|n: int|
                    0 <= n < ms.len() && all_valid_before(ms, n) && ctx@ == #[trigger] ms[n]
                        && dice::dice_error_for(de, ms[n]);
                if n < b {
                    assert(token_outcome(ms[n]) is Token);
                } else if n > b {
                    assert(token_outcome(ms[b]) is Token);
                }
            },
            SolveError::Roll(re, ctx) => {
                let n = choose|n: int|
                    0 <= n < ms.len() && all_valid_before(ms, n) && ctx@ == #[trigger] ms[n] && (
                    token_outcome(ms[n]) matches TokenOutcome::Token(rolls, sides) && rolls as int
                        * sides as int > u32::MAX && (re matches DiceRollError::IntegerOverFlow(
                        partial,
                        draw,
                    ) && partial + draw > u32::MAX && 1 <= draw <= sides));
                if n < b {
                    assert(token_outcome(ms[n]) matches TokenOutcome::Token(rolls, sides)
                        && rolls as int * sides as int <= u32::MAX);
                } else if n > b {
                    assert(token_outcome(ms[b]) is Token);
                } else {
                    assert(token_outcome(ms[b]) is Token);
                }
            },
            SolveError::Evaluation(_) => {
                assert(token_outcome(ms[b]) is Token);
            },
        },
    }
}

/// All nondeterminism of a solve lives in the draw values: two successful
/// solves of the same expression whose rolled texts arose from the same
/// draws report the same rolled expression and the same result.
pub proof fn lemma_solve_deterministic_given_draws(
    s: Seq<char>,
    r1: DiceResult,
    r2: DiceResult,
    draws: Seq<u32>,
)
    requires
        draws_match(matches_from(s, 0), draws),
        r1.rolled_expression@ == substituted_from(s, 0, draws),
        arith_eval(substituted_from(s, 0, draws)) == Some(r1.result),
        r2.rolled_expression@ == substituted_from(s, 0, draws),
        arith_eval(substituted_from(s, 0, draws)) == Some(r2.result),
    ensures
        r1.rolled_expression@ == r2.rolled_expression@,
        r1.result == r2.result,
{
}

/// An expression in which the scanner finds no dice token is handed to the
/// evaluator unchanged: a successful solve of such an expression reports the
/// input itself as the rolled expression, and its value is the evaluator's
/// value for the input.
pub proof fn lemma_pure_arithmetic_passthrough(s: Seq<char>, res: DiceResult)
    requires
        matches_from(s, 0).len() == 0,
        solved_ok(s, res),
    ensures
        res.rolled_expression@ == s,
        arith_eval(s) == Some(res.result),
{
    let draws = choose|draws: Seq<u32>|
        #[trigger] draws_match(matches_from(s, 0), draws) && res.rolled_expression@
            == substituted_from(s, 0, draws) && arith_eval(substituted_from(s, 0, draws)) == Some(
            res.result,
        );
    assert(draws =~= Seq::<u32>::empty());
    lemma_no_matches_passthrough(s, 0);
    assert(s.skip(0) =~= s);
}

} // verus!
