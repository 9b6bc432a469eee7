//! The trusted boundary to the arithmetic evaluator. The evaluator is a black
//! box: its verdict on a given text is named, never described, so nothing
//! downstream depends on how it computes.

use vstd::prelude::*;

verus! {

/// What the arithmetic evaluator returns for the text `s`: `Some(v)` when the
/// text evaluates to the integer `v`, `None` when the evaluator rejects it
/// (syntax error, non-integer result). The result depends on the text alone.
pub uninterp spec fn arith_eval(s: Seq<char>) -> Option<i64>;

/// Relies on evalexpr's `eval` and `Value::as_int`: evaluates the text over
/// an empty context and moves the integer out of the resulting value. With no
/// context and no entropy-dependent builtins in this build, the outcome is a
/// function of the text alone; on rejection, evalexpr's message is returned.
#[verifier::external_body]
pub(crate) fn eval_int(s: &str) -> (r: Result<i64, String>)
    ensures
        match r {
            Ok(v) => arith_eval(s@) == Some(v),
            Err(_) => arith_eval(s@) is None,
        },
{
    match evalexpr::eval(s) {
        Ok(value) => match value.as_int() {
            Ok(v) => Ok(v),
            Err(e) => Err(e.to_string()),
        },
        Err(e) => Err(e.to_string()),
    }
}

} // verus!
