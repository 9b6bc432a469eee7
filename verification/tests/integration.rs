use dicelib::error::DiceError;
use dicelib::error::DiceRollError;
use dicelib::error::SolveError;
use dicelib::solve_dice_expression;

const TEST_SEED: u64 = 42;

#[test]
fn solve_dice_expression_can_do_basic_math() {
    assert_eq!(
        4,
        solve_dice_expression(&String::from("2 + 2"), None)
            .unwrap()
            .result
    );
}

#[test]
fn seeded_rolls_are_deterministic() {
    let seed = Some(TEST_SEED);
    let rolls = ["2d6", "1d20", "2d8", "9d4", "1d12"];
    for s in &rolls {
        let a = solve_dice_expression(&s.to_string(), seed).unwrap();
        let b = solve_dice_expression(&s.to_string(), seed).unwrap();

        assert_eq!(a.result, b.result);
        assert_eq!(a.rolled_expression, b.rolled_expression);
    }
}

#[test]
fn multiple_rolls() {
    let a = solve_dice_expression(&"1d6 + 1d6".to_string(), None).unwrap();
    assert!((2..=12).contains(&a.result))
}

#[test]
fn fuzz_artifacts_dont_cause_crashes_anymore() {
    let inputs = vec![
        "6d0%",
        "994d01$",
        "2222225d22225d||?",
        "!-0d11111111111d//00,",
    ];
    for s in &inputs {
        assert!(solve_dice_expression(&s.to_string(), None).is_err());
    }
}

#[test]
fn pure_arithmetic_passes_through_unchanged() {
    let out = solve_dice_expression("2 + 2", None).unwrap();
    assert_eq!(out.result, 4);
    assert_eq!(out.rolled_expression, "2 + 2");
}

#[test]
fn single_token_substitutes_its_own_roll() {
    let out = solve_dice_expression("1d6", Some(TEST_SEED)).unwrap();
    assert!((1..=6).contains(&out.result));
    assert_eq!(out.rolled_expression, out.result.to_string());
}

#[test]
fn token_in_context_keeps_surrounding_text() {
    let out = solve_dice_expression("2d6 + 3", Some(TEST_SEED)).unwrap();
    assert!((5..=15).contains(&out.result));
    assert!(out.rolled_expression.ends_with(" + 3"));
    assert_eq!(
        out.rolled_expression,
        format!("{} + 3", out.result - 3)
    );
}

#[test]
fn invalid_sides_is_reported_with_its_token() {
    let err = solve_dice_expression("6d0%", None).unwrap_err();
    assert!(matches!(
        err,
        SolveError::Token(DiceError::InvalidSides(0), ref ctx) if ctx == "6d0"
    ));
}

#[test]
fn invalid_rolls_is_reported_with_its_token() {
    let err = solve_dice_expression("0d5 + 1", None).unwrap_err();
    assert!(matches!(
        err,
        SolveError::Token(DiceError::InvalidRolls(0), ref ctx) if ctx == "0d5"
    ));
}

#[test]
fn first_failing_token_wins() {
    let err = solve_dice_expression("6d0 + 0d5", None).unwrap_err();
    assert!(matches!(
        err,
        SolveError::Token(DiceError::InvalidSides(0), ref ctx) if ctx == "6d0"
    ));
}

#[test]
fn oversized_token_overflows_instead_of_wrapping() {
    let err = solve_dice_expression("4294967295d4294967295", Some(TEST_SEED)).unwrap_err();
    match err {
        SolveError::Roll(DiceRollError::IntegerOverFlow(partial, draw), ctx) => {
            assert_eq!(ctx, "4294967295d4294967295");
            assert!(partial.checked_add(draw).is_none());
        }
        other => panic!("expected a roll overflow, got {:?}", other),
    }
}

#[test]
fn evaluator_rejection_is_an_evaluation_error() {
    let err = solve_dice_expression("1d6 +", Some(TEST_SEED)).unwrap_err();
    assert!(matches!(err, SolveError::Evaluation(_)));
}

#[test]
fn empty_input_is_rejected_not_crashed() {
    assert!(solve_dice_expression("", None).is_err());
}

#[test]
fn division_by_zero_is_rejected() {
    assert!(solve_dice_expression("1 / 0", None).is_err());
}

#[test]
fn non_integer_result_is_rejected() {
    let err = solve_dice_expression("1.5 + 1", None).unwrap_err();
    assert!(matches!(err, SolveError::Evaluation(_)));
}
