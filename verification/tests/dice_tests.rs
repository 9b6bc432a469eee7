use rand::rngs::SmallRng;
use rand::SeedableRng;

use dicelib::dice::DiceRoll;
use dicelib::digits::u32_to_decimal;
use dicelib::error::DiceError;
use dicelib::error::DiceRollError;

#[test]
fn dice_from_string() {
    let mut rng = SmallRng::from_entropy();
    let d = DiceRoll::from_string(&"1d6".to_string());
    let r = d.unwrap().roll(&mut rng).unwrap();
    assert!((1..=6).contains(&r));
}

#[test]
fn roll_stays_in_achievable_range() {
    let mut rng = SmallRng::from_entropy();
    let d = DiceRoll::new(3, 6).unwrap();
    for _ in 0..100 {
        let r = d.roll(&mut rng).unwrap();
        assert!((3..=18).contains(&r));
    }
}

#[test]
fn parsing_twice_yields_identical_tokens() {
    let a = DiceRoll::from_string("3d6").unwrap();
    let b = DiceRoll::from_string("3d6").unwrap();
    assert_eq!(a.rolls, b.rolls);
    assert_eq!(a.sides, b.sides);
    assert_eq!(a.rolls, 3);
    assert_eq!(a.sides, 6);
}

#[test]
fn parse_rolls_and_sides_splits_the_groups() {
    let (rolls, sides) = DiceRoll::parse_rolls_and_sides(&"1d4".to_string()).unwrap();
    assert_eq!((rolls, sides), (1, 4));
    let (rolls, sides) = DiceRoll::parse_rolls_and_sides("010d0020").unwrap();
    assert_eq!((rolls, sides), (10, 20));
}

#[test]
fn new_rejects_too_few_rolls_then_too_few_sides() {
    assert!(matches!(DiceRoll::new(0, 6), Err(DiceError::InvalidRolls(0))));
    assert!(matches!(DiceRoll::new(1, 1), Err(DiceError::InvalidSides(1))));
    assert!(matches!(DiceRoll::new(0, 0), Err(DiceError::InvalidRolls(0))));
    let d = DiceRoll::new(1, 2).unwrap();
    assert_eq!((d.rolls, d.sides), (1, 2));
}

#[test]
fn from_string_rejects_text_that_is_not_one_token() {
    for text in ["", "abc", "d6", "3d", "3x6", "3d6 ", " 3d6", "1d6+1d6"] {
        assert!(matches!(
            DiceRoll::from_string(text),
            Err(DiceError::InvalidExpression(t)) if t == text
        ));
    }
}

#[test]
fn from_string_rejects_groups_that_do_not_fit() {
    assert!(matches!(
        DiceRoll::from_string("99999999999d6"),
        Err(DiceError::FailedToParseRolls(t)) if t == "99999999999d6"
    ));
    assert!(matches!(
        DiceRoll::from_string("1d99999999999"),
        Err(DiceError::FailedToParseSides(t)) if t == "1d99999999999"
    ));
}

#[test]
fn from_string_validates_the_parsed_values() {
    assert!(matches!(
        DiceRoll::from_string("0d6"),
        Err(DiceError::InvalidRolls(0))
    ));
    assert!(matches!(
        DiceRoll::from_string("6d0"),
        Err(DiceError::InvalidSides(0))
    ));
    assert!(matches!(
        DiceRoll::from_string("6d1"),
        Err(DiceError::InvalidSides(1))
    ));
}

#[test]
fn oversized_roll_reports_the_exact_overflowing_addition() {
    let d = DiceRoll::new(u32::MAX, u32::MAX).unwrap();
    let mut rng = SmallRng::seed_from_u64(7);
    match d.roll(&mut rng) {
        Err(DiceRollError::IntegerOverFlow(partial, draw)) => {
            assert!(partial.checked_add(draw).is_none());
            assert!(draw >= 1);
        }
        other => panic!("expected an overflow, got {:?}", other),
    }
}

#[test]
fn rolls_actually_vary() {
    let mut rng = SmallRng::from_entropy();
    let d = DiceRoll::new(1, 20).unwrap();
    let first = d.roll(&mut rng).unwrap();
    let varied = (0..50).any(|_| d.roll(&mut rng).unwrap() != first);
    assert!(varied);
}

#[test]
fn decimal_formatting_is_exact() {
    assert_eq!(u32_to_decimal(0), "0");
    assert_eq!(u32_to_decimal(7), "7");
    assert_eq!(u32_to_decimal(12345), "12345");
    assert_eq!(u32_to_decimal(u32::MAX), "4294967295");
}
