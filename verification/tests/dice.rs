use letsroll::dice::{DiceGenerator, FudgeDice, FudgeRoll, NumericDice, Roll};

#[test]
fn const_generation() {
    let mut dice = DiceGenerator::new();
    let const_value: u32 = 42;
    let roll_number: u8 = 5;
    let rolls = dice.roll(roll_number, &NumericDice::ConstDice(const_value));
    assert_eq!(rolls.len(), roll_number as usize);
    for roll in rolls.iter() {
        assert_eq!(*roll, const_value);
    }

    let const_value = FudgeRoll::Blank;
    let roll_number: u8 = 2;
    let rolls = dice.roll(roll_number, &FudgeDice::ConstDice(const_value));
    assert_eq!(rolls.len(), roll_number as usize);
    for roll in rolls.iter() {
        assert_eq!(*roll, const_value);
    }
}

#[test]
fn dice_numbered_dice_generation() {
    let mut dice = DiceGenerator::new();
    let dice_sides: u32 = 42;
    let roll_number: u8 = 5;
    let rolls = dice.roll(roll_number, &NumericDice::NumberedDice(dice_sides));
    assert_eq!(rolls.len(), roll_number as usize);
    for roll in rolls.iter() {
        assert!(*roll > 0, "Numbered dice generator rolls should be > 0");
        assert!(
            *roll <= dice_sides,
            "Numbered dice generator rolls should be <= to the number of sides on the dice"
        );
    }
}

#[test]
fn repeating_dice() {
    let mut dice = DiceGenerator::new();
    let repeating_values: Vec<u32> = vec![1, 2, 3, 4, 5];

    assert_eq!(
        dice.roll(0, &NumericDice::RepeatingDice(repeating_values.clone())),
        vec![]
    );
    assert_eq!(
        dice.roll(3, &NumericDice::RepeatingDice(repeating_values.clone())),
        vec![1, 2, 3]
    );
    assert_eq!(
        dice.roll(5, &NumericDice::RepeatingDice(repeating_values.clone())),
        vec![1, 2, 3, 4, 5]
    );
    assert_eq!(
        dice.roll(15, &NumericDice::RepeatingDice(repeating_values.clone())),
        vec![1, 2, 3, 4, 5, 1, 2, 3, 4, 5, 1, 2, 3, 4, 5]
    );
}

#[test]
fn repeating_dice_rejects_empty_values() {
    let result = NumericDice::repeating(vec![]);
    assert!(result.is_err());
    match result.unwrap_err().kind {
        letsroll::errors::ErrorKind::BadDice(_) => {}
        other => panic!("expected a BadDice error, got {:?}", other),
    }
    let result = NumericDice::repeating(vec![4, 2]);
    assert_eq!(result.unwrap(), NumericDice::RepeatingDice(vec![4, 2]));
}

#[test]
fn numeric_dice_max_value() {
    assert_eq!(NumericDice::ConstDice(42).get_max_value(), 42);
    assert_eq!(NumericDice::NumberedDice(20).get_max_value(), 20);
    assert_eq!(NumericDice::RepeatingDice(vec![3, 9, 7]).get_max_value(), 9);
}
