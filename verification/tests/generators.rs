use letsroll::generators::{Mock, NumberedDice, Roll};

#[test]
fn mock_generation() {
    let mock_value: u16 = 42;
    let mut gen = Mock::new(mock_value);
    let roll = gen.roll();
    assert_eq!(
        roll.dice, mock_value,
        "Mock generator didn't use the correct number of dice sides"
    );
    assert_eq!(
        roll.result, mock_value,
        "Mock generator should always roll as specified (expected {})",
        mock_value
    );
}

#[test]
fn generators_numbered_dice_generation() {
    let dice_sides: u16 = 42;
    let mut gen = NumberedDice::new(dice_sides);
    let roll = gen.roll();
    assert_eq!(
        roll.dice, dice_sides,
        "Numbered dice generator didn't use the correct number of dice sides"
    );
    assert!(
        roll.result > 0,
        "Numbered dice generator rolls should be > 0"
    );
    assert!(
        roll.result <= dice_sides,
        "Numbered dice generator rolls should be <= to the number of sides on the dice"
    );
}
