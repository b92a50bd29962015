use letsroll::actions::Action;
use letsroll::dice::{DiceGenerator, FudgeDice, FudgeRoll, NumericDice, Roll, RollRequest};

#[test]
fn numeric_roll_to_string() {
    let mut dice = DiceGenerator::new();
    assert_eq!(
        dice.roll(1, &NumericDice::ConstDice(20))[0].to_string(),
        "20"
    );
}

#[test]
fn fudge_roll_to_string() {
    let mut dice = DiceGenerator::new();
    assert_eq!(
        dice.roll(1, &FudgeDice::ConstDice(FudgeRoll::Blank))[0].to_string(),
        "0"
    );
    assert_eq!(
        dice.roll(1, &FudgeDice::ConstDice(FudgeRoll::Minus))[0].to_string(),
        "-"
    );
    assert_eq!(
        dice.roll(1, &FudgeDice::ConstDice(FudgeRoll::Plus))[0].to_string(),
        "+"
    );
}

#[test]
fn numbered_dice_to_string() {
    assert_eq!(NumericDice::NumberedDice(20).to_string(), "D20");
}

#[test]
fn fudge_dice_to_string() {
    assert_eq!(FudgeDice::FudgeDice.to_string(), "F");
}

#[test]
fn const_dice_to_string() {
    assert_eq!(NumericDice::ConstDice(42).to_string(), "+42");
}

#[test]
fn repeating_dice_to_string() {
    assert_eq!(
        NumericDice::RepeatingDice(vec![1, 2, 3]).to_string(),
        "[1,2,3,...]"
    );
}

#[test]
fn dice_request_to_string() {
    assert_eq!(RollRequest::new(5, FudgeDice::FudgeDice).to_string(), "5F");
    assert_eq!(
        RollRequest::new(1, NumericDice::NumberedDice(6)).to_string(),
        "1D6"
    );
    assert_eq!(
        RollRequest::new(10, NumericDice::NumberedDice(12))
            .add_id(Some(String::from("FIRE")))
            .add_action(Action::KeepBest(1))
            .to_string(),
        "FIRE: 10D12"
    );
}
