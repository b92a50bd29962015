use letsroll::actions::{
    Action, Apply, CountValues, Explode, FlipFlop, KeepBest, KeepWorst, MultiplyBy, Reroll,
    RerollBest, RerollWorst, Sum, TotalSum,
};
use letsroll::dice::{
    DiceGenerator, FudgeDice, FudgeRoll, FudgeRollRequest, FudgeRolls, NumericDice,
    NumericRollRequest, NumericRolls, RollRequest,
};
use letsroll::NumericSession;
use std::str::FromStr;

#[test]
fn transform_multiply() {
    let input: Vec<u32> = vec![1, 1, 1, 15, 100];
    let factor: u32 = 5;
    let expected = input.clone();
    let rolls_result = NumericRolls::new(
        &RollRequest::new(5, NumericDice::RepeatingDice(input)),
        &mut DiceGenerator::new(),
    );
    let output = rolls_result.multiply(factor);
    assert_eq!(output.rolls.len(), expected.len());
    for i in 0..expected.len() - 1 {
        assert_eq!(output.rolls[i], expected[i] * factor);
    }
}

#[test]
fn transform_flipflop() {
    let input: Vec<u32> = vec![1, 1, 1, 15, 100];
    let dice_request = NumericRollRequest::new(input.len() as u8, NumericDice::RepeatingDice(input));
    let rolls = NumericRolls::new(&dice_request, &mut DiceGenerator::new());
    let output = rolls.flip();
    let expected: Vec<u32> = vec![100, 100, 100, 510, 1];
    assert_eq!(output.rolls, expected);
}

#[test]
fn transform_sum() {
    let input: Vec<u32> = vec![1, 1, 1, 15, 100];
    let dice_request = NumericRollRequest::new(input.len() as u8, NumericDice::RepeatingDice(input));
    let rolls = NumericRolls::new(&dice_request, &mut DiceGenerator::new());
    let output = rolls.sum();
    let expected: Vec<u32> = vec![118];
    assert_eq!(output.rolls, expected);
}

#[test]
fn transform_reroll_num() {
    let input: Vec<u32> = vec![1, 1, 1, 15, 100];
    let dice_request = NumericRollRequest::new(input.len() as u8, NumericDice::RepeatingDice(input));
    let mut dice = DiceGenerator::new();
    let rolls = NumericRolls::new(&dice_request, &mut dice);
    let output = rolls.reroll(&mut dice, &vec![100]);
    let expected: Vec<u32> = vec![1, 1, 1, 15, 1];
    assert_eq!(output.rolls, expected);
}

#[test]
fn transform_reroll_fudge() {
    let input = vec![FudgeRoll::Blank, FudgeRoll::Plus, FudgeRoll::Minus];
    let dice_request = FudgeRollRequest::new(input.len() as u8, FudgeDice::RepeatingDice(input));
    let mut dice = DiceGenerator::new();
    let rolls = FudgeRolls::new(&dice_request, &mut dice);
    let output = rolls.reroll(&mut dice, &vec![FudgeRoll::Minus]);
    let expected = vec![FudgeRoll::Blank, FudgeRoll::Plus, FudgeRoll::Blank];
    assert_eq!(output.rolls, expected);
}

#[test]
fn transform_explode() {
    let input: Vec<u32> = vec![1, 2, 3, 2, 1];
    let dice_request = NumericRollRequest::new(input.len() as u8, NumericDice::RepeatingDice(input));
    let mut dice = DiceGenerator::new();
    let rolls = NumericRolls::new(&dice_request, &mut dice);
    let output = rolls.explode(&mut dice, &vec![2, 3]);
    let expected: Vec<u32> = vec![1, 2, 3, 2, 1, 1, 2, 3, 1, 2, 1];
    assert_eq!(output.rolls, expected);
}

#[test]
fn transform_keep_best() {
    let input: Vec<u32> = vec![1, 5, 3, 2, 5];
    let dice_request = NumericRollRequest::new(input.len() as u8, NumericDice::RepeatingDice(input));
    let mut dice = DiceGenerator::new();
    let rolls = NumericRolls::new(&dice_request, &mut dice);
    assert_eq!(rolls.keep_best(0).unwrap().rolls, vec![]);
    assert_eq!(rolls.keep_best(1).unwrap().rolls, vec![5]);
    assert_eq!(rolls.keep_best(2).unwrap().rolls, vec![5, 5]);
    assert_eq!(rolls.keep_best(3).unwrap().rolls, vec![3, 5, 5]);
    assert_eq!(rolls.keep_best(4).unwrap().rolls, vec![2, 3, 5, 5]);
    assert_eq!(rolls.keep_best(5).unwrap().rolls, vec![1, 2, 3, 5, 5]);
    assert!(!rolls.keep_best(8).is_ok());
}

#[test]
fn transform_keep_worst() {
    let input: Vec<u32> = vec![1, 5, 3, 2, 5];
    let dice_request = NumericRollRequest::new(input.len() as u8, NumericDice::RepeatingDice(input));
    let mut dice = DiceGenerator::new();
    let rolls = NumericRolls::new(&dice_request, &mut dice);
    assert_eq!(rolls.keep_worst(0).unwrap().rolls, vec![]);
    assert_eq!(rolls.keep_worst(1).unwrap().rolls, vec![1]);
    assert_eq!(rolls.keep_worst(2).unwrap().rolls, vec![1, 2]);
    assert_eq!(rolls.keep_worst(3).unwrap().rolls, vec![1, 2, 3]);
    assert_eq!(rolls.keep_worst(4).unwrap().rolls, vec![1, 2, 3, 5]);
    assert_eq!(rolls.keep_worst(5).unwrap().rolls, vec![1, 2, 3, 5, 5]);
    assert!(!rolls.keep_worst(8).is_ok());
}

#[test]
fn transform_reroll_best() {
    let input: Vec<u32> = vec![1, 2, 3, 4, 5];
    let dice_request = NumericRollRequest::new(input.len() as u8, NumericDice::RepeatingDice(input));
    let mut dice = DiceGenerator::new();
    let rolls = NumericRolls::new(&dice_request, &mut dice);
    assert_eq!(
        rolls.reroll_best(&mut dice, 0).unwrap().rolls,
        vec![1, 2, 3, 4, 5]
    );
    assert_eq!(
        rolls.reroll_best(&mut dice, 1).unwrap().rolls,
        vec![1, 2, 3, 4, 1]
    );
    assert_eq!(
        rolls.reroll_best(&mut dice, 2).unwrap().rolls,
        vec![1, 2, 3, 1, 2]
    );
    assert_eq!(
        rolls.reroll_best(&mut dice, 3).unwrap().rolls,
        vec![1, 2, 1, 2, 3]
    );
    assert_eq!(
        rolls.reroll_best(&mut dice, 4).unwrap().rolls,
        vec![1, 1, 2, 3, 4]
    );
    assert_eq!(
        rolls.reroll_best(&mut dice, 5).unwrap().rolls,
        vec![1, 2, 3, 4, 5]
    );
    assert!(!rolls.keep_best(8).is_ok());
}

#[test]
fn transform_reroll_worst() {
    let input: Vec<u32> = vec![5, 4, 3, 2, 1];
    let dice_request = NumericRollRequest::new(input.len() as u8, NumericDice::RepeatingDice(input));
    let mut dice = DiceGenerator::new();
    let rolls = NumericRolls::new(&dice_request, &mut dice);
    assert_eq!(
        rolls.reroll_worst(&mut dice, 0).unwrap().rolls,
        vec![1, 2, 3, 4, 5]
    );
    assert_eq!(
        rolls.reroll_worst(&mut dice, 1).unwrap().rolls,
        vec![2, 3, 4, 5, 5]
    );
    assert_eq!(
        rolls.reroll_worst(&mut dice, 2).unwrap().rolls,
        vec![3, 4, 5, 5, 4]
    );
    assert_eq!(
        rolls.reroll_worst(&mut dice, 3).unwrap().rolls,
        vec![4, 5, 5, 4, 3]
    );
    assert_eq!(
        rolls.reroll_worst(&mut dice, 4).unwrap().rolls,
        vec![5, 5, 4, 3, 2]
    );
    assert_eq!(
        rolls.reroll_worst(&mut dice, 5).unwrap().rolls,
        vec![5, 4, 3, 2, 1]
    );
    assert!(!rolls.reroll_worst(&mut dice, 8).is_ok());
}

#[test]
fn transform_total_sum() {
    let mut dice = DiceGenerator::new();
    let mut rolls: Vec<NumericRolls> = Vec::new();
    for i in 1..=5u32 {
        let dice_request = NumericRollRequest::new(1, NumericDice::ConstDice(i));
        rolls.push(NumericRolls::new(&dice_request, &mut dice));
    }
    let expected = NumericRolls {
        description: String::from(""),
        dice: NumericDice::AggregationResult,
        rolls: vec![15],
    };
    let output = rolls.total();

    assert_eq!(output.dice, expected.dice);
    assert_eq!(output.rolls[0], expected.rolls[0]);
}

#[test]
fn aggregation_count_values() {
    let session = NumericSession::from_str(&String::from("+5 +10 +5 +10 +5 +22")).unwrap();
    let session = session.count();
    assert_eq!(session.rolls.len(), 3);

    let count5 = session
        .rolls
        .iter()
        .find(|roll| roll.description == "COUNT(5)")
        .unwrap();
    assert_eq!(count5.rolls[0], 3);
    let count10 = session
        .rolls
        .iter()
        .find(|roll| roll.description == "COUNT(10)")
        .unwrap();
    assert_eq!(count10.rolls[0], 2);
    let count22 = session
        .rolls
        .iter()
        .find(|roll| roll.description == "COUNT(22)")
        .unwrap();
    assert_eq!(count22.rolls[0], 1);
}

#[test]
fn action_type_compatibilty() {
    test_action_implemented_for_types(Action::RerollNumeric(vec![1]), true, false);
    test_action_implemented_for_types(Action::RerollFudge(vec![FudgeRoll::Blank]), false, true);
    test_action_implemented_for_types(Action::Sum, true, false);
    test_action_implemented_for_types(Action::MultiplyBy(42), true, false);
    test_action_implemented_for_types(Action::FlipFlop, true, false);
    println!("coucou");
    test_action_implemented_for_types(Action::KeepBest(1), true, false);
    println!("coucou2");
    test_action_implemented_for_types(Action::KeepWorst(1), true, false);
}

/// Test the compatibility between actions and roll types
fn test_action_implemented_for_types(action: Action, test_num_types: bool, test_text_types: bool) {
    let dice_number: u8 = 5;
    let dice_val: u32 = 15;

    assert!(
        test_num_types || test_text_types,
        "This test function should be called with at least one type enabled"
    );
    let mut dice = DiceGenerator::new();
    let rolls = RollRequest::new(dice_number, NumericDice::ConstDice(dice_val))
        .add_action(action.clone())
        .roll(&mut dice);
    assert_eq!(test_num_types, rolls.is_ok());
    let rolls = RollRequest::new(dice_number, NumericDice::NumberedDice(dice_val))
        .add_action(action.clone())
        .roll(&mut dice);
    assert_eq!(test_num_types, rolls.is_ok());
    let rolls = FudgeRollRequest::new(dice_number, FudgeDice::FudgeDice)
        .add_action(action.clone())
        .roll(&mut dice);
    assert_eq!(test_text_types, rolls.is_ok());
}

#[test]
fn apply_rejects_total_on_single_rolls() {
    let mut dice = DiceGenerator::new();
    let rolls = NumericRolls::new(
        &NumericRollRequest::new(2, NumericDice::ConstDice(3)),
        &mut dice,
    );
    let result = rolls.apply(&Action::Total, &mut dice);
    match result.unwrap_err().kind {
        letsroll::errors::ErrorKind::IncompatibleAction(_) => {}
        other => panic!("expected an IncompatibleAction error, got {:?}", other),
    }
}

#[test]
fn multiply_overflow_is_a_parameter_error() {
    let mut dice = DiceGenerator::new();
    let rolls = NumericRolls::new(
        &NumericRollRequest::new(1, NumericDice::ConstDice(4294967295)),
        &mut dice,
    );
    let result = rolls.apply(&Action::MultiplyBy(2), &mut dice);
    match result.unwrap_err().kind {
        letsroll::errors::ErrorKind::BadActionParameter(_) => {}
        other => panic!("expected a BadActionParameter error, got {:?}", other),
    }
}

#[test]
fn keep_best_and_keep_worst_partition_the_rolls() {
    let input: Vec<u32> = vec![1, 5, 3, 2, 5];
    let best = input.keep_best(2).unwrap();
    let worst = input.keep_worst(3).unwrap();
    let mut merged: Vec<u32> = Vec::new();
    merged.extend(worst);
    merged.extend(best);
    let mut original = input.clone();
    original.sort();
    let mut merged_sorted = merged.clone();
    merged_sorted.sort();
    assert_eq!(merged_sorted, original);
}

#[test]
fn flip_is_idempotent_on_flip_fixed_rolls() {
    // Values of a D5 all print with one digit, so their flipped form is
    // themselves; flipping twice changes nothing.
    let input: Vec<u32> = vec![1, 2, 3, 4, 5];
    let dice_request = NumericRollRequest::new(input.len() as u8, NumericDice::RepeatingDice(input));
    let rolls = NumericRolls::new(&dice_request, &mut DiceGenerator::new());
    let once = rolls.flip();
    assert_eq!(once.rolls, vec![1, 2, 3, 4, 5]);
    let twice = once.flip();
    assert_eq!(twice.rolls, once.rolls);
}

#[test]
fn flip_is_not_involutive_in_general() {
    // A D20 roll of 15 flips to 51, which is outside the dice's range: the
    // flip is a display transform, not a closed operation on the dice.
    let input: Vec<u32> = vec![15, 20];
    let dice_request = NumericRollRequest::new(input.len() as u8, NumericDice::RepeatingDice(input));
    let rolls = NumericRolls::new(&dice_request, &mut DiceGenerator::new());
    let output = rolls.flip();
    assert_eq!(output.rolls, vec![51, 2]);
}

#[test]
fn total_of_no_rolls_is_zero() {
    let rolls: Vec<NumericRolls> = Vec::new();
    let output = rolls.total();
    assert_eq!(output.rolls, vec![0]);
    assert_eq!(output.dice, NumericDice::AggregationResult);
    assert!(output.description.contains("TOTAL SUM"));
}
