use letsroll::dice::{FudgeDice, NumericDice, RollRequest};
use letsroll::errors::ErrorKind;
use letsroll::io::read::parse_request;
use letsroll::{FudgeSession, NumericSession};
use std::str::FromStr;

#[test]
fn read_numbered_dice() {
    let requests = &NumericSession::from_str(&String::from("5d6")).unwrap().requests;
    assert_eq!(
        *requests,
        vec![RollRequest::new(5, NumericDice::NumberedDice(6))]
    );

    let requests = &NumericSession::from_str(&String::from("8D3")).unwrap().requests;
    assert_eq!(
        *requests,
        vec![RollRequest::new(8, NumericDice::NumberedDice(3))]
    );

    let requests = &NumericSession::from_str(&String::from("D20")).unwrap().requests;
    assert_eq!(
        *requests,
        vec![RollRequest::new(1, NumericDice::NumberedDice(20))]
    );
}

#[test]
fn read_fudge_dice() {
    let requests = &FudgeSession::from_str(&String::from("F")).unwrap().requests;
    assert_eq!(*requests, vec![RollRequest::new(1, FudgeDice::FudgeDice)]);

    let requests = &FudgeSession::from_str(&String::from("10F")).unwrap().requests;
    assert_eq!(*requests, vec![RollRequest::new(10, FudgeDice::FudgeDice)]);
}

#[test]
fn read_const_dice() {
    let requests = &NumericSession::from_str(&String::from("+5")).unwrap().requests;
    assert_eq!(
        *requests,
        vec![RollRequest::new(1, NumericDice::ConstDice(5))]
    );

    let requests = &NumericSession::from_str(&String::from("+142")).unwrap().requests;
    assert_eq!(
        *requests,
        vec![RollRequest::new(1, NumericDice::ConstDice(142))]
    );
}

#[test]
fn read_request_with_id() {
    let requests = &NumericSession::from_str(&String::from("(FIRE +5)")).unwrap().requests;
    assert_eq!(
        *requests,
        vec![RollRequest::new(1, NumericDice::ConstDice(5)).add_id(Some(String::from("FIRE")))]
    );

    let requests = &FudgeSession::from_str(&String::from("(ABC_4A 10F)")).unwrap().requests;
    assert_eq!(
        *requests,
        vec![RollRequest::new(10, FudgeDice::FudgeDice).add_id(Some(String::from("ABC_4A")))]
    );

    // Without parenthesis
    assert!(!&NumericSession::from_str(&String::from("FIRE +5")).is_ok());

    // Uncompliant ID
    assert!(!&NumericSession::from_str(&String::from("FI +5")).is_ok());
    assert!(!&NumericSession::from_str(&String::from("42A +5")).is_ok());
    assert!(!&NumericSession::from_str(&String::from("A2A +5")).is_ok());
    assert!(!&NumericSession::from_str(&String::from("_ABC +5")).is_ok());
}

#[test]
fn read_ko() {
    parse_request(&String::from("5"), false).unwrap_err();
    parse_request(&String::from("Da"), false).unwrap_err();
    parse_request(&String::from("D8D"), false).unwrap_err();
    parse_request(&String::from("F8"), false).unwrap_err();
    parse_request(&String::from("+"), false).unwrap_err();
    parse_request(&String::from("8+"), false).unwrap_err();
    parse_request(&String::from("+8+"), false).unwrap_err();
    parse_request(&String::from("2+8"), false).unwrap_err();
    parse_request(&String::from("5D 20"), false).unwrap_err();
}

#[test]
fn round_trip_constant() {
    let session = parse_request("+5", false).unwrap();
    let numeric = session.numeric_session.unwrap();
    assert_eq!(numeric.requests.len(), 1);
    assert_eq!(numeric.rolls.len(), 1);
    assert_eq!(numeric.rolls[0].rolls, vec![5]);
}

#[test]
fn round_trip_numbered() {
    let session = parse_request("3D6", false).unwrap();
    let numeric = session.numeric_session.unwrap();
    assert_eq!(numeric.rolls.len(), 1);
    assert_eq!(numeric.rolls[0].rolls.len(), 3);
    for v in numeric.rolls[0].rolls.iter() {
        assert!(*v >= 1 && *v <= 6);
    }
}

#[test]
fn round_trip_reroll() {
    let session = parse_request("2D6 reroll(1)", false).unwrap();
    let numeric = session.numeric_session.unwrap();
    assert_eq!(numeric.rolls.len(), 1);
    assert_eq!(numeric.rolls[0].rolls.len(), 2);
    for v in numeric.rolls[0].rolls.iter() {
        assert!(*v >= 1 && *v <= 6);
    }
}

#[test]
fn round_trip_fudge() {
    let session = parse_request("F", false).unwrap();
    assert!(session.numeric_session.is_none());
    let fudge = session.fudge_session.unwrap();
    assert_eq!(fudge.requests.len(), 1);
    assert_eq!(fudge.rolls.len(), 1);
    assert_eq!(fudge.rolls[0].rolls.len(), 1);
}

#[test]
fn round_trip_bare_number_is_an_error() {
    let error = parse_request("5", false).unwrap_err();
    match error.kind {
        ErrorKind::Parse(_) | ErrorKind::ParseDice(_) => {}
        other => panic!("expected a parse error, got {:?}", other),
    }
}

#[test]
fn incompatible_action_is_reported() {
    let error = parse_request("F sum", false).unwrap_err();
    match error.kind {
        ErrorKind::IncompatibleAction(_) => {}
        other => panic!("expected an IncompatibleAction error, got {:?}", other),
    }
}

#[test]
fn oversized_keep_is_a_parameter_error() {
    let error = parse_request("2D6 keep-best(3)", false).unwrap_err();
    match error.kind {
        ErrorKind::BadActionParameter(_) => {}
        other => panic!("expected a BadActionParameter error, got {:?}", other),
    }
}

#[test]
fn file_errors_carry_their_message() {
    let error = letsroll::errors::Error::file(String::from("missing file"));
    match error.kind() {
        ErrorKind::File(message) => assert_eq!(message, "missing file"),
        other => panic!("expected a File error, got {:?}", other),
    }
}

#[test]
fn default_total_applies_only_without_actions() {
    let session = parse_request("2D6", true).unwrap();
    let numeric = session.numeric_session.unwrap();
    assert_eq!(numeric.rolls.len(), 1);
    assert_eq!(numeric.rolls[0].dice, NumericDice::AggregationResult);
    assert_eq!(numeric.rolls[0].rolls.len(), 1);

    let session = parse_request("2D6", false).unwrap();
    let numeric = session.numeric_session.unwrap();
    assert_eq!(numeric.rolls[0].rolls.len(), 2);

    let session = parse_request("2D6 x2", true).unwrap();
    let numeric = session.numeric_session.unwrap();
    assert_eq!(numeric.rolls[0].rolls.len(), 2);
}

#[test]
fn group_actions_stay_with_their_dice() {
    let session = parse_request("(FIRE 2D6 x2)", false).unwrap();
    let numeric = session.numeric_session.unwrap();
    assert_eq!(numeric.requests.len(), 1);
    assert_eq!(numeric.requests[0].id, Some(String::from("FIRE")));
    assert_eq!(numeric.rolls[0].rolls.len(), 2);
    for v in numeric.rolls[0].rolls.iter() {
        assert!(*v % 2 == 0 && *v >= 2 && *v <= 12);
    }
}

#[test]
fn count_groups_equal_values() {
    let session = parse_request("+5 +5 +7 count", false).unwrap();
    let numeric = session.numeric_session.unwrap();
    assert_eq!(numeric.rolls.len(), 2);
    assert_eq!(numeric.rolls[0].description, "COUNT(5)");
    assert_eq!(numeric.rolls[0].rolls, vec![2]);
    assert_eq!(numeric.rolls[1].description, "COUNT(7)");
    assert_eq!(numeric.rolls[1].rolls, vec![1]);
}

#[test]
fn count_on_fudge_rolls_becomes_numeric() {
    let session = parse_request("4F count", false).unwrap();
    assert!(session.fudge_session.is_none());
    let numeric = session.numeric_session.unwrap();
    let mut total: u32 = 0;
    for roll in numeric.rolls.iter() {
        assert!(roll.description.starts_with("COUNT("));
        total += roll.rolls[0];
    }
    assert_eq!(total, 4);
}

#[test]
fn total_sums_every_request() {
    let session = parse_request("+1 +2 total", false).unwrap();
    let numeric = session.numeric_session.unwrap();
    assert_eq!(numeric.rolls.len(), 1);
    assert_eq!(numeric.rolls[0].rolls, vec![3]);
    assert_eq!(
        numeric.to_string(),
        "Detailed rolls\t: (1+1:1) + (1+2:2)\nTOTAL SUM \t: 3"
    );
}

#[test]
fn keep_best_zero_keeps_nothing() {
    let session = parse_request("5D6 keep-best(0)", false).unwrap();
    let numeric = session.numeric_session.unwrap();
    assert_eq!(numeric.rolls[0].rolls.len(), 0);
}

#[test]
fn mixed_kinds_render_numeric_first() {
    let session = parse_request("+7 F", false).unwrap();
    assert!(session.numeric_session.is_some());
    assert!(session.fudge_session.is_some());
    let text = session.to_string();
    let lines: Vec<&str> = text.split('\n').collect();
    assert_eq!(lines.len(), 2);
    assert_eq!(lines[0], "1+7: 7");
}

#[test]
fn mixed_value_lists_are_rejected() {
    let error = parse_request("2D6 reroll(1,+)", false).unwrap_err();
    match error.kind {
        ErrorKind::Parse(_) => {}
        other => panic!("expected a Parse error, got {:?}", other),
    }
}

#[test]
fn explode_appends_to_the_rolls() {
    let session = parse_request("2D6 explode(6)", false).unwrap();
    let numeric = session.numeric_session.unwrap();
    assert!(numeric.rolls[0].rolls.len() >= 2);
    for v in numeric.rolls[0].rolls.iter() {
        assert!(*v >= 1 && *v <= 6);
    }
}
