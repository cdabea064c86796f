use simple_lexer::number_fsm::{build_number_recognizer, NumberFSMState};

#[test]
fn test_valid_numbers() {
    let fsm = build_number_recognizer();
    let numbers = ["5", "2.37", "83e2", "4E57", "91.5e4", "2.83e+3", "3E+7"];
    for number in numbers.iter() {
        assert_eq!(Some(*number), fsm.run(number));
    }
}

#[test]
fn test_valid_number_with_extra_data() {
    let fsm = build_number_recognizer();
    let input = "3.1416*2";
    let number = "3.1416";
    assert_eq!(Some(number), fsm.run(input));
}

#[test]
fn number_fsm_test_invalid_numbers() {
    let fsm = build_number_recognizer();
    let numbers = ["l5", "2.", "83e", "4E", "91.e4"];
    for number in numbers.iter() {
        assert_eq!(None, fsm.run(number));
    }
}

#[test]
fn test_recognizer_parts() {
    let fsm = build_number_recognizer();
    assert_eq!(NumberFSMState::Initial, fsm.initial_state);
    assert_eq!(
        vec![
            NumberFSMState::Integer,
            NumberFSMState::NumberWithFractionalPart,
            NumberFSMState::NumberWithExponent,
        ],
        fsm.accepting_states
    );
    assert_eq!(NumberFSMState::get_all(), fsm.states);
    assert_eq!(7, fsm.states.len());
}

#[test]
fn test_transitions() {
    let fsm = build_number_recognizer();
    let next = &fsm.next_state;
    assert_eq!(Some(NumberFSMState::Integer), next(NumberFSMState::Initial, '7'));
    assert_eq!(None, next(NumberFSMState::Initial, '.'));
    assert_eq!(
        Some(NumberFSMState::BeginNumberWithFractionalPart),
        next(NumberFSMState::Integer, '.')
    );
    assert_eq!(
        Some(NumberFSMState::BeginNumberWithExponent),
        next(NumberFSMState::Integer, 'E')
    );
    assert_eq!(None, next(NumberFSMState::BeginNumberWithFractionalPart, 'e'));
    assert_eq!(
        Some(NumberFSMState::NumberWithFractionalPart),
        next(NumberFSMState::BeginNumberWithFractionalPart, '0')
    );
    assert_eq!(None, next(NumberFSMState::NumberWithFractionalPart, '.'));
    assert_eq!(
        Some(NumberFSMState::BeginNumberWithExponent),
        next(NumberFSMState::NumberWithFractionalPart, 'e')
    );
    assert_eq!(
        Some(NumberFSMState::BeginNumberWithSignedExponent),
        next(NumberFSMState::BeginNumberWithExponent, '-')
    );
    assert_eq!(None, next(NumberFSMState::BeginNumberWithSignedExponent, '+'));
    assert_eq!(
        Some(NumberFSMState::NumberWithExponent),
        next(NumberFSMState::BeginNumberWithSignedExponent, '9')
    );
    assert_eq!(None, next(NumberFSMState::NumberWithExponent, 'e'));
}

#[test]
fn test_second_point_ends_the_match() {
    let fsm = build_number_recognizer();
    assert_eq!(Some("3.14"), fsm.run("3.14.15"));
    assert_eq!(Some("1e5"), fsm.run("1e5e6"));
}

#[test]
fn test_state_equality() {
    assert!(NumberFSMState::Integer == NumberFSMState::Integer);
    assert!(NumberFSMState::Integer != NumberFSMState::NumberWithExponent);
    assert!(NumberFSMState::Initial != NumberFSMState::BeginNumberWithSignedExponent);
}
