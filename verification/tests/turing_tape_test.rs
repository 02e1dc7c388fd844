use ritm_core::turing_errors::TuringError;
use ritm_core::turing_state::TuringDirection;
use ritm_core::turing_tape::{
    TuringReadingTape, TuringTape, TuringWritingTape, BLANK_CHAR, END_CHAR, INIT_CHAR,
};

fn expect_ill_action_error(te: TuringError) {
    match te {
        TuringError::IllegalActionError { cause: _ } => {}
        _ => panic!(
            "Exepected an IllegalActionError, but received the following error : {:?}",
            te
        ),
    }
}

#[test]
fn test_new_reading_tape() {
    let tape = TuringReadingTape::new();

    assert_eq!(tape.get_pointer(), 0);
    assert_eq!(tape.get_contents(), &vec!(INIT_CHAR, END_CHAR));
    let tape = TuringWritingTape::new();

    assert_eq!(tape.get_pointer(), 0);
    assert_eq!(tape.get_contents(), &vec!(INIT_CHAR, BLANK_CHAR));
}

#[test]
fn test_feed_word_tape() {
    let mut tape = TuringReadingTape::new();

    tape.feed_word("test".to_string()).unwrap();

    assert_eq!(
        tape.get_contents(),
        &vec!(INIT_CHAR, 't', 'e', 's', 't', END_CHAR)
    );
}

#[test]
fn test_feed_word_tape_illegal_char() {
    let mut tape = TuringReadingTape::new();

    match tape.feed_word("dsdçaaz".to_string()) {
        Ok(_) => panic!("Exepected an error"),
        Err(te) => expect_ill_action_error(te),
    }
    match tape.feed_word("dsdaaz$".to_string()) {
        Ok(_) => panic!("Exepected an error"),
        Err(te) => expect_ill_action_error(te),
    }
    match tape.feed_word("_dsdaaz".to_string()) {
        Ok(_) => panic!("Exepected an error"),
        Err(te) => expect_ill_action_error(te),
    }
}

#[test]
fn test_transition_read_tape() {
    let mut tape = TuringReadingTape::new();

    tape.feed_word("test".to_string()).unwrap();

    tape.try_apply_transition(INIT_CHAR, INIT_CHAR, &TuringDirection::Right)
        .unwrap();
    assert_eq!(tape.get_pointer(), 1);
    tape.try_apply_transition('t', 'p', &TuringDirection::Left)
        .unwrap();
    assert_eq!(tape.get_pointer(), 0);
    tape.try_apply_transition(INIT_CHAR, INIT_CHAR, &TuringDirection::Stay)
        .unwrap();
    assert_eq!(tape.get_pointer(), 0);

    assert_eq!(
        tape.get_contents(),
        &vec!(INIT_CHAR, 't', 'e', 's', 't', END_CHAR)
    );

    tape.try_apply_transition(INIT_CHAR, '_', &TuringDirection::Right)
        .unwrap();
    tape.try_apply_transition('t', '_', &TuringDirection::Right)
        .unwrap();
    tape.try_apply_transition('e', '_', &TuringDirection::Right)
        .unwrap();
    tape.try_apply_transition('s', '_', &TuringDirection::Right)
        .unwrap();
    tape.try_apply_transition('t', '_', &TuringDirection::Right)
        .unwrap();

    match tape.try_apply_transition(END_CHAR, '_', &TuringDirection::Right) {
        Ok(b) => {
            panic!(
                "Transition should have returned a TuringError and not : {}",
                b
            )
        }
        Err(e) => match e {
            TuringError::OutofRangeTapeError {
                accessed_index: _,
                tape_size: _,
            } => (),
            _ => panic!("OutofRangeTapeError was expected"),
        },
    }
}

#[test]
fn test_illegal_replacement() {
    let mut tape = TuringWritingTape::new();

    tape.try_apply_transition(INIT_CHAR, INIT_CHAR, &TuringDirection::Right)
        .unwrap();
    assert_eq!(tape.get_pointer(), 1);

    if tape
        .try_apply_transition(BLANK_CHAR, INIT_CHAR, &TuringDirection::Right)
        .is_ok()
    {
        panic!("An error should have been returned");
    }

    tape.try_apply_transition(BLANK_CHAR, BLANK_CHAR, &TuringDirection::Left)
        .unwrap();
    tape.try_apply_transition(BLANK_CHAR, BLANK_CHAR, &TuringDirection::Left)
        .unwrap();

    match tape.try_apply_transition(INIT_CHAR, 'p', &TuringDirection::Right) {
        Ok(_) => panic!("Exected an error"),
        Err(te) => expect_ill_action_error(te),
    }

    match tape.try_apply_transition(INIT_CHAR, END_CHAR, &TuringDirection::Right) {
        Ok(_) => panic!("Exected an error"),
        Err(te) => expect_ill_action_error(te),
    }

    match tape.try_apply_transition(INIT_CHAR, BLANK_CHAR, &TuringDirection::Right) {
        Ok(_) => panic!("Exected an error"),
        Err(te) => expect_ill_action_error(te),
    }
}

#[test]
fn feed_word_refusal_message() {
    let mut tape = TuringReadingTape::new();
    // The initial character is looked for first, over the whole word.
    match tape.feed_word(String::from("a$b_cç")) {
        Err(TuringError::IllegalActionError { cause }) => assert_eq!(
            cause,
            "The given input \"a$b_cç\" contains the following forbidden character : 'ç'"
        ),
        _ => panic!("Expected an illegal action"),
    }
    match tape.feed_word(String::from("a$b_c")) {
        Err(TuringError::IllegalActionError { cause }) => assert_eq!(
            cause,
            "The given input \"a$b_c\" contains the following forbidden character : '_'"
        ),
        _ => panic!("Expected an illegal action"),
    }
}
