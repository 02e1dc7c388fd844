use ritm_core::turing_errors::{TuringError, TuringParserError};
use ritm_core::turing_machine::{Mode, TuringExecutionSteps, TuringMachines};
use ritm_core::turing_parser::parse_turing_graph_string;
use ritm_core::turing_state::{TuringDirection, TuringState, TuringStateType, TuringTransition};
use ritm_core::turing_tape::{TuringReadingTape, TuringTape, TuringWritingTape};

#[test]
fn transition_text() {
    let t = TuringTransition::create(
        vec!['0', 'a', 'ç'],
        vec!['b', 'ç'],
        vec![
            TuringDirection::Right,
            TuringDirection::Left,
            TuringDirection::Stay,
        ],
    )
    .unwrap();
    assert_eq!(t.to_string(), "0, a, ç -> R, b, L, ç, N");
    let single = TuringTransition::new(vec!['$'], TuringDirection::Stay, vec![]);
    assert_eq!(single.to_string(), "$ -> N");
}

#[test]
fn state_and_direction_text() {
    let s = TuringState::new(TuringStateType::Accepting, &String::from("a"));
    assert_eq!(s.to_string(), "(a: Accepting)");
    assert_eq!(TuringStateType::Rejecting.to_string(), "Rejecting");
    assert_eq!(TuringDirection::Left.to_string(), "L");
    assert_eq!(TuringDirection::Stay.to_string(), "N");
}

#[test]
fn tape_text() {
    let mut read = TuringReadingTape::new();
    read.feed_word(String::from("01")).unwrap();
    assert_eq!(read.to_string(), "[ç,0,1,$]\n ↑       ");
    read.try_apply_transition('ç', ' ', &TuringDirection::Right).unwrap();
    assert_eq!(read.to_string(), "[ç,0,1,$]\n   ↑     ");
    let write = TuringWritingTape::new();
    assert_eq!(write.to_string(), "[ç,_,...]\n ↑   ");
}

#[test]
fn mode_text() {
    assert_eq!(Mode::SaveAll.to_string(), "Saves All and does a full exploration");
    assert_eq!(Mode::StopAfter(120).to_string(), "Stops After 120 iterations");
    assert_eq!(Mode::StopFirstReject.to_string(), "Stops after the First Reject");
}

#[test]
fn error_text() {
    assert_eq!(
        TuringError::IncompatibleTransitionError {
            expected: 2,
            received: 3
        }
        .to_string(),
        "Tried to append a transition affecting \"3\" ribbons while all others only affect \"2\" ribbons"
    );
    assert_eq!(
        TuringError::UnknownStateError {
            state_name: String::from("q")
        }
        .to_string(),
        "Tried to access a state called \"q\", but it doesn't exists"
    );
    assert_eq!(
        TuringError::OutOfRangeStateError {
            accessed_index: 7,
            states_len: 10
        }
        .to_string(),
        "Tried to access a state from the vector of states in the graph, but it was out of range. Tried to access the index 7 but there are only 10 states"
    );
}

#[test]
fn parser_error_text() {
    let e = TuringParserError::ParsingError {
        line_col_pos: Some((2, 3)),
        value: String::from("abc"),
        missing_value: Some(String::from("}")),
    };
    assert_eq!(
        e.to_string(),
        "Impossible to parse the given input.\n2: abc\n   --^\nThis token might be missing : \"}\""
    );
    let e = TuringParserError::EncounteredTuringError {
        line_col_pos: None,
        turing_error: TuringError::TransitionArgsError {
            reason: String::from("r"),
        },
        value: String::from("x"),
    };
    assert_eq!(
        e.to_string(),
        "Encountered an error at the following line: \nx\nReason: There was a problem during the creation of a transition : \nr"
    );
    let e = TuringParserError::FileError {
        given_path: String::from("f"),
        error_reason: String::from("none"),
    };
    assert_eq!(
        e.to_string(),
        "Ran into an error trying to open the file at \"f\". The reason being : none"
    );
}

#[test]
fn step_text() {
    let graph = parse_turing_graph_string(String::from("q_i {ç, ç -> R, ç, R} q_1;")).unwrap();
    let mut tm = TuringMachines::new(graph, String::from("0"), Mode::SaveAll).unwrap();
    let first = tm.next_step().unwrap();
    assert_eq!(
        first.to_string(),
        "* Initial state : (i: Normal)\n* Ribbons:\nREAD:\n[ç,0,$]\n ↑     \nWRITE:\n[ç,_,...]\n ↑   "
    );
    let taken = tm.next_step().unwrap();
    assert!(matches!(taken, TuringExecutionSteps::TransitionTaken { .. }));
    assert_eq!(
        taken.to_string(),
        "* Left state : (i: Normal)\n* Current state : (1: Normal)\n* Took the following transition : ç, ç -> R, ç, R\n* Ribbons:\nREAD:\n[ç,0,$]\n   ↑   \nWRITE:\n[ç,_,...]\n   ↑ "
    );
}
