use ritm_core::gui_error::{GuiError, RitmError};
use ritm_core::popup::TransitionId;
use ritm_core::transition_edit::TransitionEdit;
use ritm_core::turing_state::{TuringDirection, TuringTransition};

fn sample_transition() -> TuringTransition {
    TuringTransition::create(
        vec!['0', 'a'],
        vec!['b'],
        vec![TuringDirection::Right, TuringDirection::Left],
    )
    .unwrap()
}

#[test]
fn new_edit_is_unchanged() {
    let t = sample_transition();
    let edit = TransitionEdit::from(&t);
    assert!(!edit.has_changed());
    assert!(edit.to().unwrap() == t);
}

#[test]
fn edit_then_undo() {
    let t = sample_transition();
    let mut edit = TransitionEdit::from(&t);
    edit.get_edit().move_read = TuringDirection::Stay;
    assert!(edit.has_changed());
    assert_eq!(edit.to().unwrap().move_read, TuringDirection::Stay);
    edit.undo();
    assert!(!edit.has_changed());
    assert!(edit.to().unwrap() == t);
}

#[test]
fn changing_only_the_target_is_no_change() {
    let t = sample_transition();
    let mut edit = TransitionEdit::from(&t);
    edit.get_edit().index_to_state = Some(3);
    assert!(!edit.has_changed());
    assert_eq!(edit.to().unwrap().index_to_state, Some(3));
}

#[test]
fn empty_char_is_refused() {
    let t = sample_transition();
    let mut edit = TransitionEdit::from(&t);
    edit.get_edit().chars_read[1] = '\0';
    assert!(edit.has_changed());
    match edit.to() {
        Err(RitmError::GuiError(GuiError::InvalidTransition { reason })) => {
            assert_eq!(reason, "Empty char present in the transition")
        }
        _ => panic!("Expected an invalid transition"),
    }
}

#[test]
fn gui_error_messages() {
    assert_eq!(GuiError::NoStep.to_string(), "There is no next step !\n");
    assert_eq!(
        GuiError::StateAlreadyExist { state_id: 12, name: "q1".to_string() }.to_string(),
        "State q1 with id 12 already exist\n"
    );
    let transition_id = TransitionId { source_id: 1, id: 0, target_id: 2 };
    assert_eq!(
        GuiError::TransitionAlreadyExist { transition_id }.to_string(),
        "Transition 0 between state 1 and 2 already exist\n"
    );
    assert_eq!(
        GuiError::InvalidInput { input: "x".to_string() }.to_string(),
        "x is an invalid input\n"
    );
    assert_eq!(
        GuiError::InvalidTransition { reason: "r".to_string() }.to_string(),
        "Invalid transition : r\n"
    );
}

#[test]
fn ritm_error_messages() {
    assert_eq!(
        RitmError::CoreError("boom".to_string()).to_string(),
        "CORE ERROR : boom\n"
    );
    assert_eq!(
        RitmError::GuiError(GuiError::NoStateSelected).to_string(),
        "No state selected\n\n"
    );
}
