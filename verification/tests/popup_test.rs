use ritm_core::popup::{RitmPopup, RitmPopupEnum, TransitionId};

#[test]
fn popups_stack_up() {
    let mut popup = RitmPopup::default();
    assert!(popup.current().is_none());
    assert!(!popup.just_opened());
    popup.open(RitmPopupEnum::Settings);
    popup.open(RitmPopupEnum::StateEdit(3));
    assert_eq!(popup.current(), Some(&RitmPopupEnum::StateEdit(3)));
    assert!(popup.just_opened());
    assert!(!popup.just_opened());
    popup.close();
    assert_eq!(popup.current(), Some(&RitmPopupEnum::Settings));
    popup.close();
    assert!(popup.current().is_none());
    popup.close();
    assert!(popup.current().is_none());
}

#[test]
fn popup_titles() {
    assert_eq!(RitmPopupEnum::NewTransition.title(), "New Transition");
    assert_eq!(RitmPopupEnum::SignUp.title(), "Sign un");
    assert_eq!(RitmPopupEnum::Tspace.title(), "TSPACE");
    assert_eq!(RitmPopupEnum::Error(String::from("x")).title(), "Error");
    assert_eq!(
        RitmPopupEnum::TransitionEdit(TransitionId::default()).title(),
        "Transition"
    );
}

#[test]
fn transition_ids() {
    let id: TransitionId = (1, 2, 3).into();
    assert_eq!(
        id,
        TransitionId {
            source_id: 1,
            id: 2,
            target_id: 3
        }
    );
    let id: TransitionId = (4, 5).into();
    assert_eq!(
        id,
        TransitionId {
            source_id: 4,
            id: 0,
            target_id: 5
        }
    );
}
