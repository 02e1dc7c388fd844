//! The stack of popups that the graphical interface shows, and how a
//! transition of a graph is identified there.
use vstd::prelude::*;
use vstd::std_specs::convert::FromSpecImpl;

verus! {

/// Transition are identified by the trio (source_id, id, target_id)
#[derive(Debug, PartialEq, Eq, Structural, Default, Clone, Copy, Hash)]
pub struct TransitionId {
    pub source_id: usize,
    pub id: usize,
    pub target_id: usize,
}

impl From<(usize, usize, usize)> for TransitionId {
    fn from(value: (usize, usize, usize)) -> (r: Self) {
        Self { source_id: value.0, id: value.1, target_id: value.2 }
    }
}

impl FromSpecImpl<(usize, usize, usize)> for TransitionId {
    open spec fn obeys_from_spec() -> bool {
        true
    }

    open spec fn from_spec(value: (usize, usize, usize)) -> TransitionId {
        TransitionId { source_id: value.0, id: value.1, target_id: value.2 }
    }
}

impl From<(usize, usize)> for TransitionId {
    /// The first transition between the two states.
    fn from(value: (usize, usize)) -> (r: Self) {
        Self { source_id: value.0, id: 0, target_id: value.1 }
    }
}

impl FromSpecImpl<(usize, usize)> for TransitionId {
    open spec fn obeys_from_spec() -> bool {
        true
    }

    open spec fn from_spec(value: (usize, usize)) -> TransitionId {
        TransitionId { source_id: value.0, id: 0, target_id: value.1 }
    }
}

/// The popups of the graphical interface.
#[derive(PartialEq, Clone, Debug, Hash)]
pub enum RitmPopupEnum {
    NewTransition,
    NewState,
    TransitionEdit(TransitionId),
    StateEdit(usize),
    Settings,
    Account,
    SignIn,
    SignUp,
    ChangePassword,
    Confirmation,
    Help,
    Tspace,
    Save,
    Upload,
    Convert,
    Error(String),
}

/// The title shown on top of a popup.
pub open spec fn popup_title(p: RitmPopupEnum) -> Seq<char> {
    match p {
        RitmPopupEnum::NewTransition => "New Transition"@,
        RitmPopupEnum::NewState => "New State"@,
        RitmPopupEnum::TransitionEdit(_) => "Transition"@,
        RitmPopupEnum::StateEdit(_) => "State"@,
        RitmPopupEnum::Settings => "Settings"@,
        RitmPopupEnum::Account => "Account"@,
        RitmPopupEnum::SignIn => "Sign in"@,
        RitmPopupEnum::SignUp => "Sign un"@,
        RitmPopupEnum::ChangePassword => "Change password"@,
        RitmPopupEnum::Confirmation => "Confirmation"@,
        RitmPopupEnum::Help => "Help"@,
        RitmPopupEnum::Tspace => "TSPACE"@,
        RitmPopupEnum::Save => "Save"@,
        RitmPopupEnum::Upload => "Upload"@,
        RitmPopupEnum::Convert => "Convert"@,
        RitmPopupEnum::Error(_) => "Error"@,
    }
}

impl RitmPopupEnum {
    /// The title shown on top of the popup.
    pub fn title(&self) -> (r: String)
        ensures
            r@ == popup_title(*self),
    {
        match self {
            Self::NewTransition => String::from_str("New Transition"),
            Self::NewState => String::from_str("New State"),
            Self::TransitionEdit(_) => String::from_str("Transition"),
            Self::StateEdit(_) => String::from_str("State"),
            Self::Settings => String::from_str("Settings"),
            Self::Account => String::from_str("Account"),
            Self::SignIn => String::from_str("Sign in"),
            Self::SignUp => String::from_str("Sign un"),
            Self::ChangePassword => String::from_str("Change password"),
            Self::Confirmation => String::from_str("Confirmation"),
            Self::Help => String::from_str("Help"),
            Self::Tspace => String::from_str("TSPACE"),
            Self::Save => String::from_str("Save"),
            Self::Upload => String::from_str("Upload"),
            Self::Convert => String::from_str("Convert"),
            Self::Error(_) => String::from_str("Error"),
        }
    }
}

/// What the popups are, as mathematical values: the stack of open popups
/// (the last one is shown on top) and whether one was opened since the flag
/// was last consumed.
pub struct PopupView {
    pub popups: Seq<RitmPopupEnum>,
    pub just_opened: bool,
}

/// The stack of the popups that are open.
#[derive(Debug)]
pub struct RitmPopup {
    current_popups: Vec<RitmPopupEnum>,
    just_opened: bool,
}

impl View for RitmPopup {
    type V = PopupView;

    closed spec fn view(&self) -> PopupView {
        PopupView { popups: self.current_popups@, just_opened: self.just_opened }
    }
}

impl Default for RitmPopup {
    /// No popup open.
    fn default() -> (r: Self)
        ensures
            r@ == (PopupView { popups: Seq::empty(), just_opened: false }),
    {
        Self { current_popups: Vec::new(), just_opened: false }
    }
}

impl RitmPopup {
    /// The popup on top of the stack, if any.
    pub fn current(&self) -> (r: Option<&RitmPopupEnum>)
        ensures
            self@.popups.len() == 0 ==> r is None,
            self@.popups.len() > 0 ==> r == Some(&self@.popups.last()),
    {
        let n = self.current_popups.len();
        if n == 0 {
            None
        } else {
            Some(&self.current_popups[n - 1])
        }
    }

    /// Opens a popup on top of the others.
    pub fn open(&mut self, popup: RitmPopupEnum)
        ensures
            final(self)@ == (PopupView { popups: old(self)@.popups.push(popup), just_opened: true }),
    {
        self.current_popups.push(popup);
        self.just_opened = true;
    }

    /// Closes the popup on top of the stack, if any.
    pub fn close(&mut self)
        ensures
            final(self)@.just_opened == old(self)@.just_opened,
            old(self)@.popups.len() == 0 ==> final(self)@.popups == old(self)@.popups,
            old(self)@.popups.len() > 0 ==> final(self)@.popups == old(self)@.popups.drop_last(),
    {
        let _ = self.current_popups.pop();
    }

    /// Whether a popup was opened since the last call; consumes the value.
    pub fn just_opened(&mut self) -> (r: bool)
        ensures
            r == old(self)@.just_opened,
            final(self)@ == (PopupView { popups: old(self)@.popups, just_opened: false }),
    {
        let r = self.just_opened;
        self.just_opened = false;
        r
    }
}

/// Closing the popup that was just opened gives back the stack of popups as it was.
pub proof fn lemma_open_then_close(stack: Seq<RitmPopupEnum>, popup: RitmPopupEnum)
    ensures
        stack.push(popup).len() > 0,
        stack.push(popup).drop_last() == stack,
        stack.push(popup).last() == popup,
{
    assert(stack.push(popup).drop_last() =~= stack);
}

} // verus!
