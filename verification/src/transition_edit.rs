//! The edition of a transition in the graphical interface: a copy that the
//! user changes, beside the transition it started from, to compare with it
//! and come back to it.
use vstd::prelude::*;

use crate::gui_error::{GuiError, RitmError};
use crate::text::contains_char;
use crate::turing_state::{TransitionView, TuringTransition};

verus! {

/// A transition being edited, with the transition the edition started from.
#[derive(Debug)]
pub struct TransitionEdit {
    base: TuringTransition,
    edit: TuringTransition,
}

/// What a transition being edited is, as mathematical values.
pub struct EditView {
    pub base: TransitionView,
    pub edit: TransitionView,
}

impl View for TransitionEdit {
    type V = EditView;

    closed spec fn view(&self) -> EditView {
        EditView { base: self.base@, edit: self.edit@ }
    }
}

/// Two transitions are the same for `==`: they read the same characters and
/// move and write in the same way (where they lead is not compared).
pub open spec fn same_transition(a: TransitionView, b: TransitionView) -> bool {
    &&& a.chars_read == b.chars_read
    &&& a.move_read == b.move_read
    &&& a.chars_write == b.chars_write
}

/// The edited transition differs from the one the edition started from.
pub open spec fn edit_changed(e: EditView) -> bool {
    !same_transition(e.edit, e.base)
}

/// The edited transition reads the empty character somewhere.
pub open spec fn reads_empty_char(t: TransitionView) -> bool {
    t.chars_read.contains('\0')
}

impl TransitionEdit {
    /// Starts editing a copy of the given transition.
    pub fn from(ttmr: &TuringTransition) -> (r: Self)
        ensures
            r@.base == ttmr@,
            r@.edit == ttmr@,
            !edit_changed(r@),
    {
        Self { base: ttmr.clone(), edit: ttmr.clone() }
    }

    /// The edited transition, or an error when it reads the empty character.
    ///
    /// # Errors
    /// * [GuiError::InvalidTransition] (inside [RitmError::GuiError]) when a
    ///   character read by the edited transition is the empty character.
    pub fn to(&self) -> (r: Result<TuringTransition, RitmError>)
        ensures
            reads_empty_char(self@.edit) <==> r is Err,
            r matches Ok(t) ==> t@ == self@.edit,
            r matches Err(e) ==> e matches RitmError::GuiError(GuiError::InvalidTransition { reason })
                && reason@ == "Empty char present in the transition"@,
    {
        if contains_char(&self.edit.chars_read, '\0') {
            return Err(
                RitmError::GuiError(
                    GuiError::InvalidTransition { reason: "Empty char present in the transition".to_string() },
                ),
            );
        }
        Ok(self.edit.clone())
    }

    /// The transition information editable
    pub fn get_edit(&mut self) -> (r: &mut TuringTransition)
        ensures
            r@ == old(self)@.edit,
            final(self)@ == (EditView { edit: final(r)@, ..old(self)@ }),
    {
        &mut self.edit
    }

    /// Check if the transition information changed
    pub fn has_changed(&self) -> (r: bool)
        ensures
            r == edit_changed(self@),
    {
        self.edit != self.base
    }

    /// Undo all changes made to the editable transition struct
    pub fn undo(&mut self)
        ensures
            final(self)@.base == old(self)@.base,
            final(self)@.edit == old(self)@.base,
            !edit_changed(final(self)@),
    {
        self.edit = self.base.clone();
    }
}

} // verus!
