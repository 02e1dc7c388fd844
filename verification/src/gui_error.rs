//! The errors that the graphical interface reports, and their messages.
use vstd::prelude::*;

use crate::popup::TransitionId;
use crate::text::{decimal, push_decimal, push_str, string_push};

verus! {

/// An error of the application: one of the interface, or one of the core
/// library given by its message.
#[derive(Debug)]
pub enum RitmError {
    GuiError(GuiError),
    CoreError(String),
}

/// The errors of the graphical interface.
#[derive(Debug)]
pub enum GuiError {
    // General
    InvalidApplicationState,
    // Graph
    GraphError { error: String },
    NoStateSelected,
    NoTransitionSelected,
    StateAlreadyExist { state_id: usize, name: String },
    TransitionAlreadyExist { transition_id: TransitionId },
    InvalidTransition { reason: String },
    // Code
    CodeError { error: String },
    SyntaxError { error: String },
    // Turing
    NoStateEditing,
    NoTransitionEditing,
    // IO
    InvalidInput { input: String },
    FileError { error: String },
    // Control
    NoStep,
}

/// The message of an error of the interface, without its line break.
pub open spec fn gui_error_line(e: GuiError) -> Seq<char> {
    match e {
        GuiError::InvalidApplicationState => "Invalid application state !"@,
        GuiError::GraphError { error } => "Error in the graph : "@ + error@,
        GuiError::NoStateSelected => "No state selected"@,
        GuiError::NoTransitionSelected => "No transition selected"@,
        GuiError::StateAlreadyExist { state_id, name } => "State "@ + name@ + " with id "@ + decimal(
            state_id as nat,
        ) + " already exist"@,
        GuiError::TransitionAlreadyExist { transition_id } => "Transition "@ + decimal(transition_id.id as nat)
            + " between state "@ + decimal(transition_id.source_id as nat) + " and "@ + decimal(
            transition_id.target_id as nat,
        ) + " already exist"@,
        GuiError::InvalidTransition { reason } => "Invalid transition : "@ + reason@,
        GuiError::CodeError { error } => "Error in code : "@ + error@,
        GuiError::SyntaxError { error } => "Syntax error : "@ + error@,
        GuiError::NoTransitionEditing => "No transition are being edited"@,
        GuiError::NoStateEditing => "No state are being edited"@,
        GuiError::FileError { error } => "Could not load file: "@ + error@,
        GuiError::InvalidInput { input } => input@ + " is an invalid input"@,
        GuiError::NoStep => "There is no next step !"@,
    }
}

/// The message of an error of the interface: its line, then a line break.
pub open spec fn gui_error_text(e: GuiError) -> Seq<char> {
    gui_error_line(e).push('\n')
}

/// The message of an error of the application: the message of an error of
/// the interface, or the message of the core library after `CORE ERROR : `,
/// then a line break.
pub open spec fn ritm_error_text(e: RitmError) -> Seq<char> {
    match e {
        RitmError::GuiError(g) => gui_error_text(g).push('\n'),
        RitmError::CoreError(s) => ("CORE ERROR : "@ + s@).push('\n'),
    }
}

impl GuiError {
    /// The message of this error, see [gui_error_text].
    pub fn to_string(&self) -> (s: String)
        ensures
            s@ == gui_error_text(*self),
    {
        let mut s = String::new();
        match self {
            GuiError::InvalidApplicationState => push_str(&mut s, "Invalid application state !"),
            GuiError::GraphError { error } => {
                push_str(&mut s, "Error in the graph : ");
                s.append(error.as_str());
            },
            GuiError::NoStateSelected => push_str(&mut s, "No state selected"),
            GuiError::NoTransitionSelected => push_str(&mut s, "No transition selected"),
            GuiError::StateAlreadyExist { state_id, name } => {
                push_str(&mut s, "State ");
                s.append(name.as_str());
                push_str(&mut s, " with id ");
                push_decimal(&mut s, *state_id);
                push_str(&mut s, " already exist");
            },
            GuiError::TransitionAlreadyExist { transition_id } => {
                push_str(&mut s, "Transition ");
                push_decimal(&mut s, transition_id.id);
                push_str(&mut s, " between state ");
                push_decimal(&mut s, transition_id.source_id);
                push_str(&mut s, " and ");
                push_decimal(&mut s, transition_id.target_id);
                push_str(&mut s, " already exist");
            },
            GuiError::InvalidTransition { reason } => {
                push_str(&mut s, "Invalid transition : ");
                s.append(reason.as_str());
            },
            GuiError::CodeError { error } => {
                push_str(&mut s, "Error in code : ");
                s.append(error.as_str());
            },
            GuiError::SyntaxError { error } => {
                push_str(&mut s, "Syntax error : ");
                s.append(error.as_str());
            },
            GuiError::NoTransitionEditing => push_str(&mut s, "No transition are being edited"),
            GuiError::NoStateEditing => push_str(&mut s, "No state are being edited"),
            GuiError::FileError { error } => {
                push_str(&mut s, "Could not load file: ");
                s.append(error.as_str());
            },
            GuiError::InvalidInput { input } => {
                s.append(input.as_str());
                push_str(&mut s, " is an invalid input");
            },
            GuiError::NoStep => push_str(&mut s, "There is no next step !"),
        }
        string_push(&mut s, '\n');
        s
    }
}

impl RitmError {
    /// The message of this error, see [ritm_error_text].
    pub fn to_string(&self) -> (s: String)
        ensures
            s@ == ritm_error_text(*self),
    {
        let mut s = match self {
            RitmError::GuiError(g) => g.to_string(),
            RitmError::CoreError(c) => {
                let mut s = String::new();
                push_str(&mut s, "CORE ERROR : ");
                s.append(c.as_str());
                s
            },
        };
        string_push(&mut s, '\n');
        s
    }
}

} // verus!
