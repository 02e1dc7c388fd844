//! Experiment with (non-deterministic) Turing machines that own one reading
//! tape and `k` writing tapes.
pub mod gui_error;
pub mod parser;
pub mod popup;
pub mod text;
pub mod transition_edit;
pub mod turing_errors;
pub mod turing_grammar;
pub mod turing_graph;
pub mod turing_machine;
pub mod turing_parser;
pub mod turing_state;
pub mod turing_tape;
