//! Reads the text of a Turing machine and answers with the errors of [TuringError].
use vstd::prelude::*;

use crate::text::push_str;
use crate::turing_errors::TuringError;
use crate::turing_grammar::{TuringGrammar, parse_machine};
use crate::turing_graph::TuringMachineGraph;
use crate::turing_parser::{build_graph, graph_error, graph_of_rules};

verus! {

/// Parses a turing machine graph from the content of a string (see
/// [crate::turing_parser::parse_turing_graph_string] for the rules).
///
/// # Errors
/// * [TuringError::ParseError] if the text does not follow the grammar.
/// * The error that the transition builder, the creation of the graph or the
///   addition of a rule gave for the first rule refused otherwise (see [graph_error]).
pub fn parse_turing_machine_string(turing_mach: String) -> (res: Result<TuringMachineGraph, TuringError>)
    ensures
        match parse_machine(turing_mach@) {
            None => res matches Err(e) && e is ParseError,
            Some(rs) => match graph_of_rules(rs) {
                Some(g) => res matches Ok(graph) && graph.wf() && graph@ == g,
                None => res matches Err(e) && (e is IllegalActionError || e is TransitionArgsError
                    || e is IncompatibleTransitionError) && graph_error(rs, e),
            },
        },
{
    match TuringGrammar::machine(turing_mach.as_str()) {
        None => {
            let mut reason = String::new();
            push_str(&mut reason, "Couldn't parse");
            Err(TuringError::ParseError { reason })
        },
        Some(rules) => match build_graph(rules) {
            Ok(graph) => Ok(graph),
            Err((e, _)) => Err(e),
        },
    }
}

} // verus!
