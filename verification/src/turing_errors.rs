//! The errors returned by the operations on tapes, states, graphs and machines,
//! and by the parser.
use vstd::prelude::*;

use crate::text::{chars_of, decimal, push_decimal, push_str, string_push};

verus! {

/// The errors that operations on tapes, transitions, states, graphs and
/// machines can return.
#[derive(Debug)]
pub enum TuringError {
    /// An action not supported by Turing machines was asked (ex: creating a
    /// machine with no writing tape, writing a special character, ...).
    IllegalActionError { cause: String },
    /// A transition tried to move the head of a tape outside of it.
    OutofRangeTapeError { accessed_index: usize, tape_size: usize },
    /// A transition was accessed with an index that is out of range.
    OutOfRangeTransitionError { accessed_index: usize, states_len: usize },
    /// A transition cannot be added because of the number of tapes it affects.
    IncompatibleTransitionError {
        /// Number of tapes expected
        expected: usize,
        /// Number of tapes received
        received: usize,
    },
    /// A transition was built from arguments of inconsistent sizes.
    TransitionArgsError { reason: String },
    /// A state was accessed with an index that is out of range.
    OutOfRangeStateError { accessed_index: usize, states_len: usize },
    /// A state was accessed by a name that no state has.
    UnknownStateError { state_name: String },
    /// A text could not be parsed into a machine.
    ParseError { reason: String },
}

/// The errors that the parser returns.
#[derive(Debug)]
pub enum TuringParserError {
    /// A file could not be read.
    FileError { given_path: String, error_reason: String },
    /// The given text does not follow the grammar.
    ParsingError {
        /// Line and column (both starting at 1) where the text stops following the grammar.
        line_col_pos: Option<(usize, usize)>,
        /// The line of the text where the problem was found.
        value: String,
        /// A punctuation token that might be missing there.
        missing_value: Option<String>,
    },
    /// A [TuringError] was encountered **while** building what was parsed.
    EncounteredTuringError {
        line_col_pos: Option<(usize, usize)>,
        turing_error: TuringError,
        value: String,
    },
}

/// The message of an error.
pub open spec fn error_text(e: TuringError) -> Seq<char> {
    match e {
        TuringError::IllegalActionError { cause } => "The following action could cause an error or is simply not authorised : \n"@
            + cause@,
        TuringError::OutofRangeTapeError { accessed_index, tape_size } =>
            "A transition caused the ribbon pointer to point ouside the bounds of the ribbon. Tried to access "@
            + decimal(accessed_index as nat) + " but the length of the ribbon was "@ + decimal(tape_size as nat),
        TuringError::OutOfRangeTransitionError { accessed_index, states_len } =>
            "Tried to access a transition from the vector of transition in a state, but it was out of range. Tried to access the index "@
            + decimal(accessed_index as nat) + " but there are only "@ + decimal(states_len as nat) + " transitions"@,
        TuringError::IncompatibleTransitionError { expected, received } => "Tried to append a transition affecting \""@
            + decimal(received as nat) + "\" ribbons while all others only affect \""@ + decimal(expected as nat)
            + "\" ribbons"@,
        TuringError::TransitionArgsError { reason } => "There was a problem during the creation of a transition : \n"@
            + reason@,
        TuringError::OutOfRangeStateError { accessed_index, states_len } =>
            "Tried to access a state from the vector of states in the graph, but it was out of range. Tried to access the index "@
            + decimal(accessed_index as nat) + " but there are only "@ + decimal(states_len as nat) + " states"@,
        TuringError::UnknownStateError { state_name } => "Tried to access a state called \""@ + state_name@
            + "\", but it doesn't exists"@,
        TuringError::ParseError { reason } => "Couldn't parse the given input : \n"@ + reason@,
    }
}

impl TuringError {
    /// The message of this error, see [error_text].
    pub fn to_string(&self) -> (s: String)
        ensures
            s@ == error_text(*self),
    {
        let mut s = String::new();
        match self {
            TuringError::IllegalActionError { cause } => {
                push_str(&mut s, "The following action could cause an error or is simply not authorised : \n");
                s.append(cause.as_str());
            },
            TuringError::OutofRangeTapeError { accessed_index, tape_size } => {
                push_str(
                    &mut s,
                    "A transition caused the ribbon pointer to point ouside the bounds of the ribbon. Tried to access ",
                );
                push_decimal(&mut s, *accessed_index);
                push_str(&mut s, " but the length of the ribbon was ");
                push_decimal(&mut s, *tape_size);
            },
            TuringError::OutOfRangeTransitionError { accessed_index, states_len } => {
                push_str(
                    &mut s,
                    "Tried to access a transition from the vector of transition in a state, but it was out of range. Tried to access the index ",
                );
                push_decimal(&mut s, *accessed_index);
                push_str(&mut s, " but there are only ");
                push_decimal(&mut s, *states_len);
                push_str(&mut s, " transitions");
            },
            TuringError::IncompatibleTransitionError { expected, received } => {
                push_str(&mut s, "Tried to append a transition affecting \"");
                push_decimal(&mut s, *received);
                push_str(&mut s, "\" ribbons while all others only affect \"");
                push_decimal(&mut s, *expected);
                push_str(&mut s, "\" ribbons");
            },
            TuringError::TransitionArgsError { reason } => {
                push_str(&mut s, "There was a problem during the creation of a transition : \n");
                s.append(reason.as_str());
            },
            TuringError::OutOfRangeStateError { accessed_index, states_len } => {
                push_str(
                    &mut s,
                    "Tried to access a state from the vector of states in the graph, but it was out of range. Tried to access the index ",
                );
                push_decimal(&mut s, *accessed_index);
                push_str(&mut s, " but there are only ");
                push_decimal(&mut s, *states_len);
                push_str(&mut s, " states");
            },
            TuringError::UnknownStateError { state_name } => {
                push_str(&mut s, "Tried to access a state called \"");
                s.append(state_name.as_str());
                push_str(&mut s, "\", but it doesn't exists");
            },
            TuringError::ParseError { reason } => {
                push_str(&mut s, "Couldn't parse the given input : \n");
                s.append(reason.as_str());
            },
        }
        s
    }
}

/// `n` times the character `c`.
pub open spec fn repeated(c: char, n: nat) -> Seq<char> {
    Seq::new(n, |i: int| c)
}

/// A position of a text: its line and column, both starting at 1.
pub open spec fn position_ok(pos: Option<(usize, usize)>) -> bool {
    pos matches Some((_, col)) ==> col >= 1
}

/// The line of a text, preceded by its number and followed by a line with an
/// arrow under the given column, when a position is known.
pub open spec fn arrow_under(value: Seq<char>, pos: Option<(usize, usize)>) -> Seq<char> {
    match pos {
        Some((line, col)) => decimal(line as nat) + ": "@ + value + "\n"@ + repeated(
            ' ',
            decimal(line as nat).len() + 2,
        ) + repeated('-', (col - 1) as nat) + seq!['^'],
        None => value,
    }
}

fn push_repeated(s: &mut String, c: char, n: usize)
    ensures
        final(s)@ == old(s)@ + repeated(c, n as nat),
{
    let mut i: usize = 0;
    while i < n
        invariant
            i <= n,
            s@ =~= old(s)@ + repeated(c, i as nat),
        decreases n - i,
    {
        string_push(s, c);
        i = i + 1;
    }
}

/// Writes the line `value` with an arrow under the given position, if any.
fn get_arrow_under(value: &String, line_col_pos: &Option<(usize, usize)>) -> (r: String)
    requires
        position_ok(*line_col_pos),
    ensures
        r@ == arrow_under(value@, *line_col_pos),
{
    match line_col_pos {
        Some((line, col)) => {
            let mut line_str = String::new();
            push_decimal(&mut line_str, *line);
            let width = chars_of(line_str.as_str()).len();
            let mut r = String::new();
            r.append(line_str.as_str());
            push_str(&mut r, ": ");
            r.append(value.as_str());
            push_str(&mut r, "\n");
            push_repeated(&mut r, ' ', width);
            push_repeated(&mut r, ' ', 2);
            assert(repeated(' ', width as nat) + repeated(' ', 2) =~= repeated(' ', width as nat + 2));
            push_repeated(&mut r, '-', *col - 1);
            string_push(&mut r, '^');
            assert(r@ =~= arrow_under(value@, *line_col_pos));
            r
        },
        None => {
            let mut r = String::new();
            r.append(value.as_str());
            assert(r@ =~= value@);
            r
        },
    }
}

/// The message of a parser error.
pub open spec fn parser_error_text(e: TuringParserError) -> Seq<char> {
    match e {
        TuringParserError::FileError { given_path, error_reason } => "Ran into an error trying to open the file at \""@
            + given_path@ + "\". The reason being : "@ + error_reason@,
        TuringParserError::ParsingError { line_col_pos, value, missing_value } => "Impossible to parse the given input.\n"@
            + arrow_under(value@, line_col_pos) + match missing_value {
            Some(token) => "\nThis token might be missing : \""@ + token@ + "\""@,
            None => Seq::empty(),
        },
        TuringParserError::EncounteredTuringError { line_col_pos, turing_error, value } =>
            "Encountered an error at the following line: \n"@ + arrow_under(value@, line_col_pos) + "\nReason: "@
            + error_text(turing_error),
    }
}

/// The position carried by a parser error, if any, has a column of at least 1.
pub open spec fn parser_error_position_ok(e: TuringParserError) -> bool {
    match e {
        TuringParserError::FileError { .. } => true,
        TuringParserError::ParsingError { line_col_pos, .. } => position_ok(line_col_pos),
        TuringParserError::EncounteredTuringError { line_col_pos, .. } => position_ok(line_col_pos),
    }
}

impl TuringParserError {
    /// The message of this error, see [parser_error_text].
    pub fn to_string(&self) -> (s: String)
        requires
            parser_error_position_ok(*self),
        ensures
            s@ == parser_error_text(*self),
    {
        let mut s = String::new();
        match self {
            TuringParserError::FileError { given_path, error_reason } => {
                push_str(&mut s, "Ran into an error trying to open the file at \"");
                s.append(given_path.as_str());
                push_str(&mut s, "\". The reason being : ");
                s.append(error_reason.as_str());
            },
            TuringParserError::ParsingError { line_col_pos, value, missing_value } => {
                push_str(&mut s, "Impossible to parse the given input.\n");
                let a = get_arrow_under(value, line_col_pos);
                s.append(a.as_str());
                match missing_value {
                    Some(token) => {
                        push_str(&mut s, "\nThis token might be missing : \"");
                        s.append(token.as_str());
                        push_str(&mut s, "\"");
                    },
                    None => {},
                }
            },
            TuringParserError::EncounteredTuringError { line_col_pos, turing_error, value } => {
                push_str(&mut s, "Encountered an error at the following line: \n");
                let a = get_arrow_under(value, line_col_pos);
                s.append(a.as_str());
                push_str(&mut s, "\nReason: ");
                let r = turing_error.to_string();
                s.append(r.as_str());
            },
        }
        s
    }
}

} // verus!
