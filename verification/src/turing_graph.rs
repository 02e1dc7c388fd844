//! The graph of a Turing machine: its states and the transitions between them.
use vstd::prelude::*;

use crate::text::{chars_of, push_str};
use crate::turing_errors::TuringError;
use crate::turing_state::{
    StateView, TransitionView, TuringDirection, TuringState, TuringStateType, TuringTransition,
    transition_views,
};
use crate::turing_tape::{END_CHAR, INIT_CHAR, replacement_ok};

verus! {

/// The name of the initial state of every graph.
pub const DEFAULT_INIT_STATE: &'static str = "i";

/// The name of the accepting state that every graph starts with.
pub const DEFAULT_ACCEPTING_STATE: &'static str = "a";

/// What a graph is, as mathematical values: its states, in order, and its
/// number of writing tapes.
#[verifier::ext_equal]
pub struct GraphView {
    pub states: Seq<StateView>,
    pub k: nat,
}

/// A rule `read -> write, dir` of a writing tape that can always be applied
/// to a tape whose head reads `read`: it does not leave the tape on the left
/// and the replacement is allowed.
pub open spec fn write_rule_safe(read: char, write: char, dir: TuringDirection) -> bool {
    !(read == INIT_CHAR && dir == TuringDirection::Left) && replacement_ok(read, write)
}

/// The rule of the writing tape `i` of a transition is safe.
pub open spec fn write_rule_safe_at(t: TransitionView, i: int) -> bool {
    write_rule_safe(t.chars_read[i + 1], t.chars_write[i].0, t.chars_write[i].1)
}

/// A transition that can always be applied to tapes whose heads read what it
/// reads: its sizes agree, the reading head does not leave the reading tape and
/// every rule of a writing tape is safe.
pub open spec fn transition_safe(t: TransitionView) -> bool {
    &&& t.chars_read.len() == t.chars_write.len() + 1
    &&& !(t.chars_read[0] == INIT_CHAR && t.move_read == TuringDirection::Left)
    &&& !(t.chars_read[0] == END_CHAR && t.move_read == TuringDirection::Right)
    &&& forall|i: int| 0 <= i < t.chars_write.len() ==> #[trigger] write_rule_safe_at(t, i)
}

/// A transition that fits in a graph of `k` writing tapes and `n` states.
pub open spec fn transition_fits(t: TransitionView, k: nat, n: nat) -> bool {
    &&& t.chars_read.len() == k + 1
    &&& transition_safe(t)
    &&& t.index_to_state matches Some(j) && j < n
}

/// The invariant of every graph: at least one writing tape, at least one
/// state, states of distinct names, and every transition fits in the graph.
pub open spec fn graph_wf(g: GraphView) -> bool {
    &&& 1 <= g.k < usize::MAX
    &&& 1 <= g.states.len()
    &&& forall|i: int, j: int|
        0 <= i < g.states.len() && 0 <= j < g.states.len() && i != j ==> #[trigger] g.states[i].name
            != #[trigger] g.states[j].name
    &&& forall|i: int| 0 <= i < g.states.len() ==> #[trigger] g.states[i].transitions.len() <= usize::MAX
    &&& forall|i: int, n: int|
        0 <= i < g.states.len() && 0 <= n < g.states[i].transitions.len() ==> transition_fits(
            #[trigger] g.states[i].transitions[n],
            g.k,
            g.states.len(),
        )
}

/// The index of the state named `name`, if any.
pub open spec fn index_of_name(g: GraphView, name: Seq<char>) -> Option<nat> {
    if exists|i: int| 0 <= i < g.states.len() && #[trigger] g.states[i].name == name {
        Some((choose|i: int| 0 <= i < g.states.len() && #[trigger] g.states[i].name == name) as nat)
    } else {
        None
    }
}

/// The views of a sequence of states.
pub open spec fn state_views(ss: Seq<TuringState>) -> Seq<StateView> {
    ss.map_values(|s: TuringState| s@)
}

/// A new state of the given type, name and no transitions.
pub open spec fn fresh_state(state_type: TuringStateType, name: Seq<char>) -> StateView {
    StateView { state_type, transitions: Seq::empty(), name }
}

/// The graph that [TuringMachineGraph::new] builds for `k` writing tapes.
pub open spec fn initial_graph(k: nat) -> GraphView {
    GraphView {
        states: seq![
            fresh_state(TuringStateType::Normal, seq!['i']),
            fresh_state(TuringStateType::Accepting, seq!['a']),
        ],
        k,
    }
}

/// The transition `t` redirected to the state of index `to`.
pub open spec fn pointing_to(t: TransitionView, to: usize) -> TransitionView {
    TransitionView { index_to_state: Some(to), ..t }
}

/// The graph `g` where the transition `t` was added from the state `from` to the state `to`.
pub open spec fn with_rule(g: GraphView, from: int, t: TransitionView, to: usize) -> GraphView {
    GraphView {
        states: g.states.update(
            from,
            StateView { transitions: g.states[from].transitions.push(pointing_to(t, to)), ..g.states[from] },
        ),
        ..g
    }
}

/// The graph `g` where every transition from the state `from` to the state `to`
/// that is the rule `t` was removed.
pub open spec fn without_rule(g: GraphView, from: int, t: TransitionView, to: usize) -> GraphView {
    GraphView {
        states: g.states.update(
            from,
            StateView {
                transitions: g.states[from].transitions.filter(
                    |u: TransitionView| u != pointing_to(t, to),
                ),
                ..g.states[from]
            },
        ),
        ..g
    }
}

/// A transition once the state of index `removed` is gone: the indexes after it move down by one.
pub open spec fn shifted(t: TransitionView, removed: usize) -> TransitionView {
    match t.index_to_state {
        Some(j) => if j > removed {
            TransitionView { index_to_state: Some((j - 1) as usize), ..t }
        } else {
            t
        },
        None => t,
    }
}

/// Keeps the transitions that do not lead to the state of index `removed`.
pub open spec fn not_leading_to(removed: usize) -> spec_fn(TransitionView) -> bool {
    |t: TransitionView| t.index_to_state != Some(removed)
}

/// Moves the index of the target of a transition down when it was after `removed`.
pub open spec fn shift_after(removed: usize) -> spec_fn(TransitionView) -> TransitionView {
    |t: TransitionView| shifted(t, removed)
}

/// A state once the state of index `removed` is gone: its transitions to that
/// state are dropped and the others follow the new indexes.
pub open spec fn state_after_removal(s: StateView, removed: usize) -> StateView {
    StateView {
        transitions: s.transitions.filter(not_leading_to(removed)).map_values(shift_after(removed)),
        ..s
    }
}

/// The graph `g` without its state of index `removed` and every mention of it.
pub open spec fn without_state(g: GraphView, removed: usize) -> GraphView {
    GraphView {
        states: g.states.remove(removed as int).map_values(|s: StateView| state_after_removal(s, removed)),
        ..g
    }
}

/// A struct representing a Turing Machine graph with a reading tape and `k` **writing** tapes (`k >= 1`).
///
/// Every graph holds the initial state `q_i` (index `0`) and starts with the
/// accepting state `q_a` (index `1`).
#[derive(Debug)]
pub struct TuringMachineGraph {
    /// The states of the graph; a transition points at its target by its index here.
    states: Vec<TuringState>,
    /// The number of writing tapes.
    k: usize,
}

impl View for TuringMachineGraph {
    type V = GraphView;

    closed spec fn view(&self) -> GraphView {
        GraphView { states: state_views(self.states@), k: self.k as nat }
    }
}

impl TuringMachineGraph {
    /// The invariant of the graph.
    pub open spec fn wf(&self) -> bool {
        graph_wf(self@)
    }

    /// Creates a new Turing machine graph for `k` writing tapes, holding the
    /// initial state `q_i` and the accepting state `q_a`.
    ///
    /// # Errors
    /// * [TuringError::IllegalActionError] if `k` is `0`, or so large that `k + 1` tapes cannot be counted.
    pub fn new(k: usize) -> (res: Result<Self, TuringError>)
        ensures
            res is Ok <==> 1 <= k < usize::MAX,
            res matches Ok(g) ==> g.wf() && g@ == initial_graph(k as nat),
            res matches Err(e) ==> e is IllegalActionError,
    {
        if k == 0 || k == usize::MAX {
            let mut cause = String::new();
            push_str(&mut cause, "A Turing machine needs at least one writing tape (and fewer than usize::MAX).");
            return Err(TuringError::IllegalActionError { cause });
        }
        let mut states: Vec<TuringState> = Vec::new();
        proof {
            reveal_strlit("i");
            reveal_strlit("a");
        }
        let init_name = String::from_str("i");
        let accepting_name = String::from_str("a");
        assert(init_name@ =~= seq!['i']);
        assert(accepting_name@ =~= seq!['a']);
        states.push(TuringState::new(TuringStateType::Normal, &init_name));
        states.push(TuringState::new(TuringStateType::Accepting, &accepting_name));
        let g = Self { states, k };
        assert(g@.states =~= initial_graph(k as nat).states);
        assert(g@.states[0].name[0] != g@.states[1].name[0]);
        assert(graph_wf(g@));
        Ok(g)
    }

    /// Returns the number of writing tapes.
    pub fn get_k(&self) -> (k: usize)
        ensures
            k == self@.k,
    {
        self.k
    }

    /// Returns the states of this graph, in order of their indexes.
    pub fn get_states(&self) -> (states: &Vec<TuringState>)
        ensures
            state_views(states@) == self@.states,
    {
        &self.states
    }

    /// Returns the state at the given index.
    ///
    /// # Errors
    /// * [TuringError::OutOfRangeStateError] if no state has this index.
    pub fn get_state(&self, index: usize) -> (res: Result<&TuringState, TuringError>)
        ensures
            res is Ok <==> index < self@.states.len(),
            res matches Ok(s) ==> s@ == self@.states[index as int],
            res matches Err(e) ==> e == (TuringError::OutOfRangeStateError {
                accessed_index: index,
                states_len: self@.states.len() as usize,
            }),
    {
        if index < self.states.len() {
            Ok(&self.states[index])
        } else {
            Err(TuringError::OutOfRangeStateError { accessed_index: index, states_len: self.states.len() })
        }
    }

    /// Returns the index of the state of the given name, if there is one.
    pub fn get_state_index(&self, name: &String) -> (res: Option<usize>)
        requires
            self.wf(),
        ensures
            match index_of_name(self@, name@) {
                Some(i) => res == Some(i as usize),
                None => res is None,
            },
            res matches Some(i) ==> i < self@.states.len() && self@.states[i as int].name == name@,
    {
        let mut i: usize = 0;
        while i < self.states.len()
            invariant
                graph_wf(self@),
                i <= self@.states.len(),
                forall|j: int| 0 <= j < i ==> #[trigger] self@.states[j].name != name@,
            decreases self.states.len() - i,
        {
            if self.states[i].name == *name {
                assert(self@.states[i as int].name == name@);
                proof {
                    let c = choose|j: int| 0 <= j < self@.states.len() && #[trigger] self@.states[j].name == name@;
                    assert(c == i);
                }
                return Some(i);
            }
            i = i + 1;
        }
        None
    }

    /// Adds a new normal state of the given name and returns its index; if a
    /// state already has this name, the graph is left as it is and the index
    /// of that state is returned.
    pub fn add_state(&mut self, name: &String) -> (index: usize)
        requires
            old(self).wf(),
            old(self)@.states.len() < usize::MAX,
        ensures
            final(self).wf(),
            index_of_name(old(self)@, name@) matches Some(i) ==> index == i && final(self)@ == old(self)@,
            index_of_name(old(self)@, name@) is None ==> index == old(self)@.states.len() && final(self)@
                == (GraphView {
                states: old(self)@.states.push(fresh_state(TuringStateType::Normal, name@)),
                ..old(self)@
            }),
    {
        match self.get_state_index(name) {
            Some(index) => index,
            None => {
                let index = self.states.len();
                let s = TuringState::new(TuringStateType::Normal, name);
                self.states.push(s);
                assert(self@.states =~= old(self)@.states.push(fresh_state(TuringStateType::Normal, name@)));
                assert forall|i: int, j: int|
                    0 <= i < self@.states.len() && 0 <= j < self@.states.len() && i != j implies #[trigger] self@.states[i].name
                        != #[trigger] self@.states[j].name by {
                    if i == index as int {
                        assert(old(self)@.states[j].name != name@);
                    } else if j == index as int {
                        assert(old(self)@.states[i].name != name@);
                    }
                }
                index
            },
        }
    }
}

fn copy_states(ss: &Vec<TuringState>) -> (r: Vec<TuringState>)
    ensures
        state_views(r@) == state_views(ss@),
{
    let mut r: Vec<TuringState> = Vec::new();
    let mut i: usize = 0;
    while i < ss.len()
        invariant
            i <= ss@.len(),
            r@.len() == i,
            forall|j: int| 0 <= j < i ==> #[trigger] r@[j]@ == ss@[j]@,
        decreases ss.len() - i,
    {
        r.push(ss[i].clone());
        i = i + 1;
    }
    assert(state_views(r@) =~= state_views(ss@));
    r
}

impl Clone for TuringMachineGraph {
    fn clone(&self) -> (res: Self)
        ensures
            res@ == self@,
    {
        Self { states: copy_states(&self.states), k: self.k }
    }
}

fn write_rule_safety(read: char, write: char, dir: TuringDirection) -> (r: bool)
    ensures
        r == write_rule_safe(read, write, dir),
{
    if read == INIT_CHAR && dir == TuringDirection::Left {
        return false;
    }
    read == write || (write != INIT_CHAR && write != END_CHAR && read != INIT_CHAR)
}

/// Checks that a transition can always be applied to tapes whose heads read what it reads.
fn transition_safety(t: &TuringTransition) -> (r: bool)
    requires
        t.chars_read@.len() == t.chars_write@.len() + 1,
    ensures
        r == transition_safe(t@),
{
    if t.chars_read[0] == INIT_CHAR && t.move_read == TuringDirection::Left {
        return false;
    }
    if t.chars_read[0] == END_CHAR && t.move_read == TuringDirection::Right {
        return false;
    }
    let mut i: usize = 0;
    while i < t.chars_write.len()
        invariant
            t.chars_read@.len() == t.chars_write@.len() + 1,
            i <= t.chars_write@.len(),
            forall|j: int| 0 <= j < i ==> #[trigger] write_rule_safe_at(t@, j),
        decreases t.chars_write.len() - i,
    {
        if !write_rule_safety(t.chars_read[i + 1], t.chars_write[i].0, t.chars_write[i].1) {
            assert(!write_rule_safe_at(t@, i as int));
            return false;
        }
        i = i + 1;
    }
    true
}

fn unknown_state(name: &String) -> (e: TuringError)
    ensures
        e matches TuringError::UnknownStateError { state_name } && state_name@ == name@,
{
    TuringError::UnknownStateError { state_name: name.clone() }
}

impl TuringMachineGraph {
    /// Adds a new rule to a state of the machine of the form : `from {transition} to`.
    /// Meaning, a new edge is added to the graph: the transition now points at `to`.
    ///
    /// # Errors
    /// * [TuringError::OutOfRangeStateError] if `from`, then `to`, is not the index of a state.
    /// * [TuringError::IncompatibleTransitionError] if the transition does not read `k + 1` tapes.
    /// * [TuringError::TransitionArgsError] if it does not write `k` tapes.
    /// * [TuringError::IllegalActionError] if applying it could move a head out
    ///   of its tape or replace a character in a way that tapes refuse.
    pub fn append_rule_state(&mut self, from: usize, transition: TuringTransition, to: usize) -> (res:
        Result<(), TuringError>)
        requires
            old(self).wf(),
        ensures
            final(self).wf(),
            ({
                let g = old(self)@;
                let t = transition@;
                if from >= g.states.len() {
                    res == Err::<(), TuringError>(
                        TuringError::OutOfRangeStateError { accessed_index: from, states_len: g.states.len() as usize },
                    ) && final(self)@ == g
                } else if to >= g.states.len() {
                    res == Err::<(), TuringError>(
                        TuringError::OutOfRangeStateError { accessed_index: to, states_len: g.states.len() as usize },
                    ) && final(self)@ == g
                } else if t.chars_read.len() != g.k + 1 {
                    res == Err::<(), TuringError>(
                        TuringError::IncompatibleTransitionError {
                            expected: (g.k + 1) as usize,
                            received: t.chars_read.len() as usize,
                        },
                    ) && final(self)@ == g
                } else if t.chars_write.len() != g.k {
                    (res matches Err(e) && e is TransitionArgsError) && final(self)@ == g
                } else if !transition_safe(t) {
                    (res matches Err(e) && e is IllegalActionError) && final(self)@ == g
                } else {
                    res is Ok && final(self)@ == with_rule(g, from as int, t, to)
                }
            }),
    {
        let len = self.states.len();
        if from >= len {
            return Err(TuringError::OutOfRangeStateError { accessed_index: from, states_len: len });
        }
        if to >= len {
            return Err(TuringError::OutOfRangeStateError { accessed_index: to, states_len: len });
        }
        if transition.chars_read.len() != self.k + 1 {
            return Err(
                TuringError::IncompatibleTransitionError {
                    expected: self.k + 1,
                    received: transition.chars_read.len(),
                },
            );
        }
        if transition.chars_write.len() != self.k {
            let mut reason = String::new();
            push_str(&mut reason, "The number of characters to write must be equal to the number of characters to read minus one (for the reading tape)");
            return Err(TuringError::TransitionArgsError { reason });
        }
        if !transition_safety(&transition) {
            let mut cause = String::new();
            push_str(&mut cause, "Applying this transition could move a head out of its tape or replace a special character");
            return Err(TuringError::IllegalActionError { cause });
        }
        let ghost g = self@;
        let mut t = transition;
        t.index_to_state = Some(to);
        let mut state = self.states.remove(from);
        assert(state@ == g.states[from as int]);
        proof {
            if state@.transitions.len() > 0 {
                assert(transition_fits(g.states[from as int].transitions[0], g.k, g.states.len()));
            }
        }
        let added = state.add_transition(t);
        assert(added is Ok);
        let _ = state.transitions.len();
        self.states.insert(from, state);
        assert(self@.states =~= with_rule(g, from as int, transition@, to).states);
        proof {
            let ng = self@;
            assert forall|i: int, n: int|
                0 <= i < ng.states.len() && 0 <= n < ng.states[i].transitions.len() implies transition_fits(
                    #[trigger] ng.states[i].transitions[n],
                    ng.k,
                    ng.states.len(),
                ) by {
                if i != from as int || n < g.states[i].transitions.len() {
                    assert(ng.states[i].transitions[n] == g.states[i].transitions[n]);
                } else {
                    let nt = pointing_to(transition@, to);
                    assert(ng.states[i].transitions[n] == nt);
                    assert forall|m: int| 0 <= m < nt.chars_write.len() implies #[trigger] write_rule_safe_at(nt, m) by {
                        assert(write_rule_safe_at(transition@, m));
                    }
                }
            }
            assert forall|i: int, j: int|
                0 <= i < ng.states.len() && 0 <= j < ng.states.len() && i != j implies #[trigger] ng.states[i].name
                    != #[trigger] ng.states[j].name by {
                assert(g.states[i].name != g.states[j].name);
            }
        }
        Ok(())
    }

    /// Adds a new rule `from {transition} to` between the states of the given names.
    ///
    /// # Errors
    /// * [TuringError::UnknownStateError] if no state is named `from`, then `to`.
    /// * Otherwise those of [TuringMachineGraph::append_rule_state].
    pub fn append_rule_state_by_name(&mut self, from: &String, transition: TuringTransition, to: &String) -> (res:
        Result<(), TuringError>)
        requires
            old(self).wf(),
        ensures
            final(self).wf(),
            ({
                let g = old(self)@;
                let t = transition@;
                match (index_of_name(g, from@), index_of_name(g, to@)) {
                    (None, _) => (res matches Err(TuringError::UnknownStateError { state_name }) && state_name@
                        == from@) && final(self)@ == g,
                    (Some(_), None) => (res matches Err(TuringError::UnknownStateError { state_name })
                        && state_name@ == to@) && final(self)@ == g,
                    (Some(f), Some(d)) => if t.chars_read.len() != g.k + 1 {
                        res == Err::<(), TuringError>(
                            TuringError::IncompatibleTransitionError {
                                expected: (g.k + 1) as usize,
                                received: t.chars_read.len() as usize,
                            },
                        ) && final(self)@ == g
                    } else if t.chars_write.len() != g.k {
                        (res matches Err(e) && e is TransitionArgsError) && final(self)@ == g
                    } else if !transition_safe(t) {
                        (res matches Err(e) && e is IllegalActionError) && final(self)@ == g
                    } else {
                        res is Ok && final(self)@ == with_rule(g, f as int, t, d as usize)
                    },
                }
            }),
    {
        let from_index = match self.get_state_index(from) {
            Some(i) => i,
            None => {
                return Err(unknown_state(from));
            },
        };
        let to_index = match self.get_state_index(to) {
            Some(i) => i,
            None => {
                return Err(unknown_state(to));
            },
        };
        self.append_rule_state(from_index, transition, to_index)
    }

    /// Removes every transition of the form `from {transition} to` between the
    /// states of the given names; when there is none, nothing changes.
    ///
    /// # Errors
    /// * [TuringError::UnknownStateError] if no state is named `from`, then `to`.
    pub fn remove_transition(&mut self, from: &String, transition: &TuringTransition, to: &String) -> (res:
        Result<(), TuringError>)
        requires
            old(self).wf(),
        ensures
            final(self).wf(),
            ({
                let g = old(self)@;
                match (index_of_name(g, from@), index_of_name(g, to@)) {
                    (None, _) => (res matches Err(TuringError::UnknownStateError { state_name }) && state_name@
                        == from@) && final(self)@ == g,
                    (Some(_), None) => (res matches Err(TuringError::UnknownStateError { state_name })
                        && state_name@ == to@) && final(self)@ == g,
                    (Some(f), Some(d)) => res is Ok && final(self)@ == without_rule(
                        g,
                        f as int,
                        transition@,
                        d as usize,
                    ),
                }
            }),
    {
        let from_index = match self.get_state_index(from) {
            Some(i) => i,
            None => {
                return Err(unknown_state(from));
            },
        };
        let to_index = match self.get_state_index(to) {
            Some(i) => i,
            None => {
                return Err(unknown_state(to));
            },
        };
        let ghost g = self@;
        let mut t = transition.clone();
        t.index_to_state = Some(to_index);
        let mut state = self.states.remove(from_index);
        assert(state@ == g.states[from_index as int]);
        state.remove_transition(&t);
        assert((|u: TransitionView| u != t@) =~= (|u: TransitionView| u != pointing_to(transition@, to_index)));
        self.states.insert(from_index, state);
        assert(self@.states =~= without_rule(g, from_index as int, transition@, to_index).states);
        proof {
            let ng = self@;
            let pred = |u: TransitionView| u != pointing_to(transition@, to_index);
            assert forall|i: int, n: int|
                0 <= i < ng.states.len() && 0 <= n < ng.states[i].transitions.len() implies transition_fits(
                    #[trigger] ng.states[i].transitions[n],
                    ng.k,
                    ng.states.len(),
                ) by {
                if i != from_index as int {
                    assert(ng.states[i].transitions[n] == g.states[i].transitions[n]);
                } else {
                    let ts = g.states[i].transitions;
                    let u = ts.filter(pred)[n];
                    assert(ts.filter(pred).contains(u));
                    ts.lemma_filter_contains_rev(pred, u);
                    let m = choose|m: int| 0 <= m < ts.len() && ts[m] == u;
                    assert(transition_fits(ts[m], g.k, g.states.len()));
                }
            }
            assert forall|i: int, j: int|
                0 <= i < ng.states.len() && 0 <= j < ng.states.len() && i != j implies #[trigger] ng.states[i].name
                    != #[trigger] ng.states[j].name by {
                assert(g.states[i].name != g.states[j].name);
            }
        }
        Ok(())
    }
}

/// The state `s` once the state of index `removed` is gone.
fn state_without(s: &TuringState, removed: usize) -> (r: TuringState)
    ensures
        r@ == state_after_removal(s@, removed),
{
    let ghost ts = s@.transitions;
    let ghost pred = not_leading_to(removed);
    let ghost f = shift_after(removed);
    let mut res: Vec<TuringTransition> = Vec::new();
    let mut j: usize = 0;
    while j < s.transitions.len()
        invariant
            ts == s@.transitions,
            pred == not_leading_to(removed),
            f == shift_after(removed),
            j <= ts.len(),
            transition_views(res@) == ts.take(j as int).filter(pred).map_values(f),
        decreases s.transitions.len() - j,
    {
        proof {
            crate::turing_state::lemma_filter_take_step(ts, pred, j as int);
        }
        let t = &s.transitions[j];
        let keep = match t.index_to_state {
            Some(target) => target != removed,
            None => true,
        };
        if keep {
            let mut c = t.clone();
            match t.index_to_state {
                Some(target) => {
                    if target > removed {
                        c.index_to_state = Some(target - 1);
                    }
                },
                None => {},
            }
            assert(c@ == shifted(ts[j as int], removed));
            res.push(c);
            assert(transition_views(res@) =~= ts.take(j as int).filter(pred).map_values(f).push(f(ts[j as int])));
            assert(ts.take(j + 1).filter(pred) == ts.take(j as int).filter(pred).push(ts[j as int]));
            assert(ts.take(j as int).filter(pred).push(ts[j as int]).map_values(f) =~= ts.take(j as int).filter(
                pred,
            ).map_values(f).push(f(ts[j as int])));
        }
        j = j + 1;
    }
    assert(ts.take(ts.len() as int) =~= ts);
    TuringState { state_type: s.state_type, transitions: res, name: s.name.clone() }
}

impl TuringMachineGraph {
    /// Removes a state and **all** mentions of it in **all** transitions of
    /// **all** the other states of the graph; the states after it move down
    /// by one index, and so do the transitions that lead to them.
    ///
    /// # Errors
    /// * [TuringError::OutOfRangeStateError] if no state has this index.
    /// * [TuringError::IllegalActionError] if it is the initial state (index `0`).
    pub fn remove_state(&mut self, index: usize) -> (res: Result<(), TuringError>)
        requires
            old(self).wf(),
        ensures
            final(self).wf(),
            ({
                let g = old(self)@;
                if index >= g.states.len() {
                    res == Err::<(), TuringError>(
                        TuringError::OutOfRangeStateError { accessed_index: index, states_len: g.states.len() as usize },
                    ) && final(self)@ == g
                } else if index == 0 {
                    (res matches Err(e) && e is IllegalActionError) && final(self)@ == g
                } else {
                    res is Ok && final(self)@ == without_state(g, index)
                }
            }),
    {
        let len = self.states.len();
        if index >= len {
            return Err(TuringError::OutOfRangeStateError { accessed_index: index, states_len: len });
        }
        if index == 0 {
            let mut cause = String::new();
            push_str(&mut cause, "The initial state cannot be removed");
            return Err(TuringError::IllegalActionError { cause });
        }
        let ghost g = self@;
        let ghost rest = g.states.remove(index as int);
        let mut new_states: Vec<TuringState> = Vec::new();
        let mut i: usize = 0;
        while i < self.states.len()
            invariant
                self@ == g,
                rest == g.states.remove(index as int),
                1 <= index < g.states.len(),
                i <= g.states.len(),
                new_states@.len() == if i <= index { i as int } else { i - 1 },
                forall|m: int| 0 <= m < new_states@.len() ==> #[trigger] new_states@[m]@ == state_after_removal(
                    rest[m],
                    index,
                ),
            decreases self.states.len() - i,
        {
            if i != index {
                let s = state_without(&self.states[i], index);
                new_states.push(s);
            }
            i = i + 1;
        }
        self.states = new_states;
        assert(self@.states =~= without_state(g, index).states);
        proof {
            let ng = self@;
            let pred = not_leading_to(index);
            assert forall|i: int, n: int|
                0 <= i < ng.states.len() && 0 <= n < ng.states[i].transitions.len() implies transition_fits(
                    #[trigger] ng.states[i].transitions[n],
                    ng.k,
                    ng.states.len(),
                ) by {
                let ts = rest[i].transitions;
                let u = ts.filter(pred)[n];
                assert(ng.states[i].transitions[n] == shifted(u, index));
                ts.lemma_filter_pred(pred, n);
                assert(ts.filter(pred).contains(u));
                ts.lemma_filter_contains_rev(pred, u);
                let m = choose|m: int| 0 <= m < ts.len() && ts[m] == u;
                let oi = if i < index { i } else { i + 1 };
                assert(rest[i] == g.states[oi]);
                assert(transition_fits(g.states[oi].transitions[m], g.k, g.states.len()));
                let nt = shifted(u, index);
                assert forall|w: int| 0 <= w < nt.chars_write.len() implies #[trigger] write_rule_safe_at(nt, w) by {
                    assert(write_rule_safe_at(u, w));
                }
            }
            assert forall|i: int, j: int|
                0 <= i < ng.states.len() && 0 <= j < ng.states.len() && i != j implies #[trigger] ng.states[i].name
                    != #[trigger] ng.states[j].name by {
                let oi = if i < index { i } else { i + 1 };
                let oj = if j < index { j } else { j + 1 };
                assert(rest[i] == g.states[oi]);
                assert(rest[j] == g.states[oj]);
                assert(g.states[oi].name != g.states[oj].name);
            }
        }
        Ok(())
    }

    /// Removes the state of the given name, see [TuringMachineGraph::remove_state].
    ///
    /// # Errors
    /// * [TuringError::UnknownStateError] if no state has this name.
    /// * [TuringError::IllegalActionError] if it is the initial state.
    pub fn remove_state_with_name(&mut self, name: &String) -> (res: Result<(), TuringError>)
        requires
            old(self).wf(),
        ensures
            final(self).wf(),
            ({
                let g = old(self)@;
                match index_of_name(g, name@) {
                    None => (res matches Err(TuringError::UnknownStateError { state_name }) && state_name@
                        == name@) && final(self)@ == g,
                    Some(i) => if i == 0 {
                        (res matches Err(e) && e is IllegalActionError) && final(self)@ == g
                    } else {
                        res is Ok && final(self)@ == without_state(g, i as usize)
                    },
                }
            }),
    {
        match self.get_state_index(name) {
            Some(i) => self.remove_state(i),
            None => Err(unknown_state(name)),
        }
    }
}


/// Law: removing the rule `from {t} to` takes out of the state `from` exactly
/// the transitions equal to `t` pointing at `to` (same characters read, same
/// move of the reading head, same characters written with the same moves),
/// keeps every other one in its order (one that writes differently is kept),
/// and changes nothing else.
pub proof fn lemma_remove_rule_exact(g: GraphView, from: int, t: TransitionView, to: usize)
    requires
        0 <= from < g.states.len(),
    ensures
        ({
            let old_ts = g.states[from].transitions;
            let g2 = without_rule(g, from, t, to);
            let new_ts = g2.states[from].transitions;
            let gone = |u: TransitionView|
                u.chars_read == t.chars_read && u.move_read == t.move_read && u.chars_write == t.chars_write
                    && u.index_to_state == Some(to);
            &&& g2.k == g.k
            &&& g2.states.len() == g.states.len()
            &&& forall|j: int| 0 <= j < g.states.len() && j != from ==> #[trigger] g2.states[j] == g.states[j]
            &&& g2.states[from].name == g.states[from].name
            &&& g2.states[from].state_type == g.states[from].state_type
            &&& forall|u: TransitionView| #[trigger] new_ts.contains(u) <==> old_ts.contains(u) && !gone(u)
            &&& new_ts.len() + old_ts.filter(gone).len() == old_ts.len()
            &&& forall|n: int| 0 <= n < old_ts.len() && !gone(old_ts[n]) ==> #[trigger] new_ts.contains(old_ts[n])
        }),
{
    let old_ts = g.states[from].transitions;
    let pred = |u: TransitionView| u != pointing_to(t, to);
    let gone = |u: TransitionView|
        u.chars_read == t.chars_read && u.move_read == t.move_read && u.chars_write == t.chars_write
            && u.index_to_state == Some(to);
    assert forall|u: TransitionView| #[trigger] pred(u) <==> !gone(u) by {
        if !pred(u) {
            assert(u == pointing_to(t, to));
        }
        if gone(u) {
            assert(u =~= pointing_to(t, to));
        }
    }
    let new_ts = old_ts.filter(pred);
    assert forall|u: TransitionView| #[trigger] new_ts.contains(u) <==> old_ts.contains(u) && !gone(u) by {
        if new_ts.contains(u) {
            let i = choose|i: int| 0 <= i < new_ts.len() && new_ts[i] == u;
            old_ts.lemma_filter_pred(pred, i);
            old_ts.lemma_filter_contains_rev(pred, u);
        }
        if old_ts.contains(u) && !gone(u) {
            let i = choose|i: int| 0 <= i < old_ts.len() && old_ts[i] == u;
            assert(pred(old_ts[i]));
            old_ts.lemma_filter_contains(pred, i);
        }
    }
    lemma_filter_split(old_ts, pred, gone);
}

/// Filtering by a predicate and by its negation splits a sequence in two.
proof fn lemma_filter_split(s: Seq<TransitionView>, p: spec_fn(TransitionView) -> bool, q: spec_fn(TransitionView) -> bool)
    requires
        forall|u: TransitionView| #[trigger] p(u) <==> !q(u),
    ensures
        s.filter(p).len() + s.filter(q).len() == s.len(),
    decreases s.len(),
{
    reveal_with_fuel(Seq::<_>::filter, 1);
    if s.len() > 0 {
        lemma_filter_split(s.drop_last(), p, q);
        assert(p(s.last()) || q(s.last()));
    }
}


/// Law: a rule of a writing tape that the graph accepts never writes the end
/// character or the initial character over another character, never replaces
/// the initial character, and never moves left from it.
pub proof fn lemma_safe_rule_keeps_special(read: char, write: char, dir: TuringDirection)
    ensures
        write_rule_safe(read, write, dir) && (write == END_CHAR || write == INIT_CHAR) ==> read == write,
        write_rule_safe(read, write, dir) && read == INIT_CHAR ==> write == INIT_CHAR && dir != TuringDirection::Left,
        read != INIT_CHAR && write != INIT_CHAR && write != END_CHAR ==> write_rule_safe(read, write, dir),
{
}

} // verus!
