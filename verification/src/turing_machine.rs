//! The execution of a (non-deterministic) Turing machine graph on a word,
//! with backtracking.
use vstd::prelude::*;

use std::collections::VecDeque;

use crate::text::{decimal, push_decimal, push_str};
use crate::turing_errors::TuringError;
use crate::turing_graph::{graph_wf, GraphView, TuringMachineGraph};
use crate::turing_state::{
    dir_value, indexes_reading, lemma_indexes_reading, state_text, transition_text, StateView, TransitionView, TuringState, TuringStateType, TuringTransition,
};
use crate::turing_tape::{
    copy_writing_tapes, head_char, tape_text, reading_contents, reading_tape_wf, tape_views, word_ok, write_step,
    writing_tape_wf, TapeView, TuringReadingTape, TuringTape, TuringWritingTape, BLANK_CHAR, INIT_CHAR,
};

verus! {

/// Represents the different mode a turing machine can have during it's execution
#[derive(Clone, Copy, Debug, PartialEq, Eq, Structural)]
pub enum Mode {
    /// Explores all possible paths (and possibilities using backtracking) until an accepting state is found or no path is left is to take.
    SaveAll,
    /// Stops after the specified amount of iteration is reached even if the execution is not over.
    StopAfter(usize),
    /// Stops after meeting the first rejecting state or when the execution is blocked, even if backtracking is possible
    StopFirstReject,
}

/// What a saved state is, as mathematical values.
#[verifier::ext_equal]
pub struct SavedView {
    pub state: usize,
    pub next: Seq<usize>,
    pub read: TapeView,
    pub writes: Seq<TapeView>,
    pub iteration: usize,
}

/// A point of the exploration to come back to: a configuration and the
/// transitions that are left to try from it.
#[derive(Debug)]
pub struct SavedState {
    /// The index of the saved state
    pub saved_state_index: usize,
    /// A stack containing all the indexes of the transitions left to take
    pub next_transitions: VecDeque<usize>,
    /// The value of the [TuringReadingTape] when it was saved
    pub saved_read_ribbon: TuringReadingTape,
    /// The value of the [TuringWritingTape]s when they were saved
    pub saved_write_ribbons: Vec<TuringWritingTape>,
    /// The value of the iteration that was saved.
    pub iteration: usize,
}

impl View for SavedState {
    type V = SavedView;

    open spec fn view(&self) -> SavedView {
        SavedView {
            state: self.saved_state_index,
            next: self.next_transitions@,
            read: self.saved_read_ribbon@,
            writes: tape_views(self.saved_write_ribbons@),
            iteration: self.iteration,
        }
    }
}

fn copy_indexes(v: &VecDeque<usize>) -> (r: VecDeque<usize>)
    ensures
        r@ == v@,
{
    let mut r: VecDeque<usize> = VecDeque::new();
    let mut i: usize = 0;
    while i < v.len()
        invariant
            i <= v@.len(),
            r@ =~= v@.take(i as int),
        decreases v.len() - i,
    {
        r.push_back(v[i]);
        i = i + 1;
    }
    assert(r@ =~= v@);
    r
}

impl Clone for SavedState {
    fn clone(&self) -> (res: Self)
        ensures
            res@ == self@,
    {
        SavedState {
            saved_state_index: self.saved_state_index,
            next_transitions: copy_indexes(&self.next_transitions),
            saved_read_ribbon: self.saved_read_ribbon.clone(),
            saved_write_ribbons: copy_writing_tapes(&self.saved_write_ribbons),
            iteration: self.iteration,
        }
    }
}

/// What a step of an execution is, as mathematical values.
pub enum StepView {
    First { state: StateView, read: TapeView, writes: Seq<TapeView> },
    Taken {
        previous: StateView,
        reached: StateView,
        state_pointer: usize,
        index_taken: usize,
        transition: TransitionView,
        read: TapeView,
        writes: Seq<TapeView>,
        iteration: usize,
    },
    Back {
        previous: StateView,
        reached: StateView,
        state_pointer: usize,
        read: TapeView,
        writes: Seq<TapeView>,
        iteration: usize,
        backtracked_iteration: usize,
    },
}

/// A step of the execution of a Turing machine.
#[derive(Debug)]
pub enum TuringExecutionSteps {
    FirstIteration {
        /// A clone of the initial state
        init_state: TuringState,
        /// A clone representing the initial state of the reading tape.
        init_read_ribbon: TuringReadingTape,
        /// A clone representing the initial state of the writing tapes.
        init_write_ribbons: Vec<TuringWritingTape>,
    },
    TransitionTaken {
        /// A clone of the state that was just left
        previous_state: TuringState,
        /// A clone of the state that was just reached
        reached_state: TuringState,
        /// The index of the currently reached state
        state_pointer: usize,
        /// The index of the transition taken from the current state to the next one.
        transition_index_taken: usize,
        /// A clone of the transition that was just taken
        transition_taken: TuringTransition,
        /// A clone representing the current state of the reading tape after taking that transition.
        read_ribbon: TuringReadingTape,
        /// A clone representing the current state of the writing tapes after taking that transition.
        write_ribbons: Vec<TuringWritingTape>,
        /// The current number of iterations already done
        iteration: usize,
    },
    Backtracked {
        /// A clone of the state that was just left
        previous_state: TuringState,
        /// A clone of the state that was backtracked to
        reached_state: TuringState,
        /// The index of the currently reached state
        state_pointer: usize,
        /// A clone representing the current state of the reading tape after backtracking.
        read_ribbon: TuringReadingTape,
        /// A clone representing the current state of the writing tapes after backtracking.
        write_ribbons: Vec<TuringWritingTape>,
        /// The current number of iterations already done
        iteration: usize,
        /// The number of the iteration that was bactracked to
        backtracked_iteration: usize,
    },
}

impl View for TuringExecutionSteps {
    type V = StepView;

    open spec fn view(&self) -> StepView {
        match self {
            TuringExecutionSteps::FirstIteration { init_state, init_read_ribbon, init_write_ribbons } => {
                StepView::First {
                    state: init_state@,
                    read: init_read_ribbon@,
                    writes: tape_views(init_write_ribbons@),
                }
            },
            TuringExecutionSteps::TransitionTaken {
                previous_state,
                reached_state,
                state_pointer,
                transition_index_taken,
                transition_taken,
                read_ribbon,
                write_ribbons,
                iteration,
            } => StepView::Taken {
                previous: previous_state@,
                reached: reached_state@,
                state_pointer: *state_pointer,
                index_taken: *transition_index_taken,
                transition: transition_taken@,
                read: read_ribbon@,
                writes: tape_views(write_ribbons@),
                iteration: *iteration,
            },
            TuringExecutionSteps::Backtracked {
                previous_state,
                reached_state,
                state_pointer,
                read_ribbon,
                write_ribbons,
                iteration,
                backtracked_iteration,
            } => StepView::Back {
                previous: previous_state@,
                reached: reached_state@,
                state_pointer: *state_pointer,
                read: read_ribbon@,
                writes: tape_views(write_ribbons@),
                iteration: *iteration,
                backtracked_iteration: *backtracked_iteration,
            },
        }
    }
}

impl Clone for TuringExecutionSteps {
    fn clone(&self) -> (res: Self)
        ensures
            res@ == self@,
    {
        match self {
            TuringExecutionSteps::FirstIteration { init_state, init_read_ribbon, init_write_ribbons } => {
                TuringExecutionSteps::FirstIteration {
                    init_state: init_state.clone(),
                    init_read_ribbon: init_read_ribbon.clone(),
                    init_write_ribbons: copy_writing_tapes(init_write_ribbons),
                }
            },
            TuringExecutionSteps::TransitionTaken {
                previous_state,
                reached_state,
                state_pointer,
                transition_index_taken,
                transition_taken,
                read_ribbon,
                write_ribbons,
                iteration,
            } => TuringExecutionSteps::TransitionTaken {
                previous_state: previous_state.clone(),
                reached_state: reached_state.clone(),
                state_pointer: *state_pointer,
                transition_index_taken: *transition_index_taken,
                transition_taken: transition_taken.clone(),
                read_ribbon: read_ribbon.clone(),
                write_ribbons: copy_writing_tapes(write_ribbons),
                iteration: *iteration,
            },
            TuringExecutionSteps::Backtracked {
                previous_state,
                reached_state,
                state_pointer,
                read_ribbon,
                write_ribbons,
                iteration,
                backtracked_iteration,
            } => TuringExecutionSteps::Backtracked {
                previous_state: previous_state.clone(),
                reached_state: reached_state.clone(),
                state_pointer: *state_pointer,
                read_ribbon: read_ribbon.clone(),
                write_ribbons: copy_writing_tapes(write_ribbons),
                iteration: *iteration,
                backtracked_iteration: *backtracked_iteration,
            },
        }
    }
}

/// The state reached by a step.
pub open spec fn step_state(s: StepView) -> StateView {
    match s {
        StepView::First { state, .. } => state,
        StepView::Taken { reached, .. } => reached,
        StepView::Back { reached, .. } => reached,
    }
}

/// The number of iterations carried by a step (`0` for the first one).
pub open spec fn step_iteration(s: StepView) -> usize {
    match s {
        StepView::First { .. } => 0,
        StepView::Taken { iteration, .. } => iteration,
        StepView::Back { iteration, .. } => iteration,
    }
}

/// The index of the state reached by a step (`0` for the first one).
pub open spec fn step_pointer(s: StepView) -> usize {
    match s {
        StepView::First { .. } => 0,
        StepView::Taken { state_pointer, .. } => state_pointer,
        StepView::Back { state_pointer, .. } => state_pointer,
    }
}

/// The reading tape after a step.
pub open spec fn step_read(s: StepView) -> TapeView {
    match s {
        StepView::First { read, .. } => read,
        StepView::Taken { read, .. } => read,
        StepView::Back { read, .. } => read,
    }
}

/// The writing tapes after a step.
pub open spec fn step_writes(s: StepView) -> Seq<TapeView> {
    match s {
        StepView::First { writes, .. } => writes,
        StepView::Taken { writes, .. } => writes,
        StepView::Back { writes, .. } => writes,
    }
}

impl TuringExecutionSteps {
    /// The state reached by this step.
    pub fn get_current_state(&self) -> (s: &TuringState)
        ensures
            s@ == step_state(self@),
    {
        match self {
            TuringExecutionSteps::FirstIteration { init_state, .. } => init_state,
            TuringExecutionSteps::TransitionTaken { reached_state, .. } => reached_state,
            TuringExecutionSteps::Backtracked { reached_state, .. } => reached_state,
        }
    }

    /// The state left by this step, none for the first one.
    pub fn get_previous_state(&self) -> (s: Option<&TuringState>)
        ensures
            match self@ {
                StepView::First { .. } => s is None,
                StepView::Taken { previous, .. } => s matches Some(p) && p@ == previous,
                StepView::Back { previous, .. } => s matches Some(p) && p@ == previous,
            },
    {
        match self {
            TuringExecutionSteps::FirstIteration { .. } => None,
            TuringExecutionSteps::TransitionTaken { previous_state, .. } => Some(previous_state),
            TuringExecutionSteps::Backtracked { previous_state, .. } => Some(previous_state),
        }
    }

    /// The number of iterations done before this step (`0` for the first one).
    pub fn get_nb_iterations(&self) -> (n: usize)
        ensures
            n == step_iteration(self@),
    {
        match self {
            TuringExecutionSteps::FirstIteration { .. } => 0,
            TuringExecutionSteps::TransitionTaken { iteration, .. } => *iteration,
            TuringExecutionSteps::Backtracked { iteration, .. } => *iteration,
        }
    }

    /// The index of the state reached by this step (`0` for the first one).
    pub fn get_state_pointer(&self) -> (p: usize)
        ensures
            p == step_pointer(self@),
    {
        match self {
            TuringExecutionSteps::FirstIteration { .. } => 0,
            TuringExecutionSteps::TransitionTaken { state_pointer, .. } => *state_pointer,
            TuringExecutionSteps::Backtracked { state_pointer, .. } => *state_pointer,
        }
    }

    /// The reading tape after this step.
    pub fn get_reading_ribbon(&self) -> (t: &TuringReadingTape)
        ensures
            t@ == step_read(self@),
    {
        match self {
            TuringExecutionSteps::FirstIteration { init_read_ribbon, .. } => init_read_ribbon,
            TuringExecutionSteps::TransitionTaken { read_ribbon, .. } => read_ribbon,
            TuringExecutionSteps::Backtracked { read_ribbon, .. } => read_ribbon,
        }
    }

    /// The writing tapes after this step.
    pub fn get_writting_ribbons(&self) -> (t: &Vec<TuringWritingTape>)
        ensures
            tape_views(t@) == step_writes(self@),
    {
        match self {
            TuringExecutionSteps::FirstIteration { init_write_ribbons, .. } => init_write_ribbons,
            TuringExecutionSteps::TransitionTaken { write_ribbons, .. } => write_ribbons,
            TuringExecutionSteps::Backtracked { write_ribbons, .. } => write_ribbons,
        }
    }
}

/// The characters under the heads of the reading tape and of the writing tapes, in order.
pub open spec fn heads(read: TapeView, writes: Seq<TapeView>) -> Seq<char> {
    seq![head_char(read)] + writes.map_values(|w: TapeView| head_char(w))
}

/// The reading tape after a transition: its head moves.
pub open spec fn applied_read(read: TapeView, t: TransitionView) -> TapeView {
    TapeView { head: read.head + dir_value(t.move_read), ..read }
}

/// The writing tapes after a transition: each one writes and moves by its rule.
pub open spec fn applied_writes(writes: Seq<TapeView>, t: TransitionView) -> Seq<TapeView> {
    Seq::new(writes.len(), |i: int| write_step(writes[i], t.chars_write[i].0, t.chars_write[i].1))
}

/// All the writing tapes keep their invariant.
pub open spec fn writes_wf(writes: Seq<TapeView>) -> bool {
    forall|i: int| 0 <= i < writes.len() ==> writing_tape_wf(#[trigger] writes[i])
}

/// The transition of index `ti` of the state `state` can be taken when the
/// heads read what `read` and `writes` hold.
pub open spec fn applicable(g: GraphView, state: int, read: TapeView, writes: Seq<TapeView>, ti: int) -> bool {
    &&& 0 <= ti < g.states[state].transitions.len()
    &&& g.states[state].transitions[ti].chars_read == heads(read, writes)
}

/// A saved point of the exploration that the graph `g` can come back to.
pub open spec fn saved_ok(g: GraphView, e: SavedView) -> bool {
    &&& e.state < g.states.len()
    &&& reading_tape_wf(e.read)
    &&& e.writes.len() == g.k
    &&& writes_wf(e.writes)
    &&& e.next.len() >= 1
    &&& forall|j: int| 0 <= j < e.next.len() ==> #[trigger] applicable(g, e.state as int, e.read, e.writes, e.next[j] as int)
}

/// A configuration of a machine: its current state and its tapes.
#[verifier::ext_equal]
pub struct Config {
    pub state: int,
    pub read: TapeView,
    pub writes: Seq<TapeView>,
}

/// Taking the transition of index `ti` from the configuration `c` leads to the configuration `c2`.
pub open spec fn is_move(g: GraphView, c: Config, ti: int, c2: Config) -> bool {
    let t = g.states[c.state].transitions[ti];
    &&& 0 <= c.state < g.states.len()
    &&& applicable(g, c.state, c.read, c.writes, ti)
    &&& t.index_to_state == Some(c2.state as usize)
    &&& c2.read == applied_read(c.read, t)
    &&& c2.writes == applied_writes(c.writes, t)
}

/// The initial configuration of a machine with `k` writing tapes fed with `word`.
pub open spec fn initial_config(word: Seq<char>, k: nat) -> Config {
    Config {
        state: 0,
        read: TapeView { contents: reading_contents(word), head: 0 },
        writes: Seq::new(k, |i: int| TapeView { contents: seq![INIT_CHAR, BLANK_CHAR], head: 0 }),
    }
}

/// Lemma: a safe transition whose characters are under the heads can be applied,
/// and the tapes keep their invariants.
proof fn lemma_apply_ok(read: TapeView, writes: Seq<TapeView>, t: TransitionView)
    requires
        reading_tape_wf(read),
        writes_wf(writes),
        crate::turing_graph::transition_safe(t),
        t.chars_read == heads(read, writes),
    ensures
        0 <= read.head + dir_value(t.move_read) < read.contents.len(),
        reading_tape_wf(applied_read(read, t)),
        forall|i: int| 0 <= i < writes.len() ==> (#[trigger] writes[i]).head + dir_value(t.chars_write[i].1) >= 0
            && crate::turing_tape::replacement_ok(head_char(writes[i]), t.chars_write[i].0),
        writes_wf(applied_writes(writes, t)),
{
    assert(heads(read, writes)[0] == head_char(read));
    let w = read.contents.subrange(1, read.contents.len() - 1);
    assert(read.contents[0] == reading_contents(w)[0]);
    assert(read.contents[read.contents.len() - 1] == reading_contents(w)[read.contents.len() - 1]);
    assert forall|i: int| 0 <= i < writes.len() implies (#[trigger] writes[i]).head + dir_value(t.chars_write[i].1) >= 0
        && crate::turing_tape::replacement_ok(head_char(writes[i]), t.chars_write[i].0) by {
        assert(heads(read, writes)[i + 1] == head_char(writes[i]));
        assert(crate::turing_graph::write_rule_safe_at(t, i));
        assert(writing_tape_wf(writes[i]));
    }
    assert forall|i: int| 0 <= i < writes.len() implies writing_tape_wf(#[trigger] applied_writes(writes, t)[i]) by {
        assert(heads(read, writes)[i + 1] == head_char(writes[i]));
        assert(crate::turing_graph::write_rule_safe_at(t, i));
        assert(writing_tape_wf(writes[i]));
        let nw = write_step(writes[i], t.chars_write[i].0, t.chars_write[i].1);
        assert(applied_writes(writes, t)[i] == nw);
        assert forall|j: int| 0 < j < nw.contents.len() implies nw.contents[j] != INIT_CHAR by {
            if j < writes[i].contents.len() && j != writes[i].head {
                assert(nw.contents[j] == writes[i].contents[j]);
            }
        }
    }
}

/// Applies a transition that can be taken to the tapes.
fn apply_transition(read: &mut TuringReadingTape, writes: &mut Vec<TuringWritingTape>, t: &TuringTransition)
    requires
        reading_tape_wf(old(read)@),
        writes_wf(tape_views(old(writes)@)),
        crate::turing_graph::transition_safe(t@),
        t@.chars_read == heads(old(read)@, tape_views(old(writes)@)),
        old(writes)@.len() == t@.chars_write.len(),
    ensures
        final(read)@ == applied_read(old(read)@, t@),
        tape_views(final(writes)@) == applied_writes(tape_views(old(writes)@), t@),
        reading_tape_wf(final(read)@),
        writes_wf(tape_views(final(writes)@)),
{
    let ghost ws = tape_views(old(writes)@);
    proof {
        lemma_apply_ok(read@, ws, t@);
        assert(heads(read@, ws)[0] == head_char(read@));
    }
    let _ = read.try_apply_transition(t.chars_read[0], ' ', &t.move_read);
    let mut i: usize = 0;
    while i < writes.len()
        invariant
            ws == tape_views(old(writes)@),
            writes@.len() == ws.len(),
            ws.len() == t@.chars_write.len(),
            t@.chars_read == heads(old(read)@, ws),
            t@.chars_read.len() == t@.chars_write.len() + 1,
            i <= ws.len(),
            writes_wf(ws),
            forall|j: int| 0 <= j < ws.len() ==> (#[trigger] ws[j]).head + dir_value(t@.chars_write[j].1) >= 0
                && crate::turing_tape::replacement_ok(head_char(ws[j]), t@.chars_write[j].0),
            forall|j: int| 0 <= j < i ==> #[trigger] writes@[j]@ == write_step(ws[j], t@.chars_write[j].0, t@.chars_write[j].1),
            forall|j: int| i <= j < ws.len() ==> #[trigger] writes@[j]@ == ws[j],
        decreases ws.len() - i,
    {
        let mut w = writes[i].clone();
        proof {
            assert(heads(old(read)@, ws)[i + 1] == head_char(ws[i as int]));
            assert(writing_tape_wf(ws[i as int]));
        }
        let _ = w.try_apply_transition(t.chars_read[i + 1], t.chars_write[i].0, &t.chars_write[i].1);
        writes.set(i, w);
        i = i + 1;
    }
    assert(tape_views(writes@) =~= applied_writes(ws, t@));
}

/// The views of a sequence of saved states.
pub open spec fn saved_views(ms: Seq<SavedState>) -> Seq<SavedView> {
    ms.map_values(|e: SavedState| e@)
}

/// What is needed to carry on an execution, as mathematical values.
#[verifier::ext_equal]
pub struct DataView {
    pub read: TapeView,
    pub writes: Seq<TapeView>,
    pub word: Seq<char>,
    pub state: usize,
    pub first: bool,
    pub memory: Seq<SavedView>,
    pub mode: Mode,
    pub backtrack: Option<usize>,
}

/// What is needed to carry on an execution.
#[derive(Debug)]
pub struct IterationData {
    /// The reading tape containing the word
    reading_ribbon: TuringReadingTape,
    /// A vector containing all writing tapes
    write_ribbons: Vec<TuringWritingTape>,
    /// The current word to read
    word: String,
    /// The index of the current state of the turing machine
    state_pointer: usize,
    /// Represents if the structs was just initialised or reset
    is_first_state: bool,
    /// A stack representing the memory of the exploration of this turing machine.
    memory: VecDeque<SavedState>,
    /// Represents the mode used for the execution of this turing machine
    mode: Mode,
    /// The index of the transition to take at the next step, after a backtracking
    backtracked_info: Option<usize>,
}

impl View for IterationData {
    type V = DataView;

    closed spec fn view(&self) -> DataView {
        DataView {
            read: self.reading_ribbon@,
            writes: tape_views(self.write_ribbons@),
            word: self.word@,
            state: self.state_pointer,
            first: self.is_first_state,
            memory: saved_views(self.memory@),
            mode: self.mode,
            backtrack: self.backtracked_info,
        }
    }
}

/// What a machine is, as mathematical values.
#[verifier::ext_equal]
pub struct MachineView {
    pub graph: GraphView,
    pub read: TapeView,
    pub writes: Seq<TapeView>,
    pub word: Seq<char>,
    pub state: usize,
    pub first: bool,
    pub memory: Seq<SavedView>,
    pub mode: Mode,
    pub backtrack: Option<usize>,
    pub iteration: usize,
    pub last: Option<StepView>,
    pub is_over: bool,
}

/// The view of an optional step.
pub open spec fn opt_step_view(o: Option<TuringExecutionSteps>) -> Option<StepView> {
    match o {
        Some(s) => Some(s@),
        None => None,
    }
}

/// A Turing machine graph executing a word.
#[derive(Debug)]
pub enum TuringMachines {
    TuringMachine {
        /// The turing machine graph that will execute a word
        graph: TuringMachineGraph,
        data: IterationData,
        /// The current number of iterations already done
        iteration: usize,
        /// Copy of the iteration step returned (if any).
        last_iteration: Option<TuringExecutionSteps>,
        /// Checks wether or not the iteration is over or not
        is_over: bool,
    },
}

impl View for TuringMachines {
    type V = MachineView;

    closed spec fn view(&self) -> MachineView {
        match self {
            TuringMachines::TuringMachine { graph, data, iteration, last_iteration, is_over } => MachineView {
                graph: graph@,
                read: data@.read,
                writes: data@.writes,
                word: data@.word,
                state: data@.state,
                first: data@.first,
                memory: data@.memory,
                mode: data@.mode,
                backtrack: data@.backtrack,
                iteration: *iteration,
                last: opt_step_view(*last_iteration),
                is_over: *is_over,
            },
        }
    }
}

/// The configuration a machine is in.
pub open spec fn config_of(m: MachineView) -> Config {
    Config { state: m.state as int, read: m.read, writes: m.writes }
}

/// The configuration saved in a point of the exploration.
pub open spec fn saved_config(e: SavedView) -> Config {
    Config { state: e.state as int, read: e.read, writes: e.writes }
}

/// The invariant of every machine: its graph and tapes keep theirs, its word
/// can be fed again, every saved point can be come back to with at least one
/// transition left to take, the transition chosen after a backtracking can be
/// taken, and the saved points are stacked from the most recent one.
pub open spec fn machine_wf(m: MachineView) -> bool {
    &&& graph_wf(m.graph)
    &&& m.state < m.graph.states.len()
    &&& reading_tape_wf(m.read)
    &&& m.writes.len() == m.graph.k
    &&& writes_wf(m.writes)
    &&& word_ok(m.word)
    &&& forall|i: int| 0 <= i < m.memory.len() ==> saved_ok(m.graph, #[trigger] m.memory[i])
    &&& forall|i: int, j: int| 0 <= i < j < m.memory.len() ==> #[trigger] m.memory[j].iteration < #[trigger] m.memory[i].iteration
    &&& m.memory.len() > 0 ==> m.memory[0].iteration + 2 <= m.iteration
    &&& m.backtrack matches Some(ti) ==> applicable(m.graph, m.state as int, m.read, m.writes, ti as int)
    &&& m.first ==> m.backtrack is None
    &&& !m.first ==> m.iteration >= 1
}

/// The machine that [TuringMachines::new] builds: ready to run the graph `g` on `word`.
pub open spec fn initial_machine(g: GraphView, word: Seq<char>, mode: Mode) -> MachineView {
    let c = initial_config(word, g.k);
    MachineView {
        graph: g,
        read: c.read,
        writes: c.writes,
        word,
        state: 0,
        first: true,
        memory: Seq::empty(),
        mode,
        backtrack: None,
        iteration: 0,
        last: None,
        is_over: false,
    }
}

/// `k` new writing tapes.
fn new_writing_tapes(k: usize) -> (r: Vec<TuringWritingTape>)
    ensures
        tape_views(r@) == initial_config(Seq::empty(), k as nat).writes,
        writes_wf(tape_views(r@)),
{
    let mut v: Vec<TuringWritingTape> = Vec::new();
    let mut i: usize = 0;
    while i < k
        invariant
            i <= k,
            v@.len() == i,
            forall|j: int| 0 <= j < i ==> #[trigger] v@[j]@ == (TapeView { contents: seq![INIT_CHAR, BLANK_CHAR], head: 0 }),
        decreases k - i,
    {
        v.push(TuringWritingTape::new());
        i = i + 1;
    }
    assert(tape_views(v@) =~= initial_config(Seq::empty(), k as nat).writes);
    assert forall|j: int| 0 <= j < k implies writing_tape_wf(#[trigger] tape_views(v@)[j]) by {
        assert(tape_views(v@)[j].contents == seq![INIT_CHAR, BLANK_CHAR]);
    }
    v
}

impl TuringMachines {
    /// The invariant of the machine.
    pub open spec fn wf(&self) -> bool {
        machine_wf(self@)
    }

    /// Creates a new machine executing the given graph on the given word.
    ///
    /// # Errors
    /// * [TuringError::IllegalActionError] if the word holds a special character
    ///   ([INIT_CHAR], [BLANK_CHAR] or [crate::turing_tape::END_CHAR]).
    pub fn new(mt: TuringMachineGraph, word: String, mode: Mode) -> (res: Result<Self, TuringError>)
        requires
            mt.wf(),
        ensures
            res is Ok <==> word_ok(word@),
            res matches Ok(m) ==> m.wf() && m@ == initial_machine(mt@, word@, mode),
            res matches Err(e) ==> e is IllegalActionError,
    {
        let mut reading_ribbon = TuringReadingTape::new();
        reading_ribbon.feed_word(word.clone())?;
        let write_ribbons = new_writing_tapes(mt.get_k());
        let data = IterationData {
            reading_ribbon,
            write_ribbons,
            word,
            state_pointer: 0,
            is_first_state: true,
            memory: VecDeque::new(),
            mode,
            backtracked_info: None,
        };
        let m = TuringMachines::TuringMachine {
            graph: mt,
            data,
            iteration: 0,
            last_iteration: None,
            is_over: false,
        };
        assert(m@.memory =~= Seq::<SavedView>::empty());
        assert(m@ =~= initial_machine(mt@, word@, mode));
        Ok(m)
    }

    /// Resets the turing machine to its initial state and re-feeds it the current stored word.
    ///
    /// Only the graph and the word need to be valid: the machine can be reset
    /// after its graph was changed through [TuringMachines::graph_mut].
    pub fn reset(&mut self)
        requires
            graph_wf(old(self)@.graph),
            word_ok(old(self)@.word),
        ensures
            final(self).wf(),
            final(self)@ == initial_machine(old(self)@.graph, old(self)@.word, old(self)@.mode),
    {
        let word = self.get_word().clone();
        let r = self.reset_word(&word);
        assert(r is Ok);
    }

    /// Resets the turing machine to its initial state and feeds it the given word.
    ///
    /// # Errors
    /// * [TuringError::IllegalActionError] if the word holds a special character;
    ///   the machine is then left as it was.
    pub fn reset_word(&mut self, word: &String) -> (res: Result<(), TuringError>)
        requires
            graph_wf(old(self)@.graph),
        ensures
            res is Ok <==> word_ok(word@),
            res is Ok ==> final(self).wf() && final(self)@ == initial_machine(old(self)@.graph, word@, old(self)@.mode),
            res matches Err(e) ==> e is IllegalActionError && final(self)@ == old(self)@,
    {
        match self {
            TuringMachines::TuringMachine { graph, data, iteration, last_iteration, is_over } => {
                // Reset reading tape
                let mut reading_ribbon = TuringReadingTape::new();
                reading_ribbon.feed_word(word.clone())?;
                data.reading_ribbon = reading_ribbon;
                data.word = word.clone();
                // Reset writing tapes
                data.write_ribbons = new_writing_tapes(graph.get_k());
                // Reset state pointers
                data.state_pointer = 0;
                data.is_first_state = true;
                *iteration = 0;
                data.backtracked_info = None;
                *last_iteration = None;
                *is_over = false;
                // And clear memory
                data.memory.clear();
            },
        }
        assert(self@.memory =~= Seq::<SavedView>::empty());
        assert(self@ =~= initial_machine(old(self)@.graph, word@, old(self)@.mode));
        Ok(())
    }

    /// Changes the current execution mode of the turing machine.
    pub fn set_mode(&mut self, mode: &Mode)
        ensures
            final(self)@ == (MachineView { mode: *mode, ..old(self)@ }),
    {
        match self {
            TuringMachines::TuringMachine { graph, data, iteration, last_iteration, is_over } => {
                data.mode = *mode;
            },
        }
        assert(self@ =~= (MachineView { mode: *mode, ..old(self)@ }));
    }

    /// Gets *reference* of the stored turing machine graph.
    pub fn graph_ref(&self) -> (g: &TuringMachineGraph)
        ensures
            g@ == self@.graph,
    {
        match self {
            TuringMachines::TuringMachine { graph, .. } => graph,
        }
    }

    /// Gets *mutable reference* of the stored turing machine graph.
    pub fn graph_mut(&mut self) -> (g: &mut TuringMachineGraph)
        ensures
            g@ == old(self)@.graph,
            final(self)@ == (MachineView { graph: final(g)@, ..old(self)@ }),
    {
        match self {
            TuringMachines::TuringMachine { graph, .. } => graph,
        }
    }

    /// Gets the stored turing machine graph.
    ///
    /// This will free the turing machine since it will drop the ownership
    pub fn graph(self) -> (g: TuringMachineGraph)
        ensures
            g@ == self@.graph,
    {
        match self {
            TuringMachines::TuringMachine { graph, .. } => graph,
        }
    }

    /// Gets the current state pointer of this struct.
    pub fn get_state_pointer(&self) -> (p: usize)
        ensures
            p == self@.state,
    {
        match self {
            TuringMachines::TuringMachine { data, .. } => data.state_pointer,
        }
    }

    /// Gets ref to the reading tape stored inside this struct.
    pub fn get_reading_ribbon(&self) -> (t: &TuringReadingTape)
        ensures
            t@ == self@.read,
    {
        match self {
            TuringMachines::TuringMachine { data, .. } => &data.reading_ribbon,
        }
    }

    /// Gets the reference to the writing tapes stored inside this struct.
    pub fn get_writting_ribbons(&self) -> (t: &Vec<TuringWritingTape>)
        ensures
            tape_views(t@) == self@.writes,
    {
        match self {
            TuringMachines::TuringMachine { data, .. } => &data.write_ribbons,
        }
    }

    /// Gets the word that was feed to this machine.
    pub fn get_word(&self) -> (w: &String)
        ensures
            w@ == self@.word,
    {
        match self {
            TuringMachines::TuringMachine { data, .. } => &data.word,
        }
    }

    /// Fetches the mode of the iterator.
    pub fn get_mode(&self) -> (m: &Mode)
        ensures
            *m == self@.mode,
    {
        match self {
            TuringMachines::TuringMachine { data, .. } => &data.mode,
        }
    }

    /// Get the reference to the stack containing all the [SavedState].
    pub fn get_memory(&self) -> (mem: &VecDeque<SavedState>)
        ensures
            saved_views(mem@) == self@.memory,
    {
        match self {
            TuringMachines::TuringMachine { data, .. } => &data.memory,
        }
    }

    /// The number of steps asked so far (since the creation or the last reset).
    pub fn get_iteration(&self) -> (i: usize)
        ensures
            i == self@.iteration,
    {
        match self {
            TuringMachines::TuringMachine { iteration, .. } => *iteration,
        }
    }

    /// Returns the last step that was returned.
    pub fn get_last_step(&self) -> (s: &Option<TuringExecutionSteps>)
        ensures
            opt_step_view(*s) == self@.last,
    {
        match self {
            TuringMachines::TuringMachine { last_iteration, .. } => last_iteration,
        }
    }

    /// Checks if the iteration is over or not
    pub fn is_over(&self) -> (b: bool)
        ensures
            b == self@.is_over,
    {
        match self {
            TuringMachines::TuringMachine { is_over, .. } => *is_over,
        }
    }
}

/// A machine of graph `g`, execution data `d` and iteration count `it`,
/// with no last step and not over.
pub open spec fn compose(g: GraphView, d: DataView, it: usize) -> MachineView {
    MachineView {
        graph: g,
        read: d.read,
        writes: d.writes,
        word: d.word,
        state: d.state,
        first: d.first,
        memory: d.memory,
        mode: d.mode,
        backtrack: d.backtrack,
        iteration: it,
        last: None,
        is_over: false,
    }
}

/// The execution stops here whatever the graph: the number of iterations
/// asked by [Mode::StopAfter] is reached, or the count cannot grow any more.
pub open spec fn stopped(m: MachineView) -> bool {
    ||| (m.mode matches Mode::StopAfter(n) && n == m.iteration)
    ||| m.iteration == usize::MAX
}

/// The state the machine is in.
pub open spec fn current_state(m: MachineView) -> StateView {
    m.graph.states[m.state as int]
}

/// The indexes, in increasing order, of the transitions of the current state
/// that read what the heads read.
pub open spec fn valid_indexes(m: MachineView) -> Seq<usize> {
    let s = current_state(m);
    indexes_reading(s.transitions, heads(m.read, m.writes), s.transitions.len())
}

/// The current state accepts.
pub open spec fn is_accepting(m: MachineView) -> bool {
    current_state(m).state_type == TuringStateType::Accepting
}

/// No transition can be taken from the current configuration, or the current state rejects.
pub open spec fn blocked(m: MachineView) -> bool {
    valid_indexes(m).len() == 0 || current_state(m).state_type == TuringStateType::Rejecting
}

/// The next step shows the initial configuration.
pub open spec fn gives_first(m: MachineView) -> bool {
    !stopped(m) && m.backtrack is None && m.first
}

/// The next step takes a transition: the one chosen by the last backtracking,
/// or the first one that can be taken.
pub open spec fn gives_taken(m: MachineView) -> bool {
    &&& !stopped(m)
    &&& (m.backtrack is Some || (!m.first && !is_accepting(m) && !blocked(m)))
}

/// The next step goes back to the most recent saved point.
pub open spec fn gives_back(m: MachineView) -> bool {
    &&& !stopped(m)
    &&& m.backtrack is None
    &&& !m.first
    &&& !is_accepting(m)
    &&& blocked(m)
    &&& m.mode != Mode::StopFirstReject
    &&& m.memory.len() > 0
}

/// The execution ends: no step comes next.
pub open spec fn gives_none(m: MachineView) -> bool {
    !gives_first(m) && !gives_taken(m) && !gives_back(m)
}

/// The index of the transition that the next step takes.
pub open spec fn taken_index(m: MachineView) -> usize {
    match m.backtrack {
        Some(i) => i,
        None => valid_indexes(m)[0],
    }
}

/// The transition that the next step takes.
pub open spec fn taken_transition(m: MachineView) -> TransitionView {
    current_state(m).transitions[taken_index(m) as int]
}

/// The saved points after taking a transition: when several transitions could
/// be taken, the others are saved to be tried later.
pub open spec fn memory_after_taken(m: MachineView) -> Seq<SavedView> {
    if m.backtrack is None && valid_indexes(m).len() >= 2 {
        seq![
            SavedView {
                state: m.state,
                next: valid_indexes(m).drop_first(),
                read: m.read,
                writes: m.writes,
                iteration: (m.iteration - 1) as usize,
            },
        ] + m.memory
    } else {
        m.memory
    }
}

/// The machine after showing the initial configuration.
pub open spec fn after_first(m: MachineView) -> MachineView {
    MachineView { first: false, iteration: (m.iteration + 1) as usize, ..m }
}

/// The machine after taking a transition.
pub open spec fn after_taken(m: MachineView) -> MachineView {
    let t = taken_transition(m);
    MachineView {
        state: t.index_to_state->0,
        read: applied_read(m.read, t),
        writes: applied_writes(m.writes, t),
        memory: memory_after_taken(m),
        backtrack: None,
        iteration: (m.iteration + 1) as usize,
        ..m
    }
}

/// The saved points after going back to the most recent one: its next
/// transition is taken out, and it goes when none is left.
pub open spec fn memory_after_back(m: MachineView) -> Seq<SavedView> {
    let top = m.memory[0];
    if top.next.len() == 1 {
        m.memory.drop_first()
    } else {
        m.memory.update(0, SavedView { next: top.next.drop_first(), ..top })
    }
}

/// The machine after going back to the most recent saved point: its
/// configuration is restored and its next transition is chosen for the step after.
pub open spec fn after_back(m: MachineView) -> MachineView {
    let top = m.memory[0];
    MachineView {
        state: top.state,
        read: top.read,
        writes: top.writes,
        memory: memory_after_back(m),
        backtrack: Some(top.next[0]),
        iteration: (m.iteration + 1) as usize,
        ..m
    }
}

/// The machine after an execution ended.
pub open spec fn after_none(m: MachineView) -> MachineView {
    if stopped(m) {
        m
    } else {
        MachineView { iteration: (m.iteration + 1) as usize, ..m }
    }
}

/// The step that shows the initial configuration.
pub open spec fn first_step_view(m: MachineView) -> StepView {
    StepView::First { state: current_state(m), read: m.read, writes: m.writes }
}

/// The step that takes a transition.
pub open spec fn taken_step_view(m: MachineView) -> StepView {
    let m2 = after_taken(m);
    StepView::Taken {
        previous: current_state(m),
        reached: current_state(m2),
        state_pointer: m2.state,
        index_taken: taken_index(m),
        transition: taken_transition(m),
        read: m2.read,
        writes: m2.writes,
        iteration: m.iteration,
    }
}

/// The step that goes back to the most recent saved point.
pub open spec fn back_step_view(m: MachineView) -> StepView {
    let m2 = after_back(m);
    StepView::Back {
        previous: current_state(m),
        reached: current_state(m2),
        state_pointer: m2.state,
        read: m2.read,
        writes: m2.writes,
        iteration: m.iteration,
        backtracked_iteration: m.memory[0].iteration,
    }
}

/// The characters under the heads of the tapes.
fn read_heads(read: &TuringReadingTape, writes: &Vec<TuringWritingTape>) -> (r: Vec<char>)
    requires
        reading_tape_wf(read@),
        writes_wf(tape_views(writes@)),
    ensures
        r@ == heads(read@, tape_views(writes@)),
{
    let mut r: Vec<char> = Vec::new();
    r.push(read.read_curr_char());
    let mut i: usize = 0;
    while i < writes.len()
        invariant
            i <= writes@.len(),
            writes_wf(tape_views(writes@)),
            r@ =~= heads(read@, tape_views(writes@)).take(i + 1),
        decreases writes.len() - i,
    {
        assert(writing_tape_wf(tape_views(writes@)[i as int]));
        r.push(writes[i].read_curr_char());
        i = i + 1;
    }
    assert(r@ =~= heads(read@, tape_views(writes@)));
    r
}

/// The machine takes its next step.
fn next_iteration(graph: &TuringMachineGraph, data: &mut IterationData, iteration: &mut usize) -> (res: Option<
    TuringExecutionSteps,
>)
    requires
        machine_wf(compose(graph@, old(data)@, *old(iteration))),
    ensures
        ({
            let m = compose(graph@, old(data)@, *old(iteration));
            let m2 = compose(graph@, final(data)@, *final(iteration));
            &&& machine_wf(m2)
            &&& gives_first(m) ==> (res matches Some(st) && st@ == first_step_view(m)) && m2 == after_first(m)
            &&& gives_taken(m) ==> (res matches Some(st) && st@ == taken_step_view(m)) && m2 == after_taken(m)
            &&& gives_back(m) ==> (res matches Some(st) && st@ == back_step_view(m)) && m2 == after_back(m)
            &&& gives_none(m) ==> res is None && m2 == after_none(m)
        }),
{
    let ghost m = compose(graph@, data@, *iteration);
    let prev_iter = *iteration;
    match data.mode {
        Mode::StopAfter(nb) => {
            if nb == prev_iter {
                return None;
            }
        },
        _ => {},
    }
    if prev_iter == usize::MAX {
        return None;
    }
    // Increment nb of iterations already treated
    *iteration = prev_iter + 1;
    let pointer = data.state_pointer;
    // Fetch the current state
    let curr_state = graph.get_states()[pointer].clone();
    assert(curr_state@ == current_state(m));
    let mut transition_index_taken: usize = 0;
    match data.backtracked_info {
        Some(b) => {
            // This iteration is a follow up to a backtracking: the transition was chosen then
            data.backtracked_info = None;
            transition_index_taken = b;
        },
        None => {
            if data.is_first_state {
                data.is_first_state = false;
                let st = TuringExecutionSteps::FirstIteration {
                    init_state: curr_state,
                    init_read_ribbon: data.reading_ribbon.clone(),
                    init_write_ribbons: copy_writing_tapes(&data.write_ribbons),
                };
                assert(compose(graph@, data@, *iteration) =~= after_first(m));
                return Some(st);
            }
            // An accepting state ends the execution
            if curr_state.state_type == TuringStateType::Accepting {
                assert(compose(graph@, data@, *iteration) =~= after_none(m));
                return None;
            }
            // Get all current char read by **all** tapes
            let char_vec = read_heads(&data.reading_ribbon, &data.write_ribbons);
            let valid = curr_state.get_valid_transitions_indexes(&char_vec);
            assert(valid@ == valid_indexes(m));
            let ntrans = curr_state.transitions.len();
            assert(current_state(m).transitions.len() == ntrans);
            proof {
                crate::turing_state::lemma_indexes_reading(
                    current_state(m).transitions,
                    heads(m.read, m.writes),
                    current_state(m).transitions.len(),
                );
            }
            // If no transitions can be provided or the current state is rejecting,
            // we reached a *dead end*, go back in the exploration if possible
            if valid.len() == 0 || curr_state.state_type == TuringStateType::Rejecting {
                if data.mode == Mode::StopFirstReject {
                    assert(compose(graph@, data@, *iteration) =~= after_none(m));
                    return None;
                }
                // If there are no saved state, this means the backtracking is over, and the execution too
                if data.memory.len() == 0 {
                    assert(compose(graph@, data@, *iteration) =~= after_none(m));
                    return None;
                }
                // Every saved point keeps at least one transition to try: take the next one of the most recent
                let mut saved_state = match data.memory.pop_front() {
                    Some(s) => s,
                    None => {
                        return None;
                    },
                };
                assert(saved_state@ == m.memory[0]);
                let t_i = match saved_state.next_transitions.pop_front() {
                    Some(t) => t,
                    None => {
                        return None;
                    },
                };
                // Go back to the state
                data.state_pointer = saved_state.saved_state_index;
                // Change the context for the reading and writing tapes
                data.reading_ribbon = saved_state.saved_read_ribbon.clone();
                data.write_ribbons = copy_writing_tapes(&saved_state.saved_write_ribbons);
                // Save the index of the transition found for the next step
                data.backtracked_info = Some(t_i);
                let backtracked_iteration = saved_state.iteration;
                let reached_state = graph.get_states()[saved_state.saved_state_index].clone();
                // If the saved state has no more transitions, it is already removed
                if saved_state.next_transitions.len() > 0 {
                    data.memory.push_front(saved_state);
                }
                let st = TuringExecutionSteps::Backtracked {
                    previous_state: curr_state,
                    reached_state,
                    read_ribbon: data.reading_ribbon.clone(),
                    write_ribbons: copy_writing_tapes(&data.write_ribbons),
                    iteration: prev_iter,
                    state_pointer: data.state_pointer,
                    backtracked_iteration,
                };
                proof {
                    let m2 = compose(graph@, data@, *iteration);
                    assert(m2.memory =~= memory_after_back(m));
                    assert(m2 =~= after_back(m));
                    assert forall|i: int| 0 <= i < m2.memory.len() implies saved_ok(m2.graph, #[trigger] m2.memory[i]) by {
                        if m.memory[0].next.len() == 1 {
                            assert(m2.memory[i] == m.memory[i + 1]);
                        } else if i > 0 {
                            assert(m2.memory[i] == m.memory[i]);
                        } else {
                            assert(saved_ok(m.graph, m.memory[0]));
                            let e = m2.memory[0];
                            assert forall|j: int| 0 <= j < e.next.len() implies #[trigger] applicable(m.graph, e.state as int, e.read, e.writes, e.next[j] as int) by {
                                assert(e.next[j] == m.memory[0].next[j + 1]);
                            }
                        }
                    }
                    assert(saved_ok(m.graph, m.memory[0]));
                    assert(applicable(m.graph, m.memory[0].state as int, m.memory[0].read, m.memory[0].writes, m.memory[0].next[0] as int));
                }
                return Some(st);
            }
            // If there are more than 1 transition possible at a time, it means we are in a non deterministic situation.
            // We must save the current state in order to explore all path.
            if valid.len() >= 2 {
                let mut next_transitions: VecDeque<usize> = VecDeque::new();
                let mut j: usize = 1;
                while j < valid.len()
                    invariant
                        1 <= j <= valid@.len(),
                        next_transitions@ =~= valid@.subrange(1, j as int),
                    decreases valid.len() - j,
                {
                    next_transitions.push_back(valid[j]);
                    j = j + 1;
                }
                let to_save = SavedState {
                    saved_state_index: data.state_pointer,
                    next_transitions,
                    saved_read_ribbon: data.reading_ribbon.clone(),
                    saved_write_ribbons: copy_writing_tapes(&data.write_ribbons),
                    iteration: prev_iter - 1,
                };
                assert(to_save@.next =~= valid@.drop_first());
                data.memory.push_front(to_save);
            }
            transition_index_taken = valid[0];
        },
    }
    assert(transition_index_taken == taken_index(m));
    // Apply the transition
    let transition = graph.get_states()[pointer].transitions[transition_index_taken].clone();
    assert(transition@ == taken_transition(m));
    assert(crate::turing_graph::transition_fits(
        m.graph.states[m.state as int].transitions[taken_index(m) as int],
        m.graph.k,
        m.graph.states.len(),
    ));
    apply_transition(&mut data.reading_ribbon, &mut data.write_ribbons, &transition);
    // Move to the next state
    let target = match transition.index_to_state {
        Some(target) => target,
        None => {
            return None;
        },
    };
    data.state_pointer = target;
    let reached_state = graph.get_states()[target].clone();
    let st = TuringExecutionSteps::TransitionTaken {
        previous_state: curr_state,
        reached_state,
        transition_index_taken,
        transition_taken: transition,
        read_ribbon: data.reading_ribbon.clone(),
        write_ribbons: copy_writing_tapes(&data.write_ribbons),
        iteration: prev_iter,
        state_pointer: target,
    };
    proof {
        let m2 = compose(graph@, data@, *iteration);
        assert(m2.memory =~= memory_after_taken(m));
        assert(m2 =~= after_taken(m));
        if m.backtrack is None && valid_indexes(m).len() >= 2 {
            let e = m2.memory[0];
            assert forall|j: int| 0 <= j < e.next.len() implies #[trigger] applicable(m.graph, e.state as int, e.read, e.writes, e.next[j] as int) by {
                assert(e.next[j] == valid_indexes(m)[j + 1]);
            }
            assert(saved_ok(m2.graph, e));
            assert forall|i: int| 0 <= i < m2.memory.len() implies saved_ok(m2.graph, #[trigger] m2.memory[i]) by {
                if i > 0 {
                    assert(m2.memory[i] == m.memory[i - 1]);
                }
            }
            assert forall|i: int, j: int| 0 <= i < j < m2.memory.len() implies #[trigger] m2.memory[j].iteration < #[trigger] m2.memory[i].iteration by {
                assert(m2.memory[j] == m.memory[j - 1]);
                if i > 0 {
                    assert(m2.memory[i] == m.memory[i - 1]);
                } else if j > 1 {
                    assert(m.memory[j - 1].iteration < m.memory[0].iteration);
                }
            }
        }
    }
    Some(st)
}

/// The configuration reached from `c` by the transition of index `ti` of its state.
pub open spec fn moved(g: GraphView, c: Config, ti: int) -> Config {
    let t = g.states[c.state].transitions[ti];
    Config { state: t.index_to_state->0 as int, read: applied_read(c.read, t), writes: applied_writes(c.writes, t) }
}

/// Taking, from the configuration `c`, the transitions of indexes `tis` (each
/// one can be taken where it stands) goes through normal states and ends in an
/// accepting state.
pub open spec fn accepting_path(g: GraphView, c: Config, tis: Seq<int>) -> bool
    decreases tis.len(),
{
    if tis.len() == 0 {
        g.states[c.state].state_type == TuringStateType::Accepting
    } else {
        &&& g.states[c.state].state_type == TuringStateType::Normal
        &&& applicable(g, c.state, c.read, c.writes, tis[0])
        &&& accepting_path(g, moved(g, c, tis[0]), tis.drop_first())
    }
}

/// The configuration reached from `c` by the first `j` transitions of `tis`.
pub open spec fn config_after(g: GraphView, c: Config, tis: Seq<int>, j: nat) -> Config
    decreases j,
{
    if j == 0 {
        c
    } else {
        moved(g, config_after(g, c, tis, (j - 1) as nat), tis[j - 1])
    }
}

/// The exploration will still try to go on from the configuration `c` by the
/// transitions `rest`: `c` is the current configuration and `rest` is empty or
/// starts by a transition that the machine can take next, or `c` is saved
/// with the first transition of `rest` left to take.
pub open spec fn pending_at(m: MachineView, c: Config, rest: Seq<int>) -> bool {
    ||| c == config_of(m) && (rest.len() == 0 || match m.backtrack {
        Some(i) => rest[0] == i as int,
        None => valid_indexes(m).contains(rest[0] as usize),
    })
    ||| rest.len() > 0 && exists|k: int|
        0 <= k < m.memory.len() && c == saved_config(m.memory[k]) && #[trigger] m.memory[k].next.contains(
            rest[0] as usize,
        )
}

/// What the exploration keeps: every path to an accepting state goes through
/// a configuration that the exploration will still go on from, by the rest of
/// that path. Saved configurations and the configuration reached by going back
/// do not accept.
#[verifier::opaque]
pub open spec fn search_complete(m: MachineView) -> bool {
    let c0 = initial_config(m.word, m.graph.k);
    &&& forall|k: int| 0 <= k < m.memory.len() ==> (#[trigger] m.graph.states[m.memory[k].state as int]).state_type
        != TuringStateType::Accepting
    &&& m.backtrack is Some ==> !is_accepting(m)
    &&& forall|tis: Seq<int>| #[trigger] accepting_path(m.graph, c0, tis) ==> path_pending(m, c0, tis)
}

/// Some configuration of the path `tis` from `c0` is one that the exploration
/// will still go on from, by the rest of the path.
pub open spec fn path_pending(m: MachineView, c0: Config, tis: Seq<int>) -> bool {
    exists|j: nat| j <= tis.len() && #[trigger] pending_at(m, config_after(m.graph, c0, tis, j), rest_after(tis, j))
}

/// The transitions of `tis` after the first `j`.
pub open spec fn rest_after(tis: Seq<int>, j: nat) -> Seq<int> {
    tis.skip(j as int)
}

/// What is left of a path to an accepting state, after any number of its transitions.
proof fn lemma_path_suffix(g: GraphView, c: Config, tis: Seq<int>, j: nat)
    requires
        accepting_path(g, c, tis),
        j <= tis.len(),
    ensures
        accepting_path(g, config_after(g, c, tis, j), tis.skip(j as int)),
    decreases j,
{
    if j == 0 {
        assert(tis.skip(0) =~= tis);
    } else {
        lemma_path_suffix(g, c, tis, (j - 1) as nat);
        let rest = tis.skip(j - 1);
        assert(rest[0] == tis[j - 1]);
        assert(rest.drop_first() =~= tis.skip(j as int));
    }
}

/// A transition that can be taken from the current configuration is among the valid ones.
proof fn lemma_valid_contains(m: MachineView, ti: int)
    requires
        machine_wf(m),
        applicable(m.graph, m.state as int, m.read, m.writes, ti),
    ensures
        valid_indexes(m).contains(ti as usize),
{
    let s = current_state(m);
    assert(s.transitions.len() <= usize::MAX);
    lemma_indexes_reading(s.transitions, heads(m.read, m.writes), s.transitions.len());
    assert(s.transitions[ti].chars_read == heads(m.read, m.writes));
}

/// The exploration starts complete.
proof fn lemma_search_initial(g: GraphView, word: Seq<char>, mode: Mode)
    requires
        machine_wf(initial_machine(g, word, mode)),
    ensures
        search_complete(initial_machine(g, word, mode)),
{
    reveal(search_complete);
    let m = initial_machine(g, word, mode);
    let c0 = initial_config(word, g.k);
    assert(config_of(m) == c0);
    assert forall|tis: Seq<int>| #[trigger] accepting_path(g, c0, tis) implies path_pending(m, c0, tis) by {
        let j: nat = 0;
        assert(rest_after(tis, j) =~= tis);
        if tis.len() > 0 {
            lemma_valid_contains(m, tis[0]);
        }
        assert(pending_at(m, config_after(g, c0, tis, j), rest_after(tis, j)));
    }
}

/// Showing the initial configuration, or ending the execution, keeps the
/// exploration complete: neither changes the configuration or the saved points.
#[verifier::spinoff_prover]
proof fn lemma_search_first(m: MachineView, m2: MachineView)
    requires
        search_complete(m),
        m2 == (MachineView { last: m2.last, ..after_first(m) }) || m2 == (MachineView { is_over: true, ..after_none(m) }),
    ensures
        search_complete(m2),
{
    reveal(search_complete);
    let g = m.graph;
    let c0 = initial_config(m.word, g.k);
    assert(config_of(m2) == config_of(m) && valid_indexes(m2) == valid_indexes(m) && m2.memory == m.memory);
    assert forall|tis: Seq<int>| #[trigger] accepting_path(g, c0, tis) implies path_pending(m2, c0, tis) by {
        assert(path_pending(m, c0, tis));
        let j = choose|j: nat| j <= tis.len() && #[trigger] pending_at(m, config_after(g, c0, tis, j), rest_after(tis, j));
        assert(pending_at(m2, config_after(g, c0, tis, j), rest_after(tis, j)));
    }
}

/// Taking a transition keeps the exploration complete: a path pending at a
/// saved point stays so; a path pending at the current configuration either
/// takes the transition taken, and is then pending one step further, or
/// another one that can be taken, which is then saved.
#[verifier::spinoff_prover]
proof fn lemma_search_taken(m: MachineView, m2: MachineView)
    requires
        machine_wf(m),
        search_complete(m),
        gives_taken(m),
        m2 == (MachineView { last: m2.last, ..after_taken(m) }),
        machine_wf(m2),
    ensures
        search_complete(m2),
{
    reveal(search_complete);
    let g = m.graph;
    let c0 = initial_config(m.word, g.k);
    let saves = m.backtrack is None && valid_indexes(m).len() >= 2;
    assert(m2.memory == memory_after_taken(m));
    assert(config_of(m2) == moved(g, config_of(m), taken_index(m) as int));
    assert forall|k: int| 0 <= k < m2.memory.len() implies (#[trigger] m2.graph.states[m2.memory[k].state as int]).state_type
        != TuringStateType::Accepting by {
        if saves && k > 0 {
            assert(m2.memory[k] == m.memory[k - 1]);
        } else if !saves {
            assert(m2.memory[k] == m.memory[k]);
        }
    }
    assert forall|tis: Seq<int>| #[trigger] accepting_path(g, c0, tis) implies path_pending(m2, c0, tis) by {
        assert(path_pending(m, c0, tis));
        let j = choose|j: nat| j <= tis.len() && #[trigger] pending_at(m, config_after(g, c0, tis, j), rest_after(tis, j));
        let cj = config_after(g, c0, tis, j);
        let rest = rest_after(tis, j);
        lemma_path_suffix(g, c0, tis, j);
        if rest.len() > 0 && exists|k: int|
            0 <= k < m.memory.len() && cj == saved_config(m.memory[k]) && #[trigger] m.memory[k].next.contains(rest[0] as usize) {
            let k = choose|k: int|
                0 <= k < m.memory.len() && cj == saved_config(m.memory[k]) && #[trigger] m.memory[k].next.contains(rest[0] as usize);
            let k2 = if saves { k + 1 } else { k };
            assert(m2.memory[k2] == m.memory[k]);
            assert(pending_at(m2, cj, rest));
        } else {
            assert(cj == config_of(m));
            assert(rest.len() > 0);
            if rest[0] == taken_index(m) as int {
                let j2 = (j + 1) as nat;
                assert(config_after(g, c0, tis, j2) == moved(g, cj, rest[0]));
                assert(rest_after(tis, j2) =~= rest.drop_first());
                let rest2 = rest.drop_first();
                assert(accepting_path(g, cj, rest));
                assert(accepting_path(g, config_of(m2), rest2));
                if rest2.len() > 0 {
                    assert(applicable(g, m2.state as int, m2.read, m2.writes, rest2[0]));
                    lemma_valid_contains(m2, rest2[0]);
                }
                assert(pending_at(m2, config_after(g, c0, tis, j2), rest_after(tis, j2)));
            } else {
                assert(m.backtrack is None);
                let v = valid_indexes(m);
                assert(v.contains(rest[0] as usize));
                let p = choose|p: int| 0 <= p < v.len() && v[p] == rest[0] as usize;
                assert(p != 0);
                assert(v.drop_first()[p - 1] == rest[0] as usize);
                assert(m2.memory[0].next.contains(rest[0] as usize));
                assert(cj == saved_config(m2.memory[0]));
                assert(pending_at(m2, cj, rest));
            }
        }
    }
}

/// Going back to the most recent saved point keeps the exploration complete:
/// no path is pending at the current configuration, which is blocked and does
/// not accept; a path pending at the most recent saved point by the
/// transition chosen next is pending at the restored configuration, and the
/// others stay pending at their saved points.
#[verifier::spinoff_prover]
proof fn lemma_search_back(m: MachineView, m2: MachineView)
    requires
        machine_wf(m),
        search_complete(m),
        gives_back(m),
        m2 == (MachineView { last: m2.last, ..after_back(m) }),
    ensures
        search_complete(m2),
{
    reveal(search_complete);
    let g = m.graph;
    let c0 = initial_config(m.word, g.k);
    let top = m.memory[0];
    let drops = top.next.len() == 1;
    assert(m2.memory == memory_after_back(m));
    assert(config_of(m2) == saved_config(top));
    assert(m2.graph.states[top.state as int].state_type != TuringStateType::Accepting);
    assert forall|k: int| 0 <= k < m2.memory.len() implies (#[trigger] m2.graph.states[m2.memory[k].state as int]).state_type
        != TuringStateType::Accepting by {
        if drops {
            assert(m2.memory[k] == m.memory[k + 1]);
        } else if k > 0 {
            assert(m2.memory[k] == m.memory[k]);
        } else {
            assert(m2.memory[k].state == top.state);
        }
    }
    assert forall|tis: Seq<int>| #[trigger] accepting_path(g, c0, tis) implies path_pending(m2, c0, tis) by {
        assert(path_pending(m, c0, tis));
        let j = choose|j: nat| j <= tis.len() && #[trigger] pending_at(m, config_after(g, c0, tis, j), rest_after(tis, j));
        let cj = config_after(g, c0, tis, j);
        let rest = rest_after(tis, j);
        lemma_path_suffix(g, c0, tis, j);
        assert(accepting_path(g, cj, rest));
        if rest.len() > 0 && exists|k: int|
            0 <= k < m.memory.len() && cj == saved_config(m.memory[k]) && #[trigger] m.memory[k].next.contains(rest[0] as usize) {
            let k = choose|k: int|
                0 <= k < m.memory.len() && cj == saved_config(m.memory[k]) && #[trigger] m.memory[k].next.contains(rest[0] as usize);
            if k == 0 {
                if rest[0] as usize == top.next[0] {
                    assert(pending_at(m2, cj, rest));
                } else {
                    let p = choose|p: int| 0 <= p < top.next.len() && top.next[p] == rest[0] as usize;
                    assert(p != 0);
                    assert(top.next.drop_first()[p - 1] == rest[0] as usize);
                    assert(m2.memory[0].next.contains(rest[0] as usize));
                    assert(pending_at(m2, cj, rest));
                }
            } else {
                let k2 = if drops { k - 1 } else { k };
                assert(m2.memory[k2] == m.memory[k]);
                assert(pending_at(m2, cj, rest));
            }
        } else {
            assert(cj == config_of(m));
            assert(!is_accepting(m));
            assert(rest.len() > 0);
            assert(applicable(g, m.state as int, m.read, m.writes, rest[0]));
            lemma_valid_contains(m, rest[0]);
            assert(false);
        }
    }
}

/// When the execution ends by itself, not accepting, in a mode that
/// backtracks, no path leads from the initial configuration to an accepting state.
#[verifier::spinoff_prover]
proof fn lemma_search_end(m: MachineView)
    requires
        machine_wf(m),
        search_complete(m),
        gives_none(m),
        !stopped(m),
        !is_accepting(m),
        m.mode != Mode::StopFirstReject,
    ensures
        forall|tis: Seq<int>| !accepting_path(m.graph, initial_config(m.word, m.graph.k), tis),
{
    reveal(search_complete);
    let g = m.graph;
    let c0 = initial_config(m.word, g.k);
    assert(m.memory.len() == 0);
    assert forall|tis: Seq<int>| !accepting_path(g, c0, tis) by {
        if accepting_path(g, c0, tis) {
            assert(path_pending(m, c0, tis));
            let j = choose|j: nat| j <= tis.len() && #[trigger] pending_at(m, config_after(g, c0, tis, j), rest_after(tis, j));
            let cj = config_after(g, c0, tis, j);
            let rest = rest_after(tis, j);
            lemma_path_suffix(g, c0, tis, j);
            assert(accepting_path(g, cj, rest));
            assert(cj == config_of(m));
            assert(rest.len() > 0);
            assert(applicable(g, m.state as int, m.read, m.writes, rest[0]));
            lemma_valid_contains(m, rest[0]);
        }
    }
}

/// A machine in the mode `StopAfter(n)` gives no step once it has done `n`
/// iterations, and each step it gives counts one more iteration: from its
/// initial configuration (no iteration done) it gives at most `n` steps.
pub proof fn lemma_stop_after(m: MachineView, n: usize)
    requires
        m.mode == Mode::StopAfter(n),
        m.iteration <= n,
    ensures
        m.iteration == n ==> gives_none(m),
        gives_first(m) ==> after_first(m).iteration == m.iteration + 1 <= n,
        gives_taken(m) ==> after_taken(m).iteration == m.iteration + 1 <= n,
        gives_back(m) ==> after_back(m).iteration == m.iteration + 1 <= n,
{
}

/// Law: the transition that a step takes leads, by the rules of Turing
/// machines, from the configuration before the step to the one after it.
pub proof fn lemma_taken_is_move(m: MachineView)
    requires
        machine_wf(m),
        gives_taken(m),
    ensures
        is_move(m.graph, config_of(m), taken_index(m) as int, config_of(after_taken(m))),
{
    let s = current_state(m);
    crate::turing_state::lemma_indexes_reading(s.transitions, heads(m.read, m.writes), s.transitions.len());
    if m.backtrack is None {
        assert(valid_indexes(m).len() > 0);
        let i = valid_indexes(m)[0];
        assert(applicable(m.graph, m.state as int, m.read, m.writes, i as int));
    }
    assert(crate::turing_graph::transition_fits(
        m.graph.states[m.state as int].transitions[taken_index(m) as int],
        m.graph.k,
        m.graph.states.len(),
    ));
}

impl TuringMachines {
    /// Takes the next step of the execution and returns it, or [None] when the
    /// execution is over (the machine is then marked as over).
    ///
    /// A step either shows the initial configuration, takes a transition that
    /// can be taken (saving the others to explore them later), or goes back
    /// to the most recent saved configuration when none can be taken.
    pub fn next_step(&mut self) -> (res: Option<TuringExecutionSteps>)
        requires
            old(self).wf(),
        ensures
            final(self).wf(),
            ({
                let m = old(self)@;
                &&& gives_first(m) ==> (res matches Some(st) && st@ == first_step_view(m)
                    && final(self)@ == MachineView { last: Some(st@), ..after_first(m) })
                &&& gives_taken(m) ==> (res matches Some(st) && st@ == taken_step_view(m)
                    && final(self)@ == MachineView { last: Some(st@), ..after_taken(m) })
                &&& gives_back(m) ==> (res matches Some(st) && st@ == back_step_view(m)
                    && final(self)@ == MachineView { last: Some(st@), ..after_back(m) })
                &&& gives_none(m) ==> res is None && final(self)@ == MachineView { is_over: true, ..after_none(m) }
            }),
            final(self)@ == next_view(old(self)@),
    {
        let ghost m = self@;
        let res = match self {
            TuringMachines::TuringMachine { graph, data, iteration, last_iteration, is_over } => {
                let r = next_iteration(graph, data, iteration);
                match r {
                    Some(step) => {
                        *last_iteration = Some(step.clone());
                        Some(step)
                    },
                    None => {
                        *is_over = true;
                        None
                    },
                }
            },
        };
        proof {
            let m2 = self@;
            if gives_first(m) {
                assert(m2 =~= MachineView { last: m2.last, ..after_first(m) });
            } else if gives_taken(m) {
                assert(m2 =~= MachineView { last: m2.last, ..after_taken(m) });
            } else if gives_back(m) {
                assert(m2 =~= MachineView { last: m2.last, ..after_back(m) });
            } else {
                assert(m2 =~= MachineView { is_over: true, ..after_none(m) });
            }
        }
        res
    }
}

/// The configuration after a step.
pub open spec fn step_config(s: StepView) -> Config {
    Config { state: step_pointer(s) as int, read: step_read(s), writes: step_writes(s) }
}

/// The views of a sequence of steps.
pub open spec fn step_views(ss: Seq<TuringExecutionSteps>) -> Seq<StepView> {
    ss.map_values(|s: TuringExecutionSteps| s@)
}

/// The step `i` of `steps` takes, in the graph `g`, a transition from the
/// configuration of the step before it to its own.
pub open spec fn run_link(g: GraphView, steps: Seq<StepView>, i: int) -> bool {
    let prev = steps[i - 1];
    let p = step_pointer(prev) as int;
    match steps[i] {
        StepView::Taken { previous, reached, state_pointer, index_taken, transition, .. } => {
            &&& is_move(g, step_config(prev), index_taken as int, step_config(steps[i]))
            &&& transition == g.states[p].transitions[index_taken as int]
            &&& previous == g.states[p]
            &&& reached == g.states[state_pointer as int]
        },
        _ => false,
    }
}

/// `steps` is a run of the graph `g` on `word`: it starts by the initial
/// configuration, then each step takes a transition from the configuration
/// of the step before it.
pub open spec fn is_run(g: GraphView, word: Seq<char>, steps: Seq<StepView>) -> bool {
    &&& steps.len() >= 1
    &&& steps[0] matches StepView::First { state, .. } && state == g.states[0]
    &&& step_config(steps[0]) == initial_config(word, g.k)
    &&& forall|i: int| 1 <= i < steps.len() ==> #[trigger] run_link(g, steps, i)
}

/// `steps` is a run of the graph `g` on `word` that ends in an accepting state.
pub open spec fn is_accepting_run(g: GraphView, word: Seq<char>, steps: Seq<StepView>) -> bool {
    &&& is_run(g, word, steps)
    &&& g.states[step_pointer(steps.last()) as int].state_type == TuringStateType::Accepting
}

/// A saved point is the configuration after one of the steps of `pv`, with its iteration.
pub open spec fn witnessed(pv: Seq<StepView>, e: SavedView) -> bool {
    exists|j: int| 0 <= j < pv.len() && #[trigger] step_iteration(pv[j]) == e.iteration && step_config(pv[j]) == saved_config(e)
}

/// The machine after one call of [TuringMachines::next_step] on `m`.
pub open spec fn next_view(m: MachineView) -> MachineView {
    if gives_first(m) {
        MachineView { last: Some(first_step_view(m)), ..after_first(m) }
    } else if gives_taken(m) {
        MachineView { last: Some(taken_step_view(m)), ..after_taken(m) }
    } else if gives_back(m) {
        MachineView { last: Some(back_step_view(m)), ..after_back(m) }
    } else {
        MachineView { is_over: true, ..after_none(m) }
    }
}

/// The machine after `n` calls of [TuringMachines::next_step] from `m`.
pub open spec fn steps_from(m: MachineView, n: nat) -> MachineView
    decreases n,
{
    if n == 0 {
        m
    } else {
        next_view(steps_from(m, (n - 1) as nat))
    }
}

/// The steps `p` once the ones after the last step of iteration `it` are taken off.
pub open spec fn pop_to(p: Seq<StepView>, it: usize) -> Seq<StepView>
    decreases p.len(),
{
    if p.len() == 0 || step_iteration(p.last()) == it {
        p
    } else {
        pop_to(p.drop_last(), it)
    }
}

/// The steps kept on the way to an accepting state, once the machine `m`
/// takes its next step: a step that shows the initial configuration or takes a
/// transition is added; going back takes off the steps after the saved point.
pub open spec fn path_next(p: Seq<StepView>, m: MachineView) -> Seq<StepView> {
    if gives_first(m) {
        p.push(first_step_view(m))
    } else if gives_taken(m) {
        p.push(taken_step_view(m))
    } else if gives_back(m) {
        pop_to(p, m.memory[0].iteration)
    } else {
        p
    }
}

/// The steps kept on the way to an accepting state after `n` steps from `m`.
pub open spec fn path_views(m: MachineView, n: nat) -> Seq<StepView>
    decreases n,
{
    if n == 0 {
        Seq::empty()
    } else {
        path_next(path_views(m, (n - 1) as nat), steps_from(m, (n - 1) as nat))
    }
}

/// No machine before the `n`-th step from `m` is over.
pub open spec fn first_over_at(m: MachineView, n: nat) -> bool {
    forall|k: nat| k < n ==> !(#[trigger] steps_from(m, k)).is_over
}

/// Law: every step shows the tapes the machine has after it, and a step that
/// takes a transition or goes back shows the state the machine is in after
/// it; going back shows the state and the tapes of the saved point it goes
/// back to, not those of the configuration it leaves.
pub proof fn lemma_step_shows_machine(m: MachineView)
    requires
        !gives_none(m),
    ensures
        next_view(m).last matches Some(s) && {
            &&& step_read(s) == next_view(m).read
            &&& step_writes(s) == next_view(m).writes
            &&& !gives_first(m) ==> step_pointer(s) == next_view(m).state && step_state(s)
                == m.graph.states[next_view(m).state as int]
        },
        gives_back(m) ==> (next_view(m).last matches Some(s) && {
            &&& step_read(s) == m.memory[0].read
            &&& step_writes(s) == m.memory[0].writes
            &&& step_pointer(s) == m.memory[0].state
        }),
{
}

/// Taking off steps after a step of iteration `it` that no later step has.
proof fn lemma_pop_to(p: Seq<StepView>, it: usize, j: int)
    requires
        0 <= j < p.len(),
        step_iteration(p[j]) == it,
        forall|a: int| j < a < p.len() ==> step_iteration(#[trigger] p[a]) != it,
    ensures
        pop_to(p, it) == p.take(j + 1),
    decreases p.len(),
{
    if j == p.len() - 1 {
        assert(p.take(j + 1) =~= p);
    } else {
        let q = p.drop_last();
        assert(step_iteration(p.last()) != it);
        assert forall|a: int| j < a < q.len() implies step_iteration(#[trigger] q[a]) != it by {
            assert(q[a] == p[a]);
        }
        lemma_pop_to(q, it, j);
        assert(q.take(j + 1) =~= p.take(j + 1));
    }
}

/// Law: a machine that was not over becomes over exactly when a step finds
/// nothing more to do: the step before gives none, and the machine is then the
/// one that step leaves.
pub proof fn lemma_over_when_ended(m: MachineView, n: nat)
    requires
        !m.is_over,
        steps_from(m, n).is_over,
        first_over_at(m, n),
    ensures
        n > 0,
        gives_none(steps_from(m, (n - 1) as nat)),
        steps_from(m, n) == (MachineView { is_over: true, ..after_none(steps_from(m, (n - 1) as nat)) }),
{
    let p = steps_from(m, (n - 1) as nat);
    assert(!p.is_over);
}

/// Law: the search for an accepting path does not depend on anything but
/// where it starts: two searches from the same machine that run until the
/// execution is over end on the same machine with the same steps kept.
pub proof fn lemma_search_repeatable(m: MachineView, n1: nat, n2: nat)
    requires
        steps_from(m, n1).is_over,
        steps_from(m, n2).is_over,
        first_over_at(m, n1),
        first_over_at(m, n2),
    ensures
        n1 == n2,
        steps_from(m, n1) == steps_from(m, n2),
        path_views(m, n1) == path_views(m, n2),
{
    if n1 < n2 {
        assert(!steps_from(m, n1).is_over);
    } else if n2 < n1 {
        assert(!steps_from(m, n2).is_over);
    }
}

/// The execution ended, not accepting, in a mode that backtracks and does not
/// stop after a number of iterations, before the count of iterations reached
/// its limit: all the exploration was done.
pub open spec fn explores_all(m: MachineView) -> bool {
    &&& m.mode == Mode::SaveAll
    &&& m.iteration < usize::MAX
    &&& !is_accepting(m)
}

/// What [TuringMachines::get_path_to_accept] keeps while it explores.
pub open spec fn path_inv(m0: MachineView, m: MachineView, pv: Seq<StepView>) -> bool {
    &&& machine_wf(m)
    &&& m.graph == m0.graph
    &&& m.word == m0.word
    &&& m.mode == m0.mode
    &&& pv.len() == 0 ==> m == initial_machine(m0.graph, m0.word, m0.mode)
    &&& pv.len() > 0 ==> {
        &&& is_run(m.graph, m.word, pv)
        &&& !m.first
        &&& step_config(pv.last()) == config_of(m)
        &&& m.backtrack is None ==> step_iteration(pv.last()) + 1 == m.iteration
    }
    &&& forall|a: int, b: int| 0 <= a < b < pv.len() ==> step_iteration(#[trigger] pv[a]) < step_iteration(#[trigger] pv[b])
    &&& forall|a: int| 0 <= a < pv.len() ==> step_iteration(#[trigger] pv[a]) < m.iteration
    &&& forall|k: int| 0 <= k < m.memory.len() ==> #[trigger] witnessed(pv, m.memory[k])
}

impl TuringMachines {
    /// Gets the path to the accepting state if any exists.
    /// In other terms, it will only store the steps that will lead to an accepting path without any backtracking.
    /// Always resets the execution before starting (but doesn't reset after ending).
    /// ## Returns
    /// [None] if no path to an accepting state is found.
    /// [Some] containing a [Vec] of [TuringExecutionSteps] leading to the accepting state.
    ///
    /// ## Infinite iterations problems
    /// **Beware** that this function will loop forever **if** the related turing machine graph loops for the given input.
    /// In order to prevent this, it is possible to supply a function that will be called before every iteration to check if it is allowed to continue it's execution.
    /// Another mitigation would be to simply change the execution mode of this turing machine.
    pub fn get_path_to_accept<F: FnMut() -> bool>(&mut self, mut exit_condition: F) -> (res: Option<Vec<TuringExecutionSteps>>)
        requires
            old(self).wf(),
            forall|f: F| call_requires(f, ()),
        ensures
            final(self).wf(),
            final(self)@.graph == old(self)@.graph,
            final(self)@.word == old(self)@.word,
            final(self)@.mode == old(self)@.mode,
            res matches Some(p) ==> is_accepting_run(old(self)@.graph, old(self)@.word, step_views(p@)),
            (forall|f: F, b: bool| call_ensures(f, (), b) ==> b) ==> (res is None ==> final(self)@.is_over),
            res is None && final(self)@.is_over && final(self)@.iteration > 0 ==> !is_accepting(final(self)@),
            res is None && final(self)@.is_over && explores_all(final(self)@) ==> forall|tis: Seq<int>|
                !accepting_path(old(self)@.graph, initial_config(old(self)@.word, old(self)@.graph.k), tis),
            ({
                let init = initial_machine(old(self)@.graph, old(self)@.word, old(self)@.mode);
                exists|n: nat|
                    #![trigger steps_from(init, n)]
                    {
                        &&& final(self)@ == steps_from(init, n)
                        &&& first_over_at(init, n)
                        &&& res matches Some(p) ==> step_views(p@) == path_views(init, n)
                    }
            }),
            res is Some ==> final(self)@.is_over,
            res is None && !final(self)@.is_over ==> exists|f: F| call_ensures(f, (), false),
            final(self)@.is_over ==> (res is Some <==> final(self)@.iteration > 0 && is_accepting(final(self)@)),
    {
        let ghost m0 = self@;
        self.reset();
        proof {
            lemma_search_initial(m0.graph, m0.word, m0.mode);
        }
        let mut path: Vec<TuringExecutionSteps> = Vec::new();
        let mut last_step_type: Option<TuringStateType> = None;
        let ghost init = initial_machine(m0.graph, m0.word, m0.mode);
        let ghost mut n: nat = 0;
        assert(step_views(path@) =~= Seq::<StepView>::empty());
        assert(step_views(path@) == path_views(init, n));
        loop
            invariant_except_break
                path_inv(m0, self@, step_views(path@)),
                last_step_type is None <==> path@.len() == 0,
                last_step_type matches Some(t) ==> t == current_state(self@).state_type,
                last_step_type is None <==> self@.iteration == 0,
                !self@.is_over,
            invariant
                forall|f: F| call_requires(f, ()),
                m0 == old(self)@,
                machine_wf(self@),
                self@.graph == m0.graph,
                self@.word == m0.word,
                self@.mode == m0.mode,
                search_complete(self@),
                init == initial_machine(m0.graph, m0.word, m0.mode),
                self@ == steps_from(init, n),
                first_over_at(init, n),
                step_views(path@) == path_views(init, n),
            ensures
                path@.len() > 0 ==> is_run(m0.graph, m0.word, step_views(path@)) && step_config(
                    step_views(path@).last(),
                ) == config_of(self@),
                last_step_type is None <==> path@.len() == 0,
                last_step_type matches Some(t) ==> t == current_state(self@).state_type,
                last_step_type is None <==> self@.iteration == 0,
                self@.is_over,
                explores_all(self@) ==> forall|tis: Seq<int>|
                    !accepting_path(m0.graph, initial_config(m0.word, m0.graph.k), tis),
            decreases usize::MAX - self@.iteration,
        {
            let ghost m = self@;
            let ghost pv = step_views(path@);
            let step = self.next_step();
            proof {
                let m2 = self@;
                if gives_first(m) {
                    lemma_search_first(m, m2);
                } else if gives_taken(m) {
                    lemma_search_taken(m, m2);
                } else if gives_back(m) {
                    lemma_search_back(m, m2);
                } else {
                    lemma_search_first(m, m2);
                    if explores_all(m2) {
                        lemma_search_end(m);
                    }
                }
                assert(m2.graph == m.graph && m2.word == m.word && m2.mode == m.mode);
                assert(steps_from(init, n + 1) == next_view(steps_from(init, n)));
                assert(path_views(init, n + 1) == path_next(path_views(init, n), steps_from(init, n)));
                assert forall|k: nat| k < n + 1 implies !(#[trigger] steps_from(init, k)).is_over by {
                    if k < n {
                        assert(!steps_from(init, k).is_over);
                    }
                }
                n = n + 1;
            }
            match step {
                None => {
                    proof {
                        assert(gives_none(m));
                        assert(config_of(self@) =~= config_of(m));
                    }
                    break;
                },
                Some(step) => {
                    let ghost before = exit_condition;
                    let go_on = exit_condition();
                    if !go_on {
                        assert(call_ensures(before, (), false));
                        return None;
                    }
                    last_step_type = Some(step.get_current_state().state_type);
                    match &step {
                        TuringExecutionSteps::Backtracked { backtracked_iteration, .. } => {
                            let bi = *backtracked_iteration;
                            proof {
                                assert(gives_back(m));
                                assert(witnessed(pv, m.memory[0]));
                            }
                            let ghost j = choose|j: int| 0 <= j < pv.len() && #[trigger] step_iteration(pv[j]) == m.memory[0].iteration
                                && step_config(pv[j]) == saved_config(m.memory[0]);
                            // Pop the path until we find the iteration we backtracked to
                            while path[path.len() - 1].get_nb_iterations() != bi
                                invariant
                                    0 <= j < pv.len(),
                                    step_iteration(pv[j]) == bi,
                                    j < path@.len() <= pv.len(),
                                    step_views(path@) == pv.take(path@.len() as int),
                                    forall|a: int, b: int| 0 <= a < b < pv.len() ==> step_iteration(#[trigger] pv[a]) < step_iteration(#[trigger] pv[b]),
                                decreases path@.len(),
                            {
                                proof {
                                    if path@.len() - 1 == j {
                                        assert(step_views(path@)[j] == pv[j]);
                                    }
                                }
                                path.pop();
                                assert(step_views(path@) =~= pv.take(path@.len() as int));
                            }
                            proof {
                                let l = path@.len() - 1;
                                assert(step_views(path@)[l] == pv[l]);
                                if l != j {
                                    if l < j {
                                    } else {
                                        assert(step_iteration(pv[j]) < step_iteration(pv[l]));
                                    }
                                }
                                assert(l == j);
                                assert forall|a: int| j < a < pv.len() implies step_iteration(#[trigger] pv[a]) != bi by {
                                    assert(step_iteration(pv[j]) < step_iteration(pv[a]));
                                }
                                lemma_pop_to(pv, bi, j);
                                let np = step_views(path@);
                                let m2 = self@;
                                assert(is_run(m2.graph, m2.word, np)) by {
                                    assert forall|i: int| 1 <= i < np.len() implies #[trigger] run_link(m2.graph, np, i) by {
                                        assert(run_link(m.graph, pv, i));
                                        assert(np[i] == pv[i] && np[i - 1] == pv[i - 1]);
                                    }
                                }
                                assert forall|k: int| 0 <= k < m2.memory.len() implies #[trigger] witnessed(np, m2.memory[k]) by {
                                    let e = m2.memory[k];
                                    let ok = if m.memory[0].next.len() == 1 { k + 1 } else { k };
                                    if m.memory[0].next.len() == 1 {
                                        assert(e == m.memory[k + 1]);
                                    } else if k > 0 {
                                        assert(e == m.memory[k]);
                                    }
                                    assert(witnessed(pv, m.memory[ok]));
                                    let w = choose|w: int| 0 <= w < pv.len() && #[trigger] step_iteration(pv[w]) == m.memory[ok].iteration
                                        && step_config(pv[w]) == saved_config(m.memory[ok]);
                                    if ok > 0 {
                                        assert(m.memory[ok].iteration < m.memory[0].iteration);
                                    }
                                    if w > j {
                                        assert(step_iteration(pv[j]) < step_iteration(pv[w]));
                                    }
                                    assert(np[w] == pv[w]);
                                    assert(step_iteration(np[w]) == e.iteration);
                                }
                                assert forall|a: int| 0 <= a < np.len() implies step_iteration(#[trigger] np[a]) < m2.iteration by {
                                    assert(np[a] == pv[a]);
                                }
                                assert forall|a: int, b: int| 0 <= a < b < np.len() implies step_iteration(#[trigger] np[a]) < step_iteration(#[trigger] np[b]) by {
                                    assert(np[a] == pv[a] && np[b] == pv[b]);
                                }
                            }
                        },
                        _ => {
                            proof {
                                if gives_taken(m) {
                                    lemma_taken_is_move(m);
                                }
                            }
                            path.push(step);
                            proof {
                                let np = step_views(path@);
                                let m2 = self@;
                                assert(np =~= pv.push(step@));
                                if gives_first(m) {
                                    assert(step_config(step@) =~= initial_config(m0.word, m0.graph.k));
                                } else {
                                    assert(gives_taken(m));
                                    assert(is_run(m2.graph, m2.word, np)) by {
                                        assert forall|i: int| 1 <= i < np.len() implies #[trigger] run_link(m2.graph, np, i) by {
                                            if i < np.len() - 1 {
                                                assert(run_link(m.graph, pv, i));
                                                assert(np[i] == pv[i] && np[i - 1] == pv[i - 1]);
                                            } else {
                                                assert(np[i - 1] == pv.last());
                                                assert(step_config(np[i]) =~= config_of(after_taken(m)));
                                            }
                                        }
                                    }
                                    assert(step_config(np.last()) =~= config_of(m2));
                                    assert forall|k: int| 0 <= k < m2.memory.len() implies #[trigger] witnessed(np, m2.memory[k]) by {
                                        if m.backtrack is None && valid_indexes(m).len() >= 2 {
                                            if k == 0 {
                                                let l = pv.len() - 1;
                                                assert(np[l] == pv[l]);
                                                assert(step_iteration(np[l]) == m2.memory[0].iteration);
                                                assert(step_config(np[l]) =~= saved_config(m2.memory[0]));
                                            } else {
                                                assert(m2.memory[k] == m.memory[k - 1]);
                                                assert(witnessed(pv, m.memory[k - 1]));
                                                let w = choose|w: int| 0 <= w < pv.len() && #[trigger] step_iteration(pv[w]) == m.memory[k - 1].iteration
                                                    && step_config(pv[w]) == saved_config(m.memory[k - 1]);
                                                assert(np[w] == pv[w]);
                                            }
                                        } else {
                                            assert(m2.memory[k] == m.memory[k]);
                                            assert(witnessed(pv, m.memory[k]));
                                            let w = choose|w: int| 0 <= w < pv.len() && #[trigger] step_iteration(pv[w]) == m.memory[k].iteration
                                                && step_config(pv[w]) == saved_config(m.memory[k]);
                                            assert(np[w] == pv[w]);
                                        }
                                    }
                                }
                                assert forall|a: int| 0 <= a < np.len() implies step_iteration(#[trigger] np[a]) < m2.iteration by {
                                    if a < pv.len() {
                                        assert(np[a] == pv[a]);
                                    }
                                }
                                assert forall|a: int, b: int| 0 <= a < b < np.len() implies step_iteration(#[trigger] np[a]) < step_iteration(#[trigger] np[b]) by {
                                    assert(np[a] == pv[a]);
                                    if b < pv.len() {
                                        assert(np[b] == pv[b]);
                                    }
                                }
                            }
                        },
                    }
                },
            }
        }
        // If the last step did not result in an accepting state,
        // then we know that no path results in an accepting state.
        match last_step_type {
            Some(t) => {
                if t != TuringStateType::Accepting {
                    return None;
                }
            },
            None => {
                return None;
            },
        }
        Some(path)
    }
}

/// The description of a mode.
pub open spec fn mode_text(m: Mode) -> Seq<char> {
    match m {
        Mode::SaveAll => "Saves All and does a full exploration"@,
        Mode::StopAfter(n) => "Stops After "@ + decimal(n as nat) + " iterations"@,
        Mode::StopFirstReject => "Stops after the First Reject"@,
    }
}

impl Mode {
    /// The description of this mode.
    pub fn to_string(&self) -> (s: String)
        ensures
            s@ == mode_text(*self),
    {
        match self {
            Mode::SaveAll => String::from_str("Saves All and does a full exploration"),
            Mode::StopAfter(n) => {
                let mut s = String::new();
                push_str(&mut s, "Stops After ");
                push_decimal(&mut s, *n);
                push_str(&mut s, " iterations");
                s
            },
            Mode::StopFirstReject => String::from_str("Stops after the First Reject"),
        }
    }
}

/// The texts of writing tapes, one per line.
pub open spec fn tapes_text(ws: Seq<TapeView>) -> Seq<char>
    decreases ws.len(),
{
    if ws.len() == 0 {
        Seq::empty()
    } else if ws.len() == 1 {
        tape_text(ws[0], true)
    } else {
        tapes_text(ws.drop_last()) + seq!['\n'] + tape_text(ws.last(), true)
    }
}

/// The tapes of a step, for humans.
pub open spec fn ribbons_text(read: TapeView, writes: Seq<TapeView>) -> Seq<char> {
    "* Ribbons:\nREAD:\n"@ + tape_text(read, false) + "\nWRITE:\n"@ + tapes_text(writes)
}

/// The text of a step for humans.
pub open spec fn step_text(st: StepView) -> Seq<char> {
    match st {
        StepView::First { state, read, writes } => "* Initial state : "@ + state_text(state) + "\n"@
            + ribbons_text(read, writes),
        StepView::Taken { previous, reached, transition, read, writes, .. } => "* Left state : "@ + state_text(
            previous,
        ) + "\n* Current state : "@ + state_text(reached) + "\n* Took the following transition : "@
            + transition_text(transition) + "\n"@ + ribbons_text(read, writes),
        StepView::Back { previous, reached, read, writes, backtracked_iteration, .. } => "* Backtracked from : "@
            + state_text(previous) + "\n* To  : "@ + state_text(reached) + "(back to iteration: "@ + decimal(
            backtracked_iteration as nat,
        ) + ")\n"@ + ribbons_text(read, writes),
    }
}

/// A step can be written for humans: it has a writing tape, and the
/// transition it took reads at least one tape.
pub open spec fn step_printable(st: StepView) -> bool {
    &&& step_writes(st).len() >= 1
    &&& st matches StepView::Taken { transition, .. } ==> transition.chars_read.len() >= 1
}

/// Appends the text of the tapes of a step.
fn push_ribbons(s: &mut String, read: &TuringReadingTape, writes: &Vec<TuringWritingTape>)
    requires
        writes@.len() >= 1,
    ensures
        final(s)@ == old(s)@ + ribbons_text(read@, tape_views(writes@)),
{
    let ghost ws = tape_views(writes@);
    push_str(s, "* Ribbons:\nREAD:\n");
    let r = read.to_string();
    s.append(r.as_str());
    push_str(s, "\nWRITE:\n");
    let ghost head = s@;
    let w0 = writes[0].to_string();
    s.append(w0.as_str());
    assert(ws.take(1) =~= seq![ws[0]]);
    let mut i: usize = 1;
    while i < writes.len()
        invariant
            1 <= i <= writes@.len(),
            ws == tape_views(writes@),
            s@ == head + tapes_text(ws.take(i as int)),
        decreases writes.len() - i,
    {
        assert(ws.take(i + 1).drop_last() =~= ws.take(i as int));
        assert(ws[i as int] == writes@[i as int]@);
        push_str(s, "\n");
        let w = writes[i].to_string();
        s.append(w.as_str());
        proof {
            reveal_strlit("\n");
        }
        assert(s@ =~= head + tapes_text(ws.take(i + 1)));
        i = i + 1;
    }
    assert(ws.take(writes@.len() as int) =~= ws);
    assert(s@ =~= old(s)@ + ribbons_text(read@, ws));
}

impl TuringExecutionSteps {
    /// The text of this step for humans, see [step_text].
    pub fn to_string(&self) -> (s: String)
        requires
            step_printable(self@),
        ensures
            s@ == step_text(self@),
    {
        let mut s = String::new();
        match self {
            TuringExecutionSteps::FirstIteration { init_state, init_read_ribbon, init_write_ribbons } => {
                push_str(&mut s, "* Initial state : ");
                let t = init_state.to_string();
                s.append(t.as_str());
                push_str(&mut s, "\n");
                push_ribbons(&mut s, init_read_ribbon, init_write_ribbons);
            },
            TuringExecutionSteps::TransitionTaken {
                previous_state,
                reached_state,
                transition_taken,
                read_ribbon,
                write_ribbons,
                ..
            } => {
                push_str(&mut s, "* Left state : ");
                let t = previous_state.to_string();
                s.append(t.as_str());
                push_str(&mut s, "\n* Current state : ");
                let t = reached_state.to_string();
                s.append(t.as_str());
                push_str(&mut s, "\n* Took the following transition : ");
                let t = transition_taken.to_string();
                s.append(t.as_str());
                push_str(&mut s, "\n");
                push_ribbons(&mut s, read_ribbon, write_ribbons);
            },
            TuringExecutionSteps::Backtracked {
                previous_state,
                reached_state,
                read_ribbon,
                write_ribbons,
                backtracked_iteration,
                ..
            } => {
                push_str(&mut s, "* Backtracked from : ");
                let t = previous_state.to_string();
                s.append(t.as_str());
                push_str(&mut s, "\n* To  : ");
                let t = reached_state.to_string();
                s.append(t.as_str());
                push_str(&mut s, "(back to iteration: ");
                push_decimal(&mut s, *backtracked_iteration);
                push_str(&mut s, ")\n");
                push_ribbons(&mut s, read_ribbon, write_ribbons);
            },
        }
        s
    }
}

} // verus!
