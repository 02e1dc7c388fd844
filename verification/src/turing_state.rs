//! States and transitions of a Turing machine graph.
use vstd::prelude::*;
use vstd::std_specs::cmp::PartialEqSpecImpl;

use crate::text::{copy_chars, decimal, push_decimal, push_str, string_push};
use crate::turing_errors::TuringError;
use crate::turing_tape::{END_CHAR, INIT_CHAR};

verus! {

/// Represents the different types of states that can be found inside a turing machine graph
#[derive(Debug, Clone, Copy, PartialEq, Eq, Structural)]
pub enum TuringStateType {
    /// A normal state, has no special effect.
    Normal,
    /// Accepts the given input.
    Accepting,
    /// Rejects the given input.
    Rejecting,
}

/// Represents the direction of a movement that the head of a tape can take after reading/writing a character
#[derive(Debug, Clone, Copy, PartialEq, Eq, Structural)]
pub enum TuringDirection {
    Left,
    Right,
    Stay,
}

/// The move of a head for a direction: `-1`, `1` or `0`.
pub open spec fn dir_value(d: TuringDirection) -> int {
    match d {
        TuringDirection::Left => -1,
        TuringDirection::Right => 1,
        TuringDirection::Stay => 0,
    }
}

/// The letter that stands for a direction in the text of a machine.
pub open spec fn dir_letter(d: TuringDirection) -> char {
    match d {
        TuringDirection::Left => 'L',
        TuringDirection::Right => 'R',
        TuringDirection::Stay => 'N',
    }
}

impl TuringDirection {
    /// Return the integer value of the direction.
    ///
    /// Left values are negatives, right values are positives and none is represented by zero.
    pub fn get_value(&self) -> (v: i8)
        ensures
            v == dir_value(*self),
    {
        match self {
            TuringDirection::Left => -1,
            TuringDirection::Right => 1,
            TuringDirection::Stay => 0,
        }
    }

    /// The letter that stands for this direction (`L`, `R` or `N`).
    pub fn get_letter(&self) -> (c: char)
        ensures
            c == dir_letter(*self),
    {
        match self {
            TuringDirection::Left => 'L',
            TuringDirection::Right => 'R',
            TuringDirection::Stay => 'N',
        }
    }
}

/// What a transition is, as mathematical values.
#[verifier::ext_equal]
pub struct TransitionView {
    pub chars_read: Seq<char>,
    pub move_read: TuringDirection,
    pub chars_write: Seq<(char, TuringDirection)>,
    pub index_to_state: Option<usize>,
}

/// A struct representing a transition for a turing machine that has strictly more than **1 tape** :
/// * `a_0, a_1, ..., a_{n-1} -> D_0, b_1, D_1, b_2, D_2, ..., b_{n-1}, D_{n-1}`
/// - With :
///     * `a_i` : The character *i* being read.
///     * `D_i` : Direction to take by taking this transition, see [TuringDirection] for more information.
///     * `b_i` : The character to replace the character *i* with.
#[derive(Debug)]
pub struct TuringTransition {
    /// The chars that have to be read in order apply the rest of the transition : `a_0,..., a_{n-1}`
    pub chars_read: Vec<char>,
    /// The move to take after writing/reading the character : `D_0`
    pub move_read: TuringDirection,
    /// The character to replace the character just read : `(b_1, D_1),..., (b_{n-1}, D_{n-1})`
    pub chars_write: Vec<(char, TuringDirection)>,
    /// The index of the state to go to after passing through this state.
    pub index_to_state: Option<usize>,
}

impl View for TuringTransition {
    type V = TransitionView;

    open spec fn view(&self) -> TransitionView {
        TransitionView {
            chars_read: self.chars_read@,
            move_read: self.move_read,
            chars_write: self.chars_write@,
            index_to_state: self.index_to_state,
        }
    }
}

/// The sizes given to [TuringTransition::create] agree: at least one direction,
/// one character read per direction, one character written per writing tape.
pub open spec fn create_args_ok(cr: Seq<char>, cw: Seq<char>, d: Seq<TuringDirection>) -> bool {
    &&& d.len() >= 1
    &&& cw.len() + 1 == d.len()
    &&& cr.len() == d.len()
}

/// The pairs `(b_i, D_i)` of the writing tapes.
pub open spec fn zip_writes(cw: Seq<char>, d: Seq<TuringDirection>) -> Seq<(char, TuringDirection)> {
    Seq::new(cw.len(), |i: int| (cw[i], d[i + 1]))
}

/// A rule `read -> write, dir` of a writing tape that [TuringTransition::create] refuses:
/// moving left from the initial character, or replacing the initial character
/// by another one.
pub open spec fn write_rule_refused(read: char, write: char, dir: TuringDirection) -> bool {
    ||| (read == INIT_CHAR && dir == TuringDirection::Left)
    ||| (read == INIT_CHAR && write != INIT_CHAR)
}

/// The arguments of [TuringTransition::create] describe an action that it refuses.
pub open spec fn create_refused(cr: Seq<char>, cw: Seq<char>, d: Seq<TuringDirection>) -> bool {
    ||| (cr[0] == END_CHAR && d[0] == TuringDirection::Right)
    ||| exists|i: int| 1 <= i < cr.len() && #[trigger] write_rule_refused(cr[i], cw[i - 1], d[i])
}

/// The cause given when a character read and a direction could take a head
/// out of its tape.
pub open spec fn couple_text(c: char, d: TuringDirection) -> Seq<char> {
    "Detected the couple : (\""@ + seq![c] + "\", \""@ + seq![dir_letter(d)]
        + "\"), this could result in going out of bounds of the tape. Change the given direction to None for example."@
}

/// The cause given when a special character read on the writing tape `tape`
/// would be replaced by another one.
pub open spec fn replace_text(read: char, write: char, tape: usize) -> Seq<char> {
    "Tried to replace a special character ('"@ + seq![read] + "') with another character ('"@ + seq![write]
        + "') for the writing tape "@ + decimal(tape as nat)
}

/// The first writing tape (counted from 1) whose rule [TuringTransition::create] refuses.
pub open spec fn first_refused_rule(cr: Seq<char>, cw: Seq<char>, d: Seq<TuringDirection>) -> int {
    choose|i: int|
        1 <= i < cr.len() && #[trigger] write_rule_refused(cr[i], cw[i - 1], d[i]) && forall|j: int|
            1 <= j < i ==> !#[trigger] write_rule_refused(cr[j], cw[j - 1], d[j])
}

/// The cause of the refusal of [TuringTransition::create]: the reading tape
/// is checked first, then the writing tapes in order; on one tape, going left
/// from the initial character is reported before replacing it.
pub open spec fn create_refusal_text(cr: Seq<char>, cw: Seq<char>, d: Seq<TuringDirection>) -> Seq<char> {
    if cr[0] == END_CHAR && d[0] == TuringDirection::Right {
        couple_text(cr[0], d[0])
    } else {
        let i = first_refused_rule(cr, cw, d);
        if cr[i] == INIT_CHAR && d[i] == TuringDirection::Left {
            couple_text(cr[i], d[i])
        } else {
            replace_text(cr[i], cw[i - 1], (i - 1) as usize)
        }
    }
}

fn couple_message(c: char, d: TuringDirection) -> (s: String)
    ensures
        s@ == couple_text(c, d),
{
    let mut s = String::new();
    push_str(&mut s, "Detected the couple : (\"");
    string_push(&mut s, c);
    push_str(&mut s, "\", \"");
    string_push(&mut s, d.get_letter());
    push_str(&mut s, "\"), this could result in going out of bounds of the tape. Change the given direction to None for example.");
    s
}

fn replace_message(read: char, write: char, tape: usize) -> (s: String)
    ensures
        s@ == replace_text(read, write, tape),
{
    let mut s = String::new();
    push_str(&mut s, "Tried to replace a special character ('");
    string_push(&mut s, read);
    push_str(&mut s, "') with another character ('");
    string_push(&mut s, write);
    push_str(&mut s, "') for the writing tape ");
    push_decimal(&mut s, tape);
    s
}

impl TuringTransition {
    /// Creates a new [TuringTransition].
    pub fn new(
        char_read: Vec<char>,
        move_read: TuringDirection,
        chars_read_write: Vec<(char, TuringDirection)>,
    ) -> (t: Self)
        ensures
            t@ == (TransitionView {
                chars_read: char_read@,
                move_read,
                chars_write: chars_read_write@,
                index_to_state: None,
            }),
    {
        Self { chars_read: char_read, move_read, chars_write: chars_read_write, index_to_state: None }
    }

    /// Simplifies the creation of a new [TuringTransition] of the form :
    /// * `a_0, a_1, ..., a_{n-1} -> D_0, b_1, D_1, b_2, D_2, ..., b_{n-1}, D_{n-1}`
    ///
    /// ## Args :
    /// * **chars_read** : The characters that have to be read in order to take this transition : `a_0,..., a_{n-1}`
    /// * **chars_write** : The characters to replace the characters read : `b_1, ..., b_{n-1}`
    /// * **directions** : The directions to move the heads of the tapes : `D_0, ..., D_{n-1}`
    pub fn create(
        chars_read: Vec<char>,
        chars_write: Vec<char>,
        directions: Vec<TuringDirection>,
    ) -> (res: Result<Self, TuringError>)
        ensures
            res is Ok <==> create_args_ok(chars_read@, chars_write@, directions@) && !create_refused(
                chars_read@,
                chars_write@,
                directions@,
            ),
            res matches Ok(t) ==> t@ == (TransitionView {
                chars_read: chars_read@,
                move_read: directions@[0],
                chars_write: zip_writes(chars_write@, directions@),
                index_to_state: None,
            }),
            res matches Err(e) ==> if create_args_ok(chars_read@, chars_write@, directions@) {
                e matches TuringError::IllegalActionError { cause } && cause@ == create_refusal_text(
                    chars_read@,
                    chars_write@,
                    directions@,
                )
            } else {
                e is TransitionArgsError
            },
    {
        if directions.len() == 0 {
            return Err(
                TuringError::TransitionArgsError {
                    reason: String::from_str("At least one direction must be given"),
                },
            );
        }
        let move_read = directions[0];
        if chars_write.len() != directions.len() - 1 {
            return Err(
                TuringError::TransitionArgsError {
                    reason: String::from_str(
                        "The number of character to write must be equal to the number of directions minus one (for the reading tape)",
                    ),
                },
            );
        }
        if chars_read.len() != directions.len() {
            return Err(
                TuringError::TransitionArgsError {
                    reason: String::from_str(
                        "The number of characters to read must be equal to the number of given directions",
                    ),
                },
            );
        }
        let mut chars_write_dir: Vec<(char, TuringDirection)> = Vec::new();
        let mut i: usize = 1;
        while i < directions.len()
            invariant
                1 <= i <= directions.len(),
                chars_write@.len() + 1 == directions@.len(),
                chars_write_dir@ =~= zip_writes(chars_write@, directions@).take(i - 1),
            decreases directions.len() - i,
        {
            chars_write_dir.push((chars_write[i - 1], directions[i]));
            i = i + 1;
        }
        assert(chars_write_dir@ =~= zip_writes(chars_write@, directions@));
        // Only applies to the reading tape
        if chars_read[0] == END_CHAR && move_read == TuringDirection::Right {
            return Err(TuringError::IllegalActionError { cause: couple_message(chars_read[0], move_read) });
        }
        // Then the writing tapes

        let mut i: usize = 1;
        while i < chars_read.len()
            invariant
                1 <= i <= chars_read@.len(),
                chars_read@.len() == directions@.len(),
                chars_write@.len() + 1 == directions@.len(),
                !(chars_read@[0] == END_CHAR && directions@[0] == TuringDirection::Right),
                forall|j: int| 1 <= j < i ==> !#[trigger] write_rule_refused(chars_read@[j], chars_write@[j - 1], directions@[j]),
            decreases chars_read.len() - i,
        {
            let char_read = chars_read[i];
            let char_replacement = chars_write[i - 1];
            let char_dir = directions[i];
            proof {
                if write_rule_refused(chars_read@[i as int], chars_write@[i - 1], directions@[i as int]) {
                    let k = first_refused_rule(chars_read@, chars_write@, directions@);
                    assert(write_rule_refused(chars_read@[i as int], chars_write@[i - 1], directions@[i as int]) && forall|j: int|
                        1 <= j < i ==> !#[trigger] write_rule_refused(chars_read@[j], chars_write@[j - 1], directions@[j]));
                    if k < i {
                        assert(!write_rule_refused(chars_read@[k], chars_write@[k - 1], directions@[k]));
                    }
                    if k > i {
                        assert(!write_rule_refused(chars_read@[i as int], chars_write@[i - 1], directions@[i as int]));
                    }
                    assert(k == i);
                }
            }
            if char_read == INIT_CHAR && char_dir == TuringDirection::Left {
                assert(write_rule_refused(chars_read@[i as int], chars_write@[i - 1], directions@[i as int]));
                return Err(TuringError::IllegalActionError { cause: couple_message(char_read, char_dir) });
            }
            if char_read == INIT_CHAR && char_read != char_replacement {
                assert(write_rule_refused(chars_read@[i as int], chars_write@[i - 1], directions@[i as int]));
                return Err(
                    TuringError::IllegalActionError {
                        cause: replace_message(char_read, char_replacement, i - 1),
                    },
                );
            }
            i = i + 1;
        }
        Ok(Self { chars_read, move_read, chars_write: chars_write_dir, index_to_state: None })
    }

    /// Returns the number of tapes that are going to be affected by this transition.
    pub fn get_number_of_affected_tapes(&self) -> (n: usize)
        requires
            self.chars_write@.len() < usize::MAX,
        ensures
            n == self.chars_write@.len() + 1,
    {
        self.chars_write.len() + 1
    }
}

fn chars_equal(a: &Vec<char>, b: &Vec<char>) -> (r: bool)
    ensures
        r == (a@ == b@),
{
    if a.len() != b.len() {
        return false;
    }
    let mut i: usize = 0;
    while i < a.len()
        invariant
            a@.len() == b@.len(),
            i <= a@.len(),
            forall|j: int| 0 <= j < i ==> a@[j] == b@[j],
        decreases a.len() - i,
    {
        if a[i] != b[i] {
            return false;
        }
        i = i + 1;
    }
    assert(a@ =~= b@);
    true
}

fn writes_equal(a: &Vec<(char, TuringDirection)>, b: &Vec<(char, TuringDirection)>) -> (r: bool)
    ensures
        r == (a@ == b@),
{
    if a.len() != b.len() {
        return false;
    }
    let mut i: usize = 0;
    while i < a.len()
        invariant
            a@.len() == b@.len(),
            i <= a@.len(),
            forall|j: int| 0 <= j < i ==> a@[j] == b@[j],
        decreases a.len() - i,
    {
        if a[i].0 != b[i].0 || a[i].1 != b[i].1 {
            return false;
        }
        i = i + 1;
    }
    assert(a@ =~= b@);
    true
}

fn copy_writes(a: &Vec<(char, TuringDirection)>) -> (r: Vec<(char, TuringDirection)>)
    ensures
        r@ == a@,
{
    let mut r: Vec<(char, TuringDirection)> = Vec::new();
    let mut i: usize = 0;
    while i < a.len()
        invariant
            i <= a@.len(),
            r@ =~= a@.take(i as int),
        decreases a.len() - i,
    {
        r.push((a[i].0, a[i].1));
        i = i + 1;
    }
    assert(r@ =~= a@);
    r
}

impl Clone for TuringTransition {
    fn clone(&self) -> (res: Self)
        ensures
            res@ == self@,
    {
        Self {
            chars_read: copy_chars(&self.chars_read),
            move_read: self.move_read,
            chars_write: copy_writes(&self.chars_write),
            index_to_state: self.index_to_state,
        }
    }
}

impl PartialEq for TuringTransition {
    /// Checks if two [TuringTransition] are equivalent. Note that the `index_to_state` field is not part of this comparison.
    fn eq(&self, other: &Self) -> (r: bool) {
        chars_equal(&self.chars_read, &other.chars_read) && self.move_read == other.move_read
            && writes_equal(&self.chars_write, &other.chars_write)
    }
}

impl PartialEqSpecImpl for TuringTransition {
    open spec fn obeys_eq_spec() -> bool {
        true
    }

    open spec fn eq_spec(&self, other: &Self) -> bool {
        &&& self.chars_read@ == other.chars_read@
        &&& self.move_read == other.move_read
        &&& self.chars_write@ == other.chars_write@
    }
}


/// What a state is, as mathematical values.
#[verifier::ext_equal]
pub struct StateView {
    pub state_type: TuringStateType,
    pub transitions: Seq<TransitionView>,
    pub name: Seq<char>,
}

/// The views of a sequence of transitions.
pub open spec fn transition_views(ts: Seq<TuringTransition>) -> Seq<TransitionView> {
    ts.map_values(|t: TuringTransition| t@)
}

/// The views of a sequence of references to transitions.
pub open spec fn transition_ref_views(ts: Seq<&TuringTransition>) -> Seq<TransitionView> {
    ts.map_values(|t: &TuringTransition| t@)
}

/// The transitions of `ts` that read exactly `chars_read`, in order.
pub open spec fn reading(ts: Seq<TransitionView>, chars_read: Seq<char>) -> Seq<TransitionView> {
    ts.filter(|t: TransitionView| t.chars_read == chars_read)
}

/// The transitions of `ts` that lead to the state of index `to`, in order.
pub open spec fn leading_to(ts: Seq<TransitionView>, to: usize) -> Seq<TransitionView> {
    ts.filter(|t: TransitionView| t.index_to_state == Some(to))
}

/// The indexes, in increasing order, of the first `n` transitions of `ts` that read exactly `chars_read`.
pub open spec fn indexes_reading(ts: Seq<TransitionView>, chars_read: Seq<char>, n: nat) -> Seq<usize>
    decreases n,
{
    if n == 0 {
        Seq::empty()
    } else {
        let before = indexes_reading(ts, chars_read, (n - 1) as nat);
        if ts[n - 1].chars_read == chars_read {
            before.push((n - 1) as usize)
        } else {
            before
        }
    }
}

/// Lemma: the indexes of [indexes_reading] are those of the transitions
/// among the first `n` that read `chars_read`, in strictly increasing order.
pub proof fn lemma_indexes_reading(ts: Seq<TransitionView>, chars_read: Seq<char>, n: nat)
    requires
        n <= ts.len(),
        ts.len() <= usize::MAX,
    ensures
        forall|j: int| 0 <= j < indexes_reading(ts, chars_read, n).len() ==> {
            let i = #[trigger] indexes_reading(ts, chars_read, n)[j];
            &&& i < n
            &&& ts[i as int].chars_read == chars_read
        },
        forall|j1: int, j2: int| 0 <= j1 < j2 < indexes_reading(ts, chars_read, n).len() ==>
            #[trigger] indexes_reading(ts, chars_read, n)[j1] < #[trigger] indexes_reading(ts, chars_read, n)[j2],
        forall|i: int| 0 <= i < n && ts[i].chars_read == chars_read ==> #[trigger] indexes_reading(ts, chars_read, n).contains(i as usize),
    decreases n,
{
    if n > 0 {
        lemma_indexes_reading(ts, chars_read, (n - 1) as nat);
        let before = indexes_reading(ts, chars_read, (n - 1) as nat);
        if ts[n - 1].chars_read == chars_read {
            let now = before.push((n - 1) as usize);
            assert(indexes_reading(ts, chars_read, n) == now);
            assert forall|i: int| 0 <= i < n && ts[i].chars_read == chars_read implies #[trigger] now.contains(i as usize) by {
                if i == n - 1 {
                    assert(now[now.len() - 1] == i as usize);
                } else {
                    assert(before.contains(i as usize));
                    let j = choose|j: int| 0 <= j < before.len() && before[j] == i as usize;
                    assert(now[j] == i as usize);
                }
            }
        } else {
            assert forall|i: int| 0 <= i < n && ts[i].chars_read == chars_read implies #[trigger] before.contains(i as usize) by {
                assert(i < n - 1);
            }
        }
    }
}

/// A transition redirected from the state `from` to the state `to`.
pub open spec fn redirected(t: TransitionView, from: usize, to: usize) -> TransitionView {
    if t.index_to_state == Some(from) {
        TransitionView { index_to_state: Some(to), ..t }
    } else {
        t
    }
}

/// Filtering a prefix one element longer.
pub proof fn lemma_filter_take_step<A>(s: Seq<A>, pred: spec_fn(A) -> bool, i: int)
    requires
        0 <= i < s.len(),
    ensures
        s.take(i + 1).filter(pred) == if pred(s[i]) {
            s.take(i).filter(pred).push(s[i])
        } else {
            s.take(i).filter(pred)
        },
{
    reveal_with_fuel(Seq::<_>::filter, 1);
    assert(s.take(i + 1).drop_last() =~= s.take(i));
}

/// The transitions of `ts` at the indexes `idx`, in order.
pub open spec fn at_indexes(ts: Seq<TransitionView>, idx: Seq<usize>) -> Seq<TransitionView> {
    idx.map_values(|i: usize| ts[i as int])
}

/// The transitions at the indexes that [indexes_reading] gives for the first
/// `n` transitions are those of the first `n` that read `chars_read`, in order.
proof fn lemma_indexes_give_reading(ts: Seq<TransitionView>, chars_read: Seq<char>, n: nat)
    requires
        n <= ts.len(),
        ts.len() <= usize::MAX,
    ensures
        at_indexes(ts, indexes_reading(ts, chars_read, n)) == ts.take(n as int).filter(
            |t: TransitionView| t.chars_read == chars_read,
        ),
    decreases n,
{
    let pred = |t: TransitionView| t.chars_read == chars_read;
    if n == 0 {
        assert(ts.take(0).filter(pred) =~= Seq::<TransitionView>::empty()) by {
            reveal_with_fuel(Seq::<_>::filter, 1);
        }
        assert(at_indexes(ts, indexes_reading(ts, chars_read, n)) =~= Seq::<TransitionView>::empty());
    } else {
        lemma_indexes_give_reading(ts, chars_read, (n - 1) as nat);
        lemma_filter_take_step(ts, pred, n - 1);
        let before = indexes_reading(ts, chars_read, (n - 1) as nat);
        if ts[n - 1].chars_read == chars_read {
            assert(at_indexes(ts, before.push((n - 1) as usize)) =~= at_indexes(ts, before).push(ts[n - 1]));
        }
    }
}

/// Law: the indexes that [TuringState::get_valid_transitions_indexes] gives
/// are those of the transitions that [TuringState::get_valid_transitions]
/// gives, in the same order.
pub proof fn lemma_valid_indexes_match(ts: Seq<TransitionView>, chars_read: Seq<char>)
    requires
        ts.len() <= usize::MAX,
    ensures
        at_indexes(ts, indexes_reading(ts, chars_read, ts.len())) == reading(ts, chars_read),
{
    lemma_indexes_give_reading(ts, chars_read, ts.len());
    assert(ts.take(ts.len() as int) =~= ts);
}

/// Represents a state of a turing machine
#[derive(Debug)]
pub struct TuringState {
    /// Represents if the state is a final state or not
    pub state_type: TuringStateType,
    /// The vector containing all the transitions to the neighboring states
    pub transitions: Vec<TuringTransition>,
    /// The name of this state
    pub name: String,
}

impl View for TuringState {
    type V = StateView;

    open spec fn view(&self) -> StateView {
        StateView {
            state_type: self.state_type,
            transitions: transition_views(self.transitions@),
            name: self.name@,
        }
    }
}

impl TuringState {
    /// Creates a new [TuringState]
    pub fn new(state_type: TuringStateType, name: &String) -> (s: Self)
        ensures
            s@ == (StateView { state_type, transitions: Seq::empty(), name: name@ }),
    {
        let s = Self { state_type, transitions: Vec::new(), name: name.clone() };
        assert(s@.transitions =~= Seq::<TransitionView>::empty());
        s
    }

    /// Changes the name of a [TuringState]
    pub fn rename(&mut self, name: &str)
        ensures
            final(self)@ == (StateView { name: name@, ..old(self)@ }),
    {
        self.name = String::from_str(name);
    }

    /// Adds a new transition to the state.
    ///
    /// All the transitions of a state must affect the same number of tapes:
    /// a transition that affects another number of tapes than the ones already
    /// present is refused with [TuringError::IncompatibleTransitionError].
    pub fn add_transition(&mut self, transition: TuringTransition) -> (r: Result<(), TuringError>)
        requires
            transition.chars_write@.len() < usize::MAX,
            old(self).transitions@.len() > 0 ==> old(self).transitions@[0].chars_write@.len() < usize::MAX,
        ensures
            r is Err <==> old(self).transitions@.len() > 0 && old(self).transitions@[0].chars_write@.len()
                != transition.chars_write@.len(),
            r matches Err(e) ==> final(self)@ == old(self)@ && e == (TuringError::IncompatibleTransitionError {
                expected: (old(self).transitions@[0].chars_write@.len() + 1) as usize,
                received: (transition.chars_write@.len() + 1) as usize,
            }),
            r is Ok ==> final(self)@ == (StateView {
                transitions: old(self)@.transitions.push(transition@),
                ..old(self)@
            }),
    {
        // Check that the number of tapes from a transition is the same for all added transitions
        if self.transitions.len() > 0 {
            let expected = self.transitions[0].get_number_of_affected_tapes();
            let received = transition.get_number_of_affected_tapes();
            if expected != received {
                return Err(TuringError::IncompatibleTransitionError { expected, received });
            }
        }
        self.transitions.push(transition);
        assert(self@.transitions =~= old(self)@.transitions.push(transition@));
        Ok(())
    }

    /// Removes the transition ***at*** the given index and returns it if it was correctly returned
    pub fn remove_transition_with_index(&mut self, transition_index: usize) -> (r: Result<
        TuringTransition,
        TuringError,
    >)
        ensures
            r is Err <==> old(self).transitions@.len() <= transition_index,
            r matches Err(e) ==> final(self)@ == old(self)@ && e == (TuringError::OutOfRangeTransitionError {
                accessed_index: transition_index,
                states_len: old(self).transitions@.len() as usize,
            }),
            r matches Ok(t) ==> t@ == old(self)@.transitions[transition_index as int] && final(self)@
                == (StateView {
                transitions: old(self)@.transitions.remove(transition_index as int),
                ..old(self)@
            }),
    {
        if self.transitions.len() <= transition_index {
            return Err(
                TuringError::OutOfRangeTransitionError {
                    accessed_index: transition_index,
                    states_len: self.transitions.len(),
                },
            );
        }
        let t = self.transitions.remove(transition_index);
        assert(self@.transitions =~= old(self)@.transitions.remove(transition_index as int));
        Ok(t)
    }

    /// Removes all the transitions matching the given parameter. Beware that the `index_to_state` field will also be part of the evaluation.
    ///
    /// If the transition wasn't part of this state, nothing will happen.
    pub fn remove_transition(&mut self, transition: &TuringTransition)
        ensures
            final(self)@ == (StateView {
                transitions: old(self)@.transitions.filter(|t: TransitionView| t != transition@),
                ..old(self)@
            }),
    {
        let ghost pred = |t: TransitionView| t != transition@;
        let ghost olds = old(self)@.transitions;
        let mut res: Vec<TuringTransition> = Vec::new();
        let mut i: usize = 0;
        while i < self.transitions.len()
            invariant
                self@ == old(self)@,
                olds == self@.transitions,
                i <= olds.len(),
                transition_views(res@) == olds.take(i as int).filter(pred),
                forall|t: TransitionView| #[trigger] pred(t) == (t != transition@),
            decreases self.transitions.len() - i,
        {
            let t = &self.transitions[i];
            proof {
                lemma_filter_take_step(olds, pred, i as int);
            }
            let same = t == transition && t.index_to_state == transition.index_to_state;
            if !same {
                let c = t.clone();
                res.push(c);
                assert(transition_views(res@) =~= olds.take(i as int).filter(pred).push(olds[i as int]));
            } else {
                assert(olds[i as int] == transition@);
            }
            i = i + 1;
        }
        assert(olds.take(olds.len() as int) =~= olds);
        self.transitions = res;
    }

    /// Removes all the transitions from this state ***that are pointing*** at the given index
    pub fn remove_transitions(&mut self, to_index: usize)
        ensures
            final(self)@ == (StateView {
                transitions: old(self)@.transitions.filter(
                    |t: TransitionView| t.index_to_state != Some(to_index),
                ),
                ..old(self)@
            }),
    {
        let ghost pred = |t: TransitionView| t.index_to_state != Some(to_index);
        let ghost olds = old(self)@.transitions;
        let mut res: Vec<TuringTransition> = Vec::new();
        let mut i: usize = 0;
        while i < self.transitions.len()
            invariant
                self@ == old(self)@,
                olds == self@.transitions,
                i <= olds.len(),
                transition_views(res@) == olds.take(i as int).filter(pred),
                forall|t: TransitionView| #[trigger] pred(t) == (t.index_to_state != Some(to_index)),
            decreases self.transitions.len() - i,
        {
            let t = &self.transitions[i];
            proof {
                lemma_filter_take_step(olds, pred, i as int);
            }
            let pointing = match t.index_to_state {
                Some(index_to_state) => index_to_state == to_index,
                None => false,
            };
            if !pointing {
                let c = t.clone();
                res.push(c);
                assert(transition_views(res@) =~= olds.take(i as int).filter(pred).push(olds[i as int]));
            }
            i = i + 1;
        }
        assert(olds.take(olds.len() as int) =~= olds);
        self.transitions = res;
    }

    /// Updates the transition index to a new one
    pub fn update_transitions(&mut self, to_index_curr: usize, to_index_new: usize)
        ensures
            final(self)@ == (StateView {
                transitions: old(self)@.transitions.map_values(
                    |t: TransitionView| redirected(t, to_index_curr, to_index_new),
                ),
                ..old(self)@
            }),
    {
        let ghost olds = old(self).transitions@;
        let mut i: usize = 0;
        while i < self.transitions.len()
            invariant
                self.state_type == old(self).state_type,
                self.name == old(self).name,
                olds == old(self).transitions@,
                self.transitions@.len() == olds.len(),
                i <= olds.len(),
                forall|j: int| 0 <= j < i ==> #[trigger] self.transitions@[j]@ == redirected(olds[j]@, to_index_curr, to_index_new),
                forall|j: int| i <= j < olds.len() ==> #[trigger] self.transitions@[j]@ == olds[j]@,
            decreases self.transitions.len() - i,
        {
            let pointing = match self.transitions[i].index_to_state {
                Some(index_to_state) => index_to_state == to_index_curr,
                None => false,
            };
            if pointing {
                let mut t = self.transitions[i].clone();
                t.index_to_state = Some(to_index_new);
                self.transitions.set(i, t);
            }
            i = i + 1;
        }
        assert(self@.transitions =~= old(self)@.transitions.map_values(
            |t: TransitionView| redirected(t, to_index_curr, to_index_new),
        ));
    }

    /// Checks for all transitions that can be taken when reading a char in this state
    pub fn get_valid_transitions(&self, chars_read: &Vec<char>) -> (r: Vec<&TuringTransition>)
        ensures
            transition_ref_views(r@) == reading(self@.transitions, chars_read@),
    {
        let ghost pred = |t: TransitionView| t.chars_read == chars_read@;
        let ghost ts = self@.transitions;
        let mut res: Vec<&TuringTransition> = Vec::new();
        let mut i: usize = 0;
        while i < self.transitions.len()
            invariant
                ts == self@.transitions,
                i <= ts.len(),
                transition_ref_views(res@) == ts.take(i as int).filter(pred),
                forall|t: TransitionView| #[trigger] pred(t) == (t.chars_read == chars_read@),
            decreases self.transitions.len() - i,
        {
            let t = &self.transitions[i];
            proof {
                lemma_filter_take_step(ts, pred, i as int);
            }
            if chars_equal(chars_read, &t.chars_read) {
                res.push(t);
                assert(transition_ref_views(res@) =~= ts.take(i as int).filter(pred).push(ts[i as int]));
            }
            i = i + 1;
        }
        assert(ts.take(ts.len() as int) =~= ts);
        res
    }

    /// Checks for all the indexes of the transitions that can be taken when reading a char in this state
    pub fn get_valid_transitions_indexes(&self, chars_read: &Vec<char>) -> (r: Vec<usize>)
        ensures
            r@ == indexes_reading(self@.transitions, chars_read@, self@.transitions.len()),
    {
        let ghost ts = self@.transitions;
        let mut res: Vec<usize> = Vec::new();
        let mut i: usize = 0;
        while i < self.transitions.len()
            invariant
                ts == self@.transitions,
                i <= ts.len(),
                res@ == indexes_reading(ts, chars_read@, i as nat),
            decreases self.transitions.len() - i,
        {
            if chars_equal(chars_read, &self.transitions[i].chars_read) {
                res.push(i);
            }
            i = i + 1;
        }
        res
    }

    /// Gets all the transitions that can be taken to reach the given index.
    pub fn get_transitions_to(&self, to_index: usize) -> (r: Vec<&TuringTransition>)
        ensures
            transition_ref_views(r@) == leading_to(self@.transitions, to_index),
    {
        let ghost pred = |t: TransitionView| t.index_to_state == Some(to_index);
        let ghost ts = self@.transitions;
        let mut res: Vec<&TuringTransition> = Vec::new();
        let mut i: usize = 0;
        while i < self.transitions.len()
            invariant
                ts == self@.transitions,
                i <= ts.len(),
                transition_ref_views(res@) == ts.take(i as int).filter(pred),
                forall|t: TransitionView| #[trigger] pred(t) == (t.index_to_state == Some(to_index)),
            decreases self.transitions.len() - i,
        {
            let t = &self.transitions[i];
            proof {
                lemma_filter_take_step(ts, pred, i as int);
            }
            let pointing = match t.index_to_state {
                Some(index_to_state) => index_to_state == to_index,
                None => false,
            };
            if pointing {
                res.push(t);
                assert(transition_ref_views(res@) =~= ts.take(i as int).filter(pred).push(ts[i as int]));
            }
            i = i + 1;
        }
        assert(ts.take(ts.len() as int) =~= ts);
        res
    }
}

fn copy_transitions(ts: &Vec<TuringTransition>) -> (r: Vec<TuringTransition>)
    ensures
        transition_views(r@) == transition_views(ts@),
{
    let mut r: Vec<TuringTransition> = Vec::new();
    let mut i: usize = 0;
    while i < ts.len()
        invariant
            i <= ts@.len(),
            r@.len() == i,
            forall|j: int| 0 <= j < i ==> #[trigger] r@[j]@ == ts@[j]@,
        decreases ts.len() - i,
    {
        r.push(ts[i].clone());
        i = i + 1;
    }
    assert(transition_views(r@) =~= transition_views(ts@));
    r
}

impl Clone for TuringState {
    fn clone(&self) -> (res: Self)
        ensures
            res@ == self@,
    {
        Self {
            state_type: self.state_type,
            transitions: copy_transitions(&self.transitions),
            name: self.name.clone(),
        }
    }
}

/// The name of a type of state.
pub open spec fn state_type_text(t: TuringStateType) -> Seq<char> {
    match t {
        TuringStateType::Normal => "Normal"@,
        TuringStateType::Accepting => "Accepting"@,
        TuringStateType::Rejecting => "Rejecting"@,
    }
}

impl TuringStateType {
    /// The name of this type of state.
    pub fn to_string(&self) -> (s: String)
        ensures
            s@ == state_type_text(*self),
    {
        match self {
            TuringStateType::Normal => String::from_str("Normal"),
            TuringStateType::Accepting => String::from_str("Accepting"),
            TuringStateType::Rejecting => String::from_str("Rejecting"),
        }
    }
}

impl TuringDirection {
    /// The letter of this direction, as a string.
    pub fn to_string(&self) -> (s: String)
        ensures
            s@ == seq![dir_letter(*self)],
    {
        let mut s = String::new();
        string_push(&mut s, self.get_letter());
        s
    }
}

/// Characters separated by `", "`.
pub open spec fn chars_text(cs: Seq<char>) -> Seq<char>
    decreases cs.len(),
{
    if cs.len() <= 1 {
        cs
    } else {
        seq![cs[0], ',', ' '] + chars_text(cs.drop_first())
    }
}

/// The moves of a transition from the direction `d` of the reading tape:
/// `D_0, b_1, D_1, ..., b_{n-1}, D_{n-1}`.
pub open spec fn moves_text(d: TuringDirection, ws: Seq<(char, TuringDirection)>) -> Seq<char>
    decreases ws.len(),
{
    if ws.len() == 0 {
        seq![dir_letter(d)]
    } else {
        seq![dir_letter(d), ',', ' ', ws[0].0, ',', ' '] + moves_text(ws[0].1, ws.drop_first())
    }
}

/// The text of a transition: `a_0, ..., a_{n-1} -> D_0, b_1, D_1, ..., b_{n-1}, D_{n-1}`.
pub open spec fn transition_text(t: TransitionView) -> Seq<char> {
    chars_text(t.chars_read) + seq![' ', '-', '>', ' '] + moves_text(t.move_read, t.chars_write)
}

/// Adding a character at the end of a non-empty list adds `", c"` to its text.
pub proof fn lemma_chars_text_push(cs: Seq<char>, c: char)
    requires
        cs.len() >= 1,
    ensures
        chars_text(cs.push(c)) == chars_text(cs) + seq![',', ' ', c],
    decreases cs.len(),
{
    if cs.len() == 1 {
        assert(cs.push(c).drop_first() =~= seq![c]);
        assert(chars_text(seq![c]) == seq![c]);
        assert(chars_text(cs) == cs);
        assert(cs =~= seq![cs[0]]);
        assert(chars_text(cs.push(c)) =~= chars_text(cs) + seq![',', ' ', c]);
    } else {
        lemma_chars_text_push(cs.drop_first(), c);
        assert(cs.push(c).drop_first() =~= cs.drop_first().push(c));
        assert(chars_text(cs.push(c)) =~= chars_text(cs) + seq![',', ' ', c]);
    }
}

/// Adding a write at the end adds `", b, D"` to the text of the moves.
pub proof fn lemma_moves_text_push(d: TuringDirection, ws: Seq<(char, TuringDirection)>, w: (char, TuringDirection))
    ensures
        moves_text(d, ws.push(w)) == moves_text(d, ws) + seq![',', ' ', w.0, ',', ' ', dir_letter(w.1)],
    decreases ws.len(),
{
    if ws.len() == 0 {
        assert(ws.push(w).drop_first() =~= Seq::<(char, TuringDirection)>::empty());
        assert(moves_text(w.1, Seq::<(char, TuringDirection)>::empty()) == seq![dir_letter(w.1)]);
        assert(moves_text(d, ws.push(w)) =~= moves_text(d, ws) + seq![',', ' ', w.0, ',', ' ', dir_letter(w.1)]);
    } else {
        lemma_moves_text_push(ws[0].1, ws.drop_first(), w);
        assert(ws.push(w).drop_first() =~= ws.drop_first().push(w));
        assert(moves_text(d, ws.push(w)) =~= moves_text(d, ws) + seq![',', ' ', w.0, ',', ' ', dir_letter(w.1)]);
    }
}

impl TuringTransition {
    /// The text of this transition, as the parser reads it:
    /// `a_0, ..., a_{n-1} -> D_0, b_1, D_1, ..., b_{n-1}, D_{n-1}`.
    pub fn to_string(&self) -> (s: String)
        requires
            self.chars_read@.len() >= 1,
        ensures
            s@ == transition_text(self@),
    {
        let cs = &self.chars_read;
        let mut s = String::new();
        string_push(&mut s, cs[0]);
        assert(cs@.take(1) =~= seq![cs@[0]]);
        let mut i: usize = 1;
        while i < cs.len()
            invariant
                1 <= i <= cs@.len(),
                s@ == chars_text(cs@.take(i as int)),
            decreases cs.len() - i,
        {
            assert(cs@.take(i + 1) =~= cs@.take(i as int).push(cs@[i as int]));
            proof {
                lemma_chars_text_push(cs@.take(i as int), cs@[i as int]);
            }
            push_str(&mut s, ", ");
            string_push(&mut s, cs[i]);
            proof {
                reveal_strlit(", ");
            }
            assert(s@ =~= chars_text(cs@.take(i + 1)));
            i = i + 1;
        }
        assert(cs@.take(cs@.len() as int) =~= cs@);
        push_str(&mut s, " -> ");
        string_push(&mut s, self.move_read.get_letter());
        proof {
            reveal_strlit(" -> ");
        }
        let ws = &self.chars_write;
        let ghost head = chars_text(cs@) + seq![' ', '-', '>', ' '];
        assert(ws@.take(0) =~= Seq::<(char, TuringDirection)>::empty());
        assert(s@ =~= head + moves_text(self.move_read, ws@.take(0)));
        let mut j: usize = 0;
        while j < ws.len()
            invariant
                j <= ws@.len(),
                s@ == head + moves_text(self.move_read, ws@.take(j as int)),
            decreases ws.len() - j,
        {
            assert(ws@.take(j + 1) =~= ws@.take(j as int).push(ws@[j as int]));
            proof {
                lemma_moves_text_push(self.move_read, ws@.take(j as int), ws@[j as int]);
            }
            push_str(&mut s, ", ");
            string_push(&mut s, ws[j].0);
            push_str(&mut s, ", ");
            string_push(&mut s, ws[j].1.get_letter());
            proof {
                reveal_strlit(", ");
            }
            assert(s@ =~= head + moves_text(self.move_read, ws@.take(j + 1)));
            j = j + 1;
        }
        assert(ws@.take(ws@.len() as int) =~= ws@);
        s
    }
}

/// The text of a state: `(name: type)`.
pub open spec fn state_text(s: StateView) -> Seq<char> {
    seq!['('] + s.name + seq![':', ' '] + state_type_text(s.state_type) + seq![')']
}

impl TuringState {
    /// The text of this state: `(name: type)`.
    pub fn to_string(&self) -> (s: String)
        ensures
            s@ == state_text(self@),
    {
        let mut s = String::new();
        string_push(&mut s, '(');
        s.append(self.name.as_str());
        push_str(&mut s, ": ");
        let t = self.state_type.to_string();
        s.append(t.as_str());
        string_push(&mut s, ')');
        proof {
            reveal_strlit(": ");
        }
        assert(s@ =~= state_text(self@));
        s
    }
}

} // verus!
