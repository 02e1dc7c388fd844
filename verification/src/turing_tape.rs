//! The tapes of a Turing machine.
use vstd::prelude::*;

use crate::text::{chars_of, contains_char, copy_chars, push_str, string_push};
use crate::turing_errors::TuringError;
use crate::turing_state::{dir_value, TuringDirection};

verus! {

/// Represents the initial character stored at the start of every tape
pub const INIT_CHAR: char = 'ç';

/// Represents the blank character in a tape
pub const BLANK_CHAR: char = '_';

/// Represents the character placed after the content in a [TuringReadingTape]
pub const END_CHAR: char = '$';

/// What a tape holds, as mathematical values: its characters and the position of its head.
#[verifier::ext_equal]
pub struct TapeView {
    pub contents: Seq<char>,
    pub head: int,
}

/// The character under the head of a tape.
pub open spec fn head_char(t: TapeView) -> char {
    t.contents[t.head]
}

/// A trait used to implement Turing tapes
pub trait TuringTape: Sized {
    /// The characters of the tape and the position of its head.
    spec fn tape_view(&self) -> TapeView;

    /// The invariant that every tape of this kind keeps.
    spec fn wf(&self) -> bool;

    /// Creates a new [TuringTape]
    fn new() -> (t: Self)
        ensures
            t.wf(),
    ;

    /// Tries to apply the transition to the given tape.
    ///
    /// The transition is applied if the character being pointed by the head of this tape is the same as the given `if_read` character.
    ///
    /// ## Returns
    /// A [bool] if everything went correctly :
    /// * `Ok(true)` if the transition went smoothly.
    /// * `Ok(false)` if the transition could not be taken.
    ///
    /// A [TuringError] if an error happened, like for example, it was not possible to move at the given direction. Or if a special character (like [INIT_CHAR], [END_CHAR]) is used to replace a *non* special one.
    fn try_apply_transition(&mut self, if_read: char, replace_by: char, move_to: &TuringDirection) -> (r:
        Result<bool, TuringError>)
        requires
            old(self).wf(),
        ensures
            final(self).wf(),
            r matches Ok(b) ==> (b <==> head_char(old(self).tape_view()) == if_read),
    ;

    /// Returns the current character being read by the tape
    fn read_curr_char(&self) -> (c: char)
        requires
            self.wf(),
        ensures
            c == head_char(self.tape_view()),
    ;

    /// Returns the vector of char as stored by the tape
    fn get_contents(&self) -> (v: &Vec<char>)
        ensures
            v@ == self.tape_view().contents,
    ;

    /// Returns the index of the char being pointed by the tape
    fn get_pointer(&self) -> (p: usize)
        ensures
            p == self.tape_view().head,
    ;
}

/// Represents a tape made to write and read characters.
#[derive(Debug)]
pub struct TuringWritingTape {
    chars_vec: Vec<char>,
    pointer: usize,
}

/// Represents a turing made to store and read a word but cannot modify it.
#[derive(Debug)]
pub struct TuringReadingTape {
    chars_vec: Vec<char>,
    pointer: usize,
}

impl View for TuringWritingTape {
    type V = TapeView;

    closed spec fn view(&self) -> TapeView {
        TapeView { contents: self.chars_vec@, head: self.pointer as int }
    }
}

impl View for TuringReadingTape {
    type V = TapeView;

    closed spec fn view(&self) -> TapeView {
        TapeView { contents: self.chars_vec@, head: self.pointer as int }
    }
}

/// A writing tape starts with the initial character, holds it nowhere else,
/// and its head points inside it.
pub open spec fn writing_tape_wf(t: TapeView) -> bool {
    &&& 0 <= t.head < t.contents.len()
    &&& t.contents[0] == INIT_CHAR
    &&& forall|i: int| 0 < i < t.contents.len() ==> t.contents[i] != INIT_CHAR
}

/// A character that a word fed to a reading tape may not hold.
pub open spec fn is_forbidden_in_word(c: char) -> bool {
    c == INIT_CHAR || c == BLANK_CHAR || c == END_CHAR
}

/// A word that can be fed to a reading tape: it holds no special character.
pub open spec fn word_ok(w: Seq<char>) -> bool {
    forall|i: int| 0 <= i < w.len() ==> !is_forbidden_in_word(#[trigger] w[i])
}

/// The contents of a reading tape fed with the word `w`.
pub open spec fn reading_contents(w: Seq<char>) -> Seq<char> {
    seq![INIT_CHAR] + w + seq![END_CHAR]
}

/// A reading tape holds the initial character, a word without special
/// characters, then the end character, and its head points inside it.
pub open spec fn reading_tape_wf(t: TapeView) -> bool {
    &&& 0 <= t.head < t.contents.len()
    &&& t.contents.len() >= 2
    &&& t.contents == reading_contents(t.contents.subrange(1, t.contents.len() - 1))
    &&& word_ok(t.contents.subrange(1, t.contents.len() - 1))
}

/// A replacement of `og_char` by `new_char` on a writing tape that is allowed:
/// the same character, or a character that is not special written over a
/// character that is not the initial one.
pub open spec fn replacement_ok(og_char: char, new_char: char) -> bool {
    og_char == new_char || (new_char != INIT_CHAR && new_char != END_CHAR && og_char != INIT_CHAR)
}

/// What applying `if_read -> replace_by, move_to` to a writing tape holding
/// `t` gives, when the head reads `if_read`, the move stays on the tape and
/// the replacement is allowed: the tape grows by a blank when the head
/// leaves it on the right.
pub open spec fn write_step(t: TapeView, replace_by: char, move_to: TuringDirection) -> TapeView {
    TapeView {
        contents: grown_contents(t, move_to).update(t.head, replace_by),
        head: t.head + dir_value(move_to),
    }
}

/// The contents of a writing tape after its head moves by `move_to`: a blank
/// is added when the head leaves it on the right.
pub open spec fn grown_contents(t: TapeView, move_to: TuringDirection) -> Seq<char> {
    if t.head + dir_value(move_to) >= t.contents.len() {
        t.contents.push(BLANK_CHAR)
    } else {
        t.contents
    }
}

fn check_replacement_validity(og_char: char, new_char: char) -> (r: Result<(), TuringError>)
    ensures
        r is Ok <==> replacement_ok(og_char, new_char),
        r matches Err(e) ==> e is IllegalActionError,
{
    if og_char == new_char {
        return Ok(());
    }
    if new_char == INIT_CHAR || new_char == END_CHAR {
        let mut cause = String::new();
        push_str(&mut cause, "Tried to replace a char (`");
        string_push(&mut cause, og_char);
        push_str(&mut cause, "`) with a special char (`");
        string_push(&mut cause, new_char);
        push_str(&mut cause, "`)");
        return Err(TuringError::IllegalActionError { cause });
    }
    if og_char == INIT_CHAR || new_char == END_CHAR {
        let mut cause = String::new();
        push_str(&mut cause, "Tried to replace a special char (`");
        string_push(&mut cause, og_char);
        push_str(&mut cause, "`) with another char (`");
        string_push(&mut cause, new_char);
        push_str(&mut cause, "`)");
        return Err(TuringError::IllegalActionError { cause });
    }
    Ok(())
}

impl TuringTape for TuringWritingTape {
    open spec fn tape_view(&self) -> TapeView {
        self@
    }

    open spec fn wf(&self) -> bool {
        writing_tape_wf(self@)
    }

    /// Creates a new [TuringWritingTape] holding the [INIT_CHAR] and a [BLANK_CHAR].
    fn new() -> (t: Self)
        ensures
            t@ == (TapeView { contents: seq![INIT_CHAR, BLANK_CHAR], head: 0 }),
    {
        let mut chars_vec: Vec<char> = Vec::new();
        chars_vec.push(INIT_CHAR);
        chars_vec.push(BLANK_CHAR);
        let t = Self { chars_vec, pointer: 0 };
        assert(t@.contents =~= seq![INIT_CHAR, BLANK_CHAR]);
        t
    }

    fn try_apply_transition(&mut self, if_read: char, replace_by: char, move_to: &TuringDirection) -> (r:
        Result<bool, TuringError>)
        ensures
            ({
                let t = old(self)@;
                if head_char(t) != if_read {
                    r == Ok::<bool, TuringError>(false) && final(self)@ == t
                } else if t.head + dir_value(*move_to) < 0 {
                    &&& r matches Err(TuringError::OutofRangeTapeError { accessed_index, tape_size })
                    &&& accessed_index == usize::MAX
                    &&& tape_size == t.contents.len()
                    &&& final(self)@ == t
                } else if !replacement_ok(head_char(t), replace_by) {
                    &&& r matches Err(e) && e is IllegalActionError
                    &&& final(self)@ == (TapeView { contents: grown_contents(t, *move_to), head: t.head })
                } else {
                    r == Ok::<bool, TuringError>(true) && final(self)@ == write_step(t, replace_by, *move_to)
                }
            }),
    {
        // if the correct symbol was read
        if self.chars_vec[self.pointer] == if_read {
            let value = move_to.get_value();
            let len = self.chars_vec.len();
            if self.pointer == 0 && value < 0 {
                return Err(
                    TuringError::OutofRangeTapeError {
                        accessed_index: usize::MAX,
                        tape_size: self.chars_vec.len(),
                    },
                );
            }
            let new_pointer: usize = if value < 0 {
                self.pointer - 1
            } else if value > 0 {
                self.pointer + 1
            } else {
                self.pointer
            };
            // In a write tape, we have an *infinite size*, so we can simulate this by adding when needed a new empty char
            if new_pointer >= self.chars_vec.len() {
                self.chars_vec.push(BLANK_CHAR);
            }
            let current = self.chars_vec[self.pointer];
            check_replacement_validity(current, replace_by)?;
            // Replace the current char read
            self.chars_vec.set(self.pointer, replace_by);
            // Move to the new position
            self.pointer = new_pointer;
            return Ok(true);
        }
        Ok(false)
    }

    fn read_curr_char(&self) -> (c: char) {
        self.chars_vec[self.pointer]
    }

    fn get_contents(&self) -> (v: &Vec<char>) {
        &self.chars_vec
    }

    fn get_pointer(&self) -> (p: usize) {
        self.pointer
    }
}

impl TuringTape for TuringReadingTape {
    open spec fn tape_view(&self) -> TapeView {
        self@
    }

    open spec fn wf(&self) -> bool {
        reading_tape_wf(self@)
    }

    /// Creates a new [TuringReadingTape] only containing the [INIT_CHAR] and [END_CHAR].
    fn new() -> (t: Self)
        ensures
            t@ == (TapeView { contents: seq![INIT_CHAR, END_CHAR], head: 0 }),
    {
        let mut chars_vec: Vec<char> = Vec::new();
        chars_vec.push(INIT_CHAR);
        chars_vec.push(END_CHAR);
        let t = Self { chars_vec, pointer: 0 };
        assert(t@.contents =~= seq![INIT_CHAR, END_CHAR]);
        assert(t@.contents.subrange(1, 1) =~= Seq::<char>::empty());
        assert(t@.contents =~= reading_contents(t@.contents.subrange(1, 1)));
        t
    }

    fn try_apply_transition(&mut self, if_read: char, replace_by: char, move_to: &TuringDirection) -> (r:
        Result<bool, TuringError>)
        ensures
            ({
                let t = old(self)@;
                if head_char(t) != if_read {
                    r == Ok::<bool, TuringError>(false) && final(self)@ == t
                } else if t.head + dir_value(*move_to) < 0 {
                    &&& r matches Err(TuringError::OutofRangeTapeError { accessed_index, tape_size })
                    &&& accessed_index == usize::MAX
                    &&& tape_size == t.contents.len()
                    &&& final(self)@ == t
                } else if t.head + dir_value(*move_to) >= t.contents.len() {
                    &&& r matches Err(TuringError::OutofRangeTapeError { accessed_index, tape_size })
                    &&& accessed_index == t.contents.len()
                    &&& tape_size == t.contents.len()
                    &&& final(self)@ == t
                } else {
                    &&& r == Ok::<bool, TuringError>(true)
                    &&& final(self)@ == (TapeView { contents: t.contents, head: t.head + dir_value(*move_to) })
                }
            }),
    {
        // if the correct symbol was read
        if self.chars_vec[self.pointer] == if_read {
            let value = move_to.get_value();
            let len = self.chars_vec.len();
            // If the head would leave the tape on the left
            if self.pointer == 0 && value < 0 {
                return Err(
                    TuringError::OutofRangeTapeError {
                        accessed_index: usize::MAX,
                        tape_size: self.chars_vec.len(),
                    },
                );
            }
            let new_pointer: usize = if value < 0 {
                self.pointer - 1
            } else if value > 0 {
                self.pointer + 1
            } else {
                self.pointer
            };
            // If the head would leave the tape on the right
            if new_pointer >= self.chars_vec.len() {
                return Err(
                    TuringError::OutofRangeTapeError {
                        accessed_index: new_pointer,
                        tape_size: self.chars_vec.len(),
                    },
                );
            }
            self.pointer = new_pointer;
            return Ok(true);
        }
        Ok(false)
    }

    fn read_curr_char(&self) -> (c: char) {
        self.chars_vec[self.pointer]
    }

    fn get_contents(&self) -> (v: &Vec<char>) {
        &self.chars_vec
    }

    fn get_pointer(&self) -> (p: usize) {
        self.pointer
    }
}

/// The forbidden character that a word is refused for: the initial character
/// if the word holds it, else the blank, else the end character.
pub open spec fn forbidden_found(w: Seq<char>) -> char {
    if w.contains(INIT_CHAR) {
        INIT_CHAR
    } else if w.contains(BLANK_CHAR) {
        BLANK_CHAR
    } else {
        END_CHAR
    }
}

/// The cause given when the word `w` is refused.
pub open spec fn word_refusal_text(w: Seq<char>) -> Seq<char> {
    "The given input \""@ + w + "\" contains the following forbidden character : '"@ + seq![forbidden_found(w)]
        + "'"@
}

/// A word holds no forbidden character exactly when it holds none of the three.
proof fn lemma_word_ok_contains(w: Seq<char>)
    ensures
        word_ok(w) <==> !w.contains(INIT_CHAR) && !w.contains(BLANK_CHAR) && !w.contains(END_CHAR),
{
    if !word_ok(w) {
        let i = choose|i: int| 0 <= i < w.len() && is_forbidden_in_word(#[trigger] w[i]);
        assert(w.contains(w[i]));
    }
}

fn check_word_validity(word: &String, chars: &Vec<char>) -> (r: Result<(), TuringError>)
    requires
        chars@ == word@,
    ensures
        r is Ok <==> word_ok(word@),
        r matches Err(e) ==> e matches TuringError::IllegalActionError { cause } && cause@ == word_refusal_text(word@),
{
    proof {
        lemma_word_ok_contains(word@);
    }
    let forbidden = [INIT_CHAR, BLANK_CHAR, END_CHAR];
    let mut k: usize = 0;
    while k < 3
        invariant
            k <= 3,
            chars@ == word@,
            forbidden@ == seq![INIT_CHAR, BLANK_CHAR, END_CHAR],
            forall|j: int| 0 <= j < k ==> !word@.contains(#[trigger] forbidden@[j]),
        decreases 3 - k,
    {
        let c = forbidden[k];
        if contains_char(chars, c) {
            assert(forbidden_found(word@) == c) by {
                if k > 0 {
                    assert(!word@.contains(forbidden@[0]));
                }
                if k > 1 {
                    assert(!word@.contains(forbidden@[1]));
                }
            }
            let mut cause = String::new();
            push_str(&mut cause, "The given input \"");
            cause.append(word.as_str());
            push_str(&mut cause, "\" contains the following forbidden character : '");
            string_push(&mut cause, c);
            push_str(&mut cause, "'");
            return Err(TuringError::IllegalActionError { cause });
        }
        k = k + 1;
    }
    assert(!word@.contains(forbidden@[0]) && !word@.contains(forbidden@[1]) && !word@.contains(forbidden@[2]));
    Ok(())
}

impl TuringReadingTape {
    /// Feed a word into the reading tape, and also adds [INIT_CHAR] and [END_CHAR] to the extremities of it
    ///
    /// The word may not hold [INIT_CHAR], [BLANK_CHAR] nor [END_CHAR]: it is
    /// refused with an [TuringError::IllegalActionError] and the tape is left
    /// as it was.
    pub fn feed_word(&mut self, word: String) -> (r: Result<(), TuringError>)
        requires
            old(self).wf(),
        ensures
            final(self).wf(),
            r is Ok <==> word_ok(word@),
            r matches Err(e) ==> e is IllegalActionError && final(self)@ == old(self)@,
            r matches Err(e) ==> e matches TuringError::IllegalActionError { cause } && cause@ == word_refusal_text(word@),
            r is Ok ==> final(self)@ == (TapeView { contents: reading_contents(word@), head: 0 }),
    {
        let chars = chars_of(word.as_str());
        check_word_validity(&word, &chars)?;
        let mut chars_vec: Vec<char> = Vec::new();
        chars_vec.push(INIT_CHAR);
        let mut i: usize = 0;
        while i < chars.len()
            invariant
                i <= chars@.len(),
                chars_vec@ =~= seq![INIT_CHAR] + chars@.take(i as int),
            decreases chars.len() - i,
        {
            chars_vec.push(chars[i]);
            i = i + 1;
        }
        chars_vec.push(END_CHAR);
        assert(chars@.take(chars@.len() as int) =~= chars@);
        assert(chars_vec@ =~= reading_contents(word@));
        assert(chars_vec@.subrange(1, chars_vec@.len() - 1) =~= word@);
        *self = TuringReadingTape { chars_vec, pointer: 0 };
        Ok(())
    }
}

impl Clone for TuringWritingTape {
    fn clone(&self) -> (res: Self)
        ensures
            res@ == self@,
    {
        Self { chars_vec: copy_chars(&self.chars_vec), pointer: self.pointer }
    }
}

impl Clone for TuringReadingTape {
    fn clone(&self) -> (res: Self)
        ensures
            res@ == self@,
    {
        Self { chars_vec: copy_chars(&self.chars_vec), pointer: self.pointer }
    }
}

/// The views of a sequence of writing tapes.
pub open spec fn tape_views(ws: Seq<TuringWritingTape>) -> Seq<TapeView> {
    ws.map_values(|w: TuringWritingTape| w@)
}

/// A copy of a vector of writing tapes.
pub fn copy_writing_tapes(ws: &Vec<TuringWritingTape>) -> (r: Vec<TuringWritingTape>)
    ensures
        tape_views(r@) == tape_views(ws@),
{
    let mut r: Vec<TuringWritingTape> = Vec::new();
    let mut i: usize = 0;
    while i < ws.len()
        invariant
            i <= ws@.len(),
            r@.len() == i,
            forall|j: int| 0 <= j < i ==> #[trigger] r@[j]@ == ws@[j]@,
        decreases ws.len() - i,
    {
        r.push(ws[i].clone());
        i = i + 1;
    }
    assert(tape_views(r@) =~= tape_views(ws@));
    r
}

/// The characters of a tape, separated by `','`.
pub open spec fn cells_text(cs: Seq<char>) -> Seq<char>
    decreases cs.len(),
{
    if cs.len() <= 1 {
        cs
    } else {
        cells_text(cs.drop_last()) + seq![',', cs.last()]
    }
}

/// The line under the cells of a tape, with an arrow under the head.
pub open spec fn arrow_text(n: nat, head: int) -> Seq<char>
    decreases n,
{
    if n == 0 {
        seq![' ']
    } else {
        arrow_text((n - 1) as nat, head) + if n - 1 == head {
            seq!['↑', ' ']
        } else {
            seq![' ', ' ']
        }
    }
}

/// The text of a tape for humans: `[c_0,c_1,...]` (with `,...` when the tape
/// goes on with blanks) over a line with an arrow under the head.
pub open spec fn tape_text(t: TapeView, is_inf: bool) -> Seq<char> {
    (if t.contents.len() == 0 {
        Seq::empty()
    } else {
        seq!['['] + cells_text(t.contents)
    }) + (if is_inf {
        seq![',', '.', '.', '.']
    } else {
        Seq::empty()
    }) + seq![']', '\n'] + arrow_text(t.contents.len(), t.head)
}

/// Turns a character vector into an easy string to read for humans, displaying with an arrow the current char being pointed
fn tape_to_string(chars_vec: &Vec<char>, pointer: usize, is_inf: bool) -> (res: String)
    ensures
        res@ == tape_text(TapeView { contents: chars_vec@, head: pointer as int }, is_inf),
{
    let ghost t = TapeView { contents: chars_vec@, head: pointer as int };
    let mut res = String::new();
    let mut pointing = String::new();
    string_push(&mut pointing, ' ');
    let n = chars_vec.len();
    if n > 0 {
        string_push(&mut res, '[');
    }
    let mut i: usize = 0;
    assert(chars_vec@.take(0) =~= Seq::<char>::empty());
    assert(n > 0 ==> res@ =~= seq!['['] + cells_text(chars_vec@.take(0)));
    while i < n
        invariant
            n == chars_vec@.len(),
            i <= n,
            n > 0 ==> res@ == seq!['['] + cells_text(chars_vec@.take(i as int)),
            n == 0 ==> res@ == Seq::<char>::empty(),
            pointing@ == arrow_text(i as nat, pointer as int),
        decreases n - i,
    {
        assert(chars_vec@.take(i + 1).drop_last() =~= chars_vec@.take(i as int));
        if i > 0 {
            string_push(&mut res, ',');
        }
        string_push(&mut res, chars_vec[i]);
        if i == pointer {
            string_push(&mut pointing, '↑');
        } else {
            string_push(&mut pointing, ' ');
        }
        string_push(&mut pointing, ' ');
        proof {
            if i == 0 {
                assert(chars_vec@.take(1) =~= seq![chars_vec@[0]]);
            }
        }
        assert(res@ =~= seq!['['] + cells_text(chars_vec@.take(i + 1)));
        assert(pointing@ =~= arrow_text((i + 1) as nat, pointer as int));
        i = i + 1;
    }
    assert(chars_vec@.take(n as int) =~= chars_vec@);
    if is_inf {
        push_str(&mut res, ",...");
    }
    push_str(&mut res, "]\n");
    res.append(pointing.as_str());
    proof {
        reveal_strlit(",...");
        reveal_strlit("]\n");
    }
    assert(res@ =~= tape_text(t, is_inf));
    res
}

impl TuringReadingTape {
    /// The text of this tape for humans, see [tape_text].
    pub fn to_string(&self) -> (s: String)
        ensures
            s@ == tape_text(self@, false),
    {
        tape_to_string(&self.chars_vec, self.pointer, false)
    }
}

impl TuringWritingTape {
    /// The text of this tape for humans, see [tape_text]; it ends with `,...`
    /// since the tape goes on with blanks.
    pub fn to_string(&self) -> (s: String)
        ensures
            s@ == tape_text(self@, true),
    {
        tape_to_string(&self.chars_vec, self.pointer, true)
    }
}


/// Law: a replacement on a writing tape is allowed exactly when it leaves the
/// special characters alone: the end character and the initial character are
/// only ever written over themselves, and the initial character is never
/// replaced; any other replacement is allowed.
pub proof fn lemma_replacement_keeps_special(og: char, new: char)
    ensures
        replacement_ok(og, new) <==> og == new || (og != INIT_CHAR && new != INIT_CHAR && new != END_CHAR),
        replacement_ok(og, new) && (new == END_CHAR || new == INIT_CHAR) ==> og == new,
{
}

/// Law: a transition applied with success to a writing tape never writes an
/// end character where there was none, and neither adds nor takes away an
/// initial character (an end character may be written over by another one).
pub proof fn lemma_write_keeps_special(t: TapeView, c: char, d: TuringDirection)
    requires
        writing_tape_wf(t),
        replacement_ok(head_char(t), c),
    ensures
        ({
            let before = grown_contents(t, d);
            let after = write_step(t, c, d).contents;
            &&& after.len() == before.len()
            &&& forall|i: int| 0 <= i < after.len() ==> (#[trigger] after[i] == END_CHAR ==> before[i] == END_CHAR)
            &&& forall|i: int| 0 <= i < after.len() ==> (#[trigger] after[i] == INIT_CHAR <==> before[i] == INIT_CHAR)
        }),
{
    let before = grown_contents(t, d);
    let after = write_step(t, c, d).contents;
    assert(before[t.head] == head_char(t));
    assert forall|i: int| 0 <= i < after.len() implies (#[trigger] after[i] == END_CHAR ==> before[i] == END_CHAR)
        && (after[i] == INIT_CHAR <==> before[i] == INIT_CHAR) by {
        if i == t.head {
            assert(after[i] == c);
        } else {
            assert(after[i] == before[i]);
        }
    }
}

} // verus!
