//! The grammar of the text of a Turing machine, as mathematical functions.
//!
//! ```text
//! machine    := ws (rule ws ';' ws)* END
//! rule       := state ws '{' ws content (ws '|' ws content)* ws '}' ws state
//! content    := char (ws ',' ws char)* ws '->' ws dir (ws ',' ws char ws ',' ws dir)*
//! state      := 'q' '_'? name          name := ('a'..'z' | 'A'..'Z' | '0'..'9' | '_')+
//! char       := any character but a blank, ',', '{', '}', '|' and ';'
//! dir        := 'L' | 'R' | 'N'
//! ws         := (' ' | '\t' | '\n' | '\r' | '//' up to the end of the line)*
//! ```
use vstd::prelude::*;

use crate::text::{chars_of, string_push};
use crate::turing_state::TuringDirection;

verus! {

/// A blank character, skipped between tokens.
pub open spec fn is_blank(c: char) -> bool {
    c == ' ' || c == '\t' || c == '\n' || c == '\r'
}

/// A character that may be part of the name of a state.
pub open spec fn is_name_char(c: char) -> bool {
    ('a' <= c && c <= 'z') || ('A' <= c && c <= 'Z') || ('0' <= c && c <= '9') || c == '_'
}

/// A character that a transition may read or write.
pub open spec fn is_symbol(c: char) -> bool {
    !is_blank(c) && c != ',' && c != '{' && c != '}' && c != '|' && c != ';'
}

/// The direction a letter stands for, if any.
pub open spec fn dir_of(c: char) -> Option<TuringDirection> {
    if c == 'L' {
        Some(TuringDirection::Left)
    } else if c == 'R' {
        Some(TuringDirection::Right)
    } else if c == 'N' {
        Some(TuringDirection::Stay)
    } else {
        None
    }
}

/// The position after the blanks and comments found from `i` (inside a comment when `in_comment`).
pub open spec fn skip(s: Seq<char>, i: int, in_comment: bool) -> int
    decreases s.len() - i,
{
    if i < 0 || i >= s.len() {
        i
    } else if in_comment {
        if s[i] == '\n' {
            skip(s, i + 1, false)
        } else {
            skip(s, i + 1, true)
        }
    } else if is_blank(s[i]) {
        skip(s, i + 1, false)
    } else if s[i] == '/' && i + 1 < s.len() && s[i + 1] == '/' {
        skip(s, i + 2, true)
    } else {
        i
    }
}

/// The position after the blanks and comments found from `i`.
pub open spec fn ws(s: Seq<char>, i: int) -> int {
    skip(s, i, false)
}

/// Skipping never goes back, and stops inside the text.
pub proof fn lemma_skip(s: Seq<char>, i: int, in_comment: bool)
    requires
        0 <= i <= s.len(),
    ensures
        i <= skip(s, i, in_comment) <= s.len(),
        skip(s, i, in_comment) < s.len() ==> !is_blank(s[skip(s, i, in_comment)]),
    decreases s.len() - i,
{
    if i < s.len() {
        if in_comment {
            lemma_skip(s, i + 1, s[i] != '\n');
        } else if is_blank(s[i]) {
            lemma_skip(s, i + 1, false);
        } else if s[i] == '/' && i + 1 < s.len() && s[i + 1] == '/' {
            lemma_skip(s, i + 2, true);
        }
    }
}

/// The end of the name characters found from `i`.
pub open spec fn name_end(s: Seq<char>, i: int) -> int
    decreases s.len() - i,
{
    if 0 <= i < s.len() && is_name_char(s[i]) {
        name_end(s, i + 1)
    } else {
        i
    }
}

/// The name of a state written at `i` (`q_name` or `qname`), and the position after it.
pub open spec fn parse_state(s: Seq<char>, i: int) -> Option<(Seq<char>, int)> {
    if 0 <= i < s.len() && s[i] == 'q' {
        let j = if i + 1 < s.len() && s[i + 1] == '_' { i + 2 } else { i + 1 };
        let e = name_end(s, j);
        if e > j {
            Some((s.subrange(j, e), e))
        } else {
            None
        }
    } else {
        None
    }
}

/// The characters read by a transition: `char (ws ',' ws char)*` from `i`, and the position after them.
pub open spec fn parse_reads(s: Seq<char>, i: int) -> Option<(Seq<char>, int)>
    decreases s.len() - i,
{
    if 0 <= i < s.len() && is_symbol(s[i]) {
        let j = ws(s, i + 1);
        if 0 <= j < s.len() && s[j] == ',' {
            let k = ws(s, j + 1);
            proof {
                lemma_skip(s, i + 1, false);
                lemma_skip(s, j + 1, false);
            }
            match parse_reads(s, k) {
                Some((cs, e)) => Some((seq![s[i]] + cs, e)),
                None => None,
            }
        } else {
            Some((seq![s[i]], i + 1))
        }
    } else {
        None
    }
}

/// The writes of a transition: `dir (ws ',' ws char ws ',' ws dir)*` from `i`:
/// the characters written, the directions, and the position after them.
pub open spec fn parse_writes(s: Seq<char>, i: int) -> Option<(Seq<char>, Seq<TuringDirection>, int)>
    decreases s.len() - i,
{
    if 0 <= i < s.len() && dir_of(s[i]) is Some {
        let d = dir_of(s[i])->0;
        let j = ws(s, i + 1);
        if 0 <= j < s.len() && s[j] == ',' {
            let k = ws(s, j + 1);
            let l = ws(s, k + 1);
            let m = ws(s, l + 1);
            proof {
                lemma_skip(s, i + 1, false);
                lemma_skip(s, j + 1, false);
                if k + 1 <= s.len() {
                    lemma_skip(s, k + 1, false);
                    if l + 1 <= s.len() {
                        lemma_skip(s, l + 1, false);
                    }
                }
            }
            if 0 <= k < s.len() && is_symbol(s[k]) && 0 <= l < s.len() && s[l] == ',' {
                match parse_writes(s, m) {
                    Some((cs, ds, e)) => Some((seq![s[k]] + cs, seq![d] + ds, e)),
                    None => None,
                }
            } else {
                None
            }
        } else {
            Some((Seq::empty(), seq![d], i + 1))
        }
    } else {
        None
    }
}

/// What the text of one transition holds.
#[verifier::ext_equal]
pub struct ContentSpec {
    pub reads: Seq<char>,
    pub writes: Seq<char>,
    pub dirs: Seq<TuringDirection>,
}

/// The content of a transition from `i`: `reads ws '->' ws writes`, and the position after it.
pub open spec fn parse_content(s: Seq<char>, i: int) -> Option<(ContentSpec, int)> {
    match parse_reads(s, i) {
        Some((reads, e1)) => {
            let a = ws(s, e1);
            if 0 <= a && a + 1 < s.len() && s[a] == '-' && s[a + 1] == '>' {
                match parse_writes(s, ws(s, a + 2)) {
                    Some((writes, dirs, e2)) => Some((ContentSpec { reads, writes, dirs }, e2)),
                    None => None,
                }
            } else {
                None
            }
        },
        None => None,
    }
}

/// The contents that follow the first one of a rule: `(ws '|' ws content)*` from `i`,
/// and the position after them.
pub open spec fn parse_more_contents(s: Seq<char>, i: int) -> Option<(Seq<ContentSpec>, int)>
    decreases s.len() - i,
{
    let j = ws(s, i);
    if 0 <= i <= s.len() && 0 <= j < s.len() && s[j] == '|' {
        match parse_content(s, ws(s, j + 1)) {
            Some((c, e)) => {
                if i < e <= s.len() {
                    match parse_more_contents(s, e) {
                        Some((cs, e2)) => Some((seq![c] + cs, e2)),
                        None => None,
                    }
                } else {
                    None
                }
            },
            None => None,
        }
    } else {
        Some((Seq::empty(), i))
    }
}

/// Where the transitions that follow the first one of a rule stand in the
/// text, from `i`: for each, its first position and the position after it
/// (see [parse_more_contents]).
pub open spec fn more_content_spans(s: Seq<char>, i: int) -> Seq<(int, int)>
    decreases s.len() - i,
{
    let j = ws(s, i);
    if 0 <= i <= s.len() && 0 <= j < s.len() && s[j] == '|' {
        let k = ws(s, j + 1);
        match parse_content(s, k) {
            Some((_, e)) => {
                if i < e <= s.len() {
                    seq![(k, e)] + more_content_spans(s, e)
                } else {
                    Seq::empty()
                }
            },
            None => Seq::empty(),
        }
    } else {
        Seq::empty()
    }
}

/// What the text of a rule `q_from { content | ... } q_to` holds.
#[verifier::ext_equal]
pub struct RuleSpec {
    pub from: Seq<char>,
    pub contents: Seq<ContentSpec>,
    pub to: Seq<char>,
}

/// The rule written from `i`, and the position after it.
pub open spec fn parse_rule(s: Seq<char>, i: int) -> Option<(RuleSpec, int)> {
    match parse_state(s, i) {
        Some((from, e1)) => {
            let b = ws(s, e1);
            if 0 <= b < s.len() && s[b] == '{' {
                match parse_content(s, ws(s, b + 1)) {
                    Some((c, e2)) => match parse_more_contents(s, e2) {
                        Some((cs, e3)) => {
                            let b2 = ws(s, e3);
                            if 0 <= b2 < s.len() && s[b2] == '}' {
                                match parse_state(s, ws(s, b2 + 1)) {
                                    Some((to, e4)) => Some((RuleSpec { from, contents: seq![c] + cs, to }, e4)),
                                    None => None,
                                }
                            } else {
                                None
                            }
                        },
                        None => None,
                    },
                    None => None,
                }
            } else {
                None
            }
        },
        None => None,
    }
}

/// Where the transitions of the rule written at `i` stand in the text (see [parse_rule]).
pub open spec fn rule_content_spans(s: Seq<char>, i: int) -> Seq<(int, int)> {
    match parse_state(s, i) {
        Some((_, e1)) => {
            let k = ws(s, ws(s, e1) + 1);
            match parse_content(s, k) {
                Some((_, e2)) => seq![(k, e2)] + more_content_spans(s, e2),
                None => Seq::empty(),
            }
        },
        None => Seq::empty(),
    }
}

/// The rules of a machine from `i` (where blanks were already skipped): each
/// followed by `ws ';' ws`, up to the end of the text.
pub open spec fn parse_rules(s: Seq<char>, i: int) -> Option<Seq<RuleSpec>>
    decreases s.len() - i,
{
    if i < 0 || i > s.len() {
        None
    } else if i == s.len() {
        Some(Seq::empty())
    } else {
        match parse_rule(s, i) {
            Some((r, e)) => {
                let j = ws(s, e);
                if i < e <= s.len() && j < s.len() && s[j] == ';' {
                    proof {
                        lemma_skip(s, e, false);
                        lemma_skip(s, j + 1, false);
                    }
                    match parse_rules(s, ws(s, j + 1)) {
                        Some(rs) => Some(seq![r] + rs),
                        None => None,
                    }
                } else {
                    None
                }
            },
            None => None,
        }
    }
}

/// Where the rules of a machine read from `i` stand in the text: for each,
/// its first position and the position after its target state (see [parse_rules]).
pub open spec fn rule_spans(s: Seq<char>, i: int) -> Seq<(int, int)>
    decreases s.len() - i,
{
    if i < 0 || i >= s.len() {
        Seq::empty()
    } else {
        match parse_rule(s, i) {
            Some((_, e)) => {
                let j = ws(s, e);
                if i < e <= s.len() && j < s.len() && s[j] == ';' {
                    proof {
                        lemma_skip(s, e, false);
                        lemma_skip(s, j + 1, false);
                    }
                    seq![(i, e)] + rule_spans(s, ws(s, j + 1))
                } else {
                    Seq::empty()
                }
            },
            None => Seq::empty(),
        }
    }
}

/// Where the rules of the text of a machine stand in it.
pub open spec fn machine_spans(s: Seq<char>) -> Seq<(int, int)> {
    rule_spans(s, ws(s, 0))
}

/// The rules of the text of a machine, if it follows the grammar.
pub open spec fn parse_machine(s: Seq<char>) -> Option<Seq<RuleSpec>> {
    parse_rules(s, ws(s, 0))
}

/// The rule that is the whole text (blanks and comments around it aside), if it is one.
pub open spec fn parse_rule_only(s: Seq<char>) -> Option<RuleSpec> {
    match parse_rule(s, ws(s, 0)) {
        Some((r, e)) => if ws(s, e) == s.len() {
            Some(r)
        } else {
            None
        },
        None => None,
    }
}

/// The transition content that is the whole text (blanks and comments around it aside), if it is one.
pub open spec fn parse_content_only(s: Seq<char>) -> Option<ContentSpec> {
    match parse_content(s, ws(s, 0)) {
        Some((c, e)) => if ws(s, e) == s.len() {
            Some(c)
        } else {
            None
        },
        None => None,
    }
}


/// Where the reading of a rule written at `i` stops, and the punctuation
/// that was expected there, if any.
pub open spec fn rule_failure(s: Seq<char>, i: int) -> (int, Option<char>) {
    match parse_state(s, i) {
        None => (i, None),
        Some((_, e1)) => {
            let b = ws(s, e1);
            if !(0 <= b < s.len() && s[b] == '{') {
                (b, Some('{'))
            } else {
                let k = ws(s, b + 1);
                match parse_content(s, k) {
                    None => (k, None),
                    Some((_, e2)) => match parse_more_contents(s, e2) {
                        None => (e2, None),
                        Some((_, e3)) => {
                            let b2 = ws(s, e3);
                            if !(0 <= b2 < s.len() && s[b2] == '}') {
                                (b2, Some('}'))
                            } else {
                                (ws(s, b2 + 1), None)
                            }
                        },
                    },
                }
            }
        },
    }
}

/// Where the reading of the rules of a machine from `i` stops, and the
/// punctuation that was expected there, if any (see [parse_rules]).
pub open spec fn rules_failure(s: Seq<char>, i: int) -> (int, Option<char>)
    decreases s.len() - i,
{
    if i < 0 || i >= s.len() {
        (i, None)
    } else {
        match parse_rule(s, i) {
            None => rule_failure(s, i),
            Some((_, e)) => {
                let j = ws(s, e);
                if i < e <= s.len() && j < s.len() && s[j] == ';' {
                    proof {
                        lemma_skip(s, e, false);
                        lemma_skip(s, j + 1, false);
                    }
                    rules_failure(s, ws(s, j + 1))
                } else {
                    (j, Some(';'))
                }
            },
        }
    }
}

/// Where the reading of the text of a machine stops, and the punctuation that
/// was expected there, if any.
pub open spec fn machine_failure(s: Seq<char>) -> (int, Option<char>) {
    rules_failure(s, ws(s, 0))
}

/// Where the reading of the text of a single rule stops, and the punctuation
/// that was expected there, if any.
pub open spec fn rule_only_failure(s: Seq<char>) -> (int, Option<char>) {
    match parse_rule(s, ws(s, 0)) {
        None => rule_failure(s, ws(s, 0)),
        Some((_, e)) => (ws(s, e), None),
    }
}

/// Where the reading of the text of a single transition stops.
pub open spec fn content_only_failure(s: Seq<char>) -> int {
    match parse_content(s, ws(s, 0)) {
        None => ws(s, 0),
        Some((_, e)) => ws(s, e),
    }
}

fn blank(c: char) -> (r: bool)
    ensures
        r == is_blank(c),
{
    c == ' ' || c == '\t' || c == '\n' || c == '\r'
}

fn name_char(c: char) -> (r: bool)
    ensures
        r == is_name_char(c),
{
    ('a' <= c && c <= 'z') || ('A' <= c && c <= 'Z') || ('0' <= c && c <= '9') || c == '_'
}

fn symbol(c: char) -> (r: bool)
    ensures
        r == is_symbol(c),
{
    !blank(c) && c != ',' && c != '{' && c != '}' && c != '|' && c != ';'
}

fn direction(c: char) -> (r: Option<TuringDirection>)
    ensures
        r == dir_of(c),
{
    if c == 'L' {
        Some(TuringDirection::Left)
    } else if c == 'R' {
        Some(TuringDirection::Right)
    } else if c == 'N' {
        Some(TuringDirection::Stay)
    } else {
        None
    }
}

/// The position after the blanks and comments found from `i`.
fn skip_ws(s: &Vec<char>, i: usize) -> (r: usize)
    requires
        i <= s.len(),
    ensures
        r == ws(s@, i as int),
        i <= r <= s.len(),
{
    proof {
        lemma_skip(s@, i as int, false);
    }
    let mut pos = i;
    let mut in_comment = false;
    while pos < s.len()
        invariant
            i <= pos <= s.len(),
            skip(s@, i as int, false) == skip(s@, pos as int, in_comment),
        decreases s.len() - pos,
    {
        if in_comment {
            in_comment = s[pos] != '\n';
            pos = pos + 1;
        } else if blank(s[pos]) {
            pos = pos + 1;
        } else if s[pos] == '/' && pos + 1 < s.len() && s[pos + 1] == '/' {
            in_comment = true;
            pos = pos + 2;
        } else {
            return pos;
        }
    }
    pos
}

/// The end of the name characters found from `i`.
fn name_end_at(s: &Vec<char>, i: usize) -> (r: usize)
    requires
        i <= s.len(),
    ensures
        r == name_end(s@, i as int),
        i <= r <= s.len(),
{
    let mut pos = i;
    while pos < s.len() && name_char(s[pos])
        invariant
            i <= pos <= s.len(),
            name_end(s@, i as int) == name_end(s@, pos as int),
        decreases s.len() - pos,
    {
        pos = pos + 1;
    }
    pos
}

/// The characters of `s` from `i` to `e`, as a string.
pub(crate) fn string_between(s: &Vec<char>, i: usize, e: usize) -> (r: String)
    requires
        i <= e <= s.len(),
    ensures
        r@ == s@.subrange(i as int, e as int),
{
    let mut r = String::new();
    let mut pos = i;
    while pos < e
        invariant
            i <= pos <= e <= s.len(),
            r@ =~= s@.subrange(i as int, pos as int),
        decreases e - pos,
    {
        string_push(&mut r, s[pos]);
        pos = pos + 1;
    }
    r
}

/// Reads the name of a state at `i`.
fn parse_state_at(s: &Vec<char>, i: usize) -> (r: Option<(String, usize)>)
    requires
        i <= s.len(),
    ensures
        match r {
            Some((name, e)) => parse_state(s@, i as int) == Some((name@, e as int)) && i + 2 <= e <= s.len(),
            None => parse_state(s@, i as int) is None,
        },
{
    if i < s.len() && s[i] == 'q' {
        let j = if i + 1 < s.len() && s[i + 1] == '_' { i + 2 } else { i + 1 };
        let e = name_end_at(s, j);
        if e > j {
            Some((string_between(s, j, e), e))
        } else {
            None
        }
    } else {
        None
    }
}

/// Reads the characters of a transition at `i`.
fn parse_reads_at(s: &Vec<char>, i: usize) -> (r: Option<(Vec<char>, usize)>)
    requires
        i <= s.len(),
    ensures
        match r {
            Some((cs, e)) => parse_reads(s@, i as int) == Some((cs@, e as int)) && i < e <= s.len(),
            None => parse_reads(s@, i as int) is None,
        },
    decreases s.len() - i,
{
    if i < s.len() && symbol(s[i]) {
        let j = skip_ws(s, i + 1);
        if j < s.len() && s[j] == ',' {
            let k = skip_ws(s, j + 1);
            match parse_reads_at(s, k) {
                Some((cs, e)) => {
                    let ghost tail = cs@;
                    let mut cs = cs;
                    cs.insert(0, s[i]);
                    assert(cs@ =~= seq![s@[i as int]] + tail);
                    Some((cs, e))
                },
                None => None,
            }
        } else {
            let mut cs: Vec<char> = Vec::new();
            cs.push(s[i]);
            assert(cs@ =~= seq![s@[i as int]]);
            Some((cs, i + 1))
        }
    } else {
        None
    }
}

/// Reads the writes of a transition at `i`.
fn parse_writes_at(s: &Vec<char>, i: usize) -> (r: Option<(Vec<char>, Vec<TuringDirection>, usize)>)
    requires
        i <= s.len(),
    ensures
        match r {
            Some((cs, ds, e)) => parse_writes(s@, i as int) == Some((cs@, ds@, e as int)) && i < e <= s.len(),
            None => parse_writes(s@, i as int) is None,
        },
    decreases s.len() - i,
{
    if i >= s.len() {
        return None;
    }
    match direction(s[i]) {
        Some(d) => {
            let j = skip_ws(s, i + 1);
            if j < s.len() && s[j] == ',' {
                let k = skip_ws(s, j + 1);
                if k < s.len() && symbol(s[k]) {
                    let l = skip_ws(s, k + 1);
                    if l < s.len() && s[l] == ',' {
                        let m = skip_ws(s, l + 1);
                        match parse_writes_at(s, m) {
                            Some((cs, ds, e)) => {
                                let ghost cs_tail = cs@;
                                let ghost ds_tail = ds@;
                                let mut cs = cs;
                                let mut ds = ds;
                                cs.insert(0, s[k]);
                                ds.insert(0, d);
                                assert(cs@ =~= seq![s@[k as int]] + cs_tail);
                                assert(ds@ =~= seq![d] + ds_tail);
                                Some((cs, ds, e))
                            },
                            None => None,
                        }
                    } else {
                        None
                    }
                } else {
                    None
                }
            } else {
                let cs: Vec<char> = Vec::new();
                let mut ds: Vec<TuringDirection> = Vec::new();
                ds.push(d);
                assert(cs@ =~= Seq::<char>::empty());
                assert(ds@ =~= seq![d]);
                Some((cs, ds, i + 1))
            }
        },
        None => None,
    }
}

/// The text of one transition: what it reads, writes and the directions it takes.
pub struct TransitionText {
    pub reads: Vec<char>,
    pub writes: Vec<char>,
    pub dirs: Vec<TuringDirection>,
    /// The position of the transition in the text.
    pub start: usize,
    /// The position after the transition.
    pub end: usize,
}

impl View for TransitionText {
    type V = ContentSpec;

    open spec fn view(&self) -> ContentSpec {
        ContentSpec { reads: self.reads@, writes: self.writes@, dirs: self.dirs@ }
    }
}

/// The views of a sequence of transition texts.
pub open spec fn content_views(cs: Seq<TransitionText>) -> Seq<ContentSpec> {
    cs.map_values(|c: TransitionText| c@)
}

/// Where a sequence of transition texts stand in their text.
pub open spec fn content_spans_of(cs: Seq<TransitionText>) -> Seq<(int, int)> {
    cs.map_values(|c: TransitionText| (c.start as int, c.end as int))
}

/// The text of one rule: the name of its source state, its transitions and
/// the name of its target state.
pub struct RuleText {
    pub from: String,
    pub contents: Vec<TransitionText>,
    pub to: String,
    /// The position of the rule in the text.
    pub start: usize,
    /// The position after the target state of the rule.
    pub end: usize,
}

impl View for RuleText {
    type V = RuleSpec;

    open spec fn view(&self) -> RuleSpec {
        RuleSpec { from: self.from@, contents: content_views(self.contents@), to: self.to@ }
    }
}

/// The views of a sequence of rule texts.
pub open spec fn rule_views(rs: Seq<RuleText>) -> Seq<RuleSpec> {
    rs.map_values(|r: RuleText| r@)
}

/// Where a sequence of rule texts stand in their text.
pub open spec fn spans_of(rs: Seq<RuleText>) -> Seq<(int, int)> {
    rs.map_values(|r: RuleText| (r.start as int, r.end as int))
}

/// Reads the content of a transition at `i`.
fn parse_content_at(s: &Vec<char>, i: usize) -> (r: Option<(TransitionText, usize)>)
    requires
        i <= s.len(),
    ensures
        match r {
            Some((c, e)) => parse_content(s@, i as int) == Some((c@, e as int)) && i < e <= s.len() && c.start == i
                && c.end == e,
            None => parse_content(s@, i as int) is None,
        },
{
    match parse_reads_at(s, i) {
        Some((reads, e1)) => {
            let a = skip_ws(s, e1);
            if a < s.len() && a + 1 < s.len() && s[a] == '-' && s[a + 1] == '>' {
                let b = skip_ws(s, a + 2);
                match parse_writes_at(s, b) {
                    Some((writes, dirs, e2)) => Some((TransitionText { reads, writes, dirs, start: i, end: e2 }, e2)),
                    None => None,
                }
            } else {
                None
            }
        },
        None => None,
    }
}

/// Reads the transitions that follow the first one of a rule, from `i`.
fn parse_more_contents_at(s: &Vec<char>, i: usize) -> (r: Option<(Vec<TransitionText>, usize)>)
    requires
        i <= s.len(),
    ensures
        match r {
            Some((cs, e)) => {
                &&& parse_more_contents(s@, i as int) == Some((content_views(cs@), e as int))
                &&& i <= e <= s.len()
                &&& more_content_spans(s@, i as int) == content_spans_of(cs@)
                &&& forall|n: int| 0 <= n < cs@.len() ==> (#[trigger] cs@[n]).start <= cs@[n].end <= s.len()
            },
            None => parse_more_contents(s@, i as int) is None,
        },
    decreases s.len() - i,
{
    let j = skip_ws(s, i);
    if j < s.len() && s[j] == '|' {
        let k = skip_ws(s, j + 1);
        match parse_content_at(s, k) {
            Some((c, e)) => {
                if i < e {
                    match parse_more_contents_at(s, e) {
                        Some((cs, e2)) => {
                            let ghost tail = cs@;
                            let ghost head = c@;
                            let mut cs = cs;
                            let ghost head_span = (c.start as int, c.end as int);
                            cs.insert(0, c);
                            assert(content_views(cs@) =~= seq![head] + content_views(tail));
                            assert(content_spans_of(cs@) =~= seq![head_span] + content_spans_of(tail));
                            assert forall|n: int| 0 <= n < cs@.len() implies (#[trigger] cs@[n]).start <= cs@[n].end
                                <= s.len() by {
                                if n > 0 {
                                    assert(cs@[n] == tail[n - 1]);
                                }
                            }
                            Some((cs, e2))
                        },
                        None => None,
                    }
                } else {
                    None
                }
            },
            None => None,
        }
    } else {
        let cs: Vec<TransitionText> = Vec::new();
        assert(content_views(cs@) =~= Seq::<ContentSpec>::empty());
        assert(content_spans_of(cs@) =~= Seq::<(int, int)>::empty());
        Some((cs, i))
    }
}

/// Reads the rule written at `i`.
fn parse_rule_at(s: &Vec<char>, i: usize) -> (r: Option<(RuleText, usize)>)
    requires
        i <= s.len(),
    ensures
        match r {
            Some((rule, e)) => {
                &&& parse_rule(s@, i as int) == Some((rule@, e as int))
                &&& i + 2 <= e <= s.len()
                &&& rule.contents@.len() >= 1
                &&& rule.start == i
                &&& rule.end == e
                &&& rule_content_spans(s@, i as int) == content_spans_of(rule.contents@)
                &&& forall|n: int| 0 <= n < rule.contents@.len() ==> (#[trigger] rule.contents@[n]).start
                    <= rule.contents@[n].end <= s.len()
            },
            None => parse_rule(s@, i as int) is None,
        },
{
    match parse_state_at(s, i) {
        Some((from, e1)) => {
            let b = skip_ws(s, e1);
            if b < s.len() && s[b] == '{' {
                let k = skip_ws(s, b + 1);
                match parse_content_at(s, k) {
                    Some((c, e2)) => match parse_more_contents_at(s, e2) {
                        Some((cs, e3)) => {
                            let b2 = skip_ws(s, e3);
                            if b2 < s.len() && s[b2] == '}' {
                                let k2 = skip_ws(s, b2 + 1);
                                match parse_state_at(s, k2) {
                                    Some((to, e4)) => {
                                        let ghost tail = cs@;
                                        let ghost head = c@;
                                        let ghost head_span = (c.start as int, c.end as int);
                                        let mut contents = cs;
                                        contents.insert(0, c);
                                        assert(content_views(contents@) =~= seq![head] + content_views(tail));
                                        assert(content_spans_of(contents@) =~= seq![head_span] + content_spans_of(
                                            tail,
                                        ));
                                        assert forall|n: int| 0 <= n < contents@.len() implies (
                                        #[trigger] contents@[n]).start <= contents@[n].end <= s.len() by {
                                            if n > 0 {
                                                assert(contents@[n] == tail[n - 1]);
                                            }
                                        }
                                        Some((RuleText { from, contents, to, start: i, end: e4 }, e4))
                                    },
                                    None => None,
                                }
                            } else {
                                None
                            }
                        },
                        None => None,
                    },
                    None => None,
                }
            } else {
                None
            }
        },
        None => None,
    }
}

/// Reads the rules of a machine from `i`, up to the end of the text.
fn parse_rules_at(s: &Vec<char>, i: usize) -> (r: Option<Vec<RuleText>>)
    requires
        i <= s.len(),
    ensures
        match r {
            Some(rs) => {
                &&& parse_rules(s@, i as int) == Some(rule_views(rs@))
                &&& 3 * rs@.len() <= s.len() - i
                &&& rule_spans(s@, i as int) == spans_of(rs@)
                &&& forall|n: int| 0 <= n < rs@.len() ==> (#[trigger] rs@[n]).contents@.len() >= 1
                &&& forall|n: int| 0 <= n < rs@.len() ==> (#[trigger] rs@[n]).start <= rs@[n].end <= s.len()
            },
            None => parse_rules(s@, i as int) is None,
        },
    decreases s.len() - i,
{
    if i == s.len() {
        let rs: Vec<RuleText> = Vec::new();
        assert(rule_views(rs@) =~= Seq::<RuleSpec>::empty());
        assert(spans_of(rs@) =~= Seq::<(int, int)>::empty());
        assert(rule_spans(s@, i as int) == Seq::<(int, int)>::empty());
        return Some(rs);
    }
    match parse_rule_at(s, i) {
        Some((rule, e)) => {
            let j = skip_ws(s, e);
            if j < s.len() && s[j] == ';' {
                let k = skip_ws(s, j + 1);
                match parse_rules_at(s, k) {
                    Some(rs) => {
                        let ghost tail = rs@;
                        let ghost head = rule;
                        let mut rs = rs;
                        rs.insert(0, rule);
                        assert(rule_views(rs@) =~= seq![head@] + rule_views(tail));
                        assert(spans_of(rs@) =~= seq![(head.start as int, head.end as int)] + spans_of(tail));
                        assert(rule_spans(s@, i as int) == seq![(i as int, e as int)] + rule_spans(s@, k as int));
                        assert forall|n: int| 0 <= n < rs@.len() implies (#[trigger] rs@[n]).contents@.len() >= 1
                            && rs@[n].start <= rs@[n].end <= s.len() by {
                            if n > 0 {
                                assert(rs@[n] == tail[n - 1]);
                            }
                        }
                        Some(rs)
                    },
                    None => None,
                }
            } else {
                None
            }
        },
        None => None,
    }
}

/// Finds where the reading of a rule written at `i` stops.
fn rule_failure_at(s: &Vec<char>, i: usize) -> (r: (usize, Option<char>))
    requires
        i <= s.len(),
    ensures
        r.0 <= s.len(),
        (r.0 as int, r.1) == rule_failure(s@, i as int),
{
    match parse_state_at(s, i) {
        None => (i, None),
        Some((_, e1)) => {
            let b = skip_ws(s, e1);
            if !(b < s.len() && s[b] == '{') {
                (b, Some('{'))
            } else {
                let k = skip_ws(s, b + 1);
                match parse_content_at(s, k) {
                    None => (k, None),
                    Some((_, e2)) => match parse_more_contents_at(s, e2) {
                        None => (e2, None),
                        Some((_, e3)) => {
                            let b2 = skip_ws(s, e3);
                            if !(b2 < s.len() && s[b2] == '}') {
                                (b2, Some('}'))
                            } else {
                                (skip_ws(s, b2 + 1), None)
                            }
                        },
                    },
                }
            }
        },
    }
}

/// Finds where the reading of the rules of a machine from `i` stops.
fn rules_failure_at(s: &Vec<char>, i: usize) -> (r: (usize, Option<char>))
    requires
        i <= s.len(),
    ensures
        r.0 <= s.len(),
        (r.0 as int, r.1) == rules_failure(s@, i as int),
    decreases s.len() - i,
{
    if i >= s.len() {
        return (i, None);
    }
    match parse_rule_at(s, i) {
        None => rule_failure_at(s, i),
        Some((_, e)) => {
            let j = skip_ws(s, e);
            if j < s.len() && s[j] == ';' {
                let k = skip_ws(s, j + 1);
                rules_failure_at(s, k)
            } else {
                (j, Some(';'))
            }
        },
    }
}

/// The grammar of the text of Turing machines, and its reader.
pub struct TuringGrammar;

impl TuringGrammar {
    /// Reads the rules of the text of a machine, if it follows the grammar.
    pub fn machine(text: &str) -> (r: Option<Vec<RuleText>>)
        ensures
            match r {
                Some(rs) => {
                    &&& parse_machine(text@) == Some(rule_views(rs@))
                    &&& 3 * rs@.len() <= text@.len()
                    &&& 3 * rs@.len() <= usize::MAX
                    &&& machine_spans(text@) == spans_of(rs@)
                    &&& forall|n: int| 0 <= n < rs@.len() ==> (#[trigger] rs@[n]).start <= rs@[n].end <= text@.len()
                    &&& forall|n: int| 0 <= n < rs@.len() ==> (#[trigger] rs@[n]).contents@.len() >= 1
                },
                None => parse_machine(text@) is None,
            },
    {
        let s = chars_of(text);
        let i = skip_ws(&s, 0);
        parse_rules_at(&s, i)
    }

    /// Finds where the reading of the text of a machine stops, and the
    /// punctuation that was expected there, if any.
    pub fn machine_failure(text: &str) -> (r: (usize, Option<char>))
        ensures
            r.0 <= text@.len(),
            (r.0 as int, r.1) == machine_failure(text@),
    {
        let s = chars_of(text);
        let i = skip_ws(&s, 0);
        rules_failure_at(&s, i)
    }

    /// Finds where the reading of the text of a single rule stops, and the
    /// punctuation that was expected there, if any.
    pub fn rule_failure(text: &str) -> (r: (usize, Option<char>))
        ensures
            r.0 <= text@.len(),
            (r.0 as int, r.1) == rule_only_failure(text@),
    {
        let s = chars_of(text);
        let i = skip_ws(&s, 0);
        match parse_rule_at(&s, i) {
            None => rule_failure_at(&s, i),
            Some((_, e)) => (skip_ws(&s, e), None),
        }
    }

    /// Finds where the reading of the text of a single transition stops.
    pub fn transition_failure(text: &str) -> (r: usize)
        ensures
            r <= text@.len(),
            r as int == content_only_failure(text@),
    {
        let s = chars_of(text);
        let i = skip_ws(&s, 0);
        match parse_content_at(&s, i) {
            None => i,
            Some((_, e)) => skip_ws(&s, e),
        }
    }

    /// Reads the text of a single rule (blanks and comments around it aside).
    pub fn rule(text: &str) -> (r: Option<RuleText>)
        ensures
            match r {
                Some(rule) => {
                    &&& parse_rule_only(text@) == Some(rule@)
                    &&& rule.contents@.len() >= 1
                    &&& rule_content_spans(text@, ws(text@, 0)) == content_spans_of(rule.contents@)
                    &&& forall|n: int| 0 <= n < rule.contents@.len() ==> (#[trigger] rule.contents@[n]).start
                        <= rule.contents@[n].end <= text@.len()
                },
                None => parse_rule_only(text@) is None,
            },
    {
        let s = chars_of(text);
        let i = skip_ws(&s, 0);
        match parse_rule_at(&s, i) {
            Some((rule, e)) => {
                if skip_ws(&s, e) == s.len() {
                    Some(rule)
                } else {
                    None
                }
            },
            None => None,
        }
    }

    /// Reads the text of a single transition (blanks and comments around it aside).
    pub fn transition(text: &str) -> (r: Option<TransitionText>)
        ensures
            match r {
                Some(c) => {
                    &&& parse_content_only(text@) == Some(c@)
                    &&& c.start == ws(text@, 0)
                    &&& parse_content(text@, c.start as int) == Some((c@, c.end as int))
                    &&& c.start <= c.end <= text@.len()
                },
                None => parse_content_only(text@) is None,
            },
    {
        let s = chars_of(text);
        let i = skip_ws(&s, 0);
        match parse_content_at(&s, i) {
            Some((c, e)) => {
                if skip_ws(&s, e) == s.len() {
                    Some(c)
                } else {
                    None
                }
            },
            None => None,
        }
    }
}

} // verus!
