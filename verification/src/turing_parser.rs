//! Turns the text of a Turing machine, of a rule or of a transition into the
//! values of this library.
use vstd::prelude::*;

use crate::text::{chars_of, push_str, string_push};
use crate::turing_errors::TuringError;
use crate::turing_grammar::{
    content_only_failure, content_spans_of, content_views, is_blank, is_name_char, is_symbol, machine_failure,
    machine_spans, name_end, parse_content, parse_content_only, parse_machine, parse_more_contents, parse_reads,
    parse_rule, parse_rule_only, parse_rules, parse_state, parse_writes, rule_content_spans, rule_only_failure,
    rule_views, skip, spans_of, string_between, ws, ContentSpec, RuleSpec, RuleText, TransitionText,
    TuringGrammar,
};
use crate::turing_graph::{
    GraphView, TuringMachineGraph, fresh_state, graph_wf, index_of_name, initial_graph, pointing_to,
    state_views, transition_fits, transition_safe, with_rule, write_rule_safe_at,
};
use crate::turing_state::{
    StateView, TransitionView, TuringDirection, TuringStateType, TuringTransition, chars_text, create_args_ok,
    create_refusal_text, create_refused, dir_letter, lemma_filter_take_step, moves_text, transition_text, write_rule_refused,
    zip_writes,
};

pub use crate::turing_errors::TuringParserError;

verus! {

/// [TuringTransition::create] accepts what the text of a transition holds.
pub open spec fn content_accepted(c: ContentSpec) -> bool {
    create_args_ok(c.reads, c.writes, c.dirs) && !create_refused(c.reads, c.writes, c.dirs)
}

/// The transition that [TuringTransition::create] builds from the text of a transition.
pub open spec fn content_transition(c: ContentSpec) -> TransitionView {
    TransitionView {
        chars_read: c.reads,
        move_read: c.dirs[0],
        chars_write: zip_writes(c.writes, c.dirs),
        index_to_state: None,
    }
}

/// Every transition of a rule is accepted.
pub open spec fn contents_accepted(cs: Seq<ContentSpec>) -> bool {
    forall|i: int| 0 <= i < cs.len() ==> content_accepted(#[trigger] cs[i])
}

/// The graph once a state of the given name is in it: unchanged if one
/// already was, else with a new normal state at the end.
pub open spec fn with_named_state(g: GraphView, name: Seq<char>) -> GraphView {
    match index_of_name(g, name) {
        Some(_) => g,
        None => GraphView { states: g.states.push(fresh_state(TuringStateType::Normal, name)), ..g },
    }
}

/// The index of the state of the given name in [with_named_state].
pub open spec fn named_index(g: GraphView, name: Seq<char>) -> int {
    match index_of_name(g, name) {
        Some(i) => i as int,
        None => g.states.len() as int,
    }
}

/// The graph accepts the transition `t`: it reads and writes as many tapes as
/// the graph has, and its application is always possible.
pub open spec fn fits_graph(g: GraphView, t: TransitionView) -> bool {
    t.chars_read.len() == g.k + 1 && t.chars_write.len() == g.k && transition_safe(t)
}

/// The graph where the transitions of the texts `cs` were added, in order,
/// from the state `from` to the state `to`; `None` at the first one refused.
pub open spec fn append_contents(g: GraphView, from: int, cs: Seq<ContentSpec>, to: int) -> Option<GraphView>
    decreases cs.len(),
{
    if cs.len() == 0 {
        Some(g)
    } else if fits_graph(g, content_transition(cs[0])) {
        append_contents(with_rule(g, from, content_transition(cs[0]), to as usize), from, cs.drop_first(), to)
    } else {
        None
    }
}

/// The graph once the rule `r` was added to it; `None` if it is refused.
pub open spec fn apply_rule(g: GraphView, r: RuleSpec) -> Option<GraphView> {
    if !contents_accepted(r.contents) {
        None
    } else {
        let g1 = with_named_state(g, r.from);
        let from = named_index(g, r.from);
        let g2 = with_named_state(g1, r.to);
        let to = named_index(g1, r.to);
        append_contents(g2, from, r.contents, to)
    }
}

/// The graph once the rules `rs` were added to it, in order; `None` at the first one refused.
pub open spec fn apply_rules(g: GraphView, rs: Seq<RuleSpec>) -> Option<GraphView>
    decreases rs.len(),
{
    if rs.len() == 0 {
        Some(g)
    } else {
        match apply_rule(g, rs[0]) {
            Some(g1) => apply_rules(g1, rs.drop_first()),
            None => None,
        }
    }
}

/// The graph that the rules of a machine describe: with no rule, the graph of
/// one writing tape; otherwise the first transition of the first rule gives
/// the number of tapes and every rule is added in order. `None` when a rule
/// is refused or when the first transition has no writing tape.
pub open spec fn graph_of_rules(rs: Seq<RuleSpec>) -> Option<GraphView> {
    if rs.len() == 0 {
        Some(initial_graph(1))
    } else if !contents_accepted(rs[0].contents) {
        None
    } else {
        let n = rs[0].contents[0].reads.len();
        if n < 2 {
            None
        } else {
            apply_rules(initial_graph((n - 1) as nat), rs)
        }
    }
}

/// The number of rules that are added to `g`, in order, before one is refused.
pub open spec fn refusal_index(g: GraphView, rs: Seq<RuleSpec>) -> nat
    decreases rs.len(),
{
    if rs.len() == 0 {
        0
    } else {
        match apply_rule(g, rs[0]) {
            Some(g1) => refusal_index(g1, rs.drop_first()) + 1,
            None => 0,
        }
    }
}

/// The index of the first rule that [graph_of_rules] refuses.
pub open spec fn refused_rule(rs: Seq<RuleSpec>) -> nat {
    if rs.len() == 0 || !contents_accepted(rs[0].contents) || rs[0].contents[0].reads.len() < 2 {
        0
    } else {
        refusal_index(initial_graph((rs[0].contents[0].reads.len() - 1) as nat), rs)
    }
}

/// `e` is the error that [TuringTransition::create] gives for the text `c` it refuses.
pub open spec fn create_error(c: ContentSpec, e: TuringError) -> bool {
    if create_args_ok(c.reads, c.writes, c.dirs) {
        e matches TuringError::IllegalActionError { cause } && cause@ == create_refusal_text(c.reads, c.writes, c.dirs)
    } else {
        e is TransitionArgsError
    }
}

/// `e` is the error that [TuringMachineGraph::append_rule_state] gives when
/// it refuses the transition `t` between two states of `g`.
pub open spec fn append_error(g: GraphView, t: TransitionView, e: TuringError) -> bool {
    if t.chars_read.len() != g.k + 1 {
        e == TuringError::IncompatibleTransitionError {
            expected: (g.k + 1) as usize,
            received: t.chars_read.len() as usize,
        }
    } else if t.chars_write.len() != g.k {
        e is TransitionArgsError
    } else {
        e is IllegalActionError
    }
}

/// `e` is the error given when the transitions of the texts `cs` are added, in
/// order, from `from` to `to`: the one of the first transition refused.
pub open spec fn contents_error(g: GraphView, from: int, cs: Seq<ContentSpec>, to: int, e: TuringError) -> bool
    decreases cs.len(),
{
    if cs.len() == 0 {
        false
    } else if fits_graph(g, content_transition(cs[0])) {
        contents_error(with_rule(g, from, content_transition(cs[0]), to as usize), from, cs.drop_first(), to, e)
    } else {
        append_error(g, content_transition(cs[0]), e)
    }
}

/// `e` is the error given when the rule `r` is added to `g`: the one of the
/// first transition text refused, or else the one of the first transition
/// that the graph refuses.
pub open spec fn rule_error(g: GraphView, r: RuleSpec, e: TuringError) -> bool {
    if !contents_accepted(r.contents) {
        create_error(r.contents[first_refused(r.contents)], e)
    } else {
        let g1 = with_named_state(g, r.from);
        let g2 = with_named_state(g1, r.to);
        contents_error(g2, named_index(g, r.from), r.contents, named_index(g1, r.to), e)
    }
}

/// `e` is the error given when the rules `rs` are added to `g`, in order: the
/// one of the first rule refused.
pub open spec fn rules_error(g: GraphView, rs: Seq<RuleSpec>, e: TuringError) -> bool
    decreases rs.len(),
{
    if rs.len() == 0 {
        false
    } else {
        match apply_rule(g, rs[0]) {
            Some(g1) => rules_error(g1, rs.drop_first(), e),
            None => rule_error(g, rs[0], e),
        }
    }
}

/// `e` is the error given when the graph of the rules `rs` is built (see
/// [graph_of_rules]): the one of a transition text of the first rule that
/// is refused, the one of the creation of a graph with no writing tape, or
/// the one of the first rule refused.
pub open spec fn graph_error(rs: Seq<RuleSpec>, e: TuringError) -> bool {
    if rs.len() == 0 {
        false
    } else if !contents_accepted(rs[0].contents) {
        create_error(rs[0].contents[first_refused(rs[0].contents)], e)
    } else if rs[0].contents[0].reads.len() < 2 {
        e is IllegalActionError
    } else {
        rules_error(initial_graph((rs[0].contents[0].reads.len() - 1) as nat), rs, e)
    }
}

/// The index of the first transition text that [TuringTransition::create] refuses.
pub open spec fn first_refused(cs: Seq<ContentSpec>) -> int {
    choose|n: int|
        0 <= n < cs.len() && !content_accepted(#[trigger] cs[n]) && forall|i: int|
            0 <= i < n ==> content_accepted(#[trigger] cs[i])
}

/// The index of the first transition text that does not affect as many tapes as the first one.
pub open spec fn first_mismatch(cs: Seq<ContentSpec>) -> int {
    choose|n: int|
        0 <= n < cs.len() && (#[trigger] cs[n]).reads.len() != cs[0].reads.len() && forall|i: int|
            0 <= i < n ==> (#[trigger] cs[i]).reads.len() == cs[0].reads.len()
}

/// Creates the transitions of a rule, in order.
fn create_transitions(contents: Vec<TransitionText>) -> (res: Result<Vec<TuringTransition>, (TuringError, usize)>)
    ensures
        res is Ok <==> contents_accepted(content_views(contents@)),
        res matches Err((e, n)) ==> (e is TransitionArgsError || e is IllegalActionError) && n == first_refused(
            content_views(contents@),
        ) && n < contents@.len() && create_error(content_views(contents@)[n as int], e),
        res matches Ok(ts) ==> ts@.len() == contents@.len() && forall|i: int|
            0 <= i < ts@.len() ==> (#[trigger] ts@[i])@ == content_transition(contents@[i]@),
{
    let ghost cs = content_views(contents@);
    let ghost all = contents@;
    let mut rest = contents;
    let mut ts: Vec<TuringTransition> = Vec::new();
    while rest.len() > 0
        invariant
            ts@.len() + rest@.len() == all.len(),
            rest@ == all.skip(ts@.len() as int),
            cs == content_views(all),
            all == contents@,
            forall|i: int| 0 <= i < ts@.len() ==> content_accepted(#[trigger] cs[i]),
            forall|i: int| 0 <= i < ts@.len() ==> (#[trigger] ts@[i])@ == content_transition(all[i]@),
        decreases rest.len(),
    {
        let ghost m = ts@.len() as int;
        let c = rest.remove(0);
        assert(c == all[m]);
        assert(cs[m] == c@);
        assert(rest@ =~= all.skip(m + 1));
        let TransitionText { reads, writes, dirs, .. } = c;
        match TuringTransition::create(reads, writes, dirs) {
            Ok(t) => {
                ts.push(t);
            },
            Err(e) => {
                assert(!content_accepted(cs[m]));
                let n = ts.len();
                proof {
                    let c = first_refused(cs);
                    assert(0 <= c < cs.len() && !content_accepted(cs[c]) && forall|i: int|
                        0 <= i < c ==> content_accepted(#[trigger] cs[i]));
                    if c < m {
                        assert(content_accepted(cs[c]));
                    }
                    if c > m {
                        assert(content_accepted(cs[m]));
                    }
                }
                return Err((e, n));
            },
        }
    }
    Ok(ts)
}

/// Builds the graph that the rules of a machine describe (see [graph_of_rules]);
/// when a rule is refused, gives the error and the index of that rule.
pub(crate) fn build_graph(rules: Vec<RuleText>) -> (res: Result<TuringMachineGraph, (TuringError, usize)>)
    requires
        3 * rules@.len() <= usize::MAX,
        forall|n: int| 0 <= n < rules@.len() ==> (#[trigger] rules@[n]).contents@.len() >= 1,
    ensures
        res is Ok <==> graph_of_rules(rule_views(rules@)) is Some,
        res matches Ok(g) ==> g.wf() && graph_of_rules(rule_views(rules@)) == Some(g@),
        res matches Err((e, n)) ==> (e is IllegalActionError || e is TransitionArgsError
            || e is IncompatibleTransitionError) && n == refused_rule(rule_views(rules@)) && n < rules@.len()
            && graph_error(rule_views(rules@), e),
{
    let ghost rs = rule_views(rules@);
    let ghost all = rules@;
    let mut rest = rules;
    let mut graph: Option<TuringMachineGraph> = None;
    let mut index: usize = 0;
    let ghost mut n: int = 0;
    while rest.len() > 0
        invariant
            0 <= n <= all.len(),
            index == n,
            rest@ == all.skip(n),
            rs == rule_views(all),
            all == rules@,
            3 * all.len() <= usize::MAX,
            forall|j: int| 0 <= j < all.len() ==> (#[trigger] all[j]).contents@.len() >= 1,
            n == 0 <==> graph is None,
            graph matches Some(g) ==> g.wf() && g@.states.len() <= 2 + 2 * n && graph_of_rules(rs)
                == apply_rules(g@, rs.skip(n)) && refused_rule(rs) == n + refusal_index(g@, rs.skip(n))
                && rs[0].contents[0].reads.len() >= 2 && contents_accepted(rs[0].contents)
                && forall|e: TuringError| #[trigger] graph_error(rs, e) == rules_error(g@, rs.skip(n), e),
        decreases rest.len(),
    {
        let rule = rest.remove(0);
        assert(rule == all[n]);
        assert(rest@ =~= all.skip(n + 1));
        let ghost r = rs[n];
        assert(rs.skip(n).drop_first() =~= rs.skip(n + 1));
        assert(rs.skip(n)[0] == r);
        let ghost g_old = match graph { Some(ref g) => g@, None => initial_graph(1) };
        let RuleText { from, contents, to, .. } = rule;
        assert(r.contents == content_views(contents@));
        assert(n == 0 ==> rs[0] == r);
        let ts = match create_transitions(contents) {
            Ok(ts) => ts,
            Err((e, _)) => {
                assert(!contents_accepted(r.contents));
                assert(apply_rule(g_old, r) is None);
                assert(apply_rules(g_old, rs.skip(n)) is None);
                assert(refusal_index(g_old, rs.skip(n)) == 0);
                return Err((e, index));
            },
        };
        let mut g = match graph {
            Some(g) => g,
            None => {
                assert(r.contents[0] == contents@[0]@);
                assert(ts@[0]@ == content_transition(r.contents[0]));
                let k = ts[0].chars_read.len() - 1;
                match TuringMachineGraph::new(k) {
                    Ok(g) => g,
                    Err(e) => {
                        return Err((e, index));
                    },
                }
            },
        };
        assert(graph_of_rules(rs) == apply_rules(g@, rs.skip(n)));
        assert(refused_rule(rs) == n + refusal_index(g@, rs.skip(n)));
        let ghost g0 = g@;
        let from_index = g.add_state(&from);
        let ghost g1 = g@;
        let to_index = g.add_state(&to);
        let ghost g2 = g@;
        assert(g1 == with_named_state(g0, r.from) && from_index == named_index(g0, r.from));
        assert(g2 == with_named_state(g1, r.to) && to_index == named_index(g1, r.to));
        let mut rest_ts = ts;
        let ghost cs = r.contents;
        assert(cs.skip(0) =~= cs);
        assert(forall|i: int| 0 <= i < cs.len() ==> cs[i] == (#[trigger] contents@[i])@);
        let ghost mut m: int = 0;
        while rest_ts.len() > 0
            invariant
                0 <= m <= cs.len(),
                rest_ts@.len() == cs.len() - m,
                forall|i: int| 0 <= i < rest_ts@.len() ==> (#[trigger] rest_ts@[i])@ == content_transition(cs[m + i]),
                g.wf(),
                g@.states.len() == g2.states.len(),
                g@.k == g2.k,
                from_index < g2.states.len(),
                to_index < g2.states.len(),
                rs == rule_views(rules@),
                0 <= n < rs.len(),
                rs.skip(n).len() > 0,
                rs.skip(n)[0] == r,
                cs == r.contents,
                contents_accepted(r.contents),
                graph_of_rules(rs) == apply_rules(g0, rs.skip(n)),
                refused_rule(rs) == n + refusal_index(g0, rs.skip(n)),
                index == n,
                g1 == with_named_state(g0, r.from),
                from_index == named_index(g0, r.from),
                g2 == with_named_state(g1, r.to),
                to_index == named_index(g1, r.to),
                forall|e: TuringError| #[trigger] graph_error(rs, e) == rules_error(g0, rs.skip(n), e),
                forall|e: TuringError| #[trigger] contents_error(g2, from_index as int, cs, to_index as int, e)
                    == contents_error(g@, from_index as int, cs.skip(m), to_index as int, e),
                append_contents(g2, from_index as int, cs, to_index as int) == append_contents(
                    g@,
                    from_index as int,
                    cs.skip(m),
                    to_index as int,
                ),
            decreases rest_ts.len(),
        {
            let t = rest_ts.remove(0);
            assert(t@ == content_transition(cs.skip(m)[0]));
            assert(cs.skip(m).drop_first() =~= cs.skip(m + 1));
            let ghost gp = g@;
            match g.append_rule_state(from_index, t, to_index) {
                Ok(()) => {
                    proof {
                        assert forall|e: TuringError| #[trigger] contents_error(g2, from_index as int, cs, to_index as int, e)
                            == contents_error(g@, from_index as int, cs.skip(m + 1), to_index as int, e) by {
                            assert(contents_error(gp, from_index as int, cs.skip(m), to_index as int, e)
                                == contents_error(g@, from_index as int, cs.skip(m + 1), to_index as int, e));
                        }
                    }
                },
                Err(e) => {
                    assert(apply_rule(g0, r) is None);
                    proof {
                        assert(!fits_graph(gp, t@));
                        assert(contents_error(gp, from_index as int, cs.skip(m), to_index as int, e));
                        assert(rule_error(g0, r, e));
                        assert(rules_error(g0, rs.skip(n), e));
                        assert(graph_error(rs, e));
                    }
                    return Err((e, index));
                },
            }
            proof {
                m = m + 1;
            }
        }
        assert(cs.skip(m) =~= Seq::<ContentSpec>::empty());
        assert(apply_rule(g0, r) == Some(g@));
        graph = Some(g);
        index = index + 1;
        proof {
            n = n + 1;
        }
    }
    assert(rs.skip(n) =~= Seq::<RuleSpec>::empty());
    match graph {
        Some(g) => Ok(g),
        None => match TuringMachineGraph::new(1) {
            Ok(g) => Ok(g),
            Err(e) => Err((e, 0)),
        },
    }
}

/// The number of line breaks before the position `p`.
pub open spec fn line_breaks(s: Seq<char>, p: int) -> nat
    decreases p,
{
    if p <= 0 {
        0
    } else {
        line_breaks(s, p - 1) + if s[p - 1] == '\n' {
            1nat
        } else {
            0nat
        }
    }
}

/// The position where the line that holds the position `p` starts.
pub open spec fn line_start(s: Seq<char>, p: int) -> int
    decreases p,
{
    if p <= 0 {
        0
    } else if s[p - 1] == '\n' {
        p
    } else {
        line_start(s, p - 1)
    }
}

/// The position where the line that holds the position `p` ends: its line
/// break, or the end of the text.
pub open spec fn line_end(s: Seq<char>, p: int) -> int
    decreases s.len() - p,
{
    if p >= s.len() {
        s.len() as int
    } else if s[p] == '\n' {
        p
    } else {
        line_end(s, p + 1)
    }
}

/// A count from 0 turned into a number from 1 (that stays at the largest `usize`).
pub open spec fn one_based(n: int) -> int {
    if n < usize::MAX {
        n + 1
    } else {
        n
    }
}

/// The line and the column (from 1) of the position `p`.
pub open spec fn position(s: Seq<char>, p: int) -> (usize, usize) {
    (one_based(line_breaks(s, p) as int) as usize, one_based(p - line_start(s, p)) as usize)
}

/// The error of a text that stops following the grammar at the position `p`,
/// where the punctuation `missing` was expected, if any: the line and the
/// column of `p`, and the text of that line.
pub open spec fn parsing_error_at(e: TuringParserError, s: Seq<char>, p: int, missing: Option<char>) -> bool {
    e matches TuringParserError::ParsingError { line_col_pos, value, missing_value } && line_col_pos == Some(
        position(s, p),
    ) && value@ == s.subrange(line_start(s, p), line_end(s, p)) && match missing {
        Some(c) => missing_value matches Some(m) && m@ == seq![c],
        None => missing_value is None,
    }
}

/// The line and the column of the position `p`, and where its line starts and ends.
fn locate(s: &Vec<char>, p: usize) -> (r: (usize, usize, usize, usize))
    requires
        p <= s@.len(),
    ensures
        (r.0, r.1) == position(s@, p as int),
        r.2 as int == line_start(s@, p as int),
        r.3 as int == line_end(s@, p as int),
        r.2 <= p <= r.3 <= s@.len(),
{
    let mut breaks: usize = 0;
    let mut start: usize = 0;
    let mut i: usize = 0;
    while i < p
        invariant
            p <= s@.len(),
            i <= p,
            breaks as nat == line_breaks(s@, i as int),
            breaks <= i,
            start as int == line_start(s@, i as int),
            start <= i,
        decreases p - i,
    {
        if s[i] == '\n' {
            breaks = breaks + 1;
            start = i + 1;
        }
        i = i + 1;
    }
    let mut end: usize = p;
    while end < s.len() && s[end] != '\n'
        invariant
            p <= end <= s@.len(),
            line_end(s@, p as int) == line_end(s@, end as int),
        decreases s.len() - end,
    {
        end = end + 1;
    }
    let line = if breaks < usize::MAX {
        breaks + 1
    } else {
        breaks
    };
    let column = if p - start < usize::MAX {
        p - start + 1
    } else {
        p - start
    };
    (line, column, start, end)
}

/// The error of a text that stops following the grammar at the position `p`.
fn parsing_error(text: &str, p: usize, missing: Option<char>) -> (e: TuringParserError)
    requires
        p <= text@.len(),
    ensures
        parsing_error_at(e, text@, p as int, missing),
{
    let s = chars_of(text);
    let (line, column, start, end) = locate(&s, p);
    let missing_value = match missing {
        Some(c) => {
            let mut m = String::new();
            string_push(&mut m, c);
            Some(m)
        },
        None => None,
    };
    TuringParserError::ParsingError {
        line_col_pos: Some((line, column)),
        value: string_between(&s, start, end),
        missing_value,
    }
}

/// Every transition of a rule affects as many tapes as its first one.
pub open spec fn same_tapes(cs: Seq<ContentSpec>) -> bool {
    forall|i: int| 0 <= i < cs.len() ==> (#[trigger] cs[i]).reads.len() == cs[0].reads.len()
}

/// Parses a turing machine graph from the content of a string.
///
/// Each rule `q_a { t_0 | ... | t_n } q_b;` adds the states `q_a` and `q_b`
/// when missing, then the transitions `t_0`, ..., `t_n` from `q_a` to `q_b`.
/// The first transition of the text gives the number of tapes. If the given
/// string holds no rule, the graph of one writing tape is returned.
///
/// # Errors
/// * [TuringParserError::ParsingError] if the text does not follow the grammar.
/// * [TuringParserError::EncounteredTuringError] if a rule is refused (see [graph_of_rules]).
pub fn parse_turing_graph_string(turing_mach: String) -> (res: Result<TuringMachineGraph, TuringParserError>)
    ensures
        match parse_machine(turing_mach@) {
            None => res matches Err(e) && parsing_error_at(
                e,
                turing_mach@,
                machine_failure(turing_mach@).0,
                machine_failure(turing_mach@).1,
            ),
            Some(rs) => match graph_of_rules(rs) {
                Some(g) => res matches Ok(graph) && graph.wf() && graph@ == g,
                None => {
                    let span = machine_spans(turing_mach@)[refused_rule(rs) as int];
                    res matches Err(e) && e matches TuringParserError::EncounteredTuringError {
                        line_col_pos,
                        turing_error,
                        value,
                    } && line_col_pos == Some(position(turing_mach@, span.0)) && value@ == turing_mach@.subrange(
                        span.0,
                        span.1,
                    ) && (turing_error is IllegalActionError || turing_error is TransitionArgsError
                        || turing_error is IncompatibleTransitionError) && graph_error(rs, turing_error)
                },
            },
        },
{
    match TuringGrammar::machine(turing_mach.as_str()) {
        None => {
            let (p, missing) = TuringGrammar::machine_failure(turing_mach.as_str());
            Err(parsing_error(turing_mach.as_str(), p, missing))
        },
        Some(rules) => {
            let mut spans: Vec<(usize, usize)> = Vec::new();
            let mut i: usize = 0;
            while i < rules.len()
                invariant
                    i <= rules@.len(),
                    spans@.len() == i,
                    forall|n: int| 0 <= n < i ==> (#[trigger] spans@[n]) == (rules@[n].start, rules@[n].end),
                decreases rules.len() - i,
            {
                spans.push((rules[i].start, rules[i].end));
                i = i + 1;
            }
            let ghost rs = rules@;
            match build_graph(rules) {
                Ok(graph) => Ok(graph),
                Err((e, n)) => {
                    let (start, end) = spans[n];
                    assert(spans_of(rs)[n as int] == (start as int, end as int));
                    let s = chars_of(turing_mach.as_str());
                    let (line, column, _, _) = locate(&s, start);
                    Err(
                        TuringParserError::EncounteredTuringError {
                            line_col_pos: Some((line, column)),
                            turing_error: e,
                            value: string_between(&s, start, end),
                        },
                    )
                },
            }
        },
    }
}

/// Parses a string containing a transition of the form :
/// * `q_i { transition } q_j`
/// * Or even :  `q_i { transition_0 | ... | transition_n } q_j`
///
/// Where each `transition` follows the form :  `a_0, a_1, ..., a_{n-1} -> D_0, b_1, D_1, b_2, D_2, ..., b_{n-1}, D_{n-1}`.
/// Returns the name of the source state, the transitions in order, and the name of the target state.
///
/// When giving multiple transitions, each one must affect the same number of tapes or an error will be returned.
///
/// # Errors
/// * [TuringParserError::ParsingError] if the text is not such a rule.
/// * [TuringParserError::EncounteredTuringError] if [TuringTransition::create]
///   refuses a transition, or if the transitions do not affect the same number of tapes.
pub fn parse_transition_string(to_parse: String) -> (res: Result<(String, Vec<TuringTransition>, String), TuringParserError>)
    ensures
        match parse_rule_only(to_parse@) {
            None => res matches Err(e) && parsing_error_at(
                e,
                to_parse@,
                rule_only_failure(to_parse@).0,
                rule_only_failure(to_parse@).1,
            ),
            Some(r) => if contents_accepted(r.contents) && same_tapes(r.contents) {
                res matches Ok((from, ts, to)) && from@ == r.from && to@ == r.to && ts@.len() == r.contents.len()
                    && forall|i: int| 0 <= i < ts@.len() ==> (#[trigger] ts@[i])@ == content_transition(r.contents[i])
            } else {
                let n = if contents_accepted(r.contents) {
                    first_mismatch(r.contents)
                } else {
                    first_refused(r.contents)
                };
                let span = rule_content_spans(to_parse@, ws(to_parse@, 0))[n];
                res matches Err(e) && e matches TuringParserError::EncounteredTuringError {
                    line_col_pos,
                    turing_error,
                    value,
                } && line_col_pos == Some(position(to_parse@, span.0)) && value@ == to_parse@.subrange(span.0, span.1)
                    && (if contents_accepted(r.contents) {
                    turing_error is IncompatibleTransitionError
                } else {
                    turing_error is TransitionArgsError || turing_error is IllegalActionError
                })
            },
        },
{
    match TuringGrammar::rule(to_parse.as_str()) {
        None => {
            let (p, missing) = TuringGrammar::rule_failure(to_parse.as_str());
            Err(parsing_error(to_parse.as_str(), p, missing))
        },
        Some(rule) => {
            let ghost r = rule@;
            let RuleText { from, contents, to, .. } = rule;
            assert(forall|i: int| 0 <= i < r.contents.len() ==> r.contents[i] == (#[trigger] contents@[i])@);
            let mut spans: Vec<(usize, usize)> = Vec::new();
            let mut i: usize = 0;
            while i < contents.len()
                invariant
                    i <= contents@.len(),
                    spans@.len() == i,
                    forall|n: int| 0 <= n < i ==> (#[trigger] spans@[n]) == (contents@[n].start, contents@[n].end),
                decreases contents.len() - i,
            {
                spans.push((contents[i].start, contents[i].end));
                i = i + 1;
            }
            let ghost all = contents@;
            assert(r.contents == content_views(all));
            let s = chars_of(to_parse.as_str());
            match create_transitions(contents) {
                Err((e, n)) => {
                    let (start, end) = spans[n];
                    assert(content_spans_of(all)[n as int] == (start as int, end as int));
                    let (line, column, _, _) = locate(&s, start);
                    Err(
                        TuringParserError::EncounteredTuringError {
                            line_col_pos: Some((line, column)),
                            turing_error: e,
                            value: string_between(&s, start, end),
                        },
                    )
                },
                Ok(ts) => {
                    let expected = ts[0].chars_read.len();
                    let mut i: usize = 1;
                    while i < ts.len()
                        invariant
                            1 <= i <= ts@.len(),
                            ts@.len() == r.contents.len(),
                            parse_rule_only(to_parse@) == Some(r),
                            contents_accepted(r.contents),
                            from@ == r.from,
                            to@ == r.to,
                            expected == r.contents[0].reads.len(),
                            forall|j: int| 0 <= j < ts@.len() ==> (#[trigger] ts@[j])@ == content_transition(r.contents[j]),
                            forall|j: int| 0 <= j < i ==> (#[trigger] r.contents[j]).reads.len() == expected,
                            s@ == to_parse@,
                            spans@.len() == ts@.len(),
                            forall|n: int| 0 <= n < spans@.len() ==> (#[trigger] spans@[n]) == (all[n].start, all[n].end),
                            rule_content_spans(to_parse@, ws(to_parse@, 0)) == content_spans_of(all),
                            forall|n: int| 0 <= n < all.len() ==> (#[trigger] all[n]).start <= all[n].end <= to_parse@.len(),
                            all.len() == ts@.len(),
                        decreases ts.len() - i,
                    {
                        let received = ts[i].chars_read.len();
                        if received != expected {
                            assert(ts@[i as int]@ == content_transition(r.contents[i as int]));
                            proof {
                                let c = first_mismatch(r.contents);
                                let k = i as int;
                                assert(0 <= k < r.contents.len() && r.contents[k].reads.len() != r.contents[0].reads.len()
                                    && forall|j: int| 0 <= j < k ==> (#[trigger] r.contents[j]).reads.len() == r.contents[0].reads.len());
                                assert(0 <= c < r.contents.len() && r.contents[c].reads.len() != r.contents[0].reads.len()
                                    && forall|j: int| 0 <= j < c ==> (#[trigger] r.contents[j]).reads.len() == r.contents[0].reads.len());
                                if c < k {
                                    assert(r.contents[c].reads.len() == expected);
                                }
                                if c > k {
                                    assert(r.contents[k].reads.len() == r.contents[0].reads.len());
                                }
                            }
                            let (start, end) = spans[i];
                            assert(content_spans_of(all)[i as int] == (start as int, end as int));
                            let (line, column, _, _) = locate(&s, start);
                            return Err(
                                TuringParserError::EncounteredTuringError {
                                    line_col_pos: Some((line, column)),
                                    turing_error: TuringError::IncompatibleTransitionError { expected, received },
                                    value: string_between(&s, start, end),
                                },
                            );
                        }
                        i = i + 1;
                    }
                    assert(same_tapes(r.contents));
                    assert(contents_accepted(r.contents));
                    Ok((from, ts, to))
                },
            }
        },
    }
}

/// Parses a string containing the content of a transition of the form :
/// `a_0, a_1, ..., a_{n-1} -> D_0, b_1, D_1, b_2, D_2, ..., b_{n-1}, D_{n-1}`.
///
/// # Errors
/// * [TuringParserError::ParsingError] if the text is not such a transition.
/// * [TuringParserError::EncounteredTuringError] if [TuringTransition::create] refuses it.
pub fn parse_transition_content_string(transition: String) -> (res: Result<TuringTransition, TuringParserError>)
    ensures
        match parse_content_only(transition@) {
            None => res matches Err(e) && parsing_error_at(e, transition@, content_only_failure(transition@), None),
            Some(c) => if content_accepted(c) {
                res matches Ok(t) && t@ == content_transition(c)
            } else {
                let start = ws(transition@, 0);
                let end = match parse_content(transition@, start) {
                    Some((_, e)) => e,
                    None => start,
                };
                res matches Err(e) && e matches TuringParserError::EncounteredTuringError {
                    line_col_pos,
                    turing_error,
                    value,
                } && line_col_pos == Some(position(transition@, start)) && value@ == transition@.subrange(start, end)
                    && (turing_error is TransitionArgsError || turing_error is IllegalActionError)
            },
        },
{
    match TuringGrammar::transition(transition.as_str()) {
        None => {
            let p = TuringGrammar::transition_failure(transition.as_str());
            Err(parsing_error(transition.as_str(), p, None))
        },
        Some(c) => {
            let TransitionText { reads, writes, dirs, start, end } = c;
            match TuringTransition::create(reads, writes, dirs) {
                Ok(t) => Ok(t),
                Err(e) => {
                    let s = chars_of(transition.as_str());
                    let (line, column, _, _) = locate(&s, start);
                    Err(
                        TuringParserError::EncounteredTuringError {
                            line_col_pos: Some((line, column)),
                            turing_error: e,
                            value: string_between(&s, start, end),
                        },
                    )
                },
            }
        },
    }
}

/// The characters written by the writes of a transition.
pub open spec fn write_chars(ws: Seq<(char, TuringDirection)>) -> Seq<char> {
    Seq::new(ws.len(), |k: int| ws[k].0)
}

/// The directions of the writing tapes of a transition.
pub open spec fn write_dirs(ws: Seq<(char, TuringDirection)>) -> Seq<TuringDirection> {
    Seq::new(ws.len(), |k: int| ws[k].1)
}

/// What the text of a transition holds, as the grammar reads it.
pub open spec fn transition_content(t: TransitionView) -> ContentSpec {
    ContentSpec {
        reads: t.chars_read,
        writes: write_chars(t.chars_write),
        dirs: seq![t.move_read] + write_dirs(t.chars_write),
    }
}

/// The text `text` stands in `s` from the position `i`.
pub open spec fn text_at(s: Seq<char>, i: int, text: Seq<char>) -> bool {
    &&& 0 <= i
    &&& i + text.len() <= s.len()
    &&& forall|m: int| 0 <= m < text.len() ==> s[i + m] == #[trigger] text[m]
}

/// Skipping stops at once on a character that is neither blank nor the start of a comment.
#[verifier::spinoff_prover]
proof fn lemma_ws_stop(s: Seq<char>, i: int)
    requires
        0 <= i < s.len(),
        !is_blank(s[i]),
        !(s[i] == '/' && i + 1 < s.len() && s[i + 1] == '/'),
    ensures
        ws(s, i) == i,
{
}

/// Skipping one blank before such a character.
#[verifier::spinoff_prover]
proof fn lemma_ws_one(s: Seq<char>, i: int)
    requires
        0 <= i,
        i + 1 < s.len(),
        is_blank(s[i]),
        !is_blank(s[i + 1]),
        !(s[i + 1] == '/' && i + 2 < s.len() && s[i + 2] == '/'),
    ensures
        ws(s, i) == i + 1,
{
    assert(skip(s, i + 1, false) == i + 1);
}

/// The grammar reads back the characters of [chars_text], when what follows
/// them is neither a comment nor, after blanks, a comma.
#[verifier::spinoff_prover]
proof fn lemma_parse_reads_text(s: Seq<char>, i: int, cs: Seq<char>)
    requires
        cs.len() >= 1,
        forall|k: int| 0 <= k < cs.len() ==> is_symbol(#[trigger] cs[k]),
        text_at(s, i, chars_text(cs)),
        i + chars_text(cs).len() < s.len(),
        s[i + chars_text(cs).len()] == ' ',
        ws(s, i + chars_text(cs).len()) < s.len(),
        s[ws(s, i + chars_text(cs).len())] != ',',
        s[ws(s, i + chars_text(cs).len())] != '/',
    ensures
        parse_reads(s, i) == Some((cs, i + chars_text(cs).len())),
    decreases cs.len(),
{
    let text = chars_text(cs);
    assert(s[i] == text[0]);
    if cs.len() == 1 {
        assert(text == cs);
        assert(text.len() == 1);
        assert(seq![s[i]] =~= cs);
    } else {
        let rest = cs.drop_first();
        let rt = chars_text(rest);
        assert(text == seq![cs[0], ',', ' '] + rt);
        assert(s[i + 1] == text[1]);
        assert(s[i + 2] == text[2]);
        assert(rt[0] == rest[0]) by {
            if rest.len() > 1 {
                assert(rt == seq![rest[0], ',', ' '] + chars_text(rest.drop_first()));
            }
        }
        assert(s[i + 3] == text[3]);
        assert(is_symbol(rest[0]));
        lemma_ws_stop(s, i + 1);
        if rest.len() > 1 {
            assert(rt == seq![rest[0], ',', ' '] + chars_text(rest.drop_first()));
            assert(s[i + 4] == text[4]);
        } else {
            assert(rt.len() == 1);
        }
        lemma_ws_one(s, i + 2);
        assert forall|m: int| 0 <= m < rt.len() implies s[i + 3 + m] == #[trigger] rt[m] by {
            assert(text[3 + m] == rt[m]);
        }
        assert forall|k: int| 0 <= k < rest.len() implies is_symbol(#[trigger] rest[k]) by {
            assert(rest[k] == cs[k + 1]);
        }
        lemma_parse_reads_text(s, i + 3, rest);
        assert(seq![s[i]] + rest =~= cs);
    }
}

/// The grammar reads back the moves of [moves_text], when what follows them
/// is not, after blanks, a comma.
#[verifier::spinoff_prover]
proof fn lemma_parse_writes_text(s: Seq<char>, i: int, d: TuringDirection, w: Seq<(char, TuringDirection)>)
    requires
        forall|k: int| 0 <= k < w.len() ==> is_symbol(#[trigger] w[k].0),
        text_at(s, i, moves_text(d, w)),
        ws(s, i + moves_text(d, w).len()) < s.len() ==> s[ws(s, i + moves_text(d, w).len())] != ',',
    ensures
        parse_writes(s, i) == Some((write_chars(w), seq![d] + write_dirs(w), i + moves_text(d, w).len())),
    decreases w.len(),
{
    let text = moves_text(d, w);
    assert(s[i] == text[0]);
    if w.len() == 0 {
        assert(text == seq![dir_letter(d)]);
        assert(write_chars(w) =~= Seq::<char>::empty());
        assert(seq![d] + write_dirs(w) =~= seq![d]);
    } else {
        let rest = w.drop_first();
        let rt = moves_text(w[0].1, rest);
        assert(text == seq![dir_letter(d), ',', ' ', w[0].0, ',', ' '] + rt);
        assert(s[i + 1] == text[1]);
        assert(s[i + 2] == text[2]);
        assert(s[i + 3] == text[3]);
        assert(s[i + 4] == text[4]);
        assert(s[i + 5] == text[5]);
        assert(rt[0] == dir_letter(w[0].1)) by {
            if rest.len() > 0 {
                assert(rt == seq![dir_letter(w[0].1), ',', ' ', rest[0].0, ',', ' '] + moves_text(
                    rest[0].1,
                    rest.drop_first(),
                ));
            }
        }
        assert(s[i + 6] == text[6]);
        assert(is_symbol(w[0].0));
        lemma_ws_stop(s, i + 1);
        lemma_ws_one(s, i + 2);
        lemma_ws_stop(s, i + 4);
        lemma_ws_one(s, i + 5);
        assert forall|m: int| 0 <= m < rt.len() implies s[i + 6 + m] == #[trigger] rt[m] by {
            assert(text[6 + m] == rt[m]);
        }
        assert forall|k: int| 0 <= k < rest.len() implies is_symbol(#[trigger] rest[k].0) by {
            assert(rest[k] == w[k + 1]);
        }
        lemma_parse_writes_text(s, i + 6, w[0].1, rest);
        assert(seq![w[0].0] + write_chars(rest) =~= write_chars(w));
        assert(seq![d] + (seq![w[0].1] + write_dirs(rest)) =~= seq![d] + write_dirs(w));
    }
}

/// The characters of the text of a transition: every character it reads or writes is
/// one that the grammar accepts in a transition.
pub open spec fn transition_symbols(t: TransitionView) -> bool {
    &&& forall|k: int| 0 <= k < t.chars_read.len() ==> is_symbol(#[trigger] t.chars_read[k])
    &&& forall|k: int| 0 <= k < t.chars_write.len() ==> is_symbol(#[trigger] t.chars_write[k].0)
}

/// The grammar reads back the text of a transition written at `i`, when what
/// follows it is not, after blanks, a comma.
#[verifier::spinoff_prover]
proof fn lemma_parse_content_text(s: Seq<char>, i: int, t: TransitionView)
    requires
        t.chars_read.len() >= 1,
        transition_symbols(t),
        text_at(s, i, transition_text(t)),
        ws(s, i + transition_text(t).len()) < s.len() ==> s[ws(s, i + transition_text(t).len())] != ',',
    ensures
        parse_content(s, i) == Some((transition_content(t), i + transition_text(t).len())),
{
    let text = transition_text(t);
    let ct = chars_text(t.chars_read);
    let mt = moves_text(t.move_read, t.chars_write);
    let l = ct.len() as int;
    assert(text == ct + seq![' ', '-', '>', ' '] + mt);
    assert(text_at(s, i, ct)) by {
        assert forall|m: int| 0 <= m < ct.len() implies s[i + m] == #[trigger] ct[m] by {
            assert(text[m] == ct[m]);
        }
    }
    assert(mt[0] == dir_letter(t.move_read)) by {
        if t.chars_write.len() > 0 {
            assert(mt == seq![dir_letter(t.move_read), ',', ' ', t.chars_write[0].0, ',', ' '] + moves_text(
                t.chars_write[0].1,
                t.chars_write.drop_first(),
            ));
        }
    }
    assert(s[i + l] == text[l]);
    assert(s[i + l + 1] == text[l + 1]);
    assert(s[i + l + 2] == text[l + 2]);
    assert(s[i + l + 3] == text[l + 3]);
    assert(s[i + l + 4] == text[l + 4]);
    lemma_ws_one(s, i + l);
    lemma_parse_reads_text(s, i, t.chars_read);
    lemma_ws_one(s, i + l + 3);
    assert(text_at(s, i + l + 4, mt)) by {
        assert forall|m: int| 0 <= m < mt.len() implies s[i + l + 4 + m] == #[trigger] mt[m] by {
            assert(text[l + 4 + m] == mt[m]);
        }
    }
    lemma_parse_writes_text(s, i + l + 4, t.move_read, t.chars_write);
}

/// The first character of the text of a transition is the first one it reads,
/// and it is not followed by another `/`.
#[verifier::spinoff_prover]
proof fn lemma_transition_text_start(t: TransitionView)
    requires
        t.chars_read.len() >= 1,
    ensures
        transition_text(t).len() >= 2,
        transition_text(t)[0] == t.chars_read[0],
        transition_text(t)[1] == ',' || transition_text(t)[1] == ' ',
{
    let ct = chars_text(t.chars_read);
    let text = transition_text(t);
    assert(text == ct + seq![' ', '-', '>', ' '] + moves_text(t.move_read, t.chars_write));
    if t.chars_read.len() > 1 {
        assert(ct == seq![t.chars_read[0], ',', ' '] + chars_text(t.chars_read.drop_first()));
        assert(text[1] == ct[1]);
    } else {
        assert(ct == t.chars_read);
        assert(text[1] == ' ');
    }
    assert(text[0] == ct[0]);
}

/// The text of a transition ([TuringTransition::to_string]) is read back by the
/// grammar as that transition: [parse_transition_content_string] gives back the
/// same transition (without its target state) whenever [TuringTransition::create]
/// accepts it. This needs the transition to read at least one tape, and every
/// character that it reads or writes to be one that the grammar accepts.
#[verifier::spinoff_prover]
pub proof fn lemma_transition_text_parses(t: TransitionView)
    requires
        t.chars_read.len() >= 1,
        transition_symbols(t),
    ensures
        parse_content_only(transition_text(t)) == Some(transition_content(t)),
        content_transition(transition_content(t)) == (TransitionView { index_to_state: None, ..t }),
{
    let s = transition_text(t);
    assert(text_at(s, 0, s)) by {
        assert forall|m: int| 0 <= m < s.len() implies s[0 + m] == #[trigger] s[m] by {}
    }
    assert(ws(s, s.len() as int) == s.len());
    lemma_parse_content_text(s, 0, t);
    lemma_transition_text_start(t);
    lemma_ws_stop(s, 0);
    assert(zip_writes(write_chars(t.chars_write), seq![t.move_read] + write_dirs(t.chars_write)) =~= t.chars_write);
}

/// How a state is written in a machine: `q_name`.
pub open spec fn state_ref_text(name: Seq<char>) -> Seq<char> {
    seq!['q', '_'] + name
}

/// A rule of one transition between two states, by their names.
pub type RuleLine = (Seq<char>, TransitionView, Seq<char>);

/// The text of a rule of one transition: `q_from { t } q_to;` and an empty line.
pub open spec fn rule_line_text(x: RuleLine) -> Seq<char> {
    state_ref_text(x.0) + seq![' ', '{', ' '] + transition_text(x.1) + seq![' ', '}', ' '] + state_ref_text(x.2)
        + seq![';', '\n', '\n']
}

/// The text of rules of one transition, one after the other.
pub open spec fn rules_text(xs: Seq<RuleLine>) -> Seq<char>
    decreases xs.len(),
{
    if xs.len() == 0 {
        Seq::empty()
    } else {
        rule_line_text(xs[0]) + rules_text(xs.drop_first())
    }
}

/// The rule that the grammar reads in the text of a rule of one transition.
pub open spec fn line_rule(x: RuleLine) -> RuleSpec {
    RuleSpec { from: x.0, contents: seq![transition_content(x.1)], to: x.2 }
}

/// The rules that the grammar reads in the texts of rules of one transition.
pub open spec fn line_rules(xs: Seq<RuleLine>) -> Seq<RuleSpec> {
    xs.map_values(|x: RuleLine| line_rule(x))
}

/// The rules of one transition that leave the state `i`, in the order of its transitions.
pub open spec fn state_lines(g: GraphView, i: int) -> Seq<RuleLine> {
    g.states[i].transitions.map_values(
        |t: TransitionView| (g.states[i].name, t, g.states[t.index_to_state->0 as int].name),
    )
}

/// The rules of one transition that leave the first `n` states, state by state.
pub open spec fn lines_upto(g: GraphView, n: nat) -> Seq<RuleLine>
    decreases n,
{
    if n == 0 {
        Seq::empty()
    } else {
        lines_upto(g, (n - 1) as nat) + state_lines(g, n - 1)
    }
}

/// Every transition of a graph as a rule of one transition, state by state
/// and in the order of the transitions of each state.
pub open spec fn graph_lines(g: GraphView) -> Seq<RuleLine> {
    lines_upto(g, g.states.len())
}

/// Adding a rule at the end of rules adds its text at the end.
#[verifier::spinoff_prover]
pub proof fn lemma_rules_text_push(xs: Seq<RuleLine>, x: RuleLine)
    ensures
        rules_text(xs.push(x)) == rules_text(xs) + rule_line_text(x),
    decreases xs.len(),
{
    if xs.len() == 0 {
        assert(xs.push(x).drop_first() =~= Seq::<RuleLine>::empty());
        assert(rules_text(Seq::<RuleLine>::empty()) == Seq::<char>::empty());
        assert(xs.push(x)[0] == x);
        assert(rules_text(xs.push(x)) =~= rules_text(xs) + rule_line_text(x));
    } else {
        lemma_rules_text_push(xs.drop_first(), x);
        assert(xs.push(x).drop_first() =~= xs.drop_first().push(x));
        assert(rules_text(xs.push(x)) =~= rules_text(xs) + rule_line_text(x));
    }
}

/// Turns the given graph into its equivalent [String] value: every transition
/// of every state, in order, as a rule `q_from { transition } q_to;`, which the
/// parser reads back (see [lemma_graph_text_parses]).
///
/// This function is therefore very useful to save graphs.
#[verifier::spinoff_prover]
pub fn graph_to_string(tm: &TuringMachineGraph) -> (res: String)
    requires
        tm.wf(),
    ensures
        res@ == rules_text(graph_lines(tm@)),
{
    let ghost g = tm@;
    let states = tm.get_states();
    let mut res = String::new();
    let mut i: usize = 0;
    while i < states.len()
        invariant
            g == tm@,
            graph_wf(g),
            state_views(states@) == g.states,
            i <= states@.len(),
            res@ == rules_text(lines_upto(g, i as nat)),
        decreases states.len() - i,
    {
        let state = &states[i];
        assert(state@ == g.states[i as int]);
        let ghost before = lines_upto(g, i as nat);
        let ghost lines = state_lines(g, i as int);
        assert(lines.take(0) =~= Seq::<RuleLine>::empty());
        assert(before + lines.take(0) =~= before);
        let mut n: usize = 0;
        while n < state.transitions.len()
            invariant
                g == tm@,
                graph_wf(g),
                state_views(states@) == g.states,
                i < states@.len(),
                state@ == g.states[i as int],
                lines == state_lines(g, i as int),
                n <= state.transitions@.len(),
                res@ == rules_text(before + lines.take(n as int)),
            decreases state.transitions.len() - n,
        {
            let t = &state.transitions[n];
            assert(t@ == g.states[i as int].transitions[n as int]);
            assert(crate::turing_graph::transition_fits(g.states[i as int].transitions[n as int], g.k, g.states.len()));
            let to = match t.index_to_state {
                Some(j) => j,
                None => 0,
            };
            let target = &states[to];
            assert(target@ == g.states[to as int]);
            assert(lines[n as int] == (state@.name, t@, target@.name));
            push_str(&mut res, "q_");
            res.append(state.name.as_str());
            push_str(&mut res, " { ");
            let text = t.to_string();
            res.append(text.as_str());
            push_str(&mut res, " } q_");
            res.append(target.name.as_str());
            push_str(&mut res, ";\n\n");
            proof {
                reveal_strlit("q_");
                reveal_strlit(" { ");
                reveal_strlit(" } q_");
                reveal_strlit(";\n\n");
                assert(lines.take(n + 1) =~= lines.take(n as int).push(lines[n as int]));
                assert(before + lines.take(n + 1) =~= (before + lines.take(n as int)).push(lines[n as int]));
                lemma_rules_text_push(before + lines.take(n as int), lines[n as int]);
            }
            assert(res@ =~= rules_text(before + lines.take(n + 1)));
            n = n + 1;
        }
        assert(lines.take(lines.len() as int) =~= lines);
        i = i + 1;
    }
    res
}

/// A name that the grammar reads as the name of a state: not empty, made of
/// letters, digits and `_`.
pub open spec fn name_ok(name: Seq<char>) -> bool {
    name.len() >= 1 && forall|k: int| 0 <= k < name.len() ==> is_name_char(#[trigger] name[k])
}

/// A rule of one transition that the grammar reads back.
pub open spec fn line_ok(x: RuleLine) -> bool {
    &&& name_ok(x.0)
    &&& name_ok(x.2)
    &&& x.1.chars_read.len() >= 1
    &&& transition_symbols(x.1)
}

/// A graph that [graph_to_string] writes in a text that the grammar reads
/// back: the names of its states and the characters of its transitions are
/// ones that the grammar accepts.
pub open spec fn graph_printable(g: GraphView) -> bool {
    &&& forall|i: int| 0 <= i < g.states.len() ==> name_ok(#[trigger] g.states[i].name)
    &&& forall|i: int, n: int|
        0 <= i < g.states.len() && 0 <= n < g.states[i].transitions.len() ==> transition_symbols(
            #[trigger] g.states[i].transitions[n],
        )
}

/// Skipping two blanks before a character that is neither blank nor the
/// start of a comment, or before the end of the text.
#[verifier::spinoff_prover]
proof fn lemma_ws_two(s: Seq<char>, i: int)
    requires
        0 <= i,
        i + 1 < s.len(),
        is_blank(s[i]),
        is_blank(s[i + 1]),
        i + 2 < s.len() ==> !is_blank(s[i + 2]) && !(s[i + 2] == '/' && i + 3 < s.len() && s[i + 3] == '/'),
    ensures
        ws(s, i) == i + 2,
{
    if i + 2 < s.len() {
        lemma_ws_one(s, i + 1);
    } else {
        assert(skip(s, i + 2, false) == i + 2);
    }
    assert(skip(s, i, false) == skip(s, i + 1, false));
}

/// The grammar reads a name up to its end.
#[verifier::spinoff_prover]
proof fn lemma_name_end_text(s: Seq<char>, j: int, name: Seq<char>)
    requires
        text_at(s, j, name),
        forall|k: int| 0 <= k < name.len() ==> is_name_char(#[trigger] name[k]),
        j + name.len() < s.len() ==> !is_name_char(s[j + name.len()]),
    ensures
        name_end(s, j) == j + name.len(),
    decreases name.len(),
{
    if name.len() > 0 {
        assert(s[j] == name[0]);
        let rest = name.drop_first();
        assert forall|m: int| 0 <= m < rest.len() implies s[j + 1 + m] == #[trigger] rest[m] by {
            assert(name[1 + m] == rest[m]);
        }
        assert forall|k: int| 0 <= k < rest.len() implies is_name_char(#[trigger] rest[k]) by {
            assert(name[k + 1] == rest[k]);
        }
        lemma_name_end_text(s, j + 1, rest);
    }
}

/// The grammar reads back a state written `q_name`.
#[verifier::spinoff_prover]
proof fn lemma_parse_state_text(s: Seq<char>, i: int, name: Seq<char>)
    requires
        name_ok(name),
        text_at(s, i, state_ref_text(name)),
        i + 2 + name.len() < s.len() ==> !is_name_char(s[i + 2 + name.len()]),
    ensures
        parse_state(s, i) == Some((name, i + 2 + name.len())),
{
    let text = state_ref_text(name);
    assert(s[i] == text[0]);
    assert(s[i + 1] == text[1]);
    assert forall|m: int| 0 <= m < name.len() implies s[i + 2 + m] == #[trigger] name[m] by {
        assert(text[2 + m] == name[m]);
    }
    lemma_name_end_text(s, i + 2, name);
    assert(s.subrange(i + 2, i + 2 + name.len()) =~= name);
}

/// The grammar reads back the rule of one transition written at `i`, up to
/// the `;` that ends it.
#[verifier::spinoff_prover]
proof fn lemma_parse_rule_line(s: Seq<char>, i: int, x: RuleLine)
    requires
        line_ok(x),
        text_at(s, i, rule_line_text(x)),
    ensures
        parse_rule(s, i) == Some((line_rule(x), i + rule_line_text(x).len() - 3)),
{
    let text = rule_line_text(x);
    let a = state_ref_text(x.0);
    let t = transition_text(x.1);
    let b = state_ref_text(x.2);
    assert(text == a + seq![' ', '{', ' '] + t + seq![' ', '}', ' '] + b + seq![';', '\n', '\n']);
    let al = a.len() as int;
    let e1 = i + al;
    let c = e1 + 3;
    let e2 = c + t.len();
    let e4 = e2 + 3 + b.len();
    assert(text_at(s, i, a)) by {
        assert forall|m: int| 0 <= m < a.len() implies s[i + m] == #[trigger] a[m] by {
            assert(text[m] == a[m]);
        }
    }
    assert(s[e1] == text[al]);
    assert(s[e1 + 1] == text[al + 1]);
    assert(s[e1 + 2] == text[al + 2]);
    lemma_parse_state_text(s, i, x.0);
    lemma_ws_one(s, e1);
    lemma_transition_text_start(x.1);
    assert(s[c] == text[al + 3]);
    assert(s[c + 1] == text[al + 4]);
    lemma_ws_one(s, e1 + 2);
    assert(text_at(s, c, t)) by {
        assert forall|m: int| 0 <= m < t.len() implies s[c + m] == #[trigger] t[m] by {
            assert(text[al + 3 + m] == t[m]);
        }
    }
    let k = al + 3 + t.len();
    assert(s[e2] == text[k]);
    assert(s[e2 + 1] == text[k + 1]);
    assert(s[e2 + 2] == text[k + 2]);
    assert(s[e2 + 3] == text[k + 3]);
    lemma_ws_one(s, e2);
    lemma_parse_content_text(s, c, x.1);
    assert(parse_more_contents(s, e2) == Some((Seq::<ContentSpec>::empty(), e2)));
    lemma_ws_one(s, e2 + 2);
    assert(text_at(s, e2 + 3, b)) by {
        assert forall|m: int| 0 <= m < b.len() implies s[e2 + 3 + m] == #[trigger] b[m] by {
            assert(text[k + 3 + m] == b[m]);
        }
    }
    assert(s[e4] == text[k + 3 + b.len()]);
    lemma_parse_state_text(s, e2 + 3, x.2);
    assert(seq![transition_content(x.1)] + Seq::<ContentSpec>::empty() =~= seq![transition_content(x.1)]);
}

/// The grammar reads back rules of one transition written one after the
/// other from `i` to the end of the text.
#[verifier::spinoff_prover]
proof fn lemma_parse_lines(s: Seq<char>, i: int, xs: Seq<RuleLine>)
    requires
        forall|k: int| 0 <= k < xs.len() ==> line_ok(#[trigger] xs[k]),
        text_at(s, i, rules_text(xs)),
        i + rules_text(xs).len() == s.len(),
    ensures
        parse_rules(s, i) == Some(line_rules(xs)),
    decreases xs.len(),
{
    if xs.len() == 0 {
        assert(line_rules(xs) =~= Seq::<RuleSpec>::empty());
    } else {
        let text = rules_text(xs);
        let first = rule_line_text(xs[0]);
        let rest = xs.drop_first();
        assert(text == first + rules_text(rest));
        assert(line_ok(xs[0]));
        assert(text_at(s, i, first)) by {
            assert forall|m: int| 0 <= m < first.len() implies s[i + m] == #[trigger] first[m] by {
                assert(text[m] == first[m]);
            }
        }
        lemma_parse_rule_line(s, i, xs[0]);
        let e = i + first.len() - 3;
        assert(first == state_ref_text(xs[0].0) + seq![' ', '{', ' '] + transition_text(xs[0].1) + seq![
            ' ',
            '}',
            ' ',
        ] + state_ref_text(xs[0].2) + seq![';', '\n', '\n']);
        assert(s[e] == first[first.len() - 3]);
        assert(s[e + 1] == first[first.len() - 2]);
        assert(s[e + 2] == first[first.len() - 1]);
        lemma_ws_stop(s, e);
        let next = i + first.len();
        if rest.len() > 0 {
            let rt = rules_text(rest);
            assert(rt == rule_line_text(rest[0]) + rules_text(rest.drop_first()));
            assert(rt[0] == 'q');
            assert(s[next] == text[first.len() as int]);
        }
        lemma_ws_two(s, e + 1);
        assert forall|m: int| 0 <= m < rules_text(rest).len() implies s[next + m] == #[trigger] rules_text(
            rest,
        )[m] by {
            assert(text[first.len() + m] == rules_text(rest)[m]);
        }
        assert forall|k: int| 0 <= k < rest.len() implies line_ok(#[trigger] rest[k]) by {
            assert(rest[k] == xs[k + 1]);
        }
        lemma_parse_lines(s, next, rest);
        assert(seq![line_rule(xs[0])] + line_rules(rest) =~= line_rules(xs));
    }
}

/// Every rule of one transition of a graph is read back by the grammar.
#[verifier::spinoff_prover]
proof fn lemma_graph_lines_ok(g: GraphView, n: nat)
    requires
        graph_wf(g),
        graph_printable(g),
        n <= g.states.len(),
    ensures
        forall|k: int| 0 <= k < lines_upto(g, n).len() ==> line_ok(#[trigger] lines_upto(g, n)[k]),
    decreases n,
{
    if n > 0 {
        lemma_graph_lines_ok(g, (n - 1) as nat);
        let before = lines_upto(g, (n - 1) as nat);
        let lines = state_lines(g, n - 1);
        assert forall|k: int| 0 <= k < lines_upto(g, n).len() implies line_ok(#[trigger] lines_upto(g, n)[k]) by {
            if k < before.len() {
                assert(lines_upto(g, n)[k] == before[k]);
            } else {
                let m = k - before.len();
                let t = g.states[n - 1].transitions[m];
                assert(lines_upto(g, n)[k] == lines[m]);
                assert(crate::turing_graph::transition_fits(t, g.k, g.states.len()));
                assert(transition_symbols(t));
            }
        }
    }
}

/// The grammar reads back, as a whole text, rules of one transition written
/// one after the other.
#[verifier::spinoff_prover]
proof fn lemma_lines_parse(xs: Seq<RuleLine>)
    requires
        forall|k: int| 0 <= k < xs.len() ==> line_ok(#[trigger] xs[k]),
    ensures
        parse_machine(rules_text(xs)) == Some(line_rules(xs)),
{
    let s = rules_text(xs);
    assert(text_at(s, 0, s)) by {
        assert forall|m: int| 0 <= m < s.len() implies s[0 + m] == #[trigger] s[m] by {}
    }
    if xs.len() > 0 {
        assert(s == rule_line_text(xs[0]) + rules_text(xs.drop_first()));
        assert(s[0] == 'q');
        lemma_ws_stop(s, 0);
    }
    lemma_parse_lines(s, 0, xs);
}

/// The text that [graph_to_string] writes is read back by the parser: the
/// grammar finds in it, in order, one rule per transition of the graph, from
/// the state that holds it to the state it leads to, by their names (this needs
/// names and characters that the grammar accepts). Parsing that text adds the
/// transitions of each state in the same order; the indexes of the states can
/// differ from those of the graph, as the parser numbers the states in the
/// order the text names them.
#[verifier::spinoff_prover]
pub proof fn lemma_graph_text_parses(g: GraphView)
    requires
        graph_wf(g),
        graph_printable(g),
    ensures
        parse_machine(rules_text(graph_lines(g))) == Some(line_rules(graph_lines(g))),
{
    lemma_graph_lines_ok(g, g.states.len());
    lemma_lines_parse(graph_lines(g));
}

/// Where a transition of a graph stands: the index of its state, its index
/// among the transitions of that state, and the index of its target.
pub type Place = (int, int, int);

/// The places of the transitions of the state `i`, in order.
pub open spec fn state_places(g: GraphView, i: int) -> Seq<Place> {
    Seq::new(g.states[i].transitions.len(), |n: int| (i, n, g.states[i].transitions[n].index_to_state->0 as int))
}

/// The places of the transitions of the first `m` states, state by state.
pub open spec fn places_upto(g: GraphView, m: nat) -> Seq<Place>
    decreases m,
{
    if m == 0 {
        Seq::empty()
    } else {
        places_upto(g, (m - 1) as nat) + state_places(g, m - 1)
    }
}

/// The places of the transitions of a graph, in the order of [graph_lines].
pub open spec fn graph_places(g: GraphView) -> Seq<Place> {
    places_upto(g, g.states.len())
}

/// The transition at a place.
pub open spec fn placed(g: GraphView, p: Place) -> TransitionView {
    g.states[p.0].transitions[p.1]
}

/// The rules of one transition of the first `m` states are those of their places.
#[verifier::spinoff_prover]
proof fn lemma_lines_places(g: GraphView, m: nat)
    requires
        graph_wf(g),
        m <= g.states.len(),
    ensures
        lines_upto(g, m).len() == places_upto(g, m).len(),
        forall|r: int| 0 <= r < places_upto(g, m).len() ==> {
            let p = #[trigger] places_upto(g, m)[r];
            &&& 0 <= p.0 < m
            &&& 0 <= p.1 < g.states[p.0].transitions.len()
            &&& g.states[p.0].transitions[p.1].index_to_state == Some(p.2 as usize)
            &&& 0 <= p.2 < g.states.len()
            &&& p.2 <= usize::MAX
            &&& lines_upto(g, m)[r] == (g.states[p.0].name, placed(g, p), g.states[p.2].name)
        },
    decreases m,
{
    if m > 0 {
        lemma_lines_places(g, (m - 1) as nat);
        let i = m - 1;
        let lb = lines_upto(g, (m - 1) as nat);
        let pb = places_upto(g, (m - 1) as nat);
        assert forall|r: int| 0 <= r < places_upto(g, m).len() implies {
            let p = #[trigger] places_upto(g, m)[r];
            &&& 0 <= p.0 < m
            &&& 0 <= p.1 < g.states[p.0].transitions.len()
            &&& g.states[p.0].transitions[p.1].index_to_state == Some(p.2 as usize)
            &&& 0 <= p.2 < g.states.len()
            &&& p.2 <= usize::MAX
            &&& lines_upto(g, m)[r] == (g.states[p.0].name, placed(g, p), g.states[p.2].name)
        } by {
            if r < pb.len() {
                assert(places_upto(g, m)[r] == pb[r]);
                assert(lines_upto(g, m)[r] == lb[r]);
            } else {
                let n = r - pb.len();
                let t = g.states[i].transitions[n];
                assert(places_upto(g, m)[r] == state_places(g, i)[n]);
                assert(lines_upto(g, m)[r] == state_lines(g, i)[n]);
                assert(crate::turing_graph::transition_fits(t, g.k, g.states.len()));
            }
        }
    }
}

/// The places in the state `j`.
pub open spec fn of_state(j: int) -> spec_fn(Place) -> bool {
    |p: Place| p.0 == j
}

/// The transitions at places of `g`.
pub open spec fn placed_in(g: GraphView) -> spec_fn(Place) -> TransitionView {
    |p: Place| placed(g, p)
}

/// The places of the first `m` states that belong to the state `j` are those of its transitions.
#[verifier::spinoff_prover]
proof fn lemma_places_of_state(g: GraphView, m: nat, j: int)
    requires
        m <= g.states.len(),
        0 <= j < g.states.len(),
    ensures
        places_upto(g, m).filter(of_state(j)) == if j < m {
            state_places(g, j)
        } else {
            Seq::<Place>::empty()
        },
    decreases m,
{
    let pred = of_state(j);
    if m == 0 {
        assert(places_upto(g, m).filter(pred) =~= Seq::<Place>::empty()) by {
            reveal_with_fuel(Seq::<_>::filter, 1);
        }
    } else {
        let i = m - 1;
        lemma_places_of_state(g, (m - 1) as nat, j);
        Seq::filter_distributes_over_add(places_upto(g, (m - 1) as nat), state_places(g, i), pred);
        let sp = state_places(g, i);
        if i == j {
            assert(sp.filter(pred) =~= sp) by {
                sp.filter_lemma(pred);
                assert forall|n: int| 0 <= n < sp.len() implies pred(sp[n]) by {}
                lemma_filter_all(sp, pred);
            }
        } else {
            lemma_filter_none(sp, pred);
        }
    }
}

/// Filtering keeps everything when every element satisfies the predicate.
#[verifier::spinoff_prover]
proof fn lemma_filter_all<A>(s: Seq<A>, pred: spec_fn(A) -> bool)
    requires
        forall|n: int| 0 <= n < s.len() ==> pred(s[n]),
    ensures
        s.filter(pred) == s,
    decreases s.len(),
{
    reveal_with_fuel(Seq::<_>::filter, 1);
    if s.len() > 0 {
        lemma_filter_all(s.drop_last(), pred);
        assert(s.drop_last().push(s.last()) =~= s);
    }
}

/// Filtering keeps nothing when no element satisfies the predicate.
#[verifier::spinoff_prover]
proof fn lemma_filter_none<A>(s: Seq<A>, pred: spec_fn(A) -> bool)
    requires
        forall|n: int| 0 <= n < s.len() ==> !pred(s[n]),
    ensures
        s.filter(pred) == Seq::<A>::empty(),
    decreases s.len(),
{
    reveal_with_fuel(Seq::<_>::filter, 1);
    if s.len() > 0 {
        lemma_filter_none(s.drop_last(), pred);
    }
    assert(s.filter(pred) =~= Seq::<A>::empty());
}

/// The next index of states to name grows by one when the state `j` is that index.
pub open spec fn extend_front(f: int, j: int) -> int {
    if j == f {
        f + 1
    } else {
        f
    }
}

/// The number of states named by the rules of one transition at the places
/// `ps`, with the initial and accepting states, when the rules name the states
/// in the order of their indexes.
pub open spec fn front(ps: Seq<Place>) -> int
    decreases ps.len(),
{
    if ps.len() == 0 {
        2
    } else {
        extend_front(extend_front(front(ps.drop_last()), ps.last().0), ps.last().2)
    }
}

/// Each rule of one transition at the places `ps` names its states, source
/// first, either among those already named or as the next index.
pub open spec fn named_in_order(ps: Seq<Place>) -> bool {
    forall|r: int|
        0 <= r < ps.len() ==> (#[trigger] ps[r]).0 <= front(ps.take(r)) && ps[r].2 <= extend_front(
            front(ps.take(r)),
            ps[r].0,
        )
}

/// A graph that the parser builds again from the text that [graph_to_string]
/// writes: it has a transition, its first two states are the initial state
/// `i` and the accepting state `a` and the others are normal, and its text
/// names every other state, for the first time, in the order of their indexes.
pub open spec fn text_ordered(g: GraphView) -> bool {
    let ps = graph_places(g);
    &&& ps.len() >= 1
    &&& g.states.len() >= 2
    &&& g.states[0].name == seq!['i'] && g.states[0].state_type == TuringStateType::Normal
    &&& g.states[1].name == seq!['a'] && g.states[1].state_type == TuringStateType::Accepting
    &&& forall|j: int| 2 <= j < g.states.len() ==> (#[trigger] g.states[j]).state_type == TuringStateType::Normal
    &&& named_in_order(ps)
    &&& front(ps) == g.states.len()
}

/// The graph made of the first `f` states of `g` and of the transitions at the places `ps`.
pub open spec fn partial_with(g: GraphView, ps: Seq<Place>, f: int) -> GraphView {
    GraphView {
        states: Seq::new(
            f as nat,
            |j: int| StateView { transitions: ps.filter(of_state(j)).map_values(placed_in(g)), ..g.states[j] },
        ),
        k: g.k,
    }
}

/// The places before `r` name states below the frontier, which grows with them.
#[verifier::spinoff_prover]
proof fn lemma_front_take(ps: Seq<Place>, r: int)
    requires
        named_in_order(ps),
        0 <= r <= ps.len(),
    ensures
        2 <= front(ps.take(r)),
        forall|q: int| 0 <= q < r ==> (#[trigger] ps[q]).0 < front(ps.take(r)) && ps[q].2 < front(ps.take(r)),
        r < ps.len() ==> front(ps.take(r + 1)) == extend_front(extend_front(front(ps.take(r)), ps[r].0), ps[r].2),
        r < ps.len() ==> front(ps.take(r)) <= front(ps.take(r + 1)),
    decreases r,
{
    if r < ps.len() {
        assert(ps.take(r + 1).drop_last() =~= ps.take(r));
        assert(ps.take(r + 1).last() == ps[r]);
    }
    if r == 0 {
        assert(ps.take(0) =~= Seq::<Place>::empty());
    } else {
        lemma_front_take(ps, r - 1);
        assert(ps[r - 1].0 <= front(ps.take(r - 1)));
    }
}

/// The index of the state of a name, among states of distinct names.
#[verifier::spinoff_prover]
proof fn lemma_index_of_name(g: GraphView, j: int)
    requires
        0 <= j < g.states.len(),
        forall|a: int, b: int|
            0 <= a < g.states.len() && 0 <= b < g.states.len() && a != b ==> #[trigger] g.states[a].name
                != #[trigger] g.states[b].name,
    ensures
        index_of_name(g, g.states[j].name) == Some(j as nat),
{
    let name = g.states[j].name;
    assert(g.states[j].name == name);
    let c = choose|i: int| 0 <= i < g.states.len() && #[trigger] g.states[i].name == name;
    if c != j {
        assert(g.states[c].name != g.states[j].name);
    }
}

/// No state has a name that none of the states has.
#[verifier::spinoff_prover]
proof fn lemma_index_of_absent(g: GraphView, name: Seq<char>)
    requires
        forall|a: int| 0 <= a < g.states.len() ==> #[trigger] g.states[a].name != name,
    ensures
        index_of_name(g, name) is None,
{
}

/// The text of a transition describes that transition, but for its target.
#[verifier::spinoff_prover]
proof fn lemma_content_of_transition(t: TransitionView)
    ensures
        content_transition(transition_content(t)) == (TransitionView { index_to_state: None, ..t }),
{
    assert(zip_writes(write_chars(t.chars_write), seq![t.move_read] + write_dirs(t.chars_write)) =~= t.chars_write);
}

/// [TuringTransition::create] accepts the text of a transition that fits a graph.
#[verifier::spinoff_prover]
proof fn lemma_fitting_accepted(t: TransitionView, k: nat, n: nat)
    requires
        transition_fits(t, k, n),
    ensures
        content_accepted(transition_content(t)),
{
    let c = transition_content(t);
    assert(c.dirs.len() == t.chars_write.len() + 1);
    assert forall|i: int| 1 <= i < c.reads.len() implies !#[trigger] write_rule_refused(
        c.reads[i],
        c.writes[i - 1],
        c.dirs[i],
    ) by {
        assert(write_rule_safe_at(t, i - 1));
        assert(c.dirs[i] == t.chars_write[i - 1].1);
    }
}

/// Adding a state named as the state `f` of `g`, when the graph holds the
/// first `f` states of `g` and no transition at `ps` reaches the state `f`,
/// gives the graph of the first `f + 1` states.
#[verifier::spinoff_prover]
proof fn lemma_named_state_step(g: GraphView, ps: Seq<Place>, f: int, j: int)
    requires
        graph_wf(g),
        2 <= f <= g.states.len(),
        0 <= j <= f,
        j < g.states.len(),
        f < g.states.len() ==> g.states[f].state_type == TuringStateType::Normal,
        forall|q: int| 0 <= q < ps.len() ==> (#[trigger] ps[q]).0 < f,
    ensures
        with_named_state(partial_with(g, ps, f), g.states[j].name) == partial_with(g, ps, extend_front(f, j)),
        named_index(partial_with(g, ps, f), g.states[j].name) == j,
{
    let gp = partial_with(g, ps, f);
    assert forall|a: int| 0 <= a < f implies #[trigger] gp.states[a].name == g.states[a].name by {}
    if j < f {
        assert forall|a: int, b: int|
            0 <= a < gp.states.len() && 0 <= b < gp.states.len() && a != b implies #[trigger] gp.states[a].name
                != #[trigger] gp.states[b].name by {
            assert(g.states[a].name != g.states[b].name);
        }
        lemma_index_of_name(gp, j);
        assert(gp.states[j].name == g.states[j].name);
    } else {
        assert forall|a: int| 0 <= a < gp.states.len() implies #[trigger] gp.states[a].name != g.states[j].name by {
            assert(g.states[a].name != g.states[j].name);
        }
        lemma_index_of_absent(gp, g.states[j].name);
        let ng = partial_with(g, ps, f + 1);
        assert(ps.filter(of_state(f)) =~= Seq::<Place>::empty()) by {
            assert forall|q: int| 0 <= q < ps.len() implies !of_state(f)(ps[q]) by {}
            lemma_filter_none(ps, of_state(f));
        }
        assert(ng.states[f] == fresh_state(TuringStateType::Normal, g.states[j].name)) by {
            assert(ps.filter(of_state(f)).map_values(placed_in(g)) =~= Seq::<TransitionView>::empty());
        }
        assert(gp.states.push(fresh_state(TuringStateType::Normal, g.states[j].name)) =~= ng.states);
    }
}

/// The frontier never goes back.
#[verifier::spinoff_prover]
proof fn lemma_front_le(ps: Seq<Place>, r: int)
    requires
        named_in_order(ps),
        0 <= r <= ps.len(),
    ensures
        front(ps.take(r)) <= front(ps),
    decreases ps.len() - r,
{
    if r == ps.len() {
        assert(ps.take(r) =~= ps);
    } else {
        lemma_front_take(ps, r);
        lemma_front_le(ps, r + 1);
    }
}

/// What [graph_lines] and [graph_places] hold at the index `r`.
#[verifier::spinoff_prover]
proof fn lemma_line_at(g: GraphView, r: int)
    requires
        graph_wf(g),
        0 <= r < graph_places(g).len(),
    ensures
        graph_lines(g).len() == graph_places(g).len(),
        ({
            let p = graph_places(g)[r];
            &&& 0 <= p.0 < g.states.len()
            &&& 0 <= p.1 < g.states[p.0].transitions.len()
            &&& placed(g, p).index_to_state == Some(p.2 as usize)
            &&& 0 <= p.2 < g.states.len()
            &&& p.2 <= usize::MAX
            &&& graph_lines(g)[r] == (g.states[p.0].name, placed(g, p), g.states[p.2].name)
            &&& transition_fits(placed(g, p), g.k, g.states.len())
        }),
{
    lemma_lines_places(g, g.states.len() as nat);
    let p = graph_places(g)[r];
    assert(0 <= p.0 < g.states.len() && 0 <= p.1 < g.states[p.0].transitions.len());
    assert(transition_fits(g.states[p.0].transitions[p.1], g.k, g.states.len()));
}

/// Adding the states named by the rule of one transition at the place `p`.
#[verifier::spinoff_prover]
proof fn lemma_line_states(g: GraphView, pr: Seq<Place>, f: int, p: Place)
    requires
        graph_wf(g),
        2 <= f,
        extend_front(extend_front(f, p.0), p.2) <= g.states.len(),
        0 <= p.0 <= f,
        0 <= p.2 <= extend_front(f, p.0),
        p.0 < g.states.len(),
        p.2 < g.states.len(),
        forall|j: int| 2 <= j < g.states.len() ==> (#[trigger] g.states[j]).state_type == TuringStateType::Normal,
        forall|q: int| 0 <= q < pr.len() ==> (#[trigger] pr[q]).0 < f,
    ensures
        ({
            let g0 = partial_with(g, pr, f);
            let g1 = with_named_state(g0, g.states[p.0].name);
            &&& g1 == partial_with(g, pr, extend_front(f, p.0))
            &&& named_index(g0, g.states[p.0].name) == p.0
            &&& with_named_state(g1, g.states[p.2].name) == partial_with(
                g,
                pr,
                extend_front(extend_front(f, p.0), p.2),
            )
            &&& named_index(g1, g.states[p.2].name) == p.2
        }),
{
    let f1 = extend_front(f, p.0);
    lemma_named_state_step(g, pr, f, p.0);
    assert forall|q: int| 0 <= q < pr.len() implies (#[trigger] pr[q]).0 < f1 by {}
    lemma_named_state_step(g, pr, f1, p.2);
}

/// Adding the transition at the place `p`, the `r`-th, to the graph of the
/// places before it.
#[verifier::spinoff_prover]
proof fn lemma_line_transition(g: GraphView, r: int, f: int)
    requires
        graph_wf(g),
        0 <= r < graph_places(g).len(),
        ({
            let p = graph_places(g)[r];
            &&& 0 <= p.0 < f
            &&& 0 <= p.1 < g.states[p.0].transitions.len()
            &&& placed(g, p).index_to_state == Some(p.2 as usize)
            &&& transition_fits(placed(g, p), g.k, g.states.len())
        }),
        f <= g.states.len(),
    ensures
        ({
            let p = graph_places(g)[r];
            let t = placed(g, p);
            append_contents(partial_with(g, graph_places(g).take(r), f), p.0, seq![transition_content(t)], p.2)
                == Some(partial_with(g, graph_places(g).take(r + 1), f))
        }),
{
    let ps = graph_places(g);
    let p = ps[r];
    let t = placed(g, p);
    let pr = ps.take(r);
    let g2 = partial_with(g, pr, f);
    let c = transition_content(t);
    lemma_content_of_transition(t);
    let ct = content_transition(c);
    assert(ct.chars_read == t.chars_read && ct.chars_write == t.chars_write && ct.move_read == t.move_read);
    assert forall|i: int| 0 <= i < ct.chars_write.len() implies #[trigger] write_rule_safe_at(ct, i) by {
        assert(write_rule_safe_at(t, i));
    }
    assert(fits_graph(g2, ct));
    assert(pointing_to(ct, p.2 as usize) == t);
    let g3 = with_rule(g2, p.0, ct, p.2 as usize);
    assert(seq![c].drop_first() =~= Seq::<ContentSpec>::empty());
    assert(append_contents(g3, p.0, Seq::<ContentSpec>::empty(), p.2) == Some(g3));
    assert(seq![c][0] == c);
    assert(append_contents(g2, p.0, seq![c], p.2) == Some(g3));
    let target = partial_with(g, ps.take(r + 1), f);
    assert forall|j: int| 0 <= j < f implies g3.states[j] == target.states[j] by {
        lemma_filter_take_step(ps, of_state(j), r);
        if j == p.0 {
            assert(ps.take(r + 1).filter(of_state(j)).map_values(placed_in(g)) =~= pr.filter(of_state(j)).map_values(
                placed_in(g),
            ).push(t));
        }
    }
    assert(g3.states =~= target.states);
}

/// Adding the rule of one transition of a graph that names its states in
/// order, to the graph of the rules before it, gives the graph of the rules
/// up to it.
#[verifier::spinoff_prover]
proof fn lemma_apply_line(g: GraphView, r: int)
    requires
        graph_wf(g),
        text_ordered(g),
        0 <= r < graph_places(g).len(),
    ensures
        apply_rule(
            partial_with(g, graph_places(g).take(r), front(graph_places(g).take(r))),
            line_rule(graph_lines(g)[r]),
        ) == Some(partial_with(g, graph_places(g).take(r + 1), front(graph_places(g).take(r + 1)))),
{
    let ps = graph_places(g);
    let n = g.states.len();
    lemma_line_at(g, r);
    let p = ps[r];
    let t = placed(g, p);
    lemma_fitting_accepted(t, g.k, n);
    lemma_front_take(ps, r);
    lemma_front_le(ps, r + 1);
    let f = front(ps.take(r));
    let f2 = extend_front(extend_front(f, p.0), p.2);
    assert(p.0 <= f && p.2 <= extend_front(f, p.0));
    let pr = ps.take(r);
    assert forall|q: int| 0 <= q < pr.len() implies (#[trigger] pr[q]).0 < f by {
        assert(pr[q] == ps[q]);
    }
    lemma_line_states(g, pr, f, p);
    lemma_line_transition(g, r, f2);
    let rule = line_rule(graph_lines(g)[r]);
    assert(rule.contents == seq![transition_content(t)]);
    assert(contents_accepted(rule.contents));
}

/// Adding the rules of one transition from the `r`-th on, to the graph of
/// the rules before them, gives the graph of all of them.
#[verifier::spinoff_prover]
proof fn lemma_apply_lines(g: GraphView, r: int)
    requires
        graph_wf(g),
        text_ordered(g),
        0 <= r <= graph_places(g).len(),
    ensures
        apply_rules(
            partial_with(g, graph_places(g).take(r), front(graph_places(g).take(r))),
            line_rules(graph_lines(g)).skip(r),
        ) == Some(partial_with(g, graph_places(g), front(graph_places(g)))),
    decreases graph_places(g).len() - r,
{
    let ps = graph_places(g);
    let rs = line_rules(graph_lines(g));
    lemma_lines_places(g, g.states.len() as nat);
    if r == ps.len() {
        assert(ps.take(r) =~= ps);
        assert(rs.skip(r) =~= Seq::<RuleSpec>::empty());
    } else {
        lemma_apply_line(g, r);
        lemma_apply_lines(g, r + 1);
        assert(rs.skip(r)[0] == line_rule(graph_lines(g)[r]));
        assert(rs.skip(r).drop_first() =~= rs.skip(r + 1));
    }
}

/// The graph of no rule is the initial graph of a graph that starts with the
/// initial and accepting states.
#[verifier::spinoff_prover]
proof fn lemma_partial_start(g: GraphView)
    requires
        g.states.len() >= 2,
        g.states[0].name == seq!['i'] && g.states[0].state_type == TuringStateType::Normal,
        g.states[1].name == seq!['a'] && g.states[1].state_type == TuringStateType::Accepting,
    ensures
        partial_with(g, Seq::<Place>::empty(), 2) == initial_graph(g.k),
{
    let g0 = partial_with(g, Seq::<Place>::empty(), 2);
    assert forall|j: int| 0 <= j < 2 implies (#[trigger] Seq::<Place>::empty().filter(of_state(j))).map_values(
        placed_in(g),
    ) =~= Seq::<TransitionView>::empty() by {
        lemma_filter_none(Seq::<Place>::empty(), of_state(j));
    }
    assert(g0.states =~= initial_graph(g.k).states);
}

/// The graph of all the places of a graph is that graph.
#[verifier::spinoff_prover]
proof fn lemma_partial_end(g: GraphView)
    requires
        front(graph_places(g)) == g.states.len(),
    ensures
        partial_with(g, graph_places(g), front(graph_places(g))) == g,
{
    let ps = graph_places(g);
    let n = g.states.len();
    let gn = partial_with(g, ps, front(ps));
    assert forall|j: int| 0 <= j < n implies gn.states[j] == g.states[j] by {
        lemma_places_of_state(g, n as nat, j);
        assert(state_places(g, j).map_values(placed_in(g)) =~= g.states[j].transitions);
    }
    assert(gn.states =~= g.states);
}

/// The parser builds again, from the rules of one transition of a graph that
/// names its states in order, that very graph (see [text_ordered]).
#[verifier::spinoff_prover]
pub proof fn lemma_graph_rules_rebuild(g: GraphView)
    requires
        graph_wf(g),
        text_ordered(g),
    ensures
        graph_of_rules(line_rules(graph_lines(g))) == Some(g),
{
    let ps = graph_places(g);
    let n = g.states.len();
    let rs = line_rules(graph_lines(g));
    lemma_line_at(g, 0);
    let t = placed(g, ps[0]);
    lemma_fitting_accepted(t, g.k, n);
    assert(rs[0] == line_rule(graph_lines(g)[0]));
    assert(rs[0].contents == seq![transition_content(t)]);
    assert(contents_accepted(rs[0].contents));
    assert(rs[0].contents[0].reads.len() == g.k + 1);
    assert(ps.take(0) =~= Seq::<Place>::empty());
    lemma_partial_start(g);
    lemma_apply_lines(g, 0);
    assert(rs.skip(0) =~= rs);
    lemma_partial_end(g);
}

/// Law: the parser gives back a graph from the text that [graph_to_string]
/// writes of it, when the grammar accepts its names and characters and the
/// text names its states in the order of their indexes (see [text_ordered]).
#[verifier::spinoff_prover]
pub proof fn lemma_graph_text_roundtrip(g: GraphView)
    requires
        graph_wf(g),
        graph_printable(g),
        text_ordered(g),
    ensures
        parse_machine(rules_text(graph_lines(g))) matches Some(rs) && graph_of_rules(rs) == Some(g),
{
    lemma_graph_text_parses(g);
    lemma_graph_rules_rebuild(g);
}


/// The order `o` once the state `j` is named: unchanged if `j` is in it, else `j` added at its end.
pub open spec fn add_new(o: Seq<int>, j: int) -> Seq<int> {
    if o.contains(j) {
        o
    } else {
        o.push(j)
    }
}

/// The states in the order in which the rules of one transition at the
/// places `ps` name them for the first time, after the initial and the
/// accepting states: the order in which the parser numbers them.
pub open spec fn naming_order(ps: Seq<Place>) -> Seq<int>
    decreases ps.len(),
{
    if ps.len() == 0 {
        seq![0int, 1int]
    } else {
        add_new(add_new(naming_order(ps.drop_last()), ps.last().0), ps.last().2)
    }
}

/// The position of `j` in `o`.
pub open spec fn pos(o: Seq<int>, j: int) -> int {
    choose|x: int| 0 <= x < o.len() && o[x] == j
}

/// No element of `o` is twice in it.
pub open spec fn no_dup(o: Seq<int>) -> bool {
    forall|x: int, y: int| 0 <= x < o.len() && 0 <= y < o.len() && x != y ==> #[trigger] o[x] != #[trigger] o[y]
}

/// In a sequence with no element twice, the position of an element is where it stands.
proof fn lemma_pos(o: Seq<int>, x: int)
    requires
        no_dup(o),
        0 <= x < o.len(),
    ensures
        pos(o, o[x]) == x,
{
    let y = pos(o, o[x]);
    assert(o[x] == o[x]);
    if y != x {
        assert(o[y] != o[x]);
    }
}

/// Adding a state to an order keeps its elements distinct, and keeps what it had first.
proof fn lemma_add_new(o: Seq<int>, j: int)
    requires
        no_dup(o),
    ensures
        no_dup(add_new(o, j)),
        add_new(o, j).take(o.len() as int) == o,
        add_new(o, j).contains(j),
        forall|i: int| #[trigger] add_new(o, j).contains(i) <==> o.contains(i) || i == j,
        add_new(o, j).len() == if o.contains(j) { o.len() } else { o.len() + 1 },
        !o.contains(j) ==> add_new(o, j)[o.len() as int] == j,
        o.contains(j) ==> pos(o, j) < o.len(),
{
    if o.contains(j) {
        let x = choose|x: int| 0 <= x < o.len() && o[x] == j;
        assert(o[x] == j);
        assert(o.take(o.len() as int) =~= o);
    } else {
        let n = o.push(j);
        assert(n.take(o.len() as int) =~= o);
        assert(n[o.len() as int] == j);
        assert forall|i: int| #[trigger] n.contains(i) <==> o.contains(i) || i == j by {
            if n.contains(i) {
                let x = choose|x: int| 0 <= x < n.len() && n[x] == i;
                if x < o.len() {
                    assert(o[x] == i);
                }
            }
            if o.contains(i) {
                let x = choose|x: int| 0 <= x < o.len() && o[x] == i;
                assert(n[x] == i);
            }
        }
        assert forall|x: int, y: int| 0 <= x < n.len() && 0 <= y < n.len() && x != y implies #[trigger] n[x]
            != #[trigger] n[y] by {
            if x == o.len() {
                assert(!o.contains(n[y]) || n[y] != j);
                if n[y] == j {
                    assert(o[y] == j);
                }
            } else if y == o.len() {
                if n[x] == j {
                    assert(o[x] == j);
                }
            }
        }
    }
}

/// What the naming order of the first `r` places holds.
proof fn lemma_naming_order(ps: Seq<Place>, r: int)
    requires
        0 <= r <= ps.len(),
    ensures
        no_dup(naming_order(ps.take(r))),
        naming_order(ps.take(r)).len() >= 2,
        naming_order(ps.take(r))[0] == 0 && naming_order(ps.take(r))[1] == 1,
        forall|q: int| 0 <= q < r ==> naming_order(ps.take(r)).contains(#[trigger] ps[q].0) && naming_order(
            ps.take(r),
        ).contains(ps[q].2),
        forall|i: int| #[trigger] naming_order(ps.take(r)).contains(i) ==> i == 0 || i == 1 || exists|q: int|
            0 <= q < r && (#[trigger] ps[q].0 == i || ps[q].2 == i),
        naming_order(ps).take(naming_order(ps.take(r)).len() as int) == naming_order(ps.take(r)),
        r < ps.len() ==> naming_order(ps.take(r + 1)) == add_new(add_new(naming_order(ps.take(r)), ps[r].0), ps[r].2),
    decreases r,
{
    if r < ps.len() {
        assert(ps.take(r + 1).drop_last() =~= ps.take(r));
        assert(ps.take(r + 1).last() == ps[r]);
    }
    if r == 0 {
        assert(ps.take(0) =~= Seq::<Place>::empty());
        let o = naming_order(ps.take(0));
        assert(o == seq![0int, 1int]);
        assert forall|i: int| #[trigger] o.contains(i) implies i == 0 || i == 1 by {
            let x = choose|x: int| 0 <= x < o.len() && o[x] == i;
        }
        lemma_order_prefix(ps, 0);
    } else {
        lemma_naming_order(ps, r - 1);
        let o0 = naming_order(ps.take(r - 1));
        let p = ps[r - 1];
        lemma_add_new(o0, p.0);
        let o1 = add_new(o0, p.0);
        lemma_add_new(o1, p.2);
        let o2 = add_new(o1, p.2);
        assert(o2 == naming_order(ps.take(r)));
        assert(o2.take(o1.len() as int) == o1);
        assert(o1.take(o0.len() as int) == o0);
        assert(o2[0] == o1[0] && o1[0] == o0[0]);
        assert(o2[1] == o1[1] && o1[1] == o0[1]);
        assert forall|q: int| 0 <= q < r implies o2.contains(#[trigger] ps[q].0) && o2.contains(ps[q].2) by {
            if q < r - 1 {
                assert(o0.contains(ps[q].0) && o0.contains(ps[q].2));
            }
        }
        assert forall|i: int| #[trigger] o2.contains(i) implies i == 0 || i == 1 || exists|q: int|
            0 <= q < r && (#[trigger] ps[q].0 == i || ps[q].2 == i) by {
            if o0.contains(i) {
                if i != 0 && i != 1 {
                    let q = choose|q: int| 0 <= q < r - 1 && (#[trigger] ps[q].0 == i || ps[q].2 == i);
                    assert(0 <= q < r && (ps[q].0 == i || ps[q].2 == i));
                }
            } else {
                assert(ps[r - 1].0 == i || ps[r - 1].2 == i);
            }
        }
        lemma_order_prefix(ps, r);
    }
}

/// The naming order of the first `r` places begins the naming order of all of them.
proof fn lemma_order_prefix(ps: Seq<Place>, r: int)
    requires
        0 <= r <= ps.len(),
    ensures
        naming_order(ps.take(r)).len() <= naming_order(ps).len(),
        naming_order(ps).take(naming_order(ps.take(r)).len() as int) == naming_order(ps.take(r)),
    decreases ps.len() - r,
{
    lemma_order_nodup(ps.take(r));
    if r == ps.len() {
        assert(ps.take(r) =~= ps);
        assert(naming_order(ps).take(naming_order(ps).len() as int) =~= naming_order(ps));
    } else {
        lemma_order_prefix(ps, r + 1);
        assert(ps.take(r + 1).drop_last() =~= ps.take(r));
        assert(ps.take(r + 1).last() == ps[r]);
        let o0 = naming_order(ps.take(r));
        lemma_add_new(o0, ps[r].0);
        let o1 = add_new(o0, ps[r].0);
        lemma_add_new(o1, ps[r].2);
        let o2 = naming_order(ps.take(r + 1));
        assert(o2.take(o0.len() as int) =~= o0);
        let all = naming_order(ps);
        assert(o2 == add_new(o1, ps[r].2));
        assert(o0.len() <= o1.len() <= o2.len());
        assert(all.take(o2.len() as int) == o2);
        assert(all.take(o0.len() as int) =~= all.take(o2.len() as int).take(o0.len() as int));
        assert(all.take(o0.len() as int) =~= o2.take(o0.len() as int));
    }
}

/// The naming order never holds a state twice.
proof fn lemma_order_nodup(ps: Seq<Place>)
    ensures
        no_dup(naming_order(ps)),
    decreases ps.len(),
{
    if ps.len() == 0 {
    } else {
        lemma_order_nodup(ps.drop_last());
        let o0 = naming_order(ps.drop_last());
        lemma_add_new(o0, ps.last().0);
        lemma_add_new(add_new(o0, ps.last().0), ps.last().2);
    }
}


/// The transition `t`, pointing at the position in `o` of the state it pointed at.
pub open spec fn retarget(t: TransitionView, o: Seq<int>) -> TransitionView {
    TransitionView { index_to_state: Some(pos(o, t.index_to_state->0 as int) as usize), ..t }
}

/// The graph `g` with its states renumbered: the state `x` is the state `o[x]`
/// of `g`, and every transition points at the new number of its target.
pub open spec fn renumbered(g: GraphView, o: Seq<int>) -> GraphView {
    GraphView {
        states: Seq::new(
            o.len(),
            |x: int|
                StateView {
                    transitions: g.states[o[x]].transitions.map_values(|t: TransitionView| retarget(t, o)),
                    ..g.states[o[x]]
                },
        ),
        k: g.k,
    }
}

/// `o` numbers states of `g` anew: distinct states of `g`, the initial and the
/// accepting states first.
pub open spec fn order_ok(g: GraphView, o: Seq<int>) -> bool {
    &&& no_dup(o)
    &&& o.len() >= 2
    &&& o[0] == 0 && o[1] == 1
    &&& forall|x: int| 0 <= x < o.len() ==> 0 <= #[trigger] o[x] < g.states.len()
}

/// The transitions at places of `g`, pointing at the new numbers of `o`.
pub open spec fn placed_re(g: GraphView, o: Seq<int>) -> spec_fn(Place) -> TransitionView {
    |p: Place| retarget(placed(g, p), o)
}

/// The graph made of the states of `g` numbered `0..f` by `o` and of the
/// transitions at the places `ps`.
pub open spec fn partial_re(g: GraphView, o: Seq<int>, ps: Seq<Place>, f: int) -> GraphView {
    GraphView {
        states: Seq::new(
            f as nat,
            |x: int| StateView { transitions: ps.filter(of_state(o[x])).map_values(placed_re(g, o)), ..g.states[o[x]] },
        ),
        k: g.k,
    }
}

/// An element of a beginning of `o` stands in that beginning.
proof fn lemma_pos_in_prefix(o: Seq<int>, pre: Seq<int>, j: int)
    requires
        no_dup(o),
        pre.len() <= o.len(),
        o.take(pre.len() as int) == pre,
        pre.contains(j),
    ensures
        o.contains(j),
        0 <= pos(o, j) < pre.len(),
        o[pos(o, j)] == j,
{
    let x = choose|x: int| 0 <= x < pre.len() && pre[x] == j;
    assert(o[x] == pre[x]);
    lemma_pos(o, x);
}

/// Adding a state named as the state `j` of `g`, numbered `pos(o, j)`, to the
/// graph of the states numbered below `f`.
#[verifier::spinoff_prover]
proof fn lemma_named_state_step_re(g: GraphView, o: Seq<int>, ps: Seq<Place>, f: int, j: int)
    requires
        graph_wf(g),
        order_ok(g, o),
        2 <= f <= o.len(),
        o.contains(j),
        pos(o, j) <= f,
        pos(o, j) == f ==> g.states[j].state_type == TuringStateType::Normal,
        forall|q: int| 0 <= q < ps.len() ==> o.contains((#[trigger] ps[q]).0) && pos(o, ps[q].0) < f,
    ensures
        with_named_state(partial_re(g, o, ps, f), g.states[j].name) == partial_re(g, o, ps, extend_front(f, pos(o, j))),
        named_index(partial_re(g, o, ps, f), g.states[j].name) == pos(o, j),
{
    let gp = partial_re(g, o, ps, f);
    let pj = pos(o, j);
    assert(0 <= pj < o.len() && o[pj] == j);
    assert forall|a: int| 0 <= a < f implies #[trigger] gp.states[a].name == g.states[o[a]].name by {}
    if pj < f {
        assert forall|a: int, b: int|
            0 <= a < gp.states.len() && 0 <= b < gp.states.len() && a != b implies #[trigger] gp.states[a].name
                != #[trigger] gp.states[b].name by {
            assert(o[a] != o[b]);
            assert(g.states[o[a]].name != g.states[o[b]].name);
        }
        lemma_index_of_name(gp, pj);
    } else {
        assert forall|a: int| 0 <= a < gp.states.len() implies #[trigger] gp.states[a].name != g.states[j].name by {
            assert(o[a] != o[pj]);
            assert(g.states[o[a]].name != g.states[j].name);
        }
        lemma_index_of_absent(gp, g.states[j].name);
        let ng = partial_re(g, o, ps, f + 1);
        assert(ps.filter(of_state(o[f])) =~= Seq::<Place>::empty()) by {
            assert forall|q: int| 0 <= q < ps.len() implies !of_state(o[f])(ps[q]) by {
                if ps[q].0 == o[f] {
                    lemma_pos(o, f);
                }
            }
            lemma_filter_none(ps, of_state(o[f]));
        }
        assert(ng.states[f] == fresh_state(TuringStateType::Normal, g.states[j].name)) by {
            assert(ps.filter(of_state(o[f])).map_values(placed_re(g, o)) =~= Seq::<TransitionView>::empty());
        }
        assert(gp.states.push(fresh_state(TuringStateType::Normal, g.states[j].name)) =~= ng.states);
    }
}

/// Adding the transition at the place `p`, the `r`-th, to the graph of the
/// places before it, with the states numbered by `o`.
#[verifier::spinoff_prover]
proof fn lemma_line_transition_re(g: GraphView, o: Seq<int>, r: int, f: int)
    requires
        graph_wf(g),
        order_ok(g, o),
        0 <= r < graph_places(g).len(),
        f <= o.len(),
        ({
            let p = graph_places(g)[r];
            &&& o.contains(p.0) && 0 <= pos(o, p.0) < f
            &&& o.contains(p.2) && 0 <= pos(o, p.2) < f
            &&& 0 <= p.2 <= usize::MAX
            &&& 0 <= p.0 < g.states.len()
            &&& 0 <= p.1 < g.states[p.0].transitions.len()
            &&& placed(g, p).index_to_state == Some(p.2 as usize)
            &&& transition_fits(placed(g, p), g.k, g.states.len())
        }),
    ensures
        ({
            let p = graph_places(g)[r];
            let t = placed(g, p);
            append_contents(
                partial_re(g, o, graph_places(g).take(r), f),
                pos(o, p.0),
                seq![transition_content(t)],
                pos(o, p.2),
            ) == Some(partial_re(g, o, graph_places(g).take(r + 1), f))
        }),
{
    let ps = graph_places(g);
    let p = ps[r];
    let t = placed(g, p);
    let pr = ps.take(r);
    let g2 = partial_re(g, o, pr, f);
    let c = transition_content(t);
    let from = pos(o, p.0);
    let to = pos(o, p.2);
    lemma_content_of_transition(t);
    let ct = content_transition(c);
    assert(ct.chars_read == t.chars_read && ct.chars_write == t.chars_write && ct.move_read == t.move_read);
    assert forall|i: int| 0 <= i < ct.chars_write.len() implies #[trigger] write_rule_safe_at(ct, i) by {
        assert(write_rule_safe_at(t, i));
    }
    assert(fits_graph(g2, ct));
    assert(pointing_to(ct, to as usize) == retarget(t, o));
    let g3 = with_rule(g2, from, ct, to as usize);
    assert(seq![c].drop_first() =~= Seq::<ContentSpec>::empty());
    assert(append_contents(g3, from, Seq::<ContentSpec>::empty(), to) == Some(g3));
    assert(seq![c][0] == c);
    assert(append_contents(g2, from, seq![c], to) == Some(g3));
    let target = partial_re(g, o, ps.take(r + 1), f);
    assert(o[from] == p.0) by {
        let x = choose|x: int| 0 <= x < o.len() && o[x] == p.0;
        lemma_pos(o, x);
    }
    assert forall|x: int| 0 <= x < f implies g3.states[x] == target.states[x] by {
        lemma_filter_take_step(ps, of_state(o[x]), r);
        if x == from {
            assert(ps.take(r + 1).filter(of_state(o[x])).map_values(placed_re(g, o)) =~= pr.filter(
                of_state(o[x]),
            ).map_values(placed_re(g, o)).push(retarget(t, o)));
        } else {
            assert(o[x] != o[from]);
        }
    }
    assert(g3.states =~= target.states);
}

/// Numbering states in the naming order of the places of `g`.
pub open spec fn text_order(g: GraphView) -> Seq<int> {
    naming_order(graph_places(g))
}

/// A graph whose text the parser reads back as the same graph, up to the
/// numbering of its states: it has a transition, its first two states are the
/// initial state `i` and the accepting state `a` and the others are normal,
/// and every state is named by a rule of its text.
pub open spec fn text_complete(g: GraphView) -> bool {
    &&& graph_places(g).len() >= 1
    &&& g.states.len() >= 2
    &&& g.states[0].name == seq!['i'] && g.states[0].state_type == TuringStateType::Normal
    &&& g.states[1].name == seq!['a'] && g.states[1].state_type == TuringStateType::Accepting
    &&& forall|j: int| 2 <= j < g.states.len() ==> (#[trigger] g.states[j]).state_type == TuringStateType::Normal
    &&& names_every_state(g)
}

/// Every state of `g` but the initial and the accepting ones leaves or is
/// reached by a transition: a rule of the text of `g` names it.
pub open spec fn names_every_state(g: GraphView) -> bool {
    forall|j: int| 2 <= j < g.states.len() ==> #[trigger] named_by_rule(g, j)
}

/// The state `j` of `g` leaves or is reached by a transition.
pub open spec fn named_by_rule(g: GraphView, j: int) -> bool {
    exists|q: int| 0 <= q < graph_places(g).len() && (#[trigger] graph_places(g)[q].0 == j || graph_places(g)[q].2 == j)
}

/// When a rule names every state, the naming order holds every state once.
#[verifier::spinoff_prover]
proof fn lemma_text_order_len(g: GraphView)
    requires
        graph_wf(g),
        g.states.len() >= 2,
        names_every_state(g),
    ensures
        text_order(g).len() == g.states.len(),
{
    let ps = graph_places(g);
    let o = text_order(g);
    let n = g.states.len() as int;
    lemma_text_order_ok(g);
    lemma_naming_order(ps, ps.len() as int);
    assert(ps.take(ps.len() as int) =~= ps);
    assert(o.to_set() =~= vstd::set_lib::set_int_range(0, n)) by {
        assert forall|j: int| #[trigger] o.to_set().contains(j) <==> 0 <= j < n by {
            if o.to_set().contains(j) {
                assert(o.contains(j));
                let x = choose|x: int| 0 <= x < o.len() && o[x] == j;
            }
            if 0 <= j < n {
                if j == 0 {
                    assert(o[0] == 0);
                } else if j == 1 {
                    assert(o[1] == 1);
                } else {
                    assert(named_by_rule(g, j));
                    let q = choose|q: int| 0 <= q < ps.len() && (#[trigger] ps[q].0 == j || ps[q].2 == j);
                    assert(o.contains(ps[q].0) && o.contains(ps[q].2));
                }
                assert(o.contains(j));
            }
        }
    }
    vstd::set_lib::lemma_int_range(0, n);
    assert(o.no_duplicates());
    o.unique_seq_to_set();
}

/// The naming order of a graph numbers its states anew.
#[verifier::spinoff_prover]
proof fn lemma_text_order_ok(g: GraphView)
    requires
        graph_wf(g),
        g.states.len() >= 2,
    ensures
        order_ok(g, text_order(g)),
{
    let ps = graph_places(g);
    let o = text_order(g);
    lemma_naming_order(ps, ps.len() as int);
    assert(ps.take(ps.len() as int) =~= ps);
    lemma_lines_places(g, g.states.len() as nat);
    assert forall|x: int| 0 <= x < o.len() implies 0 <= #[trigger] o[x] < g.states.len() by {
        assert(o.contains(o[x]));
        if o[x] != 0 && o[x] != 1 {
            let q = choose|q: int| 0 <= q < ps.len() && (#[trigger] ps[q].0 == o[x] || ps[q].2 == o[x]);
            assert(ps[q] == places_upto(g, g.states.len() as nat)[q]);
        }
    }
}

/// Adding the rule of one transition of `g` to the graph of the rules
/// before it gives the graph of the rules up to it, states numbered in the
/// naming order.
#[verifier::spinoff_prover]
proof fn lemma_apply_line_re(g: GraphView, r: int)
    requires
        graph_wf(g),
        text_complete(g),
        0 <= r < graph_places(g).len(),
    ensures
        apply_rule(
            partial_re(g, text_order(g), graph_places(g).take(r), naming_order(graph_places(g).take(r)).len() as int),
            line_rule(graph_lines(g)[r]),
        ) == Some(
            partial_re(
                g,
                text_order(g),
                graph_places(g).take(r + 1),
                naming_order(graph_places(g).take(r + 1)).len() as int,
            ),
        ),
{
    let ps = graph_places(g);
    let o = text_order(g);
    let n = g.states.len();
    lemma_text_order_ok(g);
    lemma_line_at(g, r);
    let p = ps[r];
    let t = placed(g, p);
    lemma_fitting_accepted(t, g.k, n);
    lemma_naming_order(ps, r);
    lemma_naming_order(ps, r + 1);
    lemma_order_prefix(ps, r);
    lemma_order_prefix(ps, r + 1);
    let o0 = naming_order(ps.take(r));
    let f = o0.len() as int;
    lemma_add_new(o0, p.0);
    let o1 = add_new(o0, p.0);
    lemma_add_new(o1, p.2);
    let o2 = add_new(o1, p.2);
    assert(o2 == naming_order(ps.take(r + 1)));
    assert(o.take(o2.len() as int) == o2);
    // where the two states of the rule stand in the order
    assert(o1.len() <= o2.len() <= o.len());
    assert(o.take(o1.len() as int) =~= o2.take(o1.len() as int));
    lemma_pos_in_prefix(o, o1, p.0);
    lemma_pos_in_prefix(o, o2, p.2);
    let f1 = o1.len() as int;
    if o0.contains(p.0) {
        lemma_pos_in_prefix(o, o0, p.0);
        assert(f1 == f);
    } else {
        assert(o1[f] == p.0);
        assert(o[f] == p.0);
        lemma_pos(o, f);
        assert(f1 == f + 1);
    }
    assert(f1 == extend_front(f, pos(o, p.0)));
    if o1.contains(p.2) {
        lemma_pos_in_prefix(o, o1, p.2);
        assert(o2.len() == f1);
    } else {
        assert(o2[f1] == p.2);
        assert(o[f1] == p.2);
        lemma_pos(o, f1);
    }
    assert(o2.len() == extend_front(f1, pos(o, p.2)));
    let pr = ps.take(r);
    assert forall|q: int| 0 <= q < pr.len() implies o.contains((#[trigger] pr[q]).0) && pos(o, pr[q].0) < f by {
        assert(pr[q] == ps[q]);
        assert(o0.contains(ps[q].0));
        lemma_pos_in_prefix(o, o0, ps[q].0);
    }
    assert(pos(o, p.0) == f ==> p.0 != 0 && p.0 != 1) by {
        if pos(o, p.0) == f {
            if p.0 == 0 {
                assert(o0[0] == 0);
                assert(o0.contains(0));
            }
            if p.0 == 1 {
                assert(o0[1] == 1);
                assert(o0.contains(1));
            }
        }
    }
    lemma_named_state_step_re(g, o, pr, f, p.0);
    assert forall|q: int| 0 <= q < pr.len() implies o.contains((#[trigger] pr[q]).0) && pos(o, pr[q].0) < f1 by {}
    assert(pos(o, p.2) == f1 ==> p.2 != 0 && p.2 != 1) by {
        if pos(o, p.2) == f1 {
            if p.2 == 0 {
                assert(o1[0] == 0);
                assert(o1.contains(0));
            }
            if p.2 == 1 {
                assert(o1[1] == 1);
                assert(o1.contains(1));
            }
        }
    }
    lemma_named_state_step_re(g, o, pr, f1, p.2);
    let g0 = partial_re(g, o, pr, f);
    let g1 = with_named_state(g0, g.states[p.0].name);
    lemma_line_transition_re(g, o, r, o2.len() as int);
    let rule = line_rule(graph_lines(g)[r]);
    assert(rule.contents == seq![transition_content(t)]);
    assert(contents_accepted(rule.contents));
    assert(rule.from == g.states[p.0].name && rule.to == g.states[p.2].name);
}

/// Adding the rules of one transition from the `r`-th on gives the graph of all of them.
#[verifier::spinoff_prover]
proof fn lemma_apply_lines_re(g: GraphView, r: int)
    requires
        graph_wf(g),
        text_complete(g),
        0 <= r <= graph_places(g).len(),
    ensures
        apply_rules(
            partial_re(g, text_order(g), graph_places(g).take(r), naming_order(graph_places(g).take(r)).len() as int),
            line_rules(graph_lines(g)).skip(r),
        ) == Some(partial_re(g, text_order(g), graph_places(g), text_order(g).len() as int)),
    decreases graph_places(g).len() - r,
{
    let ps = graph_places(g);
    let rs = line_rules(graph_lines(g));
    lemma_lines_places(g, g.states.len() as nat);
    if r == ps.len() {
        assert(ps.take(r) =~= ps);
        assert(rs.skip(r) =~= Seq::<RuleSpec>::empty());
    } else {
        lemma_apply_line_re(g, r);
        lemma_apply_lines_re(g, r + 1);
        assert(rs.skip(r)[0] == line_rule(graph_lines(g)[r]));
        assert(rs.skip(r).drop_first() =~= rs.skip(r + 1));
    }
}

/// The graph of no rule, states numbered by `o`, is the initial graph.
#[verifier::spinoff_prover]
proof fn lemma_partial_start_re(g: GraphView, o: Seq<int>)
    requires
        order_ok(g, o),
        g.states[0].name == seq!['i'] && g.states[0].state_type == TuringStateType::Normal,
        g.states[1].name == seq!['a'] && g.states[1].state_type == TuringStateType::Accepting,
    ensures
        partial_re(g, o, Seq::<Place>::empty(), 2) == initial_graph(g.k),
{
    let g0 = partial_re(g, o, Seq::<Place>::empty(), 2);
    assert forall|x: int| 0 <= x < 2 implies (#[trigger] Seq::<Place>::empty().filter(of_state(o[x]))).map_values(
        placed_re(g, o),
    ) =~= Seq::<TransitionView>::empty() by {
        lemma_filter_none(Seq::<Place>::empty(), of_state(o[x]));
    }
    assert(g0.states =~= initial_graph(g.k).states);
}

/// The graph of all the places of `g`, states numbered by `o`, is `g` renumbered by `o`.
#[verifier::spinoff_prover]
proof fn lemma_partial_end_re(g: GraphView, o: Seq<int>)
    requires
        order_ok(g, o),
    ensures
        partial_re(g, o, graph_places(g), o.len() as int) == renumbered(g, o),
{
    let ps = graph_places(g);
    let n = g.states.len();
    let gn = partial_re(g, o, ps, o.len() as int);
    let gr = renumbered(g, o);
    assert forall|x: int| 0 <= x < o.len() implies gn.states[x] == gr.states[x] by {
        let j = o[x];
        lemma_places_of_state(g, n as nat, j);
        assert(state_places(g, j).map_values(placed_re(g, o)) =~= g.states[j].transitions.map_values(
            |t: TransitionView| retarget(t, o),
        ));
    }
    assert(gn.states =~= gr.states);
}

/// Law: the parser gives back, from the text that [graph_to_string] writes
/// of a graph, that graph with its states numbered in the order the text
/// names them: the initial and accepting states first, the others in the
/// order of their first rule. This needs the grammar to accept the names and
/// characters of the graph, and every state to be named by a rule.
#[verifier::spinoff_prover]
pub proof fn lemma_graph_text_roundtrip_renumbered(g: GraphView)
    requires
        graph_wf(g),
        graph_printable(g),
        text_complete(g),
    ensures
        order_ok(g, text_order(g)),
        text_order(g).len() == g.states.len(),
        parse_machine(rules_text(graph_lines(g))) matches Some(rs) && graph_of_rules(rs) == Some(
            renumbered(g, text_order(g)),
        ),
{
    let ps = graph_places(g);
    let n = g.states.len();
    let o = text_order(g);
    let rs = line_rules(graph_lines(g));
    lemma_graph_text_parses(g);
    lemma_text_order_ok(g);
    lemma_text_order_len(g);
    lemma_line_at(g, 0);
    let t = placed(g, ps[0]);
    lemma_fitting_accepted(t, g.k, n);
    assert(rs[0] == line_rule(graph_lines(g)[0]));
    assert(rs[0].contents == seq![transition_content(t)]);
    assert(contents_accepted(rs[0].contents));
    assert(rs[0].contents[0].reads.len() == g.k + 1);
    assert(ps.take(0) =~= Seq::<Place>::empty());
    assert(naming_order(ps.take(0)).len() == 2);
    lemma_partial_start_re(g, o);
    lemma_apply_lines_re(g, 0);
    assert(rs.skip(0) =~= rs);
    lemma_partial_end_re(g, o);
}

} // verus!
