# ritm_core

Experiment with (non-deterministic) Turing machines that own one reading tape
and `k` writing tapes, written in Verus: every function of the library is
verified against a contract stated over mathematical models (views).

## Layout

* `src/turing_tape.rs`: the reading and writing tapes, and how a transition
  moves their heads and replaces their characters.
* `src/turing_state.rs`: transitions and states (`TuringTransition::create`
  refuses the transitions that could leave a tape or replace the initial
  character).
* `src/turing_graph.rs`: the graph of a machine; every operation keeps its
  invariant (distinct state names, transitions that fit the graph).
* `src/turing_machine.rs`: the execution of a graph on a word, step by step,
  with backtracking; `get_path_to_accept` returns a run of the machine that
  ends in an accepting state, and, when a full exploration ends without one,
  no such run exists.
* `src/turing_grammar.rs`: the grammar of the text of a machine, as
  mathematical functions, and the reader that follows it.
* `src/turing_parser.rs`, `src/parser.rs`: from text to transitions and graphs,
  and back (`graph_to_string`, whose text the parser reads back as the same
  graph, its states numbered in the order the text names them).
* `src/turing_errors.rs`: the errors and their messages.
* `src/popup.rs`: the stack of popups of the graphical interface.
* `src/transition_edit.rs`, `src/gui_error.rs`: the edition of a transition in
  the graphical interface (compare with the original, undo), and the errors
  of the interface with their messages.
* `app/main.rs`: a command line program that runs a machine on a word and
  prints every step: `ritm [machine file] [word] [max iterations]`.

## The text of a machine

```text
machine    := ws (rule ws ';' ws)* END
rule       := state ws '{' ws content (ws '|' ws content)* ws '}' ws state
content    := char (ws ',' ws char)* ws '->' ws dir (ws ',' ws char ws ',' ws dir)*
state      := 'q' '_'? name          name := ('a'..'z' | 'A'..'Z' | '0'..'9' | '_')+
char       := any character but a blank, ',', '{', '}', '|' and ';'
dir        := 'L' | 'R' | 'N'
ws         := (' ' | '\t' | '\n' | '\r' | '//' up to the end of the line)*
```

For example, this machine accepts the words `xx` over `{0, 1}`:

```text
q_i { ç, ç -> R, ç, R } q_1;

q_1 { 0, _ -> R, 0, R
    | 1, _ -> R, 1, R } q_1;

q_1 { 0, _ -> N, _, L
    | 1, _ -> N, _, L } q_2;

q_2 { 0, 0 -> N, 0, L
    | 0, 1 -> N, 1, L
    | 1, 0 -> N, 0, L
    | 1, 1 -> N, 1, L } q_2;

q_2 { 0, ç -> N, ç, R
    | 1, ç -> N, ç, R } q_3;

q_3 { $, _ -> N, _, N } q_a;

q_3 { 0, 0 -> R, 0, R
    | 1, 1 -> R, 1, R } q_3;
```
