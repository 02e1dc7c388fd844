use ritm_core::parser::parse_turing_machine_string;
use ritm_core::turing_errors::{TuringError, TuringParserError};
use ritm_core::turing_graph::TuringMachineGraph;
use ritm_core::turing_parser::{
    graph_to_string, parse_transition_content_string, parse_transition_string,
    parse_turing_graph_string,
};
use ritm_core::turing_state::{TuringDirection, TuringStateType, TuringTransition};

fn same_states(a: &TuringMachineGraph, b: &TuringMachineGraph) -> bool {
    let sa = a.get_states();
    let sb = b.get_states();
    if sa.len() != sb.len() {
        return false;
    }
    for i in 0..sa.len() {
        if sa[i].name != sb[i].name || sa[i].state_type != sb[i].state_type {
            return false;
        }
        if sa[i].transitions.len() != sb[i].transitions.len() {
            return false;
        }
        for j in 0..sa[i].transitions.len() {
            let ta = &sa[i].transitions[j];
            let tb = &sb[i].transitions[j];
            if ta != tb || ta.index_to_state != tb.index_to_state {
                return false;
            }
        }
    }
    true
}

#[test]
fn test_parse_mt_valid() {
    let machine = String::from(
        "q_i {ç, ç -> R, ç, R} q_1;
                                        q1 {0, _ -> R, a, R 
                                          | 1, _ -> R, a, R} q1;",
    );

    let res = parse_turing_graph_string(machine);
    let parsed_graph = res.unwrap();

    // Compare to a real turing machine
    let mut graph = TuringMachineGraph::new(1).unwrap();

    let q1 = &String::from("1");
    graph.add_state(&q1);

    // q_i -> {ç, ç, => R, ç, R} -> q_1
    let mut transition = TuringTransition::create(
        vec!['ç', 'ç'],
        vec!['ç'],
        vec![TuringDirection::Right, TuringDirection::Right],
    )
    .unwrap();
    graph
        .append_rule_state_by_name(&String::from("i"), transition.clone(), &q1)
        .unwrap();

    transition = TuringTransition::create(
        vec!['0', '_'],
        vec!['a'],
        vec![TuringDirection::Right, TuringDirection::Right],
    )
    .unwrap();
    graph
        .append_rule_state_by_name(&q1, transition.clone(), &q1)
        .unwrap();

    transition = TuringTransition::create(
        vec!['1', '_'],
        vec!['a'],
        vec![TuringDirection::Right, TuringDirection::Right],
    )
    .unwrap();
    graph
        .append_rule_state_by_name(&q1, transition.clone(), &q1)
        .unwrap();

    assert_eq!(parsed_graph.get_k(), graph.get_k());
    assert!(same_states(&parsed_graph, &graph));
}

#[test]
fn test_parse_mt_not_valid() {
    let machine_str = String::from("q_i {ç, ç -> R, ç, R} q_1");

    if let Ok(t) = parse_turing_graph_string(machine_str) {
        panic!(
            "The parser should have returned an error not this value:  {:?}",
            t
        )
    }

    let machine_str = String::from("q_i ç, ç -> R, ç, R} q_1;");

    if let Ok(t) = parse_turing_graph_string(machine_str) {
        panic!(
            "The parser should have returned an error not this value:  {:?}",
            t
        )
    }
}

#[test]
fn test_parse_transition_valid_mult() {
    let transition_str = String::from(
        "q_i { 0, a -> R, a, L
                                            | 1, b -> N, p, R} q_2",
    );

    let (from, transitions, to) = parse_transition_string(transition_str).unwrap();

    assert_eq!(String::from("i"), from);
    assert_eq!(String::from("2"), to);

    assert_eq!(transitions.len(), 2);
    assert_eq!(
        transitions[0],
        TuringTransition::new(
            vec!['0', 'a'],
            TuringDirection::Right,
            vec![('a', TuringDirection::Left)]
        )
    );
    assert_eq!(
        transitions[1],
        TuringTransition::new(
            vec!['1', 'b'],
            TuringDirection::Stay,
            vec![('p', TuringDirection::Right)]
        )
    );
}

#[test]
fn test_parse_transition_valid_single() {
    let transition_str = String::from("qi { 0, a -> R, a, L } q2");

    let (from, transitions, to) = parse_transition_string(transition_str).unwrap();

    assert_eq!(String::from("i"), from);
    assert_eq!(String::from("2"), to);

    assert_eq!(transitions.len(), 1);
    assert_eq!(
        transitions[0],
        TuringTransition::new(
            vec!['0', 'a'],
            TuringDirection::Right,
            vec![('a', TuringDirection::Left)]
        )
    );
}

#[test]
fn test_parse_transition_fail() {
    let transition_str = String::from(
        "q_2 { 0, a -> R, a, L
                                            | 1 -> R, a, L} q_2",
    );

    if let Ok(t) = parse_transition_string(transition_str) {
        panic!(
            "The parser should have returned an error not this value:  {:?}",
            t
        )
    }

    let transition_str = String::from(
        "q_2 { 0, a -> R, a, L
                                            | 1, a-> R, a, L} q_2;",
    );

    if let Ok(t) = parse_transition_string(transition_str) {
        panic!(
            "The parser should have returned an error not this value:  {:?}",
            t
        )
    }

    let transition_str = String::from("");

    if let Ok(t) = parse_transition_string(transition_str) {
        panic!(
            "The parser should have returned an error not this value:  {:?}",
            t
        )
    }
}

// ________________________________________ Own tests ______________________________

#[test]
fn parse_empty_machine_gives_one_writing_tape() {
    let graph = parse_turing_graph_string(String::from("  // nothing here\n")).unwrap();
    assert_eq!(graph.get_k(), 1);
    let states = graph.get_states();
    assert_eq!(states.len(), 2);
    assert_eq!(states[0].name, "i");
    assert_eq!(states[1].name, "a");
    assert_eq!(states[1].state_type, TuringStateType::Accepting);
}

#[test]
fn parse_readme_machine() {
    let machine = String::from(
        "q_i { ç, ç -> R, ç, R } q_1;

q_1 { 0, _ -> R, 0, R 
    | 1, _ -> R, 1, R } q_1;

q_1 { 0, _ -> N, _, L 
    | 1, _ -> N, _, L } q_2;

q_2 { 0, 0 -> N, 0, L 
    | 0, 1 -> N, 1, L 
    | 1, 0 -> N, 0, L 
    | 1, 1 -> N, 1, L } q_2;

q_2 { 0, ç -> N, ç, R 
    | 1, ç -> N, ç, R } q_3;


q_3 { $, _ -> N, _, N } q_a;

q_3 { 0, 0 -> R, 0, R 
    | 1, 1 -> R, 1, R } q_3;
",
    );
    let graph = parse_turing_graph_string(machine).unwrap();
    assert_eq!(graph.get_k(), 1);
    let states = graph.get_states();
    // i, a, 1, 2, 3
    assert_eq!(states.len(), 5);
    assert_eq!(states[2].name, "1");
    assert_eq!(states[3].name, "2");
    assert_eq!(states[4].name, "3");
    assert_eq!(states[0].transitions.len(), 1);
    assert_eq!(states[0].transitions[0].index_to_state, Some(2));
    assert_eq!(states[2].transitions.len(), 4);
    assert_eq!(states[3].transitions.len(), 6);
    assert_eq!(states[4].transitions.len(), 3);
    assert_eq!(states[4].transitions[0].index_to_state, Some(1));
}

#[test]
fn parse_machine_with_two_writing_tapes_and_comments() {
    let machine = String::from(
        "// copies the word on two tapes
q_i{ç,ç,ç->R,ç,R,ç,R}q_1 ; // start
q_1 { 0, _, _ -> R, 0, R, 0, R } q_1;",
    );
    let graph = parse_turing_graph_string(machine).unwrap();
    assert_eq!(graph.get_k(), 2);
    assert_eq!(graph.get_states().len(), 3);
    assert_eq!(graph.get_states()[2].transitions.len(), 1);
}

#[test]
fn parse_machine_syntax_error() {
    match parse_turing_graph_string(String::from("q_i { ç, ç -> R, ç, R } q_1; q_1")) {
        Err(TuringParserError::ParsingError {
            line_col_pos,
            value,
            missing_value,
        }) => {
            assert_eq!(line_col_pos, Some((1, 33)));
            assert_eq!(value, "q_i { ç, ç -> R, ç, R } q_1; q_1");
            assert_eq!(missing_value, Some(String::from("{")));
        }
        other => panic!("a parsing error was expected, not {:?}", other),
    }
    match parse_turing_graph_string(String::from(
        "q_i { ç, ç -> R, ç, R } q_1\nq_1 { 0, _ -> R, 0, R } q_1;",
    )) {
        Err(TuringParserError::ParsingError {
            line_col_pos,
            value,
            missing_value,
        }) => {
            assert_eq!(line_col_pos, Some((2, 1)));
            assert_eq!(value, "q_1 { 0, _ -> R, 0, R } q_1;");
            assert_eq!(missing_value, Some(String::from(";")));
        }
        other => panic!("a parsing error was expected, not {:?}", other),
    }
    match parse_transition_string(String::from("q_1 { 0 -> R \n | 1 -> R  q_2")) {
        Err(TuringParserError::ParsingError {
            line_col_pos,
            missing_value,
            ..
        }) => {
            assert_eq!(line_col_pos, Some((2, 12)));
            assert_eq!(missing_value, Some(String::from("}")));
        }
        other => panic!("a parsing error was expected, not {:?}", other),
    }
}

#[test]
fn parse_machine_refused_rule() {
    // The second rule reads three tapes while the machine has two.
    let text = "q_i { ç, ç -> R, ç, R } q_1; q_1 { 0, 0, 0 -> R, 0, R, 0, R } q_1;";
    match parse_turing_graph_string(String::from(text)) {
        Err(TuringParserError::EncounteredTuringError {
            turing_error,
            value,
            line_col_pos,
        }) => {
            assert_eq!(value, "q_1 { 0, 0, 0 -> R, 0, R, 0, R } q_1");
            assert_eq!(line_col_pos, Some((1, 30)));
            assert!(matches!(
                turing_error,
                TuringError::IncompatibleTransitionError {
                    expected: 2,
                    received: 3
                }
            ));
        }
        other => panic!("an error was expected, not {:?}", other),
    }
    // A machine whose first transition has no writing tape.
    assert!(matches!(
        parse_turing_graph_string(String::from("q_i { ç -> R } q_1;")),
        Err(TuringParserError::EncounteredTuringError {
            turing_error: TuringError::IllegalActionError { .. },
            ..
        })
    ));
    // Going left from the initial character of a writing tape.
    assert!(matches!(
        parse_turing_graph_string(String::from("q_i { ç, ç -> R, ç, L } q_1;")),
        Err(TuringParserError::EncounteredTuringError {
            turing_error: TuringError::IllegalActionError { .. },
            ..
        })
    ));
}

#[test]
fn parse_transition_incompatible_tapes() {
    match parse_transition_string(String::from("q_1 { 0, a -> R, a, L | 1 -> N } q_2")) {
        Err(TuringParserError::EncounteredTuringError {
            turing_error,
            value,
            line_col_pos,
        }) => {
            assert_eq!(value, "1 -> N");
            assert_eq!(line_col_pos, Some((1, 25)));
            assert!(matches!(
                turing_error,
                TuringError::IncompatibleTransitionError {
                    expected: 2,
                    received: 1
                }
            ));
        }
        other => panic!("an error was expected, not {:?}", other),
    }
}

#[test]
fn parse_transition_arguments_error() {
    match parse_transition_string(String::from("q_1 { 0, a -> R } q_2")) {
        Err(TuringParserError::EncounteredTuringError { turing_error, .. }) => {
            assert!(matches!(turing_error, TuringError::TransitionArgsError { .. }));
        }
        other => panic!("an error was expected, not {:?}", other),
    }
}

#[test]
fn parse_transition_content() {
    let t = parse_transition_content_string(String::from(" 0, ç -> N, ç, R ")).unwrap();
    assert_eq!(
        t,
        TuringTransition::new(
            vec!['0', 'ç'],
            TuringDirection::Stay,
            vec![('ç', TuringDirection::Right)]
        )
    );
    assert_eq!(t.index_to_state, None);
    match parse_transition_content_string(String::from("  0, ç -> N, a, R ")) {
        Err(TuringParserError::EncounteredTuringError {
            line_col_pos,
            value,
            turing_error,
        }) => {
            assert_eq!(line_col_pos, Some((1, 3)));
            assert_eq!(value, "0, ç -> N, a, R");
            assert!(matches!(turing_error, TuringError::IllegalActionError { .. }));
        }
        other => panic!("an error was expected, not {:?}", other),
    }
    assert!(matches!(
        parse_transition_content_string(String::from("0, ç -> N, a")),
        Err(TuringParserError::ParsingError { .. })
    ));
}

#[test]
fn parse_machine_string_errors() {
    match parse_turing_machine_string(String::from("q_i { ç, ç -> R, ç, R q_1;")) {
        Err(TuringError::ParseError { reason }) => assert_eq!(reason, "Couldn't parse"),
        other => panic!("a parse error was expected, not {:?}", other),
    }
    let graph =
        parse_turing_machine_string(String::from("q_i { ç, ç -> R, ç, R } q_1;")).unwrap();
    assert_eq!(graph.get_k(), 1);
    assert_eq!(graph.get_states().len(), 3);
    assert!(matches!(
        parse_turing_machine_string(String::from("q_i { ç, ç -> R, ç, L } q_1;")),
        Err(TuringError::IllegalActionError { .. })
    ));
}

#[test]
fn graph_to_string_is_parsed_back() {
    let text = "q_i { ç, ç -> R, ç, R } q_1;
q_1 { 0, _ -> R, 0, R | 1, _ -> R, 1, R } q_1;
q_1 { $, _ -> N, _, N } q_a;";
    let graph = parse_turing_graph_string(String::from(text)).unwrap();
    let printed = graph_to_string(&graph);
    assert_eq!(
        printed,
        "q_i { ç, ç -> R, ç, R } q_1;\n\nq_1 { 0, _ -> R, 0, R } q_1;\n\nq_1 { 1, _ -> R, 1, R } q_1;\n\nq_1 { $, _ -> N, _, N } q_a;\n\n"
    );
    let parsed = parse_turing_graph_string(printed).unwrap();
    assert_eq!(parsed.get_k(), graph.get_k());
    assert!(same_states(&parsed, &graph));
}

#[test]
fn transition_text_is_parsed_back() {
    let t = TuringTransition::create(
        vec!['ç', '0', '/'],
        vec!['ç', '1'],
        vec![
            TuringDirection::Right,
            TuringDirection::Stay,
            TuringDirection::Left,
        ],
    )
    .unwrap();
    let back = parse_transition_content_string(t.to_string()).unwrap();
    assert_eq!(back, t);
}

#[test]
fn parse_machine_string_refused_rule_errors() {
    match parse_turing_machine_string(String::from(
        "q_i { ç, ç -> R, ç, R } q_1; q_1 { 0, 0, 0 -> R, 0, R, 0, R } q_1;",
    )) {
        Err(TuringError::IncompatibleTransitionError { expected, received }) => {
            assert_eq!(expected, 2);
            assert_eq!(received, 3);
        }
        other => panic!("an incompatible transition was expected, not {:?}", other),
    }
    match parse_turing_machine_string(String::from("q_i { ç, ç -> R, ç, L } q_1;")) {
        Err(TuringError::IllegalActionError { cause }) => assert_eq!(
            cause,
            "Detected the couple : (\"ç\", \"L\"), this could result in going out of bounds of the tape. Change the given direction to None for example."
        ),
        other => panic!("an illegal action was expected, not {:?}", other),
    }
}

#[test]
fn graph_to_string_renumbers_states() {
    let mut graph = TuringMachineGraph::new(1).unwrap();
    graph.add_state(&String::from("x"));
    graph.add_state(&String::from("y"));
    let t = TuringTransition::create(
        vec!['ç', 'ç'],
        vec!['ç'],
        vec![TuringDirection::Right, TuringDirection::Right],
    )
    .unwrap();
    graph
        .append_rule_state_by_name(&String::from("i"), t.clone(), &String::from("y"))
        .unwrap();
    let t2 = TuringTransition::create(
        vec!['0', '_'],
        vec!['0'],
        vec![TuringDirection::Right, TuringDirection::Right],
    )
    .unwrap();
    graph
        .append_rule_state_by_name(&String::from("y"), t2.clone(), &String::from("x"))
        .unwrap();
    let printed = graph_to_string(&graph);
    let parsed = parse_turing_graph_string(printed).unwrap();
    // The text names y before x: y is numbered 2 and x 3.
    assert_eq!(parsed.get_k(), 1);
    assert_eq!(parsed.get_states().len(), 4);
    assert_eq!(parsed.get_state_index(&String::from("y")), Some(2));
    assert_eq!(parsed.get_state_index(&String::from("x")), Some(3));
    let i_state = parsed.get_state(0).unwrap();
    assert_eq!(i_state.transitions.len(), 1);
    assert!(i_state.transitions[0] == t);
    assert_eq!(i_state.transitions[0].index_to_state, Some(2));
    let y_state = parsed.get_state(2).unwrap();
    assert_eq!(y_state.transitions.len(), 1);
    assert!(y_state.transitions[0] == t2);
    assert_eq!(y_state.transitions[0].index_to_state, Some(3));
    assert!(parsed.get_state(3).unwrap().transitions.is_empty());
    assert_eq!(parsed.get_state(1).unwrap().state_type, TuringStateType::Accepting);
}
