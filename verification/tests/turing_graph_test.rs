use ritm_core::turing_errors::TuringError;
use ritm_core::turing_graph::{TuringMachineGraph, DEFAULT_ACCEPTING_STATE, DEFAULT_INIT_STATE};
use ritm_core::turing_state::{TuringDirection, TuringStateType, TuringTransition};

fn rule(read: Vec<char>, write: Vec<char>, dirs: Vec<TuringDirection>) -> TuringTransition {
    TuringTransition::create(read, write, dirs).unwrap()
}

#[test]
fn create_graph_holds_initial_and_accepting_states() {
    let graph = TuringMachineGraph::new(2).unwrap();
    assert_eq!(graph.get_k(), 2);
    assert_eq!(graph.get_state_index(&String::from(DEFAULT_INIT_STATE)), Some(0));
    assert_eq!(graph.get_state_index(&String::from(DEFAULT_ACCEPTING_STATE)), Some(1));
    assert_eq!(graph.get_state(1).unwrap().state_type, TuringStateType::Accepting);
    assert_eq!(graph.get_state(0).unwrap().state_type, TuringStateType::Normal);
}

#[test]
fn create_graph_without_writing_tape_fails() {
    assert!(matches!(
        TuringMachineGraph::new(0),
        Err(TuringError::IllegalActionError { .. })
    ));
}

#[test]
fn add_state_twice_gives_the_same_index() {
    let mut graph = TuringMachineGraph::new(1).unwrap();
    let q = String::from("q");
    assert_eq!(graph.add_state(&q), 2);
    assert_eq!(graph.add_state(&q), 2);
    assert_eq!(graph.add_state(&String::from("i")), 0);
    assert_eq!(graph.get_states().len(), 3);
    assert!(matches!(
        graph.get_state(3),
        Err(TuringError::OutOfRangeStateError {
            accessed_index: 3,
            states_len: 3
        })
    ));
}

#[test]
fn append_rule_state_errors() {
    let mut graph = TuringMachineGraph::new(1).unwrap();
    let t = rule(
        vec!['ç', 'ç'],
        vec!['ç'],
        vec![TuringDirection::Right, TuringDirection::Right],
    );
    assert!(matches!(
        graph.append_rule_state(5, t.clone(), 0),
        Err(TuringError::OutOfRangeStateError {
            accessed_index: 5,
            states_len: 2
        })
    ));
    assert!(matches!(
        graph.append_rule_state(0, t.clone(), 7),
        Err(TuringError::OutOfRangeStateError {
            accessed_index: 7,
            states_len: 2
        })
    ));
    let t3 = rule(
        vec!['ç', 'ç', 'ç'],
        vec!['ç', 'ç'],
        vec![
            TuringDirection::Right,
            TuringDirection::Right,
            TuringDirection::Right,
        ],
    );
    assert!(matches!(
        graph.append_rule_state(0, t3, 1),
        Err(TuringError::IncompatibleTransitionError {
            expected: 2,
            received: 3
        })
    ));
    // Moving left from the beginning of the reading tape.
    let left = rule(
        vec!['ç', 'ç'],
        vec!['ç'],
        vec![TuringDirection::Left, TuringDirection::Right],
    );
    assert!(matches!(
        graph.append_rule_state(0, left, 1),
        Err(TuringError::IllegalActionError { .. })
    ));
    // Wrong number of written characters.
    let odd = TuringTransition::new(vec!['ç', 'ç'], TuringDirection::Right, vec![]);
    assert!(matches!(
        graph.append_rule_state(0, odd, 1),
        Err(TuringError::TransitionArgsError { .. })
    ));
    assert_eq!(graph.get_state(0).unwrap().transitions.len(), 0);
    graph.append_rule_state(0, t, 1).unwrap();
    let state = graph.get_state(0).unwrap();
    assert_eq!(state.transitions.len(), 1);
    assert_eq!(state.transitions[0].index_to_state, Some(1));
}

#[test]
fn append_rule_state_by_name_unknown_state() {
    let mut graph = TuringMachineGraph::new(1).unwrap();
    let t = rule(
        vec!['ç', 'ç'],
        vec!['ç'],
        vec![TuringDirection::Right, TuringDirection::Right],
    );
    match graph.append_rule_state_by_name(&String::from("x"), t, &String::from("a")) {
        Err(TuringError::UnknownStateError { state_name }) => assert_eq!(state_name, "x"),
        other => panic!("an unknown state was expected, not {:?}", other),
    }
}

#[test]
fn remove_transition_between_states() {
    let mut graph = TuringMachineGraph::new(1).unwrap();
    let q = String::from("q");
    graph.add_state(&q);
    let t = rule(
        vec!['ç', 'ç'],
        vec!['ç'],
        vec![TuringDirection::Right, TuringDirection::Right],
    );
    let u = rule(
        vec!['0', '_'],
        vec!['_'],
        vec![TuringDirection::Right, TuringDirection::Stay],
    );
    let i = String::from("i");
    graph.append_rule_state_by_name(&i, t.clone(), &q).unwrap();
    graph.append_rule_state_by_name(&i, u.clone(), &q).unwrap();
    graph.append_rule_state_by_name(&i, t.clone(), &String::from("a")).unwrap();
    graph.remove_transition(&i, &t, &q).unwrap();
    let state = graph.get_state(0).unwrap();
    assert_eq!(state.transitions.len(), 2);
    assert_eq!(state.transitions[0], u);
    assert_eq!(state.transitions[1].index_to_state, Some(1));
    assert!(matches!(
        graph.remove_transition(&String::from("nope"), &t, &q),
        Err(TuringError::UnknownStateError { .. })
    ));
}

#[test]
fn remove_state_updates_the_transitions() {
    let mut graph = TuringMachineGraph::new(1).unwrap();
    let q1 = String::from("q1");
    let q2 = String::from("q2");
    graph.add_state(&q1);
    graph.add_state(&q2);
    let t = rule(
        vec!['ç', 'ç'],
        vec!['ç'],
        vec![TuringDirection::Right, TuringDirection::Right],
    );
    graph.append_rule_state_by_name(&String::from("i"), t.clone(), &q1).unwrap();
    graph.append_rule_state_by_name(&String::from("i"), t.clone(), &q2).unwrap();
    graph.remove_state_with_name(&q1).unwrap();
    assert_eq!(graph.get_states().len(), 3);
    assert_eq!(graph.get_state_index(&q2), Some(2));
    let init = graph.get_state(0).unwrap();
    assert_eq!(init.transitions.len(), 1);
    assert_eq!(init.transitions[0].index_to_state, Some(2));
    assert!(matches!(
        graph.remove_state(0),
        Err(TuringError::IllegalActionError { .. })
    ));
    assert!(matches!(
        graph.remove_state(9),
        Err(TuringError::OutOfRangeStateError { .. })
    ));
    assert!(matches!(
        graph.remove_state_with_name(&q1),
        Err(TuringError::UnknownStateError { .. })
    ));
}
