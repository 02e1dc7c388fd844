use ritm_core::turing_graph::TuringMachineGraph;
use ritm_core::turing_machine::{Mode, TuringExecutionSteps, TuringMachines};
use ritm_core::turing_parser::parse_turing_graph_string;
use ritm_core::turing_state::{TuringDirection, TuringStateType, TuringTransition};
use ritm_core::turing_tape::TuringTape;

const TM_ACCEPT_XX: &str = "// Turing machine that only accepts words of the form : xx
q_i {ç, ç -> R, ç, R} q_1;

q_1 {0, _ -> R, 0, R
    |1, _ -> R, 1, R} q_1;
q_1 {0, _ -> N, _, L
    |1, _ -> N, _, L} q_2;

q_2 { 0, 0 -> N, 0, L
    | 0, 1 -> N, 1, L
    | 1, 0 -> N, 0, L
    | 1, 1 -> N, 1, L} q_2;
q_2 { 0, ç -> N, ç, R 
    | 1, ç -> N, ç, R } q_3;

q_3 { 0, 0 -> R, 0, R 
    | 1, 1 -> R, 1, R } q_3;
q_3 { $, _ -> N, _, N } q_a;";

const TM_INF: &str = "// Turing machine is infinite 
q_i {ç, ç -> N, ç, N} q_i;";

#[test]
fn save_all_accept() {
    let tm_graph = get_test_non_deter_graph();

    let mut turing_machine =
        TuringMachines::new(tm_graph, String::from("0111110"), Mode::SaveAll).unwrap();

    let mut saved_state = None;
    let mut counter = 0;
    while let Some(steps) = turing_machine.next_step() {
        counter += 1;

        if counter == 1000 {
            return;
        }
        saved_state = Some(steps);
    }

    if let Some(state) = saved_state {
        match state {
            TuringExecutionSteps::FirstIteration { .. } => panic!("Wrong outcome"),
            TuringExecutionSteps::TransitionTaken { reached_state, .. } => {
                assert_eq!(TuringStateType::Accepting, reached_state.state_type)
            }
            TuringExecutionSteps::Backtracked { .. } => panic!("Wrong outcome"),
        }
    }
}

#[test]
fn save_all_not_accept() {
    let tm_graph = get_test_non_deter_graph();

    let mut turing_machine =
        TuringMachines::new(tm_graph, String::from("0100"), Mode::SaveAll).unwrap();

    let mut saved_state = None;
    while let Some(steps) = turing_machine.next_step() {
        saved_state = Some(steps);
    }

    if let Some(state) = saved_state {
        match state {
            TuringExecutionSteps::FirstIteration { .. } => panic!("Wrong outcome"),
            TuringExecutionSteps::TransitionTaken { reached_state, .. } => {
                assert_ne!(TuringStateType::Accepting, reached_state.state_type)
            }
            TuringExecutionSteps::Backtracked { .. } => panic!("Wrong outcome"),
        }
    }
}

#[test]
fn stop_after() {
    let mut turing_machine = get_small_inf_machine(Mode::StopAfter(10000));

    let mut counter = 0;
    while let Some(_steps) = turing_machine.next_step() {
        counter += 1;
    }

    assert_eq!(counter, 10000)
}

#[test]
fn stop_first_reject() {
    let tm_graph = get_test_non_deter_graph();

    let mut turing_machine =
        TuringMachines::new(tm_graph, String::from("010"), Mode::StopFirstReject).unwrap();

    let mut counter = 0;
    let mut last_step = None;
    while let Some(steps) = turing_machine.next_step() {
        counter += 1;

        if counter == 1000 {
            return;
        }

        last_step = Some(steps);
    }

    if let Some(step) = last_step {
        if let TuringExecutionSteps::TransitionTaken { reached_state, .. } = step {
            assert_ne!(reached_state.state_type, TuringStateType::Accepting);
            return;
        }
    }
    panic!("The iteration didn't stop like it was supposed to");
}

/// Gets a non determinist Turing machine graph.
/// Return a turing machine that checks if a given inputed value is of the form `x1y` with `|x| = |y|`.
fn get_test_non_deter_graph() -> TuringMachineGraph {
    let q1 = &String::from("q1");
    let q2 = &String::from("q2");
    let mut graph = TuringMachineGraph::new(1).unwrap();

    graph.add_state(&q1);
    graph.add_state(&q2);

    // q_0 -> {ç, ç, => R, ç, R} -> q_1
    let mut transition = TuringTransition::create(
        vec!['ç', 'ç'],
        vec!['ç'],
        vec![TuringDirection::Right, TuringDirection::Right],
    )
    .unwrap();
    graph
        .append_rule_state_by_name(&String::from("i"), transition.clone(), &q1)
        .unwrap();

    // q_1 -> {0, _ => R, a, R} -> q_1
    transition = TuringTransition::create(
        vec!['0', '_'],
        vec!['a'],
        vec![TuringDirection::Right, TuringDirection::Right],
    )
    .unwrap();
    graph
        .append_rule_state_by_name(&q1, transition.clone(), &q1)
        .unwrap();
    // q_1 -> {1, _ => R, a, R} -> q_1
    transition = TuringTransition::create(
        vec!['1', '_'],
        vec!['a'],
        vec![TuringDirection::Right, TuringDirection::Right],
    )
    .unwrap();
    graph
        .append_rule_state_by_name(&q1, transition.clone(), &q1)
        .unwrap();

    // q_1 -> {1, _ => R, _, L} -> q_2
    transition = TuringTransition::create(
        vec!['1', '_'],
        vec!['_'],
        vec![TuringDirection::Right, TuringDirection::Left],
    )
    .unwrap();
    graph
        .append_rule_state_by_name(&q1, transition.clone(), &q2)
        .unwrap();

    // q_2 -> {0, a => R, a, L} -> q_2
    transition = TuringTransition::create(
        vec!['0', 'a'],
        vec!['a'],
        vec![TuringDirection::Right, TuringDirection::Left],
    )
    .unwrap();
    graph
        .append_rule_state_by_name(&q2, transition.clone(), &q2)
        .unwrap();

    // q_2 -> {1, a => R, a, L} -> q_2
    transition = TuringTransition::create(
        vec!['1', 'a'],
        vec!['a'],
        vec![TuringDirection::Right, TuringDirection::Left],
    )
    .unwrap();
    graph
        .append_rule_state_by_name(&q2, transition.clone(), &q2)
        .unwrap();

    // q_2 -> {$, ç => N, ç, N} -> a
    transition = TuringTransition::create(
        vec!['$', 'ç'],
        vec!['ç'],
        vec![TuringDirection::Stay, TuringDirection::Stay],
    )
    .unwrap();
    graph
        .append_rule_state_by_name(&q2, transition.clone(), &String::from("a"))
        .unwrap();

    return graph;
}

fn get_small_inf_machine(mode: Mode) -> TuringMachines {
    let q1 = &String::from("q1");

    let mut graph = TuringMachineGraph::new(1).unwrap();
    graph.add_state(q1);

    // q_0 -> {ç, ç, => R, ç, R} -> q_1
    let transition = TuringTransition::create(
        vec!['ç', 'ç'],
        vec!['ç'],
        vec![TuringDirection::Right, TuringDirection::Right],
    )
    .unwrap();
    graph
        .append_rule_state_by_name(&String::from("i"), transition.clone(), &q1)
        .unwrap();

    // q_1 -> {1, _, => N, _, N} -> q_1
    let transition = TuringTransition::create(
        vec!['1', '_'],
        vec!['_'],
        vec![TuringDirection::Stay, TuringDirection::Stay],
    )
    .unwrap();
    graph
        .append_rule_state_by_name(&q1, transition.clone(), &q1)
        .unwrap();

    TuringMachines::new(graph, String::from("1"), mode).unwrap()
}

#[test]
fn get_path_to_accept_test() {
    let tm = parse_turing_graph_string(TM_ACCEPT_XX.to_string()).unwrap();

    let mut tm = TuringMachines::new(tm, String::from("1010"), Mode::SaveAll).unwrap();

    let mut count = 0;
    let path = tm
        .get_path_to_accept(|| {
            count += 1;
            count <= 2000
        })
        .unwrap();

    let mut path_iter = path.iter();
    // Skip first step
    let first_step = path_iter.next().unwrap();

    let mut reading_tape = first_step.get_reading_ribbon().clone();
    let mut writting_tapes = first_step.get_writting_ribbons().clone();

    let mut last_step_type = first_step.get_current_state().state_type.clone();
    // Check that the path leads to the correct output.
    tm.reset();
    for step in path_iter {
        last_step_type = step.get_current_state().state_type.clone();
        match &step {
            TuringExecutionSteps::TransitionTaken {
                transition_taken, ..
            } => {
                assert!(reading_tape
                    .try_apply_transition(
                        transition_taken.chars_read[0],
                        ' ',
                        &transition_taken.move_read
                    )
                    .unwrap());
                for i in 0..(transition_taken.get_number_of_affected_tapes() - 1) {
                    assert!(writting_tapes[i]
                        .try_apply_transition(
                            transition_taken.chars_read[i + 1],
                            transition_taken.chars_write[i].0,
                            &transition_taken.chars_write[i].1
                        )
                        .unwrap());
                }
            }
            TuringExecutionSteps::Backtracked { .. } => {
                panic!("No backtracking step was supposed to be found here");
            }
            TuringExecutionSteps::FirstIteration { .. } => {
                panic!("Wrong step struct found");
            }
        }
    }
    // Of course the last state must also be the accepting one
    assert_eq!(TuringStateType::Accepting, last_step_type)
}

#[test]
fn get_path_to_accept_exit_condition_test() {
    // Checks that the exist condition works by using an infinite turing machine
    let tm = parse_turing_graph_string(TM_INF.to_string()).unwrap();

    // Here the mode will not allow the machine to end, therefore only the exit condition can force the execution to stop
    let mut tm = TuringMachines::new(tm, String::from("1"), Mode::SaveAll).unwrap();
    let mut count = 0;
    let path = tm.get_path_to_accept(|| {
        count += 1;
        count <= 10000
    });

    if path.is_some() {
        panic!("Expected no path to be found but a value was returned.");
    }
}

#[test]
fn get_path_to_accept_exit_mode_test() {
    // Checks that the exist condition works by using an infinite turing machine
    let tm = parse_turing_graph_string(TM_INF.to_string()).unwrap();

    let mut tm = TuringMachines::new(tm, String::from("1"), Mode::StopAfter(10)).unwrap();
    // No exit condition, therefore it could loop forever, if not for the mode
    let path = tm.get_path_to_accept(|| true);

    if path.is_some() {
        panic!("Expected no path to be found but a value was returned.");
    }
}

#[test]
fn get_path_to_accept_rejected_test() {
    let tm = parse_turing_graph_string(TM_ACCEPT_XX.to_string()).unwrap();

    let mut tm = TuringMachines::new(tm, String::from("10101"), Mode::SaveAll).unwrap();

    // Checks that it returns none when no path exists (no inf loop here)

    let path = tm.get_path_to_accept(|| true);

    if path.is_some() {
        panic!("Expected no path to be found but a value was returned.");
    }
}

// ________________________________________ Own tests ______________________________

#[test]
fn first_step_then_transitions() {
    let mut tm = get_small_inf_machine(Mode::StopAfter(3));
    match tm.next_step() {
        Some(TuringExecutionSteps::FirstIteration { init_state, .. }) => {
            assert_eq!(init_state.name, "i")
        }
        other => panic!("the first step was expected, not {:?}", other),
    }
    match tm.next_step() {
        Some(TuringExecutionSteps::TransitionTaken {
            reached_state,
            state_pointer,
            transition_index_taken,
            iteration,
            ..
        }) => {
            assert_eq!(reached_state.name, "q1");
            assert_eq!(state_pointer, 2);
            assert_eq!(transition_index_taken, 0);
            assert_eq!(iteration, 1);
        }
        other => panic!("a transition was expected, not {:?}", other),
    }
    assert_eq!(tm.get_iteration(), 2);
    assert_eq!(tm.get_state_pointer(), 2);
    assert!(!tm.is_over());
}

#[test]
fn machine_rejects_bad_word() {
    let graph = get_test_non_deter_graph();
    assert!(TuringMachines::new(graph, String::from("01$"), Mode::SaveAll).is_err());
}

#[test]
fn reset_word_restarts_the_execution() {
    let graph = parse_turing_graph_string(TM_ACCEPT_XX.to_string()).unwrap();
    let mut tm = TuringMachines::new(graph, String::from("10101"), Mode::SaveAll).unwrap();
    assert!(tm.get_path_to_accept(|| true).is_none());
    tm.reset_word(&String::from("1010")).unwrap();
    assert_eq!(tm.get_word(), "1010");
    assert!(tm.get_path_to_accept(|| true).is_some());
}

#[test]
fn get_path_to_accept_within_bound() {
    let graph = parse_turing_graph_string(TM_ACCEPT_XX.to_string()).unwrap();
    let mut tm = TuringMachines::new(graph, String::from("1010"), Mode::StopAfter(2000)).unwrap();
    let path = tm.get_path_to_accept(|| true).unwrap();
    let last = path.last().unwrap();
    assert_eq!(last.get_current_state().state_type, TuringStateType::Accepting);
    assert!(tm.is_over());
}

#[test]
fn get_path_to_accept_is_repeatable() {
    let graph = parse_turing_graph_string(TM_ACCEPT_XX.to_string()).unwrap();
    let mut tm = TuringMachines::new(graph, String::from("1010"), Mode::SaveAll).unwrap();
    // Some steps first: the search starts again from the beginning.
    tm.next_step();
    tm.next_step();
    let first: Vec<(usize, usize)> = tm
        .get_path_to_accept(|| true)
        .unwrap()
        .iter()
        .map(|s| (s.get_nb_iterations(), s.get_state_pointer()))
        .collect();
    let graph = parse_turing_graph_string(TM_ACCEPT_XX.to_string()).unwrap();
    let mut fresh = TuringMachines::new(graph, String::from("1010"), Mode::SaveAll).unwrap();
    let second: Vec<(usize, usize)> = fresh
        .get_path_to_accept(|| true)
        .unwrap()
        .iter()
        .map(|s| (s.get_nb_iterations(), s.get_state_pointer()))
        .collect();
    assert_eq!(first, second);
    assert_eq!(tm.get_iteration(), fresh.get_iteration());
}
