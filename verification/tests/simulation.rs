use isa::graph::Graph;
use isa::instruction::LabeledInstruction;
use isa::memory_model::{PSO, SC, TSO};
use isa::parser::parse_instruction;

fn program(lines: &[&str]) -> Vec<Vec<LabeledInstruction>> {
    let mut threads: Vec<Vec<LabeledInstruction>> = vec![Vec::new()];
    for line in lines {
        if line.is_empty() {
            threads.push(Vec::new());
            continue;
        }
        let li = parse_instruction(line).unwrap();
        threads.last_mut().unwrap().push(li);
    }
    threads
}

fn mem_value(mem: &Vec<(i32, i32)>, a: i32) -> i32 {
    for (k, v) in mem.iter().rev() {
        if *k == a {
            return *v;
        }
    }
    0
}

fn sc_step_id(m: &mut SC, id: usize) {
    let c = m.get_possible_executions();
    let n = c.into_iter().find(|n| n.id == id).expect("not a candidate");
    m.step(n).unwrap();
}

fn tso_step_id(m: &mut TSO, id: usize) {
    let c = m.get_possible_executions();
    let n = c.into_iter().find(|n| n.id == id).expect("not a candidate");
    m.step(n).unwrap();
}

fn tso_is_candidate(m: &TSO, id: usize) -> bool {
    m.get_possible_executions().iter().any(|n| n.id == id)
}

fn pso_step_id(m: &mut PSO, id: usize) {
    let c = m.get_possible_executions();
    let n = c.into_iter().find(|n| n.id == id).expect("not a candidate");
    m.step(n).unwrap();
}

#[test]
fn sc_store_then_load() {
    // One thread: a = 7; x = 0; store SEQ_CST x a; load SEQ_CST x b.
    let p = program(&["a = 7", "x = 0", "store SEQ_CST x a", "load SEQ_CST x b"]);
    let mut m = SC::new(p);
    for id in 0..4 {
        sc_step_id(&mut m, id);
    }
    assert!(m.get_possible_executions().is_empty());
    assert_eq!(m.thread_system.get_register(0, "b".to_string()), 7);
    assert_eq!(mem_value(&m.storage_system.memory, 0), 7);
}

#[test]
fn sc_backward_branch_runs_loop_body_three_times() {
    let p = program(&["i = 3", "one = 1", "L: i = i - one", "if i goto L"]);
    let mut m = SC::new(p);
    let mut decrements = 0;
    let mut steps = 0;
    loop {
        let c = m.get_possible_executions();
        if c.is_empty() {
            break;
        }
        assert_eq!(c.len(), 1, "a single SC thread has one head");
        let n = c.into_iter().next().unwrap();
        if n.id == 2 {
            decrements += 1;
        }
        m.step(n).unwrap();
        steps += 1;
        assert!(steps < 100, "the loop must terminate");
    }
    assert_eq!(decrements, 3);
    assert_eq!(m.thread_system.get_register(0, "i".to_string()), 0);
}

#[test]
fn tso_buffered_store_is_invisible_to_the_other_thread() {
    // Thread 0 stores 1 at address 0; thread 1 loads address 0 while the
    // store still sits in thread 0's buffer.
    let p = program(&["x = 0", "y = 1", "store RLX x y", "", "p = 0", "load RLX p r0"]);
    let mut m = TSO::new(p);
    for id in 0..3 {
        tso_step_id(&mut m, id);
    }
    // the store is buffered, not yet in memory
    assert_eq!(m.storage_system.buffers[0], vec![(0, 1)]);
    assert_eq!(mem_value(&m.storage_system.memory, 0), 0);
    tso_step_id(&mut m, 3);
    tso_step_id(&mut m, 4);
    // the other thread read the coherent memory, not the buffer
    assert_eq!(m.thread_system.get_register(1, "r0".to_string()), 0);
    // draining the buffer makes the store visible
    tso_step_id(&mut m, 5);
    assert_eq!(mem_value(&m.storage_system.memory, 0), 1);
    assert!(m.get_possible_executions().is_empty());
}

#[test]
fn sc_same_schedule_sees_the_store() {
    // The same program and schedule as the TSO litmus: under SC the load
    // observes 1, so the TSO outcome r0 = 0 is impossible here.
    let p = program(&["x = 0", "y = 1", "store RLX x y", "", "p = 0", "load RLX p r0"]);
    let mut m = SC::new(p);
    for id in 0..5 {
        sc_step_id(&mut m, id);
    }
    assert_eq!(m.thread_system.get_register(1, "r0".to_string()), 1);
}

#[test]
fn tso_fence_waits_for_earlier_propagate() {
    let p = program(&["a = 0", "b = 1", "v = 1", "store RLX a v", "fence SEQ_CST", "store RLX b v"]);
    let mut m = TSO::new(p);
    for id in 0..4 {
        tso_step_id(&mut m, id);
    }
    // the store issued a propagate (node 6); the live fence now waits on it
    assert!(tso_is_candidate(&m, 6));
    assert!(!tso_is_candidate(&m, 4), "the fence must wait for the buffered store to drain");
    tso_step_id(&mut m, 6);
    assert_eq!(mem_value(&m.storage_system.memory, 0), 1);
    assert!(tso_is_candidate(&m, 4));
    tso_step_id(&mut m, 4);
    tso_step_id(&mut m, 5);
    tso_step_id(&mut m, 7);
    assert_eq!(mem_value(&m.storage_system.memory, 1), 1);
    assert!(m.get_possible_executions().is_empty());
}

#[test]
fn pso_reorders_stores_to_distinct_addresses() {
    let p = program(&["a = 0", "b = 1", "v = 1", "store RLX a v", "store RLX b v"]);
    let mut m = PSO::new(p);
    for id in 0..5 {
        pso_step_id(&mut m, id);
    }
    // both propagates are candidates: the one for address 1 may overtake
    pso_step_id(&mut m, 6);
    assert_eq!(mem_value(&m.storage_system.memory, 1), 1);
    assert_eq!(mem_value(&m.storage_system.memory, 0), 0, "address 0 is still buffered");
    pso_step_id(&mut m, 5);
    assert_eq!(mem_value(&m.storage_system.memory, 0), 1);
}

#[test]
fn tso_keeps_store_order_within_a_thread() {
    // The same two stores as the PSO scenario: under TSO the second
    // propagate cannot run before the first.
    let p = program(&["a = 0", "b = 1", "v = 1", "store RLX a v", "store RLX b v"]);
    let mut m = TSO::new(p);
    for id in 0..5 {
        tso_step_id(&mut m, id);
    }
    assert!(tso_is_candidate(&m, 5));
    assert!(!tso_is_candidate(&m, 6), "propagates drain FIFO per thread under TSO");
    tso_step_id(&mut m, 5);
    assert!(tso_is_candidate(&m, 6));
    tso_step_id(&mut m, 6);
    assert_eq!(mem_value(&m.storage_system.memory, 0), 1);
    assert_eq!(mem_value(&m.storage_system.memory, 1), 1);
}

#[test]
fn cas_success_adds_one_pending_propagate_and_failure_adds_none() {
    let p = program(&["z = 0", "e = 0", "d = 5", "c := cas RLX z e d", "c2 := cas RLX z e d"]);
    let mut m = TSO::new(p);
    for id in 0..3 {
        tso_step_id(&mut m, id);
    }
    assert_eq!(m.thread_system.propagate_nodes[0].len(), 0);
    tso_step_id(&mut m, 3);
    // pre-image 0 equals the expected value: success, one new propagate
    assert_eq!(m.thread_system.get_register(0, "c".to_string()), 0);
    assert_eq!(m.thread_system.propagate_nodes[0].len(), 1);
    tso_step_id(&mut m, 4);
    // pre-image is now the buffered 5: failure, no new propagate
    assert_eq!(m.thread_system.get_register(0, "c2".to_string()), 5);
    assert_eq!(m.thread_system.propagate_nodes[0].len(), 1);
    assert_eq!(m.storage_system.buffers[0].len(), 1);
}

#[test]
fn graph_remove_then_restore_round_trips() {
    let mut g = Graph::new();
    let li0 = parse_instruction("L: a = 1").unwrap();
    let li1 = parse_instruction("b = 2").unwrap();
    let id0 = g.add_node(0, li0);
    let id1 = g.add_node(0, li1);
    assert_eq!((id0, id1), (0, 1));
    g.add_edge(1, 0);
    assert_eq!(g.execution_candidates(), vec![0]);
    assert!(g.is_label_active("L".to_string()));
    g.remove_node(0);
    assert!(!g.is_label_active("L".to_string()));
    assert_eq!(g.execution_candidates(), vec![1]);
    g.remove_node(1);
    assert!(g.execution_candidates().is_empty());
    assert_eq!(g.restore_node(), None);
    assert_eq!(g.execution_candidates(), vec![1]);
    assert_eq!(g.restore_node(), Some("L".to_string()));
    assert!(g.is_label_active("L".to_string()));
    assert_eq!(g.execution_candidates(), vec![0]);
    assert!(g.is_node_active(0));
    assert!(g.is_node_active(1));
}

#[test]
fn unknown_label_counts_as_active() {
    let g = Graph::new();
    assert!(g.is_label_active("missing".to_string()));
}

#[test]
fn sc_random_run_reaches_the_unique_outcome() {
    // A single thread has one schedule, so the sampled run must reach it.
    let p = program(&["a = 7", "x = 0", "store SEQ_CST x a", "load SEQ_CST x b"]);
    let mut m = SC::new(p);
    let mut steps = 0;
    loop {
        match m.random_step().unwrap() {
            Some(_) => {},
            None => break,
        }
        steps += 1;
        assert!(steps < 100);
    }
    assert_eq!(steps, 4);
    assert_eq!(m.thread_system.get_register(0, "b".to_string()), 7);
    assert_eq!(mem_value(&m.storage_system.memory, 0), 7);
}

#[test]
fn tso_random_run_drains_the_buffers() {
    // Acquire modes pin the program order, so every schedule reaches the
    // same outcome; the store's drain may land anywhere after it.
    let p = program(&["a = 7", "x = 0", "store REL_ACQ x a", "load ACQ x b"]);
    let mut m = TSO::new(p);
    let mut steps = 0;
    loop {
        assert!(m.has_room());
        match m.random_step().unwrap() {
            Some(_) => {},
            None => break,
        }
        steps += 1;
        assert!(steps < 100);
    }
    // four instructions plus exactly one propagate for the one store
    assert_eq!(steps, 5);
    assert_eq!(m.thread_system.get_register(0, "b".to_string()), 7);
    assert_eq!(mem_value(&m.storage_system.memory, 0), 7);
    assert!(m.storage_system.buffers[0].is_empty());
}

#[test]
fn division_by_zero_is_reported_and_changes_nothing() {
    let p = program(&["a = 1", "z = 0", "b = a / z"]);
    let mut m = SC::new(p);
    sc_step_id(&mut m, 0);
    sc_step_id(&mut m, 1);
    let c = m.get_possible_executions();
    assert_eq!(c.len(), 1);
    let n = c.into_iter().next().unwrap();
    let r = m.step(n);
    assert!(matches!(r, Err(isa::memory_model::StepError::DivisionByZero)));
    // the faulting event stays in the graph and nothing was assigned
    assert_eq!(m.get_possible_executions().len(), 1);
    assert_eq!(m.thread_system.get_register(0, "b".to_string()), 0);
}

#[test]
fn division_truncates_toward_zero() {
    let p = program(&["a = -7", "b = 2", "c = a / b"]);
    let mut m = SC::new(p);
    for id in 0..3 {
        sc_step_id(&mut m, id);
    }
    assert_eq!(m.thread_system.get_register(0, "c".to_string()), -3);
}

#[test]
fn random_step_reports_the_division_fault() {
    // One thread, so each sampled step is forced: the third candidate is
    // the division by zero.
    let p = program(&["a = 1", "z = 0", "b = a / z"]);
    let mut m = SC::new(p);
    assert!(matches!(m.random_step(), Ok(Some(_))));
    assert!(matches!(m.random_step(), Ok(Some(_))));
    assert!(matches!(
        m.random_step(),
        Err(isa::memory_model::StepError::DivisionByZero)
    ));
    // the fault leaves the run where it was
    assert_eq!(m.get_possible_executions().len(), 1);
}
