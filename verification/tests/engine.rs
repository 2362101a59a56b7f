use architech::executor::{EngineFault, TaskExecutor};
use architech::graph::{BuildError, PlannedTask, TaskGraph};
use architech::tasks::{TaskOutcome, TaskState};

fn planned(id: &str, name: &str, deps: &[&str]) -> PlannedTask {
    PlannedTask {
        id: id.to_string(),
        name: name.to_string(),
        dependencies: deps.iter().map(|d| d.to_string()).collect(),
    }
}

fn ok_outcome() -> TaskOutcome {
    TaskOutcome {
        success: true,
        message: String::new(),
    }
}

fn fail_outcome(msg: &str) -> TaskOutcome {
    TaskOutcome {
        success: false,
        message: msg.to_string(),
    }
}

fn workflow_graph() -> TaskGraph {
    let tasks = vec![
        planned("F", "Framework", &[]),
        planned("M1", "Module one", &["F"]),
        planned("M2", "Module two", &["F", "M1"]),
        planned("C", "Cleanup", &["F", "M1", "M2"]),
    ];
    TaskGraph::from_planned(&tasks).unwrap()
}

fn state_of(executor: &TaskExecutor, id: &str) -> TaskState {
    let states = executor.get_states();
    for i in 0..executor.get_task_count() {
        if executor.task_id(i).as_str() == id {
            return states[i].clone();
        }
    }
    panic!("unknown task id {}", id);
}

fn position(results: &[architech::tasks::TaskResult], id: &str) -> usize {
    for (k, r) in results.iter().enumerate() {
        if r.task_id.as_str() == id {
            return k;
        }
    }
    panic!("no result for task {}", id);
}

#[test]
fn scenario_all_succeed_completes_in_dependency_order() {
    let mut executor = TaskExecutor::new(workflow_graph());
    let outcomes = vec![ok_outcome(), ok_outcome(), ok_outcome(), ok_outcome()];
    let results = executor.execute_all(&outcomes).unwrap();

    assert_eq!(results.len(), 4);
    for r in &results {
        assert!(r.success);
    }
    assert_eq!(state_of(&executor, "F"), TaskState::Completed);
    assert_eq!(state_of(&executor, "M1"), TaskState::Completed);
    assert_eq!(state_of(&executor, "M2"), TaskState::Completed);
    assert_eq!(state_of(&executor, "C"), TaskState::Completed);

    let f = position(&results, "F");
    let m1 = position(&results, "M1");
    let m2 = position(&results, "M2");
    let c = position(&results, "C");
    assert!(f < m1);
    assert!(f < m2);
    assert!(m1 < m2);
    assert!(m2 < c);

    // Level-by-level scheduling: the longest chain F, M1, M2, C takes four
    // rounds, and never more.
    assert_eq!(executor.rounds_used(), 4);
}

#[test]
fn scenario_failure_cascades_to_dependents() {
    let mut executor = TaskExecutor::new(workflow_graph());
    let outcomes = vec![
        ok_outcome(),
        fail_outcome("module one broke"),
        ok_outcome(),
        ok_outcome(),
    ];
    // A partial failure is a normal termination, not an engine fault.
    let results = executor.execute_all(&outcomes).unwrap();

    assert_eq!(state_of(&executor, "F"), TaskState::Completed);
    assert_eq!(
        state_of(&executor, "M1"),
        TaskState::Failed("module one broke".to_string())
    );
    assert_eq!(state_of(&executor, "M2"), TaskState::Pending);
    assert_eq!(state_of(&executor, "C"), TaskState::Pending);

    // Terminated: one failed, two blocked; only F and M1 ever produced a
    // result.
    assert_eq!(results.len(), 2);
    let failed = results.iter().filter(|r| !r.success).count();
    assert_eq!(failed, 1);
    let m1 = results.iter().find(|r| r.task_id == "M1").unwrap();
    assert_eq!(m1.message, "module one broke");
    let f = results.iter().find(|r| r.task_id == "F").unwrap();
    assert_eq!(f.message, "Task Framework completed successfully");
}

#[test]
fn scenario_injected_cycle_is_engine_fault() {
    // A cycle injected directly at the executor, bypassing builder
    // validation.
    let tasks = vec![planned("A", "A", &["B"]), planned("B", "B", &["A"])];
    let graph = TaskGraph::from_planned(&tasks).unwrap();
    let mut executor = TaskExecutor::new(graph);
    let outcomes = vec![ok_outcome(), ok_outcome()];
    match executor.execute_all(&outcomes) {
        Ok(_) => panic!("a cycle must be reported as an engine fault"),
        Err(EngineFault::CycleDetected { implicated }) => {
            let mut ids: Vec<String> = implicated.iter().cloned().collect();
            ids.sort();
            assert_eq!(ids, vec!["A".to_string(), "B".to_string()]);
        }
        Err(other) => panic!("unexpected fault {:?}", other),
    }
    // It terminated within the round ceiling: no round ever ran.
    assert_eq!(executor.rounds_used(), 0);
    assert_eq!(state_of(&executor, "A"), TaskState::Pending);
    assert_eq!(state_of(&executor, "B"), TaskState::Pending);
}

#[test]
fn scenario_cycle_beside_failure_still_faults() {
    // A failed branch does not excuse an unrelated cycle: X fails, while A
    // and B form a cycle with no failed ancestor.
    let tasks = vec![
        planned("X", "X", &[]),
        planned("A", "A", &["B"]),
        planned("B", "B", &["A"]),
    ];
    let graph = TaskGraph::from_planned(&tasks).unwrap();
    let mut executor = TaskExecutor::new(graph);
    let outcomes = vec![fail_outcome("boom"), ok_outcome(), ok_outcome()];
    match executor.execute_all(&outcomes) {
        Err(EngineFault::CycleDetected { implicated }) => {
            let mut ids: Vec<String> = implicated.iter().cloned().collect();
            ids.sort();
            assert_eq!(ids, vec!["A".to_string(), "B".to_string()]);
        }
        other => panic!("expected a cycle fault, got {:?}", other),
    }
}

#[test]
fn scenario_resume_runs_exactly_the_remainder() {
    // A first run fails after F and M1 complete.
    let mut first = TaskExecutor::new(workflow_graph());
    let outcomes = vec![
        ok_outcome(),
        ok_outcome(),
        fail_outcome("m2 interrupted"),
        ok_outcome(),
    ];
    let results = first.execute_all(&outcomes).unwrap();
    let completed: Vec<String> = results
        .iter()
        .filter(|r| r.success)
        .map(|r| r.task_id.clone())
        .collect();
    let mut sorted = completed.clone();
    sorted.sort();
    assert_eq!(sorted, vec!["F".to_string(), "M1".to_string()]);

    // Resume from the checkpointed completed set: only M2 and C run, in
    // that order, and everything ends Completed.
    let mut resumed = TaskExecutor::resumed(workflow_graph(), &completed);
    let all_ok = vec![ok_outcome(), ok_outcome(), ok_outcome(), ok_outcome()];
    let resumed_results = resumed.execute_all(&all_ok).unwrap();

    let ran: Vec<String> = resumed_results.iter().map(|r| r.task_id.clone()).collect();
    assert_eq!(ran, vec!["M2".to_string(), "C".to_string()]);
    assert_eq!(state_of(&resumed, "F"), TaskState::Completed);
    assert_eq!(state_of(&resumed, "M1"), TaskState::Completed);
    assert_eq!(state_of(&resumed, "M2"), TaskState::Completed);
    assert_eq!(state_of(&resumed, "C"), TaskState::Completed);
}

#[test]
fn rounds_never_exceed_longest_chain() {
    // A wide, shallow graph: many independent tasks, one dependent layer.
    let tasks = vec![
        planned("a", "a", &[]),
        planned("b", "b", &[]),
        planned("c", "c", &[]),
        planned("d", "d", &["a", "b", "c"]),
    ];
    let graph = TaskGraph::from_planned(&tasks).unwrap();
    let mut executor = TaskExecutor::new(graph);
    let outcomes = vec![ok_outcome(), ok_outcome(), ok_outcome(), ok_outcome()];
    executor.execute_all(&outcomes).unwrap();
    // The longest dependency chain has two tasks: two rounds.
    assert_eq!(executor.rounds_used(), 2);
}

#[test]
fn find_ready_tasks_lists_sources() {
    let executor = TaskExecutor::new(workflow_graph());
    let ready = executor.find_ready_tasks();
    assert_eq!(ready.len(), 1);
    assert_eq!(executor.task_id(ready[0]).as_str(), "F");
    assert!(executor.can_make_progress());
}

#[test]
fn builder_rejects_unknown_dependency() {
    let tasks = vec![planned("a", "a", &["ghost"])];
    match TaskGraph::from_planned(&tasks) {
        Err(BuildError::UnknownDependency { task, dependency }) => {
            assert_eq!(task, "a");
            assert_eq!(dependency, "ghost");
        }
        other => panic!("expected an unknown-dependency error, got {:?}", other),
    }
}

#[test]
fn builder_rejects_duplicate_ids() {
    let tasks = vec![planned("a", "first", &[]), planned("a", "second", &[])];
    match TaskGraph::from_planned(&tasks) {
        Err(BuildError::DuplicateTask { task }) => assert_eq!(task, "a"),
        other => panic!("expected a duplicate-task error, got {:?}", other),
    }
}

#[test]
fn find_cycle_reports_the_path() {
    let tasks = vec![
        planned("a", "a", &["b"]),
        planned("b", "b", &["c"]),
        planned("c", "c", &["a"]),
    ];
    let graph = TaskGraph::from_planned(&tasks).unwrap();
    let cycle = graph.find_cycle().expect("the cycle must be found");
    assert!(cycle.len() >= 1);
    // Every reported index lies on a real edge to the next one.
    for k in 0..cycle.len() {
        let from = cycle[k];
        let to = cycle[(k + 1) % cycle.len()];
        assert!(graph.nodes[from].deps.contains(&to));
    }
}

#[test]
fn find_cycle_accepts_acyclic_graphs() {
    let graph = workflow_graph();
    assert!(graph.find_cycle().is_none());
}
