use architech::catalog::{Module, ModuleConfiguration, ModuleInstallation};
use architech::generation;
use architech::graph::BuildError;
use architech::project::{ProjectConfig, ProjectOptions};
use architech::state::{
    progress_percent, AppState, CheckpointAction, ProjectEvent, ProjectStatus, TaskStatus,
};
use architech::tasks::{TaskOutcome, TaskResult, TaskState};

fn module(id: &str, deps: &[&str]) -> Module {
    Module {
        id: id.to_string(),
        name: id.to_string(),
        description: String::new(),
        version: "1.0.0".to_string(),
        category: "styling".to_string(),
        dependencies: deps.iter().map(|d| d.to_string()).collect(),
        incompatible_with: Vec::new(),
        installation: ModuleInstallation {
            commands: Vec::new(),
            file_operations: Vec::new(),
        },
        configuration: ModuleConfiguration {
            options: Vec::new(),
        },
    }
}

fn config(modules: &[&str]) -> ProjectConfig {
    ProjectConfig {
        name: "demo".to_string(),
        path: "/tmp/projects".to_string(),
        framework: "nextjs".to_string(),
        modules: modules.iter().map(|m| m.to_string()).collect(),
        options: ProjectOptions {
            typescript: true,
            app_router: true,
            eslint: false,
        },
        setup_command: None,
    }
}

#[test]
fn create_tasks_wires_the_workflow() {
    let catalog = vec![module("tailwind", &[]), module("i18n", &["tailwind"])];
    let cfg = config(&["tailwind", "i18n"]);
    let graph = generation::create_tasks("p1", &cfg, &catalog).unwrap();

    assert_eq!(graph.nodes.len(), 4);
    assert_eq!(graph.nodes[0].id, "framework:nextjs");
    assert!(graph.nodes[0].deps.is_empty());
    assert_eq!(graph.nodes[1].id, "module:tailwind");
    assert_eq!(graph.nodes[2].id, "module:i18n");
    assert_eq!(graph.nodes[3].id, "cleanup");
    // The cleanup task depends on the framework task and every module task.
    assert_eq!(graph.nodes[3].deps.len(), 3);
    // The second module depends on the framework task and on its selected
    // sibling.
    assert!(graph.nodes[2].deps.contains(&0));
    assert!(graph.nodes[2].deps.contains(&1));
}

#[test]
fn create_tasks_always_builds_without_modules() {
    let cfg = config(&[]);
    let graph = generation::create_tasks("p1", &cfg, &Vec::new()).unwrap();
    assert_eq!(graph.nodes.len(), 2);
    assert_eq!(graph.nodes[0].id, "framework:nextjs");
    assert_eq!(graph.nodes[1].id, "cleanup");
    assert_eq!(graph.nodes[1].deps, vec![0]);
}

#[test]
fn create_tasks_rejects_self_dependency() {
    let catalog = vec![module("loop", &["loop"])];
    let cfg = config(&["loop"]);
    match generation::create_tasks("p1", &cfg, &catalog) {
        Err(BuildError::SelfDependency { module }) => assert_eq!(module, "loop"),
        other => panic!("expected a self-dependency error, got {:?}", other),
    }
}

#[test]
fn create_tasks_rejects_module_cycle() {
    let catalog = vec![module("a", &["b"]), module("b", &["a"])];
    let cfg = config(&["a", "b"]);
    match generation::create_tasks("p1", &cfg, &catalog) {
        Err(BuildError::CycleDetected { path }) => assert!(path.len() >= 1),
        other => panic!("expected a cycle error, got {:?}", other),
    }
}

#[test]
fn execute_tasks_completes_a_clean_run() {
    let catalog = vec![module("tailwind", &[])];
    let cfg = config(&["tailwind"]);
    let mut state = AppState::new();
    let mut events: Vec<ProjectEvent> = Vec::new();

    let graph = generation::create_tasks("p1", &cfg, &catalog).unwrap();
    let outcomes = vec![
        TaskOutcome { success: true, message: String::new() };
        graph.nodes.len()
    ];
    let mut actions: Vec<CheckpointAction> = Vec::new();
    let results = generation::execute_tasks(
        &mut state,
        "p1",
        &cfg,
        graph,
        &outcomes,
        &mut events,
        &mut actions,
    )
    .unwrap();
    assert_eq!(results.len(), 3);
    match state.get_project_status("p1") {
        ProjectStatus::Completed { path } => assert_eq!(path, "/tmp/projects/demo"),
        other => panic!("expected Completed, got {:?}", other),
    }
    // A successful run owes the caller exactly one checkpoint deletion.
    assert_eq!(actions.len(), 1);
    match &actions[0] {
        CheckpointAction::Remove(p) => assert_eq!(p, "p1"),
        other => panic!("expected a checkpoint removal, got {:?}", other),
    }
    // Every task is tracked Completed.
    assert_eq!(
        state.get_task_state("p1", "framework:nextjs"),
        Some(TaskStatus::Completed)
    );
    assert_eq!(state.get_task_state("p1", "cleanup"), Some(TaskStatus::Completed));
}

#[test]
fn execute_tasks_checkpoints_a_partial_failure_and_resume_finishes() {
    let catalog = vec![module("tailwind", &[]), module("i18n", &["tailwind"])];
    let cfg = config(&["tailwind", "i18n"]);
    let mut state = AppState::new();
    let mut events: Vec<ProjectEvent> = Vec::new();

    let graph = generation::create_tasks("p1", &cfg, &catalog).unwrap();
    // The second module fails; the framework and first module complete.
    let outcomes = vec![
        TaskOutcome { success: true, message: String::new() },
        TaskOutcome { success: true, message: String::new() },
        TaskOutcome { success: false, message: "install blew up".to_string() },
        TaskOutcome { success: true, message: String::new() },
    ];
    let mut actions: Vec<CheckpointAction> = Vec::new();
    let err = generation::execute_tasks(
        &mut state,
        "p1",
        &cfg,
        graph,
        &outcomes,
        &mut events,
        &mut actions,
    )
    .unwrap_err();
    assert_eq!(err, "Tasks failed during generation");
    assert!(state.can_resume("p1"));
    // A resumable failure owes the caller the checkpoint to persist.
    assert_eq!(actions.len(), 1);
    match &actions[0] {
        CheckpointAction::Persist(c) => assert_eq!(c.project_id, "p1"),
        other => panic!("expected a checkpoint persist, got {:?}", other),
    }

    let checkpoint = state.get_checkpoint("p1").unwrap();
    let mut done = checkpoint.completed_tasks.clone();
    done.sort();
    assert_eq!(
        done,
        vec!["framework:nextjs".to_string(), "module:tailwind".to_string()]
    );

    // Resume through the verified driver: only the remaining tasks run, and
    // the combined project state ends fully Completed.
    let mut executor =
        generation::resume_generation(&mut state, "p1", &catalog, &mut events).unwrap();
    let all_ok = vec![
        TaskOutcome { success: true, message: String::new() };
        executor.get_task_count()
    ];
    let resumed = generation::run_executor(
        &mut state,
        "p1",
        &cfg,
        &mut executor,
        &all_ok,
        &mut events,
        &mut actions,
    )
    .unwrap();
    let ran: Vec<String> = resumed.iter().map(|r| r.task_id.clone()).collect();
    assert_eq!(ran, vec!["module:i18n".to_string(), "cleanup".to_string()]);
    match state.get_project_status("p1") {
        ProjectStatus::Completed { path } => assert_eq!(path, "/tmp/projects/demo"),
        other => panic!("expected Completed, got {:?}", other),
    }
    assert_eq!(
        state.get_task_state("p1", "framework:nextjs"),
        Some(TaskStatus::Completed)
    );
    assert_eq!(
        state.get_task_state("p1", "module:tailwind"),
        Some(TaskStatus::Completed)
    );
    assert_eq!(
        state.get_task_state("p1", "module:i18n"),
        Some(TaskStatus::Completed)
    );
    assert_eq!(state.get_task_state("p1", "cleanup"), Some(TaskStatus::Completed));
    // The successful resume owes a checkpoint deletion.
    match actions.last() {
        Some(CheckpointAction::Remove(p)) => assert_eq!(p, "p1"),
        other => panic!("expected a checkpoint removal, got {:?}", other),
    }
}

#[test]
fn resume_refuses_projects_that_did_not_fail() {
    let mut state = AppState::new();
    let mut events: Vec<ProjectEvent> = Vec::new();
    let err = generation::resume_generation(&mut state, "missing", &Vec::new(), &mut events)
        .unwrap_err();
    assert_eq!(err, "Project cannot be resumed");
}

#[test]
fn start_generation_mints_a_uuid_project_id() {
    let catalog = vec![module("tailwind", &[])];
    let cfg = config(&["tailwind"]);
    let mut state = AppState::new();
    let mut events: Vec<ProjectEvent> = Vec::new();
    let id = generation::start_generation(&mut state, cfg, &catalog, &mut events).unwrap();
    assert_eq!(id.len(), 36);
    assert!(state.get_project_config(&id).is_some());
}

#[test]
fn cancellation_skips_pending_tasks_and_deletes_the_checkpoint() {
    let mut state = AppState::new();
    let mut events: Vec<ProjectEvent> = Vec::new();
    let e1 = state.set_task_state("p1", "t1", TaskState::Pending);
    match e1 {
        ProjectEvent::TaskStateChanged { task_id, .. } => assert_eq!(task_id, "t1"),
        other => panic!("expected a task-state event, got {:?}", other),
    }
    state.set_task_state("p1", "t2", TaskState::Completed);

    let action = generation::cancel_generation(&mut state, "p1", &mut events);
    match action {
        CheckpointAction::Remove(p) => assert_eq!(p, "p1"),
        other => panic!("expected a checkpoint removal, got {:?}", other),
    }
    assert_eq!(state.get_project_status("p1"), ProjectStatus::Cancelled);
    match state.get_task_state("p1", "t1") {
        Some(TaskStatus::Skipped(reason)) => {
            assert_eq!(reason, "Generation cancelled by user")
        }
        other => panic!("expected Skipped, got {:?}", other),
    }
    assert_eq!(state.get_task_state("p1", "t2"), Some(TaskStatus::Completed));
}

#[test]
fn completed_tasks_are_collected_once() {
    let mut state = AppState::new();
    state.set_task_state("p1", "t1", TaskState::Completed);
    state.set_task_state("p1", "t1", TaskState::Completed);
    state.set_task_state("p1", "t2", TaskState::Failed("broken".to_string()));
    assert_eq!(state.get_completed_tasks("p1"), vec!["t1".to_string()]);
}

#[test]
fn process_task_result_records_state_and_log() {
    let mut state = AppState::new();
    state.process_task_result(
        "p1",
        TaskResult {
            task_id: "t1".to_string(),
            success: false,
            message: "went wrong".to_string(),
        },
    );
    match state.get_task_state("p1", "t1") {
        Some(TaskStatus::Failed(m)) => assert_eq!(m, "went wrong"),
        other => panic!("expected Failed, got {:?}", other),
    }
    let logs = state.get_logs("p1");
    assert_eq!(logs.len(), 1);
    assert_eq!(logs[0].message, "went wrong");
}

#[test]
fn checkpoints_restore_as_resumable_failures() {
    let mut state = AppState::new();
    let checkpoint = architech::state::GenerationCheckpoint {
        project_id: "p9".to_string(),
        config: config(&[]),
        completed_tasks: vec!["framework:nextjs".to_string()],
        project_path: "/tmp/projects/demo".to_string(),
    };
    state.restore_checkpoint(checkpoint);
    assert!(state.can_resume("p9"));
    assert_eq!(
        state.get_completed_tasks("p9"),
        vec!["framework:nextjs".to_string()]
    );
}

#[test]
fn progress_is_the_done_fraction() {
    let statuses = vec![
        TaskStatus::Completed,
        TaskStatus::Skipped("cancelled".to_string()),
        TaskStatus::Running,
        TaskStatus::Pending,
    ];
    // Two of four tasks are done: 50 percent.
    assert_eq!(progress_percent(&statuses), 50);
    assert_eq!(progress_percent(&Vec::new()), 0);
    let third = vec![
        TaskStatus::Completed,
        TaskStatus::Pending,
        TaskStatus::Pending,
    ];
    // Integer percentage: one of three is 33.
    assert_eq!(progress_percent(&third), 33);
}

#[test]
fn progress_never_decreases_within_a_run() {
    let catalog = vec![module("tailwind", &[]), module("i18n", &[])];
    let cfg = config(&["tailwind", "i18n"]);
    let mut state = AppState::new();
    let mut events: Vec<ProjectEvent> = Vec::new();
    state.store_project_config("p1", cfg.clone()).unwrap();
    let graph =
        generation::initialize_and_start(&mut state, "p1", &catalog, &mut events).unwrap();

    let mut executor = architech::executor::TaskExecutor::new(graph);
    let mut last = progress_percent(&state.collect_statuses("p1"));
    loop {
        let ready = executor.find_ready_tasks();
        if ready.is_empty() {
            break;
        }
        for i in ready {
            executor.mark_running(i);
            let res = executor.record_outcome(
                i,
                &TaskOutcome {
                    success: true,
                    message: String::new(),
                },
            );
            state.process_task_result("p1", res);
            let now = progress_percent(&state.collect_statuses("p1"));
            assert!(now >= last, "progress went from {} to {}", last, now);
            last = now;
        }
    }
    assert_eq!(last, 100);
}

#[test]
fn status_updates_publish_matching_events() {
    let mut state = AppState::new();
    let (event, action) = state.set_project_status(
        "p1",
        ProjectStatus::Completed {
            path: "/somewhere".to_string(),
        },
    );
    match event {
        Some(ProjectEvent::Completed { project_id, path }) => {
            assert_eq!(project_id, "p1");
            assert_eq!(path, "/somewhere");
        }
        other => panic!("expected a completion event, got {:?}", other),
    }
    // A completed project must not keep a checkpoint on disk.
    match action {
        CheckpointAction::Remove(p) => assert_eq!(p, "p1"),
        other => panic!("expected a removal, got {:?}", other),
    }
}

#[test]
fn execute_tasks_publishes_monotone_progress_events() {
    let catalog = vec![module("tailwind", &[]), module("i18n", &["tailwind"])];
    let cfg = config(&["tailwind", "i18n"]);
    let mut state = AppState::new();
    let mut events: Vec<ProjectEvent> = Vec::new();
    let mut actions: Vec<CheckpointAction> = Vec::new();
    let graph = generation::create_tasks("p1", &cfg, &catalog).unwrap();
    let outcomes = vec![
        TaskOutcome { success: true, message: String::new() };
        graph.nodes.len()
    ];
    generation::execute_tasks(&mut state, "p1", &cfg, graph, &outcomes, &mut events, &mut actions)
        .unwrap();
    let values: Vec<u8> = events
        .iter()
        .filter_map(|e| match e {
            ProjectEvent::Progress { progress, .. } => Some(*progress),
            _ => None,
        })
        .collect();
    // One fraction before the run, one per finished task.
    assert_eq!(values.len(), 5);
    assert!(values.windows(2).all(|w| w[0] <= w[1]));
    assert_eq!(values[0], 0);
    assert_eq!(*values.last().unwrap(), 100);
}

#[test]
fn initialization_announces_the_wired_tasks() {
    let catalog = vec![module("tailwind", &[])];
    let cfg = config(&["tailwind"]);
    let mut state = AppState::new();
    let mut events: Vec<ProjectEvent> = Vec::new();
    state.store_project_config("p1", cfg).unwrap();
    let graph =
        generation::initialize_and_start(&mut state, "p1", &catalog, &mut events).unwrap();
    let completed: Vec<&ProjectEvent> = events
        .iter()
        .filter(|e| matches!(e, ProjectEvent::TaskInitializationCompleted { .. }))
        .collect();
    assert_eq!(completed.len(), 1);
    match completed[0] {
        ProjectEvent::TaskInitializationCompleted {
            project_id,
            task_count,
            task_names,
        } => {
            assert_eq!(project_id, "p1");
            assert_eq!(*task_count, graph.nodes.len());
            let expected = vec![
                ("framework:nextjs", "Setup nextjs framework"),
                ("module:tailwind", "Install module: tailwind"),
                ("cleanup", "Project cleanup"),
            ];
            assert_eq!(task_names.len(), expected.len());
            for (pair, want) in task_names.iter().zip(expected.iter()) {
                assert_eq!(pair.0, want.0);
                assert_eq!(pair.1, want.1);
            }
        }
        _ => unreachable!(),
    }
}

#[test]
fn initialization_failure_publishes_the_reason() {
    let cfg = config(&["dup", "dup"]);
    let mut state = AppState::new();
    let mut events: Vec<ProjectEvent> = Vec::new();
    state.store_project_config("p1", cfg).unwrap();
    let err = generation::initialize_and_start(&mut state, "p1", &Vec::new(), &mut events)
        .unwrap_err();
    match events.last() {
        Some(ProjectEvent::TaskInitializationFailed { project_id, reason }) => {
            assert_eq!(project_id, "p1");
            assert_eq!(*reason, err);
        }
        other => panic!("expected an initialization failure event, got {:?}", other),
    }
}

#[test]
fn resume_publishes_the_resuming_events() {
    let catalog = vec![module("tailwind", &[])];
    let cfg = config(&["tailwind"]);
    let mut state = AppState::new();
    state.create_checkpoint("p1", cfg, "/tmp/projects/demo".to_string());
    state.set_project_status(
        "p1",
        ProjectStatus::Failed {
            error: "Tasks failed during generation".to_string(),
            resumable: true,
        },
    );
    let mut events: Vec<ProjectEvent> = Vec::new();
    generation::resume_generation(&mut state, "p1", &catalog, &mut events).unwrap();
    assert_eq!(events.len(), 2);
    match &events[0] {
        ProjectEvent::LogMessage { project_id, message } => {
            assert_eq!(project_id, "p1");
            assert_eq!(message, "Resuming generation from checkpoint");
        }
        other => panic!("expected the resume log event, got {:?}", other),
    }
    match &events[1] {
        ProjectEvent::Progress { project_id, step, progress } => {
            assert_eq!(project_id, "p1");
            assert_eq!(step, "Resuming");
            assert_eq!(*progress, 0);
        }
        other => panic!("expected the resuming progress event, got {:?}", other),
    }
}
