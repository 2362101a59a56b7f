use architech::generation::resolve_module_dependencies;
use architech::catalog::{Module, ModuleConfiguration, ModuleInstallation};
use architech::project::{ProjectConfig, ProjectOptions};
use architech::store::StrMap;
use architech::strutil::{contains_sub, is_blank, starts_with, str_eq};
use architech::tasks::{
    CleanupTask, DirectoryTask, FrameworkTask, ModuleTask, RegisteredTask, TaskContext,
    TaskKindTag, TaskRegistry,
};

fn context() -> TaskContext {
    TaskContext {
        project_id: "p1".to_string(),
        project_dir: "/tmp/projects/demo".to_string(),
        config: ProjectConfig {
            name: "demo".to_string(),
            path: "/tmp/projects".to_string(),
            framework: "nextjs".to_string(),
            modules: Vec::new(),
            options: ProjectOptions {
                typescript: false,
                app_router: false,
                eslint: false,
            },
            setup_command: None,
        },
    }
}

fn module(id: &str, deps: &[&str]) -> Module {
    Module {
        id: id.to_string(),
        name: id.to_string(),
        description: String::new(),
        version: "1.0.0".to_string(),
        category: "styling".to_string(),
        dependencies: deps.iter().map(|d| d.to_string()).collect(),
        incompatible_with: Vec::new(),
        installation: ModuleInstallation {
            commands: Vec::new(),
            file_operations: Vec::new(),
        },
        configuration: ModuleConfiguration {
            options: Vec::new(),
        },
    }
}

#[test]
fn framework_task_naming() {
    let task = FrameworkTask::new("framework:nextjs".to_string(), "nextjs".to_string());
    assert_eq!(task.id, "framework:nextjs");
    assert_eq!(task.name, "Setup nextjs framework");
    assert!(task.dependencies.is_empty());

    let from_ctx = FrameworkTask::from_context(context());
    assert_eq!(from_ctx.id, "framework:nextjs");
}

#[test]
fn module_task_always_depends_on_the_framework() {
    let task = ModuleTask::with_module_id(
        "tailwind".to_string(),
        "nextjs".to_string(),
        vec!["module:base".to_string()],
    );
    assert_eq!(task.id, "module:tailwind");
    assert_eq!(task.name, "Install module: tailwind");
    assert!(task.dependencies.contains(&"module:base".to_string()));
    assert!(task.dependencies.contains(&"framework:nextjs".to_string()));

    // Already present: not duplicated.
    let again = ModuleTask::with_module_id(
        "tailwind".to_string(),
        "nextjs".to_string(),
        vec!["framework:nextjs".to_string()],
    );
    assert_eq!(again.dependencies.len(), 1);

    let mut plain = ModuleTask::new(context(), "i18n".to_string());
    assert_eq!(plain.id, "module:i18n");
    plain.set_dependencies(vec!["framework:nextjs".to_string()]);
    assert_eq!(plain.dependencies, vec!["framework:nextjs".to_string()]);
}

#[test]
fn cleanup_and_directory_tasks() {
    let mut cleanup = CleanupTask::new(context());
    assert_eq!(cleanup.id, "cleanup");
    assert_eq!(cleanup.name, "Project cleanup");
    cleanup.set_dependencies(vec!["framework:nextjs".to_string()]);
    assert_eq!(cleanup.dependencies.len(), 1);

    let mut dir = DirectoryTask::new(context());
    assert_eq!(dir.id, "directory:nextjs");
    dir.set_dependencies(vec!["framework:nextjs".to_string()]);
    assert_eq!(dir.dependencies.len(), 1);
}

#[test]
fn resolving_module_dependencies_keeps_selected_siblings() {
    let catalog = vec![
        module("a", &["b", "unselected"]),
        module("b", &[]),
        module("unselected", &[]),
    ];
    let selected = vec!["a".to_string(), "b".to_string()];
    let resolved = resolve_module_dependencies(&selected, &catalog).unwrap();
    assert_eq!(resolved.len(), 2);
    assert_eq!(resolved[0].0, "a");
    assert_eq!(resolved[0].1, vec!["b".to_string()]);
    assert!(resolved[1].1.is_empty());

    let unknown = vec!["ghost".to_string()];
    let err = resolve_module_dependencies(&unknown, &catalog).unwrap_err();
    assert_eq!(err, "Module with ID 'ghost' not found");

    let cyclic_catalog = vec![module("a", &["b"]), module("b", &["a"])];
    let cyc = resolve_module_dependencies(&selected, &cyclic_catalog).unwrap_err();
    assert!(cyc.starts_with("Circular dependency detected among modules:"));
}

#[test]
fn registry_creates_the_registered_kinds() {
    let mut registry = TaskRegistry::new();
    match registry.create_task("framework", context()) {
        Some(RegisteredTask::Framework(task)) => assert_eq!(task.id, "framework:nextjs"),
        other => panic!("expected a framework task, got {:?}", other),
    }
    match registry.create_task("module", context()) {
        Some(RegisteredTask::Module(task)) => assert_eq!(task.id, "module:default"),
        other => panic!("expected a module task, got {:?}", other),
    }
    match registry.create_task("cleanup", context()) {
        Some(RegisteredTask::Cleanup(task)) => assert_eq!(task.id, "cleanup"),
        other => panic!("expected a cleanup task, got {:?}", other),
    }
    assert!(registry.create_task("unknown", context()).is_none());

    registry.register("directory", TaskKindTag::Directory);
    match registry.create_task("directory", context()) {
        Some(RegisteredTask::Directory(task)) => assert_eq!(task.id, "directory:nextjs"),
        other => panic!("expected a directory task, got {:?}", other),
    }
}

#[test]
fn string_helpers() {
    assert!(str_eq("abc", "abc"));
    assert!(!str_eq("abc", "abd"));
    assert!(starts_with("npm install", "npm"));
    assert!(!starts_with("np", "npm"));
    assert!(contains_sub("hello world", "lo wo"));
    assert!(!contains_sub("hello", "world"));
    assert!(contains_sub("anything", ""));
    assert!(is_blank("  \t\n"));
    assert!(is_blank(""));
    assert!(!is_blank(" a "));
}

#[test]
fn string_map_behaves_like_a_map() {
    let mut map: StrMap<u64> = StrMap::new();
    assert_eq!(map.len(), 0);
    assert!(!map.contains_key("a"));
    map.insert("a".to_string(), 1);
    map.insert("b".to_string(), 2);
    map.insert("a".to_string(), 3);
    assert_eq!(map.len(), 2);
    assert_eq!(map.get("a"), Some(&3));
    assert_eq!(map.get("b"), Some(&2));
    assert_eq!(map.get("c"), None);
    assert_eq!(map.take("a"), Some(3));
    assert_eq!(map.get("a"), None);
    assert_eq!(map.take("a"), None);
    assert_eq!(map.len(), 1);
}
