use architech::catalog::{
    get_framework_by_id, get_module_by_id, CliArgument, DirectoryStructure, Framework,
    FrameworkCli, Module, ModuleConfiguration, ModuleInstallation,
};
use architech::command_runner::{
    is_critical_command, has_npm_commands, modify_content, should_retry, CommandBuilder,
    CommandOptions,
};
use architech::node_commands::{
    validate_command_inputs, validate_command_security, CommandRegistry, NodeCommandOptions,
};
use architech::project::{
    get_project_logs, get_project_status, validate_project_config, ProjectConfig, ProjectOptions,
};
use architech::state::{LogEntry, ProjectStatus};

fn sample_config() -> ProjectConfig {
    ProjectConfig {
        name: "demo".to_string(),
        path: "/tmp".to_string(),
        framework: "nextjs".to_string(),
        modules: vec!["tailwind".to_string()],
        options: ProjectOptions {
            typescript: true,
            app_router: false,
            eslint: true,
        },
        setup_command: Some("npx create-next-app@latest".to_string()),
    }
}

#[test]
fn command_builder_accumulates_its_pieces() {
    let builder = CommandBuilder::new("npm".to_string())
        .arg("install".to_string())
        .args(vec!["-D".to_string(), "tailwindcss".to_string()])
        .working_dir("/tmp/demo".to_string())
        .retries(3)
        .retry_delay(5)
        .timeout(90)
        .verify_output(false)
        .verify_project_dir(true)
        .env("CI".to_string(), "false".to_string());

    assert_eq!(builder.command, "npm");
    assert_eq!(builder.args, vec!["install", "-D", "tailwindcss"]);
    assert_eq!(builder.working_dir, "/tmp/demo");
    assert_eq!(builder.options.max_retries, 3);
    assert_eq!(builder.options.retry_delay, 5);
    assert_eq!(builder.options.timeout, 90);
    assert!(!builder.options.verify_output);
    assert!(builder.options.verify_project_dir);
    assert_eq!(
        builder.options.env_vars,
        vec![("CI".to_string(), "false".to_string())]
    );
    assert_eq!(builder.args_display(), "install -D tailwindcss");
}

#[test]
fn default_command_options() {
    let options = CommandOptions::default();
    assert_eq!(options.max_retries, 1);
    assert_eq!(options.retry_delay, 2);
    assert!(options.verify_output);
    assert_eq!(options.timeout, 120);
    assert!(!options.verify_project_dir);
    assert!(options.env_vars.is_empty());
}

#[test]
fn project_generator_detection() {
    let gen = CommandBuilder::new("npx".to_string()).arg("create-next-app@latest".to_string());
    assert!(gen.is_project_generator());
    let init = CommandBuilder::new("npm".to_string())
        .arg("init".to_string())
        .arg("-y".to_string());
    assert!(init.is_project_generator());
    let plain = CommandBuilder::new("npm".to_string()).arg("install".to_string());
    assert!(!plain.is_project_generator());
}

#[test]
fn retry_decision() {
    assert!(should_retry(1, 3, false));
    assert!(!should_retry(3, 3, false));
    assert!(!should_retry(1, 3, true));
}

#[test]
fn content_rewrites_follow_the_pattern() {
    // A valid regular expression replaces all its matches.
    let rewritten = modify_content("const a = 1; const b = 2;", r"const (\w+)", "let $1").unwrap();
    assert_eq!(rewritten, "let a = 1; let b = 2;");

    // An unclosed group is not a valid regular expression; the pattern
    // falls back to a literal replacement once the backslashes are stripped.
    let fallback = modify_content("value = old(", "old(", "new(").unwrap();
    assert_eq!(fallback, "value = new(");

    // An invalid pattern whose literal does not occur is an error.
    let missing = modify_content("nothing here", "absent(", "x").unwrap_err();
    assert_eq!(missing, "Invalid regex pattern and string not found: absent(");
}

#[test]
fn critical_commands_and_npm_detection() {
    assert!(is_critical_command("npm install -D tailwindcss"));
    assert!(is_critical_command("npx tailwindcss init"));
    assert!(!is_critical_command("echo done"));
    assert!(has_npm_commands(&vec![
        "echo hi".to_string(),
        "npx tailwindcss init -p".to_string()
    ]));
    assert!(!has_npm_commands(&vec!["echo hi".to_string()]));
}

#[test]
fn command_security_rules() {
    assert!(validate_command_security("npm install tailwindcss").is_ok());
    assert!(validate_command_security("node script.js").is_ok());
    // Not an allowed toolchain.
    assert!(validate_command_security("rm -rf /").is_err());
    // Shell control characters are forbidden.
    assert!(validate_command_security("npm install && rm -rf /").is_err());
    assert!(validate_command_security("npm run $(whoami)").is_err());
    assert!(validate_command_security("npm exec something").is_err());
}

#[test]
fn command_input_rules() {
    assert!(validate_command_inputs(true, "npm install").is_ok());
    assert!(validate_command_inputs(false, "npm install").is_err());
    assert!(validate_command_inputs(true, "   ").is_err());
}

#[test]
fn command_registry_tracks_in_flight_commands() {
    let mut registry = CommandRegistry::new();
    registry.add_command("one".to_string());
    registry.add_command("one".to_string());
    registry.add_command("two".to_string());
    assert_eq!(registry.len(), 2);
    assert!(registry.contains("one"));

    registry.remove_command("one").unwrap();
    assert_eq!(registry.len(), 1);
    let err = registry.remove_command("one").unwrap_err();
    assert_eq!(err, "Command with ID one not found");

    let drained = registry.clear_commands();
    assert_eq!(drained, vec!["two".to_string()]);
    assert_eq!(registry.len(), 0);
}

#[test]
fn node_command_options_default() {
    let options = NodeCommandOptions::default();
    assert!(options.env_vars.is_empty());
    assert!(!options.streaming);
    assert!(options.event_name.is_none());
}

#[test]
fn config_validation_names_each_problem() {
    let config = sample_config();
    let ok = validate_project_config(&config, true, false);
    assert!(ok.valid);
    assert!(ok.errors.is_empty());

    let missing_parent = validate_project_config(&config, false, false);
    assert!(!missing_parent.valid);
    assert_eq!(missing_parent.errors, vec!["Directory '/tmp' does not exist"]);

    let exists = validate_project_config(&config, true, true);
    assert!(!exists.valid);
    assert_eq!(
        exists.errors,
        vec!["Project directory '/tmp/demo' already exists"]
    );

    let mut blank = sample_config();
    blank.name = "  ".to_string();
    let invalid = validate_project_config(&blank, true, false);
    assert!(!invalid.valid);
    assert_eq!(invalid.errors, vec!["Project name cannot be empty"]);
}

#[test]
fn status_responses_mirror_the_status() {
    let generating = get_project_status(&ProjectStatus::Generating {
        current_step: "Installing".to_string(),
        progress: 40,
    });
    assert_eq!(generating.status, "generating");
    assert_eq!(generating.progress, 40);
    assert_eq!(generating.current_step, "Installing");

    let failed = get_project_status(&ProjectStatus::Failed {
        error: "boom".to_string(),
        resumable: true,
    });
    assert_eq!(failed.status, "failed");
    assert_eq!(failed.error.as_deref(), Some("boom"));
    assert!(failed.resumable);

    let completed = get_project_status(&ProjectStatus::Completed {
        path: "/tmp/demo".to_string(),
    });
    assert_eq!(completed.status, "completed");
    assert_eq!(completed.progress, 100);
    assert_eq!(completed.path.as_deref(), Some("/tmp/demo"));
}

#[test]
fn log_responses_carry_the_entries_over() {
    let entry = LogEntry::new("first line".to_string());
    let logs = vec![entry];
    let responses = get_project_logs(&logs);
    assert_eq!(responses.len(), 1);
    assert_eq!(responses[0].message, "first line");
    assert_eq!(responses[0].timestamp, logs[0].timestamp);
}

#[test]
fn catalog_lookups_find_first_matches() {
    let frameworks = vec![Framework {
        id: "nextjs".to_string(),
        name: "Next.js".to_string(),
        description: "React framework".to_string(),
        version: "13.4.0".to_string(),
        framework_type: "web".to_string(),
        tags: vec!["react".to_string()],
        cli: FrameworkCli {
            base_command: "npx create-next-app@latest".to_string(),
            arguments: vec![CliArgument {
                name: "typescript".to_string(),
                flag: Some("--typescript".to_string()),
                enabled_default: true,
                position: None,
                value: None,
            }],
            interactive: false,
            responses: Vec::new(),
        },
        compatible_modules: vec!["tailwind".to_string()],
        directory_structure: DirectoryStructure {
            enforced: true,
            directories: vec!["src".to_string(), "public".to_string()],
        },
    }];
    let found = get_framework_by_id(&frameworks, "nextjs").unwrap();
    assert_eq!(found.name, "Next.js");
    let err = get_framework_by_id(&frameworks, "svelte").unwrap_err();
    assert_eq!(err, "Framework with ID 'svelte' not found");

    let modules = vec![Module {
        id: "tailwind".to_string(),
        name: "Tailwind CSS".to_string(),
        description: String::new(),
        version: "3.3.2".to_string(),
        category: "styling".to_string(),
        dependencies: Vec::new(),
        incompatible_with: Vec::new(),
        installation: ModuleInstallation {
            commands: vec!["npm install -D tailwindcss".to_string()],
            file_operations: Vec::new(),
        },
        configuration: ModuleConfiguration {
            options: Vec::new(),
        },
    }];
    assert!(get_module_by_id(&modules, "tailwind").is_ok());
    let missing = get_module_by_id(&modules, "i18n").unwrap_err();
    assert_eq!(missing, "Module with ID 'i18n' not found");
}
