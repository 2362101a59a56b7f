//! Project configuration, validation and externally visible responses.

use vstd::prelude::*;
use crate::state::{LogEntry, ProjectStatus};
use crate::strutil::{all_blank, is_blank};
use vstd::string::StringExecFns;

verus! {

/// What the user asked to generate: a project name, a parent directory,
/// a framework, the selected modules and a few framework options.
#[derive(Debug, Clone)]
pub struct ProjectConfig {
    pub name: String,
    pub path: String,
    pub framework: String,
    pub modules: Vec<String>,
    pub options: ProjectOptions,
    pub setup_command: Option<String>,
}

/// Framework-level switches carried through to the setup command.
#[derive(Debug, Clone, Copy)]
pub struct ProjectOptions {
    pub typescript: bool,
    pub app_router: bool,
    pub eslint: bool,
}

/// Two configurations carry the same values.
pub open spec fn config_eq(a: ProjectConfig, b: ProjectConfig) -> bool {
    &&& a.name == b.name
    &&& a.path == b.path
    &&& a.framework == b.framework
    &&& a.modules@ == b.modules@
    &&& a.options == b.options
    &&& a.setup_command == b.setup_command
}

impl ProjectConfig {
    /// An equal copy of this configuration.
    pub fn duplicate(&self) -> (r: Self)
        ensures
            config_eq(r, *self),
    {
        let setup_command = match &self.setup_command {
            Some(s) => Some(s.clone()),
            None => None,
        };
        let r = ProjectConfig {
            name: self.name.clone(),
            path: self.path.clone(),
            framework: self.framework.clone(),
            modules: crate::strutil::clone_strings(&self.modules),
            options: self.options,
            setup_command,
        };
        r
    }
}

/// Outcome of validating a [`ProjectConfig`] before any work starts.
#[derive(Debug)]
pub struct ValidationResult {
    pub valid: bool,
    pub errors: Vec<String>,
}

/// A request parameter naming one project.
pub struct ProjectIdParam {
    pub project_id: String,
}

/// The externally visible summary of a project's generation state.
#[derive(Debug)]
pub struct ProjectStatusResponse {
    pub status: String,
    pub progress: u8,
    pub current_step: String,
    pub path: Option<String>,
    pub error: Option<String>,
    pub resumable: bool,
}

/// One log line handed back to a caller.
#[derive(Debug)]
pub struct ProjectLogResponse {
    pub timestamp: u64,
    pub message: String,
}

/// The configuration is rejected when its name or path is blank, when the
/// parent directory is missing, or when the target directory already exists.
/// The existence checks are answered by the caller, which inspects the disk.
pub fn validate_project_config(
    config: &ProjectConfig,
    path_exists: bool,
    project_dir_exists: bool,
) -> (r: ValidationResult)
    ensures
        r.valid == (r.errors@.len() == 0),
        r.valid == (!all_blank(config.name@) && !all_blank(config.path@) && path_exists
            && !project_dir_exists),
{
    let mut errors: Vec<String> = Vec::new();

    if is_blank(config.name.as_str()) {
        errors.push(String::from_str("Project name cannot be empty"));
    }

    if is_blank(config.path.as_str()) {
        errors.push(String::from_str("Project path cannot be empty"));
    } else {
        if !path_exists {
            errors.push(
                String::from_str("Directory '").concat(config.path.as_str()).concat(
                    "' does not exist",
                ),
            );
        }
        if project_dir_exists {
            errors.push(
                String::from_str("Project directory '").concat(config.path.as_str()).concat(
                    "/",
                ).concat(config.name.as_str()).concat("' already exists"),
            );
        }
    }

    let valid = errors.len() == 0;
    ValidationResult { valid, errors }
}

/// Convert a project's internal status into the externally visible response.
pub fn get_project_status(status: &ProjectStatus) -> (r: ProjectStatusResponse)
    ensures
        status is NotStarted ==> r.status@ == "not_started"@ && r.progress == 0 && r.path is None
            && r.error is None && !r.resumable,
        status is Preparing ==> r.status@ == "preparing"@ && r.progress == 0 && r.path is None
            && r.error is None && !r.resumable,
        status matches ProjectStatus::Generating { current_step, progress } ==> r.status@
            == "generating"@ && r.progress == progress && r.current_step@ == current_step@
            && r.path is None && r.error is None && !r.resumable,
        status matches ProjectStatus::Completed { path } ==> r.status@ == "completed"@ && r.progress
            == 100 && (r.path matches Some(p) && p@ == path@) && r.error is None && !r.resumable,
        status matches ProjectStatus::Failed { error, resumable } ==> r.status@ == "failed"@
            && r.progress == 0 && r.path is None && (r.error matches Some(e) && e@ == error@)
            && r.resumable == resumable,
        status is Cancelled ==> r.status@ == "cancelled"@ && r.progress == 0 && r.path is None
            && r.error is Some && !r.resumable,
{
    match status {
        ProjectStatus::NotStarted => ProjectStatusResponse {
            status: String::from_str("not_started"),
            progress: 0,
            current_step: String::new(),
            path: None,
            error: None,
            resumable: false,
        },
        ProjectStatus::Preparing => ProjectStatusResponse {
            status: String::from_str("preparing"),
            progress: 0,
            current_step: String::from_str("Preparing"),
            path: None,
            error: None,
            resumable: false,
        },
        ProjectStatus::Generating { current_step, progress } => ProjectStatusResponse {
            status: String::from_str("generating"),
            progress: *progress,
            current_step: current_step.clone(),
            path: None,
            error: None,
            resumable: false,
        },
        ProjectStatus::Completed { path } => ProjectStatusResponse {
            status: String::from_str("completed"),
            progress: 100,
            current_step: String::from_str("Completed"),
            path: Some(path.clone()),
            error: None,
            resumable: false,
        },
        ProjectStatus::Failed { error, resumable } => ProjectStatusResponse {
            status: String::from_str("failed"),
            progress: 0,
            current_step: String::from_str("Failed"),
            path: None,
            error: Some(error.clone()),
            resumable: *resumable,
        },
        ProjectStatus::Cancelled => ProjectStatusResponse {
            status: String::from_str("cancelled"),
            progress: 0,
            current_step: String::from_str("Cancelled"),
            path: None,
            error: Some(String::from_str("Project generation was cancelled")),
            resumable: false,
        },
    }
}

/// Convert a project's log entries into the externally visible responses.
pub fn get_project_logs(logs: &Vec<LogEntry>) -> (r: Vec<ProjectLogResponse>)
    ensures
        r@.len() == logs@.len(),
        forall|i: int|
            0 <= i < r@.len() ==> (#[trigger] r@[i]).timestamp == logs@[i].timestamp && r@[i]
                .message@ == logs@[i].message@,
{
    let n = logs.len();
    let mut r: Vec<ProjectLogResponse> = Vec::new();
    let mut i: usize = 0;
    while i < n
        invariant
            n == logs@.len(),
            0 <= i <= n,
            r@.len() == i,
            forall|j: int|
                0 <= j < i ==> (#[trigger] r@[j]).timestamp == logs@[j].timestamp && r@[j].message@
                    == logs@[j].message@,
        decreases n - i,
    {
        r.push(
            ProjectLogResponse { timestamp: logs[i].timestamp, message: logs[i].message.clone() },
        );
        i = i + 1;
    }
    r
}

} // verus!
