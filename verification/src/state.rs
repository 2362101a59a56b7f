//! Project state management: per-project status, task-state tables, logs,
//! checkpoints and configurations, together with the events and disk actions
//! each update publishes for the caller to perform.

use vstd::prelude::*;
use vstd::string::StringExecFns;
use crate::project::ProjectConfig;
use crate::store::StrMap;
use crate::strutil::clone_strings;
use crate::tasks::{contains_id, TaskResult, TaskState};

verus! {

/// The externally tracked status of one task, a total state machine: every
/// task reaches a terminal state (Completed, Failed or Skipped).
#[derive(Debug, Clone)]
pub enum TaskStatus {
    Pending,
    Running,
    Completed,
    Failed(String),
    Skipped(String),
}

impl PartialEq for TaskStatus {
    fn eq(&self, other: &TaskStatus) -> (r: bool) {
        match (self, other) {
            (TaskStatus::Pending, TaskStatus::Pending) => true,
            (TaskStatus::Running, TaskStatus::Running) => true,
            (TaskStatus::Completed, TaskStatus::Completed) => true,
            (TaskStatus::Failed(a), TaskStatus::Failed(b)) => *a == *b,
            (TaskStatus::Skipped(a), TaskStatus::Skipped(b)) => *a == *b,
            _ => false,
        }
    }
}

impl vstd::std_specs::cmp::PartialEqSpecImpl for TaskStatus {
    open spec fn obeys_eq_spec() -> bool {
        true
    }

    open spec fn eq_spec(&self, other: &TaskStatus) -> bool {
        match (self, other) {
            (TaskStatus::Pending, TaskStatus::Pending) => true,
            (TaskStatus::Running, TaskStatus::Running) => true,
            (TaskStatus::Completed, TaskStatus::Completed) => true,
            (TaskStatus::Failed(a), TaskStatus::Failed(b)) => a@ == b@,
            (TaskStatus::Skipped(a), TaskStatus::Skipped(b)) => a@ == b@,
            _ => false,
        }
    }
}

/// The status that tracks an executor-level task state.
pub open spec fn status_of(state: TaskState) -> TaskStatus {
    match state {
        TaskState::Pending => TaskStatus::Pending,
        TaskState::Running => TaskStatus::Running,
        TaskState::Completed => TaskStatus::Completed,
        TaskState::Failed(m) => TaskStatus::Failed(m),
    }
}

/// Metadata of one generation task, as registered for observers.
#[derive(Debug, Clone)]
pub struct GenerationTask {
    pub id: String,
    pub name: String,
    pub description: String,
    pub status: TaskStatus,
    pub progress: u8,
    pub dependencies: Vec<String>,
}

/// The externally visible summary of one project's generation.
#[derive(Debug, Clone)]
pub enum ProjectStatus {
    /// Project is not currently being generated.
    NotStarted,
    /// Project is being prepared for generation.
    Preparing,
    /// Project is currently being generated.
    Generating { current_step: String, progress: u8 },
    /// Project generation completed successfully.
    Completed { path: String },
    /// Project generation failed.
    Failed { error: String, resumable: bool },
    /// Project generation was cancelled by the user.
    Cancelled,
}

impl ProjectStatus {
    /// An equal copy of this status.
    pub fn duplicate(&self) -> (r: Self)
        ensures
            r == *self,
    {
        match self {
            ProjectStatus::NotStarted => ProjectStatus::NotStarted,
            ProjectStatus::Preparing => ProjectStatus::Preparing,
            ProjectStatus::Generating { current_step, progress } => ProjectStatus::Generating {
                current_step: current_step.clone(),
                progress: *progress,
            },
            ProjectStatus::Completed { path } => ProjectStatus::Completed { path: path.clone() },
            ProjectStatus::Failed { error, resumable } => ProjectStatus::Failed {
                error: error.clone(),
                resumable: *resumable,
            },
            ProjectStatus::Cancelled => ProjectStatus::Cancelled,
        }
    }
}

impl PartialEq for ProjectStatus {
    fn eq(&self, other: &ProjectStatus) -> (r: bool) {
        match (self, other) {
            (ProjectStatus::NotStarted, ProjectStatus::NotStarted) => true,
            (ProjectStatus::Preparing, ProjectStatus::Preparing) => true,
            (
                ProjectStatus::Generating { current_step: a, progress: p },
                ProjectStatus::Generating { current_step: b, progress: q },
            ) => *a == *b && *p == *q,
            (ProjectStatus::Completed { path: a }, ProjectStatus::Completed { path: b }) => *a
                == *b,
            (
                ProjectStatus::Failed { error: a, resumable: p },
                ProjectStatus::Failed { error: b, resumable: q },
            ) => *a == *b && *p == *q,
            (ProjectStatus::Cancelled, ProjectStatus::Cancelled) => true,
            _ => false,
        }
    }
}

impl vstd::std_specs::cmp::PartialEqSpecImpl for ProjectStatus {
    open spec fn obeys_eq_spec() -> bool {
        true
    }

    open spec fn eq_spec(&self, other: &ProjectStatus) -> bool {
        match (self, other) {
            (ProjectStatus::NotStarted, ProjectStatus::NotStarted) => true,
            (ProjectStatus::Preparing, ProjectStatus::Preparing) => true,
            (
                ProjectStatus::Generating { current_step: a, progress: p },
                ProjectStatus::Generating { current_step: b, progress: q },
            ) => a@ == b@ && p == q,
            (ProjectStatus::Completed { path: a }, ProjectStatus::Completed { path: b }) => a@
                == b@,
            (
                ProjectStatus::Failed { error: a, resumable: p },
                ProjectStatus::Failed { error: b, resumable: q },
            ) => a@ == b@ && p == q,
            (ProjectStatus::Cancelled, ProjectStatus::Cancelled) => true,
            _ => false,
        }
    }
}

/// A state transition or progress update, published to observers. Delivery
/// is best-effort; consumers can always poll the authoritative state.
#[derive(Debug, Clone)]
pub enum ProjectEvent {
    /// Project generation started.
    Started { project_id: String },
    /// Project generation progress updated.
    Progress { project_id: String, step: String, progress: u8 },
    /// Project generation completed.
    Completed { project_id: String, path: String },
    /// Project generation failed.
    Failed { project_id: String, error: String, resumable: bool },
    /// Project generation was cancelled by the user.
    Cancelled { project_id: String },
    /// A task changed state.
    TaskStateChanged { project_id: String, task_id: String, state: TaskState },
    /// A log message was recorded.
    LogMessage { project_id: String, message: String },
    /// Task initialization started.
    TaskInitializationStarted { project_id: String },
    /// Task initialization progress.
    TaskInitializationProgress { project_id: String, message: String },
    /// Task initialization completed, with the wired tasks' ids and names.
    TaskInitializationCompleted {
        project_id: String,
        task_count: usize,
        task_names: Vec<(String, String)>,
    },
    /// Task initialization failed.
    TaskInitializationFailed { project_id: String, reason: String },
}

/// What the caller must do on disk after a status update: nothing, persist
/// this checkpoint under its project id, or delete the stored checkpoint of
/// the named project.
#[derive(Debug)]
pub enum CheckpointAction {
    NoAction,
    Persist(GenerationCheckpoint),
    Remove(String),
}

/// One log line of a project.
#[derive(Debug, Clone)]
pub struct LogEntry {
    /// Seconds since the Unix epoch when the entry was recorded.
    pub timestamp: u64,
    /// Message content.
    pub message: String,
}

/// Relies on std::time::SystemTime::now for the current wall-clock time:
/// seconds since the Unix epoch, zero if the clock reads earlier than it.
#[verifier::external_body]
fn now_unix_seconds() -> u64 {
    std::time::SystemTime::now().duration_since(std::time::UNIX_EPOCH).map(
        |d| d.as_secs(),
    ).unwrap_or(0)
}

impl LogEntry {
    /// Create a new log entry stamped with the current time.
    pub fn new(message: String) -> (r: Self)
        ensures
            r.message@ == message@,
    {
        Self { timestamp: now_unix_seconds(), message }
    }

    /// An equal copy of this entry.
    pub fn duplicate(&self) -> (r: Self)
        ensures
            r == *self,
    {
        Self { timestamp: self.timestamp, message: self.message.clone() }
    }
}

/// What is persisted after a resumable failure: enough to rebuild the graph
/// and skip the work already done.
#[derive(Debug, Clone)]
pub struct GenerationCheckpoint {
    /// Project ID.
    pub project_id: String,
    /// The originating configuration.
    pub config: ProjectConfig,
    /// Ids of the tasks that had Completed.
    pub completed_tasks: Vec<String>,
    /// Path to the project.
    pub project_path: String,
}

/// Two checkpoints carry the same values.
pub open spec fn checkpoint_eq(a: GenerationCheckpoint, b: GenerationCheckpoint) -> bool {
    &&& a.project_id == b.project_id
    &&& crate::project::config_eq(a.config, b.config)
    &&& a.completed_tasks@ == b.completed_tasks@
    &&& a.project_path == b.project_path
}

impl GenerationCheckpoint {
    /// An equal copy of this checkpoint.
    pub fn duplicate(&self) -> (r: Self)
        ensures
            checkpoint_eq(r, *self),
    {
        Self {
            project_id: self.project_id.clone(),
            config: self.config.duplicate(),
            completed_tasks: clone_strings(&self.completed_tasks),
            project_path: self.project_path.clone(),
        }
    }
}

/// Is this status counted as finished work for progress purposes?
pub open spec fn counts_done(s: TaskStatus) -> bool {
    s is Completed || s is Skipped
}

/// How many statuses count as done.
pub open spec fn done_count(s: Seq<TaskStatus>) -> int
    decreases s.len(),
{
    if s.len() == 0 {
        0
    } else {
        done_count(s.drop_last()) + if counts_done(s.last()) {
            1int
        } else {
            0int
        }
    }
}

/// The completion fraction as an integer percentage.
pub open spec fn percent_of(s: Seq<TaskStatus>) -> int {
    if s.len() == 0 {
        0
    } else {
        done_count(s) * 100 / s.len() as int
    }
}

pub proof fn lemma_done_count_bounds(s: Seq<TaskStatus>)
    ensures
        0 <= done_count(s) <= s.len(),
    decreases s.len(),
{
    if s.len() > 0 {
        lemma_done_count_bounds(s.drop_last());
    }
}

proof fn lemma_done_count_le(s: Seq<TaskStatus>, t: Seq<TaskStatus>)
    requires
        s.len() == t.len(),
        forall|i: int| 0 <= i < s.len() && counts_done(s[i]) ==> counts_done(t[i]),
    ensures
        done_count(s) <= done_count(t),
    decreases s.len(),
{
    if s.len() > 0 {
        lemma_done_count_le(s.drop_last(), t.drop_last());
    }
}

/// One task status may evolve into another within a run: Pending may move
/// anywhere, Running may finish, and a terminal status never changes.
pub open spec fn status_progresses(a: TaskStatus, b: TaskStatus) -> bool {
    match a {
        TaskStatus::Pending => true,
        TaskStatus::Running => b is Running || b is Completed || b is Failed,
        _ => b == a,
    }
}

/// Within a single run the progress fraction is monotonically
/// non-decreasing: if every task's status evolved legally from `s` to `t`,
/// the percentage cannot drop.
/// The statuses a project's task table holds, in registration order: the
/// sequence the progress fraction is computed over.
pub open spec fn statuses_of(m: StrMap<TaskStatus>) -> Seq<TaskStatus> {
    m.spec_entries().map_values(|p: (String, TaskStatus)| p.1)
}

/// Does this event carry a progress percentage?
pub open spec fn is_progress_event(e: ProjectEvent) -> bool {
    e is Progress
}

/// The percentage a Progress event carries (immaterial for other events).
pub open spec fn event_percent(e: ProjectEvent) -> u8 {
    match e {
        ProjectEvent::Progress { progress, .. } => progress,
        _ => 0,
    }
}

pub proof fn lemma_progress_monotonic(s: Seq<TaskStatus>, t: Seq<TaskStatus>)
    requires
        s.len() == t.len(),
        forall|i: int| 0 <= i < s.len() ==> status_progresses(s[i], #[trigger] t[i]),
    ensures
        percent_of(s) <= percent_of(t),
{
    if s.len() > 0 {
        assert forall|i: int| 0 <= i < s.len() && counts_done(s[i]) implies counts_done(t[i]) by {
            assert(status_progresses(s[i], t[i]));
        }
        lemma_done_count_le(s, t);
        vstd::arithmetic::div_mod::lemma_div_is_ordered(
            done_count(s) * 100,
            done_count(t) * 100,
            s.len() as int,
        );
    }
}

/// The shared application state: one table per concern, each keyed by
/// project id. The only shared mutable resource of the engine; all disk and
/// observer work is returned as values for the caller to perform.
#[derive(Debug)]
pub struct AppState {
    projects: StrMap<ProjectStatus>,
    logs: StrMap<Vec<LogEntry>>,
    task_states: StrMap<StrMap<TaskStatus>>,
    task_metadata: StrMap<StrMap<GenerationTask>>,
    completed_tasks: StrMap<Vec<String>>,
    checkpoints: StrMap<GenerationCheckpoint>,
    project_configs: StrMap<ProjectConfig>,
}

impl AppState {
    /// Project statuses by project id.
    pub closed spec fn spec_projects(&self) -> Map<Seq<char>, ProjectStatus> {
        self.projects@
    }

    /// Log lines by project id.
    pub closed spec fn spec_logs(&self) -> Map<Seq<char>, Vec<LogEntry>> {
        self.logs@
    }

    /// Task status tables by project id.
    pub closed spec fn spec_task_states(&self) -> Map<Seq<char>, StrMap<TaskStatus>> {
        self.task_states@
    }

    /// Task metadata tables by project id.
    pub closed spec fn spec_task_metadata(&self) -> Map<Seq<char>, StrMap<GenerationTask>> {
        self.task_metadata@
    }

    /// Completed-task id lists by project id.
    pub closed spec fn spec_completed(&self) -> Map<Seq<char>, Vec<String>> {
        self.completed_tasks@
    }

    /// In-memory checkpoints by project id.
    pub closed spec fn spec_checkpoints(&self) -> Map<Seq<char>, GenerationCheckpoint> {
        self.checkpoints@
    }

    /// Stored configurations by project id.
    pub closed spec fn spec_configs(&self) -> Map<Seq<char>, ProjectConfig> {
        self.project_configs@
    }

    /// Create a new application state with no projects.
    pub fn new() -> (r: Self)
        ensures
            r.spec_projects() =~= Map::<Seq<char>, ProjectStatus>::empty(),
            r.spec_logs() =~= Map::<Seq<char>, Vec<LogEntry>>::empty(),
            r.spec_task_states() =~= Map::<Seq<char>, StrMap<TaskStatus>>::empty(),
            r.spec_completed() =~= Map::<Seq<char>, Vec<String>>::empty(),
            r.spec_checkpoints() =~= Map::<Seq<char>, GenerationCheckpoint>::empty(),
            r.spec_configs() =~= Map::<Seq<char>, ProjectConfig>::empty(),
    {
        AppState {
            projects: StrMap::new(),
            logs: StrMap::new(),
            task_states: StrMap::new(),
            task_metadata: StrMap::new(),
            completed_tasks: StrMap::new(),
            checkpoints: StrMap::new(),
            project_configs: StrMap::new(),
        }
    }

    /// Set a project's status. Returns the event to publish, and the
    /// checkpoint work the caller owes: a completed or cancelled project's
    /// checkpoint is deleted (it must not linger), and a resumable failure
    /// persists the in-memory checkpoint if one exists.
    pub fn set_project_status(&mut self, project_id: &str, status: ProjectStatus) -> (r: (
        Option<ProjectEvent>,
        CheckpointAction,
    ))
        ensures
            final(self).spec_projects() == old(self).spec_projects().insert(project_id@, status),
            final(self).spec_logs() == old(self).spec_logs(),
            final(self).spec_task_states() == old(self).spec_task_states(),
            final(self).spec_completed() == old(self).spec_completed(),
            final(self).spec_checkpoints() == old(self).spec_checkpoints(),
            final(self).spec_configs() == old(self).spec_configs(),
            status is NotStarted ==> r.0 is None,
            status is Preparing ==> (r.0 matches Some(ProjectEvent::Started { project_id: p })
                && p@ == project_id@),
            status matches ProjectStatus::Generating { current_step, progress } ==> (r.0
                matches Some(ProjectEvent::Progress { project_id: p, step, progress: q }) && p@
                == project_id@ && step@ == current_step@ && q == progress),
            status matches ProjectStatus::Completed { path } ==> (r.0 matches Some(
                ProjectEvent::Completed { project_id: p, path: q },
            ) && p@ == project_id@ && q@ == path@),
            status matches ProjectStatus::Failed { error, resumable } ==> (r.0 matches Some(
                ProjectEvent::Failed { project_id: p, error: e, resumable: b },
            ) && p@ == project_id@ && e@ == error@ && b == resumable),
            status is Cancelled ==> (r.0 matches Some(ProjectEvent::Cancelled { project_id: p })
                && p@ == project_id@),
            (status is Completed || status is Cancelled) ==> (r.1 matches CheckpointAction::Remove(
                p,
            ) && p@ == project_id@),
            (status matches ProjectStatus::Failed { resumable, .. } && resumable && old(self).spec_checkpoints().contains_key(project_id@)) ==> (r.1
                matches CheckpointAction::Persist(c) && checkpoint_eq(
                c,
                old(self).spec_checkpoints()[project_id@],
            )),
            (status matches ProjectStatus::Failed { resumable, .. } && !(resumable && old(self).spec_checkpoints().contains_key(project_id@))) ==> r.1 is NoAction,
            (status is NotStarted || status is Preparing || status is Generating) ==> r.1
                is NoAction,
    {
        let event: Option<ProjectEvent> = match &status {
            ProjectStatus::NotStarted => None,
            ProjectStatus::Preparing => Some(
                ProjectEvent::Started { project_id: String::from_str(project_id) },
            ),
            ProjectStatus::Generating { current_step, progress } => Some(
                ProjectEvent::Progress {
                    project_id: String::from_str(project_id),
                    step: current_step.clone(),
                    progress: *progress,
                },
            ),
            ProjectStatus::Completed { path } => Some(
                ProjectEvent::Completed {
                    project_id: String::from_str(project_id),
                    path: path.clone(),
                },
            ),
            ProjectStatus::Failed { error, resumable } => Some(
                ProjectEvent::Failed {
                    project_id: String::from_str(project_id),
                    error: error.clone(),
                    resumable: *resumable,
                },
            ),
            ProjectStatus::Cancelled => Some(
                ProjectEvent::Cancelled { project_id: String::from_str(project_id) },
            ),
        };
        let action: CheckpointAction = match &status {
            ProjectStatus::Completed { .. } => CheckpointAction::Remove(
                String::from_str(project_id),
            ),
            ProjectStatus::Cancelled => CheckpointAction::Remove(String::from_str(project_id)),
            ProjectStatus::Failed { resumable, .. } => {
                if *resumable {
                    match self.checkpoints.get(project_id) {
                        Some(c) => CheckpointAction::Persist(c.duplicate()),
                        None => CheckpointAction::NoAction,
                    }
                } else {
                    CheckpointAction::NoAction
                }
            },
            _ => CheckpointAction::NoAction,
        };
        self.projects.insert(String::from_str(project_id), status);
        (event, action)
    }

    /// Get a project's status; a project never seen is NotStarted.
    pub fn get_project_status(&self, project_id: &str) -> (r: ProjectStatus)
        ensures
            self.spec_projects().contains_key(project_id@) ==> r == self.spec_projects()[project_id@],
            !self.spec_projects().contains_key(project_id@) ==> r is NotStarted,
    {
        match self.projects.get(project_id) {
            Some(s) => s.duplicate(),
            None => ProjectStatus::NotStarted,
        }
    }

    /// Append a log entry for a project and return the event to publish.
    pub fn add_log(&mut self, project_id: &str, message: &str) -> (r: ProjectEvent)
        ensures
            final(self).spec_logs().contains_key(project_id@),
            final(self).spec_logs()[project_id@]@.len() == (if old(self).spec_logs().contains_key(
                project_id@,
            ) {
                old(self).spec_logs()[project_id@]@.len() + 1int
            } else {
                1int
            }),
            final(self).spec_logs()[project_id@]@.last().message@ == message@,
            old(self).spec_logs().contains_key(project_id@) ==> final(self).spec_logs()[project_id@]@.drop_last() == old(self).spec_logs()[project_id@]@,
            final(self).spec_logs() == old(self).spec_logs().insert(
                project_id@,
                final(self).spec_logs()[project_id@],
            ),
            final(self).spec_projects() == old(self).spec_projects(),
            final(self).spec_task_states() == old(self).spec_task_states(),
            final(self).spec_completed() == old(self).spec_completed(),
            final(self).spec_checkpoints() == old(self).spec_checkpoints(),
            final(self).spec_configs() == old(self).spec_configs(),
            r matches ProjectEvent::LogMessage { project_id: p, message: m } && p@ == project_id@
                && m@ == message@,
    {
        let mut entries = match self.logs.take(project_id) {
            Some(v) => v,
            None => Vec::new(),
        };
        entries.push(LogEntry::new(String::from_str(message)));
        self.logs.insert(String::from_str(project_id), entries);
        proof {
            assert(final(self).spec_logs() =~= old(self).spec_logs().insert(
                project_id@,
                final(self).spec_logs()[project_id@],
            ));
        }
        ProjectEvent::LogMessage {
            project_id: String::from_str(project_id),
            message: String::from_str(message),
        }
    }

    /// Get a project's log lines, oldest first.
    pub fn get_logs(&self, project_id: &str) -> (r: Vec<LogEntry>)
        ensures
            self.spec_logs().contains_key(project_id@) ==> r@ == self.spec_logs()[project_id@]@,
            !self.spec_logs().contains_key(project_id@) ==> r@.len() == 0,
    {
        match self.logs.get(project_id) {
            Some(v) => {
                let mut r: Vec<LogEntry> = Vec::new();
                let mut i: usize = 0;
                while i < v.len()
                    invariant
                        0 <= i <= v@.len(),
                        r@.len() == i,
                        forall|j: int| 0 <= j < i ==> r@[j] == v@[j],
                    decreases v@.len() - i,
                {
                    r.push(v[i].duplicate());
                    i = i + 1;
                }
                proof {
                    assert(r@ =~= v@);
                }
                r
            },
            None => Vec::new(),
        }
    }

    /// Set a task's state; a Completed task joins the project's completed
    /// set (once). Returns the event to publish.
    pub fn set_task_state(&mut self, project_id: &str, task_id: &str, state: TaskState) -> (r:
        ProjectEvent)
        ensures
            final(self).spec_task_states().contains_key(project_id@),
            final(self).spec_task_states()[project_id@]@ == (if old(self).spec_task_states().contains_key(project_id@) {
                old(self).spec_task_states()[project_id@]@
            } else {
                Map::<Seq<char>, TaskStatus>::empty()
            }).insert(task_id@, status_of(state)),
            final(self).spec_task_states() == old(self).spec_task_states().insert(
                project_id@,
                final(self).spec_task_states()[project_id@],
            ),
            old(self).spec_task_states().contains_key(project_id@) && old(
                self,
            ).spec_task_states()[project_id@]@.contains_key(task_id@) ==> exists|i: int|
                0 <= i < statuses_of(old(self).spec_task_states()[project_id@]).len() && #[trigger] statuses_of(
                    old(self).spec_task_states()[project_id@],
                )[i] == old(self).spec_task_states()[project_id@]@[task_id@] && statuses_of(
                    final(self).spec_task_states()[project_id@],
                ) == statuses_of(old(self).spec_task_states()[project_id@]).update(
                    i,
                    status_of(state),
                ),
            state is Completed ==> final(self).spec_completed().contains_key(project_id@)
                && contains_id(final(self).spec_completed()[project_id@]@, task_id@),
            state is Completed ==> final(self).spec_completed() == old(self).spec_completed().insert(project_id@, final(self).spec_completed()[project_id@]),
            state is Completed ==> ({
                let before = if old(self).spec_completed().contains_key(project_id@) {
                    old(self).spec_completed()[project_id@]@
                } else {
                    Seq::<String>::empty()
                };
                let after = final(self).spec_completed()[project_id@]@;
                if contains_id(before, task_id@) {
                    after == before
                } else {
                    after.len() == before.len() + 1 && after.drop_last() == before
                        && after.last()@ == task_id@
                }
            }),
            !(state is Completed) ==> final(self).spec_completed() == old(self).spec_completed(),
            final(self).spec_projects() == old(self).spec_projects(),
            final(self).spec_logs() == old(self).spec_logs(),
            final(self).spec_checkpoints() == old(self).spec_checkpoints(),
            final(self).spec_configs() == old(self).spec_configs(),
            r matches ProjectEvent::TaskStateChanged { project_id: p, task_id: t, state: s } && p@
                == project_id@ && t@ == task_id@ && s == state,
    {
        let is_completed = match &state {
            TaskState::Completed => true,
            _ => false,
        };
        let event_state = match &state {
            TaskState::Pending => TaskState::Pending,
            TaskState::Running => TaskState::Running,
            TaskState::Completed => TaskState::Completed,
            TaskState::Failed(m) => TaskState::Failed(m.clone()),
        };
        let status = match state {
            TaskState::Pending => TaskStatus::Pending,
            TaskState::Running => TaskStatus::Running,
            TaskState::Completed => TaskStatus::Completed,
            TaskState::Failed(m) => TaskStatus::Failed(m),
        };
        let mut inner = match self.task_states.take(project_id) {
            Some(m) => m,
            None => StrMap::new(),
        };
        let ghost inner0 = inner;
        let key = String::from_str(task_id);
        let ghost gkey = key;
        let ghost gstatus = status;
        inner.insert(key, status);
        let ghost inner1 = inner;
        self.task_states.insert(String::from_str(project_id), inner);
        proof {
            assert(self.spec_task_states() =~= old(self).spec_task_states().insert(
                project_id@,
                self.spec_task_states()[project_id@],
            ));
            if old(self).spec_task_states().contains_key(project_id@)
                && old(self).spec_task_states()[project_id@]@.contains_key(task_id@) {
                let e0 = inner0.spec_entries();
                let i = choose|i: int|
                    0 <= i < e0.len() && (#[trigger] e0[i]).0@ == gkey@ && e0[i].1
                        == inner0@[gkey@] && inner1.spec_entries() == e0.update(i, (gkey, gstatus));
                assert(statuses_of(inner0)[i] == inner0@[task_id@]);
                assert(statuses_of(inner1) =~= statuses_of(inner0).update(i, status_of(state)));
                assert(self.spec_task_states()[project_id@] == inner1);
            }
        }

        if is_completed {
            let mut done = match self.completed_tasks.take(project_id) {
                Some(v) => v,
                None => Vec::new(),
            };
            let ghost d0 = done@;
            let mut already = false;
            let mut j: usize = 0;
            while j < done.len()
                invariant
                    done@ == d0,
                    0 <= j <= done@.len(),
                    already ==> contains_id(done@, task_id@),
                    !already ==> forall|m: int| 0 <= m < j ==> done@[m]@ != task_id@,
                decreases done@.len() - j,
            {
                if crate::strutil::str_eq(done[j].as_str(), task_id) {
                    already = true;
                    assert(done@[j as int]@ == task_id@);
                }
                j = j + 1;
            }
            proof {
                if !already {
                    assert(!contains_id(d0, task_id@)) by {
                        if contains_id(d0, task_id@) {
                            let m = choose|m: int| 0 <= m < d0.len() && d0[m]@ == task_id@;
                            assert(false);
                        }
                    }
                }
            }
            if !already {
                let ghost at = done@.len();
                done.push(String::from_str(task_id));
                proof {
                    assert(done@[at as int]@ == task_id@);
                    assert(done@.drop_last() =~= d0);
                }
            }
            assert(contains_id(done@, task_id@));
            self.completed_tasks.insert(String::from_str(project_id), done);
            proof {
                assert(final(self).spec_completed() =~= old(self).spec_completed().insert(
                    project_id@,
                    final(self).spec_completed()[project_id@],
                ));
            }
        }

        ProjectEvent::TaskStateChanged {
            project_id: String::from_str(project_id),
            task_id: String::from_str(task_id),
            state: event_state,
        }
    }

    /// Get a task's tracked status.
    pub fn get_task_state(&self, project_id: &str, task_id: &str) -> (r: Option<TaskStatus>)
        ensures
            r matches Some(s) ==> self.spec_task_states().contains_key(project_id@)
                && self.spec_task_states()[project_id@]@.contains_key(task_id@)
                && s == self.spec_task_states()[project_id@]@[task_id@],
            r is None ==> (!self.spec_task_states().contains_key(project_id@)
                || !self.spec_task_states()[project_id@]@.contains_key(task_id@)),
    {
        match self.task_states.get(project_id) {
            Some(inner) => match inner.get(task_id) {
                Some(s) => {
                    let c = match s {
                        TaskStatus::Pending => TaskStatus::Pending,
                        TaskStatus::Running => TaskStatus::Running,
                        TaskStatus::Completed => TaskStatus::Completed,
                        TaskStatus::Failed(m) => TaskStatus::Failed(m.clone()),
                        TaskStatus::Skipped(m) => TaskStatus::Skipped(m.clone()),
                    };
                    Some(c)
                },
                None => None,
            },
            None => None,
        }
    }

    /// The tracked status table of a project, if any.
    pub fn get_all_task_states(&self, project_id: &str) -> (r: Option<&StrMap<TaskStatus>>)
        ensures
            r matches Some(m) ==> self.spec_task_states().contains_key(project_id@) && *m
                == self.spec_task_states()[project_id@],
            r is None ==> !self.spec_task_states().contains_key(project_id@),
    {
        self.task_states.get(project_id)
    }

    /// The statuses of a project's tasks, in registration order; empty for
    /// an unknown project. Feedstock for the progress fraction.
    pub fn collect_statuses(&self, project_id: &str) -> (r: Vec<TaskStatus>)
        ensures
            self.spec_task_states().contains_key(project_id@) ==> r@.len()
                == self.spec_task_states()[project_id@].spec_entries().len(),
            !self.spec_task_states().contains_key(project_id@) ==> r@.len() == 0,
            forall|i: int|
                0 <= i < r@.len() ==> r@[i] == self.spec_task_states()[project_id@].spec_entries()[i].1,
    {
        match self.task_states.get(project_id) {
            Some(inner) => {
                let n = inner.len();
                let mut r: Vec<TaskStatus> = Vec::new();
                let mut i: usize = 0;
                while i < n
                    invariant
                        n == inner.spec_entries().len(),
                        0 <= i <= n,
                        r@.len() == i,
                        forall|j: int| 0 <= j < i ==> r@[j] == inner.spec_entries()[j].1,
                    decreases n - i,
                {
                    let s = match inner.value_at(i) {
                        TaskStatus::Pending => TaskStatus::Pending,
                        TaskStatus::Running => TaskStatus::Running,
                        TaskStatus::Completed => TaskStatus::Completed,
                        TaskStatus::Failed(m) => TaskStatus::Failed(m.clone()),
                        TaskStatus::Skipped(m) => TaskStatus::Skipped(m.clone()),
                    };
                    r.push(s);
                    i = i + 1;
                }
                r
            },
            None => Vec::new(),
        }
    }

    /// The completed-task ids of a project, for checkpointing.
    pub fn get_completed_tasks(&self, project_id: &str) -> (r: Vec<String>)
        ensures
            self.spec_completed().contains_key(project_id@) ==> r@ == self.spec_completed()[project_id@]@,
            !self.spec_completed().contains_key(project_id@) ==> r@.len() == 0,
    {
        match self.completed_tasks.get(project_id) {
            Some(v) => clone_strings(v),
            None => Vec::new(),
        }
    }

    /// Build a checkpoint from the currently completed tasks, remember it,
    /// and hand it back for the caller to persist.
    pub fn create_checkpoint(
        &mut self,
        project_id: &str,
        config: ProjectConfig,
        project_path: String,
    ) -> (r: GenerationCheckpoint)
        ensures
            r.project_id@ == project_id@,
            r.config == config,
            r.project_path == project_path,
            r.completed_tasks@ == (if old(self).spec_completed().contains_key(project_id@) {
                old(self).spec_completed()[project_id@]@
            } else {
                Seq::<String>::empty()
            }),
            final(self).spec_checkpoints() == old(self).spec_checkpoints().insert(
                project_id@,
                final(self).spec_checkpoints()[project_id@],
            ),
            final(self).spec_checkpoints().contains_key(project_id@) && checkpoint_eq(
                final(self).spec_checkpoints()[project_id@],
                r,
            ),
            final(self).spec_projects() == old(self).spec_projects(),
            final(self).spec_logs() == old(self).spec_logs(),
            final(self).spec_task_states() == old(self).spec_task_states(),
            final(self).spec_completed() == old(self).spec_completed(),
            final(self).spec_configs() == old(self).spec_configs(),
    {
        let completed = self.get_completed_tasks(project_id);
        let checkpoint = GenerationCheckpoint {
            project_id: String::from_str(project_id),
            config,
            completed_tasks: completed,
            project_path,
        };
        let copy = checkpoint.duplicate();
        self.checkpoints.insert(String::from_str(project_id), copy);
        proof {
            assert(final(self).spec_checkpoints() =~= old(self).spec_checkpoints().insert(
                project_id@,
                final(self).spec_checkpoints()[project_id@],
            ));
        }
        checkpoint
    }

    /// Get a project's in-memory checkpoint.
    pub fn get_checkpoint(&self, project_id: &str) -> (r: Option<GenerationCheckpoint>)
        ensures
            r matches Some(c) ==> self.spec_checkpoints().contains_key(project_id@)
                && checkpoint_eq(c, self.spec_checkpoints()[project_id@]),
            r is None ==> !self.spec_checkpoints().contains_key(project_id@),
    {
        match self.checkpoints.get(project_id) {
            Some(c) => Some(c.duplicate()),
            None => None,
        }
    }

    /// Record one task result: the task becomes Completed or Failed and the
    /// message is logged. Returns the two events to publish.
    pub fn process_task_result(&mut self, project_id: &str, result: TaskResult) -> (r: (
        ProjectEvent,
        ProjectEvent,
    ))
        ensures
            final(self).spec_task_states().contains_key(project_id@),
            final(self).spec_task_states()[project_id@]@ == (if old(
                self,
            ).spec_task_states().contains_key(project_id@) {
                old(self).spec_task_states()[project_id@]@
            } else {
                Map::<Seq<char>, TaskStatus>::empty()
            }).insert(
                result.task_id@,
                if result.success {
                    TaskStatus::Completed
                } else {
                    TaskStatus::Failed(result.message)
                },
            ),
            final(self).spec_task_states() == old(self).spec_task_states().insert(
                project_id@,
                final(self).spec_task_states()[project_id@],
            ),
            result.success ==> contains_id(
                final(self).spec_completed()[project_id@]@,
                result.task_id@,
            ),
            result.success ==> final(self).spec_completed().contains_key(project_id@)
                && final(self).spec_completed() == old(self).spec_completed().insert(
                project_id@,
                final(self).spec_completed()[project_id@],
            ),
            !result.success ==> final(self).spec_completed() == old(self).spec_completed(),
            final(self).spec_logs().contains_key(project_id@) && final(self).spec_logs()[project_id@]@.last().message@ == result.message@,
            final(self).spec_projects() == old(self).spec_projects(),
            final(self).spec_checkpoints() == old(self).spec_checkpoints(),
            final(self).spec_configs() == old(self).spec_configs(),
            old(self).spec_task_states().contains_key(project_id@) && old(
                self,
            ).spec_task_states()[project_id@]@.contains_key(result.task_id@) ==> exists|i: int|
                0 <= i < statuses_of(old(self).spec_task_states()[project_id@]).len() && #[trigger] statuses_of(
                    old(self).spec_task_states()[project_id@],
                )[i] == old(self).spec_task_states()[project_id@]@[result.task_id@] && statuses_of(
                    final(self).spec_task_states()[project_id@],
                ) == statuses_of(old(self).spec_task_states()[project_id@]).update(
                    i,
                    if result.success {
                        TaskStatus::Completed
                    } else {
                        TaskStatus::Failed(result.message)
                    },
                ),
            r.0 matches ProjectEvent::TaskStateChanged { project_id: p, task_id: t, state: s } && p@
                == project_id@ && t@ == result.task_id@ && (result.success <==> s is Completed) && (
            !result.success <==> s is Failed),
            r.1 matches ProjectEvent::LogMessage { project_id: p, message: m } && p@ == project_id@
                && m@ == result.message@,
    {
        let state = if result.success {
            TaskState::Completed
        } else {
            TaskState::Failed(result.message.clone())
        };
        let e1 = self.set_task_state(project_id, result.task_id.as_str(), state);
        let e2 = self.add_log(project_id, result.message.as_str());
        (e1, e2)
    }

    /// Can this project be resumed: did it fail resumably?
    pub fn can_resume(&self, project_id: &str) -> (r: bool)
        ensures
            r == (self.spec_projects().contains_key(project_id@) && (self.spec_projects()[project_id@] matches ProjectStatus::Failed { resumable, .. } && resumable)),
    {
        match self.projects.get(project_id) {
            Some(ProjectStatus::Failed { resumable, .. }) => *resumable,
            _ => false,
        }
    }

    /// Record a progress update: the project is Generating at this step and
    /// percentage, and the update is logged. Returns the events to publish.
    pub fn update_progress(&mut self, project_id: &str, step: &str, progress: u8) -> (r: (
        ProjectEvent,
        ProjectEvent,
    ))
        ensures
            final(self).spec_projects() == old(self).spec_projects().insert(
                project_id@,
                final(self).spec_projects()[project_id@],
            ),
            final(self).spec_projects().contains_key(project_id@) && (final(self).spec_projects()[project_id@] matches ProjectStatus::Generating { current_step, progress: q } && current_step@
                == step@ && q == progress),
            final(self).spec_task_states() == old(self).spec_task_states(),
            final(self).spec_completed() == old(self).spec_completed(),
            final(self).spec_checkpoints() == old(self).spec_checkpoints(),
            final(self).spec_configs() == old(self).spec_configs(),
            r.0 matches ProjectEvent::Progress { project_id: p, step: s, progress: q } && p@
                == project_id@ && s@ == step@ && q == progress,
            r.1 matches ProjectEvent::LogMessage { project_id: p, message: m } && p@ == project_id@
                && m@ == "Progress: "@ + crate::strutil::dec_u8(progress as int) + "% - "@ + step@,
            final(self).spec_logs().contains_key(project_id@) && final(self).spec_logs()[project_id@]@.last().message@ == "Progress: "@ + crate::strutil::dec_u8(progress as int)
                + "% - "@ + step@,
            final(self).spec_logs() == old(self).spec_logs().insert(
                project_id@,
                final(self).spec_logs()[project_id@],
            ),
    {
        self.projects.insert(
            String::from_str(project_id),
            ProjectStatus::Generating { current_step: String::from_str(step), progress },
        );
        let event = ProjectEvent::Progress {
            project_id: String::from_str(project_id),
            step: String::from_str(step),
            progress,
        };
        let message = String::from_str("Progress: ").concat(
            crate::strutil::u8_to_decimal(progress).as_str(),
        ).concat("% - ").concat(step);
        let e2 = self.add_log(project_id, message.as_str());
        proof {
            assert(final(self).spec_projects() =~= old(self).spec_projects().insert(
                project_id@,
                final(self).spec_projects()[project_id@],
            ));
        }
        (event, e2)
    }

    /// Store a project's configuration for later task initialization.
    pub fn store_project_config(&mut self, project_id: &str, config: ProjectConfig) -> (r: Result<
        (),
        String,
    >)
        ensures
            r is Ok,
            final(self).spec_configs() == old(self).spec_configs().insert(project_id@, config),
            final(self).spec_projects() == old(self).spec_projects(),
            final(self).spec_logs() == old(self).spec_logs(),
            final(self).spec_task_states() == old(self).spec_task_states(),
            final(self).spec_task_metadata() == old(self).spec_task_metadata(),
            final(self).spec_completed() == old(self).spec_completed(),
            final(self).spec_checkpoints() == old(self).spec_checkpoints(),
    {
        self.project_configs.insert(String::from_str(project_id), config);
        Ok(())
    }

    /// Get a project's stored configuration.
    pub fn get_project_config(&self, project_id: &str) -> (r: Option<ProjectConfig>)
        ensures
            r matches Some(c) ==> self.spec_configs().contains_key(project_id@)
                && crate::project::config_eq(c, self.spec_configs()[project_id@]),
            r is None ==> !self.spec_configs().contains_key(project_id@),
    {
        match self.project_configs.get(project_id) {
            Some(c) => Some(c.duplicate()),
            None => None,
        }
    }

    /// Register a task's metadata for observers.
    pub fn register_task(
        &mut self,
        project_id: &str,
        task_id: &str,
        task_name: &str,
        dependencies: &Vec<String>,
    )
        ensures
            final(self).spec_task_metadata().contains_key(project_id@),
            final(self).spec_task_metadata()[project_id@]@.contains_key(task_id@),
            ({
                let t = final(self).spec_task_metadata()[project_id@]@[task_id@];
                t.id@ == task_id@ && t.name@ == task_name@ && t.status is Pending && t.progress
                    == 0 && t.dependencies@ == dependencies@
            }),
            final(self).spec_task_metadata()[project_id@]@ == (if old(
                self,
            ).spec_task_metadata().contains_key(project_id@) {
                old(self).spec_task_metadata()[project_id@]@
            } else {
                Map::<Seq<char>, GenerationTask>::empty()
            }).insert(task_id@, final(self).spec_task_metadata()[project_id@]@[task_id@]),
            final(self).spec_task_metadata() == old(self).spec_task_metadata().insert(
                project_id@,
                final(self).spec_task_metadata()[project_id@],
            ),
            final(self).spec_projects() == old(self).spec_projects(),
            final(self).spec_logs() == old(self).spec_logs(),
            final(self).spec_task_states() == old(self).spec_task_states(),
            final(self).spec_completed() == old(self).spec_completed(),
            final(self).spec_checkpoints() == old(self).spec_checkpoints(),
            final(self).spec_configs() == old(self).spec_configs(),
    {
        let mut inner = match self.task_metadata.take(project_id) {
            Some(m) => m,
            None => StrMap::new(),
        };
        let task = GenerationTask {
            id: String::from_str(task_id),
            name: String::from_str(task_name),
            description: String::from_str(task_name),
            status: TaskStatus::Pending,
            progress: 0,
            dependencies: clone_strings(dependencies),
        };
        inner.insert(String::from_str(task_id), task);
        self.task_metadata.insert(String::from_str(project_id), inner);
        proof {
            assert(self.spec_task_metadata() =~= old(self).spec_task_metadata().insert(
                project_id@,
                self.spec_task_metadata()[project_id@],
            ));
            assert(self.spec_task_metadata()[project_id@]@ =~= (if old(
                self,
            ).spec_task_metadata().contains_key(project_id@) {
                old(self).spec_task_metadata()[project_id@]@
            } else {
                Map::<Seq<char>, GenerationTask>::empty()
            }).insert(task_id@, self.spec_task_metadata()[project_id@]@[task_id@]));
        }
    }

    /// The metadata table of a project's tasks, if any.
    pub fn get_task_metadata(&self, project_id: &str) -> (r: Option<&StrMap<GenerationTask>>)
        ensures
            r matches Some(m) ==> self.spec_task_metadata().contains_key(project_id@) && *m
                == self.spec_task_metadata()[project_id@],
            r is None ==> !self.spec_task_metadata().contains_key(project_id@),
    {
        self.task_metadata.get(project_id)
    }

    /// Restore one loaded checkpoint into memory: the project is failed but
    /// resumable, and its completed set is what the checkpoint holds.
    pub fn restore_checkpoint(&mut self, checkpoint: GenerationCheckpoint)
        ensures
            final(self).spec_checkpoints() == old(self).spec_checkpoints().insert(
                checkpoint.project_id@,
                checkpoint,
            ),
            final(self).spec_completed().contains_key(checkpoint.project_id@) && final(self).spec_completed()[checkpoint.project_id@]@ == checkpoint.completed_tasks@,
            final(self).spec_projects().contains_key(checkpoint.project_id@) && (final(self).spec_projects()[checkpoint.project_id@] matches ProjectStatus::Failed {
                resumable,
                ..
            } && resumable),
            final(self).spec_logs() == old(self).spec_logs(),
            final(self).spec_task_states() == old(self).spec_task_states(),
            final(self).spec_configs() == old(self).spec_configs(),
    {
        let project_id = checkpoint.project_id.clone();
        let completed = clone_strings(&checkpoint.completed_tasks);
        self.completed_tasks.insert(project_id.clone(), completed);
        self.projects.insert(
            project_id.clone(),
            ProjectStatus::Failed {
                error: String::from_str("Project generation was interrupted"),
                resumable: true,
            },
        );
        self.checkpoints.insert(project_id, checkpoint);
    }

    /// On cancellation every not-yet-started task moves to the terminal
    /// Skipped state, so the progress model stays total; started or finished
    /// tasks keep their status.
    pub fn skip_pending_tasks(&mut self, project_id: &str, reason: &str)
        ensures
            old(self).spec_task_states().contains_key(project_id@) ==> {
                let before = old(self).spec_task_states()[project_id@]@;
                let after = final(self).spec_task_states()[project_id@]@;
                &&& final(self).spec_task_states().contains_key(project_id@)
                &&& forall|k: Seq<char>|
                    #![trigger after.contains_key(k)]
                    before.contains_key(k) ==> after.contains_key(k) && (if before[k] is Pending {
                        after[k] matches TaskStatus::Skipped(m) && m@ == reason@
                    } else {
                        after[k] == before[k]
                    })
                &&& forall|k: Seq<char>|
                    #![trigger before.contains_key(k)]
                    after.contains_key(k) ==> before.contains_key(k)
            },
            !old(self).spec_task_states().contains_key(project_id@) ==> final(self).spec_task_states() == old(self).spec_task_states(),
            final(self).spec_projects() == old(self).spec_projects(),
            final(self).spec_logs() == old(self).spec_logs(),
            final(self).spec_completed() == old(self).spec_completed(),
            final(self).spec_checkpoints() == old(self).spec_checkpoints(),
            final(self).spec_configs() == old(self).spec_configs(),
    {
        let inner_opt = self.task_states.take(project_id);
        match inner_opt {
            Some(inner) => {
                let ghost before = inner@;
                // First pass: collect the keys of the Pending tasks.
                let n = inner.len();
                let mut pend: Vec<String> = Vec::new();
                let mut i: usize = 0;
                while i < n
                    invariant
                        n == inner.spec_entries().len(),
                        before == inner@,
                        0 <= i <= n,
                        forall|m: int|
                            0 <= m < pend@.len() ==> before.contains_key(#[trigger] pend@[m]@)
                                && before[pend@[m]@] is Pending,
                        forall|j: int|
                            0 <= j < i ==> before.contains_key(
                                #[trigger] inner.spec_entries()[j].0@,
                            ) && before[inner.spec_entries()[j].0@] == inner.spec_entries()[j].1,
                        forall|j: int|
                            0 <= j < i && inner.spec_entries()[j].1 is Pending ==> contains_id(
                                pend@,
                                #[trigger] inner.spec_entries()[j].0@,
                            ),
                    decreases n - i,
                {
                    let is_pending = match inner.value_at(i) {
                        TaskStatus::Pending => true,
                        _ => false,
                    };
                    if is_pending {
                        let ghost pend0 = pend@;
                        pend.push(inner.key_at(i).clone());
                        proof {
                            assert(pend@[pend0.len() as int]@ == inner.spec_entries()[i as int].0@);
                            assert(contains_id(pend@, inner.spec_entries()[i as int].0@));
                            assert forall|j: int|
                                0 <= j < i && inner.spec_entries()[j].1 is Pending implies contains_id(
                                pend@,
                                #[trigger] inner.spec_entries()[j].0@,
                            ) by {
                                let u = choose|u: int|
                                    0 <= u < pend0.len() && #[trigger] pend0[u]@
                                        == inner.spec_entries()[j].0@;
                                assert(pend@[u]@ == inner.spec_entries()[j].0@);
                            }
                        }
                    }
                    i = i + 1;
                }
                proof {
                    assert forall|k: Seq<char>|
                        before.contains_key(k) && before[k] is Pending implies contains_id(
                        pend@,
                        k,
                    ) by {
                        inner.lemma_dom_covered(k);
                        let j = choose|j: int|
                            0 <= j < inner.spec_entries().len() && #[trigger] inner.spec_entries()[j].0@ == k;
                        assert(inner.spec_entries()[j].1 == before[k]);
                    }
                }

                // Second pass: move each collected task to Skipped.
                let mut updated = inner;
                let m = pend.len();
                let mut t: usize = 0;
                while t < m
                    invariant
                        m == pend@.len(),
                        0 <= t <= m,
                        forall|u: int|
                            0 <= u < m ==> before.contains_key(#[trigger] pend@[u]@)
                                && before[pend@[u]@] is Pending,
                        forall|k: Seq<char>|
                            #![trigger updated@.contains_key(k)]
                            updated@.contains_key(k) <==> before.contains_key(k),
                        forall|k: Seq<char>|
                            #![trigger updated@[k]]
                            before.contains_key(k) ==> (if contains_id(
                                pend@.subrange(0, t as int),
                                k,
                            ) {
                                updated@[k] matches TaskStatus::Skipped(msg) && msg@ == reason@
                            } else {
                                updated@[k] == before[k]
                            }),
                    decreases m - t,
                {
                    let ghost up0 = updated@;
                    updated.insert(pend[t].clone(), TaskStatus::Skipped(String::from_str(reason)));
                    proof {
                        assert forall|k: Seq<char>|
                            #![trigger updated@[k]]
                            before.contains_key(k) implies (if contains_id(
                            pend@.subrange(0, t + 1),
                            k,
                        ) {
                            updated@[k] matches TaskStatus::Skipped(msg) && msg@ == reason@
                        } else {
                            updated@[k] == before[k]
                        }) by {
                            if k == pend@[t as int]@ {
                                assert(pend@.subrange(0, t + 1)[t as int]@ == k);
                                assert(contains_id(pend@.subrange(0, t + 1), k));
                            } else {
                                if contains_id(pend@.subrange(0, t + 1), k) {
                                    let u = choose|u: int|
                                        0 <= u < t + 1 && #[trigger] pend@.subrange(0, t + 1)[u]@ == k;
                                    assert(pend@.subrange(0, t as int)[u]@ == k);
                                    assert(contains_id(pend@.subrange(0, t as int), k));
                                } else {
                                    if contains_id(pend@.subrange(0, t as int), k) {
                                        let u = choose|u: int|
                                            0 <= u < t && #[trigger] pend@.subrange(0, t as int)[u]@ == k;
                                        assert(pend@.subrange(0, t + 1)[u]@ == k);
                                    }
                                }
                            }
                        }
                    }
                    t = t + 1;
                }
                proof {
                    assert(pend@.subrange(0, m as int) =~= pend@);
                }
                self.task_states.insert(String::from_str(project_id), updated);
                proof {
                    assert forall|k: Seq<char>|
                        before.contains_key(k) implies final(self).spec_task_states()[project_id@]@
                        .contains_key(k) && (if before[k] is Pending {
                        final(self).spec_task_states()[project_id@]@[k]
                            matches TaskStatus::Skipped(msg) && msg@ == reason@
                    } else {
                        final(self).spec_task_states()[project_id@]@[k] == before[k]
                    }) by {
                        if before[k] is Pending {
                            assert(contains_id(pend@, k));
                        } else {
                            if contains_id(pend@, k) {
                                let u = choose|u: int|
                                    0 <= u < pend@.len() && #[trigger] pend@[u]@ == k;
                                assert(before[pend@[u]@] is Pending);
                                assert(false);
                            }
                        }
                    }
                }
            },
            None => {},
        }
    }
}

/// Completion fraction: (Completed + Skipped) / total, as an integer 0-100.
pub fn progress_percent(statuses: &Vec<TaskStatus>) -> (r: u8)
    ensures
        r as int == percent_of(statuses@),
        r <= 100,
{
    let n = statuses.len();
    if n == 0 {
        return 0;
    }
    let mut done: usize = 0;
    let mut i: usize = 0;
    while i < n
        invariant
            n == statuses@.len(),
            0 <= i <= n,
            done as int == done_count(statuses@.subrange(0, i as int)),
            done <= i,
        decreases n - i,
    {
        let d = match &statuses[i] {
            TaskStatus::Completed => true,
            TaskStatus::Skipped(_) => true,
            _ => false,
        };
        proof {
            assert(statuses@.subrange(0, i + 1).drop_last() =~= statuses@.subrange(0, i as int));
            assert(statuses@.subrange(0, i + 1).last() == statuses@[i as int]);
        }
        if d {
            done = done + 1;
        }
        i = i + 1;
    }
    proof {
        assert(statuses@.subrange(0, n as int) =~= statuses@);
        lemma_done_count_bounds(statuses@);
        vstd::arithmetic::div_mod::lemma_div_is_ordered(
            done_count(statuses@) * 100,
            n as int * 100,
            n as int,
        );
        vstd::arithmetic::div_mod::lemma_div_multiples_vanish(100, n as int);
    }
    let pct = (done as u128) * 100 / (n as u128);
    pct as u8
}

} // verus!
