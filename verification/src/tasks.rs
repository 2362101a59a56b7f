//! Task abstractions: lifecycle states, results, the execution context, and
//! the concrete task descriptors (framework setup, module install, directory
//! layout, cleanup) that a workflow is wired from.

use vstd::prelude::*;
use crate::project::ProjectConfig;
use vstd::string::StringExecFns;

verus! {

/// The lifecycle of one task inside a run. Transitions are monotonic:
/// Pending to Running, then Completed or Failed; no task re-enters Pending.
#[derive(Debug, Clone)]
pub enum TaskState {
    /// The task is waiting to be executed.
    Pending,
    /// The task is currently executing.
    Running,
    /// The task completed successfully.
    Completed,
    /// The task failed, with the reason.
    Failed(String),
}

impl PartialEq for TaskState {
    fn eq(&self, other: &TaskState) -> (r: bool) {
        match (self, other) {
            (TaskState::Pending, TaskState::Pending) => true,
            (TaskState::Running, TaskState::Running) => true,
            (TaskState::Completed, TaskState::Completed) => true,
            (TaskState::Failed(a), TaskState::Failed(b)) => *a == *b,
            _ => false,
        }
    }
}

impl vstd::std_specs::cmp::PartialEqSpecImpl for TaskState {
    open spec fn obeys_eq_spec() -> bool {
        true
    }

    open spec fn eq_spec(&self, other: &TaskState) -> bool {
        match (self, other) {
            (TaskState::Pending, TaskState::Pending) => true,
            (TaskState::Running, TaskState::Running) => true,
            (TaskState::Completed, TaskState::Completed) => true,
            (TaskState::Failed(a), TaskState::Failed(b)) => a@ == b@,
            _ => false,
        }
    }
}

/// What one task execution attempt produced, exactly once per attempt.
#[derive(Debug, Clone)]
pub struct TaskResult {
    /// The task ID.
    pub task_id: String,
    /// Whether the task succeeded.
    pub success: bool,
    /// A message describing the result.
    pub message: String,
}

impl TaskResult {
    /// An equal copy of this result.
    pub fn duplicate(&self) -> (r: Self)
        ensures
            r == *self,
    {
        Self {
            task_id: self.task_id.clone(),
            success: self.success,
            message: self.message.clone(),
        }
    }
}

/// What a task body reports back to the engine: a success flag and a message
/// (the failure reason when the flag is false).
#[derive(Debug, Clone)]
pub struct TaskOutcome {
    pub success: bool,
    pub message: String,
}

/// An immutable snapshot of the execution environment, shared read-only by
/// every task of one run.
#[derive(Debug, Clone)]
pub struct TaskContext {
    /// The project ID.
    pub project_id: String,
    /// The project directory path.
    pub project_dir: String,
    /// The project configuration.
    pub config: ProjectConfig,
}

/// Some entry of the dependency list has exactly this id.
pub open spec fn contains_id(deps: Seq<String>, id: Seq<char>) -> bool {
    exists|k: int| 0 <= k < deps.len() && deps[k]@ == id
}

/// Which built-in behaviour a task descriptor stands for.
#[derive(Debug, Clone, Copy, PartialEq, Eq, Structural)]
pub enum TaskKindTag {
    Framework,
    Module,
    Directory,
    Cleanup,
}

/// A task created through the registry: one of the built-in descriptors.
#[derive(Debug, Clone)]
pub enum RegisteredTask {
    Framework(FrameworkTask),
    Module(ModuleTask),
    Directory(DirectoryTask),
    Cleanup(CleanupTask),
}

/// The kind registered last under this type name, or nothing when the name
/// was never registered. Later registrations shadow earlier ones.
pub open spec fn last_kind_of(fs: Seq<(String, TaskKindTag)>, t: Seq<char>) -> Option<TaskKindTag>
    decreases fs.len(),
{
    if fs.len() == 0 {
        None
    } else if fs.last().0@ == t {
        Some(fs.last().1)
    } else {
        last_kind_of(fs.drop_last(), t)
    }
}

/// A type name has a last registered kind exactly when some entry carries it.
pub proof fn lemma_last_kind_exists(fs: Seq<(String, TaskKindTag)>, t: Seq<char>)
    ensures
        last_kind_of(fs, t) is Some <==> exists|i: int|
            0 <= i < fs.len() && (#[trigger] fs[i].0)@ == t,
    decreases fs.len(),
{
    if fs.len() > 0 {
        lemma_last_kind_exists(fs.drop_last(), t);
        if fs.last().0@ == t {
            assert((fs[fs.len() - 1].0)@ == t);
        } else {
            if exists|i: int| 0 <= i < fs.len() && (#[trigger] fs[i].0)@ == t {
                let i = choose|i: int| 0 <= i < fs.len() && (#[trigger] fs[i].0)@ == t;
                assert((fs.drop_last()[i].0)@ == t);
            }
            if last_kind_of(fs.drop_last(), t) is Some {
                let i = choose|i: int|
                    0 <= i < fs.drop_last().len() && (#[trigger] fs.drop_last()[i].0)@ == t;
                assert((fs[i].0)@ == t);
            }
        }
    }
}

/// Registry of the task behaviours a workflow may name, keyed by task type.
#[derive(Debug)]
pub struct TaskRegistry {
    factories: Vec<(String, TaskKindTag)>,
}

impl TaskRegistry {
    /// The registered task types, in registration order.
    pub closed spec fn spec_factories(&self) -> Seq<(String, TaskKindTag)> {
        self.factories@
    }

    /// Create a new task registry with the built-in task types registered.
    pub fn new() -> (r: Self)
        ensures
            r.spec_factories().len() == 3,
            r.spec_factories()[0].0@ == "framework"@ && r.spec_factories()[0].1 is Framework,
            r.spec_factories()[1].0@ == "module"@ && r.spec_factories()[1].1 is Module,
            r.spec_factories()[2].0@ == "cleanup"@ && r.spec_factories()[2].1 is Cleanup,
    {
        let mut registry = Self { factories: Vec::new() };
        registry.register_defaults();
        registry
    }

    /// Register the default task types.
    fn register_defaults(&mut self)
        ensures
            final(self).spec_factories().len() == old(self).spec_factories().len() + 3,
            forall|i: int|
                0 <= i < old(self).spec_factories().len() ==> final(self).spec_factories()[i]
                    == old(self).spec_factories()[i],
            ({
                let n = old(self).spec_factories().len() as int;
                let fs = final(self).spec_factories();
                &&& fs[n].0@ == "framework"@ && fs[n].1 is Framework
                &&& fs[n + 1].0@ == "module"@ && fs[n + 1].1 is Module
                &&& fs[n + 2].0@ == "cleanup"@ && fs[n + 2].1 is Cleanup
            }),
    {
        self.register("framework", TaskKindTag::Framework);
        self.register("module", TaskKindTag::Module);
        self.register("cleanup", TaskKindTag::Cleanup);
    }

    /// Register a task kind under a type name.
    pub fn register(&mut self, task_type: &str, kind: TaskKindTag)
        ensures
            final(self).spec_factories().len() == old(self).spec_factories().len() + 1,
            final(self).spec_factories().last().0@ == task_type@,
            final(self).spec_factories().last().1 == kind,
            forall|i: int|
                0 <= i < old(self).spec_factories().len() ==> final(self).spec_factories()[i]
                    == old(self).spec_factories()[i],
    {
        self.factories.push((String::from_str(task_type), kind));
    }

    /// Create a task from a task type: the registered descriptor built from
    /// the context, or nothing for an unregistered type.
    pub fn create_task(&self, task_type: &str, context: TaskContext) -> (r: Option<RegisteredTask>)
        ensures
            r is Some <==> exists|i: int|
                0 <= i < self.spec_factories().len() && (#[trigger] self.spec_factories()[i].0)@
                    == task_type@,
            last_kind_of(self.spec_factories(), task_type@) == Some(TaskKindTag::Framework) ==> (
            r matches Some(RegisteredTask::Framework(t)) && t.id@ == "framework:"@
                + context.config.framework@ && t.name@ == "Setup "@ + context.config.framework@
                + " framework"@ && t.dependencies@.len() == 0 && t.state is Pending),
            last_kind_of(self.spec_factories(), task_type@) == Some(TaskKindTag::Module) ==> (
            r matches Some(RegisteredTask::Module(t)) && t.module_id@ == "default"@ && t.id@
                == "module:"@ + t.module_id@ && t.name@ == "Install module: "@ + t.module_id@
                && t.dependencies@.len() == 0),
            last_kind_of(self.spec_factories(), task_type@) == Some(TaskKindTag::Directory) ==> (
            r matches Some(RegisteredTask::Directory(t)) && t.id@ == "directory:"@
                + context.config.framework@ && t.name@ == "Create directory structure for "@
                + context.config.framework@ && t.dependencies@.len() == 0),
            last_kind_of(self.spec_factories(), task_type@) == Some(TaskKindTag::Cleanup) ==> (
            r matches Some(RegisteredTask::Cleanup(t)) && t.id@ == "cleanup"@ && t.name@
                == "Project cleanup"@ && t.dependencies@.len() == 0),
    {
        let n = self.factories.len();
        let mut found: Option<TaskKindTag> = None;
        let mut i: usize = 0;
        while i < n
            invariant
                n == self.spec_factories().len(),
                0 <= i <= n,
                found == last_kind_of(self.spec_factories().subrange(0, i as int), task_type@),
            decreases n - i,
        {
            proof {
                assert(self.spec_factories().subrange(0, i + 1).drop_last()
                    =~= self.spec_factories().subrange(0, i as int));
                assert(self.spec_factories().subrange(0, i + 1).last() == self.spec_factories()[i as int]);
            }
            if crate::strutil::str_eq(self.factories[i].0.as_str(), task_type) {
                proof {
                    assert((self.spec_factories()[i as int].0)@ == task_type@);
                }
                found = Some(self.factories[i].1);
            }
            i = i + 1;
        }
        proof {
            assert(self.spec_factories().subrange(0, n as int) =~= self.spec_factories());
            lemma_last_kind_exists(self.spec_factories(), task_type@);
        }
        match found {
            Some(TaskKindTag::Framework) => Some(
                RegisteredTask::Framework(FrameworkTask::from_context(context)),
            ),
            Some(TaskKindTag::Module) => Some(
                RegisteredTask::Module(ModuleTask::new(context, String::from_str("default"))),
            ),
            Some(TaskKindTag::Directory) => Some(
                RegisteredTask::Directory(DirectoryTask::new(context)),
            ),
            Some(TaskKindTag::Cleanup) => Some(RegisteredTask::Cleanup(CleanupTask::new(context))),
            None => None,
        }
    }
}

/// Task that sets up the framework.
#[derive(Debug, Clone)]
pub struct FrameworkTask {
    /// The task ID.
    pub id: String,
    /// The task name.
    pub name: String,
    /// The task dependencies.
    pub dependencies: Vec<String>,
    /// The task state.
    pub state: TaskState,
}

impl FrameworkTask {
    /// Create a new framework task.
    pub fn new(id: String, framework_name: String) -> (r: Self)
        ensures
            r.id@ == id@,
            r.name@ == "Setup "@ + framework_name@ + " framework"@,
            r.dependencies@.len() == 0,
            r.state is Pending,
    {
        Self {
            id,
            name: String::from_str("Setup ").concat(framework_name.as_str()).concat(" framework"),
            dependencies: Vec::new(),
            state: TaskState::Pending,
        }
    }

    /// Create a new framework task from the task context.
    pub fn from_context(context: TaskContext) -> (r: Self)
        ensures
            r.id@ == "framework:"@ + context.config.framework@,
            r.name@ == "Setup "@ + context.config.framework@ + " framework"@,
            r.dependencies@.len() == 0,
            r.state is Pending,
    {
        let framework_id = context.config.framework.clone();
        Self {
            id: String::from_str("framework:").concat(framework_id.as_str()),
            name: String::from_str("Setup ").concat(framework_id.as_str()).concat(" framework"),
            dependencies: Vec::new(),
            state: TaskState::Pending,
        }
    }
}

/// Task that installs one module.
#[derive(Debug, Clone)]
pub struct ModuleTask {
    /// The task ID.
    pub id: String,
    /// The task name.
    pub name: String,
    /// The task dependencies.
    pub dependencies: Vec<String>,
    /// The module ID.
    pub module_id: String,
}

impl ModuleTask {
    /// Create a new module task; dependencies are set separately.
    pub fn new(_context: TaskContext, module_id: String) -> (r: Self)
        ensures
            r.id@ == "module:"@ + module_id@,
            r.name@ == "Install module: "@ + module_id@,
            r.dependencies@.len() == 0,
            r.module_id@ == module_id@,
    {
        Self {
            id: String::from_str("module:").concat(module_id.as_str()),
            name: String::from_str("Install module: ").concat(module_id.as_str()),
            dependencies: Vec::new(),
            module_id,
        }
    }

    /// Replace the dependency list.
    pub fn set_dependencies(&mut self, dependencies: Vec<String>)
        ensures
            final(self).dependencies@ == dependencies@,
            final(self).id == old(self).id,
            final(self).name == old(self).name,
            final(self).module_id == old(self).module_id,
    {
        self.dependencies = dependencies;
    }

    /// Create a new module task with a specific module ID, ensuring the
    /// framework task is among its dependencies.
    pub fn with_module_id(module_id: String, framework: String, dependencies: Vec<String>) -> (r:
        Self)
        ensures
            r.id@ == "module:"@ + module_id@,
            r.name@ == "Install module: "@ + module_id@,
            r.module_id@ == module_id@,
            contains_id(r.dependencies@, "framework:"@ + framework@),
            contains_id(dependencies@, "framework:"@ + framework@) ==> r.dependencies@
                == dependencies@,
            !contains_id(dependencies@, "framework:"@ + framework@) ==> r.dependencies@.len()
                == dependencies@.len() + 1 && r.dependencies@.drop_last() == dependencies@
                && r.dependencies@.last()@ == "framework:"@ + framework@,
    {
        let framework_task_id = String::from_str("framework:").concat(framework.as_str());

        let mut all_deps = dependencies;
        let ghost d0 = all_deps@;

        let mut found = false;
        let mut i: usize = 0;
        while i < all_deps.len()
            invariant
                all_deps@ == d0,
                0 <= i <= all_deps@.len(),
                framework_task_id@ == "framework:"@ + framework@,
                found ==> contains_id(all_deps@, "framework:"@ + framework@),
                !found ==> forall|j: int| 0 <= j < i ==> all_deps@[j]@ != "framework:"@ + framework@,
            decreases all_deps@.len() - i,
        {
            if all_deps[i] == framework_task_id {
                found = true;
                assert(all_deps@[i as int]@ == "framework:"@ + framework@);
            }
            i = i + 1;
        }
        proof {
            if !found {
                assert(!contains_id(d0, "framework:"@ + framework@)) by {
                    if contains_id(d0, "framework:"@ + framework@) {
                        let j = choose|j: int|
                            0 <= j < d0.len() && d0[j]@ == "framework:"@ + framework@;
                        assert(false);
                    }
                }
            }
        }

        if !found {
            let ghost at = all_deps@.len();
            all_deps.push(framework_task_id);
            proof {
                assert(all_deps@[at as int]@ == "framework:"@ + framework@);
                assert(all_deps@.drop_last() =~= d0);
            }
        }
        assert(contains_id(all_deps@, "framework:"@ + framework@));

        Self {
            id: String::from_str("module:").concat(module_id.as_str()),
            name: String::from_str("Install module: ").concat(module_id.as_str()),
            dependencies: all_deps,
            module_id,
        }
    }
}

/// Task that creates the enforced directory structure.
#[derive(Debug, Clone)]
pub struct DirectoryTask {
    /// The task ID.
    pub id: String,
    /// The task name.
    pub name: String,
    /// The task dependencies.
    pub dependencies: Vec<String>,
}

impl DirectoryTask {
    /// Create a new directory task; dependencies are set separately.
    pub fn new(context: TaskContext) -> (r: Self)
        ensures
            r.id@ == "directory:"@ + context.config.framework@,
            r.name@ == "Create directory structure for "@ + context.config.framework@,
            r.dependencies@.len() == 0,
    {
        let framework_name = context.config.framework.clone();
        Self {
            id: String::from_str("directory:").concat(framework_name.as_str()),
            name: String::from_str("Create directory structure for ").concat(
                framework_name.as_str(),
            ),
            dependencies: Vec::new(),
        }
    }

    /// Replace the dependency list.
    pub fn set_dependencies(&mut self, dependencies: Vec<String>)
        ensures
            final(self).dependencies@ == dependencies@,
            final(self).id == old(self).id,
            final(self).name == old(self).name,
    {
        self.dependencies = dependencies;
    }
}

/// Task that cleans the project up after all modules are installed.
#[derive(Debug, Clone)]
pub struct CleanupTask {
    /// The task ID.
    pub id: String,
    /// The task name.
    pub name: String,
    /// The task dependencies.
    pub dependencies: Vec<String>,
}

impl CleanupTask {
    /// Create a new cleanup task; dependencies are populated later.
    pub fn new(_context: TaskContext) -> (r: Self)
        ensures
            r.id@ == "cleanup"@,
            r.name@ == "Project cleanup"@,
            r.dependencies@.len() == 0,
    {
        Self {
            id: String::from_str("cleanup"),
            name: String::from_str("Project cleanup"),
            dependencies: Vec::new(),
        }
    }

    /// Replace the dependency list.
    pub fn set_dependencies(&mut self, dependencies: Vec<String>)
        ensures
            final(self).dependencies@ == dependencies@,
            final(self).id == old(self).id,
            final(self).name == old(self).name,
    {
        self.dependencies = dependencies;
    }
}

} // verus!
