//! Orchestration of one project generation: wiring the workflow into a task
//! graph, driving the executor, and deciding status, checkpoint and event
//! updates. All outside work (spawning, disk, broadcasting) is delegated to
//! the caller through returned values and the accumulated event list.

use vstd::prelude::*;
use vstd::string::StringExecFns;
use crate::catalog::{catalog_find, get_module_by_id, has_module, Module};
use crate::executor::{all_completed, all_pending, can_complete, has_failed_ancestor,
    results_ok, run_completes, EngineFault, TaskExecutor};
use crate::graph::{acyclic, graph_wf, is_cycle_path, BuildError, PlannedTask, TaskGraph,
    TaskNode};
use crate::project::ProjectConfig;
use crate::state::{event_percent, is_progress_event, lemma_progress_monotonic, percent_of,
    status_of, statuses_of, status_progresses, AppState, CheckpointAction, ProjectEvent,
    ProjectStatus, TaskStatus};
use crate::strutil::str_eq;
use crate::tasks::{contains_id, CleanupTask, FrameworkTask, ModuleTask, TaskContext, TaskOutcome,
    TaskResult, TaskState};

verus! {

/// What a finished external command reported.
#[derive(Debug, Clone)]
pub struct CommandResult {
    pub success: bool,
    pub stdout: String,
    pub stderr: String,
    pub exit_code: i32,
}

/// Relies on uuid::Uuid::new_v4 and its Display form: a fresh random
/// version-4 UUID rendered in the 36-character hyphenated format. Panics
/// only if the operating system's random source fails.
#[verifier::external_body]
fn fresh_project_id() -> (r: String)
    ensures
        r@.len() == 36,
{
    uuid::Uuid::new_v4().to_string()
}

impl BuildError {
    /// The human-readable description of this build error.
    pub fn message(&self) -> (r: String)
        ensures
            self matches BuildError::UnknownDependency { task, dependency } ==> r@ == "Task "@
                + task@ + " depends on non-existent task "@ + dependency@,
            self matches BuildError::SelfDependency { module } ==> r@
                == "Invalid module dependency: "@ + module@ + " depends on itself"@,
            self matches BuildError::DuplicateTask { task } ==> r@ == "Duplicate task id: "@
                + task@,
            self matches BuildError::CycleDetected { path } ==> r@
                == "Dependency cycle detected in task graph: "@
                + crate::command_runner::joined_args(path@),
    {
        match self {
            BuildError::UnknownDependency { task, dependency } => String::from_str("Task ").concat(
                task.as_str(),
            ).concat(" depends on non-existent task ").concat(dependency.as_str()),
            BuildError::SelfDependency { module } => String::from_str(
                "Invalid module dependency: ",
            ).concat(module.as_str()).concat(" depends on itself"),
            BuildError::DuplicateTask { task } => String::from_str("Duplicate task id: ").concat(
                task.as_str(),
            ),
            BuildError::CycleDetected { path } => String::from_str(
                "Dependency cycle detected in task graph: ",
            ).concat(joined_ids(path).as_str()),
        }
    }
}

impl EngineFault {
    /// The human-readable description of this scheduler fault.
    pub fn message(&self) -> (r: String)
        ensures
            self is CycleDetected ==> r@
                == "Scheduler fault: pending tasks with no failed ancestor (dependency cycle)"@,
            self is RoundCeilingExceeded ==> r@ == "Scheduler fault: round ceiling exceeded"@,
    {
        match self {
            EngineFault::CycleDetected { .. } => String::from_str(
                "Scheduler fault: pending tasks with no failed ancestor (dependency cycle)",
            ),
            EngineFault::RoundCeilingExceeded => String::from_str(
                "Scheduler fault: round ceiling exceeded",
            ),
        }
    }
}

/// Task `i` depends directly on the framework task at index zero.
pub open spec fn depends_on_framework(g: Seq<crate::graph::TaskNode>, i: int) -> bool {
    exists|k: int| 0 <= k < g[i].deps@.len() && (#[trigger] g[i].deps@[k] as int) == 0
}

/// The project directory: the parent path joined with the project name.
pub fn project_path_of(config: &ProjectConfig) -> (r: String)
    ensures
        r@ == config.path@ + "/"@ + config.name@,
{
    config.path.clone().concat("/").concat(config.name.as_str())
}

proof fn lemma_module_not_framework(a: Seq<char>, b: Seq<char>)
    ensures
        "module:"@ + a != "framework:"@ + b,
{
    reveal_strlit("module:");
    reveal_strlit("framework:");
    assert(("module:"@ + a)[0] == 'm');
    assert(("framework:"@ + b)[0] == 'f');
}

proof fn lemma_module_not_cleanup(a: Seq<char>)
    ensures
        "module:"@ + a != "cleanup"@,
{
    reveal_strlit("module:");
    reveal_strlit("cleanup");
    assert(("module:"@ + a)[0] == 'm');
    assert("cleanup"@[0] == 'c');
}

proof fn lemma_framework_not_cleanup(a: Seq<char>)
    ensures
        "framework:"@ + a != "cleanup"@,
{
    reveal_strlit("framework:");
    reveal_strlit("cleanup");
    assert(("framework:"@ + a)[0] == 'f');
    assert("cleanup"@[0] == 'c');
}

proof fn lemma_module_prefix_injective(a: Seq<char>, b: Seq<char>)
    requires
        "module:"@ + a == "module:"@ + b,
    ensures
        a == b,
{
    reveal_strlit("module:");
    assert(a =~= ("module:"@ + a).subrange(7, ("module:"@ + a).len() as int));
    assert(b =~= ("module:"@ + b).subrange(7, ("module:"@ + b).len() as int));
}

proof fn lemma_catalog_find_some_has(c: Seq<Module>, id: Seq<char>)
    ensures
        (catalog_find(c, id) matches Some(m)) ==> has_module(c, id),
    decreases c.len(),
{
    if c.len() > 0 && c[0].id@ != id {
        lemma_catalog_find_some_has(c.drop_first(), id);
        if catalog_find(c.drop_first(), id) matches Some(m) {
            let w = choose|w: int| 0 <= w < c.drop_first().len() && c.drop_first()[w].id@ == id;
            assert(c[w + 1].id@ == id);
        }
    }
}

/// The dependencies one planned module task carries: its declared
/// dependencies restricted to the selection (prefixed as module tasks),
/// with the framework task last.
pub open spec fn planned_module_deps(
    pl: Seq<PlannedTask>,
    selected: Seq<String>,
    catalog: Seq<Module>,
    fw: Seq<char>,
    i: int,
) -> bool {
    let pd = pl[i + 1].dependencies@;
    let sel = match catalog_find(catalog, selected[i]@) {
        Some(m) => selected_deps(m.dependencies@, selected),
        None => Seq::<String>::empty(),
    };
    &&& pd.len() == sel.len() + 1
    &&& (forall|k: int| 0 <= k < sel.len() ==> (#[trigger] pd[k])@ == "module:"@ + sel[k]@)
    &&& pd.last()@ == "framework:"@ + fw
}

/// The wired edges of one module task: one edge per selected declared
/// dependency, aimed at the task carrying that id, and a final edge to the
/// framework task at index zero.
pub open spec fn module_task_wired(g: Seq<TaskNode>, i: int, sel: Seq<String>) -> bool {
    let ds = g[i + 1].deps@;
    &&& ds.len() == sel.len() + 1
    &&& (forall|k: int|
        0 <= k < sel.len() ==> g[(#[trigger] ds[k]) as int].id@ == "module:"@ + sel[k]@)
    &&& ds[ds.len() - 1] as int == 0
}

/// The wired edges of the module task at `i`, resolved against the catalog.
pub open spec fn module_edges(
    g: Seq<TaskNode>,
    selected: Seq<String>,
    catalog: Seq<Module>,
    i: int,
) -> bool {
    match catalog_find(catalog, selected[i]@) {
        Some(m) => module_task_wired(g, i, selected_deps(m.dependencies@, selected)),
        None => module_task_wired(g, i, Seq::<String>::empty()),
    }
}

/// The wired edges of the cleanup task: the framework task first, then every
/// module task in selection order.
pub open spec fn cleanup_wired(g: Seq<TaskNode>, selected: Seq<String>) -> bool {
    let n = selected.len() as int;
    let ds = g[n + 1].deps@;
    &&& ds.len() == n + 1
    &&& ds[0] as int == 0
    &&& forall|k: int|
        1 <= k <= n ==> g[(#[trigger] ds[k]) as int].id@ == "module:"@ + selected[k - 1]@
}

/// The planned shape of a wired workflow: framework task first, one module
/// task per selected id, cleanup last, with the dependency lists the builder
/// assembles.
spec fn planned_workflow_shape(
    pl: Seq<PlannedTask>,
    selected: Seq<String>,
    catalog: Seq<Module>,
    fw: Seq<char>,
) -> bool {
    &&& pl.len() == selected.len() + 2
    &&& pl[0].id@ == "framework:"@ + fw
    &&& pl[0].dependencies@.len() == 0
    &&& forall|i: int|
        0 <= i < selected.len() ==> (#[trigger] pl[i + 1].id@) == "module:"@ + selected[i]@
    &&& forall|i: int|
        0 <= i < selected.len() ==> #[trigger] planned_module_deps(pl, selected, catalog, fw, i)
    &&& pl[selected.len() as int + 1].id@ == "cleanup"@
    &&& pl[selected.len() as int + 1].dependencies@.len() == selected.len() + 1
    &&& pl[selected.len() as int + 1].dependencies@[0]@ == "framework:"@ + fw
    &&& forall|k: int|
        1 <= k <= selected.len() ==> (#[trigger] pl[selected.len() as int
            + 1].dependencies@[k])@ == "module:"@ + selected[k - 1]@
}

/// Every dependency of a planned workflow names a planned task, whatever the
/// selection: restricted dependencies are selected modules, and the framework
/// task always exists.
proof fn lemma_workflow_deps_known(
    pl: Seq<PlannedTask>,
    selected: Seq<String>,
    catalog: Seq<Module>,
    fw: Seq<char>,
)
    requires
        planned_workflow_shape(pl, selected, catalog, fw),
    ensures
        crate::graph::planned_deps_known(pl),
{
    let n = selected.len() as int;
    assert forall|j: int, k: int|
        0 <= j < pl.len() && 0 <= k < pl[j].dependencies@.len() implies crate::graph::planned_has_id(
        pl,
        pl[j].dependencies@[k]@,
    ) by {
        if 1 <= j <= n {
            assert(planned_module_deps(pl, selected, catalog, fw, (j - 1) + 1 - 1));
            let pd = pl[j].dependencies@;
            match catalog_find(catalog, selected[j - 1]@) {
                Some(m) => {
                    let sel = selected_deps(m.dependencies@, selected);
                    if k < sel.len() {
                        lemma_selected_deps_member(m.dependencies@, selected, k);
                        let w = choose|w: int|
                            0 <= w < selected.len() && selected[w]@ == sel[k]@;
                        assert(pl[w + 1].id@ == "module:"@ + selected[w]@);
                        assert(pd[k]@ == pl[w + 1].id@);
                    } else {
                        assert(pd[k]@ == pl[0].id@);
                    }
                },
                None => {
                    assert(pd.len() == 1);
                    assert(pd[k]@ == pl[0].id@);
                },
            }
        } else if j == n + 1 {
            if k == 0 {
                assert(pl[j].dependencies@[k]@ == pl[0].id@);
            } else {
                assert(pl[(k - 1) + 1].id@ == "module:"@ + selected[k - 1]@);
                assert(pl[j].dependencies@[k]@ == pl[k].id@);
            }
        }
    }
}

/// A distinct selection yields pairwise distinct planned ids: the three id
/// shapes never collide and the module prefix is injective.
proof fn lemma_workflow_ids_unique(
    pl: Seq<PlannedTask>,
    selected: Seq<String>,
    catalog: Seq<Module>,
    fw: Seq<char>,
)
    requires
        planned_workflow_shape(pl, selected, catalog, fw),
        forall|i: int, j: int| 0 <= i < j < selected.len() ==> selected[i]@ != selected[j]@,
    ensures
        crate::graph::planned_ids_unique(pl),
{
    let n = selected.len() as int;
    assert forall|a: int, b: int| 0 <= a < b < pl.len() implies pl[a].id@ != pl[b].id@ by {
        if a == 0 && b <= n {
            assert(pl[(b - 1) + 1].id@ == "module:"@ + selected[b - 1]@);
            lemma_module_not_framework(selected[b - 1]@, fw);
        } else if a == 0 && b == n + 1 {
            lemma_framework_not_cleanup(fw);
        } else if b == n + 1 {
            assert(pl[(a - 1) + 1].id@ == "module:"@ + selected[a - 1]@);
            lemma_module_not_cleanup(selected[a - 1]@);
        } else {
            assert(pl[(a - 1) + 1].id@ == "module:"@ + selected[a - 1]@);
            assert(pl[(b - 1) + 1].id@ == "module:"@ + selected[b - 1]@);
            assert(selected[a - 1]@ != selected[b - 1]@);
            if pl[a].id@ == pl[b].id@ {
                lemma_module_prefix_injective(selected[a - 1]@, selected[b - 1]@);
            }
        }
    }
}

/// A buildable selection wires an acyclic graph: lift its rank certificate,
/// placing each module task one above its selection rank and the cleanup
/// task above everything.
proof fn lemma_buildable_wired_acyclic(
    g: Seq<TaskNode>,
    pl: Seq<PlannedTask>,
    selected: Seq<String>,
    catalog: Seq<Module>,
    fw: Seq<char>,
)
    requires
        planned_workflow_shape(pl, selected, catalog, fw),
        crate::graph::resolves(pl, g),
        graph_wf(g),
        buildable_selection(selected, catalog),
    ensures
        acyclic(g),
{
    let n = selected.len() as int;
    let srank = choose|rank: Seq<int>| selection_rank_valid(selected, catalog, rank);
    let big = seq_max(srank) + 1;
    assert(seq_max(srank) >= 0) by {
        if srank.len() > 0 {
            lemma_seq_max(srank, 0);
        }
    }
    let wrank = Seq::new(
        g.len(),
        |m: int|
            if m == 0 {
                0int
            } else if m <= n {
                srank[m - 1] + 1
            } else {
                big + 1
            },
    );
    assert forall|a: int, b: int|
        0 <= a < g.len() && 0 <= b < g[a].deps@.len() implies wrank[#[trigger] g[a].deps@[b] as int] < wrank[a] by {
        let t = g[a].deps@[b] as int;
        assert(g[t].id@ == pl[a].dependencies@[b]@);
        if 1 <= a <= n {
            lemma_module_edge_target(g, pl, selected, catalog, fw, a, b);
            let t2 = g[a].deps@[b] as int;
            if t2 == 0 {
            } else {
                let w = t2 - 1;
                assert(selection_edge(selected, catalog, a - 1, w));
                assert(srank[w] < srank[a - 1]);
            }
        } else if a == n + 1 {
            assert(g[t].id@ != "cleanup"@) by {
                if b == 0 {
                    lemma_framework_not_cleanup(fw);
                } else {
                    lemma_module_not_cleanup(selected[b - 1]@);
                }
            }
            if t == n + 1 {
                assert(g[t].id@ == "cleanup"@);
            }
            assert(t <= n);
            if 1 <= t {
                lemma_seq_max(srank, t - 1);
            }
        }
    }
    assert(crate::graph::rank_valid(g, wrank));
}

/// A module task's wired edge points either at the framework task (index
/// zero) or at the module task of a selected sibling it declares (a
/// selection edge).
proof fn lemma_module_edge_target(
    g: Seq<TaskNode>,
    pl: Seq<PlannedTask>,
    selected: Seq<String>,
    catalog: Seq<Module>,
    fw: Seq<char>,
    a: int,
    b: int,
)
    requires
        planned_workflow_shape(pl, selected, catalog, fw),
        crate::graph::resolves(pl, g),
        graph_wf(g),
        1 <= a <= selected.len(),
        0 <= b < g[a].deps@.len(),
    ensures
        ({
            let t = g[a].deps@[b] as int;
            t == 0 || (1 <= t <= selected.len() && selection_edge(selected, catalog, a - 1, t - 1))
        }),
{
    let t = g[a].deps@[b] as int;
    assert(g[t].id@ == pl[a].dependencies@[b]@);
    assert(planned_module_deps(pl, selected, catalog, fw, (a - 1) + 1 - 1));
    let pd = pl[a].dependencies@;
    match catalog_find(catalog, selected[a - 1]@) {
        Some(m) => {
            let sel = selected_deps(m.dependencies@, selected);
            if b < sel.len() {
                lemma_selected_deps_member(m.dependencies@, selected, b);
                let w = choose|w: int| 0 <= w < selected.len() && selected[w]@ == sel[b]@;
                assert(pl[w + 1].id@ == "module:"@ + selected[w]@);
                assert(g[w + 1].id@ == pl[w + 1].id@);
                assert(g[t].id@ == "module:"@ + sel[b]@);
                if t != w + 1 {
                    assert(g[t].id@ != g[w + 1].id@);
                }
                assert(t == w + 1);
                assert(contains_id(m.dependencies@, sel[b]@));
                assert(selection_edge(selected, catalog, a - 1, w));
            } else {
                assert(pd[b]@ == "framework:"@ + fw);
                if t != 0 {
                    assert(g[t].id@ != g[0].id@);
                }
                assert(t == 0);
            }
        },
        None => {
            assert(pd.len() == 1);
            assert(pd[b]@ == "framework:"@ + fw);
            if t != 0 {
                assert(g[t].id@ != g[0].id@);
            }
            assert(t == 0);
        },
    }
}

/// An acyclic wired workflow certifies the selection acyclic: project the
/// wired rank onto the module tasks.
proof fn lemma_wired_acyclic_selection(
    g: Seq<TaskNode>,
    pl: Seq<PlannedTask>,
    selected: Seq<String>,
    catalog: Seq<Module>,
    fw: Seq<char>,
)
    requires
        planned_workflow_shape(pl, selected, catalog, fw),
        crate::graph::resolves(pl, g),
        graph_wf(g),
        acyclic(g),
    ensures
        selection_acyclic(selected, catalog),
{
    let n = selected.len() as int;
    let wrank = choose|rank: Seq<int>| crate::graph::rank_valid(g, rank);
    let srank = Seq::new(n as nat, |i: int| wrank[i + 1]);
    assert forall|i: int, j: int|
        selection_edge(selected, catalog, i, j) implies srank[j] < srank[i] by {
        match catalog_find(catalog, selected[i]@) {
            Some(m) => {
                assert(contains_id(m.dependencies@, selected[j]@));
                assert(contains_id(selected, selected[j]@)) by {
                    assert(selected[j]@ == selected[j]@);
                }
                lemma_selected_deps_complete(m.dependencies@, selected, selected[j]@);
                let sel = selected_deps(m.dependencies@, selected);
                let k = choose|k: int| 0 <= k < sel.len() && sel[k]@ == selected[j]@;
                assert(planned_module_deps(pl, selected, catalog, fw, (i + 1) - 1));
                let pd = pl[i + 1].dependencies@;
                assert(pd[k]@ == "module:"@ + sel[k]@);
                let t = g[i + 1].deps@[k] as int;
                assert(g[t].id@ == pd[k]@);
                assert(pl[j + 1].id@ == "module:"@ + selected[j]@);
                assert(g[j + 1].id@ == pl[j + 1].id@);
                if t != j + 1 {
                    assert(g[t].id@ != g[j + 1].id@);
                }
                assert(t == j + 1);
                assert(wrank[g[i + 1].deps@[k] as int] < wrank[i + 1]);
            },
            None => {
                assert(false);
            },
        }
    }
    assert(selection_rank_valid(selected, catalog, srank));
}

/// Wire the workflow of a configuration into a validated task graph: one
/// framework-setup task, one task per selected module (depending on the
/// framework task and on its declared dependencies that are also selected),
/// and one trailing cleanup task depending on everything. Validation happens
/// here, never during execution: self-dependencies, unknown references,
/// duplicate ids and cycles are all rejected.
#[verifier::rlimit(100)]
pub fn create_tasks(project_id: &str, config: &ProjectConfig, all_modules: &Vec<Module>) -> (r:
    Result<TaskGraph, BuildError>)
    ensures
        r matches Ok(g) ==> {
            let n = config.modules@.len() as int;
            &&& graph_wf(g.nodes@)
            &&& acyclic(g.nodes@)
            &&& g.nodes@.len() == n + 2
            &&& g.nodes@[0].id@ == "framework:"@ + config.framework@
            &&& g.nodes@[0].deps@.len() == 0
            &&& forall|i: int|
                0 <= i < n ==> (#[trigger] g.nodes@[i + 1].id@) == "module:"@
                    + config.modules@[i]@
            &&& forall|i: int| 0 <= i < n ==> #[trigger] depends_on_framework(g.nodes@, i + 1)
            &&& forall|i: int|
                0 <= i < n ==> #[trigger] module_edges(g.nodes@, config.modules@, all_modules@, i)
            &&& g.nodes@[n + 1].id@ == "cleanup"@
            &&& cleanup_wired(g.nodes@, config.modules@)
        },
        r matches Err(BuildError::SelfDependency { module }) ==> contains_id(
            config.modules@,
            module@,
        ) && exists|i: int|
            0 <= i < all_modules@.len() && contains_id(
                all_modules@[i].dependencies@,
                #[trigger] module@,
            ) && all_modules@[i].id@ == module@,
        r matches Err(BuildError::CycleDetected { path }) ==> path@.len() >= 1 && forall|k: int|
            0 <= k < path@.len() ==> ((#[trigger] path@[k])@ == "framework:"@ + config.framework@
                || path@[k]@ == "cleanup"@ || exists|w: int|
                0 <= w < config.modules@.len() && path@[k]@ == "module:"@ + config.modules@[w]@),
        r is Ok <==> buildable_selection(config.modules@, all_modules@),
        r matches Err(e) ==> (e is SelfDependency || e is DuplicateTask || e is CycleDetected),
        r matches Err(BuildError::CycleDetected { .. }) ==> !selection_acyclic(
            config.modules@,
            all_modules@,
        ),
        r matches Err(BuildError::DuplicateTask { .. }) ==> exists|i: int, j: int|
            0 <= i < j < config.modules@.len() && (#[trigger] config.modules@[i]@)
                == #[trigger] config.modules@[j]@,
{
    let framework_task = FrameworkTask::new(
        String::from_str("framework:").concat(config.framework.as_str()),
        config.framework.clone(),
    );
    let framework_task_id = framework_task.id.clone();

    let mut planned: Vec<PlannedTask> = Vec::new();
    planned.push(
        PlannedTask {
            id: framework_task.id,
            name: framework_task.name,
            dependencies: framework_task.dependencies,
        },
    );

    let module_count = config.modules.len();
    let mut mi: usize = 0;
    while mi < module_count
        invariant
            module_count == config.modules@.len(),
            0 <= mi <= module_count,
            framework_task_id@ == "framework:"@ + config.framework@,
            planned@.len() == mi + 1,
            planned@[0].id@ == "framework:"@ + config.framework@,
            planned@[0].dependencies@.len() == 0,
            forall|i: int|
                0 <= i < mi ==> (#[trigger] planned@[i + 1].id@) == "module:"@
                    + config.modules@[i]@,
            forall|i: int|
                0 <= i < mi ==> contains_id(
                    #[trigger] planned@[i + 1].dependencies@,
                    "framework:"@ + config.framework@,
                ),
            forall|i: int|
                0 <= i < mi ==> #[trigger] planned_module_deps(
                    planned@,
                    config.modules@,
                    all_modules@,
                    config.framework@,
                    i,
                ),
        decreases module_count - mi,
    {
        let module_id = &config.modules[mi];

        let mut deps: Vec<String> = Vec::new();
        let ghost sel_of_mi: Seq<String>;
        match get_module_by_id(all_modules, module_id.as_str()) {
            Ok(module) => {
                proof {
                    sel_of_mi = selected_deps(module.dependencies@, config.modules@);
                }
                let dep_count = module.dependencies.len();
                let mut k: usize = 0;
                while k < dep_count
                    invariant
                        module_count == config.modules@.len(),
                        (mi as int) < config.modules@.len(),
                        module_id@ == config.modules@[mi as int]@,
                        dep_count == module.dependencies@.len(),
                        0 <= k <= dep_count,
                        exists|w: int|
                            0 <= w < all_modules@.len() && all_modules@[w] == *module
                                && all_modules@[w].id@ == module_id@,
                        catalog_find(all_modules@, module_id@) == Some(*module),
                        deps@.len() == selected_deps(
                            module.dependencies@.subrange(0, k as int),
                            config.modules@,
                        ).len(),
                        forall|k2: int|
                            0 <= k2 < deps@.len() ==> (#[trigger] deps@[k2])@ == "module:"@
                                + selected_deps(
                                module.dependencies@.subrange(0, k as int),
                                config.modules@,
                            )[k2]@,
                    decreases dep_count - k,
                {
                    let dep = &module.dependencies[k];
                    if str_eq(dep.as_str(), module_id.as_str()) {
                        proof {
                            assert(contains_id(module.dependencies@, module_id@));
                            assert(config.modules@[mi as int]@ == module_id@);
                            assert(contains_id(config.modules@, module_id@));
                            // A module declaring itself is a cycle of length
                            // one, which no rank certificate admits.
                            if buildable_selection(config.modules@, all_modules@) {
                                assert(selection_edge(
                                    config.modules@,
                                    all_modules@,
                                    mi as int,
                                    mi as int,
                                ));
                                let rank = choose|rank: Seq<int>|
                                    selection_rank_valid(config.modules@, all_modules@, rank);
                                assert(rank[mi as int] < rank[mi as int]);
                                assert(false);
                            }
                        }
                        return Err(BuildError::SelfDependency { module: module_id.clone() });
                    }
                    let mut selected = false;
                    let mut s: usize = 0;
                    while s < module_count
                        invariant
                            module_count == config.modules@.len(),
                            0 <= s <= module_count,
                            selected ==> contains_id(config.modules@, dep@),
                            !selected ==> forall|m: int| 0 <= m < s ==> config.modules@[m]@ != dep@,
                        decreases module_count - s,
                    {
                        if str_eq(config.modules[s].as_str(), dep.as_str()) {
                            selected = true;
                            assert(config.modules@[s as int]@ == dep@);
                        }
                        s = s + 1;
                    }
                    proof {
                        if !selected {
                            assert(!contains_id(config.modules@, dep@)) by {
                                if contains_id(config.modules@, dep@) {
                                    let m = choose|m: int|
                                        0 <= m < config.modules@.len() && config.modules@[m]@
                                            == dep@;
                                    assert(false);
                                }
                            }
                        }
                        assert(module.dependencies@.subrange(0, k + 1).drop_last()
                            =~= module.dependencies@.subrange(0, k as int));
                        assert(module.dependencies@.subrange(0, k + 1).last()
                            == module.dependencies@[k as int]);
                    }
                    if selected {
                        deps.push(String::from_str("module:").concat(dep.as_str()));
                    }
                    k = k + 1;
                }
                proof {
                    assert(module.dependencies@.subrange(0, dep_count as int)
                        =~= module.dependencies@);
                    assert(catalog_find(all_modules@, module_id@) == Some(*module));
                }
            },
            Err(_) => {
                // The catalog does not know this module: it still gets a
                // task (depending only on the framework task), mirroring a
                // best-effort install attempt.
                proof {
                    sel_of_mi = Seq::<String>::empty();
                    lemma_catalog_find_some_has(all_modules@, module_id@);
                    assert(catalog_find(all_modules@, module_id@) is None);
                }
            },
        }
        proof {
            assert(deps@.len() == sel_of_mi.len());
            assert(forall|k2: int|
                0 <= k2 < deps@.len() ==> (#[trigger] deps@[k2])@ == "module:"@ + sel_of_mi[k2]@);
            assert(!contains_id(deps@, "framework:"@ + config.framework@)) by {
                if contains_id(deps@, "framework:"@ + config.framework@) {
                    let k2 = choose|k2: int|
                        0 <= k2 < deps@.len() && deps@[k2]@ == "framework:"@ + config.framework@;
                    lemma_module_not_framework(sel_of_mi[k2]@, config.framework@);
                }
            }
        }

        let ghost deps_view = deps@;
        let task = ModuleTask::with_module_id(module_id.clone(), config.framework.clone(), deps);
        let ghost pre = planned@;
        planned.push(
            PlannedTask { id: task.id, name: task.name, dependencies: task.dependencies },
        );
        proof {
            assert(planned@.drop_last() =~= pre);
            assert forall|i: int|
                0 <= i < mi + 1 implies (#[trigger] planned@[i + 1].id@) == "module:"@
                + config.modules@[i]@ by {
                if i < mi as int {
                    assert(planned@[i + 1] == pre[i + 1]);
                    assert(pre[i + 1].id@ == "module:"@ + config.modules@[i]@);
                } else {
                    assert(task.id@ == "module:"@ + config.modules@[mi as int]@);
                    assert(planned@[mi + 1].id == task.id);
                }
            }
            assert forall|i: int|
                0 <= i < mi + 1 implies contains_id(
                #[trigger] planned@[i + 1].dependencies@,
                "framework:"@ + config.framework@,
            ) by {
                if i < mi as int {
                    assert(planned@[i + 1] == pre[i + 1]);
                    assert(contains_id(pre[i + 1].dependencies@, "framework:"@
                        + config.framework@));
                } else {
                    assert(planned@[mi + 1].dependencies == task.dependencies);
                    assert(contains_id(task.dependencies@, "framework:"@ + config.framework@));
                }
            }
            assert forall|i: int|
                0 <= i < mi + 1 implies #[trigger] planned_module_deps(
                planned@,
                config.modules@,
                all_modules@,
                config.framework@,
                i,
            ) by {
                if i < mi as int {
                    assert(planned_module_deps(
                        pre,
                        config.modules@,
                        all_modules@,
                        config.framework@,
                        i,
                    ));
                    assert(planned@[i + 1] == pre[i + 1]);
                } else {
                    let pd = planned@[mi + 1].dependencies@;
                    assert(pd == task.dependencies@);
                    assert(pd.len() == sel_of_mi.len() + 1);
                    assert(pd.drop_last() == deps_view);
                    assert forall|k2: int|
                        0 <= k2 < sel_of_mi.len() implies (#[trigger] pd[k2])@ == "module:"@
                        + sel_of_mi[k2]@ by {
                        assert(pd[k2] == deps_view[k2]);
                    }
                    assert(pd.last()@ == "framework:"@ + config.framework@);
                }
            }
        }
        mi = mi + 1;
    }

    // The cleanup task depends on the framework task and every module task.
    let mut cleanup_deps: Vec<String> = Vec::new();
    cleanup_deps.push(framework_task_id);
    let mut ci: usize = 0;
    while ci < module_count
        invariant
            module_count == config.modules@.len(),
            0 <= ci <= module_count,
            cleanup_deps@.len() == ci + 1,
            cleanup_deps@[0]@ == "framework:"@ + config.framework@,
            forall|k: int|
                1 <= k <= ci ==> (#[trigger] cleanup_deps@[k])@ == "module:"@ + config.modules@[k
                    - 1]@,
        decreases module_count - ci,
    {
        cleanup_deps.push(String::from_str("module:").concat(config.modules[ci].as_str()));
        ci = ci + 1;
    }
    let context = TaskContext {
        project_id: String::from_str(project_id),
        project_dir: project_path_of(config),
        config: config.duplicate(),
    };
    let mut cleanup_task = CleanupTask::new(context);
    cleanup_task.set_dependencies(cleanup_deps);
    let ghost pre_cleanup = planned@;
    planned.push(
        PlannedTask {
            id: cleanup_task.id,
            name: cleanup_task.name,
            dependencies: cleanup_task.dependencies,
        },
    );
    proof {
        // The structural shape of the planned set, carried to the wiring and
        // cycle checks below.
        let pl = planned@;
        let n = config.modules@.len() as int;
        assert(pl.drop_last() =~= pre_cleanup);
        assert(pl.len() == n + 2);
        assert(pl[0].id@ == "framework:"@ + config.framework@);
        assert(pl[0].dependencies@.len() == 0);
        assert forall|i: int|
            0 <= i < n implies (#[trigger] pl[i + 1].id@) == "module:"@ + config.modules@[i]@ by {
            assert(pl[i + 1] == pre_cleanup[i + 1]);
        }
        assert forall|i: int|
            0 <= i < n implies #[trigger] planned_module_deps(
            pl,
            config.modules@,
            all_modules@,
            config.framework@,
            i,
        ) by {
            assert(pl[i + 1] == pre_cleanup[i + 1]);
            assert(planned_module_deps(
                pre_cleanup,
                config.modules@,
                all_modules@,
                config.framework@,
                i,
            ));
        }
        assert(pl[n + 1].id@ == "cleanup"@);
        assert(pl[n + 1].dependencies@.len() == n + 1);
        assert(pl[n + 1].dependencies@[0]@ == "framework:"@ + config.framework@);
        assert(forall|k: int|
            1 <= k <= n ==> (#[trigger] pl[n + 1].dependencies@[k])@ == "module:"@
                + config.modules@[k - 1]@);
        assert(planned_workflow_shape(pl, config.modules@, all_modules@, config.framework@));
        lemma_workflow_deps_known(pl, config.modules@, all_modules@, config.framework@);
    }

    let graph = match TaskGraph::from_planned(&planned) {
        Ok(g) => g,
        Err(e) => {
            proof {
                // Every dependency resolves, so only a duplicate id can
                // refuse the wiring — and a distinct selection plans
                // distinct ids.
                if forall|i: int, j: int|
                    0 <= i < j < config.modules@.len() ==> (#[trigger] config.modules@[i]@)
                        != #[trigger] config.modules@[j]@ {
                    lemma_workflow_ids_unique(
                        planned@,
                        config.modules@,
                        all_modules@,
                        config.framework@,
                    );
                    assert(false);
                }
            }
            return Err(match e {
                BuildError::UnknownDependency { task, dependency } => {
                    proof {
                        // Unreachable: every planned dependency resolves.
                        assert(false);
                    }
                    BuildError::UnknownDependency { task, dependency }
                },
                BuildError::DuplicateTask { task } => BuildError::DuplicateTask { task },
                other => other,
            });
        },
    };

    match graph.find_cycle() {
        Some(cycle) => {
            proof {
                // Past the duplicate check the selected ids are distinct: a
                // repeated selection would repeat a planned module id.
                assert forall|a: int, b: int|
                    0 <= a < b < config.modules@.len() implies config.modules@[a]@
                    != config.modules@[b]@ by {
                    if config.modules@[a]@ == config.modules@[b]@ {
                        assert(planned@[a + 1].id@ == "module:"@ + config.modules@[a]@);
                        assert(planned@[b + 1].id@ == "module:"@ + config.modules@[b]@);
                        assert(planned@[a + 1].id@ != planned@[b + 1].id@);
                        assert(false);
                    }
                }
                // An acyclic selection would then be buildable and wire an
                // acyclic graph, so the found cycle pins a selection cycle.
                if selection_acyclic(config.modules@, all_modules@) {
                    assert(buildable_selection(config.modules@, all_modules@));
                    lemma_buildable_wired_acyclic(
                        graph.nodes@,
                        planned@,
                        config.modules@,
                        all_modules@,
                        config.framework@,
                    );
                    crate::laws::lemma_cycle_not_acyclic(graph.nodes@, cycle@);
                    assert(false);
                }
            }
            // Report the ids along the cycle, for diagnosability.
            let mut path: Vec<String> = Vec::new();
            let mut p: usize = 0;
            while p < cycle.len()
                invariant
                    is_cycle_path(graph.nodes@, cycle@),
                    graph_wf(graph.nodes@),
                    0 <= p <= cycle@.len(),
                    path@.len() == p,
                    graph.nodes@.len() == config.modules@.len() + 2,
                    graph.nodes@[0].id@ == "framework:"@ + config.framework@,
                    forall|i: int|
                        0 <= i < config.modules@.len() ==> (#[trigger] graph.nodes@[i + 1].id@)
                            == "module:"@ + config.modules@[i]@,
                    graph.nodes@[config.modules@.len() as int + 1].id@ == "cleanup"@,
                    forall|k: int|
                        0 <= k < p ==> ((#[trigger] path@[k])@ == "framework:"@ + config.framework@
                            || path@[k]@ == "cleanup"@ || exists|w: int|
                            0 <= w < config.modules@.len() && path@[k]@ == "module:"@
                                + config.modules@[w]@),
                decreases cycle@.len() - p,
            {
                let idx = cycle[p];
                let ghost at = path@.len();
                path.push(graph.nodes[idx].id.clone());
                proof {
                    let n = config.modules@.len() as int;
                    assert(path@[at as int]@ == graph.nodes@[idx as int].id@);
                    if 1 <= idx as int && idx as int <= n {
                        assert(graph.nodes@[(idx - 1) as int + 1].id@ == "module:"@
                            + config.modules@[(idx - 1) as int]@);
                    }
                }
                p = p + 1;
            }
            proof {
                assert(cycle@.len() >= 1);
            }
            Err(BuildError::CycleDetected { path })
        },
        None => {
            proof {
                let n = config.modules@.len() as int;
                let g = graph.nodes@;
                let pl = planned@;
                assert(pl.len() == n + 2);
                assert(g[0].deps@.len() == 0);
                assert forall|i: int| 0 <= i < n implies #[trigger] depends_on_framework(
                    g,
                    i + 1,
                ) by {
                    assert(contains_id(pl[i + 1].dependencies@, "framework:"@
                        + config.framework@));
                    let k = choose|k: int|
                        0 <= k < pl[i + 1].dependencies@.len() && #[trigger] pl[i
                            + 1].dependencies@[k]@ == "framework:"@ + config.framework@;
                    let d = g[i + 1].deps@[k] as int;
                    assert(g[d].id@ == pl[i + 1].dependencies@[k]@);
                    assert(g[0].id@ == "framework:"@ + config.framework@);
                    if d != 0 {
                        assert(g[d].id@ != g[0].id@);
                    }
                    assert(g[i + 1].deps@[k] as int == 0);
                }
                // Each module task's edges follow its planned dependencies:
                // the selected siblings in order, then the framework task.
                assert forall|i: int| 0 <= i < n implies #[trigger] module_edges(
                    g,
                    config.modules@,
                    all_modules@,
                    i,
                ) by {
                    assert(planned_module_deps(
                        pl,
                        config.modules@,
                        all_modules@,
                        config.framework@,
                        i,
                    ));
                    let sel = match catalog_find(all_modules@, config.modules@[i]@) {
                        Some(m) => selected_deps(m.dependencies@, config.modules@),
                        None => Seq::<String>::empty(),
                    };
                    let pd = pl[i + 1].dependencies@;
                    let ds = g[i + 1].deps@;
                    assert(ds.len() == pd.len());
                    assert forall|k: int|
                        0 <= k < sel.len() implies g[(#[trigger] ds[k]) as int].id@ == "module:"@
                        + sel[k]@ by {
                        assert(g[ds[k] as int].id@ == pd[k]@);
                    }
                    let dl = ds.len() - 1;
                    assert(g[ds[dl] as int].id@ == pd[dl]@);
                    assert(pd[dl]@ == "framework:"@ + config.framework@);
                    if ds[dl] as int != 0 {
                        assert(g[ds[dl] as int].id@ != g[0].id@);
                    }
                    assert(module_task_wired(g, i, sel));
                }
                // The cleanup task's edges: the framework task, then every
                // module task in selection order.
                assert(cleanup_wired(g, config.modules@)) by {
                    let ds = g[n + 1].deps@;
                    let pd = pl[n + 1].dependencies@;
                    assert(ds.len() == pd.len());
                    assert(g[ds[0] as int].id@ == pd[0]@);
                    assert(pd[0]@ == "framework:"@ + config.framework@);
                    if ds[0] as int != 0 {
                        assert(g[ds[0] as int].id@ != g[0].id@);
                    }
                    assert forall|k: int|
                        1 <= k <= n implies g[(#[trigger] ds[k]) as int].id@ == "module:"@
                        + config.modules@[k - 1]@ by {
                        assert(g[ds[k] as int].id@ == pd[k]@);
                    }
                }
                // The accepted wiring certifies the selection buildable:
                // distinct ids, and a rank projected from the wired graph.
                assert forall|i: int, j: int|
                    0 <= i < j < config.modules@.len() implies config.modules@[i]@
                    != config.modules@[j]@ by {
                    assert(pl[i + 1].id@ == "module:"@ + config.modules@[i]@);
                    assert(pl[j + 1].id@ == "module:"@ + config.modules@[j]@);
                    assert(g[i + 1].id@ == pl[i + 1].id@);
                    assert(g[j + 1].id@ == pl[j + 1].id@);
                    if config.modules@[i]@ == config.modules@[j]@ {
                        assert(g[i + 1].id@ == g[j + 1].id@);
                        assert(false);
                    }
                }
                lemma_wired_acyclic_selection(
                    g,
                    pl,
                    config.modules@,
                    all_modules@,
                    config.framework@,
                );
                assert(buildable_selection(config.modules@, all_modules@));
            }
            Ok(graph)
        },
    }
}

/// The declared dependency list restricted to the selected modules, in
/// declaration order.
pub open spec fn selected_deps(declared: Seq<String>, selected: Seq<String>) -> Seq<String>
    decreases declared.len(),
{
    if declared.len() == 0 {
        Seq::<String>::empty()
    } else {
        let rest = selected_deps(declared.drop_last(), selected);
        if contains_id(selected, declared.last()@) {
            rest.push(declared.last())
        } else {
            rest
        }
    }
}

/// Selected module `i` declares selected module `j` as a dependency, per the
/// first catalog entry carrying `i`'s id.
pub open spec fn selection_edge(
    selected: Seq<String>,
    catalog: Seq<Module>,
    i: int,
    j: int,
) -> bool {
    &&& 0 <= i < selected.len()
    &&& 0 <= j < selected.len()
    &&& match catalog_find(catalog, selected[i]@) {
        Some(m) => contains_id(m.dependencies@, selected[j]@),
        None => false,
    }
}

/// A rank certificate for the selection: every selected module ranks
/// strictly above each selected module it declares.
pub open spec fn selection_rank_valid(
    selected: Seq<String>,
    catalog: Seq<Module>,
    rank: Seq<int>,
) -> bool {
    &&& rank.len() == selected.len()
    &&& forall|i: int| 0 <= i < rank.len() ==> 0 <= #[trigger] rank[i]
    &&& forall|i: int, j: int| selection_edge(selected, catalog, i, j) ==> rank[j] < rank[i]
}

/// The dependency relation restricted to the selection has no cycle.
pub open spec fn selection_acyclic(selected: Seq<String>, catalog: Seq<Module>) -> bool {
    exists|rank: Seq<int>| selection_rank_valid(selected, catalog, rank)
}

/// The selections the builder accepts: pairwise distinct ids whose
/// restricted dependency relation is acyclic (a self-dependency is a cycle
/// of length one). Unknown ids are allowed; they contribute no edges.
pub open spec fn buildable_selection(selected: Seq<String>, catalog: Seq<Module>) -> bool {
    &&& forall|i: int, j: int| 0 <= i < j < selected.len() ==> selected[i]@ != selected[j]@
    &&& selection_acyclic(selected, catalog)
}

/// Every entry of the restricted dependency list is a declared dependency
/// and a selected module.
proof fn lemma_selected_deps_member(declared: Seq<String>, selected: Seq<String>, k: int)
    requires
        0 <= k < selected_deps(declared, selected).len(),
    ensures
        contains_id(declared, selected_deps(declared, selected)[k]@),
        contains_id(selected, selected_deps(declared, selected)[k]@),
    decreases declared.len(),
{
    if declared.len() > 0 {
        let rest = selected_deps(declared.drop_last(), selected);
        if contains_id(selected, declared.last()@) && k == rest.len() {
            assert(declared[declared.len() - 1]@ == declared.last()@);
        } else {
            lemma_selected_deps_member(declared.drop_last(), selected, k);
            let x = selected_deps(declared, selected)[k]@;
            let w = choose|w: int| 0 <= w < declared.drop_last().len() && declared.drop_last()[w]@ == x;
            assert(declared[w]@ == x);
        }
    }
}

/// A declared and selected dependency appears in the restricted list.
proof fn lemma_selected_deps_complete(declared: Seq<String>, selected: Seq<String>, x: Seq<char>)
    requires
        contains_id(declared, x),
        contains_id(selected, x),
    ensures
        exists|k: int|
            0 <= k < selected_deps(declared, selected).len() && (#[trigger] selected_deps(
                declared,
                selected,
            )[k])@ == x,
    decreases declared.len(),
{
    let full = selected_deps(declared, selected);
    if declared.last()@ == x {
        assert(contains_id(selected, declared.last()@));
        assert(full[full.len() - 1]@ == x);
    } else {
        let w = choose|w: int| 0 <= w < declared.len() && declared[w]@ == x;
        assert(declared.drop_last()[w]@ == x);
        assert(contains_id(declared.drop_last(), x));
        lemma_selected_deps_complete(declared.drop_last(), selected, x);
        let rest = selected_deps(declared.drop_last(), selected);
        let k = choose|k: int| 0 <= k < rest.len() && rest[k]@ == x;
        assert(full[k]@ == x);
    }
}

/// The largest entry of a rank assignment (zero for an empty one).
pub open spec fn seq_max(s: Seq<int>) -> int
    decreases s.len(),
{
    if s.len() == 0 {
        0
    } else if s.last() >= seq_max(s.drop_last()) {
        s.last()
    } else {
        seq_max(s.drop_last())
    }
}

proof fn lemma_seq_max(s: Seq<int>, i: int)
    requires
        0 <= i < s.len(),
    ensures
        s[i] <= seq_max(s),
    decreases s.len(),
{
    if i < s.len() - 1 {
        lemma_seq_max(s.drop_last(), i);
    }
}

/// The planned shape of a resolution graph: one task per selected module,
/// under its own id, carrying its restricted dependency list.
spec fn resolve_shape(pl: Seq<PlannedTask>, selected: Seq<String>, catalog: Seq<Module>) -> bool {
    &&& pl.len() == selected.len()
    &&& forall|j: int| 0 <= j < pl.len() ==> (#[trigger] pl[j].id@) == selected[j]@
    &&& forall|j: int|
        0 <= j < pl.len() ==> (catalog_find(catalog, selected[j]@) matches Some(m) && (
        #[trigger] pl[j].dependencies@) == selected_deps(m.dependencies@, selected))
}

proof fn lemma_resolve_deps_known(pl: Seq<PlannedTask>, selected: Seq<String>, catalog: Seq<Module>)
    requires
        resolve_shape(pl, selected, catalog),
    ensures
        crate::graph::planned_deps_known(pl),
{
    assert forall|j: int, k: int|
        0 <= j < pl.len() && 0 <= k < pl[j].dependencies@.len() implies crate::graph::planned_has_id(
        pl,
        pl[j].dependencies@[k]@,
    ) by {
        match catalog_find(catalog, selected[j]@) {
            Some(m) => {
                lemma_selected_deps_member(m.dependencies@, selected, k);
                let w = choose|w: int|
                    0 <= w < selected.len() && selected[w]@ == pl[j].dependencies@[k]@;
                assert(pl[w].id@ == selected[w]@);
            },
            None => {
                assert(false);
            },
        }
    }
}

/// An acyclic selection resolves to an acyclic graph: the selection rank is
/// itself a rank for the wired tasks.
proof fn lemma_resolve_acyclic(
    g: Seq<TaskNode>,
    pl: Seq<PlannedTask>,
    selected: Seq<String>,
    catalog: Seq<Module>,
)
    requires
        resolve_shape(pl, selected, catalog),
        crate::graph::resolves(pl, g),
        graph_wf(g),
        selection_acyclic(selected, catalog),
    ensures
        acyclic(g),
{
    let srank = choose|rank: Seq<int>| selection_rank_valid(selected, catalog, rank);
    assert forall|a: int, b: int|
        0 <= a < g.len() && 0 <= b < g[a].deps@.len() implies srank[#[trigger] g[a].deps@[b] as int]
        < srank[a] by {
        let t = g[a].deps@[b] as int;
        assert(g[t].id@ == pl[a].dependencies@[b]@);
        match catalog_find(catalog, selected[a]@) {
            Some(m) => {
                lemma_selected_deps_member(m.dependencies@, selected, b);
                let w = choose|w: int|
                    0 <= w < selected.len() && selected[w]@ == pl[a].dependencies@[b]@;
                assert(g[w].id@ == pl[w].id@);
                if t != w {
                    assert(g[t].id@ != g[w].id@);
                }
                assert(t == w);
                assert(contains_id(m.dependencies@, selected[w]@));
                assert(selection_edge(selected, catalog, a, w));
            },
            None => {
                assert(false);
            },
        }
    }
    assert(crate::graph::rank_valid(g, srank));
}

/// An acyclic resolution graph certifies the selection acyclic: its rank
/// carries straight over.
proof fn lemma_resolve_projection(
    g: Seq<TaskNode>,
    pl: Seq<PlannedTask>,
    selected: Seq<String>,
    catalog: Seq<Module>,
)
    requires
        resolve_shape(pl, selected, catalog),
        crate::graph::resolves(pl, g),
        graph_wf(g),
        acyclic(g),
    ensures
        selection_acyclic(selected, catalog),
{
    let wrank = choose|rank: Seq<int>| crate::graph::rank_valid(g, rank);
    assert forall|i: int, j: int|
        selection_edge(selected, catalog, i, j) implies wrank[j] < wrank[i] by {
        match catalog_find(catalog, selected[i]@) {
            Some(m) => {
                assert(contains_id(m.dependencies@, selected[j]@));
                assert(contains_id(selected, selected[j]@)) by {
                    assert(selected[j]@ == selected[j]@);
                }
                lemma_selected_deps_complete(m.dependencies@, selected, selected[j]@);
                let sel = selected_deps(m.dependencies@, selected);
                let k = choose|k: int| 0 <= k < sel.len() && sel[k]@ == selected[j]@;
                assert(pl[i].dependencies@[k]@ == selected[j]@);
                let t = g[i].deps@[k] as int;
                assert(g[t].id@ == pl[i].dependencies@[k]@);
                assert(g[j].id@ == pl[j].id@);
                if t != j {
                    assert(g[t].id@ != g[j].id@);
                }
                assert(t == j);
                assert(wrank[g[i].deps@[k] as int] < wrank[i]);
            },
            None => {
                assert(false);
            },
        }
    }
    assert(selection_rank_valid(selected, catalog, wrank));
}

/// Resolve each selected module's dependencies against the catalog, keeping
/// only dependencies that are themselves selected, and reject unknown
/// modules and circular dependencies. On success each module is paired with
/// exactly its declared dependencies restricted to the selection; a
/// dependency-free selection of distinct known modules always succeeds.
pub fn resolve_module_dependencies(modules: &Vec<String>, all_modules: &Vec<Module>) -> (r: Result<
    Vec<(String, Vec<String>)>,
    String,
>)
    ensures
        r matches Ok(deps) ==> deps@.len() == modules@.len() && forall|i: int|
            0 <= i < deps@.len() ==> (#[trigger] deps@[i].0)@ == modules@[i]@,
        r matches Ok(deps) ==> forall|i: int|
            0 <= i < deps@.len() ==> (catalog_find(all_modules@, #[trigger] modules@[i]@)
                matches Some(m) && deps@[i].1@ == selected_deps(m.dependencies@, modules@)),
        r is Ok <==> ((forall|i: int|
            0 <= i < modules@.len() ==> has_module(all_modules@, #[trigger] modules@[i]@)) && (
        forall|i: int, j: int| 0 <= i < j < modules@.len() ==> modules@[i]@ != modules@[j]@)
            && selection_acyclic(modules@, all_modules@)),
{
    let n = modules.len();
    let mut resolved: Vec<(String, Vec<String>)> = Vec::new();
    let mut planned: Vec<PlannedTask> = Vec::new();
    let mut i: usize = 0;
    while i < n
        invariant
            n == modules@.len(),
            0 <= i <= n,
            resolved@.len() == i,
            planned@.len() == i,
            forall|j: int| 0 <= j < i ==> (#[trigger] resolved@[j].0)@ == modules@[j]@,
            forall|j: int| 0 <= j < i ==> (#[trigger] planned@[j].id)@ == modules@[j]@,
            forall|j: int| 0 <= j < i ==> has_module(all_modules@, #[trigger] modules@[j]@),
            forall|j: int|
                0 <= j < i ==> (catalog_find(all_modules@, #[trigger] modules@[j]@) matches Some(m)
                    && resolved@[j].1@ == selected_deps(m.dependencies@, modules@) && planned@[j].dependencies@ == resolved@[j].1@),
        decreases n - i,
    {
        let module_id = &modules[i];
        let module = match get_module_by_id(all_modules, module_id.as_str()) {
            Ok(m) => m,
            Err(e) => {
                return Err(e);
            },
        };
        let mut deps: Vec<String> = Vec::new();
        let dep_count = module.dependencies.len();
        let mut k: usize = 0;
        while k < dep_count
            invariant
                dep_count == module.dependencies@.len(),
                0 <= k <= dep_count,
                n == modules@.len(),
                deps@ == selected_deps(module.dependencies@.subrange(0, k as int), modules@),
            decreases dep_count - k,
        {
            let dep = &module.dependencies[k];
            let mut selected = false;
            let mut s: usize = 0;
            while s < n
                invariant
                    n == modules@.len(),
                    0 <= s <= n,
                    selected ==> contains_id(modules@, dep@),
                    !selected ==> forall|m: int| 0 <= m < s ==> modules@[m]@ != dep@,
                decreases n - s,
            {
                if str_eq(modules[s].as_str(), dep.as_str()) {
                    selected = true;
                    assert(modules@[s as int]@ == dep@);
                }
                s = s + 1;
            }
            proof {
                if !selected {
                    assert(!contains_id(modules@, dep@)) by {
                        if contains_id(modules@, dep@) {
                            let m = choose|m: int|
                                0 <= m < modules@.len() && modules@[m]@ == dep@;
                            assert(false);
                        }
                    }
                }
                assert(module.dependencies@.subrange(0, k + 1).drop_last()
                    =~= module.dependencies@.subrange(0, k as int));
                assert(module.dependencies@.subrange(0, k + 1).last()
                    == module.dependencies@[k as int]);
            }
            if selected {
                deps.push(dep.clone());
            }
            k = k + 1;
        }
        proof {
            assert(module.dependencies@.subrange(0, dep_count as int) =~= module.dependencies@);
        }
        resolved.push((module_id.clone(), crate::strutil::clone_strings(&deps)));
        planned.push(
            PlannedTask { id: module_id.clone(), name: module_id.clone(), dependencies: deps },
        );
        i = i + 1;
    }

    proof {
        assert(resolve_shape(planned@, modules@, all_modules@));
        lemma_resolve_deps_known(planned@, modules@, all_modules@);
    }

    // Reject circular dependencies among the selected modules.
    let wired = match TaskGraph::from_planned(&planned) {
        Ok(g) => g,
        Err(e) => {
            proof {
                // Only duplicate selected ids can refuse this wiring.
                if forall|a: int, b: int|
                    0 <= a < b < modules@.len() ==> modules@[a]@ != modules@[b]@ {
                    assert forall|a: int, b: int|
                        0 <= a < b < planned@.len() implies planned@[a].id@ != planned@[b].id@ by {
                        assert(modules@[a]@ != modules@[b]@);
                    }
                    assert(crate::graph::planned_ids_unique(planned@));
                    assert(false);
                }
            }
            return Err(e.message());
        },
    };
    match wired.find_cycle() {
        Some(cycle) => {
            proof {
                // An acyclic selection resolves to an acyclic graph, so the
                // found cycle is a contradiction.
                if selection_acyclic(modules@, all_modules@) {
                    lemma_resolve_acyclic(wired.nodes@, planned@, modules@, all_modules@);
                    crate::laws::lemma_cycle_not_acyclic(wired.nodes@, cycle@);
                    assert(false);
                }
            }
            // Report the ids along the cycle, for diagnosability.
            let mut path: Vec<String> = Vec::new();
            let mut p: usize = 0;
            while p < cycle.len()
                invariant
                    is_cycle_path(wired.nodes@, cycle@),
                    graph_wf(wired.nodes@),
                    0 <= p <= cycle@.len(),
                    path@.len() == p,
                decreases cycle@.len() - p,
            {
                let idx = cycle[p];
                path.push(wired.nodes[idx].id.clone());
                p = p + 1;
            }
            let listing = joined_ids(&path);
            Err(
                String::from_str("Circular dependency detected among modules: ").concat(
                    listing.as_str(),
                ),
            )
        },
        None => {
            proof {
                assert forall|a: int, b: int|
                    0 <= a < b < modules@.len() implies modules@[a]@ != modules@[b]@ by {
                    assert(planned@[a].id@ != planned@[b].id@);
                }
                lemma_resolve_projection(wired.nodes@, planned@, modules@, all_modules@);
            }
            Ok(resolved)
        },
    }
}

/// The ids joined with single spaces, for diagnostics.
fn joined_ids(ids: &Vec<String>) -> (r: String)
    ensures
        r@ == crate::command_runner::joined_args(ids@),
{
    let n = ids.len();
    if n == 0 {
        return String::new();
    }
    let mut out = ids[0].clone();
    let mut i: usize = 1;
    while i < n
        invariant
            n == ids@.len(),
            1 <= i <= n,
            out@ == crate::command_runner::joined_args(ids@.subrange(0, i as int)),
        decreases n - i,
    {
        out = out.concat(" ").concat(ids[i].as_str());
        proof {
            let sub = ids@.subrange(0, i + 1);
            assert(sub.drop_last() =~= ids@.subrange(0, i as int));
            assert(sub.last() == ids@[i as int]);
        }
        i = i + 1;
    }
    proof {
        assert(ids@.subrange(0, n as int) =~= ids@);
        assert(ids@.subrange(0, 1) =~= seq![ids@[0]]);
    }
    out
}

/// Remember a project's configuration and announce that task initialization
/// is beginning.
pub fn store_config(
    state: &mut AppState,
    project_id: &str,
    config: ProjectConfig,
    events: &mut Vec<ProjectEvent>,
) -> (r: Result<(), String>)
    ensures
        r is Ok,
        final(state).spec_configs() == old(state).spec_configs().insert(project_id@, config),
        final(state).spec_projects() == old(state).spec_projects(),
        final(state).spec_logs() == old(state).spec_logs(),
        final(state).spec_task_states() == old(state).spec_task_states(),
        final(state).spec_task_metadata() == old(state).spec_task_metadata(),
        final(state).spec_completed() == old(state).spec_completed(),
        final(state).spec_checkpoints() == old(state).spec_checkpoints(),
        final(events)@.len() == old(events)@.len() + 1,
        final(events)@.last() matches ProjectEvent::TaskInitializationStarted { project_id: p }
            && p@ == project_id@,
        forall|i: int| 0 <= i < old(events)@.len() ==> final(events)@[i] == old(events)@[i],
{
    let r = state.store_project_config(project_id, config);
    events.push(
        ProjectEvent::TaskInitializationStarted { project_id: String::from_str(project_id) },
    );
    r
}

/// Build the tasks of a stored configuration, register them (all Pending),
/// mark the project Generating, and hand the wired graph back for the caller
/// to execute. Fails when no configuration was stored or the graph is
/// invalid, announcing the failure.
pub fn initialize_and_start(
    state: &mut AppState,
    project_id: &str,
    all_modules: &Vec<Module>,
    events: &mut Vec<ProjectEvent>,
) -> (r: Result<TaskGraph, String>)
    ensures
        !old(state).spec_configs().contains_key(project_id@) ==> r is Err,
        old(state).spec_configs().contains_key(project_id@) && buildable_selection(
            old(state).spec_configs()[project_id@].modules@,
            all_modules@,
        ) ==> r is Ok,
        r matches Ok(g) ==> graph_wf(g.nodes@) && acyclic(g.nodes@) && g.nodes@.len()
            == old(state).spec_configs()[project_id@].modules@.len() + 2,
        r is Ok ==> final(state).spec_projects().contains_key(project_id@)
            && (final(state).spec_projects()[project_id@]
            matches ProjectStatus::Generating { progress, .. } && progress == 0),
        r matches Ok(g) ==> final(state).spec_task_states().contains_key(project_id@)
            && (forall|i: int|
            0 <= i < g.nodes@.len() ==> final(state).spec_task_states()[project_id@]@.contains_key(
                #[trigger] g.nodes@[i].id@,
            ) && final(state).spec_task_states()[project_id@]@[g.nodes@[i].id@] is Pending),
        final(state).spec_configs() == old(state).spec_configs(),
        !old(state).spec_configs().contains_key(project_id@) ==> final(events)@ == old(events)@,
        forall|j: int| 0 <= j < old(events)@.len() ==> final(events)@[j] == old(events)@[j],
        r matches Err(m) ==> (old(state).spec_configs().contains_key(project_id@)
            ==> final(events)@.len() == old(events)@.len() + 2 && (final(events)@.last()
            matches ProjectEvent::TaskInitializationFailed { project_id: p, reason } && p@
            == project_id@ && reason@ == m@)),
        r matches Ok(g) ==> final(events)@.len() > old(events)@.len() + 1
            && (final(events)@[old(events)@.len() as int + 1]
            matches ProjectEvent::TaskInitializationCompleted {
            project_id: p,
            task_count,
            task_names,
        } && p@ == project_id@ && task_count == g.nodes@.len() && task_names@.len()
            == g.nodes@.len() && (forall|i: int|
            0 <= i < g.nodes@.len() ==> ((#[trigger] task_names@[i]).0@ == g.nodes@[i].id@
                && task_names@[i].1@ == g.nodes@[i].name@))),
{
    let config = match state.get_project_config(project_id) {
        Some(c) => c,
        None => {
            return Err(
                String::from_str("No configuration found for project ID: ").concat(project_id),
            );
        },
    };

    events.push(
        ProjectEvent::TaskInitializationProgress {
            project_id: String::from_str(project_id),
            message: String::from_str("Creating project generation tasks"),
        },
    );

    let graph = match create_tasks(project_id, &config, all_modules) {
        Ok(g) => g,
        Err(e) => {
            let reason = e.message();
            events.push(
                ProjectEvent::TaskInitializationFailed {
                    project_id: String::from_str(project_id),
                    reason: reason.clone(),
                },
            );
            return Err(reason);
        },
    };

    let task_count = graph.nodes.len();
    let mut task_names: Vec<(String, String)> = Vec::new();
    let mut i: usize = 0;
    #[verifier::loop_isolation(false)]
    while i < task_count
        invariant
            0 <= i <= task_count,
            task_names@.len() == i,
            forall|m: int|
                0 <= m < i ==> ((#[trigger] task_names@[m]).0@ == graph.nodes@[m].id@
                    && task_names@[m].1@ == graph.nodes@[m].name@),
        decreases task_count - i,
    {
        task_names.push((graph.nodes[i].id.clone(), graph.nodes[i].name.clone()));
        i = i + 1;
    }
    events.push(
        ProjectEvent::TaskInitializationCompleted {
            project_id: String::from_str(project_id),
            task_count,
            task_names,
        },
    );
    let ghost ev_mid = events@;

    let (status_event, _action) = state.set_project_status(
        project_id,
        ProjectStatus::Generating { current_step: String::from_str("Initializing"), progress: 0 },
    );
    match status_event {
        Some(e) => events.push(e),
        None => {},
    }

    let mut j: usize = 0;
    #[verifier::loop_isolation(false)]
    while j < task_count
        invariant
            0 <= j <= task_count,
            events@.len() >= ev_mid.len(),
            forall|m: int| 0 <= m < ev_mid.len() ==> events@[m] == ev_mid[m],
            state.spec_projects().contains_key(project_id@),
            state.spec_projects()[project_id@] matches ProjectStatus::Generating { progress, .. }
                && progress == 0,
            state.spec_configs() == old(state).spec_configs(),
            j > 0 ==> state.spec_task_states().contains_key(project_id@),
            forall|m: int|
                0 <= m < j ==> state.spec_task_states().contains_key(project_id@)
                    && state.spec_task_states()[project_id@]@.contains_key(
                    #[trigger] graph.nodes@[m].id@,
                ) && state.spec_task_states()[project_id@]@[graph.nodes@[m].id@] is Pending,
        decreases task_count - j,
    {
        let node_id = graph.nodes[j].id.clone();
        let node_name = graph.nodes[j].name.clone();
        let dep_ids = task_dep_ids(&graph, j);
        state.register_task(project_id, node_id.as_str(), node_name.as_str(), &dep_ids);
        let ev = state.set_task_state(project_id, node_id.as_str(), crate::tasks::TaskState::Pending);
        events.push(ev);
        proof {
            assert forall|m: int|
                0 <= m < j + 1 implies state.spec_task_states()[project_id@]@.contains_key(
                #[trigger] graph.nodes@[m].id@,
            ) && state.spec_task_states()[project_id@]@[graph.nodes@[m].id@] is Pending by {
                if m < j as int {
                    assert(graph.nodes@[m].id@ != graph.nodes@[j as int].id@);
                }
            }
        }
        j = j + 1;
    }
    proof {
        assert(events@.len() >= ev_mid.len());
        assert(events@.len() > old(events)@.len() + 1);
        assert(events@[old(events)@.len() as int + 1] == ev_mid[old(events)@.len() as int + 1]);
        assert forall|m: int| 0 <= m < old(events)@.len() implies events@[m] == old(
            events,
        )@[m] by {
            assert(events@[m] == ev_mid[m]);
            assert(ev_mid[m] == old(events)@[m]);
        }
    }

    Ok(graph)
}

/// The ids of one task's dependencies.
fn task_dep_ids(graph: &TaskGraph, i: usize) -> (r: Vec<String>)
    requires
        graph_wf(graph.nodes@),
        (i as int) < graph.nodes@.len(),
    ensures
        r@.len() == graph.nodes@[i as int].deps@.len(),
{
    let dep_count = graph.nodes[i].deps.len();
    let mut r: Vec<String> = Vec::new();
    let mut k: usize = 0;
    while k < dep_count
        invariant
            graph_wf(graph.nodes@),
            (i as int) < graph.nodes@.len(),
            dep_count == graph.nodes@[i as int].deps@.len(),
            0 <= k <= dep_count,
            r@.len() == k,
        decreases dep_count - k,
    {
        let d = graph.nodes[i].deps[k];
        r.push(graph.nodes[d].id.clone());
        k = k + 1;
    }
    r
}

/// Begin a brand-new generation: mint a project id, remember the
/// configuration, and wire the tasks. Returns the new project id.
pub fn start_generation(
    state: &mut AppState,
    config: ProjectConfig,
    all_modules: &Vec<Module>,
    events: &mut Vec<ProjectEvent>,
) -> (r: Result<String, String>)
    ensures
        r matches Ok(id) ==> id@.len() == 36,
        r matches Ok(id) ==> final(state).spec_configs().contains_key(id@)
            && crate::project::config_eq(final(state).spec_configs()[id@], config),
        r matches Ok(id) ==> final(state).spec_projects().contains_key(id@)
            && (final(state).spec_projects()[id@]
            matches ProjectStatus::Generating { progress, .. } && progress == 0),
        buildable_selection(config.modules@, all_modules@) ==> r is Ok,
{
    let project_id = fresh_project_id();
    let stored = store_config(state, project_id.as_str(), config, events);
    match stored {
        Ok(()) => {},
        Err(e) => {
            return Err(e);
        },
    }
    match initialize_and_start(state, project_id.as_str(), all_modules, events) {
        Ok(_graph) => Ok(project_id),
        Err(e) => Err(e),
    }
}

/// Resume a project that failed resumably: rebuild and re-validate the graph
/// from the checkpointed configuration, and return an executor in which the
/// checkpointed completed tasks already stand Completed, so exactly the
/// remaining tasks will run, under the original dependency semantics.
pub fn resume_generation(
    state: &mut AppState,
    project_id: &str,
    all_modules: &Vec<Module>,
    events: &mut Vec<ProjectEvent>,
) -> (r: Result<TaskExecutor, String>)
    ensures
        !(old(state).spec_projects().contains_key(project_id@)
            && (old(state).spec_projects()[project_id@]
            matches ProjectStatus::Failed { resumable, .. } && resumable)) ==> (r is Err && *final(state) == *old(state) && final(events)@ == old(events)@),
        (old(state).spec_projects().contains_key(project_id@) && (old(state).spec_projects()[project_id@] matches ProjectStatus::Failed { resumable, .. } && resumable) && !old(state).spec_checkpoints().contains_key(project_id@)) ==> (r is Err && *final(state) == *old(state) && final(events)@ == old(events)@),
        forall|j: int| 0 <= j < old(events)@.len() ==> final(events)@[j] == old(events)@[j],
        (old(state).spec_projects().contains_key(project_id@) && (old(state).spec_projects()[project_id@] matches ProjectStatus::Failed { resumable, .. } && resumable) && old(state).spec_checkpoints().contains_key(project_id@)) ==> final(events)@.len() == old(events)@.len() + 2
            && (final(events)@[old(events)@.len() as int]
            matches ProjectEvent::LogMessage { project_id: p, message: m } && p@ == project_id@
            && m@ == "Resuming generation from checkpoint"@)
            && (final(events)@.last()
            matches ProjectEvent::Progress { project_id: p, step, progress } && p@ == project_id@
            && step@ == "Resuming"@ && progress == 0),
        (old(state).spec_projects().contains_key(project_id@) && (old(state).spec_projects()[project_id@] matches ProjectStatus::Failed { resumable, .. } && resumable) && old(state).spec_checkpoints().contains_key(project_id@) && buildable_selection(
            old(state).spec_checkpoints()[project_id@].config.modules@,
            all_modules@,
        )) ==> r is Ok,
        r matches Ok(ex) ==> {
            let done = if old(state).spec_completed().contains_key(project_id@) {
                old(state).spec_completed()[project_id@]@
            } else {
                Seq::<String>::empty()
            };
            &&& ex.wf()
            &&& graph_wf(ex.spec_nodes())
            &&& acyclic(ex.spec_nodes())
            &&& ex.spec_states().len() == ex.spec_nodes().len()
            &&& forall|i: int|
                0 <= i < ex.spec_states().len() ==> ((#[trigger] ex.spec_states()[i]) is Completed
                    <==> contains_id(done, ex.spec_nodes()[i].id@))
            &&& forall|i: int|
                0 <= i < ex.spec_states().len() ==> (ex.spec_states()[i] is Completed
                    || ex.spec_states()[i] is Pending)
        },
{
    if !state.can_resume(project_id) {
        return Err(String::from_str("Project cannot be resumed"));
    }
    let checkpoint = match state.get_checkpoint(project_id) {
        Some(c) => c,
        None => {
            return Err(String::from_str("No checkpoint found for this project"));
        },
    };

    let ev = state.add_log(project_id, "Resuming generation from checkpoint");
    events.push(ev);
    let (status_event, _action) = state.set_project_status(
        project_id,
        ProjectStatus::Generating { current_step: String::from_str("Resuming"), progress: 0 },
    );
    match status_event {
        Some(e) => events.push(e),
        None => {},
    }

    let completed = state.get_completed_tasks(project_id);
    let graph = match create_tasks(project_id, &checkpoint.config, all_modules) {
        Ok(g) => g,
        Err(e) => {
            return Err(e.message());
        },
    };
    Ok(TaskExecutor::resumed(graph, &completed))
}

/// Cancel a generation: the project becomes Cancelled (a deliberate terminal
/// outcome), its not-yet-started tasks move to Skipped, and the caller must
/// delete any stored checkpoint.
pub fn cancel_generation(state: &mut AppState, project_id: &str, events: &mut Vec<ProjectEvent>)
    -> (r: CheckpointAction)
    ensures
        final(state).spec_projects().contains_key(project_id@)
            && final(state).spec_projects()[project_id@] is Cancelled,
        r matches CheckpointAction::Remove(p) && p@ == project_id@,
        final(events)@.len() == old(events)@.len() + 2,
        forall|j: int| 0 <= j < old(events)@.len() ==> final(events)@[j] == old(events)@[j],
        final(events)@[old(events)@.len() as int] matches ProjectEvent::Cancelled {
            project_id: p,
        } && p@ == project_id@,
        final(events)@.last() matches ProjectEvent::LogMessage { project_id: p, message: m } && p@
            == project_id@ && m@ == "Generation cancelled by user"@,
        old(state).spec_task_states().contains_key(project_id@) ==> {
            let before = old(state).spec_task_states()[project_id@]@;
            let after = final(state).spec_task_states()[project_id@]@;
            &&& final(state).spec_task_states().contains_key(project_id@)
            &&& forall|k: Seq<char>|
                #![trigger after[k]]
                before.contains_key(k) ==> after.contains_key(k) && (if before[k] is Pending {
                    after[k] is Skipped
                } else {
                    after[k] == before[k]
                })
        },
{
    let (status_event, action) = state.set_project_status(project_id, ProjectStatus::Cancelled);
    match status_event {
        Some(e) => events.push(e),
        None => {},
    }
    let ev = state.add_log(project_id, "Generation cancelled by user");
    events.push(ev);
    state.skip_pending_tasks(project_id, "Generation cancelled by user");
    action
}

/// The display name of the task carrying this id, or the id itself when no
/// task carries it.
fn lookup_name(executor: &TaskExecutor, id: &str) -> (r: String)
{
    let n = executor.get_task_count();
    let mut i: usize = 0;
    while i < n
        invariant
            n == executor.spec_nodes().len(),
            0 <= i <= n,
        decreases n - i,
    {
        if str_eq(executor.task_id(i).as_str(), id) {
            return executor.task_name(i).clone();
        }
        i = i + 1;
    }
    String::from_str(id)
}

/// Drive an executor to completion against the given task outcomes,
/// mirroring its starting states into the project's task table, recording
/// every result, updating progress with the true completion fraction, and
/// deciding the terminal project status: Completed on full success, Failed
/// (resumable, with a fresh checkpoint) on partial failure, Failed (not
/// resumable) on an engine fault. Succeeds exactly when every task of the
/// graph can complete from the executor's starting states under these
/// outcomes. Exactly one checkpoint action is appended: delete on success,
/// persist on a resumable failure.
#[verifier::rlimit(100)]
pub fn run_executor(
    state: &mut AppState,
    project_id: &str,
    config: &ProjectConfig,
    executor: &mut TaskExecutor,
    outcomes: &Vec<TaskOutcome>,
    events: &mut Vec<ProjectEvent>,
    actions: &mut Vec<CheckpointAction>,
) -> (r: Result<Vec<TaskResult>, String>)
    requires
        old(executor).wf(),
        outcomes@.len() == old(executor).spec_nodes().len(),
        forall|i: int|
            0 <= i < old(executor).spec_states().len() ==> (old(executor).spec_states()[i]
                is Pending || old(executor).spec_states()[i] is Completed),
    ensures
        r is Ok <==> run_completes(
            old(executor).spec_nodes(),
            old(executor).spec_states(),
            outcomes@,
        ),
        r matches Ok(rs) ==> results_ok(
            old(executor).spec_nodes(),
            old(executor).spec_states(),
            all_completed(old(executor).spec_nodes().len() as nat),
            outcomes@,
            rs@,
        ),
        r matches Ok(rs) ==> forall|k: int| 0 <= k < rs@.len() ==> (#[trigger] rs@[k]).success,
        r is Ok ==> final(state).spec_projects().contains_key(project_id@)
            && (final(state).spec_projects()[project_id@] matches ProjectStatus::Completed { path }
            && path@ == config.path@ + "/"@ + config.name@),
        r is Ok ==> forall|i: int|
            0 <= i < old(executor).spec_nodes().len() ==> final(state).spec_task_states().contains_key(project_id@) && final(state).spec_task_states()[project_id@]@.contains_key(
                #[trigger] old(executor).spec_nodes()[i].id@,
            ) && final(state).spec_task_states()[project_id@]@[old(executor).spec_nodes()[i].id@]
                is Completed,
        r is Err ==> final(state).spec_projects().contains_key(project_id@)
            && final(state).spec_projects()[project_id@] is Failed,
        (r is Err && final(state).spec_projects()[project_id@] matches ProjectStatus::Failed {
            resumable: true,
            ..
        }) ==> {
            &&& final(state).spec_checkpoints().contains_key(project_id@)
            &&& crate::project::config_eq(
                final(state).spec_checkpoints()[project_id@].config,
                *config,
            )
            &&& final(state).spec_checkpoints()[project_id@].project_path@ == config.path@ + "/"@
                + config.name@
            &&& final(state).spec_checkpoints()[project_id@].completed_tasks@ == (if final(state).spec_completed().contains_key(project_id@) {
                final(state).spec_completed()[project_id@]@
            } else {
                Seq::<String>::empty()
            })
        },
        r is Err && !crate::executor::run_faults(
            old(executor).spec_nodes(),
            old(executor).spec_states(),
            outcomes@,
        ) ==> (final(state).spec_projects()[project_id@] matches ProjectStatus::Failed {
            resumable,
            ..
        } && resumable),
        r is Err && crate::executor::run_faults(
            old(executor).spec_nodes(),
            old(executor).spec_states(),
            outcomes@,
        ) ==> (final(state).spec_projects()[project_id@] matches ProjectStatus::Failed {
            resumable,
            ..
        } && !resumable),
        final(actions)@.len() == old(actions)@.len() + 1,
        forall|j: int| 0 <= j < old(actions)@.len() ==> final(actions)@[j] == old(actions)@[j],
        r is Ok ==> (final(actions)@.last() matches CheckpointAction::Remove(p) && p@
            == project_id@),
        (r is Err && final(state).spec_projects()[project_id@] matches ProjectStatus::Failed {
            resumable: true,
            ..
        }) ==> (final(actions)@.last() matches CheckpointAction::Persist(c)
            && crate::state::checkpoint_eq(c, final(state).spec_checkpoints()[project_id@])),
        forall|j: int| 0 <= j < old(events)@.len() ==> final(events)@[j] == old(events)@[j],
        forall|a: int, b: int|
            old(events)@.len() <= a < b < final(events)@.len() && is_progress_event(
                #[trigger] final(events)@[a],
            ) && is_progress_event(#[trigger] final(events)@[b]) ==> event_percent(
                final(events)@[a],
            ) <= event_percent(final(events)@[b]),
        forall|a: int|
            old(events)@.len() <= a < final(events)@.len() && is_progress_event(
                #[trigger] final(events)@[a],
            ) ==> event_percent(final(events)@[a]) <= 100,
{
    let ghost g = executor.spec_nodes();
    let ghost init = executor.spec_states();
    let n = executor.get_task_count();

    let ev = state.add_log(project_id, "Starting task execution");
    events.push(ev);

    // Mirror the executor's starting states into the project's task table,
    // so every progress fraction is over the total task count.
    let states0 = executor.get_states();
    let mut si: usize = 0;
    while si < n
        invariant
            executor.wf(),
            g == executor.spec_nodes(),
            init == executor.spec_states(),
            n == g.len(),
            states0@ == init,
            0 <= si <= n,
            events@.len() >= old(events)@.len(),
            forall|a: int| 0 <= a < old(events)@.len() ==> events@[a] == old(events)@[a],
            forall|a: int|
                old(events)@.len() <= a < events@.len() ==> !is_progress_event(
                    #[trigger] events@[a],
                ),
            forall|m: int|
                0 <= m < si ==> state.spec_task_states().contains_key(project_id@)
                    && state.spec_task_states()[project_id@]@.contains_key(#[trigger] g[m].id@)
                    && state.spec_task_states()[project_id@]@[g[m].id@] == status_of(init[m]),
        decreases n - si,
    {
        let id = executor.task_id(si).clone();
        let st = match &states0[si] {
            TaskState::Pending => TaskState::Pending,
            TaskState::Running => TaskState::Running,
            TaskState::Completed => TaskState::Completed,
            TaskState::Failed(m) => TaskState::Failed(m.clone()),
        };
        let ev = state.set_task_state(project_id, id.as_str(), st);
        events.push(ev);
        proof {
            assert forall|m: int|
                0 <= m < si + 1 implies state.spec_task_states()[project_id@]@.contains_key(
                #[trigger] g[m].id@,
            ) && state.spec_task_states()[project_id@]@[g[m].id@] == status_of(init[m]) by {
                if m < si as int {
                    assert(g[m].id@ != g[si as int].id@);
                }
            }
        }
        si = si + 1;
    }

    // The starting fraction: completed work carried in from a checkpoint
    // counts already.
    let statuses = state.collect_statuses(project_id);
    let pct = crate::state::progress_percent(&statuses);
    proof {
        if state.spec_task_states().contains_key(project_id@) {
            assert(statuses@ =~= statuses_of(state.spec_task_states()[project_id@]));
        }
    }
    let (p1, p2) = state.update_progress(project_id, "Initializing", pct);
    events.push(p1);
    events.push(p2);

    let run = executor.execute_all(outcomes);
    let ghost fin = executor.spec_states();
    proof {
        assert forall|j: int|
            0 <= j < g.len() && #[trigger] fin[j] is Completed implies (init[j] is Completed || (
        outcomes@[j].success && crate::executor::deps_completed(g, fin, j))) by {
            assert(outcomes@[j].success || !outcomes@[j].success);
        }
        assert forall|j: int|
            0 <= j < g.len() && #[trigger] fin[j] is Failed implies (init[j] is Pending
            && !outcomes@[j].success && crate::executor::deps_completed(g, fin, j)) by {
            assert(outcomes@[j].success || !outcomes@[j].success);
        }
        assert(crate::laws::run_settled(g, init, outcomes@, fin));
    }
    let results = match run {
        Ok(results) => results,
        Err(fault) => {
            proof {
                // Some task stays Pending without a failed ancestor, so it
                // cannot complete and no task failure accounts for it: the
                // run never owed success, and the fault is the engine's.
                let iw = choose|i2: int|
                    0 <= i2 < fin.len() && fin[i2] is Pending && !has_failed_ancestor(g, fin, i2);
                crate::laws::lemma_final_states_deterministic(g, init, outcomes@, fin, iw);
                assert(!can_complete(g, init, outcomes@, iw));
                assert(!run_completes(g, init, outcomes@));
                crate::laws::lemma_pending_iff(g, init, outcomes@, fin, iw);
                crate::laws::lemma_blocked_iff(g, init, outcomes@, fin, iw);
                assert(crate::executor::run_faults(g, init, outcomes@));
            }
            let error = fault.message();
            let (status_event, action) = state.set_project_status(
                project_id,
                ProjectStatus::Failed { error: error.clone(), resumable: false },
            );
            match status_event {
                Some(e) => events.push(e),
                None => {},
            }
            actions.push(action);
            let ev2 = state.add_log(project_id, error.as_str());
            events.push(ev2);
            return Err(error);
        },
    };
    proof {
        assert(results_ok(g, init, fin, outcomes@, results@));
    }
    let ghost ord = choose|o: Seq<int>|
        crate::executor::results_match(g, init, fin, outcomes@, results@, o);

    // Record every result; after each success report the true fraction,
    // naming the finished task.
    proof {
        if n > 0 {
            assert(state.spec_task_states()[project_id@]@.contains_key(g[0].id@));
        }
    }
    let mut any_failed = false;
    let mut i: usize = 0;
    while i < results.len()
        invariant
            n == g.len(),
            fin.len() == n,
            init.len() == n,
            graph_wf(g),
            outcomes@.len() == n,
            crate::executor::results_match(g, init, fin, outcomes@, results@, ord),
            0 <= i <= results@.len(),
            any_failed <==> exists|k: int| 0 <= k < i && !(#[trigger] results@[k]).success,
            n > 0 ==> state.spec_task_states().contains_key(project_id@),
            events@.len() >= old(events)@.len(),
            forall|a: int| 0 <= a < old(events)@.len() ==> events@[a] == old(events)@[a],
            forall|a: int, b: int|
                old(events)@.len() <= a < b < events@.len() && is_progress_event(
                    #[trigger] events@[a],
                ) && is_progress_event(#[trigger] events@[b]) ==> event_percent(events@[a])
                    <= event_percent(events@[b]),
            forall|a: int|
                old(events)@.len() <= a < events@.len() && is_progress_event(#[trigger] events@[a])
                    ==> event_percent(events@[a]) <= 100 && event_percent(events@[a]) as int
                    <= percent_of(
                    if state.spec_task_states().contains_key(project_id@) {
                        statuses_of(state.spec_task_states()[project_id@])
                    } else {
                        Seq::<TaskStatus>::empty()
                    },
                ),
            forall|m: int|
                0 <= m < n && !(exists|k: int| 0 <= k < i && #[trigger] ord[k] == m) ==> (
                state.spec_task_states().contains_key(project_id@)
                    && state.spec_task_states()[project_id@]@.contains_key(#[trigger] g[m].id@)
                    && state.spec_task_states()[project_id@]@[g[m].id@] == status_of(init[m])),
            !any_failed ==> forall|m: int|
                0 <= m < n ==> state.spec_task_states().contains_key(project_id@)
                    && state.spec_task_states()[project_id@]@.contains_key(#[trigger] g[m].id@) && (
                state.spec_task_states()[project_id@]@[g[m].id@] is Completed || (init[m]
                    is Pending && !(exists|k: int|
                    0 <= k < i && (#[trigger] results@[k]).task_id@ == g[m].id@))),
        decreases results@.len() - i,
    {
        let res = results[i].duplicate();
        let success = res.success;
        let finished_name = lookup_name(executor, res.task_id.as_str());
        proof {
            assert(results@[i as int].task_id@ == g[ord[i as int]].id@);
        }
        let ghost st0 = *state;
        let ghost ev_pre = events@;
        let (e1, e2) = state.process_task_result(project_id, res);
        events.push(e1);
        events.push(e2);
        proof {
            let jm = ord[i as int];
            let before = statuses_of(st0.spec_task_states()[project_id@]);
            let after = statuses_of(state.spec_task_states()[project_id@]);
            let v = if res.success {
                TaskStatus::Completed
            } else {
                TaskStatus::Failed(res.message)
            };
            // The processed task was never processed before, so it still
            // carried its mirrored starting state: Pending.
            assert(!(exists|k: int| 0 <= k < i && #[trigger] ord[k] == jm)) by {
                if exists|k: int| 0 <= k < i && #[trigger] ord[k] == jm {
                    let k = choose|k: int| 0 <= k < i && #[trigger] ord[k] == jm;
                    assert(ord[k] != ord[i as int]);
                    assert(false);
                }
            }
            assert(st0.spec_task_states()[project_id@]@[g[jm].id@] == status_of(init[jm]));
            assert(init[jm] is Pending);
            assert(res.task_id@ == g[jm].id@);
            assert(st0.spec_task_states()[project_id@]@.contains_key(res.task_id@));
            let jdx = choose|jdx: int|
                0 <= jdx < before.len() && #[trigger] before[jdx]
                    == st0.spec_task_states()[project_id@]@[res.task_id@] && after
                    == before.update(jdx, v);
            assert(before[jdx] is Pending);
            // A Pending task moving to a terminal state never lowers the
            // completion fraction.
            assert forall|q: int|
                0 <= q < before.len() implies status_progresses(
                before[q],
                #[trigger] after[q],
            ) by {
                if q != jdx {
                    assert(after[q] == before[q]);
                }
            }
            lemma_progress_monotonic(before, after);
            assert forall|a: int|
                old(events)@.len() <= a < events@.len() && is_progress_event(
                    #[trigger] events@[a],
                ) implies event_percent(events@[a]) <= 100 && event_percent(events@[a]) as int
                <= percent_of(after) by {
                if a < ev_pre.len() {
                    assert(events@[a] == ev_pre[a]);
                    assert(event_percent(events@[a]) as int <= percent_of(before));
                } else {
                    assert(!is_progress_event(events@[a]));
                }
            }
            assert forall|m: int|
                0 <= m < n && !(exists|k: int| 0 <= k < i + 1 && #[trigger] ord[k] == m) implies (
            state.spec_task_states()[project_id@]@.contains_key(#[trigger] g[m].id@)
                && state.spec_task_states()[project_id@]@[g[m].id@] == status_of(init[m])) by {
                assert(!(exists|k: int| 0 <= k < i && #[trigger] ord[k] == m));
                assert(m != jm);
                assert(g[m].id@ != g[jm].id@);
            }
        }
        proof {
            if !any_failed && success {
                assert forall|m: int|
                    0 <= m < n implies state.spec_task_states().contains_key(project_id@)
                    && state.spec_task_states()[project_id@]@.contains_key(#[trigger] g[m].id@) && (
                state.spec_task_states()[project_id@]@[g[m].id@] is Completed || (init[m]
                    is Pending && !(exists|k: int|
                    0 <= k < i + 1 && (#[trigger] results@[k]).task_id@ == g[m].id@))) by {
                    if m == ord[i as int] {
                        assert(state.spec_task_states()[project_id@]@[g[m].id@] is Completed);
                    } else {
                        assert(g[m].id@ != g[ord[i as int]].id@);
                        if !(state.spec_task_states()[project_id@]@[g[m].id@] is Completed) {
                            assert forall|k: int|
                                0 <= k < i + 1 implies (#[trigger] results@[k]).task_id@
                                != g[m].id@ by {
                                if k == i as int {
                                    assert(results@[k].task_id@ == g[ord[i as int]].id@);
                                }
                            }
                        }
                    }
                }
            }
        }
        if success {
            let statuses = state.collect_statuses(project_id);
            let pct = crate::state::progress_percent(&statuses);
            proof {
                assert(statuses@ =~= statuses_of(state.spec_task_states()[project_id@]));
            }
            let (p1, p2) = state.update_progress(project_id, finished_name.as_str(), pct);
            events.push(p1);
            events.push(p2);
        } else {
            any_failed = true;
        }
        i = i + 1;
    }

    if any_failed {
        proof {
            // A failed result pins a Failed final state, so that task cannot
            // complete: the run did not owe success. And since the engine
            // terminated normally, every stuck task traces to a failure —
            // this is a task failure, not an engine fault.
            let k = choose|k: int| 0 <= k < results@.len() && !results@[k].success;
            let j = ord[k];
            assert(fin[j] is Failed);
            crate::laws::lemma_final_states_deterministic(g, init, outcomes@, fin, j);
            assert(!can_complete(g, init, outcomes@, j));
            assert(!run_completes(g, init, outcomes@));
            assert(!crate::executor::run_faults(g, init, outcomes@)) by {
                if crate::executor::run_faults(g, init, outcomes@) {
                    let iw = choose|i2: int|
                        0 <= i2 < g.len() && !can_complete(g, init, outcomes@, i2)
                            && !crate::executor::task_fails(g, init, outcomes@, i2)
                            && !crate::executor::blocked_by_failure(g, init, outcomes@, i2);
                    crate::laws::lemma_pending_iff(g, init, outcomes@, fin, iw);
                    assert(fin[iw] is Pending);
                    assert(has_failed_ancestor(g, fin, iw));
                    crate::laws::lemma_blocked_iff(g, init, outcomes@, fin, iw);
                    assert(false);
                }
            }
        }
        // Persist enough to resume: the configuration and the completed set.
        let path = project_path_of(config);
        let checkpoint = state.create_checkpoint(project_id, config.duplicate(), path);
        let _ = checkpoint;
        let error = String::from_str("Tasks failed during generation");
        let (status_event, action) = state.set_project_status(
            project_id,
            ProjectStatus::Failed { error: error.clone(), resumable: true },
        );
        match status_event {
            Some(e) => events.push(e),
            None => {},
        }
        actions.push(action);
        let ev2 = state.add_log(project_id, error.as_str());
        events.push(ev2);
        return Err(error);
    }

    proof {
        // No failure anywhere: every task ended Completed, so the run owed
        // and delivered full success.
        assert forall|i2: int| 0 <= i2 < n implies fin[i2] is Completed by {
            if fin[i2] is Failed {
                assert(init[i2] is Pending);
                assert(ord.contains(i2));
                let k2 = choose|k2: int| 0 <= k2 < ord.len() && ord[k2] == i2;
                assert(fin[ord[k2]] is Failed);
                assert(!results@[k2].success);
                assert(false);
            }
            if fin[i2] is Pending {
                assert(has_failed_ancestor(g, fin, i2));
                crate::executor::lemma_ancestor_has_failure(g, fin, i2);
                let d = choose|d: int| 0 <= d < fin.len() && fin[d] is Failed;
                assert(init[d] is Pending);
                assert(ord.contains(d));
                let k2 = choose|k2: int| 0 <= k2 < ord.len() && ord[k2] == d;
                assert(fin[ord[k2]] is Failed);
                assert(!results@[k2].success);
                assert(false);
            }
        }
        assert forall|i2: int| 0 <= i2 < n implies can_complete(g, init, outcomes@, i2) by {
            assert(fin[i2] is Completed);
        }
        assert(run_completes(g, init, outcomes@));
        assert(fin =~= all_completed(n as nat));
        assert(crate::executor::results_match(
            g,
            init,
            all_completed(n as nat),
            outcomes@,
            results@,
            ord,
        ));
        assert(results_ok(g, init, all_completed(n as nat), outcomes@, results@));
        // Every task of the graph is tracked Completed.
        assert forall|m: int|
            0 <= m < n implies state.spec_task_states().contains_key(project_id@)
            && state.spec_task_states()[project_id@]@.contains_key(#[trigger] g[m].id@)
            && state.spec_task_states()[project_id@]@[g[m].id@] is Completed by {
            if !(state.spec_task_states()[project_id@]@[g[m].id@] is Completed) {
                assert(init[m] is Pending);
                assert(!(fin[m] is Pending));
                assert(ord.contains(m));
                let k2 = choose|k2: int| 0 <= k2 < ord.len() && ord[k2] == m;
                assert(results@[k2].task_id@ == g[m].id@);
                assert(false);
            }
        }
    }
    let path = project_path_of(config);
    let (status_event, action) = state.set_project_status(
        project_id,
        ProjectStatus::Completed { path },
    );
    match status_event {
        Some(e) => events.push(e),
        None => {},
    }
    actions.push(action);
    let ev3 = state.add_log(project_id, "Project generation completed successfully");
    events.push(ev3);
    Ok(results)
}

/// Drive a freshly wired graph to completion: every task starts Pending.
/// Succeeds exactly when every task can complete under these outcomes.
pub fn execute_tasks(
    state: &mut AppState,
    project_id: &str,
    config: &ProjectConfig,
    graph: TaskGraph,
    outcomes: &Vec<TaskOutcome>,
    events: &mut Vec<ProjectEvent>,
    actions: &mut Vec<CheckpointAction>,
) -> (r: Result<Vec<TaskResult>, String>)
    requires
        graph_wf(graph.nodes@),
        outcomes@.len() == graph.nodes@.len(),
    ensures
        r is Ok <==> run_completes(
            graph.nodes@,
            all_pending(graph.nodes@.len() as nat),
            outcomes@,
        ),
        r matches Ok(rs) ==> results_ok(
            graph.nodes@,
            all_pending(graph.nodes@.len() as nat),
            all_completed(graph.nodes@.len() as nat),
            outcomes@,
            rs@,
        ),
        r matches Ok(rs) ==> forall|k: int| 0 <= k < rs@.len() ==> (#[trigger] rs@[k]).success,
        r is Ok ==> final(state).spec_projects().contains_key(project_id@)
            && (final(state).spec_projects()[project_id@] matches ProjectStatus::Completed { path }
            && path@ == config.path@ + "/"@ + config.name@),
        r is Ok ==> forall|i: int|
            0 <= i < graph.nodes@.len() ==> final(state).spec_task_states().contains_key(
                project_id@,
            ) && final(state).spec_task_states()[project_id@]@.contains_key(
                #[trigger] graph.nodes@[i].id@,
            ) && final(state).spec_task_states()[project_id@]@[graph.nodes@[i].id@] is Completed,
        r is Err ==> final(state).spec_projects().contains_key(project_id@)
            && final(state).spec_projects()[project_id@] is Failed,
        (r is Err && final(state).spec_projects()[project_id@] matches ProjectStatus::Failed {
            resumable: true,
            ..
        }) ==> {
            &&& final(state).spec_checkpoints().contains_key(project_id@)
            &&& crate::project::config_eq(
                final(state).spec_checkpoints()[project_id@].config,
                *config,
            )
            &&& final(state).spec_checkpoints()[project_id@].project_path@ == config.path@ + "/"@
                + config.name@
            &&& final(state).spec_checkpoints()[project_id@].completed_tasks@ == (if final(state).spec_completed().contains_key(project_id@) {
                final(state).spec_completed()[project_id@]@
            } else {
                Seq::<String>::empty()
            })
        },
        r is Err && !crate::executor::run_faults(
            graph.nodes@,
            all_pending(graph.nodes@.len() as nat),
            outcomes@,
        ) ==> (final(state).spec_projects()[project_id@] matches ProjectStatus::Failed {
            resumable,
            ..
        } && resumable),
        r is Err && crate::executor::run_faults(
            graph.nodes@,
            all_pending(graph.nodes@.len() as nat),
            outcomes@,
        ) ==> (final(state).spec_projects()[project_id@] matches ProjectStatus::Failed {
            resumable,
            ..
        } && !resumable),
        final(actions)@.len() == old(actions)@.len() + 1,
        forall|j: int| 0 <= j < old(actions)@.len() ==> final(actions)@[j] == old(actions)@[j],
        r is Ok ==> (final(actions)@.last() matches CheckpointAction::Remove(p) && p@
            == project_id@),
        (r is Err && final(state).spec_projects()[project_id@] matches ProjectStatus::Failed {
            resumable: true,
            ..
        }) ==> (final(actions)@.last() matches CheckpointAction::Persist(c)
            && crate::state::checkpoint_eq(c, final(state).spec_checkpoints()[project_id@])),
        forall|j: int| 0 <= j < old(events)@.len() ==> final(events)@[j] == old(events)@[j],
        forall|a: int, b: int|
            old(events)@.len() <= a < b < final(events)@.len() && is_progress_event(
                #[trigger] final(events)@[a],
            ) && is_progress_event(#[trigger] final(events)@[b]) ==> event_percent(
                final(events)@[a],
            ) <= event_percent(final(events)@[b]),
        forall|a: int|
            old(events)@.len() <= a < final(events)@.len() && is_progress_event(
                #[trigger] final(events)@[a],
            ) ==> event_percent(final(events)@[a]) <= 100,
{
    let ghost gn = graph.nodes@;
    let mut executor = TaskExecutor::new(graph);
    proof {
        assert(executor.spec_states() =~= all_pending(gn.len() as nat));
    }
    run_executor(state, project_id, config, &mut executor, outcomes, events, actions)
}

} // verus!
