//! The task executor: runs a task graph round by round, marking a task
//! Running only once every dependency is Completed, cascading failures to
//! dependents (which stay Pending), and terminating either normally or with
//! an engine fault when pending tasks have no failed ancestor (a cycle that
//! evaded build-time validation).

use vstd::prelude::*;
use vstd::string::StringExecFns;
use crate::graph::{deps_in_range, graph_wf, rank_valid, TaskGraph, TaskNode};
use crate::tasks::{contains_id, TaskOutcome, TaskResult, TaskState};

verus! {

/// A scheduler invariant was violated at runtime; distinct from an ordinary
/// task-level failure.
#[derive(Debug)]
pub enum EngineFault {
    /// Pending tasks remained that no failed ancestor accounts for: a
    /// dependency cycle evaded build-time validation. Carries their ids.
    CycleDetected { implicated: Vec<String> },
    /// The defensive round-count ceiling was exceeded.
    RoundCeilingExceeded,
}

/// Every dependency of task `i` is Completed under the state table `s`.
pub open spec fn deps_completed(g: Seq<TaskNode>, s: Seq<TaskState>, i: int) -> bool {
    forall|k: int|
        0 <= k < g[i].deps@.len() ==> s[#[trigger] g[i].deps@[k] as int] is Completed
}

/// Task `i` may be started: it is Pending and its dependencies are Completed.
pub open spec fn ready(g: Seq<TaskNode>, s: Seq<TaskState>, i: int) -> bool {
    &&& 0 <= i < g.len()
    &&& s[i] is Pending
    &&& deps_completed(g, s, i)
}

/// A failed task lies at most `fuel` dependency steps below task `i`.
pub open spec fn blocked_within(g: Seq<TaskNode>, s: Seq<TaskState>, i: int, fuel: nat) -> bool
    decreases fuel,
{
    exists|k: int|
        0 <= k < g[i].deps@.len() && {
            let d = #[trigger] g[i].deps@[k] as int;
            s[d] is Failed || (fuel > 0 && blocked_within(g, s, d, (fuel - 1) as nat))
        }
}

/// Some transitive dependency of task `i` is Failed.
pub open spec fn has_failed_ancestor(g: Seq<TaskNode>, s: Seq<TaskState>, i: int) -> bool {
    exists|fuel: nat| blocked_within(g, s, i, fuel)
}

/// Task `i` can reach Completed within `fuel` rounds: it either started out
/// Completed, or its own body succeeds and every dependency can complete one
/// round earlier.
pub open spec fn completable(
    g: Seq<TaskNode>,
    init: Seq<TaskState>,
    oc: Seq<TaskOutcome>,
    i: int,
    fuel: nat,
) -> bool
    decreases fuel,
{
    ||| init[i] is Completed
    ||| (oc[i].success && fuel > 0 && forall|k: int|
        0 <= k < g[i].deps@.len() ==> completable(
            g,
            init,
            oc,
            #[trigger] g[i].deps@[k] as int,
            (fuel - 1) as nat,
        ))
}

/// Task `i` eventually reaches Completed: the final state table is a
/// deterministic function of the graph and the individual task outcomes.
pub open spec fn can_complete(
    g: Seq<TaskNode>,
    init: Seq<TaskState>,
    oc: Seq<TaskOutcome>,
    i: int,
) -> bool {
    exists|fuel: nat| completable(g, init, oc, i, fuel)
}

/// The message a successful task's result carries.
pub open spec fn success_message(name: Seq<char>) -> Seq<char> {
    "Task "@ + name + " completed successfully"@
}

/// `order` lists the indices of the tasks that ran, in execution order, and
/// ties the result list to the graph, the outcomes, and the state tables:
/// every result belongs to a task that started Pending and ended terminal,
/// every task that left Pending is listed, and a task appears only after all
/// of its dependencies were already Completed at the start or succeeded
/// earlier in the list.
pub open spec fn results_match(
    g: Seq<TaskNode>,
    init: Seq<TaskState>,
    fin: Seq<TaskState>,
    oc: Seq<TaskOutcome>,
    rs: Seq<TaskResult>,
    order: Seq<int>,
) -> bool {
    &&& order.len() == rs.len()
    &&& forall|k: int| 0 <= k < order.len() ==> 0 <= #[trigger] order[k] < g.len()
    &&& forall|k: int| 0 <= k < order.len() ==> rs[k].task_id@ == g[#[trigger] order[k]].id@
    &&& forall|k: int| 0 <= k < order.len() ==> rs[k].success == oc[#[trigger] order[k]].success
    &&& forall|k: int|
        0 <= k < order.len() && rs[k].success ==> rs[k].message@ == success_message(
            g[#[trigger] order[k]].name@,
        )
    &&& forall|k: int|
        0 <= k < order.len() && !rs[k].success ==> rs[k].message@ == oc[#[trigger] order[k]].message@
    &&& forall|k: int| 0 <= k < order.len() ==> init[#[trigger] order[k]] is Pending
    &&& forall|k: int|
        0 <= k < order.len() ==> (fin[#[trigger] order[k]] is Completed <==> rs[k].success)
    &&& forall|k: int|
        0 <= k < order.len() ==> (fin[#[trigger] order[k]] is Failed <==> !rs[k].success)
    &&& forall|k1: int, k2: int| 0 <= k1 < k2 < order.len() ==> order[k1] != order[k2]
    &&& forall|i: int|
        0 <= i < g.len() && init[i] is Pending && !(#[trigger] fin[i] is Pending)
            ==> order.contains(i)
    &&& forall|k: int, m: int|
        0 <= k < order.len() && 0 <= m < g[order[k]].deps@.len() ==> {
            let d = #[trigger] g[#[trigger] order[k]].deps@[m] as int;
            init[d] is Completed || exists|k2: int| 0 <= k2 < k && order[k2] == d && rs[k2].success
        }
}

/// Some execution order ties the result list to the graph, the outcomes
/// and the state tables as `results_match` demands.
pub open spec fn results_ok(
    g: Seq<TaskNode>,
    init: Seq<TaskState>,
    fin: Seq<TaskState>,
    oc: Seq<TaskOutcome>,
    rs: Seq<TaskResult>,
) -> bool {
    exists|order: Seq<int>| results_match(g, init, fin, oc, rs, order)
}

/// Every listed id names a Pending task without a failed ancestor.
pub open spec fn implicated_sound(g: Seq<TaskNode>, s: Seq<TaskState>, ids: Seq<String>) -> bool {
    forall|k: int|
        0 <= k < ids.len() ==> exists|i2: int|
            0 <= i2 < g.len() && g[i2].id@ == #[trigger] ids[k]@ && s[i2] is Pending
                && !has_failed_ancestor(g, s, i2)
}

/// The ids of exactly the Pending tasks that no failed ancestor accounts for.
pub open spec fn implicated_ok(g: Seq<TaskNode>, s: Seq<TaskState>, ids: Seq<String>) -> bool {
    &&& implicated_sound(g, s, ids)
    &&& forall|i: int|
        0 <= i < g.len() && #[trigger] s[i] is Pending && !has_failed_ancestor(g, s, i)
            ==> contains_id(ids, g[i].id@)
}

/// The state table of a run about to start: every task Pending.
pub open spec fn all_pending(n: nat) -> Seq<TaskState> {
    Seq::new(n, |i: int| TaskState::Pending)
}

/// The state table of a fully successful run: every task Completed.
pub open spec fn all_completed(n: nat) -> Seq<TaskState> {
    Seq::new(n, |i: int| TaskState::Completed)
}

/// Every task of the graph can reach Completed from the initial table under
/// these outcomes: the condition under which a run owes full success.
pub open spec fn run_completes(g: Seq<TaskNode>, init: Seq<TaskState>, oc: Seq<TaskOutcome>) -> bool {
    forall|i: int| 0 <= i < g.len() ==> can_complete(g, init, oc, i)
}

/// Task `i` runs and fails: it starts Pending, every dependency can
/// complete, and its own body fails.
pub open spec fn task_fails(
    g: Seq<TaskNode>,
    init: Seq<TaskState>,
    oc: Seq<TaskOutcome>,
    i: int,
) -> bool {
    &&& 0 <= i < g.len()
    &&& init[i] is Pending
    &&& !oc[i].success
    &&& forall|k: int|
        0 <= k < g[i].deps@.len() ==> can_complete(g, init, oc, #[trigger] g[i].deps@[k] as int)
}

/// A task that runs and fails lies at most `fuel` dependency steps below `i`.
pub open spec fn failure_blocked(
    g: Seq<TaskNode>,
    init: Seq<TaskState>,
    oc: Seq<TaskOutcome>,
    i: int,
    fuel: nat,
) -> bool
    decreases fuel,
{
    exists|k: int|
        0 <= k < g[i].deps@.len() && {
            let d = #[trigger] g[i].deps@[k] as int;
            task_fails(g, init, oc, d) || (fuel > 0 && failure_blocked(
                g,
                init,
                oc,
                d,
                (fuel - 1) as nat,
            ))
        }
}

/// Some transitive dependency of task `i` runs and fails.
pub open spec fn blocked_by_failure(
    g: Seq<TaskNode>,
    init: Seq<TaskState>,
    oc: Seq<TaskOutcome>,
    i: int,
) -> bool {
    exists|fuel: nat| failure_blocked(g, init, oc, i, fuel)
}

/// The run hits an engine fault: some task can neither complete nor run,
/// and no failure accounts for it — a dependency cycle that evaded
/// build-time validation.
pub open spec fn run_faults(g: Seq<TaskNode>, init: Seq<TaskState>, oc: Seq<TaskOutcome>) -> bool {
    exists|i: int|
        0 <= i < g.len() && !can_complete(g, init, oc, i) && !task_fails(g, init, oc, i)
            && !blocked_by_failure(g, init, oc, i)
}

proof fn lemma_blocked_has_failure(g: Seq<TaskNode>, s: Seq<TaskState>, i: int, fuel: nat)
    requires
        deps_in_range(g),
        s.len() == g.len(),
        0 <= i < g.len(),
        blocked_within(g, s, i, fuel),
    ensures
        exists|d: int| 0 <= d < s.len() && s[d] is Failed,
    decreases fuel,
{
    let k = choose|k: int|
        0 <= k < g[i].deps@.len() && (s[#[trigger] g[i].deps@[k] as int] is Failed || (fuel > 0
            && blocked_within(g, s, g[i].deps@[k] as int, (fuel - 1) as nat)));
    let d = g[i].deps@[k] as int;
    if !(s[d] is Failed) {
        lemma_blocked_has_failure(g, s, d, (fuel - 1) as nat);
    }
}

/// A failed ancestor entails a Failed entry somewhere in the table.
pub proof fn lemma_ancestor_has_failure(g: Seq<TaskNode>, s: Seq<TaskState>, i: int)
    requires
        deps_in_range(g),
        s.len() == g.len(),
        0 <= i < g.len(),
        has_failed_ancestor(g, s, i),
    ensures
        exists|d: int| 0 <= d < s.len() && s[d] is Failed,
{
    let fuel = choose|fuel: nat| blocked_within(g, s, i, fuel);
    lemma_blocked_has_failure(g, s, i, fuel);
}

/// How many entries of the state table are Pending.
pub open spec fn count_pending(s: Seq<TaskState>) -> int
    decreases s.len(),
{
    if s.len() == 0 {
        0
    } else {
        count_pending(s.drop_last()) + if s.last() is Pending {
            1int
        } else {
            0int
        }
    }
}

proof fn lemma_count_pending_bounds(s: Seq<TaskState>)
    ensures
        0 <= count_pending(s) <= s.len(),
    decreases s.len(),
{
    if s.len() > 0 {
        lemma_count_pending_bounds(s.drop_last());
    }
}

proof fn lemma_count_pending_update(s: Seq<TaskState>, i: int, v: TaskState)
    requires
        0 <= i < s.len(),
    ensures
        count_pending(s.update(i, v)) == count_pending(s) + (if v is Pending {
            1int
        } else {
            0int
        }) - (if s[i] is Pending {
            1int
        } else {
            0int
        }),
    decreases s.len(),
{
    if i == s.len() - 1 {
        assert(s.update(i, v).drop_last() =~= s.drop_last());
    } else {
        assert(s.update(i, v).drop_last() =~= s.drop_last().update(i, v));
        assert(s.update(i, v).last() == s.last());
        lemma_count_pending_update(s.drop_last(), i, v);
    }
}

proof fn lemma_count_pending_pos(s: Seq<TaskState>, i: int)
    requires
        0 <= i < s.len(),
        s[i] is Pending,
    ensures
        count_pending(s) >= 1,
    decreases s.len(),
{
    if i < s.len() - 1 {
        lemma_count_pending_pos(s.drop_last(), i);
        lemma_count_pending_bounds(s.drop_last());
    } else {
        lemma_count_pending_bounds(s.drop_last());
    }
}

/// Completability is monotone in the fuel.
pub proof fn lemma_completable_mono(
    g: Seq<TaskNode>,
    init: Seq<TaskState>,
    oc: Seq<TaskOutcome>,
    i: int,
    f1: nat,
    f2: nat,
)
    requires
        f1 <= f2,
        completable(g, init, oc, i, f1),
    ensures
        completable(g, init, oc, i, f2),
    decreases f2,
{
    if !(init[i] is Completed) {
        assert forall|k: int| 0 <= k < g[i].deps@.len() implies completable(
            g,
            init,
            oc,
            #[trigger] g[i].deps@[k] as int,
            (f2 - 1) as nat,
        ) by {
            lemma_completable_mono(g, init, oc, g[i].deps@[k] as int, (f1 - 1) as nat, (f2
                - 1) as nat);
        }
    }
}

/// One dependency step below `i` there is a failed task or a task that
/// already has a failed ancestor: then so has `i`.
proof fn lemma_hfa_step(g: Seq<TaskNode>, s: Seq<TaskState>, i: int, k: int)
    requires
        0 <= i < g.len(),
        0 <= k < g[i].deps@.len(),
        s[g[i].deps@[k] as int] is Failed || has_failed_ancestor(g, s, g[i].deps@[k] as int),
    ensures
        has_failed_ancestor(g, s, i),
{
    let d = g[i].deps@[k] as int;
    if s[d] is Failed {
        assert(blocked_within(g, s, i, 0));
    } else {
        let fuel = choose|fuel: nat| blocked_within(g, s, d, fuel);
        assert(blocked_within(g, s, i, fuel + 1));
    }
}

/// A set of marks closed under the one-step blocking rule covers every task
/// with a failed ancestor.
proof fn lemma_hfa_complete(g: Seq<TaskNode>, s: Seq<TaskState>, mark: Seq<bool>, fuel: nat)
    requires
        mark.len() == g.len(),
        s.len() == g.len(),
        deps_in_range(g),
        forall|i: int, k: int|
            0 <= i < g.len() && 0 <= k < g[i].deps@.len() && (s[#[trigger] g[i].deps@[k] as int]
                is Failed || mark[g[i].deps@[k] as int]) ==> mark[i],
    ensures
        forall|i: int| 0 <= i < g.len() && blocked_within(g, s, i, fuel) ==> mark[i],
    decreases fuel,
{
    if fuel > 0 {
        lemma_hfa_complete(g, s, mark, (fuel - 1) as nat);
    }
    assert forall|i: int| 0 <= i < g.len() && blocked_within(g, s, i, fuel) implies mark[i] by {
        let k = choose|k: int|
            0 <= k < g[i].deps@.len() && (s[#[trigger] g[i].deps@[k] as int] is Failed || (fuel > 0
                && blocked_within(g, s, g[i].deps@[k] as int, (fuel - 1) as nat)));
        let d = g[i].deps@[k] as int;
        if !(s[d] is Failed) {
            assert(blocked_within(g, s, d, (fuel - 1) as nat));
            assert(mark[d]);
        }
    }
}

/// The index `i` occurs in the list.
pub open spec fn in_list(l: Seq<usize>, i: int) -> bool {
    exists|k: int| 0 <= k < l.len() && #[trigger] l[k] as int == i
}

/// Every rank of the assignment lies below `bound`.
pub open spec fn all_below(rank: Seq<int>, bound: int) -> bool {
    forall|i: int| 0 <= i < rank.len() ==> rank[i] < bound
}

/// Under every valid rank assignment, every ready task ranks at least `r`:
/// the engine has already spent `r` rounds climbing the dependency chains.
pub open spec fn ready_ranks_at_least(g: Seq<TaskNode>, s: Seq<TaskState>, r: int) -> bool {
    forall|rank: Seq<int>, i: int| #![trigger rank_valid(g, rank), rank[i]]
        rank_valid(g, rank) && ready(g, s, i) ==> rank[i] >= r
}

/// The scheduler: the task graph, a state table over its tasks, and the
/// number of rounds the last run took.
#[derive(Debug)]
pub struct TaskExecutor {
    nodes: Vec<TaskNode>,
    states: Vec<TaskState>,
    rounds_used: usize,
}

impl TaskExecutor {
    /// The graph the executor runs.
    pub closed spec fn spec_nodes(&self) -> Seq<TaskNode> {
        self.nodes@
    }

    /// The current state table, indexed like the graph.
    pub closed spec fn spec_states(&self) -> Seq<TaskState> {
        self.states@
    }

    /// How many rounds the last `execute_all` took.
    pub closed spec fn spec_rounds(&self) -> int {
        self.rounds_used as int
    }

    /// A well-formed executor: a well-formed graph with one state per task.
    pub open spec fn wf(&self) -> bool {
        &&& graph_wf(self.spec_nodes())
        &&& self.spec_states().len() == self.spec_nodes().len()
    }

    /// Create a new executor over a validated graph; every task starts
    /// Pending.
    pub fn new(tasks: TaskGraph) -> (r: Self)
        requires
            graph_wf(tasks.nodes@),
        ensures
            r.wf(),
            r.spec_nodes() == tasks.nodes@,
            forall|i: int| 0 <= i < r.spec_states().len() ==> r.spec_states()[i] is Pending,
            r.spec_rounds() == 0,
    {
        let n = tasks.nodes.len();
        let mut states: Vec<TaskState> = Vec::new();
        let mut i: usize = 0;
        while i < n
            invariant
                0 <= i <= n,
                states@.len() == i,
                forall|m: int| 0 <= m < i ==> states@[m] is Pending,
            decreases n - i,
        {
            states.push(TaskState::Pending);
            i = i + 1;
        }
        TaskExecutor { nodes: tasks.nodes, states, rounds_used: 0 }
    }

    /// Create an executor for a resumed run: tasks whose ids appear in the
    /// checkpointed completed set start out Completed, so dependencies
    /// satisfied by excluded work are treated as satisfied; the rest start
    /// Pending.
    pub fn resumed(tasks: TaskGraph, completed: &Vec<String>) -> (r: Self)
        requires
            graph_wf(tasks.nodes@),
        ensures
            r.wf(),
            r.spec_nodes() == tasks.nodes@,
            forall|i: int|
                0 <= i < r.spec_states().len() ==> (r.spec_states()[i] is Completed <==> contains_id(
                    completed@,
                    #[trigger] r.spec_nodes()[i].id@,
                )),
            forall|i: int|
                0 <= i < r.spec_states().len() ==> (r.spec_states()[i] is Completed
                    || r.spec_states()[i] is Pending),
            r.spec_rounds() == 0,
    {
        let n = tasks.nodes.len();
        let mut states: Vec<TaskState> = Vec::new();
        let mut i: usize = 0;
        while i < n
            invariant
                n == tasks.nodes@.len(),
                0 <= i <= n,
                states@.len() == i,
                forall|m: int|
                    0 <= m < i ==> (states@[m] is Completed <==> contains_id(
                        completed@,
                        #[trigger] tasks.nodes@[m].id@,
                    )),
                forall|m: int| 0 <= m < i ==> (states@[m] is Completed || states@[m] is Pending),
            decreases n - i,
        {
            let id = &tasks.nodes[i].id;
            let mut found = false;
            let mut j: usize = 0;
            while j < completed.len()
                invariant
                    0 <= j <= completed@.len(),
                    found ==> contains_id(completed@, id@),
                    !found ==> forall|m: int| 0 <= m < j ==> completed@[m]@ != id@,
                decreases completed@.len() - j,
            {
                if completed[j] == *id {
                    found = true;
                    assert(completed@[j as int]@ == id@);
                }
                j = j + 1;
            }
            if found {
                states.push(TaskState::Completed);
            } else {
                proof {
                    assert(!contains_id(completed@, id@));
                }
                states.push(TaskState::Pending);
            }
            i = i + 1;
        }
        TaskExecutor { nodes: tasks.nodes, states, rounds_used: 0 }
    }

    /// Get the total number of tasks.
    pub fn get_task_count(&self) -> (r: usize)
        ensures
            r == self.spec_nodes().len(),
    {
        self.nodes.len()
    }

    /// How many rounds the last run took.
    pub fn rounds_used(&self) -> (r: usize)
        ensures
            r == self.spec_rounds(),
    {
        self.rounds_used
    }

    /// The id of the task at `i`.
    pub fn task_id(&self, i: usize) -> (r: &String)
        requires
            i < self.spec_nodes().len(),
        ensures
            r@ == self.spec_nodes()[i as int].id@,
    {
        &self.nodes[i].id
    }

    /// The display name of the task at `i`.
    pub fn task_name(&self, i: usize) -> (r: &String)
        requires
            i < self.spec_nodes().len(),
        ensures
            r@ == self.spec_nodes()[i as int].name@,
    {
        &self.nodes[i].name
    }

    /// A copy of the current state of every task, indexed like the graph.
    pub fn get_states(&self) -> (r: Vec<TaskState>)
        ensures
            r@ =~= self.spec_states(),
    {
        let mut r: Vec<TaskState> = Vec::new();
        let mut i: usize = 0;
        while i < self.states.len()
            invariant
                0 <= i <= self.states@.len(),
                r@.len() == i,
                forall|m: int| 0 <= m < i ==> r@[m] == self.states@[m],
            decreases self.states@.len() - i,
        {
            let s = match &self.states[i] {
                TaskState::Pending => TaskState::Pending,
                TaskState::Running => TaskState::Running,
                TaskState::Completed => TaskState::Completed,
                TaskState::Failed(m) => TaskState::Failed(m.clone()),
            };
            r.push(s);
            i = i + 1;
        }
        r
    }

    /// Is every dependency of task `i` Completed?
    fn deps_done(&self, i: usize) -> (r: bool)
        requires
            self.wf(),
            i < self.spec_nodes().len(),
        ensures
            r == deps_completed(self.spec_nodes(), self.spec_states(), i as int),
    {
        let dep_count = self.nodes[i].deps.len();
        let mut k: usize = 0;
        while k < dep_count
            invariant
                self.wf(),
                (i as int) < self.spec_nodes().len(),
                dep_count == self.spec_nodes()[i as int].deps@.len(),
                0 <= k <= dep_count,
                forall|m: int|
                    0 <= m < k ==> self.spec_states()[#[trigger] self.spec_nodes()[i as int].deps@[m] as int]
                        is Completed,
            decreases dep_count - k,
        {
            let d = self.nodes[i].deps[k];
            match &self.states[d] {
                TaskState::Completed => {},
                _ => {
                    return false;
                },
            }
            k = k + 1;
        }
        true
    }

    /// Find the tasks that are ready to be executed: still Pending, with
    /// every dependency Completed. Returned in ascending index order.
    pub fn find_ready_tasks(&self) -> (r: Vec<usize>)
        requires
            self.wf(),
        ensures
            forall|k: int|
                0 <= k < r@.len() ==> ready(self.spec_nodes(), self.spec_states(), #[trigger] r@[k] as int),
            forall|i: int|
                0 <= i < self.spec_nodes().len() && ready(self.spec_nodes(), self.spec_states(), i)
                    ==> in_list(r@, i),
            forall|k1: int, k2: int| 0 <= k1 < k2 < r@.len() ==> r@[k1] < r@[k2],
    {
        let n = self.nodes.len();
        let mut r: Vec<usize> = Vec::new();
        let mut i: usize = 0;
        while i < n
            invariant
                self.wf(),
                n == self.spec_nodes().len(),
                0 <= i <= n,
                forall|k: int|
                    0 <= k < r@.len() ==> ready(
                        self.spec_nodes(),
                        self.spec_states(),
                        #[trigger] r@[k] as int,
                    ),
                forall|m: int|
                    0 <= m < i && ready(self.spec_nodes(), self.spec_states(), m) ==> in_list(r@, m),
                forall|k: int| 0 <= k < r@.len() ==> (#[trigger] r@[k] as int) < i,
                forall|k1: int, k2: int| 0 <= k1 < k2 < r@.len() ==> r@[k1] < r@[k2],
            decreases n - i,
        {
            let pending = match &self.states[i] {
                TaskState::Pending => true,
                _ => false,
            };
            let ghost r0 = r@;
            let mut did_push = false;
            if pending {
                if self.deps_done(i) {
                    r.push(i);
                    did_push = true;
                }
            }
            proof {
                assert(did_push ==> r@ == r0.push(i) && r@[r@.len() - 1] as int == i as int);
                assert(!did_push ==> r@ == r0);
                assert(did_push == ready(self.spec_nodes(), self.spec_states(), i as int));
                assert forall|m: int|
                    0 <= m < i + 1 && ready(self.spec_nodes(), self.spec_states(), m) implies in_list(
                    r@,
                    m,
                ) by {
                    if m < i as int {
                        assert(in_list(r0, m));
                        let k = choose|k: int| 0 <= k < r0.len() && r0[k] as int == m;
                        assert(r@[k] as int == m);
                    } else {
                        assert(r@[r@.len() - 1] as int == m);
                    }
                }
            }
            i = i + 1;
        }
        r
    }

    /// Can execution still advance: is some task ready, or still running?
    pub fn can_make_progress(&self) -> (r: bool)
        requires
            self.wf(),
        ensures
            r == ((exists|i: int| ready(self.spec_nodes(), self.spec_states(), i)) || (exists|i: int|
                0 <= i < self.spec_states().len() && self.spec_states()[i] is Running)),
    {
        let ready_tasks = self.find_ready_tasks();
        if ready_tasks.len() > 0 {
            proof {
                assert(ready(self.spec_nodes(), self.spec_states(), ready_tasks@[0] as int));
            }
            return true;
        }
        let n = self.states.len();
        let mut i: usize = 0;
        while i < n
            invariant
                self.wf(),
                n == self.spec_states().len(),
                0 <= i <= n,
                forall|m: int| 0 <= m < i ==> !(self.spec_states()[m] is Running),
            decreases n - i,
        {
            let running = match &self.states[i] {
                TaskState::Running => true,
                _ => false,
            };
            if running {
                return true;
            }
            i = i + 1;
        }
        proof {
            assert forall|i2: int| !ready(self.spec_nodes(), self.spec_states(), i2) by {
                if 0 <= i2 < self.spec_nodes().len() && ready(
                    self.spec_nodes(),
                    self.spec_states(),
                    i2,
                ) {
                    assert(in_list(ready_tasks@, i2));
                    let k = choose|k: int|
                        0 <= k < ready_tasks@.len() && ready_tasks@[k] as int == i2;
                    assert(false);
                }
            }
        }
        false
    }

    /// Mark a ready task Running. A task is marked Running only when every
    /// one of its dependencies is Completed.
    pub fn mark_running(&mut self, i: usize)
        requires
            old(self).wf(),
            ready(old(self).spec_nodes(), old(self).spec_states(), i as int),
        ensures
            final(self).wf(),
            final(self).spec_nodes() == old(self).spec_nodes(),
            final(self).spec_states() == old(self).spec_states().update(
                i as int,
                TaskState::Running,
            ),
            final(self).spec_rounds() == old(self).spec_rounds(),
    {
        self.states.set(i, TaskState::Running);
    }

    /// Record what a Running task's body reported: the task becomes
    /// Completed or Failed, and exactly one result is produced for it.
    pub fn record_outcome(&mut self, i: usize, outcome: &TaskOutcome) -> (res: TaskResult)
        requires
            old(self).wf(),
            (i as int) < old(self).spec_states().len(),
            old(self).spec_states()[i as int] is Running,
        ensures
            final(self).wf(),
            final(self).spec_nodes() == old(self).spec_nodes(),
            final(self).spec_rounds() == old(self).spec_rounds(),
            outcome.success ==> final(self).spec_states() == old(self).spec_states().update(
                i as int,
                TaskState::Completed,
            ),
            !outcome.success ==> final(self).spec_states() == old(self).spec_states().update(
                i as int,
                TaskState::Failed(outcome.message),
            ),
            res.task_id@ == final(self).spec_nodes()[i as int].id@,
            res.success == outcome.success,
            outcome.success ==> res.message@ == success_message(
                final(self).spec_nodes()[i as int].name@,
            ),
            !outcome.success ==> res.message@ == outcome.message@,
    {
        if outcome.success {
            self.states.set(i, TaskState::Completed);
            TaskResult {
                task_id: self.nodes[i].id.clone(),
                success: true,
                message: String::from_str("Task ").concat(self.nodes[i].name.as_str()).concat(
                    " completed successfully",
                ),
            }
        } else {
            self.states.set(i, TaskState::Failed(outcome.message.clone()));
            proof {
                assert(self.states@ =~= old(self).spec_states().update(
                    i as int,
                    TaskState::Failed(outcome.message),
                ));
            }
            TaskResult {
                task_id: self.nodes[i].id.clone(),
                success: false,
                message: outcome.message.clone(),
            }
        }
    }

    /// Execute all tasks, respecting dependencies. Each round the ready set
    /// (Pending tasks whose dependencies are all Completed) is computed and
    /// executed: the task is marked Running, its outcome is consumed, and it
    /// becomes Completed or Failed. A failed task's dependents never become
    /// ready and stay Pending. The run ends when the ready set is empty:
    /// normally when every remaining Pending task has a failed ancestor, and
    /// with an engine fault naming the implicated tasks otherwise (a cycle
    /// that evaded build-time validation). The final state table is a
    /// deterministic function of the graph and the outcomes, and the number
    /// of rounds is bounded by every valid rank assignment's bound, hence by
    /// the longest dependency-chain length.
    #[verifier::rlimit(100)]
    pub fn execute_all(&mut self, outcomes: &Vec<TaskOutcome>) -> (r: Result<
        Vec<TaskResult>,
        EngineFault,
    >)
        requires
            old(self).wf(),
            outcomes@.len() == old(self).spec_nodes().len(),
            forall|i: int|
                0 <= i < old(self).spec_states().len() ==> (old(self).spec_states()[i] is Pending
                    || old(self).spec_states()[i] is Completed),
        ensures
            final(self).wf(),
            final(self).spec_nodes() == old(self).spec_nodes(),
            final(self).spec_states().len() == old(self).spec_states().len(),
            forall|i: int|
                0 <= i < old(self).spec_states().len() && (#[trigger] old(self).spec_states()[i])
                    is Completed ==> final(self).spec_states()[i] is Completed,
            forall|i: int|
                0 <= i < final(self).spec_states().len() ==> !((#[trigger] final(self).spec_states()[i]) is Running),
            forall|i: int|
                0 <= i < final(self).spec_states().len() && (#[trigger] final(self).spec_states()[i]) is Completed ==> (old(self).spec_states()[i] is Completed || (
                outcomes@[i].success && deps_completed(
                    old(self).spec_nodes(),
                    final(self).spec_states(),
                    i,
                ))),
            forall|i: int|
                0 <= i < final(self).spec_states().len() && (#[trigger] final(self).spec_states()[i]) is Completed ==> can_complete(
                    old(self).spec_nodes(),
                    old(self).spec_states(),
                    outcomes@,
                    i,
                ),
            forall|i: int|
                0 <= i < final(self).spec_states().len() && (#[trigger] final(self).spec_states()[i]) is Failed ==> (old(self).spec_states()[i] is Pending && !outcomes@[i].success
                    && deps_completed(old(self).spec_nodes(), final(self).spec_states(), i)),
            forall|i: int|
                0 <= i < final(self).spec_states().len() && (#[trigger] final(self).spec_states()[i]) is Failed ==> final(self).spec_states()[i] == TaskState::Failed(
                    outcomes@[i].message,
                ),
            forall|i: int|
                0 <= i < final(self).spec_states().len() && (#[trigger] final(self).spec_states()[i]) is Pending ==> (old(self).spec_states()[i] is Pending && !deps_completed(
                    old(self).spec_nodes(),
                    final(self).spec_states(),
                    i,
                )),
            r is Ok <==> (forall|i: int|
                0 <= i < final(self).spec_states().len() && final(self).spec_states()[i] is Pending
                    ==> has_failed_ancestor(
                    old(self).spec_nodes(),
                    final(self).spec_states(),
                    i,
                )),
            r matches Ok(rs) ==> results_ok(
                old(self).spec_nodes(),
                old(self).spec_states(),
                final(self).spec_states(),
                outcomes@,
                rs@,
            ),
            r matches Err(f) ==> f is CycleDetected && implicated_ok(
                old(self).spec_nodes(),
                final(self).spec_states(),
                f->CycleDetected_implicated@,
            ),
            forall|rank: Seq<int>, bound: int|
                #![trigger rank_valid(old(self).spec_nodes(), rank), all_below(rank, bound)]
                rank_valid(old(self).spec_nodes(), rank) && 0 <= bound && all_below(rank, bound)
                    ==> final(self).spec_rounds() <= bound,
    {
        let ghost g = self.spec_nodes();
        let ghost s0 = self.spec_states();
        let ghost oc = outcomes@;
        let n = self.nodes.len();
        let mut results: Vec<TaskResult> = Vec::new();
        let ghost mut order: Seq<int> = Seq::empty();
        let mut rounds: usize = 0;

        proof {
            lemma_count_pending_bounds(s0);
            assert(results_match(g, s0, self.spec_states(), oc, results@, order));
        }

        loop
            invariant
                self.wf(),
                self.spec_nodes() == g,
                n == g.len(),
                oc == outcomes@,
                oc.len() == n,
                s0.len() == n,
                self.spec_states().len() == n,
                forall|i: int| 0 <= i < n ==> (s0[i] is Pending || s0[i] is Completed),
                forall|i: int|
                    0 <= i < n && s0[i] is Completed ==> self.spec_states()[i] is Completed,
                forall|i: int| 0 <= i < n ==> !(self.spec_states()[i] is Running),
                forall|i: int|
                    0 <= i < n && self.spec_states()[i] is Completed ==> (s0[i] is Completed || (
                    oc[i].success && deps_completed(g, self.spec_states(), i))),
                forall|i: int|
                    0 <= i < n && self.spec_states()[i] is Completed ==> completable(
                        g,
                        s0,
                        oc,
                        i,
                        rounds as nat,
                    ),
                forall|i: int|
                    0 <= i < n && self.spec_states()[i] is Failed ==> (s0[i] is Pending
                        && !oc[i].success && deps_completed(g, self.spec_states(), i)),
                forall|i: int|
                    0 <= i < n && self.spec_states()[i] is Failed ==> self.spec_states()[i]
                        == TaskState::Failed(oc[i].message),
                forall|i: int| 0 <= i < n && self.spec_states()[i] is Pending ==> s0[i] is Pending,
                results_match(g, s0, self.spec_states(), oc, results@, order),
                ready_ranks_at_least(g, self.spec_states(), rounds as int),
                forall|rank: Seq<int>, bound: int|
                    #![trigger rank_valid(g, rank), all_below(rank, bound)]
                    rank_valid(g, rank) && 0 <= bound && all_below(rank, bound) ==> rounds as int
                        <= bound,
                rounds as int <= count_pending(s0) - count_pending(self.spec_states()),
                rounds as int <= n,
                count_pending(s0) <= n,
                self.spec_rounds() == old(self).spec_rounds(),
            ensures
                self.wf(),
                self.spec_nodes() == g,
                self.spec_states().len() == n,
                forall|i: int| !ready(g, self.spec_states(), i),
                forall|i: int|
                    0 <= i < n && s0[i] is Completed ==> self.spec_states()[i] is Completed,
                forall|i: int| 0 <= i < n ==> !(self.spec_states()[i] is Running),
                forall|i: int|
                    0 <= i < n && self.spec_states()[i] is Completed ==> (s0[i] is Completed || (
                    oc[i].success && deps_completed(g, self.spec_states(), i))),
                forall|i: int|
                    0 <= i < n && self.spec_states()[i] is Completed ==> can_complete(g, s0, oc, i),
                forall|i: int|
                    0 <= i < n && self.spec_states()[i] is Failed ==> (s0[i] is Pending
                        && !oc[i].success && deps_completed(g, self.spec_states(), i)),
                forall|i: int|
                    0 <= i < n && self.spec_states()[i] is Failed ==> self.spec_states()[i]
                        == TaskState::Failed(oc[i].message),
                forall|i: int| 0 <= i < n && self.spec_states()[i] is Pending ==> s0[i] is Pending,
                results_match(g, s0, self.spec_states(), oc, results@, order),
                forall|rank: Seq<int>, bound: int|
                    #![trigger rank_valid(g, rank), all_below(rank, bound)]
                    rank_valid(g, rank) && 0 <= bound && all_below(rank, bound) ==> rounds as int
                        <= bound,
            decreases n - rounds,
        {
            let rl = self.find_ready_tasks();
            if rl.len() == 0 {
                proof {
                    assert forall|i: int| !ready(g, self.spec_states(), i) by {
                        if 0 <= i < n && ready(g, self.spec_states(), i) {
                            assert(in_list(rl@, i));
                            let k = choose|k: int| 0 <= k < rl@.len() && rl@[k] as int == i;
                            assert(false);
                        }
                    }
                    assert forall|i: int|
                        0 <= i < n && self.spec_states()[i] is Completed implies can_complete(
                        g,
                        s0,
                        oc,
                        i,
                    ) by {
                        assert(completable(g, s0, oc, i, rounds as nat));
                    }
                }
                break;
            }
            let ghost rs0_states = self.spec_states();
            let ghost rounds0 = rounds as int;

            proof {
                lemma_count_pending_pos(rs0_states, rl@[0] as int);
                lemma_count_pending_bounds(rs0_states);
            }
            rounds = rounds + 1;
            // The hard round ceiling that guards against an unforeseen
            // livelock. Every round retires at least one Pending task, so the
            // ceiling is provably out of reach; the guard stays as the last
            // line of defence, never as a silent hang.
            if rounds > n {
                proof {
                    assert(false);
                }
                return Err(EngineFault::RoundCeilingExceeded);
            }
            proof {
                assert forall|i: int|
                    0 <= i < n && self.spec_states()[i] is Completed implies completable(
                    g,
                    s0,
                    oc,
                    i,
                    rounds as nat,
                ) by {
                    lemma_completable_mono(g, s0, oc, i, (rounds - 1) as nat, rounds as nat);
                }
            }

            let mut k: usize = 0;
            while k < rl.len()
                invariant
                    self.wf(),
                    self.spec_nodes() == g,
                    n == g.len(),
                    oc == outcomes@,
                    oc.len() == n,
                    s0.len() == n,
                    self.spec_states().len() == n,
                    rs0_states.len() == n,
                    0 <= k <= rl@.len(),
                    1 <= rounds as int <= n,
                    rounds as int == rounds0 + 1,
                    forall|i: int| 0 <= i < n ==> (s0[i] is Pending || s0[i] is Completed),
                    forall|m: int|
                        0 <= m < rl@.len() ==> ready(g, rs0_states, #[trigger] rl@[m] as int),
                    forall|m1: int, m2: int| 0 <= m1 < m2 < rl@.len() ==> rl@[m1] < rl@[m2],
                    forall|i: int|
                        0 <= i < n && rs0_states[i] is Completed ==> self.spec_states()[i]
                            is Completed,
                    forall|i: int|
                        0 <= i < n && rs0_states[i] is Completed ==> completable(
                            g,
                            s0,
                            oc,
                            i,
                            rounds0 as nat,
                        ),
                    forall|m: int|
                        k <= m < rl@.len() ==> self.spec_states()[#[trigger] rl@[m] as int]
                            == rs0_states[rl@[m] as int],
                    forall|m: int|
                        0 <= m < k ==> !(self.spec_states()[#[trigger] rl@[m] as int] is Pending),
                    forall|x: int|
                        0 <= x < n && self.spec_states()[x] != rs0_states[x] ==> in_list(
                            rl@.subrange(0, k as int),
                            x,
                        ),
                    forall|i: int|
                        0 <= i < n && s0[i] is Completed ==> self.spec_states()[i] is Completed,
                    forall|i: int| 0 <= i < n ==> !(self.spec_states()[i] is Running),
                    forall|i: int|
                        0 <= i < n && self.spec_states()[i] is Completed ==> (s0[i] is Completed
                            || (oc[i].success && deps_completed(g, self.spec_states(), i))),
                    forall|i: int|
                        0 <= i < n && self.spec_states()[i] is Completed ==> completable(
                            g,
                            s0,
                            oc,
                            i,
                            rounds as nat,
                        ),
                    forall|i: int|
                        0 <= i < n && self.spec_states()[i] is Failed ==> (s0[i] is Pending
                            && !oc[i].success && deps_completed(g, self.spec_states(), i)),
                    forall|i: int|
                        0 <= i < n && self.spec_states()[i] is Failed ==> self.spec_states()[i]
                            == TaskState::Failed(oc[i].message),
                    forall|i: int|
                        0 <= i < n && self.spec_states()[i] is Pending ==> s0[i] is Pending,
                    results_match(g, s0, self.spec_states(), oc, results@, order),
                    ready_ranks_at_least(g, rs0_states, rounds0),
                    forall|rank: Seq<int>, bound: int|
                        #![trigger rank_valid(g, rank), all_below(rank, bound)]
                        rank_valid(g, rank) && 0 <= bound && all_below(rank, bound) ==> rounds0
                            <= bound,
                    count_pending(self.spec_states()) == count_pending(rs0_states) - k,
                    count_pending(s0) <= n,
                    rounds0 <= count_pending(s0) - count_pending(rs0_states),
                    self.spec_rounds() == old(self).spec_rounds(),
                decreases rl@.len() - k,
            {
                let i = rl[k];
                let ghost gd = g[i as int].deps@;
                proof {
                    assert(self.spec_states()[i as int] == rs0_states[i as int]);
                    assert(ready(g, rs0_states, i as int));
                    assert forall|k2: int|
                        0 <= k2 < gd.len() implies self.spec_states()[#[trigger] gd[k2] as int]
                        is Completed by {
                        assert(rs0_states[gd[k2] as int] is Completed);
                    }
                    assert(ready(g, self.spec_states(), i as int));
                }
                let ghost pre = self.spec_states();
                let ghost order0 = order;
                let ghost results0 = results@;
                self.mark_running(i);
                let outcome = &outcomes[i];
                let res = self.record_outcome(i, outcome);
                results.push(res);
                proof {
                    order = order.push(i as int);
                    let cur = self.spec_states();
                    if outcome.success {
                        assert(cur =~= pre.update(i as int, TaskState::Completed));
                    } else {
                        assert(cur =~= pre.update(i as int, TaskState::Failed(outcome.message)));
                    }
                    lemma_count_pending_update(pre, i as int, cur[i as int]);

                    // The new entry's task was Pending at the start of the run.
                    assert(s0[i as int] is Pending);

                    // No earlier result belongs to the task being run.
                    assert forall|k2: int| 0 <= k2 < order0.len() implies order0[k2] != i as int by {
                        assert(!(pre[#[trigger] order0[k2]] is Pending));
                    }

                    // Dependencies of the new entry: already Completed at the
                    // start, or finished successfully earlier in the list.
                    assert forall|m: int| 0 <= m < g[i as int].deps@.len() implies {
                        let d = #[trigger] g[i as int].deps@[m] as int;
                        s0[d] is Completed || exists|k2: int|
                            0 <= k2 < order0.len() && order0[k2] == d && results0[k2].success
                    } by {
                        let d = g[i as int].deps@[m] as int;
                        if !(s0[d] is Completed) {
                            assert(s0[d] is Pending);
                            assert(pre[d] is Completed);
                            assert(order0.contains(d));
                            let k2 = choose|k2: int|
                                0 <= k2 < order0.len() && order0[k2] == d;
                            assert(pre[order0[k2]] is Completed);
                            assert(results0[k2].success);
                        }
                    }

                    // The dependency-order clause, re-derived over the
                    // extended result list.
                    assert(order == order0.push(i as int));
                    assert(order[order0.len() as int] == i as int);
                    assert forall|k2: int, m: int|
                        0 <= k2 < order.len() && 0 <= m < g[#[trigger] order[k2]].deps@.len() implies {
                        let d = #[trigger] g[order[k2]].deps@[m] as int;
                        s0[d] is Completed || exists|k3: int|
                            0 <= k3 < k2 && order[k3] == d && results@[k3].success
                    } by {
                        let d = g[order[k2]].deps@[m] as int;
                        if k2 < order0.len() {
                            assert(order[k2] == order0[k2]);
                            assert(s0[d] is Completed || exists|k3: int|
                                0 <= k3 < k2 && order0[k3] == d && results0[k3].success);
                            if !(s0[d] is Completed) {
                                let k3 = choose|k3: int|
                                    0 <= k3 < k2 && order0[k3] == d && results0[k3].success;
                                assert(order[k3] == d && results@[k3].success);
                            }
                        } else {
                            assert(order[k2] == i as int);
                            if !(s0[d] is Completed) {
                                let k3 = choose|k3: int|
                                    0 <= k3 < order0.len() && order0[k3] == d
                                        && results0[k3].success;
                                assert(order[k3] == d && results@[k3].success);
                            }
                        }
                    }

                    // Coverage: every task that has left Pending is listed.
                    assert forall|x: int|
                        0 <= x < n && s0[x] is Pending && !(#[trigger] cur[x] is Pending) implies order.contains(
                        x,
                    ) by {
                        if x == i as int {
                            assert(order[order.len() - 1] == x);
                        } else {
                            assert(cur[x] == pre[x]);
                            assert(!(pre[x] is Pending));
                            assert(order0.contains(x));
                            let k2 = choose|k2: int| 0 <= k2 < order0.len() && order0[k2] == x;
                            assert(order[k2] == x);
                        }
                    }
                    assert(results_match(g, s0, cur, oc, results@, order));

                    // Changed entries all come from the ready list.
                    assert forall|x: int|
                        0 <= x < n && cur[x] != rs0_states[x] implies in_list(
                        rl@.subrange(0, k as int + 1),
                        x,
                    ) by {
                        if x == i as int {
                            assert(rl@.subrange(0, k as int + 1)[k as int] as int == x);
                        } else {
                            assert(pre[x] != rs0_states[x]);
                            assert(in_list(rl@.subrange(0, k as int), x));
                            let k2 = choose|k2: int|
                                0 <= k2 < rl@.subrange(0, k as int).len() && rl@.subrange(
                                    0,
                                    k as int,
                                )[k2] as int == x;
                            assert(rl@.subrange(0, k as int + 1)[k2] as int == x);
                        }
                    }

                    // A task completed this round is completable: its
                    // dependencies were Completed before the round began.
                    if oc[i as int].success {
                        assert forall|m: int| 0 <= m < g[i as int].deps@.len() implies completable(
                            g,
                            s0,
                            oc,
                            #[trigger] g[i as int].deps@[m] as int,
                            (rounds - 1) as nat,
                        ) by {
                            assert(rs0_states[g[i as int].deps@[m] as int] is Completed);
                        }
                        assert(completable(g, s0, oc, i as int, rounds as nat));
                    }
                }
                k = k + 1;
            }

            proof {
                // The whole ready list ran, so the pending count fell and the
                // round is accounted for.
                assert(rl@.subrange(0, rl@.len() as int) =~= rl@);
                assert(count_pending(self.spec_states()) == count_pending(rs0_states)
                    - rl@.len());
                assert(rl@.len() >= 1);

                // Any task ready now was unlocked by a task that ran this
                // round, so every valid rank assignment puts it at or above
                // the new round count.
                assert forall|rank: Seq<int>, i: int|
                    #![trigger rank_valid(g, rank), rank[i]]
                    rank_valid(g, rank) && ready(g, self.spec_states(), i) implies rank[i]
                    >= rounds as int by {
                    let cur = self.spec_states();
                    assert(cur[i] is Pending);
                    assert(!in_list(rl@, i)) by {
                        if in_list(rl@, i) {
                            let m = choose|m: int| 0 <= m < rl@.len() && rl@[m] as int == i;
                            assert(!(cur[rl@[m] as int] is Pending));
                        }
                    }
                    assert(cur[i] == rs0_states[i]);
                    if deps_completed(g, rs0_states, i) {
                        assert(ready(g, rs0_states, i));
                        assert(in_list(rl@, i));
                        assert(false);
                    }
                    let m = choose|m: int|
                        0 <= m < g[i].deps@.len() && !(rs0_states[#[trigger] g[i].deps@[m] as int]
                            is Completed);
                    let d = g[i].deps@[m] as int;
                    assert(cur[d] is Completed);
                    assert(cur[d] != rs0_states[d]);
                    assert(in_list(rl@, d));
                    assert(ready(g, rs0_states, d));
                    assert(rank[d] >= rounds0);
                    assert(rank[i] > rank[d]);
                }

                // The round that just ran had a ready task, so every bound on
                // the valid ranks also bounds the new round count.
                assert forall|rank: Seq<int>, bound: int|
                    #![trigger rank_valid(g, rank), all_below(rank, bound)]
                    rank_valid(g, rank) && 0 <= bound && all_below(rank, bound) implies rounds
                    as int <= bound by {
                    let d0 = rl@[0] as int;
                    assert(ready(g, rs0_states, d0));
                    assert(rank[d0] >= rounds0);
                    assert(0 <= d0 < rank.len());
                    assert(rank[d0] < bound);
                }

                assert(count_pending(self.spec_states()) < count_pending(rs0_states));
                lemma_count_pending_bounds(self.spec_states());
            }
        }

        let ghost fin = self.spec_states();
        self.rounds_used = rounds;
        proof {
            assert(self.spec_states() == fin);
            assert forall|i2: int|
                0 <= i2 < fin.len() && fin[i2] is Pending implies s0[i2] is Pending
                && !deps_completed(g, fin, i2) by {
                assert(!ready(g, fin, i2));
            }
        }

        let tbl = self.failed_ancestor_table();
        let mut implicated: Vec<String> = Vec::new();
        let mut i: usize = 0;
        while i < n
            invariant
                self.wf(),
                self.spec_nodes() == g,
                n == g.len(),
                fin == self.spec_states(),
                fin.len() == n,
                tbl@.len() == n,
                forall|i2: int| 0 <= i2 < n ==> (tbl@[i2] == has_failed_ancestor(g, fin, i2)),
                0 <= i <= n,
                implicated_sound(g, fin, implicated@),
                forall|i2: int|
                    0 <= i2 < i && #[trigger] fin[i2] is Pending && !has_failed_ancestor(g, fin, i2)
                        ==> contains_id(implicated@, g[i2].id@),
            decreases n - i,
        {
            let is_pending = match &self.states[i] {
                TaskState::Pending => true,
                _ => false,
            };
            if is_pending && !tbl[i] {
                let ghost imp0 = implicated@;
                implicated.push(self.nodes[i].id.clone());
                proof {
                    assert(implicated@[imp0.len() as int]@ == g[i as int].id@);
                    assert forall|k2: int|
                        0 <= k2 < implicated@.len() implies exists|i2: int|
                        0 <= i2 < g.len() && g[i2].id@ == #[trigger] implicated@[k2]@ && fin[i2]
                            is Pending && !has_failed_ancestor(g, fin, i2) by {
                        if k2 < imp0.len() {
                            assert(implicated@[k2] == imp0[k2]);
                        } else {
                            let iw = i as int;
                            assert(0 <= iw < g.len() && g[iw].id@ == implicated@[k2]@ && fin[iw]
                                is Pending && !has_failed_ancestor(g, fin, iw));
                        }
                    }
                    assert(implicated_sound(g, fin, implicated@));
                    assert forall|i2: int|
                        0 <= i2 < i + 1 && #[trigger] fin[i2] is Pending && !has_failed_ancestor(
                            g,
                            fin,
                            i2,
                        ) implies contains_id(implicated@, g[i2].id@) by {
                        if i2 < i as int {
                            assert(contains_id(imp0, g[i2].id@));
                            let k2 = choose|k2: int|
                                0 <= k2 < imp0.len() && imp0[k2]@ == g[i2].id@;
                            assert(implicated@[k2]@ == g[i2].id@);
                        } else {
                            assert(implicated@[imp0.len() as int]@ == g[i2].id@);
                        }
                    }
                }
            }
            i = i + 1;
        }

        if implicated.len() == 0 {
            proof {
                assert forall|i2: int|
                    0 <= i2 < n && fin[i2] is Pending implies has_failed_ancestor(g, fin, i2) by {
                    if !has_failed_ancestor(g, fin, i2) {
                        assert(contains_id(implicated@, g[i2].id@));
                        let k2 = choose|k2: int|
                            0 <= k2 < implicated@.len() && implicated@[k2]@ == g[i2].id@;
                        assert(false);
                    }
                }
                assert(results_match(g, s0, fin, oc, results@, order));
                assert(results_ok(g, s0, fin, oc, results@));
            }
            Ok(results)
        } else {
            proof {
                assert(implicated_sound(g, fin, implicated@));
                let id0 = implicated@[0]@;
                assert(exists|i2: int|
                    0 <= i2 < g.len() && g[i2].id@ == id0 && fin[i2] is Pending
                        && !has_failed_ancestor(g, fin, i2));
                let iw = choose|i2: int|
                    0 <= i2 < g.len() && g[i2].id@ == id0 && fin[i2] is Pending
                        && !has_failed_ancestor(g, fin, i2);
                assert(fin[iw] is Pending && !has_failed_ancestor(g, fin, iw));
                assert(implicated_ok(g, fin, implicated@));
            }
            Err(EngineFault::CycleDetected { implicated })
        }
    }

    /// For every task, whether some transitive dependency is Failed, computed
    /// as a fixpoint of the one-step blocking rule.
    fn failed_ancestor_table(&self) -> (t: Vec<bool>)
        requires
            self.wf(),
        ensures
            t@.len() == self.spec_nodes().len(),
            forall|i: int|
                0 <= i < t@.len() ==> (t@[i] == has_failed_ancestor(
                    self.spec_nodes(),
                    self.spec_states(),
                    i,
                )),
    {
        let ghost g = self.spec_nodes();
        let ghost s = self.spec_states();
        let n = self.nodes.len();
        let mut mark: Vec<bool> = Vec::new();
        let mut i: usize = 0;
        while i < n
            invariant
                0 <= i <= n,
                mark@.len() == i,
                forall|m: int| 0 <= m < i ==> !mark@[m],
            decreases n - i,
        {
            mark.push(false);
            i = i + 1;
        }

        loop
            invariant
                self.wf(),
                g == self.spec_nodes(),
                s == self.spec_states(),
                n == g.len(),
                mark@.len() == n,
                forall|m: int| 0 <= m < n && #[trigger] mark@[m] ==> has_failed_ancestor(g, s, m),
            ensures
                mark@.len() == n,
                forall|m: int| 0 <= m < n && #[trigger] mark@[m] ==> has_failed_ancestor(g, s, m),
                forall|i2: int, k: int|
                    0 <= i2 < n && 0 <= k < g[i2].deps@.len() && (s[#[trigger] g[i2].deps@[k] as int]
                        is Failed || mark@[g[i2].deps@[k] as int]) ==> mark@[i2],
            decreases n - crate::counting::count_true(mark@),
        {
            let ghost mark0 = mark@;
            let mut changed = false;
            let mut i: usize = 0;
            while i < n
                invariant
                    self.wf(),
                    g == self.spec_nodes(),
                    s == self.spec_states(),
                    n == g.len(),
                    mark@.len() == n,
                    mark0.len() == n,
                    0 <= i <= n,
                    forall|m: int| 0 <= m < n && #[trigger] mark0[m] ==> mark@[m],
                    forall|m: int| 0 <= m < n && #[trigger] mark@[m] ==> has_failed_ancestor(g, s, m),
                    !changed ==> mark@ == mark0,
                    !changed ==> forall|i2: int, k: int|
                        0 <= i2 < i && 0 <= k < g[i2].deps@.len() && (s[
                            #[trigger] g[i2].deps@[k] as int
                        ] is Failed || mark@[g[i2].deps@[k] as int]) ==> mark@[i2],
                    changed ==> crate::counting::count_true(mark@) > crate::counting::count_true(
                        mark0,
                    ),
                decreases n - i,
            {
                if !mark[i] {
                    // Does some dependency fail directly, or carry a mark?
                    let dep_count = self.nodes[i].deps.len();
                    let mut hit = false;
                    let mut k: usize = 0;
                    while k < dep_count && !hit
                        invariant
                            self.wf(),
                            g == self.spec_nodes(),
                            s == self.spec_states(),
                            n == g.len(),
                            mark@.len() == n,
                            (i as int) < n,
                            dep_count == g[i as int].deps@.len(),
                            0 <= k <= dep_count,
                            hit ==> exists|k2: int|
                                0 <= k2 < dep_count && (s[#[trigger] g[i as int].deps@[k2] as int]
                                    is Failed || mark@[g[i as int].deps@[k2] as int]),
                            !hit ==> forall|k2: int|
                                0 <= k2 < k ==> !(s[#[trigger] g[i as int].deps@[k2] as int]
                                    is Failed) && !mark@[g[i as int].deps@[k2] as int],
                        decreases dep_count - k + (if hit {
                            0int
                        } else {
                            1int
                        }),
                    {
                        let d = self.nodes[i].deps[k];
                        let failed = match &self.states[d] {
                            TaskState::Failed(_) => true,
                            _ => false,
                        };
                        if failed || mark[d] {
                            hit = true;
                            proof {
                                let dd = g[i as int].deps@[k as int] as int;
                                assert(s[dd] is Failed || mark@[dd]);
                            }
                        } else {
                            k = k + 1;
                        }
                    }
                    if hit {
                        proof {
                            let k2 = choose|k2: int|
                                0 <= k2 < dep_count && (s[#[trigger] g[i as int].deps@[k2] as int]
                                    is Failed || mark@[g[i as int].deps@[k2] as int]);
                            lemma_hfa_step(g, s, i as int, k2);
                            crate::counting::lemma_count_true_set(mark@, i as int);
                            crate::counting::lemma_count_true_le(mark0, mark@);
                        }
                        mark.set(i, true);
                        changed = true;
                    }
                }
                i = i + 1;
            }
            if !changed {
                break;
            }
            proof {
                crate::counting::lemma_count_true_bounds(mark@);
            }
        }

        proof {
            assert forall|i2: int|
                0 <= i2 < n && has_failed_ancestor(g, s, i2) implies mark@[i2] by {
                let fuel = choose|fuel: nat| blocked_within(g, s, i2, fuel);
                lemma_hfa_complete(g, s, mark@, fuel);
            }
        }
        mark
    }
}

} // verus!
