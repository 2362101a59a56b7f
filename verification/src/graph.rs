//! The task graph: nodes with index-resolved dependencies, well-formedness,
//! build-time validation (unknown references, self-dependencies, duplicate
//! ids) and depth-first cycle detection that reports the offending path.

use vstd::prelude::*;
use crate::counting::{count_true, lemma_count_true_bounds, lemma_count_true_le,
    lemma_count_true_set};

verus! {

/// One task wired into a graph: its id and display name, and the indices of
/// the tasks it depends on.
#[derive(Debug)]
pub struct TaskNode {
    pub id: String,
    pub name: String,
    pub deps: Vec<usize>,
}

/// A validated set of tasks with index-resolved dependencies.
#[derive(Debug)]
pub struct TaskGraph {
    pub nodes: Vec<TaskNode>,
}

/// Every dependency index points at a task of the graph.
pub open spec fn deps_in_range(g: Seq<TaskNode>) -> bool {
    forall|i: int, k: int|
        0 <= i < g.len() && 0 <= k < g[i].deps@.len() ==> (g[i].deps@[k] as int) < g.len()
}

/// Every dependency index is in range, and no two tasks share an id.
pub open spec fn graph_wf(g: Seq<TaskNode>) -> bool {
    &&& deps_in_range(g)
    &&& forall|i: int, j: int| 0 <= i < j < g.len() ==> g[i].id@ != g[j].id@
}

/// Task `a` depends directly on task `b`.
pub open spec fn edge(g: Seq<TaskNode>, a: int, b: int) -> bool {
    &&& 0 <= a < g.len()
    &&& exists|k: int| 0 <= k < g[a].deps@.len() && g[a].deps@[k] as int == b
}

/// The sequence of node indices forms a closed dependency cycle.
pub open spec fn is_cycle_path(g: Seq<TaskNode>, p: Seq<usize>) -> bool {
    &&& p.len() >= 1
    &&& forall|k: int| 0 <= k < p.len() ==> (#[trigger] p[k] as int) < g.len()
    &&& forall|k: int| 0 <= k < p.len() - 1 ==> edge(g, #[trigger] p[k] as int, p[k + 1] as int)
    &&& edge(g, p[p.len() - 1] as int, p[0] as int)
}

/// A rank assignment certifying acyclicity: every task ranks strictly above
/// each of its dependencies.
pub open spec fn rank_valid(g: Seq<TaskNode>, rank: Seq<int>) -> bool {
    &&& rank.len() == g.len()
    &&& forall|i: int| 0 <= i < g.len() ==> 0 <= rank[i]
    &&& forall|i: int, k: int|
        0 <= i < g.len() && 0 <= k < g[i].deps@.len() ==> rank[g[i].deps@[k] as int] < rank[i]
}

/// The graph has no dependency cycle (some rank assignment exists).
pub open spec fn acyclic(g: Seq<TaskNode>) -> bool {
    exists|rank: Seq<int>| rank_valid(g, rank)
}

/// A task not yet wired into a graph: dependencies still name task ids.
#[derive(Debug)]
pub struct PlannedTask {
    pub id: String,
    pub name: String,
    pub dependencies: Vec<String>,
}

/// Why a task set could not be wired into a graph.
#[derive(Debug)]
pub enum BuildError {
    /// A dependency id that no task in the set carries.
    UnknownDependency { task: String, dependency: String },
    /// A module declaring a dependency on itself.
    SelfDependency { module: String },
    /// Two tasks sharing one id.
    DuplicateTask { task: String },
    /// A dependency cycle, reported with the ids along the cycle.
    CycleDetected { path: Vec<String> },
}

/// The planned task at `i` has `id` as one of its dependency ids.
pub open spec fn planned_dep(tasks: Seq<PlannedTask>, i: int, id: Seq<char>) -> bool {
    exists|k: int| 0 <= k < tasks[i].dependencies@.len() && tasks[i].dependencies@[k]@ == id
}

/// Some planned task carries this id.
pub open spec fn planned_has_id(tasks: Seq<PlannedTask>, id: Seq<char>) -> bool {
    exists|j: int| 0 <= j < tasks.len() && tasks[j].id@ == id
}

/// Some planned task with id `task` declares the dependency `dep`, and no
/// task of the set carries that id.
pub open spec fn unknown_dep_witness(tasks: Seq<PlannedTask>, task: Seq<char>, dep: Seq<char>) -> bool {
    exists|i: int|
        0 <= i < tasks.len() && tasks[i].id@ == task && planned_dep(tasks, i, dep)
            && !planned_has_id(tasks, dep)
}

/// All planned ids are pairwise distinct.
pub open spec fn planned_ids_unique(tasks: Seq<PlannedTask>) -> bool {
    forall|i: int, j: int| 0 <= i < j < tasks.len() ==> tasks[i].id@ != tasks[j].id@
}

/// Every dependency of every planned task names some task of the set.
pub open spec fn planned_deps_known(tasks: Seq<PlannedTask>) -> bool {
    forall|i: int, k: int|
        0 <= i < tasks.len() && 0 <= k < tasks[i].dependencies@.len() ==> planned_has_id(
            tasks,
            tasks[i].dependencies@[k]@,
        )
}

/// The wired graph mirrors the planned tasks: same ids and names in the same
/// order, and each dependency index points at the task whose id was named.
pub open spec fn resolves(tasks: Seq<PlannedTask>, g: Seq<TaskNode>) -> bool {
    &&& g.len() == tasks.len()
    &&& forall|i: int| 0 <= i < g.len() ==> g[i].id@ == tasks[i].id@ && g[i].name@ == tasks[i].name@
    &&& forall|i: int|
        0 <= i < g.len() ==> g[i].deps@.len() == tasks[i].dependencies@.len()
    &&& forall|i: int, k: int|
        0 <= i < g.len() && 0 <= k < g[i].deps@.len() ==> (g[i].deps@[k] as int) < g.len()
            && g[g[i].deps@[k] as int].id@ == tasks[i].dependencies@[k]@
}

/// Find the task whose id equals `id`, if any.
fn find_by_id(tasks: &Vec<PlannedTask>, id: &String) -> (r: Option<usize>)
    ensures
        match r {
            Some(j) => 0 <= j < tasks@.len() && tasks@[j as int].id@ == id@,
            None => !planned_has_id(tasks@, id@),
        },
{
    let mut j: usize = 0;
    while j < tasks.len()
        invariant
            0 <= j <= tasks@.len(),
            forall|m: int| 0 <= m < j ==> tasks@[m].id@ != id@,
        decreases tasks@.len() - j,
    {
        if tasks[j].id == *id {
            return Some(j);
        }
        j = j + 1;
    }
    None
}

impl TaskGraph {
    /// Wire a planned task set into a graph, rejecting duplicate ids and
    /// unknown dependency references. Succeeds exactly when the ids are
    /// unique and every dependency resolves; cycles are a separate check.
    #[verifier::rlimit(50)]
    pub fn from_planned(tasks: &Vec<PlannedTask>) -> (r: Result<TaskGraph, BuildError>)
        ensures
            r is Ok <==> planned_ids_unique(tasks@) && planned_deps_known(tasks@),
            r matches Ok(g) ==> resolves(tasks@, g.nodes@) && graph_wf(g.nodes@),
            r is Err ==> (r->Err_0 is DuplicateTask || r->Err_0 is UnknownDependency),
            r matches Err(BuildError::DuplicateTask { task }) ==> !planned_ids_unique(tasks@)
                && planned_has_id(tasks@, task@),
            r matches Err(BuildError::UnknownDependency { task, dependency })
                ==> unknown_dep_witness(tasks@, task@, dependency@),
    {
        let n = tasks.len();

        // Reject duplicate ids.
        let mut i: usize = 0;
        while i < n
            invariant
                n == tasks@.len(),
                0 <= i <= n,
                forall|a: int, b: int| 0 <= a < b < i ==> tasks@[a].id@ != tasks@[b].id@,
            decreases n - i,
        {
            let mut j: usize = 0;
            while j < i
                invariant
                    n == tasks@.len(),
                    0 <= j <= i < n,
                    forall|a: int, b: int| 0 <= a < b < i ==> tasks@[a].id@ != tasks@[b].id@,
                    forall|b: int| 0 <= b < j ==> tasks@[b].id@ != tasks@[i as int].id@,
                decreases i - j,
            {
                if tasks[j].id == tasks[i].id {
                    proof {
                        assert(tasks@[j as int].id@ == tasks@[i as int].id@);
                        assert(!planned_ids_unique(tasks@));
                        assert(planned_has_id(tasks@, tasks@[i as int].id@));
                    }
                    return Err(BuildError::DuplicateTask { task: tasks[i].id.clone() });
                }
                j = j + 1;
            }
            i = i + 1;
        }

        // Resolve every dependency id to the index of the task that owns it.
        let mut nodes: Vec<TaskNode> = Vec::new();
        let mut i: usize = 0;
        while i < n
            invariant
                n == tasks@.len(),
                0 <= i <= n,
                planned_ids_unique(tasks@),
                nodes@.len() == i,
                forall|a: int|
                    0 <= a < i ==> nodes@[a].id@ == tasks@[a].id@ && nodes@[a].name@
                        == tasks@[a].name@,
                forall|a: int|
                    0 <= a < i ==> nodes@[a].deps@.len() == tasks@[a].dependencies@.len(),
                forall|a: int, k: int|
                    0 <= a < i && 0 <= k < nodes@[a].deps@.len() ==> (nodes@[a].deps@[k] as int) < n
                        && tasks@[nodes@[a].deps@[k] as int].id@ == tasks@[a].dependencies@[k]@,
            decreases n - i,
        {
            let dep_count = tasks[i].dependencies.len();
            let mut deps: Vec<usize> = Vec::new();
            let mut k: usize = 0;
            while k < dep_count
                invariant
                    n == tasks@.len(),
                    0 <= i < n,
                    dep_count == tasks@[i as int].dependencies@.len(),
                    0 <= k <= dep_count,
                    deps@.len() == k,
                    forall|m: int|
                        0 <= m < k ==> (deps@[m] as int) < n && tasks@[deps@[m] as int].id@
                            == tasks@[i as int].dependencies@[m]@,
                decreases dep_count - k,
            {
                let dep_id = &tasks[i].dependencies[k];
                match find_by_id(tasks, dep_id) {
                    Some(j) => {
                        deps.push(j);
                    },
                    None => {
                        let task_s = tasks[i].id.clone();
                        let dep_s = dep_id.clone();
                        proof {
                            let ti = i as int;
                            assert(planned_dep(tasks@, ti, dep_s@));
                            assert(!planned_deps_known(tasks@));
                            assert(unknown_dep_witness(tasks@, task_s@, dep_s@));
                        }
                        return Err(
                            BuildError::UnknownDependency { task: task_s, dependency: dep_s },
                        );
                    },
                }
                k = k + 1;
            }
            nodes.push(
                TaskNode { id: tasks[i].id.clone(), name: tasks[i].name.clone(), deps },
            );
            i = i + 1;
        }

        let g = TaskGraph { nodes };
        proof {
            assert(resolves(tasks@, g.nodes@));
            assert forall|a: int, b: int| 0 <= a < b < g.nodes@.len() implies g.nodes@[a].id@
                != g.nodes@[b].id@ by {
                assert(tasks@[a].id@ != tasks@[b].id@);
            }
        }
        Ok(g)
    }
}

/// The bookkeeping of one depth-first traversal: which tasks were entered,
/// which lie on the current recursion path (and the path itself, for
/// reporting), and a ghost rank certificate over the finished tasks.
struct DfsState {
    visited: Vec<bool>,
    on_path: Vec<bool>,
    stack: Vec<usize>,
    fin: Ghost<Map<int, int>>,
    next_fin: Ghost<int>,
}

/// The traversal invariant: the path mirrors `on_path` and walks real edges,
/// and every finished task ranks strictly above its (finished) dependencies.
spec fn dfs_inv(g: Seq<TaskNode>, st: DfsState) -> bool {
    let n = g.len();
    &&& deps_in_range(g)
    &&& st.visited@.len() == n
    &&& st.on_path@.len() == n
    &&& forall|i: int| 0 <= i < n && st.on_path@[i] ==> st.visited@[i]
    &&& forall|k: int|
        0 <= k < st.stack@.len() ==> (#[trigger] st.stack@[k] as int) < n
            && st.on_path@[st.stack@[k] as int]
    &&& forall|i: int|
        0 <= i < n && st.on_path@[i] ==> exists|k: int|
            0 <= k < st.stack@.len() && st.stack@[k] as int == i
    &&& forall|k1: int, k2: int| 0 <= k1 < k2 < st.stack@.len() ==> st.stack@[k1] != st.stack@[k2]
    &&& forall|k: int|
        0 <= k < st.stack@.len() - 1 ==> edge(g, #[trigger] st.stack@[k] as int, st.stack@[k
            + 1] as int)
    &&& forall|i: int|
        0 <= i < n ==> (st.fin@.contains_key(i) <==> (st.visited@[i] && !st.on_path@[i]))
    &&& forall|i: int| st.fin@.contains_key(i) ==> 0 <= i < n
    &&& forall|i: int, k: int|
        st.fin@.contains_key(i) && 0 <= k < g[i].deps@.len() ==> st.fin@.contains_key(
            #[trigger] g[i].deps@[k] as int,
        ) && st.fin@[g[i].deps@[k] as int] < st.fin@[i]
    &&& 0 <= st.next_fin@
    &&& forall|i: int| #[trigger]
        st.fin@.contains_key(i) ==> 0 <= st.fin@[i] < st.next_fin@
}

/// Depth-first search from `v`. Returns a dependency cycle if one is
/// reachable through the current path, and otherwise finishes `v` (and
/// everything reachable from it) into the rank certificate.
#[verifier::rlimit(100)]
fn dfs(g: &Vec<TaskNode>, v: usize, st: &mut DfsState) -> (r: Option<Vec<usize>>)
    requires
        dfs_inv(g@, *old(st)),
        (v as int) < g@.len(),
        old(st).stack@.len() > 0 ==> edge(g@, old(st).stack@.last() as int, v as int),
    ensures
        r is None ==> dfs_inv(g@, *final(st)),
        r is None ==> final(st).on_path@ == old(st).on_path@,
        r is None ==> final(st).stack@ == old(st).stack@,
        r is None ==> forall|i: int|
            0 <= i < g@.len() && old(st).visited@[i] ==> final(st).visited@[i],
        r is None ==> forall|i: int|
            old(st).fin@.contains_key(i) ==> final(st).fin@.contains_key(i),
        r is None ==> final(st).fin@.contains_key(v as int),
        r matches Some(p) ==> is_cycle_path(g@, p@),
    decreases g@.len() - count_true(st.visited@),
{
    let n = g.len();
    if st.on_path[v] {
        // An edge leads back into the current path: the path from the first
        // occurrence of `v` onward is a cycle.
        let slen = st.stack.len();
        let mut pos: usize = 0;
        loop
            invariant
                dfs_inv(g@, *st),
                *st == *old(st),
                slen == st.stack@.len(),
                0 <= pos <= slen,
                st.on_path@[v as int],
                (v as int) < g@.len(),
                forall|m: int| 0 <= m < pos ==> st.stack@[m] != v,
            ensures
                pos < slen && st.stack@[pos as int] == v,
                *st == *old(st),
            decreases slen - pos,
        {
            if pos < slen {
                if st.stack[pos] == v {
                    break;
                }
                pos = pos + 1;
            } else {
                proof {
                    let k = choose|k: int|
                        0 <= k < st.stack@.len() && st.stack@[k] as int == v as int;
                    assert(st.stack@[k] != v && st.stack@[k] == v);
                }
                break;
            }
        }
        let mut cyc: Vec<usize> = Vec::new();
        let mut m: usize = pos;
        while m < slen
            invariant
                dfs_inv(g@, *st),
                *st == *old(st),
                slen == st.stack@.len(),
                0 <= pos <= m <= slen,
                st.stack@[pos as int] == v,
                pos < slen,
                cyc@ =~= st.stack@.subrange(pos as int, m as int),
            decreases slen - m,
        {
            let x = st.stack[m];
            cyc.push(x);
            m = m + 1;
        }
        proof {
            assert(cyc@ =~= st.stack@.subrange(pos as int, slen as int));
            assert(cyc@.len() >= 1);
            assert(cyc@[0] == v);
            assert(cyc@.last() == st.stack@.last());
            assert(edge(g@, cyc@[cyc@.len() - 1] as int, cyc@[0] as int));
            assert forall|k: int| 0 <= k < cyc@.len() - 1 implies edge(
                g@,
                #[trigger] cyc@[k] as int,
                cyc@[k + 1] as int,
            ) by {
                assert(cyc@[k] == st.stack@[pos + k]);
                assert(cyc@[k + 1] == st.stack@[pos + k + 1]);
            }
            assert(is_cycle_path(g@, cyc@));
        }
        return Some(cyc);
    }
    if st.visited[v] {
        return None;
    }

    st.visited.set(v, true);
    st.on_path.set(v, true);
    st.stack.push(v);
    let ghost mid = *st;
    proof {
        lemma_count_true_set(old(st).visited@, v as int);
        assert forall|i: int| 0 <= i < n && mid.on_path@[i] implies exists|k: int|
            0 <= k < mid.stack@.len() && mid.stack@[k] as int == i by {
            if i == v as int {
                assert(mid.stack@[mid.stack@.len() - 1] as int == i);
            } else {
                let k = choose|k: int|
                    0 <= k < old(st).stack@.len() && old(st).stack@[k] as int == i;
                assert(mid.stack@[k] as int == i);
            }
        }
        assert(dfs_inv(g@, mid));
    }

    let dep_count = g[v].deps.len();
    let mut k: usize = 0;
    while k < dep_count
        invariant
            dfs_inv(g@, *st),
            n == g@.len(),
            (v as int) < n,
            dep_count == g@[v as int].deps@.len(),
            0 <= k <= dep_count,
            st.on_path@ == mid.on_path@,
            st.stack@ == mid.stack@,
            mid.stack@.len() > 0,
            mid.stack@.last() == v,
            mid.visited@ == old(st).visited@.update(v as int, true),
            old(st).visited@.len() == n,
            !old(st).visited@[v as int],
            forall|i: int| 0 <= i < n && mid.visited@[i] ==> st.visited@[i],
            forall|i: int| mid.fin@.contains_key(i) ==> st.fin@.contains_key(i),
            forall|i: int| old(st).fin@.contains_key(i) ==> mid.fin@.contains_key(i),
            forall|m: int|
                0 <= m < k ==> st.fin@.contains_key(#[trigger] g@[v as int].deps@[m] as int),
        decreases dep_count - k,
    {
        let d = g[v].deps[k];
        proof {
            lemma_count_true_set(old(st).visited@, v as int);
            lemma_count_true_le(mid.visited@, st.visited@);
            lemma_count_true_bounds(st.visited@);
            lemma_count_true_bounds(old(st).visited@);
        }
        let res = dfs(g, d, st);
        if res.is_some() {
            return res;
        }
        k = k + 1;
    }

    st.on_path.set(v, false);
    let _popped = st.stack.pop();
    let ghost oldfin = st.fin@;
    let ghost oldnext = st.next_fin@;
    st.fin = Ghost(st.fin@.insert(v as int, st.next_fin@));
    st.next_fin = Ghost(st.next_fin@ + 1);
    proof {
        assert(st.on_path@ =~= old(st).on_path@);
        assert(st.stack@ =~= old(st).stack@);
        assert(!oldfin.contains_key(v as int));
        assert forall|k2: int| 0 <= k2 < st.stack@.len() implies (#[trigger] st.stack@[k2] as int)
            < n && st.on_path@[st.stack@[k2] as int] by {
            assert(st.stack@[k2] == mid.stack@[k2]);
            assert(mid.stack@[k2] != mid.stack@[mid.stack@.len() - 1]);
            assert(st.stack@[k2] != v);
        }
        assert forall|i: int| 0 <= i < n && st.on_path@[i] implies exists|k2: int|
            0 <= k2 < st.stack@.len() && st.stack@[k2] as int == i by {
            let k2 = choose|k2: int|
                0 <= k2 < mid.stack@.len() && mid.stack@[k2] as int == i;
            assert(mid.stack@[k2] as int == i);
            assert(i != v as int);
            assert(k2 < mid.stack@.len() - 1);
            assert(st.stack@[k2] as int == i);
        }
        assert forall|i: int, k2: int|
            st.fin@.contains_key(i) && 0 <= k2 < g@[i].deps@.len() implies st.fin@.contains_key(
            #[trigger] g@[i].deps@[k2] as int,
        ) && st.fin@[g@[i].deps@[k2] as int] < st.fin@[i] by {
            let d = g@[i].deps@[k2] as int;
            if i == v as int {
                assert(oldfin.contains_key(d));
                assert(d != v as int);
            } else {
                assert(oldfin.contains_key(i));
                assert(oldfin.contains_key(d));
                assert(d != v as int);
            }
        }
        assert forall|i: int| #[trigger] st.fin@.contains_key(i) implies 0 <= st.fin@[i]
            < st.next_fin@ by {
            if i != v as int {
                assert(oldfin.contains_key(i));
                assert(0 <= oldfin[i] < oldnext);
                assert(st.fin@[i] == oldfin[i]);
            } else {
                assert(st.fin@[i] == oldnext);
            }
            assert(st.next_fin@ == oldnext + 1);
        }
        assert(dfs_inv(g@, *st));
    }
    None
}

impl TaskGraph {
    /// Depth-first cycle detection. Returns the indices along a dependency
    /// cycle if one exists; a `None` answer certifies the graph acyclic.
    pub fn find_cycle(&self) -> (r: Option<Vec<usize>>)
        requires
            deps_in_range(self.nodes@),
        ensures
            r is None ==> acyclic(self.nodes@),
            r matches Some(p) ==> is_cycle_path(self.nodes@, p@),
    {
        let n = self.nodes.len();
        let mut visited: Vec<bool> = Vec::new();
        let mut on_path: Vec<bool> = Vec::new();
        let mut i: usize = 0;
        while i < n
            invariant
                0 <= i <= n,
                visited@.len() == i,
                on_path@.len() == i,
                forall|m: int| 0 <= m < i ==> !visited@[m] && !on_path@[m],
            decreases n - i,
        {
            visited.push(false);
            on_path.push(false);
            i = i + 1;
        }
        let mut st = DfsState {
            visited,
            on_path,
            stack: Vec::new(),
            fin: Ghost(Map::empty()),
            next_fin: Ghost(0),
        };
        assert(dfs_inv(self.nodes@, st));

        let mut v: usize = 0;
        while v < n
            invariant
                n == self.nodes@.len(),
                0 <= v <= n,
                dfs_inv(self.nodes@, st),
                st.stack@.len() == 0,
                forall|m: int| 0 <= m < v ==> st.fin@.contains_key(m),
            decreases n - v,
        {
            let r = dfs(&self.nodes, v, &mut st);
            if let Some(p) = r {
                return Some(p);
            }
            v = v + 1;
        }

        proof {
            let fin = st.fin@;
            let rank = Seq::new(n as nat, |i: int| fin[i]);
            assert(rank.len() == n);
            assert forall|i: int| 0 <= i < n implies 0 <= rank[i] by {
                assert(fin.contains_key(i));
            }
            assert forall|i: int, k: int|
                0 <= i < n && 0 <= k < self.nodes@[i].deps@.len() implies rank[#[trigger] self
                .nodes@[i].deps@[k] as int] < rank[i] by {
                assert(fin.contains_key(i));
                assert(fin.contains_key(self.nodes@[i].deps@[k] as int));
            }
            assert(rank_valid(self.nodes@, rank));
            assert(acyclic(self.nodes@));
        }
        None
    }
}

} // verus!
