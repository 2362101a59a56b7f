//! The engine's laws, stated over the executor's contracts: what every final
//! state table of `execute_all` satisfies. Each law takes the facts that
//! `execute_all` ensures as hypotheses, so callers discharge them directly
//! from its postconditions.

use vstd::prelude::*;
use crate::executor::{blocked_within, can_complete, completable, deps_completed,
    has_failed_ancestor, results_match};
use crate::graph::{deps_in_range, edge, is_cycle_path, rank_valid, TaskNode};
use crate::tasks::{TaskOutcome, TaskResult, TaskState};

verus! {

/// The final-state shape `execute_all` guarantees, gathered in one
/// predicate: no task is Running; a Completed task either started Completed
/// or succeeded with all dependencies Completed, and is completable from the
/// initial table; a Failed task started Pending, its body failed, and its
/// dependencies were Completed; a Pending task started Pending and still has
/// an unfinished dependency.
pub open spec fn run_settled(
    g: Seq<TaskNode>,
    init: Seq<TaskState>,
    oc: Seq<TaskOutcome>,
    fin: Seq<TaskState>,
) -> bool {
    &&& fin.len() == g.len()
    &&& init.len() == g.len()
    &&& oc.len() == g.len()
    &&& forall|j: int| 0 <= j < g.len() && init[j] is Completed ==> #[trigger] fin[j] is Completed
    &&& forall|j: int| 0 <= j < g.len() ==> !(#[trigger] fin[j] is Running)
    &&& forall|j: int|
        0 <= j < g.len() && #[trigger] fin[j] is Completed ==> (init[j] is Completed || (
        oc[j].success && deps_completed(g, fin, j)))
    &&& forall|j: int|
        0 <= j < g.len() && #[trigger] fin[j] is Completed ==> can_complete(g, init, oc, j)
    &&& forall|j: int|
        0 <= j < g.len() && #[trigger] fin[j] is Failed ==> (init[j] is Pending && !oc[j].success
            && deps_completed(g, fin, j))
    &&& forall|j: int|
        0 <= j < g.len() && #[trigger] fin[j] is Pending ==> (init[j] is Pending
            && !deps_completed(g, fin, j))
}

/// A dependency cycle defeats every rank certificate: a graph with a cycle
/// is not acyclic.
pub proof fn lemma_cycle_not_acyclic(g: Seq<TaskNode>, c: Seq<usize>)
    requires
        is_cycle_path(g, c),
    ensures
        !crate::graph::acyclic(g),
{
    if crate::graph::acyclic(g) {
        let rank = choose|rank: Seq<int>| rank_valid(g, rank);
        lemma_rank_descends(g, c, rank, c.len() - 1);
        assert(edge(g, c[c.len() - 1] as int, c[0] as int));
        let m = choose|m: int|
            0 <= m < g[c[c.len() - 1] as int].deps@.len() && #[trigger] g[c[c.len()
                - 1] as int].deps@[m] as int == c[0] as int;
        assert(rank[c[0] as int] < rank[c[c.len() - 1] as int]);
        assert(false);
    }
}

proof fn lemma_rank_descends(g: Seq<TaskNode>, c: Seq<usize>, rank: Seq<int>, k: int)
    requires
        is_cycle_path(g, c),
        rank_valid(g, rank),
        0 <= k < c.len(),
    ensures
        rank[c[k] as int] <= rank[c[0] as int] - k,
    decreases k,
{
    if k > 0 {
        lemma_rank_descends(g, c, rank, k - 1);
        assert(edge(g, c[k - 1] as int, c[k] as int));
        let m = choose|m: int|
            0 <= m < g[c[k - 1] as int].deps@.len() && #[trigger] g[c[k - 1] as int].deps@[m] as int
                == c[k] as int;
        assert(rank[c[k] as int] < rank[c[k - 1] as int]);
    }
}

proof fn lemma_completable_runs(
    g: Seq<TaskNode>,
    init: Seq<TaskState>,
    oc: Seq<TaskOutcome>,
    fin: Seq<TaskState>,
    i: int,
    fuel: nat,
)
    requires
        run_settled(g, init, oc, fin),
        deps_in_range(g),
        0 <= i < g.len(),
        completable(g, init, oc, i, fuel),
    ensures
        fin[i] is Completed,
    decreases fuel,
{
    if init[i] is Completed {
    } else {
        assert(oc[i].success && fuel > 0);
        assert forall|k: int| 0 <= k < g[i].deps@.len() implies fin[#[trigger] g[i].deps@[k] as int] is Completed by {
            lemma_completable_runs(g, init, oc, fin, g[i].deps@[k] as int, (fuel - 1) as nat);
        }
        assert(deps_completed(g, fin, i));
        if fin[i] is Pending {
            assert(false);
        }
        if fin[i] is Failed {
            assert(false);
        }
    }
}

/// The engine completes exactly what can complete: a task is Completed in
/// the final table if and only if it is completable from the initial table
/// and the outcomes. The final assignment is thus a deterministic function
/// of the graph and the individual task outcomes, independent of scheduling
/// order.
pub proof fn lemma_final_states_deterministic(
    g: Seq<TaskNode>,
    init: Seq<TaskState>,
    oc: Seq<TaskOutcome>,
    fin: Seq<TaskState>,
    i: int,
)
    requires
        run_settled(g, init, oc, fin),
        deps_in_range(g),
        0 <= i < g.len(),
    ensures
        fin[i] is Completed <==> can_complete(g, init, oc, i),
{
    if can_complete(g, init, oc, i) {
        let fuel = choose|fuel: nat| completable(g, init, oc, i, fuel);
        lemma_completable_runs(g, init, oc, fin, i, fuel);
    }
}

/// A task's final state is Failed exactly when it runs and fails: it starts
/// Pending, its dependencies can all complete, and its body fails.
pub proof fn lemma_failed_iff_task_fails(
    g: Seq<TaskNode>,
    init: Seq<TaskState>,
    oc: Seq<TaskOutcome>,
    fin: Seq<TaskState>,
    i: int,
)
    requires
        run_settled(g, init, oc, fin),
        deps_in_range(g),
        0 <= i < g.len(),
    ensures
        fin[i] is Failed <==> crate::executor::task_fails(g, init, oc, i),
{
    if fin[i] is Failed {
        assert forall|k: int| 0 <= k < g[i].deps@.len() implies can_complete(
            g,
            init,
            oc,
            #[trigger] g[i].deps@[k] as int,
        ) by {
            assert(fin[g[i].deps@[k] as int] is Completed);
        }
    }
    if crate::executor::task_fails(g, init, oc, i) {
        assert forall|k: int| 0 <= k < g[i].deps@.len() implies fin[#[trigger] g[i].deps@[k] as int]
            is Completed by {
            lemma_final_states_deterministic(g, init, oc, fin, g[i].deps@[k] as int);
        }
        assert(deps_completed(g, fin, i));
        if fin[i] is Pending {
            assert(false);
        }
        if fin[i] is Completed {
            let fuel = choose|fuel: nat| completable(g, init, oc, i, fuel);
            assert(completable(g, init, oc, i, fuel));
            assert(false);
        }
    }
}

/// A task's final state is Pending exactly when it can neither complete nor
/// run and fail.
pub proof fn lemma_pending_iff(
    g: Seq<TaskNode>,
    init: Seq<TaskState>,
    oc: Seq<TaskOutcome>,
    fin: Seq<TaskState>,
    i: int,
)
    requires
        run_settled(g, init, oc, fin),
        deps_in_range(g),
        0 <= i < g.len(),
    ensures
        fin[i] is Pending <==> (!can_complete(g, init, oc, i) && !crate::executor::task_fails(
            g,
            init,
            oc,
            i,
        )),
{
    lemma_final_states_deterministic(g, init, oc, fin, i);
    lemma_failed_iff_task_fails(g, init, oc, fin, i);
}

proof fn lemma_blocked_to_failure(
    g: Seq<TaskNode>,
    init: Seq<TaskState>,
    oc: Seq<TaskOutcome>,
    fin: Seq<TaskState>,
    i: int,
    fuel: nat,
)
    requires
        run_settled(g, init, oc, fin),
        deps_in_range(g),
        0 <= i < g.len(),
        blocked_within(g, fin, i, fuel),
    ensures
        crate::executor::failure_blocked(g, init, oc, i, fuel),
    decreases fuel,
{
    let k = choose|k: int|
        0 <= k < g[i].deps@.len() && (fin[#[trigger] g[i].deps@[k] as int] is Failed || (fuel > 0
            && blocked_within(g, fin, g[i].deps@[k] as int, (fuel - 1) as nat)));
    let d = g[i].deps@[k] as int;
    if fin[d] is Failed {
        lemma_failed_iff_task_fails(g, init, oc, fin, d);
    } else {
        lemma_blocked_to_failure(g, init, oc, fin, d, (fuel - 1) as nat);
    }
}

proof fn lemma_failure_to_blocked(
    g: Seq<TaskNode>,
    init: Seq<TaskState>,
    oc: Seq<TaskOutcome>,
    fin: Seq<TaskState>,
    i: int,
    fuel: nat,
)
    requires
        run_settled(g, init, oc, fin),
        deps_in_range(g),
        0 <= i < g.len(),
        crate::executor::failure_blocked(g, init, oc, i, fuel),
    ensures
        blocked_within(g, fin, i, fuel),
    decreases fuel,
{
    let k = choose|k: int|
        0 <= k < g[i].deps@.len() && (crate::executor::task_fails(
            g,
            init,
            oc,
            #[trigger] g[i].deps@[k] as int,
        ) || (fuel > 0 && crate::executor::failure_blocked(
            g,
            init,
            oc,
            g[i].deps@[k] as int,
            (fuel - 1) as nat,
        )));
    let d = g[i].deps@[k] as int;
    if crate::executor::task_fails(g, init, oc, d) {
        lemma_failed_iff_task_fails(g, init, oc, fin, d);
    } else {
        lemma_failure_to_blocked(g, init, oc, fin, d, (fuel - 1) as nat);
    }
}

/// A task has a failed ancestor in the final table exactly when some
/// transitive dependency runs and fails.
pub proof fn lemma_blocked_iff(
    g: Seq<TaskNode>,
    init: Seq<TaskState>,
    oc: Seq<TaskOutcome>,
    fin: Seq<TaskState>,
    i: int,
)
    requires
        run_settled(g, init, oc, fin),
        deps_in_range(g),
        0 <= i < g.len(),
    ensures
        has_failed_ancestor(g, fin, i) <==> crate::executor::blocked_by_failure(g, init, oc, i),
{
    if has_failed_ancestor(g, fin, i) {
        let fuel = choose|fuel: nat| blocked_within(g, fin, i, fuel);
        lemma_blocked_to_failure(g, init, oc, fin, i, fuel);
    }
    if crate::executor::blocked_by_failure(g, init, oc, i) {
        let fuel = choose|fuel: nat| crate::executor::failure_blocked(g, init, oc, i, fuel);
        lemma_failure_to_blocked(g, init, oc, fin, i, fuel);
    }
}

/// Cascading block: if a task failed, every transitive dependent that did
/// not start out Completed remains Pending at termination. The path walks
/// dependency edges from the dependent down to the failed task.
pub proof fn lemma_cascading_block(
    g: Seq<TaskNode>,
    init: Seq<TaskState>,
    oc: Seq<TaskOutcome>,
    fin: Seq<TaskState>,
    p: Seq<int>,
)
    requires
        run_settled(g, init, oc, fin),
        p.len() >= 2,
        forall|k: int| 0 <= k < p.len() ==> 0 <= #[trigger] p[k] < g.len(),
        forall|k: int| 0 <= k < p.len() - 1 ==> edge(g, #[trigger] p[k], p[k + 1]),
        forall|k: int| 0 <= k < p.len() - 1 ==> !(init[#[trigger] p[k]] is Completed),
        fin[p.last()] is Failed,
    ensures
        fin[p[0]] is Pending,
    decreases p.len(),
{
    let d = p[1];
    if p.len() == 2 {
        assert(!(fin[d] is Completed));
    } else {
        let q = p.subrange(1, p.len() as int);
        assert(q.last() == p.last());
        assert(forall|k: int| 0 <= k < q.len() - 1 ==> edge(g, #[trigger] q[k], q[k + 1]));
        lemma_cascading_block(g, init, oc, fin, q);
        assert(fin[d] is Pending);
    }
    // The first task's dependency `d` is not Completed, so the first task
    // can be neither Completed nor Failed, and it is never Running.
    assert(edge(g, p[0], d));
    let m = choose|m: int|
        0 <= m < g[p[0]].deps@.len() && #[trigger] g[p[0]].deps@[m] as int == d;
    if fin[p[0]] is Completed {
        assert(fin[d] is Completed);
    }
    if fin[p[0]] is Failed {
        assert(fin[d] is Completed);
    }
}

proof fn lemma_cycle_not_completable(
    g: Seq<TaskNode>,
    init: Seq<TaskState>,
    oc: Seq<TaskOutcome>,
    c: Seq<usize>,
    k: int,
    fuel: nat,
)
    requires
        is_cycle_path(g, c),
        forall|k2: int| 0 <= k2 < c.len() ==> init[#[trigger] c[k2] as int] is Pending,
        0 <= k < c.len(),
    ensures
        !completable(g, init, oc, c[k] as int, fuel),
    decreases fuel,
{
    let i = c[k] as int;
    assert(!(init[i] is Completed));
    if completable(g, init, oc, i, fuel) {
        let knext: int = if k < c.len() - 1 {
            k + 1
        } else {
            0
        };
        assert(edge(g, c[k] as int, c[knext] as int));
        let m = choose|m: int|
            0 <= m < g[i].deps@.len() && #[trigger] g[i].deps@[m] as int == c[knext] as int;
        assert(completable(g, init, oc, c[knext] as int, (fuel - 1) as nat));
        lemma_cycle_not_completable(g, init, oc, c, knext, (fuel - 1) as nat);
    }
}

proof fn lemma_no_failed_no_ancestor(
    g: Seq<TaskNode>,
    s: Seq<TaskState>,
    i: int,
    fuel: nat,
)
    requires
        deps_in_range(g),
        forall|j: int| 0 <= j < s.len() ==> !(#[trigger] s[j] is Failed),
        s.len() == g.len(),
        0 <= i < g.len(),
    ensures
        !blocked_within(g, s, i, fuel),
    decreases fuel,
{
    if blocked_within(g, s, i, fuel) {
        let k = choose|k: int|
            0 <= k < g[i].deps@.len() && (s[#[trigger] g[i].deps@[k] as int] is Failed || (fuel > 0
                && blocked_within(g, s, g[i].deps@[k] as int, (fuel - 1) as nat)));
        let d = g[i].deps@[k] as int;
        if !(s[d] is Failed) {
            lemma_no_failed_no_ancestor(g, s, d, (fuel - 1) as nat);
        }
    }
}

/// A cycle injected directly at the executor is detected: when a dependency
/// cycle of initially Pending tasks exists and every task body would
/// succeed, the run ends with some task Pending and no failed ancestor —
/// exactly the condition under which `execute_all` reports an engine fault
/// rather than returning a result list, and it never hangs, since the
/// executor always terminates.
pub proof fn lemma_injected_cycle_faults(
    g: Seq<TaskNode>,
    init: Seq<TaskState>,
    oc: Seq<TaskOutcome>,
    fin: Seq<TaskState>,
    c: Seq<usize>,
)
    requires
        run_settled(g, init, oc, fin),
        deps_in_range(g),
        is_cycle_path(g, c),
        forall|k: int| 0 <= k < c.len() ==> init[#[trigger] c[k] as int] is Pending,
        forall|j: int| 0 <= j < oc.len() ==> (#[trigger] oc[j]).success,
    ensures
        exists|i: int|
            0 <= i < g.len() && #[trigger] fin[i] is Pending && !has_failed_ancestor(g, fin, i),
{
    let i = c[0] as int;
    // Not Completed: a cycle member is never completable.
    if fin[i] is Completed {
        let fuel = choose|fuel: nat| completable(g, init, oc, i, fuel);
        lemma_cycle_not_completable(g, init, oc, c, 0, fuel);
    }
    // Not Failed: every outcome succeeds.
    assert(!(fin[i] is Failed));
    assert(fin[i] is Pending);
    // No failed ancestor: nothing failed at all.
    assert forall|j: int| 0 <= j < fin.len() implies !(#[trigger] fin[j] is Failed) by {}
    if has_failed_ancestor(g, fin, i) {
        let fuel = choose|fuel: nat| blocked_within(g, fin, i, fuel);
        lemma_no_failed_no_ancestor(g, fin, i, fuel);
    }
}

proof fn lemma_all_complete_by_rank(
    g: Seq<TaskNode>,
    init: Seq<TaskState>,
    oc: Seq<TaskOutcome>,
    fin: Seq<TaskState>,
    rank: Seq<int>,
    bound: int,
)
    requires
        run_settled(g, init, oc, fin),
        deps_in_range(g),
        rank_valid(g, rank),
        forall|j: int| 0 <= j < oc.len() ==> (#[trigger] oc[j]).success,
        0 <= bound,
    ensures
        forall|i: int| 0 <= i < g.len() && rank[i] < bound ==> #[trigger] fin[i] is Completed,
    decreases bound,
{
    if bound > 0 {
        lemma_all_complete_by_rank(g, init, oc, fin, rank, bound - 1);
        assert forall|i: int|
            0 <= i < g.len() && rank[i] < bound implies #[trigger] fin[i] is Completed by {
            if rank[i] < bound - 1 {
            } else {
                assert forall|k: int| 0 <= k < g[i].deps@.len() implies fin[#[trigger] g[i].deps@[k] as int] is Completed by {
                    assert(rank[g[i].deps@[k] as int] < rank[i]);
                }
                assert(deps_completed(g, fin, i));
                if fin[i] is Pending {
                    assert(false);
                }
                if fin[i] is Failed {
                    assert(false);
                }
            }
        }
    }
}

/// Resuming after a partial failure re-executes exactly the tasks the
/// checkpoint did not cover: on an acyclic graph where every body succeeds,
/// the result list holds precisely the initially Pending tasks — all tasks
/// minus the checkpointed completed ones — while the dependency semantics of
/// the remainder are those of `results_match`.
pub proof fn lemma_resume_exact(
    g: Seq<TaskNode>,
    init: Seq<TaskState>,
    oc: Seq<TaskOutcome>,
    fin: Seq<TaskState>,
    rs: Seq<TaskResult>,
    order: Seq<int>,
    rank: Seq<int>,
)
    requires
        run_settled(g, init, oc, fin),
        deps_in_range(g),
        results_match(g, init, fin, oc, rs, order),
        rank_valid(g, rank),
        forall|j: int| 0 <= j < oc.len() ==> (#[trigger] oc[j]).success,
    ensures
        forall|i: int| 0 <= i < g.len() ==> (order.contains(i) <==> init[i] is Pending),
{
    assert forall|i: int| 0 <= i < g.len() implies (order.contains(i) <==> init[i]
        is Pending) by {
        if order.contains(i) {
            let k = choose|k: int| 0 <= k < order.len() && order[k] == i;
            assert(init[order[k]] is Pending);
        }
        if init[i] is Pending {
            assert(rank[i] < rank[i] + 1);
            lemma_all_complete_by_rank(g, init, oc, fin, rank, rank[i] + 1);
            assert(fin[i] is Completed);
            assert(!(fin[i] is Pending));
        }
    }
}

} // verus!
