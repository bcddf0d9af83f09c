//! How a plan is divided among its pools, and how their results come together.
use vstd::prelude::*;

use crate::config::SettingsModel;
use crate::executor::{action_pools, merged, prunes_of_pool, snapshots_of_pool, threads, work_of, works, ResultModel};
use crate::names::increasing;
use crate::planner::{mentioned_pools, plan_pools, prunes_in, snapshots_in, PlanModel, PruneActionModel, SnapshotActionModel};
use crate::zfs::{lemma_name_set, name_set};

verus! {

// ---------------------------------------------------------------------------
// Work
// ---------------------------------------------------------------------------

proof fn lemma_snapshots_of_pool(actions: Seq<SnapshotActionModel>, pool: Seq<char>, n: int)
    requires
        0 <= n <= actions.len(),
    ensures
        snapshots_of_pool(actions, pool, n) == actions.take(n).filter(
            |action: SnapshotActionModel| action.pool == pool,
        ),
    decreases n,
{
    reveal(Seq::filter);
    let mine = |action: SnapshotActionModel| action.pool == pool;
    if n > 0 {
        lemma_snapshots_of_pool(actions, pool, n - 1);
        assert(actions.take(n).drop_last() =~= actions.take(n - 1));
        assert(actions.take(n).last() == actions[n - 1]);
        assert(mine(actions[n - 1]) <==> actions[n - 1].pool == pool);
    } else {
        assert(actions.take(0) =~= Seq::<SnapshotActionModel>::empty());
    }
}

proof fn lemma_prunes_of_pool(actions: Seq<PruneActionModel>, pool: Seq<char>, n: int)
    requires
        0 <= n <= actions.len(),
    ensures
        prunes_of_pool(actions, pool, n) == actions.take(n).filter(
            |action: PruneActionModel| action.pool == pool,
        ),
    decreases n,
{
    reveal(Seq::filter);
    let mine = |action: PruneActionModel| action.pool == pool;
    if n > 0 {
        lemma_prunes_of_pool(actions, pool, n - 1);
        assert(actions.take(n).drop_last() =~= actions.take(n - 1));
        assert(actions.take(n).last() == actions[n - 1]);
        assert(mine(actions[n - 1]) <==> actions[n - 1].pool == pool);
    } else {
        assert(actions.take(0) =~= Seq::<PruneActionModel>::empty());
    }
}

/// Whether some action of a plan is about a pool.
pub open spec fn has_work(plan: PlanModel, pool: Seq<char>) -> bool {
    ||| exists|i: int| 0 <= i < plan.snapshots.len() && (#[trigger] plan.snapshots[i]).pool == pool
    ||| exists|i: int| 0 <= i < plan.prunes.len() && (#[trigger] plan.prunes[i]).pool == pool
}

proof fn lemma_action_pools(plan: PlanModel, pool: Seq<char>)
    ensures
        action_pools(plan).contains(pool) <==> has_work(plan, pool),
{
    let all = action_pools(plan);
    let n = plan.snapshots.len();
    if all.contains(pool) {
        let i = all.index_of(pool);
        if i < n {
            assert(plan.snapshots[i].pool == pool);
        } else {
            assert(plan.prunes[i - n].pool == pool);
        }
    }
    if exists|i: int| 0 <= i < plan.snapshots.len() && (#[trigger] plan.snapshots[i]).pool == pool {
        let i = choose|i: int|
            0 <= i < plan.snapshots.len() && (#[trigger] plan.snapshots[i]).pool == pool;
        assert(all[i] == pool);
    }
    if exists|i: int| 0 <= i < plan.prunes.len() && (#[trigger] plan.prunes[i]).pool == pool {
        let i = choose|i: int|
            0 <= i < plan.prunes.len() && (#[trigger] plan.prunes[i]).pool == pool;
        assert(all[n + i] == pool);
    }
}

/// The work of a plan is divided by pool. Each pool with an action has one share,
/// in the order of their names, and a share holds the actions of its pool, all of
/// them and no others, in the order of the plan.
pub proof fn law_work_is_divided_by_pool(plan: PlanModel, pool: Seq<char>)
    ensures
        forall|i: int|
            0 <= i < works(plan).len() ==> {
                let work = #[trigger] works(plan)[i];
                &&& work.snapshots == plan.snapshots.filter(
                    |action: SnapshotActionModel| action.pool == work.pool,
                )
                &&& work.prunes == plan.prunes.filter(
                    |action: PruneActionModel| action.pool == work.pool,
                )
            },
        increasing(works(plan).map_values(|work: crate::executor::WorkModel| work.pool)),
        (exists|i: int| 0 <= i < works(plan).len() && (#[trigger] works(plan)[i]).pool == pool)
            <==> has_work(plan, pool),
{
    let all = action_pools(plan);
    let n = all.len() as int;
    let pools = name_set(all, n);
    lemma_name_set(all, n);
    lemma_action_pools(plan, pool);
    assert(all.take(n) =~= all);
    assert forall|i: int| 0 <= i < works(plan).len() implies {
        let work = #[trigger] works(plan)[i];
        &&& work.snapshots == plan.snapshots.filter(
            |action: SnapshotActionModel| action.pool == work.pool,
        )
        &&& work.prunes == plan.prunes.filter(
            |action: PruneActionModel| action.pool == work.pool,
        )
    } by {
        assert(works(plan)[i] == work_of(plan, pools[i]));
        lemma_snapshots_of_pool(plan.snapshots, pools[i], plan.snapshots.len() as int);
        lemma_prunes_of_pool(plan.prunes, pools[i], plan.prunes.len() as int);
        assert(plan.snapshots.take(plan.snapshots.len() as int) =~= plan.snapshots);
        assert(plan.prunes.take(plan.prunes.len() as int) =~= plan.prunes);
    }
    assert(works(plan).map_values(|work: crate::executor::WorkModel| work.pool) =~= pools);
    if pools.contains(pool) {
        let i = pools.index_of(pool);
        assert(works(plan)[i].pool == pool);
    }
    if exists|i: int| 0 <= i < works(plan).len() && (#[trigger] works(plan)[i]).pool == pool {
        let i = choose|i: int| 0 <= i < works(plan).len() && (#[trigger] works(plan)[i]).pool == pool;
        assert(pools[i] == pool);
        assert(pools.contains(pool));
    }
}

/// As many pools run at once as there are, unless the settings allow fewer; zero
/// allows any number. There is always one.
pub proof fn law_threads_are_bounded(settings: SettingsModel, pools: nat)
    ensures
        1 <= threads(settings, pools),
        pools > 0 ==> threads(settings, pools) <= pools,
        settings.max_parallel_pools > 0 ==> threads(settings, pools)
            <= settings.max_parallel_pools,
        settings.max_parallel_pools == 0 && pools > 0 ==> threads(settings, pools) == pools,
        0 < settings.max_parallel_pools <= pools ==> threads(settings, pools)
            == settings.max_parallel_pools,
        pools <= settings.max_parallel_pools && pools > 0 ==> threads(settings, pools) == pools,
{
}

// ---------------------------------------------------------------------------
// Results
// ---------------------------------------------------------------------------

proof fn lemma_merged_start(a: Seq<ResultModel>, b: Seq<ResultModel>, dry_run: bool, n: int)
    requires
        n <= a.len(),
        n <= b.len(),
        forall|i: int| 0 <= i < n ==> a[i] == b[i],
    ensures
        merged(a, dry_run, n) == merged(b, dry_run, n),
    decreases n,
{
    if n > 0 {
        lemma_merged_start(a, b, dry_run, n - 1);
    }
}

/// A report loses nothing: one more result adds its counts, its errors and its
/// log to what the report holds already, each to its own. A report of nothing
/// holds nothing.
pub proof fn law_reports_lose_nothing(
    results: Seq<ResultModel>,
    result: ResultModel,
    dry_run: bool,
)
    ensures
        ({
            let n = results.len() as int;
            let before = merged(results, dry_run, n);
            let after = merged(results.push(result), dry_run, n + 1);
            &&& after.dry_run == dry_run
            &&& after.snapshots_created - before.snapshots_created == result.snapshots_created
            &&& after.snapshots_pruned - before.snapshots_pruned == result.snapshots_pruned
            &&& after.prunes_skipped_after_snapshot_failure
                - before.prunes_skipped_after_snapshot_failure == result.prunes_skipped
            &&& after.errors == before.errors + result.errors
            &&& after.logs == before.logs + result.logs
        }),
        ({
            let nothing = merged(Seq::empty(), dry_run, 0);
            &&& nothing.snapshots_created == 0
            &&& nothing.snapshots_pruned == 0
            &&& nothing.prunes_skipped_after_snapshot_failure == 0
            &&& nothing.errors.len() == 0
            &&& nothing.logs.len() == 0
        }),
{
    lemma_merged_start(results.push(result), results, dry_run, results.len() as int);
}

// ---------------------------------------------------------------------------
// Counts of a plan
// ---------------------------------------------------------------------------

proof fn lemma_snapshots_start(
    a: Seq<SnapshotActionModel>,
    b: Seq<SnapshotActionModel>,
    n: int,
)
    requires
        n <= a.len(),
        n <= b.len(),
        forall|i: int| 0 <= i < n ==> a[i] == b[i],
    ensures
        snapshots_in(a, n) == snapshots_in(b, n),
    decreases n,
{
    if n > 0 {
        lemma_snapshots_start(a, b, n - 1);
    }
}

proof fn lemma_prunes_start(a: Seq<PruneActionModel>, b: Seq<PruneActionModel>, n: int)
    requires
        n <= a.len(),
        n <= b.len(),
        forall|i: int| 0 <= i < n ==> a[i] == b[i],
    ensures
        prunes_in(a, n) == prunes_in(b, n),
    decreases n,
{
    if n > 0 {
        lemma_prunes_start(a, b, n - 1);
    }
}

/// The counts of a plan are those of its names: one more action adds as many as
/// it has.
pub proof fn law_counts_are_of_names(
    snapshots: Seq<SnapshotActionModel>,
    taken: SnapshotActionModel,
    prunes: Seq<PruneActionModel>,
    pruned: PruneActionModel,
)
    ensures
        snapshots_in(snapshots.push(taken), snapshots.len() as int + 1) == snapshots_in(
            snapshots,
            snapshots.len() as int,
        ) + taken.names.len(),
        prunes_in(prunes.push(pruned), prunes.len() as int + 1) == prunes_in(
            prunes,
            prunes.len() as int,
        ) + pruned.names.len(),
        snapshots_in(Seq::empty(), 0) == 0,
        prunes_in(Seq::empty(), 0) == 0,
{
    lemma_snapshots_start(snapshots.push(taken), snapshots, snapshots.len() as int);
    lemma_prunes_start(prunes.push(pruned), prunes, prunes.len() as int);
}

/// The pools of a plan are those of its actions and of the snapshots it reports
/// as protected, in the order of their names and each once.
pub proof fn law_pools_of_a_plan(plan: PlanModel, pool: Seq<char>)
    ensures
        increasing(plan_pools(plan)),
        plan_pools(plan).contains(pool) <==> has_work(plan, pool) || exists|i: int|
            0 <= i < plan.protected_snapshots.len() && (
            #[trigger] plan.protected_snapshots[i]).pool == pool,
{
    let all = mentioned_pools(plan);
    let n = all.len() as int;
    lemma_name_set(all, n);
    assert(all.take(n) =~= all);
    let a = plan.snapshots.len();
    let b = plan.prunes.len();
    if all.contains(pool) {
        let i = all.index_of(pool);
        if i < a {
            assert(plan.snapshots[i].pool == pool);
        } else if i < a + b {
            assert(plan.prunes[i - a].pool == pool);
        } else {
            assert(plan.protected_snapshots[i - a - b].pool == pool);
        }
    }
    if exists|i: int| 0 <= i < plan.snapshots.len() && (#[trigger] plan.snapshots[i]).pool == pool {
        let i = choose|i: int|
            0 <= i < plan.snapshots.len() && (#[trigger] plan.snapshots[i]).pool == pool;
        assert(all[i] == pool);
    }
    if exists|i: int| 0 <= i < plan.prunes.len() && (#[trigger] plan.prunes[i]).pool == pool {
        let i = choose|i: int|
            0 <= i < plan.prunes.len() && (#[trigger] plan.prunes[i]).pool == pool;
        assert(all[a + i] == pool);
    }
    if exists|i: int|
        0 <= i < plan.protected_snapshots.len() && (#[trigger] plan.protected_snapshots[i]).pool
            == pool {
        let i = choose|i: int|
            0 <= i < plan.protected_snapshots.len() && (
            #[trigger] plan.protected_snapshots[i]).pool == pool;
        assert(all[a + b + i] == pool);
    }
}

} // verus!
