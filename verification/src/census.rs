//! What the status of a dataset counts: the snapshots it has, those that a plan
//! took of it, and those that the plan destroyed.
use vstd::prelude::*;

use crate::names::{increasing, lemma_lookup, lemma_put, lemma_with_name, lookup, names_of, with_name};
use crate::planner::{PlanModel, PruneActionModel, SnapshotActionModel};
use crate::status::{cache_fault, count_of, counted_reached, dataset_records, datasets_fault, listed_pool_records, minus, plus, pool_names, pool_records, pools_fault, reaches, recount, summary, sums_fault, tally, tally_pruned, tally_snapshots, tally_taken, total_managed, total_snapshots, CacheModel, Counts, DatasetStatusModel, PoolStatusModel, Tally, Timestamp};
use crate::text::{has_prefix, lemma_position, position};
use crate::zfs::{pool_of, InventoryModel, PoolModel, SnapshotModel};

verus! {

/// Whether a dataset lies below another.
pub open spec fn is_below(dataset: Seq<char>, above: Seq<char>) -> bool {
    &&& dataset.len() > above.len()
    &&& dataset.subrange(0, above.len() as int) == above
    &&& dataset[above.len() as int] == '/'
}

/// How many of the first `n` snapshots a dataset has.
pub open spec fn held(snapshots: Seq<SnapshotModel>, dataset: Seq<char>, n: int) -> nat
    decreases n,
{
    if n <= 0 {
        0
    } else {
        held(snapshots, dataset, n - 1) + if snapshots[n - 1].dataset == dataset {
            1nat
        } else {
            0nat
        }
    }
}

/// How many of them carry the mark of ownership.
pub open spec fn owned(snapshots: Seq<SnapshotModel>, dataset: Seq<char>, n: int) -> nat
    decreases n,
{
    if n <= 0 {
        0
    } else {
        owned(snapshots, dataset, n - 1) + if snapshots[n - 1].dataset == dataset
            && snapshots[n - 1].managed {
            1nat
        } else {
            0nat
        }
    }
}

/// How many snapshots of a dataset the first `n` actions take: those on the
/// dataset itself, and the recursive ones on a dataset above it.
pub open spec fn taken_of(actions: Seq<SnapshotActionModel>, dataset: Seq<char>, n: int) -> nat
    decreases n,
{
    if n <= 0 {
        0
    } else {
        let action = actions[n - 1];
        taken_of(actions, dataset, n - 1) + if action.dataset == dataset {
            action.names.len()
        } else if action.recursive && is_below(dataset, action.dataset) {
            action.names.len()
        } else {
            0
        }
    }
}

/// How many snapshots of a dataset the first `n` actions destroy.
pub open spec fn destroyed_of(actions: Seq<PruneActionModel>, dataset: Seq<char>, n: int) -> nat
    decreases n,
{
    if n <= 0 {
        0
    } else {
        destroyed_of(actions, dataset, n - 1) + if actions[n - 1].dataset == dataset {
            actions[n - 1].names.len()
        } else {
            0
        }
    }
}

/// What is left of a number when another is taken away, zero at the least.
pub open spec fn rest(number: int, less: int) -> int {
    if number > less {
        number - less
    } else {
        0
    }
}

/// Whether an inventory knows a dataset, by itself or by a snapshot of it.
pub open spec fn is_known(inventory: InventoryModel, dataset: Seq<char>) -> bool {
    inventory.datasets.contains(dataset) || exists|i: int|
        0 <= i < inventory.snapshots.len() && (#[trigger] inventory.snapshots[i]).dataset
            == dataset
}

// ---------------------------------------------------------------------------
// Counting
// ---------------------------------------------------------------------------

spec fn is_ordered(tally: Tally) -> bool {
    increasing(tally.names) && increasing(names_of(tally.counts))
}

proof fn lemma_held_bound(snapshots: Seq<SnapshotModel>, dataset: Seq<char>, n: int)
    requires
        0 <= n,
    ensures
        owned(snapshots, dataset, n) <= held(snapshots, dataset, n) <= n,
    decreases n,
{
    if n > 0 {
        lemma_held_bound(snapshots, dataset, n - 1);
    }
}

proof fn lemma_found(
    datasets: Seq<Seq<char>>,
    snapshots: Seq<SnapshotModel>,
    dataset: Seq<char>,
    n: int,
)
    requires
        increasing(datasets),
        0 <= n <= snapshots.len() <= usize::MAX,
    ensures
        ({
            let found = tally_snapshots(datasets, snapshots, n);
            &&& is_ordered(found)
            &&& count_of(found.counts, dataset).snapshots == held(snapshots, dataset, n)
            &&& count_of(found.counts, dataset).managed == owned(snapshots, dataset, n)
            &&& found.names.contains(dataset) <==> datasets.contains(dataset) || exists|i: int|
                0 <= i < n && (#[trigger] snapshots[i]).dataset == dataset
        }),
    decreases n,
{
    if n <= 0 {
        let none = Seq::<(Seq<char>, Counts)>::empty();
        assert(names_of(none) =~= Seq::<Seq<char>>::empty());
    } else {
        lemma_found(datasets, snapshots, dataset, n - 1);
        let earlier = tally_snapshots(datasets, snapshots, n - 1);
        let snapshot = snapshots[n - 1];
        lemma_held_bound(snapshots, dataset, n);
        lemma_with_name(earlier.names, snapshot.dataset);
        let before = count_of(earlier.counts, snapshot.dataset);
        let managed: usize = if snapshot.managed {
            1
        } else {
            0
        };
        lemma_put(
            earlier.counts,
            snapshot.dataset,
            Counts { snapshots: plus(before.snapshots, 1), managed: plus(before.managed, managed) },
            dataset,
        );
        assert(snapshots[n - 1].dataset == snapshot.dataset);
    }
}

proof fn lemma_reached(
    counts: Seq<(Seq<char>, Counts)>,
    action: SnapshotActionModel,
    names: Seq<Seq<char>>,
    n: int,
    dataset: Seq<char>,
)
    requires
        increasing(names_of(counts)),
        increasing(names),
        0 <= n <= names.len(),
        count_of(counts, dataset).snapshots + action.names.len() <= usize::MAX,
        count_of(counts, dataset).managed + action.names.len() <= usize::MAX,
    ensures
        ({
            let after = counted_reached(counts, action, names, n);
            let more = if names.take(n).contains(dataset) && (dataset == action.dataset || (
            action.recursive && is_below(dataset, action.dataset))) {
                action.names.len()
            } else {
                0
            };
            &&& increasing(names_of(after))
            &&& count_of(after, dataset).snapshots == count_of(counts, dataset).snapshots + more
            &&& count_of(after, dataset).managed == count_of(counts, dataset).managed + more
        }),
    decreases n,
{
    lemma_below(dataset, action.dataset);
    if n > 0 {
        lemma_reached(counts, action, names, n - 1, dataset);
        let earlier = counted_reached(counts, action, names, n - 1);
        let name = names[n - 1];
        assert(names.take(n) =~= names.take(n - 1).push(name));
        assert(names.take(n).contains(dataset) <==> names.take(n - 1).contains(dataset) || dataset
            == name) by {
            if names.take(n - 1).contains(dataset) {
                assert(names.take(n)[names.take(n - 1).index_of(dataset)] == dataset);
            }
            if dataset == name {
                assert(names.take(n)[n - 1] == dataset);
            }
            if names.take(n).contains(dataset) {
                let i = names.take(n).index_of(dataset);
                if i < n - 1 {
                    assert(names.take(n - 1)[i] == dataset);
                }
            }
        }
        if dataset == name && names.take(n - 1).contains(dataset) {
            let i = names.take(n - 1).index_of(dataset);
            assert(crate::text::text_lt(names[i], names[n - 1]));
            crate::text::lemma_lt_irreflexive(dataset);
        }
        if reaches(action, name) {
            let taken = action.names.len() as usize;
            let before = count_of(earlier, name);
            lemma_put(
                earlier,
                name,
                Counts {
                    snapshots: plus(before.snapshots, taken),
                    managed: plus(before.managed, taken),
                },
                dataset,
            );
        }
    }
}

pub proof fn lemma_below(dataset: Seq<char>, above: Seq<char>)
    ensures
        has_prefix(dataset, above + "/"@) <==> is_below(dataset, above),
{
    reveal_strlit("/");
    let prefix = above + "/"@;
    assert(prefix.len() == above.len() + 1 && prefix[above.len() as int] == '/');
    if has_prefix(dataset, prefix) {
        let start = dataset.take(prefix.len() as int);
        assert(start[above.len() as int] == '/');
        assert(dataset.subrange(0, above.len() as int) =~= above) by {
            assert forall|i: int| 0 <= i < above.len() implies dataset[i] == above[i] by {
                assert(start[i] == prefix[i]);
            }
        }
    }
    if is_below(dataset, above) {
        assert(dataset.take(prefix.len() as int) =~= prefix) by {
            assert forall|i: int| 0 <= i < prefix.len() implies dataset[i] == prefix[i] by {
                if i < above.len() {
                    assert(dataset.subrange(0, above.len() as int)[i] == above[i]);
                }
            }
        }
    }
}

proof fn lemma_taken(start: Tally, actions: Seq<SnapshotActionModel>, dataset: Seq<char>, n: int)
    requires
        is_ordered(start),
        start.names.contains(dataset),
        0 <= n <= actions.len(),
        count_of(start.counts, dataset).snapshots + taken_of(actions, dataset, n) <= usize::MAX,
        count_of(start.counts, dataset).managed + taken_of(actions, dataset, n) <= usize::MAX,
        forall|i: int|
            0 <= i < actions.len() ==> count_of(start.counts, dataset).snapshots + taken_of(
                actions,
                dataset,
                i,
            ) + (#[trigger] actions[i]).names.len() <= usize::MAX,
        forall|i: int|
            0 <= i < actions.len() ==> count_of(start.counts, dataset).managed + taken_of(
                actions,
                dataset,
                i,
            ) + (#[trigger] actions[i]).names.len() <= usize::MAX,
    ensures
        ({
            let after = tally_taken(start, actions, n);
            &&& is_ordered(after)
            &&& after.names.contains(dataset)
            &&& count_of(after.counts, dataset).snapshots == count_of(
                start.counts,
                dataset,
            ).snapshots + taken_of(actions, dataset, n)
            &&& count_of(after.counts, dataset).managed == count_of(start.counts, dataset).managed
                + taken_of(actions, dataset, n)
        }),
    decreases n,
{
    if n > 0 {
        lemma_taken(start, actions, dataset, n - 1);
        let earlier = tally_taken(start, actions, n - 1);
        let action = actions[n - 1];
        let names = with_name(earlier.names, action.dataset);
        lemma_with_name(earlier.names, action.dataset);
        assert(names.contains(dataset));
        assert(names.take(names.len() as int) =~= names);
        lemma_reached(earlier.counts, action, names, names.len() as int, dataset);
    }
}

proof fn lemma_destroyed(start: Tally, actions: Seq<PruneActionModel>, dataset: Seq<char>, n: int)
    requires
        is_ordered(start),
        0 <= n <= actions.len(),
        forall|i: int|
            0 <= i < actions.len() ==> (#[trigger] actions[i]).names.len() <= usize::MAX,
    ensures
        ({
            let after = tally_pruned(start, actions, n);
            let gone = destroyed_of(actions, dataset, n) as int;
            &&& is_ordered(after)
            &&& start.names.contains(dataset) ==> after.names.contains(dataset)
            &&& count_of(after.counts, dataset).snapshots == rest(
                count_of(start.counts, dataset).snapshots as int,
                gone,
            )
            &&& count_of(after.counts, dataset).managed == rest(
                count_of(start.counts, dataset).managed as int,
                gone,
            )
        }),
    decreases n,
{
    if n > 0 {
        lemma_destroyed(start, actions, dataset, n - 1);
        let earlier = tally_pruned(start, actions, n - 1);
        let action = actions[n - 1];
        let before = count_of(earlier.counts, action.dataset);
        let gone = action.names.len() as usize;
        assert(gone == actions[n - 1].names.len());
        lemma_with_name(earlier.names, action.dataset);
        lemma_put(
            earlier.counts,
            action.dataset,
            Counts {
                snapshots: minus(before.snapshots, gone),
                managed: minus(before.managed, gone),
            },
            dataset,
        );
    }
}

/// Whether nothing that is counted of a dataset is too large to count.
pub open spec fn is_countable(
    inventory: InventoryModel,
    plan: Option<PlanModel>,
    dataset: Seq<char>,
) -> bool {
    &&& inventory.snapshots.len() <= usize::MAX
    &&& plan matches Some(plan) ==> {
        &&& forall|i: int|
            0 <= i < plan.snapshots.len() ==> inventory.snapshots.len() + taken_of(
                plan.snapshots,
                dataset,
                i,
            ) + (#[trigger] plan.snapshots[i]).names.len() <= usize::MAX
        &&& forall|i: int|
            0 <= i < plan.prunes.len() ==> (#[trigger] plan.prunes[i]).names.len() <= usize::MAX
    }
}

/// The snapshots that a dataset has after a plan, if any, was carried out.
pub open spec fn expected(
    inventory: InventoryModel,
    plan: Option<PlanModel>,
    dataset: Seq<char>,
    found: nat,
) -> int {
    match plan {
        None => found as int,
        Some(plan) => rest(
            (found + taken_of(plan.snapshots, dataset, plan.snapshots.len() as int)) as int,
            destroyed_of(plan.prunes, dataset, plan.prunes.len() as int) as int,
        ),
    }
}

/// The status of a dataset that the inventory knows counts its snapshots in the
/// inventory, and with them the names of the snapshot actions on the dataset
/// itself and of the recursive ones on a dataset above it, less the names of the
/// prune actions on it. An action that is not recursive changes the count of no
/// other dataset. Of the managed ones it counts those that carry the mark.
pub proof fn law_status_counts_what_a_dataset_has(
    inventory: InventoryModel,
    scope_roots: Seq<Seq<char>>,
    scan_milliseconds: u128,
    generated_at: Timestamp,
    plan: Option<PlanModel>,
    dataset: Seq<char>,
)
    requires
        increasing(inventory.datasets),
        is_known(inventory, dataset),
        is_countable(inventory, plan, dataset),
    ensures
        ({
            let n = inventory.snapshots.len() as int;
            let status = summary(inventory, scope_roots, scan_milliseconds, generated_at, plan);
            &&& exists|i: int|
                0 <= i < status.datasets.len() && (#[trigger] status.datasets[i]).name == dataset
            &&& forall|i: int|
                0 <= i < status.datasets.len() && (#[trigger] status.datasets[i]).name == dataset
                    ==> {
                    &&& status.datasets[i].snapshots == expected(
                        inventory,
                        plan,
                        dataset,
                        held(inventory.snapshots, dataset, n),
                    )
                    &&& status.datasets[i].managed_snapshots == expected(
                        inventory,
                        plan,
                        dataset,
                        owned(inventory.snapshots, dataset, n),
                    )
                }
        }),
{
    let n = inventory.snapshots.len() as int;
    let found = tally_snapshots(inventory.datasets, inventory.snapshots, n);
    let status = summary(inventory, scope_roots, scan_milliseconds, generated_at, plan);
    let all = tally(inventory, plan);
    lemma_found(inventory.datasets, inventory.snapshots, dataset, n);
    lemma_held_bound(inventory.snapshots, dataset, n);
    assert(found.names.contains(dataset));
    if let Some(plan) = plan {
        let m = plan.snapshots.len() as int;
        let taken = tally_taken(found, plan.snapshots, m);
        if m > 0 {
            assert(inventory.snapshots.len() + taken_of(plan.snapshots, dataset, m - 1)
                + plan.snapshots[m - 1].names.len() <= usize::MAX);
        }
        lemma_taken(found, plan.snapshots, dataset, m);
        lemma_destroyed(taken, plan.prunes, dataset, plan.prunes.len() as int);
    }
    assert(all.names.contains(dataset));
    let at = all.names.index_of(dataset);
    assert(status.datasets == dataset_records(all));
    assert(status.datasets[at].name == dataset);
    assert(count_of(all.counts, dataset).snapshots == expected(
        inventory,
        plan,
        dataset,
        held(inventory.snapshots, dataset, n),
    ));
    assert(count_of(all.counts, dataset).managed == expected(
        inventory,
        plan,
        dataset,
        owned(inventory.snapshots, dataset, n),
    ));
}

/// What the status of a dataset says does not change with one more action that
/// leaves it alone: one on another dataset that is not recursive, or one that
/// is and that it does not lie below.
pub proof fn law_other_actions_leave_a_dataset_alone(
    inventory: InventoryModel,
    scope_roots: Seq<Seq<char>>,
    scan_milliseconds: u128,
    generated_at: Timestamp,
    plan: PlanModel,
    action: SnapshotActionModel,
    dataset: Seq<char>,
    i: int,
    j: int,
)
    requires
        increasing(inventory.datasets),
        is_known(inventory, dataset),
        is_countable(
            inventory,
            Some(PlanModel { snapshots: plan.snapshots.push(action), ..plan }),
            dataset,
        ),
        action.dataset != dataset,
        !action.recursive || !is_below(dataset, action.dataset),
        ({
            let before = summary(
                inventory,
                scope_roots,
                scan_milliseconds,
                generated_at,
                Some(plan),
            ).datasets;
            let after = summary(
                inventory,
                scope_roots,
                scan_milliseconds,
                generated_at,
                Some(PlanModel { snapshots: plan.snapshots.push(action), ..plan }),
            ).datasets;
            &&& 0 <= i < before.len() && before[i].name == dataset
            &&& 0 <= j < after.len() && after[j].name == dataset
        }),
    ensures
        summary(
            inventory,
            scope_roots,
            scan_milliseconds,
            generated_at,
            Some(plan),
        ).datasets[i] == summary(
            inventory,
            scope_roots,
            scan_milliseconds,
            generated_at,
            Some(PlanModel { snapshots: plan.snapshots.push(action), ..plan }),
        ).datasets[j],
{
    let more = PlanModel { snapshots: plan.snapshots.push(action), ..plan };
    let n = plan.snapshots.len() as int;
    lemma_taken_start(more.snapshots, plan.snapshots, dataset, n);
    assert forall|k: int| 0 <= k < n implies inventory.snapshots.len() + taken_of(
        plan.snapshots,
        dataset,
        k,
    ) + (#[trigger] plan.snapshots[k]).names.len() <= usize::MAX by {
        assert(more.snapshots[k] == plan.snapshots[k]);
        lemma_taken_start(more.snapshots, plan.snapshots, dataset, k);
    }
    assert(is_countable(inventory, Some(plan), dataset));
    law_status_counts_what_a_dataset_has(
        inventory,
        scope_roots,
        scan_milliseconds,
        generated_at,
        Some(plan),
        dataset,
    );
    law_status_counts_what_a_dataset_has(
        inventory,
        scope_roots,
        scan_milliseconds,
        generated_at,
        Some(more),
        dataset,
    );
    assert(taken_of(more.snapshots, dataset, n + 1) == taken_of(plan.snapshots, dataset, n));
}

proof fn lemma_taken_start(
    a: Seq<SnapshotActionModel>,
    b: Seq<SnapshotActionModel>,
    dataset: Seq<char>,
    n: int,
)
    requires
        n <= a.len(),
        n <= b.len(),
        forall|i: int| 0 <= i < n ==> a[i] == b[i],
    ensures
        taken_of(a, dataset, n) == taken_of(b, dataset, n),
    decreases n,
{
    if n > 0 {
        lemma_taken_start(a, b, dataset, n - 1);
    }
}

// ---------------------------------------------------------------------------
// Pools
// ---------------------------------------------------------------------------

/// The sums over the first `n` datasets of a pool: how many there are, their
/// snapshots, and those of them that are managed.
pub open spec fn sums(datasets: Seq<DatasetStatusModel>, pool: Seq<char>, n: int) -> (nat, nat, nat)
    decreases n,
{
    if n <= 0 {
        (0, 0, 0)
    } else {
        let (count, snapshots, managed) = sums(datasets, pool, n - 1);
        let last = datasets[n - 1];
        if last.pool == pool {
            (
                count + 1,
                snapshots + last.snapshots as nat,
                managed + last.managed_snapshots as nat,
            )
        } else {
            (count, snapshots, managed)
        }
    }
}

/// The sums over the first `n` datasets of all pools.
pub open spec fn grand_sums(datasets: Seq<DatasetStatusModel>, n: int) -> (nat, nat)
    decreases n,
{
    if n <= 0 {
        (0, 0)
    } else {
        let (snapshots, managed) = grand_sums(datasets, n - 1);
        (
            snapshots + datasets[n - 1].snapshots as nat,
            managed + datasets[n - 1].managed_snapshots as nat,
        )
    }
}

proof fn lemma_sums_bounded(datasets: Seq<DatasetStatusModel>, pool: Seq<char>, n: int)
    requires
        0 <= n <= datasets.len(),
    ensures
        sums(datasets, pool, n).0 <= n,
        sums(datasets, pool, n).1 <= grand_sums(datasets, n).0,
        sums(datasets, pool, n).2 <= grand_sums(datasets, n).1,
    decreases n,
{
    if n > 0 {
        lemma_sums_bounded(datasets, pool, n - 1);
    }
}

proof fn lemma_totals(datasets: Seq<DatasetStatusModel>, n: int)
    requires
        0 <= n <= datasets.len(),
        grand_sums(datasets, n).0 <= usize::MAX,
        grand_sums(datasets, n).1 <= usize::MAX,
    ensures
        total_snapshots(datasets, n) == grand_sums(datasets, n).0,
        total_managed(datasets, n) == grand_sums(datasets, n).1,
    decreases n,
{
    if n > 0 {
        lemma_totals(datasets, n - 1);
    }
}

proof fn lemma_recount(pool: PoolStatusModel, datasets: Seq<DatasetStatusModel>, n: int)
    requires
        0 <= n <= datasets.len() <= usize::MAX,
        grand_sums(datasets, n).0 <= usize::MAX,
        grand_sums(datasets, n).1 <= usize::MAX,
    ensures
        recount(pool, datasets, n).datasets == sums(datasets, pool.name, n).0,
        recount(pool, datasets, n).snapshots == sums(datasets, pool.name, n).1,
        recount(pool, datasets, n).managed_snapshots == sums(datasets, pool.name, n).2,
    decreases n,
{
    if n > 0 {
        lemma_recount(pool, datasets, n - 1);
        lemma_sums_bounded(datasets, pool.name, n);
        lemma_sums_bounded(datasets, pool.name, n - 1);
    }
}

proof fn lemma_no_sums_fault_at(
    pools: Seq<PoolStatusModel>,
    datasets: Seq<DatasetStatusModel>,
    from: int,
    i: int,
)
    requires
        0 <= from <= i < pools.len(),
        sums_fault(pools, datasets, from) is None,
    ensures
        pools[i] == recount(pools[i], datasets, datasets.len() as int),
    decreases i - from,
{
    if from < i {
        lemma_no_sums_fault_at(pools, datasets, from + 1, i);
    }
}

proof fn lemma_no_pool_fault_at(
    pools: Seq<PoolStatusModel>,
    from: int,
    seen: Seq<Seq<char>>,
    i: int,
)
    requires
        0 <= from <= i < pools.len(),
        increasing(seen),
        pools_fault(pools, from, seen) is None,
    ensures
        pools[i].name.len() > 0,
        !seen.contains(pools[i].name),
        forall|j: int| from <= j < i ==> (#[trigger] pools[j]).name != pools[i].name,
        pools[i].capacity_percent matches Some(capacity) ==> capacity <= 100,
        pools[i].managed_snapshots <= pools[i].snapshots,
    decreases i - from,
{
    if from < i {
        let more = with_name(seen, pools[from].name);
        lemma_with_name(seen, pools[from].name);
        lemma_no_pool_fault_at(pools, from + 1, more, i);
        assert(more.contains(pools[from].name));
    }
}

proof fn lemma_no_dataset_fault_at(
    datasets: Seq<DatasetStatusModel>,
    from: int,
    seen: Seq<Seq<char>>,
    pools: Seq<Seq<char>>,
    i: int,
)
    requires
        0 <= from <= i < datasets.len(),
        increasing(seen),
        datasets_fault(datasets, from, seen, pools) is None,
    ensures
        datasets[i].name.len() > 0,
        !seen.contains(datasets[i].name),
        forall|j: int| from <= j < i ==> (#[trigger] datasets[j]).name != datasets[i].name,
        pools.contains(datasets[i].pool),
        datasets[i].pool == pool_of(datasets[i].name),
        datasets[i].managed_snapshots <= datasets[i].snapshots,
    decreases i - from,
{
    if from < i {
        let more = with_name(seen, datasets[from].name);
        lemma_with_name(seen, datasets[from].name);
        lemma_no_dataset_fault_at(datasets, from + 1, more, pools, i);
        assert(more.contains(datasets[from].name));
    }
}

/// Whether the sums of a cache are small enough to count.
pub open spec fn has_countable_sums(cache: CacheModel) -> bool {
    let n = cache.datasets.len() as int;
    &&& cache.pools.len() <= usize::MAX
    &&& n <= usize::MAX
    &&& grand_sums(cache.datasets, n).0 <= usize::MAX
    &&& grand_sums(cache.datasets, n).1 <= usize::MAX
}

/// A valid status adds up: it has the one version there is, its totals are those
/// of its records, a pool counts what its datasets count together, no capacity is
/// above a hundred per cent, nothing has more managed snapshots than snapshots,
/// no name occurs twice, and every dataset is in its pool.
pub proof fn law_valid_status_adds_up(cache: CacheModel, i: int, j: int)
    requires
        cache_fault(cache) is None,
        has_countable_sums(cache),
    ensures
        ({
            let n = cache.datasets.len() as int;
            &&& cache.version == 1
            &&& cache.totals.pools == cache.pools.len()
            &&& cache.totals.datasets == n
            &&& cache.totals.snapshots == grand_sums(cache.datasets, n).0
            &&& cache.totals.managed_snapshots == grand_sums(cache.datasets, n).1
            &&& 0 <= i < cache.pools.len() ==> {
                let pool = cache.pools[i];
                &&& pool.name.len() > 0
                &&& pool.datasets == sums(cache.datasets, pool.name, n).0
                &&& pool.snapshots == sums(cache.datasets, pool.name, n).1
                &&& pool.managed_snapshots == sums(cache.datasets, pool.name, n).2
                &&& pool.managed_snapshots <= pool.snapshots
                &&& pool.capacity_percent matches Some(capacity) ==> capacity <= 100
                &&& forall|k: int| 0 <= k < i ==> (#[trigger] cache.pools[k]).name != pool.name
            }
            &&& 0 <= j < n ==> {
                let dataset = cache.datasets[j];
                &&& dataset.name.len() > 0
                &&& dataset.pool == dataset.name.take(position(dataset.name, '/'))
                &&& dataset.managed_snapshots <= dataset.snapshots
                &&& exists|k: int|
                    0 <= k < cache.pools.len() && (#[trigger] cache.pools[k]).name == dataset.pool
                &&& forall|k: int| 0 <= k < j ==> (#[trigger] cache.datasets[k]).name != dataset.name
            }
        }),
{
    let n = cache.datasets.len() as int;
    lemma_totals(cache.datasets, n);
    if 0 <= i < cache.pools.len() {
        lemma_no_sums_fault_at(cache.pools, cache.datasets, 0, i);
        lemma_no_pool_fault_at(cache.pools, 0, Seq::empty(), i);
        lemma_recount(cache.pools[i], cache.datasets, n);
    }
    if 0 <= j < n {
        let names = pool_names(cache.pools);
        lemma_no_dataset_fault_at(cache.datasets, 0, Seq::empty(), names, j);
        lemma_pool(cache.datasets[j].name);
        let k = names.index_of(cache.datasets[j].pool);
        assert(cache.pools[k].name == names[k]);
    }
}

/// The pool of a dataset is the part of its name before the first slash.
pub proof fn lemma_pool(dataset: Seq<char>)
    ensures
        pool_of(dataset) == dataset.take(position(dataset, '/')),
{
    lemma_position(dataset, '/');
    let p = position(dataset, '/');
    if p < dataset.len() {
        let rest = crate::text::split(dataset.skip(p + 1), '/');
        assert((seq![dataset.take(p)] + rest)[0] == dataset.take(p));
    } else {
        assert(dataset.take(p) =~= dataset);
    }
}

// ---------------------------------------------------------------------------
// What is listed
// ---------------------------------------------------------------------------

/// Whether a plan, if any, acts on a dataset.
pub open spec fn acts_on(plan: Option<PlanModel>, dataset: Seq<char>) -> bool {
    match plan {
        None => false,
        Some(plan) => {
            ||| exists|i: int|
                0 <= i < plan.snapshots.len() && (#[trigger] plan.snapshots[i]).dataset == dataset
            ||| exists|i: int|
                0 <= i < plan.prunes.len() && (#[trigger] plan.prunes[i]).dataset == dataset
        },
    }
}

proof fn lemma_names_taken(start: Tally, actions: Seq<SnapshotActionModel>, n: int, name: Seq<char>)
    requires
        increasing(start.names),
        0 <= n <= actions.len(),
    ensures
        increasing(tally_taken(start, actions, n).names),
        tally_taken(start, actions, n).names.contains(name) <==> start.names.contains(name)
            || exists|i: int| 0 <= i < n && (#[trigger] actions[i]).dataset == name,
    decreases n,
{
    if n > 0 {
        lemma_names_taken(start, actions, n - 1, name);
        lemma_with_name(tally_taken(start, actions, n - 1).names, actions[n - 1].dataset);
    }
}

proof fn lemma_names_pruned(start: Tally, actions: Seq<PruneActionModel>, n: int, name: Seq<char>)
    requires
        increasing(start.names),
        0 <= n <= actions.len(),
    ensures
        increasing(tally_pruned(start, actions, n).names),
        tally_pruned(start, actions, n).names.contains(name) <==> start.names.contains(name)
            || exists|i: int| 0 <= i < n && (#[trigger] actions[i]).dataset == name,
    decreases n,
{
    if n > 0 {
        lemma_names_pruned(start, actions, n - 1, name);
        lemma_with_name(tally_pruned(start, actions, n - 1).names, actions[n - 1].dataset);
    }
}

/// The status lists the datasets that the inventory knows and those that the
/// plan acts on, and no others.
pub proof fn law_status_lists_every_dataset(
    inventory: InventoryModel,
    scope_roots: Seq<Seq<char>>,
    scan_milliseconds: u128,
    generated_at: Timestamp,
    plan: Option<PlanModel>,
    dataset: Seq<char>,
)
    requires
        increasing(inventory.datasets),
        inventory.snapshots.len() <= usize::MAX,
    ensures
        ({
            let status = summary(inventory, scope_roots, scan_milliseconds, generated_at, plan);
            (exists|i: int|
                0 <= i < status.datasets.len() && (#[trigger] status.datasets[i]).name == dataset)
                <==> is_known(inventory, dataset) || acts_on(plan, dataset)
        }),
{
    let n = inventory.snapshots.len() as int;
    let found = tally_snapshots(inventory.datasets, inventory.snapshots, n);
    let status = summary(inventory, scope_roots, scan_milliseconds, generated_at, plan);
    let all = tally(inventory, plan);
    lemma_found(inventory.datasets, inventory.snapshots, dataset, n);
    if let Some(plan) = plan {
        let taken = tally_taken(found, plan.snapshots, plan.snapshots.len() as int);
        lemma_names_taken(found, plan.snapshots, plan.snapshots.len() as int, dataset);
        lemma_names_pruned(taken, plan.prunes, plan.prunes.len() as int, dataset);
    }
    assert(status.datasets == dataset_records(all));
    if all.names.contains(dataset) {
        let at = all.names.index_of(dataset);
        assert(status.datasets[at].name == dataset);
    }
    if exists|i: int|
        0 <= i < status.datasets.len() && (#[trigger] status.datasets[i]).name == dataset {
        let i = choose|i: int|
            0 <= i < status.datasets.len() && (#[trigger] status.datasets[i]).name == dataset;
        assert(all.names[i] == dataset);
        assert(all.names.contains(dataset));
    }
}

proof fn lemma_listed_pool(
    pools: Seq<(Seq<char>, PoolModel)>,
    n: int,
    i: int,
)
    requires
        0 <= i < n <= pools.len(),
        forall|k: int, l: int|
            0 <= k < l < pools.len() ==> (#[trigger] pools[k]).1.name != (#[trigger] pools[l]).1.name,
    ensures
        increasing(names_of(listed_pool_records(pools, n))),
        lookup(listed_pool_records(pools, n), pools[i].1.name) matches Some(record)
            && record.name == pools[i].1.name && record.capacity_percent == Some(
            pools[i].1.capacity_percent,
        ),
    decreases n,
{
    lemma_listed_in_order(pools, n - 1);
    let earlier = listed_pool_records(pools, n - 1);
    let last = pools[n - 1].1;
    lemma_put(
        earlier,
        last.name,
        crate::status::empty_pool(last.name, Some(last.capacity_percent)),
        pools[i].1.name,
    );
    if i < n - 1 {
        assert(pools[i].1.name != pools[n - 1].1.name);
        lemma_listed_pool(pools, n - 1, i);
    }
}

proof fn lemma_listed_in_order(pools: Seq<(Seq<char>, PoolModel)>, n: int)
    requires
        n <= pools.len(),
    ensures
        increasing(names_of(listed_pool_records(pools, n))),
    decreases n,
{
    if n > 0 {
        lemma_listed_in_order(pools, n - 1);
        let last = pools[n - 1].1;
        lemma_put(
            listed_pool_records(pools, n - 1),
            last.name,
            crate::status::empty_pool(last.name, Some(last.capacity_percent)),
            last.name,
        );
    } else {
        assert(names_of(Seq::<(Seq<char>, PoolStatusModel)>::empty()) =~= Seq::<
            Seq<char>,
        >::empty());
    }
}

proof fn lemma_record_kept(
    start: Seq<(Seq<char>, PoolStatusModel)>,
    datasets: Seq<DatasetStatusModel>,
    n: int,
    name: Seq<char>,
)
    requires
        0 <= n <= datasets.len(),
        increasing(names_of(start)),
        lookup(start, name) is Some,
    ensures
        increasing(names_of(pool_records(start, datasets, n))),
        lookup(pool_records(start, datasets, n), name) matches Some(record) && record.name
            == lookup(start, name)->0.name && record.capacity_percent == lookup(
            start,
            name,
        )->0.capacity_percent,
    decreases n,
{
    if n > 0 {
        lemma_record_kept(start, datasets, n - 1, name);
        let earlier = pool_records(start, datasets, n - 1);
        let dataset = datasets[n - 1];
        let pool = match lookup(earlier, dataset.pool) {
            Some(pool) => pool,
            None => crate::status::empty_pool(dataset.pool, None),
        };
        lemma_put(
            earlier,
            dataset.pool,
            crate::status::with_dataset(pool, dataset),
            name,
        );
    }
}

/// The status lists every pool of the inventory with its capacity.
pub proof fn law_status_tells_the_capacity_of_pools(
    inventory: InventoryModel,
    scope_roots: Seq<Seq<char>>,
    scan_milliseconds: u128,
    generated_at: Timestamp,
    plan: Option<PlanModel>,
    i: int,
)
    requires
        0 <= i < inventory.pools.len(),
        forall|k: int, l: int|
            0 <= k < l < inventory.pools.len() ==> (#[trigger] inventory.pools[k]).1.name != (
            #[trigger] inventory.pools[l]).1.name,
    ensures
        ({
            let status = summary(inventory, scope_roots, scan_milliseconds, generated_at, plan);
            exists|k: int|
                0 <= k < status.pools.len() && (#[trigger] status.pools[k]).name
                    == inventory.pools[i].1.name && status.pools[k].capacity_percent == Some(
                    inventory.pools[i].1.capacity_percent,
                )
        }),
{
    let status = summary(inventory, scope_roots, scan_milliseconds, generated_at, plan);
    let n = inventory.pools.len() as int;
    let name = inventory.pools[i].1.name;
    let start = listed_pool_records(inventory.pools, n);
    lemma_listed_pool(inventory.pools, n, i);
    lemma_record_kept(start, status.datasets, status.datasets.len() as int, name);
    let records = pool_records(start, status.datasets, status.datasets.len() as int);
    lemma_lookup(records, name);
    let k = names_of(records).index_of(name);
    assert(records[k].0 == name);
    assert(status.pools[k] == records[k].1);
}

} // verus!
