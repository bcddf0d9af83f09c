//! What a plan holds of each dataset: a class is taken when its latest
//! schedule point has no snapshot yet.
use vstd::prelude::*;

use crate::config::ConfigModel;
use crate::model::{all_kinds, SnapshotKind};
use crate::naming::kind_of;
use crate::planner::{dataset_step, due_from, empty_plan, newest, of_dataset, plan_from, planned, protected_of_kind, protected_until, PlanModel, ProtectedModel, ProtectedSnapshot, PruneAction, PruneActionModel, ResolvedModel, SnapshotAction, SnapshotActionModel};
use crate::policy::{schedule_fault, PolicyModel};
use crate::recognition::{names_differ, place};
use crate::schedule::{is_due, last_due, plannable, ZoneModel};
use crate::sort::lemma_sorted_members;
use crate::timing::{is_latest_point, is_steady, law_due_at_the_latest_schedule_point};
use crate::zfs::{InventoryModel, SnapshotModel};

verus! {

// ---------------------------------------------------------------------------
// The share of a dataset
// ---------------------------------------------------------------------------

/// What a dataset adds to a plan.
pub open spec fn share(
    zone: ZoneModel,
    prefix: Seq<char>,
    inventory: InventoryModel,
    dataset: ResolvedModel,
    now: int,
) -> Result<PlanModel, Seq<char>> {
    dataset_step(zone, prefix, inventory, dataset, now, empty_plan())
}

proof fn lemma_share(
    zone: ZoneModel,
    prefix: Seq<char>,
    inventory: InventoryModel,
    dataset: ResolvedModel,
    now: int,
    plan: PlanModel,
)
    requires
        dataset_step(zone, prefix, inventory, dataset, now, plan) is Ok,
    ensures
        ({
            let after = dataset_step(zone, prefix, inventory, dataset, now, plan)->Ok_0;
            let added = share(zone, prefix, inventory, dataset, now);
            &&& added is Ok
            &&& after.snapshots == plan.snapshots + added->Ok_0.snapshots
            &&& after.prunes == plan.prunes + added->Ok_0.prunes
            &&& after.deferred_prune_datasets == plan.deferred_prune_datasets
                + added->Ok_0.deferred_prune_datasets
            &&& after.protected_snapshots == plan.protected_snapshots
                + added->Ok_0.protected_snapshots
        }),
{
    let after = dataset_step(zone, prefix, inventory, dataset, now, plan)->Ok_0;
    let added = share(zone, prefix, inventory, dataset, now)->Ok_0;
    assert(after.snapshots =~= plan.snapshots + added.snapshots);
    assert(after.prunes =~= plan.prunes + added.prunes);
    assert(after.deferred_prune_datasets =~= plan.deferred_prune_datasets
        + added.deferred_prune_datasets);
    assert(after.protected_snapshots =~= plan.protected_snapshots + added.protected_snapshots);
}

proof fn lemma_either<A>(a: Seq<A>, b: Seq<A>, x: A)
    ensures
        (a + b).contains(x) <==> a.contains(x) || b.contains(x),
{
    if a.contains(x) {
        assert((a + b)[a.index_of(x)] == x);
    }
    if b.contains(x) {
        assert((a + b)[a.len() + b.index_of(x)] == x);
    }
    if (a + b).contains(x) {
        let i = (a + b).index_of(x);
        if i < a.len() {
            assert(a[i] == x);
        } else {
            assert(b[i - a.len()] == x);
        }
    }
}

/// The raw plan holds the share of every dataset from `i` on.
proof fn lemma_holds_share(
    zone: ZoneModel,
    prefix: Seq<char>,
    inventory: InventoryModel,
    datasets: Seq<ResolvedModel>,
    now: int,
    i: int,
    plan: PlanModel,
    d: int,
)
    requires
        0 <= i <= d < datasets.len(),
        plan_from(zone, prefix, inventory, datasets, now, i, plan) is Ok,
    ensures
        ({
            let all = plan_from(zone, prefix, inventory, datasets, now, i, plan)->Ok_0;
            let added = share(zone, prefix, inventory, datasets[d], now);
            &&& added is Ok
            &&& forall|x: SnapshotActionModel|
                added->Ok_0.snapshots.contains(x) ==> #[trigger] all.snapshots.contains(x)
            &&& forall|x: PruneActionModel|
                added->Ok_0.prunes.contains(x) ==> #[trigger] all.prunes.contains(x)
            &&& forall|x: Seq<char>|
                added->Ok_0.deferred_prune_datasets.contains(x)
                    ==> #[trigger] all.deferred_prune_datasets.contains(x)
            &&& forall|x: ProtectedModel|
                added->Ok_0.protected_snapshots.contains(x)
                    ==> #[trigger] all.protected_snapshots.contains(x)
        }),
    decreases d - i,
{
    let after = dataset_step(zone, prefix, inventory, datasets[i], now, plan)->Ok_0;
    if i < d {
        lemma_holds_share(zone, prefix, inventory, datasets, now, i + 1, after, d);
    } else {
        lemma_share(zone, prefix, inventory, datasets[i], now, plan);
        let added = share(zone, prefix, inventory, datasets[i], now)->Ok_0;
        lemma_keeps(zone, prefix, inventory, datasets, now, i + 1, after);
        assert forall|x: SnapshotActionModel| added.snapshots.contains(
            x,
        ) implies after.snapshots.contains(x) by {
            lemma_either(plan.snapshots, added.snapshots, x);
        }
        assert forall|x: PruneActionModel| added.prunes.contains(
            x,
        ) implies after.prunes.contains(x) by {
            lemma_either(plan.prunes, added.prunes, x);
        }
        assert forall|x: Seq<char>| added.deferred_prune_datasets.contains(
            x,
        ) implies after.deferred_prune_datasets.contains(x) by {
            lemma_either(plan.deferred_prune_datasets, added.deferred_prune_datasets, x);
        }
        assert forall|x: ProtectedModel| added.protected_snapshots.contains(
            x,
        ) implies after.protected_snapshots.contains(x) by {
            lemma_either(plan.protected_snapshots, added.protected_snapshots, x);
        }
    }
}

/// What a plan has, it keeps.
proof fn lemma_keeps(
    zone: ZoneModel,
    prefix: Seq<char>,
    inventory: InventoryModel,
    datasets: Seq<ResolvedModel>,
    now: int,
    i: int,
    plan: PlanModel,
)
    requires
        plan_from(zone, prefix, inventory, datasets, now, i, plan) is Ok,
    ensures
        ({
            let all = plan_from(zone, prefix, inventory, datasets, now, i, plan)->Ok_0;
            &&& forall|x: SnapshotActionModel|
                plan.snapshots.contains(x) ==> #[trigger] all.snapshots.contains(x)
            &&& forall|x: PruneActionModel|
                plan.prunes.contains(x) ==> #[trigger] all.prunes.contains(x)
            &&& forall|x: Seq<char>|
                plan.deferred_prune_datasets.contains(x)
                    ==> #[trigger] all.deferred_prune_datasets.contains(x)
            &&& forall|x: ProtectedModel|
                plan.protected_snapshots.contains(x)
                    ==> #[trigger] all.protected_snapshots.contains(x)
        }),
    decreases datasets.len() - i,
{
    if i < datasets.len() {
        let after = dataset_step(zone, prefix, inventory, datasets[i], now, plan)->Ok_0;
        let added = share(zone, prefix, inventory, datasets[i], now)->Ok_0;
        lemma_share(zone, prefix, inventory, datasets[i], now, plan);
        lemma_keeps(zone, prefix, inventory, datasets, now, i + 1, after);
        assert forall|x: SnapshotActionModel| plan.snapshots.contains(
            x,
        ) implies after.snapshots.contains(x) by {
            lemma_either(plan.snapshots, added.snapshots, x);
        }
        assert forall|x: PruneActionModel| plan.prunes.contains(
            x,
        ) implies after.prunes.contains(x) by {
            lemma_either(plan.prunes, added.prunes, x);
        }
        assert forall|x: Seq<char>| plan.deferred_prune_datasets.contains(
            x,
        ) implies after.deferred_prune_datasets.contains(x) by {
            lemma_either(plan.deferred_prune_datasets, added.deferred_prune_datasets, x);
        }
        assert forall|x: ProtectedModel| plan.protected_snapshots.contains(
            x,
        ) implies after.protected_snapshots.contains(x) by {
            lemma_either(plan.protected_snapshots, added.protected_snapshots, x);
        }
    }
}

/// Whether a part of the shares from dataset `i` on holds something.
spec fn some_share(
    zone: ZoneModel,
    prefix: Seq<char>,
    inventory: InventoryModel,
    datasets: Seq<ResolvedModel>,
    now: int,
    i: int,
    holds: spec_fn(PlanModel) -> bool,
) -> bool {
    exists|d: int|
        i <= d < datasets.len() && holds(
            share(zone, prefix, inventory, #[trigger] datasets[d], now)->Ok_0,
        )
}

/// What a raw plan holds it had, or some share gives.
proof fn lemma_comes_from_share(
    zone: ZoneModel,
    prefix: Seq<char>,
    inventory: InventoryModel,
    datasets: Seq<ResolvedModel>,
    now: int,
    i: int,
    plan: PlanModel,
    holds: spec_fn(PlanModel) -> bool,
)
    requires
        0 <= i,
        plan_from(zone, prefix, inventory, datasets, now, i, plan) is Ok,
        forall|before: PlanModel, dataset: ResolvedModel|
            dataset_step(zone, prefix, inventory, dataset, now, before) is Ok && #[trigger] holds(
                dataset_step(zone, prefix, inventory, dataset, now, before)->Ok_0,
            ) ==> holds(before) || holds(share(zone, prefix, inventory, dataset, now)->Ok_0),
        holds(plan_from(zone, prefix, inventory, datasets, now, i, plan)->Ok_0),
    ensures
        holds(plan) || some_share(zone, prefix, inventory, datasets, now, i, holds),
    decreases datasets.len() - i,
{
    if i < datasets.len() {
        let after = dataset_step(zone, prefix, inventory, datasets[i], now, plan)->Ok_0;
        lemma_comes_from_share(zone, prefix, inventory, datasets, now, i + 1, after, holds);
        if holds(after) {
            assert(holds(plan) || holds(
                share(zone, prefix, inventory, datasets[i], now)->Ok_0,
            ));
        } else {
            let d = choose|d: int|
                i + 1 <= d < datasets.len() && holds(
                    share(zone, prefix, inventory, #[trigger] datasets[d], now)->Ok_0,
                );
            assert(holds(share(zone, prefix, inventory, datasets[d], now)->Ok_0));
        }
    }
}

/// A share is about its own dataset.
proof fn lemma_share_is_own(
    zone: ZoneModel,
    prefix: Seq<char>,
    inventory: InventoryModel,
    dataset: ResolvedModel,
    now: int,
)
    requires
        share(zone, prefix, inventory, dataset, now) is Ok,
    ensures
        ({
            let added = share(zone, prefix, inventory, dataset, now)->Ok_0;
            &&& forall|x: SnapshotActionModel| #[trigger]
                added.snapshots.contains(x) ==> x.dataset == dataset.name
            &&& forall|x: PruneActionModel| #[trigger]
                added.prunes.contains(x) ==> x.dataset == dataset.name
            &&& forall|x: Seq<char>| #[trigger]
                added.deferred_prune_datasets.contains(x) ==> x == dataset.name
            &&& forall|x: ProtectedModel| #[trigger]
                added.protected_snapshots.contains(x) ==> x.dataset == dataset.name
        }),
{
    let snapshots = of_dataset(
        inventory.snapshots,
        dataset.name,
        inventory.snapshots.len() as int,
    );
    lemma_protected_is_own(dataset, prefix, snapshots, all_kinds().len() as int);
    let found = protected_until(dataset, prefix, snapshots, all_kinds().len() as int);
    let added = share(zone, prefix, inventory, dataset, now)->Ok_0;
    assert forall|x: ProtectedModel| #[trigger]
        added.protected_snapshots.contains(x) implies x.dataset == dataset.name by {
        assert(empty_plan().protected_snapshots + found =~= found);
    }
}

proof fn lemma_protected_is_own(
    dataset: ResolvedModel,
    prefix: Seq<char>,
    snapshots: Seq<SnapshotModel>,
    i: int,
)
    ensures
        forall|x: ProtectedModel| #[trigger]
            protected_until(dataset, prefix, snapshots, i).contains(x) ==> x.dataset
                == dataset.name,
    decreases i,
{
    if i > 0 {
        let kind = all_kinds()[i - 1];
        let n = snapshots.len() as int;
        lemma_protected_is_own(dataset, prefix, snapshots, i - 1);
        lemma_protected_class_is_own(dataset, prefix, kind, snapshots, n);
        assert forall|x: ProtectedModel| #[trigger]
            protected_until(dataset, prefix, snapshots, i).contains(x) implies x.dataset
            == dataset.name by {
            lemma_either(
                protected_until(dataset, prefix, snapshots, i - 1),
                protected_of_kind(dataset, prefix, kind, snapshots, n),
                x,
            );
        }
    }
}

proof fn lemma_protected_class_is_own(
    dataset: ResolvedModel,
    prefix: Seq<char>,
    kind: SnapshotKind,
    snapshots: Seq<SnapshotModel>,
    n: int,
)
    ensures
        forall|x: ProtectedModel| #[trigger]
            protected_of_kind(dataset, prefix, kind, snapshots, n).contains(x) ==> x.dataset
                == dataset.name,
    decreases n,
{
    if n > 0 {
        lemma_protected_class_is_own(dataset, prefix, kind, snapshots, n - 1);
        let earlier = protected_of_kind(dataset, prefix, kind, snapshots, n - 1);
        let found = protected_of_kind(dataset, prefix, kind, snapshots, n);
        assert forall|x: ProtectedModel| #[trigger] found.contains(x) implies x.dataset
            == dataset.name by {
            let i = found.index_of(x);
            if i < earlier.len() {
                assert(earlier[i] == x);
                assert(earlier.contains(x));
            }
        }
    }
}

/// A plan holds of a dataset what its share is.
pub proof fn lemma_plan_holds_shares(
    zone: ZoneModel,
    config: ConfigModel,
    inventory: InventoryModel,
    datasets: Seq<ResolvedModel>,
    now: int,
    plan: PlanModel,
    d: int,
)
    requires
        planned(zone, config, inventory, datasets, now) == Ok::<PlanModel, Seq<char>>(plan),
        names_differ(datasets),
        0 <= d < datasets.len(),
    ensures
        ({
            let added = share(zone, config.settings.snapshot_prefix, inventory, datasets[d], now);
            &&& added is Ok
            &&& forall|x: SnapshotActionModel|
                #![trigger plan.snapshots.contains(x)]
                #![trigger added->Ok_0.snapshots.contains(x)]
                plan.snapshots.contains(x) && x.dataset == datasets[d].name
                    <==> added->Ok_0.snapshots.contains(x)
            &&& forall|x: PruneActionModel|
                #![trigger plan.prunes.contains(x)]
                #![trigger added->Ok_0.prunes.contains(x)]
                plan.prunes.contains(x) && x.dataset == datasets[d].name
                    <==> added->Ok_0.prunes.contains(x)
            &&& plan.deferred_prune_datasets.contains(datasets[d].name)
                <==> added->Ok_0.deferred_prune_datasets.contains(datasets[d].name)
            &&& forall|x: ProtectedModel|
                #![trigger plan.protected_snapshots.contains(x)]
                #![trigger added->Ok_0.protected_snapshots.contains(x)]
                plan.protected_snapshots.contains(x) && x.dataset == datasets[d].name
                    <==> added->Ok_0.protected_snapshots.contains(x)
        }),
{
    let prefix = config.settings.snapshot_prefix;
    let raw = plan_from(zone, prefix, inventory, datasets, now, 0, empty_plan())->Ok_0;
    let added = share(zone, prefix, inventory, datasets[d], now)->Ok_0;
    let name = datasets[d].name;
    lemma_holds_share(zone, prefix, inventory, datasets, now, 0, empty_plan(), d);
    lemma_share_is_own(zone, prefix, inventory, datasets[d], now);
    assert forall|x: SnapshotActionModel| plan.snapshots.contains(x) && x.dataset
        == name <==> #[trigger] added.snapshots.contains(x) by {
        lemma_sorted_members::<SnapshotAction>(raw.snapshots, x);
        if raw.snapshots.contains(x) && x.dataset == name {
            let holds = |p: PlanModel| p.snapshots.contains(x);
            assert forall|before: PlanModel, dataset: ResolvedModel|
                dataset_step(zone, prefix, inventory, dataset, now, before) is Ok
                    && #[trigger] holds(
                    dataset_step(zone, prefix, inventory, dataset, now, before)->Ok_0,
                ) implies holds(before) || holds(
                share(zone, prefix, inventory, dataset, now)->Ok_0,
            ) by {
                lemma_share(zone, prefix, inventory, dataset, now, before);
                lemma_either(
                    before.snapshots,
                    share(zone, prefix, inventory, dataset, now)->Ok_0.snapshots,
                    x,
                );
            }
            let e = lemma_giver(zone, prefix, inventory, datasets, now, holds);
            lemma_share_is_own(zone, prefix, inventory, datasets[e], now);
            assert(share(zone, prefix, inventory, datasets[e], now)->Ok_0.snapshots.contains(x));
            lemma_same_name(datasets, d, e);
        }
    }
    assert forall|x: PruneActionModel| plan.prunes.contains(x) && x.dataset
        == name <==> #[trigger] added.prunes.contains(x) by {
        lemma_sorted_members::<PruneAction>(raw.prunes, x);
        if raw.prunes.contains(x) && x.dataset == name {
            let holds = |p: PlanModel| p.prunes.contains(x);
            assert forall|before: PlanModel, dataset: ResolvedModel|
                dataset_step(zone, prefix, inventory, dataset, now, before) is Ok
                    && #[trigger] holds(
                    dataset_step(zone, prefix, inventory, dataset, now, before)->Ok_0,
                ) implies holds(before) || holds(
                share(zone, prefix, inventory, dataset, now)->Ok_0,
            ) by {
                lemma_share(zone, prefix, inventory, dataset, now, before);
                lemma_either(
                    before.prunes,
                    share(zone, prefix, inventory, dataset, now)->Ok_0.prunes,
                    x,
                );
            }
            let e = lemma_giver(zone, prefix, inventory, datasets, now, holds);
            lemma_share_is_own(zone, prefix, inventory, datasets[e], now);
            assert(share(zone, prefix, inventory, datasets[e], now)->Ok_0.prunes.contains(x));
            lemma_same_name(datasets, d, e);
        }
    }
    assert(plan.deferred_prune_datasets.contains(name)
        <==> added.deferred_prune_datasets.contains(name)) by {
        lemma_sorted_members::<String>(raw.deferred_prune_datasets, name);
        if raw.deferred_prune_datasets.contains(name) {
            let holds = |p: PlanModel| p.deferred_prune_datasets.contains(name);
            assert forall|before: PlanModel, dataset: ResolvedModel|
                dataset_step(zone, prefix, inventory, dataset, now, before) is Ok
                    && #[trigger] holds(
                    dataset_step(zone, prefix, inventory, dataset, now, before)->Ok_0,
                ) implies holds(before) || holds(
                share(zone, prefix, inventory, dataset, now)->Ok_0,
            ) by {
                lemma_share(zone, prefix, inventory, dataset, now, before);
                lemma_either(
                    before.deferred_prune_datasets,
                    share(zone, prefix, inventory, dataset, now)->Ok_0.deferred_prune_datasets,
                    name,
                );
            }
            let e = lemma_giver(zone, prefix, inventory, datasets, now, holds);
            lemma_share_is_own(zone, prefix, inventory, datasets[e], now);
            lemma_same_name(datasets, d, e);
        }
    }
    assert forall|x: ProtectedModel| plan.protected_snapshots.contains(x) && x.dataset
        == name <==> #[trigger] added.protected_snapshots.contains(x) by {
        lemma_sorted_members::<ProtectedSnapshot>(raw.protected_snapshots, x);
        if raw.protected_snapshots.contains(x) && x.dataset == name {
            let holds = |p: PlanModel| p.protected_snapshots.contains(x);
            assert forall|before: PlanModel, dataset: ResolvedModel|
                dataset_step(zone, prefix, inventory, dataset, now, before) is Ok
                    && #[trigger] holds(
                    dataset_step(zone, prefix, inventory, dataset, now, before)->Ok_0,
                ) implies holds(before) || holds(
                share(zone, prefix, inventory, dataset, now)->Ok_0,
            ) by {
                lemma_share(zone, prefix, inventory, dataset, now, before);
                lemma_either(
                    before.protected_snapshots,
                    share(zone, prefix, inventory, dataset, now)->Ok_0.protected_snapshots,
                    x,
                );
            }
            let e = lemma_giver(zone, prefix, inventory, datasets, now, holds);
            lemma_share_is_own(zone, prefix, inventory, datasets[e], now);
            assert(share(
                zone,
                prefix,
                inventory,
                datasets[e],
                now,
            )->Ok_0.protected_snapshots.contains(x));
            lemma_same_name(datasets, d, e);
        }
    }
}

proof fn lemma_same_name(datasets: Seq<ResolvedModel>, d: int, e: int)
    requires
        names_differ(datasets),
        0 <= d < datasets.len(),
        0 <= e < datasets.len(),
        datasets[d].name == datasets[e].name,
    ensures
        d == e,
{
    if d < e {
        assert(datasets[d].name != datasets[e].name);
    } else if e < d {
        assert(datasets[e].name != datasets[d].name);
    }
}

/// The dataset whose share gives what a plan holds.
proof fn lemma_giver(
    zone: ZoneModel,
    prefix: Seq<char>,
    inventory: InventoryModel,
    datasets: Seq<ResolvedModel>,
    now: int,
    holds: spec_fn(PlanModel) -> bool,
) -> (d: int)
    requires
        plan_from(zone, prefix, inventory, datasets, now, 0, empty_plan()) is Ok,
        forall|before: PlanModel, dataset: ResolvedModel|
            dataset_step(zone, prefix, inventory, dataset, now, before) is Ok && #[trigger] holds(
                dataset_step(zone, prefix, inventory, dataset, now, before)->Ok_0,
            ) ==> holds(before) || holds(share(zone, prefix, inventory, dataset, now)->Ok_0),
        holds(plan_from(zone, prefix, inventory, datasets, now, 0, empty_plan())->Ok_0),
        !holds(empty_plan()),
    ensures
        0 <= d < datasets.len(),
        share(zone, prefix, inventory, datasets[d], now) is Ok,
        holds(share(zone, prefix, inventory, datasets[d], now)->Ok_0),
{
    lemma_comes_from_share(zone, prefix, inventory, datasets, now, 0, empty_plan(), holds);
    let d = choose|d: int|
        0 <= d < datasets.len() && holds(
            share(zone, prefix, inventory, #[trigger] datasets[d], now)->Ok_0,
        );
    lemma_holds_share(zone, prefix, inventory, datasets, now, 0, empty_plan(), d);
    d
}

// ---------------------------------------------------------------------------
// Due classes
// ---------------------------------------------------------------------------

/// A snapshot of a dataset whose name gives its class.
pub open spec fn is_of(
    snapshot: SnapshotModel,
    dataset: Seq<char>,
    prefix: Seq<char>,
    kind: SnapshotKind,
) -> bool {
    snapshot.dataset == dataset && kind_of(prefix, snapshot.name) == Some(kind)
}

/// The number of snapshots of a class that a policy asks for.
pub open spec fn number_of(policy: PolicyModel, kind: SnapshotKind) -> int {
    match kind {
        SnapshotKind::Yearly => policy.yearly as int,
        SnapshotKind::Monthly => policy.monthly as int,
        SnapshotKind::Weekly => policy.weekly as int,
        SnapshotKind::Daily => policy.daily as int,
        SnapshotKind::Hourly => policy.hourly as int,
        SnapshotKind::Frequently => policy.frequently as int,
    }
}

/// Whether a plan takes a snapshot of a class of a dataset.
pub open spec fn takes_class(plan: PlanModel, dataset: Seq<char>, kind: SnapshotKind) -> bool {
    exists|action: SnapshotActionModel| #[trigger]
        plan.snapshots.contains(action) && action.dataset == dataset && action.kinds.contains(kind)
}

proof fn lemma_newest(
    snapshots: Seq<SnapshotModel>,
    prefix: Seq<char>,
    kind: SnapshotKind,
    n: int,
)
    requires
        0 <= n <= snapshots.len(),
    ensures
        match newest(snapshots, prefix, kind, n) {
            None => forall|i: int|
                0 <= i < n ==> kind_of(prefix, (#[trigger] snapshots[i]).name) != Some(kind),
            Some(created) => {
                &&& exists|i: int|
                    0 <= i < n && kind_of(prefix, (#[trigger] snapshots[i]).name) == Some(kind)
                        && snapshots[i].created == created
                &&& forall|i: int|
                    0 <= i < n && kind_of(prefix, (#[trigger] snapshots[i]).name) == Some(kind)
                        ==> snapshots[i].created <= created
            },
        },
    decreases n,
{
    if n > 0 {
        lemma_newest(snapshots, prefix, kind, n - 1);
        assert(snapshots[n - 1] == snapshots[n - 1]);
    }
}

/// The creation time that decides whether a class is due is that of one of its
/// snapshots, and no other was created later. There is none exactly where no
/// snapshot has the class.
pub proof fn law_newest_is_the_latest(
    snapshots: Seq<SnapshotModel>,
    prefix: Seq<char>,
    kind: SnapshotKind,
)
    ensures
        match newest(snapshots, prefix, kind, snapshots.len() as int) {
            None => forall|i: int|
                0 <= i < snapshots.len() ==> kind_of(prefix, (#[trigger] snapshots[i]).name)
                    != Some(kind),
            Some(created) => {
                &&& exists|i: int|
                    0 <= i < snapshots.len() && kind_of(prefix, (#[trigger] snapshots[i]).name)
                        == Some(kind) && snapshots[i].created == created
                &&& forall|i: int|
                    0 <= i < snapshots.len() && kind_of(prefix, (#[trigger] snapshots[i]).name)
                        == Some(kind) ==> snapshots[i].created <= created
            },
        },
{
    lemma_newest(snapshots, prefix, kind, snapshots.len() as int);
}

proof fn lemma_due_members(
    zone: ZoneModel,
    prefix: Seq<char>,
    policy: PolicyModel,
    snapshots: Seq<SnapshotModel>,
    now: int,
    i: int,
    found: Seq<SnapshotKind>,
    kind: SnapshotKind,
)
    requires
        0 <= i,
        due_from(zone, prefix, policy, snapshots, now, i, found) is Ok,
    ensures
        due_from(zone, prefix, policy, snapshots, now, i, found)->Ok_0.contains(kind)
            <==> found.contains(kind) || (place(kind) >= i && number_of(policy, kind) > 0
            && is_due(
            zone,
            kind,
            policy,
            newest(snapshots, prefix, kind, snapshots.len() as int),
            now,
        ) == Ok::<bool, Seq<char>>(true)),
    decreases all_kinds().len() - i,
{
    if i < all_kinds().len() {
        let next = all_kinds()[i];
        assert(place(next) == i);
        assert(place(kind) == i ==> kind == next);
        assert(place(kind) < 6);
        if crate::policy::kept(policy, next) == 0 {
            lemma_due_members(zone, prefix, policy, snapshots, now, i + 1, found, kind);
        } else {
            let latest = newest(snapshots, prefix, next, snapshots.len() as int);
            if is_due(zone, next, policy, latest, now) == Ok::<bool, Seq<char>>(true) {
                let more = found.push(next);
                lemma_due_members(zone, prefix, policy, snapshots, now, i + 1, more, kind);
                if found.contains(kind) {
                    assert(more[found.index_of(kind)] == kind);
                }
                assert(more[found.len() as int] == next);
                if more.contains(kind) {
                    let at = more.index_of(kind);
                    if at < found.len() {
                        assert(found[at] == kind);
                    }
                }
            } else {
                lemma_due_members(zone, prefix, policy, snapshots, now, i + 1, found, kind);
            }
        }
    }
}

/// The snapshots of a dataset are those of the list that name it.
pub proof fn lemma_of_dataset_members(
    snapshots: Seq<SnapshotModel>,
    dataset: Seq<char>,
    n: int,
    x: SnapshotModel,
)
    requires
        0 <= n <= snapshots.len(),
    ensures
        of_dataset(snapshots, dataset, n).contains(x) <==> x.dataset == dataset
            && snapshots.take(n).contains(x),
    decreases n,
{
    if n > 0 {
        lemma_of_dataset_members(snapshots, dataset, n - 1, x);
        let last = snapshots[n - 1];
        let earlier = of_dataset(snapshots, dataset, n - 1);
        assert(snapshots.take(n) =~= snapshots.take(n - 1).push(last));
        lemma_either(snapshots.take(n - 1), seq![last], x);
        assert(snapshots.take(n - 1) + seq![last] =~= snapshots.take(n));
        assert(seq![last].contains(x) <==> x == last) by {
            assert(seq![last][0] == last);
        }
        if last.dataset == dataset {
            lemma_either(earlier, seq![last], x);
            assert(earlier + seq![last] =~= of_dataset(snapshots, dataset, n));
        }
    }
}

/// Whether every snapshot of a class of a dataset is older than an instant.
pub open spec fn all_older(
    inventory: InventoryModel,
    dataset: Seq<char>,
    prefix: Seq<char>,
    kind: SnapshotKind,
    instant: int,
) -> bool {
    forall|i: int|
        0 <= i < inventory.snapshots.len() && is_of(
            #[trigger] inventory.snapshots[i],
            dataset,
            prefix,
            kind,
        ) ==> inventory.snapshots[i].created < instant
}

proof fn lemma_due_is_all_older(
    zone: ZoneModel,
    inventory: InventoryModel,
    dataset: ResolvedModel,
    prefix: Seq<char>,
    kind: SnapshotKind,
    now: int,
)
    ensures
        ({
            let own = of_dataset(
                inventory.snapshots,
                dataset.name,
                inventory.snapshots.len() as int,
            );
            let latest = newest(own, prefix, kind, own.len() as int);
            is_due(zone, kind, dataset.policy, latest, now) == Ok::<bool, Seq<char>>(true) <==> {
                &&& last_due(zone, kind, dataset.policy, now) is Ok
                &&& all_older(
                    inventory,
                    dataset.name,
                    prefix,
                    kind,
                    last_due(zone, kind, dataset.policy, now)->Ok_0,
                )
            }
        }),
{
    let all = inventory.snapshots;
    let own = of_dataset(all, dataset.name, all.len() as int);
    let latest = newest(own, prefix, kind, own.len() as int);
    law_newest_is_the_latest(own, prefix, kind);
    assert(all.take(all.len() as int) =~= all);
    if last_due(zone, kind, dataset.policy, now) is Ok {
        let instant = last_due(zone, kind, dataset.policy, now)->Ok_0;
        if is_due(zone, kind, dataset.policy, latest, now) == Ok::<bool, Seq<char>>(true) {
            assert forall|i: int| 0 <= i < all.len() && is_of(
                #[trigger] all[i],
                dataset.name,
                prefix,
                kind,
            ) implies all[i].created < instant by {
                lemma_of_dataset_members(all, dataset.name, all.len() as int, all[i]);
                assert(all.contains(all[i]));
                let j = own.index_of(all[i]);
                assert(own[j] == all[i]);
            }
        } else {
            let j = choose|j: int|
                0 <= j < own.len() && kind_of(prefix, (#[trigger] own[j]).name) == Some(kind)
                    && own[j].created == latest->0;
            assert(own.contains(own[j]));
            lemma_of_dataset_members(all, dataset.name, all.len() as int, own[j]);
            let i = all.index_of(own[j]);
            assert(is_of(all[i], dataset.name, prefix, kind));
        }
    }
}

/// A plan takes a snapshot of a class of a dataset exactly when the dataset
/// takes snapshots of its own, its policy asks for some of the class, and every
/// snapshot of the class that it has, whoever took it, was created before the
/// instant at which the class was last due.
pub proof fn law_plan_takes_a_class_when_due(
    zone: ZoneModel,
    config: ConfigModel,
    inventory: InventoryModel,
    datasets: Seq<ResolvedModel>,
    now: int,
    plan: PlanModel,
    d: int,
    kind: SnapshotKind,
)
    requires
        planned(zone, config, inventory, datasets, now) == Ok::<PlanModel, Seq<char>>(plan),
        names_differ(datasets),
        0 <= d < datasets.len(),
    ensures
        ({
            let dataset = datasets[d];
            let due = last_due(zone, kind, dataset.policy, now);
            takes_class(plan, dataset.name, kind) <==> {
                &&& dataset.policy.autosnap
                &&& !(dataset.snapshot_strategy is CoveredByRecursive)
                &&& number_of(dataset.policy, kind) > 0
                &&& due is Ok
                &&& all_older(
                    inventory,
                    dataset.name,
                    config.settings.snapshot_prefix,
                    kind,
                    due->Ok_0,
                )
            }
        }),
{
    let prefix = config.settings.snapshot_prefix;
    let dataset = datasets[d];
    let own = of_dataset(
        inventory.snapshots,
        dataset.name,
        inventory.snapshots.len() as int,
    );
    let added = share(zone, prefix, inventory, dataset, now)->Ok_0;
    lemma_plan_holds_shares(zone, config, inventory, datasets, now, plan, d);
    lemma_due_is_all_older(zone, inventory, dataset, prefix, kind, now);
    if dataset.policy.autosnap && !(dataset.snapshot_strategy is CoveredByRecursive) {
        let kinds = due_from(zone, prefix, dataset.policy, own, now, 0, Seq::empty())->Ok_0;
        lemma_due_members(zone, prefix, dataset.policy, own, now, 0, Seq::empty(), kind);
        if kinds.contains(kind) {
            assert(added.snapshots[0].kinds == kinds);
            assert(added.snapshots.contains(added.snapshots[0]));
            assert(plan.snapshots.contains(added.snapshots[0]));
        }
        if takes_class(plan, dataset.name, kind) {
            let action = choose|action: SnapshotActionModel| #[trigger]
                plan.snapshots.contains(action) && action.dataset == dataset.name
                    && action.kinds.contains(kind);
            assert(added.snapshots.contains(action));
            assert(action.kinds == kinds);
        }
    } else {
        if takes_class(plan, dataset.name, kind) {
            let action = choose|action: SnapshotActionModel| #[trigger]
                plan.snapshots.contains(action) && action.dataset == dataset.name
                    && action.kinds.contains(kind);
            assert(added.snapshots.contains(action));
        }
    }
}

/// Where the clock has no transitions, a plan takes no snapshot of a class that
/// some snapshot of the dataset already covers, that is, one created at or
/// after the latest schedule point that the clock has shown. Without such a
/// snapshot it takes one.
pub proof fn law_plan_fills_the_latest_schedule_point(
    zone: ZoneModel,
    offset: int,
    config: ConfigModel,
    inventory: InventoryModel,
    datasets: Seq<ResolvedModel>,
    now: int,
    plan: PlanModel,
    d: int,
    kind: SnapshotKind,
    point: int,
    context: Seq<char>,
)
    requires
        planned(zone, config, inventory, datasets, now) == Ok::<PlanModel, Seq<char>>(plan),
        names_differ(datasets),
        0 <= d < datasets.len(),
        is_steady(zone, offset),
        -86_400 < offset < 86_400,
        schedule_fault(datasets[d].policy, context) is None,
        kind == SnapshotKind::Yearly ==> datasets[d].policy.yearly_mday
            <= crate::calendar::month_days(4, datasets[d].policy.yearly_mon as int),
        plannable(now),
        is_latest_point(kind, datasets[d].policy, point, now + offset),
    ensures
        takes_class(plan, datasets[d].name, kind) <==> {
            &&& datasets[d].policy.autosnap
            &&& !(datasets[d].snapshot_strategy is CoveredByRecursive)
            &&& number_of(datasets[d].policy, kind) > 0
            &&& all_older(
                inventory,
                datasets[d].name,
                config.settings.snapshot_prefix,
                kind,
                point - offset,
            )
        },
{
    let policy = datasets[d].policy;
    law_plan_takes_a_class_when_due(zone, config, inventory, datasets, now, plan, d, kind);
    law_due_at_the_latest_schedule_point(zone, offset, kind, policy, context, now);
    let instant = last_due(zone, kind, policy, now)->Ok_0;
    if instant + offset < point {
        assert(!crate::timing::is_point(kind, policy, point));
    } else if point < instant + offset {
        assert(!crate::timing::is_point(kind, policy, instant + offset));
    }
}

} // verus!
