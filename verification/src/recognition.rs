//! The snapshots of a plan: one action for each dataset, in order, under names
//! that are recognised again.
use vstd::prelude::*;

use crate::calendar::{date_of_day, day_of, is_date, second_of_day, stamp, stamp_parses};
use crate::config::{all_safe, ConfigModel};
use crate::model::{all_kinds, SnapshotKind};
use crate::naming::{given_time, is_usual, kind_of, law_given_names_are_recognised, snapshot_name};
use crate::planner::{dataset_step, due_from, empty_plan, of_dataset, plan_from, planned, prune_step, snapshot_names, snapshot_step, takes_snapshots, PlanModel, ResolvedModel, SnapshotAction, SnapshotActionModel};
use crate::policy::PolicyModel;
use crate::schedule::{timestamp_text, LocalTimes, ZoneModel};
use crate::sort::{key_le, lemma_sorted, lemma_sorted_members};
use crate::text::text_lt;
use crate::zfs::{InventoryModel, SnapshotModel};

verus! {

// ---------------------------------------------------------------------------
// Actions
// ---------------------------------------------------------------------------

/// The place of a class among all classes.
pub open spec fn place(kind: SnapshotKind) -> int {
    match kind {
        SnapshotKind::Yearly => 0,
        SnapshotKind::Monthly => 1,
        SnapshotKind::Weekly => 2,
        SnapshotKind::Daily => 3,
        SnapshotKind::Hourly => 4,
        SnapshotKind::Frequently => 5,
    }
}

/// Whether classes come in their order, each once.
pub open spec fn in_class_order(kinds: Seq<SnapshotKind>) -> bool {
    forall|i: int, j: int|
        0 <= i < j < kinds.len() ==> place(#[trigger] kinds[i]) < place(#[trigger] kinds[j])
}

/// Whether an action takes snapshots of some classes of a dataset, under the
/// prefix, the time and the class of each.
pub open spec fn takes_some(
    action: SnapshotActionModel,
    dataset: ResolvedModel,
    prefix: Seq<char>,
    time: Seq<char>,
) -> bool {
    &&& takes_snapshots(dataset)
    &&& action.pool == dataset.pool
    &&& action.dataset == dataset.name
    &&& action.policy == dataset.policy
    &&& action.recursive <==> dataset.snapshot_strategy is RecursiveRoot
    &&& action.kinds.len() > 0
    &&& in_class_order(action.kinds)
    &&& action.names == snapshot_names(prefix, time, action.kinds)
}

/// Whether an action takes snapshots of one of the datasets.
pub open spec fn takes_some_of(
    action: SnapshotActionModel,
    datasets: Seq<ResolvedModel>,
    prefix: Seq<char>,
    time: Seq<char>,
) -> bool {
    exists|d: int|
        0 <= d < datasets.len() && takes_some(action, #[trigger] datasets[d], prefix, time)
}

/// Whether an action comes before another: by pool, then by dataset.
pub open spec fn comes_before(a: SnapshotActionModel, b: SnapshotActionModel) -> bool {
    text_lt(a.pool, b.pool) || (a.pool == b.pool && text_lt(a.dataset, b.dataset))
}

/// Whether no two datasets have one name.
pub open spec fn names_differ(datasets: Seq<ResolvedModel>) -> bool {
    forall|i: int, j: int|
        0 <= i < j < datasets.len() ==> (#[trigger] datasets[i]).name != (
        #[trigger] datasets[j]).name
}

/// Whether no two actions are about one dataset.
spec fn actions_differ(actions: Seq<SnapshotActionModel>) -> bool {
    forall|i: int, j: int|
        0 <= i < j < actions.len() ==> (#[trigger] actions[i]).dataset != (
        #[trigger] actions[j]).dataset
}

proof fn lemma_due_in_order(
    zone: ZoneModel,
    prefix: Seq<char>,
    policy: PolicyModel,
    snapshots: Seq<SnapshotModel>,
    now: int,
    i: int,
    found: Seq<SnapshotKind>,
)
    requires
        0 <= i,
        in_class_order(found),
        forall|k: int| 0 <= k < found.len() ==> place(#[trigger] found[k]) < i,
    ensures
        due_from(zone, prefix, policy, snapshots, now, i, found) matches Ok(kinds)
            ==> in_class_order(kinds),
    decreases all_kinds().len() - i,
{
    if i < all_kinds().len() {
        let kind = all_kinds()[i];
        assert(place(kind) == i);
        lemma_due_in_order(zone, prefix, policy, snapshots, now, i + 1, found);
        lemma_due_in_order(zone, prefix, policy, snapshots, now, i + 1, found.push(kind));
    }
}

/// Whether the actions of a plan are about the first `n` datasets.
spec fn is_about(
    actions: Seq<SnapshotActionModel>,
    datasets: Seq<ResolvedModel>,
    n: int,
    prefix: Seq<char>,
    time: Seq<char>,
) -> bool {
    &&& actions_differ(actions)
    &&& forall|k: int|
        0 <= k < actions.len() ==> takes_some_of(#[trigger] actions[k], datasets.take(n), prefix, time)
}

proof fn lemma_step_is_about(
    zone: ZoneModel,
    prefix: Seq<char>,
    inventory: InventoryModel,
    datasets: Seq<ResolvedModel>,
    now: int,
    i: int,
    plan: PlanModel,
)
    requires
        0 <= i < datasets.len(),
        names_differ(datasets),
        is_about(plan.snapshots, datasets, i, prefix, timestamp_text(zone, now)),
        dataset_step(zone, prefix, inventory, datasets[i], now, plan) is Ok,
    ensures
        is_about(
            dataset_step(zone, prefix, inventory, datasets[i], now, plan)->Ok_0.snapshots,
            datasets,
            i + 1,
            prefix,
            timestamp_text(zone, now),
        ),
{
    let dataset = datasets[i];
    let time = timestamp_text(zone, now);
    let snapshots = of_dataset(
        inventory.snapshots,
        dataset.name,
        inventory.snapshots.len() as int,
    );
    lemma_due_in_order(zone, prefix, dataset.policy, snapshots, now, 0, Seq::empty());
    let after = snapshot_step(zone, prefix, dataset, snapshots, now, plan)->Ok_0.snapshots;
    assert(prune_step(
        prefix,
        inventory,
        dataset,
        snapshots,
        now,
        snapshot_step(zone, prefix, dataset, snapshots, now, plan)->Ok_0,
    )->Ok_0.snapshots == after);
    let earlier = plan.snapshots;
    assert forall|k: int| 0 <= k < after.len() implies takes_some_of(
        #[trigger] after[k],
        datasets.take(i + 1),
        prefix,
        time,
    ) by {
        if k < earlier.len() {
            assert(after[k] == earlier[k]);
            let d = choose|d: int|
                0 <= d < datasets.take(i).len() && takes_some(
                    earlier[k],
                    #[trigger] datasets.take(i)[d],
                    prefix,
                    time,
                );
            assert(datasets.take(i + 1)[d] == datasets.take(i)[d]);
        } else {
            assert(datasets.take(i + 1)[i] == dataset);
            assert(takes_some(after[k], datasets.take(i + 1)[i], prefix, time));
        }
    }
    assert forall|k: int, l: int| 0 <= k < l < after.len() implies (#[trigger] after[k]).dataset != (
    #[trigger] after[l]).dataset by {
        assert(after[k] == earlier[k]);
        if l < earlier.len() {
            assert(after[l] == earlier[l]);
        } else {
            let d = choose|d: int|
                0 <= d < datasets.take(i).len() && takes_some(
                    earlier[k],
                    #[trigger] datasets.take(i)[d],
                    prefix,
                    time,
                );
            assert(datasets.take(i)[d] == datasets[d]);
            assert(datasets[d].name != datasets[i].name);
        }
    }
}

proof fn lemma_plan_is_about(
    zone: ZoneModel,
    prefix: Seq<char>,
    inventory: InventoryModel,
    datasets: Seq<ResolvedModel>,
    now: int,
    i: int,
    plan: PlanModel,
)
    requires
        0 <= i <= datasets.len(),
        names_differ(datasets),
        is_about(plan.snapshots, datasets, i, prefix, timestamp_text(zone, now)),
        plan_from(zone, prefix, inventory, datasets, now, i, plan) is Ok,
    ensures
        is_about(
            plan_from(zone, prefix, inventory, datasets, now, i, plan)->Ok_0.snapshots,
            datasets,
            datasets.len() as int,
            prefix,
            timestamp_text(zone, now),
        ),
    decreases datasets.len() - i,
{
    if i < datasets.len() {
        lemma_step_is_about(zone, prefix, inventory, datasets, now, i, plan);
        lemma_plan_is_about(
            zone,
            prefix,
            inventory,
            datasets,
            now,
            i + 1,
            dataset_step(zone, prefix, inventory, datasets[i], now, plan)->Ok_0,
        );
    }
}

/// Actions in another order are still about different datasets.
proof fn lemma_still_differ(a: Seq<SnapshotActionModel>, b: Seq<SnapshotActionModel>)
    requires
        a.to_multiset() == b.to_multiset(),
        actions_differ(a),
    ensures
        actions_differ(b),
{
    broadcast use vstd::seq_lib::group_to_multiset_ensures;

    assert forall|i: int, j: int| 0 <= i < j < b.len() implies (#[trigger] b[i]).dataset != (
    #[trigger] b[j]).dataset by {
        assert(b.to_multiset().contains(b[i]) && b.to_multiset().contains(b[j]));
        assert(a.contains(b[i]) && a.contains(b[j]));
        let k = a.index_of(b[i]);
        if b[i] == b[j] {
            let action = b[i];
            let fewer = b.remove(j);
            assert(fewer[i] == action);
            assert(fewer.contains(action));
            assert(fewer.to_multiset() == b.to_multiset().remove(action));
            let rest = a.remove(k);
            assert(rest.to_multiset() == a.to_multiset().remove(action));
            assert(rest.to_multiset().contains(action));
            assert(rest.contains(action));
            let l = rest.index_of(action);
            if l < k {
                assert(a[l] == action);
            } else {
                assert(a[l + 1] == action);
            }
        } else {
            let l = a.index_of(b[j]);
            if k < l {
                assert(a[k].dataset != a[l].dataset);
            } else {
                assert(a[l].dataset != a[k].dataset);
            }
        }
    }
}

/// The snapshot actions of a plan come in the order of their pools and
/// datasets, one for a dataset. Each takes snapshots of at least one class of
/// one of the datasets, of every class at most one.
pub proof fn law_plan_has_one_action_for_a_dataset(
    zone: ZoneModel,
    config: ConfigModel,
    inventory: InventoryModel,
    datasets: Seq<ResolvedModel>,
    now: int,
    plan: PlanModel,
)
    requires
        planned(zone, config, inventory, datasets, now) == Ok::<PlanModel, Seq<char>>(plan),
        names_differ(datasets),
    ensures
        forall|i: int, j: int|
            0 <= i < j < plan.snapshots.len() ==> comes_before(
                #[trigger] plan.snapshots[i],
                #[trigger] plan.snapshots[j],
            ),
        forall|i: int|
            0 <= i < plan.snapshots.len() ==> takes_some_of(
                #[trigger] plan.snapshots[i],
                datasets,
                config.settings.snapshot_prefix,
                timestamp_text(zone, now),
            ),
{
    let prefix = config.settings.snapshot_prefix;
    let time = timestamp_text(zone, now);
    let raw = plan_from(zone, prefix, inventory, datasets, now, 0, empty_plan())->Ok_0.snapshots;
    lemma_plan_is_about(zone, prefix, inventory, datasets, now, 0, empty_plan());
    lemma_sorted::<SnapshotAction>(raw);
    lemma_still_differ(raw, plan.snapshots);
    assert(datasets.take(datasets.len() as int) =~= datasets);
    assert forall|i: int| 0 <= i < plan.snapshots.len() implies takes_some_of(
        #[trigger] plan.snapshots[i],
        datasets,
        prefix,
        time,
    ) by {
        assert(plan.snapshots.contains(plan.snapshots[i]));
        lemma_sorted_members::<SnapshotAction>(raw, plan.snapshots[i]);
        assert(takes_some_of(raw[raw.index_of(plan.snapshots[i])], datasets, prefix, time));
    }
    assert forall|i: int, j: int| 0 <= i < j < plan.snapshots.len() implies comes_before(
        #[trigger] plan.snapshots[i],
        #[trigger] plan.snapshots[j],
    ) by {
        let a = plan.snapshots[i];
        let b = plan.snapshots[j];
        let x = seq![a.pool, a.dataset];
        let y = seq![b.pool, b.dataset];
        assert(<SnapshotAction as crate::sort::Sortable>::may_precede(a, b));
        assert(key_le(x, y));
        assert(a.dataset != b.dataset);
        if a.pool == b.pool {
            assert(x.drop_first()[0] == a.dataset && y.drop_first()[0] == b.dataset);
            assert(key_le(x.drop_first(), y.drop_first()));
        }
    }
}

// ---------------------------------------------------------------------------
// Names
// ---------------------------------------------------------------------------

/// Whether the wall clock of a zone shows a date of the years zero to 9999.
pub open spec fn is_usual_moment(zone: ZoneModel, now: int) -> bool {
    let civil = (zone.civil)(now);
    is_usual(date_of_day(day_of(civil)), second_of_day(civil))
}

/// Whether the time that the wall clock of a zone shows is read back from a
/// name: it is a date, and its stamp parses in the years zero to 9999.
pub open spec fn is_read_back(zone: ZoneModel, now: int) -> bool {
    let civil = (zone.civil)(now);
    let date = date_of_day(day_of(civil));
    is_date(date.0, date.1, date.2) && (0 <= date.0 <= 9_999 ==> stamp_parses(
        stamp(date, second_of_day(civil)),
    ))
}

/// Whether every name of some actions is recognised with its class.
pub open spec fn all_recognised(prefix: Seq<char>, actions: Seq<SnapshotActionModel>) -> bool {
    forall|i: int, k: int|
        #![trigger actions[i].names[k]]
        0 <= i < actions.len() && 0 <= k < actions[i].names.len() ==> k < actions[i].kinds.len()
            && kind_of(prefix, actions[i].names[k]) == Some(actions[i].kinds[k])
}

/// Whether every action has a name for each of its classes, made of the
/// prefix, a time and the class.
spec fn all_named(
    actions: Seq<SnapshotActionModel>,
    prefix: Seq<char>,
    time: Seq<char>,
) -> bool {
    forall|i: int|
        0 <= i < actions.len() ==> (#[trigger] actions[i]).names == snapshot_names(
            prefix,
            time,
            actions[i].kinds,
        )
}

proof fn lemma_plan_is_named(
    zone: ZoneModel,
    prefix: Seq<char>,
    inventory: InventoryModel,
    datasets: Seq<ResolvedModel>,
    now: int,
    i: int,
    plan: PlanModel,
)
    requires
        0 <= i,
        all_named(plan.snapshots, prefix, timestamp_text(zone, now)),
        plan_from(zone, prefix, inventory, datasets, now, i, plan) is Ok,
    ensures
        all_named(
            plan_from(zone, prefix, inventory, datasets, now, i, plan)->Ok_0.snapshots,
            prefix,
            timestamp_text(zone, now),
        ),
    decreases datasets.len() - i,
{
    if i < datasets.len() {
        lemma_plan_is_named(
            zone,
            prefix,
            inventory,
            datasets,
            now,
            i + 1,
            dataset_step(zone, prefix, inventory, datasets[i], now, plan)->Ok_0,
        );
    }
}

/// Every name in a plan is recognised again, with its class. That is said of a
/// prefix that a valid configuration can have, and of the dates that the
/// calendar reads back.
pub proof fn law_planned_names_are_recognised(
    zone: ZoneModel,
    config: ConfigModel,
    inventory: InventoryModel,
    datasets: Seq<ResolvedModel>,
    now: int,
    plan: PlanModel,
)
    requires
        planned(zone, config, inventory, datasets, now) == Ok::<PlanModel, Seq<char>>(plan),
        all_safe(config.settings.snapshot_prefix),
        is_usual_moment(zone, now),
        is_read_back(zone, now),
    ensures
        all_recognised(config.settings.snapshot_prefix, plan.snapshots),
{
    let prefix = config.settings.snapshot_prefix;
    let time = timestamp_text(zone, now);
    let raw = plan_from(zone, prefix, inventory, datasets, now, 0, empty_plan())->Ok_0.snapshots;
    lemma_plan_is_named(zone, prefix, inventory, datasets, now, 0, empty_plan());
    let actions = plan.snapshots;
    let civil = (zone.civil)(now);
    let date = date_of_day(day_of(civil));
    let second = second_of_day(civil);
    let repeated = (zone.instants)(civil) matches LocalTimes::Repeated(_, again) && again == now;
    assert(time == given_time(date, second, repeated));
    assert forall|i: int, k: int|
        #![trigger actions[i].names[k]]
        0 <= i < actions.len() && 0 <= k < actions[i].names.len() implies k
        < actions[i].kinds.len() && kind_of(prefix, actions[i].names[k]) == Some(
        actions[i].kinds[k],
    ) by {
        assert(actions.contains(actions[i]));
        lemma_sorted_members::<SnapshotAction>(raw, actions[i]);
        assert(all_named(raw, prefix, time));
        assert(raw[raw.index_of(actions[i])] == actions[i]);
        let kind = actions[i].kinds[k];
        assert(actions[i].names[k] == snapshot_name(prefix, time, kind));
        law_given_names_are_recognised(prefix, date, second, repeated, kind);
    }
}

} // verus!
