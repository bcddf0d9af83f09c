//! What every plan keeps: which snapshots it may destroy, and which it may
//! not.
use vstd::prelude::*;

use crate::config::ConfigModel;
use crate::model::{all_kinds, SnapshotKind};
use crate::naming::kind_of;
use crate::names::lookup;
use crate::planner::{candidates, cutoff_of, dataset_step, due_from, empty_plan, expire, expired, expired_of_kind, expired_until, is_owned, newest, of_dataset, plan_from, planned, protected_of_kind, protected_until, prune_step, snapshot_step, Candidate, CandidateModel, PlanModel, ProtectedModel, ProtectedSnapshot, PruneAction, PruneActionModel, ResolvedModel, SnapshotAction, SnapshotActionModel};
use crate::policy::{kept, PolicyModel};
use crate::schedule::ZoneModel;
use crate::sort::{is_sorted, lemma_sorted, lemma_sorted_members, sorted};
use crate::zfs::{InventoryModel, SnapshotModel};

verus! {

// ---------------------------------------------------------------------------
// Retention of one class
// ---------------------------------------------------------------------------

/// How many of the oldest candidates expire: while more than `keep` remain and
/// the next one was created before the cutoff.
pub open spec fn expiring(matching: Seq<CandidateModel>, keep: int, cutoff: int, from: int) -> int
    decreases matching.len() - from,
{
    if from >= matching.len() || matching.len() - from <= keep || matching[from].created
        >= cutoff {
        from
    } else {
        expiring(matching, keep, cutoff, from + 1)
    }
}

pub open spec fn candidate_names(matching: Seq<CandidateModel>) -> Seq<Seq<char>> {
    matching.map_values(|candidate: CandidateModel| candidate.name)
}

proof fn lemma_nothing_more_expires(
    matching: Seq<CandidateModel>,
    keep: int,
    cutoff: int,
    i: int,
    remaining: int,
    names: Seq<Seq<char>>,
)
    requires
        0 <= i,
        remaining <= keep || forall|j: int|
            i <= j < matching.len() ==> (#[trigger] matching[j]).created >= cutoff,
    ensures
        expire(matching, keep, cutoff, i, remaining, names) == names,
    decreases matching.len() - i,
{
    if i < matching.len() {
        lemma_nothing_more_expires(matching, keep, cutoff, i + 1, remaining, names);
    }
}

proof fn lemma_expire_from(
    matching: Seq<CandidateModel>,
    keep: int,
    cutoff: int,
    i: int,
    names: Seq<Seq<char>>,
)
    requires
        0 <= i <= matching.len(),
        is_sorted::<Candidate>(matching),
    ensures
        i <= expiring(matching, keep, cutoff, i) <= matching.len(),
        expire(matching, keep, cutoff, i, matching.len() - i, names) == names + candidate_names(
            matching.subrange(i, expiring(matching, keep, cutoff, i)),
        ),
        forall|j: int|
            i <= j < expiring(matching, keep, cutoff, i) ==> (#[trigger] matching[j]).created
                < cutoff,
        expiring(matching, keep, cutoff, i) > i ==> matching.len() - expiring(
            matching,
            keep,
            cutoff,
            i,
        ) >= keep,
    decreases matching.len() - i,
{
    let k = expiring(matching, keep, cutoff, i);
    if i >= matching.len() || matching.len() - i <= keep || matching[i].created >= cutoff {
        assert(names + candidate_names(matching.subrange(i, i)) =~= names);
        if i < matching.len() {
            assert forall|j: int| i <= j < matching.len() && matching.len() - i > keep implies (
            #[trigger] matching[j]).created >= cutoff by {
                assert(matching[i].created >= cutoff);
                if i < j {
                    assert(<Candidate as crate::sort::Sortable>::may_precede(
                        matching[i],
                        matching[j],
                    ));
                }
            }
        }
        lemma_nothing_more_expires(matching, keep, cutoff, i, matching.len() - i, names);
    } else {
        lemma_expire_from(matching, keep, cutoff, i + 1, names.push(matching[i].name));
        assert(names.push(matching[i].name) + candidate_names(matching.subrange(i + 1, k))
            =~= names + candidate_names(matching.subrange(i, k)));
    }
}

/// Retention of a class is an age and a minimum. Of the owned and unprotected
/// snapshots of a class the oldest go, each of them created before the cutoff,
/// and never so many that fewer than the configured number remain. No further
/// one could go. They follow the names of the classes before.
pub proof fn law_retention_is_age_and_minimum(
    policy: PolicyModel,
    prefix: Seq<char>,
    kind: SnapshotKind,
    snapshots: Seq<SnapshotModel>,
    now: int,
    names: Seq<Seq<char>>,
)
    ensures
        ({
            let matching = sorted::<Candidate>(
                candidates(snapshots, prefix, kind, snapshots.len() as int),
            );
            let keep = kept(policy, kind) as int;
            let cutoff = cutoff_of(policy, kind, now);
            let gone = expiring(matching, keep, cutoff, 0);
            &&& 0 <= gone <= matching.len()
            &&& expired_of_kind(policy, prefix, kind, snapshots, now, names) == names
                + candidate_names(matching.take(gone))
            &&& forall|j: int| 0 <= j < gone ==> (#[trigger] matching[j]).created < cutoff
            &&& gone > 0 ==> matching.len() - gone >= keep
            &&& gone < matching.len() ==> matching.len() - gone <= keep || matching[gone].created
                >= cutoff
        }),
{
    let matching = sorted::<Candidate>(
        candidates(snapshots, prefix, kind, snapshots.len() as int),
    );
    let keep = kept(policy, kind) as int;
    let cutoff = cutoff_of(policy, kind, now);
    lemma_sorted::<Candidate>(candidates(snapshots, prefix, kind, snapshots.len() as int));
    lemma_expire_from(matching, keep, cutoff, 0, names);
    lemma_expiring_stops(matching, keep, cutoff, 0);
    let gone = expiring(matching, keep, cutoff, 0);
    assert(matching.subrange(0, gone) =~= matching.take(gone));
}

proof fn lemma_expiring_stops(matching: Seq<CandidateModel>, keep: int, cutoff: int, i: int)
    requires
        0 <= i <= matching.len(),
    ensures
        ({
            let k = expiring(matching, keep, cutoff, i);
            k < matching.len() ==> matching.len() - k <= keep || matching[k].created >= cutoff
        }),
    decreases matching.len() - i,
{
    if i < matching.len() {
        lemma_expiring_stops(matching, keep, cutoff, i + 1);
    }
}

/// The part of a sorted list that was created before an instant is its start.
proof fn lemma_older_first(matching: Seq<CandidateModel>, now: int, gone: int)
    requires
        0 <= gone <= matching.len(),
        forall|i: int| 0 <= i < gone ==> (#[trigger] matching[i]).created < now,
        forall|i: int| gone <= i < matching.len() ==> (#[trigger] matching[i]).created >= now,
    ensures
        matching.filter(|c: CandidateModel| c.created < now) == matching.take(gone),
    decreases matching.len(),
{
    reveal(Seq::filter);
    let older = |c: CandidateModel| c.created < now;
    if matching.len() == 0 {
        assert(matching.take(gone) =~= matching);
    } else {
        let rest = matching.drop_last();
        if gone == matching.len() {
            lemma_older_first(rest, now, gone - 1);
            assert(rest.take(gone - 1).push(matching.last()) =~= matching.take(gone));
        } else {
            lemma_older_first(rest, now, gone);
            assert(rest.take(gone) =~= matching.take(gone));
        }
    }
}

/// A class with no retention loses its owned and unprotected snapshots that
/// were created before now, and no others.
pub proof fn law_no_retention_prunes_all(
    policy: PolicyModel,
    prefix: Seq<char>,
    kind: SnapshotKind,
    snapshots: Seq<SnapshotModel>,
    now: int,
)
    requires
        kept(policy, kind) == 0,
    ensures
        ({
            let all = sorted::<Candidate>(
                candidates(snapshots, prefix, kind, snapshots.len() as int),
            );
            expired_of_kind(policy, prefix, kind, snapshots, now, Seq::empty())
                == candidate_names(all.filter(|c: CandidateModel| c.created < now))
        }),
{
    let found = candidates(snapshots, prefix, kind, snapshots.len() as int);
    let all = sorted::<Candidate>(found);
    lemma_sorted::<Candidate>(found);
    law_retention_is_age_and_minimum(policy, prefix, kind, snapshots, now, Seq::empty());
    assert(cutoff_of(policy, kind, now) == now) by (nonlinear_arith)
        requires
            kept(policy, kind) == 0,
            cutoff_of(policy, kind, now) == now - kind.period(policy.frequent_period as int)
                * kept(policy, kind),
    ;
    let gone = expiring(all, 0, now, 0);
    assert forall|i: int| gone <= i < all.len() implies (#[trigger] all[i]).created >= now by {
        if gone < i {
            assert(<Candidate as crate::sort::Sortable>::may_precede(all[gone], all[i]));
        }
    }
    lemma_older_first(all, now, gone);
    assert(Seq::<Seq<char>>::empty() + candidate_names(all.take(gone)) =~= candidate_names(
        all.take(gone),
    ));
}

/// A candidate is a snapshot of the list, owned and not protected.
proof fn lemma_candidate(
    snapshots: Seq<SnapshotModel>,
    prefix: Seq<char>,
    kind: SnapshotKind,
    n: int,
    c: int,
) -> (i: int)
    requires
        0 <= n <= snapshots.len(),
        0 <= c < candidates(snapshots, prefix, kind, n).len(),
    ensures
        0 <= i < n,
        is_owned(prefix, kind, snapshots[i]),
        !snapshots[i].protected(),
        snapshots[i].name == candidates(snapshots, prefix, kind, n)[c].name,
        snapshots[i].created == candidates(snapshots, prefix, kind, n)[c].created,
    decreases n,
{
    let earlier = candidates(snapshots, prefix, kind, n - 1);
    if c < earlier.len() {
        lemma_candidate(snapshots, prefix, kind, n - 1, c)
    } else {
        n - 1
    }
}

// ---------------------------------------------------------------------------
// Plans
// ---------------------------------------------------------------------------

/// A snapshot that a policy lets go: owned, not protected, and older than its
/// class is kept.
pub open spec fn may_go(
    policy: PolicyModel,
    prefix: Seq<char>,
    snapshot: SnapshotModel,
    now: int,
) -> bool {
    match kind_of(prefix, snapshot.name) {
        Some(kind) => snapshot.managed && !snapshot.protected() && snapshot.created < cutoff_of(
            policy,
            kind,
            now,
        ),
        None => false,
    }
}

/// Some snapshot of a list has a name and may go.
pub open spec fn some_may_go(
    policy: PolicyModel,
    prefix: Seq<char>,
    snapshots: Seq<SnapshotModel>,
    now: int,
    name: Seq<char>,
) -> bool {
    exists|i: int|
        0 <= i < snapshots.len() && (#[trigger] snapshots[i]).name == name && may_go(
            policy,
            prefix,
            snapshots[i],
            now,
        )
}

proof fn lemma_expire_members(
    matching: Seq<CandidateModel>,
    keep: int,
    cutoff: int,
    i: int,
    remaining: int,
    names: Seq<Seq<char>>,
    name: Seq<char>,
) -> (j: int)
    requires
        0 <= i,
        expire(matching, keep, cutoff, i, remaining, names).contains(name),
    ensures
        names.contains(name) || (0 <= j < matching.len() && matching[j].name == name
            && matching[j].created < cutoff),
    decreases matching.len() - i,
{
    if i >= matching.len() {
        0
    } else if remaining > keep && matching[i].created < cutoff {
        let more = names.push(matching[i].name);
        let j = lemma_expire_members(matching, keep, cutoff, i + 1, remaining - 1, more, name);
        if more.contains(name) {
            let at = more.index_of(name);
            if at < names.len() {
                assert(names[at] == name);
                0
            } else {
                i
            }
        } else {
            j
        }
    } else {
        lemma_expire_members(matching, keep, cutoff, i + 1, remaining, names, name)
    }
}

proof fn lemma_expired_until(
    policy: PolicyModel,
    prefix: Seq<char>,
    snapshots: Seq<SnapshotModel>,
    now: int,
    k: int,
    name: Seq<char>,
)
    requires
        0 <= k <= all_kinds().len(),
        expired_until(policy, prefix, snapshots, now, k).contains(name),
    ensures
        some_may_go(policy, prefix, snapshots, now, name),
    decreases k,
{
    if k > 0 {
        let kind = all_kinds()[k - 1];
        let earlier = expired_until(policy, prefix, snapshots, now, k - 1);
        let found = candidates(snapshots, prefix, kind, snapshots.len() as int);
        let matching = sorted::<Candidate>(found);
        let cutoff = cutoff_of(policy, kind, now);
        let j = lemma_expire_members(
            matching,
            kept(policy, kind) as int,
            cutoff,
            0,
            matching.len() as int,
            earlier,
            name,
        );
        if earlier.contains(name) {
            lemma_expired_until(policy, prefix, snapshots, now, k - 1, name);
        } else {
            let candidate = matching[j];
            assert(matching.contains(candidate));
            lemma_sorted_members::<Candidate>(found, candidate);
            let i = lemma_candidate(
                snapshots,
                prefix,
                kind,
                snapshots.len() as int,
                found.index_of(candidate),
            );
            assert(snapshots[i].name == name);
            assert(may_go(policy, prefix, snapshots[i], now));
        }
    }
}

proof fn lemma_of_dataset(
    snapshots: Seq<SnapshotModel>,
    dataset: Seq<char>,
    n: int,
    c: int,
) -> (i: int)
    requires
        0 <= n <= snapshots.len(),
        0 <= c < of_dataset(snapshots, dataset, n).len(),
    ensures
        0 <= i < n,
        snapshots[i] == of_dataset(snapshots, dataset, n)[c],
        snapshots[i].dataset == dataset,
    decreases n,
{
    let earlier = of_dataset(snapshots, dataset, n - 1);
    if c < earlier.len() {
        lemma_of_dataset(snapshots, dataset, n - 1, c)
    } else {
        n - 1
    }
}

/// The inventory holds a snapshot of a dataset with a name that may go.
pub open spec fn inventory_lets_go(
    policy: PolicyModel,
    prefix: Seq<char>,
    inventory: InventoryModel,
    now: int,
    dataset: Seq<char>,
    name: Seq<char>,
) -> bool {
    exists|i: int|
        0 <= i < inventory.snapshots.len() && (#[trigger] inventory.snapshots[i]).dataset
            == dataset && inventory.snapshots[i].name == name && may_go(
            policy,
            prefix,
            inventory.snapshots[i],
            now,
        )
}

/// Every name of a prune action is of a snapshot that may go.
pub open spec fn action_is_safe(
    action: PruneActionModel,
    prefix: Seq<char>,
    inventory: InventoryModel,
    now: int,
) -> bool {
    forall|name: Seq<char>| #[trigger]
        action.names.contains(name) ==> inventory_lets_go(
            action.policy,
            prefix,
            inventory,
            now,
            action.dataset,
            name,
        )
}

spec fn prunes_are_safe(
    actions: Seq<PruneActionModel>,
    prefix: Seq<char>,
    inventory: InventoryModel,
    now: int,
) -> bool {
    forall|i: int|
        0 <= i < actions.len() ==> action_is_safe(#[trigger] actions[i], prefix, inventory, now)
}

proof fn lemma_expired_is_safe(
    dataset: ResolvedModel,
    prefix: Seq<char>,
    inventory: InventoryModel,
    now: int,
    name: Seq<char>,
)
    requires
        ({
            let snapshots = of_dataset(
                inventory.snapshots,
                dataset.name,
                inventory.snapshots.len() as int,
            );
            expired(dataset.policy, prefix, snapshots, now).contains(name)
        }),
    ensures
        inventory_lets_go(dataset.policy, prefix, inventory, now, dataset.name, name),
{
    let snapshots = of_dataset(
        inventory.snapshots,
        dataset.name,
        inventory.snapshots.len() as int,
    );
    let k = all_kinds().len() as int;
    lemma_sorted_members::<String>(
        expired_until(dataset.policy, prefix, snapshots, now, k),
        name,
    );
    lemma_expired_until(dataset.policy, prefix, snapshots, now, k, name);
    let c = choose|c: int|
        0 <= c < snapshots.len() && (#[trigger] snapshots[c]).name == name && may_go(
            dataset.policy,
            prefix,
            snapshots[c],
            now,
        );
    let i = lemma_of_dataset(
        inventory.snapshots,
        dataset.name,
        inventory.snapshots.len() as int,
        c,
    );
    assert(inventory.snapshots[i].name == name);
}

proof fn lemma_step_is_safe(
    zone: ZoneModel,
    prefix: Seq<char>,
    inventory: InventoryModel,
    dataset: ResolvedModel,
    now: int,
    plan: PlanModel,
)
    requires
        prunes_are_safe(plan.prunes, prefix, inventory, now),
        dataset_step(zone, prefix, inventory, dataset, now, plan) is Ok,
    ensures
        prunes_are_safe(
            (dataset_step(zone, prefix, inventory, dataset, now, plan)->Ok_0).prunes,
            prefix,
            inventory,
            now,
        ),
{
    let snapshots = of_dataset(
        inventory.snapshots,
        dataset.name,
        inventory.snapshots.len() as int,
    );
    let names = expired(dataset.policy, prefix, snapshots, now);
    assert forall|name: Seq<char>| #[trigger] names.contains(name) implies inventory_lets_go(
        dataset.policy,
        prefix,
        inventory,
        now,
        dataset.name,
        name,
    ) by {
        lemma_expired_is_safe(dataset, prefix, inventory, now, name);
    }
    assert(action_is_safe(
        PruneActionModel {
            pool: dataset.pool,
            dataset: dataset.name,
            names,
            policy: dataset.policy,
        },
        prefix,
        inventory,
        now,
    ));
}

proof fn lemma_plan_is_safe(
    zone: ZoneModel,
    prefix: Seq<char>,
    inventory: InventoryModel,
    datasets: Seq<ResolvedModel>,
    now: int,
    i: int,
    plan: PlanModel,
)
    requires
        0 <= i,
        prunes_are_safe(plan.prunes, prefix, inventory, now),
        plan_from(zone, prefix, inventory, datasets, now, i, plan) is Ok,
    ensures
        prunes_are_safe(
            (plan_from(zone, prefix, inventory, datasets, now, i, plan)->Ok_0).prunes,
            prefix,
            inventory,
            now,
        ),
    decreases datasets.len() - i,
{
    if i < datasets.len() {
        lemma_step_is_safe(zone, prefix, inventory, datasets[i], now, plan);
        lemma_plan_is_safe(
            zone,
            prefix,
            inventory,
            datasets,
            now,
            i + 1,
            dataset_step(zone, prefix, inventory, datasets[i], now, plan)->Ok_0,
        );
    }
}

/// A plan destroys only what it may: every name of every prune action is that
/// of a snapshot in the inventory, of the same dataset, that carries the mark
/// of ownership, that no hold and no clone protects, whose name gives its
/// class, and that is older than its class is kept.
pub proof fn law_plan_destroys_only_what_may_go(
    zone: ZoneModel,
    config: ConfigModel,
    inventory: InventoryModel,
    datasets: Seq<ResolvedModel>,
    now: int,
    plan: PlanModel,
    action: int,
    name: Seq<char>,
)
    requires
        planned(zone, config, inventory, datasets, now) == Ok::<PlanModel, Seq<char>>(plan),
        0 <= action < plan.prunes.len(),
        plan.prunes[action].names.contains(name),
    ensures
        inventory_lets_go(
            plan.prunes[action].policy,
            config.settings.snapshot_prefix,
            inventory,
            now,
            plan.prunes[action].dataset,
            name,
        ),
{
    let prefix = config.settings.snapshot_prefix;
    let raw = plan_from(zone, prefix, inventory, datasets, now, 0, empty_plan())->Ok_0;
    lemma_plan_is_safe(zone, prefix, inventory, datasets, now, 0, empty_plan());
    let chosen = plan.prunes[action];
    assert(plan.prunes.contains(chosen));
    lemma_sorted_members::<PruneAction>(raw.prunes, chosen);
    let i = raw.prunes.index_of(chosen);
    assert(action_is_safe(raw.prunes[i], prefix, inventory, now));
}

// ---------------------------------------------------------------------------
// What a plan takes, defers and keeps
// ---------------------------------------------------------------------------

/// A snapshot action takes only classes that its policy keeps, and only where
/// the policy takes snapshots at all.
pub open spec fn action_is_wanted(action: SnapshotActionModel) -> bool {
    &&& action.policy.autosnap
    &&& action.kinds.len() > 0
    &&& forall|i: int|
        0 <= i < action.kinds.len() ==> kept(action.policy, #[trigger] action.kinds[i]) > 0
}

/// The policy of a prune action prunes, and does not wait for its pool to
/// fill up.
pub open spec fn action_is_timely(action: PruneActionModel, inventory: InventoryModel) -> bool {
    &&& action.policy.autoprune
    &&& lookup(inventory.pools, action.pool) matches Some(pool) && (action.policy.prune_defer == 0
        || pool.capacity_percent >= action.policy.prune_defer)
}

/// A protected snapshot is held or has clones.
pub open spec fn has_reason(snapshot: ProtectedModel) -> bool {
    snapshot.user_holds > 0 || snapshot.has_clones
}

spec fn all_have_reason(snapshots: Seq<ProtectedModel>) -> bool {
    forall|i: int| 0 <= i < snapshots.len() ==> has_reason(#[trigger] snapshots[i])
}

spec fn plan_is_sound(plan: PlanModel, inventory: InventoryModel) -> bool {
    &&& forall|i: int|
        0 <= i < plan.snapshots.len() ==> action_is_wanted(#[trigger] plan.snapshots[i])
    &&& forall|i: int|
        0 <= i < plan.prunes.len() ==> action_is_timely(#[trigger] plan.prunes[i], inventory)
    &&& all_have_reason(plan.protected_snapshots)
}

proof fn lemma_due_is_kept(
    zone: ZoneModel,
    prefix: Seq<char>,
    policy: PolicyModel,
    snapshots: Seq<SnapshotModel>,
    now: int,
    i: int,
    found: Seq<SnapshotKind>,
)
    requires
        0 <= i,
        forall|k: int| 0 <= k < found.len() ==> kept(policy, #[trigger] found[k]) > 0,
    ensures
        due_from(zone, prefix, policy, snapshots, now, i, found) matches Ok(kinds) ==> forall|
            k: int,
        |
            0 <= k < kinds.len() ==> kept(policy, #[trigger] kinds[k]) > 0,
    decreases all_kinds().len() - i,
{
    if i < all_kinds().len() {
        let kind = all_kinds()[i];
        lemma_due_is_kept(zone, prefix, policy, snapshots, now, i + 1, found);
        if kept(policy, kind) > 0 {
            lemma_due_is_kept(zone, prefix, policy, snapshots, now, i + 1, found.push(kind));
        }
    }
}

proof fn lemma_protected_of_kind(
    dataset: ResolvedModel,
    prefix: Seq<char>,
    kind: SnapshotKind,
    snapshots: Seq<SnapshotModel>,
    n: int,
)
    requires
        n <= snapshots.len(),
    ensures
        all_have_reason(protected_of_kind(dataset, prefix, kind, snapshots, n)),
    decreases n,
{
    if n > 0 {
        lemma_protected_of_kind(dataset, prefix, kind, snapshots, n - 1);
        let earlier = protected_of_kind(dataset, prefix, kind, snapshots, n - 1);
        let found = protected_of_kind(dataset, prefix, kind, snapshots, n);
        assert forall|i: int| 0 <= i < found.len() implies has_reason(#[trigger] found[i]) by {
            if i < earlier.len() {
                assert(found[i] == earlier[i]);
            }
        }
    }
}

proof fn lemma_protected_until(
    dataset: ResolvedModel,
    prefix: Seq<char>,
    snapshots: Seq<SnapshotModel>,
    i: int,
)
    ensures
        all_have_reason(protected_until(dataset, prefix, snapshots, i)),
    decreases i,
{
    if i > 0 {
        lemma_protected_until(dataset, prefix, snapshots, i - 1);
        lemma_protected_of_kind(
            dataset,
            prefix,
            all_kinds()[i - 1],
            snapshots,
            snapshots.len() as int,
        );
        let earlier = protected_until(dataset, prefix, snapshots, i - 1);
        let found = protected_until(dataset, prefix, snapshots, i);
        let added = protected_of_kind(
            dataset,
            prefix,
            all_kinds()[i - 1],
            snapshots,
            snapshots.len() as int,
        );
        assert forall|j: int| 0 <= j < found.len() implies has_reason(#[trigger] found[j]) by {
            if j < earlier.len() {
                assert(found[j] == earlier[j]);
            } else {
                assert(found[j] == added[j - earlier.len()]);
            }
        }
    }
}

proof fn lemma_step_is_sound(
    zone: ZoneModel,
    prefix: Seq<char>,
    inventory: InventoryModel,
    dataset: ResolvedModel,
    now: int,
    plan: PlanModel,
)
    requires
        plan_is_sound(plan, inventory),
        dataset_step(zone, prefix, inventory, dataset, now, plan) is Ok,
    ensures
        plan_is_sound(
            dataset_step(zone, prefix, inventory, dataset, now, plan)->Ok_0,
            inventory,
        ),
{
    let snapshots = of_dataset(
        inventory.snapshots,
        dataset.name,
        inventory.snapshots.len() as int,
    );
    lemma_due_is_kept(zone, prefix, dataset.policy, snapshots, now, 0, Seq::empty());
    lemma_protected_until(dataset, prefix, snapshots, all_kinds().len() as int);
    let taken = snapshot_step(zone, prefix, dataset, snapshots, now, plan)->Ok_0;
    assert(plan_is_sound(taken, inventory));
    let after = prune_step(prefix, inventory, dataset, snapshots, now, taken)->Ok_0;
    assert forall|i: int| 0 <= i < after.protected_snapshots.len() implies has_reason(
        #[trigger] after.protected_snapshots[i],
    ) by {
        if i < taken.protected_snapshots.len() {
            assert(after.protected_snapshots[i] == taken.protected_snapshots[i]);
        } else {
            assert(has_reason(
                protected_until(
                    dataset,
                    prefix,
                    snapshots,
                    all_kinds().len() as int,
                )[i - taken.protected_snapshots.len()],
            ));
        }
    }
}

proof fn lemma_plan_is_sound(
    zone: ZoneModel,
    prefix: Seq<char>,
    inventory: InventoryModel,
    datasets: Seq<ResolvedModel>,
    now: int,
    i: int,
    plan: PlanModel,
)
    requires
        0 <= i,
        plan_is_sound(plan, inventory),
        plan_from(zone, prefix, inventory, datasets, now, i, plan) is Ok,
    ensures
        plan_is_sound(
            plan_from(zone, prefix, inventory, datasets, now, i, plan)->Ok_0,
            inventory,
        ),
    decreases datasets.len() - i,
{
    if i < datasets.len() {
        lemma_step_is_sound(zone, prefix, inventory, datasets[i], now, plan);
        lemma_plan_is_sound(
            zone,
            prefix,
            inventory,
            datasets,
            now,
            i + 1,
            dataset_step(zone, prefix, inventory, datasets[i], now, plan)->Ok_0,
        );
    }
}

/// A plan takes snapshots only of classes that are kept: a class without
/// retention gets no new snapshots, and neither does a policy without
/// automatic ones.
pub proof fn law_plan_takes_only_kept_classes(
    zone: ZoneModel,
    config: ConfigModel,
    inventory: InventoryModel,
    datasets: Seq<ResolvedModel>,
    now: int,
    plan: PlanModel,
    action: int,
)
    requires
        planned(zone, config, inventory, datasets, now) == Ok::<PlanModel, Seq<char>>(plan),
        0 <= action < plan.snapshots.len(),
    ensures
        action_is_wanted(plan.snapshots[action]),
{
    let prefix = config.settings.snapshot_prefix;
    let raw = plan_from(zone, prefix, inventory, datasets, now, 0, empty_plan())->Ok_0;
    lemma_plan_is_sound(zone, prefix, inventory, datasets, now, 0, empty_plan());
    let chosen = plan.snapshots[action];
    assert(plan.snapshots.contains(chosen));
    lemma_sorted_members::<SnapshotAction>(raw.snapshots, chosen);
    assert(action_is_wanted(raw.snapshots[raw.snapshots.index_of(chosen)]));
}

/// A plan prunes only where the policy prunes and the pool has filled up to
/// what the policy waits for.
pub proof fn law_plan_waits_for_capacity(
    zone: ZoneModel,
    config: ConfigModel,
    inventory: InventoryModel,
    datasets: Seq<ResolvedModel>,
    now: int,
    plan: PlanModel,
    action: int,
)
    requires
        planned(zone, config, inventory, datasets, now) == Ok::<PlanModel, Seq<char>>(plan),
        0 <= action < plan.prunes.len(),
    ensures
        action_is_timely(plan.prunes[action], inventory),
{
    let prefix = config.settings.snapshot_prefix;
    let raw = plan_from(zone, prefix, inventory, datasets, now, 0, empty_plan())->Ok_0;
    lemma_plan_is_sound(zone, prefix, inventory, datasets, now, 0, empty_plan());
    let chosen = plan.prunes[action];
    assert(plan.prunes.contains(chosen));
    lemma_sorted_members::<PruneAction>(raw.prunes, chosen);
    assert(action_is_timely(raw.prunes[raw.prunes.index_of(chosen)], inventory));
}

/// Every snapshot that a plan reports as protected is held or has clones.
pub proof fn law_protected_snapshots_have_a_reason(
    zone: ZoneModel,
    config: ConfigModel,
    inventory: InventoryModel,
    datasets: Seq<ResolvedModel>,
    now: int,
    plan: PlanModel,
    snapshot: int,
)
    requires
        planned(zone, config, inventory, datasets, now) == Ok::<PlanModel, Seq<char>>(plan),
        0 <= snapshot < plan.protected_snapshots.len(),
    ensures
        has_reason(plan.protected_snapshots[snapshot]),
{
    let prefix = config.settings.snapshot_prefix;
    let raw = plan_from(zone, prefix, inventory, datasets, now, 0, empty_plan())->Ok_0;
    lemma_plan_is_sound(zone, prefix, inventory, datasets, now, 0, empty_plan());
    let chosen = plan.protected_snapshots[snapshot];
    assert(plan.protected_snapshots.contains(chosen));
    lemma_sorted_members::<ProtectedSnapshot>(raw.protected_snapshots, chosen);
    assert(has_reason(raw.protected_snapshots[raw.protected_snapshots.index_of(chosen)]));
}

/// Two lists of snapshots with the same names and times.
pub open spec fn same_history(a: Seq<SnapshotModel>, b: Seq<SnapshotModel>) -> bool {
    &&& a.len() == b.len()
    &&& forall|i: int|
        0 <= i < a.len() ==> (#[trigger] a[i]).name == b[i].name && a[i].created == b[i].created
}

proof fn lemma_newest_ignores_ownership(
    a: Seq<SnapshotModel>,
    b: Seq<SnapshotModel>,
    prefix: Seq<char>,
    kind: SnapshotKind,
    n: int,
)
    requires
        same_history(a, b),
        n <= a.len(),
    ensures
        newest(a, prefix, kind, n) == newest(b, prefix, kind, n),
    decreases n,
{
    if n > 0 {
        lemma_newest_ignores_ownership(a, b, prefix, kind, n - 1);
        assert(a[n - 1].name == b[n - 1].name);
    }
}

/// What is due depends on the names and times of the snapshots there are, and
/// not on who owns them: a compatible snapshot that carries no mark still
/// counts.
pub proof fn law_scheduling_ignores_ownership(
    zone: ZoneModel,
    prefix: Seq<char>,
    policy: PolicyModel,
    a: Seq<SnapshotModel>,
    b: Seq<SnapshotModel>,
    now: int,
    i: int,
    found: Seq<SnapshotKind>,
)
    requires
        same_history(a, b),
    ensures
        due_from(zone, prefix, policy, a, now, i, found) == due_from(
            zone,
            prefix,
            policy,
            b,
            now,
            i,
            found,
        ),
    decreases all_kinds().len() - i,
{
    if i < all_kinds().len() {
        let kind = all_kinds()[i];
        lemma_newest_ignores_ownership(a, b, prefix, kind, a.len() as int);
        law_scheduling_ignores_ownership(zone, prefix, policy, a, b, now, i + 1, found);
        law_scheduling_ignores_ownership(
            zone,
            prefix,
            policy,
            a,
            b,
            now,
            i + 1,
            found.push(kind),
        );
    }
}

} // verus!
