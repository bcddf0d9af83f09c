//! What a plan destroys of each dataset, and what it keeps and why.
use vstd::prelude::*;

use crate::calendar::{date_of_day, day_number, day_of, days_before, is_date, is_leap, lemma_date_order, lemma_date_unique, lemma_days_before, lemma_year_length, month_days, second_of_day};
use crate::config::ConfigModel;
use crate::model::{all_kinds, SnapshotKind};
use crate::names::lookup;
use crate::naming::kind_of;
use crate::planner::{candidates, cutoff_of, dataset_step, empty_plan, expired, expired_of_kind, expired_until, of_dataset, plan_from, planned, protected_entry, protected_of_kind, protected_until, Candidate, CandidateModel, PlanModel, ProtectedModel, PruneAction, PruneActionModel, ResolvedModel};
use crate::policy::{kept, schedule_fault, PolicyModel};
use crate::provision::{is_of, lemma_of_dataset_members, lemma_plan_holds_shares, number_of, share};
use crate::recognition::{names_differ, place};
use crate::safety::{candidate_names, expiring, law_retention_is_age_and_minimum};
use crate::schedule::ZoneModel;
use crate::sort::{is_sorted, key_le, lemma_sorted, lemma_sorted_members, sorted, Sortable};
use crate::text::{lemma_lt_total, text_lt};
use crate::timing::{is_point, lemma_day_has_date, yearly_date};
use crate::zfs::{InventoryModel, SnapshotModel};

verus! {

// ---------------------------------------------------------------------------
// Counting
// ---------------------------------------------------------------------------

/// How many candidates may follow one.
spec fn following(s: Seq<CandidateModel>, c: CandidateModel) -> nat
    decreases s.len(),
{
    if s.len() == 0 {
        0
    } else {
        following(s.drop_last(), c) + if <Candidate as Sortable>::may_precede(c, s.last()) {
            1nat
        } else {
            0nat
        }
    }
}

proof fn lemma_following_is_of_members(s: Seq<CandidateModel>, c: CandidateModel)
    ensures
        following(s, c) == s.to_multiset().filter(
            |x: CandidateModel| <Candidate as Sortable>::may_precede(c, x),
        ).len(),
    decreases s.len(),
{
    broadcast use vstd::seq_lib::group_to_multiset_ensures;

    let f = |x: CandidateModel| <Candidate as Sortable>::may_precede(c, x);
    if s.len() == 0 {
        assert(s.to_multiset().filter(f) =~= vstd::multiset::Multiset::empty());
    } else {
        let rest = s.drop_last();
        lemma_following_is_of_members(rest, c);
        assert(rest.push(s.last()) =~= s);
        assert(s.to_multiset() =~= rest.to_multiset().insert(s.last()));
        if f(s.last()) {
            assert(s.to_multiset().filter(f) =~= rest.to_multiset().filter(f).insert(s.last()));
        } else {
            assert(s.to_multiset().filter(f) =~= rest.to_multiset().filter(f));
        }
    }
}

proof fn lemma_following_from(s: Seq<CandidateModel>, c: CandidateModel, k: int)
    requires
        0 <= k <= s.len(),
        forall|j: int|
            0 <= j < s.len() ==> (<Candidate as Sortable>::may_precede(c, #[trigger] s[j])
                <==> j >= k),
    ensures
        following(s, c) == s.len() - k,
    decreases s.len(),
{
    if s.len() > 0 {
        let rest = s.drop_last();
        assert(s.last() == s[s.len() - 1]);
        assert forall|j: int| 0 <= j < rest.len() implies (<Candidate as Sortable>::may_precede(
            c,
            #[trigger] rest[j],
        ) <==> j >= k) by {
            assert(rest[j] == s[j]);
        }
        lemma_following_from(rest, c, if k <= rest.len() {
            k
        } else {
            rest.len() as int
        });
    }
}

/// The first place of a candidate in a sorted list decides how many follow it.
proof fn lemma_first_place(s: Seq<CandidateModel>, c: CandidateModel) -> (k: int)
    requires
        is_sorted::<Candidate>(s),
        s.contains(c),
    ensures
        0 <= k < s.len(),
        s[k] == c,
        forall|j: int| 0 <= j < k ==> s[j] != c,
        following(s, c) == s.len() - k,
{
    let k = s.index_of_first(c)->0;
    s.index_of_first_ensures(c);
    assert forall|j: int| 0 <= j < s.len() implies (<Candidate as Sortable>::may_precede(
        c,
        #[trigger] s[j],
    ) <==> j >= k) by {
        if j < k {
            assert(<Candidate as Sortable>::may_precede(s[j], s[k]));
            if <Candidate as Sortable>::may_precede(c, s[j]) {
                lemma_lt_total(s[j].name, c.name);
                assert(s[j].created == c.created && s[j].name == c.name);
                assert(s[j] == c);
            }
        } else if j == k {
            <Candidate as Sortable>::lemma_total(c, c);
        } else {
            assert(<Candidate as Sortable>::may_precede(s[k], s[j]));
        }
    }
    lemma_following_from(s, c, k);
    k
}

/// A candidate expires exactly when it is older than the cutoff and more than
/// those to keep are not older than it.
proof fn lemma_expires(
    matching: Seq<CandidateModel>,
    keep: int,
    cutoff: int,
    gone: int,
    c: CandidateModel,
)
    requires
        is_sorted::<Candidate>(matching),
        0 <= gone <= matching.len(),
        forall|j: int| 0 <= j < gone ==> (#[trigger] matching[j]).created < cutoff,
        gone > 0 ==> matching.len() - gone >= keep,
        gone < matching.len() ==> matching.len() - gone <= keep || matching[gone].created
            >= cutoff,
    ensures
        matching.take(gone).contains(c) <==> matching.contains(c) && c.created < cutoff
            && following(matching, c) > keep,
{
    if matching.contains(c) {
        let k = lemma_first_place(matching, c);
        if matching.take(gone).contains(c) {
            let j = matching.take(gone).index_of(c);
            assert(matching[j] == c);
        } else if c.created < cutoff && following(matching, c) > keep {
            if k < gone {
                assert(matching.take(gone)[k] == c);
            } else if k > gone {
                assert(<Candidate as Sortable>::may_precede(matching[gone], matching[k]));
            }
        }
    } else if matching.take(gone).contains(c) {
        let j = matching.take(gone).index_of(c);
        assert(matching[j] == c);
    }
}

// ---------------------------------------------------------------------------
// Snapshots that go
// ---------------------------------------------------------------------------

/// A snapshot of a class of a dataset that is subject to retention: it carries
/// the mark of ownership, nobody holds it, and nothing was cloned from it.
pub open spec fn stands(
    snapshot: SnapshotModel,
    dataset: Seq<char>,
    prefix: Seq<char>,
    kind: SnapshotKind,
) -> bool {
    &&& is_of(snapshot, dataset, prefix, kind)
    &&& snapshot.managed
    &&& snapshot.user_holds == 0
    &&& !snapshot.has_clones
}

/// Whether a snapshot is not older than another: by the time of its creation,
/// then by its name.
pub open spec fn is_not_older(a: SnapshotModel, b: SnapshotModel) -> bool {
    b.created < a.created || (b.created == a.created && !text_lt(a.name, b.name))
}

/// How many snapshots, among the first `n`, stand with one and are not older
/// than it.
pub open spec fn standing(
    snapshots: Seq<SnapshotModel>,
    dataset: Seq<char>,
    prefix: Seq<char>,
    kind: SnapshotKind,
    one: SnapshotModel,
    n: int,
) -> nat
    decreases n,
{
    if n <= 0 {
        0
    } else {
        standing(snapshots, dataset, prefix, kind, one, n - 1) + if stands(
            snapshots[n - 1],
            dataset,
            prefix,
            kind,
        ) && is_not_older(snapshots[n - 1], one) {
            1nat
        } else {
            0nat
        }
    }
}

/// The seconds from one snapshot of a class to the next.
pub open spec fn seconds_of(policy: PolicyModel, kind: SnapshotKind) -> int {
    match kind {
        SnapshotKind::Frequently => 60 * policy.frequent_period,
        SnapshotKind::Hourly => 3_600,
        SnapshotKind::Daily => 86_400,
        SnapshotKind::Weekly => 604_800,
        SnapshotKind::Monthly => 2_678_400,
        SnapshotKind::Yearly => 31_557_600,
    }
}

/// Whether a snapshot of a class is to go: it stands, it is older than as many
/// periods as the policy asks for snapshots, and more than that many stand that
/// are not older, itself among them.
pub open spec fn goes(
    snapshots: Seq<SnapshotModel>,
    i: int,
    dataset: ResolvedModel,
    prefix: Seq<char>,
    kind: SnapshotKind,
    now: int,
) -> bool {
    let n = number_of(dataset.policy, kind);
    &&& stands(snapshots[i], dataset.name, prefix, kind)
    &&& snapshots[i].created < now - n * seconds_of(dataset.policy, kind)
    &&& standing(
        snapshots,
        dataset.name,
        prefix,
        kind,
        snapshots[i],
        snapshots.len() as int,
    ) > n
}

/// Whether a snapshot of some class with a name is to go.
pub open spec fn name_goes(
    snapshots: Seq<SnapshotModel>,
    dataset: ResolvedModel,
    prefix: Seq<char>,
    now: int,
    name: Seq<char>,
) -> bool {
    exists|i: int, kind: SnapshotKind|
        0 <= i < snapshots.len() && snapshots[i].name == name && #[trigger] goes(
            snapshots,
            i,
            dataset,
            prefix,
            kind,
            now,
        )
}

/// Whether a plan destroys a snapshot of a dataset.
pub open spec fn destroys(plan: PlanModel, dataset: Seq<char>, name: Seq<char>) -> bool {
    exists|action: PruneActionModel| #[trigger]
        plan.prunes.contains(action) && action.dataset == dataset && action.names.contains(name)
}

/// Whether a dataset is pruned: its policy says so, and its pool is as full as
/// the policy waits for.
pub open spec fn is_pruned(dataset: ResolvedModel, inventory: InventoryModel) -> bool {
    &&& dataset.policy.autoprune
    &&& lookup(inventory.pools, dataset.pool) is Some
    &&& dataset.policy.prune_defer == 0 || dataset.policy.prune_defer <= lookup(
        inventory.pools,
        dataset.pool,
    )->0.capacity_percent
}

spec fn candidate_of(snapshot: SnapshotModel) -> CandidateModel {
    CandidateModel { created: snapshot.created, name: snapshot.name }
}

proof fn lemma_candidates_of_start(
    a: Seq<SnapshotModel>,
    b: Seq<SnapshotModel>,
    prefix: Seq<char>,
    kind: SnapshotKind,
    n: int,
)
    requires
        n <= a.len(),
        n <= b.len(),
        forall|i: int| 0 <= i < n ==> a[i] == b[i],
    ensures
        candidates(a, prefix, kind, n) == candidates(b, prefix, kind, n),
    decreases n,
{
    if n > 0 {
        lemma_candidates_of_start(a, b, prefix, kind, n - 1);
    }
}

/// The candidates of a dataset among the first `n` snapshots.
spec fn own_candidates(
    snapshots: Seq<SnapshotModel>,
    dataset: Seq<char>,
    prefix: Seq<char>,
    kind: SnapshotKind,
    n: int,
) -> Seq<CandidateModel> {
    let own = of_dataset(snapshots, dataset, n);
    candidates(own, prefix, kind, own.len() as int)
}

proof fn lemma_own_candidates_step(
    snapshots: Seq<SnapshotModel>,
    dataset: Seq<char>,
    prefix: Seq<char>,
    kind: SnapshotKind,
    n: int,
)
    requires
        0 < n <= snapshots.len(),
    ensures
        own_candidates(snapshots, dataset, prefix, kind, n) == if stands(
            snapshots[n - 1],
            dataset,
            prefix,
            kind,
        ) {
            own_candidates(snapshots, dataset, prefix, kind, n - 1).push(
                candidate_of(snapshots[n - 1]),
            )
        } else {
            own_candidates(snapshots, dataset, prefix, kind, n - 1)
        },
{
    let before = of_dataset(snapshots, dataset, n - 1);
    let after = of_dataset(snapshots, dataset, n);
    if snapshots[n - 1].dataset == dataset {
        lemma_candidates_of_start(before, after, prefix, kind, before.len() as int);
    }
}

proof fn lemma_own_candidates(
    snapshots: Seq<SnapshotModel>,
    dataset: Seq<char>,
    prefix: Seq<char>,
    kind: SnapshotKind,
    one: SnapshotModel,
    n: int,
)
    requires
        0 <= n <= snapshots.len(),
    ensures
        following(own_candidates(snapshots, dataset, prefix, kind, n), candidate_of(one))
            == standing(snapshots, dataset, prefix, kind, one, n),
        forall|i: int|
            0 <= i < n && stands(#[trigger] snapshots[i], dataset, prefix, kind)
                ==> own_candidates(snapshots, dataset, prefix, kind, n).contains(
                candidate_of(snapshots[i]),
            ),
        own_candidates(snapshots, dataset, prefix, kind, n).contains(candidate_of(one))
            ==> exists|i: int|
            0 <= i < n && stands(#[trigger] snapshots[i], dataset, prefix, kind)
                && snapshots[i].name == one.name && snapshots[i].created == one.created,
    decreases n,
{
    if n > 0 {
        let before = own_candidates(snapshots, dataset, prefix, kind, n - 1);
        let after = own_candidates(snapshots, dataset, prefix, kind, n);
        let last = snapshots[n - 1];
        lemma_own_candidates(snapshots, dataset, prefix, kind, one, n - 1);
        lemma_own_candidates_step(snapshots, dataset, prefix, kind, n);
        if stands(last, dataset, prefix, kind) {
            assert(after.drop_last() =~= before);
            assert(after.last() == candidate_of(last));
            assert(after[before.len() as int] == candidate_of(last));
        }
        assert forall|i: int| 0 <= i < n && stands(
            #[trigger] snapshots[i],
            dataset,
            prefix,
            kind,
        ) implies after.contains(candidate_of(snapshots[i])) by {
            if i < n - 1 {
                assert(before.contains(candidate_of(snapshots[i])));
                let k = before.index_of(candidate_of(snapshots[i]));
                assert(after[k] == before[k]);
            }
        }
        if after.contains(candidate_of(one)) {
            let k = after.index_of(candidate_of(one));
            if k < before.len() {
                assert(before[k] == candidate_of(one));
                assert(before.contains(candidate_of(one)));
            } else {
                assert(snapshots[n - 1].name == one.name);
            }
        }
    }
}

/// What one class loses.
proof fn lemma_class_goes(
    snapshots: Seq<SnapshotModel>,
    dataset: ResolvedModel,
    prefix: Seq<char>,
    kind: SnapshotKind,
    now: int,
    names: Seq<Seq<char>>,
    name: Seq<char>,
)
    ensures
        ({
            let own = of_dataset(snapshots, dataset.name, snapshots.len() as int);
            expired_of_kind(dataset.policy, prefix, kind, own, now, names).contains(name)
                <==> names.contains(name) || exists|i: int|
                0 <= i < snapshots.len() && snapshots[i].name == name && #[trigger] goes(
                    snapshots,
                    i,
                    dataset,
                    prefix,
                    kind,
                    now,
                )
        }),
{
    let policy = dataset.policy;
    let own = of_dataset(snapshots, dataset.name, snapshots.len() as int);
    let found = candidates(own, prefix, kind, own.len() as int);
    let matching = sorted::<Candidate>(found);
    let keep = kept(policy, kind) as int;
    let cutoff = cutoff_of(policy, kind, now);
    let gone = expiring(matching, keep, cutoff, 0);
    let n = snapshots.len() as int;
    assert(number_of(policy, kind) == keep);
    assert(cutoff == now - number_of(policy, kind) * seconds_of(policy, kind)) by {
        let k = number_of(policy, kind);
        let p = seconds_of(policy, kind);
        assert(p == kind.period(policy.frequent_period as int));
        assert(k * p == p * k) by (nonlinear_arith);
    }
    law_retention_is_age_and_minimum(policy, prefix, kind, own, now, names);
    lemma_sorted::<Candidate>(found);
    let lost = candidate_names(matching.take(gone));
    let result = names + lost;
    assert forall|i: int| 0 <= i < n implies (goes(snapshots, i, dataset, prefix, kind, now)
        <==> stands(snapshots[i], dataset.name, prefix, kind) && #[trigger] matching.take(
        gone,
    ).contains(candidate_of(snapshots[i]))) by {
        let c = candidate_of(snapshots[i]);
        lemma_expires(matching, keep, cutoff, gone, c);
        lemma_own_candidates(snapshots, dataset.name, prefix, kind, snapshots[i], n);
        lemma_sorted_members::<Candidate>(found, c);
        lemma_following_is_of_members(matching, c);
        lemma_following_is_of_members(found, c);
        if stands(snapshots[i], dataset.name, prefix, kind) {
            assert(found.contains(c));
        }
    }
    if exists|i: int|
        0 <= i < n && snapshots[i].name == name && #[trigger] goes(
            snapshots,
            i,
            dataset,
            prefix,
            kind,
            now,
        ) {
        let i = choose|i: int|
            0 <= i < n && snapshots[i].name == name && #[trigger] goes(
                snapshots,
                i,
                dataset,
                prefix,
                kind,
                now,
            );
        assert(matching.take(gone).contains(candidate_of(snapshots[i])));
        let k = matching.take(gone).index_of(candidate_of(snapshots[i]));
        assert(lost[k] == name);
        assert(result[names.len() + k] == name);
    }
    if names.contains(name) {
        assert(result[names.index_of(name)] == name);
    }
    if result.contains(name) && !names.contains(name) {
        let at = result.index_of(name);
        if at < names.len() {
            assert(names[at] == name);
        }
        let k = at - names.len();
        let c = matching.take(gone)[k];
        assert(lost[k] == c.name);
        assert(matching[k] == c);
        assert(matching.contains(c));
        lemma_sorted_members::<Candidate>(found, c);
        let one = SnapshotModel { name: c.name, created: c.created, ..snapshots[0] };
        assert(candidate_of(one) == c);
        lemma_own_candidates(snapshots, dataset.name, prefix, kind, one, n);
        let i = choose|i: int|
            0 <= i < n && stands(#[trigger] snapshots[i], dataset.name, prefix, kind)
                && snapshots[i].name == one.name && snapshots[i].created == one.created;
        assert(candidate_of(snapshots[i]) == c);
        assert(matching.take(gone).contains(candidate_of(snapshots[i]))) by {
            assert(matching.take(gone)[k] == c);
        }
        assert(goes(snapshots, i, dataset, prefix, kind, now));
    }
}

proof fn lemma_classes_go(
    snapshots: Seq<SnapshotModel>,
    dataset: ResolvedModel,
    prefix: Seq<char>,
    now: int,
    k: int,
    name: Seq<char>,
)
    requires
        0 <= k <= all_kinds().len(),
    ensures
        ({
            let own = of_dataset(snapshots, dataset.name, snapshots.len() as int);
            expired_until(dataset.policy, prefix, own, now, k).contains(name) <==> exists|
                i: int,
                kind: SnapshotKind,
            |
                place(kind) < k && 0 <= i < snapshots.len() && snapshots[i].name == name
                    && #[trigger] goes(snapshots, i, dataset, prefix, kind, now)
        }),
    decreases k,
{
    if k > 0 {
        let own = of_dataset(snapshots, dataset.name, snapshots.len() as int);
        let last = all_kinds()[k - 1];
        let earlier = expired_until(dataset.policy, prefix, own, now, k - 1);
        assert(place(last) == k - 1);
        assert(forall|kind: SnapshotKind| #[trigger] place(kind) == k - 1 ==> kind == last);
        lemma_classes_go(snapshots, dataset, prefix, now, k - 1, name);
        lemma_class_goes(snapshots, dataset, prefix, last, now, earlier, name);
    } else {
        assert(forall|kind: SnapshotKind| #[trigger] place(kind) >= 0);
    }
}

/// A plan destroys a snapshot of a dataset exactly when the dataset is pruned
/// and the snapshot is to go: it stands, it was created more than `n` periods
/// before now, and more than `n` of its class stand that are not older, where
/// `n` is the number that the policy asks for. A period is an hour for hourly
/// snapshots, a day for daily, a week for weekly, 31 days for monthly and 365
/// days and a quarter for yearly ones.
pub proof fn law_plan_destroys_what_is_past_retention(
    zone: ZoneModel,
    config: ConfigModel,
    inventory: InventoryModel,
    datasets: Seq<ResolvedModel>,
    now: int,
    plan: PlanModel,
    d: int,
    name: Seq<char>,
)
    requires
        planned(zone, config, inventory, datasets, now) == Ok::<PlanModel, Seq<char>>(plan),
        names_differ(datasets),
        0 <= d < datasets.len(),
    ensures
        destroys(plan, datasets[d].name, name) <==> is_pruned(datasets[d], inventory) && name_goes(
            inventory.snapshots,
            datasets[d],
            config.settings.snapshot_prefix,
            now,
            name,
        ),
{
    let prefix = config.settings.snapshot_prefix;
    let dataset = datasets[d];
    let snapshots = inventory.snapshots;
    let own = of_dataset(snapshots, dataset.name, snapshots.len() as int);
    let added = share(zone, prefix, inventory, dataset, now)->Ok_0;
    let k = all_kinds().len() as int;
    let until = expired_until(dataset.policy, prefix, own, now, k);
    let names = expired(dataset.policy, prefix, own, now);
    lemma_plan_holds_shares(zone, config, inventory, datasets, now, plan, d);
    lemma_classes_go(snapshots, dataset, prefix, now, k, name);
    lemma_sorted_members::<String>(until, name);
    assert(forall|kind: SnapshotKind| #[trigger] place(kind) < k);
    assert(names.contains(name) <==> name_goes(snapshots, dataset, prefix, now, name));
    if is_pruned(dataset, inventory) && names.contains(name) {
        assert(added.prunes[0].names == names);
        assert(added.prunes.contains(added.prunes[0]));
        assert(plan.prunes.contains(added.prunes[0]));
    }
    if destroys(plan, dataset.name, name) {
        let action = choose|action: PruneActionModel| #[trigger]
            plan.prunes.contains(action) && action.dataset == dataset.name
                && action.names.contains(name);
        assert(added.prunes.contains(action));
        assert(added.prunes.len() > 0);
        assert(action.names == names);
    }
}

/// A dataset waits exactly when its policy prunes but its pool is not as full
/// as the policy waits for.
pub proof fn law_plan_defers_while_the_pool_has_room(
    zone: ZoneModel,
    config: ConfigModel,
    inventory: InventoryModel,
    datasets: Seq<ResolvedModel>,
    now: int,
    plan: PlanModel,
    d: int,
)
    requires
        planned(zone, config, inventory, datasets, now) == Ok::<PlanModel, Seq<char>>(plan),
        names_differ(datasets),
        0 <= d < datasets.len(),
    ensures
        plan.deferred_prune_datasets.contains(datasets[d].name) <==> datasets[d].policy.autoprune
            && !is_pruned(datasets[d], inventory),
        datasets[d].policy.autoprune ==> lookup(inventory.pools, datasets[d].pool) is Some,
{
    let added = share(
        zone,
        config.settings.snapshot_prefix,
        inventory,
        datasets[d],
        now,
    )->Ok_0;
    lemma_plan_holds_shares(zone, config, inventory, datasets, now, plan, d);
    if datasets[d].policy.autoprune && !is_pruned(datasets[d], inventory) {
        assert(added.deferred_prune_datasets[0] == datasets[d].name);
    }
}

/// Whether a pair of a pool and a dataset may stand before another: the pools
/// decide, and the datasets where they are the same.
pub open spec fn may_stand_before(
    pool: Seq<char>,
    dataset: Seq<char>,
    other_pool: Seq<char>,
    other_dataset: Seq<char>,
) -> bool {
    ||| text_lt(pool, other_pool)
    ||| pool == other_pool && !text_lt(other_dataset, dataset)
}

proof fn lemma_prunes_in_share(
    zone: ZoneModel,
    prefix: Seq<char>,
    inventory: InventoryModel,
    datasets: Seq<ResolvedModel>,
    now: int,
    i: int,
    plan: PlanModel,
    action: PruneActionModel,
)
    requires
        0 <= i <= datasets.len(),
        plan_from(zone, prefix, inventory, datasets, now, i, plan) is Ok,
        plan_from(zone, prefix, inventory, datasets, now, i, plan)->Ok_0.prunes.contains(action),
    ensures
        plan.prunes.contains(action) || exists|d: int|
            i <= d < datasets.len() && (#[trigger] datasets[d]).name == action.dataset
                && datasets[d].pool == action.pool && datasets[d].policy == action.policy
                && action.names.len() > 0 && is_sorted::<String>(action.names),
    decreases datasets.len() - i,
{
    if i < datasets.len() {
        let dataset = datasets[i];
        let next = dataset_step(zone, prefix, inventory, dataset, now, plan)->Ok_0;
        lemma_prunes_in_share(zone, prefix, inventory, datasets, now, i + 1, next, action);
        if next.prunes.contains(action) && !plan.prunes.contains(action) {
            let own = of_dataset(
                inventory.snapshots,
                dataset.name,
                inventory.snapshots.len() as int,
            );
            let until = expired_until(
                dataset.policy,
                prefix,
                own,
                now,
                all_kinds().len() as int,
            );
            lemma_sorted::<String>(until);
            let k = next.prunes.index_of(action);
            if k < plan.prunes.len() {
                assert(plan.prunes[k] == action);
            }
            assert(datasets[i].name == action.dataset);
        }
    }
}

/// The prune actions of a plan come in the order of their pools and datasets. Each
/// is of one of the datasets, with its policy, and has at least one name; the names
/// come in order.
pub proof fn law_prunes_come_in_order(
    zone: ZoneModel,
    config: ConfigModel,
    inventory: InventoryModel,
    datasets: Seq<ResolvedModel>,
    now: int,
    plan: PlanModel,
    i: int,
    j: int,
)
    requires
        planned(zone, config, inventory, datasets, now) == Ok::<PlanModel, Seq<char>>(plan),
        0 <= i < plan.prunes.len(),
    ensures
        plan.prunes[i].names.len() > 0,
        forall|k: int, l: int|
            0 <= k < l < plan.prunes[i].names.len() ==> !text_lt(
                #[trigger] plan.prunes[i].names[l],
                #[trigger] plan.prunes[i].names[k],
            ),
        exists|d: int|
            0 <= d < datasets.len() && (#[trigger] datasets[d]).name == plan.prunes[i].dataset
                && datasets[d].pool == plan.prunes[i].pool && datasets[d].policy
                == plan.prunes[i].policy,
        i < j < plan.prunes.len() ==> may_stand_before(
            plan.prunes[i].pool,
            plan.prunes[i].dataset,
            plan.prunes[j].pool,
            plan.prunes[j].dataset,
        ),
{
    let prefix = config.settings.snapshot_prefix;
    let raw = plan_from(zone, prefix, inventory, datasets, now, 0, empty_plan())->Ok_0;
    let action = plan.prunes[i];
    lemma_sorted::<PruneAction>(raw.prunes);
    assert(plan.prunes.contains(action));
    lemma_sorted_members::<PruneAction>(raw.prunes, action);
    lemma_prunes_in_share(zone, prefix, inventory, datasets, now, 0, empty_plan(), action);
    assert forall|k: int, l: int| 0 <= k < l < action.names.len() implies !text_lt(
        #[trigger] action.names[l],
        #[trigger] action.names[k],
    ) by {
        assert(<String as Sortable>::may_precede(action.names[k], action.names[l]));
    }
    if i < j < plan.prunes.len() {
        let other = plan.prunes[j];
        assert(<PruneAction as Sortable>::may_precede(action, other));
        let x = seq![action.pool, action.dataset];
        let y = seq![other.pool, other.dataset];
        assert(key_le(x, y));
        if action.pool == other.pool {
            assert(x.drop_first()[0] == action.dataset && y.drop_first()[0] == other.dataset);
            assert(key_le(x.drop_first(), y.drop_first()));
            if action.dataset != other.dataset {
                crate::text::lemma_lt_asymmetric(action.dataset, other.dataset);
            } else {
                crate::text::lemma_lt_irreflexive(action.dataset);
            }
        }
    }
}

// ---------------------------------------------------------------------------
// Snapshots that are kept for a reason
// ---------------------------------------------------------------------------

/// Whether an entry tells of a snapshot of a dataset that carries the mark of
/// ownership and a class, and that a hold or a clone keeps.
pub open spec fn tells_of(
    entry: ProtectedModel,
    snapshot: SnapshotModel,
    dataset: ResolvedModel,
    prefix: Seq<char>,
) -> bool {
    &&& snapshot.dataset == dataset.name
    &&& kind_of(prefix, snapshot.name) is Some
    &&& snapshot.managed
    &&& snapshot.user_holds > 0 || snapshot.has_clones
    &&& entry.pool == dataset.pool
    &&& entry.dataset == dataset.name
    &&& entry.name == snapshot.name
    &&& entry.user_holds == snapshot.user_holds
    &&& entry.has_clones == snapshot.has_clones
}

proof fn lemma_protected_class(
    own: Seq<SnapshotModel>,
    dataset: ResolvedModel,
    prefix: Seq<char>,
    kind: SnapshotKind,
    n: int,
    entry: ProtectedModel,
)
    requires
        0 <= n <= own.len(),
        forall|i: int| 0 <= i < own.len() ==> (#[trigger] own[i]).dataset == dataset.name,
    ensures
        protected_of_kind(dataset, prefix, kind, own, n).contains(entry) <==> exists|i: int|
            0 <= i < n && kind_of(prefix, own[i].name) == Some(kind) && tells_of(
                entry,
                #[trigger] own[i],
                dataset,
                prefix,
            ),
    decreases n,
{
    if n > 0 {
        let earlier = protected_of_kind(dataset, prefix, kind, own, n - 1);
        let found = protected_of_kind(dataset, prefix, kind, own, n);
        lemma_protected_class(own, dataset, prefix, kind, n - 1, entry);
        assert(own[n - 1].dataset == dataset.name);
        if found.contains(entry) {
            let at = found.index_of(entry);
            if at < earlier.len() {
                assert(earlier[at] == entry);
            }
        }
        if earlier.contains(entry) {
            assert(found[earlier.index_of(entry)] == entry);
        }
        if kind_of(prefix, own[n - 1].name) == Some(kind) && tells_of(
            entry,
            own[n - 1],
            dataset,
            prefix,
        ) {
            assert(entry == protected_entry(dataset, own[n - 1]));
            assert(found[earlier.len() as int] == entry);
        }
    }
}

proof fn lemma_protected_classes(
    own: Seq<SnapshotModel>,
    dataset: ResolvedModel,
    prefix: Seq<char>,
    k: int,
    entry: ProtectedModel,
)
    requires
        0 <= k <= all_kinds().len(),
        forall|i: int| 0 <= i < own.len() ==> (#[trigger] own[i]).dataset == dataset.name,
    ensures
        protected_until(dataset, prefix, own, k).contains(entry) <==> exists|i: int|
            0 <= i < own.len() && tells_of(entry, #[trigger] own[i], dataset, prefix) && place(
                kind_of(prefix, own[i].name)->0,
            ) < k,
    decreases k,
{
    if k > 0 {
        let kind = all_kinds()[k - 1];
        let n = own.len() as int;
        let earlier = protected_until(dataset, prefix, own, k - 1);
        let added = protected_of_kind(dataset, prefix, kind, own, n);
        let found = protected_until(dataset, prefix, own, k);
        assert(place(kind) == k - 1);
        assert(forall|other: SnapshotKind| #[trigger] place(other) == k - 1 ==> other == kind);
        lemma_protected_classes(own, dataset, prefix, k - 1, entry);
        lemma_protected_class(own, dataset, prefix, kind, n, entry);
        if found.contains(entry) {
            let at = found.index_of(entry);
            if at < earlier.len() {
                assert(earlier[at] == entry);
            } else {
                assert(added[at - earlier.len()] == entry);
            }
        }
        if earlier.contains(entry) {
            assert(found[earlier.index_of(entry)] == entry);
        }
        if added.contains(entry) {
            assert(found[earlier.len() + added.index_of(entry)] == entry);
        }
    } else {
        assert(forall|kind: SnapshotKind| #[trigger] place(kind) >= 0);
    }
}

/// A plan reports as protected exactly the snapshots of its pruned datasets
/// that carry the mark of ownership and a class, and that are held or have
/// clones, each with its number of holds and whether it has clones.
pub proof fn law_plan_reports_what_is_protected(
    zone: ZoneModel,
    config: ConfigModel,
    inventory: InventoryModel,
    datasets: Seq<ResolvedModel>,
    now: int,
    plan: PlanModel,
    d: int,
    entry: ProtectedModel,
)
    requires
        planned(zone, config, inventory, datasets, now) == Ok::<PlanModel, Seq<char>>(plan),
        names_differ(datasets),
        0 <= d < datasets.len(),
        entry.dataset == datasets[d].name,
    ensures
        plan.protected_snapshots.contains(entry) <==> is_pruned(datasets[d], inventory) && exists|
            i: int,
        |
            0 <= i < inventory.snapshots.len() && tells_of(
                entry,
                #[trigger] inventory.snapshots[i],
                datasets[d],
                config.settings.snapshot_prefix,
            ),
{
    let prefix = config.settings.snapshot_prefix;
    let dataset = datasets[d];
    let all = inventory.snapshots;
    let own = of_dataset(all, dataset.name, all.len() as int);
    let k = all_kinds().len() as int;
    let added = share(zone, prefix, inventory, dataset, now)->Ok_0;
    let found = protected_until(dataset, prefix, own, k);
    lemma_plan_holds_shares(zone, config, inventory, datasets, now, plan, d);
    assert(all.take(all.len() as int) =~= all);
    assert forall|i: int| 0 <= i < own.len() implies (#[trigger] own[i]).dataset
        == dataset.name by {
        assert(own.contains(own[i]));
        lemma_of_dataset_members(all, dataset.name, all.len() as int, own[i]);
    }
    lemma_protected_classes(own, dataset, prefix, k, entry);
    assert(forall|kind: SnapshotKind| #[trigger] place(kind) < k);
    if is_pruned(dataset, inventory) {
        assert(added.protected_snapshots =~= found);
        if found.contains(entry) {
            let i = choose|i: int|
                0 <= i < own.len() && tells_of(entry, #[trigger] own[i], dataset, prefix) && place(
                    kind_of(prefix, own[i].name)->0,
                ) < k;
            assert(own.contains(own[i]));
            lemma_of_dataset_members(all, dataset.name, all.len() as int, own[i]);
            let j = all.index_of(own[i]);
            assert(all[j] == own[i]);
        }
        if exists|i: int|
            0 <= i < all.len() && tells_of(entry, #[trigger] all[i], dataset, prefix) {
            let i = choose|i: int|
                0 <= i < all.len() && tells_of(entry, #[trigger] all[i], dataset, prefix);
            assert(all.contains(all[i]));
            lemma_of_dataset_members(all, dataset.name, all.len() as int, all[i]);
            let j = own.index_of(all[i]);
            assert(own[j] == all[i]);
        }
    } else {
        assert(!added.protected_snapshots.contains(entry));
    }
}

// ---------------------------------------------------------------------------
// Periods
// ---------------------------------------------------------------------------

/// Two points of a schedule with none between them.
pub open spec fn are_successive(
    kind: SnapshotKind,
    policy: PolicyModel,
    point: int,
    next: int,
) -> bool {
    &&& point < next
    &&& is_point(kind, policy, point)
    &&& is_point(kind, policy, next)
    &&& forall|between: int|
        point < between < next ==> !#[trigger] is_point(kind, policy, between)
}

proof fn lemma_week(policy: PolicyModel, point: int, next: int)
    requires
        are_successive(SnapshotKind::Weekly, policy, point, next),
    ensures
        next - point == 604_800,
{
    let kind = SnapshotKind::Weekly;
    let after = point + 604_800;
    assert(day_of(after) == day_of(point) + 7 && second_of_day(after) == second_of_day(point));
    assert(is_point(kind, policy, after));
    let (a, b) = (day_of(point), day_of(next));
    assert((a + 3) % 7 == (b + 3) % 7);
    if next < after {
        assert(a <= b < a + 7);
        assert(a == b);
    }
}

proof fn lemma_frequent_point(policy: PolicyModel, civil: int)
    ensures
        is_point(SnapshotKind::Frequently, policy, civil) <==> civil % 60 == 0 && (civil % 3_600
            / 60) % (policy.frequent_period as int) == 0,
{
    assert(second_of_day(civil) % 60 == civil % 60);
    assert(second_of_day(civil) % 3_600 == civil % 3_600);
}

/// A minute of the frequent schedule: the schedule starts over every hour.
#[verifier::opaque]
spec fn is_frequent(period: int, minute: int) -> bool {
    minute % 60 % period == 0
}

proof fn lemma_frequent_hour(period: int, h: int)
    requires
        period > 0,
    ensures
        is_frequent(period, h * 60),
{
    reveal(is_frequent);
    assert((h * 60) % 60 == 0);
    assert(0int % period == 0) by (nonlinear_arith)
        requires
            period > 0,
    ;
}

proof fn lemma_frequent_next(period: int, x: int)
    requires
        period > 0,
        is_frequent(period, x),
        x % 60 + period < 60,
    ensures
        is_frequent(period, x + period),
{
    reveal(is_frequent);
    let m = x % 60;
    assert((x + period) % 60 == m + period);
    assert((m + period) % period == 0) by (nonlinear_arith)
        requires
            period > 0,
            m % period == 0,
    ;
}

proof fn lemma_frequent_gap(period: int, x: int, y: int)
    requires
        period > 0,
        is_frequent(period, x),
        x < y < x + period,
        x / 60 == y / 60,
    ensures
        !is_frequent(period, y),
{
    reveal(is_frequent);
    let m = x % 60;
    let l = y % 60;
    assert(m < l < m + period);
    assert(l % period != 0) by (nonlinear_arith)
        requires
            period > 0,
            m % period == 0,
            m < l < m + period,
    ;
}

proof fn lemma_frequent_minutes(policy: PolicyModel, civil: int)
    ensures
        is_point(SnapshotKind::Frequently, policy, civil) <==> civil % 60 == 0 && is_frequent(
            policy.frequent_period as int,
            civil / 60,
        ),
{
    reveal(is_frequent);
    lemma_frequent_point(policy, civil);
    lemma_minute(civil);
}

proof fn lemma_minute(civil: int)
    ensures
        civil / 60 % 60 == civil % 3_600 / 60,
{
    let h = civil / 3_600;
    let m = civil % 3_600 / 60;
    assert(civil / 60 == h * 60 + m);
}

proof fn lemma_hour_point(policy: PolicyModel, civil: int)
    ensures
        is_point(SnapshotKind::Hourly, policy, civil) <==> civil % 3_600 == policy.hourly_min * 60,
{
    assert(second_of_day(civil) % 3_600 == civil % 3_600);
}

proof fn lemma_frequent(policy: PolicyModel, point: int, next: int)
    requires
        1 <= policy.frequent_period <= 60,
        are_successive(SnapshotKind::Frequently, policy, point, next),
    ensures
        next - point <= policy.frequent_period * 60,
        next % 3_600 != 0 ==> next - point == policy.frequent_period * 60,
{
    let kind = SnapshotKind::Frequently;
    let period = policy.frequent_period as int;
    let x = point / 60;
    let y = next / 60;
    let h = x / 60 + 1;
    lemma_frequent_minutes(policy, point);
    lemma_frequent_minutes(policy, next);
    assert(point == x * 60 && next == y * 60);
    lemma_frequent_hour(period, h);
    lemma_frequent_minutes(policy, h * 3_600);
    assert(h * 3_600 / 60 == h * 60);
    assert(is_point(kind, policy, h * 3_600));
    assert(y <= h * 60);
    if x % 60 + period < 60 {
        lemma_frequent_next(period, x);
        lemma_frequent_minutes(policy, (x + period) * 60);
        assert((x + period) * 60 / 60 == x + period);
        assert(is_point(kind, policy, (x + period) * 60));
        assert(y <= x + period);
    } else {
        assert(h * 60 <= x + period);
    }
    if next % 3_600 != 0 && y < x + period {
        assert(y < h * 60);
        assert(x / 60 == y / 60);
        lemma_frequent_gap(period, x, y);
    }
}

/// The date of a point of the monthly schedule, and the date a month later.
proof fn lemma_month(policy: PolicyModel, point: int, next: int)
    requires
        1 <= policy.monthly_mday <= 28,
        policy.monthly_hour <= 23,
        policy.monthly_min <= 59,
        are_successive(SnapshotKind::Monthly, policy, point, next),
    ensures
        ({
            let (year, month, _) = date_of_day(day_of(point));
            next - point == month_days(year, month) * 86_400
        }),
{
    let kind = SnapshotKind::Monthly;
    lemma_day_has_date(day_of(point));
    lemma_day_has_date(day_of(next));
    let a = date_of_day(day_of(point));
    let b = date_of_day(day_of(next));
    let c = if a.1 == 12 {
        (a.0 + 1, 1, a.2)
    } else {
        (a.0, a.1 + 1, a.2)
    };
    assert(is_date(c.0, c.1, c.2));
    lemma_days_before(a.0);
    lemma_year_length(a.0);
    lemma_days_before(c.0);
    let day = day_number(c.0, c.1, c.2);
    assert(day == day_of(point) + month_days(a.0, a.1));
    let after = day * 86_400 + second_of_day(point);
    assert(day_of(after) == day && second_of_day(after) == second_of_day(point));
    lemma_date_unique(c, day);
    assert(is_point(kind, policy, after));
    assert(next <= after);
    if next < after {
        assert(second_of_day(next) == second_of_day(point));
        assert(day_of(point) < day_of(next) < day);
        if (b.0, b.1) == (a.0, a.1) {
            assert(b == a);
        } else if b.0 < a.0 || (b.0 == a.0 && b.1 < a.1) {
            lemma_date_order(b, a);
        } else if (b.0, b.1) == (c.0, c.1) {
            assert(b == c);
        } else {
            lemma_date_order(c, b);
        }
    }
}

/// From a yearly date to the one of the next year.
proof fn lemma_year_apart(policy: PolicyModel, year: int)
    requires
        1 <= policy.yearly_mon <= 12,
        1 <= policy.yearly_mday <= month_days(4, policy.yearly_mon as int),
    ensures
        ({
            let month = policy.yearly_mon as int;
            let first = day_number(year, month, yearly_date(policy, year));
            let second = day_number(year + 1, month, yearly_date(policy, year + 1));
            &&& is_date(year + 1, month, yearly_date(policy, year + 1))
            &&& second - first == 365 || second - first == 366
        }),
{
    let month = policy.yearly_mon as int;
    lemma_days_before(year);
    lemma_year_length(year);
    lemma_days_before(year + 1);
    assert(is_leap(year) ==> !is_leap(year + 1)) by {
        if is_leap(year) {
            assert(year % 4 == 0);
        }
    }
    assert(days_before(year + 1, month) - days_before(year, month) == if month <= 2 {
        0
    } else {
        month_days(year + 1, 2) - month_days(year, 2)
    });
    assert(day_number(year + 1, month, 1) - day_number(year, month, 1) == days_before(year, 13)
        + days_before(year + 1, month) - days_before(year, month));
}

proof fn lemma_year(policy: PolicyModel, point: int, next: int)
    requires
        1 <= policy.yearly_mon <= 12,
        1 <= policy.yearly_mday <= month_days(4, policy.yearly_mon as int),
        policy.yearly_hour <= 23,
        policy.yearly_min <= 59,
        are_successive(SnapshotKind::Yearly, policy, point, next),
    ensures
        next - point == 365 * 86_400 || next - point == 366 * 86_400,
{
    let kind = SnapshotKind::Yearly;
    lemma_day_has_date(day_of(point));
    lemma_day_has_date(day_of(next));
    let a = date_of_day(day_of(point));
    let b = date_of_day(day_of(next));
    let c = (a.0 + 1, a.1, yearly_date(policy, a.0 + 1));
    lemma_year_apart(policy, a.0);
    let day = day_number(c.0, c.1, c.2);
    let after = day * 86_400 + second_of_day(point);
    assert(day_of(after) == day && second_of_day(after) == second_of_day(point));
    lemma_date_unique(c, day);
    assert(is_point(kind, policy, after));
    assert(next <= after);
    if next < after {
        assert(second_of_day(next) == second_of_day(point));
        assert(day_of(point) < day_of(next) < day);
        if b.0 == a.0 {
            assert(b == a);
        } else if b.0 < a.0 {
            lemma_date_order(b, a);
        } else if b.0 == c.0 {
            assert(b == c);
        } else {
            lemma_date_order(c, b);
        }
    }
}

proof fn lemma_hour_apart(policy: PolicyModel, point: int, next: int)
    requires
        are_successive(SnapshotKind::Hourly, policy, point, next),
    ensures
        next - point == 3_600,
{
    let after = point + 3_600;
    lemma_hour_point(policy, point);
    lemma_hour_point(policy, after);
    lemma_hour_point(policy, next);
    assert(after % 3_600 == point % 3_600);
    assert(is_point(SnapshotKind::Hourly, policy, after));
}

proof fn lemma_day_apart(policy: PolicyModel, point: int, next: int)
    requires
        are_successive(SnapshotKind::Daily, policy, point, next),
    ensures
        next - point == 86_400,
{
    assert(is_point(SnapshotKind::Daily, policy, point + 86_400));
}

/// The period of a class, by which its retention counts, is the distance of
/// two successive points of its schedule. Points of the frequent class may come
/// closer together at a full hour, where they start over. A month counts as
/// long as the longest, and a year as a quarter of four years with one leap day.
pub proof fn law_period_is_the_distance_of_schedule_points(
    kind: SnapshotKind,
    policy: PolicyModel,
    context: Seq<char>,
    point: int,
    next: int,
)
    requires
        schedule_fault(policy, context) is None,
        kind == SnapshotKind::Yearly ==> policy.yearly_mday <= month_days(
            4,
            policy.yearly_mon as int,
        ),
        are_successive(kind, policy, point, next),
    ensures
        ({
            let period = kind.period(policy.frequent_period as int);
            let (year, month, _) = date_of_day(day_of(point));
            match kind {
                SnapshotKind::Frequently => {
                    &&& next - point <= period
                    &&& next % 3_600 != 0 ==> next - point == period
                    &&& period == policy.frequent_period * 60
                },
                SnapshotKind::Hourly | SnapshotKind::Daily | SnapshotKind::Weekly => next - point
                    == period,
                SnapshotKind::Monthly => {
                    &&& next - point <= period
                    &&& month_days(year, month) == 31 ==> next - point == period
                    &&& period == 31 * 86_400
                },
                SnapshotKind::Yearly => {
                    &&& next - point == 365 * 86_400 || next - point == 366 * 86_400
                    &&& 4 * period == 3 * 365 * 86_400 + 366 * 86_400
                },
            }
        }),
{
    match kind {
        SnapshotKind::Frequently => {
            lemma_frequent(policy, point, next);
        },
        SnapshotKind::Hourly => {
            lemma_hour_apart(policy, point, next);
        },
        SnapshotKind::Daily => {
            lemma_day_apart(policy, point, next);
        },
        SnapshotKind::Weekly => {
            lemma_week(policy, point, next);
        },
        SnapshotKind::Monthly => {
            lemma_month(policy, point, next);
            lemma_day_has_date(day_of(point));
        },
        SnapshotKind::Yearly => {
            lemma_year(policy, point, next);
        },
    }
}

} // verus!
