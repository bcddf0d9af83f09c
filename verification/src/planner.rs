//! Planning: which snapshots are due, and which have expired.
use vstd::prelude::*;

use crate::config::{all_safe, section_policy, templates_known, Config, ConfigModel, DatasetModel, Policy, Recursion, ScheduleTimezone};
use crate::error::{lists, plain, yields, Error};
use crate::model::{all_kinds, SnapshotKind, SnapshotStrategy, StrategyModel};
use crate::naming::{kind_of, snapshot_name};
use crate::names::{increasing, lookup, names_of, put, NameMap, NameSet};
use crate::policy::{default_policy, kept, PolicyModel};
use crate::recognition::{all_recognised, is_read_back, is_usual_moment, law_planned_names_are_recognised};
use crate::schedule::{is_due, plannable, schedulable, snapshot_due, snapshot_timestamp_in, timestamp_text, utc_model, Zone, ZoneModel};
use crate::sort::{key_le, lemma_key_total, lemma_key_transitive, lemma_le_transitive, lemma_views_push, lemma_views_texts, pair_precedes, sort, sorted, triple_precedes, views, Sortable};
use crate::text::{before, copy_texts, debug_text, has_prefix, lemma_lt_asymmetric, lemma_lt_total, lemma_texts_push, quoted, starts_with, text_le, text_lt, texts};
use crate::zfs::{lemma_name_set, name_set, pool_of, values_of, Inventory, InventoryModel, Snapshot, SnapshotModel};

pub use crate::naming::snapshot_kind;

verus! {

/// A dataset with the policy that reaches it.
pub struct ResolvedDataset {
    pub name: String,
    pub pool: String,
    pub policy: Policy,
    pub snapshot_strategy: SnapshotStrategy,
}

/// The model of a [`ResolvedDataset`].
pub struct ResolvedModel {
    pub name: Seq<char>,
    pub pool: Seq<char>,
    pub policy: PolicyModel,
    pub snapshot_strategy: StrategyModel,
}

impl View for ResolvedDataset {
    type V = ResolvedModel;

    open spec fn view(&self) -> ResolvedModel {
        ResolvedModel {
            name: self.name@,
            pool: self.pool@,
            policy: self.policy@,
            snapshot_strategy: self.snapshot_strategy@,
        }
    }
}

// ---------------------------------------------------------------------------
// Resolution
// ---------------------------------------------------------------------------

/// How many slashes a dataset name holds.
pub open spec fn depth(name: Seq<char>) -> nat
    decreases name.len(),
{
    if name.len() == 0 {
        0
    } else if name.last() == '/' {
        depth(name.drop_last()) + 1
    } else {
        depth(name.drop_last())
    }
}

fn dataset_depth(name: &str) -> (res: usize)
    ensures
        res == depth(name@),
{
    let x = crate::text::characters(name);
    let mut count: usize = 0;
    let mut i: usize = 0;
    while i < x.len()
        invariant
            i <= x@.len(),
            x@ == name@,
            count <= i,
            count == depth(x@.take(i as int)),
        decreases x.len() - i,
    {
        assert(x@.take(i + 1).drop_last() =~= x@.take(i as int));
        if x[i] == '/' {
            count += 1;
        }
        i += 1;
    }
    assert(x@.take(i as int) =~= x@);
    count
}

/// The name of a configured section, in the order of resolution: parents
/// before their descendants.
pub struct SectionName(pub String);

impl View for SectionName {
    type V = Seq<char>;

    open spec fn view(&self) -> Seq<char> {
        self.0@
    }
}

impl Sortable for SectionName {
    open spec fn may_precede(a: Seq<char>, b: Seq<char>) -> bool {
        depth(a) < depth(b) || (depth(a) == depth(b) && text_le(a, b))
    }

    proof fn lemma_total(a: Seq<char>, b: Seq<char>) {
        if text_lt(a, b) {
            lemma_lt_asymmetric(a, b);
        }
    }

    proof fn lemma_transitive(a: Seq<char>, b: Seq<char>, c: Seq<char>) {
        if depth(a) == depth(b) && depth(b) == depth(c) {
            lemma_le_transitive(a, b, c);
        }
    }

    fn precedes(&self, other: &Self) -> (res: bool) {
        let mine: usize = dataset_depth(self.0.as_str());
        let theirs: usize = dataset_depth(other.0.as_str());
        proof {
            lemma_lt_total(self.0@, other.0@);
            if text_lt(self.0@, other.0@) {
                lemma_lt_asymmetric(self.0@, other.0@);
            }
        }
        mine < theirs || (mine == theirs && !before(other.0.as_str(), self.0.as_str()))
    }
}

/// The names among the first `n` that start with a prefix.
pub open spec fn below(names: Seq<Seq<char>>, prefix: Seq<char>, n: int) -> Seq<Seq<char>>
    decreases n,
{
    if n <= 0 {
        Seq::empty()
    } else if has_prefix(names[n - 1], prefix) {
        below(names, prefix, n - 1).push(names[n - 1])
    } else {
        below(names, prefix, n - 1)
    }
}

/// The datasets that a section manages: its own unless it processes children
/// only, and the descendants where it is recursive.
pub open spec fn section_targets(
    datasets: Seq<Seq<char>>,
    root: Seq<char>,
    section: DatasetModel,
) -> Seq<Seq<char>> {
    let own: Seq<Seq<char>> = if section.process_children_only {
        seq![]
    } else {
        seq![root]
    };
    match section.recursive {
        Recursion::Off => own,
        _ => own + below(datasets, root + "/"@, datasets.len() as int),
    }
}

pub open spec fn strategy_for(recursive: Recursion, root: Seq<char>, target: Seq<char>) -> StrategyModel {
    match recursive {
        Recursion::Zfs => if target == root {
            StrategyModel::RecursiveRoot
        } else {
            StrategyModel::CoveredByRecursive(root)
        },
        _ => StrategyModel::Individual,
    }
}

pub open spec fn resolved_as(
    recursive: Recursion,
    root: Seq<char>,
    target: Seq<char>,
    policy: PolicyModel,
) -> ResolvedModel {
    ResolvedModel {
        name: target,
        pool: pool_of(target),
        policy,
        snapshot_strategy: strategy_for(recursive, root, target),
    }
}

/// The resolution with the targets of a section from `j` on put into it.
pub open spec fn put_targets(
    resolved: Seq<(Seq<char>, ResolvedModel)>,
    targets: Seq<Seq<char>>,
    j: int,
    recursive: Recursion,
    root: Seq<char>,
    policy: PolicyModel,
) -> Seq<(Seq<char>, ResolvedModel)>
    decreases targets.len() - j,
{
    if j >= targets.len() {
        resolved
    } else {
        put_targets(
            put(resolved, targets[j], resolved_as(recursive, root, targets[j], policy)),
            targets,
            j + 1,
            recursive,
            root,
            policy,
        )
    }
}

/// The policy that a section builds on: the one it inherits from a section
/// above it, or the default.
pub open spec fn inherited(resolved: Seq<(Seq<char>, ResolvedModel)>, root: Seq<char>) -> PolicyModel {
    match lookup(resolved, root) {
        Some(entry) => entry.policy,
        None => default_policy(),
    }
}

/// The resolution after the sections from `i` on.
pub open spec fn resolve_from(
    config: ConfigModel,
    datasets: Seq<Seq<char>>,
    order: Seq<Seq<char>>,
    i: int,
    resolved: Seq<(Seq<char>, ResolvedModel)>,
) -> Result<Seq<(Seq<char>, ResolvedModel)>, Seq<char>>
    decreases order.len() - i,
{
    if i >= order.len() {
        Ok(resolved)
    } else {
        let root = order[i];
        if !datasets.contains(root) {
            Err(
                "configured dataset "@ + debug_text(root)
                    + " does not exist in the ZFS inventory"@,
            )
        } else {
            match lookup(config.datasets, root) {
                None => Err("missing dataset section "@ + debug_text(root)),
                Some(section) => match section_policy(
                    config.templates,
                    section,
                    inherited(resolved, root),
                ) {
                    Err(template) => Err(template),
                    Ok(policy) => resolve_from(
                        config,
                        datasets,
                        order,
                        i + 1,
                        put_targets(
                            resolved,
                            section_targets(datasets, root, section),
                            0,
                            section.recursive,
                            root,
                            policy,
                        ),
                    ),
                },
            }
        }
    }
}

/// The configured sections in the order of resolution.
pub open spec fn section_order(config: ConfigModel) -> Seq<Seq<char>> {
    sorted::<SectionName>(names_of(config.datasets))
}

/// The datasets that a configuration manages, with their policies.
pub open spec fn resolution(config: ConfigModel, inventory: InventoryModel) -> Result<
    Seq<ResolvedModel>,
    Seq<char>,
> {
    match resolve_from(config, inventory.datasets, section_order(config), 0, Seq::empty()) {
        Ok(resolved) => Ok(values_of(resolved)),
        Err(message) => Err(message),
    }
}

/// Every template that any section names exists.
pub open spec fn all_templates_known(config: ConfigModel) -> bool {
    forall|name: Seq<char>| #[trigger] templates_known(config, name)
}

fn targets_of(datasets: &NameSet, root: &String, recursive: Recursion, children_only: bool) -> (res:
    Vec<String>)
    ensures
        forall|section: DatasetModel|
            section.recursive == recursive && section.process_children_only == children_only
                ==> texts(res@) == #[trigger] section_targets(datasets@, root@, section),
{
    let mut targets: Vec<String> = Vec::new();
    let ghost own: Seq<Seq<char>> = if children_only {
        seq![]
    } else {
        seq![root@]
    };
    if !children_only {
        targets.push(root.clone());
    }
    assert(texts(targets@) =~= own);
    match recursive {
        Recursion::Off => {
            return targets;
        },
        _ => {},
    }
    let mut prefix = root.clone();
    prefix.append("/");
    let mut i: usize = 0;
    assert(own + below(datasets@, prefix@, 0) =~= own);
    while i < datasets.len()
        invariant
            i <= datasets@.len(),
            texts(targets@) == own + below(datasets@, prefix@, i as int),
        decreases datasets@.len() - i,
    {
        let name = datasets.name_at(i);
        if starts_with(name.as_str(), prefix.as_str()) {
            let copy = name.clone();
            proof {
                lemma_texts_push(targets@, copy);
                assert(own + below(datasets@, prefix@, i + 1) =~= (own + below(
                    datasets@,
                    prefix@,
                    i as int,
                )).push(copy@));
            }
            targets.push(copy);
        }
        i += 1;
    }
    targets
}

fn strategy_of(recursive: Recursion, root: &String, target: &String) -> (res: SnapshotStrategy)
    ensures
        res@ == strategy_for(recursive, root@, target@),
{
    match recursive {
        Recursion::Zfs => if *target == *root {
            SnapshotStrategy::RecursiveRoot
        } else {
            SnapshotStrategy::CoveredByRecursive(root.clone())
        },
        _ => SnapshotStrategy::Individual,
    }
}

/// Puts the targets of a section into the resolution.
fn insert_targets(
    resolved: &mut NameMap<ResolvedDataset>,
    targets: &Vec<String>,
    recursive: Recursion,
    root: &String,
    policy: &Policy,
)
    ensures
        final(resolved)@ == put_targets(
            old(resolved)@,
            texts(targets@),
            0,
            recursive,
            root@,
            policy@,
        ),
{
    let ghost start = resolved@;
    let mut j: usize = 0;
    while j < targets.len()
        invariant
            j <= targets@.len(),
            put_targets(start, texts(targets@), 0, recursive, root@, policy@) == put_targets(
                resolved@,
                texts(targets@),
                j as int,
                recursive,
                root@,
                policy@,
            ),
        decreases targets.len() - j,
    {
        let target = &targets[j];
        assert(texts(targets@)[j as int] == target@);
        resolved.insert(
            target.clone(),
            ResolvedDataset {
                pool: Inventory::pool_for_dataset(target.as_str()),
                name: target.clone(),
                policy: policy.clone(),
                snapshot_strategy: strategy_of(recursive, root, target),
            },
        );
        j += 1;
    }
}

/// The configured sections in the order of resolution.
fn ordered_sections(config: &Config) -> (res: Vec<SectionName>)
    ensures
        views(res@) == section_order(config@),
{
    let names = config.datasets.keys();
    let ghost all = texts(names@);
    let mut sections: Vec<SectionName> = Vec::new();
    let mut i: usize = 0;
    assert(views(sections@) =~= all.take(0));
    while i < names.len()
        invariant
            i <= names@.len(),
            all == texts(names@),
            views(sections@) == all.take(i as int),
        decreases names.len() - i,
    {
        let section = SectionName(names[i].clone());
        proof {
            lemma_views_push(sections@, section);
            assert(all.take(i + 1) =~= all.take(i as int).push(section@));
        }
        sections.push(section);
        i += 1;
    }
    assert(all.take(i as int) =~= all);
    sort(sections)
}

/// Spreads the sections of a configuration over the datasets that exist.
pub fn resolve_datasets(config: &Config, inventory: &Inventory) -> (res: Result<
    Vec<ResolvedDataset>,
    Error,
>)
    requires
        all_templates_known(config@),
    ensures
        lists(res, resolution(config@, inventory@)),
{
    let sections = ordered_sections(config);
    let mut resolved: NameMap<ResolvedDataset> = NameMap::new();
    let ghost order = section_order(config@);
    let mut i: usize = 0;
    while i < sections.len()
        invariant
            i <= sections@.len(),
            views(sections@) == order,
            order == section_order(config@),
            all_templates_known(config@),
            resolve_from(config@, inventory@.datasets, order, 0, Seq::empty()) == resolve_from(
                config@,
                inventory@.datasets,
                order,
                i as int,
                resolved@,
            ),
        decreases sections.len() - i,
    {
        let root = &sections[i].0;
        assert(order[i as int] == root@);
        if !inventory.datasets.contains(root.as_str()) {
            let mut message = "configured dataset ".to_owned();
            message.append(quoted(root.as_str()).as_str());
            message.append(" does not exist in the ZFS inventory");
            return Err(Error::new(message));
        }
        let section = match config.datasets.get(root.as_str()) {
            Some(section) => section,
            None => {
                let mut message = "missing dataset section ".to_owned();
                message.append(quoted(root.as_str()).as_str());
                return Err(Error::new(message));
            },
        };
        assert(templates_known(config@, root@));
        let base = match resolved.get(root.as_str()) {
            Some(entry) => Some(&entry.policy),
            None => None,
        };
        let policy = match config.effective_policy(root.as_str(), base) {
            Ok(policy) => policy,
            Err(e) => {
                return Err(e);
            },
        };
        let targets = targets_of(
            &inventory.datasets,
            root,
            section.recursive,
            section.process_children_only,
        );
        insert_targets(&mut resolved, &targets, section.recursive, root, &policy);
        i += 1;
    }
    let ghost found = resolved@;
    let values = resolved.into_values();
    assert(views(values@) =~= values_of(found));
    Ok(values)
}

// ---------------------------------------------------------------------------
// Plans
// ---------------------------------------------------------------------------

/// Snapshots to take of one dataset.
pub struct SnapshotAction {
    pub pool: String,
    pub dataset: String,
    pub recursive: bool,
    pub names: Vec<String>,
    pub kinds: Vec<SnapshotKind>,
    pub policy: Policy,
}

/// The model of a [`SnapshotAction`].
#[verifier::ext_equal]
pub struct SnapshotActionModel {
    pub pool: Seq<char>,
    pub dataset: Seq<char>,
    pub recursive: bool,
    pub names: Seq<Seq<char>>,
    pub kinds: Seq<SnapshotKind>,
    pub policy: PolicyModel,
}

impl View for SnapshotAction {
    type V = SnapshotActionModel;

    open spec fn view(&self) -> SnapshotActionModel {
        SnapshotActionModel {
            pool: self.pool@,
            dataset: self.dataset@,
            recursive: self.recursive,
            names: texts(self.names@),
            kinds: self.kinds@,
            policy: self.policy@,
        }
    }
}

/// Snapshots to destroy of one dataset.
pub struct PruneAction {
    pub pool: String,
    pub dataset: String,
    pub names: Vec<String>,
    pub policy: Policy,
}

/// The model of a [`PruneAction`].
#[verifier::ext_equal]
pub struct PruneActionModel {
    pub pool: Seq<char>,
    pub dataset: Seq<char>,
    pub names: Seq<Seq<char>>,
    pub policy: PolicyModel,
}

impl View for PruneAction {
    type V = PruneActionModel;

    open spec fn view(&self) -> PruneActionModel {
        PruneActionModel {
            pool: self.pool@,
            dataset: self.dataset@,
            names: texts(self.names@),
            policy: self.policy@,
        }
    }
}

impl Clone for SnapshotAction {
    fn clone(&self) -> (res: Self)
        ensures
            res@ == self@,
    {
        let mut kinds: Vec<SnapshotKind> = Vec::new();
        let mut i: usize = 0;
        while i < self.kinds.len()
            invariant
                i <= self.kinds@.len(),
                kinds@ == self.kinds@.take(i as int),
            decreases self.kinds.len() - i,
        {
            assert(self.kinds@.take(i + 1) =~= self.kinds@.take(i as int).push(
                self.kinds@[i as int],
            ));
            kinds.push(self.kinds[i]);
            i += 1;
        }
        assert(self.kinds@.take(i as int) =~= self.kinds@);
        SnapshotAction {
            pool: self.pool.clone(),
            dataset: self.dataset.clone(),
            recursive: self.recursive,
            names: copy_texts(&self.names),
            kinds,
            policy: self.policy.clone(),
        }
    }
}

impl Clone for PruneAction {
    fn clone(&self) -> (res: Self)
        ensures
            res@ == self@,
    {
        PruneAction {
            pool: self.pool.clone(),
            dataset: self.dataset.clone(),
            names: copy_texts(&self.names),
            policy: self.policy.clone(),
        }
    }
}

/// A managed snapshot that a hold or a clone keeps.
pub struct ProtectedSnapshot {
    pub pool: String,
    pub dataset: String,
    pub name: String,
    pub user_holds: u64,
    pub has_clones: bool,
}

/// The model of a [`ProtectedSnapshot`].
pub struct ProtectedModel {
    pub pool: Seq<char>,
    pub dataset: Seq<char>,
    pub name: Seq<char>,
    pub user_holds: u64,
    pub has_clones: bool,
}

impl View for ProtectedSnapshot {
    type V = ProtectedModel;

    open spec fn view(&self) -> ProtectedModel {
        ProtectedModel {
            pool: self.pool@,
            dataset: self.dataset@,
            name: self.name@,
            user_holds: self.user_holds,
            has_clones: self.has_clones,
        }
    }
}

impl Sortable for SnapshotAction {
    open spec fn may_precede(a: SnapshotActionModel, b: SnapshotActionModel) -> bool {
        key_le(seq![a.pool, a.dataset], seq![b.pool, b.dataset])
    }

    proof fn lemma_total(a: SnapshotActionModel, b: SnapshotActionModel) {
        lemma_key_total(seq![a.pool, a.dataset], seq![b.pool, b.dataset]);
    }

    proof fn lemma_transitive(
        a: SnapshotActionModel,
        b: SnapshotActionModel,
        c: SnapshotActionModel,
    ) {
        lemma_key_transitive(
            seq![a.pool, a.dataset],
            seq![b.pool, b.dataset],
            seq![c.pool, c.dataset],
        );
    }

    fn precedes(&self, other: &Self) -> (res: bool) {
        pair_precedes(
            self.pool.as_str(),
            self.dataset.as_str(),
            other.pool.as_str(),
            other.dataset.as_str(),
        )
    }
}

impl Sortable for PruneAction {
    open spec fn may_precede(a: PruneActionModel, b: PruneActionModel) -> bool {
        key_le(seq![a.pool, a.dataset], seq![b.pool, b.dataset])
    }

    proof fn lemma_total(a: PruneActionModel, b: PruneActionModel) {
        lemma_key_total(seq![a.pool, a.dataset], seq![b.pool, b.dataset]);
    }

    proof fn lemma_transitive(a: PruneActionModel, b: PruneActionModel, c: PruneActionModel) {
        lemma_key_transitive(
            seq![a.pool, a.dataset],
            seq![b.pool, b.dataset],
            seq![c.pool, c.dataset],
        );
    }

    fn precedes(&self, other: &Self) -> (res: bool) {
        pair_precedes(
            self.pool.as_str(),
            self.dataset.as_str(),
            other.pool.as_str(),
            other.dataset.as_str(),
        )
    }
}

impl Sortable for ProtectedSnapshot {
    open spec fn may_precede(a: ProtectedModel, b: ProtectedModel) -> bool {
        key_le(seq![a.pool, a.dataset, a.name], seq![b.pool, b.dataset, b.name])
    }

    proof fn lemma_total(a: ProtectedModel, b: ProtectedModel) {
        lemma_key_total(seq![a.pool, a.dataset, a.name], seq![b.pool, b.dataset, b.name]);
    }

    proof fn lemma_transitive(a: ProtectedModel, b: ProtectedModel, c: ProtectedModel) {
        lemma_key_transitive(
            seq![a.pool, a.dataset, a.name],
            seq![b.pool, b.dataset, b.name],
            seq![c.pool, c.dataset, c.name],
        );
    }

    fn precedes(&self, other: &Self) -> (res: bool) {
        triple_precedes(
            self.pool.as_str(),
            self.dataset.as_str(),
            self.name.as_str(),
            other.pool.as_str(),
            other.dataset.as_str(),
            other.name.as_str(),
        )
    }
}

/// What one run does: snapshots to take, snapshots to destroy, datasets whose
/// pruning waits, and snapshots that are kept from pruning.
pub struct Plan {
    pub snapshots: Vec<SnapshotAction>,
    pub prunes: Vec<PruneAction>,
    pub deferred_prune_datasets: Vec<String>,
    pub protected_snapshots: Vec<ProtectedSnapshot>,
}

/// The model of a [`Plan`].
#[verifier::ext_equal]
pub struct PlanModel {
    pub snapshots: Seq<SnapshotActionModel>,
    pub prunes: Seq<PruneActionModel>,
    pub deferred_prune_datasets: Seq<Seq<char>>,
    pub protected_snapshots: Seq<ProtectedModel>,
}

impl View for Plan {
    type V = PlanModel;

    open spec fn view(&self) -> PlanModel {
        PlanModel {
            snapshots: views(self.snapshots@),
            prunes: views(self.prunes@),
            deferred_prune_datasets: texts(self.deferred_prune_datasets@),
            protected_snapshots: views(self.protected_snapshots@),
        }
    }
}

pub open spec fn empty_plan() -> PlanModel {
    PlanModel {
        snapshots: Seq::empty(),
        prunes: Seq::empty(),
        deferred_prune_datasets: Seq::empty(),
        protected_snapshots: Seq::empty(),
    }
}

impl Default for Plan {
    fn default() -> (res: Self)
        ensures
            res@ == empty_plan(),
    {
        let res = Plan {
            snapshots: Vec::new(),
            prunes: Vec::new(),
            deferred_prune_datasets: Vec::new(),
            protected_snapshots: Vec::new(),
        };
        assert(res@ =~= empty_plan());
        res
    }
}

// ---------------------------------------------------------------------------
// Due snapshots
// ---------------------------------------------------------------------------

/// The snapshots of a dataset among the first `n`.
pub open spec fn of_dataset(snapshots: Seq<SnapshotModel>, dataset: Seq<char>, n: int) -> Seq<
    SnapshotModel,
>
    decreases n,
{
    if n <= 0 {
        Seq::empty()
    } else if snapshots[n - 1].dataset == dataset {
        of_dataset(snapshots, dataset, n - 1).push(snapshots[n - 1])
    } else {
        of_dataset(snapshots, dataset, n - 1)
    }
}

/// The creation time of the newest snapshot of a class among the first `n`.
pub open spec fn newest(
    snapshots: Seq<SnapshotModel>,
    prefix: Seq<char>,
    kind: SnapshotKind,
    n: int,
) -> Option<i64>
    decreases n,
{
    if n <= 0 {
        None
    } else {
        let earlier = newest(snapshots, prefix, kind, n - 1);
        let snapshot = snapshots[n - 1];
        if kind_of(prefix, snapshot.name) == Some(kind) && (earlier is None || earlier->0
            <= snapshot.created) {
            Some(snapshot.created)
        } else {
            earlier
        }
    }
}

/// The classes due from class `i` on, after those found before.
pub open spec fn due_from(
    zone: ZoneModel,
    prefix: Seq<char>,
    policy: PolicyModel,
    snapshots: Seq<SnapshotModel>,
    now: int,
    i: int,
    found: Seq<SnapshotKind>,
) -> Result<Seq<SnapshotKind>, Seq<char>>
    decreases all_kinds().len() - i,
{
    if i >= all_kinds().len() {
        Ok(found)
    } else {
        let kind = all_kinds()[i];
        if kept(policy, kind) == 0 {
            due_from(zone, prefix, policy, snapshots, now, i + 1, found)
        } else {
            match is_due(
                zone,
                kind,
                policy,
                newest(snapshots, prefix, kind, snapshots.len() as int),
                now,
            ) {
                Err(message) => Err(message),
                Ok(due) => due_from(
                    zone,
                    prefix,
                    policy,
                    snapshots,
                    now,
                    i + 1,
                    if due {
                        found.push(kind)
                    } else {
                        found
                    },
                ),
            }
        }
    }
}

pub open spec fn snapshot_names(prefix: Seq<char>, time: Seq<char>, kinds: Seq<SnapshotKind>) -> Seq<
    Seq<char>,
> {
    kinds.map_values(|kind: SnapshotKind| snapshot_name(prefix, time, kind))
}

/// Every class that a policy keeps has a schedule around an instant.
pub open spec fn has_schedule(policy: PolicyModel, now: int) -> bool {
    forall|kind: SnapshotKind|
        kept(policy, kind) > 0 ==> #[trigger] schedulable(kind, policy, now)
}

fn snapshots_of(snapshots: &Vec<Snapshot>, dataset: &String) -> (res: Vec<Snapshot>)
    ensures
        views(res@) == of_dataset(views(snapshots@), dataset@, snapshots@.len() as int),
{
    let mut found: Vec<Snapshot> = Vec::new();
    let mut i: usize = 0;
    assert(views(found@) =~= Seq::<SnapshotModel>::empty());
    while i < snapshots.len()
        invariant
            i <= snapshots@.len(),
            views(found@) == of_dataset(views(snapshots@), dataset@, i as int),
        decreases snapshots.len() - i,
    {
        assert(views(snapshots@)[i as int] == snapshots@[i as int]@);
        if snapshots[i].dataset == *dataset {
            let copy = snapshots[i].clone();
            proof {
                lemma_views_push(found@, copy);
            }
            found.push(copy);
        }
        i += 1;
    }
    found
}

fn newest_of_kind(snapshots: &Vec<Snapshot>, prefix: &str, kind: SnapshotKind) -> (res: Option<i64>)
    ensures
        res == newest(views(snapshots@), prefix@, kind, snapshots@.len() as int),
{
    let mut latest: Option<i64> = None;
    let mut i: usize = 0;
    while i < snapshots.len()
        invariant
            i <= snapshots@.len(),
            latest == newest(views(snapshots@), prefix@, kind, i as int),
        decreases snapshots.len() - i,
    {
        assert(views(snapshots@)[i as int] == snapshots@[i as int]@);
        let snapshot = &snapshots[i];
        if let Some(found) = snapshot_kind(prefix, snapshot.name.as_str()) {
            if found == kind {
                let newer = match latest {
                    None => true,
                    Some(created) => created <= snapshot.created,
                };
                if newer {
                    latest = Some(snapshot.created);
                }
            }
        }
        i += 1;
    }
    latest
}

fn due_kinds(
    zone: &mut Zone,
    prefix: &str,
    policy: &Policy,
    snapshots: &Vec<Snapshot>,
    now: i64,
) -> (res: Result<Vec<SnapshotKind>, Error>)
    requires
        plannable(now as int),
        has_schedule(policy@, now as int),
        old(zone).has_model(),
    ensures
        final(zone).refines(*old(zone)),
        final(zone).has_model(),
        forall|model: ZoneModel| #[trigger]
            final(zone).agrees(model) ==> match (
                res,
                due_from(model, prefix@, policy@, views(snapshots@), now as int, 0, Seq::empty()),
            ) {
                (Ok(kinds), Ok(expected)) => kinds@ == expected,
                (Err(e), Err(message)) => e@ == plain(message),
                _ => false,
            },
{
    let mut found: Vec<SnapshotKind> = Vec::new();
    let mut i: usize = 0;
    while i < 6
        invariant
            i <= 6,
            all_kinds().len() == 6,
            plannable(now as int),
            has_schedule(policy@, now as int),
            zone.refines(*old(zone)),
            zone.has_model(),
            forall|model: ZoneModel| #[trigger]
                zone.agrees(model) ==> due_from(
                    model,
                    prefix@,
                    policy@,
                    views(snapshots@),
                    now as int,
                    0,
                    Seq::empty(),
                ) == due_from(
                    model,
                    prefix@,
                    policy@,
                    views(snapshots@),
                    now as int,
                    i as int,
                    found@,
                ),
        decreases 6 - i,
    {
        let kind = SnapshotKind::ALL[i];
        assert(kind == all_kinds()[i as int]);
        if policy.retention(kind) != 0 {
            assert(schedulable(kind, policy@, now as int));
            let latest = newest_of_kind(snapshots, prefix, kind);
            match snapshot_due(kind, policy, latest, now, zone) {
                Err(e) => {
                    return Err(e);
                },
                Ok(due) => {
                    if due {
                        found.push(kind);
                    }
                },
            }
        }
        i += 1;
    }
    Ok(found)
}

// ---------------------------------------------------------------------------
// Expired snapshots
// ---------------------------------------------------------------------------

/// A snapshot that may be pruned, in the order of age.
pub struct Candidate {
    pub created: i64,
    pub name: String,
}

/// The model of a [`Candidate`].
pub struct CandidateModel {
    pub created: i64,
    pub name: Seq<char>,
}

impl View for Candidate {
    type V = CandidateModel;

    open spec fn view(&self) -> CandidateModel {
        CandidateModel { created: self.created, name: self.name@ }
    }
}

impl Sortable for Candidate {
    open spec fn may_precede(a: CandidateModel, b: CandidateModel) -> bool {
        a.created < b.created || (a.created == b.created && text_le(a.name, b.name))
    }

    proof fn lemma_total(a: CandidateModel, b: CandidateModel) {
        if text_lt(a.name, b.name) {
            lemma_lt_asymmetric(a.name, b.name);
        }
    }

    proof fn lemma_transitive(a: CandidateModel, b: CandidateModel, c: CandidateModel) {
        if a.created == b.created && b.created == c.created {
            lemma_le_transitive(a.name, b.name, c.name);
        }
    }

    fn precedes(&self, other: &Self) -> (res: bool) {
        self.created < other.created || (self.created == other.created && !before(
            other.name.as_str(),
            self.name.as_str(),
        ))
    }
}

/// A snapshot of a class that this program took, by its name and its mark.
pub open spec fn is_owned(prefix: Seq<char>, kind: SnapshotKind, snapshot: SnapshotModel) -> bool {
    kind_of(prefix, snapshot.name) == Some(kind) && snapshot.managed
}

/// The owned snapshots of a class, among the first `n`, that nothing protects.
pub open spec fn candidates(
    snapshots: Seq<SnapshotModel>,
    prefix: Seq<char>,
    kind: SnapshotKind,
    n: int,
) -> Seq<CandidateModel>
    decreases n,
{
    if n <= 0 {
        Seq::empty()
    } else {
        let earlier = candidates(snapshots, prefix, kind, n - 1);
        let snapshot = snapshots[n - 1];
        if is_owned(prefix, kind, snapshot) && !snapshot.protected() {
            earlier.push(CandidateModel { created: snapshot.created, name: snapshot.name })
        } else {
            earlier
        }
    }
}

/// The names to prune among candidates in the order of age, from `i` on: one
/// goes while more than `keep` remain and it was created before the cutoff.
pub open spec fn expire(
    matching: Seq<CandidateModel>,
    keep: int,
    cutoff: int,
    i: int,
    remaining: int,
    names: Seq<Seq<char>>,
) -> Seq<Seq<char>>
    decreases matching.len() - i,
{
    if i >= matching.len() {
        names
    } else if remaining > keep && matching[i].created < cutoff {
        expire(matching, keep, cutoff, i + 1, remaining - 1, names.push(matching[i].name))
    } else {
        expire(matching, keep, cutoff, i + 1, remaining, names)
    }
}

/// The instant before which snapshots of a class are past their retention.
pub open spec fn cutoff_of(policy: PolicyModel, kind: SnapshotKind, now: int) -> int {
    now - kind.period(policy.frequent_period as int) * kept(policy, kind)
}

/// The names of one class to prune, after those found before.
pub open spec fn expired_of_kind(
    policy: PolicyModel,
    prefix: Seq<char>,
    kind: SnapshotKind,
    snapshots: Seq<SnapshotModel>,
    now: int,
    names: Seq<Seq<char>>,
) -> Seq<Seq<char>> {
    let matching = sorted::<Candidate>(
        candidates(snapshots, prefix, kind, snapshots.len() as int),
    );
    expire(
        matching,
        kept(policy, kind) as int,
        cutoff_of(policy, kind, now),
        0,
        matching.len() as int,
        names,
    )
}

/// The names to prune of the classes before class `i`.
pub open spec fn expired_until(
    policy: PolicyModel,
    prefix: Seq<char>,
    snapshots: Seq<SnapshotModel>,
    now: int,
    i: int,
) -> Seq<Seq<char>>
    decreases i,
{
    if i <= 0 {
        Seq::empty()
    } else {
        expired_of_kind(
            policy,
            prefix,
            all_kinds()[i - 1],
            snapshots,
            now,
            expired_until(policy, prefix, snapshots, now, i - 1),
        )
    }
}

/// The names to prune, in order.
pub open spec fn expired(
    policy: PolicyModel,
    prefix: Seq<char>,
    snapshots: Seq<SnapshotModel>,
    now: int,
) -> Seq<Seq<char>> {
    sorted::<String>(
        expired_until(policy, prefix, snapshots, now, all_kinds().len() as int),
    )
}

pub open spec fn protected_entry(dataset: ResolvedModel, snapshot: SnapshotModel) -> ProtectedModel {
    ProtectedModel {
        pool: dataset.pool,
        dataset: dataset.name,
        name: snapshot.name,
        user_holds: snapshot.user_holds,
        has_clones: snapshot.has_clones,
    }
}

/// The owned snapshots of a class, among the first `n`, that something
/// protects.
pub open spec fn protected_of_kind(
    dataset: ResolvedModel,
    prefix: Seq<char>,
    kind: SnapshotKind,
    snapshots: Seq<SnapshotModel>,
    n: int,
) -> Seq<ProtectedModel>
    decreases n,
{
    if n <= 0 {
        Seq::empty()
    } else {
        let earlier = protected_of_kind(dataset, prefix, kind, snapshots, n - 1);
        if is_owned(prefix, kind, snapshots[n - 1]) && snapshots[n - 1].protected() {
            earlier.push(protected_entry(dataset, snapshots[n - 1]))
        } else {
            earlier
        }
    }
}

/// The protected snapshots of the classes before class `i`.
pub open spec fn protected_until(
    dataset: ResolvedModel,
    prefix: Seq<char>,
    snapshots: Seq<SnapshotModel>,
    i: int,
) -> Seq<ProtectedModel>
    decreases i,
{
    if i <= 0 {
        Seq::empty()
    } else {
        protected_until(dataset, prefix, snapshots, i - 1) + protected_of_kind(
            dataset,
            prefix,
            all_kinds()[i - 1],
            snapshots,
            snapshots.len() as int,
        )
    }
}

fn candidates_of(snapshots: &Vec<Snapshot>, prefix: &str, kind: SnapshotKind) -> (res: Vec<
    Candidate,
>)
    ensures
        views(res@) == candidates(views(snapshots@), prefix@, kind, snapshots@.len() as int),
{
    let mut found: Vec<Candidate> = Vec::new();
    let mut i: usize = 0;
    assert(views(found@) =~= Seq::<CandidateModel>::empty());
    while i < snapshots.len()
        invariant
            i <= snapshots@.len(),
            views(found@) == candidates(views(snapshots@), prefix@, kind, i as int),
        decreases snapshots.len() - i,
    {
        assert(views(snapshots@)[i as int] == snapshots@[i as int]@);
        let snapshot = &snapshots[i];
        if owned(snapshot, prefix, kind) && !snapshot.prune_protected() {
            let candidate = Candidate { created: snapshot.created, name: snapshot.name.clone() };
            proof {
                lemma_views_push(found@, candidate);
            }
            found.push(candidate);
        }
        i += 1;
    }
    found
}

fn owned(snapshot: &Snapshot, prefix: &str, kind: SnapshotKind) -> (res: bool)
    ensures
        res == is_owned(prefix@, kind, snapshot@),
{
    match snapshot_kind(prefix, snapshot.name.as_str()) {
        Some(found) => found == kind && snapshot.managed,
        None => false,
    }
}

/// Adds the expired names of one class.
fn expire_kind(
    names: &mut Vec<String>,
    policy: &Policy,
    prefix: &str,
    kind: SnapshotKind,
    snapshots: &Vec<Snapshot>,
    now: i64,
)
    ensures
        texts(final(names)@) == expired_of_kind(
            policy@,
            prefix@,
            kind,
            views(snapshots@),
            now as int,
            texts(old(names)@),
        ),
{
    let ghost start = texts(names@);
    let matching = sort(candidates_of(snapshots, prefix, kind));
    let keep: u32 = policy.retention(kind);
    let period: i64 = kind.approximate_period_seconds(policy.frequent_period);
    assert(0 <= period * keep <= 0x1_0000_0000i128 * 60 * 0x1_0000_0000i128) by (nonlinear_arith)
        requires
            0 <= period <= 0x1_0000_0000i128 * 60,
            0 <= keep < 0x1_0000_0000i128,
    ;
    let cutoff: i128 = now as i128 - period as i128 * keep as i128;
    let ghost limit = cutoff_of(policy@, kind, now as int);
    let ghost all = views(matching@);
    let mut remaining: usize = matching.len();
    let mut i: usize = 0;
    while i < matching.len()
        invariant
            i <= matching@.len(),
            matching@.len() - i <= remaining <= matching@.len(),
            all == views(matching@),
            cutoff == limit,
            expire(all, keep as int, limit, 0, all.len() as int, start) == expire(
                all,
                keep as int,
                limit,
                i as int,
                remaining as int,
                texts(names@),
            ),
        decreases matching.len() - i,
    {
        let candidate = &matching[i];
        assert(all[i as int] == candidate@);
        if remaining as u64 > keep as u64 && (candidate.created as i128) < cutoff {
            let name = candidate.name.clone();
            proof {
                lemma_texts_push(names@, name);
            }
            names.push(name);
            remaining -= 1;
        }
        i += 1;
    }
}

fn expired_names(policy: &Policy, prefix: &str, snapshots: &Vec<Snapshot>, now: i64) -> (res: Vec<
    String,
>)
    ensures
        texts(res@) == expired(policy@, prefix@, views(snapshots@), now as int),
{
    let mut names: Vec<String> = Vec::new();
    let mut i: usize = 0;
    assert(texts(names@) =~= Seq::<Seq<char>>::empty());
    while i < 6
        invariant
            i <= 6,
            all_kinds().len() == 6,
            texts(names@) == expired_until(
                policy@,
                prefix@,
                views(snapshots@),
                now as int,
                i as int,
            ),
        decreases 6 - i,
    {
        let kind = SnapshotKind::ALL[i];
        assert(kind == all_kinds()[i as int]);
        expire_kind(&mut names, policy, prefix, kind, snapshots, now);
        i += 1;
    }
    proof {
        lemma_views_texts(names@);
    }
    let res = sort(names);
    proof {
        lemma_views_texts(res@);
    }
    res
}

/// Adds the protected snapshots of one class.
fn protect_kind(
    found: &mut Vec<ProtectedSnapshot>,
    dataset: &ResolvedDataset,
    prefix: &str,
    kind: SnapshotKind,
    snapshots: &Vec<Snapshot>,
)
    ensures
        views(final(found)@) == views(old(found)@) + protected_of_kind(
            dataset@,
            prefix@,
            kind,
            views(snapshots@),
            snapshots@.len() as int,
        ),
{
    let ghost start = views(found@);
    let mut i: usize = 0;
    assert(start + protected_of_kind(dataset@, prefix@, kind, views(snapshots@), 0) =~= start);
    while i < snapshots.len()
        invariant
            i <= snapshots@.len(),
            views(found@) == start + protected_of_kind(
                dataset@,
                prefix@,
                kind,
                views(snapshots@),
                i as int,
            ),
        decreases snapshots.len() - i,
    {
        assert(views(snapshots@)[i as int] == snapshots@[i as int]@);
        let snapshot = &snapshots[i];
        if owned(snapshot, prefix, kind) && snapshot.prune_protected() {
            let entry = ProtectedSnapshot {
                pool: dataset.pool.clone(),
                dataset: dataset.name.clone(),
                name: snapshot.name.clone(),
                user_holds: snapshot.user_holds,
                has_clones: snapshot.has_clones,
            };
            proof {
                lemma_views_push(found@, entry);
                let earlier = protected_of_kind(
                    dataset@,
                    prefix@,
                    kind,
                    views(snapshots@),
                    i as int,
                );
                assert(start + earlier.push(entry@) =~= (start + earlier).push(entry@));
            }
            found.push(entry);
        }
        i += 1;
    }
}

/// Adds the protected snapshots of a dataset.
fn protect(
    found: &mut Vec<ProtectedSnapshot>,
    dataset: &ResolvedDataset,
    prefix: &str,
    snapshots: &Vec<Snapshot>,
)
    ensures
        views(final(found)@) == views(old(found)@) + protected_until(
            dataset@,
            prefix@,
            views(snapshots@),
            all_kinds().len() as int,
        ),
{
    let ghost start = views(found@);
    let mut i: usize = 0;
    assert(start + protected_until(dataset@, prefix@, views(snapshots@), 0) =~= start);
    while i < 6
        invariant
            i <= 6,
            all_kinds().len() == 6,
            views(found@) == start + protected_until(
                dataset@,
                prefix@,
                views(snapshots@),
                i as int,
            ),
        decreases 6 - i,
    {
        let kind = SnapshotKind::ALL[i];
        assert(kind == all_kinds()[i as int]);
        protect_kind(found, dataset, prefix, kind, snapshots);
        assert(start + protected_until(dataset@, prefix@, views(snapshots@), i + 1) =~= start
            + protected_until(dataset@, prefix@, views(snapshots@), i as int) + protected_of_kind(
            dataset@,
            prefix@,
            kind,
            views(snapshots@),
            snapshots@.len() as int,
        ));
        i += 1;
    }
}

// ---------------------------------------------------------------------------
// The plan of a run
// ---------------------------------------------------------------------------

/// The plan with the due snapshots of a dataset added.
pub open spec fn with_snapshots(
    plan: PlanModel,
    dataset: ResolvedModel,
    prefix: Seq<char>,
    time: Seq<char>,
    kinds: Seq<SnapshotKind>,
) -> PlanModel {
    if kinds.len() == 0 {
        plan
    } else {
        PlanModel {
            snapshots: plan.snapshots.push(
                SnapshotActionModel {
                    pool: dataset.pool,
                    dataset: dataset.name,
                    recursive: dataset.snapshot_strategy == StrategyModel::RecursiveRoot,
                    names: snapshot_names(prefix, time, kinds),
                    kinds,
                    policy: dataset.policy,
                },
            ),
            ..plan
        }
    }
}

/// The plan after the snapshot phase of a dataset.
pub open spec fn snapshot_step(
    zone: ZoneModel,
    prefix: Seq<char>,
    dataset: ResolvedModel,
    snapshots: Seq<SnapshotModel>,
    now: int,
    plan: PlanModel,
) -> Result<PlanModel, Seq<char>> {
    if takes_snapshots(dataset) {
        match due_from(zone, prefix, dataset.policy, snapshots, now, 0, Seq::empty()) {
            Ok(kinds) => Ok(
                with_snapshots(plan, dataset, prefix, timestamp_text(zone, now), kinds),
            ),
            Err(message) => Err(message),
        }
    } else {
        Ok(plan)
    }
}

/// The plan with the expired and the protected snapshots of a dataset added.
pub open spec fn with_prunes(
    plan: PlanModel,
    dataset: ResolvedModel,
    prefix: Seq<char>,
    snapshots: Seq<SnapshotModel>,
    now: int,
) -> PlanModel {
    let names = expired(dataset.policy, prefix, snapshots, now);
    PlanModel {
        prunes: if names.len() == 0 {
            plan.prunes
        } else {
            plan.prunes.push(
                PruneActionModel {
                    pool: dataset.pool,
                    dataset: dataset.name,
                    names,
                    policy: dataset.policy,
                },
            )
        },
        protected_snapshots: plan.protected_snapshots + protected_until(
            dataset,
            prefix,
            snapshots,
            all_kinds().len() as int,
        ),
        ..plan
    }
}

/// The plan after the prune phase of a dataset: nothing without pruning, a
/// deferral while its pool has room, and otherwise its expired snapshots.
pub open spec fn prune_step(
    prefix: Seq<char>,
    inventory: InventoryModel,
    dataset: ResolvedModel,
    snapshots: Seq<SnapshotModel>,
    now: int,
    plan: PlanModel,
) -> Result<PlanModel, Seq<char>> {
    if !dataset.policy.autoprune {
        Ok(plan)
    } else {
        match lookup(inventory.pools, dataset.pool) {
            None => Err(
                "pool "@ + debug_text(dataset.pool) + " is missing from the zpool inventory"@,
            ),
            Some(pool) => if dataset.policy.prune_defer > 0 && pool.capacity_percent
                < dataset.policy.prune_defer {
                Ok(
                    PlanModel {
                        deferred_prune_datasets: plan.deferred_prune_datasets.push(dataset.name),
                        ..plan
                    },
                )
            } else {
                Ok(with_prunes(plan, dataset, prefix, snapshots, now))
            },
        }
    }
}

/// The plan after both phases of a dataset.
pub open spec fn dataset_step(
    zone: ZoneModel,
    prefix: Seq<char>,
    inventory: InventoryModel,
    dataset: ResolvedModel,
    now: int,
    plan: PlanModel,
) -> Result<PlanModel, Seq<char>> {
    let snapshots = of_dataset(
        inventory.snapshots,
        dataset.name,
        inventory.snapshots.len() as int,
    );
    match snapshot_step(zone, prefix, dataset, snapshots, now, plan) {
        Err(message) => Err(message),
        Ok(plan) => prune_step(prefix, inventory, dataset, snapshots, now, plan),
    }
}

/// The plan after the datasets from `i` on.
pub open spec fn plan_from(
    zone: ZoneModel,
    prefix: Seq<char>,
    inventory: InventoryModel,
    datasets: Seq<ResolvedModel>,
    now: int,
    i: int,
    plan: PlanModel,
) -> Result<PlanModel, Seq<char>>
    decreases datasets.len() - i,
{
    if i >= datasets.len() {
        Ok(plan)
    } else {
        match dataset_step(zone, prefix, inventory, datasets[i], now, plan) {
            Err(message) => Err(message),
            Ok(plan) => plan_from(zone, prefix, inventory, datasets, now, i + 1, plan),
        }
    }
}

/// A plan in order: actions by pool and dataset, protected snapshots by pool,
/// dataset and name.
pub open spec fn ordered(plan: PlanModel) -> PlanModel {
    PlanModel {
        snapshots: sorted::<SnapshotAction>(plan.snapshots),
        prunes: sorted::<PruneAction>(plan.prunes),
        deferred_prune_datasets: sorted::<String>(plan.deferred_prune_datasets),
        protected_snapshots: sorted::<ProtectedSnapshot>(plan.protected_snapshots),
    }
}

/// The plan of a run at `now`.
pub open spec fn planned(
    zone: ZoneModel,
    config: ConfigModel,
    inventory: InventoryModel,
    datasets: Seq<ResolvedModel>,
    now: int,
) -> Result<PlanModel, Seq<char>> {
    match plan_from(
        zone,
        config.settings.snapshot_prefix,
        inventory,
        datasets,
        now,
        0,
        empty_plan(),
    ) {
        Ok(plan) => Ok(ordered(plan)),
        Err(message) => Err(message),
    }
}

/// Whether a dataset takes snapshots of its own: automatic ones, and not those
/// of a recursive root.
pub open spec fn takes_snapshots(dataset: ResolvedModel) -> bool {
    dataset.policy.autosnap && !(dataset.snapshot_strategy is CoveredByRecursive)
}

/// Every dataset that takes snapshots has a schedule around an instant.
pub open spec fn all_scheduled(datasets: Seq<ResolvedModel>, now: int) -> bool {
    forall|i: int|
        0 <= i < datasets.len() && takes_snapshots(#[trigger] datasets[i]) ==> has_schedule(
            datasets[i].policy,
            now,
        )
}

fn names_for(prefix: &str, time: &str, kinds: &Vec<SnapshotKind>) -> (res: Vec<String>)
    ensures
        texts(res@) == snapshot_names(prefix@, time@, kinds@),
{
    let ghost all = snapshot_names(prefix@, time@, kinds@);
    let mut names: Vec<String> = Vec::new();
    let mut i: usize = 0;
    assert(texts(names@) =~= all.take(0));
    while i < kinds.len()
        invariant
            i <= kinds@.len(),
            all == snapshot_names(prefix@, time@, kinds@),
            texts(names@) == all.take(i as int),
        decreases kinds.len() - i,
    {
        let mut name = prefix.to_owned();
        name.append("_");
        name.append(time);
        name.append("_");
        name.append(kinds[i].as_str());
        proof {
            lemma_texts_push(names@, name);
            assert(all.take(i + 1) =~= all.take(i as int).push(name@));
        }
        names.push(name);
        i += 1;
    }
    assert(all.take(i as int) =~= all);
    names
}

/// Adds the due snapshots of a dataset to a plan.
fn add_snapshots(
    plan: &mut Plan,
    zone: &mut Zone,
    prefix: &str,
    time: &str,
    dataset: &ResolvedDataset,
    snapshots: &Vec<Snapshot>,
    now: i64,
) -> (res: Result<(), Error>)
    requires
        plannable(now as int),
        takes_snapshots(dataset@) ==> has_schedule(dataset.policy@, now as int),
        forall|model: ZoneModel| #[trigger]
            old(zone).agrees(model) ==> time@ == timestamp_text(model, now as int),
        old(zone).has_model(),
    ensures
        final(zone).refines(*old(zone)),
        final(zone).has_model(),
        forall|model: ZoneModel| #[trigger]
            final(zone).agrees(model) ==> match (
                res,
                snapshot_step(
                    model,
                    prefix@,
                    dataset@,
                    views(snapshots@),
                    now as int,
                    old(plan)@,
                ),
            ) {
                (Ok(_), Ok(expected)) => final(plan)@ == expected,
                (Err(e), Err(message)) => e@ == plain(message),
                _ => false,
            },
{
    let covered = match dataset.snapshot_strategy {
        SnapshotStrategy::CoveredByRecursive(_) => true,
        _ => false,
    };
    if !dataset.policy.autosnap || covered {
        return Ok(());
    }
    let ghost start = plan@;
    match due_kinds(zone, prefix, &dataset.policy, snapshots, now) {
        Err(e) => Err(e),
        Ok(kinds) => {
            if kinds.len() > 0 {
                let recursive = match dataset.snapshot_strategy {
                    SnapshotStrategy::RecursiveRoot => true,
                    _ => false,
                };
                let action = SnapshotAction {
                    pool: dataset.pool.clone(),
                    dataset: dataset.name.clone(),
                    recursive,
                    names: names_for(prefix, time, &kinds),
                    kinds,
                    policy: dataset.policy.clone(),
                };
                proof {
                    lemma_views_push(plan.snapshots@, action);
                }
                plan.snapshots.push(action);
                assert(plan@ =~= with_snapshots(start, dataset@, prefix@, time@, action.kinds@));
            }
            Ok(())
        },
    }
}

/// Adds the expired snapshots of a dataset to a plan.
fn add_prunes(
    plan: &mut Plan,
    prefix: &str,
    inventory: &Inventory,
    dataset: &ResolvedDataset,
    snapshots: &Vec<Snapshot>,
    now: i64,
) -> (res: Result<(), Error>)
    ensures
        match (
            res,
            prune_step(
                prefix@,
                inventory@,
                dataset@,
                views(snapshots@),
                now as int,
                old(plan)@,
            ),
        ) {
            (Ok(_), Ok(expected)) => final(plan)@ == expected,
            (Err(e), Err(message)) => e@ == plain(message),
            _ => false,
        },
{
    if !dataset.policy.autoprune {
        return Ok(());
    }
    let ghost start = plan@;
    let capacity: u8 = match inventory.pools.get(dataset.pool.as_str()) {
        Some(pool) => pool.capacity_percent,
        None => {
            let mut message = "pool ".to_owned();
            message.append(quoted(dataset.pool.as_str()).as_str());
            message.append(" is missing from the zpool inventory");
            return Err(Error::new(message));
        },
    };
    if dataset.policy.prune_defer > 0 && capacity < dataset.policy.prune_defer {
        let name = dataset.name.clone();
        proof {
            lemma_texts_push(plan.deferred_prune_datasets@, name);
        }
        plan.deferred_prune_datasets.push(name);
        assert(plan@ =~= PlanModel {
            deferred_prune_datasets: start.deferred_prune_datasets.push(dataset.name@),
            ..start
        });
        return Ok(());
    }
    let names = expired_names(&dataset.policy, prefix, snapshots, now);
    let ghost expected = texts(names@);
    protect(&mut plan.protected_snapshots, dataset, prefix, snapshots);
    assert(expected.len() == names@.len());
    if names.len() > 0 {
        let action = PruneAction {
            pool: dataset.pool.clone(),
            dataset: dataset.name.clone(),
            names,
            policy: dataset.policy.clone(),
        };
        proof {
            lemma_views_push(plan.prunes@, action);
        }
        plan.prunes.push(action);
    }
    assert(plan@ =~= with_prunes(start, dataset@, prefix@, views(snapshots@), now as int));
    Ok(())
}

/// Adds the actions of a dataset to a plan.
fn add_dataset(
    plan: &mut Plan,
    zone: &mut Zone,
    prefix: &str,
    time: &str,
    inventory: &Inventory,
    dataset: &ResolvedDataset,
    now: i64,
) -> (res: Result<(), Error>)
    requires
        plannable(now as int),
        takes_snapshots(dataset@) ==> has_schedule(dataset.policy@, now as int),
        forall|model: ZoneModel| #[trigger]
            old(zone).agrees(model) ==> time@ == timestamp_text(model, now as int),
        old(zone).has_model(),
    ensures
        final(zone).refines(*old(zone)),
        final(zone).has_model(),
        forall|model: ZoneModel| #[trigger]
            final(zone).agrees(model) ==> match (
                res,
                dataset_step(model, prefix@, inventory@, dataset@, now as int, old(plan)@),
            ) {
                (Ok(_), Ok(expected)) => final(plan)@ == expected,
                (Err(e), Err(message)) => e@ == plain(message),
                _ => false,
            },
{
    let snapshots = snapshots_of(&inventory.snapshots, &dataset.name);
    match add_snapshots(plan, zone, prefix, time, dataset, &snapshots, now) {
        Ok(()) => add_prunes(plan, prefix, inventory, dataset, &snapshots, now),
        Err(e) => Err(e),
    }
}

fn order(plan: Plan) -> (res: Plan)
    ensures
        res@ == ordered(plan@),
{
    let Plan { snapshots, prunes, deferred_prune_datasets, protected_snapshots } = plan;
    proof {
        lemma_views_texts(deferred_prune_datasets@);
    }
    let deferred = sort(deferred_prune_datasets);
    proof {
        lemma_views_texts(deferred@);
    }
    Plan {
        snapshots: sort(snapshots),
        prunes: sort(prunes),
        deferred_prune_datasets: deferred,
        protected_snapshots: sort(protected_snapshots),
    }
}

/// Whether the names that a plan gives are recognised again with their classes,
/// where the prefix is one that a valid configuration can have and the clock
/// shows a year from zero to 9999.
pub open spec fn recognises(
    config: ConfigModel,
    model: ZoneModel,
    now: int,
    res: Result<Plan, Error>,
) -> bool {
    all_safe(config.settings.snapshot_prefix) && is_usual_moment(model, now) ==> match res {
        Ok(plan) => all_recognised(config.settings.snapshot_prefix, plan@.snapshots),
        Err(_) => true,
    }
}

/// The plan of a run at `now` in a time zone.
pub fn build_plan_in(
    config: &Config,
    inventory: &Inventory,
    datasets: &Vec<ResolvedDataset>,
    now: i64,
    zone: &mut Zone,
) -> (res: Result<Plan, Error>)
    requires
        plannable(now as int),
        all_scheduled(views(datasets@), now as int),
    ensures
        final(zone).refines(*old(zone)),
        final(zone).has_model(),
        forall|model: ZoneModel| #[trigger]
            final(zone).agrees(model) ==> yields(
                res,
                planned(model, config@, inventory@, views(datasets@), now as int),
            ),
        forall|model: ZoneModel| #[trigger]
            final(zone).agrees(model) ==> recognises(config@, model, now as int, res),
{
    let prefix = config.settings.snapshot_prefix.as_str();
    let time = snapshot_timestamp_in(zone, now);
    let ghost all = views(datasets@);
    let mut plan = Plan::default();
    let mut i: usize = 0;
    while i < datasets.len()
        invariant
            i <= datasets@.len(),
            all == views(datasets@),
            prefix@ == config@.settings.snapshot_prefix,
            plannable(now as int),
            all_scheduled(all, now as int),
            zone.refines(*old(zone)),
            zone.has_model(),
            forall|model: ZoneModel| #[trigger]
                zone.agrees(model) ==> time@ == timestamp_text(model, now as int) && is_read_back(
                    model,
                    now as int,
                ),
            forall|model: ZoneModel| #[trigger]
                zone.agrees(model) ==> plan_from(
                    model,
                    prefix@,
                    inventory@,
                    all,
                    now as int,
                    0,
                    empty_plan(),
                ) == plan_from(model, prefix@, inventory@, all, now as int, i as int, plan@),
        decreases datasets.len() - i,
    {
        let dataset = &datasets[i];
        assert(all[i as int] == dataset@);
        match add_dataset(&mut plan, zone, prefix, time.as_str(), inventory, dataset, now) {
            Ok(()) => {},
            Err(e) => {
                return Err(e);
            },
        }
        i += 1;
    }
    let plan = order(plan);
    proof {
        assert forall|model: ZoneModel| #[trigger] zone.agrees(model) implies recognises(
            config@,
            model,
            now as int,
            Ok(plan),
        ) by {
            if all_safe(config@.settings.snapshot_prefix) && is_usual_moment(model, now as int) {
                law_planned_names_are_recognised(
                    model,
                    config@,
                    inventory@,
                    all,
                    now as int,
                    plan@,
                );
            }
        }
    }
    Ok(plan)
}

/// Whether a model is one that a configured time zone can have: UTC, or the
/// zone of the host, whose clock is never a day off.
pub open spec fn may_be_zone(timezone: ScheduleTimezone, model: ZoneModel) -> bool {
    match timezone {
        ScheduleTimezone::Utc => model == utc_model(),
        ScheduleTimezone::Local => model.within_a_day(),
    }
}

/// The time zone that a configuration asks for: UTC, or the zone of the host,
/// which every model agrees with until it is asked.
pub fn configured_zone(timezone: ScheduleTimezone) -> (res: Zone)
    ensures
        timezone == ScheduleTimezone::Utc ==> forall|model: ZoneModel| #[trigger]
            res.agrees(model) <==> model == utc_model(),
        timezone == ScheduleTimezone::Local ==> forall|model: ZoneModel| #[trigger]
            res.agrees(model),
{
    match timezone {
        ScheduleTimezone::Local => Zone::host(),
        ScheduleTimezone::Utc => Zone::utc(),
    }
}

/// The plan of a run at `now` in the configured time zone. UTC decides the
/// plan; the zone of the host is any zone.
pub fn build_plan(
    config: &Config,
    inventory: &Inventory,
    datasets: &Vec<ResolvedDataset>,
    now: i64,
) -> (res: Result<Plan, Error>)
    requires
        plannable(now as int),
        all_scheduled(views(datasets@), now as int),
    ensures
        exists|model: ZoneModel| #[trigger]
            may_be_zone(config@.settings.timezone, model) && yields(
                res,
                planned(model, config@, inventory@, views(datasets@), now as int),
            ) && recognises(config@, model, now as int, res),
{
    let mut zone = configured_zone(config.settings.timezone);
    let ghost start = zone;
    let res = build_plan_in(config, inventory, datasets, now, &mut zone);
    proof {
        let model = choose|model: ZoneModel| #[trigger] zone.agrees(model) && model.within_a_day();
        assert(start.agrees(model));
        assert(may_be_zone(config@.settings.timezone, model));
    }
    res
}

// ---------------------------------------------------------------------------
// Reading and narrowing a plan
// ---------------------------------------------------------------------------

/// How many snapshots the first `n` snapshot actions take.
pub open spec fn snapshots_in(actions: Seq<SnapshotActionModel>, n: int) -> nat
    decreases n,
{
    if n <= 0 {
        0
    } else {
        snapshots_in(actions, n - 1) + actions[n - 1].names.len()
    }
}

/// How many snapshots the first `n` prune actions destroy.
pub open spec fn prunes_in(actions: Seq<PruneActionModel>, n: int) -> nat
    decreases n,
{
    if n <= 0 {
        0
    } else {
        prunes_in(actions, n - 1) + actions[n - 1].names.len()
    }
}

proof fn lemma_snapshots_grow(actions: Seq<SnapshotActionModel>, m: int, n: int)
    requires
        0 <= m <= n,
    ensures
        snapshots_in(actions, m) <= snapshots_in(actions, n),
    decreases n,
{
    if m < n {
        lemma_snapshots_grow(actions, m, n - 1);
    }
}

proof fn lemma_prunes_grow(actions: Seq<PruneActionModel>, m: int, n: int)
    requires
        0 <= m <= n,
    ensures
        prunes_in(actions, m) <= prunes_in(actions, n),
    decreases n,
{
    if m < n {
        lemma_prunes_grow(actions, m, n - 1);
    }
}

/// The pool of each action and of each protected snapshot.
pub open spec fn mentioned_pools(plan: PlanModel) -> Seq<Seq<char>> {
    plan.snapshots.map_values(|action: SnapshotActionModel| action.pool) + plan.prunes.map_values(
        |action: PruneActionModel| action.pool,
    ) + plan.protected_snapshots.map_values(|snapshot: ProtectedModel| snapshot.pool)
}

/// The pools of a plan, each once, in order.
pub open spec fn plan_pools(plan: PlanModel) -> Seq<Seq<char>> {
    name_set(mentioned_pools(plan), mentioned_pools(plan).len() as int)
}

/// How many snapshots some prune actions destroy.
pub(crate) fn count_prunes(actions: &Vec<PruneAction>) -> (res: usize)
    requires
        prunes_in(views(actions@), actions@.len() as int) <= usize::MAX,
    ensures
        res == prunes_in(views(actions@), actions@.len() as int),
{
    let ghost all = views(actions@);
    let mut count: usize = 0;
    let mut i: usize = 0;
    while i < actions.len()
        invariant
            i <= actions@.len(),
            all == views(actions@),
            prunes_in(all, actions@.len() as int) <= usize::MAX,
            count == prunes_in(all, i as int),
        decreases actions.len() - i,
    {
        proof {
            assert(all[i as int] == actions@[i as int]@);
            lemma_prunes_grow(all, i + 1, actions@.len() as int);
        }
        count += actions[i].names.len();
        i += 1;
    }
    count
}

impl Plan {
    /// The pools of the plan.
    pub fn pools(&self) -> (res: NameSet)
        ensures
            res@ == plan_pools(self@),
            increasing(res@),
            forall|pool: Seq<char>| #[trigger]
                res@.contains(pool) <==> mentioned_pools(self@).contains(pool),
    {
        let mut pools = NameSet::new();
        let ghost all = mentioned_pools(self@);
        let mut i: usize = 0;
        while i < self.snapshots.len()
            invariant
                i <= self.snapshots@.len(),
                all == mentioned_pools(self@),
                pools@ == name_set(all, i as int),
            decreases self.snapshots.len() - i,
        {
            assert(all[i as int] == self.snapshots@[i as int].pool@);
            pools.insert(self.snapshots[i].pool.clone());
            i += 1;
        }
        let mut j: usize = 0;
        while j < self.prunes.len()
            invariant
                j <= self.prunes@.len(),
                all == mentioned_pools(self@),
                pools@ == name_set(all, self.snapshots@.len() + j),
            decreases self.prunes.len() - j,
        {
            assert(all[self.snapshots@.len() + j] == self.prunes@[j as int].pool@);
            pools.insert(self.prunes[j].pool.clone());
            j += 1;
        }
        let mut k: usize = 0;
        while k < self.protected_snapshots.len()
            invariant
                k <= self.protected_snapshots@.len(),
                all == mentioned_pools(self@),
                pools@ == name_set(all, self.snapshots@.len() + self.prunes@.len() + k),
            decreases self.protected_snapshots.len() - k,
        {
            assert(all[self.snapshots@.len() + self.prunes@.len() + k]
                == self.protected_snapshots@[k as int].pool@);
            pools.insert(self.protected_snapshots[k].pool.clone());
            k += 1;
        }
        proof {
            lemma_name_set(all, all.len() as int);
            assert(all.take(all.len() as int) =~= all);
        }
        pools
    }

    /// How many snapshots the plan takes.
    pub fn snapshot_count(&self) -> (res: usize)
        requires
            snapshots_in(self@.snapshots, self@.snapshots.len() as int) <= usize::MAX,
        ensures
            res == snapshots_in(self@.snapshots, self@.snapshots.len() as int),
    {
        let mut count: usize = 0;
        let mut i: usize = 0;
        while i < self.snapshots.len()
            invariant
                i <= self.snapshots@.len(),
                snapshots_in(self@.snapshots, self@.snapshots.len() as int) <= usize::MAX,
                count == snapshots_in(self@.snapshots, i as int),
            decreases self.snapshots.len() - i,
        {
            proof {
                assert(self@.snapshots[i as int] == self.snapshots@[i as int]@);
                lemma_snapshots_grow(self@.snapshots, i + 1, self@.snapshots.len() as int);
            }
            count += self.snapshots[i].names.len();
            i += 1;
        }
        count
    }

    /// How many snapshots the plan destroys.
    pub fn prune_count(&self) -> (res: usize)
        requires
            prunes_in(self@.prunes, self@.prunes.len() as int) <= usize::MAX,
        ensures
            res == prunes_in(self@.prunes, self@.prunes.len() as int),
    {
        count_prunes(&self.prunes)
    }

    pub fn protected_snapshot_count(&self) -> (res: usize)
        ensures
            res == self@.protected_snapshots.len(),
    {
        self.protected_snapshots.len()
    }

    /// Drops everything but the snapshots to take.
    pub fn retain_snapshots_only(&mut self)
        ensures
            final(self)@ == (PlanModel { snapshots: old(self)@.snapshots, ..empty_plan() }),
    {
        self.prunes.clear();
        self.deferred_prune_datasets.clear();
        self.protected_snapshots.clear();
        assert(self@ =~= PlanModel { snapshots: old(self)@.snapshots, ..empty_plan() });
    }

    /// Drops the snapshots to take.
    pub fn retain_prunes_only(&mut self)
        ensures
            final(self)@ == (PlanModel { snapshots: Seq::empty(), ..old(self)@ }),
    {
        self.snapshots.clear();
        assert(self@ =~= PlanModel { snapshots: Seq::empty(), ..old(self)@ });
    }
}

} // verus!
