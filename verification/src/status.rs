//! The status cache: how many snapshots the pools and datasets hold.
use vstd::prelude::*;

use crate::error::{error, reports, Error};
use crate::names::{increasing, lemma_lookup, lemma_put, lemma_with_name, lookup, names_of, put, with_name, NameMap, NameSet};
use crate::planner::{Plan, PlanModel, PruneActionModel, SnapshotActionModel};
use crate::policy::{failure, or_else};
use crate::sort::{lemma_views_push, views};
use crate::text::{debug_text, decimal, has_prefix, number, quoted, starts_with, texts};
use crate::zfs::{lemma_name_set, name_set, name_set_of, pool_of, values_of, Inventory, InventoryModel, PoolModel, SnapshotModel};

verus! {

pub const STATUS_CACHE_VERSION: u32 = 1;

/// An instant: seconds since the epoch and nanoseconds within the second.
#[derive(Debug, Clone, Copy, PartialEq, Eq, Structural)]
pub struct Timestamp {
    pub seconds: i64,
    pub nanoseconds: u32,
}

#[derive(Debug, Clone, Copy, PartialEq, Eq, Structural)]
pub struct StatusTotals {
    pub pools: usize,
    pub datasets: usize,
    pub snapshots: usize,
    pub managed_snapshots: usize,
}

#[derive(Debug, PartialEq, Eq)]
pub struct PoolStatus {
    pub name: String,
    pub capacity_percent: Option<u8>,
    pub datasets: usize,
    pub snapshots: usize,
    pub managed_snapshots: usize,
}

/// The model of a [`PoolStatus`].
pub struct PoolStatusModel {
    pub name: Seq<char>,
    pub capacity_percent: Option<u8>,
    pub datasets: usize,
    pub snapshots: usize,
    pub managed_snapshots: usize,
}

impl View for PoolStatus {
    type V = PoolStatusModel;

    open spec fn view(&self) -> PoolStatusModel {
        PoolStatusModel {
            name: self.name@,
            capacity_percent: self.capacity_percent,
            datasets: self.datasets,
            snapshots: self.snapshots,
            managed_snapshots: self.managed_snapshots,
        }
    }
}

#[derive(Debug, PartialEq, Eq)]
pub struct DatasetStatus {
    pub name: String,
    pub pool: String,
    pub snapshots: usize,
    pub managed_snapshots: usize,
}

/// The model of a [`DatasetStatus`].
pub struct DatasetStatusModel {
    pub name: Seq<char>,
    pub pool: Seq<char>,
    pub snapshots: usize,
    pub managed_snapshots: usize,
}

impl View for DatasetStatus {
    type V = DatasetStatusModel;

    open spec fn view(&self) -> DatasetStatusModel {
        DatasetStatusModel {
            name: self.name@,
            pool: self.pool@,
            snapshots: self.snapshots,
            managed_snapshots: self.managed_snapshots,
        }
    }
}

/// A summary of the inventory.
#[derive(Debug, PartialEq, Eq)]
pub struct StatusCache {
    pub version: u32,
    pub generated_at: Timestamp,
    pub inventory_scan_milliseconds: u64,
    pub scope_roots: Vec<String>,
    pub totals: StatusTotals,
    pub pools: Vec<PoolStatus>,
    pub datasets: Vec<DatasetStatus>,
}

/// The model of a [`StatusCache`].
#[verifier::ext_equal]
pub struct CacheModel {
    pub version: u32,
    pub generated_at: Timestamp,
    pub inventory_scan_milliseconds: u64,
    pub scope_roots: Seq<Seq<char>>,
    pub totals: StatusTotals,
    pub pools: Seq<PoolStatusModel>,
    pub datasets: Seq<DatasetStatusModel>,
}

impl View for StatusCache {
    type V = CacheModel;

    open spec fn view(&self) -> CacheModel {
        CacheModel {
            version: self.version,
            generated_at: self.generated_at,
            inventory_scan_milliseconds: self.inventory_scan_milliseconds,
            scope_roots: texts(self.scope_roots@),
            totals: self.totals,
            pools: views(self.pools@),
            datasets: views(self.datasets@),
        }
    }
}

// ---------------------------------------------------------------------------
// Counting
// ---------------------------------------------------------------------------

/// Addition that stops at the largest count.
pub open spec fn plus(a: usize, b: usize) -> usize {
    if a + b > usize::MAX {
        usize::MAX
    } else {
        (a + b) as usize
    }
}

/// Subtraction that stops at zero.
pub open spec fn minus(a: usize, b: usize) -> usize {
    if a < b {
        0
    } else {
        (a - b) as usize
    }
}

/// The snapshots of a dataset, and those of them that are managed.
#[derive(Debug, Clone, Copy, PartialEq, Eq, Structural)]
pub struct Counts {
    pub snapshots: usize,
    pub managed: usize,
}

impl View for Counts {
    type V = Counts;

    open spec fn view(&self) -> Counts {
        *self
    }
}

/// The datasets found so far, and the counts of those with snapshots.
pub struct Tally {
    pub names: Seq<Seq<char>>,
    pub counts: Seq<(Seq<char>, Counts)>,
}

pub open spec fn count_of(counts: Seq<(Seq<char>, Counts)>, name: Seq<char>) -> Counts {
    match lookup(counts, name) {
        Some(found) => found,
        None => Counts { snapshots: 0, managed: 0 },
    }
}

/// The counts with some snapshots more for a dataset.
pub open spec fn counted(
    counts: Seq<(Seq<char>, Counts)>,
    name: Seq<char>,
    snapshots: usize,
    managed: usize,
) -> Seq<(Seq<char>, Counts)> {
    let earlier = count_of(counts, name);
    put(
        counts,
        name,
        Counts {
            snapshots: plus(earlier.snapshots, snapshots),
            managed: plus(earlier.managed, managed),
        },
    )
}

/// The tally of the first `n` snapshots.
pub open spec fn tally_snapshots(datasets: Seq<Seq<char>>, snapshots: Seq<SnapshotModel>, n: int) -> Tally
    decreases n,
{
    if n <= 0 {
        Tally { names: datasets, counts: Seq::empty() }
    } else {
        let earlier = tally_snapshots(datasets, snapshots, n - 1);
        let snapshot = snapshots[n - 1];
        Tally {
            names: with_name(earlier.names, snapshot.dataset),
            counts: counted(
                earlier.counts,
                snapshot.dataset,
                1,
                if snapshot.managed {
                    1
                } else {
                    0
                },
            ),
        }
    }
}

/// Whether a snapshot action reaches a dataset.
pub open spec fn reaches(action: SnapshotActionModel, dataset: Seq<char>) -> bool {
    dataset == action.dataset || (action.recursive && has_prefix(dataset, action.dataset + "/"@))
}

/// The counts with the snapshots of an action added to the first `n` datasets
/// that it reaches.
pub open spec fn counted_reached(
    counts: Seq<(Seq<char>, Counts)>,
    action: SnapshotActionModel,
    names: Seq<Seq<char>>,
    n: int,
) -> Seq<(Seq<char>, Counts)>
    decreases n,
{
    if n <= 0 {
        counts
    } else {
        let earlier = counted_reached(counts, action, names, n - 1);
        if reaches(action, names[n - 1]) {
            let taken = action.names.len() as usize;
            counted(earlier, names[n - 1], taken, taken)
        } else {
            earlier
        }
    }
}

/// The tally after the first `n` snapshot actions.
pub open spec fn tally_taken(start: Tally, actions: Seq<SnapshotActionModel>, n: int) -> Tally
    decreases n,
{
    if n <= 0 {
        start
    } else {
        let earlier = tally_taken(start, actions, n - 1);
        let names = with_name(earlier.names, actions[n - 1].dataset);
        Tally {
            names,
            counts: counted_reached(
                earlier.counts,
                actions[n - 1],
                names,
                names.len() as int,
            ),
        }
    }
}

/// The tally after the first `n` prune actions.
pub open spec fn tally_pruned(start: Tally, actions: Seq<PruneActionModel>, n: int) -> Tally
    decreases n,
{
    if n <= 0 {
        start
    } else {
        let earlier = tally_pruned(start, actions, n - 1);
        let action = actions[n - 1];
        let before_prune = count_of(earlier.counts, action.dataset);
        let gone = action.names.len() as usize;
        Tally {
            names: with_name(earlier.names, action.dataset),
            counts: put(
                earlier.counts,
                action.dataset,
                Counts {
                    snapshots: minus(before_prune.snapshots, gone),
                    managed: minus(before_prune.managed, gone),
                },
            ),
        }
    }
}

/// The tally of an inventory after a plan that was carried out.
pub open spec fn tally(inventory: InventoryModel, plan: Option<PlanModel>) -> Tally {
    let found = tally_snapshots(
        inventory.datasets,
        inventory.snapshots,
        inventory.snapshots.len() as int,
    );
    match plan {
        None => found,
        Some(plan) => tally_pruned(
            tally_taken(found, plan.snapshots, plan.snapshots.len() as int),
            plan.prunes,
            plan.prunes.len() as int,
        ),
    }
}

pub open spec fn dataset_records(tally: Tally) -> Seq<DatasetStatusModel> {
    tally.names.map_values(
        |name: Seq<char>|
            DatasetStatusModel {
                name,
                pool: pool_of(name),
                snapshots: count_of(tally.counts, name).snapshots,
                managed_snapshots: count_of(tally.counts, name).managed,
            },
    )
}

pub open spec fn empty_pool(name: Seq<char>, capacity: Option<u8>) -> PoolStatusModel {
    PoolStatusModel {
        name,
        capacity_percent: capacity,
        datasets: 0,
        snapshots: 0,
        managed_snapshots: 0,
    }
}

/// Records without counts for the first `n` pools of the inventory.
pub open spec fn listed_pool_records(pools: Seq<(Seq<char>, PoolModel)>, n: int) -> Seq<
    (Seq<char>, PoolStatusModel),
>
    decreases n,
{
    if n <= 0 {
        Seq::empty()
    } else {
        let pool = pools[n - 1].1;
        put(
            listed_pool_records(pools, n - 1),
            pool.name,
            empty_pool(pool.name, Some(pool.capacity_percent)),
        )
    }
}

/// A pool record with one dataset more.
pub open spec fn with_dataset(pool: PoolStatusModel, dataset: DatasetStatusModel) -> PoolStatusModel {
    PoolStatusModel {
        datasets: plus(pool.datasets, 1),
        snapshots: plus(pool.snapshots, dataset.snapshots),
        managed_snapshots: plus(pool.managed_snapshots, dataset.managed_snapshots),
        ..pool
    }
}

/// The pool records with the first `n` datasets counted.
pub open spec fn pool_records(
    start: Seq<(Seq<char>, PoolStatusModel)>,
    datasets: Seq<DatasetStatusModel>,
    n: int,
) -> Seq<(Seq<char>, PoolStatusModel)>
    decreases n,
{
    if n <= 0 {
        start
    } else {
        let earlier = pool_records(start, datasets, n - 1);
        let dataset = datasets[n - 1];
        let pool = match lookup(earlier, dataset.pool) {
            Some(pool) => pool,
            None => empty_pool(dataset.pool, None),
        };
        put(earlier, dataset.pool, with_dataset(pool, dataset))
    }
}

/// The snapshots of the first `n` datasets.
pub open spec fn total_snapshots(datasets: Seq<DatasetStatusModel>, n: int) -> usize
    decreases n,
{
    if n <= 0 {
        0
    } else {
        plus(total_snapshots(datasets, n - 1), datasets[n - 1].snapshots)
    }
}

/// The managed snapshots of the first `n` datasets.
pub open spec fn total_managed(datasets: Seq<DatasetStatusModel>, n: int) -> usize
    decreases n,
{
    if n <= 0 {
        0
    } else {
        plus(total_managed(datasets, n - 1), datasets[n - 1].managed_snapshots)
    }
}

pub open spec fn totals_of(pools: Seq<PoolStatusModel>, datasets: Seq<DatasetStatusModel>) -> StatusTotals {
    StatusTotals {
        pools: pools.len() as usize,
        datasets: datasets.len() as usize,
        snapshots: total_snapshots(datasets, datasets.len() as int),
        managed_snapshots: total_managed(datasets, datasets.len() as int),
    }
}

pub open spec fn clamped(milliseconds: u128) -> u64 {
    if milliseconds > u64::MAX {
        u64::MAX
    } else {
        milliseconds as u64
    }
}

pub open spec fn optional_plan(plan: Option<&Plan>) -> Option<PlanModel> {
    match plan {
        Some(plan) => Some(plan@),
        None => None,
    }
}

/// The summary of an inventory after a plan that was carried out.
pub open spec fn summary(
    inventory: InventoryModel,
    scope_roots: Seq<Seq<char>>,
    scan_milliseconds: u128,
    generated_at: Timestamp,
    plan: Option<PlanModel>,
) -> CacheModel {
    let datasets = dataset_records(tally(inventory, plan));
    let pools = values_of(
        pool_records(
            listed_pool_records(inventory.pools, inventory.pools.len() as int),
            datasets,
            datasets.len() as int,
        ),
    );
    CacheModel {
        version: STATUS_CACHE_VERSION,
        generated_at,
        inventory_scan_milliseconds: clamped(scan_milliseconds),
        scope_roots: name_set(scope_roots, scope_roots.len() as int),
        totals: totals_of(pools, datasets),
        pools,
        datasets,
    }
}

fn count_more(counts: &mut NameMap<Counts>, name: &String, snapshots: usize, managed: usize)
    ensures
        final(counts)@ == counted(old(counts)@, name@, snapshots, managed),
{
    let earlier = match counts.get(name.as_str()) {
        Some(found) => *found,
        None => Counts { snapshots: 0, managed: 0 },
    };
    counts.insert(
        name.clone(),
        Counts {
            snapshots: earlier.snapshots.saturating_add(snapshots),
            managed: earlier.managed.saturating_add(managed),
        },
    );
}

/// Adds the snapshots of the inventory.
fn count_inventory(inventory: &Inventory, names: &mut NameSet, counts: &mut NameMap<Counts>)
    requires
        old(names)@ == inventory@.datasets,
        old(counts)@ == Seq::<(Seq<char>, Counts)>::empty(),
    ensures
        ({
            let result = tally_snapshots(
                inventory@.datasets,
                inventory@.snapshots,
                inventory@.snapshots.len() as int,
            );
            final(names)@ == result.names && final(counts)@ == result.counts
        }),
{
    let ghost all = inventory@.snapshots;
    let mut i: usize = 0;
    while i < inventory.snapshots.len()
        invariant
            i <= inventory.snapshots@.len(),
            all == inventory@.snapshots,
            names@ == tally_snapshots(inventory@.datasets, all, i as int).names,
            counts@ == tally_snapshots(inventory@.datasets, all, i as int).counts,
        decreases inventory.snapshots.len() - i,
    {
        let snapshot = &inventory.snapshots[i];
        assert(all[i as int] == snapshot@);
        names.insert(snapshot.dataset.clone());
        let managed: usize = if snapshot.managed {
            1
        } else {
            0
        };
        count_more(counts, &snapshot.dataset, 1, managed);
        i += 1;
    }
}

/// Adds the snapshots that a plan took.
fn count_taken(plan: &Plan, names: &mut NameSet, counts: &mut NameMap<Counts>)
    ensures
        ({
            let start = Tally { names: old(names)@, counts: old(counts)@ };
            let result = tally_taken(start, plan@.snapshots, plan@.snapshots.len() as int);
            final(names)@ == result.names && final(counts)@ == result.counts
        }),
{
    let ghost start = Tally { names: names@, counts: counts@ };
    let ghost all = plan@.snapshots;
    let mut i: usize = 0;
    while i < plan.snapshots.len()
        invariant
            i <= plan.snapshots@.len(),
            all == plan@.snapshots,
            names@ == tally_taken(start, all, i as int).names,
            counts@ == tally_taken(start, all, i as int).counts,
        decreases plan.snapshots.len() - i,
    {
        let action = &plan.snapshots[i];
        assert(all[i as int] == action@);
        assert(action@.names.len() == action.names@.len());
        names.insert(action.dataset.clone());
        let mut prefix = action.dataset.clone();
        prefix.append("/");
        let taken: usize = action.names.len();
        let ghost before_action = counts@;
        let ghost reached = names@;
        let mut j: usize = 0;
        while j < names.len()
            invariant
                j <= names@.len(),
                names@ == reached,
                prefix@ == action.dataset@ + "/"@,
                taken == action@.names.len(),
                counts@ == counted_reached(before_action, action@, reached, j as int),
            decreases reached.len() - j,
        {
            let name = names.name_at(j);
            if *name == action.dataset || (action.recursive && starts_with(
                name.as_str(),
                prefix.as_str(),
            )) {
                count_more(counts, name, taken, taken);
            }
            j += 1;
        }
        i += 1;
    }
}

/// Takes off the snapshots that a plan destroyed.
fn count_pruned(plan: &Plan, names: &mut NameSet, counts: &mut NameMap<Counts>)
    ensures
        ({
            let start = Tally { names: old(names)@, counts: old(counts)@ };
            let result = tally_pruned(start, plan@.prunes, plan@.prunes.len() as int);
            final(names)@ == result.names && final(counts)@ == result.counts
        }),
{
    let ghost start = Tally { names: names@, counts: counts@ };
    let ghost all = plan@.prunes;
    let mut i: usize = 0;
    while i < plan.prunes.len()
        invariant
            i <= plan.prunes@.len(),
            all == plan@.prunes,
            names@ == tally_pruned(start, all, i as int).names,
            counts@ == tally_pruned(start, all, i as int).counts,
        decreases plan.prunes.len() - i,
    {
        let action = &plan.prunes[i];
        assert(all[i as int] == action@);
        assert(action@.names.len() == action.names@.len());
        names.insert(action.dataset.clone());
        let earlier = match counts.get(action.dataset.as_str()) {
            Some(found) => *found,
            None => Counts { snapshots: 0, managed: 0 },
        };
        let gone: usize = action.names.len();
        counts.insert(
            action.dataset.clone(),
            Counts {
                snapshots: earlier.snapshots.saturating_sub(gone),
                managed: earlier.managed.saturating_sub(gone),
            },
        );
        i += 1;
    }
}

fn records_of(names: &NameSet, counts: &NameMap<Counts>) -> (res: Vec<DatasetStatus>)
    ensures
        views(res@) == dataset_records(Tally { names: names@, counts: counts@ }),
{
    let ghost all = dataset_records(Tally { names: names@, counts: counts@ });
    let mut records: Vec<DatasetStatus> = Vec::new();
    let mut i: usize = 0;
    assert(views(records@) =~= all.take(0));
    while i < names.len()
        invariant
            i <= names@.len(),
            all == dataset_records(Tally { names: names@, counts: counts@ }),
            views(records@) == all.take(i as int),
        decreases names@.len() - i,
    {
        let name = names.name_at(i);
        let found = match counts.get(name.as_str()) {
            Some(found) => *found,
            None => Counts { snapshots: 0, managed: 0 },
        };
        let record = DatasetStatus {
            pool: Inventory::pool_for_dataset(name.as_str()),
            name: name.clone(),
            snapshots: found.snapshots,
            managed_snapshots: found.managed,
        };
        proof {
            lemma_views_push(records@, record);
            assert(all.take(i + 1) =~= all.take(i as int).push(record@));
        }
        records.push(record);
        i += 1;
    }
    assert(all.take(i as int) =~= all);
    records
}

fn pool_records_of(inventory: &Inventory, datasets: &Vec<DatasetStatus>) -> (res: Vec<PoolStatus>)
    ensures
        views(res@) == values_of(
            pool_records(
                listed_pool_records(inventory@.pools, inventory@.pools.len() as int),
                views(datasets@),
                datasets@.len() as int,
            ),
        ),
{
    let mut pools: NameMap<PoolStatus> = NameMap::new();
    let mut i: usize = 0;
    while i < inventory.pools.len()
        invariant
            i <= inventory.pools@.len(),
            inventory@.pools == inventory.pools@,
            pools@ == listed_pool_records(inventory@.pools, i as int),
        decreases inventory.pools@.len() - i,
    {
        let pool = inventory.pools.value_at(i);
        pools.insert(
            pool.name.clone(),
            PoolStatus {
                name: pool.name.clone(),
                capacity_percent: Some(pool.capacity_percent),
                datasets: 0,
                snapshots: 0,
                managed_snapshots: 0,
            },
        );
        i += 1;
    }
    let ghost start = pools@;
    let ghost all = views(datasets@);
    let mut j: usize = 0;
    while j < datasets.len()
        invariant
            j <= datasets@.len(),
            all == views(datasets@),
            pools@ == pool_records(start, all, j as int),
        decreases datasets.len() - j,
    {
        let dataset = &datasets[j];
        assert(all[j as int] == dataset@);
        let record = match pools.get(dataset.pool.as_str()) {
            Some(pool) => PoolStatus {
                name: pool.name.clone(),
                capacity_percent: pool.capacity_percent,
                datasets: pool.datasets.saturating_add(1),
                snapshots: pool.snapshots.saturating_add(dataset.snapshots),
                managed_snapshots: pool.managed_snapshots.saturating_add(dataset.managed_snapshots),
            },
            None => PoolStatus {
                name: dataset.pool.clone(),
                capacity_percent: None,
                datasets: 1,
                snapshots: dataset.snapshots,
                managed_snapshots: dataset.managed_snapshots,
            },
        };
        pools.insert(dataset.pool.clone(), record);
        j += 1;
    }
    let ghost records = pools@;
    let values = pools.into_values();
    assert(views(values@) =~= values_of(records));
    values
}

fn totals(pools: &Vec<PoolStatus>, datasets: &Vec<DatasetStatus>) -> (res: StatusTotals)
    ensures
        res == totals_of(views(pools@), views(datasets@)),
{
    let ghost all = views(datasets@);
    let mut snapshots: usize = 0;
    let mut managed_snapshots: usize = 0;
    let mut i: usize = 0;
    while i < datasets.len()
        invariant
            i <= datasets@.len(),
            all == views(datasets@),
            snapshots == total_snapshots(all, i as int),
            managed_snapshots == total_managed(all, i as int),
        decreases datasets.len() - i,
    {
        assert(all[i as int] == datasets@[i as int]@);
        snapshots = snapshots.saturating_add(datasets[i].snapshots);
        managed_snapshots = managed_snapshots.saturating_add(datasets[i].managed_snapshots);
        i += 1;
    }
    StatusTotals { pools: pools.len(), datasets: datasets.len(), snapshots, managed_snapshots }
}

impl StatusCache {
    /// Summarises an inventory, with the changes of a plan that was carried
    /// out since. Counts stop at the largest `usize`.
    pub fn from_inventory(
        inventory: &Inventory,
        scope_roots: &Vec<String>,
        scan_milliseconds: u128,
        generated_at: Timestamp,
        completed_plan: Option<&Plan>,
    ) -> (res: Self)
        ensures
            res@ == summary(
                inventory@,
                texts(scope_roots@),
                scan_milliseconds,
                generated_at,
                optional_plan(completed_plan),
            ),
    {
        let mut names = inventory.datasets.copy();
        let mut counts: NameMap<Counts> = NameMap::new();
        count_inventory(inventory, &mut names, &mut counts);
        if let Some(plan) = completed_plan {
            count_taken(plan, &mut names, &mut counts);
            count_pruned(plan, &mut names, &mut counts);
        }
        let datasets = records_of(&names, &counts);
        let pools = pool_records_of(inventory, &datasets);
        let inventory_scan_milliseconds: u64 = if scan_milliseconds > u64::MAX as u128 {
            u64::MAX
        } else {
            scan_milliseconds as u64
        };
        assert(texts(scope_roots@).len() == scope_roots@.len());
        StatusCache {
            version: STATUS_CACHE_VERSION,
            generated_at,
            inventory_scan_milliseconds,
            scope_roots: name_set_of(scope_roots).to_vec(),
            totals: totals(&pools, &datasets),
            pools,
            datasets,
        }
    }
}

// ---------------------------------------------------------------------------
// Validation
// ---------------------------------------------------------------------------

/// The first fault of a pool record; `seen` holds the names before it.
pub open spec fn pool_fault(pool: PoolStatusModel, seen: Seq<Seq<char>>) -> Option<Seq<char>> {
    if pool.name.len() == 0 {
        Some("status cache contains an empty pool name"@)
    } else if seen.contains(pool.name) {
        Some("status cache contains duplicate pool "@ + debug_text(pool.name))
    } else if pool.managed_snapshots > pool.snapshots {
        Some(
            "status cache pool "@ + debug_text(pool.name)
                + " has more managed snapshots than snapshots"@,
        )
    } else {
        match pool.capacity_percent {
            Some(capacity) if capacity > 100 => Some(
                "status cache pool "@ + debug_text(pool.name) + " has an invalid capacity"@,
            ),
            _ => None,
        }
    }
}

pub open spec fn pools_fault(pools: Seq<PoolStatusModel>, i: int, seen: Seq<Seq<char>>) -> Option<
    Seq<char>,
>
    decreases pools.len() - i,
{
    if i >= pools.len() {
        None
    } else {
        or_else(
            pool_fault(pools[i], seen),
            pools_fault(pools, i + 1, with_name(seen, pools[i].name)),
        )
    }
}

pub open spec fn pool_names(pools: Seq<PoolStatusModel>) -> Seq<Seq<char>> {
    pools.map_values(|pool: PoolStatusModel| pool.name)
}

/// The first fault of a dataset record.
pub open spec fn dataset_fault(
    dataset: DatasetStatusModel,
    seen: Seq<Seq<char>>,
    pools: Seq<Seq<char>>,
) -> Option<Seq<char>> {
    let subject = "status cache dataset "@ + debug_text(dataset.name);
    if dataset.name.len() == 0 {
        Some("status cache contains an empty dataset name"@)
    } else if seen.contains(dataset.name) {
        Some("status cache contains duplicate dataset "@ + debug_text(dataset.name))
    } else if !pools.contains(dataset.pool) {
        Some(subject + " references missing pool "@ + debug_text(dataset.pool))
    } else if pool_of(dataset.name) != dataset.pool {
        Some(subject + " has inconsistent pool "@ + debug_text(dataset.pool))
    } else if dataset.managed_snapshots > dataset.snapshots {
        Some(subject + " has more managed snapshots than snapshots"@)
    } else {
        None
    }
}

pub open spec fn datasets_fault(
    datasets: Seq<DatasetStatusModel>,
    i: int,
    seen: Seq<Seq<char>>,
    pools: Seq<Seq<char>>,
) -> Option<Seq<char>>
    decreases datasets.len() - i,
{
    if i >= datasets.len() {
        None
    } else {
        or_else(
            dataset_fault(datasets[i], seen, pools),
            datasets_fault(datasets, i + 1, with_name(seen, datasets[i].name), pools),
        )
    }
}

/// A pool record that counts those of the first `n` datasets that it has.
pub open spec fn recount(
    pool: PoolStatusModel,
    datasets: Seq<DatasetStatusModel>,
    n: int,
) -> PoolStatusModel
    decreases n,
{
    if n <= 0 {
        empty_pool(pool.name, pool.capacity_percent)
    } else if datasets[n - 1].pool == pool.name {
        with_dataset(recount(pool, datasets, n - 1), datasets[n - 1])
    } else {
        recount(pool, datasets, n - 1)
    }
}

/// The first pool record from `i` on that its datasets do not add up to.
pub open spec fn sums_fault(
    pools: Seq<PoolStatusModel>,
    datasets: Seq<DatasetStatusModel>,
    i: int,
) -> Option<Seq<char>>
    decreases pools.len() - i,
{
    if i >= pools.len() {
        None
    } else if pools[i] != recount(pools[i], datasets, datasets.len() as int) {
        Some(
            "status cache pool totals do not match dataset records for "@ + debug_text(
                pools[i].name,
            ),
        )
    } else {
        sums_fault(pools, datasets, i + 1)
    }
}

/// The first fault of a status cache.
pub open spec fn cache_fault(cache: CacheModel) -> Option<Seq<char>> {
    if cache.version != STATUS_CACHE_VERSION {
        Some(
            "unsupported status cache version "@ + decimal(cache.version as nat)
                + "; expected 1"@,
        )
    } else {
        or_else(
            pools_fault(cache.pools, 0, Seq::empty()),
            or_else(
                datasets_fault(cache.datasets, 0, Seq::empty(), pool_names(cache.pools)),
                if cache.totals != totals_of(cache.pools, cache.datasets) {
                    Some("status cache totals do not match its pool and dataset records"@)
                } else {
                    sums_fault(cache.pools, cache.datasets, 0)
                },
            ),
        )
    }
}

fn validate_pool(pool: &PoolStatus, seen: &mut NameSet) -> (res: Result<(), Error>)
    ensures
        reports(res, pool_fault(pool@, old(seen)@)),
        res is Ok ==> final(seen)@ == with_name(old(seen)@, pool.name@),
{
    if pool.name.as_str().is_empty() {
        return Err(error("status cache contains an empty pool name"));
    }
    let name = quoted(pool.name.as_str());
    if !seen.insert(pool.name.clone()) {
        return failure("status cache contains duplicate pool ", name.as_str());
    }
    let mut subject = "status cache pool ".to_owned();
    subject.append(name.as_str());
    if pool.managed_snapshots > pool.snapshots {
        return failure(subject.as_str(), " has more managed snapshots than snapshots");
    }
    if let Some(capacity) = pool.capacity_percent {
        if capacity > 100 {
            return failure(subject.as_str(), " has an invalid capacity");
        }
    }
    Ok(())
}

fn validate_dataset(dataset: &DatasetStatus, seen: &mut NameSet, pools: &NameSet) -> (res: Result<
    (),
    Error,
>)
    ensures
        reports(res, dataset_fault(dataset@, old(seen)@, pools@)),
        res is Ok ==> final(seen)@ == with_name(old(seen)@, dataset.name@),
{
    if dataset.name.as_str().is_empty() {
        return Err(error("status cache contains an empty dataset name"));
    }
    let name = quoted(dataset.name.as_str());
    if !seen.insert(dataset.name.clone()) {
        return failure("status cache contains duplicate dataset ", name.as_str());
    }
    let mut subject = "status cache dataset ".to_owned();
    subject.append(name.as_str());
    if !pools.contains(dataset.pool.as_str()) {
        subject.append(" references missing pool ");
        return failure(subject.as_str(), quoted(dataset.pool.as_str()).as_str());
    }
    if Inventory::pool_for_dataset(dataset.name.as_str()) != dataset.pool {
        subject.append(" has inconsistent pool ");
        return failure(subject.as_str(), quoted(dataset.pool.as_str()).as_str());
    }
    if dataset.managed_snapshots > dataset.snapshots {
        return failure(subject.as_str(), " has more managed snapshots than snapshots");
    }
    Ok(())
}

/// Whether the datasets of a pool add up to its record.
fn adds_up(pool: &PoolStatus, datasets: &Vec<DatasetStatus>) -> (res: bool)
    ensures
        res == (pool@ == recount(pool@, views(datasets@), datasets@.len() as int)),
{
    let ghost all = views(datasets@);
    let mut count: usize = 0;
    let mut snapshots: usize = 0;
    let mut managed: usize = 0;
    let mut i: usize = 0;
    while i < datasets.len()
        invariant
            i <= datasets@.len(),
            all == views(datasets@),
            recount(pool@, all, i as int) == (PoolStatusModel {
                name: pool@.name,
                capacity_percent: pool@.capacity_percent,
                datasets: count,
                snapshots,
                managed_snapshots: managed,
            }),
        decreases datasets.len() - i,
    {
        assert(all[i as int] == datasets@[i as int]@);
        if datasets[i].pool == pool.name {
            count = count.saturating_add(1);
            snapshots = snapshots.saturating_add(datasets[i].snapshots);
            managed = managed.saturating_add(datasets[i].managed_snapshots);
        }
        i += 1;
    }
    pool.datasets == count && pool.snapshots == snapshots && pool.managed_snapshots == managed
}

impl StatusCache {
    /// Checks that the records are sensible and add up.
    pub fn validate(&self) -> (res: Result<(), Error>)
        ensures
            reports(res, cache_fault(self@)),
    {
        if self.version != STATUS_CACHE_VERSION {
            let mut message = "unsupported status cache version ".to_owned();
            message.append(number(self.version as u64).as_str());
            message.append("; expected 1");
            return Err(Error::new(message));
        }
        let ghost names = pool_names(self@.pools);
        let mut pools = NameSet::new();
        let mut i: usize = 0;
        while i < self.pools.len()
            invariant
                i <= self.pools@.len(),
                self.version == STATUS_CACHE_VERSION,
                names == pool_names(self@.pools),
                pools@ == name_set(names, i as int),
                pools_fault(self@.pools, 0, Seq::empty()) == pools_fault(
                    self@.pools,
                    i as int,
                    pools@,
                ),
            decreases self.pools.len() - i,
        {
            assert(self@.pools[i as int] == self.pools@[i as int]@);
            assert(names[i as int] == self.pools@[i as int].name@);
            validate_pool(&self.pools[i], &mut pools)?;
            i += 1;
        }
        proof {
            lemma_name_set(names, names.len() as int);
            assert(names.take(names.len() as int) =~= names);
        }
        self.validate_datasets(&pools)?;
        if self.totals != totals(&self.pools, &self.datasets) {
            return Err(error("status cache totals do not match its pool and dataset records"));
        }
        let mut k: usize = 0;
        while k < self.pools.len()
            invariant
                k <= self.pools@.len(),
                cache_fault(self@) == sums_fault(self@.pools, self@.datasets, 0),
                sums_fault(self@.pools, self@.datasets, 0) == sums_fault(
                    self@.pools,
                    self@.datasets,
                    k as int,
                ),
            decreases self.pools.len() - k,
        {
            assert(self@.pools[k as int] == self.pools@[k as int]@);
            if !adds_up(&self.pools[k], &self.datasets) {
                return failure(
                    "status cache pool totals do not match dataset records for ",
                    quoted(self.pools[k].name.as_str()).as_str(),
                );
            }
            k += 1;
        }
        Ok(())
    }

    fn validate_datasets(&self, pools: &NameSet) -> (res: Result<(), Error>)
        requires
            forall|name: Seq<char>| #[trigger]
                pools@.contains(name) <==> pool_names(self@.pools).contains(name),
        ensures
            reports(
                res,
                datasets_fault(self@.datasets, 0, Seq::empty(), pool_names(self@.pools)),
            ),
    {
        let mut seen = NameSet::new();
        let mut i: usize = 0;
        while i < self.datasets.len()
            invariant
                i <= self.datasets@.len(),
                forall|name: Seq<char>| #[trigger]
                    pools@.contains(name) <==> pool_names(self@.pools).contains(name),
                datasets_fault(self@.datasets, 0, Seq::empty(), pool_names(self@.pools))
                    == datasets_fault(
                    self@.datasets,
                    i as int,
                    seen@,
                    pool_names(self@.pools),
                ),
            decreases self.datasets.len() - i,
        {
            assert(self@.datasets[i as int] == self.datasets@[i as int]@);
            let ghost dataset = self.datasets@[i as int]@;
            assert(pools@.contains(dataset.pool) <==> pool_names(self@.pools).contains(
                dataset.pool,
            ));
            validate_dataset(&self.datasets[i], &mut seen, pools)?;
            i += 1;
        }
        Ok(())
    }
}

// ---------------------------------------------------------------------------
// A summary is valid
// ---------------------------------------------------------------------------

/// A dataset name with a pool.
pub open spec fn has_pool(name: Seq<char>) -> bool {
    name.len() > 0 && pool_of(name).len() > 0
}

/// Every dataset that an inventory or a plan mentions has a pool, and every
/// pool has a name and a capacity of at most one hundred per cent.
pub open spec fn is_sensible(inventory: InventoryModel, plan: Option<PlanModel>) -> bool {
    &&& increasing(inventory.datasets)
    &&& forall|i: int|
        0 <= i < inventory.datasets.len() ==> has_pool(#[trigger] inventory.datasets[i])
    &&& forall|i: int|
        0 <= i < inventory.snapshots.len() ==> has_pool(
            (#[trigger] inventory.snapshots[i]).dataset,
        )
    &&& forall|i: int|
        0 <= i < inventory.pools.len() ==> (#[trigger] inventory.pools[i]).1.name.len() > 0
            && inventory.pools[i].1.capacity_percent <= 100
    &&& plan matches Some(plan) ==> {
        &&& forall|i: int|
            0 <= i < plan.snapshots.len() ==> has_pool((#[trigger] plan.snapshots[i]).dataset)
        &&& forall|i: int|
            0 <= i < plan.prunes.len() ==> has_pool((#[trigger] plan.prunes[i]).dataset)
    }
}

spec fn names_have_pools(names: Seq<Seq<char>>) -> bool {
    &&& increasing(names)
    &&& forall|name: Seq<char>| #[trigger] names.contains(name) ==> has_pool(name)
}

spec fn counts_are_sound(counts: Seq<(Seq<char>, Counts)>) -> bool {
    &&& increasing(names_of(counts))
    &&& forall|name: Seq<char>|
        (#[trigger] count_of(counts, name)).managed <= count_of(counts, name).snapshots
}

spec fn tally_is_sound(tally: Tally) -> bool {
    names_have_pools(tally.names) && counts_are_sound(tally.counts)
}

proof fn lemma_names_grow(names: Seq<Seq<char>>, name: Seq<char>)
    requires
        names_have_pools(names),
        has_pool(name),
    ensures
        names_have_pools(with_name(names, name)),
{
    lemma_with_name(names, name);
}

proof fn lemma_counts_put(counts: Seq<(Seq<char>, Counts)>, name: Seq<char>, value: Counts)
    requires
        counts_are_sound(counts),
        value.managed <= value.snapshots,
    ensures
        counts_are_sound(put(counts, name, value)),
{
    lemma_put(counts, name, value, name);
    assert forall|other: Seq<char>| (#[trigger] count_of(put(counts, name, value), other)).managed
        <= count_of(put(counts, name, value), other).snapshots by {
        lemma_put(counts, name, value, other);
        assert(count_of(counts, other).managed <= count_of(counts, other).snapshots);
    }
}

proof fn lemma_counted(
    counts: Seq<(Seq<char>, Counts)>,
    name: Seq<char>,
    snapshots: usize,
    managed: usize,
)
    requires
        counts_are_sound(counts),
        managed <= snapshots,
    ensures
        counts_are_sound(counted(counts, name, snapshots, managed)),
{
    let earlier = count_of(counts, name);
    assert(earlier.managed <= earlier.snapshots);
    lemma_counts_put(
        counts,
        name,
        Counts {
            snapshots: plus(earlier.snapshots, snapshots),
            managed: plus(earlier.managed, managed),
        },
    );
}

proof fn lemma_tally_snapshots(inventory: InventoryModel, n: int)
    requires
        is_sensible(inventory, None),
        0 <= n <= inventory.snapshots.len(),
    ensures
        tally_is_sound(tally_snapshots(inventory.datasets, inventory.snapshots, n)),
    decreases n,
{
    if n <= 0 {
        let none = Seq::<(Seq<char>, Counts)>::empty();
        assert(names_of(none) =~= Seq::<Seq<char>>::empty());
    } else {
        lemma_tally_snapshots(inventory, n - 1);
        let earlier = tally_snapshots(inventory.datasets, inventory.snapshots, n - 1);
        let snapshot = inventory.snapshots[n - 1];
        lemma_names_grow(earlier.names, snapshot.dataset);
        lemma_counted(
            earlier.counts,
            snapshot.dataset,
            1,
            if snapshot.managed {
                1
            } else {
                0
            },
        );
    }
}

proof fn lemma_counted_reached(
    counts: Seq<(Seq<char>, Counts)>,
    action: SnapshotActionModel,
    names: Seq<Seq<char>>,
    n: int,
)
    requires
        counts_are_sound(counts),
    ensures
        counts_are_sound(counted_reached(counts, action, names, n)),
    decreases n,
{
    if n > 0 {
        lemma_counted_reached(counts, action, names, n - 1);
        let taken = action.names.len() as usize;
        lemma_counted(
            counted_reached(counts, action, names, n - 1),
            names[n - 1],
            taken,
            taken,
        );
    }
}

proof fn lemma_tally_taken(start: Tally, actions: Seq<SnapshotActionModel>, n: int)
    requires
        tally_is_sound(start),
        0 <= n <= actions.len(),
        forall|i: int| 0 <= i < actions.len() ==> has_pool((#[trigger] actions[i]).dataset),
    ensures
        tally_is_sound(tally_taken(start, actions, n)),
    decreases n,
{
    if n > 0 {
        lemma_tally_taken(start, actions, n - 1);
        let earlier = tally_taken(start, actions, n - 1);
        lemma_names_grow(earlier.names, actions[n - 1].dataset);
        let names = with_name(earlier.names, actions[n - 1].dataset);
        lemma_counted_reached(earlier.counts, actions[n - 1], names, names.len() as int);
    }
}

proof fn lemma_tally_pruned(start: Tally, actions: Seq<PruneActionModel>, n: int)
    requires
        tally_is_sound(start),
        0 <= n <= actions.len(),
        forall|i: int| 0 <= i < actions.len() ==> has_pool((#[trigger] actions[i]).dataset),
    ensures
        tally_is_sound(tally_pruned(start, actions, n)),
    decreases n,
{
    if n > 0 {
        lemma_tally_pruned(start, actions, n - 1);
        let earlier = tally_pruned(start, actions, n - 1);
        let action = actions[n - 1];
        let gone = action.names.len() as usize;
        let before_prune = count_of(earlier.counts, action.dataset);
        assert(before_prune.managed <= before_prune.snapshots);
        lemma_names_grow(earlier.names, action.dataset);
        lemma_counts_put(
            earlier.counts,
            action.dataset,
            Counts {
                snapshots: minus(before_prune.snapshots, gone),
                managed: minus(before_prune.managed, gone),
            },
        );
    }
}

/// Pool records in order under their own names, with sensible values, that
/// count the first `n` datasets.
spec fn pools_are_sound(
    pools: Seq<(Seq<char>, PoolStatusModel)>,
    datasets: Seq<DatasetStatusModel>,
    n: int,
) -> bool {
    &&& increasing(names_of(pools))
    &&& forall|i: int|
        0 <= i < pools.len() ==> {
            let pool = (#[trigger] pools[i]).1;
            &&& pool.name == pools[i].0
            &&& pool.name.len() > 0
            &&& pool.managed_snapshots <= pool.snapshots
            &&& pool.capacity_percent matches Some(capacity) ==> capacity <= 100
            &&& pool == recount(pool, datasets, n)
        }
}

/// A put into records changes only the record of its name.
proof fn lemma_records_put(
    pools: Seq<(Seq<char>, PoolStatusModel)>,
    name: Seq<char>,
    pool: PoolStatusModel,
    i: int,
)
    requires
        increasing(names_of(pools)),
        0 <= i < put(pools, name, pool).len(),
    ensures
        increasing(names_of(put(pools, name, pool))),
        put(pools, name, pool)[i] == (name, pool) || (put(pools, name, pool)[i].0 != name && exists|
            j: int,
        |
            0 <= j < pools.len() && #[trigger] pools[j] == put(pools, name, pool)[i]),
{
    lemma_put(pools, name, pool, name);
    crate::names::lemma_rank_bounds(names_of(pools), name);
    crate::names::lemma_rank_finds(names_of(pools), name);
    let r = crate::names::rank(names_of(pools), name);
    let result = put(pools, name, pool);
    assert(names_of(result)[i] == result[i].0);
    if names_of(pools).contains(name) {
        assert(names_of(result)[r] == name);
        if i != r {
            assert(pools[i] == result[i]);
            crate::text::lemma_lt_irreflexive(name);
        }
    } else {
        assert(names_of(result)[r] == name);
        crate::text::lemma_lt_irreflexive(name);
        if i < r {
            assert(pools[i] == result[i]);
        } else if i > r {
            assert(pools[i - 1] == result[i]);
        }
    }
}

proof fn lemma_recount_depends_on_name(
    a: PoolStatusModel,
    b: PoolStatusModel,
    datasets: Seq<DatasetStatusModel>,
    n: int,
)
    requires
        a.name == b.name,
        a.capacity_percent == b.capacity_percent,
    ensures
        recount(a, datasets, n) == recount(b, datasets, n),
    decreases n,
{
    if n > 0 {
        lemma_recount_depends_on_name(a, b, datasets, n - 1);
    }
}

proof fn lemma_listed_sound(
    pools: Seq<(Seq<char>, PoolModel)>,
    datasets: Seq<DatasetStatusModel>,
    n: int,
)
    requires
        0 <= n <= pools.len(),
        forall|i: int|
            0 <= i < pools.len() ==> (#[trigger] pools[i]).1.name.len() > 0
                && pools[i].1.capacity_percent <= 100,
    ensures
        pools_are_sound(listed_pool_records(pools, n), datasets, 0),
    decreases n,
{
    if n <= 0 {
        let none = Seq::<(Seq<char>, PoolStatusModel)>::empty();
        assert(names_of(none) =~= Seq::<Seq<char>>::empty());
    } else {
        lemma_listed_sound(pools, datasets, n - 1);
        let earlier = listed_pool_records(pools, n - 1);
        let pool = pools[n - 1].1;
        let record = empty_pool(pool.name, Some(pool.capacity_percent));
        let result = put(earlier, pool.name, record);
        lemma_put(earlier, pool.name, record, pool.name);
        assert forall|i: int| 0 <= i < result.len() implies {
            let pool = (#[trigger] result[i]).1;
            &&& pool.name == result[i].0
            &&& pool.name.len() > 0
            &&& pool.managed_snapshots <= pool.snapshots
            &&& pool.capacity_percent matches Some(capacity) ==> capacity <= 100
            &&& pool == recount(pool, datasets, 0)
        } by {
            lemma_records_put(earlier, pool.name, record, i);
        }
    }
}

/// Datasets with a pool and with no more managed snapshots than snapshots.
spec fn datasets_are_sound(datasets: Seq<DatasetStatusModel>) -> bool {
    forall|i: int|
        0 <= i < datasets.len() ==> has_pool((#[trigger] datasets[i]).name) && datasets[i].pool
            == pool_of(datasets[i].name) && datasets[i].managed_snapshots <= datasets[i].snapshots
}

proof fn lemma_pool_records(
    start: Seq<(Seq<char>, PoolStatusModel)>,
    datasets: Seq<DatasetStatusModel>,
    n: int,
)
    requires
        0 <= n <= datasets.len(),
        pools_are_sound(start, datasets, 0),
        datasets_are_sound(datasets),
    ensures
        pools_are_sound(pool_records(start, datasets, n), datasets, n),
        forall|i: int|
            0 <= i < n ==> names_of(pool_records(start, datasets, n)).contains(
                (#[trigger] datasets[i]).pool,
            ),
    decreases n,
{
    if n > 0 {
        lemma_pool_records(start, datasets, n - 1);
        let earlier = pool_records(start, datasets, n - 1);
        let dataset = datasets[n - 1];
        let pool = match lookup(earlier, dataset.pool) {
            Some(pool) => pool,
            None => empty_pool(dataset.pool, None),
        };
        let record = with_dataset(pool, dataset);
        let result = put(earlier, dataset.pool, record);
        lemma_lookup(earlier, dataset.pool);
        lemma_put(earlier, dataset.pool, record, dataset.pool);
        lemma_with_name(names_of(earlier), dataset.pool);
        crate::names::lemma_rank_bounds(names_of(earlier), dataset.pool);
        if lookup(earlier, dataset.pool) is None {
            lemma_recount_of_absent(earlier, datasets, dataset.pool, n - 1);
        }
        assert(pool == recount(pool, datasets, n - 1));
        lemma_recount_depends_on_name(record, pool, datasets, n - 1);
        assert forall|i: int| 0 <= i < result.len() implies {
            let pool = (#[trigger] result[i]).1;
            &&& pool.name == result[i].0
            &&& pool.name.len() > 0
            &&& pool.managed_snapshots <= pool.snapshots
            &&& pool.capacity_percent matches Some(capacity) ==> capacity <= 100
            &&& pool == recount(pool, datasets, n)
        } by {
            lemma_records_put(earlier, dataset.pool, record, i);
        }
        assert forall|i: int| 0 <= i < n implies names_of(result).contains(
            (#[trigger] datasets[i]).pool,
        ) by {
            if i < n - 1 {
                assert(names_of(earlier).contains(datasets[i].pool));
            }
        }
    }
}

/// No dataset among the first `n` is in a pool that has no record.
proof fn lemma_recount_of_absent(
    pools: Seq<(Seq<char>, PoolStatusModel)>,
    datasets: Seq<DatasetStatusModel>,
    name: Seq<char>,
    n: int,
)
    requires
        0 <= n <= datasets.len(),
        !names_of(pools).contains(name),
        forall|i: int|
            0 <= i < n ==> names_of(pools).contains((#[trigger] datasets[i]).pool),
    ensures
        recount(empty_pool(name, None), datasets, n) == empty_pool(name, None),
    decreases n,
{
    if n > 0 {
        lemma_recount_of_absent(pools, datasets, name, n - 1);
    }
}

proof fn lemma_no_pool_fault(
    records: Seq<(Seq<char>, PoolStatusModel)>,
    datasets: Seq<DatasetStatusModel>,
    i: int,
    seen: Seq<Seq<char>>,
)
    requires
        pools_are_sound(records, datasets, datasets.len() as int),
        0 <= i <= records.len(),
        increasing(seen),
        forall|name: Seq<char>| #[trigger]
            seen.contains(name) ==> names_of(records).take(i).contains(name),
    ensures
        pools_fault(values_of(records), i, seen) is None,
    decreases records.len() - i,
{
    if i < records.len() {
        let pools = values_of(records);
        let name = records[i].0;
        assert(pools[i] == records[i].1);
        assert(names_of(records)[i] == name);
        if seen.contains(name) {
            let j = names_of(records).take(i).index_of(name);
            assert(names_of(records)[j] == name);
            crate::text::lemma_lt_irreflexive(name);
        }
        lemma_with_name(seen, name);
        let more = with_name(seen, name);
        assert forall|other: Seq<char>| #[trigger] more.contains(other) implies names_of(
            records,
        ).take(i + 1).contains(other) by {
            if other == name {
                assert(names_of(records).take(i + 1)[i] == name);
            } else {
                let j = names_of(records).take(i).index_of(other);
                assert(names_of(records).take(i + 1)[j] == other);
            }
        }
        lemma_no_pool_fault(records, datasets, i + 1, more);
    }
}

proof fn lemma_no_sums_fault(
    records: Seq<(Seq<char>, PoolStatusModel)>,
    datasets: Seq<DatasetStatusModel>,
    i: int,
)
    requires
        pools_are_sound(records, datasets, datasets.len() as int),
        0 <= i <= records.len(),
    ensures
        sums_fault(values_of(records), datasets, i) is None,
    decreases records.len() - i,
{
    if i < records.len() {
        assert(values_of(records)[i] == records[i].1);
        lemma_no_sums_fault(records, datasets, i + 1);
    }
}

proof fn lemma_no_dataset_fault(
    datasets: Seq<DatasetStatusModel>,
    names: Seq<Seq<char>>,
    i: int,
    seen: Seq<Seq<char>>,
    pools: Seq<Seq<char>>,
)
    requires
        datasets_are_sound(datasets),
        names.len() == datasets.len(),
        forall|j: int| 0 <= j < names.len() ==> names[j] == (#[trigger] datasets[j]).name,
        increasing(names),
        forall|j: int| 0 <= j < datasets.len() ==> pools.contains((#[trigger] datasets[j]).pool),
        0 <= i <= datasets.len(),
        increasing(seen),
        forall|name: Seq<char>| #[trigger] seen.contains(name) ==> names.take(i).contains(name),
    ensures
        datasets_fault(datasets, i, seen, pools) is None,
    decreases datasets.len() - i,
{
    if i < datasets.len() {
        let name = datasets[i].name;
        assert(names[i] == name);
        if seen.contains(name) {
            let j = names.take(i).index_of(name);
            assert(names[j] == name);
            crate::text::lemma_lt_irreflexive(name);
        }
        lemma_with_name(seen, name);
        let more = with_name(seen, name);
        assert forall|other: Seq<char>| #[trigger] more.contains(other) implies names.take(
            i + 1,
        ).contains(other) by {
            if other == name {
                assert(names.take(i + 1)[i] == name);
            } else {
                let j = names.take(i).index_of(other);
                assert(names.take(i + 1)[j] == other);
            }
        }
        lemma_no_dataset_fault(datasets, names, i + 1, more, pools);
    }
}

/// The names of datasets.
pub open spec fn dataset_names(datasets: Seq<DatasetStatusModel>) -> Seq<Seq<char>> {
    datasets.map_values(|dataset: DatasetStatusModel| dataset.name)
}

/// The summary of a sensible inventory, with or without a plan carried out,
/// is valid: what a run writes, a later one reads back without complaint. Its
/// pools and its datasets come in the order of their names, each once.
pub proof fn law_summary_is_valid(
    inventory: InventoryModel,
    scope_roots: Seq<Seq<char>>,
    scan_milliseconds: u128,
    generated_at: Timestamp,
    plan: Option<PlanModel>,
)
    requires
        is_sensible(inventory, plan),
    ensures
        cache_fault(
            summary(inventory, scope_roots, scan_milliseconds, generated_at, plan),
        ) is None,
        increasing(
            pool_names(
                summary(inventory, scope_roots, scan_milliseconds, generated_at, plan).pools,
            ),
        ),
        increasing(
            dataset_names(
                summary(inventory, scope_roots, scan_milliseconds, generated_at, plan).datasets,
            ),
        ),
{
    let found = tally_snapshots(
        inventory.datasets,
        inventory.snapshots,
        inventory.snapshots.len() as int,
    );
    lemma_tally_snapshots(inventory, inventory.snapshots.len() as int);
    if let Some(plan) = plan {
        let taken = tally_taken(found, plan.snapshots, plan.snapshots.len() as int);
        lemma_tally_taken(found, plan.snapshots, plan.snapshots.len() as int);
        lemma_tally_pruned(taken, plan.prunes, plan.prunes.len() as int);
    }
    let result = tally(inventory, plan);
    let datasets = dataset_records(result);
    assert forall|i: int| 0 <= i < datasets.len() implies has_pool((#[trigger] datasets[i]).name)
        && datasets[i].pool == pool_of(datasets[i].name) && datasets[i].managed_snapshots
        <= datasets[i].snapshots by {
        assert(result.names.contains(result.names[i]));
        assert(count_of(result.counts, result.names[i]).managed <= count_of(
            result.counts,
            result.names[i],
        ).snapshots);
    }
    let listed = listed_pool_records(inventory.pools, inventory.pools.len() as int);
    lemma_listed_sound(inventory.pools, datasets, inventory.pools.len() as int);
    lemma_pool_records(listed, datasets, datasets.len() as int);
    let records = pool_records(listed, datasets, datasets.len() as int);
    let pools = values_of(records);
    assert forall|i: int| 0 <= i < records.len() implies #[trigger] pool_names(pools)[i]
        == names_of(records)[i] by {
        assert(pools[i] == records[i].1);
    }
    assert(pool_names(pools) =~= names_of(records));
    assert(dataset_names(datasets) =~= result.names);
    lemma_no_pool_fault(records, datasets, 0, Seq::empty());
    lemma_no_dataset_fault(datasets, result.names, 0, Seq::empty(), pool_names(pools));
    lemma_no_sums_fault(records, datasets, 0);
}

// ---------------------------------------------------------------------------
// Writing the cache
// ---------------------------------------------------------------------------

/// The name of the file that holds a cache until it replaces the one before.
pub open spec fn temporary_text(file_name: Seq<char>, process: nat, nonce: nat) -> Seq<char> {
    "."@ + file_name + ".tmp."@ + decimal(process) + "."@ + decimal(nonce)
}

/// The name under which a process writes a cache before the file replaces the
/// one before; a nonce tells one write from another.
pub fn temporary_name(file_name: &str, process: u32, nonce: u64) -> (res: String)
    ensures
        res@ == temporary_text(file_name@, process as nat, nonce as nat),
{
    let mut name = ".".to_owned();
    name.append(file_name);
    name.append(".tmp.");
    name.append(number(process as u64).as_str());
    name.append(".");
    name.append(number(nonce).as_str());
    name
}

} // verus!
