use zsnap::config::Policy;
use zsnap::names::{NameMap, NameSet};
use zsnap::planner::{Plan, PruneAction, SnapshotAction};
use zsnap::status::{temporary_name, StatusCache, Timestamp};
use zsnap::zfs::{Inventory, Pool, Snapshot};

fn snapshot(dataset: &str, name: &str, managed: bool) -> Snapshot {
    Snapshot {
        dataset: dataset.to_owned(),
        name: name.to_owned(),
        created: 0,
        managed,
        user_holds: 0,
        has_clones: false,
    }
}

fn inventory(datasets: &[&str], snapshots: Vec<Snapshot>, pools: &[(&str, u8)]) -> Inventory {
    let mut names = NameSet::new();
    for name in datasets {
        names.insert((*name).to_owned());
    }
    let mut map = NameMap::new();
    for (name, capacity_percent) in pools {
        map.insert(
            (*name).to_owned(),
            Pool {
                name: (*name).to_owned(),
                capacity_percent: *capacity_percent,
            },
        );
    }
    Inventory {
        datasets: names,
        snapshots,
        pools: map,
    }
}

const MOMENT: Timestamp = Timestamp {
    seconds: 1_787_832_000,
    nanoseconds: 5,
};

#[test]
fn summarizes_inventory_and_applies_a_completed_plan() {
    let inventory = inventory(
        &["tank", "tank/a", "tank/b", "backup"],
        vec![
            snapshot("tank", "manual", false),
            snapshot("tank/a", "old", true),
            snapshot("tank/a", "manual", false),
            snapshot("backup", "keep", true),
        ],
        &[("tank", 75), ("backup", 40)],
    );
    let plan = Plan {
        snapshots: vec![SnapshotAction {
            pool: "tank".to_owned(),
            dataset: "tank".to_owned(),
            recursive: true,
            names: vec!["new".to_owned()],
            kinds: vec![],
            policy: Policy::default(),
        }],
        prunes: vec![PruneAction {
            pool: "tank".to_owned(),
            dataset: "tank/a".to_owned(),
            names: vec!["old".to_owned()],
            policy: Policy::default(),
        }],
        ..Plan::default()
    };

    let cache = StatusCache::from_inventory(
        &inventory,
        &vec!["tank".to_owned(), "backup".to_owned()],
        123,
        MOMENT,
        Some(&plan),
    );

    assert_eq!(cache.inventory_scan_milliseconds, 123);
    assert_eq!(cache.totals.pools, 2);
    assert_eq!(cache.totals.datasets, 4);
    assert_eq!(cache.totals.snapshots, 6);
    assert_eq!(cache.totals.managed_snapshots, 4);
    let tank = cache.pools.iter().find(|pool| pool.name == "tank").unwrap();
    assert_eq!(tank.datasets, 3);
    assert_eq!(tank.snapshots, 5);
    assert_eq!(tank.managed_snapshots, 3);
    cache.validate().unwrap();
}

#[test]
fn an_empty_inventory_has_a_valid_summary() {
    let cache = StatusCache::from_inventory(&inventory(&[], vec![], &[]), &vec![], u128::MAX, MOMENT, None);
    cache.validate().unwrap();
    assert_eq!(cache.generated_at, MOMENT);
    assert_eq!(cache.inventory_scan_milliseconds, u64::MAX);
    assert!(cache.pools.is_empty());
}

#[test]
fn a_summary_lists_pools_and_datasets_in_order() {
    let inventory = inventory(
        &["tank/b", "tank", "backup"],
        vec![snapshot("tank/b", "x", true)],
        &[("tank", 75)],
    );
    let roots = vec!["tank".to_owned(), "backup".to_owned(), "tank".to_owned()];
    let cache = StatusCache::from_inventory(&inventory, &roots, 1, MOMENT, None);
    let names: Vec<&str> = cache.datasets.iter().map(|dataset| dataset.name.as_str()).collect();
    assert_eq!(names, ["backup", "tank", "tank/b"]);
    let pools: Vec<&str> = cache.pools.iter().map(|pool| pool.name.as_str()).collect();
    assert_eq!(pools, ["backup", "tank"]);
    assert_eq!(cache.pools[0].capacity_percent, None);
    assert_eq!(cache.pools[1].capacity_percent, Some(75));
    assert_eq!(cache.datasets[2].managed_snapshots, 1);
    assert_eq!(cache.datasets[2].pool, "tank");
}

#[test]
fn totals_that_do_not_add_up_are_refused() {
    let inventory = inventory(&["tank"], vec![snapshot("tank", "x", true)], &[("tank", 75)]);
    let fresh = || StatusCache::from_inventory(&inventory, &vec!["tank".to_owned()], 1, MOMENT, None);
    fresh().validate().unwrap();
    let mut cache = fresh();
    cache.version = 99;
    assert!(cache.validate().unwrap_err().message().contains("99"));
    let mut cache = fresh();
    cache.totals.snapshots = 7;
    assert!(cache.validate().is_err());
    let mut cache = fresh();
    cache.datasets[0].managed_snapshots = 2;
    assert!(cache.validate().is_err());
}

#[test]
fn temporary_names_are_hidden_and_numbered() {
    assert_eq!(temporary_name("zsnap.cache", 42, 1_700_000_000), ".zsnap.cache.tmp.42.1700000000");
}
