use chrono::{Duration, TimeZone, Utc};
use zsnap::config::{Config, DatasetConfig, Notifications, Policy, PolicyPatch, Recursion, ScheduleTimezone, Settings};
use zsnap::model::{SnapshotKind, SnapshotStrategy};
use zsnap::names::{NameMap, NameSet};
use zsnap::planner::{build_plan, build_plan_in, configured_zone, resolve_datasets, snapshot_kind};
use zsnap::schedule::{latest_not_after, most_recent_preferred_in, snapshot_due, snapshot_timestamp_in, LocalTimes, Zone};
use zsnap::zfs::{Inventory, Pool, Snapshot};

fn test_config() -> Config {
    let mut templates = NameMap::new();
    templates.insert(
        "production".to_owned(),
        PolicyPatch {
            frequently: Some(0),
            hourly: Some(2),
            daily: Some(0),
            weekly: Some(0),
            monthly: Some(0),
            yearly: Some(0),
            ..PolicyPatch::default()
        },
    );
    let mut datasets = NameMap::new();
    datasets.insert(
        "tank/data".to_owned(),
        DatasetConfig {
            use_templates: vec!["production".to_owned()],
            recursive: Recursion::Children,
            process_children_only: false,
            policy: PolicyPatch::default(),
        },
    );
    Config {
        version: 1,
        settings: Settings {
            timezone: ScheduleTimezone::Utc,
            ..Settings::default()
        },
        notifications: Notifications::default(),
        templates,
        datasets,
    }
}

fn test_inventory() -> Inventory {
    let mut datasets = NameSet::new();
    for name in ["tank", "tank/data", "tank/data/db"] {
        datasets.insert(name.to_owned());
    }
    let mut pools = NameMap::new();
    pools.insert(
        "tank".to_owned(),
        Pool {
            name: "tank".to_owned(),
            capacity_percent: 50,
        },
    );
    Inventory {
        datasets,
        snapshots: Vec::new(),
        pools,
    }
}

fn hourly(hour: i64, hours_ago: i64, now: chrono::DateTime<Utc>) -> Snapshot {
    Snapshot {
        dataset: "tank/data".to_owned(),
        name: format!("autosnap_2026-08-27_{hour:02}:00:00_hourly"),
        created: (now - Duration::hours(hours_ago)).timestamp(),
        managed: true,
        user_holds: 0,
        has_clones: false,
    }
}

fn noon() -> chrono::DateTime<Utc> {
    Utc.with_ymd_and_hms(2026, 8, 27, 12, 10, 0).unwrap()
}

#[test]
fn recursive_policy_expands_to_children() {
    let resolved = resolve_datasets(&test_config(), &test_inventory()).unwrap_or_else(|e| panic!("{e:?}"));
    assert_eq!(resolved.len(), 2);
    assert!(resolved.iter().all(|entry| entry.policy.hourly == 2));
    assert!(
        resolved
            .iter()
            .all(|entry| entry.snapshot_strategy == SnapshotStrategy::Individual)
    );
}

#[test]
fn schedules_only_after_preferred_boundary() {
    let config = test_config();
    let mut inventory = test_inventory();
    let now = Utc.with_ymd_and_hms(2026, 8, 27, 12, 10, 0).unwrap();
    inventory.snapshots.push(Snapshot {
        dataset: "tank/data".to_owned(),
        name: "autosnap_2026-08-27_12:05:00_hourly".to_owned(),
        created: Utc
            .with_ymd_and_hms(2026, 8, 27, 12, 5, 0)
            .unwrap()
            .timestamp(),
        managed: true,
        user_holds: 0,
        has_clones: false,
    });
    let resolved = resolve_datasets(&config, &inventory).unwrap_or_else(|e| panic!("{e:?}"));
    let plan = build_plan(&config, &inventory, &resolved, now.timestamp()).unwrap_or_else(|e| panic!("{e:?}"));
    assert_eq!(plan.snapshot_count(), 1); // Child is missing an hourly; parent is current.
    assert_eq!(plan.snapshots[0].dataset, "tank/data/db");
    assert_eq!(
        plan.snapshots[0].names[0],
        "autosnap_2026-08-27_12:10:00_hourly"
    );
}

#[test]
fn civil_schedule_and_names_follow_the_selected_offset() {
    let mut timezone = Zone::fixed(-(4 * 60 * 60));
    let now = Utc.with_ymd_and_hms(2026, 8, 27, 12, 10, 0).unwrap();
    let policy = Policy {
        hourly_min: 5,
        ..Policy::default()
    };
    let preferred =
        most_recent_preferred_in(SnapshotKind::Hourly, &policy, now.timestamp(), &mut timezone).unwrap();
    assert_eq!(
        preferred,
        Utc.with_ymd_and_hms(2026, 8, 27, 12, 5, 0).unwrap().timestamp()
    );
    assert_eq!(snapshot_timestamp_in(&mut timezone, now.timestamp()), "2026-08-27_08:10:00");
}

#[test]
fn ambiguous_boundaries_select_the_latest_occurrence_not_after_now() {
    let first = Utc.with_ymd_and_hms(2026, 11, 1, 5, 30, 0).unwrap().timestamp();
    let second = Utc.with_ymd_and_hms(2026, 11, 1, 6, 30, 0).unwrap().timestamp();
    assert_eq!(
        latest_not_after(
            LocalTimes::Repeated(first, second),
            Utc.with_ymd_and_hms(2026, 11, 1, 5, 45, 0).unwrap().timestamp(),
        ),
        Some(first)
    );
    assert_eq!(
        latest_not_after(
            LocalTimes::Repeated(first, second),
            Utc.with_ymd_and_hms(2026, 11, 1, 6, 45, 0).unwrap().timestamp(),
        ),
        Some(second)
    );
}

#[test]
fn prune_requires_both_age_and_more_than_minimum() {
    let config = test_config();
    let mut inventory = test_inventory();
    let now = Utc.with_ymd_and_hms(2026, 8, 27, 12, 10, 0).unwrap();
    for (hours_ago, hour) in [(5, 5), (4, 6), (3, 7), (1, 9)] {
        inventory.snapshots.push(hourly(hour, hours_ago, now));
    }
    let resolved = resolve_datasets(&config, &inventory).unwrap_or_else(|e| panic!("{e:?}"));
    let plan = build_plan(&config, &inventory, &resolved, now.timestamp()).unwrap_or_else(|e| panic!("{e:?}"));
    assert_eq!(plan.prune_count(), 2);
}

#[test]
fn unmanaged_compatible_snapshots_are_never_pruned() {
    let config = test_config();
    let mut inventory = test_inventory();
    let now = Utc.with_ymd_and_hms(2026, 8, 27, 12, 10, 0).unwrap();
    for (hours_ago, hour) in [(10, 2), (9, 3), (8, 4)] {
        inventory.snapshots.push(Snapshot {
            managed: false,
            ..hourly(hour, hours_ago, now)
        });
    }
    let resolved = resolve_datasets(&config, &inventory).unwrap_or_else(|e| panic!("{e:?}"));
    let plan = build_plan(&config, &inventory, &resolved, now.timestamp()).unwrap_or_else(|e| panic!("{e:?}"));
    assert_eq!(plan.prune_count(), 0);
}

#[test]
fn held_and_cloned_snapshots_are_never_pruned() {
    let config = test_config();
    let mut inventory = test_inventory();
    let now = Utc.with_ymd_and_hms(2026, 8, 27, 12, 10, 0).unwrap();
    for (hours_ago, hour) in [(8, 4), (7, 5), (1, 11)] {
        inventory.snapshots.push(hourly(hour, hours_ago, now));
    }
    inventory.snapshots.push(Snapshot {
        dataset: "tank/data".to_owned(),
        name: "autosnap_2026-08-27_02:00:00_hourly".to_owned(),
        created: (now - Duration::hours(10)).timestamp(),
        managed: true,
        user_holds: 1,
        has_clones: false,
    });
    inventory.snapshots.push(Snapshot {
        dataset: "tank/data".to_owned(),
        name: "autosnap_2026-08-27_03:00:00_hourly".to_owned(),
        created: (now - Duration::hours(9)).timestamp(),
        managed: true,
        user_holds: 0,
        has_clones: true,
    });

    let resolved = resolve_datasets(&config, &inventory).unwrap_or_else(|e| panic!("{e:?}"));
    let plan = build_plan(&config, &inventory, &resolved, now.timestamp()).unwrap_or_else(|e| panic!("{e:?}"));

    assert_eq!(plan.prune_count(), 1);
    assert_eq!(plan.protected_snapshot_count(), 2);
    assert_eq!(
        plan.prunes[0].names,
        ["autosnap_2026-08-27_04:00:00_hourly"]
    );
    assert!(plan.protected_snapshots[0].user_holds > 0);
    assert!(plan.protected_snapshots[1].has_clones);
}

#[test]
fn rejects_unsafe_or_lookalike_snapshot_names() {
    assert_eq!(
        snapshot_kind("autosnap", "autosnap_2026-08-27_12:00:00_hourly"),
        Some(SnapshotKind::Hourly)
    );
    assert_eq!(
        snapshot_kind("autosnap", "autosnap_2026-08-27_01:00:00dst_hourly"),
        Some(SnapshotKind::Hourly)
    );
    assert_eq!(snapshot_kind("autosnap", "autosnap_latest_hourly"), None);
    assert_eq!(
        snapshot_kind("autosnap", "autosnap_2026-08-27_12:00:00,manual_hourly"),
        None
    );
}

// ---------------------------------------------------------------------------
// Schedules
// ---------------------------------------------------------------------------

fn at(year: i32, month: u32, day: u32, hour: u32, minute: u32) -> i64 {
    Utc.with_ymd_and_hms(year, month, day, hour, minute, 0).unwrap().timestamp()
}

fn due(kind: SnapshotKind, policy: &Policy, now: i64) -> i64 {
    most_recent_preferred_in(kind, policy, now, &mut Zone::utc()).unwrap()
}

#[test]
fn each_class_was_last_due_at_its_latest_schedule_point() {
    let policy = Policy {
        frequent_period: 20,
        hourly_min: 30,
        daily_hour: 6,
        daily_min: 15,
        weekly_wday: 1,
        weekly_hour: 23,
        weekly_min: 30,
        monthly_mday: 28,
        monthly_hour: 1,
        monthly_min: 2,
        yearly_mon: 12,
        yearly_mday: 31,
        yearly_hour: 3,
        yearly_min: 4,
        ..Policy::default()
    };
    // 2026-08-27 was a Thursday.
    let now = at(2026, 8, 27, 12, 10);
    assert_eq!(due(SnapshotKind::Frequently, &policy, now), at(2026, 8, 27, 12, 0));
    assert_eq!(due(SnapshotKind::Hourly, &policy, now), at(2026, 8, 27, 11, 30));
    assert_eq!(due(SnapshotKind::Daily, &policy, now), at(2026, 8, 27, 6, 15));
    assert_eq!(due(SnapshotKind::Weekly, &policy, now), at(2026, 8, 24, 23, 30));
    assert_eq!(due(SnapshotKind::Monthly, &policy, now), at(2026, 7, 28, 1, 2));
    assert_eq!(due(SnapshotKind::Yearly, &policy, now), at(2025, 12, 31, 3, 4));
    assert_eq!(due(SnapshotKind::Monthly, &policy, at(2026, 1, 5, 0, 0)), at(2025, 12, 28, 1, 2));
    assert_eq!(due(SnapshotKind::Weekly, &policy, at(2026, 8, 24, 23, 30)), at(2026, 8, 24, 23, 30));
    assert_eq!(due(SnapshotKind::Weekly, &policy, at(2026, 8, 24, 23, 29)), at(2026, 8, 17, 23, 30));
}

#[test]
fn the_leap_day_falls_on_the_28th_elsewhere() {
    let policy = Policy {
        yearly_mon: 2,
        yearly_mday: 29,
        ..Policy::default()
    };
    assert_eq!(due(SnapshotKind::Yearly, &policy, at(2026, 8, 1, 0, 0)), at(2026, 2, 28, 0, 0));
    assert_eq!(due(SnapshotKind::Yearly, &policy, at(2028, 8, 1, 0, 0)), at(2028, 2, 29, 0, 0));
}

#[test]
fn a_yearly_date_that_no_year_has_is_an_error() {
    let policy = Policy {
        yearly_mon: 2,
        yearly_mday: 30,
        ..Policy::default()
    };
    let error = most_recent_preferred_in(SnapshotKind::Yearly, &policy, at(2026, 8, 1, 0, 0), &mut Zone::utc())
        .unwrap_err();
    assert_eq!(error.message(), "invalid yearly schedule date 2026-02-30");
}

#[test]
fn a_snapshot_is_due_when_the_newest_is_older_than_the_schedule_point() {
    let policy = Policy::default();
    let now = at(2026, 8, 27, 12, 10);
    let mut zone = Zone::utc();
    assert!(snapshot_due(SnapshotKind::Hourly, &policy, None, now, &mut zone).unwrap());
    assert!(snapshot_due(SnapshotKind::Hourly, &policy, Some(at(2026, 8, 27, 11, 59)), now, &mut zone).unwrap());
    assert!(!snapshot_due(SnapshotKind::Hourly, &policy, Some(at(2026, 8, 27, 12, 0)), now, &mut zone).unwrap());
}

#[test]
fn a_fixed_zone_is_ahead_of_utc_by_its_offset() {
    let mut zone = Zone::fixed(3_600);
    assert_eq!(zone.civil(1_000), 4_600);
    assert_eq!(zone.instants(4_600), LocalTimes::Single(1_000));
    assert_eq!(snapshot_timestamp_in(&mut zone, at(2026, 12, 31, 23, 30)), "2027-01-01_00:30:00");
}

#[test]
fn the_zone_of_the_host_answers_as_chrono_does() {
    let now = at(2026, 8, 27, 12, 10);
    let civil = chrono::DateTime::from_timestamp(now, 0)
        .unwrap()
        .with_timezone(&chrono::Local)
        .naive_local();
    let mut zone = Zone::host();
    assert_eq!(zone.civil(now), civil.and_utc().timestamp());
    let expected = match chrono::Local.from_local_datetime(&civil) {
        chrono::LocalResult::None => LocalTimes::Missing,
        chrono::LocalResult::Single(t) => LocalTimes::Single(t.timestamp()),
        chrono::LocalResult::Ambiguous(a, b) => LocalTimes::Repeated(a.timestamp(), b.timestamp()),
    };
    assert_eq!(zone.instants(civil.and_utc().timestamp()), expected);
    assert_eq!(snapshot_timestamp_in(&mut zone, now), civil.format("%Y-%m-%d_%H:%M:%S").to_string());
}

// ---------------------------------------------------------------------------
// Plans
// ---------------------------------------------------------------------------

#[test]
fn a_class_without_retention_is_not_taken_and_loses_what_it_has() {
    let mut config = test_config();
    let template = PolicyPatch {
        frequently: Some(0),
        hourly: Some(0),
        daily: Some(0),
        weekly: Some(0),
        monthly: Some(0),
        yearly: Some(0),
        ..PolicyPatch::default()
    };
    config.templates.insert("production".to_owned(), template);
    let mut inventory = test_inventory();
    let now = noon();
    for (hours_ago, hour) in [(2, 10), (1, 11)] {
        inventory.snapshots.push(hourly(hour, hours_ago, now));
    }
    let resolved = resolve_datasets(&config, &inventory).unwrap_or_else(|e| panic!("{e:?}"));
    let plan = build_plan(&config, &inventory, &resolved, now.timestamp()).unwrap_or_else(|e| panic!("{e:?}"));
    assert_eq!(plan.snapshot_count(), 0);
    assert_eq!(plan.prune_count(), 2);
}

#[test]
fn pruning_waits_until_the_pool_has_filled_up() {
    let mut config = test_config();
    let policy = PolicyPatch {
        prune_defer: Some(70),
        ..PolicyPatch::default()
    };
    config.datasets.insert(
        "tank/data".to_owned(),
        DatasetConfig {
            use_templates: vec!["production".to_owned()],
            recursive: Recursion::Off,
            process_children_only: false,
            policy,
        },
    );
    let mut inventory = test_inventory();
    let now = noon();
    for (hours_ago, hour) in [(5, 5), (4, 6), (3, 7), (1, 9)] {
        inventory.snapshots.push(hourly(hour, hours_ago, now));
    }
    let resolved = resolve_datasets(&config, &inventory).unwrap_or_else(|e| panic!("{e:?}"));
    let plan = build_plan(&config, &inventory, &resolved, now.timestamp()).unwrap_or_else(|e| panic!("{e:?}"));
    assert_eq!(plan.prune_count(), 0);
    assert_eq!(plan.deferred_prune_datasets, ["tank/data"]);

    let full = Pool {
        name: "tank".to_owned(),
        capacity_percent: 70,
    };
    inventory.pools.insert("tank".to_owned(), full);
    let plan = build_plan(&config, &inventory, &resolved, now.timestamp()).unwrap_or_else(|e| panic!("{e:?}"));
    assert_eq!(plan.prune_count(), 2);
    assert!(plan.deferred_prune_datasets.is_empty());
}

#[test]
fn an_unmarked_snapshot_still_counts_for_the_schedule() {
    let config = test_config();
    let mut inventory = test_inventory();
    let now = noon();
    for managed in [true, false] {
        inventory.snapshots.clear();
        inventory.snapshots.push(Snapshot {
            managed,
            ..hourly(12, 0, now)
        });
        let resolved = resolve_datasets(&config, &inventory).unwrap_or_else(|e| panic!("{e:?}"));
        let plan = build_plan(&config, &inventory, &resolved, now.timestamp()).unwrap_or_else(|e| panic!("{e:?}"));
        assert_eq!(plan.snapshot_count(), 1);
        assert_eq!(plan.snapshots[0].dataset, "tank/data/db");
    }
}

#[test]
fn a_missing_pool_and_a_missing_dataset_are_errors() {
    let config = test_config();
    let mut inventory = test_inventory();
    let resolved = resolve_datasets(&config, &inventory).unwrap_or_else(|e| panic!("{e:?}"));
    inventory.pools = NameMap::new();
    let error = build_plan(&config, &inventory, &resolved, noon().timestamp()).err().unwrap();
    assert_eq!(error.message(), "pool \"tank\" is missing from the zpool inventory");

    inventory.datasets = NameSet::new();
    let error = resolve_datasets(&config, &inventory).err().unwrap();
    assert!(error.message().contains("tank/data"), "{error:?}");
}

#[test]
fn an_atomic_root_takes_one_snapshot_for_its_tree() {
    let mut config = test_config();
    config.datasets.insert(
        "tank/data".to_owned(),
        DatasetConfig {
            use_templates: vec!["production".to_owned()],
            recursive: Recursion::Zfs,
            process_children_only: false,
            policy: PolicyPatch::default(),
        },
    );
    let inventory = test_inventory();
    let resolved = resolve_datasets(&config, &inventory).unwrap_or_else(|e| panic!("{e:?}"));
    assert_eq!(resolved.len(), 2);
    let plan = build_plan_in(&config, &inventory, &resolved, noon().timestamp(), &mut Zone::utc())
        .unwrap_or_else(|e| panic!("{e:?}"));
    assert_eq!(plan.snapshots.len(), 1);
    assert!(plan.snapshots[0].recursive);
    assert_eq!(plan.pools().to_vec(), ["tank"]);
}

#[test]
fn every_class_is_recognized_in_the_name_it_gives() {
    for (kind, text) in [
        (SnapshotKind::Frequently, "frequently"),
        (SnapshotKind::Hourly, "hourly"),
        (SnapshotKind::Daily, "daily"),
        (SnapshotKind::Weekly, "weekly"),
        (SnapshotKind::Monthly, "monthly"),
        (SnapshotKind::Yearly, "yearly"),
    ] {
        assert_eq!(kind.as_str(), text);
        let name = format!("backup_2026-01-02_03:04:05_{text}");
        assert_eq!(snapshot_kind("backup", &name), Some(kind));
        assert_eq!(snapshot_kind("autosnap", &name), None);
    }
}

#[test]
fn planned_names_are_in_order_and_recognised_again() {
    let config = test_config();
    let inventory = test_inventory();
    let mut resolved = resolve_datasets(&config, &inventory).unwrap_or_else(|e| panic!("{e:?}"));
    resolved.reverse();
    for dataset in &mut resolved {
        dataset.policy = Policy {
            frequently: 1,
            weekly: 1,
            yearly: 1,
            ..Policy::default()
        };
    }
    let plan = build_plan(&config, &inventory, &resolved, noon().timestamp()).unwrap_or_else(|e| panic!("{e:?}"));
    let datasets: Vec<&str> = plan.snapshots.iter().map(|action| action.dataset.as_str()).collect();
    assert_eq!(datasets, ["tank/data", "tank/data/db"]);
    for action in &plan.snapshots {
        assert_eq!(action.kinds, SnapshotKind::ALL);
        assert_eq!(action.names[5], "autosnap_2026-08-27_12:10:00_frequently");
        for (name, kind) in action.names.iter().zip(&action.kinds) {
            assert_eq!(snapshot_kind("autosnap", name), Some(*kind));
        }
    }
}

#[test]
fn a_class_without_retention_keeps_what_lies_ahead() {
    let mut config = test_config();
    config.templates.insert(
        "production".to_owned(),
        PolicyPatch {
            hourly: Some(0),
            ..PolicyPatch::default()
        },
    );
    let mut inventory = test_inventory();
    let now = noon();
    inventory.snapshots = vec![hourly(11, 1, now), hourly(12, 0, now), hourly(13, -1, now)];
    let resolved = resolve_datasets(&config, &inventory).unwrap_or_else(|e| panic!("{e:?}"));
    let plan = build_plan(&config, &inventory, &resolved, now.timestamp()).unwrap_or_else(|e| panic!("{e:?}"));
    assert_eq!(plan.prunes.len(), 1);
    assert_eq!(plan.prunes[0].names, ["autosnap_2026-08-27_11:00:00_hourly"]);
}

#[test]
fn the_configuration_chooses_the_zone() {
    let now = noon().timestamp();
    let stamp = |mut zone: Zone| snapshot_timestamp_in(&mut zone, now);
    assert_eq!(stamp(configured_zone(ScheduleTimezone::Utc)), "2026-08-27_12:10:00");
    assert_eq!(stamp(configured_zone(ScheduleTimezone::Local)), stamp(Zone::host()));
}
