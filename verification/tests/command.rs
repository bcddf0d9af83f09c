use zsnap::command::{
    announce, check_notify_test, choose_status_source, conclude, describe_lock_conflict, filter_plan, format_cache_age,
    mutating_command, note_defaults, notification_error, print_check, print_migration, print_migration_warnings,
    print_notification_errors, print_notify_test, print_plan, print_report, print_report_errors, print_status,
    render_test_message, summarize, summarize_plan, Command, PlanScope, RunSummary,
};
use zsnap::config::Policy;
use zsnap::error::Error;
use zsnap::executor::ExecutionReport;
use zsnap::migration::SanoidMigration;
use zsnap::notification::{DeliveryEvent, NotificationDelivery, NotificationReport};
use zsnap::planner::{Plan, ProtectedSnapshot, PruneAction, SnapshotAction};
use zsnap::status::{DatasetStatus, PoolStatus, StatusCache, StatusTotals, Timestamp};

fn protected(name: &str, user_holds: u64, has_clones: bool) -> ProtectedSnapshot {
    ProtectedSnapshot {
        pool: "tank".to_owned(),
        dataset: "tank/a".to_owned(),
        name: name.to_owned(),
        user_holds,
        has_clones,
    }
}

fn plan() -> Plan {
    Plan {
        snapshots: vec![SnapshotAction {
            pool: "tank".to_owned(),
            dataset: "tank".to_owned(),
            recursive: true,
            names: vec!["a".to_owned(), "b".to_owned()],
            kinds: vec![],
            policy: Policy::default(),
        }],
        prunes: vec![PruneAction {
            pool: "backup".to_owned(),
            dataset: "backup/x".to_owned(),
            names: vec!["c".to_owned()],
            policy: Policy::default(),
        }],
        deferred_prune_datasets: vec!["tank/b".to_owned()],
        protected_snapshots: vec![protected("p", 2, true), protected("q", 1, false), protected("r", 0, true)],
    }
}

fn report(dry_run: bool) -> ExecutionReport {
    ExecutionReport {
        dry_run,
        snapshots_created: 2,
        snapshots_pruned: 1,
        prunes_skipped_after_snapshot_failure: 0,
        errors: vec![],
        logs: vec!["log".to_owned()],
    }
}

#[test]
fn only_real_runs_change_anything() {
    assert_eq!(mutating_command(&Command::Run { dry_run: false }), Some("run"));
    assert_eq!(mutating_command(&Command::Snapshot { dry_run: false }), Some("snapshot"));
    assert_eq!(mutating_command(&Command::Prune { dry_run: false }), Some("prune"));
    for command in [
        Command::Run { dry_run: true },
        Command::Snapshot { dry_run: true },
        Command::Prune { dry_run: true },
        Command::Plan { scope: PlanScope::All },
        Command::Other,
    ] {
        assert_eq!(mutating_command(&command), None);
        assert!(!command.mode().is_some_and(|mode| mode.locks()));
    }
    let mode = Command::Prune { dry_run: false }.mode().unwrap();
    assert!(mode.locks() && mode.execute && mode.scope == PlanScope::Prune);
    let mode = Command::Plan { scope: PlanScope::Snapshot }.mode().unwrap();
    assert!(mode.dry_run && !mode.execute && mode.scope == PlanScope::Snapshot);
}

#[test]
fn a_scope_narrows_a_plan() {
    let mut narrowed = plan();
    filter_plan(&mut narrowed, PlanScope::All);
    assert_eq!((narrowed.snapshots.len(), narrowed.prunes.len()), (1, 1));
    filter_plan(&mut narrowed, PlanScope::Prune);
    assert_eq!((narrowed.snapshots.len(), narrowed.prunes.len()), (0, 1));
    assert_eq!(narrowed.protected_snapshots.len(), 3);
    let mut narrowed = plan();
    filter_plan(&mut narrowed, PlanScope::Snapshot);
    assert_eq!((narrowed.snapshots.len(), narrowed.prunes.len()), (1, 0));
    assert!(narrowed.protected_snapshots.is_empty() && narrowed.deferred_prune_datasets.is_empty());
}

#[test]
fn a_plan_is_shown_line_by_line() {
    assert_eq!(
        print_plan(&plan()),
        [
            "plan: create 2 snapshot(s), prune 1 snapshot(s), protect 3 snapshot(s), 2 pool(s)",
            "  CREATE [tank] tank recursively @ a, b",
            "  PRUNE  [backup] backup/x @ c",
            "  DEFER  pruning tank/b: pool capacity is below prune_defer",
            "  PROTECT [tank] tank/a@p: 2 user hold(s) and one or more dependent clones",
            "  PROTECT [tank] tank/a@q: 1 user hold(s)",
            "  PROTECT [tank] tank/a@r: one or more dependent clones",
        ]
    );
}

#[test]
fn a_report_shows_what_was_done() {
    assert_eq!(
        print_report(&plan(), &report(false), false),
        [
            "protected 3 managed snapshot(s) from pruning because of user holds or dependent clones",
            "created 2 snapshot(s), pruned 1 snapshot(s) across 2 pool(s)",
        ]
    );
    assert_eq!(
        print_report(&plan(), &report(true), false),
        [
            "log",
            "protected 3 managed snapshot(s) from pruning because of user holds or dependent clones",
            "  PROTECT [tank] tank/a@p",
            "  PROTECT [tank] tank/a@q",
            "  PROTECT [tank] tank/a@r",
            "dry run: would create 2 snapshot(s) and prune 1 snapshot(s) across 2 pool(s)",
        ]
    );
    assert_eq!(
        print_report(&Plan::default(), &report(false), true),
        ["log", "created 2 snapshot(s), pruned 1 snapshot(s) across 0 pool(s)"]
    );
    let failed = ExecutionReport {
        prunes_skipped_after_snapshot_failure: 4,
        errors: vec!["x".to_owned(), "y".to_owned()],
        ..report(false)
    };
    assert_eq!(
        print_report_errors(&failed),
        ["ERROR: x", "ERROR: y", "safety stop: skipped 4 prune(s) after a snapshot failure"]
    );
    assert!(print_report_errors(&report(false)).is_empty());
}

#[test]
fn a_run_ends_in_a_summary_or_an_error() {
    let summary = RunSummary {
        snapshots_created: 2,
        snapshots_pruned: 1,
        snapshots_protected: 3,
        pools: 2,
    };
    assert_eq!(summarize(&plan(), &report(false)).unwrap(), summary);
    let failed = ExecutionReport {
        errors: vec!["x".to_owned()],
        ..report(false)
    };
    assert_eq!(
        summarize(&plan(), &failed).unwrap_err().message(),
        "1 operation(s) failed after creating 2 and pruning 1 snapshot(s) across 2 pool(s)"
    );
    let shown = summarize_plan(&plan());
    assert_eq!((shown.snapshots_created, shown.snapshots_pruned), (0, 0));
    assert_eq!((shown.snapshots_protected, shown.pools), (3, 2));

    let (event, message) = announce("run", Ok(summary), "box", "1.250");
    assert_eq!(event, DeliveryEvent::Success);
    assert_eq!(
        message,
        "zsnap run SUCCESS on box\nDuration: 1.250s\nCreated 2 snapshot(s), pruned 1 snapshot(s), protected 3 snapshot(s), 2 pool(s)."
    );
    let (event, message) = announce("prune", Err("broken: pipe".to_owned()), "box", "0.001");
    assert_eq!(event, DeliveryEvent::Failure);
    assert_eq!(message, "zsnap prune FAILURE on box\nDuration: 0.001s\nError: broken: pipe");
    assert_eq!(render_test_message("box", "hello"), "zsnap TEST on box\nhello");
}

fn deliveries(errors: &[Option<&str>]) -> NotificationReport {
    let list = errors
        .iter()
        .enumerate()
        .map(|(index, error)| NotificationDelivery {
            target: format!("t{index}"),
            kind: "flock".to_owned(),
            attempts: 2,
            error: error.map(str::to_owned),
        })
        .collect();
    NotificationReport::new(list, 1)
}

#[test]
fn failed_deliveries_are_reported() {
    let report = deliveries(&[None, Some("late")]);
    assert_eq!(print_notification_errors(&report), ["NOTIFICATION ERROR [flock:t1 after 2 attempt(s)]: late"]);
    assert_eq!(notification_error(&report).unwrap(), "1 of 2 notification delivery attempt(s) failed");
    assert_eq!(print_notify_test(&report), "webhook test: delivered 1 of 2 target(s); 1 skipped");
    assert_eq!(
        check_notify_test(&report).unwrap_err().message(),
        "1 webhook test delivery attempt(s) failed"
    );
    assert_eq!(
        check_notify_test(&deliveries(&[])).unwrap_err().message(),
        "no enabled notification webhooks are configured"
    );
    let good = deliveries(&[None]);
    assert!(check_notify_test(&good).is_ok());
    assert_eq!(notification_error(&good), None);
    assert!(print_notification_errors(&good).is_empty());
}

#[test]
fn a_failed_notification_fails_the_command_only_on_request() {
    let failed = || Some("late".to_owned());
    assert!(conclude(Ok(()), failed(), false).is_ok());
    assert_eq!(conclude(Ok(()), failed(), true).unwrap_err().message(), "late");
    assert!(conclude(Ok(()), None, true).is_ok());
    let run = Err(Error::new("run".to_owned()));
    assert_eq!(conclude(run, failed(), true).unwrap_err().message(), "run");
}

fn cache() -> StatusCache {
    StatusCache {
        version: 1,
        generated_at: Timestamp {
            seconds: 0,
            nanoseconds: 0,
        },
        inventory_scan_milliseconds: 7,
        scope_roots: vec!["tank".to_owned()],
        totals: StatusTotals {
            pools: 2,
            datasets: 3,
            snapshots: 9,
            managed_snapshots: 4,
        },
        pools: vec![
            PoolStatus {
                name: "backup".to_owned(),
                capacity_percent: None,
                datasets: 1,
                snapshots: 1,
                managed_snapshots: 0,
            },
            PoolStatus {
                name: "tank".to_owned(),
                capacity_percent: Some(63),
                datasets: 2,
                snapshots: 8,
                managed_snapshots: 4,
            },
        ],
        datasets: vec![DatasetStatus {
            name: "tank".to_owned(),
            pool: "tank".to_owned(),
            snapshots: 8,
            managed_snapshots: 4,
        }],
    }
}

#[test]
fn a_status_is_shown_line_by_line() {
    assert_eq!(
        print_status(&cache(), "cache", "/x", "then", 61, true),
        [
            "status source: cache (/x)",
            "updated: then (1 min ago)",
            "scope: 1 configured root(s), inventory scan 7 ms",
            "zpools: 2 (backup, tank)",
            "datasets: 3",
            "snapshots: 9 (4 zsnap-managed, 5 other)",
            "pool details:",
            "  backup: capacity unavailable, 1 dataset(s), 1 snapshot(s) (0 managed)",
            "  tank: 63% capacity, 2 dataset(s), 8 snapshot(s) (4 managed)",
            "dataset details:",
            "  tank: 8 snapshot(s) (4 managed)",
        ]
    );
    let mut empty = cache();
    empty.pools.clear();
    empty.totals.managed_snapshots = 10;
    let lines = print_status(&empty, "created", "/x", "then", 0, false);
    assert_eq!(lines[3], "zpools: 0");
    assert_eq!(lines[5], "snapshots: 9 (10 zsnap-managed, 0 other)");
    assert_eq!(lines.len(), 6);
}

#[test]
fn ages_are_given_in_the_largest_unit() {
    for (seconds, text) in [
        (-5, "5 s in the future"),
        (i64::MIN, "9223372036854775808 s in the future"),
        (0, "0 s ago"),
        (59, "59 s ago"),
        (60, "1 min ago"),
        (3_599, "59 min ago"),
        (3_600, "1 h ago"),
        (86_399, "23 h ago"),
        (86_400, "1 d ago"),
        (i64::MAX, "106751991167300 d ago"),
    ] {
        assert_eq!(format_cache_age(seconds), text);
    }
}

#[test]
fn a_status_is_taken_anew_on_request_or_where_there_is_none() {
    assert_eq!(choose_status_source(true, true), (true, "refreshed"));
    assert_eq!(choose_status_source(true, false), (true, "refreshed"));
    assert_eq!(choose_status_source(false, false), (true, "created"));
    assert_eq!(choose_status_source(false, true), (false, "cache"));
}

#[test]
fn checks_migrations_and_lock_conflicts_have_their_words() {
    assert_eq!(print_check(2, None), "configuration is valid (2 configured dataset(s))");
    assert_eq!(
        print_check(2, Some((5, 1))),
        "configuration is valid; 2 configured dataset(s) resolve to 5 dataset(s) across 1 pool(s)"
    );
    let migration = SanoidMigration {
        config_toml: String::new(),
        warnings: vec!["w".to_owned()],
        datasets: 2,
        templates: 3,
    };
    let migration = note_defaults(note_defaults(migration, true), false);
    assert_eq!(
        print_migration_warnings(&migration),
        [
            "MIGRATION WARNING: sanoid.defaults.conf was not supplied or found beside the input; used embedded Sanoid 2.x defaults",
            "MIGRATION WARNING: w",
        ]
    );
    assert_eq!(
        print_migration(&migration, "/out"),
        "wrote validated zsnap configuration to /out (2 dataset(s), 3 template(s), 2 warning(s)); source unchanged; no ZFS commands run"
    );
    assert_eq!(describe_lock_conflict(" \n", "/l", "busy"), "another zsnap process holds /l: busy");
    assert_eq!(describe_lock_conflict("12\n", "/l", "busy"), "another zsnap process (PID 12) holds /l: busy");
}

#[test]
fn only_a_successful_real_run_updates_the_cache() {
    let report = |errors: Vec<String>| ExecutionReport {
        dry_run: false,
        snapshots_created: 0,
        snapshots_pruned: 0,
        prunes_skipped_after_snapshot_failure: 0,
        errors,
        logs: vec![],
    };
    let fine = report(vec![]);
    let failed = report(vec!["x".to_owned()]);
    for (command, updates) in [
        (Command::Run { dry_run: false }, true),
        (Command::Snapshot { dry_run: false }, true),
        (Command::Prune { dry_run: false }, true),
        (Command::Run { dry_run: true }, false),
        (Command::Plan { scope: PlanScope::All }, false),
    ] {
        let mode = command.mode().unwrap();
        assert_eq!(mode.updates_cache(&fine), updates);
        assert!(!mode.updates_cache(&failed));
    }
}
