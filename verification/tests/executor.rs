use zsnap::config::{Policy, Settings};
use zsnap::executor::{
    is_overdue, merge_results, pool_works, thread_count, validate_snapshot_destroy_command, ExecutionReport, Outcome,
    PoolRun, Request, Step,
};
use zsnap::model::SnapshotKind;
use zsnap::planner::{Plan, PruneAction, SnapshotAction};

/// Carries a plan out with made-up outcomes, and lists the requests.
fn execute(
    plan: &Plan,
    settings: &Settings,
    dry_run: bool,
    verbose: bool,
    answer: impl Fn(&Request) -> Outcome,
) -> (ExecutionReport, Vec<String>) {
    let mut calls = Vec::new();
    let mut results = Vec::new();
    for work in pool_works(plan) {
        let mut run = PoolRun::new(&work, settings, dry_run, verbose);
        while let Some(request) = run.next() {
            calls.push(match &request {
                Request::Zfs(arguments) => arguments.join(" "),
                Request::Hook { command, .. } => format!("hook {}", command.join(" ")),
            });
            let outcome = answer(&request);
            run.complete(outcome);
        }
        results.push(run.into_result());
    }
    (merge_results(results, dry_run), calls)
}

fn succeed(_: &Request) -> Outcome {
    Outcome::Succeeded
}

fn snapshot(pool: &str, dataset: &str, names: &[&str], policy: Policy) -> SnapshotAction {
    SnapshotAction {
        pool: pool.to_owned(),
        dataset: dataset.to_owned(),
        recursive: false,
        names: names.iter().map(|name| (*name).to_owned()).collect(),
        kinds: vec![],
        policy,
    }
}

fn prune(pool: &str, dataset: &str, names: &[&str], policy: Policy) -> PruneAction {
    PruneAction {
        pool: pool.to_owned(),
        dataset: dataset.to_owned(),
        names: names.iter().map(|name| (*name).to_owned()).collect(),
        policy,
    }
}

fn texts(list: &[&str]) -> Vec<String> {
    list.iter().map(|text| (*text).to_owned()).collect()
}

#[test]
fn batches_snapshot_targets_into_one_command() {
    let plan = Plan {
        snapshots: vec![
            snapshot("tank", "tank/a", &["autosnap_a_hourly"], Policy::default()),
            snapshot("tank", "tank/b", &["autosnap_b_hourly"], Policy::default()),
        ],
        ..Plan::default()
    };
    let (report, calls) = execute(&plan, &Settings::default(), false, false, succeed);
    assert!(report.succeeded());
    assert_eq!(report.snapshots_created, 2);
    assert_eq!(calls.len(), 1);
    assert!(calls[0].contains("tank/a@autosnap_a_hourly"));
    assert!(calls[0].contains("tank/b@autosnap_b_hourly"));
}

#[test]
fn separates_multiple_snapshot_names_for_each_dataset_into_rounds() {
    let plan = Plan {
        snapshots: vec![
            snapshot(
                "tank",
                "tank/a",
                &["autosnap_a_daily", "autosnap_a_weekly", "autosnap_a_monthly"],
                Policy::default(),
            ),
            snapshot("tank", "tank/b", &["autosnap_b_daily", "autosnap_b_weekly"], Policy::default()),
        ],
        ..Plan::default()
    };
    let (report, calls) = execute(&plan, &Settings::default(), false, false, succeed);
    assert!(report.succeeded(), "{:?}", report.errors);
    assert_eq!(report.snapshots_created, 5);
    assert_eq!(
        calls,
        [
            "snapshot -o org.zsnap:managed=yes tank/a@autosnap_a_daily tank/b@autosnap_b_daily",
            "snapshot -o org.zsnap:managed=yes tank/a@autosnap_a_weekly tank/b@autosnap_b_weekly",
            "snapshot -o org.zsnap:managed=yes tank/a@autosnap_a_monthly",
        ]
    );
}

#[test]
fn hooked_snapshot_names_use_separate_zfs_commands() {
    let policy = Policy {
        pre_snapshot_script: vec!["/bin/true".to_owned()],
        ..Policy::default()
    };
    let plan = Plan {
        snapshots: vec![snapshot(
            "tank",
            "tank/data",
            &["autosnap_data_daily", "autosnap_data_weekly"],
            policy,
        )],
        ..Plan::default()
    };
    let (report, calls) = execute(&plan, &Settings::default(), false, false, succeed);
    assert!(report.succeeded(), "{:?}", report.errors);
    assert_eq!(report.snapshots_created, 2);
    assert_eq!(
        calls,
        [
            "hook /bin/true",
            "snapshot -o org.zsnap:managed=yes tank/data@autosnap_data_daily",
            "snapshot -o org.zsnap:managed=yes tank/data@autosnap_data_weekly",
        ]
    );
}

#[test]
fn destroy_safety_gate_accepts_only_snapshot_targets() {
    let safe = texts(&["destroy", "tank/data@autosnap_daily,autosnap_weekly"]);
    assert!(validate_snapshot_destroy_command(&safe).is_ok());

    let unsafe_commands = [
        texts(&["destroy", "tank/data"]),
        texts(&["destroy", "-r", "tank/data@autosnap_daily"]),
        texts(&["destroy", "tank/data#bookmark"]),
        texts(&["destroy", "tank/data@old%new"]),
        texts(&["destroy", "tank/data@"]),
        texts(&["destroy", "tank/data@autosnap/child"]),
    ];
    for command in unsafe_commands {
        assert!(
            validate_snapshot_destroy_command(&command).is_err(),
            "accepted unsafe command: {command:?}"
        );
    }
}

#[test]
fn unsafe_destroy_never_reaches_the_zfs_executable() {
    let arguments = texts(&["destroy", "tank/data"]);
    let steps = vec![Step::Destroy { arguments, count: 1 }];
    let mut run = PoolRun::with_steps("tank".to_owned(), &Settings::default(), steps, false);
    assert!(run.next().is_none());
    let result = run.into_result();
    assert_eq!(result.snapshots_pruned, 0);
    assert_eq!(result.errors.len(), 1);
    assert!(result.errors[0].contains("refused unsafe ZFS destroy command"));
}

#[test]
fn unsafe_prunes_are_refused() {
    let plan = Plan {
        prunes: vec![prune("tank", "tank/data", &["a/b"], Policy::default())],
        ..Plan::default()
    };
    let (report, calls) = execute(&plan, &Settings::default(), false, false, succeed);
    assert!(calls.is_empty());
    assert_eq!(report.errors.len(), 1);
    assert!(report.errors[0].contains("refused unsafe ZFS destroy command"));
}

#[test]
fn hooks_without_a_timeout_are_never_overdue() {
    assert!(!is_overdue(0, u128::MAX));
    assert!(!is_overdue(2, 1_999_999_999));
    assert!(is_overdue(2, 2_000_000_000));
}

#[test]
fn configured_batch_limits_split_and_execute_long_argument_sets() {
    let long_suffix = "x".repeat(200);
    let snapshot_names: Vec<String> = (0..3)
        .map(|index| format!("autosnap_{index:03}_{long_suffix}_hourly"))
        .collect();
    let prune_names: Vec<String> = (0..3)
        .map(|index| format!("autosnap_{index:03}_{long_suffix}_daily"))
        .collect();
    let plan = Plan {
        snapshots: vec![SnapshotAction {
            pool: "tank".to_owned(),
            dataset: "tank/data".to_owned(),
            recursive: false,
            names: snapshot_names,
            kinds: vec![],
            policy: Policy::default(),
        }],
        prunes: vec![PruneAction {
            pool: "tank".to_owned(),
            dataset: "tank/data".to_owned(),
            names: prune_names,
            policy: Policy::default(),
        }],
        ..Plan::default()
    };
    let settings = Settings {
        snapshot_batch_size: 2,
        prune_batch_size: 2,
        ..Settings::default()
    };
    let (report, calls) = execute(&plan, &settings, false, false, succeed);
    assert!(report.succeeded(), "{:?}", report.errors);
    assert_eq!(report.snapshots_created, 3);
    assert_eq!(report.snapshots_pruned, 3);
    let commands: Vec<&str> = calls.iter().map(|call| call.split(' ').next().unwrap()).collect();
    assert_eq!(
        commands,
        ["snapshot", "snapshot", "snapshot", "destroy", "destroy"]
    );
}

#[test]
fn snapshot_failure_stops_pruning_for_that_pool() {
    let settings = Settings {
        zfs_command: "false".to_owned(),
        ..Settings::default()
    };
    let plan = Plan {
        snapshots: vec![SnapshotAction {
            kinds: vec![SnapshotKind::Hourly],
            ..snapshot("tank", "tank/data", &["autosnap_2026-08-27_12:00:00_hourly"], Policy::default())
        }],
        prunes: vec![prune("tank", "tank/data", &["autosnap_2026-08-20_12:00:00_hourly"], Policy::default())],
        ..Plan::default()
    };
    let (report, _) = execute(&plan, &settings, false, false, |_| Outcome::Failed {
        status: "exit status: 1".to_owned(),
        stderr: String::new(),
    });
    assert!(!report.succeeded());
    assert_eq!(report.prunes_skipped_after_snapshot_failure, 1);
    assert_eq!(report.snapshots_pruned, 0);
    let commands = report
        .logs
        .iter()
        .filter(|log| log.contains("] RUN "))
        .collect::<Vec<_>>();
    assert_eq!(commands.len(), 1);
    assert!(commands[0].contains(" RUN \"false\" \"snapshot\" "));
    assert!(
        report
            .logs
            .iter()
            .any(|log| log.contains("skipped 1 prune"))
    );
    assert_eq!(report.errors.len(), 1);
    assert!(report.errors[0].contains("failed with"));
}

#[test]
fn independent_pools_reach_the_executor_at_the_same_time() {
    let plan = Plan {
        snapshots: vec![
            snapshot("tank", "tank/data", &["autosnap_tank_hourly"], Policy::default()),
            snapshot("backup", "backup/data", &["autosnap_backup_hourly"], Policy::default()),
        ],
        ..Plan::default()
    };
    let settings = Settings {
        max_parallel_pools: 2,
        ..Settings::default()
    };
    let works = pool_works(&plan);
    assert_eq!(thread_count(&settings, works.len()), 2);
    // Both runs have their request out before either is answered.
    let mut runs: Vec<PoolRun> = works
        .iter()
        .map(|work| PoolRun::new(work, &settings, false, false))
        .collect();
    for run in &mut runs {
        assert!(run.next().is_some());
    }
    let mut results = Vec::new();
    for mut run in runs {
        run.complete(Outcome::Succeeded);
        assert!(run.next().is_none());
        results.push(run.into_result());
    }
    let report = merge_results(results, false);
    assert!(report.succeeded(), "{:?}", report.errors);
    assert_eq!(report.snapshots_created, 2);
}

// ---------------------------------------------------------------------------
// Further behaviour
// ---------------------------------------------------------------------------

#[test]
fn a_dry_run_asks_for_nothing_and_counts_everything() {
    let policy = Policy {
        pre_snapshot_script: vec!["/bin/freeze".to_owned(), "--all".to_owned()],
        ..Policy::default()
    };
    let plan = Plan {
        snapshots: vec![snapshot("tank", "tank/a", &["n"], policy)],
        prunes: vec![prune("tank", "tank/a", &["o"], Policy::default())],
        ..Plan::default()
    };
    let (report, calls) = execute(&plan, &Settings::default(), true, true, succeed);
    assert!(calls.is_empty());
    assert!(report.dry_run);
    assert_eq!((report.snapshots_created, report.snapshots_pruned), (1, 1));
    assert_eq!(
        report.logs,
        [
            "[tank] starting pool work",
            "[tank] WOULD RUN HOOK \"/bin/freeze\" \"--all\"",
            "[tank] WOULD RUN \"zfs\" \"snapshot\" \"-o\" \"org.zsnap:managed=yes\" \"tank/a@n\"",
            "[tank] WOULD RUN \"zfs\" \"destroy\" \"tank/a@o\"",
        ]
    );
}

fn hooked(no_inconsistent: bool, force: bool) -> Policy {
    Policy {
        pre_snapshot_script: vec!["pre".to_owned()],
        post_snapshot_script: vec!["post".to_owned()],
        script_timeout: 7,
        no_inconsistent_snapshot: no_inconsistent,
        force_post_snapshot_script: force,
        ..Policy::default()
    }
}

fn fail_hook(name: &'static str) -> impl Fn(&Request) -> Outcome {
    move |request| match request {
        Request::Hook { command, .. } if command[0] == name => Outcome::TimedOut,
        _ => Outcome::Succeeded,
    }
}

#[test]
fn a_failed_hook_skips_an_inconsistent_snapshot() {
    let plan = |policy| Plan {
        snapshots: vec![snapshot("tank", "tank/a", &["n"], policy)],
        ..Plan::default()
    };
    let (report, calls) = execute(&plan(hooked(true, false)), &Settings::default(), false, false, fail_hook("pre"));
    assert_eq!(calls, ["hook pre"]);
    assert_eq!(
        report.errors,
        [
            "[tank] hook \"pre\" timed out after 7s",
            "[tank] pre-snapshot hook failed for tank/a; snapshot skipped",
        ]
    );
    let (_, calls) = execute(&plan(hooked(true, true)), &Settings::default(), false, false, fail_hook("pre"));
    assert_eq!(calls, ["hook pre", "hook post"]);
    let (report, calls) = execute(&plan(hooked(false, false)), &Settings::default(), false, false, fail_hook("pre"));
    assert_eq!(calls.len(), 2);
    assert_eq!(report.snapshots_created, 1);
    assert!(!report.succeeded());
    let (_, calls) = execute(&plan(hooked(false, true)), &Settings::default(), false, false, fail_hook("pre"));
    assert_eq!(calls.len(), 3);
}

#[test]
fn hooks_get_their_environment_twice() {
    let plan = Plan {
        snapshots: vec![SnapshotAction {
            kinds: vec![SnapshotKind::Daily, SnapshotKind::Weekly],
            ..snapshot("tank", "tank/a", &["d", "w"], hooked(false, false))
        }],
        ..Plan::default()
    };
    let work = &pool_works(&plan)[0];
    let mut run = PoolRun::new(work, &Settings::default(), false, false);
    let Some(Request::Hook { command, timeout, variables }) = run.next() else {
        panic!("no hook");
    };
    assert_eq!(command, ["pre"]);
    assert_eq!(timeout, 7);
    let value = |name: &str| {
        variables
            .iter()
            .find(|(key, _)| key == name)
            .map(|(_, value)| value.clone())
            .unwrap()
    };
    for prefix in ["ZSNAP", "SANOID"] {
        assert_eq!(value(&format!("{prefix}_SCRIPT")), "pre");
        assert_eq!(value(&format!("{prefix}_TARGET")), "tank/a");
        assert_eq!(value(&format!("{prefix}_TARGETS")), "tank/a");
        assert_eq!(value(&format!("{prefix}_SNAPNAME")), "d");
        assert_eq!(value(&format!("{prefix}_SNAPNAMES")), "d,w");
        assert_eq!(value(&format!("{prefix}_TYPES")), "daily,weekly");
        assert_eq!(value(&format!("{prefix}_PRE_FAILURE")), "0");
    }
    assert_eq!(variables.len(), 14);
}

#[test]
fn a_failed_pruning_hook_spares_its_snapshot() {
    let policy = Policy {
        pre_pruning_script: vec!["before".to_owned()],
        pruning_script: vec!["after".to_owned()],
        ..Policy::default()
    };
    let plan = Plan {
        prunes: vec![prune("tank", "tank/a", &["x", "y"], policy)],
        ..Plan::default()
    };
    let (report, calls) = execute(&plan, &Settings::default(), false, false, fail_hook("before"));
    assert_eq!(calls, ["hook before", "hook before"]);
    assert_eq!(report.snapshots_pruned, 0);
    assert!(report.errors[1].contains("pre-pruning hook failed for tank/a@x; prune skipped"));
    let (report, calls) = execute(&plan, &Settings::default(), false, false, succeed);
    assert_eq!(
        calls,
        ["hook before", "destroy tank/a@x", "hook after", "hook before", "destroy tank/a@y", "hook after"]
    );
    assert_eq!(report.snapshots_pruned, 2);
}

#[test]
fn each_outcome_has_its_words() {
    let plan = Plan {
        prunes: vec![prune("tank", "tank/a", &["x"], Policy::default())],
        ..Plan::default()
    };
    let settings = Settings::default();
    let (report, _) = execute(&plan, &settings, false, false, |_| Outcome::NotStarted("no such file".to_owned()));
    assert_eq!(report.errors, ["[tank] failed to execute \"zfs\" \"destroy\" \"tank/a@x\": no such file"]);
    let (report, _) = execute(&plan, &settings, false, false, |_| Outcome::Failed {
        status: "exit status: 2".to_owned(),
        stderr: " busy\n".to_owned(),
    });
    assert_eq!(report.errors, ["[tank] \"zfs\" \"destroy\" \"tank/a@x\" failed with exit status: 2: busy"]);
}

#[test]
fn pools_are_reported_by_name_and_threads_are_bounded() {
    let plan = Plan {
        snapshots: vec![
            snapshot("tank", "tank/a", &["n"], Policy::default()),
            snapshot("backup", "backup/a", &["n"], Policy::default()),
        ],
        ..Plan::default()
    };
    let (report, _) = execute(&plan, &Settings::default(), true, false, succeed);
    assert!(report.logs[0].starts_with("[backup]"));
    assert!(report.logs[1].starts_with("[tank]"));
    let settings = |max_parallel_pools| Settings {
        max_parallel_pools,
        ..Settings::default()
    };
    assert_eq!(thread_count(&settings(0), 5), 5);
    assert_eq!(thread_count(&settings(2), 5), 2);
    assert_eq!(thread_count(&settings(9), 5), 5);
    assert_eq!(thread_count(&settings(0), 0), 1);
}

#[test]
fn pruning_begins_after_the_snapshots() {
    let plan = Plan {
        snapshots: vec![snapshot("tank", "tank/a", &["autosnap_new_daily"], Policy::default())],
        prunes: vec![prune("tank", "tank/a", &["autosnap_old_daily"], Policy::default())],
        ..Plan::default()
    };
    let work = pool_works(&plan).remove(0);
    let mut run = PoolRun::new(&work, &Settings::default(), false, false);
    assert!(!run.pruning());
    assert!(run.next().is_some());
    assert!(!run.pruning());
    run.complete(Outcome::Succeeded);
    assert!(run.next().is_some());
    assert!(run.pruning());
    run.complete(Outcome::Succeeded);
    assert!(run.next().is_none());
    assert!(!run.pruning());
}

#[test]
fn timings_end_the_log() {
    let plan = Plan {
        snapshots: vec![snapshot("tank", "tank/a", &["autosnap_new_daily"], Policy::default())],
        ..Plan::default()
    };
    let work = pool_works(&plan).remove(0);
    let mut run = PoolRun::new(&work, &Settings::default(), true, true);
    assert!(run.next().is_none());
    let mut result = run.into_result();
    result.log_timing("1.250", "0.000", "1.500");
    assert_eq!(
        result.logs.last().unwrap(),
        "[tank] timing: snapshots 1.250 ms, pruning 0.000 ms, total 1.500 ms"
    );
    let mut report = merge_results(vec![result], true);
    report.log_cache("/etc/zsnap/zsnap.cache");
    report.log_timing("2.000");
    let count = report.logs.len();
    assert_eq!(report.logs[count - 2], "[status] updated reporting cache /etc/zsnap/zsnap.cache");
    assert_eq!(
        report.logs[count - 1],
        "[overall] timing: core run 2.000 ms (discovery, planning, and pool execution)"
    );
}
