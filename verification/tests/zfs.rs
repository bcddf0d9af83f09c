use zsnap::zfs::{
    command_failure, dataset_list_failure, discovery, inventory_from, parse_datasets, parse_missing_datasets, parse_pools,
    parse_snapshots, Inventory,
};

#[test]
fn parses_inventory_outputs() {
    let datasets = parse_datasets("tank\ntank/data\nbackup\n").unwrap_or_else(|e| panic!("{e:?}"));
    assert!(datasets.contains("tank/data"));

    let snapshots = parse_snapshots(
        "tank/data@autosnap_2026-08-27_12:00:00_hourly\t1787832000\tyes\t1\ttank/clone-a,tank/clone-b\n\
         tank/data@manual\t1787831000\t-\t0\t-\n",
    )
    .unwrap();
    assert_eq!(snapshots.len(), 2);
    assert!(snapshots[0].managed);
    assert_eq!(snapshots[0].user_holds, 1);
    assert!(snapshots[0].has_clones);
    assert!(snapshots[0].prune_protected());
    assert!(!snapshots[1].managed);
    assert!(!snapshots[1].prune_protected());

    let pools = parse_pools("tank\t42%\nbackup\t7%\n").unwrap();
    assert_eq!(pools.get("tank").unwrap().capacity_percent, 42);
}

#[test]
fn recognizes_only_clean_missing_dataset_diagnostics() {
    let missing = parse_missing_datasets(
        "cannot open 'pool/missing-b': dataset does not exist\n\
         cannot open 'pool/missing-a': dataset does not exist\n",
    )
    .unwrap();
    assert_eq!(missing.to_vec(), ["pool/missing-a", "pool/missing-b"]);
    assert!(parse_missing_datasets("cannot open 'pool/data': permission denied\n").is_none());
    assert!(
        parse_missing_datasets("cannot open 'missingpool': no such pool\nunrelated diagnostic\n")
            .is_none()
    );
}

fn message<T>(result: Result<T, zsnap::error::Error>) -> String {
    result.err().unwrap().message().to_owned()
}

#[test]
fn each_listing_has_its_errors() {
    assert_eq!(
        message(parse_datasets("tank\n tank@x\n")),
        "invalid dataset listing on line 2: \" tank@x\""
    );
    for (listing, error) in [
        ("a\tb\n", "invalid snapshot listing on line 1: expected 5 tab-separated fields, got 2"),
        ("tank\t1\t-\t0\t-\n", "invalid snapshot name \"tank\" on line 1"),
        ("\ntank@x\tz\t-\t0\t-\n", "invalid snapshot creation time \"z\" on line 2"),
        ("tank@x\t1\t-\t-1\t-\n", "invalid snapshot userrefs count \"-1\" on line 1"),
    ] {
        assert_eq!(message(parse_snapshots(listing)), error);
    }
    for (listing, error) in [
        ("tank\n", "invalid zpool listing on line 1: expected 2 tab-separated fields, got 1"),
        ("tank\tx%\n", "invalid pool capacity \"x%\" on line 1"),
        ("tank\t256%\n", "invalid pool capacity \"256%\" on line 1"),
        ("tank\t101%\n", "invalid pool capacity 101 on line 1"),
    ] {
        assert_eq!(message(parse_pools(listing)), error);
    }
    assert_eq!(message(inventory_from("a@b", "", "")), "invalid dataset listing on line 1: \"a@b\"");
}

#[test]
fn marks_of_ownership_have_several_spellings() {
    for (mark, managed) in [("yes", true), ("ON", true), ("1", true), (" true ", true), ("no", false), ("-", false)] {
        let listing = format!("tank@x\t1\t{mark}\t0\t\n");
        let snapshots = parse_snapshots(&listing).unwrap();
        assert_eq!(snapshots[0].managed, managed, "{mark:?}");
        assert!(!snapshots[0].has_clones);
    }
}

#[test]
fn a_pool_is_the_first_part_of_a_dataset_name() {
    assert_eq!(Inventory::pool_for_dataset("tank/a/b"), "tank");
    assert_eq!(Inventory::pool_for_dataset("tank"), "tank");
}

#[test]
fn discovery_asks_for_the_configured_datasets_and_their_pools() {
    let configured = vec!["tank/b".to_owned(), "backup".to_owned(), "tank/a".to_owned()];
    let discovery = discovery(&configured);
    assert!(discovery.datasets.ends_with(&["backup".to_owned(), "tank/a".to_owned(), "tank/b".to_owned()]));
    assert!(discovery.snapshots.ends_with(&["backup".to_owned(), "tank/a".to_owned(), "tank/b".to_owned()]));
    assert!(discovery.pools.ends_with(&["backup".to_owned(), "tank".to_owned()]));
}

#[test]
fn failed_listings_are_reported() {
    let arguments = vec!["list".to_owned(), "-H".to_owned()];
    assert_eq!(
        command_failure("zfs", &arguments, "exit status: 1", " no\n").message(),
        "zfs list -H failed with exit status: 1: no"
    );
    let missing = "cannot open 'pool/b': dataset does not exist\ncannot open 'pool/a': dataset does not exist\n";
    assert_eq!(
        dataset_list_failure("zfs", &arguments, "exit status: 1", missing).message(),
        "configured ZFS dataset sections reference missing names:\n  - pool/a\n  - pool/b\ncorrect or remove these sections, then rerun `zsnap check --probe`"
    );
    assert_eq!(
        dataset_list_failure("zfs", &arguments, "exit status: 1", "permission denied").message(),
        "zfs list -H failed with exit status: 1: permission denied"
    );
}

#[test]
fn the_order_of_a_snapshot_listing_does_not_matter() {
    let a = "tank@b\t2\tyes\t0\t-\n";
    let b = "tank@a\t1\t-\t3\tx\n";
    let names = |output: &str| {
        parse_snapshots(output)
            .unwrap()
            .iter()
            .map(|snapshot| (snapshot.name.clone(), snapshot.created, snapshot.managed, snapshot.user_holds))
            .collect::<Vec<_>>()
    };
    let expected = vec![("a".to_owned(), 1, false, 3), ("b".to_owned(), 2, true, 0)];
    assert_eq!(names(&format!("{a}\n{b}")), expected);
    assert_eq!(names(&format!("{b}{a}\n")), expected);
    // Of two lines with one name the later counts.
    assert_eq!(names(&format!("{a}tank@b\t9\t-\t1\t-\n")), vec![("b".to_owned(), 9, false, 1)]);
}

#[test]
fn a_bad_number_in_a_listing_tells_why() {
    let error = parse_snapshots("tank@a\tx\t-\t0\t-\n").err().unwrap();
    assert_eq!(error.message(), "invalid snapshot creation time \"x\" on line 1");
    assert_eq!(error.causes(), ["invalid digit found in string"]);
    let error = parse_snapshots("tank@a\t1\t-\t\t-\n").err().unwrap();
    assert_eq!(error.message(), "invalid snapshot userrefs count \"\" on line 1");
    assert_eq!(error.causes(), ["cannot parse integer from empty string"]);
    let error = parse_pools("tank\t300%\n").err().unwrap();
    assert_eq!(error.message(), "invalid pool capacity \"300%\" on line 1");
    assert_eq!(error.causes(), ["number too large to fit in target type"]);
    let error = parse_pools("tank\t101\n").err().unwrap();
    assert!(error.causes().is_empty());
}
