use zsnap::config::{Config, Recursion, ScheduleTimezone};
use zsnap::migration::{check_generated, convert_sanoid, unique_template_name, SanoidMigration};
use zsnap::names::NameSet;

fn parse(raw: &str) -> Config {
    Config::parse(raw).unwrap_or_else(|e| panic!("{e:?}"))
}

fn convert(source: &str) -> SanoidMigration {
    convert_sanoid(source, None).unwrap()
}

fn refusal(source: &str) -> String {
    convert_sanoid(source, None).unwrap_err().message().to_owned()
}

#[test]
fn converts_templates_recursion_overrides_and_monitoring_warnings() {
    let migration = convert_sanoid(
        r#"
[tank/data]
use_template = production,demo
recursive = yes
hourly = 12

[tank/data/db]
daily = 3

[template_production]
frequently = 0
hourly = 36
daily = 30
weekly = 4
monthly = 3
yearly = 0
autosnap = yes
autoprune = yes
process_children_only = yes
hourly_warn = 90m

[template_demo]
daily = 60
"#,
        None,
    )
    .unwrap();
    let config = parse(&migration.config_toml);
    config.validate().unwrap();
    assert_eq!(config.settings.timezone, ScheduleTimezone::Local);
    assert!(migration.config_toml.contains("[tank/data]"));
    assert!(!migration.config_toml.contains("[datasets.\"tank/data\"]"));
    assert!(migration.config_toml.contains("[template_sanoid_defaults]"));
    assert!(migration.config_toml.contains("[template_production]"));
    assert!(!migration.config_toml.contains("[templates.production]"));
    assert!(
        migration
            .config_toml
            .contains("use_templates = [sanoid_defaults, production, demo]")
    );
    assert_eq!(migration.datasets, 2);
    let data = config.datasets.get("tank/data").unwrap();
    let db = config.datasets.get("tank/data/db").unwrap();
    assert_eq!(data.recursive, Recursion::Children);
    assert!(data.process_children_only);
    assert!(!db.process_children_only);
    assert_eq!(data.use_templates.len(), 3);
    assert_eq!(db.use_templates.len(), 0);
    assert_eq!(db.policy.daily, Some(3));
    assert!(
        migration
            .warnings
            .iter()
            .any(|warning| warning.contains("hourly_warn"))
    );
    let root = config.effective_policy("tank/data", None).unwrap();
    let child = config
        .effective_policy("tank/data/db", Some(&root))
        .unwrap();
    assert_eq!(root.hourly, 12);
    assert_eq!(root.daily, 60);
    assert_eq!(child.daily, 3);
    assert!(!root.no_inconsistent_snapshot);
}

#[test]
fn converts_path_atomic_recursion_and_shell_hooks() {
    let migration = convert_sanoid(
        r#"
[alias]
path = pool/actual
use_template = scripts
recursive = zfs

[template_scripts]
pre_snapshot_script = /usr/local/bin/freeze --all && logger frozen
script_timeout = -1
no_inconsistent_snapshot = yes
"#,
        None,
    )
    .unwrap();
    let config = parse(&migration.config_toml);
    config.validate().unwrap();
    assert_eq!(config.datasets.get("pool/actual").unwrap().recursive, Recursion::Zfs);
    let hook = config
        .templates
        .get("scripts")
        .unwrap()
        .pre_snapshot_script
        .as_ref()
        .unwrap();
    assert_eq!(&hook[..2], ["/bin/sh", "-c"]);
    assert!(hook[2].contains("logger frozen"));
    assert_eq!(config.templates.get("scripts").unwrap().script_timeout, Some(0));
    assert!(
        migration
            .warnings
            .iter()
            .any(|warning| warning.contains("review"))
    );
}

#[test]
fn applies_defaults_file_and_user_default_template() {
    let defaults = r#"
[version]
version = 2
[template_default]
hourly = 24
daily = 10
autosnap = yes
autoprune = yes
no_inconsistent_snapshot =
"#;
    let migration = convert_sanoid(
        r#"
[tank/data]
use_template = override,default

[template_override]
daily = 99

[template_default]
daily = 7
weekly_wday = 0
"#,
        Some(defaults),
    )
    .unwrap();
    let config = parse(&migration.config_toml);
    let policy = config.effective_policy("tank/data", None).unwrap();
    assert_eq!(policy.hourly, 24);
    assert_eq!(policy.daily, 7);
    assert_eq!(policy.weekly_wday, 7);
    assert!(!policy.no_inconsistent_snapshot);
    assert!(
        config
            .datasets
            .get("tank/data")
            .unwrap()
            .use_templates
            .last()
            .unwrap()
            .starts_with("sanoid_user_defaults")
    );
}

#[test]
fn rejects_lossy_or_invalid_source_configuration() {
    let skip = refusal("[tank/data]\nskip_children = yes\n");
    assert!(skip.contains("cannot be translated"));

    let unknown = refusal("[tank/data]\nhourlies = 12\n");
    assert!(unknown.contains("unknown or unsupported"));

    let atomic_child = refusal("[tank/data]\nrecursive = zfs\n[tank/data/db]\nhourly = 4\n");
    assert!(atomic_child.contains("atomic recursive root"));

    let children_only = refusal(
        "[tank/data]\nuse_template = children\n[template_children]\nprocess_children_only = yes\n",
    );
    assert!(children_only.contains("without recursive"));
}

#[test]
fn keeps_first_duplicate_like_sanoid() {
    let migration = convert("[tank]\nhourly = 12\nhourly = 99\n");
    let config = parse(&migration.config_toml);
    assert_eq!(config.datasets.get("tank").unwrap().policy.hourly, Some(12));
    assert!(migration.config_toml.contains("[tank]"));
    assert!(!migration.config_toml.contains("[datasets.\"tank\"]"));
    assert!(
        migration
            .warnings
            .iter()
            .any(|warning| warning.contains("duplicate"))
    );
}

// ---------------------------------------------------------------------------
// The whole text
// ---------------------------------------------------------------------------

#[test]
fn the_file_is_written_as_expected() {
    let migration = convert("[v]\npath = version\nautosnap = no\npost_snapshot_script = echo \"done\"\n[tank]\nrecursive=zfs\npath=p\n");
    let defaults = "autosnap = true
autoprune = true
frequently = 0
hourly = 48
daily = 90
weekly = 0
monthly = 6
yearly = 0
frequent_period = 15
hourly_min = 0
daily_hour = 23
daily_min = 59
weekly_wday = 1
weekly_hour = 23
weekly_min = 30
monthly_mday = 1
monthly_hour = 0
monthly_min = 0
yearly_mon = 1
yearly_mday = 1
yearly_hour = 0
yearly_min = 0
prune_defer = 0
script_timeout = 5
no_inconsistent_snapshot = false
force_post_snapshot_script = false
";
    assert!(migration.config_toml.contains(defaults));
    assert!(migration.config_toml.starts_with(
        "# Generated by `zsnap migrate-sanoid`.\n\
         # This conversion does not touch ZFS. Existing unmarked Sanoid snapshots are never pruned.\n\n\
         # Host-local scheduling preserves Sanoid's configured civil times.\n\n\
         version = 1\n\n[settings]\nsnapshot_prefix = \"autosnap\"\ntimezone = \"local\"\n\n\
         [notifications]\nenabled = false\n\n[template_sanoid_defaults]\n"
    ));
    assert!(migration.config_toml.ends_with(
        "\n[p]\nuse_templates = [sanoid_defaults]\nrecursive = \"zfs\"\n\
         \n[datasets.\"version\"]\nuse_templates = [sanoid_defaults]\nautosnap = false\n\
         post_snapshot_script = [\n    \"/bin/sh\",\n    \"-c\",\n    'echo \"done\"',\n]\n"
    ));
}

#[test]
fn names_that_need_quotes_get_them() {
    let migration = convert(
        "[tank]\nuse_template = a b\nrecursive = on\n[template_a b]\nhourly = 3\npruning_script =\n",
    );
    assert!(migration.config_toml.contains("[templates.\"a b\"]\nhourly = 3\npruning_script = []\n"));
    assert!(migration.config_toml.contains("use_templates = [\"sanoid_defaults\", \"a b\"]\nrecursive = true\n"));
    let config = parse(&migration.config_toml);
    assert_eq!(config.effective_policy("tank", None).unwrap().hourly, 3);
    assert_eq!(migration.templates, 2);
}

#[test]
fn a_dataset_named_like_a_section_stands_in_quotes() {
    let migration = convert("[alias]\npath = settings\n");
    assert!(migration.config_toml.contains("[datasets.\"settings\"]\n"));
}

#[test]
fn a_taken_template_name_gets_a_number() {
    let migration = convert(
        "[tank]\nuse_template = sanoid_defaults, sanoid_defaults_2\n[template_sanoid_defaults]\nhourly = 3\n[template_sanoid_defaults_2]\ndaily = 4\n",
    );
    assert!(migration.config_toml.contains("[template_sanoid_defaults_3]"));
    let config = parse(&migration.config_toml);
    assert_eq!(
        config.datasets.get("tank").unwrap().use_templates,
        ["sanoid_defaults_3", "sanoid_defaults", "sanoid_defaults_2"]
    );

    let mut taken = NameSet::new();
    assert_eq!(unique_template_name("a", &taken), "a");
    taken.insert("a".to_owned());
    taken.insert("a_2".to_owned());
    assert_eq!(unique_template_name("a", &taken), "a_3");
}

#[test]
fn inherited_sections_get_no_base_template() {
    let migration = convert("[tank]\nrecursive = yes\n[tank/a]\nhourly = 1\n[tankard]\nhourly = 2\n");
    let config = parse(&migration.config_toml);
    assert_eq!(config.datasets.get("tank").unwrap().use_templates, ["sanoid_defaults"]);
    assert!(config.datasets.get("tank/a").unwrap().use_templates.is_empty());
    assert_eq!(config.datasets.get("tankard").unwrap().use_templates, ["sanoid_defaults"]);
}

#[test]
fn each_refusal_has_its_message() {
    for (source, message) in [
        ("a\0b", "Sanoid configuration contains a NUL byte"),
        ("[tank\n", "Sanoid configuration line 1: unterminated section header"),
        ("\n[ ]\n", "Sanoid configuration line 2: section name cannot be empty"),
        ("[tank] x\n", "Sanoid configuration line 1: unexpected text after section header"),
        ("hourly = 1\n", "Sanoid configuration line 1: setting appears before any section"),
        ("[tank]\nhourly\n", "Sanoid configuration line 2: expected `key = value`"),
        ("[tank]\n = 1\n", "Sanoid configuration line 2: setting name cannot be empty"),
        ("[tank]\nhourly = -1\n", "[tank] hourly on line 2 must be a non-negative integer"),
        ("[tank]\nautosnap = maybe\n", "[tank] autosnap on line 2 must be yes/no, true/false, on/off, or 1/0"),
        ("[tank]\nweekly_wday = 8\n", "[tank] weekly_wday on line 2 must be 0 (Sunday) through 7 (Sunday)"),
        ("[tank]\nscript_timeout = x\n", "[tank] script_timeout on line 2 must be an integer"),
        ("[tank]\nprune_defer = 256\n", "[tank] prune_defer on line 2 exceeds 255"),
        ("[tank]\npath =\n", "Sanoid section [tank] has an empty path on line 2; remove path or set a dataset name"),
        ("[a]\npath=tank\n[tank]\n", "multiple Sanoid sections resolve to dataset \"tank\"; path aliases must be unique"),
        ("[tank]\nuse_template = a\n", "Sanoid section [tank] references missing template \"a\""),
        ("[tank]\nuse_template = a,\n[template_a]\n", "[tank] use_template on line 2 contains an empty template name"),
        ("[template_ ]\n", "Sanoid template section \"template_\" has an empty name"),
        ("[version]\n", "Sanoid configuration does not contain any dataset sections"),
        (
            "[tank]\nrecursive = zfs\nprocess_children_only = yes\n",
            "dataset \"tank\" combines process_children_only = yes with recursive = zfs; zsnap cannot translate that combination safely",
        ),
        ("[tank]\nhourly_min = 60\n", "generated zsnap configuration failed validation"),
    ] {
        assert_eq!(refusal(source), message, "{source:?}");
    }
    let error = convert_sanoid("[tank]\n", Some("x\n")).unwrap_err();
    assert_eq!(error.message(), "Sanoid defaults line 1: setting appears before any section");
}

#[test]
fn warnings_say_what_was_left_out() {
    let migration = convert(
        "; a comment\n# another\n[version]\nversion = 2\n[tank] # here\nmonitor = no\n[tank]\n[template_x]\nrecursive = yes\n",
    );
    assert_eq!(
        migration.warnings,
        [
            "Sanoid configuration line 7: merged duplicate section [tank]",
            "[template_x] ignored structural setting \"recursive\" on line 9; Sanoid does not apply it from templates",
            "[tank] ignored monitoring-only setting \"monitor\" on line 6",
            "ignored Sanoid [version] metadata section",
        ]
    );
}

#[test]
fn a_byte_order_mark_is_not_part_of_the_source() {
    assert_eq!(convert("\u{feff}[tank]\n").datasets, 1);
}

#[test]
fn what_was_generated_is_judged_by_what_reading_it_gives() {
    let error = check_generated(&Config::parse("version =")).unwrap_err();
    assert_eq!(error.message(), "generated zsnap TOML did not parse");
    assert_eq!(error.causes(), Config::parse("version =").err().unwrap().chain());
    let error = check_generated(&Config::parse("version = 1")).unwrap_err();
    assert_eq!(error.message(), "generated zsnap configuration failed validation");
    assert_eq!(error.causes(), ["configuration must contain at least one dataset"]);
    assert!(check_generated(&Config::parse("version = 1\n[tank]\n")).is_ok());
}

#[test]
fn a_migrated_file_reads_back_with_all_that_was_converted() {
    let migration = convert("[tank]\nuse_template = a\n[tank/b]\n[template_a]\nhourly = 3\n");
    let config = parse(&migration.config_toml);
    assert_eq!(config.version, 1);
    assert_eq!(config.settings.timezone, ScheduleTimezone::Local);
    assert_eq!(config.settings.snapshot_prefix, "autosnap");
    assert!(!config.notifications.enabled);
    assert_eq!(config.datasets.len(), migration.datasets);
    assert_eq!(config.templates.len(), migration.templates);
    assert_eq!(config.datasets.keys(), ["tank", "tank/b"]);
    assert_eq!(config.templates.get("a").unwrap().hourly, Some(3));
}

#[test]
fn hooks_with_awkward_characters_read_back() {
    for command in [
        "echo \"it's\"",
        "'a' \"b\" \\c",
        "\"\"\" ''' \"\"\"\"'",
        "C:\\x\\y",
        "a\tb",
        "[tank] = [x]",
        "use_templates = [a]",
        "caf\u{e9} \u{1f980}",
        "\u{1}\u{7f}",
        "'",
        "\"",
        "=",
    ] {
        let migration = convert(&format!("[tank]\npre_snapshot_script = {command}\n"));
        let config = parse(&migration.config_toml);
        let hook = config.datasets.get("tank").unwrap().policy.pre_snapshot_script.as_ref().unwrap();
        assert_eq!(hook[2], command);
    }
}

#[test]
fn names_like_reserved_tables_are_quoted() {
    for name in ["datasets.foo", "settings.x", "templates.a/b", "notifications", "version.1", "template_x/y"] {
        let migration = convert(&format!("[pool]\npath = {name}\n"));
        assert!(migration.config_toml.contains(&format!("[datasets.\"{name}\"]\n")), "{}", migration.config_toml);
        assert_eq!(parse(&migration.config_toml).datasets.keys(), [name]);
    }
    let migration = convert("[settingsx/y]\n");
    assert!(migration.config_toml.contains("[settingsx/y]\n"));
}

#[test]
fn a_bad_number_tells_why() {
    for (setting, message, cause) in [
        ("hourly = x", "[tank] hourly on line 2 must be a non-negative integer", "invalid digit found in string"),
        (
            "hourly = 99999999999",
            "[tank] hourly on line 2 must be a non-negative integer",
            "number too large to fit in target type",
        ),
        ("script_timeout =", "[tank] script_timeout on line 2 must be an integer", "cannot parse integer from empty string"),
        (
            "prune_defer = 256",
            "[tank] prune_defer on line 2 exceeds 255",
            "out of range integral type conversion attempted",
        ),
    ] {
        let error = convert_sanoid(&format!("[tank]\n{setting}\n"), None).unwrap_err();
        assert_eq!(error.message(), message);
        assert_eq!(error.causes(), [cause]);
        assert_eq!(error.explanation(), format!("{message}: {cause}"));
    }
}
