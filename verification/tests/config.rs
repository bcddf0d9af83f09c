use zsnap::config::{Config, Recursion, ScheduleTimezone, WebhookEvent, WebhookKind};
use zsnap::document::parse_document;

fn config_with_notifications(notification_toml: &str) -> String {
    format!(
        r#"
version = 1
{notification_toml}
[datasets."tank/data"]
"#
    )
}

fn read(raw: &str) -> Result<Config, String> {
    let document = parse_document(raw).map_err(|e| e.message().to_owned())?;
    Config::from_document(document).map_err(|e| e.message().to_owned())
}

fn config(raw: &str) -> Config {
    read(raw).unwrap_or_else(|e| panic!("{e}"))
}

fn fault(config: &Config) -> String {
    config.validate().unwrap_err().message().to_owned()
}

#[test]
fn parses_real_toml_and_merges_templates_in_order() {
    let config = config(
        r#"
version = 1

[templates.base]
hourly = 24
daily = 7

[templates.archive]
hourly = 0
monthly = 12

[datasets."tank/data"]
use_templates = ["base", "archive"]
recursive = true

[datasets."tank/data".policy]
daily = 30
"#,
    );
    config.validate().unwrap();
    let policy = config.effective_policy("tank/data", None).unwrap();
    assert_eq!(policy.hourly, 0);
    assert_eq!(policy.daily, 30);
    assert_eq!(policy.monthly, 12);
    assert_eq!(config.datasets.get("tank/data").unwrap().recursive, Recursion::Children);
}

#[test]
fn parses_short_dataset_headers_and_inline_policy() {
    let config = Config::parse(
        r#"
version = 1

[template_base]
hourly = 24

[tank]
autosnap = false

[tank/data]
use_templates = [base]
recursive = true
daily = 7

["tank/archive"]
autosnap = false
"#,
    )
    .unwrap_or_else(|e| panic!("{e:?}"));
    config.validate().unwrap();
    assert_eq!(config.datasets.len(), 3);
    assert_eq!(config.datasets.get("tank").unwrap().policy.autosnap, Some(false));
    assert_eq!(config.datasets.get("tank/data").unwrap().recursive, Recursion::Children);
    assert_eq!(config.datasets.get("tank/data").unwrap().use_templates, ["base"]);
    assert_eq!(config.datasets.get("tank/data").unwrap().policy.daily, Some(7));
    assert_eq!(config.datasets.get("tank/archive").unwrap().policy.autosnap, Some(false));

    let unknown = Config::parse("version = 1\n[tank/data]\nhourlies = 3\n")
        .err()
        .unwrap();
    assert!(unknown.message().contains("schema"), "{unknown:?}");
}

#[test]
fn rejects_child_override_under_atomic_recursion() {
    let config = config(
        r#"
version = 1
[datasets."tank/data"]
recursive = "zfs"
[datasets."tank/data/db"]
"#,
    );
    assert!(fault(&config).contains("atomic recursive"));
}

#[test]
fn validates_global_batch_size_bounds() {
    let valid = config_with_notifications(
        r#"
[settings]
snapshot_batch_size = 256
prune_batch_size = 128
"#,
    );
    config(&valid).validate().unwrap();

    let zero = config_with_notifications(
        r#"
[settings]
snapshot_batch_size = 0
"#,
    );
    assert!(fault(&config(&zero)).contains("snapshot_batch_size must be between 1 and 256"));

    let too_large = config_with_notifications(
        r#"
[settings]
prune_batch_size = 129
"#,
    );
    assert!(fault(&config(&too_large)).contains("prune_batch_size must be between 1 and 128"));
}

#[test]
fn rejects_empty_runtime_paths() {
    for (field, message) in [
        ("lock_file", "settings.lock_file"),
        ("zfs_command", "settings.zfs_command"),
        ("zpool_command", "settings.zpool_command"),
    ] {
        let raw = config_with_notifications(&format!("[settings]\n{field} = \"\"\n"));
        let error = fault(&config(&raw));
        assert!(error.contains(message), "{error}");
    }
}

#[test]
fn defaults_to_host_timezone_and_accepts_explicit_utc() {
    let local = config(&config_with_notifications(""));
    local.validate().unwrap();
    assert_eq!(local.settings.timezone, ScheduleTimezone::Local);

    for value in ["utc", "UTC"] {
        let raw = config_with_notifications(&format!("[settings]\ntimezone = {value:?}\n"));
        let config = config(&raw);
        config.validate().unwrap();
        assert_eq!(config.settings.timezone, ScheduleTimezone::Utc);
    }

    let invalid = config_with_notifications("[settings]\ntimezone = \"America/New_York\"\n");
    assert!(read(&invalid).is_err());
}

#[test]
fn parses_typed_webhook_configuration_with_failure_default() {
    let raw = config_with_notifications(
        r#"
[notifications]
max_parallel = 3

[[notifications.webhooks]]
name = "operations"
kind = "flock"
url_env = "ZSNAP_FLOCK_WEBHOOK"
"#,
    );
    let config = config(&raw);
    config.validate().unwrap();
    let webhook = &config.notifications.webhooks[0];
    assert_eq!(webhook.kind, WebhookKind::Flock);
    assert_eq!(webhook.events, vec![WebhookEvent::Failure]);
    assert_eq!(config.notifications.max_parallel, 3);
}

#[test]
fn rejects_unknown_toml_keys_and_webhook_types() {
    let unknown_key = config_with_notifications(
        r#"
[notifications]
timeot_seconds = 10
"#,
    );
    assert!(read(&unknown_key).is_err());

    let unknown_kind = config_with_notifications(
        r#"
[[notifications.webhooks]]
name = "operations"
kind = "teams"
url = "https://example.invalid/hook"
"#,
    );
    assert!(read(&unknown_kind).is_err());
}

#[test]
fn rejects_removed_unsafe_switches() {
    let unmanaged_pruning = config_with_notifications(
        r#"
[settings]
prune_sanoid_snapshots = true
"#,
    );
    assert!(read(&unmanaged_pruning).is_err());

    let insecure_http = config_with_notifications(
        r#"
[notifications]
allow_insecure_http = true
"#,
    );
    assert!(read(&insecure_http).is_err());
}

#[test]
fn validates_webhook_url_sources_and_transport_security() {
    let both_sources = config_with_notifications(
        r#"
[[notifications.webhooks]]
name = "operations"
kind = "slack"
url = "https://example.invalid/hook"
url_env = "ZSNAP_SLACK_WEBHOOK"
"#,
    );
    assert!(fault(&config(&both_sources)).contains("exactly one"));

    let insecure = config_with_notifications(
        r#"
[[notifications.webhooks]]
name = "operations"
kind = "discord"
url = "http://example.invalid/hook"
"#,
    );
    assert!(fault(&config(&insecure)).contains("HTTPS"));
}

// ---------------------------------------------------------------------------
// Defaults and forms of values
// ---------------------------------------------------------------------------

#[test]
fn every_setting_has_its_default() {
    let config = config(&config_with_notifications(""));
    let settings = &config.settings;
    assert_eq!(settings.snapshot_prefix, "autosnap");
    assert_eq!(settings.max_parallel_pools, 0);
    assert_eq!(settings.snapshot_batch_size, 128);
    assert_eq!(settings.prune_batch_size, 64);
    assert_eq!(settings.lock_file, "/run/zsnap/zsnap.lock");
    assert_eq!(settings.cache_file, "/etc/zsnap/zsnap.cache");
    assert_eq!(settings.zfs_command, "zfs");
    assert_eq!(settings.zpool_command, "zpool");
    let notifications = &config.notifications;
    assert!(notifications.enabled);
    assert_eq!(notifications.hostname, None);
    assert_eq!(notifications.max_parallel, 4);
    assert_eq!(notifications.timeout_seconds, 10);
    assert_eq!(notifications.max_attempts, 3);
    assert_eq!(notifications.retry_backoff_milliseconds, 500);
    assert!(!notifications.fail_on_error);
    assert!(notifications.webhooks.is_empty());
}

#[test]
fn recursion_takes_truth_values_and_words() {
    for (value, expected) in [
        ("false", Recursion::Off),
        ("true", Recursion::Children),
        ("\"No\"", Recursion::Off),
        ("\"none\"", Recursion::Off),
        ("\"YES\"", Recursion::Children),
        ("\"children\"", Recursion::Children),
        ("\"atomic\"", Recursion::Zfs),
        ("\"ZFS\"", Recursion::Zfs),
    ] {
        let raw = format!("version = 1\n[datasets.tank]\nrecursive = {value}\n");
        assert_eq!(config(&raw).datasets.get("tank").unwrap().recursive, expected, "{value}");
    }
    assert!(read("version = 1\n[datasets.tank]\nrecursive = \"maybe\"\n").is_err());
    assert!(read("version = 1\n[datasets.tank]\nrecursive = 1\n").is_err());
}

#[test]
fn numbers_must_fit_their_fields() {
    assert!(read("version = 4294967296\n").is_err());
    assert!(read("version = -1\n").is_err());
    assert!(read("version = 1.0\n").is_err());
    assert!(read("[settings]\n").is_err());
    let raw = "version = 1\n[datasets.tank.policy]\nprune_defer = 256\n";
    assert!(read(raw).is_err());
    let raw = "version = 1\n[datasets.tank.policy]\nprune_defer = 255\n";
    assert_eq!(config(raw).datasets.get("tank").unwrap().policy.prune_defer, Some(255));
}

#[test]
fn inline_and_nested_policy_settings_are_merged_unless_they_clash() {
    let config = Config::parse("version = 1\n[tank]\ndaily = 7\n[datasets.tank.policy]\nhourly = 2\n")
        .unwrap_or_else(|e| panic!("{e:?}"));
    let policy = &config.datasets.get("tank").unwrap().policy;
    assert_eq!(policy.daily, Some(7));
    assert_eq!(policy.hourly, Some(2));

    let clash = Config::parse("version = 1\n[tank]\ndaily = 7\n[datasets.tank.policy]\ndaily = 2\n")
        .err()
        .unwrap();
    assert!(clash.message().contains("daily"), "{clash:?}");
}

#[test]
fn a_template_list_goes_by_one_name() {
    let raw = "version = 1\n[datasets.tank]\nuse_template = [\"a\"]\n";
    assert_eq!(config(raw).datasets.get("tank").unwrap().use_templates, ["a"]);
    let raw = "version = 1\n[datasets.tank]\nuse_template = [\"a\"]\nuse_templates = [\"b\"]\n";
    assert!(read(raw).is_err());
}

#[test]
fn broken_toml_is_reported_by_the_parser() {
    let error = Config::parse("version = \n").err().unwrap();
    assert!(error.message().contains("TOML parse error"), "{error:?}");
}

#[test]
fn shorthand_errors_name_their_line() {
    let error = Config::parse("version = 1\n[tank]\nuse_templates = [a, ]b\n").err();
    assert!(error.is_some());
    let error = Config::parse("version = 1\n[template_a b]\n").err().unwrap();
    assert!(error.message().contains("line 2"), "{error:?}");
}

// ---------------------------------------------------------------------------
// Validation
// ---------------------------------------------------------------------------

#[test]
fn each_rule_has_its_message() {
    for (raw, message) in [
        ("version = 2\n[datasets.tank]\n", "unsupported configuration version 2; expected 1"),
        ("version = 1\n", "configuration must contain at least one dataset"),
        ("version = 1\n[settings]\nsnapshot_prefix = \"\"\n[datasets.tank]\n", "snapshot_prefix cannot be empty"),
        ("version = 1\n[settings]\nsnapshot_prefix = \"a/b\"\n[datasets.tank]\n", "snapshot_prefix may contain only"),
        ("version = 1\n[datasets.\"/tank\"]\n", "invalid ZFS dataset name"),
        ("version = 1\n[datasets.\"tank//a\"]\n", "unsupported characters"),
        ("version = 1\n[datasets.tank]\nuse_templates = [\"x\"]\n", "references unknown template \"x\""),
        ("version = 1\n[datasets.tank.policy]\nfrequent_period = 7\n", "frequent_period must be a divisor of 60"),
        ("version = 1\n[datasets.tank.policy]\nhourly_min = 60\n", "hourly_min must be 0..59"),
        ("version = 1\n[datasets.tank.policy]\nmonthly_mday = 29\n", "monthly_mday must be 1..28"),
        ("version = 1\n[datasets.tank.policy]\nweekly_wday = 0\n", "weekly_wday must be 1"),
        ("version = 1\n[datasets.tank.policy]\nprune_defer = 101\n", "prune_defer must be 0..100"),
        ("version = 1\n[notifications]\nmax_parallel = 0\n[datasets.tank]\n", "max_parallel must be greater than zero"),
        ("version = 1\n[notifications]\ntimeout_seconds = 61\n[datasets.tank]\n", "timeout_seconds must be between 1 and 60"),
        ("version = 1\n[notifications]\nmax_attempts = 6\n[datasets.tank]\n", "max_attempts must be between 1 and 5"),
        ("version = 1\n[notifications]\nhostname = \" \"\n[datasets.tank]\n", "hostname cannot be empty"),
    ] {
        let error = fault(&config(raw));
        assert!(error.contains(message), "{raw}: {error}");
    }
}

#[test]
fn webhook_names_differ() {
    let hook = "[[notifications.webhooks]]\nname = \"a\"\nkind = \"slack\"\nurl_env = \"A\"\n";
    let raw = format!("version = 1\n{hook}{hook}[datasets.tank]\n");
    assert_eq!(fault(&config(&raw)), "duplicate notification webhook name \"a\"");
}

#[test]
fn a_policy_is_built_over_the_one_above() {
    let config = config("version = 1\n[datasets.tank.policy]\nhourly = 5\n");
    let mut base = zsnap::config::Policy::default();
    base.daily = 3;
    let policy = config.effective_policy("tank", Some(&base)).unwrap();
    assert_eq!(policy.hourly, 5);
    assert_eq!(policy.daily, 3);
    assert!(config.effective_policy("other", None).is_err());
}

#[test]
fn an_unknown_key_is_named_as_the_cause() {
    for (raw, cause) in [
        ("version = 1\nfoo = 2\n", "unknown field `foo` in the configuration"),
        ("version = 1\n[settings]\nfoo = 2\n", "unknown field `foo` in the settings"),
        ("version = 1\n[notifications]\nfoo = 2\n", "unknown field `foo` in the notifications"),
        (
            "version = 1\n[[notifications.webhooks]]\nname = \"a\"\nkind = \"slack\"\nfoo = 2\n",
            "unknown field `foo` in a webhook",
        ),
        ("version = 1\n[template_a]\nfoo = 2\n", "unknown field `foo` in template a"),
        ("version = 1\n[tank/b]\nfoo = 2\n", "unknown field `foo` in dataset tank/b"),
        ("version = 1\n[datasets.tank.policy]\nfoo = 2\n", "unknown field `foo` in dataset tank"),
    ] {
        let error = Config::parse(raw).err().unwrap();
        assert_eq!(error.message(), "configuration does not match the zsnap schema");
        assert_eq!(error.causes(), [cause]);
        assert_eq!(error.explanation(), format!("configuration does not match the zsnap schema: {cause}"));
    }
    // Another fault has no key to name.
    let error = Config::parse("version = \"x\"\n").err().unwrap();
    assert!(error.causes().is_empty());
    assert_eq!(error.explanation(), error.message());
}

#[test]
fn a_badly_quoted_header_tells_why() {
    let error = Config::parse("version = 1\n[\"tank]\n").err().unwrap();
    assert_eq!(error.message(), "line 2: invalid quoted dataset section name");
    assert_eq!(error.causes().len(), 1);
}
