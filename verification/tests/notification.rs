use zsnap::config::{Notifications, SecretString, WebhookConfig, WebhookEvent, WebhookKind};
use zsnap::environment::{environment_file_for_config, parse_assignment, parse_environment};
use zsnap::error::Error;
use zsnap::names::NameMap;
use zsnap::notification::{
    hostname, resolve_url, retry_delay, select, subscribes, truncate_message, Courier, DeliveryEvent,
    NotificationDelivery, NotificationReport, SendFailure, MAX_MESSAGE_CHARACTERS,
};
use zsnap::payload::payload;
use zsnap::webhook::{is_portable_environment_name, validate_uri_parts, validate_webhook_url};

fn webhook(kind: WebhookKind) -> WebhookConfig {
    WebhookConfig {
        name: "test".to_owned(),
        kind,
        url: Some(SecretString::new("https://example.invalid/hook".to_owned())),
        url_env: None,
        events: vec![WebhookEvent::Failure],
        enabled: true,
    }
}

fn through(variable: &str) -> WebhookConfig {
    WebhookConfig {
        url: None,
        url_env: Some(variable.to_owned()),
        ..webhook(WebhookKind::Slack)
    }
}

#[test]
fn subscriptions_default_to_failure_and_tests_select_everything() {
    let webhook = webhook(WebhookKind::Slack);
    assert!(subscribes(&webhook, DeliveryEvent::Failure));
    assert!(!subscribes(&webhook, DeliveryEvent::Success));
    assert!(subscribes(&webhook, DeliveryEvent::Test));
}

#[test]
fn truncation_is_unicode_safe_and_within_discord_limit() {
    let input = "🦀".repeat(2_001);
    let output = truncate_message(&input);
    assert_eq!(output.chars().count(), MAX_MESSAGE_CHARACTERS);
    assert!(output.ends_with('…'));
}

#[test]
fn secrets_are_redacted_from_debug_output() {
    let output = webhook(WebhookKind::Discord).redacted();
    assert!(output.contains("[redacted]"));
    assert!(!output.contains("example.invalid"));
}

#[test]
fn provider_payloads_use_the_expected_fields() {
    let discord: serde_json::Value =
        serde_json::from_str(&payload(WebhookKind::Discord, "hello @everyone")).unwrap();
    assert_eq!(discord["content"], "hello @everyone");
    assert_eq!(discord["allowed_mentions"]["parse"], serde_json::Value::Array(vec![]));
    assert!(discord.get("text").is_none());

    for kind in [WebhookKind::Flock, WebhookKind::Slack] {
        let value: serde_json::Value = serde_json::from_str(&payload(kind, "hello")).unwrap();
        assert_eq!(value["text"], "hello");
        assert!(value.get("content").is_none());
    }
}

#[test]
fn delivery_runs_concurrently_with_the_configured_bound() {
    let webhooks = (0..4)
        .map(|index| WebhookConfig {
            name: format!("target-{index}"),
            ..webhook(WebhookKind::Slack)
        })
        .collect();
    let config = Notifications {
        max_parallel: 2,
        max_attempts: 1,
        retry_backoff_milliseconds: 0,
        webhooks,
        ..Notifications::default()
    };
    let selection = select(&config, DeliveryEvent::Failure);
    assert_eq!(selection.threads, 2);
    let deliveries = selection
        .targets
        .iter()
        .map(|target| {
            let hook = &config.webhooks[*target];
            let url = resolve_url(hook, None, &NameMap::new());
            let mut courier = Courier::new(&config, hook, "test", url);
            assert!(courier.pending);
            assert_eq!(courier.complete(Ok(())), None);
            courier.delivery
        })
        .collect();
    let report = NotificationReport::new(deliveries, selection.skipped);
    assert_eq!(report.delivered, 4);
}

// ---------------------------------------------------------------------------
// Bodies and messages
// ---------------------------------------------------------------------------

#[test]
fn bodies_are_compact_json() {
    assert_eq!(payload(WebhookKind::Slack, "a\"b\n"), r#"{"text":"a\"b\n"}"#);
    assert_eq!(
        payload(WebhookKind::Discord, "x"),
        r#"{"allowed_mentions":{"parse":[]},"content":"x"}"#
    );
}

#[test]
fn short_messages_stay_as_they_are() {
    let message = "x".repeat(MAX_MESSAGE_CHARACTERS);
    assert_eq!(truncate_message(&message), message);
    assert_eq!(truncate_message(""), "");
}

// ---------------------------------------------------------------------------
// Targets
// ---------------------------------------------------------------------------

#[test]
fn only_enabled_subscribers_are_selected() {
    let mut both = webhook(WebhookKind::Slack);
    both.events.push(WebhookEvent::Success);
    let mut disabled = webhook(WebhookKind::Flock);
    disabled.enabled = false;
    let mut config = Notifications {
        webhooks: vec![webhook(WebhookKind::Discord), both, disabled],
        ..Notifications::default()
    };
    let selection = select(&config, DeliveryEvent::Success);
    assert_eq!((selection.targets, selection.skipped, selection.threads), (vec![1], 2, 1));
    let selection = select(&config, DeliveryEvent::Test);
    assert_eq!((selection.targets, selection.skipped, selection.threads), (vec![0, 1], 1, 2));
    config.enabled = false;
    let selection = select(&config, DeliveryEvent::Failure);
    assert_eq!((selection.targets, selection.skipped, selection.threads), (vec![], 3, 1));
}

#[test]
fn a_url_comes_from_the_configuration_the_process_or_the_file() {
    let mut file = NameMap::new();
    file.insert("HOOK".to_owned(), "https://file.invalid/".to_owned());
    let found = |hook: &WebhookConfig, variable: Option<&str>| {
        resolve_url(hook, variable.map(str::to_owned), &file).map_err(|e| e.message().to_owned())
    };
    assert_eq!(found(&webhook(WebhookKind::Slack), None).unwrap(), "https://example.invalid/hook");
    assert_eq!(found(&through("HOOK"), None).unwrap(), "https://file.invalid/");
    assert_eq!(found(&through("HOOK"), Some("https://process.invalid/")).unwrap(), "https://process.invalid/");
    assert_eq!(found(&through("OTHER"), None).unwrap_err(), "environment variable OTHER is not set");
    assert_eq!(
        found(&through("HOOK"), Some("discord://x")).unwrap_err(),
        "notification webhook \"test\": webhook URL must use HTTPS"
    );
    let nowhere = WebhookConfig {
        url: None,
        ..webhook(WebhookKind::Slack)
    };
    assert_eq!(found(&nowhere, None).unwrap_err(), "no URL source is configured");
}

#[test]
fn urls_are_judged_by_their_parts() {
    let fault = |url: &str| validate_webhook_url(url, "hook").err().map(|e| e.message().to_owned());
    assert_eq!(fault("https://example.invalid/a?b"), None);
    assert_eq!(fault("http://example.invalid/").unwrap(), "hook: webhook URL must use HTTPS");
    assert_eq!(fault("/path").unwrap(), "hook: webhook URL must include a scheme");
    assert_eq!(fault("not a url").unwrap(), "hook: invalid webhook URL");
    let parts = Some((Some("https".to_owned()), false));
    assert_eq!(
        validate_uri_parts(parts, "hook").unwrap_err().message(),
        "hook: webhook URL must include a host"
    );
}

#[test]
fn portable_names_are_letters_digits_and_underscores() {
    for (name, portable) in [("A", true), ("_a9", true), ("9a", false), ("", false), ("A-B", false), ("É", false)] {
        assert_eq!(is_portable_environment_name(name), portable, "{name:?}");
    }
}

#[test]
fn the_host_name_is_configured_or_detected() {
    let config = |hostname: Option<&str>| Notifications {
        hostname: hostname.map(str::to_owned),
        ..Notifications::default()
    };
    let text = |value: &str| Some(value.to_owned());
    assert_eq!(hostname(&config(Some(" box ")), text("a"), text("b")), "box");
    assert_eq!(hostname(&config(None), text(" a x"), text("b")), "a");
    assert_eq!(hostname(&config(None), text("  "), text("b\n")), "b");
    assert_eq!(hostname(&config(None), None, text(" \n")), "unknown-host");
    assert_eq!(hostname(&config(None), None, None), "unknown-host");
}

#[test]
fn the_environment_file_lies_beside_the_configuration() {
    assert_eq!(environment_file_for_config("/etc/zsnap/zsnap.toml"), "/etc/zsnap/webhooks.env");
    assert_eq!(environment_file_for_config("zsnap.toml"), "webhooks.env");
    assert_eq!(environment_file_for_config("/a"), "/webhooks.env");
}

#[test]
fn assignments_may_be_quoted() {
    let pair = |name: &str, value: &str| Some((name.to_owned(), value.to_owned()));
    assert_eq!(parse_assignment("A='x y'"), pair("A", "x y"));
    assert_eq!(parse_assignment(" A = \"x=y\" "), pair("A", "x=y"));
    assert_eq!(parse_assignment("A=x"), pair("A", "x"));
    assert_eq!(parse_assignment("A='"), pair("A", "'"));
    assert_eq!(parse_assignment("# A=x"), None);
    assert_eq!(parse_assignment("A"), None);
    assert_eq!(parse_assignment("A-B=x"), None);
    let values = parse_environment("# hooks\nA=1\n\nB='2'\nA=3\n");
    assert_eq!(values.get("A").unwrap(), "3");
    assert_eq!(values.get("B").unwrap(), "2");
    assert_eq!(values.len(), 2);
}

// ---------------------------------------------------------------------------
// Attempts
// ---------------------------------------------------------------------------

#[test]
fn only_transient_failures_are_retried() {
    let text = || "x".to_owned();
    for (failure, retryable) in [
        (SendFailure::Status(408), true),
        (SendFailure::Status(425), true),
        (SendFailure::Status(429), true),
        (SendFailure::Status(500), true),
        (SendFailure::Status(599), true),
        (SendFailure::Status(404), false),
        (SendFailure::Status(600), false),
        (SendFailure::Timeout, true),
        (SendFailure::HostNotFound, true),
        (SendFailure::RequireHttpsOnly, false),
        (SendFailure::Tls, false),
        (SendFailure::BadUri(text()), false),
        (SendFailure::Http(text()), false),
        (SendFailure::RedirectFailed(text()), false),
        (SendFailure::TooManyRedirects(text()), false),
        (SendFailure::Other(text()), true),
    ] {
        assert_eq!(failure.is_retryable(), retryable, "{}", failure.describe("u"));
    }
}

#[test]
fn failures_are_described_without_the_url() {
    let url = "https://example.invalid/secret";
    for (failure, words) in [
        (SendFailure::Status(503), "remote endpoint returned HTTP 503"),
        (SendFailure::Timeout, "request timed out"),
        (SendFailure::HostNotFound, "webhook host could not be resolved"),
        (SendFailure::RequireHttpsOnly, "a non-HTTPS URL or redirect was refused"),
        (SendFailure::Tls, "TLS connection or certificate validation failed"),
        (SendFailure::Other(format!("at {url}: {url}!")), "at [redacted-url]: [redacted-url]!"),
    ] {
        assert_eq!(failure.describe(url), words);
        assert!(!failure.describe(url).contains(url));
    }
}

#[test]
fn the_pause_doubles_up_to_half_a_minute() {
    assert_eq!(retry_delay(500, 1), 500);
    assert_eq!(retry_delay(500, 2), 1_000);
    assert_eq!(retry_delay(500, 6), 16_000);
    assert_eq!(retry_delay(500, 7), 30_000);
    assert_eq!(retry_delay(1, 11), 1_024);
    assert_eq!(retry_delay(1, 4_000_000_000), 1_024);
    assert_eq!(retry_delay(u64::MAX, 11), 30_000);
    assert_eq!(retry_delay(0, 3), 0);
}

fn courier(url: Result<String, Error>) -> Courier {
    let config = Notifications {
        max_attempts: 3,
        retry_backoff_milliseconds: 10,
        ..Notifications::default()
    };
    Courier::new(&config, &webhook(WebhookKind::Slack), "m", url)
}

#[test]
fn a_delivery_gives_up_after_its_attempts() {
    let mut courier = courier(Ok("https://a".to_owned()));
    assert_eq!(courier.body, r#"{"text":"m"}"#);
    assert_eq!(courier.complete(Err(SendFailure::Timeout)), Some(10));
    assert_eq!(courier.complete(Err(SendFailure::Status(500))), Some(20));
    assert_eq!(courier.complete(Err(SendFailure::Timeout)), None);
    assert!(!courier.pending);
    assert_eq!(courier.delivery.attempts, 3);
    assert_eq!(courier.delivery.error.as_deref(), Some("request timed out"));
    assert_eq!(courier.delivery.kind, "slack");
    assert_eq!(courier.delivery.target, "test");
}

#[test]
fn a_message_delivered_on_a_retry_did_not_fail() {
    let mut courier = courier(Ok("https://a".to_owned()));
    assert_eq!(courier.complete(Err(SendFailure::Status(503))), Some(10));
    assert_eq!(courier.delivery.error.as_deref(), Some("remote endpoint returned HTTP 503"));
    assert_eq!(courier.complete(Ok(())), None);
    assert!(!courier.pending);
    assert_eq!(courier.delivery.attempts, 2);
    assert_eq!(courier.delivery.error, None);
    let report = NotificationReport::new(vec![courier.delivery], 0);
    assert_eq!((report.attempted, report.delivered, report.failed()), (1, 1, 0));
    assert!(report.succeeded());
}

#[test]
fn a_delivery_gives_up_on_a_lasting_failure() {
    let mut courier = courier(Ok("https://a".to_owned()));
    assert_eq!(courier.complete(Err(SendFailure::Status(404))), None);
    assert_eq!(courier.delivery.attempts, 1);
    assert_eq!(courier.delivery.error.as_deref(), Some("remote endpoint returned HTTP 404"));
}

#[test]
fn a_delivery_without_a_url_is_never_attempted() {
    let courier = courier(Err(Error::new("nowhere".to_owned())));
    assert!(!courier.pending);
    assert_eq!(courier.delivery.attempts, 0);
    assert_eq!(courier.delivery.error.as_deref(), Some("nowhere"));
}

#[test]
fn reports_are_sorted_and_counted() {
    let delivery = |target: &str, error: Option<&str>| NotificationDelivery {
        target: target.to_owned(),
        kind: "slack".to_owned(),
        attempts: 1,
        error: error.map(str::to_owned),
    };
    let report = NotificationReport::new(vec![delivery("b", None), delivery("a", Some("x"))], 4);
    assert_eq!((report.attempted, report.delivered, report.skipped), (2, 1, 4));
    assert_eq!(report.deliveries[0].target, "a");
    assert_eq!(report.failed(), 1);
    assert!(!report.succeeded());
    let report = NotificationReport::default();
    assert!(report.succeeded());
    assert_eq!((report.attempted, report.delivered, report.skipped, report.failed()), (0, 0, 0, 0));
}

#[test]
fn a_url_with_brackets_is_hidden_too() {
    let url = "https://[::1]/hook";
    let failure = SendFailure::Other(format!("https://[{url} and {url}]"));
    assert_eq!(failure.describe(url), "https://[[redacted-url] and [redacted-url]]");
    assert!(!failure.describe(url).contains(url));
}
