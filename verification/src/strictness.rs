//! What a configuration cannot say.
use vstd::prelude::*;

use crate::config::{config_fault, first_below, nesting_fault, notifications_fault, ConfigModel, DatasetModel, NotificationsModel, Recursion};
use crate::document::TomlModel;
use crate::names::{increasing, lemma_with_name, with_name};
use crate::schema::{config_from, config_keys, dataset_from, dataset_keys, notifications_from, notifications_keys, patch_from, policy_keys, settings_from, settings_keys, webhook_from, webhook_keys};
use crate::text::has_prefix;
use crate::webhook::{url_fault, uri_parts, webhook_fault, webhooks_fault, WebhookModel};

verus! {

/// A key that a section does not know is refused, wherever it stands.
pub proof fn law_unknown_keys_are_refused(entries: Seq<(Seq<char>, TomlModel)>, i: int)
    requires
        0 <= i < entries.len(),
    ensures
        !config_keys().contains(entries[i].0) ==> config_from(TomlModel::Table(entries)) is None,
        !settings_keys().contains(entries[i].0) ==> settings_from(
            TomlModel::Table(entries),
        ) is None,
        !notifications_keys().contains(entries[i].0) ==> notifications_from(
            TomlModel::Table(entries),
        ) is None,
        !webhook_keys().contains(entries[i].0) ==> webhook_from(TomlModel::Table(entries)) is None,
        !dataset_keys().contains(entries[i].0) ==> dataset_from(TomlModel::Table(entries)) is None,
        !policy_keys().contains(entries[i].0) ==> patch_from(TomlModel::Table(entries)) is None,
{
}

proof fn lemma_nothing_below(
    datasets: Seq<(Seq<char>, DatasetModel)>,
    prefix: Seq<char>,
    from: int,
    j: int,
)
    requires
        0 <= from <= j < datasets.len(),
        first_below(datasets, prefix, from) is None,
    ensures
        !has_prefix(datasets[j].0, prefix),
    decreases j - from,
{
    if from < j {
        lemma_nothing_below(datasets, prefix, from + 1, j);
    }
}

proof fn lemma_root_is_alone(datasets: Seq<(Seq<char>, DatasetModel)>, from: int, i: int)
    requires
        0 <= from <= i < datasets.len(),
        nesting_fault(datasets, from) is None,
        datasets[i].1.recursive == Recursion::Zfs,
    ensures
        first_below(datasets, datasets[i].0 + "/"@, 0) is None,
    decreases i - from,
{
    if from < i {
        lemma_root_is_alone(datasets, from + 1, i);
    }
}

/// No section of a valid configuration lies below an atomic recursive root.
pub proof fn law_no_section_below_an_atomic_root(config: ConfigModel, root: int, other: int)
    requires
        config_fault(config) is None,
        0 <= root < config.datasets.len(),
        0 <= other < config.datasets.len(),
        config.datasets[root].1.recursive == Recursion::Zfs,
    ensures
        !has_prefix(config.datasets[other].0, config.datasets[root].0 + "/"@),
{
    lemma_root_is_alone(config.datasets, 0, root);
    lemma_nothing_below(config.datasets, config.datasets[root].0 + "/"@, 0, other);
}

proof fn lemma_webhooks(
    hooks: Seq<WebhookModel>,
    from: int,
    seen: Seq<Seq<char>>,
    i: int,
    name: Seq<char>,
)
    requires
        0 <= from <= i < hooks.len(),
        webhooks_fault(hooks, from, seen) is None,
        increasing(seen),
    ensures
        seen.contains(name) ==> hooks[i].name != name,
        forall|j: int| from <= j < i ==> (#[trigger] hooks[j]).name != hooks[i].name,
        webhook_fault(hooks[i], Seq::empty()) is None,
    decreases i - from,
{
    lemma_with_name(seen, hooks[from].name);
    if from < i {
        let more = with_name(seen, hooks[from].name);
        assert(more.contains(hooks[from].name));
        lemma_webhooks(hooks, from + 1, more, i, hooks[from].name);
        if seen.contains(name) {
            assert(more.contains(name));
            lemma_webhooks(hooks, from + 1, more, i, name);
        }
    }
}

/// The webhooks of a valid configuration have different names.
pub proof fn law_webhooks_have_different_names(
    notifications: NotificationsModel,
    i: int,
    j: int,
)
    requires
        notifications_fault(notifications) is None,
        0 <= i < j < notifications.webhooks.len(),
    ensures
        notifications.webhooks[i].name != notifications.webhooks[j].name,
{
    lemma_webhooks(notifications.webhooks, 0, Seq::empty(), j, Seq::empty());
}

/// Each webhook of a valid configuration has one source for its URL; one that
/// stands in the configuration itself uses HTTPS.
pub proof fn law_webhooks_are_secure(notifications: NotificationsModel, i: int)
    requires
        notifications_fault(notifications) is None,
        0 <= i < notifications.webhooks.len(),
    ensures
        notifications.webhooks[i].url is Some != notifications.webhooks[i].url_env is Some,
        notifications.webhooks[i].url matches Some(url) ==> uri_parts(url) == Some(
            (Some("https"@), true),
        ),
{
    lemma_webhooks(notifications.webhooks, 0, Seq::empty(), i, Seq::empty());
}

/// A webhook URL is good exactly when it has a host and uses HTTPS, and why it
/// is not does not show it: the words depend on its parts alone.
pub proof fn law_only_https_is_good(url: Seq<char>, other: Seq<char>, context: Seq<char>)
    ensures
        url_fault(url, context) is None <==> uri_parts(url) == Some((Some("https"@), true)),
        uri_parts(url) == uri_parts(other) ==> url_fault(url, context) == url_fault(
            other,
            context,
        ),
{
}

} // verus!
