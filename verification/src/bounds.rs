//! Which configurations are valid: the bounds of every value, and nothing more.
use vstd::prelude::*;

use crate::census::{is_below, lemma_below};
use crate::config::{all_safe, config_fault, dataset_fault, dataset_name_fault, datasets_fault, first_below, is_safe, names_file, nesting_fault, notifications_fault, parts_safe, prefix_fault, section_policy, settings_fault, templates_fault, ConfigModel, DatasetModel, NotificationsModel, Recursion, SettingsModel};
use crate::names::{increasing, lemma_with_name, with_name};
use crate::policy::{default_policy, hook_fault, patched, policy_fault, PatchModel, PolicyModel};
use crate::text::{has_prefix, has_suffix, lemma_position, position, split, trim};
use crate::webhook::{uri_parts, webhook_fault, webhooks_fault, WebhookModel};

verus! {

// ---------------------------------------------------------------------------
// Policies
// ---------------------------------------------------------------------------

/// A command that can be run: there is none, or its program has a name and no
/// part holds a NUL byte.
pub open spec fn can_be_run(command: Seq<Seq<char>>) -> bool {
    command.len() == 0 || (trim(command[0]).len() > 0 && forall|i: int|
        0 <= i < command.len() ==> !(#[trigger] command[i]).contains('\0'))
}

/// A policy whose schedule a calendar can show and whose hooks can be run.
pub open spec fn is_in_bounds(policy: PolicyModel) -> bool {
    &&& exists|times: int| #[trigger] (policy.frequent_period * times) == 60
    &&& policy.hourly_min < 60
    &&& policy.daily_hour < 24 && policy.daily_min < 60
    &&& 0 < policy.weekly_wday < 8 && policy.weekly_hour < 24 && policy.weekly_min < 60
    &&& 0 < policy.monthly_mday < 29 && policy.monthly_hour < 24 && policy.monthly_min < 60
    &&& 0 < policy.yearly_mon < 13 && 0 < policy.yearly_mday < 32
    &&& policy.yearly_hour < 24 && policy.yearly_min < 60
    &&& policy.prune_defer < 101
    &&& can_be_run(policy.pre_snapshot_script)
    &&& can_be_run(policy.post_snapshot_script)
    &&& can_be_run(policy.pre_pruning_script)
    &&& can_be_run(policy.pruning_script)
}

proof fn lemma_hook(command: Seq<Seq<char>>, context: Seq<char>, field: Seq<char>)
    ensures
        hook_fault(command, context, field) is None <==> can_be_run(command),
{
}

proof fn lemma_divides(period: u32)
    ensures
        (1 <= period <= 60 && 60u32 % period == 0) <==> exists|times: int| #[trigger]
            (period * times) == 60,
{
    let p = period as int;
    if 1 <= p <= 60 && 60u32 % period == 0 {
        let times = 60int / p;
        assert(p * times == 60) by (nonlinear_arith)
            requires
                p > 0,
                60int % p == 0,
                times == 60int / p,
        ;
        assert((period * times) == 60);
    }
    if exists|times: int| #[trigger] (period * times) == 60 {
        let times = choose|times: int| #[trigger] (period * times) == 60;
        assert(1 <= p <= 60 && 60int % p == 0) by (nonlinear_arith)
            requires
                p >= 0,
                p * times == 60,
        {
            if p == 0 {
                assert(0 * times == 0);
            }
            assert(times > 0);
            if p > 60 {
                assert(p * times > 60);
            }
            assert(60int == times * p + 0);
            vstd::arithmetic::div_mod::lemma_fundamental_div_mod_converse(60, p, times, 0);
        }
    }
}

/// A policy is valid exactly when every value is in its bounds: the frequent
/// period divides the hour, times are times of a day, days are days of their week,
/// of every month or of a year, and hooks can be run.
pub proof fn law_valid_policies_are_in_bounds(policy: PolicyModel, context: Seq<char>)
    ensures
        policy_fault(policy, context) is None <==> is_in_bounds(policy),
{
    lemma_divides(policy.frequent_period);
    lemma_hook(policy.pre_snapshot_script, context, "pre_snapshot_script"@);
    lemma_hook(policy.post_snapshot_script, context, "post_snapshot_script"@);
    lemma_hook(policy.pre_pruning_script, context, "pre_pruning_script"@);
    lemma_hook(policy.pruning_script, context, "pruning_script"@);
}

// ---------------------------------------------------------------------------
// Settings
// ---------------------------------------------------------------------------

/// Settings are valid exactly when both batch sizes are in their bounds, neither
/// the lock file nor a command is blank, and the lock file is a file.
pub proof fn law_valid_settings_are_in_bounds(settings: SettingsModel)
    ensures
        settings_fault(settings) is None <==> {
            &&& 0 < settings.snapshot_batch_size < 257
            &&& 0 < settings.prune_batch_size < 129
            &&& trim(settings.lock_file).len() > 0
            &&& trim(settings.zfs_command).len() > 0
            &&& trim(settings.zpool_command).len() > 0
            &&& names_file(settings.lock_file)
        },
{
}

/// The letters, digits and marks of names.
pub open spec fn is_plain(c: char) -> bool {
    ||| 'a' <= c <= 'z'
    ||| 'A' <= c <= 'Z'
    ||| '0' <= c <= '9'
    ||| seq!['.', '-', '_', ':'].contains(c)
}

pub proof fn lemma_plain(c: char)
    ensures
        is_plain(c) <==> is_safe(c),
{
    let marks = seq!['.', '-', '_', ':'];
    assert(marks[0] == '.' && marks[1] == '-' && marks[2] == '_' && marks[3] == ':');
    if marks.contains(c) {
        let i = marks.index_of(c);
        assert(marks[i] == c);
    }
}

/// A prefix is valid exactly when it has a character and all of them are letters,
/// digits, dots, dashes, underscores or colons.
pub proof fn law_valid_prefixes_are_plain(prefix: Seq<char>)
    ensures
        prefix_fault(prefix) is None <==> prefix.len() > 0 && forall|i: int|
            0 <= i < prefix.len() ==> is_plain(#[trigger] prefix[i]),
{
    assert forall|c: char| #[trigger] is_plain(c) <==> is_safe(c) by {
        lemma_plain(c);
    }
}

/// A dataset name: plain characters, with single slashes between them.
pub open spec fn is_dataset_name(name: Seq<char>) -> bool {
    &&& name.len() > 0
    &&& name[0] != '/'
    &&& name.last() != '/'
    &&& forall|i: int| 0 <= i < name.len() ==> name[i] == '/' || is_plain(#[trigger] name[i])
    &&& forall|i: int| 0 <= i < name.len() - 1 && #[trigger] name[i] == '/' ==> name[i + 1] != '/'
}

proof fn lemma_parts(name: Seq<char>)
    ensures
        parts_safe(split(name, '/')) <==> is_dataset_name(name),
    decreases name.len(),
{
    lemma_position(name, '/');
    let p = position(name, '/');
    let parts = split(name, '/');
    assert forall|c: char| #[trigger] is_plain(c) <==> is_safe(c) by {
        lemma_plain(c);
    }
    if p < name.len() {
        let first = name.take(p);
        let rest = name.skip(p + 1);
        lemma_parts(rest);
        let others = split(rest, '/');
        assert(parts[0] == first);
        assert(parts.drop_first() =~= others);
        assert(parts_safe(parts) <==> first.len() > 0 && all_safe(first) && parts_safe(others))
            by {
            if parts_safe(parts) {
                assert forall|i: int| 0 <= i < others.len() implies (#[trigger] others[i]).len()
                    > 0 && all_safe(others[i]) by {
                    assert(parts[i + 1] == others[i]);
                }
                assert(parts[0].len() > 0 && all_safe(parts[0]));
            }
            if first.len() > 0 && all_safe(first) && parts_safe(others) {
                assert forall|i: int| 0 <= i < parts.len() implies (#[trigger] parts[i]).len() > 0
                    && all_safe(parts[i]) by {
                    if i > 0 {
                        assert(parts[i] == others[i - 1]);
                    }
                }
            }
        }
        if is_dataset_name(name) {
            assert(p > 0);
            assert(name[p] == '/');
            assert forall|i: int| 0 <= i < first.len() implies is_safe(#[trigger] first[i]) by {
                assert(first[i] == name[i]);
                assert(is_plain(name[i]));
            }
            assert(p < name.len() - 1);
            assert(rest[0] == name[p + 1]);
            assert forall|i: int| 0 <= i < rest.len() implies rest[i] == '/' || is_plain(
                #[trigger] rest[i],
            ) by {
                assert(rest[i] == name[p + 1 + i]);
            }
            assert forall|i: int| 0 <= i < rest.len() - 1 && #[trigger] rest[i] == '/' implies rest[i
                + 1] != '/' by {
                assert(rest[i] == name[p + 1 + i]);
                assert(rest[i + 1] == name[p + 1 + i + 1]);
            }
            assert(is_dataset_name(rest));
        }
        if first.len() > 0 && all_safe(first) && is_dataset_name(rest) {
            assert forall|i: int| 0 <= i < name.len() implies name[i] == '/' || is_plain(
                #[trigger] name[i],
            ) by {
                if i < p {
                    assert(first[i] == name[i]);
                } else if i > p {
                    assert(rest[i - p - 1] == name[i]);
                }
            }
            assert forall|i: int| 0 <= i < name.len() - 1 && #[trigger] name[i] == '/' implies name[i
                + 1] != '/' by {
                if i == p {
                    assert(rest[0] == name[p + 1]);
                } else if i > p {
                    assert(rest[i - p - 1] == name[i]);
                    assert(rest[i - p] == name[i + 1]);
                }
            }
            assert(name.last() == rest.last());
            assert(is_dataset_name(name));
        }
    } else {
        assert(parts =~= seq![name]);
        assert(parts[0] == name);
        if parts_safe(parts) {
            assert(parts[0].len() > 0 && all_safe(parts[0]));
            assert(name[0] != '/' && name.last() != '/');
            assert(is_dataset_name(name));
        }
        if is_dataset_name(name) {
            assert forall|i: int| 0 <= i < name.len() implies is_safe(#[trigger] name[i]) by {
                assert(is_plain(name[i]));
            }
        }
    }
}

/// A name can be configured exactly when it is one of a dataset.
pub proof fn law_valid_names_are_of_datasets(name: Seq<char>)
    ensures
        dataset_name_fault(name) is None <==> is_dataset_name(name),
{
    reveal_strlit("/");
    lemma_parts(name);
    if name.len() > 0 {
        assert(has_prefix(name, "/"@) <==> name[0] == '/') by {
            assert("/"@.len() == 1 && "/"@[0] == '/');
            if name[0] == '/' {
                assert(name.take(1) =~= "/"@);
            }
            if has_prefix(name, "/"@) {
                assert(name.take(1)[0] == '/');
            }
        }
        assert(has_suffix(name, "/"@) <==> name.last() == '/') by {
            assert("/"@.len() == 1 && "/"@[0] == '/');
            let end = name.skip(name.len() - 1);
            assert(end.len() == 1 && end[0] == name.last());
            if name.last() == '/' {
                assert(end =~= "/"@);
            }
        }
    }
}

// ---------------------------------------------------------------------------
// Notifications
// ---------------------------------------------------------------------------

/// A text without line breaks and NUL bytes.
pub open spec fn is_one_line(text: Seq<char>) -> bool {
    !text.contains('\n') && !text.contains('\r') && !text.contains('\0')
}

/// A webhook that can be used: it has a name, one source for its URL, which is
/// secure, and events, each once.
pub open spec fn is_usable(hook: WebhookModel) -> bool {
    &&& trim(hook.name).len() > 0
    &&& is_one_line(hook.name)
    &&& hook.url is Some || hook.url_env is Some
    &&& hook.url is None || hook.url_env is None
    &&& hook.events.len() > 0
    &&& forall|i: int, j: int|
        0 <= i < j < hook.events.len() ==> #[trigger] hook.events[i] != #[trigger] hook.events[j]
    &&& hook.url matches Some(url) ==> uri_parts(url) == Some((Some("https"@), true))
    &&& hook.url_env matches Some(variable) ==> crate::webhook::is_portable(variable)
}

proof fn lemma_hook_usable(hook: WebhookModel, seen: Seq<Seq<char>>)
    ensures
        webhook_fault(hook, seen) is None <==> is_usable(hook) && !seen.contains(hook.name),
{
}

spec fn all_usable(hooks: Seq<WebhookModel>, from: int, seen: Seq<Seq<char>>) -> bool {
    &&& forall|i: int|
        from <= i < hooks.len() ==> is_usable(#[trigger] hooks[i]) && !seen.contains(hooks[i].name)
    &&& forall|i: int, j: int|
        from <= i < j < hooks.len() ==> (#[trigger] hooks[i]).name != (#[trigger] hooks[j]).name
}

proof fn lemma_hooks_usable(hooks: Seq<WebhookModel>, from: int, seen: Seq<Seq<char>>)
    requires
        0 <= from <= hooks.len(),
        increasing(seen),
    ensures
        webhooks_fault(hooks, from, seen) is None <==> all_usable(hooks, from, seen),
    decreases hooks.len() - from,
{
    if from < hooks.len() {
        let more = with_name(seen, hooks[from].name);
        lemma_with_name(seen, hooks[from].name);
        lemma_hook_usable(hooks[from], seen);
        lemma_hooks_usable(hooks, from + 1, more);
        if all_usable(hooks, from, seen) {
            assert(is_usable(hooks[from]));
            assert forall|i: int| from + 1 <= i < hooks.len() implies is_usable(
                #[trigger] hooks[i],
            ) && !more.contains(hooks[i].name) by {
                assert(hooks[from].name != hooks[i].name);
            }
        }
        if webhook_fault(hooks[from], seen) is None && all_usable(hooks, from + 1, more) {
            assert forall|i: int| from <= i < hooks.len() implies is_usable(#[trigger] hooks[i])
                && !seen.contains(hooks[i].name) by {
                if i > from {
                    assert(!more.contains(hooks[i].name));
                }
            }
            assert forall|i: int, j: int| from <= i < j < hooks.len() implies (
            #[trigger] hooks[i]).name != (#[trigger] hooks[j]).name by {
                if i == from {
                    assert(!more.contains(hooks[j].name));
                    assert(more.contains(hooks[from].name));
                }
            }
        }
    }
}

/// Notifications are valid exactly when every number is in its bounds, a given
/// host name is one line with something on it, and every webhook can be used and
/// has a name of its own.
pub proof fn law_valid_notifications_are_in_bounds(notifications: NotificationsModel)
    ensures
        notifications_fault(notifications) is None <==> {
            let hooks = notifications.webhooks;
            &&& 0 < notifications.max_parallel
            &&& 0 < notifications.timeout_seconds < 61
            &&& 0 < notifications.max_attempts < 6
            &&& notifications.retry_backoff_milliseconds < 10_001
            &&& notifications.hostname matches Some(name) ==> trim(name).len() > 0 && is_one_line(
                name,
            )
            &&& forall|i: int| 0 <= i < hooks.len() ==> is_usable(#[trigger] hooks[i])
            &&& forall|i: int, j: int|
                0 <= i < j < hooks.len() ==> (#[trigger] hooks[i]).name != (
                #[trigger] hooks[j]).name
        },
{
    let hooks = notifications.webhooks;
    lemma_hooks_usable(hooks, 0, Seq::empty());
    assert(all_usable(hooks, 0, Seq::empty()) <==> {
        &&& forall|i: int| 0 <= i < hooks.len() ==> is_usable(#[trigger] hooks[i])
        &&& forall|i: int, j: int|
            0 <= i < j < hooks.len() ==> (#[trigger] hooks[i]).name != (#[trigger] hooks[j]).name
    });
}

// ---------------------------------------------------------------------------
// Sections
// ---------------------------------------------------------------------------

/// A section that can be used: its name is one of a dataset, it processes
/// children only where it reaches them one by one, it names templates that
/// exist, and its policy is in bounds.
pub open spec fn is_good_section(
    templates: Seq<(Seq<char>, PatchModel)>,
    name: Seq<char>,
    section: DatasetModel,
) -> bool {
    &&& is_dataset_name(name)
    &&& section.process_children_only ==> section.recursive == Recursion::Children
    &&& section_policy(templates, section, default_policy()) is Ok
    &&& is_in_bounds(section_policy(templates, section, default_policy())->Ok_0)
}

proof fn lemma_section(
    templates: Seq<(Seq<char>, PatchModel)>,
    name: Seq<char>,
    section: DatasetModel,
)
    ensures
        dataset_fault(templates, name, section) is None <==> is_good_section(
            templates,
            name,
            section,
        ),
{
    law_valid_names_are_of_datasets(name);
    let context = "dataset "@ + crate::text::debug_text(name);
    let policy = section_policy(templates, section, default_policy());
    if policy is Ok {
        law_valid_policies_are_in_bounds(policy->Ok_0, context);
    }
}

proof fn lemma_sections(
    templates: Seq<(Seq<char>, PatchModel)>,
    datasets: Seq<(Seq<char>, DatasetModel)>,
    from: int,
)
    requires
        0 <= from <= datasets.len(),
    ensures
        datasets_fault(templates, datasets, from) is None <==> forall|i: int|
            from <= i < datasets.len() ==> is_good_section(
                templates,
                (#[trigger] datasets[i]).0,
                datasets[i].1,
            ),
    decreases datasets.len() - from,
{
    if from < datasets.len() {
        lemma_section(templates, datasets[from].0, datasets[from].1);
        lemma_sections(templates, datasets, from + 1);
    }
}

proof fn lemma_templates(templates: Seq<(Seq<char>, PatchModel)>, from: int)
    requires
        0 <= from <= templates.len(),
    ensures
        templates_fault(templates, from) is None <==> forall|i: int|
            from <= i < templates.len() ==> trim((#[trigger] templates[i]).0).len() > 0
                && is_in_bounds(patched(default_policy(), templates[i].1)),
    decreases templates.len() - from,
{
    if from < templates.len() {
        law_valid_policies_are_in_bounds(
            patched(default_policy(), templates[from].1),
            "template "@ + crate::text::debug_text(templates[from].0),
        );
        lemma_templates(templates, from + 1);
    }
}

proof fn lemma_first_below(
    datasets: Seq<(Seq<char>, DatasetModel)>,
    root: Seq<char>,
    from: int,
)
    requires
        0 <= from <= datasets.len(),
    ensures
        first_below(datasets, root + "/"@, from) is None <==> forall|j: int|
            from <= j < datasets.len() ==> !is_below((#[trigger] datasets[j]).0, root),
    decreases datasets.len() - from,
{
    if from < datasets.len() {
        lemma_below(datasets[from].0, root);
        lemma_first_below(datasets, root, from + 1);
    }
}

/// Whether a section stands below a root that takes its snapshots at once.
pub open spec fn is_torn(
    datasets: Seq<(Seq<char>, DatasetModel)>,
    i: int,
    j: int,
) -> bool {
    datasets[i].1.recursive == Recursion::Zfs && is_below(datasets[j].0, datasets[i].0)
}

proof fn lemma_nesting(datasets: Seq<(Seq<char>, DatasetModel)>, from: int)
    requires
        0 <= from <= datasets.len(),
    ensures
        nesting_fault(datasets, from) is None <==> forall|i: int, j: int|
            from <= i < datasets.len() && 0 <= j < datasets.len() ==> !#[trigger] is_torn(
                datasets,
                i,
                j,
            ),
    decreases datasets.len() - from,
{
    if from < datasets.len() {
        lemma_first_below(datasets, datasets[from].0, 0);
        lemma_nesting(datasets, from + 1);
        if forall|i: int, j: int|
            from <= i < datasets.len() && 0 <= j < datasets.len() ==> !#[trigger] is_torn(
                datasets,
                i,
                j,
            ) {
            if datasets[from].1.recursive == Recursion::Zfs {
                assert forall|j: int| 0 <= j < datasets.len() implies !is_below(
                    (#[trigger] datasets[j]).0,
                    datasets[from].0,
                ) by {
                    assert(!is_torn(datasets, from, j));
                }
            }
        }
    }
}

/// A configuration is valid exactly when it has the one version there is, at
/// least one section, and settings, a prefix, notifications, templates and
/// sections that are valid, with no section below a root that takes its
/// snapshots at once.
pub proof fn law_valid_configurations(config: ConfigModel)
    ensures
        config_fault(config) is None <==> {
            let datasets = config.datasets;
            let templates = config.templates;
            &&& config.version == 1
            &&& datasets.len() > 0
            &&& settings_fault(config.settings) is None
            &&& prefix_fault(config.settings.snapshot_prefix) is None
            &&& notifications_fault(config.notifications) is None
            &&& forall|i: int|
                0 <= i < templates.len() ==> trim((#[trigger] templates[i]).0).len() > 0
                    && is_in_bounds(patched(default_policy(), templates[i].1))
            &&& forall|i: int|
                0 <= i < datasets.len() ==> is_good_section(
                    templates,
                    (#[trigger] datasets[i]).0,
                    datasets[i].1,
                )
            &&& forall|i: int, j: int|
                0 <= i < datasets.len() && 0 <= j < datasets.len() ==> !#[trigger] is_torn(
                    datasets,
                    i,
                    j,
                )
        },
{
    lemma_templates(config.templates, 0);
    lemma_sections(config.templates, config.datasets, 0);
    lemma_nesting(config.datasets, 0);
}

} // verus!
