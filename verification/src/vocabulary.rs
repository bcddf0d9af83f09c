//! What the words of a configuration mean: which key sets which value.
use vstd::prelude::*;

use crate::config::{default_notifications, default_settings, ConfigModel, DatasetModel, NotificationsModel, Recursion, ScheduleTimezone, SettingsModel, WebhookEvent, WebhookKind};
use crate::document::{find, TomlModel};
use crate::names::{increasing, lemma_put, lookup, names_of, put};
use crate::policy::{empty_patch, PatchModel};
use crate::schema::{choice_from, config_from, config_keys, dataset_from, datasets_from, item_events, item_texts, item_webhooks, notifications_from, notifications_keys, patch_from, policy_keys, record, settings_from, settings_keys, templates_from, text_from, texts_in, webhook_from, webhook_keys};
use crate::webhook::WebhookModel;

verus! {

// ---------------------------------------------------------------------------
// Values
// ---------------------------------------------------------------------------

/// What a table says under a key decides a truth value; nothing decides nothing.
pub open spec fn sets_flag(
    entries: Seq<(Seq<char>, TomlModel)>,
    key: Seq<char>,
    value: Option<bool>,
) -> bool {
    match find(entries, key) {
        None => value is None,
        Some(given) => given is Boolean && value == Some(given->Boolean_0),
    }
}

/// What a table says under a key decides a number between zero and a maximum.
pub open spec fn sets_number(
    entries: Seq<(Seq<char>, TomlModel)>,
    key: Seq<char>,
    max: int,
    value: Option<int>,
) -> bool {
    match find(entries, key) {
        None => value is None,
        Some(given) => given is Integer && 0 <= given->Integer_0 <= max && value == Some(
            given->Integer_0 as int,
        ),
    }
}

/// What a table says under a key decides a text.
pub open spec fn sets_text(
    entries: Seq<(Seq<char>, TomlModel)>,
    key: Seq<char>,
    value: Option<Seq<char>>,
) -> bool {
    match find(entries, key) {
        None => value is None,
        Some(given) => {
            &&& given is Text || given is Datetime
            &&& given is Text ==> value == Some(given->Text_0)
            &&& given is Datetime ==> value == Some(given->Datetime_0)
        },
    }
}

/// Whether a list holds the texts of some items, in order.
pub open spec fn are_texts(items: Seq<TomlModel>, list: Seq<Seq<char>>) -> bool {
    &&& items.len() == list.len()
    &&& forall|i: int|
        0 <= i < items.len() ==> {
            ||| #[trigger] items[i] is Text && items[i]->Text_0 == list[i]
            ||| items[i] is Datetime && items[i]->Datetime_0 == list[i]
        }
}

/// What a table says under a key decides a list of texts.
pub open spec fn sets_texts(
    entries: Seq<(Seq<char>, TomlModel)>,
    key: Seq<char>,
    value: Option<Seq<Seq<char>>>,
) -> bool {
    match find(entries, key) {
        None => value is None,
        Some(given) => given is Array && value is Some && are_texts(given->Array_0, value->0),
    }
}

pub open spec fn whole_8(number: Option<u8>) -> Option<int> {
    match number {
        Some(number) => Some(number as int),
        None => None,
    }
}

pub open spec fn whole_32(number: Option<u32>) -> Option<int> {
    match number {
        Some(number) => Some(number as int),
        None => None,
    }
}

pub open spec fn whole_64(number: Option<u64>) -> Option<int> {
    match number {
        Some(number) => Some(number as int),
        None => None,
    }
}

proof fn lemma_item_texts(items: Seq<TomlModel>, i: int, done: Seq<Seq<char>>)
    requires
        0 <= i <= items.len(),
        are_texts(items.take(i), done),
    ensures
        item_texts(items, i, done) matches Some(list) ==> are_texts(items, list),
    decreases items.len() - i,
{
    if i < items.len() {
        if let Some(text) = text_from(items[i]) {
            let more = done.push(text);
            assert(items.take(i + 1) =~= items.take(i).push(items[i]));
            assert forall|k: int| 0 <= k < i + 1 implies {
                ||| #[trigger] items.take(i + 1)[k] is Text && items.take(i + 1)[k]->Text_0
                    == more[k]
                ||| items.take(i + 1)[k] is Datetime && items.take(i + 1)[k]->Datetime_0 == more[k]
            } by {
                if k < i {
                    assert(items.take(i)[k] == items[k]);
                }
            }
            lemma_item_texts(items, i + 1, more);
        }
    } else {
        assert(items.take(i) =~= items);
    }
}

proof fn lemma_texts(field: Option<TomlModel>)
    ensures
        texts_in(field) matches Some(value) ==> match field {
            None => value is None,
            Some(given) => given is Array && value is Some && are_texts(given->Array_0, value->0),
        },
{
    if let Some(TomlModel::Array(items)) = field {
        assert(items.take(0) =~= Seq::<TomlModel>::empty());
        lemma_item_texts(items, 0, Seq::empty());
    }
}

// ---------------------------------------------------------------------------
// Policies
// ---------------------------------------------------------------------------

/// Every key of a policy sets the value of that name and no other. A truth value
/// is a truth value, a number is one that fits, and a hook is a list of texts.
pub proof fn law_policy_keys_set_their_values(
    entries: Seq<(Seq<char>, TomlModel)>,
    patch: PatchModel,
)
    requires
        patch_from(TomlModel::Table(entries)) == Some(patch),
    ensures
        sets_flag(entries, "autosnap"@, patch.autosnap),
        sets_flag(entries, "autoprune"@, patch.autoprune),
        sets_number(entries, "frequently"@, u32::MAX as int, whole_32(patch.frequently)),
        sets_number(entries, "hourly"@, u32::MAX as int, whole_32(patch.hourly)),
        sets_number(entries, "daily"@, u32::MAX as int, whole_32(patch.daily)),
        sets_number(entries, "weekly"@, u32::MAX as int, whole_32(patch.weekly)),
        sets_number(entries, "monthly"@, u32::MAX as int, whole_32(patch.monthly)),
        sets_number(entries, "yearly"@, u32::MAX as int, whole_32(patch.yearly)),
        sets_number(entries, "frequent_period"@, u32::MAX as int, whole_32(patch.frequent_period)),
        sets_number(entries, "hourly_min"@, u32::MAX as int, whole_32(patch.hourly_min)),
        sets_number(entries, "daily_hour"@, u32::MAX as int, whole_32(patch.daily_hour)),
        sets_number(entries, "daily_min"@, u32::MAX as int, whole_32(patch.daily_min)),
        sets_number(entries, "weekly_wday"@, u32::MAX as int, whole_32(patch.weekly_wday)),
        sets_number(entries, "weekly_hour"@, u32::MAX as int, whole_32(patch.weekly_hour)),
        sets_number(entries, "weekly_min"@, u32::MAX as int, whole_32(patch.weekly_min)),
        sets_number(entries, "monthly_mday"@, u32::MAX as int, whole_32(patch.monthly_mday)),
        sets_number(entries, "monthly_hour"@, u32::MAX as int, whole_32(patch.monthly_hour)),
        sets_number(entries, "monthly_min"@, u32::MAX as int, whole_32(patch.monthly_min)),
        sets_number(entries, "yearly_mon"@, u32::MAX as int, whole_32(patch.yearly_mon)),
        sets_number(entries, "yearly_mday"@, u32::MAX as int, whole_32(patch.yearly_mday)),
        sets_number(entries, "yearly_hour"@, u32::MAX as int, whole_32(patch.yearly_hour)),
        sets_number(entries, "yearly_min"@, u32::MAX as int, whole_32(patch.yearly_min)),
        sets_number(entries, "prune_defer"@, u8::MAX as int, whole_8(patch.prune_defer)),
        sets_texts(entries, "pre_snapshot_script"@, patch.pre_snapshot_script),
        sets_texts(entries, "post_snapshot_script"@, patch.post_snapshot_script),
        sets_texts(entries, "pre_pruning_script"@, patch.pre_pruning_script),
        sets_texts(entries, "pruning_script"@, patch.pruning_script),
        sets_number(entries, "script_timeout"@, u64::MAX as int, whole_64(patch.script_timeout)),
        sets_flag(entries, "no_inconsistent_snapshot"@, patch.no_inconsistent_snapshot),
        sets_flag(entries, "force_post_snapshot_script"@, patch.force_post_snapshot_script),
{
    let fields = record(TomlModel::Table(entries), policy_keys())->0;
    assert(fields[0] == find(entries, "autosnap"@));
    assert(fields[1] == find(entries, "autoprune"@));
    assert(fields[2] == find(entries, "frequently"@));
    assert(fields[3] == find(entries, "hourly"@));
    assert(fields[4] == find(entries, "daily"@));
    assert(fields[5] == find(entries, "weekly"@));
    assert(fields[6] == find(entries, "monthly"@));
    assert(fields[7] == find(entries, "yearly"@));
    assert(fields[8] == find(entries, "frequent_period"@));
    assert(fields[9] == find(entries, "hourly_min"@));
    assert(fields[10] == find(entries, "daily_hour"@));
    assert(fields[11] == find(entries, "daily_min"@));
    assert(fields[12] == find(entries, "weekly_wday"@));
    assert(fields[13] == find(entries, "weekly_hour"@));
    assert(fields[14] == find(entries, "weekly_min"@));
    assert(fields[15] == find(entries, "monthly_mday"@));
    assert(fields[16] == find(entries, "monthly_hour"@));
    assert(fields[17] == find(entries, "monthly_min"@));
    assert(fields[18] == find(entries, "yearly_mon"@));
    assert(fields[19] == find(entries, "yearly_mday"@));
    assert(fields[20] == find(entries, "yearly_hour"@));
    assert(fields[21] == find(entries, "yearly_min"@));
    assert(fields[22] == find(entries, "prune_defer"@));
    assert(fields[23] == find(entries, "pre_snapshot_script"@));
    assert(fields[24] == find(entries, "post_snapshot_script"@));
    assert(fields[25] == find(entries, "pre_pruning_script"@));
    assert(fields[26] == find(entries, "pruning_script"@));
    assert(fields[27] == find(entries, "script_timeout"@));
    assert(fields[28] == find(entries, "no_inconsistent_snapshot"@));
    assert(fields[29] == find(entries, "force_post_snapshot_script"@));
    lemma_texts(fields[23]);
    lemma_texts(fields[24]);
    lemma_texts(fields[25]);
    lemma_texts(fields[26]);
}

// ---------------------------------------------------------------------------
// Settings
// ---------------------------------------------------------------------------

/// Every key of the settings sets the value of that name, and a missing one leaves
/// its default.
pub proof fn law_settings_keys_set_their_values(
    entries: Seq<(Seq<char>, TomlModel)>,
    settings: SettingsModel,
)
    requires
        settings_from(TomlModel::Table(entries)) == Some(settings),
    ensures
        sets_text(entries, "snapshot_prefix"@, Some(settings.snapshot_prefix)) || find(
            entries,
            "snapshot_prefix"@,
        ) is None && settings.snapshot_prefix == "autosnap"@,
        sets_text(entries, "lock_file"@, Some(settings.lock_file)) || find(
            entries,
            "lock_file"@,
        ) is None && settings.lock_file == "/run/zsnap/zsnap.lock"@,
        sets_text(entries, "cache_file"@, Some(settings.cache_file)) || find(
            entries,
            "cache_file"@,
        ) is None && settings.cache_file == "/etc/zsnap/zsnap.cache"@,
        sets_text(entries, "zfs_command"@, Some(settings.zfs_command)) || find(
            entries,
            "zfs_command"@,
        ) is None && settings.zfs_command == "zfs"@,
        sets_text(entries, "zpool_command"@, Some(settings.zpool_command)) || find(
            entries,
            "zpool_command"@,
        ) is None && settings.zpool_command == "zpool"@,
        sets_number(
            entries,
            "max_parallel_pools"@,
            usize::MAX as int,
            Some(settings.max_parallel_pools as int),
        ) || find(entries, "max_parallel_pools"@) is None && settings.max_parallel_pools == 0,
        sets_number(
            entries,
            "snapshot_batch_size"@,
            usize::MAX as int,
            Some(settings.snapshot_batch_size as int),
        ) || find(entries, "snapshot_batch_size"@) is None && settings.snapshot_batch_size == 128,
        sets_number(
            entries,
            "prune_batch_size"@,
            usize::MAX as int,
            Some(settings.prune_batch_size as int),
        ) || find(entries, "prune_batch_size"@) is None && settings.prune_batch_size == 64,
        find(entries, "timezone"@) == Some(TomlModel::Text("utc"@)) ==> settings.timezone
            == ScheduleTimezone::Utc,
        find(entries, "timezone"@) == Some(TomlModel::Text("local"@)) ==> settings.timezone
            == ScheduleTimezone::Local,
        find(entries, "timezone"@) == Some(TomlModel::Text("host"@)) ==> settings.timezone
            == ScheduleTimezone::Local,
        find(entries, "timezone"@) is None ==> settings.timezone == ScheduleTimezone::Local,
{
    let fields = record(TomlModel::Table(entries), settings_keys())->0;
    assert(fields[0] == find(entries, "snapshot_prefix"@));
    assert(fields[1] == find(entries, "timezone"@));
    assert(fields[2] == find(entries, "max_parallel_pools"@));
    assert(fields[3] == find(entries, "snapshot_batch_size"@));
    assert(fields[4] == find(entries, "prune_batch_size"@));
    assert(fields[5] == find(entries, "lock_file"@));
    assert(fields[6] == find(entries, "cache_file"@));
    assert(fields[7] == find(entries, "zfs_command"@));
    assert(fields[8] == find(entries, "zpool_command"@));
    reveal_strlit("utc");
    reveal_strlit("local");
    reveal_strlit("host");
    crate::readback::lemma_tight("utc"@);
    crate::readback::lemma_tight("local"@);
    crate::readback::lemma_tight("host"@);
    assert(crate::text::lowercase("utc"@) =~= "utc"@);
    assert(crate::text::lowercase("local"@) =~= "local"@);
    assert(crate::text::lowercase("host"@) =~= "host"@);
    assert("utc"@.len() == 3 && "local"@.len() == 5 && "host"@.len() == 4);
}

// ---------------------------------------------------------------------------
// Notifications
// ---------------------------------------------------------------------------

/// Every key of the notifications sets the value of that name, and a missing one
/// leaves its default.
pub proof fn law_notification_keys_set_their_values(
    entries: Seq<(Seq<char>, TomlModel)>,
    notifications: NotificationsModel,
)
    requires
        notifications_from(TomlModel::Table(entries)) == Some(notifications),
    ensures
        sets_flag(entries, "enabled"@, Some(notifications.enabled)) || find(
            entries,
            "enabled"@,
        ) is None && notifications.enabled,
        sets_text(entries, "hostname"@, notifications.hostname),
        sets_number(
            entries,
            "max_parallel"@,
            usize::MAX as int,
            Some(notifications.max_parallel as int),
        ) || find(entries, "max_parallel"@) is None && notifications.max_parallel == 4,
        sets_number(
            entries,
            "timeout_seconds"@,
            u64::MAX as int,
            Some(notifications.timeout_seconds as int),
        ) || find(entries, "timeout_seconds"@) is None && notifications.timeout_seconds == 10,
        sets_number(
            entries,
            "max_attempts"@,
            u32::MAX as int,
            Some(notifications.max_attempts as int),
        ) || find(entries, "max_attempts"@) is None && notifications.max_attempts == 3,
        sets_number(
            entries,
            "retry_backoff_milliseconds"@,
            u64::MAX as int,
            Some(notifications.retry_backoff_milliseconds as int),
        ) || find(entries, "retry_backoff_milliseconds"@) is None
            && notifications.retry_backoff_milliseconds == 500,
        sets_flag(entries, "fail_on_error"@, Some(notifications.fail_on_error)) || find(
            entries,
            "fail_on_error"@,
        ) is None && !notifications.fail_on_error,
        match find(entries, "webhooks"@) {
            None => notifications.webhooks.len() == 0,
            Some(given) => {
                &&& given is Array
                &&& given->Array_0.len() == notifications.webhooks.len()
                &&& forall|i: int|
                    0 <= i < notifications.webhooks.len() ==> webhook_from(
                        #[trigger] given->Array_0[i],
                    ) == Some(notifications.webhooks[i])
            },
        },
{
    let fields = record(TomlModel::Table(entries), notifications_keys())->0;
    assert(fields[0] == find(entries, "enabled"@));
    assert(fields[1] == find(entries, "hostname"@));
    assert(fields[2] == find(entries, "max_parallel"@));
    assert(fields[3] == find(entries, "timeout_seconds"@));
    assert(fields[4] == find(entries, "max_attempts"@));
    assert(fields[5] == find(entries, "retry_backoff_milliseconds"@));
    assert(fields[6] == find(entries, "fail_on_error"@));
    assert(fields[7] == find(entries, "webhooks"@));
    if let Some(TomlModel::Array(items)) = fields[7] {
        lemma_item_webhooks(items, 0, Seq::empty());
    }
}

proof fn lemma_item_webhooks(items: Seq<TomlModel>, i: int, done: Seq<WebhookModel>)
    requires
        0 <= i <= items.len(),
        done.len() == i,
        forall|k: int| 0 <= k < i ==> webhook_from(#[trigger] items[k]) == Some(done[k]),
    ensures
        item_webhooks(items, i, done) matches Some(all) ==> all.len() == items.len() && forall|
            k: int,
        |
            0 <= k < items.len() ==> webhook_from(#[trigger] items[k]) == Some(all[k]),
    decreases items.len() - i,
{
    if i < items.len() {
        if let Some(hook) = webhook_from(items[i]) {
            lemma_item_webhooks(items, i + 1, done.push(hook));
        }
    }
}

proof fn lemma_item_events(items: Seq<TomlModel>, i: int, done: Seq<WebhookEvent>)
    requires
        0 <= i <= items.len(),
        done.len() == i,
        forall|k: int| 0 <= k < i ==> names_event(#[trigger] items[k], done[k]),
    ensures
        item_events(items, i, done) matches Some(all) ==> all.len() == items.len() && forall|k: int|
            0 <= k < items.len() ==> names_event(#[trigger] items[k], all[k]),
    decreases items.len() - i,
{
    if i < items.len() {
        if let Some(event) = crate::schema::event_from(items[i]) {
            assert(names_event(items[i], event));
            lemma_item_events(items, i + 1, done.push(event));
        }
    }
}

/// Whether an item names an event.
pub open spec fn names_event(item: TomlModel, event: WebhookEvent) -> bool {
    choice_from(item) == Some(
        match event {
            WebhookEvent::Failure => "failure"@,
            WebhookEvent::Success => "success"@,
        },
    )
}

/// Every key of a webhook sets the value of that name. It has a name and a kind,
/// it is enabled where it does not say otherwise, and it hears of failures where it
/// does not say of what.
pub proof fn law_webhook_keys_set_their_values(
    entries: Seq<(Seq<char>, TomlModel)>,
    hook: WebhookModel,
)
    requires
        webhook_from(TomlModel::Table(entries)) == Some(hook),
    ensures
        sets_text(entries, "name"@, Some(hook.name)),
        sets_text(entries, "url"@, hook.url),
        sets_text(entries, "url_env"@, hook.url_env),
        sets_flag(entries, "enabled"@, Some(hook.enabled)) || find(entries, "enabled"@) is None
            && hook.enabled,
        find(entries, "kind"@) matches Some(kind) && choice_from(kind) == Some(
            match hook.kind {
                WebhookKind::Discord => "discord"@,
                WebhookKind::Flock => "flock"@,
                WebhookKind::Slack => "slack"@,
            },
        ),
        match find(entries, "events"@) {
            None => hook.events == seq![WebhookEvent::Failure],
            Some(given) => {
                &&& given is Array
                &&& given->Array_0.len() == hook.events.len()
                &&& forall|i: int|
                    0 <= i < hook.events.len() ==> names_event(
                        #[trigger] given->Array_0[i],
                        hook.events[i],
                    )
            },
        },
{
    let fields = record(TomlModel::Table(entries), webhook_keys())->0;
    assert(fields[0] == find(entries, "name"@));
    assert(fields[1] == find(entries, "kind"@));
    assert(fields[2] == find(entries, "url"@));
    assert(fields[3] == find(entries, "url_env"@));
    assert(fields[4] == find(entries, "events"@));
    assert(fields[5] == find(entries, "enabled"@));
    if let Some(TomlModel::Array(items)) = fields[4] {
        lemma_item_events(items, 0, Seq::empty());
    }
}

// ---------------------------------------------------------------------------
// Sections
// ---------------------------------------------------------------------------

/// Every key of a section sets the value of that name: its templates under either
/// of two keys but not both, whether and how it reaches its descendants, whether it
/// leaves itself out, and its policy. A section that says nothing manages its own
/// dataset alone.
pub proof fn law_section_keys_set_their_values(
    entries: Seq<(Seq<char>, TomlModel)>,
    section: DatasetModel,
)
    requires
        dataset_from(TomlModel::Table(entries)) == Some(section),
    ensures
        find(entries, "use_templates"@) is None || find(entries, "use_template"@) is None,
        sets_texts(entries, "use_templates"@, Some(section.use_templates)) || sets_texts(
            entries,
            "use_template"@,
            Some(section.use_templates),
        ) || find(entries, "use_templates"@) is None && find(entries, "use_template"@) is None
            && section.use_templates.len() == 0,
        find(entries, "recursive"@) is None ==> section.recursive == Recursion::Off,
        find(entries, "recursive"@) == Some(TomlModel::Boolean(false)) ==> section.recursive
            == Recursion::Off,
        find(entries, "recursive"@) == Some(TomlModel::Boolean(true)) ==> section.recursive
            == Recursion::Children,
        find(entries, "recursive"@) == Some(TomlModel::Text("children"@)) ==> section.recursive
            == Recursion::Children,
        find(entries, "recursive"@) == Some(TomlModel::Text("zfs"@)) ==> section.recursive
            == Recursion::Zfs,
        find(entries, "recursive"@) == Some(TomlModel::Text("atomic"@)) ==> section.recursive
            == Recursion::Zfs,
        find(entries, "recursive"@) == Some(TomlModel::Text("none"@)) ==> section.recursive
            == Recursion::Off,
        sets_flag(entries, "process_children_only"@, Some(section.process_children_only)) || find(
            entries,
            "process_children_only"@,
        ) is None && !section.process_children_only,
        match find(entries, "policy"@) {
            None => section.policy == empty_patch(),
            Some(given) => patch_from(given) == Some(section.policy),
        },
{
    lemma_texts(find(entries, "use_templates"@));
    lemma_texts(find(entries, "use_template"@));
    reveal_strlit("children");
    reveal_strlit("yes");
    reveal_strlit("true");
    reveal_strlit("zfs");
    reveal_strlit("atomic");
    reveal_strlit("none");
    reveal_strlit("no");
    reveal_strlit("false");
    assert(crate::text::lowercase("children"@) =~= "children"@);
    assert(crate::text::lowercase("zfs"@) =~= "zfs"@);
    assert(crate::text::lowercase("atomic"@) =~= "atomic"@);
    assert(crate::text::lowercase("none"@) =~= "none"@);
    assert("none"@.len() == 4 && "no"@.len() == 2 && "false"@.len() == 5 && "children"@.len() == 8
        && "yes"@.len() == 3 && "true"@.len() == 4 && "zfs"@.len() == 3 && "atomic"@.len() == 6);
    assert("yes"@[0] == 'y' && "zfs"@[0] == 'z');
}

// ---------------------------------------------------------------------------
// The configuration
// ---------------------------------------------------------------------------

proof fn lemma_templates(
    entries: Seq<(Seq<char>, TomlModel)>,
    i: int,
    done: Seq<(Seq<char>, PatchModel)>,
    name: Seq<char>,
)
    requires
        0 <= i <= entries.len(),
        increasing(names_of(done)),
        forall|k: int, l: int|
            0 <= k < l < entries.len() ==> (#[trigger] entries[k]).0 != (#[trigger] entries[l]).0,
    ensures
        templates_from(entries, i, done) matches Some(all) ==> {
            &&& increasing(names_of(all))
            &&& (forall|k: int| i <= k < entries.len() ==> (#[trigger] entries[k]).0 != name)
                ==> lookup(all, name) == lookup(done, name)
            &&& forall|k: int|
                i <= k < entries.len() && (#[trigger] entries[k]).0 == name ==> lookup(all, name)
                    == patch_from(entries[k].1) && lookup(all, name) is Some
        },
    decreases entries.len() - i,
{
    if i < entries.len() {
        if let Some(patch) = patch_from(entries[i].1) {
            lemma_put(done, entries[i].0, patch, name);
            lemma_templates(entries, i + 1, put(done, entries[i].0, patch), name);
        }
    }
}

proof fn lemma_sections(
    entries: Seq<(Seq<char>, TomlModel)>,
    i: int,
    done: Seq<(Seq<char>, DatasetModel)>,
    name: Seq<char>,
)
    requires
        0 <= i <= entries.len(),
        increasing(names_of(done)),
        forall|k: int, l: int|
            0 <= k < l < entries.len() ==> (#[trigger] entries[k]).0 != (#[trigger] entries[l]).0,
    ensures
        datasets_from(entries, i, done) matches Some(all) ==> {
            &&& increasing(names_of(all))
            &&& (forall|k: int| i <= k < entries.len() ==> (#[trigger] entries[k]).0 != name)
                ==> lookup(all, name) == lookup(done, name)
            &&& forall|k: int|
                i <= k < entries.len() && (#[trigger] entries[k]).0 == name ==> lookup(all, name)
                    == dataset_from(entries[k].1) && lookup(all, name) is Some
        },
    decreases entries.len() - i,
{
    if i < entries.len() {
        if let Some(section) = dataset_from(entries[i].1) {
            lemma_put(done, entries[i].0, section, name);
            lemma_sections(entries, i + 1, put(done, entries[i].0, section), name);
        }
    }
}

/// Whether no two entries have one key.
pub open spec fn have_own_keys(entries: Seq<(Seq<char>, TomlModel)>) -> bool {
    forall|k: int, l: int|
        0 <= k < l < entries.len() ==> (#[trigger] entries[k]).0 != (#[trigger] entries[l]).0
}

/// Every table of a document is the part of the configuration under its name: the
/// version, which has to be there, the settings, the notifications, each template
/// and each section. What is missing is its default, or empty.
pub proof fn law_tables_make_up_the_configuration(
    entries: Seq<(Seq<char>, TomlModel)>,
    config: ConfigModel,
    name: Seq<char>,
    k: int,
)
    requires
        config_from(TomlModel::Table(entries)) == Some(config),
    ensures
        sets_number(entries, "version"@, u32::MAX as int, Some(config.version as int)),
        match find(entries, "settings"@) {
            None => config.settings == default_settings(),
            Some(given) => settings_from(given) == Some(config.settings),
        },
        match find(entries, "notifications"@) {
            None => config.notifications == default_notifications(),
            Some(given) => notifications_from(given) == Some(config.notifications),
        },
        match find(entries, "templates"@) {
            None => config.templates.len() == 0,
            Some(given) => {
                &&& given is Table
                &&& have_own_keys(given->Table_0) && 0 <= k < given->Table_0.len() ==> {
                    let (title, table) = given->Table_0[k];
                    lookup(config.templates, title) == patch_from(table)
                }
                &&& have_own_keys(given->Table_0) && (forall|j: int|
                    0 <= j < given->Table_0.len() ==> (#[trigger] given->Table_0[j]).0 != name)
                    ==> lookup(config.templates, name) is None
            },
        },
        match find(entries, "datasets"@) {
            None => config.datasets.len() == 0,
            Some(given) => {
                &&& given is Table
                &&& have_own_keys(given->Table_0) && 0 <= k < given->Table_0.len() ==> {
                    let (title, table) = given->Table_0[k];
                    lookup(config.datasets, title) == dataset_from(table)
                }
                &&& have_own_keys(given->Table_0) && (forall|j: int|
                    0 <= j < given->Table_0.len() ==> (#[trigger] given->Table_0[j]).0 != name)
                    ==> lookup(config.datasets, name) is None
            },
        },
{
    let fields = record(TomlModel::Table(entries), config_keys())->0;
    assert(fields[0] == find(entries, "version"@));
    assert(fields[1] == find(entries, "settings"@));
    assert(fields[2] == find(entries, "notifications"@));
    assert(fields[3] == find(entries, "templates"@));
    assert(fields[4] == find(entries, "datasets"@));
    let no_patches = Seq::<(Seq<char>, PatchModel)>::empty();
    let no_sections = Seq::<(Seq<char>, DatasetModel)>::empty();
    assert(names_of(no_patches) =~= Seq::<Seq<char>>::empty());
    assert(names_of(no_sections) =~= Seq::<Seq<char>>::empty());
    if let Some(TomlModel::Table(tables)) = fields[3] {
        if have_own_keys(tables) {
            lemma_templates(tables, 0, no_patches, name);
            if 0 <= k < tables.len() {
                lemma_templates(tables, 0, no_patches, tables[k].0);
            }
        }
    }
    if let Some(TomlModel::Table(tables)) = fields[4] {
        if have_own_keys(tables) {
            lemma_sections(tables, 0, no_sections, name);
            if 0 <= k < tables.len() {
                lemma_sections(tables, 0, no_sections, tables[k].0);
            }
        }
    }
}

// ---------------------------------------------------------------------------
// Keys
// ---------------------------------------------------------------------------

/// The policy settings that are truth values.
pub open spec fn is_flag_key(key: Seq<char>) -> bool {
    ||| key == "autosnap"@
    ||| key == "autoprune"@
    ||| key == "no_inconsistent_snapshot"@
    ||| key == "force_post_snapshot_script"@
}

/// The policy settings that are numbers of snapshots, times or parts of dates.
pub open spec fn is_number_key(key: Seq<char>) -> bool {
    ||| key == "frequently"@
    ||| key == "hourly"@
    ||| key == "daily"@
    ||| key == "weekly"@
    ||| key == "monthly"@
    ||| key == "yearly"@
    ||| key == "frequent_period"@
    ||| key == "hourly_min"@
    ||| key == "daily_hour"@
    ||| key == "daily_min"@
    ||| key == "weekly_wday"@
    ||| key == "weekly_hour"@
    ||| key == "weekly_min"@
    ||| key == "monthly_mday"@
    ||| key == "monthly_hour"@
    ||| key == "monthly_min"@
    ||| key == "yearly_mon"@
    ||| key == "yearly_mday"@
    ||| key == "yearly_hour"@
    ||| key == "yearly_min"@
}

/// The policy settings that are commands.
pub open spec fn is_hook_key(key: Seq<char>) -> bool {
    ||| key == "pre_snapshot_script"@
    ||| key == "post_snapshot_script"@
    ||| key == "pre_pruning_script"@
    ||| key == "pruning_script"@
}

/// Whether a value is a number between zero and a maximum.
pub open spec fn is_number_up_to(value: TomlModel, max: int) -> bool {
    value is Integer && 0 <= value->Integer_0 <= max
}

/// Whether a value is a list of texts.
pub open spec fn is_text_list(value: TomlModel) -> bool {
    value is Array && forall|i: int|
        0 <= i < value->Array_0.len() ==> (#[trigger] value->Array_0[i]) is Text
}

/// Whether an entry is a policy setting with a value of its kind.
pub open spec fn is_good_setting(key: Seq<char>, value: TomlModel) -> bool {
    &&& is_flag_key(key) || is_number_key(key) || is_hook_key(key) || key == "prune_defer"@ || key
        == "script_timeout"@
    &&& is_flag_key(key) ==> value is Boolean
    &&& is_number_key(key) ==> is_number_up_to(value, u32::MAX as int)
    &&& is_hook_key(key) ==> is_text_list(value)
    &&& key == "prune_defer"@ ==> is_number_up_to(value, u8::MAX as int)
    &&& key == "script_timeout"@ ==> is_number_up_to(value, u64::MAX as int)
}

/// The keys of every table: a policy, the settings, the notifications, a webhook, a
/// section and the whole.
pub proof fn law_tables_know_their_keys(key: Seq<char>)
    ensures
        policy_keys().contains(key) <==> is_flag_key(key) || is_number_key(key) || is_hook_key(key)
            || key == "prune_defer"@ || key == "script_timeout"@,
        settings_keys().contains(key) <==> key == "snapshot_prefix"@ || key == "timezone"@ || key
            == "max_parallel_pools"@ || key == "snapshot_batch_size"@ || key
            == "prune_batch_size"@ || key == "lock_file"@ || key == "cache_file"@ || key
            == "zfs_command"@ || key == "zpool_command"@,
        notifications_keys().contains(key) <==> key == "enabled"@ || key == "hostname"@ || key
            == "max_parallel"@ || key == "timeout_seconds"@ || key == "max_attempts"@ || key
            == "retry_backoff_milliseconds"@ || key == "fail_on_error"@ || key == "webhooks"@,
        webhook_keys().contains(key) <==> key == "name"@ || key == "kind"@ || key == "url"@ || key
            == "url_env"@ || key == "events"@ || key == "enabled"@,
        crate::schema::dataset_keys().contains(key) <==> key == "use_templates"@ || key
            == "use_template"@ || key == "recursive"@ || key == "process_children_only"@ || key
            == "policy"@,
        config_keys().contains(key) <==> key == "version"@ || key == "settings"@ || key
            == "notifications"@ || key == "templates"@ || key == "datasets"@,
{
    let policy = policy_keys();
    assert(policy[0] == "autosnap"@);
    assert(policy[1] == "autoprune"@);
    assert(policy[2] == "frequently"@);
    assert(policy[3] == "hourly"@);
    assert(policy[4] == "daily"@);
    assert(policy[5] == "weekly"@);
    assert(policy[6] == "monthly"@);
    assert(policy[7] == "yearly"@);
    assert(policy[8] == "frequent_period"@);
    assert(policy[9] == "hourly_min"@);
    assert(policy[10] == "daily_hour"@);
    assert(policy[11] == "daily_min"@);
    assert(policy[12] == "weekly_wday"@);
    assert(policy[13] == "weekly_hour"@);
    assert(policy[14] == "weekly_min"@);
    assert(policy[15] == "monthly_mday"@);
    assert(policy[16] == "monthly_hour"@);
    assert(policy[17] == "monthly_min"@);
    assert(policy[18] == "yearly_mon"@);
    assert(policy[19] == "yearly_mday"@);
    assert(policy[20] == "yearly_hour"@);
    assert(policy[21] == "yearly_min"@);
    assert(policy[22] == "prune_defer"@);
    assert(policy[23] == "pre_snapshot_script"@);
    assert(policy[24] == "post_snapshot_script"@);
    assert(policy[25] == "pre_pruning_script"@);
    assert(policy[26] == "pruning_script"@);
    assert(policy[27] == "script_timeout"@);
    assert(policy[28] == "no_inconsistent_snapshot"@);
    assert(policy[29] == "force_post_snapshot_script"@);
    let settings = settings_keys();
    assert(settings[0] == "snapshot_prefix"@);
    assert(settings[1] == "timezone"@);
    assert(settings[2] == "max_parallel_pools"@);
    assert(settings[3] == "snapshot_batch_size"@);
    assert(settings[4] == "prune_batch_size"@);
    assert(settings[5] == "lock_file"@);
    assert(settings[6] == "cache_file"@);
    assert(settings[7] == "zfs_command"@);
    assert(settings[8] == "zpool_command"@);
    let notifications = notifications_keys();
    assert(notifications[0] == "enabled"@);
    assert(notifications[1] == "hostname"@);
    assert(notifications[2] == "max_parallel"@);
    assert(notifications[3] == "timeout_seconds"@);
    assert(notifications[4] == "max_attempts"@);
    assert(notifications[5] == "retry_backoff_milliseconds"@);
    assert(notifications[6] == "fail_on_error"@);
    assert(notifications[7] == "webhooks"@);
    let webhook = webhook_keys();
    assert(webhook[0] == "name"@);
    assert(webhook[1] == "kind"@);
    assert(webhook[2] == "url"@);
    assert(webhook[3] == "url_env"@);
    assert(webhook[4] == "events"@);
    assert(webhook[5] == "enabled"@);
    let section = crate::schema::dataset_keys();
    assert(section[0] == "use_templates"@);
    assert(section[1] == "use_template"@);
    assert(section[2] == "recursive"@);
    assert(section[3] == "process_children_only"@);
    assert(section[4] == "policy"@);
    let config = config_keys();
    assert(config[0] == "version"@);
    assert(config[1] == "settings"@);
    assert(config[2] == "notifications"@);
    assert(config[3] == "templates"@);
    assert(config[4] == "datasets"@);
}

proof fn lemma_found(entries: Seq<(Seq<char>, TomlModel)>, key: Seq<char>)
    ensures
        find(entries, key) matches Some(value) ==> entries.contains((key, value)),
    decreases entries.len(),
{
    if entries.len() > 0 && entries[0].0 != key {
        lemma_found(entries.drop_first(), key);
        if let Some(value) = find(entries.drop_first(), key) {
            let i = entries.drop_first().index_of((key, value));
            assert(entries[i + 1] == (key, value));
        }
    } else if entries.len() > 0 {
        assert(entries[0] == (key, entries[0].1));
    }
}

proof fn lemma_text_list(items: Seq<TomlModel>, i: int, done: Seq<Seq<char>>)
    requires
        0 <= i <= items.len(),
        forall|j: int| 0 <= j < items.len() ==> (#[trigger] items[j]) is Text,
    ensures
        item_texts(items, i, done) is Some,
    decreases items.len() - i,
{
    if i < items.len() {
        assert(items[i] is Text);
        lemma_text_list(items, i + 1, done.push(text_from(items[i])->0));
    }
}

/// Whether every entry of a table is a policy setting with a value of its kind.
pub open spec fn all_good_settings(entries: Seq<(Seq<char>, TomlModel)>) -> bool {
    forall|i: int|
        0 <= i < entries.len() ==> is_good_setting((#[trigger] entries[i]).0, entries[i].1)
}

proof fn lemma_setting(entries: Seq<(Seq<char>, TomlModel)>, key: Seq<char>)
    requires
        all_good_settings(entries),
    ensures
        find(entries, key) matches Some(value) ==> is_good_setting(key, value) && (is_text_list(
            value,
        ) ==> texts_in(Some(value)) is Some),
{
    lemma_found(entries, key);
    if let Some(value) = find(entries, key) {
        let i = entries.index_of((key, value));
        assert(is_good_setting(entries[i].0, entries[i].1));
        if is_text_list(value) {
            lemma_text_list(value->Array_0, 0, Seq::empty());
        }
    }
}

/// A table of policy settings with values of their kind is accepted, whichever of
/// them it has.
pub proof fn law_good_policies_are_accepted(entries: Seq<(Seq<char>, TomlModel)>)
    requires
        all_good_settings(entries),
    ensures
        patch_from(TomlModel::Table(entries)) is Some,
{
    assert forall|i: int| 0 <= i < entries.len() implies policy_keys().contains(
        (#[trigger] entries[i]).0,
    ) by {
        law_tables_know_their_keys(entries[i].0);
        assert(is_good_setting(entries[i].0, entries[i].1));
    }
    let fields = record(TomlModel::Table(entries), policy_keys())->0;
    lemma_setting(entries, "autosnap"@);
    assert(fields[0] == find(entries, "autosnap"@));
    lemma_setting(entries, "autoprune"@);
    assert(fields[1] == find(entries, "autoprune"@));
    lemma_setting(entries, "frequently"@);
    assert(fields[2] == find(entries, "frequently"@));
    lemma_setting(entries, "hourly"@);
    assert(fields[3] == find(entries, "hourly"@));
    lemma_setting(entries, "daily"@);
    assert(fields[4] == find(entries, "daily"@));
    lemma_setting(entries, "weekly"@);
    assert(fields[5] == find(entries, "weekly"@));
    lemma_setting(entries, "monthly"@);
    assert(fields[6] == find(entries, "monthly"@));
    lemma_setting(entries, "yearly"@);
    assert(fields[7] == find(entries, "yearly"@));
    lemma_setting(entries, "frequent_period"@);
    assert(fields[8] == find(entries, "frequent_period"@));
    lemma_setting(entries, "hourly_min"@);
    assert(fields[9] == find(entries, "hourly_min"@));
    lemma_setting(entries, "daily_hour"@);
    assert(fields[10] == find(entries, "daily_hour"@));
    lemma_setting(entries, "daily_min"@);
    assert(fields[11] == find(entries, "daily_min"@));
    lemma_setting(entries, "weekly_wday"@);
    assert(fields[12] == find(entries, "weekly_wday"@));
    lemma_setting(entries, "weekly_hour"@);
    assert(fields[13] == find(entries, "weekly_hour"@));
    lemma_setting(entries, "weekly_min"@);
    assert(fields[14] == find(entries, "weekly_min"@));
    lemma_setting(entries, "monthly_mday"@);
    assert(fields[15] == find(entries, "monthly_mday"@));
    lemma_setting(entries, "monthly_hour"@);
    assert(fields[16] == find(entries, "monthly_hour"@));
    lemma_setting(entries, "monthly_min"@);
    assert(fields[17] == find(entries, "monthly_min"@));
    lemma_setting(entries, "yearly_mon"@);
    assert(fields[18] == find(entries, "yearly_mon"@));
    lemma_setting(entries, "yearly_mday"@);
    assert(fields[19] == find(entries, "yearly_mday"@));
    lemma_setting(entries, "yearly_hour"@);
    assert(fields[20] == find(entries, "yearly_hour"@));
    lemma_setting(entries, "yearly_min"@);
    assert(fields[21] == find(entries, "yearly_min"@));
    lemma_setting(entries, "prune_defer"@);
    assert(fields[22] == find(entries, "prune_defer"@));
    lemma_setting(entries, "pre_snapshot_script"@);
    assert(fields[23] == find(entries, "pre_snapshot_script"@));
    lemma_setting(entries, "post_snapshot_script"@);
    assert(fields[24] == find(entries, "post_snapshot_script"@));
    lemma_setting(entries, "pre_pruning_script"@);
    assert(fields[25] == find(entries, "pre_pruning_script"@));
    lemma_setting(entries, "pruning_script"@);
    assert(fields[26] == find(entries, "pruning_script"@));
    lemma_setting(entries, "script_timeout"@);
    assert(fields[27] == find(entries, "script_timeout"@));
    lemma_setting(entries, "no_inconsistent_snapshot"@);
    assert(fields[28] == find(entries, "no_inconsistent_snapshot"@));
    lemma_setting(entries, "force_post_snapshot_script"@);
    assert(fields[29] == find(entries, "force_post_snapshot_script"@));
}

} // verus!
