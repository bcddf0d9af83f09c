//! The configuration: settings, notifications, templates and datasets.
use vstd::prelude::*;

use crate::error::{error, reports, yields, Error};
use crate::names::{lookup, NameMap};
use crate::policy::{default_policy, failure, or_else, patched, policy_fault, PatchModel, PolicyModel};
use crate::sort::views;
use crate::text::{characters, debug_text, decimal, has_prefix, has_suffix, is_alphanumeric, is_ascii_alphanumeric, number, quoted, same, split, split_char, starts_with, texts, trim, trimmed};
use crate::webhook::{contains_control, has_control, optional_text, validate_webhooks, webhooks_fault, WebhookModel};

pub use crate::policy::{Policy, PolicyPatch};
pub use crate::webhook::{SecretString, WebhookConfig, WebhookEvent, WebhookKind};

verus! {

pub const MAX_SNAPSHOT_BATCH_SIZE: usize = 256;

pub const MAX_PRUNE_BATCH_SIZE: usize = 128;

/// Whose clock the schedules and the snapshot names follow.
#[derive(Debug, Clone, Copy, PartialEq, Eq, Structural)]
pub enum ScheduleTimezone {
    Local,
    Utc,
}

impl Default for ScheduleTimezone {
    fn default() -> (res: Self)
        ensures
            res == ScheduleTimezone::Local,
    {
        ScheduleTimezone::Local
    }
}

/// How a section reaches the descendants of its dataset.
#[derive(Debug, Clone, Copy, PartialEq, Eq, Structural)]
pub enum Recursion {
    /// The dataset alone.
    Off,
    Children,
    Zfs,
}

impl Default for Recursion {
    fn default() -> (res: Self)
        ensures
            res == Recursion::Off,
    {
        Recursion::Off
    }
}

#[derive(Debug)]
pub struct Settings {
    pub snapshot_prefix: String,
    pub timezone: ScheduleTimezone,
    pub max_parallel_pools: usize,
    pub snapshot_batch_size: usize,
    pub prune_batch_size: usize,
    pub lock_file: String,
    pub cache_file: String,
    pub zfs_command: String,
    pub zpool_command: String,
}

/// The model of [`Settings`].
pub struct SettingsModel {
    pub snapshot_prefix: Seq<char>,
    pub timezone: ScheduleTimezone,
    pub max_parallel_pools: usize,
    pub snapshot_batch_size: usize,
    pub prune_batch_size: usize,
    pub lock_file: Seq<char>,
    pub cache_file: Seq<char>,
    pub zfs_command: Seq<char>,
    pub zpool_command: Seq<char>,
}

impl View for Settings {
    type V = SettingsModel;

    open spec fn view(&self) -> SettingsModel {
        SettingsModel {
            snapshot_prefix: self.snapshot_prefix@,
            timezone: self.timezone,
            max_parallel_pools: self.max_parallel_pools,
            snapshot_batch_size: self.snapshot_batch_size,
            prune_batch_size: self.prune_batch_size,
            lock_file: self.lock_file@,
            cache_file: self.cache_file@,
            zfs_command: self.zfs_command@,
            zpool_command: self.zpool_command@,
        }
    }
}

pub open spec fn default_settings() -> SettingsModel {
    SettingsModel {
        snapshot_prefix: "autosnap"@,
        timezone: ScheduleTimezone::Local,
        max_parallel_pools: 0,
        snapshot_batch_size: 128,
        prune_batch_size: 64,
        lock_file: "/run/zsnap/zsnap.lock"@,
        cache_file: "/etc/zsnap/zsnap.cache"@,
        zfs_command: "zfs"@,
        zpool_command: "zpool"@,
    }
}

impl Default for Settings {
    fn default() -> (res: Self)
        ensures
            res@ == default_settings(),
    {
        Settings {
            snapshot_prefix: "autosnap".to_owned(),
            timezone: ScheduleTimezone::Local,
            max_parallel_pools: 0,
            snapshot_batch_size: 128,
            prune_batch_size: 64,
            lock_file: "/run/zsnap/zsnap.lock".to_owned(),
            cache_file: "/etc/zsnap/zsnap.cache".to_owned(),
            zfs_command: "zfs".to_owned(),
            zpool_command: "zpool".to_owned(),
        }
    }
}

pub struct Notifications {
    pub enabled: bool,
    pub hostname: Option<String>,
    pub max_parallel: usize,
    pub timeout_seconds: u64,
    pub max_attempts: u32,
    pub retry_backoff_milliseconds: u64,
    pub fail_on_error: bool,
    pub webhooks: Vec<WebhookConfig>,
}

/// The model of [`Notifications`].
pub struct NotificationsModel {
    pub enabled: bool,
    pub hostname: Option<Seq<char>>,
    pub max_parallel: usize,
    pub timeout_seconds: u64,
    pub max_attempts: u32,
    pub retry_backoff_milliseconds: u64,
    pub fail_on_error: bool,
    pub webhooks: Seq<WebhookModel>,
}

impl View for Notifications {
    type V = NotificationsModel;

    open spec fn view(&self) -> NotificationsModel {
        NotificationsModel {
            enabled: self.enabled,
            hostname: optional_text(self.hostname),
            max_parallel: self.max_parallel,
            timeout_seconds: self.timeout_seconds,
            max_attempts: self.max_attempts,
            retry_backoff_milliseconds: self.retry_backoff_milliseconds,
            fail_on_error: self.fail_on_error,
            webhooks: views(self.webhooks@),
        }
    }
}

pub open spec fn default_notifications() -> NotificationsModel {
    NotificationsModel {
        enabled: true,
        hostname: None,
        max_parallel: 4,
        timeout_seconds: 10,
        max_attempts: 3,
        retry_backoff_milliseconds: 500,
        fail_on_error: false,
        webhooks: Seq::empty(),
    }
}

impl Default for Notifications {
    fn default() -> (res: Self)
        ensures
            res@ == default_notifications(),
    {
        let webhooks: Vec<WebhookConfig> = Vec::new();
        assert(views(webhooks@) =~= Seq::<WebhookModel>::empty());
        Notifications {
            enabled: true,
            hostname: None,
            max_parallel: 4,
            timeout_seconds: 10,
            max_attempts: 3,
            retry_backoff_milliseconds: 500,
            fail_on_error: false,
            webhooks,
        }
    }
}

/// The section of one dataset.
pub struct DatasetConfig {
    pub use_templates: Vec<String>,
    pub recursive: Recursion,
    pub process_children_only: bool,
    pub policy: PolicyPatch,
}

/// The model of a [`DatasetConfig`].
pub struct DatasetModel {
    pub use_templates: Seq<Seq<char>>,
    pub recursive: Recursion,
    pub process_children_only: bool,
    pub policy: PatchModel,
}

impl View for DatasetConfig {
    type V = DatasetModel;

    open spec fn view(&self) -> DatasetModel {
        DatasetModel {
            use_templates: texts(self.use_templates@),
            recursive: self.recursive,
            process_children_only: self.process_children_only,
            policy: self.policy@,
        }
    }
}

pub struct Config {
    pub version: u32,
    pub settings: Settings,
    pub notifications: Notifications,
    pub templates: NameMap<PolicyPatch>,
    pub datasets: NameMap<DatasetConfig>,
}

/// The model of a [`Config`].
pub struct ConfigModel {
    pub version: u32,
    pub settings: SettingsModel,
    pub notifications: NotificationsModel,
    pub templates: Seq<(Seq<char>, PatchModel)>,
    pub datasets: Seq<(Seq<char>, DatasetModel)>,
}

impl View for Config {
    type V = ConfigModel;

    open spec fn view(&self) -> ConfigModel {
        ConfigModel {
            version: self.version,
            settings: self.settings@,
            notifications: self.notifications@,
            templates: self.templates@,
            datasets: self.datasets@,
        }
    }
}

// ---------------------------------------------------------------------------
// Settings
// ---------------------------------------------------------------------------

pub open spec fn batch_fault(snapshot: usize, prune: usize, context: Seq<char>) -> Option<Seq<char>> {
    if !(1 <= snapshot <= 256) {
        Some(context + ": snapshot_batch_size must be between 1 and 256"@)
    } else if !(1 <= prune <= 128) {
        Some(context + ": prune_batch_size must be between 1 and 128"@)
    } else {
        None
    }
}

pub fn validate_batch_sizes(snapshot: usize, prune: usize, context: &str) -> (res: Result<
    (),
    Error,
>)
    ensures
        reports(res, batch_fault(snapshot, prune, context@)),
{
    if !(1 <= snapshot && snapshot <= MAX_SNAPSHOT_BATCH_SIZE) {
        return failure(context, ": snapshot_batch_size must be between 1 and 256");
    }
    if !(1 <= prune && prune <= MAX_PRUNE_BATCH_SIZE) {
        return failure(context, ": prune_batch_size must be between 1 and 128");
    }
    Ok(())
}

pub open spec fn path_fault(path: Seq<char>, field: Seq<char>) -> Option<Seq<char>> {
    if trim(path).len() == 0 {
        Some(field + " cannot be empty"@)
    } else {
        None
    }
}

fn ensure_nonempty_path(path: &str, field: &str) -> (res: Result<(), Error>)
    ensures
        reports(res, path_fault(path@, field@)),
{
    if trimmed(path).as_str().is_empty() {
        failure(field, " cannot be empty")
    } else {
        Ok(())
    }
}

/// The last of the path components `parts[..n]` that is neither empty nor a
/// single dot.
pub open spec fn last_component(parts: Seq<Seq<char>>, n: int) -> Option<Seq<char>>
    decreases n,
{
    if n <= 0 {
        None
    } else if parts[n - 1] == ""@ || parts[n - 1] == "."@ {
        last_component(parts, n - 1)
    } else {
        Some(parts[n - 1])
    }
}

/// A path names a file unless it ends at the root or in a parent directory.
pub open spec fn names_file(path: Seq<char>) -> bool {
    let parts = split(path, '/');
    match last_component(parts, parts.len() as int) {
        Some(name) => name != ".."@,
        None => false,
    }
}

pub fn names_a_file(path: &str) -> (res: bool)
    ensures
        res == names_file(path@),
{
    let parts = split_char(path, '/');
    assert(texts(parts@).len() == parts@.len());
    let mut n: usize = parts.len();
    while n > 0
        invariant
            n <= parts@.len(),
            texts(parts@) == split(path@, '/'),
            last_component(split(path@, '/'), n as int) == last_component(
                split(path@, '/'),
                split(path@, '/').len() as int,
            ),
        decreases n,
    {
        let part = parts[n - 1].as_str();
        assert(texts(parts@)[n - 1] == part@);
        if !(same(part, "") || same(part, ".")) {
            return !same(part, "..");
        }
        n -= 1;
    }
    false
}

pub open spec fn settings_fault(settings: SettingsModel) -> Option<Seq<char>> {
    or_else(
        batch_fault(settings.snapshot_batch_size, settings.prune_batch_size, "settings"@),
        or_else(
            path_fault(settings.lock_file, "settings.lock_file"@),
            or_else(
                path_fault(settings.zfs_command, "settings.zfs_command"@),
                or_else(
                    path_fault(settings.zpool_command, "settings.zpool_command"@),
                    if names_file(settings.lock_file) {
                        None
                    } else {
                        Some("settings.lock_file must name a file, not a directory"@)
                    },
                ),
            ),
        ),
    )
}

impl Settings {
    pub fn validate(&self) -> (res: Result<(), Error>)
        ensures
            reports(res, settings_fault(self@)),
    {
        validate_batch_sizes(self.snapshot_batch_size, self.prune_batch_size, "settings")?;
        ensure_nonempty_path(self.lock_file.as_str(), "settings.lock_file")?;
        ensure_nonempty_path(self.zfs_command.as_str(), "settings.zfs_command")?;
        ensure_nonempty_path(self.zpool_command.as_str(), "settings.zpool_command")?;
        if !names_a_file(self.lock_file.as_str()) {
            return Err(error("settings.lock_file must name a file, not a directory"));
        }
        Ok(())
    }
}

// ---------------------------------------------------------------------------
// Notifications
// ---------------------------------------------------------------------------

pub open spec fn hostname_fault(hostname: Option<Seq<char>>) -> Option<Seq<char>> {
    match hostname {
        Some(name) => if trim(name).len() == 0 {
            Some("notifications.hostname cannot be empty"@)
        } else if has_control(name) {
            Some("notifications.hostname cannot contain line breaks or NUL bytes"@)
        } else {
            None
        },
        None => None,
    }
}

pub open spec fn notifications_fault(notifications: NotificationsModel) -> Option<Seq<char>> {
    if notifications.max_parallel == 0 {
        Some("notifications.max_parallel must be greater than zero"@)
    } else if !(1 <= notifications.timeout_seconds <= 60) {
        Some("notifications.timeout_seconds must be between 1 and 60"@)
    } else if !(1 <= notifications.max_attempts <= 5) {
        Some("notifications.max_attempts must be between 1 and 5"@)
    } else if notifications.retry_backoff_milliseconds > 10_000 {
        Some("notifications.retry_backoff_milliseconds must not exceed 10000"@)
    } else {
        or_else(
            hostname_fault(notifications.hostname),
            webhooks_fault(notifications.webhooks, 0, Seq::empty()),
        )
    }
}

impl Notifications {
    pub fn validate(&self) -> (res: Result<(), Error>)
        ensures
            reports(res, notifications_fault(self@)),
    {
        if !(self.max_parallel > 0) {
            return Err(error("notifications.max_parallel must be greater than zero"));
        }
        if !(1 <= self.timeout_seconds && self.timeout_seconds <= 60) {
            return Err(error("notifications.timeout_seconds must be between 1 and 60"));
        }
        if !(1 <= self.max_attempts && self.max_attempts <= 5) {
            return Err(error("notifications.max_attempts must be between 1 and 5"));
        }
        if self.retry_backoff_milliseconds > 10_000 {
            return Err(error("notifications.retry_backoff_milliseconds must not exceed 10000"));
        }
        if let Some(hostname) = &self.hostname {
            if trimmed(hostname.as_str()).as_str().is_empty() {
                return Err(error("notifications.hostname cannot be empty"));
            }
            if contains_control(hostname.as_str()) {
                return Err(
                    error("notifications.hostname cannot contain line breaks or NUL bytes"),
                );
            }
        }
        validate_webhooks(&self.webhooks)
    }
}

// ---------------------------------------------------------------------------
// Names
// ---------------------------------------------------------------------------

/// The characters of prefixes, dataset names and snapshot names.
pub open spec fn is_safe(c: char) -> bool {
    is_alphanumeric(c) || c == '.' || c == '-' || c == '_' || c == ':'
}

pub open spec fn all_safe(name: Seq<char>) -> bool {
    forall|i: int| 0 <= i < name.len() ==> is_safe(#[trigger] name[i])
}

fn is_safe_name_character(c: char) -> (res: bool)
    ensures
        res == is_safe(c),
{
    is_ascii_alphanumeric(c) || c == '.' || c == '-' || c == '_' || c == ':'
}

pub fn has_only_safe_characters(name: &str) -> (res: bool)
    ensures
        res == all_safe(name@),
{
    let x = characters(name);
    let mut i: usize = 0;
    while i < x.len()
        invariant
            i <= x@.len(),
            x@ == name@,
            forall|j: int| 0 <= j < i ==> is_safe(#[trigger] x@[j]),
        decreases x.len() - i,
    {
        if !is_safe_name_character(x[i]) {
            return false;
        }
        i += 1;
    }
    true
}

pub open spec fn prefix_fault(prefix: Seq<char>) -> Option<Seq<char>> {
    if prefix.len() == 0 {
        Some("snapshot_prefix cannot be empty"@)
    } else if !all_safe(prefix) {
        Some("snapshot_prefix may contain only ASCII letters, numbers, '.', '-', '_', and ':'"@)
    } else {
        None
    }
}

fn validate_prefix(prefix: &str) -> (res: Result<(), Error>)
    ensures
        reports(res, prefix_fault(prefix@)),
{
    if prefix.is_empty() {
        return Err(error("snapshot_prefix cannot be empty"));
    }
    if !has_only_safe_characters(prefix) {
        return Err(
            error(
                "snapshot_prefix may contain only ASCII letters, numbers, '.', '-', '_', and ':'",
            ),
        );
    }
    Ok(())
}

/// The parts of a dataset name are not empty and hold safe characters only.
pub open spec fn parts_safe(parts: Seq<Seq<char>>) -> bool {
    forall|i: int|
        0 <= i < parts.len() ==> (#[trigger] parts[i]).len() > 0 && all_safe(parts[i])
}

pub open spec fn dataset_name_fault(name: Seq<char>) -> Option<Seq<char>> {
    if has_prefix(name, "/"@) || has_suffix(name, "/"@) || name.len() == 0 {
        Some("invalid ZFS dataset name "@ + debug_text(name))
    } else if !parts_safe(split(name, '/')) {
        Some("dataset "@ + debug_text(name) + " contains unsupported characters"@)
    } else {
        None
    }
}

pub fn has_safe_parts(name: &str) -> (res: bool)
    ensures
        res == parts_safe(split(name@, '/')),
{
    let parts = split_char(name, '/');
    assert(texts(parts@).len() == parts@.len());
    let mut i: usize = 0;
    while i < parts.len()
        invariant
            i <= parts@.len(),
            texts(parts@) == split(name@, '/'),
            forall|j: int|
                0 <= j < i ==> (#[trigger] split(name@, '/')[j]).len() > 0 && all_safe(
                    split(name@, '/')[j],
                ),
        decreases parts.len() - i,
    {
        assert(split(name@, '/')[i as int] == parts@[i as int]@);
        if parts[i].as_str().is_empty() || !has_only_safe_characters(parts[i].as_str()) {
            return false;
        }
        i += 1;
    }
    true
}

pub fn validate_dataset_name(name: &str) -> (res: Result<(), Error>)
    ensures
        reports(res, dataset_name_fault(name@)),
{
    if starts_with(name, "/") || crate::text::ends_with(name, "/") || name.is_empty() {
        return failure("invalid ZFS dataset name ", quoted(name).as_str());
    }
    if !has_safe_parts(name) {
        let mut message = "dataset ".to_owned();
        message.append(quoted(name).as_str());
        return failure(message.as_str(), " contains unsupported characters");
    }
    Ok(())
}

// ---------------------------------------------------------------------------
// Templates and datasets
// ---------------------------------------------------------------------------

/// A policy with the templates from `i` on applied to it; the name of the
/// first template that does not exist.
pub open spec fn overlay(
    templates: Seq<(Seq<char>, PatchModel)>,
    names: Seq<Seq<char>>,
    i: int,
    policy: PolicyModel,
) -> Result<PolicyModel, Seq<char>>
    decreases names.len() - i,
{
    if i >= names.len() {
        Ok(policy)
    } else {
        match lookup(templates, names[i]) {
            Some(patch) => overlay(templates, names, i + 1, patched(policy, patch)),
            None => Err(names[i]),
        }
    }
}

/// The policy of a section: its templates from left to right, then its own
/// values, on top of `base`.
pub open spec fn section_policy(
    templates: Seq<(Seq<char>, PatchModel)>,
    section: DatasetModel,
    base: PolicyModel,
) -> Result<PolicyModel, Seq<char>> {
    match overlay(templates, section.use_templates, 0, base) {
        Ok(policy) => Ok(patched(policy, section.policy)),
        Err(name) => Err(name),
    }
}

/// The policy of a section, or the index of the first unknown template.
fn policy_of_section(
    templates: &NameMap<PolicyPatch>,
    section: &DatasetConfig,
    base: Policy,
) -> (res: Result<Policy, usize>)
    ensures
        match (res, section_policy(templates@, section@, base@)) {
            (Ok(policy), Ok(expected)) => policy@ == expected,
            (Err(i), Err(name)) => i < section.use_templates@.len() && name
                == section.use_templates@[i as int]@,
            _ => false,
        },
{
    let ghost start = base@;
    let mut policy = base;
    let mut i: usize = 0;
    while i < section.use_templates.len()
        invariant
            i <= section.use_templates@.len(),
            start == base@,
            section@.use_templates == texts(section.use_templates@),
            overlay(templates@, section@.use_templates, 0, start) == overlay(
                templates@,
                section@.use_templates,
                i as int,
                policy@,
            ),
        decreases section.use_templates.len() - i,
    {
        assert(section@.use_templates[i as int] == section.use_templates@[i as int]@);
        match templates.get(section.use_templates[i].as_str()) {
            Some(patch) => policy.apply(patch),
            None => {
                return Err(i);
            },
        }
        i += 1;
    }
    policy.apply(&section.policy);
    Ok(policy)
}

pub open spec fn template_fault(name: Seq<char>, patch: PatchModel) -> Option<Seq<char>> {
    if trim(name).len() == 0 {
        Some("template names cannot be empty"@)
    } else {
        policy_fault(patched(default_policy(), patch), "template "@ + debug_text(name))
    }
}

pub open spec fn templates_fault(templates: Seq<(Seq<char>, PatchModel)>, i: int) -> Option<
    Seq<char>,
>
    decreases templates.len() - i,
{
    if i >= templates.len() {
        None
    } else {
        or_else(
            template_fault(templates[i].0, templates[i].1),
            templates_fault(templates, i + 1),
        )
    }
}

fn validate_template(name: &str, patch: &PolicyPatch) -> (res: Result<(), Error>)
    ensures
        reports(res, template_fault(name@, patch@)),
{
    if trimmed(name).as_str().is_empty() {
        return Err(error("template names cannot be empty"));
    }
    let mut policy = Policy::default();
    policy.apply(patch);
    let mut context = "template ".to_owned();
    context.append(quoted(name).as_str());
    policy.validate(context.as_str())
}

pub open spec fn dataset_fault(
    templates: Seq<(Seq<char>, PatchModel)>,
    name: Seq<char>,
    section: DatasetModel,
) -> Option<Seq<char>> {
    let context = "dataset "@ + debug_text(name);
    match dataset_name_fault(name) {
        Some(message) => Some(message),
        None => if section.process_children_only && section.recursive == Recursion::Off {
            Some(context + ": process_children_only requires recursive = true"@)
        } else if section.process_children_only && section.recursive == Recursion::Zfs {
            Some(
                context
                    + ": process_children_only cannot be combined with recursive = \"zfs\""@,
            )
        } else {
            match section_policy(templates, section, default_policy()) {
                Ok(policy) => policy_fault(policy, context),
                Err(template) => Some(
                    context + " references unknown template "@ + debug_text(template),
                ),
            }
        },
    }
}

pub open spec fn datasets_fault(
    templates: Seq<(Seq<char>, PatchModel)>,
    datasets: Seq<(Seq<char>, DatasetModel)>,
    i: int,
) -> Option<Seq<char>>
    decreases datasets.len() - i,
{
    if i >= datasets.len() {
        None
    } else {
        or_else(
            dataset_fault(templates, datasets[i].0, datasets[i].1),
            datasets_fault(templates, datasets, i + 1),
        )
    }
}

fn validate_dataset(templates: &NameMap<PolicyPatch>, name: &str, section: &DatasetConfig) -> (res:
    Result<(), Error>)
    ensures
        reports(res, dataset_fault(templates@, name@, section@)),
{
    validate_dataset_name(name)?;
    let mut context = "dataset ".to_owned();
    context.append(quoted(name).as_str());
    if section.process_children_only && section.recursive == Recursion::Off {
        return failure(
            context.as_str(),
            ": process_children_only requires recursive = true",
        );
    }
    if section.process_children_only && section.recursive == Recursion::Zfs {
        return failure(
            context.as_str(),
            ": process_children_only cannot be combined with recursive = \"zfs\"",
        );
    }
    match policy_of_section(templates, section, Policy::default()) {
        Ok(policy) => policy.validate(context.as_str()),
        Err(i) => {
            context.append(" references unknown template ");
            failure(context.as_str(), quoted(section.use_templates[i].as_str()).as_str())
        },
    }
}

/// The first dataset from `j` on whose name starts with a prefix.
pub open spec fn first_below(
    datasets: Seq<(Seq<char>, DatasetModel)>,
    prefix: Seq<char>,
    j: int,
) -> Option<Seq<char>>
    decreases datasets.len() - j,
{
    if j >= datasets.len() {
        None
    } else if has_prefix(datasets[j].0, prefix) {
        Some(datasets[j].0)
    } else {
        first_below(datasets, prefix, j + 1)
    }
}

/// The fault of a section beneath an atomic recursive root.
pub open spec fn nesting_fault(datasets: Seq<(Seq<char>, DatasetModel)>, i: int) -> Option<Seq<char>>
    decreases datasets.len() - i,
{
    if i >= datasets.len() {
        None
    } else {
        let root = datasets[i].0;
        match first_below(datasets, root + "/"@, 0) {
            Some(child) if datasets[i].1.recursive == Recursion::Zfs => Some(
                "dataset "@ + debug_text(child) + " is nested beneath atomic recursive dataset "@
                    + debug_text(root) + "; use recursive = true on "@ + debug_text(root)
                    + " to allow child overrides"@,
            ),
            _ => nesting_fault(datasets, i + 1),
        }
    }
}

fn find_below(datasets: &NameMap<DatasetConfig>, prefix: &str) -> (res: Option<String>)
    ensures
        optional_text(res) == first_below(datasets@, prefix@, 0),
{
    let mut j: usize = 0;
    while j < datasets.len()
        invariant
            j <= datasets@.len(),
            first_below(datasets@, prefix@, 0) == first_below(datasets@, prefix@, j as int),
        decreases datasets@.len() - j,
    {
        let name = datasets.name_at(j);
        if starts_with(name.as_str(), prefix) {
            return Some(name.clone());
        }
        j += 1;
    }
    None
}

fn validate_nesting(datasets: &NameMap<DatasetConfig>) -> (res: Result<(), Error>)
    ensures
        reports(res, nesting_fault(datasets@, 0)),
{
    let mut i: usize = 0;
    while i < datasets.len()
        invariant
            i <= datasets@.len(),
            nesting_fault(datasets@, 0) == nesting_fault(datasets@, i as int),
        decreases datasets@.len() - i,
    {
        if datasets.value_at(i).recursive == Recursion::Zfs {
            let root = datasets.name_at(i);
            let mut prefix = root.clone();
            prefix.append("/");
            if let Some(child) = find_below(datasets, prefix.as_str()) {
                let mut message = "dataset ".to_owned();
                message.append(quoted(child.as_str()).as_str());
                message.append(" is nested beneath atomic recursive dataset ");
                message.append(quoted(root.as_str()).as_str());
                message.append("; use recursive = true on ");
                message.append(quoted(root.as_str()).as_str());
                message.append(" to allow child overrides");
                return Err(Error::new(message));
            }
        }
        i += 1;
    }
    Ok(())
}

/// The first fault of a configuration.
pub open spec fn config_fault(config: ConfigModel) -> Option<Seq<char>> {
    if config.version != 1 {
        Some(
            "unsupported configuration version "@ + decimal(config.version as nat)
                + "; expected 1"@,
        )
    } else if config.datasets.len() == 0 {
        Some("configuration must contain at least one dataset"@)
    } else {
        or_else(
            settings_fault(config.settings),
            or_else(
                prefix_fault(config.settings.snapshot_prefix),
                or_else(
                    notifications_fault(config.notifications),
                    or_else(
                        templates_fault(config.templates, 0),
                        or_else(
                            datasets_fault(config.templates, config.datasets, 0),
                            nesting_fault(config.datasets, 0),
                        ),
                    ),
                ),
            ),
        )
    }
}

/// The policy of a dataset section on top of `base`.
pub open spec fn effective(config: ConfigModel, dataset: Seq<char>, base: PolicyModel) -> Result<
    PolicyModel,
    Seq<char>,
> {
    match lookup(config.datasets, dataset) {
        None => Err("missing dataset section "@ + debug_text(dataset)),
        Some(section) => section_policy(config.templates, section, base),
    }
}

/// Every template that a section names exists.
pub open spec fn templates_known(config: ConfigModel, dataset: Seq<char>) -> bool {
    match lookup(config.datasets, dataset) {
        Some(section) => forall|i: int|
            0 <= i < section.use_templates.len() ==> lookup(
                config.templates,
                #[trigger] section.use_templates[i],
            ) is Some,
        None => true,
    }
}

pub proof fn lemma_overlay_known(
    templates: Seq<(Seq<char>, PatchModel)>,
    names: Seq<Seq<char>>,
    i: int,
    policy: PolicyModel,
)
    requires
        0 <= i,
        forall|j: int|
            0 <= j < names.len() ==> lookup(templates, #[trigger] names[j]) is Some,
    ensures
        overlay(templates, names, i, policy) is Ok,
    decreases names.len() - i,
{
    if i < names.len() {
        lemma_overlay_known(templates, names, i + 1, patched(policy, lookup(templates, names[i])->0));
    }
}

impl Config {
    /// Checks every rule; the first fault is the error.
    pub fn validate(&self) -> (res: Result<(), Error>)
        ensures
            reports(res, config_fault(self@)),
    {
        if self.version != 1 {
            let mut message = "unsupported configuration version ".to_owned();
            message.append(number(self.version as u64).as_str());
            message.append("; expected 1");
            return Err(Error::new(message));
        }
        if self.datasets.is_empty() {
            return Err(error("configuration must contain at least one dataset"));
        }
        self.settings.validate()?;
        validate_prefix(self.settings.snapshot_prefix.as_str())?;
        self.notifications.validate()?;
        self.validate_templates()?;
        self.validate_datasets()?;
        validate_nesting(&self.datasets)
    }

    fn validate_templates(&self) -> (res: Result<(), Error>)
        ensures
            reports(res, templates_fault(self@.templates, 0)),
    {
        let templates = &self.templates;
        let mut i: usize = 0;
        while i < templates.len()
            invariant
                i <= templates@.len(),
                templates@ == self@.templates,
                templates_fault(templates@, 0) == templates_fault(templates@, i as int),
            decreases templates@.len() - i,
        {
            validate_template(templates.name_at(i).as_str(), templates.value_at(i))?;
            i += 1;
        }
        Ok(())
    }

    fn validate_datasets(&self) -> (res: Result<(), Error>)
        ensures
            reports(res, datasets_fault(self@.templates, self@.datasets, 0)),
    {
        let templates = &self.templates;
        let datasets = &self.datasets;
        let mut i: usize = 0;
        while i < datasets.len()
            invariant
                i <= datasets@.len(),
                templates@ == self@.templates,
                datasets@ == self@.datasets,
                datasets_fault(templates@, datasets@, 0) == datasets_fault(
                    templates@,
                    datasets@,
                    i as int,
                ),
            decreases datasets@.len() - i,
        {
            validate_dataset(templates, datasets.name_at(i).as_str(), datasets.value_at(i))?;
            i += 1;
        }
        Ok(())
    }

    /// The policy of a section on top of an inherited one.
    pub fn effective_policy(&self, dataset: &str, base: Option<&Policy>) -> (res: Result<
        Policy,
        Error,
    >)
        requires
            templates_known(self@, dataset@),
        ensures
            yields(
                res,
                effective(
                    self@,
                    dataset@,
                    match base {
                        Some(policy) => policy@,
                        None => default_policy(),
                    },
                ),
            ),
    {
        let section = match self.datasets.get(dataset) {
            Some(section) => section,
            None => {
                let mut message = "missing dataset section ".to_owned();
                message.append(quoted(dataset).as_str());
                return Err(Error::new(message));
            },
        };
        let policy = match base {
            Some(policy) => policy.clone(),
            None => Policy::default(),
        };
        proof {
            lemma_overlay_known(self.templates@, section@.use_templates, 0, policy@);
        }
        match policy_of_section(&self.templates, section, policy) {
            Ok(policy) => Ok(policy),
            Err(_) => Err(error("unknown template")),
        }
    }
}

} // verus!
