//! Configuration files as text.
use vstd::prelude::*;

use crate::config::{has_safe_parts, parts_safe, Recursion};
use crate::document::{quote_toml, toml_text};
use crate::policy::{PatchModel, PolicyPatch};
use crate::shorthand::{all_bare, has_only_bare_characters, is_reserved, is_reserved_config_header};
use crate::text::{decimal, has_prefix, join, joined, lemma_texts_push, split, starts_with, texts};

verus! {

/// The value of a setting.
pub enum Setting {
    Flag(bool),
    Number(u64),
    Text(String),
    Texts(Vec<String>),
}

/// The model of a [`Setting`].
pub enum SettingModel {
    Flag(bool),
    Number(u64),
    Text(Seq<char>),
    Texts(Seq<Seq<char>>),
}

impl View for Setting {
    type V = SettingModel;

    open spec fn view(&self) -> SettingModel {
        match *self {
            Setting::Flag(value) => SettingModel::Flag(value),
            Setting::Number(value) => SettingModel::Number(value),
            Setting::Text(value) => SettingModel::Text(value@),
            Setting::Texts(values) => SettingModel::Texts(texts(values@)),
        }
    }
}

/// Strings on lines of their own.
pub open spec fn item_lines(items: Seq<Seq<char>>) -> Seq<char>
    decreases items.len(),
{
    if items.len() == 0 {
        Seq::empty()
    } else {
        item_lines(items.drop_last()) + "\n    "@ + toml_text(items.last()) + ","@
    }
}

/// A value in TOML. An array of two strings or more has a line for each.
pub open spec fn value_text(value: SettingModel) -> Seq<char> {
    match value {
        SettingModel::Flag(true) => "true"@,
        SettingModel::Flag(false) => "false"@,
        SettingModel::Number(value) => decimal(value as nat),
        SettingModel::Text(value) => toml_text(value),
        SettingModel::Texts(values) => if values.len() == 0 {
            "[]"@
        } else if values.len() == 1 {
            "["@ + toml_text(values[0]) + "]"@
        } else {
            "["@ + item_lines(values) + "\n]"@
        },
    }
}

/// A setting on a line.
pub open spec fn setting_line(key: Seq<char>, value: SettingModel) -> Seq<char> {
    key + " = "@ + value_text(value) + "\n"@
}

/// Renders a table of one entry with `toml::to_string_pretty`. Under a key that
/// needs no quotes, the crate writes the key, an equals sign and the value on a
/// line: numbers and truth values in plain, strings as `toml::Value::String`
/// displays them, and an array of two strings or more over several lines.
/// None of these values is one that the crate cannot render.
#[verifier::external_body]
fn render_setting(key: &str, value: Setting) -> (res: Result<String, String>)
    requires
        key@.len() > 0,
        all_bare(key@),
    ensures
        match res {
            Ok(line) => line@ == setting_line(key@, value@),
            Err(_) => false,
        },
{
    let rendered = match value {
        Setting::Flag(value) => toml::to_string_pretty(&std::collections::BTreeMap::from([(key, value)])),
        Setting::Number(value) => toml::to_string_pretty(&std::collections::BTreeMap::from([(key, value)])),
        Setting::Text(value) => toml::to_string_pretty(&std::collections::BTreeMap::from([(key, value)])),
        Setting::Texts(value) => toml::to_string_pretty(&std::collections::BTreeMap::from([(key, value)])),
    };
    match rendered {
        Ok(line) => Ok(line),
        Err(e) => Err(e.to_string()),
    }
}

fn append_setting(out: &mut String, key: &str, value: Setting)
    requires
        key@.len() > 0,
        all_bare(key@),
    ensures
        final(out)@ == old(out)@ + setting_line(key@, value@),
{
    if let Ok(line) = render_setting(key, value) {
        out.append(line.as_str());
    }
}

// ---------------------------------------------------------------------------
// Policies
// ---------------------------------------------------------------------------

pub open spec fn flag_line(key: Seq<char>, value: Option<bool>) -> Seq<char> {
    match value {
        Some(value) => setting_line(key, SettingModel::Flag(value)),
        None => Seq::empty(),
    }
}

fn append_flag(out: &mut String, key: &str, value: Option<bool>)
    requires
        key@.len() > 0,
        all_bare(key@),
    ensures
        final(out)@ == old(out)@ + flag_line(key@, value),
{
    match value {
        Some(value) => append_setting(out, key, Setting::Flag(value)),
        None => {
            assert(out@ =~= out@ + flag_line(key@, value));
        },
    }
}

pub open spec fn number_line(key: Seq<char>, value: Option<u32>) -> Seq<char> {
    match value {
        Some(value) => setting_line(key, SettingModel::Number(value as u64)),
        None => Seq::empty(),
    }
}

fn append_number(out: &mut String, key: &str, value: Option<u32>)
    requires
        key@.len() > 0,
        all_bare(key@),
    ensures
        final(out)@ == old(out)@ + number_line(key@, value),
{
    match value {
        Some(value) => append_setting(out, key, Setting::Number(value as u64)),
        None => {
            assert(out@ =~= out@ + number_line(key@, value));
        },
    }
}

pub open spec fn small_line(key: Seq<char>, value: Option<u8>) -> Seq<char> {
    match value {
        Some(value) => setting_line(key, SettingModel::Number(value as u64)),
        None => Seq::empty(),
    }
}

fn append_small(out: &mut String, key: &str, value: Option<u8>)
    requires
        key@.len() > 0,
        all_bare(key@),
    ensures
        final(out)@ == old(out)@ + small_line(key@, value),
{
    match value {
        Some(value) => append_setting(out, key, Setting::Number(value as u64)),
        None => {
            assert(out@ =~= out@ + small_line(key@, value));
        },
    }
}

pub open spec fn large_line(key: Seq<char>, value: Option<u64>) -> Seq<char> {
    match value {
        Some(value) => setting_line(key, SettingModel::Number(value)),
        None => Seq::empty(),
    }
}

fn append_large(out: &mut String, key: &str, value: Option<u64>)
    requires
        key@.len() > 0,
        all_bare(key@),
    ensures
        final(out)@ == old(out)@ + large_line(key@, value),
{
    match value {
        Some(value) => append_setting(out, key, Setting::Number(value)),
        None => {
            assert(out@ =~= out@ + large_line(key@, value));
        },
    }
}

pub open spec fn hook_line(key: Seq<char>, value: Option<Seq<Seq<char>>>) -> Seq<char> {
    match value {
        Some(value) => setting_line(key, SettingModel::Texts(value)),
        None => Seq::empty(),
    }
}

fn append_hook(out: &mut String, key: &str, value: &Option<Vec<String>>)
    requires
        key@.len() > 0,
        all_bare(key@),
    ensures
        final(out)@ == old(out)@ + hook_line(key@, crate::policy::optional_texts(*value)),
{
    match value {
        Some(value) => append_setting(out, key, Setting::Texts(crate::text::copy_texts(value))),
        None => {
            assert(out@ =~= out@ + Seq::<char>::empty());
        },
    }
}

/// The lines of a policy: the switches and the retention.
pub open spec fn retention_lines(before: Seq<char>, policy: PatchModel) -> Seq<char> {
    before + flag_line("autosnap"@, policy.autosnap) + flag_line("autoprune"@, policy.autoprune) + number_line("frequently"@, policy.frequently) + number_line("hourly"@, policy.hourly) + number_line("daily"@, policy.daily) + number_line("weekly"@, policy.weekly) + number_line("monthly"@, policy.monthly) + number_line("yearly"@, policy.yearly)
}

fn append_retention(out: &mut String, policy: &PolicyPatch)
    ensures
        final(out)@ == retention_lines(old(out)@, policy@),
{
    proof {
        reveal_strlit("autosnap");
        reveal_strlit("autoprune");
        reveal_strlit("frequently");
        reveal_strlit("hourly");
        reveal_strlit("daily");
        reveal_strlit("weekly");
        reveal_strlit("monthly");
        reveal_strlit("yearly");
    }
    append_flag(out, "autosnap", policy.autosnap);
    append_flag(out, "autoprune", policy.autoprune);
    append_number(out, "frequently", policy.frequently);
    append_number(out, "hourly", policy.hourly);
    append_number(out, "daily", policy.daily);
    append_number(out, "weekly", policy.weekly);
    append_number(out, "monthly", policy.monthly);
    append_number(out, "yearly", policy.yearly);
}

/// The lines of a policy: the schedules up to the weekly one.
pub open spec fn early_lines(before: Seq<char>, policy: PatchModel) -> Seq<char> {
    before + number_line("frequent_period"@, policy.frequent_period) + number_line("hourly_min"@, policy.hourly_min) + number_line("daily_hour"@, policy.daily_hour) + number_line("daily_min"@, policy.daily_min) + number_line("weekly_wday"@, policy.weekly_wday) + number_line("weekly_hour"@, policy.weekly_hour) + number_line("weekly_min"@, policy.weekly_min)
}

fn append_early(out: &mut String, policy: &PolicyPatch)
    ensures
        final(out)@ == early_lines(old(out)@, policy@),
{
    proof {
        reveal_strlit("frequent_period");
        reveal_strlit("hourly_min");
        reveal_strlit("daily_hour");
        reveal_strlit("daily_min");
        reveal_strlit("weekly_wday");
        reveal_strlit("weekly_hour");
        reveal_strlit("weekly_min");
    }
    append_number(out, "frequent_period", policy.frequent_period);
    append_number(out, "hourly_min", policy.hourly_min);
    append_number(out, "daily_hour", policy.daily_hour);
    append_number(out, "daily_min", policy.daily_min);
    append_number(out, "weekly_wday", policy.weekly_wday);
    append_number(out, "weekly_hour", policy.weekly_hour);
    append_number(out, "weekly_min", policy.weekly_min);
}

/// The lines of a policy: the monthly and yearly schedules.
pub open spec fn late_lines(before: Seq<char>, policy: PatchModel) -> Seq<char> {
    before + number_line("monthly_mday"@, policy.monthly_mday) + number_line("monthly_hour"@, policy.monthly_hour) + number_line("monthly_min"@, policy.monthly_min) + number_line("yearly_mon"@, policy.yearly_mon) + number_line("yearly_mday"@, policy.yearly_mday) + number_line("yearly_hour"@, policy.yearly_hour) + number_line("yearly_min"@, policy.yearly_min)
}

fn append_late(out: &mut String, policy: &PolicyPatch)
    ensures
        final(out)@ == late_lines(old(out)@, policy@),
{
    proof {
        reveal_strlit("monthly_mday");
        reveal_strlit("monthly_hour");
        reveal_strlit("monthly_min");
        reveal_strlit("yearly_mon");
        reveal_strlit("yearly_mday");
        reveal_strlit("yearly_hour");
        reveal_strlit("yearly_min");
    }
    append_number(out, "monthly_mday", policy.monthly_mday);
    append_number(out, "monthly_hour", policy.monthly_hour);
    append_number(out, "monthly_min", policy.monthly_min);
    append_number(out, "yearly_mon", policy.yearly_mon);
    append_number(out, "yearly_mday", policy.yearly_mday);
    append_number(out, "yearly_hour", policy.yearly_hour);
    append_number(out, "yearly_min", policy.yearly_min);
}

/// The lines of a policy: pruning and the hooks.
pub open spec fn pruning_lines(before: Seq<char>, policy: PatchModel) -> Seq<char> {
    before + small_line("prune_defer"@, policy.prune_defer) + hook_line("pre_snapshot_script"@, policy.pre_snapshot_script) + hook_line("post_snapshot_script"@, policy.post_snapshot_script) + hook_line("pre_pruning_script"@, policy.pre_pruning_script) + hook_line("pruning_script"@, policy.pruning_script)
}

fn append_pruning(out: &mut String, policy: &PolicyPatch)
    ensures
        final(out)@ == pruning_lines(old(out)@, policy@),
{
    proof {
        reveal_strlit("prune_defer");
        reveal_strlit("pre_snapshot_script");
        reveal_strlit("post_snapshot_script");
        reveal_strlit("pre_pruning_script");
        reveal_strlit("pruning_script");
    }
    append_small(out, "prune_defer", policy.prune_defer);
    append_hook(out, "pre_snapshot_script", &policy.pre_snapshot_script);
    append_hook(out, "post_snapshot_script", &policy.post_snapshot_script);
    append_hook(out, "pre_pruning_script", &policy.pre_pruning_script);
    append_hook(out, "pruning_script", &policy.pruning_script);
}

/// The lines of a policy: the rest.
pub open spec fn scripts_lines(before: Seq<char>, policy: PatchModel) -> Seq<char> {
    before + large_line("script_timeout"@, policy.script_timeout) + flag_line("no_inconsistent_snapshot"@, policy.no_inconsistent_snapshot) + flag_line("force_post_snapshot_script"@, policy.force_post_snapshot_script)
}

fn append_scripts(out: &mut String, policy: &PolicyPatch)
    ensures
        final(out)@ == scripts_lines(old(out)@, policy@),
{
    proof {
        reveal_strlit("script_timeout");
        reveal_strlit("no_inconsistent_snapshot");
        reveal_strlit("force_post_snapshot_script");
    }
    append_large(out, "script_timeout", policy.script_timeout);
    append_flag(out, "no_inconsistent_snapshot", policy.no_inconsistent_snapshot);
    append_flag(out, "force_post_snapshot_script", policy.force_post_snapshot_script);
}

/// The lines of a policy, after the text before them.
pub open spec fn policy_lines(before: Seq<char>, policy: PatchModel) -> Seq<char> {
    scripts_lines(
        pruning_lines(
            late_lines(early_lines(retention_lines(before, policy), policy), policy),
            policy,
        ),
        policy,
    )
}

pub fn append_policy(out: &mut String, policy: &PolicyPatch)
    ensures
        final(out)@ == policy_lines(old(out)@, policy@),
{
    append_retention(out, policy);
    append_early(out, policy);
    append_late(out, policy);
    append_pruning(out, policy);
    append_scripts(out, policy);
}

// ---------------------------------------------------------------------------
// Sections
// ---------------------------------------------------------------------------

/// The header of a template: the short form where the name needs no quotes.
pub open spec fn template_title(name: Seq<char>) -> Seq<char> {
    if name.len() > 0 && all_bare(name) {
        "[template_"@ + name + "]"@
    } else {
        "[templates."@ + toml_text(name) + "]"@
    }
}

pub fn render_template_header(name: &str) -> (res: String)
    ensures
        res@ == template_title(name@),
{
    if !name.is_empty() && has_only_bare_characters(name) {
        let mut res = "[template_".to_owned();
        res.append(name);
        res.append("]");
        res
    } else {
        let mut res = "[templates.".to_owned();
        res.append(quote_toml(name).as_str());
        res.append("]");
        res
    }
}

/// Whether a dataset can stand in a header by its name alone: the header is not
/// that of a template or of another table.
pub open spec fn stands_alone(name: Seq<char>) -> bool {
    &&& name.len() > 0
    &&& !has_prefix(name, "template_"@)
    &&& !is_reserved(name)
    &&& parts_safe(split(name, '/'))
}

pub fn can_use_friendly_dataset_header(name: &str) -> (res: bool)
    ensures
        res == stands_alone(name@),
{
    !name.is_empty() && !starts_with(name, "template_") && !is_reserved_config_header(name)
        && has_safe_parts(name)
}

/// The header of a dataset.
pub open spec fn dataset_title(name: Seq<char>) -> Seq<char> {
    if stands_alone(name) {
        "["@ + name + "]\n"@
    } else {
        "[datasets."@ + toml_text(name) + "]\n"@
    }
}

pub fn render_dataset_header(name: &str) -> (res: String)
    ensures
        res@ == dataset_title(name@),
{
    if can_use_friendly_dataset_header(name) {
        let mut res = "[".to_owned();
        res.append(name);
        res.append("]\n");
        res
    } else {
        let mut res = "[datasets.".to_owned();
        res.append(quote_toml(name).as_str());
        res.append("]\n");
        res
    }
}

/// Names that all do without quotes.
pub open spec fn names_bare(names: Seq<Seq<char>>) -> bool {
    forall|i: int| 0 <= i < names.len() ==> (#[trigger] names[i]).len() > 0 && all_bare(names[i])
}

/// A list of names: all bare, or all in quotes.
pub open spec fn name_list(names: Seq<Seq<char>>) -> Seq<char> {
    let items = if names_bare(names) {
        names
    } else {
        names.map_values(|name: Seq<char>| toml_text(name))
    };
    "["@ + join(items, ", "@) + "]"@
}

fn are_bare(names: &Vec<String>) -> (res: bool)
    ensures
        res == names_bare(texts(names@)),
{
    let mut i: usize = 0;
    while i < names.len()
        invariant
            i <= names@.len(),
            forall|j: int|
                0 <= j < i ==> (#[trigger] texts(names@)[j]).len() > 0 && all_bare(
                    texts(names@)[j],
                ),
        decreases names.len() - i,
    {
        assert(texts(names@)[i as int] == names@[i as int]@);
        if names[i].as_str().is_empty() || !has_only_bare_characters(names[i].as_str()) {
            return false;
        }
        i += 1;
    }
    true
}

pub fn render_template_list(names: &Vec<String>) -> (res: String)
    ensures
        res@ == name_list(texts(names@)),
{
    let mut res = "[".to_owned();
    if are_bare(names) {
        res.append(joined(names, ", ").as_str());
    } else {
        let ghost all = texts(names@);
        let mut items: Vec<String> = Vec::new();
        let mut i: usize = 0;
        while i < names.len()
            invariant
                i <= names@.len(),
                all == texts(names@),
                texts(items@) =~= all.take(i as int).map_values(|name: Seq<char>| toml_text(name)),
            decreases names.len() - i,
        {
            let item = quote_toml(names[i].as_str());
            proof {
                lemma_texts_push(items@, item);
                assert(all[i as int] == names@[i as int]@);
            }
            items.push(item);
            i += 1;
        }
        assert(all.take(i as int) =~= all);
        res.append(joined(&items, ", ").as_str());
    }
    res.append("]");
    res
}

/// The way a section recurses, on a line.
pub open spec fn recursion_line(recursive: Recursion) -> Seq<char> {
    match recursive {
        Recursion::Off => Seq::empty(),
        Recursion::Children => setting_line("recursive"@, SettingModel::Flag(true)),
        Recursion::Zfs => setting_line("recursive"@, SettingModel::Text("zfs"@)),
    }
}

/// A dataset section, after the text before it.
pub open spec fn dataset_section(
    before: Seq<char>,
    name: Seq<char>,
    templates: Seq<Seq<char>>,
    recursive: Recursion,
    children_only: bool,
    policy: PatchModel,
) -> Seq<char> {
    let titled = before + "\n"@ + dataset_title(name);
    let listed = if templates.len() == 0 {
        titled
    } else {
        titled + "use_templates = "@ + name_list(templates) + "\n"@
    };
    let placed = listed + recursion_line(recursive) + (if children_only {
        setting_line("process_children_only"@, SettingModel::Flag(true))
    } else {
        Seq::empty()
    });
    policy_lines(placed, policy)
}

pub fn append_dataset(
    out: &mut String,
    name: &str,
    templates: &Vec<String>,
    recursive: Recursion,
    children_only: bool,
    policy: &PolicyPatch,
)
    ensures
        final(out)@ == dataset_section(
            old(out)@,
            name@,
            texts(templates@),
            recursive,
            children_only,
            policy@,
        ),
{
    proof {
        reveal_strlit("recursive");
        reveal_strlit("process_children_only");
    }
    out.append("\n");
    out.append(render_dataset_header(name).as_str());
    if templates.len() > 0 {
        out.append("use_templates = ");
        out.append(render_template_list(templates).as_str());
        out.append("\n");
    }
    let ghost listed = out@;
    match recursive {
        Recursion::Off => {
            assert(listed + Seq::<char>::empty() =~= listed);
        },
        Recursion::Children => append_setting(out, "recursive", Setting::Flag(true)),
        Recursion::Zfs => append_setting(out, "recursive", Setting::Text("zfs".to_owned())),
    }
    let ghost turned = out@;
    if children_only {
        append_setting(out, "process_children_only", Setting::Flag(true));
    } else {
        assert(turned + Seq::<char>::empty() =~= turned);
    }
    append_policy(out, policy);
}

/// A template section, after the text before it.
pub open spec fn template_section(before: Seq<char>, name: Seq<char>, policy: PatchModel) -> Seq<char> {
    policy_lines(before + "\n"@ + template_title(name) + "\n"@, policy)
}

pub fn append_template(out: &mut String, name: &str, policy: &PolicyPatch)
    ensures
        final(out)@ == template_section(old(out)@, name@, policy@),
{
    out.append("\n");
    out.append(render_template_header(name).as_str());
    out.append("\n");
    append_policy(out, policy);
}

/// The sections that every migrated file starts with.
pub open spec fn file_head(before: Seq<char>) -> Seq<char> {
    before + setting_line("version"@, SettingModel::Number(1)) + "\n[settings]\n"@ + setting_line(
        "snapshot_prefix"@,
        SettingModel::Text("autosnap"@),
    ) + setting_line("timezone"@, SettingModel::Text("local"@)) + "\n[notifications]\n"@
        + setting_line("enabled"@, SettingModel::Flag(false))
}

pub fn append_file_head(out: &mut String)
    ensures
        final(out)@ == file_head(old(out)@),
{
    proof {
        reveal_strlit("version");
        reveal_strlit("snapshot_prefix");
        reveal_strlit("timezone");
        reveal_strlit("enabled");
    }
    append_setting(out, "version", Setting::Number(1));
    out.append("\n[settings]\n");
    append_setting(out, "snapshot_prefix", Setting::Text("autosnap".to_owned()));
    append_setting(out, "timezone", Setting::Text("local".to_owned()));
    out.append("\n[notifications]\n");
    append_setting(out, "enabled", Setting::Flag(false));
}

} // verus!
