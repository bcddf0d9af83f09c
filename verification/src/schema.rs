//! The schema of the configuration: from a TOML tree to a [`Config`].
use vstd::prelude::*;

use crate::complaint::{complaint, find_complaint};
use crate::config::{default_notifications, default_settings, Config, ConfigModel, DatasetConfig, DatasetModel, Notifications, NotificationsModel, Recursion, ScheduleTimezone, SecretString, Settings, SettingsModel, WebhookConfig, WebhookEvent, WebhookKind};
use crate::document::{document_of, entry_models, find, find_entry, item_models, lemma_model, parse_document, Toml, TomlModel};
use crate::error::{caused, error, plain, yields, Error, Fault};
use crate::names::{put, NameMap};
use crate::policy::{PatchModel, PolicyPatch};
use crate::shorthand::{expand_config_shorthand, expanded};
use crate::sort::{lemma_views_push, views};
use crate::text::{debug_text, lemma_texts_push, list_contains, lowercase, lowercased, quoted, same, texts, trim, trimmed};
use crate::webhook::WebhookModel;

verus! {

/// The settings of a policy, in the order of their fields.
pub open spec fn policy_keys() -> Seq<Seq<char>> {
    seq![
        "autosnap"@,
        "autoprune"@,
        "frequently"@,
        "hourly"@,
        "daily"@,
        "weekly"@,
        "monthly"@,
        "yearly"@,
        "frequent_period"@,
        "hourly_min"@,
        "daily_hour"@,
        "daily_min"@,
        "weekly_wday"@,
        "weekly_hour"@,
        "weekly_min"@,
        "monthly_mday"@,
        "monthly_hour"@,
        "monthly_min"@,
        "yearly_mon"@,
        "yearly_mday"@,
        "yearly_hour"@,
        "yearly_min"@,
        "prune_defer"@,
        "pre_snapshot_script"@,
        "post_snapshot_script"@,
        "pre_pruning_script"@,
        "pruning_script"@,
        "script_timeout"@,
        "no_inconsistent_snapshot"@,
        "force_post_snapshot_script"@,
    ]
}

pub fn policy_key_list() -> (res: Vec<String>)
    ensures
        texts(res@) == policy_keys(),
{
    let mut keys: Vec<String> = Vec::new();
    keys.push("autosnap".to_owned());
    keys.push("autoprune".to_owned());
    keys.push("frequently".to_owned());
    keys.push("hourly".to_owned());
    keys.push("daily".to_owned());
    keys.push("weekly".to_owned());
    keys.push("monthly".to_owned());
    keys.push("yearly".to_owned());
    keys.push("frequent_period".to_owned());
    keys.push("hourly_min".to_owned());
    keys.push("daily_hour".to_owned());
    keys.push("daily_min".to_owned());
    keys.push("weekly_wday".to_owned());
    keys.push("weekly_hour".to_owned());
    keys.push("weekly_min".to_owned());
    keys.push("monthly_mday".to_owned());
    keys.push("monthly_hour".to_owned());
    keys.push("monthly_min".to_owned());
    keys.push("yearly_mon".to_owned());
    keys.push("yearly_mday".to_owned());
    keys.push("yearly_hour".to_owned());
    keys.push("yearly_min".to_owned());
    keys.push("prune_defer".to_owned());
    keys.push("pre_snapshot_script".to_owned());
    keys.push("post_snapshot_script".to_owned());
    keys.push("pre_pruning_script".to_owned());
    keys.push("pruning_script".to_owned());
    keys.push("script_timeout".to_owned());
    keys.push("no_inconsistent_snapshot".to_owned());
    keys.push("force_post_snapshot_script".to_owned());
    assert(texts(keys@) =~= policy_keys());
    keys
}

// ---------------------------------------------------------------------------
// Inline policies
// ---------------------------------------------------------------------------

/// The entries with a value in place of the first under a key, or with one
/// entry more.
pub open spec fn set(
    entries: Seq<(Seq<char>, TomlModel)>,
    key: Seq<char>,
    value: TomlModel,
) -> Seq<(Seq<char>, TomlModel)>
    decreases entries.len(),
{
    if entries.len() == 0 {
        seq![(key, value)]
    } else if entries[0].0 == key {
        seq![(key, value)] + entries.drop_first()
    } else {
        seq![entries[0]] + set(entries.drop_first(), key, value)
    }
}

/// The policy settings from key `i` on that a dataset section gives directly.
pub open spec fn inline_from(entries: Seq<(Seq<char>, TomlModel)>, i: int) -> Seq<
    (Seq<char>, TomlModel),
>
    decreases policy_keys().len() - i,
{
    if i >= policy_keys().len() {
        Seq::empty()
    } else {
        match find(entries, policy_keys()[i]) {
            Some(value) => seq![(policy_keys()[i], value)] + inline_from(entries, i + 1),
            None => inline_from(entries, i + 1),
        }
    }
}

/// The first `n` entries without the policy settings among them.
pub open spec fn without_inline(entries: Seq<(Seq<char>, TomlModel)>, n: int) -> Seq<
    (Seq<char>, TomlModel),
>
    decreases n,
{
    if n <= 0 {
        Seq::empty()
    } else if policy_keys().contains(entries[n - 1].0) {
        without_inline(entries, n - 1)
    } else {
        without_inline(entries, n - 1).push(entries[n - 1])
    }
}

/// A policy table with the inline settings from `i` on added; a setting may
/// stand in one place only.
pub open spec fn merged_policy(
    dataset: Seq<char>,
    policy: Seq<(Seq<char>, TomlModel)>,
    inline: Seq<(Seq<char>, TomlModel)>,
    i: int,
) -> Result<Seq<(Seq<char>, TomlModel)>, Fault>
    decreases inline.len() - i,
{
    if i >= inline.len() {
        Ok(policy)
    } else if find(policy, inline[i].0) is Some {
        Err(plain(
            "dataset "@ + debug_text(dataset) + " defines policy setting "@ + debug_text(
                inline[i].0,
            ) + " both inline and in its policy table"@,
        ))
    } else {
        merged_policy(dataset, policy.push(inline[i]), inline, i + 1)
    }
}

/// The policy table of a section, empty where there is none.
pub open spec fn policy_table(entries: Seq<(Seq<char>, TomlModel)>) -> TomlModel {
    match find(entries, "policy"@) {
        Some(value) => value,
        None => TomlModel::Table(Seq::empty()),
    }
}

/// A dataset section with its inline policy settings in its policy table.
pub open spec fn normalized_dataset(name: Seq<char>, section: TomlModel) -> Result<
    TomlModel,
    Fault,
> {
    match section {
        TomlModel::Table(entries) => {
            let inline = inline_from(entries, 0);
            let rest = without_inline(entries, entries.len() as int);
            if inline.len() == 0 {
                Ok(section)
            } else {
                match policy_table(rest) {
                    TomlModel::Table(policy) => match merged_policy(name, policy, inline, 0) {
                        Ok(merged) => Ok(
                            TomlModel::Table(set(rest, "policy"@, TomlModel::Table(merged))),
                        ),
                        Err(message) => Err(message),
                    },
                    _ => Err(plain("dataset "@ + debug_text(name) + " policy must be a table"@)),
                }
            }
        },
        _ => Err(plain("dataset "@ + debug_text(name) + " must be a table"@)),
    }
}

/// The dataset sections from `i` on, normalised, after those before.
pub open spec fn normalized_datasets(
    sections: Seq<(Seq<char>, TomlModel)>,
    i: int,
    done: Seq<(Seq<char>, TomlModel)>,
) -> Result<Seq<(Seq<char>, TomlModel)>, Fault>
    decreases sections.len() - i,
{
    if i >= sections.len() {
        Ok(done)
    } else {
        match normalized_dataset(sections[i].0, sections[i].1) {
            Err(message) => Err(message),
            Ok(section) => normalized_datasets(
                sections,
                i + 1,
                done.push((sections[i].0, section)),
            ),
        }
    }
}

/// A document with normalised dataset sections.
pub open spec fn normalized(document: TomlModel) -> Result<TomlModel, Fault> {
    match document {
        TomlModel::Table(root) => match find(root, "datasets"@) {
            None => Ok(document),
            Some(TomlModel::Table(sections)) => match normalized_datasets(
                sections,
                0,
                Seq::empty(),
            ) {
                Ok(done) => Ok(TomlModel::Table(set(root, "datasets"@, TomlModel::Table(done)))),
                Err(message) => Err(message),
            },
            Some(_) => Err(plain("datasets must be a table"@)),
        },
        _ => Ok(document),
    }
}

proof fn lemma_entries_push(entries: Seq<(String, Toml)>, entry: (String, Toml))
    ensures
        entry_models(entries.push(entry)) == entry_models(entries).push((entry.0@, entry.1@)),
{
    assert(entry_models(entries.push(entry)) =~= entry_models(entries).push(
        (entry.0@, entry.1@),
    ));
}

fn copy_items(items: &Vec<Toml>) -> (res: Vec<Toml>)
    ensures
        item_models(res@) == item_models(items@),
    decreases *items, 1int,
{
    let mut copies: Vec<Toml> = Vec::new();
    let mut i: usize = 0;
    while i < items.len()
        invariant
            i <= items@.len(),
            item_models(copies@) == item_models(items@).take(i as int),
        decreases items.len() - i,
    {
        let copy = copy_value(&items[i]);
        proof {
            assert(item_models(copies@.push(copy)) =~= item_models(copies@).push(copy@));
            assert(item_models(items@).take(i + 1) =~= item_models(items@).take(i as int).push(
                copy@,
            ));
        }
        copies.push(copy);
        i += 1;
    }
    assert(item_models(items@).take(i as int) =~= item_models(items@));
    copies
}

fn copy_entries(entries: &Vec<(String, Toml)>) -> (res: Vec<(String, Toml)>)
    ensures
        entry_models(res@) == entry_models(entries@),
    decreases *entries, 1int,
{
    let mut copies: Vec<(String, Toml)> = Vec::new();
    let mut i: usize = 0;
    while i < entries.len()
        invariant
            i <= entries@.len(),
            entry_models(copies@) == entry_models(entries@).take(i as int),
        decreases entries.len() - i,
    {
        assert(decreases_to!(entries@[i as int] => entries@[i as int].1));
        let copy = (entries[i].0.clone(), copy_value(&entries[i].1));
        proof {
            lemma_entries_push(copies@, copy);
            assert(entry_models(entries@).take(i + 1) =~= entry_models(entries@).take(
                i as int,
            ).push((copy.0@, copy.1@)));
        }
        copies.push(copy);
        i += 1;
    }
    assert(entry_models(entries@).take(i as int) =~= entry_models(entries@));
    copies
}

fn copy_value(value: &Toml) -> (res: Toml)
    ensures
        res@ == value@,
    decreases *value, 0int,
{
    proof {
        lemma_model(*value);
    }
    let copy = match value {
        Toml::Text(text) => Toml::Text(text.clone()),
        Toml::Integer(number) => Toml::Integer(*number),
        Toml::Boolean(value) => Toml::Boolean(*value),
        Toml::Float => Toml::Float,
        Toml::Datetime(text) => Toml::Datetime(text.clone()),
        Toml::Array(items) => Toml::Array(copy_items(items)),
        Toml::Table(entries) => Toml::Table(copy_entries(entries)),
    };
    proof {
        lemma_model(copy);
    }
    copy
}

fn inline_settings(entries: &Vec<(String, Toml)>) -> (res: Vec<(String, Toml)>)
    ensures
        entry_models(res@) == inline_from(entry_models(entries@), 0),
{
    let keys = policy_key_list();
    let ghost all = entry_models(entries@);
    let mut found: Vec<(String, Toml)> = Vec::new();
    let mut i: usize = 0;
    assert(texts(keys@).len() == keys@.len());
    assert(entry_models(found@) + inline_from(all, 0) =~= inline_from(all, 0));
    while i < keys.len()
        invariant
            i <= keys@.len(),
            keys@.len() == policy_keys().len(),
            texts(keys@) == policy_keys(),
            all == entry_models(entries@),
            entry_models(found@) + inline_from(all, i as int) == inline_from(all, 0),
        decreases keys.len() - i,
    {
        assert(policy_keys()[i as int] == keys@[i as int]@);
        if let Some(value) = find_entry(entries, keys[i].as_str()) {
            let entry = (keys[i].clone(), copy_value(value));
            let ghost done = entry_models(found@);
            let ghost rest = inline_from(all, i + 1);
            proof {
                lemma_entries_push(found@, entry);
                assert(done + (seq![(entry.0@, entry.1@)] + rest) =~= done.push(
                    (entry.0@, entry.1@),
                ) + rest);
            }
            found.push(entry);
        }
        i += 1;
    }
    assert(entry_models(found@) + inline_from(all, i as int) =~= entry_models(found@));
    found
}

fn other_settings(entries: &Vec<(String, Toml)>) -> (res: Vec<(String, Toml)>)
    ensures
        entry_models(res@) == without_inline(entry_models(entries@), entries@.len() as int),
{
    let keys = policy_key_list();
    let ghost all = entry_models(entries@);
    let mut found: Vec<(String, Toml)> = Vec::new();
    let mut i: usize = 0;
    assert(entry_models(found@) =~= Seq::<(Seq<char>, TomlModel)>::empty());
    while i < entries.len()
        invariant
            i <= entries@.len(),
            texts(keys@) == policy_keys(),
            all == entry_models(entries@),
            entry_models(found@) == without_inline(all, i as int),
        decreases entries.len() - i,
    {
        assert(all[i as int] == (entries@[i as int].0@, entries@[i as int].1@));
        if !list_contains(&keys, entries[i].0.as_str()) {
            let entry = (entries[i].0.clone(), copy_value(&entries[i].1));
            proof {
                lemma_entries_push(found@, entry);
            }
            found.push(entry);
        }
        i += 1;
    }
    found
}

fn merge_policy(dataset: &str, policy: Vec<(String, Toml)>, inline: &Vec<(String, Toml)>) -> (res:
    Result<Vec<(String, Toml)>, Error>)
    ensures
        match (
            res,
            merged_policy(dataset@, entry_models(policy@), entry_models(inline@), 0),
        ) {
            (Ok(merged), Ok(expected)) => entry_models(merged@) == expected,
            (Err(e), Err(message)) => e@ == message,
            _ => false,
        },
{
    let ghost start = entry_models(policy@);
    let ghost all = entry_models(inline@);
    let mut merged = policy;
    let mut i: usize = 0;
    while i < inline.len()
        invariant
            i <= inline@.len(),
            start == entry_models(policy@),
            all == entry_models(inline@),
            merged_policy(dataset@, start, all, 0) == merged_policy(
                dataset@,
                entry_models(merged@),
                all,
                i as int,
            ),
        decreases inline.len() - i,
    {
        assert(all[i as int] == (inline@[i as int].0@, inline@[i as int].1@));
        let key = &inline[i].0;
        if find_entry(&merged, key.as_str()).is_some() {
            let mut message = "dataset ".to_owned();
            message.append(quoted(dataset).as_str());
            message.append(" defines policy setting ");
            message.append(quoted(key.as_str()).as_str());
            message.append(" both inline and in its policy table");
            return Err(Error::new(message));
        }
        let entry = (key.clone(), copy_value(&inline[i].1));
        proof {
            lemma_entries_push(merged@, entry);
        }
        merged.push(entry);
        i += 1;
    }
    Ok(merged)
}

fn set_entry(entries: &Vec<(String, Toml)>, key: &str, value: Toml) -> (res: Vec<(String, Toml)>)
    ensures
        entry_models(res@) == set(entry_models(entries@), key@, value@),
{
    let ghost all = entry_models(entries@);
    let mut result: Vec<(String, Toml)> = Vec::new();
    let mut i: usize = 0;
    assert(all.skip(0) =~= all);
    assert(entry_models(result@) + set(all.skip(0), key@, value@) =~= set(all, key@, value@));
    while i < entries.len()
        invariant
            i <= entries@.len(),
            all == entry_models(entries@),
            entry_models(result@) + set(all.skip(i as int), key@, value@) == set(
                all,
                key@,
                value@,
            ),
        decreases entries.len() - i,
    {
        let ghost rest = all.skip(i as int);
        let ghost done = entry_models(result@);
        assert(rest[0] == (entries@[i as int].0@, entries@[i as int].1@));
        assert(rest.drop_first() =~= all.skip(i + 1));
        if same(entries[i].0.as_str(), key) {
            let entry = (key.to_owned(), value);
            proof {
                lemma_entries_push(result@, entry);
            }
            result.push(entry);
            let ghost tail = all.skip(i + 1);
            assert(done + (seq![(key@, value@)] + tail) =~= done.push((key@, value@)) + tail);
            let mut j: usize = i + 1;
            assert(all.skip(j as int) =~= tail);
            while j < entries.len()
                invariant
                    i < j <= entries@.len(),
                    all == entry_models(entries@),
                    entry_models(result@) + all.skip(j as int) == set(all, key@, value@),
                decreases entries.len() - j,
            {
                let entry = (entries[j].0.clone(), copy_value(&entries[j].1));
                let ghost before_push = entry_models(result@);
                proof {
                    lemma_entries_push(result@, entry);
                    assert(all[j as int] == (entry.0@, entry.1@));
                    assert(before_push + all.skip(j as int) =~= before_push.push(
                        (entry.0@, entry.1@),
                    ) + all.skip(j + 1));
                }
                result.push(entry);
                j += 1;
            }
            assert(entry_models(result@) + all.skip(j as int) =~= entry_models(result@));
            return result;
        }
        let entry = (entries[i].0.clone(), copy_value(&entries[i].1));
        proof {
            lemma_entries_push(result@, entry);
            let tail = set(all.skip(i + 1), key@, value@);
            assert(done + (seq![rest[0]] + tail) =~= done.push(rest[0]) + tail);
        }
        result.push(entry);
        i += 1;
    }
    let entry = (key.to_owned(), value);
    proof {
        lemma_entries_push(result@, entry);
        assert(all.skip(i as int) =~= Seq::<(Seq<char>, TomlModel)>::empty());
        assert(entry_models(result@) + seq![(key@, value@)] =~= entry_models(result@).push(
            (key@, value@),
        ));
    }
    result.push(entry);
    result
}

fn normalize_dataset(name: &str, section: &Toml) -> (res: Result<Toml, Error>)
    ensures
        yields(res, normalized_dataset(name@, section@)),
{
    proof {
        lemma_model(*section);
    }
    let entries = match section {
        Toml::Table(entries) => entries,
        _ => {
            let mut message = "dataset ".to_owned();
            message.append(quoted(name).as_str());
            message.append(" must be a table");
            return Err(Error::new(message));
        },
    };
    let inline = inline_settings(entries);
    assert(entry_models(inline@).len() == inline@.len());
    assert(entry_models(entries@).len() == entries@.len());
    if inline.len() == 0 {
        return Ok(copy_value(section));
    }
    let rest = other_settings(entries);
    let policy = match find_entry(&rest, "policy") {
        None => {
            let none: Vec<(String, Toml)> = Vec::new();
            assert(entry_models(none@) =~= Seq::<(Seq<char>, TomlModel)>::empty());
            none
        },
        Some(value) => {
            proof {
                lemma_model(*value);
            }
            match value {
                Toml::Table(policy) => copy_entries(policy),
                _ => {
                    let mut message = "dataset ".to_owned();
                    message.append(quoted(name).as_str());
                    message.append(" policy must be a table");
                    return Err(Error::new(message));
                },
            }
        },
    };
    match merge_policy(name, policy, &inline) {
        Err(e) => Err(e),
        Ok(merged) => {
            let table = Toml::Table(merged);
            proof {
                lemma_model(table);
            }
            let result = Toml::Table(set_entry(&rest, "policy", table));
            proof {
                lemma_model(result);
            }
            Ok(result)
        },
    }
}

/// Moves the policy settings that dataset sections give directly into their
/// policy tables.
pub fn normalize_inline_dataset_policies(document: Toml) -> (res: Result<Toml, Error>)
    ensures
        yields(res, normalized(document@)),
{
    proof {
        lemma_model(document);
    }
    let root = match &document {
        Toml::Table(root) => root,
        _ => {
            return Ok(document);
        },
    };
    let sections = match find_entry(root, "datasets") {
        None => {
            return Ok(document);
        },
        Some(value) => {
            proof {
                lemma_model(*value);
            }
            match value {
                Toml::Table(sections) => sections,
                _ => {
                    return Err(error("datasets must be a table"));
                },
            }
        },
    };
    let ghost all = entry_models(sections@);
    let mut done: Vec<(String, Toml)> = Vec::new();
    let mut i: usize = 0;
    assert(entry_models(done@) =~= Seq::<(Seq<char>, TomlModel)>::empty());
    while i < sections.len()
        invariant
            i <= sections@.len(),
            all == entry_models(sections@),
            find(entry_models(root@), "datasets"@) == Some(TomlModel::Table(all)),
            document@ == TomlModel::Table(entry_models(root@)),
            normalized_datasets(all, 0, Seq::empty()) == normalized_datasets(
                all,
                i as int,
                entry_models(done@),
            ),
        decreases sections.len() - i,
    {
        assert(all[i as int] == (sections@[i as int].0@, sections@[i as int].1@));
        match normalize_dataset(sections[i].0.as_str(), &sections[i].1) {
            Err(e) => {
                return Err(e);
            },
            Ok(section) => {
                let entry = (sections[i].0.clone(), section);
                proof {
                    lemma_entries_push(done@, entry);
                }
                done.push(entry);
            },
        }
        i += 1;
    }
    let table = Toml::Table(done);
    proof {
        lemma_model(table);
    }
    let result = Toml::Table(set_entry(root, "datasets", table));
    proof {
        lemma_model(result);
    }
    Ok(result)
}

// ---------------------------------------------------------------------------
// Records
// ---------------------------------------------------------------------------

/// Every key of a table is one of the fields.
pub open spec fn keys_known(entries: Seq<(Seq<char>, TomlModel)>, fields: Seq<Seq<char>>) -> bool {
    forall|i: int| 0 <= i < entries.len() ==> fields.contains((#[trigger] entries[i]).0)
}

/// The values of the fields of a record: a table with no other keys, or an
/// array of the values in the order of the fields.
pub open spec fn record(value: TomlModel, fields: Seq<Seq<char>>) -> Option<
    Seq<Option<TomlModel>>,
> {
    match value {
        TomlModel::Table(entries) => if keys_known(entries, fields) {
            Some(fields.map_values(|field: Seq<char>| find(entries, field)))
        } else {
            None
        },
        TomlModel::Array(items) => if items.len() <= fields.len() {
            Some(
                Seq::new(
                    fields.len(),
                    |i: int|
                        if i < items.len() {
                            Some(items[i])
                        } else {
                            None
                        },
                ),
            )
        } else {
            None
        },
        _ => None,
    }
}

pub open spec fn optional_model(field: Option<&Toml>) -> Option<TomlModel> {
    match field {
        Some(value) => Some(value@),
        None => None,
    }
}

pub open spec fn optional_models(fields: Seq<Option<&Toml>>) -> Seq<Option<TomlModel>> {
    fields.map_values(|field: Option<&Toml>| optional_model(field))
}

fn read_record<'a>(value: &'a Toml, fields: &Vec<String>) -> (res: Option<Vec<Option<&'a Toml>>>)
    ensures
        match res {
            Some(values) => record(value@, texts(fields@)) == Some(optional_models(values@))
                && values@.len() == fields@.len(),
            None => record(value@, texts(fields@)) is None,
        },
{
    proof {
        lemma_model(*value);
    }
    assert(texts(fields@).len() == fields@.len());
    match value {
        Toml::Table(entries) => {
            let ghost all = entry_models(entries@);
            let mut i: usize = 0;
            while i < entries.len()
                invariant
                    i <= entries@.len(),
                    all == entry_models(entries@),
                    value@ == TomlModel::Table(all),
                    forall|j: int| 0 <= j < i ==> texts(fields@).contains((#[trigger] all[j]).0),
                decreases entries.len() - i,
            {
                assert(all[i as int] == (entries@[i as int].0@, entries@[i as int].1@));
                if !list_contains(fields, entries[i].0.as_str()) {
                    return None;
                }
                i += 1;
            }
            let mut values: Vec<Option<&'a Toml>> = Vec::new();
            let mut k: usize = 0;
            let ghost expected = texts(fields@).map_values(|field: Seq<char>| find(all, field));
            assert(optional_models(values@) =~= expected.take(0));
            while k < fields.len()
                invariant
                    k <= fields@.len(),
                    values@.len() == k,
                    all == entry_models(entries@),
                    expected == texts(fields@).map_values(|field: Seq<char>| find(all, field)),
                    optional_models(values@) == expected.take(k as int),
                decreases fields.len() - k,
            {
                let found = find_entry(entries, fields[k].as_str());
                proof {
                    assert(optional_models(values@.push(found)) =~= optional_models(
                        values@,
                    ).push(optional_model(found)));
                    assert(expected[k as int] == optional_model(found));
                    assert(expected.take(k + 1) =~= expected.take(k as int).push(
                        optional_model(found),
                    ));
                }
                values.push(found);
                k += 1;
            }
            assert(expected.take(k as int) =~= expected);
            Some(values)
        },
        Toml::Array(items) => {
            if items.len() > fields.len() {
                return None;
            }
            let ghost all = item_models(items@);
            let mut values: Vec<Option<&'a Toml>> = Vec::new();
            let mut k: usize = 0;
            while k < fields.len()
                invariant
                    k <= fields@.len(),
                    items@.len() <= fields@.len(),
                    values@.len() == k,
                    forall|j: int|
                        0 <= j < k ==> optional_model(#[trigger] values@[j]) == (if j
                            < items@.len() {
                            Some(items@[j]@)
                        } else {
                            None
                        }),
                decreases fields.len() - k,
            {
                if k < items.len() {
                    values.push(Some(&items[k]));
                } else {
                    values.push(None);
                }
                k += 1;
            }
            assert(optional_models(values@) =~= record(value@, texts(fields@))->0);
            Some(values)
        },
        _ => None,
    }
}

/// An optional truth value.
pub open spec fn bool_in(field: Option<TomlModel>) -> Option<Option<bool>> {
    match field {
        None => Some(None),
        Some(TomlModel::Boolean(value)) => Some(Some(value)),
        Some(_) => None,
    }
}

fn read_bool(field: Option<&Toml>) -> (res: Option<Option<bool>>)
    ensures
        res == bool_in(optional_model(field)),
{
    match field {
        None => Some(None),
        Some(Toml::Boolean(value)) => Some(Some(*value)),
        Some(_) => None,
    }
}

/// An optional number between zero and a maximum.
pub open spec fn number_in(field: Option<TomlModel>, max: int) -> Option<Option<int>> {
    match field {
        None => Some(None),
        Some(TomlModel::Integer(number)) => if 0 <= number <= max {
            Some(Some(number as int))
        } else {
            None
        },
        Some(_) => None,
    }
}

pub open spec fn as_u8(number: Option<int>) -> Option<u8> {
    match number {
        Some(number) => Some(number as u8),
        None => None,
    }
}

pub open spec fn as_u32(number: Option<int>) -> Option<u32> {
    match number {
        Some(number) => Some(number as u32),
        None => None,
    }
}

pub open spec fn as_u64(number: Option<int>) -> Option<u64> {
    match number {
        Some(number) => Some(number as u64),
        None => None,
    }
}

pub open spec fn as_usize(number: Option<int>) -> Option<usize> {
    match number {
        Some(number) => Some(number as usize),
        None => None,
    }
}

fn read_u8(field: Option<&Toml>) -> (res: Option<Option<u8>>)
    ensures
        match res {
            Some(number) => number_in(optional_model(field), u8::MAX as int) is Some && number
                == as_u8(number_in(optional_model(field), u8::MAX as int)->0),
            None => number_in(optional_model(field), u8::MAX as int) is None,
        },
{
    match field {
        None => Some(None),
        Some(Toml::Integer(number)) => if 0 <= *number && *number <= 255 {
            Some(Some(*number as u8))
        } else {
            None
        },
        Some(_) => None,
    }
}

fn read_u32(field: Option<&Toml>) -> (res: Option<Option<u32>>)
    ensures
        match res {
            Some(number) => number_in(optional_model(field), u32::MAX as int) is Some && number
                == as_u32(number_in(optional_model(field), u32::MAX as int)->0),
            None => number_in(optional_model(field), u32::MAX as int) is None,
        },
{
    match field {
        None => Some(None),
        Some(Toml::Integer(number)) => if 0 <= *number && *number <= u32::MAX as i64 {
            Some(Some(*number as u32))
        } else {
            None
        },
        Some(_) => None,
    }
}

fn read_u64(field: Option<&Toml>) -> (res: Option<Option<u64>>)
    ensures
        match res {
            Some(number) => number_in(optional_model(field), u64::MAX as int) is Some && number
                == as_u64(number_in(optional_model(field), u64::MAX as int)->0),
            None => number_in(optional_model(field), u64::MAX as int) is None,
        },
{
    match field {
        None => Some(None),
        Some(Toml::Integer(number)) => if 0 <= *number {
            Some(Some(*number as u64))
        } else {
            None
        },
        Some(_) => None,
    }
}

fn read_usize(field: Option<&Toml>) -> (res: Option<Option<usize>>)
    ensures
        match res {
            Some(number) => number_in(optional_model(field), usize::MAX as int) is Some && number
                == as_usize(number_in(optional_model(field), usize::MAX as int)->0),
            None => number_in(optional_model(field), usize::MAX as int) is None,
        },
{
    match field {
        None => Some(None),
        Some(Toml::Integer(number)) => if 0 <= *number && *number as u64 <= usize::MAX as u64 {
            Some(Some(*number as usize))
        } else {
            None
        },
        Some(_) => None,
    }
}

/// The text of a value: a string, or a date or time as it is written.
pub open spec fn text_from(value: TomlModel) -> Option<Seq<char>> {
    match value {
        TomlModel::Text(text) => Some(text),
        TomlModel::Datetime(text) => Some(text),
        _ => None,
    }
}

fn read_text_value(value: &Toml) -> (res: Option<String>)
    ensures
        crate::webhook::optional_text(res) == text_from(value@),
{
    match value {
        Toml::Text(text) => Some(text.clone()),
        Toml::Datetime(text) => Some(text.clone()),
        _ => None,
    }
}

/// An optional text.
pub open spec fn text_in(field: Option<TomlModel>) -> Option<Option<Seq<char>>> {
    match field {
        None => Some(None),
        Some(value) => match text_from(value) {
            Some(text) => Some(Some(text)),
            None => None,
        },
    }
}

fn read_text(field: Option<&Toml>) -> (res: Option<Option<String>>)
    ensures
        match res {
            Some(text) => text_in(optional_model(field)) == Some(
                crate::webhook::optional_text(text),
            ),
            None => text_in(optional_model(field)) is None,
        },
{
    match field {
        None => Some(None),
        Some(value) => match read_text_value(value) {
            Some(text) => Some(Some(text)),
            None => None,
        },
    }
}

/// The texts of the items from `i` on, after those before.
pub open spec fn item_texts(items: Seq<TomlModel>, i: int, done: Seq<Seq<char>>) -> Option<
    Seq<Seq<char>>,
>
    decreases items.len() - i,
{
    if i >= items.len() {
        Some(done)
    } else {
        match text_from(items[i]) {
            Some(text) => item_texts(items, i + 1, done.push(text)),
            None => None,
        }
    }
}

/// An optional list of texts.
pub open spec fn texts_in(field: Option<TomlModel>) -> Option<Option<Seq<Seq<char>>>> {
    match field {
        None => Some(None),
        Some(TomlModel::Array(items)) => match item_texts(items, 0, Seq::empty()) {
            Some(list) => Some(Some(list)),
            None => None,
        },
        Some(_) => None,
    }
}

fn read_texts(field: Option<&Toml>) -> (res: Option<Option<Vec<String>>>)
    ensures
        match res {
            Some(list) => texts_in(optional_model(field)) == Some(
                crate::policy::optional_texts(list),
            ),
            None => texts_in(optional_model(field)) is None,
        },
{
    let value = match field {
        None => {
            return Some(None);
        },
        Some(value) => value,
    };
    proof {
        lemma_model(*value);
    }
    let items = match value {
        Toml::Array(items) => items,
        _ => {
            return None;
        },
    };
    let ghost all = item_models(items@);
    let mut list: Vec<String> = Vec::new();
    let mut i: usize = 0;
    assert(texts(list@) =~= Seq::<Seq<char>>::empty());
    while i < items.len()
        invariant
            i <= items@.len(),
            all == item_models(items@),
            optional_model(field) == Some(TomlModel::Array(all)),
            item_texts(all, 0, Seq::empty()) == item_texts(all, i as int, texts(list@)),
        decreases items.len() - i,
    {
        assert(all[i as int] == items@[i as int]@);
        match read_text_value(&items[i]) {
            Some(text) => {
                proof {
                    lemma_texts_push(list@, text);
                }
                list.push(text);
            },
            None => {
                return None;
            },
        }
        i += 1;
    }
    Some(Some(list))
}

// ---------------------------------------------------------------------------
// The parts of a configuration
// ---------------------------------------------------------------------------

/// A patch of a policy: every setting is optional.
pub open spec fn patch_from(value: TomlModel) -> Option<PatchModel> {
    match record(value, policy_keys()) {
        None => None,
        Some(fields) => if bool_in(fields[0]) is Some
            && bool_in(fields[1]) is Some
            && number_in(fields[2], u32::MAX as int) is Some
            && number_in(fields[3], u32::MAX as int) is Some
            && number_in(fields[4], u32::MAX as int) is Some
            && number_in(fields[5], u32::MAX as int) is Some
            && number_in(fields[6], u32::MAX as int) is Some
            && number_in(fields[7], u32::MAX as int) is Some
            && number_in(fields[8], u32::MAX as int) is Some
            && number_in(fields[9], u32::MAX as int) is Some
            && number_in(fields[10], u32::MAX as int) is Some
            && number_in(fields[11], u32::MAX as int) is Some
            && number_in(fields[12], u32::MAX as int) is Some
            && number_in(fields[13], u32::MAX as int) is Some
            && number_in(fields[14], u32::MAX as int) is Some
            && number_in(fields[15], u32::MAX as int) is Some
            && number_in(fields[16], u32::MAX as int) is Some
            && number_in(fields[17], u32::MAX as int) is Some
            && number_in(fields[18], u32::MAX as int) is Some
            && number_in(fields[19], u32::MAX as int) is Some
            && number_in(fields[20], u32::MAX as int) is Some
            && number_in(fields[21], u32::MAX as int) is Some
            && number_in(fields[22], u8::MAX as int) is Some
            && texts_in(fields[23]) is Some
            && texts_in(fields[24]) is Some
            && texts_in(fields[25]) is Some
            && texts_in(fields[26]) is Some
            && number_in(fields[27], u64::MAX as int) is Some
            && bool_in(fields[28]) is Some
            && bool_in(fields[29]) is Some {
            Some(
                PatchModel {
                    autosnap: bool_in(fields[0])->0,
                    autoprune: bool_in(fields[1])->0,
                    frequently: as_u32(number_in(fields[2], u32::MAX as int)->0),
                    hourly: as_u32(number_in(fields[3], u32::MAX as int)->0),
                    daily: as_u32(number_in(fields[4], u32::MAX as int)->0),
                    weekly: as_u32(number_in(fields[5], u32::MAX as int)->0),
                    monthly: as_u32(number_in(fields[6], u32::MAX as int)->0),
                    yearly: as_u32(number_in(fields[7], u32::MAX as int)->0),
                    frequent_period: as_u32(number_in(fields[8], u32::MAX as int)->0),
                    hourly_min: as_u32(number_in(fields[9], u32::MAX as int)->0),
                    daily_hour: as_u32(number_in(fields[10], u32::MAX as int)->0),
                    daily_min: as_u32(number_in(fields[11], u32::MAX as int)->0),
                    weekly_wday: as_u32(number_in(fields[12], u32::MAX as int)->0),
                    weekly_hour: as_u32(number_in(fields[13], u32::MAX as int)->0),
                    weekly_min: as_u32(number_in(fields[14], u32::MAX as int)->0),
                    monthly_mday: as_u32(number_in(fields[15], u32::MAX as int)->0),
                    monthly_hour: as_u32(number_in(fields[16], u32::MAX as int)->0),
                    monthly_min: as_u32(number_in(fields[17], u32::MAX as int)->0),
                    yearly_mon: as_u32(number_in(fields[18], u32::MAX as int)->0),
                    yearly_mday: as_u32(number_in(fields[19], u32::MAX as int)->0),
                    yearly_hour: as_u32(number_in(fields[20], u32::MAX as int)->0),
                    yearly_min: as_u32(number_in(fields[21], u32::MAX as int)->0),
                    prune_defer: as_u8(number_in(fields[22], u8::MAX as int)->0),
                    pre_snapshot_script: texts_in(fields[23])->0,
                    post_snapshot_script: texts_in(fields[24])->0,
                    pre_pruning_script: texts_in(fields[25])->0,
                    pruning_script: texts_in(fields[26])->0,
                    script_timeout: as_u64(number_in(fields[27], u64::MAX as int)->0),
                    no_inconsistent_snapshot: bool_in(fields[28])->0,
                    force_post_snapshot_script: bool_in(fields[29])->0,
                },
            )
        } else {
            None
        },
    }
}

#[verifier::spinoff_prover]
fn read_patch(value: &Toml) -> (res: Option<PolicyPatch>)
    ensures
        match res {
            Some(patch) => patch_from(value@) == Some(patch@),
            None => patch_from(value@) is None,
        },
{
    let keys = policy_key_list();
    let fields = read_record(value, &keys)?;
    let ghost all = optional_models(fields@);
    assert(policy_keys().len() == 30);
    assert(forall|i: int| 0 <= i < 30 ==> #[trigger] all[i] == optional_model(fields@[i]));
    let autosnap = read_bool(fields[0])?;
    let autoprune = read_bool(fields[1])?;
    let frequently = read_u32(fields[2])?;
    let hourly = read_u32(fields[3])?;
    let daily = read_u32(fields[4])?;
    let weekly = read_u32(fields[5])?;
    let monthly = read_u32(fields[6])?;
    let yearly = read_u32(fields[7])?;
    let frequent_period = read_u32(fields[8])?;
    let hourly_min = read_u32(fields[9])?;
    let daily_hour = read_u32(fields[10])?;
    let daily_min = read_u32(fields[11])?;
    let weekly_wday = read_u32(fields[12])?;
    let weekly_hour = read_u32(fields[13])?;
    let weekly_min = read_u32(fields[14])?;
    let monthly_mday = read_u32(fields[15])?;
    let monthly_hour = read_u32(fields[16])?;
    let monthly_min = read_u32(fields[17])?;
    let yearly_mon = read_u32(fields[18])?;
    let yearly_mday = read_u32(fields[19])?;
    let yearly_hour = read_u32(fields[20])?;
    let yearly_min = read_u32(fields[21])?;
    let prune_defer = read_u8(fields[22])?;
    let pre_snapshot_script = read_texts(fields[23])?;
    let post_snapshot_script = read_texts(fields[24])?;
    let pre_pruning_script = read_texts(fields[25])?;
    let pruning_script = read_texts(fields[26])?;
    let script_timeout = read_u64(fields[27])?;
    let no_inconsistent_snapshot = read_bool(fields[28])?;
    let force_post_snapshot_script = read_bool(fields[29])?;
    Some(
        PolicyPatch {
            autosnap,
            autoprune,
            frequently,
            hourly,
            daily,
            weekly,
            monthly,
            yearly,
            frequent_period,
            hourly_min,
            daily_hour,
            daily_min,
            weekly_wday,
            weekly_hour,
            weekly_min,
            monthly_mday,
            monthly_hour,
            monthly_min,
            yearly_mon,
            yearly_mday,
            yearly_hour,
            yearly_min,
            prune_defer,
            pre_snapshot_script,
            post_snapshot_script,
            pre_pruning_script,
            pruning_script,
            script_timeout,
            no_inconsistent_snapshot,
            force_post_snapshot_script,
        },
    )
}

/// The time zone of a text.
pub open spec fn timezone_named(text: Seq<char>) -> Option<ScheduleTimezone> {
    let name = lowercase(trim(text));
    if name == "local"@ || name == "host"@ {
        Some(ScheduleTimezone::Local)
    } else if name == "utc"@ {
        Some(ScheduleTimezone::Utc)
    } else {
        None
    }
}

/// An optional time zone.
pub open spec fn timezone_in(field: Option<TomlModel>) -> Option<Option<ScheduleTimezone>> {
    match text_in(field) {
        None => None,
        Some(None) => Some(None),
        Some(Some(text)) => match timezone_named(text) {
            Some(timezone) => Some(Some(timezone)),
            None => None,
        },
    }
}

fn read_timezone(field: Option<&Toml>) -> (res: Option<Option<ScheduleTimezone>>)
    ensures
        res == timezone_in(optional_model(field)),
{
    match read_text(field) {
        None => None,
        Some(None) => Some(None),
        Some(Some(text)) => {
            let name = lowercased(trimmed(text.as_str()).as_str());
            if same(name.as_str(), "local") || same(name.as_str(), "host") {
                Some(Some(ScheduleTimezone::Local))
            } else if same(name.as_str(), "utc") {
                Some(Some(ScheduleTimezone::Utc))
            } else {
                None
            }
        },
    }
}

/// The recursion mode of a word.
pub open spec fn recursion_named(text: Seq<char>) -> Option<Recursion> {
    let name = lowercase(text);
    if name == "none"@ || name == "no"@ || name == "false"@ {
        Some(Recursion::Off)
    } else if name == "children"@ || name == "yes"@ || name == "true"@ {
        Some(Recursion::Children)
    } else if name == "zfs"@ || name == "atomic"@ {
        Some(Recursion::Zfs)
    } else {
        None
    }
}

/// An optional recursion mode: a truth value or a word.
pub open spec fn recursion_in(field: Option<TomlModel>) -> Option<Option<Recursion>> {
    match field {
        None => Some(None),
        Some(TomlModel::Boolean(false)) => Some(Some(Recursion::Off)),
        Some(TomlModel::Boolean(true)) => Some(Some(Recursion::Children)),
        Some(value) => match text_from(value) {
            None => None,
            Some(text) => match recursion_named(text) {
                Some(recursion) => Some(Some(recursion)),
                None => None,
            },
        },
    }
}

fn read_recursion(field: Option<&Toml>) -> (res: Option<Option<Recursion>>)
    ensures
        res == recursion_in(optional_model(field)),
{
    let value = match field {
        None => {
            return Some(None);
        },
        Some(value) => value,
    };
    if let Toml::Boolean(children) = value {
        return Some(
            Some(
                if *children {
                    Recursion::Children
                } else {
                    Recursion::Off
                },
            ),
        );
    }
    let text = read_text_value(value)?;
    let name = lowercased(text.as_str());
    if same(name.as_str(), "none") || same(name.as_str(), "no") || same(name.as_str(), "false") {
        Some(Some(Recursion::Off))
    } else if same(name.as_str(), "children") || same(name.as_str(), "yes") || same(
        name.as_str(),
        "true",
    ) {
        Some(Some(Recursion::Children))
    } else if same(name.as_str(), "zfs") || same(name.as_str(), "atomic") {
        Some(Some(Recursion::Zfs))
    } else {
        None
    }
}

/// The name of a choice: a string, or a table with the name as its only key
/// and nothing under it.
pub open spec fn choice_from(value: TomlModel) -> Option<Seq<char>> {
    match value {
        TomlModel::Text(name) => Some(name),
        TomlModel::Table(entries) => if entries.len() == 1 && (match entries[0].1 {
            TomlModel::Array(items) => items.len() == 0,
            TomlModel::Table(inner) => inner.len() == 0,
            _ => false,
        }) {
            Some(entries[0].0)
        } else {
            None
        },
        _ => None,
    }
}

fn read_choice(value: &Toml) -> (res: Option<String>)
    ensures
        crate::webhook::optional_text(res) == choice_from(value@),
{
    proof {
        lemma_model(*value);
    }
    match value {
        Toml::Text(name) => Some(name.clone()),
        Toml::Table(entries) => {
            if entries.len() != 1 {
                return None;
            }
            assert(value@->Table_0[0] == (entries@[0].0@, entries@[0].1@));
            proof {
                lemma_model(entries@[0].1);
            }
            let empty = match &entries[0].1 {
                Toml::Array(items) => items.len() == 0,
                Toml::Table(inner) => inner.len() == 0,
                _ => false,
            };
            if empty {
                Some(entries[0].0.clone())
            } else {
                None
            }
        },
        _ => None,
    }
}

pub open spec fn kind_named(name: Seq<char>) -> Option<WebhookKind> {
    if name == "discord"@ {
        Some(WebhookKind::Discord)
    } else if name == "flock"@ {
        Some(WebhookKind::Flock)
    } else if name == "slack"@ {
        Some(WebhookKind::Slack)
    } else {
        None
    }
}

pub open spec fn kind_from(value: TomlModel) -> Option<WebhookKind> {
    match choice_from(value) {
        Some(name) => kind_named(name),
        None => None,
    }
}

fn read_kind(value: &Toml) -> (res: Option<WebhookKind>)
    ensures
        res == kind_from(value@),
{
    let name = read_choice(value)?;
    if same(name.as_str(), "discord") {
        Some(WebhookKind::Discord)
    } else if same(name.as_str(), "flock") {
        Some(WebhookKind::Flock)
    } else if same(name.as_str(), "slack") {
        Some(WebhookKind::Slack)
    } else {
        None
    }
}

pub open spec fn event_from(value: TomlModel) -> Option<WebhookEvent> {
    match choice_from(value) {
        Some(name) => if name == "failure"@ {
            Some(WebhookEvent::Failure)
        } else if name == "success"@ {
            Some(WebhookEvent::Success)
        } else {
            None
        },
        None => None,
    }
}

fn read_event(value: &Toml) -> (res: Option<WebhookEvent>)
    ensures
        res == event_from(value@),
{
    let name = read_choice(value)?;
    if same(name.as_str(), "failure") {
        Some(WebhookEvent::Failure)
    } else if same(name.as_str(), "success") {
        Some(WebhookEvent::Success)
    } else {
        None
    }
}

/// The events of the items from `i` on, after those before.
pub open spec fn item_events(items: Seq<TomlModel>, i: int, done: Seq<WebhookEvent>) -> Option<
    Seq<WebhookEvent>,
>
    decreases items.len() - i,
{
    if i >= items.len() {
        Some(done)
    } else {
        match event_from(items[i]) {
            Some(event) => item_events(items, i + 1, done.push(event)),
            None => None,
        }
    }
}

/// The events of a webhook: failures where it does not say.
pub open spec fn events_in(field: Option<TomlModel>) -> Option<Seq<WebhookEvent>> {
    match field {
        None => Some(seq![WebhookEvent::Failure]),
        Some(TomlModel::Array(items)) => item_events(items, 0, Seq::empty()),
        Some(_) => None,
    }
}

fn read_events(field: Option<&Toml>) -> (res: Option<Vec<WebhookEvent>>)
    ensures
        match res {
            Some(events) => events_in(optional_model(field)) == Some(events@),
            None => events_in(optional_model(field)) is None,
        },
{
    let mut events: Vec<WebhookEvent> = Vec::new();
    let value = match field {
        None => {
            events.push(WebhookEvent::Failure);
            assert(events@ =~= seq![WebhookEvent::Failure]);
            return Some(events);
        },
        Some(value) => value,
    };
    proof {
        lemma_model(*value);
    }
    let items = match value {
        Toml::Array(items) => items,
        _ => {
            return None;
        },
    };
    let ghost all = item_models(items@);
    let mut i: usize = 0;
    while i < items.len()
        invariant
            i <= items@.len(),
            all == item_models(items@),
            optional_model(field) == Some(TomlModel::Array(all)),
            item_events(all, 0, Seq::empty()) == item_events(all, i as int, events@),
        decreases items.len() - i,
    {
        assert(all[i as int] == items@[i as int]@);
        events.push(read_event(&items[i])?);
        i += 1;
    }
    Some(events)
}

/// A value with a default.
pub open spec fn or_default<T>(value: Option<T>, default: T) -> T {
    match value {
        Some(value) => value,
        None => default,
    }
}

fn unwrap_or<T>(value: Option<T>, default: T) -> (res: T)
    ensures
        res == or_default(value, default),
{
    match value {
        Some(value) => value,
        None => default,
    }
}

pub open spec fn webhook_keys() -> Seq<Seq<char>> {
    seq!["name"@, "kind"@, "url"@, "url_env"@, "events"@, "enabled"@]
}

pub fn webhook_key_list() -> (res: Vec<String>)
    ensures
        texts(res@) == webhook_keys(),
{
    let mut keys: Vec<String> = Vec::new();
    keys.push("name".to_owned());
    keys.push("kind".to_owned());
    keys.push("url".to_owned());
    keys.push("url_env".to_owned());
    keys.push("events".to_owned());
    keys.push("enabled".to_owned());
    assert(texts(keys@) =~= webhook_keys());
    keys
}

/// A webhook: a name and a kind, and the rest with defaults.
pub open spec fn webhook_from(value: TomlModel) -> Option<WebhookModel> {
    match record(value, webhook_keys()) {
        None => None,
        Some(fields) => match (text_in(fields[0]), fields[1]) {
            (Some(Some(name)), Some(kind)) => if kind_from(kind) is Some && text_in(
                fields[2],
            ) is Some && text_in(fields[3]) is Some && events_in(fields[4]) is Some && bool_in(
                fields[5],
            ) is Some {
                Some(
                    WebhookModel {
                        name,
                        kind: kind_from(kind)->0,
                        url: text_in(fields[2])->0,
                        url_env: text_in(fields[3])->0,
                        events: events_in(fields[4])->0,
                        enabled: or_default(bool_in(fields[5])->0, true),
                    },
                )
            } else {
                None
            },
            _ => None,
        },
    }
}

fn read_webhook(value: &Toml) -> (res: Option<WebhookConfig>)
    ensures
        match res {
            Some(hook) => webhook_from(value@) == Some(hook@),
            None => webhook_from(value@) is None,
        },
{
    let keys = webhook_key_list();
    let fields = read_record(value, &keys)?;
    let ghost all = optional_models(fields@);
    assert(forall|i: int| 0 <= i < 6 ==> #[trigger] all[i] == optional_model(fields@[i]));
    let name = read_text(fields[0])??;
    let kind = read_kind(fields[1]?)?;
    let url = match read_text(fields[2])? {
        Some(url) => Some(SecretString::new(url)),
        None => None,
    };
    let url_env = read_text(fields[3])?;
    let events = read_events(fields[4])?;
    let enabled = unwrap_or(read_bool(fields[5])?, true);
    Some(WebhookConfig { name, kind, url, url_env, events, enabled })
}

/// The webhooks of the items from `i` on, after those before.
pub open spec fn item_webhooks(items: Seq<TomlModel>, i: int, done: Seq<WebhookModel>) -> Option<
    Seq<WebhookModel>,
>
    decreases items.len() - i,
{
    if i >= items.len() {
        Some(done)
    } else {
        match webhook_from(items[i]) {
            Some(hook) => item_webhooks(items, i + 1, done.push(hook)),
            None => None,
        }
    }
}

pub open spec fn webhooks_in(field: Option<TomlModel>) -> Option<Seq<WebhookModel>> {
    match field {
        None => Some(Seq::empty()),
        Some(TomlModel::Array(items)) => item_webhooks(items, 0, Seq::empty()),
        Some(_) => None,
    }
}

fn read_webhooks(field: Option<&Toml>) -> (res: Option<Vec<WebhookConfig>>)
    ensures
        match res {
            Some(hooks) => webhooks_in(optional_model(field)) == Some(views(hooks@)),
            None => webhooks_in(optional_model(field)) is None,
        },
{
    let mut hooks: Vec<WebhookConfig> = Vec::new();
    assert(views(hooks@) =~= Seq::<WebhookModel>::empty());
    let value = match field {
        None => {
            return Some(hooks);
        },
        Some(value) => value,
    };
    proof {
        lemma_model(*value);
    }
    let items = match value {
        Toml::Array(items) => items,
        _ => {
            return None;
        },
    };
    let ghost all = item_models(items@);
    let mut i: usize = 0;
    while i < items.len()
        invariant
            i <= items@.len(),
            all == item_models(items@),
            optional_model(field) == Some(TomlModel::Array(all)),
            item_webhooks(all, 0, Seq::empty()) == item_webhooks(all, i as int, views(hooks@)),
        decreases items.len() - i,
    {
        assert(all[i as int] == items@[i as int]@);
        let hook = read_webhook(&items[i])?;
        proof {
            lemma_views_push(hooks@, hook);
        }
        hooks.push(hook);
        i += 1;
    }
    Some(hooks)
}

pub open spec fn notifications_keys() -> Seq<Seq<char>> {
    seq![
        "enabled"@,
        "hostname"@,
        "max_parallel"@,
        "timeout_seconds"@,
        "max_attempts"@,
        "retry_backoff_milliseconds"@,
        "fail_on_error"@,
        "webhooks"@,
    ]
}

pub fn notifications_key_list() -> (res: Vec<String>)
    ensures
        texts(res@) == notifications_keys(),
{
    let mut keys: Vec<String> = Vec::new();
    keys.push("enabled".to_owned());
    keys.push("hostname".to_owned());
    keys.push("max_parallel".to_owned());
    keys.push("timeout_seconds".to_owned());
    keys.push("max_attempts".to_owned());
    keys.push("retry_backoff_milliseconds".to_owned());
    keys.push("fail_on_error".to_owned());
    keys.push("webhooks".to_owned());
    assert(texts(keys@) =~= notifications_keys());
    keys
}

/// The notifications: every value has a default.
pub open spec fn notifications_from(value: TomlModel) -> Option<NotificationsModel> {
    let default = default_notifications();
    match record(value, notifications_keys()) {
        None => None,
        Some(fields) => if bool_in(fields[0]) is Some && text_in(fields[1]) is Some && number_in(
            fields[2],
            usize::MAX as int,
        ) is Some && number_in(fields[3], u64::MAX as int) is Some && number_in(
            fields[4],
            u32::MAX as int,
        ) is Some && number_in(fields[5], u64::MAX as int) is Some && bool_in(fields[6]) is Some
            && webhooks_in(fields[7]) is Some {
            Some(
                NotificationsModel {
                    enabled: or_default(bool_in(fields[0])->0, default.enabled),
                    hostname: text_in(fields[1])->0,
                    max_parallel: or_default(
                        as_usize(number_in(fields[2], usize::MAX as int)->0),
                        default.max_parallel,
                    ),
                    timeout_seconds: or_default(
                        as_u64(number_in(fields[3], u64::MAX as int)->0),
                        default.timeout_seconds,
                    ),
                    max_attempts: or_default(
                        as_u32(number_in(fields[4], u32::MAX as int)->0),
                        default.max_attempts,
                    ),
                    retry_backoff_milliseconds: or_default(
                        as_u64(number_in(fields[5], u64::MAX as int)->0),
                        default.retry_backoff_milliseconds,
                    ),
                    fail_on_error: or_default(bool_in(fields[6])->0, default.fail_on_error),
                    webhooks: webhooks_in(fields[7])->0,
                },
            )
        } else {
            None
        },
    }
}

fn read_notifications(value: &Toml) -> (res: Option<Notifications>)
    ensures
        match res {
            Some(notifications) => notifications_from(value@) == Some(notifications@),
            None => notifications_from(value@) is None,
        },
{
    let keys = notifications_key_list();
    let fields = read_record(value, &keys)?;
    let ghost all = optional_models(fields@);
    assert(forall|i: int| 0 <= i < 8 ==> #[trigger] all[i] == optional_model(fields@[i]));
    let enabled = unwrap_or(read_bool(fields[0])?, true);
    let hostname = read_text(fields[1])?;
    let max_parallel: usize = unwrap_or(read_usize(fields[2])?, 4);
    let timeout_seconds: u64 = unwrap_or(read_u64(fields[3])?, 10);
    let max_attempts: u32 = unwrap_or(read_u32(fields[4])?, 3);
    let retry_backoff_milliseconds: u64 = unwrap_or(read_u64(fields[5])?, 500);
    let fail_on_error = unwrap_or(read_bool(fields[6])?, false);
    let webhooks = read_webhooks(fields[7])?;
    Some(
        Notifications {
            enabled,
            hostname,
            max_parallel,
            timeout_seconds,
            max_attempts,
            retry_backoff_milliseconds,
            fail_on_error,
            webhooks,
        },
    )
}

pub open spec fn settings_keys() -> Seq<Seq<char>> {
    seq![
        "snapshot_prefix"@,
        "timezone"@,
        "max_parallel_pools"@,
        "snapshot_batch_size"@,
        "prune_batch_size"@,
        "lock_file"@,
        "cache_file"@,
        "zfs_command"@,
        "zpool_command"@,
    ]
}

pub fn settings_key_list() -> (res: Vec<String>)
    ensures
        texts(res@) == settings_keys(),
{
    let mut keys: Vec<String> = Vec::new();
    keys.push("snapshot_prefix".to_owned());
    keys.push("timezone".to_owned());
    keys.push("max_parallel_pools".to_owned());
    keys.push("snapshot_batch_size".to_owned());
    keys.push("prune_batch_size".to_owned());
    keys.push("lock_file".to_owned());
    keys.push("cache_file".to_owned());
    keys.push("zfs_command".to_owned());
    keys.push("zpool_command".to_owned());
    assert(texts(keys@) =~= settings_keys());
    keys
}

/// The settings: every value has a default.
pub open spec fn settings_from(value: TomlModel) -> Option<SettingsModel> {
    let default = default_settings();
    match record(value, settings_keys()) {
        None => None,
        Some(fields) => if text_in(fields[0]) is Some && timezone_in(fields[1]) is Some
            && number_in(fields[2], usize::MAX as int) is Some && number_in(
            fields[3],
            usize::MAX as int,
        ) is Some && number_in(fields[4], usize::MAX as int) is Some && text_in(
            fields[5],
        ) is Some && text_in(fields[6]) is Some && text_in(fields[7]) is Some && text_in(
            fields[8],
        ) is Some {
            Some(
                SettingsModel {
                    snapshot_prefix: or_default(text_in(fields[0])->0, default.snapshot_prefix),
                    timezone: or_default(timezone_in(fields[1])->0, default.timezone),
                    max_parallel_pools: or_default(
                        as_usize(number_in(fields[2], usize::MAX as int)->0),
                        default.max_parallel_pools,
                    ),
                    snapshot_batch_size: or_default(
                        as_usize(number_in(fields[3], usize::MAX as int)->0),
                        default.snapshot_batch_size,
                    ),
                    prune_batch_size: or_default(
                        as_usize(number_in(fields[4], usize::MAX as int)->0),
                        default.prune_batch_size,
                    ),
                    lock_file: or_default(text_in(fields[5])->0, default.lock_file),
                    cache_file: or_default(text_in(fields[6])->0, default.cache_file),
                    zfs_command: or_default(text_in(fields[7])->0, default.zfs_command),
                    zpool_command: or_default(text_in(fields[8])->0, default.zpool_command),
                },
            )
        } else {
            None
        },
    }
}

fn text_or(text: Option<String>, default: &str) -> (res: String)
    ensures
        res@ == or_default(crate::webhook::optional_text(text), default@),
{
    match text {
        Some(text) => text,
        None => default.to_owned(),
    }
}

fn read_settings(value: &Toml) -> (res: Option<Settings>)
    ensures
        match res {
            Some(settings) => settings_from(value@) == Some(settings@),
            None => settings_from(value@) is None,
        },
{
    let keys = settings_key_list();
    let fields = read_record(value, &keys)?;
    let ghost all = optional_models(fields@);
    assert(forall|i: int| 0 <= i < 9 ==> #[trigger] all[i] == optional_model(fields@[i]));
    let snapshot_prefix = text_or(read_text(fields[0])?, "autosnap");
    let timezone = unwrap_or(read_timezone(fields[1])?, ScheduleTimezone::Local);
    let max_parallel_pools: usize = unwrap_or(read_usize(fields[2])?, 0);
    let snapshot_batch_size: usize = unwrap_or(read_usize(fields[3])?, 128);
    let prune_batch_size: usize = unwrap_or(read_usize(fields[4])?, 64);
    let lock_file = text_or(read_text(fields[5])?, "/run/zsnap/zsnap.lock");
    let cache_file = text_or(read_text(fields[6])?, "/etc/zsnap/zsnap.cache");
    let zfs_command = text_or(read_text(fields[7])?, "zfs");
    let zpool_command = text_or(read_text(fields[8])?, "zpool");
    Some(
        Settings {
            snapshot_prefix,
            timezone,
            max_parallel_pools,
            snapshot_batch_size,
            prune_batch_size,
            lock_file,
            cache_file,
            zfs_command,
            zpool_command,
        },
    )
}

pub open spec fn dataset_keys() -> Seq<Seq<char>> {
    seq!["use_templates"@, "use_template"@, "recursive"@, "process_children_only"@, "policy"@]
}

pub fn dataset_key_list() -> (res: Vec<String>)
    ensures
        texts(res@) == dataset_keys(),
{
    let mut keys: Vec<String> = Vec::new();
    keys.push("use_templates".to_owned());
    keys.push("use_template".to_owned());
    keys.push("recursive".to_owned());
    keys.push("process_children_only".to_owned());
    keys.push("policy".to_owned());
    assert(texts(keys@) =~= dataset_keys());
    keys
}

/// The templates of a section, under either name but not under both.
pub open spec fn templates_in(plural: Option<TomlModel>, singular: Option<TomlModel>) -> Option<
    Seq<Seq<char>>,
> {
    if plural is Some && singular is Some {
        None
    } else {
        match texts_in(if plural is Some {
            plural
        } else {
            singular
        }) {
            None => None,
            Some(list) => Some(or_default(list, Seq::empty())),
        }
    }
}

pub open spec fn patch_in(field: Option<TomlModel>) -> Option<PatchModel> {
    match field {
        None => Some(crate::policy::empty_patch()),
        Some(value) => patch_from(value),
    }
}

/// A dataset section: every value has a default.
pub open spec fn dataset_from(value: TomlModel) -> Option<DatasetModel> {
    match value {
        TomlModel::Table(entries) => if keys_known(entries, dataset_keys()) {
            let templates = templates_in(
                find(entries, "use_templates"@),
                find(entries, "use_template"@),
            );
            let recursive = recursion_in(find(entries, "recursive"@));
            let children_only = bool_in(find(entries, "process_children_only"@));
            let policy = patch_in(find(entries, "policy"@));
            if templates is Some && recursive is Some && children_only is Some && policy is Some {
                Some(
                    DatasetModel {
                        use_templates: templates->0,
                        recursive: or_default(recursive->0, Recursion::Off),
                        process_children_only: or_default(children_only->0, false),
                        policy: policy->0,
                    },
                )
            } else {
                None
            }
        } else {
            None
        },
        _ => None,
    }
}

fn read_dataset(value: &Toml) -> (res: Option<DatasetConfig>)
    ensures
        match res {
            Some(section) => dataset_from(value@) == Some(section@),
            None => dataset_from(value@) is None,
        },
{
    proof {
        lemma_model(*value);
    }
    let entries = match value {
        Toml::Table(entries) => entries,
        _ => {
            return None;
        },
    };
    let keys = dataset_key_list();
    if read_record(value, &keys).is_none() {
        return None;
    }
    let plural = find_entry(entries, "use_templates");
    let singular = find_entry(entries, "use_template");
    if plural.is_some() && singular.is_some() {
        return None;
    }
    let list = if plural.is_some() {
        read_texts(plural)?
    } else {
        read_texts(singular)?
    };
    let use_templates = match list {
        Some(list) => list,
        None => {
            let none: Vec<String> = Vec::new();
            assert(texts(none@) =~= Seq::<Seq<char>>::empty());
            none
        },
    };
    let recursive = unwrap_or(read_recursion(find_entry(entries, "recursive"))?, Recursion::Off);
    let process_children_only = unwrap_or(
        read_bool(find_entry(entries, "process_children_only"))?,
        false,
    );
    let policy = match find_entry(entries, "policy") {
        None => PolicyPatch::default(),
        Some(value) => read_patch(value)?,
    };
    Some(DatasetConfig { use_templates, recursive, process_children_only, policy })
}

/// The templates of the entries from `i` on, after those before.
pub open spec fn templates_from(
    entries: Seq<(Seq<char>, TomlModel)>,
    i: int,
    done: Seq<(Seq<char>, PatchModel)>,
) -> Option<Seq<(Seq<char>, PatchModel)>>
    decreases entries.len() - i,
{
    if i >= entries.len() {
        Some(done)
    } else {
        match patch_from(entries[i].1) {
            Some(patch) => templates_from(entries, i + 1, put(done, entries[i].0, patch)),
            None => None,
        }
    }
}

/// The dataset sections of the entries from `i` on, after those before.
pub open spec fn datasets_from(
    entries: Seq<(Seq<char>, TomlModel)>,
    i: int,
    done: Seq<(Seq<char>, DatasetModel)>,
) -> Option<Seq<(Seq<char>, DatasetModel)>>
    decreases entries.len() - i,
{
    if i >= entries.len() {
        Some(done)
    } else {
        match dataset_from(entries[i].1) {
            Some(section) => datasets_from(entries, i + 1, put(done, entries[i].0, section)),
            None => None,
        }
    }
}

/// The entries of an optional table.
pub open spec fn entries_in(field: Option<TomlModel>) -> Option<Seq<(Seq<char>, TomlModel)>> {
    match field {
        None => Some(Seq::empty()),
        Some(TomlModel::Table(entries)) => Some(entries),
        Some(_) => None,
    }
}

pub open spec fn all_templates_in(field: Option<TomlModel>) -> Option<
    Seq<(Seq<char>, PatchModel)>,
> {
    match entries_in(field) {
        Some(entries) => templates_from(entries, 0, Seq::empty()),
        None => None,
    }
}

pub open spec fn all_datasets_in(field: Option<TomlModel>) -> Option<
    Seq<(Seq<char>, DatasetModel)>,
> {
    match entries_in(field) {
        Some(entries) => datasets_from(entries, 0, Seq::empty()),
        None => None,
    }
}

fn read_templates(field: Option<&Toml>) -> (res: Option<NameMap<PolicyPatch>>)
    ensures
        match res {
            Some(templates) => all_templates_in(optional_model(field)) == Some(templates@),
            None => all_templates_in(optional_model(field)) is None,
        },
{
    let mut templates: NameMap<PolicyPatch> = NameMap::new();
    let value = match field {
        None => {
            return Some(templates);
        },
        Some(value) => value,
    };
    proof {
        lemma_model(*value);
    }
    let entries = match value {
        Toml::Table(entries) => entries,
        _ => {
            return None;
        },
    };
    let ghost all = entry_models(entries@);
    let mut i: usize = 0;
    while i < entries.len()
        invariant
            i <= entries@.len(),
            all == entry_models(entries@),
            optional_model(field) == Some(TomlModel::Table(all)),
            templates_from(all, 0, Seq::empty()) == templates_from(all, i as int, templates@),
        decreases entries.len() - i,
    {
        assert(all[i as int] == (entries@[i as int].0@, entries@[i as int].1@));
        let patch = read_patch(&entries[i].1)?;
        templates.insert(entries[i].0.clone(), patch);
        i += 1;
    }
    Some(templates)
}

fn read_datasets(field: Option<&Toml>) -> (res: Option<NameMap<DatasetConfig>>)
    ensures
        match res {
            Some(datasets) => all_datasets_in(optional_model(field)) == Some(datasets@),
            None => all_datasets_in(optional_model(field)) is None,
        },
{
    let mut datasets: NameMap<DatasetConfig> = NameMap::new();
    let value = match field {
        None => {
            return Some(datasets);
        },
        Some(value) => value,
    };
    proof {
        lemma_model(*value);
    }
    let entries = match value {
        Toml::Table(entries) => entries,
        _ => {
            return None;
        },
    };
    let ghost all = entry_models(entries@);
    let mut i: usize = 0;
    while i < entries.len()
        invariant
            i <= entries@.len(),
            all == entry_models(entries@),
            optional_model(field) == Some(TomlModel::Table(all)),
            datasets_from(all, 0, Seq::empty()) == datasets_from(all, i as int, datasets@),
        decreases entries.len() - i,
    {
        assert(all[i as int] == (entries@[i as int].0@, entries@[i as int].1@));
        let section = read_dataset(&entries[i].1)?;
        datasets.insert(entries[i].0.clone(), section);
        i += 1;
    }
    Some(datasets)
}

pub open spec fn config_keys() -> Seq<Seq<char>> {
    seq!["version"@, "settings"@, "notifications"@, "templates"@, "datasets"@]
}

pub fn config_key_list() -> (res: Vec<String>)
    ensures
        texts(res@) == config_keys(),
{
    let mut keys: Vec<String> = Vec::new();
    keys.push("version".to_owned());
    keys.push("settings".to_owned());
    keys.push("notifications".to_owned());
    keys.push("templates".to_owned());
    keys.push("datasets".to_owned());
    assert(texts(keys@) =~= config_keys());
    keys
}

pub open spec fn settings_in(field: Option<TomlModel>) -> Option<SettingsModel> {
    match field {
        None => Some(default_settings()),
        Some(value) => settings_from(value),
    }
}

pub open spec fn notifications_in(field: Option<TomlModel>) -> Option<NotificationsModel> {
    match field {
        None => Some(default_notifications()),
        Some(value) => notifications_from(value),
    }
}

/// A configuration: a version, and the rest with defaults.
pub open spec fn config_from(value: TomlModel) -> Option<ConfigModel> {
    match record(value, config_keys()) {
        None => None,
        Some(fields) => match number_in(fields[0], u32::MAX as int) {
            Some(Some(version)) => if settings_in(fields[1]) is Some && notifications_in(
                fields[2],
            ) is Some && all_templates_in(fields[3]) is Some && all_datasets_in(
                fields[4],
            ) is Some {
                Some(
                    ConfigModel {
                        version: version as u32,
                        settings: settings_in(fields[1])->0,
                        notifications: notifications_in(fields[2])->0,
                        templates: all_templates_in(fields[3])->0,
                        datasets: all_datasets_in(fields[4])->0,
                    },
                )
            } else {
                None
            },
            _ => None,
        },
    }
}

fn read_config(value: &Toml) -> (res: Option<Config>)
    ensures
        match res {
            Some(config) => config_from(value@) == Some(config@),
            None => config_from(value@) is None,
        },
{
    let keys = config_key_list();
    let fields = read_record(value, &keys)?;
    let ghost all = optional_models(fields@);
    assert(forall|i: int| 0 <= i < 5 ==> #[trigger] all[i] == optional_model(fields@[i]));
    let version: u32 = read_u32(fields[0])??;
    let settings = match fields[1] {
        None => Settings::default(),
        Some(value) => read_settings(value)?,
    };
    let notifications = match fields[2] {
        None => Notifications::default(),
        Some(value) => read_notifications(value)?,
    };
    let templates = read_templates(fields[3])?;
    let datasets = read_datasets(fields[4])?;
    Some(Config { version, settings, notifications, templates, datasets })
}

/// The fault of a document that does not match the schema, with the key that
/// no section knows as its cause.
pub open spec fn schema_fault(document: TomlModel) -> Fault {
    match complaint(document) {
        Some(cause) => caused("configuration does not match the zsnap schema"@, cause),
        None => plain("configuration does not match the zsnap schema"@),
    }
}

fn schema_error(document: &Toml) -> (res: Error)
    ensures
        res@ == schema_fault(document@),
{
    let message = "configuration does not match the zsnap schema".to_owned();
    match find_complaint(document) {
        Some(cause) => Error::with_cause(message, cause),
        None => Error::new(message),
    }
}

/// What a document says under the schema.
pub open spec fn decoded(document: TomlModel) -> Result<ConfigModel, Fault> {
    match normalized(document) {
        Err(message) => Err(message),
        Ok(value) => match config_from(value) {
            Some(config) => Ok(config),
            None => Err(schema_fault(value)),
        },
    }
}

/// The configuration that a text gives.
pub open spec fn parsed_config(raw: Seq<char>) -> Result<ConfigModel, Fault> {
    match expanded(raw) {
        Err(message) => Err(message),
        Ok(text) => match document_of(text) {
            Err(message) => Err(message),
            Ok(document) => decoded(document),
        },
    }
}

impl Config {
    /// Reads a configuration off a TOML document without shorthand.
    pub fn from_document(document: Toml) -> (res: Result<Config, Error>)
        ensures
            yields(res, decoded(document@)),
    {
        match normalize_inline_dataset_policies(document) {
            Err(e) => Err(e),
            Ok(value) => match read_config(&value) {
                Some(config) => Ok(config),
                None => Err(schema_error(&value)),
            },
        }
    }

    /// Reads a configuration off the text of a configuration file.
    pub fn parse(raw: &str) -> (res: Result<Config, Error>)
        ensures
            yields(res, parsed_config(raw@)),
    {
        match expand_config_shorthand(raw) {
            Err(e) => Err(e),
            Ok(text) => match parse_document(text.as_str()) {
                Err(e) => Err(e),
                Ok(document) => Config::from_document(document),
            },
        }
    }
}

} // verus!
