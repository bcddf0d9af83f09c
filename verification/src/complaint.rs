//! Why a document does not match the schema: the first key that its section
//! does not know.
use vstd::prelude::*;

use crate::document::{entry_models, find, find_entry, item_models, lemma_model, Toml, TomlModel};
use crate::policy::or_else;
use crate::schema::{config_key_list, config_keys, dataset_key_list, dataset_keys, notifications_key_list, notifications_keys, policy_key_list, policy_keys, settings_key_list, settings_keys, webhook_key_list, webhook_keys};
use crate::text::{list_contains, texts};
use crate::webhook::optional_text;

verus! {

/// The first key from entry `i` on that is none of the known ones.
pub open spec fn unknown_from(
    entries: Seq<(Seq<char>, TomlModel)>,
    keys: Seq<Seq<char>>,
    i: int,
) -> Option<Seq<char>>
    decreases entries.len() - i,
{
    if i >= entries.len() {
        None
    } else if !keys.contains(entries[i].0) {
        Some(entries[i].0)
    } else {
        unknown_from(entries, keys, i + 1)
    }
}

/// What is wrong with the keys of a section.
pub open spec fn section_complaint(value: TomlModel, keys: Seq<Seq<char>>, section: Seq<char>) -> Option<
    Seq<char>,
> {
    match value {
        TomlModel::Table(entries) => match unknown_from(entries, keys, 0) {
            Some(key) => Some("unknown field `"@ + key + "` in "@ + section),
            None => None,
        },
        _ => None,
    }
}

fn find_in_section(value: &Toml, keys: &Vec<String>, section: &str) -> (res: Option<String>)
    ensures
        optional_text(res) == section_complaint(value@, texts(keys@), section@),
{
    proof {
        lemma_model(*value);
    }
    if let Toml::Table(entries) = value {
        let ghost all = entry_models(entries@);
        let mut i: usize = 0;
        while i < entries.len()
            invariant
                i <= entries@.len(),
                all == entry_models(entries@),
                value@ == TomlModel::Table(all),
                unknown_from(all, texts(keys@), 0) == unknown_from(all, texts(keys@), i as int),
            decreases entries.len() - i,
        {
            assert(all[i as int].0 == entries@[i as int].0@);
            if !list_contains(keys, entries[i].0.as_str()) {
                let mut text = "unknown field `".to_owned();
                text.append(entries[i].0.as_str());
                text.append("` in ");
                text.append(section);
                return Some(text);
            }
            i += 1;
        }
    }
    None
}

/// What is wrong with the webhooks from webhook `i` on.
pub open spec fn webhooks_complaint(hooks: Seq<TomlModel>, i: int) -> Option<Seq<char>>
    decreases hooks.len() - i,
{
    if i >= hooks.len() {
        None
    } else {
        or_else(
            section_complaint(hooks[i], webhook_keys(), "a webhook"@),
            webhooks_complaint(hooks, i + 1),
        )
    }
}

/// What is wrong with the notifications of a document.
pub open spec fn notifications_complaint(value: TomlModel) -> Option<Seq<char>> {
    or_else(
        section_complaint(value, notifications_keys(), "the notifications"@),
        match value {
            TomlModel::Table(entries) => match find(entries, "webhooks"@) {
                Some(TomlModel::Array(hooks)) => webhooks_complaint(hooks, 0),
                _ => None,
            },
            _ => None,
        },
    )
}

fn find_in_notifications(value: &Toml) -> (res: Option<String>)
    ensures
        optional_text(res) == notifications_complaint(value@),
{
    if let Some(text) = find_in_section(value, &notifications_key_list(), "the notifications") {
        return Some(text);
    }
    proof {
        lemma_model(*value);
    }
    let entries = match value {
        Toml::Table(entries) => entries,
        _ => {
            return None;
        },
    };
    let listed = match find_entry(entries, "webhooks") {
        Some(listed) => listed,
        None => {
            return None;
        },
    };
    proof {
        lemma_model(*listed);
    }
    if let Toml::Array(hooks) = listed {
        let ghost all = item_models(hooks@);
        let keys = webhook_key_list();
        let mut i: usize = 0;
        while i < hooks.len()
            invariant
                i <= hooks@.len(),
                all == item_models(hooks@),
                texts(keys@) == webhook_keys(),
                notifications_complaint(value@) == webhooks_complaint(all, 0),
                webhooks_complaint(all, 0) == webhooks_complaint(all, i as int),
            decreases hooks.len() - i,
        {
            assert(all[i as int] == hooks@[i as int]@);
            if let Some(text) = find_in_section(&hooks[i], &keys, "a webhook") {
                return Some(text);
            }
            i += 1;
        }
    }
    None
}

/// What is wrong with the templates from template `i` on.
pub open spec fn templates_complaint(templates: Seq<(Seq<char>, TomlModel)>, i: int) -> Option<
    Seq<char>,
>
    decreases templates.len() - i,
{
    if i >= templates.len() {
        None
    } else {
        or_else(
            section_complaint(templates[i].1, policy_keys(), "template "@ + templates[i].0),
            templates_complaint(templates, i + 1),
        )
    }
}

fn find_in_templates(templates: &Vec<(String, Toml)>) -> (res: Option<String>)
    ensures
        optional_text(res) == templates_complaint(entry_models(templates@), 0),
{
    let ghost all = entry_models(templates@);
    let keys = policy_key_list();
    let mut i: usize = 0;
    while i < templates.len()
        invariant
            i <= templates@.len(),
            all == entry_models(templates@),
            texts(keys@) == policy_keys(),
            templates_complaint(all, 0) == templates_complaint(all, i as int),
        decreases templates.len() - i,
    {
        assert(all[i as int] == (templates@[i as int].0@, templates@[i as int].1@));
        let mut section = "template ".to_owned();
        section.append(templates[i].0.as_str());
        if let Some(text) = find_in_section(&templates[i].1, &keys, section.as_str()) {
            return Some(text);
        }
        i += 1;
    }
    None
}

/// What is wrong with a dataset section.
pub open spec fn dataset_complaint(name: Seq<char>, value: TomlModel) -> Option<Seq<char>> {
    or_else(
        section_complaint(value, dataset_keys(), "dataset "@ + name),
        match value {
            TomlModel::Table(entries) => match find(entries, "policy"@) {
                Some(policy) => section_complaint(policy, policy_keys(), "dataset "@ + name),
                None => None,
            },
            _ => None,
        },
    )
}

fn find_in_dataset(name: &str, value: &Toml) -> (res: Option<String>)
    ensures
        optional_text(res) == dataset_complaint(name@, value@),
{
    let mut section = "dataset ".to_owned();
    section.append(name);
    if let Some(text) = find_in_section(value, &dataset_key_list(), section.as_str()) {
        return Some(text);
    }
    proof {
        lemma_model(*value);
    }
    if let Toml::Table(entries) = value {
        if let Some(policy) = find_entry(entries, "policy") {
            return find_in_section(policy, &policy_key_list(), section.as_str());
        }
    }
    None
}

/// What is wrong with the dataset sections from section `i` on.
pub open spec fn datasets_complaint(datasets: Seq<(Seq<char>, TomlModel)>, i: int) -> Option<
    Seq<char>,
>
    decreases datasets.len() - i,
{
    if i >= datasets.len() {
        None
    } else {
        or_else(
            dataset_complaint(datasets[i].0, datasets[i].1),
            datasets_complaint(datasets, i + 1),
        )
    }
}

fn find_in_datasets(datasets: &Vec<(String, Toml)>) -> (res: Option<String>)
    ensures
        optional_text(res) == datasets_complaint(entry_models(datasets@), 0),
{
    let ghost all = entry_models(datasets@);
    let mut i: usize = 0;
    while i < datasets.len()
        invariant
            i <= datasets@.len(),
            all == entry_models(datasets@),
            datasets_complaint(all, 0) == datasets_complaint(all, i as int),
        decreases datasets.len() - i,
    {
        assert(all[i as int] == (datasets@[i as int].0@, datasets@[i as int].1@));
        if let Some(text) = find_in_dataset(datasets[i].0.as_str(), &datasets[i].1) {
            return Some(text);
        }
        i += 1;
    }
    None
}

/// The first key of a document without inline policies that its section does
/// not know; nothing where the fault is another one.
pub open spec fn complaint(document: TomlModel) -> Option<Seq<char>> {
    match document {
        TomlModel::Table(entries) => or_else(
            section_complaint(document, config_keys(), "the configuration"@),
            or_else(
                match find(entries, "settings"@) {
                    Some(settings) => section_complaint(
                        settings,
                        settings_keys(),
                        "the settings"@,
                    ),
                    None => None,
                },
                or_else(
                    match find(entries, "notifications"@) {
                        Some(notifications) => notifications_complaint(notifications),
                        None => None,
                    },
                    or_else(
                        match find(entries, "templates"@) {
                            Some(TomlModel::Table(templates)) => templates_complaint(templates, 0),
                            _ => None,
                        },
                        match find(entries, "datasets"@) {
                            Some(TomlModel::Table(datasets)) => datasets_complaint(datasets, 0),
                            _ => None,
                        },
                    ),
                ),
            ),
        ),
        _ => None,
    }
}

pub fn find_complaint(document: &Toml) -> (res: Option<String>)
    ensures
        optional_text(res) == complaint(document@),
{
    proof {
        lemma_model(*document);
    }
    let entries = match document {
        Toml::Table(entries) => entries,
        _ => {
            return None;
        },
    };
    if let Some(text) = find_in_section(document, &config_key_list(), "the configuration") {
        return Some(text);
    }
    if let Some(settings) = find_entry(entries, "settings") {
        if let Some(text) = find_in_section(settings, &settings_key_list(), "the settings") {
            return Some(text);
        }
    }
    if let Some(notifications) = find_entry(entries, "notifications") {
        if let Some(text) = find_in_notifications(notifications) {
            return Some(text);
        }
    }
    if let Some(value) = find_entry(entries, "templates") {
        proof {
            lemma_model(*value);
        }
        if let Toml::Table(templates) = value {
            if let Some(text) = find_in_templates(templates) {
                return Some(text);
            }
        }
    }
    if let Some(value) = find_entry(entries, "datasets") {
        proof {
            lemma_model(*value);
        }
        if let Toml::Table(datasets) = value {
            return find_in_datasets(datasets);
        }
    }
    None
}

} // verus!
