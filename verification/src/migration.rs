//! From a Sanoid configuration to one of this crate.
use vstd::prelude::*;

use crate::config::{config_fault, Config, ConfigModel, DatasetConfig, DatasetModel, Recursion, ScheduleTimezone};
use crate::error::{error, lists, on_top, plain, reports, tells, yields, Error, Fault};
use crate::names::{lookup, put, with_name, NameMap, NameSet};
use crate::policy::{empty_patch, PatchModel, PolicyPatch};
use crate::rendering::{append_dataset, append_file_head, append_template, dataset_section, file_head, template_section};
use crate::sanoid::{apply_policy, file_read, flag_of, parse_bool, parse_sanoid, settings_applied, standard_defaults, standard_sanoid_defaults, structure_warned, warn_ignored_structural, Entry, EntryModel, Section, SectionModel};
use crate::schema::parsed_config;
use crate::sort::{lemma_views_push, views};
use crate::text::{copy_texts, debug_text, decimal, drop_prefix, has_prefix, lemma_texts_push, lowercase, lowercased, number, quoted, same, same_texts, split, split_char, starts_with, strip_prefix, texts, trim, trimmed};
use crate::webhook::optional_text;

verus! {

/// A converted configuration.
#[derive(Debug)]
pub struct SanoidMigration {
    pub config_toml: String,
    pub warnings: Vec<String>,
    pub datasets: usize,
    pub templates: usize,
}

/// The model of a [`SanoidMigration`].
pub struct MigrationModel {
    pub config_toml: Seq<char>,
    pub warnings: Seq<Seq<char>>,
    pub datasets: nat,
    pub templates: nat,
}

impl View for SanoidMigration {
    type V = MigrationModel;

    open spec fn view(&self) -> MigrationModel {
        MigrationModel {
            config_toml: self.config_toml@,
            warnings: texts(self.warnings@),
            datasets: self.datasets as nat,
            templates: self.templates as nat,
        }
    }
}

// ---------------------------------------------------------------------------
// Default policies
// ---------------------------------------------------------------------------

/// The policies that stand behind every section.
pub struct Defaults {
    /// What Sanoid starts from, with the default templates over it.
    pub base: PolicyPatch,
    /// The default template of the source alone.
    pub user: Option<PolicyPatch>,
    pub children_only: bool,
    pub warnings: Vec<String>,
}

/// The model of [`Defaults`].
pub struct DefaultsModel {
    pub base: PatchModel,
    pub user: Option<PatchModel>,
    pub children_only: bool,
    pub warnings: Seq<Seq<char>>,
}

pub open spec fn optional_patch(patch: Option<PolicyPatch>) -> Option<PatchModel> {
    match patch {
        Some(patch) => Some(patch@),
        None => None,
    }
}

impl View for Defaults {
    type V = DefaultsModel;

    open spec fn view(&self) -> DefaultsModel {
        DefaultsModel {
            base: self.base@,
            user: optional_patch(self.user),
            children_only: self.children_only,
            warnings: texts(self.warnings@),
        }
    }
}

pub type Sections = Seq<(Seq<char>, SectionModel)>;

/// The standard defaults with those of the defaults file over them.
pub open spec fn shipped_defaults(defaults: Option<Sections>, warnings: Seq<Seq<char>>) -> Result<
    (PatchModel, Seq<Seq<char>>),
    Fault,
> {
    match defaults {
        None => Ok((standard_defaults(), warnings)),
        Some(sections) => match lookup(sections, "template_default"@) {
            None => Ok((standard_defaults(), warnings)),
            Some(section) => settings_applied(
                "template_default in Sanoid defaults"@,
                section,
                0,
                standard_defaults(),
                warnings,
                false,
            ),
        },
    }
}

/// The defaults of the source over those that were shipped.
pub open spec fn all_defaults(
    source: Sections,
    base: PatchModel,
    warnings: Seq<Seq<char>>,
) -> Result<DefaultsModel, Fault> {
    match lookup(source, "template_default"@) {
        None => Ok(DefaultsModel { base, user: None, children_only: false, warnings }),
        Some(section) => match settings_applied(
            "template_default"@,
            section,
            0,
            empty_patch(),
            warnings,
            true,
        ) {
            Err(message) => Err(message),
            Ok((user, more)) => match settings_applied(
                "template_default"@,
                section,
                0,
                base,
                Seq::empty(),
                false,
            ) {
                Err(message) => Err(message),
                Ok((base, _)) => match optional_flag(
                    "template_default"@,
                    "process_children_only"@,
                    lookup(section, "process_children_only"@),
                ) {
                    Err(message) => Err(message),
                    Ok(children_only) => Ok(
                        DefaultsModel {
                            base,
                            user: Some(user),
                            children_only,
                            warnings: structure_warned("template_default"@, section, 0, more),
                        },
                    ),
                },
            },
        },
    }
}

/// A truth value that is false where the setting is missing.
pub open spec fn optional_flag(
    section: Seq<char>,
    key: Seq<char>,
    entry: Option<EntryModel>,
) -> Result<bool, Fault> {
    match entry {
        None => Ok(false),
        Some(entry) => flag_of(section, key, entry),
    }
}

fn read_flag(section: &str, key: &str, settings: &Section) -> (res: Result<bool, Error>)
    ensures
        tells(res, optional_flag(section@, key@, lookup(settings@, key@))),
{
    match settings.get(key) {
        None => Ok(false),
        Some(entry) => parse_bool(section, key, entry),
    }
}

fn read_defaults(
    source: &NameMap<Section>,
    shipped: PolicyPatch,
    warnings: Vec<String>,
) -> (res: Result<Defaults, Error>)
    ensures
        yields(res, all_defaults(source@, shipped@, texts(warnings@))),
{
    let mut base = shipped;
    let mut warnings = warnings;
    match source.get("template_default") {
        None => Ok(Defaults { base, user: None, children_only: false, warnings }),
        Some(section) => {
            let mut user = PolicyPatch::default();
            apply_policy("template_default", section, &mut user, &mut warnings, true)?;
            let mut unused: Vec<String> = Vec::new();
            assert(texts(unused@) =~= Seq::<Seq<char>>::empty());
            apply_policy("template_default", section, &mut base, &mut unused, false)?;
            warn_ignored_structural("template_default", section, &mut warnings);
            let children_only = read_flag("template_default", "process_children_only", section)?;
            Ok(Defaults { base, user: Some(user), children_only, warnings })
        },
    }
}

// ---------------------------------------------------------------------------
// Template names
// ---------------------------------------------------------------------------

/// The name with a number behind it.
pub open spec fn numbered(base: Seq<char>, n: nat) -> Seq<char> {
    base + "_"@ + decimal(n)
}

/// The first numbered name from `n` on that is not taken.
pub open spec fn free_from(base: Seq<char>, taken: Seq<Seq<char>>, n: nat) -> Seq<char>
    decreases u64::MAX - n,
{
    if n >= u64::MAX || !taken.contains(numbered(base, n)) {
        numbered(base, n)
    } else {
        free_from(base, taken, n + 1)
    }
}

/// A name that is not taken: the base itself, or the base with a number from
/// two on behind it.
pub open spec fn free_name(base: Seq<char>, taken: Seq<Seq<char>>) -> Seq<char> {
    if !taken.contains(base) {
        base
    } else {
        free_from(base, taken, 2)
    }
}

pub fn unique_template_name(base: &str, existing: &NameSet) -> (res: String)
    ensures
        res@ == free_name(base@, existing@),
{
    if !existing.contains(base) {
        return base.to_owned();
    }
    let mut n: u64 = 2;
    loop
        invariant
            free_name(base@, existing@) == free_from(base@, existing@, n as nat),
        decreases u64::MAX - n,
    {
        let mut candidate = base.to_owned();
        candidate.append("_");
        candidate.append(number(n).as_str());
        if n == u64::MAX || !existing.contains(candidate.as_str()) {
            return candidate;
        }
        n += 1;
    }
}

/// The name of the template that a section defines.
pub open spec fn template_of(section: Seq<char>) -> Option<Seq<char>> {
    match drop_prefix(section, "template_"@) {
        Some(name) => if name == "default"@ {
            None
        } else {
            Some(name)
        },
        None => None,
    }
}

fn template_name(section: &str) -> (res: Option<String>)
    ensures
        optional_text(res) == template_of(section@),
{
    match strip_prefix(section, "template_") {
        Some(name) => if same(name.as_str(), "default") {
            None
        } else {
            Some(name)
        },
        None => None,
    }
}

/// The names of the templates that the sections from `i` on define.
pub open spec fn named_templates(source: Sections, i: int, names: Seq<Seq<char>>) -> Seq<Seq<char>>
    decreases source.len() - i,
{
    if i >= source.len() {
        names
    } else {
        named_templates(
            source,
            i + 1,
            match template_of(source[i].0) {
                Some(name) => with_name(names, name),
                None => names,
            },
        )
    }
}

fn read_template_names(source: &NameMap<Section>) -> (res: NameSet)
    ensures
        res@ == named_templates(source@, 0, Seq::empty()),
{
    let mut names = NameSet::new();
    let mut i: usize = 0;
    while i < source.len()
        invariant
            i <= source@.len(),
            named_templates(source@, 0, Seq::empty()) == named_templates(
                source@,
                i as int,
                names@,
            ),
        decreases source@.len() - i,
    {
        if let Some(name) = template_name(source.name_at(i).as_str()) {
            names.insert(name);
        }
        i += 1;
    }
    names
}

// ---------------------------------------------------------------------------
// Templates
// ---------------------------------------------------------------------------

pub type Patches = Seq<(Seq<char>, PatchModel)>;

/// The templates of the sections from `i` on, after those before.
pub open spec fn converted_templates(
    source: Sections,
    i: int,
    templates: Patches,
    warnings: Seq<Seq<char>>,
) -> Result<(Patches, Seq<Seq<char>>), Fault>
    decreases source.len() - i,
{
    if i >= source.len() {
        Ok((templates, warnings))
    } else {
        let (section, settings) = source[i];
        match template_of(section) {
            None => converted_templates(source, i + 1, templates, warnings),
            Some(name) => if trim(name).len() == 0 {
                Err(plain(
                    "Sanoid template section "@ + debug_text(section) + " has an empty name"@,
                ))
            } else {
                match settings_applied(section, settings, 0, empty_patch(), warnings, true) {
                    Err(message) => Err(message),
                    Ok((policy, more)) => converted_templates(
                        source,
                        i + 1,
                        put(templates, name, policy),
                        structure_warned(section, settings, 0, more),
                    ),
                }
            },
        }
    }
}

fn convert_templates(
    source: &NameMap<Section>,
    templates: &mut NameMap<PolicyPatch>,
    warnings: &mut Vec<String>,
) -> (res: Result<(), Error>)
    ensures
        match converted_templates(source@, 0, old(templates)@, texts(old(warnings)@)) {
            Ok((all, more)) => res is Ok && final(templates)@ == all && texts(final(warnings)@)
                == more,
            Err(message) => res matches Err(e) && e@ == message,
        },
{
    let ghost goal = converted_templates(source@, 0, templates@, texts(warnings@));
    let mut i: usize = 0;
    while i < source.len()
        invariant
            i <= source@.len(),
            goal == converted_templates(
                source@,
                0,
                old(templates)@,
                texts(old(warnings)@),
            ),
            goal == converted_templates(source@, i as int, templates@, texts(warnings@)),
        decreases source@.len() - i,
    {
        let section = source.name_at(i).as_str();
        if let Some(name) = template_name(section) {
            if trimmed(name.as_str()).as_str().is_empty() {
                let mut message = "Sanoid template section ".to_owned();
                message.append(quoted(section).as_str());
                message.append(" has an empty name");
                return Err(Error::new(message));
            }
            let mut policy = PolicyPatch::default();
            apply_policy(section, source.value_at(i), &mut policy, warnings, true)?;
            warn_ignored_structural(section, source.value_at(i), warnings);
            templates.insert(name, policy);
        }
        i += 1;
    }
    Ok(())
}

// ---------------------------------------------------------------------------
// Datasets
// ---------------------------------------------------------------------------

/// A dataset section before it is placed among the others.
pub struct Draft {
    pub templates: Vec<String>,
    pub recursive: Recursion,
    /// Whether only the children are processed, where the section or one of
    /// its templates says so.
    pub children_only: Option<bool>,
    pub policy: PolicyPatch,
}

/// The model of a [`Draft`].
pub struct DraftModel {
    pub templates: Seq<Seq<char>>,
    pub recursive: Recursion,
    pub children_only: Option<bool>,
    pub policy: PatchModel,
}

impl View for Draft {
    type V = DraftModel;

    open spec fn view(&self) -> DraftModel {
        DraftModel {
            templates: texts(self.templates@),
            recursive: self.recursive,
            children_only: self.children_only,
            policy: self.policy@,
        }
    }
}

pub type Drafts = Seq<(Seq<char>, DraftModel)>;

/// The dataset of a section: its path, or else its name.
pub open spec fn dataset_of(section: Seq<char>, path: Option<EntryModel>) -> Result<
    Seq<char>,
    Fault,
> {
    match path {
        None => Ok(section),
        Some(entry) => if trim(entry.value).len() == 0 {
            Err(plain(
                "Sanoid section ["@ + section + "] has an empty path on line "@ + decimal(
                    entry.line,
                ) + "; remove path or set a dataset name"@,
            ))
        } else {
            Ok(trim(entry.value))
        },
    }
}

fn read_dataset(section: &String, settings: &Section) -> (res: Result<String, Error>)
    ensures
        yields(res, dataset_of(section@, lookup(settings@, "path"@))),
{
    match settings.get("path") {
        None => Ok(section.clone()),
        Some(entry) => {
            let path = trimmed(entry.value.as_str());
            if path.as_str().is_empty() {
                let mut message = "Sanoid section [".to_owned();
                message.append(section.as_str());
                message.append("] has an empty path on line ");
                message.append(number(entry.line as u64).as_str());
                message.append("; remove path or set a dataset name");
                return Err(Error::new(message));
            }
            Ok(path)
        },
    }
}

/// The templates that the pieces from `i` on name, after those before. The
/// default template goes by the name that was chosen for it, and says nothing
/// where the source has none.
pub open spec fn listed_templates(
    section: Seq<char>,
    line: nat,
    pieces: Seq<Seq<char>>,
    i: int,
    user: Option<Seq<char>>,
    done: Seq<Seq<char>>,
) -> Result<Seq<Seq<char>>, Fault>
    decreases pieces.len() - i,
{
    if i >= pieces.len() {
        Ok(done)
    } else {
        let name = trim(pieces[i]);
        if name.len() == 0 {
            Err(plain(
                "["@ + section + "] use_template on line "@ + decimal(line)
                    + " contains an empty template name"@,
            ))
        } else {
            listed_templates(
                section,
                line,
                pieces,
                i + 1,
                user,
                if name != "default"@ {
                    done.push(name)
                } else {
                    match user {
                        Some(generated) => done.push(generated),
                        None => done,
                    }
                },
            )
        }
    }
}

pub open spec fn templates_of(
    section: Seq<char>,
    entry: Option<EntryModel>,
    user: Option<Seq<char>>,
) -> Result<Seq<Seq<char>>, Fault> {
    match entry {
        None => Ok(Seq::empty()),
        Some(entry) => listed_templates(
            section,
            entry.line,
            split(entry.value, ','),
            0,
            user,
            Seq::empty(),
        ),
    }
}

/// A list of names or a message, as a specification gives it.
pub open spec fn lists_names(
    res: Result<Vec<String>, Error>,
    expected: Result<Seq<Seq<char>>, Fault>,
) -> bool {
    match (res, expected) {
        (Ok(names), Ok(others)) => texts(names@) == others,
        (Err(e), Err(message)) => e@ == message,
        _ => false,
    }
}

pub fn parse_template_list(section: &str, settings: &Section, user: &Option<String>) -> (res: Result<
    Vec<String>,
    Error,
>)
    ensures
        lists_names(
            res,
            templates_of(section@, lookup(settings@, "use_template"@), optional_text(*user)),
        ),
{
    let mut templates: Vec<String> = Vec::new();
    assert(texts(templates@) =~= Seq::<Seq<char>>::empty());
    let entry = match settings.get("use_template") {
        None => {
            return Ok(templates);
        },
        Some(entry) => entry,
    };
    let pieces = split_char(entry.value.as_str(), ',');
    let ghost all = split(entry.value@, ',');
    let ghost goal = templates_of(
        section@,
        lookup(settings@, "use_template"@),
        optional_text(*user),
    );
    let mut i: usize = 0;
    while i < pieces.len()
        invariant
            i <= pieces@.len(),
            texts(pieces@) == all,
            goal == templates_of(
                section@,
                lookup(settings@, "use_template"@),
                optional_text(*user),
            ),
            goal == listed_templates(
                section@,
                entry@.line,
                all,
                i as int,
                optional_text(*user),
                texts(templates@),
            ),
        decreases pieces.len() - i,
    {
        assert(all[i as int] == pieces@[i as int]@);
        let name = trimmed(pieces[i].as_str());
        if name.as_str().is_empty() {
            let mut message = "[".to_owned();
            message.append(section);
            message.append("] use_template on line ");
            message.append(number(entry.line as u64).as_str());
            message.append(" contains an empty template name");
            return Err(Error::new(message));
        }
        if !same(name.as_str(), "default") {
            proof {
                lemma_texts_push(templates@, name);
            }
            templates.push(name);
        } else if let Some(generated) = user {
            let copy = generated.clone();
            proof {
                lemma_texts_push(templates@, copy);
            }
            templates.push(copy);
        }
        i += 1;
    }
    Ok(templates)
}

pub open spec fn missing_template(section: Seq<char>, template: Seq<char>) -> Seq<char> {
    "Sanoid section ["@ + section + "] references missing template "@ + debug_text(template)
}

fn report_missing(section: &str, template: &str) -> (res: Error)
    ensures
        res@ == plain(missing_template(section@, template@)),
{
    let mut message = "Sanoid section [".to_owned();
    message.append(section);
    message.append("] references missing template ");
    message.append(quoted(template).as_str());
    Error::new(message)
}

/// The message about the first template from `i` on that nothing defines.
pub open spec fn reference_fault(
    section: Seq<char>,
    templates: Seq<Seq<char>>,
    i: int,
    named: Seq<Seq<char>>,
    user: Option<Seq<char>>,
) -> Option<Seq<char>>
    decreases templates.len() - i,
{
    if i >= templates.len() {
        None
    } else if user != Some(templates[i]) && !named.contains(templates[i]) {
        Some(missing_template(section, templates[i]))
    } else {
        reference_fault(section, templates, i + 1, named, user)
    }
}

/// Whether an optional text is this one.
fn is_text(text: &Option<String>, other: &str) -> (res: bool)
    ensures
        res == (optional_text(*text) == Some(other@)),
{
    match text {
        Some(text) => same(text.as_str(), other),
        None => false,
    }
}

fn check_references(
    section: &str,
    templates: &Vec<String>,
    named: &NameSet,
    user: &Option<String>,
) -> (res: Result<(), Error>)
    ensures
        crate::error::reports(
            res,
            reference_fault(section@, texts(templates@), 0, named@, optional_text(*user)),
        ),
{
    let ghost all = texts(templates@);
    let mut i: usize = 0;
    while i < templates.len()
        invariant
            i <= templates@.len(),
            all == texts(templates@),
            reference_fault(section@, all, 0, named@, optional_text(*user)) == reference_fault(
                section@,
                all,
                i as int,
                named@,
                optional_text(*user),
            ),
        decreases templates.len() - i,
    {
        assert(all[i as int] == templates@[i as int]@);
        let template = templates[i].as_str();
        if !is_text(user, template) && !named.contains(template) {
            return Err(report_missing(section, template));
        }
        i += 1;
    }
    Ok(())
}

/// The way a section recurses.
pub open spec fn recursion_of(section: Seq<char>, entry: Option<EntryModel>) -> Result<
    Recursion,
    Fault,
> {
    match entry {
        None => Ok(Recursion::Off),
        Some(entry) => if lowercase(entry.value) == "zfs"@ {
            Ok(Recursion::Zfs)
        } else {
            match flag_of(section, "recursive"@, entry) {
                Err(message) => Err(message),
                Ok(true) => Ok(Recursion::Children),
                Ok(false) => Ok(Recursion::Off),
            }
        },
    }
}

pub fn parse_recursion(section: &str, entry: Option<&Entry>) -> (res: Result<Recursion, Error>)
    ensures
        tells(
            res,
            recursion_of(
                section@,
                match entry {
                    Some(entry) => Some(entry@),
                    None => None,
                },
            ),
        ),
{
    let entry = match entry {
        None => {
            return Ok(Recursion::Off);
        },
        Some(entry) => entry,
    };
    if same(lowercased(entry.value.as_str()).as_str(), "zfs") {
        return Ok(Recursion::Zfs);
    }
    if parse_bool(section, "recursive", entry)? {
        Ok(Recursion::Children)
    } else {
        Ok(Recursion::Off)
    }
}

/// Whether only the children are processed, by the templates from `i` on.
pub open spec fn templates_children_only(
    section: Seq<char>,
    source: Sections,
    templates: Seq<Seq<char>>,
    i: int,
    user: Option<Seq<char>>,
    value: Option<bool>,
) -> Result<Option<bool>, Fault>
    decreases templates.len() - i,
{
    if i >= templates.len() {
        Ok(value)
    } else {
        let defining = if user == Some(templates[i]) {
            "template_default"@
        } else {
            "template_"@ + templates[i]
        };
        match lookup(source, defining) {
            None => Err(plain(missing_template(section, templates[i]))),
            Some(settings) => match lookup(settings, "process_children_only"@) {
                None => templates_children_only(section, source, templates, i + 1, user, value),
                Some(entry) => match flag_of(
                    "template_"@ + templates[i],
                    "process_children_only"@,
                    entry,
                ) {
                    Err(message) => Err(message),
                    Ok(flag) => templates_children_only(
                        section,
                        source,
                        templates,
                        i + 1,
                        user,
                        Some(flag),
                    ),
                },
            },
        }
    }
}

/// Whether only the children are processed: the section decides, and before it
/// the last of its templates that says so.
pub open spec fn children_only_of(
    section: Seq<char>,
    settings: SectionModel,
    source: Sections,
    templates: Seq<Seq<char>>,
    user: Option<Seq<char>>,
) -> Result<Option<bool>, Fault> {
    match templates_children_only(section, source, templates, 0, user, None) {
        Err(message) => Err(message),
        Ok(value) => match lookup(settings, "process_children_only"@) {
            None => Ok(value),
            Some(entry) => match flag_of(section, "process_children_only"@, entry) {
                Err(message) => Err(message),
                Ok(flag) => Ok(Some(flag)),
            },
        },
    }
}

pub fn resolve_process_children_only(
    section: &str,
    settings: &Section,
    source: &NameMap<Section>,
    templates: &Vec<String>,
    user: &Option<String>,
) -> (res: Result<Option<bool>, Error>)
    ensures
        tells(
            res,
            children_only_of(
                section@,
                settings@,
                source@,
                texts(templates@),
                optional_text(*user),
            ),
        ),
{
    let ghost all = texts(templates@);
    let ghost goal = templates_children_only(
        section@,
        source@,
        all,
        0,
        optional_text(*user),
        None,
    );
    let mut value: Option<bool> = None;
    let mut i: usize = 0;
    while i < templates.len()
        invariant
            i <= templates@.len(),
            all == texts(templates@),
            goal == templates_children_only(section@, source@, all, 0, optional_text(*user), None),
            goal == templates_children_only(
                section@,
                source@,
                all,
                i as int,
                optional_text(*user),
                value,
            ),
        decreases templates.len() - i,
    {
        assert(all[i as int] == templates@[i as int]@);
        let template = templates[i].as_str();
        let mut titled = "template_".to_owned();
        titled.append(template);
        let defining = if is_text(user, template) {
            source.get("template_default")
        } else {
            source.get(titled.as_str())
        };
        match defining {
            None => {
                return Err(report_missing(section, template));
            },
            Some(settings) => {
                if let Some(entry) = settings.get("process_children_only") {
                    value = Some(parse_bool(titled.as_str(), "process_children_only", entry)?);
                }
            },
        }
        i += 1;
    }
    if let Some(entry) = settings.get("process_children_only") {
        value = Some(parse_bool(section, "process_children_only", entry)?);
    }
    Ok(value)
}

/// A dataset section on its own, and the warnings after it.
pub open spec fn draft_of(
    section: Seq<char>,
    settings: SectionModel,
    source: Sections,
    named: Seq<Seq<char>>,
    user: Option<Seq<char>>,
    warnings: Seq<Seq<char>>,
) -> Result<(DraftModel, Seq<Seq<char>>), Fault> {
    match templates_of(section, lookup(settings, "use_template"@), user) {
        Err(message) => Err(message),
        Ok(templates) => match reference_fault(section, templates, 0, named, user) {
            Some(message) => Err(plain(message)),
            None => match (
                recursion_of(section, lookup(settings, "recursive"@)),
                children_only_of(section, settings, source, templates, user),
                optional_flag(section, "skip_children"@, lookup(settings, "skip_children"@)),
            ) {
                (Err(message), _, _) => Err(message),
                (_, Err(message), _) => Err(message),
                (_, _, Err(message)) => Err(message),
                (_, _, Ok(true)) => Err(plain(
                    "Sanoid section ["@ + section
                        + "] uses skip_children = yes, which cannot be translated without changing subtree coverage"@,
                )),
                (Ok(recursive), Ok(children_only), Ok(false)) => match settings_applied(
                    section,
                    settings,
                    0,
                    empty_patch(),
                    warnings,
                    true,
                ) {
                    Err(message) => Err(message),
                    Ok((policy, more)) => Ok(
                        (DraftModel { templates, recursive, children_only, policy }, more),
                    ),
                },
            },
        },
    }
}

fn draft(
    section: &str,
    settings: &Section,
    source: &NameMap<Section>,
    named: &NameSet,
    user: &Option<String>,
    warnings: &mut Vec<String>,
) -> (res: Result<Draft, Error>)
    ensures
        match draft_of(
            section@,
            settings@,
            source@,
            named@,
            optional_text(*user),
            texts(old(warnings)@),
        ) {
            Ok((model, more)) => res matches Ok(draft) && draft@ == model && texts(
                final(warnings)@,
            ) == more,
            Err(message) => res matches Err(e) && e@ == message,
        },
{
    let templates = parse_template_list(section, settings, user)?;
    check_references(section, &templates, named, user)?;
    let recursive = parse_recursion(section, settings.get("recursive"))?;
    let children_only = resolve_process_children_only(section, settings, source, &templates, user)?;
    if read_flag(section, "skip_children", settings)? {
        let mut message = "Sanoid section [".to_owned();
        message.append(section);
        message.append(
            "] uses skip_children = yes, which cannot be translated without changing subtree coverage",
        );
        return Err(Error::new(message));
    }
    let mut policy = PolicyPatch::default();
    apply_policy(section, settings, &mut policy, warnings, true)?;
    Ok(Draft { templates, recursive, children_only, policy })
}

/// The dataset sections from `i` on, after those before.
pub open spec fn converted_datasets(
    source: Sections,
    i: int,
    named: Seq<Seq<char>>,
    user: Option<Seq<char>>,
    drafts: Drafts,
    warnings: Seq<Seq<char>>,
) -> Result<(Drafts, Seq<Seq<char>>), Fault>
    decreases source.len() - i,
{
    if i >= source.len() {
        Ok((drafts, warnings))
    } else {
        let (section, settings) = source[i];
        if has_prefix(section, "template_"@) {
            converted_datasets(source, i + 1, named, user, drafts, warnings)
        } else if section == "version"@ {
            converted_datasets(
                source,
                i + 1,
                named,
                user,
                drafts,
                warnings.push("ignored Sanoid [version] metadata section"@),
            )
        } else {
            match dataset_of(section, lookup(settings, "path"@)) {
                Err(message) => Err(message),
                Ok(name) => if lookup(drafts, name) is Some {
                    Err(plain(
                        "multiple Sanoid sections resolve to dataset "@ + debug_text(name)
                            + "; path aliases must be unique"@,
                    ))
                } else {
                    match draft_of(section, settings, source, named, user, warnings) {
                        Err(message) => Err(message),
                        Ok((model, more)) => converted_datasets(
                            source,
                            i + 1,
                            named,
                            user,
                            put(drafts, name, model),
                            more,
                        ),
                    }
                },
            }
        }
    }
}

fn convert_datasets(
    source: &NameMap<Section>,
    named: &NameSet,
    user: &Option<String>,
    warnings: &mut Vec<String>,
) -> (res: Result<NameMap<Draft>, Error>)
    ensures
        match converted_datasets(
            source@,
            0,
            named@,
            optional_text(*user),
            Seq::empty(),
            texts(old(warnings)@),
        ) {
            Ok((all, more)) => res matches Ok(drafts) && drafts@ == all && texts(final(warnings)@)
                == more,
            Err(message) => res matches Err(e) && e@ == message,
        },
{
    let mut drafts: NameMap<Draft> = NameMap::new();
    let ghost goal = converted_datasets(
        source@,
        0,
        named@,
        optional_text(*user),
        Seq::empty(),
        texts(warnings@),
    );
    let mut i: usize = 0;
    while i < source.len()
        invariant
            i <= source@.len(),
            goal == converted_datasets(
                source@,
                0,
                named@,
                optional_text(*user),
                Seq::empty(),
                texts(old(warnings)@),
            ),
            goal == converted_datasets(
                source@,
                i as int,
                named@,
                optional_text(*user),
                drafts@,
                texts(warnings@),
            ),
        decreases source@.len() - i,
    {
        let section = source.name_at(i);
        if starts_with(section.as_str(), "template_") {
        } else if same(section.as_str(), "version") {
            let warning = "ignored Sanoid [version] metadata section".to_owned();
            proof {
                lemma_texts_push(warnings@, warning);
            }
            warnings.push(warning);
        } else {
            let name = read_dataset(section, source.value_at(i))?;
            if drafts.contains_key(name.as_str()) {
                let mut message = "multiple Sanoid sections resolve to dataset ".to_owned();
                message.append(quoted(name.as_str()).as_str());
                message.append("; path aliases must be unique");
                return Err(Error::new(message));
            }
            let model = draft(section.as_str(), source.value_at(i), source, named, user, warnings)?;
            drafts.insert(name, model);
        }
        i += 1;
    }
    Ok(drafts)
}

// ---------------------------------------------------------------------------
// The base template
// ---------------------------------------------------------------------------

/// The place of a dataset among the others.
pub struct Placement {
    pub templates: Vec<String>,
    pub children_only: bool,
}

/// The model of a [`Placement`].
pub struct PlacementModel {
    pub templates: Seq<Seq<char>>,
    pub children_only: bool,
}

impl View for Placement {
    type V = PlacementModel;

    open spec fn view(&self) -> PlacementModel {
        PlacementModel { templates: texts(self.templates@), children_only: self.children_only }
    }
}

/// Whether a dataset lies below another one.
pub open spec fn lies_below(name: Seq<char>, ancestor: Seq<char>) -> bool {
    ancestor != name && has_prefix(name, ancestor + "/"@)
}

/// Whether a dataset gets its policy from a recursive section above it, by the
/// sections from `i` on. There is no way to say so below an atomic root.
pub open spec fn inherits_from(
    name: Seq<char>,
    drafts: Drafts,
    i: int,
    inherited: bool,
) -> Result<bool, Fault>
    decreases drafts.len() - i,
{
    if i >= drafts.len() {
        Ok(inherited)
    } else if drafts[i].1.recursive == Recursion::Off || !lies_below(name, drafts[i].0) {
        inherits_from(name, drafts, i + 1, inherited)
    } else if drafts[i].1.recursive == Recursion::Zfs {
        Err(plain(
            "dataset "@ + debug_text(name)
                + " is explicitly configured below Sanoid atomic recursive root "@ + debug_text(
                drafts[i].0,
            ) + "; this cannot be translated without changing semantics"@,
        ))
    } else {
        inherits_from(name, drafts, i + 1, true)
    }
}

fn inherits(name: &str, drafts: &NameMap<Draft>) -> (res: Result<bool, Error>)
    ensures
        tells(res, inherits_from(name@, drafts@, 0, false)),
{
    let mut inherited = false;
    let mut i: usize = 0;
    while i < drafts.len()
        invariant
            i <= drafts@.len(),
            inherits_from(name@, drafts@, 0, false) == inherits_from(
                name@,
                drafts@,
                i as int,
                inherited,
            ),
        decreases drafts@.len() - i,
    {
        let ancestor = drafts.name_at(i).as_str();
        let mut inside = ancestor.to_owned();
        inside.append("/");
        let mode = drafts.value_at(i).recursive;
        if mode == Recursion::Off || same(ancestor, name) || !starts_with(name, inside.as_str()) {
        } else if mode == Recursion::Zfs {
            let mut message = "dataset ".to_owned();
            message.append(quoted(name).as_str());
            message.append(" is explicitly configured below Sanoid atomic recursive root ");
            message.append(quoted(ancestor).as_str());
            message.append("; this cannot be translated without changing semantics");
            return Err(Error::new(message));
        } else {
            inherited = true;
        }
        i += 1;
    }
    Ok(inherited)
}

/// A dataset in its place. One that nothing is inherited from gets the base
/// template in front of its own.
pub open spec fn placed(
    name: Seq<char>,
    draft: DraftModel,
    inherited: bool,
    base: Seq<char>,
    children_only: bool,
) -> Result<PlacementModel, Fault> {
    let only = match draft.children_only {
        Some(only) => only,
        None => !inherited && children_only,
    };
    if only && draft.recursive == Recursion::Off {
        Err(plain(
            "dataset "@ + debug_text(name)
                + " resolves process_children_only = yes without recursive = yes; zsnap cannot represent that Sanoid no-op safely"@,
        ))
    } else if only && draft.recursive == Recursion::Zfs {
        Err(plain(
            "dataset "@ + debug_text(name)
                + " combines process_children_only = yes with recursive = zfs; zsnap cannot translate that combination safely"@,
        ))
    } else {
        Ok(
            PlacementModel {
                templates: if inherited {
                    draft.templates
                } else {
                    seq![base] + draft.templates
                },
                children_only: only,
            },
        )
    }
}

fn place(name: &str, draft: &Draft, inherited: bool, base: &str, children_only: bool) -> (res: Result<
    Placement,
    Error,
>)
    ensures
        yields(res, placed(name@, draft@, inherited, base@, children_only)),
{
    let only = match draft.children_only {
        Some(only) => only,
        None => !inherited && children_only,
    };
    if only && draft.recursive == Recursion::Off {
        let mut message = "dataset ".to_owned();
        message.append(quoted(name).as_str());
        message.append(
            " resolves process_children_only = yes without recursive = yes; zsnap cannot represent that Sanoid no-op safely",
        );
        return Err(Error::new(message));
    }
    if only && draft.recursive == Recursion::Zfs {
        let mut message = "dataset ".to_owned();
        message.append(quoted(name).as_str());
        message.append(
            " combines process_children_only = yes with recursive = zfs; zsnap cannot translate that combination safely",
        );
        return Err(Error::new(message));
    }
    let mut templates = copy_texts(&draft.templates);
    if !inherited {
        let ghost own = templates@;
        templates.insert(0, base.to_owned());
        assert(texts(templates@) =~= seq![base@] + texts(own));
    }
    Ok(Placement { templates, children_only: only })
}

/// The places of the datasets from `i` on, after those before.
pub open spec fn placements(
    drafts: Drafts,
    i: int,
    base: Seq<char>,
    children_only: bool,
    done: Seq<PlacementModel>,
) -> Result<Seq<PlacementModel>, Fault>
    decreases drafts.len() - i,
{
    if i >= drafts.len() {
        Ok(done)
    } else {
        match inherits_from(drafts[i].0, drafts, 0, false) {
            Err(message) => Err(message),
            Ok(inherited) => match placed(
                drafts[i].0,
                drafts[i].1,
                inherited,
                base,
                children_only,
            ) {
                Err(message) => Err(message),
                Ok(placement) => placements(
                    drafts,
                    i + 1,
                    base,
                    children_only,
                    done.push(placement),
                ),
            },
        }
    }
}

pub fn apply_base_template(base: &str, children_only: bool, drafts: &NameMap<Draft>) -> (res: Result<
    Vec<Placement>,
    Error,
>)
    ensures
        lists(res, placements(drafts@, 0, base@, children_only, Seq::empty())),
        res matches Ok(list) ==> list@.len() == drafts@.len(),
{
    let mut done: Vec<Placement> = Vec::new();
    assert(views(done@) =~= Seq::<PlacementModel>::empty());
    let mut i: usize = 0;
    while i < drafts.len()
        invariant
            i <= drafts@.len(),
            done@.len() == i,
            placements(drafts@, 0, base@, children_only, Seq::empty()) == placements(
                drafts@,
                i as int,
                base@,
                children_only,
                views(done@),
            ),
        decreases drafts@.len() - i,
    {
        let name = drafts.name_at(i).as_str();
        let inherited = inherits(name, drafts)?;
        let placement = place(name, drafts.value_at(i), inherited, base, children_only)?;
        proof {
            lemma_views_push(done@, placement);
        }
        done.push(placement);
        i += 1;
    }
    Ok(done)
}

// ---------------------------------------------------------------------------
// The file
// ---------------------------------------------------------------------------

/// The template sections from `i` on, after the text before them.
pub open spec fn template_sections(templates: Patches, i: int, before: Seq<char>) -> Seq<char>
    decreases templates.len() - i,
{
    if i >= templates.len() {
        before
    } else {
        template_sections(
            templates,
            i + 1,
            template_section(before, templates[i].0, templates[i].1),
        )
    }
}

/// The dataset sections from `i` on, after the text before them.
pub open spec fn dataset_sections(
    drafts: Drafts,
    places: Seq<PlacementModel>,
    i: int,
    before: Seq<char>,
) -> Seq<char>
    decreases drafts.len() - i,
{
    if i >= drafts.len() {
        before
    } else {
        dataset_sections(
            drafts,
            places,
            i + 1,
            dataset_section(
                before,
                drafts[i].0,
                places[i].templates,
                drafts[i].1.recursive,
                places[i].children_only,
                drafts[i].1.policy,
            ),
        )
    }
}

/// A converted configuration as a file.
pub open spec fn rendered(templates: Patches, drafts: Drafts, places: Seq<PlacementModel>) -> Seq<char> {
    dataset_sections(
        drafts,
        places,
        0,
        template_sections(
            templates,
            0,
            file_head(
                "# Generated by `zsnap migrate-sanoid`.\n# This conversion does not touch ZFS. Existing unmarked Sanoid snapshots are never pruned.\n\n# Host-local scheduling preserves Sanoid's configured civil times.\n\n"@,
            ),
        ),
    )
}

fn render_output(
    templates: &NameMap<PolicyPatch>,
    drafts: &NameMap<Draft>,
    places: &Vec<Placement>,
) -> (res: String)
    requires
        places@.len() == drafts@.len(),
    ensures
        res@ == rendered(templates@, drafts@, views(places@)),
{
    let mut out =
        "# Generated by `zsnap migrate-sanoid`.\n# This conversion does not touch ZFS. Existing unmarked Sanoid snapshots are never pruned.\n\n# Host-local scheduling preserves Sanoid's configured civil times.\n\n".to_owned();
    append_file_head(&mut out);
    let ghost head = out@;
    let mut i: usize = 0;
    while i < templates.len()
        invariant
            i <= templates@.len(),
            template_sections(templates@, 0, head) == template_sections(
                templates@,
                i as int,
                out@,
            ),
        decreases templates@.len() - i,
    {
        append_template(&mut out, templates.name_at(i).as_str(), templates.value_at(i));
        i += 1;
    }
    let ghost titled = out@;
    let mut j: usize = 0;
    while j < drafts.len()
        invariant
            j <= drafts@.len(),
            places@.len() == drafts@.len(),
            dataset_sections(drafts@, views(places@), 0, titled) == dataset_sections(
                drafts@,
                views(places@),
                j as int,
                out@,
            ),
        decreases drafts@.len() - j,
    {
        assert(views(places@)[j as int] == places@[j as int]@);
        let draft = drafts.value_at(j);
        append_dataset(
            &mut out,
            drafts.name_at(j).as_str(),
            &places[j].templates,
            draft.recursive,
            places[j].children_only,
            &draft.policy,
        );
        j += 1;
    }
    out
}

/// Whether a configuration can be used, by what reading it gives.
pub open spec fn usable(read: Result<ConfigModel, Fault>) -> Option<Fault> {
    match read {
        Err(beneath) => Some(on_top("generated zsnap TOML did not parse"@, beneath)),
        Ok(config) => match config_fault(config) {
            Some(message) => Some(
                on_top("generated zsnap configuration failed validation"@, plain(message)),
            ),
            None => None,
        },
    }
}

/// Checks a generated configuration by what reading it gave.
pub fn check_generated(read: &Result<Config, Error>) -> (res: Result<(), Error>)
    ensures
        match read {
            Ok(config) => reports(res, usable(Ok(config@))),
            Err(e) => reports(res, usable(Err(e@))),
        },
{
    match read {
        Err(e) => Err(Error::on_top_of("generated zsnap TOML did not parse".to_owned(), e)),
        Ok(config) => match config.validate() {
            Err(e) => Err(
                Error::on_top_of(
                    "generated zsnap configuration failed validation".to_owned(),
                    &e,
                ),
            ),
            Ok(_) => Ok(()),
        },
    }
}

/// The section of a dataset as a draft and its place make it.
pub open spec fn section_of(draft: DraftModel, place: PlacementModel) -> DatasetModel {
    DatasetModel {
        use_templates: place.templates,
        recursive: draft.recursive,
        process_children_only: place.children_only,
        policy: draft.policy,
    }
}

/// The dataset sections of a conversion.
pub open spec fn sections_of(drafts: Drafts, places: Seq<PlacementModel>) -> Seq<
    (Seq<char>, DatasetModel),
> {
    Seq::new(drafts.len(), |i: int| (drafts[i].0, section_of(drafts[i].1, places[i])))
}

/// Whether a configuration is what a conversion amounts to: the first version,
/// host-local times, the prefix of Sanoid, no notifications, and the converted
/// templates and datasets.
pub open spec fn is_migrated(
    config: ConfigModel,
    templates: Patches,
    drafts: Drafts,
    places: Seq<PlacementModel>,
) -> bool {
    &&& config.version == 1
    &&& config.settings.timezone == ScheduleTimezone::Local
    &&& config.settings.snapshot_prefix == "autosnap"@
    &&& !config.notifications.enabled
    &&& config.templates == templates
    &&& config.datasets == sections_of(drafts, places)
}

fn same_templates(read: &NameMap<PolicyPatch>, templates: &NameMap<PolicyPatch>) -> (res: bool)
    ensures
        res == (read@ == templates@),
{
    if read.len() != templates.len() {
        return false;
    }
    let mut i: usize = 0;
    while i < read.len()
        invariant
            i <= read@.len(),
            read@.len() == templates@.len(),
            forall|j: int| 0 <= j < i ==> read@[j] == templates@[j],
        decreases read@.len() - i,
    {
        if !same(read.name_at(i).as_str(), templates.name_at(i).as_str())
            || !read.value_at(i).says_same(templates.value_at(i)) {
            assert(read@[i as int] != templates@[i as int]);
            return false;
        }
        i += 1;
    }
    assert(read@ =~= templates@);
    true
}

fn same_datasets(
    read: &NameMap<DatasetConfig>,
    drafts: &NameMap<Draft>,
    places: &Vec<Placement>,
) -> (res: bool)
    requires
        places@.len() == drafts@.len(),
    ensures
        res == (read@ == sections_of(drafts@, views(places@))),
{
    let ghost all = sections_of(drafts@, views(places@));
    if read.len() != drafts.len() {
        return false;
    }
    let mut i: usize = 0;
    while i < read.len()
        invariant
            i <= read@.len(),
            read@.len() == drafts@.len(),
            places@.len() == drafts@.len(),
            all == sections_of(drafts@, views(places@)),
            forall|j: int| 0 <= j < i ==> read@[j] == all[j],
        decreases read@.len() - i,
    {
        let section = read.value_at(i);
        let draft = drafts.value_at(i);
        assert(views(places@)[i as int] == places@[i as int]@);
        if !same(read.name_at(i).as_str(), drafts.name_at(i).as_str()) || !same_texts(
            &section.use_templates,
            &places[i].templates,
        ) || section.recursive != draft.recursive || section.process_children_only
            != places[i].children_only || !section.policy.says_same(&draft.policy) {
            assert(read@[i as int] != all[i as int]);
            return false;
        }
        assert(read@[i as int] == all[i as int]);
        i += 1;
    }
    assert(read@ =~= all);
    true
}

/// Whether a configuration that was read back is what was converted.
fn reads_back(config: &Config, parts: &Parts) -> (res: bool)
    requires
        parts.places@.len() == parts.drafts@.len(),
    ensures
        res == is_migrated(config@, parts@.templates, parts@.drafts, parts@.places),
{
    let local = match config.settings.timezone {
        ScheduleTimezone::Local => true,
        ScheduleTimezone::Utc => false,
    };
    config.version == 1 && local && same(config.settings.snapshot_prefix.as_str(), "autosnap")
        && !config.notifications.enabled && same_templates(&config.templates, &parts.templates)
        && same_datasets(&config.datasets, &parts.drafts, &parts.places)
}

// ---------------------------------------------------------------------------
// The conversion
// ---------------------------------------------------------------------------

/// The names of the base template and of the user's default template.
pub open spec fn base_name(source: Sections) -> Seq<char> {
    free_name("sanoid_defaults"@, named_templates(source, 0, Seq::empty()))
}

pub open spec fn user_name(source: Sections) -> Seq<char> {
    free_name(
        "sanoid_user_defaults"@,
        with_name(named_templates(source, 0, Seq::empty()), base_name(source)),
    )
}

/// The templates that stand behind those of the source.
pub open spec fn first_templates(source: Sections, defaults: DefaultsModel) -> Patches {
    let base = put(Seq::<(Seq<char>, PatchModel)>::empty(), base_name(source), defaults.base);
    match defaults.user {
        Some(user) => put(base, user_name(source), user),
        None => base,
    }
}

/// What a converted configuration consists of.
pub struct Parts {
    pub templates: NameMap<PolicyPatch>,
    pub drafts: NameMap<Draft>,
    pub places: Vec<Placement>,
    pub warnings: Vec<String>,
}

/// The model of [`Parts`].
pub struct PartsModel {
    pub templates: Patches,
    pub drafts: Drafts,
    pub places: Seq<PlacementModel>,
    pub warnings: Seq<Seq<char>>,
}

impl View for Parts {
    type V = PartsModel;

    open spec fn view(&self) -> PartsModel {
        PartsModel {
            templates: self.templates@,
            drafts: self.drafts@,
            places: views(self.places@),
            warnings: texts(self.warnings@),
        }
    }
}

/// The parts of a conversion, from the sections and the policies behind them.
pub open spec fn assembled(source: Sections, defaults: DefaultsModel) -> Result<
    PartsModel,
    Fault,
> {
    match converted_templates(
        source,
        0,
        first_templates(source, defaults),
        defaults.warnings,
    ) {
        Err(message) => Err(message),
        Ok((templates, warnings)) => match converted_datasets(
            source,
            0,
            named_templates(source, 0, Seq::empty()),
            if defaults.user is Some {
                Some(user_name(source))
            } else {
                None
            },
            Seq::empty(),
            warnings,
        ) {
            Err(message) => Err(message),
            Ok((drafts, warnings)) => if drafts.len() == 0 {
                Err(plain("Sanoid configuration does not contain any dataset sections"@))
            } else {
                match placements(
                    drafts,
                    0,
                    base_name(source),
                    defaults.children_only,
                    Seq::empty(),
                ) {
                    Err(message) => Err(message),
                    Ok(places) => Ok(PartsModel { templates, drafts, places, warnings }),
                }
            },
        },
    }
}

fn assemble(source: &NameMap<Section>, defaults: Defaults) -> (res: Result<Parts, Error>)
    ensures
        yields(res, assembled(source@, defaults@)),
        res matches Ok(parts) ==> parts.places@.len() == parts.drafts@.len(),
{
    let named = read_template_names(source);
    let base = unique_template_name("sanoid_defaults", &named);
    let mut reserved = named.copy();
    reserved.insert(base.clone());
    let mut templates: NameMap<PolicyPatch> = NameMap::new();
    templates.insert(base.clone(), defaults.base);
    let user: Option<String> = match defaults.user {
        Some(policy) => {
            let name = unique_template_name("sanoid_user_defaults", &reserved);
            templates.insert(name.clone(), policy);
            Some(name)
        },
        None => None,
    };
    let mut warnings = defaults.warnings;
    convert_templates(source, &mut templates, &mut warnings)?;
    let drafts = convert_datasets(source, &named, &user, &mut warnings)?;
    if drafts.is_empty() {
        return Err(error("Sanoid configuration does not contain any dataset sections"));
    }
    let places = apply_base_template(base.as_str(), defaults.children_only, &drafts)?;
    Ok(Parts { templates, drafts, places, warnings })
}

/// The parts of a conversion, from the text of the source and that of the
/// defaults file.
pub open spec fn converted(source: Seq<char>, defaults: Option<Seq<char>>) -> Result<
    PartsModel,
    Fault,
> {
    match file_read(source, "Sanoid configuration"@, Seq::empty()) {
        Err(message) => Err(message),
        Ok(read) => {
            let shipped = match defaults {
                None => shipped_defaults(None, read.warnings),
                Some(raw) => match file_read(raw, "Sanoid defaults"@, read.warnings) {
                    Err(message) => Err(message),
                    Ok(file) => shipped_defaults(Some(file.sections), file.warnings),
                },
            };
            match shipped {
                Err(message) => Err(message),
                Ok((base, warnings)) => match all_defaults(read.sections, base, warnings) {
                    Err(message) => Err(message),
                    Ok(defaults) => assembled(read.sections, defaults),
                },
            }
        },
    }
}

/// Converts the sections of the two files.
pub fn convert_sections(source: &str, defaults: Option<&str>) -> (res: Result<Parts, Error>)
    ensures
        yields(
            res,
            converted(
                source@,
                match defaults {
                    Some(raw) => Some(raw@),
                    None => None,
                },
            ),
        ),
        res matches Ok(parts) ==> parts.places@.len() == parts.drafts@.len(),
{
    let none: Vec<String> = Vec::new();
    assert(texts(none@) =~= Seq::<Seq<char>>::empty());
    let read = parse_sanoid(source, "Sanoid configuration", none)?;
    let mut base = standard_sanoid_defaults();
    let mut warnings = read.warnings;
    if let Some(raw) = defaults {
        let file = parse_sanoid(raw, "Sanoid defaults", warnings)?;
        warnings = file.warnings;
        if let Some(section) = file.sections.get("template_default") {
            apply_policy(
                "template_default in Sanoid defaults",
                section,
                &mut base,
                &mut warnings,
                false,
            )?;
        }
    }
    let defaults = read_defaults(&read.sections, base, warnings)?;
    assemble(&read.sections, defaults)
}

/// A whole conversion: the file is read back before it is handed out, and
/// nothing comes out that says less than was converted.
pub open spec fn migrated(source: Seq<char>, defaults: Option<Seq<char>>) -> Result<
    MigrationModel,
    Fault,
> {
    match converted(source, defaults) {
        Err(message) => Err(message),
        Ok(parts) => {
            let text = rendered(parts.templates, parts.drafts, parts.places);
            match usable(parsed_config(text)) {
                Some(message) => Err(message),
                None => if is_migrated(
                    parsed_config(text)->Ok_0,
                    parts.templates,
                    parts.drafts,
                    parts.places,
                ) {
                    Ok(
                        MigrationModel {
                            config_toml: text,
                            warnings: parts.warnings,
                            datasets: parts.drafts.len(),
                            templates: parts.templates.len(),
                        },
                    )
                } else {
                    Err(plain("generated zsnap TOML does not say what was converted"@))
                },
            }
        },
    }
}

/// Converts a Sanoid configuration. What comes out has been read back with
/// [`Config::parse`], passed [`Config::validate`], and holds all the templates
/// and datasets that were converted, at least one dataset among them.
pub fn convert_sanoid(source: &str, defaults: Option<&str>) -> (res: Result<SanoidMigration, Error>)
    ensures
        yields(
            res,
            migrated(
                source@,
                match defaults {
                    Some(raw) => Some(raw@),
                    None => None,
                },
            ),
        ),
        res matches Ok(migration) ==> migration.datasets > 0,
        res matches Ok(migration) ==> parsed_config(migration.config_toml@) matches Ok(config)
            && config_fault(config) is None && config.version == 1 && config.settings.timezone
            == ScheduleTimezone::Local && config.settings.snapshot_prefix == "autosnap"@
            && !config.notifications.enabled && config.templates.len() == migration.templates
            && config.datasets.len() == migration.datasets,
{
    let parts = convert_sections(source, defaults)?;
    let config_toml = render_output(&parts.templates, &parts.drafts, &parts.places);
    let read = Config::parse(config_toml.as_str());
    check_generated(&read)?;
    let datasets: usize = parts.drafts.len();
    let templates: usize = parts.templates.len();
    if let Ok(config) = &read {
        if !reads_back(config, &parts) {
            return Err(error("generated zsnap TOML does not say what was converted"));
        }
    }
    Ok(SanoidMigration { config_toml, warnings: parts.warnings, datasets, templates })
}

} // verus!
