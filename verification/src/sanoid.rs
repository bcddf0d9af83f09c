//! The Sanoid configuration format: sections of settings, and what a setting
//! says about a policy.
use vstd::prelude::*;

use crate::error::{caused, plain, tells, Error, Fault};
use crate::integer::{i64_complaint, i64_words, narrowing_complaint, narrowing_words, number_error, u32_complaint, u32_words};
use crate::names::{lemma_put_back, lookup, put, NameMap};
use crate::policy::{empty_patch, PatchModel, PolicyPatch};
use crate::text::{cut, debug_text, decimal, drop_prefix, ends_with, has_char, has_prefix, has_suffix, lemma_texts_push, lines, lowercase, lowercased, number, parse_signed, parse_unsigned, quoted, same, signed, split_lines, split_once, starts_with, strip_prefix, texts, trim, trimmed, unsigned};
use crate::webhook::optional_text;

verus! {

/// The value of a setting, and the line it stands on.
pub struct Entry {
    pub value: String,
    pub line: usize,
}

/// The model of an [`Entry`].
pub struct EntryModel {
    pub value: Seq<char>,
    pub line: nat,
}

impl View for Entry {
    type V = EntryModel;

    open spec fn view(&self) -> EntryModel {
        EntryModel { value: self.value@, line: self.line as nat }
    }
}

/// The settings of one section.
pub type Section = NameMap<Entry>;

pub type SectionModel = Seq<(Seq<char>, EntryModel)>;

/// What has been read of a file.
pub struct Sanoid {
    pub sections: NameMap<Section>,
    /// The section that settings go to.
    pub current: Option<String>,
    pub warnings: Vec<String>,
}

/// The model of a [`Sanoid`].
pub struct SanoidModel {
    pub sections: Seq<(Seq<char>, SectionModel)>,
    pub current: Option<Seq<char>>,
    pub warnings: Seq<Seq<char>>,
}

impl View for Sanoid {
    type V = SanoidModel;

    open spec fn view(&self) -> SanoidModel {
        SanoidModel {
            sections: self.sections@,
            current: optional_text(self.current),
            warnings: texts(self.warnings@),
        }
    }
}

// ---------------------------------------------------------------------------
// Lines
// ---------------------------------------------------------------------------

/// A remark about a line of a file.
pub open spec fn remark(label: Seq<char>, at: nat, text: Seq<char>) -> Seq<char> {
    label + " line "@ + decimal(at) + ": "@ + text
}

fn remark_on(label: &str, at: usize, text: &str) -> (res: String)
    ensures
        res@ == remark(label@, at as nat, text@),
{
    let mut res = label.to_owned();
    res.append(" line ");
    res.append(number(at as u64).as_str());
    res.append(": ");
    res.append(text);
    res
}

/// Whether a line or the rest of one is nothing but a comment.
pub open spec fn is_remark(text: Seq<char>) -> bool {
    text.len() == 0 || has_prefix(text, "#"@) || has_prefix(text, ";"@)
}

fn is_comment(text: &str) -> (res: bool)
    ensures
        res == is_remark(text@),
{
    text.is_empty() || starts_with(text, "#") || starts_with(text, ";")
}

/// The name in a section header, after its opening bracket.
pub open spec fn section_name(rest: Seq<char>, label: Seq<char>, at: nat) -> Result<
    Seq<char>,
    Fault,
> {
    match cut(rest, ']') {
        None => Err(plain(remark(label, at, "unterminated section header"@))),
        Some((name, trailing)) => if trim(name).len() == 0 {
            Err(plain(remark(label, at, "section name cannot be empty"@)))
        } else if !is_remark(trim(trailing)) {
            Err(plain(remark(label, at, "unexpected text after section header"@)))
        } else {
            Ok(trim(name))
        },
    }
}

fn read_section_name(rest: &str, label: &str, at: usize) -> (res: Result<String, Error>)
    ensures
        crate::error::yields(res, section_name(rest@, label@, at as nat)),
{
    match split_once(rest, ']') {
        None => Err(Error::new(remark_on(label, at, "unterminated section header"))),
        Some((name, trailing)) => {
            let name = trimmed(name.as_str());
            if name.as_str().is_empty() {
                Err(Error::new(remark_on(label, at, "section name cannot be empty")))
            } else if !is_comment(trimmed(trailing.as_str()).as_str()) {
                Err(Error::new(remark_on(label, at, "unexpected text after section header")))
            } else {
                Ok(name)
            }
        },
    }
}

/// What is read once a section header has been read: a section that was there
/// before goes on.
pub open spec fn opened(state: SanoidModel, name: Seq<char>, label: Seq<char>, at: nat) -> SanoidModel {
    let known = lookup(state.sections, name) is Some;
    SanoidModel {
        sections: if known {
            state.sections
        } else {
            put(state.sections, name, Seq::empty())
        },
        current: Some(name),
        warnings: if known {
            state.warnings.push(remark(label, at, "merged duplicate section ["@ + name + "]"@))
        } else {
            state.warnings
        },
    }
}

/// The settings of a section, none where there is no such section.
pub open spec fn settings_of(
    sections: Seq<(Seq<char>, SectionModel)>,
    name: Seq<char>,
) -> SectionModel {
    match lookup(sections, name) {
        Some(section) => section,
        None => Seq::empty(),
    }
}

/// What is read once a setting has been read: the first value of a setting
/// stands.
pub open spec fn with_setting(
    state: SanoidModel,
    section: Seq<char>,
    key: Seq<char>,
    value: Seq<char>,
    label: Seq<char>,
    at: nat,
) -> SanoidModel {
    let settings = settings_of(state.sections, section);
    match lookup(settings, key) {
        Some(first) => SanoidModel {
            warnings: state.warnings.push(
                remark(
                    label,
                    at,
                    "ignored duplicate "@ + debug_text(key) + " in ["@ + section
                        + "]; first defined on line "@ + decimal(first.line),
                ),
            ),
            ..state
        },
        None => SanoidModel {
            sections: put(
                state.sections,
                section,
                put(settings, key, EntryModel { value, line: at }),
            ),
            ..state
        },
    }
}

/// What is read once a line has been read; `line` has no space around it.
pub open spec fn line_read(
    state: SanoidModel,
    line: Seq<char>,
    label: Seq<char>,
    at: nat,
) -> Result<SanoidModel, Fault> {
    if is_remark(line) {
        Ok(state)
    } else {
        match drop_prefix(line, "["@) {
            Some(rest) => match section_name(rest, label, at) {
                Err(message) => Err(message),
                Ok(name) => Ok(opened(state, name, label, at)),
            },
            None => match (state.current, cut(line, '=')) {
                (None, _) => Err(plain(remark(label, at, "setting appears before any section"@))),
                (Some(_), None) => Err(plain(remark(label, at, "expected `key = value`"@))),
                (Some(section), Some((key, value))) => if trim(key).len() == 0 {
                    Err(plain(remark(label, at, "setting name cannot be empty"@)))
                } else {
                    Ok(with_setting(state, section, trim(key), trim(value), label, at))
                },
            },
        }
    }
}

/// What is read once the lines from `i` on have been read.
pub open spec fn lines_read(
    source: Seq<Seq<char>>,
    i: int,
    state: SanoidModel,
    label: Seq<char>,
) -> Result<SanoidModel, Fault>
    decreases source.len() - i,
{
    if i >= source.len() {
        Ok(state)
    } else {
        match line_read(state, trim(source[i]), label, (i + 1) as nat) {
            Err(message) => Err(message),
            Ok(next) => lines_read(source, i + 1, next, label),
        }
    }
}

/// A text without a byte order mark in front.
pub open spec fn unmarked(raw: Seq<char>) -> Seq<char> {
    match drop_prefix(raw, "\u{feff}"@) {
        Some(rest) => rest,
        None => raw,
    }
}

/// What a file holds, after the warnings that came before.
pub open spec fn file_read(raw: Seq<char>, label: Seq<char>, warnings: Seq<Seq<char>>) -> Result<
    SanoidModel,
    Fault,
> {
    if raw.contains('\0') {
        Err(plain(label + " contains a NUL byte"@))
    } else {
        lines_read(
            lines(unmarked(raw)),
            0,
            SanoidModel { sections: Seq::empty(), current: None, warnings },
            label,
        )
    }
}

impl Sanoid {
    fn warn(&mut self, warning: String)
        ensures
            final(self)@ == (SanoidModel {
                warnings: old(self)@.warnings.push(warning@),
                ..old(self)@
            }),
    {
        proof {
            lemma_texts_push(self.warnings@, warning);
        }
        self.warnings.push(warning);
    }

    fn open(&mut self, name: String, label: &str, at: usize)
        ensures
            final(self)@ == opened(old(self)@, name@, label@, at as nat),
    {
        if self.sections.contains_key(name.as_str()) {
            let mut text = "merged duplicate section [".to_owned();
            text.append(name.as_str());
            text.append("]");
            self.warn(remark_on(label, at, text.as_str()));
        } else {
            self.sections.insert(name.clone(), NameMap::new());
        }
        self.current = Some(name);
    }

    fn set(&mut self, section: &String, key: String, value: String, label: &str, at: usize)
        ensures
            final(self)@ == with_setting(
                old(self)@,
                section@,
                key@,
                value@,
                label@,
                at as nat,
            ),
    {
        let first = match self.sections.get(section.as_str()) {
            Some(settings) => match settings.get(key.as_str()) {
                Some(entry) => Some(entry.line),
                None => None,
            },
            None => {
                assert(lookup(Seq::<(Seq<char>, EntryModel)>::empty(), key@) is None);
                None
            },
        };
        match first {
            Some(line) => {
                let mut text = "ignored duplicate ".to_owned();
                text.append(quoted(key.as_str()).as_str());
                text.append(" in [");
                text.append(section.as_str());
                text.append("]; first defined on line ");
                text.append(number(line as u64).as_str());
                self.warn(remark_on(label, at, text.as_str()));
            },
            None => {
                let ghost all = self.sections@;
                let mut settings = match self.sections.remove(section.as_str()) {
                    Some(settings) => settings,
                    None => NameMap::new(),
                };
                settings.insert(key, Entry { value, line: at });
                proof {
                    lemma_put_back(all, section@, settings@);
                }
                self.sections.insert(section.clone(), settings);
            },
        }
    }

    fn read_line(&mut self, line: &str, label: &str, at: usize) -> (res: Result<(), Error>)
        ensures
            match line_read(old(self)@, line@, label@, at as nat) {
                Ok(next) => res is Ok && final(self)@ == next,
                Err(message) => res matches Err(e) && e@ == message,
            },
    {
        if is_comment(line) {
            return Ok(());
        }
        if let Some(rest) = strip_prefix(line, "[") {
            let name = read_section_name(rest.as_str(), label, at)?;
            self.open(name, label, at);
            return Ok(());
        }
        let section = match &self.current {
            Some(section) => section.clone(),
            None => {
                return Err(
                    Error::new(remark_on(label, at, "setting appears before any section")),
                );
            },
        };
        match split_once(line, '=') {
            None => Err(Error::new(remark_on(label, at, "expected `key = value`"))),
            Some((key, value)) => {
                let key = trimmed(key.as_str());
                if key.as_str().is_empty() {
                    return Err(Error::new(remark_on(label, at, "setting name cannot be empty")));
                }
                self.set(&section, key, trimmed(value.as_str()), label, at);
                Ok(())
            },
        }
    }
}

/// Reads a Sanoid configuration file. A section that occurs again goes on, and
/// of a setting that occurs again the first value stands; both are warned of.
pub fn parse_sanoid(raw: &str, label: &str, warnings: Vec<String>) -> (res: Result<Sanoid, Error>)
    ensures
        crate::error::yields(res, file_read(raw@, label@, texts(warnings@))),
{
    if has_char(raw, '\0') {
        let mut message = label.to_owned();
        message.append(" contains a NUL byte");
        return Err(Error::new(message));
    }
    let source = match strip_prefix(raw, "\u{feff}") {
        Some(rest) => split_lines(rest.as_str()),
        None => split_lines(raw),
    };
    let ghost all = lines(unmarked(raw@));
    let mut state = Sanoid { sections: NameMap::new(), current: None, warnings };
    let ghost start = state@;
    let mut i: usize = 0;
    while i < source.len()
        invariant
            i <= source@.len(),
            texts(source@) == all,
            lines_read(all, 0, start, label@) == lines_read(all, i as int, state@, label@),
            file_read(raw@, label@, texts(warnings@)) == lines_read(all, 0, start, label@),
        decreases source.len() - i,
    {
        assert(all[i as int] == source@[i as int]@);
        state.read_line(trimmed(source[i].as_str()).as_str(), label, i + 1)?;
        i += 1;
    }
    Ok(state)
}

// ---------------------------------------------------------------------------
// Values
// ---------------------------------------------------------------------------

/// A remark about a setting.
pub open spec fn about(section: Seq<char>, key: Seq<char>, line: nat, text: Seq<char>) -> Seq<char> {
    "["@ + section + "] "@ + key + " on line "@ + decimal(line) + text
}

fn remark_about(section: &str, key: &str, line: usize, text: &str) -> (res: String)
    ensures
        res@ == about(section@, key@, line as nat, text@),
{
    let mut res = "[".to_owned();
    res.append(section);
    res.append("] ");
    res.append(key);
    res.append(" on line ");
    res.append(number(line as u64).as_str());
    res.append(text);
    res
}

/// A truth value.
pub open spec fn flag_of(section: Seq<char>, key: Seq<char>, entry: EntryModel) -> Result<
    bool,
    Fault,
> {
    let word = lowercase(trim(entry.value));
    if word == "1"@ || word == "true"@ || word == "yes"@ || word == "on"@ {
        Ok(true)
    } else if word == ""@ || word == "0"@ || word == "false"@ || word == "no"@ || word == "off"@ {
        Ok(false)
    } else {
        Err(plain(about(section, key, entry.line, " must be yes/no, true/false, on/off, or 1/0"@)))
    }
}

pub fn parse_bool(section: &str, key: &str, entry: &Entry) -> (res: Result<bool, Error>)
    ensures
        tells(res, flag_of(section@, key@, entry@)),
{
    let word = lowercased(trimmed(entry.value.as_str()).as_str());
    let word = word.as_str();
    if same(word, "1") || same(word, "true") || same(word, "yes") || same(word, "on") {
        Ok(true)
    } else if same(word, "") || same(word, "0") || same(word, "false") || same(word, "no") || same(
        word,
        "off",
    ) {
        Ok(false)
    } else {
        Err(
            Error::new(
                remark_about(
                    section,
                    key,
                    entry.line,
                    " must be yes/no, true/false, on/off, or 1/0",
                ),
            ),
        )
    }
}

/// A number that is not negative.
pub open spec fn number_of(section: Seq<char>, key: Seq<char>, entry: EntryModel) -> Result<
    u32,
    Fault,
> {
    match parse_unsigned(entry.value, u32::MAX as nat) {
        Some(n) => Ok(n as u32),
        None => Err(
            caused(
                about(section, key, entry.line, " must be a non-negative integer"@),
                u32_words(entry.value),
            ),
        ),
    }
}

pub fn parse_u32(section: &str, key: &str, entry: &Entry) -> (res: Result<u32, Error>)
    ensures
        tells(res, number_of(section@, key@, entry@)),
{
    match unsigned(entry.value.as_str(), u32::MAX as u64) {
        Some(n) => Ok(n as u32),
        None => Err(
            number_error(
                remark_about(section, key, entry.line, " must be a non-negative integer"),
                u32_complaint(entry.value.as_str()),
            ),
        ),
    }
}

/// A day of the week, with Sunday as 7; Sanoid also counts it as 0.
pub open spec fn weekday_of(section: Seq<char>, entry: EntryModel) -> Result<u32, Fault> {
    match number_of(section, "weekly_wday"@, entry) {
        Err(message) => Err(message),
        Ok(0) => Ok(7u32),
        Ok(day) => if day <= 7 {
            Ok(day)
        } else {
            Err(plain(
                about(
                    section,
                    "weekly_wday"@,
                    entry.line,
                    " must be 0 (Sunday) through 7 (Sunday)"@,
                ),
            ))
        },
    }
}

pub fn parse_weekly_wday(section: &str, entry: &Entry) -> (res: Result<u32, Error>)
    ensures
        tells(res, weekday_of(section@, entry@)),
{
    let day: u32 = parse_u32(section, "weekly_wday", entry)?;
    if day == 0 {
        Ok(7)
    } else if day <= 7 {
        Ok(day)
    } else {
        Err(
            Error::new(
                remark_about(
                    section,
                    "weekly_wday",
                    entry.line,
                    " must be 0 (Sunday) through 7 (Sunday)",
                ),
            ),
        )
    }
}

/// A time limit in seconds; any that is not positive is no limit, which is 0.
pub open spec fn timeout_of(section: Seq<char>, entry: EntryModel) -> Result<u64, Fault> {
    match parse_signed(entry.value) {
        None => Err(
            caused(
                about(section, "script_timeout"@, entry.line, " must be an integer"@),
                i64_words(entry.value),
            ),
        ),
        Some(seconds) => Ok(
            if seconds > 0 {
                seconds as u64
            } else {
                0u64
            },
        ),
    }
}

pub fn parse_timeout(section: &str, entry: &Entry) -> (res: Result<u64, Error>)
    ensures
        tells(res, timeout_of(section@, entry@)),
{
    match signed(entry.value.as_str()) {
        None => Err(
            number_error(
                remark_about(section, "script_timeout", entry.line, " must be an integer"),
                i64_complaint(entry.value.as_str()),
            ),
        ),
        Some(seconds) => Ok(
            if seconds > 0 {
                seconds as u64
            } else {
                0
            },
        ),
    }
}

// ---------------------------------------------------------------------------
// Settings of a policy
// ---------------------------------------------------------------------------

/// The settings that hold a truth value.
pub open spec fn names_flag(key: Seq<char>) -> bool {
    key == "autosnap"@
        || key == "autoprune"@
        || key == "no_inconsistent_snapshot"@
        || key == "force_post_snapshot_script"@
}

fn is_flag(key: &str) -> (res: bool)
    ensures
        res == names_flag(key@),
{
    same(key, "autosnap") || same(key, "autoprune") || same(key, "no_inconsistent_snapshot") || same(key, "force_post_snapshot_script")
}

/// The settings that hold a plain number.
pub open spec fn names_number(key: Seq<char>) -> bool {
    key == "frequently"@
        || key == "hourly"@
        || key == "daily"@
        || key == "weekly"@
        || key == "monthly"@
        || key == "yearly"@
        || key == "frequent_period"@
        || key == "hourly_min"@
        || key == "daily_hour"@
        || key == "daily_min"@
        || key == "weekly_hour"@
        || key == "weekly_min"@
        || key == "monthly_mday"@
        || key == "monthly_hour"@
        || key == "monthly_min"@
        || key == "yearly_mon"@
        || key == "yearly_mday"@
        || key == "yearly_hour"@
        || key == "yearly_min"@
}

fn is_number(key: &str) -> (res: bool)
    ensures
        res == names_number(key@),
{
    same(key, "frequently") || same(key, "hourly") || same(key, "daily") || same(key, "weekly") || same(key, "monthly") || same(key, "yearly") || same(key, "frequent_period") || same(key, "hourly_min") || same(key, "daily_hour") || same(key, "daily_min") || same(key, "weekly_hour") || same(key, "weekly_min") || same(key, "monthly_mday") || same(key, "monthly_hour") || same(key, "monthly_min") || same(key, "yearly_mon") || same(key, "yearly_mday") || same(key, "yearly_hour") || same(key, "yearly_min")
}

/// The settings that hold a command.
pub open spec fn names_hook(key: Seq<char>) -> bool {
    key == "pre_snapshot_script"@
        || key == "post_snapshot_script"@
        || key == "pre_pruning_script"@
        || key == "pruning_script"@
}

fn is_hook(key: &str) -> (res: bool)
    ensures
        res == names_hook(key@),
{
    same(key, "pre_snapshot_script") || same(key, "post_snapshot_script") || same(key, "pre_pruning_script") || same(key, "pruning_script")
}

/// The settings that say where a policy applies.
pub open spec fn names_structure(key: Seq<char>) -> bool {
    key == "path"@
        || key == "recursive"@
        || key == "use_template"@
        || key == "process_children_only"@
        || key == "skip_children"@
}

fn is_structural(key: &str) -> (res: bool)
    ensures
        res == names_structure(key@),
{
    same(key, "path") || same(key, "recursive") || same(key, "use_template") || same(key, "process_children_only") || same(key, "skip_children")
}

/// The settings that only monitoring reads.
pub open spec fn names_monitoring(key: Seq<char>) -> bool {
    key == "monitor"@
        || key == "monitor_dont_warn"@
        || key == "monitor_dont_crit"@
        || key == "capacity_warn"@
        || key == "capacity_crit"@
        || has_suffix(key, "_warn"@)
        || has_suffix(key, "_crit"@)
}

pub fn is_monitoring_setting(key: &str) -> (res: bool)
    ensures
        res == names_monitoring(key@),
{
    same(key, "monitor") || same(key, "monitor_dont_warn") || same(key, "monitor_dont_crit") || same(key, "capacity_warn") || same(key, "capacity_crit") || ends_with(key, "_warn") || ends_with(key, "_crit")
}

/// A policy with another truth value.
pub open spec fn with_flag(policy: PatchModel, key: Seq<char>, value: bool) -> PatchModel {
    if key == "autosnap"@ {
        PatchModel { autosnap: Some(value), ..policy }
    } else if key == "autoprune"@ {
        PatchModel { autoprune: Some(value), ..policy }
    } else if key == "no_inconsistent_snapshot"@ {
        PatchModel { no_inconsistent_snapshot: Some(value), ..policy }
    } else {
        PatchModel { force_post_snapshot_script: Some(value), ..policy }
    }
}

fn set_flag(policy: &mut PolicyPatch, key: &str, value: bool)
    ensures
        final(policy)@ == with_flag(old(policy)@, key@, value),
{
    if same(key, "autosnap") {
        policy.autosnap = Some(value);
    } else if same(key, "autoprune") {
        policy.autoprune = Some(value);
    } else if same(key, "no_inconsistent_snapshot") {
        policy.no_inconsistent_snapshot = Some(value);
    } else {
        policy.force_post_snapshot_script = Some(value);
    }
}

/// A policy with another number.
pub open spec fn with_number(policy: PatchModel, key: Seq<char>, value: u32) -> PatchModel {
    if key == "frequently"@ {
        PatchModel { frequently: Some(value), ..policy }
    } else if key == "hourly"@ {
        PatchModel { hourly: Some(value), ..policy }
    } else if key == "daily"@ {
        PatchModel { daily: Some(value), ..policy }
    } else if key == "weekly"@ {
        PatchModel { weekly: Some(value), ..policy }
    } else if key == "monthly"@ {
        PatchModel { monthly: Some(value), ..policy }
    } else if key == "yearly"@ {
        PatchModel { yearly: Some(value), ..policy }
    } else if key == "frequent_period"@ {
        PatchModel { frequent_period: Some(value), ..policy }
    } else if key == "hourly_min"@ {
        PatchModel { hourly_min: Some(value), ..policy }
    } else if key == "daily_hour"@ {
        PatchModel { daily_hour: Some(value), ..policy }
    } else if key == "daily_min"@ {
        PatchModel { daily_min: Some(value), ..policy }
    } else if key == "weekly_hour"@ {
        PatchModel { weekly_hour: Some(value), ..policy }
    } else if key == "weekly_min"@ {
        PatchModel { weekly_min: Some(value), ..policy }
    } else if key == "monthly_mday"@ {
        PatchModel { monthly_mday: Some(value), ..policy }
    } else if key == "monthly_hour"@ {
        PatchModel { monthly_hour: Some(value), ..policy }
    } else if key == "monthly_min"@ {
        PatchModel { monthly_min: Some(value), ..policy }
    } else if key == "yearly_mon"@ {
        PatchModel { yearly_mon: Some(value), ..policy }
    } else if key == "yearly_mday"@ {
        PatchModel { yearly_mday: Some(value), ..policy }
    } else if key == "yearly_hour"@ {
        PatchModel { yearly_hour: Some(value), ..policy }
    } else {
        PatchModel { yearly_min: Some(value), ..policy }
    }
}

fn set_number(policy: &mut PolicyPatch, key: &str, value: u32)
    ensures
        final(policy)@ == with_number(old(policy)@, key@, value),
{
    if same(key, "frequently") {
        policy.frequently = Some(value);
    } else if same(key, "hourly") {
        policy.hourly = Some(value);
    } else if same(key, "daily") {
        policy.daily = Some(value);
    } else if same(key, "weekly") {
        policy.weekly = Some(value);
    } else if same(key, "monthly") {
        policy.monthly = Some(value);
    } else if same(key, "yearly") {
        policy.yearly = Some(value);
    } else if same(key, "frequent_period") {
        policy.frequent_period = Some(value);
    } else if same(key, "hourly_min") {
        policy.hourly_min = Some(value);
    } else if same(key, "daily_hour") {
        policy.daily_hour = Some(value);
    } else if same(key, "daily_min") {
        policy.daily_min = Some(value);
    } else if same(key, "weekly_hour") {
        policy.weekly_hour = Some(value);
    } else if same(key, "weekly_min") {
        policy.weekly_min = Some(value);
    } else if same(key, "monthly_mday") {
        policy.monthly_mday = Some(value);
    } else if same(key, "monthly_hour") {
        policy.monthly_hour = Some(value);
    } else if same(key, "monthly_min") {
        policy.monthly_min = Some(value);
    } else if same(key, "yearly_mon") {
        policy.yearly_mon = Some(value);
    } else if same(key, "yearly_mday") {
        policy.yearly_mday = Some(value);
    } else if same(key, "yearly_hour") {
        policy.yearly_hour = Some(value);
    } else {
        policy.yearly_min = Some(value);
    }
}

/// A policy with another command.
pub open spec fn with_hook(policy: PatchModel, key: Seq<char>, value: Seq<Seq<char>>) -> PatchModel {
    if key == "pre_snapshot_script"@ {
        PatchModel { pre_snapshot_script: Some(value), ..policy }
    } else if key == "post_snapshot_script"@ {
        PatchModel { post_snapshot_script: Some(value), ..policy }
    } else if key == "pre_pruning_script"@ {
        PatchModel { pre_pruning_script: Some(value), ..policy }
    } else {
        PatchModel { pruning_script: Some(value), ..policy }
    }
}

fn put_hook(policy: &mut PolicyPatch, key: &str, value: Vec<String>)
    ensures
        final(policy)@ == with_hook(old(policy)@, key@, texts(value@)),
{
    if same(key, "pre_snapshot_script") {
        policy.pre_snapshot_script = Some(value);
    } else if same(key, "post_snapshot_script") {
        policy.post_snapshot_script = Some(value);
    } else if same(key, "pre_pruning_script") {
        policy.pre_pruning_script = Some(value);
    } else {
        policy.pruning_script = Some(value);
    }
}

/// The arguments of the shell that runs a command.
pub open spec fn shell(command: Seq<char>) -> Seq<Seq<char>> {
    if command.len() == 0 {
        Seq::empty()
    } else {
        seq!["/bin/sh"@, "-c"@, command]
    }
}

fn shell_arguments(command: &String) -> (res: Vec<String>)
    ensures
        texts(res@) == shell(command@),
{
    let mut res: Vec<String> = Vec::new();
    if !command.as_str().is_empty() {
        res.push("/bin/sh".to_owned());
        res.push("-c".to_owned());
        res.push(command.clone());
    }
    assert(texts(res@) =~= shell(command@));
    res
}

pub open spec fn hook_warning(section: Seq<char>, key: Seq<char>, line: nat) -> Seq<char> {
    "["@ + section + "] converted "@ + key + " on line "@ + decimal(line)
        + " through `/bin/sh -c`; review the command before enabling zsnap"@
}

/// What a setting does to a policy, and the warnings after it. A command goes
/// through the shell and is warned of. `report` says whether the settings that
/// are left out are warned of.
pub open spec fn setting_applied(
    section: Seq<char>,
    key: Seq<char>,
    entry: EntryModel,
    policy: PatchModel,
    warnings: Seq<Seq<char>>,
    report: bool,
) -> Result<(PatchModel, Seq<Seq<char>>), Fault> {
    if names_flag(key) {
        match flag_of(section, key, entry) {
            Err(message) => Err(message),
            Ok(value) => Ok((with_flag(policy, key, value), warnings)),
        }
    } else if names_number(key) {
        match number_of(section, key, entry) {
            Err(message) => Err(message),
            Ok(value) => Ok((with_number(policy, key, value), warnings)),
        }
    } else if key == "weekly_wday"@ {
        match weekday_of(section, entry) {
            Err(message) => Err(message),
            Ok(value) => Ok((PatchModel { weekly_wday: Some(value), ..policy }, warnings)),
        }
    } else if key == "prune_defer"@ {
        match number_of(section, key, entry) {
            Err(message) => Err(message),
            Ok(value) => if value <= 255 {
                Ok((PatchModel { prune_defer: Some(value as u8), ..policy }, warnings))
            } else {
                Err(
                    caused(
                        about(section, key, entry.line, " exceeds 255"@),
                        narrowing_words(value),
                    ),
                )
            },
        }
    } else if key == "script_timeout"@ {
        match timeout_of(section, entry) {
            Err(message) => Err(message),
            Ok(value) => Ok((PatchModel { script_timeout: Some(value), ..policy }, warnings)),
        }
    } else if names_hook(key) {
        Ok(
            (
                with_hook(policy, key, shell(entry.value)),
                if entry.value.len() == 0 {
                    warnings
                } else {
                    warnings.push(hook_warning(section, key, entry.line))
                },
            ),
        )
    } else if names_structure(key) {
        Ok((policy, warnings))
    } else if names_monitoring(key) {
        Ok(
            (
                policy,
                if report {
                    warnings.push(
                        "["@ + section + "] ignored monitoring-only setting "@ + debug_text(key)
                            + " on line "@ + decimal(entry.line),
                    )
                } else {
                    warnings
                },
            ),
        )
    } else {
        Err(plain(
            "["@ + section + "] unknown or unsupported Sanoid setting "@ + debug_text(key)
                + " on line "@ + decimal(entry.line),
        ))
    }
}

/// A remark about a setting whose name stands in quotes.
fn remark_quoting(section: &str, text: &str, key: &str, line: usize) -> (res: String)
    ensures
        res@ == "["@ + section@ + text@ + debug_text(key@) + " on line "@ + decimal(line as nat),
{
    let mut res = "[".to_owned();
    res.append(section);
    res.append(text);
    res.append(quoted(key).as_str());
    res.append(" on line ");
    res.append(number(line as u64).as_str());
    res
}

/// A result on a policy and its warnings, as a specification gives it.
pub open spec fn leaves(
    res: Result<(), Error>,
    policy: PatchModel,
    warnings: Seq<Seq<char>>,
    expected: Result<(PatchModel, Seq<Seq<char>>), Fault>,
) -> bool {
    match (res, expected) {
        (Ok(_), Ok((other, others))) => policy == other && warnings == others,
        (Err(e), Err(message)) => e@ == message,
        _ => false,
    }
}

fn apply_setting(
    section: &str,
    key: &str,
    entry: &Entry,
    policy: &mut PolicyPatch,
    warnings: &mut Vec<String>,
    report: bool,
) -> (res: Result<(), Error>)
    ensures
        leaves(
            res,
            final(policy)@,
            texts(final(warnings)@),
            setting_applied(
                section@,
                key@,
                entry@,
                old(policy)@,
                texts(old(warnings)@),
                report,
            ),
        ),
{
    if is_flag(key) {
        let value = parse_bool(section, key, entry)?;
        set_flag(policy, key, value);
    } else if is_number(key) {
        let value: u32 = parse_u32(section, key, entry)?;
        set_number(policy, key, value);
    } else if same(key, "weekly_wday") {
        let value: u32 = parse_weekly_wday(section, entry)?;
        policy.weekly_wday = Some(value);
    } else if same(key, "prune_defer") {
        let value: u32 = parse_u32(section, key, entry)?;
        if value > 255 {
            return Err(
                number_error(
                    remark_about(section, key, entry.line, " exceeds 255"),
                    narrowing_complaint(value),
                ),
            );
        }
        policy.prune_defer = Some(value as u8);
    } else if same(key, "script_timeout") {
        let value: u64 = parse_timeout(section, entry)?;
        policy.script_timeout = Some(value);
    } else if is_hook(key) {
        put_hook(policy, key, shell_arguments(&entry.value));
        if !entry.value.as_str().is_empty() {
            let mut warning = "[".to_owned();
            warning.append(section);
            warning.append("] converted ");
            warning.append(key);
            warning.append(" on line ");
            warning.append(number(entry.line as u64).as_str());
            warning.append(" through `/bin/sh -c`; review the command before enabling zsnap");
            proof {
                lemma_texts_push(warnings@, warning);
            }
            warnings.push(warning);
        }
    } else if is_structural(key) {
    } else if is_monitoring_setting(key) {
        if report {
            let warning = remark_quoting(
                section,
                "] ignored monitoring-only setting ",
                key,
                entry.line,
            );
            proof {
                lemma_texts_push(warnings@, warning);
            }
            warnings.push(warning);
        }
    } else {
        return Err(
            Error::new(
                remark_quoting(
                    section,
                    "] unknown or unsupported Sanoid setting ",
                    key,
                    entry.line,
                ),
            ),
        );
    }
    Ok(())
}

/// What the settings from `i` on do to a policy.
pub open spec fn settings_applied(
    name: Seq<char>,
    section: SectionModel,
    i: int,
    policy: PatchModel,
    warnings: Seq<Seq<char>>,
    report: bool,
) -> Result<(PatchModel, Seq<Seq<char>>), Fault>
    decreases section.len() - i,
{
    if i >= section.len() {
        Ok((policy, warnings))
    } else {
        match setting_applied(name, section[i].0, section[i].1, policy, warnings, report) {
            Err(message) => Err(message),
            Ok((next, more)) => settings_applied(name, section, i + 1, next, more, report),
        }
    }
}

/// Applies the settings of a section to a policy, in the order of their names.
pub fn apply_policy(
    name: &str,
    section: &Section,
    policy: &mut PolicyPatch,
    warnings: &mut Vec<String>,
    report: bool,
) -> (res: Result<(), Error>)
    ensures
        leaves(
            res,
            final(policy)@,
            texts(final(warnings)@),
            settings_applied(
                name@,
                section@,
                0,
                old(policy)@,
                texts(old(warnings)@),
                report,
            ),
        ),
{
    let ghost goal = settings_applied(name@, section@, 0, policy@, texts(warnings@), report);
    let mut i: usize = 0;
    while i < section.len()
        invariant
            i <= section@.len(),
            goal == settings_applied(
                name@,
                section@,
                0,
                old(policy)@,
                texts(old(warnings)@),
                report,
            ),
            goal == settings_applied(
                name@,
                section@,
                i as int,
                policy@,
                texts(warnings@),
                report,
            ),
        decreases section@.len() - i,
    {
        apply_setting(
            name,
            section.name_at(i).as_str(),
            section.value_at(i),
            policy,
            warnings,
            report,
        )?;
        i += 1;
    }
    Ok(())
}

pub open spec fn structure_keys() -> Seq<Seq<char>> {
    seq!["path"@, "recursive"@, "use_template"@, "skip_children"@]
}

/// The warnings about the settings of a template that only a dataset section
/// can have, from key `i` on.
pub open spec fn structure_warned(
    name: Seq<char>,
    section: SectionModel,
    i: int,
    warnings: Seq<Seq<char>>,
) -> Seq<Seq<char>>
    decreases structure_keys().len() - i,
{
    if i >= structure_keys().len() {
        warnings
    } else {
        let key = structure_keys()[i];
        structure_warned(
            name,
            section,
            i + 1,
            match lookup(section, key) {
                Some(entry) => if entry.value.len() == 0 {
                    warnings
                } else {
                    warnings.push(
                        "["@ + name + "] ignored structural setting "@ + debug_text(key)
                            + " on line "@ + decimal(entry.line)
                            + "; Sanoid does not apply it from templates"@,
                    )
                },
                None => warnings,
            },
        )
    }
}

pub fn warn_ignored_structural(name: &str, section: &Section, warnings: &mut Vec<String>)
    ensures
        texts(final(warnings)@) == structure_warned(name@, section@, 0, texts(old(warnings)@)),
{
    let ghost goal = structure_warned(name@, section@, 0, texts(warnings@));
    let mut keys: Vec<String> = Vec::new();
    keys.push("path".to_owned());
    keys.push("recursive".to_owned());
    keys.push("use_template".to_owned());
    keys.push("skip_children".to_owned());
    assert(texts(keys@) =~= structure_keys());
    let mut i: usize = 0;
    while i < keys.len()
        invariant
            i <= keys@.len(),
            texts(keys@) == structure_keys(),
            goal == structure_warned(name@, section@, i as int, texts(warnings@)),
        decreases keys@.len() - i,
    {
        assert(structure_keys()[i as int] == keys@[i as int]@);
        if let Some(entry) = section.get(keys[i].as_str()) {
            if !entry.value.as_str().is_empty() {
                let mut warning = remark_quoting(
                    name,
                    "] ignored structural setting ",
                    keys[i].as_str(),
                    entry.line,
                );
                warning.append("; Sanoid does not apply it from templates");
                proof {
                    lemma_texts_push(warnings@, warning);
                }
                warnings.push(warning);
            }
        }
        i += 1;
    }
}

/// The policy that Sanoid starts from.
pub open spec fn standard_defaults() -> PatchModel {
    PatchModel {
        autosnap: Some(true),
        autoprune: Some(true),
        frequently: Some(0),
        hourly: Some(48),
        daily: Some(90),
        weekly: Some(0),
        monthly: Some(6),
        yearly: Some(0),
        frequent_period: Some(15),
        hourly_min: Some(0),
        daily_hour: Some(23),
        daily_min: Some(59),
        weekly_wday: Some(1),
        weekly_hour: Some(23),
        weekly_min: Some(30),
        monthly_mday: Some(1),
        monthly_hour: Some(0),
        monthly_min: Some(0),
        yearly_mon: Some(1),
        yearly_mday: Some(1),
        yearly_hour: Some(0),
        yearly_min: Some(0),
        prune_defer: Some(0),
        script_timeout: Some(5),
        no_inconsistent_snapshot: Some(false),
        force_post_snapshot_script: Some(false),
        ..empty_patch()
    }
}

pub fn standard_sanoid_defaults() -> (res: PolicyPatch)
    ensures
        res@ == standard_defaults(),
{
    PolicyPatch {
        autosnap: Some(true),
        autoprune: Some(true),
        frequently: Some(0),
        hourly: Some(48),
        daily: Some(90),
        weekly: Some(0),
        monthly: Some(6),
        yearly: Some(0),
        frequent_period: Some(15),
        hourly_min: Some(0),
        daily_hour: Some(23),
        daily_min: Some(59),
        weekly_wday: Some(1),
        weekly_hour: Some(23),
        weekly_min: Some(30),
        monthly_mday: Some(1),
        monthly_hour: Some(0),
        monthly_min: Some(0),
        yearly_mon: Some(1),
        yearly_mday: Some(1),
        yearly_hour: Some(0),
        yearly_min: Some(0),
        prune_defer: Some(0),
        pre_snapshot_script: None,
        post_snapshot_script: None,
        pre_pruning_script: None,
        pruning_script: None,
        script_timeout: Some(5),
        no_inconsistent_snapshot: Some(false),
        force_post_snapshot_script: Some(false),
    }
}

} // verus!
