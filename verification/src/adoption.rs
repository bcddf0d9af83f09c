//! How the settings of another program's configuration are taken over.
use vstd::prelude::*;

use crate::config::Recursion;
use crate::error::Fault;
use crate::migration::{children_only_of, recursion_of, shipped_defaults, templates_children_only, Sections};
use crate::names::{increasing, lemma_put, lookup, names_of};
use crate::policy::PatchModel;
use crate::readback::{is_tight, lemma_tight};
use crate::sanoid::{flag_of, is_remark, line_read, names_flag, names_hook, names_number, number_of, setting_applied, settings_of, shell, timeout_of, weekday_of, with_setting, EntryModel, SanoidModel, SectionModel};
use crate::text::{has_prefix, lemma_position, lowercase, parse_signed, parse_unsigned, position};

verus! {

// ---------------------------------------------------------------------------
// Values
// ---------------------------------------------------------------------------

/// A day of the week is taken over as the same day: from Sunday as zero or seven
/// and Monday as one to Monday as one and Sunday as seven. There is no eighth.
pub proof fn law_days_stay_the_same(section: Seq<char>, entry: EntryModel, given: nat)
    requires
        parse_unsigned(entry.value, u32::MAX as nat) == Some(given),
    ensures
        match weekday_of(section, entry) {
            Ok(day) => given <= 7 && 1 <= day <= 7 && day % 7 == given % 7,
            Err(_) => given > 7,
        },
{
}

/// A time limit stays as it is, and one that is not positive is none.
pub proof fn law_limits_stay_the_same(section: Seq<char>, entry: EntryModel)
    ensures
        match (timeout_of(section, entry), parse_signed(entry.value)) {
            (Ok(limit), Some(seconds)) => {
                &&& seconds > 0 ==> limit == seconds
                &&& seconds <= 0 ==> limit == 0
            },
            (Err(_), None) => true,
            _ => false,
        },
{
    if let Some(seconds) = parse_signed(entry.value) {
        assert(seconds <= i64::MAX);
    }
}

/// A number is taken over as it is, and what is none is refused.
pub proof fn law_numbers_stay_the_same(section: Seq<char>, key: Seq<char>, entry: EntryModel)
    ensures
        match (number_of(section, key, entry), parse_unsigned(entry.value, u32::MAX as nat)) {
            (Ok(number), Some(given)) => number == given,
            (Err(_), None) => true,
            _ => false,
        },
{
    if let Some(given) = parse_unsigned(entry.value, u32::MAX as nat) {
        assert(given <= u32::MAX);
    }
}

/// A command runs as it stands, through the shell, and an empty one not at all.
pub proof fn law_commands_run_through_the_shell(command: Seq<char>)
    ensures
        command.len() == 0 ==> shell(command).len() == 0,
        command.len() > 0 ==> {
            &&& shell(command).len() == 3
            &&& shell(command)[0] == "/bin/sh"@
            &&& shell(command)[1] == "-c"@
            &&& shell(command)[2] == command
        },
{
}

/// A section recurses as a whole where it says so, one by one where its setting is
/// true, and not at all where its setting is false or missing.
pub proof fn law_recursion_stays_the_same(section: Seq<char>, entry: EntryModel)
    ensures
        recursion_of(section, None) == Ok::<Recursion, Fault>(Recursion::Off),
        recursion_of(section, Some(entry)) matches Ok(recursion) ==> {
            &&& recursion == Recursion::Zfs <==> lowercase(entry.value) == "zfs"@
            &&& recursion == Recursion::Children ==> flag_of(section, "recursive"@, entry) == Ok::<
                bool,
                Fault,
            >(true)
            &&& recursion == Recursion::Off ==> flag_of(section, "recursive"@, entry) == Ok::<
                bool,
                Fault,
            >(false)
        },
{
}

// ---------------------------------------------------------------------------
// Settings
// ---------------------------------------------------------------------------

/// Every value of a policy but those of one name stays as it is.
pub open spec fn leaves_others(key: Seq<char>, before: PatchModel, after: PatchModel) -> bool {
    &&& key != "autosnap"@ ==> after.autosnap == before.autosnap
    &&& key != "autoprune"@ ==> after.autoprune == before.autoprune
    &&& key != "frequently"@ ==> after.frequently == before.frequently
    &&& key != "hourly"@ ==> after.hourly == before.hourly
    &&& key != "daily"@ ==> after.daily == before.daily
    &&& key != "weekly"@ ==> after.weekly == before.weekly
    &&& key != "monthly"@ ==> after.monthly == before.monthly
    &&& key != "yearly"@ ==> after.yearly == before.yearly
    &&& key != "frequent_period"@ ==> after.frequent_period == before.frequent_period
    &&& key != "hourly_min"@ ==> after.hourly_min == before.hourly_min
    &&& key != "daily_hour"@ ==> after.daily_hour == before.daily_hour
    &&& key != "daily_min"@ ==> after.daily_min == before.daily_min
    &&& key != "weekly_wday"@ ==> after.weekly_wday == before.weekly_wday
    &&& key != "weekly_hour"@ ==> after.weekly_hour == before.weekly_hour
    &&& key != "weekly_min"@ ==> after.weekly_min == before.weekly_min
    &&& key != "monthly_mday"@ ==> after.monthly_mday == before.monthly_mday
    &&& key != "monthly_hour"@ ==> after.monthly_hour == before.monthly_hour
    &&& key != "monthly_min"@ ==> after.monthly_min == before.monthly_min
    &&& key != "yearly_mon"@ ==> after.yearly_mon == before.yearly_mon
    &&& key != "yearly_mday"@ ==> after.yearly_mday == before.yearly_mday
    &&& key != "yearly_hour"@ ==> after.yearly_hour == before.yearly_hour
    &&& key != "yearly_min"@ ==> after.yearly_min == before.yearly_min
    &&& key != "prune_defer"@ ==> after.prune_defer == before.prune_defer
    &&& key != "pre_snapshot_script"@ ==> after.pre_snapshot_script == before.pre_snapshot_script
    &&& key != "post_snapshot_script"@ ==> after.post_snapshot_script == before.post_snapshot_script
    &&& key != "pre_pruning_script"@ ==> after.pre_pruning_script == before.pre_pruning_script
    &&& key != "pruning_script"@ ==> after.pruning_script == before.pruning_script
    &&& key != "script_timeout"@ ==> after.script_timeout == before.script_timeout
    &&& key != "no_inconsistent_snapshot"@ ==> after.no_inconsistent_snapshot == before.no_inconsistent_snapshot
    &&& key != "force_post_snapshot_script"@ ==> after.force_post_snapshot_script == before.force_post_snapshot_script
}

/// Whether some number of a policy is this one.
pub open spec fn holds_number(patch: PatchModel, value: u32) -> bool {
    ||| patch.frequently == Some(value)
    ||| patch.hourly == Some(value)
    ||| patch.daily == Some(value)
    ||| patch.weekly == Some(value)
    ||| patch.monthly == Some(value)
    ||| patch.yearly == Some(value)
    ||| patch.frequent_period == Some(value)
    ||| patch.hourly_min == Some(value)
    ||| patch.daily_hour == Some(value)
    ||| patch.daily_min == Some(value)
    ||| patch.weekly_hour == Some(value)
    ||| patch.weekly_min == Some(value)
    ||| patch.monthly_mday == Some(value)
    ||| patch.monthly_hour == Some(value)
    ||| patch.monthly_min == Some(value)
    ||| patch.yearly_mon == Some(value)
    ||| patch.yearly_mday == Some(value)
    ||| patch.yearly_hour == Some(value)
    ||| patch.yearly_min == Some(value)
}

/// Whether some truth value of a policy is this one.
pub open spec fn holds_flag(patch: PatchModel, value: bool) -> bool {
    ||| patch.autosnap == Some(value)
    ||| patch.autoprune == Some(value)
    ||| patch.no_inconsistent_snapshot == Some(value)
    ||| patch.force_post_snapshot_script == Some(value)
}

/// Whether some hook of a policy is this one.
pub open spec fn holds_hook(patch: PatchModel, value: Seq<Seq<char>>) -> bool {
    ||| patch.pre_snapshot_script == Some(value)
    ||| patch.post_snapshot_script == Some(value)
    ||| patch.pre_pruning_script == Some(value)
    ||| patch.pruning_script == Some(value)
}

/// A setting that is taken over changes the value of its own name and no other,
/// to what it says.
pub proof fn law_settings_change_their_own_value(
    section: Seq<char>,
    key: Seq<char>,
    entry: EntryModel,
    policy: PatchModel,
    warnings: Seq<Seq<char>>,
    report: bool,
)
    ensures
        setting_applied(section, key, entry, policy, warnings, report) matches Ok((next, more))
            ==> {
            &&& leaves_others(key, policy, next)
            &&& names_flag(key) ==> holds_flag(next, flag_of(section, key, entry)->Ok_0)
                && flag_of(section, key, entry) is Ok
            &&& !names_flag(key) && names_number(key) ==> holds_number(
                next,
                number_of(section, key, entry)->Ok_0,
            ) && number_of(section, key, entry) is Ok
            &&& !names_flag(key) && !names_number(key) && key == "weekly_wday"@ ==> weekday_of(
                section,
                entry,
            ) is Ok && next.weekly_wday == Some(weekday_of(section, entry)->Ok_0)
            &&& !names_flag(key) && !names_number(key) && names_hook(key) && key
                != "weekly_wday"@ && key != "prune_defer"@ && key != "script_timeout"@
                ==> holds_hook(next, shell(entry.value))
            &&& warnings.len() <= more.len()
            &&& forall|i: int| 0 <= i < warnings.len() ==> more[i] == warnings[i]
        },
{
}

// ---------------------------------------------------------------------------
// Files
// ---------------------------------------------------------------------------

/// The first value of a setting stands, and a later one is warned of. No other
/// setting and no other section changes.
pub proof fn law_first_value_stands(
    state: SanoidModel,
    section: Seq<char>,
    key: Seq<char>,
    value: Seq<char>,
    label: Seq<char>,
    at: nat,
    other: Seq<char>,
)
    requires
        increasing(names_of(state.sections)),
        increasing(names_of(settings_of(state.sections, section))),
    ensures
        ({
            let before = settings_of(state.sections, section);
            let next = with_setting(state, section, key, value, label, at);
            let after = settings_of(next.sections, section);
            &&& lookup(before, key) is Some ==> {
                &&& next.sections == state.sections
                &&& next.warnings.len() == state.warnings.len() + 1
            }
            &&& lookup(before, key) is None ==> {
                &&& lookup(after, key) == Some(EntryModel { value, line: at })
                &&& next.warnings == state.warnings
            }
            &&& other != key ==> lookup(after, other) == lookup(before, other)
            &&& other != section ==> settings_of(next.sections, other) == settings_of(
                state.sections,
                other,
            )
            &&& next.current == state.current
        }),
{
    let settings = settings_of(state.sections, section);
    let entry = EntryModel { value, line: at };
    lemma_put(settings, key, entry, other);
    let more = crate::names::put(settings, key, entry);
    lemma_put(state.sections, section, more, other);
    lemma_put(state.sections, section, more, section);
}

/// Whether a section leaves itself out is what it says; only where it says nothing,
/// its templates decide.
pub proof fn law_sections_decide_before_templates(
    section: Seq<char>,
    settings: SectionModel,
    source: Sections,
    templates: Seq<Seq<char>>,
    user: Option<Seq<char>>,
)
    ensures
        children_only_of(section, settings, source, templates, user) matches Ok(value) ==> match lookup(
            settings,
            "process_children_only"@,
        ) {
            Some(entry) => value is Some && flag_of(section, "process_children_only"@, entry)
                == Ok::<bool, Fault>(value->0),
            None => templates_children_only(section, source, templates, 0, user, None) == Ok::<
                Option<bool>,
                Fault,
            >(value),
        },
{
}

// ---------------------------------------------------------------------------
// Lines
// ---------------------------------------------------------------------------

/// An empty line, and one that starts with a hash or a semicolon, says nothing.
pub proof fn law_remarks_are_passed_over(
    state: SanoidModel,
    line: Seq<char>,
    label: Seq<char>,
    at: nat,
)
    requires
        line.len() == 0 || line[0] == '#' || line[0] == ';',
    ensures
        line_read(state, line, label, at) == Ok::<SanoidModel, Fault>(state),
{
    reveal_strlit("#");
    reveal_strlit(";");
    if line.len() > 0 {
        assert(line[0] == '#' ==> line.take(1) =~= "#"@);
        assert(line[0] == ';' ==> line.take(1) =~= ";"@);
    }
}

proof fn lemma_no_remark(line: Seq<char>)
    requires
        line.len() > 0,
        line[0] != '#',
        line[0] != ';',
    ensures
        !is_remark(line),
        has_prefix(line, "["@) <==> line[0] == '[',
{
    reveal_strlit("#");
    reveal_strlit(";");
    reveal_strlit("[");
    assert(line.take(1)[0] == line[0]);
    if line[0] == '[' {
        assert(line.take(1) =~= "["@);
    }
}

/// A name in square brackets opens its section. Nothing that was read before is
/// lost, whether the section is a new one or goes on.
pub proof fn law_headers_open_their_section(
    state: SanoidModel,
    name: Seq<char>,
    label: Seq<char>,
    at: nat,
    other: Seq<char>,
)
    requires
        increasing(names_of(state.sections)),
        name.len() > 0,
        is_tight(name),
        !name.contains(']'),
    ensures
        line_read(state, seq!['['] + name + seq![']'], label, at) matches Ok(next)
            && next.current == Some(name) && lookup(next.sections, name) is Some && settings_of(
            next.sections,
            other,
        ) == settings_of(state.sections, other) && (other != name ==> lookup(next.sections, other)
            == lookup(state.sections, other)),
{
    let line = seq!['['] + name + seq![']'];
    let rest = name + seq![']'];
    let none = Seq::<char>::empty();
    lemma_no_remark(line);
    reveal_strlit("[");
    assert(line.skip(1) =~= rest);
    lemma_position(rest, ']');
    let p = position(rest, ']');
    assert(rest[name.len() as int] == ']');
    if p < name.len() {
        assert(name[p] == ']');
    }
    assert(rest.take(p) =~= name);
    assert(rest.skip(p + 1) =~= none);
    lemma_tight(name);
    lemma_tight(none);
    lemma_put(state.sections, name, Seq::empty(), name);
    lemma_put(state.sections, name, Seq::empty(), other);
}

/// A line with an equals sign sets the value behind it under the name before it, in
/// the section that is open. Before any section it is refused.
pub proof fn law_settings_go_to_the_open_section(
    state: SanoidModel,
    key: Seq<char>,
    value: Seq<char>,
    label: Seq<char>,
    at: nat,
)
    requires
        key.len() > 0,
        is_tight(key),
        is_tight(value),
        !key.contains('='),
        key[0] != '[',
        key[0] != '#',
        key[0] != ';',
    ensures
        match (state.current, line_read(state, key + seq!['='] + value, label, at)) {
            (None, Err(_)) => true,
            (Some(section), Ok(next)) => next == with_setting(
                state,
                section,
                key,
                value,
                label,
                at,
            ),
            _ => false,
        },
{
    let line = key + seq!['='] + value;
    lemma_no_remark(line);
    lemma_position(line, '=');
    let p = position(line, '=');
    assert(line[key.len() as int] == '=');
    if p < key.len() {
        assert(key[p] == '=');
    }
    assert(line.take(p) =~= key);
    assert(line.skip(p + 1) =~= value);
    lemma_tight(key);
    lemma_tight(value);
}

/// Where the defaults file gives no defaults, those of Sanoid itself stand: two days
/// of hours, three months of days and half a year of months are kept, and nothing
/// else; points are at the last minute of a day, at half past eleven on Monday
/// evening, and at the first minute of a month and of a year.
pub proof fn law_standard_defaults_stand(defaults: Option<Sections>, warnings: Seq<Seq<char>>)
    requires
        defaults is None || lookup(defaults->0, "template_default"@) is None,
    ensures
        shipped_defaults(defaults, warnings) matches Ok((base, said)) && said == warnings && {
            &&& base.hourly == Some(48u32) && base.daily == Some(90u32) && base.monthly == Some(
                6u32,
            )
            &&& base.frequently == Some(0u32) && base.weekly == Some(0u32) && base.yearly == Some(
                0u32,
            )
            &&& base.autosnap == Some(true) && base.autoprune == Some(true)
            &&& base.frequent_period == Some(15u32) && base.hourly_min == Some(0u32)
            &&& base.daily_hour == Some(23u32) && base.daily_min == Some(59u32)
            &&& base.weekly_wday == Some(1u32) && base.weekly_hour == Some(23u32)
                && base.weekly_min == Some(30u32)
            &&& base.monthly_mday == Some(1u32) && base.monthly_hour == Some(0u32)
                && base.monthly_min == Some(0u32)
            &&& base.yearly_mon == Some(1u32) && base.yearly_mday == Some(1u32)
                && base.yearly_hour == Some(0u32) && base.yearly_min == Some(0u32)
            &&& base.prune_defer == Some(0u8) && base.script_timeout == Some(5u64)
            &&& base.no_inconsistent_snapshot == Some(false) && base.force_post_snapshot_script
                == Some(false)
            &&& base.pre_snapshot_script is None && base.post_snapshot_script is None
                && base.pre_pruning_script is None && base.pruning_script is None
        },
{
}

} // verus!
