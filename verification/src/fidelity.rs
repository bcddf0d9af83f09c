//! What a migration keeps of the policy it converts.
use vstd::prelude::*;

use crate::config::{all_safe, config_fault, is_safe, parts_safe, Recursion};
use crate::document::toml_text;
use crate::error::Fault;
use crate::migration::{assembled, converted, converted_datasets, draft_of, first_templates, free_from, free_name, inherits_from, is_migrated, lies_below, migrated, named_templates, numbered, optional_flag, placed, placements, user_name, DefaultsModel, Drafts, MigrationModel, PlacementModel, Sections};
use crate::names::lookup;
use crate::rendering::stands_alone;
use crate::sanoid::{settings_applied, SectionModel};
use crate::schema::parsed_config;
use crate::shorthand::{bracketed, expanded_line};
use crate::text::{decimal, digit, has_prefix, lemma_position, position, split, trim};

verus! {

// ---------------------------------------------------------------------------
// Names
// ---------------------------------------------------------------------------

proof fn lemma_decimal_injective(a: nat, b: nat)
    requires
        decimal(a) == decimal(b),
    ensures
        a == b,
    decreases a,
{
    if a < 10 {
        if b >= 10 {
            lemma_decimal_not_empty(b / 10);
        }
        assert(decimal(a)[0] == digit(a as int));
    } else {
        lemma_decimal_not_empty(a / 10);
        if b >= 10 {
            assert(decimal(a).drop_last() =~= decimal(a / 10));
            assert(decimal(b).drop_last() =~= decimal(b / 10));
            lemma_decimal_injective(a / 10, b / 10);
            assert(decimal(a).last() == digit((a % 10) as int));
            assert(decimal(b).last() == digit((b % 10) as int));
        }
    }
}

proof fn lemma_decimal_not_empty(n: nat)
    ensures
        decimal(n).len() > 0,
    decreases n,
{
}

proof fn lemma_numbered_injective(base: Seq<char>, a: nat, b: nat)
    requires
        numbered(base, a) == numbered(base, b),
    ensures
        a == b,
{
    let n = (base + "_"@).len() as int;
    assert(numbered(base, a).skip(n) =~= decimal(a));
    assert(numbered(base, b).skip(n) =~= decimal(b));
    lemma_decimal_injective(a, b);
}

/// Not all of one more names than there are can be taken.
proof fn lemma_some_number_is_free(base: Seq<char>, taken: Seq<Seq<char>>) -> (n: nat)
    ensures
        2 <= n <= taken.len() + 2,
        !taken.contains(numbered(base, n)),
{
    if exists|n: nat| 2 <= n <= taken.len() + 2 && !taken.contains(#[trigger] numbered(base, n)) {
        choose|n: nat| 2 <= n <= taken.len() + 2 && !taken.contains(#[trigger] numbered(base, n))
    } else {
        let all = Seq::new((taken.len() + 1) as nat, |i: int| numbered(base, (i + 2) as nat));
        assert forall|i: int, j: int| 0 <= i < all.len() && 0 <= j < all.len() && i != j implies all[i]
            != all[j] by {
            if all[i] == all[j] {
                lemma_numbered_injective(base, (i + 2) as nat, (j + 2) as nat);
            }
        }
        all.unique_seq_to_set();
        taken.lemma_cardinality_of_set();
        assert(all.to_set().subset_of(taken.to_set())) by {
            assert forall|name: Seq<char>| all.to_set().contains(name) implies taken.to_set().contains(
                name,
            ) by {
                let i = all.index_of(name);
                assert(taken.contains(numbered(base, (i + 2) as nat)));
            }
        }
        vstd::set_lib::lemma_len_subset(all.to_set(), taken.to_set());
        assert(false);
        2
    }
}

proof fn lemma_free_from(base: Seq<char>, taken: Seq<Seq<char>>, from: nat, free: nat)
    requires
        from <= free < u64::MAX,
        !taken.contains(numbered(base, free)),
    ensures
        !taken.contains(free_from(base, taken, from)),
    decreases free - from,
{
    if taken.contains(numbered(base, from)) {
        lemma_free_from(base, taken, from + 1, free);
    }
}

/// A name that is chosen for a template is not taken.
pub proof fn law_chosen_name_is_free(base: Seq<char>, taken: Seq<Seq<char>>)
    requires
        taken.len() < u64::MAX - 2,
    ensures
        !taken.contains(free_name(base, taken)),
{
    if taken.contains(base) {
        let n = lemma_some_number_is_free(base, taken);
        lemma_free_from(base, taken, 2, n);
    }
}

// ---------------------------------------------------------------------------
// Places
// ---------------------------------------------------------------------------

/// Whether a recursive section of a kind stands above a dataset.
pub open spec fn stands_below(name: Seq<char>, drafts: Drafts, mode: Recursion) -> bool {
    exists|i: int|
        0 <= i < drafts.len() && (#[trigger] drafts[i]).1.recursive == mode && lies_below(
            name,
            drafts[i].0,
        )
}

proof fn lemma_inherits(name: Seq<char>, drafts: Drafts, i: int, inherited: bool)
    requires
        0 <= i,
        inherits_from(name, drafts, i, inherited) is Ok,
    ensures
        inherits_from(name, drafts, i, inherited)->Ok_0 == (inherited || exists|j: int|
            i <= j < drafts.len() && (#[trigger] drafts[j]).1.recursive == Recursion::Children
                && lies_below(name, drafts[j].0)),
        forall|j: int|
            i <= j < drafts.len() && (#[trigger] drafts[j]).1.recursive == Recursion::Zfs
                ==> !lies_below(name, drafts[j].0),
    decreases drafts.len() - i,
{
    if i < drafts.len() {
        let draft = drafts[i];
        if draft.1.recursive == Recursion::Off || !lies_below(name, draft.0) {
            lemma_inherits(name, drafts, i + 1, inherited);
        } else {
            lemma_inherits(name, drafts, i + 1, true);
        }
    }
}

proof fn lemma_placements(
    drafts: Drafts,
    i: int,
    base: Seq<char>,
    children_only: bool,
    done: Seq<PlacementModel>,
)
    requires
        0 <= i <= drafts.len(),
        done.len() == i,
        placements(drafts, i, base, children_only, done) is Ok,
    ensures
        ({
            let places = placements(drafts, i, base, children_only, done)->Ok_0;
            &&& places.len() == drafts.len()
            &&& forall|j: int| 0 <= j < i ==> #[trigger] places[j] == done[j]
            &&& forall|j: int|
                i <= j < drafts.len() ==> inherits_from(
                    (#[trigger] drafts[j]).0,
                    drafts,
                    0,
                    false,
                ) is Ok && placed(
                    drafts[j].0,
                    drafts[j].1,
                    inherits_from(drafts[j].0, drafts, 0, false)->Ok_0,
                    base,
                    children_only,
                ) == Ok::<PlacementModel, Fault>(places[j])
        }),
    decreases drafts.len() - i,
{
    if i < drafts.len() {
        let inherited = inherits_from(drafts[i].0, drafts, 0, false)->Ok_0;
        let placement = placed(
            drafts[i].0,
            drafts[i].1,
            inherited,
            base,
            children_only,
        )->Ok_0;
        let more = done.push(placement);
        lemma_placements(drafts, i + 1, base, children_only, more);
        let places = placements(drafts, i, base, children_only, done)->Ok_0;
        assert(places[i] == more[i]);
        assert forall|j: int| 0 <= j < i implies #[trigger] places[j] == done[j] by {
            assert(places[j] == more[j]);
        }
    }
}

/// The base template comes first in every dataset that inherits nothing, and
/// in no other: those get it through the recursive section above them. Nothing
/// is configured below an atomic root, and only a recursive section leaves its
/// own dataset out.
pub proof fn law_base_template_comes_first(
    drafts: Drafts,
    base: Seq<char>,
    children_only: bool,
    places: Seq<PlacementModel>,
    i: int,
)
    requires
        placements(drafts, 0, base, children_only, Seq::empty()) == Ok::<
            Seq<PlacementModel>,
            Fault,
        >(places),
        0 <= i < drafts.len(),
    ensures
        places.len() == drafts.len(),
        places[i].templates == (if stands_below(drafts[i].0, drafts, Recursion::Children) {
            drafts[i].1.templates
        } else {
            seq![base] + drafts[i].1.templates
        }),
        !stands_below(drafts[i].0, drafts, Recursion::Zfs),
        places[i].children_only ==> drafts[i].1.recursive == Recursion::Children,
{
    lemma_placements(drafts, 0, base, children_only, Seq::empty());
    lemma_inherits(drafts[i].0, drafts, 0, false);
    assert(drafts[i].0 == drafts[i].0);
}

// ---------------------------------------------------------------------------
// Nothing is lost
// ---------------------------------------------------------------------------

/// Whether a section describes a dataset.
pub open spec fn is_dataset_section(name: Seq<char>) -> bool {
    !has_prefix(name, "template_"@) && name != "version"@
}

proof fn lemma_sections_convert(
    source: Sections,
    from: int,
    named: Seq<Seq<char>>,
    user: Option<Seq<char>>,
    drafts: Drafts,
    warnings: Seq<Seq<char>>,
    i: int,
) -> (before: Seq<Seq<char>>)
    requires
        0 <= from <= i < source.len(),
        is_dataset_section(source[i].0),
        converted_datasets(source, from, named, user, drafts, warnings) is Ok,
    ensures
        draft_of(source[i].0, source[i].1, source, named, user, before) is Ok,
    decreases i - from,
{
    let (section, settings) = source[from];
    if from == i {
        warnings
    } else if has_prefix(section, "template_"@) {
        lemma_sections_convert(source, from + 1, named, user, drafts, warnings, i)
    } else if section == "version"@ {
        lemma_sections_convert(
            source,
            from + 1,
            named,
            user,
            drafts,
            warnings.push("ignored Sanoid [version] metadata section"@),
            i,
        )
    } else {
        let name = crate::migration::dataset_of(section, lookup(settings, "path"@))->Ok_0;
        let (model, more) = draft_of(section, settings, source, named, user, warnings)->Ok_0;
        lemma_sections_convert(
            source,
            from + 1,
            named,
            user,
            crate::names::put(drafts, name, model),
            more,
            i,
        )
    }
}

proof fn lemma_settings_supported(
    name: Seq<char>,
    section: SectionModel,
    from: int,
    policy: crate::policy::PatchModel,
    warnings: Seq<Seq<char>>,
    report: bool,
    i: int,
)
    requires
        0 <= from <= i < section.len(),
        settings_applied(name, section, from, policy, warnings, report) is Ok,
    ensures
        is_supported(section[i].0),
    decreases i - from,
{
    if from < i {
        let (next, more) = crate::sanoid::setting_applied(
            name,
            section[from].0,
            section[from].1,
            policy,
            warnings,
            report,
        )->Ok_0;
        lemma_settings_supported(name, section, from + 1, next, more, report, i);
    }
}

/// A setting that the conversion knows.
pub open spec fn is_supported(key: Seq<char>) -> bool {
    ||| crate::sanoid::names_flag(key)
    ||| crate::sanoid::names_number(key)
    ||| key == "weekly_wday"@
    ||| key == "prune_defer"@
    ||| key == "script_timeout"@
    ||| crate::sanoid::names_hook(key)
    ||| crate::sanoid::names_structure(key)
    ||| crate::sanoid::names_monitoring(key)
}

/// A conversion that comes about has lost nothing: no dataset section asks to
/// skip its children, and none has a setting that is not known.
pub proof fn law_conversion_is_not_lossy(
    source: Sections,
    defaults: DefaultsModel,
    i: int,
    key: int,
)
    requires
        assembled(source, defaults) is Ok,
        0 <= i < source.len(),
        is_dataset_section(source[i].0),
    ensures
        optional_flag(
            source[i].0,
            "skip_children"@,
            lookup(source[i].1, "skip_children"@),
        ) == Ok::<bool, Fault>(false),
        0 <= key < source[i].1.len() ==> is_supported(source[i].1[key].0),
{
    let (templates, warnings) = crate::migration::converted_templates(
        source,
        0,
        first_templates(source, defaults),
        defaults.warnings,
    )->Ok_0;
    let named = named_templates(source, 0, Seq::empty());
    let user = if defaults.user is Some {
        Some(user_name(source))
    } else {
        None
    };
    let before = lemma_sections_convert(source, 0, named, user, Seq::empty(), warnings, i);
    if 0 <= key < source[i].1.len() {
        lemma_settings_supported(
            source[i].0,
            source[i].1,
            0,
            crate::policy::empty_patch(),
            before,
            true,
            key,
        );
    }
}

/// What reads a migrated file gets what was converted: the templates and the
/// datasets, at least one of those, under the prefix of Sanoid, by the clock of
/// the host and without notifications. The counts are those of the file.
pub proof fn law_migrated_file_reads_back(
    source: Seq<char>,
    defaults: Option<Seq<char>>,
    migration: MigrationModel,
)
    requires
        migrated(source, defaults) == Ok::<MigrationModel, Fault>(migration),
    ensures
        converted(source, defaults) matches Ok(parts) && parsed_config(
            migration.config_toml,
        ) matches Ok(config) && is_migrated(
            config,
            parts.templates,
            parts.drafts,
            parts.places,
        ) && config_fault(config) is None && migration.datasets == config.datasets.len()
            && migration.datasets > 0 && migration.templates == config.templates.len(),
{
}

// ---------------------------------------------------------------------------
// Headers
// ---------------------------------------------------------------------------

/// A name of safe parts holds safe characters and slashes.
proof fn lemma_safe_or_slash(name: Seq<char>)
    requires
        parts_safe(split(name, '/')),
    ensures
        forall|i: int| 0 <= i < name.len() ==> is_safe(#[trigger] name[i]) || name[i] == '/',
    decreases name.len(),
{
    lemma_position(name, '/');
    let p = position(name, '/');
    let parts = split(name, '/');
    assert(all_safe(parts[0]));
    if p < name.len() {
        let rest = name.skip(p + 1);
        let more = split(rest, '/');
        assert forall|j: int| 0 <= j < more.len() implies (#[trigger] more[j]).len() > 0 && all_safe(
            more[j],
        ) by {
            assert(parts[j + 1] == more[j]);
        }
        lemma_safe_or_slash(rest);
        assert forall|i: int| 0 <= i < name.len() implies is_safe(#[trigger] name[i]) || name[i]
            == '/' by {
            if i < p {
                assert(parts[0][i] == name[i]);
            } else if i > p {
                assert(rest[i - p - 1] == name[i]);
            }
        }
    } else {
        assert forall|i: int| 0 <= i < name.len() implies is_safe(#[trigger] name[i]) || name[i]
            == '/' by {
            assert(parts[0][i] == name[i]);
        }
    }
}

/// A header that is a name alone is read as that of the dataset.
pub proof fn law_bare_header_names_its_dataset(name: Seq<char>, at: nat)
    requires
        stands_alone(name),
    ensures
        expanded_line("["@ + name + "]"@, at) == Ok::<Seq<char>, Fault>(
            "[datasets."@ + toml_text(name) + "]"@,
        ),
{
    reveal_strlit("[");
    reveal_strlit("[[");
    reveal_strlit("]");
    reveal_strlit("\"");
    reveal_strlit("'");
    reveal_strlit("");
    lemma_safe_or_slash(name);
    let line = "["@ + name + "]"@;
    let n = name.len() as int;
    assert(line[0] == '[' && line.last() == ']');
    assert(trim(line) == line);
    assert(trim(name) == name) by {
        assert(is_safe(name[0]) || name[0] == '/');
        assert(is_safe(name[n - 1]) || name[n - 1] == '/');
    }
    if has_prefix(line, "[["@) {
        assert(line.take(2)[1] == "[["@[1]);
        assert(line[1] == name[0]);
    }
    assert(line.take(1) =~= "["@);
    lemma_position(line, ']');
    let p = position(line, ']');
    assert(line.contains(']'));
    if p < n + 1 {
        assert(line[p] == ']');
        if p > 0 {
            assert(line[p] == name[p - 1]);
        }
    }
    assert(p == n + 1) by {
        if p > n + 1 {
            assert(line[n + 1] == ']');
        }
    }
    assert(line.take(p).skip(1) =~= name);
    assert(line.skip(p + 1) =~= Seq::<char>::empty());
    assert(bracketed(line) == Some((name, Seq::<char>::empty())));
    if has_prefix(name, "\""@) {
        assert(name.take(1)[0] == '"');
    }
    if has_prefix(name, "'"@) {
        assert(name.take(1)[0] == '\'');
    }
    assert("[datasets."@ + toml_text(name) + "]"@ + ""@ =~= "[datasets."@ + toml_text(name) + "]"@);
}

} // verus!
