//! What a valid configuration guarantees for the rest of a run.
use vstd::prelude::*;

use crate::config::{all_safe, config_fault, dataset_fault, datasets_fault, overlay, section_policy, templates_known, ConfigModel, DatasetModel};
use crate::names::{increasing, lemma_lookup, lemma_put, lookup, names_of, put};
use crate::planner::{all_scheduled, all_templates_known, has_schedule, inherited, put_targets, resolution, resolve_from, resolved_as, section_order, section_targets, ResolvedModel, SectionName};
use crate::policy::{default_policy, law_later_patch_wins, overlaid, patched, policy_fault, schedule_fault, PatchModel, PolicyModel};
use crate::recognition::names_differ;
use crate::schedule::plannable;
use crate::sort::lemma_sorted_members;
use crate::text::lemma_lt_irreflexive;
use crate::zfs::{values_of, InventoryModel};

verus! {

proof fn lemma_datasets_fault(
    templates: Seq<(Seq<char>, PatchModel)>,
    datasets: Seq<(Seq<char>, DatasetModel)>,
    i: int,
    j: int,
)
    requires
        0 <= i <= j < datasets.len(),
        datasets_fault(templates, datasets, i) is None,
    ensures
        dataset_fault(templates, datasets[j].0, datasets[j].1) is None,
    decreases j - i,
{
    if i < j {
        lemma_datasets_fault(templates, datasets, i + 1, j);
    }
}

proof fn lemma_overlay_ok(
    templates: Seq<(Seq<char>, PatchModel)>,
    names: Seq<Seq<char>>,
    i: int,
    policy: PolicyModel,
    j: int,
)
    requires
        0 <= i <= j < names.len(),
        overlay(templates, names, i, policy) is Ok,
    ensures
        lookup(templates, names[j]) is Some,
    decreases j - i,
{
    if i < j {
        lemma_overlay_ok(
            templates,
            names,
            i + 1,
            patched(policy, lookup(templates, names[i])->0),
            j,
        );
    }
}

/// The section of a dataset in a valid configuration has no fault.
proof fn lemma_section_is_valid(config: ConfigModel, dataset: Seq<char>)
    requires
        config_fault(config) is None,
        increasing(names_of(config.datasets)),
        lookup(config.datasets, dataset) is Some,
    ensures
        dataset_fault(config.templates, dataset, lookup(config.datasets, dataset)->0) is None,
{
    lemma_lookup(config.datasets, dataset);
    let j = crate::names::rank(names_of(config.datasets), dataset);
    crate::names::lemma_rank_bounds(names_of(config.datasets), dataset);
    lemma_datasets_fault(config.templates, config.datasets, 0, j);
}

/// A valid configuration names only templates that exist.
pub proof fn law_valid_configuration_knows_its_templates(config: ConfigModel)
    requires
        config_fault(config) is None,
        increasing(names_of(config.datasets)),
    ensures
        all_templates_known(config),
{
    assert forall|name: Seq<char>| #[trigger] templates_known(config, name) by {
        if let Some(section) = lookup(config.datasets, name) {
            lemma_section_is_valid(config, name);
            assert forall|i: int| 0 <= i < section.use_templates.len() implies lookup(
                config.templates,
                #[trigger] section.use_templates[i],
            ) is Some by {
                lemma_overlay_ok(
                    config.templates,
                    section.use_templates,
                    0,
                    default_policy(),
                    i,
                );
            }
        }
    }
}

/// A policy with every value in its range.
pub open spec fn is_valid_policy(policy: PolicyModel) -> bool {
    forall|context: Seq<char>| #[trigger] policy_fault(policy, context) is None
}

proof fn lemma_context_does_not_matter(policy: PolicyModel, context: Seq<char>)
    requires
        policy_fault(policy, context) is None,
    ensures
        is_valid_policy(policy),
{
}

/// All the templates of a section and its own values as one patch.
spec fn combined(
    templates: Seq<(Seq<char>, PatchModel)>,
    names: Seq<Seq<char>>,
    i: int,
    own: PatchModel,
) -> PatchModel
    decreases names.len() - i,
{
    if i >= names.len() {
        own
    } else {
        overlaid(lookup(templates, names[i])->0, combined(templates, names, i + 1, own))
    }
}

proof fn lemma_combined(
    templates: Seq<(Seq<char>, PatchModel)>,
    names: Seq<Seq<char>>,
    i: int,
    own: PatchModel,
    policy: PolicyModel,
)
    requires
        0 <= i,
        overlay(templates, names, i, policy) is Ok,
    ensures
        patched(overlay(templates, names, i, policy)->Ok_0, own) == patched(
            policy,
            combined(templates, names, i, own),
        ),
    decreases names.len() - i,
{
    if i < names.len() {
        let patch = lookup(templates, names[i])->0;
        lemma_combined(templates, names, i + 1, own, patched(policy, patch));
        law_later_patch_wins(policy, patch, combined(templates, names, i + 1, own));
    }
}

proof fn lemma_patch_keeps_validity(base: PolicyModel, patch: PatchModel, context: Seq<char>)
    requires
        policy_fault(base, context) is None,
        policy_fault(patched(default_policy(), patch), context) is None,
    ensures
        policy_fault(patched(base, patch), context) is None,
{
}

/// Inheritance keeps validity: a section that is valid on its own gives a
/// valid policy on top of any valid policy.
pub proof fn law_inheritance_keeps_validity(
    templates: Seq<(Seq<char>, PatchModel)>,
    section: DatasetModel,
    base: PolicyModel,
)
    requires
        is_valid_policy(base),
        section_policy(templates, section, default_policy()) is Ok,
        is_valid_policy(section_policy(templates, section, default_policy())->Ok_0),
    ensures
        section_policy(templates, section, base) is Ok,
        is_valid_policy(section_policy(templates, section, base)->Ok_0),
{
    let names = section.use_templates;
    assert forall|j: int| 0 <= j < names.len() implies lookup(
        templates,
        #[trigger] names[j],
    ) is Some by {
        lemma_overlay_ok(templates, names, 0, default_policy(), j);
    }
    crate::config::lemma_overlay_known(templates, names, 0, base);
    lemma_combined(templates, names, 0, section.policy, base);
    lemma_combined(templates, names, 0, section.policy, default_policy());
    let patch = combined(templates, names, 0, section.policy);
    let context = ""@;
    assert(policy_fault(base, context) is None);
    assert(policy_fault(patched(default_policy(), patch), context) is None);
    lemma_patch_keeps_validity(base, patch, context);
    lemma_context_does_not_matter(patched(base, patch), context);
}

/// A resolution in order, each entry under its own name and with a valid
/// policy.
pub open spec fn is_sound(resolved: Seq<(Seq<char>, ResolvedModel)>) -> bool {
    &&& increasing(names_of(resolved))
    &&& forall|i: int|
        0 <= i < resolved.len() ==> (#[trigger] resolved[i]).1.name == resolved[i].0
            && is_valid_policy(resolved[i].1.policy)
}

proof fn lemma_put_sound(
    resolved: Seq<(Seq<char>, ResolvedModel)>,
    name: Seq<char>,
    entry: ResolvedModel,
)
    requires
        is_sound(resolved),
        entry.name == name,
        is_valid_policy(entry.policy),
    ensures
        is_sound(put(resolved, name, entry)),
{
    lemma_put(resolved, name, entry, name);
    crate::names::lemma_rank_bounds(names_of(resolved), name);
    crate::names::lemma_rank_finds(names_of(resolved), name);
    let r = crate::names::rank(names_of(resolved), name);
    let result = put(resolved, name, entry);
    assert forall|i: int| 0 <= i < result.len() implies (#[trigger] result[i]).1.name
        == result[i].0 && is_valid_policy(result[i].1.policy) by {
        if names_of(resolved).contains(name) {
            if i != r {
                assert(result[i] == resolved[i]);
            }
        } else if i < r {
            assert(result[i] == resolved[i]);
        } else if i > r {
            assert(result[i] == resolved[i - 1]);
        }
    }
}

proof fn lemma_put_targets_sound(
    resolved: Seq<(Seq<char>, ResolvedModel)>,
    targets: Seq<Seq<char>>,
    j: int,
    section: DatasetModel,
    root: Seq<char>,
    policy: PolicyModel,
)
    requires
        0 <= j,
        is_sound(resolved),
        is_valid_policy(policy),
    ensures
        is_sound(put_targets(resolved, targets, j, section.recursive, root, policy)),
    decreases targets.len() - j,
{
    if j < targets.len() {
        let entry = resolved_as(section.recursive, root, targets[j], policy);
        lemma_put_sound(resolved, targets[j], entry);
        lemma_put_targets_sound(
            put(resolved, targets[j], entry),
            targets,
            j + 1,
            section,
            root,
            policy,
        );
    }
}

proof fn lemma_inherited_is_valid(resolved: Seq<(Seq<char>, ResolvedModel)>, root: Seq<char>)
    requires
        is_sound(resolved),
    ensures
        is_valid_policy(inherited(resolved, root)),
{
    lemma_lookup(resolved, root);
    crate::names::lemma_rank_bounds(names_of(resolved), root);
    assert(policy_fault(default_policy(), ""@) is None);
    lemma_context_does_not_matter(default_policy(), ""@);
}

proof fn lemma_resolution_sound(
    config: ConfigModel,
    datasets: Seq<Seq<char>>,
    order: Seq<Seq<char>>,
    i: int,
    resolved: Seq<(Seq<char>, ResolvedModel)>,
)
    requires
        config_fault(config) is None,
        increasing(names_of(config.datasets)),
        0 <= i,
        is_sound(resolved),
        forall|j: int|
            0 <= j < order.len() ==> lookup(config.datasets, #[trigger] order[j]) is Some,
    ensures
        match resolve_from(config, datasets, order, i, resolved) {
            Ok(result) => is_sound(result),
            Err(_) => exists|j: int| i <= j < order.len() && !datasets.contains(#[trigger] order[j]),
        },
    decreases order.len() - i,
{
    if i < order.len() {
        let root = order[i];
        if datasets.contains(root) {
            let section = lookup(config.datasets, root)->0;
            lemma_section_is_valid(config, root);
            lemma_inherited_is_valid(resolved, root);
            let alone = section_policy(config.templates, section, default_policy())->Ok_0;
            lemma_context_does_not_matter(alone, "dataset "@ + crate::text::debug_text(root));
            law_inheritance_keeps_validity(
                config.templates,
                section,
                inherited(resolved, root),
            );
            let policy = section_policy(
                config.templates,
                section,
                inherited(resolved, root),
            )->Ok_0;
            let targets = section_targets(datasets, root, section);
            lemma_put_targets_sound(resolved, targets, 0, section, root, policy);
            lemma_resolution_sound(
                config,
                datasets,
                order,
                i + 1,
                put_targets(resolved, targets, 0, section.recursive, root, policy),
            );
        }
    }
}

proof fn lemma_order_is_configured(config: ConfigModel)
    requires
        increasing(names_of(config.datasets)),
    ensures
        forall|j: int|
            0 <= j < section_order(config).len() ==> names_of(config.datasets).contains(
                #[trigger] section_order(config)[j],
            ) && lookup(config.datasets, section_order(config)[j]) is Some,
{
    let order = section_order(config);
    assert forall|j: int| 0 <= j < order.len() implies names_of(config.datasets).contains(
        #[trigger] order[j],
    ) && lookup(config.datasets, order[j]) is Some by {
        assert(order.contains(order[j]));
        lemma_sorted_members::<SectionName>(names_of(config.datasets), order[j]);
        lemma_lookup(config.datasets, order[j]);
    }
}

/// A valid configuration whose datasets all exist resolves. Each dataset
/// occurs once, in order, and has a valid policy.
pub proof fn law_valid_configuration_resolves(config: ConfigModel, inventory: InventoryModel)
    requires
        config_fault(config) is None,
        increasing(names_of(config.datasets)),
        forall|name: Seq<char>| #[trigger]
            names_of(config.datasets).contains(name) ==> inventory.datasets.contains(name),
    ensures
        resolution(config, inventory) is Ok,
        ({
            let datasets = resolution(config, inventory)->Ok_0;
            &&& increasing(datasets.map_values(|dataset: ResolvedModel| dataset.name))
            &&& forall|i: int|
                0 <= i < datasets.len() ==> is_valid_policy((#[trigger] datasets[i]).policy)
        }),
{
    let order = section_order(config);
    lemma_order_is_configured(config);
    assert(names_of(Seq::<(Seq<char>, ResolvedModel)>::empty()) =~= Seq::empty());
    lemma_resolution_sound(config, inventory.datasets, order, 0, Seq::empty());
    let resolved = resolve_from(config, inventory.datasets, order, 0, Seq::empty())->Ok_0;
    let datasets = values_of(resolved);
    assert(datasets.map_values(|dataset: ResolvedModel| dataset.name) =~= names_of(resolved));
}

/// A valid configuration can be planned for: the policies it resolves to have
/// a schedule around every instant in the calendar that is at least four hours
/// after its beginning, no dataset occurs twice, and its prefix is one under
/// which names are recognised.
pub proof fn law_valid_configuration_can_be_planned(
    config: ConfigModel,
    inventory: InventoryModel,
    now: int,
)
    requires
        config_fault(config) is None,
        increasing(names_of(config.datasets)),
        resolution(config, inventory) is Ok,
        plannable(now),
        plannable(now - 14_400),
    ensures
        all_scheduled(resolution(config, inventory)->Ok_0, now),
        names_differ(resolution(config, inventory)->Ok_0),
        all_safe(config.settings.snapshot_prefix),
{
    let order = section_order(config);
    lemma_order_is_configured(config);
    assert(names_of(Seq::<(Seq<char>, ResolvedModel)>::empty()) =~= Seq::empty());
    lemma_resolution_sound(config, inventory.datasets, order, 0, Seq::empty());
    let resolved = resolve_from(config, inventory.datasets, order, 0, Seq::empty())->Ok_0;
    let datasets = values_of(resolved);
    assert forall|i: int| 0 <= i < datasets.len() implies has_schedule(
        (#[trigger] datasets[i]).policy,
        now,
    ) by {
        let policy = datasets[i].policy;
        assert(datasets[i] == resolved[i].1);
        assert(policy_fault(policy, ""@) is None);
        assert(schedule_fault(policy, ""@) is None);
        assert(1 <= policy.frequent_period <= 60);
    }
    assert forall|i: int, j: int| 0 <= i < j < datasets.len() implies (#[trigger] datasets[i]).name
        != (#[trigger] datasets[j]).name by {
        assert(names_of(resolved)[i] == datasets[i].name);
        assert(names_of(resolved)[j] == datasets[j].name);
        lemma_lt_irreflexive(datasets[i].name);
    }
}

} // verus!
