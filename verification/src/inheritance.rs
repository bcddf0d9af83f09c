//! Which section decides the policy of a dataset, and what that policy is.
use vstd::prelude::*;

use crate::census::{is_below, lemma_below, lemma_pool};
use crate::config::{overlay, section_policy, ConfigModel, DatasetModel, Recursion};
use crate::model::StrategyModel;
use crate::names::{increasing, lemma_lookup, lemma_put, lookup, names_of, put};
use crate::planner::{below, depth, inherited, put_targets, resolution, resolve_from, resolved_as, section_order, section_targets, ResolvedModel, SectionName};
use crate::policy::{default_policy, patched, PatchModel, PolicyModel};
use crate::sort::{lemma_sorted, lemma_sorted_members};
use crate::text::{has_prefix, lemma_lt_irreflexive, position};
use crate::zfs::InventoryModel;

verus! {

// ---------------------------------------------------------------------------
// Sections
// ---------------------------------------------------------------------------

/// The section of a configured dataset.
pub open spec fn section_of(config: ConfigModel, root: Seq<char>) -> DatasetModel {
    lookup(config.datasets, root)->0
}

/// Whether a section reaches a dataset from above.
pub open spec fn covers(config: ConfigModel, root: Seq<char>, dataset: Seq<char>) -> bool {
    &&& names_of(config.datasets).contains(root)
    &&& section_of(config, root).recursive != Recursion::Off
    &&& is_below(dataset, root)
}

/// Whether a section manages a dataset: its own, unless it processes children
/// only, or one that it reaches from above.
pub open spec fn manages(config: ConfigModel, root: Seq<char>, dataset: Seq<char>) -> bool {
    ||| names_of(config.datasets).contains(root) && root == dataset && !section_of(
        config,
        root,
    ).process_children_only
    ||| covers(config, root, dataset)
}

/// The nearest of the sections that reach a dataset from above.
pub open spec fn is_nearest_above(
    config: ConfigModel,
    root: Seq<char>,
    dataset: Seq<char>,
) -> bool {
    &&& covers(config, root, dataset)
    &&& forall|other: Seq<char>| #[trigger]
        covers(config, other, dataset) ==> other.len() <= root.len()
}

/// The nearest of the sections that manage a dataset.
pub open spec fn is_nearest(config: ConfigModel, root: Seq<char>, dataset: Seq<char>) -> bool {
    &&& manages(config, root, dataset)
    &&& forall|other: Seq<char>| #[trigger]
        manages(config, other, dataset) ==> other.len() <= root.len()
}

/// The policy of a section: its templates and its own values on top of the
/// policy of the nearest section that reaches it from above, or of the default
/// where none does.
pub open spec fn policy_by(config: ConfigModel, root: Seq<char>) -> PolicyModel
    decreases root.len(),
{
    let section = section_of(config, root);
    if exists|above: Seq<char>| is_nearest_above(config, above, root) {
        let above = choose|above: Seq<char>| is_nearest_above(config, above, root);
        if above.len() < root.len() {
            section_policy(config.templates, section, policy_by(config, above))->Ok_0
        } else {
            default_policy()
        }
    } else {
        section_policy(config.templates, section, default_policy())->Ok_0
    }
}

// ---------------------------------------------------------------------------
// Depth
// ---------------------------------------------------------------------------

proof fn lemma_depth_of_start(name: Seq<char>, n: int)
    requires
        0 <= n <= name.len(),
    ensures
        depth(name.take(n)) <= depth(name),
    decreases name.len() - n,
{
    if n < name.len() {
        lemma_depth_of_start(name, n + 1);
        assert(name.take(n + 1).drop_last() =~= name.take(n));
    } else {
        assert(name.take(n) =~= name);
    }
}

proof fn lemma_deeper(dataset: Seq<char>, above: Seq<char>)
    requires
        is_below(dataset, above),
    ensures
        depth(above) < depth(dataset),
{
    let n = above.len() as int;
    lemma_depth_of_start(dataset, n + 1);
    assert(dataset.take(n + 1).drop_last() =~= above) by {
        assert(dataset.subrange(0, n) =~= dataset.take(n));
        assert(dataset.take(n + 1).drop_last() =~= dataset.take(n));
    }
    assert(dataset.take(n + 1).last() == '/');
}

/// Of two datasets above a third, the longer lies below the shorter.
proof fn lemma_above_nest(dataset: Seq<char>, a: Seq<char>, b: Seq<char>)
    requires
        is_below(dataset, a),
        is_below(dataset, b),
    ensures
        a.len() < b.len() ==> is_below(b, a),
        a.len() == b.len() ==> a == b,
{
    if a.len() < b.len() {
        assert(b.subrange(0, a.len() as int) =~= dataset.subrange(0, a.len() as int)) by {
            assert forall|i: int| 0 <= i < a.len() implies b[i] == dataset[i] by {
                assert(dataset.subrange(0, b.len() as int)[i] == b[i]);
            }
        }
        assert(dataset.subrange(0, b.len() as int)[a.len() as int] == b[a.len() as int]);
    }
}

// ---------------------------------------------------------------------------
// Resolution
// ---------------------------------------------------------------------------

/// Whether a section puts a dataset into the resolution.
spec fn puts(
    config: ConfigModel,
    datasets: Seq<Seq<char>>,
    root: Seq<char>,
    dataset: Seq<char>,
) -> bool {
    ||| root == dataset && !section_of(config, root).process_children_only
    ||| section_of(config, root).recursive != Recursion::Off && is_below(dataset, root)
        && datasets.contains(dataset)
}

proof fn lemma_below_members(
    names: Seq<Seq<char>>,
    root: Seq<char>,
    n: int,
    name: Seq<char>,
)
    requires
        0 <= n <= names.len(),
    ensures
        below(names, root + "/"@, n).contains(name) <==> is_below(name, root)
            && names.take(n).contains(name),
    decreases n,
{
    lemma_below(name, root);
    if n > 0 {
        lemma_below_members(names, root, n - 1, name);
        let last = names[n - 1];
        let earlier = below(names, root + "/"@, n - 1);
        let found = below(names, root + "/"@, n);
        assert(names.take(n) =~= names.take(n - 1).push(last));
        if names.take(n).contains(name) {
            let i = names.take(n).index_of(name);
            if i < n - 1 {
                assert(names.take(n - 1)[i] == name);
            }
        }
        if names.take(n - 1).contains(name) {
            assert(names.take(n)[names.take(n - 1).index_of(name)] == name);
        }
        assert(names.take(n)[n - 1] == last);
        if found.contains(name) {
            let i = found.index_of(name);
            if i < earlier.len() {
                assert(earlier[i] == name);
            }
        }
        if earlier.contains(name) {
            assert(found[earlier.index_of(name)] == name);
        }
        if has_prefix(last, root + "/"@) {
            assert(found[earlier.len() as int] == last);
        }
    }
}

proof fn lemma_target_members(
    config: ConfigModel,
    datasets: Seq<Seq<char>>,
    root: Seq<char>,
    dataset: Seq<char>,
)
    ensures
        section_targets(datasets, root, section_of(config, root)).contains(dataset) <==> puts(
            config,
            datasets,
            root,
            dataset,
        ),
{
    let section = section_of(config, root);
    let own: Seq<Seq<char>> = if section.process_children_only {
        seq![]
    } else {
        seq![root]
    };
    let n = datasets.len() as int;
    let more = below(datasets, root + "/"@, n);
    let all = section_targets(datasets, root, section);
    lemma_below_members(datasets, root, n, dataset);
    assert(datasets.take(n) =~= datasets);
    assert(own.contains(dataset) <==> root == dataset && !section.process_children_only) by {
        if !section.process_children_only {
            assert(own[0] == root);
        }
    }
    if section.recursive != Recursion::Off {
        assert(all == own + more);
        if all.contains(dataset) {
            let i = all.index_of(dataset);
            if i < own.len() {
                assert(own[i] == dataset);
            } else {
                assert(more[i - own.len()] == dataset);
            }
        }
        if own.contains(dataset) {
            assert(all[own.index_of(dataset)] == dataset);
        }
        if more.contains(dataset) {
            assert(all[own.len() + more.index_of(dataset)] == dataset);
        }
    }
}

proof fn lemma_put_targets(
    resolved: Seq<(Seq<char>, ResolvedModel)>,
    targets: Seq<Seq<char>>,
    j: int,
    recursive: Recursion,
    root: Seq<char>,
    policy: PolicyModel,
    dataset: Seq<char>,
)
    requires
        increasing(names_of(resolved)),
        0 <= j <= targets.len(),
    ensures
        increasing(names_of(put_targets(resolved, targets, j, recursive, root, policy))),
        lookup(put_targets(resolved, targets, j, recursive, root, policy), dataset) == if exists|
            k: int,
        |
            j <= k < targets.len() && #[trigger] targets[k] == dataset {
            Some(resolved_as(recursive, root, dataset, policy))
        } else {
            lookup(resolved, dataset)
        },
    decreases targets.len() - j,
{
    if j < targets.len() {
        let entry = resolved_as(recursive, root, targets[j], policy);
        let next = put(resolved, targets[j], entry);
        lemma_put(resolved, targets[j], entry, dataset);
        lemma_put_targets(next, targets, j + 1, recursive, root, policy, dataset);
    }
}

/// What the resolution says of a dataset after the first `i` sections.
spec fn says(
    config: ConfigModel,
    datasets: Seq<Seq<char>>,
    order: Seq<Seq<char>>,
    i: int,
    dataset: Seq<char>,
    entry: Option<ResolvedModel>,
) -> bool {
    match entry {
        None => forall|j: int|
            0 <= j < i ==> !puts(config, datasets, #[trigger] order[j], dataset),
        Some(entry) => exists|j: int|
            #![trigger order[j]]
            0 <= j < i && puts(config, datasets, order[j], dataset) && (forall|k: int|
                j < k < i ==> !puts(config, datasets, #[trigger] order[k], dataset)) && entry
                == resolved_as(
                section_of(config, order[j]).recursive,
                order[j],
                dataset,
                policy_by(config, order[j]),
            ),
    }
}

spec fn says_all(
    config: ConfigModel,
    datasets: Seq<Seq<char>>,
    order: Seq<Seq<char>>,
    i: int,
    resolved: Seq<(Seq<char>, ResolvedModel)>,
) -> bool {
    &&& increasing(names_of(resolved))
    &&& forall|dataset: Seq<char>|
        says(config, datasets, order, i, dataset, #[trigger] lookup(resolved, dataset))
}

/// The order in which sections are resolved: every configured one once, none
/// before a shallower one.
spec fn is_order(config: ConfigModel, order: Seq<Seq<char>>) -> bool {
    &&& forall|j: int|
        0 <= j < order.len() ==> names_of(config.datasets).contains(#[trigger] order[j])
    &&& forall|name: Seq<char>| #[trigger]
        names_of(config.datasets).contains(name) ==> order.contains(name)
    &&& forall|j: int, k: int|
        0 <= j < k < order.len() ==> depth(#[trigger] order[j]) <= depth(#[trigger] order[k])
            && order[j] != order[k]
}

proof fn lemma_section_order(config: ConfigModel)
    requires
        increasing(names_of(config.datasets)),
    ensures
        is_order(config, section_order(config)),
{
    broadcast use vstd::seq_lib::group_to_multiset_ensures;

    let names = names_of(config.datasets);
    let order = section_order(config);
    lemma_sorted::<SectionName>(names);
    assert forall|j: int| 0 <= j < order.len() implies names.contains(#[trigger] order[j]) by {
        assert(order.contains(order[j]));
        lemma_sorted_members::<SectionName>(names, order[j]);
    }
    assert forall|name: Seq<char>| #[trigger] names.contains(name) implies order.contains(
        name,
    ) by {
        lemma_sorted_members::<SectionName>(names, name);
    }
    assert(names.no_duplicates()) by {
        assert forall|i: int, j: int| 0 <= i < names.len() && 0 <= j < names.len() && i
            != j implies names[i] != names[j] by {
            lemma_lt_irreflexive(names[i]);
            if i < j {
                assert(crate::text::text_lt(names[i], names[j]));
            } else {
                assert(crate::text::text_lt(names[j], names[i]));
            }
        }
    }
    names.lemma_multiset_has_no_duplicates();
    order.lemma_multiset_has_no_duplicates_conv();
    assert forall|j: int, k: int| 0 <= j < k < order.len() implies depth(#[trigger] order[j])
        <= depth(#[trigger] order[k]) && order[j] != order[k] by {
        assert(<SectionName as crate::sort::Sortable>::may_precede(order[j], order[k]));
    }
}

/// The policy that a section builds on is that of the nearest section that
/// reaches it from above.
proof fn lemma_base(
    config: ConfigModel,
    datasets: Seq<Seq<char>>,
    order: Seq<Seq<char>>,
    i: int,
    resolved: Seq<(Seq<char>, ResolvedModel)>,
)
    requires
        is_order(config, order),
        0 <= i < order.len(),
        datasets.contains(order[i]),
        says_all(config, datasets, order, i, resolved),
        section_policy(
            config.templates,
            section_of(config, order[i]),
            inherited(resolved, order[i]),
        ) is Ok,
    ensures
        section_policy(
            config.templates,
            section_of(config, order[i]),
            inherited(resolved, order[i]),
        )->Ok_0 == policy_by(config, order[i]),
{
    let root = order[i];
    let entry = lookup(resolved, root);
    assert(says(config, datasets, order, i, root, entry));
    match entry {
        None => {
            if exists|above: Seq<char>| is_nearest_above(config, above, root) {
                let above = choose|above: Seq<char>| is_nearest_above(config, above, root);
                lemma_deeper(root, above);
                let j = order.index_of(above);
                if j > i {
                    assert(depth(order[i]) <= depth(order[j]));
                }
                assert(puts(config, datasets, order[j], root));
            }
        },
        Some(entry) => {
            let j = choose|j: int|
                #![trigger order[j]]
                0 <= j < i && puts(config, datasets, order[j], root) && (forall|k: int|
                    j < k < i ==> !puts(config, datasets, #[trigger] order[k], root)) && entry
                    == resolved_as(
                    section_of(config, order[j]).recursive,
                    order[j],
                    root,
                    policy_by(config, order[j]),
                );
            let above = order[j];
            assert(order[j] != order[i]);
            assert(covers(config, above, root));
            assert forall|other: Seq<char>| #[trigger] covers(
                config,
                other,
                root,
            ) implies other.len() <= above.len() by {
                lemma_deeper(root, other);
                lemma_above_nest(root, above, other);
                let k = order.index_of(other);
                if k > i {
                    assert(depth(order[i]) <= depth(order[k]));
                }
                assert(puts(config, datasets, order[k], root));
                if k < j {
                    assert(depth(order[k]) <= depth(order[j]));
                }
                if above.len() < other.len() {
                    lemma_deeper(other, above);
                }
            }
            assert(is_nearest_above(config, above, root));
            let chosen = choose|above: Seq<char>| is_nearest_above(config, above, root);
            assert(covers(config, chosen, root));
            lemma_above_nest(root, above, chosen);
        },
    }
}

proof fn lemma_resolve(
    config: ConfigModel,
    datasets: Seq<Seq<char>>,
    order: Seq<Seq<char>>,
    i: int,
    resolved: Seq<(Seq<char>, ResolvedModel)>,
)
    requires
        increasing(names_of(config.datasets)),
        is_order(config, order),
        0 <= i <= order.len(),
        says_all(config, datasets, order, i, resolved),
        resolve_from(config, datasets, order, i, resolved) is Ok,
    ensures
        says_all(
            config,
            datasets,
            order,
            order.len() as int,
            resolve_from(config, datasets, order, i, resolved)->Ok_0,
        ),
        forall|j: int| i <= j < order.len() ==> datasets.contains(#[trigger] order[j]),
    decreases order.len() - i,
{
    if i < order.len() {
        let root = order[i];
        let section = section_of(config, root);
        let targets = section_targets(datasets, root, section);
        assert(datasets.contains(root));
        lemma_lookup(config.datasets, root);
        let policy = section_policy(config.templates, section, inherited(resolved, root))->Ok_0;
        lemma_base(config, datasets, order, i, resolved);
        let next = put_targets(resolved, targets, 0, section.recursive, root, policy);
        lemma_put_targets(resolved, targets, 0, section.recursive, root, policy, root);
        assert forall|dataset: Seq<char>| says(
            config,
            datasets,
            order,
            i + 1,
            dataset,
            #[trigger] lookup(next, dataset),
        ) by {
            lemma_put_targets(resolved, targets, 0, section.recursive, root, policy, dataset);
            lemma_target_members(config, datasets, root, dataset);
            let before = lookup(resolved, dataset);
            assert(says(config, datasets, order, i, dataset, before));
            if puts(config, datasets, root, dataset) {
                let k = targets.index_of(dataset);
                assert(targets[k] == dataset);
                assert(order[i] == root);
            } else {
                if exists|k: int| 0 <= k < targets.len() && #[trigger] targets[k] == dataset {
                    let k = choose|k: int|
                        0 <= k < targets.len() && #[trigger] targets[k] == dataset;
                    assert(targets.contains(dataset));
                }
                assert(lookup(next, dataset) == before);
                if before is Some {
                    let j = choose|j: int|
                        #![trigger order[j]]
                        0 <= j < i && puts(config, datasets, order[j], dataset) && (forall|k: int|
                            j < k < i ==> !puts(config, datasets, #[trigger] order[k], dataset))
                            && before->0 == resolved_as(
                            section_of(config, order[j]).recursive,
                            order[j],
                            dataset,
                            policy_by(config, order[j]),
                        );
                    assert(0 <= j < i + 1);
                }
            }
        }
        lemma_resolve(config, datasets, order, i + 1, next);
    }
}

/// How a dataset gets its snapshots from the section that decides about it:
/// those of a recursive root or along with one where the section takes them
/// recursively, and its own otherwise.
pub open spec fn strategy_by(config: ConfigModel, root: Seq<char>, dataset: Seq<char>) -> StrategyModel {
    if section_of(config, root).recursive != Recursion::Zfs {
        StrategyModel::Individual
    } else if dataset == root {
        StrategyModel::RecursiveRoot
    } else {
        StrategyModel::CoveredByRecursive(root)
    }
}

/// Whether a resolved dataset is as a section decides.
pub open spec fn is_as_decided(
    config: ConfigModel,
    root: Seq<char>,
    dataset: ResolvedModel,
) -> bool {
    &&& is_nearest(config, root, dataset.name)
    &&& dataset.policy == policy_by(config, root)
    &&& dataset.snapshot_strategy == strategy_by(config, root, dataset.name)
    &&& dataset.pool == dataset.name.take(position(dataset.name, '/'))
}

/// Whether some section decides about a resolved dataset.
pub open spec fn is_decided(config: ConfigModel, dataset: ResolvedModel) -> bool {
    exists|root: Seq<char>| is_as_decided(config, root, dataset)
}

/// The nearest section that manages a dataset decides about it. A configuration
/// resolves to the datasets of the inventory that some section manages, and each
/// of them has the policy of the nearest such section.
pub proof fn law_nearest_section_decides(
    config: ConfigModel,
    inventory: InventoryModel,
    datasets: Seq<ResolvedModel>,
    name: Seq<char>,
)
    requires
        increasing(names_of(config.datasets)),
        resolution(config, inventory) == Ok::<Seq<ResolvedModel>, Seq<char>>(datasets),
    ensures
        forall|i: int|
            0 <= i < datasets.len() ==> is_decided(config, #[trigger] datasets[i]),
        (exists|i: int| 0 <= i < datasets.len() && (#[trigger] datasets[i]).name == name)
            <==> inventory.datasets.contains(name) && exists|root: Seq<char>|
            manages(config, root, name),
{
    let order = section_order(config);
    let all = inventory.datasets;
    let n = order.len() as int;
    let none = Seq::<(Seq<char>, ResolvedModel)>::empty();
    lemma_section_order(config);
    assert(names_of(none) =~= Seq::<Seq<char>>::empty());
    assert(says_all(config, all, order, 0, none));
    lemma_resolve(config, all, order, 0, none);
    let resolved = resolve_from(config, all, order, 0, none)->Ok_0;
    assert forall|i: int| 0 <= i < datasets.len() implies is_decided(
        config,
        #[trigger] datasets[i],
    ) by {
        assert(datasets[i] == resolved[i].1);
        let dataset = resolved[i].0;
        lemma_lookup(resolved, dataset);
        assert(lookup(resolved, dataset) == Some(resolved[i].1));
        assert(says(config, all, order, n, dataset, lookup(resolved, dataset)));
        let j = choose|j: int|
            #![trigger order[j]]
            0 <= j < n && puts(config, all, order[j], dataset) && (forall|k: int|
                j < k < n ==> !puts(config, all, #[trigger] order[k], dataset)) && resolved[i].1
                == resolved_as(
                section_of(config, order[j]).recursive,
                order[j],
                dataset,
                policy_by(config, order[j]),
            );
        let root = order[j];
        assert(names_of(config.datasets).contains(root));
        assert(manages(config, root, dataset));
        assert(all.contains(dataset));
        assert forall|other: Seq<char>| #[trigger] manages(
            config,
            other,
            dataset,
        ) implies other.len() <= root.len() by {
            let k = order.index_of(other);
            assert(order.contains(other));
            assert(puts(config, all, order[k], dataset));
            if other.len() > root.len() {
                assert(is_below(other, root)) by {
                    if other != dataset {
                        lemma_above_nest(dataset, root, other);
                    }
                }
                lemma_deeper(other, root);
                if k < j {
                    assert(depth(order[k]) <= depth(order[j]));
                }
            }
        }
        lemma_pool(dataset);
        assert(is_as_decided(config, root, datasets[i]));
    }
    assert(says(config, all, order, n, name, lookup(resolved, name)));
    lemma_lookup(resolved, name);
    if exists|i: int| 0 <= i < datasets.len() && (#[trigger] datasets[i]).name == name {
        let i = choose|i: int| 0 <= i < datasets.len() && (#[trigger] datasets[i]).name == name;
        assert(is_decided(config, datasets[i]));
        let root = choose|root: Seq<char>| is_as_decided(config, root, datasets[i]);
        assert(manages(config, root, name));
        assert(datasets[i] == resolved[i].1);
        lemma_lookup(resolved, resolved[i].0);
        assert(says(config, all, order, n, resolved[i].0, lookup(resolved, resolved[i].0)));
        assert(resolved[i].0 == name);
        let k = order.index_of(root);
        assert(order.contains(root));
        if root == name {
            assert(all.contains(order[k]));
        } else {
            assert(all.contains(name));
        }
    }
    if all.contains(name) && exists|root: Seq<char>| manages(config, root, name) {
        let root = choose|root: Seq<char>| manages(config, root, name);
        let k = order.index_of(root);
        assert(order.contains(root));
        assert(puts(config, all, order[k], name));
        assert(lookup(resolved, name) is Some);
        assert(names_of(resolved).contains(name));
        let i = names_of(resolved).index_of(name);
        assert(resolved[i].0 == name);
        assert(lookup(resolved, name) == Some(resolved[i].1));
        assert(datasets[i] == resolved[i].1);
        assert(datasets[i].name == name);
    }
}

// ---------------------------------------------------------------------------
// Values
// ---------------------------------------------------------------------------

/// Whether no template from number `i` on gives a value.
pub open spec fn none_gives<T>(
    templates: Seq<(Seq<char>, PatchModel)>,
    names: Seq<Seq<char>>,
    i: int,
    value: spec_fn(PatchModel) -> Option<T>,
) -> bool {
    forall|j: int|
        i <= j < names.len() ==> value((#[trigger] lookup(templates, names[j]))->0) is None
}

/// Where a value of a policy comes from: what the section itself gives, or else
/// what the last of its templates gives that gives any, or else the base.
pub open spec fn comes_from<T>(
    templates: Seq<(Seq<char>, PatchModel)>,
    section: DatasetModel,
    value: spec_fn(PatchModel) -> Option<T>,
    base: T,
    result: T,
) -> bool {
    let names = section.use_templates;
    match value(section.policy) {
        Some(given) => result == given,
        None => {
            &&& none_gives(templates, names, 0, value) ==> result == base
            &&& forall|j: int|
                0 <= j < names.len() && value((#[trigger] lookup(templates, names[j]))->0) is Some
                    && none_gives(templates, names, j + 1, value) ==> Some(result) == value(
                    lookup(templates, names[j])->0,
                )
        },
    }
}

proof fn lemma_overlay_value<T>(
    templates: Seq<(Seq<char>, PatchModel)>,
    names: Seq<Seq<char>>,
    i: int,
    policy: PolicyModel,
    value: spec_fn(PatchModel) -> Option<T>,
    part: spec_fn(PolicyModel) -> T,
)
    requires
        0 <= i,
        overlay(templates, names, i, policy) is Ok,
        forall|p: PolicyModel, patch: PatchModel| #[trigger]
            part(patched(p, patch)) == match value(patch) {
                Some(given) => given,
                None => part(p),
            },
    ensures
        none_gives(templates, names, i, value) ==> part(
            overlay(templates, names, i, policy)->Ok_0,
        ) == part(policy),
        forall|j: int|
            i <= j < names.len() && value((#[trigger] lookup(templates, names[j]))->0) is Some
                && none_gives(templates, names, j + 1, value) ==> Some(
                part(overlay(templates, names, i, policy)->Ok_0),
            ) == value(lookup(templates, names[j])->0),
    decreases names.len() - i,
{
    if i < names.len() {
        let patch = lookup(templates, names[i])->0;
        let next = patched(policy, patch);
        lemma_overlay_value(templates, names, i + 1, next, value, part);
        assert(part(next) == match value(patch) {
            Some(given) => given,
            None => part(policy),
        });
        if none_gives(templates, names, i, value) {
            assert(value(lookup(templates, names[i])->0) is None);
            assert(none_gives(templates, names, i + 1, value));
        }
    }
}

proof fn lemma_value<T>(
    templates: Seq<(Seq<char>, PatchModel)>,
    section: DatasetModel,
    base: PolicyModel,
    value: spec_fn(PatchModel) -> Option<T>,
    part: spec_fn(PolicyModel) -> T,
)
    requires
        section_policy(templates, section, base) is Ok,
        forall|p: PolicyModel, patch: PatchModel| #[trigger]
            part(patched(p, patch)) == match value(patch) {
                Some(given) => given,
                None => part(p),
            },
    ensures
        comes_from(
            templates,
            section,
            value,
            part(base),
            part(section_policy(templates, section, base)->Ok_0),
        ),
{
    lemma_overlay_value(templates, section.use_templates, 0, base, value, part);
    let policy = overlay(templates, section.use_templates, 0, base)->Ok_0;
    assert(part(patched(policy, section.policy)) == match value(section.policy) {
        Some(given) => given,
        None => part(policy),
    });
}

/// Every value of the policy of a section is what the section itself gives, or
/// else what the last of its templates that gives any gives, or else that of the
/// policy it builds on.
pub proof fn law_every_value_has_its_source(
    templates: Seq<(Seq<char>, PatchModel)>,
    section: DatasetModel,
    base: PolicyModel,
    policy: PolicyModel,
)
    requires
        section_policy(templates, section, base) == Ok::<PolicyModel, Seq<char>>(policy),
    ensures
        comes_from(
            templates,
            section,
            |patch: PatchModel| patch.autosnap,
            base.autosnap,
            policy.autosnap,
        ),
        comes_from(
            templates,
            section,
            |patch: PatchModel| patch.autoprune,
            base.autoprune,
            policy.autoprune,
        ),
        comes_from(
            templates,
            section,
            |patch: PatchModel| patch.frequently,
            base.frequently,
            policy.frequently,
        ),
        comes_from(
            templates,
            section,
            |patch: PatchModel| patch.hourly,
            base.hourly,
            policy.hourly,
        ),
        comes_from(
            templates,
            section,
            |patch: PatchModel| patch.daily,
            base.daily,
            policy.daily,
        ),
        comes_from(
            templates,
            section,
            |patch: PatchModel| patch.weekly,
            base.weekly,
            policy.weekly,
        ),
        comes_from(
            templates,
            section,
            |patch: PatchModel| patch.monthly,
            base.monthly,
            policy.monthly,
        ),
        comes_from(
            templates,
            section,
            |patch: PatchModel| patch.yearly,
            base.yearly,
            policy.yearly,
        ),
        comes_from(
            templates,
            section,
            |patch: PatchModel| patch.frequent_period,
            base.frequent_period,
            policy.frequent_period,
        ),
        comes_from(
            templates,
            section,
            |patch: PatchModel| patch.hourly_min,
            base.hourly_min,
            policy.hourly_min,
        ),
        comes_from(
            templates,
            section,
            |patch: PatchModel| patch.daily_hour,
            base.daily_hour,
            policy.daily_hour,
        ),
        comes_from(
            templates,
            section,
            |patch: PatchModel| patch.daily_min,
            base.daily_min,
            policy.daily_min,
        ),
        comes_from(
            templates,
            section,
            |patch: PatchModel| patch.weekly_wday,
            base.weekly_wday,
            policy.weekly_wday,
        ),
        comes_from(
            templates,
            section,
            |patch: PatchModel| patch.weekly_hour,
            base.weekly_hour,
            policy.weekly_hour,
        ),
        comes_from(
            templates,
            section,
            |patch: PatchModel| patch.weekly_min,
            base.weekly_min,
            policy.weekly_min,
        ),
        comes_from(
            templates,
            section,
            |patch: PatchModel| patch.monthly_mday,
            base.monthly_mday,
            policy.monthly_mday,
        ),
        comes_from(
            templates,
            section,
            |patch: PatchModel| patch.monthly_hour,
            base.monthly_hour,
            policy.monthly_hour,
        ),
        comes_from(
            templates,
            section,
            |patch: PatchModel| patch.monthly_min,
            base.monthly_min,
            policy.monthly_min,
        ),
        comes_from(
            templates,
            section,
            |patch: PatchModel| patch.yearly_mon,
            base.yearly_mon,
            policy.yearly_mon,
        ),
        comes_from(
            templates,
            section,
            |patch: PatchModel| patch.yearly_mday,
            base.yearly_mday,
            policy.yearly_mday,
        ),
        comes_from(
            templates,
            section,
            |patch: PatchModel| patch.yearly_hour,
            base.yearly_hour,
            policy.yearly_hour,
        ),
        comes_from(
            templates,
            section,
            |patch: PatchModel| patch.yearly_min,
            base.yearly_min,
            policy.yearly_min,
        ),
        comes_from(
            templates,
            section,
            |patch: PatchModel| patch.prune_defer,
            base.prune_defer,
            policy.prune_defer,
        ),
        comes_from(
            templates,
            section,
            |patch: PatchModel| patch.pre_snapshot_script,
            base.pre_snapshot_script,
            policy.pre_snapshot_script,
        ),
        comes_from(
            templates,
            section,
            |patch: PatchModel| patch.post_snapshot_script,
            base.post_snapshot_script,
            policy.post_snapshot_script,
        ),
        comes_from(
            templates,
            section,
            |patch: PatchModel| patch.pre_pruning_script,
            base.pre_pruning_script,
            policy.pre_pruning_script,
        ),
        comes_from(
            templates,
            section,
            |patch: PatchModel| patch.pruning_script,
            base.pruning_script,
            policy.pruning_script,
        ),
        comes_from(
            templates,
            section,
            |patch: PatchModel| patch.script_timeout,
            base.script_timeout,
            policy.script_timeout,
        ),
        comes_from(
            templates,
            section,
            |patch: PatchModel| patch.no_inconsistent_snapshot,
            base.no_inconsistent_snapshot,
            policy.no_inconsistent_snapshot,
        ),
        comes_from(
            templates,
            section,
            |patch: PatchModel| patch.force_post_snapshot_script,
            base.force_post_snapshot_script,
            policy.force_post_snapshot_script,
        ),
{
    lemma_value(
        templates,
        section,
        base,
        |patch: PatchModel| patch.autosnap,
        |p: PolicyModel| p.autosnap,
    );
    lemma_value(
        templates,
        section,
        base,
        |patch: PatchModel| patch.autoprune,
        |p: PolicyModel| p.autoprune,
    );
    lemma_value(
        templates,
        section,
        base,
        |patch: PatchModel| patch.frequently,
        |p: PolicyModel| p.frequently,
    );
    lemma_value(
        templates,
        section,
        base,
        |patch: PatchModel| patch.hourly,
        |p: PolicyModel| p.hourly,
    );
    lemma_value(
        templates,
        section,
        base,
        |patch: PatchModel| patch.daily,
        |p: PolicyModel| p.daily,
    );
    lemma_value(
        templates,
        section,
        base,
        |patch: PatchModel| patch.weekly,
        |p: PolicyModel| p.weekly,
    );
    lemma_value(
        templates,
        section,
        base,
        |patch: PatchModel| patch.monthly,
        |p: PolicyModel| p.monthly,
    );
    lemma_value(
        templates,
        section,
        base,
        |patch: PatchModel| patch.yearly,
        |p: PolicyModel| p.yearly,
    );
    lemma_value(
        templates,
        section,
        base,
        |patch: PatchModel| patch.frequent_period,
        |p: PolicyModel| p.frequent_period,
    );
    lemma_value(
        templates,
        section,
        base,
        |patch: PatchModel| patch.hourly_min,
        |p: PolicyModel| p.hourly_min,
    );
    lemma_value(
        templates,
        section,
        base,
        |patch: PatchModel| patch.daily_hour,
        |p: PolicyModel| p.daily_hour,
    );
    lemma_value(
        templates,
        section,
        base,
        |patch: PatchModel| patch.daily_min,
        |p: PolicyModel| p.daily_min,
    );
    lemma_value(
        templates,
        section,
        base,
        |patch: PatchModel| patch.weekly_wday,
        |p: PolicyModel| p.weekly_wday,
    );
    lemma_value(
        templates,
        section,
        base,
        |patch: PatchModel| patch.weekly_hour,
        |p: PolicyModel| p.weekly_hour,
    );
    lemma_value(
        templates,
        section,
        base,
        |patch: PatchModel| patch.weekly_min,
        |p: PolicyModel| p.weekly_min,
    );
    lemma_value(
        templates,
        section,
        base,
        |patch: PatchModel| patch.monthly_mday,
        |p: PolicyModel| p.monthly_mday,
    );
    lemma_value(
        templates,
        section,
        base,
        |patch: PatchModel| patch.monthly_hour,
        |p: PolicyModel| p.monthly_hour,
    );
    lemma_value(
        templates,
        section,
        base,
        |patch: PatchModel| patch.monthly_min,
        |p: PolicyModel| p.monthly_min,
    );
    lemma_value(
        templates,
        section,
        base,
        |patch: PatchModel| patch.yearly_mon,
        |p: PolicyModel| p.yearly_mon,
    );
    lemma_value(
        templates,
        section,
        base,
        |patch: PatchModel| patch.yearly_mday,
        |p: PolicyModel| p.yearly_mday,
    );
    lemma_value(
        templates,
        section,
        base,
        |patch: PatchModel| patch.yearly_hour,
        |p: PolicyModel| p.yearly_hour,
    );
    lemma_value(
        templates,
        section,
        base,
        |patch: PatchModel| patch.yearly_min,
        |p: PolicyModel| p.yearly_min,
    );
    lemma_value(
        templates,
        section,
        base,
        |patch: PatchModel| patch.prune_defer,
        |p: PolicyModel| p.prune_defer,
    );
    lemma_value(
        templates,
        section,
        base,
        |patch: PatchModel| patch.pre_snapshot_script,
        |p: PolicyModel| p.pre_snapshot_script,
    );
    lemma_value(
        templates,
        section,
        base,
        |patch: PatchModel| patch.post_snapshot_script,
        |p: PolicyModel| p.post_snapshot_script,
    );
    lemma_value(
        templates,
        section,
        base,
        |patch: PatchModel| patch.pre_pruning_script,
        |p: PolicyModel| p.pre_pruning_script,
    );
    lemma_value(
        templates,
        section,
        base,
        |patch: PatchModel| patch.pruning_script,
        |p: PolicyModel| p.pruning_script,
    );
    lemma_value(
        templates,
        section,
        base,
        |patch: PatchModel| patch.script_timeout,
        |p: PolicyModel| p.script_timeout,
    );
    lemma_value(
        templates,
        section,
        base,
        |patch: PatchModel| patch.no_inconsistent_snapshot,
        |p: PolicyModel| p.no_inconsistent_snapshot,
    );
    lemma_value(
        templates,
        section,
        base,
        |patch: PatchModel| patch.force_post_snapshot_script,
        |p: PolicyModel| p.force_post_snapshot_script,
    );
}

/// A section builds on the policy of the nearest section that reaches it from
/// above: every value that neither its templates nor it gives is the value of
/// that policy. Without such a section it builds on the default.
pub proof fn law_unset_values_are_inherited(
    config: ConfigModel,
    inventory: InventoryModel,
    datasets: Seq<ResolvedModel>,
    root: Seq<char>,
    above: Seq<char>,
)
    requires
        increasing(names_of(config.datasets)),
        resolution(config, inventory) == Ok::<Seq<ResolvedModel>, Seq<char>>(datasets),
        names_of(config.datasets).contains(root),
    ensures
        is_nearest_above(config, above, root) ==> section_policy(
            config.templates,
            section_of(config, root),
            policy_by(config, above),
        ) == Ok::<PolicyModel, Seq<char>>(policy_by(config, root)),
        (forall|other: Seq<char>| !covers(config, other, root)) ==> section_policy(
            config.templates,
            section_of(config, root),
            default_policy(),
        ) == Ok::<PolicyModel, Seq<char>>(policy_by(config, root)),
{
    let order = section_order(config);
    let none = Seq::<(Seq<char>, ResolvedModel)>::empty();
    lemma_section_order(config);
    assert(names_of(none) =~= Seq::<Seq<char>>::empty());
    assert(says_all(config, inventory.datasets, order, 0, none));
    let k = order.index_of(root);
    assert(order.contains(root));
    lemma_resolved_in_turn(config, inventory.datasets, order, 0, none, k);
    let section = section_of(config, root);
    if is_nearest_above(config, above, root) {
        let chosen = choose|above: Seq<char>| is_nearest_above(config, above, root);
        assert(covers(config, chosen, root) && covers(config, above, root));
        lemma_above_nest(root, above, chosen);
        lemma_known(config.templates, section, policy_by(config, above));
    }
    if forall|other: Seq<char>| !covers(config, other, root) {
        lemma_known(config.templates, section, default_policy());
    }
}

/// Whether every template that a section names exists.
spec fn all_known(templates: Seq<(Seq<char>, PatchModel)>, section: DatasetModel) -> bool {
    forall|j: int|
        0 <= j < section.use_templates.len() ==> lookup(
            templates,
            #[trigger] section.use_templates[j],
        ) is Some
}

proof fn lemma_known(
    templates: Seq<(Seq<char>, PatchModel)>,
    section: DatasetModel,
    base: PolicyModel,
)
    requires
        all_known(templates, section),
    ensures
        section_policy(templates, section, base) is Ok,
{
    crate::config::lemma_overlay_known(templates, section.use_templates, 0, base);
}

proof fn lemma_overlay_knows(
    templates: Seq<(Seq<char>, PatchModel)>,
    names: Seq<Seq<char>>,
    i: int,
    policy: PolicyModel,
)
    requires
        0 <= i,
        overlay(templates, names, i, policy) is Ok,
    ensures
        forall|j: int|
            i <= j < names.len() ==> lookup(templates, #[trigger] names[j]) is Some,
    decreases names.len() - i,
{
    if i < names.len() {
        lemma_overlay_knows(
            templates,
            names,
            i + 1,
            patched(policy, lookup(templates, names[i])->0),
        );
    }
}

/// The templates of every section that is resolved exist.
proof fn lemma_resolved_in_turn(
    config: ConfigModel,
    datasets: Seq<Seq<char>>,
    order: Seq<Seq<char>>,
    i: int,
    resolved: Seq<(Seq<char>, ResolvedModel)>,
    k: int,
)
    requires
        increasing(names_of(config.datasets)),
        is_order(config, order),
        0 <= i <= k < order.len(),
        resolve_from(config, datasets, order, i, resolved) is Ok,
    ensures
        all_known(config.templates, section_of(config, order[k])),
    decreases k - i,
{
    let root = order[i];
    let section = section_of(config, root);
    lemma_lookup(config.datasets, root);
    let base = inherited(resolved, root);
    let policy = section_policy(config.templates, section, base)->Ok_0;
    if i < k {
        lemma_resolved_in_turn(
            config,
            datasets,
            order,
            i + 1,
            put_targets(
                resolved,
                section_targets(datasets, root, section),
                0,
                section.recursive,
                root,
                policy,
            ),
            k,
        );
    } else {
        lemma_overlay_knows(config.templates, section.use_templates, 0, base);
    }
}

/// What stands where nothing is given: the policy of a section that builds on the
/// default takes every value that neither its templates nor it gives from here.
pub proof fn law_defaults_stand_where_nothing_is_given(
    templates: Seq<(Seq<char>, PatchModel)>,
    section: DatasetModel,
    policy: PolicyModel,
)
    requires
        section_policy(templates, section, default_policy()) == Ok::<PolicyModel, Seq<char>>(policy),
    ensures
        comes_from(templates, section, |patch: PatchModel| patch.autosnap, true, policy.autosnap),
        comes_from(templates, section, |patch: PatchModel| patch.autoprune, true, policy.autoprune),
        comes_from(templates, section, |patch: PatchModel| patch.frequently, 0u32, policy.frequently),
        comes_from(templates, section, |patch: PatchModel| patch.hourly, 48u32, policy.hourly),
        comes_from(templates, section, |patch: PatchModel| patch.daily, 90u32, policy.daily),
        comes_from(templates, section, |patch: PatchModel| patch.weekly, 0u32, policy.weekly),
        comes_from(templates, section, |patch: PatchModel| patch.monthly, 6u32, policy.monthly),
        comes_from(templates, section, |patch: PatchModel| patch.yearly, 0u32, policy.yearly),
        comes_from(templates, section, |patch: PatchModel| patch.frequent_period, 15u32, policy.frequent_period),
        comes_from(templates, section, |patch: PatchModel| patch.hourly_min, 0u32, policy.hourly_min),
        comes_from(templates, section, |patch: PatchModel| patch.daily_hour, 23u32, policy.daily_hour),
        comes_from(templates, section, |patch: PatchModel| patch.daily_min, 59u32, policy.daily_min),
        comes_from(templates, section, |patch: PatchModel| patch.weekly_wday, 1u32, policy.weekly_wday),
        comes_from(templates, section, |patch: PatchModel| patch.weekly_hour, 23u32, policy.weekly_hour),
        comes_from(templates, section, |patch: PatchModel| patch.weekly_min, 30u32, policy.weekly_min),
        comes_from(templates, section, |patch: PatchModel| patch.monthly_mday, 1u32, policy.monthly_mday),
        comes_from(templates, section, |patch: PatchModel| patch.monthly_hour, 0u32, policy.monthly_hour),
        comes_from(templates, section, |patch: PatchModel| patch.monthly_min, 0u32, policy.monthly_min),
        comes_from(templates, section, |patch: PatchModel| patch.yearly_mon, 1u32, policy.yearly_mon),
        comes_from(templates, section, |patch: PatchModel| patch.yearly_mday, 1u32, policy.yearly_mday),
        comes_from(templates, section, |patch: PatchModel| patch.yearly_hour, 0u32, policy.yearly_hour),
        comes_from(templates, section, |patch: PatchModel| patch.yearly_min, 0u32, policy.yearly_min),
        comes_from(templates, section, |patch: PatchModel| patch.prune_defer, 0u8, policy.prune_defer),
        comes_from(templates, section, |patch: PatchModel| patch.pre_snapshot_script, Seq::empty(), policy.pre_snapshot_script),
        comes_from(templates, section, |patch: PatchModel| patch.post_snapshot_script, Seq::empty(), policy.post_snapshot_script),
        comes_from(templates, section, |patch: PatchModel| patch.pre_pruning_script, Seq::empty(), policy.pre_pruning_script),
        comes_from(templates, section, |patch: PatchModel| patch.pruning_script, Seq::empty(), policy.pruning_script),
        comes_from(templates, section, |patch: PatchModel| patch.script_timeout, 5u64, policy.script_timeout),
        comes_from(templates, section, |patch: PatchModel| patch.no_inconsistent_snapshot, true, policy.no_inconsistent_snapshot),
        comes_from(templates, section, |patch: PatchModel| patch.force_post_snapshot_script, false, policy.force_post_snapshot_script),
{
    law_every_value_has_its_source(templates, section, default_policy(), policy);
    assert(default_policy().pre_snapshot_script =~= Seq::empty());
    assert(default_policy().post_snapshot_script =~= Seq::empty());
    assert(default_policy().pre_pruning_script =~= Seq::empty());
    assert(default_policy().pruning_script =~= Seq::empty());
}

} // verus!
