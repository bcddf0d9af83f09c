//! What a policy setting beside the policy table of a dataset section means: the same
//! as in the table.
use vstd::prelude::*;

use crate::document::{find, TomlModel};
use crate::error::Fault;
use crate::schema::{inline_from, merged_policy, normalized, normalized_dataset, normalized_datasets, policy_keys, policy_table, without_inline};

verus! {

/// The policy table of a section, empty where there is none.
pub open spec fn table_of(entries: Seq<(Seq<char>, TomlModel)>) -> Seq<(Seq<char>, TomlModel)> {
    match find(entries, "policy"@) {
        Some(TomlModel::Table(policy)) => policy,
        _ => Seq::empty(),
    }
}

proof fn lemma_find_push(
    entries: Seq<(Seq<char>, TomlModel)>,
    entry: (Seq<char>, TomlModel),
    key: Seq<char>,
)
    ensures
        find(entries.push(entry), key) == (if find(entries, key) is Some {
            find(entries, key)
        } else if entry.0 == key {
            Some(entry.1)
        } else {
            None
        }),
    decreases entries.len(),
{
    reveal_with_fuel(find, 2);
    if entries.len() > 0 {
        lemma_find_push(entries.drop_first(), entry, key);
        assert(entries.push(entry).drop_first() =~= entries.drop_first().push(entry));
    } else {
        assert(entries.push(entry).drop_first() =~= Seq::empty());
    }
}

proof fn lemma_find_first(
    first: (Seq<char>, TomlModel),
    rest: Seq<(Seq<char>, TomlModel)>,
    key: Seq<char>,
)
    ensures
        find(seq![first] + rest, key) == (if first.0 == key {
            Some(first.1)
        } else {
            find(rest, key)
        }),
{
    assert((seq![first] + rest).drop_first() =~= rest);
}

proof fn lemma_set(
    entries: Seq<(Seq<char>, TomlModel)>,
    key: Seq<char>,
    value: TomlModel,
    other: Seq<char>,
)
    ensures
        find(crate::schema::set(entries, key, value), other) == (if other == key {
            Some(value)
        } else {
            find(entries, other)
        }),
    decreases entries.len(),
{
    if entries.len() == 0 {
        lemma_find_first((key, value), Seq::empty(), other);
        assert(seq![(key, value)] + Seq::<(Seq<char>, TomlModel)>::empty() =~= seq![(key, value)]);
    } else if entries[0].0 == key {
        lemma_find_first((key, value), entries.drop_first(), other);
    } else {
        lemma_set(entries.drop_first(), key, value, other);
        lemma_find_first(entries[0], crate::schema::set(entries.drop_first(), key, value), other);
    }
}

proof fn lemma_without_inline(entries: Seq<(Seq<char>, TomlModel)>, n: int, key: Seq<char>)
    requires
        0 <= n <= entries.len(),
    ensures
        find(without_inline(entries, n), key) == (if policy_keys().contains(key) {
            None
        } else {
            find(entries.take(n), key)
        }),
    decreases n,
{
    if n > 0 {
        lemma_without_inline(entries, n - 1, key);
        assert(entries.take(n) =~= entries.take(n - 1).push(entries[n - 1]));
        lemma_find_push(entries.take(n - 1), entries[n - 1], key);
        lemma_find_push(without_inline(entries, n - 1), entries[n - 1], key);
    }
}

proof fn lemma_inline(entries: Seq<(Seq<char>, TomlModel)>, i: int, key: Seq<char>)
    requires
        0 <= i <= policy_keys().len(),
    ensures
        find(inline_from(entries, i), key) == (if policy_keys().skip(i).contains(key) {
            find(entries, key)
        } else {
            None
        }),
    decreases policy_keys().len() - i,
{
    let keys = policy_keys();
    if i < keys.len() {
        lemma_inline(entries, i + 1, key);
        assert(keys.skip(i)[0] == keys[i]);
        assert(keys.skip(i + 1) =~= keys.skip(i).drop_first());
        if keys.skip(i).contains(key) && key != keys[i] {
            let j = keys.skip(i).index_of(key);
            assert(keys.skip(i + 1)[j - 1] == key);
        }
        if keys.skip(i + 1).contains(key) {
            let j = keys.skip(i + 1).index_of(key);
            assert(keys.skip(i)[j + 1] == key);
        }
        if let Some(value) = find(entries, keys[i]) {
            lemma_find_first((keys[i], value), inline_from(entries, i + 1), key);
        }
    }
}

proof fn lemma_merged(
    dataset: Seq<char>,
    policy: Seq<(Seq<char>, TomlModel)>,
    inline: Seq<(Seq<char>, TomlModel)>,
    i: int,
    key: Seq<char>,
)
    requires
        0 <= i <= inline.len(),
    ensures
        merged_policy(dataset, policy, inline, i) matches Ok(merged) ==> find(merged, key) == (if find(
            policy,
            key,
        ) is Some {
            find(policy, key)
        } else {
            find(inline.skip(i), key)
        }),
        find(policy, key) is Some && find(inline.skip(i), key) is Some ==> merged_policy(
            dataset,
            policy,
            inline,
            i,
        ) is Err,
    decreases inline.len() - i,
{
    if i < inline.len() {
        assert(inline.skip(i) =~= seq![inline[i]] + inline.skip(i + 1));
        lemma_find_first(inline[i], inline.skip(i + 1), key);
        lemma_find_push(policy, inline[i], key);
        lemma_merged(dataset, policy.push(inline[i]), inline, i + 1, key);
    } else {
        assert(inline.skip(i) =~= Seq::empty());
    }
}

/// The table is no setting of its own.
proof fn lemma_policy_is_no_setting()
    ensures
        !policy_keys().contains("policy"@),
{
    reveal_strlit("policy");
    reveal_strlit("hourly");
    reveal_strlit("weekly");
    reveal_strlit("yearly");
    reveal_strlit("autosnap");
    reveal_strlit("autoprune");
    reveal_strlit("frequently");
    reveal_strlit("daily");
    reveal_strlit("monthly");
    reveal_strlit("frequent_period");
    reveal_strlit("hourly_min");
    reveal_strlit("daily_hour");
    reveal_strlit("daily_min");
    reveal_strlit("weekly_wday");
    reveal_strlit("weekly_hour");
    reveal_strlit("weekly_min");
    reveal_strlit("monthly_mday");
    reveal_strlit("monthly_hour");
    reveal_strlit("monthly_min");
    reveal_strlit("yearly_mon");
    reveal_strlit("yearly_mday");
    reveal_strlit("yearly_hour");
    reveal_strlit("yearly_min");
    reveal_strlit("prune_defer");
    reveal_strlit("pre_snapshot_script");
    reveal_strlit("post_snapshot_script");
    reveal_strlit("pre_pruning_script");
    reveal_strlit("pruning_script");
    reveal_strlit("script_timeout");
    reveal_strlit("no_inconsistent_snapshot");
    reveal_strlit("force_post_snapshot_script");
    let keys = policy_keys();
    assert forall|i: int| 0 <= i < keys.len() implies #[trigger] keys[i] != "policy"@ by {
        assert(keys[i].len() != 6 || keys[i][0] != 'p');
    }
}

/// A policy setting of a dataset section counts as one of its policy table, whose
/// own settings stay. Everything else in the section stays as it is.
pub proof fn law_inline_settings_are_of_the_table(
    name: Seq<char>,
    entries: Seq<(Seq<char>, TomlModel)>,
    done: Seq<(Seq<char>, TomlModel)>,
    key: Seq<char>,
)
    requires
        normalized_dataset(name, TomlModel::Table(entries)) == Ok::<TomlModel, Fault>(
            TomlModel::Table(done),
        ),
    ensures
        policy_keys().contains(key) ==> {
            &&& find(done, key) is None
            &&& find(entries, key) is Some ==> find(table_of(done), key) == find(entries, key)
                && find(table_of(entries), key) is None
            &&& find(entries, key) is None ==> find(table_of(done), key) == find(
                table_of(entries),
                key,
            )
        },
        !policy_keys().contains(key) && key != "policy"@ ==> find(done, key) == find(entries, key),
{
    let inline = inline_from(entries, 0);
    let n = entries.len() as int;
    let rest = without_inline(entries, n);
    assert(entries.take(n) =~= entries);
    assert(policy_keys().skip(0) =~= policy_keys());
    assert(inline.skip(0) =~= inline);
    lemma_policy_is_no_setting();
    lemma_inline(entries, 0, key);
    lemma_without_inline(entries, n, key);
    lemma_without_inline(entries, n, "policy"@);
    if inline.len() > 0 {
        let policy = policy_table(rest)->Table_0;
        lemma_merged(name, policy, inline, 0, key);
        let merged = merged_policy(name, policy, inline, 0)->Ok_0;
        lemma_set(rest, "policy"@, TomlModel::Table(merged), key);
        lemma_set(rest, "policy"@, TomlModel::Table(merged), "policy"@);
        assert(policy == table_of(entries));
        assert(table_of(done) == merged);
    }
}

/// A setting that stands both beside the policy table and in it is refused.
pub proof fn law_settings_stand_in_one_place(
    name: Seq<char>,
    entries: Seq<(Seq<char>, TomlModel)>,
    key: Seq<char>,
)
    requires
        policy_keys().contains(key),
        find(entries, key) is Some,
        find(table_of(entries), key) is Some,
    ensures
        normalized_dataset(name, TomlModel::Table(entries)) is Err,
{
    let inline = inline_from(entries, 0);
    let n = entries.len() as int;
    assert(entries.take(n) =~= entries);
    assert(policy_keys().skip(0) =~= policy_keys());
    assert(inline.skip(0) =~= inline);
    lemma_policy_is_no_setting();
    lemma_inline(entries, 0, key);
    lemma_without_inline(entries, n, "policy"@);
    lemma_merged(name, table_of(entries), inline, 0, key);
}

proof fn lemma_datasets(
    sections: Seq<(Seq<char>, TomlModel)>,
    i: int,
    done: Seq<(Seq<char>, TomlModel)>,
    k: int,
)
    requires
        0 <= i <= sections.len(),
        done.len() == i,
    ensures
        normalized_datasets(sections, i, done) matches Ok(all) ==> all.len() == sections.len()
            && all.take(i) == done && (i <= k < sections.len() ==> all[k].0 == sections[k].0
            && normalized_dataset(sections[k].0, sections[k].1) == Ok::<TomlModel, Fault>(
            all[k].1,
        )),
    decreases sections.len() - i,
{
    if i < sections.len() {
        if let Ok(section) = normalized_dataset(sections[i].0, sections[i].1) {
            let more = done.push((sections[i].0, section));
            lemma_datasets(sections, i + 1, more, k);
            if let Ok(all) = normalized_datasets(sections, i + 1, more) {
                assert(all.take(i) =~= all.take(i + 1).drop_last());
                assert(more.drop_last() =~= done);
                assert(all[i] == all.take(i + 1)[i]);
            }
        }
    } else {
        assert(done.take(i) =~= done);
    }
}

/// Every dataset section of a document is taken so, in its place and under its name,
/// and nothing else of the document changes.
pub proof fn law_only_dataset_sections_change(
    root: Seq<(Seq<char>, TomlModel)>,
    done: Seq<(Seq<char>, TomlModel)>,
    key: Seq<char>,
    k: int,
)
    requires
        normalized(TomlModel::Table(root)) == Ok::<TomlModel, Fault>(TomlModel::Table(done)),
    ensures
        key != "datasets"@ ==> find(done, key) == find(root, key),
        match find(root, "datasets"@) {
            None => find(done, "datasets"@) is None,
            Some(given) => {
                &&& given is Table
                &&& find(done, "datasets"@) matches Some(TomlModel::Table(sections))
                    && sections.len() == given->Table_0.len() && (0 <= k < sections.len()
                    ==> sections[k].0 == given->Table_0[k].0 && normalized_dataset(
                    sections[k].0,
                    given->Table_0[k].1,
                ) == Ok::<TomlModel, Fault>(sections[k].1))
            },
        },
{
    if let Some(TomlModel::Table(sections)) = find(root, "datasets"@) {
        lemma_datasets(sections, 0, Seq::empty(), k);
        let all = normalized_datasets(sections, 0, Seq::empty())->Ok_0;
        lemma_set(root, "datasets"@, TomlModel::Table(all), key);
        lemma_set(root, "datasets"@, TomlModel::Table(all), "datasets"@);
    }
}

} // verus!
