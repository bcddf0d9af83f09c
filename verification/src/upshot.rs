//! What the outcome of each step of a run means for the steps behind it.
use vstd::prelude::*;

use crate::executor::{dataset_ok, destroy_fault, has_space, name_ok, names_ok, OutcomeModel, RunModel, StepModel};
use crate::orders::full_name;
use crate::readback::{law_joined_parts_are_told_apart, law_parts_make_up_the_text, none_holds};
use crate::text::{cut, has_prefix, is_space, join, lemma_position, position, split};

verus! {

// ---------------------------------------------------------------------------
// Outcomes
// ---------------------------------------------------------------------------

/// The snapshots that a step takes if it ends well.
pub open spec fn gain(step: StepModel) -> nat {
    if step is Snapshots {
        step->Snapshots_count
    } else {
        0
    }
}

/// The snapshots that a step destroys if it ends well.
pub open spec fn loss(step: StepModel) -> nat {
    if step is Destroy {
        step->Destroy_count
    } else {
        0
    }
}

/// A request that ends well counts what its step takes or destroys, and leaves no
/// error. One that ends badly counts nothing and leaves an error. The run goes on
/// with the next step either way.
pub proof fn law_only_success_counts(run: RunModel, outcome: OutcomeModel)
    requires
        run.waiting,
        run.wanted() is Some,
    ensures
        ({
            let next = run.completed(outcome);
            &&& next.at == run.at + 1
            &&& next.steps == run.steps
            &&& !next.waiting
            &&& next.skipped == run.skipped
            &&& next.logs == run.logs
            &&& outcome is Succeeded ==> {
                &&& next.created == run.created + gain(run.step())
                &&& next.pruned == run.pruned + loss(run.step())
                &&& next.errors == run.errors
                &&& next.failed == run.failed
                &&& next.skip == run.skip
                &&& next.pre_ok == run.pre_ok
            }
            &&& !(outcome is Succeeded) ==> {
                &&& next.created == run.created
                &&& next.pruned == run.pruned
                &&& next.errors.len() > run.errors.len()
                &&& forall|i: int| 0 <= i < run.errors.len() ==> next.errors[i] == run.errors[i]
            }
        }),
{
}

/// What a failure stops. A failed snapshot, or a failed hook around one, marks the
/// run, so that nothing is pruned. A failed hook before snapshots skips them where
/// the policy wants none that is inconsistent. A failed hook before a prune, or a
/// failed prune, skips what follows it of that snapshot. A failed hook behind a
/// prune stops nothing.
pub proof fn law_failures_stop_what_depends_on_them(run: RunModel, outcome: OutcomeModel)
    requires
        run.waiting,
        run.wanted() is Some,
        !(outcome is Succeeded),
    ensures
        ({
            let next = run.completed(outcome);
            let step = run.step();
            &&& step is Snapshots || step is PreSnapshot || step is PostSnapshot ==> next.failed
            &&& step is Destroy || step is PrePrune || step is PostPrune ==> next.failed
                == run.failed
            &&& step is PreSnapshot ==> !next.pre_ok
            &&& !(step is PreSnapshot) ==> next.pre_ok == run.pre_ok
            &&& step matches StepModel::PreSnapshot { stop, .. } ==> next.skip == (run.skip
                || stop)
            &&& step is Destroy || step is PrePrune ==> next.skip
            &&& step is Snapshots || step is PostSnapshot || step is PostPrune ==> next.skip
                == run.skip
        }),
{
}

/// What is skipped: while a run skips, no snapshot is taken, none is destroyed, and
/// no hook behind a prune runs. The hook behind snapshots runs where the one before
/// did not fail or the policy forces it, and is told of the failure. Hooks before
/// anything always run.
pub proof fn law_skipped_steps_ask_for_nothing(run: RunModel)
    ensures
        ({
            let step = run.step();
            &&& step is Snapshots || step is Destroy || step is PostPrune ==> (
            run.wanted() is Some <==> !run.skip)
            &&& step is PreSnapshot || step is PrePrune ==> run.wanted() is Some
            &&& step matches StepModel::PostSnapshot { hook, force } ==> {
                &&& run.wanted() is Some <==> run.pre_ok || force
                &&& run.wanted() is Some ==> run.wanted() == Some(
                    crate::executor::hook_request(hook, !run.pre_ok),
                )
            }
            &&& step is Begin || step is Guard ==> run.wanted() is None
        }),
{
}

/// Only a new beginning ends skipping: it clears what went wrong before it, and
/// every other step that asks for nothing leaves it. Pruning does not begin after
/// a failure, where there is anything to prune, and what it would have destroyed
/// counts as skipped.
pub proof fn law_only_a_beginning_ends_skipping(run: RunModel)
    requires
        run.wanted() is None,
    ensures
        ({
            let next = run.passed();
            let step = run.step();
            &&& next.failed == run.failed
            &&& next.created == run.created
            &&& next.pruned == run.pruned
            &&& next.errors == run.errors
            &&& step is Begin ==> !next.skip && next.pre_ok && next.at == run.at + 1
            &&& !(step is Begin) ==> next.skip == run.skip && next.pre_ok == run.pre_ok
            &&& step matches StepModel::Guard { prunes, any } ==> {
                &&& run.failed && any ==> next.at == run.steps.len() && next.skipped == prunes
                &&& !run.failed || !any ==> next.at == run.at + 1 && next.skipped == run.skipped
            }
            &&& !(step is Guard) ==> next.at == run.at + 1
        }),
{
}

// ---------------------------------------------------------------------------
// The guard
// ---------------------------------------------------------------------------

/// A text that stands for itself in a command: it has a character, is no option,
/// and holds no white space and none of some marks.
pub open spec fn is_harmless(text: Seq<char>, marks: Seq<char>) -> bool {
    &&& text.len() > 0
    &&& text[0] != '-'
    &&& forall|i: int| 0 <= i < text.len() ==> !is_space(#[trigger] text[i])
    &&& forall|i: int| 0 <= i < text.len() ==> !marks.contains(#[trigger] text[i])
}

/// A plain deletion of snapshots: one target, which names a dataset and some
/// snapshots of it.
pub open spec fn deletes(
    arguments: Seq<Seq<char>>,
    dataset: Seq<char>,
    names: Seq<Seq<char>>,
) -> bool {
    &&& arguments.len() == 2
    &&& arguments[0] == "destroy"@
    &&& arguments[1] == full_name(dataset, join(names, ","@))
    &&& is_harmless(dataset, seq!['@', '#', ','])
    &&& names.len() > 0
    &&& forall|i: int|
        0 <= i < names.len() ==> is_harmless(#[trigger] names[i], seq!['@', '#', '%', '/', ','])
}

proof fn lemma_dash(text: Seq<char>)
    requires
        text.len() > 0,
    ensures
        has_prefix(text, "-"@) <==> text[0] == '-',
{
    reveal_strlit("-");
    assert("-"@.len() == 1 && "-"@[0] == '-');
    if text[0] == '-' {
        assert(text.take(1) =~= "-"@);
    }
    if has_prefix(text, "-"@) {
        assert(text.take(1)[0] == '-');
    }
}

proof fn lemma_mark(text: Seq<char>, marks: Seq<char>, m: int)
    requires
        0 <= m < marks.len(),
        forall|i: int| 0 <= i < text.len() ==> !marks.contains(#[trigger] text[i]),
    ensures
        !text.contains(marks[m]),
{
    if text.contains(marks[m]) {
        let i = text.index_of(marks[m]);
        assert(text[i] == marks[m]);
        assert(marks.contains(text[i]));
    }
}

proof fn lemma_dataset(dataset: Seq<char>)
    ensures
        dataset_ok(dataset) <==> is_harmless(dataset, seq!['@', '#', ',']),
{
    let marks = seq!['@', '#', ','];
    if dataset.len() > 0 {
        lemma_dash(dataset);
    }
    if is_harmless(dataset, marks) {
        lemma_mark(dataset, marks, 0);
        lemma_mark(dataset, marks, 1);
        lemma_mark(dataset, marks, 2);
    }
    if dataset_ok(dataset) {
        assert forall|i: int| 0 <= i < dataset.len() implies !marks.contains(
            #[trigger] dataset[i],
        ) by {
            assert(dataset.contains(dataset[i]));
            if marks.contains(dataset[i]) {
                let m = marks.index_of(dataset[i]);
                assert(marks[m] == dataset[i]);
            }
        }
        assert forall|i: int| 0 <= i < dataset.len() implies !is_space(#[trigger] dataset[i]) by {
            assert(!has_space(dataset));
        }
    }
}

proof fn lemma_name(name: Seq<char>)
    ensures
        name_ok(name) && !name.contains(',') <==> is_harmless(
            name,
            seq!['@', '#', '%', '/', ','],
        ),
{
    let marks = seq!['@', '#', '%', '/', ','];
    if name.len() > 0 {
        lemma_dash(name);
    }
    if is_harmless(name, marks) {
        lemma_mark(name, marks, 0);
        lemma_mark(name, marks, 1);
        lemma_mark(name, marks, 2);
        lemma_mark(name, marks, 3);
        lemma_mark(name, marks, 4);
    }
    if name_ok(name) && !name.contains(',') {
        assert forall|i: int| 0 <= i < name.len() implies !marks.contains(#[trigger] name[i]) by {
            assert(name.contains(name[i]));
            if marks.contains(name[i]) {
                let m = marks.index_of(name[i]);
                assert(marks[m] == name[i]);
            }
        }
        assert forall|i: int| 0 <= i < name.len() implies !is_space(#[trigger] name[i]) by {
            assert(!has_space(name));
        }
    }
}

/// The guard lets a command pass exactly when it is a plain deletion of snapshots.
pub proof fn law_guard_lets_plain_deletions_pass(arguments: Seq<Seq<char>>)
    ensures
        destroy_fault(arguments) is None <==> exists|dataset: Seq<char>, names: Seq<Seq<char>>|
            deletes(arguments, dataset, names),
{
    reveal_strlit(",");
    assert(","@ =~= seq![',']);
    if destroy_fault(arguments) is None {
        let target = arguments[1];
        lemma_position(target, '@');
        let p = position(target, '@');
        let dataset = target.take(p);
        let list = target.skip(p + 1);
        let names = split(list, ',');
        law_parts_make_up_the_text(list, ',');
        lemma_dataset(dataset);
        assert(target =~= full_name(dataset, list));
        assert forall|i: int| 0 <= i < names.len() implies is_harmless(
            #[trigger] names[i],
            seq!['@', '#', '%', '/', ','],
        ) by {
            lemma_name(names[i]);
        }
        assert(deletes(arguments, dataset, names));
    }
    if exists|dataset: Seq<char>, names: Seq<Seq<char>>| deletes(arguments, dataset, names) {
        let (dataset, names) = choose|dataset: Seq<char>, names: Seq<Seq<char>>|
            deletes(arguments, dataset, names);
        let target = arguments[1];
        let list = join(names, ","@);
        lemma_dataset(dataset);
        lemma_position(target, '@');
        assert(position(target, '@') == dataset.len()) by {
            assert(target[dataset.len() as int] == '@');
            assert forall|i: int| 0 <= i < dataset.len() implies target[i] != '@' by {
                assert(target[i] == dataset[i]);
                assert(dataset.contains(dataset[i]));
            }
        }
        assert(target.take(dataset.len() as int) =~= dataset);
        assert(target.skip(dataset.len() as int + 1) =~= list);
        assert(cut(target, '@') == Some((dataset, list)));
        assert forall|i: int| 0 <= i < names.len() implies !(#[trigger] names[i]).contains(
            ',',
        ) by {
            lemma_name(names[i]);
        }
        assert(none_holds(names, ','));
        law_joined_parts_are_told_apart(names, ',');
        assert forall|i: int| 0 <= i < names.len() implies name_ok(#[trigger] names[i]) by {
            lemma_name(names[i]);
        }
        assert(names_ok(split(list, ',')));
    }
}

} // verus!
