//! Which commands the work of a pool comes to: every snapshot of every action
//! is taken and every expired one is destroyed, each by the right command.
use vstd::prelude::*;

use crate::config::SettingsModel;
use crate::executor::{all_hooked_steps, all_prune_steps, batch_end, batch_steps, batches_with, destroy_step, environment, guard_step, hooked_prune, hooked_prunes, hooked_steps, kind_texts, most_names, program, prune_batches, prune_hooked, prune_steps, round_steps, round_targets, single_steps, snapshot_hook, snapshot_hooked, snapshot_options, snapshot_steps, HookModel, StepModel, WorkModel};
use crate::planner::{PruneActionModel, SnapshotActionModel};
use crate::text::{join, split};

verus! {

// ---------------------------------------------------------------------------
// Snapshot commands
// ---------------------------------------------------------------------------

/// The name of a snapshot in full.
pub open spec fn full_name(dataset: Seq<char>, name: Seq<char>) -> Seq<char> {
    dataset.push('@') + name
}

/// A command that takes snapshots: the word, its options, and the targets at
/// its end. Among the options are the mark of ownership and, for recursive
/// snapshots alone, the flag for them.
pub open spec fn takes_snapshots_of(
    arguments: Seq<Seq<char>>,
    recursive: bool,
    targets: Seq<Seq<char>>,
) -> bool {
    let options = arguments.len() - targets.len();
    &&& options == if recursive {
        4int
    } else {
        3int
    }
    &&& arguments[0] == "snapshot"@
    &&& recursive ==> arguments[1] == "-r"@
    &&& arguments[options - 2] == "-o"@
    &&& arguments[options - 1] == "org.zsnap:managed=yes"@
    &&& arguments.skip(options) == targets
    &&& recursive <==> arguments.contains("-r"@)
}

/// A target that an action asks for.
pub open spec fn is_asked_for(
    target: Seq<char>,
    recursive: bool,
    actions: Seq<SnapshotActionModel>,
) -> bool {
    exists|a: int, k: int|
        0 <= a < actions.len() && 0 <= k < actions[a].names.len() && actions[a].recursive
            == recursive && target == #[trigger] full_name(actions[a].dataset, actions[a].names[k])
}

pub open spec fn are_asked_for(
    targets: Seq<Seq<char>>,
    recursive: bool,
    actions: Seq<SnapshotActionModel>,
) -> bool {
    forall|t: int| 0 <= t < targets.len() ==> is_asked_for(#[trigger] targets[t], recursive, actions)
}

/// A step that takes snapshots takes as many as it counts, all of them of
/// actions that are recursive or all of actions that are not, with the command
/// for it.
pub open spec fn takes_as_asked(step: StepModel, actions: Seq<SnapshotActionModel>) -> bool {
    match step {
        StepModel::Snapshots { arguments, count } => exists|
            recursive: bool,
            targets: Seq<Seq<char>>,
        |
            #[trigger] takes_snapshots_of(arguments, recursive, targets) && count == targets.len()
                && are_asked_for(targets, recursive, actions),
        _ => true,
    }
}

spec fn all_as_asked(steps: Seq<StepModel>, actions: Seq<SnapshotActionModel>) -> bool {
    forall|i: int| 0 <= i < steps.len() ==> takes_as_asked(#[trigger] steps[i], actions)
}

proof fn lemma_as_asked_joins(
    a: Seq<StepModel>,
    b: Seq<StepModel>,
    actions: Seq<SnapshotActionModel>,
)
    requires
        all_as_asked(a, actions),
        all_as_asked(b, actions),
    ensures
        all_as_asked(a + b, actions),
{
    assert forall|i: int| 0 <= i < (a + b).len() implies takes_as_asked(
        #[trigger] (a + b)[i],
        actions,
    ) by {
        if i < a.len() {
            assert((a + b)[i] == a[i]);
        } else {
            assert((a + b)[i] == b[i - a.len()]);
        }
    }
}

/// No target reads like an option.
proof fn lemma_no_flag(dataset: Seq<char>, name: Seq<char>)
    ensures
        full_name(dataset, name) != "-r"@,
{
    reveal_strlit("-r");
    let text = full_name(dataset, name);
    assert(text[dataset.len() as int] == '@');
    assert("-r"@.len() == 2 && "-r"@[0] == '-' && "-r"@[1] == 'r');
    if text == "-r"@ {
        assert(dataset.len() == 0 || dataset.len() == 1);
        assert("-r"@[dataset.len() as int] == '@');
    }
}

proof fn lemma_full_name(dataset: Seq<char>, name: Seq<char>)
    ensures
        crate::executor::target_text(dataset, name) == full_name(dataset, name),
{
    reveal_strlit("@");
    assert(crate::executor::target_text(dataset, name) =~= full_name(dataset, name));
}

proof fn lemma_command(
    recursive: bool,
    targets: Seq<Seq<char>>,
    actions: Seq<SnapshotActionModel>,
)
    requires
        are_asked_for(targets, recursive, actions),
    ensures
        takes_snapshots_of(snapshot_options(recursive) + targets, recursive, targets),
{
    let options = snapshot_options(recursive);
    let arguments = options + targets;
    reveal_strlit("snapshot");
    reveal_strlit("-r");
    reveal_strlit("-o");
    reveal_strlit("org.zsnap:managed");
    reveal_strlit("=yes");
    reveal_strlit("org.zsnap:managed=yes");
    assert("org.zsnap:managed"@ + "=yes"@ =~= "org.zsnap:managed=yes"@);
    assert(arguments.skip(options.len() as int) =~= targets);
    assert("snapshot"@.len() == 8 && "-r"@.len() == 2);
    assert("-o"@[1] == 'o' && "-r"@[1] == 'r');
    assert("org.zsnap:managed=yes"@.len() == 21);
    if recursive {
        assert(arguments[1] == "-r"@);
    } else if arguments.contains("-r"@) {
        let i = arguments.index_of("-r"@);
        if i >= 3 {
            let t = targets[i - 3];
            assert(arguments[i] == t);
            let (a, k) = choose|a: int, k: int|
                0 <= a < actions.len() && 0 <= k < actions[a].names.len() && actions[a].recursive
                    == recursive && t == #[trigger] full_name(
                    actions[a].dataset,
                    actions[a].names[k],
                );
            lemma_no_flag(actions[a].dataset, actions[a].names[k]);
        }
    }
}

proof fn lemma_round_asked(
    actions: Seq<SnapshotActionModel>,
    recursive: bool,
    round: int,
    n: int,
)
    requires
        0 <= n <= actions.len(),
        0 <= round,
    ensures
        are_asked_for(round_targets(actions, recursive, round, n), recursive, actions),
    decreases n,
{
    if n > 0 {
        lemma_round_asked(actions, recursive, round, n - 1);
        let action = actions[n - 1];
        if batches_with(action, recursive) && round < action.names.len() {
            let earlier = round_targets(actions, recursive, round, n - 1);
            let all = round_targets(actions, recursive, round, n);
            lemma_full_name(action.dataset, action.names[round]);
            assert forall|t: int| 0 <= t < all.len() implies is_asked_for(
                #[trigger] all[t],
                recursive,
                actions,
            ) by {
                if t < earlier.len() {
                    assert(all[t] == earlier[t]);
                } else {
                    assert(all[t] == full_name(actions[n - 1].dataset, actions[n - 1].names[round]));
                }
            }
        }
    }
}

proof fn lemma_batches_asked(
    targets: Seq<Seq<char>>,
    recursive: bool,
    size: int,
    from: int,
    actions: Seq<SnapshotActionModel>,
)
    requires
        0 <= from <= targets.len(),
        are_asked_for(targets, recursive, actions),
    ensures
        all_as_asked(batch_steps(targets, recursive, size, from), actions),
    decreases targets.len() - from,
{
    if from < targets.len() && size > 0 {
        let to = batch_end(from, size, targets.len() as int);
        let part = targets.subrange(from, to);
        assert forall|t: int| 0 <= t < part.len() implies is_asked_for(
            #[trigger] part[t],
            recursive,
            actions,
        ) by {
            assert(part[t] == targets[from + t]);
        }
        lemma_command(recursive, part, actions);
        let step = StepModel::Snapshots {
            arguments: snapshot_options(recursive) + part,
            count: (to - from) as nat,
        };
        assert(takes_snapshots_of(step->Snapshots_arguments, recursive, part));
        assert(step->Snapshots_count == part.len());
        assert(takes_as_asked(step, actions));
        lemma_batches_asked(targets, recursive, size, to, actions);
        lemma_as_asked_joins(seq![step], batch_steps(targets, recursive, size, to), actions);
    }
}

proof fn lemma_rounds_asked(
    actions: Seq<SnapshotActionModel>,
    recursive: bool,
    size: int,
    rounds: int,
)
    ensures
        all_as_asked(round_steps(actions, recursive, size, rounds), actions),
    decreases rounds,
{
    if rounds > 0 {
        let n = actions.len() as int;
        let targets = round_targets(actions, recursive, rounds - 1, n);
        lemma_rounds_asked(actions, recursive, size, rounds - 1);
        lemma_round_asked(actions, recursive, rounds - 1, n);
        lemma_batches_asked(targets, recursive, size, 0, actions);
        lemma_as_asked_joins(
            round_steps(actions, recursive, size, rounds - 1),
            batch_steps(targets, recursive, size, 0),
            actions,
        );
    }
}

proof fn lemma_singles_asked(actions: Seq<SnapshotActionModel>, a: int, n: int)
    requires
        0 <= a < actions.len(),
        n <= actions[a].names.len(),
    ensures
        all_as_asked(single_steps(actions[a], n), actions),
    decreases n,
{
    if n > 0 {
        let action = actions[a];
        lemma_singles_asked(actions, a, n - 1);
        lemma_full_name(action.dataset, action.names[n - 1]);
        let target = full_name(action.dataset, action.names[n - 1]);
        let targets = seq![target];
        assert(is_asked_for(target, action.recursive, actions)) by {
            assert(target == full_name(actions[a].dataset, actions[a].names[n - 1]));
        }
        assert(are_asked_for(targets, action.recursive, actions));
        lemma_command(action.recursive, targets, actions);
        assert(snapshot_options(action.recursive).push(target) =~= snapshot_options(
            action.recursive,
        ) + targets);
        let step = StepModel::Snapshots {
            arguments: snapshot_options(action.recursive) + targets,
            count: 1,
        };
        assert(takes_snapshots_of(step->Snapshots_arguments, action.recursive, targets));
        assert(takes_as_asked(step, actions));
        lemma_as_asked_joins(single_steps(action, n - 1), seq![step], actions);
        assert(single_steps(action, n - 1) + seq![step] =~= single_steps(action, n));
    }
}

proof fn lemma_hooked_asked(actions: Seq<SnapshotActionModel>, n: int)
    requires
        n <= actions.len(),
    ensures
        all_as_asked(all_hooked_steps(actions, n), actions),
    decreases n,
{
    if n > 0 {
        let action = actions[n - 1];
        lemma_hooked_asked(actions, n - 1);
        lemma_singles_asked(actions, n - 1, action.names.len() as int);
        assert(all_as_asked(hooked_steps(action), actions));
        lemma_as_asked_joins(all_hooked_steps(actions, n - 1), hooked_steps(action), actions);
    }
}

spec fn none_snapshots(steps: Seq<StepModel>) -> bool {
    forall|i: int| 0 <= i < steps.len() ==> !(#[trigger] steps[i] is Snapshots)
}

proof fn lemma_prune_batches_take_none(action: PruneActionModel, size: int, from: int)
    requires
        0 <= from <= action.names.len(),
    ensures
        none_snapshots(prune_batches(action, size, from)),
    decreases action.names.len() - from,
{
    if from < action.names.len() && size > 0 {
        lemma_prune_batches_take_none(
            action,
            size,
            batch_end(from, size, action.names.len() as int),
        );
    }
}

proof fn lemma_hooked_prunes_take_none(action: PruneActionModel, n: int)
    ensures
        none_snapshots(hooked_prunes(action, n)),
    decreases n,
{
    if n > 0 {
        lemma_hooked_prunes_take_none(action, n - 1);
        assert(none_snapshots(hooked_prune(action, action.names[n - 1])));
    }
}

proof fn lemma_prunes_take_none(actions: Seq<PruneActionModel>, size: int, n: int)
    ensures
        none_snapshots(all_prune_steps(actions, size, n)),
    decreases n,
{
    if n > 0 {
        lemma_prunes_take_none(actions, size, n - 1);
        lemma_prune_batches_take_none(actions[n - 1], size, 0);
        lemma_hooked_prunes_take_none(actions[n - 1], actions[n - 1].names.len() as int);
    }
}

/// Every command that takes snapshots takes them as the actions ask: recursive
/// ones with the flag for it, the others without, and all of them marked.
pub proof fn law_snapshot_commands_are_asked_for(
    work: WorkModel,
    settings: SettingsModel,
    i: int,
)
    requires
        0 <= i < program(work, settings).len(),
    ensures
        takes_as_asked(program(work, settings)[i], work.snapshots),
{
    let actions = work.snapshots;
    let n = actions.len() as int;
    let size = settings.snapshot_batch_size as int;
    let rounds = most_names(actions, n) as int;
    let regular = round_steps(actions, false, size, rounds);
    let recursive = round_steps(actions, true, size, rounds);
    let prunes = all_prune_steps(
        work.prunes,
        settings.prune_batch_size as int,
        work.prunes.len() as int,
    );
    lemma_rounds_asked(actions, false, size, rounds);
    lemma_rounds_asked(actions, true, size, rounds);
    lemma_hooked_asked(actions, n);
    lemma_prunes_take_none(
        work.prunes,
        settings.prune_batch_size as int,
        work.prunes.len() as int,
    );
    assert(all_as_asked(prunes, actions));
    lemma_as_asked_joins(regular, recursive, actions);
    lemma_as_asked_joins(regular + recursive, all_hooked_steps(actions, n), actions);
    lemma_as_asked_joins(snapshot_steps(actions, size), seq![guard_step(work)], actions);
    lemma_as_asked_joins(
        snapshot_steps(actions, size) + seq![guard_step(work)],
        prunes,
        actions,
    );
    assert(all_as_asked(program(work, settings), actions));
}

/// A step whose command takes a target among others.
pub open spec fn takes_target(step: StepModel, recursive: bool, target: Seq<char>) -> bool {
    step matches StepModel::Snapshots { arguments, .. } && exists|targets: Seq<Seq<char>>|
        #[trigger] takes_snapshots_of(arguments, recursive, targets) && targets.contains(target)
}

pub open spec fn some_take(steps: Seq<StepModel>, recursive: bool, target: Seq<char>) -> bool {
    exists|i: int|
        0 <= i < steps.len() && takes_target(#[trigger] steps[i], recursive, target)
}

proof fn lemma_some_take_joins(
    a: Seq<StepModel>,
    b: Seq<StepModel>,
    recursive: bool,
    target: Seq<char>,
)
    requires
        some_take(a, recursive, target) || some_take(b, recursive, target),
    ensures
        some_take(a + b, recursive, target),
{
    if some_take(a, recursive, target) {
        let i = choose|i: int|
            0 <= i < a.len() && takes_target(#[trigger] a[i], recursive, target);
        assert((a + b)[i] == a[i]);
    } else {
        let i = choose|i: int|
            0 <= i < b.len() && takes_target(#[trigger] b[i], recursive, target);
        assert((a + b)[a.len() + i] == b[i]);
    }
}

proof fn lemma_batches_take(
    targets: Seq<Seq<char>>,
    recursive: bool,
    size: int,
    from: int,
    actions: Seq<SnapshotActionModel>,
    t: int,
)
    requires
        0 <= from <= t < targets.len(),
        size > 0,
        are_asked_for(targets, recursive, actions),
    ensures
        some_take(batch_steps(targets, recursive, size, from), recursive, targets[t]),
    decreases targets.len() - from,
{
    let to = batch_end(from, size, targets.len() as int);
    let part = targets.subrange(from, to);
    let step = StepModel::Snapshots {
        arguments: snapshot_options(recursive) + part,
        count: (to - from) as nat,
    };
    if t < to {
        assert forall|u: int| 0 <= u < part.len() implies is_asked_for(
            #[trigger] part[u],
            recursive,
            actions,
        ) by {
            assert(part[u] == targets[from + u]);
        }
        lemma_command(recursive, part, actions);
        assert(part[t - from] == targets[t]);
        assert(takes_snapshots_of(step->Snapshots_arguments, recursive, part));
        assert(takes_target(seq![step][0], recursive, targets[t]));
    } else {
        lemma_batches_take(targets, recursive, size, to, actions, t);
    }
    lemma_some_take_joins(
        seq![step],
        batch_steps(targets, recursive, size, to),
        recursive,
        targets[t],
    );
}

/// A round holds the target of an action that has a name for it.
proof fn lemma_round_holds(actions: Seq<SnapshotActionModel>, a: int, round: int, n: int) -> (t:
    int)
    requires
        0 <= a < n <= actions.len(),
        !snapshot_hooked(actions[a].policy),
        0 <= round < actions[a].names.len(),
    ensures
        0 <= t < round_targets(actions, actions[a].recursive, round, n).len(),
        round_targets(actions, actions[a].recursive, round, n)[t] == full_name(
            actions[a].dataset,
            actions[a].names[round],
        ),
    decreases n,
{
    let recursive = actions[a].recursive;
    if a == n - 1 {
        lemma_full_name(actions[a].dataset, actions[a].names[round]);
        round_targets(actions, recursive, round, n - 1).len() as int
    } else {
        lemma_round_holds(actions, a, round, n - 1)
    }
}

proof fn lemma_rounds_take(
    actions: Seq<SnapshotActionModel>,
    size: int,
    rounds: int,
    a: int,
    k: int,
)
    requires
        0 <= a < actions.len(),
        !snapshot_hooked(actions[a].policy),
        0 <= k < actions[a].names.len(),
        k < rounds,
        size > 0,
    ensures
        some_take(
            round_steps(actions, actions[a].recursive, size, rounds),
            actions[a].recursive,
            full_name(actions[a].dataset, actions[a].names[k]),
        ),
    decreases rounds,
{
    let n = actions.len() as int;
    let recursive = actions[a].recursive;
    let targets = round_targets(actions, recursive, rounds - 1, n);
    if k == rounds - 1 {
        let t = lemma_round_holds(actions, a, k, n);
        lemma_round_asked(actions, recursive, k, n);
        lemma_batches_take(targets, recursive, size, 0, actions, t);
    } else {
        lemma_rounds_take(actions, size, rounds - 1, a, k);
    }
    lemma_some_take_joins(
        round_steps(actions, recursive, size, rounds - 1),
        batch_steps(targets, recursive, size, 0),
        recursive,
        full_name(actions[a].dataset, actions[a].names[k]),
    );
}

proof fn lemma_most_names(actions: Seq<SnapshotActionModel>, a: int, n: int)
    requires
        0 <= a < n <= actions.len(),
    ensures
        actions[a].names.len() <= most_names(actions, n),
    decreases n,
{
    if a < n - 1 {
        lemma_most_names(actions, a, n - 1);
    }
}

proof fn lemma_singles_take(actions: Seq<SnapshotActionModel>, a: int, n: int, k: int)
    requires
        0 <= a < actions.len(),
        0 <= k < n <= actions[a].names.len(),
    ensures
        some_take(
            single_steps(actions[a], n),
            actions[a].recursive,
            full_name(actions[a].dataset, actions[a].names[k]),
        ),
    decreases n,
{
    let action = actions[a];
    let target = full_name(action.dataset, action.names[n - 1]);
    let targets = seq![target];
    let step = StepModel::Snapshots {
        arguments: snapshot_options(action.recursive) + targets,
        count: 1,
    };
    lemma_full_name(action.dataset, action.names[n - 1]);
    assert(snapshot_options(action.recursive).push(target) =~= snapshot_options(action.recursive)
        + targets);
    assert(single_steps(action, n - 1) + seq![step] =~= single_steps(action, n));
    if k == n - 1 {
        assert(is_asked_for(target, action.recursive, actions)) by {
            assert(target == full_name(actions[a].dataset, actions[a].names[n - 1]));
        }
        lemma_command(action.recursive, targets, actions);
        assert(takes_snapshots_of(step->Snapshots_arguments, action.recursive, targets));
        assert(targets[0] == target);
        assert(takes_target(seq![step][0], action.recursive, target));
    } else {
        lemma_singles_take(actions, a, n - 1, k);
    }
    lemma_some_take_joins(
        single_steps(action, n - 1),
        seq![step],
        action.recursive,
        full_name(action.dataset, action.names[k]),
    );
}

proof fn lemma_hooked_take(actions: Seq<SnapshotActionModel>, n: int, a: int, k: int)
    requires
        0 <= a < n <= actions.len(),
        snapshot_hooked(actions[a].policy),
        0 <= k < actions[a].names.len(),
    ensures
        some_take(
            all_hooked_steps(actions, n),
            actions[a].recursive,
            full_name(actions[a].dataset, actions[a].names[k]),
        ),
    decreases n,
{
    let recursive = actions[a].recursive;
    let target = full_name(actions[a].dataset, actions[a].names[k]);
    if a == n - 1 {
        let singles = single_steps(actions[a], actions[a].names.len() as int);
        lemma_singles_take(actions, a, actions[a].names.len() as int, k);
        let i = choose|i: int|
            0 <= i < singles.len() && takes_target(#[trigger] singles[i], recursive, target);
        let before: int = if actions[a].policy.pre_snapshot_script.len() > 0 {
            2
        } else {
            1
        };
        assert(hooked_steps(actions[a])[before + i] == singles[i]);
        assert(some_take(hooked_steps(actions[a]), recursive, target));
        lemma_some_take_joins(
            all_hooked_steps(actions, n - 1),
            hooked_steps(actions[a]),
            recursive,
            target,
        );
    } else {
        lemma_hooked_take(actions, n - 1, a, k);
        lemma_some_take_joins(
            all_hooked_steps(actions, n - 1),
            hooked_steps(actions[n - 1]),
            recursive,
            target,
        );
    }
}

/// Every snapshot that an action asks for is taken by some command, with the
/// flag for recursive snapshots exactly where the action is recursive.
pub proof fn law_every_snapshot_is_taken(
    work: WorkModel,
    settings: SettingsModel,
    a: int,
    k: int,
)
    requires
        settings.snapshot_batch_size > 0,
        0 <= a < work.snapshots.len(),
        0 <= k < work.snapshots[a].names.len(),
    ensures
        some_take(
            program(work, settings),
            work.snapshots[a].recursive,
            full_name(work.snapshots[a].dataset, work.snapshots[a].names[k]),
        ),
{
    let actions = work.snapshots;
    let n = actions.len() as int;
    let size = settings.snapshot_batch_size as int;
    let rounds = most_names(actions, n) as int;
    let recursive = actions[a].recursive;
    let target = full_name(actions[a].dataset, actions[a].names[k]);
    let plain = round_steps(actions, false, size, rounds);
    let deep = round_steps(actions, true, size, rounds);
    let hooked = all_hooked_steps(actions, n);
    if snapshot_hooked(actions[a].policy) {
        lemma_hooked_take(actions, n, a, k);
    } else {
        lemma_most_names(actions, a, n);
        lemma_rounds_take(actions, size, rounds, a, k);
        lemma_some_take_joins(plain, deep, recursive, target);
    }
    lemma_some_take_joins(plain + deep, hooked, recursive, target);
    lemma_some_take_joins(snapshot_steps(actions, size), seq![guard_step(work)], recursive, target);
    lemma_some_take_joins(
        snapshot_steps(actions, size) + seq![guard_step(work)],
        all_prune_steps(
            work.prunes,
            settings.prune_batch_size as int,
            work.prunes.len() as int,
        ),
        recursive,
        target,
    );
}

// ---------------------------------------------------------------------------
// Destroy commands
// ---------------------------------------------------------------------------

/// A step that destroys the names from `from` to `to` of an action with one
/// command and one target: the dataset and the names, with commas between them.
pub open spec fn destroys_part(
    step: StepModel,
    action: PruneActionModel,
    from: int,
    to: int,
) -> bool {
    &&& 0 <= from < to <= action.names.len()
    &&& step matches StepModel::Destroy { arguments, count }
    &&& count == to - from
    &&& arguments.len() == 2
    &&& arguments[0] == "destroy"@
    &&& arguments[1] == full_name(action.dataset, join(action.names.subrange(from, to), ","@))
}

/// A step that destroys snapshots destroys those of an action.
pub open spec fn destroys_as_asked(step: StepModel, actions: Seq<PruneActionModel>) -> bool {
    step is Destroy ==> exists|a: int, from: int, to: int|
        0 <= a < actions.len() && #[trigger] destroys_part(step, actions[a], from, to)
}

/// Some step destroys a name of an action.
pub open spec fn some_destroy(steps: Seq<StepModel>, action: PruneActionModel, k: int) -> bool {
    exists|i: int, from: int, to: int|
        0 <= i < steps.len() && from <= k < to && #[trigger] destroys_part(
            steps[i],
            action,
            from,
            to,
        )
}

spec fn all_destroy_as_asked(steps: Seq<StepModel>, actions: Seq<PruneActionModel>) -> bool {
    forall|i: int| 0 <= i < steps.len() ==> destroys_as_asked(#[trigger] steps[i], actions)
}

proof fn lemma_destroy_joins(
    a: Seq<StepModel>,
    b: Seq<StepModel>,
    actions: Seq<PruneActionModel>,
)
    requires
        all_destroy_as_asked(a, actions),
        all_destroy_as_asked(b, actions),
    ensures
        all_destroy_as_asked(a + b, actions),
{
    assert forall|i: int| 0 <= i < (a + b).len() implies destroys_as_asked(
        #[trigger] (a + b)[i],
        actions,
    ) by {
        if i < a.len() {
            assert((a + b)[i] == a[i]);
        } else {
            assert((a + b)[i] == b[i - a.len()]);
        }
    }
}

proof fn lemma_some_destroy_joins(
    a: Seq<StepModel>,
    b: Seq<StepModel>,
    action: PruneActionModel,
    k: int,
)
    requires
        some_destroy(a, action, k) || some_destroy(b, action, k),
    ensures
        some_destroy(a + b, action, k),
{
    if some_destroy(a, action, k) {
        let (i, from, to) = choose|i: int, from: int, to: int|
            0 <= i < a.len() && from <= k < to && #[trigger] destroys_part(a[i], action, from, to);
        assert((a + b)[i] == a[i]);
        assert(destroys_part((a + b)[i], action, from, to));
    } else {
        let (i, from, to) = choose|i: int, from: int, to: int|
            0 <= i < b.len() && from <= k < to && #[trigger] destroys_part(b[i], action, from, to);
        assert((a + b)[a.len() + i] == b[i]);
        assert(destroys_part((a + b)[a.len() + i], action, from, to));
    }
}

proof fn lemma_prune_batches_ordered(
    actions: Seq<PruneActionModel>,
    a: int,
    size: int,
    from: int,
    k: int,
)
    requires
        0 <= a < actions.len(),
        0 <= from <= actions[a].names.len(),
        size > 0,
    ensures
        all_destroy_as_asked(prune_batches(actions[a], size, from), actions),
        from <= k < actions[a].names.len() ==> some_destroy(
            prune_batches(actions[a], size, from),
            actions[a],
            k,
        ),
    decreases actions[a].names.len() - from,
{
    let action = actions[a];
    if from < action.names.len() {
        let to = batch_end(from, size, action.names.len() as int);
        let step = destroy_step(action.dataset, action.names.subrange(from, to));
        let first = seq![StepModel::Begin, step];
        let rest = prune_batches(action, size, to);
        lemma_full_name(action.dataset, join(action.names.subrange(from, to), ","@));
        assert(destroys_part(first[1], actions[a], from, to));
        lemma_prune_batches_ordered(actions, a, size, to, k);
        lemma_destroy_joins(first, rest, actions);
        if from <= k < action.names.len() {
            lemma_some_destroy_joins(first, rest, action, k);
        }
    }
}

proof fn lemma_hooked_prunes_ordered(actions: Seq<PruneActionModel>, a: int, n: int, k: int)
    requires
        0 <= a < actions.len(),
        n <= actions[a].names.len(),
    ensures
        all_destroy_as_asked(hooked_prunes(actions[a], n), actions),
        0 <= k < n ==> some_destroy(hooked_prunes(actions[a], n), actions[a], k),
    decreases n,
{
    let action = actions[a];
    if n > 0 {
        let name = action.names[n - 1];
        let last = hooked_prune(action, name);
        let earlier = hooked_prunes(action, n - 1);
        let at: int = if action.policy.pre_pruning_script.len() > 0 {
            2
        } else {
            1
        };
        let part = action.names.subrange(n - 1, n);
        assert(part.len() == 1 && part[0] == name);
        assert(join(part, ","@) == name);
        lemma_full_name(action.dataset, name);
        assert(destroys_part(last[at], actions[a], n - 1, n));
        assert(all_destroy_as_asked(last, actions));
        lemma_hooked_prunes_ordered(actions, a, n - 1, k);
        lemma_destroy_joins(earlier, last, actions);
        if 0 <= k < n {
            assert(k == n - 1 ==> some_destroy(last, action, k));
            lemma_some_destroy_joins(earlier, last, action, k);
        }
    }
}

proof fn lemma_prunes_ordered(
    actions: Seq<PruneActionModel>,
    size: int,
    n: int,
    a: int,
    k: int,
)
    requires
        n <= actions.len(),
        size > 0,
    ensures
        all_destroy_as_asked(all_prune_steps(actions, size, n), actions),
        0 <= a < n && 0 <= k < actions[a].names.len() ==> some_destroy(
            all_prune_steps(actions, size, n),
            actions[a],
            k,
        ),
    decreases n,
{
    if n > 0 {
        let earlier = all_prune_steps(actions, size, n - 1);
        let last = prune_steps(actions[n - 1], size);
        let names = actions[n - 1].names.len() as int;
        lemma_prunes_ordered(actions, size, n - 1, a, k);
        lemma_prune_batches_ordered(actions, n - 1, size, 0, k);
        lemma_hooked_prunes_ordered(actions, n - 1, names, k);
        lemma_destroy_joins(earlier, last, actions);
        if 0 <= a < n && 0 <= k < actions[a].names.len() {
            lemma_some_destroy_joins(earlier, last, actions[a], k);
        }
    }
}

spec fn none_destroys(steps: Seq<StepModel>) -> bool {
    forall|i: int| 0 <= i < steps.len() ==> !(#[trigger] steps[i] is Destroy)
}

proof fn lemma_batches_destroy_none(
    targets: Seq<Seq<char>>,
    recursive: bool,
    size: int,
    from: int,
)
    requires
        0 <= from <= targets.len(),
    ensures
        none_destroys(batch_steps(targets, recursive, size, from)),
    decreases targets.len() - from,
{
    if from < targets.len() && size > 0 {
        lemma_batches_destroy_none(
            targets,
            recursive,
            size,
            batch_end(from, size, targets.len() as int),
        );
    }
}

proof fn lemma_rounds_destroy_none(
    actions: Seq<SnapshotActionModel>,
    recursive: bool,
    size: int,
    rounds: int,
)
    ensures
        none_destroys(round_steps(actions, recursive, size, rounds)),
    decreases rounds,
{
    if rounds > 0 {
        lemma_rounds_destroy_none(actions, recursive, size, rounds - 1);
        lemma_batches_destroy_none(
            round_targets(actions, recursive, rounds - 1, actions.len() as int),
            recursive,
            size,
            0,
        );
    }
}

proof fn lemma_singles_destroy_none(action: SnapshotActionModel, n: int)
    ensures
        none_destroys(single_steps(action, n)),
    decreases n,
{
    if n > 0 {
        lemma_singles_destroy_none(action, n - 1);
    }
}

proof fn lemma_hooked_destroy_none(actions: Seq<SnapshotActionModel>, n: int)
    ensures
        none_destroys(all_hooked_steps(actions, n)),
    decreases n,
{
    if n > 0 {
        lemma_hooked_destroy_none(actions, n - 1);
        lemma_singles_destroy_none(actions[n - 1], actions[n - 1].names.len() as int);
    }
}

/// Every command that destroys snapshots destroys some of an action, on its
/// dataset and under their names, and every name of every action is destroyed
/// by one.
pub proof fn law_destroy_commands_are_asked_for(
    work: WorkModel,
    settings: SettingsModel,
    i: int,
    a: int,
    k: int,
)
    requires
        settings.prune_batch_size > 0,
        0 <= i < program(work, settings).len(),
    ensures
        destroys_as_asked(program(work, settings)[i], work.prunes),
        0 <= a < work.prunes.len() && 0 <= k < work.prunes[a].names.len() ==> some_destroy(
            program(work, settings),
            work.prunes[a],
            k,
        ),
{
    let actions = work.snapshots;
    let n = actions.len() as int;
    let size = settings.snapshot_batch_size as int;
    let rounds = most_names(actions, n) as int;
    let prunes = all_prune_steps(
        work.prunes,
        settings.prune_batch_size as int,
        work.prunes.len() as int,
    );
    let before = snapshot_steps(actions, size) + seq![guard_step(work)];
    lemma_rounds_destroy_none(actions, false, size, rounds);
    lemma_rounds_destroy_none(actions, true, size, rounds);
    lemma_hooked_destroy_none(actions, n);
    assert(none_destroys(before));
    lemma_prunes_ordered(
        work.prunes,
        settings.prune_batch_size as int,
        work.prunes.len() as int,
        a,
        k,
    );
    assert(all_destroy_as_asked(before, work.prunes));
    lemma_destroy_joins(before, prunes, work.prunes);
    assert(all_destroy_as_asked(program(work, settings), work.prunes));
    if 0 <= a < work.prunes.len() && 0 <= k < work.prunes[a].names.len() {
        lemma_some_destroy_joins(before, prunes, work.prunes[a], k);
    }
}

// ---------------------------------------------------------------------------
// Hooks
// ---------------------------------------------------------------------------

/// A hook that tells of an action: its dataset, all of its names and classes with
/// commas between them, and which of the hooks it is.
pub open spec fn tells_of_action(
    hook: HookModel,
    action: SnapshotActionModel,
    command: Seq<Seq<char>>,
    script: Seq<char>,
) -> bool {
    &&& hook.command == command
    &&& hook.timeout == action.policy.script_timeout
    &&& hook.script == script
    &&& hook.target == action.dataset
    &&& hook.names == join(action.names, ","@)
    &&& exists|types: Seq<Seq<char>>| #[trigger]
        join(types, ","@) == hook.types && types.len() == action.kinds.len() && forall|i: int|
            0 <= i < types.len() ==> #[trigger] types[i] == action.kinds[i].text()
}

/// Whether the steps of an action with hooks stand together from one place on:
/// a new beginning, the hook before where there is one, one command for each name,
/// and the hook behind where there is one.
pub open spec fn stands_at(steps: Seq<StepModel>, at: int, action: SnapshotActionModel) -> bool {
    let policy = action.policy;
    let first = if policy.pre_snapshot_script.len() > 0 {
        at + 2
    } else {
        at + 1
    };
    let last = first + action.names.len();
    &&& 0 <= at
    &&& last <= steps.len()
    &&& steps[at] is Begin
    &&& policy.pre_snapshot_script.len() > 0 ==> {
        &&& steps[at + 1] matches StepModel::PreSnapshot { hook, stop }
        &&& stop == policy.no_inconsistent_snapshot
        &&& tells_of_action(hook, action, policy.pre_snapshot_script, "pre"@)
    }
    &&& forall|k: int|
        #![trigger action.names[k]]
        0 <= k < action.names.len() ==> takes_target(
            steps[first + k],
            action.recursive,
            full_name(action.dataset, action.names[k]),
        )
    &&& policy.post_snapshot_script.len() > 0 ==> {
        &&& last < steps.len()
        &&& steps[last] matches StepModel::PostSnapshot { hook, force }
        &&& force == policy.force_post_snapshot_script
        &&& tells_of_action(hook, action, policy.post_snapshot_script, "post"@)
    }
}

spec fn stands_somewhere(steps: Seq<StepModel>, action: SnapshotActionModel) -> bool {
    exists|at: int| stands_at(steps, at, action)
}

proof fn lemma_stands_joins(
    a: Seq<StepModel>,
    b: Seq<StepModel>,
    action: SnapshotActionModel,
    at: int,
)
    ensures
        stands_at(a, at, action) ==> stands_at(a + b, at, action),
        stands_at(b, at, action) ==> stands_at(a + b, a.len() + at, action),
{
    let first = if action.policy.pre_snapshot_script.len() > 0 {
        at + 2
    } else {
        at + 1
    };
    if stands_at(a, at, action) {
        assert(a[at] == (a + b)[at]);
        assert forall|k: int| #![trigger action.names[k]] 0 <= k
            < action.names.len() implies takes_target(
            (a + b)[first + k],
            action.recursive,
            full_name(action.dataset, action.names[k]),
        ) by {
            assert(a[first + k] == (a + b)[first + k]);
        }
    }
    if stands_at(b, at, action) {
        assert(b[at] == (a + b)[a.len() + at]);
        assert forall|k: int| #![trigger action.names[k]] 0 <= k
            < action.names.len() implies takes_target(
            (a + b)[a.len() + first + k],
            action.recursive,
            full_name(action.dataset, action.names[k]),
        ) by {
            assert(b[first + k] == (a + b)[a.len() + first + k]);
        }
    }
}

proof fn lemma_single_at(actions: Seq<SnapshotActionModel>, a: int, n: int, k: int)
    requires
        0 <= a < actions.len(),
        0 <= k < n <= actions[a].names.len(),
    ensures
        single_steps(actions[a], n).len() == n,
        takes_target(
            single_steps(actions[a], n)[k],
            actions[a].recursive,
            full_name(actions[a].dataset, actions[a].names[k]),
        ),
    decreases n,
{
    let action = actions[a];
    let target = full_name(action.dataset, action.names[n - 1]);
    let targets = seq![target];
    lemma_singles_len(action, n - 1);
    if k == n - 1 {
        lemma_full_name(action.dataset, action.names[n - 1]);
        assert(snapshot_options(action.recursive).push(target) =~= snapshot_options(
            action.recursive,
        ) + targets);
        assert(is_asked_for(target, action.recursive, actions)) by {
            assert(target == full_name(actions[a].dataset, actions[a].names[n - 1]));
        }
        lemma_command(action.recursive, targets, actions);
        assert(targets[0] == target);
        let step = single_steps(action, n)[n - 1];
        assert(takes_snapshots_of(step->Snapshots_arguments, action.recursive, targets));
    } else {
        lemma_single_at(actions, a, n - 1, k);
    }
}

proof fn lemma_singles_len(action: SnapshotActionModel, n: int)
    requires
        0 <= n,
    ensures
        single_steps(action, n).len() == n,
    decreases n,
{
    if n > 0 {
        lemma_singles_len(action, n - 1);
    }
}

proof fn lemma_hook_tells(
    action: SnapshotActionModel,
    command: Seq<Seq<char>>,
    script: Seq<char>,
)
    ensures
        tells_of_action(snapshot_hook(action, command, script), action, command, script),
{
    let types = kind_texts(action.kinds);
    let hook = snapshot_hook(action, command, script);
    assert(join(types, ","@) == hook.types);
}

proof fn lemma_hooked_stands(actions: Seq<SnapshotActionModel>, a: int)
    requires
        0 <= a < actions.len(),
    ensures
        stands_at(hooked_steps(actions[a]), 0, actions[a]),
{
    let action = actions[a];
    let policy = action.policy;
    let n = action.names.len() as int;
    let steps = hooked_steps(action);
    let singles = single_steps(action, n);
    let first: int = if policy.pre_snapshot_script.len() > 0 {
        2
    } else {
        1
    };
    lemma_singles_len(action, n);
    lemma_hook_tells(action, policy.pre_snapshot_script, "pre"@);
    lemma_hook_tells(action, policy.post_snapshot_script, "post"@);
    assert forall|k: int| #![trigger action.names[k]] 0 <= k < n implies takes_target(
        steps[first + k],
        action.recursive,
        full_name(action.dataset, action.names[k]),
    ) by {
        lemma_single_at(actions, a, n, k);
        assert(steps[first + k] == singles[k]);
    }
}

proof fn lemma_all_hooked_stand(actions: Seq<SnapshotActionModel>, n: int, a: int)
    requires
        0 <= a < n <= actions.len(),
        snapshot_hooked(actions[a].policy),
    ensures
        stands_somewhere(all_hooked_steps(actions, n), actions[a]),
    decreases n,
{
    let earlier = all_hooked_steps(actions, n - 1);
    let last = hooked_steps(actions[n - 1]);
    if a == n - 1 {
        lemma_hooked_stands(actions, a);
        lemma_stands_joins(earlier, last, actions[a], 0);
        assert(stands_at(earlier + last, earlier.len() as int, actions[a]));
    } else {
        lemma_all_hooked_stand(actions, n - 1, a);
        let at = choose|at: int| stands_at(earlier, at, actions[a]);
        lemma_stands_joins(earlier, last, actions[a], at);
        if snapshot_hooked(actions[n - 1].policy) {
            assert(stands_at(earlier + last, at, actions[a]));
        }
    }
}

/// The steps of every action with hooks stand together: its commands between its
/// hooks, each hook with the words of the action, and each with what the policy
/// says of a failure.
pub proof fn law_hooks_stand_around_their_snapshots(
    work: WorkModel,
    settings: SettingsModel,
    a: int,
) -> (at: int)
    requires
        0 <= a < work.snapshots.len(),
        work.snapshots[a].policy.pre_snapshot_script.len() > 0
            || work.snapshots[a].policy.post_snapshot_script.len() > 0,
    ensures
        stands_at(program(work, settings), at, work.snapshots[a]),
{
    let actions = work.snapshots;
    let n = actions.len() as int;
    let size = settings.snapshot_batch_size as int;
    let rounds = most_names(actions, n) as int;
    let before = round_steps(actions, false, size, rounds) + round_steps(
        actions,
        true,
        size,
        rounds,
    );
    let hooked = all_hooked_steps(actions, n);
    lemma_all_hooked_stand(actions, n, a);
    let at = choose|at: int| stands_at(hooked, at, actions[a]);
    lemma_stands_joins(before, hooked, actions[a], at);
    let place = before.len() + at;
    lemma_stands_joins(before + hooked, seq![guard_step(work)], actions[a], place);
    lemma_stands_joins(
        before + hooked + seq![guard_step(work)],
        all_prune_steps(
            work.prunes,
            settings.prune_batch_size as int,
            work.prunes.len() as int,
        ),
        actions[a],
        place,
    );
    place
}

/// A hook around the destruction of one snapshot.
pub open spec fn tells_of_prune(
    hook: HookModel,
    action: PruneActionModel,
    command: Seq<Seq<char>>,
    name: Seq<char>,
) -> bool {
    &&& hook.command == command
    &&& hook.timeout == action.policy.script_timeout
    &&& hook.script == "prune"@
    &&& hook.target == action.dataset
    &&& hook.names == name
    &&& hook.types.len() == 0
}

/// Whether the steps that destroy a name with hooks stand together from one place
/// on: a new beginning, the hook before where there is one, the command for this
/// name alone, and the hook behind where there is one.
pub open spec fn falls_at(
    steps: Seq<StepModel>,
    at: int,
    action: PruneActionModel,
    k: int,
) -> bool {
    let policy = action.policy;
    let middle = if policy.pre_pruning_script.len() > 0 {
        at + 2
    } else {
        at + 1
    };
    &&& 0 <= at
    &&& middle < steps.len()
    &&& steps[at] is Begin
    &&& policy.pre_pruning_script.len() > 0 ==> {
        &&& steps[at + 1] matches StepModel::PrePrune { hook }
        &&& tells_of_prune(hook, action, policy.pre_pruning_script, action.names[k])
    }
    &&& destroys_part(steps[middle], action, k, k + 1)
    &&& policy.pruning_script.len() > 0 ==> {
        &&& middle + 1 < steps.len()
        &&& steps[middle + 1] matches StepModel::PostPrune { hook }
        &&& tells_of_prune(hook, action, policy.pruning_script, action.names[k])
    }
}

spec fn falls_somewhere(steps: Seq<StepModel>, action: PruneActionModel, k: int) -> bool {
    exists|at: int| falls_at(steps, at, action, k)
}

proof fn lemma_falls_joins(
    a: Seq<StepModel>,
    b: Seq<StepModel>,
    action: PruneActionModel,
    k: int,
    at: int,
)
    ensures
        falls_at(a, at, action, k) ==> falls_at(a + b, at, action, k),
        falls_at(b, at, action, k) ==> falls_at(a + b, a.len() + at, action, k),
{
    if falls_at(a, at, action, k) {
        assert(a[at] == (a + b)[at]);
    }
    if falls_at(b, at, action, k) {
        assert(b[at] == (a + b)[a.len() + at]);
    }
}

proof fn lemma_hooked_prunes_fall(action: PruneActionModel, n: int, k: int)
    requires
        0 <= k < n <= action.names.len(),
    ensures
        falls_somewhere(hooked_prunes(action, n), action, k),
    decreases n,
{
    let earlier = hooked_prunes(action, n - 1);
    let last = hooked_prune(action, action.names[n - 1]);
    if k == n - 1 {
        let name = action.names[k];
        let part = action.names.subrange(k, k + 1);
        let middle: int = if action.policy.pre_pruning_script.len() > 0 {
            2
        } else {
            1
        };
        assert(part.len() == 1 && part[0] == name);
        assert(join(part, ","@) == name);
        lemma_full_name(action.dataset, name);
        reveal_strlit("");
        assert(destroys_part(last[middle], action, k, k + 1));
        assert(falls_at(last, 0, action, k));
        lemma_falls_joins(earlier, last, action, k, 0);
        assert(falls_at(earlier + last, earlier.len() as int, action, k));
    } else {
        lemma_hooked_prunes_fall(action, n - 1, k);
        let at = choose|at: int| falls_at(earlier, at, action, k);
        lemma_falls_joins(earlier, last, action, k, at);
        assert(falls_at(earlier + last, at, action, k));
    }
}

proof fn lemma_all_prunes_fall(
    actions: Seq<PruneActionModel>,
    size: int,
    n: int,
    a: int,
    k: int,
)
    requires
        0 <= a < n <= actions.len(),
        prune_hooked(actions[a].policy),
        0 <= k < actions[a].names.len(),
    ensures
        falls_somewhere(all_prune_steps(actions, size, n), actions[a], k),
    decreases n,
{
    let earlier = all_prune_steps(actions, size, n - 1);
    let last = prune_steps(actions[n - 1], size);
    if a == n - 1 {
        lemma_hooked_prunes_fall(actions[a], actions[a].names.len() as int, k);
        let at = choose|at: int| falls_at(last, at, actions[a], k);
        lemma_falls_joins(earlier, last, actions[a], k, at);
        assert(falls_at(earlier + last, earlier.len() + at, actions[a], k));
    } else {
        lemma_all_prunes_fall(actions, size, n - 1, a, k);
        let at = choose|at: int| falls_at(earlier, at, actions[a], k);
        lemma_falls_joins(earlier, last, actions[a], k, at);
        assert(falls_at(earlier + last, at, actions[a], k));
    }
}

/// Where a policy has hooks around pruning, every snapshot is destroyed by a
/// command of its own that stands between them, and the hooks name that snapshot.
pub proof fn law_hooks_stand_around_every_prune(
    work: WorkModel,
    settings: SettingsModel,
    a: int,
    k: int,
) -> (at: int)
    requires
        0 <= a < work.prunes.len(),
        work.prunes[a].policy.pre_pruning_script.len() > 0
            || work.prunes[a].policy.pruning_script.len() > 0,
        0 <= k < work.prunes[a].names.len(),
    ensures
        falls_at(program(work, settings), at, work.prunes[a], k),
{
    let n = work.prunes.len() as int;
    let size = settings.prune_batch_size as int;
    let prunes = all_prune_steps(work.prunes, size, n);
    let before = snapshot_steps(work.snapshots, settings.snapshot_batch_size as int) + seq![
        guard_step(work),
    ];
    lemma_all_prunes_fall(work.prunes, size, n, a, k);
    let at = choose|at: int| falls_at(prunes, at, work.prunes[a], k);
    lemma_falls_joins(before, prunes, work.prunes[a], k, at);
    before.len() + at
}

/// The value of a variable in an environment.
pub open spec fn says(
    variables: Seq<(Seq<char>, Seq<char>)>,
    name: Seq<char>,
    value: Seq<char>,
) -> bool {
    variables.contains((name, value))
}

/// A hook is told under both families of names which hook it is, on what dataset,
/// under what names and classes, and whether the hook before it failed.
pub proof fn law_hooks_are_told_twice(hook: HookModel, failed: bool, first: Seq<char>)
    requires
        split(hook.names, ',')[0] == first,
    ensures
        ({
            let told = environment(hook, failed);
            let flag = if failed {
                "1"@
            } else {
                "0"@
            };
            &&& says(told, "ZSNAP_SCRIPT"@, hook.script)
            &&& says(told, "ZSNAP_TARGET"@, hook.target)
            &&& says(told, "ZSNAP_TARGETS"@, hook.target)
            &&& says(told, "ZSNAP_SNAPNAME"@, first)
            &&& says(told, "ZSNAP_SNAPNAMES"@, hook.names)
            &&& says(told, "ZSNAP_TYPES"@, hook.types)
            &&& says(told, "ZSNAP_PRE_FAILURE"@, flag)
            &&& says(told, "SANOID_SCRIPT"@, hook.script)
            &&& says(told, "SANOID_TARGET"@, hook.target)
            &&& says(told, "SANOID_TARGETS"@, hook.target)
            &&& says(told, "SANOID_SNAPNAME"@, first)
            &&& says(told, "SANOID_SNAPNAMES"@, hook.names)
            &&& says(told, "SANOID_TYPES"@, hook.types)
            &&& says(told, "SANOID_PRE_FAILURE"@, flag)
            &&& told.len() == 14
        }),
{
    let told = environment(hook, failed);
    reveal_strlit("ZSNAP_");
    reveal_strlit("SANOID_");
    reveal_strlit("SCRIPT");
    reveal_strlit("TARGET");
    reveal_strlit("TARGETS");
    reveal_strlit("SNAPNAME");
    reveal_strlit("SNAPNAMES");
    reveal_strlit("TYPES");
    reveal_strlit("PRE_FAILURE");
    reveal_strlit("ZSNAP_SCRIPT");
    reveal_strlit("ZSNAP_TARGET");
    reveal_strlit("ZSNAP_TARGETS");
    reveal_strlit("ZSNAP_SNAPNAME");
    reveal_strlit("ZSNAP_SNAPNAMES");
    reveal_strlit("ZSNAP_TYPES");
    reveal_strlit("ZSNAP_PRE_FAILURE");
    reveal_strlit("SANOID_SCRIPT");
    reveal_strlit("SANOID_TARGET");
    reveal_strlit("SANOID_TARGETS");
    reveal_strlit("SANOID_SNAPNAME");
    reveal_strlit("SANOID_SNAPNAMES");
    reveal_strlit("SANOID_TYPES");
    reveal_strlit("SANOID_PRE_FAILURE");
    assert("ZSNAP_"@ + "SCRIPT"@ =~= "ZSNAP_SCRIPT"@);
    assert("ZSNAP_"@ + "TARGET"@ =~= "ZSNAP_TARGET"@);
    assert("ZSNAP_"@ + "TARGETS"@ =~= "ZSNAP_TARGETS"@);
    assert("ZSNAP_"@ + "SNAPNAME"@ =~= "ZSNAP_SNAPNAME"@);
    assert("ZSNAP_"@ + "SNAPNAMES"@ =~= "ZSNAP_SNAPNAMES"@);
    assert("ZSNAP_"@ + "TYPES"@ =~= "ZSNAP_TYPES"@);
    assert("ZSNAP_"@ + "PRE_FAILURE"@ =~= "ZSNAP_PRE_FAILURE"@);
    assert("SANOID_"@ + "SCRIPT"@ =~= "SANOID_SCRIPT"@);
    assert("SANOID_"@ + "TARGET"@ =~= "SANOID_TARGET"@);
    assert("SANOID_"@ + "TARGETS"@ =~= "SANOID_TARGETS"@);
    assert("SANOID_"@ + "SNAPNAME"@ =~= "SANOID_SNAPNAME"@);
    assert("SANOID_"@ + "SNAPNAMES"@ =~= "SANOID_SNAPNAMES"@);
    assert("SANOID_"@ + "TYPES"@ =~= "SANOID_TYPES"@);
    assert("SANOID_"@ + "PRE_FAILURE"@ =~= "SANOID_PRE_FAILURE"@);
    assert(told[0] == ("ZSNAP_SCRIPT"@, hook.script));
    assert(told[1] == ("ZSNAP_TARGET"@, hook.target));
    assert(told[2] == ("ZSNAP_TARGETS"@, hook.target));
    assert(told[3] == ("ZSNAP_SNAPNAME"@, first));
    assert(told[4] == ("ZSNAP_SNAPNAMES"@, hook.names));
    assert(told[5] == ("ZSNAP_TYPES"@, hook.types));
    assert(told[6].0 == "ZSNAP_PRE_FAILURE"@);
    assert(told[7] == ("SANOID_SCRIPT"@, hook.script));
    assert(told[8] == ("SANOID_TARGET"@, hook.target));
    assert(told[9] == ("SANOID_TARGETS"@, hook.target));
    assert(told[10] == ("SANOID_SNAPNAME"@, first));
    assert(told[11] == ("SANOID_SNAPNAMES"@, hook.names));
    assert(told[12] == ("SANOID_TYPES"@, hook.types));
    assert(told[13].0 == "SANOID_PRE_FAILURE"@);
}

} // verus!
