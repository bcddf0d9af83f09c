//! What every run of a pool keeps: a dry run changes nothing, a destroy command
//! passes the guard, and a failed snapshot stops the pruning of its pool.
use vstd::prelude::*;

use crate::config::SettingsModel;
use crate::executor::{OutcomeModel, RequestModel, RunModel, StepModel, WorkModel, all_hooked_steps, all_prune_steps, batch_end, batch_steps, batches_with, can_batch, destroy_fault, destroy_step, guard_step, hooked_prune, hooked_prunes, hooked_steps, is_prune_step, is_snapshot_step, law_steps_cover_the_work, most_names, program, prune_batches, prune_steps, prunes_left, round_steps, round_targets, single_steps, snapshot_options, snapshot_steps, snapshots_left, started, target_text};
use crate::planner::{prunes_in, snapshots_in, PruneActionModel, SnapshotActionModel};

verus! {

/// The state of a run once its requests ended with these outcomes and the next
/// request is out, or at the end.
pub open spec fn after(start: RunModel, outcomes: Seq<OutcomeModel>) -> RunModel
    decreases outcomes.len(),
{
    if outcomes.len() == 0 {
        start.issued()
    } else {
        let earlier = after(start, outcomes.drop_last());
        if earlier.waiting {
            earlier.completed(outcomes.last()).issued()
        } else {
            earlier
        }
    }
}

/// A dry run asks for nothing: it comes to the end of the work without a
/// request.
pub proof fn law_dry_run_asks_for_nothing(run: RunModel)
    requires
        run.sound(),
        run.dry_run,
        !run.waiting,
    ensures
        run.issued().done(),
        run.issued().request() is None,
    decreases run.steps.len() - run.at,
{
    if !run.done() {
        let next = run.local()->0;
        law_dry_run_asks_for_nothing(next);
    }
}

/// Every request that destroys anything has passed the guard: it is a plain
/// `destroy dataset@name[,name...]`.
pub proof fn law_destroy_requests_pass_the_guard(run: RunModel, arguments: Seq<Seq<char>>)
    requires
        !run.waiting,
        run.issued().request() == Some(RequestModel::Zfs(arguments)),
        arguments.len() > 0,
        arguments[0] == "destroy"@,
    ensures
        destroy_fault(arguments) is None,
    decreases run.steps.len() - run.at,
{
    if !run.done() {
        match run.local() {
            Some(next) => {
                law_destroy_requests_pass_the_guard(next, arguments);
            },
            None => {},
        }
    }
}

/// Snapshot steps come before the guard, and prune steps after it.
spec fn divided(steps: Seq<StepModel>, guard: int, prunes: nat) -> bool {
    &&& 0 <= guard < steps.len()
    &&& steps[guard] == StepModel::Guard { prunes, any: steps[guard]->any }
    &&& forall|i: int|
        0 <= i < guard ==> is_snapshot_step(#[trigger] steps[i]) || steps[i] is Begin
    &&& forall|i: int|
        guard < i < steps.len() ==> is_prune_step(#[trigger] steps[i]) || steps[i] is Begin
    &&& !steps[guard]->any ==> steps.len() == guard + 1
}

/// Nothing is pruned before the guard, and nothing after it once a snapshot
/// failed.
spec fn guarded(run: RunModel, guard: int, prunes: nat) -> bool {
    &&& divided(run.steps, guard, prunes)
    &&& 0 <= run.at <= run.steps.len()
    &&& run.at <= guard ==> run.pruned == 0 && run.skipped == 0
    &&& run.at > guard && run.failed ==> run.done() && run.pruned == 0 && run.skipped == (
    if run.steps[guard]->any {
        prunes
    } else {
        0
    })
    &&& !run.failed ==> run.skipped == 0
}

proof fn lemma_guarded_advances(run: RunModel, guard: int, prunes: nat)
    requires
        guarded(run, guard, prunes),
    ensures
        guarded(run.advanced(), guard, prunes),
    decreases run.steps.len() - run.at,
{
    if !run.done() {
        match run.local() {
            Some(next) => {
                assert(guarded(next, guard, prunes));
                lemma_guarded_advances(next, guard, prunes);
            },
            None => {},
        }
    }
}

proof fn lemma_guarded_completes(run: RunModel, outcome: OutcomeModel, guard: int, prunes: nat)
    requires
        guarded(run, guard, prunes),
        !run.done(),
    ensures
        guarded(run.completed(outcome), guard, prunes),
{
}

/// A run keeps its steps and its pool.
proof fn lemma_steps_stay(run: RunModel)
    ensures
        run.advanced().steps == run.steps,
        run.advanced().waiting == run.waiting,
        run.issued().steps == run.steps,
    decreases run.steps.len() - run.at,
{
    if !run.done() {
        match run.local() {
            Some(next) => {
                lemma_steps_stay(next);
            },
            None => {},
        }
    }
}

proof fn lemma_guarded_after(start: RunModel, outcomes: Seq<OutcomeModel>, guard: int, prunes: nat)
    requires
        guarded(start, guard, prunes),
        !start.waiting,
    ensures
        guarded(after(start, outcomes), guard, prunes),
        after(start, outcomes).waiting ==> !after(start, outcomes).done(),
    decreases outcomes.len(),
{
    let before_issue = if outcomes.len() == 0 {
        start
    } else {
        let earlier = after(start, outcomes.drop_last());
        lemma_guarded_after(start, outcomes.drop_last(), guard, prunes);
        if earlier.waiting {
            lemma_guarded_completes(earlier, outcomes.last(), guard, prunes);
        }
        earlier.completed(outcomes.last())
    };
    if outcomes.len() == 0 || after(start, outcomes.drop_last()).waiting {
        lemma_guarded_advances(before_issue, guard, prunes);
        lemma_steps_stay(before_issue);
    }
}

proof fn lemma_batches_snapshot(targets: Seq<Seq<char>>, recursive: bool, size: int, from: int)
    requires
        0 <= from,
    ensures
        forall|i: int|
            0 <= i < batch_steps(targets, recursive, size, from).len() ==> is_snapshot_step(
                #[trigger] batch_steps(targets, recursive, size, from)[i],
            ),
    decreases targets.len() - from,
{
    if from < targets.len() && size > 0 {
        let to = batch_end(from, size, targets.len() as int);
        lemma_batches_snapshot(targets, recursive, size, to);
        let all = batch_steps(targets, recursive, size, from);
        let rest = batch_steps(targets, recursive, size, to);
        assert forall|i: int| 0 <= i < all.len() implies is_snapshot_step(#[trigger] all[i]) by {
            if i > 0 {
                assert(all[i] == rest[i - 1]);
            }
        }
    }
}

proof fn lemma_rounds_snapshot(
    actions: Seq<SnapshotActionModel>,
    recursive: bool,
    size: int,
    rounds: int,
)
    ensures
        forall|i: int|
            0 <= i < round_steps(actions, recursive, size, rounds).len() ==> is_snapshot_step(
                #[trigger] round_steps(actions, recursive, size, rounds)[i],
            ),
    decreases rounds,
{
    if rounds > 0 {
        let targets = round_targets(actions, recursive, rounds - 1, actions.len() as int);
        lemma_rounds_snapshot(actions, recursive, size, rounds - 1);
        lemma_batches_snapshot(targets, recursive, size, 0);
        let all = round_steps(actions, recursive, size, rounds);
        let earlier = round_steps(actions, recursive, size, rounds - 1);
        let last = batch_steps(targets, recursive, size, 0);
        assert forall|i: int| 0 <= i < all.len() implies is_snapshot_step(#[trigger] all[i]) by {
            if i < earlier.len() {
                assert(all[i] == earlier[i]);
            } else {
                assert(all[i] == last[i - earlier.len()]);
            }
        }
    }
}

proof fn lemma_singles_snapshot(action: SnapshotActionModel, n: int)
    ensures
        forall|i: int|
            0 <= i < single_steps(action, n).len() ==> (#[trigger] single_steps(
                action,
                n,
            )[i]) is Snapshots,
    decreases n,
{
    if n > 0 {
        lemma_singles_snapshot(action, n - 1);
    }
}

proof fn lemma_hooked_snapshot(actions: Seq<SnapshotActionModel>, n: int)
    ensures
        forall|i: int|
            0 <= i < all_hooked_steps(actions, n).len() ==> is_snapshot_step(
                #[trigger] all_hooked_steps(actions, n)[i],
            ) || all_hooked_steps(actions, n)[i] is Begin,
    decreases n,
{
    if n > 0 {
        lemma_hooked_snapshot(actions, n - 1);
        lemma_singles_snapshot(actions[n - 1], actions[n - 1].names.len() as int);
    }
}

proof fn lemma_prune_batches_prune(action: PruneActionModel, size: int, from: int)
    requires
        0 <= from,
    ensures
        forall|i: int|
            0 <= i < prune_batches(action, size, from).len() ==> is_prune_step(
                #[trigger] prune_batches(action, size, from)[i],
            ) || prune_batches(action, size, from)[i] is Begin,
    decreases action.names.len() - from,
{
    if from < action.names.len() && size > 0 {
        lemma_prune_batches_prune(
            action,
            size,
            batch_end(from, size, action.names.len() as int),
        );
    }
}

proof fn lemma_hooked_prunes_prune(action: PruneActionModel, n: int)
    ensures
        forall|i: int|
            0 <= i < hooked_prunes(action, n).len() ==> is_prune_step(
                #[trigger] hooked_prunes(action, n)[i],
            ) || hooked_prunes(action, n)[i] is Begin,
    decreases n,
{
    if n > 0 {
        lemma_hooked_prunes_prune(action, n - 1);
    }
}

proof fn lemma_prunes_prune(actions: Seq<PruneActionModel>, size: int, n: int)
    ensures
        forall|i: int|
            0 <= i < all_prune_steps(actions, size, n).len() ==> is_prune_step(
                #[trigger] all_prune_steps(actions, size, n)[i],
            ) || all_prune_steps(actions, size, n)[i] is Begin,
    decreases n,
{
    if n > 0 {
        lemma_prunes_prune(actions, size, n - 1);
        lemma_prune_batches_prune(actions[n - 1], size, 0);
        lemma_hooked_prunes_prune(actions[n - 1], actions[n - 1].names.len() as int);
    }
}

proof fn lemma_program_divided(work: WorkModel, settings: SettingsModel)
    ensures
        divided(
            program(work, settings),
            snapshot_steps(work.snapshots, settings.snapshot_batch_size as int).len() as int,
            prunes_in(work.prunes, work.prunes.len() as int),
        ),
{
    let actions = work.snapshots;
    let n = actions.len() as int;
    let size = settings.snapshot_batch_size as int;
    let rounds = most_names(actions, n) as int;
    lemma_rounds_snapshot(actions, false, size, rounds);
    lemma_rounds_snapshot(actions, true, size, rounds);
    lemma_hooked_snapshot(actions, n);
    lemma_prunes_prune(
        work.prunes,
        settings.prune_batch_size as int,
        work.prunes.len() as int,
    );
    let steps = program(work, settings);
    let guard = snapshot_steps(actions, size).len() as int;
    assert(steps[guard] == guard_step(work));
}

/// A failed snapshot, or a failed hook around one, stops the pruning of its
/// pool: whatever the outcomes of the requests are, a destroy request goes out
/// only while nothing has failed, and a run that ends after a failure has
/// destroyed nothing and counts every prune as skipped.
pub proof fn law_snapshot_failure_stops_pruning(
    work: WorkModel,
    settings: SettingsModel,
    dry_run: bool,
    verbose: bool,
    outcomes: Seq<OutcomeModel>,
)
    ensures
        ({
            let run = after(started(work, settings, dry_run, verbose), outcomes);
            &&& run.waiting && run.step() is Destroy ==> !run.failed
            &&& run.done() && run.failed ==> run.pruned == 0 && run.skipped == prunes_in(
                work.prunes,
                work.prunes.len() as int,
            )
        }),
{
    let start = started(work, settings, dry_run, verbose);
    let guard = snapshot_steps(work.snapshots, settings.snapshot_batch_size as int).len() as int;
    let prunes = prunes_in(work.prunes, work.prunes.len() as int);
    lemma_program_divided(work, settings);
    assert(guarded(start, guard, prunes));
    lemma_guarded_after(start, outcomes, guard, prunes);
    lemma_after_steps(start, outcomes);
    if work.prunes.len() == 0 {
        assert(prunes == 0);
    }
    assert(start.steps[guard] == guard_step(work));
}

proof fn lemma_after_steps(start: RunModel, outcomes: Seq<OutcomeModel>)
    ensures
        after(start, outcomes).steps == start.steps,
    decreases outcomes.len(),
{
    if outcomes.len() == 0 {
        lemma_steps_stay(start);
    } else {
        lemma_after_steps(start, outcomes.drop_last());
        let earlier = after(start, outcomes.drop_last());
        lemma_steps_stay(earlier.completed(outcomes.last()));
    }
}

/// Without an error nothing is skipped and nothing is missed so far.
spec fn complete_so_far(run: RunModel, snapshots: nat, prunes: nat) -> bool {
    run.errors.len() == 0 ==> {
        &&& !run.failed
        &&& !run.skip
        &&& run.created + snapshots_left(run.steps, run.at) == snapshots
        &&& run.pruned + prunes_left(run.steps, run.at) == prunes
    }
}

proof fn lemma_complete_advances(run: RunModel, snapshots: nat, prunes: nat)
    requires
        complete_so_far(run, snapshots, prunes),
        0 <= run.at <= run.steps.len(),
    ensures
        complete_so_far(run.advanced(), snapshots, prunes),
        0 <= run.advanced().at <= run.steps.len(),
    decreases run.steps.len() - run.at,
{
    if !run.done() {
        match run.local() {
            Some(next) => {
                lemma_complete_advances(next, snapshots, prunes);
            },
            None => {},
        }
    }
}

proof fn lemma_complete_after(
    start: RunModel,
    outcomes: Seq<OutcomeModel>,
    snapshots: nat,
    prunes: nat,
)
    requires
        complete_so_far(start, snapshots, prunes),
        0 <= start.at <= start.steps.len(),
        !start.waiting,
    ensures
        complete_so_far(after(start, outcomes), snapshots, prunes),
        0 <= after(start, outcomes).at <= start.steps.len(),
        after(start, outcomes).waiting ==> !after(start, outcomes).done(),
        after(start, outcomes).steps == start.steps,
    decreases outcomes.len(),
{
    lemma_after_steps(start, outcomes);
    if outcomes.len() == 0 {
        lemma_complete_advances(start, snapshots, prunes);
        lemma_steps_stay(start);
    } else {
        let earlier = after(start, outcomes.drop_last());
        lemma_complete_after(start, outcomes.drop_last(), snapshots, prunes);
        if earlier.waiting {
            let next = earlier.completed(outcomes.last());
            assert(complete_so_far(next, snapshots, prunes));
            lemma_complete_advances(next, snapshots, prunes);
            lemma_steps_stay(next);
        }
    }
}

/// A run that ends without an error has done all of its work: it took every
/// snapshot and destroyed every snapshot that the plan names for the pool.
pub proof fn law_run_without_errors_is_complete(
    work: WorkModel,
    settings: SettingsModel,
    dry_run: bool,
    verbose: bool,
    outcomes: Seq<OutcomeModel>,
)
    requires
        can_batch(work, settings),
    ensures
        ({
            let run = after(started(work, settings, dry_run, verbose), outcomes);
            run.done() && run.errors.len() == 0 ==> {
                &&& !run.failed
                &&& run.created == snapshots_in(work.snapshots, work.snapshots.len() as int)
                &&& run.pruned == prunes_in(work.prunes, work.prunes.len() as int)
            }
        }),
{
    let start = started(work, settings, dry_run, verbose);
    law_steps_cover_the_work(work, settings);
    lemma_complete_after(
        start,
        outcomes,
        snapshots_in(work.snapshots, work.snapshots.len() as int),
        prunes_in(work.prunes, work.prunes.len() as int),
    );
}

/// A snapshot command that marks what it takes, with a number of targets.
pub open spec fn marks_snapshots(arguments: Seq<Seq<char>>, targets: nat) -> bool {
    exists|recursive: bool|
        {
            &&& arguments.len() == (#[trigger] snapshot_options(recursive)).len() + targets
            &&& arguments.take(snapshot_options(recursive).len() as int) == snapshot_options(
                recursive,
            )
        }
}

/// A step whose command is within the batch limits; a command that takes
/// snapshots marks them.
pub open spec fn within_limits(step: StepModel, settings: SettingsModel) -> bool {
    match step {
        StepModel::Snapshots { arguments, count } => {
            &&& 1 <= count <= settings.snapshot_batch_size
            &&& marks_snapshots(arguments, count)
        },
        StepModel::Destroy { arguments, count } => {
            &&& 1 <= count <= settings.prune_batch_size
            &&& arguments.len() == 2
            &&& arguments[0] == "destroy"@
        },
        _ => true,
    }
}

spec fn all_within(steps: Seq<StepModel>, settings: SettingsModel) -> bool {
    forall|i: int| 0 <= i < steps.len() ==> within_limits(#[trigger] steps[i], settings)
}

proof fn lemma_within_joins(a: Seq<StepModel>, b: Seq<StepModel>, settings: SettingsModel)
    requires
        all_within(a, settings),
        all_within(b, settings),
    ensures
        all_within(a + b, settings),
{
    assert forall|i: int| 0 <= i < (a + b).len() implies within_limits(
        #[trigger] (a + b)[i],
        settings,
    ) by {
        if i < a.len() {
            assert((a + b)[i] == a[i]);
        } else {
            assert((a + b)[i] == b[i - a.len()]);
        }
    }
}

proof fn lemma_batches_within(
    targets: Seq<Seq<char>>,
    recursive: bool,
    settings: SettingsModel,
    from: int,
)
    requires
        0 <= from <= targets.len(),
        settings.snapshot_batch_size > 0,
    ensures
        all_within(
            batch_steps(targets, recursive, settings.snapshot_batch_size as int, from),
            settings,
        ),
    decreases targets.len() - from,
{
    let size = settings.snapshot_batch_size as int;
    if from < targets.len() {
        let to = batch_end(from, size, targets.len() as int);
        let arguments = snapshot_options(recursive) + targets.subrange(from, to);
        let step = StepModel::Snapshots { arguments, count: (to - from) as nat };
        assert(arguments.take(snapshot_options(recursive).len() as int) =~= snapshot_options(
            recursive,
        ));
        assert(within_limits(step, settings));
        lemma_batches_within(targets, recursive, settings, to);
        lemma_within_joins(seq![step], batch_steps(targets, recursive, size, to), settings);
    }
}

proof fn lemma_rounds_within(
    actions: Seq<SnapshotActionModel>,
    recursive: bool,
    settings: SettingsModel,
    rounds: int,
)
    requires
        settings.snapshot_batch_size > 0,
    ensures
        all_within(
            round_steps(actions, recursive, settings.snapshot_batch_size as int, rounds),
            settings,
        ),
    decreases rounds,
{
    if rounds > 0 {
        let size = settings.snapshot_batch_size as int;
        let targets = round_targets(actions, recursive, rounds - 1, actions.len() as int);
        lemma_rounds_within(actions, recursive, settings, rounds - 1);
        lemma_batches_within(targets, recursive, settings, 0);
        lemma_within_joins(
            round_steps(actions, recursive, size, rounds - 1),
            batch_steps(targets, recursive, size, 0),
            settings,
        );
    }
}

proof fn lemma_singles_within(action: SnapshotActionModel, settings: SettingsModel, n: int)
    requires
        settings.snapshot_batch_size > 0,
    ensures
        all_within(single_steps(action, n), settings),
    decreases n,
{
    if n > 0 {
        lemma_singles_within(action, settings, n - 1);
        let arguments = snapshot_options(action.recursive).push(
            target_text(action.dataset, action.names[n - 1]),
        );
        assert(arguments.take(snapshot_options(action.recursive).len() as int)
            =~= snapshot_options(action.recursive));
        assert(within_limits(StepModel::Snapshots { arguments, count: 1 }, settings));
    }
}

proof fn lemma_hooked_within(
    actions: Seq<SnapshotActionModel>,
    settings: SettingsModel,
    n: int,
)
    requires
        settings.snapshot_batch_size > 0,
    ensures
        all_within(all_hooked_steps(actions, n), settings),
    decreases n,
{
    if n > 0 {
        lemma_hooked_within(actions, settings, n - 1);
        lemma_singles_within(actions[n - 1], settings, actions[n - 1].names.len() as int);
        assert(all_within(hooked_steps(actions[n - 1]), settings));
        lemma_within_joins(
            all_hooked_steps(actions, n - 1),
            hooked_steps(actions[n - 1]),
            settings,
        );
    }
}

proof fn lemma_prune_batches_within(action: PruneActionModel, settings: SettingsModel, from: int)
    requires
        0 <= from <= action.names.len(),
        settings.prune_batch_size > 0,
    ensures
        all_within(prune_batches(action, settings.prune_batch_size as int, from), settings),
    decreases action.names.len() - from,
{
    let size = settings.prune_batch_size as int;
    if from < action.names.len() {
        let to = batch_end(from, size, action.names.len() as int);
        lemma_prune_batches_within(action, settings, to);
        let step = destroy_step(action.dataset, action.names.subrange(from, to));
        assert(within_limits(step, settings));
        lemma_within_joins(
            seq![StepModel::Begin, step],
            prune_batches(action, size, to),
            settings,
        );
    }
}

proof fn lemma_hooked_prunes_within(action: PruneActionModel, settings: SettingsModel, n: int)
    requires
        settings.prune_batch_size > 0,
    ensures
        all_within(hooked_prunes(action, n), settings),
    decreases n,
{
    if n > 0 {
        lemma_hooked_prunes_within(action, settings, n - 1);
        assert(all_within(hooked_prune(action, action.names[n - 1]), settings));
        lemma_within_joins(
            hooked_prunes(action, n - 1),
            hooked_prune(action, action.names[n - 1]),
            settings,
        );
    }
}

proof fn lemma_prunes_within(actions: Seq<PruneActionModel>, settings: SettingsModel, n: int)
    requires
        settings.prune_batch_size > 0,
    ensures
        all_within(
            all_prune_steps(actions, settings.prune_batch_size as int, n),
            settings,
        ),
    decreases n,
{
    if n > 0 {
        let size = settings.prune_batch_size as int;
        let action = actions[n - 1];
        lemma_prunes_within(actions, settings, n - 1);
        lemma_prune_batches_within(action, settings, 0);
        lemma_hooked_prunes_within(action, settings, action.names.len() as int);
        lemma_within_joins(
            all_prune_steps(actions, size, n - 1),
            prune_steps(action, size),
            settings,
        );
    }
}

/// Every command keeps within the configured batch sizes, and every command
/// that takes snapshots marks them as managed.
pub proof fn law_commands_keep_within_the_limits(
    work: WorkModel,
    settings: SettingsModel,
    i: int,
)
    requires
        settings.snapshot_batch_size > 0,
        settings.prune_batch_size > 0,
        0 <= i < program(work, settings).len(),
    ensures
        within_limits(program(work, settings)[i], settings),
{
    let actions = work.snapshots;
    let n = actions.len() as int;
    let size = settings.snapshot_batch_size as int;
    let rounds = most_names(actions, n) as int;
    let regular = round_steps(actions, false, size, rounds);
    let recursive = round_steps(actions, true, size, rounds);
    lemma_rounds_within(actions, false, settings, rounds);
    lemma_rounds_within(actions, true, settings, rounds);
    lemma_hooked_within(actions, settings, n);
    lemma_prunes_within(work.prunes, settings, work.prunes.len() as int);
    lemma_within_joins(regular, recursive, settings);
    lemma_within_joins(regular + recursive, all_hooked_steps(actions, n), settings);
    lemma_within_joins(snapshot_steps(actions, size), seq![guard_step(work)], settings);
    lemma_within_joins(
        snapshot_steps(actions, size) + seq![guard_step(work)],
        all_prune_steps(
            work.prunes,
            settings.prune_batch_size as int,
            work.prunes.len() as int,
        ),
        settings,
    );
    assert(all_within(program(work, settings), settings));
}

/// The actions whose targets a round holds.
pub open spec fn round_members(
    actions: Seq<SnapshotActionModel>,
    recursive: bool,
    round: int,
    n: int,
) -> Seq<int>
    decreases n,
{
    if n <= 0 {
        Seq::empty()
    } else if batches_with(actions[n - 1], recursive) && round < actions[n - 1].names.len() {
        round_members(actions, recursive, round, n - 1).push(n - 1)
    } else {
        round_members(actions, recursive, round, n - 1)
    }
}

/// A round takes at most one snapshot for each action, so no command names a
/// dataset of the plan twice.
pub proof fn law_round_has_one_target_for_each_action(
    actions: Seq<SnapshotActionModel>,
    recursive: bool,
    round: int,
    n: int,
)
    requires
        0 <= n <= actions.len(),
    ensures
        ({
            let members = round_members(actions, recursive, round, n);
            let targets = round_targets(actions, recursive, round, n);
            &&& members.len() == targets.len()
            &&& forall|i: int, j: int|
                0 <= i < j < members.len() ==> (#[trigger] members[i]) < (#[trigger] members[j])
            &&& forall|i: int|
                0 <= i < members.len() ==> {
                    &&& 0 <= #[trigger] members[i] < n
                    &&& targets[i] == target_text(
                        actions[members[i]].dataset,
                        actions[members[i]].names[round],
                    )
                }
        }),
    decreases n,
{
    if n > 0 {
        law_round_has_one_target_for_each_action(actions, recursive, round, n - 1);
    }
}

} // verus!
