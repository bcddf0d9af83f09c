//! The commands: what each one does, and what it tells the administrator.
use vstd::prelude::*;

use crate::error::{error, plain, reports, Error, Fault};
use crate::executor::{ExecutionReport, ReportModel};
use crate::migration::{MigrationModel, SanoidMigration};
use crate::notification::{failures, DeliveryEvent, DeliveryModel, NotificationReport, NotificationReportModel};
use crate::planner::{empty_plan, plan_pools, prunes_in, snapshots_in, Plan, PlanModel, ProtectedModel, ProtectedSnapshot, PruneActionModel, SnapshotActionModel};
use crate::status::{CacheModel, DatasetStatusModel, PoolStatusModel, StatusCache};
use crate::text::{decimal, join, joined, lemma_texts_push, number, texts, trim, trimmed};
use crate::webhook::optional_text;

verus! {

// ---------------------------------------------------------------------------
// Commands
// ---------------------------------------------------------------------------

/// The part of a plan that is wanted.
#[derive(Debug, Clone, Copy, PartialEq, Eq, Structural)]
pub enum PlanScope {
    All,
    Snapshot,
    Prune,
}

/// The commands that look at ZFS through a plan, and the others.
#[derive(Debug, Clone, Copy, PartialEq, Eq, Structural)]
pub enum Command {
    Run { dry_run: bool },
    Snapshot { dry_run: bool },
    Prune { dry_run: bool },
    Plan { scope: PlanScope },
    Other,
}

/// What a command does with a plan.
#[derive(Debug, Clone, Copy, PartialEq, Eq, Structural)]
pub struct Mode {
    pub scope: PlanScope,
    pub dry_run: bool,
    /// Whether the plan is carried out and not just shown.
    pub execute: bool,
}

impl Command {
    /// The name of a command that changes ZFS state.
    pub open spec fn mutation(self) -> Option<Seq<char>> {
        match self {
            Command::Run { dry_run: false } => Some("run"@),
            Command::Snapshot { dry_run: false } => Some("snapshot"@),
            Command::Prune { dry_run: false } => Some("prune"@),
            _ => None,
        }
    }

    pub open spec fn planned(self) -> Option<Mode> {
        match self {
            Command::Run { dry_run } => Some(
                Mode { scope: PlanScope::All, dry_run, execute: true },
            ),
            Command::Snapshot { dry_run } => Some(
                Mode { scope: PlanScope::Snapshot, dry_run, execute: true },
            ),
            Command::Prune { dry_run } => Some(
                Mode { scope: PlanScope::Prune, dry_run, execute: true },
            ),
            Command::Plan { scope } => Some(Mode { scope, dry_run: true, execute: false }),
            Command::Other => None,
        }
    }

    pub fn mode(&self) -> (res: Option<Mode>)
        ensures
            res == self.planned(),
    {
        match *self {
            Command::Run { dry_run } => Some(
                Mode { scope: PlanScope::All, dry_run, execute: true },
            ),
            Command::Snapshot { dry_run } => Some(
                Mode { scope: PlanScope::Snapshot, dry_run, execute: true },
            ),
            Command::Prune { dry_run } => Some(
                Mode { scope: PlanScope::Prune, dry_run, execute: true },
            ),
            Command::Plan { scope } => Some(Mode { scope, dry_run: true, execute: false }),
            Command::Other => None,
        }
    }
}

/// The name of a command that changes ZFS state: those are the ones that
/// notifications are sent about.
pub fn mutating_command(command: &Command) -> (res: Option<&'static str>)
    ensures
        match res {
            Some(name) => command.mutation() == Some(name@),
            None => command.mutation() is None,
        },
{
    match *command {
        Command::Run { dry_run } => if dry_run {
            None
        } else {
            Some("run")
        },
        Command::Snapshot { dry_run } => if dry_run {
            None
        } else {
            Some("snapshot")
        },
        Command::Prune { dry_run } => if dry_run {
            None
        } else {
            Some("prune")
        },
        _ => None,
    }
}

impl Mode {
    /// Whether the run lock is needed.
    pub fn locks(&self) -> (res: bool)
        ensures
            res == (self.execute && !self.dry_run),
    {
        self.execute && !self.dry_run
    }

    /// Whether the status cache is updated after a run: it is where the run
    /// changed ZFS state and nothing failed.
    pub fn updates_cache(&self, report: &ExecutionReport) -> (res: bool)
        ensures
            res == (self.execute && !self.dry_run && report@.errors.len() == 0),
    {
        self.execute && !self.dry_run && report.succeeded()
    }
}

/// A command takes the lock exactly where it can change ZFS state.
pub proof fn law_mutating_commands_lock(command: Command)
    ensures
        command.mutation() is Some <==> (command.planned() matches Some(mode) && mode.execute
            && !mode.dry_run),
{
}

/// A plan cut down to its scope.
pub open spec fn scoped(plan: PlanModel, scope: PlanScope) -> PlanModel {
    match scope {
        PlanScope::All => plan,
        PlanScope::Snapshot => PlanModel { snapshots: plan.snapshots, ..empty_plan() },
        PlanScope::Prune => PlanModel { snapshots: Seq::empty(), ..plan },
    }
}

pub fn filter_plan(plan: &mut Plan, scope: PlanScope)
    ensures
        final(plan)@ == scoped(old(plan)@, scope),
{
    match scope {
        PlanScope::All => {},
        PlanScope::Snapshot => plan.retain_snapshots_only(),
        PlanScope::Prune => plan.retain_prunes_only(),
    }
}

/// Adds a line to a list of lines.
fn add_line(lines: &mut Vec<String>, line: String)
    ensures
        texts(final(lines)@) == texts(old(lines)@).push(line@),
{
    proof {
        lemma_texts_push(lines@, line);
    }
    lines.push(line);
}

// ---------------------------------------------------------------------------
// Plans and their outcome
// ---------------------------------------------------------------------------


/// The first line of a plan.
pub open spec fn plan_heading(created: nat, pruned: nat, kept: nat, pools: nat) -> Seq<char> {
    "plan: create "@ + decimal(created) + " snapshot(s), prune "@ + decimal(pruned) + " snapshot(s), protect "@ + decimal(kept) + " snapshot(s), "@ + decimal(pools) + " pool(s)"@
}

fn plan_headline(created: usize, pruned: usize, kept: usize, pools: usize) -> (res: String)
    ensures
        res@ == plan_heading(created as nat, pruned as nat, kept as nat, pools as nat),
{
    let mut res = "plan: create ".to_owned();
    res.append(number(created as u64).as_str());
    res.append(" snapshot(s), prune ");
    res.append(number(pruned as u64).as_str());
    res.append(" snapshot(s), protect ");
    res.append(number(kept as u64).as_str());
    res.append(" snapshot(s), ");
    res.append(number(pools as u64).as_str());
    res.append(" pool(s)");
    res
}

/// A snapshot to take.
pub open spec fn create_line(pool: Seq<char>, dataset: Seq<char>, recursion: Seq<char>, names: Seq<char>) -> Seq<char> {
    "  CREATE ["@ + pool + "] "@ + dataset + recursion + " @ "@ + names
}

fn render_create(pool: &str, dataset: &str, recursion: &str, names: &str) -> (res: String)
    ensures
        res@ == create_line(pool@, dataset@, recursion@, names@),
{
    let mut res = "  CREATE [".to_owned();
    res.append(pool);
    res.append("] ");
    res.append(dataset);
    res.append(recursion);
    res.append(" @ ");
    res.append(names);
    res
}

/// Snapshots to destroy.
pub open spec fn prune_line(pool: Seq<char>, dataset: Seq<char>, names: Seq<char>) -> Seq<char> {
    "  PRUNE  ["@ + pool + "] "@ + dataset + " @ "@ + names
}

fn render_prune(pool: &str, dataset: &str, names: &str) -> (res: String)
    ensures
        res@ == prune_line(pool@, dataset@, names@),
{
    let mut res = "  PRUNE  [".to_owned();
    res.append(pool);
    res.append("] ");
    res.append(dataset);
    res.append(" @ ");
    res.append(names);
    res
}

/// A dataset whose pruning waits.
pub open spec fn defer_line(dataset: Seq<char>) -> Seq<char> {
    "  DEFER  pruning "@ + dataset + ": pool capacity is below prune_defer"@
}

fn render_defer(dataset: &str) -> (res: String)
    ensures
        res@ == defer_line(dataset@),
{
    let mut res = "  DEFER  pruning ".to_owned();
    res.append(dataset);
    res.append(": pool capacity is below prune_defer");
    res
}

/// A snapshot that is kept, and why.
pub open spec fn protect_line(pool: Seq<char>, dataset: Seq<char>, name: Seq<char>, reason: Seq<char>) -> Seq<char> {
    "  PROTECT ["@ + pool + "] "@ + dataset + "@"@ + name + ": "@ + reason
}

fn render_protect(pool: &str, dataset: &str, name: &str, reason: &str) -> (res: String)
    ensures
        res@ == protect_line(pool@, dataset@, name@, reason@),
{
    let mut res = "  PROTECT [".to_owned();
    res.append(pool);
    res.append("] ");
    res.append(dataset);
    res.append("@");
    res.append(name);
    res.append(": ");
    res.append(reason);
    res
}

/// A snapshot that is kept.
pub open spec fn kept_line(pool: Seq<char>, dataset: Seq<char>, name: Seq<char>) -> Seq<char> {
    "  PROTECT ["@ + pool + "] "@ + dataset + "@"@ + name
}

fn render_kept(pool: &str, dataset: &str, name: &str) -> (res: String)
    ensures
        res@ == kept_line(pool@, dataset@, name@),
{
    let mut res = "  PROTECT [".to_owned();
    res.append(pool);
    res.append("] ");
    res.append(dataset);
    res.append("@");
    res.append(name);
    res
}

/// How many snapshots are kept.
pub open spec fn kept_heading(kept: nat) -> Seq<char> {
    "protected "@ + decimal(kept) + " managed snapshot(s) from pruning because of user holds or dependent clones"@
}

fn kept_headline(kept: usize) -> (res: String)
    ensures
        res@ == kept_heading(kept as nat),
{
    let mut res = "protected ".to_owned();
    res.append(number(kept as u64).as_str());
    res.append(" managed snapshot(s) from pruning because of user holds or dependent clones");
    res
}

/// What a dry run would have done.
pub open spec fn dry_run_line(created: nat, pruned: nat, pools: nat) -> Seq<char> {
    "dry run: would create "@ + decimal(created) + " snapshot(s) and prune "@ + decimal(pruned) + " snapshot(s) across "@ + decimal(pools) + " pool(s)"@
}

fn render_dry_run(created: usize, pruned: usize, pools: usize) -> (res: String)
    ensures
        res@ == dry_run_line(created as nat, pruned as nat, pools as nat),
{
    let mut res = "dry run: would create ".to_owned();
    res.append(number(created as u64).as_str());
    res.append(" snapshot(s) and prune ");
    res.append(number(pruned as u64).as_str());
    res.append(" snapshot(s) across ");
    res.append(number(pools as u64).as_str());
    res.append(" pool(s)");
    res
}

/// What a run did.
pub open spec fn run_line(created: nat, pruned: nat, pools: nat) -> Seq<char> {
    "created "@ + decimal(created) + " snapshot(s), pruned "@ + decimal(pruned) + " snapshot(s) across "@ + decimal(pools) + " pool(s)"@
}

fn render_run(created: usize, pruned: usize, pools: usize) -> (res: String)
    ensures
        res@ == run_line(created as nat, pruned as nat, pools as nat),
{
    let mut res = "created ".to_owned();
    res.append(number(created as u64).as_str());
    res.append(" snapshot(s), pruned ");
    res.append(number(pruned as u64).as_str());
    res.append(" snapshot(s) across ");
    res.append(number(pools as u64).as_str());
    res.append(" pool(s)");
    res
}

/// How many prunes were left out after a failed snapshot.
pub open spec fn safety_stop_line(skipped: nat) -> Seq<char> {
    "safety stop: skipped "@ + decimal(skipped) + " prune(s) after a snapshot failure"@
}

fn render_safety_stop(skipped: usize) -> (res: String)
    ensures
        res@ == safety_stop_line(skipped as nat),
{
    let mut res = "safety stop: skipped ".to_owned();
    res.append(number(skipped as u64).as_str());
    res.append(" prune(s) after a snapshot failure");
    res
}

/// Why a snapshot is kept.
pub open spec fn protection(snapshot: ProtectedModel) -> Seq<char> {
    if snapshot.user_holds > 0 && snapshot.has_clones {
        decimal(snapshot.user_holds as nat) + " user hold(s) and one or more dependent clones"@
    } else if snapshot.user_holds > 0 {
        decimal(snapshot.user_holds as nat) + " user hold(s)"@
    } else {
        "one or more dependent clones"@
    }
}

fn render_protection(snapshot: &ProtectedSnapshot) -> (res: String)
    requires
        snapshot@.user_holds > 0 || snapshot@.has_clones,
    ensures
        res@ == protection(snapshot@),
{
    if snapshot.user_holds > 0 {
        let mut res = number(snapshot.user_holds);
        res.append(
            if snapshot.has_clones {
                " user hold(s) and one or more dependent clones"
            } else {
                " user hold(s)"
            },
        );
        res
    } else {
        "one or more dependent clones".to_owned()
    }
}

/// A plan whose snapshots can be counted, and whose protected ones all have a
/// reason to be.
pub open spec fn presentable(plan: PlanModel) -> bool {
    &&& snapshots_in(plan.snapshots, plan.snapshots.len() as int) <= usize::MAX
    &&& prunes_in(plan.prunes, plan.prunes.len() as int) <= usize::MAX
    &&& forall|i: int|
        0 <= i < plan.protected_snapshots.len() ==> (
        #[trigger] plan.protected_snapshots[i]).user_holds > 0
            || plan.protected_snapshots[i].has_clones
}

pub open spec fn create_lines(actions: Seq<SnapshotActionModel>) -> Seq<Seq<char>> {
    actions.map_values(
        |action: SnapshotActionModel|
            create_line(
                action.pool,
                action.dataset,
                if action.recursive {
                    " recursively"@
                } else {
                    ""@
                },
                join(action.names, ", "@),
            ),
    )
}

pub open spec fn prune_lines(actions: Seq<PruneActionModel>) -> Seq<Seq<char>> {
    actions.map_values(
        |action: PruneActionModel|
            prune_line(action.pool, action.dataset, join(action.names, ", "@)),
    )
}

pub open spec fn defer_lines(datasets: Seq<Seq<char>>) -> Seq<Seq<char>> {
    datasets.map_values(|dataset: Seq<char>| defer_line(dataset))
}

pub open spec fn protect_lines(snapshots: Seq<ProtectedModel>) -> Seq<Seq<char>> {
    snapshots.map_values(
        |snapshot: ProtectedModel|
            protect_line(snapshot.pool, snapshot.dataset, snapshot.name, protection(snapshot)),
    )
}

pub open spec fn kept_lines(snapshots: Seq<ProtectedModel>) -> Seq<Seq<char>> {
    snapshots.map_values(
        |snapshot: ProtectedModel| kept_line(snapshot.pool, snapshot.dataset, snapshot.name),
    )
}

/// A plan for the administrator to read.
pub open spec fn plan_text(plan: PlanModel) -> Seq<Seq<char>> {
    seq![
        plan_heading(
            snapshots_in(plan.snapshots, plan.snapshots.len() as int),
            prunes_in(plan.prunes, plan.prunes.len() as int),
            plan.protected_snapshots.len(),
            plan_pools(plan).len(),
        ),
    ] + create_lines(plan.snapshots) + prune_lines(plan.prunes) + defer_lines(
        plan.deferred_prune_datasets,
    ) + protect_lines(plan.protected_snapshots)
}

fn add_creates(lines: &mut Vec<String>, plan: &Plan)
    ensures
        texts(final(lines)@) == texts(old(lines)@) + create_lines(plan@.snapshots),
{
    let ghost start = texts(lines@);
    let ghost all = create_lines(plan@.snapshots);
    let mut i: usize = 0;
    assert(start + all.take(0) =~= start);
    while i < plan.snapshots.len()
        invariant
            i <= plan.snapshots@.len(),
            all == create_lines(plan@.snapshots),
            texts(lines@) == start + all.take(i as int),
        decreases plan.snapshots.len() - i,
    {
        let action = &plan.snapshots[i];
        assert(plan@.snapshots[i as int] == action@);
        assert(start + all.take(i + 1) =~= (start + all.take(i as int)).push(all[i as int]));
        add_line(
            lines,
            render_create(
                action.pool.as_str(),
                action.dataset.as_str(),
                if action.recursive {
                    " recursively"
                } else {
                    ""
                },
                joined(&action.names, ", ").as_str(),
            ),
        );
        i += 1;
    }
    assert(all.take(i as int) =~= all);
}

fn add_prunes(lines: &mut Vec<String>, plan: &Plan)
    ensures
        texts(final(lines)@) == texts(old(lines)@) + prune_lines(plan@.prunes),
{
    let ghost start = texts(lines@);
    let ghost all = prune_lines(plan@.prunes);
    let mut i: usize = 0;
    assert(start + all.take(0) =~= start);
    while i < plan.prunes.len()
        invariant
            i <= plan.prunes@.len(),
            all == prune_lines(plan@.prunes),
            texts(lines@) == start + all.take(i as int),
        decreases plan.prunes.len() - i,
    {
        let action = &plan.prunes[i];
        assert(plan@.prunes[i as int] == action@);
        assert(start + all.take(i + 1) =~= (start + all.take(i as int)).push(all[i as int]));
        add_line(
            lines,
            render_prune(
                action.pool.as_str(),
                action.dataset.as_str(),
                joined(&action.names, ", ").as_str(),
            ),
        );
        i += 1;
    }
    assert(all.take(i as int) =~= all);
}

fn add_defers(lines: &mut Vec<String>, plan: &Plan)
    ensures
        texts(final(lines)@) == texts(old(lines)@) + defer_lines(plan@.deferred_prune_datasets),
{
    let ghost start = texts(lines@);
    let ghost all = defer_lines(plan@.deferred_prune_datasets);
    let mut i: usize = 0;
    assert(start + all.take(0) =~= start);
    while i < plan.deferred_prune_datasets.len()
        invariant
            i <= plan.deferred_prune_datasets@.len(),
            all == defer_lines(plan@.deferred_prune_datasets),
            texts(lines@) == start + all.take(i as int),
        decreases plan.deferred_prune_datasets.len() - i,
    {
        assert(plan@.deferred_prune_datasets[i as int]
            == plan.deferred_prune_datasets@[i as int]@);
        assert(start + all.take(i + 1) =~= (start + all.take(i as int)).push(all[i as int]));
        add_line(lines, render_defer(plan.deferred_prune_datasets[i].as_str()));
        i += 1;
    }
    assert(all.take(i as int) =~= all);
}

/// Adds a line for each protected snapshot, with the reason or without.
fn add_protected(lines: &mut Vec<String>, plan: &Plan, reasons: bool)
    requires
        presentable(plan@),
    ensures
        texts(final(lines)@) == texts(old(lines)@) + (if reasons {
            protect_lines(plan@.protected_snapshots)
        } else {
            kept_lines(plan@.protected_snapshots)
        }),
{
    let ghost start = texts(lines@);
    let ghost all = if reasons {
        protect_lines(plan@.protected_snapshots)
    } else {
        kept_lines(plan@.protected_snapshots)
    };
    let mut i: usize = 0;
    assert(start + all.take(0) =~= start);
    while i < plan.protected_snapshots.len()
        invariant
            i <= plan.protected_snapshots@.len(),
            presentable(plan@),
            all == (if reasons {
                protect_lines(plan@.protected_snapshots)
            } else {
                kept_lines(plan@.protected_snapshots)
            }),
            texts(lines@) == start + all.take(i as int),
        decreases plan.protected_snapshots.len() - i,
    {
        let snapshot = &plan.protected_snapshots[i];
        assert(plan@.protected_snapshots[i as int] == snapshot@);
        assert(start + all.take(i + 1) =~= (start + all.take(i as int)).push(all[i as int]));
        let line = if reasons {
            render_protect(
                snapshot.pool.as_str(),
                snapshot.dataset.as_str(),
                snapshot.name.as_str(),
                render_protection(snapshot).as_str(),
            )
        } else {
            render_kept(snapshot.pool.as_str(), snapshot.dataset.as_str(), snapshot.name.as_str())
        };
        add_line(lines, line);
        i += 1;
    }
    assert(all.take(i as int) =~= all);
}

pub fn print_plan(plan: &Plan) -> (res: Vec<String>)
    requires
        presentable(plan@),
    ensures
        texts(res@) == plan_text(plan@),
{
    let mut lines: Vec<String> = Vec::new();
    assert(texts(lines@) =~= Seq::empty());
    let headline = plan_headline(
        plan.snapshot_count(),
        plan.prune_count(),
        plan.protected_snapshot_count(),
        plan.pools().len(),
    );
    assert(Seq::<Seq<char>>::empty().push(headline@) =~= seq![headline@]);
    add_line(&mut lines, headline);
    add_creates(&mut lines, plan);
    add_prunes(&mut lines, plan);
    add_defers(&mut lines, plan);
    add_protected(&mut lines, plan, true);
    lines
}

/// The lines of a report for the standard output.
pub open spec fn report_text(plan: PlanModel, report: ReportModel, verbose: bool) -> Seq<Seq<char>> {
    let logs = if verbose || report.dry_run {
        report.logs
    } else {
        Seq::empty()
    };
    let kept = if plan.protected_snapshots.len() == 0 {
        Seq::empty()
    } else {
        seq![kept_heading(plan.protected_snapshots.len())] + (if verbose || report.dry_run {
            kept_lines(plan.protected_snapshots)
        } else {
            Seq::empty()
        })
    };
    logs + kept + seq![
        if report.dry_run {
            dry_run_line(
                snapshots_in(plan.snapshots, plan.snapshots.len() as int),
                prunes_in(plan.prunes, plan.prunes.len() as int),
                plan_pools(plan).len(),
            )
        } else {
            run_line(report.snapshots_created, report.snapshots_pruned, plan_pools(plan).len())
        },
    ]
}

pub fn print_report(plan: &Plan, report: &ExecutionReport, verbose: bool) -> (res: Vec<String>)
    requires
        presentable(plan@),
    ensures
        texts(res@) == report_text(plan@, report@, verbose),
{
    let detailed = verbose || report.dry_run;
    let mut lines: Vec<String> = if detailed {
        crate::text::copy_texts(&report.logs)
    } else {
        Vec::new()
    };
    let ghost logs = texts(lines@);
    assert(!detailed ==> logs =~= Seq::empty());
    if plan.protected_snapshots.len() > 0 {
        let headline = kept_headline(plan.protected_snapshot_count());
        assert(logs.push(headline@) =~= logs + seq![headline@]);
        add_line(&mut lines, headline);
        if detailed {
            add_protected(&mut lines, plan, false);
        }
        assert(texts(lines@) =~= logs + (seq![headline@] + (if detailed {
            kept_lines(plan@.protected_snapshots)
        } else {
            Seq::empty()
        })));
    } else {
        assert(texts(lines@) =~= logs + Seq::empty());
    }
    let ghost shown = texts(lines@);
    let last = if report.dry_run {
        render_dry_run(plan.snapshot_count(), plan.prune_count(), plan.pools().len())
    } else {
        render_run(report.snapshots_created, report.snapshots_pruned, plan.pools().len())
    };
    assert(shown.push(last@) =~= shown + seq![last@]);
    add_line(&mut lines, last);
    lines
}

/// The lines of a report for the standard error.
pub open spec fn report_errors(report: ReportModel) -> Seq<Seq<char>> {
    report.errors.map_values(|text: Seq<char>| "ERROR: "@ + text) + (
    if report.prunes_skipped_after_snapshot_failure > 0 {
        seq![safety_stop_line(report.prunes_skipped_after_snapshot_failure)]
    } else {
        Seq::empty()
    })
}

/// A list of texts with the same words before each.
fn with_heading(heading: &str, list: &Vec<String>) -> (res: Vec<String>)
    ensures
        texts(res@) == texts(list@).map_values(|text: Seq<char>| heading@ + text),
{
    let ghost all = texts(list@).map_values(|text: Seq<char>| heading@ + text);
    let mut lines: Vec<String> = Vec::new();
    let mut i: usize = 0;
    assert(texts(lines@) =~= all.take(0));
    while i < list.len()
        invariant
            i <= list@.len(),
            all == texts(list@).map_values(|text: Seq<char>| heading@ + text),
            texts(lines@) == all.take(i as int),
        decreases list.len() - i,
    {
        let mut line = heading.to_owned();
        line.append(list[i].as_str());
        assert(texts(list@)[i as int] == list@[i as int]@);
        assert(all.take(i + 1) =~= all.take(i as int).push(all[i as int]));
        add_line(&mut lines, line);
        i += 1;
    }
    assert(all.take(i as int) =~= all);
    lines
}

pub fn print_report_errors(report: &ExecutionReport) -> (res: Vec<String>)
    ensures
        texts(res@) == report_errors(report@),
{
    let mut lines = with_heading("ERROR: ", &report.errors);
    let ghost shown = texts(lines@);
    if report.prunes_skipped_after_snapshot_failure > 0 {
        let line = render_safety_stop(report.prunes_skipped_after_snapshot_failure);
        assert(shown.push(line@) =~= shown + seq![line@]);
        add_line(&mut lines, line);
    } else {
        assert(shown =~= shown + Seq::empty());
    }
    lines
}


/// The error of a run in which something failed.
pub open spec fn run_failure_text(failed: nat, created: nat, pruned: nat, pools: nat) -> Seq<char> {
    decimal(failed) + " operation(s) failed after creating "@ + decimal(created) + " and pruning "@ + decimal(pruned) + " snapshot(s) across "@ + decimal(pools) + " pool(s)"@
}

fn render_run_failure(failed: usize, created: usize, pruned: usize, pools: usize) -> (res: String)
    ensures
        res@ == run_failure_text(failed as nat, created as nat, pruned as nat, pools as nat),
{
    let mut res = number(failed as u64);
    res.append(" operation(s) failed after creating ");
    res.append(number(created as u64).as_str());
    res.append(" and pruning ");
    res.append(number(pruned as u64).as_str());
    res.append(" snapshot(s) across ");
    res.append(number(pools as u64).as_str());
    res.append(" pool(s)");
    res
}

/// What a successful run did, for a notification.
pub open spec fn success_detail(created: nat, pruned: nat, kept: nat, pools: nat) -> Seq<char> {
    "Created "@ + decimal(created) + " snapshot(s), pruned "@ + decimal(pruned) + " snapshot(s), protected "@ + decimal(kept) + " snapshot(s), "@ + decimal(pools) + " pool(s)."@
}

fn render_success_detail(created: usize, pruned: usize, kept: usize, pools: usize) -> (res: String)
    ensures
        res@ == success_detail(created as nat, pruned as nat, kept as nat, pools as nat),
{
    let mut res = "Created ".to_owned();
    res.append(number(created as u64).as_str());
    res.append(" snapshot(s), pruned ");
    res.append(number(pruned as u64).as_str());
    res.append(" snapshot(s), protected ");
    res.append(number(kept as u64).as_str());
    res.append(" snapshot(s), ");
    res.append(number(pools as u64).as_str());
    res.append(" pool(s).");
    res
}

/// The message about a run.
pub open spec fn run_message(command: Seq<char>, status: Seq<char>, host: Seq<char>, duration: Seq<char>, detail: Seq<char>) -> Seq<char> {
    "zsnap "@ + command + " "@ + status + " on "@ + host + "\nDuration: "@ + duration + "s\n"@ + detail
}

fn render_run_message(command: &str, status: &str, host: &str, duration: &str, detail: &str) -> (res: String)
    ensures
        res@ == run_message(command@, status@, host@, duration@, detail@),
{
    let mut res = "zsnap ".to_owned();
    res.append(command);
    res.append(" ");
    res.append(status);
    res.append(" on ");
    res.append(host);
    res.append("\nDuration: ");
    res.append(duration);
    res.append("s\n");
    res.append(detail);
    res
}

/// The message of a test.
pub open spec fn test_message(host: Seq<char>, text: Seq<char>) -> Seq<char> {
    "zsnap TEST on "@ + host + "\n"@ + text
}

pub fn render_test_message(host: &str, text: &str) -> (res: String)
    ensures
        res@ == test_message(host@, text@),
{
    let mut res = "zsnap TEST on ".to_owned();
    res.append(host);
    res.append("\n");
    res.append(text);
    res
}

/// How a test went.
pub open spec fn test_line(delivered: nat, attempted: nat, skipped: nat) -> Seq<char> {
    "webhook test: delivered "@ + decimal(delivered) + " of "@ + decimal(attempted) + " target(s); "@ + decimal(skipped) + " skipped"@
}

fn render_test(delivered: usize, attempted: usize, skipped: usize) -> (res: String)
    ensures
        res@ == test_line(delivered as nat, attempted as nat, skipped as nat),
{
    let mut res = "webhook test: delivered ".to_owned();
    res.append(number(delivered as u64).as_str());
    res.append(" of ");
    res.append(number(attempted as u64).as_str());
    res.append(" target(s); ");
    res.append(number(skipped as u64).as_str());
    res.append(" skipped");
    res
}

/// A delivery that failed.
pub open spec fn delivery_line(kind: Seq<char>, target: Seq<char>, attempts: nat, message: Seq<char>) -> Seq<char> {
    "NOTIFICATION ERROR ["@ + kind + ":"@ + target + " after "@ + decimal(attempts) + " attempt(s)]: "@ + message
}

fn render_delivery(kind: &str, target: &str, attempts: usize, message: &str) -> (res: String)
    ensures
        res@ == delivery_line(kind@, target@, attempts as nat, message@),
{
    let mut res = "NOTIFICATION ERROR [".to_owned();
    res.append(kind);
    res.append(":");
    res.append(target);
    res.append(" after ");
    res.append(number(attempts as u64).as_str());
    res.append(" attempt(s)]: ");
    res.append(message);
    res
}

/// The error of deliveries that failed.
pub open spec fn delivery_failure_text(failed: nat, attempted: nat) -> Seq<char> {
    decimal(failed) + " of "@ + decimal(attempted) + " notification delivery attempt(s) failed"@
}

fn render_delivery_failure(failed: usize, attempted: usize) -> (res: String)
    ensures
        res@ == delivery_failure_text(failed as nat, attempted as nat),
{
    let mut res = number(failed as u64);
    res.append(" of ");
    res.append(number(attempted as u64).as_str());
    res.append(" notification delivery attempt(s) failed");
    res
}

/// What a run did.
#[derive(Debug, Clone, Copy, PartialEq, Eq, Structural)]
pub struct RunSummary {
    pub snapshots_created: usize,
    pub snapshots_pruned: usize,
    pub snapshots_protected: usize,
    pub pools: usize,
}

/// A summary, or the error of a run in which something failed.
pub open spec fn run_outcome(plan: PlanModel, report: ReportModel) -> Result<
    (nat, nat, nat, nat),
    Seq<char>,
> {
    if report.errors.len() > 0 {
        Err(
            run_failure_text(
                report.errors.len(),
                report.snapshots_created,
                report.snapshots_pruned,
                plan_pools(plan).len(),
            ),
        )
    } else {
        Ok(
            (
                report.snapshots_created,
                report.snapshots_pruned,
                plan.protected_snapshots.len(),
                plan_pools(plan).len(),
            ),
        )
    }
}

pub open spec fn summary_counts(summary: RunSummary) -> (nat, nat, nat, nat) {
    (
        summary.snapshots_created as nat,
        summary.snapshots_pruned as nat,
        summary.snapshots_protected as nat,
        summary.pools as nat,
    )
}

/// Sums up a run that was carried out.
pub fn summarize(plan: &Plan, report: &ExecutionReport) -> (res: Result<RunSummary, Error>)
    ensures
        match res {
            Ok(summary) => run_outcome(plan@, report@) == Ok::<(nat, nat, nat, nat), Seq<char>>(
                summary_counts(summary),
            ),
            Err(e) => run_outcome(plan@, report@) matches Err(message) && e@ == plain(message),
        },
{
    let pools: usize = plan.pools().len();
    if !report.succeeded() {
        return Err(
            Error::new(
                render_run_failure(
                    report.errors.len(),
                    report.snapshots_created,
                    report.snapshots_pruned,
                    pools,
                ),
            ),
        );
    }
    Ok(
        RunSummary {
            snapshots_created: report.snapshots_created,
            snapshots_pruned: report.snapshots_pruned,
            snapshots_protected: plan.protected_snapshot_count(),
            pools,
        },
    )
}

/// Sums up a plan that was only shown.
pub fn summarize_plan(plan: &Plan) -> (res: RunSummary)
    ensures
        summary_counts(res) == (
            0nat,
            0nat,
            plan@.protected_snapshots.len(),
            plan_pools(plan@).len(),
        ),
{
    RunSummary {
        snapshots_created: 0,
        snapshots_pruned: 0,
        snapshots_protected: plan.protected_snapshot_count(),
        pools: plan.pools().len(),
    }
}

/// The event and the message that a run is reported by.
pub open spec fn announcement(
    command: Seq<char>,
    outcome: Result<(nat, nat, nat, nat), Seq<char>>,
    host: Seq<char>,
    duration: Seq<char>,
) -> (DeliveryEvent, Seq<char>) {
    match outcome {
        Ok((created, pruned, kept, pools)) => (
            DeliveryEvent::Success,
            run_message(
                command,
                "SUCCESS"@,
                host,
                duration,
                success_detail(created, pruned, kept, pools),
            ),
        ),
        Err(message) => (
            DeliveryEvent::Failure,
            run_message(command, "FAILURE"@, host, duration, "Error: "@ + message),
        ),
    }
}

/// What to notify of after a run; `failure` is the error it ended with, with
/// its causes, and `duration` its time in seconds.
pub fn announce(
    command: &str,
    outcome: Result<RunSummary, String>,
    host: &str,
    duration: &str,
) -> (res: (DeliveryEvent, String))
    ensures
        (res.0, res.1@) == announcement(
            command@,
            match outcome {
                Ok(summary) => Ok(summary_counts(summary)),
                Err(message) => Err(message@),
            },
            host@,
            duration@,
        ),
{
    match outcome {
        Ok(summary) => {
            let detail = render_success_detail(
                summary.snapshots_created,
                summary.snapshots_pruned,
                summary.snapshots_protected,
                summary.pools,
            );
            (
                DeliveryEvent::Success,
                render_run_message(command, "SUCCESS", host, duration, detail.as_str()),
            )
        },
        Err(message) => {
            let mut detail = "Error: ".to_owned();
            detail.append(message.as_str());
            (
                DeliveryEvent::Failure,
                render_run_message(command, "FAILURE", host, duration, detail.as_str()),
            )
        },
    }
}

/// The lines about the deliveries that failed, among the first `n`.
pub open spec fn delivery_errors(deliveries: Seq<DeliveryModel>, n: int) -> Seq<Seq<char>>
    decreases n,
{
    if n <= 0 {
        Seq::empty()
    } else {
        let earlier = delivery_errors(deliveries, n - 1);
        match deliveries[n - 1].error {
            Some(message) => earlier.push(
                delivery_line(
                    deliveries[n - 1].kind,
                    deliveries[n - 1].target,
                    deliveries[n - 1].attempts as nat,
                    message,
                ),
            ),
            None => earlier,
        }
    }
}

pub fn print_notification_errors(report: &NotificationReport) -> (res: Vec<String>)
    ensures
        texts(res@) == delivery_errors(
            report@.deliveries,
            report@.deliveries.len() as int,
        ),
{
    let mut lines: Vec<String> = Vec::new();
    let mut i: usize = 0;
    assert(texts(lines@) =~= Seq::empty());
    while i < report.deliveries.len()
        invariant
            i <= report.deliveries@.len(),
            texts(lines@) == delivery_errors(report@.deliveries, i as int),
        decreases report.deliveries.len() - i,
    {
        let delivery = &report.deliveries[i];
        assert(report@.deliveries[i as int] == delivery@);
        if let Some(message) = &delivery.error {
            add_line(
                &mut lines,
                render_delivery(
                    delivery.kind.as_str(),
                    delivery.target.as_str(),
                    delivery.attempts as usize,
                    message.as_str(),
                ),
            );
        }
        i += 1;
    }
    lines
}

/// The error that failed deliveries amount to.
pub open spec fn delivery_fault(report: NotificationReportModel) -> Option<Seq<char>> {
    if failures(report.deliveries) > 0 {
        Some(delivery_failure_text(failures(report.deliveries), report.attempted))
    } else {
        None
    }
}

pub fn notification_error(report: &NotificationReport) -> (res: Option<String>)
    ensures
        optional_text(res) == delivery_fault(report@),
{
    let failed: usize = report.failed();
    if failed > 0 {
        Some(render_delivery_failure(failed, report.attempted))
    } else {
        None
    }
}

/// The error that a command ends with. A run that failed stays failed, and a
/// failed notification fails the command only where the configuration says so.
pub open spec fn final_fault(
    run: Option<Fault>,
    notification: Option<Seq<char>>,
    fail_on_error: bool,
) -> Option<Fault> {
    match (run, notification) {
        (Some(fault), _) => Some(fault),
        (None, Some(message)) => if fail_on_error {
            Some(plain(message))
        } else {
            None
        },
        (None, None) => None,
    }
}

pub fn conclude(
    run: Result<(), Error>,
    notification: Option<String>,
    fail_on_error: bool,
) -> (res: Result<(), Error>)
    ensures
        match run {
            Ok(_) => reports(res, final_fault(None, optional_text(notification), fail_on_error)),
            Err(e) => reports(
                res,
                final_fault(Some(e@), optional_text(notification), fail_on_error),
            ),
        },
{
    match run {
        Err(e) => Err(e),
        Ok(_) => match notification {
            Some(message) => if fail_on_error {
                Err(Error::new(message))
            } else {
                Ok(())
            },
            None => Ok(()),
        },
    }
}

pub fn print_notify_test(report: &NotificationReport) -> (res: String)
    ensures
        res@ == test_line(report@.delivered, report@.attempted, report@.skipped),
{
    render_test(report.delivered, report.attempted, report.skipped)
}

/// The error that a test ends with.
pub open spec fn test_fault(report: NotificationReportModel) -> Option<Seq<char>> {
    if report.attempted == 0 {
        Some("no enabled notification webhooks are configured"@)
    } else if failures(report.deliveries) > 0 {
        Some(
            decimal(failures(report.deliveries)) + " webhook test delivery attempt(s) failed"@,
        )
    } else {
        None
    }
}

pub fn check_notify_test(report: &NotificationReport) -> (res: Result<(), Error>)
    ensures
        reports(res, test_fault(report@)),
{
    if report.attempted == 0 {
        return Err(error("no enabled notification webhooks are configured"));
    }
    let failed: usize = report.failed();
    if failed > 0 {
        let mut message = number(failed as u64);
        message.append(" webhook test delivery attempt(s) failed");
        return Err(Error::new(message));
    }
    Ok(())
}

// ---------------------------------------------------------------------------
// Status
// ---------------------------------------------------------------------------


/// Where a status comes from.
pub open spec fn source_line(source: Seq<char>, path: Seq<char>) -> Seq<char> {
    "status source: "@ + source + " ("@ + path + ")"@
}

fn render_source(source: &str, path: &str) -> (res: String)
    ensures
        res@ == source_line(source@, path@),
{
    let mut res = "status source: ".to_owned();
    res.append(source);
    res.append(" (");
    res.append(path);
    res.append(")");
    res
}

/// When a status was taken.
pub open spec fn updated_line(moment: Seq<char>, age: Seq<char>) -> Seq<char> {
    "updated: "@ + moment + " ("@ + age + ")"@
}

fn render_updated(moment: &str, age: &str) -> (res: String)
    ensures
        res@ == updated_line(moment@, age@),
{
    let mut res = "updated: ".to_owned();
    res.append(moment);
    res.append(" (");
    res.append(age);
    res.append(")");
    res
}

/// What a status covers.
pub open spec fn scope_line(roots: nat, milliseconds: nat) -> Seq<char> {
    "scope: "@ + decimal(roots) + " configured root(s), inventory scan "@ + decimal(milliseconds) + " ms"@
}

fn render_scope(roots: usize, milliseconds: u64) -> (res: String)
    ensures
        res@ == scope_line(roots as nat, milliseconds as nat),
{
    let mut res = "scope: ".to_owned();
    res.append(number(roots as u64).as_str());
    res.append(" configured root(s), inventory scan ");
    res.append(number(milliseconds).as_str());
    res.append(" ms");
    res
}

/// The pools of a status.
pub open spec fn pools_line(count: nat, names: Seq<char>) -> Seq<char> {
    "zpools: "@ + decimal(count) + " ("@ + names + ")"@
}

fn render_pools(count: usize, names: &str) -> (res: String)
    ensures
        res@ == pools_line(count as nat, names@),
{
    let mut res = "zpools: ".to_owned();
    res.append(number(count as u64).as_str());
    res.append(" (");
    res.append(names);
    res.append(")");
    res
}

/// The datasets of a status.
pub open spec fn datasets_line(count: nat) -> Seq<char> {
    "datasets: "@ + decimal(count)
}

fn render_datasets(count: usize) -> (res: String)
    ensures
        res@ == datasets_line(count as nat),
{
    let mut res = "datasets: ".to_owned();
    res.append(number(count as u64).as_str());
    res
}

/// The snapshots of a status.
pub open spec fn snapshots_line(count: nat, managed: nat, other: nat) -> Seq<char> {
    "snapshots: "@ + decimal(count) + " ("@ + decimal(managed) + " zsnap-managed, "@ + decimal(other) + " other)"@
}

fn render_snapshots(count: usize, managed: usize, other: usize) -> (res: String)
    ensures
        res@ == snapshots_line(count as nat, managed as nat, other as nat),
{
    let mut res = "snapshots: ".to_owned();
    res.append(number(count as u64).as_str());
    res.append(" (");
    res.append(number(managed as u64).as_str());
    res.append(" zsnap-managed, ");
    res.append(number(other as u64).as_str());
    res.append(" other)");
    res
}

/// One pool of a status.
pub open spec fn pool_line(name: Seq<char>, capacity: Seq<char>, datasets: nat, snapshots: nat, managed: nat) -> Seq<char> {
    "  "@ + name + ": "@ + capacity + ", "@ + decimal(datasets) + " dataset(s), "@ + decimal(snapshots) + " snapshot(s) ("@ + decimal(managed) + " managed)"@
}

fn render_pool(name: &str, capacity: &str, datasets: usize, snapshots: usize, managed: usize) -> (res: String)
    ensures
        res@ == pool_line(name@, capacity@, datasets as nat, snapshots as nat, managed as nat),
{
    let mut res = "  ".to_owned();
    res.append(name);
    res.append(": ");
    res.append(capacity);
    res.append(", ");
    res.append(number(datasets as u64).as_str());
    res.append(" dataset(s), ");
    res.append(number(snapshots as u64).as_str());
    res.append(" snapshot(s) (");
    res.append(number(managed as u64).as_str());
    res.append(" managed)");
    res
}

/// One dataset of a status.
pub open spec fn dataset_line(name: Seq<char>, snapshots: nat, managed: nat) -> Seq<char> {
    "  "@ + name + ": "@ + decimal(snapshots) + " snapshot(s) ("@ + decimal(managed) + " managed)"@
}

fn render_dataset(name: &str, snapshots: usize, managed: usize) -> (res: String)
    ensures
        res@ == dataset_line(name@, snapshots as nat, managed as nat),
{
    let mut res = "  ".to_owned();
    res.append(name);
    res.append(": ");
    res.append(number(snapshots as u64).as_str());
    res.append(" snapshot(s) (");
    res.append(number(managed as u64).as_str());
    res.append(" managed)");
    res
}

/// How long ago a status was taken.
pub open spec fn age_text(seconds: int) -> Seq<char> {
    if seconds < 0 {
        decimal((-seconds) as nat) + " s in the future"@
    } else if seconds < 60 {
        decimal(seconds as nat) + " s ago"@
    } else if seconds < 3_600 {
        decimal((seconds / 60) as nat) + " min ago"@
    } else if seconds < 86_400 {
        decimal((seconds / 3_600) as nat) + " h ago"@
    } else {
        decimal((seconds / 86_400) as nat) + " d ago"@
    }
}

pub fn format_cache_age(seconds: i64) -> (res: String)
    ensures
        res@ == age_text(seconds as int),
{
    let (count, unit): (u64, &str) = if seconds < 0 {
        (
            if seconds == i64::MIN {
                0x8000_0000_0000_0000
            } else {
                (-seconds) as u64
            },
            " s in the future",
        )
    } else if seconds < 60 {
        (seconds as u64, " s ago")
    } else if seconds < 3_600 {
        (seconds as u64 / 60, " min ago")
    } else if seconds < 86_400 {
        (seconds as u64 / 3_600, " h ago")
    } else {
        (seconds as u64 / 86_400, " d ago")
    };
    let mut res = number(count);
    res.append(unit);
    res
}

pub open spec fn pool_names(pools: Seq<PoolStatusModel>) -> Seq<Seq<char>> {
    pools.map_values(|pool: PoolStatusModel| pool.name)
}

pub open spec fn capacity_text(capacity: Option<u8>) -> Seq<char> {
    match capacity {
        Some(percent) => decimal(percent as nat) + "% capacity"@,
        None => "capacity unavailable"@,
    }
}

pub open spec fn pool_lines(pools: Seq<PoolStatusModel>) -> Seq<Seq<char>> {
    pools.map_values(
        |pool: PoolStatusModel|
            pool_line(
                pool.name,
                capacity_text(pool.capacity_percent),
                pool.datasets as nat,
                pool.snapshots as nat,
                pool.managed_snapshots as nat,
            ),
    )
}

pub open spec fn dataset_lines(datasets: Seq<DatasetStatusModel>) -> Seq<Seq<char>> {
    datasets.map_values(
        |dataset: DatasetStatusModel|
            dataset_line(
                dataset.name,
                dataset.snapshots as nat,
                dataset.managed_snapshots as nat,
            ),
    )
}

/// How many snapshots others manage.
pub open spec fn other_snapshots(cache: CacheModel) -> nat {
    if cache.totals.managed_snapshots <= cache.totals.snapshots {
        (cache.totals.snapshots - cache.totals.managed_snapshots) as nat
    } else {
        0
    }
}

/// A status for the administrator to read. The caller renders the moment in
/// the configured time zone.
pub open spec fn status_text(
    cache: CacheModel,
    source: Seq<char>,
    path: Seq<char>,
    moment: Seq<char>,
    age: int,
    verbose: bool,
) -> Seq<Seq<char>> {
    let names = join(pool_names(cache.pools), ", "@);
    let summary = seq![
        source_line(source, path),
        updated_line(moment, age_text(age)),
        scope_line(cache.scope_roots.len(), cache.inventory_scan_milliseconds as nat),
        if names.len() == 0 {
            "zpools: 0"@
        } else {
            pools_line(cache.totals.pools as nat, names)
        },
        datasets_line(cache.totals.datasets as nat),
        snapshots_line(
            cache.totals.snapshots as nat,
            cache.totals.managed_snapshots as nat,
            other_snapshots(cache),
        ),
    ];
    if verbose {
        summary + seq!["pool details:"@] + pool_lines(cache.pools) + seq!["dataset details:"@]
            + dataset_lines(cache.datasets)
    } else {
        summary
    }
}

fn list_pool_names(cache: &StatusCache) -> (res: Vec<String>)
    ensures
        texts(res@) == pool_names(cache@.pools),
{
    let ghost all = pool_names(cache@.pools);
    let mut names: Vec<String> = Vec::new();
    let mut i: usize = 0;
    assert(texts(names@) =~= all.take(0));
    while i < cache.pools.len()
        invariant
            i <= cache.pools@.len(),
            all == pool_names(cache@.pools),
            texts(names@) == all.take(i as int),
        decreases cache.pools.len() - i,
    {
        assert(cache@.pools[i as int] == cache.pools@[i as int]@);
        assert(all.take(i + 1) =~= all.take(i as int).push(all[i as int]));
        add_line(&mut names, cache.pools[i].name.clone());
        i += 1;
    }
    assert(all.take(i as int) =~= all);
    names
}

fn add_pools(lines: &mut Vec<String>, cache: &StatusCache)
    ensures
        texts(final(lines)@) == texts(old(lines)@) + pool_lines(cache@.pools),
{
    let ghost start = texts(lines@);
    let ghost all = pool_lines(cache@.pools);
    let mut i: usize = 0;
    assert(start + all.take(0) =~= start);
    while i < cache.pools.len()
        invariant
            i <= cache.pools@.len(),
            all == pool_lines(cache@.pools),
            texts(lines@) == start + all.take(i as int),
        decreases cache.pools.len() - i,
    {
        let pool = &cache.pools[i];
        assert(cache@.pools[i as int] == pool@);
        assert(start + all.take(i + 1) =~= (start + all.take(i as int)).push(all[i as int]));
        let capacity = match pool.capacity_percent {
            Some(percent) => {
                let mut text = number(percent as u64);
                text.append("% capacity");
                text
            },
            None => "capacity unavailable".to_owned(),
        };
        add_line(
            lines,
            render_pool(
                pool.name.as_str(),
                capacity.as_str(),
                pool.datasets,
                pool.snapshots,
                pool.managed_snapshots,
            ),
        );
        i += 1;
    }
    assert(all.take(i as int) =~= all);
}

fn add_datasets(lines: &mut Vec<String>, cache: &StatusCache)
    ensures
        texts(final(lines)@) == texts(old(lines)@) + dataset_lines(cache@.datasets),
{
    let ghost start = texts(lines@);
    let ghost all = dataset_lines(cache@.datasets);
    let mut i: usize = 0;
    assert(start + all.take(0) =~= start);
    while i < cache.datasets.len()
        invariant
            i <= cache.datasets@.len(),
            all == dataset_lines(cache@.datasets),
            texts(lines@) == start + all.take(i as int),
        decreases cache.datasets.len() - i,
    {
        let dataset = &cache.datasets[i];
        assert(cache@.datasets[i as int] == dataset@);
        assert(start + all.take(i + 1) =~= (start + all.take(i as int)).push(all[i as int]));
        add_line(
            lines,
            render_dataset(dataset.name.as_str(), dataset.snapshots, dataset.managed_snapshots),
        );
        i += 1;
    }
    assert(all.take(i as int) =~= all);
}

pub fn print_status(
    cache: &StatusCache,
    source: &str,
    path: &str,
    moment: &str,
    age: i64,
    verbose: bool,
) -> (res: Vec<String>)
    ensures
        texts(res@) == status_text(cache@, source@, path@, moment@, age as int, verbose),
{
    let mut lines: Vec<String> = Vec::new();
    let names = joined(&list_pool_names(cache), ", ");
    let managed: usize = cache.totals.managed_snapshots;
    let other: usize = if managed <= cache.totals.snapshots {
        cache.totals.snapshots - managed
    } else {
        0
    };
    lines.push(render_source(source, path));
    lines.push(render_updated(moment, format_cache_age(age).as_str()));
    lines.push(render_scope(cache.scope_roots.len(), cache.inventory_scan_milliseconds));
    lines.push(
        if names.as_str().is_empty() {
            "zpools: 0".to_owned()
        } else {
            render_pools(cache.totals.pools, names.as_str())
        },
    );
    lines.push(render_datasets(cache.totals.datasets));
    lines.push(render_snapshots(cache.totals.snapshots, managed, other));
    let ghost summary = texts(lines@);
    assert(summary =~= status_text(cache@, source@, path@, moment@, age as int, false));
    if verbose {
        let heading = "pool details:".to_owned();
        assert(summary.push(heading@) =~= summary + seq![heading@]);
        add_line(&mut lines, heading);
        add_pools(&mut lines, cache);
        let ghost shown = texts(lines@);
        let heading = "dataset details:".to_owned();
        assert(shown.push(heading@) =~= shown + seq![heading@]);
        add_line(&mut lines, heading);
        add_datasets(&mut lines, cache);
    }
    lines
}

/// Whether the status is taken anew, and where it is then said to come from.
pub open spec fn status_source(refresh: bool, cached: bool) -> (bool, Seq<char>) {
    if refresh {
        (true, "refreshed"@)
    } else if !cached {
        (true, "created"@)
    } else {
        (false, "cache"@)
    }
}

pub fn choose_status_source(refresh: bool, cached: bool) -> (res: (bool, &'static str))
    ensures
        (res.0, res.1@) == status_source(refresh, cached),
{
    if refresh {
        (true, "refreshed")
    } else if !cached {
        (true, "created")
    } else {
        (false, "cache")
    }
}

// ---------------------------------------------------------------------------
// Checks, migrations and the lock
// ---------------------------------------------------------------------------


/// What a check without a look at ZFS found.
pub open spec fn checked_line(configured: nat) -> Seq<char> {
    "configuration is valid ("@ + decimal(configured) + " configured dataset(s))"@
}

fn render_checked(configured: usize) -> (res: String)
    ensures
        res@ == checked_line(configured as nat),
{
    let mut res = "configuration is valid (".to_owned();
    res.append(number(configured as u64).as_str());
    res.append(" configured dataset(s))");
    res
}

/// What a check against ZFS found.
pub open spec fn probed_line(configured: nat, resolved: nat, pools: nat) -> Seq<char> {
    "configuration is valid; "@ + decimal(configured) + " configured dataset(s) resolve to "@ + decimal(resolved) + " dataset(s) across "@ + decimal(pools) + " pool(s)"@
}

fn render_probed(configured: usize, resolved: usize, pools: usize) -> (res: String)
    ensures
        res@ == probed_line(configured as nat, resolved as nat, pools as nat),
{
    let mut res = "configuration is valid; ".to_owned();
    res.append(number(configured as u64).as_str());
    res.append(" configured dataset(s) resolve to ");
    res.append(number(resolved as u64).as_str());
    res.append(" dataset(s) across ");
    res.append(number(pools as u64).as_str());
    res.append(" pool(s)");
    res
}

/// What a migration wrote.
pub open spec fn migrated_line(path: Seq<char>, datasets: nat, templates: nat, warnings: nat) -> Seq<char> {
    "wrote validated zsnap configuration to "@ + path + " ("@ + decimal(datasets) + " dataset(s), "@ + decimal(templates) + " template(s), "@ + decimal(warnings) + " warning(s)); source unchanged; no ZFS commands run"@
}

fn render_migrated(path: &str, datasets: usize, templates: usize, warnings: usize) -> (res: String)
    ensures
        res@ == migrated_line(path@, datasets as nat, templates as nat, warnings as nat),
{
    let mut res = "wrote validated zsnap configuration to ".to_owned();
    res.append(path);
    res.append(" (");
    res.append(number(datasets as u64).as_str());
    res.append(" dataset(s), ");
    res.append(number(templates as u64).as_str());
    res.append(" template(s), ");
    res.append(number(warnings as u64).as_str());
    res.append(" warning(s)); source unchanged; no ZFS commands run");
    res
}

/// Another process holds the lock.
pub open spec fn held_text(path: Seq<char>, cause: Seq<char>) -> Seq<char> {
    "another zsnap process holds "@ + path + ": "@ + cause
}

fn render_held(path: &str, cause: &str) -> (res: String)
    ensures
        res@ == held_text(path@, cause@),
{
    let mut res = "another zsnap process holds ".to_owned();
    res.append(path);
    res.append(": ");
    res.append(cause);
    res
}

/// Another process, which is known, holds the lock.
pub open spec fn held_by_text(holder: Seq<char>, path: Seq<char>, cause: Seq<char>) -> Seq<char> {
    "another zsnap process (PID "@ + holder + ") holds "@ + path + ": "@ + cause
}

fn render_held_by(holder: &str, path: &str, cause: &str) -> (res: String)
    ensures
        res@ == held_by_text(holder@, path@, cause@),
{
    let mut res = "another zsnap process (PID ".to_owned();
    res.append(holder);
    res.append(") holds ");
    res.append(path);
    res.append(": ");
    res.append(cause);
    res
}

/// What a check found; `probed` holds how many datasets and pools there are
/// where ZFS was asked.
pub fn print_check(configured: usize, probed: Option<(usize, usize)>) -> (res: String)
    ensures
        res@ == (match probed {
            Some((resolved, pools)) => probed_line(
                configured as nat,
                resolved as nat,
                pools as nat,
            ),
            None => checked_line(configured as nat),
        }),
{
    match probed {
        Some((resolved, pools)) => render_probed(configured, resolved, pools),
        None => render_checked(configured),
    }
}

/// The warnings of a migration, with one in front where no defaults file was
/// found.
pub open spec fn migration_warnings(warnings: Seq<Seq<char>>, defaults: bool) -> Seq<Seq<char>> {
    if defaults {
        warnings
    } else {
        seq![
            "sanoid.defaults.conf was not supplied or found beside the input; used embedded Sanoid 2.x defaults"@,
        ] + warnings
    }
}

pub fn note_defaults(migration: SanoidMigration, defaults: bool) -> (res: SanoidMigration)
    ensures
        res@ == (MigrationModel {
            warnings: migration_warnings(migration@.warnings, defaults),
            ..migration@
        }),
{
    let SanoidMigration { config_toml, mut warnings, datasets, templates } = migration;
    if !defaults {
        let ghost found = warnings@;
        let warning =
            "sanoid.defaults.conf was not supplied or found beside the input; used embedded Sanoid 2.x defaults".to_owned();
        warnings.insert(0, warning);
        assert(texts(warnings@) =~= seq![warning@] + texts(found));
    }
    SanoidMigration { config_toml, warnings, datasets, templates }
}

pub fn print_migration_warnings(migration: &SanoidMigration) -> (res: Vec<String>)
    ensures
        texts(res@) == migration@.warnings.map_values(
            |text: Seq<char>| "MIGRATION WARNING: "@ + text,
        ),
{
    with_heading("MIGRATION WARNING: ", &migration.warnings)
}

pub fn print_migration(migration: &SanoidMigration, path: &str) -> (res: String)
    ensures
        res@ == migrated_line(
            path@,
            migration@.datasets,
            migration@.templates,
            migration@.warnings.len(),
        ),
{
    render_migrated(path, migration.datasets, migration.templates, migration.warnings.len())
}

/// Why the lock could not be taken; `holder` is what its file says.
pub open spec fn lock_conflict(holder: Seq<char>, path: Seq<char>, cause: Seq<char>) -> Seq<char> {
    if trim(holder).len() == 0 {
        held_text(path, cause)
    } else {
        held_by_text(trim(holder), path, cause)
    }
}

pub fn describe_lock_conflict(holder: &str, path: &str, cause: &str) -> (res: String)
    ensures
        res@ == lock_conflict(holder@, path@, cause@),
{
    let holder = trimmed(holder);
    if holder.as_str().is_empty() {
        render_held(path, cause)
    } else {
        render_held_by(holder.as_str(), path, cause)
    }
}

} // verus!
