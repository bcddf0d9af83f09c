//! What the administrator and the webhooks are told: every action of a plan, every
//! failure, and the message as it is.
use vstd::prelude::*;

use crate::command::{age_text, capacity_text, create_lines, dataset_lines, defer_lines, delivery_errors, delivery_fault, lock_conflict, other_snapshots, plan_text, pool_lines, protect_lines, prune_lines, report_errors, report_text, status_source, status_text, test_fault};
use crate::executor::ReportModel;
use crate::names::lookup;
use crate::notification::{failures, resolved_url, DeliveryModel, NotificationReportModel};
use crate::payload::{payload_value, JsonModel};
use crate::planner::{PlanModel, ProtectedModel, PruneActionModel, SnapshotActionModel};
use crate::readback::law_numerals_are_read_back;
use crate::status::{temporary_text, CacheModel};
use crate::text::{decimal, join, trim};
use crate::webhook::{uri_parts, WebhookKind, WebhookModel};

verus! {

/// Whether a text has a part at some place.
pub open spec fn has_part_at(s: Seq<char>, part: Seq<char>, at: int) -> bool {
    0 <= at && at + part.len() <= s.len() && s.subrange(at, at + part.len()) == part
}

/// Whether a text holds a part.
pub open spec fn holds_part(s: Seq<char>, part: Seq<char>) -> bool {
    exists|at: int| has_part_at(s, part, at)
}

proof fn lemma_holds(before: Seq<char>, part: Seq<char>, after: Seq<char>)
    ensures
        holds_part(before + part + after, part),
{
    let s = before + part + after;
    assert(s.subrange(before.len() as int, (before.len() + part.len()) as int) =~= part);
    assert(has_part_at(s, part, before.len() as int));
}

proof fn lemma_holds_more(before: Seq<char>, s: Seq<char>, after: Seq<char>, part: Seq<char>)
    requires
        holds_part(s, part),
    ensures
        holds_part(before + s + after, part),
{
    let at = choose|at: int| has_part_at(s, part, at);
    let all = before + s + after;
    let place = before.len() + at;
    assert(all.subrange(place, place + part.len()) =~= s.subrange(at, at + part.len()));
    assert(has_part_at(all, part, place));
}

proof fn lemma_join_holds(parts: Seq<Seq<char>>, separator: Seq<char>, i: int)
    requires
        0 <= i < parts.len(),
    ensures
        holds_part(join(parts, separator), parts[i]),
    decreases parts.len(),
{
    let none = Seq::<char>::empty();
    if parts.len() == 1 {
        lemma_holds(none, parts[0], none);
        assert(none + parts[0] + none =~= parts[0]);
    } else if i == parts.len() - 1 {
        let before = join(parts.drop_last(), separator) + separator;
        lemma_holds(before, parts[i], none);
        assert(before + parts[i] + none =~= join(parts, separator));
    } else {
        let shorter = parts.drop_last();
        lemma_join_holds(shorter, separator, i);
        assert(shorter[i] == parts[i]);
        lemma_holds_more(none, join(shorter, separator), separator + parts.last(), parts[i]);
        assert(none + join(shorter, separator) + (separator + parts.last()) =~= join(
            parts,
            separator,
        ));
    }
}

// ---------------------------------------------------------------------------
// Plans
// ---------------------------------------------------------------------------

/// The line about snapshots to take tells the pool, the dataset and every name, and
/// whether the children are taken too.
pub proof fn law_creation_lines_are_complete(
    actions: Seq<SnapshotActionModel>,
    i: int,
    j: int,
)
    requires
        0 <= i < actions.len(),
        0 <= j < actions[i].names.len(),
    ensures
        create_lines(actions).len() == actions.len(),
        ({
            let line = create_lines(actions)[i];
            let action = actions[i];
            let plain = SnapshotActionModel { recursive: false, ..action };
            &&& holds_part(line, "CREATE"@)
            &&& holds_part(line, action.pool)
            &&& holds_part(line, action.dataset)
            &&& holds_part(line, action.names[j])
            &&& action.recursive ==> holds_part(line, " recursively"@)
            &&& action.recursive <==> line != create_lines(actions.update(i, plain))[i]
        }),
{
    let action = actions[i];
    let line = create_lines(actions)[i];
    let head = "  CREATE ["@;
    let recursion = if action.recursive {
        " recursively"@
    } else {
        ""@
    };
    let names = join(action.names, ", "@);
    let none = Seq::<char>::empty();
    reveal_strlit("  CREATE [");
    reveal_strlit("CREATE");
    reveal_strlit(" recursively");
    reveal_strlit("");
    lemma_holds("  CREATE ["@.take(2), "CREATE"@, "  CREATE ["@.skip(8));
    assert("  CREATE ["@.take(2) + "CREATE"@ + "  CREATE ["@.skip(8) =~= head);
    let after_head = action.pool + "] "@ + action.dataset + recursion + " @ "@ + names;
    lemma_holds_more(none, head, after_head, "CREATE"@);
    assert(none + head + after_head =~= line);
    let after_pool = "] "@ + action.dataset + recursion + " @ "@ + names;
    lemma_holds(head, action.pool, after_pool);
    assert(head + action.pool + after_pool =~= line);
    let to_dataset = head + action.pool + "] "@;
    let after_dataset = recursion + " @ "@ + names;
    lemma_holds(to_dataset, action.dataset, after_dataset);
    assert(to_dataset + action.dataset + after_dataset =~= line);
    lemma_holds(to_dataset + action.dataset, recursion, " @ "@ + names);
    assert(to_dataset + action.dataset + recursion + (" @ "@ + names) =~= line);
    let to_names = to_dataset + action.dataset + recursion + " @ "@;
    lemma_join_holds(action.names, ", "@, j);
    lemma_holds_more(to_names, names, none, action.names[j]);
    assert(to_names + names + none =~= line);
    let plain = SnapshotActionModel { recursive: false, ..action };
    let other = create_lines(actions.update(i, plain))[i];
    assert(other == to_dataset + action.dataset + ""@ + " @ "@ + names);
}

/// The line about snapshots to destroy tells the pool, the dataset and every name.
pub proof fn law_prune_lines_are_complete(actions: Seq<PruneActionModel>, i: int, j: int)
    requires
        0 <= i < actions.len(),
        0 <= j < actions[i].names.len(),
    ensures
        prune_lines(actions).len() == actions.len(),
        holds_part(prune_lines(actions)[i], "PRUNE"@),
        holds_part(prune_lines(actions)[i], actions[i].pool),
        holds_part(prune_lines(actions)[i], actions[i].dataset),
        holds_part(prune_lines(actions)[i], actions[i].names[j]),
{
    let action = actions[i];
    let line = prune_lines(actions)[i];
    let head = "  PRUNE  ["@;
    let names = join(action.names, ", "@);
    let none = Seq::<char>::empty();
    reveal_strlit("  PRUNE  [");
    reveal_strlit("PRUNE");
    lemma_holds(head.take(2), "PRUNE"@, head.skip(7));
    assert(head.take(2) + "PRUNE"@ + head.skip(7) =~= head);
    let after_head = action.pool + "] "@ + action.dataset + " @ "@ + names;
    lemma_holds_more(none, head, after_head, "PRUNE"@);
    assert(none + head + after_head =~= line);
    let after_pool = "] "@ + action.dataset + " @ "@ + names;
    lemma_holds(head, action.pool, after_pool);
    assert(head + action.pool + after_pool =~= line);
    let to_dataset = head + action.pool + "] "@;
    lemma_holds(to_dataset, action.dataset, " @ "@ + names);
    assert(to_dataset + action.dataset + (" @ "@ + names) =~= line);
    let to_names = to_dataset + action.dataset + " @ "@;
    lemma_join_holds(action.names, ", "@, j);
    lemma_holds_more(to_names, names, none, action.names[j]);
    assert(to_names + names + none =~= line);
}

proof fn lemma_both_reasons()
    ensures
        " user hold(s) and one or more dependent clones"@ == " user hold(s)"@
            + " and one or more dependent clones"@,
        " user hold(s) and one or more dependent clones"@ == " user hold(s) and "@
            + "one or more dependent clones"@,
{
    reveal_strlit(" user hold(s)");
    reveal_strlit(" and one or more dependent clones");
    reveal_strlit(" user hold(s) and ");
    reveal_strlit("one or more dependent clones");
    reveal_strlit(" user hold(s) and one or more dependent clones");
    assert(" user hold(s) and one or more dependent clones"@ =~= " user hold(s)"@
        + " and one or more dependent clones"@);
    assert(" user hold(s) and one or more dependent clones"@ =~= " user hold(s) and "@
        + "one or more dependent clones"@);
}

/// The line about a protected snapshot tells its full name, and how many holds it
/// has where it has any.
pub proof fn law_protection_lines_are_complete(snapshots: Seq<ProtectedModel>, i: int)
    requires
        0 <= i < snapshots.len(),
    ensures
        protect_lines(snapshots).len() == snapshots.len(),
        holds_part(
            protect_lines(snapshots)[i],
            snapshots[i].dataset + "@"@ + snapshots[i].name,
        ),
        snapshots[i].user_holds > 0 ==> holds_part(
            protect_lines(snapshots)[i],
            decimal(snapshots[i].user_holds as nat) + " user hold(s)"@,
        ),
        snapshots[i].has_clones || snapshots[i].user_holds == 0 ==> holds_part(
            protect_lines(snapshots)[i],
            "one or more dependent clones"@,
        ),
{
    let snapshot = snapshots[i];
    let line = protect_lines(snapshots)[i];
    let reason = crate::command::protection(snapshot);
    let head = "  PROTECT ["@ + snapshot.pool + "] "@;
    let name = snapshot.dataset + "@"@ + snapshot.name;
    let none = Seq::<char>::empty();
    lemma_holds(head, name, ": "@ + reason);
    assert(head + name + (": "@ + reason) =~= line);
    let before = head + name + ": "@;
    assert(before + reason + none =~= line);
    let holds = decimal(snapshot.user_holds as nat) + " user hold(s)"@;
    let clones = "one or more dependent clones"@;
    if snapshot.user_holds > 0 && snapshot.has_clones {
        lemma_both_reasons();
        lemma_holds(none, holds, " and one or more dependent clones"@);
        assert(none + holds + " and one or more dependent clones"@ =~= reason);
        let to_clones = decimal(snapshot.user_holds as nat) + " user hold(s) and "@;
        lemma_holds(to_clones, clones, none);
        assert(to_clones + clones + none =~= reason);
    } else if snapshot.user_holds > 0 {
        lemma_holds(none, holds, none);
        assert(none + holds + none =~= reason);
    } else {
        lemma_holds(none, clones, none);
        assert(none + clones + none =~= reason);
    }
    if snapshot.user_holds > 0 {
        lemma_holds_more(before, reason, none, holds);
    }
    if snapshot.has_clones || snapshot.user_holds == 0 {
        lemma_holds_more(before, reason, none, clones);
    }
}

/// A plan is shown with one heading and one line for each action, for each dataset
/// that waits and for each protected snapshot, in this order.
pub proof fn law_plan_text_leaves_nothing_out(plan: PlanModel)
    ensures
        ({
            let text = plan_text(plan);
            let taken = 1 + plan.snapshots.len();
            let pruned = taken + plan.prunes.len();
            let deferred = pruned + plan.deferred_prune_datasets.len();
            &&& text.len() == deferred + plan.protected_snapshots.len()
            &&& text.subrange(1, taken as int) == create_lines(plan.snapshots)
            &&& text.subrange(taken as int, pruned as int) == prune_lines(plan.prunes)
            &&& text.subrange(pruned as int, deferred as int) == defer_lines(
                plan.deferred_prune_datasets,
            )
            &&& text.skip(deferred as int) == protect_lines(plan.protected_snapshots)
        }),
{
    let text = plan_text(plan);
    let taken = 1 + plan.snapshots.len();
    let pruned = taken + plan.prunes.len();
    let deferred = pruned + plan.deferred_prune_datasets.len();
    assert(text.subrange(1, taken as int) =~= create_lines(plan.snapshots));
    assert(text.subrange(taken as int, pruned as int) =~= prune_lines(plan.prunes));
    assert(text.subrange(pruned as int, deferred as int) =~= defer_lines(
        plan.deferred_prune_datasets,
    ));
    assert(text.skip(deferred as int) =~= protect_lines(plan.protected_snapshots));
}

// ---------------------------------------------------------------------------
// Reports
// ---------------------------------------------------------------------------

/// Every error of a run is shown, in its order; one more line says how many prunes
/// were given up after a failure, where any were.
pub proof fn law_errors_are_shown(report: ReportModel, i: int)
    requires
        0 <= i < report.errors.len(),
    ensures
        report_errors(report)[i] == "ERROR: "@ + report.errors[i],
        report_errors(report).len() == report.errors.len() + (
        if report.prunes_skipped_after_snapshot_failure > 0 {
            1int
        } else {
            0int
        }),
{
}

/// What a run logged is shown where it was asked for, and always of a dry run; the
/// last line sums the run up, and says the same either way.
pub proof fn law_logs_are_shown_on_request(plan: PlanModel, report: ReportModel)
    ensures
        ({
            let full = report_text(plan, report, true);
            let short = report_text(plan, report, false);
            &&& full.take(report.logs.len() as int) == report.logs
            &&& report.dry_run ==> short == full
            &&& short.last() == full.last()
            &&& !report.dry_run ==> short.len() == 1 + (if plan.protected_snapshots.len() > 0 {
                1int
            } else {
                0int
            })
            &&& full.len() == report.logs.len() + 1 + (if plan.protected_snapshots.len() > 0 {
                1 + plan.protected_snapshots.len()
            } else {
                0
            })
        }),
{
    let full = report_text(plan, report, true);
    assert(full.take(report.logs.len() as int) =~= report.logs);
}

/// A status comes from the cache exactly where there is one and no new one is asked
/// for; that it was refreshed is said exactly where it was asked for.
pub proof fn law_cache_serves_unless_refreshed(refresh: bool, cached: bool)
    ensures
        status_source(refresh, cached).0 <==> refresh || !cached,
        status_source(refresh, cached).1 == "cache"@ <==> cached && !refresh,
        status_source(refresh, cached).1 == "refreshed"@ <==> refresh,
        status_source(refresh, cached).1 == "created"@ <==> !cached && !refresh,
{
    reveal_strlit("cache");
    reveal_strlit("refreshed");
    reveal_strlit("created");
    assert("cache"@.len() == 5 && "refreshed"@.len() == 9 && "created"@.len() == 7);
}

/// The status in full starts as the short one does, which is six lines; behind it
/// come a line for each pool and one for each dataset, each under its title.
pub proof fn law_full_status_goes_on_from_the_short_one(
    cache: CacheModel,
    source: Seq<char>,
    path: Seq<char>,
    moment: Seq<char>,
    age: int,
)
    ensures
        ({
            let short = status_text(cache, source, path, moment, age, false);
            let full = status_text(cache, source, path, moment, age, true);
            let pools = cache.pools.len() as int;
            &&& short.len() == 6
            &&& full.take(6) == short
            &&& full.len() == 6 + 1 + pools + 1 + cache.datasets.len()
            &&& full[6] == "pool details:"@
            &&& full[7 + pools] == "dataset details:"@
        }),
{
    let short = status_text(cache, source, path, moment, age, false);
    let full = status_text(cache, source, path, moment, age, true);
    assert(full.take(6) =~= short);
}

proof fn lemma_two_held(a: Seq<char>, b: Seq<char>, c: Seq<char>, d: Seq<char>, e: Seq<char>)
    ensures
        holds_part(a + b + c + d + e, b),
        holds_part(a + b + c + d + e, d),
{
    lemma_holds(a, b, c + d + e);
    assert(a + b + (c + d + e) =~= a + b + c + d + e);
    lemma_holds(a + b + c, d, e);
}

proof fn lemma_snapshots_line(n: Seq<char>, m: Seq<char>, o: Seq<char>)
    ensures
        ({
            let line = "snapshots: "@ + n + " ("@ + m + " zsnap-managed, "@ + o + " other)"@;
            holds_part(line, "snapshots: "@ + n) && holds_part(line, m + " zsnap-managed, "@)
        }),
{
    let line = "snapshots: "@ + n + " ("@ + m + " zsnap-managed, "@ + o + " other)"@;
    let none = Seq::<char>::empty();
    let after = " ("@ + m + " zsnap-managed, "@ + o + " other)"@;
    lemma_holds(none, "snapshots: "@ + n, after);
    assert(none + ("snapshots: "@ + n) + after =~= line);
    let before = "snapshots: "@ + n + " ("@;
    lemma_holds(before, m + " zsnap-managed, "@, o + " other)"@);
    assert(before + (m + " zsnap-managed, "@) + (o + " other)"@) =~= line);
}

proof fn lemma_pool_line(
    name: Seq<char>,
    capacity: Seq<char>,
    d: Seq<char>,
    s: Seq<char>,
    m: Seq<char>,
)
    ensures
        ({
            let line = "  "@ + name + ": "@ + capacity + ", "@ + d + " dataset(s), "@ + s
                + " snapshot(s) ("@ + m + " managed)"@;
            &&& holds_part(line, name)
            &&& holds_part(line, capacity)
            &&& holds_part(line, d + " dataset(s), "@)
            &&& holds_part(line, s + " snapshot(s) ("@)
            &&& holds_part(line, m + " managed)"@)
        }),
{
    let line = "  "@ + name + ": "@ + capacity + ", "@ + d + " dataset(s), "@ + s
        + " snapshot(s) ("@ + m + " managed)"@;
    let none = Seq::<char>::empty();
    let numbers = d + " dataset(s), "@ + s + " snapshot(s) ("@ + m + " managed)"@;
    lemma_two_held("  "@, name, ": "@, capacity, ", "@ + numbers);
    assert("  "@ + name + ": "@ + capacity + (", "@ + numbers) =~= line);
    let to_d = "  "@ + name + ": "@ + capacity + ", "@;
    let after_d = s + " snapshot(s) ("@ + m + " managed)"@;
    lemma_holds(to_d, d + " dataset(s), "@, after_d);
    assert(to_d + (d + " dataset(s), "@) + after_d =~= line);
    let to_s = to_d + d + " dataset(s), "@;
    lemma_holds(to_s, s + " snapshot(s) ("@, m + " managed)"@);
    assert(to_s + (s + " snapshot(s) ("@) + (m + " managed)"@) =~= line);
    let to_m = to_s + s + " snapshot(s) ("@;
    lemma_holds(to_m, m + " managed)"@, none);
    assert(to_m + (m + " managed)"@) + none =~= line);
}

proof fn lemma_dataset_line(name: Seq<char>, s: Seq<char>, m: Seq<char>)
    ensures
        ({
            let line = "  "@ + name + ": "@ + s + " snapshot(s) ("@ + m + " managed)"@;
            &&& holds_part(line, name)
            &&& holds_part(line, s + " snapshot(s) ("@)
            &&& holds_part(line, m + " managed)"@)
        }),
{
    let line = "  "@ + name + ": "@ + s + " snapshot(s) ("@ + m + " managed)"@;
    let none = Seq::<char>::empty();
    let after = ": "@ + s + " snapshot(s) ("@ + m + " managed)"@;
    lemma_holds("  "@, name, after);
    assert("  "@ + name + after =~= line);
    let to_s = "  "@ + name + ": "@;
    lemma_holds(to_s, s + " snapshot(s) ("@, m + " managed)"@);
    assert(to_s + (s + " snapshot(s) ("@) + (m + " managed)"@) =~= line);
    let to_m = to_s + s + " snapshot(s) ("@;
    lemma_holds(to_m, m + " managed)"@, none);
    assert(to_m + (m + " managed)"@) + none =~= line);
}

/// The status tells where it comes from and when it was taken, each number of the
/// totals, and every pool and dataset by its name and with its numbers.
pub proof fn law_status_tells_its_numbers(
    cache: CacheModel,
    source: Seq<char>,
    path: Seq<char>,
    moment: Seq<char>,
    age: int,
    i: int,
    j: int,
)
    requires
        0 <= i < cache.pools.len(),
        0 <= j < cache.datasets.len(),
    ensures
        ({
            let text = status_text(cache, source, path, moment, age, true);
            let pool = text[7 + i];
            let dataset = text[8 + cache.pools.len() + j];
            &&& holds_part(text[0], source)
            &&& holds_part(text[0], path)
            &&& holds_part(text[1], moment)
            &&& holds_part(text[4], "datasets: "@ + decimal(cache.totals.datasets as nat))
            &&& holds_part(text[5], "snapshots: "@ + decimal(cache.totals.snapshots as nat))
            &&& holds_part(
                text[5],
                decimal(cache.totals.managed_snapshots as nat) + " zsnap-managed, "@,
            )
            &&& holds_part(pool, cache.pools[i].name)
            &&& holds_part(pool, decimal(cache.pools[i].datasets as nat) + " dataset(s), "@)
            &&& holds_part(pool, decimal(cache.pools[i].snapshots as nat) + " snapshot(s) ("@)
            &&& holds_part(pool, decimal(cache.pools[i].managed_snapshots as nat) + " managed)"@)
            &&& cache.pools[i].capacity_percent matches Some(percent) ==> holds_part(
                pool,
                decimal(percent as nat) + "% capacity"@,
            )
            &&& holds_part(dataset, cache.datasets[j].name)
            &&& holds_part(dataset, decimal(cache.datasets[j].snapshots as nat) + " snapshot(s) ("@)
            &&& holds_part(
                dataset,
                decimal(cache.datasets[j].managed_snapshots as nat) + " managed)"@,
            )
        }),
{
    let text = status_text(cache, source, path, moment, age, true);
    let pool = cache.pools[i];
    let dataset = cache.datasets[j];
    let none = Seq::<char>::empty();
    assert(text[7 + i] == pool_lines(cache.pools)[i]);
    assert(text[8 + cache.pools.len() + j] == dataset_lines(cache.datasets)[j]);
    lemma_two_held("status source: "@, source, " ("@, path, ")"@);
    lemma_two_held("updated: "@, moment, " ("@, age_text(age), ")"@);
    let datasets = "datasets: "@ + decimal(cache.totals.datasets as nat);
    lemma_holds(none, datasets, none);
    assert(none + datasets + none =~= datasets);
    lemma_snapshots_line(
        decimal(cache.totals.snapshots as nat),
        decimal(cache.totals.managed_snapshots as nat),
        decimal(other_snapshots(cache)),
    );
    lemma_pool_line(
        pool.name,
        capacity_text(pool.capacity_percent),
        decimal(pool.datasets as nat),
        decimal(pool.snapshots as nat),
        decimal(pool.managed_snapshots as nat),
    );
    lemma_dataset_line(
        dataset.name,
        decimal(dataset.snapshots as nat),
        decimal(dataset.managed_snapshots as nat),
    );
}

proof fn lemma_holds_last_two(a: Seq<char>, b: Seq<char>, c: Seq<char>, d: Seq<char>)
    ensures
        holds_part(a + b + c + d, b),
        holds_part(a + b + c + d, d),
{
    let none = Seq::<char>::empty();
    lemma_holds(a, b, c + d);
    assert(a + b + (c + d) =~= a + b + c + d);
    lemma_holds(a + b + c, d, none);
    assert(a + b + c + d + none =~= a + b + c + d);
}

proof fn lemma_holds_middle(
    a: Seq<char>,
    b: Seq<char>,
    c: Seq<char>,
    d: Seq<char>,
    e: Seq<char>,
    f: Seq<char>,
    g: Seq<char>,
    h: Seq<char>,
)
    ensures
        holds_part((a + b) + c + (d + e) + f + g + h, b + c + d),
{
    let after = e + f + g + h;
    lemma_holds(a, b + c + d, after);
    assert(a + (b + c + d) + after =~= (a + b) + c + (d + e) + f + g + h);
}

proof fn lemma_lock_words()
    ensures
        "another zsnap process (PID "@ == "another zsnap process "@ + "(PID "@,
        ") holds "@ == ")"@ + " holds "@,
{
    reveal_strlit("another zsnap process (PID ");
    reveal_strlit("another zsnap process ");
    reveal_strlit("(PID ");
    reveal_strlit(") holds ");
    reveal_strlit(" holds ");
    reveal_strlit(")");
    assert("another zsnap process (PID "@ =~= "another zsnap process "@ + "(PID "@);
    assert(") holds "@ =~= ")"@ + " holds "@);
}

/// A conflict over the lock names the file, and the process that holds it where it
/// is known.
pub proof fn law_lock_conflicts_name_the_holder(
    holder: Seq<char>,
    path: Seq<char>,
    cause: Seq<char>,
)
    ensures
        holds_part(lock_conflict(holder, path, cause), path),
        holds_part(lock_conflict(holder, path, cause), cause),
        trim(holder).len() > 0 ==> holds_part(
            lock_conflict(holder, path, cause),
            "(PID "@ + trim(holder) + ")"@,
        ),
        trim(holder).len() == 0 ==> lock_conflict(holder, path, cause) == lock_conflict(
            Seq::empty(),
            path,
            cause,
        ),
{
    if trim(holder).len() == 0 {
        assert(trim(Seq::<char>::empty()).len() == 0);
        lemma_holds_last_two("another zsnap process holds "@, path, ": "@, cause);
    } else {
        lemma_lock_words();
        let start = "another zsnap process (PID "@;
        lemma_holds_last_two(start + trim(holder) + ") holds "@, path, ": "@, cause);
        lemma_holds_middle(
            "another zsnap process "@,
            "(PID "@,
            trim(holder),
            ")"@,
            " holds "@,
            path,
            ": "@,
            cause,
        );
    }
}

// ---------------------------------------------------------------------------
// Notifications
// ---------------------------------------------------------------------------

/// Whether every delivery came through.
pub open spec fn all_came_through(deliveries: Seq<DeliveryModel>) -> bool {
    forall|i: int| 0 <= i < deliveries.len() ==> (#[trigger] deliveries[i]).error is None
}

proof fn lemma_no_failures(deliveries: Seq<DeliveryModel>)
    ensures
        failures(deliveries) == 0 <==> all_came_through(deliveries),
    decreases deliveries.len(),
{
    reveal(Seq::filter);
    if deliveries.len() > 0 {
        let earlier = deliveries.drop_last();
        lemma_no_failures(earlier);
        if all_came_through(deliveries) {
            assert(forall|i: int| 0 <= i < earlier.len() ==> earlier[i] == deliveries[i]);
        } else if deliveries.last().error is None {
            let i = choose|i: int|
                0 <= i < deliveries.len() && (#[trigger] deliveries[i]).error is Some;
            assert(earlier[i].error is Some);
        }
    }
}

/// A test of the webhooks succeeds exactly where there was something to deliver and
/// all of it came through; a run's notifications are at fault exactly where one did
/// not.
pub proof fn law_tests_succeed_when_all_came_through(report: NotificationReportModel)
    ensures
        test_fault(report) is None <==> report.attempted > 0 && all_came_through(
            report.deliveries,
        ),
        delivery_fault(report) is None <==> all_came_through(report.deliveries),
{
    lemma_no_failures(report.deliveries);
}

proof fn lemma_error_count(deliveries: Seq<DeliveryModel>, n: int)
    requires
        0 <= n <= deliveries.len(),
    ensures
        delivery_errors(deliveries, n).len() == failures(deliveries.take(n)),
    decreases n,
{
    reveal(Seq::filter);
    if n > 0 {
        lemma_error_count(deliveries, n - 1);
        let all = deliveries.take(n);
        assert(all.drop_last() =~= deliveries.take(n - 1));
        assert(all.last() == deliveries[n - 1]);
        assert(failures(all) == failures(all.drop_last()) + (if all.last().error is Some {
            1int
        } else {
            0int
        }));
    } else {
        assert(deliveries.take(0) =~= Seq::empty());
    }
}

/// A delivery that failed is shown with its target and the reason; one that came
/// through is not shown.
pub proof fn law_failed_deliveries_are_shown(deliveries: Seq<DeliveryModel>, n: int, i: int)
    requires
        0 <= i < n <= deliveries.len(),
    ensures
        delivery_errors(deliveries, n).len() == failures(deliveries.take(n)),
        deliveries[i].error matches Some(reason) ==> exists|k: int|
            0 <= k < delivery_errors(deliveries, n).len() && holds_part(
                #[trigger] delivery_errors(deliveries, n)[k],
                reason,
            ) && holds_part(delivery_errors(deliveries, n)[k], deliveries[i].target),
    decreases n,
{
    lemma_error_count(deliveries, n);
    let lines = delivery_errors(deliveries, n);
    let earlier = delivery_errors(deliveries, n - 1);
    if i < n - 1 {
        law_failed_deliveries_are_shown(deliveries, n - 1, i);
    }
    if i == n - 1 {
        if let Some(reason) = deliveries[i].error {
            let delivery = deliveries[i];
            let line = lines.last();
            let none = Seq::<char>::empty();
            let to_target = "NOTIFICATION ERROR ["@ + delivery.kind + ":"@;
            let after_target = " after "@ + decimal(delivery.attempts as nat)
                + " attempt(s)]: "@ + reason;
            lemma_holds(to_target, delivery.target, after_target);
            assert(to_target + delivery.target + after_target =~= line);
            let to_reason = to_target + delivery.target + " after "@ + decimal(
                delivery.attempts as nat,
            ) + " attempt(s)]: "@;
            lemma_holds(to_reason, reason, none);
            assert(to_reason + reason + none =~= line);
            assert(lines[lines.len() - 1] == line);
        }
    } else if let Some(reason) = deliveries[i].error {
        let k = choose|k: int|
            0 <= k < earlier.len() && holds_part(#[trigger] earlier[k], reason) && holds_part(
                earlier[k],
                deliveries[i].target,
            );
        assert(lines[k] == earlier[k]);
    }
}

/// The member of a JSON object.
pub open spec fn member(value: JsonModel, name: Seq<char>) -> Option<JsonModel> {
    match value {
        JsonModel::Object(members) => if members.contains_key(name) {
            Some(members[name])
        } else {
            None
        },
        _ => None,
    }
}

/// The message goes out as it is, where its receiver looks for it. It cannot call
/// anybody by a mention: Discord is told to expand none.
pub proof fn law_message_goes_out_as_it_is(kind: WebhookKind, message: Seq<char>)
    ensures
        member(
            payload_value(kind, message),
            if kind is Discord {
                "content"@
            } else {
                "text"@
            },
        ) == Some(JsonModel::Text(message)),
        kind is Discord ==> (member(payload_value(kind, message), "allowed_mentions"@) matches Some(
            allowed,
        ) && member(allowed, "parse"@) == Some(JsonModel::List(Seq::empty()))),
        kind !is Discord ==> member(payload_value(kind, message), "allowed_mentions"@) is None,
{
    reveal_strlit("content");
    reveal_strlit("text");
    reveal_strlit("parse");
    reveal_strlit("allowed_mentions");
    assert("content"@.len() != "allowed_mentions"@.len());
    assert("text"@.len() != "allowed_mentions"@.len());
}

/// The URL of a webhook is the one of its configuration, else the one of the process
/// environment, else the one of the environment file; whichever it is, it is used
/// only where it has a host and uses HTTPS.
pub proof fn law_first_url_is_used(
    hook: WebhookModel,
    variable: Option<Seq<char>>,
    file: Seq<(Seq<char>, Seq<char>)>,
    url: Seq<char>,
)
    ensures
        resolved_url(hook, variable, file) == Ok::<Seq<char>, Seq<char>>(url) <==> uri_parts(url)
            == Some((Some("https"@), true)) && (hook.url == Some(url) || hook.url is None
            && hook.url_env is Some && (variable == Some(url) || variable is None && lookup(
            file,
            hook.url_env->0,
        ) == Some(url))),
{
    crate::strictness::law_only_https_is_good(
        url,
        url,
        "notification webhook "@ + crate::text::debug_text(hook.name),
    );
}

// ---------------------------------------------------------------------------
// Files
// ---------------------------------------------------------------------------

proof fn lemma_no_dot(n: nat)
    ensures
        !decimal(n).contains('.'),
    decreases n,
{
    if n >= 10 {
        lemma_no_dot(n / 10);
    }
}

/// Two texts before a dot that hold none are told apart.
proof fn lemma_before_dot(a: Seq<char>, b: Seq<char>, c: Seq<char>, d: Seq<char>)
    requires
        !a.contains('.'),
        !c.contains('.'),
        a + seq!['.'] + b == c + seq!['.'] + d,
    ensures
        a == c,
        b == d,
{
    let s = a + seq!['.'] + b;
    let t = c + seq!['.'] + d;
    assert(s[a.len() as int] == '.');
    assert(t[c.len() as int] == '.');
    if a.len() < c.len() {
        assert(t[a.len() as int] == c[a.len() as int]);
    } else if c.len() < a.len() {
        assert(s[c.len() as int] == a[c.len() as int]);
    }
    assert(a =~= s.take(a.len() as int));
    assert(c =~= t.take(c.len() as int));
    assert(b =~= s.skip((a.len() + 1) as int));
    assert(d =~= t.skip((c.len() + 1) as int));
}

/// Two writes of one file go through two temporary files, unless it is one process
/// with one nonce. A temporary file is hidden and is not the file itself.
pub proof fn law_temporary_names_are_told_apart(
    file: Seq<char>,
    process: nat,
    nonce: nat,
    other_process: nat,
    other_nonce: nat,
)
    ensures
        temporary_text(file, process, nonce) == temporary_text(file, other_process, other_nonce)
            <==> process == other_process && nonce == other_nonce,
        temporary_text(file, process, nonce)[0] == '.',
        temporary_text(file, process, nonce) != file,
        holds_part(temporary_text(file, process, nonce), file),
{
    let a = temporary_text(file, process, nonce);
    let b = temporary_text(file, other_process, other_nonce);
    reveal_strlit(".");
    reveal_strlit(".tmp.");
    assert("."@ =~= seq!['.']);
    let head = "."@ + file + ".tmp."@;
    let ours = decimal(process) + seq!['.'] + decimal(nonce);
    let theirs = decimal(other_process) + seq!['.'] + decimal(other_nonce);
    assert(a =~= head + ours);
    assert(b =~= head + theirs);
    assert(a[0] == "."@[0]);
    assert(a.len() > file.len());
    lemma_holds("."@, file, ".tmp."@ + ours);
    assert("."@ + file + (".tmp."@ + ours) =~= a);
    if a == b {
        assert(ours =~= a.skip(head.len() as int));
        assert(theirs =~= b.skip(head.len() as int));
        lemma_no_dot(process);
        lemma_no_dot(other_process);
        lemma_before_dot(
            decimal(process),
            decimal(nonce),
            decimal(other_process),
            decimal(other_nonce),
        );
        law_numerals_are_read_back(process, process + other_process);
        law_numerals_are_read_back(other_process, process + other_process);
        law_numerals_are_read_back(nonce, nonce + other_nonce);
        law_numerals_are_read_back(other_nonce, nonce + other_nonce);
    }
}

} // verus!
