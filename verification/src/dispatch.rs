//! Who hears of a run, how often it is tried, and what a command comes to.
use vstd::prelude::*;

use crate::command::{age_text, announcement, final_fault, run_outcome, scoped, Command, PlanScope};
use crate::config::NotificationsModel;
use crate::error::{plain, Fault};
use crate::executor::ReportModel;
use crate::notification::{at_once, audience, chosen, courier_for, doubled, hears, host_name, pause, truncated, DeliveryEvent, SendFailure};
use crate::planner::PlanModel;
use crate::text::{decimal, is_space, trim, trim_start, until_space};
use crate::webhook::{WebhookEvent, WebhookModel};

verus! {

// ---------------------------------------------------------------------------
// Audience
// ---------------------------------------------------------------------------

/// Whether a webhook is to hear of an event: it is enabled, and it asked for the
/// event or the event is a test.
pub open spec fn is_to_hear(hook: WebhookModel, event: DeliveryEvent) -> bool {
    hook.enabled && match event {
        DeliveryEvent::Test => true,
        DeliveryEvent::Success => exists|i: int|
            0 <= i < hook.events.len() && #[trigger] hook.events[i] == WebhookEvent::Success,
        DeliveryEvent::Failure => exists|i: int|
            0 <= i < hook.events.len() && #[trigger] hook.events[i] == WebhookEvent::Failure,
    }
}

spec fn is_rising(positions: Seq<usize>) -> bool {
    forall|i: int, j: int|
        0 <= i < j < positions.len() ==> #[trigger] positions[i] < #[trigger] positions[j]
}

proof fn lemma_audience(
    hooks: Seq<WebhookModel>,
    event: DeliveryEvent,
    i: int,
    done: Seq<usize>,
    at: usize,
)
    requires
        0 <= i <= hooks.len() <= usize::MAX,
        is_rising(done),
        forall|k: int| 0 <= k < done.len() ==> #[trigger] done[k] < i,
    ensures
        is_rising(audience(hooks, event, i, done)),
        audience(hooks, event, i, done).contains(at) <==> done.contains(at) || (i <= at
            < hooks.len() && is_to_hear(hooks[at as int], event)),
    decreases hooks.len() - i,
{
    if i < hooks.len() {
        if hooks[i].enabled && hears(hooks[i], event) {
            let more = done.push(i as usize);
            lemma_audience(hooks, event, i + 1, more, at);
            if done.contains(at) {
                assert(more[done.index_of(at)] == at);
            }
            if more.contains(at) {
                let k = more.index_of(at);
                if k < done.len() {
                    assert(done[k] == at);
                }
            }
            assert(more[done.len() as int] == i as usize);
        } else {
            lemma_audience(hooks, event, i + 1, done, at);
        }
    }
}

/// A notification goes to every enabled webhook that asked for its event, once
/// and in the order of the configuration, and to no other. A test goes to every
/// enabled one. Where notifications are switched off, nobody hears anything.
pub proof fn law_notifications_reach_their_audience(
    config: NotificationsModel,
    event: DeliveryEvent,
    at: usize,
)
    requires
        config.webhooks.len() <= usize::MAX,
    ensures
        chosen(config, event).contains(at) <==> config.enabled && at < config.webhooks.len()
            && is_to_hear(config.webhooks[at as int], event),
        forall|i: int, j: int|
            0 <= i < j < chosen(config, event).len() ==> #[trigger] chosen(config, event)[i]
                < #[trigger] chosen(config, event)[j],
{
    lemma_audience(config.webhooks, event, 0, Seq::empty(), at);
}

/// As many deliveries run at once as there are, unless the configuration allows
/// fewer. There is always one.
pub proof fn law_deliveries_at_once_are_bounded(config: NotificationsModel, deliveries: nat)
    ensures
        1 <= at_once(config, deliveries),
        deliveries > 0 ==> at_once(config, deliveries) <= deliveries,
        config.max_parallel > 0 ==> at_once(config, deliveries) <= config.max_parallel,
        0 < deliveries <= config.max_parallel ==> at_once(config, deliveries) == deliveries,
        0 < config.max_parallel <= deliveries ==> at_once(config, deliveries)
            == config.max_parallel,
{
}

/// A delivery carries its message to its target: it is tried where there is a URL
/// and an attempt to spend, it starts with none spent, and without a URL it has
/// failed for that reason. What is sent depends on the kind of target and on the
/// message alone.
pub proof fn law_deliveries_carry_their_message(
    config: NotificationsModel,
    hook: WebhookModel,
    other: WebhookModel,
    message: Seq<char>,
    url: Result<Seq<char>, Seq<char>>,
    other_url: Result<Seq<char>, Seq<char>>,
)
    ensures
        ({
            let courier = courier_for(config, hook, message, url);
            &&& courier.delivery.target == hook.name
            &&& courier.delivery.kind == hook.kind.text()
            &&& courier.delivery.attempts == 0
            &&& courier.max_attempts == config.max_attempts
            &&& courier.backoff == config.retry_backoff_milliseconds
            &&& courier.pending <==> url is Ok && config.max_attempts > 0
            &&& url matches Ok(place) ==> courier.url == place && courier.delivery.error is None
            &&& url matches Err(reason) ==> courier.delivery.error == Some(reason)
            &&& hook.kind == other.kind ==> courier.body == courier_for(
                config,
                other,
                message,
                other_url,
            ).body
        }),
{
}

// ---------------------------------------------------------------------------
// Messages and attempts
// ---------------------------------------------------------------------------

/// A message of at most 1900 characters stays as it is. A longer one keeps its
/// first 1899, and an ellipsis stands for the others.
pub proof fn law_long_messages_are_cut(message: Seq<char>)
    ensures
        message.len() <= 1_900 ==> truncated(message) == message,
        message.len() > 1_900 ==> {
            &&& truncated(message).len() == 1_900
            &&& truncated(message)[1_899] == '…'
            &&& forall|i: int| 0 <= i < 1_899 ==> truncated(message)[i] == message[i]
        },
{
}


/// The first pause is the configured one, every further pause of the first
/// eleven is twice the one before, and the others are as long as the eleventh.
/// None is longer than half a minute.
pub proof fn law_pauses_double_up_to_half_a_minute(backoff: u64, attempt: u32)
    requires
        1 <= attempt < u32::MAX,
    ensures
        0 <= pause(backoff, attempt) <= 30_000,
        backoff <= 30_000 ==> pause(backoff, 1) == backoff,
        backoff > 30_000 ==> pause(backoff, 1) == 30_000,
        attempt <= 10 && 2 * pause(backoff, attempt) <= 30_000 ==> pause(
            backoff,
            (attempt + 1) as u32,
        ) == 2 * pause(backoff, attempt),
        attempt <= 10 && 2 * pause(backoff, attempt) > 30_000 ==> pause(
            backoff,
            (attempt + 1) as u32,
        ) == 30_000,
        attempt > 10 ==> pause(backoff, (attempt + 1) as u32) == pause(backoff, attempt),
{
    let d = if attempt <= 10 {
        (attempt - 1) as nat
    } else {
        10nat
    };
    assert(doubled(0) == 1);
    assert(backoff * 1 == backoff);
    assert(backoff * doubled(d) >= 0) by (nonlinear_arith)
        requires
            backoff >= 0,
    ;
    assert(doubled(d + 1) == 2 * doubled(d));
    assert(backoff * (2 * doubled(d)) == 2 * (backoff * doubled(d))) by (nonlinear_arith);
}

/// A request is tried again after a status that may pass: a timeout, too early,
/// too many requests, or a fault of the server. No other answer of the client's
/// making is tried again, and neither is a refusal that would come again.
pub proof fn law_lasting_failures_are_not_tried_again(failure: SendFailure)
    ensures
        failure matches SendFailure::Status(code) ==> {
            &&& code < 400 || code >= 600 ==> !failure.may_pass()
            &&& 500 <= code < 600 ==> failure.may_pass()
            &&& 400 <= code < 500 ==> (failure.may_pass() <==> seq![408u16, 425u16, 429u16].contains(
                code,
            ))
        },
        failure is Timeout || failure is HostNotFound || failure is Other ==> failure.may_pass(),
        failure is RequireHttpsOnly || failure is Tls || failure is BadUri || failure is Http
            || failure is RedirectFailed || failure is TooManyRedirects ==> !failure.may_pass(),
{
    let codes = seq![408u16, 425u16, 429u16];
    assert(codes[0] == 408 && codes[1] == 425 && codes[2] == 429);
    if let SendFailure::Status(code) = failure {
        assert(codes.contains(code) <==> code == 408 || code == 425 || code == 429) by {
            if codes.contains(code) {
                let i = codes.index_of(code);
                assert(codes[i] == code);
            }
        }
    }
}

// ---------------------------------------------------------------------------
// The name of the host
// ---------------------------------------------------------------------------

proof fn lemma_word(s: Seq<char>)
    ensures
        forall|i: int| 0 <= i < until_space(s).len() ==> !is_space(#[trigger] until_space(s)[i]),
        until_space(s).len() <= s.len(),
        s.take(until_space(s).len() as int) == until_space(s),
        until_space(s).len() < s.len() ==> is_space(s[until_space(s).len() as int]),
    decreases s.len(),
{
    if s.len() > 0 && !is_space(s[0]) {
        let rest = s.drop_first();
        lemma_word(rest);
        let word = until_space(s);
        assert forall|i: int| 0 <= i < word.len() implies !is_space(#[trigger] word[i]) by {
            if i > 0 {
                assert(word[i] == until_space(rest)[i - 1]);
            }
        }
        assert(s.take(word.len() as int) =~= word) by {
            assert forall|i: int| 0 <= i < word.len() implies s[i] == word[i] by {
                if i > 0 {
                    assert(rest.take(until_space(rest).len() as int)[i - 1] == word[i]);
                }
            }
        }
    } else {
        assert(s.take(0) =~= until_space(s));
    }
}

proof fn lemma_started(s: Seq<char>)
    ensures
        trim_start(s).len() > 0 ==> !is_space(trim_start(s)[0]),
        trim(s).len() > 0 ==> trim_start(s).len() > 0,
    decreases s.len(),
{
    if s.len() > 0 && is_space(s[0]) {
        lemma_started(s.drop_first());
    }
}

/// The configured name of the host comes first, then the variable, then the
/// file, and a name that is found is one word. A variable with nothing in it is
/// as good as none.
pub proof fn law_host_name_has_an_order(
    name: Seq<char>,
    variable: Option<Seq<char>>,
    file: Option<Seq<char>>,
    value: Seq<char>,
)
    ensures
        host_name(Some(name), variable, file) == trim(name),
        trim(value).len() > 0 ==> {
            let found = host_name(None, Some(value), file);
            &&& found == host_name(None, Some(value), None)
            &&& found.len() > 0
            &&& found == trim_start(value).take(found.len() as int)
            &&& found.len() < trim_start(value).len() ==> is_space(
                trim_start(value)[found.len() as int],
            )
        },
        trim(value).len() == 0 ==> host_name(None, Some(value), file) == host_name(
            None,
            None,
            file,
        ),
        forall|i: int|
            0 <= i < host_name(None, variable, file).len() ==> !is_space(
                #[trigger] host_name(None, variable, file)[i],
            ),
        host_name(None, variable, file).len() > 0,
{
    reveal_strlit("unknown-host");
    lemma_started(value);
    lemma_word(trim_start(value));
    if let Some(text) = variable {
        lemma_started(text);
        lemma_word(trim_start(text));
    }
    if let Some(text) = file {
        lemma_started(text);
        lemma_word(trim_start(text));
    }
    assert(forall|i: int| 0 <= i < "unknown-host"@.len() ==> !is_space(
        #[trigger] "unknown-host"@[i],
    ));
}

// ---------------------------------------------------------------------------
// Commands
// ---------------------------------------------------------------------------

/// The two scopes divide a plan: one keeps the snapshots to take, the other
/// everything else, and between them nothing is lost and nothing added.
pub proof fn law_scopes_divide_a_plan(plan: PlanModel)
    ensures
        scoped(plan, PlanScope::All) == plan,
        ({
            let taken = scoped(plan, PlanScope::Snapshot);
            let pruned = scoped(plan, PlanScope::Prune);
            &&& taken.snapshots + pruned.snapshots == plan.snapshots
            &&& taken.prunes + pruned.prunes == plan.prunes
            &&& taken.deferred_prune_datasets + pruned.deferred_prune_datasets
                == plan.deferred_prune_datasets
            &&& taken.protected_snapshots + pruned.protected_snapshots == plan.protected_snapshots
            &&& pruned.snapshots.len() == 0
            &&& taken.prunes.len() == 0
            &&& taken.protected_snapshots.len() == 0
            &&& taken.deferred_prune_datasets.len() == 0
        }),
{
    let taken = scoped(plan, PlanScope::Snapshot);
    let pruned = scoped(plan, PlanScope::Prune);
    assert(taken.snapshots + pruned.snapshots =~= plan.snapshots);
    assert(taken.prunes + pruned.prunes =~= plan.prunes);
    assert(taken.deferred_prune_datasets + pruned.deferred_prune_datasets
        =~= plan.deferred_prune_datasets);
    assert(taken.protected_snapshots + pruned.protected_snapshots =~= plan.protected_snapshots);
}

/// A command that only looks changes nothing: neither a dry run nor a plan that
/// is shown is a mutation, and a command that takes snapshots or prunes has a
/// plan of that scope alone.
pub proof fn law_only_wet_runs_change_anything(dry_run: bool, scope: PlanScope)
    ensures
        (Command::Run { dry_run }).mutation() is Some <==> !dry_run,
        (Command::Snapshot { dry_run }).mutation() is Some <==> !dry_run,
        (Command::Prune { dry_run }).mutation() is Some <==> !dry_run,
        (Command::Plan { scope }).mutation() is None,
        Command::Other.mutation() is None,
        Command::Other.planned() is None,
        (Command::Run { dry_run }).planned()->0.scope == PlanScope::All,
        (Command::Snapshot { dry_run }).planned()->0.scope == PlanScope::Snapshot,
        (Command::Prune { dry_run }).planned()->0.scope == PlanScope::Prune,
        (Command::Plan { scope }).planned()->0.scope == scope,
        !(Command::Plan { scope }).planned()->0.execute,
        (Command::Run { dry_run }).planned()->0.dry_run == dry_run,
        (Command::Snapshot { dry_run }).planned()->0.dry_run == dry_run,
        (Command::Prune { dry_run }).planned()->0.dry_run == dry_run,
{
}

/// A run succeeds exactly when nothing failed, and is announced as what it was.
pub proof fn law_runs_are_announced_as_they_went(
    plan: PlanModel,
    report: ReportModel,
    command: Seq<char>,
    host: Seq<char>,
    duration: Seq<char>,
)
    ensures
        run_outcome(plan, report) is Ok <==> report.errors.len() == 0,
        announcement(command, run_outcome(plan, report), host, duration).0
            == DeliveryEvent::Success <==> report.errors.len() == 0,
        announcement(command, run_outcome(plan, report), host, duration).0
            == DeliveryEvent::Failure <==> report.errors.len() > 0,
{
}

/// A command fails when its run failed, with the fault of the run; otherwise it
/// fails only where a notification failed and the configuration says that this
/// counts.
pub proof fn law_notifications_never_hide_a_failure(
    run: Option<Fault>,
    notification: Option<Seq<char>>,
    counts: bool,
)
    ensures
        run is Some ==> final_fault(run, notification, counts) == run,
        run is None ==> (final_fault(run, notification, counts) is Some <==> notification is Some
            && counts),
        run is None && notification is Some && counts ==> final_fault(run, notification, counts)
            == Some(plain(notification->0)),
{
}

/// An age is told in the largest unit that fits, rounded down.
pub proof fn law_ages_are_rounded_down(seconds: int, count: nat)
    ensures
        seconds < 0 && count == -seconds ==> age_text(seconds) == decimal(count)
            + " s in the future"@,
        0 <= seconds < 60 && count == seconds ==> age_text(seconds) == decimal(count) + " s ago"@,
        60 <= seconds < 3_600 && count * 60 <= seconds < count * 60 + 60 ==> age_text(seconds)
            == decimal(count) + " min ago"@,
        3_600 <= seconds < 86_400 && count * 3_600 <= seconds < count * 3_600 + 3_600 ==> age_text(
            seconds,
        ) == decimal(count) + " h ago"@,
        86_400 <= seconds && count * 86_400 <= seconds < count * 86_400 + 86_400 ==> age_text(
            seconds,
        ) == decimal(count) + " d ago"@,
{
}

} // verus!
