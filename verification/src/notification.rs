//! Notifications: which webhooks hear of an event, what they are sent, and
//! when a delivery is tried again.
use vstd::prelude::*;

use crate::config::{Notifications, NotificationsModel};
use crate::error::{error, yields, Error};
use crate::names::{lookup, NameMap};
use crate::payload::{json_text, payload, payload_value};
use crate::sort::{sort, sorted, views, Sortable};
use crate::text::{before, characters, decimal, debug_text, first_word, from_range, lemma_lt_asymmetric, lemma_lt_total, lemma_lt_transitive, number, quoted, replace, replaced, text_le, text_lt, trim, trimmed, word};
use crate::webhook::{optional_text, url_fault, validate_webhook_url, WebhookConfig, WebhookEvent, WebhookModel};

verus! {

pub const MAX_MESSAGE_CHARACTERS: usize = 1_900;

pub const MAX_RETRY_DELAY_MILLISECONDS: u64 = 30_000;

/// What a notification is about.
#[derive(Debug, Clone, Copy, PartialEq, Eq, Structural)]
pub enum DeliveryEvent {
    Failure,
    Success,
    Test,
}

// ---------------------------------------------------------------------------
// Reports
// ---------------------------------------------------------------------------

/// How the delivery to one webhook went.
#[derive(Debug)]
pub struct NotificationDelivery {
    pub target: String,
    pub kind: String,
    pub attempts: u32,
    pub error: Option<String>,
}

/// The model of a [`NotificationDelivery`].
pub struct DeliveryModel {
    pub target: Seq<char>,
    pub kind: Seq<char>,
    pub attempts: u32,
    pub error: Option<Seq<char>>,
}

impl View for NotificationDelivery {
    type V = DeliveryModel;

    open spec fn view(&self) -> DeliveryModel {
        DeliveryModel {
            target: self.target@,
            kind: self.kind@,
            attempts: self.attempts,
            error: optional_text(self.error),
        }
    }
}

/// Deliveries are ordered by their targets.
impl Sortable for NotificationDelivery {
    open spec fn may_precede(a: DeliveryModel, b: DeliveryModel) -> bool {
        text_le(a.target, b.target)
    }

    proof fn lemma_total(a: DeliveryModel, b: DeliveryModel) {
        if text_lt(b.target, a.target) {
            lemma_lt_asymmetric(b.target, a.target);
        }
    }

    proof fn lemma_transitive(a: DeliveryModel, b: DeliveryModel, c: DeliveryModel) {
        if text_lt(c.target, a.target) {
            lemma_lt_total(a.target, b.target);
            if text_lt(a.target, b.target) {
                lemma_lt_transitive(c.target, a.target, b.target);
            }
        }
    }

    fn precedes(&self, other: &Self) -> (res: bool) {
        !before(other.target.as_str(), self.target.as_str())
    }
}

/// How all deliveries went.
#[derive(Debug)]
pub struct NotificationReport {
    pub attempted: usize,
    pub delivered: usize,
    pub skipped: usize,
    pub deliveries: Vec<NotificationDelivery>,
}

/// The model of a [`NotificationReport`].
pub struct NotificationReportModel {
    pub attempted: nat,
    pub delivered: nat,
    pub skipped: nat,
    pub deliveries: Seq<DeliveryModel>,
}

impl View for NotificationReport {
    type V = NotificationReportModel;

    open spec fn view(&self) -> NotificationReportModel {
        NotificationReportModel {
            attempted: self.attempted as nat,
            delivered: self.delivered as nat,
            skipped: self.skipped as nat,
            deliveries: views(self.deliveries@),
        }
    }
}

/// How many of the deliveries failed.
pub open spec fn failures(deliveries: Seq<DeliveryModel>) -> nat {
    deliveries.filter(|delivery: DeliveryModel| delivery.error is Some).len()
}

/// How many of the deliveries succeeded.
pub open spec fn successes(deliveries: Seq<DeliveryModel>) -> nat {
    deliveries.filter(|delivery: DeliveryModel| delivery.error is None).len()
}

proof fn lemma_counts_push(deliveries: Seq<DeliveryModel>, delivery: DeliveryModel)
    ensures
        failures(deliveries.push(delivery)) == failures(deliveries) + (if delivery.error is Some {
            1nat
        } else {
            0nat
        }),
        successes(deliveries.push(delivery)) == successes(deliveries) + (
        if delivery.error is None {
            1nat
        } else {
            0nat
        }),
{
    broadcast use vstd::seq_lib::group_filter_ensures;

    reveal(Seq::filter);
    assert(deliveries.push(delivery).drop_last() =~= deliveries);
}

fn count_failures(deliveries: &Vec<NotificationDelivery>) -> (res: usize)
    ensures
        res == failures(views(deliveries@)),
        res + successes(views(deliveries@)) == deliveries@.len(),
{
    let ghost all = views(deliveries@);
    let mut count: usize = 0;
    let mut i: usize = 0;
    proof {
        reveal(Seq::filter);
        assert(all.take(0) =~= Seq::empty());
    }
    while i < deliveries.len()
        invariant
            i <= deliveries@.len(),
            all == views(deliveries@),
            count <= i,
            count == failures(all.take(i as int)),
            count + successes(all.take(i as int)) == i,
        decreases deliveries.len() - i,
    {
        proof {
            assert(all[i as int] == deliveries@[i as int]@);
            assert(all.take(i + 1) =~= all.take(i as int).push(all[i as int]));
            lemma_counts_push(all.take(i as int), all[i as int]);
        }
        if deliveries[i].error.is_some() {
            count += 1;
        }
        i += 1;
    }
    assert(all.take(i as int) =~= all);
    count
}

/// The report on deliveries in any order: they are listed by target.
pub open spec fn reported(deliveries: Seq<DeliveryModel>, skipped: nat) -> NotificationReportModel {
    NotificationReportModel {
        attempted: deliveries.len(),
        delivered: successes(sorted::<NotificationDelivery>(deliveries)),
        skipped,
        deliveries: sorted::<NotificationDelivery>(deliveries),
    }
}

impl NotificationReport {
    pub fn new(deliveries: Vec<NotificationDelivery>, skipped: usize) -> (res: Self)
        ensures
            res@ == reported(views(deliveries@), skipped as nat),
    {
        let deliveries = sort(deliveries);
        let attempted: usize = deliveries.len();
        let failed: usize = count_failures(&deliveries);
        NotificationReport { attempted, delivered: attempted - failed, skipped, deliveries }
    }

    /// Whether nothing failed.
    pub fn succeeded(&self) -> (res: bool)
        ensures
            res == (forall|i: int|
                0 <= i < self@.deliveries.len() ==> (#[trigger] self@.deliveries[i]).error is None),
    {
        let mut i: usize = 0;
        while i < self.deliveries.len()
            invariant
                i <= self.deliveries@.len(),
                forall|j: int|
                    0 <= j < i ==> (#[trigger] self@.deliveries[j]).error is None,
            decreases self.deliveries.len() - i,
        {
            assert(self@.deliveries[i as int] == self.deliveries@[i as int]@);
            if self.deliveries[i].error.is_some() {
                return false;
            }
            i += 1;
        }
        true
    }

    pub fn failed(&self) -> (res: usize)
        ensures
            res == failures(self@.deliveries),
    {
        count_failures(&self.deliveries)
    }
}

impl Default for NotificationReport {
    fn default() -> (res: Self)
        ensures
            res@ == (NotificationReportModel {
                attempted: 0,
                delivered: 0,
                skipped: 0,
                deliveries: Seq::empty(),
            }),
    {
        let res = NotificationReport {
            attempted: 0,
            delivered: 0,
            skipped: 0,
            deliveries: Vec::new(),
        };
        assert(res@.deliveries =~= Seq::empty());
        res
    }
}

// ---------------------------------------------------------------------------
// Targets
// ---------------------------------------------------------------------------

/// Whether a webhook hears of an event; a test goes to every one.
pub open spec fn hears(hook: WebhookModel, event: DeliveryEvent) -> bool {
    match event {
        DeliveryEvent::Failure => hook.events.contains(WebhookEvent::Failure),
        DeliveryEvent::Success => hook.events.contains(WebhookEvent::Success),
        DeliveryEvent::Test => true,
    }
}

fn has_event(events: &Vec<WebhookEvent>, event: WebhookEvent) -> (res: bool)
    ensures
        res == events@.contains(event),
{
    let mut i: usize = 0;
    while i < events.len()
        invariant
            i <= events@.len(),
            forall|j: int| 0 <= j < i ==> events@[j] != event,
        decreases events.len() - i,
    {
        if events[i] == event {
            return true;
        }
        i += 1;
    }
    false
}

pub fn subscribes(webhook: &WebhookConfig, event: DeliveryEvent) -> (res: bool)
    ensures
        res == hears(webhook@, event),
{
    match event {
        DeliveryEvent::Failure => has_event(&webhook.events, WebhookEvent::Failure),
        DeliveryEvent::Success => has_event(&webhook.events, WebhookEvent::Success),
        DeliveryEvent::Test => true,
    }
}

/// The positions of the webhooks from `i` on that hear of an event, after
/// those before.
pub open spec fn audience(
    hooks: Seq<WebhookModel>,
    event: DeliveryEvent,
    i: int,
    done: Seq<usize>,
) -> Seq<usize>
    decreases hooks.len() - i,
{
    if i >= hooks.len() {
        done
    } else if hooks[i].enabled && hears(hooks[i], event) {
        audience(hooks, event, i + 1, done.push(i as usize))
    } else {
        audience(hooks, event, i + 1, done)
    }
}

/// The webhooks that a notification goes to.
pub struct Selection {
    /// Their positions in the configuration.
    pub targets: Vec<usize>,
    pub skipped: usize,
    /// How many deliveries may run at once.
    pub threads: usize,
}

pub open spec fn chosen(config: NotificationsModel, event: DeliveryEvent) -> Seq<usize> {
    if config.enabled {
        audience(config.webhooks, event, 0, Seq::empty())
    } else {
        Seq::empty()
    }
}

/// How many deliveries run at once: all of them, or as many as the configuration
/// allows.
pub open spec fn at_once(config: NotificationsModel, deliveries: nat) -> int {
    if deliveries == 0 || config.max_parallel == 0 {
        1
    } else if config.max_parallel < deliveries {
        config.max_parallel as int
    } else {
        deliveries as int
    }
}

pub fn select(config: &Notifications, event: DeliveryEvent) -> (res: Selection)
    ensures
        res.targets@ == chosen(config@, event),
        res.skipped == config@.webhooks.len() - res.targets@.len(),
        res.threads == at_once(config@, res.targets@.len()),
        forall|i: int|
            0 <= i < res.targets@.len() ==> #[trigger] res.targets@[i] < config@.webhooks.len(),
{
    let mut targets: Vec<usize> = Vec::new();
    let ghost all = config@.webhooks;
    if config.enabled {
        let mut i: usize = 0;
        while i < config.webhooks.len()
            invariant
                i <= config.webhooks@.len(),
                all == views(config.webhooks@),
                targets@.len() <= i,
                forall|j: int| 0 <= j < targets@.len() ==> #[trigger] targets@[j] < i,
                audience(all, event, 0, Seq::empty()) == audience(
                    all,
                    event,
                    i as int,
                    targets@,
                ),
            decreases config.webhooks.len() - i,
        {
            assert(all[i as int] == config.webhooks@[i as int]@);
            if config.webhooks[i].enabled && subscribes(&config.webhooks[i], event) {
                targets.push(i);
            }
            i += 1;
        }
    }
    let count: usize = targets.len();
    let skipped: usize = config.webhooks.len() - count;
    let threads: usize = if count == 0 || config.max_parallel == 0 {
        1
    } else if config.max_parallel < count {
        config.max_parallel
    } else {
        count
    };
    Selection { targets, skipped, threads }
}

/// A message short enough for every service.
pub open spec fn truncated(message: Seq<char>) -> Seq<char> {
    if message.len() <= MAX_MESSAGE_CHARACTERS {
        message
    } else {
        message.take(MAX_MESSAGE_CHARACTERS - 1).push('…')
    }
}

pub fn truncate_message(message: &str) -> (res: String)
    ensures
        res@ == truncated(message@),
        res@.len() <= MAX_MESSAGE_CHARACTERS,
{
    let x = characters(message);
    if x.len() <= MAX_MESSAGE_CHARACTERS {
        return message.to_owned();
    }
    let mut res = from_range(&x, 0, MAX_MESSAGE_CHARACTERS - 1);
    res.push('…');
    assert(res@ =~= truncated(message@));
    res
}

/// The name of this host: the configured one, or else the first word of the
/// variable or, where that is blank, of the host name file.
pub open spec fn host_name(
    configured: Option<Seq<char>>,
    variable: Option<Seq<char>>,
    file: Option<Seq<char>>,
) -> Seq<char> {
    match configured {
        Some(name) => trim(name),
        None => {
            let detected = match (variable, file) {
                (Some(value), _) if trim(value).len() > 0 => first_word(value),
                (_, Some(content)) => first_word(content),
                _ => Seq::empty(),
            };
            if detected.len() == 0 {
                "unknown-host"@
            } else {
                detected
            }
        },
    }
}

pub fn hostname(config: &Notifications, variable: Option<String>, file: Option<String>) -> (res:
    String)
    ensures
        res@ == host_name(config@.hostname, optional_text(variable), optional_text(file)),
{
    if let Some(name) = &config.hostname {
        return trimmed(name.as_str());
    }
    let detected = match variable {
        Some(value) if !trimmed(value.as_str()).as_str().is_empty() => word(value.as_str()),
        _ => match file {
            Some(content) => word(content.as_str()),
            None => {
                let none = String::new();
                assert(none@ =~= Seq::empty());
                none
            },
        },
    };
    if detected.as_str().is_empty() {
        "unknown-host".to_owned()
    } else {
        detected
    }
}

/// Where a webhook is: its own URL, or else that of its variable. The process
/// environment comes before the environment file.
pub open spec fn location(
    hook: WebhookModel,
    variable: Option<Seq<char>>,
    file: Seq<(Seq<char>, Seq<char>)>,
) -> Result<Seq<char>, Seq<char>> {
    match (hook.url, hook.url_env) {
        (Some(url), _) => Ok(url),
        (None, Some(name)) => match (variable, lookup(file, name)) {
            (Some(url), _) => Ok(url),
            (None, Some(url)) => Ok(url),
            (None, None) => Err("environment variable "@ + name + " is not set"@),
        },
        (None, None) => Err("no URL source is configured"@),
    }
}

/// Where a webhook is, if it may be used.
pub open spec fn resolved_url(
    hook: WebhookModel,
    variable: Option<Seq<char>>,
    file: Seq<(Seq<char>, Seq<char>)>,
) -> Result<Seq<char>, Seq<char>> {
    match location(hook, variable, file) {
        Err(message) => Err(message),
        Ok(url) => match url_fault(url, "notification webhook "@ + debug_text(hook.name)) {
            Some(message) => Err(message),
            None => Ok(url),
        },
    }
}

/// Finds the URL of a webhook; `variable` is the value that the process
/// environment has for `url_env`.
pub fn resolve_url(webhook: &WebhookConfig, variable: Option<String>, file: &NameMap<String>) -> (res:
    Result<String, Error>)
    ensures
        yields(res, resolved_url(webhook@, optional_text(variable), file@)),
{
    let url: String = match &webhook.url {
        Some(url) => url.expose().to_owned(),
        None => match &webhook.url_env {
            None => {
                return Err(error("no URL source is configured"));
            },
            Some(name) => match variable {
                Some(url) => url,
                None => match file.get(name.as_str()) {
                    Some(url) => url.clone(),
                    None => {
                        let mut message = "environment variable ".to_owned();
                        message.append(name.as_str());
                        message.append(" is not set");
                        return Err(Error::new(message));
                    },
                },
            },
        },
    };
    let mut context = "notification webhook ".to_owned();
    context.append(quoted(webhook.name.as_str()).as_str());
    validate_webhook_url(url.as_str(), context.as_str())?;
    Ok(url)
}

// ---------------------------------------------------------------------------
// Attempts
// ---------------------------------------------------------------------------

/// Why a request failed. Where the message of the HTTP client is shown, it
/// comes along.
pub enum SendFailure {
    Status(u16),
    Timeout,
    HostNotFound,
    RequireHttpsOnly,
    Tls,
    BadUri(String),
    Http(String),
    RedirectFailed(String),
    TooManyRedirects(String),
    Other(String),
}

impl SendFailure {
    /// Whether the next attempt may fare better.
    pub open spec fn may_pass(self) -> bool {
        match self {
            SendFailure::Status(code) => code == 408 || code == 425 || code == 429 || 500 <= code
                <= 599,
            SendFailure::Timeout => true,
            SendFailure::HostNotFound => true,
            SendFailure::Other(_) => true,
            _ => false,
        }
    }

    pub fn is_retryable(&self) -> (res: bool)
        ensures
            res == self.may_pass(),
    {
        match self {
            SendFailure::Status(code) => *code == 408 || *code == 425 || *code == 429 || 500
                <= *code && *code <= 599,
            SendFailure::Timeout => true,
            SendFailure::HostNotFound => true,
            SendFailure::Other(_) => true,
            _ => false,
        }
    }

    /// The failure in words; the URL is not among them.
    pub open spec fn words(self, url: Seq<char>) -> Seq<char> {
        match self {
            SendFailure::Status(code) => "remote endpoint returned HTTP "@ + decimal(code as nat),
            SendFailure::Timeout => "request timed out"@,
            SendFailure::HostNotFound => "webhook host could not be resolved"@,
            SendFailure::RequireHttpsOnly => "a non-HTTPS URL or redirect was refused"@,
            SendFailure::Tls => "TLS connection or certificate validation failed"@,
            SendFailure::BadUri(text) => replace(text@, url, "[redacted-url]"@),
            SendFailure::Http(text) => replace(text@, url, "[redacted-url]"@),
            SendFailure::RedirectFailed(text) => replace(text@, url, "[redacted-url]"@),
            SendFailure::TooManyRedirects(text) => replace(text@, url, "[redacted-url]"@),
            SendFailure::Other(text) => replace(text@, url, "[redacted-url]"@),
        }
    }

    pub fn describe(&self, url: &str) -> (res: String)
        ensures
            res@ == self.words(url@),
    {
        match self {
            SendFailure::Status(code) => {
                let mut res = "remote endpoint returned HTTP ".to_owned();
                res.append(number(*code as u64).as_str());
                res
            },
            SendFailure::Timeout => "request timed out".to_owned(),
            SendFailure::HostNotFound => "webhook host could not be resolved".to_owned(),
            SendFailure::RequireHttpsOnly => "a non-HTTPS URL or redirect was refused".to_owned(),
            SendFailure::Tls => "TLS connection or certificate validation failed".to_owned(),
            SendFailure::BadUri(text) => replaced(text.as_str(), url, "[redacted-url]"),
            SendFailure::Http(text) => replaced(text.as_str(), url, "[redacted-url]"),
            SendFailure::RedirectFailed(text) => replaced(text.as_str(), url, "[redacted-url]"),
            SendFailure::TooManyRedirects(text) => replaced(text.as_str(), url, "[redacted-url]"),
            SendFailure::Other(text) => replaced(text.as_str(), url, "[redacted-url]"),
        }
    }
}

/// Two to the power of `n`.
pub open spec fn doubled(n: nat) -> nat
    decreases n,
{
    if n == 0 {
        1
    } else {
        2 * doubled((n - 1) as nat)
    }
}

/// The pause after a failed attempt, in milliseconds: it doubles with each of
/// the first eleven attempts, up to half a minute.
pub open spec fn pause(backoff: u64, attempt: u32) -> int {
    let doublings = if attempt <= 10 {
        attempt - 1
    } else {
        10
    };
    let wanted = backoff * doubled(doublings as nat);
    if wanted < MAX_RETRY_DELAY_MILLISECONDS {
        wanted
    } else {
        MAX_RETRY_DELAY_MILLISECONDS as int
    }
}

pub fn retry_delay(backoff: u64, attempt: u32) -> (res: u64)
    requires
        attempt >= 1,
    ensures
        res == pause(backoff, attempt),
        res <= MAX_RETRY_DELAY_MILLISECONDS,
{
    let doublings: u32 = if attempt <= 10 {
        attempt - 1
    } else {
        10
    };
    let mut wanted: u64 = backoff;
    let mut i: u32 = 0;
    assert(doubled(0) == 1);
    assert(backoff * 1 == backoff);
    while i < doublings && wanted < MAX_RETRY_DELAY_MILLISECONDS
        invariant
            i <= doublings,
            wanted == backoff * doubled(i as nat),
        decreases doublings - i,
    {
        assert(backoff * (2 * doubled(i as nat)) == 2 * (backoff * doubled(i as nat)))
            by (nonlinear_arith);
        wanted = wanted * 2;
        i += 1;
    }
    proof {
        lemma_doubled_grows(i as nat, doublings as nat);
        assert(backoff * doubled(i as nat) <= backoff * doubled(doublings as nat))
            by (nonlinear_arith)
            requires
                doubled(i as nat) <= doubled(doublings as nat),
                backoff >= 0,
        ;
    }
    if wanted < MAX_RETRY_DELAY_MILLISECONDS {
        wanted
    } else {
        MAX_RETRY_DELAY_MILLISECONDS
    }
}

proof fn lemma_doubled_grows(a: nat, b: nat)
    requires
        a <= b,
    ensures
        doubled(a) <= doubled(b),
    decreases b,
{
    if a < b {
        lemma_doubled_grows(a, (b - 1) as nat);
    }
}

/// A delivery under way.
pub struct Courier {
    pub url: String,
    pub body: String,
    pub max_attempts: u32,
    pub backoff: u64,
    /// Whether another request is to be made.
    pub pending: bool,
    pub delivery: NotificationDelivery,
}

/// The model of a [`Courier`].
pub struct CourierModel {
    pub url: Seq<char>,
    pub body: Seq<char>,
    pub max_attempts: u32,
    pub backoff: u64,
    pub pending: bool,
    pub delivery: DeliveryModel,
}

impl View for Courier {
    type V = CourierModel;

    open spec fn view(&self) -> CourierModel {
        CourierModel {
            url: self.url@,
            body: self.body@,
            max_attempts: self.max_attempts,
            backoff: self.backoff,
            pending: self.pending,
            delivery: self.delivery@,
        }
    }
}

impl CourierModel {
    /// A request is only to be made where attempts are left.
    pub open spec fn well_formed(self) -> bool {
        &&& self.delivery.attempts <= self.max_attempts
        &&& self.pending ==> self.delivery.attempts < self.max_attempts
    }

    /// The delivery after a request and its outcome. A message that came
    /// through was delivered, whatever failed before.
    pub open spec fn after(self, outcome: Result<(), SendFailure>) -> CourierModel {
        let attempt = (self.delivery.attempts + 1) as u32;
        match outcome {
            Ok(_) => CourierModel {
                pending: false,
                delivery: DeliveryModel { attempts: attempt, error: None, ..self.delivery },
                ..self
            },
            Err(failure) => CourierModel {
                pending: failure.may_pass() && attempt < self.max_attempts,
                delivery: DeliveryModel {
                    attempts: attempt,
                    error: Some(failure.words(self.url)),
                    ..self.delivery
                },
                ..self
            },
        }
    }
}

/// A delivery before its first request; without a URL there will be none.
pub open spec fn courier_for(
    config: NotificationsModel,
    hook: WebhookModel,
    message: Seq<char>,
    url: Result<Seq<char>, Seq<char>>,
) -> CourierModel {
    CourierModel {
        url: match url {
            Ok(url) => url,
            Err(_) => Seq::empty(),
        },
        body: json_text(payload_value(hook.kind, message)),
        max_attempts: config.max_attempts,
        backoff: config.retry_backoff_milliseconds,
        pending: url is Ok && config.max_attempts > 0,
        delivery: DeliveryModel {
            target: hook.name,
            kind: hook.kind.text(),
            attempts: 0,
            error: match url {
                Ok(_) => None,
                Err(message) => Some(message),
            },
        },
    }
}

impl Courier {
    pub fn new(
        config: &Notifications,
        webhook: &WebhookConfig,
        message: &str,
        url: Result<String, Error>,
    ) -> (res: Self)
        ensures
            res@ == courier_for(
                config@,
                webhook@,
                message@,
                match url {
                    Ok(url) => Ok(url@),
                    Err(e) => Err(e@.message),
                },
            ),
            res@.well_formed(),
    {
        let body = payload(webhook.kind, message);
        let target = webhook.name.clone();
        let kind = webhook.kind.as_str().to_owned();
        let max_attempts: u32 = config.max_attempts;
        let backoff: u64 = config.retry_backoff_milliseconds;
        match url {
            Ok(url) => Courier {
                url,
                body,
                max_attempts,
                backoff,
                pending: max_attempts > 0,
                delivery: NotificationDelivery { target, kind, attempts: 0, error: None },
            },
            Err(e) => {
                let url = String::new();
                assert(url@ =~= Seq::empty());
                Courier {
                    url,
                    body,
                    max_attempts,
                    backoff,
                    pending: false,
                    delivery: NotificationDelivery {
                        target,
                        kind,
                        attempts: 0,
                        error: Some(e.message().to_owned()),
                    },
                }
            },
        }
    }

    /// Takes the outcome of a request. Where another one follows, the result
    /// is the pause before it, in milliseconds.
    pub fn complete(&mut self, outcome: Result<(), SendFailure>) -> (res: Option<u64>)
        requires
            old(self)@.well_formed(),
            old(self)@.pending,
        ensures
            final(self)@ == old(self)@.after(outcome),
            final(self)@.well_formed(),
            final(self)@.delivery.error is None <==> outcome is Ok,
            match res {
                Some(delay) => final(self)@.pending && delay == pause(
                    old(self)@.backoff,
                    final(self)@.delivery.attempts,
                ),
                None => !final(self)@.pending,
            },
    {
        let attempt: u32 = self.delivery.attempts + 1;
        self.delivery.attempts = attempt;
        match outcome {
            Ok(_) => {
                self.pending = false;
                self.delivery.error = None;
            },
            Err(failure) => {
                self.pending = failure.is_retryable() && attempt < self.max_attempts;
                self.delivery.error = Some(failure.describe(self.url.as_str()));
            },
        }
        if self.pending {
            Some(retry_delay(self.backoff, attempt))
        } else {
            None
        }
    }
}

} // verus!
