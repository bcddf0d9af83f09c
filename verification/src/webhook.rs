//! Notification targets: webhooks, their secrets, and the rules they obey.
use vstd::prelude::*;

use crate::error::{error, reports, Error};
use crate::names::{with_name, NameSet};
use crate::policy::{failure, or_else};
use crate::sort::views;
use crate::text::{characters, debug_text, has_char, join, joined, lemma_texts_push, quoted, same, texts, trim, trimmed};

verus! {

/// A text that no rendering shows.
pub struct SecretString(String);

impl View for SecretString {
    type V = Seq<char>;

    closed spec fn view(&self) -> Seq<char> {
        self.0@
    }
}

impl SecretString {
    pub fn new(value: String) -> (res: Self)
        ensures
            res@ == value@,
    {
        SecretString(value)
    }

    pub fn expose(&self) -> (res: &str)
        ensures
            res@ == self@,
    {
        self.0.as_str()
    }

    /// The rendering for logs: the same for every secret.
    pub fn redacted(&self) -> (res: String)
        ensures
            res@ == "[redacted]"@,
    {
        "[redacted]".to_owned()
    }
}

#[derive(Debug, Clone, Copy, PartialEq, Eq, Structural)]
pub enum WebhookKind {
    Discord,
    Flock,
    Slack,
}

impl WebhookKind {
    pub open spec fn text(self) -> Seq<char> {
        match self {
            WebhookKind::Discord => "discord"@,
            WebhookKind::Flock => "flock"@,
            WebhookKind::Slack => "slack"@,
        }
    }

    pub fn as_str(self) -> (res: &'static str)
        ensures
            res@ == self.text(),
    {
        match self {
            WebhookKind::Discord => "discord",
            WebhookKind::Flock => "flock",
            WebhookKind::Slack => "slack",
        }
    }

    pub open spec fn variant(self) -> Seq<char> {
        match self {
            WebhookKind::Discord => "Discord"@,
            WebhookKind::Flock => "Flock"@,
            WebhookKind::Slack => "Slack"@,
        }
    }
}

#[derive(Debug, Clone, Copy, PartialEq, Eq, Structural)]
pub enum WebhookEvent {
    Failure,
    Success,
}

impl WebhookEvent {
    pub open spec fn variant(self) -> Seq<char> {
        match self {
            WebhookEvent::Failure => "Failure"@,
            WebhookEvent::Success => "Success"@,
        }
    }
}

pub struct WebhookConfig {
    pub name: String,
    pub kind: WebhookKind,
    pub url: Option<SecretString>,
    pub url_env: Option<String>,
    pub events: Vec<WebhookEvent>,
    pub enabled: bool,
}

/// The model of a [`WebhookConfig`].
pub struct WebhookModel {
    pub name: Seq<char>,
    pub kind: WebhookKind,
    pub url: Option<Seq<char>>,
    pub url_env: Option<Seq<char>>,
    pub events: Seq<WebhookEvent>,
    pub enabled: bool,
}

/// The text of an optional string.
pub open spec fn optional_text<T: View<V = Seq<char>>>(text: Option<T>) -> Option<Seq<char>> {
    match text {
        Some(value) => Some(value@),
        None => None,
    }
}

impl View for WebhookConfig {
    type V = WebhookModel;

    open spec fn view(&self) -> WebhookModel {
        WebhookModel {
            name: self.name@,
            kind: self.kind,
            url: optional_text(self.url),
            url_env: optional_text(self.url_env),
            events: self.events@,
            enabled: self.enabled,
        }
    }
}

pub open spec fn variants(events: Seq<WebhookEvent>) -> Seq<Seq<char>> {
    events.map_values(|event: WebhookEvent| event.variant())
}

/// The events in brackets, separated by commas.
pub open spec fn events_text(events: Seq<WebhookEvent>) -> Seq<char> {
    "["@ + join(variants(events), ", "@) + "]"@
}

/// The rendering of a webhook for logs. Of the URL it shows only whether
/// there is one.
pub open spec fn webhook_text(hook: WebhookModel) -> Seq<char> {
    "WebhookConfig { name: "@ + debug_text(hook.name) + ", kind: "@ + hook.kind.variant() + (
    if hook.url is Some {
        ", url: Some([redacted])"@
    } else {
        ", url: None"@
    }) + (match hook.url_env {
        Some(variable) => ", url_env: Some("@ + debug_text(variable) + ")"@,
        None => ", url_env: None"@,
    }) + ", events: "@ + events_text(hook.events) + (if hook.enabled {
        ", enabled: true }"@
    } else {
        ", enabled: false }"@
    })
}

/// Redaction: the rendering of a webhook does not depend on its secret URL.
pub proof fn law_rendering_hides_the_url(first: WebhookModel, second: WebhookModel)
    requires
        first.name == second.name,
        first.kind == second.kind,
        first.url_env == second.url_env,
        first.events == second.events,
        first.enabled == second.enabled,
        first.url is Some,
        second.url is Some,
    ensures
        webhook_text(first) == webhook_text(second),
{
}

fn render_events(events: &Vec<WebhookEvent>) -> (res: String)
    ensures
        res@ == events_text(events@),
{
    let mut names: Vec<String> = Vec::new();
    let mut i: usize = 0;
    assert(texts(names@) =~= variants(events@).take(0));
    while i < events.len()
        invariant
            i <= events@.len(),
            texts(names@) == variants(events@).take(i as int),
        decreases events.len() - i,
    {
        let name = match events[i] {
            WebhookEvent::Failure => "Failure".to_owned(),
            WebhookEvent::Success => "Success".to_owned(),
        };
        proof {
            lemma_texts_push(names@, name);
            assert(variants(events@).take(i + 1) =~= variants(events@).take(i as int).push(name@));
        }
        names.push(name);
        i += 1;
    }
    assert(variants(events@).take(i as int) =~= variants(events@));
    let mut text = "[".to_owned();
    text.append(joined(&names, ", ").as_str());
    text.append("]");
    text
}

impl WebhookConfig {
    /// The rendering for logs, without the secret.
    pub fn redacted(&self) -> (res: String)
        ensures
            res@ == webhook_text(self@),
    {
        let mut text = "WebhookConfig { name: ".to_owned();
        text.append(quoted(self.name.as_str()).as_str());
        text.append(", kind: ");
        match self.kind {
            WebhookKind::Discord => text.append("Discord"),
            WebhookKind::Flock => text.append("Flock"),
            WebhookKind::Slack => text.append("Slack"),
        }
        match &self.url {
            Some(_) => text.append(", url: Some([redacted])"),
            None => text.append(", url: None"),
        }
        match &self.url_env {
            Some(variable) => {
                let mut part = ", url_env: Some(".to_owned();
                part.append(quoted(variable.as_str()).as_str());
                part.append(")");
                text.append(part.as_str());
            },
            None => text.append(", url_env: None"),
        }
        text.append(", events: ");
        text.append(render_events(&self.events).as_str());
        if self.enabled {
            text.append(", enabled: true }");
        } else {
            text.append(", enabled: false }");
        }
        text
    }
}

// ---------------------------------------------------------------------------
// URLs
// ---------------------------------------------------------------------------

/// What `http::Uri` finds in a URL: nothing where the URL does not parse, and
/// otherwise its scheme and whether it has an authority.
pub uninterp spec fn uri_parts(url: Seq<char>) -> Option<(Option<Seq<char>>, bool)>;

pub open spec fn optional_parts(parts: Option<(Option<String>, bool)>) -> Option<
    (Option<Seq<char>>, bool),
> {
    match parts {
        Some((scheme, authority)) => Some((optional_text(scheme), authority)),
        None => None,
    }
}

/// Parses a URL with `str::parse::<http::Uri>`, and reads the scheme and the
/// presence of an authority off the result. The grammar of URLs is that of the
/// `http` crate; it is left unsaid here, beyond the fact that the answer
/// depends on the text alone.
#[verifier::external_body]
fn parse_uri(url: &str) -> (res: Option<(Option<String>, bool)>)
    ensures
        optional_parts(res) == uri_parts(url@),
{
    match url.parse::<ureq::http::Uri>() {
        Ok(uri) => Some((uri.scheme_str().map(str::to_owned), uri.authority().is_some())),
        Err(_) => None,
    }
}

/// The first fault of the parts of a webhook URL.
pub open spec fn parts_fault(parts: Option<(Option<Seq<char>>, bool)>, context: Seq<char>) -> Option<
    Seq<char>,
> {
    match parts {
        None => Some(context + ": invalid webhook URL"@),
        Some((None, _)) => Some(context + ": webhook URL must include a scheme"@),
        Some((Some(scheme), authority)) => if !authority {
            Some(context + ": webhook URL must include a host"@)
        } else if scheme != "https"@ {
            Some(context + ": webhook URL must use HTTPS"@)
        } else {
            None
        },
    }
}

/// Checks the parts of a webhook URL: a scheme, a host, and HTTPS.
pub fn validate_uri_parts(parts: Option<(Option<String>, bool)>, context: &str) -> (res: Result<
    (),
    Error,
>)
    ensures
        reports(res, parts_fault(optional_parts(parts), context@)),
{
    match parts {
        None => failure(context, ": invalid webhook URL"),
        Some((None, _)) => failure(context, ": webhook URL must include a scheme"),
        Some((Some(scheme), authority)) => if !authority {
            failure(context, ": webhook URL must include a host")
        } else if !same(scheme.as_str(), "https") {
            failure(context, ": webhook URL must use HTTPS")
        } else {
            Ok(())
        },
    }
}

pub open spec fn url_fault(url: Seq<char>, context: Seq<char>) -> Option<Seq<char>> {
    parts_fault(uri_parts(url), context)
}

pub fn validate_webhook_url(url: &str, context: &str) -> (res: Result<(), Error>)
    ensures
        reports(res, url_fault(url@, context@)),
{
    validate_uri_parts(parse_uri(url), context)
}

// ---------------------------------------------------------------------------
// Rules of a list of webhooks
// ---------------------------------------------------------------------------

pub open spec fn is_name_start(c: char) -> bool {
    c == '_' || 'A' <= c <= 'Z' || 'a' <= c <= 'z'
}

/// A portable name of an environment variable: a letter or underscore, then
/// letters, digits and underscores.
pub open spec fn is_portable(name: Seq<char>) -> bool {
    &&& name.len() > 0
    &&& is_name_start(name[0])
    &&& forall|i: int|
        0 < i < name.len() ==> is_name_start(#[trigger] name[i]) || '0' <= name[i] <= '9'
}

pub fn is_portable_environment_name(name: &str) -> (res: bool)
    ensures
        res == is_portable(name@),
{
    let x = characters(name);
    if x.len() == 0 {
        return false;
    }
    let mut i: usize = 0;
    while i < x.len()
        invariant
            i <= x@.len(),
            x@ == name@,
            i > 0 ==> is_name_start(x@[0]),
            forall|j: int|
                0 < j < i ==> is_name_start(#[trigger] x@[j]) || '0' <= x@[j] <= '9',
        decreases x.len() - i,
    {
        let c = x[i];
        let letter = c == '_' || ('A' <= c && c <= 'Z') || ('a' <= c && c <= 'z');
        let digit = i > 0 && '0' <= c && c <= '9';
        if !letter && !digit {
            assert(!is_name_start(x@[i as int]));
            return false;
        }
        i += 1;
    }
    true
}

/// Line breaks and NUL bytes, which no name may hold.
pub open spec fn has_control(text: Seq<char>) -> bool {
    text.contains('\n') || text.contains('\r') || text.contains('\0')
}

pub(crate) fn contains_control(text: &str) -> (res: bool)
    ensures
        res == has_control(text@),
{
    has_char(text, '\n') || has_char(text, '\r') || has_char(text, '\0')
}

/// No event occurs twice.
pub open spec fn all_different(events: Seq<WebhookEvent>) -> bool {
    forall|i: int, j: int| 0 <= i < j < events.len() ==> events[i] != events[j]
}

fn events_differ(events: &Vec<WebhookEvent>) -> (res: bool)
    ensures
        res == all_different(events@),
{
    let mut i: usize = 0;
    while i < events.len()
        invariant
            i <= events@.len(),
            forall|a: int, b: int| 0 <= a < b < i ==> events@[a] != events@[b],
        decreases events.len() - i,
    {
        let mut j: usize = 0;
        while j < i
            invariant
                j <= i < events@.len(),
                forall|a: int| 0 <= a < j ==> events@[a] != events@[i as int],
            decreases i - j,
        {
            if events[j] == events[i] {
                assert(events@[j as int] == events@[i as int]);
                return false;
            }
            j += 1;
        }
        i += 1;
    }
    true
}

pub open spec fn webhook_context(name: Seq<char>) -> Seq<char> {
    "notification webhook "@ + debug_text(name)
}

/// The first fault of one webhook; `seen` holds the names before it.
pub open spec fn webhook_fault(hook: WebhookModel, seen: Seq<Seq<char>>) -> Option<Seq<char>> {
    let context = webhook_context(hook.name);
    if trim(hook.name).len() == 0 {
        Some("webhook names cannot be empty"@)
    } else if has_control(hook.name) {
        Some(context + ": name cannot contain line breaks or NUL bytes"@)
    } else if seen.contains(hook.name) {
        Some("duplicate notification webhook name "@ + debug_text(hook.name))
    } else if hook.url is Some == hook.url_env is Some {
        Some(context + ": configure exactly one of url or url_env"@)
    } else if hook.events.len() == 0 {
        Some(context + ": events cannot be empty"@)
    } else if !all_different(hook.events) {
        Some(context + ": events cannot contain duplicates"@)
    } else {
        or_else(
            match hook.url {
                Some(url) => url_fault(url, context),
                None => None,
            },
            match hook.url_env {
                Some(variable) => if is_portable(variable) {
                    None
                } else {
                    Some(context + ": url_env must be a portable environment variable name"@)
                },
                None => None,
            },
        )
    }
}

/// The first fault of the webhooks from `i` on.
pub open spec fn webhooks_fault(hooks: Seq<WebhookModel>, i: int, seen: Seq<Seq<char>>) -> Option<
    Seq<char>,
>
    decreases hooks.len() - i,
{
    if i >= hooks.len() {
        None
    } else {
        or_else(
            webhook_fault(hooks[i], seen),
            webhooks_fault(hooks, i + 1, with_name(seen, hooks[i].name)),
        )
    }
}

/// Checks one webhook against the names before it, and adds its name.
fn validate_webhook(hook: &WebhookConfig, seen: &mut NameSet) -> (res: Result<(), Error>)
    ensures
        reports(res, webhook_fault(hook@, old(seen)@)),
        res is Ok ==> final(seen)@ == with_name(old(seen)@, hook.name@),
{
    let mut context = "notification webhook ".to_owned();
    context.append(quoted(hook.name.as_str()).as_str());
    if trimmed(hook.name.as_str()).as_str().is_empty() {
        return Err(error("webhook names cannot be empty"));
    }
    if contains_control(hook.name.as_str()) {
        return failure(context.as_str(), ": name cannot contain line breaks or NUL bytes");
    }
    if !seen.insert(hook.name.clone()) {
        return failure(
            "duplicate notification webhook name ",
            quoted(hook.name.as_str()).as_str(),
        );
    }
    if hook.url.is_some() == hook.url_env.is_some() {
        return failure(context.as_str(), ": configure exactly one of url or url_env");
    }
    if hook.events.len() == 0 {
        return failure(context.as_str(), ": events cannot be empty");
    }
    if !events_differ(&hook.events) {
        return failure(context.as_str(), ": events cannot contain duplicates");
    }
    if let Some(url) = &hook.url {
        validate_webhook_url(url.expose(), context.as_str())?;
    }
    if let Some(variable) = &hook.url_env {
        if !is_portable_environment_name(variable.as_str()) {
            return failure(
                context.as_str(),
                ": url_env must be a portable environment variable name",
            );
        }
    }
    Ok(())
}

/// Checks a list of webhooks.
pub(crate) fn validate_webhooks(hooks: &Vec<WebhookConfig>) -> (res: Result<(), Error>)
    ensures
        reports(res, webhooks_fault(views(hooks@), 0, Seq::empty())),
{
    let mut seen = NameSet::new();
    let mut i: usize = 0;
    while i < hooks.len()
        invariant
            i <= hooks@.len(),
            webhooks_fault(views(hooks@), 0, Seq::empty()) == webhooks_fault(
                views(hooks@),
                i as int,
                seen@,
            ),
        decreases hooks.len() - i,
    {
        assert(views(hooks@)[i as int] == hooks@[i as int]@);
        validate_webhook(&hooks[i], &mut seen)?;
        i += 1;
    }
    Ok(())
}

} // verus!
