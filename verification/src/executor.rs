//! Execution of a plan, one pool at a time.
//!
//! The work of a pool becomes a list of steps. A [`PoolRun`] walks the list: it
//! hands out one request after the other, takes the outcome of each, and
//! decides from it what comes next. Commands and hooks themselves are run by
//! the caller.
use vstd::prelude::*;

use crate::config::{Settings, SettingsModel};
use crate::model::SnapshotKind;
use crate::names::NameSet;
use crate::planner::{count_prunes, prunes_in, snapshots_in, Plan, PlanModel, PruneAction, PruneActionModel, SnapshotAction, SnapshotActionModel};
use crate::policy::PolicyModel;
use crate::sort::{lemma_views_push, sort, sorted, views, Sortable};
use crate::text::{characters, copy_texts, cut, debug_text, decimal, has_char, has_prefix, is_space, is_whitespace, join, joined, lemma_texts_push, number, quoted, same, split, split_char, split_once, starts_with, texts, trim, trimmed};
use crate::zfs::{name_set, MANAGED_PROPERTY};

verus! {

// ---------------------------------------------------------------------------
// The destroy guard
// ---------------------------------------------------------------------------

pub open spec fn has_space(text: Seq<char>) -> bool {
    exists|i: int| 0 <= i < text.len() && is_space(#[trigger] text[i])
}

fn contains_space(text: &str) -> (res: bool)
    ensures
        res == has_space(text@),
{
    let x = characters(text);
    let mut i: usize = 0;
    while i < x.len()
        invariant
            i <= x@.len(),
            x@ == text@,
            forall|j: int| 0 <= j < i ==> !is_space(#[trigger] x@[j]),
        decreases x.len() - i,
    {
        if is_whitespace(x[i]) {
            return true;
        }
        i += 1;
    }
    false
}

/// A dataset that a destroy command may name.
pub open spec fn dataset_ok(dataset: Seq<char>) -> bool {
    &&& dataset.len() > 0
    &&& !has_prefix(dataset, "-"@)
    &&& !has_space(dataset)
    &&& !dataset.contains('@')
    &&& !dataset.contains('#')
    &&& !dataset.contains(',')
}

/// A snapshot that a destroy command may name.
pub open spec fn name_ok(name: Seq<char>) -> bool {
    &&& name.len() > 0
    &&& !has_prefix(name, "-"@)
    &&& !has_space(name)
    &&& !name.contains('@')
    &&& !name.contains('#')
    &&& !name.contains('%')
    &&& !name.contains('/')
}

pub open spec fn names_ok(names: Seq<Seq<char>>) -> bool {
    forall|i: int| 0 <= i < names.len() ==> name_ok(#[trigger] names[i])
}

/// Why a command is not a plain deletion of snapshots; nothing where it is
/// one: `destroy dataset@name[,name...]`.
pub open spec fn destroy_fault(arguments: Seq<Seq<char>>) -> Option<Seq<char>> {
    if arguments.len() == 0 || arguments[0] != "destroy"@ {
        Some("command is not a snapshot deletion"@)
    } else if arguments.len() != 2 {
        Some("snapshot deletion requires exactly one target and no flags"@)
    } else {
        match cut(arguments[1], '@') {
            None => Some("target is not a dataset@snapshot expression"@),
            Some((dataset, names)) => if !dataset_ok(dataset) {
                Some("dataset portion is invalid"@)
            } else if !names_ok(split(names, ',')) {
                Some("snapshot name list is invalid"@)
            } else {
                None
            },
        }
    }
}

fn is_dataset_ok(dataset: &str) -> (res: bool)
    ensures
        res == dataset_ok(dataset@),
{
    !dataset.is_empty() && !starts_with(dataset, "-") && !contains_space(dataset) && !has_char(
        dataset,
        '@',
    ) && !has_char(dataset, '#') && !has_char(dataset, ',')
}

fn is_name_ok(name: &str) -> (res: bool)
    ensures
        res == name_ok(name@),
{
    !name.is_empty() && !starts_with(name, "-") && !contains_space(name) && !has_char(name, '@')
        && !has_char(name, '#') && !has_char(name, '%') && !has_char(name, '/')
}

fn are_names_ok(list: &str) -> (res: bool)
    ensures
        res == names_ok(split(list@, ',')),
{
    let names = split_char(list, ',');
    assert(texts(names@).len() == names@.len());
    let mut i: usize = 0;
    while i < names.len()
        invariant
            i <= names@.len(),
            texts(names@) == split(list@, ','),
            forall|j: int| 0 <= j < i ==> name_ok(#[trigger] split(list@, ',')[j]),
        decreases names.len() - i,
    {
        assert(split(list@, ',')[i as int] == names@[i as int]@);
        if !is_name_ok(names[i].as_str()) {
            return false;
        }
        i += 1;
    }
    true
}

/// The guard before every destroy command.
pub fn validate_snapshot_destroy_command(arguments: &Vec<String>) -> (res: Result<(), &'static str>)
    ensures
        match res {
            Ok(_) => destroy_fault(texts(arguments@)) is None,
            Err(reason) => destroy_fault(texts(arguments@)) == Some(reason@),
        },
{
    assert(forall|i: int|
        0 <= i < arguments@.len() ==> texts(arguments@)[i] == #[trigger] arguments@[i]@);
    if arguments.len() == 0 || !same(arguments[0].as_str(), "destroy") {
        return Err("command is not a snapshot deletion");
    }
    if arguments.len() != 2 {
        return Err("snapshot deletion requires exactly one target and no flags");
    }
    match split_once(arguments[1].as_str(), '@') {
        None => Err("target is not a dataset@snapshot expression"),
        Some((dataset, names)) => if !is_dataset_ok(dataset.as_str()) {
            Err("dataset portion is invalid")
        } else if !are_names_ok(names.as_str()) {
            Err("snapshot name list is invalid")
        } else {
            Ok(())
        },
    }
}

// ---------------------------------------------------------------------------
// Steps
// ---------------------------------------------------------------------------

/// A hook to run, with what its environment says.
pub struct Hook {
    pub command: Vec<String>,
    pub timeout: u64,
    pub script: String,
    pub target: String,
    pub names: String,
    pub types: String,
}

/// The model of a [`Hook`].
pub struct HookModel {
    pub command: Seq<Seq<char>>,
    pub timeout: u64,
    pub script: Seq<char>,
    pub target: Seq<char>,
    pub names: Seq<char>,
    pub types: Seq<char>,
}

impl View for Hook {
    type V = HookModel;

    open spec fn view(&self) -> HookModel {
        HookModel {
            command: texts(self.command@),
            timeout: self.timeout,
            script: self.script@,
            target: self.target@,
            names: self.names@,
            types: self.types@,
        }
    }
}

/// One step of the work of a pool.
pub enum Step {
    /// A new dataset or batch begins.
    Begin,
    /// Take snapshots with one command.
    Snapshots { arguments: Vec<String>, count: usize },
    /// Run the hook before the snapshots of a dataset; `stop` skips them when
    /// it fails.
    PreSnapshot { hook: Hook, stop: bool },
    /// Run the hook after the snapshots of a dataset; `force` runs it even when
    /// the hook before them failed.
    PostSnapshot { hook: Hook, force: bool },
    /// Pruning begins, unless a snapshot failed and there is anything to prune.
    Guard { prunes: usize, any: bool },
    /// Destroy snapshots with one command.
    Destroy { arguments: Vec<String>, count: usize },
    /// Run the hook before a snapshot is destroyed.
    PrePrune { hook: Hook },
    /// Run the hook after a snapshot was destroyed.
    PostPrune { hook: Hook },
}

/// The model of a [`Step`].
pub enum StepModel {
    Begin,
    Snapshots { arguments: Seq<Seq<char>>, count: nat },
    PreSnapshot { hook: HookModel, stop: bool },
    PostSnapshot { hook: HookModel, force: bool },
    Guard { prunes: nat, any: bool },
    Destroy { arguments: Seq<Seq<char>>, count: nat },
    PrePrune { hook: HookModel },
    PostPrune { hook: HookModel },
}

impl View for Step {
    type V = StepModel;

    open spec fn view(&self) -> StepModel {
        match *self {
            Step::Begin => StepModel::Begin,
            Step::Snapshots { arguments, count } => StepModel::Snapshots {
                arguments: texts(arguments@),
                count: count as nat,
            },
            Step::PreSnapshot { hook, stop } => StepModel::PreSnapshot { hook: hook@, stop },
            Step::PostSnapshot { hook, force } => StepModel::PostSnapshot { hook: hook@, force },
            Step::Guard { prunes, any } => StepModel::Guard { prunes: prunes as nat, any },
            Step::Destroy { arguments, count } => StepModel::Destroy {
                arguments: texts(arguments@),
                count: count as nat,
            },
            Step::PrePrune { hook } => StepModel::PrePrune { hook: hook@ },
            Step::PostPrune { hook } => StepModel::PostPrune { hook: hook@ },
        }
    }
}

/// A step that prunes, or a hook around one.
pub open spec fn is_prune_step(step: StepModel) -> bool {
    step is Destroy || step is PrePrune || step is PostPrune
}

/// A step that takes snapshots, or a hook around one.
pub open spec fn is_snapshot_step(step: StepModel) -> bool {
    step is Snapshots || step is PreSnapshot || step is PostSnapshot
}

// ---------------------------------------------------------------------------
// Requests
// ---------------------------------------------------------------------------

/// What the caller is to do next.
pub enum Request {
    /// Run the ZFS command with these arguments.
    Zfs(Vec<String>),
    /// Run a hook command within a number of seconds, zero for no limit, with
    /// these environment variables.
    Hook { command: Vec<String>, timeout: u64, variables: Vec<(String, String)> },
}

/// The model of a [`Request`].
pub enum RequestModel {
    Zfs(Seq<Seq<char>>),
    Hook { command: Seq<Seq<char>>, timeout: u64, variables: Seq<(Seq<char>, Seq<char>)> },
}

pub open spec fn pairs(v: Seq<(String, String)>) -> Seq<(Seq<char>, Seq<char>)> {
    v.map_values(|pair: (String, String)| (pair.0@, pair.1@))
}

impl View for Request {
    type V = RequestModel;

    open spec fn view(&self) -> RequestModel {
        match *self {
            Request::Zfs(arguments) => RequestModel::Zfs(texts(arguments@)),
            Request::Hook { command, timeout, variables } => RequestModel::Hook {
                command: texts(command@),
                timeout,
                variables: pairs(variables@),
            },
        }
    }
}

/// How a request ended.
pub enum Outcome {
    Succeeded,
    /// It ran and failed, with its status and its diagnostics.
    Failed { status: String, stderr: String },
    NotStarted(String),
    WaitFailed(String),
    /// A hook that ran longer than its limit.
    TimedOut,
}

/// The model of an [`Outcome`].
pub enum OutcomeModel {
    Succeeded,
    Failed { status: Seq<char>, stderr: Seq<char> },
    NotStarted(Seq<char>),
    WaitFailed(Seq<char>),
    TimedOut,
}

impl View for Outcome {
    type V = OutcomeModel;

    open spec fn view(&self) -> OutcomeModel {
        match *self {
            Outcome::Succeeded => OutcomeModel::Succeeded,
            Outcome::Failed { status, stderr } => OutcomeModel::Failed {
                status: status@,
                stderr: stderr@,
            },
            Outcome::NotStarted(error) => OutcomeModel::NotStarted(error@),
            Outcome::WaitFailed(error) => OutcomeModel::WaitFailed(error@),
            Outcome::TimedOut => OutcomeModel::TimedOut,
        }
    }
}

pub open spec fn variables_of(hook: HookModel, prefix: Seq<char>, pre_failure: bool) -> Seq<
    (Seq<char>, Seq<char>),
> {
    seq![
        (prefix + "SCRIPT"@, hook.script),
        (prefix + "TARGET"@, hook.target),
        (prefix + "TARGETS"@, hook.target),
        (prefix + "SNAPNAME"@, split(hook.names, ',')[0]),
        (prefix + "SNAPNAMES"@, hook.names),
        (prefix + "TYPES"@, hook.types),
        (prefix + "PRE_FAILURE"@, if pre_failure { "1"@ } else { "0"@ }),
    ]
}

/// The environment of a hook, under this program's names and under those of
/// the hooks it can take over.
pub open spec fn environment(hook: HookModel, pre_failure: bool) -> Seq<(Seq<char>, Seq<char>)> {
    variables_of(hook, "ZSNAP_"@, pre_failure) + variables_of(hook, "SANOID_"@, pre_failure)
}

pub open spec fn hook_request(hook: HookModel, pre_failure: bool) -> RequestModel {
    RequestModel::Hook {
        command: hook.command,
        timeout: hook.timeout,
        variables: environment(hook, pre_failure),
    }
}

fn push_variable(
    variables: &mut Vec<(String, String)>,
    prefix: &str,
    name: &str,
    value: &str,
)
    ensures
        pairs(final(variables)@) == pairs(old(variables)@).push((prefix@ + name@, value@)),
{
    let mut key = prefix.to_owned();
    key.append(name);
    let ghost before_push = variables@;
    variables.push((key, value.to_owned()));
    assert(pairs(variables@) =~= pairs(before_push).push((prefix@ + name@, value@)));
}

fn push_variables(
    variables: &mut Vec<(String, String)>,
    hook: &Hook,
    prefix: &str,
    pre_failure: bool,
)
    ensures
        pairs(final(variables)@) == pairs(old(variables)@) + variables_of(
            hook@,
            prefix@,
            pre_failure,
        ),
{
    let ghost start = pairs(variables@);
    let names = split_char(hook.names.as_str(), ',');
    assert(texts(names@)[0] == names@[0]@);
    let failure = if pre_failure {
        "1"
    } else {
        "0"
    };
    push_variable(variables, prefix, "SCRIPT", hook.script.as_str());
    push_variable(variables, prefix, "TARGET", hook.target.as_str());
    push_variable(variables, prefix, "TARGETS", hook.target.as_str());
    push_variable(variables, prefix, "SNAPNAME", names[0].as_str());
    push_variable(variables, prefix, "SNAPNAMES", hook.names.as_str());
    push_variable(variables, prefix, "TYPES", hook.types.as_str());
    push_variable(variables, prefix, "PRE_FAILURE", failure);
    assert(pairs(variables@) =~= start + variables_of(hook@, prefix@, pre_failure));
}

fn request_hook(hook: &Hook, pre_failure: bool) -> (res: Request)
    ensures
        res@ == hook_request(hook@, pre_failure),
{
    let mut variables: Vec<(String, String)> = Vec::new();
    assert(pairs(variables@) =~= Seq::<(Seq<char>, Seq<char>)>::empty());
    push_variables(&mut variables, hook, "ZSNAP_", pre_failure);
    push_variables(&mut variables, hook, "SANOID_", pre_failure);
    assert(pairs(variables@) =~= environment(hook@, pre_failure));
    Request::Hook { command: copy_texts(&hook.command), timeout: hook.timeout, variables }
}

pub open spec fn quoted_all(parts: Seq<Seq<char>>) -> Seq<Seq<char>> {
    parts.map_values(|part: Seq<char>| debug_text(part))
}

/// A command as it appears in logs: each part quoted.
pub open spec fn rendered(command: Seq<Seq<char>>) -> Seq<char> {
    join(quoted_all(command), " "@)
}

fn render_command(command: &Vec<String>) -> (res: String)
    ensures
        res@ == rendered(texts(command@)),
{
    let mut parts: Vec<String> = Vec::new();
    let ghost all = quoted_all(texts(command@));
    let mut i: usize = 0;
    assert(texts(parts@) =~= all.take(0));
    while i < command.len()
        invariant
            i <= command@.len(),
            all == quoted_all(texts(command@)),
            texts(parts@) == all.take(i as int),
        decreases command.len() - i,
    {
        let part = quoted(command[i].as_str());
        proof {
            lemma_texts_push(parts@, part);
            assert(all.take(i + 1) =~= all.take(i as int).push(part@));
        }
        parts.push(part);
        i += 1;
    }
    assert(all.take(i as int) =~= all);
    joined(&parts, " ")
}

// ---------------------------------------------------------------------------
// The state of a run
// ---------------------------------------------------------------------------

/// Snapshots that the steps from `at` on can take.
pub open spec fn snapshots_left(steps: Seq<StepModel>, at: int) -> nat
    decreases steps.len() - at,
{
    if at >= steps.len() {
        0
    } else {
        (match steps[at] {
            StepModel::Snapshots { count, .. } => count,
            _ => 0,
        }) + snapshots_left(steps, at + 1)
    }
}

/// Snapshots that the steps from `at` on can destroy.
pub open spec fn prunes_left(steps: Seq<StepModel>, at: int) -> nat
    decreases steps.len() - at,
{
    if at >= steps.len() {
        0
    } else {
        (match steps[at] {
            StepModel::Destroy { count, .. } => count,
            _ => 0,
        }) + prunes_left(steps, at + 1)
    }
}

/// The state of the work of a pool.
#[verifier::ext_equal]
pub struct RunModel {
    pub pool: Seq<char>,
    pub zfs_command: Seq<char>,
    pub dry_run: bool,
    pub steps: Seq<StepModel>,
    /// The current step.
    pub at: int,
    /// The request of the current step is out.
    pub waiting: bool,
    /// The hook before the current snapshots did not fail.
    pub pre_ok: bool,
    /// The rest of the current dataset or batch is skipped.
    pub skip: bool,
    /// A snapshot or one of its hooks failed.
    pub failed: bool,
    pub created: nat,
    pub pruned: nat,
    pub skipped: nat,
    pub errors: Seq<Seq<char>>,
    pub logs: Seq<Seq<char>>,
}

impl RunModel {
    pub open spec fn step(self) -> StepModel {
        self.steps[self.at]
    }

    pub open spec fn done(self) -> bool {
        self.at >= self.steps.len()
    }

    /// A line about the pool.
    pub open spec fn line(self, text: Seq<char>) -> Seq<char> {
        "["@ + self.pool + "] "@ + text
    }

    pub open spec fn with_error(self, text: Seq<char>) -> RunModel {
        RunModel { errors: self.errors.push(self.line(text)), ..self }
    }

    pub open spec fn with_log(self, text: Seq<char>) -> RunModel {
        RunModel { logs: self.logs.push(self.line(text)), ..self }
    }

    /// What the current step asks for, if anything.
    pub open spec fn wanted(self) -> Option<RequestModel> {
        match self.step() {
            StepModel::Begin => None,
            StepModel::Guard { .. } => None,
            StepModel::Snapshots { arguments, .. } => if self.skip {
                None
            } else {
                Some(RequestModel::Zfs(arguments))
            },
            StepModel::PreSnapshot { hook, .. } => Some(hook_request(hook, false)),
            StepModel::PostSnapshot { hook, force } => if self.pre_ok || force {
                Some(hook_request(hook, !self.pre_ok))
            } else {
                None
            },
            StepModel::Destroy { arguments, .. } => if self.skip {
                None
            } else {
                Some(RequestModel::Zfs(arguments))
            },
            StepModel::PrePrune { hook } => Some(hook_request(hook, false)),
            StepModel::PostPrune { hook } => if self.skip {
                None
            } else {
                Some(hook_request(hook, false))
            },
        }
    }

    /// The state after a step that asks for nothing.
    pub open spec fn passed(self) -> RunModel {
        match self.step() {
            StepModel::Begin => RunModel { at: self.at + 1, pre_ok: true, skip: false, ..self },
            StepModel::Guard { prunes, any } => if self.failed && any {
                let stopped = RunModel { at: self.steps.len() as int, skipped: prunes, ..self };
                stopped.with_log(
                    "skipped "@ + decimal(prunes)
                        + " prune(s) because snapshot creation or a snapshot hook failed"@,
                )
            } else {
                RunModel { at: self.at + 1, ..self }
            },
            _ => RunModel { at: self.at + 1, ..self },
        }
    }

    /// The state after a step whose request ended well or badly.
    pub open spec fn settled(self, ok: bool) -> RunModel {
        let next = RunModel { at: self.at + 1, ..self };
        match self.step() {
            StepModel::Snapshots { count, .. } => if ok {
                RunModel { created: self.created + count, ..next }
            } else {
                RunModel { failed: true, ..next }
            },
            StepModel::PreSnapshot { hook, stop } => if ok {
                next
            } else if stop {
                let stopped = RunModel { pre_ok: false, skip: true, failed: true, ..next };
                stopped.with_error(
                    "pre-snapshot hook failed for "@ + hook.target + "; snapshot skipped"@,
                )
            } else {
                RunModel { pre_ok: false, failed: true, ..next }
            },
            StepModel::PostSnapshot { .. } => if ok {
                next
            } else {
                RunModel { failed: true, ..next }
            },
            StepModel::Destroy { count, .. } => if ok {
                RunModel { pruned: self.pruned + count, ..next }
            } else {
                RunModel { skip: true, ..next }
            },
            StepModel::PrePrune { hook } => if ok {
                next
            } else {
                let stopped = RunModel { skip: true, ..next };
                stopped.with_error(
                    "pre-pruning hook failed for "@ + hook.target + "@"@ + hook.names
                        + "; prune skipped"@,
                )
            },
            _ => next,
        }
    }

    /// A request as it appears in logs.
    pub open spec fn text_of(self, request: RequestModel) -> Seq<char> {
        match request {
            RequestModel::Zfs(arguments) => rendered(seq![self.zfs_command] + arguments),
            RequestModel::Hook { command, .. } => rendered(command),
        }
    }

    /// Why a request must not go out.
    pub open spec fn refusal(self, request: RequestModel) -> Option<Seq<char>> {
        match request {
            RequestModel::Zfs(arguments) => if arguments.len() > 0 && arguments[0] == "destroy"@ {
                destroy_fault(arguments)
            } else {
                None
            },
            RequestModel::Hook { .. } => None,
        }
    }

    pub open spec fn would_run(self, request: RequestModel) -> RunModel {
        match request {
            RequestModel::Zfs(_) => self.with_log("WOULD RUN "@ + self.text_of(request)),
            RequestModel::Hook { .. } => self.with_log(
                "WOULD RUN HOOK "@ + self.text_of(request),
            ),
        }
    }

    pub open spec fn runs(self, request: RequestModel) -> RunModel {
        match request {
            RequestModel::Zfs(_) => self.with_log("RUN "@ + self.text_of(request)),
            RequestModel::Hook { .. } => self.with_log("RUN HOOK "@ + self.text_of(request)),
        }
    }

    /// The state after the current step where the step needs no outside work:
    /// it asks for nothing, its request is refused, or the run is a dry run.
    pub open spec fn local(self) -> Option<RunModel> {
        match self.wanted() {
            None => Some(self.passed()),
            Some(request) => match self.refusal(request) {
                Some(reason) => Some(
                    self.with_error(
                        "refused unsafe ZFS destroy command "@ + self.text_of(request) + ": "@
                            + reason,
                    ).settled(false),
                ),
                None => if self.dry_run {
                    Some(self.would_run(request).settled(true))
                } else {
                    None
                },
            },
        }
    }

    /// The state at the next step that needs outside work, or at the end.
    pub open spec fn advanced(self) -> RunModel
        decreases self.steps.len() - self.at,
    {
        if self.done() {
            self
        } else {
            match self.local() {
                None => self,
                Some(next) => next.advanced(),
            }
        }
    }

    /// The state once the next request is out, or at the end.
    pub open spec fn issued(self) -> RunModel {
        let ready = self.advanced();
        if ready.done() {
            ready
        } else {
            match ready.wanted() {
                Some(request) => RunModel { waiting: true, ..ready.runs(request) },
                None => ready,
            }
        }
    }

    /// The request that is out.
    pub open spec fn request(self) -> Option<RequestModel> {
        if self.waiting {
            self.wanted()
        } else {
            None
        }
    }

    /// What is said of a request that ended badly.
    pub open spec fn fault(self, request: RequestModel, outcome: OutcomeModel) -> Option<Seq<char>> {
        let text = self.text_of(request);
        match (request, outcome) {
            (_, OutcomeModel::Succeeded) => None,
            (RequestModel::Zfs(_), OutcomeModel::Failed { status, stderr }) => Some(
                text + " failed with "@ + status + ": "@ + trim(stderr),
            ),
            (RequestModel::Zfs(_), OutcomeModel::NotStarted(error)) => Some(
                "failed to execute "@ + text + ": "@ + error,
            ),
            (RequestModel::Zfs(_), OutcomeModel::WaitFailed(error)) => Some(
                "failed to execute "@ + text + ": "@ + error,
            ),
            (RequestModel::Zfs(_), OutcomeModel::TimedOut) => Some(
                "failed to execute "@ + text + ": "@ + "timed out"@,
            ),
            (RequestModel::Hook { .. }, OutcomeModel::Failed { status, .. }) => Some(
                "hook "@ + text + " failed with "@ + status,
            ),
            (RequestModel::Hook { .. }, OutcomeModel::NotStarted(error)) => Some(
                "failed to start hook "@ + text + ": "@ + error,
            ),
            (RequestModel::Hook { .. }, OutcomeModel::WaitFailed(error)) => Some(
                "failed while waiting for hook "@ + text + ": "@ + error,
            ),
            (RequestModel::Hook { timeout, .. }, OutcomeModel::TimedOut) => Some(
                "hook "@ + text + " timed out after "@ + decimal(timeout as nat) + "s"@,
            ),
        }
    }

    /// The state after the outcome of the request that is out.
    pub open spec fn completed(self, outcome: OutcomeModel) -> RunModel {
        let idle = RunModel { waiting: false, ..self };
        match self.wanted() {
            None => idle,
            Some(request) => match self.fault(request, outcome) {
                None => idle.settled(true),
                Some(text) => idle.with_error(text).settled(false),
            },
        }
    }

    /// The counters cannot overflow, and a request is out only at a step that
    /// asks for one and may have it.
    pub open spec fn sound(self) -> bool {
        &&& 0 <= self.at <= self.steps.len()
        &&& self.created + snapshots_left(self.steps, self.at) <= usize::MAX
        &&& self.pruned + prunes_left(self.steps, self.at) <= usize::MAX
        &&& self.waiting ==> !self.done() && !self.dry_run && self.local() is None
    }
}

/// The work of a pool under way.
pub struct PoolRun {
    pool: String,
    zfs_command: String,
    dry_run: bool,
    steps: Vec<Step>,
    at: usize,
    waiting: bool,
    pre_ok: bool,
    skip: bool,
    failed: bool,
    created: usize,
    pruned: usize,
    skipped: usize,
    errors: Vec<String>,
    logs: Vec<String>,
}

impl View for PoolRun {
    type V = RunModel;

    closed spec fn view(&self) -> RunModel {
        RunModel {
            pool: self.pool@,
            zfs_command: self.zfs_command@,
            dry_run: self.dry_run,
            steps: views(self.steps@),
            at: self.at as int,
            waiting: self.waiting,
            pre_ok: self.pre_ok,
            skip: self.skip,
            failed: self.failed,
            created: self.created as nat,
            pruned: self.pruned as nat,
            skipped: self.skipped as nat,
            errors: texts(self.errors@),
            logs: texts(self.logs@),
        }
    }
}

/// The model of an optional request.
pub open spec fn optional_request(request: Option<Request>) -> Option<RequestModel> {
    match request {
        Some(request) => Some(request@),
        None => None,
    }
}

impl PoolRun {
    fn line(&self, text: &str) -> (res: String)
        ensures
            res@ == self@.line(text@),
    {
        let mut line = "[".to_owned();
        line.append(self.pool.as_str());
        line.append("] ");
        line.append(text);
        line
    }

    fn push_error(&mut self, text: &str)
        ensures
            final(self)@ == old(self)@.with_error(text@),
    {
        let line = self.line(text);
        proof {
            lemma_texts_push(self.errors@, line);
        }
        self.errors.push(line);
        assert(self@ =~= old(self)@.with_error(text@));
    }

    fn push_log(&mut self, text: &str)
        ensures
            final(self)@ == old(self)@.with_log(text@),
    {
        let line = self.line(text);
        proof {
            lemma_texts_push(self.logs@, line);
        }
        self.logs.push(line);
        assert(self@ =~= old(self)@.with_log(text@));
    }

    fn wanted(&self) -> (res: Option<Request>)
        requires
            0 <= self@.at < self@.steps.len(),
        ensures
            optional_request(res) == self@.wanted(),
    {
        assert(self@.steps[self.at as int] == self.steps@[self.at as int]@);
        match &self.steps[self.at] {
            Step::Begin => None,
            Step::Guard { .. } => None,
            Step::Snapshots { arguments, .. } => if self.skip {
                None
            } else {
                Some(Request::Zfs(copy_texts(arguments)))
            },
            Step::PreSnapshot { hook, .. } => Some(request_hook(hook, false)),
            Step::PostSnapshot { hook, force } => if self.pre_ok || *force {
                Some(request_hook(hook, !self.pre_ok))
            } else {
                None
            },
            Step::Destroy { arguments, .. } => if self.skip {
                None
            } else {
                Some(Request::Zfs(copy_texts(arguments)))
            },
            Step::PrePrune { hook } => Some(request_hook(hook, false)),
            Step::PostPrune { hook } => if self.skip {
                None
            } else {
                Some(request_hook(hook, false))
            },
        }
    }

    /// Passes a step that asks for nothing.
    fn pass(&mut self)
        requires
            0 <= old(self)@.at < old(self)@.steps.len(),
        ensures
            final(self)@ == old(self)@.passed(),
    {
        assert(self@.steps[self.at as int] == self.steps@[self.at as int]@);
        let end: usize = self.steps.len();
        assert(self.at < end);
        let step = &self.steps[self.at];
        match step {
            Step::Begin => {
                self.pre_ok = true;
                self.skip = false;
                self.at += 1;
            },
            Step::Guard { prunes, any } => {
                let count: usize = *prunes;
                if self.failed && *any {
                    self.skipped = count;
                    self.at = end;
                    let mut text = "skipped ".to_owned();
                    text.append(number(count as u64).as_str());
                    text.append(
                        " prune(s) because snapshot creation or a snapshot hook failed",
                    );
                    self.push_log(text.as_str());
                } else {
                    self.at += 1;
                }
            },
            _ => {
                self.at += 1;
            },
        }
        assert(self@ =~= old(self)@.passed());
    }

    /// Ends the current step well or badly.
    fn settle(&mut self, ok: bool)
        requires
            0 <= old(self)@.at < old(self)@.steps.len(),
            old(self)@.created + snapshots_left(old(self)@.steps, old(self)@.at) <= usize::MAX,
            old(self)@.pruned + prunes_left(old(self)@.steps, old(self)@.at) <= usize::MAX,
        ensures
            final(self)@ == old(self)@.settled(ok),
    {
        assert(self@.steps[self.at as int] == self.steps@[self.at as int]@);
        let end: usize = self.steps.len();
        assert(self.at < end);
        let step = &self.steps[self.at];
        match step {
            Step::Snapshots { count, .. } => {
                let count: usize = *count;
                self.at += 1;
                if ok {
                    self.created += count;
                } else {
                    self.failed = true;
                }
            },
            Step::PreSnapshot { hook, stop } => {
                let stop = *stop;
                let mut text = "pre-snapshot hook failed for ".to_owned();
                text.append(hook.target.as_str());
                text.append("; snapshot skipped");
                self.at += 1;
                if !ok {
                    self.pre_ok = false;
                    self.failed = true;
                    if stop {
                        self.skip = true;
                        self.push_error(text.as_str());
                    }
                }
            },
            Step::PostSnapshot { .. } => {
                self.at += 1;
                if !ok {
                    self.failed = true;
                }
            },
            Step::Destroy { count, .. } => {
                let count: usize = *count;
                self.at += 1;
                if ok {
                    self.pruned += count;
                } else {
                    self.skip = true;
                }
            },
            Step::PrePrune { hook } => {
                let mut text = "pre-pruning hook failed for ".to_owned();
                text.append(hook.target.as_str());
                text.append("@");
                text.append(hook.names.as_str());
                text.append("; prune skipped");
                self.at += 1;
                if !ok {
                    self.skip = true;
                    self.push_error(text.as_str());
                }
            },
            _ => {
                self.at += 1;
            },
        }
        assert(self@ =~= old(self)@.settled(ok));
    }

    fn text_of(&self, request: &Request) -> (res: String)
        ensures
            res@ == self@.text_of(request@),
    {
        match request {
            Request::Zfs(arguments) => {
                let mut command: Vec<String> = Vec::new();
                command.push(self.zfs_command.clone());
                let mut i: usize = 0;
                assert(texts(command@) =~= seq![self.zfs_command@] + texts(arguments@).take(0));
                while i < arguments.len()
                    invariant
                        i <= arguments@.len(),
                        texts(command@) == seq![self.zfs_command@] + texts(arguments@).take(
                            i as int,
                        ),
                    decreases arguments.len() - i,
                {
                    let part = arguments[i].clone();
                    proof {
                        lemma_texts_push(command@, part);
                        assert(seq![self.zfs_command@] + texts(arguments@).take(i + 1) =~= (
                        seq![self.zfs_command@] + texts(arguments@).take(i as int)).push(part@));
                    }
                    command.push(part);
                    i += 1;
                }
                assert(texts(arguments@).take(i as int) =~= texts(arguments@));
                render_command(&command)
            },
            Request::Hook { command, .. } => render_command(command),
        }
    }

    fn refusal(&self, request: &Request) -> (res: Option<&'static str>)
        ensures
            match res {
                Some(reason) => self@.refusal(request@) == Some(reason@),
                None => self@.refusal(request@) is None,
            },
    {
        match request {
            Request::Zfs(arguments) => {
                assert(arguments@.len() > 0 ==> texts(arguments@)[0] == arguments@[0]@);
                if arguments.len() > 0 && same(arguments[0].as_str(), "destroy") {
                    match validate_snapshot_destroy_command(arguments) {
                        Ok(()) => None,
                        Err(reason) => Some(reason),
                    }
                } else {
                    None
                }
            },
            Request::Hook { .. } => None,
        }
    }

    /// Logs that a request goes out, or would go out.
    fn log_request(&mut self, zfs: &str, hook: &str, request: &Request)
        ensures
            final(self)@ == old(self)@.with_log(
                (match request@ {
                    RequestModel::Zfs(_) => zfs@,
                    RequestModel::Hook { .. } => hook@,
                }) + old(self)@.text_of(request@),
            ),
    {
        let mut text = match request {
            Request::Zfs(_) => zfs.to_owned(),
            Request::Hook { .. } => hook.to_owned(),
        };
        text.append(self.text_of(request).as_str());
        self.push_log(text.as_str());
    }

    /// The next request, or nothing at the end of the work.
    pub fn next(&mut self) -> (res: Option<Request>)
        requires
            old(self)@.sound(),
            !old(self)@.waiting,
        ensures
            final(self)@ == old(self)@.issued(),
            optional_request(res) == final(self)@.request(),
            final(self)@.sound(),
            res is None ==> final(self)@.done(),
            res is Some ==> final(self)@.waiting,
    {
        while self.at < self.steps.len()
            invariant
                self@.sound(),
                !self@.waiting,
                self@.advanced() == old(self)@.advanced(),
            decreases self.steps.len() - self.at,
        {
            let ghost here = self@;
            let request = match self.wanted() {
                None => {
                    self.pass();
                    continue;
                },
                Some(request) => request,
            };
            if let Some(reason) = self.refusal(&request) {
                let mut text = "refused unsafe ZFS destroy command ".to_owned();
                text.append(self.text_of(&request).as_str());
                text.append(": ");
                text.append(reason);
                self.push_error(text.as_str());
                self.settle(false);
                continue;
            }
            if self.dry_run {
                self.log_request("WOULD RUN ", "WOULD RUN HOOK ", &request);
                self.settle(true);
                continue;
            }
            self.log_request("RUN ", "RUN HOOK ", &request);
            self.waiting = true;
            assert(self@ =~= RunModel { waiting: true, ..here.runs(request@) });
            return Some(request);
        }
        None
    }

    /// Whether the request that is out belongs to the pruning of the pool.
    pub fn pruning(&self) -> (res: bool)
        requires
            self@.sound(),
        ensures
            res == (self@.waiting && is_prune_step(self@.step())),
    {
        if !self.waiting {
            return false;
        }
        match &self.steps[self.at] {
            Step::Destroy { .. } | Step::PrePrune { .. } | Step::PostPrune { .. } => true,
            _ => false,
        }
    }

    fn fault(&self, request: &Request, outcome: &Outcome) -> (res: Option<String>)
        ensures
            match res {
                Some(text) => self@.fault(request@, outcome@) == Some(text@),
                None => self@.fault(request@, outcome@) is None,
            },
    {
        let text = self.text_of(request);
        match (request, outcome) {
            (_, Outcome::Succeeded) => None,
            (Request::Zfs(_), Outcome::Failed { status, stderr }) => {
                let mut message = text;
                message.append(" failed with ");
                message.append(status.as_str());
                message.append(": ");
                message.append(trimmed(stderr.as_str()).as_str());
                Some(message)
            },
            (Request::Zfs(_), Outcome::NotStarted(error)) => Some(
                reason("failed to execute ", text.as_str(), ": ", error.as_str()),
            ),
            (Request::Zfs(_), Outcome::WaitFailed(error)) => Some(
                reason("failed to execute ", text.as_str(), ": ", error.as_str()),
            ),
            (Request::Zfs(_), Outcome::TimedOut) => Some(
                reason("failed to execute ", text.as_str(), ": ", "timed out"),
            ),
            (Request::Hook { .. }, Outcome::Failed { status, .. }) => Some(
                reason("hook ", text.as_str(), " failed with ", status.as_str()),
            ),
            (Request::Hook { .. }, Outcome::NotStarted(error)) => Some(
                reason("failed to start hook ", text.as_str(), ": ", error.as_str()),
            ),
            (Request::Hook { .. }, Outcome::WaitFailed(error)) => Some(
                reason("failed while waiting for hook ", text.as_str(), ": ", error.as_str()),
            ),
            (Request::Hook { timeout, .. }, Outcome::TimedOut) => {
                let mut message = reason(
                    "hook ",
                    text.as_str(),
                    " timed out after ",
                    number(*timeout).as_str(),
                );
                message.append("s");
                Some(message)
            },
        }
    }

    /// Takes the outcome of the request that is out.
    pub fn complete(&mut self, outcome: Outcome)
        requires
            old(self)@.sound(),
            old(self)@.waiting,
        ensures
            final(self)@ == old(self)@.completed(outcome@),
            final(self)@.sound(),
            !final(self)@.waiting,
    {
        let ghost here = self@;
        let wanted = self.wanted();
        self.waiting = false;
        assert(self@ =~= RunModel { waiting: false, ..here });
        if let Some(request) = wanted {
            match self.fault(&request, &outcome) {
                None => self.settle(true),
                Some(text) => {
                    self.push_error(text.as_str());
                    self.settle(false);
                },
            }
        }
    }
}

fn reason(start: &str, text: &str, middle: &str, end: &str) -> (res: String)
    ensures
        res@ == start@ + text@ + middle@ + end@,
{
    let mut message = start.to_owned();
    message.append(text);
    message.append(middle);
    message.append(end);
    message
}

/// Whether a hook has run out of time after some nanoseconds. A timeout of zero
/// seconds is none; any other is over once it is reached.
pub fn is_overdue(timeout: u64, elapsed: u128) -> (res: bool)
    ensures
        res == (timeout > 0 && elapsed >= timeout * 1_000_000_000),
{
    timeout > 0 && elapsed / 1_000_000_000 >= timeout as u128
}

// ---------------------------------------------------------------------------
// From the work of a pool to its steps
// ---------------------------------------------------------------------------

/// The actions of one pool.
pub struct PoolWork {
    pub pool: String,
    pub snapshots: Vec<SnapshotAction>,
    pub prunes: Vec<PruneAction>,
}

/// The model of a [`PoolWork`].
pub struct WorkModel {
    pub pool: Seq<char>,
    pub snapshots: Seq<SnapshotActionModel>,
    pub prunes: Seq<PruneActionModel>,
}

impl View for PoolWork {
    type V = WorkModel;

    open spec fn view(&self) -> WorkModel {
        WorkModel {
            pool: self.pool@,
            snapshots: views(self.snapshots@),
            prunes: views(self.prunes@),
        }
    }
}

pub open spec fn snapshot_hooked(policy: PolicyModel) -> bool {
    policy.pre_snapshot_script.len() > 0 || policy.post_snapshot_script.len() > 0
}

pub open spec fn prune_hooked(policy: PolicyModel) -> bool {
    policy.pre_pruning_script.len() > 0 || policy.pruning_script.len() > 0
}

/// An action that goes into a batch of the given kind.
pub open spec fn batches_with(action: SnapshotActionModel, recursive: bool) -> bool {
    !snapshot_hooked(action.policy) && action.recursive == recursive
}

pub open spec fn target_text(dataset: Seq<char>, names: Seq<char>) -> Seq<char> {
    dataset + "@"@ + names
}

/// The targets of one round: of the actions among the first `n` that batch
/// together, each takes its name number `round`, if it has one.
pub open spec fn round_targets(
    actions: Seq<SnapshotActionModel>,
    recursive: bool,
    round: int,
    n: int,
) -> Seq<Seq<char>>
    decreases n,
{
    if n <= 0 {
        Seq::empty()
    } else {
        let earlier = round_targets(actions, recursive, round, n - 1);
        let action = actions[n - 1];
        if batches_with(action, recursive) && round < action.names.len() {
            earlier.push(target_text(action.dataset, action.names[round]))
        } else {
            earlier
        }
    }
}

/// The arguments before the targets of a snapshot command.
pub open spec fn snapshot_options(recursive: bool) -> Seq<Seq<char>> {
    if recursive {
        seq!["snapshot"@, "-r"@, "-o"@, "org.zsnap:managed"@ + "=yes"@]
    } else {
        seq!["snapshot"@, "-o"@, "org.zsnap:managed"@ + "=yes"@]
    }
}

pub open spec fn batch_end(from: int, size: int, len: int) -> int {
    if from + size < len {
        from + size
    } else {
        len
    }
}

/// Commands for the targets from `from` on, at most `size` targets in each.
pub open spec fn batch_steps(
    targets: Seq<Seq<char>>,
    recursive: bool,
    size: int,
    from: int,
) -> Seq<StepModel>
    decreases targets.len() - from,
{
    if from >= targets.len() || size <= 0 {
        Seq::empty()
    } else {
        let to = batch_end(from, size, targets.len() as int);
        seq![
            StepModel::Snapshots {
                arguments: snapshot_options(recursive) + targets.subrange(from, to),
                count: (to - from) as nat,
            },
        ] + batch_steps(targets, recursive, size, to)
    }
}

/// The most names that one of the first `n` actions has.
pub open spec fn most_names(actions: Seq<SnapshotActionModel>, n: int) -> nat
    decreases n,
{
    if n <= 0 {
        0
    } else {
        let earlier = most_names(actions, n - 1);
        if actions[n - 1].names.len() > earlier {
            actions[n - 1].names.len()
        } else {
            earlier
        }
    }
}

/// The batches of the first `rounds` rounds.
pub open spec fn round_steps(
    actions: Seq<SnapshotActionModel>,
    recursive: bool,
    size: int,
    rounds: int,
) -> Seq<StepModel>
    decreases rounds,
{
    if rounds <= 0 {
        Seq::empty()
    } else {
        round_steps(actions, recursive, size, rounds - 1) + batch_steps(
            round_targets(actions, recursive, rounds - 1, actions.len() as int),
            recursive,
            size,
            0,
        )
    }
}

pub open spec fn kind_texts(kinds: Seq<SnapshotKind>) -> Seq<Seq<char>> {
    kinds.map_values(|kind: SnapshotKind| kind.text())
}

pub open spec fn snapshot_hook(
    action: SnapshotActionModel,
    command: Seq<Seq<char>>,
    script: Seq<char>,
) -> HookModel {
    HookModel {
        command,
        timeout: action.policy.script_timeout,
        script,
        target: action.dataset,
        names: join(action.names, ","@),
        types: join(kind_texts(action.kinds), ","@),
    }
}

/// One command for each of the first `n` names of an action.
pub open spec fn single_steps(action: SnapshotActionModel, n: int) -> Seq<StepModel>
    decreases n,
{
    if n <= 0 {
        Seq::empty()
    } else {
        single_steps(action, n - 1).push(
            StepModel::Snapshots {
                arguments: snapshot_options(action.recursive).push(
                    target_text(action.dataset, action.names[n - 1]),
                ),
                count: 1,
            },
        )
    }
}

/// The steps of an action with hooks.
pub open spec fn hooked_steps(action: SnapshotActionModel) -> Seq<StepModel> {
    let policy = action.policy;
    seq![StepModel::Begin] + (if policy.pre_snapshot_script.len() > 0 {
        seq![
            StepModel::PreSnapshot {
                hook: snapshot_hook(action, policy.pre_snapshot_script, "pre"@),
                stop: policy.no_inconsistent_snapshot,
            },
        ]
    } else {
        Seq::empty()
    }) + single_steps(action, action.names.len() as int) + (if policy.post_snapshot_script.len()
        > 0 {
        seq![
            StepModel::PostSnapshot {
                hook: snapshot_hook(action, policy.post_snapshot_script, "post"@),
                force: policy.force_post_snapshot_script,
            },
        ]
    } else {
        Seq::empty()
    })
}

/// The steps of the hooked actions among the first `n`.
pub open spec fn all_hooked_steps(actions: Seq<SnapshotActionModel>, n: int) -> Seq<StepModel>
    decreases n,
{
    if n <= 0 {
        Seq::empty()
    } else if snapshot_hooked(actions[n - 1].policy) {
        all_hooked_steps(actions, n - 1) + hooked_steps(actions[n - 1])
    } else {
        all_hooked_steps(actions, n - 1)
    }
}

pub open spec fn destroy_step(dataset: Seq<char>, names: Seq<Seq<char>>) -> StepModel {
    StepModel::Destroy {
        arguments: seq!["destroy"@, target_text(dataset, join(names, ","@))],
        count: names.len(),
    }
}

/// Commands that destroy the names from `from` on, at most `size` in each.
pub open spec fn prune_batches(action: PruneActionModel, size: int, from: int) -> Seq<StepModel>
    decreases action.names.len() - from,
{
    if from >= action.names.len() || size <= 0 {
        Seq::empty()
    } else {
        let to = batch_end(from, size, action.names.len() as int);
        seq![StepModel::Begin, destroy_step(action.dataset, action.names.subrange(from, to))]
            + prune_batches(action, size, to)
    }
}

pub open spec fn prune_hook(action: PruneActionModel, command: Seq<Seq<char>>, name: Seq<char>) -> HookModel {
    HookModel {
        command,
        timeout: action.policy.script_timeout,
        script: "prune"@,
        target: action.dataset,
        names: name,
        types: ""@,
    }
}

/// The steps that destroy one snapshot with hooks around it.
pub open spec fn hooked_prune(action: PruneActionModel, name: Seq<char>) -> Seq<StepModel> {
    let policy = action.policy;
    seq![StepModel::Begin] + (if policy.pre_pruning_script.len() > 0 {
        seq![
            StepModel::PrePrune { hook: prune_hook(action, policy.pre_pruning_script, name) },
        ]
    } else {
        Seq::empty()
    }) + seq![
        StepModel::Destroy {
            arguments: seq!["destroy"@, target_text(action.dataset, name)],
            count: 1,
        },
    ] + (if policy.pruning_script.len() > 0 {
        seq![StepModel::PostPrune { hook: prune_hook(action, policy.pruning_script, name) }]
    } else {
        Seq::empty()
    })
}

/// The steps that destroy the first `n` names with hooks.
pub open spec fn hooked_prunes(action: PruneActionModel, n: int) -> Seq<StepModel>
    decreases n,
{
    if n <= 0 {
        Seq::empty()
    } else {
        hooked_prunes(action, n - 1) + hooked_prune(action, action.names[n - 1])
    }
}

pub open spec fn prune_steps(action: PruneActionModel, size: int) -> Seq<StepModel> {
    if prune_hooked(action.policy) {
        hooked_prunes(action, action.names.len() as int)
    } else {
        prune_batches(action, size, 0)
    }
}

/// The steps of the first `n` prune actions.
pub open spec fn all_prune_steps(actions: Seq<PruneActionModel>, size: int, n: int) -> Seq<StepModel>
    decreases n,
{
    if n <= 0 {
        Seq::empty()
    } else {
        all_prune_steps(actions, size, n - 1) + prune_steps(actions[n - 1], size)
    }
}

/// The snapshot steps of a pool: the batches, then the actions with hooks.
pub open spec fn snapshot_steps(actions: Seq<SnapshotActionModel>, size: int) -> Seq<StepModel> {
    let rounds = most_names(actions, actions.len() as int) as int;
    round_steps(actions, false, size, rounds) + round_steps(actions, true, size, rounds)
        + all_hooked_steps(actions, actions.len() as int)
}

pub open spec fn guard_step(work: WorkModel) -> StepModel {
    StepModel::Guard {
        prunes: prunes_in(work.prunes, work.prunes.len() as int),
        any: work.prunes.len() > 0,
    }
}

/// The steps of the work of a pool.
pub open spec fn program(work: WorkModel, settings: SettingsModel) -> Seq<StepModel> {
    snapshot_steps(work.snapshots, settings.snapshot_batch_size as int) + seq![guard_step(work)]
        + all_prune_steps(
        work.prunes,
        settings.prune_batch_size as int,
        work.prunes.len() as int,
    )
}

/// A run before its first step.
pub open spec fn fresh(
    pool: Seq<char>,
    settings: SettingsModel,
    steps: Seq<StepModel>,
    dry_run: bool,
) -> RunModel {
    RunModel {
        pool,
        zfs_command: settings.zfs_command,
        dry_run,
        steps,
        at: 0,
        waiting: false,
        pre_ok: true,
        skip: false,
        failed: false,
        created: 0,
        pruned: 0,
        skipped: 0,
        errors: Seq::empty(),
        logs: Seq::empty(),
    }
}

/// The run of a pool's work before its first step.
pub open spec fn started(work: WorkModel, settings: SettingsModel, dry_run: bool, verbose: bool) -> RunModel {
    let run = fresh(work.pool, settings, program(work, settings), dry_run);
    if verbose {
        run.with_log("starting pool work"@)
    } else {
        run
    }
}

/// Batches have a size where there is anything to batch.
pub open spec fn can_batch(work: WorkModel, settings: SettingsModel) -> bool {
    &&& settings.snapshot_batch_size > 0 || forall|i: int|
        0 <= i < work.snapshots.len() ==> snapshot_hooked((#[trigger] work.snapshots[i]).policy)
            || work.snapshots[i].names.len() == 0
    &&& settings.prune_batch_size > 0 || forall|i: int|
        0 <= i < work.prunes.len() ==> prune_hooked((#[trigger] work.prunes[i]).policy)
}

// ---------------------------------------------------------------------------
// Counting
// ---------------------------------------------------------------------------

proof fn lemma_left_skips(a: Seq<StepModel>, b: Seq<StepModel>, j: int)
    requires
        0 <= j,
    ensures
        snapshots_left(a + b, a.len() + j) == snapshots_left(b, j),
        prunes_left(a + b, a.len() + j) == prunes_left(b, j),
    decreases b.len() - j,
{
    if j < b.len() {
        lemma_left_skips(a, b, j + 1);
        assert((a + b)[a.len() + j] == b[j]);
    }
}

proof fn lemma_left_joins(a: Seq<StepModel>, b: Seq<StepModel>, i: int)
    requires
        0 <= i <= a.len(),
    ensures
        snapshots_left(a + b, i) == snapshots_left(a, i) + snapshots_left(b, 0),
        prunes_left(a + b, i) == prunes_left(a, i) + prunes_left(b, 0),
    decreases a.len() - i,
{
    if i < a.len() {
        lemma_left_joins(a, b, i + 1);
        assert((a + b)[i] == a[i]);
    } else {
        lemma_left_skips(a, b, 0);
    }
}

proof fn lemma_left_one(step: StepModel)
    ensures
        snapshots_left(seq![step], 0) == (match step {
            StepModel::Snapshots { count, .. } => count,
            _ => 0,
        }),
        prunes_left(seq![step], 0) == (match step {
            StepModel::Destroy { count, .. } => count,
            _ => 0,
        }),
{
    reveal_with_fuel(snapshots_left, 2);
    reveal_with_fuel(prunes_left, 2);
}

proof fn lemma_left_push(a: Seq<StepModel>, step: StepModel)
    ensures
        snapshots_left(a.push(step), 0) == snapshots_left(a, 0) + snapshots_left(seq![step], 0),
        prunes_left(a.push(step), 0) == prunes_left(a, 0) + prunes_left(seq![step], 0),
{
    lemma_left_joins(a, seq![step], 0);
    assert(a.push(step) =~= a + seq![step]);
}

proof fn lemma_batch_counts(targets: Seq<Seq<char>>, recursive: bool, size: int, from: int)
    requires
        0 <= from <= targets.len(),
        size > 0 || targets.len() == 0,
    ensures
        snapshots_left(batch_steps(targets, recursive, size, from), 0) == targets.len() - from,
        prunes_left(batch_steps(targets, recursive, size, from), 0) == 0,
    decreases targets.len() - from,
{
    if from < targets.len() {
        let to = batch_end(from, size, targets.len() as int);
        let step = StepModel::Snapshots {
            arguments: snapshot_options(recursive) + targets.subrange(from, to),
            count: (to - from) as nat,
        };
        lemma_batch_counts(targets, recursive, size, to);
        lemma_left_joins(seq![step], batch_steps(targets, recursive, size, to), 0);
        lemma_left_one(step);
    }
}

/// How many names the first `n` batching actions have among their first
/// `rounds`.
spec fn names_within(
    actions: Seq<SnapshotActionModel>,
    recursive: bool,
    rounds: int,
    n: int,
) -> int
    decreases n,
{
    if n <= 0 {
        0
    } else {
        names_within(actions, recursive, rounds, n - 1) + (if !batches_with(
            actions[n - 1],
            recursive,
        ) {
            0
        } else if actions[n - 1].names.len() < rounds {
            actions[n - 1].names.len() as int
        } else {
            rounds
        })
    }
}

proof fn lemma_one_more_round(
    actions: Seq<SnapshotActionModel>,
    recursive: bool,
    round: int,
    n: int,
)
    requires
        round >= 0,
    ensures
        names_within(actions, recursive, round + 1, n) == names_within(
            actions,
            recursive,
            round,
            n,
        ) + round_targets(actions, recursive, round, n).len(),
        names_within(actions, recursive, 0, n) == 0,
    decreases n,
{
    if n > 0 {
        lemma_one_more_round(actions, recursive, round, n - 1);
    }
}

proof fn lemma_round_counts(
    actions: Seq<SnapshotActionModel>,
    recursive: bool,
    size: int,
    rounds: int,
)
    requires
        rounds >= 0,
        size > 0 || forall|i: int|
            0 <= i < actions.len() ==> snapshot_hooked((#[trigger] actions[i]).policy)
                || actions[i].names.len() == 0,
    ensures
        snapshots_left(round_steps(actions, recursive, size, rounds), 0) == names_within(
            actions,
            recursive,
            rounds,
            actions.len() as int,
        ),
        prunes_left(round_steps(actions, recursive, size, rounds), 0) == 0,
    decreases rounds,
{
    let n = actions.len() as int;
    if rounds > 0 {
        let targets = round_targets(actions, recursive, rounds - 1, n);
        if size <= 0 {
            lemma_no_targets(actions, recursive, rounds - 1, n);
        }
        lemma_round_counts(actions, recursive, size, rounds - 1);
        lemma_batch_counts(targets, recursive, size, 0);
        lemma_left_joins(
            round_steps(actions, recursive, size, rounds - 1),
            batch_steps(targets, recursive, size, 0),
            0,
        );
        lemma_one_more_round(actions, recursive, rounds - 1, n);
    } else {
        lemma_one_more_round(actions, recursive, 0, n);
    }
}

proof fn lemma_no_targets(
    actions: Seq<SnapshotActionModel>,
    recursive: bool,
    round: int,
    n: int,
)
    requires
        0 <= n <= actions.len(),
        round >= 0,
        forall|i: int|
            0 <= i < actions.len() ==> snapshot_hooked((#[trigger] actions[i]).policy)
                || actions[i].names.len() == 0,
    ensures
        round_targets(actions, recursive, round, n).len() == 0,
    decreases n,
{
    if n > 0 {
        lemma_no_targets(actions, recursive, round, n - 1);
    }
}

proof fn lemma_single_counts(action: SnapshotActionModel, n: int)
    requires
        n >= 0,
    ensures
        snapshots_left(single_steps(action, n), 0) == n,
        prunes_left(single_steps(action, n), 0) == 0,
    decreases n,
{
    if n > 0 {
        lemma_single_counts(action, n - 1);
        let step = single_steps(action, n).last();
        lemma_left_push(single_steps(action, n - 1), step);
        lemma_left_one(step);
    }
}

proof fn lemma_hooked_counts(action: SnapshotActionModel)
    ensures
        snapshots_left(hooked_steps(action), 0) == action.names.len(),
        prunes_left(hooked_steps(action), 0) == 0,
{
    let policy = action.policy;
    let first = seq![StepModel::Begin];
    let pre_step = StepModel::PreSnapshot {
        hook: snapshot_hook(action, policy.pre_snapshot_script, "pre"@),
        stop: policy.no_inconsistent_snapshot,
    };
    let post_step = StepModel::PostSnapshot {
        hook: snapshot_hook(action, policy.post_snapshot_script, "post"@),
        force: policy.force_post_snapshot_script,
    };
    let pre = if policy.pre_snapshot_script.len() > 0 {
        seq![pre_step]
    } else {
        Seq::empty()
    };
    let post = if policy.post_snapshot_script.len() > 0 {
        seq![post_step]
    } else {
        Seq::empty()
    };
    let singles = single_steps(action, action.names.len() as int);
    lemma_left_one(StepModel::Begin);
    lemma_left_one(pre_step);
    lemma_left_one(post_step);
    lemma_single_counts(action, action.names.len() as int);
    lemma_left_joins(first, pre, 0);
    lemma_left_joins(first + pre, singles, 0);
    lemma_left_joins(first + pre + singles, post, 0);
}

/// Every name of a snapshot action is either in a round or with its hooks.
proof fn lemma_snapshot_split(actions: Seq<SnapshotActionModel>, rounds: int, n: int)
    requires
        0 <= n <= actions.len(),
        most_names(actions, n) <= rounds,
    ensures
        names_within(actions, false, rounds, n) + names_within(actions, true, rounds, n)
            + snapshots_left(all_hooked_steps(actions, n), 0) == snapshots_in(actions, n),
        prunes_left(all_hooked_steps(actions, n), 0) == 0,
    decreases n,
{
    if n > 0 {
        lemma_snapshot_split(actions, rounds, n - 1);
        if snapshot_hooked(actions[n - 1].policy) {
            lemma_hooked_counts(actions[n - 1]);
            lemma_left_joins(
                all_hooked_steps(actions, n - 1),
                hooked_steps(actions[n - 1]),
                0,
            );
        }
    }
}

proof fn lemma_prune_batch_counts(action: PruneActionModel, size: int, from: int)
    requires
        0 <= from <= action.names.len(),
        size > 0,
    ensures
        prunes_left(prune_batches(action, size, from), 0) == action.names.len() - from,
        snapshots_left(prune_batches(action, size, from), 0) == 0,
    decreases action.names.len() - from,
{
    if from < action.names.len() {
        let to = batch_end(from, size, action.names.len() as int);
        let step = destroy_step(action.dataset, action.names.subrange(from, to));
        lemma_prune_batch_counts(action, size, to);
        lemma_left_joins(
            seq![StepModel::Begin, step],
            prune_batches(action, size, to),
            0,
        );
        lemma_left_joins(seq![StepModel::Begin], seq![step], 0);
        assert(seq![StepModel::Begin] + seq![step] =~= seq![StepModel::Begin, step]);
        lemma_left_one(StepModel::Begin);
        lemma_left_one(step);
    }
}

proof fn lemma_hooked_prune_counts(action: PruneActionModel, n: int)
    requires
        n >= 0,
    ensures
        prunes_left(hooked_prunes(action, n), 0) == n,
        snapshots_left(hooked_prunes(action, n), 0) == 0,
    decreases n,
{
    if n > 0 {
        let name = action.names[n - 1];
        let policy = action.policy;
        let first = seq![StepModel::Begin];
        let pre_step = StepModel::PrePrune {
            hook: prune_hook(action, policy.pre_pruning_script, name),
        };
        let post_step = StepModel::PostPrune {
            hook: prune_hook(action, policy.pruning_script, name),
        };
        let pre = if policy.pre_pruning_script.len() > 0 {
            seq![pre_step]
        } else {
            Seq::empty()
        };
        let post = if policy.pruning_script.len() > 0 {
            seq![post_step]
        } else {
            Seq::empty()
        };
        let step = StepModel::Destroy {
            arguments: seq!["destroy"@, target_text(action.dataset, name)],
            count: 1,
        };
        lemma_left_one(StepModel::Begin);
        lemma_left_one(pre_step);
        lemma_left_one(post_step);
        lemma_left_one(step);
        lemma_left_joins(first, pre, 0);
        lemma_left_joins(first + pre, seq![step], 0);
        lemma_left_joins(first + pre + seq![step], post, 0);
        lemma_hooked_prune_counts(action, n - 1);
        lemma_left_joins(hooked_prunes(action, n - 1), hooked_prune(action, name), 0);
    }
}

proof fn lemma_all_prune_counts(actions: Seq<PruneActionModel>, size: int, n: int)
    requires
        0 <= n <= actions.len(),
        size > 0 || forall|i: int|
            0 <= i < actions.len() ==> prune_hooked((#[trigger] actions[i]).policy),
    ensures
        prunes_left(all_prune_steps(actions, size, n), 0) == prunes_in(actions, n),
        snapshots_left(all_prune_steps(actions, size, n), 0) == 0,
    decreases n,
{
    if n > 0 {
        let action = actions[n - 1];
        lemma_all_prune_counts(actions, size, n - 1);
        if prune_hooked(action.policy) {
            lemma_hooked_prune_counts(action, action.names.len() as int);
        } else {
            lemma_prune_batch_counts(action, size, 0);
        }
        lemma_left_joins(
            all_prune_steps(actions, size, n - 1),
            prune_steps(action, size),
            0,
        );
    }
}

/// Nothing is lost and nothing is done twice: the steps of a pool take as many
/// snapshots as its snapshot actions name, and destroy as many as its prune
/// actions name.
pub proof fn law_steps_cover_the_work(work: WorkModel, settings: SettingsModel)
    requires
        can_batch(work, settings),
    ensures
        snapshots_left(program(work, settings), 0) == snapshots_in(
            work.snapshots,
            work.snapshots.len() as int,
        ),
        prunes_left(program(work, settings), 0) == prunes_in(
            work.prunes,
            work.prunes.len() as int,
        ),
{
    let actions = work.snapshots;
    let n = actions.len() as int;
    let size = settings.snapshot_batch_size as int;
    let rounds = most_names(actions, n) as int;
    let regular = round_steps(actions, false, size, rounds);
    let recursive = round_steps(actions, true, size, rounds);
    let hooked = all_hooked_steps(actions, n);
    let guard = seq![guard_step(work)];
    let prunes = all_prune_steps(
        work.prunes,
        settings.prune_batch_size as int,
        work.prunes.len() as int,
    );
    lemma_round_counts(actions, false, size, rounds);
    lemma_round_counts(actions, true, size, rounds);
    lemma_snapshot_split(actions, rounds, n);
    lemma_left_joins(regular, recursive, 0);
    lemma_left_joins(regular + recursive, hooked, 0);
    lemma_left_one(guard_step(work));
    lemma_left_joins(regular + recursive + hooked, guard, 0);
    lemma_all_prune_counts(
        work.prunes,
        settings.prune_batch_size as int,
        work.prunes.len() as int,
    );
    lemma_left_joins(regular + recursive + hooked + guard, prunes, 0);
}

// ---------------------------------------------------------------------------
// Building the steps
// ---------------------------------------------------------------------------

fn push_step(steps: &mut Vec<Step>, step: Step)
    ensures
        views(final(steps)@) == views(old(steps)@).push(step@),
{
    proof {
        lemma_views_push(steps@, step);
    }
    steps.push(step);
}

fn target(dataset: &str, names: &str) -> (res: String)
    ensures
        res@ == target_text(dataset@, names@),
{
    let mut text = dataset.to_owned();
    text.append("@");
    text.append(names);
    text
}

fn options(recursive: bool) -> (res: Vec<String>)
    ensures
        texts(res@) == snapshot_options(recursive),
{
    let mut arguments: Vec<String> = Vec::new();
    arguments.push("snapshot".to_owned());
    if recursive {
        arguments.push("-r".to_owned());
    }
    arguments.push("-o".to_owned());
    let mut property = MANAGED_PROPERTY.to_owned();
    property.append("=yes");
    arguments.push(property);
    assert(texts(arguments@) =~= snapshot_options(recursive));
    arguments
}

fn targets_of_round(actions: &Vec<SnapshotAction>, recursive: bool, round: usize) -> (res: Vec<
    String,
>)
    ensures
        texts(res@) == round_targets(
            views(actions@),
            recursive,
            round as int,
            actions@.len() as int,
        ),
{
    let ghost all = views(actions@);
    let mut targets: Vec<String> = Vec::new();
    let mut i: usize = 0;
    assert(texts(targets@) =~= Seq::<Seq<char>>::empty());
    while i < actions.len()
        invariant
            i <= actions@.len(),
            all == views(actions@),
            texts(targets@) == round_targets(all, recursive, round as int, i as int),
        decreases actions.len() - i,
    {
        let action = &actions[i];
        assert(all[i as int] == action@);
        assert(action@.names.len() == action.names@.len());
        if !action.policy.has_snapshot_hooks() && action.recursive == recursive && round
            < action.names.len() {
            assert(action@.names[round as int] == action.names@[round as int]@);
            let text = target(action.dataset.as_str(), action.names[round].as_str());
            proof {
                lemma_texts_push(targets@, text);
            }
            targets.push(text);
        }
        i += 1;
    }
    targets
}

/// The arguments with a range of more behind them.
fn extended(options: Vec<String>, more: &Vec<String>, from: usize, to: usize) -> (res: Vec<String>)
    requires
        from <= to <= more@.len(),
    ensures
        texts(res@) == texts(options@) + texts(more@).subrange(from as int, to as int),
{
    let mut arguments = options;
    let mut i: usize = from;
    assert(texts(options@) + texts(more@).subrange(from as int, from as int) =~= texts(options@));
    while i < to
        invariant
            from <= i <= to <= more@.len(),
            texts(arguments@) == texts(options@) + texts(more@).subrange(from as int, i as int),
        decreases to - i,
    {
        let part = more[i].clone();
        proof {
            lemma_texts_push(arguments@, part);
            assert(texts(options@) + texts(more@).subrange(from as int, i + 1) =~= (texts(
                options@,
            ) + texts(more@).subrange(from as int, i as int)).push(part@));
        }
        arguments.push(part);
        i += 1;
    }
    arguments
}

fn end_of_batch(from: usize, size: usize, len: usize) -> (res: usize)
    requires
        from <= len,
    ensures
        res == batch_end(from as int, size as int, len as int),
{
    if size < len - from {
        from + size
    } else {
        len
    }
}

fn push_batches(steps: &mut Vec<Step>, targets: &Vec<String>, recursive: bool, size: usize)
    ensures
        views(final(steps)@) == views(old(steps)@) + batch_steps(
            texts(targets@),
            recursive,
            size as int,
            0,
        ),
{
    let ghost start = views(steps@);
    let ghost all = texts(targets@);
    if size == 0 {
        assert(start + batch_steps(all, recursive, 0, 0) =~= start);
        return;
    }
    let mut from: usize = 0;
    while from < targets.len()
        invariant
            from <= targets@.len(),
            size > 0,
            all == texts(targets@),
            views(steps@) + batch_steps(all, recursive, size as int, from as int) == start
                + batch_steps(all, recursive, size as int, 0),
        decreases targets.len() - from,
    {
        let to: usize = end_of_batch(from, size, targets.len());
        let ghost done = views(steps@);
        let ghost rest = batch_steps(all, recursive, size as int, to as int);
        let step = Step::Snapshots {
            arguments: extended(options(recursive), targets, from, to),
            count: to - from,
        };
        push_step(steps, step);
        assert(done + (seq![step@] + rest) =~= done.push(step@) + rest);
        from = to;
    }
    assert(views(steps@) + batch_steps(all, recursive, size as int, from as int) =~= views(steps@));
}

fn most_names_of(actions: &Vec<SnapshotAction>) -> (res: usize)
    ensures
        res == most_names(views(actions@), actions@.len() as int),
{
    let ghost all = views(actions@);
    let mut most: usize = 0;
    let mut i: usize = 0;
    while i < actions.len()
        invariant
            i <= actions@.len(),
            all == views(actions@),
            most == most_names(all, i as int),
        decreases actions.len() - i,
    {
        assert(all[i as int] == actions@[i as int]@);
        assert(all[i as int].names.len() == actions@[i as int].names@.len());
        if actions[i].names.len() > most {
            most = actions[i].names.len();
        }
        i += 1;
    }
    most
}

fn push_rounds(
    steps: &mut Vec<Step>,
    actions: &Vec<SnapshotAction>,
    recursive: bool,
    size: usize,
    rounds: usize,
)
    ensures
        views(final(steps)@) == views(old(steps)@) + round_steps(
            views(actions@),
            recursive,
            size as int,
            rounds as int,
        ),
{
    let ghost start = views(steps@);
    let ghost all = views(actions@);
    let mut round: usize = 0;
    assert(start + round_steps(all, recursive, size as int, 0) =~= start);
    while round < rounds
        invariant
            round <= rounds,
            all == views(actions@),
            views(steps@) == start + round_steps(all, recursive, size as int, round as int),
        decreases rounds - round,
    {
        let ghost done = round_steps(all, recursive, size as int, round as int);
        let targets = targets_of_round(actions, recursive, round);
        push_batches(steps, &targets, recursive, size);
        assert(views(steps@) =~= start + (done + batch_steps(
            texts(targets@),
            recursive,
            size as int,
            0,
        )));
        round += 1;
    }
}

fn kind_list(kinds: &Vec<SnapshotKind>) -> (res: String)
    ensures
        res@ == join(kind_texts(kinds@), ","@),
{
    let ghost all = kind_texts(kinds@);
    let mut parts: Vec<String> = Vec::new();
    let mut i: usize = 0;
    assert(texts(parts@) =~= all.take(0));
    while i < kinds.len()
        invariant
            i <= kinds@.len(),
            all == kind_texts(kinds@),
            texts(parts@) == all.take(i as int),
        decreases kinds.len() - i,
    {
        let part = kinds[i].as_str().to_owned();
        proof {
            lemma_texts_push(parts@, part);
            assert(all.take(i + 1) =~= all.take(i as int).push(part@));
        }
        parts.push(part);
        i += 1;
    }
    assert(all.take(i as int) =~= all);
    joined(&parts, ",")
}

fn hook_for_snapshots(action: &SnapshotAction, command: &Vec<String>, script: &str) -> (res: Hook)
    ensures
        res@ == snapshot_hook(action@, texts(command@), script@),
{
    Hook {
        command: copy_texts(command),
        timeout: action.policy.script_timeout,
        script: script.to_owned(),
        target: action.dataset.clone(),
        names: joined(&action.names, ","),
        types: kind_list(&action.kinds),
    }
}

fn push_singles(steps: &mut Vec<Step>, action: &SnapshotAction)
    ensures
        views(final(steps)@) == views(old(steps)@) + single_steps(
            action@,
            action@.names.len() as int,
        ),
{
    let ghost start = views(steps@);
    let mut i: usize = 0;
    assert(start + single_steps(action@, 0) =~= start);
    while i < action.names.len()
        invariant
            i <= action.names@.len(),
            views(steps@) == start + single_steps(action@, i as int),
        decreases action.names.len() - i,
    {
        let mut arguments = options(action.recursive);
        let text = target(action.dataset.as_str(), action.names[i].as_str());
        assert(action@.names[i as int] == action.names@[i as int]@);
        proof {
            lemma_texts_push(arguments@, text);
        }
        arguments.push(text);
        let step = Step::Snapshots { arguments, count: 1 };
        let ghost done = single_steps(action@, i as int);
        push_step(steps, step);
        assert((start + done).push(step@) =~= start + done.push(step@));
        i += 1;
    }
}

fn push_hooked(steps: &mut Vec<Step>, action: &SnapshotAction)
    ensures
        views(final(steps)@) == views(old(steps)@) + hooked_steps(action@),
{
    let ghost start = views(steps@);
    push_step(steps, Step::Begin);
    if action.policy.pre_snapshot_script.len() > 0 {
        let hook = hook_for_snapshots(action, &action.policy.pre_snapshot_script, "pre");
        push_step(
            steps,
            Step::PreSnapshot { hook, stop: action.policy.no_inconsistent_snapshot },
        );
    }
    push_singles(steps, action);
    if action.policy.post_snapshot_script.len() > 0 {
        let hook = hook_for_snapshots(action, &action.policy.post_snapshot_script, "post");
        push_step(
            steps,
            Step::PostSnapshot { hook, force: action.policy.force_post_snapshot_script },
        );
    }
    assert(views(steps@) =~= start + hooked_steps(action@));
}

fn push_all_hooked(steps: &mut Vec<Step>, actions: &Vec<SnapshotAction>)
    ensures
        views(final(steps)@) == views(old(steps)@) + all_hooked_steps(
            views(actions@),
            actions@.len() as int,
        ),
{
    let ghost start = views(steps@);
    let ghost all = views(actions@);
    let mut i: usize = 0;
    assert(start + all_hooked_steps(all, 0) =~= start);
    while i < actions.len()
        invariant
            i <= actions@.len(),
            all == views(actions@),
            views(steps@) == start + all_hooked_steps(all, i as int),
        decreases actions.len() - i,
    {
        assert(all[i as int] == actions@[i as int]@);
        if actions[i].policy.has_snapshot_hooks() {
            push_hooked(steps, &actions[i]);
            assert(views(steps@) =~= start + (all_hooked_steps(all, i as int) + hooked_steps(
                all[i as int],
            )));
        }
        i += 1;
    }
}

fn destroy_arguments(dataset: &str, names: &str) -> (res: Vec<String>)
    ensures
        texts(res@) == seq!["destroy"@, target_text(dataset@, names@)],
{
    let mut arguments: Vec<String> = Vec::new();
    arguments.push("destroy".to_owned());
    arguments.push(target(dataset, names));
    assert(texts(arguments@) =~= seq!["destroy"@, target_text(dataset@, names@)]);
    arguments
}

fn push_prune_batches(steps: &mut Vec<Step>, action: &PruneAction, size: usize)
    ensures
        views(final(steps)@) == views(old(steps)@) + prune_batches(action@, size as int, 0),
{
    let ghost start = views(steps@);
    if size == 0 {
        assert(start + prune_batches(action@, 0, 0) =~= start);
        return;
    }
    let mut from: usize = 0;
    while from < action.names.len()
        invariant
            from <= action.names@.len(),
            size > 0,
            views(steps@) + prune_batches(action@, size as int, from as int) == start
                + prune_batches(action@, size as int, 0),
        decreases action.names.len() - from,
    {
        assert(action@.names.len() == action.names@.len());
        let to: usize = end_of_batch(from, size, action.names.len());
        let ghost done = views(steps@);
        let ghost rest = prune_batches(action@, size as int, to as int);
        let names = extended(Vec::new(), &action.names, from, to);
        assert(texts(names@) =~= action@.names.subrange(from as int, to as int));
        let step = Step::Destroy {
            arguments: destroy_arguments(action.dataset.as_str(), joined(&names, ",").as_str()),
            count: to - from,
        };
        push_step(steps, Step::Begin);
        push_step(steps, step);
        assert(done + (seq![StepModel::Begin, step@] + rest) =~= done.push(
            StepModel::Begin,
        ).push(step@) + rest);
        from = to;
    }
    assert(views(steps@) + prune_batches(action@, size as int, from as int) =~= views(steps@));
}

fn hook_for_prune(action: &PruneAction, command: &Vec<String>, name: &str) -> (res: Hook)
    ensures
        res@ == prune_hook(action@, texts(command@), name@),
{
    Hook {
        command: copy_texts(command),
        timeout: action.policy.script_timeout,
        script: "prune".to_owned(),
        target: action.dataset.clone(),
        names: name.to_owned(),
        types: "".to_owned(),
    }
}

fn push_hooked_prune(steps: &mut Vec<Step>, action: &PruneAction, name: &str)
    ensures
        views(final(steps)@) == views(old(steps)@) + hooked_prune(action@, name@),
{
    let ghost start = views(steps@);
    push_step(steps, Step::Begin);
    if action.policy.pre_pruning_script.len() > 0 {
        let hook = hook_for_prune(action, &action.policy.pre_pruning_script, name);
        push_step(steps, Step::PrePrune { hook });
    }
    let arguments = destroy_arguments(action.dataset.as_str(), name);
    push_step(steps, Step::Destroy { arguments, count: 1 });
    if action.policy.pruning_script.len() > 0 {
        let hook = hook_for_prune(action, &action.policy.pruning_script, name);
        push_step(steps, Step::PostPrune { hook });
    }
    assert(views(steps@) =~= start + hooked_prune(action@, name@));
}

fn push_prunes(steps: &mut Vec<Step>, action: &PruneAction, size: usize)
    ensures
        views(final(steps)@) == views(old(steps)@) + prune_steps(action@, size as int),
{
    if !action.policy.has_prune_hooks() {
        push_prune_batches(steps, action, size);
        return;
    }
    let ghost start = views(steps@);
    let mut i: usize = 0;
    assert(start + hooked_prunes(action@, 0) =~= start);
    while i < action.names.len()
        invariant
            i <= action.names@.len(),
            views(steps@) == start + hooked_prunes(action@, i as int),
        decreases action.names.len() - i,
    {
        assert(action@.names[i as int] == action.names@[i as int]@);
        push_hooked_prune(steps, action, action.names[i].as_str());
        assert(views(steps@) =~= start + (hooked_prunes(action@, i as int) + hooked_prune(
            action@,
            action@.names[i as int],
        )));
        i += 1;
    }
    assert(action@.names.len() == action.names@.len());
}

fn push_all_prunes(steps: &mut Vec<Step>, actions: &Vec<PruneAction>, size: usize)
    ensures
        views(final(steps)@) == views(old(steps)@) + all_prune_steps(
            views(actions@),
            size as int,
            actions@.len() as int,
        ),
{
    let ghost start = views(steps@);
    let ghost all = views(actions@);
    let mut i: usize = 0;
    assert(start + all_prune_steps(all, size as int, 0) =~= start);
    while i < actions.len()
        invariant
            i <= actions@.len(),
            all == views(actions@),
            views(steps@) == start + all_prune_steps(all, size as int, i as int),
        decreases actions.len() - i,
    {
        assert(all[i as int] == actions@[i as int]@);
        push_prunes(steps, &actions[i], size);
        assert(views(steps@) =~= start + (all_prune_steps(all, size as int, i as int)
            + prune_steps(all[i as int], size as int)));
        i += 1;
    }
}

impl PoolRun {
    /// Starts a run of some steps.
    pub fn with_steps(pool: String, settings: &Settings, steps: Vec<Step>, dry_run: bool) -> (res:
        Self)
        requires
            snapshots_left(views(steps@), 0) <= usize::MAX,
            prunes_left(views(steps@), 0) <= usize::MAX,
        ensures
            res@ == fresh(pool@, settings@, views(steps@), dry_run),
            res@.sound(),
    {
        let res = PoolRun {
            pool,
            zfs_command: settings.zfs_command.clone(),
            dry_run,
            steps,
            at: 0,
            waiting: false,
            pre_ok: true,
            skip: false,
            failed: false,
            created: 0,
            pruned: 0,
            skipped: 0,
            errors: Vec::new(),
            logs: Vec::new(),
        };
        assert(res@ =~= fresh(pool@, settings@, views(steps@), dry_run));
        res
    }

    /// Starts the work of a pool.
    pub fn new(work: &PoolWork, settings: &Settings, dry_run: bool, verbose: bool) -> (res: Self)
        requires
            can_batch(work@, settings@),
            snapshots_in(work@.snapshots, work@.snapshots.len() as int) <= usize::MAX,
            prunes_in(work@.prunes, work@.prunes.len() as int) <= usize::MAX,
        ensures
            res@ == started(work@, settings@, dry_run, verbose),
            res@.sound(),
    {
        let mut steps: Vec<Step> = Vec::new();
        assert(views(steps@) =~= Seq::<StepModel>::empty());
        let rounds: usize = most_names_of(&work.snapshots);
        push_rounds(&mut steps, &work.snapshots, false, settings.snapshot_batch_size, rounds);
        push_rounds(&mut steps, &work.snapshots, true, settings.snapshot_batch_size, rounds);
        push_all_hooked(&mut steps, &work.snapshots);
        let prunes: usize = count_prunes(&work.prunes);
        push_step(&mut steps, Step::Guard { prunes, any: work.prunes.len() > 0 });
        push_all_prunes(&mut steps, &work.prunes, settings.prune_batch_size);
        assert(views(steps@) =~= program(work@, settings@));
        proof {
            law_steps_cover_the_work(work@, settings@);
        }
        let mut res = PoolRun::with_steps(work.pool.clone(), settings, steps, dry_run);
        if verbose {
            res.push_log("starting pool work");
        }
        res
    }
}

// ---------------------------------------------------------------------------
// All pools of a plan
// ---------------------------------------------------------------------------

/// The pool of each action.
pub open spec fn action_pools(plan: PlanModel) -> Seq<Seq<char>> {
    plan.snapshots.map_values(|action: SnapshotActionModel| action.pool) + plan.prunes.map_values(
        |action: PruneActionModel| action.pool,
    )
}

/// The snapshot actions of a pool among the first `n`.
pub open spec fn snapshots_of_pool(
    actions: Seq<SnapshotActionModel>,
    pool: Seq<char>,
    n: int,
) -> Seq<SnapshotActionModel>
    decreases n,
{
    if n <= 0 {
        Seq::empty()
    } else if actions[n - 1].pool == pool {
        snapshots_of_pool(actions, pool, n - 1).push(actions[n - 1])
    } else {
        snapshots_of_pool(actions, pool, n - 1)
    }
}

/// The prune actions of a pool among the first `n`.
pub open spec fn prunes_of_pool(actions: Seq<PruneActionModel>, pool: Seq<char>, n: int) -> Seq<
    PruneActionModel,
>
    decreases n,
{
    if n <= 0 {
        Seq::empty()
    } else if actions[n - 1].pool == pool {
        prunes_of_pool(actions, pool, n - 1).push(actions[n - 1])
    } else {
        prunes_of_pool(actions, pool, n - 1)
    }
}

pub open spec fn work_of(plan: PlanModel, pool: Seq<char>) -> WorkModel {
    WorkModel {
        pool,
        snapshots: snapshots_of_pool(plan.snapshots, pool, plan.snapshots.len() as int),
        prunes: prunes_of_pool(plan.prunes, pool, plan.prunes.len() as int),
    }
}

/// The work of a plan: one entry for each pool, in the order of their names.
pub open spec fn works(plan: PlanModel) -> Seq<WorkModel> {
    name_set(action_pools(plan), action_pools(plan).len() as int).map_values(
        |pool: Seq<char>| work_of(plan, pool),
    )
}

fn pool_work(plan: &Plan, pool: &String) -> (res: PoolWork)
    ensures
        res@ == work_of(plan@, pool@),
{
    let mut snapshots: Vec<SnapshotAction> = Vec::new();
    let mut i: usize = 0;
    assert(views(snapshots@) =~= Seq::<SnapshotActionModel>::empty());
    while i < plan.snapshots.len()
        invariant
            i <= plan.snapshots@.len(),
            views(snapshots@) == snapshots_of_pool(plan@.snapshots, pool@, i as int),
        decreases plan.snapshots.len() - i,
    {
        assert(plan@.snapshots[i as int] == plan.snapshots@[i as int]@);
        if plan.snapshots[i].pool == *pool {
            let action = plan.snapshots[i].clone();
            proof {
                lemma_views_push(snapshots@, action);
            }
            snapshots.push(action);
        }
        i += 1;
    }
    let mut prunes: Vec<PruneAction> = Vec::new();
    let mut j: usize = 0;
    assert(views(prunes@) =~= Seq::<PruneActionModel>::empty());
    while j < plan.prunes.len()
        invariant
            j <= plan.prunes@.len(),
            views(prunes@) == prunes_of_pool(plan@.prunes, pool@, j as int),
        decreases plan.prunes.len() - j,
    {
        assert(plan@.prunes[j as int] == plan.prunes@[j as int]@);
        if plan.prunes[j].pool == *pool {
            let action = plan.prunes[j].clone();
            proof {
                lemma_views_push(prunes@, action);
            }
            prunes.push(action);
        }
        j += 1;
    }
    PoolWork { pool: pool.clone(), snapshots, prunes }
}

/// Divides a plan into the work of its pools.
pub fn pool_works(plan: &Plan) -> (res: Vec<PoolWork>)
    ensures
        views(res@) == works(plan@),
{
    let ghost all = action_pools(plan@);
    let mut pools = NameSet::new();
    let mut i: usize = 0;
    while i < plan.snapshots.len()
        invariant
            i <= plan.snapshots@.len(),
            all == action_pools(plan@),
            pools@ == name_set(all, i as int),
        decreases plan.snapshots.len() - i,
    {
        assert(all[i as int] == plan.snapshots@[i as int].pool@);
        pools.insert(plan.snapshots[i].pool.clone());
        i += 1;
    }
    let mut j: usize = 0;
    while j < plan.prunes.len()
        invariant
            j <= plan.prunes@.len(),
            all == action_pools(plan@),
            pools@ == name_set(all, plan.snapshots@.len() + j),
        decreases plan.prunes.len() - j,
    {
        assert(all[plan.snapshots@.len() + j] == plan.prunes@[j as int].pool@);
        pools.insert(plan.prunes[j].pool.clone());
        j += 1;
    }
    let ghost names = pools@;
    let ghost expected = works(plan@);
    let mut list: Vec<PoolWork> = Vec::new();
    let mut k: usize = 0;
    assert(views(list@) =~= expected.take(0));
    while k < pools.len()
        invariant
            k <= pools@.len(),
            pools@ == names,
            expected == names.map_values(|pool: Seq<char>| work_of(plan@, pool)),
            views(list@) == expected.take(k as int),
        decreases names.len() - k,
    {
        let work = pool_work(plan, pools.name_at(k));
        proof {
            lemma_views_push(list@, work);
            assert(expected.take(k + 1) =~= expected.take(k as int).push(work@));
        }
        list.push(work);
        k += 1;
    }
    assert(expected.take(k as int) =~= expected);
    list
}

/// How many pools run at once: all of them, or as many as the settings allow.
pub open spec fn threads(settings: SettingsModel, pools: nat) -> nat {
    if settings.max_parallel_pools == 0 || settings.max_parallel_pools > pools {
        if pools == 0 {
            1
        } else {
            pools
        }
    } else {
        settings.max_parallel_pools as nat
    }
}

pub fn thread_count(settings: &Settings, pools: usize) -> (res: usize)
    ensures
        res == threads(settings@, pools as nat),
{
    if settings.max_parallel_pools == 0 || settings.max_parallel_pools > pools {
        if pools == 0 {
            1
        } else {
            pools
        }
    } else {
        settings.max_parallel_pools
    }
}

// ---------------------------------------------------------------------------
// Reports
// ---------------------------------------------------------------------------

/// What became of the work of a pool.
pub struct PoolResult {
    pub pool: String,
    pub snapshots_created: usize,
    pub snapshots_pruned: usize,
    pub prunes_skipped: usize,
    pub errors: Vec<String>,
    pub logs: Vec<String>,
}

/// The model of a [`PoolResult`].
pub struct ResultModel {
    pub pool: Seq<char>,
    pub snapshots_created: usize,
    pub snapshots_pruned: usize,
    pub prunes_skipped: usize,
    pub errors: Seq<Seq<char>>,
    pub logs: Seq<Seq<char>>,
}

impl View for PoolResult {
    type V = ResultModel;

    open spec fn view(&self) -> ResultModel {
        ResultModel {
            pool: self.pool@,
            snapshots_created: self.snapshots_created,
            snapshots_pruned: self.snapshots_pruned,
            prunes_skipped: self.prunes_skipped,
            errors: texts(self.errors@),
            logs: texts(self.logs@),
        }
    }
}

impl Sortable for PoolResult {
    open spec fn may_precede(a: ResultModel, b: ResultModel) -> bool {
        <String as Sortable>::may_precede(a.pool, b.pool)
    }

    proof fn lemma_total(a: ResultModel, b: ResultModel) {
        <String as Sortable>::lemma_total(a.pool, b.pool);
    }

    proof fn lemma_transitive(a: ResultModel, b: ResultModel, c: ResultModel) {
        <String as Sortable>::lemma_transitive(a.pool, b.pool, c.pool);
    }

    fn precedes(&self, other: &Self) -> (res: bool) {
        self.pool.precedes(&other.pool)
    }
}

impl PoolRun {
    /// What became of the work.
    pub fn into_result(self) -> (res: PoolResult)
        ensures
            res@ == (ResultModel {
                pool: self@.pool,
                snapshots_created: self@.created as usize,
                snapshots_pruned: self@.pruned as usize,
                prunes_skipped: self@.skipped as usize,
                errors: self@.errors,
                logs: self@.logs,
            }),
            res@.snapshots_created == self@.created,
            res@.snapshots_pruned == self@.pruned,
            res@.prunes_skipped == self@.skipped,
    {
        PoolResult {
            pool: self.pool,
            snapshots_created: self.created,
            snapshots_pruned: self.pruned,
            prunes_skipped: self.skipped,
            errors: self.errors,
            logs: self.logs,
        }
    }
}

/// The line on how long the work of a pool took, in milliseconds.
pub open spec fn timing_line(
    pool: Seq<char>,
    snapshots: Seq<char>,
    pruning: Seq<char>,
    total: Seq<char>,
) -> Seq<char> {
    "["@ + pool + "] timing: snapshots "@ + snapshots + " ms, pruning "@ + pruning + " ms, total "@
        + total + " ms"@
}

impl PoolResult {
    /// Logs how long the work took: its snapshots, its pruning, and all of it.
    pub fn log_timing(&mut self, snapshots: &str, pruning: &str, total: &str)
        ensures
            final(self)@ == (ResultModel {
                logs: old(self)@.logs.push(
                    timing_line(old(self)@.pool, snapshots@, pruning@, total@),
                ),
                ..old(self)@
            }),
    {
        let mut line = "[".to_owned();
        line.append(self.pool.as_str());
        line.append("] timing: snapshots ");
        line.append(snapshots);
        line.append(" ms, pruning ");
        line.append(pruning);
        line.append(" ms, total ");
        line.append(total);
        line.append(" ms");
        proof {
            lemma_texts_push(self.logs@, line);
        }
        self.logs.push(line);
    }
}

/// What became of a plan.
pub struct ExecutionReport {
    pub dry_run: bool,
    pub snapshots_created: usize,
    pub snapshots_pruned: usize,
    pub prunes_skipped_after_snapshot_failure: usize,
    pub errors: Vec<String>,
    pub logs: Vec<String>,
}

/// The model of an [`ExecutionReport`].
#[verifier::ext_equal]
pub struct ReportModel {
    pub dry_run: bool,
    pub snapshots_created: nat,
    pub snapshots_pruned: nat,
    pub prunes_skipped_after_snapshot_failure: nat,
    pub errors: Seq<Seq<char>>,
    pub logs: Seq<Seq<char>>,
}

impl View for ExecutionReport {
    type V = ReportModel;

    open spec fn view(&self) -> ReportModel {
        ReportModel {
            dry_run: self.dry_run,
            snapshots_created: self.snapshots_created as nat,
            snapshots_pruned: self.snapshots_pruned as nat,
            prunes_skipped_after_snapshot_failure: self.prunes_skipped_after_snapshot_failure
                as nat,
            errors: texts(self.errors@),
            logs: texts(self.logs@),
        }
    }
}

impl ExecutionReport {
    pub fn succeeded(&self) -> (res: bool)
        ensures
            res == (self@.errors.len() == 0),
    {
        self.errors.len() == 0
    }

    fn push_log(&mut self, line: String)
        ensures
            final(self)@ == (ReportModel { logs: old(self)@.logs.push(line@), ..old(self)@ }),
    {
        proof {
            lemma_texts_push(self.logs@, line);
        }
        self.logs.push(line);
    }

    /// Logs how long the whole run took, in milliseconds.
    pub fn log_timing(&mut self, elapsed: &str)
        ensures
            final(self)@ == (ReportModel {
                logs: old(self)@.logs.push(
                    "[overall] timing: core run "@ + elapsed@
                        + " ms (discovery, planning, and pool execution)"@,
                ),
                ..old(self)@
            }),
    {
        let mut line = "[overall] timing: core run ".to_owned();
        line.append(elapsed);
        line.append(" ms (discovery, planning, and pool execution)");
        self.push_log(line);
    }

    /// Logs that the status cache was written.
    pub fn log_cache(&mut self, path: &str)
        ensures
            final(self)@ == (ReportModel {
                logs: old(self)@.logs.push("[status] updated reporting cache "@ + path@),
                ..old(self)@
            }),
    {
        let mut line = "[status] updated reporting cache ".to_owned();
        line.append(path);
        self.push_log(line);
    }
}

/// The report of the first `n` results.
pub open spec fn merged(results: Seq<ResultModel>, dry_run: bool, n: int) -> ReportModel
    decreases n,
{
    if n <= 0 {
        ReportModel {
            dry_run,
            snapshots_created: 0,
            snapshots_pruned: 0,
            prunes_skipped_after_snapshot_failure: 0,
            errors: Seq::empty(),
            logs: Seq::empty(),
        }
    } else {
        let earlier = merged(results, dry_run, n - 1);
        let result = results[n - 1];
        ReportModel {
            dry_run,
            snapshots_created: earlier.snapshots_created + result.snapshots_created as nat,
            snapshots_pruned: earlier.snapshots_pruned + result.snapshots_pruned as nat,
            prunes_skipped_after_snapshot_failure: earlier.prunes_skipped_after_snapshot_failure
                + result.prunes_skipped as nat,
            errors: earlier.errors + result.errors,
            logs: earlier.logs + result.logs,
        }
    }
}

/// The counts of a report fit their type.
pub open spec fn countable(report: ReportModel) -> bool {
    &&& report.snapshots_created <= usize::MAX
    &&& report.snapshots_pruned <= usize::MAX
    &&& report.prunes_skipped_after_snapshot_failure <= usize::MAX
}

proof fn lemma_merged_grows(results: Seq<ResultModel>, dry_run: bool, m: int, n: int)
    requires
        0 <= m <= n,
    ensures
        countable(merged(results, dry_run, n)) ==> countable(merged(results, dry_run, m)),
    decreases n,
{
    if m < n {
        lemma_merged_grows(results, dry_run, m, n - 1);
    }
}

/// Appends lines.
fn append_lines(lines: &mut Vec<String>, more: &Vec<String>)
    ensures
        texts(final(lines)@) == texts(old(lines)@) + texts(more@),
{
    let ghost start = texts(lines@);
    let mut i: usize = 0;
    assert(start + texts(more@).take(0) =~= start);
    while i < more.len()
        invariant
            i <= more@.len(),
            texts(lines@) == start + texts(more@).take(i as int),
        decreases more.len() - i,
    {
        let line = more[i].clone();
        proof {
            lemma_texts_push(lines@, line);
            assert(start + texts(more@).take(i + 1) =~= (start + texts(more@).take(i as int)).push(
                line@,
            ));
        }
        lines.push(line);
        i += 1;
    }
    assert(texts(more@).take(i as int) =~= texts(more@));
}

/// Joins the results of the pools, in the order of their names.
pub fn merge_results(results: Vec<PoolResult>, dry_run: bool) -> (res: ExecutionReport)
    requires
        countable(
            merged(
                sorted::<PoolResult>(views(results@)),
                dry_run,
                sorted::<PoolResult>(views(results@)).len() as int,
            ),
        ),
    ensures
        res@ == merged(
            sorted::<PoolResult>(views(results@)),
            dry_run,
            sorted::<PoolResult>(views(results@)).len() as int,
        ),
{
    let ordered = sort(results);
    let ghost all = views(ordered@);
    let mut report = ExecutionReport {
        dry_run,
        snapshots_created: 0,
        snapshots_pruned: 0,
        prunes_skipped_after_snapshot_failure: 0,
        errors: Vec::new(),
        logs: Vec::new(),
    };
    let mut i: usize = 0;
    assert(report@ =~= merged(all, dry_run, 0));
    while i < ordered.len()
        invariant
            i <= ordered@.len(),
            all == views(ordered@),
            countable(merged(all, dry_run, all.len() as int)),
            report@ == merged(all, dry_run, i as int),
        decreases ordered.len() - i,
    {
        let result = &ordered[i];
        proof {
            assert(all[i as int] == result@);
            lemma_merged_grows(all, dry_run, i + 1, all.len() as int);
        }
        report.snapshots_created += result.snapshots_created;
        report.snapshots_pruned += result.snapshots_pruned;
        report.prunes_skipped_after_snapshot_failure += result.prunes_skipped;
        append_lines(&mut report.errors, &result.errors);
        append_lines(&mut report.logs, &result.logs);
        assert(report@ =~= merged(all, dry_run, i + 1));
        i += 1;
    }
    report
}

} // verus!
