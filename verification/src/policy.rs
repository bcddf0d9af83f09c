//! Snapshot policies: what one dataset keeps, when, and with which hooks.
use vstd::prelude::*;

use crate::error::{reports, Error};
use crate::model::SnapshotKind;
use crate::text::{copy_texts, has_char, same_texts, texts, trim, trimmed};

verus! {

/// The values that a template or a dataset section sets.
#[derive(Debug, PartialEq, Eq)]
pub struct PolicyPatch {
    pub autosnap: Option<bool>,
    pub autoprune: Option<bool>,
    pub frequently: Option<u32>,
    pub hourly: Option<u32>,
    pub daily: Option<u32>,
    pub weekly: Option<u32>,
    pub monthly: Option<u32>,
    pub yearly: Option<u32>,
    pub frequent_period: Option<u32>,
    pub hourly_min: Option<u32>,
    pub daily_hour: Option<u32>,
    pub daily_min: Option<u32>,
    pub weekly_wday: Option<u32>,
    pub weekly_hour: Option<u32>,
    pub weekly_min: Option<u32>,
    pub monthly_mday: Option<u32>,
    pub monthly_hour: Option<u32>,
    pub monthly_min: Option<u32>,
    pub yearly_mon: Option<u32>,
    pub yearly_mday: Option<u32>,
    pub yearly_hour: Option<u32>,
    pub yearly_min: Option<u32>,
    pub prune_defer: Option<u8>,
    pub pre_snapshot_script: Option<Vec<String>>,
    pub post_snapshot_script: Option<Vec<String>>,
    pub pre_pruning_script: Option<Vec<String>>,
    pub pruning_script: Option<Vec<String>>,
    pub script_timeout: Option<u64>,
    pub no_inconsistent_snapshot: Option<bool>,
    pub force_post_snapshot_script: Option<bool>,
}

/// The model of a [`PolicyPatch`].
pub struct PatchModel {
    pub autosnap: Option<bool>,
    pub autoprune: Option<bool>,
    pub frequently: Option<u32>,
    pub hourly: Option<u32>,
    pub daily: Option<u32>,
    pub weekly: Option<u32>,
    pub monthly: Option<u32>,
    pub yearly: Option<u32>,
    pub frequent_period: Option<u32>,
    pub hourly_min: Option<u32>,
    pub daily_hour: Option<u32>,
    pub daily_min: Option<u32>,
    pub weekly_wday: Option<u32>,
    pub weekly_hour: Option<u32>,
    pub weekly_min: Option<u32>,
    pub monthly_mday: Option<u32>,
    pub monthly_hour: Option<u32>,
    pub monthly_min: Option<u32>,
    pub yearly_mon: Option<u32>,
    pub yearly_mday: Option<u32>,
    pub yearly_hour: Option<u32>,
    pub yearly_min: Option<u32>,
    pub prune_defer: Option<u8>,
    pub pre_snapshot_script: Option<Seq<Seq<char>>>,
    pub post_snapshot_script: Option<Seq<Seq<char>>>,
    pub pre_pruning_script: Option<Seq<Seq<char>>>,
    pub pruning_script: Option<Seq<Seq<char>>>,
    pub script_timeout: Option<u64>,
    pub no_inconsistent_snapshot: Option<bool>,
    pub force_post_snapshot_script: Option<bool>,
}

/// A complete policy.
#[derive(Debug, PartialEq, Eq)]
pub struct Policy {
    pub autosnap: bool,
    pub autoprune: bool,
    pub frequently: u32,
    pub hourly: u32,
    pub daily: u32,
    pub weekly: u32,
    pub monthly: u32,
    pub yearly: u32,
    pub frequent_period: u32,
    pub hourly_min: u32,
    pub daily_hour: u32,
    pub daily_min: u32,
    pub weekly_wday: u32,
    pub weekly_hour: u32,
    pub weekly_min: u32,
    pub monthly_mday: u32,
    pub monthly_hour: u32,
    pub monthly_min: u32,
    pub yearly_mon: u32,
    pub yearly_mday: u32,
    pub yearly_hour: u32,
    pub yearly_min: u32,
    pub prune_defer: u8,
    pub pre_snapshot_script: Vec<String>,
    pub post_snapshot_script: Vec<String>,
    pub pre_pruning_script: Vec<String>,
    pub pruning_script: Vec<String>,
    pub script_timeout: u64,
    pub no_inconsistent_snapshot: bool,
    pub force_post_snapshot_script: bool,
}

/// The model of a [`Policy`].
pub struct PolicyModel {
    pub autosnap: bool,
    pub autoprune: bool,
    pub frequently: u32,
    pub hourly: u32,
    pub daily: u32,
    pub weekly: u32,
    pub monthly: u32,
    pub yearly: u32,
    pub frequent_period: u32,
    pub hourly_min: u32,
    pub daily_hour: u32,
    pub daily_min: u32,
    pub weekly_wday: u32,
    pub weekly_hour: u32,
    pub weekly_min: u32,
    pub monthly_mday: u32,
    pub monthly_hour: u32,
    pub monthly_min: u32,
    pub yearly_mon: u32,
    pub yearly_mday: u32,
    pub yearly_hour: u32,
    pub yearly_min: u32,
    pub prune_defer: u8,
    pub pre_snapshot_script: Seq<Seq<char>>,
    pub post_snapshot_script: Seq<Seq<char>>,
    pub pre_pruning_script: Seq<Seq<char>>,
    pub pruning_script: Seq<Seq<char>>,
    pub script_timeout: u64,
    pub no_inconsistent_snapshot: bool,
    pub force_post_snapshot_script: bool,
}

/// The texts of an optional command.
pub open spec fn optional_texts(command: Option<Vec<String>>) -> Option<Seq<Seq<char>>> {
    match command {
        Some(parts) => Some(texts(parts@)),
        None => None,
    }
}

fn copy_optional(command: &Option<Vec<String>>) -> (res: Option<Vec<String>>)
    ensures
        optional_texts(res) == optional_texts(*command),
{
    match command {
        Some(parts) => Some(copy_texts(parts)),
        None => None,
    }
}

impl View for PolicyPatch {
    type V = PatchModel;

    open spec fn view(&self) -> PatchModel {
        PatchModel {
            autosnap: self.autosnap,
            autoprune: self.autoprune,
            frequently: self.frequently,
            hourly: self.hourly,
            daily: self.daily,
            weekly: self.weekly,
            monthly: self.monthly,
            yearly: self.yearly,
            frequent_period: self.frequent_period,
            hourly_min: self.hourly_min,
            daily_hour: self.daily_hour,
            daily_min: self.daily_min,
            weekly_wday: self.weekly_wday,
            weekly_hour: self.weekly_hour,
            weekly_min: self.weekly_min,
            monthly_mday: self.monthly_mday,
            monthly_hour: self.monthly_hour,
            monthly_min: self.monthly_min,
            yearly_mon: self.yearly_mon,
            yearly_mday: self.yearly_mday,
            yearly_hour: self.yearly_hour,
            yearly_min: self.yearly_min,
            prune_defer: self.prune_defer,
            pre_snapshot_script: optional_texts(self.pre_snapshot_script),
            post_snapshot_script: optional_texts(self.post_snapshot_script),
            pre_pruning_script: optional_texts(self.pre_pruning_script),
            pruning_script: optional_texts(self.pruning_script),
            script_timeout: self.script_timeout,
            no_inconsistent_snapshot: self.no_inconsistent_snapshot,
            force_post_snapshot_script: self.force_post_snapshot_script,
        }
    }
}

fn same_optional(a: &Option<Vec<String>>, b: &Option<Vec<String>>) -> (res: bool)
    ensures
        res == (optional_texts(*a) == optional_texts(*b)),
{
    match (a, b) {
        (Some(a), Some(b)) => same_texts(a, b),
        (None, None) => true,
        _ => false,
    }
}

impl PolicyPatch {
    /// Whether two patches say the same.
    pub fn says_same(&self, other: &PolicyPatch) -> (res: bool)
        ensures
            res == (self@ == other@),
    {
        self.autosnap == other.autosnap
            && self.autoprune == other.autoprune
            && self.frequently == other.frequently
            && self.hourly == other.hourly
            && self.daily == other.daily
            && self.weekly == other.weekly
            && self.monthly == other.monthly
            && self.yearly == other.yearly
            && self.frequent_period == other.frequent_period
            && self.hourly_min == other.hourly_min
            && self.daily_hour == other.daily_hour
            && self.daily_min == other.daily_min
            && self.weekly_wday == other.weekly_wday
            && self.weekly_hour == other.weekly_hour
            && self.weekly_min == other.weekly_min
            && self.monthly_mday == other.monthly_mday
            && self.monthly_hour == other.monthly_hour
            && self.monthly_min == other.monthly_min
            && self.yearly_mon == other.yearly_mon
            && self.yearly_mday == other.yearly_mday
            && self.yearly_hour == other.yearly_hour
            && self.yearly_min == other.yearly_min
            && self.prune_defer == other.prune_defer
            && same_optional(&self.pre_snapshot_script, &other.pre_snapshot_script)
            && same_optional(&self.post_snapshot_script, &other.post_snapshot_script)
            && same_optional(&self.pre_pruning_script, &other.pre_pruning_script)
            && same_optional(&self.pruning_script, &other.pruning_script)
            && self.script_timeout == other.script_timeout
            && self.no_inconsistent_snapshot == other.no_inconsistent_snapshot
            && self.force_post_snapshot_script == other.force_post_snapshot_script
    }
}

impl View for Policy {
    type V = PolicyModel;

    open spec fn view(&self) -> PolicyModel {
        PolicyModel {
            autosnap: self.autosnap,
            autoprune: self.autoprune,
            frequently: self.frequently,
            hourly: self.hourly,
            daily: self.daily,
            weekly: self.weekly,
            monthly: self.monthly,
            yearly: self.yearly,
            frequent_period: self.frequent_period,
            hourly_min: self.hourly_min,
            daily_hour: self.daily_hour,
            daily_min: self.daily_min,
            weekly_wday: self.weekly_wday,
            weekly_hour: self.weekly_hour,
            weekly_min: self.weekly_min,
            monthly_mday: self.monthly_mday,
            monthly_hour: self.monthly_hour,
            monthly_min: self.monthly_min,
            yearly_mon: self.yearly_mon,
            yearly_mday: self.yearly_mday,
            yearly_hour: self.yearly_hour,
            yearly_min: self.yearly_min,
            prune_defer: self.prune_defer,
            pre_snapshot_script: texts(self.pre_snapshot_script@),
            post_snapshot_script: texts(self.post_snapshot_script@),
            pre_pruning_script: texts(self.pre_pruning_script@),
            pruning_script: texts(self.pruning_script@),
            script_timeout: self.script_timeout,
            no_inconsistent_snapshot: self.no_inconsistent_snapshot,
            force_post_snapshot_script: self.force_post_snapshot_script,
        }
    }
}

/// A patch that sets nothing.
pub open spec fn empty_patch() -> PatchModel {
    PatchModel {
        autosnap: None,
        autoprune: None,
        frequently: None,
        hourly: None,
        daily: None,
        weekly: None,
        monthly: None,
        yearly: None,
        frequent_period: None,
        hourly_min: None,
        daily_hour: None,
        daily_min: None,
        weekly_wday: None,
        weekly_hour: None,
        weekly_min: None,
        monthly_mday: None,
        monthly_hour: None,
        monthly_min: None,
        yearly_mon: None,
        yearly_mday: None,
        yearly_hour: None,
        yearly_min: None,
        prune_defer: None,
        pre_snapshot_script: None,
        post_snapshot_script: None,
        pre_pruning_script: None,
        pruning_script: None,
        script_timeout: None,
        no_inconsistent_snapshot: None,
        force_post_snapshot_script: None,
    }
}

impl Default for PolicyPatch {
    fn default() -> (res: Self)
        ensures
            res@ == empty_patch(),
    {
        PolicyPatch {
            autosnap: None,
            autoprune: None,
            frequently: None,
            hourly: None,
            daily: None,
            weekly: None,
            monthly: None,
            yearly: None,
            frequent_period: None,
            hourly_min: None,
            daily_hour: None,
            daily_min: None,
            weekly_wday: None,
            weekly_hour: None,
            weekly_min: None,
            monthly_mday: None,
            monthly_hour: None,
            monthly_min: None,
            yearly_mon: None,
            yearly_mday: None,
            yearly_hour: None,
            yearly_min: None,
            prune_defer: None,
            pre_snapshot_script: None,
            post_snapshot_script: None,
            pre_pruning_script: None,
            pruning_script: None,
            script_timeout: None,
            no_inconsistent_snapshot: None,
            force_post_snapshot_script: None,
        }
    }
}

impl Clone for PolicyPatch {
    fn clone(&self) -> (res: Self)
        ensures
            res@ == self@,
    {
        PolicyPatch {
            autosnap: self.autosnap,
            autoprune: self.autoprune,
            frequently: self.frequently,
            hourly: self.hourly,
            daily: self.daily,
            weekly: self.weekly,
            monthly: self.monthly,
            yearly: self.yearly,
            frequent_period: self.frequent_period,
            hourly_min: self.hourly_min,
            daily_hour: self.daily_hour,
            daily_min: self.daily_min,
            weekly_wday: self.weekly_wday,
            weekly_hour: self.weekly_hour,
            weekly_min: self.weekly_min,
            monthly_mday: self.monthly_mday,
            monthly_hour: self.monthly_hour,
            monthly_min: self.monthly_min,
            yearly_mon: self.yearly_mon,
            yearly_mday: self.yearly_mday,
            yearly_hour: self.yearly_hour,
            yearly_min: self.yearly_min,
            prune_defer: self.prune_defer,
            pre_snapshot_script: copy_optional(&self.pre_snapshot_script),
            post_snapshot_script: copy_optional(&self.post_snapshot_script),
            pre_pruning_script: copy_optional(&self.pre_pruning_script),
            pruning_script: copy_optional(&self.pruning_script),
            script_timeout: self.script_timeout,
            no_inconsistent_snapshot: self.no_inconsistent_snapshot,
            force_post_snapshot_script: self.force_post_snapshot_script,
        }
    }
}

impl Clone for Policy {
    fn clone(&self) -> (res: Self)
        ensures
            res@ == self@,
    {
        Policy {
            autosnap: self.autosnap,
            autoprune: self.autoprune,
            frequently: self.frequently,
            hourly: self.hourly,
            daily: self.daily,
            weekly: self.weekly,
            monthly: self.monthly,
            yearly: self.yearly,
            frequent_period: self.frequent_period,
            hourly_min: self.hourly_min,
            daily_hour: self.daily_hour,
            daily_min: self.daily_min,
            weekly_wday: self.weekly_wday,
            weekly_hour: self.weekly_hour,
            weekly_min: self.weekly_min,
            monthly_mday: self.monthly_mday,
            monthly_hour: self.monthly_hour,
            monthly_min: self.monthly_min,
            yearly_mon: self.yearly_mon,
            yearly_mday: self.yearly_mday,
            yearly_hour: self.yearly_hour,
            yearly_min: self.yearly_min,
            prune_defer: self.prune_defer,
            pre_snapshot_script: copy_texts(&self.pre_snapshot_script),
            post_snapshot_script: copy_texts(&self.post_snapshot_script),
            pre_pruning_script: copy_texts(&self.pre_pruning_script),
            pruning_script: copy_texts(&self.pruning_script),
            script_timeout: self.script_timeout,
            no_inconsistent_snapshot: self.no_inconsistent_snapshot,
            force_post_snapshot_script: self.force_post_snapshot_script,
        }
    }
}

/// The policy of a dataset that sets nothing.
pub open spec fn default_policy() -> PolicyModel {
    PolicyModel {
        autosnap: true,
        autoprune: true,
        frequently: 0,
        hourly: 48,
        daily: 90,
        weekly: 0,
        monthly: 6,
        yearly: 0,
        frequent_period: 15,
        hourly_min: 0,
        daily_hour: 23,
        daily_min: 59,
        weekly_wday: 1,
        weekly_hour: 23,
        weekly_min: 30,
        monthly_mday: 1,
        monthly_hour: 0,
        monthly_min: 0,
        yearly_mon: 1,
        yearly_mday: 1,
        yearly_hour: 0,
        yearly_min: 0,
        prune_defer: 0,
        pre_snapshot_script: seq![],
        post_snapshot_script: seq![],
        pre_pruning_script: seq![],
        pruning_script: seq![],
        script_timeout: 5,
        no_inconsistent_snapshot: true,
        force_post_snapshot_script: false,
    }
}

impl Default for Policy {
    fn default() -> (res: Self)
        ensures
            res@ == default_policy(),
    {
        let res = Policy {
            autosnap: true,
            autoprune: true,
            frequently: 0,
            hourly: 48,
            daily: 90,
            weekly: 0,
            monthly: 6,
            yearly: 0,
            frequent_period: 15,
            hourly_min: 0,
            daily_hour: 23,
            daily_min: 59,
            weekly_wday: 1,
            weekly_hour: 23,
            weekly_min: 30,
            monthly_mday: 1,
            monthly_hour: 0,
            monthly_min: 0,
            yearly_mon: 1,
            yearly_mday: 1,
            yearly_hour: 0,
            yearly_min: 0,
            prune_defer: 0,
            pre_snapshot_script: Vec::new(),
            post_snapshot_script: Vec::new(),
            pre_pruning_script: Vec::new(),
            pruning_script: Vec::new(),
            script_timeout: 5,
            no_inconsistent_snapshot: true,
            force_post_snapshot_script: false,
        };
        assert(texts(res.pre_snapshot_script@) =~= seq![]);
        assert(texts(res.post_snapshot_script@) =~= seq![]);
        assert(texts(res.pre_pruning_script@) =~= seq![]);
        assert(texts(res.pruning_script@) =~= seq![]);
        res
    }
}

/// A policy with the values of a patch in place of its own.
pub open spec fn patched(policy: PolicyModel, patch: PatchModel) -> PolicyModel {
    PolicyModel {
        autosnap: match patch.autosnap {
            Some(value) => value,
            None => policy.autosnap,
        },
        autoprune: match patch.autoprune {
            Some(value) => value,
            None => policy.autoprune,
        },
        frequently: match patch.frequently {
            Some(value) => value,
            None => policy.frequently,
        },
        hourly: match patch.hourly {
            Some(value) => value,
            None => policy.hourly,
        },
        daily: match patch.daily {
            Some(value) => value,
            None => policy.daily,
        },
        weekly: match patch.weekly {
            Some(value) => value,
            None => policy.weekly,
        },
        monthly: match patch.monthly {
            Some(value) => value,
            None => policy.monthly,
        },
        yearly: match patch.yearly {
            Some(value) => value,
            None => policy.yearly,
        },
        frequent_period: match patch.frequent_period {
            Some(value) => value,
            None => policy.frequent_period,
        },
        hourly_min: match patch.hourly_min {
            Some(value) => value,
            None => policy.hourly_min,
        },
        daily_hour: match patch.daily_hour {
            Some(value) => value,
            None => policy.daily_hour,
        },
        daily_min: match patch.daily_min {
            Some(value) => value,
            None => policy.daily_min,
        },
        weekly_wday: match patch.weekly_wday {
            Some(value) => value,
            None => policy.weekly_wday,
        },
        weekly_hour: match patch.weekly_hour {
            Some(value) => value,
            None => policy.weekly_hour,
        },
        weekly_min: match patch.weekly_min {
            Some(value) => value,
            None => policy.weekly_min,
        },
        monthly_mday: match patch.monthly_mday {
            Some(value) => value,
            None => policy.monthly_mday,
        },
        monthly_hour: match patch.monthly_hour {
            Some(value) => value,
            None => policy.monthly_hour,
        },
        monthly_min: match patch.monthly_min {
            Some(value) => value,
            None => policy.monthly_min,
        },
        yearly_mon: match patch.yearly_mon {
            Some(value) => value,
            None => policy.yearly_mon,
        },
        yearly_mday: match patch.yearly_mday {
            Some(value) => value,
            None => policy.yearly_mday,
        },
        yearly_hour: match patch.yearly_hour {
            Some(value) => value,
            None => policy.yearly_hour,
        },
        yearly_min: match patch.yearly_min {
            Some(value) => value,
            None => policy.yearly_min,
        },
        prune_defer: match patch.prune_defer {
            Some(value) => value,
            None => policy.prune_defer,
        },
        pre_snapshot_script: match patch.pre_snapshot_script {
            Some(value) => value,
            None => policy.pre_snapshot_script,
        },
        post_snapshot_script: match patch.post_snapshot_script {
            Some(value) => value,
            None => policy.post_snapshot_script,
        },
        pre_pruning_script: match patch.pre_pruning_script {
            Some(value) => value,
            None => policy.pre_pruning_script,
        },
        pruning_script: match patch.pruning_script {
            Some(value) => value,
            None => policy.pruning_script,
        },
        script_timeout: match patch.script_timeout {
            Some(value) => value,
            None => policy.script_timeout,
        },
        no_inconsistent_snapshot: match patch.no_inconsistent_snapshot {
            Some(value) => value,
            None => policy.no_inconsistent_snapshot,
        },
        force_post_snapshot_script: match patch.force_post_snapshot_script {
            Some(value) => value,
            None => policy.force_post_snapshot_script,
        },
    }
}

/// The number of snapshots of a class to keep.
pub open spec fn kept(policy: PolicyModel, kind: SnapshotKind) -> u32 {
    match kind {
        SnapshotKind::Frequently => policy.frequently,
        SnapshotKind::Hourly => policy.hourly,
        SnapshotKind::Daily => policy.daily,
        SnapshotKind::Weekly => policy.weekly,
        SnapshotKind::Monthly => policy.monthly,
        SnapshotKind::Yearly => policy.yearly,
    }
}

/// What is wrong with a hook command.
pub open spec fn hook_fault(command: Seq<Seq<char>>, context: Seq<char>, field: Seq<char>) -> Option<
    Seq<char>,
> {
    if command.len() == 0 {
        None
    } else if trim(command[0]).len() == 0 {
        Some(context + ": "@ + field + " executable cannot be empty"@)
    } else if exists|i: int| 0 <= i < command.len() && (#[trigger] command[i]).contains('\0') {
        Some(context + ": "@ + field + " cannot contain NUL bytes"@)
    } else {
        None
    }
}

/// The first fault of the schedule values of a policy.
pub open spec fn schedule_fault(policy: PolicyModel, context: Seq<char>) -> Option<Seq<char>> {
    if !(1 <= policy.frequent_period <= 60 && 60u32 % policy.frequent_period == 0) {
        Some(context + ": frequent_period must be a divisor of 60 between 1 and 60"@)
    } else if !(policy.hourly_min <= 59) {
        Some(context + ": hourly_min must be 0..59"@)
    } else if !(policy.daily_hour <= 23) {
        Some(context + ": daily_hour must be 0..23"@)
    } else if !(policy.daily_min <= 59) {
        Some(context + ": daily_min must be 0..59"@)
    } else if !(1 <= policy.weekly_wday <= 7) {
        Some(context + ": weekly_wday must be 1 (Monday) through 7 (Sunday)"@)
    } else if !(policy.weekly_hour <= 23) {
        Some(context + ": weekly_hour must be 0..23"@)
    } else if !(policy.weekly_min <= 59) {
        Some(context + ": weekly_min must be 0..59"@)
    } else if !(1 <= policy.monthly_mday <= 28) {
        Some(context + ": monthly_mday must be 1..28 so it exists in every month"@)
    } else if !(policy.monthly_hour <= 23) {
        Some(context + ": monthly_hour must be 0..23"@)
    } else if !(policy.monthly_min <= 59) {
        Some(context + ": monthly_min must be 0..59"@)
    } else if !(1 <= policy.yearly_mon <= 12) {
        Some(context + ": yearly_mon must be 1..12"@)
    } else if !(1 <= policy.yearly_mday <= 31) {
        Some(context + ": yearly_mday must be 1..31"@)
    } else if !(policy.yearly_hour <= 23) {
        Some(context + ": yearly_hour must be 0..23"@)
    } else if !(policy.yearly_min <= 59) {
        Some(context + ": yearly_min must be 0..59"@)
    } else if !(policy.prune_defer <= 100) {
        Some(context + ": prune_defer must be 0..100"@)
    } else {
        None
    }
}

/// The first of two faults.
pub open spec fn or_else(first: Option<Seq<char>>, second: Option<Seq<char>>) -> Option<Seq<char>> {
    match first {
        Some(message) => Some(message),
        None => second,
    }
}

/// The first fault of a policy; `context` says whose policy it is.
pub open spec fn policy_fault(policy: PolicyModel, context: Seq<char>) -> Option<Seq<char>> {
    or_else(
        schedule_fault(policy, context),
        or_else(
            hook_fault(policy.pre_snapshot_script, context, "pre_snapshot_script"@),
            or_else(
                hook_fault(policy.post_snapshot_script, context, "post_snapshot_script"@),
                or_else(
                    hook_fault(policy.pre_pruning_script, context, "pre_pruning_script"@),
                    hook_fault(policy.pruning_script, context, "pruning_script"@),
                ),
            ),
        ),
    )
}

/// The value of a patch, or else the value there is.
fn chosen<T: Copy>(patch: Option<T>, current: T) -> (res: T)
    ensures
        res == (match patch {
            Some(value) => value,
            None => current,
        }),
{
    match patch {
        Some(value) => value,
        None => current,
    }
}

fn chosen_script(patch: &Option<Vec<String>>, current: &Vec<String>) -> (res: Vec<String>)
    ensures
        texts(res@) == (match optional_texts(*patch) {
            Some(value) => value,
            None => texts(current@),
        }),
{
    match patch {
        Some(value) => copy_texts(value),
        None => copy_texts(current),
    }
}

pub(crate) fn failure(context: &str, message: &str) -> (res: Result<(), Error>)
    ensures
        reports(res, Some(context@ + message@)),
{
    let mut text = context.to_owned();
    text.append(message);
    Err(Error::new(text))
}

pub fn validate_hook(command: &Vec<String>, context: &str, field: &str) -> (res: Result<(), Error>)
    ensures
        reports(res, hook_fault(texts(command@), context@, field@)),
{
    if command.len() == 0 {
        return Ok(());
    }
    assert(texts(command@)[0] == command@[0]@);
    if trimmed(command[0].as_str()).as_str().is_empty() {
        let mut text = context.to_owned();
        text.append(": ");
        text.append(field);
        text.append(" executable cannot be empty");
        return Err(Error::new(text));
    }
    let mut i: usize = 0;
    while i < command.len()
        invariant
            0 < command@.len(),
            i <= command@.len(),
            trim(texts(command@)[0]).len() > 0,
            forall|j: int| 0 <= j < i ==> !(#[trigger] texts(command@)[j]).contains('\0'),
        decreases command.len() - i,
    {
        assert(texts(command@)[i as int] == command@[i as int]@);
        if has_char(command[i].as_str(), '\0') {
            let mut text = context.to_owned();
            text.append(": ");
            text.append(field);
            text.append(" cannot contain NUL bytes");
            return Err(Error::new(text));
        }
        i += 1;
    }
    Ok(())
}

impl Policy {
    /// Sets the values that a patch gives.
    pub fn apply(&mut self, patch: &PolicyPatch)
        ensures
            final(self)@ == patched(old(self)@, patch@),
    {
        *self = Policy {
            autosnap: chosen(patch.autosnap, self.autosnap),
            autoprune: chosen(patch.autoprune, self.autoprune),
            frequently: chosen(patch.frequently, self.frequently),
            hourly: chosen(patch.hourly, self.hourly),
            daily: chosen(patch.daily, self.daily),
            weekly: chosen(patch.weekly, self.weekly),
            monthly: chosen(patch.monthly, self.monthly),
            yearly: chosen(patch.yearly, self.yearly),
            frequent_period: chosen(patch.frequent_period, self.frequent_period),
            hourly_min: chosen(patch.hourly_min, self.hourly_min),
            daily_hour: chosen(patch.daily_hour, self.daily_hour),
            daily_min: chosen(patch.daily_min, self.daily_min),
            weekly_wday: chosen(patch.weekly_wday, self.weekly_wday),
            weekly_hour: chosen(patch.weekly_hour, self.weekly_hour),
            weekly_min: chosen(patch.weekly_min, self.weekly_min),
            monthly_mday: chosen(patch.monthly_mday, self.monthly_mday),
            monthly_hour: chosen(patch.monthly_hour, self.monthly_hour),
            monthly_min: chosen(patch.monthly_min, self.monthly_min),
            yearly_mon: chosen(patch.yearly_mon, self.yearly_mon),
            yearly_mday: chosen(patch.yearly_mday, self.yearly_mday),
            yearly_hour: chosen(patch.yearly_hour, self.yearly_hour),
            yearly_min: chosen(patch.yearly_min, self.yearly_min),
            prune_defer: chosen(patch.prune_defer, self.prune_defer),
            pre_snapshot_script: chosen_script(&patch.pre_snapshot_script, &self.pre_snapshot_script),
            post_snapshot_script: chosen_script(&patch.post_snapshot_script, &self.post_snapshot_script),
            pre_pruning_script: chosen_script(&patch.pre_pruning_script, &self.pre_pruning_script),
            pruning_script: chosen_script(&patch.pruning_script, &self.pruning_script),
            script_timeout: chosen(patch.script_timeout, self.script_timeout),
            no_inconsistent_snapshot: chosen(patch.no_inconsistent_snapshot, self.no_inconsistent_snapshot),
            force_post_snapshot_script: chosen(patch.force_post_snapshot_script, self.force_post_snapshot_script),
        };
    }

    pub fn retention(&self, kind: SnapshotKind) -> (res: u32)
        ensures
            res == kept(self@, kind),
    {
        match kind {
            SnapshotKind::Frequently => self.frequently,
            SnapshotKind::Hourly => self.hourly,
            SnapshotKind::Daily => self.daily,
            SnapshotKind::Weekly => self.weekly,
            SnapshotKind::Monthly => self.monthly,
            SnapshotKind::Yearly => self.yearly,
        }
    }

    pub fn has_snapshot_hooks(&self) -> (res: bool)
        ensures
            res == (self@.pre_snapshot_script.len() > 0 || self@.post_snapshot_script.len() > 0),
    {
        self.pre_snapshot_script.len() > 0 || self.post_snapshot_script.len() > 0
    }

    pub fn has_prune_hooks(&self) -> (res: bool)
        ensures
            res == (self@.pre_pruning_script.len() > 0 || self@.pruning_script.len() > 0),
    {
        self.pre_pruning_script.len() > 0 || self.pruning_script.len() > 0
    }

    fn validate_schedule(&self, context: &str) -> (res: Result<(), Error>)
        ensures
            reports(res, schedule_fault(self@, context@)),
    {
        if !(1 <= self.frequent_period && self.frequent_period <= 60 && 60 % self.frequent_period == 0) {
            return failure(context, ": frequent_period must be a divisor of 60 between 1 and 60");
        }
        if !(self.hourly_min <= 59) {
            return failure(context, ": hourly_min must be 0..59");
        }
        if !(self.daily_hour <= 23) {
            return failure(context, ": daily_hour must be 0..23");
        }
        if !(self.daily_min <= 59) {
            return failure(context, ": daily_min must be 0..59");
        }
        if !(1 <= self.weekly_wday && self.weekly_wday <= 7) {
            return failure(context, ": weekly_wday must be 1 (Monday) through 7 (Sunday)");
        }
        if !(self.weekly_hour <= 23) {
            return failure(context, ": weekly_hour must be 0..23");
        }
        if !(self.weekly_min <= 59) {
            return failure(context, ": weekly_min must be 0..59");
        }
        if !(1 <= self.monthly_mday && self.monthly_mday <= 28) {
            return failure(context, ": monthly_mday must be 1..28 so it exists in every month");
        }
        if !(self.monthly_hour <= 23) {
            return failure(context, ": monthly_hour must be 0..23");
        }
        if !(self.monthly_min <= 59) {
            return failure(context, ": monthly_min must be 0..59");
        }
        if !(1 <= self.yearly_mon && self.yearly_mon <= 12) {
            return failure(context, ": yearly_mon must be 1..12");
        }
        if !(1 <= self.yearly_mday && self.yearly_mday <= 31) {
            return failure(context, ": yearly_mday must be 1..31");
        }
        if !(self.yearly_hour <= 23) {
            return failure(context, ": yearly_hour must be 0..23");
        }
        if !(self.yearly_min <= 59) {
            return failure(context, ": yearly_min must be 0..59");
        }
        if !(self.prune_defer <= 100) {
            return failure(context, ": prune_defer must be 0..100");
        }
        Ok(())
    }

    /// Checks the ranges of the schedule and the hook commands.
    pub fn validate(&self, context: &str) -> (res: Result<(), Error>)
        ensures
            reports(res, policy_fault(self@, context@)),
    {
        self.validate_schedule(context)?;
        validate_hook(&self.pre_snapshot_script, context, "pre_snapshot_script")?;
        validate_hook(&self.post_snapshot_script, context, "post_snapshot_script")?;
        validate_hook(&self.pre_pruning_script, context, "pre_pruning_script")?;
        validate_hook(&self.pruning_script, context, "pruning_script")?;
        Ok(())
    }
}

/// A later patch wins: patching twice sets each value that either patch gives,
/// the second where both do.
pub proof fn law_later_patch_wins(policy: PolicyModel, first: PatchModel, second: PatchModel)
    ensures
        patched(policy, empty_patch()) == policy,
        second.hourly is Some ==> patched(patched(policy, first), second).hourly
            == second.hourly->0,
        patched(patched(policy, first), second) == patched(policy, overlaid(first, second)),
{
}

/// The values of `second`, and those of `first` where `second` gives none.
pub open spec fn overlaid(first: PatchModel, second: PatchModel) -> PatchModel {
    PatchModel {
        autosnap: if second.autosnap is Some {
            second.autosnap
        } else {
            first.autosnap
        },
        autoprune: if second.autoprune is Some {
            second.autoprune
        } else {
            first.autoprune
        },
        frequently: if second.frequently is Some {
            second.frequently
        } else {
            first.frequently
        },
        hourly: if second.hourly is Some {
            second.hourly
        } else {
            first.hourly
        },
        daily: if second.daily is Some {
            second.daily
        } else {
            first.daily
        },
        weekly: if second.weekly is Some {
            second.weekly
        } else {
            first.weekly
        },
        monthly: if second.monthly is Some {
            second.monthly
        } else {
            first.monthly
        },
        yearly: if second.yearly is Some {
            second.yearly
        } else {
            first.yearly
        },
        frequent_period: if second.frequent_period is Some {
            second.frequent_period
        } else {
            first.frequent_period
        },
        hourly_min: if second.hourly_min is Some {
            second.hourly_min
        } else {
            first.hourly_min
        },
        daily_hour: if second.daily_hour is Some {
            second.daily_hour
        } else {
            first.daily_hour
        },
        daily_min: if second.daily_min is Some {
            second.daily_min
        } else {
            first.daily_min
        },
        weekly_wday: if second.weekly_wday is Some {
            second.weekly_wday
        } else {
            first.weekly_wday
        },
        weekly_hour: if second.weekly_hour is Some {
            second.weekly_hour
        } else {
            first.weekly_hour
        },
        weekly_min: if second.weekly_min is Some {
            second.weekly_min
        } else {
            first.weekly_min
        },
        monthly_mday: if second.monthly_mday is Some {
            second.monthly_mday
        } else {
            first.monthly_mday
        },
        monthly_hour: if second.monthly_hour is Some {
            second.monthly_hour
        } else {
            first.monthly_hour
        },
        monthly_min: if second.monthly_min is Some {
            second.monthly_min
        } else {
            first.monthly_min
        },
        yearly_mon: if second.yearly_mon is Some {
            second.yearly_mon
        } else {
            first.yearly_mon
        },
        yearly_mday: if second.yearly_mday is Some {
            second.yearly_mday
        } else {
            first.yearly_mday
        },
        yearly_hour: if second.yearly_hour is Some {
            second.yearly_hour
        } else {
            first.yearly_hour
        },
        yearly_min: if second.yearly_min is Some {
            second.yearly_min
        } else {
            first.yearly_min
        },
        prune_defer: if second.prune_defer is Some {
            second.prune_defer
        } else {
            first.prune_defer
        },
        pre_snapshot_script: if second.pre_snapshot_script is Some {
            second.pre_snapshot_script
        } else {
            first.pre_snapshot_script
        },
        post_snapshot_script: if second.post_snapshot_script is Some {
            second.post_snapshot_script
        } else {
            first.post_snapshot_script
        },
        pre_pruning_script: if second.pre_pruning_script is Some {
            second.pre_pruning_script
        } else {
            first.pre_pruning_script
        },
        pruning_script: if second.pruning_script is Some {
            second.pruning_script
        } else {
            first.pruning_script
        },
        script_timeout: if second.script_timeout is Some {
            second.script_timeout
        } else {
            first.script_timeout
        },
        no_inconsistent_snapshot: if second.no_inconsistent_snapshot is Some {
            second.no_inconsistent_snapshot
        } else {
            first.no_inconsistent_snapshot
        },
        force_post_snapshot_script: if second.force_post_snapshot_script is Some {
            second.force_post_snapshot_script
        } else {
            first.force_post_snapshot_script
        },
    }
}

} // verus!
