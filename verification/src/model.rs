//! The classes of snapshots and how a dataset is snapshotted.
use vstd::prelude::*;

verus! {

/// A class of snapshots, each with its own schedule and retention.
#[derive(Debug, Clone, Copy, PartialEq, Eq, PartialOrd, Ord, Hash, Structural)]
pub enum SnapshotKind {
    Frequently,
    Hourly,
    Daily,
    Weekly,
    Monthly,
    Yearly,
}

/// All classes, from the longest period to the shortest.
pub open spec fn all_kinds() -> Seq<SnapshotKind> {
    seq![
        SnapshotKind::Yearly,
        SnapshotKind::Monthly,
        SnapshotKind::Weekly,
        SnapshotKind::Daily,
        SnapshotKind::Hourly,
        SnapshotKind::Frequently,
    ]
}

impl SnapshotKind {
    pub const ALL: [SnapshotKind; 6] = [
        SnapshotKind::Yearly,
        SnapshotKind::Monthly,
        SnapshotKind::Weekly,
        SnapshotKind::Daily,
        SnapshotKind::Hourly,
        SnapshotKind::Frequently,
    ];

    /// The suffix that names the class.
    pub open spec fn text(self) -> Seq<char> {
        match self {
            SnapshotKind::Frequently => "frequently"@,
            SnapshotKind::Hourly => "hourly"@,
            SnapshotKind::Daily => "daily"@,
            SnapshotKind::Weekly => "weekly"@,
            SnapshotKind::Monthly => "monthly"@,
            SnapshotKind::Yearly => "yearly"@,
        }
    }

    pub fn as_str(self) -> (res: &'static str)
        ensures
            res@ == self.text(),
    {
        match self {
            SnapshotKind::Frequently => "frequently",
            SnapshotKind::Hourly => "hourly",
            SnapshotKind::Daily => "daily",
            SnapshotKind::Weekly => "weekly",
            SnapshotKind::Monthly => "monthly",
            SnapshotKind::Yearly => "yearly",
        }
    }

    /// The length of one period in seconds: a month counts 31 days and a year
    /// 365.25 days.
    pub open spec fn period(self, frequent_period_minutes: int) -> int {
        match self {
            SnapshotKind::Frequently => frequent_period_minutes * 60,
            SnapshotKind::Hourly => 3_600,
            SnapshotKind::Daily => 86_400,
            SnapshotKind::Weekly => 604_800,
            SnapshotKind::Monthly => 2_678_400,
            SnapshotKind::Yearly => 31_557_600,
        }
    }

    pub fn approximate_period_seconds(self, frequent_period_minutes: u32) -> (res: i64)
        ensures
            res == self.period(frequent_period_minutes as int),
    {
        match self {
            SnapshotKind::Frequently => frequent_period_minutes as i64 * 60,
            SnapshotKind::Hourly => 60 * 60,
            SnapshotKind::Daily => 24 * 60 * 60,
            SnapshotKind::Weekly => 7 * 24 * 60 * 60,
            SnapshotKind::Monthly => 31 * 24 * 60 * 60,
            SnapshotKind::Yearly => 31_557_600,
        }
    }
}

/// How snapshots of a dataset come about.
#[derive(Debug, PartialEq, Eq)]
pub enum SnapshotStrategy {
    Individual,
    RecursiveRoot,
    CoveredByRecursive(String),
}

pub enum StrategyModel {
    Individual,
    RecursiveRoot,
    CoveredByRecursive(Seq<char>),
}

impl View for SnapshotStrategy {
    type V = StrategyModel;

    open spec fn view(&self) -> StrategyModel {
        match self {
            SnapshotStrategy::Individual => StrategyModel::Individual,
            SnapshotStrategy::RecursiveRoot => StrategyModel::RecursiveRoot,
            SnapshotStrategy::CoveredByRecursive(root) => StrategyModel::CoveredByRecursive(root@),
        }
    }
}

impl Clone for SnapshotStrategy {
    fn clone(&self) -> (res: Self)
        ensures
            res@ == self@,
    {
        match self {
            SnapshotStrategy::Individual => SnapshotStrategy::Individual,
            SnapshotStrategy::RecursiveRoot => SnapshotStrategy::RecursiveRoot,
            SnapshotStrategy::CoveredByRecursive(root) => SnapshotStrategy::CoveredByRecursive(
                root.clone(),
            ),
        }
    }
}

} // verus!
