//! When a class of snapshots was last due in a time zone.
use chrono::{DateTime, Local, LocalResult, TimeZone};
use vstd::prelude::*;

use crate::calendar::{civil_stamp, date_of_day, day_number, day_of, has_midnight, in_calendar, is_date_of, midnight, month_of, second_of_day, stamp_text, weekday_of, year_and_month, year_of, CIVIL_MAX, CIVIL_MIN};
use crate::error::{error, gives, plain, Error};
use crate::model::SnapshotKind;
use crate::policy::{Policy, PolicyModel};
use crate::recognition::is_read_back;
use crate::text::{padded, zero_padded};

verus! {

/// The instants, in Unix seconds, that planning works with. Every civil time
/// that a schedule of such an instant leads to is in the calendar.
pub const INSTANT_MIN: i64 = -8_333_000_000_000;

pub const INSTANT_MAX: i64 = 8_209_000_000_000;

pub open spec fn plannable(instant: int) -> bool {
    INSTANT_MIN <= instant <= INSTANT_MAX
}

/// A class of snapshots has a schedule around an instant: the period of the
/// frequent ones is not zero, and four of them lead to no time before the
/// calendar.
pub open spec fn schedulable(kind: SnapshotKind, policy: PolicyModel, now: int) -> bool {
    &&& plannable(now)
    &&& kind == SnapshotKind::Frequently ==> policy.frequent_period > 0 && plannable(
        now - 240 * policy.frequent_period,
    )
}

/// The instants at which a wall clock shows a civil time.
#[derive(Debug, Clone, Copy, PartialEq, Eq, Structural)]
pub enum LocalTimes {
    /// The clock skips this time.
    Missing,
    Single(i64),
    /// The clock shows this time twice: the earlier and the later instant.
    Repeated(i64, i64),
}

/// A time zone as a pair of functions: the civil time of an instant, and the
/// instants of a civil time.
pub struct ZoneModel {
    pub civil: spec_fn(int) -> int,
    pub instants: spec_fn(int) -> LocalTimes,
}

pub open spec fn near(times: LocalTimes, civil: int) -> bool {
    match times {
        LocalTimes::Missing => true,
        LocalTimes::Single(t) => civil - 86_400 < t < civil + 86_400,
        LocalTimes::Repeated(a, b) => civil - 86_400 < a < civil + 86_400 && civil - 86_400 < b
            < civil + 86_400,
    }
}

impl ZoneModel {
    /// Whether a wall clock is always less than a day off the instant: its
    /// civil times, and the instants at which it shows one.
    pub open spec fn within_a_day(self) -> bool {
        &&& forall|instant: int| #[trigger]
            in_calendar(instant) ==> instant - 86_400 < (self.civil)(instant) < instant + 86_400
        &&& forall|civil: int| #[trigger]
            in_calendar(civil) ==> near((self.instants)(civil), civil)
    }
}

/// The host's civil time of an instant: `chrono`'s `Local` as the time zone of
/// `DateTime::with_timezone`, then `naive_local`. The answer rests on the time
/// zone of the machine; any answer is less than a day off.
#[verifier::external_body]
fn host_civil(instant: i64) -> (res: i64)
    requires
        in_calendar(instant as int),
    ensures
        res > instant - 86_400,
        res < instant + 86_400,
{
    DateTime::from_timestamp(instant, 0).unwrap().with_timezone(&Local).naive_local().and_utc().timestamp()
}

/// The instants of a civil time on this host: `chrono`'s
/// `Local.from_local_datetime`. The answer rests on the time zone of the
/// machine; each instant in any answer is less than a day off.
#[verifier::external_body]
fn host_instants(civil: i64) -> (res: LocalTimes)
    requires
        in_calendar(civil as int),
    ensures
        near(res, civil as int),
{
    match Local.from_local_datetime(&DateTime::from_timestamp(civil, 0).unwrap().naive_utc()) {
        LocalResult::None => LocalTimes::Missing,
        LocalResult::Single(t) => LocalTimes::Single(t.timestamp()),
        LocalResult::Ambiguous(a, b) => LocalTimes::Repeated(a.timestamp(), b.timestamp()),
    }
}

enum ZoneRule {
    Utc,
    Fixed(i32),
    Host,
}

/// A time zone for one planning run. The answers of the host's zone are
/// recorded, so that every question has one answer throughout the run.
pub struct Zone {
    rule: ZoneRule,
    civil_answers: Vec<(i64, i64)>,
    instant_answers: Vec<(i64, LocalTimes)>,
}

impl Zone {
    #[verifier::type_invariant]
    spec fn sensible(self) -> bool {
        &&& self.rule matches ZoneRule::Fixed(offset) ==> -86_400 < offset < 86_400
        &&& forall|i: int|
            0 <= i < self.civil_answers@.len() ==> (#[trigger] self.civil_answers@[i]).0 - 86_400
                < self.civil_answers@[i].1 < self.civil_answers@[i].0 + 86_400
        &&& forall|i: int|
            0 <= i < self.instant_answers@.len() ==> near(
                (#[trigger] self.instant_answers@[i]).1,
                self.instant_answers@[i].0 as int,
            )
        &&& self.recorded_once()
    }

    /// Each question was answered once.
    spec fn recorded_once(self) -> bool {
        &&& forall|i: int, j: int|
            0 <= i < self.civil_answers@.len() && 0 <= j < self.civil_answers@.len() && (
            #[trigger] self.civil_answers@[i]).0 == (#[trigger] self.civil_answers@[j]).0 ==> i == j
        &&& forall|i: int, j: int|
            0 <= i < self.instant_answers@.len() && 0 <= j < self.instant_answers@.len() && (
            #[trigger] self.instant_answers@[i]).0 == (#[trigger] self.instant_answers@[j]).0 ==> i
                == j
    }

    /// Whether some time zone gives all the answers of this one.
    pub open spec fn has_model(self) -> bool {
        exists|model: ZoneModel| #[trigger] self.agrees(model) && model.within_a_day()
    }

    /// Whether a model gives the answers of this zone: all of them for UTC and
    /// for a fixed offset, and those recorded so far for the host's zone.
    pub closed spec fn agrees(self, model: ZoneModel) -> bool {
        match self.rule {
            ZoneRule::Utc => model == utc_model(),
            ZoneRule::Fixed(offset) => model == fixed_model(offset as int),
            ZoneRule::Host => {
                &&& forall|i: int|
                    0 <= i < self.civil_answers@.len() ==> (model.civil)(
                        (#[trigger] self.civil_answers@[i]).0 as int,
                    ) == self.civil_answers@[i].1
                &&& forall|i: int|
                    0 <= i < self.instant_answers@.len() ==> (model.instants)(
                        (#[trigger] self.instant_answers@[i]).0 as int,
                    ) == self.instant_answers@[i].1
            },
        }
    }

    /// Whether this zone knows all that `earlier` knew.
    pub open spec fn refines(self, earlier: Zone) -> bool {
        forall|model: ZoneModel| #[trigger] self.agrees(model) ==> earlier.agrees(model)
    }

    pub fn utc() -> (res: Zone)
        ensures
            forall|model: ZoneModel| #[trigger] res.agrees(model) <==> model == utc_model(),
    {
        Zone { rule: ZoneRule::Utc, civil_answers: Vec::new(), instant_answers: Vec::new() }
    }

    /// The zone that is `offset` seconds ahead of UTC throughout.
    pub fn fixed(offset: i32) -> (res: Zone)
        requires
            -86_400 < offset < 86_400,
        ensures
            forall|model: ZoneModel| #[trigger]
                res.agrees(model) <==> model == fixed_model(offset as int),
    {
        Zone {
            rule: ZoneRule::Fixed(offset),
            civil_answers: Vec::new(),
            instant_answers: Vec::new(),
        }
    }

    /// The time zone of the host.
    pub fn host() -> (res: Zone)
        ensures
            forall|model: ZoneModel| #[trigger] res.agrees(model),
    {
        Zone { rule: ZoneRule::Host, civil_answers: Vec::new(), instant_answers: Vec::new() }
    }

    /// The civil time of an instant.
    pub fn civil(&mut self, instant: i64) -> (res: i64)
        requires
            in_calendar(instant as int),
        ensures
            final(self).refines(*old(self)),
            final(self).has_model(),
            forall|model: ZoneModel| #[trigger]
                final(self).agrees(model) ==> res == (model.civil)(instant as int),
            instant - 86_400 < res < instant + 86_400,
    {
        proof {
            use_type_invariant(&*self);
            lemma_zone_has_model(*self);
        }
        match self.rule {
            ZoneRule::Utc => instant,
            ZoneRule::Fixed(offset) => instant + offset as i64,
            ZoneRule::Host => {
                let mut i: usize = 0;
                while i < self.civil_answers.len()
                    invariant
                        i <= self.civil_answers@.len(),
                        *self == *old(self),
                        self.has_model(),
                        forall|j: int|
                            0 <= j < i ==> (#[trigger] self.civil_answers@[j]).0 != instant,
                        self.rule is Host,
                        self.sensible(),
                    decreases self.civil_answers.len() - i,
                {
                    if self.civil_answers[i].0 == instant {
                        return self.civil_answers[i].1;
                    }
                    i += 1;
                }
                let answer: i64 = host_civil(instant);
                let ghost earlier = *self;
                let mut taken = Zone::host();
                core::mem::swap(&mut taken, self);
                proof {
                    use_type_invariant(&taken);
                }
                let Zone { rule, civil_answers: mut log, instant_answers } = taken;
                let ghost before_push = log@;
                log.push((instant, answer));
                *self = Zone { rule, civil_answers: log, instant_answers };
                proof {
                    lemma_zone_has_model(*self);
                }
                assert forall|model: ZoneModel| #[trigger] self.agrees(model) implies earlier.agrees(
                    model,
                ) && answer == (model.civil)(instant as int) by {
                    assert(earlier.rule is Host && self.rule is Host);
                    assert(earlier.civil_answers@ == before_push);
                    assert(earlier.instant_answers@ == self.instant_answers@);
                    assert(self.civil_answers@[before_push.len() as int] == (instant, answer));
                    assert forall|j: int| 0 <= j < before_push.len() implies (model.civil)(
                        (#[trigger] before_push[j]).0 as int,
                    ) == before_push[j].1 by {
                        assert(self.civil_answers@[j] == before_push[j]);
                    }
                }
                answer
            },
        }
    }

    /// The instants of a civil time.
    pub fn instants(&mut self, civil: i64) -> (res: LocalTimes)
        requires
            in_calendar(civil as int),
        ensures
            final(self).refines(*old(self)),
            final(self).has_model(),
            forall|model: ZoneModel| #[trigger]
                final(self).agrees(model) ==> res == (model.instants)(civil as int),
            near(res, civil as int),
    {
        proof {
            use_type_invariant(&*self);
            lemma_zone_has_model(*self);
        }
        match self.rule {
            ZoneRule::Utc => LocalTimes::Single(civil),
            ZoneRule::Fixed(offset) => LocalTimes::Single(civil - offset as i64),
            ZoneRule::Host => {
                let mut i: usize = 0;
                while i < self.instant_answers.len()
                    invariant
                        i <= self.instant_answers@.len(),
                        *self == *old(self),
                        self.has_model(),
                        forall|j: int|
                            0 <= j < i ==> (#[trigger] self.instant_answers@[j]).0 != civil,
                        self.rule is Host,
                        self.sensible(),
                    decreases self.instant_answers.len() - i,
                {
                    if self.instant_answers[i].0 == civil {
                        return self.instant_answers[i].1;
                    }
                    i += 1;
                }
                let answer = host_instants(civil);
                let ghost earlier = *self;
                let mut taken = Zone::host();
                core::mem::swap(&mut taken, self);
                proof {
                    use_type_invariant(&taken);
                }
                let Zone { rule, civil_answers, instant_answers: mut log } = taken;
                let ghost before_push = log@;
                log.push((civil, answer));
                *self = Zone { rule, civil_answers, instant_answers: log };
                proof {
                    lemma_zone_has_model(*self);
                }
                assert forall|model: ZoneModel| #[trigger] self.agrees(model) implies earlier.agrees(
                    model,
                ) && answer == (model.instants)(civil as int) by {
                    assert(earlier.rule is Host && self.rule is Host);
                    assert(earlier.instant_answers@ == before_push);
                    assert(earlier.civil_answers@ == self.civil_answers@);
                    assert(self.instant_answers@[before_push.len() as int] == (civil, answer));
                    assert forall|j: int| 0 <= j < before_push.len() implies (model.instants)(
                        (#[trigger] before_push[j]).0 as int,
                    ) == before_push[j].1 by {
                        assert(self.instant_answers@[j] == before_push[j]);
                    }
                }
                answer
            },
        }
    }
}

/// UTC: the wall clock shows the instant.
pub open spec fn utc_model() -> ZoneModel {
    ZoneModel {
        civil: |instant: int| instant,
        instants: |civil: int| LocalTimes::Single(civil as i64),
    }
}

/// A wall clock that is always `offset` seconds ahead of UTC.
pub open spec fn fixed_model(offset: int) -> ZoneModel {
    ZoneModel {
        civil: |instant: int| instant + offset,
        instants: |civil: int| LocalTimes::Single((civil - offset) as i64),
    }
}

/// A sensible zone has a model that agrees with it and is never a day off.
proof fn lemma_zone_has_model(zone: Zone)
    requires
        zone.sensible(),
    ensures
        zone.has_model(),
{
    match zone.rule {
        ZoneRule::Utc => {
            assert(zone.agrees(utc_model()));
        },
        ZoneRule::Fixed(offset) => {
            assert(zone.agrees(fixed_model(offset as int)));
        },
        ZoneRule::Host => {
            let model = ZoneModel {
                civil: |instant: int|
                    if exists|i: int|
                        0 <= i < zone.civil_answers@.len() && (#[trigger] zone.civil_answers@[i]).0
                            == instant {
                        zone.civil_answers@[choose|i: int|
                            0 <= i < zone.civil_answers@.len() && (
                            #[trigger] zone.civil_answers@[i]).0 == instant].1 as int
                    } else {
                        instant
                    },
                instants: |civil: int|
                    if exists|i: int|
                        0 <= i < zone.instant_answers@.len() && (
                        #[trigger] zone.instant_answers@[i]).0 == civil {
                        zone.instant_answers@[choose|i: int|
                            0 <= i < zone.instant_answers@.len() && (
                            #[trigger] zone.instant_answers@[i]).0 == civil].1
                    } else {
                        LocalTimes::Single(civil as i64)
                    },
            };
            assert(zone.agrees(model));
            assert(model.within_a_day());
        },
    }
}

// ---------------------------------------------------------------------------
// Schedule points
// ---------------------------------------------------------------------------

/// A minute of a day.
pub open spec fn at_time(day: int, hour: int, minute: int) -> Result<int, Seq<char>> {
    if hour < 24 && minute < 60 {
        Ok(day * 86_400 + hour * 3_600 + minute * 60)
    } else {
        Err("invalid schedule time"@)
    }
}

/// A year in a message: zeros in front up to four characters.
pub open spec fn year_in_message(year: int) -> Seq<char> {
    if year >= 0 {
        padded(year as nat, 4)
    } else {
        "-"@ + padded((-year) as nat, 3)
    }
}

/// The yearly day of a year: the 29th of February falls on the 28th in a year
/// that has none.
pub open spec fn yearly_day(year: int, month: int, day: int) -> Result<int, Seq<char>> {
    if has_midnight(year, month, day) {
        Ok(day_number(year, month, day))
    } else if month == 2 && day == 29 {
        if has_midnight(year, 2, 28) {
            Ok(day_number(year, 2, 28))
        } else {
            Err("invalid yearly schedule date"@)
        }
    } else {
        Err(
            "invalid yearly schedule date "@ + year_in_message(year) + "-"@ + padded(
                month as nat,
                2,
            ) + "-"@ + padded(day as nat, 2),
        )
    }
}

/// The schedule point in the period that holds a civil time; it may lie after
/// that time.
pub open spec fn current_point(kind: SnapshotKind, policy: PolicyModel, civil: int) -> Result<
    int,
    Seq<char>,
> {
    let day = day_of(civil);
    let hour = second_of_day(civil) / 3_600;
    let minute = second_of_day(civil) % 3_600 / 60;
    match kind {
        SnapshotKind::Frequently => at_time(
            day,
            hour,
            minute / (policy.frequent_period as int) * policy.frequent_period,
        ),
        SnapshotKind::Hourly => at_time(day, hour, policy.hourly_min as int),
        SnapshotKind::Daily => at_time(day, policy.daily_hour as int, policy.daily_min as int),
        SnapshotKind::Weekly => if 1 <= policy.weekly_wday <= 7 {
            at_time(
                day - (weekday_of(civil) - (policy.weekly_wday - 1)) % 7,
                policy.weekly_hour as int,
                policy.weekly_min as int,
            )
        } else {
            Err("weekly_wday must be 1..7"@)
        },
        SnapshotKind::Monthly => if has_midnight(
            year_of(civil),
            month_of(civil),
            policy.monthly_mday as int,
        ) {
            at_time(
                day_number(year_of(civil), month_of(civil), policy.monthly_mday as int),
                policy.monthly_hour as int,
                policy.monthly_min as int,
            )
        } else {
            Err("invalid monthly schedule date"@)
        },
        SnapshotKind::Yearly => match yearly_day(
            year_of(civil),
            policy.yearly_mon as int,
            policy.yearly_mday as int,
        ) {
            Ok(date) => at_time(date, policy.yearly_hour as int, policy.yearly_min as int),
            Err(message) => Err(message),
        },
    }
}

/// The year and month before a month.
pub open spec fn month_before(year: int, month: int) -> (int, int) {
    if month == 1 {
        (year - 1, 12)
    } else {
        (year, month - 1)
    }
}

/// The schedule point one period before another.
pub open spec fn previous_point(kind: SnapshotKind, policy: PolicyModel, point: int) -> Result<
    int,
    Seq<char>,
> {
    match kind {
        SnapshotKind::Frequently => Ok(point - policy.frequent_period * 60),
        SnapshotKind::Hourly => Ok(point - 3_600),
        SnapshotKind::Daily => Ok(point - 86_400),
        SnapshotKind::Weekly => Ok(point - 604_800),
        SnapshotKind::Monthly => {
            let (year, month) = month_before(year_of(point), month_of(point));
            if has_midnight(year, month, policy.monthly_mday as int) {
                at_time(
                    day_number(year, month, policy.monthly_mday as int),
                    policy.monthly_hour as int,
                    policy.monthly_min as int,
                )
            } else {
                Err("invalid previous monthly schedule date"@)
            }
        },
        SnapshotKind::Yearly => match yearly_day(
            year_of(point) - 1,
            policy.yearly_mon as int,
            policy.yearly_mday as int,
        ) {
            Ok(date) => at_time(date, policy.yearly_hour as int, policy.yearly_min as int),
            Err(message) => Err(message),
        },
    }
}

/// The latest of the instants that is not after `now`.
pub open spec fn latest(times: LocalTimes, now: int) -> Option<int> {
    match times {
        LocalTimes::Missing => None,
        LocalTimes::Single(t) => if t <= now {
            Some(t as int)
        } else {
            None
        },
        LocalTimes::Repeated(a, b) => if a <= now && b <= now {
            Some(if a <= b {
                b as int
            } else {
                a as int
            })
        } else if a <= now {
            Some(a as int)
        } else if b <= now {
            Some(b as int)
        } else {
            None
        },
    }
}

/// The least number of minutes, from `from` up to 180, after which a clock
/// shows the time `point + direction * minutes`; 181 where there is none.
pub open spec fn nearest(zone: ZoneModel, point: int, direction: int, from: int) -> int
    decreases 181 - from,
{
    if from > 180 {
        181
    } else if (zone.instants)(point + direction * from * 60) != LocalTimes::Missing {
        from
    } else {
        nearest(zone, point, direction, from + 1)
    }
}

/// A skipped time moved forward by the size of the gap it falls into.
pub open spec fn moved_forward(zone: ZoneModel, point: int) -> Result<int, Seq<char>> {
    let back = nearest(zone, point, -1, 1);
    let ahead = nearest(zone, point, 1, 1);
    if back > 180 {
        Err("could not find a valid local time before a timezone transition"@)
    } else if ahead > 180 {
        Err("could not find a valid local time after a timezone transition"@)
    } else {
        Ok(point + (back + ahead - 1) * 60)
    }
}

/// The instant of a schedule point that is not after `now`.
pub open spec fn boundary(zone: ZoneModel, point: int, now: int) -> Result<Option<int>, Seq<char>> {
    if (zone.instants)(point) == LocalTimes::Missing {
        match moved_forward(zone, point) {
            Ok(moved) => Ok(latest((zone.instants)(moved), now)),
            Err(message) => Err(message),
        }
    } else {
        Ok(latest((zone.instants)(point), now))
    }
}

/// The first of `tries` schedule points, going back from `point`, whose
/// instant is not after `now`.
pub open spec fn boundary_from(
    zone: ZoneModel,
    kind: SnapshotKind,
    policy: PolicyModel,
    point: int,
    now: int,
    tries: int,
) -> Result<int, Seq<char>>
    decreases tries,
{
    if tries <= 0 {
        Err(
            "could not resolve a recent preferred "@ + kind.text()
                + " boundary in the configured timezone"@,
        )
    } else {
        match boundary(zone, point, now) {
            Err(message) => Err(message),
            Ok(Some(instant)) => Ok(instant),
            Ok(None) => match previous_point(kind, policy, point) {
                Err(message) => Err(message),
                Ok(earlier) => boundary_from(zone, kind, policy, earlier, now, tries - 1),
            },
        }
    }
}

/// The most recent instant at which a class of snapshots was due.
pub open spec fn last_due(zone: ZoneModel, kind: SnapshotKind, policy: PolicyModel, now: int) -> Result<
    int,
    Seq<char>,
> {
    match current_point(kind, policy, (zone.civil)(now)) {
        Err(message) => Err(message),
        Ok(point) => boundary_from(zone, kind, policy, point, now, 4),
    }
}

/// Whether a snapshot is due: there is none yet, or the newest one is older
/// than the most recent due instant.
pub open spec fn is_due(
    zone: ZoneModel,
    kind: SnapshotKind,
    policy: PolicyModel,
    newest: Option<i64>,
    now: int,
) -> Result<bool, Seq<char>> {
    match last_due(zone, kind, policy, now) {
        Err(message) => Err(message),
        Ok(instant) => Ok(match newest {
            None => true,
            Some(created) => created < instant,
        }),
    }
}

/// The time part of a snapshot name: the civil time, marked when the clock
/// shows it for the second time.
pub open spec fn timestamp_text(zone: ZoneModel, now: int) -> Seq<char> {
    let civil = (zone.civil)(now);
    match (zone.instants)(civil) {
        LocalTimes::Repeated(_, second) if second == now => civil_stamp(civil) + "dst"@,
        _ => civil_stamp(civil),
    }
}

fn naive_datetime(midnight_of_day: i64, hour: u32, minute: u32) -> (res: Result<i64, Error>)
    requires
        -9_000_000_000_000 < midnight_of_day < 9_000_000_000_000,
        midnight_of_day % 86_400 == 0,
    ensures
        gives(res, at_time(midnight_of_day as int / 86_400, hour as int, minute as int)),
{
    if hour < 24 && minute < 60 {
        Ok(midnight_of_day + hour as i64 * 3_600 + minute as i64 * 60)
    } else {
        Err(error("invalid schedule time"))
    }
}

fn valid_yearly_date(year: i32, month: u32, day: u32) -> (res: Result<i64, Error>)
    requires
        -262_143 <= year <= 262_142,
    ensures
        match (res, yearly_day(year as int, month as int, day as int)) {
            (Ok(value), Ok(number)) => value == number * 86_400 && year_bounds(
                year as int,
                number,
            ),
            (Err(e), Err(message)) => e@ == plain(message),
            _ => false,
        },
{
    if let Some(date) = midnight(year, month, day) {
        proof {
            crate::calendar::lemma_date_in_year(year as int, month as int, day as int);
        }
        return Ok(date);
    }
    if month == 2 && day == 29 {
        return match midnight(year, 2, 28) {
            Some(date) => {
                proof {
                    crate::calendar::lemma_date_in_year(year as int, 2, 28);
                }
                Ok(date)
            },
            None => Err(error("invalid yearly schedule date")),
        };
    }
    let mut message = "invalid yearly schedule date ".to_owned();
    if year >= 0 {
        message.append(zero_padded(year as u64, 4).as_str());
    } else {
        let mut negative = "-".to_owned();
        negative.append(zero_padded((-(year as i64)) as u64, 3).as_str());
        message.append(negative.as_str());
    }
    message.append("-");
    message.append(zero_padded(month as u64, 2).as_str());
    message.append("-");
    message.append(zero_padded(day as u64, 2).as_str());
    Err(Error::new(message))
}

/// A day number lies in a year.
spec fn year_bounds(year: int, day: int) -> bool {
    crate::calendar::year_start(year) <= day < crate::calendar::year_start(year + 1)
}

fn previous_month(year: i32, month: u32) -> (res: (i32, u32))
    requires
        1 <= month <= 12,
        year > i32::MIN,
    ensures
        (res.0 as int, res.1 as int) == month_before(year as int, month as int),
{
    if month == 1 {
        (year - 1, 12)
    } else {
        (year, month - 1)
    }
}

/// How far apart two schedule points of a class can lie.
spec fn stride(kind: SnapshotKind, policy: PolicyModel) -> int {
    match kind {
        SnapshotKind::Frequently => policy.frequent_period * 60,
        _ => 64_000_000,
    }
}

/// A point leaves room for a number of further steps back.
spec fn has_room(point: int, stride: int, steps: int) -> bool {
    INSTANT_MIN - 400_000_000 + allowance(stride, steps) <= point <= INSTANT_MAX + 100_000_000
}

spec fn allowance(stride: int, steps: int) -> int
    decreases steps,
{
    if steps <= 0 {
        0
    } else {
        stride + allowance(stride, steps - 1)
    }
}

proof fn lemma_four_steps(stride: int)
    ensures
        allowance(stride, 4) == 4 * stride,
{
    reveal_with_fuel(allowance, 5);
}

proof fn lemma_allowance(stride: int, steps: int)
    requires
        stride >= 0,
    ensures
        allowance(stride, steps) >= 0,
    decreases steps,
{
    if steps > 0 {
        lemma_allowance(stride, steps - 1);
    }
}

proof fn lemma_year_is_short(year: int, point: int, target_year: int, target_day: int)
    requires
        year == year_of(point),
        is_date_of(date_of_day(day_of(point)), day_of(point)),
        year - 1 <= target_year <= year,
        year_bounds(target_year, target_day),
    ensures
        day_of(point) - 733 < target_day < day_of(point) + 367,
        target_year < year ==> target_day < day_of(point),
{
    let date = date_of_day(day_of(point));
    crate::calendar::lemma_date_in_year(date.0, date.1, date.2);
    crate::calendar::lemma_year_length(year);
    crate::calendar::lemma_year_length(year - 1);
    crate::calendar::lemma_days_before(year);
    crate::calendar::lemma_days_before(year - 1);
}

/// The second of the day of a civil time, and the midnight that began it.
fn split_day(civil: i64) -> (res: (i64, i64))
    requires
        in_calendar(civil as int),
    ensures
        res.0 == day_of(civil as int) * 86_400,
        res.1 == second_of_day(civil as int),
        0 <= res.1 < 86_400,
        res.0 + res.1 == civil,
{
    let shifted: u64 = (civil + 8_640_000_000_000) as u64;
    let second: i64 = (shifted % 86_400) as i64;
    (civil - second, second)
}

fn weekday(civil: i64) -> (res: i64)
    requires
        in_calendar(civil as int),
    ensures
        res == weekday_of(civil as int),
        0 <= res < 7,
{
    let shifted: u64 = (civil + 8_640_000_000_000) as u64;
    let day: u64 = shifted / 86_400;
    assert(day == day_of(civil as int) + 100_000_000);
    ((day + 1) % 7) as i64
}

/// The greatest multiple of a period that is not above a minute.
fn rounded_down(minute: u32, period: u32) -> (res: u32)
    requires
        period > 0,
    ensures
        res == minute as int / period as int * period as int,
        res <= minute,
{
    let ghost (m, p): (int, int) = (minute as int, period as int);
    assert(0 <= m / p * p <= m) by (nonlinear_arith)
        requires
            p > 0,
            m >= 0,
    ;
    let count: u32 = minute / period;
    assert(count == m / p);
    count * period
}

/// The schedule point in the period that holds a civil time.
#[verifier::rlimit(60)]
#[verifier::spinoff_prover]
fn point_of_period(kind: SnapshotKind, policy: &Policy, civil: i64, Ghost(now): Ghost<int>) -> (res:
    Result<i64, Error>)
    requires
        schedulable(kind, policy@, now),
        now - 86_400 < civil < now + 86_400,
    ensures
        gives(res, current_point(kind, policy@, civil as int)),
        res matches Ok(point) ==> has_room(point as int, stride(kind, policy@), 4),
{
    proof {
        lemma_four_steps(stride(kind, policy@));
    }
    let (midnight_of_day, second) = split_day(civil);
    let hour: u32 = (second / 3_600) as u32;
    let minute: u32 = (second % 3_600 / 60) as u32;
    match kind {
        SnapshotKind::Frequently => {
            let period: u32 = policy.frequent_period;
            let rounded: u32 = rounded_down(minute, period);
            naive_datetime(midnight_of_day, hour, rounded)
        },
        SnapshotKind::Hourly => naive_datetime(midnight_of_day, hour, policy.hourly_min),
        SnapshotKind::Daily => naive_datetime(midnight_of_day, policy.daily_hour, policy.daily_min),
        SnapshotKind::Weekly => {
            if !(1 <= policy.weekly_wday && policy.weekly_wday <= 7) {
                return Err(error("weekly_wday must be 1..7"));
            }
            let current: i64 = weekday(civil);
            let target: i64 = policy.weekly_wday as i64 - 1;
            let days_back: i64 = (current + 7 - target) % 7;
            assert(days_back == (current - target) % 7);
            let date: i64 = midnight_of_day - days_back * 86_400;
            naive_datetime(date, policy.weekly_hour, policy.weekly_min)
        },
        SnapshotKind::Monthly => {
            let (year, month) = year_and_month(civil);
            match midnight(year, month, policy.monthly_mday) {
                Some(date) => {
                    proof {
                        crate::calendar::lemma_date_in_year(
                            year as int,
                            month as int,
                            policy.monthly_mday as int,
                        );
                        lemma_year_is_short(
                            year as int,
                            civil as int,
                            year as int,
                            date as int / 86_400,
                        );
                    }
                    naive_datetime(date, policy.monthly_hour, policy.monthly_min)
                },
                None => Err(error("invalid monthly schedule date")),
            }
        },
        SnapshotKind::Yearly => {
            let (year, _) = year_and_month(civil);
            match valid_yearly_date(year, policy.yearly_mon, policy.yearly_mday) {
                Ok(date) => {
                    proof {
                        lemma_year_is_short(
                            year as int,
                            civil as int,
                            year as int,
                            date as int / 86_400,
                        );
                    }
                    naive_datetime(date, policy.yearly_hour, policy.yearly_min)
                },
                Err(e) => Err(e),
            }
        },
    }
}

/// The schedule point one period earlier.
fn previous_preferred(
    kind: SnapshotKind,
    candidate: i64,
    policy: &Policy,
    Ghost(steps): Ghost<int>,
) -> (res: Result<i64, Error>)
    requires
        steps > 0,
        has_room(candidate as int, stride(kind, policy@), steps),
        allowance(stride(kind, policy@), steps - 1) >= 0,
    ensures
        gives(res, previous_point(kind, policy@, candidate as int)),
        res matches Ok(point) ==> has_room(point as int, stride(kind, policy@), steps - 1),
{
    match kind {
        SnapshotKind::Frequently => Ok(candidate - policy.frequent_period as i64 * 60),
        SnapshotKind::Hourly => Ok(candidate - 3_600),
        SnapshotKind::Daily => Ok(candidate - 86_400),
        SnapshotKind::Weekly => Ok(candidate - 604_800),
        SnapshotKind::Monthly => {
            let (this_year, this_month) = year_and_month(candidate);
            let (year, month) = previous_month(this_year, this_month);
            match midnight(year, month, policy.monthly_mday) {
                Some(date) => {
                    proof {
                        crate::calendar::lemma_date_in_year(
                            year as int,
                            month as int,
                            policy.monthly_mday as int,
                        );
                        lemma_year_is_short(
                            this_year as int,
                            candidate as int,
                            year as int,
                            date as int / 86_400,
                        );
                        let here = date_of_day(day_of(candidate as int));
                        crate::calendar::lemma_date_order(
                            (year as int, month as int, policy.monthly_mday as int),
                            here,
                        );
                    }
                    naive_datetime(date, policy.monthly_hour, policy.monthly_min)
                },
                None => Err(error("invalid previous monthly schedule date")),
            }
        },
        SnapshotKind::Yearly => {
            let (year, _) = year_and_month(candidate);
            match valid_yearly_date(year - 1, policy.yearly_mon, policy.yearly_mday) {
                Ok(date) => {
                    proof {
                        lemma_year_is_short(
                            year as int,
                            candidate as int,
                            year - 1,
                            date as int / 86_400,
                        );
                    }
                    naive_datetime(date, policy.yearly_hour, policy.yearly_min)
                },
                Err(e) => Err(e),
            }
        },
    }
}

/// The latest of the instants that is not after `now`.
pub fn latest_not_after(mapped: LocalTimes, now: i64) -> (res: Option<i64>)
    ensures
        match res {
            Some(t) => latest(mapped, now as int) == Some(t as int),
            None => latest(mapped, now as int) is None,
        },
{
    match mapped {
        LocalTimes::Missing => None,
        LocalTimes::Single(t) => if t <= now {
            Some(t)
        } else {
            None
        },
        LocalTimes::Repeated(a, b) => if a <= now && b <= now {
            if a <= b {
                Some(b)
            } else {
                Some(a)
            }
        } else if a <= now {
            Some(a)
        } else if b <= now {
            Some(b)
        } else {
            None
        },
    }
}

/// The nearest minute in one direction that the clock shows.
fn nearest_minute(zone: &mut Zone, candidate: i64, direction: i64) -> (res: i64)
    requires
        direction == 1 || direction == -1,
        CIVIL_MIN + 20_000 <= candidate <= CIVIL_MAX - 20_000,
    ensures
        final(zone).refines(*old(zone)),
        final(zone).has_model() || *final(zone) == *old(zone),
        1 <= res <= 181,
        forall|model: ZoneModel| #[trigger]
            final(zone).agrees(model) ==> res == nearest(
                model,
                candidate as int,
                direction as int,
                1,
            ),
{
    let mut minutes: i64 = 1;
    while minutes <= 180
        invariant
            direction == 1 || direction == -1,
            CIVIL_MIN + 20_000 <= candidate <= CIVIL_MAX - 20_000,
            1 <= minutes <= 181,
            zone.refines(*old(zone)),
            zone.has_model() || *zone == *old(zone),
            forall|model: ZoneModel| #[trigger]
                zone.agrees(model) ==> nearest(model, candidate as int, direction as int, 1)
                    == nearest(model, candidate as int, direction as int, minutes as int),
        decreases 181 - minutes,
    {
        let shift: i64 = if direction == 1 {
            minutes * 60
        } else {
            -(minutes * 60)
        };
        assert(direction * minutes * 60 == shift);
        let times = zone.instants(candidate + shift);
        match times {
            LocalTimes::Missing => {},
            _ => {
                return minutes;
            },
        }
        minutes += 1;
    }
    181
}

/// Moves a skipped time forward by the size of its gap.
fn normalize_nonexistent_time(zone: &mut Zone, candidate: i64) -> (res: Result<i64, Error>)
    requires
        CIVIL_MIN + 50_000 <= candidate <= CIVIL_MAX - 50_000,
    ensures
        final(zone).refines(*old(zone)),
        final(zone).has_model() || *final(zone) == *old(zone),
        res matches Ok(moved) ==> candidate < moved <= candidate + 22_000,
        forall|model: ZoneModel| #[trigger]
            final(zone).agrees(model) ==> gives(res, moved_forward(model, candidate as int)),
{
    let back: i64 = nearest_minute(zone, candidate, -1);
    let ahead: i64 = nearest_minute(zone, candidate, 1);
    if back > 180 {
        return Err(error("could not find a valid local time before a timezone transition"));
    }
    if ahead > 180 {
        return Err(error("could not find a valid local time after a timezone transition"));
    }
    Ok(candidate + (back + ahead - 1) * 60)
}

fn resolve_boundary(zone: &mut Zone, candidate: i64, now: i64) -> (res: Result<Option<i64>, Error>)
    requires
        CIVIL_MIN + 100_000 <= candidate <= CIVIL_MAX - 100_000,
    ensures
        final(zone).refines(*old(zone)),
        final(zone).has_model(),
        forall|model: ZoneModel| #[trigger]
            final(zone).agrees(model) ==> match (res, boundary(model, candidate as int, now as int)) {
                (Ok(Some(t)), Ok(Some(instant))) => t == instant,
                (Ok(None), Ok(None)) => true,
                (Err(e), Err(message)) => e@ == plain(message),
                _ => false,
            },
{
    let mapped = zone.instants(candidate);
    let missing = match mapped {
        LocalTimes::Missing => true,
        _ => false,
    };
    if missing {
        match normalize_nonexistent_time(zone, candidate) {
            Ok(moved) => {
                let again = zone.instants(moved);
                Ok(latest_not_after(again, now))
            },
            Err(e) => Err(e),
        }
    } else {
        Ok(latest_not_after(mapped, now))
    }
}

/// The most recent instant at which a class of snapshots was due.
pub fn most_recent_preferred_in(kind: SnapshotKind, policy: &Policy, now: i64, zone: &mut Zone) -> (res:
    Result<i64, Error>)
    requires
        schedulable(kind, policy@, now as int),
    ensures
        final(zone).refines(*old(zone)),
        final(zone).has_model(),
        forall|model: ZoneModel| #[trigger]
            final(zone).agrees(model) ==> gives(res, last_due(model, kind, policy@, now as int)),
{
    let civil: i64 = zone.civil(now);
    let mut candidate: i64 = match point_of_period(kind, policy, civil, Ghost(now as int)) {
        Ok(point) => point,
        Err(e) => {
            return Err(e);
        },
    };
    let mut tries: i64 = 4;
    while tries > 0
        invariant
            0 <= tries <= 4,
            has_room(candidate as int, stride(kind, policy@), tries as int),
            zone.refines(*old(zone)),
            zone.has_model(),
            forall|model: ZoneModel| #[trigger]
                zone.agrees(model) ==> last_due(model, kind, policy@, now as int) == boundary_from(
                    model,
                    kind,
                    policy@,
                    candidate as int,
                    now as int,
                    tries as int,
                ),
        decreases tries,
    {
        proof {
            lemma_allowance(stride(kind, policy@), tries as int);
            lemma_allowance(stride(kind, policy@), tries - 1);
        }
        match resolve_boundary(zone, candidate, now) {
            Err(e) => {
                return Err(e);
            },
            Ok(Some(instant)) => {
                return Ok(instant);
            },
            Ok(None) => {},
        }
        match previous_preferred(kind, candidate, policy, Ghost(tries as int)) {
            Err(e) => {
                return Err(e);
            },
            Ok(earlier) => {
                candidate = earlier;
            },
        }
        tries -= 1;
    }
    let mut message = "could not resolve a recent preferred ".to_owned();
    message.append(kind.as_str());
    message.append(" boundary in the configured timezone");
    Err(Error::new(message))
}

/// Whether a snapshot of a class is due.
pub fn snapshot_due(
    kind: SnapshotKind,
    policy: &Policy,
    newest: Option<i64>,
    now: i64,
    zone: &mut Zone,
) -> (res: Result<bool, Error>)
    requires
        schedulable(kind, policy@, now as int),
    ensures
        final(zone).refines(*old(zone)),
        final(zone).has_model(),
        forall|model: ZoneModel| #[trigger]
            final(zone).agrees(model) ==> match (
                res,
                is_due(model, kind, policy@, newest, now as int),
            ) {
                (Ok(due), Ok(expected)) => due == expected,
                (Err(e), Err(message)) => e@ == plain(message),
                _ => false,
            },
{
    match most_recent_preferred_in(kind, policy, now, zone) {
        Err(e) => Err(e),
        Ok(preferred) => Ok(
            match newest {
                None => true,
                Some(created) => created < preferred,
            },
        ),
    }
}

/// The time part of the name of a snapshot taken at `now`.
pub fn snapshot_timestamp_in(zone: &mut Zone, now: i64) -> (res: String)
    requires
        plannable(now as int),
    ensures
        final(zone).refines(*old(zone)),
        final(zone).has_model(),
        forall|model: ZoneModel| #[trigger]
            final(zone).agrees(model) ==> res@ == timestamp_text(model, now as int)
                && is_read_back(model, now as int),
{
    let civil: i64 = zone.civil(now);
    let mut timestamp = stamp_text(civil);
    match zone.instants(civil) {
        LocalTimes::Repeated(_, second) => {
            if second == now {
                timestamp.append("dst");
            }
        },
        _ => {},
    }
    timestamp
}

} // verus!
