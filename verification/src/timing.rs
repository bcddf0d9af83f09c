//! What a schedule means where the wall clock has no transitions: a class of
//! snapshots was last due at its latest schedule point.
use vstd::prelude::*;

use crate::calendar::{date_of_day, day_number, day_of, days_before, in_calendar, is_date, is_date_of, is_leap, lemma_date_in_year, lemma_date_order, lemma_date_unique, lemma_days_before, lemma_year_length, lemma_year_start_grows, month_days, second_of_day, weekday_of, year_of, year_start};
use crate::model::SnapshotKind;
use crate::policy::{schedule_fault, PolicyModel};
use crate::schedule::{boundary_from, current_point, last_due, month_before, moved_forward, nearest, plannable, previous_point, timestamp_text, yearly_day, LocalTimes, ZoneModel};

verus! {

// ---------------------------------------------------------------------------
// Every day has a date
// ---------------------------------------------------------------------------

proof fn lemma_year_above(year: int, day: int) -> (found: int)
    requires
        year_start(year) <= day,
    ensures
        year_start(found) <= day < year_start(found + 1),
    decreases day - year_start(year),
{
    if day < year_start(year + 1) {
        year
    } else {
        lemma_year_length(year);
        lemma_days_before(year);
        lemma_year_above(year + 1, day)
    }
}

proof fn lemma_year_below(year: int, day: int) -> (found: int)
    requires
        day < year_start(year),
    ensures
        year_start(found) <= day < year_start(found + 1),
    decreases year_start(year) - day,
{
    if year_start(year - 1) <= day {
        year - 1
    } else {
        lemma_year_length(year - 1);
        lemma_days_before(year - 1);
        lemma_year_below(year - 1, day)
    }
}

/// Every day of the calendar has a date.
pub proof fn lemma_day_has_date(day: int)
    ensures
        is_date_of(date_of_day(day), day),
{
    let year = if year_start(1970) <= day {
        lemma_year_above(1970, day)
    } else {
        lemma_year_below(1970, day)
    };
    lemma_days_before(year);
    lemma_year_length(year);
    let rest = day - year_start(year);
    let month: int = if rest < 31 {
        1
    } else if rest < days_before(year, 3) {
        2
    } else if rest < days_before(year, 4) {
        3
    } else if rest < days_before(year, 5) {
        4
    } else if rest < days_before(year, 6) {
        5
    } else if rest < days_before(year, 7) {
        6
    } else if rest < days_before(year, 8) {
        7
    } else if rest < days_before(year, 9) {
        8
    } else if rest < days_before(year, 10) {
        9
    } else if rest < days_before(year, 11) {
        10
    } else if rest < days_before(year, 12) {
        11
    } else {
        12
    };
    let date = (year, month, rest - days_before(year, month) + 1);
    assert(is_date_of(date, day));
}

/// The years of the calendar.
proof fn lemma_year_in_calendar(civil: int)
    requires
        in_calendar(civil),
    ensures
        is_date_of(date_of_day(day_of(civil)), day_of(civil)),
        -262_143 < year_of(civil) < 262_142,
{
    let day = day_of(civil);
    lemma_day_has_date(day);
    let date = date_of_day(day);
    lemma_date_in_year(date.0, date.1, date.2);
    if date.0 >= 262_142 {
        lemma_year_start_grows(262_142, date.0);
    }
    if date.0 <= -262_143 {
        lemma_year_start_grows(date.0 + 1, -262_142);
    }
}

// ---------------------------------------------------------------------------
// Schedule points
// ---------------------------------------------------------------------------

/// The day of the year's schedule: the 29th of February falls on the 28th in a
/// year that has none.
pub open spec fn yearly_date(policy: PolicyModel, year: int) -> int {
    if policy.yearly_mon == 2 && policy.yearly_mday == 29 && !is_leap(year) {
        28
    } else {
        policy.yearly_mday as int
    }
}

/// A time of a day in seconds.
pub open spec fn clock(hour: u32, minute: u32) -> int {
    hour * 3_600 + minute * 60
}

/// Whether a wall clock shows a schedule point of a class.
pub open spec fn is_point(kind: SnapshotKind, policy: PolicyModel, civil: int) -> bool {
    let (year, month, day) = date_of_day(day_of(civil));
    let second = second_of_day(civil);
    match kind {
        SnapshotKind::Frequently => second % 60 == 0 && second % 3_600 / 60
            % (policy.frequent_period as int) == 0,
        SnapshotKind::Hourly => second % 3_600 == clock(0, policy.hourly_min),
        SnapshotKind::Daily => second == clock(policy.daily_hour, policy.daily_min),
        SnapshotKind::Weekly => weekday_of(civil) == policy.weekly_wday - 1 && second == clock(
            policy.weekly_hour,
            policy.weekly_min,
        ),
        SnapshotKind::Monthly => day == policy.monthly_mday && second == clock(
            policy.monthly_hour,
            policy.monthly_min,
        ),
        SnapshotKind::Yearly => month == policy.yearly_mon && day == yearly_date(policy, year)
            && second == clock(policy.yearly_hour, policy.yearly_min),
    }
}

/// Whether a point is the latest one that is not after a civil time.
pub open spec fn is_latest_point(
    kind: SnapshotKind,
    policy: PolicyModel,
    point: int,
    civil: int,
) -> bool {
    &&& point <= civil
    &&& is_point(kind, policy, point)
    &&& forall|later: int| point < later <= civil ==> !#[trigger] is_point(kind, policy, later)
}

/// The search of a class finds its latest point: it is the point of the
/// current period or, where that one is still to come, the one before.
spec fn finds_latest(kind: SnapshotKind, policy: PolicyModel, civil: int) -> bool {
    match current_point(kind, policy, civil) {
        Err(_) => false,
        Ok(point) => civil - 80_000_000 < point < civil + 80_000_000 && if point <= civil {
            is_latest_point(kind, policy, point, civil)
        } else {
            match previous_point(kind, policy, point) {
                Err(_) => false,
                Ok(earlier) => civil - 80_000_000 < earlier && is_latest_point(
                    kind,
                    policy,
                    earlier,
                    civil,
                ),
            }
        },
    }
}

proof fn lemma_multiple_in_reach(a: int, b: int, period: int)
    by (nonlinear_arith)
    requires
        period > 0,
        0 <= b <= a,
        b % period == 0,
    ensures
        b <= a / period * period,
{
    let q = a / period;
    let r = b / period;
    assert(b == r * period + b % period);
    assert(a == q * period + a % period);
    if r > q {
        assert(r * period >= q * period + period);
    } else {
        assert(r * period <= q * period);
    }
}

proof fn lemma_frequently(policy: PolicyModel, civil: int)
    requires
        1 <= policy.frequent_period <= 60,
    ensures
        finds_latest(SnapshotKind::Frequently, policy, civil),
{
    let kind = SnapshotKind::Frequently;
    let period = policy.frequent_period as int;
    let second = second_of_day(civil);
    let minute = second % 3_600 / 60;
    let rounded = minute / period * period;
    assert(0 <= rounded <= minute && rounded % period == 0) by (nonlinear_arith)
        requires
            period > 0,
            minute >= 0,
            rounded == minute / period * period,
    ;
    let point = day_of(civil) * 86_400 + second / 3_600 * 3_600 + rounded * 60;
    assert(day_of(point) == day_of(civil));
    assert(second_of_day(point) == second / 3_600 * 3_600 + rounded * 60);
    assert(second_of_day(point) % 3_600 == rounded * 60);
    assert(second_of_day(point) % 3_600 / 60 == rounded);
    assert forall|later: int| point < later <= civil implies !#[trigger] is_point(
        kind,
        policy,
        later,
    ) by {
        assert(day_of(later) == day_of(civil));
        let other = second_of_day(later) % 3_600 / 60;
        assert(second_of_day(later) / 3_600 == second / 3_600);
        if is_point(kind, policy, later) {
            assert(rounded < other <= minute);
            lemma_multiple_in_reach(minute, other, period);
        }
    }
}

proof fn lemma_hour(civil: int)
    ensures
        second_of_day(civil) % 3_600 == civil % 3_600,
        day_of(civil) * 86_400 + second_of_day(civil) / 3_600 * 3_600 == civil / 3_600 * 3_600,
{
}

proof fn lemma_hourly(policy: PolicyModel, civil: int)
    requires
        policy.hourly_min <= 59,
    ensures
        finds_latest(SnapshotKind::Hourly, policy, civil),
{
    let kind = SnapshotKind::Hourly;
    let offset = clock(0, policy.hourly_min);
    let point = civil / 3_600 * 3_600 + offset;
    let earlier = point - 3_600;
    lemma_hour(civil);
    assert(is_point(kind, policy, point)) by {
        lemma_hour(point);
    }
    assert(is_point(kind, policy, earlier)) by {
        lemma_hour(earlier);
    }
    assert forall|later: int| later <= civil && #[trigger] is_point(kind, policy, later) implies later
        == point || later <= earlier by {
        lemma_hour(later);
        assert(later / 3_600 <= civil / 3_600);
    }
}

proof fn lemma_daily(policy: PolicyModel, civil: int)
    requires
        policy.daily_hour <= 23,
        policy.daily_min <= 59,
    ensures
        finds_latest(SnapshotKind::Daily, policy, civil),
{
}

proof fn lemma_weekly(policy: PolicyModel, civil: int)
    requires
        1 <= policy.weekly_wday <= 7,
        policy.weekly_hour <= 23,
        policy.weekly_min <= 59,
    ensures
        finds_latest(SnapshotKind::Weekly, policy, civil),
{
    let kind = SnapshotKind::Weekly;
    let wanted = policy.weekly_wday - 1;
    let time = clock(policy.weekly_hour, policy.weekly_min);
    let day = day_of(civil);
    let first = day - (weekday_of(civil) - wanted) % 7;
    let point = first * 86_400 + time;
    assert(day_of(point) == first && second_of_day(point) == time);
    assert((first + 3) % 7 == wanted);
    let earlier = point - 604_800;
    assert(day_of(earlier) == first - 7 && second_of_day(earlier) == time);
    assert forall|later: int| earlier < later <= civil && #[trigger] is_point(kind, policy, later) implies later
        == point by {
        let other = day_of(later);
        assert((other + 3) % 7 == wanted);
        assert(first - 7 < other <= first + 6);
    }
}

proof fn lemma_monthly(policy: PolicyModel, civil: int)
    requires
        1 <= policy.monthly_mday <= 28,
        policy.monthly_hour <= 23,
        policy.monthly_min <= 59,
        in_calendar(civil),
    ensures
        finds_latest(SnapshotKind::Monthly, policy, civil),
{
    let kind = SnapshotKind::Monthly;
    let wanted = policy.monthly_mday as int;
    let time = clock(policy.monthly_hour, policy.monthly_min);
    lemma_year_in_calendar(civil);
    let (year, month, day) = date_of_day(day_of(civil));
    let now = (year, month, day);
    let this = (year, month, wanted);
    let (last_year, last_month) = month_before(year, month);
    let last = (last_year, last_month, wanted);
    assert(is_date(year, month, wanted));
    assert(is_date(last_year, last_month, wanted));
    let n0 = day_number(year, month, wanted);
    let n1 = day_number(last_year, last_month, wanted);
    let point = n0 * 86_400 + time;
    let earlier = n1 * 86_400 + time;
    assert(day_of(point) == n0 && second_of_day(point) == time);
    assert(day_of(earlier) == n1 && second_of_day(earlier) == time);
    lemma_date_unique(this, n0);
    lemma_date_unique(last, n1);
    lemma_date_order(last, now);
    lemma_days_before(year);
    lemma_days_before(last_year);
    lemma_year_length(last_year);
    assert forall|later: int| #[trigger] is_point(kind, policy, later) && later <= civil implies later
        == point || later <= earlier by {
        lemma_day_has_date(day_of(later));
        let (y, m, d) = date_of_day(day_of(later));
        let other = (y, m, d);
        if (y, m) == (year, month) {
            assert(day_of(later) == n0);
        } else if year < y || (year == y && month < m) {
            lemma_date_order(now, other);
        } else if (y, m) == (last_year, last_month) {
            assert(day_of(later) == n1);
        } else {
            lemma_date_order(other, last);
        }
    }
}

proof fn lemma_yearly(policy: PolicyModel, civil: int)
    requires
        1 <= policy.yearly_mon <= 12,
        1 <= policy.yearly_mday <= month_days(4, policy.yearly_mon as int),
        policy.yearly_hour <= 23,
        policy.yearly_min <= 59,
        in_calendar(civil),
    ensures
        finds_latest(SnapshotKind::Yearly, policy, civil),
{
    let kind = SnapshotKind::Yearly;
    let month = policy.yearly_mon as int;
    let time = clock(policy.yearly_hour, policy.yearly_min);
    lemma_year_in_calendar(civil);
    let date = date_of_day(day_of(civil));
    let year = date.0;
    let this = (year, month, yearly_date(policy, year));
    let last = (year - 1, month, yearly_date(policy, year - 1));
    assert(is_date(this.0, this.1, this.2));
    assert(is_date(last.0, last.1, last.2));
    let n0 = day_number(this.0, this.1, this.2);
    let n1 = day_number(last.0, last.1, last.2);
    assert(yearly_day(year, month, policy.yearly_mday as int) == Ok::<int, Seq<char>>(n0));
    assert(yearly_day(year - 1, month, policy.yearly_mday as int) == Ok::<int, Seq<char>>(n1));
    let point = n0 * 86_400 + time;
    let earlier = n1 * 86_400 + time;
    assert(day_of(point) == n0 && second_of_day(point) == time);
    assert(day_of(earlier) == n1 && second_of_day(earlier) == time);
    lemma_date_unique(this, n0);
    lemma_date_unique(last, n1);
    lemma_date_order(last, date);
    lemma_date_in_year(this.0, this.1, this.2);
    lemma_date_in_year(last.0, last.1, last.2);
    lemma_date_in_year(date.0, date.1, date.2);
    lemma_days_before(year);
    lemma_days_before(year - 1);
    lemma_year_length(year);
    lemma_year_length(year - 1);
    assert forall|later: int| #[trigger] is_point(kind, policy, later) && later <= civil implies later
        == point || later <= earlier by {
        lemma_day_has_date(day_of(later));
        let other = date_of_day(day_of(later));
        if other.0 == year {
            assert(day_of(later) == n0);
        } else if year < other.0 {
            lemma_date_order(date, other);
        } else if other.0 == year - 1 {
            assert(day_of(later) == n1);
        } else {
            lemma_date_order(other, last);
        }
    }
}

/// A clock that is always the same number of seconds ahead of UTC.
pub open spec fn is_steady(zone: ZoneModel, offset: int) -> bool {
    &&& forall|instant: int| #[trigger] (zone.civil)(instant) == instant + offset
    &&& forall|civil: int| #[trigger]
        (zone.instants)(civil) == LocalTimes::Single((civil - offset) as i64)
}

/// Where the clock has no transitions, a class of a valid policy was last due
/// at the latest schedule point that its clock has shown: at or before now,
/// and with no other point in between. A yearly date that no year has is left
/// out; it has no schedule.
pub proof fn law_due_at_the_latest_schedule_point(
    zone: ZoneModel,
    offset: int,
    kind: SnapshotKind,
    policy: PolicyModel,
    context: Seq<char>,
    now: int,
)
    requires
        is_steady(zone, offset),
        -86_400 < offset < 86_400,
        schedule_fault(policy, context) is None,
        kind == SnapshotKind::Yearly ==> policy.yearly_mday <= month_days(
            4,
            policy.yearly_mon as int,
        ),
        plannable(now),
    ensures
        last_due(zone, kind, policy, now) matches Ok(instant) && is_latest_point(
            kind,
            policy,
            instant + offset,
            now + offset,
        ),
{
    let civil = now + offset;
    match kind {
        SnapshotKind::Frequently => lemma_frequently(policy, civil),
        SnapshotKind::Hourly => lemma_hourly(policy, civil),
        SnapshotKind::Daily => lemma_daily(policy, civil),
        SnapshotKind::Weekly => lemma_weekly(policy, civil),
        SnapshotKind::Monthly => lemma_monthly(policy, civil),
        SnapshotKind::Yearly => lemma_yearly(policy, civil),
    }
    assert((zone.civil)(now) == civil);
    let point = current_point(kind, policy, civil)->Ok_0;
    assert((zone.instants)(point) == LocalTimes::Single((point - offset) as i64));
    reveal_with_fuel(boundary_from, 3);
    if point > civil {
        let earlier = previous_point(kind, policy, point)->Ok_0;
        assert((zone.instants)(earlier) == LocalTimes::Single((earlier - offset) as i64));
    }
}

/// UTC is a clock without transitions.
pub proof fn law_utc_is_steady()
    ensures
        is_steady(crate::schedule::utc_model(), 0),
{
}

// ---------------------------------------------------------------------------
// Transitions
// ---------------------------------------------------------------------------

proof fn lemma_nearest(zone: ZoneModel, point: int, direction: int, from: int, found: int)
    requires
        1 <= from <= found <= 180,
        forall|m: int|
            from <= m < found ==> #[trigger] (zone.instants)(point + direction * m * 60)
                == LocalTimes::Missing,
        (zone.instants)(point + direction * found * 60) != LocalTimes::Missing,
    ensures
        nearest(zone, point, direction, from) == found,
    decreases found - from,
{
    if from < found {
        assert((zone.instants)(point + direction * from * 60) == LocalTimes::Missing);
        lemma_nearest(zone, point, direction, from + 1, found);
    }
}

/// A time that a clock skips moves forward by the size of its gap: where
/// `gap` minutes from `start` on are missing, and no more, each of them is
/// taken for the time that many minutes later.
pub proof fn law_skipped_time_moves_by_the_gap(zone: ZoneModel, start: int, gap: int, minute: int)
    requires
        0 <= minute < gap <= 180,
        forall|m: int|
            0 <= m < gap ==> #[trigger] (zone.instants)(start + m * 60) == LocalTimes::Missing,
        (zone.instants)(start - 60) != LocalTimes::Missing,
        (zone.instants)(start + gap * 60) != LocalTimes::Missing,
    ensures
        moved_forward(zone, start + minute * 60) == Ok::<int, Seq<char>>(
            start + minute * 60 + gap * 60,
        ),
{
    let point = start + minute * 60;
    assert forall|m: int| 1 <= m < minute + 1 implies #[trigger] (zone.instants)(
        point + -1 * m * 60,
    ) == LocalTimes::Missing by {
        assert(point + -1 * m * 60 == start + (minute - m) * 60);
        assert((zone.instants)(start + (minute - m) * 60) == LocalTimes::Missing);
    }
    assert(point + -1 * (minute + 1) * 60 == start - 60);
    lemma_nearest(zone, point, -1, 1, minute + 1);
    assert forall|m: int| 1 <= m < gap - minute implies #[trigger] (zone.instants)(
        point + 1 * m * 60,
    ) == LocalTimes::Missing by {
        assert(point + 1 * m * 60 == start + (minute + m) * 60);
        assert((zone.instants)(start + (minute + m) * 60) == LocalTimes::Missing);
    }
    assert(point + 1 * (gap - minute) * 60 == start + gap * 60);
    lemma_nearest(zone, point, 1, 1, gap - minute);
}

/// The two instants of a repeated time give snapshots different names.
pub proof fn law_repeated_time_has_two_names(zone: ZoneModel, first: i64, second: i64)
    requires
        first != second,
        (zone.civil)(first as int) == (zone.civil)(second as int),
        (zone.instants)((zone.civil)(first as int)) == LocalTimes::Repeated(first, second),
    ensures
        timestamp_text(zone, first as int) != timestamp_text(zone, second as int),
{
    reveal_strlit("dst");
    let shared = crate::calendar::civil_stamp((zone.civil)(first as int));
    assert(timestamp_text(zone, second as int).len() == shared.len() + 3);
}

} // verus!
