//! The calendar as people know it: days follow each other, weeks have seven of them,
//! and the stamps of times sort like the times.
use vstd::prelude::*;

use crate::calendar::{civil_stamp, date_of_day, day_number, day_of, is_date, is_date_of, lemma_date_order, lemma_date_unique, lemma_days_before, lemma_year_length, month_days, second_of_day, stamp, weekday_of, year_of};
use crate::readback::{law_texts_are_ordered_like_words, parts_at};
use crate::text::{decimal, digit, lemma_lt_asymmetric, lemma_lt_irreflexive, padded, text_lt};
use crate::timing::lemma_day_has_date;

verus! {

// ---------------------------------------------------------------------------
// Days
// ---------------------------------------------------------------------------

/// The date after a date.
pub open spec fn next_date(year: int, month: int, day: int) -> (int, int, int) {
    if is_date(year, month, day + 1) {
        (year, month, day + 1)
    } else if month < 12 {
        (year, month + 1, 1)
    } else {
        (year + 1, 1, 1)
    }
}

/// Days follow each other through the months and the years, from the first day of
/// 1970 on and back. February has a day more in every fourth year, but for three of
/// four full centuries.
pub proof fn law_days_follow_each_other(year: int, month: int, day: int)
    requires
        is_date(year, month, day),
    ensures
        ({
            let (later_year, later_month, later_day) = next_date(year, month, day);
            &&& is_date(later_year, later_month, later_day)
            &&& day_number(later_year, later_month, later_day) == day_number(year, month, day) + 1
        }),
        day_number(1970, 1, 1) == 0,
        month_days(year, month) == 29 <==> month == 2 && (year % 400 == 0 || year % 4 == 0 && year
            % 100 != 0),
        day_number(year + 400, month, day) == day_number(year, month, day) + 146_097,
{
    lemma_days_before(year);
    lemma_days_before(year + 1);
    lemma_days_before(1970);
    lemma_year_length(year);
    lemma_year_start_four_centuries(year);
    lemma_four_centuries(year, month);
}

proof fn lemma_year_start_four_centuries(year: int)
    ensures
        crate::calendar::year_start(year + 400) == crate::calendar::year_start(year) + 146_097,
{
    assert((year + 399) / 4 == (year - 1) / 4 + 100);
    assert((year + 399) / 100 == (year - 1) / 100 + 4);
    assert((year + 399) / 400 == (year - 1) / 400 + 1);
}

proof fn lemma_leap_four_centuries(year: int)
    ensures
        crate::calendar::is_leap(year + 400) == crate::calendar::is_leap(year),
{
    assert((year + 400) % 4 == year % 4);
    assert((year + 400) % 100 == year % 100);
    assert((year + 400) % 400 == year % 400);
}

proof fn lemma_four_centuries(year: int, month: int)
    ensures
        crate::calendar::days_before(year + 400, month) == crate::calendar::days_before(
            year,
            month,
        ),
    decreases month,
{
    lemma_leap_four_centuries(year);
    if month > 1 {
        lemma_four_centuries(year, month - 1);
    }
}

/// A week has seven days, which follow each other from midnight to midnight; the
/// first day of 1970 was a Thursday, three days behind a Monday.
pub proof fn law_weeks_have_seven_days(civil: int)
    ensures
        0 <= weekday_of(civil) < 7,
        weekday_of(civil + 86_400) == (if weekday_of(civil) == 6 {
            0
        } else {
            weekday_of(civil) + 1
        }),
        second_of_day(civil) + 1 < 86_400 ==> weekday_of(civil + 1) == weekday_of(civil),
        0 <= civil < 86_400 ==> weekday_of(civil) == 3,
{
}

/// A time has the date of its day: the day starts at midnight and lasts until the
/// next one does.
pub proof fn law_times_have_the_date_of_their_day(civil: int, year: int, month: int, day: int)
    requires
        is_date(year, month, day),
    ensures
        date_of_day(day_of(civil)) == (year, month, day) <==> day_number(year, month, day) * 86_400
            <= civil < day_number(year, month, day) * 86_400 + 86_400,
        0 <= second_of_day(civil) < 86_400,
        civil == day_of(civil) * 86_400 + second_of_day(civil),
{
    lemma_day_has_date(day_of(civil));
    let number = day_number(year, month, day);
    if day_of(civil) == number {
        lemma_date_unique((year, month, day), number);
    }
}

// ---------------------------------------------------------------------------
// Stamps
// ---------------------------------------------------------------------------

proof fn lemma_lt_inside(
    before: Seq<char>,
    x: Seq<char>,
    y: Seq<char>,
    after_x: Seq<char>,
    after_y: Seq<char>,
)
    requires
        x.len() == y.len(),
        text_lt(x, y),
    ensures
        text_lt(before + x + after_x, before + y + after_y),
{
    law_texts_are_ordered_like_words(x, y);
    let k = choose|k: int| parts_at(x, y, k);
    let a = before + x + after_x;
    let b = before + y + after_y;
    let at = before.len() + k;
    assert forall|i: int| 0 <= i < at implies #[trigger] a[i] == b[i] by {
        if i >= before.len() {
            assert(a[i] == x[i - before.len()]);
            assert(b[i] == y[i - before.len()]);
        }
    }
    assert(a[at] == x[k] && b[at] == y[k]);
    assert(parts_at(a, b, at));
    law_texts_are_ordered_like_words(a, b);
}

/// The least number that does not fit into a width.
pub open spec fn beyond(width: nat) -> nat
    decreases width,
{
    if width == 0 {
        1
    } else {
        10 * beyond((width - 1) as nat)
    }
}

proof fn lemma_padded_length(n: nat, width: nat)
    requires
        width >= 1,
        n < beyond(width),
    ensures
        padded(n, width).len() == width,
    decreases width,
{
    reveal_with_fuel(beyond, 2);
    if width > 1 {
        lemma_padded_length(n / 10, (width - 1) as nat);
    }
}

/// Numerals of one width sort like their numbers.
pub proof fn law_padded_numerals_sort_like_numbers(m: nat, n: nat, width: nat)
    requires
        width >= 1,
        m < n < beyond(width),
    ensures
        padded(m, width).len() == width,
        padded(n, width).len() == width,
        text_lt(padded(m, width), padded(n, width)),
    decreases width,
{
    reveal_with_fuel(beyond, 2);
    let none = Seq::<char>::empty();
    lemma_padded_length(m, width);
    lemma_padded_length(n, width);
    if width == 1 {
        assert(decimal(m) =~= seq![digit(m as int)]);
        assert(decimal(n) =~= seq![digit(n as int)]);
        assert(parts_at(decimal(m), decimal(n), 0));
        law_texts_are_ordered_like_words(decimal(m), decimal(n));
    } else {
        let shorter = (width - 1) as nat;
        let a = padded(m / 10, shorter);
        let b = padded(n / 10, shorter);
        let x = seq![digit((m % 10) as int)];
        let y = seq![digit((n % 10) as int)];
        if m / 10 < n / 10 {
            law_padded_numerals_sort_like_numbers(m / 10, n / 10, shorter);
            lemma_lt_inside(none, a, b, x, y);
            assert(none + a + x =~= padded(m, width));
            assert(none + b + y =~= padded(n, width));
        } else {
            assert(m / 10 == n / 10 && m % 10 < n % 10);
            assert(parts_at(x, y, 0));
            law_texts_are_ordered_like_words(x, y);
            lemma_lt_inside(a, x, y, none, none);
            assert(a + x + none =~= padded(m, width));
            assert(a + y + none =~= padded(n, width));
        }
    }
}

/// The hour, the minute and the second of a second of a day.
spec fn clock_of(second: int) -> (int, int, int) {
    (second / 3_600, second % 3_600 / 60, second % 60)
}

proof fn lemma_clock(a: int, b: int)
    requires
        0 <= a < b < 86_400,
    ensures
        ({
            let (x, y, z) = clock_of(a);
            let (u, v, w) = clock_of(b);
            &&& 0 <= x < 24 && 0 <= y < 60 && 0 <= z < 60
            &&& 0 <= u < 24 && 0 <= v < 60 && 0 <= w < 60
            &&& x < u || x == u && (y < v || y == v && z < w)
        }),
{
    let h = a / 3_600;
    let i = b / 3_600;
    assert(a % 3_600 == a - 3_600 * h);
    assert(b % 3_600 == b - 3_600 * i);
    assert(a % 60 == a % 3_600 % 60);
    assert(b % 60 == b % 3_600 % 60);
}

/// A stamp field by field.
spec fn fields(y: nat, m: nat, d: nat, h: nat, n: nat, s: nat) -> Seq<char> {
    padded(y, 4) + "-"@ + padded(m, 2) + "-"@ + padded(d, 2) + "_"@ + padded(h, 2) + ":"@ + padded(
        n,
        2,
    ) + ":"@ + padded(s, 2)
}

/// Two stamps that agree up to a field and differ there.
proof fn lemma_differ(
    before: Seq<char>,
    m: nat,
    n: nat,
    width: nat,
    after_m: Seq<char>,
    after_n: Seq<char>,
    a: Seq<char>,
    b: Seq<char>,
)
    requires
        width >= 1,
        m < n < beyond(width),
        a == before + padded(m, width) + after_m,
        b == before + padded(n, width) + after_n,
    ensures
        text_lt(a, b),
{
    law_padded_numerals_sort_like_numbers(m, n, width);
    lemma_lt_inside(before, padded(m, width), padded(n, width), after_m, after_n);
}

proof fn lemma_after_year(y: nat, m: nat, d: nat, h: nat, n: nat, s: nat) -> (after: Seq<char>)
    ensures
        fields(y, m, d, h, n, s) == Seq::<char>::empty() + padded(y, 4) + after,
{
    let after = "-"@ + padded(m, 2) + "-"@ + padded(d, 2) + "_"@ + padded(h, 2) + ":"@ + padded(
        n,
        2,
    ) + ":"@ + padded(s, 2);
    assert(fields(y, m, d, h, n, s) =~= Seq::<char>::empty() + padded(y, 4) + after);
    after
}

proof fn lemma_after_month(y: nat, m: nat, d: nat, h: nat, n: nat, s: nat) -> (after: Seq<char>)
    ensures
        fields(y, m, d, h, n, s) == padded(y, 4) + "-"@ + padded(m, 2) + after,
{
    let after = "-"@ + padded(d, 2) + "_"@ + padded(h, 2) + ":"@ + padded(n, 2) + ":"@ + padded(
        s,
        2,
    );
    assert(fields(y, m, d, h, n, s) =~= padded(y, 4) + "-"@ + padded(m, 2) + after);
    after
}

proof fn lemma_after_day(y: nat, m: nat, d: nat, h: nat, n: nat, s: nat) -> (after: Seq<char>)
    ensures
        fields(y, m, d, h, n, s) == padded(y, 4) + "-"@ + padded(m, 2) + "-"@ + padded(d, 2)
            + after,
{
    let after = "_"@ + padded(h, 2) + ":"@ + padded(n, 2) + ":"@ + padded(s, 2);
    assert(fields(y, m, d, h, n, s) =~= padded(y, 4) + "-"@ + padded(m, 2) + "-"@ + padded(d, 2)
        + after);
    after
}

proof fn lemma_after_hour(y: nat, m: nat, d: nat, h: nat, n: nat, s: nat) -> (after: Seq<char>)
    ensures
        fields(y, m, d, h, n, s) == padded(y, 4) + "-"@ + padded(m, 2) + "-"@ + padded(d, 2)
            + "_"@ + padded(h, 2) + after,
{
    let after = ":"@ + padded(n, 2) + ":"@ + padded(s, 2);
    assert(fields(y, m, d, h, n, s) =~= padded(y, 4) + "-"@ + padded(m, 2) + "-"@ + padded(d, 2)
        + "_"@ + padded(h, 2) + after);
    after
}

proof fn lemma_after_minute(y: nat, m: nat, d: nat, h: nat, n: nat, s: nat) -> (after: Seq<char>)
    ensures
        fields(y, m, d, h, n, s) == padded(y, 4) + "-"@ + padded(m, 2) + "-"@ + padded(d, 2)
            + "_"@ + padded(h, 2) + ":"@ + padded(n, 2) + after,
{
    let after = ":"@ + padded(s, 2);
    assert(fields(y, m, d, h, n, s) =~= padded(y, 4) + "-"@ + padded(m, 2) + "-"@ + padded(d, 2)
        + "_"@ + padded(h, 2) + ":"@ + padded(n, 2) + after);
    after
}

proof fn lemma_stamps_in_order(a: int, b: int)
    requires
        a < b,
        0 <= year_of(a) <= 9_999,
        0 <= year_of(b) <= 9_999,
    ensures
        text_lt(civil_stamp(a), civil_stamp(b)),
{
    lemma_day_has_date(day_of(a));
    lemma_day_has_date(day_of(b));
    let (y, m, d) = date_of_day(day_of(a));
    let (u, v, w) = date_of_day(day_of(b));
    let (h, n, s) = clock_of(second_of_day(a));
    let (i, o, t) = clock_of(second_of_day(b));
    assert(is_date_of((y, m, d), day_of(a)) && is_date_of((u, v, w), day_of(b)));
    lemma_clock_bounds(second_of_day(a));
    lemma_clock_bounds(second_of_day(b));
    assert(beyond(2) == 100 && beyond(4) == 10_000) by {
        reveal_with_fuel(beyond, 5);
    }
    let (y, m, d, h, n, s) = (y as nat, m as nat, d as nat, h as nat, n as nat, s as nat);
    let (u, v, w, i, o, t) = (u as nat, v as nat, w as nat, i as nat, o as nat, t as nat);
    let x = civil_stamp(a);
    let z = civil_stamp(b);
    assert(x == fields(y, m, d, h, n, s));
    assert(z == fields(u, v, w, i, o, t));
    if day_of(a) < day_of(b) {
        if u < y || u == y && (v < m || v == m && w < d) {
            lemma_date_order((u as int, v as int, w as int), (y as int, m as int, d as int));
        }
        assert(y < u || y == u && (m < v || m == v && d < w));
        if y < u {
            let after_x = lemma_after_year(y, m, d, h, n, s);
            let after_z = lemma_after_year(u, v, w, i, o, t);
            lemma_differ(Seq::empty(), y, u, 4, after_x, after_z, x, z);
        } else if m < v {
            let after_x = lemma_after_month(y, m, d, h, n, s);
            let after_z = lemma_after_month(u, v, w, i, o, t);
            lemma_differ(padded(y, 4) + "-"@, m, v, 2, after_x, after_z, x, z);
        } else {
            let after_x = lemma_after_day(y, m, d, h, n, s);
            let after_z = lemma_after_day(u, v, w, i, o, t);
            let before = padded(y, 4) + "-"@ + padded(m, 2) + "-"@;
            lemma_differ(before, d, w, 2, after_x, after_z, x, z);
        }
    } else {
        lemma_clock(second_of_day(a), second_of_day(b));
        let date = padded(y, 4) + "-"@ + padded(m, 2) + "-"@ + padded(d, 2) + "_"@;
        if h < i {
            let after_x = lemma_after_hour(y, m, d, h, n, s);
            let after_z = lemma_after_hour(u, v, w, i, o, t);
            lemma_differ(date, h, i, 2, after_x, after_z, x, z);
        } else if n < o {
            let after_x = lemma_after_minute(y, m, d, h, n, s);
            let after_z = lemma_after_minute(u, v, w, i, o, t);
            lemma_differ(date + padded(h, 2) + ":"@, n, o, 2, after_x, after_z, x, z);
        } else {
            let before = date + padded(h, 2) + ":"@ + padded(n, 2) + ":"@;
            let none = Seq::<char>::empty();
            assert(x =~= before + padded(s, 2) + none);
            assert(z =~= before + padded(t, 2) + none);
            lemma_differ(before, s, t, 2, none, none, x, z);
        }
    }
}

proof fn lemma_clock_bounds(second: int)
    requires
        0 <= second < 86_400,
    ensures
        ({
            let (h, n, s) = clock_of(second);
            0 <= h < 24 && 0 <= n < 60 && 0 <= s < 60
        }),
{
}

/// The stamps of times sort like the times, and two times have two stamps. This
/// holds of years with four digits.
pub proof fn law_stamps_sort_like_times(a: int, b: int)
    requires
        0 <= year_of(a) <= 9_999,
        0 <= year_of(b) <= 9_999,
    ensures
        text_lt(civil_stamp(a), civil_stamp(b)) <==> a < b,
        civil_stamp(a) == civil_stamp(b) <==> a == b,
{
    if a < b {
        lemma_stamps_in_order(a, b);
        lemma_lt_asymmetric(civil_stamp(a), civil_stamp(b));
    } else if b < a {
        lemma_stamps_in_order(b, a);
        lemma_lt_asymmetric(civil_stamp(b), civil_stamp(a));
    } else {
        lemma_lt_irreflexive(civil_stamp(a));
    }
}

/// A stamp has the shape `YYYY-MM-DD_HH:MM:SS`, and its hour, minute and second are
/// those of the day.
pub proof fn law_stamps_have_one_shape(date: (int, int, int), second: int)
    requires
        is_date(date.0, date.1, date.2),
        0 <= date.0 <= 9_999,
        0 <= second < 86_400,
    ensures
        ({
            let text = stamp(date, second);
            &&& text.len() == 19
            &&& text[4] == '-' && text[7] == '-' && text[10] == '_' && text[13] == ':' && text[16]
                == ':'
            &&& text.subrange(0, 4) == padded(date.0 as nat, 4)
            &&& text.subrange(5, 7) == padded(date.1 as nat, 2)
            &&& text.subrange(8, 10) == padded(date.2 as nat, 2)
            &&& exists|hour: nat, minute: nat, rest: nat|
                #![trigger padded(hour, 2), padded(minute, 2), padded(rest, 2)]
                second == hour * 3_600 + minute * 60 + rest && minute < 60 && rest < 60
                    && text.subrange(11, 13) == padded(hour, 2) && text.subrange(14, 16) == padded(
                    minute,
                    2,
                ) && text.subrange(17, 19) == padded(rest, 2)
        }),
{
    let (h, n, s) = clock_of(second);
    lemma_clock_bounds(second);
    assert(beyond(2) == 100 && beyond(4) == 10_000) by {
        reveal_with_fuel(beyond, 5);
    }
    lemma_padded_length(date.0 as nat, 4);
    lemma_padded_length(date.1 as nat, 2);
    lemma_padded_length(date.2 as nat, 2);
    lemma_padded_length(h as nat, 2);
    lemma_padded_length(n as nat, 2);
    lemma_padded_length(s as nat, 2);
    reveal_strlit("-");
    reveal_strlit("_");
    reveal_strlit(":");
    let text = stamp(date, second);
    assert(text.subrange(0, 4) =~= padded(date.0 as nat, 4));
    assert(text.subrange(5, 7) =~= padded(date.1 as nat, 2));
    assert(text.subrange(8, 10) =~= padded(date.2 as nat, 2));
    assert(text.subrange(11, 13) =~= padded(h as nat, 2));
    assert(text.subrange(14, 16) =~= padded(n as nat, 2));
    assert(text.subrange(17, 19) =~= padded(s as nat, 2));
    assert(second == h * 3_600 + n * 60 + s) by {
        assert(second % 60 == second % 3_600 % 60);
    }
}

} // verus!
