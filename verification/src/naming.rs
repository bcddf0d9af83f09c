//! Snapshot names: a prefix, a time, and a class.
use vstd::prelude::*;

use crate::calendar::{is_date, parses_as_stamp, stamp, stamp_parses, year_text};
use crate::config::{all_safe, has_only_safe_characters, is_safe};
use crate::model::{all_kinds, SnapshotKind};
use crate::text::{decimal, drop_prefix, drop_suffix, has_suffix, is_digit, padded, strip_prefix, strip_suffix};

verus! {

/// The name of a snapshot of a class.
pub open spec fn snapshot_name(prefix: Seq<char>, time: Seq<char>, kind: SnapshotKind) -> Seq<char> {
    prefix + "_"@ + time + "_"@ + kind.text()
}

/// The time of a snapshot name without the mark of a repeated hour.
pub open spec fn without_dst(time: Seq<char>) -> Seq<char> {
    match drop_suffix(time, "_dst"@) {
        Some(rest) => rest,
        None => match drop_suffix(time, "dst"@) {
            Some(rest) => rest,
            None => time,
        },
    }
}

/// Whether the rest of a name after the prefix is a time and the given class.
pub open spec fn is_of_kind(rest: Seq<char>, kind: SnapshotKind) -> bool {
    match drop_suffix(rest, "_"@ + kind.text()) {
        Some(time) => stamp_parses(without_dst(time)),
        None => false,
    }
}

/// The first class from `i` on that the rest of a name ends in.
pub open spec fn kind_from(rest: Seq<char>, i: int) -> Option<SnapshotKind>
    decreases all_kinds().len() - i,
{
    if i >= all_kinds().len() {
        None
    } else if is_of_kind(rest, all_kinds()[i]) {
        Some(all_kinds()[i])
    } else {
        kind_from(rest, i + 1)
    }
}

/// The class of a snapshot that its name gives: safe characters only, the
/// prefix, a time, and the class, joined by underscores.
pub open spec fn kind_of(prefix: Seq<char>, name: Seq<char>) -> Option<SnapshotKind> {
    if !all_safe(name) {
        None
    } else {
        match drop_prefix(name, prefix) {
            None => None,
            Some(rest) => match drop_prefix(rest, "_"@) {
                None => None,
                Some(rest) => kind_from(rest, 0),
            },
        }
    }
}

fn time_without_dst(time: String) -> (res: String)
    ensures
        res@ == without_dst(time@),
{
    match strip_suffix(time.as_str(), "_dst") {
        Some(rest) => rest,
        None => match strip_suffix(time.as_str(), "dst") {
            Some(rest) => rest,
            None => time,
        },
    }
}

/// The time part of the name of a snapshot: a stamp, marked when the clock
/// shows it for the second time.
pub open spec fn given_time(date: (int, int, int), second: int, repeated: bool) -> Seq<char> {
    if repeated {
        stamp(date, second) + "dst"@
    } else {
        stamp(date, second)
    }
}

/// A date of the years zero to 9999 and a second of a day.
pub open spec fn is_usual(date: (int, int, int), second: int) -> bool {
    is_date(date.0, date.1, date.2) && 0 <= date.0 <= 9_999 && 0 <= second < 86_400
}

proof fn lemma_decimal_digits(n: nat)
    ensures
        decimal(n).len() > 0,
        forall|i: int| 0 <= i < decimal(n).len() ==> is_digit(#[trigger] decimal(n)[i]),
    decreases n,
{
    if n >= 10 {
        lemma_decimal_digits(n / 10);
    }
}

proof fn lemma_padded_digits(n: nat, width: nat)
    ensures
        padded(n, width).len() > 0,
        forall|i: int| 0 <= i < padded(n, width).len() ==> is_digit(#[trigger] padded(n, width)[i]),
    decreases width,
{
    if width <= 1 {
        lemma_decimal_digits(n);
    } else {
        lemma_padded_digits(n / 10, (width - 1) as nat);
    }
}

/// A stamp of a usual date holds safe characters and ends in a digit.
proof fn lemma_stamp(date: (int, int, int), second: int)
    requires
        is_usual(date, second),
    ensures
        all_safe(stamp(date, second)),
        stamp(date, second).len() > 0,
        is_digit(stamp(date, second).last()),
{
    reveal_strlit("-");
    reveal_strlit("_");
    reveal_strlit(":");
    lemma_padded_digits(date.0 as nat, 4);
    lemma_padded_digits(date.1 as nat, 2);
    lemma_padded_digits(date.2 as nat, 2);
    lemma_padded_digits((second / 3_600) as nat, 2);
    lemma_padded_digits((second % 3_600 / 60) as nat, 2);
    lemma_padded_digits((second % 60) as nat, 2);
    let y = year_text(date.0);
    let a = y + "-"@ + padded(date.1 as nat, 2);
    let b = a + "-"@ + padded(date.2 as nat, 2);
    let c = b + "_"@ + padded((second / 3_600) as nat, 2);
    let d = c + ":"@ + padded((second % 3_600 / 60) as nat, 2);
    let e = d + ":"@ + padded((second % 60) as nat, 2);
    lemma_safe_joins(y, "-"@, padded(date.1 as nat, 2));
    lemma_safe_joins(a, "-"@, padded(date.2 as nat, 2));
    lemma_safe_joins(b, "_"@, padded((second / 3_600) as nat, 2));
    lemma_safe_joins(c, ":"@, padded((second % 3_600 / 60) as nat, 2));
    lemma_safe_joins(d, ":"@, padded((second % 60) as nat, 2));
    assert(e =~= stamp(date, second));
    assert(e.last() == padded((second % 60) as nat, 2).last());
}

proof fn lemma_safe_joins(a: Seq<char>, b: Seq<char>, c: Seq<char>)
    requires
        all_safe(a),
        all_safe(b),
        all_safe(c),
    ensures
        all_safe(a + b + c),
{
    let all = a + b + c;
    assert forall|i: int| 0 <= i < all.len() implies is_safe(#[trigger] all[i]) by {
        if i < a.len() {
            assert(all[i] == a[i]);
        } else if i < a.len() + b.len() {
            assert(all[i] == b[i - a.len()]);
        } else {
            assert(all[i] == c[i - a.len() - b.len()]);
        }
    }
}

/// The mark of a repeated hour comes off, and nothing else does.
proof fn lemma_without_dst(date: (int, int, int), second: int, repeated: bool)
    requires
        is_usual(date, second),
    ensures
        without_dst(given_time(date, second, repeated)) == stamp(date, second),
{
    reveal_strlit("dst");
    reveal_strlit("_dst");
    lemma_stamp(date, second);
    let bare = stamp(date, second);
    let time = given_time(date, second, repeated);
    if repeated {
        if has_suffix(time, "_dst"@) {
            assert(time.subrange(time.len() - 4, time.len() as int)[0] == "_dst"@[0]);
            assert(time[time.len() - 4] == bare.last());
        }
        assert(time.subrange(time.len() - 3, time.len() as int) =~= "dst"@);
        assert(time.subrange(0, time.len() - 3) =~= bare);
    } else {
        if has_suffix(time, "_dst"@) {
            assert(time.subrange(time.len() - 4, time.len() as int)[3] == "_dst"@[3]);
        }
        if has_suffix(time, "dst"@) {
            assert(time.subrange(time.len() - 3, time.len() as int)[2] == "dst"@[2]);
        }
    }
}

/// The names of the classes: no underscore, and no two alike.
proof fn lemma_kind_texts(a: SnapshotKind, b: SnapshotKind)
    ensures
        a.text().len() > 0,
        forall|i: int| 0 <= i < a.text().len() ==> #[trigger] a.text()[i] != '_',
        all_safe(a.text()),
        a != b && a.text().len() == b.text().len() ==> a.text()[0] != b.text()[0],
{
    reveal_strlit("frequently");
    reveal_strlit("hourly");
    reveal_strlit("daily");
    reveal_strlit("weekly");
    reveal_strlit("monthly");
    reveal_strlit("yearly");
}

/// A text ends in at most one class.
proof fn lemma_one_kind(s: Seq<char>, a: SnapshotKind, b: SnapshotKind)
    requires
        has_suffix(s, "_"@ + a.text()),
        has_suffix(s, "_"@ + b.text()),
    ensures
        a == b,
{
    reveal_strlit("_");
    lemma_kind_texts(a, b);
    lemma_kind_texts(b, a);
    let x = "_"@ + a.text();
    let y = "_"@ + b.text();
    let p = s.len() - x.len();
    let q = s.len() - y.len();
    assert(s.subrange(p, s.len() as int)[0] == x[0]);
    assert(s.subrange(q, s.len() as int)[0] == y[0]);
    assert(s[p] == '_' && s[q] == '_');
    if p < q {
        assert(s.subrange(p, s.len() as int)[q - p] == x[q - p]);
        assert(x[q - p] == a.text()[q - p - 1]);
    } else if q < p {
        assert(s.subrange(q, s.len() as int)[p - q] == y[p - q]);
        assert(y[p - q] == b.text()[p - q - 1]);
    } else if a != b {
        assert(s.subrange(p, s.len() as int)[1] == x[1]);
        assert(s.subrange(q, s.len() as int)[1] == y[1]);
        assert(x[1] == a.text()[0]);
        assert(y[1] == b.text()[0]);
    }
}

/// The rest of a name that ends in a class after a time.
pub open spec fn rest_of_name(date: (int, int, int), second: int, repeated: bool, kind: SnapshotKind) -> Seq<
    char,
> {
    given_time(date, second, repeated) + ("_"@ + kind.text())
}

proof fn lemma_rest_ends(date: (int, int, int), second: int, repeated: bool, kind: SnapshotKind)
    ensures
        drop_suffix(rest_of_name(date, second, repeated, kind), "_"@ + kind.text()) == Some(
            given_time(date, second, repeated),
        ),
{
    let rest = rest_of_name(date, second, repeated, kind);
    let suffix = "_"@ + kind.text();
    assert(rest.subrange(rest.len() - suffix.len(), rest.len() as int) =~= suffix);
    assert(rest.subrange(0, rest.len() - suffix.len()) =~= given_time(date, second, repeated));
}

/// The class that the rest of a name ends in.
fn kind_of_rest(rest: &str) -> (res: Option<SnapshotKind>)
    ensures
        res == kind_from(rest@, 0),
        forall|date: (int, int, int), second: int, repeated: bool, kind: SnapshotKind|
            is_usual(date, second) && rest@ == #[trigger] rest_of_name(
                date,
                second,
                repeated,
                kind,
            ) ==> res == Some(kind),
{
    let mut i: usize = 0;
    while i < 6
        invariant
            i <= 6,
            all_kinds().len() == 6,
            kind_from(rest@, 0) == kind_from(rest@, i as int),
            forall|date: (int, int, int), second: int, repeated: bool, kind: SnapshotKind, j: int|
                #![trigger rest_of_name(date, second, repeated, kind), all_kinds()[j]]
                is_usual(date, second) && rest@ == rest_of_name(date, second, repeated, kind) && 0
                    <= j < i ==> kind != all_kinds()[j],
        decreases 6 - i,
    {
        let kind = SnapshotKind::ALL[i];
        assert(kind == all_kinds()[i as int]);
        let mut suffix = "_".to_owned();
        suffix.append(kind.as_str());
        proof {
            assert forall|
                date: (int, int, int),
                second: int,
                repeated: bool,
                other: SnapshotKind,
            |
                is_usual(date, second) && rest@ == #[trigger] rest_of_name(
                    date,
                    second,
                    repeated,
                    other,
                ) implies (has_suffix(rest@, suffix@) ==> other == kind) && (other == kind
                ==> drop_suffix(rest@, suffix@) == Some(given_time(date, second, repeated))
                && without_dst(given_time(date, second, repeated)) == stamp(date, second)) by {
                lemma_rest_ends(date, second, repeated, other);
                lemma_without_dst(date, second, repeated);
                if has_suffix(rest@, suffix@) {
                    lemma_one_kind(rest@, other, kind);
                }
            }
        }
        if let Some(time) = strip_suffix(rest, suffix.as_str()) {
            if parses_as_stamp(time_without_dst(time).as_str()) {
                return Some(kind);
            }
        }
        i += 1;
    }
    proof {
        assert forall|date: (int, int, int), second: int, repeated: bool, kind: SnapshotKind|
            is_usual(date, second) && rest@ == #[trigger] rest_of_name(
                date,
                second,
                repeated,
                kind,
            ) implies false by {
            let j: int = match kind {
                SnapshotKind::Yearly => 0,
                SnapshotKind::Monthly => 1,
                SnapshotKind::Weekly => 2,
                SnapshotKind::Daily => 3,
                SnapshotKind::Hourly => 4,
                SnapshotKind::Frequently => 5,
            };
            assert(all_kinds()[j] == kind);
        }
    }
    None
}

proof fn lemma_name_parts(
    prefix: Seq<char>,
    date: (int, int, int),
    second: int,
    repeated: bool,
    kind: SnapshotKind,
)
    requires
        all_safe(prefix),
        is_usual(date, second),
    ensures
        ({
            let name = snapshot_name(prefix, given_time(date, second, repeated), kind);
            let rest = rest_of_name(date, second, repeated, kind);
            &&& all_safe(name)
            &&& drop_prefix(name, prefix) == Some("_"@ + rest)
            &&& drop_prefix("_"@ + rest, "_"@) == Some(rest)
        }),
{
    reveal_strlit("");
    reveal_strlit("_");
    reveal_strlit("dst");
    let time = given_time(date, second, repeated);
    let name = snapshot_name(prefix, time, kind);
    let rest = rest_of_name(date, second, repeated, kind);
    lemma_stamp(date, second);
    lemma_kind_texts(kind, kind);
    lemma_safe_joins(stamp(date, second), "dst"@, ""@);
    assert(stamp(date, second) + "dst"@ + ""@ =~= stamp(date, second) + "dst"@);
    lemma_safe_joins(prefix, "_"@, time);
    lemma_safe_joins(prefix + "_"@ + time, "_"@, kind.text());
    assert(name =~= prefix + ("_"@ + rest));
    assert(name.subrange(0, prefix.len() as int) =~= prefix);
    assert(name.subrange(prefix.len() as int, name.len() as int) =~= "_"@ + rest);
    let tail = "_"@ + rest;
    assert(tail.subrange(0, 1) =~= "_"@);
    assert(tail.subrange(1, tail.len() as int) =~= rest);
}

proof fn lemma_kind_from(rest: Seq<char>, kind: SnapshotKind, i: int)
    requires
        is_of_kind(rest, kind),
        0 <= i <= all_kinds().len(),
        forall|j: int| 0 <= j < i ==> #[trigger] all_kinds()[j] != kind,
    ensures
        kind_from(rest, i) == Some(kind),
    decreases all_kinds().len() - i,
{
    if i < all_kinds().len() {
        let other = all_kinds()[i];
        if other != kind {
            if has_suffix(rest, "_"@ + other.text()) {
                lemma_one_kind(rest, kind, other);
            }
            lemma_kind_from(rest, kind, i + 1);
        }
    } else {
        match kind {
            SnapshotKind::Yearly => assert(all_kinds()[0] == kind),
            SnapshotKind::Monthly => assert(all_kinds()[1] == kind),
            SnapshotKind::Weekly => assert(all_kinds()[2] == kind),
            SnapshotKind::Daily => assert(all_kinds()[3] == kind),
            SnapshotKind::Hourly => assert(all_kinds()[4] == kind),
            SnapshotKind::Frequently => assert(all_kinds()[5] == kind),
        }
    }
}

/// The name that a snapshot of a class gets at a usual date is recognised as
/// one of that class, where the stamp of the date parses.
pub proof fn law_given_names_are_recognised(
    prefix: Seq<char>,
    date: (int, int, int),
    second: int,
    repeated: bool,
    kind: SnapshotKind,
)
    requires
        all_safe(prefix),
        is_usual(date, second),
        stamp_parses(stamp(date, second)),
    ensures
        kind_of(prefix, snapshot_name(prefix, given_time(date, second, repeated), kind)) == Some(
            kind,
        ),
{
    lemma_name_parts(prefix, date, second, repeated, kind);
    lemma_rest_ends(date, second, repeated, kind);
    lemma_without_dst(date, second, repeated);
    lemma_kind_from(rest_of_name(date, second, repeated, kind), kind, 0);
}

/// The class of a snapshot that its name gives. A name that a snapshot of a
/// class gets at a usual date is recognised as one of that class.
pub fn snapshot_kind(prefix: &str, name: &str) -> (res: Option<SnapshotKind>)
    ensures
        res == kind_of(prefix@, name@),
        forall|date: (int, int, int), second: int, repeated: bool, kind: SnapshotKind|
            all_safe(prefix@) && is_usual(date, second) && name@ == #[trigger] snapshot_name(
                prefix@,
                given_time(date, second, repeated),
                kind,
            ) ==> res == Some(kind),
{
    proof {
        assert forall|date: (int, int, int), second: int, repeated: bool, kind: SnapshotKind|
            all_safe(prefix@) && is_usual(date, second) && name@ == #[trigger] snapshot_name(
                prefix@,
                given_time(date, second, repeated),
                kind,
            ) implies {
            let rest = rest_of_name(date, second, repeated, kind);
            &&& all_safe(name@)
            &&& drop_prefix(name@, prefix@) == Some("_"@ + rest)
            &&& drop_prefix("_"@ + rest, "_"@) == Some(rest)
        } by {
            lemma_name_parts(prefix@, date, second, repeated, kind);
        }
    }
    if !has_only_safe_characters(name) {
        return None;
    }
    match strip_prefix(name, prefix) {
        Some(rest) => match strip_prefix(rest.as_str(), "_") {
            Some(rest) => kind_of_rest(rest.as_str()),
            None => None,
        },
        None => None,
    }
}

} // verus!
