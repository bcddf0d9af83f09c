//! What is read back of what was written: numerals, lists of fields, and the
//! lines of the listings.
use vstd::prelude::*;

use crate::calendar::stamp_parses;
use crate::census::lemma_pool;
use crate::environment::{assigned, assignment, directory, unquoted};
use crate::error::Fault;
use crate::model::all_kinds;
use crate::names::{increasing, lemma_put, lemma_with_name, lookup, names_of, put, with_name};
use crate::naming::{is_of_kind, kind_from, kind_of, snapshot_name, without_dst};
use crate::schedule::{latest, LocalTimes};
use crate::text::{all_digits, cut, cut_part, decimal, digits_value, drop_prefix, drop_run, drop_suffix, has_prefix, has_suffix, is_space, join, lemma_position, lines, lowercase, parse_signed, parse_unsigned, part_position, position, split, text_lt, trim, trim_end, trim_start};
use crate::webhook::{is_name_start, is_portable};
use crate::zfs::{asked_datasets, asked_pools, dataset_request, datasets_from, lemma_name_set, listed_datasets, missing_datasets, missing_from, name_set, pool_request, pool_row, pools_of, snapshot_columns, snapshot_request, snapshot_row, PoolModel, SnapshotModel};

verus! {

// ---------------------------------------------------------------------------
// Numerals
// ---------------------------------------------------------------------------

proof fn lemma_decimal(n: nat)
    ensures
        decimal(n).len() > 0,
        all_digits(decimal(n)),
        digits_value(decimal(n)) == n,
    decreases n,
{
    reveal_with_fuel(digits_value, 2);
    if n >= 10 {
        lemma_decimal(n / 10);
        assert(decimal(n).drop_last() =~= decimal(n / 10));
    } else {
        assert(decimal(n).drop_last() =~= Seq::<char>::empty());
    }
}

/// A numeral is read back as its number, with a minus sign as its negative,
/// unless the number is out of range.
pub proof fn law_numerals_are_read_back(n: nat, max: nat)
    ensures
        parse_unsigned(decimal(n), max) == if n <= max {
            Some(n)
        } else {
            None
        },
        n <= i64::MAX ==> parse_signed(decimal(n)) == Some(n as int),
        n <= 0x8000_0000_0000_0000 ==> parse_signed(seq!['-'] + decimal(n)) == Some(-(n as int)),
{
    lemma_decimal(n);
    assert(crate::text::is_digit(decimal(n)[0]));
    assert((seq!['-'] + decimal(n)).drop_first() =~= decimal(n));
}

/// Nothing but a numeral in range is read as a number: digits, at least one, behind
/// a sign or none.
pub proof fn law_only_numerals_are_numbers(s: Seq<char>, max: nat)
    ensures
        parse_unsigned(s, max) matches Some(n) ==> n <= max && s.len() > 0 && all_digits(
            s.skip(1),
        ) && (crate::text::is_digit(s[0]) || s[0] == '+' && s.len() > 1),
        parse_signed(s) matches Some(n) ==> i64::MIN <= n <= i64::MAX && s.len() > 0 && all_digits(
            s.skip(1),
        ) && (crate::text::is_digit(s[0]) || (s[0] == '+' || s[0] == '-') && s.len() > 1) && (n
            < 0 ==> s[0] == '-'),
{
    assert(s.len() > 0 ==> s.drop_first() =~= s.skip(1));
}

// ---------------------------------------------------------------------------
// Fields
// ---------------------------------------------------------------------------

proof fn lemma_position_at(s: Seq<char>, c: char, p: int)
    requires
        0 <= p < s.len(),
        s[p] == c,
        forall|i: int| 0 <= i < p ==> s[i] != c,
    ensures
        position(s, c) == p,
{
    lemma_position(s, c);
}

/// The first field and the rest.
proof fn lemma_split_first(first: Seq<char>, rest: Seq<char>, c: char)
    requires
        !first.contains(c),
    ensures
        split(first.push(c) + rest, c) == seq![first] + split(rest, c),
        cut(first.push(c) + rest, c) == Some((first, rest)),
{
    let s = first.push(c) + rest;
    assert forall|i: int| 0 <= i < first.len() implies s[i] != c by {
        assert(s[i] == first[i]);
        assert(first.contains(first[i]));
    }
    lemma_position_at(s, c, first.len() as int);
    assert(s.take(first.len() as int) =~= first);
    assert(s.skip(first.len() as int + 1) =~= rest);
}

proof fn lemma_split_last(last: Seq<char>, c: char)
    requires
        !last.contains(c),
    ensures
        split(last, c) == seq![last],
{
    lemma_position(last, c);
}

/// Whether no part of a list holds a character.
pub open spec fn none_holds(parts: Seq<Seq<char>>, c: char) -> bool {
    forall|i: int| 0 <= i < parts.len() ==> !(#[trigger] parts[i]).contains(c)
}

proof fn lemma_join_first(parts: Seq<Seq<char>>, sep: Seq<char>)
    requires
        parts.len() > 1,
    ensures
        join(parts, sep) == parts[0] + sep + join(parts.drop_first(), sep),
    decreases parts.len(),
{
    let rest = parts.drop_first();
    if parts.len() == 2 {
        assert(parts.drop_last().len() == 1);
        assert(join(parts.drop_last(), sep) == parts[0]);
        assert(join(rest, sep) == parts.last());
    } else {
        lemma_join_first(parts.drop_last(), sep);
        assert(parts.drop_last().drop_first() =~= rest.drop_last());
        assert(rest.last() == parts.last());
        assert(parts.drop_last()[0] == parts[0]);
        assert(join(parts, sep) =~= parts[0] + sep + join(rest, sep));
    }
}

/// Parts that do not hold the separator are told apart again once joined.
pub proof fn law_joined_parts_are_told_apart(parts: Seq<Seq<char>>, c: char)
    requires
        parts.len() > 0,
        none_holds(parts, c),
    ensures
        split(join(parts, seq![c]), c) == parts,
    decreases parts.len(),
{
    assert(!parts[0].contains(c));
    if parts.len() == 1 {
        lemma_split_last(parts[0], c);
        assert(parts =~= seq![parts[0]]);
    } else {
        let rest = parts.drop_first();
        assert forall|i: int| 0 <= i < rest.len() implies !(#[trigger] rest[i]).contains(c) by {
            assert(rest[i] == parts[i + 1]);
        }
        law_joined_parts_are_told_apart(rest, c);
        lemma_join_first(parts, seq![c]);
        assert(parts[0] + seq![c] + join(rest, seq![c]) =~= parts[0].push(c) + join(
            rest,
            seq![c],
        ));
        lemma_split_first(parts[0], join(rest, seq![c]), c);
        assert(seq![parts[0]] + rest =~= parts);
    }
}

proof fn lemma_split_parts(s: Seq<char>, c: char)
    ensures
        split(s, c).len() > 0,
        none_holds(split(s, c), c),
        join(split(s, c), seq![c]) == s,
    decreases s.len(),
{
    lemma_position(s, c);
    let p = position(s, c);
    let parts = split(s, c);
    if p < s.len() {
        let rest = s.skip(p + 1);
        lemma_split_parts(rest, c);
        assert(parts.drop_first() =~= split(rest, c));
        assert(parts[0] == s.take(p));
        assert forall|i: int| 0 <= i < parts.len() implies !(#[trigger] parts[i]).contains(c) by {
            if i == 0 {
                if parts[0].contains(c) {
                    let k = parts[0].index_of(c);
                    assert(s[k] == c);
                }
            } else {
                assert(parts[i] == split(rest, c)[i - 1]);
            }
        }
        lemma_join_first(parts, seq![c]);
        assert(parts[0] + seq![c] + rest =~= s);
    } else {
        assert(parts[0] == s);
    }
}

/// The parts of a text between its separators hold none of them, and joined
/// they are the text.
pub proof fn law_parts_make_up_the_text(s: Seq<char>, c: char)
    ensures
        split(s, c).len() > 0,
        none_holds(split(s, c), c),
        join(split(s, c), seq![c]) == s,
{
    lemma_split_parts(s, c);
}

// ---------------------------------------------------------------------------
// White space
// ---------------------------------------------------------------------------

pub open spec fn all_space(s: Seq<char>) -> bool {
    forall|i: int| 0 <= i < s.len() ==> is_space(#[trigger] s[i])
}

/// Whether a text neither starts nor ends with white space.
pub open spec fn is_tight(s: Seq<char>) -> bool {
    s.len() > 0 ==> !is_space(s[0]) && !is_space(s.last())
}

proof fn lemma_trim_start(before: Seq<char>, s: Seq<char>)
    requires
        all_space(before),
        s.len() > 0 ==> !is_space(s[0]),
    ensures
        trim_start(before + s) == s,
    decreases before.len(),
{
    if before.len() > 0 {
        assert((before + s)[0] == before[0]);
        assert((before + s).drop_first() =~= before.drop_first() + s);
        lemma_trim_start(before.drop_first(), s);
    } else {
        assert(before + s =~= s);
    }
}

proof fn lemma_trim_end(s: Seq<char>, after: Seq<char>)
    requires
        all_space(after),
        s.len() > 0 ==> !is_space(s.last()),
    ensures
        trim_end(s + after) == s,
    decreases after.len(),
{
    if after.len() > 0 {
        assert((s + after).last() == after.last());
        assert((s + after).drop_last() =~= s + after.drop_last());
        lemma_trim_end(s, after.drop_last());
    } else {
        assert(s + after =~= s);
    }
}

proof fn lemma_all_space_end(s: Seq<char>)
    requires
        all_space(s),
    ensures
        trim_start(s) == Seq::<char>::empty(),
    decreases s.len(),
{
    if s.len() > 0 {
        lemma_all_space_end(s.drop_first());
    } else {
        assert(s =~= Seq::<char>::empty());
    }
}

/// Trimming takes away the white space around a text and nothing else.
pub proof fn law_trimming_takes_away_white_space(
    before: Seq<char>,
    s: Seq<char>,
    after: Seq<char>,
)
    requires
        all_space(before),
        all_space(after),
        is_tight(s),
    ensures
        trim(before + s + after) == s,
{
    if s.len() > 0 {
        assert(before + s + after =~= before + (s + after));
        assert((s + after)[0] == s[0]);
        lemma_trim_start(before, s + after);
        lemma_trim_end(s, after);
    } else {
        assert(before + s + after =~= before + after);
        lemma_all_space_end(before + after);
        assert(s =~= Seq::<char>::empty());
    }
}

pub proof fn lemma_tight(s: Seq<char>)
    requires
        is_tight(s),
    ensures
        trim(s) == s,
{
    let none = Seq::<char>::empty();
    law_trimming_takes_away_white_space(none, s, none);
    assert(none + s + none =~= s);
}

// ---------------------------------------------------------------------------
// Listings
// ---------------------------------------------------------------------------

/// The numeral of a creation time.
pub open spec fn time_text(created: i64) -> Seq<char> {
    if created < 0 {
        seq!['-'] + decimal((-created) as nat)
    } else {
        decimal(created as nat)
    }
}

/// A line of a snapshot listing.
pub open spec fn snapshot_line(
    dataset: Seq<char>,
    name: Seq<char>,
    created: i64,
    mark: Seq<char>,
    user_holds: u64,
    clones: Seq<char>,
) -> Seq<char> {
    join(
        seq![
            dataset.push('@') + name,
            time_text(created),
            mark,
            decimal(user_holds as nat),
            clones,
        ],
        seq!['\t'],
    )
}

proof fn lemma_digits_hold_no_tab(s: Seq<char>)
    requires
        all_digits(s),
    ensures
        !s.contains('\t'),
{
    if s.contains('\t') {
        assert(crate::text::is_digit(s[s.index_of('\t')]));
    }
}

proof fn lemma_mark(mark: Seq<char>)
    requires
        mark == "yes"@ || mark == "-"@ || mark == "no"@,
    ensures
        crate::zfs::is_affirmative(lowercase(trim(mark))) <==> mark == "yes"@,
        !mark.contains('\t'),
{
    reveal_strlit("yes");
    reveal_strlit("-");
    reveal_strlit("no");
    reveal_strlit("1");
    reveal_strlit("true");
    reveal_strlit("on");
    lemma_tight(mark);
    assert(lowercase(mark) =~= mark);
    assert("on"@[0] == 'o' && "no"@[0] == 'n' && "1"@[0] == '1' && "-"@[0] == '-');
    assert("true"@.len() == 4 && "yes"@.len() == 3 && "no"@.len() == 2);
    if mark.contains('\t') {
        let i = mark.index_of('\t');
        assert(mark[i] == '\t');
    }
}

/// A line of the snapshot listing says what it was written from: the dataset up
/// to the first at sign and the name behind it, the time of creation, the mark
/// that snapshots are taken with, the number of holds, and whether there are
/// clones, which a dash or nothing denies.
pub proof fn law_snapshot_lines_are_read_back(
    dataset: Seq<char>,
    name: Seq<char>,
    created: i64,
    mark: Seq<char>,
    user_holds: u64,
    clones: Seq<char>,
    at: nat,
)
    requires
        !dataset.contains('@'),
        !dataset.contains('\t'),
        !name.contains('\t'),
        mark == "yes"@ || mark == "-"@ || mark == "no"@,
        !clones.contains('\t'),
        is_tight(clones),
    ensures
        snapshot_row(snapshot_line(dataset, name, created, mark, user_holds, clones), at) == Ok::<
            (Seq<char>, SnapshotModel),
            Fault,
        >(
            (
                dataset.push('@') + name,
                SnapshotModel {
                    dataset,
                    name,
                    created,
                    managed: mark == "yes"@,
                    user_holds,
                    has_clones: clones.len() > 0 && clones != "-"@,
                },
            ),
        ),
{
    let full = dataset.push('@') + name;
    let parts = seq![full, time_text(created), mark, decimal(user_holds as nat), clones];
    lemma_mark(mark);
    lemma_decimal(user_holds as nat);
    lemma_digits_hold_no_tab(decimal(user_holds as nat));
    let size: nat = if created < 0 {
        (-created) as nat
    } else {
        created as nat
    };
    lemma_decimal(size);
    lemma_digits_hold_no_tab(decimal(size));
    law_numerals_are_read_back(size, size);
    law_numerals_are_read_back(user_holds as nat, u64::MAX as nat);
    if time_text(created).contains('\t') {
        let i = time_text(created).index_of('\t');
        if created < 0 {
            if i > 0 {
                assert(decimal(size)[i - 1] == '\t');
            }
        }
    }
    if full.contains('\t') {
        let i = full.index_of('\t');
        if i < dataset.len() {
            assert(dataset[i] == '\t');
        } else if i > dataset.len() {
            assert(name[i - dataset.len() - 1] == '\t');
        }
    }
    assert(none_holds(parts, '\t'));
    law_joined_parts_are_told_apart(parts, '\t');
    lemma_split_first(dataset, name, '@');
    lemma_tight(clones);
    reveal_strlit("");
    assert(clones == ""@ <==> clones.len() == 0) by {
        if clones.len() == 0 {
            assert(clones =~= ""@);
        }
    }
}

/// A line of the snapshot listing has five fields: a full name, a time, a mark, a
/// number of holds and the clones. Any other line is refused. The mark stands for
/// yes in any case of its letters.
pub proof fn law_other_snapshot_lines_are_refused(line: Seq<char>, at: nat)
    ensures
        snapshot_row(line, at) is Ok <==> split(line, '\t').len() == 5 && split(
            line,
            '\t',
        )[0].contains('@') && parse_signed(split(line, '\t')[1]) is Some && parse_unsigned(
            split(line, '\t')[3],
            u64::MAX as nat,
        ) is Some,
        snapshot_row(line, at) matches Ok(row) ==> ({
            let word = lowercase(trim(split(line, '\t')[2]));
            row.1.managed <==> word == "yes"@ || word == "true"@ || word == "on"@ || word == "1"@
        }),
{
    let field = split(line, '\t')[0];
    lemma_position(field, '@');
    if field.contains('@') {
        assert(field[field.index_of('@')] == '@');
    }
}

/// A line of the pool listing has two fields, the second of them a number of at most
/// a hundred. Any other line is refused.
pub proof fn law_other_pool_lines_are_refused(line: Seq<char>, at: nat)
    ensures
        pool_row(line, at) matches Ok(pool) ==> split(line, '\t').len() == 2 && pool.name == split(
            line,
            '\t',
        )[0] && pool.capacity_percent <= 100,
        split(line, '\t').len() == 2 && parse_unsigned(split(line, '\t')[1], 100) is Some
            && is_tight(split(line, '\t')[1]) && split(line, '\t')[1].last() != '%' ==> pool_row(
            line,
            at,
        ) is Ok,
{
    if split(line, '\t').len() == 2 {
        let text = split(line, '\t')[1];
        if is_tight(text) && parse_unsigned(text, 100) is Some && text.last() != '%' {
            lemma_tight(text);
            assert(drop_run(text, '%') == text);
        }
    }
}

/// A line of the pool listing says what it was written from: a name and a
/// capacity in per cent, with or without the sign for it. More than a hundred
/// per cent is refused.
pub proof fn law_pool_lines_are_read_back(name: Seq<char>, capacity: u8, signed: bool, at: nat)
    requires
        !name.contains('\t'),
    ensures
        ({
            let tail = if signed {
                seq!['%']
            } else {
                Seq::empty()
            };
            let row = pool_row(
                join(seq![name, decimal(capacity as nat) + tail], seq!['\t']),
                at,
            );
            if capacity <= 100 {
                row == Ok::<PoolModel, Fault>(PoolModel { name, capacity_percent: capacity })
            } else {
                row is Err
            }
        }),
{
    let digits = decimal(capacity as nat);
    let tail = if signed {
        seq!['%']
    } else {
        Seq::empty()
    };
    let text = digits + tail;
    let parts = seq![name, text];
    lemma_decimal(capacity as nat);
    law_numerals_are_read_back(capacity as nat, 255);
    if text.contains('\t') {
        let i = text.index_of('\t');
        if i < digits.len() {
            assert(crate::text::is_digit(digits[i]));
        }
    }
    assert(none_holds(parts, '\t'));
    law_joined_parts_are_told_apart(parts, '\t');
    assert(crate::text::is_digit(digits[0]) && crate::text::is_digit(digits.last()));
    assert(text[0] == digits[0]);
    assert(is_tight(text));
    lemma_tight(text);
    reveal_with_fuel(drop_run, 3);
    assert(drop_run(digits, '%') == digits);
    if signed {
        assert(text.drop_last() =~= digits);
    } else {
        assert(text =~= digits);
    }
}

/// The error of a dataset listing is owed to a line that is not a dataset.
pub open spec fn is_odd(line: Seq<char>) -> bool {
    trim(line).contains('@') || trim(line).contains('\t')
}

proof fn lemma_datasets_from(
    listing: Seq<Seq<char>>,
    i: int,
    found: Seq<Seq<char>>,
    name: Seq<char>,
)
    requires
        0 <= i <= listing.len(),
        increasing(found),
    ensures
        match datasets_from(listing, i, found) {
            Err(_) => exists|j: int| i <= j < listing.len() && is_odd(#[trigger] listing[j]),
            Ok(all) => {
                &&& forall|j: int| i <= j < listing.len() ==> !is_odd(#[trigger] listing[j])
                &&& increasing(all)
                &&& all.contains(name) <==> found.contains(name) || (name.len() > 0 && exists|j: int|
                    i <= j < listing.len() && trim(#[trigger] listing[j]) == name)
            },
        },
    decreases listing.len() - i,
{
    if i < listing.len() {
        let text = trim(listing[i]);
        if text.len() == 0 {
            lemma_datasets_from(listing, i + 1, found, name);
            assert(!is_odd(listing[i]));
        } else if !is_odd(listing[i]) {
            lemma_with_name(found, text);
            lemma_datasets_from(listing, i + 1, with_name(found, text), name);
        }
    }
}

/// A dataset listing gives the names on its lines, without the white space around
/// them, each once and in order. It is refused exactly where a line holds a
/// snapshot or more than one field.
pub proof fn law_dataset_listings_are_read(output: Seq<char>, name: Seq<char>)
    ensures
        match listed_datasets(output) {
            Err(_) => exists|j: int|
                0 <= j < lines(output).len() && is_odd(#[trigger] lines(output)[j]),
            Ok(all) => {
                &&& forall|j: int|
                    0 <= j < lines(output).len() ==> !is_odd(#[trigger] lines(output)[j])
                &&& increasing(all)
                &&& all.contains(name) <==> name.len() > 0 && exists|j: int|
                    0 <= j < lines(output).len() && trim(#[trigger] lines(output)[j]) == name
            },
        },
{
    lemma_datasets_from(lines(output), 0, Seq::empty(), name);
}

/// Whether arguments hold an option with its value behind it.
pub open spec fn has_option(
    arguments: Seq<Seq<char>>,
    option: Seq<char>,
    value: Seq<char>,
) -> bool {
    exists|i: int|
        0 <= i < arguments.len() - 1 && #[trigger] arguments[i] == option && arguments[i + 1]
            == value
}

/// Whether arguments end in names, each once and in order.
pub open spec fn ends_in(arguments: Seq<Seq<char>>, options: int, names: Seq<Seq<char>>) -> bool {
    &&& arguments.len() == options + names.len()
    &&& arguments.skip(options) == names
    &&& increasing(names)
}

/// Discovery asks for everything at once: the configured datasets with all that is
/// below them, filesystems and volumes; their snapshots with the columns in the
/// order in which their lines are read; and their pools with the capacity. All of
/// it comes without headings and in exact numbers.
pub proof fn law_discovery_asks_for_everything(configured: Seq<Seq<char>>, name: Seq<char>)
    ensures
        ({
            let datasets = dataset_request(configured);
            let snapshots = snapshot_request(configured);
            let pools = pool_request(configured);
            &&& datasets[0] == "list"@ && snapshots[0] == "list"@ && pools[0] == "list"@
            &&& datasets.contains("-H"@) && snapshots.contains("-H"@) && pools.contains("-H"@)
            &&& datasets.contains("-p"@) && snapshots.contains("-p"@) && pools.contains("-p"@)
            &&& datasets.contains("-r"@) && snapshots.contains("-r"@)
            &&& has_option(datasets, "-t"@, "filesystem,volume"@)
            &&& has_option(datasets, "-o"@, "name"@)
            &&& has_option(snapshots, "-t"@, "snapshot"@)
            &&& has_option(snapshots, "-o"@, "name,creation,org.zsnap:managed,userrefs,clones"@)
            &&& has_option(pools, "-o"@, "name,capacity"@)
            &&& ends_in(datasets, 8, asked_datasets(configured))
            &&& ends_in(snapshots, 8, asked_datasets(configured))
            &&& ends_in(pools, 5, asked_pools(configured))
            &&& asked_datasets(configured).contains(name) <==> configured.contains(name)
            &&& asked_pools(configured).contains(name) <==> exists|i: int|
                0 <= i < configured.len() && name == (#[trigger] configured[i]).take(
                    position(configured[i], '/'),
                )
        }),
{
    let datasets = dataset_request(configured);
    let snapshots = snapshot_request(configured);
    let pools = pool_request(configured);
    let n = configured.len() as int;
    let all = asked_datasets(configured);
    let owners = pools_of(all);
    lemma_name_set(configured, n);
    assert(configured.take(n) =~= configured);
    lemma_name_set(owners, owners.len() as int);
    assert(owners.take(owners.len() as int) =~= owners);
    reveal_strlit("name,creation,");
    reveal_strlit("org.zsnap:managed");
    reveal_strlit(",userrefs,clones");
    reveal_strlit("name,creation,org.zsnap:managed,userrefs,clones");
    assert(snapshot_columns() =~= "name,creation,org.zsnap:managed,userrefs,clones"@);
    assert(datasets[1] == "-H"@ && datasets[2] == "-p"@ && datasets[3] == "-r"@ && datasets[4]
        == "-t"@ && datasets[5] == "filesystem,volume"@ && datasets[6] == "-o"@ && datasets[7]
        == "name"@);
    assert(snapshots[1] == "-H"@ && snapshots[2] == "-p"@ && snapshots[3] == "-r"@ && snapshots[4]
        == "-t"@ && snapshots[5] == "snapshot"@ && snapshots[6] == "-o"@ && snapshots[7]
        == snapshot_columns());
    assert(pools[1] == "-H"@ && pools[2] == "-p"@ && pools[3] == "-o"@ && pools[4]
        == "name,capacity"@);
    assert(datasets.skip(8) =~= all);
    assert(snapshots.skip(8) =~= all);
    assert(pools.skip(5) =~= asked_pools(configured));
    if owners.contains(name) {
        let k = owners.index_of(name);
        lemma_pool(all[k]);
        assert(all.contains(all[k]));
        let i = configured.index_of(all[k]);
        assert(configured[i] == all[k]);
    }
    if exists|i: int|
        0 <= i < configured.len() && name == (#[trigger] configured[i]).take(
            position(configured[i], '/'),
        ) {
        let i = choose|i: int|
            0 <= i < configured.len() && name == (#[trigger] configured[i]).take(
                position(configured[i], '/'),
            );
        lemma_pool(configured[i]);
        assert(configured.contains(configured[i]));
        assert(name_set(configured, n).contains(configured[i]));
        let k = all.index_of(configured[i]);
        assert(all[k] == configured[i]);
        assert(owners[k] == name);
    }
}

/// A line of the diagnostic about one dataset that is missing.
pub open spec fn missing_line(dataset: Seq<char>, reason: Seq<char>) -> Seq<char> {
    "cannot open '"@ + dataset + "': "@ + reason
}

proof fn lemma_first_part(before: Seq<char>, part: Seq<char>, after: Seq<char>)
    requires
        part.len() > 0,
        !before.contains(part[0]),
    ensures
        part_position(before + part + after, part) == before.len(),
    decreases before.len(),
{
    let s = before + part + after;
    if before.len() > 0 {
        assert(s[0] == before[0]);
        assert(before.contains(before[0]));
        if has_prefix(s, part) {
            assert(s.take(part.len() as int)[0] == part[0]);
        }
        let shorter = before.drop_first();
        if shorter.contains(part[0]) {
            assert(before[shorter.index_of(part[0]) + 1] == part[0]);
        }
        lemma_first_part(shorter, part, after);
        assert(s.drop_first() =~= shorter + part + after);
    } else {
        assert(s.take(part.len() as int) =~= part);
    }
}

proof fn lemma_missing_line(dataset: Seq<char>, reason: Seq<char>)
    requires
        !dataset.contains('\''),
    ensures
        drop_prefix(missing_line(dataset, reason), "cannot open '"@) == Some(
            dataset + "': "@ + reason,
        ),
        cut_part(dataset + "': "@ + reason, "': "@) == Some((dataset, reason)),
{
    reveal_strlit("': ");
    assert("': "@.len() == 3 && "': "@[0] == '\'');
    let line = missing_line(dataset, reason);
    let start = "cannot open '"@;
    let rest = dataset + "': "@ + reason;
    assert(line =~= start + rest);
    assert(line.take(start.len() as int) =~= start);
    assert(line.skip(start.len() as int) =~= rest);
    lemma_first_part(dataset, "': "@, reason);
    assert(rest.take(dataset.len() as int) =~= dataset);
    assert(rest.skip((dataset.len() + 3) as int) =~= reason);
}

/// Whether a line of a diagnostic says that a dataset is missing, and no more.
pub open spec fn reports_missing(line: Seq<char>, dataset: Seq<char>) -> bool {
    &&& dataset.len() > 0
    &&& !dataset.contains('\'')
    &&& trim(line) == missing_line(dataset, "dataset does not exist"@) || trim(line)
        == missing_line(dataset, "no such pool"@)
}

proof fn lemma_missing_from(
    diagnostic: Seq<Seq<char>>,
    i: int,
    found: Seq<Seq<char>>,
    names: Seq<Seq<char>>,
    name: Seq<char>,
)
    requires
        0 <= i <= diagnostic.len(),
        diagnostic.len() == names.len(),
        increasing(found),
        forall|j: int|
            0 <= j < names.len() ==> reports_missing(#[trigger] diagnostic[j], names[j]),
    ensures
        missing_from(diagnostic, i, found) matches Some(all) && increasing(all) && (all.contains(
            name,
        ) <==> found.contains(name) || exists|j: int|
            i <= j < names.len() && #[trigger] names[j] == name),
    decreases diagnostic.len() - i,
{
    if i < diagnostic.len() {
        let dataset = names[i];
        assert(reports_missing(diagnostic[i], names[i]));
        lemma_missing_line(dataset, "dataset does not exist"@);
        lemma_missing_line(dataset, "no such pool"@);
        reveal_strlit("cannot open '");
        assert(trim(diagnostic[i]).len() > 0);
        lemma_with_name(found, dataset);
        lemma_missing_from(diagnostic, i + 1, with_name(found, dataset), names, name);
    }
}

/// A diagnostic that says of some datasets that they are missing, one on each line,
/// and nothing else, is read as the set of these datasets.
pub proof fn law_missing_datasets_are_recognised(
    stderr: Seq<char>,
    names: Seq<Seq<char>>,
    name: Seq<char>,
)
    requires
        names.len() > 0,
        lines(stderr).len() == names.len(),
        forall|j: int|
            0 <= j < names.len() ==> reports_missing(#[trigger] lines(stderr)[j], names[j]),
    ensures
        missing_datasets(stderr) matches Some(all) && increasing(all) && (all.contains(name)
            <==> names.contains(name)),
{
    lemma_missing_from(lines(stderr), 0, Seq::empty(), names, name);
    lemma_missing_from(lines(stderr), 0, Seq::empty(), names, names[0]);
    let all = missing_from(lines(stderr), 0, Seq::empty())->0;
    assert(all.contains(names[0]));
}

proof fn lemma_part_found(s: Seq<char>, part: Seq<char>)
    requires
        part_position(s, part) + part.len() <= s.len(),
    ensures
        0 <= part_position(s, part),
        s == s.take(part_position(s, part)) + part + s.skip(part_position(s, part) + part.len()),
    decreases s.len(),
{
    let p = part_position(s, part);
    if has_prefix(s, part) {
        assert(s =~= s.take(0) + s.take(part.len() as int) + s.skip(part.len() as int));
    } else {
        let rest = s.drop_first();
        lemma_part_found(rest, part);
        assert(seq![s[0]] + rest.take(p - 1) =~= s.take(p));
        assert(rest.skip(p - 1 + part.len()) =~= s.skip(p + part.len()));
        assert(s =~= seq![s[0]] + rest);
        assert(s =~= s.take(p) + part + s.skip(p + part.len()));
    }
}

/// Whether a line of a diagnostic says of some dataset that it is missing.
pub open spec fn reports_some_missing(line: Seq<char>) -> bool {
    exists|dataset: Seq<char>| #[trigger]
        missing_line(dataset, "dataset does not exist"@) == line || missing_line(
            dataset,
            "no such pool"@,
        ) == line
}

proof fn lemma_missing_is_reported(
    diagnostic: Seq<Seq<char>>,
    i: int,
    found: Seq<Seq<char>>,
    j: int,
)
    requires
        0 <= i <= j < diagnostic.len(),
        missing_from(diagnostic, i, found) is Some,
        trim(diagnostic[j]).len() > 0,
    ensures
        reports_some_missing(trim(diagnostic[j])),
    decreases diagnostic.len() - i,
{
    let line = trim(diagnostic[i]);
    if i < j {
        if line.len() == 0 {
            lemma_missing_is_reported(diagnostic, i + 1, found, j);
        } else {
            let rest = drop_prefix(line, "cannot open '"@)->0;
            let (dataset, _) = cut_part(rest, "': "@)->0;
            lemma_missing_is_reported(diagnostic, i + 1, with_name(found, dataset), j);
        }
    } else {
        let rest = drop_prefix(line, "cannot open '"@)->0;
        let (dataset, reason) = cut_part(rest, "': "@)->0;
        lemma_part_found(rest, "': "@);
        assert(line =~= "cannot open '"@ + rest);
        assert("cannot open '"@ + rest =~= missing_line(dataset, reason));
        assert(missing_line(dataset, "dataset does not exist"@) == line || missing_line(
            dataset,
            "no such pool"@,
        ) == line);
    }
}

/// A diagnostic with a line that says anything else is not taken for a list of
/// missing datasets.
pub proof fn law_other_diagnostics_stand(stderr: Seq<char>, j: int)
    requires
        0 <= j < lines(stderr).len(),
        trim(lines(stderr)[j]).len() > 0,
        !reports_some_missing(trim(lines(stderr)[j])),
    ensures
        missing_datasets(stderr) is None,
{
    if missing_datasets(stderr) is Some {
        lemma_missing_is_reported(lines(stderr), 0, Seq::empty(), j);
    }
}

// ---------------------------------------------------------------------------
// Environment files
// ---------------------------------------------------------------------------

proof fn lemma_portable(name: Seq<char>)
    requires
        is_portable(name),
    ensures
        name.len() > 0,
        is_tight(name),
        !name.contains('='),
        name[0] != '#',
{
    assert(is_name_start(name[0]));
    if name.contains('=') {
        let i = name.index_of('=');
        assert(name[i] == '=');
    }
}

/// An assignment is read back with its value, whatever white space stands around
/// it, whether its value stands in quotes or, where neither quotes nor white space
/// are at its ends, by itself. A line that starts with a hash assigns nothing.
pub proof fn law_assignments_are_read_back(
    before: Seq<char>,
    name: Seq<char>,
    value: Seq<char>,
    quote: char,
    after: Seq<char>,
)
    requires
        all_space(before),
        all_space(after),
        is_portable(name),
        quote == '"' || quote == '\'',
    ensures
        assignment(before + (name.push('=') + seq![quote] + value + seq![quote]) + after) == Some(
            (name, value),
        ),
        is_tight(value) && value.len() > 0 && value[0] != '"' && value[0] != '\'' ==> assignment(
            before + (name.push('=') + value) + after,
        ) == Some((name, value)),
        assignment(before + (seq!['#'] + name.push('=') + seq![quote] + value + seq![quote]) + after)
            is None,
{
    reveal_strlit("#");
    assert("#"@.len() == 1 && "#"@[0] == '#');
    lemma_portable(name);
    lemma_tight(name);
    let inner = seq![quote] + value + seq![quote];
    let text = name.push('=') + seq![quote] + value + seq![quote];
    assert(text =~= name.push('=') + inner);
    assert(text[0] == name[0]);
    law_trimming_takes_away_white_space(before, text, after);
    assert(!has_prefix(text, "#"@)) by {
        if has_prefix(text, "#"@) {
            assert(text.take(1)[0] == '#');
        }
    }
    lemma_split_first(name, inner, '=');
    lemma_tight(inner);
    assert(unquoted(inner) =~= value);
    if is_tight(value) && value.len() > 0 && value[0] != '"' && value[0] != '\'' {
        let bare = name.push('=') + value;
        assert(bare[0] == name[0]);
        assert(bare.last() == value.last());
        law_trimming_takes_away_white_space(before, bare, after);
        assert(!has_prefix(bare, "#"@)) by {
            if has_prefix(bare, "#"@) {
                assert(bare.take(1)[0] == '#');
            }
        }
        lemma_split_first(name, value, '=');
        lemma_tight(value);
    }
    let remark = seq!['#'] + name.push('=') + seq![quote] + value + seq![quote];
    law_trimming_takes_away_white_space(before, remark, after);
    assert(remark.take(1) =~= "#"@);
}

/// Whether a line assigns to a variable.
pub open spec fn assigns(line: Seq<char>, name: Seq<char>) -> bool {
    match assignment(line) {
        Some((found, _)) => found == name,
        None => false,
    }
}

/// The value that a line assigns.
pub open spec fn value_on(line: Seq<char>) -> Seq<char> {
    match assignment(line) {
        Some((_, value)) => value,
        None => Seq::empty(),
    }
}

proof fn lemma_assigned(
    source: Seq<Seq<char>>,
    i: int,
    values: Seq<(Seq<char>, Seq<char>)>,
    name: Seq<char>,
    at: int,
)
    requires
        0 <= i <= source.len(),
        increasing(names_of(values)),
        i <= at < source.len() ==> assigns(source[at], name),
        forall|j: int|
            i <= j < source.len() && j > at ==> !assigns(#[trigger] source[j], name),
    ensures
        lookup(assigned(source, i, values), name) == if i <= at < source.len() {
            Some(value_on(source[at]))
        } else if at < i {
            lookup(values, name)
        } else {
            lookup(assigned(source, i, values), name)
        },
    decreases source.len() - i,
{
    if i < source.len() {
        match assignment(source[i]) {
            Some((found, value)) => {
                lemma_put(values, found, value, name);
                lemma_assigned(source, i + 1, put(values, found, value), name, at);
            },
            None => {
                lemma_assigned(source, i + 1, values, name, at);
            },
        }
    }
}

/// The last assignment to a variable counts, and a variable that no line assigns
/// has no value.
pub proof fn law_last_assignment_counts(source: Seq<Seq<char>>, name: Seq<char>, at: int)
    requires
        -1 <= at < source.len(),
        at >= 0 ==> assigns(source[at], name),
        forall|j: int|
            at < j < source.len() ==> !assigns(#[trigger] source[j], name),
    ensures
        lookup(assigned(source, 0, Seq::empty()), name) == if at >= 0 {
            Some(value_on(source[at]))
        } else {
            None
        },
{
    let none = Seq::<(Seq<char>, Seq<char>)>::empty();
    assert(names_of(none) =~= Seq::<Seq<char>>::empty());
    lemma_assigned(source, 0, none, name, at);
}

/// The directory of a path is the part before the name of its file, up to and
/// with the last slash.
pub proof fn law_directory_is_beside_the_file(parent: Seq<char>, file: Seq<char>)
    requires
        parent.len() == 0 || parent.last() == '/',
        !file.contains('/'),
    ensures
        directory(parent + file) == parent,
    decreases file.len(),
{
    let path = parent + file;
    if file.len() > 0 {
        let shorter = file.drop_last();
        assert(path.drop_last() =~= parent + shorter);
        assert(path.last() == file.last());
        if shorter.contains('/') {
            assert(file[shorter.index_of('/')] == '/');
        }
        assert(file.last() != '/') by {
            assert(file[file.len() - 1] == file.last());
        }
        law_directory_is_beside_the_file(parent, shorter);
    } else {
        assert(path =~= parent);
    }
}

// ---------------------------------------------------------------------------
// Names and times
// ---------------------------------------------------------------------------

proof fn lemma_kind_shape(rest: Seq<char>, i: int)
    requires
        0 <= i,
    ensures
        kind_from(rest, i) matches Some(kind) ==> is_of_kind(rest, kind),
    decreases all_kinds().len() - i,
{
    if i < all_kinds().len() {
        lemma_kind_shape(rest, i + 1);
    }
}

/// A name that gives a class has the shape of one that is given: plain
/// characters, the prefix, a time that parses, with or without the mark of a
/// repeated hour, and the class.
pub proof fn law_recognised_names_have_the_shape(prefix: Seq<char>, name: Seq<char>)
    ensures
        kind_of(prefix, name) matches Some(kind) ==> {
            &&& forall|i: int| 0 <= i < name.len() ==> crate::bounds::is_plain(#[trigger] name[i])
            &&& exists|time: Seq<char>| #[trigger]
                snapshot_name(prefix, time, kind) == name && (stamp_parses(time) || exists|
                    plain: Seq<char>,
                | #[trigger]
                    stamp_parses(plain) && (time == plain + "dst"@ || time == plain + "_dst"@))
        },
{
    if let Some(kind) = kind_of(prefix, name) {
        assert forall|i: int| 0 <= i < name.len() implies crate::bounds::is_plain(
            #[trigger] name[i],
        ) by {
            crate::bounds::lemma_plain(name[i]);
        }
        let behind = drop_prefix(name, prefix)->0;
        let rest = drop_prefix(behind, "_"@)->0;
        lemma_kind_shape(rest, 0);
        let end = "_"@ + kind.text();
        let time = drop_suffix(rest, end)->0;
        assert(rest =~= time + end) by {
            assert(rest.skip(rest.len() - end.len()) == end);
            assert(rest =~= rest.take(rest.len() - end.len()) + rest.skip(rest.len() - end.len()));
        }
        assert(behind =~= "_"@ + rest) by {
            assert(behind =~= behind.take("_"@.len() as int) + behind.skip("_"@.len() as int));
        }
        assert(name =~= prefix + behind) by {
            assert(name =~= name.take(prefix.len() as int) + name.skip(prefix.len() as int));
        }
        assert(snapshot_name(prefix, time, kind) =~= name);
        let plain = without_dst(time);
        assert(stamp_parses(plain));
        if has_suffix(time, "_dst"@) {
            let n = time.len() - "_dst"@.len();
            assert(time =~= time.take(n) + time.skip(n));
            assert(time == plain + "_dst"@);
        } else if has_suffix(time, "dst"@) {
            let n = time.len() - "dst"@.len();
            assert(time =~= time.take(n) + time.skip(n));
            assert(time == plain + "dst"@);
        }
    }
}

/// Whether a clock shows a time at an instant.
pub open spec fn shows_at(times: LocalTimes, instant: int) -> bool {
    match times {
        LocalTimes::Missing => false,
        LocalTimes::Single(only) => instant == only,
        LocalTimes::Repeated(first, second) => instant == first || instant == second,
    }
}

/// Of the instants at which a clock shows a time, the latest that is not after
/// now counts; there is none exactly where all of them lie ahead.
pub proof fn law_latest_instant_counts(times: LocalTimes, now: int)
    ensures
        match latest(times, now) {
            Some(found) => {
                &&& found <= now
                &&& shows_at(times, found)
                &&& forall|other: int| #[trigger]
                    shows_at(times, other) && other <= now ==> other <= found
            },
            None => forall|other: int| #[trigger] shows_at(times, other) ==> other > now,
        },
{
}

// ---------------------------------------------------------------------------
// Order
// ---------------------------------------------------------------------------

/// Whether two texts are the same up to a place, where the first ends or has the
/// smaller character.
pub open spec fn parts_at(a: Seq<char>, b: Seq<char>, k: int) -> bool {
    &&& 0 <= k <= a.len()
    &&& k < b.len()
    &&& forall|i: int| 0 <= i < k ==> #[trigger] a[i] == b[i]
    &&& k == a.len() || a[k] < b[k]
}

/// Texts are ordered as words in a dictionary are: by the first character in which
/// they differ, and a text comes before those that it begins.
pub proof fn law_texts_are_ordered_like_words(a: Seq<char>, b: Seq<char>)
    ensures
        text_lt(a, b) <==> exists|k: int| parts_at(a, b, k),
    decreases a.len(),
{
    if b.len() > 0 && a.len() > 0 && a[0] == b[0] {
        let x = a.drop_first();
        let y = b.drop_first();
        law_texts_are_ordered_like_words(x, y);
        if text_lt(x, y) {
            let k = choose|k: int| parts_at(x, y, k);
            assert forall|i: int| 0 <= i < k + 1 implies #[trigger] a[i] == b[i] by {
                if i > 0 {
                    assert(x[i - 1] == y[i - 1]);
                }
            }
            assert(parts_at(a, b, k + 1));
        }
        if exists|k: int| parts_at(a, b, k) {
            let k = choose|k: int| parts_at(a, b, k);
            assert forall|i: int| 0 <= i < k - 1 implies #[trigger] x[i] == y[i] by {
                assert(a[i + 1] == b[i + 1]);
            }
            assert(parts_at(x, y, k - 1));
        }
    } else {
        if text_lt(a, b) {
            assert(parts_at(a, b, 0));
        }
        if exists|k: int| parts_at(a, b, k) {
            let k = choose|k: int| parts_at(a, b, k);
            if k > 0 {
                assert(a[0] == b[0]);
            }
        }
    }
}

} // verus!
