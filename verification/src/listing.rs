//! What a listing of snapshots or pools amounts to: its lines in any order, and the
//! last line of each name.
use vstd::prelude::*;

use crate::error::Fault;
use crate::names::{increasing, lemma_lookup, lemma_put, lookup, names_of, put};
use crate::text::{lemma_lt_asymmetric, lemma_lt_irreflexive, lemma_position, lines, split, text_lt, trim};
use crate::zfs::{listed_datasets, listed_inventory, listed_pools, listed_snapshots, pool_row, pools_from, snapshot_row, snapshots_from, PoolModel, SnapshotModel};

verus! {

/// Whether a line says anything.
pub open spec fn is_blank(line: Seq<char>) -> bool {
    trim(line).len() == 0
}

/// The full name on a line: the first of its fields.
pub open spec fn first_field(line: Seq<char>) -> Seq<char> {
    split(line, '\t')[0]
}

/// The full name of a snapshot.
pub open spec fn full_name(snapshot: SnapshotModel) -> Seq<char> {
    snapshot.dataset + "@"@ + snapshot.name
}

/// Whether a line gives a snapshot.
pub open spec fn is_row(line: Seq<char>) -> bool {
    snapshot_row(line, 0) is Ok
}

/// The snapshot on a line.
pub open spec fn row_of(line: Seq<char>) -> SnapshotModel {
    snapshot_row(line, 0)->Ok_0.1
}

/// Whether a line is the last one with its full name.
pub open spec fn is_last(listing: Seq<Seq<char>>, i: int) -> bool {
    &&& 0 <= i < listing.len()
    &&& !is_blank(listing[i])
    &&& forall|j: int|
        i < j < listing.len() && !is_blank(#[trigger] listing[j]) ==> first_field(listing[j])
            != first_field(listing[i])
}

/// Whether a snapshot is the one on the last line with some full name.
pub open spec fn is_listed(listing: Seq<Seq<char>>, snapshot: SnapshotModel) -> bool {
    exists|i: int| #[trigger] is_last(listing, i) && snapshot == row_of(listing[i])
}

/// Whether no two lines have one full name.
pub open spec fn all_different(listing: Seq<Seq<char>>) -> bool {
    forall|i: int, j: int|
        0 <= i < j < listing.len() && !is_blank(#[trigger] listing[i]) && !is_blank(
            #[trigger] listing[j],
        ) ==> first_field(listing[i]) != first_field(listing[j])
}

/// Whether snapshots come in the order of their full names, each once.
pub open spec fn in_order(snapshots: Seq<SnapshotModel>) -> bool {
    forall|i: int, j: int|
        0 <= i < j < snapshots.len() ==> text_lt(
            full_name(#[trigger] snapshots[i]),
            full_name(#[trigger] snapshots[j]),
        )
}

/// The number of a line is in its error alone.
proof fn lemma_row(line: Seq<char>, at: nat)
    ensures
        snapshot_row(line, at) is Ok <==> is_row(line),
        is_row(line) ==> snapshot_row(line, at) == snapshot_row(line, 0) && snapshot_row(
            line,
            0,
        )->Ok_0.0 == first_field(line) && full_name(row_of(line)) == first_field(line),
{
    reveal_strlit("@");
    let field = first_field(line);
    lemma_position(field, '@');
    if is_row(line) {
        assert(full_name(row_of(line)) =~= field);
    }
}

/// Whether every snapshot of an association stands under its full name.
spec fn under_full_names(found: Seq<(Seq<char>, SnapshotModel)>) -> bool {
    forall|k: int| 0 <= k < found.len() ==> full_name((#[trigger] found[k]).1) == found[k].0
}

proof fn lemma_from(
    listing: Seq<Seq<char>>,
    i: int,
    found: Seq<(Seq<char>, SnapshotModel)>,
    all: Seq<(Seq<char>, SnapshotModel)>,
)
    requires
        0 <= i <= listing.len(),
        increasing(names_of(found)),
        under_full_names(found),
        snapshots_from(listing, i, found) == Ok::<Seq<(Seq<char>, SnapshotModel)>, Fault>(all),
    ensures
        increasing(names_of(all)),
        under_full_names(all),
        forall|j: int|
            i <= j < listing.len() && !is_blank(#[trigger] listing[j]) ==> is_row(listing[j]),
        forall|j: int|
            i <= j && #[trigger] is_last(listing, j) ==> lookup(all, first_field(listing[j])) == Some(
                row_of(listing[j]),
            ),
        forall|name: Seq<char>|
            (forall|j: int|
                i <= j < listing.len() && !is_blank(#[trigger] listing[j]) ==> first_field(
                    listing[j],
                ) != name) ==> #[trigger] lookup(all, name) == lookup(found, name),
    decreases listing.len() - i,
{
    if i < listing.len() {
        if is_blank(listing[i]) {
            lemma_from(listing, i + 1, found, all);
        } else {
            lemma_row(listing[i], (i + 1) as nat);
            let name = first_field(listing[i]);
            let row = row_of(listing[i]);
            let more = put(found, name, row);
            lemma_put(found, name, row, name);
            assert forall|k: int| 0 <= k < more.len() implies full_name((#[trigger] more[k]).1)
                == more[k].0 by {
                crate::names::lemma_rank_finds(names_of(found), name);
                let r = crate::names::rank(names_of(found), name);
                if names_of(found).contains(name) {
                    if k != r {
                        assert(more[k] == found[k]);
                    }
                } else if k < r {
                    assert(more[k] == found[k]);
                } else if k > r {
                    assert(more[k] == found[k - 1]);
                }
            }
            lemma_from(listing, i + 1, more, all);
            if is_last(listing, i) {
                assert(lookup(all, name) == lookup(more, name));
            }
            assert forall|other: Seq<char>|
                (forall|j: int|
                    i <= j < listing.len() && !is_blank(#[trigger] listing[j]) ==> first_field(
                        listing[j],
                    ) != other) implies #[trigger] lookup(all, other) == lookup(found, other) by {
                assert(first_field(listing[i]) != other);
                lemma_put(found, name, row, other);
                assert(lookup(all, other) == lookup(more, other));
            }
        }
    }
}

/// The last line with a full name.
proof fn lemma_some_last(listing: Seq<Seq<char>>, i: int) -> (last: int)
    requires
        0 <= i < listing.len(),
        !is_blank(listing[i]),
    ensures
        i <= last,
        is_last(listing, last),
        first_field(listing[last]) == first_field(listing[i]),
    decreases listing.len() - i,
{
    if is_last(listing, i) {
        i
    } else {
        let j = choose|j: int|
            i < j < listing.len() && !is_blank(#[trigger] listing[j]) && first_field(listing[j])
                == first_field(listing[i]);
        lemma_some_last(listing, j)
    }
}

/// The snapshots of a listing come in the order of their full names, one for
/// each name that a line starts with; where several lines start with it, the
/// last one counts.
pub proof fn law_last_line_of_each_name_counts(output: Seq<char>, snapshots: Seq<SnapshotModel>)
    requires
        listed_snapshots(output) == Ok::<Seq<SnapshotModel>, Fault>(snapshots),
    ensures
        in_order(snapshots),
        forall|i: int| #[trigger]
            is_last(lines(output), i) ==> snapshots.contains(row_of(lines(output)[i])) && full_name(
                row_of(lines(output)[i]),
            ) == first_field(lines(output)[i]),
        forall|k: int|
            0 <= k < snapshots.len() ==> is_listed(lines(output), #[trigger] snapshots[k]),
{
    let listing = lines(output);
    let none = Seq::<(Seq<char>, SnapshotModel)>::empty();
    let all = snapshots_from(listing, 0, none)->Ok_0;
    lemma_from(listing, 0, none, all);
    assert forall|i: int, j: int| 0 <= i < j < snapshots.len() implies text_lt(
        full_name(#[trigger] snapshots[i]),
        full_name(#[trigger] snapshots[j]),
    ) by {
        assert(names_of(all)[i] == all[i].0);
        assert(names_of(all)[j] == all[j].0);
        assert(snapshots[i] == all[i].1 && snapshots[j] == all[j].1);
    }
    assert forall|i: int| #[trigger] is_last(listing, i) implies snapshots.contains(
        row_of(listing[i]),
    ) && full_name(row_of(listing[i])) == first_field(listing[i]) by {
        lemma_row(listing[i], 0);
        let name = first_field(listing[i]);
        lemma_lookup(all, name);
        let at = names_of(all).index_of(name);
        assert(all[at].0 == name);
        assert(snapshots[at] == all[at].1);
    }
    assert forall|k: int| 0 <= k < snapshots.len() implies is_listed(
        listing,
        #[trigger] snapshots[k],
    ) by {
        let name = all[k].0;
        lemma_lookup(all, name);
        if forall|j: int|
            0 <= j < listing.len() && !is_blank(#[trigger] listing[j]) ==> first_field(listing[j])
                != name {
            assert(lookup(all, name) == lookup(none, name));
        } else {
            let j = choose|j: int|
                0 <= j < listing.len() && !is_blank(#[trigger] listing[j]) && first_field(
                    listing[j],
                ) == name;
            let last = lemma_some_last(listing, j);
            assert(snapshots[k] == all[k].1);
            assert(is_last(listing, last) && snapshots[k] == row_of(listing[last]));
        }
    }
}

/// A listing without a bad line is read.
proof fn lemma_rows_are_read(
    listing: Seq<Seq<char>>,
    i: int,
    found: Seq<(Seq<char>, SnapshotModel)>,
)
    requires
        0 <= i,
        forall|j: int|
            i <= j < listing.len() && !is_blank(#[trigger] listing[j]) ==> is_row(listing[j]),
    ensures
        snapshots_from(listing, i, found) is Ok,
    decreases listing.len() - i,
{
    if i < listing.len() {
        if is_blank(listing[i]) {
            lemma_rows_are_read(listing, i + 1, found);
        } else {
            lemma_row(listing[i], (i + 1) as nat);
            lemma_rows_are_read(
                listing,
                i + 1,
                put(found, first_field(listing[i]), row_of(listing[i])),
            );
        }
    }
}

/// Lists in order with the same members are one list.
proof fn lemma_same_members(a: Seq<SnapshotModel>, b: Seq<SnapshotModel>)
    requires
        in_order(a),
        in_order(b),
        forall|x: SnapshotModel| #[trigger] a.contains(x) ==> b.contains(x),
        forall|x: SnapshotModel| #[trigger] b.contains(x) ==> a.contains(x),
    ensures
        a == b,
    decreases a.len(),
{
    if a.len() == 0 {
        if b.len() > 0 {
            assert(b.contains(b[0]));
        }
        assert(a =~= b);
    } else {
        assert(a.contains(a[0]));
        let j = b.index_of(a[0]);
        assert(b.contains(b[0]));
        let i = a.index_of(b[0]);
        if j > 0 {
            assert(text_lt(full_name(b[0]), full_name(b[j])));
            if i > 0 {
                assert(text_lt(full_name(a[0]), full_name(a[i])));
                lemma_lt_asymmetric(full_name(a[0]), full_name(b[0]));
            } else {
                lemma_lt_irreflexive(full_name(a[0]));
            }
        }
        assert(a[0] == b[0]);
        let more_a = a.drop_first();
        let more_b = b.drop_first();
        assert forall|x: SnapshotModel| #[trigger] more_a.contains(x) implies more_b.contains(x) by {
            let k = more_a.index_of(x);
            assert(a[k + 1] == x);
            assert(a.contains(x));
            assert(text_lt(full_name(a[0]), full_name(a[k + 1])));
            lemma_lt_irreflexive(full_name(x));
            let l = b.index_of(x);
            assert(more_b[l - 1] == x);
        }
        assert forall|x: SnapshotModel| #[trigger] more_b.contains(x) implies more_a.contains(x) by {
            let k = more_b.index_of(x);
            assert(b[k + 1] == x);
            assert(b.contains(x));
            assert(text_lt(full_name(b[0]), full_name(b[k + 1])));
            lemma_lt_irreflexive(full_name(x));
            let l = a.index_of(x);
            assert(more_a[l - 1] == x);
        }
        assert forall|p: int, q: int| 0 <= p < q < more_a.len() implies text_lt(
            full_name(#[trigger] more_a[p]),
            full_name(#[trigger] more_a[q]),
        ) by {
            assert(text_lt(full_name(a[p + 1]), full_name(a[q + 1])));
        }
        assert forall|p: int, q: int| 0 <= p < q < more_b.len() implies text_lt(
            full_name(#[trigger] more_b[p]),
            full_name(#[trigger] more_b[q]),
        ) by {
            assert(text_lt(full_name(b[p + 1]), full_name(b[q + 1])));
        }
        lemma_same_members(more_a, more_b);
        assert(a =~= seq![a[0]] + more_a);
        assert(b =~= seq![b[0]] + more_b);
    }
}

/// Lines in another order still have different full names.
proof fn lemma_still_different(a: Seq<Seq<char>>, b: Seq<Seq<char>>)
    requires
        a.to_multiset() == b.to_multiset(),
        all_different(a),
    ensures
        all_different(b),
        forall|line: Seq<char>| #[trigger] b.contains(line) <==> a.contains(line),
{
    broadcast use vstd::seq_lib::group_to_multiset_ensures;

    assert forall|line: Seq<char>| #[trigger] b.contains(line) <==> a.contains(line) by {
        assert(a.contains(line) <==> a.to_multiset().contains(line));
        assert(b.contains(line) <==> b.to_multiset().contains(line));
    }
    assert forall|i: int, j: int|
        0 <= i < j < b.len() && !is_blank(#[trigger] b[i]) && !is_blank(
            #[trigger] b[j],
        ) implies first_field(b[i]) != first_field(b[j]) by {
        assert(b.contains(b[i]) && b.contains(b[j]));
        let k = a.index_of(b[i]);
        if b[i] == b[j] {
            let line = b[i];
            let fewer = b.remove(j);
            assert(fewer[i] == line);
            assert(fewer.contains(line));
            assert(fewer.to_multiset() == b.to_multiset().remove(line));
            let rest = a.remove(k);
            assert(rest.to_multiset() == a.to_multiset().remove(line));
            assert(rest.to_multiset().contains(line));
            assert(rest.contains(line));
            let l = rest.index_of(line);
            if l < k {
                assert(a[l] == line);
            } else {
                assert(a[l + 1] == line);
            }
        } else {
            let l = a.index_of(b[j]);
            if k < l {
                assert(first_field(a[k]) != first_field(a[l]));
            } else {
                assert(first_field(a[l]) != first_field(a[k]));
            }
        }
    }
}

proof fn lemma_only_line(listing: Seq<Seq<char>>, i: int)
    requires
        all_different(listing),
        0 <= i < listing.len(),
        !is_blank(listing[i]),
    ensures
        is_last(listing, i),
{
    assert forall|j: int|
        i < j < listing.len() && !is_blank(#[trigger] listing[j]) implies first_field(listing[j])
        != first_field(listing[i]) by {
        assert(!is_blank(listing[i]));
    }
}

/// The order of lines with different full names does not matter.
pub proof fn law_order_of_lines_does_not_matter(
    output: Seq<char>,
    other: Seq<char>,
    snapshots: Seq<SnapshotModel>,
)
    requires
        listed_snapshots(output) == Ok::<Seq<SnapshotModel>, Fault>(snapshots),
        all_different(lines(output)),
        lines(output).to_multiset() == lines(other).to_multiset(),
    ensures
        listed_snapshots(other) == Ok::<Seq<SnapshotModel>, Fault>(snapshots),
{
    let a = lines(output);
    let b = lines(other);
    let none = Seq::<(Seq<char>, SnapshotModel)>::empty();
    lemma_still_different(a, b);
    lemma_from(a, 0, none, snapshots_from(a, 0, none)->Ok_0);
    assert forall|j: int| 0 <= j < b.len() && !is_blank(#[trigger] b[j]) implies is_row(b[j]) by {
        assert(b.contains(b[j]));
        assert(a[a.index_of(b[j])] == b[j]);
    }
    lemma_rows_are_read(b, 0, none);
    let found = listed_snapshots(other)->Ok_0;
    law_last_line_of_each_name_counts(output, snapshots);
    law_last_line_of_each_name_counts(other, found);
    assert forall|x: SnapshotModel| #[trigger] snapshots.contains(x) implies found.contains(x) by {
        let k = snapshots.index_of(x);
        assert(snapshots[k] == x);
        let i = choose|i: int| #[trigger] is_last(a, i) && snapshots[k] == row_of(a[i]);
        assert(a.contains(a[i]));
        assert(b.contains(a[i]));
        let j = b.index_of(a[i]);
        lemma_only_line(b, j);
        assert(row_of(b[j]) == x);
    }
    assert forall|x: SnapshotModel| #[trigger] found.contains(x) implies snapshots.contains(x) by {
        let k = found.index_of(x);
        assert(found[k] == x);
        let i = choose|i: int| #[trigger] is_last(b, i) && found[k] == row_of(b[i]);
        assert(b.contains(b[i]));
        let j = a.index_of(b[i]);
        lemma_only_line(a, j);
        assert(row_of(a[j]) == x);
    }
    lemma_same_members(snapshots, found);
}

/// Whether a line gives a pool.
pub open spec fn is_pool_row(line: Seq<char>) -> bool {
    pool_row(line, 0) is Ok
}

/// The pool on a line.
pub open spec fn pool_on(line: Seq<char>) -> PoolModel {
    pool_row(line, 0)->Ok_0
}

/// Whether every line that says anything gives a pool, from line `i` on.
pub open spec fn all_pool_rows(listing: Seq<Seq<char>>, i: int) -> bool {
    forall|j: int|
        i <= j < listing.len() && !is_blank(#[trigger] listing[j]) ==> is_pool_row(listing[j])
}

/// Whether a name stands on no line, from line `i` on.
pub open spec fn is_unlisted(listing: Seq<Seq<char>>, i: int, name: Seq<char>) -> bool {
    forall|j: int|
        i <= j < listing.len() && !is_blank(#[trigger] listing[j]) ==> first_field(listing[j])
            != name
}

proof fn lemma_pools_from(
    listing: Seq<Seq<char>>,
    i: int,
    found: Seq<(Seq<char>, PoolModel)>,
    name: Seq<char>,
)
    requires
        0 <= i <= listing.len(),
        increasing(names_of(found)),
    ensures
        pools_from(listing, i, found) is Ok <==> all_pool_rows(listing, i),
        pools_from(listing, i, found) matches Ok(all) ==> increasing(names_of(all)) && (
        is_unlisted(listing, i, name) ==> lookup(all, name) == lookup(found, name)) && (forall|j: int|
            i <= j && #[trigger] is_last(listing, j) && first_field(listing[j]) == name ==> lookup(
                all,
                name,
            ) == Some(pool_on(listing[j]))),
    decreases listing.len() - i,
{
    if i < listing.len() {
        if is_blank(listing[i]) {
            lemma_pools_from(listing, i + 1, found, name);
        } else if is_pool_row(listing[i]) {
            let row = pool_on(listing[i]);
            assert(pool_row(listing[i], (i + 1) as nat) == Ok::<PoolModel, Fault>(row));
            assert(row.name == first_field(listing[i]));
            let more = put(found, row.name, row);
            lemma_put(found, row.name, row, name);
            lemma_pools_from(listing, i + 1, more, name);
            if is_last(listing, i) && row.name == name {
                assert(is_unlisted(listing, i + 1, name));
            }
            if is_unlisted(listing, i, name) {
                assert(first_field(listing[i]) != name);
            }
        } else {
            assert(!all_pool_rows(listing, i));
        }
    }
}

/// A listing of pools is accepted exactly where every line that says anything gives
/// a pool. It then holds the pools in the order of their names: under the name that
/// a line starts with, the pool of the last such line, and under another name none.
pub proof fn law_last_line_of_each_pool_counts(output: Seq<char>, name: Seq<char>)
    ensures
        listed_pools(output) is Ok <==> all_pool_rows(lines(output), 0),
        listed_pools(output) matches Ok(pools) ==> increasing(names_of(pools)) && (is_unlisted(
            lines(output),
            0,
            name,
        ) ==> lookup(pools, name) is None) && (forall|j: int| #[trigger]
            is_last(lines(output), j) && first_field(lines(output)[j]) == name ==> lookup(
                pools,
                name,
            ) == Some(pool_on(lines(output)[j]))),
{
    lemma_pools_from(lines(output), 0, Seq::empty(), name);
}

/// An inventory is made of three listings, each for its own part, and of nothing
/// where one of them is refused.
pub proof fn law_inventory_is_made_of_its_listings(
    datasets: Seq<char>,
    snapshots: Seq<char>,
    pools: Seq<char>,
)
    ensures
        listed_inventory(datasets, snapshots, pools) is Ok <==> listed_datasets(datasets) is Ok
            && listed_snapshots(snapshots) is Ok && listed_pools(pools) is Ok,
        listed_inventory(datasets, snapshots, pools) matches Ok(inventory) ==> listed_datasets(
            datasets,
        ) == Ok::<Seq<Seq<char>>, Fault>(inventory.datasets) && listed_snapshots(snapshots) == Ok::<
            Seq<SnapshotModel>,
            Fault,
        >(inventory.snapshots) && listed_pools(pools) == Ok::<Seq<(Seq<char>, PoolModel)>, Fault>(
            inventory.pools,
        ),
{
}

} // verus!
