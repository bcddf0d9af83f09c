//! The ZFS inventory: what the `zfs` and `zpool` commands list.
use vstd::prelude::*;

use crate::error::{caused, lists, plain, yields, Error, Fault};
use crate::integer::{i64_complaint, i64_words, number_error, u64_complaint, u64_words, u8_complaint, u8_words};
use crate::names::{increasing, lemma_with_name, put, with_name, NameMap, NameSet};
use crate::sort::views;
use crate::text::{cut, cut_part, debug_text, decimal, drop_prefix, drop_run, has_char, join, joined, lemma_texts_push, lines, lowercase, lowercased, number, parse_signed, parse_unsigned, quoted, same, signed, split, split_char, split_lines, split_once, split_once_part, strip_prefix, texts, trim, trim_run, trimmed, unsigned};

verus! {

/// The property that marks the snapshots that may be pruned.
pub const MANAGED_PROPERTY: &'static str = "org.zsnap:managed";

#[derive(Debug, PartialEq, Eq)]
pub struct Snapshot {
    pub dataset: String,
    pub name: String,
    pub created: i64,
    pub managed: bool,
    pub user_holds: u64,
    pub has_clones: bool,
}

/// The model of a [`Snapshot`].
pub struct SnapshotModel {
    pub dataset: Seq<char>,
    pub name: Seq<char>,
    pub created: i64,
    pub managed: bool,
    pub user_holds: u64,
    pub has_clones: bool,
}

impl View for Snapshot {
    type V = SnapshotModel;

    open spec fn view(&self) -> SnapshotModel {
        SnapshotModel {
            dataset: self.dataset@,
            name: self.name@,
            created: self.created,
            managed: self.managed,
            user_holds: self.user_holds,
            has_clones: self.has_clones,
        }
    }
}

impl SnapshotModel {
    /// A hold or a clone keeps a snapshot from being destroyed.
    pub open spec fn protected(self) -> bool {
        self.user_holds > 0 || self.has_clones
    }
}

impl Snapshot {
    pub fn prune_protected(&self) -> (res: bool)
        ensures
            res == self@.protected(),
    {
        self.user_holds > 0 || self.has_clones
    }
}

impl Clone for Snapshot {
    fn clone(&self) -> (res: Self)
        ensures
            res@ == self@,
    {
        Snapshot {
            dataset: self.dataset.clone(),
            name: self.name.clone(),
            created: self.created,
            managed: self.managed,
            user_holds: self.user_holds,
            has_clones: self.has_clones,
        }
    }
}

#[derive(Debug, PartialEq, Eq)]
pub struct Pool {
    pub name: String,
    pub capacity_percent: u8,
}

/// The model of a [`Pool`].
pub struct PoolModel {
    pub name: Seq<char>,
    pub capacity_percent: u8,
}

impl View for Pool {
    type V = PoolModel;

    open spec fn view(&self) -> PoolModel {
        PoolModel { name: self.name@, capacity_percent: self.capacity_percent }
    }
}

impl Clone for Pool {
    fn clone(&self) -> (res: Self)
        ensures
            res@ == self@,
    {
        Pool { name: self.name.clone(), capacity_percent: self.capacity_percent }
    }
}

/// What exists: the datasets, their snapshots, and the pools.
pub struct Inventory {
    pub datasets: NameSet,
    pub snapshots: Vec<Snapshot>,
    pub pools: NameMap<Pool>,
}

/// The model of an [`Inventory`].
pub struct InventoryModel {
    pub datasets: Seq<Seq<char>>,
    pub snapshots: Seq<SnapshotModel>,
    pub pools: Seq<(Seq<char>, PoolModel)>,
}

impl View for Inventory {
    type V = InventoryModel;

    open spec fn view(&self) -> InventoryModel {
        InventoryModel {
            datasets: self.datasets@,
            snapshots: views(self.snapshots@),
            pools: self.pools@,
        }
    }
}

impl Default for Inventory {
    fn default() -> (res: Self)
        ensures
            res@.datasets == Seq::<Seq<char>>::empty(),
            res@.snapshots == Seq::<SnapshotModel>::empty(),
            res@.pools == Seq::<(Seq<char>, PoolModel)>::empty(),
    {
        let snapshots: Vec<Snapshot> = Vec::new();
        assert(views(snapshots@) =~= Seq::<SnapshotModel>::empty());
        Inventory { datasets: NameSet::new(), snapshots, pools: NameMap::new() }
    }
}

/// The pool of a dataset: the part of its name before the first slash.
pub open spec fn pool_of(dataset: Seq<char>) -> Seq<char> {
    split(dataset, '/')[0]
}

impl Inventory {
    pub fn pool_for_dataset(dataset: &str) -> (res: String)
        ensures
            res@ == pool_of(dataset@),
    {
        let parts = split_char(dataset, '/');
        assert(texts(parts@)[0] == parts@[0]@);
        parts[0].clone()
    }
}

// ---------------------------------------------------------------------------
// Listings
// ---------------------------------------------------------------------------

/// The datasets that the lines of a listing name, from line `i` on.
pub open spec fn datasets_from(listing: Seq<Seq<char>>, i: int, found: Seq<Seq<char>>) -> Result<
    Seq<Seq<char>>,
    Fault,
>
    decreases listing.len() - i,
{
    if i >= listing.len() {
        Ok(found)
    } else {
        let name = trim(listing[i]);
        if name.len() == 0 {
            datasets_from(listing, i + 1, found)
        } else if name.contains('@') || name.contains('\t') {
            Err(plain(
                "invalid dataset listing on line "@ + decimal((i + 1) as nat) + ": "@ + debug_text(
                    listing[i],
                ),
            ))
        } else {
            datasets_from(listing, i + 1, with_name(found, name))
        }
    }
}

pub open spec fn listed_datasets(output: Seq<char>) -> Result<Seq<Seq<char>>, Fault> {
    datasets_from(lines(output), 0, Seq::empty())
}

/// Reads a listing of dataset names.
pub fn parse_datasets(output: &str) -> (res: Result<NameSet, Error>)
    ensures
        yields(res, listed_datasets(output@)),
{
    let listing = split_lines(output);
    let mut datasets = NameSet::new();
    let mut i: usize = 0;
    while i < listing.len()
        invariant
            i <= listing@.len(),
            texts(listing@) == lines(output@),
            listed_datasets(output@) == datasets_from(lines(output@), i as int, datasets@),
        decreases listing.len() - i,
    {
        let line = &listing[i];
        assert(texts(listing@)[i as int] == line@);
        let name = trimmed(line.as_str());
        if !name.as_str().is_empty() {
            if has_char(name.as_str(), '@') || has_char(name.as_str(), '\t') {
                let mut message = "invalid dataset listing on line ".to_owned();
                message.append(number(i as u64 + 1).as_str());
                message.append(": ");
                message.append(quoted(line.as_str()).as_str());
                return Err(Error::new(message));
            }
            datasets.insert(name);
        }
        i += 1;
    }
    Ok(datasets)
}

/// A property value that means yes.
pub open spec fn is_affirmative(value: Seq<char>) -> bool {
    ||| value == "1"@
    ||| value == "yes"@
    ||| value == "true"@
    ||| value == "on"@
}

fn affirmative(value: &str) -> (res: bool)
    ensures
        res == is_affirmative(value@),
{
    same(value, "1") || same(value, "yes") || same(value, "true") || same(value, "on")
}

/// What one line of a snapshot listing says.
pub open spec fn snapshot_row(line: Seq<char>, at: nat) -> Result<
    (Seq<char>, SnapshotModel),
    Fault,
> {
    let fields = split(line, '\t');
    if fields.len() != 5 {
        Err(plain(
            "invalid snapshot listing on line "@ + decimal(at)
                + ": expected 5 tab-separated fields, got "@ + decimal(fields.len()),
        ))
    } else {
        match cut(fields[0], '@') {
            None => Err(plain(
                "invalid snapshot name "@ + debug_text(fields[0]) + " on line "@ + decimal(at),
            )),
            Some((dataset, name)) => match parse_signed(fields[1]) {
                None => Err(
                    caused(
                        "invalid snapshot creation time "@ + debug_text(fields[1]) + " on line "@
                            + decimal(at),
                        i64_words(fields[1]),
                    ),
                ),
                Some(created) => match parse_unsigned(fields[3], u64::MAX as nat) {
                    None => Err(
                        caused(
                            "invalid snapshot userrefs count "@ + debug_text(fields[3])
                                + " on line "@ + decimal(at),
                            u64_words(fields[3]),
                        ),
                    ),
                    Some(user_holds) => Ok(
                        (
                            fields[0],
                            SnapshotModel {
                                dataset,
                                name,
                                created: created as i64,
                                managed: is_affirmative(lowercase(trim(fields[2]))),
                                user_holds: user_holds as u64,
                                has_clones: !(trim(fields[4]) == ""@ || trim(fields[4]) == "-"@),
                            },
                        ),
                    ),
                },
            },
        }
    }
}

/// A message that names a value and its line.
fn value_message(prefix: &str, value: &str, at: usize) -> (res: String)
    ensures
        res@ == prefix@ + debug_text(value@) + " on line "@ + decimal(at as nat),
{
    let mut message = prefix.to_owned();
    message.append(quoted(value).as_str());
    message.append(" on line ");
    message.append(number(at as u64).as_str());
    message
}

/// An error about the number of fields on a line.
fn field_count_error(prefix: &str, at: usize, middle: &str, count: usize) -> (res: Error)
    ensures
        res@ == plain(prefix@ + decimal(at as nat) + middle@ + decimal(count as nat)),
{
    let mut message = prefix.to_owned();
    message.append(number(at as u64).as_str());
    message.append(middle);
    message.append(number(count as u64).as_str());
    Error::new(message)
}

fn read_snapshot(line: &str, at: usize) -> (res: Result<(String, Snapshot), Error>)
    ensures
        yields(res, snapshot_row(line@, at as nat)),
{
    let fields = split_char(line, '\t');
    assert(texts(fields@).len() == fields@.len());
    if fields.len() != 5 {
        return Err(
            field_count_error(
                "invalid snapshot listing on line ",
                at,
                ": expected 5 tab-separated fields, got ",
                fields.len(),
            ),
        );
    }
    assert(forall|i: int| 0 <= i < 5 ==> texts(fields@)[i] == #[trigger] fields@[i]@);
    let (dataset, name) = match split_once(fields[0].as_str(), '@') {
        Some(parts) => parts,
        None => {
            return Err(
                Error::new(value_message("invalid snapshot name ", fields[0].as_str(), at)),
            );
        },
    };
    let created: i64 = match signed(fields[1].as_str()) {
        Some(value) => value,
        None => {
            return Err(
                number_error(
                    value_message("invalid snapshot creation time ", fields[1].as_str(), at),
                    i64_complaint(fields[1].as_str()),
                ),
            );
        },
    };
    let managed = affirmative(lowercased(trimmed(fields[2].as_str()).as_str()).as_str());
    let user_holds: u64 = match unsigned(fields[3].as_str(), u64::MAX) {
        Some(value) => value,
        None => {
            return Err(
                number_error(
                    value_message("invalid snapshot userrefs count ", fields[3].as_str(), at),
                    u64_complaint(fields[3].as_str()),
                ),
            );
        },
    };
    let clones = trimmed(fields[4].as_str());
    let has_clones = !(same(clones.as_str(), "") || same(clones.as_str(), "-"));
    Ok((fields[0].clone(), Snapshot { dataset, name, created, managed, user_holds, has_clones }))
}

/// The snapshots that the lines of a listing name, from line `i` on, under
/// their full names; the last line of a name counts.
pub open spec fn snapshots_from(
    listing: Seq<Seq<char>>,
    i: int,
    found: Seq<(Seq<char>, SnapshotModel)>,
) -> Result<Seq<(Seq<char>, SnapshotModel)>, Fault>
    decreases listing.len() - i,
{
    if i >= listing.len() {
        Ok(found)
    } else if trim(listing[i]).len() == 0 {
        snapshots_from(listing, i + 1, found)
    } else {
        match snapshot_row(listing[i], (i + 1) as nat) {
            Err(message) => Err(message),
            Ok((full_name, snapshot)) => snapshots_from(
                listing,
                i + 1,
                put(found, full_name, snapshot),
            ),
        }
    }
}

/// The values of an association, in the order of its names.
pub open spec fn values_of<T>(entries: Seq<(Seq<char>, T)>) -> Seq<T> {
    entries.map_values(|e: (Seq<char>, T)| e.1)
}

pub open spec fn listed_snapshots(output: Seq<char>) -> Result<Seq<SnapshotModel>, Fault> {
    match snapshots_from(lines(output), 0, Seq::empty()) {
        Ok(found) => Ok(values_of(found)),
        Err(message) => Err(message),
    }
}

/// Reads a listing of snapshots: name, creation time, mark, holds and clones.
pub fn parse_snapshots(output: &str) -> (res: Result<Vec<Snapshot>, Error>)
    ensures
        lists(res, listed_snapshots(output@)),
{
    let listing = split_lines(output);
    let mut snapshots: NameMap<Snapshot> = NameMap::new();
    let mut i: usize = 0;
    while i < listing.len()
        invariant
            i <= listing@.len(),
            texts(listing@) == lines(output@),
            snapshots_from(lines(output@), 0, Seq::empty()) == snapshots_from(
                lines(output@),
                i as int,
                snapshots@,
            ),
        decreases listing.len() - i,
    {
        let line = &listing[i];
        assert(texts(listing@)[i as int] == line@);
        if !trimmed(line.as_str()).as_str().is_empty() {
            match read_snapshot(line.as_str(), i + 1) {
                Ok((full_name, snapshot)) => {
                    snapshots.insert(full_name, snapshot);
                },
                Err(e) => {
                    return Err(e);
                },
            }
        }
        i += 1;
    }
    let ghost found = snapshots@;
    let values = snapshots.into_values();
    assert(views(values@) =~= values_of(found));
    Ok(values)
}

/// What one line of a pool listing says.
pub open spec fn pool_row(line: Seq<char>, at: nat) -> Result<PoolModel, Fault> {
    let fields = split(line, '\t');
    if fields.len() != 2 {
        Err(plain(
            "invalid zpool listing on line "@ + decimal(at)
                + ": expected 2 tab-separated fields, got "@ + decimal(fields.len()),
        ))
    } else {
        match parse_unsigned(drop_run(trim(fields[1]), '%'), 255) {
            None => Err(
                caused(
                    "invalid pool capacity "@ + debug_text(fields[1]) + " on line "@ + decimal(at),
                    u8_words(drop_run(trim(fields[1]), '%')),
                ),
            ),
            Some(capacity) => if capacity > 100 {
                Err(plain(
                    "invalid pool capacity "@ + decimal(capacity) + " on line "@ + decimal(at),
                ))
            } else {
                Ok(PoolModel { name: fields[0], capacity_percent: capacity as u8 })
            },
        }
    }
}

fn read_pool(line: &str, at: usize) -> (res: Result<Pool, Error>)
    ensures
        yields(res, pool_row(line@, at as nat)),
{
    let fields = split_char(line, '\t');
    assert(texts(fields@).len() == fields@.len());
    if fields.len() != 2 {
        return Err(
            field_count_error(
                "invalid zpool listing on line ",
                at,
                ": expected 2 tab-separated fields, got ",
                fields.len(),
            ),
        );
    }
    assert(forall|i: int| 0 <= i < 2 ==> texts(fields@)[i] == #[trigger] fields@[i]@);
    let digits = trim_run(trimmed(fields[1].as_str()).as_str(), '%');
    match unsigned(digits.as_str(), 255) {
        None => Err(
            number_error(
                value_message("invalid pool capacity ", fields[1].as_str(), at),
                u8_complaint(digits.as_str()),
            ),
        ),
        Some(capacity) => {
            if capacity > 100 {
                return Err(capacity_error(capacity, at));
            }
            Ok(Pool { name: fields[0].clone(), capacity_percent: capacity as u8 })
        },
    }
}

/// An error about a capacity above one hundred per cent.
fn capacity_error(capacity: u64, at: usize) -> (res: Error)
    ensures
        res@ == plain(
            "invalid pool capacity "@ + decimal(capacity as nat) + " on line "@ + decimal(at as nat),
        ),
{
    let mut message = "invalid pool capacity ".to_owned();
    message.append(number(capacity).as_str());
    message.append(" on line ");
    message.append(number(at as u64).as_str());
    Error::new(message)
}

/// The pools that the lines of a listing name, from line `i` on.
pub open spec fn pools_from(
    listing: Seq<Seq<char>>,
    i: int,
    found: Seq<(Seq<char>, PoolModel)>,
) -> Result<Seq<(Seq<char>, PoolModel)>, Fault>
    decreases listing.len() - i,
{
    if i >= listing.len() {
        Ok(found)
    } else if trim(listing[i]).len() == 0 {
        pools_from(listing, i + 1, found)
    } else {
        match pool_row(listing[i], (i + 1) as nat) {
            Err(message) => Err(message),
            Ok(pool) => pools_from(listing, i + 1, put(found, pool.name, pool)),
        }
    }
}

pub open spec fn listed_pools(output: Seq<char>) -> Result<
    Seq<(Seq<char>, PoolModel)>,
    Fault,
> {
    pools_from(lines(output), 0, Seq::empty())
}

/// Reads a listing of pools: name and capacity.
pub fn parse_pools(output: &str) -> (res: Result<NameMap<Pool>, Error>)
    ensures
        yields(res, listed_pools(output@)),
{
    let listing = split_lines(output);
    let mut pools: NameMap<Pool> = NameMap::new();
    let mut i: usize = 0;
    while i < listing.len()
        invariant
            i <= listing@.len(),
            texts(listing@) == lines(output@),
            listed_pools(output@) == pools_from(lines(output@), i as int, pools@),
        decreases listing.len() - i,
    {
        let line = &listing[i];
        assert(texts(listing@)[i as int] == line@);
        if !trimmed(line.as_str()).as_str().is_empty() {
            match read_pool(line.as_str(), i + 1) {
                Ok(pool) => {
                    pools.insert(pool.name.clone(), pool);
                },
                Err(e) => {
                    return Err(e);
                },
            }
        }
        i += 1;
    }
    Ok(pools)
}

/// The datasets that a diagnostic of the dataset listing reports as missing,
/// from line `i` on; `None` where a line says anything else.
pub open spec fn missing_from(diagnostic: Seq<Seq<char>>, i: int, found: Seq<Seq<char>>) -> Option<
    Seq<Seq<char>>,
>
    decreases diagnostic.len() - i,
{
    if i >= diagnostic.len() {
        Some(found)
    } else {
        let line = trim(diagnostic[i]);
        if line.len() == 0 {
            missing_from(diagnostic, i + 1, found)
        } else {
            match drop_prefix(line, "cannot open '"@) {
                None => None,
                Some(rest) => match cut_part(rest, "': "@) {
                    None => None,
                    Some((dataset, reason)) => if !(reason == "dataset does not exist"@ || reason
                        == "no such pool"@) || dataset.len() == 0 {
                        None
                    } else {
                        missing_from(diagnostic, i + 1, with_name(found, dataset))
                    },
                },
            }
        }
    }
}

/// The missing datasets of a diagnostic that says nothing else.
pub open spec fn missing_datasets(stderr: Seq<char>) -> Option<Seq<Seq<char>>> {
    match missing_from(lines(stderr), 0, Seq::empty()) {
        Some(found) => if found.len() == 0 {
            None
        } else {
            Some(found)
        },
        None => None,
    }
}

pub fn parse_missing_datasets(stderr: &str) -> (res: Option<NameSet>)
    ensures
        match res {
            Some(missing) => missing_datasets(stderr@) == Some(missing@),
            None => missing_datasets(stderr@) is None,
        },
{
    let diagnostic = split_lines(stderr);
    let mut missing = NameSet::new();
    let mut i: usize = 0;
    while i < diagnostic.len()
        invariant
            i <= diagnostic@.len(),
            texts(diagnostic@) == lines(stderr@),
            missing_from(lines(stderr@), 0, Seq::empty()) == missing_from(
                lines(stderr@),
                i as int,
                missing@,
            ),
        decreases diagnostic.len() - i,
    {
        assert(texts(diagnostic@)[i as int] == diagnostic@[i as int]@);
        let line = trimmed(diagnostic[i].as_str());
        if !line.as_str().is_empty() {
            let rest = match strip_prefix(line.as_str(), "cannot open '") {
                Some(rest) => rest,
                None => {
                    return None;
                },
            };
            let (dataset, reason) = match split_once_part(rest.as_str(), "': ") {
                Some(parts) => parts,
                None => {
                    return None;
                },
            };
            if !(same(reason.as_str(), "dataset does not exist") || same(
                reason.as_str(),
                "no such pool",
            )) || dataset.as_str().is_empty() {
                return None;
            }
            missing.insert(dataset);
        }
        i += 1;
    }
    if missing.is_empty() {
        None
    } else {
        Some(missing)
    }
}

// ---------------------------------------------------------------------------
// Discovery
// ---------------------------------------------------------------------------

/// The distinct names of a list, in order, from the first `n` on it.
pub open spec fn name_set(list: Seq<Seq<char>>, n: int) -> Seq<Seq<char>>
    decreases n,
{
    if n <= 0 {
        Seq::empty()
    } else {
        with_name(name_set(list, n - 1), list[n - 1])
    }
}

/// The set of a list is in order and holds exactly what the list holds.
pub proof fn lemma_name_set(list: Seq<Seq<char>>, n: int)
    requires
        0 <= n <= list.len(),
    ensures
        increasing(name_set(list, n)),
        forall|name: Seq<char>| #[trigger]
            name_set(list, n).contains(name) <==> list.take(n).contains(name),
    decreases n,
{
    if n > 0 {
        lemma_name_set(list, n - 1);
        lemma_with_name(name_set(list, n - 1), list[n - 1]);
        assert forall|name: Seq<char>| #[trigger] name_set(list, n).contains(name)
            <==> list.take(n).contains(name) by {
            if list.take(n - 1).contains(name) {
                let i = list.take(n - 1).index_of(name);
                assert(list.take(n)[i] == name);
            }
            if list.take(n).contains(name) {
                let i = list.take(n).index_of(name);
                if i < n - 1 {
                    assert(list.take(n - 1)[i] == name);
                }
            }
            if name == list[n - 1] {
                assert(list.take(n)[n - 1] == name);
            }
        }
    }
}

/// The pools of a list of datasets.
pub open spec fn pools_of(datasets: Seq<Seq<char>>) -> Seq<Seq<char>> {
    datasets.map_values(|dataset: Seq<char>| pool_of(dataset))
}

/// The options before the dataset names of a listing.
pub open spec fn list_options(entries: Seq<char>, columns: Seq<char>) -> Seq<Seq<char>> {
    seq!["list"@, "-H"@, "-p"@, "-r"@, "-t"@, entries, "-o"@, columns]
}

pub open spec fn pool_options() -> Seq<Seq<char>> {
    seq!["list"@, "-H"@, "-p"@, "-o"@, "name,capacity"@]
}

pub open spec fn snapshot_columns() -> Seq<char> {
    "name,creation,"@ + "org.zsnap:managed"@ + ",userrefs,clones"@
}

/// The configured datasets, each once and in order.
pub open spec fn asked_datasets(configured: Seq<Seq<char>>) -> Seq<Seq<char>> {
    name_set(configured, configured.len() as int)
}

/// The pools of the configured datasets, each once and in order.
pub open spec fn asked_pools(configured: Seq<Seq<char>>) -> Seq<Seq<char>> {
    let pools = pools_of(asked_datasets(configured));
    name_set(pools, pools.len() as int)
}

/// The arguments that list datasets.
pub open spec fn dataset_request(configured: Seq<Seq<char>>) -> Seq<Seq<char>> {
    list_options("filesystem,volume"@, "name"@) + asked_datasets(configured)
}

/// The arguments that list snapshots.
pub open spec fn snapshot_request(configured: Seq<Seq<char>>) -> Seq<Seq<char>> {
    list_options("snapshot"@, snapshot_columns()) + asked_datasets(configured)
}

/// The arguments that list pools.
pub open spec fn pool_request(configured: Seq<Seq<char>>) -> Seq<Seq<char>> {
    pool_options() + asked_pools(configured)
}

/// The argument lists of the three discovery commands.
pub struct Discovery {
    pub datasets: Vec<String>,
    pub snapshots: Vec<String>,
    pub pools: Vec<String>,
}

pub(crate) fn name_set_of(list: &Vec<String>) -> (res: NameSet)
    ensures
        res@ == name_set(texts(list@), list@.len() as int),
{
    let mut names = NameSet::new();
    let mut i: usize = 0;
    while i < list.len()
        invariant
            i <= list@.len(),
            names@ == name_set(texts(list@), i as int),
        decreases list.len() - i,
    {
        assert(texts(list@)[i as int] == list@[i as int]@);
        names.insert(list[i].clone());
        i += 1;
    }
    names
}

/// The arguments with the names behind them.
fn with_arguments(options: Vec<String>, names: &NameSet) -> (res: Vec<String>)
    ensures
        texts(res@) == texts(options@) + names@,
{
    let mut arguments = options;
    let more = names.to_vec();
    let mut i: usize = 0;
    assert(texts(options@) + texts(more@).take(0) =~= texts(options@));
    while i < more.len()
        invariant
            i <= more@.len(),
            texts(arguments@) == texts(options@) + texts(more@).take(i as int),
        decreases more.len() - i,
    {
        proof {
            lemma_texts_push(arguments@, more@[i as int]);
            assert(texts(options@) + texts(more@).take(i + 1) =~= (texts(options@) + texts(
                more@,
            ).take(i as int)).push(more@[i as int]@));
        }
        arguments.push(more[i].clone());
        i += 1;
    }
    assert(texts(more@).take(i as int) =~= texts(more@));
    arguments
}

fn listing_options(entries: &str, columns: &str) -> (res: Vec<String>)
    ensures
        texts(res@) == list_options(entries@, columns@),
{
    let mut options: Vec<String> = Vec::new();
    options.push("list".to_owned());
    options.push("-H".to_owned());
    options.push("-p".to_owned());
    options.push("-r".to_owned());
    options.push("-t".to_owned());
    options.push(entries.to_owned());
    options.push("-o".to_owned());
    options.push(columns.to_owned());
    assert(texts(options@) =~= list_options(entries@, columns@));
    options
}

/// The commands that list the configured datasets with their descendants,
/// their snapshots, and their pools.
pub fn discovery(configured: &Vec<String>) -> (res: Discovery)
    ensures
        texts(res.datasets@) == dataset_request(texts(configured@)),
        texts(res.snapshots@) == snapshot_request(texts(configured@)),
        texts(res.pools@) == pool_request(texts(configured@)),
{
    let datasets = name_set_of(configured);
    let ghost all = datasets@;
    let mut pools = NameSet::new();
    let mut i: usize = 0;
    while i < datasets.len()
        invariant
            i <= datasets@.len(),
            datasets@ == all,
            pools@ == name_set(pools_of(all), i as int),
        decreases all.len() - i,
    {
        assert(pools_of(all)[i as int] == pool_of(all[i as int]));
        pools.insert(Inventory::pool_for_dataset(datasets.name_at(i).as_str()));
        i += 1;
    }
    let mut columns = "name,creation,".to_owned();
    columns.append(MANAGED_PROPERTY);
    columns.append(",userrefs,clones");
    let mut options: Vec<String> = Vec::new();
    options.push("list".to_owned());
    options.push("-H".to_owned());
    options.push("-p".to_owned());
    options.push("-o".to_owned());
    options.push("name,capacity".to_owned());
    assert(texts(options@) =~= pool_options());
    Discovery {
        datasets: with_arguments(listing_options("filesystem,volume", "name"), &datasets),
        snapshots: with_arguments(listing_options("snapshot", columns.as_str()), &datasets),
        pools: with_arguments(options, &pools),
    }
}

/// What is said of a command that failed.
pub open spec fn failure_text(
    program: Seq<char>,
    arguments: Seq<Seq<char>>,
    status: Seq<char>,
    stderr: Seq<char>,
) -> Seq<char> {
    program + " "@ + join(arguments, " "@) + " failed with "@ + status + ": "@ + trim(stderr)
}

pub fn command_failure(program: &str, arguments: &Vec<String>, status: &str, stderr: &str) -> (res:
    Error)
    ensures
        res@ == plain(failure_text(program@, texts(arguments@), status@, stderr@)),
{
    let mut message = program.to_owned();
    message.append(" ");
    message.append(joined(arguments, " ").as_str());
    message.append(" failed with ");
    message.append(status);
    message.append(": ");
    message.append(trimmed(stderr).as_str());
    Error::new(message)
}

pub open spec fn bullets(names: Seq<Seq<char>>) -> Seq<Seq<char>> {
    names.map_values(|name: Seq<char>| "  - "@ + name)
}

/// What is said of a dataset listing that failed: the missing sections where
/// the diagnostic is about nothing else.
pub open spec fn listing_failure_text(
    program: Seq<char>,
    arguments: Seq<Seq<char>>,
    status: Seq<char>,
    stderr: Seq<char>,
) -> Seq<char> {
    match missing_datasets(stderr) {
        Some(missing) => "configured ZFS dataset sections reference missing names:\n"@ + join(
            bullets(missing),
            "\n"@,
        ) + "\ncorrect or remove these sections, then rerun `zsnap check --probe`"@,
        None => failure_text(program, arguments, status, stderr),
    }
}

pub fn dataset_list_failure(
    program: &str,
    arguments: &Vec<String>,
    status: &str,
    stderr: &str,
) -> (res: Error)
    ensures
        res@ == plain(listing_failure_text(program@, texts(arguments@), status@, stderr@)),
{
    match parse_missing_datasets(stderr) {
        None => command_failure(program, arguments, status, stderr),
        Some(missing) => {
            let ghost names = missing@;
            let mut rows: Vec<String> = Vec::new();
            let mut i: usize = 0;
            assert(texts(rows@) =~= bullets(names).take(0));
            while i < missing.len()
                invariant
                    i <= missing@.len(),
                    missing@ == names,
                    texts(rows@) == bullets(names).take(i as int),
                decreases names.len() - i,
            {
                let mut row = "  - ".to_owned();
                row.append(missing.name_at(i).as_str());
                proof {
                    lemma_texts_push(rows@, row);
                    assert(bullets(names).take(i + 1) =~= bullets(names).take(i as int).push(row@));
                }
                rows.push(row);
                i += 1;
            }
            assert(bullets(names).take(i as int) =~= bullets(names));
            let mut message = "configured ZFS dataset sections reference missing names:\n".to_owned();
            message.append(joined(&rows, "\n").as_str());
            message.append(
                "\ncorrect or remove these sections, then rerun `zsnap check --probe`",
            );
            Error::new(message)
        },
    }
}

/// The inventory of three listings.
pub open spec fn listed_inventory(
    datasets: Seq<char>,
    snapshots: Seq<char>,
    pools: Seq<char>,
) -> Result<InventoryModel, Fault> {
    match listed_datasets(datasets) {
        Err(message) => Err(message),
        Ok(datasets) => match listed_snapshots(snapshots) {
            Err(message) => Err(message),
            Ok(snapshots) => match listed_pools(pools) {
                Err(message) => Err(message),
                Ok(pools) => Ok(InventoryModel { datasets, snapshots, pools }),
            },
        },
    }
}

pub fn inventory_from(datasets: &str, snapshots: &str, pools: &str) -> (res: Result<
    Inventory,
    Error,
>)
    ensures
        yields(res, listed_inventory(datasets@, snapshots@, pools@)),
{
    let datasets = match parse_datasets(datasets) {
        Ok(value) => value,
        Err(e) => {
            return Err(e);
        },
    };
    let snapshots = match parse_snapshots(snapshots) {
        Ok(value) => value,
        Err(e) => {
            return Err(e);
        },
    };
    let pools = match parse_pools(pools) {
        Ok(value) => value,
        Err(e) => {
            return Err(e);
        },
    };
    Ok(Inventory { datasets, snapshots, pools })
}

} // verus!
