//! Collections ordered by name.
//!
//! [`NameSet`] and [`NameMap`] keep their names strictly increasing in the
//! order of `str`. Their views are the ordered sequences themselves, so that a
//! specification can speak of membership and of iteration order alike.
use vstd::prelude::*;

use crate::text::{before, lemma_lt_asymmetric, lemma_lt_irreflexive, lemma_lt_total, lemma_lt_transitive, same, text_lt, texts};

verus! {

/// Strictly increasing names.
pub open spec fn increasing(names: Seq<Seq<char>>) -> bool {
    forall|i: int, j: int|
        0 <= i < j < names.len() ==> text_lt(#[trigger] names[i], #[trigger] names[j])
}

/// How many leading names come before `name`.
pub open spec fn rank(names: Seq<Seq<char>>, name: Seq<char>) -> int
    decreases names.len(),
{
    if names.len() > 0 && text_lt(names[0], name) {
        1 + rank(names.drop_first(), name)
    } else {
        0
    }
}

/// The set with `name` in it.
pub open spec fn with_name(names: Seq<Seq<char>>, name: Seq<char>) -> Seq<Seq<char>> {
    if names.contains(name) {
        names
    } else {
        names.insert(rank(names, name), name)
    }
}

/// The names of an association.
pub open spec fn names_of<T>(entries: Seq<(Seq<char>, T)>) -> Seq<Seq<char>> {
    entries.map_values(|e: (Seq<char>, T)| e.0)
}

/// The value under `name`.
pub open spec fn lookup<T>(entries: Seq<(Seq<char>, T)>, name: Seq<char>) -> Option<T> {
    let r = rank(names_of(entries), name);
    if r < entries.len() && entries[r].0 == name {
        Some(entries[r].1)
    } else {
        None
    }
}

/// The association with `value` under `name`, in place of any earlier value.
pub open spec fn put<T>(entries: Seq<(Seq<char>, T)>, name: Seq<char>, value: T) -> Seq<
    (Seq<char>, T),
> {
    let r = rank(names_of(entries), name);
    if names_of(entries).contains(name) {
        entries.update(r, (name, value))
    } else {
        entries.insert(r, (name, value))
    }
}

/// The association without `name`.
pub open spec fn without<T>(entries: Seq<(Seq<char>, T)>, name: Seq<char>) -> Seq<(Seq<char>, T)> {
    if names_of(entries).contains(name) {
        entries.remove(rank(names_of(entries), name))
    } else {
        entries
    }
}

pub proof fn lemma_rank_bounds(names: Seq<Seq<char>>, name: Seq<char>)
    ensures
        0 <= rank(names, name) <= names.len(),
        forall|i: int| 0 <= i < rank(names, name) ==> text_lt(#[trigger] names[i], name),
        rank(names, name) < names.len() ==> !text_lt(names[rank(names, name)], name),
    decreases names.len(),
{
    if names.len() > 0 && text_lt(names[0], name) {
        let rest = names.drop_first();
        lemma_rank_bounds(rest, name);
        assert forall|i: int| 0 <= i < rank(names, name) implies text_lt(#[trigger] names[i], name) by {
            if i > 0 {
                assert(names[i] == rest[i - 1]);
            }
        }
    }
}

/// The boundary between the smaller names and the others is the rank.
proof fn lemma_rank_is(names: Seq<Seq<char>>, name: Seq<char>, r: int)
    requires
        0 <= r <= names.len(),
        forall|i: int| 0 <= i < r ==> text_lt(#[trigger] names[i], name),
        r < names.len() ==> !text_lt(names[r], name),
    ensures
        rank(names, name) == r,
{
    lemma_rank_bounds(names, name);
    let q = rank(names, name);
    if q < r {
        assert(text_lt(names[q], name));
    } else if r < q {
        assert(text_lt(names[r], name));
    }
}

/// In increasing names, a name stands at its rank or nowhere.
pub proof fn lemma_rank_finds(names: Seq<Seq<char>>, name: Seq<char>)
    requires
        increasing(names),
    ensures
        0 <= rank(names, name) <= names.len(),
        names.contains(name) <==> (rank(names, name) < names.len() && names[rank(names, name)]
            == name),
        forall|i: int| 0 <= i < names.len() && #[trigger] names[i] == name ==> i == rank(names, name),
{
    lemma_rank_bounds(names, name);
    let r = rank(names, name);
    assert forall|i: int| 0 <= i < names.len() && #[trigger] names[i] == name implies i == r by {
        if i < r {
            assert(text_lt(names[i], name));
            lemma_lt_irreflexive(name);
        } else if i > r {
            assert(text_lt(names[r], names[i]));
        }
    }
    if names.contains(name) {
        let i = choose|i: int| 0 <= i < names.len() && names[i] == name;
        assert(i == r);
    }
}

/// Adding a name keeps the order and adds nothing else.
pub proof fn lemma_with_name(names: Seq<Seq<char>>, name: Seq<char>)
    requires
        increasing(names),
    ensures
        increasing(with_name(names, name)),
        forall|n: Seq<char>| #[trigger]
            with_name(names, name).contains(n) <==> (n == name || names.contains(n)),
{
    lemma_rank_bounds(names, name);
    lemma_rank_finds(names, name);
    let r = rank(names, name);
    let result = with_name(names, name);
    if !names.contains(name) {
        assert forall|i: int, j: int| 0 <= i < j < result.len() implies text_lt(
            #[trigger] result[i],
            #[trigger] result[j],
        ) by {
            lemma_insert_pair(names, name, i, j);
        }
    }
    assert forall|n: Seq<char>| #[trigger] result.contains(n) <==> (n == name || names.contains(n)) by {
        if names.contains(n) {
            let i = choose|i: int| 0 <= i < names.len() && names[i] == n;
            if !names.contains(name) {
                assert(result[if i < r {
                    i
                } else {
                    i + 1
                }] == n);
            }
        }
        if n == name && !names.contains(name) {
            assert(result[r] == n);
        }
        if result.contains(n) && n != name {
            let i = choose|i: int| 0 <= i < result.len() && result[i] == n;
            if !names.contains(name) {
                assert(names[if i < r {
                    i
                } else {
                    i - 1
                }] == n);
            }
        }
    }
}

proof fn lemma_insert_pair(names: Seq<Seq<char>>, name: Seq<char>, i: int, j: int)
    requires
        increasing(names),
        !names.contains(name),
        0 <= i < j <= names.len(),
    ensures
        text_lt(
            names.insert(rank(names, name), name)[i],
            names.insert(rank(names, name), name)[j],
        ),
{
    lemma_rank_bounds(names, name);
    let r = rank(names, name);
    let result = names.insert(r, name);
    let a = result[i];
    let b = result[j];
    if j < r {
        assert(a == names[i] && b == names[j]);
    } else if j == r {
        assert(a == names[i]);
    } else if i == r {
        assert(b == names[j - 1]);
        assert(names.contains(names[r]));
        lemma_lt_total(names[r], name);
        if j - 1 > r {
            assert(text_lt(names[r], names[j - 1]));
            lemma_lt_transitive(name, names[r], names[j - 1]);
        }
    } else if i > r {
        assert(a == names[i - 1] && b == names[j - 1]);
    } else {
        assert(a == names[i] && b == names[j - 1]);
    }
}

proof fn lemma_names_of_put<T>(entries: Seq<(Seq<char>, T)>, name: Seq<char>, value: T)
    requires
        increasing(names_of(entries)),
    ensures
        names_of(put(entries, name, value)) == with_name(names_of(entries), name),
{
    lemma_rank_finds(names_of(entries), name);
    assert(names_of(put(entries, name, value)) =~= with_name(names_of(entries), name));
}

/// What a put changes: the value under its name and no other.
pub proof fn lemma_put<T>(entries: Seq<(Seq<char>, T)>, name: Seq<char>, value: T, other: Seq<char>)
    requires
        increasing(names_of(entries)),
    ensures
        increasing(names_of(put(entries, name, value))),
        lookup(put(entries, name, value), name) == Some(value),
        other != name ==> lookup(put(entries, name, value), other) == lookup(entries, other),
        names_of(put(entries, name, value)) == with_name(names_of(entries), name),
{
    let names = names_of(entries);
    let result = put(entries, name, value);
    lemma_names_of_put(entries, name, value);
    lemma_with_name(names, name);
    lemma_rank_finds(names, name);
    lemma_rank_finds(names_of(result), name);
    lemma_rank_finds(names, other);
    lemma_rank_finds(names_of(result), other);
    let r = rank(names, name);
    assert(result[r] == (name, value));
    assert(names_of(result)[r] == name);
    if other != name {
        let q = rank(names, other);
        let q2 = rank(names_of(result), other);
        assert(with_name(names, name).contains(other) <==> names.contains(other));
        if names.contains(other) {
            assert(names[q] == other);
            let at = if names.contains(name) || q < r {
                q
            } else {
                q + 1
            };
            assert(result[at] == entries[q]);
            assert(names_of(result)[at] == other);
        } else {
            if q2 < result.len() && result[q2].0 == other {
                assert(names_of(result)[q2] == other);
            }
            if q < entries.len() && entries[q].0 == other {
                assert(names[q] == other);
            }
        }
    }
}

/// In increasing entries a lookup finds exactly the entry of the name.
pub proof fn lemma_lookup<T>(entries: Seq<(Seq<char>, T)>, name: Seq<char>)
    requires
        increasing(names_of(entries)),
    ensures
        lookup(entries, name) is Some <==> names_of(entries).contains(name),
        forall|i: int|
            0 <= i < entries.len() && (#[trigger] entries[i]).0 == name ==> lookup(entries, name)
                == Some(entries[i].1),
{
    lemma_rank_finds(names_of(entries), name);
    assert forall|i: int| 0 <= i < entries.len() && (#[trigger] entries[i]).0 == name implies lookup(
        entries,
        name,
    ) == Some(entries[i].1) by {
        assert(names_of(entries)[i] == name);
    }
    if names_of(entries).contains(name) {
        assert(names_of(entries)[rank(names_of(entries), name)] == name);
    }
    if lookup(entries, name) is Some {
        assert(names_of(entries)[rank(names_of(entries), name)] == name);
    }
}

/// Removing a name keeps the order and every other value.
pub proof fn lemma_without<T>(entries: Seq<(Seq<char>, T)>, name: Seq<char>)
    requires
        increasing(names_of(entries)),
    ensures
        increasing(names_of(without(entries, name))),
{
    lemma_rank_finds(names_of(entries), name);
    let names = names_of(entries);
    let result = names_of(without(entries, name));
    let r = rank(names, name);
    assert forall|i: int, j: int| 0 <= i < j < result.len() implies text_lt(
        #[trigger] result[i],
        #[trigger] result[j],
    ) by {
        if names.contains(name) {
            let a = if i < r {
                i
            } else {
                i + 1
            };
            let b = if j < r {
                j
            } else {
                j + 1
            };
            assert(result[i] == names[a]);
            assert(result[j] == names[b]);
        }
    }
}

/// Taking a value out and putting another in is putting the other in.
pub proof fn lemma_put_back<T>(entries: Seq<(Seq<char>, T)>, name: Seq<char>, value: T)
    requires
        increasing(names_of(entries)),
    ensures
        put(without(entries, name), name, value) == put(entries, name, value),
{
    let names = names_of(entries);
    let r = rank(names, name);
    lemma_rank_finds(names, name);
    lemma_rank_bounds(names, name);
    if names.contains(name) {
        let rest = without(entries, name);
        assert(names_of(rest) =~= names.remove(r));
        assert forall|i: int| 0 <= i < r implies text_lt(#[trigger] names_of(rest)[i], name) by {
            assert(names_of(rest)[i] == names[i]);
        }
        if r < rest.len() {
            assert(names_of(rest)[r] == names[r + 1]);
            assert(text_lt(names[r], names[r + 1]));
            lemma_lt_asymmetric(name, names[r + 1]);
        }
        lemma_rank_is(names_of(rest), name, r);
        assert forall|i: int| 0 <= i < rest.len() implies #[trigger] names_of(rest)[i] != name by {
            if i < r {
                assert(names_of(rest)[i] == names[i]);
            } else {
                assert(names_of(rest)[i] == names[i + 1]);
            }
        }
        assert(rest.insert(r, (name, value)) =~= entries.update(r, (name, value)));
    }
}

/// The rank of `name` in a vector of strings that are in order.
fn search(names: &Vec<String>, name: &str) -> (res: usize)
    requires
        increasing(texts(names@)),
    ensures
        res == rank(texts(names@), name@),
        res <= names@.len(),
{
    let ghost all = texts(names@);
    let mut low: usize = 0;
    let mut high: usize = names.len();
    while low < high
        invariant
            low <= high <= names@.len(),
            all == texts(names@),
            increasing(all),
            forall|i: int| 0 <= i < low ==> text_lt(#[trigger] all[i], name@),
            high < names@.len() ==> !text_lt(all[high as int], name@),
        decreases high - low,
    {
        let middle: usize = low + (high - low) / 2;
        assert(all[middle as int] == names@[middle as int]@);
        if before(names[middle].as_str(), name) {
            assert forall|i: int| 0 <= i < middle + 1 implies text_lt(#[trigger] all[i], name@) by {
                if i < middle {
                    lemma_lt_transitive(all[i], all[middle as int], name@);
                }
            }
            low = middle + 1;
        } else {
            high = middle;
        }
    }
    proof {
        lemma_rank_is(all, name@, low as int);
    }
    low
}

/// Names without repetition, in order.
pub struct NameSet {
    names: Vec<String>,
}

impl View for NameSet {
    type V = Seq<Seq<char>>;

    closed spec fn view(&self) -> Seq<Seq<char>> {
        texts(self.names@)
    }
}

impl NameSet {
    #[verifier::type_invariant]
    spec fn in_order(self) -> bool {
        increasing(texts(self.names@))
    }

    pub fn new() -> (res: Self)
        ensures
            res@ == Seq::<Seq<char>>::empty(),
    {
        let names: Vec<String> = Vec::new();
        assert(texts(names@) =~= Seq::<Seq<char>>::empty());
        NameSet { names }
    }

    pub fn len(&self) -> (res: usize)
        ensures
            res == self@.len(),
            increasing(self@),
    {
        proof {
            use_type_invariant(self);
        }
        self.names.len()
    }

    pub fn is_empty(&self) -> (res: bool)
        ensures
            res == (self@.len() == 0),
    {
        self.names.len() == 0
    }

    pub fn contains(&self, name: &str) -> (res: bool)
        ensures
            res == self@.contains(name@),
            increasing(self@),
    {
        proof {
            use_type_invariant(self);
            lemma_rank_finds(texts(self.names@), name@);
        }
        let at: usize = search(&self.names, name);
        at < self.names.len() && same(self.names[at].as_str(), name)
    }

    /// Adds a name; the result tells whether it was new.
    pub fn insert(&mut self, name: String) -> (added: bool)
        ensures
            final(self)@ == with_name(old(self)@, name@),
            added == !old(self)@.contains(name@),
            increasing(old(self)@),
            increasing(final(self)@),
    {
        proof {
            use_type_invariant(&*self);
            lemma_rank_finds(texts(self.names@), name@);
            lemma_with_name(texts(self.names@), name@);
        }
        let at: usize = search(&self.names, name.as_str());
        if at < self.names.len() && same(self.names[at].as_str(), name.as_str()) {
            return false;
        }
        let mut names: Vec<String> = Vec::new();
        core::mem::swap(&mut names, &mut self.names);
        let ghost old_names = names@;
        names.insert(at, name);
        proof {
            assert(texts(names@) =~= texts(old_names).insert(at as int, name@));
        }
        self.names = names;
        true
    }

    pub fn name_at(&self, i: usize) -> (res: &String)
        requires
            i < self@.len(),
        ensures
            res@ == self@[i as int],
    {
        &self.names[i]
    }

    /// The names as a vector.
    pub fn to_vec(&self) -> (res: Vec<String>)
        ensures
            texts(res@) == self@,
            increasing(self@),
    {
        proof {
            use_type_invariant(self);
        }
        crate::text::copy_texts(&self.names)
    }

    pub fn copy(&self) -> (res: NameSet)
        ensures
            res@ == self@,
    {
        proof {
            use_type_invariant(self);
        }
        NameSet { names: crate::text::copy_texts(&self.names) }
    }
}

/// Values under names, in the order of the names.
pub struct NameMap<V> {
    names: Vec<String>,
    values: Vec<V>,
}

impl<V: View> View for NameMap<V> {
    type V = Seq<(Seq<char>, V::V)>;

    closed spec fn view(&self) -> Seq<(Seq<char>, V::V)> {
        Seq::new(self.names@.len(), |i: int| (self.names@[i]@, self.values@[i]@))
    }
}

impl<V> NameMap<V> {
    #[verifier::type_invariant]
    spec fn in_order(self) -> bool {
        &&& self.names@.len() == self.values@.len()
        &&& increasing(texts(self.names@))
    }
}

impl<V: View> NameMap<V> {
    pub fn new() -> (res: Self)
        ensures
            res@ == Seq::<(Seq<char>, V::V)>::empty(),
    {
        let names: Vec<String> = Vec::new();
        let values: Vec<V> = Vec::new();
        let res = NameMap { names, values };
        assert(res@ =~= Seq::<(Seq<char>, V::V)>::empty());
        res
    }

    pub fn len(&self) -> (res: usize)
        ensures
            res == self@.len(),
            increasing(names_of(self@)),
    {
        proof {
            use_type_invariant(self);
            assert(names_of(self@) =~= texts(self.names@));
        }
        self.names.len()
    }

    pub fn is_empty(&self) -> (res: bool)
        ensures
            res == (self@.len() == 0),
    {
        self.names.len() == 0
    }

    pub fn get(&self, name: &str) -> (res: Option<&V>)
        ensures
            match res {
                Some(value) => lookup(self@, name@) == Some(value@),
                None => lookup(self@, name@) is None,
            },
            increasing(names_of(self@)),
    {
        proof {
            use_type_invariant(self);
            assert(names_of(self@) =~= texts(self.names@));
        }
        let at: usize = search(&self.names, name);
        if at < self.names.len() && same(self.names[at].as_str(), name) {
            Some(&self.values[at])
        } else {
            None
        }
    }

    pub fn contains_key(&self, name: &str) -> (res: bool)
        ensures
            res == (lookup(self@, name@) is Some),
            res == names_of(self@).contains(name@),
            increasing(names_of(self@)),
    {
        let res = self.get(name).is_some();
        proof {
            lemma_lookup(self@, name@);
        }
        res
    }

    pub fn name_at(&self, i: usize) -> (res: &String)
        requires
            i < self@.len(),
        ensures
            res@ == self@[i as int].0,
    {
        &self.names[i]
    }

    pub fn value_at(&self, i: usize) -> (res: &V)
        requires
            i < self@.len(),
        ensures
            res@ == self@[i as int].1,
    {
        proof {
            use_type_invariant(self);
        }
        &self.values[i]
    }

    /// Puts a value under a name; an earlier value under it is replaced.
    pub fn insert(&mut self, name: String, value: V)
        ensures
            final(self)@ == put(old(self)@, name@, value@),
            increasing(names_of(old(self)@)),
            increasing(names_of(final(self)@)),
    {
        let ghost before_view = self@;
        proof {
            use_type_invariant(&*self);
            assert(names_of(self@) =~= texts(self.names@));
            lemma_rank_finds(texts(self.names@), name@);
            lemma_with_name(texts(self.names@), name@);
            lemma_names_of_put(self@, name@, value@);
        }
        let at: usize = search(&self.names, name.as_str());
        let mut names: Vec<String> = Vec::new();
        let mut values: Vec<V> = Vec::new();
        let found = at < self.names.len() && same(self.names[at].as_str(), name.as_str());
        let ghost r = at as int;
        let mut taken = NameMap { names, values };
        core::mem::swap(&mut taken, self);
        proof {
            use_type_invariant(&taken);
        }
        let NameMap { names: mut names, values: mut values } = taken;
        let ghost old_names = names@;
        let ghost old_values = values@;
        if found {
            values.remove(at);
            values.insert(at, value);
            assert(values@ =~= old_values.update(r, value));
        } else {
            names.insert(at, name);
            values.insert(at, value);
            assert(texts(names@) =~= texts(old_names).insert(r, name@));
        }
        *self = NameMap { names, values };
        assert(self@ =~= put(before_view, name@, value@));
    }

    /// Takes a value out.
    pub fn remove(&mut self, name: &str) -> (res: Option<V>)
        ensures
            final(self)@ == without(old(self)@, name@),
            match res {
                Some(value) => lookup(old(self)@, name@) == Some(value@),
                None => lookup(old(self)@, name@) is None,
            },
            increasing(names_of(old(self)@)),
            increasing(names_of(final(self)@)),
    {
        let ghost before_view = self@;
        proof {
            use_type_invariant(&*self);
            assert(names_of(self@) =~= texts(self.names@));
            lemma_rank_finds(texts(self.names@), name@);
            lemma_without(self@, name@);
        }
        let at: usize = search(&self.names, name);
        if !(at < self.names.len() && same(self.names[at].as_str(), name)) {
            return None;
        }
        let ghost r = at as int;
        let mut taken = NameMap { names: Vec::new(), values: Vec::new() };
        core::mem::swap(&mut taken, self);
        proof {
            use_type_invariant(&taken);
        }
        let NameMap { names: mut names, values: mut values } = taken;
        let ghost old_names = names@;
        names.remove(at);
        let value = values.remove(at);
        proof {
            assert(texts(names@) =~= names_of(without(before_view, name@)));
        }
        *self = NameMap { names, values };
        assert(self@ =~= without(before_view, name@));
        Some(value)
    }

    /// The names as a vector.
    pub fn keys(&self) -> (res: Vec<String>)
        ensures
            texts(res@) == names_of(self@),
            increasing(names_of(self@)),
    {
        proof {
            use_type_invariant(self);
            assert(names_of(self@) =~= texts(self.names@));
        }
        crate::text::copy_texts(&self.names)
    }

    /// The values in the order of their names.
    pub fn into_values(self) -> (res: Vec<V>)
        ensures
            res@.len() == self@.len(),
            forall|i: int| 0 <= i < res@.len() ==> (#[trigger] res@[i])@ == self@[i].1,
            increasing(names_of(self@)),
    {
        proof {
            use_type_invariant(&self);
            assert(names_of(self@) =~= texts(self.names@));
        }
        self.values
    }
}

} // verus!
