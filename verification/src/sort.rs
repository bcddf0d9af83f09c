//! A stable sort over the models of values.
use vstd::prelude::*;

use crate::text::{before, lemma_lt_asymmetric, lemma_lt_total, lemma_lt_transitive, text_le, text_lt, texts};

verus! {

/// The models of a sequence of values.
pub open spec fn views<T: View>(s: Seq<T>) -> Seq<T::V> {
    s.map_values(|x: T| x@)
}

pub proof fn lemma_views_push<T: View>(s: Seq<T>, x: T)
    ensures
        views(s.push(x)) == views(s).push(x@),
{
    assert(views(s.push(x)) =~= views(s).push(x@));
}

pub proof fn lemma_views_texts(s: Seq<String>)
    ensures
        views(s) == texts(s),
{
    assert(views(s) =~= texts(s));
}

/// A value with a place in a total order that its model decides.
pub trait Sortable: View + Sized {
    /// Whether `a` may stand before `b`.
    spec fn may_precede(a: Self::V, b: Self::V) -> bool;

    proof fn lemma_total(a: Self::V, b: Self::V)
        ensures
            Self::may_precede(a, b) || Self::may_precede(b, a),
    ;

    proof fn lemma_transitive(a: Self::V, b: Self::V, c: Self::V)
        requires
            Self::may_precede(a, b),
            Self::may_precede(b, c),
        ensures
            Self::may_precede(a, c),
    ;

    fn precedes(&self, other: &Self) -> (res: bool)
        ensures
            res == Self::may_precede(self@, other@),
    ;
}

/// How many leading values may stand before `x`.
pub open spec fn slot<T: Sortable>(s: Seq<T::V>, x: T::V) -> int
    decreases s.len(),
{
    if s.len() > 0 && T::may_precede(s[0], x) {
        1 + slot::<T>(s.drop_first(), x)
    } else {
        0
    }
}

/// The values in order; equals keep the order they had.
pub open spec fn sorted<T: Sortable>(s: Seq<T::V>) -> Seq<T::V>
    decreases s.len(),
{
    if s.len() == 0 {
        s
    } else {
        let rest = sorted::<T>(s.drop_last());
        rest.insert(slot::<T>(rest, s.last()), s.last())
    }
}

/// Each value may stand before those after it.
pub open spec fn is_sorted<T: Sortable>(s: Seq<T::V>) -> bool {
    forall|i: int, j: int|
        0 <= i < j < s.len() ==> T::may_precede(#[trigger] s[i], #[trigger] s[j])
}

proof fn lemma_slot_bounds<T: Sortable>(s: Seq<T::V>, x: T::V)
    ensures
        0 <= slot::<T>(s, x) <= s.len(),
        forall|i: int| 0 <= i < slot::<T>(s, x) ==> T::may_precede(#[trigger] s[i], x),
        slot::<T>(s, x) < s.len() ==> !T::may_precede(s[slot::<T>(s, x)], x),
    decreases s.len(),
{
    if s.len() > 0 && T::may_precede(s[0], x) {
        let rest = s.drop_first();
        lemma_slot_bounds::<T>(rest, x);
        assert forall|i: int| 0 <= i < slot::<T>(s, x) implies T::may_precede(#[trigger] s[i], x) by {
            if i > 0 {
                assert(s[i] == rest[i - 1]);
            }
        }
    }
}

proof fn lemma_slot_is<T: Sortable>(s: Seq<T::V>, x: T::V, p: int)
    requires
        0 <= p <= s.len(),
        forall|i: int| 0 <= i < p ==> T::may_precede(#[trigger] s[i], x),
        p < s.len() ==> !T::may_precede(s[p], x),
    ensures
        slot::<T>(s, x) == p,
{
    lemma_slot_bounds::<T>(s, x);
    let q = slot::<T>(s, x);
    if q < p {
        assert(T::may_precede(s[q], x));
    } else if p < q {
        assert(T::may_precede(s[p], x));
    }
}

/// Sorting gives the same values in order.
pub proof fn lemma_sorted<T: Sortable>(s: Seq<T::V>)
    ensures
        sorted::<T>(s).len() == s.len(),
        is_sorted::<T>(sorted::<T>(s)),
        sorted::<T>(s).to_multiset() == s.to_multiset(),
    decreases s.len(),
{
    broadcast use vstd::seq_lib::group_to_multiset_ensures;

    if s.len() > 0 {
        let rest = sorted::<T>(s.drop_last());
        let x = s.last();
        lemma_sorted::<T>(s.drop_last());
        lemma_slot_bounds::<T>(rest, x);
        let p = slot::<T>(rest, x);
        let result = rest.insert(p, x);
        assert forall|i: int, j: int| 0 <= i < j < result.len() implies T::may_precede(
            #[trigger] result[i],
            #[trigger] result[j],
        ) by {
            if j == p {
                assert(result[i] == rest[i]);
            } else if i == p {
                assert(result[j] == rest[j - 1]);
                T::lemma_total(rest[p], x);
                if j - 1 > p {
                    assert(T::may_precede(rest[p], rest[j - 1]));
                    T::lemma_transitive(x, rest[p], rest[j - 1]);
                }
            } else {
                let a = if i < p {
                    i
                } else {
                    i - 1
                };
                let b = if j < p {
                    j
                } else {
                    j - 1
                };
                assert(result[i] == rest[a]);
                assert(result[j] == rest[b]);
            }
        }
        vstd::seq_lib::to_multiset_insert(rest, p, x);
        assert(s =~= s.drop_last().push(x));
    } else {
        assert(sorted::<T>(s) =~= s);
    }
}

/// Sorting keeps exactly the values there were.
pub proof fn lemma_sorted_members<T: Sortable>(s: Seq<T::V>, x: T::V)
    ensures
        sorted::<T>(s).contains(x) <==> s.contains(x),
{
    broadcast use vstd::seq_lib::group_to_multiset_ensures;

    lemma_sorted::<T>(s);
    assert(s.to_multiset().contains(x) <==> s.contains(x));
    assert(sorted::<T>(s).to_multiset().contains(x) <==> sorted::<T>(s).contains(x));
}

/// Sorts a vector.
pub fn sort<T: Sortable>(values: Vec<T>) -> (res: Vec<T>)
    ensures
        views(res@) == sorted::<T>(views(values@)),
        res@.len() == values@.len(),
{
    let ghost all = views(values@);
    let mut res: Vec<T> = Vec::new();
    let mut source = values;
    let mut rest: Vec<T> = Vec::new();
    // The values come off the end of `rest` in their original order.
    while source.len() > 0
        invariant
            views(source@) == all.take(source@.len() as int),
            views(rest@) == all.skip(source@.len() as int).reverse(),
            source@.len() + rest@.len() == all.len(),
        decreases source.len(),
    {
        let ghost left = source@;
        match source.pop() {
            Some(x) => {
                proof {
                    lemma_views_push(rest@, x);
                    let n = left.len() as int;
                    assert(views(left)[n - 1] == x@);
                    assert(all[n - 1] == x@);
                    assert(views(source@) =~= all.take(n - 1));
                    assert(all.skip(n - 1).reverse() =~= all.skip(n).reverse().push(x@));
                }
                rest.push(x);
            },
            None => {},
        }
    }
    assert(all.skip(0) =~= all);
    assert(views(res@) =~= sorted::<T>(all.take(0)));
    while rest.len() > 0
        invariant
            res@.len() + rest@.len() == all.len(),
            views(rest@) == all.skip(res@.len() as int).reverse(),
            views(res@) == sorted::<T>(all.take(res@.len() as int)),
        decreases rest.len(),
    {
        let ghost done = res@.len() as int;
        let ghost left = rest@;
        match rest.pop() {
            Some(x) => {
                proof {
                    assert(views(left)[left.len() - 1] == x@);
                    assert(all.skip(done).reverse()[left.len() - 1] == all[done]);
                    assert(x@ == all[done]);
                    assert(views(rest@) =~= views(left).drop_last());
                    assert(all.skip(done).reverse().drop_last() =~= all.skip(done + 1).reverse());
                    lemma_sorted::<T>(all.take(done));
                    assert(all.take(done + 1).drop_last() =~= all.take(done));
                }
                let ghost placed = views(res@);
                let mut p: usize = res.len();
                while p > 0 && !res[p - 1].precedes(&x)
                    invariant
                        p <= res@.len(),
                        placed == views(res@),
                        p < res@.len() ==> !T::may_precede(placed[p as int], x@),
                    decreases p,
                {
                    assert(placed[p - 1] == res@[p - 1]@);
                    p -= 1;
                }
                proof {
                    assert forall|i: int| 0 <= i < p implies T::may_precede(
                        #[trigger] placed[i],
                        x@,
                    ) by {
                        assert(placed[p - 1] == res@[p - 1]@);
                        if i < p - 1 {
                            T::lemma_transitive(placed[i], placed[p - 1], x@);
                        }
                    }
                    lemma_slot_is::<T>(placed, x@, p as int);
                }
                let ghost old_res = res@;
                res.insert(p, x);
                assert(views(res@) =~= placed.insert(p as int, x@));
            },
            None => {},
        }
    }
    assert(all.take(all.len() as int) =~= all);
    res
}

impl Sortable for String {
    open spec fn may_precede(a: Seq<char>, b: Seq<char>) -> bool {
        text_le(a, b)
    }

    proof fn lemma_total(a: Seq<char>, b: Seq<char>) {
        if text_lt(b, a) {
            lemma_lt_asymmetric(b, a);
        }
    }

    proof fn lemma_transitive(a: Seq<char>, b: Seq<char>, c: Seq<char>) {
        lemma_le_transitive(a, b, c);
    }

    fn precedes(&self, other: &Self) -> (res: bool) {
        !before(other.as_str(), self.as_str())
    }
}

pub proof fn lemma_le_transitive(a: Seq<char>, b: Seq<char>, c: Seq<char>)
    requires
        text_le(a, b),
        text_le(b, c),
    ensures
        text_le(a, c),
{
    lemma_lt_total(a, b);
    lemma_lt_total(b, c);
    if text_lt(c, a) {
        if a == b {
        } else if b == c {
        } else {
            lemma_lt_transitive(a, b, c);
            lemma_lt_asymmetric(a, c);
        }
    }
}

/// Lexicographic order of sequences of texts.
pub open spec fn key_le(a: Seq<Seq<char>>, b: Seq<Seq<char>>) -> bool
    decreases a.len(),
{
    if a.len() == 0 {
        true
    } else if b.len() == 0 {
        false
    } else if a[0] != b[0] {
        text_lt(a[0], b[0])
    } else {
        key_le(a.drop_first(), b.drop_first())
    }
}

pub proof fn lemma_key_total(a: Seq<Seq<char>>, b: Seq<Seq<char>>)
    ensures
        key_le(a, b) || key_le(b, a),
    decreases a.len(),
{
    if a.len() > 0 && b.len() > 0 {
        lemma_lt_total(a[0], b[0]);
        lemma_key_total(a.drop_first(), b.drop_first());
    }
}

pub proof fn lemma_key_transitive(a: Seq<Seq<char>>, b: Seq<Seq<char>>, c: Seq<Seq<char>>)
    requires
        key_le(a, b),
        key_le(b, c),
    ensures
        key_le(a, c),
    decreases a.len(),
{
    if a.len() > 0 && b.len() > 0 && c.len() > 0 {
        if a[0] == b[0] && b[0] == c[0] {
            lemma_key_transitive(a.drop_first(), b.drop_first(), c.drop_first());
        } else if a[0] != b[0] && b[0] != c[0] {
            lemma_lt_transitive(a[0], b[0], c[0]);
            lemma_lt_asymmetric(a[0], c[0]);
        }
    }
}

/// Compares two pairs of texts.
pub fn pair_precedes(a0: &str, a1: &str, b0: &str, b1: &str) -> (res: bool)
    ensures
        res == key_le(seq![a0@, a1@], seq![b0@, b1@]),
{
    proof {
        let a = seq![a0@, a1@];
        let b = seq![b0@, b1@];
        reveal_with_fuel(key_le, 3);
        assert(a.drop_first() =~= seq![a1@]);
        assert(b.drop_first() =~= seq![b1@]);
        lemma_lt_total(a0@, b0@);
        lemma_lt_total(a1@, b1@);
        crate::text::lemma_lt_irreflexive(a1@);
        if text_lt(a0@, b0@) {
            lemma_lt_asymmetric(a0@, b0@);
        }
        if text_lt(a1@, b1@) {
            lemma_lt_asymmetric(a1@, b1@);
        }
    }
    if before(a0, b0) {
        true
    } else if before(b0, a0) {
        false
    } else {
        !before(b1, a1)
    }
}

/// Compares two triples of texts.
pub fn triple_precedes(a0: &str, a1: &str, a2: &str, b0: &str, b1: &str, b2: &str) -> (res: bool)
    ensures
        res == key_le(seq![a0@, a1@, a2@], seq![b0@, b1@, b2@]),
{
    proof {
        let a = seq![a0@, a1@, a2@];
        let b = seq![b0@, b1@, b2@];
        assert(a.drop_first() =~= seq![a1@, a2@]);
        assert(b.drop_first() =~= seq![b1@, b2@]);
        lemma_lt_total(a0@, b0@);
        crate::text::lemma_lt_irreflexive(a0@);
        if text_lt(b0@, a0@) {
            lemma_lt_asymmetric(b0@, a0@);
        }
    }
    if before(a0, b0) {
        true
    } else if before(b0, a0) {
        false
    } else {
        pair_precedes(a1, a2, b1, b2)
    }
}

} // verus!
