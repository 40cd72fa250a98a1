//! A stable sort.

use crate::text::{
    lemma_lex_antisymmetric, lemma_lex_total, lemma_lex_transitive, lex_le, precedes, views,
};
use vstd::prelude::*;

verus! {

/// Values with a total order on what they stand for, in which distinct values may rank alike.
pub trait Ranked: View + Sized {
    spec fn rank_le(a: Self::V, b: Self::V) -> bool;

    fn is_rank_le(a: &Self, b: &Self) -> (r: bool)
        ensures
            r == Self::rank_le(a@, b@),
    ;

    proof fn rank_total(a: Self::V, b: Self::V)
        ensures
            Self::rank_le(a, b) || Self::rank_le(b, a),
    ;

    proof fn rank_transitive(a: Self::V, b: Self::V, c: Self::V)
        requires
            Self::rank_le(a, b),
            Self::rank_le(b, c),
        ensures
            Self::rank_le(a, c),
    ;
}

/// `x` placed behind every value that ranks no higher than it.
pub open spec fn placed<T: Ranked>(s: Seq<T::V>, x: T::V) -> Seq<T::V>
    decreases s.len(),
{
    if s.len() > 0 && !T::rank_le(s.last(), x) {
        placed::<T>(s.drop_last(), x).push(s.last())
    } else {
        s.push(x)
    }
}

/// The values by rank; values that rank alike keep their order.
pub open spec fn sorted<T: Ranked>(s: Seq<T::V>) -> Seq<T::V>
    decreases s.len(),
{
    if s.len() == 0 {
        Seq::empty()
    } else {
        placed::<T>(sorted::<T>(s.drop_last()), s.last())
    }
}

/// No value ranks higher than one behind it.
pub open spec fn ascending<T: Ranked>(s: Seq<T::V>) -> bool {
    forall|i: int, j: int| 0 <= i < j < s.len() ==> T::rank_le(#[trigger] s[i], #[trigger] s[j])
}

proof fn lemma_placed_is<T: Ranked>(s: Seq<T::V>, x: T::V, k: int)
    requires
        0 <= k <= s.len(),
        forall|i: int| k <= i < s.len() ==> !T::rank_le(#[trigger] s[i], x),
        k > 0 ==> T::rank_le(s[k - 1], x),
    ensures
        placed::<T>(s, x) == s.insert(k, x),
    decreases s.len(),
{
    if k < s.len() {
        lemma_placed_is::<T>(s.drop_last(), x, k);
        assert(s.drop_last().insert(k, x).push(s.last()) =~= s.insert(k, x));
    } else {
        assert(s.insert(k, x) =~= s.push(x));
    }
}

proof fn lemma_placed_keeps<T: Ranked>(s: Seq<T::V>, x: T::V)
    ensures
        placed::<T>(s, x).len() == s.len() + 1,
        placed::<T>(s, x).to_multiset() == s.push(x).to_multiset(),
    decreases s.len(),
{
    broadcast use vstd::seq_lib::group_to_multiset_ensures;

    if s.len() > 0 && !T::rank_le(s.last(), x) {
        lemma_placed_keeps::<T>(s.drop_last(), x);
        assert(s =~= s.drop_last().push(s.last()));
    }
}

proof fn lemma_placed_ascending<T: Ranked>(s: Seq<T::V>, x: T::V)
    requires
        ascending::<T>(s),
    ensures
        ascending::<T>(placed::<T>(s, x)),
        forall|y: T::V|
            #![trigger T::rank_le(x, y)]
            T::rank_le(x, y) && (forall|i: int|
                0 <= i < s.len() ==> T::rank_le(#[trigger] s[i], y)) ==> forall|i: int|
                0 <= i < placed::<T>(s, x).len() ==> T::rank_le(#[trigger] placed::<T>(s, x)[i], y),
    decreases s.len(),
{
    let r = placed::<T>(s, x);
    if s.len() > 0 && !T::rank_le(s.last(), x) {
        let t = s.drop_last();
        let p = placed::<T>(t, x);
        lemma_placed_ascending::<T>(t, x);
        T::rank_total(s.last(), x);
        assert forall|i: int| 0 <= i < t.len() implies T::rank_le(#[trigger] t[i], s.last()) by {
            assert(t[i] == s[i] && s.last() == s[s.len() - 1]);
        }
        assert(forall|i: int| 0 <= i < p.len() ==> T::rank_le(#[trigger] p[i], s.last()));
        assert forall|y: T::V|
            #![trigger T::rank_le(x, y)]
            T::rank_le(x, y) && (forall|i: int|
                0 <= i < s.len() ==> T::rank_le(#[trigger] s[i], y)) implies forall|i: int|
            0 <= i < r.len() ==> T::rank_le(#[trigger] r[i], y) by {
            assert forall|i: int| 0 <= i < t.len() implies T::rank_le(#[trigger] t[i], y) by {
                assert(t[i] == s[i]);
            }
            assert(T::rank_le(s[s.len() - 1], y));
        }
    } else {
        assert forall|i: int, j: int| 0 <= i < j < r.len() implies T::rank_le(
            #[trigger] r[i],
            #[trigger] r[j],
        ) by {
            if j == s.len() {
                if i < s.len() - 1 {
                    T::rank_transitive(s[i], s[s.len() - 1], x);
                }
            }
        }
    }
}

/// Sorting changes the order of the values and nothing else.
pub proof fn sorting_keeps_the_values<T: Ranked>(s: Seq<T::V>)
    ensures
        sorted::<T>(s).len() == s.len(),
        sorted::<T>(s).to_multiset() == s.to_multiset(),
    decreases s.len(),
{
    broadcast use vstd::seq_lib::group_to_multiset_ensures;

    if s.len() > 0 {
        sorting_keeps_the_values::<T>(s.drop_last());
        lemma_placed_keeps::<T>(sorted::<T>(s.drop_last()), s.last());
        assert(s =~= s.drop_last().push(s.last()));
    } else {
        assert(s =~= Seq::<T::V>::empty());
    }
}

/// A sorted sequence is in order.
pub proof fn sorting_puts_in_order<T: Ranked>(s: Seq<T::V>)
    ensures
        ascending::<T>(sorted::<T>(s)),
    decreases s.len(),
{
    if s.len() > 0 {
        sorting_puts_in_order::<T>(s.drop_last());
        lemma_placed_ascending::<T>(sorted::<T>(s.drop_last()), s.last());
    }
}

/// What is in order already is left as it is.
pub proof fn sorting_leaves_order_alone<T: Ranked>(s: Seq<T::V>)
    requires
        ascending::<T>(s),
    ensures
        sorted::<T>(s) == s,
    decreases s.len(),
{
    if s.len() > 0 {
        sorting_leaves_order_alone::<T>(s.drop_last());
        assert(s =~= s.drop_last().push(s.last()));
        if s.len() > 1 {
            assert(T::rank_le(s[s.len() - 2], s[s.len() - 1]));
        }
    } else {
        assert(s =~= Seq::<T::V>::empty());
    }
}

/// The values by rank; values that rank alike keep their order.
pub fn sort<T: Ranked>(values: Vec<T>) -> (r: Vec<T>)
    ensures
        views(r@) == sorted::<T>(views(values@)),
{
    let ghost all = views(values@);
    let mut rest = values;
    let mut out: Vec<T> = Vec::new();
    let ghost mut done: int = 0;
    proof {
        assert(all.take(0) =~= Seq::<T::V>::empty());
        assert(views(out@) =~= Seq::<T::V>::empty());
        assert(rest@ =~= values@.skip(0));
    }
    while rest.len() > 0
        invariant
            0 <= done <= values@.len(),
            all == views(values@),
            rest@ == values@.skip(done),
            views(out@) == sorted::<T>(all.take(done)),
        decreases rest.len(),
    {
        let x = rest.remove(0);
        proof {
            assert(x == values@[done]);
            assert(rest@ =~= values@.skip(done + 1));
            assert(all.take(done + 1).drop_last() =~= all.take(done));
        }
        let mut k: usize = out.len();
        while k > 0 && !T::is_rank_le(&out[k - 1], &x)
            invariant
                k <= out@.len(),
                forall|i: int| k <= i < out@.len() ==> !T::rank_le(#[trigger] views(out@)[i], x@),
            decreases k,
        {
            k -= 1;
        }
        proof {
            if k > 0 {
                assert(views(out@)[k - 1] == out@[k - 1]@);
            }
            lemma_placed_is::<T>(views(out@), x@, k as int);
        }
        let ghost before = out@;
        out.insert(k, x);
        proof {
            assert(views(out@) =~= views(before).insert(k as int, x@));
            done = done + 1;
        }
    }
    assert(all.take(done) =~= all);
    out
}

impl Ranked for usize {
    open spec fn rank_le(a: usize, b: usize) -> bool {
        a <= b
    }

    fn is_rank_le(a: &usize, b: &usize) -> (r: bool) {
        *a <= *b
    }

    proof fn rank_total(a: usize, b: usize) {
    }

    proof fn rank_transitive(a: usize, b: usize, c: usize) {
    }
}

impl Ranked for String {
    open spec fn rank_le(a: Seq<char>, b: Seq<char>) -> bool {
        lex_le(a, b)
    }

    fn is_rank_le(a: &String, b: &String) -> (r: bool) {
        precedes(a.as_str(), b.as_str())
    }

    proof fn rank_total(a: Seq<char>, b: Seq<char>) {
        lemma_lex_total(a, b);
    }

    proof fn rank_transitive(a: Seq<char>, b: Seq<char>, c: Seq<char>) {
        lemma_lex_transitive(a, b, c);
    }
}

/// The same texts are the same in order.
pub proof fn sorted_texts_agree(a: Seq<Seq<char>>, b: Seq<Seq<char>>)
    ensures
        sorted::<String>(a) == sorted::<String>(b) <==> a.to_multiset() == b.to_multiset(),
{
    let x = sorted::<String>(a);
    let y = sorted::<String>(b);
    sorting_keeps_the_values::<String>(a);
    sorting_keeps_the_values::<String>(b);
    if a.to_multiset() == b.to_multiset() {
        let leq = |s: Seq<char>, t: Seq<char>| lex_le(s, t);
        sorting_puts_in_order::<String>(a);
        sorting_puts_in_order::<String>(b);
        assert(vstd::relations::sorted_by(x, leq));
        assert(vstd::relations::sorted_by(y, leq));
        assert forall|s: Seq<char>| #[trigger] leq(s, s) by {
            lemma_lex_total(s, s);
        }
        assert forall|s: Seq<char>, t: Seq<char>| #[trigger]
            leq(s, t) && #[trigger] leq(t, s) implies s == t by {
            lemma_lex_antisymmetric(s, t);
        }
        assert forall|s: Seq<char>, t: Seq<char>, u: Seq<char>| #[trigger]
            leq(s, t) && #[trigger] leq(t, u) implies leq(s, u) by {
            lemma_lex_transitive(s, t, u);
        }
        assert forall|s: Seq<char>, t: Seq<char>| #[trigger] leq(s, t) || leq(t, s) by {
            lemma_lex_total(s, t);
        }
        assert(vstd::relations::total_ordering(leq));
        vstd::seq_lib::lemma_sorted_unique(x, y, leq);
    }
}

} // verus!
