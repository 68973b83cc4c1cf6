//! Stable sorting by a strict weak order.

use vstd::prelude::*;

use crate::seqs::{same_multiset_contains, views};

verus! {

broadcast use {vstd::std_specs::vec::group_vec_axioms, crate::seqs::group_views};

/// A strict weak order on the values of `T`, told by their views.
pub trait Order<T: View> {
    /// Whether `a` comes before `b`.
    spec fn before(a: T::V, b: T::V) -> bool;

    fn is_before(a: &T, b: &T) -> (r: bool)
        ensures
            r == Self::before(a@, b@),
    ;

    /// Nothing comes before itself, and what is not after a value is not after
    /// anything that this value is not after.
    proof fn strict_weak(a: T::V, b: T::V, c: T::V)
        ensures
            !Self::before(a, a),
            Self::before(a, b) ==> !Self::before(b, a),
            !Self::before(a, b) && !Self::before(b, c) ==> !Self::before(a, c),
    ;
}

/// An ordered sequence with `x` put behind everything that `x` does not precede.
pub open spec fn placed<T: View, O: Order<T>>(s: Seq<T::V>, x: T::V) -> Seq<T::V>
    decreases s.len(),
{
    if s.len() == 0 || !O::before(x, s.last()) {
        s.push(x)
    } else {
        placed::<T, O>(s.drop_last(), x).push(s.last())
    }
}

/// The sequence in order, values that neither precedes staying as they came.
pub open spec fn sorted<T: View, O: Order<T>>(s: Seq<T::V>) -> Seq<T::V>
    decreases s.len(),
{
    if s.len() == 0 {
        s
    } else {
        placed::<T, O>(sorted::<T, O>(s.drop_last()), s.last())
    }
}

proof fn placed_is_insert<T: View, O: Order<T>>(s: Seq<T::V>, x: T::V, at: int)
    requires
        0 <= at <= s.len(),
        forall|j: int| at <= j < s.len() ==> O::before(x, #[trigger] s[j]),
        at > 0 ==> !O::before(x, s[at - 1]),
    ensures
        placed::<T, O>(s, x) == s.insert(at, x),
    decreases s.len(),
{
    if at == s.len() {
        assert(s.insert(at, x) =~= s.push(x));
    } else {
        assert(O::before(x, s[s.len() - 1]));
        placed_is_insert::<T, O>(s.drop_last(), x, at);
        assert(s.drop_last().insert(at, x).push(s.last()) =~= s.insert(at, x));
    }
}

/// The items in order, items that neither precedes staying as they came.
pub fn sort<T: View, O: Order<T>>(items: Vec<T>) -> (r: Vec<T>)
    ensures
        views(r@) == sorted::<T, O>(views(items@)),
{
    let ghost all = items@;
    let mut out: Vec<T> = Vec::new();
    proof {
        assert(views(all).take(0) =~= Seq::empty());
    }
    for item in it: items
        invariant
            it.seq() == all,
            views(out@) == sorted::<T, O>(views(all).take(it.index() as int)),
    {
        let ghost done = out@;
        let mut at: usize = out.len();
        while at > 0 && O::is_before(&item, &out[at - 1])
            invariant
                out@ == done,
                at <= out@.len(),
                forall|j: int|
                    at <= j < out@.len() ==> O::before(item@, #[trigger] views(out@)[j]),
            decreases at,
        {
            at -= 1;
        }
        proof {
            placed_is_insert::<T, O>(views(done), item@, at as int);
            crate::seqs::take_step(views(all), it.index() as int);
        }
        let ghost key = item@;
        out.insert(at, item);
        assert(views(out@) =~= views(done).insert(at as int, key));
    }
    proof {
        crate::seqs::take_all(views(all));
    }
    out
}

/// No element of a sorted sequence comes before an earlier one.
pub proof fn sorted_in_order<T: View, O: Order<T>>(s: Seq<T::V>)
    ensures
        forall|i: int, j: int|
            0 <= i < j < sorted::<T, O>(s).len() ==> !O::before(
                #[trigger] sorted::<T, O>(s)[j],
                #[trigger] sorted::<T, O>(s)[i],
            ),
    decreases s.len(),
{
    if s.len() > 0 {
        sorted_in_order::<T, O>(s.drop_last());
        placed_in_order::<T, O>(sorted::<T, O>(s.drop_last()), s.last());
    }
}

proof fn placed_in_order<T: View, O: Order<T>>(s: Seq<T::V>, x: T::V)
    requires
        forall|i: int, j: int|
            0 <= i < j < s.len() ==> !O::before(#[trigger] s[j], #[trigger] s[i]),
    ensures
        forall|i: int, j: int|
            0 <= i < j < placed::<T, O>(s, x).len() ==> !O::before(
                #[trigger] placed::<T, O>(s, x)[j],
                #[trigger] placed::<T, O>(s, x)[i],
            ),
        placed::<T, O>(s, x).len() == s.len() + 1,
        forall|i: int|
            0 <= i < placed::<T, O>(s, x).len() ==> #[trigger] placed::<T, O>(s, x)[i] == x
                || s.contains(placed::<T, O>(s, x)[i]),
    decreases s.len(),
{
    let r = placed::<T, O>(s, x);
    if s.len() == 0 || !O::before(x, s.last()) {
        assert forall|i: int, j: int| 0 <= i < j < r.len() implies !O::before(
            #[trigger] r[j],
            #[trigger] r[i],
        ) by {
            if j == s.len() {
                if i < s.len() - 1 {
                    assert(!O::before(s[s.len() - 1], s[i]));
                }
                O::strict_weak(x, s.last(), s[i]);
            }
        }
        assert forall|i: int| 0 <= i < r.len() implies #[trigger] r[i] == x || s.contains(
            r[i],
        ) by {
            if i < s.len() {
                assert(r[i] == s[i]);
            }
        }
    } else {
        let rest = s.drop_last();
        placed_in_order::<T, O>(rest, x);
        let p = placed::<T, O>(rest, x);
        assert forall|i: int| 0 <= i < p.len() implies !O::before(s.last(), #[trigger] p[i]) by {
            assert(p[i] == x || rest.contains(p[i]));
            if p[i] == x {
                O::strict_weak(x, s.last(), x);
            } else {
                let k = rest.index_of(p[i]);
                assert(rest[k] == s[k]);
                assert(!O::before(s[s.len() - 1], s[k]));
            }
        }
        assert forall|i: int| 0 <= i < r.len() implies #[trigger] r[i] == x || s.contains(
            r[i],
        ) by {
            if i < p.len() {
                assert(r[i] == p[i]);
                if rest.contains(p[i]) {
                    let k = rest.index_of(p[i]);
                    assert(s[k] == p[i]);
                }
            } else {
                assert(r[i] == s[s.len() - 1]);
            }
        }
    }
}

/// Sorting keeps every value as often as it occurs.
pub proof fn sorted_is_permutation<T: View, O: Order<T>>(s: Seq<T::V>)
    ensures
        sorted::<T, O>(s).to_multiset() == s.to_multiset(),
        sorted::<T, O>(s).len() == s.len(),
    decreases s.len(),
{
    broadcast use vstd::seq_lib::group_to_multiset_ensures;

    if s.len() > 0 {
        sorted_is_permutation::<T, O>(s.drop_last());
        placed_adds_one::<T, O>(sorted::<T, O>(s.drop_last()), s.last());
        assert(s.drop_last().push(s.last()) =~= s);
    }
}

/// Sorting brings no new values, and leaves none out.
pub proof fn sorted_keeps_values<T: View, O: Order<T>>(s: Seq<T::V>, x: T::V)
    ensures
        sorted::<T, O>(s).contains(x) <==> s.contains(x),
{
    broadcast use vstd::seq_lib::group_to_multiset_ensures;

    sorted_is_permutation::<T, O>(s);
    assert(sorted::<T, O>(s).contains(x) <==> sorted::<T, O>(s).to_multiset().count(x) > 0);
    assert(s.contains(x) <==> s.to_multiset().count(x) > 0);
}

/// Sorting values that all differ gives values that all differ.
pub proof fn sorted_keeps_distinct<T: View, O: Order<T>>(s: Seq<T::V>)
    requires
        s.no_duplicates(),
    ensures
        sorted::<T, O>(s).no_duplicates(),
{
    sorted_is_permutation::<T, O>(s);
    s.lemma_multiset_has_no_duplicates();
    sorted::<T, O>(s).lemma_multiset_has_no_duplicates_conv();
}

/// Whether of any two different values one comes before the other.
pub open spec fn tells_apart<T: View, O: Order<T>>(s: Seq<T::V>) -> bool {
    forall|x: T::V, y: T::V| #[trigger]
        s.contains(x) && #[trigger] s.contains(y) && x != y ==> O::before(x, y) || O::before(y, x)
}

/// Values that the order tells apart are sorted alike, whatever order they came in.
pub proof fn sorted_of_permutation<T: View, O: Order<T>>(a: Seq<T::V>, b: Seq<T::V>)
    requires
        a.to_multiset() == b.to_multiset(),
        tells_apart::<T, O>(a),
    ensures
        sorted::<T, O>(a) == sorted::<T, O>(b),
{
    let x = sorted::<T, O>(a);
    let y = sorted::<T, O>(b);
    sorted_in_order::<T, O>(a);
    sorted_in_order::<T, O>(b);
    sorted_is_permutation::<T, O>(a);
    sorted_is_permutation::<T, O>(b);
    assert forall|v: T::V, w: T::V| #[trigger]
        x.contains(v) && #[trigger] x.contains(w) && v != w implies O::before(v, w) || O::before(
        w,
        v,
    ) by {
        same_multiset_contains(x, a, v);
        same_multiset_contains(x, a, w);
    }
    one_order::<T, O>(x, y);
}

proof fn one_order<T: View, O: Order<T>>(x: Seq<T::V>, y: Seq<T::V>)
    requires
        x.to_multiset() == y.to_multiset(),
        tells_apart::<T, O>(x),
        forall|i: int, j: int| 0 <= i < j < x.len() ==> !O::before(#[trigger] x[j], #[trigger] x[i]),
        forall|i: int, j: int| 0 <= i < j < y.len() ==> !O::before(#[trigger] y[j], #[trigger] y[i]),
    ensures
        x == y,
    decreases x.len(),
{
    broadcast use vstd::seq_lib::group_to_multiset_ensures;

    assert(x.len() == y.len()) by {
        assert(x.to_multiset().len() == x.len());
        assert(y.to_multiset().len() == y.len());
    }
    if x.len() == 0 {
        assert(x =~= y);
    } else {
        let v = x.last();
        let w = y.last();
        assert(x[x.len() - 1] == v && y[y.len() - 1] == w);
        assert(x.contains(v) && y.contains(w));
        same_multiset_contains(x, y, v);
        same_multiset_contains(x, y, w);
        if v != w {
            let k = x.index_of(w);
            let m = y.index_of(v);
            assert(x[k] == w && y[m] == v);
            assert(!O::before(x[x.len() - 1], x[k]));
            assert(!O::before(y[y.len() - 1], y[m]));
        }
        let left = x.drop_last();
        let right = y.drop_last();
        assert(left.push(v) =~= x && right.push(v) =~= y);
        assert(left.to_multiset() =~= x.to_multiset().remove(v));
        assert(right.to_multiset() =~= y.to_multiset().remove(v));
        assert forall|p: T::V, q: T::V| #[trigger]
            left.contains(p) && #[trigger] left.contains(q) && p != q implies O::before(p, q)
            || O::before(q, p) by {
            assert(x[left.index_of(p)] == p);
            assert(x[left.index_of(q)] == q);
            assert(x.contains(p) && x.contains(q));
        }
        one_order::<T, O>(left, right);
        assert(x =~= y);
    }
}

proof fn placed_adds_one<T: View, O: Order<T>>(s: Seq<T::V>, x: T::V)
    ensures
        placed::<T, O>(s, x).to_multiset() == s.to_multiset().insert(x),
        placed::<T, O>(s, x).len() == s.len() + 1,
    decreases s.len(),
{
    broadcast use vstd::seq_lib::group_to_multiset_ensures;

    if s.len() == 0 || !O::before(x, s.last()) {
    } else {
        placed_adds_one::<T, O>(s.drop_last(), x);
        assert(s.drop_last().push(s.last()) =~= s);
        assert(placed::<T, O>(s, x).to_multiset() =~= s.to_multiset().insert(x));
    }
}

} // verus!
