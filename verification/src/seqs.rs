//! Sequences of values and the sequences of their views.

use vstd::prelude::*;
use vstd::set_lib::{lemma_int_range, set_int_range};

verus! {

/// The views of the elements of a sequence.
pub open spec fn views<T: View>(s: Seq<T>) -> Seq<T::V> {
    Seq::new(s.len(), |i: int| s[i]@)
}

pub broadcast proof fn views_len<T: View>(s: Seq<T>)
    ensures
        #[trigger] views(s).len() == s.len(),
{
}

pub broadcast proof fn views_push<T: View>(s: Seq<T>, x: T)
    ensures
        #[trigger] views(s.push(x)) == views(s).push(x@),
{
    assert(views(s.push(x)) =~= views(s).push(x@));
}

pub broadcast proof fn views_concat<T: View>(s: Seq<T>, t: Seq<T>)
    ensures
        #[trigger] views(s + t) == views(s) + views(t),
{
    assert(views(s + t) =~= views(s) + views(t));
}

pub broadcast proof fn views_subrange<T: View>(s: Seq<T>, i: int, j: int)
    requires
        0 <= i <= j <= s.len(),
    ensures
        #[trigger] views(s.subrange(i, j)) == views(s).subrange(i, j),
{
    assert(views(s.subrange(i, j)) =~= views(s).subrange(i, j));
}

pub broadcast proof fn views_empty<T: View>()
    ensures
        #[trigger] views(Seq::<T>::empty()) == Seq::<T::V>::empty(),
{
    assert(views(Seq::<T>::empty()) =~= Seq::<T::V>::empty());
}

pub broadcast group group_views {
    views_len,
    views_push,
    views_concat,
    views_subrange,
    views_empty,
}

/// The first element that satisfies `p`.
pub open spec fn first_where<A>(s: Seq<A>, p: spec_fn(A) -> bool) -> Option<A>
    decreases s.len(),
{
    if s.len() == 0 {
        None
    } else if p(s[0]) {
        Some(s[0])
    } else {
        first_where(s.skip(1), p)
    }
}

/// The last element that satisfies `p`.
pub open spec fn last_where<A>(s: Seq<A>, p: spec_fn(A) -> bool) -> Option<A>
    decreases s.len(),
{
    if s.len() == 0 {
        None
    } else if p(s.last()) {
        Some(s.last())
    } else {
        last_where(s.drop_last(), p)
    }
}

/// The first elements, as many as `n` where there are more.
pub open spec fn first_of<A>(s: Seq<A>, n: int) -> Seq<A> {
    if s.len() <= n {
        s
    } else {
        s.take(n)
    }
}

/// What `f` gives for each element.
pub open spec fn mapped<A, B>(s: Seq<A>, f: spec_fn(A) -> B) -> Seq<B> {
    Seq::new(s.len(), |i: int| f(s[i]))
}

/// The elements that satisfy `p`, in order.
pub open spec fn keep<A>(s: Seq<A>, p: spec_fn(A) -> bool) -> Seq<A>
    decreases s.len(),
{
    if s.len() == 0 {
        seq![]
    } else if p(s.last()) {
        keep(s.drop_last(), p).push(s.last())
    } else {
        keep(s.drop_last(), p)
    }
}

/// Whether some element satisfies `p`.
pub open spec fn any<A>(s: Seq<A>, p: spec_fn(A) -> bool) -> bool {
    exists|i: int| 0 <= i < s.len() && p(#[trigger] s[i])
}

/// Whether every element satisfies `p`.
pub open spec fn every<A>(s: Seq<A>, p: spec_fn(A) -> bool) -> bool {
    forall|i: int| 0 <= i < s.len() ==> p(#[trigger] s[i])
}

/// The concatenation of the sequences that `f` gives for each element.
pub open spec fn flat<A, B>(s: Seq<A>, f: spec_fn(A) -> Seq<B>) -> Seq<B>
    decreases s.len(),
{
    if s.len() == 0 {
        seq![]
    } else {
        flat(s.drop_last(), f) + f(s.last())
    }
}

/// One more element of a prefix: what `keep` and `flat` gain.
pub proof fn take_step<A>(s: Seq<A>, i: int)
    requires
        0 <= i < s.len(),
    ensures
        s.take(i + 1).drop_last() == s.take(i),
        s.take(i + 1).last() == s[i],
        s.take(i + 1) == s.take(i).push(s[i]),
{
    assert(s.take(i + 1).drop_last() =~= s.take(i));
    assert(s.take(i + 1) =~= s.take(i).push(s[i]));
}

pub proof fn take_all<A>(s: Seq<A>)
    ensures
        s.take(s.len() as int) == s,
{
    assert(s.take(s.len() as int) =~= s);
}

/// What `first_where` gives is the element at the first satisfying index.
pub proof fn first_where_at<A>(s: Seq<A>, p: spec_fn(A) -> bool, i: int)
    requires
        0 <= i < s.len(),
        p(s[i]),
        forall|j: int| 0 <= j < i ==> !p(#[trigger] s[j]),
    ensures
        first_where(s, p) == Some(s[i]),
    decreases i,
{
    if i > 0 {
        assert(!p(s[0]));
        assert forall|j: int| 0 <= j < i - 1 implies !p(#[trigger] s.skip(1)[j]) by {
            assert(s.skip(1)[j] == s[j + 1]);
        }
        assert(s.skip(1)[i - 1] == s[i]);
        first_where_at(s.skip(1), p, i - 1);
    }
}

pub proof fn first_where_none<A>(s: Seq<A>, p: spec_fn(A) -> bool)
    requires
        forall|j: int| 0 <= j < s.len() ==> !p(#[trigger] s[j]),
    ensures
        first_where(s, p) == None::<A>,
    decreases s.len(),
{
    if s.len() > 0 {
        assert(!p(s[0]));
        assert forall|j: int| 0 <= j < s.skip(1).len() implies !p(#[trigger] s.skip(1)[j]) by {
            assert(s.skip(1)[j] == s[j + 1]);
        }
        first_where_none(s.skip(1), p);
    }
}

/// What `keep` keeps satisfies the condition and was there before.
pub proof fn kept<A>(s: Seq<A>, p: spec_fn(A) -> bool)
    ensures
        forall|i: int|
            0 <= i < keep(s, p).len() ==> p(#[trigger] keep(s, p)[i]) && s.contains(keep(s, p)[i]),
    decreases s.len(),
{
    if s.len() > 0 {
        kept(s.drop_last(), p);
        assert forall|i: int| 0 <= i < keep(s, p).len() implies p(#[trigger] keep(s, p)[i])
            && s.contains(keep(s, p)[i]) by {
            let rest = keep(s.drop_last(), p);
            if i < rest.len() {
                assert(keep(s, p)[i] == rest[i]);
                let k = s.drop_last().index_of(rest[i]);
                assert(s[k] == rest[i]);
            } else {
                assert(keep(s, p)[i] == s[s.len() - 1]);
            }
        }
    }
}

/// Nothing is kept exactly where nothing satisfies the condition.
pub proof fn kept_none<A>(s: Seq<A>, p: spec_fn(A) -> bool)
    ensures
        keep(s, p).len() == 0 <==> forall|i: int| 0 <= i < s.len() ==> !p(#[trigger] s[i]),
    decreases s.len(),
{
    if s.len() > 0 {
        let rest = s.drop_last();
        kept_none(rest, p);
        if p(s.last()) {
            assert(p(s[s.len() - 1]));
        }
        if exists|i: int| 0 <= i < rest.len() && p(#[trigger] rest[i]) {
            let i = choose|i: int| 0 <= i < rest.len() && p(#[trigger] rest[i]);
            assert(p(s[i]));
        }
        assert forall|i: int|
            keep(s, p).len() == 0 && 0 <= i < s.len() implies !p(#[trigger] s[i]) by {
            if i < rest.len() {
                assert(rest[i] == s[i]);
            }
        }
    }
}

/// More than one value is kept exactly where two places satisfy the condition.
pub proof fn kept_many<A>(s: Seq<A>, p: spec_fn(A) -> bool)
    ensures
        keep(s, p).len() > 1 <==> exists|i: int, j: int|
            0 <= i < j < s.len() && p(#[trigger] s[i]) && p(#[trigger] s[j]),
    decreases s.len(),
{
    if s.len() > 0 {
        let rest = s.drop_last();
        kept_many(rest, p);
        kept_none(rest, p);
        if keep(rest, p).len() > 1 {
            let (i, j) = choose|i: int, j: int|
                0 <= i < j < rest.len() && p(#[trigger] rest[i]) && p(#[trigger] rest[j]);
            assert(p(s[i]) && p(s[j]));
        } else if keep(s, p).len() > 1 {
            let i = choose|i: int| 0 <= i < rest.len() && p(#[trigger] rest[i]);
            assert(p(s[i]) && p(s[s.len() - 1]));
        }
        if exists|i: int, j: int|
            0 <= i < j < s.len() && p(#[trigger] s[i]) && p(#[trigger] s[j]) {
            let (i, j) = choose|i: int, j: int|
                0 <= i < j < s.len() && p(#[trigger] s[i]) && p(#[trigger] s[j]);
            assert(rest[i] == s[i]);
            if j < rest.len() {
                assert(rest[j] == s[j]);
            }
        }
    }
}

/// The first value kept is the first that satisfies the condition.
pub proof fn kept_first<A>(s: Seq<A>, p: spec_fn(A) -> bool, i: int)
    requires
        0 <= i < s.len(),
        p(s[i]),
        forall|j: int| 0 <= j < i ==> !p(#[trigger] s[j]),
    ensures
        keep(s, p).len() > 0,
        keep(s, p)[0] == s[i],
    decreases s.len(),
{
    let rest = s.drop_last();
    if i < rest.len() {
        assert(rest[i] == s[i]);
        kept_first(rest, p, i);
    } else {
        kept_none(rest, p);
        assert forall|j: int| 0 <= j < rest.len() implies !p(#[trigger] rest[j]) by {
            assert(rest[j] == s[j]);
        }
    }
}

/// A value is kept exactly where it is there and satisfies the condition.
pub proof fn in_keep<A>(s: Seq<A>, p: spec_fn(A) -> bool, x: A)
    ensures
        keep(s, p).contains(x) <==> s.contains(x) && p(x),
    decreases s.len(),
{
    kept(s, p);
    if s.len() > 0 && s.contains(x) && p(x) {
        let rest = s.drop_last();
        in_keep(rest, p, x);
        let k = s.index_of(x);
        if k < rest.len() {
            assert(rest[k] == x);
            let l = keep(rest, p).index_of(x);
            assert(keep(s, p)[l] == x);
        } else {
            assert(keep(s, p)[keep(rest, p).len() as int] == x);
        }
    }
}

/// As many values are kept as there are places that satisfy the condition.
pub proof fn kept_count<A>(s: Seq<A>, p: spec_fn(A) -> bool)
    ensures
        set_int_range(0, s.len() as int).filter(|i: int| p(s[i])).finite(),
        keep(s, p).len() == set_int_range(0, s.len() as int).filter(|i: int| p(s[i])).len(),
    decreases s.len(),
{
    let places = set_int_range(0, s.len() as int).filter(|i: int| p(s[i]));
    lemma_int_range(0, s.len() as int);
    if s.len() == 0 {
        assert(places =~= Set::empty());
    } else {
        let rest = s.drop_last();
        let last = s.len() - 1;
        let before = set_int_range(0, rest.len() as int).filter(|i: int| p(rest[i]));
        kept_count(rest, p);
        if p(s.last()) {
            assert(places =~= before.insert(last));
        } else {
            assert(places =~= before);
        }
    }
}

/// Sequences with the same values, each as often, hold the same values.
pub proof fn same_multiset_contains<A>(a: Seq<A>, b: Seq<A>, x: A)
    requires
        a.to_multiset() == b.to_multiset(),
    ensures
        a.contains(x) == b.contains(x),
{
    broadcast use vstd::seq_lib::group_to_multiset_ensures;

    assert(a.contains(x) <==> a.to_multiset().count(x) > 0);
    assert(b.contains(x) <==> b.to_multiset().count(x) > 0);
}

/// What `flat` gives without one element, and what it gives for that element.
proof fn flat_without<A, B>(s: Seq<A>, f: spec_fn(A) -> Seq<B>, i: int)
    requires
        0 <= i < s.len(),
    ensures
        flat(s, f).to_multiset() == flat(s.remove(i), f).to_multiset().add(f(s[i]).to_multiset()),
    decreases s.len(),
{
    vstd::seq_lib::lemma_multiset_commutative(flat(s.drop_last(), f), f(s.last()));
    if i == s.len() - 1 {
        assert(s.remove(i) =~= s.drop_last());
    } else {
        let rest = s.remove(i);
        flat_without(s.drop_last(), f, i);
        assert(rest.drop_last() =~= s.drop_last().remove(i));
        assert(rest.last() == s.last());
        vstd::seq_lib::lemma_multiset_commutative(flat(rest.drop_last(), f), f(rest.last()));
        assert(flat(s, f).to_multiset() =~= flat(rest, f).to_multiset().add(f(s[i]).to_multiset()));
    }
}

/// `flat` gives the same values, each as often, whatever the order of the elements.
pub proof fn flat_of_permutation<A, B>(a: Seq<A>, b: Seq<A>, f: spec_fn(A) -> Seq<B>)
    requires
        a.to_multiset() == b.to_multiset(),
    ensures
        flat(a, f).to_multiset() == flat(b, f).to_multiset(),
    decreases a.len(),
{
    broadcast use vstd::seq_lib::group_to_multiset_ensures;

    assert(a.len() == b.len()) by {
        assert(a.to_multiset().len() == a.len());
        assert(b.to_multiset().len() == b.len());
    }
    if a.len() > 0 {
        let x = a.last();
        assert(a[a.len() - 1] == x);
        same_multiset_contains(a, b, x);
        let i = b.index_of(x);
        let rest = b.remove(i);
        assert(a.drop_last().push(x) =~= a);
        assert(a.drop_last().to_multiset() =~= a.to_multiset().remove(x));
        assert(rest.to_multiset() =~= b.to_multiset().remove(x));
        flat_of_permutation(a.drop_last(), rest, f);
        flat_without(b, f, i);
        flat_without(a, f, a.len() - 1);
        assert(a.remove(a.len() - 1) =~= a.drop_last());
    } else {
        assert(a =~= b);
    }
}

} // verus!
