//! Picking and describing the items of lists.

use vstd::prelude::*;

use crate::copies::Copied;
use crate::names::{set_of_push, Names};
use crate::seqs::{first_of, flat, keep, mapped, take_all, take_step, views};

verus! {

broadcast use {vstd::std_specs::vec::group_vec_axioms, crate::seqs::group_views};

/// A condition on values, told by their views.
pub trait Select<T: View> {
    /// Whether the value is wanted.
    spec fn wants(&self, value: T::V) -> bool;

    fn accepts(&self, value: &T) -> (r: bool)
        ensures
            r == self.wants(value@),
    ;
}

/// The condition as a function.
pub open spec fn wanted<T: View, S: Select<T>>(select: &S) -> spec_fn(T::V) -> bool {
    |value: T::V| select.wants(value)
}

/// Copies of the items that are wanted, in order.
pub fn selected<T: Copied, S: Select<T>>(items: &Vec<T>, select: &S) -> (r: Vec<T>)
    ensures
        views(r@) == keep(views(items@), wanted::<T, S>(select)),
{
    let ghost all = views(items@);
    let mut out: Vec<T> = Vec::new();
    let mut i: usize = 0;
    while i < items.len()
        invariant
            all == views(items@),
            i <= items@.len(),
            views(out@) == keep(all.take(i as int), wanted::<T, S>(select)),
        decreases items@.len() - i,
    {
        proof {
            take_step(all, i as int);
        }
        if select.accepts(&items[i]) {
            out.push(items[i].copied());
        }
        i += 1;
    }
    proof {
        take_all(all);
    }
    out
}

/// How many items are wanted.
pub fn count<T: View, S: Select<T>>(items: &Vec<T>, select: &S) -> (r: usize)
    ensures
        r == keep(views(items@), wanted::<T, S>(select)).len(),
{
    let ghost all = views(items@);
    let mut n: usize = 0;
    let mut i: usize = 0;
    while i < items.len()
        invariant
            all == views(items@),
            n <= i <= items@.len(),
            n == keep(all.take(i as int), wanted::<T, S>(select)).len(),
        decreases items@.len() - i,
    {
        proof {
            take_step(all, i as int);
        }
        if select.accepts(&items[i]) {
            n += 1;
        }
        i += 1;
    }
    proof {
        take_all(all);
    }
    n
}

/// Whether all items are wanted.
pub fn all_wanted<T: View, S: Select<T>>(items: &Vec<T>, select: &S) -> (r: bool)
    ensures
        r == crate::seqs::every(views(items@), wanted::<T, S>(select)),
{
    let ghost all = views(items@);
    let ghost p = wanted::<T, S>(select);
    let mut i: usize = 0;
    while i < items.len()
        invariant
            all == views(items@),
            p == wanted::<T, S>(select),
            i <= items@.len(),
            forall|j: int| 0 <= j < i ==> p(#[trigger] all[j]),
        decreases items@.len() - i,
    {
        if !select.accepts(&items[i]) {
            assert(!p(all[i as int]));
            return false;
        }
        i += 1;
    }
    true
}

/// A text for each value, told by its view.
pub trait Describe<T: View> {
    /// Whether what the description goes by can be used.
    spec fn ready(&self) -> bool;

    spec fn text(&self, value: T::V) -> Seq<char>;

    fn describe(&self, value: &T) -> (r: String)
        requires
            self.ready(),
        ensures
            r@ == self.text(value@),
    ;
}

/// The description as a function.
pub open spec fn texts<T: View, D: Describe<T>>(describe: &D) -> spec_fn(T::V) -> Seq<char> {
    |value: T::V| describe.text(value)
}

/// Adds descriptions of the first items to a list.
pub fn describe_first<T: View, D: Describe<T>>(
    lines: &mut Vec<String>,
    items: &Vec<T>,
    limit: usize,
    describe: &D,
)
    requires
        describe.ready(),
    ensures
        views(final(lines)@) == views(old(lines)@) + mapped(
            first_of(views(items@), limit as int),
            texts::<T, D>(describe),
        ),
{
    let ghost before = views(lines@);
    let ghost all = first_of(views(items@), limit as int);
    let ghost f = texts::<T, D>(describe);
    let mut i: usize = 0;
    assert(before =~= before + mapped(all.take(0), f));
    while i < items.len() && i < limit
        invariant
            describe.ready(),
            f == texts::<T, D>(describe),
            all == first_of(views(items@), limit as int),
            i <= all.len(),
            views(lines@) == before + mapped(all.take(i as int), f),
        decreases items@.len() - i,
    {
        proof {
            take_step(all, i as int);
        }
        let line = describe.describe(&items[i]);
        assert(line@ == f(all[i as int]));
        lines.push(line);
        i += 1;
        assert(views(lines@) =~= before + mapped(all.take(i as int), f));
    }
    proof {
        take_all(all);
    }
}

/// Adds descriptions of the items that are wanted to a list.
pub fn describe_wanted<T: View, S: Select<T> + Describe<T>>(
    lines: &mut Vec<String>,
    items: &Vec<T>,
    select: &S,
)
    requires
        select.ready(),
    ensures
        views(final(lines)@) == views(old(lines)@) + mapped(
            keep(views(items@), wanted::<T, S>(select)),
            texts::<T, S>(select),
        ),
{
    let ghost before = views(lines@);
    let ghost all = views(items@);
    let ghost p = wanted::<T, S>(select);
    let ghost f = texts::<T, S>(select);
    let mut i: usize = 0;
    assert(before =~= before + mapped(keep(all.take(0), p), f));
    while i < items.len()
        invariant
            select.ready(),
            p == wanted::<T, S>(select),
            f == texts::<T, S>(select),
            all == views(items@),
            i <= items@.len(),
            views(lines@) == before + mapped(keep(all.take(i as int), p), f),
        decreases items@.len() - i,
    {
        proof {
            take_step(all, i as int);
        }
        if select.accepts(&items[i]) {
            lines.push(select.describe(&items[i]));
        }
        i += 1;
        assert(views(lines@) =~= before + mapped(keep(all.take(i as int), p), f));
    }
    proof {
        take_all(all);
    }
}

/// Appends descriptions of all items to a text.
pub fn describe_all<T: View, D: Describe<T>>(content: &mut String, items: &Vec<T>, describe: &D)
    requires
        describe.ready(),
    ensures
        final(content)@ == old(content)@ + flat(views(items@), texts::<T, D>(describe)),
{
    let ghost before = content@;
    let ghost all = views(items@);
    let ghost f = texts::<T, D>(describe);
    let mut i: usize = 0;
    assert(before =~= before + flat(all.take(0), f));
    while i < items.len()
        invariant
            describe.ready(),
            f == texts::<T, D>(describe),
            all == views(items@),
            i <= items@.len(),
            content@ == before + flat(all.take(i as int), f),
        decreases items@.len() - i,
    {
        proof {
            take_step(all, i as int);
        }
        let line = describe.describe(&items[i]);
        assert(line@ == f(all[i as int]));
        content.append(line.as_str());
        i += 1;
        assert(content@ =~= before + flat(all.take(i as int), f));
    }
    proof {
        take_all(all);
    }
}

/// The descriptions of all items, each once.
pub fn described<T: View, D: Describe<T>>(items: &Vec<T>, describe: &D) -> (r: Names)
    requires
        describe.ready(),
    ensures
        r@ == mapped(views(items@), texts::<T, D>(describe)).to_set(),
{
    let ghost f = texts::<T, D>(describe);
    let ghost all = mapped(views(items@), f);
    let mut r = Names::new();
    let mut i: usize = 0;
    assert(all.take(0).to_set() =~= Set::<Seq<char>>::empty());
    while i < items.len()
        invariant
            describe.ready(),
            f == texts::<T, D>(describe),
            all == mapped(views(items@), f),
            i <= items@.len(),
            r@ == all.take(i as int).to_set(),
        decreases items@.len() - i,
    {
        proof {
            take_step(all, i as int);
            set_of_push(all.take(i as int), all[i as int]);
        }
        let name = describe.describe(&items[i]);
        assert(name@ == all[i as int]);
        r.insert(name);
        i += 1;
    }
    proof {
        take_all(all);
    }
    r
}

} // verus!
