//! Copies of values, told by their views.

use vstd::prelude::*;

use crate::seqs::views;

verus! {

broadcast use {vstd::std_specs::vec::group_vec_axioms, crate::seqs::group_views};

/// A value that can be copied with its view kept.
pub trait Copied: View + Sized {
    fn copied(&self) -> (r: Self)
        ensures
            r@ == self@,
    ;
}

impl Copied for String {
    fn copied(&self) -> (r: Self) {
        self.clone()
    }
}

/// The view of an optional value.
pub open spec fn option_view<T: View>(value: Option<T>) -> Option<T::V> {
    match value {
        Some(inner) => Some(inner@),
        None => None,
    }
}

/// A copy of an optional text.
pub fn copy_option(value: &Option<String>) -> (r: Option<String>)
    ensures
        option_view(r) == option_view(*value),
{
    match value {
        Some(inner) => Some(inner.clone()),
        None => None,
    }
}

/// Copies of the values of a list.
pub fn copy_all<T: Copied>(values: &Vec<T>) -> (r: Vec<T>)
    ensures
        views(r@) == views(values@),
{
    let mut out: Vec<T> = Vec::new();
    let mut i: usize = 0;
    while i < values.len()
        invariant
            i <= values@.len(),
            views(out@) == views(values@).take(i as int),
        decreases values@.len() - i,
    {
        out.push(values[i].copied());
        i += 1;
        assert(views(out@) =~= views(values@).take(i as int));
    }
    assert(views(values@).take(i as int) =~= views(values@));
    out
}

/// Copies of the texts of a list.
pub fn copy_texts(texts: &Vec<String>) -> (r: Vec<String>)
    ensures
        views(r@) == views(texts@),
{
    copy_all(texts)
}

} // verus!
