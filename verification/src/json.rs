//! JSON values.

pub mod reading;

use vstd::prelude::*;

use crate::seqs::views;
use crate::text::same;

verus! {

broadcast use {vstd::std_specs::vec::group_vec_axioms, crate::seqs::group_views};

/// A JSON value. An object keeps its members in the order they were given.
#[derive(Debug, PartialEq, Eq)]
pub enum Json {
    Null,
    Bool(bool),
    Number(u64),
    Text(String),
    List(Vec<Json>),
    Object(Vec<(String, Json)>),
}

/// What a JSON value holds.
#[verifier::ext_equal]
pub enum JsonView {
    Null,
    Bool(bool),
    Number(u64),
    Text(Seq<char>),
    List(Seq<JsonView>),
    Object(Seq<(Seq<char>, JsonView)>),
}

impl Json {
    pub open spec fn value(self) -> JsonView
        decreases self,
    {
        match self {
            Json::Null => JsonView::Null,
            Json::Bool(b) => JsonView::Bool(b),
            Json::Number(n) => JsonView::Number(n),
            Json::Text(s) => JsonView::Text(s@),
            Json::List(items) => JsonView::List(
                Seq::new(
                    items@.len(),
                    |i: int|
                        if 0 <= i < items@.len() {
                            items@[i].value()
                        } else {
                            arbitrary()
                        },
                ),
            ),
            Json::Object(members) => JsonView::Object(
                Seq::new(
                    members@.len(),
                    |i: int|
                        if 0 <= i < members@.len() {
                            (members@[i].0@, members@[i].1.value())
                        } else {
                            arbitrary()
                        },
                ),
            ),
        }
    }
}

impl View for Json {
    type V = JsonView;

    open spec fn view(&self) -> JsonView {
        self.value()
    }
}

/// The members of an object.
pub open spec fn member_views(members: Seq<(String, Json)>) -> Seq<(Seq<char>, JsonView)> {
    Seq::new(members.len(), |i: int| (members[i].0@, members[i].1@))
}

/// A list of values.
pub fn list(items: Vec<Json>) -> (r: Json)
    ensures
        r@ == JsonView::List(views(items@)),
{
    let r = Json::List(items);
    assert(r@->List_0 =~= views(items@));
    r
}

/// An object with these members.
pub fn object(members: Vec<(String, Json)>) -> (r: Json)
    ensures
        r@ == JsonView::Object(member_views(members@)),
{
    let r = Json::Object(members);
    assert(r@->Object_0 =~= member_views(members@));
    r
}

/// A text as a JSON value.
pub fn text(s: &str) -> (r: Json)
    ensures
        r@ == JsonView::Text(s@),
{
    Json::Text(s.to_owned())
}

/// A member of an object.
pub fn member(key: &str, value: Json) -> (r: (String, Json))
    ensures
        r.0@ == key@,
        r.1 == value,
{
    (key.to_owned(), value)
}

/// The value of the first member of an object with this key.
pub open spec fn member_of(members: Seq<(Seq<char>, JsonView)>, key: Seq<char>) -> Option<JsonView>
    decreases members.len(),
{
    if members.len() == 0 {
        None
    } else if members[0].0 == key {
        Some(members[0].1)
    } else {
        member_of(members.skip(1), key)
    }
}

impl Json {
    /// The value of the first member with this key; nothing where the value is no object
    /// or has no such member.
    pub fn get(&self, key: &str) -> (r: Option<&Json>)
        ensures
            match self@ {
                JsonView::Object(members) => match r {
                    Some(value) => member_of(members, key@) == Some(value@),
                    None => member_of(members, key@) is None,
                },
                _ => r is None,
            },
    {
        match self {
            Json::Object(members) => {
                let ghost all = member_views(members@);
                assert(self@->Object_0 =~= all);
                let mut i: usize = 0;
                assert(all.skip(0) =~= all);
                while i < members.len()
                    invariant
                        all == member_views(members@),
                        self@ == JsonView::Object(all),
                        i <= members@.len(),
                        member_of(all, key@) == member_of(all.skip(i as int), key@),
                    decreases members@.len() - i,
                {
                    assert(all.skip(i as int)[0] == all[i as int]);
                    assert(all.skip(i as int).skip(1) =~= all.skip(i + 1));
                    if same(members[i].0.as_str(), key) {
                        return Some(&members[i].1);
                    }
                    i += 1;
                }
                None
            },
            _ => None,
        }
    }

    /// The element at this position; nothing where the value is no list or has none there.
    pub fn at(&self, index: usize) -> (r: Option<&Json>)
        ensures
            match self@ {
                JsonView::List(items) => match r {
                    Some(value) => index < items.len() && items[index as int] == value@,
                    None => index >= items.len(),
                },
                _ => r is None,
            },
    {
        match self {
            Json::List(items) => {
                if index < items.len() {
                    Some(&items[index])
                } else {
                    None
                }
            },
            _ => None,
        }
    }
}

} // verus!
