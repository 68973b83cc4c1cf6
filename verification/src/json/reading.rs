//! JSON read from text.

use vstd::prelude::*;

use crate::copies::option_view;
use crate::seqs::{flat, take_all, take_step, views};

verus! {

broadcast use {vstd::std_specs::vec::group_vec_axioms, crate::seqs::group_views};

/// `serde_json::Value`, which the functions below look into.
#[verifier::external_type_specification]
#[verifier::external_body]
pub struct ExValue(serde_json::Value);

/// What a JSON value holds, as far as it is made of texts, lists and objects.
#[verifier::ext_equal]
pub enum JsonTree {
    Text(Seq<char>),
    List(Seq<JsonTree>),
    Object(Map<Seq<char>, JsonTree>),
    Other,
}

/// What a `serde_json::Value` holds.
pub uninterp spec fn json_tree(value: serde_json::Value) -> JsonTree;

/// What the JSON value that a text is holds, or why the text is none.
pub uninterp spec fn parsed_json(text: Seq<char>) -> Result<JsonTree, Seq<char>>;

/// What each of some values holds.
pub open spec fn json_trees(values: Seq<serde_json::Value>) -> Seq<JsonTree> {
    Seq::new(values.len(), |i: int| json_tree(values[i]))
}

/// `serde_json::from_str` to a `Value`, and the text of its error: the result depends on
/// the text alone.
#[verifier::external_body]
pub(crate) fn parse_json(text: &str) -> (r: Result<serde_json::Value, String>)
    ensures
        match r {
            Ok(value) => parsed_json(text@) == Ok::<JsonTree, Seq<char>>(json_tree(value)),
            Err(message) => parsed_json(text@) == Err::<JsonTree, Seq<char>>(message@),
        },
{
    serde_json::from_str(text).map_err(|error| error.to_string())
}

/// `serde_json::Value::get` with a text: the member of an object with this key, and
/// nothing for what is no object.
#[verifier::external_body]
fn get_member<'a>(value: &'a serde_json::Value, key: &str) -> (r: Option<&'a serde_json::Value>)
    ensures
        match r {
            Some(member) => member_tree(json_tree(*value), key@) == Some(json_tree(*member)),
            None => member_tree(json_tree(*value), key@) == None::<JsonTree>,
        },
{
    value.get(key)
}

/// `serde_json::Value::as_array`: the items of a list, and nothing for what is no list.
#[verifier::external_body]
fn as_list(value: &serde_json::Value) -> (r: Option<&Vec<serde_json::Value>>)
    ensures
        match r {
            Some(items) => json_tree(*value) == JsonTree::List(json_trees(items@)),
            None => !(json_tree(*value) is List),
        },
{
    value.as_array()
}

/// `serde_json::Value::as_str`: the text that a value is, and nothing for another value.
#[verifier::external_body]
fn as_text(value: &serde_json::Value) -> (r: Option<&str>)
    ensures
        match r {
            Some(text) => json_tree(*value) == JsonTree::Text(text@),
            None => !(json_tree(*value) is Text),
        },
{
    value.as_str()
}

/// The member of an object with this key.
pub open spec fn member_tree(tree: JsonTree, key: Seq<char>) -> Option<JsonTree> {
    match tree {
        JsonTree::Object(members) => if members.contains_key(key) {
            Some(members[key])
        } else {
            None
        },
        _ => None,
    }
}

/// The text that a value is.
pub open spec fn text_tree(tree: JsonTree) -> Option<Seq<char>> {
    match tree {
        JsonTree::Text(text) => Some(text),
        _ => None,
    }
}

/// The member of an object with this key, where it is a text.
pub open spec fn text_in(tree: JsonTree, key: Seq<char>) -> Option<Seq<char>> {
    match member_tree(tree, key) {
        Some(member) => text_tree(member),
        None => None,
    }
}

/// The items of the member of an object with this key, where it is a list.
pub open spec fn items_in(tree: JsonTree, key: Seq<char>) -> Seq<JsonTree> {
    match member_tree(tree, key) {
        Some(JsonTree::List(items)) => items,
        _ => seq![],
    }
}

/// The texts among some values.
pub open spec fn texts_among(trees: Seq<JsonTree>) -> Seq<Seq<char>> {
    flat(
        trees,
        |tree: JsonTree|
            match text_tree(tree) {
                Some(text) => seq![text],
                None => seq![],
            },
    )
}

/// The member of an object with this key, where it is a text.
pub fn text_member(value: &serde_json::Value, key: &str) -> (r: Option<String>)
    ensures
        option_view(r) == text_in(json_tree(*value), key@),
{
    match get_member(value, key) {
        Some(member) => match as_text(member) {
            Some(text) => Some(text.to_owned()),
            None => None,
        },
        None => None,
    }
}

/// The items of the member of an object with this key, where it is a list.
pub fn list_member<'a>(value: &'a serde_json::Value, key: &str) -> (r: Option<
    &'a Vec<serde_json::Value>,
>)
    ensures
        match r {
            Some(items) => json_trees(items@) == items_in(json_tree(*value), key@),
            None => items_in(json_tree(*value), key@) == Seq::<JsonTree>::empty(),
        },
{
    match get_member(value, key) {
        Some(member) => as_list(member),
        None => None,
    }
}

/// The texts among the items of the member of an object with this key.
pub fn text_items(value: &serde_json::Value, key: &str) -> (r: Vec<String>)
    ensures
        views(r@) == texts_among(items_in(json_tree(*value), key@)),
{
    let mut out: Vec<String> = Vec::new();
    let items = match list_member(value, key) {
        Some(items) => items,
        None => {
            return out;
        },
    };
    let ghost all = json_trees(items@);
    let mut i: usize = 0;
    assert(all.take(0) =~= seq![]);
    while i < items.len()
        invariant
            all == json_trees(items@),
            i <= items@.len(),
            views(out@) == texts_among(all.take(i as int)),
        decreases items@.len() - i,
    {
        proof {
            take_step(all, i as int);
        }
        let ghost before = views(out@);
        if let Some(text) = as_text(&items[i]) {
            out.push(text.to_owned());
        }
        i += 1;
        assert(views(out@) =~= texts_among(all.take(i as int)));
    }
    proof {
        take_all(all);
    }
    out
}

/// The text of a member of the JSON object that a text is, where the member is a text; or
/// why the text is no JSON.
pub open spec fn text_member_of(text: Seq<char>, key: Seq<char>) -> Result<
    Option<Seq<char>>,
    Seq<char>,
> {
    match parsed_json(text) {
        Ok(tree) => Ok(text_in(tree, key)),
        Err(message) => Err(message),
    }
}

} // verus!
