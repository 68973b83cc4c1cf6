//! Names that imports and type aliases stand for.

use vstd::prelude::*;

use super::facts::{path_name, path_name_of};
use super::syntax::{Kind, Node, Tree};
use crate::copies::copy_texts;
use crate::names::{NameMap, Names};
use crate::seqs::{take_all, take_step, views};
use crate::text::{after_first, before_first, has_prefix, head, join, same, starts_with, tail};

verus! {

broadcast use {
    vstd::std_specs::vec::group_vec_axioms,
    crate::seqs::group_views,
    crate::validate_tests::syntax::Node::tree_parts,
};

/// The key under which a glob import is kept.
pub const GLOB_IMPORT_SENTINEL: &'static str = "\0cntryl-glob-import";

/// The aliases in force: what each name stands for.
pub type Aliases = NameMap<String>;

/// A target followed by what comes after the first segment of a name.
pub open spec fn continued(target: Seq<char>, name: Seq<char>) -> Seq<char> {
    let remainder = after_first(name, "::"@);
    if remainder.len() == 0 {
        target
    } else {
        target + "::"@ + remainder
    }
}

pub fn continue_with(target: &str, name: &str) -> (r: String)
    ensures
        r@ == continued(target@, name@),
{
    let remainder = tail(name, "::");
    let mut out = target.to_owned();
    if !remainder.as_str().is_empty() {
        out.append("::");
        out.append(remainder.as_str());
    }
    out
}

/// What a name stands for: its first segment is looked up again and again, each alias
/// once at most.
pub open spec fn resolved(name: Seq<char>, aliases: Map<Seq<char>, Seq<char>>) -> Seq<char>
    decreases aliases.dom().len(),
{
    let first = before_first(name, "::"@);
    if aliases.dom().finite() && aliases.contains_key(first) {
        resolved(continued(aliases[first], name), aliases.remove(first))
    } else {
        name
    }
}

/// What a name stands for.
pub fn resolve_alias(name: &str, aliases: &Aliases) -> (r: String)
    ensures
        r@ == resolved(name@, aliases@),
{
    let ghost all = aliases@;
    proof {
        aliases.finite();
    }
    let mut current = name.to_owned();
    let mut followed = Names::new();
    assert(all.remove_keys(followed@) =~= all);
    loop
        invariant
            all == aliases@,
            all.dom().finite(),
            resolved(name@, all) == resolved(current@, all.remove_keys(followed@)),
        decreases all.remove_keys(followed@).dom().len(),
    {
        let first = head(current.as_str(), "::");
        if followed.contains(first.as_str()) {
            return current;
        }
        match aliases.get(first.as_str()) {
            None => {
                return current;
            },
            Some(target) => {
                let ghost left = all.remove_keys(followed@);
                proof {
                    assert(left.dom() =~= all.dom().difference(followed@));
                    assert(left.contains_key(first@));
                    assert(left.remove(first@) =~= all.remove_keys(followed@.insert(first@)));
                    assert(left.remove(first@).dom() =~= left.dom().remove(first@));
                }
                current = continue_with(target.as_str(), current.as_str());
                followed.insert(first);
            },
        }
    }
}

/// A name whose first segment has no alias stands for itself.
pub proof fn unaliased_name_is_resolved(name: Seq<char>, aliases: Map<Seq<char>, Seq<char>>)
    requires
        !aliases.contains_key(before_first(name, "::"@)),
    ensures
        resolved(name, aliases) == name,
{
}

/// Resolving ends: no alias is followed twice, even one whose target starts with the
/// alias itself.
pub proof fn self_referring_alias_is_followed_once(first: Seq<char>, target: Seq<char>)
    requires
        before_first(first, "::"@) == first,
        after_first(first, "::"@).len() == 0,
        before_first(target, "::"@) == first,
    ensures
        resolved(first, map![first => target]) == target,
{
    let aliases = map![first => target];
    assert(aliases.dom() =~= set![first]);
    assert(aliases.remove(first) =~= Map::empty());
    assert(resolved(target, Map::empty()) == target);
}

/// What an import tree adds to the aliases, under the path `prefix`.
pub open spec fn with_imports(
    t: Tree,
    prefix: Seq<Seq<char>>,
    aliases: Map<Seq<char>, Seq<char>>,
) -> Map<Seq<char>, Seq<char>>
    decreases t,
{
    match t.kind {
        Kind::UsePath => if t.words.len() > 0 && t.children.len() > 0 {
            with_imports(t.children[0], prefix.push(t.words[0]), aliases)
        } else {
            aliases
        },
        Kind::UseName => if t.words.len() == 0 {
            aliases
        } else if t.words[0] == "self"@ {
            if prefix.len() > 0 {
                aliases.insert(prefix.last(), path_name_of(prefix))
            } else {
                aliases
            }
        } else {
            aliases.insert(t.words[0], path_name_of(prefix.push(t.words[0])))
        },
        Kind::UseRename => if t.words.len() > 1 {
            aliases.insert(t.words[1], path_name_of(prefix.push(t.words[0])))
        } else {
            aliases
        },
        Kind::UseGroup => with_imports_all(t.children, prefix, aliases),
        Kind::UseGlob => aliases.insert(GLOB_IMPORT_SENTINEL@, path_name_of(prefix)),
        _ => aliases,
    }
}

pub open spec fn with_imports_all(
    ts: Seq<Tree>,
    prefix: Seq<Seq<char>>,
    aliases: Map<Seq<char>, Seq<char>>,
) -> Map<Seq<char>, Seq<char>>
    decreases ts,
{
    if ts.len() == 0 {
        aliases
    } else {
        with_imports(ts.last(), prefix, with_imports_all(ts.drop_last(), prefix, aliases))
    }
}

fn extended(prefix: &Vec<String>, word: &String) -> (r: Vec<String>)
    ensures
        views(r@) == views(prefix@).push(word@),
{
    let mut out = copy_texts(prefix);
    out.push(word.clone());
    out
}

/// Adds what an import tree brings in, under the path `prefix`.
pub fn collect_use_tree(node: &Node, prefix: &Vec<String>, aliases: &mut Aliases)
    ensures
        final(aliases)@ == with_imports(node@, views(prefix@), old(aliases)@),
    decreases node,
{
    match node.kind {
        Kind::UsePath => {
            if node.words.len() > 0 && node.children.len() > 0 {
                let nested = extended(prefix, &node.words[0]);
                collect_use_tree(&node.children[0], &nested, aliases);
            }
        },
        Kind::UseName => {
            if node.words.len() > 0 {
                if same(node.words[0].as_str(), "self") {
                    if prefix.len() > 0 {
                        aliases.insert(prefix[prefix.len() - 1].clone(), join(prefix, "::"));
                    }
                } else {
                    let qualified = extended(prefix, &node.words[0]);
                    aliases.insert(node.words[0].clone(), join(&qualified, "::"));
                }
            }
        },
        Kind::UseRename => {
            if node.words.len() > 1 {
                let qualified = extended(prefix, &node.words[0]);
                aliases.insert(node.words[1].clone(), join(&qualified, "::"));
            }
        },
        Kind::UseGroup => {
            let ghost all = node@.children;
            let ghost before = aliases@;
            let mut i: usize = 0;
            while i < node.children.len()
                invariant
                    all == views(node.children@),
                    i <= node.children@.len(),
                    aliases@ == with_imports_all(all.take(i as int), views(prefix@), before),
                decreases node.children@.len() - i,
            {
                proof {
                    take_step(all, i as int);
                }
                collect_use_tree(&node.children[i], prefix, aliases);
                i += 1;
            }
            proof {
                take_all(all);
            }
        },
        Kind::UseGlob => {
            aliases.insert(GLOB_IMPORT_SENTINEL.to_owned(), join(prefix, "::"));
        },
        _ => {},
    }
}

/// The path that a type alias stands for.
pub open spec fn alias_target(t: Tree) -> Option<Seq<char>> {
    if t.words.len() > 0 && t.children.len() > 1 && t.children[1].kind == Kind::TypePath
        && !t.children[1].second {
        Some(path_name_of(t.children[1].words))
    } else {
        None
    }
}

/// The aliases with that of a type alias.
pub open spec fn with_type_alias(t: Tree, aliases: Map<Seq<char>, Seq<char>>) -> Map<
    Seq<char>,
    Seq<char>,
> {
    match alias_target(t) {
        Some(target) => aliases.insert(t.words[0], target),
        None => aliases,
    }
}

/// Adds the alias of a type alias; tells whether it stands for a path.
pub fn collect_type_alias(node: &Node, aliases: &mut Aliases) -> (r: bool)
    ensures
        final(aliases)@ == with_type_alias(node@, old(aliases)@),
        r == alias_target(node@) is Some,
{
    if node.words.len() > 0 && node.children.len() > 1 && node.children[1].kind == Kind::TypePath
        && !node.children[1].second {
        aliases.insert(node.words[0].clone(), path_name(&node.children[1]));
        true
    } else {
        false
    }
}

/// The aliases with those of an item.
pub open spec fn with_item_alias(t: Tree, aliases: Map<Seq<char>, Seq<char>>) -> Map<
    Seq<char>,
    Seq<char>,
> {
    match t.kind {
        Kind::Use => if t.children.len() > 0 {
            with_imports(t.children[0], seq![], aliases)
        } else {
            aliases
        },
        Kind::TypeAlias => with_type_alias(t, aliases),
        _ => aliases,
    }
}

/// The aliases of the items of a module.
pub open spec fn item_aliases(items: Seq<Tree>) -> Map<Seq<char>, Seq<char>>
    decreases items.len(),
{
    if items.len() == 0 {
        Map::empty()
    } else {
        with_item_alias(items.last(), item_aliases(items.drop_last()))
    }
}

pub fn collect_item_use_aliases(items: &Vec<Node>) -> (r: Aliases)
    ensures
        r@ == item_aliases(views(items@)),
{
    let ghost all = views(items@);
    let mut aliases: Aliases = NameMap::new();
    let prefix: Vec<String> = Vec::new();
    assert(views(prefix@) =~= seq![]);
    let mut i: usize = 0;
    while i < items.len()
        invariant
            all == views(items@),
            views(prefix@) == Seq::<Seq<char>>::empty(),
            i <= items@.len(),
            aliases@ == item_aliases(all.take(i as int)),
        decreases items@.len() - i,
    {
        proof {
            take_step(all, i as int);
        }
        let item = &items[i];
        match item.kind {
            Kind::Use => {
                if item.children.len() > 0 {
                    collect_use_tree(&item.children[0], &prefix, &mut aliases);
                }
            },
            Kind::TypeAlias => {
                let _ = collect_type_alias(item, &mut aliases);
            },
            _ => {},
        }
        i += 1;
    }
    proof {
        take_all(all);
    }
    aliases
}

/// What a target stands for that may refer to the parent module.
pub open spec fn parent_resolved(target: Seq<char>, parent: Map<Seq<char>, Seq<char>>) -> Seq<
    char,
> {
    let relative = target.skip(7);
    if has_prefix(target, "super::"@) && parent.contains_key(before_first(relative, "::"@)) {
        resolved(relative, parent)
    } else {
        target
    }
}

/// The aliases with every target that refers to the parent module resolved there.
pub open spec fn with_parent(
    aliases: Map<Seq<char>, Seq<char>>,
    parent: Map<Seq<char>, Seq<char>>,
) -> Map<Seq<char>, Seq<char>> {
    aliases.map_values(|target: Seq<char>| parent_resolved(target, parent))
}

fn resolve_parent_target(target: &str, parent: &Aliases) -> (r: String)
    ensures
        r@ == parent_resolved(target@, parent@),
{
    if starts_with(target, "super::") {
        let all = crate::text::chars(target);
        proof {
            reveal_strlit("super::");
        }
        let size: usize = all.len();
        let relative = crate::text::slice(all.as_slice(), 7, size);
        assert(relative@ =~= target@.skip(7));
        let first = head(relative.as_str(), "::");
        if parent.contains_key(first.as_str()) {
            return resolve_alias(relative.as_str(), parent);
        }
    }
    target.to_owned()
}

pub fn resolve_parent_aliases(aliases: &Aliases, parent: &Aliases) -> (r: Aliases)
    ensures
        r@ == with_parent(aliases@, parent@),
{
    let ghost f = |target: Seq<char>| parent_resolved(target, parent@);
    let keys = aliases.keys();
    let ghost all = views(keys@);
    let mut out: Aliases = NameMap::new();
    let mut i: usize = 0;
    while i < keys.len()
        invariant
            f == (|target: Seq<char>| parent_resolved(target, parent@)),
            all == views(keys@),
            all.to_set() == aliases@.dom(),
            i <= keys@.len(),
            out@.dom() =~= all.take(i as int).to_set(),
            forall|k: Seq<char>| #[trigger]
                out@.contains_key(k) ==> aliases@.contains_key(k) && out@[k] == f(aliases@[k]),
        decreases keys@.len() - i,
    {
        proof {
            take_step(all, i as int);
            crate::names::set_of_push(all.take(i as int), all[i as int]);
            assert(all.to_set().contains(all[i as int]));
        }
        if let Some(target) = aliases.get(keys[i].as_str()) {
            out.insert(keys[i].clone(), resolve_parent_target(target.as_str(), parent));
        }
        i += 1;
    }
    proof {
        take_all(all);
        assert(out@ =~= with_parent(aliases@, parent@));
    }
    out
}

} // verus!
