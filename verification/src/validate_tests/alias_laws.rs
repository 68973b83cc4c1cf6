//! What an imported name stands for.

use vstd::prelude::*;

use super::aliases::{
    continued, item_aliases, resolved, with_imports, with_imports_all, with_parent,
    GLOB_IMPORT_SENTINEL,
};
use super::facts::path_name_of;
use super::syntax::{Kind, Tree};
use crate::text::{after_first, before_first, joined};

verus! {

/// Whether two names are the same behind a first segment: `name` starts with `first`, which
/// is a segment of it, and `other` has `target` in its place.
pub open spec fn has_first_replaced(
    name: Seq<char>,
    first: Seq<char>,
    target: Seq<char>,
    other: Seq<char>,
) -> bool {
    ||| name == first && other == target
    ||| exists|rest: Seq<char>|
        rest.len() > 0 && name == #[trigger] (first + "::"@ + rest) && other == target + "::"@
            + rest
}

/// A name stands for itself where its first segment is not imported, and otherwise for what
/// the imported path with the rest of the name stands for without that import.
pub proof fn names_stand_for_what_they_import(
    name: Seq<char>,
    aliases: Map<Seq<char>, Seq<char>>,
)
    requires
        aliases.dom().finite(),
    ensures
        !aliases.contains_key(before_first(name, "::"@)) ==> resolved(name, aliases) == name,
        forall|other: Seq<char>| #[trigger]
            has_first_replaced(
                name,
                before_first(name, "::"@),
                aliases[before_first(name, "::"@)],
                other,
            ) && aliases.contains_key(before_first(name, "::"@)) ==> resolved(name, aliases)
                == resolved(other, aliases.remove(before_first(name, "::"@))),
{
    let first = before_first(name, "::"@);
    reveal_strlit("::");
    assert forall|other: Seq<char>| #[trigger]
        has_first_replaced(name, first, aliases[first], other) && aliases.contains_key(
            first,
        ) implies resolved(name, aliases) == resolved(other, aliases.remove(first)) by {
        if name == first {
            unparted(name);
        }
        if exists|rest: Seq<char>|
            rest.len() > 0 && name == #[trigger] (first + "::"@ + rest) && other == aliases[first]
                + "::"@ + rest {
            let rest = choose|rest: Seq<char>|
                rest.len() > 0 && name == #[trigger] (first + "::"@ + rest) && other
                    == aliases[first] + "::"@ + rest;
            parted(name, rest);
        }
        assert(continued(aliases[first], name) =~= other);
    }
}

proof fn unparted(name: Seq<char>)
    requires
        before_first(name, "::"@) == name,
    ensures
        after_first(name, "::"@).len() == 0,
{
    reveal_strlit("::");
    crate::text::find_from_found(name, "::"@, 0);
}

proof fn parted(name: Seq<char>, rest: Seq<char>)
    requires
        name == before_first(name, "::"@) + "::"@ + rest,
        rest.len() > 0,
    ensures
        after_first(name, "::"@) == rest,
{
    reveal_strlit("::");
    crate::text::find_from_found(name, "::"@, 0);
    let first = before_first(name, "::"@);
    match crate::text::find_from(name, "::"@, 0) {
        Some(i) => {
            crate::text_laws::standing(name, "::"@, i);
            assert(first.len() == i);
            assert(name.subrange(i + 2, name.len() as int) =~= rest);
        },
        None => {},
    }
}

/// The path of an imported name below a prefix.
pub open spec fn path_below(prefix: Seq<Seq<char>>, name: Seq<char>) -> Seq<char> {
    if prefix.len() == 0 {
        name
    } else {
        joined(prefix, "::"@) + "::"@ + name
    }
}

/// `use a::b;` lets `b` stand for `a::b`, `use a::b as c;` lets `c` stand for it, and
/// `use a::{self};` lets `a` stand for itself. Every other name is left as it is. A glob is
/// noted with its path, and a group imports what each of its parts does.
pub proof fn imports_name_what_they_import(
    t: Tree,
    prefix: Seq<Seq<char>>,
    aliases: Map<Seq<char>, Seq<char>>,
)
    ensures
        t.kind == Kind::UseName && t.words.len() == 1 && t.words[0] != "self"@ ==> with_imports(
            t,
            prefix,
            aliases,
        ) == aliases.insert(t.words[0], path_below(prefix, t.words[0])),
        t.kind == Kind::UseName && t.words.len() == 1 && t.words[0] == "self"@ && prefix.len() > 0
            ==> with_imports(t, prefix, aliases) == aliases.insert(
            prefix.last(),
            joined(prefix, "::"@),
        ),
        t.kind == Kind::UseRename && t.words.len() == 2 ==> with_imports(t, prefix, aliases)
            == aliases.insert(t.words[1], path_below(prefix, t.words[0])),
        t.kind == Kind::UsePath && t.words.len() == 1 && t.children.len() == 1 ==> with_imports(
            t,
            prefix,
            aliases,
        ) == with_imports(t.children[0], prefix.push(t.words[0]), aliases),
        t.kind == Kind::UseGlob ==> with_imports(t, prefix, aliases) == aliases.insert(
            GLOB_IMPORT_SENTINEL@,
            joined(prefix, "::"@),
        ),
        t.kind == Kind::UseGroup ==> with_imports(t, prefix, aliases) == with_imports_all(
            t.children,
            prefix,
            aliases,
        ),
{
    if t.words.len() > 0 {
        let all = prefix.push(t.words[0]);
        assert(all.drop_last() =~= prefix);
        if prefix.len() == 0 {
            assert(all =~= seq![t.words[0]]);
        }
        assert(path_name_of(all) =~= path_below(prefix, t.words[0]));
    }
}

/// Of several imports each is added to those before it.
pub proof fn imports_are_added_in_order(
    ts: Seq<Tree>,
    t: Tree,
    prefix: Seq<Seq<char>>,
    aliases: Map<Seq<char>, Seq<char>>,
)
    ensures
        with_imports_all(seq![], prefix, aliases) == aliases,
        with_imports_all(ts.push(t), prefix, aliases) == with_imports(
            t,
            prefix,
            with_imports_all(ts, prefix, aliases),
        ),
        t.kind == Kind::Use && t.children.len() == 1 ==> item_aliases(ts.push(t)) == with_imports(
            t.children[0],
            seq![],
            item_aliases(ts),
        ),
        t.kind == Kind::TypeAlias && t.words.len() == 1 && t.children.len() == 2
            && t.children[1].kind == Kind::TypePath && !t.children[1].second ==> item_aliases(
            ts.push(t),
        ) == item_aliases(ts).insert(t.words[0], joined(t.children[1].words, "::"@)),
        t.kind == Kind::Function || t.kind == Kind::Module || t.kind == Kind::Constant || t.kind
            == Kind::Data || t.kind == Kind::Trait ==> item_aliases(ts.push(t)) == item_aliases(ts),
{
    assert(ts.push(t).drop_last() =~= ts);
}

/// A target without `super::` stands for itself in a module within another; one with it
/// stands for what the outer module lets it stand for, where that knows it.
pub proof fn inner_modules_look_outside(
    aliases: Map<Seq<char>, Seq<char>>,
    parent: Map<Seq<char>, Seq<char>>,
    name: Seq<char>,
    relative: Seq<char>,
)
    requires
        aliases.contains_key(name),
    ensures
        with_parent(aliases, parent).dom() == aliases.dom(),
        !"super::"@.is_prefix_of(aliases[name]) ==> with_parent(aliases, parent)[name]
            == aliases[name],
        aliases[name] == "super::"@ + relative && parent.contains_key(
            before_first(relative, "::"@),
        ) ==> with_parent(aliases, parent)[name] == resolved(relative, parent),
        aliases[name] == "super::"@ + relative && !parent.contains_key(
            before_first(relative, "::"@),
        ) ==> with_parent(aliases, parent)[name] == aliases[name],
{
    reveal_strlit("super::");
    let target = aliases[name];
    crate::text_laws::standing(target, "super::"@, 0);
    assert(with_parent(aliases, parent).dom() =~= aliases.dom());
    if target == "super::"@ + relative {
        assert(target.skip(7) =~= relative);
        assert(target.subrange(0, 7) =~= "super::"@);
    }
    if crate::text::has_prefix(target, "super::"@) {
        assert("super::"@.is_prefix_of(target));
    }
}

} // verus!
