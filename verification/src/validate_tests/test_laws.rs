//! What a test function is, and what its attributes and its name tell.

use vstd::prelude::*;

use super::aliases::{item_aliases, resolved, with_parent};
use super::config::{configured_matches, TestPolicyView};
use super::facts::path_name_of;
use super::intent_laws::first_exists;
use super::rust::{
    analyzed, attribute_is, attribute_named, attribute_path, entries_of, is_test_function,
    marks_test, pauses_time, qualified, starts_paused, tests_among, tests_in, text_entry,
    truth_entry,
};
use super::syntax::{Kind, Tree};
use crate::seqs::first_where_at;
use crate::text::joined;

verus! {

/// Whether an attribute, or an entry of one, is written as one plain name.
pub open spec fn is_called(attribute: Tree, name: Seq<char>) -> bool {
    &&& attribute.children.len() > 0
    &&& attribute.children[0].words =~= seq![name]
    &&& !attribute.children[0].flag
    &&& forall|k: int|
        0 <= k < attribute.children[0].children.len() ==> (
        #[trigger] attribute.children[0].children[k]).children.len() == 0
}

proof fn called(attribute: Tree, name: Seq<char>)
    ensures
        is_called(attribute, name) == attribute_is(attribute, name),
{
}

/// Whether attribute `i` is the first of this name.
pub open spec fn is_first_called(t: Tree, name: Seq<char>, i: int) -> bool {
    &&& 0 <= i < t.attributes.len()
    &&& is_called(t.attributes[i], name)
    &&& forall|j: int| 0 <= j < i ==> !is_called(#[trigger] t.attributes[j], name)
}

proof fn first_called(t: Tree, name: Seq<char>)
    ensures
        attribute_named(t, name) is Some <==> exists|i: int|
            0 <= i < t.attributes.len() && is_called(#[trigger] t.attributes[i], name),
        forall|i: int| #[trigger]
            is_first_called(t, name, i) ==> attribute_named(t, name) == Some(t.attributes[i]),
{
    let p = |a: Tree| attribute_is(a, name);
    first_exists(t.attributes, p);
    assert forall|i: int| 0 <= i < t.attributes.len() implies p(#[trigger] t.attributes[i])
        == is_called(t.attributes[i], name) by {
        called(t.attributes[i], name);
    }
    if exists|i: int| 0 <= i < t.attributes.len() && is_called(#[trigger] t.attributes[i], name) {
        let i = choose|i: int|
            0 <= i < t.attributes.len() && is_called(#[trigger] t.attributes[i], name);
        assert(p(t.attributes[i]));
    }
    if attribute_named(t, name) is Some {
        let i = choose|i: int| 0 <= i < t.attributes.len() && p(#[trigger] t.attributes[i]);
        assert(is_called(t.attributes[i], name));
    }
    assert forall|i: int| #[trigger] is_first_called(t, name, i) implies attribute_named(t, name)
        == Some(t.attributes[i]) by {
        first_where_at(t.attributes, p, i);
    }
}

/// A test is expected to panic exactly where one of its attributes is `should_panic`, and is
/// ignored exactly where one is `ignore`. The reason is the text that follows `=`.
pub proof fn attributes_tell_of_panics_and_ignoring(
    path: Seq<char>,
    t: Tree,
    modules: Seq<Seq<char>>,
    aliases: Map<Seq<char>, Seq<char>>,
    lines: Seq<Seq<char>>,
    policy: TestPolicyView,
)
    ensures
        analyzed(path, t, modules, aliases, lines, policy).should_panic <==> exists|i: int|
            0 <= i < t.attributes.len() && is_called(#[trigger] t.attributes[i], "should_panic"@),
        analyzed(path, t, modules, aliases, lines, policy).ignored is Some <==> exists|i: int|
            0 <= i < t.attributes.len() && is_called(#[trigger] t.attributes[i], "ignore"@),
        analyzed(path, t, modules, aliases, lines, policy).ignored is None
            ==> analyzed(path, t, modules, aliases, lines, policy).ignore_span is None,
        forall|i: int| #[trigger]
            is_first_called(t, "ignore"@, i) ==> analyzed(
                path,
                t,
                modules,
                aliases,
                lines,
                policy,
            ).ignore_span == Some(t.attributes[i].span),
        forall|i: int| #[trigger]
            is_first_called(t, "ignore"@, i) && t.attributes[i].children.len() == 2
                && t.attributes[i].children[1].kind == Kind::StrLiteral
                && t.attributes[i].children[1].value is Some ==> analyzed(
                path,
                t,
                modules,
                aliases,
                lines,
                policy,
            ).ignored == t.attributes[i].children[1].value,
        forall|i: int| #[trigger]
            is_first_called(t, "ignore"@, i) && (t.attributes[i].children.len() < 2
                || t.attributes[i].children[1].kind != Kind::StrLiteral) ==> analyzed(
                path,
                t,
                modules,
                aliases,
                lines,
                policy,
            ).ignored->0.len() == 0,
{
    first_called(t, "should_panic"@);
    first_called(t, "ignore"@);
}

/// An entry `key = "text"` of a list.
pub open spec fn gives_text(entry: Tree, key: Seq<char>, text: Seq<char>) -> bool {
    &&& is_called(entry, key)
    &&& entry.arguments matches Some(list) && list.len() > 0 && list[0].kind == Kind::StrLiteral
        && list[0].value == Some(text)
}

/// The expected text of a panic stands in the list of the attribute, in an entry
/// `expected = "text"`; where that is the last entry and all others are mere names, it is
/// the expected text.
pub proof fn expected_panics_stand_in_the_attribute(
    path: Seq<char>,
    t: Tree,
    modules: Seq<Seq<char>>,
    aliases: Map<Seq<char>, Seq<char>>,
    lines: Seq<Seq<char>>,
    policy: TestPolicyView,
    i: int,
    text: Seq<char>,
)
    requires
        is_first_called(t, "should_panic"@, i),
    ensures
        analyzed(path, t, modules, aliases, lines, policy).should_panic_expected == Some(text)
            ==> t.attributes[i].flag && (t.attributes[i].arguments matches Some(entries) && exists|
            k: int,
        |
            0 <= k < entries.len() && gives_text(#[trigger] entries[k], "expected"@, text)),
        t.attributes[i].flag && (t.attributes[i].arguments matches Some(entries) && entries.len()
            > 0 && gives_text(entries.last(), "expected"@, text) && entries.last().children.len()
            == 2 && entries.last().children[1].kind == Kind::StrLiteral && forall|k: int|
            0 <= k < entries.len() - 1 ==> !(#[trigger] entries[k]).flag && !is_called(
                entries[k],
                "expected"@,
            )) ==> analyzed(path, t, modules, aliases, lines, policy).should_panic_expected == Some(
            text,
        ),
{
    first_called(t, "should_panic"@);
    let entries = entries_of(t.attributes[i]);
    text_comes_from_an_entry(entries, "expected"@, None, text);
    if t.attributes[i].arguments is Some && entries.len() > 0 && gives_text(
        entries.last(),
        "expected"@,
        text,
    ) && entries.last().children.len() == 2 && entries.last().children[1].kind == Kind::StrLiteral
        && forall|k: int|
        0 <= k < entries.len() - 1 ==> !(#[trigger] entries[k]).flag && !is_called(
            entries[k],
            "expected"@,
        ) {
        last_entry_counts(entries, "expected"@, text);
    }
}

proof fn text_comes_from_an_entry(
    entries: Seq<Tree>,
    key: Seq<char>,
    found: Option<Seq<char>>,
    text: Seq<char>,
)
    ensures
        text_entry(entries, key, found) == Some(text) ==> found == Some(text) || exists|k: int|
            0 <= k < entries.len() && gives_text(#[trigger] entries[k], key, text),
    decreases entries.len(),
{
    if entries.len() > 0 {
        let rest = entries.skip(1);
        called(entries[0], key);
        assert forall|k: int| 0 <= k < rest.len() implies #[trigger] rest[k] == entries[k + 1] by {}
        text_comes_from_an_entry(rest, key, found, text);
        if attribute_is(entries[0], key) && entries[0].arguments is Some
            && entries[0].arguments->0.len() > 0 {
            text_comes_from_an_entry(rest, key, entries[0].arguments->0[0].value, text);
        }
        if exists|k: int| 0 <= k < rest.len() && gives_text(#[trigger] rest[k], key, text) {
            let k = choose|k: int| 0 <= k < rest.len() && gives_text(#[trigger] rest[k], key, text);
            assert(gives_text(entries[k + 1], key, text));
        }
        if text_entry(entries, key, found) == Some(text) && found != Some(text) && !(exists|k: int|
            0 <= k < rest.len() && gives_text(#[trigger] rest[k], key, text)) {
            assert(gives_text(entries[0], key, text));
        }
    }
}

proof fn last_entry_counts(entries: Seq<Tree>, key: Seq<char>, text: Seq<char>)
    requires
        entries.len() > 0,
        gives_text(entries.last(), key, text),
        entries.last().children.len() == 2,
        entries.last().children[1].kind == Kind::StrLiteral,
        forall|k: int|
            0 <= k < entries.len() - 1 ==> !(#[trigger] entries[k]).flag && !is_called(
                entries[k],
                key,
            ),
    ensures
        text_entry(entries, key, None) == Some(text),
    decreases entries.len(),
{
    reveal_with_fuel(text_entry, 2);
    called(entries[0], key);
    if entries.len() > 1 {
        let rest = entries.skip(1);
        assert forall|k: int| 0 <= k < rest.len() implies #[trigger] rest[k] == entries[k + 1] by {}
        assert(rest.last() == entries.last());
        last_entry_counts(rest, key, text);
        assert(!attribute_is(entries[0], key));
    } else {
        assert(entries.skip(1).len() == 0);
    }
}

/// An entry `key = true` of a list.
pub open spec fn gives_true(entry: Tree, key: Seq<char>) -> bool {
    &&& is_called(entry, key)
    &&& entry.arguments matches Some(list) && list.len() > 0 && list[0].kind == Kind::BoolLiteral
        && list[0].flag
}

proof fn truth_comes_from_an_entry(entries: Seq<Tree>, key: Seq<char>, found: bool)
    ensures
        truth_entry(entries, key, found) ==> found || exists|k: int|
            0 <= k < entries.len() && gives_true(#[trigger] entries[k], key),
    decreases entries.len(),
{
    if entries.len() > 0 {
        let rest = entries.skip(1);
        called(entries[0], key);
        assert forall|k: int| 0 <= k < rest.len() implies #[trigger] rest[k] == entries[k + 1] by {}
        truth_comes_from_an_entry(rest, key, found);
        if attribute_is(entries[0], key) && entries[0].arguments is Some
            && entries[0].arguments->0.len() > 0 {
            truth_comes_from_an_entry(rest, key, entries[0].arguments->0[0].flag);
        }
        if exists|k: int| 0 <= k < rest.len() && gives_true(#[trigger] rest[k], key) {
            let k = choose|k: int| 0 <= k < rest.len() && gives_true(#[trigger] rest[k], key);
            assert(gives_true(entries[k + 1], key));
        }
        if truth_entry(entries, key, found) && !found && !(exists|k: int|
            0 <= k < rest.len() && gives_true(#[trigger] rest[k], key)) {
            assert(gives_true(entries[0], key));
        }
    }
}

proof fn only_entry_counts(entries: Seq<Tree>, key: Seq<char>, i: int)
    requires
        0 <= i < entries.len(),
        gives_true(entries[i], key),
        forall|k: int| 0 <= k < entries.len() && k != i ==> !is_called(#[trigger] entries[k], key),
    ensures
        truth_entry(entries, key, false),
    decreases entries.len(),
{
    let rest = entries.skip(1);
    called(entries[0], key);
    assert forall|k: int| 0 <= k < rest.len() implies #[trigger] rest[k] == entries[k + 1] by {}
    if i > 0 {
        only_entry_counts(rest, key, i - 1);
        assert(!attribute_is(entries[0], key));
    } else {
        others_leave_it(rest, key, true);
    }
}

proof fn others_leave_it(entries: Seq<Tree>, key: Seq<char>, found: bool)
    requires
        forall|k: int| 0 <= k < entries.len() ==> !is_called(#[trigger] entries[k], key),
    ensures
        truth_entry(entries, key, found) == found,
    decreases entries.len(),
{
    if entries.len() > 0 {
        let rest = entries.skip(1);
        called(entries[0], key);
        assert forall|k: int| 0 <= k < rest.len() implies #[trigger] rest[k] == entries[k + 1] by {}
        others_leave_it(rest, key, found);
    }
}

/// A test starts with paused time only where an attribute that stands for `tokio::test` says
/// `start_paused = true`, and where such an attribute says so in one entry it does.
pub proof fn paused_tests_say_so(t: Tree, aliases: Map<Seq<char>, Seq<char>>)
    ensures
        starts_paused(t, aliases) ==> exists|i: int, k: int|
            0 <= i < t.attributes.len() && t.attributes[i].arguments is Some && 0 <= k
                < t.attributes[i].arguments->0.len() && resolved(
                path_name_of(attribute_path(t.attributes[i])),
                aliases,
            ) == "tokio::test"@ && gives_true(
                #[trigger] t.attributes[i].arguments->0[k],
                "start_paused"@,
            ),
        forall|i: int, k: int|
            0 <= i < t.attributes.len() && t.attributes[i].arguments is Some && 0 <= k
                < t.attributes[i].arguments->0.len() && resolved(
                path_name_of(attribute_path(t.attributes[i])),
                aliases,
            ) == "tokio::test"@ && gives_true(
                #[trigger] t.attributes[i].arguments->0[k],
                "start_paused"@,
            ) && (forall|j: int|
                0 <= j < t.attributes[i].arguments->0.len() && j != k ==> !is_called(
                    #[trigger] t.attributes[i].arguments->0[j],
                    "start_paused"@,
                )) ==> starts_paused(t, aliases),
{
    if starts_paused(t, aliases) {
        let i = choose|i: int|
            0 <= i < t.attributes.len() && pauses_time(#[trigger] t.attributes[i], aliases);
        let entries = entries_of(t.attributes[i]);
        truth_comes_from_an_entry(entries, "start_paused"@, false);
        let k = choose|k: int|
            0 <= k < entries.len() && gives_true(#[trigger] entries[k], "start_paused"@);
        assert(gives_true(t.attributes[i].arguments->0[k], "start_paused"@));
    }
    assert forall|i: int, k: int|
        0 <= i < t.attributes.len() && t.attributes[i].arguments is Some && 0 <= k
            < t.attributes[i].arguments->0.len() && resolved(
            path_name_of(attribute_path(t.attributes[i])),
            aliases,
        ) == "tokio::test"@ && gives_true(
            #[trigger] t.attributes[i].arguments->0[k],
            "start_paused"@,
        ) && (forall|j: int|
            0 <= j < t.attributes[i].arguments->0.len() && j != k ==> !is_called(
                #[trigger] t.attributes[i].arguments->0[j],
                "start_paused"@,
            )) implies starts_paused(t, aliases) by {
        only_entry_counts(t.attributes[i].arguments->0, "start_paused"@, k);
        assert(pauses_time(t.attributes[i], aliases));
    }
}

/// A qualified name ends with the name, has every module before it in order, and is the name
/// alone where there is no module. The places of a test are those of `fn`, of its name and of
/// its closing brace, and it counts the lines from the first to the last of them.
pub proof fn names_hold_their_modules(
    path: Seq<char>,
    t: Tree,
    outer: Seq<char>,
    modules: Seq<Seq<char>>,
    aliases: Map<Seq<char>, Seq<char>>,
    lines: Seq<Seq<char>>,
    policy: TestPolicyView,
)
    requires
        t.words.len() > 0,
        t.marks.len() == 3,
    ensures
        analyzed(path, t, seq![], aliases, lines, policy).qualified_name == t.words[0],
        analyzed(path, t, modules, aliases, lines, policy).name == t.words[0],
        analyzed(path, t, modules, aliases, lines, policy).path == path,
        analyzed(path, t, seq![outer] + modules, aliases, lines, policy).qualified_name == outer
            + "::"@ + analyzed(path, t, modules, aliases, lines, policy).qualified_name,
        analyzed(path, t, modules, aliases, lines, policy).name_span == t.marks[1],
        analyzed(path, t, modules, aliases, lines, policy).function_span.start == t.marks[0].start,
        analyzed(path, t, modules, aliases, lines, policy).function_span.end == t.marks[2].end,
        t.marks[0].start.line <= t.marks[2].end.line && t.marks[2].end.line - t.marks[0].start.line
            < usize::MAX ==> analyzed(path, t, modules, aliases, lines, policy).line_count
            == t.marks[2].end.line - t.marks[0].start.line + 1,
{
    joined_after(outer, modules, "::"@);
    let name = t.words[0];
    if modules.len() == 0 {
        assert(seq![outer] + modules =~= seq![outer]);
        assert(qualified(seq![outer], name) =~= outer + "::"@ + name);
    } else {
        assert(qualified(seq![outer] + modules, name) =~= outer + "::"@ + qualified(modules, name));
    }
}

proof fn joined_after(first: Seq<char>, parts: Seq<Seq<char>>, separator: Seq<char>)
    ensures
        parts.len() > 0 ==> joined(seq![first] + parts, separator) == first + separator + joined(
            parts,
            separator,
        ),
    decreases parts.len(),
{
    let all = seq![first] + parts;
    if parts.len() == 1 {
        assert(all.drop_last() =~= seq![first]);
        assert(joined(seq![first], separator) == first);
        assert(joined(all, separator) =~= first + separator + parts[0]);
    } else if parts.len() > 1 {
        joined_after(first, parts.drop_last(), separator);
        assert(all.drop_last() =~= seq![first] + parts.drop_last());
        assert(joined(all, separator) =~= first + separator + joined(parts, separator));
    }
}

/// Whether a function has an attribute whose path stands for a configured test attribute.
pub open spec fn is_marked_as_test(
    t: Tree,
    policy: TestPolicyView,
    aliases: Map<Seq<char>, Seq<char>>,
) -> bool {
    exists|i: int|
        0 <= i < t.attributes.len() && (#[trigger] t.attributes[i]).children.len() > 0
            && configured_matches(
            policy.test_attributes,
            resolved(joined(t.attributes[i].children[0].words, "::"@), aliases),
        )
}

/// The tests of a module are those of its items in their order. A function that is marked as
/// a test is one, a module has its own tests under its name, and nothing else is a test.
pub proof fn tests_are_the_functions_marked(
    path: Seq<char>,
    items: Seq<Tree>,
    item: Tree,
    modules: Seq<Seq<char>>,
    aliases: Map<Seq<char>, Seq<char>>,
    lines: Seq<Seq<char>>,
    policy: TestPolicyView,
)
    requires
        forall|i: int|
            0 <= i < item.attributes.len() ==> (#[trigger] item.attributes[i]).children.len() > 0,
    ensures
        tests_in(path, items, modules, aliases, lines, policy) == tests_among(
            path,
            items,
            modules,
            with_parent(item_aliases(items), aliases),
            lines,
            policy,
        ),
        tests_among(path, seq![], modules, aliases, lines, policy).len() == 0,
        item.kind == Kind::Function && is_marked_as_test(item, policy, aliases) ==> tests_among(
            path,
            items.push(item),
            modules,
            aliases,
            lines,
            policy,
        ) == tests_among(path, items, modules, aliases, lines, policy).push(
            analyzed(path, item, modules, aliases, lines, policy),
        ),
        item.kind == Kind::Module && item.words.len() > 0 ==> tests_among(
            path,
            items.push(item),
            modules,
            aliases,
            lines,
            policy,
        ) == tests_among(path, items, modules, aliases, lines, policy) + tests_in(
            path,
            item.children,
            modules.push(item.words[0]),
            aliases,
            lines,
            policy,
        ),
        item.kind != Kind::Module && !(item.kind == Kind::Function && is_marked_as_test(
            item,
            policy,
            aliases,
        )) ==> tests_among(path, items.push(item), modules, aliases, lines, policy) == tests_among(
            path,
            items,
            modules,
            aliases,
            lines,
            policy,
        ),
{
    let all = items.push(item);
    assert(all.drop_last() =~= items);
    if is_marked_as_test(item, policy, aliases) {
        let i = choose|i: int|
            0 <= i < item.attributes.len() && (#[trigger] item.attributes[i]).children.len() > 0
                && configured_matches(
                policy.test_attributes,
                resolved(joined(item.attributes[i].children[0].words, "::"@), aliases),
            );
        assert(marks_test(item.attributes[i], policy, aliases));
    }
    if is_test_function(item, policy, aliases) {
        let i = choose|i: int|
            0 <= i < item.attributes.len() && marks_test(
                #[trigger] item.attributes[i],
                policy,
                aliases,
            );
        assert(item.attributes[i].children.len() > 0);
    }
}

} // verus!
