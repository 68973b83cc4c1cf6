//! What single pieces of a test body tell.

use vstd::prelude::*;

use super::config::configured_matches;
use super::fact_laws::{is_a_constant, mentioning_some, mentions_some};
use super::facts::{
    always_true, bound_by, broad_error_check, implicit_capture, names_in, names_value, path_name_of,
    self_comparison,
};
use super::model::{OracleKind, Section};
use super::oracle_laws::first_new;
use super::rust::{returns_value, tail_of};
use super::syntax::{Kind, Tree};
use super::visitor::{local_callable, local_names, visited, visited_all, ContextView, Facts};
use super::walk_laws::{all_add, leaves_open};
use crate::text::after_last;

verus! {

/// Whether a macro asserts one condition.
pub open spec fn asserts_a_condition(t: Tree) -> bool {
    let name = after_last(path_name_of(t.words), "::"@);
    name == "assert"@ || name == "debug_assert"@ || name == "prop_assert"@
}

/// Whether a macro asserts that two values are equal.
pub open spec fn asserts_equality(t: Tree) -> bool {
    let name = after_last(path_name_of(t.words), "::"@);
    name == "assert_eq"@ || name == "debug_assert_eq"@ || name == "prop_assert_eq"@
}

/// An assertion cannot fail where its condition always holds, or where it compares a constant
/// with itself. It may repeat the Act where it compares two values. It checks for any error
/// alone where its condition only does that.
pub proof fn assertions_tell_what_they_check(c: ContextView, s: Facts, t: Tree)
    requires
        t.kind == Kind::Macro,
        configured_matches(c.policy.assertion_macros, path_name_of(t.words)),
        t.arguments is Some,
        t.arguments->0.len() == 1 || t.arguments->0.len() == 2,
    ensures
        ({
            let oracle = first_new(c, s, t);
            let list = t.arguments->0;
            &&& oracle.self_derived_candidate <==> asserts_equality(t)
            &&& oracle.tautological <==> (asserts_a_condition(t) && (always_true(list[0])
                || self_comparison(list[0]))) || (asserts_equality(t) && list.len() == 2
                && list[0].text == list[1].text && is_a_constant(list[0]) && is_a_constant(list[1]))
            &&& asserts_a_condition(t) ==> (oracle.kind == OracleKind::BroadError
                <==> broad_error_check(list[0]))
            &&& !asserts_a_condition(t) && !asserts_equality(t) && after_last(
                path_name_of(t.words),
                "::"@,
            ) != "assert_matches"@ ==> oracle.kind == OracleKind::Outcome
        }),
{
    let list = t.arguments->0;
    reveal(Facts::with_format_gap);
    reveal(Facts::with_assertion);
    let noted = s.with_format_gap(c, t);
    let judged = noted.with_assertion(c, t);
    let start = Facts { inside_oracle: true, ..judged };
    all_add(c, start, list);
    assert(visited_all(c, start, list).oracles[s.oracles.len() as int]
        == judged.oracles[s.oracles.len() as int]);
    super::fact_laws::constants_equal_themselves(list[0]);
    if list.len() > 1 {
        super::fact_laws::constants_equal_themselves(list[1]);
    }
    macro_names();
}

proof fn macro_names()
    ensures
        "assert_eq"@ != "assert"@ && "assert_eq"@ != "debug_assert"@ && "assert_eq"@
            != "prop_assert"@,
        "debug_assert_eq"@ != "assert"@ && "debug_assert_eq"@ != "debug_assert"@
            && "debug_assert_eq"@ != "prop_assert"@,
        "prop_assert_eq"@ != "assert"@ && "prop_assert_eq"@ != "debug_assert"@ && "prop_assert_eq"@
            != "prop_assert"@,
        "assert_matches"@ != "assert"@ && "assert_matches"@ != "debug_assert"@ && "assert_matches"@
            != "prop_assert"@,
{
    reveal_strlit("assert");
    reveal_strlit("debug_assert");
    reveal_strlit("prop_assert");
    reveal_strlit("assert_eq");
    reveal_strlit("debug_assert_eq");
    reveal_strlit("prop_assert_eq");
    reveal_strlit("assert_matches");
    assert("assert"@.len() == 6 && "debug_assert"@.len() == 12 && "prop_assert"@.len() == 11);
    assert("assert_eq"@.len() == 9 && "debug_assert_eq"@.len() == 15);
    assert("prop_assert_eq"@.len() == 14 && "assert_matches"@.len() == 14);
}

/// A loop over what the Act gave makes the names of its pattern results of the Act, and
/// leaves open how they come from it.
pub proof fn loops_over_results_give_results(
    c: ContextView,
    s: Facts,
    pattern: Tree,
    iterated: Tree,
    name: Seq<char>,
)
    ensures
        s.with_loop_pattern(c, pattern, iterated).act_outputs.contains(name)
            <==> s.act_outputs.contains(name) || (bound_by(pattern).contains(name) && mentions_some(
            iterated,
            s.act_outputs,
        )),
        leaves_open(s, s.with_loop_pattern(c, pattern, iterated), "analysis.pattern-causality"@)
            <==> mentions_some(iterated, s.act_outputs),
{
    reveal(Facts::with_loop_pattern);
    mentioning_some(iterated, s.act_outputs);
    let r = s.with_loop_pattern(c, pattern, iterated);
    if r.gaps.len() > s.gaps.len() {
        assert(r.gaps[s.gaps.len() as int].code == "analysis.pattern-causality"@);
    }
}

/// A condition that takes apart what the Act gave or changed leaves open what comes of it.
pub proof fn conditions_that_bind_are_left_open(c: ContextView, s: Facts, condition: Tree)
    ensures
        leaves_open(s, s.with_condition_pattern(c, condition), "analysis.pattern-causality"@)
            <==> condition.kind == Kind::Let && condition.children.len() > 1 && (mentions_some(
            condition.children[1],
            s.act_outputs,
        ) || mentions_some(condition.children[1], s.act_effects)),
{
    reveal(Facts::with_condition_pattern);
    if condition.children.len() > 1 {
        mentioning_some(condition.children[1], s.act_outputs);
        mentioning_some(condition.children[1], s.act_effects);
    }
    let r = s.with_condition_pattern(c, condition);
    if r.gaps.len() > s.gaps.len() {
        assert(r.gaps[s.gaps.len() as int].code == "analysis.pattern-causality"@);
    }
}

/// Whether an operator assigns and computes.
pub open spec fn assigns_and_computes(operator: Seq<char>) -> bool {
    ||| operator == "+="@
    ||| operator == "-="@
    ||| operator == "*="@
    ||| operator == "/="@
    ||| operator == "%="@
    ||| operator == "&="@
    ||| operator == "|="@
    ||| operator == "^="@
    ||| operator == "<<="@
    ||| operator == ">>="@
}

/// In the Act an assignment that computes changes what stands left of it.
pub proof fn compound_assignments_change(c: ContextView, s: Facts, t: Tree, name: Seq<char>)
    requires
        t.words.len() == 1,
        t.children.len() == 2,
    ensures
        s.with_compound_assignment(c, t).act_effects.contains(name) <==> s.act_effects.contains(
            name,
        ) || (c.section(t.span) == Section::Act && assigns_and_computes(t.words[0]) && names_in(
            t.children[0],
        ).contains(name)),
{
    reveal(Facts::with_compound_assignment);
}

/// Within an oracle a text made of a format that names its values leaves open which they are.
pub proof fn captured_values_are_left_open(c: ContextView, s: Facts, t: Tree)
    ensures
        leaves_open(s, s.with_format_gap(c, t), "analysis.implicit-format-capture"@)
            <==> s.inside_oracle && (after_last(path_name_of(t.words), "::"@) == "format"@
            || after_last(path_name_of(t.words), "::"@) == "format_args"@) && implicit_capture(t),
{
    reveal(Facts::with_format_gap);
    let r = s.with_format_gap(c, t);
    if r.gaps.len() > s.gaps.len() {
        assert(r.gaps[s.gaps.len() as int].code == "analysis.implicit-format-capture"@);
    }
}

proof fn nothing_is_named(format: Seq<char>, i: int)
    requires
        0 <= i,
        forall|k: int| i <= k < format.len() ==> #[trigger] format[k] != '{',
    ensures
        !names_value(format, i),
    decreases format.len() - i,
{
    if i < format.len() {
        assert(format[i] != '{');
        nothing_is_named(format, i + 1);
    }
}

/// A format names no value from a place on behind which no brace opens, nor where two opening
/// braces stand together before such a place.
pub proof fn plain_formats_name_nothing(format: Seq<char>, i: int)
    requires
        0 <= i <= format.len(),
        forall|k: int| i <= k < format.len() ==> #[trigger] format[k] != '{',
    ensures
        !names_value(format, i),
        i >= 2 && format[i - 1] == '{' && format[i - 2] == '{' ==> !names_value(format, i - 2),
{
    nothing_is_named(format, i);
    if i >= 2 && format[i - 1] == '{' && format[i - 2] == '{' {
        assert(names_value(format, i - 2) == names_value(format, i - 2 + 2));
    }
}

/// An item in a block binds its name there.
pub proof fn items_bind_their_names(s: Facts, item: Tree, name: Seq<char>)
    requires
        item.words.len() > 0,
    ensures
        item.kind == Kind::Function || item.kind == Kind::Module || item.kind == Kind::Constant
            || item.kind == Kind::Data || item.kind == Kind::Trait ==> (s.with_item(
            item,
        ).bound_names.contains(name) <==> s.bound_names.contains(name) || name == item.words[0]),
        item.kind == Kind::Use ==> s.with_item(item).bound_names == s.bound_names,
{
}

/// After a `let` its names are bound, and those that were bound stay so; the function that it
/// gives a new name to is known under that name.
pub proof fn bindings_last(c: ContextView, s: Facts, t: Tree)
    requires
        t.kind == Kind::Local,
    ensures
        local_names(t).subset_of(visited(c, s, t).bound_names),
        local_callable(s, t) matches Some(function) ==> forall|name: Seq<char>| #[trigger]
            local_names(t).contains(name) ==> visited(
                c,
                s,
                t,
            ).local_callable_origins.contains_key(name) && visited(
                c,
                s,
                t,
            ).local_callable_origins[name] == function,
{
}

/// A test returns something where it has a result type that is not the empty tuple, and what
/// it ends with is its last statement where that is an expression without a semicolon.
pub proof fn returned_values(t: Tree)
    requires
        t.children.len() == 2,
    ensures
        returns_value(t) <==> t.children[0].flag && t.children[0].children.len() > 0 && !(
        t.children[0].children.last().kind == Kind::TypeTuple
            && t.children[0].children.last().children.len() == 0),
        tail_of(t) matches Some(tail) ==> t.children[1].children.len() > 0
            && t.children[1].children.last().flag && t.children[1].children.last().children.len() > 0
            && tail == t.children[1].children.last().children[0],
        t.children[1].children.len() > 0 && !t.children[1].children.last().flag ==> tail_of(t)
            is None,
{
}

} // verus!
