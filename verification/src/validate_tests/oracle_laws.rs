//! Which pieces of a test body are oracles, calls and uses of something uncontrolled.

use vstd::prelude::*;

use super::config::configured_matches;
use super::facts::{calls_in, names_in, path_name_of, unconditional_success};
use super::model::{OracleFactView, OracleKind, Section, SourceSpan};
use super::syntax::{Kind, Tree};
use super::visitor::{
    source_name, visited, visited_all, visited_call, visited_parts, ContextView, Facts,
};
use super::walk_laws::{
    after_call_facts, all_add, call_adds, function_call_adds, method_call_adds, parts_add,
};
use crate::text::{after_last, has_prefix};

verus! {

/// The first oracle that a piece of syntax adds.
pub open spec fn first_new(c: ContextView, s: Facts, t: Tree) -> OracleFactView {
    visited(c, s, t).oracles[s.oracles.len() as int]
}

/// Whether a piece of syntax is itself an oracle of a kind, with its own place and text, and
/// surely executes where its place does.
pub open spec fn is_oracle(c: ContextView, s: Facts, t: Tree, kind: OracleKind) -> bool {
    &&& visited(c, s, t).oracles.len() > s.oracles.len()
    &&& first_new(c, s, t).kind == kind
    &&& first_new(c, s, t).span == t.span
    &&& first_new(c, s, t).text == t.text
    &&& first_new(c, s, t).section == c.section(t.span)
    &&& first_new(c, s, t).conditional == s.conditional
    &&& first_new(c, s, t).produced_identifiers == s.current_binding_identifiers
}

pub(crate) proof fn stays_first(c: ContextView, s: Facts, noted: Facts, t: Tree)
    requires
        noted.oracles.is_prefix_of(visited(c, s, t).oracles),
        noted.oracles.len() == s.oracles.len() + 1,
    ensures
        visited(c, s, t).oracles.len() > s.oracles.len(),
        first_new(c, s, t) == noted.oracles.last(),
{
    let r = visited(c, s, t).oracles;
    assert(r.subrange(0, noted.oracles.len() as int)[s.oracles.len() as int]
        == r[s.oracles.len() as int]);
}

proof fn differs_at(name: Seq<char>, pattern: Seq<char>, i: int)
    requires
        0 <= i < pattern.len(),
        i < name.len() ==> name[i] != pattern[i],
    ensures
        !has_prefix(name, pattern),
{
    if has_prefix(name, pattern) {
        assert(name.subrange(0, pattern.len() as int)[i] == name[i]);
    }
}

/// Whether the Act can be observed here: in the Act, after it, or anywhere in a test without
/// markers.
pub open spec fn can_observe(c: ContextView, span: SourceSpan) -> bool {
    c.section(span) == Section::Act || c.section(span) == Section::Assert || (c.markers.len() == 0
        && c.section(span) == Section::Body)
}

/// A configured assertion macro is an oracle. It looks at its first argument, and, unless it
/// matches a pattern, compares it with its second.
pub proof fn assertions_are_oracles(c: ContextView, s: Facts, t: Tree)
    requires
        t.kind == Kind::Macro,
        configured_matches(c.policy.assertion_macros, path_name_of(t.words)),
    ensures
        is_oracle(c, s, t, OracleKind::Outcome) || is_oracle(c, s, t, OracleKind::BroadError),
        t.arguments matches Some(list) && list.len() > 0 ==> {
            &&& first_new(c, s, t).actual_identifiers == names_in(t.arguments->0[0])
            &&& first_new(c, s, t).actual_calls == calls_in(t.arguments->0[0])
            &&& t.arguments->0.len() > 1 && after_last(path_name_of(t.words), "::"@)
                != "assert_matches"@ ==> first_new(c, s, t).expected_identifiers == names_in(
                t.arguments->0[1],
            ) && first_new(c, s, t).expected_calls == calls_in(t.arguments->0[1])
        },
        t.arguments is None ==> visited(c, s, t).gaps.len() > s.gaps.len(),
{
    reveal(Facts::with_format_gap);
    let noted = s.with_format_gap(c, t);
    let judged = noted.with_assertion(c, t);
    let start = Facts { inside_oracle: true, ..judged };
    assertion_is_noted(c, noted, t);
    if let Some(list) = t.arguments {
        all_add(c, start, list);
        assert(visited_all(c, start, list).oracles[s.oracles.len() as int]
            == judged.oracles[s.oracles.len() as int]);
    }
}

proof fn assertion_is_noted(c: ContextView, s: Facts, t: Tree)
    ensures
        s.with_assertion(c, t).oracles.len() == s.oracles.len() + 1,
        s.with_assertion(c, t).oracles.last().kind == OracleKind::Outcome || s.with_assertion(
            c,
            t,
        ).oracles.last().kind == OracleKind::BroadError,
        s.with_assertion(c, t).oracles.last().span == t.span,
        s.with_assertion(c, t).oracles.last().text == t.text,
        s.with_assertion(c, t).oracles.last().section == c.section(t.span),
        s.with_assertion(c, t).oracles.last().conditional == s.conditional,
        s.with_assertion(c, t).oracles.last().produced_identifiers
            == s.current_binding_identifiers,
        t.arguments matches Some(list) && list.len() > 0 ==> {
            let oracle = s.with_assertion(c, t).oracles.last();
            &&& oracle.actual_identifiers == names_in(t.arguments->0[0])
            &&& oracle.actual_calls == calls_in(t.arguments->0[0])
            &&& t.arguments->0.len() > 1 && after_last(path_name_of(t.words), "::"@)
                != "assert_matches"@ ==> oracle.expected_identifiers == names_in(t.arguments->0[1])
                && oracle.expected_calls == calls_in(t.arguments->0[1])
        },
        t.arguments is None ==> s.with_assertion(c, t).gaps.len() > s.gaps.len(),
        s.with_assertion(c, t).gaps.len() >= s.gaps.len(),
{
    reveal(Facts::with_assertion);
}

/// Where `?` stands in the Act, after it or in a test without markers, it makes sure that what
/// stands before it succeeds; elsewhere it is no oracle.
pub proof fn tries_are_oracles(c: ContextView, s: Facts, t: Tree)
    requires
        t.kind == Kind::Try,
        t.children.len() > 0,
    ensures
        c.section(t.span) == Section::Act || c.section(t.span) == Section::Assert
            || c.markers.len() == 0 ==> is_oracle(c, s, t, OracleKind::Execution) && first_new(
            c,
            s,
            t,
        ).actual_identifiers == names_in(t.children[0]),
        !(c.section(t.span) == Section::Act || c.section(t.span) == Section::Assert
            || c.markers.len() == 0) ==> visited(c, s, t) == visited_parts(c, s, t),
{
    reveal(Facts::with_try);
    let noted = s.with_try(c, t);
    parts_add(c, noted, t);
    if noted.oracles.len() > s.oracles.len() {
        stays_first(c, s, noted, t);
    }
}

/// A returned value is an oracle where the test returns something, the Act can be observed,
/// and the value is not plainly a success.
pub proof fn returned_values_are_oracles(c: ContextView, s: Facts, t: Tree)
    requires
        t.kind == Kind::Return,
        t.children.len() > 0,
    ensures
        c.observable_return && can_observe(c, t.span) && !unconditional_success(t.children[0])
            ==> is_oracle(c, s, t, OracleKind::Execution),
        !(c.observable_return && can_observe(c, t.span) && !unconditional_success(t.children[0]))
            ==> visited(c, s, t) == visited_parts(c, s, t),
{
    reveal(Facts::with_return);
    let noted = s.with_return(c, t);
    parts_add(c, noted, t);
    if noted.oracles.len() > s.oracles.len() {
        stays_first(c, s, noted, t);
    }
}

/// The value that a test ends with is an oracle exactly where the Act can be observed, the
/// value is not plainly a success, and no oracle stands there.
pub proof fn final_values_are_oracles(c: ContextView, s: Facts, t: Tree)
    ensures
        s.with_tail(c, t).oracles.len() == s.oracles.len() + 1 <==> can_observe(c, t.span)
            && !unconditional_success(t) && forall|i: int|
            0 <= i < s.oracles.len() ==> (#[trigger] s.oracles[i]).span != t.span,
        s.oracles.is_prefix_of(s.with_tail(c, t).oracles),
        s.with_tail(c, t).oracles.len() > s.oracles.len() ==> s.with_tail(c, t).oracles.last().kind
            == OracleKind::Execution && s.with_tail(c, t).oracles.last().span == t.span
            && s.with_tail(c, t).oracles.last().actual_identifiers == names_in(t),
{
}

/// The method that a method call names.
pub open spec fn calls_method(t: Tree, name: Seq<char>) -> bool {
    t.kind == Kind::MethodCall && t.words.len() > 0 && t.words[0] == name
}

/// `unwrap` makes sure of a success and `unwrap_err` of an error, where the Act can be
/// observed and the names are not configured otherwise.
pub proof fn unwrapping_is_an_oracle(c: ContextView, s: Facts, t: Tree)
    requires
        calls_method(t, "unwrap"@) || calls_method(t, "unwrap_err"@),
        t.children.len() > 0,
        !configured_matches(c.policy.mock_interaction_methods, t.words[0]),
        !configured_matches(c.policy.assertion_functions, t.words[0]),
    ensures
        can_observe(c, t.span) && calls_method(t, "unwrap"@) ==> is_oracle(
            c,
            s,
            t,
            OracleKind::Execution,
        ),
        can_observe(c, t.span) && calls_method(t, "unwrap_err"@) ==> is_oracle(
            c,
            s,
            t,
            OracleKind::BroadError,
        ),
        can_observe(c, t.span) ==> first_new(c, s, t).actual_identifiers == names_in(t.children[0])
            && first_new(c, s, t).actual_calls == calls_in(t.children[0]),
        !can_observe(c, t.span) ==> s.with_method_call(c, t).oracles == s.oracles,
{
    method_call_adds(c, s, t);
    call_adds(c, s, s.with_method_call(c, t), t);
    plain_names(t.words[0]);
    assert(visited(c, s, t) == visited_call(c, s, s.with_method_call(c, t), t));
    reveal(Facts::with_method_call);
    if can_observe(c, t.span) {
        stays_first(c, s, s.with_method_call(c, t), t);
    }
}

/// `expect` is like `unwrap`; outside of assertions so is `expect_err` like `unwrap_err`.
pub proof fn expecting_is_an_oracle(c: ContextView, s: Facts, t: Tree)
    requires
        calls_method(t, "expect"@) || (calls_method(t, "expect_err"@) && c.section(t.span)
            != Section::Assert),
        t.children.len() > 0,
        can_observe(c, t.span),
        !configured_matches(c.policy.mock_interaction_methods, t.words[0]),
        !configured_matches(c.policy.assertion_functions, t.words[0]),
    ensures
        calls_method(t, "expect"@) ==> is_oracle(c, s, t, OracleKind::Execution),
        calls_method(t, "expect_err"@) ==> is_oracle(c, s, t, OracleKind::BroadError),
        first_new(c, s, t).actual_identifiers == names_in(t.children[0]),
{
    method_call_adds(c, s, t);
    call_adds(c, s, s.with_method_call(c, t), t);
    plain_names(t.words[0]);
    assert(visited(c, s, t) == visited_call(c, s, s.with_method_call(c, t), t));
    reveal(Facts::with_method_call);
    if can_observe(c, t.span) {
        stays_first(c, s, s.with_method_call(c, t), t);
    }
}

proof fn plain_names(name: Seq<char>)
    ensures
        "unwrap"@ != "unwrap_err"@,
        "unwrap"@ != "expect"@,
        "unwrap"@ != "expect_err"@,
        "expect"@ != "expect_err"@,
        "expect"@ != "unwrap_err"@,
        "expect_err"@ != "unwrap_err"@,
        name == "unwrap"@ || name == "unwrap_err"@ || name == "expect"@ || name == "expect_err"@
            ==> !has_prefix(name, "assert_"@),
        name == "unwrap"@ || name == "unwrap_err"@ || name == "expect"@
            ==> !super::facts::assertion_helper(name),
{
    reveal_strlit("unwrap");
    reveal_strlit("unwrap_err");
    reveal_strlit("expect");
    reveal_strlit("expect_err");
    reveal_strlit("assert_");
    reveal_strlit("check");
    reveal_strlit("ensure");
    reveal_strlit("validate");
    reveal_strlit("verify");
    reveal_strlit("check_");
    reveal_strlit("ensure_");
    reveal_strlit("expect_");
    reveal_strlit("validate_");
    reveal_strlit("verify_");
    assert("unwrap"@[0] == 'u' && "unwrap_err"@[0] == 'u');
    assert("expect"@[0] == 'e' && "expect_err"@[0] == 'e');
    assert("assert_"@[0] == 'a' && "check"@[0] == 'c' && "check_"@[0] == 'c');
    assert("ensure"@[1] == 'n' && "ensure_"@[1] == 'n' && "expect"@[1] == 'x');
    assert("validate"@[0] == 'v' && "validate_"@[0] == 'v');
    assert("verify"@[0] == 'v' && "verify_"@[0] == 'v');
    assert("expect_"@.len() == 7 && "expect"@.len() == 6);
    assert("expect_err"@.len() == 10 && "unwrap_err"@.len() == 10 && "unwrap"@.len() == 6);
    assert("unwrap"@ != "unwrap_err"@ && "expect"@ != "expect_err"@);
    if name == "unwrap"@ || name == "unwrap_err"@ || name == "expect"@ || name == "expect_err"@ {
        differs_at(name, "assert_"@, 0);
        differs_at(name, "check_"@, 0);
        differs_at(name, "validate_"@, 0);
        differs_at(name, "verify_"@, 0);
        assert("unwrap"@[1] == 'n' && "unwrap_err"@[1] == 'n' && "expect_err"@[1] == 'x');
        assert("ensure_"@[0] == 'e' && "expect_"@[0] == 'e' && "ensure"@[0] == 'e');
        if name[0] == 'u' {
            differs_at(name, "ensure_"@, 0);
            differs_at(name, "expect_"@, 0);
        } else {
            differs_at(name, "ensure_"@, 1);
        }
        if name == "expect"@ {
            differs_at(name, "expect_"@, 6);
        }
    }
}

/// Every call of a function is noted with its name, what it stands for and its arguments'
/// names, and is an oracle where it is configured as an assertion or a check of a mock.
pub proof fn calls_are_noted(c: ContextView, s: Facts, t: Tree)
    requires
        t.kind == Kind::Call,
    ensures
        visited(c, s, t).calls.len() > s.calls.len(),
        visited(c, s, t).calls[s.calls.len() as int].span == t.span,
        visited(c, s, t).calls[s.calls.len() as int].qualified_name == s.imported(source_name(t)),
        visited(c, s, t).calls[s.calls.len() as int].name == after_last(source_name(t), "::"@),
        visited(c, s, t).calls[s.calls.len() as int].section == c.section(t.span),
        configured_matches(c.policy.mock_interaction_methods, s.imported(source_name(t)))
            ==> is_oracle(c, s, t, OracleKind::Interaction),
        configured_matches(c.policy.assertion_functions, s.imported(source_name(t)))
            && !configured_matches(c.policy.mock_interaction_methods, s.imported(source_name(t)))
            ==> is_oracle(c, s, t, OracleKind::Outcome),
        !configured_matches(c.policy.assertion_functions, s.imported(source_name(t)))
            && !configured_matches(c.policy.mock_interaction_methods, s.imported(source_name(t)))
            ==> s.with_function_call(c, t).oracles == s.oracles,
{
    function_call_adds(c, s, t);
    let noted = s.with_function_call(c, t);
    call_adds(c, s, noted, t);
    after_call_facts(c, s, t);
    assert(visited(c, s, t) == visited_call(c, s, noted, t));
    if noted.oracles.len() > s.oracles.len() {
        stays_first(c, s, noted, t);
    }
    assert(noted.calls =~= visited(c, s, t).calls.subrange(0, noted.calls.len() as int));
    assert(visited(c, s, t).calls[s.calls.len() as int] == noted.calls[s.calls.len() as int]);
}

/// Every call of a method is noted, and is an oracle where the name is configured as an
/// assertion or a check of a mock.
pub proof fn method_calls_are_noted(c: ContextView, s: Facts, t: Tree)
    requires
        t.kind == Kind::MethodCall,
        t.words.len() > 0,
    ensures
        visited(c, s, t).calls.len() > s.calls.len(),
        visited(c, s, t).calls[s.calls.len() as int].span == t.span,
        visited(c, s, t).calls[s.calls.len() as int].name == t.words[0],
        visited(c, s, t).calls[s.calls.len() as int].qualified_name == t.words[0],
        configured_matches(c.policy.mock_interaction_methods, t.words[0]) ==> is_oracle(
            c,
            s,
            t,
            OracleKind::Interaction,
        ),
        configured_matches(c.policy.assertion_functions, t.words[0]) && !configured_matches(
            c.policy.mock_interaction_methods,
            t.words[0],
        ) ==> is_oracle(c, s, t, OracleKind::Outcome),
{
    method_call_adds(c, s, t);
    let noted = s.with_method_call(c, t);
    call_adds(c, s, noted, t);
    assert(visited(c, s, t) == visited_call(c, s, noted, t));
    reveal(Facts::with_method_call);
    if noted.oracles.len() > s.oracles.len() {
        stays_first(c, s, noted, t);
    }
    assert(noted.calls =~= visited(c, s, t).calls.subrange(0, noted.calls.len() as int));
    assert(visited(c, s, t).calls[s.calls.len() as int] == noted.calls[s.calls.len() as int]);
}

} // verus!
