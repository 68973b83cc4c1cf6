//! What names stand for in a test body, what its Act works on, and which branches check
//! something.

use vstd::prelude::*;

use super::aliases::resolved;
use super::config::configured_matches;
use super::facts::{
    accepts_any_error, arm_panics, broad_error_check, broad_error_check_any, children_from,
    match_kind, names_in, panics, receiver_names, some_arm_panics, mutable_names, shared_names,
};
use super::fact_laws::{calling_something, calls_something, mentioning_some, mentions_some};
use super::model::{OracleKind, Section, SectionStatements};
use super::oracle_laws::{can_observe, first_new, is_oracle, stays_first};
use super::syntax::{Kind, Tree};
use super::visitor::{visited, visited_then, ContextView, Facts};
use super::walk_laws::{parts_add, walk_adds};
use crate::seqs::{keep, kept_first, kept_many, kept_none};
use crate::text::before_first;

verus! {

/// A called name stands for the function that a local value was given, if it is one; a name
/// that is bound here stands for itself; and any other for what is imported under it.
pub proof fn called_names_stand_for(s: Facts, name: Seq<char>)
    ensures
        ({
            let first = before_first(name, "::"@);
            &&& s.local_callable_origins.contains_key(first) && name == first && !crate::text_laws::occurs_in(
                name,
                "::"@,
            ) ==> s.imported(name) == s.local_callable_origins[first]
            &&& !s.local_callable_origins.contains_key(first) && s.bound_names.contains(first)
                ==> s.imported(name) == name
            &&& !s.local_callable_origins.contains_key(first) && !s.bound_names.contains(first)
                ==> s.imported(name) == resolved(name, s.use_aliases)
        }),
{
    reveal_strlit("::");
    crate::text_laws::first_separator_parts_a_text(name, "::"@);
}

/// What a block binds and imports is forgotten at its end.
pub proof fn blocks_end_their_scope(c: ContextView, s: Facts, t: Tree)
    requires
        t.kind == Kind::Block,
    ensures
        visited(c, s, t).bound_names == s.bound_names,
        visited(c, s, t).use_aliases == s.use_aliases,
        visited(c, s, t).local_callable_origins == s.local_callable_origins,
{
}

/// Every statement counts for the section that it starts in, and for no other.
pub proof fn statements_count_for_their_section(n: SectionStatements, section: Section)
    requires
        n.body < usize::MAX,
        n.arrange < usize::MAX,
        n.act < usize::MAX,
        n.assert < usize::MAX,
    ensures
        n.plus_one(section).body == n.body + if section == Section::Body {
            1int
        } else {
            0
        },
        n.plus_one(section).arrange == n.arrange + if section == Section::Arrange {
            1int
        } else {
            0
        },
        n.plus_one(section).act == n.act + if section == Section::Act {
            1int
        } else {
            0
        },
        n.plus_one(section).assert == n.assert + if section == Section::Assert {
            1int
        } else {
            0
        },
{
}

/// Whether something done here is part of the Act: it stands in the Act, or in a test without
/// markers, and not within an oracle.
pub open spec fn is_done_in_the_act(c: ContextView, s: Facts, section: Section) -> bool {
    !s.inside_oracle && (section == Section::Act || (c.markers.len() == 0 && section
        == Section::Body))
}

/// The Act works on the receivers of its method calls. Only a call that is part of the Act,
/// or becomes no oracle itself, adds to them.
pub proof fn the_act_works_on_its_receivers(c: ContextView, s: Facts, t: Tree, name: Seq<char>)
    requires
        t.kind == Kind::MethodCall,
        t.words.len() > 0,
        t.children.len() > 0,
        !configured_matches(c.policy.mock_interaction_methods, t.words[0]),
        !configured_matches(c.policy.assertion_functions, t.words[0]),
    ensures
        s.with_method_call(c, t).act_receivers.contains(name) <==> s.act_receivers.contains(name)
            || (is_done_in_the_act(c, s, c.section(t.span)) && receiver_names(
            t.children[0],
        ).contains(name)),
        s.with_method_call(c, t).act_outputs == s.act_outputs,
        !is_done_in_the_act(c, s, c.section(t.span)) ==> s.with_method_call(c, t).act_effects
            == s.act_effects && s.with_method_call(c, t).act_shared_references
            == s.act_shared_references,
{
    reveal(Facts::with_method_call);
}

/// A name behind `&mut` may be changed, one behind `&` may be changed from within only.
pub proof fn references_tell_what_may_change(t: Tree, name: Seq<char>)
    requires
        t.kind == Kind::Reference,
        t.children.len() > 0,
    ensures
        mutable_names(t).contains(name) <==> t.flag && names_in(t.children[0]).contains(name),
        shared_names(t).contains(name) <==> !t.flag && names_in(t.children[0]).contains(name),
{
}

/// An assignment makes what stands left of it a result of the Act where its value is made of
/// what the Act gave, or, in the Act, calls something or looks at what the Act changed.
pub proof fn assignments_make_results_of_the_act(
    c: ContextView,
    s: Facts,
    section: Section,
    left: Tree,
    right: Tree,
    name: Seq<char>,
)
    ensures
        s.with_assignment(c, section, left, right).act_outputs.contains(name)
            <==> s.act_outputs.contains(name) || (names_in(left).contains(name) && (mentions_some(
            right,
            s.act_outputs,
        ) || (section == Section::Act && (calls_something(right) || mentions_some(
            right,
            s.act_effects,
        ))))),
        s.with_assignment(c, section, left, right).oracles == s.oracles,
        s.with_assignment(c, section, left, right).act_effects == s.act_effects,
{
    reveal(Facts::with_assignment);
    mentioning_some(right, s.act_outputs);
    mentioning_some(right, s.act_effects);
    calling_something(right);
}

/// An `if` in the assertions is an oracle exactly where one of its branches panics.
pub proof fn panicking_branches_are_oracles(c: ContextView, s: Facts, t: Tree)
    requires
        t.kind == Kind::If,
        t.children.len() > 1,
    ensures
        c.section(t.span) == Section::Assert && (panics(t.children[1]) || (t.children.len() > 2
            && panics(t.children[2]))) ==> is_oracle(c, s, t, OracleKind::Outcome) && first_new(
            c,
            s,
            t,
        ).actual_identifiers == names_in(t.children[0]),
        !(c.section(t.span) == Section::Assert && (panics(t.children[1]) || (t.children.len() > 2
            && panics(t.children[2])))) ==> s.with_if_oracle(c, t) == s,
{
    reveal(Facts::with_if_oracle);
    let noted = s.with_if_oracle(c, t);
    after_the_note(c, s, t);
    if noted.oracles.len() > s.oracles.len() {
        stays_first(c, s, noted, t);
    }
}

proof fn after_the_note(c: ContextView, s: Facts, t: Tree)
    requires
        t.kind == Kind::If,
        t.children.len() > 1,
    ensures
        s.with_if_oracle(c, t).oracles.is_prefix_of(visited(c, s, t).oracles),
{
    reveal(Facts::with_condition_pattern);
    let noted = s.with_if_oracle(c, t);
    let patterned = noted.with_condition_pattern(c, t.children[0]);
    let start = Facts { conditional: true, ..patterned };
    walk_adds(c, start, t.children[0]);
    let tested = visited(c, start, t.children[0]);
    let bound = tested.with_bound(super::visitor::condition_names(t.children[0]));
    walk_adds(c, bound, t.children[1]);
    let taken = visited(c, bound, t.children[1]);
    let back = visited_then(c, start, t);
    chained(noted.oracles, tested.oracles, taken.oracles);
    if t.children.len() > 2 {
        walk_adds(c, back, t.children[2]);
        chained(noted.oracles, taken.oracles, visited(c, back, t.children[2]).oracles);
    }
}

proof fn chained<A>(a: Seq<A>, b: Seq<A>, d: Seq<A>)
    requires
        a.is_prefix_of(b),
        b.is_prefix_of(d),
    ensures
        a.is_prefix_of(d),
{
    assert(d.subrange(0, a.len() as int) =~= a) by {
        assert forall|i: int| 0 <= i < a.len() implies d[i] == a[i] by {
            assert(b.subrange(0, a.len() as int)[i] == b[i]);
            assert(d.subrange(0, b.len() as int)[i] == d[i]);
        }
    }
}

/// A `match` is an oracle where the Act can be observed and one of its arms panics. It looks
/// for any error alone where the one arm that does not panic accepts every error and does
/// nothing.
pub proof fn panicking_arms_are_oracles(c: ContextView, s: Facts, t: Tree)
    requires
        t.kind == Kind::Match,
        t.children.len() > 2,
    ensures
        can_observe(c, t.span) && (exists|i: int|
            1 <= i < t.children.len() && arm_panics(#[trigger] t.children[i])) ==> is_oracle(
            c,
            s,
            t,
            match_kind(t),
        ) && first_new(c, s, t).actual_identifiers == names_in(t.children[0]),
        !(can_observe(c, t.span) && (exists|i: int|
            1 <= i < t.children.len() && arm_panics(#[trigger] t.children[i])))
            ==> s.with_match_oracle(c, t) == s,
        match_kind(t) == OracleKind::BroadError || match_kind(t) == OracleKind::Outcome,
        match_kind(t) == OracleKind::BroadError <==> exists|i: int|
            #[trigger] is_only_passing_arm(t, i) && accepts_any_error(t.children[i]),
{
    reveal(Facts::with_match_oracle);
    let noted = s.with_match_oracle(c, t);
    let start = Facts { conditional: true, ..noted };
    parts_add(c, start, t);
    some_arm(t);
    if noted.oracles.len() > s.oracles.len() {
        stays_first(c, s, noted, t);
    }
    one_passing_arm(t);
}

proof fn some_arm(t: Tree)
    ensures
        some_arm_panics(t) <==> exists|i: int|
            1 <= i < t.children.len() && arm_panics(#[trigger] t.children[i]),
{
    let arms = children_from(t, 1);
    let p = |arm: Tree| arm_panics(arm);
    if some_arm_panics(t) {
        let k = choose|k: int| 0 <= k < arms.len() && p(#[trigger] arms[k]);
        assert(t.children[k + 1] == arms[k]);
        assert(arm_panics(t.children[k + 1]));
    }
    if exists|i: int| 1 <= i < t.children.len() && arm_panics(#[trigger] t.children[i]) {
        let i = choose|i: int| 1 <= i < t.children.len() && arm_panics(#[trigger] t.children[i]);
        assert(arms[i - 1] == t.children[i]);
        assert(p(arms[i - 1]));
    }
}

/// Whether arm `i` is the only one of a `match` that does not panic.
pub open spec fn is_only_passing_arm(t: Tree, i: int) -> bool {
    &&& 1 <= i < t.children.len()
    &&& !arm_panics(t.children[i])
    &&& forall|j: int|
        1 <= j < t.children.len() && j != i ==> arm_panics(#[trigger] t.children[j])
}

proof fn one_passing_arm(t: Tree)
    ensures
        match_kind(t) == OracleKind::BroadError <==> exists|i: int|
            #[trigger] is_only_passing_arm(t, i) && accepts_any_error(t.children[i]),
{
    let arms = children_from(t, 1);
    let p = |arm: Tree| !arm_panics(arm);
    let passing = keep(arms, p);
    kept_none(arms, p);
    kept_many(arms, p);
    assert forall|k: int| 0 <= k < arms.len() implies #[trigger] arms[k] == t.children[k + 1] by {}
    if match_kind(t) == OracleKind::BroadError {
        let k = choose|k: int| 0 <= k < arms.len() && p(#[trigger] arms[k]);
        assert forall|j: int| 1 <= j < t.children.len() && j != k + 1 implies arm_panics(
            #[trigger] t.children[j],
        ) by {
            assert(arms[j - 1] == t.children[j]);
            if !arm_panics(t.children[j]) {
                assert(p(arms[j - 1]) && p(arms[k]));
                if j - 1 < k {
                    assert(p(arms[j - 1]) && p(arms[k]));
                } else {
                    assert(p(arms[k]) && p(arms[j - 1]));
                }
            }
        }
        assert forall|m: int| 0 <= m < k implies !p(#[trigger] arms[m]) by {
            assert(arm_panics(t.children[m + 1]));
        }
        kept_first(arms, p, k);
        assert(is_only_passing_arm(t, k + 1));
    }
    if exists|i: int| #[trigger] is_only_passing_arm(t, i) && accepts_any_error(t.children[i]) {
        let i = choose|i: int| #[trigger]
            is_only_passing_arm(t, i) && accepts_any_error(t.children[i]);
        assert(arms[i - 1] == t.children[i]);
        assert(p(arms[i - 1]));
        assert forall|m: int| 0 <= m < arms.len() && m != i - 1 implies !p(#[trigger] arms[m]) by {
            assert(arms[m] == t.children[m + 1]);
            assert(arm_panics(t.children[m + 1]));
        }
        kept_first(arms, p, i - 1);
    }
}

/// An expression checks for an error without a look at it where it is a call of `is_err` or
/// one of its parts does, unless it is a `matches!`, which does where its pattern accepts
/// every error.
pub proof fn broad_checks_are_is_err(t: Tree)
    ensures
        t.kind == Kind::MethodCall && t.words.len() > 0 && t.words[0] == "is_err"@
            ==> broad_error_check(t),
        t.kind != Kind::Macro && !(t.kind == Kind::MethodCall && t.words.len() > 0 && t.words[0]
            == "is_err"@) ==> (broad_error_check(t) <==> (exists|i: int|
            0 <= i < t.attributes.len() && broad_error_check(#[trigger] t.attributes[i])) || (exists|
            i: int,
        |
            0 <= i < t.children.len() && broad_error_check(#[trigger] t.children[i]))),
{
    reveal_strlit("is_err");
    assert("is_err"@.len() == 6);
    some_broad_check(t.attributes);
    some_broad_check(t.children);
}

proof fn some_broad_check(ts: Seq<Tree>)
    ensures
        broad_error_check_any(ts) <==> exists|i: int|
            0 <= i < ts.len() && broad_error_check(#[trigger] ts[i]),
    decreases ts.len(),
{
    if ts.len() > 0 {
        let rest = ts.drop_last();
        some_broad_check(rest);
        assert forall|i: int| 0 <= i < rest.len() implies #[trigger] rest[i] == ts[i] by {}
        if broad_error_check_any(rest) {
            let i = choose|i: int| 0 <= i < rest.len() && broad_error_check(#[trigger] rest[i]);
            assert(broad_error_check(ts[i]));
        }
        if exists|i: int| 0 <= i < ts.len() && broad_error_check(#[trigger] ts[i]) {
            let i = choose|i: int| 0 <= i < ts.len() && broad_error_check(#[trigger] ts[i]);
            if i < rest.len() {
                assert(broad_error_check(rest[i]));
            }
        }
    }
}

} // verus!
