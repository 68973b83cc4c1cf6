//! What the walk through the body of a test finds.

use vstd::prelude::*;

use super::aliases::GLOB_IMPORT_SENTINEL;
use super::config::configured_matches;
use super::facts::{
    assertion_helper, children_from, facts_of, facts_of_all, glob_suspect, no_facts, path_name_of,
    shared_names_all,
};
use super::model::{CallFactView, HygieneFactView, OracleFactView, OracleKind, Section};
use super::syntax::{Kind, Tree};
use super::visitor::{
    closure_names, condition_names, local_names, source_name, visited, visited_all, visited_arm,
    visited_assign, visited_block, visited_branch, visited_call, visited_closure, visited_for_loop,
    visited_if, visited_local, visited_macro, visited_parts, visited_then, visited_while,
    ContextView, Facts,
};
use crate::text::{after_last, before_first, has_prefix};

verus! {

/// Whether an oracle is one that the walk may find from here: it stands in the section that
/// its place lies in, and may not execute where the place where the walk started may not.
pub open spec fn may_be_found(c: ContextView, s: Facts, oracle: OracleFactView) -> bool {
    oracle.section == c.section(oracle.span) && (s.conditional ==> oracle.conditional)
}

/// Whether a use of something uncontrolled is one that the walk may find from here.
pub open spec fn may_be_used(c: ContextView, s: Facts, fact: HygieneFactView) -> bool {
    fact.section == c.section(fact.span) && (s.inside_oracle ==> fact.in_oracle)
}

/// Whether the facts `r` hold all facts `s` and others that the walk may find from there.
pub open spec fn adds(c: ContextView, s: Facts, r: Facts) -> bool {
    &&& s.oracles.is_prefix_of(r.oracles)
    &&& s.calls.is_prefix_of(r.calls)
    &&& s.hygiene.is_prefix_of(r.hygiene)
    &&& s.gaps.is_prefix_of(r.gaps)
    &&& s.act_outputs.subset_of(r.act_outputs)
    &&& s.act_effects.subset_of(r.act_effects)
    &&& s.act_receivers.subset_of(r.act_receivers)
    &&& s.act_shared_references.subset_of(r.act_shared_references)
    &&& s.act_root_calls.subset_of(r.act_root_calls)
    &&& s.uncontrolled_clock_outputs.subset_of(r.uncontrolled_clock_outputs)
    &&& forall|k: int|
        s.oracles.len() <= k < r.oracles.len() ==> may_be_found(c, s, #[trigger] r.oracles[k])
    &&& forall|k: int|
        s.hygiene.len() <= k < r.hygiene.len() ==> may_be_used(c, s, #[trigger] r.hygiene[k])
    &&& forall|k: int|
        s.calls.len() <= k < r.calls.len() ==> (#[trigger] r.calls[k]).section == c.section(
            r.calls[k].span,
        )
}

/// Whether the place of the walk is the same: whether it surely executes, is part of an
/// oracle, and which names it binds.
pub open spec fn same_place(s: Facts, r: Facts) -> bool {
    r.conditional == s.conditional && r.inside_oracle == s.inside_oracle
        && r.current_binding_identifiers == s.current_binding_identifiers
}

proof fn adds_nothing(c: ContextView, s: Facts)
    ensures
        adds(c, s, s),
{
}

#[verifier::spinoff_prover]
pub(crate) proof fn adds_more(c: ContextView, a: Facts, b: Facts, d: Facts)
    requires
        adds(c, a, b),
        adds(c, b, d),
        a.conditional ==> b.conditional,
        a.inside_oracle ==> b.inside_oracle,
    ensures
        adds(c, a, d),
{
    assert(a.oracles.is_prefix_of(d.oracles));
    assert(a.calls.is_prefix_of(d.calls));
    assert(a.hygiene.is_prefix_of(d.hygiene));
    assert(a.gaps.is_prefix_of(d.gaps));
    assert forall|k: int| a.oracles.len() <= k < d.oracles.len() implies may_be_found(
        c,
        a,
        #[trigger] d.oracles[k],
    ) by {
        if k < b.oracles.len() {
            assert(d.oracles[k] == b.oracles[k]);
        } else {
            assert(may_be_found(c, b, d.oracles[k]));
        }
    }
    assert forall|k: int| a.hygiene.len() <= k < d.hygiene.len() implies may_be_used(
        c,
        a,
        #[trigger] d.hygiene[k],
    ) by {
        if k < b.hygiene.len() {
            assert(d.hygiene[k] == b.hygiene[k]);
        } else {
            assert(may_be_used(c, b, d.hygiene[k]));
        }
    }
    assert forall|k: int| a.calls.len() <= k < d.calls.len() implies (#[trigger] d.calls[k]).section
        == c.section(d.calls[k].span) by {
        if k < b.calls.len() {
            assert(d.calls[k] == b.calls[k]);
        }
    }
}

proof fn hygiene_call_adds(c: ContextView, s: Facts, name: Seq<char>, t: Tree)
    ensures
        adds(c, s, s.with_hygiene_call(c, name, t)),
        same_place(s, s.with_hygiene_call(c, name, t)),
{
}

proof fn items_add(c: ContextView, s: Facts, statements: Seq<Tree>)
    ensures
        adds(c, s, s.with_items(statements)),
        same_place(s, s.with_items(statements)),
    decreases statements.len(),
{
    if statements.len() > 0 {
        items_add(c, s, statements.drop_last());
    }
}

proof fn initialized_adds(
    c: ContextView,
    s: Facts,
    section: Section,
    span: super::model::SourceSpan,
    bound: Set<Seq<char>>,
    init: Tree,
)
    ensures
        adds(c, s, s.with_initialized(c, section, span, bound, init)),
        same_place(s, s.with_initialized(c, section, span, bound, init)),
{
    reveal(Facts::with_initialized);
    let facts = facts_of(init);
    let a = s.with_shadowing(c, span, bound);
    let b = a.with_reference_aliases(bound, init).with_origin(bound, facts).with_clock(
        bound,
        facts,
    );
    assert(adds(c, s, a));
    assert(adds(c, a, b));
    adds_more(c, s, a, b);
    act_value_adds(c, b, section, bound, init);
    adds_more(c, s, b, b.with_act_value(c, section, bound, init));
}

proof fn act_value_adds(
    c: ContextView,
    s: Facts,
    section: Section,
    bound: Set<Seq<char>>,
    init: Tree,
)
    ensures
        adds(c, s, s.with_act_value(c, section, bound, init)),
        same_place(s, s.with_act_value(c, section, bound, init)),
{
    let noted = s.with_computation_gap(c, section, init);
    assert(adds(c, s, noted));
    assert(adds(c, noted, s.with_act_value(c, section, bound, init)));
    adds_more(c, s, noted, s.with_act_value(c, section, bound, init));
}

proof fn assignment_adds(c: ContextView, s: Facts, section: Section, left: Tree, right: Tree)
    ensures
        adds(c, s, s.with_assignment(c, section, left, right)),
        same_place(s, s.with_assignment(c, section, left, right)),
{
    reveal(Facts::with_assignment);
}

proof fn small_steps_add(c: ContextView, s: Facts, t: Tree, u: Tree)
    ensures
        adds(c, s, s.with_loop_pattern(c, t, u)),
        same_place(s, s.with_loop_pattern(c, t, u)),
        adds(c, s, s.with_compound_assignment(c, t)),
        same_place(s, s.with_compound_assignment(c, t)),
        adds(c, s, s.with_match_oracle(c, t)),
        same_place(s, s.with_match_oracle(c, t)),
        adds(c, s, s.with_if_oracle(c, t)),
        same_place(s, s.with_if_oracle(c, t)),
        adds(c, s, s.with_condition_pattern(c, t)),
        same_place(s, s.with_condition_pattern(c, t)),
        adds(c, s, s.with_format_gap(c, t)),
        same_place(s, s.with_format_gap(c, t)),
        adds(c, s, s.with_unknown_macro(c, t)),
        same_place(s, s.with_unknown_macro(c, t)),
        adds(c, s, s.with_try(c, t)),
        same_place(s, s.with_try(c, t)),
        adds(c, s, s.with_return(c, t)),
        same_place(s, s.with_return(c, t)),
        adds(c, s, s.with_assertion(c, t)),
        same_place(s, s.with_assertion(c, t)),
{
    reveal(Facts::with_loop_pattern);
    reveal(Facts::with_compound_assignment);
    reveal(Facts::with_match_oracle);
    reveal(Facts::with_if_oracle);
    reveal(Facts::with_condition_pattern);
    reveal(Facts::with_format_gap);
    reveal(Facts::with_unknown_macro);
    reveal(Facts::with_try);
    reveal(Facts::with_return);
    reveal(Facts::with_assertion);
}

pub(crate) proof fn method_call_adds(c: ContextView, s: Facts, t: Tree)
    ensures
        adds(c, s, s.with_method_call(c, t)),
        s.with_method_call(c, t).conditional == s.conditional,
        s.inside_oracle ==> s.with_method_call(c, t).inside_oracle,
        s.with_method_call(c, t).current_binding_identifiers == s.current_binding_identifiers,
{
    reveal(Facts::with_method_call);
}

/// The facts with a gap about a name that a glob may import.
spec fn after_glob(c: ContextView, s: Facts, t: Tree) -> Facts {
    let source = source_name(t);
    if s.imported(source) == source && s.use_aliases.contains_key(GLOB_IMPORT_SENTINEL@)
        && !s.bound_names.contains(before_first(source, "::"@)) && glob_suspect(source) {
        s.with_gap(
            c,
            "analysis.unresolved-glob-import"@,
            "cannot determine whether `"@ + source
                + "` resolves to a nondeterministic API imported through a glob"@,
            t.span,
        )
    } else {
        s
    }
}

/// The facts with the oracle that a call is, or with the gap that it leaves.
spec fn after_judgement(c: ContextView, s: Facts, t: Tree) -> Facts {
    let source = source_name(t);
    let qualified = s.imported(source);
    let name = after_last(source, "::"@);
    let interaction = configured_matches(c.policy.mock_interaction_methods, qualified);
    if configured_matches(c.policy.assertion_functions, qualified) || interaction {
        after_glob(c, s, t).with_oracle(
            c,
            if interaction {
                OracleKind::Interaction
            } else {
                OracleKind::Outcome
            },
            t.span,
            t.text,
            facts_of_all(children_from(t, 1)),
            no_facts(),
            false,
            false,
        )
    } else if !s.inside_oracle && has_prefix(name, "should_"@) {
        after_glob(c, s, t).with_gap(
            c,
            "analysis.unresolved-scenario-delegate"@,
            "scenario-like delegate `"@ + source + "` cannot be inspected here"@,
            t.span,
        )
    } else if !s.inside_oracle && (has_prefix(name, "assert_"@) || (c.section(t.span)
        == Section::Assert && assertion_helper(name))) {
        after_glob(c, s, t).with_gap(
            c,
            "analysis.unresolved-assertion-helper"@,
            "assertion-like helper `"@ + qualified + "` is not configured"@,
            t.span,
        )
    } else {
        after_glob(c, s, t)
    }
}

pub(crate) closed spec fn after_clock(c: ContextView, s: Facts, t: Tree) -> Facts {
    let qualified = s.imported(source_name(t));
    let judged = after_judgement(c, s, t);
    Facts {
        virtual_time: if s.inside_oracle || s.conditional {
            judged.virtual_time
        } else if qualified == "tokio::time::pause"@ {
            true
        } else if qualified == "tokio::time::resume"@ {
            false
        } else {
            judged.virtual_time
        },
        ..judged
    }
}

spec fn after_hygiene(c: ContextView, s: Facts, t: Tree) -> Facts {
    after_clock(c, s, t).with_hygiene_call(c, s.imported(source_name(t)), t)
}

spec fn after_call(c: ContextView, s: Facts, t: Tree) -> Facts {
    let qualified = s.imported(source_name(t));
    let checked = after_hygiene(c, s, t);
    Facts {
        inside_oracle: s.inside_oracle || (configured_matches(
            c.policy.assertion_functions,
            qualified,
        ) || configured_matches(c.policy.mock_interaction_methods, qualified)),
        ..checked
    }.with_call(
        c,
        CallFactView {
            name: after_last(source_name(t), "::"@),
            qualified_name: qualified,
            span: t.span,
            section: c.section(t.span),
            receiver_identifiers: set![],
            argument_identifiers: facts_of_all(children_from(t, 1)).identifiers,
        },
        checked.effect_names_all(children_from(t, 1)),
        shared_names_all(children_from(t, 1)),
    )
}

spec fn are_same(a: Facts, b: Facts) -> bool {
    a == b
}

#[verifier::spinoff_prover]
#[verifier::rlimit(60)]
proof fn steps_of_a_call(c: ContextView, s: Facts, t: Tree)
    ensures
        are_same(s.with_function_call(c, t), after_call(c, s, t)),
{
    reveal(Facts::with_function_call);
}

proof fn judgement_adds(c: ContextView, s: Facts, t: Tree)
    ensures
        adds(c, s, after_clock(c, s, t)),
        same_place(s, after_clock(c, s, t)),
{
    let a = after_glob(c, s, t);
    assert(adds(c, s, a) && same_place(s, a));
    let b = after_judgement(c, s, t);
    assert(adds(c, a, b) && same_place(a, b));
    adds_more(c, s, a, b);
}

pub(crate) proof fn function_call_adds(c: ContextView, s: Facts, t: Tree)
    ensures
        adds(c, s, s.with_function_call(c, t)),
        s.with_function_call(c, t).conditional == s.conditional,
        s.inside_oracle ==> s.with_function_call(c, t).inside_oracle,
        s.with_function_call(c, t).current_binding_identifiers == s.current_binding_identifiers,
{
    let a = after_clock(c, s, t);
    judgement_adds(c, s, t);
    let b = after_hygiene(c, s, t);
    hygiene_call_adds(c, a, s.imported(source_name(t)), t);
    adds_more(c, s, a, b);
    steps_of_a_call(c, s, t);
    let r = s.with_function_call(c, t);
    call_is_noted(c, b, r);
    adds_more(c, s, b, r);
}

proof fn call_is_noted(c: ContextView, b: Facts, r: Facts)
    requires
        r.oracles == b.oracles,
        r.hygiene == b.hygiene,
        r.gaps == b.gaps,
        r.calls.len() == b.calls.len() + 1,
        r.calls.drop_last() =~= b.calls,
        r.calls.last().section == c.section(r.calls.last().span),
        b.act_outputs == r.act_outputs,
        b.act_effects.subset_of(r.act_effects),
        b.act_receivers.subset_of(r.act_receivers),
        b.act_shared_references.subset_of(r.act_shared_references),
        b.act_root_calls == r.act_root_calls,
        b.uncontrolled_clock_outputs == r.uncontrolled_clock_outputs,
    ensures
        adds(c, b, r),
{
    assert(b.calls.is_prefix_of(r.calls)) by {
        assert(r.calls.subrange(0, b.calls.len() as int) =~= r.calls.drop_last());
    }
}

pub(crate) proof fn after_call_facts(c: ContextView, s: Facts, t: Tree)
    ensures
        s.with_function_call(c, t).calls.len() == s.calls.len() + 1,
        s.with_function_call(c, t).calls.last().span == t.span,
        s.with_function_call(c, t).calls.last().qualified_name == s.imported(source_name(t)),
        s.with_function_call(c, t).calls.last().name == after_last(source_name(t), "::"@),
        s.with_function_call(c, t).calls.last().section == c.section(t.span),
        ({
            let r = s.with_function_call(c, t);
            let name = s.imported(source_name(t));
            let mock = configured_matches(c.policy.mock_interaction_methods, name);
            let own = configured_matches(c.policy.assertion_functions, name);
            &&& !mock && !own ==> r.oracles == s.oracles
            &&& mock || own ==> {
                &&& r.oracles.len() == s.oracles.len() + 1
                &&& r.oracles.last().kind == if mock {
                    OracleKind::Interaction
                } else {
                    OracleKind::Outcome
                }
                &&& r.oracles.last().span == t.span
                &&& r.oracles.last().text == t.text
                &&& r.oracles.last().section == c.section(t.span)
                &&& r.oracles.last().conditional == s.conditional
                &&& r.oracles.last().produced_identifiers == s.current_binding_identifiers
            }
        }),
        s.with_function_call(c, t).hygiene == after_clock(c, s, t).with_hygiene_call(
            c,
            s.imported(source_name(t)),
            t,
        ).hygiene,
        after_clock(c, s, t).hygiene == s.hygiene,
        after_clock(c, s, t).inside_oracle == s.inside_oracle,
        s.imported(source_name(t)) != "tokio::time::pause"@ && s.imported(source_name(t))
            != "tokio::time::resume"@ ==> after_clock(c, s, t).virtual_time == s.virtual_time,
{
    steps_of_a_call(c, s, t);
}

pub(crate) proof fn parts_add(c: ContextView, s: Facts, t: Tree)
    ensures
        adds(c, s, visited_parts(c, s, t)),
        same_place(s, visited_parts(c, s, t)),
    decreases t, 0nat,
{
    all_add(c, s, t.attributes);
    let a = visited_all(c, s, t.attributes);
    all_add(c, a, t.children);
    adds_more(c, s, a, visited_all(c, a, t.children));
}

pub(crate) proof fn all_add(c: ContextView, s: Facts, ts: Seq<Tree>)
    ensures
        adds(c, s, visited_all(c, s, ts)),
        same_place(s, visited_all(c, s, ts)),
    decreases ts, 0nat,
{
    if ts.len() > 0 {
        all_add(c, s, ts.drop_last());
        let a = visited_all(c, s, ts.drop_last());
        walk_adds(c, a, ts.last());
        adds_more(c, s, a, visited(c, a, ts.last()));
    }
}

proof fn loop_adds(c: ContextView, s: Facts, t: Tree)
    ensures
        adds(c, s, visited_for_loop(c, s, t)),
        same_place(s, visited_for_loop(c, s, t)),
    decreases t, 1nat,
{
    if t.children.len() > 2 {
        small_steps_add(c, s, t.children[0], t.children[1]);
        let patterned = s.with_loop_pattern(c, t.children[0], t.children[1]);
        let start = Facts { conditional: true, ..patterned };
        assert(adds(c, s, start));
        walk_adds(c, start, t.children[1]);
        let headed = visited(c, start, t.children[1]);
        adds_more(c, s, start, headed);
        let bound = headed.with_bound(super::facts::bound_by(t.children[0]));
        assert(adds(c, headed, bound));
        walk_adds(c, bound, t.children[2]);
        let body = visited(c, bound, t.children[2]);
        adds_more(c, headed, bound, body);
        adds_more(c, s, headed, body);
        assert(adds(c, s, visited_for_loop(c, s, t)));
    }
}

proof fn if_adds(c: ContextView, s: Facts, t: Tree)
    ensures
        adds(c, s, visited_if(c, s, t)),
        same_place(s, visited_if(c, s, t)),
    decreases t, 1nat,
{
    if t.children.len() > 1 {
        small_steps_add(c, s, t, t);
        let noted = s.with_if_oracle(c, t);
        small_steps_add(c, noted, t.children[0], t);
        let patterned = noted.with_condition_pattern(c, t.children[0]);
        adds_more(c, s, noted, patterned);
        let start = Facts { conditional: true, ..patterned };
        assert(adds(c, s, start));
        walk_adds(c, start, t.children[0]);
        let tested = visited(c, start, t.children[0]);
        adds_more(c, s, start, tested);
        let bound = tested.with_bound(condition_names(t.children[0]));
        assert(adds(c, tested, bound));
        walk_adds(c, bound, t.children[1]);
        let taken = visited(c, bound, t.children[1]);
        adds_more(c, tested, bound, taken);
        adds_more(c, s, tested, taken);
        let back = visited_then(c, start, t);
        assert(adds(c, s, back));
        if t.children.len() > 2 {
            walk_adds(c, back, t.children[2]);
            adds_more(c, s, back, visited(c, back, t.children[2]));
        }
        assert(adds(c, s, visited_if(c, s, t)));
    }
}

proof fn while_adds(c: ContextView, s: Facts, t: Tree)
    ensures
        adds(c, s, visited_while(c, s, t)),
        same_place(s, visited_while(c, s, t)),
    decreases t, 1nat,
{
    if t.children.len() > 1 {
        let start = Facts { conditional: true, ..s };
        assert(adds(c, s, start));
        walk_adds(c, start, t.children[0]);
        let tested = visited(c, start, t.children[0]);
        adds_more(c, s, start, tested);
        let bound = tested.with_bound(condition_names(t.children[0]));
        assert(adds(c, tested, bound));
        walk_adds(c, bound, t.children[1]);
        let body = visited(c, bound, t.children[1]);
        adds_more(c, tested, bound, body);
        adds_more(c, s, tested, body);
        assert(adds(c, s, visited_while(c, s, t)));
    }
}

proof fn macro_adds(c: ContextView, s: Facts, t: Tree)
    ensures
        adds(c, s, visited_macro(c, s, t)),
        same_place(s, visited_macro(c, s, t)),
    decreases t, 1nat,
{
    small_steps_add(c, s, t, t);
    let noted = s.with_format_gap(c, t);
    small_steps_add(c, noted, t, t);
    if configured_matches(c.policy.assertion_macros, path_name_of(t.words)) {
        let judged = noted.with_assertion(c, t);
        adds_more(c, s, noted, judged);
        let start = Facts { inside_oracle: true, ..judged };
        assert(adds(c, s, start));
        if let Some(list) = t.arguments {
            all_add(c, start, list);
            adds_more(c, s, start, visited_all(c, start, list));
        }
        assert(adds(c, s, visited_macro(c, s, t)));
    } else {
        let other = noted.with_unknown_macro(c, t);
        adds_more(c, s, noted, other);
        all_add(c, other, t.children);
        adds_more(c, s, other, visited_all(c, other, t.children));
    }
}

proof fn local_adds(c: ContextView, s: Facts, t: Tree)
    ensures
        adds(c, s, visited_local(c, s, t)),
        same_place(s, visited_local(c, s, t)),
    decreases t, 1nat,
{
    let known = if t.flag && t.children.len() > 1 {
        s.with_initialized(c, c.section(t.span), t.span, local_names(t), t.children[1])
    } else {
        s
    };
    if t.flag && t.children.len() > 1 {
        initialized_adds(c, s, c.section(t.span), t.span, local_names(t), t.children[1]);
    }
    assert(adds(c, s, known));
    let start = Facts { current_binding_identifiers: local_names(t), ..known };
    assert(adds(c, s, start));
    parts_add(c, start, t);
    let outer = visited_parts(c, start, t);
    adds_more(c, s, start, outer);
    assert(adds(c, s, visited_local(c, s, t)));
}

proof fn assign_adds(c: ContextView, s: Facts, t: Tree)
    ensures
        adds(c, s, visited_assign(c, s, t)),
        same_place(s, visited_assign(c, s, t)),
    decreases t, 1nat,
{
    if t.children.len() > 1 {
        assignment_adds(c, s, c.section(t.span), t.children[0], t.children[1]);
        let start = Facts {
            current_binding_identifiers: super::facts::names_in(t.children[0]),
            ..s.with_assignment(c, c.section(t.span), t.children[0], t.children[1])
        };
        assert(adds(c, s, start));
        parts_add(c, start, t);
        adds_more(c, s, start, visited_parts(c, start, t));
        assert(adds(c, s, visited_assign(c, s, t)));
    }
}

/// What is visited while the place may not execute, with what was noted before.
proof fn branch_adds(c: ContextView, s: Facts, noted: Facts, t: Tree)
    requires
        adds(c, s, noted),
        same_place(s, noted),
    ensures
        adds(c, s, visited_branch(c, s, noted, t)),
        same_place(s, visited_branch(c, s, noted, t)),
    decreases t, 1nat,
{
    let start = Facts { conditional: true, ..noted };
    assert(adds(c, s, start));
    parts_add(c, start, t);
    adds_more(c, s, start, visited_parts(c, start, t));
    assert(adds(c, s, visited_branch(c, s, noted, t)));
}

proof fn closure_adds(c: ContextView, s: Facts, t: Tree)
    ensures
        adds(c, s, visited_closure(c, s, t)),
        same_place(s, visited_closure(c, s, t)),
    decreases t, 1nat,
{
    let start = Facts { conditional: true, ..s }.with_bound(closure_names(t, t.inputs as int));
    assert(adds(c, s, start));
    parts_add(c, start, t);
    adds_more(c, s, start, visited_parts(c, start, t));
    assert(adds(c, s, visited_closure(c, s, t)));
}

pub(crate) proof fn call_adds(c: ContextView, s: Facts, noted: Facts, t: Tree)
    requires
        adds(c, s, noted),
        noted.conditional == s.conditional,
        s.inside_oracle ==> noted.inside_oracle,
        noted.current_binding_identifiers == s.current_binding_identifiers,
    ensures
        adds(c, s, visited_call(c, s, noted, t)),
        same_place(s, visited_call(c, s, noted, t)),
        noted.oracles.is_prefix_of(visited_call(c, s, noted, t).oracles),
        noted.calls.is_prefix_of(visited_call(c, s, noted, t).calls),
        noted.hygiene.is_prefix_of(visited_call(c, s, noted, t).hygiene),
        noted.gaps.is_prefix_of(visited_call(c, s, noted, t).gaps),
    decreases t, 1nat,
{
    parts_add(c, noted, t);
    adds_more(c, s, noted, visited_parts(c, noted, t));
    assert(adds(c, s, visited_call(c, s, noted, t)));
}

proof fn noted_parts_add(c: ContextView, s: Facts, noted: Facts, t: Tree)
    requires
        adds(c, s, noted),
        same_place(s, noted),
    ensures
        adds(c, s, visited_parts(c, noted, t)),
        same_place(s, visited_parts(c, noted, t)),
    decreases t, 1nat,
{
    parts_add(c, noted, t);
    adds_more(c, s, noted, visited_parts(c, noted, t));
}

/// Nothing that the walk has found is lost again, and it comes back to the place where it
/// started. Everything that it finds stands in the section that its place lies in. What it
/// finds below a place that may not execute may not execute, and what it finds below an
/// oracle is part of an oracle.
pub proof fn walk_adds(c: ContextView, s: Facts, t: Tree)
    ensures
        adds(c, s, visited(c, s, t)),
        same_place(s, visited(c, s, t)),
    decreases t, 2nat,
{
    small_steps_add(c, s, t, t);
    match t.kind {
        Kind::Block => {
            items_add(c, s, t.children);
            let start = s.with_items(t.children);
            all_add(c, start, t.children);
            adds_more(c, s, start, visited_all(c, start, t.children));
            assert(adds(c, s, visited_block(c, s, t)));
        },
        Kind::Statement => {
            let start = Facts {
                section_statements: s.section_statements.plus_one(c.section(t.span)),
                ..s
            };
            assert(adds(c, s, start));
            noted_parts_add(c, s, start, t);
        },
        Kind::Local => {
            local_adds(c, s, t);
        },
        Kind::ForLoop => {
            loop_adds(c, s, t);
        },
        Kind::Arm => {
            let start = s.with_bound(local_names(t));
            assert(adds(c, s, start));
            noted_parts_add(c, s, start, t);
            assert(adds(c, s, visited_arm(c, s, t)));
        },
        Kind::Assign => {
            assign_adds(c, s, t);
        },
        Kind::Binary => {
            noted_parts_add(c, s, s.with_compound_assignment(c, t), t);
        },
        Kind::Match => {
            branch_adds(c, s, s.with_match_oracle(c, t), t);
        },
        Kind::If => {
            if_adds(c, s, t);
        },
        Kind::Closure => {
            closure_adds(c, s, t);
        },
        Kind::Async | Kind::Loop => {
            adds_nothing(c, s);
            branch_adds(c, s, s, t);
        },
        Kind::While => {
            while_adds(c, s, t);
        },
        Kind::Call => {
            function_call_adds(c, s, t);
            call_adds(c, s, s.with_function_call(c, t), t);
        },
        Kind::MethodCall => {
            method_call_adds(c, s, t);
            call_adds(c, s, s.with_method_call(c, t), t);
        },
        Kind::Macro => {
            macro_adds(c, s, t);
        },
        Kind::Try => {
            noted_parts_add(c, s, s.with_try(c, t), t);
        },
        Kind::Return => {
            noted_parts_add(c, s, s.with_return(c, t), t);
        },
        _ => {
            parts_add(c, s, t);
        },
    }
}

/// Whether a piece of syntax may not execute what stands in it.
pub open spec fn may_not_execute(kind: Kind) -> bool {
    kind == Kind::ForLoop || kind == Kind::While || kind == Kind::Loop || kind == Kind::Async
        || kind == Kind::Closure
}

/// Everything found within a loop, a closure or an asynchronous block may not execute; of
/// what is found in an `if` or a `match`, only the oracle that this expression itself is
/// may surely execute.
pub proof fn conditional_code_has_conditional_oracles(c: ContextView, s: Facts, t: Tree, k: int)
    requires
        s.oracles.len() <= k < visited(c, s, t).oracles.len(),
    ensures
        may_not_execute(t.kind) ==> visited(c, s, t).oracles[k].conditional,
        (t.kind == Kind::If || t.kind == Kind::Match) && !visited(c, s, t).oracles[k].conditional
            ==> k == s.oracles.len() && visited(c, s, t).oracles[k].span == t.span
            && !s.conditional,
{
    walk_adds(c, s, t);
    small_steps_add(c, s, t, t);
    if t.kind == Kind::Loop || t.kind == Kind::Async {
        parts_add(c, Facts { conditional: true, ..s }, t);
        let inner = visited_parts(c, Facts { conditional: true, ..s }, t);
        assert(may_be_found(c, Facts { conditional: true, ..s }, inner.oracles[k]));
    } else if t.kind == Kind::Closure {
        let start = Facts { conditional: true, ..s }.with_bound(
            closure_names(t, t.inputs as int),
        );
        parts_add(c, start, t);
        assert(may_be_found(c, start, visited_parts(c, start, t).oracles[k]));
    } else if t.kind == Kind::While {
        conditional_while(c, s, t, k);
    } else if t.kind == Kind::ForLoop {
        conditional_loop(c, s, t, k);
    } else if t.kind == Kind::Match {
        reveal(Facts::with_match_oracle);
        let noted = s.with_match_oracle(c, t);
        let start = Facts { conditional: true, ..noted };
        parts_add(c, start, t);
        let inner = visited_parts(c, start, t);
        if k < noted.oracles.len() {
            assert(inner.oracles[k] == noted.oracles[k]);
        } else {
            assert(may_be_found(c, start, inner.oracles[k]));
        }
    } else if t.kind == Kind::If {
        conditional_if(c, s, t, k);
    }
}

proof fn conditional_while(c: ContextView, s: Facts, t: Tree, k: int)
    requires
        t.kind == Kind::While,
        s.oracles.len() <= k < visited(c, s, t).oracles.len(),
    ensures
        visited(c, s, t).oracles[k].conditional,
{
    let start = Facts { conditional: true, ..s };
    walk_adds(c, start, t.children[0]);
    let tested = visited(c, start, t.children[0]);
    let bound = tested.with_bound(condition_names(t.children[0]));
    walk_adds(c, bound, t.children[1]);
    let body = visited(c, bound, t.children[1]);
    if k < tested.oracles.len() {
        assert(body.oracles[k] == tested.oracles[k]);
        assert(may_be_found(c, start, tested.oracles[k]));
    } else {
        assert(may_be_found(c, bound, body.oracles[k]));
    }
}

proof fn conditional_loop(c: ContextView, s: Facts, t: Tree, k: int)
    requires
        t.kind == Kind::ForLoop,
        s.oracles.len() <= k < visited(c, s, t).oracles.len(),
    ensures
        visited(c, s, t).oracles[k].conditional,
{
    let patterned = s.with_loop_pattern(c, t.children[0], t.children[1]);
    assert(patterned.oracles == s.oracles) by {
        reveal(Facts::with_loop_pattern);
    }
    let start = Facts { conditional: true, ..patterned };
    walk_adds(c, start, t.children[1]);
    let headed = visited(c, start, t.children[1]);
    let bound = headed.with_bound(super::facts::bound_by(t.children[0]));
    walk_adds(c, bound, t.children[2]);
    let body = visited(c, bound, t.children[2]);
    if k < headed.oracles.len() {
        assert(body.oracles[k] == headed.oracles[k]);
        assert(may_be_found(c, start, headed.oracles[k]));
    } else {
        assert(may_be_found(c, bound, body.oracles[k]));
    }
}

proof fn conditional_if(c: ContextView, s: Facts, t: Tree, k: int)
    requires
        t.kind == Kind::If,
        s.oracles.len() <= k < visited(c, s, t).oracles.len(),
    ensures
        !visited(c, s, t).oracles[k].conditional ==> k == s.oracles.len() && visited(
            c,
            s,
            t,
        ).oracles[k].span == t.span && !s.conditional,
{
    let noted = s.with_if_oracle(c, t);
    reveal(Facts::with_if_oracle);
    reveal(Facts::with_condition_pattern);
    let patterned = noted.with_condition_pattern(c, t.children[0]);
    let start = Facts { conditional: true, ..patterned };
    walk_adds(c, start, t.children[0]);
    let tested = visited(c, start, t.children[0]);
    let bound = tested.with_bound(condition_names(t.children[0]));
    walk_adds(c, bound, t.children[1]);
    let taken = visited(c, bound, t.children[1]);
    let back = visited_then(c, start, t);
    let end = if t.children.len() > 2 {
        visited(c, back, t.children[2])
    } else {
        back
    };
    if t.children.len() > 2 {
        walk_adds(c, back, t.children[2]);
    }
    if k < noted.oracles.len() {
        assert(tested.oracles[k] == noted.oracles[k]);
        assert(taken.oracles[k] == noted.oracles[k]);
        assert(end.oracles[k] == noted.oracles[k]);
    } else if k < tested.oracles.len() {
        assert(may_be_found(c, start, tested.oracles[k]));
        assert(taken.oracles[k] == tested.oracles[k]);
        assert(end.oracles[k] == tested.oracles[k]);
    } else if k < taken.oracles.len() {
        assert(may_be_found(c, bound, taken.oracles[k]));
        assert(end.oracles[k] == taken.oracles[k]);
    } else {
        assert(may_be_found(c, back, end.oracles[k]));
    }
}

/// Whether `r` has a gap with a code that `s` did not have yet.
pub open spec fn leaves_open(s: Facts, r: Facts, code: Seq<char>) -> bool {
    exists|k: int| s.gaps.len() <= k < r.gaps.len() && (#[trigger] r.gaps[k]).code == code
}

/// Whether a name reads like that of a function that asserts something.
pub open spec fn reads_like_an_assertion(name: Seq<char>) -> bool {
    ||| name == "check"@
    ||| name == "ensure"@
    ||| name == "validate"@
    ||| name == "verify"@
    ||| "assert_"@.is_prefix_of(name)
    ||| "check_"@.is_prefix_of(name)
    ||| "ensure_"@.is_prefix_of(name)
    ||| "expect_"@.is_prefix_of(name)
    ||| "validate_"@.is_prefix_of(name)
    ||| "verify_"@.is_prefix_of(name)
}

proof fn reading_like_an_assertion(name: Seq<char>)
    ensures
        reads_like_an_assertion(name) == assertion_helper(name),
        has_prefix(name, "should_"@) == "should_"@.is_prefix_of(name),
        has_prefix(name, "assert_"@) == "assert_"@.is_prefix_of(name),
        has_prefix(name, "assert"@) == "assert"@.is_prefix_of(name),
{
    crate::text_laws::prefixes_and_suffixes(name, "assert_"@);
    crate::text_laws::prefixes_and_suffixes(name, "assert"@);
    crate::text_laws::prefixes_and_suffixes(name, "check_"@);
    crate::text_laws::prefixes_and_suffixes(name, "ensure_"@);
    crate::text_laws::prefixes_and_suffixes(name, "expect_"@);
    crate::text_laws::prefixes_and_suffixes(name, "validate_"@);
    crate::text_laws::prefixes_and_suffixes(name, "verify_"@);
    crate::text_laws::prefixes_and_suffixes(name, "should_"@);
}

proof fn open_codes_differ()
    ensures
        "analysis.unresolved-scenario-delegate"@.len() == 37,
        "analysis.unresolved-assertion-helper"@.len() == 36,
        "analysis.unresolved-glob-import"@.len() == 31,
        "analysis.conditional-oracle"@.len() == 27,
        "analysis.unsupported-macro"@.len() == 26,
        "analysis.partially-parsed-assertion"@.len() == 35,
{
    reveal_strlit("analysis.unresolved-scenario-delegate");
    reveal_strlit("analysis.unresolved-assertion-helper");
    reveal_strlit("analysis.unresolved-glob-import");
    reveal_strlit("analysis.conditional-oracle");
    reveal_strlit("analysis.unsupported-macro");
    reveal_strlit("analysis.partially-parsed-assertion");
}

/// Whether a name is that of a function that sleeps, draws a random number, changes the
/// environment or, called on a clock, reads it.
pub open spec fn may_be_uncontrolled(name: Seq<char>) -> bool {
    let last = after_last(name, "::"@);
    let first = before_first(name, "::"@);
    ||| last == "sleep"@
    ||| last == "random"@ || last == "thread_rng"@ || last == "rng"@ || last == "from_entropy"@
    ||| last == "set_var"@ || last == "remove_var"@ || last == "set_current_dir"@
    ||| last == "now"@ && (first == "Instant"@ || first == "SystemTime"@ || first == "Utc"@ || first
        == "Local"@)
}

/// A call that is no configured assertion leaves open what it checks where its name starts
/// with `should_`, or reads like an assertion; within an oracle it does not. A configured
/// assertion that may not execute leaves open whether it does, and a name that a glob may have
/// imported whether it is that of something uncontrolled.
pub proof fn calls_that_may_assert_are_left_open(c: ContextView, s: Facts, t: Tree)
    ensures
        ({
            let r = s.with_function_call(c, t);
            let name = after_last(source_name(t), "::"@);
            let known = configured_matches(
                c.policy.assertion_functions,
                s.imported(source_name(t)),
            ) || configured_matches(
                c.policy.mock_interaction_methods,
                s.imported(source_name(t)),
            );
            &&& leaves_open(s, r, "analysis.unresolved-scenario-delegate"@) <==> !known
                && !s.inside_oracle && "should_"@.is_prefix_of(name)
            &&& leaves_open(s, r, "analysis.unresolved-assertion-helper"@) <==> !known
                && !s.inside_oracle && !"should_"@.is_prefix_of(name) && ("assert_"@.is_prefix_of(
                name,
            ) || (c.section(t.span) == Section::Assert && reads_like_an_assertion(name)))
            &&& leaves_open(s, r, "analysis.conditional-oracle"@) <==> known && s.conditional
            &&& leaves_open(s, r, "analysis.unresolved-glob-import"@) <==> {
                &&& s.use_aliases.contains_key(GLOB_IMPORT_SENTINEL@)
                &&& s.imported(source_name(t)) == source_name(t)
                &&& !s.bound_names.contains(before_first(source_name(t), "::"@))
                &&& may_be_uncontrolled(source_name(t))
            }
        }),
{
    steps_of_a_call(c, s, t);
    open_codes_differ();
    reading_like_an_assertion(after_last(source_name(t), "::"@));
    let a = after_glob(c, s, t).gaps;
    let b = after_judgement(c, s, t).gaps;
    let r = s.with_function_call(c, t).gaps;
    assert(r == b);
    assert(b.len() == a.len() || (b.len() == a.len() + 1 && b.drop_last() =~= a));
    assert(a.len() == s.gaps.len() || (a.len() == s.gaps.len() + 1 && a.last().code
        == "analysis.unresolved-glob-import"@));
    if b.len() > a.len() {
        assert(r[a.len() as int].code == b.last().code);
    }
    if a.len() > s.gaps.len() {
        assert(r[s.gaps.len() as int] == a.last());
    }
}

/// A macro that is no configured assertion and no ordinary one leaves open what it checks
/// where it stands in the assertions or its name starts with `assert`.
pub proof fn macros_that_may_assert_are_left_open(c: ContextView, s: Facts, t: Tree)
    ensures
        leaves_open(s, s.with_unknown_macro(c, t), "analysis.unsupported-macro"@) <==> (c.section(
            t.span,
        ) == Section::Assert || "assert"@.is_prefix_of(
            after_last(path_name_of(t.words), "::"@),
        )) && !super::facts::ordinary_macro(path_name_of(t.words)),
        s.with_unknown_macro(c, t).oracles == s.oracles,
{
    reveal(Facts::with_unknown_macro);
    reading_like_an_assertion(after_last(path_name_of(t.words), "::"@));
    let r = s.with_unknown_macro(c, t);
    if r.gaps.len() > s.gaps.len() {
        assert(r.gaps[s.gaps.len() as int].code == "analysis.unsupported-macro"@);
    }
}

/// What an expression comes down to is the call that it is; a lone local value comes down to
/// the call that it got its value from.
pub proof fn expressions_come_down_to_calls(
    s: Facts,
    facts: super::facts::ExprFactsView,
    name: Seq<char>,
)
    requires
        facts.identifiers.finite(),
    ensures
        facts.identifiers =~= set![name] && s.local_origins.contains_key(name)
            && facts.root_call is None ==> s.root_call(facts) == Some(s.local_origins[name]),
        facts.root_call is Some && (forall|x: Seq<char>| #[trigger]
            facts.identifiers.contains(x) ==> !s.local_origins.contains_key(x)) ==> s.root_call(
            facts,
        ) == facts.root_call,
        facts.root_call is None && (forall|x: Seq<char>| #[trigger]
            facts.identifiers.contains(x) ==> !s.local_origins.contains_key(x)) ==> s.root_call(
            facts,
        ) is None,
{
    only_names(facts.identifiers, name);
}

proof fn only_names(names: Set<Seq<char>>, name: Seq<char>)
    requires
        names.finite(),
    ensures
        names =~= set![name] ==> crate::names::only_name(names) == Some(name),
        crate::names::only_name(names) matches Some(x) ==> names.contains(x),
{
    if names =~= set![name] {
        assert(names.contains(name));
    }
    if names.len() == 1 && !(exists|x: Seq<char>| names.contains(x)) {
        assert(names =~= Set::empty());
    }
}

} // verus!
