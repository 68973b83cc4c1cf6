//! Which questions the facts of a test as a whole leave open.

use vstd::prelude::*;

use super::facts::local_observer;
use super::intent_laws::{first_exists, has_code};
use super::model::{
    AnalysisGapView, CallFactView, Marker, MarkerKind, OracleFactView, OracleKind, Position,
    Section,
};
use super::rules::oracle_names;
use super::rule_laws::mentions;
use super::rust::{
    act_causality_gaps, closing_gaps, effect_gaps, indirect_gap, is_last_end, last_end,
    last_producer, later_act_gaps, looks_elsewhere, markerless_causality_gaps,
    markerless_phase_gaps, observed_outputs, one_act, outcome, receiver_gap, shared_gap,
    unobserved_after, within_oracle,
};
use super::visitor::{ContextView, Facts};
use crate::seqs::{any, every, flat, in_keep, keep, kept_many, kept_none};

verus! {

/// Whether exactly one of some markers opens an Act.
pub open spec fn opens_one_act(markers: Seq<Marker>) -> bool {
    &&& exists|i: int| 0 <= i < markers.len() && (#[trigger] markers[i]).kind == MarkerKind::Act
    &&& forall|i: int, j: int|
        0 <= i < markers.len() && 0 <= j < markers.len() && (#[trigger] markers[i]).kind
            == MarkerKind::Act && (#[trigger] markers[j]).kind == MarkerKind::Act ==> i == j
}

proof fn opening_one_act(markers: Seq<Marker>)
    ensures
        opens_one_act(markers) == one_act(markers),
{
    let p = |m: Marker| m.kind == MarkerKind::Act;
    kept_none(markers, p);
    kept_many(markers, p);
    if keep(markers, p).len() > 0 {
        let i = choose|i: int| 0 <= i < markers.len() && p(#[trigger] markers[i]);
        assert(markers[i].kind == MarkerKind::Act);
    }
    if keep(markers, p).len() > 1 {
        let (i, j) = choose|i: int, j: int|
            0 <= i < j < markers.len() && p(#[trigger] markers[i]) && p(#[trigger] markers[j]);
        assert(markers[i].kind == MarkerKind::Act && markers[j].kind == MarkerKind::Act);
    }
    if exists|i: int| 0 <= i < markers.len() && (#[trigger] markers[i]).kind == MarkerKind::Act {
        let i = choose|i: int|
            0 <= i < markers.len() && (#[trigger] markers[i]).kind == MarkerKind::Act;
        assert(p(markers[i]));
    }
    if !(forall|i: int, j: int|
        0 <= i < markers.len() && 0 <= j < markers.len() && (#[trigger] markers[i]).kind
            == MarkerKind::Act && (#[trigger] markers[j]).kind == MarkerKind::Act ==> i == j) {
        let (i, j) = choose|i: int, j: int|
            0 <= i < markers.len() && 0 <= j < markers.len() && (#[trigger] markers[i]).kind
                == MarkerKind::Act && (#[trigger] markers[j]).kind == MarkerKind::Act && i != j;
        assert(p(markers[i]) && p(markers[j]));
        if i < j {
            assert(p(markers[i]) && p(markers[j]));
        } else {
            assert(p(markers[j]) && p(markers[i]));
        }
    }
}

/// Whether a call stands outside every oracle.
pub open spec fn stands_alone(f: Facts, call: CallFactView) -> bool {
    forall|i: int|
        0 <= i < f.oracles.len() ==> call.span.start.precedes(
            (#[trigger] f.oracles[i]).span.start,
        ) || f.oracles[i].span.end.precedes(call.span.end)
}

/// Whether an oracle mentions a result or an effect of what the test calls.
pub open spec fn watches(f: Facts, oracle: OracleFactView) -> bool {
    exists|name: Seq<char>| #[trigger]
        mentions(oracle, name) && (f.act_outputs.contains(name) || f.act_effects.contains(name))
}

proof fn watching(f: Facts, oracle: OracleFactView)
    ensures
        watches(f, oracle) == !(oracle_names(oracle).disjoint(f.act_outputs) && oracle_names(
            oracle,
        ).disjoint(f.act_effects)),
{
    let names = oracle_names(oracle);
    if !names.disjoint(f.act_outputs) {
        let name = choose|name: Seq<char>| names.contains(name) && f.act_outputs.contains(name);
        assert(mentions(oracle, name));
    }
    if !names.disjoint(f.act_effects) {
        let name = choose|name: Seq<char>| names.contains(name) && f.act_effects.contains(name);
        assert(mentions(oracle, name));
    }
    if watches(f, oracle) {
        let name = choose|name: Seq<char>| #[trigger]
            mentions(oracle, name) && (f.act_outputs.contains(name) || f.act_effects.contains(
                name,
            ));
        assert(names.contains(name));
    }
}

/// Whether an oracle mentions one of some names.
pub open spec fn mentions_one_of(oracle: OracleFactView, names: Set<Seq<char>>) -> bool {
    exists|name: Seq<char>| #[trigger] mentions(oracle, name) && names.contains(name)
}

proof fn mentioning_one_of(oracle: OracleFactView, names: Set<Seq<char>>)
    ensures
        mentions_one_of(oracle, names) == !oracle_names(oracle).disjoint(names),
{
    let all = oracle_names(oracle);
    if !all.disjoint(names) {
        let name = choose|name: Seq<char>| all.contains(name) && names.contains(name);
        assert(mentions(oracle, name));
    }
    if mentions_one_of(oracle, names) {
        let name = choose|name: Seq<char>| #[trigger]
            mentions(oracle, name) && names.contains(name);
        assert(all.contains(name));
    }
}

/// Whether an oracle surely executes and checks more than calls of a mock.
pub open spec fn checks_an_outcome(oracle: OracleFactView) -> bool {
    !oracle.conditional && (oracle.kind == OracleKind::Outcome || oracle.kind
        == OracleKind::BroadError || oracle.kind == OracleKind::Execution)
}

/// Whether an outcome is checked after the Act without a look at what the Act gave.
pub open spec fn looks_past_the_act(f: Facts, oracle: OracleFactView) -> bool {
    checks_an_outcome(oracle) && oracle.section == Section::Assert && !watches(f, oracle)
}

/// Whether an oracle makes a call.
pub open spec fn makes_call(oracle: OracleFactView, call: Seq<char>) -> bool {
    oracle.actual_calls.contains(call) || oracle.expected_calls.contains(call)
}

proof fn looking_elsewhere(oracle: OracleFactView)
    ensures
        looks_elsewhere(oracle) <==> exists|call: Seq<char>| #[trigger]
            makes_call(oracle, call) && !local_observer(call),
{
    let all = oracle.actual_calls.union(oracle.expected_calls);
    if looks_elsewhere(oracle) {
        let call = choose|call: Seq<char>| #[trigger] all.contains(call) && !local_observer(call);
        assert(makes_call(oracle, call));
    }
    if exists|call: Seq<char>| #[trigger] makes_call(oracle, call) && !local_observer(call) {
        let call = choose|call: Seq<char>| #[trigger]
            makes_call(oracle, call) && !local_observer(call);
        assert(all.contains(call));
    }
}

proof fn code_of_concat(a: Seq<AnalysisGapView>, b: Seq<AnalysisGapView>, code: Seq<char>)
    ensures
        has_code(a + b, code) == (has_code(a, code) || has_code(b, code)),
{
    let all = a + b;
    if has_code(a, code) {
        let k = choose|k: int| 0 <= k < a.len() && (#[trigger] a[k]).code == code;
        assert(all[k] == a[k]);
    }
    if has_code(b, code) {
        let k = choose|k: int| 0 <= k < b.len() && (#[trigger] b[k]).code == code;
        assert(all[a.len() + k] == b[k]);
    }
    if has_code(all, code) {
        let k = choose|k: int| 0 <= k < all.len() && (#[trigger] all[k]).code == code;
        if k < a.len() {
            assert(a[k] == all[k]);
        } else {
            assert(b[k - a.len()] == all[k]);
        }
    }
}

proof fn code_of_flat(
    s: Seq<OracleFactView>,
    f: spec_fn(OracleFactView) -> Seq<AnalysisGapView>,
    code: Seq<char>,
)
    ensures
        has_code(flat(s, f), code) <==> exists|i: int|
            0 <= i < s.len() && has_code(f(#[trigger] s[i]), code),
    decreases s.len(),
{
    if s.len() > 0 {
        let rest = s.drop_last();
        code_of_flat(rest, f, code);
        code_of_concat(flat(rest, f), f(s.last()), code);
        assert forall|i: int| 0 <= i < rest.len() implies #[trigger] rest[i] == s[i] by {}
        if has_code(flat(rest, f), code) {
            let i = choose|i: int| 0 <= i < rest.len() && has_code(f(#[trigger] rest[i]), code);
            assert(has_code(f(s[i]), code));
        }
        if has_code(f(s.last()), code) {
            assert(has_code(f(s[s.len() - 1]), code));
        }
        if exists|i: int| 0 <= i < s.len() && has_code(f(#[trigger] s[i]), code) {
            let i = choose|i: int| 0 <= i < s.len() && has_code(f(#[trigger] s[i]), code);
            if i < rest.len() {
                assert(has_code(f(rest[i]), code));
            }
        }
    }
}

proof fn code_of_one(gaps: Seq<AnalysisGapView>, code: Seq<char>)
    requires
        gaps.len() <= 1,
    ensures
        has_code(gaps, code) == (gaps.len() == 1 && gaps[0].code == code),
{
}

proof fn codes_differ()
    ensures
        "analysis.ambiguous-markerless-causality"@.len() == 39,
        "analysis.ambiguous-markerless-phase"@.len() == 35,
        "analysis.ambiguous-act-causality"@.len() == 32,
        "analysis.unobserved-later-act-call"@.len() == 34,
        "analysis.unobserved-later-act-call"@[9] == 'u',
        "analysis.indirect-causality"@.len() == 27,
        "analysis.receiver-effect-causality"@.len() == 34,
        "analysis.receiver-effect-causality"@[9] == 'r',
        "analysis.shared-reference-effect-causality"@.len() == 42,
{
    reveal_strlit("analysis.ambiguous-markerless-causality");
    reveal_strlit("analysis.ambiguous-markerless-phase");
    reveal_strlit("analysis.ambiguous-act-causality");
    reveal_strlit("analysis.unobserved-later-act-call");
    reveal_strlit("analysis.indirect-causality");
    reveal_strlit("analysis.receiver-effect-causality");
    reveal_strlit("analysis.shared-reference-effect-causality");
}

proof fn parts_of_closing_gaps(c: ContextView, f: Facts, code: Seq<char>)
    ensures
        has_code(closing_gaps(c, f), code) == (has_code(markerless_causality_gaps(c, f), code)
            || has_code(markerless_phase_gaps(c, f), code) || has_code(
            act_causality_gaps(c, f),
            code,
        ) || has_code(later_act_gaps(c, f), code) || has_code(effect_gaps(c, f), code)),
{
    let a = markerless_causality_gaps(c, f);
    let b = markerless_phase_gaps(c, f);
    let d = act_causality_gaps(c, f);
    let e = later_act_gaps(c, f);
    code_of_concat(a, b, code);
    code_of_concat(a + b, d, code);
    code_of_concat(a + b + d, e, code);
    code_of_concat(a + b + d + e, effect_gaps(c, f), code);
}

proof fn parts_of_effect_gaps(c: ContextView, f: Facts, code: Seq<char>)
    ensures
        has_code(effect_gaps(c, f), code) <==> {
            ||| one_act(c.markers) && exists|i: int|
                0 <= i < f.oracles.len() && has_code(
                    indirect_gap(c, f, #[trigger] f.oracles[i]),
                    code,
                )
            ||| exists|i: int|
                0 <= i < f.oracles.len() && has_code(
                    receiver_gap(c, f, #[trigger] f.oracles[i]),
                    code,
                )
            ||| exists|i: int|
                0 <= i < f.oracles.len() && has_code(shared_gap(c, f, #[trigger] f.oracles[i]), code)
        },
{
    let p = |o: OracleFactView| indirect_gap(c, f, o);
    let q = |o: OracleFactView| receiver_gap(c, f, o);
    let r = |o: OracleFactView| shared_gap(c, f, o);
    let first = if one_act(c.markers) {
        flat(f.oracles, p)
    } else {
        seq![]
    };
    code_of_flat(f.oracles, p, code);
    code_of_flat(f.oracles, q, code);
    code_of_flat(f.oracles, r, code);
    code_of_concat(first, flat(f.oracles, q), code);
    code_of_concat(first + flat(f.oracles, q), flat(f.oracles, r), code);
    if exists|i: int| 0 <= i < f.oracles.len() && has_code(p(#[trigger] f.oracles[i]), code) {
        let i = choose|i: int| 0 <= i < f.oracles.len() && has_code(p(#[trigger] f.oracles[i]), code);
        assert(has_code(indirect_gap(c, f, f.oracles[i]), code));
    }
    if exists|i: int| 0 <= i < f.oracles.len() && has_code(q(#[trigger] f.oracles[i]), code) {
        let i = choose|i: int| 0 <= i < f.oracles.len() && has_code(q(#[trigger] f.oracles[i]), code);
        assert(has_code(receiver_gap(c, f, f.oracles[i]), code));
    }
    if exists|i: int| 0 <= i < f.oracles.len() && has_code(r(#[trigger] f.oracles[i]), code) {
        let i = choose|i: int| 0 <= i < f.oracles.len() && has_code(r(#[trigger] f.oracles[i]), code);
        assert(has_code(shared_gap(c, f, f.oracles[i]), code));
    }
    assert forall|i: int| 0 <= i < f.oracles.len() implies {
        &&& p(#[trigger] f.oracles[i]) == indirect_gap(c, f, f.oracles[i])
        &&& q(f.oracles[i]) == receiver_gap(c, f, f.oracles[i])
        &&& r(f.oracles[i]) == shared_gap(c, f, f.oracles[i])
    } by {}
}

/// It stays open how an assertion after the Act observes it where it looks past what the Act
/// gave and changed: through a receiver of the Act, through a reference that the Act shares,
/// or by calling something else.
pub proof fn indirect_observation_is_open(c: ContextView, f: Facts)
    ensures
        has_code(closing_gaps(c, f), "analysis.indirect-causality"@) <==> opens_one_act(c.markers)
            && exists|i: int|
            0 <= i < f.oracles.len() && looks_past_the_act(f, #[trigger] f.oracles[i])
                && !mentions_one_of(f.oracles[i], f.act_receivers) && !mentions_one_of(
                f.oracles[i],
                f.act_shared_references,
            ) && exists|call: Seq<char>| #[trigger]
                makes_call(f.oracles[i], call) && !local_observer(call),
        has_code(closing_gaps(c, f), "analysis.receiver-effect-causality"@) <==> exists|i: int|
            0 <= i < f.oracles.len() && looks_past_the_act(f, #[trigger] f.oracles[i])
                && mentions_one_of(f.oracles[i], f.act_receivers) && !mentions_one_of(
                f.oracles[i],
                f.act_shared_references,
            ),
        has_code(closing_gaps(c, f), "analysis.shared-reference-effect-causality"@) <==> exists|
            i: int,
        |
            0 <= i < f.oracles.len() && looks_past_the_act(f, #[trigger] f.oracles[i])
                && mentions_one_of(f.oracles[i], f.act_shared_references),
{
    codes_differ();
    opening_one_act(c.markers);
    let a = "analysis.indirect-causality"@;
    let b = "analysis.receiver-effect-causality"@;
    let d = "analysis.shared-reference-effect-causality"@;
    parts_of_closing_gaps(c, f, a);
    parts_of_closing_gaps(c, f, b);
    parts_of_closing_gaps(c, f, d);
    parts_of_effect_gaps(c, f, a);
    parts_of_effect_gaps(c, f, b);
    parts_of_effect_gaps(c, f, d);
    assert forall|i: int| 0 <= i < f.oracles.len() implies {
        &&& has_code(indirect_gap(c, f, #[trigger] f.oracles[i]), a) == (looks_past_the_act(
            f,
            f.oracles[i],
        ) && !mentions_one_of(f.oracles[i], f.act_receivers) && !mentions_one_of(
            f.oracles[i],
            f.act_shared_references,
        ) && exists|call: Seq<char>| #[trigger]
            makes_call(f.oracles[i], call) && !local_observer(call))
        &&& !has_code(indirect_gap(c, f, f.oracles[i]), b)
        &&& !has_code(indirect_gap(c, f, f.oracles[i]), d)
        &&& has_code(receiver_gap(c, f, f.oracles[i]), b) == (looks_past_the_act(f, f.oracles[i])
            && mentions_one_of(f.oracles[i], f.act_receivers) && !mentions_one_of(
            f.oracles[i],
            f.act_shared_references,
        ))
        &&& !has_code(receiver_gap(c, f, f.oracles[i]), a)
        &&& !has_code(receiver_gap(c, f, f.oracles[i]), d)
        &&& has_code(shared_gap(c, f, f.oracles[i]), d) == (looks_past_the_act(f, f.oracles[i])
            && mentions_one_of(f.oracles[i], f.act_shared_references))
        &&& !has_code(shared_gap(c, f, f.oracles[i]), a)
        &&& !has_code(shared_gap(c, f, f.oracles[i]), b)
    } by {
        let oracle = f.oracles[i];
        watching(f, oracle);
        looking_elsewhere(oracle);
        mentioning_one_of(oracle, f.act_receivers);
        mentioning_one_of(oracle, f.act_shared_references);
        code_of_one(indirect_gap(c, f, oracle), a);
        code_of_one(receiver_gap(c, f, oracle), b);
        code_of_one(shared_gap(c, f, oracle), d);
    }
    if has_code(effect_gaps(c, f), a) {
        let i = choose|i: int|
            0 <= i < f.oracles.len() && has_code(indirect_gap(c, f, #[trigger] f.oracles[i]), a);
        assert(looks_past_the_act(f, f.oracles[i]));
    }
    if has_code(effect_gaps(c, f), b) {
        let i = choose|i: int|
            0 <= i < f.oracles.len() && has_code(receiver_gap(c, f, #[trigger] f.oracles[i]), b);
        assert(looks_past_the_act(f, f.oracles[i]));
    }
    if has_code(effect_gaps(c, f), d) {
        let i = choose|i: int|
            0 <= i < f.oracles.len() && has_code(shared_gap(c, f, #[trigger] f.oracles[i]), d);
        assert(looks_past_the_act(f, f.oracles[i]));
    }
    if exists|i: int|
        0 <= i < f.oracles.len() && looks_past_the_act(f, #[trigger] f.oracles[i])
            && mentions_one_of(f.oracles[i], f.act_shared_references) {
        let i = choose|i: int|
            0 <= i < f.oracles.len() && looks_past_the_act(f, #[trigger] f.oracles[i])
                && mentions_one_of(f.oracles[i], f.act_shared_references);
        assert(has_code(shared_gap(c, f, f.oracles[i]), d));
    }
    if exists|i: int|
        0 <= i < f.oracles.len() && looks_past_the_act(f, #[trigger] f.oracles[i])
            && mentions_one_of(f.oracles[i], f.act_receivers) && !mentions_one_of(
            f.oracles[i],
            f.act_shared_references,
        ) {
        let i = choose|i: int|
            0 <= i < f.oracles.len() && looks_past_the_act(f, #[trigger] f.oracles[i])
                && mentions_one_of(f.oracles[i], f.act_receivers) && !mentions_one_of(
                f.oracles[i],
                f.act_shared_references,
            );
        assert(has_code(receiver_gap(c, f, f.oracles[i]), b));
    }
}

/// Whether a call, outside every oracle, starts after some oracles have all ended.
pub open spec fn follows_all(
    f: Facts,
    call: CallFactView,
    some: spec_fn(OracleFactView) -> bool,
) -> bool {
    &&& stands_alone(f, call)
    &&& forall|i: int|
        0 <= i < f.oracles.len() && some(#[trigger] f.oracles[i])
            ==> f.oracles[i].span.end.precedes(call.span.start)
}

proof fn end_of_all(oracles: Seq<OracleFactView>, place: Position)
    ensures
        last_end(oracles) is Some <==> oracles.len() > 0,
        oracles.len() > 0 ==> (last_end(oracles)->0.precedes(place) <==> forall|i: int|
            0 <= i < oracles.len() ==> (#[trigger] oracles[i]).span.end.precedes(place)),
    decreases oracles.len(),
{
    if oracles.len() > 0 {
        let rest = oracles.drop_last();
        end_of_all(rest, place);
        assert forall|i: int| 0 <= i < rest.len() implies #[trigger] rest[i] == oracles[i] by {}
        if oracles.len() > 1 && last_end(oracles)->0.precedes(place) {
            assert(last_end(rest)->0.precedes(place));
            assert forall|i: int| 0 <= i < oracles.len() implies (
            #[trigger] oracles[i]).span.end.precedes(place) by {
                if i < rest.len() {
                    assert(rest[i].span.end.precedes(place));
                }
            }
        }
    }
}

proof fn standing_alone(f: Facts, call: CallFactView)
    ensures
        stands_alone(f, call) == !within_oracle(f.oracles, call),
{
    if !stands_alone(f, call) {
        let i = choose|i: int|
            0 <= i < f.oracles.len() && !(call.span.start.precedes(
                (#[trigger] f.oracles[i]).span.start,
            ) || f.oracles[i].span.end.precedes(call.span.end));
        assert(f.oracles[i].span.encloses(call.span));
    }
}

/// A test without markers leaves open what causes its outcomes where it calls something
/// outside its oracles and none of its outcomes looks at what it calls.
pub proof fn markerless_causes_are_open(c: ContextView, f: Facts)
    ensures
        has_code(closing_gaps(c, f), "analysis.ambiguous-markerless-causality"@) <==> {
            &&& c.markers.len() == 0
            &&& exists|i: int|
                0 <= i < f.oracles.len() && checks_an_outcome(#[trigger] f.oracles[i])
            &&& exists|k: int| 0 <= k < f.calls.len() && stands_alone(f, #[trigger] f.calls[k])
            &&& forall|i: int|
                0 <= i < f.oracles.len() && checks_an_outcome(#[trigger] f.oracles[i]) ==> !watches(
                    f,
                    f.oracles[i],
                )
        },
{
    codes_differ();
    let code = "analysis.ambiguous-markerless-causality"@;
    parts_of_closing_gaps(c, f, code);
    parts_of_effect_gaps(c, f, code);
    code_of_one(markerless_causality_gaps(c, f), code);
    let p = |o: OracleFactView| outcome(o);
    let q = |call: CallFactView| !within_oracle(f.oracles, call);
    let r = |o: OracleFactView|
        oracle_names(o).disjoint(f.act_outputs) && oracle_names(o).disjoint(f.act_effects);
    let outcomes = keep(f.oracles, p);
    kept_none(f.oracles, p);
    assert forall|i: int| 0 <= i < f.oracles.len() implies {
        &&& p(#[trigger] f.oracles[i]) == checks_an_outcome(f.oracles[i])
        &&& r(f.oracles[i]) == !watches(f, f.oracles[i])
    } by {
        watching(f, f.oracles[i]);
    }
    assert forall|k: int| 0 <= k < f.calls.len() implies q(#[trigger] f.calls[k]) == stands_alone(
        f,
        f.calls[k],
    ) by {
        standing_alone(f, f.calls[k]);
    }
    if outcomes.len() > 0 {
        let i = choose|i: int| 0 <= i < f.oracles.len() && p(#[trigger] f.oracles[i]);
        assert(checks_an_outcome(f.oracles[i]));
    }
    if any(f.calls, q) {
        let k = choose|k: int| 0 <= k < f.calls.len() && q(#[trigger] f.calls[k]);
        assert(stands_alone(f, f.calls[k]));
    }
    if exists|k: int| 0 <= k < f.calls.len() && stands_alone(f, #[trigger] f.calls[k]) {
        let k = choose|k: int| 0 <= k < f.calls.len() && stands_alone(f, #[trigger] f.calls[k]);
        assert(q(f.calls[k]));
    }
    if every(outcomes, r) {
        assert forall|i: int|
            0 <= i < f.oracles.len() && checks_an_outcome(#[trigger] f.oracles[i]) implies !watches(
            f,
            f.oracles[i],
        ) by {
            assert(f.oracles.contains(f.oracles[i]));
            in_keep(f.oracles, p, f.oracles[i]);
            let k = outcomes.index_of(f.oracles[i]);
            assert(r(outcomes[k]));
        }
    } else {
        let k = choose|k: int| 0 <= k < outcomes.len() && !r(#[trigger] outcomes[k]);
        assert(outcomes.contains(outcomes[k]));
        in_keep(f.oracles, p, outcomes[k]);
        let i = f.oracles.index_of(outcomes[k]);
        assert(f.oracles[i] == outcomes[k]);
        assert(checks_an_outcome(f.oracles[i]));
    }
}

/// A test without markers leaves open whether a call is an unobserved Act where all its
/// oracles only make sure that something executes and the call follows them all.
pub proof fn markerless_phases_are_open(c: ContextView, f: Facts)
    ensures
        has_code(closing_gaps(c, f), "analysis.ambiguous-markerless-phase"@) <==> {
            &&& c.markers.len() == 0
            &&& f.oracles.len() > 0
            &&& forall|i: int|
                0 <= i < f.oracles.len() ==> (#[trigger] f.oracles[i]).kind == OracleKind::Execution
            &&& exists|k: int|
                0 <= k < f.calls.len() && follows_all(
                    f,
                    #[trigger] f.calls[k],
                    |o: OracleFactView| true,
                )
        },
{
    codes_differ();
    let code = "analysis.ambiguous-markerless-phase"@;
    parts_of_closing_gaps(c, f, code);
    parts_of_effect_gaps(c, f, code);
    code_of_one(markerless_phase_gaps(c, f), code);
    let all = |o: OracleFactView| true;
    let only = |o: OracleFactView| o.kind == OracleKind::Execution;
    assert(every(f.oracles, only) <==> forall|i: int|
        0 <= i < f.oracles.len() ==> (#[trigger] f.oracles[i]).kind == OracleKind::Execution) by {
        if every(f.oracles, only) {
            assert forall|i: int| 0 <= i < f.oracles.len() implies (#[trigger] f.oracles[i]).kind
                == OracleKind::Execution by {
                assert(only(f.oracles[i]));
            }
        }
    }
    if f.oracles.len() > 0 {
        let start = Position { line: 0, column: 0 };
        end_of_all(f.oracles, start);
        let end = last_end(f.oracles)->0;
        let p = |call: CallFactView|
            (None::<Section> is None || call.section == None::<Section>->0) && end.precedes(
                call.span.start,
            ) && !within_oracle(f.oracles, call);
        first_exists(f.calls, p);
        assert forall|k: int| 0 <= k < f.calls.len() implies p(#[trigger] f.calls[k])
            == follows_all(f, f.calls[k], all) by {
            end_of_all(f.oracles, f.calls[k].span.start);
            standing_alone(f, f.calls[k]);
            if follows_all(f, f.calls[k], all) {
                assert forall|i: int| 0 <= i < f.oracles.len() implies (
                #[trigger] f.oracles[i]).span.end.precedes(f.calls[k].span.start) by {
                    assert(all(f.oracles[i]));
                }
            }
        }
        assert(unobserved_after(f, end, None) == crate::seqs::first_where(f.calls, p));
        if exists|k: int| 0 <= k < f.calls.len() && p(#[trigger] f.calls[k]) {
            let k = choose|k: int| 0 <= k < f.calls.len() && p(#[trigger] f.calls[k]);
            assert(follows_all(f, f.calls[k], all));
        }
        if exists|k: int| 0 <= k < f.calls.len() && follows_all(f, #[trigger] f.calls[k], all) {
            let k = choose|k: int|
                0 <= k < f.calls.len() && follows_all(f, #[trigger] f.calls[k], all);
            assert(p(f.calls[k]));
        }
    }
}

/// Whether an oracle checks an outcome within the Act.
pub open spec fn checks_within_the_act(oracle: OracleFactView) -> bool {
    checks_an_outcome(oracle) && oracle.section == Section::Act
}

/// A test that checks outcomes only within its Act leaves open whether a later call of the
/// Act is observed.
pub proof fn calls_after_the_last_check_are_open(c: ContextView, f: Facts)
    ensures
        has_code(closing_gaps(c, f), "analysis.ambiguous-act-causality"@) <==> {
            &&& opens_one_act(c.markers)
            &&& forall|i: int|
                0 <= i < f.oracles.len() && checks_an_outcome(#[trigger] f.oracles[i])
                    ==> f.oracles[i].section != Section::Assert
            &&& exists|i: int|
                0 <= i < f.oracles.len() && checks_within_the_act(#[trigger] f.oracles[i])
            &&& exists|k: int|
                0 <= k < f.calls.len() && (#[trigger] f.calls[k]).section == Section::Act
                    && follows_all(f, f.calls[k], |o: OracleFactView| checks_within_the_act(o))
        },
{
    codes_differ();
    opening_one_act(c.markers);
    let code = "analysis.ambiguous-act-causality"@;
    parts_of_closing_gaps(c, f, code);
    parts_of_effect_gaps(c, f, code);
    code_of_one(act_causality_gaps(c, f), code);
    let within = |o: OracleFactView| checks_within_the_act(o);
    let a = |o: OracleFactView| outcome(o) && o.section == Section::Assert;
    let b = |o: OracleFactView| outcome(o) && o.section == Section::Act;
    assert(any(f.oracles, a) <==> !(forall|i: int|
        0 <= i < f.oracles.len() && checks_an_outcome(#[trigger] f.oracles[i])
            ==> f.oracles[i].section != Section::Assert)) by {
        if any(f.oracles, a) {
            let i = choose|i: int| 0 <= i < f.oracles.len() && a(#[trigger] f.oracles[i]);
            assert(checks_an_outcome(f.oracles[i]));
        } else {
            assert forall|i: int|
                0 <= i < f.oracles.len() && checks_an_outcome(
                    #[trigger] f.oracles[i],
                ) implies f.oracles[i].section != Section::Assert by {
                assert(!a(f.oracles[i]));
            }
        }
    }
    let some = keep(f.oracles, b);
    kept_none(f.oracles, b);
    assert(some.len() > 0 <==> exists|i: int|
        0 <= i < f.oracles.len() && checks_within_the_act(#[trigger] f.oracles[i])) by {
        if some.len() > 0 {
            let i = choose|i: int| 0 <= i < f.oracles.len() && b(#[trigger] f.oracles[i]);
            assert(checks_within_the_act(f.oracles[i]));
        }
        if exists|i: int|
            0 <= i < f.oracles.len() && checks_within_the_act(#[trigger] f.oracles[i]) {
            let i = choose|i: int|
                0 <= i < f.oracles.len() && checks_within_the_act(#[trigger] f.oracles[i]);
            assert(b(f.oracles[i]));
        }
    }
    end_of_all(some, Position { line: 0, column: 0 });
    if some.len() > 0 {
        let end = last_end(some)->0;
        let p = |call: CallFactView|
            (Some(Section::Act) is None || call.section == Some(Section::Act)->0) && end.precedes(
                call.span.start,
            ) && !within_oracle(f.oracles, call);
        first_exists(f.calls, p);
        assert forall|k: int| 0 <= k < f.calls.len() implies p(#[trigger] f.calls[k]) == (
        f.calls[k].section == Section::Act && follows_all(f, f.calls[k], within)) by {
            end_of_all(some, f.calls[k].span.start);
            standing_alone(f, f.calls[k]);
            ends_of_kept(f.oracles, b, f.calls[k].span.start);
            assert forall|i: int| 0 <= i < f.oracles.len() implies b(#[trigger] f.oracles[i])
                == within(f.oracles[i]) by {}
        }
        assert(unobserved_after(f, end, Some(Section::Act)) == crate::seqs::first_where(f.calls, p));
        if exists|k: int| 0 <= k < f.calls.len() && p(#[trigger] f.calls[k]) {
            let k = choose|k: int| 0 <= k < f.calls.len() && p(#[trigger] f.calls[k]);
            assert(follows_all(f, f.calls[k], within));
        }
        if exists|k: int|
            0 <= k < f.calls.len() && (#[trigger] f.calls[k]).section == Section::Act
                && follows_all(f, f.calls[k], within) {
            let k = choose|k: int|
                0 <= k < f.calls.len() && (#[trigger] f.calls[k]).section == Section::Act
                    && follows_all(f, f.calls[k], within);
            assert(p(f.calls[k]));
        }
    }
}

proof fn ends_of_kept(
    oracles: Seq<OracleFactView>,
    b: spec_fn(OracleFactView) -> bool,
    place: Position,
)
    ensures
        (forall|i: int|
            0 <= i < keep(oracles, b).len() ==> (
            #[trigger] keep(oracles, b)[i]).span.end.precedes(place)) <==> (forall|i: int|
            0 <= i < oracles.len() && b(#[trigger] oracles[i])
                ==> oracles[i].span.end.precedes(place)),
{
    let some = keep(oracles, b);
    if forall|i: int| 0 <= i < some.len() ==> (#[trigger] some[i]).span.end.precedes(place) {
        assert forall|i: int| 0 <= i < oracles.len() && b(#[trigger] oracles[i]) implies oracles[i]
            .span.end.precedes(place) by {
            assert(oracles.contains(oracles[i]));
            in_keep(oracles, b, oracles[i]);
            let k = some.index_of(oracles[i]);
            assert(some[k].span.end.precedes(place));
        }
    }
    if forall|i: int|
        0 <= i < oracles.len() && b(#[trigger] oracles[i])
            ==> oracles[i].span.end.precedes(place) {
        assert forall|i: int| 0 <= i < some.len() implies (#[trigger] some[i]).span.end.precedes(
            place,
        ) by {
            assert(some.contains(some[i]));
            in_keep(oracles, b, some[i]);
            let k = oracles.index_of(some[i]);
            assert(b(oracles[k]));
        }
    }
}

/// Whether a name is a result of the Act that some assertion mentions.
pub open spec fn is_observed(f: Facts, name: Seq<char>) -> bool {
    f.act_outputs.contains(name) && exists|i: int|
        0 <= i < f.oracles.len() && checks_an_outcome(#[trigger] f.oracles[i])
            && f.oracles[i].section == Section::Assert && mentions(f.oracles[i], name)
}

/// Whether a call of the Act, outside every oracle, neither is made on nor takes an observed
/// result, and starts after all of them are there.
pub open spec fn is_later_and_unobserved(f: Facts, call: CallFactView) -> bool {
    &&& call.section == Section::Act
    &&& stands_alone(f, call)
    &&& forall|name: Seq<char>| #[trigger]
        is_observed(f, name) ==> !call.receiver_identifiers.contains(name)
            && !call.argument_identifiers.contains(name)
    &&& forall|name: Seq<char>| #[trigger]
        is_observed(f, name) && f.act_output_spans.contains_key(name)
            ==> f.act_output_spans[name].end.precedes(call.span.start)
}

proof fn observing(f: Facts, name: Seq<char>)
    ensures
        observed_outputs(f).contains(name) == is_observed(f, name),
{
    if observed_outputs(f).contains(name) {
        let i = choose|i: int|
            0 <= i < f.oracles.len() && outcome(#[trigger] f.oracles[i]) && f.oracles[i].section
                == Section::Assert && oracle_names(f.oracles[i]).contains(name);
        assert(checks_an_outcome(f.oracles[i]) && mentions(f.oracles[i], name));
    }
    if is_observed(f, name) {
        let i = choose|i: int|
            0 <= i < f.oracles.len() && checks_an_outcome(#[trigger] f.oracles[i])
                && f.oracles[i].section == Section::Assert && mentions(f.oracles[i], name);
        assert(outcome(f.oracles[i]) && oracle_names(f.oracles[i]).contains(name));
    }
}

/// A call of the Act that follows all observed results of it and has no part in them is told
/// of, and nothing else is.
pub proof fn later_calls_are_told_of(c: ContextView, f: Facts)
    requires
        f.act_output_spans.dom().finite(),
    ensures
        has_code(closing_gaps(c, f), "analysis.unobserved-later-act-call"@) <==> {
            &&& opens_one_act(c.markers)
            &&& exists|name: Seq<char>| #[trigger]
                is_observed(f, name) && f.act_output_spans.contains_key(name)
            &&& exists|k: int|
                0 <= k < f.calls.len() && is_later_and_unobserved(f, #[trigger] f.calls[k])
        },
{
    codes_differ();
    opening_one_act(c.markers);
    let code = "analysis.unobserved-later-act-call"@;
    parts_of_closing_gaps(c, f, code);
    parts_of_effect_gaps(c, f, code);
    code_of_one(later_act_gaps(c, f), code);
    let observed = observed_outputs(f);
    let spans = f.act_output_spans;
    assert forall|name: Seq<char>| #[trigger] observed.contains(name) == is_observed(f, name) by {
        observing(f, name);
    }
    let known = spans.dom().intersect(observed);
    if exists|name: Seq<char>| #[trigger] is_observed(f, name) && spans.contains_key(name) {
        let name = choose|name: Seq<char>| #[trigger]
            is_observed(f, name) && spans.contains_key(name);
        assert(observed.contains(name));
        assert(known.contains(name));
        some_end_is_last(spans, observed, known);
    }
    if last_producer(spans, observed) is Some {
        let end = last_producer(spans, observed)->0;
        assert(is_last_end(spans, observed, end));
        let x = choose|x: Seq<char>|
            observed.contains(x) && #[trigger] spans.contains_key(x) && spans[x].end == end;
        assert(is_observed(f, x) && spans.contains_key(x));
        let p = |call: CallFactView|
            call.section == Section::Act && end.precedes(call.span.start)
                && call.receiver_identifiers.disjoint(observed)
                && call.argument_identifiers.disjoint(observed) && !within_oracle(f.oracles, call);
        first_exists(f.calls, p);
        assert forall|k: int| 0 <= k < f.calls.len() implies p(#[trigger] f.calls[k])
            == is_later_and_unobserved(f, f.calls[k]) by {
            let call = f.calls[k];
            standing_alone(f, call);
            if p(call) {
                assert forall|name: Seq<char>| #[trigger]
                    is_observed(f, name) implies !call.receiver_identifiers.contains(name)
                    && !call.argument_identifiers.contains(name) by {
                    assert(observed.contains(name));
                }
                assert forall|name: Seq<char>| #[trigger]
                    is_observed(f, name) && spans.contains_key(
                        name,
                    ) implies spans[name].end.precedes(call.span.start) by {
                    assert(observed.contains(name));
                    assert(!end.precedes(spans[name].end));
                }
            }
            if is_later_and_unobserved(f, call) {
                assert(spans[x].end.precedes(call.span.start));
                assert(call.receiver_identifiers.disjoint(observed)) by {
                    assert forall|name: Seq<char>| !(call.receiver_identifiers.contains(name)
                        && #[trigger] observed.contains(name)) by {
                        observing(f, name);
                    }
                }
                assert(call.argument_identifiers.disjoint(observed)) by {
                    assert forall|name: Seq<char>| !(call.argument_identifiers.contains(name)
                        && #[trigger] observed.contains(name)) by {
                        observing(f, name);
                    }
                }
            }
        }
        if exists|k: int| 0 <= k < f.calls.len() && p(#[trigger] f.calls[k]) {
            let k = choose|k: int| 0 <= k < f.calls.len() && p(#[trigger] f.calls[k]);
            assert(is_later_and_unobserved(f, f.calls[k]));
        }
        if exists|k: int| 0 <= k < f.calls.len() && is_later_and_unobserved(f, #[trigger] f.calls[k]) {
            let k = choose|k: int|
                0 <= k < f.calls.len() && is_later_and_unobserved(f, #[trigger] f.calls[k]);
            assert(p(f.calls[k]));
        }
    }
}

proof fn some_end_is_last(
    spans: Map<Seq<char>, super::model::SourceSpan>,
    names: Set<Seq<char>>,
    known: Set<Seq<char>>,
)
    requires
        known.finite(),
        exists|x: Seq<char>| known.contains(x),
        forall|x: Seq<char>| #[trigger]
            known.contains(x) <==> names.contains(x) && spans.contains_key(x),
    ensures
        exists|place: Position| is_last_end(spans, names, place),
{
    let x = last_of(spans, known);
    assert(known.contains(x));
    assert forall|y: Seq<char>|
        names.contains(y) && #[trigger] spans.contains_key(y) implies !spans[x].end.precedes(
        spans[y].end,
    ) by {
        assert(known.contains(y));
    }
    assert(is_last_end(spans, names, spans[x].end));
}

proof fn last_of(
    spans: Map<Seq<char>, super::model::SourceSpan>,
    known: Set<Seq<char>>,
) -> (x: Seq<char>)
    requires
        known.finite(),
        exists|x: Seq<char>| known.contains(x),
    ensures
        known.contains(x),
        forall|y: Seq<char>| #[trigger]
            known.contains(y) ==> !spans[x].end.precedes(spans[y].end),
    decreases known.len(),
{
    let a = known.choose();
    let w = choose|x: Seq<char>| known.contains(x);
    assert(known.contains(a));
    let rest = known.remove(a);
    if exists|x: Seq<char>| rest.contains(x) {
        let b = last_of(spans, rest);
        if spans[b].end.precedes(spans[a].end) {
            assert forall|y: Seq<char>| #[trigger] known.contains(y) implies !spans[a].end.precedes(
                spans[y].end,
            ) by {
                if y != a {
                    assert(rest.contains(y));
                }
            }
            a
        } else {
            assert forall|y: Seq<char>| #[trigger] known.contains(y) implies !spans[b].end.precedes(
                spans[y].end,
            ) by {
                if y != a {
                    assert(rest.contains(y));
                }
            }
            b
        }
    } else {
        assert forall|y: Seq<char>| #[trigger] known.contains(y) implies !spans[a].end.precedes(
            spans[y].end,
        ) by {
            assert(!rest.contains(y));
        }
        a
    }
}

} // verus!
