//! Finds the tests of a Rust source file and analyses each of them.

use vstd::prelude::*;

use super::aliases::{
    collect_item_use_aliases, collect_use_tree, item_aliases, resolve_alias,
    resolve_parent_aliases, resolved, with_imports, with_parent, Aliases,
};
use super::config::{configured_matches, TestPolicyConfig, TestPolicyView};
use super::facts::{
    bound_by_all, identifiers_from_pattern, is_local_observer, local_observer, path_name,
    path_name_of,
};
use super::markers::{find_markers, markers_in};
use super::model::{
    after, AnalysisGap, AnalysisGapView, CallFact, CallFactView, Marker, MarkerKind, OracleFact,
    OracleFactView, OracleKind, Position, Section, SourceSpan, TestCase, TestCaseView,
    TestIdentity, TestIdentityView,
};
use super::parse::{parse_items, parsed};
use super::rules::{oracle_identifiers, oracle_names};
use super::syntax::{Kind, Node, Tree};
use super::visitor::{no_facts_yet, visited, Context, ContextView, FactVisitor, Facts};
use crate::copies::{copy_option, copy_texts, option_view, Copied};
use crate::names::{NameMap, Names};
use crate::seqs::{
    any, every, first_where, first_where_at, first_where_none, flat, keep, take_all, take_step,
    views,
};
use crate::text::{join, joined, lines, lines_of, same};

verus! {

broadcast use {
    vstd::std_specs::vec::group_vec_axioms,
    crate::seqs::group_views,
    crate::validate_tests::syntax::Node::tree_parts,
};

/// Whether an oracle always executes and looks at more than calls of a mock.
pub open spec fn outcome(o: OracleFactView) -> bool {
    !o.conditional && o.kind != OracleKind::Interaction
}

fn is_outcome(o: &OracleFact) -> (r: bool)
    ensures
        r == outcome(o@),
{
    !o.conditional && o.kind != OracleKind::Interaction
}

/// Whether a call is part of an oracle.
pub open spec fn within_oracle(oracles: Seq<OracleFactView>, call: CallFactView) -> bool {
    exists|i: int| 0 <= i < oracles.len() && (#[trigger] oracles[i]).span.encloses(call.span)
}

fn is_within_oracle(oracles: &Vec<OracleFact>, call: &CallFact) -> (r: bool)
    ensures
        r == within_oracle(views(oracles@), call@),
{
    let mut i: usize = 0;
    while i < oracles.len()
        invariant
            i <= oracles@.len(),
            forall|j: int|
                0 <= j < i ==> !(#[trigger] views(oracles@)[j]).span.encloses(call.span),
        decreases oracles@.len() - i,
    {
        if oracles[i].span.contains(&call.span) {
            assert(views(oracles@)[i as int].span.encloses(call.span));
            return true;
        }
        i += 1;
    }
    false
}

/// Whether the test has exactly one Act marker.
pub open spec fn one_act(markers: Seq<Marker>) -> bool {
    keep(markers, |m: Marker| m.kind == MarkerKind::Act).len() == 1
}

fn has_one_act(markers: &Vec<Marker>) -> (r: bool)
    ensures
        r == one_act(markers@),
{
    let ghost p = |m: Marker| m.kind == MarkerKind::Act;
    let mut count: usize = 0;
    let mut i: usize = 0;
    while i < markers.len()
        invariant
            p == (|m: Marker| m.kind == MarkerKind::Act),
            i <= markers@.len(),
            count <= i,
            count == keep(markers@.take(i as int), p).len(),
        decreases markers@.len() - i,
    {
        proof {
            take_step(markers@, i as int);
        }
        if markers[i].kind == MarkerKind::Act {
            count += 1;
        }
        i += 1;
    }
    proof {
        take_all(markers@);
    }
    count == 1
}

/// The later of a place and a place that may be missing.
pub open spec fn later(found: Option<Position>, next: Position) -> Option<Position> {
    match found {
        Some(best) => if next.precedes(best) {
            Some(best)
        } else {
            Some(next)
        },
        None => Some(next),
    }
}

fn later_of(found: Option<Position>, next: Position) -> (r: Option<Position>)
    ensures
        r == later(found, next),
{
    match found {
        Some(best) => if next.is_before(&best) {
            Some(best)
        } else {
            Some(next)
        },
        None => Some(next),
    }
}

/// The last place at which one of the oracles ends.
pub open spec fn last_end(oracles: Seq<OracleFactView>) -> Option<Position>
    decreases oracles.len(),
{
    if oracles.len() == 0 {
        None
    } else {
        later(last_end(oracles.drop_last()), oracles.last().span.end)
    }
}

/// The gap of a test without markers whose oracles observe nothing that it called.
pub open spec fn markerless_causality_gaps(c: ContextView, f: Facts) -> Seq<AnalysisGapView> {
    let outcomes = keep(f.oracles, |o: OracleFactView| outcome(o));
    if c.markers.len() == 0 && outcomes.len() > 0 && any(
        f.calls,
        |call: CallFactView| !within_oracle(f.oracles, call),
    ) && every(
        outcomes,
        |o: OracleFactView|
            oracle_names(o).disjoint(f.act_outputs) && oracle_names(o).disjoint(f.act_effects),
    ) {
        seq![
            c.gap(
                "analysis.ambiguous-markerless-causality"@,
                "resolved oracle does not observe any inferred production output, but the test has no explicit Act boundary"@,
                outcomes[0].span,
                "markerless disconnected oracle"@,
            ),
        ]
    } else {
        seq![]
    }
}

fn outcomes_of(oracles: &Vec<OracleFact>) -> (r: Vec<&OracleFact>)
    ensures
        views(r@) == keep(views(oracles@), |o: OracleFactView| outcome(o)),
{
    let ghost p = |o: OracleFactView| outcome(o);
    let ghost all = views(oracles@);
    let mut out: Vec<&OracleFact> = Vec::new();
    let mut i: usize = 0;
    while i < oracles.len()
        invariant
            p == (|o: OracleFactView| outcome(o)),
            all == views(oracles@),
            i <= oracles@.len(),
            views(out@) == keep(all.take(i as int), p),
        decreases oracles@.len() - i,
    {
        proof {
            take_step(all, i as int);
        }
        if is_outcome(&oracles[i]) {
            out.push(&oracles[i]);
        }
        i += 1;
    }
    proof {
        take_all(all);
    }
    out
}

fn has_unobserved_call(v: &FactVisitor) -> (r: bool)
    ensures
        r == any(v@.calls, |call: CallFactView| !within_oracle(v@.oracles, call)),
{
    let mut i: usize = 0;
    while i < v.calls.len()
        invariant
            i <= v.calls@.len(),
            forall|j: int| 0 <= j < i ==> within_oracle(v@.oracles, #[trigger] v@.calls[j]),
        decreases v.calls@.len() - i,
    {
        if !is_within_oracle(&v.oracles, &v.calls[i]) {
            assert(!within_oracle(v@.oracles, v@.calls[i as int]));
            return true;
        }
        i += 1;
    }
    false
}

fn note_markerless_causality(c: &Context, v: &FactVisitor, gaps: &mut Vec<AnalysisGap>)
    ensures
        views(final(gaps)@) == views(old(gaps)@) + markerless_causality_gaps(c@, v@),
{
    let ghost p = |o: OracleFactView|
        oracle_names(o).disjoint(v@.act_outputs) && oracle_names(o).disjoint(v@.act_effects);
    let outcomes = outcomes_of(&v.oracles);
    let ghost all = views(outcomes@);
    let mut apart = c.markers.len() == 0 && outcomes.len() > 0 && has_unobserved_call(v);
    let mut i: usize = 0;
    let ghost start = apart;
    while i < outcomes.len()
        invariant
            p == (|o: OracleFactView|
                oracle_names(o).disjoint(v@.act_outputs) && oracle_names(o).disjoint(
                    v@.act_effects,
                )),
            all == views(outcomes@),
            i <= outcomes@.len(),
            apart == (start && forall|j: int| 0 <= j < i ==> p(#[trigger] all[j])),
        decreases outcomes@.len() - i,
    {
        let names = oracle_identifiers(outcomes[i]);
        if !(names.is_disjoint(&v.act_outputs) && names.is_disjoint(&v.act_effects)) {
            assert(!p(all[i as int]));
            apart = false;
        }
        i += 1;
    }
    if apart {
        gaps.push(
            c.gap(
                "analysis.ambiguous-markerless-causality",
                "resolved oracle does not observe any inferred production output, but the test has no explicit Act boundary",
                outcomes[0].span,
                "markerless disconnected oracle",
            ),
        );
    }
    assert(views(gaps@) =~= views(old(gaps)@) + markerless_causality_gaps(c@, v@));
}

/// The first call after a place, of a section if one is given, that no oracle holds.
pub open spec fn unobserved_after(
    f: Facts,
    place: Position,
    section: Option<Section>,
) -> Option<CallFactView> {
    first_where(
        f.calls,
        |call: CallFactView|
            (section is None || call.section == section->0) && place.precedes(call.span.start)
                && !within_oracle(f.oracles, call),
    )
}

fn find_unobserved_after(v: &FactVisitor, place: Position, section: Option<Section>) -> (r: Option<
    &CallFact,
>)
    ensures
        option_view(r) == unobserved_after(v@, place, section),
{
    let ghost p = |call: CallFactView|
        (section is None || call.section == section->0) && place.precedes(call.span.start)
            && !within_oracle(v@.oracles, call);
    let mut i: usize = 0;
    while i < v.calls.len()
        invariant
            p == (|call: CallFactView|
                (section is None || call.section == section->0) && place.precedes(call.span.start)
                    && !within_oracle(v@.oracles, call)),
            i <= v.calls@.len(),
            forall|j: int| 0 <= j < i ==> !p(#[trigger] v@.calls[j]),
        decreases v.calls@.len() - i,
    {
        let call = &v.calls[i];
        let fits = match section {
            Some(section) => call.section == section,
            None => true,
        };
        if fits && place.is_before(&call.span.start) && !is_within_oracle(&v.oracles, call) {
            proof {
                first_where_at(v@.calls, p, i as int);
            }
            return Some(call);
        }
        i += 1;
    }
    proof {
        first_where_none(v@.calls, p);
    }
    None
}

/// The gap of a test without markers that calls something after its last check.
pub open spec fn markerless_phase_gaps(c: ContextView, f: Facts) -> Seq<AnalysisGapView> {
    if c.markers.len() == 0 && f.oracles.len() > 0 && every(
        f.oracles,
        |o: OracleFactView| o.kind == OracleKind::Execution,
    ) {
        match last_end(f.oracles) {
            Some(end) => match unobserved_after(f, end, None) {
                Some(call) => seq![
                    c.gap(
                        "analysis.ambiguous-markerless-phase"@,
                        "cannot prove whether call `"@ + call.qualified_name
                            + "` after the last execution check is an unobserved Act"@,
                        call.span,
                        "possible unobserved Act"@,
                    ),
                ],
                None => seq![],
            },
            None => seq![],
        }
    } else {
        seq![]
    }
}

fn note_markerless_phase(c: &Context, v: &FactVisitor, gaps: &mut Vec<AnalysisGap>)
    ensures
        views(final(gaps)@) == views(old(gaps)@) + markerless_phase_gaps(c@, v@),
{
    let ghost p = |o: OracleFactView| o.kind == OracleKind::Execution;
    let ghost all = v@.oracles;
    let mut only = c.markers.len() == 0 && v.oracles.len() > 0;
    let ghost start = only;
    let mut end: Option<Position> = None;
    let mut i: usize = 0;
    while i < v.oracles.len()
        invariant
            p == (|o: OracleFactView| o.kind == OracleKind::Execution),
            all == views(v.oracles@),
            i <= v.oracles@.len(),
            end == last_end(all.take(i as int)),
            only == (start && forall|j: int| 0 <= j < i ==> p(#[trigger] all[j])),
        decreases v.oracles@.len() - i,
    {
        proof {
            take_step(all, i as int);
        }
        if v.oracles[i].kind != OracleKind::Execution {
            assert(!p(all[i as int]));
            only = false;
        }
        end = later_of(end, v.oracles[i].span.end);
        i += 1;
    }
    proof {
        take_all(all);
    }
    if only {
        if let Some(end) = end {
            if let Some(call) = find_unobserved_after(v, end, None) {
                let mut message = "cannot prove whether call `".to_owned();
                message.append(call.qualified_name.as_str());
                message.append("` after the last execution check is an unobserved Act");
                gaps.push(
                    c.gap(
                        "analysis.ambiguous-markerless-phase",
                        message.as_str(),
                        call.span,
                        "possible unobserved Act",
                    ),
                );
            }
        }
    }
    assert(views(gaps@) =~= views(old(gaps)@) + markerless_phase_gaps(c@, v@));
}

/// The gap of a test that asserts nothing after its Act and calls something after the
/// last check within it.
pub open spec fn act_causality_gaps(c: ContextView, f: Facts) -> Seq<AnalysisGapView> {
    if one_act(c.markers) && !any(
        f.oracles,
        |o: OracleFactView| outcome(o) && o.section == Section::Assert,
    ) {
        match last_end(
            keep(f.oracles, |o: OracleFactView| outcome(o) && o.section == Section::Act),
        ) {
            Some(end) => match unobserved_after(f, end, Some(Section::Act)) {
                Some(call) => seq![
                    c.gap(
                        "analysis.ambiguous-act-causality"@,
                        "cannot prove whether call `"@ + call.qualified_name
                            + "` after the last Act execution check is unobserved production behavior"@,
                        call.span,
                        "possible unobserved Act call"@,
                    ),
                ],
                None => seq![],
            },
            None => seq![],
        }
    } else {
        seq![]
    }
}

fn note_act_causality(c: &Context, v: &FactVisitor, gaps: &mut Vec<AnalysisGap>)
    ensures
        views(final(gaps)@) == views(old(gaps)@) + act_causality_gaps(c@, v@),
{
    let ghost asserted = |o: OracleFactView| outcome(o) && o.section == Section::Assert;
    let ghost acting = |o: OracleFactView| outcome(o) && o.section == Section::Act;
    let ghost all = v@.oracles;
    let mut none = true;
    let mut end: Option<Position> = None;
    let mut i: usize = 0;
    while i < v.oracles.len()
        invariant
            asserted == (|o: OracleFactView| outcome(o) && o.section == Section::Assert),
            acting == (|o: OracleFactView| outcome(o) && o.section == Section::Act),
            all == views(v.oracles@),
            i <= v.oracles@.len(),
            end == last_end(keep(all.take(i as int), acting)),
            none == (forall|j: int| 0 <= j < i ==> !asserted(#[trigger] all[j])),
        decreases v.oracles@.len() - i,
    {
        proof {
            take_step(all, i as int);
        }
        let oracle = &v.oracles[i];
        if is_outcome(oracle) {
            if oracle.section == Section::Assert {
                assert(asserted(all[i as int]));
                none = false;
            }
            if oracle.section == Section::Act {
                proof {
                    let kept = keep(all.take(i as int), acting);
                    assert(kept.push(all[i as int]).drop_last() =~= kept);
                }
                end = later_of(end, oracle.span.end);
            }
        }
        i += 1;
    }
    proof {
        take_all(all);
    }
    if has_one_act(c.markers) && none {
        if let Some(end) = end {
            if let Some(call) = find_unobserved_after(v, end, Some(Section::Act)) {
                let mut message = "cannot prove whether call `".to_owned();
                message.append(call.qualified_name.as_str());
                message.append(
                    "` after the last Act execution check is unobserved production behavior",
                );
                gaps.push(
                    c.gap(
                        "analysis.ambiguous-act-causality",
                        message.as_str(),
                        call.span,
                        "possible unobserved Act call",
                    ),
                );
            }
        }
    }
    assert(views(gaps@) =~= views(old(gaps)@) + act_causality_gaps(c@, v@));
}

/// The results of the Act that the assertions look at.
pub open spec fn observed_outputs(f: Facts) -> Set<Seq<char>> {
    Set::new(
        |x: Seq<char>|
            f.act_outputs.contains(x) && exists|i: int|
                0 <= i < f.oracles.len() && outcome(#[trigger] f.oracles[i]) && f.oracles[i].section
                    == Section::Assert && oracle_names(f.oracles[i]).contains(x),
    )
}

fn find_observed_outputs(v: &FactVisitor) -> (r: Names)
    ensures
        r@ == observed_outputs(v@),
{
    let ghost all = v@.oracles;
    let mut mentioned = Names::new();
    let mut i: usize = 0;
    while i < v.oracles.len()
        invariant
            all == views(v.oracles@),
            i <= v.oracles@.len(),
            forall|x: Seq<char>| #[trigger]
                mentioned@.contains(x) <==> exists|j: int|
                    0 <= j < i && outcome(#[trigger] all[j]) && all[j].section == Section::Assert
                        && oracle_names(all[j]).contains(x),
        decreases v.oracles@.len() - i,
    {
        let oracle = &v.oracles[i];
        let ghost before = mentioned@;
        if is_outcome(oracle) && oracle.section == Section::Assert {
            mentioned.insert_all(&oracle_identifiers(oracle));
        }
        proof {
            assert forall|x: Seq<char>| #[trigger]
                mentioned@.contains(x) <==> exists|j: int|
                    0 <= j < i + 1 && outcome(#[trigger] all[j]) && all[j].section
                        == Section::Assert && oracle_names(all[j]).contains(x) by {
                assert(before.contains(x) <==> exists|j: int|
                    0 <= j < i && outcome(#[trigger] all[j]) && all[j].section == Section::Assert
                        && oracle_names(all[j]).contains(x));
                if mentioned@.contains(x) && !before.contains(x) {
                    assert(outcome(all[i as int]));
                }
            }
        }
        i += 1;
    }
    let names = mentioned.as_vec();
    let ghost listed = views(names@);
    let mut out = Names::new();
    let mut k: usize = 0;
    while k < names.len()
        invariant
            listed == views(names@),
            k <= names@.len(),
            forall|x: Seq<char>| #[trigger]
                out@.contains(x) <==> v@.act_outputs.contains(x) && exists|j: int|
                    0 <= j < k && #[trigger] listed[j] == x,
        decreases names@.len() - k,
    {
        let ghost before = out@;
        if v.act_outputs.contains(names[k].as_str()) {
            out.insert(names[k].clone());
        }
        proof {
            assert forall|x: Seq<char>| #[trigger]
                out@.contains(x) <==> v@.act_outputs.contains(x) && exists|j: int|
                    0 <= j < k + 1 && #[trigger] listed[j] == x by {
                assert(before.contains(x) <==> v@.act_outputs.contains(x) && exists|j: int|
                    0 <= j < k && #[trigger] listed[j] == x);
                assert(listed[k as int] == names@[k as int]@);
            }
        }
        k += 1;
    }
    proof {
        assert forall|x: Seq<char>| out@.contains(x) <==> observed_outputs(v@).contains(x) by {
            if mentioned@.contains(x) {
                assert(listed.to_set().contains(x));
                let j = listed.index_of(x);
                assert(listed[j] == x);
            }
            if exists|j: int| 0 <= j < k && #[trigger] listed[j] == x {
                let j = choose|j: int| 0 <= j < k && #[trigger] listed[j] == x;
                assert(listed.contains(x));
                assert(mentioned@.contains(x));
            }
        }
        assert(out@ =~= observed_outputs(v@));
    }
    out
}

/// Whether `place` is the last end among the spans of some names.
pub open spec fn is_last_end(
    spans: Map<Seq<char>, SourceSpan>,
    names: Set<Seq<char>>,
    place: Position,
) -> bool {
    &&& exists|x: Seq<char>|
        names.contains(x) && #[trigger] spans.contains_key(x) && spans[x].end == place
    &&& forall|x: Seq<char>|
        names.contains(x) && #[trigger] spans.contains_key(x) ==> !place.precedes(spans[x].end)
}

/// The last end among the spans of some names.
pub open spec fn last_producer(
    spans: Map<Seq<char>, SourceSpan>,
    names: Set<Seq<char>>,
) -> Option<Position> {
    if exists|place: Position| is_last_end(spans, names, place) {
        Some(choose|place: Position| is_last_end(spans, names, place))
    } else {
        None
    }
}

proof fn last_end_is_unique(
    spans: Map<Seq<char>, SourceSpan>,
    names: Set<Seq<char>>,
    a: Position,
    b: Position,
)
    requires
        is_last_end(spans, names, a),
        is_last_end(spans, names, b),
    ensures
        a == b,
{
    let x = choose|x: Seq<char>|
        names.contains(x) && #[trigger] spans.contains_key(x) && spans[x].end == a;
    let y = choose|y: Seq<char>|
        names.contains(y) && #[trigger] spans.contains_key(y) && spans[y].end == b;
    assert(!b.precedes(spans[x].end));
    assert(!a.precedes(spans[y].end));
}

fn find_last_producer(spans: &NameMap<SourceSpan>, names: &Names) -> (r: Option<Position>)
    ensures
        r == last_producer(spans@, names@),
{
    let list = names.as_vec();
    let ghost all = views(list@);
    let mut best: Option<Position> = None;
    let mut i: usize = 0;
    while i < list.len()
        invariant
            all == views(list@),
            all.to_set() == names@,
            i <= list@.len(),
            match best {
                Some(place) => (exists|j: int|
                    0 <= j < i && spans@.contains_key(#[trigger] all[j]) && spans@[all[j]].end
                        == place) && (forall|j: int|
                    0 <= j < i && spans@.contains_key(#[trigger] all[j]) ==> !place.precedes(
                        spans@[all[j]].end,
                    )),
                None => forall|j: int| 0 <= j < i ==> !spans@.contains_key(#[trigger] all[j]),
            },
        decreases list@.len() - i,
    {
        if let Some(span) = spans.get(list[i].as_str()) {
            let ghost found = best;
            best = later_of(best, span.end);
            proof {
                assert(spans@.contains_key(all[i as int]));
                assert(spans@[all[i as int]] == *span);
                if let Some(place) = found {
                    let j = choose|j: int|
                        0 <= j < i && spans@.contains_key(#[trigger] all[j]) && spans@[all[j]].end
                            == place;
                    assert(spans@.contains_key(all[j]));
                }
            }
        }
        i += 1;
    }
    proof {
        match best {
            Some(place) => {
                let j = choose|j: int|
                    0 <= j < i && spans@.contains_key(#[trigger] all[j]) && spans@[all[j]].end
                        == place;
                assert(names@.contains(all[j])) by {
                    assert(all.contains(all[j]));
                }
                assert(spans@.contains_key(all[j]));
                assert forall|x: Seq<char>|
                    names@.contains(x) && #[trigger] spans@.contains_key(
                        x,
                    ) implies !place.precedes(spans@[x].end) by {
                    let k = all.index_of(x);
                    assert(all[k] == x);
                }
                assert(is_last_end(spans@, names@, place));
                last_end_is_unique(
                    spans@,
                    names@,
                    place,
                    choose|p: Position| is_last_end(spans@, names@, p),
                );
            },
            None => {
                assert forall|place: Position| !is_last_end(spans@, names@, place) by {
                    if is_last_end(spans@, names@, place) {
                        let x = choose|x: Seq<char>|
                            names@.contains(x) && #[trigger] spans@.contains_key(x)
                                && spans@[x].end == place;
                        let k = all.index_of(x);
                        assert(all[k] == x);
                    }
                }
            },
        }
    }
    best
}

/// The gap of an Act that calls something after it produced what is asserted.
pub open spec fn later_act_gaps(c: ContextView, f: Facts) -> Seq<AnalysisGapView> {
    let observed = observed_outputs(f);
    if !one_act(c.markers) {
        seq![]
    } else {
        match last_producer(f.act_output_spans, observed) {
            Some(end) => match first_where(
                f.calls,
                |call: CallFactView|
                    call.section == Section::Act && end.precedes(call.span.start)
                        && call.receiver_identifiers.disjoint(observed)
                        && call.argument_identifiers.disjoint(observed) && !within_oracle(
                        f.oracles,
                        call,
                    ),
            ) {
                Some(call) => seq![
                    c.gap(
                        "analysis.unobserved-later-act-call"@,
                        "Act call `"@ + call.qualified_name
                            + "` occurs after the production value observed by the assertions, and its outcome is not observed"@,
                        call.span,
                        "later unobserved Act call"@,
                    ),
                ],
                None => seq![],
            },
            None => seq![],
        }
    }
}

fn find_later_call<'a>(v: &'a FactVisitor, end: Position, observed: &Names) -> (r: Option<
    &'a CallFact,
>)
    ensures
        option_view(r) == first_where(
            v@.calls,
            |call: CallFactView|
                call.section == Section::Act && end.precedes(call.span.start)
                    && call.receiver_identifiers.disjoint(observed@)
                    && call.argument_identifiers.disjoint(observed@) && !within_oracle(
                    v@.oracles,
                    call,
                ),
        ),
{
    let ghost p = |call: CallFactView|
        call.section == Section::Act && end.precedes(call.span.start)
            && call.receiver_identifiers.disjoint(observed@) && call.argument_identifiers.disjoint(
            observed@,
        ) && !within_oracle(v@.oracles, call);
    let mut i: usize = 0;
    while i < v.calls.len()
        invariant
            p == (|call: CallFactView|
                call.section == Section::Act && end.precedes(call.span.start)
                    && call.receiver_identifiers.disjoint(observed@)
                    && call.argument_identifiers.disjoint(observed@) && !within_oracle(
                    v@.oracles,
                    call,
                )),
            i <= v.calls@.len(),
            forall|j: int| 0 <= j < i ==> !p(#[trigger] v@.calls[j]),
        decreases v.calls@.len() - i,
    {
        let call = &v.calls[i];
        if call.section == Section::Act && end.is_before(&call.span.start)
            && call.receiver_identifiers.is_disjoint(observed)
            && call.argument_identifiers.is_disjoint(observed) && !is_within_oracle(
            &v.oracles,
            call,
        ) {
            proof {
                first_where_at(v@.calls, p, i as int);
            }
            return Some(call);
        }
        i += 1;
    }
    proof {
        first_where_none(v@.calls, p);
    }
    None
}

fn note_later_act(c: &Context, v: &FactVisitor, gaps: &mut Vec<AnalysisGap>)
    ensures
        views(final(gaps)@) == views(old(gaps)@) + later_act_gaps(c@, v@),
{
    if has_one_act(c.markers) {
        let observed = find_observed_outputs(v);
        if let Some(end) = find_last_producer(&v.act_output_spans, &observed) {
            if let Some(call) = find_later_call(v, end, &observed) {
                let mut message = "Act call `".to_owned();
                message.append(call.qualified_name.as_str());
                message.append(
                    "` occurs after the production value observed by the assertions, and its outcome is not observed",
                );
                gaps.push(
                    c.gap(
                        "analysis.unobserved-later-act-call",
                        message.as_str(),
                        call.span,
                        "later unobserved Act call",
                    ),
                );
            }
        }
    }
    assert(views(gaps@) =~= views(old(gaps)@) + later_act_gaps(c@, v@));
}

/// Whether an assertion mentions no result and no effect of the Act.
pub open spec fn detached(f: Facts, o: OracleFactView) -> bool {
    outcome(o) && o.section == Section::Assert && oracle_names(o).disjoint(f.act_outputs)
        && oracle_names(o).disjoint(f.act_effects)
}

/// Whether an oracle calls something that may read what the Act changed.
pub open spec fn looks_elsewhere(o: OracleFactView) -> bool {
    exists|call: Seq<char>| #[trigger]
        o.actual_calls.union(o.expected_calls).contains(call) && !local_observer(call)
}

pub open spec fn indirect_gap(c: ContextView, f: Facts, o: OracleFactView) -> Seq<AnalysisGapView> {
    if detached(f, o) && oracle_names(o).disjoint(f.act_receivers) && oracle_names(o).disjoint(
        f.act_shared_references,
    ) && looks_elsewhere(o) {
        seq![
            c.gap(
                "analysis.indirect-causality"@,
                "cannot prove whether indirect observable `"@ + o.text
                    + "` is connected to the Act"@,
                o.span,
                "indirect observable"@,
            ),
        ]
    } else {
        seq![]
    }
}

pub open spec fn receiver_gap(c: ContextView, f: Facts, o: OracleFactView) -> Seq<AnalysisGapView> {
    if detached(f, o) && !oracle_names(o).disjoint(f.act_receivers) && oracle_names(o).disjoint(
        f.act_shared_references,
    ) {
        seq![
            c.gap(
                "analysis.receiver-effect-causality"@,
                "cannot prove whether receiver observed by `"@ + o.text
                    + "` was mutated by the Act"@,
                o.span,
                "unresolved receiver effect"@,
            ),
        ]
    } else {
        seq![]
    }
}

pub open spec fn shared_gap(c: ContextView, f: Facts, o: OracleFactView) -> Seq<AnalysisGapView> {
    if detached(f, o) && !oracle_names(o).disjoint(f.act_shared_references) {
        seq![
            c.gap(
                "analysis.shared-reference-effect-causality"@,
                "cannot prove whether shared reference observed by `"@ + o.text
                    + "` was mutated through interior mutability"@,
                o.span,
                "unresolved shared-reference effect"@,
            ),
        ]
    } else {
        seq![]
    }
}

/// The gaps about assertions that may observe the Act in ways that are not analysed.
pub open spec fn effect_gaps(c: ContextView, f: Facts) -> Seq<AnalysisGapView> {
    (if one_act(c.markers) {
        flat(f.oracles, |o: OracleFactView| indirect_gap(c, f, o))
    } else {
        seq![]
    }) + flat(f.oracles, |o: OracleFactView| receiver_gap(c, f, o)) + flat(
        f.oracles,
        |o: OracleFactView| shared_gap(c, f, o),
    )
}

fn some_call_looks_elsewhere(calls: &Names) -> (r: bool)
    ensures
        r == exists|call: Seq<char>| #[trigger] calls@.contains(call) && !local_observer(call),
{
    let list = calls.as_vec();
    let ghost all = views(list@);
    let mut i: usize = 0;
    while i < list.len()
        invariant
            all == views(list@),
            all.to_set() == calls@,
            i <= list@.len(),
            forall|j: int| 0 <= j < i ==> local_observer(#[trigger] all[j]),
        decreases list@.len() - i,
    {
        if !is_local_observer(list[i].as_str()) {
            assert(all.contains(all[i as int]));
            assert(calls@.contains(all[i as int]));
            return true;
        }
        i += 1;
    }
    assert forall|call: Seq<char>| #[trigger] calls@.contains(call) implies local_observer(
        call,
    ) by {
        let k = all.index_of(call);
        assert(all[k] == call);
    }
    false
}

fn is_detached(v: &FactVisitor, o: &OracleFact, names: &Names) -> (r: bool)
    requires
        names@ == oracle_names(o@),
    ensures
        r == detached(v@, o@),
{
    is_outcome(o) && o.section == Section::Assert && names.is_disjoint(&v.act_outputs)
        && names.is_disjoint(&v.act_effects)
}

fn effect_message(before: &str, text: &str, after_text: &str) -> (r: String)
    ensures
        r@ == before@ + text@ + after_text@,
{
    let mut message = before.to_owned();
    message.append(text);
    message.append(after_text);
    message
}

fn note_indirect(c: &Context, v: &FactVisitor, o: &OracleFact, gaps: &mut Vec<AnalysisGap>)
    ensures
        views(final(gaps)@) == views(old(gaps)@) + indirect_gap(c@, v@, o@),
{
    let names = oracle_identifiers(o);
    let mut calls = o.actual_calls.copied();
    calls.insert_all(&o.expected_calls);
    let elsewhere = some_call_looks_elsewhere(&calls);
    proof {
        assert(calls@ == o@.actual_calls.union(o@.expected_calls));
        if elsewhere {
            let call = choose|call: Seq<char>| #[trigger]
                calls@.contains(call) && !local_observer(call);
            assert(o@.actual_calls.union(o@.expected_calls).contains(call));
        }
        assert(elsewhere == looks_elsewhere(o@));
    }
    if is_detached(v, o, &names) && names.is_disjoint(&v.act_receivers) && names.is_disjoint(
        &v.act_shared_references,
    ) && elsewhere {
        let message = effect_message(
            "cannot prove whether indirect observable `",
            o.text.as_str(),
            "` is connected to the Act",
        );
        gaps.push(
            c.gap("analysis.indirect-causality", message.as_str(), o.span, "indirect observable"),
        );
    }
    assert(views(gaps@) =~= views(old(gaps)@) + indirect_gap(c@, v@, o@));
}

fn note_receiver(c: &Context, v: &FactVisitor, o: &OracleFact, gaps: &mut Vec<AnalysisGap>)
    ensures
        views(final(gaps)@) == views(old(gaps)@) + receiver_gap(c@, v@, o@),
{
    let names = oracle_identifiers(o);
    if is_detached(v, o, &names) && !names.is_disjoint(&v.act_receivers) && names.is_disjoint(
        &v.act_shared_references,
    ) {
        let message = effect_message(
            "cannot prove whether receiver observed by `",
            o.text.as_str(),
            "` was mutated by the Act",
        );
        gaps.push(
            c.gap(
                "analysis.receiver-effect-causality",
                message.as_str(),
                o.span,
                "unresolved receiver effect",
            ),
        );
    }
    assert(views(gaps@) =~= views(old(gaps)@) + receiver_gap(c@, v@, o@));
}

fn note_shared(c: &Context, v: &FactVisitor, o: &OracleFact, gaps: &mut Vec<AnalysisGap>)
    ensures
        views(final(gaps)@) == views(old(gaps)@) + shared_gap(c@, v@, o@),
{
    let names = oracle_identifiers(o);
    if is_detached(v, o, &names) && !names.is_disjoint(&v.act_shared_references) {
        let message = effect_message(
            "cannot prove whether shared reference observed by `",
            o.text.as_str(),
            "` was mutated through interior mutability",
        );
        gaps.push(
            c.gap(
                "analysis.shared-reference-effect-causality",
                message.as_str(),
                o.span,
                "unresolved shared-reference effect",
            ),
        );
    }
    assert(views(gaps@) =~= views(old(gaps)@) + shared_gap(c@, v@, o@));
}

fn note_effects(c: &Context, v: &FactVisitor, gaps: &mut Vec<AnalysisGap>)
    ensures
        views(final(gaps)@) == views(old(gaps)@) + effect_gaps(c@, v@),
{
    let ghost all = v@.oracles;
    let ghost f1 = |o: OracleFactView| indirect_gap(c@, v@, o);
    let ghost f2 = |o: OracleFactView| receiver_gap(c@, v@, o);
    let ghost f3 = |o: OracleFactView| shared_gap(c@, v@, o);
    let ghost g0 = views(gaps@);
    if has_one_act(c.markers) {
        let mut i: usize = 0;
        assert(views(gaps@) =~= g0 + flat(all.take(0), f1));
        while i < v.oracles.len()
            invariant
                f1 == (|o: OracleFactView| indirect_gap(c@, v@, o)),
                all == views(v.oracles@),
                i <= v.oracles@.len(),
                views(gaps@) == g0 + flat(all.take(i as int), f1),
            decreases v.oracles@.len() - i,
        {
            proof {
                take_step(all, i as int);
            }
            note_indirect(c, v, &v.oracles[i], gaps);
            i += 1;
            assert(views(gaps@) =~= g0 + flat(all.take(i as int), f1));
        }
    }
    let ghost g1 = views(gaps@);
    let mut j: usize = 0;
    assert(views(gaps@) =~= g1 + flat(all.take(0), f2));
    while j < v.oracles.len()
        invariant
            f2 == (|o: OracleFactView| receiver_gap(c@, v@, o)),
            all == views(v.oracles@),
            j <= v.oracles@.len(),
            views(gaps@) == g1 + flat(all.take(j as int), f2),
        decreases v.oracles@.len() - j,
    {
        proof {
            take_step(all, j as int);
        }
        note_receiver(c, v, &v.oracles[j], gaps);
        j += 1;
        assert(views(gaps@) =~= g1 + flat(all.take(j as int), f2));
    }
    let ghost g2 = views(gaps@);
    let mut k: usize = 0;
    assert(views(gaps@) =~= g2 + flat(all.take(0), f3));
    while k < v.oracles.len()
        invariant
            f3 == (|o: OracleFactView| shared_gap(c@, v@, o)),
            all == views(v.oracles@),
            k <= v.oracles@.len(),
            views(gaps@) == g2 + flat(all.take(k as int), f3),
        decreases v.oracles@.len() - k,
    {
        proof {
            take_step(all, k as int);
        }
        note_shared(c, v, &v.oracles[k], gaps);
        k += 1;
        assert(views(gaps@) =~= g2 + flat(all.take(k as int), f3));
    }
    proof {
        take_all(all);
        assert(views(gaps@) =~= g0 + effect_gaps(c@, v@));
    }
}

/// The gaps that the facts of a test as a whole leave open.
pub open spec fn closing_gaps(c: ContextView, f: Facts) -> Seq<AnalysisGapView> {
    markerless_causality_gaps(c, f) + markerless_phase_gaps(c, f) + act_causality_gaps(c, f)
        + later_act_gaps(c, f) + effect_gaps(c, f)
}

fn find_closing_gaps(c: &Context, v: &FactVisitor) -> (r: Vec<AnalysisGap>)
    ensures
        views(r@) == closing_gaps(c@, v@),
{
    let mut gaps: Vec<AnalysisGap> = Vec::new();
    note_markerless_causality(c, v, &mut gaps);
    note_markerless_phase(c, v, &mut gaps);
    note_act_causality(c, v, &mut gaps);
    note_later_act(c, v, &mut gaps);
    note_effects(c, v, &mut gaps);
    assert(views(gaps@) =~= closing_gaps(c@, v@));
    gaps
}

/// The place of a mark of a node; where it is missing, that of the node.
pub open spec fn mark(t: Tree, i: int) -> SourceSpan {
    if 0 <= i < t.marks.len() {
        t.marks[i]
    } else {
        t.span
    }
}

fn mark_of(node: &Node, i: usize) -> (r: SourceSpan)
    ensures
        r == mark(node@, i as int),
{
    if i < node.marks.len() {
        node.marks[i]
    } else {
        node.span
    }
}

/// From `fn` to the closing brace.
pub open spec fn function_span_of(t: Tree) -> SourceSpan {
    SourceSpan { start: mark(t, 0).start, end: mark(t, 2).end }
}

pub open spec fn name_of(t: Tree) -> Seq<char> {
    if t.words.len() > 0 {
        t.words[0]
    } else {
        Seq::empty()
    }
}

fn name_of_node(node: &Node) -> (r: String)
    ensures
        r@ == name_of(node@),
{
    if node.words.len() > 0 {
        node.words[0].clone()
    } else {
        String::new()
    }
}

/// A name with the modules that it lies in.
pub open spec fn qualified(modules: Seq<Seq<char>>, name: Seq<char>) -> Seq<char> {
    if modules.len() == 0 {
        name
    } else {
        joined(modules, "::"@) + "::"@ + name
    }
}

fn qualify(modules: &Vec<String>, name: &str) -> (r: String)
    ensures
        r@ == qualified(views(modules@), name@),
{
    if modules.len() == 0 {
        name.to_owned()
    } else {
        let mut out = join(modules, "::");
        out.append("::");
        out.append(name);
        out
    }
}

/// The segments of an attribute's path.
pub open spec fn attribute_path(t: Tree) -> Seq<Seq<char>> {
    if t.children.len() > 0 {
        t.children[0].words
    } else {
        seq![]
    }
}

/// Whether the path of an attribute is this one identifier.
pub open spec fn attribute_is(t: Tree, name: Seq<char>) -> bool {
    t.children.len() > 0 && !t.children[0].flag && t.children[0].words.len() == 1
        && t.children[0].words[0] == name && every(
        t.children[0].children,
        |segment: Tree| segment.children.len() == 0,
    )
}

fn is_attribute(node: &Node, name: &str) -> (r: bool)
    ensures
        r == attribute_is(node@, name@),
{
    node.children.len() > 0 && !node.children[0].flag && node.children[0].words.len() == 1 && same(
        node.children[0].words[0].as_str(),
        name,
    ) && has_no_arguments(&node.children[0])
}

fn has_no_arguments(path: &Node) -> (r: bool)
    ensures
        r == every(path@.children, |segment: Tree| segment.children.len() == 0),
{
    let ghost p = |segment: Tree| segment.children.len() == 0;
    let mut i: usize = 0;
    while i < path.children.len()
        invariant
            p == (|segment: Tree| segment.children.len() == 0),
            i <= path.children@.len(),
            forall|j: int| 0 <= j < i ==> p(#[trigger] path@.children[j]),
        decreases path.children@.len() - i,
    {
        if path.children[i].children.len() > 0 {
            assert(!p(path@.children[i as int]));
            return false;
        }
        i += 1;
    }
    true
}

fn attribute_name(node: &Node) -> (r: String)
    ensures
        r@ == path_name_of(attribute_path(node@)),
{
    if node.children.len() > 0 {
        path_name(&node.children[0])
    } else {
        proof {
            assert(attribute_path(node@) =~= seq![]);
        }
        String::new()
    }
}

/// Whether a function is a test: one of its attributes stands for a test attribute.
pub open spec fn is_test_function(
    t: Tree,
    policy: TestPolicyView,
    aliases: Map<Seq<char>, Seq<char>>,
) -> bool {
    exists|i: int|
        0 <= i < t.attributes.len() && marks_test(#[trigger] t.attributes[i], policy, aliases)
}

pub open spec fn marks_test(
    attribute: Tree,
    policy: TestPolicyView,
    aliases: Map<Seq<char>, Seq<char>>,
) -> bool {
    configured_matches(
        policy.test_attributes,
        resolved(path_name_of(attribute_path(attribute)), aliases),
    )
}

fn is_test(node: &Node, policy: &TestPolicyConfig, aliases: &Aliases) -> (r: bool)
    ensures
        r == is_test_function(node@, policy@, aliases@),
{
    let mut i: usize = 0;
    while i < node.attributes.len()
        invariant
            i <= node.attributes@.len(),
            forall|j: int|
                0 <= j < i ==> !marks_test(#[trigger] node@.attributes[j], policy@, aliases@),
        decreases node.attributes@.len() - i,
    {
        let name = attribute_name(&node.attributes[i]);
        if policy.matches_test_attribute(resolve_alias(name.as_str(), aliases).as_str()) {
            assert(marks_test(node@.attributes[i as int], policy@, aliases@));
            return true;
        }
        i += 1;
    }
    false
}

/// The attribute with this one identifier as its path.
pub open spec fn attribute_named(t: Tree, name: Seq<char>) -> Option<Tree> {
    first_where(t.attributes, |a: Tree| attribute_is(a, name))
}

fn find_attribute<'a>(node: &'a Node, name: &str) -> (r: Option<&'a Node>)
    ensures
        option_view(r) == attribute_named(node@, name@),
{
    let ghost p = |a: Tree| attribute_is(a, name@);
    let mut i: usize = 0;
    while i < node.attributes.len()
        invariant
            p == (|a: Tree| attribute_is(a, name@)),
            i <= node.attributes@.len(),
            forall|j: int| 0 <= j < i ==> !p(#[trigger] node@.attributes[j]),
        decreases node.attributes@.len() - i,
    {
        if is_attribute(&node.attributes[i], name) {
            proof {
                first_where_at(node@.attributes, p, i as int);
            }
            return Some(&node.attributes[i]);
        }
        i += 1;
    }
    proof {
        first_where_none(node@.attributes, p);
    }
    None
}

/// The reason that an `ignore` attribute gives: empty where it gives none.
pub open spec fn ignore_reason(attribute: Tree) -> Seq<char> {
    if attribute.children.len() > 1 && attribute.children[1].kind == Kind::StrLiteral
        && attribute.children[1].value is Some {
        attribute.children[1].value->0
    } else {
        Seq::empty()
    }
}

fn read_ignore_reason(attribute: &Node) -> (r: String)
    ensures
        r@ == ignore_reason(attribute@),
{
    if attribute.children.len() > 1 && attribute.children[1].kind == Kind::StrLiteral {
        if let Some(reason) = &attribute.children[1].value {
            return reason.clone();
        }
    }
    String::new()
}

/// The entries in the list of an attribute.
pub open spec fn entries_of(attribute: Tree) -> Seq<Tree> {
    match attribute.arguments {
        Some(list) => list,
        None => seq![],
    }
}

/// The literal that follows `=` in an entry, of the given kind.
pub open spec fn entry_literal(entry: Tree, kind: Kind) -> Option<Tree> {
    match entry.arguments {
        Some(list) => if list.len() > 0 && list[0].kind == kind {
            Some(list[0])
        } else {
            None
        },
        None => None,
    }
}

/// Whether the value of an entry is a literal of the given kind and nothing more.
pub open spec fn is_whole_literal(entry: Tree, kind: Kind) -> bool {
    entry.children.len() > 1 && entry.children[1].kind == kind
}

/// The text that `key` has in a list of entries; of several the last one. `found` is what
/// it has without them. The list is read up to the first entry that is neither a flag nor
/// this key with a text alone; one of this key still counts where a text comes first in
/// its value.
pub open spec fn text_entry(
    entries: Seq<Tree>,
    key: Seq<char>,
    found: Option<Seq<char>>,
) -> Option<Seq<char>>
    decreases entries.len(),
{
    if entries.len() == 0 {
        found
    } else {
        let entry = entries[0];
        if !attribute_is(entry, key) {
            if entry.flag {
                found
            } else {
                text_entry(entries.skip(1), key, found)
            }
        } else {
            match entry_literal(entry, Kind::StrLiteral) {
                Some(literal) => if is_whole_literal(entry, Kind::StrLiteral) {
                    text_entry(entries.skip(1), key, literal.value)
                } else {
                    literal.value
                },
                None => found,
            }
        }
    }
}

/// Whether `key` is true in a list of entries; of several the last one counts. `found`
/// tells without them. The values of other keys are passed over; the list is read up to
/// the first entry of this key without a truth value alone, which still counts where a
/// truth value comes first in its value.
pub open spec fn truth_entry(entries: Seq<Tree>, key: Seq<char>, found: bool) -> bool
    decreases entries.len(),
{
    if entries.len() == 0 {
        found
    } else {
        let entry = entries[0];
        if !attribute_is(entry, key) {
            truth_entry(entries.skip(1), key, found)
        } else {
            match entry_literal(entry, Kind::BoolLiteral) {
                Some(literal) => if is_whole_literal(entry, Kind::BoolLiteral) {
                    truth_entry(entries.skip(1), key, literal.flag)
                } else {
                    literal.flag
                },
                None => found,
            }
        }
    }
}

fn find_literal(entry: &Node, kind: Kind) -> (r: Option<&Node>)
    ensures
        option_view(r) == entry_literal(entry@, kind),
{
    match &entry.arguments {
        Some(list) => if list.len() > 0 && list[0].kind == kind {
            Some(&list[0])
        } else {
            None
        },
        None => None,
    }
}

/// The text that a panic is expected to have.
pub open spec fn expected_panic(attribute: Tree) -> Option<Seq<char>> {
    if attribute.flag {
        text_entry(entries_of(attribute), "expected"@, None)
    } else {
        None
    }
}

/// The text that `key` has among the entries of an attribute.
fn read_text_entry(attribute: &Node, key: &str) -> (r: Option<String>)
    ensures
        option_view(r) == text_entry(entries_of(attribute@), key@, None),
{
    let entries = match &attribute.arguments {
        Some(entries) => entries,
        None => {
            return None;
        },
    };
    let ghost all = views(entries@);
    let mut found: Option<String> = None;
    let mut i: usize = 0;
    assert(all.skip(0) =~= all);
    while i < entries.len()
        invariant
            all == views(entries@),
            all == entries_of(attribute@),
            i <= entries@.len(),
            text_entry(all, key@, None) == text_entry(
                all.skip(i as int),
                key@,
                option_view(found),
            ),
        decreases entries@.len() - i,
    {
        let entry = &entries[i];
        let ghost rest = all.skip(i as int);
        proof {
            assert(rest[0] == entry@);
            assert(rest.skip(1) =~= all.skip(i + 1));
        }
        if !is_attribute(entry, key) {
            if entry.flag {
                return found;
            }
        } else {
            match find_literal(entry, Kind::StrLiteral) {
                Some(literal) => {
                    found = copy_option(&literal.value);
                },
                None => {
                    return found;
                },
            }
            if !(entry.children.len() > 1 && entry.children[1].kind == Kind::StrLiteral) {
                return found;
            }
        }
        i += 1;
    }
    assert(all.skip(i as int).len() == 0);
    found
}

/// Whether `key` is true among the entries of an attribute.
fn read_truth_entry(attribute: &Node, key: &str) -> (r: bool)
    ensures
        r == truth_entry(entries_of(attribute@), key@, false),
{
    let entries = match &attribute.arguments {
        Some(entries) => entries,
        None => {
            return false;
        },
    };
    let ghost all = views(entries@);
    let mut found = false;
    let mut i: usize = 0;
    assert(all.skip(0) =~= all);
    while i < entries.len()
        invariant
            all == views(entries@),
            all == entries_of(attribute@),
            i <= entries@.len(),
            truth_entry(all, key@, false) == truth_entry(all.skip(i as int), key@, found),
        decreases entries@.len() - i,
    {
        let entry = &entries[i];
        let ghost rest = all.skip(i as int);
        proof {
            assert(rest[0] == entry@);
            assert(rest.skip(1) =~= all.skip(i + 1));
        }
        if is_attribute(entry, key) {
            match find_literal(entry, Kind::BoolLiteral) {
                Some(literal) => {
                    found = literal.flag;
                },
                None => {
                    return found;
                },
            }
            if !(entry.children.len() > 1 && entry.children[1].kind == Kind::BoolLiteral) {
                return found;
            }
        }
        i += 1;
    }
    assert(all.skip(i as int).len() == 0);
    found
}

/// Whether an attribute is `tokio::test` with paused time.
pub open spec fn pauses_time(attribute: Tree, aliases: Map<Seq<char>, Seq<char>>) -> bool {
    resolved(path_name_of(attribute_path(attribute)), aliases) == "tokio::test"@
        && truth_entry(entries_of(attribute), "start_paused"@, false)
}

pub open spec fn starts_paused(t: Tree, aliases: Map<Seq<char>, Seq<char>>) -> bool {
    exists|i: int| 0 <= i < t.attributes.len() && pauses_time(#[trigger] t.attributes[i], aliases)
}

fn uses_paused_tokio_time(node: &Node, aliases: &Aliases) -> (r: bool)
    ensures
        r == starts_paused(node@, aliases@),
{
    let mut i: usize = 0;
    while i < node.attributes.len()
        invariant
            i <= node.attributes@.len(),
            forall|j: int| 0 <= j < i ==> !pauses_time(#[trigger] node@.attributes[j], aliases@),
        decreases node.attributes@.len() - i,
    {
        let name = attribute_name(&node.attributes[i]);
        if same(resolve_alias(name.as_str(), aliases).as_str(), "tokio::test")
            && read_truth_entry(&node.attributes[i], "start_paused") {
            assert(pauses_time(node@.attributes[i as int], aliases@));
            return true;
        }
        i += 1;
    }
    false
}

/// Whether a function returns something other than nothing.
pub open spec fn returns_value(t: Tree) -> bool {
    t.children.len() > 0 && ({
        let signature = t.children[0];
        signature.flag && signature.children.len() > 0 && !(signature.children.last().kind
            == Kind::TypeTuple && signature.children.last().children.len() == 0)
    })
}

fn has_observable_test_return(node: &Node) -> (r: bool)
    ensures
        r == returns_value(node@),
{
    if node.children.len() == 0 {
        return false;
    }
    let signature = &node.children[0];
    if !signature.flag || signature.children.len() == 0 {
        return false;
    }
    let output = &signature.children[signature.children.len() - 1];
    !(output.kind == Kind::TypeTuple && output.children.len() == 0)
}

/// The names that the parameters of a function bind.
pub open spec fn parameter_names(t: Tree) -> Set<Seq<char>> {
    if t.children.len() > 0 {
        bound_by_all(t.children[0].children)
    } else {
        set![]
    }
}

fn parameters_of(node: &Node) -> (r: Names)
    ensures
        r@ == parameter_names(node@),
{
    let mut names = Names::new();
    if node.children.len() == 0 {
        return names;
    }
    let signature = &node.children[0];
    let ghost all = signature@.children;
    let mut i: usize = 0;
    while i < signature.children.len()
        invariant
            all == views(signature.children@),
            i <= signature.children@.len(),
            names@ == bound_by_all(all.take(i as int)),
        decreases signature.children@.len() - i,
    {
        proof {
            take_step(all, i as int);
        }
        identifiers_from_pattern(&signature.children[i], &mut names);
        i += 1;
    }
    proof {
        take_all(all);
    }
    names
}

/// The statements of a function.
pub open spec fn statements_of(t: Tree) -> Seq<Tree> {
    if t.children.len() > 1 {
        t.children[1].children
    } else {
        seq![]
    }
}

/// The aliases with those that the statements of a function import.
pub open spec fn with_statement_imports(
    statements: Seq<Tree>,
    aliases: Map<Seq<char>, Seq<char>>,
) -> Map<Seq<char>, Seq<char>>
    decreases statements.len(),
{
    if statements.len() == 0 {
        aliases
    } else {
        let rest = with_statement_imports(statements.drop_last(), aliases);
        let last = statements.last();
        if last.children.len() > 0 && last.children[0].kind == Kind::Use
            && last.children[0].children.len() > 0 {
            with_imports(last.children[0].children[0], seq![], rest)
        } else {
            rest
        }
    }
}

fn import_statements(node: &Node, inherited: &Aliases) -> (r: Aliases)
    ensures
        r@ == with_statement_imports(statements_of(node@), inherited@),
{
    let mut aliases = inherited.copied();
    if node.children.len() <= 1 {
        return aliases;
    }
    let block = &node.children[1];
    let ghost all = block@.children;
    let prefix: Vec<String> = Vec::new();
    assert(views(prefix@) =~= seq![]);
    let mut i: usize = 0;
    while i < block.children.len()
        invariant
            all == views(block.children@),
            views(prefix@) == Seq::<Seq<char>>::empty(),
            i <= block.children@.len(),
            aliases@ == with_statement_imports(all.take(i as int), inherited@),
        decreases block.children@.len() - i,
    {
        proof {
            take_step(all, i as int);
        }
        let statement = &block.children[i];
        if statement.children.len() > 0 && statement.children[0].kind == Kind::Use
            && statement.children[0].children.len() > 0 {
            collect_use_tree(&statement.children[0].children[0], &prefix, &mut aliases);
        }
        i += 1;
    }
    proof {
        take_all(all);
    }
    aliases
}

/// The expression that a function returns by ending with it.
pub open spec fn tail_of(t: Tree) -> Option<Tree> {
    let statements = statements_of(t);
    if statements.len() > 0 && statements.last().flag && statements.last().children.len() > 0 {
        Some(statements.last().children[0])
    } else {
        None
    }
}

fn tail_expression(node: &Node) -> (r: Option<&Node>)
    ensures
        option_view(r) == tail_of(node@),
{
    if node.children.len() <= 1 {
        return None;
    }
    let block = &node.children[1];
    if block.children.len() == 0 {
        return None;
    }
    let last = &block.children[block.children.len() - 1];
    if last.flag && last.children.len() > 0 {
        Some(&last.children[0])
    } else {
        None
    }
}

/// What stays the same during the walk through a test function.
pub open spec fn context_of(
    path: Seq<char>,
    t: Tree,
    modules: Seq<Seq<char>>,
    lines: Seq<Seq<char>>,
    policy: TestPolicyView,
) -> ContextView {
    ContextView {
        path,
        identity: TestIdentityView {
            name: name_of(t),
            qualified_name: qualified(modules, name_of(t)),
        },
        markers: markers_in(lines, function_span_of(t)),
        policy,
        observable_return: returns_value(t),
    }
}

/// The facts of a test function, from the walk through its body and the value it
/// returns.
pub open spec fn gathered(
    c: ContextView,
    t: Tree,
    aliases: Map<Seq<char>, Seq<char>>,
) -> Facts {
    let start = no_facts_yet(
        parameter_names(t),
        starts_paused(t, aliases),
        with_statement_imports(statements_of(t), aliases),
    );
    let walked = if t.children.len() > 1 {
        visited(c, start, t.children[1])
    } else {
        start
    };
    match tail_of(t) {
        Some(tail) => if returns_value(t) {
            walked.with_tail(c, tail)
        } else {
            walked
        },
        None => walked,
    }
}

/// The number of lines of a span.
pub open spec fn line_count_of(span: SourceSpan) -> usize {
    if span.end.line >= span.start.line {
        after(span.end.line - span.start.line)
    } else {
        1
    }
}

/// A test function with everything that the analysis finds in it.
pub open spec fn analyzed(
    path: Seq<char>,
    t: Tree,
    modules: Seq<Seq<char>>,
    aliases: Map<Seq<char>, Seq<char>>,
    lines: Seq<Seq<char>>,
    policy: TestPolicyView,
) -> TestCaseView {
    let c = context_of(path, t, modules, lines, policy);
    let f = gathered(c, t, aliases);
    let ignored = attribute_named(t, "ignore"@);
    let panics = attribute_named(t, "should_panic"@);
    TestCaseView {
        path,
        name: c.identity.name,
        qualified_name: c.identity.qualified_name,
        name_span: mark(t, 1),
        function_span: function_span_of(t),
        line_count: line_count_of(function_span_of(t)),
        markers: c.markers,
        section_statements: f.section_statements,
        ignored: match ignored {
            Some(attribute) => Some(ignore_reason(attribute)),
            None => None,
        },
        ignore_span: match ignored {
            Some(attribute) => Some(attribute.span),
            None => None,
        },
        should_panic: panics is Some,
        should_panic_expected: match panics {
            Some(attribute) => expected_panic(attribute),
            None => None,
        },
        act_outputs: f.act_outputs,
        act_effects: f.act_effects,
        act_root_calls: f.act_root_calls,
        uncontrolled_clock_outputs: f.uncontrolled_clock_outputs,
        oracles: f.oracles,
        calls: f.calls,
        hygiene: f.hygiene,
        gaps: f.gaps + closing_gaps(c, f),
    }
}

fn gather(c: &Context, node: &Node, inherited: &Aliases) -> (r: FactVisitor)
    requires
        c.observable_return == returns_value(node@),
    ensures
        r@ == gathered(c@, node@, inherited@),
{
    let mut visitor = FactVisitor::new(
        parameters_of(node),
        uses_paused_tokio_time(node, inherited),
        import_statements(node, inherited),
    );
    if node.children.len() > 1 {
        visitor.visit(c, &node.children[1]);
    }
    if c.observable_return {
        if let Some(tail) = tail_expression(node) {
            visitor.note_tail(c, tail);
        }
    }
    visitor
}

/// Analyses a test function.
pub fn analyze_test(
    path: &str,
    node: &Node,
    modules: &Vec<String>,
    inherited: &Aliases,
    lines: &Vec<String>,
    policy: &TestPolicyConfig,
) -> (r: TestCase)
    ensures
        r@ == analyzed(path@, node@, views(modules@), inherited@, views(lines@), policy@),
{
    let name = name_of_node(node);
    let qualified_name = qualify(modules, name.as_str());
    let function_span = SourceSpan { start: mark_of(node, 0).start, end: mark_of(node, 2).end };
    let markers = find_markers(lines, function_span);
    let identity = TestIdentity { name: name.clone(), qualified_name: qualified_name.clone() };
    let context = Context {
        path,
        identity: &identity,
        markers: &markers,
        policy,
        observable_return: has_observable_test_return(node),
    };
    proof {
        assert(context@ == context_of(path@, node@, views(modules@), views(lines@), policy@));
    }
    let visitor = gather(&context, node, inherited);
    let mut closing = find_closing_gaps(&context, &visitor);
    let mut gaps = visitor.gaps;
    gaps.append(&mut closing);
    let (ignored, ignore_span) = match find_attribute(node, "ignore") {
        Some(attribute) => (Some(read_ignore_reason(attribute)), Some(attribute.span)),
        None => (None, None),
    };
    let (should_panic, should_panic_expected) = match find_attribute(node, "should_panic") {
        Some(attribute) => {
            let expected = if attribute.flag {
                read_text_entry(attribute, "expected")
            } else {
                None
            };
            (true, expected)
        },
        None => (false, None),
    };
    let line_count: usize = function_span.end.line.saturating_sub(
        function_span.start.line,
    ).saturating_add(1);
    TestCase {
        path: path.to_owned(),
        name,
        qualified_name,
        name_span: mark_of(node, 1),
        function_span,
        line_count,
        markers,
        section_statements: visitor.section_statements,
        ignored,
        ignore_span,
        should_panic,
        should_panic_expected,
        act_outputs: visitor.act_outputs,
        act_effects: visitor.act_effects,
        act_root_calls: visitor.act_root_calls,
        uncontrolled_clock_outputs: visitor.uncontrolled_clock_outputs,
        oracles: visitor.oracles,
        calls: visitor.calls,
        hygiene: visitor.hygiene,
        gaps,
    }
}

/// The tests among the items of a module and of the modules in it, in source order.
pub open spec fn tests_in(
    path: Seq<char>,
    items: Seq<Tree>,
    modules: Seq<Seq<char>>,
    parent: Map<Seq<char>, Seq<char>>,
    lines: Seq<Seq<char>>,
    policy: TestPolicyView,
) -> Seq<TestCaseView>
    decreases items, 1nat,
{
    tests_among(
        path,
        items,
        modules,
        with_parent(item_aliases(items), parent),
        lines,
        policy,
    )
}

/// The tests among some items, under the aliases of their module.
pub open spec fn tests_among(
    path: Seq<char>,
    items: Seq<Tree>,
    modules: Seq<Seq<char>>,
    aliases: Map<Seq<char>, Seq<char>>,
    lines: Seq<Seq<char>>,
    policy: TestPolicyView,
) -> Seq<TestCaseView>
    decreases items, 0nat,
{
    if items.len() == 0 {
        seq![]
    } else {
        let rest = tests_among(path, items.drop_last(), modules, aliases, lines, policy);
        let last = items.last();
        if last.kind == Kind::Function && is_test_function(last, policy, aliases) {
            rest.push(analyzed(path, last, modules, aliases, lines, policy))
        } else if last.kind == Kind::Module {
            rest + tests_in(
                path,
                last.children,
                modules.push(name_of(last)),
                aliases,
                lines,
                policy,
            )
        } else {
            rest
        }
    }
}

fn collect_items(
    path: &str,
    items: &Vec<Node>,
    modules: &Vec<String>,
    parent: &Aliases,
    lines: &Vec<String>,
    policy: &TestPolicyConfig,
) -> (r: Vec<TestCase>)
    ensures
        views(r@) == tests_in(
            path@,
            views(items@),
            views(modules@),
            parent@,
            views(lines@),
            policy@,
        ),
    decreases items,
{
    let own = collect_item_use_aliases(items);
    let aliases = resolve_parent_aliases(&own, parent);
    let ghost all = views(items@);
    let mut tests: Vec<TestCase> = Vec::new();
    let mut i: usize = 0;
    while i < items.len()
        invariant
            all == views(items@),
            i <= items@.len(),
            views(tests@) == tests_among(
                path@,
                all.take(i as int),
                views(modules@),
                aliases@,
                views(lines@),
                policy@,
            ),
        decreases items@.len() - i,
    {
        proof {
            take_step(all, i as int);
        }
        let item = &items[i];
        if item.kind == Kind::Function {
            if is_test(item, policy, &aliases) {
                tests.push(analyze_test(path, item, modules, &aliases, lines, policy));
            }
        } else if item.kind == Kind::Module {
            let mut nested = copy_texts(modules);
            nested.push(name_of_node(item));
            let mut inner = collect_items(path, &item.children, &nested, &aliases, lines, policy);
            tests.append(&mut inner);
        }
        i += 1;
    }
    proof {
        take_all(all);
    }
    tests
}

/// The tests among the items of a source file with these lines.
pub fn analyze_items(
    relative_path: &str,
    items: &Vec<Node>,
    lines: &Vec<String>,
    policy: &TestPolicyConfig,
) -> (r: Vec<TestCase>)
    ensures
        views(r@) == tests_in(
            relative_path@,
            views(items@),
            seq![],
            Map::empty(),
            views(lines@),
            policy@,
        ),
{
    let modules: Vec<String> = Vec::new();
    let parent: Aliases = NameMap::new();
    assert(views(modules@) =~= seq![]);
    collect_items(relative_path, items, &modules, &parent, lines, policy)
}

/// The tests of a source file, or why the file cannot be parsed.
pub fn analyze_source(relative_path: &str, source: &str, policy: &TestPolicyConfig) -> (r: Result<
    Vec<TestCase>,
    String,
>)
    ensures
        match r {
            Ok(tests) => parsed(source@) is Ok && views(tests@) == tests_in(
                relative_path@,
                parsed(source@)->Ok_0.children,
                seq![],
                Map::empty(),
                lines_of(source@),
                policy@,
            ),
            Err(message) => parsed(source@) == Err::<Tree, Seq<char>>(message@),
        },
{
    match parse_items(source) {
        Ok(items) => Ok(analyze_items(relative_path, &items, &lines(source), policy)),
        Err(message) => Err(message),
    }
}

} // verus!
