//! When each rule finds something in a test, told by the facts of the test.

use vstd::prelude::*;

use super::config::TestPolicyView;
use super::laws::position_of_a_rule;
use super::model::{
    AnalysisGapView, Finding, FindingView, HygieneFactView, HygieneKind, Marker, MarkerKind,
    OracleFactView, OracleKind, Position, Section, TestCaseView,
};
use super::rules::{
    bare_panic_findings, combined_findings, disconnected_candidates_of, disconnected_findings,
    gap_after_act, gap_covers_oracle, hygiene_facts, hygiene_findings, hygiene_findings_of,
    ignored_findings, latest_marker, markers_of, merged, merged_by_rule, missing_oracle_findings,
    missing_section_findings, multiple_act_findings, naming_findings, out_of_order_findings,
    outcome_oracles_of, post_act, post_act_oracles_of, raw_findings, rule_position,
    section_findings, test_findings, unresolved_oracle_gap, vacuous_findings, ByRule,
};
use crate::order::sorted_keeps_values;
use crate::seqs::{every, in_keep, keep, kept_first, kept_many, kept_none};
use crate::text::is_whitespace;

verus! {

/// Whether one of some findings is of a rule.
pub open spec fn has_rule(findings: Seq<FindingView>, rule_id: Seq<char>) -> bool {
    exists|k: int| 0 <= k < findings.len() && (#[trigger] findings[k]).rule_id == rule_id
}

/// Whether a rule finds something in a test.
pub open spec fn finds(test: TestCaseView, policy: TestPolicyView, rule_id: Seq<char>) -> bool {
    has_rule(test_findings(test, policy), rule_id)
}

proof fn rule_of_concat(a: Seq<FindingView>, b: Seq<FindingView>, rule_id: Seq<char>)
    ensures
        has_rule(a + b, rule_id) == (has_rule(a, rule_id) || has_rule(b, rule_id)),
{
    let all = a + b;
    if has_rule(a, rule_id) {
        let k = choose|k: int| 0 <= k < a.len() && (#[trigger] a[k]).rule_id == rule_id;
        assert(all[k].rule_id == rule_id);
    }
    if has_rule(b, rule_id) {
        let k = choose|k: int| 0 <= k < b.len() && (#[trigger] b[k]).rule_id == rule_id;
        assert(all[a.len() + k].rule_id == rule_id);
    }
    if has_rule(all, rule_id) {
        let k = choose|k: int| 0 <= k < all.len() && (#[trigger] all[k]).rule_id == rule_id;
        if k < a.len() {
            assert(a[k].rule_id == rule_id);
        } else {
            assert(b[k - a.len()].rule_id == rule_id);
        }
    }
}

proof fn rule_of_none_or_one(findings: Seq<FindingView>, rule_id: Seq<char>)
    requires
        findings.len() <= 1,
    ensures
        has_rule(findings, rule_id) == (findings.len() == 1 && findings[0].rule_id == rule_id),
{
    if findings.len() == 1 && findings[0].rule_id == rule_id {
        assert(has_rule(findings, rule_id));
    }
}

/// Merging findings of one rule leaves every rule its finding, and brings no new rule.
proof fn rules_stay_when_merged(findings: Seq<FindingView>, rule_id: Seq<char>)
    ensures
        has_rule(merged_by_rule(findings), rule_id) == has_rule(findings, rule_id),
    decreases findings.len(),
{
    if findings.len() > 0 {
        let rest = findings.drop_last();
        let last = findings.last();
        let known = merged_by_rule(rest);
        let now = merged(known, last);
        rules_stay_when_merged(rest, rule_id);
        assert(findings =~= rest + seq![last]);
        rule_of_concat(rest, seq![last], rule_id);
        rule_of_none_or_one(seq![last], rule_id);
        position_of_a_rule(known, last.rule_id);
        match rule_position(known, last.rule_id) {
            Some(i) => {
                assert forall|k: int| 0 <= k < known.len() implies (#[trigger] now[k]).rule_id
                    == known[k].rule_id by {}
                if has_rule(known, rule_id) {
                    let k = choose|k: int|
                        0 <= k < known.len() && (#[trigger] known[k]).rule_id == rule_id;
                    assert(now[k].rule_id == rule_id);
                }
                if has_rule(now, rule_id) {
                    let k = choose|k: int|
                        0 <= k < now.len() && (#[trigger] now[k]).rule_id == rule_id;
                    assert(known[k].rule_id == rule_id);
                }
                if last.rule_id == rule_id {
                    assert(now[i].rule_id == rule_id);
                }
            },
            None => {
                assert(now =~= known + seq![last]);
                rule_of_concat(known, seq![last], rule_id);
            },
        }
    }
}

/// A rule finds something in a test exactly where its own check does.
proof fn rules_of_a_test(test: TestCaseView, policy: TestPolicyView, rule_id: Seq<char>)
    ensures
        finds(test, policy, rule_id) == has_rule(raw_findings(test, policy), rule_id),
{
    let raw = raw_findings(test, policy);
    let one_each = merged_by_rule(raw);
    let all = test_findings(test, policy);
    rules_stay_when_merged(raw, rule_id);
    if has_rule(all, rule_id) {
        let k = choose|k: int| 0 <= k < all.len() && (#[trigger] all[k]).rule_id == rule_id;
        sorted_keeps_values::<Finding, ByRule>(one_each, all[k]);
        let l = one_each.index_of(all[k]);
        assert(one_each[l].rule_id == rule_id);
    }
    if has_rule(one_each, rule_id) {
        let k = choose|k: int|
            0 <= k < one_each.len() && (#[trigger] one_each[k]).rule_id == rule_id;
        sorted_keeps_values::<Finding, ByRule>(one_each, one_each[k]);
        let l = all.index_of(one_each[k]);
        assert(all[l].rule_id == rule_id);
    }
}

/// Which check finds something under a rule.
proof fn checks_of_a_test(test: TestCaseView, policy: TestPolicyView, rule_id: Seq<char>)
    ensures
        finds(test, policy, rule_id) == {
            ||| rule_id == "naming.should-prefix"@ && naming_findings(test).len() > 0
            ||| test.line_count > policy.aaa_min_lines && has_rule(section_findings(test), rule_id)
            ||| rule_id == "behavior.multiple-acts"@ && multiple_act_findings(test).len() > 0
            ||| rule_id == "ignore.missing-reason"@ && ignored_findings(test).len() > 0
            ||| rule_id == "oracle.missing"@ && missing_oracle_findings(test).len() > 0
            ||| rule_id == "oracle.vacuous"@ && vacuous_findings(test).len() > 0
            ||| rule_id == "oracle.disconnected"@ && disconnected_findings(test).len() > 0
            ||| rule_id == "panic.missing-expected"@ && bare_panic_findings(test).len() > 0
            ||| has_rule(hygiene_findings(test), rule_id)
        },
{
    rules_of_a_test(test, policy, rule_id);
    let sections: Seq<FindingView> = if test.line_count > policy.aaa_min_lines {
        section_findings(test)
    } else {
        seq![]
    };
    rule_of_none_or_one(Seq::empty(), rule_id);
    rule_of_none_or_one(naming_findings(test), rule_id);
    rule_of_none_or_one(multiple_act_findings(test), rule_id);
    rule_of_none_or_one(ignored_findings(test), rule_id);
    rule_of_none_or_one(missing_oracle_findings(test), rule_id);
    rule_of_none_or_one(vacuous_findings(test), rule_id);
    rule_of_none_or_one(disconnected_findings(test), rule_id);
    rule_of_none_or_one(bare_panic_findings(test), rule_id);
    let s1 = naming_findings(test) + sections;
    rule_of_concat(naming_findings(test), sections, rule_id);
    let s2 = s1 + multiple_act_findings(test);
    rule_of_concat(s1, multiple_act_findings(test), rule_id);
    let s3 = s2 + ignored_findings(test);
    rule_of_concat(s2, ignored_findings(test), rule_id);
    let s4 = s3 + missing_oracle_findings(test);
    rule_of_concat(s3, missing_oracle_findings(test), rule_id);
    let s5 = s4 + vacuous_findings(test);
    rule_of_concat(s4, vacuous_findings(test), rule_id);
    let s6 = s5 + disconnected_findings(test);
    rule_of_concat(s5, disconnected_findings(test), rule_id);
    let s7 = s6 + bare_panic_findings(test);
    rule_of_concat(s6, bare_panic_findings(test), rule_id);
    rule_of_concat(s7, hygiene_findings(test), rule_id);
}

/// The rules that findings about sections are of.
proof fn section_checks(test: TestCaseView, rule_id: Seq<char>)
    ensures
        has_rule(section_findings(test), rule_id) == {
            ||| rule_id == "structure.aaa.missing-arrange"@ && missing_section_findings(
                test,
                MarkerKind::Arrange,
                "structure.aaa.missing-arrange"@,
                "Arrange"@,
            ).len() > 0
            ||| rule_id == "structure.aaa.missing-act"@ && missing_section_findings(
                test,
                MarkerKind::Act,
                "structure.aaa.missing-act"@,
                "Act"@,
            ).len() > 0
            ||| rule_id == "structure.aaa.missing-assert"@ && missing_section_findings(
                test,
                MarkerKind::Assert,
                "structure.aaa.missing-assert"@,
                "Assert"@,
            ).len() > 0
            ||| rule_id == "structure.aaa.combined"@ && combined_findings(test).len() > 0
            ||| rule_id == "structure.aaa.out-of-order"@ && out_of_order_findings(test).len() > 0
        },
{
    let a = missing_section_findings(
        test,
        MarkerKind::Arrange,
        "structure.aaa.missing-arrange"@,
        "Arrange"@,
    );
    let b = missing_section_findings(
        test,
        MarkerKind::Act,
        "structure.aaa.missing-act"@,
        "Act"@,
    );
    let c = missing_section_findings(
        test,
        MarkerKind::Assert,
        "structure.aaa.missing-assert"@,
        "Assert"@,
    );
    let d = combined_findings(test);
    let e = out_of_order_findings(test);
    rule_of_none_or_one(a, rule_id);
    rule_of_none_or_one(b, rule_id);
    rule_of_none_or_one(c, rule_id);
    rule_of_none_or_one(d, rule_id);
    rule_of_none_or_one(e, rule_id);
    rule_of_concat(a, b, rule_id);
    rule_of_concat(a + b, c, rule_id);
    rule_of_concat(a + b + c, d, rule_id);
    rule_of_concat(a + b + c + d, e, rule_id);
}

/// The rules that findings about nondeterminism are of.
proof fn hygiene_checks(test: TestCaseView, rule_id: Seq<char>)
    ensures
        has_rule(hygiene_findings(test), rule_id) == {
            ||| rule_id == "nondeterminism.fixed-sleep"@ && hygiene_facts(
                test,
                HygieneKind::FixedSleep,
            ).len() > 0
            ||| rule_id == "nondeterminism.clock"@ && hygiene_facts(
                test,
                HygieneKind::UncontrolledClock,
            ).len() > 0
            ||| rule_id == "nondeterminism.rng"@ && hygiene_facts(
                test,
                HygieneKind::UncontrolledRandom,
            ).len() > 0
            ||| rule_id == "nondeterminism.environment"@ && hygiene_facts(
                test,
                HygieneKind::ProcessEnvironment,
            ).len() > 0
        },
{
    let all = hygiene_findings(test);
    let a = hygiene_findings_of(
        test,
        HygieneKind::FixedSleep,
        "nondeterminism.fixed-sleep"@,
        "test uses a fixed sleep"@,
        "Fixed delays make tests slow and timing-dependent without proving readiness."@,
        "Use virtual time, an injected clock, or wait for an observable readiness signal."@,
    );
    let b = hygiene_findings_of(
        test,
        HygieneKind::UncontrolledClock,
        "nondeterminism.clock"@,
        "Act or assertion reads the uncontrolled wall clock"@,
        "Wall-clock scheduling and resolution can make the asserted outcome nondeterministic."@,
        "Inject or pause the clock and advance it deterministically."@,
    );
    let c = hygiene_findings_of(
        test,
        HygieneKind::UncontrolledRandom,
        "nondeterminism.rng"@,
        "test uses an uncontrolled random generator"@,
        "An unrecorded random input makes failures difficult to reproduce and can leave cases untested."@,
        "Use a fixed seed or a property-test framework that reports and replays the seed."@,
    );
    let d = hygiene_findings_of(
        test,
        HygieneKind::ProcessEnvironment,
        "nondeterminism.environment"@,
        "test mutates process-global environment directly"@,
        "A panic or parallel test can observe leaked process state."@,
        "Use a configured panic-safe RAII environment guard."@,
    );
    assert(all == a + b + c + d);
    rule_of_none_or_one(a, rule_id);
    rule_of_none_or_one(b, rule_id);
    rule_of_none_or_one(c, rule_id);
    rule_of_none_or_one(d, rule_id);
    rule_of_concat(a, b, rule_id);
    rule_of_concat(a + b, c, rule_id);
    rule_of_concat(a + b + c, d, rule_id);
}

/// The rules are told apart by their length, and where it is the same by a character.
proof fn rules_differ()
    ensures
        "naming.should-prefix"@.len() == 20,
        "structure.aaa.missing-arrange"@.len() == 29,
        "structure.aaa.missing-act"@.len() == 25,
        "structure.aaa.missing-assert"@.len() == 28,
        "structure.aaa.out-of-order"@.len() == 26,
        "structure.aaa.combined"@.len() == 22,
        "behavior.multiple-acts"@.len() == 22,
        "ignore.missing-reason"@.len() == 21,
        "oracle.missing"@.len() == 14,
        "oracle.vacuous"@.len() == 14,
        "oracle.disconnected"@.len() == 19,
        "panic.missing-expected"@.len() == 22,
        "nondeterminism.fixed-sleep"@.len() == 26,
        "nondeterminism.clock"@.len() == 20,
        "nondeterminism.rng"@.len() == 18,
        "nondeterminism.environment"@.len() == 26,
        "naming.should-prefix"@[1] == 'a',
        "nondeterminism.clock"@[1] == 'o',
        "structure.aaa.out-of-order"@[0] == 's',
        "nondeterminism.fixed-sleep"@[0] == 'n',
        "nondeterminism.environment"@[0] == 'n',
        "structure.aaa.combined"@[0] == 's',
        "behavior.multiple-acts"@[0] == 'b',
        "panic.missing-expected"@[0] == 'p',
        "oracle.missing"@[7] == 'm',
        "oracle.vacuous"@[7] == 'v',
        "nondeterminism.fixed-sleep"@[15] == 'f',
        "nondeterminism.environment"@[15] == 'e',
{
    reveal_strlit("naming.should-prefix");
    reveal_strlit("structure.aaa.missing-arrange");
    reveal_strlit("structure.aaa.missing-act");
    reveal_strlit("structure.aaa.missing-assert");
    reveal_strlit("structure.aaa.out-of-order");
    reveal_strlit("structure.aaa.combined");
    reveal_strlit("behavior.multiple-acts");
    reveal_strlit("ignore.missing-reason");
    reveal_strlit("oracle.missing");
    reveal_strlit("oracle.vacuous");
    reveal_strlit("oracle.disconnected");
    reveal_strlit("panic.missing-expected");
    reveal_strlit("nondeterminism.fixed-sleep");
    reveal_strlit("nondeterminism.clock");
    reveal_strlit("nondeterminism.rng");
    reveal_strlit("nondeterminism.environment");
}

/// What a rule finds in a test, by the one check that is its own.
#[verifier::spinoff_prover]
#[verifier::rlimit(40)]
proof fn each_rule_has_its_check(test: TestCaseView, policy: TestPolicyView, rule_id: Seq<char>)
    ensures
        rule_id == "naming.should-prefix"@ ==> finds(test, policy, rule_id) == (naming_findings(
            test,
        ).len() > 0),
        rule_id == "behavior.multiple-acts"@ ==> finds(test, policy, rule_id) == (
        multiple_act_findings(test).len() > 0),
        rule_id == "ignore.missing-reason"@ ==> finds(test, policy, rule_id) == (ignored_findings(
            test,
        ).len() > 0),
        rule_id == "oracle.missing"@ ==> finds(test, policy, rule_id) == (missing_oracle_findings(
            test,
        ).len() > 0),
        rule_id == "oracle.vacuous"@ ==> finds(test, policy, rule_id) == (vacuous_findings(
            test,
        ).len() > 0),
        rule_id == "oracle.disconnected"@ ==> finds(test, policy, rule_id) == (
        disconnected_findings(test).len() > 0),
        rule_id == "panic.missing-expected"@ ==> finds(test, policy, rule_id) == (
        bare_panic_findings(test).len() > 0),
        rule_id == "structure.aaa.missing-arrange"@ ==> finds(test, policy, rule_id) == (
        test.line_count > policy.aaa_min_lines && missing_section_findings(
            test,
            MarkerKind::Arrange,
            rule_id,
            "Arrange"@,
        ).len() > 0),
        rule_id == "structure.aaa.missing-act"@ ==> finds(test, policy, rule_id) == (
        test.line_count > policy.aaa_min_lines && missing_section_findings(
            test,
            MarkerKind::Act,
            rule_id,
            "Act"@,
        ).len() > 0),
        rule_id == "structure.aaa.missing-assert"@ ==> finds(test, policy, rule_id) == (
        test.line_count > policy.aaa_min_lines && missing_section_findings(
            test,
            MarkerKind::Assert,
            rule_id,
            "Assert"@,
        ).len() > 0),
        rule_id == "structure.aaa.combined"@ ==> finds(test, policy, rule_id) == (test.line_count
            > policy.aaa_min_lines && combined_findings(test).len() > 0),
        rule_id == "structure.aaa.out-of-order"@ ==> finds(test, policy, rule_id) == (
        test.line_count > policy.aaa_min_lines && out_of_order_findings(test).len() > 0),
        rule_id == "nondeterminism.fixed-sleep"@ ==> finds(test, policy, rule_id) == (
        hygiene_facts(test, HygieneKind::FixedSleep).len() > 0),
        rule_id == "nondeterminism.clock"@ ==> finds(test, policy, rule_id) == (hygiene_facts(
            test,
            HygieneKind::UncontrolledClock,
        ).len() > 0),
        rule_id == "nondeterminism.rng"@ ==> finds(test, policy, rule_id) == (hygiene_facts(
            test,
            HygieneKind::UncontrolledRandom,
        ).len() > 0),
        rule_id == "nondeterminism.environment"@ ==> finds(test, policy, rule_id) == (
        hygiene_facts(test, HygieneKind::ProcessEnvironment).len() > 0),
{
    rules_differ();
    checks_of_a_test(test, policy, rule_id);
    section_checks(test, rule_id);
    hygiene_checks(test, rule_id);
}

/// Whether a place comes before another in the text.
pub open spec fn comes_before(a: Position, b: Position) -> bool {
    a.line < b.line || (a.line == b.line && a.column < b.column)
}

/// Whether an oracle stands where it can see what the Act did: in the Act or the Assert
/// section, or anywhere in a test without sections.
pub open spec fn sees_the_act(test: TestCaseView, oracle: OracleFactView) -> bool {
    match oracle.section {
        Section::Act => true,
        Section::Assert => true,
        Section::Body => test.markers.len() == 0,
        Section::Arrange => false,
    }
}

/// Whether a marker opens the section that a place lies in: it does not come behind the
/// place, and no other marker lies between them.
pub open spec fn opens_section_at(markers: Seq<Marker>, m: int, place: Position) -> bool {
    &&& 0 <= m < markers.len()
    &&& !comes_before(place, markers[m].span.start)
    &&& forall|n: int|
        0 <= n < markers.len() && !comes_before(place, (#[trigger] markers[n]).span.start)
            ==> comes_before(markers[n].span.start, markers[m].span.start) || (n <= m
            && markers[n].span.start == markers[m].span.start)
}

/// Whether a gap leaves open if the test has an oracle: it is one of those that may hide an
/// assertion, and lies in the Act or the Assert section or in a test without sections.
pub open spec fn may_hide_an_oracle(markers: Seq<Marker>, gap: AnalysisGapView) -> bool {
    &&& {
        ||| gap.code == "analysis.conditional-oracle"@
        ||| gap.code == "analysis.partially-parsed-assertion"@
        ||| gap.code == "analysis.unresolved-assertion-helper"@
        ||| gap.code == "analysis.unresolved-scenario-delegate"@
        ||| gap.code == "analysis.unsupported-macro"@
    }
    &&& {
        ||| markers.len() == 0
        ||| exists|m: int| #[trigger]
            opens_section_at(markers, m, gap.location.span.start) && (markers[m].kind
                == MarkerKind::Act || markers[m].kind == MarkerKind::Assert)
    }
}

spec fn is_latest(s: Seq<Marker>, p: spec_fn(Marker) -> bool, m: int) -> bool {
    &&& 0 <= m < s.len()
    &&& p(s[m])
    &&& forall|n: int|
        0 <= n < s.len() && p(#[trigger] s[n]) ==> comes_before(s[n].span.start, s[m].span.start)
            || (n <= m && s[n].span.start == s[m].span.start)
}

proof fn latest_of_kept(s: Seq<Marker>, p: spec_fn(Marker) -> bool)
    ensures
        match latest_marker(keep(s, p)) {
            Some(best) => exists|m: int| #[trigger] is_latest(s, p, m) && s[m] == best,
            None => forall|n: int| 0 <= n < s.len() ==> !p(#[trigger] s[n]),
        },
    decreases s.len(),
{
    if s.len() > 0 {
        let rest = s.drop_last();
        let last = s.last();
        let end = s.len() - 1;
        latest_of_kept(rest, p);
        if p(last) {
            assert(keep(s, p).drop_last() =~= keep(rest, p));
        }
        match latest_marker(keep(rest, p)) {
            Some(best) => {
                let m = choose|m: int| #[trigger] is_latest(rest, p, m) && rest[m] == best;
                assert forall|n: int| 0 <= n < rest.len() implies #[trigger] s[n] == rest[n] by {}
                if p(last) && !last.span.start.precedes(best.span.start) {
                    assert forall|n: int| 0 <= n < s.len() && p(#[trigger] s[n]) implies (
                    comes_before(s[n].span.start, s[end].span.start) || (n <= end
                        && s[n].span.start == s[end].span.start)) by {
                        if n < end {
                            assert(rest[n] == s[n]);
                        }
                    }
                    assert(is_latest(s, p, end));
                } else {
                    assert forall|n: int| 0 <= n < s.len() && p(#[trigger] s[n]) implies (
                    comes_before(s[n].span.start, s[m].span.start) || (n <= m && s[n].span.start
                        == s[m].span.start)) by {
                        if n < end {
                            assert(rest[n] == s[n]);
                        }
                    }
                    assert(is_latest(s, p, m));
                }
            },
            None => {
                assert forall|n: int| 0 <= n < end implies !p(#[trigger] s[n]) by {
                    assert(rest[n] == s[n]);
                }
                if p(last) {
                    assert(is_latest(s, p, end));
                }
            },
        }
    }
}

/// What lies in the Act or the Assert section, by the marker that opens it.
proof fn section_of_a_gap(test: TestCaseView, gap: AnalysisGapView)
    ensures
        gap_after_act(test, gap) == {
            ||| test.markers.len() == 0
            ||| exists|m: int| #[trigger]
                opens_section_at(test.markers, m, gap.location.span.start) && (test.markers[m].kind
                    == MarkerKind::Act || test.markers[m].kind == MarkerKind::Assert)
        },
{
    let at = gap.location.span.start;
    let p = |m: Marker| !gap.location.span.start.precedes(m.span.start);
    latest_of_kept(test.markers, p);
    assert forall|m: int| #[trigger]
        opens_section_at(test.markers, m, at) == is_latest(test.markers, p, m) by {
        if is_latest(test.markers, p, m) {
            assert(opens_section_at(test.markers, m, at));
        }
        if opens_section_at(test.markers, m, at) {
            assert(is_latest(test.markers, p, m));
        }
    }
    match latest_marker(keep(test.markers, p)) {
        Some(best) => {
            let k = choose|m: int| #[trigger]
                is_latest(test.markers, p, m) && test.markers[m] == best;
            assert(opens_section_at(test.markers, k, at));
            assert forall|m: int| #[trigger] opens_section_at(test.markers, m, at) implies m == k by {
                assert(p(test.markers[m]) && p(test.markers[k]));
            }
        },
        None => {
            assert forall|m: int| !#[trigger] opens_section_at(test.markers, m, at) by {}
        },
    }
}

proof fn hidden_oracles(test: TestCaseView)
    ensures
        unresolved_oracle_gap(test) <==> exists|g: int|
            0 <= g < test.gaps.len() && may_hide_an_oracle(test.markers, #[trigger] test.gaps[g]),
{
    assert forall|g: int| 0 <= g < test.gaps.len() implies may_hide_an_oracle(
        test.markers,
        #[trigger] test.gaps[g],
    ) == (super::rules::oracle_gap_code(test.gaps[g].code) && gap_after_act(
        test,
        test.gaps[g],
    )) by {
        section_of_a_gap(test, test.gaps[g]);
    }
    if unresolved_oracle_gap(test) {
        let p = |g: AnalysisGapView|
            super::rules::oracle_gap_code(g.code) && gap_after_act(test, g);
        let g = choose|g: int| 0 <= g < test.gaps.len() && p(#[trigger] test.gaps[g]);
        assert(may_hide_an_oracle(test.markers, test.gaps[g]));
    }
    if exists|g: int|
        0 <= g < test.gaps.len() && may_hide_an_oracle(test.markers, #[trigger] test.gaps[g]) {
        let p = |g: AnalysisGapView|
            super::rules::oracle_gap_code(g.code) && gap_after_act(test, g);
        let g = choose|g: int|
            0 <= g < test.gaps.len() && may_hide_an_oracle(test.markers, #[trigger] test.gaps[g]);
        assert(p(test.gaps[g]));
    }
}

/// A test lacks an oracle exactly where it expects no panic, no oracle that always executes
/// can see what the Act did, and no gap may hide one. A test that expects a panic never
/// lacks an oracle.
pub proof fn missing_oracle_is_found(test: TestCaseView, policy: TestPolicyView)
    ensures
        finds(test, policy, "oracle.missing"@) <==> {
            &&& !test.should_panic
            &&& forall|i: int|
                0 <= i < test.oracles.len() ==> (#[trigger] test.oracles[i]).conditional
                    || !sees_the_act(test, test.oracles[i])
            &&& forall|g: int|
                0 <= g < test.gaps.len() ==> !may_hide_an_oracle(test.markers, #[trigger] test.gaps[g])
        },
{
    each_rule_has_its_check(test, policy, "oracle.missing"@);
    hidden_oracles(test);
    let p = |o: OracleFactView| post_act(test, o) && !o.conditional;
    kept_none(test.oracles, p);
    assert forall|i: int| 0 <= i < test.oracles.len() implies p(#[trigger] test.oracles[i]) == (
    !test.oracles[i].conditional && sees_the_act(test, test.oracles[i])) by {}
}

/// A test that expects a panic is never told that it lacks an oracle, and is told to name
/// the panic exactly where it names none or a blank one; another test is never told so.
pub proof fn expected_panics_are_oracles(test: TestCaseView, policy: TestPolicyView)
    ensures
        test.should_panic ==> !finds(test, policy, "oracle.missing"@),
        !test.should_panic ==> !finds(test, policy, "panic.missing-expected"@),
        test.should_panic ==> (finds(test, policy, "panic.missing-expected"@) <==> {
            ||| test.should_panic_expected is None
            ||| test.should_panic_expected matches Some(expected) && forall|i: int|
                0 <= i < expected.len() ==> is_whitespace(#[trigger] expected[i])
        }),
{
    missing_oracle_is_found(test, policy);
    each_rule_has_its_check(test, policy, "panic.missing-expected"@);
}

/// More oracles after the Act, or an expected panic, never make a test lack an oracle.
pub proof fn oracles_only_help(a: TestCaseView, b: TestCaseView, policy: TestPolicyView)
    requires
        a.markers == b.markers,
        a.gaps == b.gaps,
        a.should_panic ==> b.should_panic,
        forall|i: int| 0 <= i < a.oracles.len() ==> b.oracles.contains(#[trigger] a.oracles[i]),
    ensures
        finds(b, policy, "oracle.missing"@) ==> finds(a, policy, "oracle.missing"@),
{
    missing_oracle_is_found(a, policy);
    missing_oracle_is_found(b, policy);
    assert forall|i: int|
        finds(b, policy, "oracle.missing"@) && 0 <= i < a.oracles.len() implies (
    #[trigger] a.oracles[i]).conditional || !sees_the_act(a, a.oracles[i]) by {
        let k = b.oracles.index_of(a.oracles[i]);
        assert(b.oracles[k] == a.oracles[i]);
    }
}

/// An assertion is vacuous exactly where some oracle cannot fail, wherever it stands.
pub proof fn vacuous_oracle_is_found(test: TestCaseView, policy: TestPolicyView)
    ensures
        finds(test, policy, "oracle.vacuous"@) <==> exists|i: int|
            0 <= i < test.oracles.len() && (#[trigger] test.oracles[i]).tautological,
{
    each_rule_has_its_check(test, policy, "oracle.vacuous"@);
    let p = |o: OracleFactView| o.tautological;
    kept_none(test.oracles, p);
    if exists|i: int| 0 <= i < test.oracles.len() && (#[trigger] test.oracles[i]).tautological {
        let i = choose|i: int|
            0 <= i < test.oracles.len() && (#[trigger] test.oracles[i]).tautological;
        assert(p(test.oracles[i]));
    }
    if exists|i: int| 0 <= i < test.oracles.len() && p(#[trigger] test.oracles[i]) {
        let i = choose|i: int| 0 <= i < test.oracles.len() && p(#[trigger] test.oracles[i]);
        assert(test.oracles[i].tautological);
    }
}

/// Whether an oracle that always executes looks at an outcome after the Act.
pub open spec fn looks_at_an_outcome(test: TestCaseView, oracle: OracleFactView) -> bool {
    !oracle.conditional && sees_the_act(test, oracle) && oracle.kind != OracleKind::Interaction
}

/// Whether an oracle of the Assert section looks at an outcome.
pub open spec fn asserts_an_outcome(test: TestCaseView) -> bool {
    exists|j: int|
        0 <= j < test.oracles.len() && (#[trigger] test.oracles[j]).section == Section::Assert
            && looks_at_an_outcome(test, test.oracles[j])
}

/// Whether an oracle is held against the Act: it looks at an outcome, and where some oracle
/// of the Assert section does, it is one of those.
pub open spec fn is_held_against_the_act(test: TestCaseView, oracle: OracleFactView) -> bool {
    looks_at_an_outcome(test, oracle) && (oracle.section == Section::Assert
        || !asserts_an_outcome(test))
}

/// Whether an oracle mentions a name.
pub open spec fn mentions(oracle: OracleFactView, name: Seq<char>) -> bool {
    oracle.actual_identifiers.contains(name) || oracle.expected_identifiers.contains(name)
}

/// Whether a gap leaves open if an oracle observes the Act.
pub open spec fn may_hide_a_cause(gap: AnalysisGapView, oracle: OracleFactView) -> bool {
    let inner = gap.location.span;
    ||| inner == oracle.span && (gap.code == "analysis.indirect-causality"@ || gap.code
        == "analysis.receiver-effect-causality"@ || gap.code
        == "analysis.shared-reference-effect-causality"@)
    ||| !comes_before(inner.start, oracle.span.start) && !comes_before(
        oracle.span.end,
        inner.end,
    ) && (gap.code == "analysis.partially-parsed-assertion"@ || gap.code
        == "analysis.unsupported-macro"@ || gap.code == "analysis.implicit-format-capture"@)
}

/// Whether an oracle surely observes nothing of the Act: it stands outside of it, mentions
/// nothing that the Act gives or changes, and no gap may hide that it does.
pub open spec fn observes_nothing(test: TestCaseView, oracle: OracleFactView) -> bool {
    &&& oracle.section != Section::Act
    &&& forall|name: Seq<char>| #[trigger]
        mentions(oracle, name) ==> !test.act_outputs.contains(name) && !test.act_effects.contains(
            name,
        )
    &&& forall|g: int|
        0 <= g < test.gaps.len() ==> !may_hide_a_cause(#[trigger] test.gaps[g], oracle)
}

proof fn observing_nothing(test: TestCaseView, oracle: OracleFactView)
    ensures
        observes_nothing(test, oracle) == super::rules::disconnected(test, oracle),
{
    let names = super::rules::oracle_names(oracle);
    assert forall|name: Seq<char>| #[trigger] mentions(oracle, name) == names.contains(name) by {}
    if names.disjoint(test.act_outputs) && names.disjoint(test.act_effects) {
        assert forall|name: Seq<char>| #[trigger] mentions(oracle, name) implies (
        !test.act_outputs.contains(name) && !test.act_effects.contains(name)) by {
            assert(names.contains(name));
        }
    }
    if observes_nothing(test, oracle) {
        assert forall|name: Seq<char>| names.contains(name) implies !test.act_outputs.contains(
            name,
        ) && !test.act_effects.contains(name) by {
            assert(mentions(oracle, name));
        }
    }
    assert forall|g: int| 0 <= g < test.gaps.len() implies may_hide_a_cause(
        #[trigger] test.gaps[g],
        oracle,
    ) == gap_covers_oracle(test.gaps[g], oracle) by {}
    let p = |g: AnalysisGapView| gap_covers_oracle(g, oracle);
    if super::rules::indirect_causality_gap(test, oracle) {
        let g = choose|g: int| 0 <= g < test.gaps.len() && p(#[trigger] test.gaps[g]);
        assert(may_hide_a_cause(test.gaps[g], oracle));
    }
    if exists|g: int|
        0 <= g < test.gaps.len() && may_hide_a_cause(#[trigger] test.gaps[g], oracle) {
        let g = choose|g: int|
            0 <= g < test.gaps.len() && may_hide_a_cause(#[trigger] test.gaps[g], oracle);
        assert(p(test.gaps[g]));
    }
}

proof fn held_against_the_act(test: TestCaseView, oracle: OracleFactView)
    ensures
        disconnected_candidates_of(test).contains(oracle) <==> test.oracles.contains(oracle)
            && is_held_against_the_act(test, oracle),
{
    let p = |o: OracleFactView| post_act(test, o) && !o.conditional;
    let q = |o: OracleFactView| o.kind != OracleKind::Interaction;
    let r = |o: OracleFactView| o.section == Section::Assert;
    let outcomes = outcome_oracles_of(test);
    let asserted = keep(outcomes, r);
    assert forall|o: OracleFactView| #[trigger] outcomes.contains(o) == (test.oracles.contains(o)
        && looks_at_an_outcome(test, o)) by {
        in_keep(test.oracles, p, o);
        in_keep(post_act_oracles_of(test), q, o);
    }
    in_keep(outcomes, r, oracle);
    kept_none(outcomes, r);
    if asserted.len() == 0 {
        assert forall|j: int|
            0 <= j < test.oracles.len() && (#[trigger] test.oracles[j]).section
                == Section::Assert implies !looks_at_an_outcome(test, test.oracles[j]) by {
            if looks_at_an_outcome(test, test.oracles[j]) {
                assert(test.oracles.contains(test.oracles[j]));
                assert(outcomes.contains(test.oracles[j]));
                let k = outcomes.index_of(test.oracles[j]);
                assert(r(outcomes[k]));
            }
        }
    } else {
        let k = choose|k: int| 0 <= k < outcomes.len() && r(#[trigger] outcomes[k]);
        assert(outcomes.contains(outcomes[k]));
        let j = test.oracles.index_of(outcomes[k]);
        assert(test.oracles[j] == outcomes[k]);
        assert(test.oracles[j].section == Section::Assert);
    }
}

/// Whether a test has exactly one marker of a kind.
pub open spec fn has_one_marker(test: TestCaseView, kind: MarkerKind) -> bool {
    &&& exists|i: int| 0 <= i < test.markers.len() && (#[trigger] test.markers[i]).kind == kind
    &&& forall|i: int, j: int|
        0 <= i < test.markers.len() && 0 <= j < test.markers.len() && (
        #[trigger] test.markers[i]).kind == kind && (#[trigger] test.markers[j]).kind == kind
            ==> i == j
}

pub(crate) proof fn one_marker(test: TestCaseView, kind: MarkerKind)
    ensures
        has_one_marker(test, kind) == (markers_of(test, kind).len() == 1),
        (exists|i: int| 0 <= i < test.markers.len() && (#[trigger] test.markers[i]).kind == kind)
            == (markers_of(test, kind).len() > 0),
        (exists|i: int, j: int|
            0 <= i < j < test.markers.len() && (#[trigger] test.markers[i]).kind == kind && (
            #[trigger] test.markers[j]).kind == kind) == (markers_of(test, kind).len() > 1),
{
    some_marker(test, kind);
    two_markers(test, kind);
}

proof fn some_marker(test: TestCaseView, kind: MarkerKind)
    ensures
        (exists|i: int| 0 <= i < test.markers.len() && (#[trigger] test.markers[i]).kind == kind)
            == (markers_of(test, kind).len() > 0),
{
    let p = |m: Marker| m.kind == kind;
    kept_none(test.markers, p);
    if exists|i: int| 0 <= i < test.markers.len() && (#[trigger] test.markers[i]).kind == kind {
        let i = choose|i: int|
            0 <= i < test.markers.len() && (#[trigger] test.markers[i]).kind == kind;
        assert(p(test.markers[i]));
    }
    if exists|i: int| 0 <= i < test.markers.len() && p(#[trigger] test.markers[i]) {
        let i = choose|i: int| 0 <= i < test.markers.len() && p(#[trigger] test.markers[i]);
        assert(test.markers[i].kind == kind);
    }
}

proof fn two_markers(test: TestCaseView, kind: MarkerKind)
    ensures
        (exists|i: int, j: int|
            0 <= i < j < test.markers.len() && (#[trigger] test.markers[i]).kind == kind && (
            #[trigger] test.markers[j]).kind == kind) == (markers_of(test, kind).len() > 1),
{
    let p = |m: Marker| m.kind == kind;
    kept_many(test.markers, p);
    if exists|i: int, j: int|
        0 <= i < j < test.markers.len() && (#[trigger] test.markers[i]).kind == kind && (
        #[trigger] test.markers[j]).kind == kind {
        let (i, j) = choose|i: int, j: int|
            0 <= i < j < test.markers.len() && (#[trigger] test.markers[i]).kind == kind && (
            #[trigger] test.markers[j]).kind == kind;
        assert(p(test.markers[i]) && p(test.markers[j]));
    }
    if markers_of(test, kind).len() > 1 {
        let (i, j) = choose|i: int, j: int|
            0 <= i < j < test.markers.len() && p(#[trigger] test.markers[i]) && p(
                #[trigger] test.markers[j],
            );
        assert(test.markers[i].kind == kind && test.markers[j].kind == kind);
    }
}

/// The assertions of a test are disconnected from its Act exactly where it has one Act, no
/// gap blurs what the Act gives, some oracle is held against the Act, and every one of them
/// surely observes nothing of it.
pub proof fn disconnected_oracles_are_found(test: TestCaseView, policy: TestPolicyView)
    ensures
        finds(test, policy, "oracle.disconnected"@) <==> {
            &&& has_one_marker(test, MarkerKind::Act)
            &&& forall|g: int|
                0 <= g < test.gaps.len() ==> (#[trigger] test.gaps[g]).code
                    != "analysis.shadowed-binding"@ && test.gaps[g].code
                    != "analysis.pattern-causality"@ && test.gaps[g].code
                    != "analysis.unresolved-act-computation"@
            &&& exists|i: int|
                0 <= i < test.oracles.len() && is_held_against_the_act(
                    test,
                    #[trigger] test.oracles[i],
                )
            &&& forall|i: int|
                0 <= i < test.oracles.len() && is_held_against_the_act(
                    test,
                    #[trigger] test.oracles[i],
                ) ==> observes_nothing(test, test.oracles[i])
        },
{
    each_rule_has_its_check(test, policy, "oracle.disconnected"@);
    one_marker(test, MarkerKind::Act);
    no_blurred_cause(test);
    some_oracle_is_held(test);
    all_oracles_held(test);
}

proof fn no_blurred_cause(test: TestCaseView)
    ensures
        super::rules::causality_gap(test) <==> !(forall|g: int|
            0 <= g < test.gaps.len() ==> (#[trigger] test.gaps[g]).code
                != "analysis.shadowed-binding"@ && test.gaps[g].code
                != "analysis.pattern-causality"@ && test.gaps[g].code
                != "analysis.unresolved-act-computation"@),
{
    let q = |g: AnalysisGapView| super::rules::causality_gap_code(g.code);
    if super::rules::causality_gap(test) {
        let g = choose|g: int| 0 <= g < test.gaps.len() && q(#[trigger] test.gaps[g]);
        assert(q(test.gaps[g]));
    } else {
        assert forall|g: int| 0 <= g < test.gaps.len() implies !q(#[trigger] test.gaps[g]) by {}
    }
}

proof fn some_oracle_is_held(test: TestCaseView)
    ensures
        disconnected_candidates_of(test).len() > 0 <==> exists|i: int|
            0 <= i < test.oracles.len() && is_held_against_the_act(
                test,
                #[trigger] test.oracles[i],
            ),
{
    let all = disconnected_candidates_of(test);
    if all.len() > 0 {
        let x = all[0];
        assert(all.contains(x));
        held_against_the_act(test, x);
        let i = test.oracles.index_of(x);
        assert(test.oracles[i] == x);
        assert(is_held_against_the_act(test, test.oracles[i]));
    }
    if exists|i: int|
        0 <= i < test.oracles.len() && is_held_against_the_act(test, #[trigger] test.oracles[i]) {
        let i = choose|i: int|
            0 <= i < test.oracles.len() && is_held_against_the_act(
                test,
                #[trigger] test.oracles[i],
            );
        let x = test.oracles[i];
        assert(test.oracles.contains(x));
        held_against_the_act(test, x);
    }
}

proof fn all_oracles_held(test: TestCaseView)
    ensures
        every(
            disconnected_candidates_of(test),
            |o: OracleFactView| super::rules::disconnected(test, o),
        ) <==> forall|i: int|
            0 <= i < test.oracles.len() && is_held_against_the_act(
                test,
                #[trigger] test.oracles[i],
            ) ==> observes_nothing(test, test.oracles[i]),
{
    let all = disconnected_candidates_of(test);
    let p = |o: OracleFactView| super::rules::disconnected(test, o);
    if every(all, p) {
        assert forall|i: int|
            0 <= i < test.oracles.len() && is_held_against_the_act(
                test,
                #[trigger] test.oracles[i],
            ) implies observes_nothing(test, test.oracles[i]) by {
            let x = test.oracles[i];
            assert(test.oracles.contains(x));
            held_against_the_act(test, x);
            let k = all.index_of(x);
            assert(p(all[k]));
            observing_nothing(test, x);
        }
    }
    if forall|i: int|
        0 <= i < test.oracles.len() && is_held_against_the_act(test, #[trigger] test.oracles[i])
            ==> observes_nothing(test, test.oracles[i]) {
        assert forall|k: int| 0 <= k < all.len() implies p(#[trigger] all[k]) by {
            let x = all[k];
            assert(all.contains(x));
            held_against_the_act(test, x);
            let i = test.oracles.index_of(x);
            assert(test.oracles[i] == x);
            observing_nothing(test, x);
        }
    }
}

/// A name is found wanting exactly where it does not start with `should_`.
pub proof fn names_start_with_should(test: TestCaseView, policy: TestPolicyView)
    ensures
        finds(test, policy, "naming.should-prefix"@) <==> !"should_"@.is_prefix_of(test.name),
{
    each_rule_has_its_check(test, policy, "naming.should-prefix"@);
    reveal_strlit("should_");
    if "should_"@.is_prefix_of(test.name) {
        assert(test.name.subrange(0, 7) =~= "should_"@);
    }
}

/// A test that is ignored has to say why, in more than blanks.
pub proof fn ignored_tests_say_why(test: TestCaseView, policy: TestPolicyView)
    ensures
        finds(test, policy, "ignore.missing-reason"@) <==> (test.ignored matches Some(reason)
            && forall|i: int| 0 <= i < reason.len() ==> is_whitespace(#[trigger] reason[i])),
{
    each_rule_has_its_check(test, policy, "ignore.missing-reason"@);
}

/// A test has more than one Act exactly where two markers open one, however short it is.
pub proof fn second_act_is_found(test: TestCaseView, policy: TestPolicyView)
    ensures
        finds(test, policy, "behavior.multiple-acts"@) <==> exists|i: int, j: int|
            0 <= i < j < test.markers.len() && (#[trigger] test.markers[i]).kind
                == MarkerKind::Act && (#[trigger] test.markers[j]).kind == MarkerKind::Act,
{
    each_rule_has_its_check(test, policy, "behavior.multiple-acts"@);
    one_marker(test, MarkerKind::Act);
}

/// In a test with more lines than the policy lets go without sections, a section is missing
/// exactly where no marker opens it, or one does and no statement follows. Shorter tests
/// need no sections.
pub proof fn missing_sections_are_found(test: TestCaseView, policy: TestPolicyView)
    ensures
        finds(test, policy, "structure.aaa.missing-arrange"@) <==> test.line_count
            > policy.aaa_min_lines && {
            ||| forall|i: int|
                0 <= i < test.markers.len() ==> (#[trigger] test.markers[i]).kind
                    != MarkerKind::Arrange
            ||| has_one_marker(test, MarkerKind::Arrange) && test.section_statements.arrange == 0
        },
        finds(test, policy, "structure.aaa.missing-act"@) <==> test.line_count
            > policy.aaa_min_lines && {
            ||| forall|i: int|
                0 <= i < test.markers.len() ==> (#[trigger] test.markers[i]).kind
                    != MarkerKind::Act
            ||| has_one_marker(test, MarkerKind::Act) && test.section_statements.act == 0
        },
        finds(test, policy, "structure.aaa.missing-assert"@) <==> test.line_count
            > policy.aaa_min_lines && {
            ||| forall|i: int|
                0 <= i < test.markers.len() ==> (#[trigger] test.markers[i]).kind
                    != MarkerKind::Assert
            ||| has_one_marker(test, MarkerKind::Assert) && test.section_statements.assert == 0
        },
{
    each_rule_has_its_check(test, policy, "structure.aaa.missing-arrange"@);
    each_rule_has_its_check(test, policy, "structure.aaa.missing-act"@);
    each_rule_has_its_check(test, policy, "structure.aaa.missing-assert"@);
    one_marker(test, MarkerKind::Arrange);
    one_marker(test, MarkerKind::Act);
    one_marker(test, MarkerKind::Assert);
}

/// Whether a marker is the first of its kind.
pub open spec fn is_first_of(test: TestCaseView, kind: MarkerKind, i: int) -> bool {
    0 <= i < test.markers.len() && test.markers[i].kind == kind && forall|j: int|
        0 <= j < i ==> (#[trigger] test.markers[j]).kind != kind
}

proof fn first_marker(test: TestCaseView, kind: MarkerKind)
    ensures
        markers_of(test, kind).len() > 0 ==> exists|i: int| #[trigger]
            is_first_of(test, kind, i),
        forall|i: int| #[trigger]
            is_first_of(test, kind, i) ==> markers_of(test, kind).len() > 0 && markers_of(
                test,
                kind,
            )[0] == test.markers[i],
{
    let p = |m: Marker| m.kind == kind;
    assert forall|i: int| #[trigger] is_first_of(test, kind, i) implies markers_of(
        test,
        kind,
    ).len() > 0 && markers_of(test, kind)[0] == test.markers[i] by {
        kept_first(test.markers, p, i);
    }
    if markers_of(test, kind).len() > 0 {
        one_marker(test, kind);
        let i = choose|i: int|
            0 <= i < test.markers.len() && (#[trigger] test.markers[i]).kind == kind;
        least_of_a_kind(test, kind, i);
    }
}

proof fn least_of_a_kind(test: TestCaseView, kind: MarkerKind, i: int)
    requires
        0 <= i < test.markers.len(),
        test.markers[i].kind == kind,
    ensures
        exists|k: int| #[trigger] is_first_of(test, kind, k),
    decreases i,
{
    if exists|j: int| 0 <= j < i && (#[trigger] test.markers[j]).kind == kind {
        let j = choose|j: int| 0 <= j < i && (#[trigger] test.markers[j]).kind == kind;
        least_of_a_kind(test, kind, j);
    } else {
        assert(is_first_of(test, kind, i));
    }
}

/// In a test that needs sections, they are out of order exactly where Arrange or Assert is
/// opened twice, or all three are opened and the first Arrange, the first Act and the first
/// Assert do not stand on ascending lines.
pub proof fn disorder_is_found(test: TestCaseView, policy: TestPolicyView)
    ensures
        finds(test, policy, "structure.aaa.out-of-order"@) <==> test.line_count
            > policy.aaa_min_lines && {
            ||| exists|i: int, j: int|
                0 <= i < j < test.markers.len() && (#[trigger] test.markers[i]).kind
                    == MarkerKind::Arrange && (#[trigger] test.markers[j]).kind
                    == MarkerKind::Arrange
            ||| exists|i: int, j: int|
                0 <= i < j < test.markers.len() && (#[trigger] test.markers[i]).kind
                    == MarkerKind::Assert && (#[trigger] test.markers[j]).kind
                    == MarkerKind::Assert
            ||| exists|a: int, b: int, c: int|
                #![trigger is_first_of(test, MarkerKind::Arrange, a), is_first_of(test, MarkerKind::Act, b), is_first_of(test, MarkerKind::Assert, c)]
                is_first_of(test, MarkerKind::Arrange, a) && is_first_of(test, MarkerKind::Act, b)
                    && is_first_of(test, MarkerKind::Assert, c) && (
                test.markers[b].span.start.line <= test.markers[a].span.start.line
                    || test.markers[c].span.start.line <= test.markers[b].span.start.line)
        },
{
    each_rule_has_its_check(test, policy, "structure.aaa.out-of-order"@);
    one_marker(test, MarkerKind::Arrange);
    one_marker(test, MarkerKind::Act);
    one_marker(test, MarkerKind::Assert);
    first_marker(test, MarkerKind::Arrange);
    first_marker(test, MarkerKind::Act);
    first_marker(test, MarkerKind::Assert);
    if markers_of(test, MarkerKind::Arrange).len() > 0 && markers_of(test, MarkerKind::Act).len()
        > 0 && markers_of(test, MarkerKind::Assert).len() > 0 {
        let a = choose|i: int| #[trigger] is_first_of(test, MarkerKind::Arrange, i);
        let b = choose|i: int| #[trigger] is_first_of(test, MarkerKind::Act, i);
        let c = choose|i: int| #[trigger] is_first_of(test, MarkerKind::Assert, i);
        assert(is_first_of(test, MarkerKind::Arrange, a));
        assert(is_first_of(test, MarkerKind::Act, b));
        assert(is_first_of(test, MarkerKind::Assert, c));
    }
}

/// In a test that needs sections, a marker that says more than the name of a section is
/// found.
pub proof fn combined_markers_are_found(test: TestCaseView, policy: TestPolicyView)
    ensures
        finds(test, policy, "structure.aaa.combined"@) <==> test.line_count > policy.aaa_min_lines
            && exists|i: int| 0 <= i < test.markers.len() && (#[trigger] test.markers[i]).combined,
{
    each_rule_has_its_check(test, policy, "structure.aaa.combined"@);
    let p = |m: Marker| m.combined;
    kept_none(test.markers, p);
    if exists|i: int| 0 <= i < test.markers.len() && (#[trigger] test.markers[i]).combined {
        let i = choose|i: int| 0 <= i < test.markers.len() && (#[trigger] test.markers[i]).combined;
        assert(p(test.markers[i]));
    }
    if exists|i: int| 0 <= i < test.markers.len() && p(#[trigger] test.markers[i]) {
        let i = choose|i: int| 0 <= i < test.markers.len() && p(#[trigger] test.markers[i]);
        assert(test.markers[i].combined);
    }
}

/// A test sleeps, draws random numbers or changes the environment exactly where one of its
/// calls does, wherever it stands.
pub proof fn nondeterminism_is_found(test: TestCaseView, policy: TestPolicyView)
    ensures
        finds(test, policy, "nondeterminism.fixed-sleep"@) <==> exists|i: int|
            0 <= i < test.hygiene.len() && (#[trigger] test.hygiene[i]).kind
                == HygieneKind::FixedSleep,
        finds(test, policy, "nondeterminism.rng"@) <==> exists|i: int|
            0 <= i < test.hygiene.len() && (#[trigger] test.hygiene[i]).kind
                == HygieneKind::UncontrolledRandom,
        finds(test, policy, "nondeterminism.environment"@) <==> exists|i: int|
            0 <= i < test.hygiene.len() && (#[trigger] test.hygiene[i]).kind
                == HygieneKind::ProcessEnvironment,
{
    each_rule_has_its_check(test, policy, "nondeterminism.fixed-sleep"@);
    each_rule_has_its_check(test, policy, "nondeterminism.rng"@);
    each_rule_has_its_check(test, policy, "nondeterminism.environment"@);
    facts_of_a_kind(test, HygieneKind::FixedSleep);
    facts_of_a_kind(test, HygieneKind::UncontrolledRandom);
    facts_of_a_kind(test, HygieneKind::ProcessEnvironment);
}

proof fn facts_of_a_kind(test: TestCaseView, kind: HygieneKind)
    requires
        kind != HygieneKind::UncontrolledClock,
    ensures
        hygiene_facts(test, kind).len() > 0 <==> exists|i: int|
            0 <= i < test.hygiene.len() && (#[trigger] test.hygiene[i]).kind == kind,
{
    let p = |f: HygieneFactView|
        f.kind == kind && (kind != HygieneKind::UncontrolledClock || super::rules::clock_matters(
            test,
            f,
        ));
    kept_none(test.hygiene, p);
    if hygiene_facts(test, kind).len() > 0 {
        let i = choose|i: int| 0 <= i < test.hygiene.len() && p(#[trigger] test.hygiene[i]);
        assert(test.hygiene[i].kind == kind);
    }
    if exists|i: int| 0 <= i < test.hygiene.len() && (#[trigger] test.hygiene[i]).kind == kind {
        let i = choose|i: int|
            0 <= i < test.hygiene.len() && (#[trigger] test.hygiene[i]).kind == kind;
        assert(p(test.hygiene[i]));
    }
}

/// Whether a reading of the clock can change what a test asserts: it stands in an oracle,
/// some oracle that always executes mentions a value that comes from the clock, or it stands
/// inside of another call of the Act.
pub open spec fn clock_decides(test: TestCaseView, fact: HygieneFactView) -> bool {
    ||| fact.in_oracle
    ||| exists|i: int, name: Seq<char>|
        0 <= i < test.oracles.len() && !test.oracles[i].conditional && #[trigger] mentions(
            test.oracles[i],
            name,
        ) && test.uncontrolled_clock_outputs.contains(name)
    ||| fact.section == Section::Act && exists|i: int|
        0 <= i < test.calls.len() && (#[trigger] test.calls[i]).section == Section::Act
            && test.calls[i].span != fact.span && !comes_before(
            fact.span.start,
            test.calls[i].span.start,
        ) && !comes_before(test.calls[i].span.end, fact.span.end)
}

proof fn clock_deciding(test: TestCaseView, fact: HygieneFactView)
    ensures
        clock_decides(test, fact) == super::rules::clock_matters(test, fact),
{
    if exists|i: int|
        0 <= i < test.oracles.len() && super::rules::reads_clock_output(
            test,
            #[trigger] test.oracles[i],
        ) {
        let i = choose|i: int|
            0 <= i < test.oracles.len() && super::rules::reads_clock_output(
                test,
                #[trigger] test.oracles[i],
            );
        let names = super::rules::oracle_names(test.oracles[i]);
        let name = choose|name: Seq<char>|
            names.contains(name) && test.uncontrolled_clock_outputs.contains(name);
        assert(mentions(test.oracles[i], name));
    }
    if exists|i: int, name: Seq<char>|
        0 <= i < test.oracles.len() && !test.oracles[i].conditional && #[trigger] mentions(
            test.oracles[i],
            name,
        ) && test.uncontrolled_clock_outputs.contains(name) {
        let (i, name) = choose|i: int, name: Seq<char>|
            0 <= i < test.oracles.len() && !test.oracles[i].conditional && #[trigger] mentions(
                test.oracles[i],
                name,
            ) && test.uncontrolled_clock_outputs.contains(name);
        assert(super::rules::oracle_names(test.oracles[i]).contains(name));
        assert(super::rules::reads_clock_output(test, test.oracles[i]));
    }
    if exists|i: int|
        0 <= i < test.calls.len() && (#[trigger] test.calls[i]).section == Section::Act
            && test.calls[i].span != fact.span && test.calls[i].span.encloses(fact.span) {
        let i = choose|i: int|
            0 <= i < test.calls.len() && (#[trigger] test.calls[i]).section == Section::Act
                && test.calls[i].span != fact.span && test.calls[i].span.encloses(fact.span);
        assert(test.calls[i].section == Section::Act);
    }
}

/// A test depends on the clock exactly where one of its readings can change what it asserts.
pub proof fn clock_is_found(test: TestCaseView, policy: TestPolicyView)
    ensures
        finds(test, policy, "nondeterminism.clock"@) <==> exists|i: int|
            0 <= i < test.hygiene.len() && (#[trigger] test.hygiene[i]).kind
                == HygieneKind::UncontrolledClock && clock_decides(test, test.hygiene[i]),
{
    each_rule_has_its_check(test, policy, "nondeterminism.clock"@);
    let kind = HygieneKind::UncontrolledClock;
    let p = |f: HygieneFactView|
        f.kind == kind && (kind != HygieneKind::UncontrolledClock || super::rules::clock_matters(
            test,
            f,
        ));
    kept_none(test.hygiene, p);
    assert forall|i: int| 0 <= i < test.hygiene.len() implies p(#[trigger] test.hygiene[i]) == (
    test.hygiene[i].kind == kind && clock_decides(test, test.hygiene[i])) by {
        clock_deciding(test, test.hygiene[i]);
    }
    if exists|i: int| 0 <= i < test.hygiene.len() && p(#[trigger] test.hygiene[i]) {
        let i = choose|i: int| 0 <= i < test.hygiene.len() && p(#[trigger] test.hygiene[i]);
        assert(test.hygiene[i].kind == kind);
    }
    if exists|i: int|
        0 <= i < test.hygiene.len() && (#[trigger] test.hygiene[i]).kind == kind && clock_decides(
            test,
            test.hygiene[i],
        ) {
        let i = choose|i: int|
            0 <= i < test.hygiene.len() && (#[trigger] test.hygiene[i]).kind == kind
                && clock_decides(test, test.hygiene[i]);
        assert(p(test.hygiene[i]));
    }
}

/// Nothing but the sixteen rules is found in a test.
pub proof fn findings_are_of_known_rules(test: TestCaseView, policy: TestPolicyView, k: int)
    requires
        0 <= k < test_findings(test, policy).len(),
    ensures
        ({
            let rule_id = test_findings(test, policy)[k].rule_id;
            ||| rule_id == "naming.should-prefix"@
            ||| rule_id == "structure.aaa.missing-arrange"@
            ||| rule_id == "structure.aaa.missing-act"@
            ||| rule_id == "structure.aaa.missing-assert"@
            ||| rule_id == "structure.aaa.out-of-order"@
            ||| rule_id == "structure.aaa.combined"@
            ||| rule_id == "behavior.multiple-acts"@
            ||| rule_id == "ignore.missing-reason"@
            ||| rule_id == "oracle.missing"@
            ||| rule_id == "oracle.vacuous"@
            ||| rule_id == "oracle.disconnected"@
            ||| rule_id == "panic.missing-expected"@
            ||| rule_id == "nondeterminism.fixed-sleep"@
            ||| rule_id == "nondeterminism.clock"@
            ||| rule_id == "nondeterminism.rng"@
            ||| rule_id == "nondeterminism.environment"@
        }),
{
    let rule_id = test_findings(test, policy)[k].rule_id;
    assert(finds(test, policy, rule_id));
    checks_of_a_test(test, policy, rule_id);
    section_checks(test, rule_id);
    hygiene_checks(test, rule_id);
}

} // verus!
