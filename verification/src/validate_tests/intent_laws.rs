//! When a test is asked what it means to prove, and what becomes of all findings.

use vstd::prelude::*;

use super::config::{exemption_for, TestPolicyView};
use super::model::{
    AnalysisGapView, AppliedExemption, AppliedExemptionView, Finding, FindingView, MarkerKind,
    OracleFactView, OracleKind, TestCaseView,
};
use super::rule_laws::{has_one_marker, mentions, one_marker, sees_the_act};
use super::rules::{
    accepted, accepted_findings, checks_broad_error, closed_set_holds_error_names, error_names,
    error_names_in, extracts, intent_gaps_of, interaction_only_gaps, oracle_names,
    post_act_oracles_of, precise_error_oracle, reported, reported_findings, self_derived,
    self_derived_gaps, test_findings, uninspected_error_gaps, ByPlace, ByTest,
};
use crate::order::{sorted, sorted_keeps_values, Order};
use crate::seqs::{every, first_where, first_where_none, in_keep, kept_none};
use crate::text::text_less;

verus! {

/// Whether one of some gaps has a code.
pub open spec fn has_code(gaps: Seq<AnalysisGapView>, code: Seq<char>) -> bool {
    exists|k: int| 0 <= k < gaps.len() && (#[trigger] gaps[k]).code == code
}

/// Whether a gap blurs what the Act gives.
pub open spec fn cause_is_blurred(test: TestCaseView) -> bool {
    exists|g: int|
        0 <= g < test.gaps.len() && ((#[trigger] test.gaps[g]).code
            == "analysis.shadowed-binding"@ || test.gaps[g].code == "analysis.pattern-causality"@
            || test.gaps[g].code == "analysis.unresolved-act-computation"@)
}

/// Whether some of some names is what the Act gives or changes.
pub open spec fn names_the_act(test: TestCaseView, names: Set<Seq<char>>) -> bool {
    exists|name: Seq<char>| #[trigger]
        names.contains(name) && (test.act_outputs.contains(name) || test.act_effects.contains(name))
}

/// Whether an oracle compares what the Act gave with the Act's own call made again: it
/// always executes, can fail, sees the one Act with its one call, and on one side names the
/// Act and on the other repeats that call.
pub open spec fn repeats_the_act(test: TestCaseView, oracle: OracleFactView) -> bool {
    &&& oracle.self_derived_candidate
    &&& !oracle.conditional
    &&& !oracle.tautological
    &&& sees_the_act(test, oracle)
    &&& !cause_is_blurred(test)
    &&& has_one_marker(test, MarkerKind::Act)
    &&& test.act_root_calls.len() == 1
    &&& {
        ||| names_the_act(test, oracle.actual_identifiers) && (oracle.expected_root_call matches Some(
            call,
        ) && test.act_root_calls.contains(call))
        ||| names_the_act(test, oracle.expected_identifiers) && (
        oracle.actual_root_call matches Some(call) && test.act_root_calls.contains(call))
    }
}

proof fn naming_the_act(test: TestCaseView, names: Set<Seq<char>>)
    ensures
        names_the_act(test, names) == super::rules::observes_act(names, test),
{
    if !names.disjoint(test.act_outputs) {
        let name = choose|name: Seq<char>| names.contains(name) && test.act_outputs.contains(name);
        assert(names.contains(name));
    }
    if !names.disjoint(test.act_effects) {
        let name = choose|name: Seq<char>| names.contains(name) && test.act_effects.contains(name);
        assert(names.contains(name));
    }
}

proof fn repeating_the_act(test: TestCaseView, oracle: OracleFactView)
    ensures
        repeats_the_act(test, oracle) == self_derived(test, oracle),
{
    naming_the_act(test, oracle.actual_identifiers);
    naming_the_act(test, oracle.expected_identifiers);
    one_marker(test, MarkerKind::Act);
    let q = |g: AnalysisGapView| super::rules::causality_gap_code(g.code);
    if super::rules::causality_gap(test) {
        let g = choose|g: int| 0 <= g < test.gaps.len() && q(#[trigger] test.gaps[g]);
        assert(q(test.gaps[g]));
    }
    if cause_is_blurred(test) {
        let g = choose|g: int|
            0 <= g < test.gaps.len() && ((#[trigger] test.gaps[g]).code
                == "analysis.shadowed-binding"@ || test.gaps[g].code
                == "analysis.pattern-causality"@ || test.gaps[g].code
                == "analysis.unresolved-act-computation"@);
        assert(q(test.gaps[g]));
    }
}

pub(crate) proof fn first_exists<A>(s: Seq<A>, p: spec_fn(A) -> bool)
    ensures
        first_where(s, p) is Some <==> exists|i: int| 0 <= i < s.len() && p(#[trigger] s[i]),
    decreases s.len(),
{
    if exists|i: int| 0 <= i < s.len() && p(#[trigger] s[i]) {
        if !p(s[0]) {
            let i = choose|i: int| 0 <= i < s.len() && p(#[trigger] s[i]);
            assert(s.skip(1)[i - 1] == s[i]);
            first_exists(s.skip(1), p);
        }
    } else {
        first_where_none(s, p);
    }
}

/// Whether a set of names holds what an error check names and binds, and with a name of an
/// error check everything that this check binds.
pub open spec fn holds_the_error(
    test: TestCaseView,
    check: OracleFactView,
    names: Set<Seq<char>>,
) -> bool {
    &&& forall|name: Seq<char>|
        mentions(check, name) || check.produced_identifiers.contains(name) ==> #[trigger] names.contains(
            name,
        )
    &&& forall|i: int, name: Seq<char>|
        0 <= i < test.oracles.len() && only_checks_for_an_error(test, #[trigger] test.oracles[i])
            && #[trigger] mentions(test.oracles[i], name) && names.contains(name)
            ==> test.oracles[i].produced_identifiers.subset_of(names)
}

/// Whether an oracle that always executes checks after the Act for an error and no more.
pub open spec fn only_checks_for_an_error(test: TestCaseView, oracle: OracleFactView) -> bool {
    !oracle.conditional && sees_the_act(test, oracle) && oracle.kind == OracleKind::BroadError
}

/// A name carries the error of a check exactly where every set that holds the error has it.
pub proof fn error_names_are_the_least(
    test: TestCaseView,
    check: OracleFactView,
    name: Seq<char>,
)
    ensures
        error_names(test, check).contains(name) <==> forall|names: Set<Seq<char>>| #[trigger]
            holds_the_error(test, check, names) ==> names.contains(name),
        holds_the_error(test, check, error_names(test, check)),
{
    let start = oracle_names(check).union(check.produced_identifiers);
    let all = error_names(test, check);
    error_names_hold_the_error(test, check);
    if all.contains(name) {
        let n = choose|n: nat| #[trigger] error_names_in(test, start, n).contains(name);
        assert forall|names: Set<Seq<char>>| #[trigger]
            holds_the_error(test, check, names) implies names.contains(name) by {
            assert(start.subset_of(names)) by {
                assert forall|x: Seq<char>| start.contains(x) implies names.contains(x) by {}
            }
            assert forall|i: int|
                0 <= i < test.oracles.len() && #[trigger] extracts(
                    test,
                    test.oracles[i],
                    names,
                ) implies test.oracles[i].produced_identifiers.subset_of(names) by {
                let x = choose|x: Seq<char>|
                    oracle_names(test.oracles[i]).contains(x) && names.contains(x);
                assert(mentions(test.oracles[i], x));
            }
            closed_set_holds_error_names(test, start, names, n);
        }
    }
}

proof fn error_names_hold_the_error(test: TestCaseView, check: OracleFactView)
    ensures
        holds_the_error(test, check, error_names(test, check)),
{
    let start = oracle_names(check).union(check.produced_identifiers);
    let all = error_names(test, check);
    assert forall|name: Seq<char>|
        mentions(check, name) || check.produced_identifiers.contains(
            name,
        ) implies #[trigger] all.contains(name) by {
        assert(error_names_in(test, start, 0).contains(name));
    }
    assert forall|i: int, name: Seq<char>|
        0 <= i < test.oracles.len() && only_checks_for_an_error(test, #[trigger] test.oracles[i])
            && #[trigger] mentions(test.oracles[i], name) && all.contains(
            name,
        ) implies test.oracles[i].produced_identifiers.subset_of(all) by {
        let n = choose|n: nat| #[trigger] error_names_in(test, start, n).contains(name);
        let known = error_names_in(test, start, n);
        assert(oracle_names(test.oracles[i]).contains(name));
        assert(extracts(test, test.oracles[i], known));
        assert forall|y: Seq<char>| test.oracles[i].produced_identifiers.contains(
            y,
        ) implies all.contains(y) by {
            assert(error_names_in(test, start, n + 1).contains(y));
        }
    }
}

/// Whether an oracle looks more closely at the error of a check: it always executes, can
/// fail, sees the Act, looks at an outcome, and mentions a name that carries the error.
pub open spec fn looks_at_the_error(
    test: TestCaseView,
    check: OracleFactView,
    oracle: OracleFactView,
) -> bool {
    &&& !oracle.conditional
    &&& !oracle.tautological
    &&& sees_the_act(test, oracle)
    &&& oracle.kind == OracleKind::Outcome
    &&& exists|name: Seq<char>| #[trigger]
        mentions(oracle, name) && error_names(test, check).contains(name)
}

proof fn looking_at_the_error(test: TestCaseView, check: OracleFactView)
    ensures
        precise_error_oracle(test, check) <==> exists|i: int|
            0 <= i < test.oracles.len() && looks_at_the_error(
                test,
                check,
                #[trigger] test.oracles[i],
            ),
{
    let names = error_names(test, check);
    let p = |o: OracleFactView|
        super::rules::post_act(test, o) && !o.conditional && o.kind == OracleKind::Outcome
            && !o.tautological && !names.disjoint(oracle_names(o));
    if precise_error_oracle(test, check) {
        let i = choose|i: int| 0 <= i < test.oracles.len() && p(#[trigger] test.oracles[i]);
        let o = test.oracles[i];
        let name = choose|name: Seq<char>| names.contains(name) && oracle_names(o).contains(name);
        assert(mentions(o, name));
        assert(looks_at_the_error(test, check, test.oracles[i]));
    }
    if exists|i: int|
        0 <= i < test.oracles.len() && looks_at_the_error(test, check, #[trigger] test.oracles[i]) {
        let i = choose|i: int|
            0 <= i < test.oracles.len() && looks_at_the_error(
                test,
                check,
                #[trigger] test.oracles[i],
            );
        let o = test.oracles[i];
        let name = choose|name: Seq<char>| #[trigger] mentions(o, name) && names.contains(name);
        assert(oracle_names(o).contains(name));
        assert(p(test.oracles[i]));
    }
}

/// A test is asked about its intent exactly where an oracle repeats the Act, where it only
/// checks for an error that no oracle looks at, or where everything it checks after the Act
/// are calls of a mock.
pub proof fn intent_is_asked_for(test: TestCaseView)
    ensures
        has_code(intent_gaps_of(test), "analysis.intent.self-derived-expected"@) <==> exists|i: int|
            0 <= i < test.oracles.len() && repeats_the_act(test, #[trigger] test.oracles[i]),
        has_code(intent_gaps_of(test), "analysis.intent.error-uninspected"@) <==> exists|i: int|
            0 <= i < test.oracles.len() && only_checks_for_an_error(
                test,
                #[trigger] test.oracles[i],
            ) && !precise_error_oracle(test, test.oracles[i]),
        has_code(intent_gaps_of(test), "analysis.intent.interaction-only"@) <==> {
            &&& exists|i: int|
                0 <= i < test.oracles.len() && !(#[trigger] test.oracles[i]).conditional
                    && sees_the_act(test, test.oracles[i])
            &&& forall|i: int|
                0 <= i < test.oracles.len() && !(#[trigger] test.oracles[i]).conditional
                    && sees_the_act(test, test.oracles[i]) ==> test.oracles[i].kind
                    == OracleKind::Interaction
        },
        forall|i: int|
            0 <= i < test.oracles.len() ==> (precise_error_oracle(
                test,
                #[trigger] test.oracles[i],
            ) <==> exists|j: int|
                0 <= j < test.oracles.len() && looks_at_the_error(
                    test,
                    test.oracles[i],
                    #[trigger] test.oracles[j],
                )),
{
    let a = self_derived_gaps(test);
    let b = uninspected_error_gaps(test);
    let c = interaction_only_gaps(test);
    reveal_strlit("analysis.intent.self-derived-expected");
    reveal_strlit("analysis.intent.error-uninspected");
    reveal_strlit("analysis.intent.interaction-only");
    let self_code = "analysis.intent.self-derived-expected"@;
    let error_code = "analysis.intent.error-uninspected"@;
    let mock_code = "analysis.intent.interaction-only"@;
    assert(self_code.len() == 37 && error_code.len() == 33 && mock_code.len() == 32);
    codes_of_three(a, b, c, self_code);
    codes_of_three(a, b, c, error_code);
    codes_of_three(a, b, c, mock_code);
    repeated_acts(test);
    uninspected_errors(test);
    only_interactions(test);
    assert forall|i: int| 0 <= i < test.oracles.len() implies (precise_error_oracle(
        test,
        #[trigger] test.oracles[i],
    ) <==> exists|j: int|
        0 <= j < test.oracles.len() && looks_at_the_error(
            test,
            test.oracles[i],
            #[trigger] test.oracles[j],
        )) by {
        looking_at_the_error(test, test.oracles[i]);
    }
}

proof fn codes_of_three(
    a: Seq<AnalysisGapView>,
    b: Seq<AnalysisGapView>,
    c: Seq<AnalysisGapView>,
    code: Seq<char>,
)
    requires
        a.len() <= 1,
        b.len() <= 1,
        c.len() <= 1,
    ensures
        has_code(a + b + c, code) == ((a.len() == 1 && a[0].code == code) || (b.len() == 1
            && b[0].code == code) || (c.len() == 1 && c[0].code == code)),
{
    let all = a + b + c;
    if a.len() == 1 {
        assert(all[0] == a[0]);
    }
    if b.len() == 1 {
        assert(all[a.len() as int] == b[0]);
    }
    if c.len() == 1 {
        assert(all[(a.len() + b.len()) as int] == c[0]);
    }
}

proof fn repeated_acts(test: TestCaseView)
    ensures
        self_derived_gaps(test).len() == 1 <==> exists|i: int|
            0 <= i < test.oracles.len() && repeats_the_act(test, #[trigger] test.oracles[i]),
{
    let p = |o: OracleFactView| self_derived(test, o);
    first_exists(test.oracles, p);
    if exists|i: int| 0 <= i < test.oracles.len() && p(#[trigger] test.oracles[i]) {
        let i = choose|i: int| 0 <= i < test.oracles.len() && p(#[trigger] test.oracles[i]);
        repeating_the_act(test, test.oracles[i]);
    }
    if exists|i: int|
        0 <= i < test.oracles.len() && repeats_the_act(test, #[trigger] test.oracles[i]) {
        let i = choose|i: int|
            0 <= i < test.oracles.len() && repeats_the_act(test, #[trigger] test.oracles[i]);
        repeating_the_act(test, test.oracles[i]);
        assert(p(test.oracles[i]));
    }
}

proof fn uninspected_errors(test: TestCaseView)
    ensures
        uninspected_error_gaps(test).len() == 1 <==> exists|i: int|
            0 <= i < test.oracles.len() && only_checks_for_an_error(
                test,
                #[trigger] test.oracles[i],
            ) && !precise_error_oracle(test, test.oracles[i]),
{
    let p = |o: OracleFactView| checks_broad_error(test, o) && !precise_error_oracle(test, o);
    first_exists(test.oracles, p);
    if exists|i: int| 0 <= i < test.oracles.len() && p(#[trigger] test.oracles[i]) {
        let i = choose|i: int| 0 <= i < test.oracles.len() && p(#[trigger] test.oracles[i]);
        assert(only_checks_for_an_error(test, test.oracles[i]));
    }
    if exists|i: int|
        0 <= i < test.oracles.len() && only_checks_for_an_error(test, #[trigger] test.oracles[i])
            && !precise_error_oracle(test, test.oracles[i]) {
        let i = choose|i: int|
            0 <= i < test.oracles.len() && only_checks_for_an_error(
                test,
                #[trigger] test.oracles[i],
            ) && !precise_error_oracle(test, test.oracles[i]);
        assert(p(test.oracles[i]));
    }
}

proof fn only_interactions(test: TestCaseView)
    ensures
        interaction_only_gaps(test).len() == 1 <==> {
            &&& exists|i: int|
                0 <= i < test.oracles.len() && !(#[trigger] test.oracles[i]).conditional
                    && sees_the_act(test, test.oracles[i])
            &&& forall|i: int|
                0 <= i < test.oracles.len() && !(#[trigger] test.oracles[i]).conditional
                    && sees_the_act(test, test.oracles[i]) ==> test.oracles[i].kind
                    == OracleKind::Interaction
        },
{
    let p = |o: OracleFactView| super::rules::post_act(test, o) && !o.conditional;
    let q = |o: OracleFactView| o.kind == OracleKind::Interaction;
    let some = post_act_oracles_of(test);
    kept_none(test.oracles, p);
    assert forall|i: int| 0 <= i < test.oracles.len() implies p(#[trigger] test.oracles[i]) == (
    !test.oracles[i].conditional && sees_the_act(test, test.oracles[i])) by {}
    if some.len() > 0 {
        let i = choose|i: int| 0 <= i < test.oracles.len() && p(#[trigger] test.oracles[i]);
        assert(!test.oracles[i].conditional);
    }
    if every(some, q) {
        assert forall|i: int|
            0 <= i < test.oracles.len() && !(#[trigger] test.oracles[i]).conditional
                && sees_the_act(test, test.oracles[i]) implies test.oracles[i].kind
            == OracleKind::Interaction by {
            assert(test.oracles.contains(test.oracles[i]));
            in_keep(test.oracles, p, test.oracles[i]);
            let k = some.index_of(test.oracles[i]);
            assert(q(some[k]));
        }
    } else {
        let k = choose|k: int| 0 <= k < some.len() && !q(#[trigger] some[k]);
        assert(some.contains(some[k]));
        in_keep(test.oracles, p, some[k]);
        let i = test.oracles.index_of(some[k]);
        assert(test.oracles[i] == some[k]);
        assert(!test.oracles[i].conditional);
    }
}

/// What is reported of some tests are the findings of each that no exemption of the policy
/// lets off, and what is let off is told with the reason of the exemption.
pub proof fn findings_of_all_tests(
    tests: Seq<TestCaseView>,
    policy: TestPolicyView,
    finding: FindingView,
    exemption: AppliedExemptionView,
)
    ensures
        sorted::<Finding, ByPlace>(reported_findings(tests, policy)).contains(finding)
            <==> exists|i: int|
            0 <= i < tests.len() && test_findings(#[trigger] tests[i], policy).contains(finding)
                && exemption_for(
                policy.exemptions,
                finding.rule_id,
                tests[i].path,
                tests[i].qualified_name,
            ) is None,
        sorted::<AppliedExemption, ByTest>(accepted_findings(tests, policy)).contains(exemption)
            <==> exists|i: int, k: int|
            0 <= i < tests.len() && 0 <= k < test_findings(tests[i], policy).len()
                && #[trigger] lets_off(tests[i], policy, test_findings(tests[i], policy)[k], exemption),
{
    let f = |t: TestCaseView| reported(t, policy);
    let g = |t: TestCaseView| accepted(t, policy);
    sorted_keeps_values::<Finding, ByPlace>(reported_findings(tests, policy), finding);
    sorted_keeps_values::<AppliedExemption, ByTest>(accepted_findings(tests, policy), exemption);
    super::laws::in_flat(tests, f, finding);
    super::laws::in_flat(tests, g, exemption);
    assert forall|i: int| 0 <= i < tests.len() implies f(#[trigger] tests[i]).contains(finding)
        == (test_findings(tests[i], policy).contains(finding) && exemption_for(
        policy.exemptions,
        finding.rule_id,
        tests[i].path,
        tests[i].qualified_name,
    ) is None) by {
        super::laws::findings_are_reported_or_accepted(tests[i], policy);
    }
    if exists|i: int| 0 <= i < tests.len() && f(#[trigger] tests[i]).contains(finding) {
        let i = choose|i: int| 0 <= i < tests.len() && f(#[trigger] tests[i]).contains(finding);
        assert(test_findings(tests[i], policy).contains(finding));
    }
    if exists|i: int|
        0 <= i < tests.len() && test_findings(#[trigger] tests[i], policy).contains(finding)
            && exemption_for(
            policy.exemptions,
            finding.rule_id,
            tests[i].path,
            tests[i].qualified_name,
        ) is None {
        let i = choose|i: int|
            0 <= i < tests.len() && test_findings(#[trigger] tests[i], policy).contains(finding)
                && exemption_for(
                policy.exemptions,
                finding.rule_id,
                tests[i].path,
                tests[i].qualified_name,
            ) is None;
        assert(f(tests[i]).contains(finding));
    }
    if exists|i: int| 0 <= i < tests.len() && g(#[trigger] tests[i]).contains(exemption) {
        let i = choose|i: int| 0 <= i < tests.len() && g(#[trigger] tests[i]).contains(exemption);
        accepted_of_a_test(tests[i], policy, exemption);
        let k = choose|k: int|
            0 <= k < test_findings(tests[i], policy).len() && #[trigger] lets_off(
                tests[i],
                policy,
                test_findings(tests[i], policy)[k],
                exemption,
            );
        assert(lets_off(tests[i], policy, test_findings(tests[i], policy)[k], exemption));
    }
    if exists|i: int, k: int|
        0 <= i < tests.len() && 0 <= k < test_findings(tests[i], policy).len()
            && #[trigger] lets_off(tests[i], policy, test_findings(tests[i], policy)[k], exemption) {
        let (i, k) = choose|i: int, k: int|
            0 <= i < tests.len() && 0 <= k < test_findings(tests[i], policy).len()
                && #[trigger] lets_off(
                tests[i],
                policy,
                test_findings(tests[i], policy)[k],
                exemption,
            );
        accepted_of_a_test(tests[i], policy, exemption);
        assert(g(tests[i]).contains(exemption));
    }
}

/// Whether a finding of a test is let off as told.
pub open spec fn lets_off(
    test: TestCaseView,
    policy: TestPolicyView,
    finding: FindingView,
    told: AppliedExemptionView,
) -> bool {
    &&& told.rule_id == finding.rule_id
    &&& told.fingerprint == finding.fingerprint
    &&& told.test.name == test.name
    &&& told.test.qualified_name == test.qualified_name
    &&& exemption_for(
        policy.exemptions,
        finding.rule_id,
        test.path,
        test.qualified_name,
    ) matches Some(exemption) && told.reason == exemption.reason
}

proof fn accepted_of_a_test(
    test: TestCaseView,
    policy: TestPolicyView,
    told: AppliedExemptionView,
)
    ensures
        accepted(test, policy).contains(told) <==> exists|k: int|
            0 <= k < test_findings(test, policy).len() && #[trigger] lets_off(
                test,
                policy,
                test_findings(test, policy)[k],
                told,
            ),
{
    let all = test_findings(test, policy);
    let f = |f: FindingView|
        match exemption_for(policy.exemptions, f.rule_id, test.path, test.qualified_name) {
            Some(e) => seq![
                AppliedExemptionView {
                    rule_id: f.rule_id,
                    test: super::rules::identity_of(test),
                    reason: e.reason,
                    fingerprint: f.fingerprint,
                },
            ],
            None => seq![],
        };
    super::laws::in_flat(all, f, told);
    assert forall|k: int| 0 <= k < all.len() implies f(#[trigger] all[k]).contains(told)
        == lets_off(test, policy, all[k], told) by {
        match exemption_for(policy.exemptions, all[k].rule_id, test.path, test.qualified_name) {
            Some(e) => {
                assert(f(all[k]).contains(f(all[k])[0]));
                if lets_off(test, policy, all[k], told) {
                    assert(told =~= f(all[k])[0]);
                }
            },
            None => {},
        }
    }
    if accepted(test, policy).contains(told) {
        let k = choose|k: int| 0 <= k < all.len() && f(#[trigger] all[k]).contains(told);
        assert(lets_off(test, policy, all[k], told));
    }
    if exists|k: int| 0 <= k < all.len() && #[trigger] lets_off(test, policy, all[k], told) {
        let k = choose|k: int| 0 <= k < all.len() && #[trigger] lets_off(test, policy, all[k], told);
        assert(f(all[k]).contains(told));
    }
}

/// Findings are ordered by file, within a file by test, within a test by rule, and then by
/// line.
pub proof fn findings_are_ordered_by_place(a: FindingView, b: FindingView)
    ensures
        a.primary.path != b.primary.path ==> ByPlace::before(a, b) == text_less(
            a.primary.path,
            b.primary.path,
        ),
        a.primary.path == b.primary.path && a.test.qualified_name != b.test.qualified_name
            ==> ByPlace::before(a, b) == text_less(a.test.qualified_name, b.test.qualified_name),
        a.primary.path == b.primary.path && a.test.qualified_name == b.test.qualified_name
            && a.rule_id != b.rule_id ==> ByPlace::before(a, b) == text_less(a.rule_id, b.rule_id),
        a.primary.path == b.primary.path && a.test.qualified_name == b.test.qualified_name
            && a.rule_id == b.rule_id ==> ByPlace::before(a, b) == (a.primary.span.start.line
            < b.primary.span.start.line),
{
    crate::text::text_less_irreflexive(a.primary.path);
    crate::text::text_less_irreflexive(a.test.qualified_name);
    crate::text::text_less_irreflexive(a.rule_id);
}

} // verus!
