//! What holds of all findings, whatever the tests and the policy.

use vstd::prelude::*;

use super::aliases::{item_aliases, with_parent};
use super::config::{exemption_for, normalized_path, TestExemptionView, TestPolicyView};
use super::model::{Finding, FindingView, TestCaseView, ValidationReportView};
use super::report::{exit_code_of, rule_ids_of, sarif_result_of, sarif_results_of, sarif_rules_of};
use super::rules::{
    accepted, bare_panic_findings, combined_findings, disconnected_findings, fingerprint_of,
    hygiene_findings, identity_of, ignored_findings, merged_by_rule, missing_oracle_findings,
    multiple_act_findings, naming_findings, out_of_order_findings, raw_findings, reported,
    reported_findings, rule_position, section_findings, shell_word, test_findings,
    vacuous_findings, with_evidence, ByPlace, ByRule,
};
use super::rust::{name_of, tests_among, tests_in};
use super::syntax::{Kind, Tree};
use super::{closing_errors, reports, SessionView};
use crate::names::{listed, listed_exists};
use crate::order::{
    sorted_in_order, sorted_is_permutation, sorted_keeps_distinct, sorted_keeps_values, Order,
};
use crate::seqs::{every, flat, mapped};
use crate::text::{text_less, text_order};

verus! {

/// Whether a finding tells which rule and which test it is about, why it matters and what
/// to do, and how to check that test's file again.
pub open spec fn is_about(finding: FindingView, test: TestCaseView) -> bool {
    &&& finding.severity == "error"@
    &&& finding.confidence == "high"@
    &&& finding.test == identity_of(test)
    &&& finding.primary.path == test.path
    &&& finding.fingerprint == fingerprint_of(finding.rule_id, test.path, test.qualified_name)
    &&& finding.remediation.actions.len() == 1
    &&& finding.remediation.rerun == "cntryl-tools validate-tests -f "@ + shell_word(test.path)
}

/// The condition as a function.
pub open spec fn about(test: TestCaseView) -> spec_fn(FindingView) -> bool {
    |finding: FindingView| is_about(finding, test)
}

proof fn every_of_concat<A>(a: Seq<A>, b: Seq<A>, p: spec_fn(A) -> bool)
    requires
        every(a, p),
        every(b, p),
    ensures
        every(a + b, p),
{
}

proof fn sections_are_about(test: TestCaseView)
    ensures
        every(section_findings(test), about(test)),
{
    let p = about(test);
    assert(every(combined_findings(test), p));
    assert(every(out_of_order_findings(test), p));
    let all = section_findings(test);
    assert forall|i: int| 0 <= i < all.len() implies p(#[trigger] all[i]) by {}
}

proof fn hygiene_is_about(test: TestCaseView)
    ensures
        every(hygiene_findings(test), about(test)),
{
    let p = about(test);
    let all = hygiene_findings(test);
    assert forall|i: int| 0 <= i < all.len() implies p(#[trigger] all[i]) by {}
}

proof fn raw_findings_are_about(test: TestCaseView, policy: TestPolicyView)
    ensures
        every(raw_findings(test, policy), about(test)),
{
    let p = about(test);
    sections_are_about(test);
    hygiene_is_about(test);
    assert(every(naming_findings(test), p));
    assert(every(multiple_act_findings(test), p));
    assert(every(ignored_findings(test), p));
    assert(every(missing_oracle_findings(test), p));
    assert(every(vacuous_findings(test), p));
    assert(every(disconnected_findings(test), p));
    assert(every(bare_panic_findings(test), p));
    let sections: Seq<FindingView> = if test.line_count > policy.aaa_min_lines {
        section_findings(test)
    } else {
        seq![]
    };
    let s1 = naming_findings(test) + sections;
    every_of_concat(naming_findings(test), sections, p);
    let s2 = s1 + multiple_act_findings(test);
    every_of_concat(s1, multiple_act_findings(test), p);
    let s3 = s2 + ignored_findings(test);
    every_of_concat(s2, ignored_findings(test), p);
    let s4 = s3 + missing_oracle_findings(test);
    every_of_concat(s3, missing_oracle_findings(test), p);
    let s5 = s4 + vacuous_findings(test);
    every_of_concat(s4, vacuous_findings(test), p);
    let s6 = s5 + disconnected_findings(test);
    every_of_concat(s5, disconnected_findings(test), p);
    let s7 = s6 + bare_panic_findings(test);
    every_of_concat(s6, bare_panic_findings(test), p);
    every_of_concat(s7, hygiene_findings(test), p);
}

/// Whether no two findings are of the same rule.
pub open spec fn distinct_rules(findings: Seq<FindingView>) -> bool {
    forall|i: int, j: int|
        0 <= i < j < findings.len() ==> (#[trigger] findings[i]).rule_id != (
        #[trigger] findings[j]).rule_id
}

pub(crate) proof fn position_of_a_rule(findings: Seq<FindingView>, rule_id: Seq<char>)
    ensures
        match rule_position(findings, rule_id) {
            Some(i) => 0 <= i < findings.len() && findings[i].rule_id == rule_id,
            None => forall|i: int|
                0 <= i < findings.len() ==> (#[trigger] findings[i]).rule_id != rule_id,
        },
    decreases findings.len(),
{
    if findings.len() > 0 && findings.last().rule_id != rule_id {
        position_of_a_rule(findings.drop_last(), rule_id);
        assert forall|i: int|
            0 <= i < findings.len() && rule_position(findings, rule_id) is None implies (
        #[trigger] findings[i]).rule_id != rule_id by {
            if i < findings.len() - 1 {
                assert(findings.drop_last()[i] == findings[i]);
            }
        }
    }
}

proof fn merged_findings_are_about(findings: Seq<FindingView>, test: TestCaseView)
    requires
        every(findings, about(test)),
    ensures
        every(merged_by_rule(findings), about(test)),
        distinct_rules(merged_by_rule(findings)),
    decreases findings.len(),
{
    if findings.len() > 0 {
        let p = about(test);
        let rest = findings.drop_last();
        assert(every(rest, p)) by {
            assert forall|i: int| 0 <= i < rest.len() implies p(#[trigger] rest[i]) by {
                assert(rest[i] == findings[i]);
            }
        }
        merged_findings_are_about(rest, test);
        let known = merged_by_rule(rest);
        let last = findings.last();
        assert(p(findings[findings.len() - 1]));
        position_of_a_rule(known, last.rule_id);
        match rule_position(known, last.rule_id) {
            Some(i) => {
                assert(p(known[i]));
                assert(p(with_evidence(known[i], last.evidence)));
            },
            None => {},
        }
    }
}

/// The findings of a test, one for each rule at most, in the order of the rules, each
/// about that test.
pub proof fn findings_of_a_test(test: TestCaseView, policy: TestPolicyView)
    ensures
        every(test_findings(test, policy), about(test)),
        forall|i: int, j: int|
            0 <= i < j < test_findings(test, policy).len() ==> text_less(
                (#[trigger] test_findings(test, policy)[i]).rule_id,
                (#[trigger] test_findings(test, policy)[j]).rule_id,
            ),
{
    let p = about(test);
    raw_findings_are_about(test, policy);
    let one_each = merged_by_rule(raw_findings(test, policy));
    merged_findings_are_about(raw_findings(test, policy), test);
    let all = test_findings(test, policy);
    sorted_in_order::<Finding, ByRule>(one_each);
    sorted_is_permutation::<Finding, ByRule>(one_each);
    assert(one_each.no_duplicates());
    sorted_keeps_distinct::<Finding, ByRule>(one_each);
    assert forall|i: int| 0 <= i < all.len() implies p(#[trigger] all[i]) by {
        sorted_keeps_values::<Finding, ByRule>(one_each, all[i]);
        let k = one_each.index_of(all[i]);
        assert(p(one_each[k]));
    }
    assert forall|i: int, j: int| 0 <= i < j < all.len() implies text_less(
        (#[trigger] all[i]).rule_id,
        (#[trigger] all[j]).rule_id,
    ) by {
        assert(all[i] != all[j]);
        sorted_keeps_values::<Finding, ByRule>(one_each, all[i]);
        sorted_keeps_values::<Finding, ByRule>(one_each, all[j]);
        let a = one_each.index_of(all[i]);
        let b = one_each.index_of(all[j]);
        assert(one_each[a].rule_id != one_each[b].rule_id);
        assert(!ByRule::before(all[j], all[i]));
        text_order(all[j].rule_id, all[i].rule_id, all[i].rule_id);
        text_order(all[i].rule_id, all[j].rule_id, all[i].rule_id);
    }
}

/// What is put in the place of each value: none or one, and here or there.
proof fn parted<A, B, C>(
    s: Seq<A>,
    here: spec_fn(A) -> Seq<B>,
    there: spec_fn(A) -> Seq<C>,
)
    requires
        forall|x: A| (#[trigger] here(x)).len() + there(x).len() == 1,
    ensures
        flat(s, here).len() + flat(s, there).len() == s.len(),
    decreases s.len(),
{
    if s.len() > 0 {
        parted(s.drop_last(), here, there);
        assert(here(s.last()).len() + there(s.last()).len() == 1);
    }
}

/// A value is among those put in the place of some exactly where it is put in the place of
/// one of them.
pub(crate) proof fn in_flat<A, B>(s: Seq<A>, f: spec_fn(A) -> Seq<B>, y: B)
    ensures
        flat(s, f).contains(y) <==> exists|i: int|
            0 <= i < s.len() && f(#[trigger] s[i]).contains(y),
    decreases s.len(),
{
    if s.len() > 0 {
        let rest = s.drop_last();
        let last = s.last();
        in_flat(rest, f, y);
        let all = flat(s, f);
        let before = flat(rest, f);
        if all.contains(y) {
            let k = all.index_of(y);
            if k < before.len() {
                assert(before[k] == y);
                let i = choose|i: int| 0 <= i < rest.len() && f(#[trigger] rest[i]).contains(y);
                assert(s[i] == rest[i]);
            } else {
                assert(f(last)[k - before.len()] == y);
                assert(f(s[s.len() - 1]).contains(y));
            }
        }
        if exists|i: int| 0 <= i < s.len() && f(#[trigger] s[i]).contains(y) {
            let i = choose|i: int| 0 <= i < s.len() && f(#[trigger] s[i]).contains(y);
            if i < rest.len() {
                assert(rest[i] == s[i]);
                let k = before.index_of(y);
                assert(all[k] == y);
            } else {
                let k = f(last).index_of(y);
                assert(all[before.len() + k] == y);
            }
        }
    }
}

/// Every finding of a test is either reported or accepted because of an exemption, and
/// none is both or lost.
pub proof fn findings_are_reported_or_accepted(test: TestCaseView, policy: TestPolicyView)
    ensures
        reported(test, policy).len() + accepted(test, policy).len() == test_findings(
            test,
            policy,
        ).len(),
        forall|f: FindingView| #[trigger]
            reported(test, policy).contains(f) <==> test_findings(test, policy).contains(f)
                && exemption_for(
                policy.exemptions,
                f.rule_id,
                test.path,
                test.qualified_name,
            ) is None,
{
    let all = test_findings(test, policy);
    let exempt = |f: FindingView|
        exemption_for(policy.exemptions, f.rule_id, test.path, test.qualified_name);
    let here = |f: FindingView|
        match exemption_for(policy.exemptions, f.rule_id, test.path, test.qualified_name) {
            Some(_) => Seq::<FindingView>::empty(),
            None => seq![f],
        };
    let there = |f: FindingView|
        match exemption_for(policy.exemptions, f.rule_id, test.path, test.qualified_name) {
            Some(e) => seq![
                super::model::AppliedExemptionView {
                    rule_id: f.rule_id,
                    test: identity_of(test),
                    reason: e.reason,
                    fingerprint: f.fingerprint,
                },
            ],
            None => seq![],
        };
    parted(all, here, there);
    assert(flat(all, here) == reported(test, policy));
    assert(flat(all, there) == accepted(test, policy));
    assert forall|f: FindingView| #[trigger]
        reported(test, policy).contains(f) <==> all.contains(f) && exempt(f) is None by {
        in_flat(all, here, f);
        if reported(test, policy).contains(f) {
            let i = choose|i: int| 0 <= i < all.len() && here(#[trigger] all[i]).contains(f);
            assert(here(all[i])[0] == f);
            assert(all[i] == f);
        }
        if all.contains(f) && exempt(f) is None {
            let i = all.index_of(f);
            assert(here(all[i])[0] == f);
        }
    }
}

/// An exemption lets off one rule, in one file, for one test.
pub proof fn exemptions_are_exact(
    exemptions: Seq<TestExemptionView>,
    rule_id: Seq<char>,
    path: Seq<char>,
    test: Seq<char>,
)
    ensures
        exemption_for(exemptions, rule_id, path, test) matches Some(e) ==> e.rule_id == rule_id
            && normalized_path(e.path) == normalized_path(path) && e.test == test
            && exemptions.contains(e),
    decreases exemptions.len(),
{
    if exemptions.len() > 0 {
        let rest = exemptions.skip(1);
        exemptions_are_exact(rest, rule_id, path, test);
        assert(exemptions[0] == exemptions[0]);
        match exemption_for(rest, rule_id, path, test) {
            Some(e) => {
                let k = rest.index_of(e);
                assert(exemptions[k + 1] == e);
            },
            None => {},
        }
    }
}

/// The exit code of a session's report: 2 where something went wrong, 1 where there are
/// findings that no exemption lets off, and otherwise 0, whatever the gaps and exemptions.
pub proof fn session_exit_code(
    report: ValidationReportView,
    session: SessionView,
    policy: TestPolicyView,
    expired: bool,
    timeout: Option<u64>,
    version: Seq<char>,
)
    requires
        reports(report, session, policy, expired, timeout, version),
    ensures
        exit_code_of(report) == (if session.errors.len() > 0 || session.tests.len() == 0
            || expired {
            2i32
        } else if reported_findings(session.tests, policy).len() > 0 {
            1i32
        } else {
            0i32
        }),
{
    sorted_is_permutation::<Finding, ByPlace>(reported_findings(session.tests, policy));
    let errors = closing_errors(session.tests, session.errors, expired, timeout);
    if session.errors.len() > 0 {
        assert(errors.len() > 0);
    } else if session.tests.len() == 0 {
        assert(errors.len() > 0);
    } else if expired {
        assert(session.errors =~= seq![]);
        assert(errors.len() > 0);
    }
}

/// Gaps and exemptions never decide how a validation ends.
pub proof fn gaps_do_not_block(a: ValidationReportView, b: ValidationReportView)
    requires
        a.status == b.status,
        a.errors == b.errors,
        a.findings == b.findings,
    ensures
        exit_code_of(a) == exit_code_of(b),
{
}

/// Every test that is found in a file names that file.
pub proof fn tests_name_their_file(
    path: Seq<char>,
    items: Seq<Tree>,
    modules: Seq<Seq<char>>,
    parent: Map<Seq<char>, Seq<char>>,
    lines: Seq<Seq<char>>,
    policy: TestPolicyView,
)
    ensures
        every(
            tests_in(path, items, modules, parent, lines, policy),
            |test: TestCaseView| test.path == path,
        ),
    decreases items, 1nat,
{
    tests_among_name_their_file(
        path,
        items,
        modules,
        with_parent(item_aliases(items), parent),
        lines,
        policy,
    );
}

proof fn tests_among_name_their_file(
    path: Seq<char>,
    items: Seq<Tree>,
    modules: Seq<Seq<char>>,
    aliases: Map<Seq<char>, Seq<char>>,
    lines: Seq<Seq<char>>,
    policy: TestPolicyView,
)
    ensures
        every(
            tests_among(path, items, modules, aliases, lines, policy),
            |test: TestCaseView| test.path == path,
        ),
    decreases items, 0nat,
{
    if items.len() > 0 {
        let p = |test: TestCaseView| test.path == path;
        tests_among_name_their_file(path, items.drop_last(), modules, aliases, lines, policy);
        let rest = tests_among(path, items.drop_last(), modules, aliases, lines, policy);
        let last = items.last();
        if last.kind == Kind::Module {
            let inner = modules.push(name_of(last));
            tests_name_their_file(path, last.children, inner, aliases, lines, policy);
            every_of_concat(
                rest,
                tests_in(path, last.children, inner, aliases, lines, policy),
                p,
            );
        }
    }
}

proof fn rule_ids_are_those_of_findings(findings: Seq<FindingView>)
    ensures
        rule_ids_of(findings) == mapped(findings, |f: FindingView| f.rule_id).to_set(),
    decreases findings.len(),
{
    let f = |f: FindingView| f.rule_id;
    if findings.len() == 0 {
        assert(mapped(findings, f).to_set() =~= Set::<Seq<char>>::empty());
    } else {
        let rest = findings.drop_last();
        rule_ids_are_those_of_findings(rest);
        assert(mapped(findings, f) =~= mapped(rest, f).push(findings.last().rule_id));
        crate::names::set_of_push(mapped(rest, f), findings.last().rule_id);
    }
}

/// In a SARIF report the result of a finding points at the rule of that finding.
pub proof fn results_point_at_their_rules(findings: Seq<FindingView>, i: int)
    requires
        0 <= i < findings.len(),
    ensures
        ({
            let ids = listed(rule_ids_of(findings));
            let at = ids.index_of(findings[i].rule_id);
            &&& 0 <= at < sarif_rules_of(findings).len()
            &&& ids[at] == findings[i].rule_id
            &&& sarif_results_of(findings)[i] == sarif_result_of(findings[i], at)
        }),
{
    let all = mapped(findings, |f: FindingView| f.rule_id);
    rule_ids_are_those_of_findings(findings);
    listed_exists(all);
    let ids = listed(rule_ids_of(findings));
    assert(all[i] == findings[i].rule_id);
    assert(all.to_set().contains(findings[i].rule_id));
    assert(ids.to_set().contains(findings[i].rule_id));
}

} // verus!
