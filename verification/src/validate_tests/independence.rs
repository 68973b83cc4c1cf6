//! What does not depend on the order in which tests, findings, gaps and errors came.

use vstd::prelude::*;

use super::config::TestPolicyView;
use super::laws::{findings_are_reported_or_accepted, findings_of_a_test, in_flat};
use super::model::{
    AnalysisGap, AnalysisGapView, AppliedExemption, AppliedExemptionView, Finding, FindingView,
    OperationalError, OperationalErrorView, Position, SourceSpan, TestCaseView,
    ValidationReportView,
};
use super::report::{
    human, normalized, report_path, reported_error, reported_finding, reported_gap, shown_actions,
    shown_body, shown_errors, shown_evidence_list, shown_exemptions, shown_finding, shown_findings,
    shown_gaps, shown_location, shown_summary, shown_test, span_before, ErrorOrder, ExemptionOrder,
    FindingOrder, GapOrder,
};
use super::rules::{
    accepted, accepted_findings, intent_gaps, intent_gaps_of, interaction_only_gaps, reported,
    reported_findings, self_derived_gaps, test_findings, uninspected_error_gaps, ByGap, ByPlace,
    ByTest, ERROR_UNINSPECTED_INTENT_GAP, INTERACTION_ONLY_INTENT_GAP, SELF_DERIVED_INTENT_GAP,
};
use crate::order::{
    sorted, sorted_is_permutation, sorted_keeps_values, sorted_of_permutation, tells_apart, Order,
};
use crate::seqs::{flat, flat_of_permutation, mapped};
use crate::text::{contains_text, contains_text_iff, matches_at, text_less_total};

verus! {

/// Whether no two tests have both their file and their qualified name in common.
pub open spec fn tests_differ(tests: Seq<TestCaseView>) -> bool {
    forall|i: int, j: int|
        0 <= i < j < tests.len() ==> (#[trigger] tests[i]).path != (#[trigger] tests[j]).path
            || tests[i].qualified_name != tests[j].qualified_name
}

/// A reported finding comes from one of the tests, and names it.
proof fn finding_of_one_test(
    tests: Seq<TestCaseView>,
    policy: TestPolicyView,
    x: FindingView,
) -> (i: int)
    requires
        reported_findings(tests, policy).contains(x),
    ensures
        0 <= i < tests.len(),
        test_findings(tests[i], policy).contains(x),
        x.primary.path == tests[i].path,
        x.test.qualified_name == tests[i].qualified_name,
{
    let f = |t: TestCaseView| reported(t, policy);
    in_flat(tests, f, x);
    let i = choose|i: int| 0 <= i < tests.len() && f(#[trigger] tests[i]).contains(x);
    findings_are_reported_or_accepted(tests[i], policy);
    assert(reported(tests[i], policy).contains(x));
    findings_of_a_test(tests[i], policy);
    let k = test_findings(tests[i], policy).index_of(x);
    assert(super::laws::about(tests[i])(test_findings(tests[i], policy)[k]));
    i
}

proof fn findings_are_told_apart(tests: Seq<TestCaseView>, policy: TestPolicyView)
    requires
        tests_differ(tests),
    ensures
        tells_apart::<Finding, ByPlace>(reported_findings(tests, policy)),
{
    let all = reported_findings(tests, policy);
    assert forall|x: FindingView, y: FindingView| #[trigger]
        all.contains(x) && #[trigger] all.contains(y) && x != y implies ByPlace::before(x, y)
        || ByPlace::before(y, x) by {
        let i = finding_of_one_test(tests, policy, x);
        let j = finding_of_one_test(tests, policy, y);
        text_less_total(x.primary.path, y.primary.path);
        text_less_total(x.test.qualified_name, y.test.qualified_name);
        if i == j {
            findings_of_a_test(tests[i], policy);
            let own = test_findings(tests[i], policy);
            let k = own.index_of(x);
            let l = own.index_of(y);
            assert(own[k] == x && own[l] == y);
        } else if i < j {
            assert(tests[i].path != tests[j].path || tests[i].qualified_name
                != tests[j].qualified_name);
        } else {
            assert(tests[j].path != tests[i].path || tests[j].qualified_name
                != tests[i].qualified_name);
        }
    }
}

/// The codes of the gaps about the intent of a test differ.
proof fn intent_codes_differ()
    ensures
        SELF_DERIVED_INTENT_GAP@ != ERROR_UNINSPECTED_INTENT_GAP@,
        SELF_DERIVED_INTENT_GAP@ != INTERACTION_ONLY_INTENT_GAP@,
        ERROR_UNINSPECTED_INTENT_GAP@ != INTERACTION_ONLY_INTENT_GAP@,
{
    reveal_strlit("analysis.intent.self-derived-expected");
    reveal_strlit("analysis.intent.error-uninspected");
    reveal_strlit("analysis.intent.interaction-only");
    assert(SELF_DERIVED_INTENT_GAP@[16] == 's');
    assert(ERROR_UNINSPECTED_INTENT_GAP@[16] == 'e');
    assert(INTERACTION_ONLY_INTENT_GAP@[16] == 'i');
}

/// Two gaps about the intent of one test with one code are one gap, and each names the
/// test.
proof fn intent_gaps_by_code(test: TestCaseView, x: AnalysisGapView, y: AnalysisGapView)
    requires
        intent_gaps_of(test).contains(x),
        intent_gaps_of(test).contains(y),
    ensures
        x.location.path == test.path,
        x.test.qualified_name == test.qualified_name,
        x.code == y.code ==> x == y,
{
    intent_codes_differ();
    let all = intent_gaps_of(test);
    let first = self_derived_gaps(test);
    let second = uninspected_error_gaps(test);
    let third = interaction_only_gaps(test);
    assert(all == first + second + third);
    let k = all.index_of(x);
    let l = all.index_of(y);
    assert(all[k] == x && all[l] == y);
    assert(first.len() <= 1 && second.len() <= 1 && third.len() <= 1);
    assert(forall|i: int| 0 <= i < first.len() ==> (#[trigger] first[i]).code
        == SELF_DERIVED_INTENT_GAP@);
    assert(forall|i: int| 0 <= i < second.len() ==> (#[trigger] second[i]).code
        == ERROR_UNINSPECTED_INTENT_GAP@);
    assert(forall|i: int| 0 <= i < third.len() ==> (#[trigger] third[i]).code
        == INTERACTION_ONLY_INTENT_GAP@);
    assert forall|i: int| 0 <= i < all.len() implies all[i] == (if i < first.len() {
        first[i]
    } else if i < first.len() + second.len() {
        second[i - first.len()]
    } else {
        third[i - first.len() - second.len()]
    }) by {}
}

proof fn intent_gaps_are_told_apart(tests: Seq<TestCaseView>)
    requires
        tests_differ(tests),
    ensures
        tells_apart::<AnalysisGap, ByGap>(intent_gaps(tests)),
{
    let f = |t: TestCaseView| intent_gaps_of(t);
    let all = intent_gaps(tests);
    assert forall|x: AnalysisGapView, y: AnalysisGapView| #[trigger]
        all.contains(x) && #[trigger] all.contains(y) && x != y implies ByGap::before(x, y)
        || ByGap::before(y, x) by {
        in_flat(tests, f, x);
        in_flat(tests, f, y);
        let i = choose|i: int| 0 <= i < tests.len() && f(#[trigger] tests[i]).contains(x);
        let j = choose|i: int| 0 <= i < tests.len() && f(#[trigger] tests[i]).contains(y);
        intent_gaps_by_code(tests[i], x, x);
        intent_gaps_by_code(tests[j], y, y);
        text_less_total(x.location.path, y.location.path);
        text_less_total(x.test.qualified_name, y.test.qualified_name);
        text_less_total(x.code, y.code);
        if i == j {
            intent_gaps_by_code(tests[i], x, y);
        } else if i < j {
            assert(tests[i].path != tests[j].path || tests[i].qualified_name
                != tests[j].qualified_name);
        } else {
            assert(tests[j].path != tests[i].path || tests[j].qualified_name
                != tests[i].qualified_name);
        }
    }
}

/// The order in which tests are found does not show: the same findings and the same gaps
/// come out in the same order, and the same exemptions are applied.
pub proof fn test_order_is_irrelevant(
    a: Seq<TestCaseView>,
    b: Seq<TestCaseView>,
    policy: TestPolicyView,
)
    requires
        a.to_multiset() == b.to_multiset(),
        tests_differ(a),
    ensures
        sorted::<Finding, ByPlace>(reported_findings(a, policy)) == sorted::<Finding, ByPlace>(
            reported_findings(b, policy),
        ),
        sorted::<AnalysisGap, ByGap>(intent_gaps(a)) == sorted::<AnalysisGap, ByGap>(
            intent_gaps(b),
        ),
        sorted::<AppliedExemption, ByTest>(accepted_findings(a, policy)).to_multiset() == sorted::<
            AppliedExemption,
            ByTest,
        >(accepted_findings(b, policy)).to_multiset(),
{
    flat_of_permutation(a, b, |t: TestCaseView| reported(t, policy));
    flat_of_permutation(a, b, |t: TestCaseView| accepted(t, policy));
    flat_of_permutation(a, b, |t: TestCaseView| intent_gaps_of(t));
    findings_are_told_apart(a, policy);
    intent_gaps_are_told_apart(a);
    sorted_of_permutation::<Finding, ByPlace>(
        reported_findings(a, policy),
        reported_findings(b, policy),
    );
    sorted_of_permutation::<AnalysisGap, ByGap>(intent_gaps(a), intent_gaps(b));
    sorted_is_permutation::<AppliedExemption, ByTest>(accepted_findings(a, policy));
    sorted_is_permutation::<AppliedExemption, ByTest>(accepted_findings(b, policy));
}

/// What `f` gives for each element is the same, each as often, whatever the order.
proof fn mapped_of_permutation<A, B>(a: Seq<A>, b: Seq<A>, f: spec_fn(A) -> B)
    requires
        a.to_multiset() == b.to_multiset(),
    ensures
        mapped(a, f).to_multiset() == mapped(b, f).to_multiset(),
{
    let g = |x: A| seq![f(x)];
    mapped_is_flat(a, f);
    mapped_is_flat(b, f);
    flat_of_permutation(a, b, g);
}

proof fn mapped_is_flat<A, B>(s: Seq<A>, f: spec_fn(A) -> B)
    ensures
        mapped(s, f) == flat(s, |x: A| seq![f(x)]),
    decreases s.len(),
{
    let g = |x: A| seq![f(x)];
    if s.len() == 0 {
        assert(mapped(s, f) =~= flat(s, g));
    } else {
        mapped_is_flat(s.drop_last(), f);
        assert(mapped(s, f) =~= mapped(s.drop_last(), f) + g(s.last()));
    }
}

/// Whether two reports hold the same things in whatever order.
pub open spec fn reordered(a: ValidationReportView, b: ValidationReportView) -> bool {
    &&& b == (ValidationReportView {
        findings: b.findings,
        analysis_gaps: b.analysis_gaps,
        exemptions: b.exemptions,
        errors: b.errors,
        ..a
    })
    &&& a.findings.to_multiset() == b.findings.to_multiset()
    &&& a.analysis_gaps.to_multiset() == b.analysis_gaps.to_multiset()
    &&& a.exemptions.to_multiset() == b.exemptions.to_multiset()
    &&& a.errors.to_multiset() == b.errors.to_multiset()
}

pub open spec fn findings_tie(a: FindingView, b: FindingView) -> bool {
    report_path(a.primary.path) == report_path(b.primary.path) && a.test.qualified_name
        == b.test.qualified_name && a.rule_id == b.rule_id && a.primary.span == b.primary.span
}

pub open spec fn gaps_tie(a: AnalysisGapView, b: AnalysisGapView) -> bool {
    report_path(a.location.path) == report_path(b.location.path) && a.test.qualified_name
        == b.test.qualified_name && a.code == b.code && a.location.span == b.location.span
}

pub open spec fn exemptions_tie(a: AppliedExemptionView, b: AppliedExemptionView) -> bool {
    a.test.qualified_name == b.test.qualified_name && a.rule_id == b.rule_id && a.fingerprint
        == b.fingerprint
}

pub open spec fn errors_tie(a: OperationalErrorView, b: OperationalErrorView) -> bool {
    a.code == b.code && a.message == b.message && match (a.location, b.location) {
        (Some(x), Some(y)) => report_path(x.path) == report_path(y.path) && x.span == y.span,
        (None, None) => true,
        _ => false,
    }
}

/// Whether no two things of a report tie: two findings of one path, test, rule and place,
/// and so on.
pub open spec fn without_ties(report: ValidationReportView) -> bool {
    &&& forall|i: int, j: int|
        0 <= i < j < report.findings.len() ==> !findings_tie(
            #[trigger] report.findings[i],
            #[trigger] report.findings[j],
        )
    &&& forall|i: int, j: int|
        0 <= i < j < report.analysis_gaps.len() ==> !gaps_tie(
            #[trigger] report.analysis_gaps[i],
            #[trigger] report.analysis_gaps[j],
        )
    &&& forall|i: int, j: int|
        0 <= i < j < report.exemptions.len() ==> !exemptions_tie(
            #[trigger] report.exemptions[i],
            #[trigger] report.exemptions[j],
        )
    &&& forall|i: int, j: int|
        0 <= i < j < report.errors.len() ==> !errors_tie(
            #[trigger] report.errors[i],
            #[trigger] report.errors[j],
        )
}

/// Of two different spans one comes before the other.
proof fn spans_are_ordered(a: SourceSpan, b: SourceSpan)
    ensures
        span_before(a, b) || span_before(b, a) || a == b,
{
    places_are_ordered(a.start, b.start);
    places_are_ordered(a.end, b.end);
}

proof fn places_are_ordered(a: Position, b: Position)
    ensures
        a.precedes(b) || b.precedes(a) || a == b,
{
}

proof fn shown_findings_are_told_apart(report: ValidationReportView)
    requires
        without_ties(report),
    ensures
        tells_apart::<Finding, FindingOrder>(
            mapped(report.findings, |f: FindingView| reported_finding(f)),
        ),
{
    let all = mapped(report.findings, |f: FindingView| reported_finding(f));
    assert forall|x: FindingView, y: FindingView| #[trigger]
        all.contains(x) && #[trigger] all.contains(y) && x != y implies FindingOrder::before(x, y)
        || FindingOrder::before(y, x) by {
        let i = all.index_of(x);
        let j = all.index_of(y);
        assert(all[i] == x && all[j] == y);
        text_less_total(x.primary.path, y.primary.path);
        text_less_total(x.test.qualified_name, y.test.qualified_name);
        text_less_total(x.rule_id, y.rule_id);
        spans_are_ordered(x.primary.span, y.primary.span);
        if i < j {
            assert(!findings_tie(report.findings[i], report.findings[j]));
        } else {
            assert(!findings_tie(report.findings[j], report.findings[i]));
        }
    }
}

proof fn shown_gaps_are_told_apart(report: ValidationReportView)
    requires
        without_ties(report),
    ensures
        tells_apart::<AnalysisGap, GapOrder>(
            mapped(report.analysis_gaps, |g: AnalysisGapView| reported_gap(g)),
        ),
{
    let all = mapped(report.analysis_gaps, |g: AnalysisGapView| reported_gap(g));
    assert forall|x: AnalysisGapView, y: AnalysisGapView| #[trigger]
        all.contains(x) && #[trigger] all.contains(y) && x != y implies GapOrder::before(x, y)
        || GapOrder::before(y, x) by {
        let i = all.index_of(x);
        let j = all.index_of(y);
        assert(all[i] == x && all[j] == y);
        text_less_total(x.location.path, y.location.path);
        text_less_total(x.test.qualified_name, y.test.qualified_name);
        text_less_total(x.code, y.code);
        spans_are_ordered(x.location.span, y.location.span);
        if i < j {
            assert(!gaps_tie(report.analysis_gaps[i], report.analysis_gaps[j]));
        } else {
            assert(!gaps_tie(report.analysis_gaps[j], report.analysis_gaps[i]));
        }
    }
}

proof fn shown_exemptions_are_told_apart(report: ValidationReportView)
    requires
        without_ties(report),
    ensures
        tells_apart::<AppliedExemption, ExemptionOrder>(report.exemptions),
{
    let all = report.exemptions;
    assert forall|x: AppliedExemptionView, y: AppliedExemptionView| #[trigger]
        all.contains(x) && #[trigger] all.contains(y) && x != y implies ExemptionOrder::before(x, y)
        || ExemptionOrder::before(y, x) by {
        let i = all.index_of(x);
        let j = all.index_of(y);
        assert(all[i] == x && all[j] == y);
        text_less_total(x.test.qualified_name, y.test.qualified_name);
        text_less_total(x.rule_id, y.rule_id);
        text_less_total(x.fingerprint, y.fingerprint);
        if i < j {
            assert(!exemptions_tie(report.exemptions[i], report.exemptions[j]));
        } else {
            assert(!exemptions_tie(report.exemptions[j], report.exemptions[i]));
        }
    }
}

proof fn shown_errors_are_told_apart(report: ValidationReportView)
    requires
        without_ties(report),
    ensures
        tells_apart::<OperationalError, ErrorOrder>(
            mapped(report.errors, |e: OperationalErrorView| reported_error(e)),
        ),
{
    let all = mapped(report.errors, |e: OperationalErrorView| reported_error(e));
    assert forall|x: OperationalErrorView, y: OperationalErrorView| #[trigger]
        all.contains(x) && #[trigger] all.contains(y) && x != y implies ErrorOrder::before(x, y)
        || ErrorOrder::before(y, x) by {
        let i = all.index_of(x);
        let j = all.index_of(y);
        assert(all[i] == x && all[j] == y);
        text_less_total(x.code, y.code);
        text_less_total(x.message, y.message);
        if x.location is Some && y.location is Some {
            text_less_total(x.location->0.path, y.location->0.path);
            spans_are_ordered(x.location->0.span, y.location->0.span);
        }
        if i < j {
            assert(!errors_tie(report.errors[i], report.errors[j]));
        } else {
            assert(!errors_tie(report.errors[j], report.errors[i]));
        }
    }
}

/// Where nothing ties, the order in which a report lists things does not show in what is
/// made of it: neither in the report as it is written nor in what people read.
pub proof fn list_order_is_irrelevant(a: ValidationReportView, b: ValidationReportView)
    requires
        reordered(a, b),
        without_ties(a),
    ensures
        normalized(a) == normalized(b),
        human(a) == human(b),
{
    let f = |x: FindingView| reported_finding(x);
    let g = |x: AnalysisGapView| reported_gap(x);
    let h = |x: OperationalErrorView| reported_error(x);
    shown_findings_are_told_apart(a);
    shown_gaps_are_told_apart(a);
    shown_exemptions_are_told_apart(a);
    shown_errors_are_told_apart(a);
    mapped_of_permutation(a.findings, b.findings, f);
    mapped_of_permutation(a.analysis_gaps, b.analysis_gaps, g);
    mapped_of_permutation(a.errors, b.errors, h);
    sorted_of_permutation::<Finding, FindingOrder>(mapped(a.findings, f), mapped(b.findings, f));
    sorted_of_permutation::<AnalysisGap, GapOrder>(
        mapped(a.analysis_gaps, g),
        mapped(b.analysis_gaps, g),
    );
    sorted_of_permutation::<AppliedExemption, ExemptionOrder>(a.exemptions, b.exemptions);
    sorted_of_permutation::<OperationalError, ErrorOrder>(
        mapped(a.errors, h),
        mapped(b.errors, h),
    );
    listed_alike(a);
    listed_alike(b);
}

/// The lists of a normalized report.
pub(crate) proof fn listed_alike(report: ValidationReportView)
    ensures
        normalized(report).findings == sorted::<Finding, FindingOrder>(
            mapped(report.findings, |x: FindingView| reported_finding(x)),
        ),
        normalized(report).analysis_gaps == sorted::<AnalysisGap, GapOrder>(
            mapped(report.analysis_gaps, |x: AnalysisGapView| reported_gap(x)),
        ),
        normalized(report).errors == sorted::<OperationalError, ErrorOrder>(
            mapped(report.errors, |x: OperationalErrorView| reported_error(x)),
        ),
{
    assert(mapped(report.findings, |x: FindingView| reported_finding(x)) =~= Seq::new(
        report.findings.len(),
        |i: int| reported_finding(report.findings[i]),
    ));
    assert(mapped(report.analysis_gaps, |x: AnalysisGapView| reported_gap(x)) =~= Seq::new(
        report.analysis_gaps.len(),
        |i: int| reported_gap(report.analysis_gaps[i]),
    ));
    assert(mapped(report.errors, |x: OperationalErrorView| reported_error(x)) =~= Seq::new(
        report.errors.len(),
        |i: int| reported_error(report.errors[i]),
    ));
}

/// What is in one of two texts is in both together.
pub(crate) proof fn joined_holds(a: Seq<char>, b: Seq<char>)
    ensures
        forall|x: Seq<char>|
            contains_text(a, x) || contains_text(b, x) ==> #[trigger] contains_text(a + b, x),
{
    assert forall|x: Seq<char>| contains_text(a, x) || contains_text(b, x) implies #[trigger]
        contains_text(a + b, x) by {
        contains_text_iff(a, x);
        contains_text_iff(b, x);
        contains_text_iff(a + b, x);
        if contains_text(a, x) {
            let i = choose|i: int| matches_at(a, x, i);
            assert((a + b).subrange(i, i + x.len()) =~= a.subrange(i, i + x.len()));
            assert(matches_at(a + b, x, i));
        } else {
            let i = choose|i: int| matches_at(b, x, i);
            assert((a + b).subrange(a.len() + i, a.len() + i + x.len()) =~= b.subrange(
                i,
                i + x.len(),
            ));
            assert(matches_at(a + b, x, a.len() + i));
        }
    }
}

pub(crate) proof fn holds_itself(x: Seq<char>)
    ensures
        contains_text(x, x),
{
    contains_text_iff(x, x);
    assert(x.subrange(0, x.len() as int) =~= x);
    assert(matches_at(x, x, 0));
}

pub(crate) proof fn holds_through(whole: Seq<char>, part: Seq<char>, x: Seq<char>)
    requires
        contains_text(whole, part),
        contains_text(part, x),
    ensures
        contains_text(whole, x),
{
    contains_text_iff(whole, part);
    contains_text_iff(part, x);
    contains_text_iff(whole, x);
    let i = choose|i: int| matches_at(whole, part, i);
    let j = choose|j: int| matches_at(part, x, j);
    assert(whole.subrange(i + j, i + j + x.len()) =~= part.subrange(j, j + x.len()));
    assert(matches_at(whole, x, i + j));
}

pub(crate) proof fn flat_holds<A>(s: Seq<A>, f: spec_fn(A) -> Seq<char>, i: int)
    requires
        0 <= i < s.len(),
    ensures
        contains_text(flat(s, f), f(s[i])),
    decreases s.len(),
{
    joined_holds(flat(s.drop_last(), f), f(s.last()));
    if i == s.len() - 1 {
        holds_itself(f(s.last()));
    } else {
        flat_holds(s.drop_last(), f, i);
    }
}

/// What is told of a finding.
pub open spec fn tells(text: Seq<char>, finding: FindingView) -> bool {
    &&& contains_text(text, finding.rule_id)
    &&& contains_text(text, finding.message)
    &&& contains_text(text, shown_location(finding.primary))
    &&& contains_text(text, finding.why_it_matters)
    &&& contains_text(text, finding.remediation.summary)
    &&& forall|i: int|
        0 <= i < finding.remediation.actions.len() ==> contains_text(
            text,
            #[trigger] finding.remediation.actions[i],
        )
    &&& contains_text(text, finding.remediation.rerun)
}

proof fn finding_is_told(finding: FindingView)
    ensures
        tells(shown_finding(finding), finding),
{
    let example = match finding.remediation.example {
        Some(example) => "  example: "@ + example + "\n"@,
        None => ""@,
    };
    let actions = shown_actions(finding.remediation.actions);
    let a1 = "error["@ + finding.rule_id;
    let a2 = a1 + "]: "@;
    let a3 = a2 + finding.message;
    let a4 = a3 + "\n"@;
    let a5 = a4 + "  --> "@;
    let a6 = a5 + shown_location(finding.primary);
    let a7 = a6 + "\n"@;
    let a8 = a7 + shown_evidence_list(finding.evidence);
    let a9 = a8 + "  why: "@;
    let a10 = a9 + finding.why_it_matters;
    let a11 = a10 + "\n"@;
    let a12 = a11 + "  fix: "@;
    let a13 = a12 + finding.remediation.summary;
    let a14 = a13 + "\n"@;
    let a15 = a14 + actions;
    let a16 = a15 + example;
    let a17 = a16 + "  rerun: "@;
    let a18 = a17 + finding.remediation.rerun;
    let text = a18 + "\n"@;
    assert(text == shown_finding(finding));
    joined_holds("error["@, finding.rule_id);
    joined_holds(a1, "]: "@);
    joined_holds(a2, finding.message);
    joined_holds(a3, "\n"@);
    joined_holds(a4, "  --> "@);
    joined_holds(a5, shown_location(finding.primary));
    joined_holds(a6, "\n"@);
    joined_holds(a7, shown_evidence_list(finding.evidence));
    joined_holds(a8, "  why: "@);
    joined_holds(a9, finding.why_it_matters);
    joined_holds(a10, "\n"@);
    joined_holds(a11, "  fix: "@);
    joined_holds(a12, finding.remediation.summary);
    joined_holds(a13, "\n"@);
    joined_holds(a14, actions);
    joined_holds(a15, example);
    joined_holds(a16, "  rerun: "@);
    joined_holds(a17, finding.remediation.rerun);
    joined_holds(a18, "\n"@);
    holds_itself(finding.rule_id);
    holds_itself(finding.message);
    holds_itself(shown_location(finding.primary));
    holds_itself(finding.why_it_matters);
    holds_itself(finding.remediation.summary);
    holds_itself(finding.remediation.rerun);
    assert forall|i: int| 0 <= i < finding.remediation.actions.len() implies contains_text(
        text,
        #[trigger] finding.remediation.actions[i],
    ) by {
        let action = finding.remediation.actions[i];
        let f = |action: Seq<char>| "    - "@ + action + "\n"@;
        flat_holds(finding.remediation.actions, f, i);
        holds_itself(action);
        joined_holds("    - "@, action);
        joined_holds("    - "@ + action, "\n"@);
        assert(contains_text(f(action), action));
        holds_through(actions, f(action), action);
    }
}

proof fn findings_are_told(findings: Seq<FindingView>, n: int, i: int)
    requires
        0 <= i < n <= findings.len(),
    ensures
        contains_text(shown_findings(findings, n), shown_finding(findings[i])),
    decreases n,
{
    let before = shown_findings(findings, n - 1);
    let head = shown_test(findings, n - 1);
    let last = shown_finding(findings[n - 1]);
    joined_holds(before, head);
    joined_holds(before + head, last);
    if i == n - 1 {
        holds_itself(last);
    } else {
        findings_are_told(findings, n - 1, i);
    }
}

/// What people read tells of every finding its rule, message and place, why it matters,
/// what to do and how to check again.
pub proof fn every_finding_is_told(report: ValidationReportView, i: int)
    requires
        0 <= i < report.findings.len(),
    ensures
        tells(human(report), reported_finding(report.findings[i])),
{
    let f = |x: FindingView| reported_finding(x);
    let finding = reported_finding(report.findings[i]);
    let ordered = normalized(report);
    listed_alike(report);
    let all = mapped(report.findings, f);
    assert(all[i] == finding);
    sorted_keeps_values::<Finding, FindingOrder>(all, finding);
    let k = ordered.findings.index_of(finding);
    assert(ordered.findings[k] == finding);
    let shown = shown_findings(ordered.findings, ordered.findings.len() as int);
    findings_are_told(ordered.findings, ordered.findings.len() as int, k);
    finding_is_told(finding);
    let errors = shown_errors(ordered.errors);
    let gaps = shown_gaps(ordered.analysis_gaps);
    let exemptions = shown_exemptions(ordered.exemptions);
    let body = shown_body(ordered);
    joined_holds(shown, gaps);
    joined_holds(shown + gaps, exemptions);
    joined_holds(errors, body);
    joined_holds(errors + body, shown_summary(errors + body, ordered));
    let text = human(report);
    let part = shown_finding(finding);
    assert(contains_text(shown + gaps, part));
    assert(contains_text(body, part));
    assert(contains_text(errors + body, part));
    assert(contains_text(text, part));
    holds_through(text, part, finding.rule_id);
    holds_through(text, part, finding.message);
    holds_through(text, part, shown_location(finding.primary));
    holds_through(text, part, finding.why_it_matters);
    holds_through(text, part, finding.remediation.summary);
    holds_through(text, part, finding.remediation.rerun);
    assert forall|i: int| 0 <= i < finding.remediation.actions.len() implies contains_text(
        text,
        #[trigger] finding.remediation.actions[i],
    ) by {
        holds_through(text, part, finding.remediation.actions[i]);
    }
}

} // verus!
