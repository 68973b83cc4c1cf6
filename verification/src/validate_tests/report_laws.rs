//! What a report tells, in words and as a SARIF log.

use vstd::prelude::*;

use super::independence::{flat_holds, holds_itself, holds_through, joined_holds, listed_alike};
use super::model::{
    AnalysisGap, AnalysisGapView, AppliedExemption, AppliedExemptionView, FindingView,
    OperationalError, OperationalErrorView, SourceLocationView, ValidationReportView,
};
use super::report::{
    error_notification_of, error_notifications_of, exit_code_of, gap_notification_of, human,
    normalized, outcome_word, reported_error, reported_gap, sarif_invocation_of, sarif_place,
    sarif_result_of, sarif_results_of, shown_body, shown_error, shown_errors, shown_exemption,
    shown_exemptions, shown_findings, shown_gap, shown_gaps, shown_location, shown_summary,
    ErrorOrder, ExemptionOrder, GapOrder,
};
use crate::json::JsonView;
use crate::order::sorted_keeps_values;
use crate::seqs::{keep, mapped};
use crate::text::{contains_text, has_prefix};

verus! {

proof fn body_is_told(report: ValidationReportView, part: Seq<char>)
    requires
        ({
            let ordered = normalized(report);
            contains_text(shown_errors(ordered.errors), part) || contains_text(
                shown_gaps(ordered.analysis_gaps),
                part,
            ) || contains_text(shown_exemptions(ordered.exemptions), part)
        }),
    ensures
        contains_text(human(report), part),
{
    let ordered = normalized(report);
    let shown = shown_findings(ordered.findings, ordered.findings.len() as int);
    let errors = shown_errors(ordered.errors);
    let gaps = shown_gaps(ordered.analysis_gaps);
    let exemptions = shown_exemptions(ordered.exemptions);
    let body = shown_body(ordered);
    joined_holds(shown, gaps);
    joined_holds(shown + gaps, exemptions);
    joined_holds(errors, body);
    joined_holds(errors + body, shown_summary(errors + body, ordered));
    if contains_text(gaps, part) {
        assert(contains_text(shown + gaps, part));
        assert(contains_text(body, part));
    }
    if contains_text(exemptions, part) {
        assert(contains_text(body, part));
    }
    assert(contains_text(errors + body, part));
}

/// What people read tells of every gap its code, its test, its place and its message.
pub proof fn every_gap_is_told(report: ValidationReportView, i: int)
    requires
        0 <= i < report.analysis_gaps.len(),
    ensures
        contains_text(human(report), report.analysis_gaps[i].code),
        contains_text(human(report), report.analysis_gaps[i].message),
        contains_text(human(report), report.analysis_gaps[i].test.qualified_name),
        contains_text(
            human(report),
            shown_location(reported_gap(report.analysis_gaps[i]).location),
        ),
{
    let f = |x: AnalysisGapView| reported_gap(x);
    let gap = reported_gap(report.analysis_gaps[i]);
    let ordered = normalized(report);
    listed_alike(report);
    let all = mapped(report.analysis_gaps, f);
    assert(all[i] == gap);
    sorted_keeps_values::<AnalysisGap, GapOrder>(all, gap);
    let k = ordered.analysis_gaps.index_of(gap);
    assert(ordered.analysis_gaps[k] == gap);
    let g = |g: AnalysisGapView| shown_gap(g);
    flat_holds(ordered.analysis_gaps, g, k);
    joined_holds(
        "\nAnalysis gaps (non-blocking):\n"@,
        crate::seqs::flat(ordered.analysis_gaps, g),
    );
    let part = shown_gap(gap);
    assert(contains_text(shown_gaps(ordered.analysis_gaps), part));
    body_is_told(report, part);
    let place = shown_location(gap.location);
    let a1 = "  warning["@ + gap.code;
    let a2 = a1 + "] "@;
    let a3 = a2 + gap.test.qualified_name;
    let a4 = a3 + " at "@;
    let a5 = a4 + place;
    let a6 = a5 + ": "@;
    let a7 = a6 + gap.message;
    joined_holds("  warning["@, gap.code);
    joined_holds(a1, "] "@);
    joined_holds(a2, gap.test.qualified_name);
    joined_holds(a3, " at "@);
    joined_holds(a4, place);
    joined_holds(a5, ": "@);
    joined_holds(a6, gap.message);
    joined_holds(a7, "\n"@);
    holds_itself(gap.code);
    holds_itself(gap.test.qualified_name);
    holds_itself(place);
    holds_itself(gap.message);
    assert(contains_text(a1, gap.code) && contains_text(a2, gap.code) && contains_text(
        a3,
        gap.code,
    ));
    holds_through(human(report), part, gap.code);
    holds_through(human(report), part, gap.test.qualified_name);
    holds_through(human(report), part, place);
    holds_through(human(report), part, gap.message);
}

/// What people read tells of every error its code and its message.
pub proof fn every_error_is_told(report: ValidationReportView, i: int)
    requires
        0 <= i < report.errors.len(),
    ensures
        contains_text(human(report), report.errors[i].code),
        contains_text(human(report), report.errors[i].message),
{
    let f = |x: OperationalErrorView| reported_error(x);
    let error = reported_error(report.errors[i]);
    let ordered = normalized(report);
    listed_alike(report);
    let all = mapped(report.errors, f);
    assert(all[i] == error);
    sorted_keeps_values::<OperationalError, ErrorOrder>(all, error);
    let k = ordered.errors.index_of(error);
    assert(ordered.errors[k] == error);
    let g = |e: OperationalErrorView| shown_error(e);
    flat_holds(ordered.errors, g, k);
    let part = shown_error(error);
    body_is_told(report, part);
    let place = match error.location {
        Some(location) => "  --> "@ + shown_location(location) + "\n"@,
        None => ""@,
    };
    let a1 = "error["@ + error.code;
    let a2 = a1 + "]: "@;
    let a3 = a2 + error.message;
    let a4 = a3 + "\n"@;
    let a5 = a4 + place;
    joined_holds("error["@, error.code);
    joined_holds(a1, "]: "@);
    joined_holds(a2, error.message);
    joined_holds(a3, "\n"@);
    joined_holds(a4, place);
    joined_holds(a5, "\n"@);
    holds_itself(error.code);
    holds_itself(error.message);
    assert(contains_text(a2, error.code) && contains_text(a3, error.code));
    holds_through(human(report), part, error.code);
    holds_through(human(report), part, error.message);
}

/// What people read tells of every exemption its rule, its test and its reason.
pub proof fn every_exemption_is_told(report: ValidationReportView, i: int)
    requires
        0 <= i < report.exemptions.len(),
    ensures
        contains_text(human(report), report.exemptions[i].rule_id),
        contains_text(human(report), report.exemptions[i].test.qualified_name),
        contains_text(human(report), report.exemptions[i].reason),
{
    let exemption = report.exemptions[i];
    let ordered = normalized(report);
    sorted_keeps_values::<AppliedExemption, ExemptionOrder>(report.exemptions, exemption);
    let k = ordered.exemptions.index_of(exemption);
    assert(ordered.exemptions[k] == exemption);
    let g = |e: AppliedExemptionView| shown_exemption(e);
    flat_holds(ordered.exemptions, g, k);
    joined_holds("\nApplied exemptions:\n"@, crate::seqs::flat(ordered.exemptions, g));
    let part = shown_exemption(exemption);
    assert(contains_text(shown_exemptions(ordered.exemptions), part));
    body_is_told(report, part);
    let a1 = "  "@ + exemption.rule_id;
    let a2 = a1 + " "@;
    let a3 = a2 + exemption.test.qualified_name;
    let a4 = a3 + ": "@;
    let a5 = a4 + exemption.reason;
    joined_holds("  "@, exemption.rule_id);
    joined_holds(a1, " "@);
    joined_holds(a2, exemption.test.qualified_name);
    joined_holds(a3, ": "@);
    joined_holds(a4, exemption.reason);
    joined_holds(a5, "\n"@);
    holds_itself(exemption.rule_id);
    holds_itself(exemption.test.qualified_name);
    holds_itself(exemption.reason);
    assert(contains_text(a2, exemption.rule_id) && contains_text(a3, exemption.rule_id));
    holds_through(human(report), part, exemption.rule_id);
    holds_through(human(report), part, exemption.test.qualified_name);
    holds_through(human(report), part, exemption.reason);
}

/// A validation is told to have passed where it was complete without findings, to have failed
/// where it was complete with findings, and to be incomplete otherwise.
pub proof fn outcome_is_told_in_a_word(report: ValidationReportView)
    ensures
        exit_code_of(report) == 0 ==> contains_text(human(report), "Validation "@ + "passed"@),
        exit_code_of(report) == 1 ==> contains_text(human(report), "Validation "@ + "failed"@),
        exit_code_of(report) == 2 ==> contains_text(human(report), "Validation "@ + "incomplete"@),
{
    super::report::normalizing_keeps_the_exit_code(report);
    let ordered = normalized(report);
    crate::order::sorted_is_permutation::<super::model::Finding, super::report::FindingOrder>(
        Seq::new(
            report.findings.len(),
            |i: int| super::report::reported_finding(report.findings[i]),
        ),
    );
    let before = shown_errors(ordered.errors) + shown_body(ordered);
    let summary = shown_summary(before, ordered);
    let told = "Validation "@ + outcome_word(ordered);
    joined_holds(before, summary);
    summary_tells(before, ordered);
    assert(contains_text(before + summary, told));
}

proof fn summary_tells(before: Seq<char>, report: ValidationReportView)
    ensures
        contains_text(shown_summary(before, report), "Validation "@ + outcome_word(report)),
{
    let told = "Validation "@ + outcome_word(report);
    let text = shown_summary(before, report);
    let head = if before.len() > 0 && !crate::text::has_suffix(before, "\n\n"@) {
        "\n"@
    } else {
        ""@
    };
    let rest = text.subrange((head.len() + told.len()) as int, text.len() as int);
    assert(text =~= head + told + rest);
    joined_holds(head, told);
    joined_holds(head + told, rest);
    holds_itself(told);
    assert(contains_text(head + told, told));
}

/// Whether a value has a member.
pub open spec fn has_member(json: JsonView, key: Seq<char>, value: JsonView) -> bool {
    match json {
        JsonView::Object(members) => exists|k: int|
            0 <= k < members.len() && (#[trigger] members[k]).0 == key && members[k].1 == value,
        _ => false,
    }
}

proof fn member_at(members: Seq<(Seq<char>, JsonView)>, k: int)
    requires
        0 <= k < members.len(),
    ensures
        has_member(JsonView::Object(members), members[k].0, members[k].1),
{
    let json = JsonView::Object(members);
    assert(json->Object_0[k].0 == members[k].0);
}

/// A SARIF log has one result for every finding, in the same order, with its rule, its
/// severity as level and its place.
pub proof fn results_tell_findings(findings: Seq<FindingView>, i: int)
    requires
        0 <= i < findings.len(),
    ensures
        sarif_results_of(findings).len() == findings.len(),
        has_member(sarif_results_of(findings)[i], "ruleId"@, JsonView::Text(findings[i].rule_id)),
        findings[i].severity == "error"@ || findings[i].severity == "warning"@
            || findings[i].severity == "note"@ ==> has_member(
            sarif_results_of(findings)[i],
            "level"@,
            JsonView::Text(findings[i].severity),
        ),
{
    let ids = crate::names::listed(super::report::rule_ids_of(findings));
    let result = sarif_result_of(findings[i], ids.index_of(findings[i].rule_id));
    assert(sarif_results_of(findings)[i] == result);
    if let JsonView::Object(members) = result {
        member_at(members, 0);
        member_at(members, 2);
    }
}

/// A place in a SARIF log has the four numbers of the span.
pub proof fn places_tell_spans(location: SourceLocationView)
    ensures
        exists|region: JsonView| #[trigger]
            has_member(sarif_place(location), "region"@, region) && has_member(
                region,
                "startLine"@,
                JsonView::Number(location.span.start.line as u64),
            ) && has_member(
                region,
                "startColumn"@,
                JsonView::Number(location.span.start.column as u64),
            ) && has_member(region, "endLine"@, JsonView::Number(location.span.end.line as u64))
                && has_member(
                region,
                "endColumn"@,
                JsonView::Number(location.span.end.column as u64),
            ),
{
    if let JsonView::Object(members) = sarif_place(location) {
        member_at(members, 1);
        if let JsonView::Object(numbers) = members[1].1 {
            member_at(numbers, 0);
            member_at(numbers, 1);
            member_at(numbers, 2);
            member_at(numbers, 3);
        }
        assert(has_member(sarif_place(location), "region"@, members[1].1));
    }
}

/// The invocation in a SARIF log has the exit code, and is successful exactly where the
/// validation was complete.
pub proof fn invocations_tell_the_outcome(report: ValidationReportView)
    ensures
        has_member(
            sarif_invocation_of(report),
            "exitCode"@,
            JsonView::Number(exit_code_of(report) as u64),
        ),
        exit_code_of(report) == 2 ==> has_member(
            sarif_invocation_of(report),
            "executionSuccessful"@,
            JsonView::Bool(false),
        ),
        exit_code_of(report) != 2 ==> has_member(
            sarif_invocation_of(report),
            "executionSuccessful"@,
            JsonView::Bool(true),
        ),
{
    if let JsonView::Object(members) = sarif_invocation_of(report) {
        member_at(members, 0);
        member_at(members, 1);
    }
}

/// In a SARIF log gaps are warnings and errors are errors.
pub proof fn notifications_have_levels(
    gap: AnalysisGapView,
    error: OperationalErrorView,
    ids: Seq<Seq<char>>,
)
    ensures
        has_member(gap_notification_of(gap, ids), "level"@, JsonView::Text("warning"@)),
        has_member(error_notification_of(error, ids), "level"@, JsonView::Text("error"@)),
{
    if let JsonView::Object(members) = gap_notification_of(gap, ids) {
        member_at(members, 1);
    }
    if let JsonView::Object(members) = error_notification_of(error, ids) {
        member_at(members, 1);
    }
}

/// How many errors are about the configuration.
pub open spec fn about_the_configuration(errors: Seq<OperationalErrorView>) -> nat {
    crate::summarize_benchmarks::laws::places(
        errors,
        |e: OperationalErrorView| "config."@.is_prefix_of(e.code),
    )
}

/// Every error is told once, those about the configuration apart from the others.
pub proof fn errors_are_told_by_what_they_are_about(
    errors: Seq<OperationalErrorView>,
    ids: Seq<Seq<char>>,
)
    ensures
        error_notifications_of(errors, ids, true).len() == about_the_configuration(errors),
        error_notifications_of(errors, ids, true).len() + error_notifications_of(
            errors,
            ids,
            false,
        ).len() == errors.len(),
{
    let p = |e: OperationalErrorView| has_prefix(e.code, "config."@);
    let q = |e: OperationalErrorView| "config."@.is_prefix_of(e.code);
    told_apart(errors, ids);
    crate::seqs::kept_count(errors, p);
    assert forall|e: OperationalErrorView| #[trigger] p(e) == q(e) by {
        crate::text_laws::prefixes_and_suffixes(e.code, "config."@);
    }
    assert(vstd::set_lib::set_int_range(0, errors.len() as int).filter(|i: int| p(errors[i]))
        =~= vstd::set_lib::set_int_range(0, errors.len() as int).filter(|i: int| q(errors[i])));
}

proof fn told_apart(errors: Seq<OperationalErrorView>, ids: Seq<Seq<char>>)
    ensures
        error_notifications_of(errors, ids, true).len() == keep(
            errors,
            |e: OperationalErrorView| has_prefix(e.code, "config."@),
        ).len(),
        error_notifications_of(errors, ids, true).len() + error_notifications_of(
            errors,
            ids,
            false,
        ).len() == errors.len(),
    decreases errors.len(),
{
    if errors.len() > 0 {
        told_apart(errors.drop_last(), ids);
    }
}

} // verus!
