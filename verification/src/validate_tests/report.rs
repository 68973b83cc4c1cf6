//! Reports of a validation: in order, for people, and as SARIF.

use vstd::prelude::*;

use super::model::{
    AnalysisGap, AnalysisGapView, AppliedExemption, AppliedExemptionView, Evidence, EvidenceView,
    Finding, FindingCategory, FindingView, OperationalError, OperationalErrorView, ReportStatus,
    SourceLocation, SourceLocationView, SourceSpan, ToolInfo, ValidationReport,
    ValidationReportView,
};
use crate::copies::{copy_all, Copied};
use crate::json::{list, member, member_views, object, text, Json, JsonView};
use crate::names::{listed, Names};
use crate::order::{sort, sorted, Order};
use crate::seqs::{flat, take_all, take_step, views};
use crate::text::{
    chars, decimal, ends_with, has_prefix, has_suffix, less, number, replace_char, same, slice,
    starts_with, text_less, text_less_irreflexive, text_order, then_text, with_char,
};

verus! {

broadcast use {vstd::std_specs::vec::group_vec_axioms, crate::seqs::group_views};

/// A path as it is reported: with forward slashes and without one leading `./`.
pub open spec fn report_path(path: Seq<char>) -> Seq<char> {
    let slashed = with_char(path, '\\', '/');
    if has_prefix(slashed, "./"@) {
        slashed.skip(2)
    } else {
        slashed
    }
}

pub fn normalize_path(path: &str) -> (r: String)
    ensures
        r@ == report_path(path@),
{
    let slashed = replace_char(path, '\\', '/');
    if starts_with(slashed.as_str(), "./") {
        proof {
            reveal_strlit("./");
        }
        let all = chars(slashed.as_str());
        let size: usize = all.len();
        let rest = slice(all.as_slice(), 2, size);
        assert(rest@ =~= slashed@.skip(2));
        rest
    } else {
        slashed
    }
}

/// A path with forward slashes that does not begin with `./` is reported as it is.
pub proof fn plain_path_is_reported_unchanged(path: Seq<char>)
    requires
        !path.contains('\\'),
        !has_prefix(path, "./"@),
    ensures
        report_path(path) == path,
{
    assert forall|i: int| 0 <= i < path.len() implies path[i] != '\\' by {
        if path[i] == '\\' {
            assert(path.contains(path[i]));
        }
    }
    assert(with_char(path, '\\', '/') =~= path);
}

pub open spec fn reported_location(location: SourceLocationView) -> SourceLocationView {
    SourceLocationView { path: report_path(location.path), ..location }
}

fn normalize_location(location: &SourceLocation) -> (r: SourceLocation)
    ensures
        r@ == reported_location(location@),
{
    SourceLocation {
        path: normalize_path(location.path.as_str()),
        span: location.span,
        label: location.label.clone(),
    }
}

pub open spec fn reported_evidence(evidence: EvidenceView) -> EvidenceView {
    EvidenceView { location: reported_location(evidence.location), ..evidence }
}

pub open spec fn reported_finding(finding: FindingView) -> FindingView {
    FindingView {
        primary: reported_location(finding.primary),
        evidence: Seq::new(finding.evidence.len(), |i: int| reported_evidence(finding.evidence[i])),
        ..finding
    }
}

pub open spec fn reported_gap(gap: AnalysisGapView) -> AnalysisGapView {
    AnalysisGapView { location: reported_location(gap.location), ..gap }
}

pub open spec fn reported_error(error: OperationalErrorView) -> OperationalErrorView {
    OperationalErrorView {
        location: match error.location {
            Some(location) => Some(reported_location(location)),
            None => None,
        },
        ..error
    }
}

fn normalize_finding(finding: &Finding) -> (r: Finding)
    ensures
        r@ == reported_finding(finding@),
{
    let mut evidence: Vec<Evidence> = Vec::new();
    let mut i: usize = 0;
    while i < finding.evidence.len()
        invariant
            i <= finding.evidence@.len(),
            views(evidence@) == reported_finding(finding@).evidence.take(i as int),
        decreases finding.evidence@.len() - i,
    {
        let item = &finding.evidence[i];
        evidence.push(
            Evidence {
                kind: item.kind.clone(),
                message: item.message.clone(),
                location: normalize_location(&item.location),
            },
        );
        i += 1;
        assert(views(evidence@) =~= reported_finding(finding@).evidence.take(i as int));
    }
    assert(reported_finding(finding@).evidence.take(i as int) =~= reported_finding(
        finding@,
    ).evidence);
    Finding {
        rule_id: finding.rule_id.clone(),
        category: finding.category,
        severity: finding.severity,
        confidence: finding.confidence,
        fingerprint: finding.fingerprint.clone(),
        test: finding.test.copied(),
        message: finding.message.clone(),
        primary: normalize_location(&finding.primary),
        evidence,
        why_it_matters: finding.why_it_matters.clone(),
        remediation: finding.remediation.copied(),
    }
}

/// Orders spans by their start and then by their end.
pub open spec fn span_before(a: SourceSpan, b: SourceSpan) -> bool {
    a.start.precedes(b.start) || (a.start == b.start && a.end.precedes(b.end))
}

fn is_span_before(a: &SourceSpan, b: &SourceSpan) -> (r: bool)
    ensures
        r == span_before(*a, *b),
{
    a.start.is_before(&b.start) || (a.start == b.start && a.end.is_before(&b.end))
}

/// Orders findings by path, test, rule and place.
pub struct FindingOrder;

impl Order<Finding> for FindingOrder {
    open spec fn before(a: FindingView, b: FindingView) -> bool {
        then_text(
            a.primary.path,
            b.primary.path,
            then_text(
                a.test.qualified_name,
                b.test.qualified_name,
                then_text(a.rule_id, b.rule_id, span_before(a.primary.span, b.primary.span)),
            ),
        )
    }

    fn is_before(a: &Finding, b: &Finding) -> (r: bool) {
        if !same(a.primary.path.as_str(), b.primary.path.as_str()) {
            return less(a.primary.path.as_str(), b.primary.path.as_str());
        }
        proof {
            text_less_irreflexive(a.primary.path@);
            text_less_irreflexive(a.test.qualified_name@);
            text_less_irreflexive(a.rule_id@);
        }
        if !same(a.test.qualified_name.as_str(), b.test.qualified_name.as_str()) {
            return less(a.test.qualified_name.as_str(), b.test.qualified_name.as_str());
        }
        if !same(a.rule_id.as_str(), b.rule_id.as_str()) {
            return less(a.rule_id.as_str(), b.rule_id.as_str());
        }
        is_span_before(&a.primary.span, &b.primary.span)
    }

    proof fn strict_weak(a: FindingView, b: FindingView, c: FindingView) {
        text_order(a.primary.path, b.primary.path, c.primary.path);
        text_order(b.primary.path, a.primary.path, c.primary.path);
        text_order(b.primary.path, c.primary.path, a.primary.path);
        text_order(a.test.qualified_name, b.test.qualified_name, c.test.qualified_name);
        text_order(b.test.qualified_name, a.test.qualified_name, c.test.qualified_name);
        text_order(b.test.qualified_name, c.test.qualified_name, a.test.qualified_name);
        text_order(a.rule_id, b.rule_id, c.rule_id);
        text_order(b.rule_id, a.rule_id, c.rule_id);
        text_order(b.rule_id, c.rule_id, a.rule_id);
    }
}

/// Orders gaps by path, test, code and place.
pub struct GapOrder;

impl Order<AnalysisGap> for GapOrder {
    open spec fn before(a: AnalysisGapView, b: AnalysisGapView) -> bool {
        then_text(
            a.location.path,
            b.location.path,
            then_text(
                a.test.qualified_name,
                b.test.qualified_name,
                then_text(a.code, b.code, span_before(a.location.span, b.location.span)),
            ),
        )
    }

    fn is_before(a: &AnalysisGap, b: &AnalysisGap) -> (r: bool) {
        if !same(a.location.path.as_str(), b.location.path.as_str()) {
            return less(a.location.path.as_str(), b.location.path.as_str());
        }
        proof {
            text_less_irreflexive(a.location.path@);
            text_less_irreflexive(a.test.qualified_name@);
            text_less_irreflexive(a.code@);
        }
        if !same(a.test.qualified_name.as_str(), b.test.qualified_name.as_str()) {
            return less(a.test.qualified_name.as_str(), b.test.qualified_name.as_str());
        }
        if !same(a.code.as_str(), b.code.as_str()) {
            return less(a.code.as_str(), b.code.as_str());
        }
        is_span_before(&a.location.span, &b.location.span)
    }

    proof fn strict_weak(a: AnalysisGapView, b: AnalysisGapView, c: AnalysisGapView) {
        text_order(a.location.path, b.location.path, c.location.path);
        text_order(b.location.path, a.location.path, c.location.path);
        text_order(b.location.path, c.location.path, a.location.path);
        text_order(a.test.qualified_name, b.test.qualified_name, c.test.qualified_name);
        text_order(b.test.qualified_name, a.test.qualified_name, c.test.qualified_name);
        text_order(b.test.qualified_name, c.test.qualified_name, a.test.qualified_name);
        text_order(a.code, b.code, c.code);
        text_order(b.code, a.code, c.code);
        text_order(b.code, c.code, a.code);
    }
}

/// Orders applied exemptions by test, rule and fingerprint.
pub struct ExemptionOrder;

impl Order<AppliedExemption> for ExemptionOrder {
    open spec fn before(a: AppliedExemptionView, b: AppliedExemptionView) -> bool {
        then_text(
            a.test.qualified_name,
            b.test.qualified_name,
            then_text(a.rule_id, b.rule_id, text_less(a.fingerprint, b.fingerprint)),
        )
    }

    fn is_before(a: &AppliedExemption, b: &AppliedExemption) -> (r: bool) {
        if !same(a.test.qualified_name.as_str(), b.test.qualified_name.as_str()) {
            return less(a.test.qualified_name.as_str(), b.test.qualified_name.as_str());
        }
        proof {
            text_less_irreflexive(a.test.qualified_name@);
            text_less_irreflexive(a.rule_id@);
        }
        if !same(a.rule_id.as_str(), b.rule_id.as_str()) {
            return less(a.rule_id.as_str(), b.rule_id.as_str());
        }
        less(a.fingerprint.as_str(), b.fingerprint.as_str())
    }

    proof fn strict_weak(a: AppliedExemptionView, b: AppliedExemptionView, c: AppliedExemptionView) {
        text_order(a.test.qualified_name, b.test.qualified_name, c.test.qualified_name);
        text_order(b.test.qualified_name, a.test.qualified_name, c.test.qualified_name);
        text_order(b.test.qualified_name, c.test.qualified_name, a.test.qualified_name);
        text_order(a.rule_id, b.rule_id, c.rule_id);
        text_order(b.rule_id, a.rule_id, c.rule_id);
        text_order(b.rule_id, c.rule_id, a.rule_id);
        text_order(a.fingerprint, b.fingerprint, c.fingerprint);
    }
}

/// Orders places by path and span.
pub open spec fn location_before(a: SourceLocationView, b: SourceLocationView) -> bool {
    then_text(a.path, b.path, span_before(a.span, b.span))
}

pub open spec fn same_place(a: SourceLocationView, b: SourceLocationView) -> bool {
    a.path == b.path && a.span == b.span
}

/// Orders errors by code, place and message; an error without a place comes first.
pub open spec fn error_before(a: OperationalErrorView, b: OperationalErrorView) -> bool {
    then_text(
        a.code,
        b.code,
        match (a.location, b.location) {
            (Some(x), Some(y)) => location_before(x, y) || (same_place(x, y) && text_less(
                a.message,
                b.message,
            )),
            (None, Some(_)) => true,
            (Some(_), None) => false,
            (None, None) => text_less(a.message, b.message),
        },
    )
}

pub struct ErrorOrder;

impl Order<OperationalError> for ErrorOrder {
    open spec fn before(a: OperationalErrorView, b: OperationalErrorView) -> bool {
        error_before(a, b)
    }

    fn is_before(a: &OperationalError, b: &OperationalError) -> (r: bool) {
        if !same(a.code.as_str(), b.code.as_str()) {
            return less(a.code.as_str(), b.code.as_str());
        }
        proof {
            text_less_irreflexive(a.code@);
        }
        match (&a.location, &b.location) {
            (Some(x), Some(y)) => {
                if !same(x.path.as_str(), y.path.as_str()) {
                    return less(x.path.as_str(), y.path.as_str());
                }
                proof {
                    text_less_irreflexive(x.path@);
                }
                if x.span != y.span {
                    return is_span_before(&x.span, &y.span);
                }
                less(a.message.as_str(), b.message.as_str())
            },
            (None, Some(_)) => true,
            (Some(_), None) => false,
            (None, None) => less(a.message.as_str(), b.message.as_str()),
        }
    }

    proof fn strict_weak(
        a: OperationalErrorView,
        b: OperationalErrorView,
        c: OperationalErrorView,
    ) {
        text_order(a.code, b.code, c.code);
        text_order(b.code, a.code, c.code);
        text_order(b.code, c.code, a.code);
        text_order(a.message, b.message, c.message);
        text_order(b.message, a.message, c.message);
        if a.location is Some {
            text_less_irreflexive(a.location->0.path);
        }
        if a.location is Some && b.location is Some {
            text_order(a.location->0.path, b.location->0.path, a.location->0.path);
            text_order(b.location->0.path, a.location->0.path, b.location->0.path);
            if c.location is Some {
                text_order(a.location->0.path, b.location->0.path, c.location->0.path);
                text_order(b.location->0.path, a.location->0.path, c.location->0.path);
                text_order(b.location->0.path, c.location->0.path, a.location->0.path);
            }
        }
    }
}

/// A report in its fixed order, with paths as they are reported.
pub open spec fn normalized(report: ValidationReportView) -> ValidationReportView {
    ValidationReportView {
        root: report_path(report.root),
        findings: sorted::<Finding, FindingOrder>(
            Seq::new(report.findings.len(), |i: int| reported_finding(report.findings[i])),
        ),
        analysis_gaps: sorted::<AnalysisGap, GapOrder>(
            Seq::new(report.analysis_gaps.len(), |i: int| reported_gap(report.analysis_gaps[i])),
        ),
        exemptions: sorted::<AppliedExemption, ExemptionOrder>(report.exemptions),
        errors: sorted::<OperationalError, ErrorOrder>(
            Seq::new(report.errors.len(), |i: int| reported_error(report.errors[i])),
        ),
        ..report
    }
}

/// A report in its fixed order, with paths as they are reported.
pub fn normalized_report(report: &ValidationReport) -> (r: ValidationReport)
    ensures
        r@ == normalized(report@),
{
    let ghost want_findings = Seq::new(
        report@.findings.len(),
        |i: int| reported_finding(report@.findings[i]),
    );
    let ghost want_gaps = Seq::new(
        report@.analysis_gaps.len(),
        |i: int| reported_gap(report@.analysis_gaps[i]),
    );
    let ghost want_errors = Seq::new(
        report@.errors.len(),
        |i: int| reported_error(report@.errors[i]),
    );
    let mut findings: Vec<Finding> = Vec::new();
    let mut i: usize = 0;
    while i < report.findings.len()
        invariant
            want_findings == Seq::new(
                report@.findings.len(),
                |i: int| reported_finding(report@.findings[i]),
            ),
            i <= report.findings@.len(),
            views(findings@) == want_findings.take(i as int),
        decreases report.findings@.len() - i,
    {
        findings.push(normalize_finding(&report.findings[i]));
        i += 1;
        assert(views(findings@) =~= want_findings.take(i as int));
    }
    let mut gaps: Vec<AnalysisGap> = Vec::new();
    let mut j: usize = 0;
    while j < report.analysis_gaps.len()
        invariant
            want_gaps == Seq::new(
                report@.analysis_gaps.len(),
                |i: int| reported_gap(report@.analysis_gaps[i]),
            ),
            j <= report.analysis_gaps@.len(),
            views(gaps@) == want_gaps.take(j as int),
        decreases report.analysis_gaps@.len() - j,
    {
        let gap = &report.analysis_gaps[j];
        gaps.push(
            AnalysisGap {
                code: gap.code.clone(),
                test: gap.test.copied(),
                message: gap.message.clone(),
                location: normalize_location(&gap.location),
            },
        );
        j += 1;
        assert(views(gaps@) =~= want_gaps.take(j as int));
    }
    let mut errors: Vec<OperationalError> = Vec::new();
    let mut k: usize = 0;
    while k < report.errors.len()
        invariant
            want_errors == Seq::new(
                report@.errors.len(),
                |i: int| reported_error(report@.errors[i]),
            ),
            k <= report.errors@.len(),
            views(errors@) == want_errors.take(k as int),
        decreases report.errors@.len() - k,
    {
        let error = &report.errors[k];
        let location = match &error.location {
            Some(location) => Some(normalize_location(location)),
            None => None,
        };
        errors.push(
            OperationalError {
                code: error.code.clone(),
                message: error.message.clone(),
                location,
            },
        );
        k += 1;
        assert(views(errors@) =~= want_errors.take(k as int));
    }
    proof {
        take_all(want_findings);
        take_all(want_gaps);
        take_all(want_errors);
    }
    ValidationReport {
        schema_version: report.schema_version,
        tool: ToolInfo { name: report.tool.name, version: report.tool.version },
        status: report.status,
        root: normalize_path(report.root.as_str()),
        summary: report.summary,
        findings: sort::<Finding, FindingOrder>(findings),
        analysis_gaps: sort::<AnalysisGap, GapOrder>(gaps),
        exemptions: sort::<AppliedExemption, ExemptionOrder>(copy_all(&report.exemptions)),
        errors: sort::<OperationalError, ErrorOrder>(errors),
    }
}

/// The exit code of a validation: 2 where it is incomplete, else 1 where there are
/// findings, else 0.
pub open spec fn exit_code_of(report: ValidationReportView) -> i32 {
    if report.status == ReportStatus::Incomplete || report.errors.len() > 0 {
        2
    } else if report.findings.len() > 0 {
        1
    } else {
        0
    }
}

pub fn exit_code(report: &ValidationReport) -> (r: i32)
    ensures
        r == exit_code_of(report@),
{
    if report.status == ReportStatus::Incomplete || report.errors.len() > 0 {
        2
    } else if report.findings.len() > 0 {
        1
    } else {
        0
    }
}

/// The exit code is 2 exactly for an incomplete report or one with errors, 1 exactly
/// for a complete one with findings, and otherwise 0.
pub proof fn exit_code_tells_the_outcome(report: ValidationReportView)
    ensures
        exit_code_of(report) == 2 <==> report.status == ReportStatus::Incomplete
            || report.errors.len() > 0,
        exit_code_of(report) == 1 <==> report.status == ReportStatus::Complete
            && report.errors.len() == 0 && report.findings.len() > 0,
        exit_code_of(report) == 0 <==> report.status == ReportStatus::Complete
            && report.errors.len() == 0 && report.findings.len() == 0,
{
}

/// Putting a report in order does not change its exit code.
pub proof fn normalizing_keeps_the_exit_code(report: ValidationReportView)
    ensures
        exit_code_of(normalized(report)) == exit_code_of(report),
{
    crate::order::sorted_is_permutation::<Finding, FindingOrder>(
        Seq::new(report.findings.len(), |i: int| reported_finding(report.findings[i])),
    );
    crate::order::sorted_is_permutation::<OperationalError, ErrorOrder>(
        Seq::new(report.errors.len(), |i: int| reported_error(report.errors[i])),
    );
}

/// The findings of a report in order are in the order of path, test, rule and place.
pub proof fn normalized_findings_are_ordered(report: ValidationReportView, i: int, j: int)
    requires
        0 <= i < j < normalized(report).findings.len(),
    ensures
        !FindingOrder::before(normalized(report).findings[j], normalized(report).findings[i]),
{
    crate::order::sorted_in_order::<Finding, FindingOrder>(
        Seq::new(report.findings.len(), |i: int| reported_finding(report.findings[i])),
    );
}

/// A place as people read it.
pub open spec fn shown_location(location: SourceLocationView) -> Seq<char> {
    location.path + ":"@ + decimal(location.span.start.line as nat) + ":"@ + decimal(
        location.span.start.column as nat,
    ) + "-"@ + decimal(location.span.end.line as nat) + ":"@ + decimal(
        location.span.end.column as nat,
    )
}

fn display_location(location: &SourceLocation) -> (r: String)
    ensures
        r@ == shown_location(location@),
{
    let mut out = location.path.clone();
    out.append(":");
    out.append(number(location.span.start.line as u64).as_str());
    out.append(":");
    out.append(number(location.span.start.column as u64).as_str());
    out.append("-");
    out.append(number(location.span.end.line as u64).as_str());
    out.append(":");
    out.append(number(location.span.end.column as u64).as_str());
    out
}

pub open spec fn shown_error(error: OperationalErrorView) -> Seq<char> {
    "error["@ + error.code + "]: "@ + error.message + "\n"@ + (match error.location {
        Some(location) => "  --> "@ + shown_location(location) + "\n"@,
        None => ""@,
    }) + "\n"@
}

pub open spec fn shown_errors(errors: Seq<OperationalErrorView>) -> Seq<char> {
    flat(errors, |e: OperationalErrorView| shown_error(e))
}

fn show_error(error: &OperationalError) -> (r: String)
    ensures
        r@ == shown_error(error@),
{
    let mut out = "error[".to_owned();
    out.append(error.code.as_str());
    out.append("]: ");
    out.append(error.message.as_str());
    out.append("\n");
    let place = match &error.location {
        Some(location) => {
            let mut place = "  --> ".to_owned();
            place.append(display_location(location).as_str());
            place.append("\n");
            place
        },
        None => "".to_owned(),
    };
    out.append(place.as_str());
    out.append("\n");
    out
}

fn render_operational_errors(errors: &Vec<OperationalError>) -> (r: String)
    ensures
        r@ == shown_errors(views(errors@)),
{
    let ghost f = |e: OperationalErrorView| shown_error(e);
    let ghost all = views(errors@);
    let mut out = String::new();
    let mut i: usize = 0;
    while i < errors.len()
        invariant
            f == (|e: OperationalErrorView| shown_error(e)),
            all == views(errors@),
            i <= errors@.len(),
            out@ == flat(all.take(i as int), f),
        decreases errors@.len() - i,
    {
        proof {
            take_step(all, i as int);
        }
        out.append(show_error(&errors[i]).as_str());
        i += 1;
    }
    proof {
        take_all(all);
    }
    out
}

pub open spec fn shown_evidence(evidence: EvidenceView) -> Seq<char> {
    "    "@ + evidence.kind + ": "@ + shown_location(evidence.location) + " - "@ + evidence.message
        + "\n"@
}

fn show_evidence(evidence: &Evidence) -> (r: String)
    ensures
        r@ == shown_evidence(evidence@),
{
    let mut out = "    ".to_owned();
    out.append(evidence.kind.as_str());
    out.append(": ");
    out.append(display_location(&evidence.location).as_str());
    out.append(" - ");
    out.append(evidence.message.as_str());
    out.append("\n");
    out
}

pub open spec fn shown_evidence_list(evidence: Seq<EvidenceView>) -> Seq<char> {
    if evidence.len() == 0 {
        ""@
    } else {
        "  evidence:\n"@ + flat(evidence, |e: EvidenceView| shown_evidence(e))
    }
}

fn show_evidence_list(evidence: &Vec<Evidence>) -> (r: String)
    ensures
        r@ == shown_evidence_list(views(evidence@)),
{
    if evidence.len() == 0 {
        return "".to_owned();
    }
    let ghost f = |e: EvidenceView| shown_evidence(e);
    let ghost all = views(evidence@);
    let mut out = "  evidence:\n".to_owned();
    let mut i: usize = 0;
    assert(out@ =~= "  evidence:\n"@ + flat(all.take(0), f));
    while i < evidence.len()
        invariant
            f == (|e: EvidenceView| shown_evidence(e)),
            all == views(evidence@),
            i <= evidence@.len(),
            out@ == "  evidence:\n"@ + flat(all.take(i as int), f),
        decreases evidence@.len() - i,
    {
        proof {
            take_step(all, i as int);
        }
        out.append(show_evidence(&evidence[i]).as_str());
        i += 1;
        assert(out@ =~= "  evidence:\n"@ + flat(all.take(i as int), f));
    }
    proof {
        take_all(all);
    }
    out
}

pub open spec fn shown_actions(actions: Seq<Seq<char>>) -> Seq<char> {
    flat(actions, |action: Seq<char>| "    - "@ + action + "\n"@)
}

fn show_actions(actions: &Vec<String>) -> (r: String)
    ensures
        r@ == shown_actions(views(actions@)),
{
    let ghost f = |action: Seq<char>| "    - "@ + action + "\n"@;
    let ghost all = views(actions@);
    let mut out = String::new();
    let mut i: usize = 0;
    while i < actions.len()
        invariant
            f == (|action: Seq<char>| "    - "@ + action + "\n"@),
            all == views(actions@),
            i <= actions@.len(),
            out@ == flat(all.take(i as int), f),
        decreases actions@.len() - i,
    {
        proof {
            take_step(all, i as int);
        }
        let mut line = "    - ".to_owned();
        line.append(actions[i].as_str());
        line.append("\n");
        out.append(line.as_str());
        i += 1;
    }
    proof {
        take_all(all);
    }
    out
}

/// What is shown of one finding, below the line of its test.
pub open spec fn shown_finding(finding: FindingView) -> Seq<char> {
    "error["@ + finding.rule_id + "]: "@ + finding.message + "\n"@ + "  --> "@ + shown_location(
        finding.primary,
    ) + "\n"@ + shown_evidence_list(finding.evidence) + "  why: "@ + finding.why_it_matters + "\n"@
        + "  fix: "@ + finding.remediation.summary + "\n"@ + shown_actions(
        finding.remediation.actions,
    ) + (match finding.remediation.example {
        Some(example) => "  example: "@ + example + "\n"@,
        None => ""@,
    }) + "  rerun: "@ + finding.remediation.rerun + "\n"@
}

fn show_finding(finding: &Finding) -> (r: String)
    ensures
        r@ == shown_finding(finding@),
{
    let mut out = "error[".to_owned();
    out.append(finding.rule_id.as_str());
    out.append("]: ");
    out.append(finding.message.as_str());
    out.append("\n");
    out.append("  --> ");
    out.append(display_location(&finding.primary).as_str());
    out.append("\n");
    out.append(show_evidence_list(&finding.evidence).as_str());
    out.append("  why: ");
    out.append(finding.why_it_matters.as_str());
    out.append("\n");
    out.append("  fix: ");
    out.append(finding.remediation.summary.as_str());
    out.append("\n");
    out.append(show_actions(&finding.remediation.actions).as_str());
    let example = match &finding.remediation.example {
        Some(example) => {
            let mut line = "  example: ".to_owned();
            line.append(example.as_str());
            line.append("\n");
            line
        },
        None => "".to_owned(),
    };
    out.append(example.as_str());
    out.append("  rerun: ");
    out.append(finding.remediation.rerun.as_str());
    out.append("\n");
    out
}

/// Whether two findings are of the same test of the same file.
pub open spec fn same_test(a: FindingView, b: FindingView) -> bool {
    a.primary.path == b.primary.path && a.test.qualified_name == b.test.qualified_name
}

/// The line of a test, which stands before the first of its findings.
pub open spec fn shown_test(findings: Seq<FindingView>, i: int) -> Seq<char> {
    if i > 0 && same_test(findings[i - 1], findings[i]) {
        ""@
    } else {
        (if i > 0 {
            "\n"@
        } else {
            ""@
        }) + findings[i].primary.path + "::"@ + findings[i].test.qualified_name + "\n"@
    }
}

/// The first `n` findings as people read them.
pub open spec fn shown_findings(findings: Seq<FindingView>, n: int) -> Seq<char>
    decreases n,
{
    if n <= 0 {
        ""@
    } else {
        shown_findings(findings, n - 1) + shown_test(findings, n - 1) + shown_finding(
            findings[n - 1],
        )
    }
}

fn render_findings(findings: &Vec<Finding>) -> (r: String)
    ensures
        r@ == shown_findings(views(findings@), findings@.len() as int),
{
    let ghost all = views(findings@);
    let mut out = "".to_owned();
    let mut i: usize = 0;
    while i < findings.len()
        invariant
            all == views(findings@),
            i <= findings@.len(),
            out@ == shown_findings(all, i as int),
        decreases findings@.len() - i,
    {
        let finding = &findings[i];
        let header = if i > 0 && same(
            findings[i - 1].primary.path.as_str(),
            finding.primary.path.as_str(),
        ) && same(
            findings[i - 1].test.qualified_name.as_str(),
            finding.test.qualified_name.as_str(),
        ) {
            "".to_owned()
        } else {
            let mut header = if i > 0 {
                "\n".to_owned()
            } else {
                "".to_owned()
            };
            header.append(finding.primary.path.as_str());
            header.append("::");
            header.append(finding.test.qualified_name.as_str());
            header.append("\n");
            header
        };
        assert(header@ == shown_test(all, i as int));
        out.append(header.as_str());
        out.append(show_finding(finding).as_str());
        i += 1;
    }
    out
}

pub open spec fn shown_gap(gap: AnalysisGapView) -> Seq<char> {
    "  warning["@ + gap.code + "] "@ + gap.test.qualified_name + " at "@ + shown_location(
        gap.location,
    ) + ": "@ + gap.message + "\n"@
}

pub open spec fn shown_gaps(gaps: Seq<AnalysisGapView>) -> Seq<char> {
    if gaps.len() == 0 {
        ""@
    } else {
        "\nAnalysis gaps (non-blocking):\n"@ + flat(gaps, |g: AnalysisGapView| shown_gap(g))
    }
}

fn show_gap(gap: &AnalysisGap) -> (r: String)
    ensures
        r@ == shown_gap(gap@),
{
    let mut out = "  warning[".to_owned();
    out.append(gap.code.as_str());
    out.append("] ");
    out.append(gap.test.qualified_name.as_str());
    out.append(" at ");
    out.append(display_location(&gap.location).as_str());
    out.append(": ");
    out.append(gap.message.as_str());
    out.append("\n");
    out
}

fn render_analysis_gaps(gaps: &Vec<AnalysisGap>) -> (r: String)
    ensures
        r@ == shown_gaps(views(gaps@)),
{
    if gaps.len() == 0 {
        return "".to_owned();
    }
    let ghost f = |g: AnalysisGapView| shown_gap(g);
    let ghost all = views(gaps@);
    let ghost title = "\nAnalysis gaps (non-blocking):\n"@;
    let mut out = "\nAnalysis gaps (non-blocking):\n".to_owned();
    let mut i: usize = 0;
    assert(out@ =~= title + flat(all.take(0), f));
    while i < gaps.len()
        invariant
            f == (|g: AnalysisGapView| shown_gap(g)),
            all == views(gaps@),
            i <= gaps@.len(),
            out@ == title + flat(all.take(i as int), f),
        decreases gaps@.len() - i,
    {
        proof {
            take_step(all, i as int);
        }
        out.append(show_gap(&gaps[i]).as_str());
        i += 1;
        assert(out@ =~= title + flat(all.take(i as int), f));
    }
    proof {
        take_all(all);
    }
    out
}

pub open spec fn shown_exemption(exemption: AppliedExemptionView) -> Seq<char> {
    "  "@ + exemption.rule_id + " "@ + exemption.test.qualified_name + ": "@ + exemption.reason
        + "\n"@
}

pub open spec fn shown_exemptions(exemptions: Seq<AppliedExemptionView>) -> Seq<char> {
    if exemptions.len() == 0 {
        ""@
    } else {
        "\nApplied exemptions:\n"@ + flat(
            exemptions,
            |e: AppliedExemptionView| shown_exemption(e),
        )
    }
}

fn show_exemption(exemption: &AppliedExemption) -> (r: String)
    ensures
        r@ == shown_exemption(exemption@),
{
    let mut out = "  ".to_owned();
    out.append(exemption.rule_id.as_str());
    out.append(" ");
    out.append(exemption.test.qualified_name.as_str());
    out.append(": ");
    out.append(exemption.reason.as_str());
    out.append("\n");
    out
}

fn render_exemptions(exemptions: &Vec<AppliedExemption>) -> (r: String)
    ensures
        r@ == shown_exemptions(views(exemptions@)),
{
    if exemptions.len() == 0 {
        return "".to_owned();
    }
    let ghost f = |e: AppliedExemptionView| shown_exemption(e);
    let ghost all = views(exemptions@);
    let ghost title = "\nApplied exemptions:\n"@;
    let mut out = "\nApplied exemptions:\n".to_owned();
    let mut i: usize = 0;
    assert(out@ =~= title + flat(all.take(0), f));
    while i < exemptions.len()
        invariant
            f == (|e: AppliedExemptionView| shown_exemption(e)),
            all == views(exemptions@),
            i <= exemptions@.len(),
            out@ == title + flat(all.take(i as int), f),
        decreases exemptions@.len() - i,
    {
        proof {
            take_step(all, i as int);
        }
        out.append(show_exemption(&exemptions[i]).as_str());
        i += 1;
        assert(out@ =~= title + flat(all.take(i as int), f));
    }
    proof {
        take_all(all);
    }
    out
}

/// How a validation went, in a word.
pub open spec fn outcome_word(report: ValidationReportView) -> Seq<char> {
    if exit_code_of(report) == 2 {
        "incomplete"@
    } else if report.findings.len() == 0 {
        "passed"@
    } else {
        "failed"@
    }
}

/// The summary line, below what is shown before it.
pub open spec fn shown_summary(before: Seq<char>, report: ValidationReportView) -> Seq<char> {
    (if before.len() > 0 && !has_suffix(before, "\n\n"@) {
        "\n"@
    } else {
        ""@
    }) + "Validation "@ + outcome_word(report) + ": "@ + decimal(report.summary.findings as nat)
        + " findings affecting "@ + decimal(report.summary.tests_with_findings as nat) + " of "@
        + decimal(report.summary.total_tests as nat) + " tests in "@ + decimal(
        report.summary.total_files as nat,
    ) + " files; "@ + decimal(report.summary.partially_analyzed_tests as nat)
        + " partially analyzed; "@ + decimal(report.summary.applied_exemptions as nat)
        + " exemptions applied.\n"@
}

fn render_summary(before: &str, report: &ValidationReport) -> (r: String)
    ensures
        r@ == shown_summary(before@, report@),
{
    let mut out = if !before.is_empty() && !ends_with(before, "\n\n") {
        "\n".to_owned()
    } else {
        "".to_owned()
    };
    out.append("Validation ");
    out.append(
        if exit_code(report) == 2 {
            "incomplete"
        } else if report.findings.len() == 0 {
            "passed"
        } else {
            "failed"
        },
    );
    out.append(": ");
    out.append(number(report.summary.findings as u64).as_str());
    out.append(" findings affecting ");
    out.append(number(report.summary.tests_with_findings as u64).as_str());
    out.append(" of ");
    out.append(number(report.summary.total_tests as u64).as_str());
    out.append(" tests in ");
    out.append(number(report.summary.total_files as u64).as_str());
    out.append(" files; ");
    out.append(number(report.summary.partially_analyzed_tests as u64).as_str());
    out.append(" partially analyzed; ");
    out.append(number(report.summary.applied_exemptions as u64).as_str());
    out.append(" exemptions applied.\n");
    out
}

/// The findings, gaps and exemptions of a report.
pub open spec fn shown_body(report: ValidationReportView) -> Seq<char> {
    shown_findings(report.findings, report.findings.len() as int) + shown_gaps(
        report.analysis_gaps,
    ) + shown_exemptions(report.exemptions)
}

fn render_body(report: &ValidationReport) -> (r: String)
    ensures
        r@ == shown_body(report@),
{
    let mut out = render_findings(&report.findings);
    out.append(render_analysis_gaps(&report.analysis_gaps).as_str());
    out.append(render_exemptions(&report.exemptions).as_str());
    out
}

/// A whole report as people read it.
pub open spec fn human(report: ValidationReportView) -> Seq<char> {
    let ordered = normalized(report);
    let before = shown_errors(ordered.errors) + shown_body(ordered);
    before + shown_summary(before, ordered)
}

/// Renders every finding and its remediation evidence in a deterministic order.
pub fn render_human(report: &ValidationReport) -> (r: String)
    ensures
        r@ == human(report@),
{
    let ordered = normalized_report(report);
    let mut out = render_operational_errors(&ordered.errors);
    out.append(render_body(&ordered).as_str());
    let summary = render_summary(out.as_str(), &ordered);
    out.append(summary.as_str());
    out
}

/// What goes to the standard output, and what to the error output: operational errors
/// and, where there are any, the summary.
pub open spec fn human_streams_of(report: ValidationReportView) -> (Seq<char>, Seq<char>) {
    let ordered = normalized(report);
    let diagnostics = shown_errors(ordered.errors);
    if report.errors.len() == 0 {
        (human(report), ""@)
    } else {
        (shown_body(ordered), diagnostics + shown_summary(diagnostics, ordered))
    }
}

/// What to print of a report to the standard output and to the error output.
pub fn human_streams(report: &ValidationReport) -> (r: (String, String))
    ensures
        (r.0@, r.1@) == human_streams_of(report@),
{
    if report.errors.len() == 0 {
        return (render_human(report), "".to_owned());
    }
    let ordered = normalized_report(report);
    let mut diagnostics = render_operational_errors(&ordered.errors);
    let summary = render_summary(diagnostics.as_str(), &ordered);
    diagnostics.append(summary.as_str());
    (render_body(&ordered), diagnostics)
}

pub const SARIF_SCHEMA: &'static str =
    "https://docs.oasis-open.org/sarif/sarif/v2.1.0/errata01/os/schemas/sarif-schema-2.1.0.json";

pub const SARIF_VERSION: &'static str = "2.1.0";

pub const SARIF_FINGERPRINT_NAME: &'static str = "cntrylTestValidation/v1";

pub const EXEMPTION_NOTIFICATION: &'static str = "cntryl.exemption.applied";

pub open spec fn exit_description_of(code: i32) -> Seq<char> {
    if code == 0 {
        "Analysis completed with no findings."@
    } else if code == 1 {
        "Analysis completed with blocking findings."@
    } else {
        "Analysis was incomplete."@
    }
}

fn exit_description(code: i32) -> (r: &'static str)
    ensures
        r@ == exit_description_of(code),
{
    match code {
        0 => "Analysis completed with no findings.",
        1 => "Analysis completed with blocking findings.",
        _ => "Analysis was incomplete.",
    }
}

pub open spec fn category_word(category: FindingCategory) -> Seq<char> {
    match category {
        FindingCategory::Structure => "structure"@,
        FindingCategory::Semantics => "semantics"@,
        FindingCategory::Hygiene => "hygiene"@,
    }
}

pub fn category_name(category: FindingCategory) -> (r: &'static str)
    ensures
        r@ == category_word(category),
{
    match category {
        FindingCategory::Structure => "structure",
        FindingCategory::Semantics => "semantics",
        FindingCategory::Hygiene => "hygiene",
    }
}

pub open spec fn level_of(severity: Seq<char>) -> Seq<char> {
    if severity == "error"@ {
        "error"@
    } else if severity == "warning"@ {
        "warning"@
    } else if severity == "note"@ {
        "note"@
    } else {
        "none"@
    }
}

fn sarif_level(severity: &str) -> (r: &'static str)
    ensures
        r@ == level_of(severity@),
{
    if same(severity, "error") {
        "error"
    } else if same(severity, "warning") {
        "warning"
    } else if same(severity, "note") {
        "note"
    } else {
        "none"
    }
}

/// The upper-case equivalent of a character.
pub uninterp spec fn uppercase(c: char) -> Seq<char>;

/// `char::to_uppercase`: the result depends on the character alone.
#[verifier::external_body]
fn char_to_uppercase(c: char) -> (r: Vec<char>)
    ensures
        r@ == uppercase(c),
{
    c.to_uppercase().collect()
}

pub open spec fn spaced(rule_id: Seq<char>) -> Seq<char> {
    with_char(with_char(rule_id, '.', ' '), '-', ' ')
}

/// The title of a rule: its name with spaces for dots and hyphens, capitalised.
pub open spec fn title_of(rule_id: Seq<char>) -> Seq<char> {
    let title = spaced(rule_id);
    if title.len() == 0 {
        "Test validation diagnostic"@
    } else {
        uppercase(title[0]) + title.skip(1)
    }
}

pub fn rule_title(rule_id: &str) -> (r: String)
    ensures
        r@ == title_of(rule_id@),
{
    let title = replace_char(replace_char(rule_id, '.', ' ').as_str(), '-', ' ');
    let all = chars(title.as_str());
    if all.len() == 0 {
        return "Test validation diagnostic".to_owned();
    }
    let size: usize = all.len();
    let mut out = crate::text::text_of(char_to_uppercase(all[0]).as_slice());
    let rest = slice(all.as_slice(), 1, size);
    assert(rest@ =~= title@.skip(1));
    out.append(rest.as_str());
    out
}

/// Whether a byte stands for itself in a URI's path.
pub open spec fn unreserved(b: u8) -> bool {
    (48 <= b <= 57) || (65 <= b <= 90) || (97 <= b <= 122) || b == 45 || b == 46 || b == 95 || b
        == 126 || b == 47
}

pub open spec fn upper_hex(n: int) -> char {
    if n < 10 {
        (n + 48) as char
    } else {
        (n + 55) as char
    }
}

/// A byte in a URI: itself, or `%` and two hexadecimal digits.
pub open spec fn uri_byte(b: u8) -> Seq<char> {
    if unreserved(b) {
        seq![b as char]
    } else {
        seq!['%', upper_hex(b as int / 16), upper_hex(b as int % 16)]
    }
}

/// A reported path as the path of a URI.
pub open spec fn uri_of(path: Seq<char>) -> Seq<char> {
    uri_bytes(vstd::utf8::encode_utf8(report_path(path)))
}

pub open spec fn uri_bytes(bytes: Seq<u8>) -> Seq<char> {
    flat(bytes, |b: u8| uri_byte(b))
}

fn upper_hex_char(n: u8) -> (r: char)
    requires
        n < 16,
    ensures
        r == upper_hex(n as int),
{
    if n < 10 {
        (n + 48) as char
    } else {
        (n + 55) as char
    }
}

pub fn uri_path(path: &str) -> (r: String)
    ensures
        r@ == uri_of(path@),
{
    let normal = normalize_path(path);
    let bytes = normal.as_str().as_bytes();
    let mut out = String::new();
    let mut i: usize = 0;
    while i < bytes.len()
        invariant
            i <= bytes@.len(),
            out@ == uri_bytes(bytes@.take(i as int)),
        decreases bytes@.len() - i,
    {
        proof {
            take_step(bytes@, i as int);
        }
        let b: u8 = bytes[i];
        let ghost before = out@;
        if (48 <= b && b <= 57) || (65 <= b && b <= 90) || (97 <= b && b <= 122) || b == 45 || b
            == 46 || b == 95 || b == 126 || b == 47 {
            out.push(b as char);
        } else {
            out.push('%');
            out.push(upper_hex_char(b / 16));
            out.push(upper_hex_char(b % 16));
        }
        assert(out@ =~= before + uri_byte(b));
        i += 1;
    }
    proof {
        take_all(bytes@);
    }
    out
}

/// Whether a character can stand in a URI's path as it is written here.
pub open spec fn uri_char(c: char) -> bool {
    c == '%' || ('0' <= c <= '9') || ('A' <= c <= 'Z') || ('a' <= c <= 'z') || c == '-' || c == '.'
        || c == '_' || c == '~' || c == '/'
}

/// The URI of a path holds nothing but the characters of a URI's path.
pub proof fn uri_has_uri_characters(path: Seq<char>, i: int)
    requires
        0 <= i < uri_of(path).len(),
    ensures
        uri_char(uri_of(path)[i]),
{
    uri_bytes_have_uri_characters(vstd::utf8::encode_utf8(report_path(path)));
}

/// The number that an upper-case hexadecimal digit stands for.
pub open spec fn hex_value(c: char) -> int {
    if '0' <= c <= '9' {
        c as int - 48
    } else {
        c as int - 55
    }
}

/// The bytes that a URI's path stands for: a character for itself, and `%` with two
/// hexadecimal digits for the byte that these give.
pub open spec fn decoded(uri: Seq<char>) -> Seq<u8>
    decreases uri.len(),
{
    if uri.len() == 0 {
        seq![]
    } else if uri[0] == '%' && uri.len() >= 3 {
        seq![(hex_value(uri[1]) * 16 + hex_value(uri[2])) as u8] + decoded(uri.skip(3))
    } else {
        seq![uri[0] as u8] + decoded(uri.skip(1))
    }
}

pub open spec fn is_upper_hex(c: char) -> bool {
    '0' <= c <= '9' || 'A' <= c <= 'F'
}

/// Whether a URI's path is made of unreserved characters and of `%` with two upper-case
/// hexadecimal digits.
pub open spec fn well_escaped(uri: Seq<char>) -> bool
    decreases uri.len(),
{
    if uri.len() == 0 {
        true
    } else if uri[0] == '%' {
        uri.len() >= 3 && is_upper_hex(uri[1]) && is_upper_hex(uri[2]) && well_escaped(uri.skip(3))
    } else {
        uri_char(uri[0]) && well_escaped(uri.skip(1))
    }
}

/// Decoding the URI of a path gives the reported path back, in UTF-8.
pub proof fn uri_decodes_to_path(path: Seq<char>)
    ensures
        well_escaped(uri_of(path)),
        decoded(uri_of(path)) == vstd::utf8::encode_utf8(report_path(path)),
{
    uri_bytes_decode(vstd::utf8::encode_utf8(report_path(path)));
}

proof fn uri_bytes_decode(bytes: Seq<u8>)
    ensures
        well_escaped(uri_bytes(bytes)),
        decoded(uri_bytes(bytes)) == bytes,
    decreases bytes.len(),
{
    if bytes.len() == 0 {
        assert(decoded(uri_bytes(bytes)) =~= bytes);
    } else {
        let b = bytes[0];
        let rest = bytes.skip(1);
        uri_bytes_decode(rest);
        uri_bytes_front(bytes);
        let uri = uri_bytes(bytes);
        if unreserved(b) {
            assert(uri[0] == b as char);
            assert(uri.skip(1) =~= uri_bytes(rest));
            assert(uri[0] as u8 == b);
        } else {
            assert(uri[0] == '%');
            assert(uri[1] == upper_hex(b as int / 16) && uri[2] == upper_hex(b as int % 16));
            assert(uri.skip(3) =~= uri_bytes(rest));
            assert(hex_value(uri[1]) == b as int / 16);
            assert(hex_value(uri[2]) == b as int % 16);
        }
        assert(seq![b] + rest =~= bytes);
    }
}

proof fn uri_bytes_front(bytes: Seq<u8>)
    requires
        bytes.len() > 0,
    ensures
        uri_bytes(bytes) == uri_byte(bytes[0]) + uri_bytes(bytes.skip(1)),
    decreases bytes.len(),
{
    let f = |b: u8| uri_byte(b);
    let rest = bytes.skip(1);
    if bytes.len() == 1 {
        assert(bytes.drop_last() =~= seq![]);
        assert(rest =~= seq![]);
        assert(uri_bytes(bytes) =~= uri_byte(bytes[0]) + uri_bytes(rest));
    } else {
        uri_bytes_front(bytes.drop_last());
        assert(bytes.drop_last().skip(1) =~= rest.drop_last());
        assert(rest.last() == bytes.last());
        assert(uri_bytes(bytes) =~= uri_byte(bytes[0]) + uri_bytes(rest));
    }
}

proof fn uri_bytes_have_uri_characters(bytes: Seq<u8>)
    ensures
        forall|i: int|
            0 <= i < uri_bytes(bytes).len() ==> uri_char(#[trigger] uri_bytes(bytes)[i]),
    decreases bytes.len(),
{
    if bytes.len() > 0 {
        uri_bytes_have_uri_characters(bytes.drop_last());
        let b = bytes.last();
        assert(uri_bytes(bytes) == uri_bytes(bytes.drop_last()) + uri_byte(b));
        assert(uri_char(uri_byte(b)[0]));
        if !unreserved(b) {
            assert(uri_char(uri_byte(b)[1]));
            assert(uri_char(uri_byte(b)[2]));
        }
    }
}

pub open spec fn sarif_text(s: Seq<char>) -> JsonView {
    JsonView::Object(seq![("text"@, JsonView::Text(s))])
}

fn text_object(s: &str) -> (r: Json)
    ensures
        r@ == sarif_text(s@),
{
    let members = vec![member("text", text(s))];
    assert(member_views(members@) =~= seq![("text"@, JsonView::Text(s@))]);
    object(members)
}

pub open spec fn sarif_place(location: SourceLocationView) -> JsonView {
    JsonView::Object(
        seq![
            (
                "artifactLocation"@,
                JsonView::Object(seq![("uri"@, JsonView::Text(uri_of(location.path)))]),
            ),
            (
                "region"@,
                JsonView::Object(
                    seq![
                        ("startLine"@, JsonView::Number(location.span.start.line as u64)),
                        ("startColumn"@, JsonView::Number(location.span.start.column as u64)),
                        ("endLine"@, JsonView::Number(location.span.end.line as u64)),
                        ("endColumn"@, JsonView::Number(location.span.end.column as u64)),
                    ],
                ),
            ),
        ],
    )
}

fn sarif_physical_location(location: &SourceLocation) -> (r: Json)
    ensures
        r@ == sarif_place(location@),
{
    let artifact = vec![member("uri", Json::Text(uri_path(location.path.as_str())))];
    assert(member_views(artifact@) =~= seq![("uri"@, JsonView::Text(uri_of(location.path@)))]);
    let region = vec![
        member("startLine", Json::Number(location.span.start.line as u64)),
        member("startColumn", Json::Number(location.span.start.column as u64)),
        member("endLine", Json::Number(location.span.end.line as u64)),
        member("endColumn", Json::Number(location.span.end.column as u64)),
    ];
    assert(member_views(region@) =~= seq![
        ("startLine"@, JsonView::Number(location.span.start.line as u64)),
        ("startColumn"@, JsonView::Number(location.span.start.column as u64)),
        ("endLine"@, JsonView::Number(location.span.end.line as u64)),
        ("endColumn"@, JsonView::Number(location.span.end.column as u64)),
    ]);
    let members = vec![member("artifactLocation", object(artifact)), member("region", object(region))];
    assert(member_views(members@) =~= sarif_place(location@)->Object_0);
    object(members)
}

/// The help of a rule: its summary and its actions.
pub open spec fn help_of(finding: FindingView) -> Seq<char> {
    if finding.remediation.actions.len() == 0 {
        finding.remediation.summary
    } else {
        finding.remediation.summary + " "@ + crate::text::joined(
            finding.remediation.actions,
            " "@,
        )
    }
}

pub open spec fn sarif_rule_of(rule_id: Seq<char>, finding: FindingView) -> JsonView {
    let category = JsonView::Text(category_word(finding.category));
    JsonView::Object(
        seq![
            ("id"@, JsonView::Text(rule_id)),
            ("shortDescription"@, sarif_text(title_of(rule_id))),
            ("fullDescription"@, sarif_text(finding.why_it_matters)),
            (
                "defaultConfiguration"@,
                JsonView::Object(seq![("level"@, JsonView::Text(level_of(finding.severity)))]),
            ),
            ("help"@, sarif_text(help_of(finding))),
            (
                "properties"@,
                JsonView::Object(
                    seq![
                        ("category"@, category),
                        (
                            "tags"@,
                            JsonView::List(seq![JsonView::Text("test-quality"@), category]),
                        ),
                    ],
                ),
            ),
        ],
    )
}

fn sarif_rule(rule_id: &str, finding: &Finding) -> (r: Json)
    ensures
        r@ == sarif_rule_of(rule_id@, finding@),
{
    let category = category_name(finding.category);
    let mut help = finding.remediation.summary.clone();
    if finding.remediation.actions.len() > 0 {
        help.append(" ");
        help.append(crate::text::join(&finding.remediation.actions, " ").as_str());
    }
    let level = vec![member("level", text(sarif_level(finding.severity)))];
    assert(member_views(level@) =~= seq![("level"@, JsonView::Text(level_of(finding@.severity)))]);
    let tags = vec![text("test-quality"), text(category)];
    assert(views(tags@) =~= seq![
        JsonView::Text("test-quality"@),
        JsonView::Text(category_word(finding.category)),
    ]);
    let properties = vec![member("category", text(category)), member("tags", list(tags))];
    let members = vec![
        member("id", text(rule_id)),
        member("shortDescription", text_object(rule_title(rule_id).as_str())),
        member("fullDescription", text_object(finding.why_it_matters.as_str())),
        member("defaultConfiguration", object(level)),
        member("help", text_object(help.as_str())),
        member("properties", object(properties)),
    ];
    proof {
        let want = sarif_rule_of(rule_id@, finding@)->Object_0;
        assert(member_views(properties@) =~= want[5].1->Object_0);
        assert(member_views(members@) =~= want);
    }
    object(members)
}

pub open spec fn sarif_related_of(evidence: Seq<EvidenceView>) -> Seq<JsonView> {
    Seq::new(
        evidence.len(),
        |i: int|
            JsonView::Object(
                seq![
                    ("id"@, JsonView::Number((i + 1) as u64)),
                    (
                        "message"@,
                        sarif_text(evidence[i].kind + ": "@ + evidence[i].message),
                    ),
                    ("physicalLocation"@, sarif_place(evidence[i].location)),
                ],
            ),
    )
}

fn sarif_related(evidence: &Vec<Evidence>) -> (r: Vec<Json>)
    ensures
        views(r@) == sarif_related_of(views(evidence@)),
{
    let ghost want = sarif_related_of(views(evidence@));
    let size: usize = evidence.len();
    let mut out: Vec<Json> = Vec::new();
    let mut i: usize = 0;
    while i < size
        invariant
            size == evidence@.len(),
            want == sarif_related_of(views(evidence@)),
            i <= size,
            views(out@) == want.take(i as int),
        decreases size - i,
    {
        let item = &evidence[i];
        let mut message = item.kind.clone();
        message.append(": ");
        message.append(item.message.as_str());
        let members = vec![
            member("id", Json::Number((i + 1) as u64)),
            member("message", text_object(message.as_str())),
            member("physicalLocation", sarif_physical_location(&item.location)),
        ];
        assert(member_views(members@) =~= want[i as int]->Object_0);
        out.push(object(members));
        i += 1;
        assert(views(out@) =~= want.take(i as int));
    }
    proof {
        take_all(want);
    }
    out
}

/// The message of a result: what, why, how to mend it and how to run it again.
pub open spec fn sarif_message_of(finding: FindingView) -> Seq<char> {
    finding.message + "\n\nWhy it matters: "@ + finding.why_it_matters + "\n\nRemediation: "@
        + finding.remediation.summary + (match finding.remediation.example {
        Some(example) => "\n\nExample: "@ + example,
        None => ""@,
    }) + "\n\nRerun: "@ + finding.remediation.rerun
}

fn sarif_message(finding: &Finding) -> (r: String)
    ensures
        r@ == sarif_message_of(finding@),
{
    let mut out = finding.message.clone();
    out.append("\n\nWhy it matters: ");
    out.append(finding.why_it_matters.as_str());
    out.append("\n\nRemediation: ");
    out.append(finding.remediation.summary.as_str());
    let example = match &finding.remediation.example {
        Some(example) => {
            let mut line = "\n\nExample: ".to_owned();
            line.append(example.as_str());
            line
        },
        None => "".to_owned(),
    };
    out.append(example.as_str());
    out.append("\n\nRerun: ");
    out.append(finding.remediation.rerun.as_str());
    out
}

pub open spec fn text_list(texts: Seq<Seq<char>>) -> JsonView {
    JsonView::List(Seq::new(texts.len(), |i: int| JsonView::Text(texts[i])))
}

fn list_of_texts(texts: &Vec<String>) -> (r: Json)
    ensures
        r@ == text_list(views(texts@)),
{
    let ghost want = text_list(views(texts@))->List_0;
    let mut out: Vec<Json> = Vec::new();
    let mut i: usize = 0;
    while i < texts.len()
        invariant
            want == text_list(views(texts@))->List_0,
            i <= texts@.len(),
            views(out@) == want.take(i as int),
        decreases texts@.len() - i,
    {
        out.push(text(texts[i].as_str()));
        i += 1;
        assert(views(out@) =~= want.take(i as int));
    }
    proof {
        take_all(want);
    }
    list(out)
}

pub open spec fn optional_text(value: Option<Seq<char>>) -> JsonView {
    match value {
        Some(value) => JsonView::Text(value),
        None => JsonView::Null,
    }
}

pub open spec fn sarif_properties_of(finding: FindingView) -> JsonView {
    JsonView::Object(
        seq![
            ("category"@, JsonView::Text(category_word(finding.category))),
            ("confidence"@, JsonView::Text(finding.confidence)),
            ("testName"@, JsonView::Text(finding.test.name)),
            ("qualifiedTestName"@, JsonView::Text(finding.test.qualified_name)),
            ("whyItMatters"@, JsonView::Text(finding.why_it_matters)),
            ("remediationSummary"@, JsonView::Text(finding.remediation.summary)),
            ("remediationActions"@, text_list(finding.remediation.actions)),
            ("remediationExample"@, optional_text(finding.remediation.example)),
            ("rerunCommand"@, JsonView::Text(finding.remediation.rerun)),
        ],
    )
}

fn sarif_properties(finding: &Finding) -> (r: Json)
    ensures
        r@ == sarif_properties_of(finding@),
{
    let example = match &finding.remediation.example {
        Some(example) => text(example.as_str()),
        None => Json::Null,
    };
    let members = vec![
        member("category", text(category_name(finding.category))),
        member("confidence", text(finding.confidence)),
        member("testName", text(finding.test.name.as_str())),
        member("qualifiedTestName", text(finding.test.qualified_name.as_str())),
        member("whyItMatters", text(finding.why_it_matters.as_str())),
        member("remediationSummary", text(finding.remediation.summary.as_str())),
        member("remediationActions", list_of_texts(&finding.remediation.actions)),
        member("remediationExample", example),
        member("rerunCommand", text(finding.remediation.rerun.as_str())),
    ];
    assert(member_views(members@) =~= sarif_properties_of(finding@)->Object_0);
    object(members)
}

/// A place together with the test it lies in.
pub open spec fn sarif_test_place(
    location: SourceLocationView,
    name: Seq<char>,
    qualified_name: Seq<char>,
) -> JsonView {
    JsonView::List(
        seq![
            JsonView::Object(
                seq![
                    ("physicalLocation"@, sarif_place(location)),
                    (
                        "logicalLocations"@,
                        JsonView::List(
                            seq![
                                JsonView::Object(
                                    seq![
                                        ("name"@, JsonView::Text(name)),
                                        ("fullyQualifiedName"@, JsonView::Text(qualified_name)),
                                        ("kind"@, JsonView::Text("function"@)),
                                    ],
                                ),
                            ],
                        ),
                    ),
                ],
            ),
        ],
    )
}

fn sarif_test_location(location: &SourceLocation, name: &str, qualified_name: &str) -> (r: Json)
    ensures
        r@ == sarif_test_place(location@, name@, qualified_name@),
{
    let ghost want = sarif_test_place(location@, name@, qualified_name@)->List_0[0]->Object_0;
    let logical = vec![
        member("name", text(name)),
        member("fullyQualifiedName", text(qualified_name)),
        member("kind", text("function")),
    ];
    assert(member_views(logical@) =~= want[1].1->List_0[0]->Object_0);
    let logical_list = vec![object(logical)];
    assert(views(logical_list@) =~= want[1].1->List_0);
    let members = vec![
        member("physicalLocation", sarif_physical_location(location)),
        member("logicalLocations", list(logical_list)),
    ];
    assert(member_views(members@) =~= want);
    let places = vec![object(members)];
    assert(views(places@) =~= sarif_test_place(location@, name@, qualified_name@)->List_0);
    list(places)
}

pub open spec fn sarif_result_of(finding: FindingView, rule_index: int) -> JsonView {
    JsonView::Object(
        seq![
            ("ruleId"@, JsonView::Text(finding.rule_id)),
            ("ruleIndex"@, JsonView::Number(rule_index as u64)),
            ("level"@, JsonView::Text(level_of(finding.severity))),
            ("message"@, sarif_text(sarif_message_of(finding))),
            (
                "locations"@,
                sarif_test_place(finding.primary, finding.test.name, finding.test.qualified_name),
            ),
            ("relatedLocations"@, JsonView::List(sarif_related_of(finding.evidence))),
            (
                "fingerprints"@,
                JsonView::Object(
                    seq![(SARIF_FINGERPRINT_NAME@, JsonView::Text(finding.fingerprint))],
                ),
            ),
            ("properties"@, sarif_properties_of(finding)),
        ],
    )
}

fn sarif_result(finding: &Finding, rule_index: usize) -> (r: Json)
    ensures
        r@ == sarif_result_of(finding@, rule_index as int),
{
    let fingerprints = vec![
        member(SARIF_FINGERPRINT_NAME, text(finding.fingerprint.as_str())),
    ];
    let members = vec![
        member("ruleId", text(finding.rule_id.as_str())),
        member("ruleIndex", Json::Number(rule_index as u64)),
        member("level", text(sarif_level(finding.severity))),
        member("message", text_object(sarif_message(finding).as_str())),
        member(
            "locations",
            sarif_test_location(
                &finding.primary,
                finding.test.name.as_str(),
                finding.test.qualified_name.as_str(),
            ),
        ),
        member("relatedLocations", list(sarif_related(&finding.evidence))),
        member("fingerprints", object(fingerprints)),
        member("properties", sarif_properties(finding)),
    ];
    proof {
        let want = sarif_result_of(finding@, rule_index as int)->Object_0;
        assert(member_views(fingerprints@) =~= want[6].1->Object_0);
        assert(member_views(members@) =~= want);
    }
    object(members)
}

/// The position of a name in a list.
fn position(list: &Vec<String>, name: &str) -> (r: usize)
    requires
        views(list@).contains(name@),
        views(list@).no_duplicates(),
    ensures
        r == views(list@).index_of(name@),
{
    let ghost all = views(list@);
    let mut i: usize = 0;
    while i < list.len()
        invariant
            all == views(list@),
            all.contains(name@),
            all.no_duplicates(),
            i <= list@.len(),
            forall|j: int| 0 <= j < i ==> #[trigger] all[j] != name@,
        decreases list@.len() - i,
    {
        if same(list[i].as_str(), name) {
            assert(all[i as int] == name@);
            assert(all[all.index_of(name@)] == name@);
            return i;
        }
        i += 1;
    }
    assert(all[all.index_of(name@)] == name@);
    0
}

pub open spec fn rule_ids_of(findings: Seq<FindingView>) -> Set<Seq<char>>
    decreases findings.len(),
{
    if findings.len() == 0 {
        set![]
    } else {
        rule_ids_of(findings.drop_last()).insert(findings.last().rule_id)
    }
}

fn rule_ids(findings: &Vec<Finding>) -> (r: Names)
    ensures
        r@ == rule_ids_of(views(findings@)),
{
    let ghost all = views(findings@);
    let mut ids = Names::new();
    let mut i: usize = 0;
    while i < findings.len()
        invariant
            all == views(findings@),
            i <= findings@.len(),
            ids@ == rule_ids_of(all.take(i as int)),
        decreases findings@.len() - i,
    {
        proof {
            take_step(all, i as int);
        }
        ids.insert(findings[i].rule_id.clone());
        i += 1;
    }
    proof {
        take_all(all);
    }
    ids
}

proof fn rule_ids_hold(findings: Seq<FindingView>)
    ensures
        forall|x: Seq<char>|
            rule_ids_of(findings).contains(x) <==> exists|i: int|
                0 <= i < findings.len() && (#[trigger] findings[i]).rule_id == x,
    decreases findings.len(),
{
    if findings.len() > 0 {
        let rest = findings.drop_last();
        rule_ids_hold(rest);
        assert forall|x: Seq<char>|
            rule_ids_of(findings).contains(x) <==> exists|i: int|
                0 <= i < findings.len() && (#[trigger] findings[i]).rule_id == x by {
            if rule_ids_of(rest).contains(x) {
                let i = choose|i: int| 0 <= i < rest.len() && (#[trigger] rest[i]).rule_id == x;
                assert(findings[i].rule_id == x);
            }
            if findings.last().rule_id == x {
                assert(findings[findings.len() - 1].rule_id == x);
            }
            if exists|i: int| 0 <= i < findings.len() && (#[trigger] findings[i]).rule_id == x {
                let i = choose|i: int|
                    0 <= i < findings.len() && (#[trigger] findings[i]).rule_id == x;
                if i < rest.len() {
                    assert(rest[i].rule_id == x);
                }
            }
        }
    }
}

/// The first finding of a rule.
pub open spec fn first_of_rule(findings: Seq<FindingView>, rule_id: Seq<char>) -> FindingView {
    crate::seqs::first_where(findings, |f: FindingView| f.rule_id == rule_id)->0
}

/// The rules that a report has findings of, in the order of their names.
pub open spec fn sarif_rules_of(findings: Seq<FindingView>) -> Seq<JsonView> {
    let ids = listed(rule_ids_of(findings));
    Seq::new(ids.len(), |i: int| sarif_rule_of(ids[i], first_of_rule(findings, ids[i])))
}

fn find_rule<'a>(findings: &'a Vec<Finding>, rule_id: &str) -> (r: &'a Finding)
    requires
        exists|i: int|
            0 <= i < findings@.len() && (#[trigger] views(findings@)[i]).rule_id == rule_id@,
    ensures
        r@ == first_of_rule(views(findings@), rule_id@),
{
    let ghost all = views(findings@);
    let ghost p = |f: FindingView| f.rule_id == rule_id@;
    let ghost known = choose|i: int| 0 <= i < all.len() && (#[trigger] all[i]).rule_id == rule_id@;
    let mut i: usize = 0;
    while i < findings.len()
        invariant
            p == (|f: FindingView| f.rule_id == rule_id@),
            all == views(findings@),
            0 <= known < all.len(),
            all[known].rule_id == rule_id@,
            i <= findings@.len(),
            forall|j: int| 0 <= j < i ==> !p(#[trigger] all[j]),
        decreases findings@.len() - i,
    {
        if same(findings[i].rule_id.as_str(), rule_id) {
            proof {
                crate::seqs::first_where_at(all, p, i as int);
            }
            return &findings[i];
        }
        i += 1;
    }
    assert(!p(all[known]));
    &findings[0]
}

fn sarif_rules(findings: &Vec<Finding>, ids: &Vec<String>) -> (r: Vec<Json>)
    requires
        views(ids@) == listed(rule_ids_of(views(findings@))),
        views(ids@).to_set() == rule_ids_of(views(findings@)),
    ensures
        views(r@) == sarif_rules_of(views(findings@)),
{
    let ghost all = views(ids@);
    let ghost want = sarif_rules_of(views(findings@));
    let mut out: Vec<Json> = Vec::new();
    let mut i: usize = 0;
    while i < ids.len()
        invariant
            all == views(ids@),
            all == listed(rule_ids_of(views(findings@))),
            all.to_set() == rule_ids_of(views(findings@)),
            want == sarif_rules_of(views(findings@)),
            i <= ids@.len(),
            views(out@) == want.take(i as int),
        decreases ids@.len() - i,
    {
        proof {
            assert(all.contains(all[i as int]));
            assert(rule_ids_of(views(findings@)).contains(all[i as int]));
            rule_ids_hold(views(findings@));
        }
        out.push(sarif_rule(ids[i].as_str(), find_rule(findings, ids[i].as_str())));
        i += 1;
        assert(views(out@) =~= want.take(i as int));
    }
    proof {
        take_all(want);
    }
    out
}

pub open spec fn sarif_results_of(findings: Seq<FindingView>) -> Seq<JsonView> {
    let ids = listed(rule_ids_of(findings));
    Seq::new(
        findings.len(),
        |i: int| sarif_result_of(findings[i], ids.index_of(findings[i].rule_id)),
    )
}

fn sarif_results(findings: &Vec<Finding>, ids: &Vec<String>) -> (r: Vec<Json>)
    requires
        views(ids@) == listed(rule_ids_of(views(findings@))),
        views(ids@).to_set() == rule_ids_of(views(findings@)),
        views(ids@).no_duplicates(),
    ensures
        views(r@) == sarif_results_of(views(findings@)),
{
    let ghost all = views(findings@);
    let ghost want = sarif_results_of(all);
    let mut out: Vec<Json> = Vec::new();
    let mut i: usize = 0;
    while i < findings.len()
        invariant
            all == views(findings@),
            want == sarif_results_of(all),
            views(ids@) == listed(rule_ids_of(all)),
            views(ids@).to_set() == rule_ids_of(all),
            views(ids@).no_duplicates(),
            i <= findings@.len(),
            views(out@) == want.take(i as int),
        decreases findings@.len() - i,
    {
        proof {
            rule_ids_hold(all);
            assert(all[i as int].rule_id == all[i as int].rule_id);
            assert(rule_ids_of(all).contains(all[i as int].rule_id));
            assert(views(ids@).to_set().contains(all[i as int].rule_id));
        }
        let index = position(ids, findings[i].rule_id.as_str());
        out.push(sarif_result(&findings[i], index));
        i += 1;
        assert(views(out@) =~= want.take(i as int));
    }
    proof {
        take_all(want);
    }
    out
}

/// The codes of the gaps and errors of a report and, where an exemption was applied, the
/// name of that notification.
pub open spec fn notification_ids_of(report: ValidationReportView) -> Set<Seq<char>> {
    let codes = Set::new(
        |x: Seq<char>|
            (exists|i: int|
                0 <= i < report.analysis_gaps.len() && (#[trigger] report.analysis_gaps[i]).code
                    == x) || exists|i: int|
                0 <= i < report.errors.len() && (#[trigger] report.errors[i]).code == x,
    );
    if report.exemptions.len() > 0 {
        codes.insert(EXEMPTION_NOTIFICATION@)
    } else {
        codes
    }
}

fn notification_ids(report: &ValidationReport) -> (r: Names)
    ensures
        r@ == notification_ids_of(report@),
{
    let ghost gaps = report@.analysis_gaps;
    let ghost errors = report@.errors;
    let mut ids = Names::new();
    let mut i: usize = 0;
    while i < report.analysis_gaps.len()
        invariant
            gaps == views(report.analysis_gaps@),
            i <= report.analysis_gaps@.len(),
            forall|x: Seq<char>| #[trigger]
                ids@.contains(x) <==> exists|j: int| 0 <= j < i && (#[trigger] gaps[j]).code == x,
        decreases report.analysis_gaps@.len() - i,
    {
        let ghost before = ids@;
        ids.insert(report.analysis_gaps[i].code.clone());
        proof {
            assert forall|x: Seq<char>| #[trigger]
                ids@.contains(x) <==> exists|j: int|
                    0 <= j < i + 1 && (#[trigger] gaps[j]).code == x by {
                assert(before.contains(x) <==> exists|j: int|
                    0 <= j < i && (#[trigger] gaps[j]).code == x);
                assert(gaps[i as int].code == report.analysis_gaps@[i as int].code@);
            }
        }
        i += 1;
    }
    let mut k: usize = 0;
    while k < report.errors.len()
        invariant
            gaps == views(report.analysis_gaps@),
            errors == views(report.errors@),
            k <= report.errors@.len(),
            forall|x: Seq<char>| #[trigger]
                ids@.contains(x) <==> (exists|j: int|
                    0 <= j < gaps.len() && (#[trigger] gaps[j]).code == x) || exists|j: int|
                    0 <= j < k && (#[trigger] errors[j]).code == x,
        decreases report.errors@.len() - k,
    {
        let ghost before = ids@;
        ids.insert(report.errors[k].code.clone());
        proof {
            assert forall|x: Seq<char>| #[trigger]
                ids@.contains(x) <==> (exists|j: int|
                    0 <= j < gaps.len() && (#[trigger] gaps[j]).code == x) || exists|j: int|
                    0 <= j < k + 1 && (#[trigger] errors[j]).code == x by {
                assert(before.contains(x) <==> (exists|j: int|
                    0 <= j < gaps.len() && (#[trigger] gaps[j]).code == x) || exists|j: int|
                    0 <= j < k && (#[trigger] errors[j]).code == x);
                assert(errors[k as int].code == report.errors@[k as int].code@);
            }
        }
        k += 1;
    }
    if report.exemptions.len() > 0 {
        ids.insert(EXEMPTION_NOTIFICATION.to_owned());
    }
    assert(ids@ =~= notification_ids_of(report@));
    ids
}

/// The notifications that a report can have, in the order of their names.
pub open spec fn sarif_descriptors_of(ids: Seq<Seq<char>>) -> Seq<JsonView> {
    Seq::new(
        ids.len(),
        |i: int|
            JsonView::Object(
                seq![
                    ("id"@, JsonView::Text(ids[i])),
                    ("shortDescription"@, sarif_text(title_of(ids[i]))),
                ],
            ),
    )
}

fn sarif_descriptors(ids: &Vec<String>) -> (r: Vec<Json>)
    ensures
        views(r@) == sarif_descriptors_of(views(ids@)),
{
    let ghost want = sarif_descriptors_of(views(ids@));
    let mut out: Vec<Json> = Vec::new();
    let mut i: usize = 0;
    while i < ids.len()
        invariant
            want == sarif_descriptors_of(views(ids@)),
            i <= ids@.len(),
            views(out@) == want.take(i as int),
        decreases ids@.len() - i,
    {
        let members = vec![
            member("id", text(ids[i].as_str())),
            member("shortDescription", text_object(rule_title(ids[i].as_str()).as_str())),
        ];
        assert(member_views(members@) =~= want[i as int]->Object_0);
        out.push(object(members));
        i += 1;
        assert(views(out@) =~= want.take(i as int));
    }
    proof {
        take_all(want);
    }
    out
}

pub open spec fn descriptor_of(id: Seq<char>, ids: Seq<Seq<char>>) -> JsonView {
    JsonView::Object(
        seq![
            ("id"@, JsonView::Text(id)),
            ("index"@, JsonView::Number(ids.index_of(id) as u64)),
        ],
    )
}

fn descriptor(id: &str, ids: &Vec<String>) -> (r: Json)
    requires
        views(ids@).contains(id@),
        views(ids@).no_duplicates(),
    ensures
        r@ == descriptor_of(id@, views(ids@)),
{
    let index = position(ids, id);
    let members = vec![member("id", text(id)), member("index", Json::Number(index as u64))];
    assert(member_views(members@) =~= descriptor_of(id@, views(ids@))->Object_0);
    object(members)
}

pub open spec fn error_notification_of(
    error: OperationalErrorView,
    ids: Seq<Seq<char>>,
) -> JsonView {
    JsonView::Object(
        seq![
            ("descriptor"@, descriptor_of(error.code, ids)),
            ("level"@, JsonView::Text("error"@)),
            ("message"@, sarif_text(error.message)),
            (
                "locations"@,
                match error.location {
                    Some(location) => JsonView::List(
                        seq![
                            JsonView::Object(
                                seq![("physicalLocation"@, sarif_place(location))],
                            ),
                        ],
                    ),
                    None => JsonView::List(seq![]),
                },
            ),
        ],
    )
}

fn sarif_error_notification(error: &OperationalError, ids: &Vec<String>) -> (r: Json)
    requires
        views(ids@).contains(error.code@),
        views(ids@).no_duplicates(),
    ensures
        r@ == error_notification_of(error@, views(ids@)),
{
    let ghost want = error_notification_of(error@, views(ids@))->Object_0;
    let mut places: Vec<Json> = Vec::new();
    if let Some(location) = &error.location {
        let place = vec![member("physicalLocation", sarif_physical_location(location))];
        assert(member_views(place@) =~= seq![("physicalLocation"@, sarif_place(location@))]);
        places.push(object(place));
    }
    assert(views(places@) =~= want[3].1->List_0);
    let members = vec![
        member("descriptor", descriptor(error.code.as_str(), ids)),
        member("level", text("error")),
        member("message", text_object(error.message.as_str())),
        member("locations", list(places)),
    ];
    assert(member_views(members@) =~= want);
    object(members)
}

pub open spec fn exemption_notification_of(
    exemption: AppliedExemptionView,
    ids: Seq<Seq<char>>,
) -> JsonView {
    JsonView::Object(
        seq![
            ("descriptor"@, descriptor_of(EXEMPTION_NOTIFICATION@, ids)),
            ("level"@, JsonView::Text("note"@)),
            (
                "message"@,
                sarif_text(
                    "Exempted "@ + exemption.rule_id + " for "@ + exemption.test.qualified_name
                        + ": "@ + exemption.reason,
                ),
            ),
            (
                "properties"@,
                JsonView::Object(
                    seq![
                        ("ruleId"@, JsonView::Text(exemption.rule_id)),
                        ("testName"@, JsonView::Text(exemption.test.name)),
                        ("qualifiedTestName"@, JsonView::Text(exemption.test.qualified_name)),
                        ("fingerprint"@, JsonView::Text(exemption.fingerprint)),
                    ],
                ),
            ),
        ],
    )
}

fn exemption_notification(exemption: &AppliedExemption, ids: &Vec<String>) -> (r: Json)
    requires
        views(ids@).contains(EXEMPTION_NOTIFICATION@),
        views(ids@).no_duplicates(),
    ensures
        r@ == exemption_notification_of(exemption@, views(ids@)),
{
    let ghost want = exemption_notification_of(exemption@, views(ids@))->Object_0;
    let mut message = "Exempted ".to_owned();
    message.append(exemption.rule_id.as_str());
    message.append(" for ");
    message.append(exemption.test.qualified_name.as_str());
    message.append(": ");
    message.append(exemption.reason.as_str());
    let properties = vec![
        member("ruleId", text(exemption.rule_id.as_str())),
        member("testName", text(exemption.test.name.as_str())),
        member("qualifiedTestName", text(exemption.test.qualified_name.as_str())),
        member("fingerprint", text(exemption.fingerprint.as_str())),
    ];
    assert(member_views(properties@) =~= want[3].1->Object_0);
    let members = vec![
        member("descriptor", descriptor(EXEMPTION_NOTIFICATION, ids)),
        member("level", text("note")),
        member("message", text_object(message.as_str())),
        member("properties", object(properties)),
    ];
    assert(member_views(members@) =~= want);
    object(members)
}

pub open spec fn gap_notification_of(gap: AnalysisGapView, ids: Seq<Seq<char>>) -> JsonView {
    JsonView::Object(
        seq![
            ("descriptor"@, descriptor_of(gap.code, ids)),
            ("level"@, JsonView::Text("warning"@)),
            ("message"@, sarif_text(gap.message)),
            (
                "locations"@,
                sarif_test_place(gap.location, gap.test.name, gap.test.qualified_name),
            ),
            (
                "properties"@,
                JsonView::Object(
                    seq![
                        ("testName"@, JsonView::Text(gap.test.name)),
                        ("qualifiedTestName"@, JsonView::Text(gap.test.qualified_name)),
                    ],
                ),
            ),
        ],
    )
}

fn sarif_gap_notification(gap: &AnalysisGap, ids: &Vec<String>) -> (r: Json)
    requires
        views(ids@).contains(gap.code@),
        views(ids@).no_duplicates(),
    ensures
        r@ == gap_notification_of(gap@, views(ids@)),
{
    let ghost want = gap_notification_of(gap@, views(ids@))->Object_0;
    let properties = vec![
        member("testName", text(gap.test.name.as_str())),
        member("qualifiedTestName", text(gap.test.qualified_name.as_str())),
    ];
    assert(member_views(properties@) =~= want[4].1->Object_0);
    let members = vec![
        member("descriptor", descriptor(gap.code.as_str(), ids)),
        member("level", text("warning")),
        member("message", text_object(gap.message.as_str())),
        member(
            "locations",
            sarif_test_location(
                &gap.location,
                gap.test.name.as_str(),
                gap.test.qualified_name.as_str(),
            ),
        ),
        member("properties", object(properties)),
    ];
    assert(member_views(members@) =~= want);
    object(members)
}

/// The errors whose code begins with `config.`, or those whose code does not, as
/// notifications.
pub open spec fn error_notifications_of(
    errors: Seq<OperationalErrorView>,
    ids: Seq<Seq<char>>,
    configuration: bool,
) -> Seq<JsonView> {
    flat(
        errors,
        |e: OperationalErrorView|
            if has_prefix(e.code, "config."@) == configuration {
                seq![error_notification_of(e, ids)]
            } else {
                seq![]
            },
    )
}

fn error_notifications(
    report: &ValidationReport,
    ids: &Vec<String>,
    configuration: bool,
) -> (r: Vec<Json>)
    requires
        views(ids@).to_set() == notification_ids_of(report@),
        views(ids@).no_duplicates(),
    ensures
        views(r@) == error_notifications_of(report@.errors, views(ids@), configuration),
{
    let ghost f = |e: OperationalErrorView|
        if has_prefix(e.code, "config."@) == configuration {
            seq![error_notification_of(e, views(ids@))]
        } else {
            seq![]
        };
    let ghost all = report@.errors;
    let mut out: Vec<Json> = Vec::new();
    let mut i: usize = 0;
    while i < report.errors.len()
        invariant
            f == (|e: OperationalErrorView|
                if has_prefix(e.code, "config."@) == configuration {
                    seq![error_notification_of(e, views(ids@))]
                } else {
                    seq![]
                }),
            all == views(report.errors@),
            views(ids@).to_set() == notification_ids_of(report@),
            views(ids@).no_duplicates(),
            i <= report.errors@.len(),
            views(out@) == flat(all.take(i as int), f),
        decreases report.errors@.len() - i,
    {
        proof {
            take_step(all, i as int);
            assert(report@.errors[i as int].code == all[i as int].code);
            assert(notification_ids_of(report@).contains(all[i as int].code));
            assert(views(ids@).to_set().contains(all[i as int].code));
        }
        let ghost before = views(out@);
        if starts_with(report.errors[i].code.as_str(), "config.") == configuration {
            out.push(sarif_error_notification(&report.errors[i], ids));
        }
        assert(views(out@) =~= before + f(all[i as int]));
        i += 1;
    }
    proof {
        take_all(all);
    }
    out
}

pub open spec fn exemption_notifications_of(
    exemptions: Seq<AppliedExemptionView>,
    ids: Seq<Seq<char>>,
) -> Seq<JsonView> {
    Seq::new(exemptions.len(), |i: int| exemption_notification_of(exemptions[i], ids))
}

fn exemption_notifications(report: &ValidationReport, ids: &Vec<String>) -> (r: Vec<Json>)
    requires
        views(ids@).to_set() == notification_ids_of(report@),
        views(ids@).no_duplicates(),
    ensures
        views(r@) == exemption_notifications_of(report@.exemptions, views(ids@)),
{
    let ghost want = exemption_notifications_of(report@.exemptions, views(ids@));
    let mut out: Vec<Json> = Vec::new();
    let mut i: usize = 0;
    while i < report.exemptions.len()
        invariant
            want == exemption_notifications_of(report@.exemptions, views(ids@)),
            views(ids@).to_set() == notification_ids_of(report@),
            views(ids@).no_duplicates(),
            i <= report.exemptions@.len(),
            views(out@) == want.take(i as int),
        decreases report.exemptions@.len() - i,
    {
        proof {
            assert(notification_ids_of(report@).contains(EXEMPTION_NOTIFICATION@));
            assert(views(ids@).to_set().contains(EXEMPTION_NOTIFICATION@));
        }
        out.push(exemption_notification(&report.exemptions[i], ids));
        i += 1;
        assert(views(out@) =~= want.take(i as int));
    }
    proof {
        take_all(want);
    }
    out
}

pub open spec fn gap_notifications_of(
    gaps: Seq<AnalysisGapView>,
    ids: Seq<Seq<char>>,
) -> Seq<JsonView> {
    Seq::new(gaps.len(), |i: int| gap_notification_of(gaps[i], ids))
}

fn gap_notifications(report: &ValidationReport, ids: &Vec<String>) -> (r: Vec<Json>)
    requires
        views(ids@).to_set() == notification_ids_of(report@),
        views(ids@).no_duplicates(),
    ensures
        views(r@) == gap_notifications_of(report@.analysis_gaps, views(ids@)),
{
    let ghost want = gap_notifications_of(report@.analysis_gaps, views(ids@));
    let mut out: Vec<Json> = Vec::new();
    let mut i: usize = 0;
    while i < report.analysis_gaps.len()
        invariant
            want == gap_notifications_of(report@.analysis_gaps, views(ids@)),
            views(ids@).to_set() == notification_ids_of(report@),
            views(ids@).no_duplicates(),
            i <= report.analysis_gaps@.len(),
            views(out@) == want.take(i as int),
        decreases report.analysis_gaps@.len() - i,
    {
        proof {
            let code = report@.analysis_gaps[i as int].code;
            assert(notification_ids_of(report@).contains(code));
            assert(views(ids@).to_set().contains(code));
        }
        out.push(sarif_gap_notification(&report.analysis_gaps[i], ids));
        i += 1;
        assert(views(out@) =~= want.take(i as int));
    }
    proof {
        take_all(want);
    }
    out
}

pub open spec fn sarif_tool_of(report: ValidationReportView) -> JsonView {
    JsonView::Object(
        seq![
            (
                "driver"@,
                JsonView::Object(
                    seq![
                        ("name"@, JsonView::Text(report.tool.name)),
                        ("semanticVersion"@, JsonView::Text(report.tool.version)),
                        ("rules"@, JsonView::List(sarif_rules_of(report.findings))),
                        (
                            "notifications"@,
                            JsonView::List(
                                sarif_descriptors_of(listed(notification_ids_of(report))),
                            ),
                        ),
                    ],
                ),
            ),
        ],
    )
}

pub open spec fn sarif_invocation_of(report: ValidationReportView) -> JsonView {
    let ids = listed(notification_ids_of(report));
    let code = exit_code_of(report);
    JsonView::Object(
        seq![
            ("executionSuccessful"@, JsonView::Bool(code != 2)),
            ("exitCode"@, JsonView::Number(code as u64)),
            ("exitCodeDescription"@, JsonView::Text(exit_description_of(code))),
            (
                "toolConfigurationNotifications"@,
                JsonView::List(
                    error_notifications_of(report.errors, ids, true) + exemption_notifications_of(
                        report.exemptions,
                        ids,
                    ),
                ),
            ),
            (
                "toolExecutionNotifications"@,
                JsonView::List(
                    error_notifications_of(report.errors, ids, false) + gap_notifications_of(
                        report.analysis_gaps,
                        ids,
                    ),
                ),
            ),
        ],
    )
}

/// A report as a SARIF log with one run.
pub open spec fn sarif_of(report: ValidationReportView) -> JsonView {
    JsonView::Object(
        seq![
            ("$schema"@, JsonView::Text(SARIF_SCHEMA@)),
            ("version"@, JsonView::Text(SARIF_VERSION@)),
            (
                "runs"@,
                JsonView::List(
                    seq![
                        JsonView::Object(
                            seq![
                                ("columnKind"@, JsonView::Text("unicodeCodePoints"@)),
                                ("defaultEncoding"@, JsonView::Text("utf-8"@)),
                                ("defaultSourceLanguage"@, JsonView::Text("rust"@)),
                                ("tool"@, sarif_tool_of(report)),
                                (
                                    "invocations"@,
                                    JsonView::List(seq![sarif_invocation_of(report)]),
                                ),
                                ("results"@, JsonView::List(sarif_results_of(report.findings))),
                            ],
                        ),
                    ],
                ),
            ),
        ],
    )
}

fn sarif_tool(report: &ValidationReport, rules: &Vec<String>, ids: &Vec<String>) -> (r: Json)
    requires
        views(rules@) == listed(rule_ids_of(report@.findings)),
        views(rules@).to_set() == rule_ids_of(report@.findings),
        views(ids@) == listed(notification_ids_of(report@)),
    ensures
        r@ == sarif_tool_of(report@),
{
    let ghost want = sarif_tool_of(report@)->Object_0;
    let driver = vec![
        member("name", text(report.tool.name)),
        member("semanticVersion", text(report.tool.version)),
        member("rules", list(sarif_rules(&report.findings, rules))),
        member("notifications", list(sarif_descriptors(ids))),
    ];
    assert(member_views(driver@) =~= want[0].1->Object_0);
    let members = vec![member("driver", object(driver))];
    assert(member_views(members@) =~= want);
    object(members)
}

fn sarif_invocation(report: &ValidationReport, ids: &Vec<String>) -> (r: Json)
    requires
        views(ids@) == listed(notification_ids_of(report@)),
        views(ids@).to_set() == notification_ids_of(report@),
        views(ids@).no_duplicates(),
    ensures
        r@ == sarif_invocation_of(report@),
{
    let ghost want = sarif_invocation_of(report@)->Object_0;
    let code: i32 = exit_code(report);
    let mut configuration = error_notifications(report, ids, true);
    let mut applied = exemption_notifications(report, ids);
    configuration.append(&mut applied);
    let mut execution = error_notifications(report, ids, false);
    let mut open = gap_notifications(report, ids);
    execution.append(&mut open);
    let members = vec![
        member("executionSuccessful", Json::Bool(code != 2)),
        member("exitCode", Json::Number(code as u64)),
        member("exitCodeDescription", text(exit_description(code))),
        member("toolConfigurationNotifications", list(configuration)),
        member("toolExecutionNotifications", list(execution)),
    ];
    assert(member_views(members@) =~= want);
    object(members)
}

/// A report as a SARIF log.
pub fn sarif_value(report: &ValidationReport) -> (r: Json)
    ensures
        r@ == sarif_of(report@),
{
    let ghost want = sarif_of(report@)->Object_0;
    let rule_names = rule_ids(&report.findings);
    let rules = rule_names.as_vec();
    let id_names = notification_ids(report);
    let ids = id_names.as_vec();
    proof {
        crate::names::ascending_has_no_duplicates(views(rules@));
        crate::names::ascending_has_no_duplicates(views(ids@));
    }
    let invocations = vec![sarif_invocation(report, ids)];
    assert(views(invocations@) =~= seq![sarif_invocation_of(report@)]);
    let run = vec![
        member("columnKind", text("unicodeCodePoints")),
        member("defaultEncoding", text("utf-8")),
        member("defaultSourceLanguage", text("rust")),
        member("tool", sarif_tool(report, rules, ids)),
        member("invocations", list(invocations)),
        member("results", list(sarif_results(&report.findings, rules))),
    ];
    assert(member_views(run@) =~= want[2].1->List_0[0]->Object_0);
    let runs = vec![object(run)];
    assert(views(runs@) =~= want[2].1->List_0);
    let members = vec![
        member("$schema", text(SARIF_SCHEMA)),
        member("version", text(SARIF_VERSION)),
        member("runs", list(runs)),
    ];
    assert(member_views(members@) =~= want);
    object(members)
}

} // verus!
