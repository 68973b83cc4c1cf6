//! What the analysis finds in tests, and what is reported of it.

use vstd::prelude::*;

use crate::copies::{copy_option, copy_texts, option_view, Copied};
use crate::names::Names;
use crate::seqs::views;

verus! {

broadcast use {vstd::std_specs::vec::group_vec_axioms, crate::seqs::group_views};

/// The version of the report's layout.
pub const REPORT_SCHEMA_VERSION: &'static str = "cntryl.test-validation.v1";

#[derive(Debug, Clone, Copy, PartialEq, Eq, Structural)]
pub enum FindingCategory {
    Structure,
    Semantics,
    Hygiene,
}

/// The part of a test that a marker comment opens. What stands before the first
/// marker is its body.
#[derive(Debug, Clone, Copy, PartialEq, Eq, Structural)]
pub enum Section {
    Body,
    Arrange,
    Act,
    Assert,
}

/// The number after `n`, as far as there is one.
pub open spec fn after(n: int) -> usize {
    if n < usize::MAX {
        (n + 1) as usize
    } else {
        usize::MAX
    }
}

/// A place in a source file; lines and columns count from one.
#[derive(Debug, Clone, Copy, PartialEq, Eq, Structural)]
pub struct Position {
    pub line: usize,
    pub column: usize,
}

impl Position {
    pub fn new(line: usize, column: usize) -> (r: Self)
        ensures
            r == (Position { line, column }),
    {
        Self { line, column }
    }

    /// Whether this place comes before another, by line and then by column.
    pub open spec fn precedes(self, other: Position) -> bool {
        self.line < other.line || (self.line == other.line && self.column < other.column)
    }

    pub fn is_before(&self, other: &Position) -> (r: bool)
        ensures
            r == self.precedes(*other),
    {
        self.line < other.line || (self.line == other.line && self.column < other.column)
    }
}

#[derive(Debug, Clone, Copy, PartialEq, Eq, Structural)]
pub struct SourceSpan {
    pub start: Position,
    pub end: Position,
}

impl SourceSpan {
    /// A span within one line.
    pub fn line(line: usize, start_column: usize, end_column: usize) -> (r: Self)
        ensures
            r == (SourceSpan {
                start: Position { line, column: start_column },
                end: Position { line, column: end_column },
            }),
    {
        Self { start: Position::new(line, start_column), end: Position::new(line, end_column) }
    }

    /// Whether `inner` lies within this span.
    pub open spec fn encloses(self, inner: SourceSpan) -> bool {
        !inner.start.precedes(self.start) && !self.end.precedes(inner.end)
    }

    pub fn contains(&self, inner: &SourceSpan) -> (r: bool)
        ensures
            r == self.encloses(*inner),
    {
        !inner.start.is_before(&self.start) && !self.end.is_before(&inner.end)
    }

    /// Every span encloses itself.
    pub proof fn encloses_itself(self)
        ensures
            self.encloses(self),
    {
    }

    /// What encloses a span encloses everything that the span encloses.
    pub proof fn encloses_transitively(self, middle: SourceSpan, inner: SourceSpan)
        requires
            self.encloses(middle),
            middle.encloses(inner),
        ensures
            self.encloses(inner),
    {
    }
}

impl View for SourceSpan {
    type V = SourceSpan;

    open spec fn view(&self) -> SourceSpan {
        *self
    }
}

impl Copied for SourceSpan {
    fn copied(&self) -> (r: Self) {
        *self
    }
}

#[derive(Debug, Clone, PartialEq, Eq)]
pub struct SourceLocation {
    pub path: String,
    pub span: SourceSpan,
    pub label: String,
}

#[verifier::ext_equal]
pub struct SourceLocationView {
    pub path: Seq<char>,
    pub span: SourceSpan,
    pub label: Seq<char>,
}

impl View for SourceLocation {
    type V = SourceLocationView;

    open spec fn view(&self) -> SourceLocationView {
        SourceLocationView { path: self.path@, span: self.span, label: self.label@ }
    }
}

impl Copied for SourceLocation {
    fn copied(&self) -> (r: Self) {
        SourceLocation { path: self.path.clone(), span: self.span, label: self.label.clone() }
    }
}

#[derive(Debug, Clone, PartialEq, Eq)]
pub struct Evidence {
    pub kind: String,
    pub message: String,
    pub location: SourceLocation,
}

#[verifier::ext_equal]
pub struct EvidenceView {
    pub kind: Seq<char>,
    pub message: Seq<char>,
    pub location: SourceLocationView,
}

impl View for Evidence {
    type V = EvidenceView;

    open spec fn view(&self) -> EvidenceView {
        EvidenceView { kind: self.kind@, message: self.message@, location: self.location@ }
    }
}

impl Copied for Evidence {
    fn copied(&self) -> (r: Self) {
        Evidence {
            kind: self.kind.clone(),
            message: self.message.clone(),
            location: self.location.copied(),
        }
    }
}

#[derive(Debug, Clone, PartialEq, Eq)]
pub struct Remediation {
    pub summary: String,
    pub actions: Vec<String>,
    pub example: Option<String>,
    pub rerun: String,
}

#[verifier::ext_equal]
pub struct RemediationView {
    pub summary: Seq<char>,
    pub actions: Seq<Seq<char>>,
    pub example: Option<Seq<char>>,
    pub rerun: Seq<char>,
}

impl View for Remediation {
    type V = RemediationView;

    open spec fn view(&self) -> RemediationView {
        RemediationView {
            summary: self.summary@,
            actions: views(self.actions@),
            example: option_view(self.example),
            rerun: self.rerun@,
        }
    }
}

impl Copied for Remediation {
    fn copied(&self) -> (r: Self) {
        Remediation {
            summary: self.summary.clone(),
            actions: copy_texts(&self.actions),
            example: copy_option(&self.example),
            rerun: self.rerun.clone(),
        }
    }
}

#[derive(Debug, Clone, PartialEq, Eq)]
pub struct Finding {
    pub rule_id: String,
    pub category: FindingCategory,
    pub severity: &'static str,
    pub confidence: &'static str,
    pub fingerprint: String,
    pub test: TestIdentity,
    pub message: String,
    pub primary: SourceLocation,
    pub evidence: Vec<Evidence>,
    pub why_it_matters: String,
    pub remediation: Remediation,
}

#[verifier::ext_equal]
pub struct FindingView {
    pub rule_id: Seq<char>,
    pub category: FindingCategory,
    pub severity: Seq<char>,
    pub confidence: Seq<char>,
    pub fingerprint: Seq<char>,
    pub test: TestIdentityView,
    pub message: Seq<char>,
    pub primary: SourceLocationView,
    pub evidence: Seq<EvidenceView>,
    pub why_it_matters: Seq<char>,
    pub remediation: RemediationView,
}

impl View for Finding {
    type V = FindingView;

    open spec fn view(&self) -> FindingView {
        FindingView {
            rule_id: self.rule_id@,
            category: self.category,
            severity: self.severity@,
            confidence: self.confidence@,
            fingerprint: self.fingerprint@,
            test: self.test@,
            message: self.message@,
            primary: self.primary@,
            evidence: views(self.evidence@),
            why_it_matters: self.why_it_matters@,
            remediation: self.remediation@,
        }
    }
}

#[derive(Debug, Clone, PartialEq, Eq, PartialOrd, Ord)]
pub struct TestIdentity {
    pub name: String,
    pub qualified_name: String,
}

#[verifier::ext_equal]
pub struct TestIdentityView {
    pub name: Seq<char>,
    pub qualified_name: Seq<char>,
}

impl View for TestIdentity {
    type V = TestIdentityView;

    open spec fn view(&self) -> TestIdentityView {
        TestIdentityView { name: self.name@, qualified_name: self.qualified_name@ }
    }
}

impl Copied for TestIdentity {
    fn copied(&self) -> (r: Self) {
        TestIdentity { name: self.name.clone(), qualified_name: self.qualified_name.clone() }
    }
}

/// What the analysis could not settle about a test.
#[derive(Debug, Clone, PartialEq, Eq)]
pub struct AnalysisGap {
    pub code: String,
    pub test: TestIdentity,
    pub message: String,
    pub location: SourceLocation,
}

#[verifier::ext_equal]
pub struct AnalysisGapView {
    pub code: Seq<char>,
    pub test: TestIdentityView,
    pub message: Seq<char>,
    pub location: SourceLocationView,
}

impl View for AnalysisGap {
    type V = AnalysisGapView;

    open spec fn view(&self) -> AnalysisGapView {
        AnalysisGapView {
            code: self.code@,
            test: self.test@,
            message: self.message@,
            location: self.location@,
        }
    }
}

impl Copied for AnalysisGap {
    fn copied(&self) -> (r: Self) {
        AnalysisGap {
            code: self.code.clone(),
            test: self.test.copied(),
            message: self.message.clone(),
            location: self.location.copied(),
        }
    }
}

#[derive(Debug, Clone, PartialEq, Eq)]
pub struct AppliedExemption {
    pub rule_id: String,
    pub test: TestIdentity,
    pub reason: String,
    pub fingerprint: String,
}

#[verifier::ext_equal]
pub struct AppliedExemptionView {
    pub rule_id: Seq<char>,
    pub test: TestIdentityView,
    pub reason: Seq<char>,
    pub fingerprint: Seq<char>,
}

impl View for AppliedExemption {
    type V = AppliedExemptionView;

    open spec fn view(&self) -> AppliedExemptionView {
        AppliedExemptionView {
            rule_id: self.rule_id@,
            test: self.test@,
            reason: self.reason@,
            fingerprint: self.fingerprint@,
        }
    }
}

impl Copied for AppliedExemption {
    fn copied(&self) -> (r: Self) {
        AppliedExemption {
            rule_id: self.rule_id.clone(),
            test: self.test.copied(),
            reason: self.reason.clone(),
            fingerprint: self.fingerprint.clone(),
        }
    }
}

#[derive(Debug, Clone, Copy, PartialEq, Eq, Structural)]
pub struct ValidationSummary {
    pub total_files: usize,
    pub total_tests: usize,
    pub fully_analyzed_tests: usize,
    pub partially_analyzed_tests: usize,
    pub tests_with_findings: usize,
    pub findings: usize,
    pub applied_exemptions: usize,
}

#[derive(Debug, Clone, PartialEq, Eq)]
pub struct ValidationReport {
    pub schema_version: &'static str,
    pub tool: ToolInfo,
    pub status: ReportStatus,
    pub root: String,
    pub summary: ValidationSummary,
    pub findings: Vec<Finding>,
    pub analysis_gaps: Vec<AnalysisGap>,
    pub exemptions: Vec<AppliedExemption>,
    pub errors: Vec<OperationalError>,
}

#[verifier::ext_equal]
pub struct ValidationReportView {
    pub schema_version: Seq<char>,
    pub tool: ToolInfoView,
    pub status: ReportStatus,
    pub root: Seq<char>,
    pub summary: ValidationSummary,
    pub findings: Seq<FindingView>,
    pub analysis_gaps: Seq<AnalysisGapView>,
    pub exemptions: Seq<AppliedExemptionView>,
    pub errors: Seq<OperationalErrorView>,
}

impl View for ValidationReport {
    type V = ValidationReportView;

    open spec fn view(&self) -> ValidationReportView {
        ValidationReportView {
            schema_version: self.schema_version@,
            tool: self.tool@,
            status: self.status,
            root: self.root@,
            summary: self.summary,
            findings: views(self.findings@),
            analysis_gaps: views(self.analysis_gaps@),
            exemptions: views(self.exemptions@),
            errors: views(self.errors@),
        }
    }
}

#[derive(Debug, Clone, PartialEq, Eq)]
pub struct ToolInfo {
    pub name: &'static str,
    pub version: &'static str,
}

#[verifier::ext_equal]
pub struct ToolInfoView {
    pub name: Seq<char>,
    pub version: Seq<char>,
}

impl View for ToolInfo {
    type V = ToolInfoView;

    open spec fn view(&self) -> ToolInfoView {
        ToolInfoView { name: self.name@, version: self.version@ }
    }
}

#[derive(Debug, Clone, Copy, PartialEq, Eq, Structural)]
pub enum ReportStatus {
    Complete,
    Incomplete,
}

#[derive(Debug, Clone, PartialEq, Eq)]
pub struct OperationalError {
    pub code: String,
    pub message: String,
    pub location: Option<SourceLocation>,
}

#[verifier::ext_equal]
pub struct OperationalErrorView {
    pub code: Seq<char>,
    pub message: Seq<char>,
    pub location: Option<SourceLocationView>,
}

impl View for OperationalError {
    type V = OperationalErrorView;

    open spec fn view(&self) -> OperationalErrorView {
        OperationalErrorView {
            code: self.code@,
            message: self.message@,
            location: option_view(self.location),
        }
    }
}

#[derive(Debug, Clone, Copy, PartialEq, Eq, Structural)]
pub enum MarkerKind {
    Arrange,
    Act,
    Assert,
}

/// A comment that opens a section of a test.
#[derive(Debug, Clone, Copy, PartialEq, Eq, Structural)]
pub struct Marker {
    pub kind: MarkerKind,
    pub span: SourceSpan,
    pub combined: bool,
}

/// A call in the body of a test.
#[derive(Debug, Clone, PartialEq, Eq)]
pub struct CallFact {
    pub name: String,
    pub qualified_name: String,
    pub span: SourceSpan,
    pub section: Section,
    pub receiver_identifiers: Names,
    pub argument_identifiers: Names,
}

#[verifier::ext_equal]
pub struct CallFactView {
    pub name: Seq<char>,
    pub qualified_name: Seq<char>,
    pub span: SourceSpan,
    pub section: Section,
    pub receiver_identifiers: Set<Seq<char>>,
    pub argument_identifiers: Set<Seq<char>>,
}

impl View for CallFact {
    type V = CallFactView;

    open spec fn view(&self) -> CallFactView {
        CallFactView {
            name: self.name@,
            qualified_name: self.qualified_name@,
            span: self.span,
            section: self.section,
            receiver_identifiers: self.receiver_identifiers@,
            argument_identifiers: self.argument_identifiers@,
        }
    }
}

#[derive(Debug, Clone, Copy, PartialEq, Eq, Structural)]
pub enum OracleKind {
    Outcome,
    Interaction,
    BroadError,
    Execution,
}

/// Something in a test that can make it fail.
#[derive(Debug, Clone, PartialEq, Eq)]
pub struct OracleFact {
    pub kind: OracleKind,
    pub span: SourceSpan,
    pub section: Section,
    pub text: String,
    pub actual_identifiers: Names,
    pub expected_identifiers: Names,
    pub actual_calls: Names,
    pub expected_calls: Names,
    pub produced_identifiers: Names,
    pub actual_root_call: Option<String>,
    pub expected_root_call: Option<String>,
    pub self_derived_candidate: bool,
    pub conditional: bool,
    pub tautological: bool,
}

#[verifier::ext_equal]
pub struct OracleFactView {
    pub kind: OracleKind,
    pub span: SourceSpan,
    pub section: Section,
    pub text: Seq<char>,
    pub actual_identifiers: Set<Seq<char>>,
    pub expected_identifiers: Set<Seq<char>>,
    pub actual_calls: Set<Seq<char>>,
    pub expected_calls: Set<Seq<char>>,
    pub produced_identifiers: Set<Seq<char>>,
    pub actual_root_call: Option<Seq<char>>,
    pub expected_root_call: Option<Seq<char>>,
    pub self_derived_candidate: bool,
    pub conditional: bool,
    pub tautological: bool,
}

impl View for OracleFact {
    type V = OracleFactView;

    open spec fn view(&self) -> OracleFactView {
        OracleFactView {
            kind: self.kind,
            span: self.span,
            section: self.section,
            text: self.text@,
            actual_identifiers: self.actual_identifiers@,
            expected_identifiers: self.expected_identifiers@,
            actual_calls: self.actual_calls@,
            expected_calls: self.expected_calls@,
            produced_identifiers: self.produced_identifiers@,
            actual_root_call: option_view(self.actual_root_call),
            expected_root_call: option_view(self.expected_root_call),
            self_derived_candidate: self.self_derived_candidate,
            conditional: self.conditional,
            tautological: self.tautological,
        }
    }
}

#[derive(Debug, Clone, Copy, PartialEq, Eq, Structural)]
pub enum HygieneKind {
    FixedSleep,
    UncontrolledClock,
    UncontrolledRandom,
    ProcessEnvironment,
}

/// A call whose effect depends on more than the test.
#[derive(Debug, Clone, PartialEq, Eq)]
pub struct HygieneFact {
    pub kind: HygieneKind,
    pub call: String,
    pub span: SourceSpan,
    pub section: Section,
    pub in_oracle: bool,
}

#[verifier::ext_equal]
pub struct HygieneFactView {
    pub kind: HygieneKind,
    pub call: Seq<char>,
    pub span: SourceSpan,
    pub section: Section,
    pub in_oracle: bool,
}

impl View for HygieneFact {
    type V = HygieneFactView;

    open spec fn view(&self) -> HygieneFactView {
        HygieneFactView {
            kind: self.kind,
            call: self.call@,
            span: self.span,
            section: self.section,
            in_oracle: self.in_oracle,
        }
    }
}

/// How many statements stand in each section of a test.
#[derive(Debug, Clone, Copy, PartialEq, Eq, Structural)]
pub struct SectionStatements {
    pub body: usize,
    pub arrange: usize,
    pub act: usize,
    pub assert: usize,
}

impl SectionStatements {
    pub open spec fn of(self, section: Section) -> usize {
        match section {
            Section::Body => self.body,
            Section::Arrange => self.arrange,
            Section::Act => self.act,
            Section::Assert => self.assert,
        }
    }

    pub fn get(&self, section: Section) -> (r: usize)
        ensures
            r == self.of(section),
    {
        match section {
            Section::Body => self.body,
            Section::Arrange => self.arrange,
            Section::Act => self.act,
            Section::Assert => self.assert,
        }
    }

    /// One more statement in a section.
    pub open spec fn plus_one(self, section: Section) -> SectionStatements {
        let count = if self.of(section) < usize::MAX {
            (self.of(section) + 1) as usize
        } else {
            usize::MAX
        };
        match section {
            Section::Body => SectionStatements { body: count, ..self },
            Section::Arrange => SectionStatements { arrange: count, ..self },
            Section::Act => SectionStatements { act: count, ..self },
            Section::Assert => SectionStatements { assert: count, ..self },
        }
    }

    pub fn add_one(&mut self, section: Section)
        ensures
            *final(self) == old(self).plus_one(section),
    {
        let count: usize = self.get(section).saturating_add(1);
        match section {
            Section::Body => {
                self.body = count;
            },
            Section::Arrange => {
                self.arrange = count;
            },
            Section::Act => {
                self.act = count;
            },
            Section::Assert => {
                self.assert = count;
            },
        }
    }
}

/// One test with everything that the analysis found in it.
#[derive(Debug, Clone)]
pub struct TestCase {
    pub path: String,
    pub name: String,
    pub qualified_name: String,
    pub name_span: SourceSpan,
    pub function_span: SourceSpan,
    pub line_count: usize,
    pub markers: Vec<Marker>,
    pub section_statements: SectionStatements,
    pub ignored: Option<String>,
    pub ignore_span: Option<SourceSpan>,
    pub should_panic: bool,
    pub should_panic_expected: Option<String>,
    pub act_outputs: Names,
    pub act_effects: Names,
    pub act_root_calls: Names,
    pub uncontrolled_clock_outputs: Names,
    pub oracles: Vec<OracleFact>,
    pub calls: Vec<CallFact>,
    pub hygiene: Vec<HygieneFact>,
    pub gaps: Vec<AnalysisGap>,
}

#[verifier::ext_equal]
pub struct TestCaseView {
    pub path: Seq<char>,
    pub name: Seq<char>,
    pub qualified_name: Seq<char>,
    pub name_span: SourceSpan,
    pub function_span: SourceSpan,
    pub line_count: usize,
    pub markers: Seq<Marker>,
    pub section_statements: SectionStatements,
    pub ignored: Option<Seq<char>>,
    pub ignore_span: Option<SourceSpan>,
    pub should_panic: bool,
    pub should_panic_expected: Option<Seq<char>>,
    pub act_outputs: Set<Seq<char>>,
    pub act_effects: Set<Seq<char>>,
    pub act_root_calls: Set<Seq<char>>,
    pub uncontrolled_clock_outputs: Set<Seq<char>>,
    pub oracles: Seq<OracleFactView>,
    pub calls: Seq<CallFactView>,
    pub hygiene: Seq<HygieneFactView>,
    pub gaps: Seq<AnalysisGapView>,
}

impl View for TestCase {
    type V = TestCaseView;

    open spec fn view(&self) -> TestCaseView {
        TestCaseView {
            path: self.path@,
            name: self.name@,
            qualified_name: self.qualified_name@,
            name_span: self.name_span,
            function_span: self.function_span,
            line_count: self.line_count,
            markers: self.markers@,
            section_statements: self.section_statements,
            ignored: option_view(self.ignored),
            ignore_span: self.ignore_span,
            should_panic: self.should_panic,
            should_panic_expected: option_view(self.should_panic_expected),
            act_outputs: self.act_outputs@,
            act_effects: self.act_effects@,
            act_root_calls: self.act_root_calls@,
            uncontrolled_clock_outputs: self.uncontrolled_clock_outputs@,
            oracles: views(self.oracles@),
            calls: views(self.calls@),
            hygiene: views(self.hygiene@),
            gaps: views(self.gaps@),
        }
    }
}

} // verus!
