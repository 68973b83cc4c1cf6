use cntryl_tools::json::Json;
use cntryl_tools::validate_tests::model::{
    AnalysisGap, Evidence, Finding, FindingCategory, OperationalError, Position, Remediation,
    ReportStatus, SourceLocation, SourceSpan, TestIdentity, ToolInfo, ValidationReport,
    ValidationSummary, REPORT_SCHEMA_VERSION,
};
use cntryl_tools::validate_tests::report::{
    exit_code, human_streams, normalized_report, render_human, sarif_value, uri_path,
};

fn text(value: &Json) -> &str {
    match value {
        Json::Text(text) => text.as_str(),
        _ => "",
    }
}

fn member<'a>(value: &'a Json, name: &str) -> &'a Json {
    value.get(name).expect("object member")
}

fn item(value: &Json, index: usize) -> &Json {
    value.at(index).expect("list item")
}

#[test]
fn should_render_complete_human_remediation() {
    // Arrange
    let report = report_with_finding();

    // Act
    let rendered = render_human(&report);

    // Assert
    assert!(rendered.contains("tests/api.rs::api::should_return_created"));
    assert!(rendered.contains("error[oracle.disconnected]"));
    assert!(rendered.contains("evidence:"));
    assert!(rendered.contains("why: The test can pass"));
    assert!(rendered.contains("fix: Assert the response status."));
    assert!(rendered.contains("example: assert_eq!(response.status(), 201);"));
    assert!(rendered.contains("rerun: cntryl-tools validate-tests -f 'tests/api.rs'"));
    assert!(rendered.contains("Validation failed: 1 findings affecting 1 of 1 tests"));
}

#[test]
fn should_order_normalized_findings_by_path() {
    // Arrange
    let mut report = report_with_finding();
    let mut later = report_with_finding().findings.remove(0);
    later.primary.path = ".\\tests\\z.rs".to_string();
    later.test.qualified_name = "z::should_finish".to_string();
    report.findings.insert(0, later);
    report.summary.findings = 2;

    // Act
    let normalized = normalized_report(&report);

    // Assert
    assert_eq!(normalized.schema_version, REPORT_SCHEMA_VERSION);
    assert_eq!(normalized.findings[0].primary.path, "tests/api.rs");
    assert_eq!(normalized.findings[1].primary.path, "tests/z.rs");
}

#[test]
fn should_map_findings_and_gaps_to_sarif() {
    // Arrange
    let mut report = report_with_finding();
    report.analysis_gaps.push(AnalysisGap {
        code: "analysis.unsupported-macro".to_string(),
        test: identity(),
        message: "custom macro could not be resolved".to_string(),
        location: location("tests/api.rs", 30, 5, 36),
    });
    report.summary.partially_analyzed_tests = 1;

    // Act
    let sarif = sarif_value(&report);
    let run = item(member(&sarif, "runs"), 0);
    let result = item(member(run, "results"), 0);
    let invocation = item(member(run, "invocations"), 0);

    // Assert
    assert_eq!(text(member(&sarif, "version")), "2.1.0");
    assert_eq!(text(member(run, "columnKind")), "unicodeCodePoints");
    assert!(matches!(member(invocation, "exitCode"), Json::Number(1)));
    assert!(matches!(
        member(invocation, "executionSuccessful"),
        Json::Bool(true)
    ));
    assert_eq!(text(member(result, "ruleId")), "oracle.disconnected");
    assert_eq!(
        text(member(
            member(result, "fingerprints"),
            "cntrylTestValidation/v1"
        )),
        "sha256:0123456789abcdef"
    );
    assert_eq!(
        text(member(
            item(member(invocation, "toolExecutionNotifications"), 0),
            "level"
        )),
        "warning"
    );
}

#[test]
fn should_name_sarif_rules_by_their_words() {
    // Arrange
    let report = report_with_finding();

    // Act
    let sarif = sarif_value(&report);
    let driver = member(member(item(member(&sarif, "runs"), 0), "tool"), "driver");
    let rule = item(member(driver, "rules"), 0);

    // Assert
    assert_eq!(text(member(rule, "id")), "oracle.disconnected");
    assert_eq!(text(member(member(rule, "shortDescription"), "text")), "Oracle disconnected");
}

#[test]
fn should_describe_incomplete_sarif() {
    // Arrange
    let mut report = empty_report();
    report.status = ReportStatus::Incomplete;
    report.errors.push(OperationalError {
        code: "config.invalid".to_string(),
        message: "invalid test policy".to_string(),
        location: None,
    });

    // Act
    let sarif = sarif_value(&report);
    let run = item(member(&sarif, "runs"), 0);
    let invocation = item(member(run, "invocations"), 0);

    // Assert
    assert!(matches!(member(run, "results"), Json::List(items) if items.is_empty()));
    assert!(matches!(
        member(invocation, "executionSuccessful"),
        Json::Bool(false)
    ));
    assert_eq!(
        text(member(
            item(member(invocation, "toolConfigurationNotifications"), 0),
            "level"
        )),
        "error"
    );
}

#[test]
fn should_exit_two_for_incomplete_report() {
    // Arrange
    let mut report = empty_report();
    report.status = ReportStatus::Incomplete;

    // Act
    let code = exit_code(&report);

    // Assert
    assert_eq!(code, 2);
}

#[test]
fn should_exit_zero_or_one_for_complete_report() {
    // Arrange
    let clean = empty_report();
    let failing = report_with_finding();

    // Act
    let codes = [exit_code(&clean), exit_code(&failing)];

    // Assert
    assert_eq!(codes, [0, 1]);
}

#[test]
fn should_keep_exit_code_when_normalizing() {
    // Arrange
    let failing = report_with_finding();

    // Act
    let normalized = normalized_report(&failing);

    // Assert
    assert_eq!(exit_code(&normalized), exit_code(&failing));
}

#[test]
fn should_render_reordered_lists_alike() {
    // Arrange
    let mut first = report_with_finding();
    let mut later = report_with_finding().findings.remove(0);
    later.rule_id = "oracle.missing".to_string();
    first.findings.push(later);
    first.errors.push(OperationalError {
        code: "input.read-failed".to_string(),
        message: "b".to_string(),
        location: None,
    });
    first.errors.push(OperationalError {
        code: "input.read-failed".to_string(),
        message: "a".to_string(),
        location: None,
    });
    let mut second = report_with_finding();
    let mut later = report_with_finding().findings.remove(0);
    later.rule_id = "oracle.missing".to_string();
    second.findings.insert(0, later);
    for message in ["a", "b"] {
        second.errors.push(OperationalError {
            code: "input.read-failed".to_string(),
            message: message.to_string(),
            location: None,
        });
    }

    // Act
    let rendered = render_human(&first);

    // Assert
    assert_eq!(rendered, render_human(&second));
    assert!(rendered.contains("oracle.missing"));
    assert!(rendered.contains("Use an observable derived from `response`."));
}

#[test]
fn should_escape_paths_in_uris() {
    assert_eq!(uri_path(".\\a b\\\u{e9}%.rs"), "a%20b/%C3%A9%25.rs");
    assert_eq!(uri_path("src/lib-1_x~.rs"), "src/lib-1_x~.rs");
}

fn report_with_finding() -> ValidationReport {
    let mut report = empty_report();
    report.summary.total_files = 1;
    report.summary.total_tests = 1;
    report.summary.fully_analyzed_tests = 1;
    report.summary.tests_with_findings = 1;
    report.summary.findings = 1;
    report.findings.push(Finding {
        rule_id: "oracle.disconnected".to_string(),
        category: FindingCategory::Semantics,
        severity: "error",
        confidence: "high",
        fingerprint: "sha256:0123456789abcdef".to_string(),
        test: identity(),
        message: "The assertion does not observe the Act result.".to_string(),
        primary: location("tests/api.rs", 24, 5, 35),
        evidence: vec![Evidence {
            kind: "act".to_string(),
            message: "The Act result is bound here.".to_string(),
            location: location("tests/api.rs", 20, 9, 38),
        }],
        why_it_matters: "The test can pass when behavior is broken.".to_string(),
        remediation: Remediation {
            summary: "Assert the response status.".to_string(),
            actions: vec!["Use an observable derived from `response`.".to_string()],
            example: Some("assert_eq!(response.status(), 201);".to_string()),
            rerun: "cntryl-tools validate-tests -f 'tests/api.rs'".to_string(),
        },
    });
    report
}

fn empty_report() -> ValidationReport {
    ValidationReport {
        schema_version: REPORT_SCHEMA_VERSION,
        tool: ToolInfo {
            name: "cntryl-tools",
            version: "0.1.0",
        },
        status: ReportStatus::Complete,
        root: ".".to_string(),
        summary: ValidationSummary {
            total_files: 0,
            total_tests: 0,
            fully_analyzed_tests: 0,
            partially_analyzed_tests: 0,
            tests_with_findings: 0,
            findings: 0,
            applied_exemptions: 0,
        },
        findings: Vec::new(),
        analysis_gaps: Vec::new(),
        exemptions: Vec::new(),
        errors: Vec::new(),
    }
}

fn identity() -> TestIdentity {
    TestIdentity {
        name: "should_return_created".to_string(),
        qualified_name: "api::should_return_created".to_string(),
    }
}

fn location(path: &str, line: usize, start_column: usize, end_column: usize) -> SourceLocation {
    SourceLocation {
        path: path.to_string(),
        span: SourceSpan {
            start: Position::new(line, start_column),
            end: Position::new(line, end_column),
        },
        label: "test location".to_string(),
    }
}
