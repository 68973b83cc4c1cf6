use cntryl_tools::json::Json;
use cntryl_tools::validate_tests::config::{validate, TestPolicyConfig};
use cntryl_tools::validate_tests::model::{ReportStatus, ValidationReport, REPORT_SCHEMA_VERSION};
use cntryl_tools::validate_tests::report::{
    exit_code, normalized_report, render_human, sarif_value,
};
use cntryl_tools::validate_tests::{deadline_expired, RunFailure, Session};

const VERSION: &str = "0.1.0";

const CLEAN: &str = r"
#[test]
fn should_report_observable_value() {
    let actual = parse_value();
    assert_eq!(actual, 42);
}
";

const VACUOUS: &str = r"
#[test]
fn reports_anything() {
    assert!(true);
}
";

fn run_with(policy: &TestPolicyConfig, files: &[(&str, &str)]) -> ValidationReport {
    let mut session = Session::new();
    for (path, source) in files {
        assert!(session.goes_on(false, None));
        assert!(session.add_source(path, source, policy));
    }
    session.close(policy, false, None, VERSION)
}

fn run(files: &[(&str, &str)]) -> ValidationReport {
    run_with(&TestPolicyConfig::default(), files)
}

fn assert_sha256_fingerprint(value: &str) {
    let digest = value
        .strip_prefix("sha256:")
        .expect("fingerprint should have sha256 prefix");
    assert_eq!(
        digest.len(),
        64,
        "fingerprint should contain a SHA-256 digest"
    );
    assert!(
        digest
            .bytes()
            .all(|byte| byte.is_ascii_digit() || (b'a'..=b'f').contains(&byte)),
        "fingerprint should use lowercase hexadecimal"
    );
}

#[test]
fn should_discover_attributed_async_test() {
    // Arrange
    let source = r"
#[tokio::test]
#[allow(clippy::too_many_lines)]
async fn should_observe_async_result() {
    let actual = service_call().await;
    assert_eq!(actual, 42);
}
";

    // Act
    let report = run(&[("src/lib.rs", source)]);

    // Assert
    assert_eq!(exit_code(&report), 0);
    assert_eq!(report.status, ReportStatus::Complete);
    assert_eq!(report.summary.total_files, 1);
    assert_eq!(report.summary.total_tests, 1);
    assert_eq!(report.summary.findings, 0);
}

#[test]
fn should_exit_one_when_findings_are_reported() {
    // Act
    let report = run(&[("src/lib.rs", VACUOUS)]);

    // Assert
    assert_eq!(exit_code(&report), 1);
    assert_eq!(report.status, ReportStatus::Complete);
    assert_eq!(report.summary.tests_with_findings, 1);
    assert!(report.summary.findings >= 1);
    assert!(!report.findings.is_empty());
}

#[test]
fn should_exit_zero_when_analysis_is_clean() {
    // Act
    let report = run(&[("src/lib.rs", CLEAN)]);

    // Assert
    assert_eq!(exit_code(&report), 0);
    assert_eq!(report.status, ReportStatus::Complete);
    assert_eq!(report.summary.total_tests, 1);
    assert_eq!(report.summary.findings, 0);
    assert!(report.findings.is_empty());
    assert!(report.errors.is_empty());
}

#[test]
fn should_emit_deterministic_versioned_native_json() {
    // Act
    let first = normalized_report(&run(&[("src/lib.rs", VACUOUS)]));
    let second = normalized_report(&run(&[("src/lib.rs", VACUOUS)]));

    // Assert
    assert_eq!(render_human(&first), render_human(&second));
    assert_eq!(first.schema_version, REPORT_SCHEMA_VERSION);
    assert_eq!(first.schema_version, "cntryl.test-validation.v1");
    assert_eq!(first.tool.name, "cntryl-tools");
    assert_eq!(first.status, ReportStatus::Complete);
    let finding = &first.findings[0];
    assert_sha256_fingerprint(&finding.fingerprint);
    assert_eq!(finding.fingerprint, second.findings[0].fingerprint);
    assert!(finding.primary.span.start.line > 0);
    assert!(finding.primary.span.start.column > 0);
}

fn member<'a>(value: &'a Json, name: &str) -> &'a Json {
    value.get(name).expect("object member")
}

fn item(value: &Json, index: usize) -> &Json {
    value.at(index).expect("list item")
}

fn text(value: &Json) -> &str {
    match value {
        Json::Text(text) => text.as_str(),
        _ => "",
    }
}

#[test]
fn should_emit_sarif_fingerprint_and_unicode_columns() {
    // Act
    let report = run(&[("src/lib.rs", VACUOUS)]);
    let sarif = sarif_value(&report);

    // Assert
    assert_eq!(exit_code(&report), 1);
    assert_eq!(text(member(&sarif, "version")), "2.1.0");
    assert!(text(member(&sarif, "$schema")).ends_with("sarif-schema-2.1.0.json"));
    assert!(matches!(member(&sarif, "runs"), Json::List(runs) if runs.len() == 1));
    let run = item(member(&sarif, "runs"), 0);
    assert_eq!(text(member(run, "columnKind")), "unicodeCodePoints");
    let invocation = item(member(run, "invocations"), 0);
    assert!(matches!(member(invocation, "exitCode"), Json::Number(1)));
    assert!(matches!(
        member(invocation, "executionSuccessful"),
        Json::Bool(true)
    ));
    let result = item(member(run, "results"), 0);
    assert_sha256_fingerprint(text(member(
        member(result, "fingerprints"),
        "cntrylTestValidation/v1",
    )));
    let place = member(item(member(result, "locations"), 0), "physicalLocation");
    assert_eq!(
        text(member(member(place, "artifactLocation"), "uri")),
        "src/lib.rs"
    );
    assert!(matches!(
        member(member(place, "region"), "startColumn"),
        Json::Number(column) if *column > 0
    ));
}

#[test]
fn should_point_sarif_results_at_their_rules() {
    // Arrange
    let report = run(&[("src/lib.rs", VACUOUS), ("src/other.rs", VACUOUS)]);

    // Act
    let sarif = sarif_value(&report);
    let run = item(member(&sarif, "runs"), 0);
    let rules = member(member(member(run, "tool"), "driver"), "rules");

    // Assert
    for index in 0..report.findings.len() {
        let result = item(member(run, "results"), index);
        match member(result, "ruleIndex") {
            Json::Number(at) => assert_eq!(
                text(member(item(rules, *at as usize), "id")),
                text(member(result, "ruleId"))
            ),
            _ => panic!("rule index"),
        }
    }
}

#[test]
fn should_apply_config_to_repeated_file_filters() {
    // Arrange
    let policy = TestPolicyConfig {
        aaa_min_lines: 20,
        ..TestPolicyConfig::default()
    };

    // Act
    let report = run_with(
        &policy,
        &[
            (
                "src/first.rs",
                r"
#[test]
fn should_validate_first_file() {
    let input = 1;
    let actual = first(input);

    assert_eq!(actual, 1);
}
",
            ),
            (
                "tests/second.rs",
                r"
#[test]
fn should_validate_second_file() {
    let input = 2;
    let actual = second(input);

    assert_eq!(actual, 2);
}
",
            ),
        ],
    );

    // Assert
    assert_eq!(exit_code(&report), 0);
    assert_eq!(report.summary.total_files, 2);
    assert_eq!(report.summary.total_tests, 2);
    assert_eq!(report.summary.findings, 0);
}

#[test]
fn should_exit_two_with_incomplete_report_when_timeout_expires() {
    // Arrange
    assert!(deadline_expired(0, Some(0)));

    // Act
    let report = RunFailure::Expired { timeout: Some(0) }.report(VERSION);

    // Assert
    assert_eq!(exit_code(&report), 2);
    assert_eq!(report.status, ReportStatus::Incomplete);
    assert!(!report.errors.is_empty());
    assert!(report
        .errors
        .iter()
        .any(|error| error.code.contains("timeout")));
}

#[test]
fn should_exit_two_and_report_invalid_configuration() {
    // Arrange
    let policy = TestPolicyConfig {
        aaa_min_lines: 0,
        ..TestPolicyConfig::default()
    };

    // Act
    let error = validate(&policy).expect_err("reject policy");
    let report = RunFailure::Policy {
        error: error.message(".cntryl/repository.toml"),
    }
    .report(VERSION);

    // Assert
    assert_eq!(exit_code(&report), 2);
    assert_eq!(report.status, ReportStatus::Incomplete);
    assert!(report
        .errors
        .iter()
        .any(|error| error.code == "config.invalid"));
}

#[test]
fn should_report_what_no_exemption_lets_off() {
    // Arrange
    let exempting = |rules: &[&str]| TestPolicyConfig {
        exemptions: rules
            .iter()
            .map(
                |rule| cntryl_tools::validate_tests::config::TestExemption {
                    rule_id: rule.to_string(),
                    path: "src/lib.rs".to_string(),
                    test: "reports_anything".to_string(),
                    reason: "known".to_string(),
                },
            )
            .collect(),
        ..TestPolicyConfig::default()
    };
    let all = run(&[("src/lib.rs", VACUOUS)]);
    let rules: Vec<&str> = all
        .findings
        .iter()
        .map(|finding| finding.rule_id.as_str())
        .collect();

    // Act
    let some = run_with(&exempting(&rules[..1]), &[("src/lib.rs", VACUOUS)]);
    let none = run_with(&exempting(&rules), &[("src/lib.rs", VACUOUS)]);

    // Assert
    assert!(rules.len() > 1);
    assert_eq!(some.findings.len() + some.exemptions.len(), rules.len());
    assert_eq!(some.exemptions.len(), 1);
    assert_eq!(some.summary.applied_exemptions, 1);
    assert_eq!(exit_code(&some), 1);
    assert_eq!(none.exemptions.len(), rules.len());
    assert_eq!(exit_code(&none), 0);
}
