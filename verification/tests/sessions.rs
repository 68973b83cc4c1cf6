use cntryl_tools::validate_tests::config::TestPolicyConfig;
use cntryl_tools::validate_tests::model::ReportStatus;
use cntryl_tools::validate_tests::report::{exit_code, human_streams};
use cntryl_tools::validate_tests::{
    alternate_name, enters, expire, lexical_normalize, note_write_failures, operational_failure,
    order_files, relative_path, replace_failure, report_paths_collide, write_failure, FilePath,
    InputError, PathPart, ReportFormat, ReportPathParts, ReportPaths, ReportTarget, RunFailure,
    Session,
};

const VERSION: &str = "0.1.0";

const GOOD: &str = "
#[test]
fn should_add() {
    // Arrange
    let left = 1;
    // Act
    let sum = add(left, 2);
    // Assert
    assert_eq!(sum, 3);
}
";

const BAD: &str = "
#[test]
fn adds() {
    let sum = add(1, 2);
}
";

fn session(sources: &[(&str, &str)]) -> Session {
    let policy = TestPolicyConfig::default();
    let mut session = Session::new();
    for (path, source) in sources {
        assert!(session.add_source(path, source, &policy));
    }
    session
}

#[test]
fn should_report_a_clean_run() {
    let policy = TestPolicyConfig::default();
    let report = session(&[("src/lib.rs", GOOD)]).close(&policy, false, None, VERSION);
    assert_eq!(report.status, ReportStatus::Complete);
    assert_eq!(exit_code(&report), 0);
    assert_eq!(report.summary.total_files, 1);
    assert_eq!(report.summary.total_tests, 1);
    assert_eq!(report.summary.fully_analyzed_tests, 1);
    assert_eq!(report.summary.findings, 0);
    assert_eq!(report.tool.name, "cntryl-tools");
    assert_eq!(report.tool.version, VERSION);
}

#[test]
fn should_count_tests_with_findings_once() {
    let policy = TestPolicyConfig::default();
    let report =
        session(&[("src/b.rs", BAD), ("src/a.rs", BAD)]).close(&policy, false, None, VERSION);
    assert_eq!(exit_code(&report), 1);
    assert_eq!(report.summary.tests_with_findings, 2);
    assert!(report.summary.findings > 2);
    assert_eq!(report.findings[0].primary.path, "src/a.rs");
}

#[test]
fn should_be_incomplete_without_tests() {
    let policy = TestPolicyConfig::default();
    let report = session(&[("src/lib.rs", "fn main() {}")]).close(&policy, false, None, VERSION);
    assert_eq!(report.errors[0].code, "input.no-tests");
    assert_eq!(exit_code(&report), 2);
}

#[test]
fn should_stop_at_sources_that_do_not_parse() {
    let policy = TestPolicyConfig::default();
    let mut session = Session::new();
    assert!(!session.add_source("src/lib.rs", "fn (", &policy));
    let report = session.close(&policy, false, None, VERSION);
    assert_eq!(report.errors.len(), 1);
    assert_eq!(report.errors[0].code, "input.parse-failed");
    assert!(report.errors[0]
        .message
        .starts_with("failed to parse src/lib.rs: "));
}

#[test]
fn should_note_sources_that_cannot_be_read() {
    let policy = TestPolicyConfig::default();
    let mut session = Session::new();
    session.read_failed("src/lib.rs", "denied");
    let report = session.close(&policy, false, None, VERSION);
    assert_eq!(report.errors[0].code, "input.read-failed");
    assert_eq!(report.errors[0].message, "failed to read src/lib.rs: denied");
}

#[test]
fn should_note_the_end_of_the_time_once() {
    let policy = TestPolicyConfig::default();
    let mut running = session(&[("src/lib.rs", GOOD)]);
    assert!(running.goes_on(false, Some(250)));
    assert!(!running.goes_on(true, Some(250)));
    let mut report = running.close(&policy, true, Some(250), VERSION);
    expire(&mut report, Some(250));
    assert_eq!(report.errors.len(), 1);
    assert_eq!(
        report.errors[0].message,
        "test analysis exceeded its explicit 250ms deadline"
    );
    assert_eq!(exit_code(&report), 2);

    let mut complete = session(&[("src/lib.rs", GOOD)]).close(&policy, false, None, VERSION);
    expire(&mut complete, Some(250));
    assert_eq!(complete.status, ReportStatus::Incomplete);
}

#[test]
fn should_account_for_every_file_when_the_time_ends() {
    let policy = TestPolicyConfig::default();
    let given = [("src/a.rs", GOOD), ("src/b.rs", BAD), ("src/c.rs", GOOD)];
    let mut running = Session::new();
    let mut reached = 0;
    for (path, source) in given {
        if !running.goes_on(reached == 2, Some(250)) {
            break;
        }
        assert!(running.add_source(path, source, &policy));
        reached += 1;
    }
    let mut report = running.close(&policy, true, Some(250), VERSION);
    let counted = (
        report.summary.total_files,
        report.summary.total_tests,
        report.summary.fully_analyzed_tests,
    );
    assert_eq!(report.summary.total_files, 2);
    assert_eq!(report.summary.total_tests, 2);
    assert!(report.summary.fully_analyzed_tests <= report.summary.total_tests);
    let findings = report.findings.len();
    expire(&mut report, Some(250));
    assert_eq!(report.errors.len(), 1);
    assert_eq!(report.findings.len(), findings);
    assert_eq!(
        counted,
        (
            report.summary.total_files,
            report.summary.total_tests,
            report.summary.fully_analyzed_tests,
        )
    );
    assert_eq!(exit_code(&report), 2);
}

#[test]
fn should_account_for_every_file_when_one_fails() {
    let policy = TestPolicyConfig::default();
    let mut running = session(&[("src/a.rs", GOOD)]);
    assert!(running.goes_on(false, Some(250)));
    running.read_failed("src/b.rs", "denied");
    let report = running.close(&policy, false, Some(250), VERSION);
    assert_eq!(report.summary.total_files, 1);
    assert_eq!(report.errors.len(), 1);
    assert_eq!(report.errors[0].code, "input.read-failed");
}

#[test]
fn should_fail_with_code_two() {
    let report = operational_failure("config.invalid", "no policy", VERSION);
    assert_eq!(exit_code(&report), 2);
    assert_eq!(report.errors[0].code, "config.invalid");
    let (body, diagnostics) = human_streams(&report);
    assert!(!body.contains("config.invalid"));
    assert!(diagnostics.contains("config.invalid"));
}

#[test]
fn should_note_reports_that_cannot_be_written() {
    let policy = TestPolicyConfig::default();
    let mut report = session(&[("src/lib.rs", GOOD)]).close(&policy, false, None, VERSION);
    note_write_failures(&mut report, &Vec::new());
    assert_eq!(report.status, ReportStatus::Complete);

    let target = ReportTarget {
        format: ReportFormat::Sarif,
        path: "out.sarif".to_string(),
    };
    let failure = write_failure(&target, "disk full");
    assert_eq!(failure, "failed to emit SARIF report out.sarif: disk full");
    note_write_failures(&mut report, &vec![failure]);
    assert_eq!(report.status, ReportStatus::Incomplete);
    assert_eq!(report.errors[0].code, "report.write-failed");
    assert_eq!(
        replace_failure(&target, "disk full", Some("denied")),
        "failed to replace SARIF report out.sarif with an incomplete report: disk full; also failed to remove the stale report: denied"
    );
    assert_eq!(
        replace_failure(&target, "disk full", None),
        "failed to replace SARIF report out.sarif with an incomplete report: disk full"
    );
}

#[test]
fn should_write_the_native_report_first() {
    let paths = ReportPaths {
        json: Some("a.json".to_string()),
        sarif: Some("a.sarif".to_string()),
    };
    let targets = paths.targets();
    assert_eq!(targets.len(), 2);
    assert_eq!(targets[0].format.name(), "JSON");
    assert_eq!(targets[1].format.name(), "SARIF");
}

fn names(parts: &[&str]) -> Vec<String> {
    parts.iter().map(|part| part.to_string()).collect()
}

#[test]
fn should_order_files_and_drop_repeats() {
    let files = [["src", "b.rs"], ["src", "a.rs"], ["src", "b.rs"]];
    let ordered = order_files(
        files
            .iter()
            .map(|file| FilePath {
                components: names(file),
            })
            .collect(),
    );
    let paths: Vec<String> = ordered.iter().map(relative_path).collect();
    assert_eq!(paths, vec!["src/a.rs", "src/b.rs"]);
}

#[test]
fn should_skip_build_output_and_hidden_directories() {
    assert!(enters(0, "target"));
    assert!(!enters(1, "target"));
    assert!(!enters(1, ".git"));
    assert!(enters(1, "src"));
}

#[test]
fn should_resolve_dots_in_paths() {
    let name = |text: &str| PathPart::Name(text.to_string());
    let parts = lexical_normalize(vec![
        PathPart::Root("/".to_string()),
        PathPart::Parent,
        name("a"),
        PathPart::Current,
        name("b"),
        PathPart::Parent,
        name("c"),
    ]);
    let shown: Vec<String> = parts
        .iter()
        .map(|part| match part {
            PathPart::Root(text) | PathPart::Name(text) => text.clone(),
            PathPart::Current => ".".to_string(),
            PathPart::Parent => "..".to_string(),
        })
        .collect();
    assert_eq!(shown, vec!["/", "a", "c"]);
}

#[test]
fn should_tell_reports_that_would_overwrite_each_other() {
    let parts = |missing: &[&str]| ReportPathParts {
        existing: names(&["/", "repo"]),
        missing: names(missing),
    };
    assert!(report_paths_collide(&parts(&["a.json"]), &parts(&["a.json"]), false));
    assert!(!report_paths_collide(&parts(&["a.json"]), &parts(&["A.json"]), false));
    assert!(report_paths_collide(&parts(&["a.json"]), &parts(&["A.json"]), true));
}

#[test]
fn should_vary_the_case_of_a_name() {
    assert_eq!(alternate_name("Repo"), Some("repo".to_string()));
    assert_eq!(alternate_name("1repo"), Some("1Repo".to_string()));
    assert_eq!(alternate_name("123"), None);
}

#[test]
fn should_say_why_inputs_cannot_be_used() {
    let path = || "src/main.c".to_string();
    for (error, message) in [
        (
            InputError::DeadlineDuringDiscovery,
            "test analysis deadline exceeded during source discovery",
        ),
        (
            InputError::DeadlineDuringSelection,
            "test analysis deadline exceeded while resolving selected files",
        ),
        (
            InputError::NotRust { path: path() },
            "test-validation input must be a Rust source file: src/main.c",
        ),
        (
            InputError::Outside {
                path: path(),
                root: "/repo".to_string(),
            },
            "test-validation input src/main.c is outside repository root /repo",
        ),
        (
            InputError::Unresolved { path: path() },
            "failed to resolve test-validation input src/main.c",
        ),
        (
            InputError::WalkFailed {
                root: "src".to_string(),
            },
            "failed while walking source root src",
        ),
        (
            InputError::NoFiles,
            "no Rust source files found under the selected inputs",
        ),
    ] {
        assert_eq!(error.message(), message);
    }
}

#[test]
fn should_say_why_a_validation_cannot_be_carried_out() {
    for (failure, code, message) in [
        (
            RunFailure::UnresolvedRoot {
                root: "x".to_string(),
                error: "gone".to_string(),
            },
            "input.read-failed",
            "failed to resolve repository root x: gone",
        ),
        (
            RunFailure::CollidingReports,
            "input.invalid",
            "--json and --sarif must use different output paths",
        ),
        (
            RunFailure::RootIsNoDirectory {
                root: "x".to_string(),
            },
            "input.invalid",
            "repository root is not a directory: x",
        ),
        (
            RunFailure::of_inputs("no files".to_string(), true, Some(2_000)),
            "analysis.timeout",
            "test analysis exceeded its explicit 2s deadline",
        ),
        (
            RunFailure::of_inputs("no files".to_string(), false, Some(2_000)),
            "input.invalid",
            "no files",
        ),
        (
            RunFailure::Policy {
                error: "bad".to_string(),
            },
            "config.invalid",
            "bad",
        ),
    ] {
        let report = failure.report(VERSION);
        assert_eq!(report.errors[0].code, code);
        assert_eq!(report.errors[0].message, message);
        assert_eq!(exit_code(&report), 2);
    }
}

#[test]
fn should_report_one_finding_for_each_rule_in_order() {
    let policy = TestPolicyConfig::default();
    let report = session(&[("src/it's.rs", BAD)]).close(&policy, false, None, VERSION);
    let rules: Vec<&str> = report
        .findings
        .iter()
        .map(|finding| finding.rule_id.as_str())
        .collect();
    let mut ordered = rules.clone();
    ordered.sort_unstable();
    ordered.dedup();
    assert_eq!(rules, ordered);
    for finding in &report.findings {
        assert_eq!(finding.primary.path, "src/it's.rs");
        assert_eq!(finding.test.qualified_name, "adds");
        assert_eq!(
            finding.remediation.rerun,
            "cntryl-tools validate-tests -f 'src/it'\"'\"'s.rs'"
        );
        assert!(finding.fingerprint.starts_with("sha256:"));
        assert_eq!(finding.fingerprint.len(), "sha256:".len() + 64);
    }
}

#[test]
fn should_add_up_fully_and_partially_analyzed_tests() {
    // Arrange
    let open = "
#[test]
fn should_check() {
    let value = make();
    custom_check!(value);
    assert_custom(value);
}
";
    let policy = TestPolicyConfig::default();

    // Act
    let report = session(&[("src/a.rs", GOOD), ("src/b.rs", open), ("src/c.rs", open)])
        .close(&policy, false, None, VERSION);

    // Assert
    assert_eq!(report.summary.total_tests, 3);
    assert_eq!(report.summary.partially_analyzed_tests, 2);
    assert_eq!(report.summary.fully_analyzed_tests, 1);
}

#[test]
fn should_report_tests_in_any_order_alike() {
    // Arrange
    let policy = TestPolicyConfig::default();

    // Act
    let forward = session(&[("src/a.rs", BAD), ("src/b.rs", GOOD), ("src/c.rs", BAD)])
        .close(&policy, false, None, VERSION);
    let backward = session(&[("src/c.rs", BAD), ("src/b.rs", GOOD), ("src/a.rs", BAD)])
        .close(&policy, false, None, VERSION);

    // Assert
    assert_eq!(human_streams(&forward), human_streams(&backward));
    assert_eq!(forward.findings.len(), backward.findings.len());
    for (left, right) in forward.findings.iter().zip(&backward.findings) {
        assert_eq!(left.fingerprint, right.fingerprint);
        assert_eq!(left.primary.path, right.primary.path);
    }
}
