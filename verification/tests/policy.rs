use cntryl_tools::validate_tests::config::{
    absent_policy, is_safe_relative_path, normalize_path, validate, PolicyError, TestExemption,
    TestPolicyConfig,
};

fn exemption(rule_id: &str, path: &str, test: &str, reason: &str) -> TestExemption {
    TestExemption {
        rule_id: rule_id.to_string(),
        path: path.to_string(),
        test: test.to_string(),
        reason: reason.to_string(),
    }
}

fn policy_with(exemptions: Vec<TestExemption>) -> TestPolicyConfig {
    TestPolicyConfig {
        exemptions,
        ..TestPolicyConfig::default()
    }
}

#[test]
fn should_reject_broad_exemption() {
    // Arrange
    let policy = policy_with(vec![exemption(
        "HYG*",
        "src/lib.rs",
        "should_use_clock",
        "clock behavior",
    )]);

    // Act
    let error = validate(&policy).expect_err("reject broad exemption");

    // Assert
    assert!(error.message("policy.toml").contains("exact rule"));
}

#[test]
fn should_use_default_policy_when_config_is_absent() {
    // Act
    let config = absent_policy(false).expect("load default policy");

    // Assert
    assert_eq!(config, TestPolicyConfig::default());
}

#[test]
fn should_reject_missing_explicit_policy() {
    // Act
    let error = absent_policy(true).expect_err("reject missing explicit policy");

    // Assert
    assert!(error.message("missing.toml").contains("does not exist"));
}

#[test]
fn should_accept_the_default_policy() {
    assert_eq!(validate(&TestPolicyConfig::default()), Ok(()));
}

#[test]
fn should_reject_faulty_policies() {
    let mut no_roots = TestPolicyConfig::default();
    no_roots.source_roots = Vec::new();
    assert_eq!(validate(&no_roots), Err(PolicyError::EmptySourceRoots));

    let mut outside = TestPolicyConfig::default();
    outside.source_roots = vec!["../src".to_string()];
    assert_eq!(validate(&outside), Err(PolicyError::UnsafeSourceRoot));

    let mut no_lines = TestPolicyConfig::default();
    no_lines.aaa_min_lines = 0;
    assert_eq!(validate(&no_lines), Err(PolicyError::ZeroMinimumLines));

    let incomplete = policy_with(vec![exemption("rule", "src/lib.rs", "test", " ")]);
    assert_eq!(validate(&incomplete), Err(PolicyError::IncompleteExemption));

    let inexact = policy_with(vec![exemption("rule", "src/*.rs", "test", "reason")]);
    assert_eq!(validate(&inexact), Err(PolicyError::InexactExemption));
}

#[test]
fn should_reject_repeated_exemptions() {
    let policy = policy_with(vec![
        exemption("hygiene.random", "src/lib.rs", "should_roll", "one"),
        exemption("hygiene.random", "./src/lib.rs", "should_roll", "two"),
    ]);
    assert!(validate(&policy).is_err());
}

#[test]
fn should_match_names_by_their_last_segment() {
    let policy = TestPolicyConfig::default();
    assert!(policy.matches_assertion_macro("pretty_assertions::assert_eq"));
    assert!(policy.matches_test_attribute("tokio::test"));
    assert!(!policy.matches_assertion_macro("assert_equal"));
}

#[test]
fn should_normalize_paths_once_and_for_all() {
    for (path, expected) in [
        ("./src/lib.rs", "src/lib.rs"),
        ("././src\\lib.rs", "src/lib.rs"),
        (".\\src", "src"),
        ("src", "src"),
    ] {
        assert_eq!(normalize_path(path), expected);
        assert_eq!(normalize_path(&normalize_path(path)), expected);
    }
}

#[test]
fn should_tell_safe_paths() {
    for path in ["src", "src/lib.rs", "./src"] {
        assert!(is_safe_relative_path(path), "{path}");
    }
    for path in ["", " ", "/src", "\\src", "../src", "src/../.."] {
        assert!(!is_safe_relative_path(path), "{path}");
    }
}

#[test]
fn should_find_exact_exemptions_only() {
    let policy = policy_with(vec![exemption(
        "hygiene.random",
        "src/lib.rs",
        "tests::should_roll",
        "dice",
    )]);
    assert!(policy
        .exemption("hygiene.random", "./src/lib.rs", "tests::should_roll")
        .is_some());
    assert!(policy
        .exemption("hygiene.random", "src/lib.rs", "should_roll")
        .is_none());
    assert!(policy
        .exemption("hygiene.sleep", "src/lib.rs", "tests::should_roll")
        .is_none());
}
