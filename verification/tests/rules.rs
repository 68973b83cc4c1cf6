use cntryl_tools::validate_tests::rules::{
    evaluate, ENVIRONMENT, ERROR_UNINSPECTED_INTENT_GAP, FIXED_SLEEP, IGNORE_MISSING_REASON,
    INTERACTION_ONLY_INTENT_GAP, NAMING_SHOULD_PREFIX, ORACLE_DISCONNECTED, ORACLE_MISSING,
    ORACLE_VACUOUS, PANIC_MISSING_EXPECTED, RANDOM, SELF_DERIVED_INTENT_GAP, WALL_CLOCK,
};
use cntryl_tools::validate_tests::config::{TestExemption, TestPolicyConfig};
use cntryl_tools::validate_tests::rust::analyze_source;

fn findings(source: &str) -> Vec<String> {
    let policy = TestPolicyConfig::default();
    let tests = analyze_source("src/lib.rs", source, &policy).expect("analyze Rust test");
    evaluate(&tests, &policy)
        .findings
        .into_iter()
        .map(|finding| finding.rule_id)
        .collect()
}

fn analysis_codes(source: &str) -> Vec<String> {
    let policy = TestPolicyConfig::default();
    let tests = analyze_source("src/lib.rs", source, &policy).expect("analyze Rust test");
    let mut codes: Vec<_> = tests
        .iter()
        .flat_map(|test| test.gaps.iter().map(|gap| gap.code.clone()))
        .collect();
    codes.extend(
        evaluate(&tests, &policy)
            .analysis_gaps
            .into_iter()
            .map(|gap| gap.code),
    );
    codes
}

#[test]
fn should_reject_disconnected_oracle() {
    // Arrange
    let source = r#"
#[test]
fn should_return_created() {
    // Arrange
    let expected = 201;
    // Act
    let response = create_record();
    // Assert
    assert_eq!(expected, 201);
}
"#;

    // Act
    let rules = findings(source);

    // Assert
    assert!(rules.iter().any(|rule| rule == ORACLE_DISCONNECTED));
}

#[test]
fn should_accept_oracle_connected_to_act_result() {
    // Arrange
    let source = r#"
#[test]
fn should_return_created() {
    // Arrange
    let expected = 201;
    // Act
    let response = create_record();
    // Assert
    assert_eq!(response.status(), expected);
}
"#;

    // Act
    let rules = findings(source);

    // Assert
    assert!(!rules.iter().any(|rule| rule == ORACLE_DISCONNECTED));
}

#[test]
fn should_accept_oracle_connected_through_act_assignment() {
    // Arrange
    let source = r#"
#[test]
fn should_return_created() {
    // Arrange
    let mut response = 0;
    // Act
    response = create_record();
    // Assert
    assert_eq!(response, 201);
}
"#;

    // Act
    let rules = findings(source);

    // Assert
    assert!(!rules.iter().any(|rule| rule == ORACLE_DISCONNECTED));
}

#[test]
fn should_treat_equality_operands_symmetrically_for_causality() {
    // Arrange
    let source = r#"
#[test]
fn should_return_created() {
    // Arrange
    let expected = 201;
    // Act
    let actual = create_record();
    // Assert
    assert_eq!(expected, actual);
}
"#;

    // Act
    let rules = findings(source);

    // Assert
    assert!(!rules.iter().any(|rule| rule == ORACLE_DISCONNECTED));
}

#[test]
fn should_connect_named_snapshot_to_the_act_output() {
    // Arrange
    let source = r#"
#[test]
fn should_match_snapshot() {
    // Arrange
    let snapshot_name = "created";
    // Act
    let actual = create_record();
    // Assert
    assert_snapshot!(snapshot_name, actual);
}
"#;

    // Act
    let rules = findings(source);

    // Assert
    assert!(!rules.iter().any(|rule| rule == ORACLE_DISCONNECTED));
}

#[test]
fn should_not_treat_arrange_precondition_as_post_act_oracle() {
    // Arrange
    let source = r#"
#[test]
fn should_mutate_state() {
    // Arrange
    let mut state = Vec::new();
    assert!(state.is_empty());
    // Act
    mutate(&mut state);
    // Assert
    log_completion();
}
"#;

    // Act
    let rules = findings(source);

    // Assert
    assert!(rules.iter().any(|rule| rule == ORACLE_MISSING));
}

#[test]
fn should_not_treat_immutable_act_argument_as_effect_carrier() {
    // Arrange
    let source = r#"
#[test]
fn should_transform_input() {
    // Arrange
    let input = 42;
    // Act
    let actual = transform(input);
    // Assert
    assert_eq!(input, 42);
}
"#;

    // Act
    let rules = findings(source);

    // Assert
    assert!(rules.iter().any(|rule| rule == ORACLE_DISCONNECTED));
}

#[test]
fn should_not_treat_constant_bound_in_act_as_production_output() {
    // Arrange
    let source = r#"
#[test]
fn should_create_record() {
    // Arrange
    let expected = 201;
    // Act
    create_record();
    let unrelated = expected;
    // Assert
    assert_eq!(unrelated, 201);
}
"#;

    // Act
    let rules = findings(source);

    // Assert
    assert!(rules.iter().any(|rule| rule == ORACLE_DISCONNECTED));
}

#[test]
fn should_connect_mutable_act_argument_as_effect_carrier() {
    // Arrange
    let source = r#"
#[test]
fn should_append_value() {
    // Arrange
    let mut state = Vec::new();
    // Act
    append_value(&mut state);
    // Assert
    assert_eq!(state.len(), 1);
}
"#;

    // Act
    let rules = findings(source);

    // Assert
    assert!(!rules.iter().any(|rule| rule == ORACLE_DISCONNECTED));
}

#[test]
fn should_leave_method_receiver_effect_as_analysis_gap() {
    // Arrange
    let source = r#"
#[test]
fn should_append_value() {
    // Arrange
    let mut state = Vec::new();
    // Act
    state.push(42);
    // Assert
    assert_eq!(state.len(), 1);
}
"#;
    let policy = TestPolicyConfig::default();

    // Act
    let tests = analyze_source("src/lib.rs", source, &policy).expect("analyze Rust test");
    let evaluation = evaluate(&tests, &policy);

    // Assert
    assert!(tests[0]
        .gaps
        .iter()
        .any(|gap| gap.code == "analysis.receiver-effect-causality"));
    assert!(!evaluation
        .findings
        .iter()
        .any(|finding| finding.rule_id == ORACLE_DISCONNECTED));
}

#[test]
fn should_not_let_unrelated_gap_hide_resolved_disconnected_oracle() {
    // Arrange
    let source = r#"
#[test]
fn should_return_created() {
    // Arrange
    let expected = 201;
    // Act
    let actual = create_record();
    // Assert
    diagnostic!();
    assert_eq!(expected, 201);
}
"#;

    // Act
    let rules = findings(source);

    // Assert
    assert!(rules.iter().any(|rule| rule == ORACLE_DISCONNECTED));
}

#[test]
fn should_scope_conditional_oracle_uncertainty_as_analysis_gap() {
    // Arrange
    let source = r#"
#[test]
fn should_observe_optional_result() {
    // Arrange
    let enabled = false;
    // Act
    let actual = operation();
    // Assert
    if enabled {
        assert_eq!(actual, 42);
    }
}
"#;
    let policy = TestPolicyConfig::default();

    // Act
    let tests = analyze_source("src/lib.rs", source, &policy).expect("analyze Rust test");
    let evaluation = evaluate(&tests, &policy);

    // Assert
    assert!(tests[0]
        .gaps
        .iter()
        .any(|gap| gap.code == "analysis.conditional-oracle"));
    assert!(!evaluation
        .findings
        .iter()
        .any(|finding| finding.rule_id == ORACLE_MISSING));
}

#[test]
fn should_reject_vacuous_oracle() {
    // Arrange
    let source = r#"
#[test]
fn should_validate_result() {
    assert!(true);
}
"#;

    // Act
    let rules = findings(source);

    // Assert
    assert!(rules.iter().any(|rule| rule == ORACLE_VACUOUS));
}

#[test]
fn should_reject_boolean_self_comparison_but_not_assert_ne() {
    // Arrange
    let self_comparison = r#"
#[test]
fn should_validate_result() {
    assert!(true == true);
}
"#;
    let assert_ne = r#"
#[test]
fn should_validate_distinct_results() {
    let first = operation();
    let second = another_operation();
    assert_ne!(first, second);
}
"#;

    // Act
    let self_comparison_rules = findings(self_comparison);
    let assert_ne_rules = findings(assert_ne);

    // Assert
    assert!(self_comparison_rules
        .iter()
        .any(|rule| rule == ORACLE_VACUOUS));
    assert!(!assert_ne_rules.iter().any(|rule| rule == ORACLE_VACUOUS));
}

#[test]
fn should_leave_local_self_comparison_as_analysis_gap() {
    // Arrange
    let source = r#"
#[test]
fn should_validate_result() {
    let actual = operation();
    assert!(actual == actual);
}
"#;
    let policy = TestPolicyConfig::default();

    // Act
    let tests = analyze_source("src/lib.rs", source, &policy).expect("analyze Rust test");
    let evaluation = evaluate(&tests, &policy);

    // Assert
    assert!(tests[0]
        .gaps
        .iter()
        .any(|gap| gap.code == "analysis.possible-self-comparison"));
    assert!(!evaluation
        .findings
        .iter()
        .any(|finding| finding.rule_id == ORACLE_VACUOUS));
}

#[test]
fn should_not_call_repeated_effectful_expressions_vacuous() {
    // Arrange
    let source = r#"
#[test]
fn should_compare_two_queue_items() {
    assert_eq!(queue.pop(), queue.pop());
}
"#;

    // Act
    let rules = findings(source);

    // Assert
    assert!(!rules.iter().any(|rule| rule == ORACLE_VACUOUS));
}

#[test]
fn should_reject_uninspected_error() {
    // Arrange
    let source = r#"
#[test]
fn should_reject_missing_schema() {
    assert!(load_artifact().is_err());
}
"#;

    // Act
    let codes = analysis_codes(source);

    // Assert
    assert!(codes
        .iter()
        .any(|code| code == ERROR_UNINSPECTED_INTENT_GAP));
}

#[test]
fn should_reject_wildcard_error_match() {
    // Arrange
    let source = r#"
#[test]
fn should_reject_missing_schema() {
    let result = load_artifact();
    assert!(matches!(result, Err(_)));
}
"#;

    // Act
    let codes = analysis_codes(source);

    // Assert
    assert!(codes
        .iter()
        .any(|code| code == ERROR_UNINSPECTED_INTENT_GAP));
}

#[test]
fn should_reject_wildcard_error_match_statement() {
    // Arrange
    let source = r#"
#[test]
fn should_reject_missing_schema() {
    // Arrange
    let path = "missing";
    // Act
    let result = load_artifact(path);
    // Assert
    match result {
        Err(_) => {}
        Ok(_) => panic!("expected an error"),
    }
}
"#;

    // Act
    let codes = analysis_codes(source);

    // Assert
    assert!(codes
        .iter()
        .any(|code| code == ERROR_UNINSPECTED_INTENT_GAP));
}

#[test]
fn should_accept_error_payload_inspected_inside_match_arm() {
    // Arrange
    let source = r#"
#[test]
fn should_reject_missing_schema() {
    // Arrange
    let path = "missing";
    // Act
    let result = load_artifact(path);
    // Assert
    match result {
        Err(error) => assert_eq!(error.code(), "missing_schema"),
        Ok(_) => panic!("expected an error"),
    }
}
"#;

    // Act
    let codes = analysis_codes(source);

    // Assert
    assert!(!codes
        .iter()
        .any(|code| code == ERROR_UNINSPECTED_INTENT_GAP));
}

#[test]
fn should_not_let_unrelated_outcome_hide_broad_error_check() {
    // Arrange
    let source = r#"
#[test]
fn should_reject_missing_schema() {
    // Arrange
    let unrelated = 1;
    // Act
    let result = load_artifact();
    // Assert
    assert!(result.is_err());
    assert_eq!(unrelated, 1);
}
"#;

    // Act
    let codes = analysis_codes(source);

    // Assert
    assert!(codes
        .iter()
        .any(|code| code == ERROR_UNINSPECTED_INTENT_GAP));
}

#[test]
fn should_accept_precise_error_check_for_same_result() {
    // Arrange
    let source = r#"
#[test]
fn should_reject_missing_schema() {
    // Arrange
    let path = "missing";
    // Act
    let result = load_artifact(path);
    // Assert
    assert!(result.is_err());
    assert!(matches!(result, Err(Error::MissingSchema)));
}
"#;

    // Act
    let codes = analysis_codes(source);

    // Assert
    assert!(!codes
        .iter()
        .any(|code| code == ERROR_UNINSPECTED_INTENT_GAP));
}

#[test]
fn should_reject_literal_fixed_sleep() {
    // Arrange
    let source = r#"
#[test]
fn should_wait_for_ready() {
    std::thread::sleep(std::time::Duration::from_millis(50));
    assert!(service_is_ready());
}
"#;

    // Act
    let rules = findings(source);

    // Assert
    assert!(rules.iter().any(|rule| rule == FIXED_SLEEP));
}

#[test]
fn should_not_flag_unresolved_domain_apis_as_nondeterministic() {
    // Arrange
    let source = r#"
#[test]
fn should_observe_domain_state() {
    animal.sleep(50);
    let observed_at = FakeInstant::now();
    EnvGuard::set_var("MODE", "test");
    assert!(observed_at.is_recorded());
}
"#;

    // Act
    let rules = findings(source);

    // Assert
    assert!(!rules.iter().any(|rule| rule == FIXED_SLEEP));
    assert!(!rules.iter().any(|rule| rule == WALL_CLOCK));
    assert!(!rules.iter().any(|rule| rule == ENVIRONMENT));
}

#[test]
fn should_not_flag_watchdog_deadline_that_is_not_asserted() {
    // Arrange
    let source = r#"
#[test]
fn should_wait_until_ready() {
    // Arrange
    let mut ready = false;
    // Act
    let deadline = std::time::Instant::now() + std::time::Duration::from_secs(1);
    while std::time::Instant::now() < deadline {
        if service_is_ready() {
            ready = true;
            break;
        }
    }
    // Assert
    assert!(ready);
}
"#;

    // Act
    let rules = findings(source);

    // Assert
    assert!(!rules.iter().any(|rule| rule == WALL_CLOCK));
}

#[test]
fn should_reject_test_without_observable_oracle() {
    // Arrange
    let source = r#"
#[test]
fn should_write_record() {
    write_record();
}
"#;

    // Act
    let rules = findings(source);

    // Assert
    assert!(rules.iter().any(|rule| rule == ORACLE_MISSING));
}

#[test]
fn should_mark_markerless_call_after_setup_check_as_partial() {
    // Arrange
    let source = r#"
#[test]
fn should_run_operation() {
    fixture().unwrap();
    operation();
}
"#;
    let policy = TestPolicyConfig::default();

    // Act
    let tests = analyze_source("src/lib.rs", source, &policy).expect("analyze Rust test");

    // Assert
    assert!(tests[0]
        .gaps
        .iter()
        .any(|gap| gap.code == "analysis.ambiguous-markerless-phase"));
}

#[test]
fn should_mark_call_after_act_execution_check_as_partial() {
    // Arrange
    let source = r#"
#[test]
fn should_run_operation() {
    // Arrange
    let fixture = fixture();
    // Act
    fixture.unwrap();
    operation();
    // Assert
    log_completion();
}
"#;

    // Act
    let codes = analysis_codes(source);

    // Assert
    assert!(codes
        .iter()
        .any(|code| code == "analysis.ambiguous-act-causality"));
}

#[test]
fn should_mark_later_unobserved_act_call_as_partial() {
    // Arrange
    let source = r#"
#[test]
fn should_run_operation() {
    // Arrange
    let expected = 42;
    // Act
    let actual = operation();
    unobserved_operation();
    // Assert
    assert_eq!(actual, expected);
}
"#;

    // Act
    let codes = analysis_codes(source);

    // Assert
    assert!(codes
        .iter()
        .any(|code| code == "analysis.unobserved-later-act-call"));
}

#[test]
fn should_report_unknown_assertion_helper_as_analysis_gap() {
    // Arrange
    let source = r#"
#[test]
fn should_validate_domain_value() {
    let actual = operation();
    assert_domain_value(actual);
}
"#;
    let policy = TestPolicyConfig::default();

    // Act
    let tests = analyze_source("src/lib.rs", source, &policy).expect("analyze Rust test");
    let evaluation = evaluate(&tests, &policy);

    // Assert
    assert_eq!(
        tests[0].gaps[0].code,
        "analysis.unresolved-assertion-helper"
    );
    assert!(!evaluation
        .findings
        .iter()
        .any(|finding| finding.rule_id == ORACLE_MISSING));
}

#[test]
fn should_reject_unexplained_ignore_and_bare_should_panic() {
    // Arrange
    let source = r#"
#[test]
#[ignore]
#[should_panic]
fn should_panic_later() {
    panic!("specific invariant");
}
"#;

    // Act
    let rules = findings(source);

    // Assert
    assert!(rules.iter().any(|rule| rule == IGNORE_MISSING_REASON));
    assert!(rules.iter().any(|rule| rule == PANIC_MISSING_EXPECTED));
}

#[test]
fn should_reject_expected_value_built_with_act_callable() {
    // Arrange
    let source = r#"
#[test]
fn should_normalize_value() {
    // Arrange
    let input = " Value ";
    let want = normalize(input);
    // Act
    let actual = normalize(input);
    // Assert
    assert_eq!(actual, want);
}
"#;

    // Act
    let codes = analysis_codes(source);

    // Assert
    assert!(codes.iter().any(|code| code == SELF_DERIVED_INTENT_GAP));
}

#[test]
fn should_reject_self_derived_expected_with_reversed_equality_operands() {
    // Arrange
    let source = r#"
#[test]
fn should_normalize_value() {
    // Arrange
    let input = " Value ";
    let expected = normalize(input);
    // Act
    let actual = normalize(input);
    // Assert
    assert_eq!(expected, actual);
}
"#;

    // Act
    let codes = analysis_codes(source);

    // Assert
    assert!(codes.iter().any(|code| code == SELF_DERIVED_INTENT_GAP));
}

#[test]
fn should_allow_same_callable_with_independent_arguments() {
    // Arrange
    let source = r#"
#[test]
fn should_normalize_equivalent_values() {
    // Arrange
    let expected = normalize("value");
    // Act
    let actual = normalize(" value ");
    // Assert
    assert_eq!(actual, expected);
}
"#;

    // Act
    let codes = analysis_codes(source);

    // Assert
    assert!(!codes.iter().any(|code| code == SELF_DERIVED_INTENT_GAP));
}

#[test]
fn should_report_explicit_determinism_comparison_as_intent_gap() {
    // Arrange
    let source = r#"
#[test]
fn should_be_deterministic() {
    // Arrange
    let input = "value";
    let first = normalize(input);
    // Act
    let second = normalize(input);
    // Assert
    assert_eq!(first, second);
}
"#;

    // Act
    let codes = analysis_codes(source);

    // Assert
    assert!(codes.iter().any(|code| code == SELF_DERIVED_INTENT_GAP));
}

#[test]
fn should_connect_precise_matches_oracle_to_act_result() {
    // Arrange
    let source = r#"
#[test]
fn should_reject_missing_record() {
    // Arrange
    let key = "missing";
    // Act
    let result = load(key);
    // Assert
    assert!(matches!(result, Err(Error::MissingRecord)));
}
"#;

    // Act
    let rules = findings(source);
    let codes = analysis_codes(source);

    // Assert
    assert!(!rules.iter().any(|rule| rule == ORACLE_DISCONNECTED));
    assert!(!codes
        .iter()
        .any(|code| code == ERROR_UNINSPECTED_INTENT_GAP));
}

#[test]
fn should_accept_precise_match_with_unexpected_panic_branch() {
    // Arrange
    let source = r#"
#[test]
fn should_reject_missing_record() {
    // Arrange
    let key = "missing";
    // Act
    let result = load(key);
    // Assert
    match result {
        Err(Error::MissingRecord) => {}
        other => panic!("unexpected result: {other:?}"),
    }
}
"#;

    // Act
    let rules = findings(source);

    // Assert
    assert!(!rules.iter().any(|rule| rule == ORACLE_MISSING));
    assert!(!rules.iter().any(|rule| rule == ORACLE_DISCONNECTED));
}

#[test]
fn should_leave_indirect_external_observable_as_analysis_gap() {
    // Arrange
    let source = r#"
#[test]
fn should_publish_record() {
    // Arrange
    let publisher = start_publisher();
    let subscriber = connect_subscriber();
    // Act
    publisher.publish("record");
    // Assert
    assert_eq!(subscriber.receive(), "record");
}
"#;
    let policy = TestPolicyConfig::default();

    // Act
    let tests = analyze_source("src/lib.rs", source, &policy).expect("analyze Rust test");
    let evaluation = evaluate(&tests, &policy);

    // Assert
    assert!(tests[0]
        .gaps
        .iter()
        .any(|gap| gap.code == "analysis.indirect-causality"));
    assert!(!evaluation
        .findings
        .iter()
        .any(|finding| finding.rule_id == ORACLE_DISCONNECTED));
}

#[test]
fn should_reject_direct_uncontrolled_inputs() {
    // Arrange
    let source = r#"
#[test]
fn should_build_dynamic_input() {
    // Arrange
    std::env::set_var("MODE", "test");
    // Act
    let value = rand::random::<u64>();
    let observed_at = std::time::Instant::now();
    // Assert
    assert!(value > 0 && observed_at <= std::time::Instant::now());
}
"#;

    // Act
    let rules = findings(source);

    // Assert
    assert!(rules.iter().any(|rule| rule == ENVIRONMENT));
    assert!(rules.iter().any(|rule| rule == RANDOM));
    assert!(rules.iter().any(|rule| rule == WALL_CLOCK));
}

#[test]
fn should_require_outcome_when_configured_mock_is_only_oracle() {
    // Arrange
    let source = r#"
#[test]
fn should_deliver_record() {
    // Arrange
    let mock = make_mock();
    // Act
    deliver(&mock);
    // Assert
    mock.verify();
}
"#;
    let mut policy = TestPolicyConfig::default();
    policy.mock_interaction_methods.push("verify".into());

    // Act
    let tests = analyze_source("src/lib.rs", source, &policy).expect("analyze Rust test");
    let evaluation = evaluate(&tests, &policy);

    // Assert
    assert!(evaluation
        .analysis_gaps
        .iter()
        .any(|gap| gap.code == INTERACTION_ONLY_INTENT_GAP));
}

#[test]
fn should_not_let_arrange_helper_uncertainty_hide_missing_oracle() {
    // Arrange
    let source = r#"
#[test]
fn should_run_operation() {
    // Arrange
    assert_fixture_ready(true);
    // Act
    operation();
    // Assert
    log_completion();
}
"#;

    // Act
    let rules = findings(source);
    let codes = analysis_codes(source);

    // Assert
    assert!(codes
        .iter()
        .any(|code| code == "analysis.unresolved-assertion-helper"));
    assert!(rules.iter().any(|rule| rule == ORACLE_MISSING));
}

#[test]
fn should_scope_shared_reference_interior_mutation_as_analysis_gap() {
    // Arrange
    let source = r#"
#[test]
fn should_insert_record() {
    // Arrange
    let database = Database::new();
    // Act
    insert(&database, 42);
    // Assert
    assert_eq!(database.len(), 1);
}
"#;

    // Act
    let rules = findings(source);
    let codes = analysis_codes(source);

    // Assert
    assert!(codes
        .iter()
        .any(|code| code == "analysis.shared-reference-effect-causality"));
    assert!(!rules.iter().any(|rule| rule == ORACLE_DISCONNECTED));
}

#[test]
fn should_scope_implicit_format_capture_without_losing_explicit_format_causality() {
    // Arrange
    let implicit = r#"
#[test]
fn should_format_record() {
    // Arrange
    let expected = "created";
    // Act
    let actual = create_record();
    // Assert
    assert_eq!(format!("{actual}"), expected);
}
"#;
    let explicit = r#"
#[test]
fn should_format_record() {
    // Arrange
    let expected = "created";
    // Act
    let actual = create_record();
    // Assert
    assert_eq!(format!("{}", actual), expected);
}
"#;

    // Act
    let implicit_rules = findings(implicit);
    let implicit_codes = analysis_codes(implicit);
    let explicit_rules = findings(explicit);
    let explicit_codes = analysis_codes(explicit);

    // Assert
    assert!(implicit_codes
        .iter()
        .any(|code| code == "analysis.implicit-format-capture"));
    assert!(!implicit_rules
        .iter()
        .any(|rule| rule == ORACLE_DISCONNECTED));
    assert!(!explicit_codes
        .iter()
        .any(|code| code == "analysis.implicit-format-capture"));
    assert!(!explicit_rules
        .iter()
        .any(|rule| rule == ORACLE_DISCONNECTED));
}

#[test]
fn should_not_treat_assert_matches_pattern_binding_as_act_causality() {
    // Arrange
    let source = r#"
#[test]
fn should_match_created_record() {
    // Arrange
    let unrelated = Some(201);
    // Act
    let actual = create_record();
    // Assert
    assert_matches!(unrelated, Some(actual));
}
"#;

    // Act
    let rules = findings(source);

    // Assert
    assert!(rules.iter().any(|rule| rule == ORACLE_DISCONNECTED));
}

#[test]
fn should_resolve_direct_and_aliased_imports_for_hygiene_rules() {
    // Arrange
    let source = r#"
use rand::random;
use std::env::set_var;
use std::thread::sleep as delay;
use std::time::{Duration, Instant};

#[test]
fn should_build_dynamic_input() {
    // Arrange
    set_var("MODE", "test");
    // Act
    let value = random::<u64>();
    let observed_at = Instant::now();
    delay(Duration::from_millis(1));
    // Assert
    assert!(value > 0 && observed_at <= Instant::now());
}
"#;

    // Act
    let rules = findings(source);

    // Assert
    assert!(rules.iter().any(|rule| rule == ENVIRONMENT));
    assert!(rules.iter().any(|rule| rule == RANDOM));
    assert!(rules.iter().any(|rule| rule == WALL_CLOCK));
    assert!(rules.iter().any(|rule| rule == FIXED_SLEEP));
}

#[test]
fn should_not_expand_shadowed_import_and_should_gap_glob_hygiene() {
    // Arrange
    let shadowed = r#"
use std::thread::sleep;
use std::time::Duration;

#[test]
fn should_use_local_delay() {
    // Arrange
    let sleep = |_: Duration| {};
    // Act
    let actual = operation();
    sleep(Duration::from_millis(1));
    // Assert
    assert_eq!(actual, 42);
}
"#;
    let glob = r#"
use std::thread::*;
use std::time::Duration;

#[test]
fn should_wait_for_ready() {
    // Arrange
    let expected = true;
    // Act
    sleep(Duration::from_millis(1));
    let actual = service_is_ready();
    // Assert
    assert_eq!(actual, expected);
}
"#;
    let rebound = r#"
use std::time::Duration;

#[test]
fn should_wait_for_ready() {
    // Arrange
    let sleep = std::thread::sleep;
    // Act
    sleep(Duration::from_millis(1));
    let actual = service_is_ready();
    // Assert
    assert!(actual);
}
"#;
    let block_import = r#"
use std::time::Duration;

#[test]
fn should_wait_for_ready() {
    // Arrange
    let expected = true;
    // Act
    {
        use std::thread::sleep;
        sleep(Duration::from_millis(1));
    }
    let actual = service_is_ready();
    // Assert
    assert_eq!(actual, expected);
}
"#;
    let parameter_shadow = r#"
use std::thread::sleep;
use std::time::Duration;

#[rstest]
fn should_use_injected_delay(sleep: fn(Duration)) {
    // Arrange
    let expected = 42;
    // Act
    sleep(Duration::from_millis(1));
    let actual = operation();
    // Assert
    assert_eq!(actual, expected);
}
"#;
    let nested_type_shadow = r#"
use std::time::Instant;

mod nested {
    struct Instant;

    impl Instant {
        fn now() -> u64 { 42 }
    }

    #[test]
    fn should_use_domain_instant() {
        // Arrange
        let expected = 42;
        // Act
        let actual = Instant::now();
        // Assert
        assert_eq!(actual, expected);
    }
}
"#;
    let type_alias = r#"
type BaseClock = std::time::Instant;
type Clock = BaseClock;

#[test]
fn should_observe_runtime_clock() {
    // Arrange
    let expected = std::time::Instant::now();
    // Act
    let actual = Clock::now();
    // Assert
    assert!(actual >= expected);
}
"#;

    // Act
    let shadowed_rules = findings(shadowed);
    let glob_rules = findings(glob);
    let glob_codes = analysis_codes(glob);
    let rebound_rules = findings(rebound);
    let block_import_rules = findings(block_import);
    let parameter_shadow_rules = findings(parameter_shadow);
    let nested_type_shadow_rules = findings(nested_type_shadow);
    let type_alias_rules = findings(type_alias);

    // Assert
    assert!(!shadowed_rules.iter().any(|rule| rule == FIXED_SLEEP));
    assert!(!glob_rules.iter().any(|rule| rule == FIXED_SLEEP));
    assert!(glob_codes
        .iter()
        .any(|code| code == "analysis.unresolved-glob-import"));
    assert!(rebound_rules.iter().any(|rule| rule == FIXED_SLEEP));
    assert!(block_import_rules.iter().any(|rule| rule == FIXED_SLEEP));
    assert!(!parameter_shadow_rules
        .iter()
        .any(|rule| rule == FIXED_SLEEP));
    assert!(!nested_type_shadow_rules
        .iter()
        .any(|rule| rule == WALL_CLOCK));
    assert!(type_alias_rules.iter().any(|rule| rule == WALL_CLOCK));
}

#[test]
fn should_respect_pattern_and_block_item_shadowing_of_imported_hygiene_api() {
    // Arrange
    let source = r#"
use std::thread::sleep;
use std::time::Duration;

#[test]
fn should_use_injected_delays() {
    // Arrange
    let local_delay = |_: Duration| {};
    let mut delays = vec![local_delay as fn(Duration)].into_iter();
    // Act
    (|sleep: fn(Duration)| sleep(Duration::from_millis(1)))(local_delay);
    for sleep in [local_delay as fn(Duration)] {
        sleep(Duration::from_millis(1));
    }
    match Some(local_delay as fn(Duration)) {
        Some(sleep) => sleep(Duration::from_millis(1)),
        None => {}
    }
    if let Some(sleep) = Some(local_delay as fn(Duration)) {
        sleep(Duration::from_millis(1));
    }
    while let Some(sleep) = delays.next() {
        sleep(Duration::from_millis(1));
    }
    {
        fn sleep(_: Duration) {}
        sleep(Duration::from_millis(1));
    }
    let actual = operation();
    // Assert
    assert_eq!(actual, 42);
}
"#;

    // Act
    let rules = findings(source);

    // Assert
    assert!(!rules.iter().any(|rule| rule == FIXED_SLEEP));
}

#[test]
fn should_accept_literal_sleep_after_tokio_virtual_time_is_paused() {
    // Arrange
    let dynamic_pause = r#"
#[tokio::test]
async fn should_advance_virtual_time() {
    // Arrange
    tokio::time::pause();
    // Act
    tokio::time::sleep(std::time::Duration::from_millis(50)).await;
    let actual = operation();
    // Assert
    assert_eq!(actual, 42);
}
"#;
    let paused_alias = r#"
use tokio::test as async_test;

#[async_test(start_paused = true)]
async fn should_advance_virtual_time() {
    // Arrange
    let expected = 42;
    // Act
    tokio::time::sleep(std::time::Duration::from_millis(50)).await;
    let observed_at = tokio::time::Instant::now();
    let actual = operation();
    // Assert
    assert!(observed_at <= tokio::time::Instant::now());
    assert_eq!(actual, expected);
}
"#;
    let unpaused = r#"
#[tokio::test]
async fn should_observe_runtime_time() {
    // Arrange
    let expected = 42;
    // Act
    let observed_at = tokio::time::Instant::now();
    let actual = operation();
    // Assert
    assert!(observed_at <= tokio::time::Instant::now());
    assert_eq!(actual, expected);
}
"#;

    // Act
    let dynamic_pause_rules = findings(dynamic_pause);
    let paused_alias_rules = findings(paused_alias);
    let unpaused_rules = findings(unpaused);

    // Assert
    assert!(!dynamic_pause_rules.iter().any(|rule| rule == FIXED_SLEEP));
    assert!(!paused_alias_rules.iter().any(|rule| rule == FIXED_SLEEP));
    assert!(!paused_alias_rules.iter().any(|rule| rule == WALL_CLOCK));
    assert!(unpaused_rules.iter().any(|rule| rule == WALL_CLOCK));
}

#[test]
fn should_find_nested_broad_error_check_and_follow_extracted_payload() {
    // Arrange
    let broad = r#"
#[test]
fn should_reject_missing_record() {
    // Arrange
    let attempts = 1;
    // Act
    let result = load_record();
    // Assert
    assert!(result.is_err() && attempts == 1);
}
"#;
    let inspected = r#"
#[test]
fn should_reject_missing_record() {
    // Arrange
    let expected_code = "missing";
    // Act
    let result = load_record();
    // Assert
    assert!(result.is_err());
    let error = result.unwrap_err();
    assert_eq!(error.code(), expected_code);
}
"#;

    // Act
    let broad_codes = analysis_codes(broad);
    let inspected_codes = analysis_codes(inspected);

    // Assert
    assert!(broad_codes
        .iter()
        .any(|code| code == ERROR_UNINSPECTED_INTENT_GAP));
    assert!(!inspected_codes
        .iter()
        .any(|code| code == ERROR_UNINSPECTED_INTENT_GAP));
}

#[test]
fn should_reject_constant_true_disjunction() {
    // Arrange
    let source = r#"
#[test]
fn should_create_record() {
    // Arrange
    let expected = 201;
    // Act
    let actual = create_record();
    // Assert
    assert!(true || actual == expected);
}
"#;

    // Act
    let rules = findings(source);

    // Assert
    assert!(rules.iter().any(|rule| rule == ORACLE_VACUOUS));
}

#[test]
fn should_treat_non_unit_test_return_as_harness_oracle() {
    // Arrange
    let source = r#"
use std::process::ExitCode;

#[test]
fn should_report_command_success() -> ExitCode {
    run_command()
}
"#;

    // Act
    let rules = findings(source);

    // Assert
    assert!(!rules.iter().any(|rule| rule == ORACLE_MISSING));
}

#[test]
fn should_follow_mutable_reference_alias_as_act_effect() {
    // Arrange
    let source = r#"
#[test]
fn should_append_value() {
    // Arrange
    let mut state = Vec::new();
    let target = &mut state;
    // Act
    append_value(target);
    // Assert
    assert_eq!(state.len(), 1);
}
"#;

    // Act
    let rules = findings(source);

    // Assert
    assert!(!rules.iter().any(|rule| rule == ORACLE_DISCONNECTED));
}

#[test]
fn should_gap_unresolved_operator_and_markerless_causality() {
    // Arrange
    let operator = r#"
#[test]
fn should_add_counters() {
    // Arrange
    let left = Counter(1);
    let right = Counter(2);
    // Act
    let actual = left + right;
    // Assert
    assert_eq!(actual.0, 3);
}
"#;
    let markerless = r#"
#[test]
fn should_create_record() {
    let _actual = create_record();
    assert_eq!(2 + 2, 4);
}
"#;

    // Act
    let operator_rules = findings(operator);
    let operator_codes = analysis_codes(operator);
    let markerless_codes = analysis_codes(markerless);

    // Assert
    assert!(operator_codes
        .iter()
        .any(|code| code == "analysis.unresolved-act-computation"));
    assert!(!operator_rules
        .iter()
        .any(|rule| rule == ORACLE_DISCONNECTED));
    assert!(markerless_codes
        .iter()
        .any(|code| code == "analysis.ambiguous-markerless-causality"));
}

#[test]
fn should_apply_only_exact_reasoned_exemption() {
    // Arrange
    let source = r#"
#[test]
fn reports_anything() {
    assert!(true);
}
"#;
    let mut policy = TestPolicyConfig::default();
    policy.exemptions.push(TestExemption {
        rule_id: NAMING_SHOULD_PREFIX.into(),
        path: "src/lib.rs".into(),
        test: "reports_anything".into(),
        reason: "legacy externally referenced test name".into(),
    });

    // Act
    let tests = analyze_source("src/lib.rs", source, &policy).expect("analyze Rust test");
    let evaluation = evaluate(&tests, &policy);

    // Assert
    assert_eq!(evaluation.exemptions.len(), 1);
    assert!(!evaluation
        .findings
        .iter()
        .any(|finding| finding.rule_id == NAMING_SHOULD_PREFIX));
}
