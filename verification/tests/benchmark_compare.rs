use cntryl_tools::names::NameMap;
use cntryl_tools::summarize_benchmarks::compare::compare_records;
use cntryl_tools::summarize_benchmarks::model::{
    BenchmarkManifest, BenchmarkRecord, ComparisonSummary, MetricDirection,
    BENCHMARK_MANIFEST_SCHEMA_VERSION,
};
use cntryl_tools::summarize_benchmarks::numbers::{change_percent, Number, Operation};

fn number(value: f64) -> Number {
    Number {
        bits: value.to_bits(),
    }
}

fn value(number: Number) -> f64 {
    f64::from_bits(number.bits)
}

fn compute(a: Number, operation: Operation, b: Number) -> Number {
    let (a, b) = (value(a), value(b));
    number(match operation {
        Operation::Difference => a - b,
        Operation::Ratio => a / b,
        Operation::Product => a * b,
        Operation::Midpoint => f64::midpoint(a, b),
    })
}

fn record(id: &str, case: &str, direction: MetricDirection, value: f64) -> BenchmarkRecord {
    BenchmarkRecord {
        id: id.to_string(),
        adapter: "criterion".to_string(),
        suite: "suite".to_string(),
        case: case.to_string(),
        scenario: None,
        metric: match direction {
            MetricDirection::LowerIsBetter => "latency_ns".to_string(),
            MetricDirection::HigherIsBetter => "throughput_ops_per_s".to_string(),
        },
        unit: match direction {
            MetricDirection::LowerIsBetter => "ns".to_string(),
            MetricDirection::HigherIsBetter => "ops/s".to_string(),
        },
        value: number(value),
        lower_bound: None,
        upper_bound: None,
        samples: None,
        metric_direction: direction,
        stability: Some("stable".to_string()),
        status: Some("authoritative".to_string()),
        rel_stddev: Some(number(0.01)),
        tags: NameMap::new(),
        metadata: NameMap::new(),
        source_file: "target/file".to_string(),
    }
}

fn manifest(records: Vec<BenchmarkRecord>) -> BenchmarkManifest {
    BenchmarkManifest {
        schema_version: BENCHMARK_MANIFEST_SCHEMA_VERSION,
        generated_at: "now".to_string(),
        commit_hash: None,
        comparison_summary: ComparisonSummary::default(),
        records,
    }
}

#[test]
fn should_compute_positive_directional_delta_when_lower_is_better_metric_improves() {
    // Arrange
    let baseline = manifest(vec![record(
        "stable-id",
        "baseline-case",
        MetricDirection::LowerIsBetter,
        100.0,
    )]);
    let current = vec![record(
        "stable-id",
        "current-case",
        MetricDirection::LowerIsBetter,
        80.0,
    )];

    // Act
    let comparison = compare_records(&current, Some(&baseline), &compute);

    // Assert
    assert_eq!(comparison.deltas.len(), 1);
    assert_eq!(comparison.deltas[0].delta_pct.map(value), Some(-20.0));
    assert_eq!(
        comparison.deltas[0].directional_delta_pct.map(value),
        Some(20.0)
    );
}

#[test]
fn should_compute_positive_directional_delta_when_higher_is_better_metric_improves() {
    // Arrange
    let baseline = manifest(vec![record(
        "stable-id",
        "baseline-case",
        MetricDirection::HigherIsBetter,
        100.0,
    )]);
    let current = vec![record(
        "stable-id",
        "current-case",
        MetricDirection::HigherIsBetter,
        120.0,
    )];

    // Act
    let comparison = compare_records(&current, Some(&baseline), &compute);

    // Assert
    assert_eq!(comparison.deltas.len(), 1);
    assert_eq!(comparison.deltas[0].delta_pct.map(value), Some(20.0));
    assert_eq!(
        comparison.deltas[0].directional_delta_pct.map(value),
        Some(20.0)
    );
}

#[test]
fn should_match_baseline_by_stable_id_given_current_case_label_changes() {
    // Arrange
    let baseline = manifest(vec![record(
        "stable-id",
        "old-case",
        MetricDirection::LowerIsBetter,
        100.0,
    )]);
    let current = vec![record(
        "stable-id",
        "renamed-case",
        MetricDirection::LowerIsBetter,
        95.0,
    )];

    // Act
    let comparison = compare_records(&current, Some(&baseline), &compute);

    // Assert
    assert_eq!(comparison.deltas[0].baseline_value.map(value), Some(100.0));
    assert_eq!(comparison.deltas[0].case, "renamed-case");
}

#[test]
fn should_treat_ns_per_op_basis_mismatch_as_semantic_change() {
    // Arrange
    let mut baseline_record = record("stable-id", "case", MetricDirection::LowerIsBetter, 100.0);
    baseline_record.metric = "ns_per_op".to_string();
    let mut current_record = record("stable-id", "case", MetricDirection::LowerIsBetter, 80.0);
    current_record.metric = "ns_per_op".to_string();
    current_record.metadata.insert(
        "ns_per_op_basis".to_string(),
        "logical_completed_operation".to_string(),
    );
    let baseline = manifest(vec![baseline_record]);

    // Act
    let comparison = compare_records(&vec![current_record], Some(&baseline), &compute);

    // Assert
    assert_eq!(comparison.deltas[0].delta_pct, None);
    assert_eq!(comparison.deltas[0].directional_delta_pct, None);
    assert!(comparison.deltas[0]
        .semantic_change
        .as_deref()
        .is_some_and(|reason| reason.contains("ns_per_op_basis changed")));
}

#[test]
fn should_suggest_probable_renamed_rows_without_matching_them() {
    // Arrange
    let baseline = manifest(vec![record(
        "suite/bench|throughput_ops_per_s|completed_unit=message",
        "case",
        MetricDirection::HigherIsBetter,
        100.0,
    )]);
    let current = vec![record(
        "suite/bench|throughput_ops_per_s|completed_unit=event",
        "case",
        MetricDirection::HigherIsBetter,
        100.0,
    )];

    // Act
    let comparison = compare_records(&current, Some(&baseline), &compute);

    // Assert
    assert_eq!(comparison.new_records.len(), 1);
    assert_eq!(comparison.missing_records.len(), 1);
    assert_eq!(comparison.probable_renames.len(), 1);
    assert_eq!(comparison.probable_renames[0].changed_key, "completed_unit");
    assert_eq!(comparison.probable_renames[0].baseline_value, "message");
    assert_eq!(comparison.probable_renames[0].current_value, "event");
}

#[test]
fn should_find_nothing_new_or_missing_in_a_run_held_against_itself() {
    // Arrange
    let rows = || {
        vec![
            record("b", "case", MetricDirection::LowerIsBetter, 2.0),
            record("a", "case", MetricDirection::LowerIsBetter, 1.0),
        ]
    };
    let baseline = manifest(rows());

    // Act
    let comparison = compare_records(&rows(), Some(&baseline), &compute);

    // Assert
    assert!(comparison.new_records.is_empty());
    assert!(comparison.missing_records.is_empty());
    assert!(comparison.probable_renames.is_empty());
    assert_eq!(comparison.deltas.len(), 2);
    assert_eq!(comparison.deltas[0].id, "a");
}

#[test]
fn should_go_by_the_last_of_several_baseline_records_with_an_id() {
    // Arrange
    let baseline = manifest(vec![
        record("id", "case", MetricDirection::HigherIsBetter, 1.0),
        record("id", "case", MetricDirection::HigherIsBetter, 50.0),
    ]);
    let current = vec![record("id", "case", MetricDirection::HigherIsBetter, 75.0)];

    // Act
    let comparison = compare_records(&current, Some(&baseline), &compute);

    // Assert
    assert_eq!(comparison.deltas[0].delta_pct.map(value), Some(50.0));
}

#[test]
fn should_not_compare_with_a_baseline_that_is_no_positive_number() {
    for known in [0.0, -1.0, f64::INFINITY, f64::NAN] {
        let baseline = manifest(vec![record(
            "id",
            "case",
            MetricDirection::LowerIsBetter,
            known,
        )]);
        let current = vec![record("id", "case", MetricDirection::LowerIsBetter, 1.0)];
        let comparison = compare_records(&current, Some(&baseline), &compute);
        assert_eq!(comparison.deltas[0].baseline_value, None);
        assert_eq!(comparison.deltas[0].delta_pct, None);
        assert!(comparison.new_records.is_empty());
    }
}

#[test]
fn should_tell_a_change_in_percent() {
    let change = |a, b| value(change_percent(&compute, number(a), number(b)));
    assert_eq!(change(150.0, 100.0), 50.0);
    assert_eq!(change(75.0, 100.0), -25.0);
    assert_eq!(change(100.0, 100.0), 0.0);
    assert_eq!(change(1.0, 0.0), f64::INFINITY);
}
