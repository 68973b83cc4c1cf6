use cntryl_tools::names::NameMap;
use cntryl_tools::summarize_benchmarks::classify::{
    authority_label, build_comparison_summary, classify_stability, collect_measurement_notes,
    current_run_authoritative,
};
use cntryl_tools::summarize_benchmarks::compare::compare_records;
use cntryl_tools::summarize_benchmarks::config::BenchSummaryConfig;
use cntryl_tools::summarize_benchmarks::model::{
    BenchmarkManifest, BenchmarkRecord, ComparisonSummary, MetricDirection,
};
use cntryl_tools::summarize_benchmarks::numbers::{Number, Operation, Style};

fn number(value: f64) -> Number {
    Number {
        bits: value.to_bits(),
    }
}

fn value(number: Number) -> f64 {
    f64::from_bits(number.bits)
}

fn compute(a: Number, operation: Operation, b: Number) -> Number {
    let (a, b) = (value(a), value(b));
    number(match operation {
        Operation::Difference => a - b,
        Operation::Ratio => a / b,
        Operation::Product => a * b,
        Operation::Midpoint => f64::midpoint(a, b),
    })
}

fn show(number: Number, style: Style) -> String {
    match style {
        Style::Shortest => value(number).to_string(),
        Style::Fixed(digits) => format!("{:.*}", digits, value(number)),
    }
}

fn config() -> BenchSummaryConfig {
    BenchSummaryConfig::for_root(".", "cntryl", "Cntryl Benchmark Report").expect("configuration")
}

fn record(status: &str, stability: &str) -> BenchmarkRecord {
    BenchmarkRecord {
        id: "id".to_string(),
        adapter: "criterion".to_string(),
        suite: "suite".to_string(),
        case: "case".to_string(),
        scenario: None,
        metric: "latency_ns".to_string(),
        unit: "ns".to_string(),
        value: number(1.0),
        lower_bound: None,
        upper_bound: None,
        samples: None,
        metric_direction: MetricDirection::LowerIsBetter,
        stability: Some(stability.to_string()),
        status: Some(status.to_string()),
        rel_stddev: Some(number(0.01)),
        tags: NameMap::new(),
        metadata: NameMap::new(),
        source_file: "target/file".to_string(),
    }
}

#[test]
fn should_classify_run_authoritative_when_all_records_have_authoritative_status_and_stability() {
    // Arrange
    let config = config();
    let records = vec![record("authoritative", "stable")];

    // Act
    let authoritative = current_run_authoritative(&records, &config);

    // Assert
    assert!(authoritative);
}

#[test]
fn should_not_classify_run_authoritative_when_any_record_is_not_authoritative() {
    // Arrange
    let config = config();
    let records = vec![
        record("authoritative", "stable"),
        record("authoritative", "noisy"),
    ];

    // Act
    let authoritative = current_run_authoritative(&records, &config);

    // Assert
    assert!(!authoritative);
}

#[test]
fn should_label_default_profile_accepted_rows_without_lab_authority() {
    // Arrange
    let config = config();
    let mut current = record("acceptable", "stable");
    current
        .metadata
        .insert("run_profile".to_string(), "default".to_string());
    let summary = ComparisonSummary {
        authoritative: true,
        ..ComparisonSummary::default()
    };

    // Act
    let label = authority_label(&vec![current], &summary, &config);

    // Assert
    assert_eq!(label, "accepted default profile, not lab-authoritative");
}

#[test]
fn should_label_authoritative_non_default_rows_as_lab_authoritative() {
    // Arrange
    let config = config();
    let summary = ComparisonSummary {
        authoritative: true,
        ..ComparisonSummary::default()
    };

    // Act
    let label = authority_label(&vec![record("authoritative", "stable")], &summary, &config);

    // Assert
    assert_eq!(label, "lab-authoritative");
}

#[test]
fn should_label_noisy_rows_as_not_trustworthy_for_authority() {
    // Arrange
    let config = config();
    let summary = ComparisonSummary::default();

    // Act
    let label = authority_label(&vec![record("authoritative", "noisy")], &summary, &config);

    // Assert
    assert_eq!(label, "not trustworthy enough for authority");
}

#[test]
fn should_not_trust_a_run_without_records() {
    let config = config();
    assert!(!current_run_authoritative(&Vec::new(), &config));
    assert_eq!(
        authority_label(&Vec::new(), &ComparisonSummary::default(), &config),
        "not trustworthy enough for authority"
    );
}

#[test]
fn should_classify_stability_by_thresholds() {
    let thresholds = config().stability_thresholds;
    for (deviation, label) in [
        (None, "unknown"),
        (Some(0.05), "stable"),
        (Some(0.0501), "acceptable"),
        (Some(0.10), "acceptable"),
        (Some(0.20), "noisy"),
        (Some(0.21), "untrustworthy"),
        (Some(f64::NAN), "untrustworthy"),
    ] {
        assert_eq!(classify_stability(deviation.map(number), &thresholds), label);
    }
}

fn row(id: &str, value: f64) -> BenchmarkRecord {
    let mut row = record("authoritative", "stable");
    row.id = id.to_string();
    row.value = number(value);
    row
}

#[test]
fn should_count_changes_by_thresholds() {
    // Arrange
    let config = config();
    let baseline = BenchmarkManifest {
        schema_version: 1,
        generated_at: "now".to_string(),
        commit_hash: None,
        comparison_summary: ComparisonSummary::default(),
        records: vec![
            row("a", 100.0),
            row("b", 100.0),
            row("c", 100.0),
            row("gone", 1.0),
        ],
    };
    let current = vec![
        row("a", 90.0),
        row("b", 110.0),
        row("c", 125.0),
        row("fresh", 1.0),
    ];

    // Act
    let comparison = compare_records(&current, Some(&baseline), &compute);
    let summary = build_comparison_summary(&current, &comparison, true, 3, &config);

    // Assert
    assert_eq!(
        summary,
        ComparisonSummary {
            performance_changes: 3,
            improved: 1,
            regressions: 2,
            critical: 1,
            stability_regressions: 0,
            stability_improvements: 1,
            new: 1,
            missing: 1,
            risk_areas: 3,
            authoritative: true,
            baseline_available: true,
        }
    );
    assert!(summary.critical <= summary.regressions);
}

#[test]
fn should_note_what_to_look_at() {
    // Arrange
    let config = config();
    let mut few = record("insufficient_data", "stable");
    few.samples = Some(2);
    let mut noisy = record("authoritative", "noisy");
    noisy.rel_stddev = Some(number(0.125));
    noisy.scenario = Some("load".to_string());
    let mut wild = record("failed", "untrustworthy");
    wild.rel_stddev = Some(number(0.5));
    let records = vec![few, noisy, wild];
    let comparison = compare_records(&records, None, &compute);

    // Act
    let notes = collect_measurement_notes(&records, &comparison, &config, &compute, &show);

    // Assert
    assert_eq!(
        notes,
        vec![
            "criterion / suite / case: insufficient data (2 sample(s)).",
            "criterion / suite / case: unstable variance (50.0% RSD).",
            "criterion / suite / case (load): unstable variance (12.5% RSD).",
            "criterion / suite / case: status failed requires manual review.",
            "3 current record(s) do not have baseline coverage.",
        ]
    );
}

#[test]
fn should_note_critical_regressions_worst_first() {
    // Arrange
    let config = config();
    let baseline = BenchmarkManifest {
        schema_version: 1,
        generated_at: "now".to_string(),
        commit_hash: None,
        comparison_summary: ComparisonSummary::default(),
        records: vec![row("a", 100.0), row("b", 100.0)],
    };
    let current = vec![row("a", 130.0), row("b", 200.0)];
    let comparison = compare_records(&current, Some(&baseline), &compute);

    // Act
    let notes = collect_measurement_notes(&current, &comparison, &config, &compute, &show);

    // Assert
    assert_eq!(
        notes,
        vec![
            "suite / case / latency_ns: critical regression -100.0% vs baseline.",
            "suite / case / latency_ns: critical regression -30.0% vs baseline.",
        ]
    );
}

#[test]
fn should_say_so_when_there_is_nothing_to_note() {
    // Arrange
    let config = config();
    let baseline = BenchmarkManifest {
        schema_version: 1,
        generated_at: "now".to_string(),
        commit_hash: None,
        comparison_summary: ComparisonSummary::default(),
        records: vec![row("a", 100.0)],
    };
    let current = vec![row("a", 100.0)];
    let comparison = compare_records(&current, Some(&baseline), &compute);

    // Act
    let notes = collect_measurement_notes(&current, &comparison, &config, &compute, &show);

    // Assert
    assert_eq!(
        notes,
        vec!["No major measurement warnings detected in current data."]
    );
}
