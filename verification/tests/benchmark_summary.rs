use cntryl_tools::names::{NameMap, Names};
use cntryl_tools::patterns::Pattern;
use cntryl_tools::summarize_benchmarks::adapters::criterion::{
    benchmark_path, is_estimates_file, CriterionAdapter, CriterionConfidenceInterval,
    CriterionEstimate, CriterionEstimates,
};
use cntryl_tools::summarize_benchmarks::adapters::{enabled_adapters, AdapterKind};
use cntryl_tools::summarize_benchmarks::config::BenchSummaryConfig;
use cntryl_tools::summarize_benchmarks::model::{
    BenchmarkManifest, BenchmarkRecord, ComparisonSummary, MetricDirection,
};
use cntryl_tools::summarize_benchmarks::numbers::{Number, Operation, Style};
use cntryl_tools::summarize_benchmarks::report::csv_rows;
use cntryl_tools::summarize_benchmarks::{
    adapter_records, check_baseline_version, parse_commit_hash, prepare_records, promotes_baseline,
    summarize_run, summary_exit_code,
};

fn number(value: f64) -> Number {
    Number {
        bits: value.to_bits(),
    }
}

fn value(number: Number) -> f64 {
    f64::from_bits(number.bits)
}

fn compute(a: Number, operation: Operation, b: Number) -> Number {
    let (a, b) = (value(a), value(b));
    number(match operation {
        Operation::Difference => a - b,
        Operation::Ratio => a / b,
        Operation::Product => a * b,
        Operation::Midpoint => f64::midpoint(a, b),
    })
}

fn show(number: Number, style: Style) -> String {
    match style {
        Style::Shortest => value(number).to_string(),
        Style::Fixed(digits) => format!("{:.*}", digits, value(number)),
    }
}

fn read(text: String) -> Option<Number> {
    text.parse::<f64>().ok().map(number)
}

fn config() -> BenchSummaryConfig {
    BenchSummaryConfig::for_root(".", "cntryl", "Cntryl Benchmark Report").expect("configuration")
}

fn record(id: &str) -> BenchmarkRecord {
    BenchmarkRecord {
        id: id.to_string(),
        adapter: "criterion".to_string(),
        suite: "suite".to_string(),
        case: "case".to_string(),
        scenario: None,
        metric: "latency_ns".to_string(),
        unit: "ns".to_string(),
        value: number(1.0),
        lower_bound: None,
        upper_bound: None,
        samples: None,
        metric_direction: MetricDirection::LowerIsBetter,
        stability: Some("stable".to_string()),
        status: Some("authoritative".to_string()),
        rel_stddev: Some(number(0.01)),
        tags: NameMap::new(),
        metadata: NameMap::new(),
        source_file: "target/file".to_string(),
    }
}

#[test]
fn should_filter_record_when_exact_id_is_ignored() {
    // Arrange
    let mut config = config();
    config.ignored_exact_ids = Names::new();
    config.ignored_exact_ids.insert("stale-id".to_string());

    // Act
    let ignored = config.should_ignore_record(&record("stale-id"));

    // Assert
    assert!(ignored);
}

#[test]
fn should_filter_record_when_pattern_matches_metadata() {
    // Arrange
    let mut config = config();
    config.ignored_patterns =
        vec![Pattern::new("schedule_system_scan_and_fire").expect("valid ignore regex")];
    let mut record = record("record-id");
    record.metadata.insert(
        "raw_benchmark".to_string(),
        "schedule_system_scan_and_fire/case".to_string(),
    );

    // Act
    let ignored = config.should_ignore_record(&record);

    // Assert
    assert!(ignored);
}

#[test]
fn should_filter_record_when_pattern_spans_key_and_value() {
    let mut config = config();
    config.ignored_patterns = vec![Pattern::new("^mode=slow$").expect("valid ignore regex")];
    let mut tagged = record("record-id");
    assert!(!config.should_ignore_record(&tagged));
    tagged.tags.insert("mode".to_string(), "slow".to_string());
    assert!(config.should_ignore_record(&tagged));
}

#[test]
fn should_reject_what_is_no_regular_expression() {
    assert!(Pattern::new("foo(bar").is_err());
}

#[test]
fn should_exit_nonzero_for_critical_new_or_missing_records() {
    // Arrange
    let failing_summaries = [
        ComparisonSummary {
            critical: 1,
            ..ComparisonSummary::default()
        },
        ComparisonSummary {
            new: 1,
            ..ComparisonSummary::default()
        },
        ComparisonSummary {
            missing: 1,
            ..ComparisonSummary::default()
        },
    ];

    // Act
    let failing_exit_codes = failing_summaries.map(|summary| summary_exit_code(&summary));
    let clean_exit_code = summary_exit_code(&ComparisonSummary::default());

    // Assert
    assert_eq!(failing_exit_codes, [1, 1, 1]);
    assert_eq!(clean_exit_code, 0);
}

#[test]
fn should_promote_only_runs_that_end_well() {
    let config = config();
    let records = vec![record("id")];
    assert!(promotes_baseline(
        &records,
        &ComparisonSummary::default(),
        &config
    ));
    assert!(!promotes_baseline(
        &Vec::new(),
        &ComparisonSummary::default(),
        &config
    ));
    let summary = ComparisonSummary {
        new: 1,
        ..ComparisonSummary::default()
    };
    assert!(!promotes_baseline(&records, &summary, &config));
}

#[test]
fn should_place_files_below_the_root() {
    let config =
        BenchSummaryConfig::for_root("/repo", "product", "Title").expect("configuration");
    assert_eq!(config.baseline_file, "/repo/config/bench_baseline.json");
    assert_eq!(config.manifest_file, "/repo/target/bench_results.json");
    assert_eq!(config.markdown_report_file, "/repo/target/bench_summary.md");
    assert_eq!(
        config.criterion_csv_output().map(String::as_str),
        Some("/repo/target/criterion/summarize_benchmarks.csv")
    );
    assert_eq!(
        config.stress_csv_output().map(String::as_str),
        Some("/repo/target/stress/stress_summary.csv")
    );
    assert_eq!(config.display_suite_label("suite"), "suite");
    assert_eq!(
        enabled_adapters(&config),
        vec![AdapterKind::Criterion, AdapterKind::Stress]
    );
}

#[test]
fn should_order_records_without_a_scenario_first() {
    // Arrange
    let config = config();
    let mut with_scenario = record("a");
    with_scenario.scenario = Some("load".to_string());
    let mut stress = record("c");
    stress.adapter = "stress".to_string();
    let ignored = record("hotpath_routing/route_as_str");
    let records = vec![stress, with_scenario, ignored, record("b")];

    // Act
    let prepared = prepare_records(&records, &config);
    let ids: Vec<&str> = prepared.iter().map(|record| record.id.as_str()).collect();

    // Assert
    assert_eq!(ids, vec!["b", "a", "c"]);
    assert_eq!(adapter_records(&prepared, "stress").len(), 1);
}

#[test]
fn should_reject_baselines_of_another_version() {
    assert_eq!(check_baseline_version(1, "baseline.json"), Ok(()));
    assert_eq!(
        check_baseline_version(7, "baseline.json"),
        Err("unsupported baseline schema_version 7 in baseline.json; expected 1".to_string())
    );
}

#[test]
fn should_trim_commit_hashes() {
    assert_eq!(parse_commit_hash("abc123\n"), Some("abc123".to_string()));
    assert_eq!(parse_commit_hash(" \n"), None);
}

fn estimate(value: f64) -> Option<CriterionEstimate> {
    Some(CriterionEstimate {
        point_estimate: Some(number(value)),
        confidence_interval: Some(CriterionConfidenceInterval {
            lower_bound: Some(number(value - 1.0)),
            upper_bound: Some(number(value + 1.0)),
        }),
    })
}

#[test]
fn should_make_a_record_of_estimates() {
    // Arrange
    let config = config();
    let criterion = config.adapters.criterion.as_ref().expect("criterion");
    let estimates = CriterionEstimates {
        mean: estimate(1000.0),
        median: estimate(1500.0),
        std_dev: estimate(80.0),
    };

    // Act
    let record = CriterionAdapter
        .record(
            "group/bench/case",
            &estimates,
            "estimates.json",
            criterion,
            &config.stability_thresholds,
            &compute,
            &show,
        )
        .expect("record");

    // Assert
    assert_eq!(record.suite, "group");
    assert_eq!(record.case, "bench/case");
    assert_eq!(value(record.value), 1500.0);
    assert_eq!(record.lower_bound.map(value), Some(1499.0));
    assert_eq!(record.upper_bound.map(value), Some(1501.0));
    assert_eq!(record.rel_stddev.map(value), Some(0.08));
    assert_eq!(record.stability.as_deref(), Some("acceptable"));
    assert_eq!(record.status.as_deref(), Some("authoritative"));
    assert_eq!(record.metadata.get("mean_us"), Some(&"1".to_string()));
    assert_eq!(record.metadata.get("median_ms"), Some(&"0.0015".to_string()));
    assert_eq!(record.metadata.get("std_dev_ns"), Some(&"80".to_string()));
}

#[test]
fn should_leave_out_estimates_without_a_plausible_mean() {
    let config = config();
    let criterion = config.adapters.criterion.as_ref().expect("criterion");
    for (mean, expected) in [(1.0, false), (2.0, true), (1e12, false), (f64::NAN, false)] {
        let estimates = CriterionEstimates {
            mean: estimate(mean),
            median: None,
            std_dev: None,
        };
        let record = CriterionAdapter.record(
            "single",
            &estimates,
            "estimates.json",
            criterion,
            &config.stability_thresholds,
            &compute,
            &show,
        );
        assert_eq!(record.is_some(), expected);
        if let Some(record) = record {
            assert_eq!(record.case, "single");
            assert_eq!(value(record.value), mean);
            assert_eq!(record.status.as_deref(), Some("unknown"));
        }
    }
}

#[test]
fn should_name_benchmarks_by_their_directories() {
    let components = |parts: &[&str]| -> Vec<String> {
        parts.iter().map(|part| part.to_string()).collect()
    };
    let path = components(&["group", "bench", "new", "estimates.json"]);
    assert!(is_estimates_file(&path));
    assert_eq!(benchmark_path(&path), "group/bench");
    assert!(!is_estimates_file(&components(&["base", "estimates.json"])));
    assert_eq!(benchmark_path(&components(&["estimates.json"])), "");
}

#[test]
fn should_write_rows_for_csv_files() {
    // Arrange
    let mut tagged = record("id");
    tagged.tags.insert("b".to_string(), "\"2\"".to_string());
    tagged.tags.insert("a".to_string(), "1".to_string());
    tagged.samples = Some(3);

    // Act
    let rows = csv_rows(&vec![tagged], &show);

    // Assert
    assert_eq!(rows.len(), 2);
    assert_eq!(rows[0].cells.len(), rows[1].cells.len());
    assert_eq!(rows[0].cells[15], "tags");
    assert_eq!(
        rows[1].cells,
        vec![
            "id",
            "criterion",
            "suite",
            "case",
            "NA",
            "latency_ns",
            "ns",
            "1.000000",
            "NA",
            "NA",
            "3",
            "lower_is_better",
            "stable",
            "authoritative",
            "0.010000",
            "{\"a\":\"1\",\"b\":\"\\\"2\\\"\"}",
            "{}",
            "target/file",
        ]
    );
}

#[test]
fn should_sum_up_a_run_without_a_baseline() {
    // Arrange
    let config = config();

    // Act
    let run = summarize_run(
        vec![record("id")],
        None,
        &config,
        "2024-01-02T03:04:05Z".to_string(),
        None,
        &compute,
        &show,
        &read,
    );

    // Assert
    assert_eq!(run.exit_code, 1);
    assert!(!run.promoted);
    assert_eq!(
        run.counters,
        "Comparison counters: critical=0 new=1 missing=0 regressions=0 improvements=0 authority=lab-authoritative"
    );
    assert_eq!(
        run.markdown,
        "# Cntryl Benchmark Report

- product: cntryl
- generated_at: 2024-01-02T03:04:05Z
- commit: unknown
- baseline_available: false
- record_count: 1
- manifest: target/bench_results.json
- baseline: config/bench_baseline.json
- criterion_csv: target/criterion/summarize_benchmarks.csv
- stress_csv: target/stress/stress_summary.csv

## Comparison Summary

| performance_changes | improved | regressions | critical | stability_regressions | stability_improvements | new | missing | risk_areas | authoritative |
|---|---|---|---|---|---|---|---|---|---|
| 0 | 0 | 0 | 0 | 0 | 1 | 1 | 0 | 1 | true |

## Current Results

### criterion

#### suite

| case | scenario | metric | value | unit | samples | rsd | stability | status |
|---|---|---|---|---|---|---|---|---|
| case | NA | latency_ns | 1 | ns | NA | 1.0% | stable | authoritative |

## Baseline Deltas

- No baseline available. Current normalized results are still written to the manifest, CSV, and report artifacts.

## Parameter Sweeps

- No sweep-style parameter scenarios were detected.

## Measurement Notes

- 1 current record(s) do not have baseline coverage.

"
    );
}

#[test]
fn should_sum_up_a_run_against_a_baseline() {
    // Arrange
    let config = config();
    let mut gone = record("gone");
    gone.unit = "us".to_string();
    gone.value = number(0.5);
    let mut slower = record("id");
    slower.value = number(3.0);
    let mut fresh = record("fresh");
    fresh.adapter = "stress".to_string();
    let mut known = record("id");
    known.value = number(2.0);
    let baseline = BenchmarkManifest {
        schema_version: 1,
        generated_at: "then".to_string(),
        commit_hash: None,
        comparison_summary: ComparisonSummary::default(),
        records: vec![known, gone],
    };

    // Act
    let run = summarize_run(
        vec![slower, fresh],
        Some(&baseline),
        &config,
        "now".to_string(),
        Some("abc".to_string()),
        &compute,
        &show,
        &read,
    );

    // Assert
    assert_eq!(run.exit_code, 1);
    assert!(run.markdown.contains("- commit: abc\n- baseline_available: true\n"));
    assert!(run.markdown.contains(
        "| suite | case | NA | latency_ns | 2 | 3 | +50.0% | -50.0% | stable | stable | authoritative | authoritative |\n"
    ));
    assert!(run.markdown.contains("### New Records\n\n| adapter | suite |"));
    assert!(run.markdown.contains(
        "### Missing Records\n\n| adapter | suite | case | scenario | metric | value | status |\n|---|---|---|---|---|---|---|\n| criterion | suite | case | NA | latency_ns | 0.500 | authoritative |\n"
    ));
}

#[test]
fn should_promote_a_run_that_matches_its_baseline() {
    // Arrange
    let config = config();
    let baseline = BenchmarkManifest {
        schema_version: 1,
        generated_at: "then".to_string(),
        commit_hash: None,
        comparison_summary: ComparisonSummary::default(),
        records: vec![record("id")],
    };

    // Act
    let run = summarize_run(
        vec![record("id")],
        Some(&baseline),
        &config,
        "now".to_string(),
        None,
        &compute,
        &show,
        &read,
    );

    // Assert
    assert!(run.promoted);
    assert_eq!(run.exit_code, 0);
    assert_eq!(run.manifest.records.len(), 1);
}
