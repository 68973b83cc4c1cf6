use cntryl_tools::names::NameMap;
use cntryl_tools::summarize_benchmarks::adapters::stress::{
    check_stress_file, median, metric_spec, records_from_stress_run, StressConfidenceInterval,
    StressCorrectness, StressCorrectnessCounters, StressFileError, StressPrimaryMetric,
    StressRunFile, StressSample, StressSamplePhase, StressStats, StressSummary,
};
use cntryl_tools::summarize_benchmarks::config::{BenchSummaryConfig, StressAdapterConfig};
use cntryl_tools::summarize_benchmarks::model::MetricDirection;
use cntryl_tools::summarize_benchmarks::numbers::{Number, Operation, Style};
use serde_json::Value;

fn number(value: f64) -> Number {
    Number {
        bits: value.to_bits(),
    }
}

fn value(number: Number) -> f64 {
    f64::from_bits(number.bits)
}

fn compute(a: Number, operation: Operation, b: Number) -> Number {
    let (a, b) = (value(a), value(b));
    number(match operation {
        Operation::Difference => a - b,
        Operation::Ratio => a / b,
        Operation::Product => a * b,
        Operation::Midpoint => f64::midpoint(a, b),
    })
}

fn show(number: Number, style: Style) -> String {
    match style {
        Style::Shortest => value(number).to_string(),
        Style::Fixed(digits) => format!("{:.*}", digits, value(number)),
    }
}

fn config() -> BenchSummaryConfig {
    BenchSummaryConfig::for_root(".", "cntryl", "Cntryl Benchmark Report").expect("configuration")
}

fn adapter_config(config: &BenchSummaryConfig) -> &StressAdapterConfig {
    config.adapters.stress.as_ref().expect("stress config")
}

fn text(value: &Value) -> String {
    value.as_str().expect("text").to_string()
}

fn float(value: &Value) -> Number {
    number(value.as_f64().expect("number"))
}

fn count(value: &Value) -> u64 {
    value.as_u64().expect("count")
}

fn texts(value: &Value) -> Vec<String> {
    match value.as_array() {
        Some(items) => items.iter().map(text).collect(),
        None => Vec::new(),
    }
}

fn named(value: &Value) -> NameMap<String> {
    let mut map = NameMap::new();
    if let Some(members) = value.as_object() {
        for (key, member) in members {
            map.insert(key.clone(), text(member));
        }
    }
    map
}

fn stats(value: &Value) -> Option<StressStats> {
    if value.is_null() {
        return None;
    }
    Some(StressStats {
        mean: float(&value["mean"]),
        median: float(&value["median"]),
        min: float(&value["min"]),
        max: float(&value["max"]),
        std_dev: float(&value["std_dev"]),
        relative_std_dev: value["relative_std_dev"].as_f64().map(number),
        confidence_interval_95: StressConfidenceInterval {
            lower: float(&value["confidence_interval_95"]["lower"]),
            upper: float(&value["confidence_interval_95"]["upper"]),
        },
        p50: float(&value["p50"]),
        p95: float(&value["p95"]),
        p99: float(&value["p99"]),
    })
}

fn summary(value: &Value) -> StressSummary {
    let correctness = &value["correctness"];
    let counters = &correctness["counters"];
    StressSummary {
        benchmark_id: text(&value["benchmark_id"]),
        name: text(&value["name"]),
        tier: count(&value["tier"]) as u32,
        primary_metric: text(&value["primary_metric"]),
        measured_samples: count(&value["measured_samples"]) as usize,
        warmup_samples: count(&value["warmup_samples"]) as usize,
        cooldown_samples: count(&value["cooldown_samples"]) as usize,
        stats: stats(&value["stats"]),
        ns_per_op: stats(&value["ns_per_op"]),
        overhead_ns_per_op: stats(&value["overhead_ns_per_op"]),
        allocs_per_op: stats(&value["allocs_per_op"]),
        bytes_per_op: stats(&value["bytes_per_op"]),
        quality: text(&value["quality"]),
        correctness: StressCorrectness {
            passed: correctness["passed"].as_bool().expect("truth"),
            counters: StressCorrectnessCounters {
                attempted: count(&counters["attempted"]),
                completed: count(&counters["completed"]),
                failures: count(&counters["failures"]),
                timeouts: count(&counters["timeouts"]),
                duplicates: count(&counters["duplicates"]),
                dropped: count(&counters["dropped"]),
                validation_errors: count(&counters["validation_errors"]),
            },
            errors: texts(&correctness["errors"]),
        },
        flags: texts(&value["flags"]),
        parameters: named(&value["parameters"]),
        metadata: named(&value["metadata"]),
    }
}

fn sample(value: &Value) -> StressSample {
    StressSample {
        benchmark_id: text(&value["benchmark_id"]),
        phase: match value["phase"].as_str() {
            Some("warmup") => StressSamplePhase::Warmup,
            Some("measured") => StressSamplePhase::Measured,
            _ => StressSamplePhase::Cooldown,
        },
        elapsed_ns: float(&value["elapsed_ns"]),
    }
}

fn parse_run(json: &str) -> StressRunFile {
    let value: Value = serde_json::from_str(json).expect("valid stress run");
    StressRunFile {
        schema_version: text(&value["schema_version"]),
        suite: text(&value["suite"]),
        run_profile: text(&value["run_profile"]),
        summaries: value["summaries"]
            .as_array()
            .expect("summaries")
            .iter()
            .map(summary)
            .collect(),
        samples: value["samples"]
            .as_array()
            .expect("samples")
            .iter()
            .map(sample)
            .collect(),
    }
}

#[test]
fn should_reject_stress_artifact_without_v1_schema() {
    let result = check_stress_file(
        r#"{"suite": "old", "results": []}"#,
        "target/stress/old/latest.json",
    );

    assert!(result.is_err());
    assert_eq!(
        result,
        Err(StressFileError::Unsupported(
            "unsupported stress schema in target/stress/old/latest.json: schema_version=missing; expected cntryl-stress.v1"
                .to_string()
        ))
    );
}

#[test]
fn should_tell_files_of_stress_runs_by_their_schema() {
    assert_eq!(
        check_stress_file(r#"{"schema_version": "cntryl-stress.v1"}"#, "latest.json"),
        Ok(())
    );
    assert!(matches!(
        check_stress_file("{", "latest.json"),
        Err(StressFileError::Malformed(_))
    ));
    assert!(matches!(
        check_stress_file(r#"{"schema_version": 1}"#, "latest.json"),
        Err(StressFileError::Unsupported(_))
    ));
}

#[test]
fn should_collect_v1_throughput_summary() {
    let config = config();
    let run = parse_run(
        r#"{
            "schema_version": "cntryl-stress.v1",
            "suite": "tier4_queue",
            "run_profile": "release",
            "samples": [
                {"benchmark_id": "tier4_queue/queue::fanout", "phase": "warmup", "elapsed_ns": 1000000000},
                {"benchmark_id": "tier4_queue/queue::fanout", "phase": "measured", "elapsed_ns": 3000000000},
                {"benchmark_id": "tier4_queue/queue::fanout", "phase": "measured", "elapsed_ns": 5000000000}
            ],
            "summaries": [{
                "benchmark_id": "tier4_queue/queue::fanout",
                "name": "queue::fanout",
                "tier": 4,
                "primary_metric": "throughput",
                "measured_samples": 10,
                "warmup_samples": 1,
                "cooldown_samples": 0,
                "stats": {
                    "mean": 1000.0,
                    "median": 995.0,
                    "min": 900.0,
                    "max": 1100.0,
                    "std_dev": 40.0,
                    "relative_std_dev": 0.04,
                    "confidence_interval_95": {"lower": 975.0, "upper": 1025.0},
                    "p50": 995.0,
                    "p95": 1080.0,
                    "p99": 1095.0
                },
                "quality": "authoritative",
                "correctness": {
                    "passed": true,
                    "counters": {
                        "attempted": 1000,
                        "completed": 1000,
                        "failures": 0,
                        "timeouts": 0,
                        "duplicates": 0,
                        "dropped": 0,
                        "validation_errors": 0
                    },
                    "errors": []
                },
                "parameters": {
                    "scenario": "fanout",
                    "client_count": "16",
                    "transport": "tcp"
                },
                "metadata": {
                    "operation": "enqueue"
                }
            }]
        }"#,
    );

    let records = records_from_stress_run(
        &run,
        "target/stress/tier4_queue/latest.json",
        adapter_config(&config),
        &config.stability_thresholds,
        &compute,
        &show,
    )
    .expect("records");

    assert_eq!(records.len(), 1);
    let record = &records[0];
    assert_eq!(record.id, "tier4_queue/queue::fanout|throughput_ops_per_s|scenario=fanout|client_count=16|transport=tcp");
    assert_eq!(record.suite, "tier4_queue");
    assert_eq!(record.case, "fanout");
    assert_eq!(record.scenario, Some("fanout".to_string()));
    assert_eq!(record.metric, "throughput_ops_per_s");
    assert_eq!(record.unit, "ops/s");
    assert_eq!(record.metric_direction, MetricDirection::HigherIsBetter);
    assert_close(value(record.value), 1000.0);
    assert_optional_close(record.lower_bound.map(value), 900.0);
    assert_optional_close(record.upper_bound.map(value), 1100.0);
    assert_eq!(record.samples, Some(10));
    assert_eq!(record.status, Some("authoritative".to_string()));
    assert_eq!(record.stability, Some("stable".to_string()));
    assert_eq!(record.tags.get("client_count"), Some(&"16".to_string()));
    assert_eq!(
        record.metadata.get("median_sample_elapsed_ns"),
        Some(&"4000000000".to_string())
    );
    assert_eq!(
        record.metadata.get("stress_metadata_operation"),
        Some(&"enqueue".to_string())
    );
}

#[test]
#[allow(clippy::too_many_lines)]
fn should_collect_v1_micro_and_allocation_records() {
    let config = config();
    let run = parse_run(
        r#"{
            "schema_version": "cntryl-stress.v1",
            "suite": "tier1_hot_path",
            "run_profile": "release",
            "samples": [
                {"benchmark_id": "tier1_hot_path/parser::header", "phase": "measured", "elapsed_ns": 10000000}
            ],
            "summaries": [{
                "benchmark_id": "tier1_hot_path/parser::header",
                "name": "parser::header",
                "tier": 1,
                "primary_metric": "ns_per_op",
                "measured_samples": 10,
                "warmup_samples": 1,
                "cooldown_samples": 0,
                "stats": {
                    "mean": 42.0,
                    "median": 41.0,
                    "min": 40.0,
                    "max": 45.0,
                    "std_dev": 1.0,
                    "relative_std_dev": 0.02,
                    "confidence_interval_95": {"lower": 41.0, "upper": 43.0},
                    "p50": 41.0,
                    "p95": 44.0,
                    "p99": 45.0
                },
                "ns_per_op": {
                    "mean": 42.0,
                    "median": 41.0,
                    "min": 40.0,
                    "max": 45.0,
                    "std_dev": 1.0,
                    "relative_std_dev": 0.02,
                    "confidence_interval_95": {"lower": 41.0, "upper": 43.0},
                    "p50": 41.0,
                    "p95": 44.0,
                    "p99": 45.0
                },
                "overhead_ns_per_op": {
                    "mean": 2.0,
                    "median": 2.0,
                    "min": 1.0,
                    "max": 3.0,
                    "std_dev": 0.5,
                    "relative_std_dev": 0.25,
                    "confidence_interval_95": {"lower": 1.5, "upper": 2.5},
                    "p50": 2.0,
                    "p95": 3.0,
                    "p99": 3.0
                },
                "allocs_per_op": {
                    "mean": 0.0,
                    "median": 0.0,
                    "min": 0.0,
                    "max": 0.0,
                    "std_dev": 0.0,
                    "relative_std_dev": 0.0,
                    "confidence_interval_95": {"lower": 0.0, "upper": 0.0},
                    "p50": 0.0,
                    "p95": 0.0,
                    "p99": 0.0
                },
                "bytes_per_op": {
                    "mean": 0.0,
                    "median": 0.0,
                    "min": 0.0,
                    "max": 0.0,
                    "std_dev": 0.0,
                    "relative_std_dev": 0.0,
                    "confidence_interval_95": {"lower": 0.0, "upper": 0.0},
                    "p50": 0.0,
                    "p95": 0.0,
                    "p99": 0.0
                },
                "quality": "authoritative",
                "flags": ["validated_micro"],
                "correctness": {
                    "passed": true,
                    "counters": {
                        "attempted": 1000,
                        "completed": 1000,
                        "failures": 0,
                        "timeouts": 0,
                        "duplicates": 0,
                        "dropped": 0,
                        "validation_errors": 0
                    },
                    "errors": []
                },
                "parameters": {"operation": "parse_header"}
            }]
        }"#,
    );

    let records = records_from_stress_run(
        &run,
        "target/stress/tier1_hot_path/latest.json",
        adapter_config(&config),
        &config.stability_thresholds,
        &compute,
        &show,
    )
    .expect("records");

    assert_eq!(records.len(), 3);
    assert_eq!(records[0].metric, "ns_per_op");
    assert_eq!(records[0].unit, "ns");
    assert_eq!(records[0].metric_direction, MetricDirection::LowerIsBetter);
    assert_close(value(records[0].value), 42.0);
    assert_eq!(
        records[0].metadata.get("overhead_ns_per_op_mean"),
        Some(&"2".to_string())
    );
    assert_eq!(
        records[0].metadata.get("flags"),
        Some(&"validated_micro".to_string())
    );
    assert_eq!(records[1].metric, "allocs_per_op");
    assert_eq!(records[1].unit, "allocs/op");
    assert_eq!(records[2].metric, "bytes_per_op");
    assert_eq!(records[2].unit, "B/op");
}

#[test]
fn should_map_latency_p95_as_lower_is_better() {
    let config = config();
    let run = parse_run(
        r#"{
            "schema_version": "cntryl-stress.v1",
            "suite": "tier3_rpc",
            "run_profile": "release",
            "samples": [],
            "summaries": [{
                "benchmark_id": "tier3_rpc/rpc::round_trip",
                "name": "rpc::round_trip",
                "tier": 3,
                "primary_metric": "latency_p95",
                "measured_samples": 10,
                "warmup_samples": 1,
                "cooldown_samples": 0,
                "stats": {
                    "mean": 100.0,
                    "median": 95.0,
                    "min": 80.0,
                    "max": 180.0,
                    "std_dev": 5.0,
                    "relative_std_dev": 0.05,
                    "confidence_interval_95": {"lower": 95.0, "upper": 105.0},
                    "p50": 95.0,
                    "p95": 160.0,
                    "p99": 180.0
                },
                "quality": "acceptable",
                "correctness": {
                    "passed": true,
                    "counters": {
                        "attempted": 10,
                        "completed": 10,
                        "failures": 0,
                        "timeouts": 0,
                        "duplicates": 0,
                        "dropped": 0,
                        "validation_errors": 0
                    },
                    "errors": []
                }
            }]
        }"#,
    );

    let records = records_from_stress_run(
        &run,
        "target/stress/tier3_rpc/latest.json",
        adapter_config(&config),
        &config.stability_thresholds,
        &compute,
        &show,
    )
    .expect("records");

    assert_eq!(records.len(), 1);
    assert_eq!(records[0].metric, "latency_p95_ns");
    assert_eq!(records[0].unit, "ns");
    assert_eq!(records[0].metric_direction, MetricDirection::LowerIsBetter);
    assert_close(value(records[0].value), 160.0);
    assert_eq!(records[0].status, Some("acceptable".to_string()));
}

#[test]
fn should_reject_non_current_stress_schema() {
    let config = config();
    let run = parse_run(
        r#"{
            "schema_version": "cntryl-stress.v2",
            "suite": "old",
            "run_profile": "smoke",
            "summaries": [],
            "samples": []
        }"#,
    );

    let result = records_from_stress_run(
        &run,
        "target/stress/old/latest.json",
        adapter_config(&config),
        &config.stability_thresholds,
        &compute,
        &show,
    );

    assert!(result.is_err());
}

fn assert_close(actual: f64, expected: f64) {
    assert!(
        (actual - expected).abs() < f64::EPSILON,
        "expected {actual} to equal {expected}"
    );
}

fn assert_optional_close(actual: Option<f64>, expected: f64) {
    assert_close(actual.expect("value"), expected);
}

#[test]
fn should_reject_unknown_metrics_of_summaries_with_statistics() {
    let mut run = run_with_metric("latency_p50");
    let config = config();
    let records = |run: &StressRunFile| {
        records_from_stress_run(
            run,
            "latest.json",
            adapter_config(&config),
            &config.stability_thresholds,
            &compute,
            &show,
        )
        .map(|records| records.len())
    };
    assert_eq!(
        records(&run),
        Err("unknown stress primary metric 'latency_p50'".to_string())
    );
    run.summaries[0].stats = None;
    assert_eq!(records(&run), Ok(0));
}

#[test]
fn should_leave_out_implausible_values() {
    let config = config();
    for (metric, mean, expected) in [
        ("throughput", 1e9, 1),
        ("throughput", 1.1e9, 0),
        ("throughput", 0.0, 0),
        ("throughput", -1.0, 0),
        ("throughput", f64::NAN, 0),
        ("throughput", f64::INFINITY, 0),
        ("ns_per_op", 0.0, 0),
        ("allocs_per_op", 0.0, 1),
        ("bytes_per_op", 0.0, 1),
    ] {
        let mut run = run_with_metric(metric);
        let mut known = run.summaries[0].stats.expect("statistics");
        known.mean = number(mean);
        run.summaries[0].stats = Some(known);
        let records = records_from_stress_run(
            &run,
            "latest.json",
            adapter_config(&config),
            &config.stability_thresholds,
            &compute,
            &show,
        )
        .expect("records");
        assert_eq!(records.len(), expected, "{metric} {mean}");
    }
}

#[test]
fn should_mark_records_of_failed_runs() {
    let config = config();
    let mut run = run_with_metric("throughput");
    run.summaries[0].correctness.passed = false;
    run.summaries[0].name = "a:::b".to_string();
    let records = records_from_stress_run(
        &run,
        "latest.json",
        adapter_config(&config),
        &config.stability_thresholds,
        &compute,
        &show,
    )
    .expect("records");
    assert_eq!(records[0].status.as_deref(), Some("correctness_failed"));
    assert_eq!(records[0].case, ":b");
    assert_eq!(
        records[0].metadata.get("meets_sample_floor"),
        Some(&"false".to_string())
    );
    assert_eq!(
        records[0].metadata.get("meets_runtime_floor"),
        Some(&"true".to_string())
    );
    assert_eq!(records[0].metadata.get("p95"), Some(&"12.5".to_string()));
}

#[test]
fn should_take_the_median_of_samples() {
    let numbers = |values: &[f64]| values.iter().map(|v| number(*v)).collect::<Vec<_>>();
    assert_eq!(median(Vec::new(), &compute), None);
    assert_eq!(
        median(numbers(&[3.0, 1.0, 2.0]), &compute).map(value),
        Some(2.0)
    );
    assert_eq!(
        median(numbers(&[4.0, 1.0, 3.0, 2.0]), &compute).map(value),
        Some(2.5)
    );
}

#[test]
fn should_know_the_metrics_of_stress_runs() {
    for (name, label, unit, direction) in [
        (
            "throughput",
            "throughput_ops_per_s",
            "ops/s",
            MetricDirection::HigherIsBetter,
        ),
        (
            "latency_p95",
            "latency_p95_ns",
            "ns",
            MetricDirection::LowerIsBetter,
        ),
        ("ns_per_op", "ns_per_op", "ns", MetricDirection::LowerIsBetter),
        (
            "allocs_per_op",
            "allocs_per_op",
            "allocs/op",
            MetricDirection::LowerIsBetter,
        ),
        (
            "bytes_per_op",
            "bytes_per_op",
            "B/op",
            MetricDirection::LowerIsBetter,
        ),
    ] {
        let metric: StressPrimaryMetric = metric_spec(name).expect("metric");
        assert_eq!(metric.name(), label);
        assert_eq!(metric.unit(), unit);
        assert_eq!(metric.metric_direction(), direction);
    }
    assert_eq!(metric_spec("latency"), None);
}

fn run_with_metric(metric: &str) -> StressRunFile {
    let ten = number(10.0);
    StressRunFile {
        schema_version: "cntryl-stress.v1".to_string(),
        suite: "suite".to_string(),
        run_profile: "release".to_string(),
        summaries: vec![StressSummary {
            benchmark_id: "suite/case".to_string(),
            name: "module::case".to_string(),
            tier: 1,
            primary_metric: metric.to_string(),
            measured_samples: 4,
            warmup_samples: 0,
            cooldown_samples: 0,
            stats: Some(StressStats {
                mean: ten,
                median: ten,
                min: ten,
                max: ten,
                std_dev: number(0.0),
                relative_std_dev: None,
                confidence_interval_95: StressConfidenceInterval {
                    lower: ten,
                    upper: ten,
                },
                p50: ten,
                p95: number(12.5),
                p99: ten,
            }),
            ns_per_op: None,
            overhead_ns_per_op: None,
            allocs_per_op: None,
            bytes_per_op: None,
            quality: "authoritative".to_string(),
            correctness: StressCorrectness {
                passed: true,
                counters: StressCorrectnessCounters {
                    attempted: 1,
                    completed: 1,
                    failures: 0,
                    timeouts: 0,
                    duplicates: 0,
                    dropped: 0,
                    validation_errors: 0,
                },
                errors: Vec::new(),
            },
            flags: Vec::new(),
            parameters: NameMap::new(),
            metadata: NameMap::new(),
        }],
        samples: vec![StressSample {
            benchmark_id: "suite/case".to_string(),
            phase: StressSamplePhase::Measured,
            elapsed_ns: number(3e9),
        }],
    }
}
