use cntryl_tools::names::NameMap;
use cntryl_tools::summarize_benchmarks::config::BenchSummaryConfig;
use cntryl_tools::summarize_benchmarks::model::{BenchmarkRecord, MetricDirection};
use cntryl_tools::summarize_benchmarks::numbers::{Number, Operation};
use cntryl_tools::summarize_benchmarks::sweep::{detect_sweep_groups, parse_numeric_token};

fn number(value: f64) -> Number {
    Number {
        bits: value.to_bits(),
    }
}

fn value(number: Number) -> f64 {
    f64::from_bits(number.bits)
}

fn compute(a: Number, operation: Operation, b: Number) -> Number {
    let (a, b) = (value(a), value(b));
    number(match operation {
        Operation::Difference => a - b,
        Operation::Ratio => a / b,
        Operation::Product => a * b,
        Operation::Midpoint => f64::midpoint(a, b),
    })
}

fn read(text: String) -> Option<Number> {
    text.parse::<f64>().ok().map(number)
}

fn config() -> BenchSummaryConfig {
    BenchSummaryConfig::for_root(".", "cntryl", "Cntryl Benchmark Report").expect("configuration")
}

fn record(case: &str, scenario: &str, value: f64, tags: &[(&str, &str)]) -> BenchmarkRecord {
    let mut named = NameMap::new();
    for (key, value) in tags {
        named.insert(key.to_string(), value.to_string());
    }
    BenchmarkRecord {
        id: format!("stress|{case}|{scenario}"),
        adapter: "stress".to_string(),
        suite: "tier3-system-rpc".to_string(),
        case: case.to_string(),
        scenario: Some(scenario.to_string()),
        metric: "throughput_ops_per_s".to_string(),
        unit: "ops/s".to_string(),
        value: number(value),
        lower_bound: None,
        upper_bound: None,
        samples: Some(5),
        metric_direction: MetricDirection::HigherIsBetter,
        stability: Some("stable".to_string()),
        status: Some("authoritative".to_string()),
        rel_stddev: Some(number(0.0)),
        tags: named,
        metadata: NameMap::new(),
        source_file: "target/stress/test/latest.json".to_string(),
    }
}

#[test]
fn should_detect_sweep_groups_from_subscriber_count_tags() {
    // Arrange
    let config = config();
    let records = vec![
        record(
            "notice::fanout_16",
            "fanout_subscriber_scaling",
            1000.0,
            &[
                ("subscriber_count", "16"),
                ("measurement_scope", "routed_fanout"),
                ("match_kind", "single_star"),
            ],
        ),
        record(
            "notice::fanout_64",
            "fanout_subscriber_scaling",
            750.0,
            &[
                ("subscriber_count", "64"),
                ("measurement_scope", "routed_fanout"),
                ("match_kind", "single_star"),
            ],
        ),
    ];

    // Act
    let groups = detect_sweep_groups(&records, &config, &compute, &read);

    // Assert
    assert_eq!(groups.len(), 1);
    assert!(groups[0].title.contains("subscriber_count"));
    assert_eq!(groups[0].points[0].parameter_label, "16");
    assert_eq!(groups[0].points[1].parameter_label, "64");
}

#[test]
fn should_keep_dispatch_and_roundtrip_scaling_sweeps_separate() {
    // Arrange
    let config = config();
    let records = vec![
        record("rpc::dispatch_64", "scaling_64_dispatch_only", 1200.0, &[]),
        record("rpc::dispatch_256", "scaling_256_dispatch_only", 900.0, &[]),
        record("rpc::roundtrip_64", "scaling_64_full_roundtrip", 800.0, &[]),
        record(
            "rpc::roundtrip_256",
            "scaling_256_full_roundtrip",
            600.0,
            &[],
        ),
    ];

    // Act
    let groups = detect_sweep_groups(&records, &config, &compute, &read);

    // Assert
    assert_eq!(groups.len(), 2);
    assert!(groups
        .iter()
        .any(|group| group.title.contains("dispatch_only")));
    assert!(groups
        .iter()
        .any(|group| group.title.contains("full_roundtrip")));
    assert!(groups.iter().all(|group| group.points.len() == 2));
}

#[test]
fn should_detect_sweep_groups_from_pending_count_tags() {
    // Arrange
    let config = config();
    let records = vec![
        record(
            "rpc::pending_64",
            "pending_cardinality_steady_state",
            1200.0,
            &[
                ("pending_count", "64"),
                ("measurement_scope", "routed_pending"),
            ],
        ),
        record(
            "rpc::pending_256",
            "pending_cardinality_steady_state",
            900.0,
            &[
                ("pending_count", "256"),
                ("measurement_scope", "routed_pending"),
            ],
        ),
    ];

    // Act
    let groups = detect_sweep_groups(&records, &config, &compute, &read);

    // Assert
    assert_eq!(groups.len(), 1);
    assert!(groups[0].title.contains("pending_count"));
    assert_eq!(groups[0].points[0].parameter_label, "64");
    assert_eq!(groups[0].points[1].parameter_label, "256");
}

#[test]
fn should_order_points_by_value_and_tell_changes() {
    // Arrange
    let config = config();
    let records = vec![
        record("a", "s", 50.0, &[("payload_size", "1mb"), ("layer", "net")]),
        record("b", "s", 100.0, &[("payload_size", "4KB"), ("layer", "net")]),
    ];

    // Act
    let groups = detect_sweep_groups(&records, &config, &compute, &read);

    // Assert
    assert_eq!(groups.len(), 1);
    assert_eq!(
        groups[0].title,
        "stress / tier3-system-rpc / s [layer=net] (payload_size, throughput_ops_per_s)"
    );
    assert_eq!(groups[0].points[0].parameter_label, "4KB");
    assert_eq!(value(groups[0].points[0].parameter_value), 4096.0);
    assert_eq!(groups[0].points[0].delta_vs_previous_pct, None);
    assert_eq!(
        groups[0].points[1].delta_vs_previous_pct.map(value),
        Some(-50.0)
    );
}

#[test]
fn should_not_group_a_single_point() {
    let config = config();
    let records = vec![record("a", "clients_8_write", 1.0, &[])];
    assert!(detect_sweep_groups(&records, &config, &compute, &read).is_empty());
}

#[test]
fn should_fall_back_to_the_prefix_of_a_name_without_a_family() {
    let config = config();
    let records = vec![
        record("a", "Clients_8", 1.0, &[]),
        record("b", "Clients_16", 1.0, &[]),
    ];
    let groups = detect_sweep_groups(&records, &config, &compute, &read);
    assert_eq!(
        groups[0].title,
        "stress / tier3-system-rpc / clients (concurrency, throughput_ops_per_s)"
    );
}

#[test]
fn should_read_numbers_with_units() {
    for (label, expected) in [
        ("64", Some(64.0)),
        (" 16kb", Some(16384.0)),
        ("2MB", Some(2097152.0)),
        ("8b", Some(8.0)),
        ("3k", Some(3000.0)),
        ("1.5m", Some(1500000.0)),
        ("7 items", Some(7.0)),
        ("", None),
        ("many", None),
        ("-1", None),
    ] {
        assert_eq!(
            parse_numeric_token(label, &compute, &read).map(value),
            expected,
            "{label}"
        );
    }
}
