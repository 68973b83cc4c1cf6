//! Records of stress runs.

use vstd::prelude::*;

use super::super::classify::{classify_stability, stability_of};
use super::super::config::{StabilityThresholds, StressAdapterConfig, StressAdapterConfigView};
use super::super::model::{BenchmarkRecord, BenchmarkRecordView, MetricDirection};
use super::super::numbers::{
    arithmetic, computed, computes, notation, shown, writes, Arithmetic, Notation, Number,
    Operation, Style,
};
use super::super::report::{truth, truth_text};
use crate::copies::{option_view, Copied};
use crate::json::reading::{parse_json, text_member, text_member_of};
use crate::names::{entry, listed, NameMap};
use crate::order::{sort, sorted, sorted_is_permutation, Order};
use crate::seqs::{flat, keep, mapped, take_all, take_step, views};
use crate::text::{decimal, join, joined, number, pieces, same, split};

verus! {

broadcast use {vstd::std_specs::vec::group_vec_axioms, crate::seqs::group_views};

/// The schema of the files that stress runs are read from.
pub const STRESS_SCHEMA_VERSION: &'static str = "cntryl-stress.v1";

/// Takes records from stress runs.
pub struct StressAdapter;

impl StressAdapter {
    pub fn name(&self) -> (r: &'static str)
        ensures
            r@ == "stress"@,
    {
        "stress"
    }
}

/// A stress run.
pub struct StressRunFile {
    pub schema_version: String,
    pub suite: String,
    pub run_profile: String,
    pub summaries: Vec<StressSummary>,
    pub samples: Vec<StressSample>,
}

#[verifier::ext_equal]
pub struct StressRunFileView {
    pub schema_version: Seq<char>,
    pub suite: Seq<char>,
    pub run_profile: Seq<char>,
    pub summaries: Seq<StressSummaryView>,
    pub samples: Seq<StressSampleView>,
}

impl View for StressRunFile {
    type V = StressRunFileView;

    open spec fn view(&self) -> StressRunFileView {
        StressRunFileView {
            schema_version: self.schema_version@,
            suite: self.suite@,
            run_profile: self.run_profile@,
            summaries: views(self.summaries@),
            samples: views(self.samples@),
        }
    }
}

/// What a stress run found of a benchmark.
pub struct StressSummary {
    pub benchmark_id: String,
    pub name: String,
    pub tier: u32,
    pub primary_metric: String,
    pub measured_samples: usize,
    pub warmup_samples: usize,
    pub cooldown_samples: usize,
    pub stats: Option<StressStats>,
    pub ns_per_op: Option<StressStats>,
    pub overhead_ns_per_op: Option<StressStats>,
    pub allocs_per_op: Option<StressStats>,
    pub bytes_per_op: Option<StressStats>,
    pub quality: String,
    pub correctness: StressCorrectness,
    pub flags: Vec<String>,
    pub parameters: NameMap<String>,
    pub metadata: NameMap<String>,
}

#[verifier::ext_equal]
pub struct StressSummaryView {
    pub benchmark_id: Seq<char>,
    pub name: Seq<char>,
    pub tier: u32,
    pub primary_metric: Seq<char>,
    pub measured_samples: usize,
    pub warmup_samples: usize,
    pub cooldown_samples: usize,
    pub stats: Option<StressStats>,
    pub ns_per_op: Option<StressStats>,
    pub overhead_ns_per_op: Option<StressStats>,
    pub allocs_per_op: Option<StressStats>,
    pub bytes_per_op: Option<StressStats>,
    pub quality: Seq<char>,
    pub correctness: StressCorrectnessView,
    pub flags: Seq<Seq<char>>,
    pub parameters: Map<Seq<char>, Seq<char>>,
    pub metadata: Map<Seq<char>, Seq<char>>,
}

impl View for StressSummary {
    type V = StressSummaryView;

    open spec fn view(&self) -> StressSummaryView {
        StressSummaryView {
            benchmark_id: self.benchmark_id@,
            name: self.name@,
            tier: self.tier,
            primary_metric: self.primary_metric@,
            measured_samples: self.measured_samples,
            warmup_samples: self.warmup_samples,
            cooldown_samples: self.cooldown_samples,
            stats: self.stats,
            ns_per_op: self.ns_per_op,
            overhead_ns_per_op: self.overhead_ns_per_op,
            allocs_per_op: self.allocs_per_op,
            bytes_per_op: self.bytes_per_op,
            quality: self.quality@,
            correctness: self.correctness@,
            flags: views(self.flags@),
            parameters: self.parameters@,
            metadata: self.metadata@,
        }
    }
}

/// How the samples of a metric are spread.
#[derive(Debug, Clone, Copy, PartialEq, Eq, Structural)]
pub struct StressStats {
    pub mean: Number,
    pub median: Number,
    pub min: Number,
    pub max: Number,
    pub std_dev: Number,
    pub relative_std_dev: Option<Number>,
    pub confidence_interval_95: StressConfidenceInterval,
    pub p50: Number,
    pub p95: Number,
    pub p99: Number,
}

#[derive(Debug, Clone, Copy, PartialEq, Eq, Structural)]
pub struct StressConfidenceInterval {
    pub lower: Number,
    pub upper: Number,
}

/// Whether a benchmark did what it should.
pub struct StressCorrectness {
    pub passed: bool,
    pub counters: StressCorrectnessCounters,
    pub errors: Vec<String>,
}

#[verifier::ext_equal]
pub struct StressCorrectnessView {
    pub passed: bool,
    pub counters: StressCorrectnessCounters,
    pub errors: Seq<Seq<char>>,
}

impl View for StressCorrectness {
    type V = StressCorrectnessView;

    open spec fn view(&self) -> StressCorrectnessView {
        StressCorrectnessView {
            passed: self.passed,
            counters: self.counters,
            errors: views(self.errors@),
        }
    }
}

#[derive(Debug, Clone, Copy, PartialEq, Eq, Structural)]
pub struct StressCorrectnessCounters {
    pub attempted: u64,
    pub completed: u64,
    pub failures: u64,
    pub timeouts: u64,
    pub duplicates: u64,
    pub dropped: u64,
    pub validation_errors: u64,
}

/// One sample of a benchmark.
pub struct StressSample {
    pub benchmark_id: String,
    pub phase: StressSamplePhase,
    pub elapsed_ns: Number,
}

#[verifier::ext_equal]
pub struct StressSampleView {
    pub benchmark_id: Seq<char>,
    pub phase: StressSamplePhase,
    pub elapsed_ns: Number,
}

impl View for StressSample {
    type V = StressSampleView;

    open spec fn view(&self) -> StressSampleView {
        StressSampleView {
            benchmark_id: self.benchmark_id@,
            phase: self.phase,
            elapsed_ns: self.elapsed_ns,
        }
    }
}

#[derive(Debug, Clone, Copy, PartialEq, Eq, Structural)]
pub enum StressSamplePhase {
    Warmup,
    Measured,
    Cooldown,
}

pub open spec fn member_result(r: Result<Option<String>, String>) -> Result<
    Option<Seq<char>>,
    Seq<char>,
> {
    match r {
        Ok(found) => Ok(option_view(found)),
        Err(message) => Err(message@),
    }
}

/// The text of a member of the JSON object that a text is.
fn read_member(text: &str, key: &str) -> (r: Result<Option<String>, String>)
    ensures
        member_result(r) == text_member_of(text@, key@),
{
    match parse_json(text) {
        Ok(value) => Ok(text_member(&value, key)),
        Err(message) => Err(message),
    }
}

/// Why a file is not that of a stress run.
#[derive(Debug, Clone, PartialEq, Eq)]
pub enum StressFileError {
    /// The file is no JSON.
    Malformed(String),
    /// The file has another schema, or none.
    Unsupported(String),
}

/// What is said of a file with another schema.
pub open spec fn schema_message(path: Seq<char>, version: Option<Seq<char>>) -> Seq<char> {
    "unsupported stress schema in "@ + path + ": schema_version="@ + (match version {
        Some(text) => text,
        None => "missing"@,
    }) + "; expected "@ + STRESS_SCHEMA_VERSION@
}

/// Tells from what its schema says whether a file is that of a stress run.
pub fn accept_schema(member: Result<Option<String>, String>, path: &str) -> (r: Result<
    (),
    StressFileError,
>)
    ensures
        match member_result(member) {
            Err(message) => r matches Err(StressFileError::Malformed(cause)) && cause@ == message,
            Ok(version) => if version == Some(STRESS_SCHEMA_VERSION@) {
                r is Ok
            } else {
                r matches Err(StressFileError::Unsupported(message)) && message@ == schema_message(
                    path@,
                    version,
                )
            },
        },
{
    match member {
        Err(message) => Err(StressFileError::Malformed(message)),
        Ok(version) => {
            let found = match &version {
                Some(text) => text.as_str(),
                None => "missing",
            };
            if version.is_some() && same(found, STRESS_SCHEMA_VERSION) {
                return Ok(());
            }
            let mut message = "unsupported stress schema in ".to_owned();
            message.append(path);
            message.append(": schema_version=");
            message.append(found);
            message.append("; expected ");
            message.append(STRESS_SCHEMA_VERSION);
            Err(StressFileError::Unsupported(message))
        },
    }
}

/// Tells whether a text is the file of a stress run.
pub fn check_stress_file(text: &str, path: &str) -> (r: Result<(), StressFileError>)
    ensures
        match text_member_of(text@, "schema_version"@) {
            Err(message) => r matches Err(StressFileError::Malformed(cause)) && cause@ == message,
            Ok(version) => if version == Some(STRESS_SCHEMA_VERSION@) {
                r is Ok
            } else {
                r matches Err(StressFileError::Unsupported(message)) && message@ == schema_message(
                    path@,
                    version,
                )
            },
        },
{
    accept_schema(read_member(text, "schema_version"), path)
}

/// A metric that stress runs measure.
#[derive(Debug, Clone, Copy, PartialEq, Eq, Structural)]
pub enum StressPrimaryMetric {
    Throughput,
    LatencyP95,
    NsPerOp,
    AllocsPerOp,
    BytesPerOp,
}

impl StressPrimaryMetric {
    pub open spec fn label(self) -> Seq<char> {
        match self {
            StressPrimaryMetric::Throughput => "throughput_ops_per_s"@,
            StressPrimaryMetric::LatencyP95 => "latency_p95_ns"@,
            StressPrimaryMetric::NsPerOp => "ns_per_op"@,
            StressPrimaryMetric::AllocsPerOp => "allocs_per_op"@,
            StressPrimaryMetric::BytesPerOp => "bytes_per_op"@,
        }
    }

    pub open spec fn unit_word(self) -> Seq<char> {
        match self {
            StressPrimaryMetric::Throughput => "ops/s"@,
            StressPrimaryMetric::LatencyP95 => "ns"@,
            StressPrimaryMetric::NsPerOp => "ns"@,
            StressPrimaryMetric::AllocsPerOp => "allocs/op"@,
            StressPrimaryMetric::BytesPerOp => "B/op"@,
        }
    }

    pub open spec fn direction(self) -> MetricDirection {
        match self {
            StressPrimaryMetric::Throughput => MetricDirection::HigherIsBetter,
            _ => MetricDirection::LowerIsBetter,
        }
    }

    /// The name of the metric in records.
    pub fn name(&self) -> (r: &'static str)
        ensures
            r@ == self.label(),
    {
        match self {
            StressPrimaryMetric::Throughput => "throughput_ops_per_s",
            StressPrimaryMetric::LatencyP95 => "latency_p95_ns",
            StressPrimaryMetric::NsPerOp => "ns_per_op",
            StressPrimaryMetric::AllocsPerOp => "allocs_per_op",
            StressPrimaryMetric::BytesPerOp => "bytes_per_op",
        }
    }

    pub fn unit(&self) -> (r: &'static str)
        ensures
            r@ == self.unit_word(),
    {
        match self {
            StressPrimaryMetric::Throughput => "ops/s",
            StressPrimaryMetric::LatencyP95 => "ns",
            StressPrimaryMetric::NsPerOp => "ns",
            StressPrimaryMetric::AllocsPerOp => "allocs/op",
            StressPrimaryMetric::BytesPerOp => "B/op",
        }
    }

    pub fn metric_direction(&self) -> (r: MetricDirection)
        ensures
            r == self.direction(),
    {
        match self {
            StressPrimaryMetric::Throughput => MetricDirection::HigherIsBetter,
            _ => MetricDirection::LowerIsBetter,
        }
    }
}

/// The metric that a stress run calls by a name.
pub open spec fn metric_of(name: Seq<char>) -> Option<StressPrimaryMetric> {
    if name == "throughput"@ {
        Some(StressPrimaryMetric::Throughput)
    } else if name == "latency_p95"@ {
        Some(StressPrimaryMetric::LatencyP95)
    } else if name == "ns_per_op"@ {
        Some(StressPrimaryMetric::NsPerOp)
    } else if name == "allocs_per_op"@ {
        Some(StressPrimaryMetric::AllocsPerOp)
    } else if name == "bytes_per_op"@ {
        Some(StressPrimaryMetric::BytesPerOp)
    } else {
        None
    }
}

/// The metric that a stress run calls by a name.
pub fn metric_spec(name: &str) -> (r: Option<StressPrimaryMetric>)
    ensures
        r == metric_of(name@),
{
    if same(name, "throughput") {
        Some(StressPrimaryMetric::Throughput)
    } else if same(name, "latency_p95") {
        Some(StressPrimaryMetric::LatencyP95)
    } else if same(name, "ns_per_op") {
        Some(StressPrimaryMetric::NsPerOp)
    } else if same(name, "allocs_per_op") {
        Some(StressPrimaryMetric::AllocsPerOp)
    } else if same(name, "bytes_per_op") {
        Some(StressPrimaryMetric::BytesPerOp)
    } else {
        None
    }
}

/// What a metric takes of the statistics.
pub open spec fn metric_value(metric: StressPrimaryMetric, stats: StressStats) -> Number {
    match metric {
        StressPrimaryMetric::LatencyP95 => stats.p95,
        _ => stats.mean,
    }
}

/// Whether a value of a metric is one that can be.
pub open spec fn plausible(
    metric: StressPrimaryMetric,
    value: Number,
    config: StressAdapterConfigView,
) -> bool {
    &&& value.finite()
    &&& !value.negative()
    &&& value.zero() ==> (metric == StressPrimaryMetric::AllocsPerOp || metric
        == StressPrimaryMetric::BytesPerOp)
    &&& metric == StressPrimaryMetric::Throughput
        ==> !config.max_reasonable_throughput_ops_per_s.below(value)
}

fn is_plausible(metric: StressPrimaryMetric, value: Number, config: &StressAdapterConfig) -> (r:
    bool)
    ensures
        r == plausible(metric, value, config@),
{
    let allocation = match metric {
        StressPrimaryMetric::AllocsPerOp => true,
        StressPrimaryMetric::BytesPerOp => true,
        _ => false,
    };
    let throughput = match metric {
        StressPrimaryMetric::Throughput => true,
        _ => false,
    };
    value.is_finite() && !value.is_negative() && (!value.is_zero() || allocation) && (!throughput
        || !config.max_reasonable_throughput_ops_per_s.is_below(&value))
}

/// Orders numbers.
pub struct ByRank;

impl Order<Number> for ByRank {
    open spec fn before(a: Number, b: Number) -> bool {
        a.rank() < b.rank()
    }

    fn is_before(a: &Number, b: &Number) -> (r: bool) {
        a.ranks_below(b)
    }

    proof fn strict_weak(a: Number, b: Number, c: Number) {
    }
}

/// The number in the middle of some, or halfway between the two in the middle.
pub open spec fn median_of(values: Seq<Number>, arithmetic: Arithmetic) -> Option<Number> {
    let ordered = sorted::<Number, ByRank>(values);
    let middle = values.len() as int / 2;
    if values.len() == 0 {
        None
    } else if values.len() % 2 == 0 {
        Some(arithmetic(ordered[middle - 1], Operation::Midpoint, ordered[middle]))
    } else {
        Some(ordered[middle])
    }
}

proof fn number_views(values: Seq<Number>)
    ensures
        views(values) == values,
{
    assert(views(values) =~= values);
}

/// The number in the middle of some, or halfway between the two in the middle.
pub fn median<C: Fn(Number, Operation, Number) -> Number>(values: Vec<Number>, compute: &C) -> (r:
    Option<Number>)
    requires
        computes(*compute),
    ensures
        r == median_of(values@, arithmetic(*compute)),
{
    let n: usize = values.len();
    if n == 0 {
        return None;
    }
    proof {
        number_views(values@);
        sorted_is_permutation::<Number, ByRank>(values@);
    }
    let ordered = sort::<Number, ByRank>(values);
    proof {
        number_views(ordered@);
    }
    let middle: usize = n / 2;
    if n % 2 == 0 {
        Some(computed(compute, ordered[middle - 1], Operation::Midpoint, ordered[middle]))
    } else {
        Some(ordered[middle])
    }
}

/// How long the measured samples of a benchmark took.
pub open spec fn measured_times(samples: Seq<StressSampleView>, id: Seq<char>) -> Seq<Number> {
    mapped(
        keep(
            samples,
            |s: StressSampleView| s.phase == StressSamplePhase::Measured && s.benchmark_id == id,
        ),
        |s: StressSampleView| s.elapsed_ns,
    )
}

fn measured_elapsed<C: Fn(Number, Operation, Number) -> Number>(
    samples: &Vec<StressSample>,
    id: &str,
    compute: &C,
) -> (r: Option<Number>)
    requires
        computes(*compute),
    ensures
        r == median_of(measured_times(views(samples@), id@), arithmetic(*compute)),
{
    let ghost all = views(samples@);
    let ghost p = |s: StressSampleView|
        s.phase == StressSamplePhase::Measured && s.benchmark_id == id@;
    let ghost f = |s: StressSampleView| s.elapsed_ns;
    let mut times: Vec<Number> = Vec::new();
    let mut i: usize = 0;
    assert(times@ =~= mapped(keep(all.take(0), p), f));
    while i < samples.len()
        invariant
            all == views(samples@),
            p == (|s: StressSampleView|
                s.phase == StressSamplePhase::Measured && s.benchmark_id == id@),
            f == (|s: StressSampleView| s.elapsed_ns),
            i <= samples@.len(),
            times@ == mapped(keep(all.take(i as int), p), f),
        decreases samples@.len() - i,
    {
        proof {
            take_step(all, i as int);
        }
        let measured = match samples[i].phase {
            StressSamplePhase::Measured => true,
            _ => false,
        };
        if measured && same(samples[i].benchmark_id.as_str(), id) {
            times.push(samples[i].elapsed_ns);
        }
        i += 1;
        assert(times@ =~= mapped(keep(all.take(i as int), p), f));
    }
    proof {
        take_all(all);
    }
    median(times, compute)
}

/// The name of a benchmark's case: what stands behind the last module of its path.
pub open spec fn case_name(name: Seq<char>) -> Seq<char> {
    pieces(name, "::"@).last()
}

fn stress_case_name(name: &str) -> (r: String)
    ensures
        r@ == case_name(name@),
{
    proof {
        reveal_strlit("::");
    }
    let parts = split(name, "::");
    assert(views(parts@).len() > 0);
    let last: usize = parts.len() - 1;
    assert(views(parts@).last() == parts@[last as int]@);
    parts[last].clone()
}

/// The scenario that a benchmark was run in.
pub open spec fn scenario_of(summary: StressSummaryView) -> Option<Seq<char>> {
    match entry(summary.parameters, "scenario"@) {
        Some(text) => Some(text),
        None => entry(summary.metadata, "scenario"@),
    }
}

fn find_scenario(summary: &StressSummary) -> (r: Option<String>)
    ensures
        option_view(r) == scenario_of(summary@),
{
    match summary.parameters.get("scenario") {
        Some(text) => Some(text.clone()),
        None => match summary.metadata.get("scenario") {
            Some(text) => Some(text.clone()),
            None => None,
        },
    }
}

/// The parameters of a benchmark in its id, all but the scenario.
pub open spec fn parameter_words(parameters: Map<Seq<char>, Seq<char>>) -> Seq<Seq<char>> {
    flat(
        listed(parameters.dom()),
        |key: Seq<char>|
            if key == "scenario"@ {
                seq![]
            } else {
                seq![key + "="@ + parameters[key]]
            },
    )
}

/// The id of a record.
pub open spec fn record_name(
    summary: StressSummaryView,
    metric: Seq<char>,
    scenario: Option<Seq<char>>,
) -> Seq<char> {
    joined(
        seq![summary.benchmark_id, metric] + (match scenario {
            Some(text) => seq!["scenario="@ + text],
            None => seq![],
        }) + parameter_words(summary.parameters),
        "|"@,
    )
}

fn record_id(summary: &StressSummary, metric: &str, scenario: &Option<String>) -> (r: String)
    ensures
        r@ == record_name(summary@, metric@, option_view(*scenario)),
{
    let mut parts: Vec<String> = Vec::new();
    parts.push(summary.benchmark_id.clone());
    parts.push(metric.to_owned());
    match scenario {
        Some(text) => {
            let mut word = "scenario=".to_owned();
            word.append(text.as_str());
            parts.push(word);
        },
        None => {},
    }
    let ghost start = views(parts@);
    assert(start =~= seq![summary@.benchmark_id, metric@] + (match option_view(*scenario) {
        Some(text) => seq!["scenario="@ + text],
        None => seq![],
    }));
    let names = summary.parameters.names();
    let keys = names.as_vec();
    let ghost map = summary@.parameters;
    let ghost all = views(keys@);
    let ghost f = |key: Seq<char>|
        if key == "scenario"@ {
            seq![]
        } else {
            seq![key + "="@ + map[key]]
        };
    let mut i: usize = 0;
    assert(start =~= start + flat(all.take(0), f));
    while i < keys.len()
        invariant
            map == summary@.parameters,
            all == views(keys@),
            all.to_set() == map.dom(),
            f == (|key: Seq<char>|
                if key == "scenario"@ {
                    seq![]
                } else {
                    seq![key + "="@ + map[key]]
                }),
            i <= keys@.len(),
            views(parts@) == start + flat(all.take(i as int), f),
        decreases keys@.len() - i,
    {
        proof {
            take_step(all, i as int);
            assert(all.contains(all[i as int]));
            assert(map.dom().contains(all[i as int]));
        }
        let ghost before = views(parts@);
        let key = keys[i].as_str();
        if !same(key, "scenario") {
            match summary.parameters.get(key) {
                Some(value) => {
                    let mut word = key.to_owned();
                    word.append("=");
                    word.append(value.as_str());
                    parts.push(word);
                },
                None => {},
            }
        }
        assert(views(parts@) =~= before + f(all[i as int]));
        i += 1;
        assert(views(parts@) =~= start + flat(all.take(i as int), f));
    }
    proof {
        take_all(all);
    }
    join(&parts, "|")
}

/// Whether a benchmark can be relied on, in words.
pub open spec fn status_of(summary: StressSummaryView) -> Seq<char> {
    if summary.correctness.passed {
        summary.quality
    } else {
        "correctness_failed"@
    }
}

fn summary_status(summary: &StressSummary) -> (r: String)
    ensures
        r@ == status_of(summary@),
{
    if summary.correctness.passed {
        summary.quality.clone()
    } else {
        "correctness_failed".to_owned()
    }
}

/// What a benchmark was and how it was run.
pub open spec fn identity_metadata(
    run_profile: Seq<char>,
    summary: StressSummaryView,
    metric: Seq<char>,
) -> Map<Seq<char>, Seq<char>> {
    Map::<Seq<char>, Seq<char>>::empty().insert("benchmark_id"@, summary.benchmark_id).insert(
        "name"@,
        summary.name,
    ).insert("tier"@, decimal(summary.tier as nat)).insert(
        "primary_metric"@,
        summary.primary_metric,
    ).insert("record_metric"@, metric).insert("quality"@, summary.quality).insert(
        "run_profile"@,
        run_profile,
    ).insert("measured_samples"@, decimal(summary.measured_samples as nat)).insert(
        "warmup_samples"@,
        decimal(summary.warmup_samples as nat),
    ).insert("cooldown_samples"@, decimal(summary.cooldown_samples as nat)).insert(
        "correctness_passed"@,
        truth_text(summary.correctness.passed),
    ).insert("correctness_errors"@, joined(summary.correctness.errors, ","@))
}

/// With the statistics of the samples.
pub open spec fn with_stats(
    map: Map<Seq<char>, Seq<char>>,
    stats: StressStats,
    notation: Notation,
) -> Map<Seq<char>, Seq<char>> {
    map.insert("stats_mean"@, notation(stats.mean, Style::Shortest)).insert(
        "stats_median"@,
        notation(stats.median, Style::Shortest),
    ).insert("stats_min"@, notation(stats.min, Style::Shortest)).insert(
        "stats_max"@,
        notation(stats.max, Style::Shortest),
    ).insert("stats_std_dev"@, notation(stats.std_dev, Style::Shortest)).insert(
        "stats_relative_std_dev"@,
        match stats.relative_std_dev {
            Some(value) => notation(value, Style::Shortest),
            None => "null"@,
        },
    ).insert("ci95_lower"@, notation(stats.confidence_interval_95.lower, Style::Shortest)).insert(
        "ci95_upper"@,
        notation(stats.confidence_interval_95.upper, Style::Shortest),
    ).insert("p50"@, notation(stats.p50, Style::Shortest)).insert(
        "p95"@,
        notation(stats.p95, Style::Shortest),
    ).insert("p99"@, notation(stats.p99, Style::Shortest))
}

/// With the counts of what went right and wrong.
pub open spec fn with_counters(
    map: Map<Seq<char>, Seq<char>>,
    counters: StressCorrectnessCounters,
) -> Map<Seq<char>, Seq<char>> {
    map.insert("correctness_attempted"@, decimal(counters.attempted as nat)).insert(
        "correctness_completed"@,
        decimal(counters.completed as nat),
    ).insert("correctness_failures"@, decimal(counters.failures as nat)).insert(
        "correctness_timeouts"@,
        decimal(counters.timeouts as nat),
    ).insert("correctness_duplicates"@, decimal(counters.duplicates as nat)).insert(
        "correctness_dropped"@,
        decimal(counters.dropped as nat),
    ).insert("correctness_validation_errors"@, decimal(counters.validation_errors as nat))
}

/// With a value under a key, where there is one.
pub open spec fn with_optional(
    map: Map<Seq<char>, Seq<char>>,
    key: Seq<char>,
    value: Option<Seq<char>>,
) -> Map<Seq<char>, Seq<char>> {
    match value {
        Some(text) => map.insert(key, text),
        None => map,
    }
}

/// A number in full, where there is one.
pub open spec fn full_text(value: Option<Number>, notation: Notation) -> Option<Seq<char>> {
    match value {
        Some(number) => Some(notation(number, Style::Shortest)),
        None => None,
    }
}

/// What is kept of a summary besides the value.
pub open spec fn metadata_of(
    run_profile: Seq<char>,
    summary: StressSummaryView,
    stats: StressStats,
    metric: Seq<char>,
    elapsed: Option<Number>,
    notation: Notation,
) -> Map<Seq<char>, Seq<char>> {
    let base = with_stats(identity_metadata(run_profile, summary, metric), stats, notation);
    let flagged = with_optional(
        base,
        "flags"@,
        if summary.flags.len() > 0 {
            Some(joined(summary.flags, ","@))
        } else {
            None
        },
    );
    let overhead = match summary.overhead_ns_per_op {
        Some(stats) => Some(stats.mean),
        None => None,
    };
    let timed = with_optional(
        with_optional(flagged, "overhead_ns_per_op_mean"@, full_text(overhead, notation)),
        "median_sample_elapsed_ns"@,
        full_text(elapsed, notation),
    );
    with_counters(timed, summary.correctness.counters)
}

fn put(map: &mut NameMap<String>, key: &str, value: String)
    ensures
        final(map)@ == old(map)@.insert(key@, value@),
{
    map.insert(key.to_owned(), value);
}

fn put_number<S: Fn(Number, Style) -> String>(
    map: &mut NameMap<String>,
    key: &str,
    value: Number,
    show: &S,
)
    requires
        writes(*show),
    ensures
        final(map)@ == old(map)@.insert(key@, notation(*show)(value, Style::Shortest)),
{
    map.insert(key.to_owned(), shown(show, value, Style::Shortest));
}

fn put_optional<S: Fn(Number, Style) -> String>(
    map: &mut NameMap<String>,
    key: &str,
    value: Option<Number>,
    show: &S,
)
    requires
        writes(*show),
    ensures
        final(map)@ == with_optional(old(map)@, key@, full_text(value, notation(*show))),
{
    match value {
        Some(number) => {
            put_number(map, key, number, show);
        },
        None => {},
    }
}

fn put_identity(
    map: &mut NameMap<String>,
    run_profile: &str,
    summary: &StressSummary,
    metric: &str,
)
    requires
        old(map)@ == Map::<Seq<char>, Seq<char>>::empty(),
    ensures
        final(map)@ == identity_metadata(run_profile@, summary@, metric@),
{
    put(map, "benchmark_id", summary.benchmark_id.clone());
    put(map, "name", summary.name.clone());
    put(map, "tier", number(summary.tier as u64));
    put(map, "primary_metric", summary.primary_metric.clone());
    put(map, "record_metric", metric.to_owned());
    put(map, "quality", summary.quality.clone());
    put(map, "run_profile", run_profile.to_owned());
    put(map, "measured_samples", number(summary.measured_samples as u64));
    put(map, "warmup_samples", number(summary.warmup_samples as u64));
    put(map, "cooldown_samples", number(summary.cooldown_samples as u64));
    put(map, "correctness_passed", truth(summary.correctness.passed));
    put(map, "correctness_errors", join(&summary.correctness.errors, ","));
}

fn put_stats<S: Fn(Number, Style) -> String>(
    map: &mut NameMap<String>,
    stats: &StressStats,
    show: &S,
)
    requires
        writes(*show),
    ensures
        final(map)@ == with_stats(old(map)@, *stats, notation(*show)),
{
    put_number(map, "stats_mean", stats.mean, show);
    put_number(map, "stats_median", stats.median, show);
    put_number(map, "stats_min", stats.min, show);
    put_number(map, "stats_max", stats.max, show);
    put_number(map, "stats_std_dev", stats.std_dev, show);
    match stats.relative_std_dev {
        Some(value) => put_number(map, "stats_relative_std_dev", value, show),
        None => put(map, "stats_relative_std_dev", "null".to_owned()),
    }
    put_number(map, "ci95_lower", stats.confidence_interval_95.lower, show);
    put_number(map, "ci95_upper", stats.confidence_interval_95.upper, show);
    put_number(map, "p50", stats.p50, show);
    put_number(map, "p95", stats.p95, show);
    put_number(map, "p99", stats.p99, show);
}

fn put_counters(map: &mut NameMap<String>, counters: &StressCorrectnessCounters)
    ensures
        final(map)@ == with_counters(old(map)@, *counters),
{
    put(map, "correctness_attempted", number(counters.attempted));
    put(map, "correctness_completed", number(counters.completed));
    put(map, "correctness_failures", number(counters.failures));
    put(map, "correctness_timeouts", number(counters.timeouts));
    put(map, "correctness_duplicates", number(counters.duplicates));
    put(map, "correctness_dropped", number(counters.dropped));
    put(map, "correctness_validation_errors", number(counters.validation_errors));
}

fn summary_metadata<S: Fn(Number, Style) -> String>(
    run_profile: &str,
    summary: &StressSummary,
    stats: &StressStats,
    metric: &str,
    elapsed: Option<Number>,
    show: &S,
) -> (r: NameMap<String>)
    requires
        writes(*show),
    ensures
        r@ == metadata_of(run_profile@, summary@, *stats, metric@, elapsed, notation(*show)),
{
    let mut map: NameMap<String> = NameMap::new();
    put_identity(&mut map, run_profile, summary, metric);
    put_stats(&mut map, stats, show);
    if summary.flags.len() > 0 {
        put(&mut map, "flags", join(&summary.flags, ","));
    }
    let overhead = match &summary.overhead_ns_per_op {
        Some(stats) => Some(stats.mean),
        None => None,
    };
    put_optional(&mut map, "overhead_ns_per_op_mean", overhead, show);
    put_optional(&mut map, "median_sample_elapsed_ns", elapsed, show);
    put_counters(&mut map, &summary.correctness.counters);
    map
}

/// With the members of another map for some keys, their keys prefixed.
pub open spec fn with_prefixed(
    map: Map<Seq<char>, Seq<char>>,
    other: Map<Seq<char>, Seq<char>>,
    keys: Seq<Seq<char>>,
) -> Map<Seq<char>, Seq<char>>
    decreases keys.len(),
{
    if keys.len() == 0 {
        map
    } else {
        with_prefixed(map, other, keys.drop_last()).insert(
            "stress_metadata_"@ + keys.last(),
            other[keys.last()],
        )
    }
}

fn put_prefixed(map: &mut NameMap<String>, other: &NameMap<String>)
    ensures
        final(map)@ == with_prefixed(old(map)@, other@, listed(other@.dom())),
{
    let names = other.names();
    let keys = names.as_vec();
    let ghost before = map@;
    let ghost all = views(keys@);
    let mut i: usize = 0;
    while i < keys.len()
        invariant
            all == views(keys@),
            all.to_set() == other@.dom(),
            i <= keys@.len(),
            map@ == with_prefixed(before, other@, all.take(i as int)),
        decreases keys@.len() - i,
    {
        proof {
            take_step(all, i as int);
            assert(all.contains(all[i as int]));
            assert(other@.dom().contains(all[i as int]));
        }
        match other.get(keys[i].as_str()) {
            Some(value) => {
                let mut key = "stress_metadata_".to_owned();
                key.append(keys[i].as_str());
                map.insert(key, value.clone());
            },
            None => {},
        }
        i += 1;
    }
    proof {
        take_all(all);
    }
}

/// The metadata of a record: what is kept of the summary, whether it was long enough and
/// had enough samples, and what the run says of itself.
pub open spec fn record_metadata(
    run_profile: Seq<char>,
    summary: StressSummaryView,
    stats: StressStats,
    metric: Seq<char>,
    elapsed: Option<Number>,
    config: StressAdapterConfigView,
    notation: Notation,
) -> Map<Seq<char>, Seq<char>> {
    let base = metadata_of(run_profile, summary, stats, metric, elapsed, notation).insert(
        "meets_sample_floor"@,
        truth_text(summary.measured_samples >= config.authoritative_min_samples),
    );
    let floored = with_optional(
        base,
        "meets_runtime_floor"@,
        match elapsed {
            Some(time) => Some(truth_text(config.min_reasonable_duration_ns.at_most(time))),
            None => None,
        },
    );
    with_prefixed(floored, summary.metadata, listed(summary.metadata.dom()))
}

/// The record of a metric of a summary, where its value is one that can be.
pub open spec fn stats_record(
    run: StressRunFileView,
    summary: StressSummaryView,
    metric: StressPrimaryMetric,
    stats: StressStats,
    source_file: Seq<char>,
    config: StressAdapterConfigView,
    thresholds: StabilityThresholds,
    arithmetic: Arithmetic,
    notation: Notation,
) -> Option<BenchmarkRecordView> {
    let value = metric_value(metric, stats);
    let elapsed = median_of(measured_times(run.samples, summary.benchmark_id), arithmetic);
    if !plausible(metric, value, config) {
        None
    } else {
        Some(
            BenchmarkRecordView {
                id: record_name(summary, metric.label(), scenario_of(summary)),
                adapter: "stress"@,
                suite: run.suite,
                case: case_name(summary.name),
                scenario: scenario_of(summary),
                metric: metric.label(),
                unit: metric.unit_word(),
                value,
                lower_bound: Some(stats.min),
                upper_bound: Some(stats.max),
                samples: Some(summary.measured_samples),
                metric_direction: metric.direction(),
                stability: Some(stability_of(stats.relative_std_dev, thresholds)),
                status: Some(status_of(summary)),
                rel_stddev: stats.relative_std_dev,
                tags: summary.parameters,
                metadata: record_metadata(
                    run.run_profile,
                    summary,
                    stats,
                    metric.label(),
                    elapsed,
                    config,
                    notation,
                ),
                source_file,
            },
        )
    }
}

fn record_from_stats<C, S>(
    run: &StressRunFile,
    summary: &StressSummary,
    metric: StressPrimaryMetric,
    stats: &StressStats,
    source_file: &str,
    config: &StressAdapterConfig,
    thresholds: &StabilityThresholds,
    compute: &C,
    show: &S,
) -> (r: Option<BenchmarkRecord>) where
    C: Fn(Number, Operation, Number) -> Number,
    S: Fn(Number, Style) -> String,

    requires
        computes(*compute),
        writes(*show),
    ensures
        option_view(r) == stats_record(
            run@,
            summary@,
            metric,
            *stats,
            source_file@,
            config@,
            *thresholds,
            arithmetic(*compute),
            notation(*show),
        ),
{
    let value = match metric {
        StressPrimaryMetric::LatencyP95 => stats.p95,
        _ => stats.mean,
    };
    if !is_plausible(metric, value, config) {
        return None;
    }
    let elapsed = measured_elapsed(&run.samples, summary.benchmark_id.as_str(), compute);
    let scenario = find_scenario(summary);
    let mut metadata = summary_metadata(
        run.run_profile.as_str(),
        summary,
        stats,
        metric.name(),
        elapsed,
        show,
    );
    put(
        &mut metadata,
        "meets_sample_floor",
        truth(summary.measured_samples >= config.authoritative_min_samples),
    );
    match elapsed {
        Some(time) => {
            put(
                &mut metadata,
                "meets_runtime_floor",
                truth(config.min_reasonable_duration_ns.is_at_most(&time)),
            );
        },
        None => {},
    }
    put_prefixed(&mut metadata, &summary.metadata);
    Some(
        BenchmarkRecord {
            id: record_id(summary, metric.name(), &scenario),
            adapter: "stress".to_owned(),
            suite: run.suite.clone(),
            case: stress_case_name(summary.name.as_str()),
            scenario,
            metric: metric.name().to_owned(),
            unit: metric.unit().to_owned(),
            value,
            lower_bound: Some(stats.min),
            upper_bound: Some(stats.max),
            samples: Some(summary.measured_samples),
            metric_direction: metric.metric_direction(),
            stability: Some(classify_stability(stats.relative_std_dev, thresholds)),
            status: Some(summary_status(summary)),
            rel_stddev: stats.relative_std_dev,
            tags: summary.parameters.copied(),
            metadata,
            source_file: source_file.to_owned(),
        },
    )
}

/// A value as a sequence of none or one.
pub open spec fn none_or_one<A>(value: Option<A>) -> Seq<A> {
    match value {
        Some(x) => seq![x],
        None => seq![],
    }
}

/// The record of a metric that a summary has besides its primary one, as a sequence of
/// none or one.
pub open spec fn extra_record(
    run: StressRunFileView,
    summary: StressSummaryView,
    metric: StressPrimaryMetric,
    stats: Option<StressStats>,
    source_file: Seq<char>,
    config: StressAdapterConfigView,
    thresholds: StabilityThresholds,
    arithmetic: Arithmetic,
    notation: Notation,
) -> Seq<BenchmarkRecordView> {
    match stats {
        Some(known) => if summary.primary_metric == metric.label() {
            seq![]
        } else {
            none_or_one(
                stats_record(
                    run,
                    summary,
                    metric,
                    known,
                    source_file,
                    config,
                    thresholds,
                    arithmetic,
                    notation,
                ),
            )
        },
        None => seq![],
    }
}

/// The records of a summary, or why it has none.
pub open spec fn summary_records(
    run: StressRunFileView,
    summary: StressSummaryView,
    source_file: Seq<char>,
    config: StressAdapterConfigView,
    thresholds: StabilityThresholds,
    arithmetic: Arithmetic,
    notation: Notation,
) -> Result<Seq<BenchmarkRecordView>, Seq<char>> {
    let extra = |metric: StressPrimaryMetric, stats: Option<StressStats>|
        extra_record(
            run,
            summary,
            metric,
            stats,
            source_file,
            config,
            thresholds,
            arithmetic,
            notation,
        );
    let extras = extra(StressPrimaryMetric::NsPerOp, summary.ns_per_op) + extra(
        StressPrimaryMetric::AllocsPerOp,
        summary.allocs_per_op,
    ) + extra(StressPrimaryMetric::BytesPerOp, summary.bytes_per_op);
    match summary.stats {
        None => Ok(extras),
        Some(stats) => match metric_of(summary.primary_metric) {
            None => Err(unknown_metric(summary.primary_metric)),
            Some(metric) => Ok(
                none_or_one(
                    stats_record(
                        run,
                        summary,
                        metric,
                        stats,
                        source_file,
                        config,
                        thresholds,
                        arithmetic,
                        notation,
                    ),
                ) + extras,
            ),
        },
    }
}

pub open spec fn unknown_metric(name: Seq<char>) -> Seq<char> {
    "unknown stress primary metric '"@ + name + "'"@
}

fn push_extra_record<C, S>(
    records: &mut Vec<BenchmarkRecord>,
    run: &StressRunFile,
    summary: &StressSummary,
    metric: StressPrimaryMetric,
    stats: &Option<StressStats>,
    source_file: &str,
    config: &StressAdapterConfig,
    thresholds: &StabilityThresholds,
    compute: &C,
    show: &S,
) where C: Fn(Number, Operation, Number) -> Number, S: Fn(Number, Style) -> String
    requires
        computes(*compute),
        writes(*show),
    ensures
        views(final(records)@) == views(old(records)@) + extra_record(
            run@,
            summary@,
            metric,
            *stats,
            source_file@,
            config@,
            *thresholds,
            arithmetic(*compute),
            notation(*show),
        ),
{
    let ghost before = views(records@);
    match stats {
        Some(known) => {
            if !same(summary.primary_metric.as_str(), metric.name()) {
                match record_from_stats(
                    run,
                    summary,
                    metric,
                    known,
                    source_file,
                    config,
                    thresholds,
                    compute,
                    show,
                ) {
                    Some(record) => {
                        records.push(record);
                    },
                    None => {},
                }
            }
        },
        None => {},
    }
    assert(views(records@) =~= before + extra_record(
        run@,
        summary@,
        metric,
        *stats,
        source_file@,
        config@,
        *thresholds,
        arithmetic(*compute),
        notation(*show),
    ));
}

fn records_from_summary<C, S>(
    run: &StressRunFile,
    summary: &StressSummary,
    source_file: &str,
    config: &StressAdapterConfig,
    thresholds: &StabilityThresholds,
    compute: &C,
    show: &S,
) -> (r: Result<Vec<BenchmarkRecord>, String>) where
    C: Fn(Number, Operation, Number) -> Number,
    S: Fn(Number, Style) -> String,

    requires
        computes(*compute),
        writes(*show),
    ensures
        records_result(r) == summary_records(
            run@,
            summary@,
            source_file@,
            config@,
            *thresholds,
            arithmetic(*compute),
            notation(*show),
        ),
{
    let mut records: Vec<BenchmarkRecord> = Vec::new();
    match &summary.stats {
        Some(stats) => match metric_spec(summary.primary_metric.as_str()) {
            None => {
                let mut message = "unknown stress primary metric '".to_owned();
                message.append(summary.primary_metric.as_str());
                message.append("'");
                return Err(message);
            },
            Some(metric) => match record_from_stats(
                run,
                summary,
                metric,
                stats,
                source_file,
                config,
                thresholds,
                compute,
                show,
            ) {
                Some(record) => {
                    records.push(record);
                },
                None => {},
            },
        },
        None => {},
    }
    let ghost start = views(records@);
    push_extra_record(
        &mut records,
        run,
        summary,
        StressPrimaryMetric::NsPerOp,
        &summary.ns_per_op,
        source_file,
        config,
        thresholds,
        compute,
        show,
    );
    push_extra_record(
        &mut records,
        run,
        summary,
        StressPrimaryMetric::AllocsPerOp,
        &summary.allocs_per_op,
        source_file,
        config,
        thresholds,
        compute,
        show,
    );
    push_extra_record(
        &mut records,
        run,
        summary,
        StressPrimaryMetric::BytesPerOp,
        &summary.bytes_per_op,
        source_file,
        config,
        thresholds,
        compute,
        show,
    );
    proof {
        let wanted = summary_records(
            run@,
            summary@,
            source_file@,
            config@,
            *thresholds,
            arithmetic(*compute),
            notation(*show),
        );
        assert(views(records@) =~= wanted->Ok_0);
    }
    Ok(records)
}

pub open spec fn records_result(r: Result<Vec<BenchmarkRecord>, String>) -> Result<
    Seq<BenchmarkRecordView>,
    Seq<char>,
> {
    match r {
        Ok(records) => Ok(views(records@)),
        Err(message) => Err(message@),
    }
}

/// The records of some summaries, or why the first that has none has none.
pub open spec fn all_records(
    run: StressRunFileView,
    summaries: Seq<StressSummaryView>,
    source_file: Seq<char>,
    config: StressAdapterConfigView,
    thresholds: StabilityThresholds,
    arithmetic: Arithmetic,
    notation: Notation,
) -> Result<Seq<BenchmarkRecordView>, Seq<char>>
    decreases summaries.len(),
{
    if summaries.len() == 0 {
        Ok(seq![])
    } else {
        match all_records(
            run,
            summaries.drop_last(),
            source_file,
            config,
            thresholds,
            arithmetic,
            notation,
        ) {
            Err(message) => Err(message),
            Ok(known) => match summary_records(
                run,
                summaries.last(),
                source_file,
                config,
                thresholds,
                arithmetic,
                notation,
            ) {
                Err(message) => Err(message),
                Ok(more) => Ok(known + more),
            },
        }
    }
}

proof fn failure_stays(
    run: StressRunFileView,
    summaries: Seq<StressSummaryView>,
    n: int,
    source_file: Seq<char>,
    config: StressAdapterConfigView,
    thresholds: StabilityThresholds,
    arithmetic: Arithmetic,
    notation: Notation,
)
    requires
        0 <= n <= summaries.len(),
        all_records(
            run,
            summaries.take(n),
            source_file,
            config,
            thresholds,
            arithmetic,
            notation,
        ) is Err,
    ensures
        all_records(run, summaries, source_file, config, thresholds, arithmetic, notation)
            == all_records(
            run,
            summaries.take(n),
            source_file,
            config,
            thresholds,
            arithmetic,
            notation,
        ),
    decreases summaries.len(),
{
    if n == summaries.len() {
        take_all(summaries);
    } else {
        assert(summaries.drop_last().take(n) =~= summaries.take(n));
        failure_stays(
            run,
            summaries.drop_last(),
            n,
            source_file,
            config,
            thresholds,
            arithmetic,
            notation,
        );
    }
}

/// What is said of a run with another schema.
pub open spec fn run_schema_message(run: StressRunFileView, path: Seq<char>) -> Seq<char> {
    "unsupported stress schema '"@ + run.schema_version + "' in "@ + path + "; expected "@
        + STRESS_SCHEMA_VERSION@
}

/// The records of a stress run.
pub fn records_from_stress_run<C, S>(
    run: &StressRunFile,
    source_file: &str,
    config: &StressAdapterConfig,
    thresholds: &StabilityThresholds,
    compute: &C,
    show: &S,
) -> (r: Result<Vec<BenchmarkRecord>, String>) where
    C: Fn(Number, Operation, Number) -> Number,
    S: Fn(Number, Style) -> String,

    requires
        computes(*compute),
        writes(*show),
    ensures
        records_result(r) == (if run@.schema_version != STRESS_SCHEMA_VERSION@ {
            Err(run_schema_message(run@, source_file@))
        } else {
            all_records(
                run@,
                run@.summaries,
                source_file@,
                config@,
                *thresholds,
                arithmetic(*compute),
                notation(*show),
            )
        }),
{
    if !same(run.schema_version.as_str(), STRESS_SCHEMA_VERSION) {
        let mut message = "unsupported stress schema '".to_owned();
        message.append(run.schema_version.as_str());
        message.append("' in ");
        message.append(source_file);
        message.append("; expected ");
        message.append(STRESS_SCHEMA_VERSION);
        return Err(message);
    }
    let ghost all = run@.summaries;
    let mut records: Vec<BenchmarkRecord> = Vec::new();
    let mut i: usize = 0;
    while i < run.summaries.len()
        invariant
            computes(*compute),
            writes(*show),
            run@.schema_version == STRESS_SCHEMA_VERSION@,
            all == run@.summaries,
            i <= run.summaries@.len(),
            all_records(
                run@,
                all.take(i as int),
                source_file@,
                config@,
                *thresholds,
                arithmetic(*compute),
                notation(*show),
            ) == Ok::<Seq<BenchmarkRecordView>, Seq<char>>(views(records@)),
        decreases run.summaries@.len() - i,
    {
        proof {
            take_step(all, i as int);
        }
        match records_from_summary(
            run,
            &run.summaries[i],
            source_file,
            config,
            thresholds,
            compute,
            show,
        ) {
            Ok(mut more) => {
                records.append(&mut more);
            },
            Err(message) => {
                proof {
                    failure_stays(
                        run@,
                        all,
                        i as int + 1,
                        source_file@,
                        config@,
                        *thresholds,
                        arithmetic(*compute),
                        notation(*show),
                    );
                }
                return Err(message);
            },
        }
        i += 1;
    }
    proof {
        take_all(all);
    }
    Ok(records)
}

} // verus!
