//! Benchmark records and what is told of them.

use vstd::prelude::*;

use super::numbers::Number;
use crate::copies::{copy_option, option_view, Copied};
use crate::names::NameMap;
use crate::seqs::views;

verus! {

broadcast use {vstd::std_specs::vec::group_vec_axioms, crate::seqs::group_views};

/// The version of the manifest's schema.
pub const BENCHMARK_MANIFEST_SCHEMA_VERSION: u32 = 1;

/// A benchmark run as it is kept for later comparison.
pub struct BenchmarkManifest {
    pub schema_version: u32,
    pub generated_at: String,
    pub commit_hash: Option<String>,
    pub comparison_summary: ComparisonSummary,
    pub records: Vec<BenchmarkRecord>,
}

#[verifier::ext_equal]
pub struct BenchmarkManifestView {
    pub schema_version: u32,
    pub generated_at: Seq<char>,
    pub commit_hash: Option<Seq<char>>,
    pub comparison_summary: ComparisonSummary,
    pub records: Seq<BenchmarkRecordView>,
}

impl View for BenchmarkManifest {
    type V = BenchmarkManifestView;

    open spec fn view(&self) -> BenchmarkManifestView {
        BenchmarkManifestView {
            schema_version: self.schema_version,
            generated_at: self.generated_at@,
            commit_hash: option_view(self.commit_hash),
            comparison_summary: self.comparison_summary,
            records: views(self.records@),
        }
    }
}

/// One measurement of a benchmark run.
pub struct BenchmarkRecord {
    pub id: String,
    pub adapter: String,
    pub suite: String,
    pub case: String,
    pub scenario: Option<String>,
    pub metric: String,
    pub unit: String,
    pub value: Number,
    pub lower_bound: Option<Number>,
    pub upper_bound: Option<Number>,
    pub samples: Option<usize>,
    pub metric_direction: MetricDirection,
    pub stability: Option<String>,
    pub status: Option<String>,
    pub rel_stddev: Option<Number>,
    pub tags: NameMap<String>,
    pub metadata: NameMap<String>,
    pub source_file: String,
}

#[verifier::ext_equal]
pub struct BenchmarkRecordView {
    pub id: Seq<char>,
    pub adapter: Seq<char>,
    pub suite: Seq<char>,
    pub case: Seq<char>,
    pub scenario: Option<Seq<char>>,
    pub metric: Seq<char>,
    pub unit: Seq<char>,
    pub value: Number,
    pub lower_bound: Option<Number>,
    pub upper_bound: Option<Number>,
    pub samples: Option<usize>,
    pub metric_direction: MetricDirection,
    pub stability: Option<Seq<char>>,
    pub status: Option<Seq<char>>,
    pub rel_stddev: Option<Number>,
    pub tags: Map<Seq<char>, Seq<char>>,
    pub metadata: Map<Seq<char>, Seq<char>>,
    pub source_file: Seq<char>,
}

impl View for BenchmarkRecord {
    type V = BenchmarkRecordView;

    open spec fn view(&self) -> BenchmarkRecordView {
        BenchmarkRecordView {
            id: self.id@,
            adapter: self.adapter@,
            suite: self.suite@,
            case: self.case@,
            scenario: option_view(self.scenario),
            metric: self.metric@,
            unit: self.unit@,
            value: self.value,
            lower_bound: self.lower_bound,
            upper_bound: self.upper_bound,
            samples: self.samples,
            metric_direction: self.metric_direction,
            stability: option_view(self.stability),
            status: option_view(self.status),
            rel_stddev: self.rel_stddev,
            tags: self.tags@,
            metadata: self.metadata@,
            source_file: self.source_file@,
        }
    }
}

impl Copied for BenchmarkRecord {
    fn copied(&self) -> (r: Self) {
        BenchmarkRecord {
            id: self.id.clone(),
            adapter: self.adapter.clone(),
            suite: self.suite.clone(),
            case: self.case.clone(),
            scenario: copy_option(&self.scenario),
            metric: self.metric.clone(),
            unit: self.unit.clone(),
            value: self.value,
            lower_bound: self.lower_bound,
            upper_bound: self.upper_bound,
            samples: self.samples,
            metric_direction: self.metric_direction,
            stability: copy_option(&self.stability),
            status: copy_option(&self.status),
            rel_stddev: self.rel_stddev,
            tags: self.tags.copied(),
            metadata: self.metadata.copied(),
            source_file: self.source_file.clone(),
        }
    }
}

/// Whether lower or higher values of a metric are better.
#[derive(Debug, Clone, Copy, PartialEq, Eq, Structural)]
pub enum MetricDirection {
    LowerIsBetter,
    HigherIsBetter,
}

impl MetricDirection {
    /// A change in per cent, positive where it is for the better.
    pub open spec fn directed(self, change: Number) -> Number {
        match self {
            MetricDirection::LowerIsBetter => change.negated(),
            MetricDirection::HigherIsBetter => change,
        }
    }

    pub fn directional_delta(self, raw_delta_pct: Number) -> (r: Number)
        ensures
            r == self.directed(raw_delta_pct),
    {
        match self {
            MetricDirection::LowerIsBetter => raw_delta_pct.negate(),
            MetricDirection::HigherIsBetter => raw_delta_pct,
        }
    }
}

/// What became better or worse since the baseline.
#[derive(Debug, Clone, Copy, PartialEq, Eq, Structural)]
pub struct ComparisonSummary {
    pub performance_changes: usize,
    pub improved: usize,
    pub regressions: usize,
    pub critical: usize,
    pub stability_regressions: usize,
    pub stability_improvements: usize,
    pub new: usize,
    pub missing: usize,
    pub risk_areas: usize,
    pub authoritative: bool,
    pub baseline_available: bool,
}

/// A summary of nothing.
pub open spec fn empty_comparison() -> ComparisonSummary {
    ComparisonSummary {
        performance_changes: 0,
        improved: 0,
        regressions: 0,
        critical: 0,
        stability_regressions: 0,
        stability_improvements: 0,
        new: 0,
        missing: 0,
        risk_areas: 0,
        authoritative: false,
        baseline_available: false,
    }
}

impl Default for ComparisonSummary {
    fn default() -> (r: Self)
        ensures
            r == empty_comparison(),
    {
        ComparisonSummary {
            performance_changes: 0,
            improved: 0,
            regressions: 0,
            critical: 0,
            stability_regressions: 0,
            stability_improvements: 0,
            new: 0,
            missing: 0,
            risk_areas: 0,
            authoritative: false,
            baseline_available: false,
        }
    }
}

/// A record held against the baseline.
pub struct BenchmarkDelta {
    pub id: String,
    pub suite: String,
    pub case: String,
    pub metric: String,
    pub baseline_value: Option<Number>,
    pub current_value: Number,
    pub delta_pct: Option<Number>,
    pub directional_delta_pct: Option<Number>,
    pub baseline_stability: Option<String>,
    pub current_stability: Option<String>,
    pub baseline_status: Option<String>,
    pub current_status: Option<String>,
    pub semantic_change: Option<String>,
}

#[verifier::ext_equal]
pub struct BenchmarkDeltaView {
    pub id: Seq<char>,
    pub suite: Seq<char>,
    pub case: Seq<char>,
    pub metric: Seq<char>,
    pub baseline_value: Option<Number>,
    pub current_value: Number,
    pub delta_pct: Option<Number>,
    pub directional_delta_pct: Option<Number>,
    pub baseline_stability: Option<Seq<char>>,
    pub current_stability: Option<Seq<char>>,
    pub baseline_status: Option<Seq<char>>,
    pub current_status: Option<Seq<char>>,
    pub semantic_change: Option<Seq<char>>,
}

impl View for BenchmarkDelta {
    type V = BenchmarkDeltaView;

    open spec fn view(&self) -> BenchmarkDeltaView {
        BenchmarkDeltaView {
            id: self.id@,
            suite: self.suite@,
            case: self.case@,
            metric: self.metric@,
            baseline_value: self.baseline_value,
            current_value: self.current_value,
            delta_pct: self.delta_pct,
            directional_delta_pct: self.directional_delta_pct,
            baseline_stability: option_view(self.baseline_stability),
            current_stability: option_view(self.current_stability),
            baseline_status: option_view(self.baseline_status),
            current_status: option_view(self.current_status),
            semantic_change: option_view(self.semantic_change),
        }
    }
}

impl Copied for BenchmarkDelta {
    fn copied(&self) -> (r: Self) {
        BenchmarkDelta {
            id: self.id.clone(),
            suite: self.suite.clone(),
            case: self.case.clone(),
            metric: self.metric.clone(),
            baseline_value: self.baseline_value,
            current_value: self.current_value,
            delta_pct: self.delta_pct,
            directional_delta_pct: self.directional_delta_pct,
            baseline_stability: copy_option(&self.baseline_stability),
            current_stability: copy_option(&self.current_stability),
            baseline_status: copy_option(&self.baseline_status),
            current_status: copy_option(&self.current_status),
            semantic_change: copy_option(&self.semantic_change),
        }
    }
}

/// One value of a parameter that a benchmark was run with, and what was measured.
pub struct SweepPoint {
    pub parameter: String,
    pub parameter_label: String,
    pub parameter_value: Number,
    pub metric_value: Number,
    pub delta_vs_previous_pct: Option<Number>,
    pub rel_stddev: Option<Number>,
    pub samples: Option<usize>,
    pub status: Option<String>,
}

#[verifier::ext_equal]
pub struct SweepPointView {
    pub parameter: Seq<char>,
    pub parameter_label: Seq<char>,
    pub parameter_value: Number,
    pub metric_value: Number,
    pub delta_vs_previous_pct: Option<Number>,
    pub rel_stddev: Option<Number>,
    pub samples: Option<usize>,
    pub status: Option<Seq<char>>,
}

impl View for SweepPoint {
    type V = SweepPointView;

    open spec fn view(&self) -> SweepPointView {
        SweepPointView {
            parameter: self.parameter@,
            parameter_label: self.parameter_label@,
            parameter_value: self.parameter_value,
            metric_value: self.metric_value,
            delta_vs_previous_pct: self.delta_vs_previous_pct,
            rel_stddev: self.rel_stddev,
            samples: self.samples,
            status: option_view(self.status),
        }
    }
}

impl Copied for SweepPoint {
    fn copied(&self) -> (r: Self) {
        SweepPoint {
            parameter: self.parameter.clone(),
            parameter_label: self.parameter_label.clone(),
            parameter_value: self.parameter_value,
            metric_value: self.metric_value,
            delta_vs_previous_pct: self.delta_vs_previous_pct,
            rel_stddev: self.rel_stddev,
            samples: self.samples,
            status: copy_option(&self.status),
        }
    }
}

/// The measurements of a benchmark over the values of a parameter.
pub struct SweepGroup {
    pub title: String,
    pub metric: String,
    pub unit: String,
    pub points: Vec<SweepPoint>,
}

#[verifier::ext_equal]
pub struct SweepGroupView {
    pub title: Seq<char>,
    pub metric: Seq<char>,
    pub unit: Seq<char>,
    pub points: Seq<SweepPointView>,
}

impl View for SweepGroup {
    type V = SweepGroupView;

    open spec fn view(&self) -> SweepGroupView {
        SweepGroupView {
            title: self.title@,
            metric: self.metric@,
            unit: self.unit@,
            points: views(self.points@),
        }
    }
}

} // verus!
