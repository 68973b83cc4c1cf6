//! Records of Criterion's estimates.

use vstd::prelude::*;

use super::super::classify::{classify_stability, stability_of};
use super::super::config::{CriterionAdapterConfig, CriterionAdapterConfigView, StabilityThresholds};
use super::super::model::{BenchmarkRecord, BenchmarkRecordView, MetricDirection};
use super::super::numbers::{
    arithmetic, computed, computes, notation, shown, writes, Arithmetic, Notation, Number,
    Operation, Style,
};
use super::super::sweep::{MILLION, THOUSAND};
use crate::copies::option_view;
use crate::names::NameMap;
use crate::seqs::views;
use crate::text::{chars, join, joined, pieces, replace_char, same, split, with_char};

verus! {

broadcast use {vstd::std_specs::vec::group_vec_axioms, crate::seqs::group_views};

/// Takes records from Criterion's estimates.
pub struct CriterionAdapter;

/// An estimate and how sure it is.
#[derive(Debug, Clone, Copy, PartialEq, Eq, Structural)]
pub struct CriterionEstimate {
    pub point_estimate: Option<Number>,
    pub confidence_interval: Option<CriterionConfidenceInterval>,
}

#[derive(Debug, Clone, Copy, PartialEq, Eq, Structural)]
pub struct CriterionConfidenceInterval {
    pub lower_bound: Option<Number>,
    pub upper_bound: Option<Number>,
}

/// The estimates of a benchmark.
#[derive(Debug, Clone, Copy, PartialEq, Eq, Structural)]
pub struct CriterionEstimates {
    pub mean: Option<CriterionEstimate>,
    pub median: Option<CriterionEstimate>,
    pub std_dev: Option<CriterionEstimate>,
}

/// Whether a path is that of an estimates file.
pub open spec fn is_estimates(components: Seq<Seq<char>>) -> bool {
    components.len() >= 2 && components[components.len() - 2] == "new"@
        && components[components.len() - 1] == "estimates.json"@
}

pub fn is_estimates_file(components: &Vec<String>) -> (r: bool)
    ensures
        r == is_estimates(views(components@)),
{
    let n: usize = components.len();
    n >= 2 && same(components[n - 2].as_str(), "new") && same(
        components[n - 1].as_str(),
        "estimates.json",
    )
}

/// The name of the benchmark whose estimates stand at a path below the input root.
pub open spec fn benchmark_name(components: Seq<Seq<char>>) -> Seq<char> {
    if components.len() < 2 {
        seq![]
    } else {
        with_char(joined(components.take(components.len() - 2), "/"@), '\\', '/')
    }
}

pub fn benchmark_path(components: &Vec<String>) -> (r: String)
    ensures
        r@ == benchmark_name(views(components@)),
{
    let n: usize = components.len();
    if n < 2 {
        return String::new();
    }
    let mut parents: Vec<String> = Vec::new();
    let mut i: usize = 0;
    while i < n - 2
        invariant
            n == components@.len(),
            n >= 2,
            i <= n - 2,
            views(parents@) == views(components@).take(i as int),
        decreases n - i,
    {
        parents.push(components[i].clone());
        i += 1;
        assert(views(parents@) =~= views(components@).take(i as int));
    }
    replace_char(join(&parents, "/").as_str(), '\\', '/')
}

/// The suite and the case of a benchmark.
pub open spec fn suite_and_case(path: Seq<char>) -> (Seq<char>, Seq<char>) {
    let parts = pieces(path, "/"@);
    let case = joined(parts.skip(1), "/"@);
    (
        parts[0],
        if case.len() == 0 {
            path
        } else {
            case
        },
    )
}

fn split_suite_and_case(path: &str) -> (r: (String, String))
    ensures
        (r.0@, r.1@) == suite_and_case(path@),
{
    proof {
        reveal_strlit("/");
    }
    let parts = split(path, "/");
    assert(views(parts@).len() > 0);
    let suite = parts[0].clone();
    let mut rest: Vec<String> = Vec::new();
    let mut i: usize = 1;
    while i < parts.len()
        invariant
            1 <= i <= parts@.len(),
            views(rest@) == views(parts@).subrange(1, i as int),
        decreases parts@.len() - i,
    {
        rest.push(parts[i].clone());
        i += 1;
        assert(views(rest@) =~= views(parts@).subrange(1, i as int));
    }
    assert(views(parts@).subrange(1, parts@.len() as int) =~= views(parts@).skip(1));
    let case = join(&rest, "/");
    if chars(case.as_str()).len() == 0 {
        (suite, path.to_owned())
    } else {
        (suite, case)
    }
}

/// The point of an estimate.
pub open spec fn point(estimate: Option<CriterionEstimate>) -> Option<Number> {
    match estimate {
        Some(known) => known.point_estimate,
        None => None,
    }
}

fn point_of(estimate: &Option<CriterionEstimate>) -> (r: Option<Number>)
    ensures
        r == point(*estimate),
{
    match estimate {
        Some(known) => known.point_estimate,
        None => None,
    }
}

/// The mean, where it is one that can be.
pub open spec fn usable_mean(
    estimates: CriterionEstimates,
    config: CriterionAdapterConfigView,
) -> Option<Number> {
    match point(estimates.mean) {
        Some(mean) => if mean.finite() && config.min_reasonable_mean_ns.below(mean) && mean.below(
            config.max_reasonable_mean_ns,
        ) {
            Some(mean)
        } else {
            None
        },
        None => None,
    }
}

/// The median, where it is one that can be, or else the mean.
pub open spec fn median_or(estimates: CriterionEstimates, mean: Number) -> Number {
    match point(estimates.median) {
        Some(median) => if median.finite() && median.positive() {
            median
        } else {
            mean
        },
        None => mean,
    }
}

/// The standard deviation, where it is one that can be.
pub open spec fn usable_deviation(estimates: CriterionEstimates) -> Option<Number> {
    match point(estimates.std_dev) {
        Some(deviation) => if deviation.finite() && !deviation.negative() {
            Some(deviation)
        } else {
            None
        },
        None => None,
    }
}

/// What is kept of the estimates besides the value.
pub open spec fn estimate_metadata(
    benchmark: Seq<char>,
    mean: Number,
    median: Number,
    deviation: Option<Number>,
    arithmetic: Arithmetic,
    notation: Notation,
) -> Map<Seq<char>, Seq<char>> {
    let scaled = |value: Number, bits: u64|
        notation(arithmetic(value, Operation::Ratio, Number { bits }), Style::Shortest);
    let base = Map::<Seq<char>, Seq<char>>::empty().insert("raw_benchmark"@, benchmark).insert(
        "mean_ns"@,
        notation(mean, Style::Shortest),
    ).insert("mean_us"@, scaled(mean, THOUSAND)).insert("mean_ms"@, scaled(mean, MILLION)).insert(
        "median_ns"@,
        notation(median, Style::Shortest),
    ).insert("median_us"@, scaled(median, THOUSAND)).insert(
        "median_ms"@,
        scaled(median, MILLION),
    );
    match deviation {
        Some(value) => base.insert("std_dev_ns"@, notation(value, Style::Shortest)),
        None => base,
    }
}

fn scaled_text<C, S>(value: Number, bits: u64, compute: &C, show: &S) -> (r: String) where
    C: Fn(Number, Operation, Number) -> Number,
    S: Fn(Number, Style) -> String,

    requires
        computes(*compute),
        writes(*show),
    ensures
        r@ == notation(*show)(
            arithmetic(*compute)(value, Operation::Ratio, Number { bits }),
            Style::Shortest,
        ),
{
    shown(show, computed(compute, value, Operation::Ratio, Number { bits }), Style::Shortest)
}

fn collect_metadata<C, S>(
    benchmark: &str,
    mean: Number,
    median: Number,
    deviation: Option<Number>,
    compute: &C,
    show: &S,
) -> (r: NameMap<String>) where
    C: Fn(Number, Operation, Number) -> Number,
    S: Fn(Number, Style) -> String,

    requires
        computes(*compute),
        writes(*show),
    ensures
        r@ == estimate_metadata(
            benchmark@,
            mean,
            median,
            deviation,
            arithmetic(*compute),
            notation(*show),
        ),
{
    let mut metadata: NameMap<String> = NameMap::new();
    metadata.insert("raw_benchmark".to_owned(), benchmark.to_owned());
    metadata.insert("mean_ns".to_owned(), shown(show, mean, Style::Shortest));
    metadata.insert("mean_us".to_owned(), scaled_text(mean, THOUSAND, compute, show));
    metadata.insert("mean_ms".to_owned(), scaled_text(mean, MILLION, compute, show));
    metadata.insert("median_ns".to_owned(), shown(show, median, Style::Shortest));
    metadata.insert("median_us".to_owned(), scaled_text(median, THOUSAND, compute, show));
    metadata.insert("median_ms".to_owned(), scaled_text(median, MILLION, compute, show));
    match deviation {
        Some(value) => {
            metadata.insert("std_dev_ns".to_owned(), shown(show, value, Style::Shortest));
        },
        None => {},
    }
    metadata
}

/// The bounds of the interval of an estimate.
pub open spec fn bounds(estimate: Option<CriterionEstimate>) -> (Option<Number>, Option<Number>) {
    match estimate {
        Some(known) => match known.confidence_interval {
            Some(interval) => (interval.lower_bound, interval.upper_bound),
            None => (None, None),
        },
        None => (None, None),
    }
}

fn bounds_of(estimate: &Option<CriterionEstimate>) -> (r: (Option<Number>, Option<Number>))
    ensures
        r == bounds(*estimate),
{
    match estimate {
        Some(known) => match known.confidence_interval {
            Some(interval) => (interval.lower_bound, interval.upper_bound),
            None => (None, None),
        },
        None => (None, None),
    }
}

/// The record of a benchmark's estimates, where there is a name and a mean that can be.
pub open spec fn estimates_record(
    benchmark: Seq<char>,
    estimates: CriterionEstimates,
    source_file: Seq<char>,
    config: CriterionAdapterConfigView,
    thresholds: StabilityThresholds,
    arithmetic: Arithmetic,
    notation: Notation,
) -> Option<BenchmarkRecordView> {
    match usable_mean(estimates, config) {
        None => None,
        Some(mean) => if benchmark.len() == 0 {
            None
        } else {
            let median = median_or(estimates, mean);
            let deviation = usable_deviation(estimates);
            let rel_stddev = match deviation {
                Some(value) => Some(arithmetic(value, Operation::Ratio, mean)),
                None => None,
            };
            let stability = stability_of(rel_stddev, thresholds);
            Some(
                BenchmarkRecordView {
                    id: benchmark,
                    adapter: "criterion"@,
                    suite: suite_and_case(benchmark).0,
                    case: suite_and_case(benchmark).1,
                    scenario: None,
                    metric: "latency_ns"@,
                    unit: "ns"@,
                    value: median,
                    lower_bound: bounds(estimates.median).0,
                    upper_bound: bounds(estimates.median).1,
                    samples: None,
                    metric_direction: MetricDirection::LowerIsBetter,
                    stability: Some(stability),
                    status: Some(
                        if stability == "stable"@ || stability == "acceptable"@ {
                            "authoritative"@
                        } else {
                            stability
                        },
                    ),
                    rel_stddev,
                    tags: Map::empty(),
                    metadata: estimate_metadata(
                        benchmark,
                        mean,
                        median,
                        deviation,
                        arithmetic,
                        notation,
                    ),
                    source_file,
                },
            )
        },
    }
}

impl CriterionAdapter {
    pub fn name(&self) -> (r: &'static str)
        ensures
            r@ == "criterion"@,
    {
        "criterion"
    }

    /// The record of a benchmark's estimates.
    pub fn record<C, S>(
        &self,
        benchmark: &str,
        estimates: &CriterionEstimates,
        source_file: &str,
        config: &CriterionAdapterConfig,
        thresholds: &StabilityThresholds,
        compute: &C,
        show: &S,
    ) -> (r: Option<BenchmarkRecord>) where
        C: Fn(Number, Operation, Number) -> Number,
        S: Fn(Number, Style) -> String,

        requires
            computes(*compute),
            writes(*show),
        ensures
            option_view(r) == estimates_record(
                benchmark@,
                *estimates,
                source_file@,
                config@,
                *thresholds,
                arithmetic(*compute),
                notation(*show),
            ),
    {
        if chars(benchmark).len() == 0 {
            return None;
        }
        let mean = match point_of(&estimates.mean) {
            Some(mean) => mean,
            None => {
                return None;
            },
        };
        if !mean.is_finite() || !config.min_reasonable_mean_ns.is_below(&mean) || !mean.is_below(
            &config.max_reasonable_mean_ns,
        ) {
            return None;
        }
        let median = match point_of(&estimates.median) {
            Some(median) => if median.is_finite() && median.is_positive() {
                median
            } else {
                mean
            },
            None => mean,
        };
        let deviation = match point_of(&estimates.std_dev) {
            Some(deviation) => if deviation.is_finite() && !deviation.is_negative() {
                Some(deviation)
            } else {
                None
            },
            None => None,
        };
        let rel_stddev = match deviation {
            Some(value) => Some(computed(compute, value, Operation::Ratio, mean)),
            None => None,
        };
        let stability = classify_stability(rel_stddev, thresholds);
        let status = if same(stability.as_str(), "stable") || same(
            stability.as_str(),
            "acceptable",
        ) {
            "authoritative".to_owned()
        } else {
            stability.clone()
        };
        let (suite, case) = split_suite_and_case(benchmark);
        let (lower_bound, upper_bound) = bounds_of(&estimates.median);
        Some(
            BenchmarkRecord {
                id: benchmark.to_owned(),
                adapter: self.name().to_owned(),
                suite,
                case,
                scenario: None,
                metric: "latency_ns".to_owned(),
                unit: "ns".to_owned(),
                value: median,
                lower_bound,
                upper_bound,
                samples: None,
                metric_direction: MetricDirection::LowerIsBetter,
                stability: Some(stability),
                status: Some(status),
                rel_stddev,
                tags: NameMap::new(),
                metadata: collect_metadata(benchmark, mean, median, deviation, compute, show),
                source_file: source_file.to_owned(),
            },
        )
    }
}

} // verus!
