//! Summaries of benchmark runs against a baseline.

pub mod adapters;
pub mod classify;
pub mod compare;
pub mod config;
pub mod laws;
pub mod model;
pub mod numbers;
pub mod record_laws;
pub mod report;
pub mod report_laws;
pub mod sweep;

use vstd::prelude::*;

use crate::copies::option_view;
use crate::order::{sort, sorted, Order};
use crate::select::{selected, wanted, Select};
use crate::seqs::{keep, views};
use crate::text::{
    chars, decimal, less, number, order_of_three, same, text_less, text_less_irreflexive,
    then_text, trim, trimmed,
};
use classify::{
    authority_label, authority_of, build_comparison_summary, collect_measurement_notes,
    current_run_authoritative, measurement_notes, run_trusted, summarizes,
};
use compare::{baseline_records, compare_records, comparison_of};
use config::BenchSummaryConfig;
use model::{
    BenchmarkManifest, BenchmarkManifestView, BenchmarkRecord, BenchmarkRecordView,
    ComparisonSummary, BENCHMARK_MANIFEST_SCHEMA_VERSION,
};
use numbers::{
    arithmetic, computes, notation, reading, reads, writes, Arithmetic, Notation, Number,
    Operation, Reading, Style,
};
use report::{markdown_of, markdown_report, FromAdapter};
use sweep::{detect_sweep_groups, groups_of, sweep_entries};

verus! {

broadcast use {vstd::std_specs::vec::group_vec_axioms, crate::seqs::group_views};

/// What the command is given.
#[derive(Debug, Clone, PartialEq, Eq)]
pub struct SummarizeBenchmarksArgs {
    pub root: String,
    pub product_name: String,
    pub report_title: String,
}

/// Records that are not left out.
pub struct Kept<'a> {
    pub config: &'a BenchSummaryConfig,
}

impl<'a> Select<BenchmarkRecord> for Kept<'a> {
    open spec fn wants(&self, record: BenchmarkRecordView) -> bool {
        !self.config@.ignores(record)
    }

    fn accepts(&self, record: &BenchmarkRecord) -> (r: bool) {
        !self.config.should_ignore_record(record)
    }
}

/// Whether an optional text comes before another: none first.
pub open spec fn option_less(a: Option<Seq<char>>, b: Option<Seq<char>>) -> bool {
    match (a, b) {
        (None, Some(_)) => true,
        (Some(x), Some(y)) => text_less(x, y),
        _ => false,
    }
}

fn is_option_less(a: &Option<String>, b: &Option<String>) -> (r: bool)
    ensures
        r == option_less(option_view(*a), option_view(*b)),
{
    match (a, b) {
        (None, Some(_)) => true,
        (Some(x), Some(y)) => less(x.as_str(), y.as_str()),
        _ => false,
    }
}

proof fn option_order(a: Option<Seq<char>>, b: Option<Seq<char>>, c: Option<Seq<char>>)
    ensures
        !option_less(a, a),
        option_less(a, b) ==> !option_less(b, a),
        option_less(a, b) && option_less(b, c) ==> option_less(a, c),
        option_less(a, b) || option_less(b, a) || a == b,
        option_less(b, c) || option_less(c, b) || b == c,
        option_less(a, c) || option_less(c, a) || a == c,
        option_less(b, a) && option_less(a, c) ==> option_less(b, c),
        option_less(a, c) && option_less(c, b) ==> option_less(a, b),
{
    let text = |o: Option<Seq<char>>|
        match o {
            Some(t) => t,
            None => seq![],
        };
    order_of_three(text(a), text(b), text(c));
}

/// Orders records by adapter, suite, case, scenario, metric and id.
pub struct RecordOrder;

impl Order<BenchmarkRecord> for RecordOrder {
    open spec fn before(a: BenchmarkRecordView, b: BenchmarkRecordView) -> bool {
        then_text(
            a.adapter,
            b.adapter,
            then_text(
                a.suite,
                b.suite,
                then_text(
                    a.case,
                    b.case,
                    option_less(a.scenario, b.scenario) || (a.scenario == b.scenario && then_text(
                        a.metric,
                        b.metric,
                        then_text(a.id, b.id, false),
                    )),
                ),
            ),
        )
    }

    fn is_before(a: &BenchmarkRecord, b: &BenchmarkRecord) -> (r: bool) {
        proof {
            text_less_irreflexive(a.adapter@);
            text_less_irreflexive(a.suite@);
            text_less_irreflexive(a.case@);
            text_less_irreflexive(a.metric@);
            text_less_irreflexive(a.id@);
            option_order(a@.scenario, b@.scenario, a@.scenario);
        }
        if !same(a.adapter.as_str(), b.adapter.as_str()) {
            return less(a.adapter.as_str(), b.adapter.as_str());
        }
        if !same(a.suite.as_str(), b.suite.as_str()) {
            return less(a.suite.as_str(), b.suite.as_str());
        }
        if !same(a.case.as_str(), b.case.as_str()) {
            return less(a.case.as_str(), b.case.as_str());
        }
        if is_option_less(&a.scenario, &b.scenario) {
            return true;
        }
        if is_option_less(&b.scenario, &a.scenario) {
            return false;
        }
        if !same(a.metric.as_str(), b.metric.as_str()) {
            return less(a.metric.as_str(), b.metric.as_str());
        }
        less(a.id.as_str(), b.id.as_str())
    }

    proof fn strict_weak(a: BenchmarkRecordView, b: BenchmarkRecordView, c: BenchmarkRecordView) {
        order_of_three(a.adapter, b.adapter, c.adapter);
        order_of_three(a.suite, b.suite, c.suite);
        order_of_three(a.case, b.case, c.case);
        option_order(a.scenario, b.scenario, c.scenario);
        order_of_three(a.metric, b.metric, c.metric);
        order_of_three(a.id, b.id, c.id);
    }
}

/// The records that are summarized, in order.
pub open spec fn prepared(
    records: Seq<BenchmarkRecordView>,
    config: &BenchSummaryConfig,
) -> Seq<BenchmarkRecordView> {
    sorted::<BenchmarkRecord, RecordOrder>(
        keep(records, wanted::<BenchmarkRecord, Kept>(&Kept { config })),
    )
}

/// Leaves out what is ignored, and orders the rest.
pub fn prepare_records(records: &Vec<BenchmarkRecord>, config: &BenchSummaryConfig) -> (r: Vec<
    BenchmarkRecord,
>)
    ensures
        views(r@) == prepared(views(records@), config),
{
    sort::<BenchmarkRecord, RecordOrder>(selected(records, &Kept { config }))
}

/// The records of an adapter.
pub fn adapter_records(records: &Vec<BenchmarkRecord>, adapter: &str) -> (r: Vec<BenchmarkRecord>)
    ensures
        views(r@) == keep(
            views(records@),
            wanted::<BenchmarkRecord, FromAdapter>(&FromAdapter { adapter }),
        ),
{
    selected(records, &FromAdapter { adapter })
}

/// What is said of a baseline with another version of the schema.
pub open spec fn version_message(version: u32, path: Seq<char>) -> Seq<char> {
    "unsupported baseline schema_version "@ + decimal(version as nat) + " in "@ + path
        + "; expected "@ + decimal(BENCHMARK_MANIFEST_SCHEMA_VERSION as nat)
}

/// Tells whether a baseline has the version of the schema that is understood.
pub fn check_baseline_version(version: u32, path: &str) -> (r: Result<(), String>)
    ensures
        if version == BENCHMARK_MANIFEST_SCHEMA_VERSION {
            r is Ok
        } else {
            r matches Err(message) && message@ == version_message(version, path@)
        },
{
    if version == BENCHMARK_MANIFEST_SCHEMA_VERSION {
        return Ok(());
    }
    let mut message = "unsupported baseline schema_version ".to_owned();
    message.append(number(version as u64).as_str());
    message.append(" in ");
    message.append(path);
    message.append("; expected ");
    message.append(number(BENCHMARK_MANIFEST_SCHEMA_VERSION as u64).as_str());
    Err(message)
}

/// The commit that the output of the version control tells.
pub open spec fn commit_of(output: Seq<char>) -> Option<Seq<char>> {
    if trimmed(output).len() == 0 {
        None
    } else {
        Some(trimmed(output))
    }
}

pub fn parse_commit_hash(output: &str) -> (r: Option<String>)
    ensures
        option_view(r) == commit_of(output@),
{
    let text = trim(output);
    if chars(text.as_str()).len() == 0 {
        None
    } else {
        Some(text)
    }
}

/// The exit code that a comparison gives.
pub open spec fn exit_code_of(summary: ComparisonSummary) -> i32 {
    if summary.critical > 0 || summary.new > 0 || summary.missing > 0 {
        1
    } else {
        0
    }
}

pub fn summary_exit_code(summary: &ComparisonSummary) -> (r: i32)
    ensures
        r == exit_code_of(*summary),
{
    if summary.critical > 0 || summary.new > 0 || summary.missing > 0 {
        1
    } else {
        0
    }
}

/// Whether a run becomes the baseline of later ones.
pub open spec fn becomes_baseline(
    records: Seq<BenchmarkRecordView>,
    summary: ComparisonSummary,
    config: &BenchSummaryConfig,
) -> bool {
    run_trusted(records, config) && summary.critical == 0 && summary.new == 0 && summary.missing
        == 0
}

pub fn promotes_baseline(
    records: &Vec<BenchmarkRecord>,
    summary: &ComparisonSummary,
    config: &BenchSummaryConfig,
) -> (r: bool)
    ensures
        r == becomes_baseline(views(records@), *summary, config),
{
    current_run_authoritative(records, config) && summary.critical == 0 && summary.new == 0
        && summary.missing == 0
}

/// Only a run that can be relied on and ends with exit code 0 becomes the baseline.
pub proof fn promoted_runs_end_well(
    records: Seq<BenchmarkRecordView>,
    summary: ComparisonSummary,
    config: &BenchSummaryConfig,
)
    ensures
        becomes_baseline(records, summary, config) <==> run_trusted(records, config)
            && exit_code_of(summary) == 0,
{
}

/// The counts of a comparison in a line.
pub open spec fn counters_text(
    records: Seq<BenchmarkRecordView>,
    summary: ComparisonSummary,
    config: &BenchSummaryConfig,
) -> Seq<char> {
    "Comparison counters: critical="@ + decimal(summary.critical as nat) + " new="@ + decimal(
        summary.new as nat,
    ) + " missing="@ + decimal(summary.missing as nat) + " regressions="@ + decimal(
        summary.regressions as nat,
    ) + " improvements="@ + decimal(summary.improved as nat) + " authority="@ + authority_of(
        records,
        summary,
        config,
    )
}

pub fn comparison_counters(
    records: &Vec<BenchmarkRecord>,
    summary: &ComparisonSummary,
    config: &BenchSummaryConfig,
) -> (r: String)
    ensures
        r@ == counters_text(views(records@), *summary, config),
{
    let mut out = "Comparison counters: critical=".to_owned();
    out.append(number(summary.critical as u64).as_str());
    out.append(" new=");
    out.append(number(summary.new as u64).as_str());
    out.append(" missing=");
    out.append(number(summary.missing as u64).as_str());
    out.append(" regressions=");
    out.append(number(summary.regressions as u64).as_str());
    out.append(" improvements=");
    out.append(number(summary.improved as u64).as_str());
    out.append(" authority=");
    out.append(authority_label(records, summary, config));
    out
}

/// What a run comes to.
pub struct RunSummary {
    pub manifest: BenchmarkManifest,
    /// The report in Markdown.
    pub markdown: String,
    /// The counts of the comparison in a line.
    pub counters: String,
    /// Whether the run becomes the baseline of later ones.
    pub promoted: bool,
    pub exit_code: i32,
}

/// Whether this is what a run comes to.
pub open spec fn sums_up(
    r: RunSummary,
    records: Seq<BenchmarkRecordView>,
    baseline: Option<BenchmarkManifestView>,
    config: &BenchSummaryConfig,
    generated_at: Seq<char>,
    commit_hash: Option<Seq<char>>,
    arithmetic: Arithmetic,
    notation: Notation,
    reading: Reading,
) -> bool {
    let comparison = comparison_of(records, baseline_records(baseline), arithmetic);
    let notes = measurement_notes(records, comparison, config, arithmetic, notation);
    let summary = r.manifest.comparison_summary;
    &&& notes.len() <= usize::MAX
    &&& summarizes(summary, records, comparison, baseline is Some, notes.len() as usize, config)
    &&& r.manifest@ == (BenchmarkManifestView {
        schema_version: BENCHMARK_MANIFEST_SCHEMA_VERSION,
        generated_at,
        commit_hash,
        comparison_summary: summary,
        records,
    })
    &&& r.markdown@ == markdown_of(
        config,
        r.manifest@,
        comparison,
        groups_of(sweep_entries(records, config, arithmetic, reading), arithmetic),
        notes,
        arithmetic,
        notation,
    )
    &&& r.counters@ == counters_text(records, summary, config)
    &&& r.promoted == becomes_baseline(records, summary, config)
    &&& r.exit_code == exit_code_of(summary)
}

/// Holds a run against the baseline and tells what it comes to.
pub fn summarize_run<C, S, R>(
    records: Vec<BenchmarkRecord>,
    baseline: Option<&BenchmarkManifest>,
    config: &BenchSummaryConfig,
    generated_at: String,
    commit_hash: Option<String>,
    compute: &C,
    show: &S,
    read: &R,
) -> (r: RunSummary) where
    C: Fn(Number, Operation, Number) -> Number,
    S: Fn(Number, Style) -> String,
    R: Fn(String) -> Option<Number>,

    requires
        computes(*compute),
        writes(*show),
        reads(*read),
    ensures
        sums_up(
            r,
            views(records@),
            option_view(baseline),
            config,
            generated_at@,
            option_view(commit_hash),
            arithmetic(*compute),
            notation(*show),
            reading(*read),
        ),
{
    let comparison = compare_records(&records, baseline, compute);
    let notes = collect_measurement_notes(&records, &comparison, config, compute, show);
    let risk_areas: usize = notes.len();
    let summary = build_comparison_summary(
        &records,
        &comparison,
        baseline.is_some(),
        risk_areas,
        config,
    );
    let sweeps = detect_sweep_groups(&records, config, compute, read);
    let counters = comparison_counters(&records, &summary, config);
    let promoted = promotes_baseline(&records, &summary, config);
    let manifest = BenchmarkManifest {
        schema_version: BENCHMARK_MANIFEST_SCHEMA_VERSION,
        generated_at,
        commit_hash,
        comparison_summary: summary,
        records,
    };
    let markdown = markdown_report(
        config,
        &manifest,
        &comparison,
        &sweeps,
        &notes,
        compute,
        show,
    );
    RunSummary { manifest, markdown, counters, promoted, exit_code: summary_exit_code(&summary) }
}

} // verus!
