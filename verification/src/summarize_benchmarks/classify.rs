//! How far records can be trusted, and what to note of them.

use vstd::prelude::*;

use super::compare::{ComparisonOutcome, ComparisonOutcomeView, ProbableRename, ProbableRenameView};
use super::config::{BenchSummaryConfig, StabilityThresholds};
use super::model::{
    BenchmarkDelta, BenchmarkDeltaView, BenchmarkRecord, BenchmarkRecordView, ComparisonSummary,
};
use super::numbers::{
    arithmetic, computed, computes, notation, shown, writes, Arithmetic, Notation, Number,
    Operation, Style, HUNDRED, ZERO,
};
use crate::copies::option_view;
use crate::names::entry;
use crate::order::{sort, sorted, Order};
use crate::select::{all_wanted, count, describe_first, selected, texts, wanted, Describe, Select};
use crate::seqs::{every, first_of, keep, mapped, views};
use crate::text::{decimal, number, same};

verus! {

broadcast use {vstd::std_specs::vec::group_vec_axioms, crate::seqs::group_views};

/// How stable a measurement with a relative standard deviation is.
pub open spec fn stability_of(rel_stddev: Option<Number>, thresholds: StabilityThresholds) -> Seq<
    char,
> {
    match rel_stddev {
        None => "unknown"@,
        Some(value) => if value.at_most(thresholds.stable) {
            "stable"@
        } else if value.at_most(thresholds.acceptable) {
            "acceptable"@
        } else if value.at_most(thresholds.noisy) {
            "noisy"@
        } else {
            "untrustworthy"@
        },
    }
}

pub fn classify_stability(rel_stddev: Option<Number>, thresholds: &StabilityThresholds) -> (r:
    String)
    ensures
        r@ == stability_of(rel_stddev, *thresholds),
{
    match rel_stddev {
        None => "unknown".to_owned(),
        Some(value) => {
            if value.is_at_most(&thresholds.stable) {
                "stable".to_owned()
            } else if value.is_at_most(&thresholds.acceptable) {
                "acceptable".to_owned()
            } else if value.is_at_most(&thresholds.noisy) {
                "noisy".to_owned()
            } else {
                "untrustworthy".to_owned()
            }
        },
    }
}

/// Whether a status can be relied on.
pub open spec fn trusted_status(status: Option<Seq<char>>, config: &BenchSummaryConfig) -> bool {
    status matches Some(text) && config.authoritative_statuses@.contains(text)
}

/// Whether a stability can be relied on.
pub open spec fn trusted_stability(
    stability: Option<Seq<char>>,
    config: &BenchSummaryConfig,
) -> bool {
    stability matches Some(text) && config.authoritative_stabilities@.contains(text)
}

fn is_authoritative_status(status: &Option<String>, config: &BenchSummaryConfig) -> (r: bool)
    ensures
        r == trusted_status(option_view(*status), config),
{
    match status {
        Some(text) => config.authoritative_statuses.contains(text.as_str()),
        None => false,
    }
}

fn is_authoritative_stability(stability: &Option<String>, config: &BenchSummaryConfig) -> (r: bool)
    ensures
        r == trusted_stability(option_view(*stability), config),
{
    match stability {
        Some(text) => config.authoritative_stabilities.contains(text.as_str()),
        None => false,
    }
}

/// Records that can be relied on.
pub struct Trusted<'a> {
    pub config: &'a BenchSummaryConfig,
}

impl<'a> Select<BenchmarkRecord> for Trusted<'a> {
    open spec fn wants(&self, record: BenchmarkRecordView) -> bool {
        trusted_status(record.status, self.config) && trusted_stability(
            record.stability,
            self.config,
        )
    }

    fn accepts(&self, record: &BenchmarkRecord) -> (r: bool) {
        is_authoritative_status(&record.status, self.config) && is_authoritative_stability(
            &record.stability,
            self.config,
        )
    }
}

/// Records that can be relied on and come from a run with the default profile.
pub struct TrustedByDefault<'a> {
    pub config: &'a BenchSummaryConfig,
}

impl<'a> Select<BenchmarkRecord> for TrustedByDefault<'a> {
    open spec fn wants(&self, record: BenchmarkRecordView) -> bool {
        entry(record.metadata, "run_profile"@) == Some("default"@) && trusted_status(
            record.status,
            self.config,
        ) && trusted_stability(record.stability, self.config)
    }

    fn accepts(&self, record: &BenchmarkRecord) -> (r: bool) {
        let by_default = match record.metadata.get("run_profile") {
            Some(profile) => same(profile.as_str(), "default"),
            None => false,
        };
        by_default && is_authoritative_status(&record.status, self.config)
            && is_authoritative_stability(&record.stability, self.config)
    }
}

/// Whether there are records, and all of them can be relied on.
pub open spec fn run_trusted(
    records: Seq<BenchmarkRecordView>,
    config: &BenchSummaryConfig,
) -> bool {
    records.len() > 0 && every(records, wanted::<BenchmarkRecord, Trusted>(&Trusted { config }))
}

pub fn current_run_authoritative(
    records: &Vec<BenchmarkRecord>,
    config: &BenchSummaryConfig,
) -> (r: bool)
    ensures
        r == run_trusted(views(records@), config),
{
    records.len() > 0 && all_wanted(records, &Trusted { config })
}

/// How far a run can be relied on, in words.
pub open spec fn authority_of(
    records: Seq<BenchmarkRecordView>,
    summary: ComparisonSummary,
    config: &BenchSummaryConfig,
) -> Seq<char> {
    if records.len() == 0 {
        "not trustworthy enough for authority"@
    } else if every(
        records,
        wanted::<BenchmarkRecord, TrustedByDefault>(&TrustedByDefault { config }),
    ) {
        "accepted default profile, not lab-authoritative"@
    } else if summary.authoritative {
        "lab-authoritative"@
    } else {
        "not trustworthy enough for authority"@
    }
}

pub fn authority_label(
    records: &Vec<BenchmarkRecord>,
    summary: &ComparisonSummary,
    config: &BenchSummaryConfig,
) -> (r: &'static str)
    ensures
        r@ == authority_of(views(records@), *summary, config),
{
    if records.len() == 0 {
        return "not trustworthy enough for authority";
    }
    if all_wanted(records, &TrustedByDefault { config }) {
        return "accepted default profile, not lab-authoritative";
    }
    if summary.authoritative {
        return "lab-authoritative";
    }
    "not trustworthy enough for authority"
}

/// A number, or zero where there is none.
pub open spec fn or_zero(value: Option<Number>) -> Number {
    match value {
        Some(number) => number,
        None => Number { bits: ZERO },
    }
}

fn number_or_zero(value: Option<Number>) -> (r: Number)
    ensures
        r == or_zero(value),
{
    match value {
        Some(number) => number,
        None => Number { bits: ZERO },
    }
}

/// Records that were compared with a value of the baseline.
pub struct Measured;

impl Select<BenchmarkDelta> for Measured {
    open spec fn wants(&self, delta: BenchmarkDeltaView) -> bool {
        delta.delta_pct is Some
    }

    fn accepts(&self, delta: &BenchmarkDelta) -> (r: bool) {
        delta.delta_pct.is_some()
    }
}

/// Records that are better by a threshold at least.
pub struct Better {
    pub threshold: Number,
}

impl Select<BenchmarkDelta> for Better {
    open spec fn wants(&self, delta: BenchmarkDeltaView) -> bool {
        self.threshold.at_most(or_zero(delta.directional_delta_pct))
    }

    fn accepts(&self, delta: &BenchmarkDelta) -> (r: bool) {
        self.threshold.is_at_most(&number_or_zero(delta.directional_delta_pct))
    }
}

/// Records that are worse by a threshold at least.
pub struct Worse {
    pub threshold: Number,
}

impl Select<BenchmarkDelta> for Worse {
    open spec fn wants(&self, delta: BenchmarkDeltaView) -> bool {
        or_zero(delta.directional_delta_pct).at_most(self.threshold.negated())
    }

    fn accepts(&self, delta: &BenchmarkDelta) -> (r: bool) {
        number_or_zero(delta.directional_delta_pct).is_at_most(&self.threshold.negate())
    }
}

/// Records that could be relied on in the baseline, and now cannot.
pub struct Destabilized<'a> {
    pub config: &'a BenchSummaryConfig,
}

impl<'a> Select<BenchmarkDelta> for Destabilized<'a> {
    open spec fn wants(&self, delta: BenchmarkDeltaView) -> bool {
        trusted_stability(delta.baseline_stability, self.config) && !trusted_stability(
            delta.current_stability,
            self.config,
        )
    }

    fn accepts(&self, delta: &BenchmarkDelta) -> (r: bool) {
        is_authoritative_stability(&delta.baseline_stability, self.config)
            && !is_authoritative_stability(&delta.current_stability, self.config)
    }
}

/// Records that could not be relied on in the baseline, and now can.
pub struct Stabilized<'a> {
    pub config: &'a BenchSummaryConfig,
}

impl<'a> Select<BenchmarkDelta> for Stabilized<'a> {
    open spec fn wants(&self, delta: BenchmarkDeltaView) -> bool {
        !trusted_stability(delta.baseline_stability, self.config) && trusted_stability(
            delta.current_stability,
            self.config,
        )
    }

    fn accepts(&self, delta: &BenchmarkDelta) -> (r: bool) {
        !is_authoritative_stability(&delta.baseline_stability, self.config)
            && is_authoritative_stability(&delta.current_stability, self.config)
    }
}

/// How many deltas satisfy a condition.
pub open spec fn tally<S: Select<BenchmarkDelta>>(deltas: Seq<BenchmarkDeltaView>, select: &S) -> nat {
    keep(deltas, wanted::<BenchmarkDelta, S>(select)).len()
}

/// Whether a summary counts what a comparison shows.
pub open spec fn summarizes(
    summary: ComparisonSummary,
    records: Seq<BenchmarkRecordView>,
    comparison: ComparisonOutcomeView,
    baseline_available: bool,
    risk_areas: usize,
    config: &BenchSummaryConfig,
) -> bool {
    let warning = config.thresholds.warning_regression_pct;
    let critical = config.thresholds.critical_regression_pct;
    &&& summary.performance_changes == tally(comparison.deltas, &Measured)
    &&& summary.improved == tally(comparison.deltas, &Better { threshold: warning })
    &&& summary.regressions == tally(comparison.deltas, &Worse { threshold: warning })
    &&& summary.critical == tally(comparison.deltas, &Worse { threshold: critical })
    &&& summary.stability_regressions == tally(comparison.deltas, &Destabilized { config })
    &&& summary.stability_improvements == tally(comparison.deltas, &Stabilized { config })
    &&& summary.new == comparison.new_records.len()
    &&& summary.missing == comparison.missing_records.len()
    &&& summary.risk_areas == risk_areas
    &&& summary.authoritative == run_trusted(records, config)
    &&& summary.baseline_available == baseline_available
}

pub fn build_comparison_summary(
    records: &Vec<BenchmarkRecord>,
    comparison: &ComparisonOutcome,
    baseline_available: bool,
    risk_areas: usize,
    config: &BenchSummaryConfig,
) -> (r: ComparisonSummary)
    ensures
        summarizes(r, views(records@), comparison@, baseline_available, risk_areas, config),
{
    let warning = config.thresholds.warning_regression_pct;
    let critical = config.thresholds.critical_regression_pct;
    ComparisonSummary {
        performance_changes: count(&comparison.deltas, &Measured),
        improved: count(&comparison.deltas, &Better { threshold: warning }),
        regressions: count(&comparison.deltas, &Worse { threshold: warning }),
        critical: count(&comparison.deltas, &Worse { threshold: critical }),
        stability_regressions: count(&comparison.deltas, &Destabilized { config }),
        stability_improvements: count(&comparison.deltas, &Stabilized { config }),
        new: comparison.new_records.len(),
        missing: comparison.missing_records.len(),
        risk_areas,
        authoritative: current_run_authoritative(records, config),
        baseline_available,
    }
}

/// No more records are worse by a threshold than by a lower one.
pub proof fn higher_thresholds_count_less(
    deltas: Seq<BenchmarkDeltaView>,
    lower: Number,
    higher: Number,
)
    requires
        lower.at_most(higher),
    ensures
        tally(deltas, &Worse { threshold: higher }) <= tally(deltas, &Worse { threshold: lower }),
        tally(deltas, &Better { threshold: higher }) <= tally(deltas, &Better { threshold: lower }),
    decreases deltas.len(),
{
    if deltas.len() > 0 {
        higher_thresholds_count_less(deltas.drop_last(), lower, higher);
        let last = deltas.last();
        let strict_worse = Worse { threshold: higher };
        let mild_worse = Worse { threshold: lower };
        assert(wanted::<BenchmarkDelta, Worse>(&strict_worse)(last) ==> wanted::<
            BenchmarkDelta,
            Worse,
        >(&mild_worse)(last));
        let strict_better = Better { threshold: higher };
        let mild_better = Better { threshold: lower };
        assert(wanted::<BenchmarkDelta, Better>(&strict_better)(last) ==> wanted::<
            BenchmarkDelta,
            Better,
        >(&mild_better)(last));
    }
}

/// How a record is called in notes.
pub open spec fn label_of(record: BenchmarkRecordView) -> Seq<char> {
    let name = record.adapter + " / "@ + record.suite + " / "@ + record.case;
    match record.scenario {
        Some(scenario) => name + " ("@ + scenario + ")"@,
        None => name,
    }
}

fn record_label(record: &BenchmarkRecord) -> (r: String)
    ensures
        r@ == label_of(record@),
{
    let mut out = record.adapter.clone();
    out.append(" / ");
    out.append(record.suite.as_str());
    out.append(" / ");
    out.append(record.case.as_str());
    match &record.scenario {
        Some(scenario) => {
            out.append(" (");
            out.append(scenario.as_str());
            out.append(")");
        },
        None => {},
    }
    out
}

/// A relative standard deviation in per cent.
pub open spec fn deviation_text(
    value: Option<Number>,
    arithmetic: Arithmetic,
    notation: Notation,
) -> Seq<char> {
    match value {
        None => "NA"@,
        Some(share) => notation(
            arithmetic(share, Operation::Product, Number { bits: HUNDRED }),
            Style::Fixed(1),
        ) + "%"@,
    }
}

pub(crate) fn format_rel_stddev<C, S>(value: Option<Number>, compute: &C, show: &S) -> (r:
    String) where C: Fn(Number, Operation, Number) -> Number, S: Fn(Number, Style) -> String
    requires
        computes(*compute),
        writes(*show),
    ensures
        r@ == deviation_text(value, arithmetic(*compute), notation(*show)),
{
    match value {
        None => "NA".to_owned(),
        Some(share) => {
            let scaled = computed(compute, share, Operation::Product, Number { bits: HUNDRED });
            let mut out = shown(show, scaled, Style::Fixed(1));
            out.append("%");
            out
        },
    }
}

/// A change in per cent with its sign.
pub open spec fn change_text(value: Option<Number>, notation: Notation) -> Seq<char> {
    match value {
        None => "NA"@,
        Some(change) => (if (Number { bits: ZERO }).at_most(change) {
            "+"@
        } else {
            ""@
        }) + notation(change, Style::Fixed(1)) + "%"@,
    }
}

pub(crate) fn format_delta<S: Fn(Number, Style) -> String>(value: Option<Number>, show: &S) -> (r:
    String)
    requires
        writes(*show),
    ensures
        r@ == change_text(value, notation(*show)),
{
    match value {
        None => "NA".to_owned(),
        Some(change) => {
            let zero = Number { bits: ZERO };
            let mut out = if zero.is_at_most(&change) {
                "+".to_owned()
            } else {
                "".to_owned()
            };
            out.append(shown(show, change, Style::Fixed(1)).as_str());
            out.append("%");
            out
        },
    }
}

/// Whether a status or a stability is this text.
pub open spec fn reads_as(value: Option<Seq<char>>, text: Seq<char>) -> bool {
    value == Some(text)
}

fn is_text(value: &Option<String>, text: &str) -> (r: bool)
    ensures
        r == reads_as(option_view(*value), text@),
{
    match value {
        Some(own) => same(own.as_str(), text),
        None => false,
    }
}

/// Records with too few samples.
pub struct Insufficient;

impl Select<BenchmarkRecord> for Insufficient {
    open spec fn wants(&self, record: BenchmarkRecordView) -> bool {
        reads_as(record.status, "insufficient_data"@)
    }

    fn accepts(&self, record: &BenchmarkRecord) -> (r: bool) {
        is_text(&record.status, "insufficient_data")
    }
}

impl Describe<BenchmarkRecord> for Insufficient {
    open spec fn ready(&self) -> bool {
        true
    }

    open spec fn text(&self, record: BenchmarkRecordView) -> Seq<char> {
        label_of(record) + ": insufficient data ("@ + decimal(
            match record.samples {
                Some(samples) => samples as nat,
                None => 0,
            },
        ) + " sample(s))."@
    }

    fn describe(&self, record: &BenchmarkRecord) -> (r: String) {
        let samples: u64 = match record.samples {
            Some(samples) => samples as u64,
            None => 0,
        };
        let mut out = record_label(record);
        out.append(": insufficient data (");
        out.append(number(samples).as_str());
        out.append(" sample(s)).");
        out
    }
}

/// Records whose samples differ too much.
pub struct Unstable;

impl Select<BenchmarkRecord> for Unstable {
    open spec fn wants(&self, record: BenchmarkRecordView) -> bool {
        reads_as(record.stability, "noisy"@) || reads_as(record.stability, "untrustworthy"@)
    }

    fn accepts(&self, record: &BenchmarkRecord) -> (r: bool) {
        is_text(&record.stability, "noisy") || is_text(&record.stability, "untrustworthy")
    }
}

/// Orders records by their relative standard deviation, the highest first.
pub struct NoisiestFirst;

impl Order<BenchmarkRecord> for NoisiestFirst {
    open spec fn before(a: BenchmarkRecordView, b: BenchmarkRecordView) -> bool {
        or_zero(b.rel_stddev).rank() < or_zero(a.rel_stddev).rank()
    }

    fn is_before(a: &BenchmarkRecord, b: &BenchmarkRecord) -> (r: bool) {
        number_or_zero(b.rel_stddev).ranks_below(&number_or_zero(a.rel_stddev))
    }

    proof fn strict_weak(a: BenchmarkRecordView, b: BenchmarkRecordView, c: BenchmarkRecordView) {
    }
}

/// What is noted of a record whose samples differ too much.
pub open spec fn deviation_note(
    record: BenchmarkRecordView,
    arithmetic: Arithmetic,
    notation: Notation,
) -> Seq<char> {
    label_of(record) + ": unstable variance ("@ + deviation_text(
        record.rel_stddev,
        arithmetic,
        notation,
    ) + " RSD)."@
}

/// Tells how much the samples of a record differ.
pub struct Deviations<'a, C, S> {
    pub compute: &'a C,
    pub show: &'a S,
}

impl<'a, C, S> Describe<BenchmarkRecord> for Deviations<'a, C, S> where
    C: Fn(Number, Operation, Number) -> Number,
    S: Fn(Number, Style) -> String,
 {
    open spec fn ready(&self) -> bool {
        computes(*self.compute) && writes(*self.show)
    }

    open spec fn text(&self, record: BenchmarkRecordView) -> Seq<char> {
        deviation_note(record, arithmetic(*self.compute), notation(*self.show))
    }

    fn describe(&self, record: &BenchmarkRecord) -> (r: String) {
        let mut out = record_label(record);
        out.append(": unstable variance (");
        out.append(format_rel_stddev(record.rel_stddev, self.compute, self.show).as_str());
        out.append(" RSD).");
        out
    }
}

/// Records with a status that someone has to look at.
pub struct Unreviewed<'a> {
    pub config: &'a BenchSummaryConfig,
}

impl<'a> Select<BenchmarkRecord> for Unreviewed<'a> {
    open spec fn wants(&self, record: BenchmarkRecordView) -> bool {
        record.status matches Some(status) && status != "insufficient_data"@
            && !self.config.authoritative_statuses@.contains(status)
    }

    fn accepts(&self, record: &BenchmarkRecord) -> (r: bool) {
        match &record.status {
            Some(status) => !same(status.as_str(), "insufficient_data")
                && !self.config.authoritative_statuses.contains(status.as_str()),
            None => false,
        }
    }
}

impl<'a> Describe<BenchmarkRecord> for Unreviewed<'a> {
    open spec fn ready(&self) -> bool {
        true
    }

    open spec fn text(&self, record: BenchmarkRecordView) -> Seq<char> {
        label_of(record) + ": status "@ + (match record.status {
            Some(status) => status,
            None => "unknown"@,
        }) + " requires manual review."@
    }

    fn describe(&self, record: &BenchmarkRecord) -> (r: String) {
        let mut out = record_label(record);
        out.append(": status ");
        out.append(
            match &record.status {
                Some(status) => status.as_str(),
                None => "unknown",
            },
        );
        out.append(" requires manual review.");
        out
    }
}

/// Orders deltas by how much better they are, the worst first.
pub struct WorstFirst;

impl Order<BenchmarkDelta> for WorstFirst {
    open spec fn before(a: BenchmarkDeltaView, b: BenchmarkDeltaView) -> bool {
        or_zero(a.directional_delta_pct).rank() < or_zero(b.directional_delta_pct).rank()
    }

    fn is_before(a: &BenchmarkDelta, b: &BenchmarkDelta) -> (r: bool) {
        number_or_zero(a.directional_delta_pct).ranks_below(
            &number_or_zero(b.directional_delta_pct),
        )
    }

    proof fn strict_weak(a: BenchmarkDeltaView, b: BenchmarkDeltaView, c: BenchmarkDeltaView) {
    }
}

/// How a delta is called in notes.
pub open spec fn delta_label(delta: BenchmarkDeltaView) -> Seq<char> {
    delta.suite + " / "@ + delta.case + " / "@ + delta.metric
}

fn label_delta(delta: &BenchmarkDelta) -> (r: String)
    ensures
        r@ == delta_label(delta@),
{
    let mut out = delta.suite.clone();
    out.append(" / ");
    out.append(delta.case.as_str());
    out.append(" / ");
    out.append(delta.metric.as_str());
    out
}

/// What is noted of a record that is much worse than the baseline.
pub open spec fn critical_note(delta: BenchmarkDeltaView, notation: Notation) -> Seq<char> {
    delta_label(delta) + ": critical regression "@ + change_text(
        delta.directional_delta_pct,
        notation,
    ) + " vs baseline."@
}

/// Tells how much worse a record is than the baseline.
pub struct Regressions<'a, S> {
    pub show: &'a S,
}

impl<'a, S: Fn(Number, Style) -> String> Describe<BenchmarkDelta> for Regressions<'a, S> {
    open spec fn ready(&self) -> bool {
        writes(*self.show)
    }

    open spec fn text(&self, delta: BenchmarkDeltaView) -> Seq<char> {
        critical_note(delta, notation(*self.show))
    }

    fn describe(&self, delta: &BenchmarkDelta) -> (r: String) {
        let mut out = label_delta(delta);
        out.append(": critical regression ");
        out.append(format_delta(delta.directional_delta_pct, self.show).as_str());
        out.append(" vs baseline.");
        out
    }
}

/// Deltas of metrics that no longer mean what they meant in the baseline.
pub struct Redefined;

impl Select<BenchmarkDelta> for Redefined {
    open spec fn wants(&self, delta: BenchmarkDeltaView) -> bool {
        delta.semantic_change is Some
    }

    fn accepts(&self, delta: &BenchmarkDelta) -> (r: bool) {
        delta.semantic_change.is_some()
    }
}

impl Describe<BenchmarkDelta> for Redefined {
    open spec fn ready(&self) -> bool {
        true
    }

    open spec fn text(&self, delta: BenchmarkDeltaView) -> Seq<char> {
        delta_label(delta) + ": "@ + (match delta.semantic_change {
            Some(reason) => reason,
            None => "semantic change"@,
        }) + "; baseline should be refreshed."@
    }

    fn describe(&self, delta: &BenchmarkDelta) -> (r: String) {
        let mut out = label_delta(delta);
        out.append(": ");
        out.append(
            match &delta.semantic_change {
                Some(reason) => reason.as_str(),
                None => "semantic change",
            },
        );
        out.append("; baseline should be refreshed.");
        out
    }
}

/// Tells which records were probably renamed.
pub struct Renamed;

impl Describe<ProbableRename> for Renamed {
    open spec fn ready(&self) -> bool {
        true
    }

    open spec fn text(&self, rename: ProbableRenameView) -> Seq<char> {
        "Probable renamed row: "@ + rename.baseline_id + " -> "@ + rename.current_id + " ("@
            + rename.changed_key + ": "@ + rename.baseline_value + " -> "@ + rename.current_value
            + ")."@
    }

    fn describe(&self, rename: &ProbableRename) -> (r: String) {
        let mut out = "Probable renamed row: ".to_owned();
        out.append(rename.baseline_id.as_str());
        out.append(" -> ");
        out.append(rename.current_id.as_str());
        out.append(" (");
        out.append(rename.changed_key.as_str());
        out.append(": ");
        out.append(rename.baseline_value.as_str());
        out.append(" -> ");
        out.append(rename.current_value.as_str());
        out.append(").");
        out
    }
}

/// What is noted of the records by themselves.
pub open spec fn record_notes(
    records: Seq<BenchmarkRecordView>,
    config: &BenchSummaryConfig,
    arithmetic: Arithmetic,
    notation: Notation,
) -> Seq<Seq<char>> {
    mapped(
        first_of(keep(records, wanted::<BenchmarkRecord, Insufficient>(&Insufficient)), 12),
        texts::<BenchmarkRecord, Insufficient>(&Insufficient),
    ) + mapped(
        first_of(
            sorted::<BenchmarkRecord, NoisiestFirst>(
                keep(records, wanted::<BenchmarkRecord, Unstable>(&Unstable)),
            ),
            8,
        ),
        |r: BenchmarkRecordView| deviation_note(r, arithmetic, notation),
    ) + mapped(
        first_of(
            keep(records, wanted::<BenchmarkRecord, Unreviewed>(&Unreviewed { config })),
            8,
        ),
        texts::<BenchmarkRecord, Unreviewed>(&Unreviewed { config }),
    )
}

/// What is noted of the records against the baseline.
pub open spec fn comparison_notes(
    comparison: ComparisonOutcomeView,
    config: &BenchSummaryConfig,
    notation: Notation,
) -> Seq<Seq<char>> {
    let critical = Worse { threshold: config.thresholds.critical_regression_pct };
    mapped(
        first_of(
            sorted::<BenchmarkDelta, WorstFirst>(
                keep(comparison.deltas, wanted::<BenchmarkDelta, Worse>(&critical)),
            ),
            8,
        ),
        |d: BenchmarkDeltaView| critical_note(d, notation),
    ) + mapped(
        first_of(keep(comparison.deltas, wanted::<BenchmarkDelta, Redefined>(&Redefined)), 8),
        texts::<BenchmarkDelta, Redefined>(&Redefined),
    ) + coverage_notes(comparison) + mapped(
        first_of(comparison.probable_renames, 8),
        texts::<ProbableRename, Renamed>(&Renamed),
    )
}

/// What is noted of records that are in the run or in the baseline only.
pub open spec fn coverage_notes(comparison: ComparisonOutcomeView) -> Seq<Seq<char>> {
    (if comparison.new_records.len() > 0 {
        seq![
            decimal(comparison.new_records.len())
                + " current record(s) do not have baseline coverage."@,
        ]
    } else {
        seq![]
    }) + (if comparison.missing_records.len() > 0 {
        seq![
            decimal(comparison.missing_records.len())
                + " baseline record(s) were not present in the current run."@,
        ]
    } else {
        seq![]
    })
}

/// What is noted of a run.
pub open spec fn measurement_notes(
    records: Seq<BenchmarkRecordView>,
    comparison: ComparisonOutcomeView,
    config: &BenchSummaryConfig,
    arithmetic: Arithmetic,
    notation: Notation,
) -> Seq<Seq<char>> {
    let notes = record_notes(records, config, arithmetic, notation) + comparison_notes(
        comparison,
        config,
        notation,
    );
    if notes.len() == 0 {
        seq!["No major measurement warnings detected in current data."@]
    } else {
        notes
    }
}

fn push_coverage_notes(notes: &mut Vec<String>, comparison: &ComparisonOutcome)
    ensures
        views(final(notes)@) == views(old(notes)@) + coverage_notes(comparison@),
{
    let ghost before = views(notes@);
    if comparison.new_records.len() > 0 {
        let mut note = number(comparison.new_records.len() as u64);
        note.append(" current record(s) do not have baseline coverage.");
        notes.push(note);
    }
    if comparison.missing_records.len() > 0 {
        let mut note = number(comparison.missing_records.len() as u64);
        note.append(" baseline record(s) were not present in the current run.");
        notes.push(note);
    }
    assert(views(notes@) =~= before + coverage_notes(comparison@));
}

fn push_record_notes<C, S>(
    notes: &mut Vec<String>,
    records: &Vec<BenchmarkRecord>,
    config: &BenchSummaryConfig,
    compute: &C,
    show: &S,
) where C: Fn(Number, Operation, Number) -> Number, S: Fn(Number, Style) -> String
    requires
        computes(*compute),
        writes(*show),
    ensures
        views(final(notes)@) == views(old(notes)@) + record_notes(
            views(records@),
            config,
            arithmetic(*compute),
            notation(*show),
        ),
{
    let ghost before = views(notes@);
    describe_first(notes, &selected(records, &Insufficient), 12, &Insufficient);
    let unstable = sort::<BenchmarkRecord, NoisiestFirst>(selected(records, &Unstable));
    let deviations = Deviations { compute, show };
    describe_first(notes, &unstable, 8, &deviations);
    assert(texts::<BenchmarkRecord, Deviations<C, S>>(&deviations) =~= (|r: BenchmarkRecordView|
        deviation_note(r, arithmetic(*compute), notation(*show))));
    let unreviewed = Unreviewed { config };
    describe_first(notes, &selected(records, &unreviewed), 8, &unreviewed);
    assert(views(notes@) =~= before + record_notes(
        views(records@),
        config,
        arithmetic(*compute),
        notation(*show),
    ));
}

fn push_comparison_notes<S: Fn(Number, Style) -> String>(
    notes: &mut Vec<String>,
    comparison: &ComparisonOutcome,
    config: &BenchSummaryConfig,
    show: &S,
)
    requires
        writes(*show),
    ensures
        views(final(notes)@) == views(old(notes)@) + comparison_notes(
            comparison@,
            config,
            notation(*show),
        ),
{
    let ghost before = views(notes@);
    let critical = Worse { threshold: config.thresholds.critical_regression_pct };
    let worst = sort::<BenchmarkDelta, WorstFirst>(selected(&comparison.deltas, &critical));
    let regressions = Regressions { show };
    describe_first(notes, &worst, 8, &regressions);
    assert(texts::<BenchmarkDelta, Regressions<S>>(&regressions) =~= (|d: BenchmarkDeltaView|
        critical_note(d, notation(*show))));
    describe_first(notes, &selected(&comparison.deltas, &Redefined), 8, &Redefined);
    push_coverage_notes(notes, comparison);
    describe_first(notes, &comparison.probable_renames, 8, &Renamed);
    assert(views(notes@) =~= before + comparison_notes(comparison@, config, notation(*show)));
}

/// What is to be noted of a run.
pub fn collect_measurement_notes<C, S>(
    records: &Vec<BenchmarkRecord>,
    comparison: &ComparisonOutcome,
    config: &BenchSummaryConfig,
    compute: &C,
    show: &S,
) -> (r: Vec<String>) where
    C: Fn(Number, Operation, Number) -> Number,
    S: Fn(Number, Style) -> String,

    requires
        computes(*compute),
        writes(*show),
    ensures
        views(r@) == measurement_notes(
            views(records@),
            comparison@,
            config,
            arithmetic(*compute),
            notation(*show),
        ),
{
    let mut notes: Vec<String> = Vec::new();
    push_record_notes(&mut notes, records, config, compute, show);
    push_comparison_notes(&mut notes, comparison, config, show);
    assert(views(notes@) =~= record_notes(
        views(records@),
        config,
        arithmetic(*compute),
        notation(*show),
    ) + comparison_notes(comparison@, config, notation(*show)));
    if notes.len() == 0 {
        notes.push("No major measurement warnings detected in current data.".to_owned());
        assert(views(notes@) =~= seq![
            "No major measurement warnings detected in current data."@,
        ]);
    }
    notes
}

} // verus!
