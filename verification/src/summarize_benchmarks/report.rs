//! Reports of a benchmark run: tables in Markdown and rows for CSV files.

use vstd::prelude::*;

use super::classify::{change_text, deviation_text, format_delta, format_rel_stddev};
use super::compare::{find_record, record_of, ComparisonOutcome, ComparisonOutcomeView};
use super::config::BenchSummaryConfig;
use super::model::{
    BenchmarkDelta, BenchmarkDeltaView, BenchmarkManifest, BenchmarkManifestView, BenchmarkRecord,
    BenchmarkRecordView, ComparisonSummary, MetricDirection, SweepGroup, SweepGroupView, SweepPoint,
    SweepPointView,
};
use super::numbers::{
    arithmetic, computes, notation, shown, writes, Arithmetic, Notation, Number, Operation, Style,
};
use crate::copies::option_view;
use crate::names::{listed, NameMap};
use crate::paths::{display_relative, relative_to, Separators};
use crate::select::{describe_all, described, selected, texts, wanted, Describe, Select};
use crate::seqs::{flat, keep, mapped, take_all, take_step, views};
use crate::text::{decimal, join, joined, number, same};

verus! {

broadcast use {vstd::std_specs::vec::group_vec_axioms, crate::seqs::group_views};

/// A row of a table.
pub struct Row {
    pub cells: Vec<String>,
}

impl View for Row {
    type V = Seq<Seq<char>>;

    open spec fn view(&self) -> Seq<Seq<char>> {
        views(self.cells@)
    }
}

/// A row of a table in Markdown.
pub open spec fn row_text(cells: Seq<Seq<char>>) -> Seq<char> {
    "| "@ + joined(cells, " | "@) + " |\n"@
}

fn row_line(cells: &Vec<String>) -> (r: String)
    ensures
        r@ == row_text(views(cells@)),
{
    let mut out = "| ".to_owned();
    out.append(join(cells, " | ").as_str());
    out.append(" |\n");
    out
}

/// A table in Markdown; nothing where it has no rows.
pub open spec fn table<A>(head: Seq<char>, items: Seq<A>, line: spec_fn(A) -> Seq<char>) -> Seq<
    char,
> {
    if items.len() == 0 {
        seq![]
    } else {
        head + flat(items, line) + "\n"@
    }
}

fn write_table<T: View, D: Describe<T>>(
    content: &mut String,
    head: &str,
    items: &Vec<T>,
    describe: &D,
)
    requires
        describe.ready(),
    ensures
        final(content)@ == old(content)@ + table(
            head@,
            views(items@),
            texts::<T, D>(describe),
        ),
{
    let ghost before = content@;
    if items.len() > 0 {
        content.append(head);
        describe_all(content, items, describe);
        content.append("\n");
    }
    assert(content@ =~= before + table(head@, views(items@), texts::<T, D>(describe)));
}

/// A text, or `NA` where there is none.
pub open spec fn or_na(value: Option<Seq<char>>) -> Seq<char> {
    match value {
        Some(text) => text,
        None => "NA"@,
    }
}

fn text_or_na(value: &Option<String>) -> (r: String)
    ensures
        r@ == or_na(option_view(*value)),
{
    match value {
        Some(text) => text.clone(),
        None => "NA".to_owned(),
    }
}

/// A count, or `NA` where there is none.
pub open spec fn count_text(value: Option<usize>) -> Seq<char> {
    match value {
        Some(n) => decimal(n as nat),
        None => "NA"@,
    }
}

fn count_or_na(value: Option<usize>) -> (r: String)
    ensures
        r@ == count_text(value),
{
    match value {
        Some(n) => number(n as u64),
        None => "NA".to_owned(),
    }
}

pub open spec fn truth_text(value: bool) -> Seq<char> {
    if value {
        "true"@
    } else {
        "false"@
    }
}

pub(crate) fn truth(value: bool) -> (r: String)
    ensures
        r@ == truth_text(value),
{
    if value {
        "true".to_owned()
    } else {
        "false".to_owned()
    }
}

/// How many digits a measurement in a unit has behind the point.
pub open spec fn unit_digits(unit: Seq<char>) -> usize {
    if unit == "ns"@ {
        0
    } else if unit == "us"@ || unit == "ms"@ {
        3
    } else if unit == "ops/s"@ {
        0
    } else {
        6
    }
}

/// A measurement in a unit.
pub open spec fn measurement_text(value: Number, unit: Seq<char>, notation: Notation) -> Seq<char> {
    notation(value, Style::Fixed(unit_digits(unit)))
}

fn format_measurement<S: Fn(Number, Style) -> String>(value: Number, unit: &str, show: &S) -> (r:
    String)
    requires
        writes(*show),
    ensures
        r@ == measurement_text(value, unit@, notation(*show)),
{
    let digits: usize = if same(unit, "ns") {
        0
    } else if same(unit, "us") || same(unit, "ms") {
        3
    } else if same(unit, "ops/s") {
        0
    } else {
        6
    };
    shown(show, value, Style::Fixed(digits))
}

/// An optional number with six digits behind the point.
pub open spec fn number_text(value: Option<Number>, notation: Notation) -> Seq<char> {
    match value {
        Some(n) => notation(n, Style::Fixed(6)),
        None => "NA"@,
    }
}

fn format_optional_number<S: Fn(Number, Style) -> String>(value: Option<Number>, show: &S) -> (r:
    String)
    requires
        writes(*show),
    ensures
        r@ == number_text(value, notation(*show)),
{
    match value {
        Some(n) => shown(show, n, Style::Fixed(6)),
        None => "NA".to_owned(),
    }
}

/// A line that tells where a file is.
pub open spec fn file_line(name: Seq<char>, root: Seq<char>, path: Option<Seq<char>>) -> Seq<char> {
    match path {
        Some(path) => "- "@ + name + ": "@ + relative_to(root, path, Separators::Slash) + "\n"@,
        None => seq![],
    }
}

fn write_file_line(content: &mut String, name: &str, root: &str, path: Option<&str>)
    ensures
        final(content)@ == old(content)@ + file_line(name@, root@, option_view(path)),
{
    let ghost before = content@;
    match path {
        Some(path) => {
            content.append("- ");
            content.append(name);
            content.append(": ");
            content.append(display_relative(root, path, Separators::Slash).as_str());
            content.append("\n");
        },
        None => {},
    }
    assert(content@ =~= before + file_line(name@, root@, option_view(path)));
}

/// What a report starts with.
pub open spec fn head_section(
    config: &BenchSummaryConfig,
    manifest: BenchmarkManifestView,
) -> Seq<char> {
    "# "@ + config@.report_title + "\n\n- product: "@ + config@.product_name
        + "\n- generated_at: "@ + manifest.generated_at + "\n- commit: "@ + (
    match manifest.commit_hash {
        Some(hash) => hash,
        None => "unknown"@,
    }) + "\n- baseline_available: "@ + truth_text(manifest.comparison_summary.baseline_available)
        + "\n- record_count: "@ + decimal(manifest.records.len()) + "\n"@ + file_line(
        "manifest"@,
        config@.root,
        Some(config@.manifest_file),
    ) + file_line("baseline"@, config@.root, Some(config@.baseline_file)) + file_line(
        "criterion_csv"@,
        config@.root,
        config@.criterion_csv(),
    ) + file_line("stress_csv"@, config@.root, config@.stress_csv()) + "\n"@
}

fn write_head_section(
    content: &mut String,
    config: &BenchSummaryConfig,
    manifest: &BenchmarkManifest,
)
    ensures
        final(content)@ == old(content)@ + head_section(config, manifest@),
{
    let ghost before = content@;
    let mut own = "# ".to_owned();
    own.append(config.report_title.as_str());
    own.append("\n\n- product: ");
    own.append(config.product_name.as_str());
    own.append("\n- generated_at: ");
    own.append(manifest.generated_at.as_str());
    own.append("\n- commit: ");
    own.append(
        match &manifest.commit_hash {
            Some(hash) => hash.as_str(),
            None => "unknown",
        },
    );
    own.append("\n- baseline_available: ");
    own.append(truth(manifest.comparison_summary.baseline_available).as_str());
    own.append("\n- record_count: ");
    own.append(number(manifest.records.len() as u64).as_str());
    own.append("\n");
    let root = config.root.as_str();
    write_file_line(&mut own, "manifest", root, Some(config.manifest_file.as_str()));
    write_file_line(&mut own, "baseline", root, Some(config.baseline_file.as_str()));
    let criterion = match config.criterion_csv_output() {
        Some(path) => Some(path.as_str()),
        None => None,
    };
    write_file_line(&mut own, "criterion_csv", root, criterion);
    let stress = match config.stress_csv_output() {
        Some(path) => Some(path.as_str()),
        None => None,
    };
    write_file_line(&mut own, "stress_csv", root, stress);
    own.append("\n");
    assert(own@ =~= head_section(config, manifest@));
    content.append(own.as_str());
}

/// The counts of a comparison.
pub open spec fn summary_cells(summary: ComparisonSummary) -> Seq<Seq<char>> {
    seq![
        decimal(summary.performance_changes as nat),
        decimal(summary.improved as nat),
        decimal(summary.regressions as nat),
        decimal(summary.critical as nat),
        decimal(summary.stability_regressions as nat),
        decimal(summary.stability_improvements as nat),
        decimal(summary.new as nat),
        decimal(summary.missing as nat),
        decimal(summary.risk_areas as nat),
        truth_text(summary.authoritative),
    ]
}

/// The table of the counts of a comparison.
pub open spec fn summary_section(summary: ComparisonSummary) -> Seq<char> {
    "## Comparison Summary\n\n| performance_changes | improved | regressions | critical | stability_regressions | stability_improvements | new | missing | risk_areas | authoritative |\n|---|---|---|---|---|---|---|---|---|---|\n"@
        + row_text(summary_cells(summary)) + "\n"@
}

fn write_summary_section(content: &mut String, summary: &ComparisonSummary)
    ensures
        final(content)@ == old(content)@ + summary_section(*summary),
{
    let ghost before = content@;
    content.append(
        "## Comparison Summary\n\n| performance_changes | improved | regressions | critical | stability_regressions | stability_improvements | new | missing | risk_areas | authoritative |\n|---|---|---|---|---|---|---|---|---|---|\n",
    );
    let mut cells: Vec<String> = Vec::new();
    cells.push(number(summary.performance_changes as u64));
    cells.push(number(summary.improved as u64));
    cells.push(number(summary.regressions as u64));
    cells.push(number(summary.critical as u64));
    cells.push(number(summary.stability_regressions as u64));
    cells.push(number(summary.stability_improvements as u64));
    cells.push(number(summary.new as u64));
    cells.push(number(summary.missing as u64));
    cells.push(number(summary.risk_areas as u64));
    cells.push(truth(summary.authoritative));
    assert(views(cells@) =~= summary_cells(*summary));
    content.append(row_line(&cells).as_str());
    content.append("\n");
    assert(content@ =~= before + summary_section(*summary));
}

/// The row of a record among the results.
pub open spec fn result_row(
    record: BenchmarkRecordView,
    arithmetic: Arithmetic,
    notation: Notation,
) -> Seq<char> {
    row_text(
        seq![
            record.case,
            or_na(record.scenario),
            record.metric,
            measurement_text(record.value, record.unit, notation),
            record.unit,
            count_text(record.samples),
            deviation_text(record.rel_stddev, arithmetic, notation),
            or_na(record.stability),
            or_na(record.status),
        ],
    )
}

/// Writes records as rows among the results.
pub struct Results<'a, C, S> {
    pub compute: &'a C,
    pub show: &'a S,
}

impl<'a, C, S> Describe<BenchmarkRecord> for Results<'a, C, S> where
    C: Fn(Number, Operation, Number) -> Number,
    S: Fn(Number, Style) -> String,
 {
    open spec fn ready(&self) -> bool {
        computes(*self.compute) && writes(*self.show)
    }

    open spec fn text(&self, record: BenchmarkRecordView) -> Seq<char> {
        result_row(record, arithmetic(*self.compute), notation(*self.show))
    }

    fn describe(&self, record: &BenchmarkRecord) -> (r: String) {
        let mut cells: Vec<String> = Vec::new();
        cells.push(record.case.clone());
        cells.push(text_or_na(&record.scenario));
        cells.push(record.metric.clone());
        cells.push(format_measurement(record.value, record.unit.as_str(), self.show));
        cells.push(record.unit.clone());
        cells.push(count_or_na(record.samples));
        cells.push(format_rel_stddev(record.rel_stddev, self.compute, self.show));
        cells.push(text_or_na(&record.stability));
        cells.push(text_or_na(&record.status));
        assert(views(cells@) =~= seq![
            record@.case,
            or_na(record@.scenario),
            record@.metric,
            measurement_text(record@.value, record@.unit, notation(*self.show)),
            record@.unit,
            count_text(record@.samples),
            deviation_text(
                record@.rel_stddev,
                arithmetic(*self.compute),
                notation(*self.show),
            ),
            or_na(record@.stability),
            or_na(record@.status),
        ]);
        row_line(&cells)
    }
}

/// The adapter of a record.
pub struct Adapter;

impl Describe<BenchmarkRecord> for Adapter {
    open spec fn ready(&self) -> bool {
        true
    }

    open spec fn text(&self, record: BenchmarkRecordView) -> Seq<char> {
        record.adapter
    }

    fn describe(&self, record: &BenchmarkRecord) -> (r: String) {
        record.adapter.clone()
    }
}

/// Records of an adapter.
pub struct FromAdapter<'a> {
    pub adapter: &'a str,
}

impl<'a> Select<BenchmarkRecord> for FromAdapter<'a> {
    open spec fn wants(&self, record: BenchmarkRecordView) -> bool {
        record.adapter == self.adapter@
    }

    fn accepts(&self, record: &BenchmarkRecord) -> (r: bool) {
        same(record.adapter.as_str(), self.adapter)
    }
}

/// The suite of a record.
pub struct Suite;

impl Describe<BenchmarkRecord> for Suite {
    open spec fn ready(&self) -> bool {
        true
    }

    open spec fn text(&self, record: BenchmarkRecordView) -> Seq<char> {
        record.suite
    }

    fn describe(&self, record: &BenchmarkRecord) -> (r: String) {
        record.suite.clone()
    }
}

/// Records of a suite.
pub struct InSuite<'a> {
    pub suite: &'a str,
}

impl<'a> Select<BenchmarkRecord> for InSuite<'a> {
    open spec fn wants(&self, record: BenchmarkRecordView) -> bool {
        record.suite == self.suite@
    }

    fn accepts(&self, record: &BenchmarkRecord) -> (r: bool) {
        same(record.suite.as_str(), self.suite)
    }
}

/// The names that records have as adapters.
pub open spec fn adapters_of(records: Seq<BenchmarkRecordView>) -> Set<Seq<char>> {
    mapped(records, |r: BenchmarkRecordView| r.adapter).to_set()
}

/// The suites of some records.
pub open spec fn suites_of(records: Seq<BenchmarkRecordView>) -> Set<Seq<char>> {
    mapped(records, |r: BenchmarkRecordView| r.suite).to_set()
}

/// The results of a suite of an adapter.
pub open spec fn suite_section(
    records: Seq<BenchmarkRecordView>,
    suite: Seq<char>,
    config: &BenchSummaryConfig,
    arithmetic: Arithmetic,
    notation: Notation,
) -> Seq<char> {
    "#### "@ + config@.suite_label(suite) + "\n\n"@ + table(
        "| case | scenario | metric | value | unit | samples | rsd | stability | status |\n|---|---|---|---|---|---|---|---|---|\n"@,
        keep(records, |r: BenchmarkRecordView| r.suite == suite),
        |r: BenchmarkRecordView| result_row(r, arithmetic, notation),
    )
}

/// The results of an adapter, suite by suite.
pub open spec fn adapter_section(
    records: Seq<BenchmarkRecordView>,
    adapter: Seq<char>,
    config: &BenchSummaryConfig,
    arithmetic: Arithmetic,
    notation: Notation,
) -> Seq<char> {
    let own = keep(records, |r: BenchmarkRecordView| r.adapter == adapter);
    "### "@ + adapter + "\n\n"@ + flat(
        listed(suites_of(own)),
        |suite: Seq<char>| suite_section(own, suite, config, arithmetic, notation),
    )
}

/// The results, adapter by adapter.
pub open spec fn results_section(
    records: Seq<BenchmarkRecordView>,
    config: &BenchSummaryConfig,
    arithmetic: Arithmetic,
    notation: Notation,
) -> Seq<char> {
    "## Current Results\n\n"@ + (if records.len() == 0 {
        "- No benchmark records were collected.\n\n"@
    } else {
        flat(
            listed(adapters_of(records)),
            |adapter: Seq<char>| adapter_section(records, adapter, config, arithmetic, notation),
        )
    })
}

fn write_suite_section<C, S>(
    content: &mut String,
    records: &Vec<BenchmarkRecord>,
    suite: &str,
    config: &BenchSummaryConfig,
    compute: &C,
    show: &S,
) where C: Fn(Number, Operation, Number) -> Number, S: Fn(Number, Style) -> String
    requires
        computes(*compute),
        writes(*show),
    ensures
        final(content)@ == old(content)@ + suite_section(
            views(records@),
            suite@,
            config,
            arithmetic(*compute),
            notation(*show),
        ),
{
    let ghost before = content@;
    let in_suite = InSuite { suite };
    let results = Results { compute, show };
    content.append("#### ");
    content.append(config.display_suite_label(suite).as_str());
    content.append("\n\n");
    let own = selected(records, &in_suite);
    write_table(
        content,
        "| case | scenario | metric | value | unit | samples | rsd | stability | status |\n|---|---|---|---|---|---|---|---|---|\n",
        &own,
        &results,
    );
    proof {
        assert(wanted::<BenchmarkRecord, InSuite>(&in_suite) =~= (|r: BenchmarkRecordView|
            r.suite == suite@));
        assert(texts::<BenchmarkRecord, Results<C, S>>(&results) =~= (|r: BenchmarkRecordView|
            result_row(r, arithmetic(*compute), notation(*show))));
    }
    assert(content@ =~= before + suite_section(
        views(records@),
        suite@,
        config,
        arithmetic(*compute),
        notation(*show),
    ));
}

fn write_adapter_section<C, S>(
    content: &mut String,
    records: &Vec<BenchmarkRecord>,
    adapter: &str,
    config: &BenchSummaryConfig,
    compute: &C,
    show: &S,
) where C: Fn(Number, Operation, Number) -> Number, S: Fn(Number, Style) -> String
    requires
        computes(*compute),
        writes(*show),
    ensures
        final(content)@ == old(content)@ + adapter_section(
            views(records@),
            adapter@,
            config,
            arithmetic(*compute),
            notation(*show),
        ),
{
    let ghost before = content@;
    let from_adapter = FromAdapter { adapter };
    let own = selected(records, &from_adapter);
    let names = described(&own, &Suite);
    let suites = names.as_vec();
    let ghost mine = views(own@);
    proof {
        assert(wanted::<BenchmarkRecord, FromAdapter>(&from_adapter) =~= (|r: BenchmarkRecordView|
            r.adapter == adapter@));
        assert(texts::<BenchmarkRecord, Suite>(&Suite) =~= (|r: BenchmarkRecordView| r.suite));
    }
    let ghost all = views(suites@);
    let ghost f = |suite: Seq<char>|
        suite_section(mine, suite, config, arithmetic(*compute), notation(*show));
    content.append("### ");
    content.append(adapter);
    content.append("\n\n");
    let ghost start = content@;
    let mut i: usize = 0;
    assert(start =~= start + flat(all.take(0), f));
    while i < suites.len()
        invariant
            computes(*compute),
            writes(*show),
            mine == views(own@),
            all == views(suites@),
            f == (|suite: Seq<char>|
                suite_section(mine, suite, config, arithmetic(*compute), notation(*show))),
            i <= suites@.len(),
            content@ == start + flat(all.take(i as int), f),
        decreases suites@.len() - i,
    {
        proof {
            take_step(all, i as int);
        }
        write_suite_section(content, &own, suites[i].as_str(), config, compute, show);
        i += 1;
        assert(content@ =~= start + flat(all.take(i as int), f));
    }
    proof {
        take_all(all);
    }
    assert(content@ =~= before + adapter_section(
        views(records@),
        adapter@,
        config,
        arithmetic(*compute),
        notation(*show),
    ));
}

fn write_current_results_section<C, S>(
    content: &mut String,
    config: &BenchSummaryConfig,
    records: &Vec<BenchmarkRecord>,
    compute: &C,
    show: &S,
) where C: Fn(Number, Operation, Number) -> Number, S: Fn(Number, Style) -> String
    requires
        computes(*compute),
        writes(*show),
    ensures
        final(content)@ == old(content)@ + results_section(
            views(records@),
            config,
            arithmetic(*compute),
            notation(*show),
        ),
{
    let ghost before = content@;
    content.append("## Current Results\n\n");
    if records.len() == 0 {
        content.append("- No benchmark records were collected.\n\n");
        assert(content@ =~= before + results_section(
            views(records@),
            config,
            arithmetic(*compute),
            notation(*show),
        ));
        return ;
    }
    let names = described(records, &Adapter);
    let adapters = names.as_vec();
    proof {
        assert(texts::<BenchmarkRecord, Adapter>(&Adapter) =~= (|r: BenchmarkRecordView|
            r.adapter));
    }
    let ghost all = views(adapters@);
    let ghost rows = views(records@);
    let ghost f = |adapter: Seq<char>|
        adapter_section(rows, adapter, config, arithmetic(*compute), notation(*show));
    let ghost start = content@;
    let mut i: usize = 0;
    assert(start =~= start + flat(all.take(0), f));
    while i < adapters.len()
        invariant
            computes(*compute),
            writes(*show),
            rows == views(records@),
            all == views(adapters@),
            f == (|adapter: Seq<char>|
                adapter_section(rows, adapter, config, arithmetic(*compute), notation(*show))),
            i <= adapters@.len(),
            content@ == start + flat(all.take(i as int), f),
        decreases adapters@.len() - i,
    {
        proof {
            take_step(all, i as int);
        }
        write_adapter_section(content, records, adapters[i].as_str(), config, compute, show);
        i += 1;
        assert(content@ =~= start + flat(all.take(i as int), f));
    }
    proof {
        take_all(all);
    }
    assert(content@ =~= before + results_section(
        views(records@),
        config,
        arithmetic(*compute),
        notation(*show),
    ));
}

/// The adapter of the record that a delta is about.
pub open spec fn delta_adapter(
    delta: BenchmarkDeltaView,
    records: Seq<BenchmarkRecordView>,
) -> Seq<char> {
    match record_of(records, delta.id) {
        Some(record) => record.adapter,
        None => "unknown"@,
    }
}

/// What is told of a delta and the record that it is about.
pub open spec fn delta_cells(
    delta: BenchmarkDeltaView,
    record: Option<BenchmarkRecordView>,
    notation: Notation,
) -> Seq<Seq<char>> {
    let unit = match record {
        Some(found) => found.unit,
        None => "value"@,
    };
    let scenario = match record {
        Some(found) => found.scenario,
        None => None,
    };
    seq![
        delta.suite,
        delta.case,
        or_na(scenario),
        delta.metric,
        match delta.baseline_value {
            Some(value) => measurement_text(value, unit, notation),
            None => "NA"@,
        },
        measurement_text(delta.current_value, unit, notation),
        change_text(delta.delta_pct, notation),
        change_text(delta.directional_delta_pct, notation),
        or_na(delta.baseline_stability),
        or_na(delta.current_stability),
        or_na(delta.baseline_status),
        or_na(delta.current_status),
    ]
}

/// The row of a delta.
pub open spec fn delta_row(
    delta: BenchmarkDeltaView,
    records: Seq<BenchmarkRecordView>,
    notation: Notation,
) -> Seq<char> {
    row_text(delta_cells(delta, record_of(records, delta.id), notation))
}

/// Tells the adapter of the record that a delta is about.
pub struct DeltaAdapter<'a> {
    pub records: &'a Vec<BenchmarkRecord>,
}

impl<'a> Describe<BenchmarkDelta> for DeltaAdapter<'a> {
    open spec fn ready(&self) -> bool {
        true
    }

    open spec fn text(&self, delta: BenchmarkDeltaView) -> Seq<char> {
        delta_adapter(delta, views(self.records@))
    }

    fn describe(&self, delta: &BenchmarkDelta) -> (r: String) {
        match find_record(self.records, delta.id.as_str()) {
            Some(record) => record.adapter.clone(),
            None => "unknown".to_owned(),
        }
    }
}

/// Deltas about records of an adapter.
pub struct DeltaFrom<'a> {
    pub adapter: &'a str,
    pub records: &'a Vec<BenchmarkRecord>,
}

impl<'a> Select<BenchmarkDelta> for DeltaFrom<'a> {
    open spec fn wants(&self, delta: BenchmarkDeltaView) -> bool {
        delta_adapter(delta, views(self.records@)) == self.adapter@
    }

    fn accepts(&self, delta: &BenchmarkDelta) -> (r: bool) {
        match find_record(self.records, delta.id.as_str()) {
            Some(record) => same(record.adapter.as_str(), self.adapter),
            None => same("unknown", self.adapter),
        }
    }
}

/// Writes deltas as rows.
pub struct Deltas<'a, S> {
    pub records: &'a Vec<BenchmarkRecord>,
    pub show: &'a S,
}

impl<'a, S: Fn(Number, Style) -> String> Describe<BenchmarkDelta> for Deltas<'a, S> {
    open spec fn ready(&self) -> bool {
        writes(*self.show)
    }

    open spec fn text(&self, delta: BenchmarkDeltaView) -> Seq<char> {
        delta_row(delta, views(self.records@), notation(*self.show))
    }

    fn describe(&self, delta: &BenchmarkDelta) -> (r: String) {
        let (unit, scenario) = match find_record(self.records, delta.id.as_str()) {
            Some(found) => (found.unit.clone(), text_or_na(&found.scenario)),
            None => ("value".to_owned(), "NA".to_owned()),
        };
        let mut cells: Vec<String> = Vec::new();
        cells.push(delta.suite.clone());
        cells.push(delta.case.clone());
        cells.push(scenario);
        cells.push(delta.metric.clone());
        cells.push(
            match delta.baseline_value {
                Some(value) => format_measurement(value, unit.as_str(), self.show),
                None => "NA".to_owned(),
            },
        );
        cells.push(format_measurement(delta.current_value, unit.as_str(), self.show));
        cells.push(format_delta(delta.delta_pct, self.show));
        cells.push(format_delta(delta.directional_delta_pct, self.show));
        cells.push(text_or_na(&delta.baseline_stability));
        cells.push(text_or_na(&delta.current_stability));
        cells.push(text_or_na(&delta.baseline_status));
        cells.push(text_or_na(&delta.current_status));
        assert(views(cells@) =~= delta_cells(
            delta@,
            record_of(views(self.records@), delta@.id),
            notation(*self.show),
        ));
        row_line(&cells)
    }
}

/// The row of a record that is in the run or in the baseline only.
pub open spec fn lone_row(record: BenchmarkRecordView, notation: Notation) -> Seq<char> {
    row_text(
        seq![
            record.adapter,
            record.suite,
            record.case,
            or_na(record.scenario),
            record.metric,
            measurement_text(record.value, record.unit, notation),
            or_na(record.status),
        ],
    )
}

/// Writes records that are in the run or in the baseline only as rows.
pub struct LoneRecords<'a, S> {
    pub show: &'a S,
}

impl<'a, S: Fn(Number, Style) -> String> Describe<BenchmarkRecord> for LoneRecords<'a, S> {
    open spec fn ready(&self) -> bool {
        writes(*self.show)
    }

    open spec fn text(&self, record: BenchmarkRecordView) -> Seq<char> {
        lone_row(record, notation(*self.show))
    }

    fn describe(&self, record: &BenchmarkRecord) -> (r: String) {
        let mut cells: Vec<String> = Vec::new();
        cells.push(record.adapter.clone());
        cells.push(record.suite.clone());
        cells.push(record.case.clone());
        cells.push(text_or_na(&record.scenario));
        cells.push(record.metric.clone());
        cells.push(format_measurement(record.value, record.unit.as_str(), self.show));
        cells.push(text_or_na(&record.status));
        assert(views(cells@) =~= seq![
            record@.adapter,
            record@.suite,
            record@.case,
            or_na(record@.scenario),
            record@.metric,
            measurement_text(record@.value, record@.unit, notation(*self.show)),
            or_na(record@.status),
        ]);
        row_line(&cells)
    }
}

/// The table of records that are in the run or in the baseline only.
pub open spec fn lone_section(
    title: Seq<char>,
    records: Seq<BenchmarkRecordView>,
    notation: Notation,
) -> Seq<char> {
    if records.len() == 0 {
        seq![]
    } else {
        "### "@ + title + "\n\n"@ + table(
            "| adapter | suite | case | scenario | metric | value | status |\n|---|---|---|---|---|---|---|\n"@,
            records,
            |r: BenchmarkRecordView| lone_row(r, notation),
        )
    }
}

fn write_lone_section<S: Fn(Number, Style) -> String>(
    content: &mut String,
    title: &str,
    records: &Vec<BenchmarkRecord>,
    show: &S,
)
    requires
        writes(*show),
    ensures
        final(content)@ == old(content)@ + lone_section(
            title@,
            views(records@),
            notation(*show),
        ),
{
    let ghost before = content@;
    if records.len() > 0 {
        let lone = LoneRecords { show };
        content.append("### ");
        content.append(title);
        content.append("\n\n");
        write_table(
            content,
            "| adapter | suite | case | scenario | metric | value | status |\n|---|---|---|---|---|---|---|\n",
            records,
            &lone,
        );
        assert(texts::<BenchmarkRecord, LoneRecords<S>>(&lone) =~= (|r: BenchmarkRecordView|
            lone_row(r, notation(*show))));
    }
    assert(content@ =~= before + lone_section(title@, views(records@), notation(*show)));
}

/// The deltas of an adapter.
pub open spec fn delta_group(
    deltas: Seq<BenchmarkDeltaView>,
    adapter: Seq<char>,
    records: Seq<BenchmarkRecordView>,
    notation: Notation,
) -> Seq<char> {
    "### "@ + adapter + "\n\n"@ + table(
        "| suite | case | scenario | metric | baseline | current | delta_pct | directional_delta_pct | baseline_stability | current_stability | baseline_status | current_status |\n|---|---|---|---|---|---|---|---|---|---|---|---|\n"@,
        keep(deltas, |d: BenchmarkDeltaView| delta_adapter(d, records) == adapter),
        |d: BenchmarkDeltaView| delta_row(d, records, notation),
    )
}

/// The adapters of the records that some deltas are about.
pub open spec fn delta_adapters(
    deltas: Seq<BenchmarkDeltaView>,
    records: Seq<BenchmarkRecordView>,
) -> Set<Seq<char>> {
    mapped(deltas, |d: BenchmarkDeltaView| delta_adapter(d, records)).to_set()
}

/// The deltas, adapter by adapter, and the records that are on one side only.
pub open spec fn delta_section(
    manifest: BenchmarkManifestView,
    comparison: ComparisonOutcomeView,
    notation: Notation,
) -> Seq<char> {
    "## Baseline Deltas\n\n"@ + (if !manifest.comparison_summary.baseline_available {
        "- No baseline available. Current normalized results are still written to the manifest, CSV, and report artifacts.\n\n"@
    } else {
        flat(
            listed(delta_adapters(comparison.deltas, manifest.records)),
            |adapter: Seq<char>|
                delta_group(comparison.deltas, adapter, manifest.records, notation),
        ) + lone_section("New Records"@, comparison.new_records, notation) + lone_section(
            "Missing Records"@,
            comparison.missing_records,
            notation,
        )
    })
}

fn write_delta_group<S: Fn(Number, Style) -> String>(
    content: &mut String,
    deltas: &Vec<BenchmarkDelta>,
    adapter: &str,
    records: &Vec<BenchmarkRecord>,
    show: &S,
)
    requires
        writes(*show),
    ensures
        final(content)@ == old(content)@ + delta_group(
            views(deltas@),
            adapter@,
            views(records@),
            notation(*show),
        ),
{
    let ghost before = content@;
    let from = DeltaFrom { adapter, records };
    let rows = Deltas { records, show };
    content.append("### ");
    content.append(adapter);
    content.append("\n\n");
    let own = selected(deltas, &from);
    write_table(
        content,
        "| suite | case | scenario | metric | baseline | current | delta_pct | directional_delta_pct | baseline_stability | current_stability | baseline_status | current_status |\n|---|---|---|---|---|---|---|---|---|---|---|---|\n",
        &own,
        &rows,
    );
    proof {
        assert(wanted::<BenchmarkDelta, DeltaFrom>(&from) =~= (|d: BenchmarkDeltaView|
            delta_adapter(d, views(records@)) == adapter@));
        assert(texts::<BenchmarkDelta, Deltas<S>>(&rows) =~= (|d: BenchmarkDeltaView|
            delta_row(d, views(records@), notation(*show))));
    }
    assert(content@ =~= before + delta_group(
        views(deltas@),
        adapter@,
        views(records@),
        notation(*show),
    ));
}

fn write_delta_section<S: Fn(Number, Style) -> String>(
    content: &mut String,
    manifest: &BenchmarkManifest,
    comparison: &ComparisonOutcome,
    show: &S,
)
    requires
        writes(*show),
    ensures
        final(content)@ == old(content)@ + delta_section(
            manifest@,
            comparison@,
            notation(*show),
        ),
{
    let ghost before = content@;
    content.append("## Baseline Deltas\n\n");
    if !manifest.comparison_summary.baseline_available {
        content.append(
            "- No baseline available. Current normalized results are still written to the manifest, CSV, and report artifacts.\n\n",
        );
        assert(content@ =~= before + delta_section(manifest@, comparison@, notation(*show)));
        return ;
    }
    let by_adapter = DeltaAdapter { records: &manifest.records };
    let names = described(&comparison.deltas, &by_adapter);
    let adapters = names.as_vec();
    proof {
        assert(texts::<BenchmarkDelta, DeltaAdapter>(&by_adapter) =~= (|d: BenchmarkDeltaView|
            delta_adapter(d, manifest@.records)));
    }
    let ghost all = views(adapters@);
    let ghost f = |adapter: Seq<char>|
        delta_group(comparison@.deltas, adapter, manifest@.records, notation(*show));
    let ghost start = content@;
    let mut i: usize = 0;
    assert(start =~= start + flat(all.take(0), f));
    while i < adapters.len()
        invariant
            writes(*show),
            all == views(adapters@),
            f == (|adapter: Seq<char>|
                delta_group(comparison@.deltas, adapter, manifest@.records, notation(*show))),
            i <= adapters@.len(),
            content@ == start + flat(all.take(i as int), f),
        decreases adapters@.len() - i,
    {
        proof {
            take_step(all, i as int);
        }
        write_delta_group(
            content,
            &comparison.deltas,
            adapters[i].as_str(),
            &manifest.records,
            show,
        );
        i += 1;
        assert(content@ =~= start + flat(all.take(i as int), f));
    }
    proof {
        take_all(all);
    }
    write_lone_section(content, "New Records", &comparison.new_records, show);
    write_lone_section(content, "Missing Records", &comparison.missing_records, show);
    assert(content@ =~= before + delta_section(manifest@, comparison@, notation(*show)));
}

/// The row of a point of a group.
pub open spec fn point_row(
    point: SweepPointView,
    unit: Seq<char>,
    arithmetic: Arithmetic,
    notation: Notation,
) -> Seq<char> {
    row_text(
        seq![
            point.parameter + "="@ + point.parameter_label,
            measurement_text(point.metric_value, unit, notation),
            change_text(point.delta_vs_previous_pct, notation),
            count_text(point.samples),
            deviation_text(point.rel_stddev, arithmetic, notation),
            or_na(point.status),
        ],
    )
}

/// Writes the points of a group as rows.
pub struct Points<'a, C, S> {
    pub unit: &'a str,
    pub compute: &'a C,
    pub show: &'a S,
}

impl<'a, C, S> Describe<SweepPoint> for Points<'a, C, S> where
    C: Fn(Number, Operation, Number) -> Number,
    S: Fn(Number, Style) -> String,
 {
    open spec fn ready(&self) -> bool {
        computes(*self.compute) && writes(*self.show)
    }

    open spec fn text(&self, point: SweepPointView) -> Seq<char> {
        point_row(point, self.unit@, arithmetic(*self.compute), notation(*self.show))
    }

    fn describe(&self, point: &SweepPoint) -> (r: String) {
        let mut name = point.parameter.clone();
        name.append("=");
        name.append(point.parameter_label.as_str());
        let mut cells: Vec<String> = Vec::new();
        cells.push(name);
        cells.push(format_measurement(point.metric_value, self.unit, self.show));
        cells.push(format_delta(point.delta_vs_previous_pct, self.show));
        cells.push(count_or_na(point.samples));
        cells.push(format_rel_stddev(point.rel_stddev, self.compute, self.show));
        cells.push(text_or_na(&point.status));
        assert(views(cells@) =~= seq![
            point@.parameter + "="@ + point@.parameter_label,
            measurement_text(point@.metric_value, self.unit@, notation(*self.show)),
            change_text(point@.delta_vs_previous_pct, notation(*self.show)),
            count_text(point@.samples),
            deviation_text(
                point@.rel_stddev,
                arithmetic(*self.compute),
                notation(*self.show),
            ),
            or_na(point@.status),
        ]);
        row_line(&cells)
    }
}

/// A group of measurements over the values of a parameter.
pub open spec fn group_section(
    group: SweepGroupView,
    arithmetic: Arithmetic,
    notation: Notation,
) -> Seq<char> {
    "### "@ + group.title + "\n\n- metric: "@ + group.metric + " ("@ + group.unit + ")\n\n"@ + table(
        "| parameter | value | delta_vs_previous_pct | samples | rsd | status |\n|---|---|---|---|---|---|\n"@,
        group.points,
        |p: SweepPointView| point_row(p, group.unit, arithmetic, notation),
    )
}

/// Writes groups of measurements.
pub struct Groups<'a, C, S> {
    pub compute: &'a C,
    pub show: &'a S,
}

impl<'a, C, S> Describe<SweepGroup> for Groups<'a, C, S> where
    C: Fn(Number, Operation, Number) -> Number,
    S: Fn(Number, Style) -> String,
 {
    open spec fn ready(&self) -> bool {
        computes(*self.compute) && writes(*self.show)
    }

    open spec fn text(&self, group: SweepGroupView) -> Seq<char> {
        group_section(group, arithmetic(*self.compute), notation(*self.show))
    }

    fn describe(&self, group: &SweepGroup) -> (r: String) {
        let points = Points { unit: group.unit.as_str(), compute: self.compute, show: self.show };
        let mut out = "### ".to_owned();
        out.append(group.title.as_str());
        out.append("\n\n- metric: ");
        out.append(group.metric.as_str());
        out.append(" (");
        out.append(group.unit.as_str());
        out.append(")\n\n");
        write_table(
            &mut out,
            "| parameter | value | delta_vs_previous_pct | samples | rsd | status |\n|---|---|---|---|---|---|\n",
            &group.points,
            &points,
        );
        assert(texts::<SweepPoint, Points<C, S>>(&points) =~= (|p: SweepPointView|
            point_row(p, group@.unit, arithmetic(*self.compute), notation(*self.show))));
        out
    }
}

/// The groups of measurements.
pub open spec fn sweep_section(
    sweeps: Seq<SweepGroupView>,
    arithmetic: Arithmetic,
    notation: Notation,
) -> Seq<char> {
    "## Parameter Sweeps\n\n"@ + (if sweeps.len() == 0 {
        "- No sweep-style parameter scenarios were detected.\n\n"@
    } else {
        flat(sweeps, |g: SweepGroupView| group_section(g, arithmetic, notation))
    })
}

fn write_sweep_section<C, S>(
    content: &mut String,
    sweeps: &Vec<SweepGroup>,
    compute: &C,
    show: &S,
) where C: Fn(Number, Operation, Number) -> Number, S: Fn(Number, Style) -> String
    requires
        computes(*compute),
        writes(*show),
    ensures
        final(content)@ == old(content)@ + sweep_section(
            views(sweeps@),
            arithmetic(*compute),
            notation(*show),
        ),
{
    let ghost before = content@;
    content.append("## Parameter Sweeps\n\n");
    if sweeps.len() == 0 {
        content.append("- No sweep-style parameter scenarios were detected.\n\n");
    } else {
        let groups = Groups { compute, show };
        describe_all(content, sweeps, &groups);
        assert(texts::<SweepGroup, Groups<C, S>>(&groups) =~= (|g: SweepGroupView|
            group_section(g, arithmetic(*compute), notation(*show))));
    }
    assert(content@ =~= before + sweep_section(
        views(sweeps@),
        arithmetic(*compute),
        notation(*show),
    ));
}

/// Writes notes as lines of a list.
pub struct Notes;

impl Describe<String> for Notes {
    open spec fn ready(&self) -> bool {
        true
    }

    open spec fn text(&self, note: Seq<char>) -> Seq<char> {
        "- "@ + note + "\n"@
    }

    fn describe(&self, note: &String) -> (r: String) {
        let mut out = "- ".to_owned();
        out.append(note.as_str());
        out.append("\n");
        out
    }
}

/// The notes on a run.
pub open spec fn notes_section(notes: Seq<Seq<char>>) -> Seq<char> {
    "## Measurement Notes\n\n"@ + flat(notes, |note: Seq<char>| "- "@ + note + "\n"@) + "\n"@
}

fn write_notes_section(content: &mut String, notes: &Vec<String>)
    ensures
        final(content)@ == old(content)@ + notes_section(views(notes@)),
{
    let ghost before = content@;
    content.append("## Measurement Notes\n\n");
    describe_all(content, notes, &Notes);
    content.append("\n");
    assert(texts::<String, Notes>(&Notes) =~= (|note: Seq<char>| "- "@ + note + "\n"@));
    assert(content@ =~= before + notes_section(views(notes@)));
}

/// The report of a run.
pub open spec fn markdown_of(
    config: &BenchSummaryConfig,
    manifest: BenchmarkManifestView,
    comparison: ComparisonOutcomeView,
    sweeps: Seq<SweepGroupView>,
    notes: Seq<Seq<char>>,
    arithmetic: Arithmetic,
    notation: Notation,
) -> Seq<char> {
    head_section(config, manifest) + summary_section(manifest.comparison_summary)
        + results_section(manifest.records, config, arithmetic, notation) + delta_section(
        manifest,
        comparison,
        notation,
    ) + sweep_section(sweeps, arithmetic, notation) + notes_section(notes)
}

/// The report of a run in Markdown.
pub fn markdown_report<C, S>(
    config: &BenchSummaryConfig,
    manifest: &BenchmarkManifest,
    comparison: &ComparisonOutcome,
    sweeps: &Vec<SweepGroup>,
    notes: &Vec<String>,
    compute: &C,
    show: &S,
) -> (r: String) where C: Fn(Number, Operation, Number) -> Number, S: Fn(Number, Style) -> String
    requires
        computes(*compute),
        writes(*show),
    ensures
        r@ == markdown_of(
            config,
            manifest@,
            comparison@,
            views(sweeps@),
            views(notes@),
            arithmetic(*compute),
            notation(*show),
        ),
{
    let mut content = String::new();
    write_head_section(&mut content, config, manifest);
    write_summary_section(&mut content, &manifest.comparison_summary);
    write_current_results_section(&mut content, config, &manifest.records, compute, show);
    write_delta_section(&mut content, manifest, comparison, show);
    write_sweep_section(&mut content, sweeps, compute, show);
    write_notes_section(&mut content, notes);
    assert(content@ =~= markdown_of(
        config,
        manifest@,
        comparison@,
        views(sweeps@),
        views(notes@),
        arithmetic(*compute),
        notation(*show),
    ));
    content
}

/// How a direction is written.
pub open spec fn direction_text(direction: MetricDirection) -> Seq<char> {
    match direction {
        MetricDirection::LowerIsBetter => "lower_is_better"@,
        MetricDirection::HigherIsBetter => "higher_is_better"@,
    }
}

fn metric_direction_label(direction: MetricDirection) -> (r: String)
    ensures
        r@ == direction_text(direction),
{
    match direction {
        MetricDirection::LowerIsBetter => "lower_is_better".to_owned(),
        MetricDirection::HigherIsBetter => "higher_is_better".to_owned(),
    }
}

/// The JSON text of an object with text members, by key.
pub uninterp spec fn json_object(members: Seq<(Seq<char>, Seq<char>)>) -> Seq<char>;

pub open spec fn pair_views(members: Seq<(String, String)>) -> Seq<(Seq<char>, Seq<char>)> {
    Seq::new(members.len(), |i: int| (members[i].0@, members[i].1@))
}

/// `serde_json::to_string` on a map from texts to texts: the text depends on the members
/// alone.
#[verifier::external_body]
fn members_json(members: &Vec<(String, String)>) -> (r: String)
    ensures
        r@ == json_object(pair_views(members@)),
{
    let map: std::collections::BTreeMap<_, _> = members.iter().map(|m| (&m.0, &m.1)).collect();
    serde_json::to_string(&map).unwrap_or_default()
}

/// The members of a map by key.
pub open spec fn members_of(map: Map<Seq<char>, Seq<char>>) -> Seq<(Seq<char>, Seq<char>)> {
    mapped(listed(map.dom()), |key: Seq<char>| (key, map[key]))
}

fn map_json(map: &NameMap<String>) -> (r: String)
    ensures
        r@ == json_object(members_of(map@)),
{
    let names = map.names();
    let keys = names.as_vec();
    let ghost all = views(keys@);
    let ghost f = |key: Seq<char>| (key, map@[key]);
    let mut members: Vec<(String, String)> = Vec::new();
    let mut i: usize = 0;
    assert(pair_views(members@) =~= mapped(all.take(0), f));
    while i < keys.len()
        invariant
            all == views(keys@),
            all.to_set() == map@.dom(),
            f == (|key: Seq<char>| (key, map@[key])),
            i <= keys@.len(),
            pair_views(members@) == mapped(all.take(i as int), f),
        decreases keys@.len() - i,
    {
        proof {
            take_step(all, i as int);
            assert(all.contains(all[i as int]));
            assert(map@.dom().contains(all[i as int]));
        }
        let ghost before = pair_views(members@);
        match map.get(keys[i].as_str()) {
            Some(value) => {
                members.push((keys[i].clone(), value.clone()));
            },
            None => {},
        }
        assert(pair_views(members@) =~= before.push(f(all[i as int])));
        i += 1;
        assert(pair_views(members@) =~= mapped(all.take(i as int), f));
    }
    proof {
        take_all(all);
    }
    members_json(&members)
}

/// The names of the columns of a CSV file.
pub open spec fn csv_header() -> Seq<Seq<char>> {
    seq![
        "id"@,
        "adapter"@,
        "suite"@,
        "case"@,
        "scenario"@,
        "metric"@,
        "unit"@,
        "value"@,
        "lower_bound"@,
        "upper_bound"@,
        "samples"@,
        "metric_direction"@,
        "stability"@,
        "status"@,
        "rel_stddev"@,
        "tags"@,
        "metadata"@,
        "source_file"@,
    ]
}

/// The row of a record in a CSV file.
pub open spec fn csv_row(record: BenchmarkRecordView, notation: Notation) -> Seq<Seq<char>> {
    seq![
        record.id,
        record.adapter,
        record.suite,
        record.case,
        or_na(record.scenario),
        record.metric,
        record.unit,
        number_text(Some(record.value), notation),
        number_text(record.lower_bound, notation),
        number_text(record.upper_bound, notation),
        count_text(record.samples),
        direction_text(record.metric_direction),
        or_na(record.stability),
        or_na(record.status),
        number_text(record.rel_stddev, notation),
        json_object(members_of(record.tags)),
        json_object(members_of(record.metadata)),
        record.source_file,
    ]
}

fn csv_header_row() -> (r: Row)
    ensures
        r@ == csv_header(),
{
    let mut cells: Vec<String> = Vec::new();
    cells.push("id".to_owned());
    cells.push("adapter".to_owned());
    cells.push("suite".to_owned());
    cells.push("case".to_owned());
    cells.push("scenario".to_owned());
    cells.push("metric".to_owned());
    cells.push("unit".to_owned());
    cells.push("value".to_owned());
    cells.push("lower_bound".to_owned());
    cells.push("upper_bound".to_owned());
    cells.push("samples".to_owned());
    cells.push("metric_direction".to_owned());
    cells.push("stability".to_owned());
    cells.push("status".to_owned());
    cells.push("rel_stddev".to_owned());
    cells.push("tags".to_owned());
    cells.push("metadata".to_owned());
    cells.push("source_file".to_owned());
    assert(views(cells@) =~= csv_header());
    Row { cells }
}

fn csv_record_row<S: Fn(Number, Style) -> String>(record: &BenchmarkRecord, show: &S) -> (r: Row)
    requires
        writes(*show),
    ensures
        r@ == csv_row(record@, notation(*show)),
{
    let mut cells: Vec<String> = Vec::new();
    cells.push(record.id.clone());
    cells.push(record.adapter.clone());
    cells.push(record.suite.clone());
    cells.push(record.case.clone());
    cells.push(text_or_na(&record.scenario));
    cells.push(record.metric.clone());
    cells.push(record.unit.clone());
    cells.push(format_optional_number(Some(record.value), show));
    cells.push(format_optional_number(record.lower_bound, show));
    cells.push(format_optional_number(record.upper_bound, show));
    cells.push(count_or_na(record.samples));
    cells.push(metric_direction_label(record.metric_direction));
    cells.push(text_or_na(&record.stability));
    cells.push(text_or_na(&record.status));
    cells.push(format_optional_number(record.rel_stddev, show));
    cells.push(map_json(&record.tags));
    cells.push(map_json(&record.metadata));
    cells.push(record.source_file.clone());
    assert(views(cells@) =~= csv_row(record@, notation(*show)));
    Row { cells }
}

/// The rows of the CSV file of some records, the names of the columns first.
pub open spec fn csv_of(records: Seq<BenchmarkRecordView>, notation: Notation) -> Seq<
    Seq<Seq<char>>,
> {
    seq![csv_header()] + mapped(records, |r: BenchmarkRecordView| csv_row(r, notation))
}

/// The rows of the CSV file of some records.
pub fn csv_rows<S: Fn(Number, Style) -> String>(records: &Vec<BenchmarkRecord>, show: &S) -> (r:
    Vec<Row>)
    requires
        writes(*show),
    ensures
        views(r@) == csv_of(views(records@), notation(*show)),
{
    let ghost all = views(records@);
    let ghost f = |r: BenchmarkRecordView| csv_row(r, notation(*show));
    let mut out: Vec<Row> = Vec::new();
    out.push(csv_header_row());
    let mut i: usize = 0;
    assert(views(out@) =~= seq![csv_header()] + mapped(all.take(0), f));
    while i < records.len()
        invariant
            writes(*show),
            all == views(records@),
            f == (|r: BenchmarkRecordView| csv_row(r, notation(*show))),
            i <= records@.len(),
            views(out@) == seq![csv_header()] + mapped(all.take(i as int), f),
        decreases records@.len() - i,
    {
        out.push(csv_record_row(&records[i], show));
        i += 1;
        assert(views(out@) =~= seq![csv_header()] + mapped(all.take(i as int), f));
    }
    proof {
        take_all(all);
    }
    out
}

} // verus!
