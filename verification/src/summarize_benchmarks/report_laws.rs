//! What the report of a run tells, and which records and points it is made of.

use vstd::prelude::*;

use super::adapters::stress::{
    extra_record, metric_of, stats_record, summary_records, StressPrimaryMetric, StressRunFileView,
    StressStats, StressSummaryView,
};
use super::compare::ComparisonOutcomeView;
use super::config::{BenchSummaryConfig, StabilityThresholds, StressAdapterConfigView};
use super::model::{BenchmarkManifestView, BenchmarkRecordView, SweepGroupView};
use super::numbers::{Arithmetic, Notation, Reading};
use super::report::{
    adapter_section, adapters_of, delta_section, head_section, markdown_of, notes_section,
    result_row, results_section, row_text, suite_section, suites_of, summary_section, sweep_section,
};
use super::sweep::{is_sweep_key, numeric_token, record_entries, tag_entries, tag_entry};
use crate::names::listed;
use crate::repository_checks::laws::finite_names_are_listed;
use crate::seqs::{flat, in_keep, keep, mapped};
use crate::text::{contains_text, joined};
use crate::validate_tests::independence::{flat_holds, holds_itself, holds_through, joined_holds};
use crate::validate_tests::laws::in_flat;

verus! {

/// The report of a run tells every note.
pub proof fn every_note_is_told(
    config: &BenchSummaryConfig,
    manifest: BenchmarkManifestView,
    comparison: ComparisonOutcomeView,
    sweeps: Seq<SweepGroupView>,
    notes: Seq<Seq<char>>,
    arithmetic: Arithmetic,
    notation: Notation,
    i: int,
)
    requires
        0 <= i < notes.len(),
    ensures
        contains_text(
            markdown_of(config, manifest, comparison, sweeps, notes, arithmetic, notation),
            notes[i],
        ),
{
    let f = |note: Seq<char>| "- "@ + note + "\n"@;
    flat_holds(notes, f, i);
    let lines = flat(notes, f);
    let head = "## Measurement Notes\n\n"@;
    joined_holds(head, lines);
    joined_holds(head + lines, "\n"@);
    holds_itself(notes[i]);
    joined_holds("- "@, notes[i]);
    joined_holds("- "@ + notes[i], "\n"@);
    assert(contains_text(f(notes[i]), notes[i]));
    holds_through(lines, f(notes[i]), notes[i]);
    assert(contains_text(head + lines, notes[i]));
    let before = head_section(config, manifest) + summary_section(manifest.comparison_summary)
        + results_section(manifest.records, config, arithmetic, notation) + delta_section(
        manifest,
        comparison,
        notation,
    ) + sweep_section(sweeps, arithmetic, notation);
    joined_holds(before, notes_section(notes));
}

proof fn cell_is_told(cells: Seq<Seq<char>>, separator: Seq<char>, k: int)
    requires
        0 <= k < cells.len(),
    ensures
        contains_text(joined(cells, separator), cells[k]),
    decreases cells.len(),
{
    if cells.len() == 1 {
        holds_itself(cells[0]);
    } else {
        let rest = cells.drop_last();
        let text = joined(rest, separator);
        joined_holds(text, separator);
        joined_holds(text + separator, cells.last());
        if k < rest.len() {
            cell_is_told(rest, separator, k);
            assert(contains_text(text + separator, cells[k]));
        } else {
            holds_itself(cells.last());
        }
    }
}

proof fn row_is_told(cells: Seq<Seq<char>>, k: int)
    requires
        0 <= k < cells.len(),
    ensures
        contains_text(row_text(cells), cells[k]),
{
    cell_is_told(cells, " | "@, k);
    joined_holds("| "@, joined(cells, " | "@));
    joined_holds("| "@ + joined(cells, " | "@), " |\n"@);
}

/// The report of a run tells of every record its case, its metric and its unit.
pub proof fn every_record_is_told(
    config: &BenchSummaryConfig,
    manifest: BenchmarkManifestView,
    comparison: ComparisonOutcomeView,
    sweeps: Seq<SweepGroupView>,
    notes: Seq<Seq<char>>,
    arithmetic: Arithmetic,
    notation: Notation,
    i: int,
)
    requires
        0 <= i < manifest.records.len(),
    ensures
        ({
            let text = markdown_of(
                config,
                manifest,
                comparison,
                sweeps,
                notes,
                arithmetic,
                notation,
            );
            let record = manifest.records[i];
            &&& contains_text(text, record.case)
            &&& contains_text(text, record.metric)
            &&& contains_text(text, record.unit)
            &&& contains_text(text, record.adapter)
            &&& record.stability matches Some(stability) ==> contains_text(text, stability)
            &&& record.status matches Some(status) ==> contains_text(text, status)
        }),
{
    let text = markdown_of(config, manifest, comparison, sweeps, notes, arithmetic, notation);
    let record = manifest.records[i];
    let row = result_row(record, arithmetic, notation);
    let section = results_section(manifest.records, config, arithmetic, notation);
    adapter_is_told(config, manifest.records, arithmetic, notation, i);
    let head = head_section(config, manifest) + summary_section(manifest.comparison_summary);
    let deltas = delta_section(manifest, comparison, notation);
    let groups = sweep_section(sweeps, arithmetic, notation);
    joined_holds(head, section);
    joined_holds(head + section, deltas);
    joined_holds(head + section + deltas, groups);
    joined_holds(head + section + deltas + groups, notes_section(notes));
    assert(contains_text(head + section, row) && contains_text(head + section, record.adapter));
    assert(contains_text(head + section + deltas, row) && contains_text(
        head + section + deltas,
        record.adapter,
    ));
    assert(contains_text(head + section + deltas + groups, row) && contains_text(
        head + section + deltas + groups,
        record.adapter,
    ));
    assert(contains_text(text, row));
    cells_are_told(record, arithmetic, notation);
    holds_through(text, row, record.case);
    holds_through(text, row, record.metric);
    holds_through(text, row, record.unit);
    if let Some(stability) = record.stability {
        holds_through(text, row, stability);
    }
    if let Some(status) = record.status {
        holds_through(text, row, status);
    }
}

proof fn cells_are_told(record: BenchmarkRecordView, arithmetic: Arithmetic, notation: Notation)
    ensures
        ({
            let row = result_row(record, arithmetic, notation);
            &&& contains_text(row, record.case)
            &&& contains_text(row, record.metric)
            &&& contains_text(row, record.unit)
            &&& record.stability matches Some(stability) ==> contains_text(row, stability)
            &&& record.status matches Some(status) ==> contains_text(row, status)
        }),
{
    let cells = seq![
        record.case,
        super::report::or_na(record.scenario),
        record.metric,
        super::report::measurement_text(record.value, record.unit, notation),
        record.unit,
        super::report::count_text(record.samples),
        super::classify::deviation_text(record.rel_stddev, arithmetic, notation),
        super::report::or_na(record.stability),
        super::report::or_na(record.status),
    ];
    assert(row_text(cells) == result_row(record, arithmetic, notation));
    row_is_told(cells, 0);
    row_is_told(cells, 2);
    row_is_told(cells, 4);
    row_is_told(cells, 7);
    row_is_told(cells, 8);
}

proof fn adapter_is_told(
    config: &BenchSummaryConfig,
    records: Seq<BenchmarkRecordView>,
    arithmetic: Arithmetic,
    notation: Notation,
    i: int,
)
    requires
        0 <= i < records.len(),
    ensures
        contains_text(
            results_section(records, config, arithmetic, notation),
            result_row(records[i], arithmetic, notation),
        ),
        contains_text(
            results_section(records, config, arithmetic, notation),
            records[i].adapter,
        ),
{
    let record = records[i];
    let row = result_row(record, arithmetic, notation);
    let f = |adapter: Seq<char>| adapter_section(records, adapter, config, arithmetic, notation);
    let names = mapped(records, |r: BenchmarkRecordView| r.adapter);
    assert(names[i] == record.adapter);
    assert(names.contains(record.adapter));
    let all = listed(adapters_of(records));
    listed_holds(names, record.adapter);
    let k = all.index_of(record.adapter);
    assert(all[k] == record.adapter);
    flat_holds(all, f, k);
    let own = keep(records, |r: BenchmarkRecordView| r.adapter == record.adapter);
    let part = adapter_section(records, record.adapter, config, arithmetic, notation);
    assert(records.contains(record));
    in_keep(records, |r: BenchmarkRecordView| r.adapter == record.adapter, record);
    let j = own.index_of(record);
    assert(own[j] == record);
    suite_is_told(config, own, arithmetic, notation, j);
    let g = |suite: Seq<char>| suite_section(own, suite, config, arithmetic, notation);
    let suites = mapped(own, |r: BenchmarkRecordView| r.suite);
    assert(suites[j] == record.suite);
    assert(suites.contains(record.suite));
    listed_holds(suites, record.suite);
    let every = listed(suites_of(own));
    let m = every.index_of(record.suite);
    assert(every[m] == record.suite);
    flat_holds(every, g, m);
    let lines = flat(every, g);
    holds_through(lines, g(record.suite), row);
    let title = "### "@ + record.adapter;
    joined_holds("### "@, record.adapter);
    joined_holds(title, "\n\n"@);
    joined_holds(title + "\n\n"@, lines);
    holds_itself(record.adapter);
    assert(contains_text(title, record.adapter));
    assert(contains_text(title + "\n\n"@, record.adapter));
    assert(contains_text(part, row) && contains_text(part, record.adapter));
    holds_through(flat(all, f), f(record.adapter), row);
    holds_through(flat(all, f), f(record.adapter), record.adapter);
    joined_holds("## Current Results\n\n"@, flat(all, f));
}

proof fn listed_holds(names: Seq<Seq<char>>, name: Seq<char>)
    requires
        names.contains(name),
    ensures
        listed(names.to_set()).contains(name),
{
    crate::names::listed_exists(names);
    assert(names.to_set().contains(name));
    assert(listed(names.to_set()).to_set().contains(name));
}

proof fn suite_is_told(
    config: &BenchSummaryConfig,
    records: Seq<BenchmarkRecordView>,
    arithmetic: Arithmetic,
    notation: Notation,
    i: int,
)
    requires
        0 <= i < records.len(),
    ensures
        contains_text(
            suite_section(records, records[i].suite, config, arithmetic, notation),
            result_row(records[i], arithmetic, notation),
        ),
{
    let record = records[i];
    let p = |r: BenchmarkRecordView| r.suite == record.suite;
    let own = keep(records, p);
    assert(records.contains(record));
    in_keep(records, p, record);
    let j = own.index_of(record);
    assert(own[j] == record);
    let f = |r: BenchmarkRecordView| result_row(r, arithmetic, notation);
    flat_holds(own, f, j);
    let head = "| case | scenario | metric | value | unit | samples | rsd | stability | status |\n|---|---|---|---|---|---|---|---|---|\n"@;
    joined_holds(head, flat(own, f));
    joined_holds(head + flat(own, f), "\n"@);
    let title = "#### "@ + config@.suite_label(record.suite) + "\n\n"@;
    joined_holds(title, super::report::table(head, own, f));
    assert(contains_text(head + flat(own, f), f(record)));
}

/// A summary of a stress run is refused exactly where it has statistics for a metric that
/// nobody knows. Otherwise it gives a record for its primary metric, where that can be, and
/// at most one for each of the three costs of an operation that is not the primary metric.
pub proof fn summaries_give_records(
    run: StressRunFileView,
    summary: StressSummaryView,
    source_file: Seq<char>,
    config: StressAdapterConfigView,
    thresholds: StabilityThresholds,
    arithmetic: Arithmetic,
    notation: Notation,
)
    ensures
        ({
            let made = summary_records(
                run,
                summary,
                source_file,
                config,
                thresholds,
                arithmetic,
                notation,
            );
            let name = summary.primary_metric;
            let known = name == "throughput"@ || name == "latency_p95"@ || name == "ns_per_op"@
                || name == "allocs_per_op"@ || name == "bytes_per_op"@;
            &&& made is Err <==> summary.stats is Some && !known
            &&& made matches Ok(records) ==> {
                &&& records.len() <= 4
                &&& summary.stats is None && summary.ns_per_op is None && summary.allocs_per_op
                    is None && summary.bytes_per_op is None ==> records.len() == 0
                &&& summary.stats is Some ==> {
                    let first = stats_record(
                        run,
                        summary,
                        metric_of(name)->0,
                        summary.stats->0,
                        source_file,
                        config,
                        thresholds,
                        arithmetic,
                        notation,
                    );
                    first matches Some(record) ==> records.len() > 0 && records[0] == record
                }
                &&& forall|metric: StressPrimaryMetric, stats: StressStats|
                    #![trigger stats_record(
                        run,
                        summary,
                        metric,
                        stats,
                        source_file,
                        config,
                        thresholds,
                        arithmetic,
                        notation,
                    )]
                    ((metric == StressPrimaryMetric::NsPerOp && summary.ns_per_op == Some(stats))
                        || (metric == StressPrimaryMetric::AllocsPerOp && summary.allocs_per_op
                        == Some(stats)) || (metric == StressPrimaryMetric::BytesPerOp
                        && summary.bytes_per_op == Some(stats))) && metric.label() != name
                        && stats_record(
                        run,
                        summary,
                        metric,
                        stats,
                        source_file,
                        config,
                        thresholds,
                        arithmetic,
                        notation,
                    ) is Some ==> records.contains(
                        stats_record(
                            run,
                            summary,
                            metric,
                            stats,
                            source_file,
                            config,
                            thresholds,
                            arithmetic,
                            notation,
                        )->0,
                    )
            }
        }),
{
    let extra = |metric: StressPrimaryMetric, stats: Option<StressStats>|
        extra_record(
            run,
            summary,
            metric,
            stats,
            source_file,
            config,
            thresholds,
            arithmetic,
            notation,
        );
    let a = extra(StressPrimaryMetric::NsPerOp, summary.ns_per_op);
    let b = extra(StressPrimaryMetric::AllocsPerOp, summary.allocs_per_op);
    let d = extra(StressPrimaryMetric::BytesPerOp, summary.bytes_per_op);
    let made = summary_records(
        run,
        summary,
        source_file,
        config,
        thresholds,
        arithmetic,
        notation,
    );
    if let Ok(records) = made {
        let n = records.len() - a.len() - b.len() - d.len();
        if a.len() > 0 {
            assert(records[n] == a[0]);
        }
        if b.len() > 0 {
            assert(records[n + a.len()] == b[0]);
        }
        if d.len() > 0 {
            assert(records[n + a.len() + b.len()] == d[0]);
        }
    }
}

/// A record is a point of a sweep over every tag that holds a parameter with a number, and of
/// one by its name only where it has no such tag.
pub proof fn tagged_records_are_swept_by_tags(
    record: BenchmarkRecordView,
    config: &BenchSummaryConfig,
    arithmetic: Arithmetic,
    reading: Reading,
    key: Seq<char>,
)
    requires
        record.tags.dom().finite(),
        record.tags.contains_key(key),
        is_sweep_key(key, config),
        numeric_token(record.tags[key], arithmetic, reading) is Some,
    ensures
        exists|i: int|
            0 <= i < record_entries(record, config, arithmetic, reading).len() && (
            #[trigger] record_entries(record, config, arithmetic, reading)[i]).point.parameter
                == key && record_entries(
                record,
                config,
                arithmetic,
                reading,
            )[i].point.parameter_label == record.tags[key] && record_entries(
                record,
                config,
                arithmetic,
                reading,
            )[i].point.metric_value == record.value,
        record_entries(record, config, arithmetic, reading) == tag_entries(
            record,
            config,
            arithmetic,
            reading,
        ),
{
    let f = |key: Seq<char>| tag_entry(record, key, config, arithmetic, reading);
    let keys = listed(record.tags.dom());
    finite_names_are_listed(record.tags.dom());
    assert(keys.contains(key));
    let made = tag_entry(record, key, config, arithmetic, reading);
    assert(made.len() == 1);
    let entry = made[0];
    in_flat(keys, f, entry);
    let k = keys.index_of(key);
    assert(keys[k] == key);
    assert(f(keys[k]).contains(entry)) by {
        assert(f(keys[k])[0] == entry);
    }
    let all = tag_entries(record, config, arithmetic, reading);
    assert(all.contains(entry));
    let i = all.index_of(entry);
    assert(all[i] == entry);
    assert(all.len() > 0);
    assert(record_entries(record, config, arithmetic, reading)[i].point.parameter == key);
}

} // verus!
