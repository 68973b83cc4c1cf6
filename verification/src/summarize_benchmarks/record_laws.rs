//! How results become records, and what is noted of them.

use vstd::prelude::*;

use super::adapters::criterion::{estimates_record, suite_and_case, CriterionEstimates};
use super::adapters::stress::{
    case_name, measured_times, stats_record, StressPrimaryMetric, StressRunFileView,
    StressSamplePhase, StressSampleView, StressStats, StressSummaryView,
};
use super::classify::{
    measurement_notes, stability_of, Insufficient, NoisiestFirst, Redefined, Unreviewed, Unstable,
    Worse, WorstFirst,
};
use super::compare::{
    changed_value, rename_of, renames_of, ComparisonOutcomeView, ProbableRenameView,
};
use super::config::{
    default_config, BenchSummaryConfig, CriterionAdapterConfigView, StabilityThresholds,
    StressAdapterConfigView,
};
use super::laws::{gain, places};
use super::model::{
    BenchmarkDelta, BenchmarkDeltaView, BenchmarkRecord, BenchmarkRecordView, MetricDirection,
};
use super::numbers::{Arithmetic, Notation, Number, Operation};
use super::sweep::{is_sweep_key, token_parts};
use crate::order::sorted_is_permutation;
use crate::select::wanted;
use crate::seqs::{any, flat, in_keep, keep, kept_count, kept_first, kept_many, kept_none};
use crate::text::{after_first, before_first, contains_text, has_suffix, joined, pieces};
use crate::text_laws::{occurs_in, pieces_join_to_the_text};

verus! {

/// Whether a number is one that is measured: neither infinite nor none at all.
pub open spec fn is_measured(number: Number) -> bool {
    number.bits % 0x8000_0000_0000_0000 < 0x7ff0_0000_0000_0000
}

/// Whether there is a number, measured and greater than zero.
pub open spec fn is_above_nothing(number: Option<Number>) -> bool {
    match number {
        Some(value) => is_measured(value) && 0 < value.bits && value.bits < 0x8000_0000_0000_0000,
        None => false,
    }
}

/// Whether there is a number, measured and not less than zero.
pub open spec fn is_not_below_nothing(number: Option<Number>) -> bool {
    match number {
        Some(value) => is_measured(value) && value.bits <= 0x8000_0000_0000_0000,
        None => false,
    }
}

/// Estimates make a record exactly where the benchmark has a name and the mean is measured
/// and lies between the bounds of what can be. The record has the median, or the mean where
/// the median is none, and a relative deviation where there is a deviation.
pub proof fn estimates_make_records(
    benchmark: Seq<char>,
    estimates: CriterionEstimates,
    source_file: Seq<char>,
    config: CriterionAdapterConfigView,
    thresholds: StabilityThresholds,
    arithmetic: Arithmetic,
    notation: Notation,
)
    ensures
        ({
            let made = estimates_record(
                benchmark,
                estimates,
                source_file,
                config,
                thresholds,
                arithmetic,
                notation,
            );
            let mean = match estimates.mean {
                Some(estimate) => estimate.point_estimate,
                None => None,
            };
            let median = match estimates.median {
                Some(estimate) => estimate.point_estimate,
                None => None,
            };
            let deviation = match estimates.std_dev {
                Some(estimate) => estimate.point_estimate,
                None => None,
            };
            &&& made is Some <==> benchmark.len() > 0 && (mean matches Some(value) && is_measured(
                value,
            ) && config.min_reasonable_mean_ns.below(value) && value.below(
                config.max_reasonable_mean_ns,
            ))
            &&& made matches Some(record) ==> {
                &&& record.id == benchmark
                &&& record.adapter == "criterion"@
                &&& record.unit == "ns"@
                &&& record.metric_direction == MetricDirection::LowerIsBetter
                &&& is_above_nothing(median) ==> record.value == median->0
                &&& !is_above_nothing(median) ==> record.value == mean->0
                &&& is_not_below_nothing(deviation) ==> record.rel_stddev == Some(
                    arithmetic(deviation->0, Operation::Ratio, mean->0),
                )
                &&& !is_not_below_nothing(deviation) ==> record.rel_stddev is None
                &&& record.stability == Some(stability_of(record.rel_stddev, thresholds))
                &&& record.status == Some("authoritative"@) || record.status == record.stability
                &&& record.stability == Some("stable"@) || record.stability == Some("acceptable"@)
                    ==> record.status == Some("authoritative"@)
                &&& record.stability != Some("stable"@) && record.stability != Some("acceptable"@)
                    ==> record.status == record.stability
                &&& record.source_file == source_file
            }
        }),
{
}

/// The suite of a benchmark is what stands before the first slash of its name, and the case
/// what stands behind it; without either the case is the whole name.
pub proof fn suites_stand_before_the_first_slash(path: Seq<char>)
    ensures
        !suite_and_case(path).0.contains('/'),
        !path.contains('/') ==> suite_and_case(path).0 == path && suite_and_case(path).1 == path,
        path.contains('/') ==> path == suite_and_case(path).0 + "/"@ + suite_and_case(path).1 || (
        path == suite_and_case(path).0 + "/"@ && suite_and_case(path).1 == path),
{
    reveal_strlit("/");
    let parts = pieces(path, "/"@);
    pieces_join_to_the_text(path, "/"@);
    slashes(parts[0]);
    slashes(path);
    crate::text::find_from_found(path, "/"@, 0);
    match crate::text::find_from(path, "/"@, 0) {
        Some(i) => {
            crate::text_laws::standing(path, "/"@, i);
            assert(path.subrange(i, i + 1)[0] == '/');
            assert(path[i] == '/');
            let rest = path.subrange(i + 1, path.len() as int);
            assert(parts.skip(1) =~= pieces(rest, "/"@));
            pieces_join_to_the_text(rest, "/"@);
            assert(parts[0] =~= path.subrange(0, i));
            assert(path =~= parts[0] + "/"@ + rest);
            if rest.len() == 0 {
                assert(path =~= parts[0] + "/"@);
            }
        },
        None => {
            if path.contains('/') {
                let i = path.index_of('/');
                assert(path.subrange(i, i + 1) =~= "/"@);
                crate::text_laws::standing(path, "/"@, i);
            }
            assert(parts =~= seq![path]);
            assert(parts.skip(1) =~= Seq::empty());
        },
    }
}

proof fn slashes(s: Seq<char>)
    ensures
        occurs_in(s, "/"@) == s.contains('/'),
{
    reveal_strlit("/");
    if s.contains('/') {
        let i = s.index_of('/');
        assert(s.subrange(i, i + 1) =~= "/"@);
        crate::text_laws::standing(s, "/"@, i);
        assert(crate::text_laws::stands_at(s, "/"@, i));
    }
    if occurs_in(s, "/"@) {
        let i = choose|i: int| #[trigger] crate::text_laws::stands_at(s, "/"@, i);
        assert(crate::text_laws::stands_at(s, "/"@, i));
        crate::text_laws::standing(s, "/"@, i);
        assert("/"@[0] == '/');
        assert(s[i] == '/');
    }
}

/// A summary of a stress run makes a record exactly where its value is measured and not below
/// zero, zero only where nothing was allocated, and a throughput is not above what can be.
pub proof fn summaries_make_records(
    run: StressRunFileView,
    summary: StressSummaryView,
    metric: StressPrimaryMetric,
    stats: StressStats,
    source_file: Seq<char>,
    config: StressAdapterConfigView,
    thresholds: StabilityThresholds,
    arithmetic: Arithmetic,
    notation: Notation,
)
    ensures
        ({
            let made = stats_record(
                run,
                summary,
                metric,
                stats,
                source_file,
                config,
                thresholds,
                arithmetic,
                notation,
            );
            let value = if metric == StressPrimaryMetric::LatencyP95 {
                stats.p95
            } else {
                stats.mean
            };
            let none = value.bits == 0 || value.bits == 0x8000_0000_0000_0000;
            &&& made is Some <==> {
                &&& is_measured(value)
                &&& value.bits < 0x8000_0000_0000_0000 || none
                &&& none ==> metric == StressPrimaryMetric::AllocsPerOp || metric
                    == StressPrimaryMetric::BytesPerOp
                &&& metric == StressPrimaryMetric::Throughput
                    ==> !config.max_reasonable_throughput_ops_per_s.below(value)
            }
            &&& made matches Some(record) ==> {
                &&& record.value == value
                &&& record.adapter == "stress"@
                &&& record.suite == run.suite
                &&& record.samples == Some(summary.measured_samples)
                &&& record.tags == summary.parameters
                &&& record.rel_stddev == stats.relative_std_dev
                &&& record.stability == Some(stability_of(stats.relative_std_dev, thresholds))
                &&& summary.correctness.passed ==> record.status == Some(summary.quality)
                &&& !summary.correctness.passed ==> record.status == Some("correctness_failed"@)
                &&& record.metric_direction == MetricDirection::HigherIsBetter <==> metric
                    == StressPrimaryMetric::Throughput
                &&& record.lower_bound == Some(stats.min)
                &&& record.upper_bound == Some(stats.max)
                &&& summary.parameters.contains_key("scenario"@) ==> record.scenario == Some(
                    summary.parameters["scenario"@],
                )
                &&& !summary.parameters.contains_key("scenario"@)
                    && summary.metadata.contains_key("scenario"@) ==> record.scenario == Some(
                    summary.metadata["scenario"@],
                )
                &&& !summary.parameters.contains_key("scenario"@)
                    && !summary.metadata.contains_key("scenario"@) ==> record.scenario is None
            }
        }),
{
}

/// Only the measured samples of a benchmark tell how long it took, and all of them do.
pub proof fn measured_samples_tell_the_time(samples: Seq<StressSampleView>, id: Seq<char>)
    ensures
        measured_times(samples, id).len() == places(
            samples,
            |s: StressSampleView| s.phase == StressSamplePhase::Measured && s.benchmark_id == id,
        ),
        forall|time: Number|
            measured_times(samples, id).contains(time) <==> exists|i: int|
                0 <= i < samples.len() && (#[trigger] samples[i]).phase
                    == StressSamplePhase::Measured && samples[i].benchmark_id == id
                    && samples[i].elapsed_ns == time,
{
    let p = |s: StressSampleView| s.phase == StressSamplePhase::Measured && s.benchmark_id == id;
    kept_count(samples, p);
    let some = keep(samples, p);
    let times = measured_times(samples, id);
    assert forall|time: Number| times.contains(time) implies exists|i: int|
        0 <= i < samples.len() && (#[trigger] samples[i]).phase == StressSamplePhase::Measured
            && samples[i].benchmark_id == id && samples[i].elapsed_ns == time by {
        let k = times.index_of(time);
        assert(some.contains(some[k]));
        in_keep(samples, p, some[k]);
        let i = samples.index_of(some[k]);
        assert(samples[i] == some[k]);
    }
    assert forall|time: Number|
        (exists|i: int|
            0 <= i < samples.len() && (#[trigger] samples[i]).phase == StressSamplePhase::Measured
                && samples[i].benchmark_id == id && samples[i].elapsed_ns
                == time) implies times.contains(time) by {
        let i = choose|i: int|
            0 <= i < samples.len() && (#[trigger] samples[i]).phase == StressSamplePhase::Measured
                && samples[i].benchmark_id == id && samples[i].elapsed_ns == time;
        assert(samples.contains(samples[i]));
        in_keep(samples, p, samples[i]);
        let k = some.index_of(samples[i]);
        assert(times[k] == time);
    }
}

/// Whether a text has no letters.
pub open spec fn has_no_unit(s: Seq<char>) -> bool {
    forall|i: int| 0 <= i < s.len() ==> !('a' <= #[trigger] s[i] <= 'z')
}

/// The units of a number are kilobytes and megabytes, which count in powers of two, bytes,
/// thousands and millions.
pub proof fn units_multiply_numbers(number: Seq<char>)
    requires
        has_no_unit(number),
    ensures
        token_parts(number) == (number, 0x3ff0_0000_0000_0000u64),
        token_parts(number + "b"@) == (number, 0x3ff0_0000_0000_0000u64),
        token_parts(number + "k"@) == (number, 0x408f_4000_0000_0000u64),
        token_parts(number + "m"@) == (number, 0x412e_8480_0000_0000u64),
        token_parts(number + "kb"@) == (number, 0x4090_0000_0000_0000u64),
        token_parts(number + "mb"@) == (number, 0x4130_0000_0000_0000u64),
{
    reveal_strlit("kb");
    reveal_strlit("mb");
    reveal_strlit("b");
    reveal_strlit("k");
    reveal_strlit("m");
    no_unit_at_the_end(number);
    ends_with_unit(number, "b"@);
    ends_with_unit(number, "k"@);
    ends_with_unit(number, "m"@);
    ends_with_unit(number, "kb"@);
    ends_with_unit(number, "mb"@);
    assert((number + "b"@).take((number + "b"@).len() - 1) =~= number);
    assert((number + "k"@).take((number + "k"@).len() - 1) =~= number);
    assert((number + "m"@).take((number + "m"@).len() - 1) =~= number);
    assert((number + "kb"@).take((number + "kb"@).len() - 2) =~= number);
    assert((number + "mb"@).take((number + "mb"@).len() - 2) =~= number);
}

proof fn no_unit_at_the_end(s: Seq<char>)
    requires
        has_no_unit(s),
    ensures
        !has_suffix(s, "kb"@),
        !has_suffix(s, "mb"@),
        !has_suffix(s, "b"@),
        !has_suffix(s, "k"@),
        !has_suffix(s, "m"@),
{
    reveal_strlit("kb");
    reveal_strlit("mb");
    reveal_strlit("b");
    reveal_strlit("k");
    reveal_strlit("m");
    last_of_a_suffix(s, "kb"@);
    last_of_a_suffix(s, "mb"@);
    last_of_a_suffix(s, "b"@);
    last_of_a_suffix(s, "k"@);
    last_of_a_suffix(s, "m"@);
    assert("kb"@[0] == 'k' && "mb"@[0] == 'm' && "b"@[0] == 'b');
    assert("k"@[0] == 'k' && "m"@[0] == 'm');
}

proof fn last_of_a_suffix(s: Seq<char>, suffix: Seq<char>)
    requires
        suffix.len() > 0,
    ensures
        has_suffix(s, suffix) ==> s.len() >= suffix.len() && forall|k: int|
            0 <= k < suffix.len() ==> s[s.len() - suffix.len() + k] == #[trigger] suffix[k],
{
    if has_suffix(s, suffix) {
        crate::text_laws::standing(s, suffix, s.len() - suffix.len());
        assert forall|k: int| 0 <= k < suffix.len() implies s[s.len() - suffix.len() + k]
            == #[trigger] suffix[k] by {
            assert(s.subrange(s.len() - suffix.len(), s.len() as int)[k] == suffix[k]);
        }
    }
}

proof fn ends_with_unit(number: Seq<char>, unit: Seq<char>)
    requires
        has_no_unit(number),
        unit == "b"@ || unit == "k"@ || unit == "m"@ || unit == "kb"@ || unit == "mb"@,
    ensures
        has_suffix(number + unit, unit),
        unit.len() == 1 ==> !has_suffix(number + unit, "kb"@) && !has_suffix(number + unit, "mb"@),
        unit == "k"@ ==> !has_suffix(number + unit, "b"@),
        unit == "m"@ ==> !has_suffix(number + unit, "b"@) && !has_suffix(number + unit, "k"@),
        unit == "mb"@ ==> !has_suffix(number + unit, "kb"@),
{
    reveal_strlit("kb");
    reveal_strlit("mb");
    reveal_strlit("b");
    reveal_strlit("k");
    reveal_strlit("m");
    let s = number + unit;
    assert(s.subrange(number.len() as int, s.len() as int) =~= unit);
    crate::text_laws::standing(s, unit, number.len() as int);
    last_of_a_suffix(s, "kb"@);
    last_of_a_suffix(s, "mb"@);
    last_of_a_suffix(s, "b"@);
    last_of_a_suffix(s, "k"@);
    assert("kb"@[0] == 'k' && "kb"@[1] == 'b' && "mb"@[0] == 'm' && "mb"@[1] == 'b');
    assert("b"@[0] == 'b' && "k"@[0] == 'k' && "m"@[0] == 'm');
    assert(s[s.len() - 1] == unit[unit.len() - 1]);
    if unit.len() == 1 && number.len() > 0 {
        assert(s[s.len() - 2] == number[number.len() - 1]);
    }
    if unit.len() == 2 {
        assert(s[s.len() - 2] == unit[0]);
    }
}

/// A tag holds a parameter where it is one of the configured keys or ends like one of the
/// configured endings.
pub proof fn parameters_are_configured_tags(key: Seq<char>, config: &BenchSummaryConfig)
    ensures
        is_sweep_key(key, config) <==> config.sweep.tag_keys@.contains(key) || exists|k: int|
            0 <= k < config.sweep.tag_key_suffixes@.len()
                && #[trigger] config.sweep.tag_key_suffixes@[k]@.is_suffix_of(key),
{
    let endings = crate::seqs::views(config.sweep.tag_key_suffixes@);
    let p = |suffix: Seq<char>| has_suffix(key, suffix);
    assert forall|k: int| 0 <= k < endings.len() implies #[trigger] endings[k]
        == config.sweep.tag_key_suffixes@[k]@ by {}
    assert forall|suffix: Seq<char>| has_suffix(key, suffix) == suffix.is_suffix_of(key) by {
        crate::text_laws::prefixes_and_suffixes(key, suffix);
    }
    if any(endings, p) {
        let k = choose|k: int| 0 <= k < endings.len() && p(#[trigger] endings[k]);
        assert(config.sweep.tag_key_suffixes@[k]@.is_suffix_of(key));
    }
    if exists|k: int|
        0 <= k < config.sweep.tag_key_suffixes@.len()
            && #[trigger] config.sweep.tag_key_suffixes@[k]@.is_suffix_of(key) {
        let k = choose|k: int|
            0 <= k < config.sweep.tag_key_suffixes@.len()
                && #[trigger] config.sweep.tag_key_suffixes@[k]@.is_suffix_of(key);
        assert(p(endings[k]));
    }
}

/// The lesser of two numbers.
pub open spec fn at_most(n: nat, limit: nat) -> nat {
    if n <= limit {
        n
    } else {
        limit
    }
}

/// Every record with too little data or too much variance, every record whose status nobody
/// relies on, every critical change, every change of meaning, every rename, and the records
/// that are new or missing are noted, up to a limit for each; and nothing else is noted.
pub proof fn notes_tell_what_is_wrong(
    records: Seq<BenchmarkRecordView>,
    comparison: ComparisonOutcomeView,
    config: &BenchSummaryConfig,
    arithmetic: Arithmetic,
    notation: Notation,
)
    ensures
        ({
            let notes = measurement_notes(records, comparison, config, arithmetic, notation);
            let count = at_most(
                places(records, |r: BenchmarkRecordView| r.status == Some("insufficient_data"@)),
                12,
            ) + at_most(
                places(
                    records,
                    |r: BenchmarkRecordView|
                        r.stability == Some("noisy"@) || r.stability == Some("untrustworthy"@),
                ),
                8,
            ) + at_most(
                places(
                    records,
                    |r: BenchmarkRecordView|
                        r.status is Some && r.status != Some("insufficient_data"@)
                            && !config.authoritative_statuses@.contains(r.status->0),
                ),
                8,
            ) + at_most(
                places(
                    comparison.deltas,
                    |d: BenchmarkDeltaView|
                        gain(d).at_most(config.thresholds.critical_regression_pct.negated()),
                ),
                8,
            ) + at_most(
                places(comparison.deltas, |d: BenchmarkDeltaView| d.semantic_change is Some),
                8,
            ) + (if comparison.new_records.len() > 0 {
                1nat
            } else {
                0
            }) + (if comparison.missing_records.len() > 0 {
                1nat
            } else {
                0
            }) + at_most(comparison.probable_renames.len(), 8);
            &&& count > 0 ==> notes.len() == count
            &&& count == 0 ==> notes == seq![
                "No major measurement warnings detected in current data."@,
            ]
        }),
{
    let a = wanted::<BenchmarkRecord, Insufficient>(&Insufficient);
    let b = wanted::<BenchmarkRecord, Unstable>(&Unstable);
    let c = wanted::<BenchmarkRecord, Unreviewed>(&Unreviewed { config });
    let critical = Worse { threshold: config.thresholds.critical_regression_pct };
    let d = wanted::<BenchmarkDelta, Worse>(&critical);
    let e = wanted::<BenchmarkDelta, Redefined>(&Redefined);
    counted(
        records,
        a,
        |r: BenchmarkRecordView| r.status == Some("insufficient_data"@),
    );
    counted(
        records,
        b,
        |r: BenchmarkRecordView|
            r.stability == Some("noisy"@) || r.stability == Some("untrustworthy"@),
    );
    counted(
        records,
        c,
        |r: BenchmarkRecordView|
            r.status is Some && r.status != Some("insufficient_data"@)
                && !config.authoritative_statuses@.contains(r.status->0),
    );
    counted(
        comparison.deltas,
        d,
        |d: BenchmarkDeltaView|
            gain(d).at_most(config.thresholds.critical_regression_pct.negated()),
    );
    counted(comparison.deltas, e, |d: BenchmarkDeltaView| d.semantic_change is Some);
    sorted_is_permutation::<BenchmarkRecord, NoisiestFirst>(keep(records, b));
    sorted_is_permutation::<BenchmarkDelta, WorstFirst>(keep(comparison.deltas, d));
}

proof fn counted<A>(s: Seq<A>, p: spec_fn(A) -> bool, q: spec_fn(A) -> bool)
    requires
        forall|x: A| #[trigger] p(x) == q(x),
    ensures
        keep(s, p).len() == places(s, q),
{
    kept_count(s, p);
    assert(vstd::set_lib::set_int_range(0, s.len() as int).filter(|i: int| p(s[i]))
        =~= vstd::set_lib::set_int_range(0, s.len() as int).filter(|i: int| q(s[i])));
}

/// Whether two ids have the same segments but for one, in which the same key has another
/// value.
pub open spec fn differ_in_one_value(
    was: Seq<char>,
    now: Seq<char>,
    at: int,
    key: Seq<char>,
    old_value: Seq<char>,
    new_value: Seq<char>,
) -> bool {
    &&& pieces(was, "|"@).len() == pieces(now, "|"@).len()
    &&& 0 <= at < pieces(was, "|"@).len()
    &&& forall|i: int|
        0 <= i < pieces(was, "|"@).len() && i != at ==> #[trigger] pieces(was, "|"@)[i] == pieces(
            now,
            "|"@,
        )[i]
    &&& pieces(was, "|"@)[at] == key + "="@ + old_value
    &&& pieces(now, "|"@)[at] == key + "="@ + new_value
    &&& !key.contains('=')
    &&& old_value != new_value
}

proof fn equals_sign_parts(s: Seq<char>)
    ensures
        contains_text(s, "="@) ==> s == before_first(s, "="@) + "="@ + after_first(s, "="@)
            && !before_first(s, "="@).contains('='),
        forall|key: Seq<char>, value: Seq<char>|
            s == #[trigger] (key + "="@ + value) && !key.contains('=') ==> contains_text(s, "="@)
                && before_first(s, "="@) == key && after_first(s, "="@) == value,
{
    reveal_strlit("=");
    crate::text::contains_text_iff(s, "="@);
    crate::text::find_from_found(s, "="@, 0);
    if let Some(i) = crate::text::find_from(s, "="@, 0) {
        crate::text_laws::standing(s, "="@, i);
        assert(s.subrange(i, i + 1)[0] == '=');
        assert(s =~= before_first(s, "="@) + "="@ + after_first(s, "="@));
        assert forall|j: int| 0 <= j < i implies #[trigger] s[j] != '=' by {
            if s[j] == '=' {
                assert(s.subrange(j, j + 1) =~= "="@);
                crate::text_laws::standing(s, "="@, j);
            }
        }
    }
    assert forall|key: Seq<char>, value: Seq<char>|
        s == #[trigger] (key + "="@ + value) && !key.contains('=') implies contains_text(s, "="@)
        && before_first(s, "="@) == key && after_first(s, "="@) == value by {
        let n = key.len() as int;
        assert(s.subrange(n, n + 1) =~= "="@);
        crate::text_laws::standing(s, "="@, n);
        assert(crate::text::matches_at(s, "="@, n));
        let i = crate::text::find_from(s, "="@, 0)->0;
        assert(crate::text::find_from(s, "="@, 0) is Some);
        assert(i <= n);
        if i < n {
            assert(s[i] == '=');
            assert(key[i] == s[i]);
            assert(key.contains('='));
        }
        assert(before_first(s, "="@) =~= key);
        assert(after_first(s, "="@) =~= value);
    }
}

/// Two ids are taken for those of one renamed record exactly where they differ in the value
/// of one segment.
pub proof fn renamed_records_differ_in_one_value(was: Seq<char>, now: Seq<char>)
    ensures
        forall|at: int, key: Seq<char>, old_value: Seq<char>, new_value: Seq<char>| #[trigger]
            differ_in_one_value(was, now, at, key, old_value, new_value) ==> changed_value(was, now)
                == Some((key, old_value, new_value)),
        changed_value(was, now) matches Some((key, old_value, new_value)) ==> exists|at: int|
            #[trigger] differ_in_one_value(was, now, at, key, old_value, new_value),
{
    let a = pieces(was, "|"@);
    let b = pieces(now, "|"@);
    let pairs = Seq::new(a.len(), |i: int| (a[i], b[i]));
    let p = |pair: (Seq<char>, Seq<char>)| pair.0 != pair.1;
    kept_none(pairs, p);
    kept_many(pairs, p);
    assert forall|at: int, key: Seq<char>, old_value: Seq<char>, new_value: Seq<char>| #[trigger]
        differ_in_one_value(was, now, at, key, old_value, new_value) implies changed_value(was, now)
        == Some((key, old_value, new_value)) by {
        equals_sign_parts(a[at]);
        equals_sign_parts(b[at]);
        assert(before_first(a[at], "="@) == key && after_first(a[at], "="@) == old_value);
        assert(before_first(b[at], "="@) == key && after_first(b[at], "="@) == new_value);
        assert(p(pairs[at]));
        assert forall|i: int| 0 <= i < pairs.len() && i != at implies !p(#[trigger] pairs[i]) by {
            assert(a[i] == b[i]);
        }
        kept_first(pairs, p, at);
    }
    if let Some((key, old_value, new_value)) = changed_value(was, now) {
        assert(keep(pairs, p).len() == 1);
        let at = choose|i: int| 0 <= i < pairs.len() && p(#[trigger] pairs[i]);
        assert forall|i: int| 0 <= i < a.len() && i != at implies #[trigger] a[i] == b[i] by {
            if a[i] != b[i] {
                assert(p(pairs[i]) && p(pairs[at]));
                if i < at {
                    assert(p(pairs[i]) && p(pairs[at]));
                } else {
                    assert(p(pairs[at]) && p(pairs[i]));
                }
            }
        }
        assert forall|i: int| 0 <= i < at implies !p(#[trigger] pairs[i]) by {
            assert(a[i] == b[i]);
        }
        kept_first(pairs, p, at);
        equals_sign_parts(a[at]);
        equals_sign_parts(b[at]);
        assert(differ_in_one_value(was, now, at, key, old_value, new_value));
    }
}

/// Renames are told of a new and a missing record of the same adapter and metric whose ids
/// differ in one value.
pub proof fn renames_are_told(
    new_records: Seq<BenchmarkRecordView>,
    missing_records: Seq<BenchmarkRecordView>,
    rename: ProbableRenameView,
)
    ensures
        renames_of(new_records, missing_records).contains(rename) <==> exists|i: int, j: int|
            0 <= i < new_records.len() && 0 <= j < missing_records.len() && #[trigger] renames(
                new_records[i],
                missing_records[j],
                rename,
            ),
{
    let f = |current: BenchmarkRecordView|
        flat(missing_records, |baseline: BenchmarkRecordView| rename_of(current, baseline));
    crate::validate_tests::laws::in_flat(new_records, f, rename);
    if renames_of(new_records, missing_records).contains(rename) {
        let i = choose|i: int| 0 <= i < new_records.len() && f(#[trigger] new_records[i]).contains(
            rename,
        );
        let g = |baseline: BenchmarkRecordView| rename_of(new_records[i], baseline);
        crate::validate_tests::laws::in_flat(missing_records, g, rename);
        let j = choose|j: int|
            0 <= j < missing_records.len() && g(#[trigger] missing_records[j]).contains(rename);
        assert(renames(new_records[i], missing_records[j], rename));
    }
    if exists|i: int, j: int|
        0 <= i < new_records.len() && 0 <= j < missing_records.len() && #[trigger] renames(
            new_records[i],
            missing_records[j],
            rename,
        ) {
        let (i, j) = choose|i: int, j: int|
            0 <= i < new_records.len() && 0 <= j < missing_records.len() && #[trigger] renames(
                new_records[i],
                missing_records[j],
                rename,
            );
        let g = |baseline: BenchmarkRecordView| rename_of(new_records[i], baseline);
        crate::validate_tests::laws::in_flat(missing_records, g, rename);
        let made = g(missing_records[j]);
        assert(made.len() == 1 && made[0] == rename);
        assert(made.contains(rename));
        assert(f(new_records[i]).contains(rename));
    }
}

/// Whether this is the rename that a new record and a missing one suggest.
pub open spec fn renames(
    current: BenchmarkRecordView,
    baseline: BenchmarkRecordView,
    rename: ProbableRenameView,
) -> bool {
    &&& current.adapter == baseline.adapter
    &&& current.metric == baseline.metric
    &&& rename.baseline_id == baseline.id
    &&& rename.current_id == current.id
    &&& changed_value(baseline.id, current.id) == Some(
        (rename.changed_key, rename.baseline_value, rename.current_value),
    )
}

/// Where nothing is configured a change by ten per cent is a warning and one by twenty-five
/// critical; deviations of five, ten and twenty per cent part the stabilities; and results
/// with the status or the stability `acceptable` or better are relied on.
pub proof fn defaults_of_a_summary(
    root: Seq<char>,
    product_name: Seq<char>,
    report_title: Seq<char>,
)
    ensures
        ({
            let config = default_config(root, product_name, report_title);
            &&& config.thresholds.warning_regression_pct.bits == 0x4024_0000_0000_0000
            &&& config.thresholds.critical_regression_pct.bits == 0x4039_0000_0000_0000
            &&& config.stability_thresholds.stable.bits == 0x3fa9_9999_9999_999a
            &&& config.stability_thresholds.acceptable.bits == 0x3fb9_9999_9999_999a
            &&& config.stability_thresholds.noisy.bits == 0x3fc9_9999_9999_999a
            &&& forall|status: Seq<char>|
                config.authoritative_statuses.contains(status) <==> status == "authoritative"@
                    || status == "acceptable"@
            &&& forall|stability: Seq<char>|
                config.authoritative_stabilities.contains(stability) <==> stability == "stable"@
                    || stability == "acceptable"@
            &&& config.root == root
            &&& config.product_name == product_name
            &&& config.report_title == report_title
        }),
{
}

/// The case of a stress benchmark is what stands behind the last `::` of its name.
pub proof fn cases_stand_behind_the_last_module(name: Seq<char>)
    ensures
        !occurs_in(case_name(name), "::"@),
        case_name(name) == name || ("::"@ + case_name(name)).is_suffix_of(name),
        !occurs_in(name, "::"@) ==> case_name(name) == name,
{
    reveal_strlit("::");
    pieces_join_to_the_text(name, "::"@);
    let parts = pieces(name, "::"@);
    let case = case_name(name);
    assert(case == parts[parts.len() - 1]);
    if parts.len() == 1 {
        assert(joined(parts, "::"@) == parts[0]);
    } else {
        let before = joined(parts.drop_last(), "::"@);
        assert(name == before + "::"@ + case);
        let end = "::"@ + case;
        assert(name.subrange(name.len() - end.len(), name.len() as int) =~= end);
        assert(crate::text_laws::stands_at(name, "::"@, before.len() as int));
    }
}

} // verus!
